//! Verified core of a desktop text editor: an incremental syntax-highlight
//! cache, a text-search engine with match navigation, a terminal-session
//! state machine, and a line-index cache.

use vstd::prelude::*;

pub mod highlight;
pub mod linecache;
pub mod overlay;
pub mod search;
pub mod strutil;
pub mod terminal;
pub mod version;

pub use version::compare_versions;
pub use version::get_version;
pub use version::VERSION;

verus! {

/// Which top-level view the application is showing.
#[derive(Default, PartialEq, Eq, Structural, Clone, Copy, Debug)]
pub enum ViewType {
    #[default]
    Home,
    Editor,
}

} // verus!
