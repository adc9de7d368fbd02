//! Terminal-session state machine.
//!
//! The bridge owns the decisions of the embedded terminal: when a session
//! must be started and with which command, what is written to the child when
//! a line is submitted, how output chunks accumulate, and what the panel
//! displays.  The process work itself — allocating a pseudo-terminal,
//! spawning the child, pumping its output on a reader thread — is performed
//! by the caller, which executes each returned [`TermAction`] and feeds
//! events and decoded output back in.
//!
//! At most one session exists at a time: a start request while a session is
//! alive is silently ignored.  Closing the panel clears every session
//! reference; the next toggle-on starts a brand-new session.

use crate::strutil::last_pos;
use vstd::prelude::*;

verus! {

/// The lifecycle of the terminal session.
#[derive(Clone, Copy, PartialEq, Eq, Structural, Debug)]
pub enum TermPhase {
    Closed,
    Initializing,
    Running,
}

/// A command the caller must spawn inside a fresh pseudo-terminal.
#[derive(Debug)]
pub struct StartSpec {
    pub program: String,
    pub arg: Option<String>,
    pub cwd: String,
}

/// What the caller must do after a bridge call.
#[derive(Debug)]
pub enum TermAction {
    /// Nothing to do.
    Idle,
    /// Allocate a pseudo-terminal and spawn the given command.
    Start(StartSpec),
    /// Drop the pseudo-terminal, writer and child handles; the reader thread
    /// exits on its own when the pipe closes.
    Shutdown,
}

/// The directory part of `s`: everything before its last `'/'`, empty when
/// `s` has none.
pub open spec fn spec_parent_dir(s: Seq<char>) -> Seq<char> {
    if last_pos(s, '/') >= 0 {
        s.subrange(0, last_pos(s, '/'))
    } else {
        Seq::empty()
    }
}

/// True when `s` ends with `suf`.
pub open spec fn spec_has_suffix(s: Seq<char>, suf: Seq<char>) -> bool {
    s.len() >= suf.len() && s.subrange(s.len() - suf.len(), s.len() as int) == suf
}

/// True when `s` consists only of blank characters (spaces, tabs, carriage
/// returns and newlines); such a line is not submitted.
pub open spec fn is_blank(s: Seq<char>) -> bool {
    forall|i: int|
        0 <= i < s.len() ==> (s[i] == ' ' || s[i] == '\t' || s[i] == '\r' || s[i] == '\n')
}

/// The directory part of `filename`: everything before its last `'/'`.
pub fn parent_dir(filename: &str) -> (r: String)
    ensures
        r@ =~= spec_parent_dir(filename@),
{
    let n: usize = filename.unicode_len();
    let mut lp: usize = 0;
    let mut seen: bool = false;
    let mut i: usize = 0;
    while i < n
        invariant
            0 <= i <= n,
            n == filename@.len(),
            seen == (last_pos(filename@.take(i as int), '/') >= 0),
            seen ==> lp == last_pos(filename@.take(i as int), '/'),
            !seen ==> lp == 0,
            lp < n || n == 0,
            lp <= i,
        decreases n - i,
    {
        proof {
            assert(filename@.take(i as int + 1).drop_last() =~= filename@.take(i as int));
            crate::strutil::lemma_last_pos_bounds(filename@.take(i as int), '/');
        }
        if filename.get_char(i) == '/' {
            lp = i;
            seen = true;
        }
        i += 1;
    }
    proof {
        assert(filename@.take(n as int) =~= filename@);
    }
    if seen {
        filename.substring_char(0, lp).to_owned()
    } else {
        String::new()
    }
}

/// True when `s` ends with `suf`.
pub fn has_suffix(s: &str, suf: &str) -> (r: bool)
    ensures
        r == spec_has_suffix(s@, suf@),
{
    let n: usize = s.unicode_len();
    let m: usize = suf.unicode_len();
    if m > n {
        return false;
    }
    let mut j: usize = 0;
    while j < m
        invariant
            0 <= j <= m,
            m <= n,
            n == s@.len(),
            m == suf@.len(),
            forall|k: int| 0 <= k < j ==> s@[n - m + k] == suf@[k],
        decreases m - j,
    {
        if s.get_char(n - m + j) != suf.get_char(j) {
            proof {
                assert(s@.subrange(n as int - m, n as int)[j as int] != suf@[j as int]);
            }
            return false;
        }
        j += 1;
    }
    proof {
        assert(s@.subrange(n as int - m, n as int) =~= suf@);
    }
    true
}

/// True when `s` consists only of blank characters.
fn is_blank_exec(s: &str) -> (r: bool)
    ensures
        r == is_blank(s@),
{
    let n: usize = s.unicode_len();
    let mut i: usize = 0;
    while i < n
        invariant
            0 <= i <= n,
            n == s@.len(),
            forall|k: int|
                0 <= k < i ==> (s@[k] == ' ' || s@[k] == '\t' || s@[k] == '\r' || s@[k] == '\n'),
        decreases n - i,
    {
        let c = s.get_char(i);
        if c != ' ' && c != '\t' && c != '\r' && c != '\n' {
            return false;
        }
        i += 1;
    }
    true
}

/// The terminal bridge: panel visibility, session phase, and the two
/// buffers shared with the user interface.
pub struct TerminalBridge {
    panel_open: bool,
    phase: TermPhase,
    output: String,
    input_line: String,
}

impl TerminalBridge {
    /// Whether the terminal panel is shown.
    pub closed spec fn panel_open_view(self) -> bool {
        self.panel_open
    }

    /// The session lifecycle phase.
    pub closed spec fn phase_view(self) -> TermPhase {
        self.phase
    }

    /// The accumulated output, including echoed input lines.
    pub closed spec fn output_view(self) -> Seq<char> {
        self.output@
    }

    /// The pending input line.
    pub closed spec fn input_view(self) -> Seq<char> {
        self.input_line@
    }

    /// A bridge with no panel, no session and empty buffers.
    pub open spec fn is_fresh(self) -> bool {
        &&& !self.panel_open_view()
        &&& self.phase_view() is Closed
        &&& self.output_view().len() == 0
        &&& self.input_view().len() == 0
    }

    /// A closed panel never holds a session, and the buffers exist only
    /// while one is running.
    pub open spec fn wf(self) -> bool {
        &&& (!self.panel_open_view() ==> self.phase_view() is Closed)
        &&& (!(self.phase_view() is Running) ==> self.output_view().len() == 0
            && self.input_view().len() == 0)
    }

    /// A fresh bridge.
    pub fn new() -> (s: Self)
        ensures
            s.wf(),
            s.is_fresh(),
    {
        TerminalBridge {
            panel_open: false,
            phase: TermPhase::Closed,
            output: String::new(),
            input_line: String::new(),
        }
    }

    /// Whether the terminal panel is shown.
    pub fn is_panel_open(&self) -> (r: bool)
        ensures
            r == self.panel_open_view(),
    {
        self.panel_open
    }

    /// The session lifecycle phase.
    pub fn phase(&self) -> (r: TermPhase)
        ensures
            r == self.phase_view(),
    {
        self.phase
    }

    /// The accumulated output.
    pub fn output(&self) -> (r: &String)
        ensures
            r@ == self.output_view(),
    {
        &self.output
    }

    /// The pending input line.
    pub fn input_line(&self) -> (r: &String)
        ensures
            r@ == self.input_view(),
    {
        &self.input_line
    }

    /// Toggles the terminal panel.
    ///
    /// Opening it asks the caller to start an interactive shell in the
    /// directory of the open file.  Closing it clears every session
    /// reference — the bridge returns to its fresh state — and asks the
    /// caller to drop the pseudo-terminal if a session was alive.
    pub fn toggle_panel(&mut self, filename: &str) -> (r: TermAction)
        requires
            old(self).wf(),
        ensures
            final(self).wf(),
            !old(self).panel_open_view() ==> {
                &&& final(self).panel_open_view()
                &&& final(self).phase_view() is Initializing
                &&& final(self).output_view().len() == 0
                &&& final(self).input_view().len() == 0
                &&& r matches TermAction::Start(sp) && sp.program@ == "/bin/sh"@ && sp.arg is None
                    && sp.cwd@ == spec_parent_dir(filename@)
            },
            old(self).panel_open_view() ==> {
                &&& final(self).is_fresh()
                &&& (old(self).phase_view() is Closed <==> r is Idle)
                &&& (!(old(self).phase_view() is Closed) <==> r is Shutdown)
            },
    {
        if !self.panel_open {
            self.panel_open = true;
            self.phase = TermPhase::Initializing;
            let cwd = parent_dir(filename);
            TermAction::Start(
                StartSpec { program: String::from_str("/bin/sh"), arg: None, cwd },
            )
        } else {
            let had_session = !matches!(self.phase, TermPhase::Closed);
            self.panel_open = false;
            self.phase = TermPhase::Closed;
            self.output = String::new();
            self.input_line = String::new();
            if had_session {
                TermAction::Shutdown
            } else {
                TermAction::Idle
            }
        }
    }

    /// Asks to run the open file: `cargo run` beside a Rust source file, the
    /// interpreter on a Python file, and an interactive shell otherwise, all
    /// in the file's directory.  The panel opens; a request while a session
    /// is already alive is silently ignored.
    pub fn request_run(&mut self, filename: &str) -> (r: TermAction)
        requires
            old(self).wf(),
        ensures
            final(self).wf(),
            final(self).panel_open_view(),
            final(self).output_view() == old(self).output_view(),
            final(self).input_view() == old(self).input_view(),
            !(old(self).phase_view() is Closed) ==> r is Idle && final(self).phase_view() == old(
                self,
            ).phase_view(),
            old(self).phase_view() is Closed ==> {
                &&& final(self).phase_view() is Initializing
                &&& r matches TermAction::Start(sp) && sp.cwd@ == spec_parent_dir(filename@) && (
                if spec_has_suffix(filename@, ".rs"@) {
                    sp.program@ == "cargo"@ && (sp.arg matches Some(a) && a@ == "run"@)
                } else if spec_has_suffix(filename@, ".py"@) {
                    sp.program@ == "python"@ && (sp.arg matches Some(a) && a@ == filename@)
                } else {
                    sp.program@ == "/bin/sh"@ && sp.arg is None
                })
            },
    {
        self.panel_open = true;
        if !matches!(self.phase, TermPhase::Closed) {
            return TermAction::Idle;
        }
        self.phase = TermPhase::Initializing;
        let cwd = parent_dir(filename);
        if has_suffix(filename, ".rs") {
            TermAction::Start(
                StartSpec {
                    program: String::from_str("cargo"),
                    arg: Some(String::from_str("run")),
                    cwd,
                },
            )
        } else if has_suffix(filename, ".py") {
            TermAction::Start(
                StartSpec {
                    program: String::from_str("python"),
                    arg: Some(filename.to_owned()),
                    cwd,
                },
            )
        } else {
            TermAction::Start(
                StartSpec { program: String::from_str("/bin/sh"), arg: None, cwd },
            )
        }
    }

    /// The caller reports that the child was spawned and the writer
    /// acquired: the session is running.  A report without a pending start
    /// is ignored.
    pub fn session_started(&mut self)
        requires
            old(self).wf(),
        ensures
            final(self).wf(),
            old(self).phase_view() is Initializing ==> final(self).phase_view() is Running,
            !(old(self).phase_view() is Initializing) ==> *final(self) == *old(self),
            final(self).panel_open_view() == old(self).panel_open_view(),
            final(self).output_view() == old(self).output_view(),
            final(self).input_view() == old(self).input_view(),
    {
        if matches!(self.phase, TermPhase::Initializing) {
            self.phase = TermPhase::Running;
        }
    }

    /// The caller reports that allocation, spawn or writer acquisition
    /// failed: the session returns to `Closed`; the panel stays open and the
    /// user may try again.
    pub fn session_failed(&mut self)
        requires
            old(self).wf(),
        ensures
            final(self).wf(),
            old(self).phase_view() is Initializing ==> final(self).phase_view() is Closed,
            !(old(self).phase_view() is Initializing) ==> *final(self) == *old(self),
            final(self).panel_open_view() == old(self).panel_open_view(),
            final(self).output_view() == old(self).output_view(),
            final(self).input_view() == old(self).input_view(),
    {
        if matches!(self.phase, TermPhase::Initializing) {
            self.phase = TermPhase::Closed;
        }
    }

    /// Appends a decoded chunk of child output.  Chunks arriving when no
    /// session is running (a reader thread outliving its session) are
    /// dropped.
    pub fn append_output(&mut self, chunk: &str)
        requires
            old(self).wf(),
        ensures
            final(self).wf(),
            old(self).phase_view() is Running ==> final(self).output_view() == old(
                self,
            ).output_view() + chunk@,
            !(old(self).phase_view() is Running) ==> *final(self) == *old(self),
            final(self).phase_view() == old(self).phase_view(),
            final(self).panel_open_view() == old(self).panel_open_view(),
            final(self).input_view() == old(self).input_view(),
    {
        if matches!(self.phase, TermPhase::Running) {
            self.output.append(chunk);
        }
    }

    /// Replaces the pending input line; effective only while a session is
    /// running.
    pub fn set_input_line(&mut self, line: &str)
        requires
            old(self).wf(),
        ensures
            final(self).wf(),
            old(self).phase_view() is Running ==> final(self).input_view() == line@,
            !(old(self).phase_view() is Running) ==> *final(self) == *old(self),
            final(self).phase_view() == old(self).phase_view(),
            final(self).panel_open_view() == old(self).panel_open_view(),
            final(self).output_view() == old(self).output_view(),
    {
        if matches!(self.phase, TermPhase::Running) {
            self.input_line = line.to_owned();
        }
    }

    /// Submits the pending input line.
    ///
    /// While a session is running and the line is not blank, the returned
    /// string — the line with a newline appended — must be written to the
    /// child's input; the line is echoed into the output behind a `"$ "`
    /// prompt marker and cleared.  Otherwise nothing happens.
    pub fn submit_input(&mut self) -> (r: Option<String>)
        requires
            old(self).wf(),
        ensures
            final(self).wf(),
            final(self).phase_view() == old(self).phase_view(),
            final(self).panel_open_view() == old(self).panel_open_view(),
            (old(self).phase_view() is Running && !is_blank(old(self).input_view())) ==> {
                &&& r matches Some(line) && line@ == old(self).input_view() + seq!['\n']
                &&& final(self).output_view() == old(self).output_view() + seq!['$', ' '] + old(
                    self,
                ).input_view() + seq!['\n']
                &&& final(self).input_view().len() == 0
            },
            !(old(self).phase_view() is Running && !is_blank(old(self).input_view())) ==> (r
                is None && *final(self) == *old(self)),
    {
        if !matches!(self.phase, TermPhase::Running) {
            return None;
        }
        if is_blank_exec(self.input_line.as_str()) {
            return None;
        }
        let mut to_send = self.input_line.clone();
        to_send.push('\n');
        let mut echoed = String::from_str("$ ");
        proof {
            reveal_strlit("$ ");
        }
        echoed.append(self.input_line.as_str());
        echoed.push('\n');
        self.output.append(echoed.as_str());
        self.input_line = String::new();
        proof {
            assert(self.output@ =~= old(self).output_view() + seq!['$', ' '] + old(
                self,
            ).input_view() + seq!['\n']);
            assert(to_send@ =~= old(self).input_view() + seq!['\n']);
        }
        Some(to_send)
    }

    /// The text the terminal panel displays: the output, closed with a
    /// newline when it does not end in one, followed by the prompt marker
    /// and the pending input line.
    pub fn display_content(&self) -> (r: String)
        ensures
            r@ =~= (if self.output_view().len() > 0 && self.output_view().last() == '\n' {
                self.output_view()
            } else {
                self.output_view() + seq!['\n']
            }) + seq!['$', ' '] + self.input_view(),
    {
        let mut content = self.output.clone();
        let n: usize = content.as_str().unicode_len();
        let needs_nl = if n == 0 {
            true
        } else {
            content.as_str().get_char(n - 1) != '\n'
        };
        if needs_nl {
            content.push('\n');
        }
        proof {
            reveal_strlit("$ ");
        }
        content.append("$ ");
        content.append(self.input_line.as_str());
        content
    }
}

} // verus!
