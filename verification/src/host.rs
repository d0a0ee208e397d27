//! The host-side state that consumes the pipeline's event stream: the
//! timestamped log buffer with its fixed capacity, the displayed progress, the
//! one-active-run-at-a-time rule, and the login/logout transitions. The
//! channel endpoints and the clock stay outside the library: the host drains
//! its receiver and hands each event in, together with the current time in
//! seconds.

use vstd::prelude::*;

use crate::events::{PipelineEvent, PROGRESS_FULL};
use crate::symbols::{dec_u64, spec_decimal};

verus! {

/// Which screen the host shows.
#[derive(Clone, Copy, Debug, PartialEq, Eq, Structural)]
pub enum AppState {
    Login,
    Dashboard,
}

/// What the authentication worker reports back.
#[derive(Debug)]
pub enum AuthMsg {
    Success(String),
    Error(String),
}

/// The log buffer keeps at most this many entries; older ones are dropped
/// from the front.
pub const LOG_CAPACITY: usize = 2000;

/// A log line: the timestamp in seconds, bracketed, then the message.
pub open spec fn spec_log_entry(ts: nat, msg: Seq<char>) -> Seq<char> {
    "["@ + spec_decimal(ts) + "] "@ + msg
}

/// One of the characters with the Unicode `White_Space` property — the set
/// `str::trim` strips.
pub open spec fn is_space_char(c: char) -> bool {
    ||| c == '\u{9}'
    ||| c == '\u{a}'
    ||| c == '\u{b}'
    ||| c == '\u{c}'
    ||| c == '\u{d}'
    ||| c == ' '
    ||| c == '\u{85}'
    ||| c == '\u{a0}'
    ||| c == '\u{1680}'
    ||| ('\u{2000}' <= c && c <= '\u{200a}')
    ||| c == '\u{2028}'
    ||| c == '\u{2029}'
    ||| c == '\u{202f}'
    ||| c == '\u{205f}'
    ||| c == '\u{3000}'
}

/// The string is empty or all whitespace: trimming it leaves nothing.
pub open spec fn spec_blank(s: Seq<char>) -> bool {
    forall|i: int| 0 <= i < s.len() ==> is_space_char(#[trigger] s[i])
}

/// Returns true exactly when the string trims to nothing.
pub fn is_blank(s: &str) -> (r: bool)
    ensures
        r == spec_blank(s@),
{
    let n = s.unicode_len();
    let mut i: usize = 0;
    while i < n
        invariant
            i <= n == s@.len(),
            forall|j: int| 0 <= j < i ==> is_space_char(#[trigger] s@[j]),
        decreases n - i,
    {
        let c = s.get_char(i);
        let space = c == '\u{9}' || c == '\u{a}' || c == '\u{b}' || c == '\u{c}' || c == '\u{d}'
            || c == ' ' || c == '\u{85}' || c == '\u{a0}' || c == '\u{1680}' || ('\u{2000}' <= c
            && c <= '\u{200a}') || c == '\u{2028}' || c == '\u{2029}' || c == '\u{202f}' || c
            == '\u{205f}' || c == '\u{3000}';
        if !space {
            return false;
        }
        i += 1;
    }
    true
}

/// The host's displayed state.
pub struct ObscuraState {
    pub state: AppState,
    pub email: String,
    pub password: String,
    pub logs: Vec<String>,
    pub selected_file: Option<String>,
    pub encrypt_strings: bool,
    pub obfuscate_functions: bool,
    pub processing: bool,
    /// Displayed progress in thousandths, clamped to `0 ..= PROGRESS_FULL`.
    pub progress_milli: u32,
    pub last_output: Option<String>,
    pub token: Option<String>,
    pub auth_processing: bool,
    pub last_auth_error: Option<String>,
}

pub open spec fn view_opt(o: Option<String>) -> Option<Seq<char>> {
    match o {
        Some(s) => Some(s@),
        None => None,
    }
}

/// The two states agree on everything but the log buffer.
pub open spec fn same_but_logs(a: ObscuraState, b: ObscuraState) -> bool {
    &&& a.state == b.state
    &&& a.email@ == b.email@
    &&& a.password@ == b.password@
    &&& view_opt(a.selected_file) == view_opt(b.selected_file)
    &&& a.encrypt_strings == b.encrypt_strings
    &&& a.obfuscate_functions == b.obfuscate_functions
    &&& a.processing == b.processing
    &&& a.progress_milli == b.progress_milli
    &&& view_opt(a.last_output) == view_opt(b.last_output)
    &&& view_opt(a.token) == view_opt(b.token)
    &&& a.auth_processing == b.auth_processing
    &&& view_opt(a.last_auth_error) == view_opt(b.last_auth_error)
}

/// The log buffer `b` is `a` plus one entry with the given text, trimmed to
/// capacity from the front.
pub open spec fn logs_extended(a: Seq<String>, b: Seq<String>, entry: Seq<char>) -> bool {
    let shift: int = if a.len() + 1 <= LOG_CAPACITY {
        0
    } else {
        a.len() + 1 - LOG_CAPACITY
    };
    &&& b.len() == a.len() + 1 - shift
    &&& b.len() > 0
    &&& b.last()@ == entry
    &&& forall|i: int| 0 <= i < b.len() - 1 ==> #[trigger] b[i] == a[i + shift]
}

impl ObscuraState {
    pub fn new() -> (s: Self)
        ensures
            s.state == AppState::Login,
            s.email@ == Seq::<char>::empty(),
            s.password@ == Seq::<char>::empty(),
            s.logs@ == Seq::<String>::empty(),
            s.selected_file is None,
            s.encrypt_strings,
            s.obfuscate_functions,
            !s.processing,
            s.progress_milli == 0,
            s.last_output is None,
            s.token is None,
            !s.auth_processing,
            s.last_auth_error is None,
    {
        ObscuraState {
            state: AppState::Login,
            email: String::new(),
            password: String::new(),
            logs: Vec::new(),
            selected_file: None,
            encrypt_strings: true,
            obfuscate_functions: true,
            processing: false,
            progress_milli: 0,
            last_output: None,
            token: None,
            auth_processing: false,
            last_auth_error: None,
        }
    }

    /// Appends a timestamped log entry, dropping the oldest entry once the
    /// buffer is at capacity.
    pub fn push_log(&mut self, msg: String, now_secs: u64)
        ensures
            same_but_logs(*final (self), *old(self)),
            logs_extended(
                old(self).logs@,
                final (self).logs@,
                spec_log_entry(now_secs as nat, msg@),
            ),
    {
        let mut entry = "[".to_owned();
        entry.append(dec_u64(now_secs).as_str());
        entry.append("] ");
        entry.append(msg.as_str());
        let ghost pre = self.logs@;
        self.logs.push(entry);
        let ghost all = self.logs@;
        while self.logs.len() > LOG_CAPACITY
            invariant
                same_but_logs(*self, *old(self)),
                self.logs@.len() >= 1,
                all.len() >= self.logs@.len(),
                self.logs@ =~= all.skip(all.len() - self.logs@.len()),
                self.logs@.len() >= LOG_CAPACITY || self.logs@.len() == all.len(),
            decreases self.logs@.len(),
        {
            self.logs.remove(0);
            proof {
                assert(self.logs@ =~= all.skip(all.len() - self.logs@.len()));
            }
        }
        proof {
            let shift: int = if pre.len() + 1 <= LOG_CAPACITY {
                0
            } else {
                pre.len() + 1 - LOG_CAPACITY
            };
            assert(self.logs@.len() == all.len() - shift);
            assert(self.logs@.last() == all.last());
            assert forall|i: int| 0 <= i < self.logs@.len() - 1 implies #[trigger] self.logs@[i]
                == pre[i + shift] by {
                assert(self.logs@[i] == all[i + shift]);
                assert(all[i + shift] == pre[i + shift]);
            }
        }
    }

    /// Applies one pipeline event to the displayed state, as the host's drain
    /// loop does: log lines are appended, progress is clamped and stored, and
    /// a terminal event ends the processing indicator — `Done` records the
    /// output path at full progress.
    pub fn apply_pipeline_event(&mut self, e: PipelineEvent, now_secs: u64)
        ensures
            e matches PipelineEvent::Log(s) ==> {
                &&& logs_extended(
                    old(self).logs@,
                    final (self).logs@,
                    spec_log_entry(now_secs as nat, s@),
                )
                &&& final (self).processing == old(self).processing
                &&& final (self).progress_milli == old(self).progress_milli
            },
            e matches PipelineEvent::Progress(p) ==> {
                &&& final (self).progress_milli == (if p <= PROGRESS_FULL {
                    p
                } else {
                    PROGRESS_FULL
                })
                &&& final (self).logs@ == old(self).logs@
                &&& final (self).processing == old(self).processing
                &&& view_opt(final (self).last_output) == view_opt(old(self).last_output)
            },
            e matches PipelineEvent::Done(p) ==> {
                &&& !final (self).processing
                &&& final (self).progress_milli == PROGRESS_FULL
                &&& view_opt(final (self).last_output) == Some(p@)
                &&& logs_extended(
                    old(self).logs@,
                    final (self).logs@,
                    spec_log_entry(now_secs as nat, "Pipeline finished. Output: "@ + p@),
                )
            },
            e matches PipelineEvent::Error(m) ==> {
                &&& !final (self).processing
                &&& final (self).progress_milli == old(self).progress_milli
                &&& view_opt(final (self).last_output) == view_opt(old(self).last_output)
                &&& logs_extended(
                    old(self).logs@,
                    final (self).logs@,
                    spec_log_entry(now_secs as nat, "Pipeline error: "@ + m@),
                )
            },
            e is Cancelled ==> {
                &&& !final (self).processing
                &&& final (self).progress_milli == old(self).progress_milli
                &&& view_opt(final (self).last_output) == view_opt(old(self).last_output)
                &&& logs_extended(
                    old(self).logs@,
                    final (self).logs@,
                    spec_log_entry(now_secs as nat, "Pipeline cancelled"@),
                )
            },
            final (self).email@ == old(self).email@,
            final (self).password@ == old(self).password@,
            view_opt(final (self).token) == view_opt(old(self).token),
            final (self).state == old(self).state,
    {
        match e {
            PipelineEvent::Log(s) => {
                self.push_log(s, now_secs);
            },
            PipelineEvent::Progress(p) => {
                self.progress_milli = if p <= PROGRESS_FULL {
                    p
                } else {
                    PROGRESS_FULL
                };
            },
            PipelineEvent::Done(path) => {
                let mut m = "Pipeline finished. Output: ".to_owned();
                m.append(path.as_str());
                self.push_log(m, now_secs);
                self.last_output = Some(path);
                self.processing = false;
                self.progress_milli = PROGRESS_FULL;
            },
            PipelineEvent::Error(msg) => {
                let mut m = "Pipeline error: ".to_owned();
                m.append(msg.as_str());
                self.push_log(m, now_secs);
                self.processing = false;
            },
            PipelineEvent::Cancelled => {
                self.push_log("Pipeline cancelled".to_owned(), now_secs);
                self.processing = false;
            },
        }
    }

    /// Applies one authentication message: success stores the token and moves
    /// to the dashboard; failure records the error text.
    pub fn apply_auth_msg(&mut self, m: AuthMsg, now_secs: u64)
        ensures
            !final (self).auth_processing,
            m matches AuthMsg::Success(tok) ==> view_opt(final (self).token) == Some(tok@)
                && final (self).state == AppState::Dashboard && final (self).last_auth_error
                is None,
            m matches AuthMsg::Error(e) ==> view_opt(final (self).last_auth_error) == Some(e@)
                && final (self).state == old(self).state && view_opt(final (self).token)
                == view_opt(old(self).token),
    {
        match m {
            AuthMsg::Success(tok) => {
                self.push_log("Authentication successful".to_owned(), now_secs);
                self.token = Some(tok);
                self.state = AppState::Dashboard;
                self.auth_processing = false;
                self.last_auth_error = None;
            },
            AuthMsg::Error(e) => {
                let mut m2 = "Authentication failed: ".to_owned();
                m2.append(e.as_str());
                self.push_log(m2, now_secs);
                self.auth_processing = false;
                self.last_auth_error = Some(e);
            },
        }
    }

    /// Logs the user in: any non-blank email and password are accepted, and
    /// the host moves to the dashboard. Blank credentials are rejected with a
    /// log line and no state change.
    pub fn login(&mut self, now_secs: u64) -> (ok: bool)
        ensures
            ok == !(spec_blank(old(self).email@) || spec_blank(old(self).password@)),
            ok ==> final (self).state == AppState::Dashboard,
            !ok ==> final (self).state == old(self).state,
            ok ==> logs_extended(
                old(self).logs@,
                final (self).logs@,
                spec_log_entry(now_secs as nat, "User "@ + old(self).email@ + " logged in"@),
            ),
            !ok ==> logs_extended(
                old(self).logs@,
                final (self).logs@,
                spec_log_entry(now_secs as nat, "Login failed: empty email or password"@),
            ),
            final (self).email@ == old(self).email@,
            final (self).password@ == old(self).password@,
            final (self).processing == old(self).processing,
    {
        let email_blank = is_blank(self.email.as_str());
        let password_blank = is_blank(self.password.as_str());
        if email_blank || password_blank {
            self.push_log("Login failed: empty email or password".to_owned(), now_secs);
            false
        } else {
            let mut m = "User ".to_owned();
            m.append(self.email.as_str());
            m.append(" logged in");
            self.push_log(m, now_secs);
            self.state = AppState::Dashboard;
            true
        }
    }

    /// Logs the user out: clears the credentials and returns to the login
    /// screen.
    pub fn logout(&mut self, now_secs: u64)
        ensures
            final (self).state == AppState::Login,
            final (self).email@ == Seq::<char>::empty(),
            final (self).password@ == Seq::<char>::empty(),
            final (self).processing == old(self).processing,
            logs_extended(
                old(self).logs@,
                final (self).logs@,
                spec_log_entry(now_secs as nat, "User "@ + old(self).email@ + " logged out"@),
            ),
    {
        let mut m = "User ".to_owned();
        m.append(self.email.as_str());
        m.append(" logged out");
        self.push_log(m, now_secs);
        self.email = String::new();
        self.password = String::new();
        self.state = AppState::Login;
    }

    /// The one-active-run-at-a-time rule: a start request while a run is
    /// already processing is logged and ignored, never queued. Returns whether
    /// the caller may start a run.
    pub fn begin_processing(&mut self, now_secs: u64) -> (started: bool)
        ensures
            started == !old(self).processing,
            final (self).processing,
            started ==> final (self).progress_milli == 0,
            !started ==> final (self).progress_milli == old(self).progress_milli,
            started ==> final (self).logs@ == old(self).logs@,
            !started ==> logs_extended(
                old(self).logs@,
                final (self).logs@,
                spec_log_entry(now_secs as nat, "Pipeline already running"@),
            ),
            final (self).state == old(self).state && final (self).email@ == old(self).email@,
    {
        if self.processing {
            self.push_log("Pipeline already running".to_owned(), now_secs);
            false
        } else {
            self.processing = true;
            self.progress_milli = 0;
            true
        }
    }
}

} // verus!
