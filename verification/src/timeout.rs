//! Command deadlines: a guard that checked now and then refuses to go on
//! once its time is up or it was cancelled.
use vstd::prelude::*;
use std::sync::Arc;
use std::sync::atomic::AtomicBool;
use std::time::Instant;

use crate::text::{chars_of, dec, push_all, push_str, to_string};

verus! {

#[verifier::external_type_specification]
#[verifier::external_body]
pub struct ExInstant(Instant);

/// `Instant::now()` plus `ms` milliseconds (`None` where the clock cannot
/// represent it); nothing is claimed of the instant.
#[verifier::external_body]
fn deadline_after(ms: u64) -> (r: Option<Instant>) {
    Instant::now().checked_add(std::time::Duration::from_millis(ms))
}

/// Whether `Instant::now()` is at or past `deadline`; depends on the clock.
#[verifier::external_body]
fn is_past(deadline: &Instant) -> (r: bool) {
    Instant::now() >= *deadline
}

/// Milliseconds from `deadline` to `Instant::now()` (0 before it); depends on
/// the clock.
#[verifier::external_body]
fn ms_past(deadline: &Instant) -> (r: u64) {
    Instant::now().duration_since(*deadline).as_millis() as u64
}

/// A timeout guard that can be checked periodically.
pub struct TimeoutGuard {
    deadline: Option<Instant>,
    cancelled: Arc<AtomicBool>,
    timeout: Ghost<u64>,
}

/// The message of a command that ran out of time.
pub open spec fn timeout_message(elapsed: nat, hint: nat, command: Seq<char>, phase: Seq<char>) -> Seq<char> {
    "Error: Command timed out after "@ + dec(elapsed) + "ms.\nCommand: "@ + command + "\nPhase:   "@
        + phase + "\nHint:    Increase timeout with --timeout "@ + dec(hint)
        + ", or check if the file is unusually large."@
}

/// The message for `e` milliseconds past the deadline (the hint, three
/// times that, held at `u64::MAX`).
pub open spec fn timeout_message_for(e: u64, command: Seq<char>, phase: Seq<char>) -> Seq<char> {
    timeout_message(e as nat, if e * 3 <= u64::MAX { (e * 3) as nat } else { u64::MAX as nat }, command, phase)
}

/// What the guard decides, given whether it was cancelled and, where its
/// deadline has passed, the milliseconds past it: cancellation first, then
/// the timeout, else the command may go on.
pub open spec fn check_result(cancelled: bool, past: Option<u64>, command: Seq<char>, phase: Seq<char>) -> Result<(), Seq<char>> {
    if cancelled {
        Err("Command cancelled."@)
    } else {
        match past {
            Some(e) => Err(timeout_message_for(e, command, phase)),
            None => Ok(()),
        }
    }
}

/// The view of a check's result: the error's text.
pub open spec fn result_text(r: Result<(), String>) -> Result<(), Seq<char>> {
    match r {
        Ok(u) => Ok(u),
        Err(m) => Err(m@),
    }
}

/// The decision of a check, from what the flag and the clock gave: an error
/// when cancelled, or when the deadline has passed (with the time past it, and
/// three times that as the hint, held at `u64::MAX`), else `Ok`.
pub fn check_outcome(cancelled: bool, past: Option<u64>, command: &str, phase: &str) -> (r: Result<(), String>)
    ensures
        result_text(r) == check_result(cancelled, past, command@, phase@),
{
    if cancelled {
        return Err(String::from_str("Command cancelled."));
    }
    match past {
        Some(elapsed) => {
            let hint = if elapsed <= u64::MAX / 3 {
                elapsed * 3
            } else {
                u64::MAX
            };
            let mut m = chars_of("Error: Command timed out after ");
            push_all(&mut m, &crate::text::decimal_u64(elapsed));
            push_str(&mut m, "ms.\nCommand: ");
            push_str(&mut m, command);
            push_str(&mut m, "\nPhase:   ");
            push_str(&mut m, phase);
            push_str(&mut m, "\nHint:    Increase timeout with --timeout ");
            push_all(&mut m, &crate::text::decimal_u64(hint));
            push_str(&mut m, ", or check if the file is unusually large.");
            assert(m@ =~= timeout_message(elapsed as nat, hint as nat, command@, phase@));
            assert(m@ == timeout_message_for(elapsed, command@, phase@));
            Err(to_string(&m))
        },
        None => Ok(()),
    }
}

impl TimeoutGuard {
    /// A guard has a deadline only where it was made with a timeout.
    #[verifier::type_invariant]
    spec fn deadline_set_by_timeout(self) -> bool {
        self.deadline is Some ==> self.timeout@ > 0
    }

    /// Whether the guard has a deadline.
    pub closed spec fn limited(&self) -> bool {
        self.deadline is Some
    }

    /// The timeout, in milliseconds, that the guard was made with (0: none).
    pub closed spec fn timeout(&self) -> u64 {
        self.timeout@
    }

    /// The flag that cancels the command.
    pub closed spec fn flag(&self) -> Arc<AtomicBool> {
        self.cancelled
    }

    /// Create a new timeout guard. If `timeout_ms` is 0, no timeout is
    /// enforced; otherwise the deadline lies that long after now (none where
    /// the clock cannot represent it, so that it is never reached).
    pub fn new(timeout_ms: u64) -> (r: Self)
        ensures
            r.timeout() == timeout_ms,
            r.limited() ==> timeout_ms > 0,
    {
        let deadline = if timeout_ms == 0 {
            None
        } else {
            deadline_after(timeout_ms)
        };
        TimeoutGuard { deadline, cancelled: Arc::new(AtomicBool::new(false)), timeout: Ghost(timeout_ms) }
    }

    /// The cancellation flag, as other threads have set it.
    fn is_cancelled(&self) -> (r: bool) {
        self.cancelled.load(std::sync::atomic::Ordering::Relaxed)
    }

    /// Check whether the command may go on: the decision of `check_outcome`
    /// on the flag as read now and, where the deadline has passed, the time
    /// past it; a guard made without a timeout never times out.
    pub fn check(&self, command: &str, phase: &str) -> (r: Result<(), String>)
        ensures
            exists|cancelled: bool, past: Option<u64>|
                (past is Some ==> self.limited() && self.timeout() > 0)
                && result_text(r) == #[trigger] check_result(cancelled, past, command@, phase@),
    {
        proof {
            use_type_invariant(self);
        }
        let cancelled = self.is_cancelled();
        let past = if cancelled {
            None
        } else {
            match &self.deadline {
                Some(deadline) => {
                    if is_past(deadline) {
                        Some(self.elapsed_ms())
                    } else {
                        None
                    }
                },
                None => None,
            }
        };
        let r = check_outcome(cancelled, past, command, phase);
        assert(result_text(r) == check_result(cancelled, past, command@, phase@));
        r
    }

    /// Milliseconds past the deadline (0 before it, or without one).
    pub fn elapsed_ms(&self) -> (r: u64)
        ensures
            !self.limited() ==> r == 0,
    {
        match &self.deadline {
            Some(d) => ms_past(d),
            None => 0,
        }
    }

    /// Get the cancellation flag for sharing across threads.
    pub fn cancel_flag(&self) -> (r: Arc<AtomicBool>)
        ensures
            r == self.flag(),
    {
        self.cancelled.clone()
    }
}

pub open spec fn default_timeout_spec(command: Seq<char>) -> u64 {
    if command == "scan"@ || command == "search"@ {
        30_000
    } else if command == "apply"@ || command == "validate"@ || command == "header-rebuild"@ {
        10_000
    } else {
        5_000
    }
}

fn is_lit(c: &Vec<char>, lit: &str) -> (b: bool)
    ensures
        b == (c@ == lit@),
{
    crate::differ::vec_eq(c, &chars_of(lit))
}

/// Default timeout values per command (in milliseconds).
pub fn default_timeout(command: &str) -> (r: u64)
    ensures
        r == default_timeout_spec(command@),
{
    proof {
        reveal_strlit("scan");
        reveal_strlit("search");
        reveal_strlit("apply");
        reveal_strlit("validate");
        reveal_strlit("header-rebuild");
        reveal_strlit("header");
        reveal_strlit("locate");
        reveal_strlit("read");
        reveal_strlit("init");
        reveal_strlit("check-output");
    }
    let c = chars_of(command);
    let quick = is_lit(&c, "scan") || is_lit(&c, "search");
    let short = is_lit(&c, "header") || is_lit(&c, "locate") || is_lit(&c, "read") || is_lit(&c, "init")
        || is_lit(&c, "check-output");
    let edit = is_lit(&c, "apply") || is_lit(&c, "validate") || is_lit(&c, "header-rebuild");
    assert(quick == (command@ == "scan"@ || command@ == "search"@));
    assert(edit == (command@ == "apply"@ || command@ == "validate"@ || command@ == "header-rebuild"@));
    assert("read"@[0] != "scan"@[0] && "init"@[0] != "scan"@[0]);
    assert("header"@[0] != "search"@[0] && "locate"@[0] != "search"@[0]);
    assert("header"@.len() == 6 && "locate"@.len() == 6 && "read"@.len() == 4 && "init"@.len() == 4
        && "check-output"@.len() == 12);
    assert("apply"@.len() == 5 && "validate"@.len() == 8 && "header-rebuild"@.len() == 14);
    assert(short ==> !quick && !edit);
    if quick {
        30_000
    } else if short {
        5_000
    } else if edit {
        10_000
    } else {
        5_000
    }
}

} // verus!
