//! A point in time by which an operation is to be over. Time is counted in milliseconds of a clock
//! that only moves forward.

use vstd::prelude::*;

use crate::error::{Error, ErrorKind};
use crate::text::cat2;

verus! {

/// When an operation is to be over, if it is bounded.
#[derive(Clone, Copy)]
pub struct Deadline {
    pub expires_at: Option<u64>,
}

/// The message of an operation that took too long.
pub open spec fn timeout_message(op: Seq<char>) -> Seq<char> {
    op + " exceeded timeout"@
}

/// The error of an operation that took too long.
pub fn timeout_error(op: &str) -> (e: Error)
    ensures
        e@ == timeout_message(op@),
        e.kind == ErrorKind::TimedOut,
{
    Error::of_kind(ErrorKind::TimedOut, cat2(op, " exceeded timeout"))
}

impl Deadline {
    /// Whether the time is up at `now`.
    pub open spec fn expired(self, now: u64) -> bool {
        match self.expires_at {
            Some(t) => now >= t,
            None => false,
        }
    }

    /// What is left at `now`, of a deadline that has not passed.
    pub open spec fn left(self, now: u64) -> Option<u64> {
        match self.expires_at {
            Some(t) => Some((t - now) as u64),
            None => None,
        }
    }

    /// The deadline of an operation that starts at `now`. One too far off to count is never
    /// reached.
    pub fn from_timeout_ms(timeout_ms: Option<u64>, now: u64) -> (d: Deadline)
        ensures
            d.expires_at == (match timeout_ms {
                Some(ms) => Some(
                    if now + ms > u64::MAX {
                        u64::MAX
                    } else {
                        (now + ms) as u64
                    },
                ),
                None => None,
            }),
    {
        Deadline {
            expires_at: match timeout_ms {
                Some(ms) => Some(now.saturating_add(ms)),
                None => None,
            },
        }
    }

    /// Fails once the time is up.
    pub fn check(self, op: &str, now: u64) -> (r: Result<(), Error>)
        ensures
            match r {
                Ok(_) => !self.expired(now),
                Err(e) => self.expired(now) && e@ == timeout_message(op@) && e.kind
                    == ErrorKind::TimedOut,
            },
    {
        match self.expires_at {
            Some(t) => if now >= t {
                Err(timeout_error(op))
            } else {
                Ok(())
            },
            None => Ok(()),
        }
    }

    /// What is left; fails once the time is up.
    pub fn remaining_ms(self, op: &str, now: u64) -> (r: Result<Option<u64>, Error>)
        ensures
            match r {
                Ok(left) => !self.expired(now) && left == self.left(now),
                Err(e) => self.expired(now) && e@ == timeout_message(op@) && e.kind
                    == ErrorKind::TimedOut,
            },
    {
        match self.expires_at {
            Some(t) => if now >= t {
                Err(timeout_error(op))
            } else {
                Ok(Some(t - now))
            },
            None => Ok(None),
        }
    }

    /// How long a hook may take: its own limit or what is left, whichever is less.
    pub fn hook_timeout_ms(self, hook_timeout_ms: Option<u64>, now: u64) -> (r: Result<
        Option<u64>,
        Error,
    >)
        ensures
            match r {
                Ok(t) => !self.expired(now) && t == hook_limit(hook_timeout_ms, self.left(now)),
                Err(e) => self.expired(now) && e@ == timeout_message("hook"@) && e.kind
                    == ErrorKind::TimedOut,
            },
    {
        let left = match self.remaining_ms("hook", now) {
            Ok(left) => left,
            Err(e) => return Err(e),
        };
        Ok(
            match (hook_timeout_ms, left) {
                (Some(h), Some(l)) => Some(
                    if h <= l {
                        h
                    } else {
                        l
                    },
                ),
                (Some(h), None) => Some(h),
                (None, Some(l)) => Some(l),
                (None, None) => None,
            },
        )
    }
}

/// The lesser of two limits, of which either may be missing.
pub open spec fn hook_limit(hook: Option<u64>, left: Option<u64>) -> Option<u64> {
    match (hook, left) {
        (Some(h), Some(l)) => Some(
            if h <= l {
                h
            } else {
                l
            },
        ),
        (Some(h), None) => Some(h),
        (None, Some(l)) => Some(l),
        (None, None) => None,
    }
}

/// A hook never gets past the deadline of the operation it is part of, nor past its own limit.
pub proof fn law_hook_within_deadline(d: Deadline, hook: Option<u64>, now: u64)
    requires
        !d.expired(now),
    ensures
        match hook_limit(hook, d.left(now)) {
            Some(t) => {
                &&& d.expires_at is Some ==> now + t <= d.expires_at->0
                &&& hook is Some ==> t <= hook->0
            },
            None => d.expires_at is None && hook is None,
        },
{
}

/// A timeout in the form the `poll` call takes.
pub fn poll_timeout(ms: u64) -> (t: i32)
    ensures
        t == (if ms > i32::MAX {
            i32::MAX as int
        } else {
            ms as int
        }),
{
    if ms > 0x7fff_ffff {
        0x7fff_ffff
    } else {
        ms as i32
    }
}

/// Time is up from the moment of the deadline on, and never without one; until then what is left is
/// what is missing to it.
pub proof fn law_time_left(d: Deadline, now: u64, later: u64)
    requires
        now <= later,
    ensures
        d.expires_at is None ==> !d.expired(now) && d.left(now) is None,
        d.expires_at matches Some(t) ==> (d.expired(now) <==> now >= t),
        d.expires_at matches Some(t) ==> (!d.expired(now) ==> (d.left(now) matches Some(l) && now + l
            == t && l > 0)),
        d.expired(now) ==> d.expired(later),
{
}

/// A hook may take as long as the shorter of its own limit and what is left; without either, as long
/// as it likes.
pub proof fn law_shorter_limit(hook: Option<u64>, left: Option<u64>)
    ensures
        hook is None && left is None <==> hook_limit(hook, left) is None,
        hook_limit(hook, left) matches Some(t) ==> (hook == Some(t) || left == Some(t)) && (hook
            matches Some(h) ==> t <= h) && (left matches Some(l) ==> t <= l),
{
}

} // verus!
