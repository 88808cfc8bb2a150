//! Signals by name, and how a process ended.

use vstd::prelude::*;
use vstd::string::*;

use crate::error::Error;
use crate::text;
use crate::text::{cat2, chars_of, owned, parse_i32, starts_with, str_eq};

verus! {

pub const SIGHUP: i32 = 1;

pub const SIGINT: i32 = 2;

pub const SIGQUIT: i32 = 3;

pub const SIGKILL: i32 = 9;

pub const SIGUSR1: i32 = 10;

pub const SIGUSR2: i32 = 12;

pub const SIGTERM: i32 = 15;

pub const SIGCHLD: i32 = 17;

/// A letter in upper case, where it is an ASCII letter.
pub open spec fn upper(c: char) -> char {
    if 'a' <= c <= 'z' {
        ((c as u8) - 32) as u8 as char
    } else {
        c
    }
}

/// A text with its ASCII letters in upper case.
pub open spec fn uppercased(s: Seq<char>) -> Seq<char> {
    Seq::new(s.len(), |i: int| upper(s[i]))
}

/// Puts the ASCII letters of a text in upper case.
fn to_upper(s: &str) -> (r: String)
    ensures
        r@ == uppercased(s@),
{
    let v = chars_of(s);
    let mut r = String::new();
    let mut i: usize = 0;
    while i < v.len()
        invariant
            i <= v.len(),
            v@ == s@,
            r@ =~= uppercased(s@).subrange(0, i as int),
        decreases v.len() - i,
    {
        let c = v[i];
        if 'a' <= c && c <= 'z' {
            r.push(((c as u8) - 32) as char);
        } else {
            r.push(c);
        }
        i = i + 1;
    }
    proof {
        assert(uppercased(s@).subrange(0, v@.len() as int) =~= uppercased(s@));
    }
    r
}

/// The name of a signal without the common prefix, in upper case.
pub open spec fn bare_name(s: Seq<char>) -> Seq<char> {
    let u = uppercased(s);
    if "SIG"@.is_prefix_of(u) {
        u.skip("SIG"@.len() as int)
    } else {
        u
    }
}

/// The signals that go by name.
pub open spec fn named_signal(bare: Seq<char>) -> Option<i32> {
    if bare == "TERM"@ {
        Some(SIGTERM)
    } else if bare == "KILL"@ {
        Some(SIGKILL)
    } else if bare == "INT"@ {
        Some(SIGINT)
    } else if bare == "HUP"@ {
        Some(SIGHUP)
    } else if bare == "QUIT"@ {
        Some(SIGQUIT)
    } else if bare == "USR1"@ {
        Some(SIGUSR1)
    } else if bare == "USR2"@ {
        Some(SIGUSR2)
    } else {
        None
    }
}

/// The numbers that are signals.
pub open spec fn is_signal(n: int) -> bool {
    1 <= n <= 31
}

/// `nix::sys::signal::Signal::try_from` accepts the numbers of its signals, which on Linux are 1 to
/// 31, and keeps them.
#[verifier::external_body]
fn signal_from_number(n: i32) -> (r: Option<i32>)
    ensures
        r == (if is_signal(n as int) {
            Some(n)
        } else {
            None
        }),
{
    match nix::sys::signal::Signal::try_from(n) {
        Ok(s) => Some(s as i32),
        Err(_) => None,
    }
}

/// What a signal given by name or number stands for, or what is wrong with it.
pub open spec fn signal_of(s: Seq<char>) -> Result<i32, Seq<char>> {
    let bare = bare_name(s);
    match named_signal(bare) {
        Some(n) => Ok(n),
        None => match text::i32_value(bare) {
            Some(n) => if is_signal(n) {
                Ok(n as i32)
            } else {
                Err("bad signal number"@)
            },
            None => Err("unknown signal: "@ + s),
        },
    }
}

/// Reads a signal given by name, with or without the prefix `SIG` and in any case, or by number.
pub fn parse_signal(s: &str) -> (r: Result<i32, Error>)
    ensures
        match r {
            Ok(n) => signal_of(s@) == Ok::<i32, Seq<char>>(n),
            Err(e) => signal_of(s@) == Err::<i32, Seq<char>>(e@),
        },
{
    let up = to_upper(s);
    let whole = up.as_str();
    let bare = if starts_with(whole, "SIG") {
        let n = whole.unicode_len();
        let k = "SIG".unicode_len();
        let rest = whole.substring_char(k, n);
        proof {
            assert(rest@ =~= whole@.skip(k as int));
        }
        rest
    } else {
        whole
    };
    if str_eq(bare, "TERM") {
        Ok(SIGTERM)
    } else if str_eq(bare, "KILL") {
        Ok(SIGKILL)
    } else if str_eq(bare, "INT") {
        Ok(SIGINT)
    } else if str_eq(bare, "HUP") {
        Ok(SIGHUP)
    } else if str_eq(bare, "QUIT") {
        Ok(SIGQUIT)
    } else if str_eq(bare, "USR1") {
        Ok(SIGUSR1)
    } else if str_eq(bare, "USR2") {
        Ok(SIGUSR2)
    } else {
        match parse_i32(bare) {
            Some(n) => match signal_from_number(n) {
                Some(n) => Ok(n),
                None => Err(Error::new(owned("bad signal number"))),
            },
            None => Err(Error::new(cat2("unknown signal: ", s))),
        }
    }
}

/// Whether a wait status is that of a process that exited.
pub open spec fn exited(status: i32) -> bool {
    status & 0x7f == 0
}

/// The exit code in a wait status.
pub open spec fn exit_status(status: i32) -> i32 {
    (status >> 8) & 0xff
}

/// The signal in a wait status.
pub open spec fn term_signal(status: i32) -> i32 {
    status & 0x7f
}

/// Whether a wait status is that of a process that a signal ended.
pub open spec fn signaled(status: i32) -> bool {
    ((term_signal(status) + 1) as i8) >= 2
}

/// `libc::WIFEXITED`: the low seven bits are zero.
#[verifier::external_body]
fn wifexited(status: i32) -> (r: bool)
    ensures
        r == exited(status),
{
    libc::WIFEXITED(status)
}

/// `libc::WEXITSTATUS`: the eight bits above the low eight.
#[verifier::external_body]
fn wexitstatus(status: i32) -> (r: i32)
    ensures
        r == exit_status(status),
{
    libc::WEXITSTATUS(status)
}

/// `libc::WIFSIGNALED`: the low seven bits are neither all zero nor all one.
#[verifier::external_body]
fn wifsignaled(status: i32) -> (r: bool)
    ensures
        r == signaled(status),
{
    libc::WIFSIGNALED(status)
}

/// `libc::WTERMSIG`: the low seven bits.
#[verifier::external_body]
fn wtermsig(status: i32) -> (r: i32)
    ensures
        r == term_signal(status),
{
    libc::WTERMSIG(status)
}

/// How a process ended, as far as its wait status says.
#[derive(Debug, Clone, Copy, PartialEq, Eq, Structural)]
pub struct Ending {
    pub exit_code: Option<i32>,
    pub signal: Option<i32>,
}

/// How a process with this wait status ended.
pub open spec fn ending(status: i32) -> Ending {
    Ending {
        exit_code: if exited(status) {
            Some(exit_status(status))
        } else {
            None
        },
        signal: if signaled(status) {
            Some(term_signal(status))
        } else {
            None
        },
    }
}

/// Takes a wait status apart.
pub fn ending_of(status: i32) -> (e: Ending)
    ensures
        e == ending(status),
{
    Ending {
        exit_code: if wifexited(status) {
            Some(wexitstatus(status))
        } else {
            None
        },
        signal: if wifsignaled(status) {
            Some(wtermsig(status))
        } else {
            None
        },
    }
}

/// The exit code a shell would report.
pub open spec fn shell_code(status: i32) -> int {
    if exited(status) {
        exit_status(status) as int
    } else {
        128 + term_signal(status)
    }
}

/// The exit code a shell would report for a wait status.
pub fn exit_code_of(status: i32) -> (c: i32)
    ensures
        c == shell_code(status),
{
    if wifexited(status) {
        wexitstatus(status)
    } else {
        proof {
            assert(0 <= status & 0x7f <= 127) by (bit_vector);
        }
        128 + wtermsig(status)
    }
}

/// A process either exits with a code of eight bits or is ended by a signal; it does not do both.
pub proof fn law_one_ending(status: i32)
    ensures
        ending(status).exit_code is None || ending(status).signal is None,
        match ending(status).exit_code {
            Some(c) => 0 <= c <= 255,
            None => true,
        },
        match ending(status).signal {
            Some(s) => 1 <= s <= 126,
            None => true,
        },
{
    let low = status & 0x7f;
    assert(0 <= low <= 127) by (bit_vector)
        requires
            low == status & 0x7f,
    ;
    assert(0 <= ((status >> 8) & 0xff) <= 255) by (bit_vector);
    assert(low == 127 ==> ((low + 1) as i8) < 2) by (bit_vector)
        requires
            0 <= low <= 127,
    ;
    assert(low == 0 ==> ((low + 1) as i8) < 2) by (bit_vector);
}

/// The signals that have names: each with its number, in letters of either case and with or without
/// `SIG` before it.
pub proof fn law_signal_names(s: Seq<char>)
    ensures
        named_signal(bare_name(s)) == Some(15i32) <==> bare_name(s) == "TERM"@,
        named_signal(bare_name(s)) == Some(9i32) <==> bare_name(s) == "KILL"@,
        named_signal(bare_name(s)) == Some(2i32) <==> bare_name(s) == "INT"@,
        named_signal(bare_name(s)) == Some(1i32) <==> bare_name(s) == "HUP"@,
        named_signal(bare_name(s)) == Some(3i32) <==> bare_name(s) == "QUIT"@,
        named_signal(bare_name(s)) == Some(10i32) <==> bare_name(s) == "USR1"@,
        named_signal(bare_name(s)) == Some(12i32) <==> bare_name(s) == "USR2"@,
        named_signal(bare_name(s)) matches Some(n) ==> signal_of(s) == Ok::<i32, Seq<char>>(n),
        bare_name(s).len() == s.len() || bare_name(s).len() + 3 == s.len(),
{
    reveal_strlit("TERM");
    reveal_strlit("KILL");
    reveal_strlit("INT");
    reveal_strlit("HUP");
    reveal_strlit("QUIT");
    reveal_strlit("USR1");
    reveal_strlit("USR2");
    assert("TERM"@.len() == 4);
    assert("KILL"@.len() == 4);
    assert("INT"@.len() == 3);
    assert("HUP"@.len() == 3);
    assert("QUIT"@.len() == 4);
    assert("USR1"@.len() == 4);
    assert("USR2"@.len() == 4);
    assert("TERM"@[0] == 'T');
    assert("KILL"@[0] == 'K');
    assert("QUIT"@[0] == 'Q');
    assert("USR1"@[0] == 'U');
    assert("USR2"@[0] == 'U');
    assert("INT"@[0] == 'I');
    assert("HUP"@[0] == 'H');
    assert("USR1"@[3] == '1');
    assert("USR2"@[3] == '2');
    reveal_strlit("SIG");
    assert("SIG"@.len() == 3);
}

/// A name means the same in letters of either case.
pub proof fn law_signal_case(s: Seq<char>, t: Seq<char>)
    requires
        s.len() == t.len(),
        forall|i: int|
            0 <= i < s.len() ==> #[trigger] s[i] == t[i] || ('a' <= s[i] <= 'z' && s[i] as int - 32
                == t[i] as int) || ('a' <= t[i] <= 'z' && t[i] as int - 32 == s[i] as int),
    ensures
        bare_name(s) == bare_name(t),
        signal_of(s) is Ok == signal_of(t) is Ok,
        signal_of(s) is Ok ==> signal_of(s) == signal_of(t),
{
    assert(uppercased(s) =~= uppercased(t)) by {
        assert forall|i: int| 0 <= i < s.len() implies upper(s[i]) == upper(t[i]) by {
            assert(s[i] == s[i]);
        }
    }
}

/// A number stands for a signal exactly where it is one from 1 to 31.
pub proof fn law_signal_numbers(s: Seq<char>)
    requires
        named_signal(bare_name(s)) is None,
    ensures
        text::i32_value(bare_name(s)) matches Some(n) ==> (signal_of(s) is Ok <==> 1 <= n <= 31),
        text::i32_value(bare_name(s)) is None ==> signal_of(s) is Err,
        signal_of(s) matches Ok(n) ==> text::i32_value(bare_name(s)) == Some(n as int) && 1 <= n
            <= 31,
{
}

/// What the status of a process that exited says: the code it exited with, and no signal.
pub proof fn law_exit_status_read(code: i32)
    requires
        0 <= code <= 255,
    ensures
        ({
            let status = (code * 256) as i32;
            &&& ending(status).exit_code == Some(code)
            &&& ending(status).signal is None
            &&& shell_code(status) == code
        }),
{
    let status = (code * 256) as i32;
    assert(status & 0x7f == 0 && (status >> 8) & 0xff == code) by (bit_vector)
        requires
            0 <= code <= 255,
            status == code * 256,
    ;
    assert(((0i32 + 1) as i8) == 1);
}

/// What the status of a process that was killed says: the signal, whether or not it left a core, and
/// no code; a shell tells it as 128 and the signal.
pub proof fn law_kill_status_read(sig: i32, core: bool)
    requires
        1 <= sig <= 126,
    ensures
        ({
            let status: i32 = if core {
                (sig + 128) as i32
            } else {
                sig
            };
            &&& ending(status).exit_code is None
            &&& ending(status).signal == Some(sig)
            &&& shell_code(status) == 128 + sig
        }),
{
    let status: i32 = if core {
        (sig + 128) as i32
    } else {
        sig
    };
    assert(status & 0x7f == sig) by (bit_vector)
        requires
            1 <= sig <= 126,
            status == sig || status == sig + 128,
    ;
    assert((sig + 1) as i8 == sig + 1);
}

} // verus!
