//! What the words of a command line stand for, beyond their form.

use vstd::prelude::*;
use vstd::string::*;

use crate::create::{cmd_create_full_with_timeout, CreateRequest};
use crate::error::Error;
use crate::ext;
use crate::json;
use crate::json::{get_nonempty, parse_json};
use crate::plan::CreateOpts;
use crate::seccomp::Arch;
use crate::spec;
use crate::spec::Spec;
use crate::text;
use crate::text::{cat2, ends_with, owned, parse_unsigned, trim};

verus! {

/// The number part of a duration and how many milliseconds its unit has; without a unit it counts
/// seconds.
pub open spec fn number_and_unit(t: Seq<char>) -> (Seq<char>, nat) {
    if "ms"@.is_suffix_of(t) {
        (t.take(t.len() - 2), 1)
    } else if "s"@.is_suffix_of(t) {
        (t.drop_last(), 1000)
    } else if "m"@.is_suffix_of(t) {
        (t.drop_last(), 60000)
    } else {
        (t, 1000)
    }
}

/// The milliseconds that a duration stands for, or what is wrong with it.
pub open spec fn duration(s: Seq<char>) -> Result<nat, Seq<char>> {
    let t = text::trimmed(s);
    if t.len() == 0 {
        Err("empty duration"@)
    } else {
        let (number, unit) = number_and_unit(t);
        match text::unsigned_value(number, u64::MAX as nat) {
            None => Err("bad duration: "@ + t),
            Some(n) => if n * unit > u64::MAX {
                Err("duration too large: "@ + t)
            } else {
                Ok(n * unit)
            },
        }
    }
}

/// The milliseconds that a duration stands for.
pub fn parse_duration_ms(s: &str) -> (r: Result<u64, Error>)
    ensures
        match r {
            Ok(ms) => duration(s@) == Ok::<nat, Seq<char>>(ms as nat),
            Err(e) => duration(s@) == Err::<nat, Seq<char>>(e@),
        },
{
    let t = trim(s);
    let n = t.unicode_len();
    if n == 0 {
        return Err(Error::new(owned("empty duration")));
    }
    proof {
        reveal_strlit("ms");
        reveal_strlit("s");
        reveal_strlit("m");
    }
    let mut number = t;
    let mut unit: u64 = 1000;
    if ends_with(t, "ms") {
        number = t.substring_char(0, n - 2);
        unit = 1;
    } else if ends_with(t, "s") {
        number = t.substring_char(0, n - 1);
    } else if ends_with(t, "m") {
        number = t.substring_char(0, n - 1);
        unit = 60000;
    }
    proof {
        assert(number@ =~= number_and_unit(t@).0);
        assert(unit == number_and_unit(t@).1);
    }
    match parse_unsigned(number, 0xffff_ffff_ffff_ffff) {
        None => Err(Error::new(cat2("bad duration: ", t))),
        Some(v) => match v.checked_mul(unit) {
            Some(ms) => Ok(ms),
            None => Err(Error::new(cat2("duration too large: ", t))),
        },
    }
}

/// The milliseconds of a duration that may be missing.
pub fn parse_optional_duration_ms(s: Option<&str>) -> (r: Result<Option<u64>, Error>)
    ensures
        match s {
            None => r is Ok && r->Ok_0 is None,
            Some(s) => match r {
                Ok(ms) => ms is Some && duration(s@) == Ok::<nat, Seq<char>>(ms->Some_0 as nat),
                Err(e) => duration(s@) == Err::<nat, Seq<char>>(e@),
            },
        },
{
    match s {
        None => Ok(None),
        Some(s) => match parse_duration_ms(s) {
            Ok(ms) => Ok(Some(ms)),
            Err(e) => Err(e),
        },
    }
}

/// A text without white space at its ends stays as it is.
proof fn lemma_untrimmed(s: Seq<char>)
    requires
        s.len() > 0,
        !text::is_white(s[0]),
        !text::is_white(s.last()),
    ensures
        text::trimmed(s) == s,
{
}

/// A number counts seconds, with `ms` milliseconds, with `s` seconds, with `m` minutes.
pub proof fn law_duration_units(n: u64)
    ensures
        duration(text::dec(n as nat) + "ms"@) == Ok::<nat, Seq<char>>(n as nat),
        n * 1000 <= u64::MAX ==> duration(text::dec(n as nat) + "s"@) == Ok::<nat, Seq<char>>(
            n as nat * 1000,
        ),
        n * 1000 <= u64::MAX ==> duration(text::dec(n as nat)) == Ok::<nat, Seq<char>>(
            n as nat * 1000,
        ),
        n * 60000 <= u64::MAX ==> duration(text::dec(n as nat) + "m"@) == Ok::<nat, Seq<char>>(
            n as nat * 60000,
        ),
{
    let d = text::dec(n as nat);
    text::lemma_dec_value(n as nat);
    text::law_decimal_round_trip(n);
    reveal_strlit("ms");
    reveal_strlit("s");
    reveal_strlit("m");
    let last = d[d.len() - 1];
    assert('0' <= d[0] <= '9');
    assert('0' <= last <= '9');
    lemma_untrimmed(d);
    assert(!"ms"@.is_suffix_of(d)) by {
        if "ms"@.is_suffix_of(d) {
            assert(d.subrange(d.len() - 2, d.len() as int)[1] == "ms"@[1]);
        }
    }
    assert(!"s"@.is_suffix_of(d)) by {
        if "s"@.is_suffix_of(d) {
            assert(d.subrange(d.len() - 1, d.len() as int)[0] == "s"@[0]);
        }
    }
    assert(!"m"@.is_suffix_of(d)) by {
        if "m"@.is_suffix_of(d) {
            assert(d.subrange(d.len() - 1, d.len() as int)[0] == "m"@[0]);
        }
    }
    let ms = d + "ms"@;
    lemma_untrimmed(ms);
    assert("ms"@.is_suffix_of(ms)) by {
        assert(ms.subrange(ms.len() - 2, ms.len() as int) =~= "ms"@);
    }
    assert(ms.take(ms.len() - 2) =~= d);
    assert(number_and_unit(ms) == (d, 1nat));
    let unit = number_and_unit(ms).1;
    assert(n as nat * unit == n as nat) by (nonlinear_arith)
        requires
            unit == 1,
    ;
    let s = d + "s"@;
    lemma_untrimmed(s);
    assert(!"ms"@.is_suffix_of(s)) by {
        if "ms"@.is_suffix_of(s) {
            assert(s.subrange(s.len() - 2, s.len() as int)[0] == "ms"@[0]);
            assert(s[s.len() - 2] == last);
        }
    }
    assert("s"@.is_suffix_of(s)) by {
        assert(s.subrange(s.len() - 1, s.len() as int) =~= "s"@);
    }
    assert(s.drop_last() =~= d);
    let m = d + "m"@;
    lemma_untrimmed(m);
    assert(!"ms"@.is_suffix_of(m)) by {
        if "ms"@.is_suffix_of(m) {
            assert(m.subrange(m.len() - 2, m.len() as int)[1] == "ms"@[1]);
        }
    }
    assert(!"s"@.is_suffix_of(m)) by {
        if "s"@.is_suffix_of(m) {
            assert(m.subrange(m.len() - 1, m.len() as int)[0] == "s"@[0]);
        }
    }
    assert("m"@.is_suffix_of(m)) by {
        assert(m.subrange(m.len() - 1, m.len() as int) =~= "m"@);
    }
    assert(m.drop_last() =~= d);
}

/// The commands.
#[derive(Debug, Clone, Copy, PartialEq, Eq, Structural)]
pub enum CommandKind {
    Create,
    Start,
    Delete,
    Reset,
    ChangedFiles,
    Diff,
    ExportDiff,
    Mark,
    Effects,
    Snapshot,
    Checkpoint,
    Restore,
    ForkCheckpoint,
    Fork,
    Activate,
    State,
    Kill,
    Exec,
    Features,
    ValidateBundle,
    List,
    Spec,
    Pause,
    Resume,
    Update,
    Stats,
    Events,
}

/// Whether a command lets a process enter a container. Such a command runs from a sealed copy of
/// the program, which nothing in the container can write to.
pub open spec fn enters_container(k: CommandKind) -> bool {
    k == CommandKind::Create || k == CommandKind::Exec || k == CommandKind::Activate
}

/// Whether a command is to run from a sealed copy of the program.
pub fn command_needs_sealed_reexec(k: CommandKind) -> (r: bool)
    ensures
        r == enters_container(k),
{
    match k {
        CommandKind::Create => true,
        CommandKind::Exec => true,
        CommandKind::Activate => true,
        _ => false,
    }
}

/// How a process is named that is to run in a container.
#[derive(Debug)]
pub enum ExecForm {
    /// By the words behind `--`.
    Command,
    /// By a file that describes it.
    Process(String),
}

/// Decides how the process of an `exec` is named.
pub fn exec_form(
    has_command: bool,
    detach: bool,
    has_console_socket: bool,
    process: &Option<String>,
) -> (r: Result<ExecForm, Error>)
    ensures
        if has_command {
            if detach {
                r is Err && (r->Err_0)@ == "direct exec command form does not support --detach"@
            } else if has_console_socket {
                r is Err && (r->Err_0)@
                    == "direct exec command form does not support --console-socket"@
            } else {
                r is Ok && r->Ok_0 is Command
            }
        } else {
            match process {
                Some(p) => r is Ok && r->Ok_0 is Process && (r->Ok_0->Process_0)@ == p@,
                None => r is Err && (r->Err_0)@
                    == "exec requires either -p/--process or a command after --"@,
            }
        },
{
    if has_command {
        if detach {
            return Err(Error::new(owned("direct exec command form does not support --detach")));
        }
        if has_console_socket {
            return Err(
                Error::new(owned("direct exec command form does not support --console-socket")),
            );
        }
        return Ok(ExecForm::Command);
    }
    match process {
        Some(p) => Ok(ExecForm::Process(p.clone())),
        None => Err(
            Error::new(owned("exec requires either -p/--process or a command after --")),
        ),
    }
}

/// The bundle of a container, out of the bytes of its state file.
pub fn stored_bundle_for_container(bytes: &[u8]) -> (r: Result<String, Error>)
    ensures
        match json::json_text(bytes@) {
            Err(why) => r is Err && (r->Err_0)@ == why,
            Ok(v) => match json::nonempty_text(json::field(v, "bundle"@)) {
                Some(b) => r is Ok && (r->Ok_0)@ == b,
                None => r is Err && (r->Err_0)@
                    == "activate requires --bundle because stored bundle is empty"@,
            },
        },
        r is Err ==> (r->Err_0).kind == json::fault_kind(bytes@),
{
    let v = match parse_json(bytes) {
        Ok(v) => v,
        Err(e) => {
            return Err(e);
        },
    };
    match get_nonempty(v.get("bundle")) {
        Some(b) => Ok(b),
        None => Err(
            Error::new(owned("activate requires --bundle because stored bundle is empty")),
        ),
    }
}

/// How a container is to be made, as a command line says.
pub struct CreateWords {
    pub id: String,
    /// The bundle as it was named.
    pub bundle: String,
    pub pid_file: Option<String>,
    pub console_socket: Option<String>,
    pub preserve_fds: u32,
    pub no_pivot: bool,
    pub timeout_ms: Option<u64>,
}

/// Why a configuration cannot be run, if it cannot.
pub open spec fn config_fault(bytes: Seq<u8>, arch: Arch) -> Option<Seq<char>> {
    match json::json_text(bytes) {
        Err(why) => Some(why),
        Ok(v) => if spec::spec_fault(v) is Some {
            spec::spec_fault(v)
        } else {
            ext::ext_fault(v, arch)
        },
    }
}

/// The request for a container with all that its bundle asks for. `config` are the bytes of its
/// configuration and `canonical` is the path of the bundle without links.
pub fn create_with_ext(
    w: &CreateWords,
    config: &[u8],
    canonical: &str,
    arch: Arch,
    unified: bool,
) -> (r: Result<CreateRequest, Error>)
    ensures
        match r {
            Ok(q) => {
                &&& config_fault(config@, arch) is None
                &&& q.id@ == w.id@
                &&& q.bundle@ == w.bundle@
                &&& text::opt_text(q.pid_file) == text::opt_text(w.pid_file)
                &&& text::opt_text(q.console_socket) == text::opt_text(w.console_socket)
                &&& q.opts == (CreateOpts {
                    preserve_fds: w.preserve_fds,
                    no_pivot: w.no_pivot,
                })
                &&& q.timeout_ms == w.timeout_ms
                &&& ext::ext_compiled(
                    q.ext,
                    json::json_text(config@)->Ok_0,
                    w.id@,
                    arch,
                    unified,
                )
            },
            Err(e) => config_fault(config@, arch) == Some(e@),
        },
{
    let s = match Spec::from_bundle(config, canonical) {
        Ok(s) => s,
        Err(e) => {
            return Err(e);
        },
    };
    let plan = match ext::compile(&s, w.id.as_str(), arch, unified) {
        Ok(p) => p,
        Err(e) => {
            return Err(e);
        },
    };
    let opts = CreateOpts { preserve_fds: w.preserve_fds, no_pivot: w.no_pivot };
    Ok(
        cmd_create_full_with_timeout(
            w.id.as_str(),
            w.bundle.as_str(),
            &w.pid_file,
            plan,
            &w.console_socket,
            opts,
            w.timeout_ms,
        ),
    )
}

/// Which commands run out of a sealed copy of the program: those that enter a container.
pub proof fn law_sealed_commands(k: CommandKind)
    ensures
        enters_container(k) <==> k == CommandKind::Create || k == CommandKind::Exec || k
            == CommandKind::Activate,
{
}

/// When a creation can be compiled: the document can be read, says what a container needs, and what is
/// beside it can be compiled.
pub proof fn law_config_accepted(bytes: Seq<u8>, arch: Arch)
    ensures
        config_fault(bytes, arch) is None <==> (json::json_text(bytes) matches Ok(v)
            && spec::spec_fault(v) is None && ext::ext_fault(v, arch) is None),
{
}

/// A duration is a number of its unit: it is refused where it is empty, where no number stands before
/// the unit, and where it is too large.
pub proof fn law_duration_refused(s: Seq<char>)
    ensures
        text::trimmed(s).len() == 0 ==> duration(s) is Err,
        duration(s) matches Ok(n) ==> n <= u64::MAX && n % number_and_unit(text::trimmed(s)).1 == 0,
        number_and_unit(text::trimmed(s)).1 == 1 || number_and_unit(text::trimmed(s)).1 == 1000
            || number_and_unit(text::trimmed(s)).1 == 60000,
{
    if duration(s) is Ok {
        let (number, unit) = number_and_unit(text::trimmed(s));
        let n = text::unsigned_value(number, u64::MAX as nat)->Some_0;
        assert((n * unit) % unit == 0) by (nonlinear_arith)
            requires
                unit > 0,
        ;
    }
}

} // verus!
