//! Seccomp profiles compiled to classic BPF, name by name. Conditions on arguments are ignored.

use vstd::prelude::*;

use crate::error::Error;
use crate::json;
use crate::json::{get_i64, get_items, get_strings, get_text, Json, JsonView};
use crate::spec;
use crate::syscall_table_aarch64;
use crate::syscall_table_aarch64::syscall_nr_aarch64;
use crate::syscall_table_x86_64;
use crate::syscall_table_x86_64::syscall_nr_x86_64;
use crate::text;
use crate::text::{cat2, owned, str_eq};

verus! {

/// One classic BPF instruction.
#[derive(Debug, Clone, Copy, PartialEq, Eq, Structural)]
pub struct SockFilter {
    pub code: u16,
    pub jt: u8,
    pub jf: u8,
    pub k: u32,
}

/// The machine a filter is made for.
#[derive(Debug, Clone, Copy, PartialEq, Eq, Structural)]
pub enum Arch {
    X86_64,
    Aarch64,
    Other,
}

pub const SECCOMP_RET_KILL_PROCESS: u32 = 0x8000_0000;

pub const SECCOMP_RET_KILL_THREAD: u32 = 0x0000_0000;

pub const SECCOMP_RET_TRAP: u32 = 0x0003_0000;

pub const SECCOMP_RET_ERRNO: u32 = 0x0005_0000;

pub const SECCOMP_RET_LOG: u32 = 0x7ffc_0000;

pub const SECCOMP_RET_ALLOW: u32 = 0x7fff_0000;

/// Operation not permitted.
pub const EPERM: u32 = 1;

/// Load a word of the call's description into the accumulator.
pub const LOAD_WORD: u16 = 0x20;

/// Jump if the accumulator equals the constant.
pub const JUMP_IF_EQUAL: u16 = 0x15;

/// End with the constant.
pub const RETURN: u16 = 0x06;

/// What a filter decides about a call: `pc` is the instruction to perform next, `acc` the
/// accumulator, `nr` the number of the call and `arch` the machine it is made on. `None` stands
/// for a filter that is not one of those emitted here.
pub open spec fn run(prog: Seq<SockFilter>, pc: int, acc: u32, nr: u32, arch: u32) -> Option<u32>
    decreases
            if pc < prog.len() {
                prog.len() - pc
            } else {
                0
            },
{
    if pc < 0 || pc >= prog.len() {
        None
    } else {
        let ins = prog[pc];
        if ins.code == LOAD_WORD {
            if ins.k == 0 {
                run(prog, pc + 1, nr, nr, arch)
            } else if ins.k == 4 {
                run(prog, pc + 1, arch, nr, arch)
            } else {
                None
            }
        } else if ins.code == JUMP_IF_EQUAL {
            if acc == ins.k {
                run(prog, pc + 1 + ins.jt, acc, nr, arch)
            } else {
                run(prog, pc + 1 + ins.jf, acc, nr, arch)
            }
        } else if ins.code == RETURN {
            Some(ins.k)
        } else {
            None
        }
    }
}

/// What the rules say of a call: the first rule for it decides, else the default.
pub open spec fn decide(rules: Seq<(u32, u32)>, default: u32, nr: u32) -> u32
    decreases rules.len(),
{
    if rules.len() == 0 {
        default
    } else if rules[0].0 == nr {
        rules[0].1
    } else {
        decide(rules.skip(1), default, nr)
    }
}

/// An instruction without jumps.
pub open spec fn stmt(code: u16, k: u32) -> SockFilter {
    SockFilter { code, jt: 0, jf: 0, k }
}

/// The instructions of the rules: a comparison and an answer for each.
pub open spec fn rule_code(rules: Seq<(u32, u32)>) -> Seq<SockFilter> {
    Seq::new(
        2 * rules.len(),
        |i: int|
            if i % 2 == 0 {
                SockFilter { code: JUMP_IF_EQUAL, jt: 0, jf: 1, k: rules[i / 2].0 }
            } else {
                stmt(RETURN, rules[i / 2].1)
            },
    )
}

/// The filter for a machine, its rules and the default answer.
pub open spec fn filter(arch: u32, rules: Seq<(u32, u32)>, default: u32) -> Seq<SockFilter> {
    seq![
        stmt(LOAD_WORD, 4),
        SockFilter { code: JUMP_IF_EQUAL, jt: 1, jf: 0, k: arch },
        stmt(RETURN, SECCOMP_RET_KILL_PROCESS),
        stmt(LOAD_WORD, 0),
    ] + rule_code(rules) + seq![stmt(RETURN, default)]
}

/// Writes the filter for a machine, its rules and the default answer.
pub fn emit_filter(arch: u32, rules: &Vec<(u32, u32)>, default: u32) -> (prog: Vec<SockFilter>)
    ensures
        prog@ == filter(arch, rules@, default),
{
    let mut prog: Vec<SockFilter> = Vec::new();
    prog.push(SockFilter { code: LOAD_WORD, jt: 0, jf: 0, k: 4 });
    prog.push(SockFilter { code: JUMP_IF_EQUAL, jt: 1, jf: 0, k: arch });
    prog.push(SockFilter { code: RETURN, jt: 0, jf: 0, k: SECCOMP_RET_KILL_PROCESS });
    prog.push(SockFilter { code: LOAD_WORD, jt: 0, jf: 0, k: 0 });
    let ghost head = prog@;
    let mut i: usize = 0;
    proof {
        assert(rule_code(rules@).subrange(0, 0) =~= Seq::<SockFilter>::empty());
        assert(head + rule_code(rules@).subrange(0, 0) =~= head);
    }
    while i < rules.len()
        invariant
            i <= rules.len(),
            prog@ == head + rule_code(rules@).subrange(0, 2 * i),
        decreases rules.len() - i,
    {
        let (nr, action) = rules[i];
        prog.push(SockFilter { code: JUMP_IF_EQUAL, jt: 0, jf: 1, k: nr });
        prog.push(SockFilter { code: RETURN, jt: 0, jf: 0, k: action });
        proof {
            let code = rule_code(rules@);
            assert((2 * i) / 2 == i && (2 * i + 1) / 2 == i);
            assert(code[2 * i] == SockFilter { code: JUMP_IF_EQUAL, jt: 0, jf: 1, k: nr });
            assert(code[2 * i + 1] == stmt(RETURN, action));
            assert(prog@ =~= head + code.subrange(0, 2 * (i + 1)));
        }
        i = i + 1;
    }
    prog.push(SockFilter { code: RETURN, jt: 0, jf: 0, k: default });
    proof {
        assert(rule_code(rules@).subrange(0, 2 * (rules@.len() as int)) =~= rule_code(rules@));
        assert(prog@ =~= filter(arch, rules@, default));
    }
    prog
}

/// From the `i`th rule on, a filter decides as the rules from there on do.
proof fn lemma_rules_decide(arch: u32, rules: Seq<(u32, u32)>, default: u32, nr: u32, i: int)
    requires
        0 <= i <= rules.len(),
    ensures
        run(filter(arch, rules, default), 4 + 2 * i, nr, nr, arch) == Some(
            decide(rules.skip(i), default, nr),
        ),
    decreases rules.len() - i,
{
    let prog = filter(arch, rules, default);
    let pc = 4 + 2 * i;
    if i < rules.len() {
        assert(prog[pc] == rule_code(rules)[2 * i]);
        assert(prog[pc + 1] == rule_code(rules)[2 * i + 1]);
        assert((2 * i) / 2 == i && (2 * i + 1) / 2 == i && (2 * i) % 2 == 0 && (2 * i + 1) % 2 == 1);
        assert(rules.skip(i)[0] == rules[i]);
        assert(rules.skip(i).skip(1) =~= rules.skip(i + 1));
        if nr == rules[i].0 {
            assert(run(prog, pc, nr, nr, arch) == run(prog, pc + 1, nr, nr, arch));
        } else {
            lemma_rules_decide(arch, rules, default, nr, i + 1);
            assert(run(prog, pc, nr, nr, arch) == run(prog, pc + 2, nr, nr, arch));
        }
    } else {
        assert(prog[pc] == stmt(RETURN, default));
    }
}

/// A filter kills on a foreign machine and decides as its rules do on its own.
pub proof fn law_filter_decides(
    arch: u32,
    rules: Seq<(u32, u32)>,
    default: u32,
    nr: u32,
    machine: u32,
    acc: u32,
)
    ensures
        run(filter(arch, rules, default), 0, acc, nr, machine) == Some(
            if machine == arch {
                decide(rules, default, nr)
            } else {
                SECCOMP_RET_KILL_PROCESS
            },
        ),
{
    let prog = filter(arch, rules, default);
    assert(prog[0] == stmt(LOAD_WORD, 4));
    assert(prog[1] == (SockFilter { code: JUMP_IF_EQUAL, jt: 1, jf: 0, k: arch }));
    assert(prog[2] == stmt(RETURN, SECCOMP_RET_KILL_PROCESS));
    assert(prog[3] == stmt(LOAD_WORD, 0));
    assert(run(prog, 0, acc, nr, machine) == run(prog, 1, machine, nr, machine));
    if machine == arch {
        assert(run(prog, 1, machine, nr, machine) == run(prog, 3, machine, nr, machine));
        assert(run(prog, 3, machine, nr, machine) == run(prog, 4, nr, nr, machine));
        lemma_rules_decide(arch, rules, default, nr, 0);
        assert(rules.skip(0) =~= rules);
    } else {
        assert(run(prog, 1, machine, nr, machine) == run(prog, 2, machine, nr, machine));
    }
}

/// The kernel's name for a machine.
pub open spec fn audit_arch(arch: Arch) -> Option<u32> {
    match arch {
        Arch::X86_64 => Some(0xc000_003eu32),
        Arch::Aarch64 => Some(0xc000_00b7u32),
        Arch::Other => None,
    }
}

/// The kernel's name for a machine.
pub fn host_audit_arch(arch: Arch) -> (r: Result<u32, Error>)
    ensures
        match r {
            Ok(a) => audit_arch(arch) == Some(a),
            Err(e) => audit_arch(arch) is None && e@ == "seccomp: unsupported target arch"@,
        },
{
    match arch {
        Arch::X86_64 => Ok(0xc000_003e),
        Arch::Aarch64 => Ok(0xc000_00b7),
        Arch::Other => Err(Error::new(owned("seccomp: unsupported target arch"))),
    }
}

/// The number of a call on a machine.
pub open spec fn call_number(arch: Arch, name: Seq<char>) -> Option<i64> {
    match arch {
        Arch::X86_64 => syscall_table_x86_64::number(name),
        Arch::Aarch64 => syscall_table_aarch64::number(name),
        Arch::Other => None,
    }
}

/// The number of a call on a machine.
pub fn syscall_nr(arch: Arch, name: &str) -> (r: Option<i64>)
    ensures
        r == call_number(arch, name@),
{
    match arch {
        Arch::X86_64 => syscall_nr_x86_64(name),
        Arch::Aarch64 => syscall_nr_aarch64(name),
        Arch::Other => None,
    }
}

/// The answer an action stands for; the error number only counts for the action that has one.
pub open spec fn action_code(name: Seq<char>, errno_ret: Option<u32>) -> Option<u32> {
    if name == "SCMP_ACT_ALLOW"@ {
        Some(SECCOMP_RET_ALLOW)
    } else if name == "SCMP_ACT_ERRNO"@ {
        Some(
            SECCOMP_RET_ERRNO | (match errno_ret {
                Some(n) => n,
                None => EPERM,
            }),
        )
    } else if name == "SCMP_ACT_KILL"@ || name == "SCMP_ACT_KILL_THREAD"@ {
        Some(SECCOMP_RET_KILL_THREAD)
    } else if name == "SCMP_ACT_KILL_PROCESS"@ {
        Some(SECCOMP_RET_KILL_PROCESS)
    } else if name == "SCMP_ACT_LOG"@ {
        Some(SECCOMP_RET_LOG)
    } else if name == "SCMP_ACT_TRAP"@ {
        Some(SECCOMP_RET_TRAP)
    } else {
        None
    }
}

/// The action where none is named.
pub open spec fn action_name(s: Option<Seq<char>>) -> Seq<char> {
    match s {
        Some(s) => s,
        None => "SCMP_ACT_ERRNO"@,
    }
}

/// The message for an action that is not known.
pub open spec fn action_fault(name: Seq<char>) -> Seq<char> {
    "unsupported seccomp action: "@ + name
}

/// The answer an action stands for.
pub fn parse_action(s: Option<&str>, errno_ret: Option<u32>) -> (r: Result<u32, Error>)
    ensures
        ({
            let name = action_name(
                match s {
                    Some(s) => Some(s@),
                    None => None,
                },
            );
            match r {
                Ok(a) => action_code(name, errno_ret) == Some(a),
                Err(e) => action_code(name, errno_ret) is None && e@ == action_fault(name),
            }
        }),
{
    let name = match s {
        Some(s) => s,
        None => "SCMP_ACT_ERRNO",
    };
    if str_eq(name, "SCMP_ACT_ALLOW") {
        Ok(SECCOMP_RET_ALLOW)
    } else if str_eq(name, "SCMP_ACT_ERRNO") {
        let n: u32 = match errno_ret {
            Some(n) => n,
            None => EPERM,
        };
        Ok(SECCOMP_RET_ERRNO | n)
    } else if str_eq(name, "SCMP_ACT_KILL") || str_eq(name, "SCMP_ACT_KILL_THREAD") {
        Ok(SECCOMP_RET_KILL_THREAD)
    } else if str_eq(name, "SCMP_ACT_KILL_PROCESS") {
        Ok(SECCOMP_RET_KILL_PROCESS)
    } else if str_eq(name, "SCMP_ACT_LOG") {
        Ok(SECCOMP_RET_LOG)
    } else if str_eq(name, "SCMP_ACT_TRAP") {
        Ok(SECCOMP_RET_TRAP)
    } else {
        Err(Error::new(cat2("unsupported seccomp action: ", name)))
    }
}

/// The action in the member `key` of `v`, its error number in the member `errno_key`.
pub open spec fn action_at(v: JsonView, key: Seq<char>, errno_key: Seq<char>) -> Result<
    u32,
    Seq<char>,
> {
    let name = action_name(json::text_at(json::field(v, key)));
    let errno_ret = match json::i64_at(json::field(v, errno_key)) {
        Some(n) => Some(n as u32),
        None => None,
    };
    match action_code(name, errno_ret) {
        Some(a) => Ok(a),
        None => Err(action_fault(name)),
    }
}

/// Reads an action.
fn get_action(v: &Json, key: &str, errno_key: &str) -> (r: Result<u32, Error>)
    ensures
        match r {
            Ok(a) => action_at(v@, key@, errno_key@) == Ok::<u32, Seq<char>>(a),
            Err(e) => action_at(v@, key@, errno_key@) == Err::<u32, Seq<char>>(e@),
        },
{
    let errno_ret = match get_i64(v.get(errno_key)) {
        Some(n) => Some(n as u32),
        None => None,
    };
    parse_action(get_text(v.get(key)), errno_ret)
}

/// The rules for a list of names; a name that is no call of the machine adds none.
pub open spec fn name_rules(arch: Arch, names: Seq<Seq<char>>, action: u32) -> Seq<(u32, u32)>
    decreases names.len(),
{
    if names.len() == 0 {
        Seq::empty()
    } else {
        match call_number(arch, names.last()) {
            Some(nr) => name_rules(arch, names.drop_last(), action).push((nr as u32, action)),
            None => name_rules(arch, names.drop_last(), action),
        }
    }
}

/// The rules of a profile's entries, or what is wrong with the first that is not usable.
pub open spec fn entry_rules(arch: Arch, entries: Seq<JsonView>) -> Result<
    Seq<(u32, u32)>,
    Seq<char>,
>
    decreases entries.len(),
{
    if entries.len() == 0 {
        Ok(Seq::empty())
    } else {
        match entry_rules(arch, entries.drop_last()) {
            Err(why) => Err(why),
            Ok(rules) => match action_at(entries.last(), "action"@, "errnoRet"@) {
                Err(why) => Err(why),
                Ok(action) => Ok(
                    rules + name_rules(
                        arch,
                        json::string_list(json::field(entries.last(), "names"@)),
                        action,
                    ),
                ),
            },
        }
    }
}

/// A profile, taken apart.
pub struct Profile {
    pub arch: u32,
    pub rules: Seq<(u32, u32)>,
    pub default: u32,
}

/// What a profile says, or what is wrong with it.
pub open spec fn profile(v: JsonView, arch: Arch) -> Result<Profile, Seq<char>> {
    match audit_arch(arch) {
        None => Err("seccomp: unsupported target arch"@),
        Some(a) => match action_at(v, "defaultAction"@, "defaultErrnoRet"@) {
            Err(why) => Err(why),
            Ok(default) => match entry_rules(arch, spec::elements(json::field(v, "syscalls"@))) {
                Err(why) => Err(why),
                Ok(rules) => Ok(Profile { arch: a, rules, default }),
            },
        },
    }
}

/// The program for a profile: none where it allows everything.
pub open spec fn profile_code(p: Profile) -> Seq<SockFilter> {
    if p.rules.len() == 0 && p.default == SECCOMP_RET_ALLOW {
        Seq::empty()
    } else {
        filter(p.arch, p.rules, p.default)
    }
}

/// The first entry that is not usable decides, whatever follows it.
proof fn lemma_bad_entry(arch: Arch, a: Seq<JsonView>, k: int)
    requires
        0 <= k <= a.len(),
        entry_rules(arch, a.subrange(0, k)) is Err,
    ensures
        entry_rules(arch, a) == entry_rules(arch, a.subrange(0, k)),
    decreases a.len() - k,
{
    if k < a.len() {
        assert(a.subrange(0, k + 1).drop_last() =~= a.subrange(0, k));
        lemma_bad_entry(arch, a, k + 1);
    } else {
        assert(a.subrange(0, k) =~= a);
    }
}

/// Adds the rules for a list of names.
fn add_rules(rules: &mut Vec<(u32, u32)>, arch: Arch, names: &Vec<String>, action: u32)
    ensures
        final(rules)@ == old(rules)@ + name_rules(arch, text::texts(names@), action),
{
    let ghost before = rules@;
    let ghost all = text::texts(names@);
    let mut i: usize = 0;
    proof {
        assert(all.subrange(0, 0) =~= Seq::<Seq<char>>::empty());
        assert(before + name_rules(arch, all.subrange(0, 0), action) =~= before);
    }
    while i < names.len()
        invariant
            i <= names.len(),
            all == text::texts(names@),
            rules@ == before + name_rules(arch, all.subrange(0, i as int), action),
        decreases names.len() - i,
    {
        proof {
            assert(all.subrange(0, i + 1).drop_last() =~= all.subrange(0, i as int));
            assert(all.subrange(0, i + 1).last() == names@[i as int]@);
        }
        if let Some(nr) = syscall_nr(arch, names[i].as_str()) {
            rules.push((nr as u32, action));
            proof {
                assert(rules@ =~= before + name_rules(arch, all.subrange(0, i + 1), action));
            }
        }
        i = i + 1;
    }
    proof {
        assert(all.subrange(0, all.len() as int) =~= all);
    }
}

/// Compiles a profile. Where there is none, or it allows everything, there is no program.
pub fn compile(seccomp: Option<&Json>, arch: Arch) -> (r: Result<Vec<SockFilter>, Error>)
    ensures
        match seccomp {
            None => r is Ok && (r->Ok_0)@.len() == 0,
            Some(v) => match profile(v@, arch) {
                Ok(p) => r is Ok && (r->Ok_0)@ == profile_code(p),
                Err(why) => r is Err && (r->Err_0)@ == why,
            },
        },
{
    let v = match seccomp {
        Some(v) => v,
        None => return Ok(Vec::new()),
    };
    let audit: u32 = match host_audit_arch(arch) {
        Ok(a) => a,
        Err(e) => return Err(e),
    };
    let default: u32 = match get_action(v, "defaultAction", "defaultErrnoRet") {
        Ok(a) => a,
        Err(e) => return Err(e),
    };
    let mut rules: Vec<(u32, u32)> = Vec::new();
    if let Some(a) = get_items(v.get("syscalls")) {
        let ghost all = json::views(a@);
        let mut i: usize = 0;
        proof {
            assert(all.subrange(0, 0) =~= Seq::<JsonView>::empty());
        }
        while i < a.len()
            invariant
                i <= a.len(),
                all == json::views(a@),
                all == spec::elements(json::field(v@, "syscalls"@)),
                seccomp == Some(v),
                audit_arch(arch) == Some(audit),
                action_at(v@, "defaultAction"@, "defaultErrnoRet"@) == Ok::<u32, Seq<char>>(
                    default,
                ),
                entry_rules(arch, all.subrange(0, i as int)) == Ok::<Seq<(u32, u32)>, Seq<char>>(
                    rules@,
                ),
            decreases a.len() - i,
        {
            proof {
                assert(all.subrange(0, i + 1).drop_last() =~= all.subrange(0, i as int));
                assert(all.subrange(0, i + 1).last() == a@[i as int]@);
            }
            let action: u32 = match get_action(&a[i], "action", "errnoRet") {
                Ok(x) => x,
                Err(e) => {
                    proof {
                        lemma_bad_entry(arch, all, i + 1);
                    }
                    return Err(e);
                },
            };
            let names = get_strings(a[i].get("names"));
            add_rules(&mut rules, arch, &names, action);
            i = i + 1;
        }
        proof {
            assert(all.subrange(0, all.len() as int) =~= all);
        }
    }
    if rules.is_empty() && default == SECCOMP_RET_ALLOW {
        return Ok(Vec::new());
    }
    Ok(emit_filter(audit, &rules, default))
}

/// A compiled profile decides as the profile says on its machine; where there is no program,
/// the profile allows every call.
pub proof fn law_profile_decides(v: JsonView, arch: Arch, nr: u32, acc: u32)
    requires
        profile(v, arch) is Ok,
    ensures
        ({
            let p = profile(v, arch)->Ok_0;
            if profile_code(p).len() == 0 {
                decide(p.rules, p.default, nr) == SECCOMP_RET_ALLOW
            } else {
                run(profile_code(p), 0, acc, nr, p.arch) == Some(decide(p.rules, p.default, nr))
            }
        }),
{
    let p = profile(v, arch)->Ok_0;
    law_filter_decides(p.arch, p.rules, p.default, nr, p.arch, acc);
}

/// Whether an element of a list of names is the name of the call `nr`.
pub open spec fn calls(arch: Arch, x: JsonView, nr: u32) -> bool {
    x matches JsonView::Str(t) && call_number(arch, t) matches Some(n) && n as u32 == nr
}

/// Whether an entry of a profile names the call `nr`.
pub open spec fn names_call(arch: Arch, e: JsonView, nr: u32) -> bool {
    json::field(e, "names"@) matches Some(JsonView::Array(a)) && exists|i: int|
        0 <= i < a.len() && calls(arch, #[trigger] a[i], nr)
}

/// Rules of which one is for the call decide it, whatever follows them; else what follows does.
proof fn lemma_decide_parts(a: Seq<(u32, u32)>, b: Seq<(u32, u32)>, default: u32, nr: u32)
    ensures
        (forall|i: int| 0 <= i < a.len() ==> (#[trigger] a[i]).0 != nr) ==> decide(
            a + b,
            default,
            nr,
        ) == decide(b, default, nr),
        (exists|i: int| 0 <= i < a.len() && (#[trigger] a[i]).0 == nr) ==> decide(
            a + b,
            default,
            nr,
        ) == decide(a, default, nr),
    decreases a.len(),
{
    if a.len() == 0 {
        assert(a + b =~= b);
    } else {
        let r = a.skip(1);
        assert((a + b)[0] == a[0]);
        assert((a + b).skip(1) =~= r + b);
        lemma_decide_parts(r, b, default, nr);
        if a[0].0 != nr {
            if forall|i: int| 0 <= i < a.len() ==> (#[trigger] a[i]).0 != nr {
                assert forall|i: int| 0 <= i < r.len() implies (#[trigger] r[i]).0 != nr by {
                    assert(a[i + 1].0 != nr);
                }
            } else {
                let i = choose|i: int| 0 <= i < a.len() && (#[trigger] a[i]).0 == nr;
                assert(r[i - 1].0 == nr);
            }
        }
    }
}

/// The numbers of names, as a function.
spec fn numbering(arch: Arch) -> spec_fn(Seq<char>) -> Option<i64> {
    |name: Seq<char>| call_number(arch, name)
}

/// The rules for names whose numbers a function gives.
spec fn rules_by(f: spec_fn(Seq<char>) -> Option<i64>, names: Seq<Seq<char>>, action: u32) -> Seq<
    (u32, u32),
>
    decreases names.len(),
{
    if names.len() == 0 {
        Seq::empty()
    } else {
        match f(names.last()) {
            Some(nr) => rules_by(f, names.drop_last(), action).push((nr as u32, action)),
            None => rules_by(f, names.drop_last(), action),
        }
    }
}

/// Whether an element of a list of names has the number `nr` by a function.
spec fn calls_by(f: spec_fn(Seq<char>) -> Option<i64>, x: JsonView, nr: u32) -> bool {
    x matches JsonView::Str(t) && f(t) matches Some(n) && n as u32 == nr
}

/// The rules for names are those by the machine's numbers.
proof fn lemma_rules_by(arch: Arch, names: Seq<Seq<char>>, action: u32)
    ensures
        name_rules(arch, names, action) == rules_by(numbering(arch), names, action),
    decreases names.len(),
{
    if names.len() > 0 {
        lemma_rules_by(arch, names.drop_last(), action);
        assert(numbering(arch)(names.last()) == call_number(arch, names.last()));
    }
}

/// The rules for the strings of an array: each answers with the action, and there is one for a call
/// exactly where an element names it.
proof fn lemma_array_rules(
    f: spec_fn(Seq<char>) -> Option<i64>,
    a: Seq<JsonView>,
    action: u32,
    nr: u32,
)
    ensures
        ({
            let rules = rules_by(f, json::strings_among(a), action);
            &&& forall|i: int| 0 <= i < rules.len() ==> (#[trigger] rules[i]).1 == action
            &&& (exists|i: int| 0 <= i < rules.len() && (#[trigger] rules[i]).0 == nr)
                <==> exists|i: int| 0 <= i < a.len() && calls_by(f, #[trigger] a[i], nr)
        }),
    decreases a.len(),
{
    let names = json::strings_among(a);
    let rules = rules_by(f, names, action);
    if a.len() > 0 {
        let h = a.drop_last();
        let before = rules_by(f, json::strings_among(h), action);
        lemma_array_rules(f, h, action, nr);
        assert forall|i: int| 0 <= i < h.len() implies h[i] == a[i] by {}
        match a.last() {
            JsonView::Str(t) => {
                assert(names.drop_last() =~= json::strings_among(h));
            },
            _ => {},
        }
        if exists|i: int| 0 <= i < rules.len() && (#[trigger] rules[i]).0 == nr {
            let i = choose|i: int| 0 <= i < rules.len() && (#[trigger] rules[i]).0 == nr;
            if i < before.len() {
                assert(before[i].0 == nr);
                let j = choose|j: int| 0 <= j < h.len() && calls_by(f, #[trigger] h[j], nr);
                assert(calls_by(f, a[j], nr));
            } else {
                assert(calls_by(f, a[a.len() - 1], nr));
            }
        }
        if exists|i: int| 0 <= i < a.len() && calls_by(f, #[trigger] a[i], nr) {
            let i = choose|i: int| 0 <= i < a.len() && calls_by(f, #[trigger] a[i], nr);
            if i < h.len() {
                assert(calls_by(f, h[i], nr));
                let j = choose|j: int| 0 <= j < before.len() && (#[trigger] before[j]).0 == nr;
                assert(rules[j].0 == nr);
            } else {
                assert(rules[rules.len() - 1].0 == nr);
            }
        }
        assert forall|i: int| 0 <= i < rules.len() implies (#[trigger] rules[i]).1 == action by {
            if i < before.len() {
                assert(before[i].1 == action);
            }
        }
    }
}

/// Rules that all answer the same decide so where one is for the call.
proof fn lemma_decide_same(rules: Seq<(u32, u32)>, action: u32, default: u32, nr: u32)
    requires
        forall|i: int| 0 <= i < rules.len() ==> (#[trigger] rules[i]).1 == action,
        exists|i: int| 0 <= i < rules.len() && (#[trigger] rules[i]).0 == nr,
    ensures
        decide(rules, default, nr) == action,
    decreases rules.len(),
{
    assert(rules[0].1 == action);
    if rules[0].0 != nr {
        let r = rules.skip(1);
        let i = choose|i: int| 0 <= i < rules.len() && (#[trigger] rules[i]).0 == nr;
        assert(r[i - 1].0 == nr);
        assert forall|i: int| 0 <= i < r.len() implies (#[trigger] r[i]).1 == action by {
            assert(rules[i + 1].1 == action);
        }
        lemma_decide_same(r, action, default, nr);
    }
}

/// The rules of one entry: each answers with the action, and there is one for a call exactly where
/// the entry names it.
proof fn lemma_name_rules(arch: Arch, e: JsonView, action: u32, nr: u32)
    ensures
        ({
            let rules = name_rules(arch, json::string_list(json::field(e, "names"@)), action);
            &&& forall|i: int| 0 <= i < rules.len() ==> (#[trigger] rules[i]).1 == action
            &&& (exists|i: int| 0 <= i < rules.len() && (#[trigger] rules[i]).0 == nr)
                <==> names_call(arch, e, nr)
        }),
{
    let f = numbering(arch);
    lemma_rules_by(arch, json::string_list(json::field(e, "names"@)), action);
    match json::field(e, "names"@) {
        Some(JsonView::Array(a)) => {
            lemma_array_rules(f, a, action, nr);
            assert forall|x: JsonView| calls(arch, x, nr) == #[trigger] calls_by(f, x, nr) by {}
            if names_call(arch, e, nr) {
                let i = choose|i: int| 0 <= i < a.len() && calls(arch, #[trigger] a[i], nr);
                assert(calls_by(f, a[i], nr));
            }
            if exists|i: int| 0 <= i < a.len() && calls_by(f, #[trigger] a[i], nr) {
                let i = choose|i: int| 0 <= i < a.len() && calls_by(f, #[trigger] a[i], nr);
                assert(calls(arch, a[i], nr));
            }
        },
        _ => {},
    }
}

/// Whether an entry names the call, held opaque.
#[verifier::opaque]
spec fn named(arch: Arch, e: JsonView, nr: u32) -> bool {
    names_call(arch, e, nr)
}

/// The rules of one entry, held opaque.
#[verifier::opaque]
spec fn own_rules(arch: Arch, e: JsonView, action: u32) -> Seq<(u32, u32)> {
    name_rules(arch, json::string_list(json::field(e, "names"@)), action)
}

/// The rules of the entries before the last and of the last.
proof fn lemma_entry_step(arch: Arch, es: Seq<JsonView>, nr: u32)
    requires
        es.len() > 0,
        entry_rules(arch, es) is Ok,
    ensures
        entry_rules(arch, es.drop_last()) is Ok,
        action_at(es.last(), "action"@, "errnoRet"@) is Ok,
        ({
            let action = action_at(es.last(), "action"@, "errnoRet"@)->Ok_0;
            let own = own_rules(arch, es.last(), action);
            &&& entry_rules(arch, es)->Ok_0 == entry_rules(arch, es.drop_last())->Ok_0 + own
            &&& forall|i: int| 0 <= i < own.len() ==> (#[trigger] own[i]).1 == action
            &&& (exists|i: int| 0 <= i < own.len() && (#[trigger] own[i]).0 == nr) <==> named(
                arch,
                es.last(),
                nr,
            )
        }),
{
    reveal(named);
    reveal(own_rules);
    let action = action_at(es.last(), "action"@, "errnoRet"@)->Ok_0;
    lemma_name_rules(arch, es.last(), action, nr);
}

/// What the rules of the entries decide: the first entry that names the call, else the default.
proof fn lemma_entries_decide(arch: Arch, es: Seq<JsonView>, default: u32, nr: u32)
    requires
        entry_rules(arch, es) is Ok,
    ensures
        ({
            let rules = entry_rules(arch, es)->Ok_0;
            &&& (exists|i: int| 0 <= i < rules.len() && (#[trigger] rules[i]).0 == nr)
                <==> exists|k: int| 0 <= k < es.len() && named(arch, #[trigger] es[k], nr)
            &&& (forall|k: int| 0 <= k < es.len() ==> !named(arch, #[trigger] es[k], nr))
                ==> decide(rules, default, nr) == default
            &&& forall|k: int|
                0 <= k < es.len() && named(arch, #[trigger] es[k], nr) && (forall|j: int|
                    0 <= j < k ==> !named(arch, #[trigger] es[j], nr)) ==> action_at(
                    es[k],
                    "action"@,
                    "errnoRet"@,
                ) == Ok::<u32, Seq<char>>(decide(rules, default, nr))
        }),
    decreases es.len(),
{
    let rules = entry_rules(arch, es)->Ok_0;
    if es.len() > 0 {
        let h = es.drop_last();
        let before = entry_rules(arch, h)->Ok_0;
        let action = action_at(es.last(), "action"@, "errnoRet"@)->Ok_0;
        let own = own_rules(arch, es.last(), action);
        lemma_entry_step(arch, es, nr);
        lemma_entries_decide(arch, h, default, nr);
        lemma_decide_parts(before, own, default, nr);
        assert forall|i: int| 0 <= i < h.len() implies h[i] == es[i] by {}
        if exists|i: int| 0 <= i < before.len() && (#[trigger] before[i]).0 == nr {
            let i = choose|i: int| 0 <= i < before.len() && (#[trigger] before[i]).0 == nr;
            assert(rules[i].0 == nr);
            let k = choose|k: int| 0 <= k < h.len() && named(arch, #[trigger] h[k], nr);
            assert(named(arch, es[k], nr));
        } else {
            lemma_no_rule(own, default, nr);
            if named(arch, es.last(), nr) {
                lemma_decide_same(own, action, default, nr);
                let i = choose|i: int| 0 <= i < own.len() && (#[trigger] own[i]).0 == nr;
                assert(rules[before.len() + i].0 == nr);
                assert(named(arch, es[es.len() - 1], nr));
            }
            assert forall|k: int| 0 <= k < h.len() implies !named(arch, #[trigger] h[k], nr) by {
            }
        }
        if exists|i: int| 0 <= i < rules.len() && (#[trigger] rules[i]).0 == nr {
            let i = choose|i: int| 0 <= i < rules.len() && (#[trigger] rules[i]).0 == nr;
            if i < before.len() {
                assert(before[i].0 == nr);
            } else {
                assert(own[i - before.len()].0 == nr);
            }
        }
        if exists|k: int| 0 <= k < es.len() && named(arch, #[trigger] es[k], nr) {
            let k = choose|k: int| 0 <= k < es.len() && named(arch, #[trigger] es[k], nr);
            if k < h.len() {
                assert(named(arch, h[k], nr));
            }
        }
        assert forall|k: int|
            0 <= k < es.len() && named(arch, #[trigger] es[k], nr) && (forall|j: int|
                0 <= j < k ==> !named(arch, #[trigger] es[j], nr)) implies action_at(
            es[k],
            "action"@,
            "errnoRet"@,
        ) == Ok::<u32, Seq<char>>(decide(rules, default, nr)) by {
            if k < h.len() {
                assert(named(arch, h[k], nr));
                assert forall|j: int| 0 <= j < k implies !named(arch, #[trigger] h[j], nr) by {
                    assert(h[j] == es[j]);
                }
            } else {
                assert forall|j: int| 0 <= j < h.len() implies !named(
                    arch,
                    #[trigger] h[j],
                    nr,
                ) by {
                    assert(h[j] == es[j]);
                }
            }
        }
    }
}

/// Where no rule is for the call, the default decides.
proof fn lemma_no_rule(rules: Seq<(u32, u32)>, default: u32, nr: u32)
    ensures
        (forall|i: int| 0 <= i < rules.len() ==> (#[trigger] rules[i]).0 != nr) ==> decide(
            rules,
            default,
            nr,
        ) == default,
{
    lemma_decide_parts(rules, Seq::empty(), default, nr);
    assert(rules + Seq::<(u32, u32)>::empty() =~= rules);
}

/// The entries of a profile.
pub open spec fn profile_entries(v: JsonView) -> Seq<JsonView> {
    match json::field(v, "syscalls"@) {
        Some(JsonView::Array(a)) => a,
        _ => Seq::empty(),
    }
}

/// What a compiled profile answers to a call on its machine: the action of the first entry that
/// names the call, and the default action where no entry does. Every name of every entry counts.
/// Where there is no program, the profile allows everything and names no call.
pub proof fn law_first_entry_answers(v: JsonView, arch: Arch, nr: u32, acc: u32, k: int)
    requires
        profile(v, arch) is Ok,
    ensures
        ({
            let p = profile(v, arch)->Ok_0;
            let code = profile_code(p);
            let es = profile_entries(v);
            let answer = if code.len() == 0 {
                Some(SECCOMP_RET_ALLOW)
            } else {
                run(code, 0, acc, nr, p.arch)
            };
            &&& (forall|j: int| 0 <= j < es.len() ==> !names_call(arch, #[trigger] es[j], nr))
                ==> answer is Some && action_at(v, "defaultAction"@, "defaultErrnoRet"@) == Ok::<
                u32,
                Seq<char>,
            >(answer->Some_0)
            &&& 0 <= k < es.len() && names_call(arch, es[k], nr) && (forall|j: int|
                0 <= j < k ==> !names_call(arch, #[trigger] es[j], nr)) ==> {
                &&& code.len() > 0
                &&& answer is Some
                &&& action_at(es[k], "action"@, "errnoRet"@) == Ok::<u32, Seq<char>>(
                    answer->Some_0,
                )
            }
            &&& arch == Arch::X86_64 ==> p.arch == 0xc000003e
            &&& arch == Arch::Aarch64 ==> p.arch == 0xc00000b7
            &&& arch != Arch::Other
        }),
{
    let p = profile(v, arch)->Ok_0;
    let es = profile_entries(v);
    assert(es =~= spec::elements(json::field(v, "syscalls"@)));
    assert forall|j: int| 0 <= j < es.len() implies named(arch, es[j], nr) == #[trigger] names_call(
        arch,
        es[j],
        nr,
    ) by {
        reveal(named);
    }
    lemma_entries_decide(arch, es, p.default, nr);
    law_filter_decides(p.arch, p.rules, p.default, nr, p.arch, acc);
    if 0 <= k < es.len() && names_call(arch, es[k], nr) {
        assert(p.rules.len() > 0);
        assert(filter(p.arch, p.rules, p.default).len() > 0);
    }
}

/// On a machine that it was not compiled for a profile's program ends the process.
pub proof fn law_foreign_machine_killed(v: JsonView, arch: Arch, nr: u32, machine: u32, acc: u32)
    requires
        profile(v, arch) is Ok,
        profile_code(profile(v, arch)->Ok_0).len() > 0,
        arch == Arch::X86_64 && machine != 0xc000003e || arch == Arch::Aarch64 && machine
            != 0xc00000b7,
    ensures
        run(profile_code(profile(v, arch)->Ok_0), 0, acc, nr, machine) == Some(0x80000000u32),
{
    let p = profile(v, arch)->Ok_0;
    law_filter_decides(p.arch, p.rules, p.default, nr, machine, acc);
}

/// What an action answers, by its name. One that is not named is an error, and an error without a
/// number is `EPERM`; nothing else is known.
pub proof fn law_action_answers(v: JsonView, key: Seq<char>, errno_key: Seq<char>, a: u32)
    requires
        action_at(v, key, errno_key) == Ok::<u32, Seq<char>>(a),
    ensures
        ({
            let name = json::field(v, key);
            let number = json::i64_at(json::field(v, errno_key));
            let errno = match number {
                Some(n) => n as u32,
                None => 1u32,
            };
            &&& name == Some(JsonView::Str("SCMP_ACT_ALLOW"@)) ==> a == 0x7fff0000
            &&& name == Some(JsonView::Str("SCMP_ACT_ERRNO"@)) ==> a == 0x50000 | errno
            &&& !(name matches Some(JsonView::Str(_))) ==> a == 0x50000 | errno
            &&& name == Some(JsonView::Str("SCMP_ACT_KILL"@)) ==> a == 0
            &&& name == Some(JsonView::Str("SCMP_ACT_KILL_THREAD"@)) ==> a == 0
            &&& name == Some(JsonView::Str("SCMP_ACT_KILL_PROCESS"@)) ==> a == 0x80000000
            &&& name == Some(JsonView::Str("SCMP_ACT_LOG"@)) ==> a == 0x7ffc0000
            &&& name == Some(JsonView::Str("SCMP_ACT_TRAP"@)) ==> a == 0x30000
            &&& name matches Some(JsonView::Str(t)) ==> t == "SCMP_ACT_ALLOW"@ || t
                == "SCMP_ACT_ERRNO"@ || t == "SCMP_ACT_KILL"@ || t == "SCMP_ACT_KILL_THREAD"@ || t
                == "SCMP_ACT_KILL_PROCESS"@ || t == "SCMP_ACT_LOG"@ || t == "SCMP_ACT_TRAP"@
        }),
{
    reveal_strlit("SCMP_ACT_ALLOW");
    reveal_strlit("SCMP_ACT_ERRNO");
    reveal_strlit("SCMP_ACT_KILL");
    reveal_strlit("SCMP_ACT_KILL_THREAD");
    reveal_strlit("SCMP_ACT_KILL_PROCESS");
    reveal_strlit("SCMP_ACT_LOG");
    reveal_strlit("SCMP_ACT_TRAP");
    assert("SCMP_ACT_ALLOW"@.len() == 14 && "SCMP_ACT_ERRNO"@.len() == 14);
    assert("SCMP_ACT_ALLOW"@[9] == 'A' && "SCMP_ACT_ERRNO"@[9] == 'E');
    assert("SCMP_ACT_KILL"@.len() == 13 && "SCMP_ACT_TRAP"@.len() == 13);
    assert("SCMP_ACT_KILL"@[9] == 'K' && "SCMP_ACT_TRAP"@[9] == 'T');
    assert("SCMP_ACT_KILL_THREAD"@.len() == 20 && "SCMP_ACT_KILL_PROCESS"@.len() == 21
        && "SCMP_ACT_LOG"@.len() == 12);
}

/// The rules of the entries hold one for every call that an entry names, with the entry's action.
proof fn lemma_entries_hold(arch: Arch, es: Seq<JsonView>, k: int, nr: u32)
    requires
        entry_rules(arch, es) is Ok,
        0 <= k < es.len(),
        named(arch, es[k], nr),
    ensures
        action_at(es[k], "action"@, "errnoRet"@) is Ok,
        entry_rules(arch, es)->Ok_0.contains(
            (nr, action_at(es[k], "action"@, "errnoRet"@)->Ok_0),
        ),
    decreases es.len(),
{
    let rules = entry_rules(arch, es)->Ok_0;
    let before = entry_rules(arch, es.drop_last())->Ok_0;
    lemma_entry_step(arch, es, nr);
    if k < es.len() - 1 {
        assert(es.drop_last()[k] == es[k]);
        lemma_entries_hold(arch, es.drop_last(), k, nr);
        let rule = (nr, action_at(es[k], "action"@, "errnoRet"@)->Ok_0);
        let i = choose|i: int| 0 <= i < before.len() && before[i] == rule;
        assert(rules[i] == rule);
    } else {
        let action = action_at(es.last(), "action"@, "errnoRet"@)->Ok_0;
        let own = own_rules(arch, es.last(), action);
        let i = choose|i: int| 0 <= i < own.len() && (#[trigger] own[i]).0 == nr;
        assert(own[i] == (nr, action));
        assert(rules[before.len() + i] == own[i]);
    }
}

/// For every entry of a profile and every name in it that is a call of the machine, the rules hold
/// the call's number with the entry's action.
pub proof fn law_every_name_ruled(v: JsonView, arch: Arch, k: int, i: int)
    requires
        profile(v, arch) is Ok,
        0 <= k < profile_entries(v).len(),
        json::field(profile_entries(v)[k], "names"@) matches Some(JsonView::Array(a)) && (0 <= i
            < a.len()) && (a[i] matches JsonView::Str(t) && call_number(arch, t) is Some),
    ensures
        ({
            let e = profile_entries(v)[k];
            let name = json::field(e, "names"@)->Some_0->Array_0[i]->Str_0;
            let nr = call_number(arch, name)->Some_0 as u32;
            &&& action_at(e, "action"@, "errnoRet"@) is Ok
            &&& profile(v, arch)->Ok_0.rules.contains(
                (nr, action_at(e, "action"@, "errnoRet"@)->Ok_0),
            )
        }),
{
    let es = profile_entries(v);
    assert(es =~= spec::elements(json::field(v, "syscalls"@)));
    let a = json::field(es[k], "names"@)->Some_0->Array_0;
    let nr = call_number(arch, a[i]->Str_0)->Some_0 as u32;
    assert(calls(arch, a[i], nr));
    reveal(named);
    lemma_entries_hold(arch, es, k, nr);
}

} // verus!
