//! Device access rules compiled to the eBPF program that the kernel asks about every access.

use vstd::prelude::*;

use crate::error::Error;
use crate::json;
use crate::json::{get_at, get_bool_or, get_items, get_text, get_u64, Json, JsonView};
use crate::spec;
use crate::text::{chars_of, str_eq};

verus! {

/// One eBPF instruction. The offset is that of a jump forward; the constant is its bit pattern.
#[derive(Debug, Clone, Copy, PartialEq, Eq, Structural)]
pub struct Insn {
    pub code: u8,
    pub dst: u8,
    pub src: u8,
    pub off: u16,
    pub imm: u32,
}

/// Load a word from memory.
pub const LDX_W: u8 = 0x61;

/// Shift a 32-bit register right by the constant.
pub const RSH32: u8 = 0x74;

/// Mask a 32-bit register with the constant.
pub const AND32: u8 = 0x54;

/// Set a 32-bit register to the constant.
pub const MOV32: u8 = 0xb4;

/// Jump if the register differs from the constant.
pub const JNE: u8 = 0x55;

/// Jump if the register shares a bit with the constant.
pub const JSET: u8 = 0x45;

/// End with what is in register zero.
pub const EXIT: u8 = 0x95;

pub const ACCESS_MKNOD: u32 = 1;

pub const ACCESS_READ: u32 = 2;

pub const ACCESS_WRITE: u32 = 4;

/// Every kind of access.
pub const ACCESS_ALL: u32 = 7;

/// Any type of device.
pub const TYPE_ANY: u32 = 0;

pub const TYPE_BLOCK: u32 = 1;

pub const TYPE_CHAR: u32 = 2;

/// A rule: what it covers, and whether that is allowed. A number that is missing covers all.
#[derive(Debug, Clone, Copy)]
pub struct DevRule {
    pub allow: bool,
    pub kind: u32,
    pub access: u32,
    pub major: Option<u32>,
    pub minor: Option<u32>,
}

/// An access the kernel asks about.
pub struct DevAccess {
    pub kind: u32,
    pub access: u32,
    pub major: u32,
    pub minor: u32,
}

/// The registers a program of this kind uses; the context is in register one.
pub struct Regs {
    pub r0: u32,
    pub r2: u32,
    pub r3: u32,
    pub r4: u32,
    pub r5: u32,
}

/// What is in a register.
pub open spec fn reg(r: Regs, n: u8) -> u32 {
    if n == 0 {
        r.r0
    } else if n == 2 {
        r.r2
    } else if n == 3 {
        r.r3
    } else if n == 4 {
        r.r4
    } else {
        r.r5
    }
}

/// The registers with one of them set.
pub open spec fn with_reg(r: Regs, n: u8, v: u32) -> Regs {
    if n == 0 {
        Regs { r0: v, ..r }
    } else if n == 2 {
        Regs { r2: v, ..r }
    } else if n == 3 {
        Regs { r3: v, ..r }
    } else if n == 4 {
        Regs { r4: v, ..r }
    } else {
        Regs { r5: v, ..r }
    }
}

/// The word of the context at an offset: type and access, then the two numbers.
pub open spec fn context_word(access_type: u32, major: u32, minor: u32, off: u16) -> Option<u32> {
    if off == 0 {
        Some(access_type)
    } else if off == 4 {
        Some(major)
    } else if off == 8 {
        Some(minor)
    } else {
        None
    }
}

/// What a program answers: `pc` is the instruction to perform next. `None` stands for a program
/// that is not one of those emitted here.
pub open spec fn run(
    prog: Seq<Insn>,
    pc: int,
    r: Regs,
    access_type: u32,
    major: u32,
    minor: u32,
) -> Option<u32>
    decreases
            if pc < prog.len() {
                prog.len() - pc
            } else {
                0
            },
{
    if pc < 0 || pc >= prog.len() {
        None
    } else {
        let i = prog[pc];
        if i.code == LDX_W {
            match context_word(access_type, major, minor, i.off) {
                Some(w) => run(prog, pc + 1, with_reg(r, i.dst, w), access_type, major, minor),
                None => None,
            }
        } else if i.code == RSH32 {
            run(prog, pc + 1, with_reg(r, i.dst, reg(r, i.dst) >> i.imm), access_type, major, minor)
        } else if i.code == AND32 {
            run(prog, pc + 1, with_reg(r, i.dst, reg(r, i.dst) & i.imm), access_type, major, minor)
        } else if i.code == MOV32 {
            run(prog, pc + 1, with_reg(r, i.dst, i.imm), access_type, major, minor)
        } else if i.code == JNE {
            if i.imm > i32::MAX {
                None
            } else if reg(r, i.dst) != i.imm {
                run(prog, pc + 1 + i.off, r, access_type, major, minor)
            } else {
                run(prog, pc + 1, r, access_type, major, minor)
            }
        } else if i.code == JSET {
            if reg(r, i.dst) & i.imm != 0 {
                run(prog, pc + 1 + i.off, r, access_type, major, minor)
            } else {
                run(prog, pc + 1, r, access_type, major, minor)
            }
        } else if i.code == EXIT {
            Some(r.r0)
        } else {
            None
        }
    }
}

/// Whether a rule covers an access.
pub open spec fn covers(r: DevRule, a: DevAccess) -> bool {
    &&& r.kind == TYPE_ANY || a.kind == r.kind
    &&& r.access == ACCESS_ALL || a.access & !r.access == 0
    &&& match r.major {
        Some(n) => a.major == n,
        None => true,
    }
    &&& match r.minor {
        Some(n) => a.minor == n,
        None => true,
    }
}

/// Whether an access is allowed: the first rule that covers it decides, and none allows it where
/// no rule does.
pub open spec fn allowed(rules: Seq<DevRule>, a: DevAccess) -> bool
    decreases rules.len(),
{
    if rules.len() == 0 {
        false
    } else if covers(rules[0], a) {
        rules[0].allow
    } else {
        allowed(rules.skip(1), a)
    }
}

/// A rule whose numbers the program can compare with.
pub open spec fn rule_ok(r: DevRule) -> bool {
    &&& r.kind <= 2
    &&& match r.major {
        Some(n) => n <= i32::MAX,
        None => true,
    }
    &&& match r.minor {
        Some(n) => n <= i32::MAX,
        None => true,
    }
}

/// Whether a rule covers every access.
pub open spec fn is_wildcard(r: DevRule) -> bool {
    r.kind == TYPE_ANY && r.access == ACCESS_ALL && r.major is None && r.minor is None
}

/// A test that a rule makes: the instruction, the register and the constant.
pub struct Check {
    pub code: u8,
    pub dst: u8,
    pub imm: u32,
}

/// Whether the test lets the rule go on.
pub open spec fn passes(c: Check, r: Regs) -> bool {
    if c.code == JNE {
        reg(r, c.dst) == c.imm
    } else {
        reg(r, c.dst) & c.imm == 0
    }
}

/// The tests of a rule; what covers everything needs none.
pub open spec fn checks(r: DevRule) -> Seq<Check> {
    kind_check(r) + access_check(r) + number_check(r.major, 4) + number_check(r.minor, 5)
}

/// The test of the device type.
pub open spec fn kind_check(r: DevRule) -> Seq<Check> {
    if r.kind == TYPE_ANY {
        Seq::empty()
    } else {
        seq![Check { code: JNE, dst: 2, imm: r.kind }]
    }
}

/// The test of the kinds of access.
pub open spec fn access_check(r: DevRule) -> Seq<Check> {
    if r.access == ACCESS_ALL {
        Seq::empty()
    } else {
        seq![Check { code: JSET, dst: 3, imm: !r.access }]
    }
}

/// The test of a device number.
pub open spec fn number_check(n: Option<u32>, dst: u8) -> Seq<Check> {
    match n {
        Some(n) => seq![Check { code: JNE, dst, imm: n }],
        None => Seq::empty(),
    }
}

/// The answer of a rule.
pub open spec fn answer(allow: bool) -> u32 {
    if allow {
        1
    } else {
        0
    }
}

/// The instructions of a rule: its tests, each of which skips the rest of the rule, then the
/// answer.
pub open spec fn rule_code(r: DevRule) -> Seq<Insn> {
    let c = checks(r);
    Seq::new(
        c.len() + 2,
        |j: int|
            if j < c.len() {
                Insn {
                    code: c[j].code,
                    dst: c[j].dst,
                    src: 0,
                    off: (c.len() + 1 - j) as u16,
                    imm: c[j].imm,
                }
            } else if j == c.len() {
                Insn { code: MOV32, dst: 0, src: 0, off: 0, imm: answer(r.allow) }
            } else {
                Insn { code: EXIT, dst: 0, src: 0, off: 0, imm: 0 }
            },
    )
}

/// The instructions of all rules. Nothing follows a rule that covers everything; else what no
/// rule covers is refused.
pub open spec fn rules_code(rules: Seq<DevRule>) -> Seq<Insn>
    decreases rules.len(),
{
    if rules.len() == 0 {
        seq![
            Insn { code: MOV32, dst: 0, src: 0, off: 0, imm: 0 },
            Insn { code: EXIT, dst: 0, src: 0, off: 0, imm: 0 },
        ]
    } else if is_wildcard(rules[0]) {
        rule_code(rules[0])
    } else {
        rule_code(rules[0]) + rules_code(rules.skip(1))
    }
}

/// The instructions that take the context apart.
pub open spec fn prologue() -> Seq<Insn> {
    seq![
        Insn { code: LDX_W, dst: 3, src: 1, off: 0, imm: 0 },
        Insn { code: RSH32, dst: 3, src: 0, off: 0, imm: 16 },
        Insn { code: LDX_W, dst: 2, src: 1, off: 0, imm: 0 },
        Insn { code: AND32, dst: 2, src: 0, off: 0, imm: 0xffff },
        Insn { code: LDX_W, dst: 4, src: 1, off: 4, imm: 0 },
        Insn { code: LDX_W, dst: 5, src: 1, off: 8, imm: 0 },
    ]
}

/// The program for a list of rules.
pub open spec fn program(rules: Seq<DevRule>) -> Seq<Insn> {
    prologue() + rules_code(rules)
}

/// Whether the registers hold an access taken apart.
pub open spec fn holds(r: Regs, a: DevAccess) -> bool {
    r.r2 == a.kind && r.r3 == a.access && r.r4 == a.major && r.r5 == a.minor
}

/// A rule covers an access exactly when all its tests pass.
proof fn lemma_checks_cover(rule: DevRule, r: Regs, a: DevAccess)
    requires
        holds(r, a),
    ensures
        covers(rule, a) <==> forall|k: int|
            0 <= k < checks(rule).len() ==> passes(#[trigger] checks(rule)[k], r),
{
    let c = checks(rule);
    let k1 = kind_check(rule).len() as int;
    let k2 = k1 + access_check(rule).len();
    let k3 = k2 + number_check(rule.major, 4).len();
    if rule.kind != TYPE_ANY {
        assert(c[0] == (Check { code: JNE, dst: 2, imm: rule.kind }));
    }
    if rule.access != ACCESS_ALL {
        assert(c[k1] == (Check { code: JSET, dst: 3, imm: !rule.access }));
    }
    if rule.major is Some {
        assert(c[k2] == (Check { code: JNE, dst: 4, imm: rule.major->0 }));
    }
    if rule.minor is Some {
        assert(c[k3] == (Check { code: JNE, dst: 5, imm: rule.minor->0 }));
    }
    if covers(rule, a) {
        assert forall|k: int| 0 <= k < c.len() implies passes(#[trigger] c[k], r) by {
            assert(k < k1 || k1 <= k < k2 || k2 <= k < k3 || k3 <= k);
        }
    }
}

/// From its `j`th test on, a rule answers if the tests from there on pass, and else goes on
/// behind its end.
proof fn lemma_rule_from(
    prog: Seq<Insn>,
    base: int,
    rule: DevRule,
    j: int,
    r: Regs,
    access_type: u32,
    major: u32,
    minor: u32,
)
    requires
        rule_ok(rule),
        0 <= base,
        base + rule_code(rule).len() <= prog.len(),
        prog.subrange(base, base + rule_code(rule).len()) == rule_code(rule),
        0 <= j <= checks(rule).len(),
    ensures
        run(prog, base + j, r, access_type, major, minor) == (if forall|k: int|
            j <= k < checks(rule).len() ==> passes(#[trigger] checks(rule)[k], r) {
            Some(answer(rule.allow))
        } else {
            run(prog, base + rule_code(rule).len(), r, access_type, major, minor)
        }),
    decreases checks(rule).len() - j,
{
    let code = rule_code(rule);
    let c = checks(rule);
    assert(prog[base + j] == code[j]) by {
        assert(prog.subrange(base, base + code.len())[j] == code[j]);
    }
    if j == c.len() {
        assert(prog[base + j + 1] == code[j + 1]) by {
            assert(prog.subrange(base, base + code.len())[j + 1] == code[j + 1]);
        }
        let r1 = with_reg(r, 0, answer(rule.allow));
        assert(run(prog, base + j, r, access_type, major, minor) == run(
            prog,
            base + j + 1,
            r1,
            access_type,
            major,
            minor,
        ));
    } else {
        lemma_rule_from(prog, base, rule, j + 1, r, access_type, major, minor);
        assert(c.len() <= 4);
        assert(c[j].code == JNE || c[j].code == JSET);
        assert(c[j].code == JNE ==> c[j].imm <= i32::MAX);
        if passes(c[j], r) {
            assert(run(prog, base + j, r, access_type, major, minor) == run(
                prog,
                base + j + 1,
                r,
                access_type,
                major,
                minor,
            ));
            assert((forall|k: int| j <= k < c.len() ==> passes(#[trigger] c[k], r)) <==> (forall|
                k: int,
            |
                j + 1 <= k < c.len() ==> passes(#[trigger] c[k], r)));
        } else {
            assert(base + j + 1 + code[j].off == base + code.len());
            assert(run(prog, base + j, r, access_type, major, minor) == run(
                prog,
                base + code.len(),
                r,
                access_type,
                major,
                minor,
            ));
        }
    }
}

/// The instructions of the rules answer as the rules do.
proof fn lemma_rules_answer(
    prog: Seq<Insn>,
    base: int,
    rules: Seq<DevRule>,
    r: Regs,
    a: DevAccess,
    access_type: u32,
    major: u32,
    minor: u32,
)
    requires
        forall|i: int| 0 <= i < rules.len() ==> rule_ok(#[trigger] rules[i]),
        0 <= base <= prog.len(),
        prog.skip(base) == rules_code(rules),
        holds(r, a),
    ensures
        run(prog, base, r, access_type, major, minor) == Some(answer(allowed(rules, a))),
    decreases rules.len(),
{
    let tail = prog.skip(base);
    assert(tail.len() == prog.len() - base);
    if rules.len() == 0 {
        assert(prog[base] == tail[0]);
        assert(prog[base + 1] == tail[1]);
        let r1 = with_reg(r, 0, 0);
        assert(run(prog, base, r, access_type, major, minor) == run(
            prog,
            base + 1,
            r1,
            access_type,
            major,
            minor,
        ));
    } else {
        let rule = rules[0];
        let code = rule_code(rule);
        assert(rule_ok(rule));
        assert(prog.subrange(base, base + code.len()) =~= code) by {
            assert(tail.len() >= code.len());
            assert(tail.subrange(0, code.len() as int) =~= code);
            assert(prog.subrange(base, base + code.len()) =~= tail.subrange(0, code.len() as int));
        }
        lemma_rule_from(prog, base, rule, 0, r, access_type, major, minor);
        lemma_checks_cover(rule, r, a);
        if !covers(rule, a) {
            assert(!is_wildcard(rule));
            let rest = rules.skip(1);
            assert forall|i: int| 0 <= i < rest.len() implies rule_ok(#[trigger] rest[i]) by {
                assert(rule_ok(rules[i + 1]));
            }
            assert(prog.skip(base + code.len()) =~= rules_code(rest)) by {
                assert(prog.skip(base + code.len()) =~= tail.skip(code.len() as int));
            }
            lemma_rules_answer(
                prog,
                base + code.len(),
                rest,
                r,
                a,
                access_type,
                major,
                minor,
            );
        }
    }
}

/// What the kernel asks: the type in the low half of the first word, the access in the high half.
pub open spec fn asked(access_type: u32, major: u32, minor: u32) -> DevAccess {
    DevAccess { kind: access_type & 0xffff, access: access_type >> 16, major, minor }
}

/// The program answers every question of the kernel as the rules do: the first that covers the
/// access decides, and what no rule covers is refused.
pub proof fn law_program_decides(
    rules: Seq<DevRule>,
    r: Regs,
    access_type: u32,
    major: u32,
    minor: u32,
)
    requires
        forall|i: int| 0 <= i < rules.len() ==> rule_ok(#[trigger] rules[i]),
    ensures
        run(program(rules), 0, r, access_type, major, minor) == Some(
            answer(allowed(rules, asked(access_type, major, minor))),
        ),
{
    let prog = program(rules);
    let p = prologue();
    assert(prog[0] == p[0] && prog[1] == p[1] && prog[2] == p[2] && prog[3] == p[3] && prog[4]
        == p[4] && prog[5] == p[5]);
    let r1 = with_reg(r, 3, access_type);
    let r2 = with_reg(r1, 3, access_type >> 16);
    let r3 = with_reg(r2, 2, access_type);
    let r4 = with_reg(r3, 2, access_type & 0xffff);
    let r5 = with_reg(r4, 4, major);
    let r6 = with_reg(r5, 5, minor);
    assert(run(prog, 0, r, access_type, major, minor) == run(prog, 1, r1, access_type, major, minor));
    assert(run(prog, 1, r1, access_type, major, minor) == run(prog, 2, r2, access_type, major, minor));
    assert(run(prog, 2, r2, access_type, major, minor) == run(prog, 3, r3, access_type, major, minor));
    assert(run(prog, 3, r3, access_type, major, minor) == run(prog, 4, r4, access_type, major, minor));
    assert(run(prog, 4, r4, access_type, major, minor) == run(prog, 5, r5, access_type, major, minor));
    assert(run(prog, 5, r5, access_type, major, minor) == run(prog, 6, r6, access_type, major, minor));
    assert(prog.skip(6) =~= rules_code(rules));
    lemma_rules_answer(
        prog,
        6,
        rules,
        r6,
        asked(access_type, major, minor),
        access_type,
        major,
        minor,
    );
}

/// The eight bytes of an instruction.
pub open spec fn insn_bytes(i: Insn) -> Seq<u8> {
    seq![
        i.code,
        i.dst | (i.src << 4),
        (i.off & 0xff) as u8,
        (i.off >> 8) as u8,
        (i.imm & 0xff) as u8,
        ((i.imm >> 8) & 0xff) as u8,
        ((i.imm >> 16) & 0xff) as u8,
        (i.imm >> 24) as u8,
    ]
}

/// The bytes of a program.
pub open spec fn program_bytes(prog: Seq<Insn>) -> Seq<u8>
    decreases prog.len(),
{
    if prog.len() == 0 {
        Seq::empty()
    } else {
        program_bytes(prog.drop_last()) + insn_bytes(prog.last())
    }
}

/// Writes the bytes of a program.
fn encode(prog: &Vec<Insn>) -> (b: Vec<u8>)
    ensures
        b@ == program_bytes(prog@),
{
    let mut b: Vec<u8> = Vec::new();
    let mut i: usize = 0;
    while i < prog.len()
        invariant
            i <= prog.len(),
            b@ == program_bytes(prog@.subrange(0, i as int)),
        decreases prog.len() - i,
    {
        let p = prog[i];
        let ghost was = b@;
        b.push(p.code);
        b.push(p.dst | (p.src << 4));
        b.push((p.off & 0xff) as u8);
        b.push((p.off >> 8) as u8);
        b.push((p.imm & 0xff) as u8);
        b.push(((p.imm >> 8) & 0xff) as u8);
        b.push(((p.imm >> 16) & 0xff) as u8);
        b.push((p.imm >> 24) as u8);
        proof {
            assert(prog@.subrange(0, i + 1).drop_last() =~= prog@.subrange(0, i as int));
            assert(b@ =~= was + insn_bytes(p));
        }
        i = i + 1;
    }
    proof {
        assert(prog@.subrange(0, prog@.len() as int) =~= prog@);
    }
    b
}

/// Adds a test of a rule of which `left` instructions follow.
fn push_check(prog: &mut Vec<Insn>, code: u8, dst: u8, imm: u32, left: u16)
    ensures
        final(prog)@ == old(prog)@.push(Insn { code, dst, src: 0, off: left, imm }),
{
    prog.push(Insn { code, dst, src: 0, off: left, imm });
}

/// Adds the instructions of a rule.
fn push_rule(prog: &mut Vec<Insn>, r: DevRule)
    ensures
        final(prog)@ == old(prog)@ + rule_code(r),
{
    let ghost before = prog@;
    let ghost c = checks(r);
    let mut left: u16 = 1;
    if r.kind != TYPE_ANY {
        left = left + 1;
    }
    if r.access != ACCESS_ALL {
        left = left + 1;
    }
    if r.major.is_some() {
        left = left + 1;
    }
    if r.minor.is_some() {
        left = left + 1;
    }
    proof {
        assert(left == c.len() + 1);
    }
    if r.kind != TYPE_ANY {
        push_check(prog, JNE, 2, r.kind, left);
        left = left - 1;
    }
    if r.access != ACCESS_ALL {
        push_check(prog, JSET, 3, !r.access, left);
        left = left - 1;
    }
    if let Some(n) = r.major {
        push_check(prog, JNE, 4, n, left);
        left = left - 1;
    }
    if let Some(n) = r.minor {
        push_check(prog, JNE, 5, n, left);
    }
    let imm: u32 = if r.allow {
        1
    } else {
        0
    };
    prog.push(Insn { code: MOV32, dst: 0, src: 0, off: 0, imm });
    prog.push(Insn { code: EXIT, dst: 0, src: 0, off: 0, imm: 0 });
    proof {
        assert(prog@ =~= before + rule_code(r));
    }
}

/// The program for a list of rules.
fn emit(rules: &Vec<DevRule>) -> (prog: Vec<Insn>)
    ensures
        prog@ == program(rules@),
{
    let mut prog: Vec<Insn> = Vec::new();
    prog.push(Insn { code: LDX_W, dst: 3, src: 1, off: 0, imm: 0 });
    prog.push(Insn { code: RSH32, dst: 3, src: 0, off: 0, imm: 16 });
    prog.push(Insn { code: LDX_W, dst: 2, src: 1, off: 0, imm: 0 });
    prog.push(Insn { code: AND32, dst: 2, src: 0, off: 0, imm: 0xffff });
    prog.push(Insn { code: LDX_W, dst: 4, src: 1, off: 4, imm: 0 });
    prog.push(Insn { code: LDX_W, dst: 5, src: 1, off: 8, imm: 0 });
    let mut i: usize = 0;
    proof {
        assert(prog@ =~= prologue());
        assert(rules@.skip(0) =~= rules@);
    }
    while i < rules.len()
        invariant
            i <= rules.len(),
            prog@ + rules_code(rules@.skip(i as int)) == program(rules@),
        decreases rules.len() - i,
    {
        let r = rules[i];
        let ghost was = prog@;
        proof {
            assert(rules@.skip(i as int)[0] == r);
            assert(rules@.skip(i as int).skip(1) =~= rules@.skip(i + 1));
        }
        push_rule(&mut prog, r);
        if r.kind == TYPE_ANY && r.access == ACCESS_ALL && r.major.is_none() && r.minor.is_none() {
            return prog;
        }
        proof {
            assert(prog@ + rules_code(rules@.skip(i + 1)) =~= was + (rule_code(r) + rules_code(
                rules@.skip(i + 1),
            )));
        }
        i = i + 1;
    }
    let ghost was = prog@;
    prog.push(Insn { code: MOV32, dst: 0, src: 0, off: 0, imm: 0 });
    prog.push(Insn { code: EXIT, dst: 0, src: 0, off: 0, imm: 0 });
    proof {
        assert(prog@ =~= was + rules_code(rules@.skip(rules@.len() as int)));
    }
    prog
}

/// The type of device a rule covers, if it can be read.
pub open spec fn kind_code(v: Option<JsonView>) -> Option<u32> {
    match v {
        None => Some(TYPE_ANY),
        Some(JsonView::Str(t)) => if t == "a"@ {
            Some(TYPE_ANY)
        } else if t == "b"@ {
            Some(TYPE_BLOCK)
        } else if t == "c"@ || t == "u"@ {
            Some(TYPE_CHAR)
        } else {
            None
        },
        _ => None,
    }
}

/// The kind of access a letter stands for.
pub open spec fn letter_bit(c: char) -> Option<u32> {
    if c == 'm' {
        Some(ACCESS_MKNOD)
    } else if c == 'r' {
        Some(ACCESS_READ)
    } else if c == 'w' {
        Some(ACCESS_WRITE)
    } else {
        None
    }
}

/// The kinds of access that a run of letters stands for.
pub open spec fn access_bits(s: Seq<char>) -> Option<u32>
    decreases s.len(),
{
    if s.len() == 0 {
        Some(0)
    } else {
        match (access_bits(s.drop_last()), letter_bit(s.last())) {
            (Some(bits), Some(bit)) => Some(bits | bit),
            _ => None,
        }
    }
}

/// The kinds of access a rule covers, if they can be read. A rule that names none covers all.
pub open spec fn access_code(v: Option<JsonView>) -> Option<u32> {
    match v {
        None => Some(ACCESS_ALL),
        Some(JsonView::Str(t)) => if t.len() == 0 {
            Some(ACCESS_ALL)
        } else {
            access_bits(t)
        },
        _ => None,
    }
}

/// What a rule says of a device number.
#[derive(Debug, Clone, Copy, PartialEq, Eq, Structural)]
pub enum Number {
    /// It covers all.
    Any,
    /// It covers one.
    Is(u32),
    /// It covers one that no device has.
    NoDevice,
    /// It says no number.
    Unread,
}

/// What a rule says of a device number: -1 stands for all, as does none.
pub open spec fn number_of(v: Option<JsonView>) -> Number {
    match v {
        None => Number::Any,
        Some(JsonView::UInt(n)) => if n <= i32::MAX {
            Number::Is(n as u32)
        } else {
            Number::NoDevice
        },
        Some(JsonView::NegInt(n)) => if n == -1 {
            Number::Any
        } else {
            Number::NoDevice
        },
        _ => Number::Unread,
    }
}

/// The one number that is covered, unless all are.
pub open spec fn one_number(n: Number) -> Option<u32> {
    match n {
        Number::Is(n) => Some(n),
        _ => None,
    }
}

/// Whether a rule of a bundle can be read: each member that is there says what it should.
pub open spec fn readable(v: JsonView) -> bool {
    &&& kind_code(json::field(v, "type"@)) is Some
    &&& access_code(json::field(v, "access"@)) is Some
    &&& number_of(json::field(v, "major"@)) != Number::Unread
    &&& number_of(json::field(v, "minor"@)) != Number::Unread
}

/// The rule that covers everything and allows nothing.
pub open spec fn closed_rule() -> DevRule {
    DevRule { allow: false, kind: TYPE_ANY, access: ACCESS_ALL, major: None, minor: None }
}

/// What a rule of a bundle comes to, if it covers anything. One that cannot be read opens nothing: if
/// it allows, it is left out; if it denies, it covers everything.
pub open spec fn rule_of(v: JsonView) -> Option<DevRule> {
    let allow = json::bool_or(json::field(v, "allow"@), false);
    let major = number_of(json::field(v, "major"@));
    let minor = number_of(json::field(v, "minor"@));
    if !readable(v) {
        if allow {
            None
        } else {
            Some(closed_rule())
        }
    } else if major == Number::NoDevice || minor == Number::NoDevice {
        None
    } else {
        Some(
            DevRule {
                allow,
                kind: kind_code(json::field(v, "type"@))->0,
                access: access_code(json::field(v, "access"@))->0,
                major: one_number(major),
                minor: one_number(minor),
            },
        )
    }
}

/// What becomes of an element of the list of rules.
pub open spec fn listed_rule() -> spec_fn(JsonView) -> Option<DevRule> {
    |x: JsonView| rule_of(x)
}

/// The rules of a bundle.
pub open spec fn listed_rules(a: Seq<JsonView>) -> Seq<DevRule> {
    spec::kept(a, listed_rule())
}

/// A rule that allows every access to one device.
pub open spec fn open_rule(kind: u32, major: u32, minor: u32) -> DevRule {
    DevRule { allow: true, kind, access: ACCESS_ALL, major: Some(major), minor: Some(minor) }
}

/// The rule for a device that the container is to have: it may use it.
pub open spec fn implied_rule(v: JsonView) -> Option<DevRule> {
    let t = json::text_at(json::field(v, "type"@));
    match (json::u64_at(json::field(v, "major"@)), json::u64_at(json::field(v, "minor"@))) {
        (Some(major), Some(minor)) => if major > i32::MAX || minor > i32::MAX {
            None
        } else if t == Some("b"@) {
            Some(open_rule(TYPE_BLOCK, major as u32, minor as u32))
        } else if t == Some("c"@) || t == Some("u"@) {
            Some(open_rule(TYPE_CHAR, major as u32, minor as u32))
        } else {
            None
        },
        _ => None,
    }
}

/// What becomes of an element of the list of devices.
pub open spec fn implied_rule_rule() -> spec_fn(JsonView) -> Option<DevRule> {
    |x: JsonView| implied_rule(x)
}

/// The rules for the devices every container has.
pub open spec fn standard_rules() -> Seq<DevRule> {
    seq![
        open_rule(TYPE_CHAR, 1, 3),
        open_rule(TYPE_CHAR, 1, 5),
        open_rule(TYPE_CHAR, 1, 7),
        open_rule(TYPE_CHAR, 1, 8),
        open_rule(TYPE_CHAR, 1, 9),
        open_rule(TYPE_CHAR, 5, 0),
    ]
}

/// All rules: for the devices every container has, for those of the bundle, and the listed ones.
pub open spec fn all_rules(listed: Seq<JsonView>, devices: Seq<JsonView>) -> Seq<DevRule> {
    standard_rules() + spec::kept(devices, implied_rule_rule()) + listed_rules(listed)
}

/// Whether the program can compare with the numbers of every rule.
pub open spec fn rules_ok(rules: Seq<DevRule>) -> bool {
    forall|i: int| 0 <= i < rules.len() ==> rule_ok(#[trigger] rules[i])
}

/// The listed rules can be compared with.
proof fn lemma_listed_ok(a: Seq<JsonView>)
    ensures
        rules_ok(listed_rules(a)),
    decreases a.len(),
{
    if a.len() > 0 {
        lemma_listed_ok(a.drop_last());
    }
}

/// So can those of the devices.
proof fn lemma_implied_ok(a: Seq<JsonView>)
    ensures
        rules_ok(spec::kept(a, implied_rule_rule())),
    decreases a.len(),
{
    if a.len() > 0 {
        lemma_implied_ok(a.drop_last());
    }
}

/// The rules of a bundle can all be compiled.
pub proof fn lemma_all_rules_ok(listed: Seq<JsonView>, devices: Seq<JsonView>)
    ensures
        rules_ok(all_rules(listed, devices)),
{
    lemma_listed_ok(listed);
    lemma_implied_ok(devices);
}

/// The program of a bundle answers every question of the kernel as the bundle's rules do.
pub proof fn law_bundle_devices_decide(
    listed: Seq<JsonView>,
    devices: Seq<JsonView>,
    r: Regs,
    access_type: u32,
    major: u32,
    minor: u32,
)
    ensures
        run(program(all_rules(listed, devices)), 0, r, access_type, major, minor) == Some(
            answer(
                allowed(all_rules(listed, devices), asked(access_type, major, minor)),
            ),
        ),
{
    lemma_all_rules_ok(listed, devices);
    law_program_decides(all_rules(listed, devices), r, access_type, major, minor);
}

/// The devices every container has can be used whatever the bundle's rules say.
pub proof fn law_standard_devices_allowed(
    listed: Seq<JsonView>,
    devices: Seq<JsonView>,
    k: int,
    access: u32,
)
    requires
        0 <= k < standard_rules().len(),
    ensures
        allowed(
            all_rules(listed, devices),
            DevAccess {
                kind: TYPE_CHAR,
                access,
                major: standard_rules()[k].major->0,
                minor: standard_rules()[k].minor->0,
            },
        ),
{
    let rules = all_rules(listed, devices);
    let a = DevAccess {
        kind: TYPE_CHAR,
        access,
        major: standard_rules()[k].major->0,
        minor: standard_rules()[k].minor->0,
    };
    assert(rules[k] == standard_rules()[k]);
    assert forall|i: int| 0 <= i < k implies (#[trigger] rules[i]).allow by {
        assert(rules[i] == standard_rules()[i]);
    }
    lemma_allowed_by(rules, a, k);
}

/// A rule that cannot be read opens nothing: between any rules `x` and `y` it lets no access through
/// that they do not let through without it.
pub proof fn law_unread_rule_opens_nothing(
    x: Seq<DevRule>,
    v: JsonView,
    y: Seq<DevRule>,
    a: DevAccess,
)
    requires
        !readable(v),
        allowed(x + listed_rules(seq![v]) + y, a),
    ensures
        allowed(x + y, a),
    decreases x.len(),
{
    let own = listed_rules(seq![v]);
    assert(seq![v].drop_last() =~= Seq::<JsonView>::empty());
    assert(spec::kept(Seq::<JsonView>::empty(), listed_rule()) =~= Seq::<DevRule>::empty());
    assert(seq![v].last() == v);
    if own.len() == 0 {
        assert(x + own + y =~= x + y);
    } else {
        assert(own =~= seq![closed_rule()]);
        if x.len() > 0 {
            assert((x + own + y)[0] == x[0] && (x + y)[0] == x[0]);
            assert((x + own + y).skip(1) =~= x.skip(1) + own + y);
            assert((x + y).skip(1) =~= x.skip(1) + y);
            if !covers(x[0], a) {
                law_unread_rule_opens_nothing(x.skip(1), v, y, a);
            }
        } else {
            assert((x + own + y)[0] == closed_rule());
        }
    }
}

/// A rule that covers and allows, behind rules that all allow, lets an access through.
proof fn lemma_allowed_by(rules: Seq<DevRule>, a: DevAccess, k: int)
    requires
        0 <= k < rules.len(),
        covers(rules[k], a),
        rules[k].allow,
        forall|i: int| 0 <= i < k ==> (#[trigger] rules[i]).allow,
    ensures
        allowed(rules, a),
    decreases k,
{
    if k > 0 && !covers(rules[0], a) {
        let rest = rules.skip(1);
        assert forall|i: int| 0 <= i < k - 1 implies (#[trigger] rest[i]).allow by {
            assert(rules[i + 1].allow);
        }
        lemma_allowed_by(rest, a, k - 1);
    } else if k > 0 {
        assert(rules[0].allow);
    }
}

/// The type of device a rule covers.
fn parse_kind(v: Option<&Json>) -> (r: Option<u32>)
    ensures
        r == kind_code(json::opt_view(v)),
{
    if v.is_none() {
        return Some(TYPE_ANY);
    }
    match get_text(v) {
        Some(t) => if str_eq(t, "a") {
            Some(TYPE_ANY)
        } else if str_eq(t, "b") {
            Some(TYPE_BLOCK)
        } else if str_eq(t, "c") || str_eq(t, "u") {
            Some(TYPE_CHAR)
        } else {
            None
        },
        None => None,
    }
}

/// A letter that is none spoils the run, whatever follows it.
proof fn lemma_bad_letter(s: Seq<char>, k: int)
    requires
        0 <= k <= s.len(),
        access_bits(s.subrange(0, k)) is None,
    ensures
        access_bits(s) is None,
    decreases s.len() - k,
{
    if k < s.len() {
        assert(s.subrange(0, k + 1).drop_last() =~= s.subrange(0, k));
        lemma_bad_letter(s, k + 1);
    } else {
        assert(s.subrange(0, k) =~= s);
    }
}

/// The kinds of access that a run of letters stands for.
fn parse_letters(s: &str) -> (r: Option<u32>)
    ensures
        r == access_bits(s@),
{
    let v = chars_of(s);
    let mut bits: u32 = 0;
    let mut i: usize = 0;
    while i < v.len()
        invariant
            i <= v.len(),
            v@ == s@,
            access_bits(s@.subrange(0, i as int)) == Some(bits),
        decreases v.len() - i,
    {
        let c = v[i];
        proof {
            assert(s@.subrange(0, i + 1).drop_last() =~= s@.subrange(0, i as int));
        }
        let bit: u32 = if c == 'm' {
            ACCESS_MKNOD
        } else if c == 'r' {
            ACCESS_READ
        } else if c == 'w' {
            ACCESS_WRITE
        } else {
            proof {
                lemma_bad_letter(s@, i + 1);
            }
            return None;
        };
        bits = bits | bit;
        i = i + 1;
    }
    proof {
        assert(s@.subrange(0, v@.len() as int) =~= s@);
    }
    Some(bits)
}

/// The kinds of access a rule covers.
fn parse_access(v: Option<&Json>) -> (r: Option<u32>)
    ensures
        r == access_code(json::opt_view(v)),
{
    if v.is_none() {
        return Some(ACCESS_ALL);
    }
    match get_text(v) {
        Some(t) => if t.is_empty() {
            Some(ACCESS_ALL)
        } else {
            parse_letters(t)
        },
        None => None,
    }
}

/// Reads a device number.
fn parse_number(v: Option<&Json>) -> (r: Number)
    ensures
        r == number_of(json::opt_view(v)),
{
    match v {
        None => Number::Any,
        Some(Json::UInt(n)) => if *n <= 0x7fff_ffff {
            Number::Is(*n as u32)
        } else {
            Number::NoDevice
        },
        Some(Json::NegInt(n)) => if *n == -1 {
            Number::Any
        } else {
            Number::NoDevice
        },
        Some(_) => Number::Unread,
    }
}

/// The one number that is covered.
fn number_covered(n: Number) -> (r: Option<u32>)
    ensures
        r == one_number(n),
{
    match n {
        Number::Is(n) => Some(n),
        _ => None,
    }
}

/// Reads a rule of a bundle.
fn parse_rule(v: &Json) -> (r: Option<DevRule>)
    ensures
        r == rule_of(v@),
{
    let allow = get_bool_or(v.get("allow"), false);
    let major = parse_number(v.get("major"));
    let minor = parse_number(v.get("minor"));
    match (parse_kind(v.get("type")), parse_access(v.get("access"))) {
        (Some(kind), Some(access)) => if major != Number::Unread && minor != Number::Unread {
            if major == Number::NoDevice || minor == Number::NoDevice {
                return None;
            }
            return Some(
                DevRule {
                    allow,
                    kind,
                    access,
                    major: number_covered(major),
                    minor: number_covered(minor),
                },
            );
        },
        _ => {},
    }
    if allow {
        None
    } else {
        Some(
            DevRule { allow: false, kind: TYPE_ANY, access: ACCESS_ALL, major: None, minor: None },
        )
    }
}

/// Reads the rules of a bundle.
fn parse_rules(a: &Vec<Json>) -> (v: Vec<DevRule>)
    ensures
        v@ == listed_rules(json::views(a@)),
{
    let ghost all = json::views(a@);
    let mut v: Vec<DevRule> = Vec::new();
    let mut i: usize = 0;
    proof {
        assert(all.subrange(0, 0) =~= Seq::<JsonView>::empty());
    }
    while i < a.len()
        invariant
            i <= a.len(),
            all == json::views(a@),
            v@ == listed_rules(all.subrange(0, i as int)),
        decreases a.len() - i,
    {
        proof {
            assert(all.subrange(0, i + 1).drop_last() =~= all.subrange(0, i as int));
            assert(all.subrange(0, i + 1).last() == a@[i as int]@);
        }
        if let Some(r) = parse_rule(&a[i]) {
            v.push(r);
        }
        i = i + 1;
    }
    proof {
        assert(all.subrange(0, all.len() as int) =~= all);
    }
    v
}

/// The rule for a device that the container is to have.
fn imply_rule(v: &Json) -> (r: Option<DevRule>)
    ensures
        r == implied_rule(v@),
{
    let t = get_text(v.get("type"));
    match (get_u64(v.get("major")), get_u64(v.get("minor"))) {
        (Some(major), Some(minor)) => {
            if major > 0x7fff_ffff || minor > 0x7fff_ffff {
                return None;
            }
            let kind: u32 = match t {
                Some(t) => if str_eq(t, "b") {
                    TYPE_BLOCK
                } else if str_eq(t, "c") || str_eq(t, "u") {
                    TYPE_CHAR
                } else {
                    return None;
                },
                None => return None,
            };
            Some(
                DevRule {
                    allow: true,
                    kind,
                    access: ACCESS_ALL,
                    major: Some(major as u32),
                    minor: Some(minor as u32),
                },
            )
        },
        _ => None,
    }
}

/// A rule that opens a character device.
fn open_char(major: u32, minor: u32) -> (r: DevRule)
    ensures
        r == open_rule(TYPE_CHAR, major, minor),
{
    DevRule {
        allow: true,
        kind: TYPE_CHAR,
        access: ACCESS_ALL,
        major: Some(major),
        minor: Some(minor),
    }
}

/// Compiles the device rules of `resources` for a container that is to have `devices`. Where no
/// rule is listed there is no program. Every list can be compiled.
pub fn compile(resources: Option<&Json>, devices: Option<&Json>) -> (r: Result<Vec<u8>, Error>)
    ensures
        ({
            let listed = spec::elements(json::at(json::opt_view(resources), "devices"@));
            let rules = all_rules(listed, spec::elements(json::opt_view(devices)));
            match r {
                Ok(b) => if listed.len() == 0 {
                    b@.len() == 0
                } else {
                    b@ == program_bytes(program(rules))
                },
                Err(_) => false,
            }
        }),
{
    let a = match get_items(get_at(resources, "devices")) {
        Some(a) => a,
        None => return Ok(Vec::new()),
    };
    if a.len() == 0 {
        return Ok(Vec::new());
    }
    let mut listed = parse_rules(a);
    let mut rules: Vec<DevRule> = Vec::new();
    rules.push(open_char(1, 3));
    rules.push(open_char(1, 5));
    rules.push(open_char(1, 7));
    rules.push(open_char(1, 8));
    rules.push(open_char(1, 9));
    rules.push(open_char(5, 0));
    proof {
        assert(rules@ =~= standard_rules());
    }
    let ghost own = spec::elements(json::opt_view(devices));
    if let Some(d) = get_items(devices) {
        let mut i: usize = 0;
        proof {
            assert(own.subrange(0, 0) =~= Seq::<JsonView>::empty());
            assert(rules@ =~= standard_rules() + spec::kept(
                own.subrange(0, 0),
                implied_rule_rule(),
            ));
        }
        while i < d.len()
            invariant
                i <= d.len(),
                own == json::views(d@),
                rules@ == standard_rules() + spec::kept(
                    own.subrange(0, i as int),
                    implied_rule_rule(),
                ),
            decreases d.len() - i,
        {
            proof {
                assert(own.subrange(0, i + 1).drop_last() =~= own.subrange(0, i as int));
                assert(own.subrange(0, i + 1).last() == d@[i as int]@);
            }
            let ghost was = rules@;
            if let Some(r) = imply_rule(&d[i]) {
                rules.push(r);
                proof {
                    assert(rules@ =~= standard_rules() + spec::kept(
                        own.subrange(0, i + 1),
                        implied_rule_rule(),
                    ));
                }
            }
            i = i + 1;
        }
        proof {
            assert(own.subrange(0, own.len() as int) =~= own);
        }
    } else {
        proof {
            assert(rules@ =~= standard_rules() + spec::kept(own, implied_rule_rule()));
        }
    }
    rules.append(&mut listed);
    let prog = emit(&rules);
    Ok(encode(&prog))
}

/// What a rule of a bundle says, member by member: whether it allows, which is only where it says so;
/// the kind of device, where none is any; what may be done, where none is all; and its numbers,
/// where none and -1 are any.
pub proof fn law_device_rule_read(v: JsonView)
    requires
        readable(v),
        rule_of(v) is Some,
    ensures
        ({
            let r = rule_of(v)->Some_0;
            let kind = json::field(v, "type"@);
            let access = json::field(v, "access"@);
            let major = json::field(v, "major"@);
            let minor = json::field(v, "minor"@);
            &&& r.allow <==> json::field(v, "allow"@) == Some(JsonView::Bool(true))
            &&& kind is None || kind == Some(JsonView::Str("a"@)) ==> r.kind == 0
            &&& kind == Some(JsonView::Str("b"@)) ==> r.kind == 1
            &&& kind == Some(JsonView::Str("c"@)) || kind == Some(JsonView::Str("u"@)) ==> r.kind
                == 2
            &&& access is None ==> r.access == 7
            &&& access matches Some(JsonView::Str(t)) ==> (t.len() == 0 ==> r.access == 7) && (
            t.len() > 0 ==> access_bits(t) == Some(r.access))
            &&& major is None ==> r.major is None
            &&& major matches Some(JsonView::UInt(n)) ==> n <= i32::MAX && r.major == Some(n as u32)
            &&& major matches Some(JsonView::NegInt(n)) ==> n == -1 && r.major is None
            &&& minor is None ==> r.minor is None
            &&& minor matches Some(JsonView::UInt(n)) ==> n <= i32::MAX && r.minor == Some(n as u32)
            &&& minor matches Some(JsonView::NegInt(n)) ==> n == -1 && r.minor is None
        }),
{
    reveal_strlit("a");
    reveal_strlit("b");
    reveal_strlit("c");
    reveal_strlit("u");
    assert("a"@[0] == 'a' && "b"@[0] == 'b' && "c"@[0] == 'c' && "u"@[0] == 'u');
}

/// A rule that cannot be read closes everything where it denies, and is left out where it allows; one
/// whose numbers no device has is left out.
pub proof fn law_device_rule_passed_over(v: JsonView)
    ensures
        !readable(v) && json::field(v, "allow"@) == Some(JsonView::Bool(true)) ==> rule_of(v) is None,
        !readable(v) && json::field(v, "allow"@) != Some(JsonView::Bool(true)) ==> (rule_of(v)
            matches Some(r) && !r.allow && forall|a: DevAccess| #[trigger] covers(r, a)),
        readable(v) && (json::field(v, "major"@) matches Some(JsonView::UInt(n)) && n > i32::MAX)
            ==> rule_of(v) is None,
        readable(v) && (json::field(v, "minor"@) matches Some(JsonView::UInt(n)) && n > i32::MAX)
            ==> rule_of(v) is None,
{
}

/// What the letters of an access stand for: each of them its own bit, whatever their order, and no
/// other letter stands for anything.
pub proof fn law_access_letters(s: Seq<char>)
    ensures
        access_bits(s) is Some <==> forall|i: int|
            0 <= i < s.len() ==> (#[trigger] s[i] == 'm' || s[i] == 'r' || s[i] == 'w'),
        access_bits(s) matches Some(b) ==> {
            &&& b & 1 != 0 <==> s.contains('m')
            &&& b & 2 != 0 <==> s.contains('r')
            &&& b & 4 != 0 <==> s.contains('w')
            &&& b <= 7
        },
    decreases s.len(),
{
    if s.len() == 0 {
        assert(0u32 & 1 == 0 && 0u32 & 2 == 0 && 0u32 & 4 == 0) by (bit_vector);
    } else {
        let h = s.drop_last();
        let c = s.last();
        law_access_letters(h);
        assert(s[s.len() - 1] == c);
        assert forall|i: int| 0 <= i < h.len() implies h[i] == s[i] by {}
        assert(s =~= h.push(c));
        assert(forall|x: char| s.contains(x) <==> h.contains(x) || x == c) by {
            assert forall|x: char| s.contains(x) <==> h.contains(x) || x == c by {
                if s.contains(x) {
                    let i = choose|i: int| 0 <= i < s.len() && s[i] == x;
                    if i < h.len() {
                        assert(h[i] == x);
                    }
                }
                if h.contains(x) {
                    let i = choose|i: int| 0 <= i < h.len() && h[i] == x;
                    assert(s[i] == x);
                }
            }
        }
        if access_bits(h) is Some && letter_bit(c) is Some {
            let a = access_bits(h)->Some_0;
            let b = letter_bit(c)->Some_0;
            let all = a | b;
            assert((all & 1 != 0 <==> a & 1 != 0 || b & 1 != 0) && (all & 2 != 0 <==> a & 2 != 0 || b
                & 2 != 0) && (all & 4 != 0 <==> a & 4 != 0 || b & 4 != 0) && (a <= 7 && b <= 7
                ==> all <= 7)) by (bit_vector)
                requires
                    all == a | b,
            ;
            assert(1u32 & 1 != 0 && 1u32 & 2 == 0 && 1u32 & 4 == 0 && 2u32 & 1 == 0 && 2u32 & 2 != 0
                && 2u32 & 4 == 0 && 4u32 & 1 == 0 && 4u32 & 2 == 0 && 4u32 & 4 != 0) by (bit_vector);
        }
        if access_bits(s) is None {
            if access_bits(h) is None {
                let i = choose|i: int|
                    0 <= i < h.len() && !(#[trigger] h[i] == 'm' || h[i] == 'r' || h[i] == 'w');
                assert(!(s[i] == 'm' || s[i] == 'r' || s[i] == 'w'));
            }
        }
    }
}

/// The first rule that is for an access decides it; what no rule is for is denied.
pub proof fn law_first_device_rule_decides(rules: Seq<DevRule>, a: DevAccess, k: int)
    requires
        0 <= k <= rules.len(),
        forall|i: int| 0 <= i < k ==> !covers(#[trigger] rules[i], a),
    ensures
        k == rules.len() ==> !allowed(rules, a),
        k < rules.len() && covers(rules[k], a) ==> allowed(rules, a) == rules[k].allow,
    decreases k,
{
    if k > 0 {
        let t = rules.skip(1);
        assert(!covers(rules[0], a));
        assert forall|i: int| 0 <= i < k - 1 implies !covers(#[trigger] t[i], a) by {
            assert(t[i] == rules[i + 1]);
        }
        law_first_device_rule_decides(t, a, k - 1);
        if k < rules.len() {
            assert(t[k - 1] == rules[k]);
        }
    }
}

/// What a rule is for: its kind of device or any, its numbers or any, and an access of which it has
/// every part.
pub proof fn law_what_a_rule_covers(r: DevRule, a: DevAccess)
    ensures
        covers(r, a) ==> (r.kind == 0 || r.kind == a.kind) && (r.major matches Some(n) ==> n
            == a.major) && (r.minor matches Some(n) ==> n == a.minor),
        (r.kind == 0 || r.kind == a.kind) && (r.access == 7 || a.access & !r.access == 0) && (
        r.major is None || r.major == Some(a.major)) && (r.minor is None || r.minor == Some(a.minor))
            ==> covers(r, a),
        covers(r, a) && r.access != 7 ==> a.access & !r.access == 0,
{
}

/// A device that the bundle makes may be used, whatever the rules of the bundle say, and so may the
/// standard ones; everything else is up to the rules of the bundle.
pub proof fn law_made_devices_allowed(
    listed: Seq<JsonView>,
    devices: Seq<JsonView>,
    i: int,
    a: DevAccess,
)
    ensures
        0 <= i < devices.len() && (implied_rule(devices[i]) matches Some(r) && covers(r, a))
            ==> allowed(all_rules(listed, devices), a),
        (forall|k: int| 0 <= k < devices.len() ==> !(implied_rule(#[trigger] devices[k]) matches Some(
            r,
        ) && covers(r, a))) && (forall|k: int|
            0 <= k < standard_rules().len() ==> !covers(#[trigger] standard_rules()[k], a))
            ==> allowed(all_rules(listed, devices), a) == allowed(listed_rules(listed), a),
{
    let s = standard_rules();
    let d = spec::kept(devices, implied_rule_rule());
    let l = listed_rules(listed);
    lemma_allowed_sum(s + d, l, a);
    lemma_allowed_sum(s, d, a);
    lemma_implied(devices, a);
    assert(forall|k: int| 0 <= k < s.len() ==> (#[trigger] s[k]).allow);
    lemma_all_allow(s, a);
    lemma_all_allow(d, a);
}

/// Rules behind rules: the first ones decide what they are for.
proof fn lemma_allowed_sum(x: Seq<DevRule>, y: Seq<DevRule>, a: DevAccess)
    ensures
        (exists|i: int| 0 <= i < x.len() && covers(#[trigger] x[i], a)) ==> allowed(x + y, a)
            == allowed(x, a),
        !(exists|i: int| 0 <= i < x.len() && covers(#[trigger] x[i], a)) ==> allowed(x + y, a)
            == allowed(y, a),
        (exists|i: int| 0 <= i < (x + y).len() && covers(#[trigger] (x + y)[i], a)) <==> (exists|
            i: int,
        |
            0 <= i < x.len() && covers(#[trigger] x[i], a)) || (exists|i: int|
            0 <= i < y.len() && covers(#[trigger] y[i], a)),
    decreases x.len(),
{
    let s = x + y;
    if x.len() == 0 {
        assert(s =~= y);
    } else {
        let t = x.skip(1);
        assert(s[0] == x[0]);
        assert(s.skip(1) =~= t + y);
        lemma_allowed_sum(t, y, a);
        if !covers(x[0], a) {
            if exists|i: int| 0 <= i < x.len() && covers(#[trigger] x[i], a) {
                let i = choose|i: int| 0 <= i < x.len() && covers(#[trigger] x[i], a);
                assert(covers(t[i - 1], a));
            }
            if exists|i: int| 0 <= i < t.len() && covers(#[trigger] t[i], a) {
                let i = choose|i: int| 0 <= i < t.len() && covers(#[trigger] t[i], a);
                assert(covers(x[i + 1], a));
            }
        } else {
            assert(covers(x[0], a));
        }
    }
    if exists|i: int| 0 <= i < s.len() && covers(#[trigger] s[i], a) {
        let i = choose|i: int| 0 <= i < s.len() && covers(#[trigger] s[i], a);
        if i < x.len() {
            assert(covers(x[i], a));
        } else {
            assert(covers(y[i - x.len()], a));
        }
    }
    if exists|i: int| 0 <= i < x.len() && covers(#[trigger] x[i], a) {
        let i = choose|i: int| 0 <= i < x.len() && covers(#[trigger] x[i], a);
        assert(covers(s[i], a));
    }
    if exists|i: int| 0 <= i < y.len() && covers(#[trigger] y[i], a) {
        let i = choose|i: int| 0 <= i < y.len() && covers(#[trigger] y[i], a);
        assert(covers(s[x.len() + i], a));
    }
}

/// Rules that all allow.
proof fn lemma_all_allow(x: Seq<DevRule>, a: DevAccess)
    requires
        forall|k: int| 0 <= k < x.len() ==> (#[trigger] x[k]).allow,
    ensures
        (exists|i: int| 0 <= i < x.len() && covers(#[trigger] x[i], a)) ==> allowed(x, a),
    decreases x.len(),
{
    if x.len() > 0 {
        let t = x.skip(1);
        assert forall|k: int| 0 <= k < t.len() implies (#[trigger] t[k]).allow by {
            assert(x[k + 1].allow);
        }
        lemma_all_allow(t, a);
        assert(x[0].allow);
        if !covers(x[0], a) && exists|i: int| 0 <= i < x.len() && covers(#[trigger] x[i], a) {
            let i = choose|i: int| 0 <= i < x.len() && covers(#[trigger] x[i], a);
            assert(covers(t[i - 1], a));
        }
    }
}

/// The rules for the devices that a bundle makes: one for each, and all of them allow.
proof fn lemma_implied(devices: Seq<JsonView>, a: DevAccess)
    ensures
        ({
            let d = spec::kept(devices, implied_rule_rule());
            &&& forall|k: int| 0 <= k < d.len() ==> (#[trigger] d[k]).allow
            &&& (exists|k: int| 0 <= k < d.len() && covers(#[trigger] d[k], a)) <==> exists|k: int|
                0 <= k < devices.len() && (implied_rule(#[trigger] devices[k]) matches Some(r)
                    && covers(r, a))
        }),
    decreases devices.len(),
{
    let d = spec::kept(devices, implied_rule_rule());
    if devices.len() > 0 {
        let h = devices.drop_last();
        let before = spec::kept(h, implied_rule_rule());
        lemma_implied(h, a);
        let last = implied_rule(devices.last());
        assert(implied_rule_rule()(devices.last()) == last);
        if exists|k: int| 0 <= k < d.len() && covers(#[trigger] d[k], a) {
            let k = choose|k: int| 0 <= k < d.len() && covers(#[trigger] d[k], a);
            if k < before.len() {
                assert(covers(before[k], a));
                let j = choose|j: int|
                    0 <= j < h.len() && (implied_rule(#[trigger] h[j]) matches Some(r) && covers(
                        r,
                        a,
                    ));
                assert(devices[j] == h[j]);
            } else {
                assert(devices[devices.len() - 1] == devices.last());
            }
        }
        if exists|k: int|
            0 <= k < devices.len() && (implied_rule(#[trigger] devices[k]) matches Some(r) && covers(
                r,
                a,
            )) {
            let k = choose|k: int|
                0 <= k < devices.len() && (implied_rule(#[trigger] devices[k]) matches Some(r)
                    && covers(r, a));
            if k < h.len() {
                assert(h[k] == devices[k]);
                let j = choose|j: int| 0 <= j < before.len() && covers(#[trigger] before[j], a);
                assert(covers(d[j], a));
            } else {
                assert(covers(d[d.len() - 1], a));
            }
        }
    }
}

/// Which devices that a bundle makes are allowed: those of a kind and numbers that a device can have,
/// for everything.
pub proof fn law_implied_rule_read(v: JsonView)
    ensures
        implied_rule(v) matches Some(r) ==> {
            &&& r.allow && r.access == 7
            &&& json::field(v, "major"@) matches Some(JsonView::UInt(n)) && n <= i32::MAX && r.major
                == Some(n as u32)
            &&& json::field(v, "minor"@) matches Some(JsonView::UInt(n)) && n <= i32::MAX && r.minor
                == Some(n as u32)
            &&& r.kind == 1 <==> json::field(v, "type"@) == Some(JsonView::Str("b"@))
            &&& r.kind == 2 <==> json::field(v, "type"@) == Some(JsonView::Str("c"@))
                || json::field(v, "type"@) == Some(JsonView::Str("u"@))
        },
        implied_rule(v) is Some <==> (json::field(v, "major"@) matches Some(JsonView::UInt(n)) && n
            <= i32::MAX) && (json::field(v, "minor"@) matches Some(JsonView::UInt(n)) && n
            <= i32::MAX) && (json::field(v, "type"@) == Some(JsonView::Str("b"@)) || json::field(
            v,
            "type"@,
        ) == Some(JsonView::Str("c"@)) || json::field(v, "type"@) == Some(JsonView::Str("u"@))),
{
    reveal_strlit("b");
    reveal_strlit("c");
    reveal_strlit("u");
    assert("b"@[0] == 'b' && "c"@[0] == 'c' && "u"@[0] == 'u');
}

/// An instruction as the kernel reads it: a byte for what to do, one for the two registers, two for
/// the offset and four for the value, the low byte first.
pub proof fn law_insn_read_back(i: Insn)
    requires
        i.dst < 16,
        i.src < 16,
    ensures
        ({
            let b = insn_bytes(i);
            &&& b.len() == 8
            &&& b[0] == i.code
            &&& b[1] == i.dst + 16 * i.src
            &&& b[2] + 256 * b[3] == i.off
            &&& b[4] + 256 * b[5] + 65536 * b[6] + 16777216 * b[7] == i.imm
        }),
{
    let dst = i.dst;
    let src = i.src;
    let off = i.off;
    let imm = i.imm;
    assert((dst | (src << 4)) == dst + 16 * src) by (bit_vector)
        requires
            dst < 16,
            src < 16,
    ;
    assert((off & 0xff) as u8 + 256 * ((off >> 8) as u8) == off) by (bit_vector);
    assert((imm & 0xff) as u8 + 256 * (((imm >> 8) & 0xff) as u8) + 65536 * (((imm >> 16)
        & 0xff) as u8) + 16777216 * ((imm >> 24) as u8) == imm) by (bit_vector);
}

/// A program is written one instruction after the other.
pub proof fn law_program_written(prog: Seq<Insn>, k: int)
    requires
        0 <= k < prog.len(),
    ensures
        program_bytes(prog).len() == 8 * prog.len(),
        program_bytes(prog).subrange(8 * k, 8 * k + 8) == insn_bytes(prog[k]),
    decreases prog.len(),
{
    let h = prog.drop_last();
    let all = program_bytes(prog);
    lemma_program_len(h);
    if k < h.len() {
        law_program_written(h, k);
        assert(h[k] == prog[k]);
        assert(all.subrange(8 * k, 8 * k + 8) =~= program_bytes(h).subrange(8 * k, 8 * k + 8));
    } else {
        assert(all.subrange(8 * k, 8 * k + 8) =~= insn_bytes(prog.last()));
    }
}

proof fn lemma_program_len(prog: Seq<Insn>)
    ensures
        program_bytes(prog).len() == 8 * prog.len(),
    decreases prog.len(),
{
    if prog.len() > 0 {
        lemma_program_len(prog.drop_last());
    }
}

} // verus!
