//! Resource limits compiled to the files of a cgroup-v2 directory.

use vstd::prelude::*;
use vstd::string::*;
use vstd::utf8::*;

use crate::json;
use crate::json::{get_at, get_i64, get_items, get_text, get_u64, Json, JsonView};
use crate::order;
use crate::order::less;
use crate::plan;
use crate::spec;
use crate::text;
use crate::text::{cat2, dec_i64, dec_u64, owned, str_eq};

verus! {

/// A limit that is not positive is no limit.
pub open spec fn limit_text(v: i64) -> Seq<char> {
    if v <= 0 {
        "max"@
    } else {
        text::dec(v as nat)
    }
}

/// A file and what is written there.
pub open spec fn one(name: Seq<char>, content: Seq<char>) -> Seq<(Seq<char>, Seq<u8>)> {
    seq![(name, encode_utf8(content))]
}

/// No write.
pub open spec fn nothing() -> Seq<(Seq<char>, Seq<u8>)> {
    Seq::empty()
}

/// The swap limit alone, out of the limit for memory and swap together.
pub open spec fn swap_only(swap: i64, mem: i64) -> i64 {
    if mem > 0 && swap >= mem {
        (swap - mem) as i64
    } else {
        swap
    }
}

/// The writes of the memory limits.
pub open spec fn memory_writes(m: Option<JsonView>) -> Seq<(Seq<char>, Seq<u8>)> {
    let limit = json::i64_at(json::at(m, "limit"@));
    (match limit {
        Some(v) => one("memory.max"@, limit_text(v)),
        None => nothing(),
    }) + (match json::i64_at(json::at(m, "swap"@)) {
        Some(v) => one(
            "memory.swap.max"@,
            limit_text(
                swap_only(
                    v,
                    match limit {
                        Some(l) => l,
                        None => 0,
                    },
                ),
            ),
        ),
        None => nothing(),
    }) + (match json::i64_at(json::at(m, "reservation"@)) {
        Some(v) => one("memory.low"@, limit_text(v)),
        None => nothing(),
    })
}

/// The weight for a number of shares: 2 to 262144 shares go to 1 to 10000, anything beyond to the
/// nearer end.
pub open spec fn weight(shares: u64) -> int {
    let past: int = if shares > 2 {
        shares - 2
    } else {
        0
    };
    let w: int = 1 + past * 9999 / 262142;
    if w > 10000 {
        10000
    } else {
        w
    }
}

/// The content of `cpu.max`.
pub open spec fn cpu_max(quota: Option<i64>, period: Option<u64>) -> Seq<char> {
    (match quota {
        Some(q) => text::dec_int(q as int),
        None => "max"@,
    }) + " "@ + text::dec(
        (match period {
            Some(p) => p,
            None => 100000,
        }) as nat,
    )
}

/// The writes of the processor limits.
pub open spec fn cpu_writes(c: Option<JsonView>) -> Seq<(Seq<char>, Seq<u8>)> {
    let quota = json::i64_at(json::at(c, "quota"@));
    let period = json::u64_at(json::at(c, "period"@));
    (if quota is Some || period is Some {
        one("cpu.max"@, cpu_max(quota, period))
    } else {
        nothing()
    }) + (match json::u64_at(json::at(c, "shares"@)) {
        Some(s) => one("cpu.weight"@, text::dec(weight(s) as nat)),
        None => nothing(),
    }) + (match json::text_at(json::at(c, "cpus"@)) {
        Some(t) => one("cpuset.cpus"@, t),
        None => nothing(),
    }) + (match json::text_at(json::at(c, "mems"@)) {
        Some(t) => one("cpuset.mems"@, t),
        None => nothing(),
    })
}

/// The writes of the process limit.
pub open spec fn pids_writes(p: Option<JsonView>) -> Seq<(Seq<char>, Seq<u8>)> {
    match json::i64_at(json::at(p, "limit"@)) {
        Some(v) => one("pids.max"@, limit_text(v)),
        None => nothing(),
    }
}

/// What is limited on a block device.
#[derive(Debug, Clone, Copy, PartialEq, Eq, Structural)]
pub enum Knob {
    ReadBps,
    WriteBps,
    ReadIops,
    WriteIops,
}

/// A device and its limits.
pub struct DevLimits {
    pub dev: String,
    pub rbps: Option<u64>,
    pub riops: Option<u64>,
    pub wbps: Option<u64>,
    pub wiops: Option<u64>,
}

/// What a device and its limits say.
pub struct LimitsView {
    pub dev: Seq<char>,
    pub rbps: Option<u64>,
    pub riops: Option<u64>,
    pub wbps: Option<u64>,
    pub wiops: Option<u64>,
}

impl View for DevLimits {
    type V = LimitsView;

    open spec fn view(&self) -> LimitsView {
        LimitsView {
            dev: self.dev@,
            rbps: self.rbps,
            riops: self.riops,
            wbps: self.wbps,
            wiops: self.wiops,
        }
    }
}

/// A limit of a device.
pub open spec fn limit(l: LimitsView, k: Knob) -> Option<u64> {
    match k {
        Knob::ReadBps => l.rbps,
        Knob::WriteBps => l.wbps,
        Knob::ReadIops => l.riops,
        Knob::WriteIops => l.wiops,
    }
}

/// The limits of a device with one of them set.
pub open spec fn with_limit(l: LimitsView, k: Knob, rate: u64) -> LimitsView {
    match k {
        Knob::ReadBps => LimitsView { rbps: Some(rate), ..l },
        Knob::WriteBps => LimitsView { wbps: Some(rate), ..l },
        Knob::ReadIops => LimitsView { riops: Some(rate), ..l },
        Knob::WriteIops => LimitsView { wiops: Some(rate), ..l },
    }
}

/// A device without limits.
pub open spec fn unlimited(dev: Seq<char>) -> LimitsView {
    LimitsView { dev, rbps: None, riops: None, wbps: None, wiops: None }
}

/// One limit as the bundle lists it.
pub struct IoEntry {
    pub dev: Seq<char>,
    pub knob: Knob,
    pub rate: u64,
}

/// A device by its two numbers.
pub open spec fn dev_name(major: u64, minor: u64) -> Seq<char> {
    text::dec(major as nat) + ":"@ + text::dec(minor as nat)
}

/// A limit of the bundle: its three numbers are all there.
pub open spec fn io_entry(v: JsonView, knob: Knob) -> Option<IoEntry> {
    match (
        json::u64_at(json::field(v, "major"@)),
        json::u64_at(json::field(v, "minor"@)),
        json::u64_at(json::field(v, "rate"@)),
    ) {
        (Some(major), Some(minor), Some(rate)) => Some(
            IoEntry { dev: dev_name(major, minor), knob, rate },
        ),
        _ => None,
    }
}

/// What becomes of an element of a list of limits.
pub open spec fn io_rule(knob: Knob) -> spec_fn(JsonView) -> Option<IoEntry> {
    |x: JsonView| io_entry(x, knob)
}

/// The limits of one kind.
pub open spec fn knob_entries(b: Option<JsonView>, key: Seq<char>, knob: Knob) -> Seq<IoEntry> {
    spec::kept(spec::elements(json::at(b, key)), io_rule(knob))
}

/// All limits, kind after kind.
pub open spec fn io_entries(b: Option<JsonView>) -> Seq<IoEntry> {
    knob_entries(b, "throttleReadBpsDevice"@, Knob::ReadBps) + knob_entries(
        b,
        "throttleWriteBpsDevice"@,
        Knob::WriteBps,
    ) + knob_entries(b, "throttleReadIOPSDevice"@, Knob::ReadIops) + knob_entries(
        b,
        "throttleWriteIOPSDevice"@,
        Knob::WriteIops,
    )
}

/// A limit put among those of the devices, which are in the order of their names.
pub open spec fn put(g: Seq<LimitsView>, e: IoEntry) -> Seq<LimitsView>
    decreases g.len(),
{
    if g.len() == 0 {
        seq![with_limit(unlimited(e.dev), e.knob, e.rate)]
    } else if g[0].dev == e.dev {
        seq![with_limit(g[0], e.knob, e.rate)] + g.skip(1)
    } else if order::before(e.dev, g[0].dev) {
        seq![with_limit(unlimited(e.dev), e.knob, e.rate)] + g
    } else {
        seq![g[0]] + put(g.skip(1), e)
    }
}

/// The limits, device by device.
pub open spec fn grouped(entries: Seq<IoEntry>) -> Seq<LimitsView>
    decreases entries.len(),
{
    if entries.len() == 0 {
        Seq::empty()
    } else {
        put(grouped(entries.drop_last()), entries.last())
    }
}

/// One limit in a line of `io.max`.
pub open spec fn limit_part(name: Seq<char>, rate: Option<u64>) -> Seq<char> {
    match rate {
        Some(r) => " "@ + name + "="@ + text::dec(r as nat),
        None => Seq::empty(),
    }
}

/// The line of a device.
pub open spec fn io_line(l: LimitsView) -> Seq<char> {
    l.dev + limit_part("rbps"@, l.rbps) + limit_part("riops"@, l.riops) + limit_part("wbps"@, l.wbps)
        + limit_part("wiops"@, l.wiops) + "\n"@
}

/// The writes of the block device limits: one for each device.
pub open spec fn io_writes(b: Option<JsonView>) -> Seq<(Seq<char>, Seq<u8>)> {
    let g = grouped(io_entries(b));
    Seq::new(g.len(), |i: int| ("io.max"@, encode_utf8(io_line(g[i]))))
}

/// All writes for a set of limits.
pub open spec fn resource_writes(r: JsonView) -> Seq<(Seq<char>, Seq<u8>)> {
    memory_writes(json::field(r, "memory"@)) + cpu_writes(json::field(r, "cpu"@)) + pids_writes(
        json::field(r, "pids"@),
    ) + io_writes(json::field(r, "blockIO"@))
}

/// Devices in the order of their names.
pub open spec fn in_order(g: Seq<LimitsView>) -> bool {
    forall|i: int, j: int|
        0 <= i < j < g.len() ==> order::before(#[trigger] g[i].dev, #[trigger] g[j].dev)
}

/// The last limit of a kind that is listed for a device.
pub open spec fn last_rate(entries: Seq<IoEntry>, dev: Seq<char>, k: Knob) -> Option<u64>
    decreases entries.len(),
{
    if entries.len() == 0 {
        None
    } else if entries.last().dev == dev && entries.last().knob == k {
        Some(entries.last().rate)
    } else {
        last_rate(entries.drop_last(), dev, k)
    }
}

/// Whether a device is among those listed.
pub open spec fn lists_dev(g: Seq<LimitsView>, dev: Seq<char>) -> bool {
    exists|i: int| 0 <= i < g.len() && (#[trigger] g[i]).dev == dev
}

/// Putting a limit keeps the order, and changes the one device.
proof fn lemma_put(g: Seq<LimitsView>, e: IoEntry)
    requires
        in_order(g),
    ensures
        in_order(put(g, e)),
        forall|i: int|
            0 <= i < put(g, e).len() ==> (#[trigger] put(g, e)[i]).dev == e.dev || lists_dev(
                g,
                put(g, e)[i].dev,
            ),
        lists_dev(put(g, e), e.dev),
        forall|d: Seq<char>| lists_dev(g, d) ==> #[trigger] lists_dev(put(g, e), d),
    decreases g.len(),
{
    let p = put(g, e);
    if g.len() == 0 {
        assert(p[0].dev == e.dev);
    } else if g[0].dev == e.dev {
        assert(p[0].dev == e.dev);
        assert forall|i: int| 0 <= i < p.len() implies #[trigger] p[i].dev == g[i].dev by {}
        assert forall|i: int, j: int| 0 <= i < j < p.len() implies order::before(
            #[trigger] p[i].dev,
            #[trigger] p[j].dev,
        ) by {
            assert(order::before(g[i].dev, g[j].dev));
        }
        assert forall|d: Seq<char>| lists_dev(g, d) implies #[trigger] lists_dev(p, d) by {
            let i = choose|i: int| 0 <= i < g.len() && (#[trigger] g[i]).dev == d;
            assert(p[i].dev == d);
        }
    } else if order::before(e.dev, g[0].dev) {
        assert(p[0].dev == e.dev);
        assert forall|i: int, j: int| 0 <= i < j < p.len() implies order::before(
            #[trigger] p[i].dev,
            #[trigger] p[j].dev,
        ) by {
            if i == 0 {
                if j > 1 {
                    assert(order::before(g[0].dev, g[j - 1].dev));
                    order::lemma_transitive(e.dev, g[0].dev, g[j - 1].dev);
                }
            } else {
                assert(order::before(g[i - 1].dev, g[j - 1].dev));
            }
        }
        assert forall|i: int| 0 <= i < p.len() implies (#[trigger] p[i]).dev == e.dev || lists_dev(
            g,
            p[i].dev,
        ) by {
            if i > 0 {
                assert(g[i - 1].dev == p[i].dev);
            }
        }
        assert forall|d: Seq<char>| lists_dev(g, d) implies #[trigger] lists_dev(p, d) by {
            let i = choose|i: int| 0 <= i < g.len() && (#[trigger] g[i]).dev == d;
            assert(p[i + 1].dev == d);
        }
    } else {
        let rest = g.skip(1);
        assert forall|i: int, j: int| 0 <= i < j < rest.len() implies order::before(
            #[trigger] rest[i].dev,
            #[trigger] rest[j].dev,
        ) by {
            assert(order::before(g[i + 1].dev, g[j + 1].dev));
        }
        lemma_put(rest, e);
        order::lemma_total(e.dev, g[0].dev);
        let q = put(rest, e);
        assert forall|i: int| 0 <= i < q.len() implies order::before(
            g[0].dev,
            (#[trigger] q[i]).dev,
        ) by {
            if q[i].dev != e.dev {
                let k = choose|k: int| 0 <= k < rest.len() && (#[trigger] rest[k]).dev == q[i].dev;
                assert(order::before(g[0].dev, g[k + 1].dev));
            }
        }
        assert forall|i: int, j: int| 0 <= i < j < p.len() implies order::before(
            #[trigger] p[i].dev,
            #[trigger] p[j].dev,
        ) by {
            if i == 0 {
                assert(p[j] == q[j - 1]);
            } else {
                assert(order::before(q[i - 1].dev, q[j - 1].dev));
            }
        }
        assert forall|i: int| 0 <= i < p.len() implies (#[trigger] p[i]).dev == e.dev || lists_dev(
            g,
            p[i].dev,
        ) by {
            if i == 0 {
                assert(g[0].dev == p[0].dev);
            } else {
                assert(p[i] == q[i - 1]);
                if q[i - 1].dev != e.dev {
                    let k = choose|k: int|
                        0 <= k < rest.len() && (#[trigger] rest[k]).dev == q[i - 1].dev;
                    assert(g[k + 1].dev == p[i].dev);
                }
            }
        }
        let w = choose|i: int| 0 <= i < q.len() && (#[trigger] q[i]).dev == e.dev;
        assert(p[w + 1].dev == e.dev);
        assert forall|d: Seq<char>| lists_dev(g, d) implies #[trigger] lists_dev(p, d) by {
            let i = choose|i: int| 0 <= i < g.len() && (#[trigger] g[i]).dev == d;
            if i == 0 {
                assert(p[0].dev == d);
            } else {
                assert(rest[i - 1].dev == d);
                assert(lists_dev(q, d));
                let k = choose|k: int| 0 <= k < q.len() && (#[trigger] q[k]).dev == d;
                assert(p[k + 1].dev == d);
            }
        }
    }
}

/// A limit of a device among those listed.
pub open spec fn limit_in(g: Seq<LimitsView>, dev: Seq<char>, k: Knob) -> Option<u64>
    decreases g.len(),
{
    if g.len() == 0 {
        None
    } else if g[0].dev == dev {
        limit(g[0], k)
    } else {
        limit_in(g.skip(1), dev, k)
    }
}

/// What comes before every listed device is not among them.
proof fn lemma_absent(g: Seq<LimitsView>, dev: Seq<char>, k: Knob)
    requires
        forall|i: int| 0 <= i < g.len() ==> order::before(dev, (#[trigger] g[i]).dev),
    ensures
        limit_in(g, dev, k) is None,
    decreases g.len(),
{
    if g.len() > 0 {
        assert(order::before(dev, g[0].dev));
        order::lemma_irreflexive(dev);
        assert forall|i: int| 0 <= i < g.skip(1).len() implies order::before(
            dev,
            (#[trigger] g.skip(1)[i]).dev,
        ) by {
            assert(order::before(dev, g[i + 1].dev));
        }
        lemma_absent(g.skip(1), dev, k);
    }
}

/// Putting a limit sets it and leaves every other.
proof fn lemma_put_limit(g: Seq<LimitsView>, e: IoEntry, d: Seq<char>, k: Knob)
    requires
        in_order(g),
    ensures
        limit_in(put(g, e), d, k) == (if d == e.dev && k == e.knob {
            Some(e.rate)
        } else {
            limit_in(g, d, k)
        }),
    decreases g.len(),
{
    let p = put(g, e);
    if g.len() == 0 {
        assert(p.skip(1) =~= Seq::<LimitsView>::empty());
        assert(limit_in(p.skip(1), d, k) is None);
    } else if g[0].dev == e.dev {
        assert(p.skip(1) =~= g.skip(1));
    } else if order::before(e.dev, g[0].dev) {
        assert(p.skip(1) =~= g);
        assert forall|i: int| 0 <= i < g.len() implies order::before(
            e.dev,
            (#[trigger] g[i]).dev,
        ) by {
            if i > 0 {
                assert(order::before(g[0].dev, g[i].dev));
                order::lemma_transitive(e.dev, g[0].dev, g[i].dev);
            }
        }
        lemma_absent(g, e.dev, k);
    } else {
        let rest = g.skip(1);
        assert forall|i: int, j: int| 0 <= i < j < rest.len() implies order::before(
            #[trigger] rest[i].dev,
            #[trigger] rest[j].dev,
        ) by {
            assert(order::before(g[i + 1].dev, g[j + 1].dev));
        }
        lemma_put_limit(rest, e, d, k);
        assert(p.skip(1) =~= put(rest, e));
    }
}

/// Whether a limit is listed for a device.
pub open spec fn mentions(entries: Seq<IoEntry>, dev: Seq<char>) -> bool {
    exists|i: int| 0 <= i < entries.len() && (#[trigger] entries[i]).dev == dev
}

/// The grouped limits name each device once, in order, and exactly those that the bundle names;
/// of limits of a kind for a device the last one counts.
pub proof fn law_io_limits_grouped(entries: Seq<IoEntry>, dev: Seq<char>, k: Knob)
    ensures
        in_order(grouped(entries)),
        lists_dev(grouped(entries), dev) == mentions(entries, dev),
        limit_in(grouped(entries), dev, k) == last_rate(entries, dev, k),
    decreases entries.len(),
{
    if entries.len() > 0 {
        let rest = entries.drop_last();
        let e = entries.last();
        let g = grouped(rest);
        law_io_limits_grouped(rest, dev, k);
        lemma_put(g, e);
        lemma_put_limit(g, e, dev, k);
        if mentions(entries, dev) {
            let i = choose|i: int| 0 <= i < entries.len() && (#[trigger] entries[i]).dev == dev;
            if i < rest.len() {
                assert(rest[i].dev == dev);
            }
        }
        if mentions(rest, dev) {
            let i = choose|i: int| 0 <= i < rest.len() && (#[trigger] rest[i]).dev == dev;
            assert(entries[i].dev == dev);
        }
        if e.dev == dev {
            assert(entries[entries.len() - 1].dev == dev);
        }
        if lists_dev(put(g, e), dev) {
            let i = choose|i: int| 0 <= i < put(g, e).len() && (#[trigger] put(g, e)[i]).dev == dev;
            assert(put(g, e)[i].dev == e.dev || lists_dev(g, dev));
        }
    }
}

/// The weight is always one that the kernel accepts; more shares never weigh less.
pub proof fn law_cpu_weight(a: u64, b: u64)
    requires
        a <= b,
    ensures
        1 <= weight(a) <= weight(b) <= 10000,
{
    let x: int = if a > 2 {
        a - 2
    } else {
        0
    };
    let y: int = if b > 2 {
        b - 2
    } else {
        0
    };
    assert(x * 9999 / 262142 <= y * 9999 / 262142) by (nonlinear_arith)
        requires
            0 <= x <= y,
    ;
}

/// A limit in decimal, or that there is none.
fn encode_limit(v: i64) -> (r: String)
    ensures
        r@ == limit_text(v),
{
    if v <= 0 {
        owned("max")
    } else {
        dec_u64(v as u64)
    }
}

/// Adds a write.
pub(crate) fn push_write(out: &mut Vec<(String, Vec<u8>)>, name: &str, content: &str)
    ensures
        plan::write_views(final(out)@) == plan::write_views(old(out)@) + one(name@, content@),
{
    let ghost was = out@;
    let n = owned(name);
    let b = content.as_bytes_vec();
    out.push((n, b));
    proof {
        assert(plan::write_views(out@) =~= plan::write_views(was) + one(name@, content@));
    }
}

/// Adds the writes of the memory limits.
fn push_memory(out: &mut Vec<(String, Vec<u8>)>, m: Option<&Json>)
    ensures
        plan::write_views(final(out)@) == plan::write_views(old(out)@) + memory_writes(
            json::opt_view(m),
        ),
{
    let ghost was = plan::write_views(out@);
    let limit = get_i64(get_at(m, "limit"));
    if let Some(v) = limit {
        push_write(out, "memory.max", encode_limit(v).as_str());
    }
    if let Some(swap) = get_i64(get_at(m, "swap")) {
        let mem: i64 = match limit {
            Some(l) => l,
            None => 0,
        };
        let only: i64 = if mem > 0 && swap >= mem {
            swap - mem
        } else {
            swap
        };
        push_write(out, "memory.swap.max", encode_limit(only).as_str());
    }
    if let Some(v) = get_i64(get_at(m, "reservation")) {
        push_write(out, "memory.low", encode_limit(v).as_str());
    }
    proof {
        assert(plan::write_views(out@) =~= was + memory_writes(json::opt_view(m)));
    }
}

/// The weight for a number of shares.
pub fn cpu_weight(shares: u64) -> (w: u64)
    ensures
        w == weight(shares),
{
    if shares > 262144 {
        proof {
            assert((shares - 2) * 9999 / 262142 >= 9999) by (nonlinear_arith)
                requires
                    shares > 262144,
            ;
        }
        return 10000;
    }
    let past: u64 = if shares > 2 {
        shares - 2
    } else {
        0
    };
    1 + past * 9999 / 262142
}

/// Adds the writes of the processor limits.
fn push_cpu(out: &mut Vec<(String, Vec<u8>)>, c: Option<&Json>)
    ensures
        plan::write_views(final(out)@) == plan::write_views(old(out)@) + cpu_writes(
            json::opt_view(c),
        ),
{
    let ghost was = plan::write_views(out@);
    let quota = get_i64(get_at(c, "quota"));
    let period = get_u64(get_at(c, "period"));
    if quota.is_some() || period.is_some() {
        let mut t = match quota {
            Some(q) => dec_i64(q),
            None => owned("max"),
        };
        let p: u64 = match period {
            Some(p) => p,
            None => 100000,
        };
        t.append(" ");
        let d = dec_u64(p);
        t.append(d.as_str());
        push_write(out, "cpu.max", t.as_str());
    }
    if let Some(s) = get_u64(get_at(c, "shares")) {
        proof {
            law_cpu_weight(s, s);
        }
        push_write(out, "cpu.weight", dec_u64(cpu_weight(s)).as_str());
    }
    if let Some(t) = get_text(get_at(c, "cpus")) {
        push_write(out, "cpuset.cpus", t);
    }
    if let Some(t) = get_text(get_at(c, "mems")) {
        push_write(out, "cpuset.mems", t);
    }
    proof {
        assert(plan::write_views(out@) =~= was + cpu_writes(json::opt_view(c)));
    }
}

/// What the devices of a list say.
pub open spec fn limits_views(v: Seq<DevLimits>) -> Seq<LimitsView> {
    Seq::new(v.len(), |i: int| v[i]@)
}

/// Behind devices that all come before its own, a limit is put among the rest.
proof fn lemma_put_from(g: Seq<LimitsView>, e: IoEntry, i: int)
    requires
        0 <= i <= g.len(),
        forall|k: int|
            0 <= k < i ==> (#[trigger] g[k]).dev != e.dev && !order::before(e.dev, g[k].dev),
    ensures
        put(g, e) == g.subrange(0, i) + put(g.skip(i), e),
    decreases i,
{
    if i == 0 {
        assert(g.skip(0) =~= g);
        assert(put(g, e) =~= g.subrange(0, 0) + put(g.skip(0), e));
    } else {
        assert(g[0].dev != e.dev);
        let rest = g.skip(1);
        assert forall|k: int| 0 <= k < i - 1 implies (#[trigger] rest[k]).dev != e.dev
            && !order::before(e.dev, rest[k].dev) by {
            assert(g[k + 1].dev != e.dev);
        }
        lemma_put_from(rest, e, i - 1);
        assert(rest.skip(i - 1) =~= g.skip(i));
        assert(put(g, e) =~= g.subrange(0, i) + put(g.skip(i), e));
    }
}

/// A device with one limit.
fn single(dev: String, knob: Knob, rate: u64) -> (l: DevLimits)
    ensures
        l@ == with_limit(unlimited(dev@), knob, rate),
{
    let mut l = DevLimits { dev, rbps: None, riops: None, wbps: None, wiops: None };
    match knob {
        Knob::ReadBps => {
            l.rbps = Some(rate);
        },
        Knob::WriteBps => {
            l.wbps = Some(rate);
        },
        Knob::ReadIops => {
            l.riops = Some(rate);
        },
        Knob::WriteIops => {
            l.wiops = Some(rate);
        },
    }
    l
}

/// Puts a limit among those of the devices.
fn put_limit(g: &mut Vec<DevLimits>, dev: String, knob: Knob, rate: u64)
    ensures
        limits_views(final(g)@) == put(
            limits_views(old(g)@),
            (IoEntry { dev: dev@, knob, rate }),
        ),
{
    let ghost v = limits_views(g@);
    let ghost e = IoEntry { dev: dev@, knob, rate };
    let ghost old_g = g@;
    let mut i: usize = 0;
    while i < g.len()
        invariant
            i <= g.len(),
            g@ == old_g,
            v == limits_views(old_g),
            e == (IoEntry { dev: dev@, knob, rate }),
            forall|k: int|
                0 <= k < i ==> (#[trigger] v[k]).dev != e.dev && !order::before(e.dev, v[k].dev),
        ensures
            i <= g.len(),
            g@ == old_g,
            forall|k: int|
                0 <= k < i ==> (#[trigger] v[k]).dev != e.dev && !order::before(e.dev, v[k].dev),
            i < g.len() ==> v[i as int].dev == e.dev || order::before(e.dev, v[i as int].dev),
        decreases g.len() - i,
    {
        if str_eq(g[i].dev.as_str(), dev.as_str()) || less(dev.as_str(), g[i].dev.as_str()) {
            break;
        }
        i = i + 1;
    }
    proof {
        lemma_put_from(v, e, i as int);
    }
    if i < g.len() && str_eq(g[i].dev.as_str(), dev.as_str()) {
        let mut l = g.remove(i);
        match knob {
            Knob::ReadBps => {
                l.rbps = Some(rate);
            },
            Knob::WriteBps => {
                l.wbps = Some(rate);
            },
            Knob::ReadIops => {
                l.riops = Some(rate);
            },
            Knob::WriteIops => {
                l.wiops = Some(rate);
            },
        }
        g.insert(i, l);
        proof {
            assert(v.skip(i as int)[0] == v[i as int]);
            assert(limits_views(g@) =~= v.subrange(0, i as int) + put(v.skip(i as int), e));
        }
    } else {
        let l = single(dev, knob, rate);
        g.insert(i, l);
        proof {
            if i < v.len() {
                assert(v.skip(i as int)[0] == v[i as int]);
            }
            assert(limits_views(g@) =~= v.subrange(0, i as int) + put(v.skip(i as int), e));
        }
    }
}

/// The limits put one after another.
pub open spec fn put_all(g: Seq<LimitsView>, entries: Seq<IoEntry>) -> Seq<LimitsView>
    decreases entries.len(),
{
    if entries.len() == 0 {
        g
    } else {
        put(put_all(g, entries.drop_last()), entries.last())
    }
}

/// Limits put after others are all of them put.
proof fn lemma_put_all(a: Seq<IoEntry>, b: Seq<IoEntry>)
    ensures
        grouped(a + b) == put_all(grouped(a), b),
    decreases b.len(),
{
    if b.len() == 0 {
        assert(a + b =~= a);
    } else {
        lemma_put_all(a, b.drop_last());
        assert((a + b).drop_last() =~= a + b.drop_last());
        assert((a + b).last() == b.last());
    }
}

/// A device by its two numbers.
fn device_name(major: u64, minor: u64) -> (s: String)
    ensures
        s@ == dev_name(major, minor),
{
    let mut s = dec_u64(major);
    s.append(":");
    let m = dec_u64(minor);
    s.append(m.as_str());
    s
}

/// Puts the limits of one kind.
fn put_knob(g: &mut Vec<DevLimits>, b: Option<&Json>, key: &str, knob: Knob)
    ensures
        limits_views(final(g)@) == put_all(
            limits_views(old(g)@),
            knob_entries(json::opt_view(b), key@, knob),
        ),
{
    let ghost start = limits_views(g@);
    if let Some(a) = get_items(get_at(b, key)) {
        let ghost all = json::views(a@);
        let mut i: usize = 0;
        proof {
            assert(all.subrange(0, 0) =~= Seq::<JsonView>::empty());
        }
        while i < a.len()
            invariant
                i <= a.len(),
                all == json::views(a@),
                limits_views(g@) == put_all(
                    start,
                    spec::kept(all.subrange(0, i as int), io_rule(knob)),
                ),
            decreases a.len() - i,
        {
            proof {
                assert(all.subrange(0, i + 1).drop_last() =~= all.subrange(0, i as int));
                assert(all.subrange(0, i + 1).last() == a@[i as int]@);
            }
            let major = get_u64(a[i].get("major"));
            let minor = get_u64(a[i].get("minor"));
            let rate = get_u64(a[i].get("rate"));
            if let (Some(major), Some(minor), Some(rate)) = (major, minor, rate) {
                let dev = device_name(major, minor);
                proof {
                    let h = spec::kept(all.subrange(0, i as int), io_rule(knob));
                    let e = IoEntry { dev: dev@, knob, rate };
                    assert(h.push(e).drop_last() =~= h);
                }
                put_limit(g, dev, knob, rate);
            }
            i = i + 1;
        }
        proof {
            assert(all.subrange(0, all.len() as int) =~= all);
        }
    }
}

/// Adds one limit to a line of `io.max`.
fn push_part(line: &mut String, name: &str, rate: Option<u64>)
    ensures
        final(line)@ == old(line)@ + limit_part(name@, rate),
{
    let ghost was = line@;
    if let Some(r) = rate {
        line.append(" ");
        line.append(name);
        line.append("=");
        let d = dec_u64(r);
        line.append(d.as_str());
        proof {
            assert(line@ =~= was + limit_part(name@, rate));
        }
    } else {
        proof {
            assert(line@ =~= was + limit_part(name@, rate));
        }
    }
}

/// The line of a device.
fn device_line(l: &DevLimits) -> (s: String)
    ensures
        s@ == io_line(l@),
{
    let mut s = l.dev.clone();
    push_part(&mut s, "rbps", l.rbps);
    push_part(&mut s, "riops", l.riops);
    push_part(&mut s, "wbps", l.wbps);
    push_part(&mut s, "wiops", l.wiops);
    s.append("\n");
    s
}

/// Adds the writes of the block device limits.
fn compile_blockio(out: &mut Vec<(String, Vec<u8>)>, b: Option<&Json>)
    ensures
        plan::write_views(final(out)@) == plan::write_views(old(out)@) + io_writes(
            json::opt_view(b),
        ),
{
    let ghost was = plan::write_views(out@);
    let ghost bv = json::opt_view(b);
    let mut g: Vec<DevLimits> = Vec::new();
    put_knob(&mut g, b, "throttleReadBpsDevice", Knob::ReadBps);
    put_knob(&mut g, b, "throttleWriteBpsDevice", Knob::WriteBps);
    put_knob(&mut g, b, "throttleReadIOPSDevice", Knob::ReadIops);
    put_knob(&mut g, b, "throttleWriteIOPSDevice", Knob::WriteIops);
    let ghost v = limits_views(g@);
    proof {
        let e1 = knob_entries(bv, "throttleReadBpsDevice"@, Knob::ReadBps);
        let e2 = knob_entries(bv, "throttleWriteBpsDevice"@, Knob::WriteBps);
        let e3 = knob_entries(bv, "throttleReadIOPSDevice"@, Knob::ReadIops);
        let e4 = knob_entries(bv, "throttleWriteIOPSDevice"@, Knob::WriteIops);
        lemma_put_all(Seq::empty(), e1);
        assert(Seq::<IoEntry>::empty() + e1 =~= e1);
        assert(limits_views(Seq::<DevLimits>::empty()) =~= Seq::<LimitsView>::empty());
        lemma_put_all(e1, e2);
        lemma_put_all(e1 + e2, e3);
        lemma_put_all(e1 + e2 + e3, e4);
        assert(v == grouped(io_entries(bv)));
    }
    let ghost lines = io_writes(bv);
    let mut i: usize = 0;
    proof {
        assert(was + lines.subrange(0, 0) =~= was);
    }
    while i < g.len()
        invariant
            i <= g.len(),
            v == limits_views(g@),
            lines == io_writes(bv),
            v == grouped(io_entries(bv)),
            plan::write_views(out@) == was + lines.subrange(0, i as int),
        decreases g.len() - i,
    {
        let line = device_line(&g[i]);
        push_write(out, "io.max", line.as_str());
        proof {
            assert(lines[i as int] == ("io.max"@, encode_utf8(io_line(v[i as int]))));
            assert(was + lines.subrange(0, i as int) + one("io.max"@, line@) =~= was
                + lines.subrange(0, i + 1));
        }
        i = i + 1;
    }
    proof {
        assert(lines.subrange(0, lines.len() as int) =~= lines);
    }
}

/// The writes for a set of limits.
pub fn compile_writes(resources: &Json) -> (w: Vec<(String, Vec<u8>)>)
    ensures
        plan::write_views(w@) == resource_writes(resources@),
{
    let mut w: Vec<(String, Vec<u8>)> = Vec::new();
    proof {
        assert(plan::write_views(w@) =~= nothing());
    }
    push_memory(&mut w, resources.get("memory"));
    push_cpu(&mut w, resources.get("cpu"));
    let ghost before_pids = plan::write_views(w@);
    if let Some(v) = get_i64(get_at(resources.get("pids"), "limit")) {
        push_write(&mut w, "pids.max", encode_limit(v).as_str());
    }
    proof {
        assert(plan::write_views(w@) =~= before_pids + pids_writes(
            json::field(resources@, "pids"@),
        ));
    }
    compile_blockio(&mut w, resources.get("blockIO"));
    proof {
        assert(plan::write_views(w@) =~= resource_writes(resources@));
    }
    w
}

/// The directory of a container's cgroup.
pub open spec fn cgroup_dir(id: Seq<char>) -> Seq<char> {
    "/sys/fs/cgroup/rsrun-"@ + id
}

/// Whether a cgroup is needed: for a write, or for device rules to attach a program to.
pub open spec fn needs_cgroup(r: JsonView) -> bool {
    resource_writes(r).len() > 0 || spec::elements(json::field(r, "devices"@)).len() > 0
}

/// The cgroup directory and the writes there, on a host that has the unified hierarchy or not.
pub fn compile(resources: Option<&Json>, container_id: &str, unified: bool) -> (r: (
    Option<String>,
    Vec<(String, Vec<u8>)>,
))
    ensures
        match resources {
            Some(v) => if unified && needs_cgroup(v@) {
                text::opt_text(r.0) == Some(cgroup_dir(container_id@)) && plan::write_views(r.1@)
                    == resource_writes(v@)
            } else {
                r.0 is None && r.1@.len() == 0
            },
            None => r.0 is None && r.1@.len() == 0,
        },
{
    let v = match resources {
        Some(v) => v,
        None => return (None, Vec::new()),
    };
    if !unified {
        return (None, Vec::new());
    }
    let writes = compile_writes(v);
    proof {
        assert(plan::write_views(writes@).len() == writes@.len());
    }
    let has_devices = match get_items(v.get("devices")) {
        Some(a) => a.len() > 0,
        None => false,
    };
    if writes.len() == 0 && !has_devices {
        return (None, Vec::new());
    }
    (Some(cat2("/sys/fs/cgroup/rsrun-", container_id)), writes)
}

/// What a list of writes puts into a file, by its name; the first such write.
pub open spec fn told(w: Seq<(Seq<char>, Seq<u8>)>, name: Seq<char>) -> Option<Seq<u8>>
    decreases w.len(),
{
    if w.len() == 0 {
        None
    } else if w[0].0 == name {
        Some(w[0].1)
    } else {
        told(w.skip(1), name)
    }
}

/// What writes tell that stand one behind the other.
pub proof fn lemma_told_sum(a: Seq<(Seq<char>, Seq<u8>)>, b: Seq<(Seq<char>, Seq<u8>)>, name: Seq<char>)
    ensures
        told(a + b, name) == (if told(a, name) is Some {
            told(a, name)
        } else {
            told(b, name)
        }),
    decreases a.len(),
{
    if a.len() == 0 {
        assert(a + b =~= b);
    } else {
        assert((a + b)[0] == a[0]);
        assert((a + b).skip(1) =~= a.skip(1) + b);
        lemma_told_sum(a.skip(1), b, name);
    }
}

/// What one write tells, and none.
pub proof fn lemma_told_one(key: Seq<char>, content: Seq<char>, name: Seq<char>)
    ensures
        told(one(key, content), name) == (if key == name {
            Some(encode_utf8(content))
        } else {
            None
        }),
        told(nothing(), name) is None,
{
    reveal_with_fuel(told, 2);
    assert(one(key, content)[0] == (key, encode_utf8(content)));
    assert(one(key, content).skip(1) =~= Seq::<(Seq<char>, Seq<u8>)>::empty());
}

/// A limit as it is written: `max` where there is none, else the number.
pub open spec fn as_limit(n: int) -> Option<Seq<u8>> {
    Some(
        encode_utf8(
            if n <= 0 {
                "max"@
            } else {
                text::dec(n as nat)
            },
        ),
    )
}

/// What the memory limits are set to: each limit that is said, under its own name. The swap limit of
/// the settings covers memory as well, so what memory may have is taken off where it can be.
pub proof fn law_memory_limits(r: JsonView)
    ensures
        ({
            let w = resource_writes(r);
            let m = json::field(r, "memory"@);
            let limit = json::i64_at(json::at(m, "limit"@));
            let swap = json::i64_at(json::at(m, "swap"@));
            let low = json::i64_at(json::at(m, "reservation"@));
            &&& told(w, "memory.max"@) is Some == limit is Some
            &&& limit matches Some(n) ==> told(w, "memory.max"@) == as_limit(n as int)
            &&& told(w, "memory.low"@) is Some == low is Some
            &&& low matches Some(n) ==> told(w, "memory.low"@) == as_limit(n as int)
            &&& told(w, "memory.swap.max"@) is Some == swap is Some
            &&& swap matches Some(s) ==> (limit matches Some(n) ==> (0 < n <= s ==> told(
                w,
                "memory.swap.max"@,
            ) == as_limit(s - n)))
            &&& swap matches Some(s) ==> (limit is None || limit->Some_0 <= 0 || limit->Some_0 > s
                ==> told(w, "memory.swap.max"@) == as_limit(s as int))
        }),
{
    reveal_strlit("memory.max");
    reveal_strlit("memory.swap.max");
    reveal_strlit("memory.low");
    reveal_strlit("cpu.max");
    reveal_strlit("cpu.weight");
    reveal_strlit("cpuset.cpus");
    reveal_strlit("cpuset.mems");
    reveal_strlit("pids.max");
    reveal_strlit("io.max");
    assert("memory.max"@.len() == 10);
    assert("memory.swap.max"@.len() == 15);
    assert("memory.low"@.len() == 10);
    assert("cpu.max"@.len() == 7);
    assert("cpu.weight"@.len() == 10);
    assert("cpuset.cpus"@.len() == 11);
    assert("cpuset.mems"@.len() == 11);
    assert("pids.max"@.len() == 8);
    assert("io.max"@.len() == 6);
    assert("memory.max"@[7] == 'm');
    assert("memory.low"@[7] == 'l');
    assert("memory.max"@[0] == 'm');
    assert("cpu.weight"@[0] == 'c');
    assert("memory.low"@[0] == 'm');
    assert("cpuset.cpus"@[7] == 'c');
    assert("cpuset.mems"@[7] == 'm');
    lemma_resources_told(r, "memory.max"@);
    lemma_resources_told(r, "memory.low"@);
    lemma_resources_told(r, "memory.swap.max"@);
}

/// What a share of the processors is set to: the quota of each period, the weight, and the processors
/// and memory nodes as they are said; and how many processes there may be.
pub proof fn law_cpu_and_pids_limits(r: JsonView)
    ensures
        ({
            let w = resource_writes(r);
            let c = json::field(r, "cpu"@);
            let quota = json::i64_at(json::at(c, "quota"@));
            let period = json::u64_at(json::at(c, "period"@));
            let shares = json::u64_at(json::at(c, "shares"@));
            let cpus = json::text_at(json::at(c, "cpus"@));
            let mems = json::text_at(json::at(c, "mems"@));
            let pids = json::i64_at(json::at(json::field(r, "pids"@), "limit"@));
            let width = match period {
                Some(p) => p,
                None => 100000u64,
            };
            &&& told(w, "cpu.max"@) is None <==> quota is None && period is None
            &&& quota matches Some(q) ==> told(w, "cpu.max"@) == Some(
                encode_utf8(text::dec_int(q as int) + " "@ + text::dec(width as nat)),
            )
            &&& quota is None && period is Some ==> told(w, "cpu.max"@) == Some(
                encode_utf8("max"@ + " "@ + text::dec(width as nat)),
            )
            &&& told(w, "cpu.weight"@) is Some == shares is Some
            &&& shares matches Some(s) ==> told(w, "cpu.weight"@) == Some(
                encode_utf8(text::dec(weight(s) as nat)),
            )
            &&& told(w, "cpuset.cpus"@) is Some == cpus is Some
            &&& cpus matches Some(t) ==> told(w, "cpuset.cpus"@) == Some(encode_utf8(t))
            &&& told(w, "cpuset.mems"@) is Some == mems is Some
            &&& mems matches Some(t) ==> told(w, "cpuset.mems"@) == Some(encode_utf8(t))
            &&& told(w, "pids.max"@) is Some == pids is Some
            &&& pids matches Some(n) ==> told(w, "pids.max"@) == as_limit(n as int)
        }),
{
    reveal_strlit("memory.max");
    reveal_strlit("memory.swap.max");
    reveal_strlit("memory.low");
    reveal_strlit("cpu.max");
    reveal_strlit("cpu.weight");
    reveal_strlit("cpuset.cpus");
    reveal_strlit("cpuset.mems");
    reveal_strlit("pids.max");
    reveal_strlit("io.max");
    assert("memory.max"@.len() == 10);
    assert("memory.swap.max"@.len() == 15);
    assert("memory.low"@.len() == 10);
    assert("cpu.max"@.len() == 7);
    assert("cpu.weight"@.len() == 10);
    assert("cpuset.cpus"@.len() == 11);
    assert("cpuset.mems"@.len() == 11);
    assert("pids.max"@.len() == 8);
    assert("io.max"@.len() == 6);
    assert("memory.max"@[7] == 'm');
    assert("memory.low"@[7] == 'l');
    assert("memory.max"@[0] == 'm');
    assert("cpu.weight"@[0] == 'c');
    assert("memory.low"@[0] == 'm');
    assert("cpuset.cpus"@[7] == 'c');
    assert("cpuset.mems"@[7] == 'm');
    lemma_resources_told(r, "cpu.max"@);
    lemma_resources_told(r, "cpu.weight"@);
    lemma_resources_told(r, "cpuset.cpus"@);
    lemma_resources_told(r, "cpuset.mems"@);
    lemma_resources_told(r, "pids.max"@);
}

/// The weight of processor shares: shares from 2 to 262144 are spread evenly over weights from 1 to
/// 10000, rounded down; what is outside gets the nearest weight.
pub proof fn law_weight_scale(s: u64)
    ensures
        s <= 2 ==> weight(s) == 1,
        s >= 262144 ==> weight(s) == 10000,
        2 <= s <= 262144 ==> (weight(s) - 1) * 262142 <= (s - 2) * 9999 < weight(s) * 262142,
{
    if s >= 262144 {
        assert((s - 2) * 9999 / 262142 >= 9999) by (nonlinear_arith)
            requires
                s >= 262144,
        ;
    } else if s >= 2 {
        let x: int = (s - 2) * 9999;
        let q = x / 262142;
        assert(q * 262142 <= x < (q + 1) * 262142) by (nonlinear_arith)
            requires
                q == x / 262142,
        ;
        assert(q < 10000) by (nonlinear_arith)
            requires
                q * 262142 <= x,
                x < 262142 * 9999,
        ;
        assert(x < 262142 * 9999);
    }
}

/// What the writes of the resources tell of a file, part by part.
proof fn lemma_resources_told(r: JsonView, name: Seq<char>)
    requires
        name != "io.max"@,
    ensures
        told(resource_writes(r), name) == first_of(
            told_memory(json::field(r, "memory"@), name),
            first_of(
                told_cpu(json::field(r, "cpu"@), name),
                told_pids(json::field(r, "pids"@), name),
            ),
        ),
{
    let m = memory_writes(json::field(r, "memory"@));
    let c = cpu_writes(json::field(r, "cpu"@));
    let p = pids_writes(json::field(r, "pids"@));
    let b = io_writes(json::field(r, "blockIO"@));
    lemma_told_sum(m + c + p, b, name);
    lemma_told_sum(m + c, p, name);
    lemma_told_sum(m, c, name);
    lemma_told_other(b, name);
    lemma_memory_told(json::field(r, "memory"@), name);
    lemma_cpu_told(json::field(r, "cpu"@), name);
    lemma_pids_told(json::field(r, "pids"@), name);
}

/// Writes of other files tell nothing.
proof fn lemma_told_other(w: Seq<(Seq<char>, Seq<u8>)>, name: Seq<char>)
    requires
        forall|i: int| 0 <= i < w.len() ==> (#[trigger] w[i]).0 != name,
    ensures
        told(w, name) is None,
    decreases w.len(),
{
    if w.len() > 0 {
        assert(w[0].0 != name);
        assert forall|i: int| 0 <= i < w.skip(1).len() implies (#[trigger] w.skip(1)[i]).0 != name by {
            assert(w[i + 1].0 != name);
        }
        lemma_told_other(w.skip(1), name);
    }
}

/// The first of two that is there.
spec fn first_of(a: Option<Seq<u8>>, b: Option<Seq<u8>>) -> Option<Seq<u8>> {
    if a is Some {
        a
    } else {
        b
    }
}

/// What one write tells of a file, where there is one.
spec fn told_if(there: bool, key: Seq<char>, content: Seq<char>, name: Seq<char>) -> Option<Seq<u8>> {
    if there && key == name {
        Some(encode_utf8(content))
    } else {
        None
    }
}

/// What the writes of the memory limits tell of a file.
spec fn told_memory(m: Option<JsonView>, name: Seq<char>) -> Option<Seq<u8>> {
    let limit = json::i64_at(json::at(m, "limit"@));
    let swap = json::i64_at(json::at(m, "swap"@));
    let low = json::i64_at(json::at(m, "reservation"@));
    let l = match limit {
        Some(l) => l,
        None => 0,
    };
    first_of(
        told_if(limit is Some, "memory.max"@, limit_text(limit->Some_0), name),
        first_of(
            told_if(swap is Some, "memory.swap.max"@, limit_text(swap_only(swap->Some_0, l)), name),
            told_if(low is Some, "memory.low"@, limit_text(low->Some_0), name),
        ),
    )
}

/// What the writes of the processors tell of a file.
spec fn told_cpu(c: Option<JsonView>, name: Seq<char>) -> Option<Seq<u8>> {
    let quota = json::i64_at(json::at(c, "quota"@));
    let period = json::u64_at(json::at(c, "period"@));
    let shares = json::u64_at(json::at(c, "shares"@));
    let cpus = json::text_at(json::at(c, "cpus"@));
    let mems = json::text_at(json::at(c, "mems"@));
    first_of(
        told_if(quota is Some || period is Some, "cpu.max"@, cpu_max(quota, period), name),
        first_of(
            told_if(
                shares is Some,
                "cpu.weight"@,
                text::dec(weight(shares->Some_0) as nat),
                name,
            ),
            first_of(
                told_if(cpus is Some, "cpuset.cpus"@, cpus->Some_0, name),
                told_if(mems is Some, "cpuset.mems"@, mems->Some_0, name),
            ),
        ),
    )
}

/// What the write of the number of processes tells of a file.
spec fn told_pids(p: Option<JsonView>, name: Seq<char>) -> Option<Seq<u8>> {
    let limit = json::i64_at(json::at(p, "limit"@));
    told_if(limit is Some, "pids.max"@, limit_text(limit->Some_0), name)
}

proof fn lemma_memory_told(m: Option<JsonView>, name: Seq<char>)
    ensures
        told(memory_writes(m), name) == told_memory(m, name),
{
    let limit = json::i64_at(json::at(m, "limit"@));
    let swap = json::i64_at(json::at(m, "swap"@));
    let low = json::i64_at(json::at(m, "reservation"@));
    let l = match limit {
        Some(l) => l,
        None => 0,
    };
    let a = match limit {
        Some(v) => one("memory.max"@, limit_text(v)),
        None => nothing(),
    };
    let b = match swap {
        Some(v) => one("memory.swap.max"@, limit_text(swap_only(v, l))),
        None => nothing(),
    };
    let c = match low {
        Some(v) => one("memory.low"@, limit_text(v)),
        None => nothing(),
    };
    assert(memory_writes(m) == a + b + c);
    lemma_told_sum(a + b, c, name);
    lemma_told_sum(a, b, name);
    lemma_told_one("memory.max"@, limit_text(limit->Some_0), name);
    lemma_told_one("memory.swap.max"@, limit_text(swap_only(swap->Some_0, l)), name);
    lemma_told_one("memory.low"@, limit_text(low->Some_0), name);
}

proof fn lemma_cpu_told(c: Option<JsonView>, name: Seq<char>)
    ensures
        told(cpu_writes(c), name) == told_cpu(c, name),
{
    let quota = json::i64_at(json::at(c, "quota"@));
    let period = json::u64_at(json::at(c, "period"@));
    let shares = json::u64_at(json::at(c, "shares"@));
    let cpus = json::text_at(json::at(c, "cpus"@));
    let mems = json::text_at(json::at(c, "mems"@));
    let a = if quota is Some || period is Some {
        one("cpu.max"@, cpu_max(quota, period))
    } else {
        nothing()
    };
    let b = match shares {
        Some(s) => one("cpu.weight"@, text::dec(weight(s) as nat)),
        None => nothing(),
    };
    let d = match cpus {
        Some(t) => one("cpuset.cpus"@, t),
        None => nothing(),
    };
    let e = match mems {
        Some(t) => one("cpuset.mems"@, t),
        None => nothing(),
    };
    assert(cpu_writes(c) == a + b + d + e);
    lemma_told_sum(a + b + d, e, name);
    lemma_told_sum(a + b, d, name);
    lemma_told_sum(a, b, name);
    lemma_told_one("cpu.max"@, cpu_max(quota, period), name);
    lemma_told_one("cpu.weight"@, text::dec(weight(shares->Some_0) as nat), name);
    lemma_told_one("cpuset.cpus"@, cpus->Some_0, name);
    lemma_told_one("cpuset.mems"@, mems->Some_0, name);
}

proof fn lemma_pids_told(p: Option<JsonView>, name: Seq<char>)
    ensures
        told(pids_writes(p), name) == told_pids(p, name),
{
    let limit = json::i64_at(json::at(p, "limit"@));
    lemma_told_one("pids.max"@, limit_text(limit->Some_0), name);
}

/// What the limits of a device are written as: its name, then each limit that there is, in the order
/// rbps, riops, wbps, wiops, behind its name and with a space before it, and the end of the line.
pub proof fn law_io_line_read_back(l: LimitsView)
    requires
        !text::has_char(l.dev, ' '),
    ensures
        io_line(l).len() > 0,
        io_line(l).last() == '\n',
        text::pieces(io_line(l).drop_last(), ' ') == seq![l.dev] + said("rbps="@, l.rbps) + said(
            "riops="@,
            l.riops,
        ) + said("wbps="@, l.wbps) + said("wiops="@, l.wiops),
{
    reveal_strlit("rbps");
    reveal_strlit("riops");
    reveal_strlit("wbps");
    reveal_strlit("wiops");
    reveal_strlit("rbps=");
    reveal_strlit("riops=");
    reveal_strlit("wbps=");
    reveal_strlit("wiops=");
    reveal_strlit("=");
    reveal_strlit("\n");
    let a = l.dev;
    let b = a + limit_part("rbps"@, l.rbps);
    let c = b + limit_part("riops"@, l.riops);
    let d = c + limit_part("wbps"@, l.wbps);
    let e = d + limit_part("wiops"@, l.wiops);
    assert(io_line(l) == e + "\n"@);
    assert(io_line(l).drop_last() =~= e);
    text::lemma_one_piece(a, ' ');
    assert("rbps"@ + "="@ =~= "rbps="@);
    assert("riops"@ + "="@ =~= "riops="@);
    assert("wbps"@ + "="@ =~= "wbps="@);
    assert("wiops"@ + "="@ =~= "wiops="@);
    assert(!text::has_char("rbps="@, ' '));
    assert(!text::has_char("riops="@, ' '));
    assert(!text::has_char("wbps="@, ' '));
    assert(!text::has_char("wiops="@, ' '));
    lemma_limit_said(a, "rbps"@, "rbps="@, l.rbps);
    lemma_limit_said(b, "riops"@, "riops="@, l.riops);
    lemma_limit_said(c, "wbps"@, "wbps="@, l.wbps);
    lemma_limit_said(d, "wiops"@, "wiops="@, l.wiops);
}

/// What is said of one limit: nothing, or its name and its number.
pub open spec fn said(name: Seq<char>, rate: Option<u64>) -> Seq<Seq<char>> {
    match rate {
        Some(r) => seq![name + text::dec(r as nat)],
        None => Seq::empty(),
    }
}

/// A limit behind a text is a piece of its own.
proof fn lemma_limit_said(s: Seq<char>, name: Seq<char>, head: Seq<char>, rate: Option<u64>)
    requires
        name + "="@ == head,
        !text::has_char(head, ' '),
    ensures
        text::pieces(s + limit_part(name, rate), ' ') == text::pieces(s, ' ') + said(head, rate),
{
    match rate {
        Some(r) => {
            reveal_strlit(" ");
            let tail = head + text::dec(r as nat);
            text::lemma_dec_lacks(r as nat, ' ');
            assert(!text::has_char(tail, ' ')) by {
                assert forall|i: int| 0 <= i < tail.len() implies tail[i] != ' ' by {
                    if i < head.len() {
                        assert(tail[i] == head[i]);
                    } else {
                        assert(tail[i] == text::dec(r as nat)[i - head.len()]);
                    }
                }
            }
            assert(s + limit_part(name, rate) =~= s.push(' ') + tail);
            assert(s.push(' ').drop_last() =~= s);
            let p = text::pieces(s.push(' '), ' ');
            assert(p == text::pieces(s, ' ').push(Seq::empty()));
            text::lemma_tail_split(s.push(' '), tail, ' ');
            assert(p.last() + tail =~= tail);
            assert(p.update(p.len() - 1, tail) =~= text::pieces(s, ' ') + seq![tail]);
        },
        None => {
            assert(s + limit_part(name, rate) =~= s);
            assert(text::pieces(s, ' ') + said(head, rate) =~= text::pieces(s, ' '));
        },
    }
}

/// Which limits a document sets on devices: each list its own knob, each entry that has both numbers
/// of a device and a rate.
pub proof fn law_io_entries_read(b: Option<JsonView>, key: Seq<char>, knob: Knob)
    ensures
        json::at(b, key) matches Some(JsonView::Array(a)) ==> knob_entries(b, key, knob) == a.filter(
            |x: JsonView| io_entry(x, knob) is Some,
        ).map_values(|x: JsonView| io_entry(x, knob)->Some_0),
        !(json::at(b, key) matches Some(JsonView::Array(_))) ==> knob_entries(b, key, knob).len() == 0,
        forall|x: JsonView|
            (#[trigger] io_entry(x, knob)) matches Some(e) ==> {
                &&& json::field(x, "rate"@) == Some(JsonView::UInt(e.rate))
                &&& e.knob == knob
                &&& json::field(x, "major"@) matches Some(JsonView::UInt(j)) && (json::field(
                    x,
                    "minor"@,
                ) matches Some(JsonView::UInt(n)) && e.dev == text::dec(j as nat) + ":"@ + text::dec(
                    n as nat,
                ))
            },
{
    spec::law_kept(spec::elements(json::at(b, key)), io_rule(knob));
    assert((|x: JsonView| io_entry(x, knob) is Some) =~= (|x: JsonView| io_rule(knob)(x) is Some));
    assert((|x: JsonView| io_entry(x, knob)->Some_0) =~= (|x: JsonView|
        io_rule(knob)(x)->Some_0));
}

/// The writes of the limits on devices come last, one for each device that is named, and each of the
/// four lists of limits counts.
pub proof fn law_io_writes(r: JsonView, dev: Seq<char>)
    ensures
        ({
            let w = resource_writes(r);
            let b = json::field(r, "blockIO"@);
            let g = grouped(io_entries(b));
            let rest = w.len() - g.len();
            &&& rest >= 0
            &&& forall|i: int|
                0 <= i < g.len() ==> #[trigger] w[rest + i] == ("io.max"@, encode_utf8(io_line(g[i])))
            &&& limit_in(g, dev, Knob::ReadBps) == last_rate(
                knob_entries(b, "throttleReadBpsDevice"@, Knob::ReadBps),
                dev,
                Knob::ReadBps,
            )
            &&& limit_in(g, dev, Knob::WriteBps) == last_rate(
                knob_entries(b, "throttleWriteBpsDevice"@, Knob::WriteBps),
                dev,
                Knob::WriteBps,
            )
            &&& limit_in(g, dev, Knob::ReadIops) == last_rate(
                knob_entries(b, "throttleReadIOPSDevice"@, Knob::ReadIops),
                dev,
                Knob::ReadIops,
            )
            &&& limit_in(g, dev, Knob::WriteIops) == last_rate(
                knob_entries(b, "throttleWriteIOPSDevice"@, Knob::WriteIops),
                dev,
                Knob::WriteIops,
            )
        }),
{
    let b = json::field(r, "blockIO"@);
    let es = io_entries(b);
    law_io_limits_grouped(es, dev, Knob::ReadBps);
    law_io_limits_grouped(es, dev, Knob::WriteBps);
    law_io_limits_grouped(es, dev, Knob::ReadIops);
    law_io_limits_grouped(es, dev, Knob::WriteIops);
    let rb = knob_entries(b, "throttleReadBpsDevice"@, Knob::ReadBps);
    let wb = knob_entries(b, "throttleWriteBpsDevice"@, Knob::WriteBps);
    let ri = knob_entries(b, "throttleReadIOPSDevice"@, Knob::ReadIops);
    let wi = knob_entries(b, "throttleWriteIOPSDevice"@, Knob::WriteIops);
    assert(es == rb + wb + ri + wi);
    lemma_knob_only(spec::elements(json::at(b, "throttleReadBpsDevice"@)), Knob::ReadBps);
    lemma_knob_only(spec::elements(json::at(b, "throttleWriteBpsDevice"@)), Knob::WriteBps);
    lemma_knob_only(spec::elements(json::at(b, "throttleReadIOPSDevice"@)), Knob::ReadIops);
    lemma_knob_only(spec::elements(json::at(b, "throttleWriteIOPSDevice"@)), Knob::WriteIops);
    lemma_four_rates(rb, wb, ri, wi, dev, Knob::ReadBps);
    lemma_four_rates(rb, wb, ri, wi, dev, Knob::WriteBps);
    lemma_four_rates(rb, wb, ri, wi, dev, Knob::ReadIops);
    lemma_four_rates(rb, wb, ri, wi, dev, Knob::WriteIops);
    lemma_other_rates(rb, dev, Knob::ReadBps);
    lemma_other_rates(wb, dev, Knob::WriteBps);
    lemma_other_rates(ri, dev, Knob::ReadIops);
    lemma_other_rates(wi, dev, Knob::WriteIops);
}

/// The last rate of lists one behind the other.
proof fn lemma_four_rates(
    a: Seq<IoEntry>,
    b: Seq<IoEntry>,
    c: Seq<IoEntry>,
    d: Seq<IoEntry>,
    dev: Seq<char>,
    k: Knob,
)
    ensures
        last_rate(a + b + c + d, dev, k) == (if last_rate(d, dev, k) is Some {
            last_rate(d, dev, k)
        } else if last_rate(c, dev, k) is Some {
            last_rate(c, dev, k)
        } else if last_rate(b, dev, k) is Some {
            last_rate(b, dev, k)
        } else {
            last_rate(a, dev, k)
        }),
{
    lemma_rate_sum(a + b + c, d, dev, k);
    lemma_rate_sum(a + b, c, dev, k);
    lemma_rate_sum(a, b, dev, k);
}

proof fn lemma_rate_sum(a: Seq<IoEntry>, b: Seq<IoEntry>, dev: Seq<char>, k: Knob)
    ensures
        last_rate(a + b, dev, k) == (if last_rate(b, dev, k) is Some {
            last_rate(b, dev, k)
        } else {
            last_rate(a, dev, k)
        }),
    decreases b.len(),
{
    if b.len() == 0 {
        assert(a + b =~= a);
    } else {
        assert((a + b).last() == b.last());
        assert((a + b).drop_last() =~= a + b.drop_last());
        lemma_rate_sum(a, b.drop_last(), dev, k);
    }
}

/// The entries of one list are of its knob.
proof fn lemma_knob_only(a: Seq<JsonView>, knob: Knob)
    ensures
        forall|i: int|
            0 <= i < spec::kept(a, io_rule(knob)).len() ==> (#[trigger] spec::kept(
                a,
                io_rule(knob),
            )[i]).knob == knob,
    decreases a.len(),
{
    if a.len() > 0 {
        lemma_knob_only(a.drop_last(), knob);
    }
}

/// A list of one knob has no rate of another.
proof fn lemma_other_rates(es: Seq<IoEntry>, dev: Seq<char>, knob: Knob)
    requires
        forall|i: int| 0 <= i < es.len() ==> (#[trigger] es[i]).knob == knob,
    ensures
        forall|k: Knob| k != knob ==> #[trigger] last_rate(es, dev, k) is None,
    decreases es.len(),
{
    if es.len() > 0 {
        assert(es[es.len() - 1].knob == knob);
        assert forall|i: int| 0 <= i < es.drop_last().len() implies (#[trigger] es.drop_last()[i]).knob
            == knob by {
            assert(es[i].knob == knob);
        }
        lemma_other_rates(es.drop_last(), dev, knob);
        assert forall|k: Knob| k != knob implies #[trigger] last_rate(es, dev, k) is None by {
            assert(last_rate(es.drop_last(), dev, k) is None);
        }
    }
}

/// Each container has a directory of its own below that of the cgroups.
pub proof fn law_cgroup_dirs(a: Seq<char>, b: Seq<char>)
    ensures
        "/sys/fs/cgroup/rsrun-"@.is_prefix_of(cgroup_dir(a)),
        cgroup_dir(a) == cgroup_dir(b) <==> a == b,
        cgroup_dir(a).skip("/sys/fs/cgroup/rsrun-"@.len() as int) == a,
{
    let n = "/sys/fs/cgroup/rsrun-"@.len() as int;
    assert(cgroup_dir(a).skip(n) =~= a);
    assert(cgroup_dir(b).skip(n) =~= b);
    assert("/sys/fs/cgroup/rsrun-"@.is_prefix_of(cgroup_dir(a)));
}

} // verus!
