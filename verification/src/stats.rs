//! Metrics and limits of a container that has a cgroup.

use vstd::prelude::*;
use vstd::string::*;
use vstd::utf8::*;

use crate::agent;
use crate::agent::read_number;
use crate::cgroup;
use crate::cgroup::{cpu_weight, push_write};
use crate::error::Error;
use crate::json;
use crate::json::{get_at, get_i64, get_u64, named, parse_json, render_line, Json, JsonView};
use crate::order;
use crate::plan;
use crate::text;
use crate::text::{cat2, cat3, chars_of, dec_u64, owned, parse_unsigned, split, starts_with, string_of};

verus! {

/// The message where a container has no cgroup.
pub open spec fn without_cgroup(id: Seq<char>) -> Seq<char> {
    "container "@ + id + " has no cgroup"@
}

/// A line without the carriage return at its end.
pub open spec fn without_return(line: Seq<char>) -> Seq<char> {
    if line.len() > 0 && line.last() == '\r' {
        line.drop_last()
    } else {
        line
    }
}

/// What a line of `cpu.stat` says of the time used, if it does.
pub open spec fn usage_on(line: Seq<char>) -> Option<nat> {
    let key = "usage_usec "@;
    if key.is_prefix_of(line) {
        text::unsigned_value(line.skip(key.len() as int), u64::MAX as nat)
    } else {
        None
    }
}

/// The first time that one of the lines gives, the last of which has no end; zero where none does.
pub open spec fn usage_among(lines: Seq<Seq<char>>) -> u64
    decreases lines.len(),
{
    if lines.len() == 0 {
        0
    } else {
        let line = if lines.len() == 1 {
            lines[0]
        } else {
            without_return(lines[0])
        };
        match usage_on(line) {
            Some(n) => n as u64,
            None => usage_among(lines.skip(1)),
        }
    }
}

/// The time used, in microseconds, out of the text of `cpu.stat`.
pub open spec fn usage_in(cpu_stat: Seq<char>) -> u64 {
    usage_among(text::pieces(cpu_stat, '\n'))
}

/// A line without the carriage return at its end.
fn drop_return(line: &str) -> (s: String)
    ensures
        s@ == without_return(line@),
{
    let v = chars_of(line);
    let n = v.len();
    if n > 0 && v[n - 1] == '\r' {
        let s = string_of(vstd::slice::slice_subrange(v.as_slice(), 0, n - 1));
        proof {
            assert(s@ =~= line@.drop_last());
        }
        return s;
    }
    owned(line)
}

/// What a line of `cpu.stat` says of the time used.
fn read_usage(line: &str) -> (n: Option<u64>)
    ensures
        match n {
            Some(n) => usage_on(line@) == Some(n as nat),
            None => usage_on(line@) is None,
        },
{
    if !starts_with(line, "usage_usec ") {
        return None;
    }
    let v = chars_of(line);
    proof {
        reveal_strlit("usage_usec ");
    }
    let rest = string_of(vstd::slice::slice_subrange(v.as_slice(), 11, v.len()));
    proof {
        assert(rest@ =~= line@.skip(11));
    }
    parse_unsigned(rest.as_str(), 0xffff_ffff_ffff_ffff)
}

/// The time used, in microseconds, out of the text of `cpu.stat`.
pub fn cpu_usage_usec(cpu_stat: &str) -> (n: u64)
    ensures
        n == usage_in(cpu_stat@),
{
    let lines = split(cpu_stat, '\n');
    let ghost all = text::texts(lines@);
    let mut i: usize = 0;
    proof {
        assert(all.skip(0) =~= all);
    }
    while i < lines.len()
        invariant
            i <= lines@.len(),
            all == text::texts(lines@),
            all == text::pieces(cpu_stat@, '\n'),
            usage_among(all) == usage_among(all.skip(i as int)),
        decreases lines@.len() - i,
    {
        proof {
            let rest = all.skip(i as int);
            assert(rest[0] == lines@[i as int]@);
            assert(rest.skip(1) =~= all.skip(i + 1));
        }
        let line = if i + 1 == lines.len() {
            owned(lines[i].as_str())
        } else {
            drop_return(lines[i].as_str())
        };
        if let Some(n) = read_usage(line.as_str()) {
            return n;
        }
        i += 1;
    }
    0
}

/// What the files of a cgroup hold; a file that cannot be read counts as empty.
pub struct StatsFiles {
    pub cpu_stat: String,
    pub memory_current: String,
    pub pids_current: String,
}

/// A document of one member.
pub open spec fn sole(key: Seq<char>, v: JsonView) -> JsonView {
    JsonView::Object(seq![(key, v)])
}

/// The metrics of a container.
pub open spec fn stats_data(f: StatsFiles) -> JsonView {
    JsonView::Object(
        seq![
            (
                "cpu"@,
                sole(
                    "usage"@,
                    sole("total"@, JsonView::UInt((usage_in(f.cpu_stat@) * 1000) as u64)),
                ),
            ),
            (
                "memory"@,
                sole(
                    "usage"@,
                    sole("usage"@, JsonView::UInt(agent::number_in(f.memory_current@))),
                ),
            ),
            ("pids"@, sole("current"@, JsonView::UInt(agent::number_in(f.pids_current@)))),
        ],
    )
}

/// The event that reports the metrics of a container.
pub open spec fn stats_doc(id: Seq<char>, f: StatsFiles) -> JsonView {
    JsonView::Object(
        seq![
            ("data"@, stats_data(f)),
            ("id"@, JsonView::Str(id)),
            ("type"@, JsonView::Str("stats"@)),
        ],
    )
}

/// A document of one member is as tame as its member.
proof fn lemma_sole(key: Seq<char>, v: JsonView, depth: nat)
    requires
        depth > 0,
        json::tame(v, (depth - 1) as nat),
    ensures
        json::tame(sole(key, v), depth),
{
    let m = sole(key, v)->Object_0;
    assert forall|i: int| 0 <= i < m.len() implies json::tame(
        (#[trigger] m[i]).1,
        (depth - 1) as nat,
    ) by {
    }
}

/// The keys are in order.
proof fn lemma_stats_doc(id: Seq<char>, f: StatsFiles)
    ensures
        json::tame(stats_doc(id, f), json::read_depth()),
{
    reveal_strlit("cpu");
    reveal_strlit("memory");
    reveal_strlit("pids");
    order::lemma_first_difference("cpu"@, "memory"@, 0);
    order::lemma_first_difference("memory"@, "pids"@, 0);
    reveal_strlit("data");
    reveal_strlit("id");
    reveal_strlit("type");
    order::lemma_first_difference("data"@, "id"@, 0);
    order::lemma_first_difference("id"@, "type"@, 0);
    let total = JsonView::UInt((usage_in(f.cpu_stat@) * 1000) as u64);
    lemma_sole("total"@, total, 124);
    lemma_sole("usage"@, sole("total"@, total), 125);
    let memory = JsonView::UInt(agent::number_in(f.memory_current@));
    lemma_sole("usage"@, memory, 124);
    lemma_sole("usage"@, sole("usage"@, memory), 125);
    lemma_sole("current"@, JsonView::UInt(agent::number_in(f.pids_current@)), 125);
    let inner = stats_data(f)->Object_0;
    json::lemma_adjacent_keys(inner);
    assert forall|i: int| 0 <= i < inner.len() implies json::tame((#[trigger] inner[i]).1, 125) by {
    }
    assert(json::tame(stats_data(f), 126));
    let m = stats_doc(id, f)->Object_0;
    json::lemma_adjacent_keys(m);
    assert forall|i: int| 0 <= i < m.len() implies json::tame((#[trigger] m[i]).1, 126) by {
    }
}

/// A document of one member.
fn sole_doc(key: &str, v: Json) -> (d: Json)
    ensures
        d@ == sole(key@, v@),
{
    let d = Json::Object(vec![named(key, v)]);
    proof {
        assert(d@->Object_0 =~= sole(key@, v@)->Object_0);
    }
    d
}

/// The line that reports the metrics of a container.
pub fn render_stats_json(id: &str, f: &StatsFiles) -> (b: Vec<u8>)
    requires
        usage_in(f.cpu_stat@) * 1000 <= u64::MAX,
    ensures
        b@ == json::rendered(stats_doc(id@, *f)) + seq![10u8],
        json::reads_as(b@.drop_last(), stats_doc(id@, *f)),
{
    let usec = cpu_usage_usec(f.cpu_stat.as_str());
    let memory = read_number(f.memory_current.as_str());
    let pids = read_number(f.pids_current.as_str());
    let data = Json::Object(
        vec![
            named("cpu", sole_doc("usage", sole_doc("total", Json::UInt(usec * 1000)))),
            named("memory", sole_doc("usage", sole_doc("usage", Json::UInt(memory)))),
            named("pids", sole_doc("current", Json::UInt(pids))),
        ],
    );
    proof {
        assert(data@->Object_0 =~= stats_data(*f)->Object_0);
    }
    let doc = Json::Object(
        vec![
            named("data", data),
            named("id", Json::Str(owned(id))),
            named("type", Json::Str(owned("stats"))),
        ],
    );
    proof {
        assert(doc@->Object_0 =~= stats_doc(id@, *f)->Object_0);
        lemma_stats_doc(id@, *f);
    }
    render_line(&doc)
}

/// What is answered to a question for the metrics of a container: one line with the event, or that
/// it has no cgroup.
pub open spec fn stats_answer(
    id: Seq<char>,
    has_cgroup: bool,
    f: StatsFiles,
    r: Result<Vec<u8>, Error>,
) -> bool {
    match r {
        Ok(b) => {
            &&& has_cgroup
            &&& b@ == json::rendered(stats_doc(id, f)) + seq![10u8]
            &&& json::reads_as(b@.drop_last(), stats_doc(id, f))
        },
        Err(e) => !has_cgroup && e@ == without_cgroup(id),
    }
}

/// The metrics of a container are those of one event: both are answered the same.
pub proof fn law_stats_is_one_event(
    id: Seq<char>,
    has_cgroup: bool,
    f: StatsFiles,
    stats: Result<Vec<u8>, Error>,
    event: Result<Vec<u8>, Error>,
)
    requires
        stats_answer(id, has_cgroup, f, stats),
        stats_answer(id, has_cgroup, f, event),
    ensures
        stats is Ok == event is Ok,
        stats is Ok ==> (stats->Ok_0)@ == (event->Ok_0)@,
        stats is Err ==> (stats->Err_0)@ == (event->Err_0)@,
{
}

/// A metric whose file cannot be read counts as zero.
pub proof fn law_missing_metric_is_zero(f: StatsFiles)
    ensures
        f.cpu_stat@.len() == 0 ==> usage_in(f.cpu_stat@) == 0,
        f.memory_current@.len() == 0 ==> agent::number_in(f.memory_current@) == 0,
        f.pids_current@.len() == 0 ==> agent::number_in(f.pids_current@) == 0,
{
    reveal_strlit("usage_usec ");
    reveal_with_fuel(usage_among, 2);
}

/// One event of a container: the line with its metrics.
pub fn cmd_events(id: &str, has_cgroup: bool, f: &StatsFiles) -> (r: Result<Vec<u8>, Error>)
    requires
        has_cgroup ==> usage_in(f.cpu_stat@) * 1000 <= u64::MAX,
    ensures
        stats_answer(id@, has_cgroup, *f, r),
{
    if !has_cgroup {
        return Err(Error::new(cat3("container ", id, " has no cgroup")));
    }
    Ok(render_stats_json(id, f))
}

/// The metrics of a container, once.
pub fn cmd_stats(id: &str, has_cgroup: bool, f: &StatsFiles) -> (r: Result<Vec<u8>, Error>)
    requires
        has_cgroup ==> usage_in(f.cpu_stat@) * 1000 <= u64::MAX,
    ensures
        stats_answer(id@, has_cgroup, *f, r),
{
    cmd_events(id, has_cgroup, f)
}

/// A limit on a line; below zero there is none.
pub open spec fn limit_line(n: i64) -> Seq<char> {
    if n < 0 {
        "max\n"@
    } else {
        text::dec(n as nat) + "\n"@
    }
}

/// The changes of the memory limits.
pub open spec fn memory_updates(m: Option<JsonView>) -> Seq<(Seq<char>, Seq<u8>)> {
    let limit = json::i64_at(json::at(m, "limit"@));
    (match limit {
        Some(n) => cgroup::one("memory.max"@, limit_line(n)),
        None => cgroup::nothing(),
    }) + (match json::i64_at(json::at(m, "swap"@)) {
        Some(n) => cgroup::one(
            "memory.swap.max"@,
            limit_line(
                cgroup::swap_only(
                    n,
                    match limit {
                        Some(l) => l,
                        None => 0,
                    },
                ),
            ),
        ),
        None => cgroup::nothing(),
    })
}

/// The line of `cpu.max`.
pub open spec fn cpu_line(quota: Option<i64>, period: Option<u64>) -> Seq<char> {
    (match quota {
        Some(n) => if n < 0 {
            "max"@
        } else {
            text::dec(n as nat)
        },
        None => "max"@,
    }) + " "@ + text::dec(
        (match period {
            Some(p) => p,
            None => 100000,
        }) as nat,
    ) + "\n"@
}

/// The changes of the processor limits. As for a new container, the weight is one of 1 to 10000: more
/// shares than 262144 weigh no more.
pub open spec fn cpu_updates(c: Option<JsonView>) -> Seq<(Seq<char>, Seq<u8>)> {
    let quota = json::i64_at(json::at(c, "quota"@));
    let period = json::u64_at(json::at(c, "period"@));
    (if quota is Some || period is Some {
        cgroup::one("cpu.max"@, cpu_line(quota, period))
    } else {
        cgroup::nothing()
    }) + (match json::u64_at(json::at(c, "shares"@)) {
        Some(s) => cgroup::one("cpu.weight"@, text::dec(cgroup::weight(s) as nat) + "\n"@),
        None => cgroup::nothing(),
    })
}

/// The changes of the process limit.
pub open spec fn pids_updates(p: Option<JsonView>) -> Seq<(Seq<char>, Seq<u8>)> {
    match json::i64_at(json::at(p, "limit"@)) {
        Some(n) => cgroup::one("pids.max"@, limit_line(n)),
        None => cgroup::nothing(),
    }
}

/// The files to write, and what, for new limits.
pub open spec fn updates(r: JsonView) -> Seq<(Seq<char>, Seq<u8>)> {
    memory_updates(json::field(r, "memory"@)) + cpu_updates(json::field(r, "cpu"@)) + pids_updates(
        json::field(r, "pids"@),
    )
}

/// A limit on a line.
fn limit_text(n: i64) -> (s: String)
    ensures
        s@ == limit_line(n),
{
    if n < 0 {
        owned("max\n")
    } else {
        cat2(dec_u64(n as u64).as_str(), "\n")
    }
}

/// Adds the changes of the memory limits.
fn update_memory(out: &mut Vec<(String, Vec<u8>)>, m: Option<&Json>)
    ensures
        plan::write_views(final(out)@) == plan::write_views(old(out)@) + memory_updates(
            json::opt_view(m),
        ),
{
    let ghost was = plan::write_views(out@);
    let limit = get_i64(get_at(m, "limit"));
    if let Some(n) = limit {
        push_write(out, "memory.max", limit_text(n).as_str());
    }
    if let Some(swap) = get_i64(get_at(m, "swap")) {
        let mem: i64 = match limit {
            Some(l) => l,
            None => 0,
        };
        let only: i64 = if mem > 0 && swap >= mem {
            swap - mem
        } else {
            swap
        };
        push_write(out, "memory.swap.max", limit_text(only).as_str());
    }
    proof {
        assert(plan::write_views(out@) =~= was + memory_updates(json::opt_view(m)));
    }
}

/// Adds the changes of the processor limits.
fn update_cpu(out: &mut Vec<(String, Vec<u8>)>, c: Option<&Json>)
    ensures
        plan::write_views(final(out)@) == plan::write_views(old(out)@) + cpu_updates(
            json::opt_view(c),
        ),
{
    let ghost was = plan::write_views(out@);
    let quota = get_i64(get_at(c, "quota"));
    let period = get_u64(get_at(c, "period"));
    if quota.is_some() || period.is_some() {
        let mut t = match quota {
            Some(n) => if n < 0 {
                owned("max")
            } else {
                dec_u64(n as u64)
            },
            None => owned("max"),
        };
        let p: u64 = match period {
            Some(p) => p,
            None => 100000,
        };
        t.append(" ");
        let d = dec_u64(p);
        t.append(d.as_str());
        t.append("\n");
        push_write(out, "cpu.max", t.as_str());
    }
    if let Some(s) = get_u64(get_at(c, "shares")) {
        proof {
            cgroup::law_cpu_weight(s, s);
        }
        push_write(out, "cpu.weight", cat2(dec_u64(cpu_weight(s)).as_str(), "\n").as_str());
    }
    proof {
        assert(plan::write_views(out@) =~= was + cpu_updates(json::opt_view(c)));
    }
}

/// The files to write, and what, for new limits.
pub fn compile_resources_to_writes(r: &Json) -> (w: Vec<(String, Vec<u8>)>)
    ensures
        plan::write_views(w@) == updates(r@),
{
    let mut w: Vec<(String, Vec<u8>)> = Vec::new();
    proof {
        assert(plan::write_views(w@) =~= cgroup::nothing());
    }
    update_memory(&mut w, r.get("memory"));
    update_cpu(&mut w, r.get("cpu"));
    let ghost before = plan::write_views(w@);
    if let Some(n) = get_i64(get_at(r.get("pids"), "limit")) {
        push_write(&mut w, "pids.max", limit_text(n).as_str());
    }
    proof {
        assert(plan::write_views(w@) =~= before + pids_updates(json::field(r@, "pids"@)));
        assert(plan::write_views(w@) =~= updates(r@));
    }
    w
}

/// The files of its cgroup to write, and what, to give a container new limits, out of the JSON text
/// of the limits.
pub fn cmd_update(id: &str, bytes: &[u8], has_cgroup: bool) -> (r: Result<
    Vec<(String, Vec<u8>)>,
    Error,
>)
    ensures
        match json::json_text(bytes@) {
            Err(why) => r is Err && (r->Err_0)@ == why,
            Ok(v) => if has_cgroup {
                r is Ok && plan::write_views((r->Ok_0)@) == updates(v)
            } else {
                r is Err && (r->Err_0)@ == without_cgroup(id@)
            },
        },
        r is Err ==> (r->Err_0).kind == json::fault_kind(bytes@),
{
    let v = match parse_json(bytes) {
        Ok(v) => v,
        Err(e) => {
            return Err(e);
        },
    };
    if !has_cgroup {
        return Err(Error::new(cat3("container ", id, " has no cgroup")));
    }
    Ok(compile_resources_to_writes(&v))
}

/// Every change is to one of the five files that hold these limits, and each file is changed at most
/// once.
pub proof fn law_updates_in_place(r: JsonView, i: int, k: int)
    requires
        0 <= i < updates(r).len(),
        0 <= k < updates(r).len(),
    ensures
        seq!["memory.max"@, "memory.swap.max"@, "cpu.max"@, "cpu.weight"@, "pids.max"@].contains(
            updates(r)[i].0,
        ),
        i != k ==> updates(r)[i].0 != updates(r)[k].0,
{
    let names = seq!["memory.max"@, "memory.swap.max"@, "cpu.max"@, "cpu.weight"@, "pids.max"@];
    reveal_strlit("memory.max");
    reveal_strlit("memory.swap.max");
    reveal_strlit("cpu.max");
    reveal_strlit("cpu.weight");
    reveal_strlit("pids.max");
    assert(names[0] == "memory.max"@ && names[1] == "memory.swap.max"@ && names[2] == "cpu.max"@
        && names[3] == "cpu.weight"@ && names[4] == "pids.max"@);
    assert("memory.max"@.len() == 10 && "memory.swap.max"@.len() == 15 && "cpu.max"@.len() == 7
        && "cpu.weight"@.len() == 10 && "pids.max"@.len() == 8);
    assert("memory.max"@[0] != "cpu.weight"@[0]);
}

/// The words by which systemd is asked for a scope for a container.
pub open spec fn scope_words(id: Seq<char>) -> Seq<Seq<char>> {
    seq![
        "systemd-run"@,
        "--no-block"@,
        "--scope"@,
        "--unit"@,
        "rsrun-"@ + id + ".scope"@,
        "--description"@,
        "rsrun container"@,
        "--slice"@,
        "rsrun.slice"@,
        "true"@,
    ]
}

/// The words by which systemd is asked for a scope for a container.
pub fn systemd_create_scope(id: &str) -> (v: Vec<String>)
    ensures
        text::texts(v@) == scope_words(id@),
{
    let v = vec![
        owned("systemd-run"),
        owned("--no-block"),
        owned("--scope"),
        owned("--unit"),
        cat3("rsrun-", id, ".scope"),
        owned("--description"),
        owned("rsrun container"),
        owned("--slice"),
        owned("rsrun.slice"),
        owned("true"),
    ];
    proof {
        assert(text::texts(v@) =~= scope_words(id@));
    }
    v
}

/// What the report on a container says, read back: its id, and the processor time in nanoseconds, the
/// memory and the processes, each in its place.
pub proof fn law_stats_read_back(id: Seq<char>, f: StatsFiles)
    requires
        usage_in(f.cpu_stat@) * 1000 <= u64::MAX,
    ensures
        ({
            let d = stats_doc(id, f);
            let data = json::field(d, "data"@);
            let cpu = json::at(json::at(json::at(data, "cpu"@), "usage"@), "total"@);
            let memory = json::at(json::at(json::at(data, "memory"@), "usage"@), "usage"@);
            let pids = json::at(json::at(data, "pids"@), "current"@);
            &&& json::field(d, "id"@) == Some(JsonView::Str(id))
            &&& json::field(d, "type"@) == Some(JsonView::Str("stats"@))
            &&& cpu matches Some(JsonView::UInt(n)) && n == 1000 * usage_in(f.cpu_stat@)
            &&& memory == Some(JsonView::UInt(agent::number_in(f.memory_current@)))
            &&& pids == Some(JsonView::UInt(agent::number_in(f.pids_current@)))
        }),
{
    lemma_stats_doc(id, f);
    let m = stats_doc(id, f)->Object_0;
    json::lemma_members_at(m);
    assert(m[0].0 == "data"@);
    assert(m[1].0 == "id"@);
    assert(m[2].0 == "type"@);
    assert(json::tame(m[0].1, 126));
    let n = stats_data(f)->Object_0;
    json::lemma_members_at(n);
    assert(n[0].0 == "cpu"@);
    assert(n[1].0 == "memory"@);
    assert(n[2].0 == "pids"@);
    lemma_sole_field("total"@, JsonView::UInt((usage_in(f.cpu_stat@) * 1000) as u64));
    lemma_sole_field(
        "usage"@,
        sole("total"@, JsonView::UInt((usage_in(f.cpu_stat@) * 1000) as u64)),
    );
    lemma_sole_field("usage"@, JsonView::UInt(agent::number_in(f.memory_current@)));
    lemma_sole_field(
        "usage"@,
        sole("usage"@, JsonView::UInt(agent::number_in(f.memory_current@))),
    );
    lemma_sole_field("current"@, JsonView::UInt(agent::number_in(f.pids_current@)));
}

/// The only member of a document.
proof fn lemma_sole_field(key: Seq<char>, v: JsonView)
    ensures
        json::field(sole(key, v), key) == Some(v),
{
    assert(sole(key, v)->Object_0[0] == (key, v));
}

/// The processor time is that of the first line that gives it, in microseconds; where none does it
/// is zero.
pub proof fn law_first_usage_counts(lines: Seq<Seq<char>>, k: int)
    requires
        0 <= k <= lines.len(),
        forall|i: int| 0 <= i < k ==> usage_on(without_return(#[trigger] lines[i])) is None
            && usage_on(lines[i]) is None,
    ensures
        k == lines.len() ==> usage_among(lines) == 0,
        k < lines.len() - 1 ==> (usage_on(without_return(lines[k])) matches Some(n) ==> usage_among(
            lines,
        ) == n as u64),
        k == lines.len() - 1 ==> (usage_on(lines[k]) matches Some(n) ==> usage_among(lines)
            == n as u64),
    decreases k,
{
    if k > 0 {
        let rest = lines.skip(1);
        assert(lines[0] == lines[0]);
        assert forall|i: int| 0 <= i < k - 1 implies usage_on(without_return(#[trigger] rest[i])) is None
            && usage_on(rest[i]) is None by {
            assert(rest[i] == lines[i + 1]);
        }
        law_first_usage_counts(rest, k - 1);
        if k < lines.len() {
            assert(rest[k - 1] == lines[k]);
        }
    }
}

/// A line gives the time where it is `usage_usec`, a space and a number.
pub proof fn law_usage_line(n: u64, line: Seq<char>)
    ensures
        usage_on("usage_usec "@ + text::dec(n as nat)) == Some(n as nat),
        usage_on(line) is Some ==> "usage_usec "@.is_prefix_of(line),
{
    let key = "usage_usec "@;
    let line = key + text::dec(n as nat);
    assert(line.skip(key.len() as int) =~= text::dec(n as nat));
    assert(key.is_prefix_of(line));
    text::law_decimal_round_trip(n);
}

/// What a limit is updated to: no limit where it is negative, else the number.
pub open spec fn as_update(n: int) -> Option<Seq<u8>> {
    Some(
        encode_utf8(
            if n < 0 {
                "max\n"@
            } else {
                text::dec(n as nat) + "\n"@
            },
        ),
    )
}

/// What an update writes: each limit that it names, under its own file, and nothing of the others.
pub proof fn law_update_values(r: JsonView)
    ensures
        ({
            let w = updates(r);
            let m = json::field(r, "memory"@);
            let c = json::field(r, "cpu"@);
            let limit = json::i64_at(json::at(m, "limit"@));
            let swap = json::i64_at(json::at(m, "swap"@));
            let quota = json::i64_at(json::at(c, "quota"@));
            let period = json::u64_at(json::at(c, "period"@));
            let shares = json::u64_at(json::at(c, "shares"@));
            let pids = json::i64_at(json::at(json::field(r, "pids"@), "limit"@));
            let width = match period {
                Some(p) => p,
                None => 100000u64,
            };
            &&& cgroup::told(w, "memory.max"@) is Some == limit is Some
            &&& limit matches Some(n) ==> cgroup::told(w, "memory.max"@) == as_update(n as int)
            &&& cgroup::told(w, "memory.swap.max"@) is Some == swap is Some
            &&& swap matches Some(s) ==> (limit matches Some(n) ==> (0 < n <= s ==> cgroup::told(
                w,
                "memory.swap.max"@,
            ) == as_update(s - n)))
            &&& swap matches Some(s) ==> (limit is None || limit->Some_0 <= 0 || limit->Some_0 > s
                ==> cgroup::told(w, "memory.swap.max"@) == as_update(s as int))
            &&& cgroup::told(w, "cpu.max"@) is None <==> quota is None && period is None
            &&& quota matches Some(q) ==> (q >= 0 ==> cgroup::told(w, "cpu.max"@) == Some(
                encode_utf8(text::dec(q as nat) + " "@ + text::dec(width as nat) + "\n"@),
            ))
            &&& (quota is None && period is Some) || (quota is Some && quota->Some_0 < 0)
                ==> cgroup::told(w, "cpu.max"@) == Some(
                encode_utf8("max"@ + " "@ + text::dec(width as nat) + "\n"@),
            )
            &&& cgroup::told(w, "cpu.weight"@) is Some == shares is Some
            &&& shares matches Some(s) ==> cgroup::told(w, "cpu.weight"@) == Some(
                encode_utf8(text::dec(cgroup::weight(s) as nat) + "\n"@),
            )
            &&& cgroup::told(w, "pids.max"@) is Some == pids is Some
            &&& pids matches Some(n) ==> cgroup::told(w, "pids.max"@) == as_update(n as int)
        }),
{
    reveal_strlit("memory.max");
    reveal_strlit("memory.swap.max");
    reveal_strlit("cpu.max");
    reveal_strlit("cpu.weight");
    reveal_strlit("pids.max");
    assert("memory.max"@.len() == 10);
    assert("memory.swap.max"@.len() == 15);
    assert("cpu.max"@.len() == 7);
    assert("cpu.weight"@.len() == 10);
    assert("pids.max"@.len() == 8);
    assert("memory.max"@[0] == 'm');
    assert("cpu.weight"@[0] == 'c');
    lemma_updates_told(r, "memory.max"@);
    lemma_updates_told(r, "memory.swap.max"@);
    lemma_updates_told(r, "cpu.max"@);
    lemma_updates_told(r, "cpu.weight"@);
    lemma_updates_told(r, "pids.max"@);
}

/// What one write tells of a file, where there is one.
spec fn told_if(there: bool, key: Seq<char>, content: Seq<char>, name: Seq<char>) -> Option<Seq<u8>> {
    if there && key == name {
        Some(encode_utf8(content))
    } else {
        None
    }
}

/// The first of two that is there.
spec fn first_of(a: Option<Seq<u8>>, b: Option<Seq<u8>>) -> Option<Seq<u8>> {
    if a is Some {
        a
    } else {
        b
    }
}

/// What an update tells of a file, part by part.
proof fn lemma_updates_told(r: JsonView, name: Seq<char>)
    ensures
        ({
            let m = json::field(r, "memory"@);
            let c = json::field(r, "cpu"@);
            let limit = json::i64_at(json::at(m, "limit"@));
            let swap = json::i64_at(json::at(m, "swap"@));
            let quota = json::i64_at(json::at(c, "quota"@));
            let period = json::u64_at(json::at(c, "period"@));
            let shares = json::u64_at(json::at(c, "shares"@));
            let pids = json::i64_at(json::at(json::field(r, "pids"@), "limit"@));
            let l = match limit {
                Some(l) => l,
                None => 0,
            };
            cgroup::told(updates(r), name) == first_of(
                told_if(limit is Some, "memory.max"@, limit_line(limit->Some_0), name),
                first_of(
                    told_if(
                        swap is Some,
                        "memory.swap.max"@,
                        limit_line(cgroup::swap_only(swap->Some_0, l)),
                        name,
                    ),
                    first_of(
                        told_if(
                            quota is Some || period is Some,
                            "cpu.max"@,
                            cpu_line(quota, period),
                            name,
                        ),
                        first_of(
                            told_if(
                                shares is Some,
                                "cpu.weight"@,
                                text::dec(cgroup::weight(shares->Some_0) as nat) + "\n"@,
                                name,
                            ),
                            told_if(pids is Some, "pids.max"@, limit_line(pids->Some_0), name),
                        ),
                    ),
                ),
            )
        }),
{
    let m = json::field(r, "memory"@);
    let c = json::field(r, "cpu"@);
    let limit = json::i64_at(json::at(m, "limit"@));
    let swap = json::i64_at(json::at(m, "swap"@));
    let quota = json::i64_at(json::at(c, "quota"@));
    let period = json::u64_at(json::at(c, "period"@));
    let shares = json::u64_at(json::at(c, "shares"@));
    let pids = json::i64_at(json::at(json::field(r, "pids"@), "limit"@));
    let l = match limit {
        Some(l) => l,
        None => 0,
    };
    let a = match limit {
        Some(n) => cgroup::one("memory.max"@, limit_line(n)),
        None => cgroup::nothing(),
    };
    let b = match swap {
        Some(n) => cgroup::one("memory.swap.max"@, limit_line(cgroup::swap_only(n, l))),
        None => cgroup::nothing(),
    };
    let d = if quota is Some || period is Some {
        cgroup::one("cpu.max"@, cpu_line(quota, period))
    } else {
        cgroup::nothing()
    };
    let e = match shares {
        Some(s) => cgroup::one("cpu.weight"@, text::dec(cgroup::weight(s) as nat) + "\n"@),
        None => cgroup::nothing(),
    };
    let p = pids_updates(json::field(r, "pids"@));
    assert(memory_updates(m) == a + b);
    assert(cpu_updates(c) == d + e);
    cgroup::lemma_told_sum((a + b) + (d + e), p, name);
    cgroup::lemma_told_sum(a + b, d + e, name);
    cgroup::lemma_told_sum(a, b, name);
    cgroup::lemma_told_sum(d, e, name);
    cgroup::lemma_told_one("memory.max"@, limit_line(limit->Some_0), name);
    cgroup::lemma_told_one(
        "memory.swap.max"@,
        limit_line(cgroup::swap_only(swap->Some_0, l)),
        name,
    );
    cgroup::lemma_told_one("cpu.max"@, cpu_line(quota, period), name);
    cgroup::lemma_told_one(
        "cpu.weight"@,
        text::dec(cgroup::weight(shares->Some_0) as nat) + "\n"@,
        name,
    );
    cgroup::lemma_told_one("pids.max"@, limit_line(pids->Some_0), name);
}

/// The scope of a container is a unit of its own in the slice of all, and starts nothing.
pub proof fn law_scope_words(id: Seq<char>)
    ensures
        ({
            let w = scope_words(id);
            &&& w.len() == 10
            &&& w[0] == "systemd-run"@
            &&& w.contains("--no-block"@)
            &&& w.contains("--scope"@)
            &&& exists|i: int|
                0 <= i < w.len() - 1 && w[i] == "--unit"@ && #[trigger] w[i + 1] == "rsrun-"@ + id
                    + ".scope"@
            &&& exists|i: int|
                0 <= i < w.len() - 1 && w[i] == "--slice"@ && #[trigger] w[i + 1] == "rsrun.slice"@
            &&& w.last() == "true"@
        }),
{
    let w = scope_words(id);
    assert(w[1] == "--no-block"@);
    assert(w[2] == "--scope"@);
    assert(w[3] == "--unit"@ && w[3int + 1] == "rsrun-"@ + id + ".scope"@);
    assert(w[7] == "--slice"@ && w[7int + 1] == "rsrun.slice"@);
}

} // verus!
