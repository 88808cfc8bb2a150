//! The state kept for a container, below a directory of its own.

use vstd::prelude::*;
use vstd::string::*;
use vstd::utf8::*;

use crate::error::{Error, ErrorKind};
use crate::json;
use crate::json::{
    get_i64_or, get_text, get_text_or, named, parse_json, render_json, render_members, set_member, Json,
    JsonView,
};
use crate::path;
use crate::path::join;
use crate::text;
use crate::text::{cat2, chars_of, dec_u64, owned, parse_i32, trim};

verus! {

/// Where the state of a container is.
pub struct ContainerPaths {
    pub root: String,
}

/// What decides where the state of all containers is.
pub struct RootEnv {
    /// The directory asked for, if any.
    pub rsrun_root: Option<String>,
    pub euid: u32,
    /// The directory for files of the user's session, if there is one.
    pub xdg_runtime_dir: Option<String>,
}

/// The directory of the state of all containers.
pub open spec fn root_dir(env: RootEnv) -> Seq<char> {
    match env.rsrun_root {
        Some(r) => r@,
        None => if env.euid == 0 {
            "/run/rsrun"@
        } else {
            match env.xdg_runtime_dir {
                Some(x) => path::joined(x@, "rsrun"@),
                None => "/tmp/rsrun-"@ + text::dec(env.euid as nat),
            }
        },
    }
}

/// The directory of the state of all containers.
pub fn runtime_root_dir(env: &RootEnv) -> (r: String)
    ensures
        r@ == root_dir(*env),
{
    match &env.rsrun_root {
        Some(r) => r.clone(),
        None => if env.euid == 0 {
            owned("/run/rsrun")
        } else {
            match &env.xdg_runtime_dir {
                Some(x) => join(x.as_str(), "rsrun"),
                None => cat2("/tmp/rsrun-", dec_u64(env.euid as u64).as_str()),
            }
        },
    }
}

impl ContainerPaths {
    /// The state of the container `id`.
    pub fn for_id(id: &str, env: &RootEnv) -> (p: ContainerPaths)
        ensures
            p.root@ == path::joined(root_dir(*env), id@),
    {
        let root = runtime_root_dir(env);
        ContainerPaths { root: join(root.as_str(), id) }
    }

    /// The pipe on which the init process waits for `start`.
    pub fn fifo(&self) -> (p: String)
        ensures
            p@ == path::joined(self.root@, "init.fifo"@),
    {
        join(self.root.as_str(), "init.fifo")
    }

    /// The file with the pid of the init process.
    pub fn pid_file(&self) -> (p: String)
        ensures
            p@ == path::joined(self.root@, "init.pid"@),
    {
        join(self.root.as_str(), "init.pid")
    }

    /// The file with the OCI state.
    pub fn state_file(&self) -> (p: String)
        ensures
            p@ == path::joined(self.root@, "state.json"@),
    {
        join(self.root.as_str(), "state.json")
    }
}

/// A signed number as JSON.
pub open spec fn int_json(n: int) -> JsonView {
    if n < 0 {
        JsonView::NegInt(n as i64)
    } else {
        JsonView::UInt(n as u64)
    }
}

/// A text that may be missing, as JSON.
pub open spec fn opt_text_json(t: Option<Seq<char>>) -> JsonView {
    match t {
        Some(t) => JsonView::Str(t),
        None => JsonView::Null,
    }
}

/// The members of the state file.
pub open spec fn state_members(
    id: Seq<char>,
    pid: i32,
    bundle: Seq<char>,
    status: Seq<char>,
    comm_hint: Option<Seq<char>>,
) -> Seq<(Seq<char>, JsonView)> {
    seq![
        ("ociVersion"@, JsonView::Str("1.0.2"@)),
        ("id"@, JsonView::Str(id)),
        ("status"@, JsonView::Str(status)),
        ("pid"@, int_json(pid as int)),
        ("bundle"@, JsonView::Str(bundle)),
        ("annotations"@, JsonView::Object(Seq::empty())),
        ("commHint"@, opt_text_json(comm_hint)),
    ]
}

/// The text of the state file.
pub open spec fn state_text(
    id: Seq<char>,
    pid: i32,
    bundle: Seq<char>,
    status: Seq<char>,
    comm_hint: Option<Seq<char>>,
) -> Seq<u8> {
    json::object_text(state_members(id, pid, bundle, status, comm_hint))
}

/// Signed numbers as JSON.
pub fn int_to_json(n: i64) -> (j: Json)
    ensures
        j@ == int_json(n as int),
{
    if n < 0 {
        Json::NegInt(n)
    } else {
        Json::UInt(n as u64)
    }
}

/// Texts that may be missing, as JSON.
pub fn opt_text_to_json(t: Option<&str>) -> (j: Json)
    ensures
        j@ == opt_text_json(
            match t {
                Some(t) => Some(t@),
                None => None,
            },
        ),
{
    match t {
        Some(t) => Json::Str(owned(t)),
        None => Json::Null,
    }
}

/// The bytes of the state file.
pub fn write_state(
    id: &str,
    pid: i32,
    bundle: &str,
    status: &str,
    comm_hint: Option<&str>,
) -> (b: Vec<u8>)
    ensures
        b@ == state_text(
            id@,
            pid,
            bundle@,
            status@,
            match comm_hint {
                Some(c) => Some(c@),
                None => None,
            },
        ),
{
    let no_annotations = Json::Object(Vec::new());
    proof {
        assert(no_annotations@->Object_0 =~= Seq::empty());
    }
    let m = vec![
        named("ociVersion", Json::Str(owned("1.0.2"))),
        named("id", Json::Str(owned(id))),
        named("status", Json::Str(owned(status))),
        named("pid", int_to_json(pid as i64)),
        named("bundle", Json::Str(owned(bundle))),
        named("annotations", no_annotations),
        named("commHint", opt_text_to_json(comm_hint)),
    ];
    let b = render_members(&m);
    proof {
        assert(json::member_views(m@) =~= state_members(
            id@,
            pid,
            bundle@,
            status@,
            match comm_hint {
                Some(c) => Some(c@),
                None => None,
            },
        ));
    }
    b
}

/// The members of the state file are plain, under different keys.
pub proof fn lemma_state_members_plain(
    id: Seq<char>,
    pid: i32,
    bundle: Seq<char>,
    status: Seq<char>,
    comm_hint: Option<Seq<char>>,
)
    ensures
        json::plain_members(state_members(id, pid, bundle, status, comm_hint)),
{
    reveal_strlit("ociVersion");
    reveal_strlit("id");
    reveal_strlit("status");
    reveal_strlit("pid");
    reveal_strlit("bundle");
    reveal_strlit("annotations");
    reveal_strlit("commHint");
    let m = state_members(id, pid, bundle, status, comm_hint);
    assert("bundle"@[0] == 'b' && "status"@[0] == 's');
    assert forall|i: int, j: int| 0 <= i < j < m.len() implies #[trigger] m[i].0
        != #[trigger] m[j].0 by {
        assert(m[0].0.len() == 10 && m[1].0.len() == 2 && m[2].0.len() == 6 && m[3].0.len() == 3
            && m[4].0.len() == 6 && m[5].0.len() == 11 && m[6].0.len() == 8);
        assert(m[2].0[0] != m[4].0[0]);
    }
}

/// What is wrong with the text of a pid file, if anything.
pub open spec fn pid_fault(s: Seq<char>) -> Option<Seq<char>> {
    let t = text::trimmed(s);
    if text::i32_value(t) is Some {
        None
    } else if t.len() == 0 {
        Some("bad pid file: cannot parse integer from empty string"@)
    } else if t[0] == '-' && text::is_digits(t.skip(1)) {
        Some("bad pid file: number too small to fit in target type"@)
    } else if t[0] != '-' && text::is_digits(text::unsigned_digits(t)) {
        Some("bad pid file: number too large to fit in target type"@)
    } else {
        Some("bad pid file: invalid digit found in string"@)
    }
}

/// Whether `v[from..]` is a run of digits.
fn digits_from(v: &Vec<char>, from: usize) -> (r: bool)
    requires
        from <= v.len(),
    ensures
        r == text::is_digits(v@.skip(from as int)),
{
    let ghost d = v@.skip(from as int);
    let mut i: usize = from;
    while i < v.len()
        invariant
            from <= i <= v.len(),
            d == v@.skip(from as int),
            forall|k: int| 0 <= k < i - from ==> '0' <= #[trigger] d[k] <= '9',
        decreases v.len() - i,
    {
        if v[i] < '0' || v[i] > '9' {
            assert(d[i - from] == v@[i as int]);
            return false;
        }
        i = i + 1;
    }
    v.len() > from
}

/// The error for a pid file that holds no pid.
fn bad_pid(msg: &str) -> (e: Error)
    ensures
        e@ == msg@,
        e.kind == ErrorKind::InvalidData,
{
    Error::of_kind(ErrorKind::InvalidData, owned(msg))
}

/// The pid in the text of a pid file.
pub fn read_pid(s: &str) -> (r: Result<i32, Error>)
    ensures
        match r {
            Ok(n) => text::i32_value(text::trimmed(s@)) == Some(n as int),
            Err(e) => pid_fault(s@) == Some(e@) && e.kind == ErrorKind::InvalidData,
        },
{
    let t = trim(s);
    if let Some(n) = parse_i32(t) {
        return Ok(n);
    }
    let v = chars_of(t);
    if v.len() == 0 {
        return Err(bad_pid("bad pid file: cannot parse integer from empty string"));
    }
    if v[0] == '-' {
        if digits_from(&v, 1) {
            return Err(bad_pid("bad pid file: number too small to fit in target type"));
        }
    } else if v[0] == '+' {
        if digits_from(&v, 1) {
            return Err(bad_pid("bad pid file: number too large to fit in target type"));
        }
    } else {
        proof {
            assert(v@.skip(0) =~= t@);
        }
        if digits_from(&v, 0) {
            return Err(bad_pid("bad pid file: number too large to fit in target type"));
        }
    }
    Err(bad_pid("bad pid file: invalid digit found in string"))
}

/// The status a state document gives.
pub open spec fn status_in(v: JsonView) -> Option<Seq<char>> {
    json::text_at(json::field(v, "status"@))
}

/// The pid a state document gives, zero for none.
pub open spec fn pid_in(v: JsonView) -> i32 {
    json::i64_or(json::field(v, "pid"@), 0) as i32
}

/// The name of the process a state document gives.
pub open spec fn comm_in(v: JsonView) -> Option<Seq<char>> {
    json::text_at(json::field(v, "commHint"@))
}

/// The bundle a state document gives.
pub open spec fn bundle_in(v: JsonView) -> Seq<char> {
    json::text_or(json::field(v, "bundle"@), ""@)
}

/// What a document says that has the members of a written state.
proof fn lemma_written_state(
    v: JsonView,
    id: Seq<char>,
    pid: i32,
    bundle: Seq<char>,
    status: Seq<char>,
    comm_hint: Option<Seq<char>>,
)
    requires
        json::has_members(v, state_members(id, pid, bundle, status, comm_hint)),
    ensures
        status_in(v) == Some(status),
        pid_in(v) == pid,
        comm_in(v) == comm_hint,
        bundle_in(v) == bundle,
        json::tame(v, json::read_depth()),
{
    let m = state_members(id, pid, bundle, status, comm_hint);
    assert(m[2] == ("status"@, JsonView::Str(status)));
    assert(m[3] == ("pid"@, int_json(pid as int)));
    assert(m[4] == ("bundle"@, JsonView::Str(bundle)));
    assert(m[6] == ("commHint"@, opt_text_json(comm_hint)));
    lemma_state_members_plain(id, pid, bundle, status, comm_hint);
    json::lemma_plain_tame(v, m);
}

/// The bundle in the bytes of a state file.
pub fn read_bundle(bytes: &[u8]) -> (r: Result<String, Error>)
    ensures
        match json::json_text(bytes@) {
            Err(why) => r is Err && (r->Err_0)@ == why,
            Ok(v) => r is Ok && (r->Ok_0)@ == bundle_in(v),
        },
        r is Err ==> (r->Err_0).kind == json::fault_kind(bytes@),
        forall|id: Seq<char>, pid: i32, bundle: Seq<char>, status: Seq<char>, c: Option<Seq<char>>|
            bytes@ == #[trigger] state_text(id, pid, bundle, status, c) ==> r is Ok && (r->Ok_0)@
                == bundle,
{
    match parse_json(bytes) {
        Ok(v) => {
            proof {
                assert forall|
                    id: Seq<char>,
                    pid: i32,
                    bundle: Seq<char>,
                    status: Seq<char>,
                    c: Option<Seq<char>>,
                |
                    bytes@ == #[trigger] state_text(id, pid, bundle, status, c) implies bundle_in(
                    v@,
                ) == bundle by {
                    lemma_state_members_plain(id, pid, bundle, status, c);
                    lemma_written_state(v@, id, pid, bundle, status, c);
                }
            }
            Ok(get_text_or(v.get("bundle"), ""))
        },
        Err(e) => {
            proof {
                assert forall|
                    id: Seq<char>,
                    pid: i32,
                    bundle: Seq<char>,
                    status: Seq<char>,
                    c: Option<Seq<char>>,
                |
                    bytes@ != #[trigger] state_text(id, pid, bundle, status, c) by {
                    lemma_state_members_plain(id, pid, bundle, status, c);
                }
            }
            Err(e)
        },
    }
}

/// What is known of a container's process.
pub struct StatusPidComm {
    pub status: Option<String>,
    /// Zero for none.
    pub pid: i32,
    pub comm: Option<String>,
}

/// The pid in the text of a pid file that may be missing; zero where there is none.
pub open spec fn noted_pid(t: Option<Seq<char>>) -> int {
    match t {
        Some(t) => match text::i32_value(text::trimmed(t)) {
            Some(n) => n,
            None => 0,
        },
        None => 0,
    }
}

/// An owned text where a document has one.
fn owned_text(v: Option<&Json>) -> (r: Option<String>)
    ensures
        text::opt_text(r) == json::text_at(json::opt_view(v)),
{
    match get_text(v) {
        Some(t) => Some(owned(t)),
        None => None,
    }
}

/// The name of the process in the bytes of a state file that may be missing.
pub fn read_comm_hint(bytes: Option<&[u8]>) -> (r: Option<String>)
    ensures
        text::opt_text(r) == (match bytes {
            Some(b) => match json::json_text(b@) {
                Ok(v) => comm_in(v),
                Err(_) => None,
            },
            None => None,
        }),
{
    match bytes {
        Some(b) => match parse_json(b) {
            Ok(v) => owned_text(v.get("commHint")),
            Err(_) => None,
        },
        None => None,
    }
}

/// What is known of a container's process: what the state file says; or, where there is none that
/// can be read, what the pid file says, and that the container is being made.
pub fn read_status_pid_comm(state: Option<&[u8]>, pid_text: Option<&str>) -> (r: StatusPidComm)
    ensures
        match (match state {
            Some(b) => json::json_text(b@),
            None => Err(""@),
        }) {
            Ok(v) => {
                &&& text::opt_text(r.status) == status_in(v)
                &&& r.pid == pid_in(v)
                &&& text::opt_text(r.comm) == comm_in(v)
            },
            Err(_) => {
                let pid = noted_pid(
                    match pid_text {
                        Some(t) => Some(t@),
                        None => None,
                    },
                );
                &&& r.pid == pid
                &&& text::opt_text(r.status) == (if pid > 0 {
                    Some("creating"@)
                } else {
                    None
                })
                &&& r.comm is None
            },
        },
        forall|id: Seq<char>, pid: i32, bundle: Seq<char>, status: Seq<char>, c: Option<Seq<char>>|
            state is Some && (state->Some_0)@ == #[trigger] state_text(id, pid, bundle, status, c)
                ==> text::opt_text(r.status) == Some(status) && r.pid == pid && text::opt_text(
                r.comm,
            ) == c,
{
    if let Some(b) = state {
        if let Ok(v) = parse_json(b) {
            proof {
                assert forall|
                    id: Seq<char>,
                    pid: i32,
                    bundle: Seq<char>,
                    status: Seq<char>,
                    c: Option<Seq<char>>,
                |
                    b@ == #[trigger] state_text(id, pid, bundle, status, c) implies status_in(v@)
                    == Some(status) && pid_in(v@) == pid && comm_in(v@) == c by {
                    lemma_state_members_plain(id, pid, bundle, status, c);
                    lemma_written_state(v@, id, pid, bundle, status, c);
                }
            }
            return StatusPidComm {
                status: owned_text(v.get("status")),
                pid: get_i64_or(v.get("pid"), 0) as i32,
                comm: owned_text(v.get("commHint")),
            };
        }
        proof {
            assert forall|
                id: Seq<char>,
                pid: i32,
                bundle: Seq<char>,
                status: Seq<char>,
                c: Option<Seq<char>>,
            |
                b@ != #[trigger] state_text(id, pid, bundle, status, c) by {
                lemma_state_members_plain(id, pid, bundle, status, c);
            }
        }
    }
    let pid: i32 = match pid_text {
        Some(t) => match parse_i32(trim(t)) {
            Some(n) => n,
            None => 0,
        },
        None => 0,
    };
    StatusPidComm {
        status: if pid > 0 {
            Some(owned("creating"))
        } else {
            None
        },
        pid,
        comm: None,
    }
}

/// A document with some members set, one after another; none where it can have no members.
pub open spec fn amended(v: JsonView, m: Seq<(Seq<char>, JsonView)>) -> Option<JsonView>
    decreases m.len(),
{
    if m.len() == 0 {
        Some(v)
    } else {
        match amended(v, m.drop_last()) {
            Some(d) => json::with_member(d, m.last().0, m.last().1),
            None => None,
        }
    }
}

/// What the bytes of a state file become where some members are set: an error where they are no
/// document, none where the document can have no members. What is written is read back, but for
/// numbers that are fractions.
pub open spec fn amends(
    bytes: Seq<u8>,
    m: Seq<(Seq<char>, JsonView)>,
    r: Result<Option<Seq<u8>>, Seq<char>>,
) -> bool {
    match json::json_text(bytes) {
        Err(why) => r == Err::<Option<Seq<u8>>, Seq<char>>(why),
        Ok(v) => json::orderly(v, json::read_depth()) && match amended(v, m) {
            Some(d) => {
                &&& r == Ok::<Option<Seq<u8>>, Seq<char>>(Some(json::rendered(d)))
                &&& json::tame(d, json::read_depth()) ==> json::reads_as(json::rendered(d), d)
                &&& json::whole(v) && all_plain(m) ==> json::reads_as(json::rendered(d), d)
                &&& all_plain(m) ==> json::reads_like(json::rendered(d), d)
            },
            None => r == Ok::<Option<Seq<u8>>, Seq<char>>(None),
        },
    }
}

/// A result in terms of what it holds.
pub open spec fn outcome(r: Result<Option<Vec<u8>>, Error>) -> Result<Option<Seq<u8>>, Seq<char>> {
    match r {
        Ok(Some(b)) => Ok(Some(b@)),
        Ok(None) => Ok(None),
        Err(e) => Err(e@),
    }
}

/// A document with plain members set is read back as it is written.
pub proof fn lemma_amended_tame(v: JsonView, m: Seq<(Seq<char>, JsonView)>)
    requires
        json::tame(v, json::read_depth()),
        all_plain(m),
    ensures
        amended(v, m) is Some ==> json::tame(amended(v, m)->Some_0, json::read_depth()),
        v is Object ==> amended(v, m) is Some && amended(v, m)->Some_0 is Object,
    decreases m.len(),
{
    if m.len() > 0 {
        let h = m.drop_last();
        assert forall|i: int| 0 <= i < h.len() implies json::is_plain((#[trigger] h[i]).1) by {
            assert(h[i] == m[i]);
        }
        lemma_amended_tame(v, h);
        assert(json::is_plain(m[m.len() - 1].1));
        if amended(v, h) is Some {
            let d = amended(v, h)->Some_0;
            if d is Object {
                json::lemma_put_tame(d, m.last().0, m.last().1);
            } else if d is Null {
                let one = seq![m.last()];
                assert forall|i: int| 0 <= i < one.len() implies json::tame(
                    (#[trigger] one[i]).1,
                    (json::read_depth() - 1) as nat,
                ) by {
                }
            }
        }
    }
}

/// A parsed document with plain members set is as one.
proof fn lemma_amended_orderly(v: JsonView, m: Seq<(Seq<char>, JsonView)>)
    requires
        json::orderly(v, json::read_depth()),
        all_plain(m),
    ensures
        amended(v, m) is Some ==> json::orderly(amended(v, m)->Some_0, json::read_depth()),
    decreases m.len(),
{
    if m.len() > 0 {
        let h = m.drop_last();
        assert forall|i: int| 0 <= i < h.len() implies json::is_plain((#[trigger] h[i]).1) by {
            assert(h[i] == m[i]);
        }
        lemma_amended_orderly(v, h);
        assert(json::is_plain(m[m.len() - 1].1));
        if amended(v, h) is Some {
            let d = amended(v, h)->Some_0;
            if d is Object {
                json::lemma_put_orderly(d, m.last().0, m.last().1);
            } else if d is Null {
                let one = seq![m.last()];
                assert forall|i: int| 0 <= i < one.len() implies json::orderly(
                    (#[trigger] one[i]).1,
                    (json::read_depth() - 1) as nat,
                ) by {
                }
            }
        }
    }
}

/// Whether the bytes are those of a state file that was written for a container.
pub open spec fn is_written(bytes: Seq<u8>) -> bool {
    exists|id: Seq<char>, pid: i32, bundle: Seq<char>, status: Seq<char>, c: Option<Seq<char>>|
        bytes == #[trigger] state_text(id, pid, bundle, status, c)
}

/// Whether all members have plain values.
pub open spec fn all_plain(m: Seq<(Seq<char>, JsonView)>) -> bool {
    forall|i: int| 0 <= i < m.len() ==> json::is_plain((#[trigger] m[i]).1)
}

/// The bytes of a state file with some members set.
pub fn amend(bytes: &[u8], members: Vec<(String, Json)>) -> (r: Result<Option<Vec<u8>>, Error>)
    ensures
        amends(bytes@, json::member_views(members@), outcome(r)),
        r is Err ==> (r->Err_0).kind == json::fault_kind(bytes@),
        is_written(bytes@) && all_plain(json::member_views(members@)) ==> {
            &&& json::json_text(bytes@) is Ok
            &&& amended(json::json_text(bytes@)->Ok_0, json::member_views(members@)) is Some
            &&& r is Ok && r->Ok_0 is Some
            &&& json::reads_as(
                (r->Ok_0->Some_0)@,
                amended(json::json_text(bytes@)->Ok_0, json::member_views(members@))->Some_0,
            )
        },
{
    let ghost mv = members@;
    let ghost m = json::member_views(mv);
    let v = match parse_json(bytes) {
        Ok(v) => v,
        Err(e) => {
            proof {
                if is_written(bytes@) {
                    let (id, pid, bundle, status, c) = choose|
                        id: Seq<char>,
                        pid: i32,
                        bundle: Seq<char>,
                        status: Seq<char>,
                        c: Option<Seq<char>>,
                    | bytes@ == #[trigger] state_text(id, pid, bundle, status, c);
                    lemma_state_members_plain(id, pid, bundle, status, c);
                }
            }
            return Err(e);
        },
    };
    let ghost v0 = v@;
    proof {
        if is_written(bytes@) && all_plain(m) {
            let (id, pid, bundle, status, c) = choose|
                id: Seq<char>,
                pid: i32,
                bundle: Seq<char>,
                status: Seq<char>,
                c: Option<Seq<char>>,
            | bytes@ == #[trigger] state_text(id, pid, bundle, status, c);
            lemma_state_members_plain(id, pid, bundle, status, c);
            lemma_written_state(v0, id, pid, bundle, status, c);
            lemma_amended_tame(v0, m);
        }
        if json::whole(v0) && all_plain(m) {
            json::lemma_whole_tame(v0, json::read_depth());
            lemma_amended_tame(v0, m);
        }
        if all_plain(m) {
            lemma_amended_orderly(v0, m);
        }
        assert(m.subrange(0, 0) =~= Seq::<(Seq<char>, JsonView)>::empty());
    }
    let mut d = v;
    let mut rest = members;
    let mut i: usize = 0;
    let n = rest.len();
    while i < n
        invariant
            i <= n,
            n == m.len(),
            rest@.len() == n - i,
            mv == members@,
            m == json::member_views(mv),
            is_written(bytes@) && all_plain(m) ==> amended(v0, m) is Some && json::tame(
                amended(v0, m)->Some_0,
                json::read_depth(),
            ),
            json::orderly(v0, json::read_depth()),
            all_plain(m) && amended(v0, m) is Some ==> json::orderly(
                amended(v0, m)->Some_0,
                json::read_depth(),
            ),
            json::whole(v0) && all_plain(m) && amended(v0, m) is Some ==> json::tame(
                amended(v0, m)->Some_0,
                json::read_depth(),
            ),
            forall|k: int|
                0 <= k < rest@.len() ==> (#[trigger] rest@[k]).0@ == m[i + k].0 && rest@[k].1@
                    == m[i + k].1,
            amended(v0, m.subrange(0, i as int)) == Some(d@),
            json::json_text(bytes@) == Ok::<JsonView, Seq<char>>(v0),
        decreases n - i,
    {
        let ghost before = rest@;
        let (key, value) = rest.remove(0);
        proof {
            let part = m.subrange(0, i + 1);
            assert(part.drop_last() =~= m.subrange(0, i as int));
            assert(part.last() == m[i as int]);
            assert(before[0].0@ == m[i + 0].0);
            assert forall|k: int| 0 <= k < rest@.len() implies (#[trigger] rest@[k]).0@ == m[i + 1
                + k].0 && rest@[k].1@ == m[i + 1 + k].1 by {
                assert(rest@[k] == before[k + 1]);
                assert(before[k + 1].0@ == m[i + (k + 1)].0);
            }
        }
        match set_member(d, key.as_str(), value) {
            Some(next) => {
                d = next;
            },
            None => {
                proof {
                    lemma_amend_stuck(v0, m, i + 1);
                }
                return Ok(None);
            },
        }
        i += 1;
    }
    proof {
        assert(m.subrange(0, m.len() as int) =~= m);
    }
    Ok(Some(render_json(&d)))
}

/// Where one member cannot be set, neither can the list.
proof fn lemma_amend_stuck(v: JsonView, m: Seq<(Seq<char>, JsonView)>, k: int)
    requires
        0 <= k <= m.len(),
        amended(v, m.subrange(0, k)) is None,
    ensures
        amended(v, m) is None,
    decreases m.len() - k,
{
    if k == m.len() {
        assert(m.subrange(0, k) =~= m);
    } else {
        let next = m.subrange(0, k + 1);
        assert(next.drop_last() =~= m.subrange(0, k));
        lemma_amend_stuck(v, m, k + 1);
    }
}

/// One member that is to be set to a text.
pub open spec fn text_member(key: Seq<char>, t: Seq<char>) -> (Seq<char>, JsonView) {
    (key, JsonView::Str(t))
}

/// The bytes of a state file with another status.
pub fn update_status(bytes: &[u8], status: &str) -> (r: Result<Option<Vec<u8>>, Error>)
    ensures
        amends(bytes@, seq![text_member("status"@, status@)], outcome(r)),
        r is Err ==> (r->Err_0).kind == json::fault_kind(bytes@),
        is_written(bytes@) ==> {
            &&& json::json_text(bytes@) is Ok
            &&& r is Ok && r->Ok_0 is Some
            &&& json::reads_as(
                (r->Ok_0->Some_0)@,
                amended(
                    json::json_text(bytes@)->Ok_0,
                    seq![text_member("status"@, status@)],
                )->Some_0,
            )
        },
{
    let m = vec![named("status", Json::Str(owned(status)))];
    proof {
        assert(json::member_views(m@) =~= seq![text_member("status"@, status@)]);
    }
    amend(bytes, m)
}

/// The bytes of a state file that says that taking the container down failed, and why.
pub fn mark_failed(bytes: &[u8], reason: &str) -> (r: Result<Option<Vec<u8>>, Error>)
    ensures
        amends(
            bytes@,
            seq![text_member("status"@, "failed"@), text_member("cleanupError"@, reason@)],
            outcome(r),
        ),
        r is Err ==> (r->Err_0).kind == json::fault_kind(bytes@),
{
    let m = vec![
        named("status", Json::Str(owned("failed"))),
        named("cleanupError", Json::Str(owned(reason))),
    ];
    proof {
        assert(json::member_views(m@) =~= seq![
            text_member("status"@, "failed"@),
            text_member("cleanupError"@, reason@),
        ]);
    }
    amend(bytes, m)
}

/// A change of status changes the status and nothing else.
pub proof fn law_only_status_changes(v: JsonView, status: Seq<char>, other: Seq<char>)
    requires
        v is Object,
        other != "status"@,
    ensures
        ({
            let d = amended(v, seq![text_member("status"@, status)]);
            &&& d is Some
            &&& status_in(d->Some_0) == Some(status)
            &&& json::field(d->Some_0, other) == json::field(v, other)
        }),
{
    let m = seq![text_member("status"@, status)];
    assert(m.drop_last() =~= Seq::<(Seq<char>, JsonView)>::empty());
    assert(amended(v, m.drop_last()) == Some(v));
    json::law_put_one_member(v->Object_0, "status"@, JsonView::Str(status), other);
}

/// What a state file says, member by member: the container's id, its status, its first process, its
/// bundle, and the name hint, which is null exactly where there is none; and so it is read.
pub proof fn law_state_says(
    v: JsonView,
    id: Seq<char>,
    pid: i32,
    bundle: Seq<char>,
    status: Seq<char>,
    comm_hint: Option<Seq<char>>,
)
    requires
        json::has_members(v, state_members(id, pid, bundle, status, comm_hint)),
    ensures
        json::field(v, "ociVersion"@) == Some(JsonView::Str("1.0.2"@)),
        json::field(v, "id"@) == Some(JsonView::Str(id)),
        json::field(v, "status"@) == Some(JsonView::Str(status)),
        json::i64_at(json::field(v, "pid"@)) == Some(pid as i64),
        json::field(v, "bundle"@) == Some(JsonView::Str(bundle)),
        json::field(v, "annotations"@) matches Some(JsonView::Object(a)) && a.len() == 0,
        comm_hint matches Some(c) ==> json::field(v, "commHint"@) == Some(JsonView::Str(c)),
        comm_hint is None <==> json::field(v, "commHint"@) == Some(JsonView::Null),
        status_in(v) == Some(status),
        pid_in(v) == pid,
        bundle_in(v) == bundle,
        comm_in(v) == comm_hint,
{
    let m = state_members(id, pid, bundle, status, comm_hint);
    assert(m[0].0 == "ociVersion"@);
    assert(m[1].0 == "id"@);
    assert(m[2].0 == "status"@);
    assert(m[3].0 == "pid"@);
    assert(m[4].0 == "bundle"@);
    assert(m[5].0 == "annotations"@);
    assert(m[6].0 == "commHint"@);
}

/// What is read of a state: the members that are there, and where they are not or are of another
/// kind, no status, the process 0, no bundle and no name.
pub proof fn law_state_read(v: JsonView)
    ensures
        json::field(v, "status"@) matches Some(JsonView::Str(t)) ==> status_in(v) == Some(t),
        !(json::field(v, "status"@) matches Some(JsonView::Str(_))) ==> status_in(v) is None,
        json::i64_at(json::field(v, "pid"@)) matches Some(n) ==> (i32::MIN <= n <= i32::MAX
            ==> pid_in(v) == n),
        json::i64_at(json::field(v, "pid"@)) is None ==> pid_in(v) == 0,
        json::field(v, "bundle"@) matches Some(JsonView::Str(t)) ==> bundle_in(v) == t,
        !(json::field(v, "bundle"@) matches Some(JsonView::Str(_))) ==> bundle_in(v).len() == 0,
        json::field(v, "commHint"@) matches Some(JsonView::Str(t)) ==> comm_in(v) == Some(t),
        !(json::field(v, "commHint"@) matches Some(JsonView::Str(_))) ==> comm_in(v) is None,
{
    reveal_strlit("");
}

/// Where the containers are kept: where the user says; else in `/run/rsrun` for root, in `rsrun` below
/// the user's runtime directory, or in a directory of the user's own below `/tmp`.
pub proof fn law_root_dir(env: RootEnv)
    ensures
        env.rsrun_root matches Some(r) ==> root_dir(env) == r@,
        env.rsrun_root is None && env.euid == 0 ==> root_dir(env) == "/run/rsrun"@,
        env.rsrun_root is None && env.euid != 0 && env.xdg_runtime_dir is Some ==> path::names(
            root_dir(env),
        ) == path::names(env.xdg_runtime_dir->Some_0@).push("rsrun"@),
        env.rsrun_root is None && env.euid != 0 && env.xdg_runtime_dir is None ==> root_dir(env)
            == "/tmp/rsrun-"@ + text::dec(env.euid as nat),
{
    if env.xdg_runtime_dir is Some {
        let x = env.xdg_runtime_dir->Some_0@;
        reveal_strlit("rsrun");
        reveal_strlit(".");
        assert(!text::has_char("rsrun"@, '/'));
        assert("rsrun"@.len() == 5 && "rsrun"@[0] == 'r' && "."@.len() == 1);
        path::law_joined_names(x, "rsrun"@);
        path::lemma_one_name("rsrun"@);
        assert(path::names(x) + seq!["rsrun"@] =~= path::names(x).push("rsrun"@));
    }
}

/// What a pid file says: a number of 32 bits with a sign, white space aside, or else what is wrong
/// with it.
pub proof fn law_pid_file(s: Seq<char>)
    ensures
        pid_fault(s) is None <==> text::i32_value(text::trimmed(s)) is Some,
        text::trimmed(s).len() == 0 ==> pid_fault(s) == Some(
            "bad pid file: cannot parse integer from empty string"@,
        ),
{
}

/// What a document says once members were put: each member that was put is there as it was put
/// last, and all others are as they were.
pub proof fn law_amended_members(v: JsonView, m: Seq<(Seq<char>, JsonView)>, key: Seq<char>, k: int)
    requires
        v is Object,
    ensures
        amended(v, m) is Some,
        amended(v, m)->Some_0 is Object,
        (forall|i: int| 0 <= i < m.len() ==> (#[trigger] m[i]).0 != key) ==> json::field(
            amended(v, m)->Some_0,
            key,
        ) == json::field(v, key),
        0 <= k < m.len() && m[k].0 == key && (forall|i: int|
            k < i < m.len() ==> (#[trigger] m[i]).0 != key) ==> json::field(
            amended(v, m)->Some_0,
            key,
        ) == Some(m[k].1),
    decreases m.len(),
{
    if m.len() > 0 {
        let h = m.drop_last();
        law_amended_members(v, h, key, k);
        let d = amended(v, h)->Some_0;
        json::law_put_one_member(d->Object_0, m.last().0, m.last().1, key);
        assert(m.last() == m[m.len() - 1]);
        assert forall|i: int| 0 <= i < h.len() implies h[i] == m[i] by {}
        if forall|i: int| 0 <= i < m.len() ==> (#[trigger] m[i]).0 != key {
            assert forall|i: int| 0 <= i < h.len() implies (#[trigger] h[i]).0 != key by {
                assert(m[i].0 != key);
            }
        }
        if 0 <= k < h.len() && m[k].0 == key && (forall|i: int|
            k < i < m.len() ==> (#[trigger] m[i]).0 != key) {
            assert forall|i: int| k < i < h.len() implies (#[trigger] h[i]).0 != key by {
                assert(m[i].0 != key);
            }
        }
    }
}

} // verus!
