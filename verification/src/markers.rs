//! Markers: the changes at one time, kept to tell what changed since.

use vstd::prelude::*;
use vstd::string::*;

use crate::diff;
use crate::diff::DiffEntry;
use crate::error::Error;
use crate::hooks;
use crate::hooks::{opt_u64_to_json, strings_to_json};
use crate::json;
use crate::json::{
    get_bool_or, get_items, get_text, get_u64, named, parse_json, render_json, Json, JsonView,
};
use crate::order;
use crate::order::{pair_less, sorted_texts, Keyed};
use crate::path;
use crate::path::join;
use crate::snapshot;
use crate::snapshot::validate_state_name;
use crate::state;
use crate::state::opt_text_to_json;
use crate::text;
use crate::text::{cat2, cat3, dec_u64, owned, str_eq};

verus! {

/// A change, as a marker keeps it.
#[derive(Debug)]
pub struct MarkEntry {
    pub path: String,
    pub kind: String,
    pub sensitive: bool,
    pub size: Option<u64>,
    pub fingerprint: String,
}

/// What a marker keeps of a change.
pub struct MarkView {
    pub path: Seq<char>,
    pub kind: Seq<char>,
    pub sensitive: bool,
    pub size: Option<u64>,
    pub fingerprint: Seq<char>,
}

impl View for MarkEntry {
    type V = MarkView;

    open spec fn view(&self) -> MarkView {
        MarkView {
            path: self.path@,
            kind: self.kind@,
            sensitive: self.sensitive,
            size: self.size,
            fingerprint: self.fingerprint@,
        }
    }
}

/// What a marker keeps of changes.
pub open spec fn mark_views(v: Seq<MarkEntry>) -> Seq<MarkView> {
    Seq::new(v.len(), |i: int| v[i]@)
}

/// What a marker keeps of a change.
pub open spec fn mark_of(e: diff::DiffView) -> MarkView {
    MarkView {
        path: e.path,
        kind: diff::diff_text(e.kind),
        sensitive: e.sensitive,
        size: e.size,
        fingerprint: e.fingerprint,
    }
}

/// What a marker keeps of changes.
pub open spec fn marks_of(es: Seq<diff::DiffView>) -> Seq<MarkView> {
    Seq::new(es.len(), |i: int| mark_of(es[i]))
}

/// What a marker keeps of changes.
pub fn marker_entries_from_diff(es: &Vec<DiffEntry>) -> (v: Vec<MarkEntry>)
    ensures
        mark_views(v@) == marks_of(diff::diff_views(es@)),
{
    let mut v: Vec<MarkEntry> = Vec::new();
    let mut i: usize = 0;
    while i < es.len()
        invariant
            i <= es.len(),
            v@.len() == i,
            forall|k: int| 0 <= k < i ==> (#[trigger] v@[k])@ == mark_of(es@[k]@),
        decreases es.len() - i,
    {
        let e = &es[i];
        v.push(
            MarkEntry {
                path: e.path.clone(),
                kind: owned(e.kind.as_str()),
                sensitive: e.sensitive,
                size: e.size,
                fingerprint: e.fingerprint.clone(),
            },
        );
        i += 1;
    }
    proof {
        assert(mark_views(v@) =~= marks_of(diff::diff_views(es@)));
    }
    v
}

/// A kept change as JSON.
pub open spec fn mark_json(m: MarkView) -> JsonView {
    JsonView::Object(
        seq![
            ("fingerprint"@, JsonView::Str(m.fingerprint)),
            ("kind"@, JsonView::Str(m.kind)),
            ("path"@, JsonView::Str(m.path)),
            ("sensitive"@, JsonView::Bool(m.sensitive)),
            ("size"@, hooks::opt_u64_json(m.size)),
        ],
    )
}

/// A marker as JSON.
pub open spec fn marker_json(
    id: Seq<char>,
    name: Seq<char>,
    reset_count: u64,
    ms: Seq<MarkView>,
) -> JsonView {
    JsonView::Object(
        seq![
            ("backend"@, JsonView::Str("overlayfs"@)),
            ("files"@, JsonView::Array(Seq::new(ms.len(), |i: int| mark_json(ms[i])))),
            ("id"@, JsonView::Str(id)),
            ("name"@, JsonView::Str(name)),
            ("resetCount"@, JsonView::UInt(reset_count)),
            ("version"@, JsonView::UInt(1)),
        ],
    )
}

/// The keys of a kept change are in order.
proof fn lemma_mark_keys(m: MarkView)
    ensures
        json::in_key_order(mark_json(m)->Object_0),
        forall|depth: nat| depth >= 1 ==> #[trigger] json::tame(mark_json(m), depth),
{
    reveal_strlit("fingerprint");
    reveal_strlit("kind");
    reveal_strlit("path");
    reveal_strlit("sensitive");
    reveal_strlit("size");
    order::lemma_first_difference("fingerprint"@, "kind"@, 0);
    order::lemma_first_difference("kind"@, "path"@, 0);
    order::lemma_first_difference("path"@, "sensitive"@, 0);
    order::lemma_first_difference("sensitive"@, "size"@, 1);
    let o = mark_json(m)->Object_0;
    json::lemma_adjacent_keys(o);
    assert forall|depth: nat| depth >= 1 implies #[trigger] json::tame(mark_json(m), depth) by {
        let d = (depth - 1) as nat;
        assert forall|i: int| 0 <= i < o.len() implies json::tame((#[trigger] o[i]).1, d) by {
        }
    }
}

/// The keys of a marker are in order.
proof fn lemma_marker_keys(id: Seq<char>, name: Seq<char>, n: u64, ms: Seq<MarkView>)
    ensures
        json::in_key_order(marker_json(id, name, n, ms)->Object_0),
        json::tame(marker_json(id, name, n, ms), json::read_depth()),
{
    reveal_strlit("backend");
    reveal_strlit("files");
    reveal_strlit("id");
    reveal_strlit("name");
    reveal_strlit("resetCount");
    reveal_strlit("version");
    order::lemma_first_difference("backend"@, "files"@, 0);
    order::lemma_first_difference("files"@, "id"@, 0);
    order::lemma_first_difference("id"@, "name"@, 0);
    order::lemma_first_difference("name"@, "resetCount"@, 0);
    order::lemma_first_difference("resetCount"@, "version"@, 0);
    let o = marker_json(id, name, n, ms)->Object_0;
    json::lemma_adjacent_keys(o);
    let d = (json::read_depth() - 1) as nat;
    let a = o[1].1->Array_0;
    assert forall|i: int| 0 <= i < a.len() implies json::tame(#[trigger] a[i], (d - 1) as nat) by {
        lemma_mark_keys(ms[i]);
    }
    assert(json::tame(o[1].1, d));
    assert forall|i: int| 0 <= i < o.len() implies json::tame((#[trigger] o[i]).1, d) by {
    }
}

/// A kept change as JSON.
fn mark_to_json(m: &MarkEntry) -> (j: Json)
    ensures
        j@ == mark_json(m@),
{
    let j = Json::Object(
        vec![
            named("fingerprint", Json::Str(m.fingerprint.clone())),
            named("kind", Json::Str(m.kind.clone())),
            named("path", Json::Str(m.path.clone())),
            named("sensitive", Json::Bool(m.sensitive)),
            named("size", opt_u64_to_json(m.size)),
        ],
    );
    proof {
        assert(j@->Object_0 =~= mark_json(m@)->Object_0);
    }
    j
}

/// A request to mark the changes of a container under a name.
pub struct MarkRequest {
    pub id: String,
    pub name: String,
}

/// Asks for the changes of a container to be marked under a name.
pub fn cmd_mark(id: &str, name: &str) -> (r: Result<MarkRequest, Error>)
    ensures
        match r {
            Ok(q) => snapshot::name_fault(name@, "marker name"@) is None && q.id@ == id@ && q.name@
                == name@,
            Err(e) => snapshot::name_fault(name@, "marker name"@) == Some(e@),
        },
{
    match validate_state_name(name, "marker name") {
        Ok(()) => Ok(MarkRequest { id: owned(id), name: owned(name) }),
        Err(e) => Err(e),
    }
}

/// Where a marker is kept.
pub open spec fn marker_file(root: Seq<char>, name: Seq<char>) -> Seq<char> {
    path::joined(path::joined(root, "markers"@), name + ".json"@)
}

/// Where a marker is kept.
pub fn marker_path(root: &str, name: &str) -> (s: String)
    ensures
        s@ == marker_file(root@, name@),
{
    let dir = join(root, "markers");
    let file = cat2(name, ".json");
    join(dir.as_str(), file.as_str())
}

/// What a marker keeps.
pub fn write_marker(id: &str, name: &str, reset_count: u64, es: &Vec<DiffEntry>) -> (b: Vec<u8>)
    ensures
        b@ == json::rendered(
            marker_json(id@, name@, reset_count, marks_of(diff::diff_views(es@))),
        ),
        json::reads_as(b@, marker_json(id@, name@, reset_count, marks_of(diff::diff_views(es@)))),
{
    let ms = marker_entries_from_diff(es);
    let ghost vs = mark_views(ms@);
    let mut a: Vec<Json> = Vec::new();
    let mut i: usize = 0;
    while i < ms.len()
        invariant
            i <= ms.len(),
            vs == mark_views(ms@),
            a@.len() == i,
            forall|k: int| 0 <= k < i ==> (#[trigger] a@[k])@ == mark_json(vs[k]),
        decreases ms.len() - i,
    {
        let one = mark_to_json(&ms[i]);
        proof {
            assert(vs[i as int] == ms@[i as int]@);
        }
        a.push(one);
        i += 1;
    }
    let files = Json::Array(a);
    proof {
        assert(files@->Array_0 =~= Seq::new(vs.len(), |i: int| mark_json(vs[i])));
    }
    let doc = Json::Object(
        vec![
            named("backend", Json::Str(owned("overlayfs"))),
            named("files", files),
            named("id", Json::Str(owned(id))),
            named("name", Json::Str(owned(name))),
            named("resetCount", Json::UInt(reset_count)),
            named("version", Json::UInt(1)),
        ],
    );
    proof {
        assert(doc@->Object_0 =~= marker_json(id@, name@, reset_count, vs)->Object_0);
        lemma_marker_keys(id@, name@, reset_count, vs);
    }
    render_json(&doc)
}

/// A document that says it is a marker of a layered root.
pub open spec fn marker_fault(v: JsonView) -> Option<Seq<char>> {
    if json::text_at(json::field(v, "backend"@)) != Some("overlayfs"@) {
        Some("marker is not overlayfs-backed"@)
    } else {
        None
    }
}

/// Reads a marker.
pub fn read_marker(bytes: &[u8]) -> (r: Result<Json, Error>)
    ensures
        match json::json_text(bytes@) {
            Err(why) => r is Err && (r->Err_0)@ == why,
            Ok(v) => match r {
                Ok(j) => marker_fault(v) is None && j@ == v,
                Err(e) => marker_fault(v) == Some(e@),
            },
        },
        r is Err ==> (r->Err_0).kind == json::fault_kind(bytes@),
{
    let v = match parse_json(bytes) {
        Ok(v) => v,
        Err(e) => {
            return Err(e);
        },
    };
    let backed = match get_text(v.get("backend")) {
        Some(b) => str_eq(b, "overlayfs"),
        None => false,
    };
    if backed {
        Ok(v)
    } else {
        Err(Error::new(owned("marker is not overlayfs-backed")))
    }
}

/// A kept change in a document, or what is wrong with it.
pub open spec fn mark_at(v: JsonView) -> Result<MarkView, Seq<char>> {
    match (
        json::text_at(json::field(v, "path"@)),
        json::text_at(json::field(v, "kind"@)),
        json::text_at(json::field(v, "fingerprint"@)),
    ) {
        (None, _, _) => Err("marker file missing path"@),
        (Some(_), None, _) => Err("marker file missing kind"@),
        (Some(_), Some(_), None) => Err("marker file missing fingerprint"@),
        (Some(path), Some(kind), Some(fingerprint)) => Ok(
            MarkView {
                path,
                kind,
                sensitive: json::bool_or(json::field(v, "sensitive"@), false),
                size: json::u64_at(json::field(v, "size"@)),
                fingerprint,
            },
        ),
    }
}

/// The kept changes in a list, or what is wrong with the first that is wrong.
pub open spec fn marks_among(a: Seq<JsonView>) -> Result<Seq<MarkView>, Seq<char>>
    decreases a.len(),
{
    if a.len() == 0 {
        Ok(Seq::empty())
    } else {
        match marks_among(a.drop_last()) {
            Err(f) => Err(f),
            Ok(head) => match mark_at(a.last()) {
                Err(f) => Err(f),
                Ok(m) => Ok(head.push(m)),
            },
        }
    }
}

/// The kept changes in a marker, or what is wrong with it.
pub open spec fn marks_in(v: JsonView) -> Result<Seq<MarkView>, Seq<char>> {
    match json::items_at(json::field(v, "files"@)) {
        None => Err("marker metadata missing files"@),
        Some(a) => marks_among(a),
    }
}

/// A result in terms of what it holds.
pub open spec fn marks_result(r: Result<Vec<MarkEntry>, Error>) -> Result<Seq<MarkView>, Seq<char>> {
    match r {
        Ok(v) => Ok(mark_views(v@)),
        Err(e) => Err(e@),
    }
}

/// Reads a kept change.
fn read_mark(v: &Json) -> (r: Result<MarkEntry, Error>)
    ensures
        match r {
            Ok(m) => mark_at(v@) == Ok::<MarkView, Seq<char>>(m@),
            Err(e) => mark_at(v@) == Err::<MarkView, Seq<char>>(e@),
        },
{
    let path = match get_text(v.get("path")) {
        Some(t) => owned(t),
        None => {
            return Err(Error::new(owned("marker file missing path")));
        },
    };
    let kind = match get_text(v.get("kind")) {
        Some(t) => owned(t),
        None => {
            return Err(Error::new(owned("marker file missing kind")));
        },
    };
    let fingerprint = match get_text(v.get("fingerprint")) {
        Some(t) => owned(t),
        None => {
            return Err(Error::new(owned("marker file missing fingerprint")));
        },
    };
    Ok(
        MarkEntry {
            path,
            kind,
            sensitive: get_bool_or(v.get("sensitive"), false),
            size: get_u64(v.get("size")),
            fingerprint,
        },
    )
}

/// Something wrong early on is what is wrong with the list.
proof fn lemma_marks_stuck(a: Seq<JsonView>, k: int)
    requires
        0 <= k <= a.len(),
        marks_among(a.subrange(0, k)) is Err,
    ensures
        marks_among(a) == marks_among(a.subrange(0, k)),
    decreases a.len() - k,
{
    if k == a.len() {
        assert(a.subrange(0, k) =~= a);
    } else {
        assert(a.subrange(0, k + 1).drop_last() =~= a.subrange(0, k));
        lemma_marks_stuck(a, k + 1);
    }
}

/// The kept changes in a marker.
pub fn marker_entries_from_json(v: &Json) -> (r: Result<Vec<MarkEntry>, Error>)
    ensures
        marks_in(v@) == marks_result(r),
{
    let a = match get_items(v.get("files")) {
        Some(a) => a,
        None => {
            return Err(Error::new(owned("marker metadata missing files")));
        },
    };
    let ghost all = json::views(a@);
    let mut out: Vec<MarkEntry> = Vec::new();
    let mut i: usize = 0;
    proof {
        assert(all.subrange(0, 0) =~= Seq::<JsonView>::empty());
        assert(mark_views(out@) =~= Seq::<MarkView>::empty());
    }
    while i < a.len()
        invariant
            i <= a.len(),
            all == json::views(a@),
            marks_in(v@) == marks_among(all),
            marks_among(all.subrange(0, i as int)) == Ok::<Seq<MarkView>, Seq<char>>(
                mark_views(out@),
            ),
        decreases a.len() - i,
    {
        let ghost was = out@;
        proof {
            let part = all.subrange(0, i + 1);
            assert(part.drop_last() =~= all.subrange(0, i as int));
            assert(part.last() == a@[i as int]@);
        }
        match read_mark(&a[i]) {
            Ok(m) => {
                out.push(m);
                proof {
                    assert(mark_views(out@) =~= mark_views(was).push(m@));
                }
            },
            Err(e) => {
                proof {
                    lemma_marks_stuck(all, i + 1);
                }
                return Err(e);
            },
        }
        i += 1;
    }
    proof {
        assert(all.subrange(0, all.len() as int) =~= all);
    }
    Ok(out)
}

/// Kept changes come out of a list as they went in.
proof fn lemma_marks_back(ms: Seq<MarkView>)
    ensures
        marks_among(Seq::new(ms.len(), |i: int| mark_json(ms[i]))) == Ok::<
            Seq<MarkView>,
            Seq<char>,
        >(ms),
    decreases ms.len(),
{
    let a = Seq::new(ms.len(), |i: int| mark_json(ms[i]));
    if ms.len() > 0 {
        let h = ms.drop_last();
        lemma_marks_back(h);
        assert(a.drop_last() =~= Seq::new(h.len(), |i: int| mark_json(h[i])));
        let m = ms.last();
        let o = mark_json(m)->Object_0;
        lemma_mark_keys(m);
        json::lemma_member_at(o, 0);
        json::lemma_member_at(o, 1);
        json::lemma_member_at(o, 2);
        json::lemma_member_at(o, 3);
        json::lemma_member_at(o, 4);
        assert(mark_at(mark_json(m)) == Ok::<MarkView, Seq<char>>(m));
        assert(h.push(m) =~= ms);
    } else {
        assert(a =~= Seq::<JsonView>::empty());
        assert(ms =~= Seq::<MarkView>::empty());
    }
}

/// A marker gives back the changes it keeps, and the number of resets at the time.
pub proof fn law_marker_round_trip(id: Seq<char>, name: Seq<char>, n: u64, ms: Seq<MarkView>)
    ensures
        marker_fault(marker_json(id, name, n, ms)) is None,
        json::u64_at(json::field(marker_json(id, name, n, ms), "resetCount"@)) == Some(n),
        marks_in(marker_json(id, name, n, ms)) == Ok::<Seq<MarkView>, Seq<char>>(ms),
{
    let o = marker_json(id, name, n, ms)->Object_0;
    lemma_marker_keys(id, name, n, ms);
    lemma_marks_back(ms);
    json::lemma_member_at(o, 0);
    json::lemma_member_at(o, 1);
    json::lemma_member_at(o, 4);
}

/// The marks that changes are told against, or why they cannot be: a reset undoes the changes that
/// were marked before it.
pub open spec fn marked(v: JsonView, since: Seq<char>, reset_count: u64) -> Result<
    Seq<MarkView>,
    Seq<char>,
> {
    match json::u64_at(json::field(v, "resetCount"@)) {
        None => Err("marker metadata missing resetCount"@),
        Some(n) => if n != reset_count {
            Err(
                "marker "@ + since + " was created before reset count "@ + text::dec(
                    reset_count as nat,
                ) + "; create a new marker"@,
            )
        } else {
            marks_in(v)
        },
    }
}

/// The marks that changes are told against.
pub fn marked_entries(v: &Json, since: &str, reset_count: u64) -> (r: Result<
    Vec<MarkEntry>,
    Error,
>)
    ensures
        marked(v@, since@, reset_count) == marks_result(r),
{
    let n = match get_u64(v.get("resetCount")) {
        Some(n) => n,
        None => {
            return Err(Error::new(owned("marker metadata missing resetCount")));
        },
    };
    if n != reset_count {
        let mut s = cat3("marker ", since, " was created before reset count ");
        let d = dec_u64(reset_count);
        s.append(d.as_str());
        s.append("; create a new marker");
        return Err(Error::new(s));
    }
    marker_entries_from_json(v)
}

/// A change between two times.
#[derive(Debug)]
pub struct EffectEntry {
    pub path: String,
    /// What had happened to the file before.
    pub before: Option<String>,
    /// What has happened to it since.
    pub after: Option<String>,
    pub sensitive: bool,
    pub bytes_written: u64,
}

/// What a change between two times says.
pub struct EffectView {
    pub path: Seq<char>,
    pub before: Option<Seq<char>>,
    pub after: Option<Seq<char>>,
    pub sensitive: bool,
    pub bytes_written: u64,
}

impl View for EffectEntry {
    type V = EffectView;

    open spec fn view(&self) -> EffectView {
        EffectView {
            path: self.path@,
            before: text::opt_text(self.before),
            after: text::opt_text(self.after),
            sensitive: self.sensitive,
            bytes_written: self.bytes_written,
        }
    }
}

/// A text by which texts that may be missing are ordered: a missing one first.
pub open spec fn rank_text(t: Option<Seq<char>>) -> Seq<char> {
    match t {
        Some(t) => "+"@ + t,
        None => ""@,
    }
}

impl Keyed for EffectView {
    open spec fn key(self) -> (Seq<char>, Seq<char>) {
        (self.path, rank_text(self.after))
    }
}

/// What changes between two times say.
pub open spec fn effect_views(v: Seq<EffectEntry>) -> Seq<EffectView> {
    Seq::new(v.len(), |i: int| v[i]@)
}

/// What a kept change is found by: its path and what happened.
pub open spec fn mark_key(m: MarkView) -> Seq<char> {
    m.path + "\0"@ + m.kind
}

/// What kept changes are found by.
pub open spec fn mark_keys(ms: Seq<MarkView>) -> Seq<Seq<char>> {
    Seq::new(ms.len(), |i: int| mark_key(ms[i]))
}

/// The last kept change under a key.
pub open spec fn lookup(ms: Seq<MarkView>, key: Seq<char>) -> Option<MarkView>
    decreases ms.len(),
{
    if ms.len() == 0 {
        None
    } else if mark_key(ms.last()) == key {
        Some(ms.last())
    } else {
        lookup(ms.drop_last(), key)
    }
}

/// The fingerprint of a kept change that may be missing.
pub open spec fn print_of(m: Option<MarkView>) -> Option<Seq<char>> {
    match m {
        Some(m) => Some(m.fingerprint),
        None => None,
    }
}

/// What happened under a key between two times; nothing where the fingerprints are the same.
pub open spec fn effect_at(old_marks: Seq<MarkView>, new_marks: Seq<MarkView>, key: Seq<char>) -> Option<
    EffectView,
> {
    let b = lookup(old_marks, key);
    let a = lookup(new_marks, key);
    if print_of(b) == print_of(a) {
        None
    } else {
        Some(
            EffectView {
                path: match a {
                    Some(m) => m.path,
                    None => b->Some_0.path,
                },
                before: match b {
                    Some(m) => Some(m.kind),
                    None => None,
                },
                after: match a {
                    Some(m) => Some(m.kind),
                    None => None,
                },
                sensitive: (b is Some && b->Some_0.sensitive) || (a is Some && a->Some_0.sensitive),
                bytes_written: match a {
                    Some(m) => match m.size {
                        Some(n) => n,
                        None => 0,
                    },
                    None => 0,
                },
            },
        )
    }
}

/// What happened under each of several keys.
pub open spec fn effects_at(
    old_marks: Seq<MarkView>,
    new_marks: Seq<MarkView>,
    keys: Seq<Seq<char>>,
) -> Seq<EffectView>
    decreases keys.len(),
{
    if keys.len() == 0 {
        Seq::empty()
    } else {
        let head = effects_at(old_marks, new_marks, keys.drop_last());
        match effect_at(old_marks, new_marks, keys.last()) {
            Some(e) => head.push(e),
            None => head,
        }
    }
}

/// The keys of both times, in order.
pub open spec fn all_keys(old_marks: Seq<MarkView>, new_marks: Seq<MarkView>) -> Seq<Seq<char>> {
    order::in_order_once(mark_keys(old_marks) + mark_keys(new_marks))
}

/// What happened between two times, by path and then by what happened since.
pub open spec fn effects(old_marks: Seq<MarkView>, new_marks: Seq<MarkView>) -> Seq<EffectView> {
    order::arranged(effects_at(old_marks, new_marks, all_keys(old_marks, new_marks)))
}

/// What a kept change is found by.
fn key_text(m: &MarkEntry) -> (s: String)
    ensures
        s@ == mark_key(m@),
{
    cat3(m.path.as_str(), "\0", m.kind.as_str())
}

/// The place of the last kept change under a key; the length where there is none.
fn find(ms: &Vec<MarkEntry>, key: &str) -> (k: usize)
    ensures
        k <= ms@.len(),
        lookup(mark_views(ms@), key@) == (if k < ms@.len() {
            Some(ms@[k as int]@)
        } else {
            None
        }),
{
    let ghost all = mark_views(ms@);
    let mut i: usize = ms.len();
    proof {
        assert(all.subrange(0, all.len() as int) =~= all);
    }
    while i > 0
        invariant
            i <= ms@.len(),
            all == mark_views(ms@),
            lookup(all, key@) == lookup(all.subrange(0, i as int), key@),
        decreases i,
    {
        proof {
            let part = all.subrange(0, i as int);
            assert(part.last() == ms@[i - 1]@);
            assert(part.drop_last() =~= all.subrange(0, i - 1));
        }
        let t = key_text(&ms[i - 1]);
        if str_eq(t.as_str(), key) {
            return i - 1;
        }
        i -= 1;
    }
    ms.len()
}

/// What happened under a key.
fn effect_for(old_marks: &Vec<MarkEntry>, new_marks: &Vec<MarkEntry>, key: &str) -> (e: Option<
    EffectEntry,
>)
    ensures
        match e {
            Some(e) => effect_at(mark_views(old_marks@), mark_views(new_marks@), key@) == Some(e@),
            None => effect_at(mark_views(old_marks@), mark_views(new_marks@), key@) is None,
        },
{
    let b = find(old_marks, key);
    let a = find(new_marks, key);
    let was = b < old_marks.len();
    let now = a < new_marks.len();
    if !was && !now {
        return None;
    }
    if was && now && str_eq(
        old_marks[b].fingerprint.as_str(),
        new_marks[a].fingerprint.as_str(),
    ) {
        return None;
    }
    let path = if now {
        new_marks[a].path.clone()
    } else {
        old_marks[b].path.clone()
    };
    let before = if was {
        Some(old_marks[b].kind.clone())
    } else {
        None
    };
    let after = if now {
        Some(new_marks[a].kind.clone())
    } else {
        None
    };
    let bytes_written: u64 = if now {
        match new_marks[a].size {
            Some(n) => n,
            None => 0,
        }
    } else {
        0
    };
    Some(
        EffectEntry {
            path,
            before,
            after,
            sensitive: (was && old_marks[b].sensitive) || (now && new_marks[a].sensitive),
            bytes_written,
        },
    )
}

/// A text by which texts that may be missing are ordered.
fn rank(t: &Option<String>) -> (s: String)
    ensures
        s@ == rank_text(text::opt_text(*t)),
{
    match t {
        Some(t) => cat2("+", t.as_str()),
        None => owned(""),
    }
}

/// Adds a change to changes in order.
fn insert_effect(v: &mut Vec<EffectEntry>, e: EffectEntry)
    ensures
        effect_views(final(v)@) == order::placed(effect_views(old(v)@), e@),
{
    let ghost was = effect_views(v@);
    let ghost x = e@;
    let own = rank(&e.after);
    let mut k: usize = 0;
    loop
        invariant
            k <= v@.len(),
            was == effect_views(v@),
            was == effect_views(old(v)@),
            x == e@,
            own@ == rank_text(x.after),
            forall|i: int| 0 <= i < k ==> !order::pair_before(x.key(), (#[trigger] was[i]).key()),
        ensures
            k < was.len() ==> order::pair_before(x.key(), was[k as int].key()),
        decreases v@.len() - k,
    {
        if k >= v.len() {
            break;
        }
        proof {
            assert(was[k as int].key() == v@[k as int]@.key());
        }
        let other = rank(&v[k].after);
        if pair_less((e.path.as_str(), own.as_str()), (v[k].path.as_str(), other.as_str())) {
            break;
        }
        k += 1;
    }
    proof {
        order::lemma_placed_at(was, x, k as int);
    }
    v.insert(k, e);
    proof {
        assert(effect_views(v@) =~= was.take(k as int) + seq![x] + was.skip(k as int));
    }
}

/// The keys of both times, in order.
fn union_keys(old_marks: &Vec<MarkEntry>, new_marks: &Vec<MarkEntry>) -> (v: Vec<String>)
    ensures
        text::texts(v@) == all_keys(mark_views(old_marks@), mark_views(new_marks@)),
{
    let ghost a = mark_keys(mark_views(old_marks@));
    let ghost b = mark_keys(mark_views(new_marks@));
    let mut all: Vec<String> = Vec::new();
    let mut i: usize = 0;
    while i < old_marks.len()
        invariant
            i <= old_marks.len(),
            a == mark_keys(mark_views(old_marks@)),
            all@.len() == i,
            forall|k: int| 0 <= k < i ==> (#[trigger] all@[k])@ == a[k],
        decreases old_marks.len() - i,
    {
        all.push(key_text(&old_marks[i]));
        i += 1;
    }
    let mut j: usize = 0;
    while j < new_marks.len()
        invariant
            j <= new_marks.len(),
            a == mark_keys(mark_views(old_marks@)),
            b == mark_keys(mark_views(new_marks@)),
            all@.len() == a.len() + j,
            forall|k: int| 0 <= k < a.len() ==> (#[trigger] all@[k])@ == a[k],
            forall|k: int| a.len() <= k < a.len() + j ==> (#[trigger] all@[k])@ == b[k - a.len()],
        decreases new_marks.len() - j,
    {
        all.push(key_text(&new_marks[j]));
        j += 1;
    }
    proof {
        assert(text::texts(all@) =~= a + b);
    }
    sorted_texts(&all)
}

/// What happened between two times.
pub fn effects_since(old_marks: &Vec<MarkEntry>, new_marks: &Vec<MarkEntry>) -> (v: Vec<
    EffectEntry,
>)
    ensures
        effect_views(v@) == effects(mark_views(old_marks@), mark_views(new_marks@)),
{
    let ghost o = mark_views(old_marks@);
    let ghost n = mark_views(new_marks@);
    let keys = union_keys(old_marks, new_marks);
    let ghost all = text::texts(keys@);
    let mut v: Vec<EffectEntry> = Vec::new();
    let mut i: usize = 0;
    proof {
        assert(all.subrange(0, 0) =~= Seq::<Seq<char>>::empty());
        assert(effect_views(v@) =~= Seq::<EffectView>::empty());
        assert(order::arranged(effects_at(o, n, all.subrange(0, 0))) =~= effect_views(v@));
    }
    while i < keys.len()
        invariant
            i <= keys.len(),
            o == mark_views(old_marks@),
            n == mark_views(new_marks@),
            all == text::texts(keys@),
            effect_views(v@) == order::arranged(effects_at(o, n, all.subrange(0, i as int))),
        decreases keys.len() - i,
    {
        let ghost before = effects_at(o, n, all.subrange(0, i as int));
        proof {
            let part = all.subrange(0, i + 1);
            assert(part.drop_last() =~= all.subrange(0, i as int));
            assert(part.last() == keys@[i as int]@);
        }
        match effect_for(old_marks, new_marks, keys[i].as_str()) {
            Some(e) => {
                proof {
                    assert(before.push(e@).drop_last() =~= before);
                }
                insert_effect(&mut v, e);
            },
            None => {},
        }
        i += 1;
    }
    proof {
        assert(all.subrange(0, all.len() as int) =~= all);
    }
    v
}

/// Among what happened under several keys is what happened under one of them.
proof fn lemma_effect_listed(
    o: Seq<MarkView>,
    n: Seq<MarkView>,
    keys: Seq<Seq<char>>,
    key: Seq<char>,
)
    requires
        keys.contains(key),
        effect_at(o, n, key) is Some,
    ensures
        effects_at(o, n, keys).contains(effect_at(o, n, key)->Some_0),
    decreases keys.len(),
{
    let e = effect_at(o, n, key)->Some_0;
    let l = effects_at(o, n, keys);
    if keys.last() == key {
        assert(l[l.len() - 1] == e);
    } else {
        let k = choose|k: int| 0 <= k < keys.len() && keys[k] == key;
        assert(keys.drop_last()[k] == key);
        lemma_effect_listed(o, n, keys.drop_last(), key);
        let h = effects_at(o, n, keys.drop_last());
        let j = choose|j: int| 0 <= j < h.len() && h[j] == e;
        assert(l[j] == e);
    }
}

/// What is listed happened under some key.
proof fn lemma_listed_effect(
    o: Seq<MarkView>,
    n: Seq<MarkView>,
    keys: Seq<Seq<char>>,
    e: EffectView,
)
    requires
        effects_at(o, n, keys).contains(e),
    ensures
        exists|key: Seq<char>| keys.contains(key) && #[trigger] effect_at(o, n, key) == Some(e),
    decreases keys.len(),
{
    let l = effects_at(o, n, keys);
    let j = choose|j: int| 0 <= j < l.len() && l[j] == e;
    if keys.len() > 0 {
        let h = effects_at(o, n, keys.drop_last());
        if effect_at(o, n, keys.last()) == Some(e) {
            assert(keys[keys.len() - 1] == keys.last());
            assert(keys.contains(keys.last()));
        } else {
            assert(h[j] == e);
            assert(h.contains(e));
            lemma_listed_effect(o, n, keys.drop_last(), e);
            let key = choose|key: Seq<char>|
                keys.drop_last().contains(key) && #[trigger] effect_at(o, n, key) == Some(e);
            let k = choose|k: int| 0 <= k < keys.drop_last().len() && keys.drop_last()[k] == key;
            assert(keys[k] == key);
            assert(keys.contains(key));
        }
    }
}

/// A change that is found under a key is among the kept changes.
proof fn lemma_lookup_key(ms: Seq<MarkView>, key: Seq<char>)
    requires
        lookup(ms, key) is Some,
    ensures
        mark_keys(ms).contains(key),
    decreases ms.len(),
{
    if ms.len() > 0 {
        if mark_key(ms.last()) == key {
            assert(mark_keys(ms)[ms.len() - 1] == key);
        } else {
            lemma_lookup_key(ms.drop_last(), key);
            let h = mark_keys(ms.drop_last());
            let k = choose|k: int| 0 <= k < h.len() && h[k] == key;
            assert(mark_keys(ms)[k] == key);
        }
    }
}

/// What is listed between two times are exactly the keys whose fingerprints differ.
pub proof fn law_effects_are_the_differences(
    o: Seq<MarkView>,
    n: Seq<MarkView>,
    key: Seq<char>,
    e: EffectView,
)
    ensures
        effect_at(o, n, key) is Some ==> effects(o, n).contains(effect_at(o, n, key)->Some_0),
        effects(o, n).contains(e) ==> exists|k: Seq<char>| #[trigger]
            effect_at(o, n, k) == Some(e),
{
    broadcast use vstd::seq_lib::group_to_multiset_ensures;

    let keys = all_keys(o, n);
    let l = effects_at(o, n, keys);
    order::law_arranged(l);
    order::law_in_order_once(mark_keys(o) + mark_keys(n));
    if effect_at(o, n, key) is Some {
        let both = mark_keys(o) + mark_keys(n);
        if lookup(o, key) is Some {
            lemma_lookup_key(o, key);
            let k = choose|k: int| 0 <= k < mark_keys(o).len() && mark_keys(o)[k] == key;
            assert(both[k] == key);
        } else {
            lemma_lookup_key(n, key);
            let k = choose|k: int| 0 <= k < mark_keys(n).len() && mark_keys(n)[k] == key;
            assert(both[mark_keys(o).len() + k] == key);
        }
        assert(both.contains(key));
        assert(keys.contains(key));
        lemma_effect_listed(o, n, keys, key);
        assert(l.to_multiset().contains(effect_at(o, n, key)->Some_0));
    }
    if effects(o, n).contains(e) {
        assert(effects(o, n).to_multiset().contains(e));
        assert(l.contains(e));
        lemma_listed_effect(o, n, keys, e);
    }
}

/// Where nothing changed there is nothing to list.
pub proof fn law_no_change_no_effects(ms: Seq<MarkView>)
    ensures
        effects(ms, ms).len() == 0,
{
    broadcast use vstd::seq_lib::group_to_multiset_ensures;

    let keys = all_keys(ms, ms);
    lemma_same_marks(ms, keys);
    assert(effects_at(ms, ms, keys) =~= Seq::<EffectView>::empty());
}

/// Under no key did anything happen.
proof fn lemma_same_marks(ms: Seq<MarkView>, keys: Seq<Seq<char>>)
    ensures
        effects_at(ms, ms, keys).len() == 0,
    decreases keys.len(),
{
    if keys.len() > 0 {
        lemma_same_marks(ms, keys.drop_last());
    }
}

/// Whether kept changes are told apart by their paths and what happened.
pub open spec fn told_apart(ms: Seq<MarkView>) -> bool {
    &&& forall|i: int| 0 <= i < ms.len() ==> text::nul_free((#[trigger] ms[i]).path)
    &&& forall|i: int, j: int|
        0 <= i < j < ms.len() ==> !((#[trigger] ms[i]).path == (#[trigger] ms[j]).path && ms[i].kind
            == ms[j].kind)
}

/// What something at `path` is found by that `kind` happened to.
pub open spec fn key_of(path: Seq<char>, kind: Seq<char>) -> Seq<char> {
    path + "\0"@ + kind
}

/// A key says one path and one thing that happened.
proof fn lemma_key_parts(p: Seq<char>, k: Seq<char>, q: Seq<char>, l: Seq<char>)
    requires
        text::nul_free(p),
        text::nul_free(q),
        key_of(p, k) == key_of(q, l),
    ensures
        p == q,
        k == l,
{
    reveal_strlit("\0");
    let a = key_of(p, k);
    let b = key_of(q, l);
    assert(a[p.len() as int] == '\0');
    assert(b[q.len() as int] == '\0');
    if p.len() < q.len() {
        assert(b[p.len() as int] == q[p.len() as int]);
    }
    if q.len() < p.len() {
        assert(a[q.len() as int] == p[q.len() as int]);
    }
    assert(a.take(p.len() as int) =~= p);
    assert(b.take(q.len() as int) =~= q);
    assert(a.skip(p.len() as int + 1) =~= k);
    assert(b.skip(q.len() as int + 1) =~= l);
}

/// What is found under a key is one of the kept changes, and has that key.
proof fn lemma_lookup_found(ms: Seq<MarkView>, key: Seq<char>)
    requires
        lookup(ms, key) is Some,
    ensures
        ms.contains(lookup(ms, key)->Some_0),
        mark_key(lookup(ms, key)->Some_0) == key,
    decreases ms.len(),
{
    if mark_key(ms.last()) == key {
        assert(ms[ms.len() - 1] == ms.last());
    } else {
        let h = ms.drop_last();
        lemma_lookup_found(h, key);
        let k = choose|k: int| 0 <= k < h.len() && h[k] == lookup(h, key)->Some_0;
        assert(ms[k] == h[k]);
    }
}

/// Of kept changes that are told apart each is found under its key.
pub proof fn law_marks_found(ms: Seq<MarkView>, m: MarkView)
    requires
        told_apart(ms),
        ms.contains(m),
    ensures
        lookup(ms, key_of(m.path, m.kind)) == Some(m),
    decreases ms.len(),
{
    let k = choose|k: int| 0 <= k < ms.len() && ms[k] == m;
    if k == ms.len() - 1 {
    } else {
        let h = ms.drop_last();
        if mark_key(ms.last()) == mark_key(m) {
            assert(text::nul_free(ms[k].path) && text::nul_free(ms[ms.len() - 1].path));
            lemma_key_parts(ms.last().path, ms.last().kind, m.path, m.kind);
            assert(ms[k].path == ms[ms.len() - 1].path);
        }
        assert forall|i: int| 0 <= i < h.len() implies text::nul_free((#[trigger] h[i]).path) by {
            assert(h[i] == ms[i]);
        }
        assert forall|i: int, j: int| 0 <= i < j < h.len() implies !((#[trigger] h[i]).path
            == (#[trigger] h[j]).path && h[i].kind == h[j].kind) by {
            assert(h[i] == ms[i] && h[j] == ms[j]);
        }
        assert(h[k] == m);
        law_marks_found(h, m);
    }
}

/// What a change between two times happened to: what is there now, or what was there.
pub open spec fn effect_kind(e: EffectView) -> Seq<char> {
    match e.after {
        Some(k) => k,
        None => e.before->Some_0,
    }
}

/// What a change between two times is found by.
pub open spec fn effect_key(e: EffectView) -> Seq<char> {
    key_of(e.path, effect_kind(e))
}

/// A change between two times has the key that it happened under.
proof fn lemma_effect_key(o: Seq<MarkView>, n: Seq<MarkView>, key: Seq<char>)
    requires
        effect_at(o, n, key) is Some,
    ensures
        effect_key(effect_at(o, n, key)->Some_0) == key,
{
    if lookup(o, key) is Some {
        lemma_lookup_found(o, key);
    }
    if lookup(n, key) is Some {
        lemma_lookup_found(n, key);
    }
}

/// Under keys that are all different nothing is listed twice.
proof fn lemma_listed_once(o: Seq<MarkView>, n: Seq<MarkView>, keys: Seq<Seq<char>>)
    requires
        order::strictly(keys),
    ensures
        effects_at(o, n, keys).no_duplicates(),
    decreases keys.len(),
{
    if keys.len() > 0 {
        let h = keys.drop_last();
        assert forall|i: int, j: int| 0 <= i < j < h.len() implies order::before(
            #[trigger] h[i],
            #[trigger] h[j],
        ) by {
            assert(order::before(keys[i], keys[j]));
        }
        lemma_listed_once(o, n, h);
        if effect_at(o, n, keys.last()) is Some {
            let e = effect_at(o, n, keys.last())->Some_0;
            let l = effects_at(o, n, h);
            lemma_effect_key(o, n, keys.last());
            if l.contains(e) {
                lemma_listed_effect(o, n, h, e);
                let key = choose|key: Seq<char>|
                    h.contains(key) && #[trigger] effect_at(o, n, key) == Some(e);
                lemma_effect_key(o, n, key);
                let k = choose|k: int| 0 <= k < h.len() && h[k] == key;
                assert(order::before(keys[k], keys[keys.len() - 1]));
                order::lemma_irreflexive(key);
            }
        }
    }
}

/// Whether the change listed at `i` is one of `kind` at `path`.
pub open spec fn listed_for(
    es: Seq<EffectView>,
    path: Seq<char>,
    kind: Seq<char>,
    i: int,
) -> bool {
    0 <= i < es.len() && es[i].path == path && effect_kind(es[i]) == kind
}

/// Between two times of which each tells its changes apart, one change is listed for each path and
/// thing that happened where only one time has it or the fingerprints differ, and none for any
/// other; the list is in the order of the paths.
pub proof fn law_each_difference_once(
    o: Seq<MarkView>,
    n: Seq<MarkView>,
    path: Seq<char>,
    kind: Seq<char>,
)
    requires
        told_apart(o),
        told_apart(n),
        text::nul_free(path),
    ensures
        effect_at(o, n, key_of(path, kind)) is Some <==> exists|i: int| #[trigger]
            listed_for(effects(o, n), path, kind, i),
        forall|i: int| #[trigger]
            listed_for(effects(o, n), path, kind, i) ==> effect_at(o, n, key_of(path, kind))
                == Some(effects(o, n)[i]),
        forall|i: int, j: int|
            listed_for(effects(o, n), path, kind, i) && listed_for(effects(o, n), path, kind, j)
                ==> i == j,
        forall|i: int, j: int|
            0 <= i < j < effects(o, n).len() ==> !order::before(
                (#[trigger] effects(o, n)[j]).path,
                (#[trigger] effects(o, n)[i]).path,
            ),
{
    broadcast use vstd::seq_lib::group_to_multiset_ensures;

    let key = key_of(path, kind);
    let keys = all_keys(o, n);
    let l = effects_at(o, n, keys);
    let es = effects(o, n);
    order::law_arranged(l);
    order::law_in_order_once(mark_keys(o) + mark_keys(n));
    lemma_listed_once(o, n, keys);
    l.lemma_multiset_has_no_duplicates();
    es.lemma_multiset_has_no_duplicates_conv();
    assert forall|i: int| 0 <= i < es.len() implies effect_at(
        o,
        n,
        effect_key(#[trigger] es[i]),
    ) == Some(es[i]) by {
        assert(es.contains(es[i]));
        law_effects_are_the_differences(o, n, key, es[i]);
        let k = choose|k: Seq<char>| #[trigger] effect_at(o, n, k) == Some(es[i]);
        lemma_effect_key(o, n, k);
    }
    if effect_at(o, n, key) is Some {
        let e = effect_at(o, n, key)->Some_0;
        law_effects_are_the_differences(o, n, key, e);
        lemma_effect_key(o, n, key);
        if lookup(o, key) is Some {
            lemma_lookup_found(o, key);
            let m = lookup(o, key)->Some_0;
            let k = choose|k: int| 0 <= k < o.len() && o[k] == m;
            assert(text::nul_free(o[k].path));
            lemma_key_parts(m.path, m.kind, path, kind);
        }
        if lookup(n, key) is Some {
            lemma_lookup_found(n, key);
            let m = lookup(n, key)->Some_0;
            let k = choose|k: int| 0 <= k < n.len() && n[k] == m;
            assert(text::nul_free(n[k].path));
            lemma_key_parts(m.path, m.kind, path, kind);
        }
        let i = choose|i: int| 0 <= i < es.len() && es[i] == e;
        assert(listed_for(es, path, kind, i));
    }
    assert forall|i: int, j: int|
        listed_for(es, path, kind, i) && listed_for(es, path, kind, j) implies i == j by {
        assert(effect_key(es[i]) == key && effect_key(es[j]) == key);
        assert(es[i] == es[j]);
    }
    assert forall|i: int, j: int| 0 <= i < j < es.len() implies !order::before(
        (#[trigger] es[j]).path,
        (#[trigger] es[i]).path,
    ) by {
        assert(!order::pair_before(es[j].key(), es[i].key()));
    }
}

/// In another order the same changes are found under each key.
proof fn lemma_same_lookup(a: Seq<MarkView>, b: Seq<MarkView>, key: Seq<char>)
    requires
        told_apart(a),
        told_apart(b),
        a.to_multiset() == b.to_multiset(),
    ensures
        lookup(a, key) == lookup(b, key),
{
    broadcast use vstd::seq_lib::group_to_multiset_ensures;

    if lookup(a, key) is Some {
        let m = lookup(a, key)->Some_0;
        lemma_lookup_found(a, key);
        assert(a.to_multiset().contains(m));
        assert(b.contains(m));
        law_marks_found(b, m);
    }
    if lookup(b, key) is Some {
        let m = lookup(b, key)->Some_0;
        lemma_lookup_found(b, key);
        assert(b.to_multiset().contains(m));
        assert(a.contains(m));
        law_marks_found(a, m);
    }
}

/// In another order there are the same keys.
proof fn lemma_same_keys(a: Seq<MarkView>, b: Seq<MarkView>, key: Seq<char>)
    requires
        a.to_multiset() == b.to_multiset(),
        mark_keys(a).contains(key),
    ensures
        mark_keys(b).contains(key),
{
    broadcast use vstd::seq_lib::group_to_multiset_ensures;

    let k = choose|k: int| 0 <= k < mark_keys(a).len() && mark_keys(a)[k] == key;
    assert(a.contains(a[k]));
    assert(a.to_multiset().contains(a[k]));
    assert(b.contains(a[k]));
    let j = choose|j: int| 0 <= j < b.len() && b[j] == a[k];
    assert(mark_keys(b)[j] == key);
}

/// The keys of two lists are those of either.
proof fn lemma_either_key(a: Seq<MarkView>, b: Seq<MarkView>, key: Seq<char>)
    ensures
        (mark_keys(a) + mark_keys(b)).contains(key) <==> mark_keys(a).contains(key) || mark_keys(
            b,
        ).contains(key),
{
    let x = mark_keys(a);
    let y = mark_keys(b);
    if (x + y).contains(key) {
        let k = choose|k: int| 0 <= k < (x + y).len() && (x + y)[k] == key;
        if k < x.len() {
            assert(x[k] == key);
        } else {
            assert(y[k - x.len()] == key);
        }
    }
    if x.contains(key) {
        let k = choose|k: int| 0 <= k < x.len() && x[k] == key;
        assert((x + y)[k] == key);
    }
    if y.contains(key) {
        let k = choose|k: int| 0 <= k < y.len() && y[k] == key;
        assert((x + y)[x.len() + k] == key);
    }
}

/// Under the same keys the same is listed.
proof fn lemma_same_effects(
    o: Seq<MarkView>,
    o2: Seq<MarkView>,
    n: Seq<MarkView>,
    n2: Seq<MarkView>,
    keys: Seq<Seq<char>>,
)
    requires
        forall|k: Seq<char>| #[trigger] lookup(o, k) == lookup(o2, k),
        forall|k: Seq<char>| #[trigger] lookup(n, k) == lookup(n2, k),
    ensures
        effects_at(o, n, keys) == effects_at(o2, n2, keys),
    decreases keys.len(),
{
    if keys.len() > 0 {
        lemma_same_effects(o, o2, n, n2, keys.drop_last());
        assert(lookup(o, keys.last()) == lookup(o2, keys.last()));
        assert(lookup(n, keys.last()) == lookup(n2, keys.last()));
    }
}

/// What is listed between two times does not depend on the order in which their changes were kept.
pub proof fn law_effects_ignore_order(
    o: Seq<MarkView>,
    o2: Seq<MarkView>,
    n: Seq<MarkView>,
    n2: Seq<MarkView>,
)
    requires
        told_apart(o),
        told_apart(n),
        o.to_multiset() == o2.to_multiset(),
        n.to_multiset() == n2.to_multiset(),
    ensures
        effects(o, n) == effects(o2, n2),
{
    lemma_told_apart_still(o, o2);
    lemma_told_apart_still(n, n2);
    assert forall|k: Seq<char>| #[trigger] lookup(o, k) == lookup(o2, k) by {
        lemma_same_lookup(o, o2, k);
    }
    assert forall|k: Seq<char>| #[trigger] lookup(n, k) == lookup(n2, k) by {
        lemma_same_lookup(n, n2, k);
    }
    let a = all_keys(o, n);
    let b = all_keys(o2, n2);
    order::law_in_order_once(mark_keys(o) + mark_keys(n));
    order::law_in_order_once(mark_keys(o2) + mark_keys(n2));
    assert forall|x: Seq<char>| #[trigger] a.contains(x) <==> b.contains(x) by {
        lemma_either_key(o, n, x);
        lemma_either_key(o2, n2, x);
        if mark_keys(o).contains(x) {
            lemma_same_keys(o, o2, x);
        }
        if mark_keys(o2).contains(x) {
            lemma_same_keys(o2, o, x);
        }
        if mark_keys(n).contains(x) {
            lemma_same_keys(n, n2, x);
        }
        if mark_keys(n2).contains(x) {
            lemma_same_keys(n2, n, x);
        }
    }
    order::lemma_one_order(a, b);
    lemma_same_effects(o, o2, n, n2, a);
}

/// In another order kept changes are still told apart.
proof fn lemma_told_apart_still(a: Seq<MarkView>, b: Seq<MarkView>)
    requires
        told_apart(a),
        a.to_multiset() == b.to_multiset(),
    ensures
        told_apart(b),
{
    broadcast use vstd::seq_lib::group_to_multiset_ensures;

    assert(a.no_duplicates());
    a.lemma_multiset_has_no_duplicates();
    b.lemma_multiset_has_no_duplicates_conv();
    assert forall|i: int| 0 <= i < b.len() implies text::nul_free((#[trigger] b[i]).path) by {
        assert(b.contains(b[i]));
        assert(b.to_multiset().contains(b[i]));
        assert(a.contains(b[i]));
        let k = choose|k: int| 0 <= k < a.len() && a[k] == b[i];
        assert(text::nul_free(a[k].path));
    }
    assert forall|i: int, j: int| 0 <= i < j < b.len() implies !((#[trigger] b[i]).path == (
    #[trigger] b[j]).path && b[i].kind == b[j].kind) by {
        assert(b.to_multiset().contains(b[i]) && b.to_multiset().contains(b[j]));
        assert(a.contains(b[i]) && a.contains(b[j]));
        let k = choose|k: int| 0 <= k < a.len() && a[k] == b[i];
        let l = choose|l: int| 0 <= l < a.len() && a[l] == b[j];
        assert(b[i] != b[j]);
        assert(k != l);
        if k < l {
            assert(!(a[k].path == a[l].path && a[k].kind == a[l].kind));
        } else {
            assert(!(a[l].path == a[k].path && a[l].kind == a[k].kind));
        }
    }
}

/// The bytes written in all.
pub open spec fn total_written(es: Seq<EffectView>) -> nat
    decreases es.len(),
{
    if es.len() == 0 {
        0
    } else {
        total_written(es.drop_last()) + es.last().bytes_written as nat
    }
}

/// Up to a place no more was written than in all.
proof fn lemma_written_grows(es: Seq<EffectView>, k: int)
    requires
        0 <= k <= es.len(),
    ensures
        total_written(es.subrange(0, k)) <= total_written(es),
    decreases es.len() - k,
{
    if k == es.len() {
        assert(es.subrange(0, k) =~= es);
    } else {
        assert(es.subrange(0, k + 1).drop_last() =~= es.subrange(0, k));
        lemma_written_grows(es, k + 1);
    }
}

/// The bytes written in all, where their number fits.
pub fn bytes_written(v: &Vec<EffectEntry>) -> (n: Option<u64>)
    ensures
        n == (if total_written(effect_views(v@)) <= u64::MAX {
            Some(total_written(effect_views(v@)) as u64)
        } else {
            None
        }),
{
    let ghost es = effect_views(v@);
    let mut n: u64 = 0;
    let mut i: usize = 0;
    proof {
        assert(es.subrange(0, 0) =~= Seq::<EffectView>::empty());
    }
    while i < v.len()
        invariant
            i <= v.len(),
            es == effect_views(v@),
            n == total_written(es.subrange(0, i as int)),
        decreases v.len() - i,
    {
        proof {
            let part = es.subrange(0, i + 1);
            assert(part.drop_last() =~= es.subrange(0, i as int));
            assert(part.last() == v@[i as int]@);
            lemma_written_grows(es, i + 1);
        }
        if v[i].bytes_written > u64::MAX - n {
            return None;
        }
        n = n + v[i].bytes_written;
        i += 1;
    }
    proof {
        assert(es.subrange(0, es.len() as int) =~= es);
    }
    Some(n)
}

/// A change between two times as JSON.
pub open spec fn effect_json(e: EffectView) -> JsonView {
    JsonView::Object(
        seq![
            ("after"@, state::opt_text_json(e.after)),
            ("before"@, state::opt_text_json(e.before)),
            ("bytes_written"@, JsonView::UInt(e.bytes_written)),
            ("path"@, JsonView::Str(e.path)),
            ("sensitive"@, JsonView::Bool(e.sensitive)),
        ],
    )
}

/// The paths of changes.
pub open spec fn effect_paths(es: Seq<EffectView>) -> Seq<Seq<char>> {
    Seq::new(es.len(), |i: int| es[i].path)
}

/// Whether one of the changes is at a sensitive path.
pub open spec fn touches(es: Seq<EffectView>) -> bool {
    exists|i: int| 0 <= i < es.len() && (#[trigger] es[i]).sensitive
}

/// The report on changes since a marker, as JSON.
pub open spec fn report_json(id: Seq<char>, since: Seq<char>, es: Seq<EffectView>) -> JsonView {
    JsonView::Object(
        seq![
            ("backend"@, JsonView::Str("overlayfs"@)),
            ("bytes_written"@, JsonView::UInt(total_written(es) as u64)),
            (
                "changed_files"@,
                hooks::strings_json(order::in_order_once(effect_paths(es))),
            ),
            ("files"@, JsonView::Array(Seq::new(es.len(), |i: int| effect_json(es[i])))),
            ("id"@, JsonView::Str(id)),
            ("network_used"@, JsonView::Null),
            ("persistent_fs_change"@, JsonView::Bool(es.len() > 0)),
            ("processes_spawned"@, JsonView::Null),
            ("sensitive_path_touched"@, JsonView::Bool(touches(es))),
            ("since"@, JsonView::Str(since)),
        ],
    )
}

/// The keys of a change are in order.
proof fn lemma_effect_tame(e: EffectView, depth: nat)
    requires
        depth >= 1,
    ensures
        json::tame(effect_json(e), depth),
{
    reveal_strlit("after");
    reveal_strlit("before");
    reveal_strlit("bytes_written");
    reveal_strlit("path");
    reveal_strlit("sensitive");
    order::lemma_first_difference("after"@, "before"@, 0);
    order::lemma_first_difference("before"@, "bytes_written"@, 1);
    order::lemma_first_difference("bytes_written"@, "path"@, 0);
    order::lemma_first_difference("path"@, "sensitive"@, 0);
    let o = effect_json(e)->Object_0;
    json::lemma_adjacent_keys(o);
    let d = (depth - 1) as nat;
    assert forall|i: int| 0 <= i < o.len() implies json::tame((#[trigger] o[i]).1, d) by {
    }
}

/// The keys of the report are in order.
proof fn lemma_report_tame(id: Seq<char>, since: Seq<char>, es: Seq<EffectView>)
    ensures
        json::tame(report_json(id, since, es), json::read_depth()),
{
    reveal_strlit("backend");
    reveal_strlit("bytes_written");
    reveal_strlit("changed_files");
    reveal_strlit("files");
    reveal_strlit("id");
    reveal_strlit("network_used");
    reveal_strlit("persistent_fs_change");
    reveal_strlit("processes_spawned");
    reveal_strlit("sensitive_path_touched");
    reveal_strlit("since");
    order::lemma_first_difference("backend"@, "bytes_written"@, 1);
    order::lemma_first_difference("bytes_written"@, "changed_files"@, 0);
    order::lemma_first_difference("changed_files"@, "files"@, 0);
    order::lemma_first_difference("files"@, "id"@, 0);
    order::lemma_first_difference("id"@, "network_used"@, 0);
    order::lemma_first_difference("network_used"@, "persistent_fs_change"@, 0);
    order::lemma_first_difference("persistent_fs_change"@, "processes_spawned"@, 1);
    order::lemma_first_difference("processes_spawned"@, "sensitive_path_touched"@, 0);
    order::lemma_first_difference("sensitive_path_touched"@, "since"@, 1);
    let o = report_json(id, since, es)->Object_0;
    json::lemma_adjacent_keys(o);
    let d = (json::read_depth() - 1) as nat;
    let a = o[3].1->Array_0;
    assert forall|i: int| 0 <= i < a.len() implies json::tame(#[trigger] a[i], (d - 1) as nat) by {
        lemma_effect_tame(es[i], (d - 1) as nat);
    }
    assert(json::tame(o[3].1, d));
    hooks::lemma_strings_tame(order::in_order_once(effect_paths(es)), d);
    assert forall|i: int| 0 <= i < o.len() implies json::tame((#[trigger] o[i]).1, d) by {
    }
}

/// A text that may be missing.
fn borrowed(t: &Option<String>) -> (r: Option<&str>)
    ensures
        (match r {
            Some(s) => Some(s@),
            None => None,
        }) == text::opt_text(*t),
{
    match t {
        Some(s) => Some(s.as_str()),
        None => None,
    }
}

/// A change between two times as JSON.
fn effect_to_json(e: &EffectEntry) -> (j: Json)
    ensures
        j@ == effect_json(e@),
{
    let j = Json::Object(
        vec![
            named("after", opt_text_to_json(borrowed(&e.after))),
            named("before", opt_text_to_json(borrowed(&e.before))),
            named("bytes_written", Json::UInt(e.bytes_written)),
            named("path", Json::Str(e.path.clone())),
            named("sensitive", Json::Bool(e.sensitive)),
        ],
    );
    proof {
        assert(j@->Object_0 =~= effect_json(e@)->Object_0);
    }
    j
}

/// The report on changes since a marker, as JSON; `total` is the number of bytes written in all.
pub fn effects_json(id: &str, since: &str, v: &Vec<EffectEntry>, total: u64) -> (b: Vec<u8>)
    requires
        total == total_written(effect_views(v@)),
    ensures
        b@ == json::rendered(report_json(id@, since@, effect_views(v@))),
        json::reads_as(b@, report_json(id@, since@, effect_views(v@))),
{
    let ghost es = effect_views(v@);
    let mut files: Vec<Json> = Vec::new();
    let mut paths: Vec<String> = Vec::new();
    let mut touched = false;
    let mut i: usize = 0;
    while i < v.len()
        invariant
            i <= v.len(),
            es == effect_views(v@),
            files@.len() == i,
            paths@.len() == i,
            forall|k: int| 0 <= k < i ==> (#[trigger] files@[k])@ == effect_json(es[k]),
            forall|k: int| 0 <= k < i ==> (#[trigger] paths@[k])@ == es[k].path,
            touched == exists|k: int| 0 <= k < i && (#[trigger] es[k]).sensitive,
        decreases v.len() - i,
    {
        let one = effect_to_json(&v[i]);
        proof {
            assert(es[i as int] == v@[i as int]@);
        }
        files.push(one);
        paths.push(v[i].path.clone());
        if v[i].sensitive {
            touched = true;
        }
        i += 1;
    }
    let changed = sorted_texts(&paths);
    let list = Json::Array(files);
    proof {
        assert(text::texts(paths@) =~= effect_paths(es));
        assert(list@->Array_0 =~= Seq::new(es.len(), |i: int| effect_json(es[i])));
        assert(touched == touches(es));
    }
    let doc = Json::Object(
        vec![
            named("backend", Json::Str(owned("overlayfs"))),
            named("bytes_written", Json::UInt(total)),
            named("changed_files", strings_to_json(&changed)),
            named("files", list),
            named("id", Json::Str(owned(id))),
            named("network_used", Json::Null),
            named("persistent_fs_change", Json::Bool(v.len() > 0)),
            named("processes_spawned", Json::Null),
            named("sensitive_path_touched", Json::Bool(touched)),
            named("since", Json::Str(owned(since))),
        ],
    );
    proof {
        assert(doc@->Object_0 =~= report_json(id@, since@, es)->Object_0);
        lemma_report_tame(id@, since@, es);
    }
    render_json(&doc)
}

/// A change between two times on a line.
pub open spec fn effect_line(e: EffectView) -> Seq<char> {
    (match e.before {
        Some(t) => t,
        None => "-"@,
    }) + "->"@ + (match e.after {
        Some(t) => t,
        None => "-"@,
    }) + "\t"@ + e.path + "\n"@
}

/// Changes between two times on lines.
pub open spec fn effect_lines(es: Seq<EffectView>) -> Seq<char>
    decreases es.len(),
{
    if es.len() == 0 {
        Seq::empty()
    } else {
        effect_lines(es.drop_last()) + effect_line(es.last())
    }
}

/// What is printed of changes since a marker without JSON.
pub fn cmd_effects(v: &Vec<EffectEntry>) -> (s: String)
    ensures
        s@ == effect_lines(effect_views(v@)),
{
    let ghost es = effect_views(v@);
    let mut s = String::new();
    let mut i: usize = 0;
    proof {
        assert(es.subrange(0, 0) =~= Seq::<EffectView>::empty());
    }
    while i < v.len()
        invariant
            i <= v.len(),
            es == effect_views(v@),
            s@ == effect_lines(es.subrange(0, i as int)),
        decreases v.len() - i,
    {
        let ghost was = s@;
        match &v[i].before {
            Some(t) => s.append(t.as_str()),
            None => s.append("-"),
        }
        s.append("->");
        match &v[i].after {
            Some(t) => s.append(t.as_str()),
            None => s.append("-"),
        }
        s.append("\t");
        s.append(v[i].path.as_str());
        s.append("\n");
        proof {
            let part = es.subrange(0, i + 1);
            assert(part.drop_last() =~= es.subrange(0, i as int));
            assert(part.last() == v@[i as int]@);
            assert(s@ =~= was + effect_line(v@[i as int]@));
        }
        i += 1;
    }
    proof {
        assert(es.subrange(0, es.len() as int) =~= es);
    }
    s
}

/// What a change is kept as in a marker: where, what happened, whether it is sensitive, its size
/// above, and what tells its state.
pub proof fn law_marks_made(es: Seq<diff::DiffView>, i: int)
    requires
        0 <= i < es.len(),
    ensures
        marks_of(es).len() == es.len(),
        ({
            let m = marks_of(es)[i];
            &&& m.path == es[i].path
            &&& m.kind == diff::diff_text(es[i].kind)
            &&& m.sensitive == es[i].sensitive
            &&& m.size == es[i].size
            &&& m.fingerprint == es[i].fingerprint
        }),
{
}

/// What a marker says, read back, each thing under its own name.
pub proof fn law_marker_says(id: Seq<char>, name: Seq<char>, n: u64, ms: Seq<MarkView>, i: int)
    requires
        0 <= i < ms.len(),
    ensures
        ({
            let d = marker_json(id, name, n, ms);
            let files = json::field(d, "files"@);
            let m = files->Some_0->Array_0[i];
            &&& json::field(d, "backend"@) == Some(JsonView::Str("overlayfs"@))
            &&& json::field(d, "id"@) == Some(JsonView::Str(id))
            &&& json::field(d, "name"@) == Some(JsonView::Str(name))
            &&& json::field(d, "resetCount"@) == Some(JsonView::UInt(n))
            &&& json::field(d, "version"@) == Some(JsonView::UInt(1))
            &&& files matches Some(JsonView::Array(a)) && a.len() == ms.len()
            &&& json::field(m, "path"@) == Some(JsonView::Str(ms[i].path))
            &&& json::field(m, "kind"@) == Some(JsonView::Str(ms[i].kind))
            &&& json::field(m, "fingerprint"@) == Some(JsonView::Str(ms[i].fingerprint))
            &&& json::field(m, "sensitive"@) == Some(JsonView::Bool(ms[i].sensitive))
            &&& json::u64_at(json::field(m, "size"@)) == ms[i].size
            &&& ms[i].size is None <==> json::field(m, "size"@) == Some(JsonView::Null)
        }),
{
    lemma_marker_keys(id, name, n, ms);
    let o = marker_json(id, name, n, ms)->Object_0;
    json::lemma_members_at(o);
    assert(o[0].0 == "backend"@);
    assert(o[1].0 == "files"@);
    assert(o[2].0 == "id"@);
    assert(o[3].0 == "name"@);
    assert(o[4].0 == "resetCount"@);
    assert(o[5].0 == "version"@);
    let a = o[1].1->Array_0;
    assert(a[i] == mark_json(ms[i]));
    lemma_mark_keys(ms[i]);
    let k = mark_json(ms[i])->Object_0;
    json::lemma_members_at(k);
    assert(k[0].0 == "fingerprint"@);
    assert(k[1].0 == "kind"@);
    assert(k[2].0 == "path"@);
    assert(k[3].0 == "sensitive"@);
    assert(k[4].0 == "size"@);
}

/// What is read of a kept change: it needs a path, a kind and what tells its state; it is sensitive
/// only where it says so.
pub proof fn law_mark_read(v: JsonView)
    ensures
        mark_at(v) matches Ok(m) ==> {
            &&& json::field(v, "path"@) == Some(JsonView::Str(m.path))
            &&& json::field(v, "kind"@) == Some(JsonView::Str(m.kind))
            &&& json::field(v, "fingerprint"@) == Some(JsonView::Str(m.fingerprint))
            &&& m.sensitive <==> json::field(v, "sensitive"@) == Some(JsonView::Bool(true))
            &&& m.size == json::u64_at(json::field(v, "size"@))
        },
        mark_at(v) is Ok <==> (json::field(v, "path"@) matches Some(JsonView::Str(_))) && (
        json::field(v, "kind"@) matches Some(JsonView::Str(_))) && (json::field(v, "fingerprint"@)
            matches Some(JsonView::Str(_))),
{
}

/// A marker counts only as long as the layers were not reset since.
pub proof fn law_marker_of_this_run(v: JsonView, since: Seq<char>, reset_count: u64)
    ensures
        json::field(v, "resetCount"@) != Some(JsonView::UInt(reset_count)) ==> marked(
            v,
            since,
            reset_count,
        ) is Err,
        json::field(v, "resetCount"@) == Some(JsonView::UInt(reset_count)) ==> marked(
            v,
            since,
            reset_count,
        ) == marks_in(v),
        marker_fault(v) is None <==> json::field(v, "backend"@) == Some(
            JsonView::Str("overlayfs"@),
        ),
{
}

/// A marker is kept in a file of its name, in a directory of its own below that of the container.
pub proof fn law_marker_file(root: Seq<char>, name: Seq<char>)
    requires
        root.len() > 0,
        snapshot::name_fault(name, "marker name"@) is None,
    ensures
        path::names(marker_file(root, name)) == path::names(root) + seq![
            "markers"@,
            name + ".json"@,
        ],
{
    reveal_strlit("markers");
    reveal_strlit(".json");
    reveal_strlit(".");
    let file = name + ".json"@;
    assert(!text::has_char("markers"@, '/'));
    assert("markers"@.len() == 7 && ".json"@.len() == 5 && "."@.len() == 1);
    assert("markers"@[0] == 'm');
    assert forall|i: int| 0 <= i < file.len() implies file[i] != '/' by {
        if i < name.len() {
            assert(file[i] == name[i]);
        } else {
            assert(file[i] == ".json"@[i - name.len()]);
        }
    }
    assert(file[0] == name[0] && name[0] != '/');
    path::law_joined_names(root, "markers"@);
    path::law_joined_names(path::joined(root, "markers"@), file);
    path::lemma_one_name("markers"@);
    path::lemma_one_name(file);
    assert(path::names(root) + seq!["markers"@] + seq![file] =~= path::names(root) + seq![
        "markers"@,
        file,
    ]);
}

/// What came of a change between two times, by the marks of it: where only the later has it, it came;
/// where only the earlier has it, it went; where both have it, it is listed only if its state
/// differs. It is sensitive where either mark is, and what was written is its size in the later.
pub proof fn law_effect_of_marks(o: Seq<MarkView>, n: Seq<MarkView>, b: MarkView, a: MarkView)
    requires
        told_apart(o),
        told_apart(n),
        a.path == b.path,
        a.kind == b.kind,
    ensures
        o.contains(b) && n.contains(a) && a.fingerprint == b.fingerprint ==> effect_at(
            o,
            n,
            key_of(a.path, a.kind),
        ) is None,
        o.contains(b) && n.contains(a) && a.fingerprint != b.fingerprint ==> effects(o, n).contains(
            EffectView {
                path: a.path,
                before: Some(b.kind),
                after: Some(a.kind),
                sensitive: a.sensitive || b.sensitive,
                bytes_written: match a.size {
                    Some(s) => s,
                    None => 0,
                },
            },
        ),
        n.contains(a) && lookup(o, key_of(a.path, a.kind)) is None ==> effects(o, n).contains(
            EffectView {
                path: a.path,
                before: None,
                after: Some(a.kind),
                sensitive: a.sensitive,
                bytes_written: match a.size {
                    Some(s) => s,
                    None => 0,
                },
            },
        ),
        o.contains(b) && lookup(n, key_of(b.path, b.kind)) is None ==> effects(o, n).contains(
            EffectView {
                path: b.path,
                before: Some(b.kind),
                after: None,
                sensitive: b.sensitive,
                bytes_written: 0,
            },
        ),
{
    let key = key_of(a.path, a.kind);
    if o.contains(b) {
        law_marks_found(o, b);
    }
    if n.contains(a) {
        law_marks_found(n, a);
    }
    if effect_at(o, n, key) is Some {
        law_effects_are_the_differences(o, n, key, effect_at(o, n, key)->Some_0);
    }
}

/// What was written in all is what was written of each.
pub proof fn law_total_written(a: Seq<EffectView>, b: Seq<EffectView>, e: EffectView)
    ensures
        total_written(a + b) == total_written(a) + total_written(b),
        total_written(seq![e]) == e.bytes_written,
    decreases b.len(),
{
    reveal_with_fuel(total_written, 2);
    assert(seq![e].drop_last() =~= Seq::<EffectView>::empty());
    assert(seq![e].last() == e);
    if b.len() == 0 {
        assert(a + b =~= a);
    } else {
        law_total_written(a, b.drop_last(), e);
        assert((a + b).drop_last() =~= a + b.drop_last());
        assert((a + b).last() == b.last());
    }
}

/// What the report says, read back: each change with its place, what it was before and after, which is
/// null where there was nothing, and what was written; and of all of them, each path that changed,
/// once, whether any is sensitive, whether there is any, and what was written in all.
pub proof fn law_report_read_back(id: Seq<char>, since: Seq<char>, es: Seq<EffectView>, i: int, p: Seq<char>)
    requires
        total_written(es) <= u64::MAX,
    ensures
        ({
            let d = report_json(id, since, es);
            let files = json::field(d, "files"@);
            let paths = json::field(d, "changed_files"@);
            let e = files->Some_0->Array_0[i];
            &&& json::field(d, "backend"@) == Some(JsonView::Str("overlayfs"@))
            &&& json::field(d, "id"@) == Some(JsonView::Str(id))
            &&& json::field(d, "since"@) == Some(JsonView::Str(since))
            &&& json::field(d, "network_used"@) == Some(JsonView::Null)
            &&& json::field(d, "processes_spawned"@) == Some(JsonView::Null)
            &&& json::field(d, "bytes_written"@) matches Some(JsonView::UInt(n)) && n
                == total_written(es)
            &&& json::field(d, "persistent_fs_change"@) == Some(JsonView::Bool(es.len() > 0))
            &&& json::field(d, "sensitive_path_touched"@) == Some(
                JsonView::Bool(
                    exists|k: int| 0 <= k < es.len() && (#[trigger] es[k]).sensitive,
                ),
            )
            &&& paths matches Some(JsonView::Array(a)) && (a.contains(JsonView::Str(p))
                <==> exists|k: int| 0 <= k < es.len() && (#[trigger] es[k]).path == p)
            &&& files matches Some(JsonView::Array(a)) && a.len() == es.len()
            &&& 0 <= i < es.len() ==> {
                &&& json::field(e, "path"@) == Some(JsonView::Str(es[i].path))
                &&& json::field(e, "bytes_written"@) == Some(JsonView::UInt(es[i].bytes_written))
                &&& json::field(e, "sensitive"@) == Some(JsonView::Bool(es[i].sensitive))
                &&& es[i].before matches Some(t) ==> json::field(e, "before"@) == Some(
                    JsonView::Str(t),
                )
                &&& es[i].before is None <==> json::field(e, "before"@) == Some(JsonView::Null)
                &&& es[i].after matches Some(t) ==> json::field(e, "after"@) == Some(
                    JsonView::Str(t),
                )
                &&& es[i].after is None <==> json::field(e, "after"@) == Some(JsonView::Null)
            }
        }),
{
    lemma_report_tame(id, since, es);
    let o = report_json(id, since, es)->Object_0;
    json::lemma_members_at(o);
    assert(o[0].0 == "backend"@);
    assert(o[1].0 == "bytes_written"@);
    assert(o[2].0 == "changed_files"@);
    assert(o[3].0 == "files"@);
    assert(o[4].0 == "id"@);
    assert(o[5].0 == "network_used"@);
    assert(o[6].0 == "persistent_fs_change"@);
    assert(o[7].0 == "processes_spawned"@);
    assert(o[8].0 == "sensitive_path_touched"@);
    assert(o[9].0 == "since"@);
    let ps = effect_paths(es);
    let once = order::in_order_once(ps);
    order::law_in_order_once(ps);
    let a = o[2].1->Array_0;
    assert(a.len() == once.len());
    if a.contains(JsonView::Str(p)) {
        let k = choose|k: int| 0 <= k < a.len() && a[k] == JsonView::Str(p);
        assert(once[k] == p);
        assert(once.contains(p));
        let j = choose|j: int| 0 <= j < ps.len() && ps[j] == p;
        assert(es[j].path == p);
    }
    if exists|k: int| 0 <= k < es.len() && (#[trigger] es[k]).path == p {
        let k = choose|k: int| 0 <= k < es.len() && (#[trigger] es[k]).path == p;
        assert(ps[k] == p);
        assert(once.contains(p));
        let j = choose|j: int| 0 <= j < once.len() && once[j] == p;
        assert(a[j] == JsonView::Str(p));
    }
    if 0 <= i < es.len() {
        let f = o[3].1->Array_0;
        assert(f[i] == effect_json(es[i]));
        lemma_effect_tame(es[i], 1);
        let k = effect_json(es[i])->Object_0;
        json::lemma_members_at(k);
        assert(k[0].0 == "after"@);
        assert(k[1].0 == "before"@);
        assert(k[2].0 == "bytes_written"@);
        assert(k[3].0 == "path"@);
        assert(k[4].0 == "sensitive"@);
    }
}

/// What an effect's line is without its end: what it was, an arrow, what it is, a tab and its path,
/// with a dash for nothing.
pub open spec fn effect_words(e: EffectView) -> Seq<char> {
    let dash = "-"@;
    (if e.before is Some {
        e.before->Some_0
    } else {
        dash
    }) + "->"@ + (if e.after is Some {
        e.after->Some_0
    } else {
        dash
    }) + "\t"@ + e.path
}

/// The effects without JSON are one line each, in their order.
pub proof fn law_effect_lines_read_back(es: Seq<EffectView>)
    requires
        forall|i: int| 0 <= i < es.len() ==> !text::has_char(effect_words(#[trigger] es[i]), '\n'),
    ensures
        text::pieces(effect_lines(es), '\n') == Seq::new(
            es.len(),
            |i: int| effect_words(es[i]),
        ).push(Seq::empty()),
{
    let lines = Seq::new(es.len(), |i: int| effect_words(es[i]));
    lemma_effect_lines(es);
    text::lemma_lines_split(lines);
}

proof fn lemma_effect_lines(es: Seq<EffectView>)
    ensures
        effect_lines(es) == text::as_lines(Seq::new(es.len(), |i: int| effect_words(es[i]))),
    decreases es.len(),
{
    let lines = Seq::new(es.len(), |i: int| effect_words(es[i]));
    if es.len() > 0 {
        let h = es.drop_last();
        lemma_effect_lines(h);
        assert(lines.drop_last() =~= Seq::new(h.len(), |i: int| effect_words(h[i])));
        assert(lines.last() == effect_words(es.last()));
        assert(effect_lines(es) =~= text::as_lines(lines));
    }
}

} // verus!
