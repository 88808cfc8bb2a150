//! JSON documents: what the library reads, walks and writes.

use serde_json::{Number, Value};
use vstd::prelude::*;
use vstd::string::*;
use vstd::utf8::*;

use crate::error::{Error, ErrorKind};
use crate::order;
use crate::order::less;
use crate::text;
use crate::text::{owned, str_eq};

verus! {

/// A JSON document. An object lists its members in the order of their keys.
#[derive(Debug, PartialEq)]
pub enum Json {
    Null,
    Bool(bool),
    /// A number that is not negative and fits in 64 bits.
    UInt(u64),
    /// A negative number that fits in 64 bits.
    NegInt(i64),
    /// Any other number, as text.
    Float(String),
    Str(String),
    Array(Vec<Json>),
    Object(Vec<(String, Json)>),
}

/// What a JSON document says.
pub enum JsonView {
    Null,
    Bool(bool),
    UInt(u64),
    NegInt(i64),
    Float(Seq<char>),
    Str(Seq<char>),
    Array(Seq<JsonView>),
    Object(Seq<(Seq<char>, JsonView)>),
}

/// What the document `j` says.
pub open spec fn json_view(j: Json) -> JsonView
    decreases j,
{
    match j {
        Json::Null => JsonView::Null,
        Json::Bool(b) => JsonView::Bool(b),
        Json::UInt(u) => JsonView::UInt(u),
        Json::NegInt(i) => JsonView::NegInt(i),
        Json::Float(t) => JsonView::Float(t@),
        Json::Str(s) => JsonView::Str(s@),
        Json::Array(a) => JsonView::Array(
            Seq::new(
                a@.len(),
                |i: int|
                    if 0 <= i < a@.len() {
                        json_view(a@[i])
                    } else {
                        JsonView::Null
                    },
            ),
        ),
        Json::Object(m) => JsonView::Object(
            Seq::new(
                m@.len(),
                |i: int|
                    if 0 <= i < m@.len() {
                        (m@[i].0@, json_view(m@[i].1))
                    } else {
                        (Seq::empty(), JsonView::Null)
                    },
            ),
        ),
    }
}

impl View for Json {
    type V = JsonView;

    open spec fn view(&self) -> JsonView {
        json_view(*self)
    }
}

/// The value of the first member called `key`.
pub open spec fn member(m: Seq<(Seq<char>, JsonView)>, key: Seq<char>) -> Option<JsonView>
    decreases m.len(),
{
    if m.len() == 0 {
        None
    } else if m[0].0 == key {
        Some(m[0].1)
    } else {
        member(m.skip(1), key)
    }
}

/// The member `key` of an object; nothing else has members.
pub open spec fn field(v: JsonView, key: Seq<char>) -> Option<JsonView> {
    match v {
        JsonView::Object(m) => member(m, key),
        _ => None,
    }
}

/// The member `key` of a document that may be missing.
pub open spec fn at(v: Option<JsonView>, key: Seq<char>) -> Option<JsonView> {
    match v {
        Some(v) => field(v, key),
        None => None,
    }
}

/// The text of a string.
pub open spec fn text_at(v: Option<JsonView>) -> Option<Seq<char>> {
    match v {
        Some(JsonView::Str(s)) => Some(s),
        _ => None,
    }
}

/// The elements of an array.
pub open spec fn items_at(v: Option<JsonView>) -> Option<Seq<JsonView>> {
    match v {
        Some(JsonView::Array(a)) => Some(a),
        _ => None,
    }
}

/// The members of an object.
pub open spec fn members_at(v: Option<JsonView>) -> Option<Seq<(Seq<char>, JsonView)>> {
    match v {
        Some(JsonView::Object(m)) => Some(m),
        _ => None,
    }
}

/// A number that is not negative.
pub open spec fn u64_at(v: Option<JsonView>) -> Option<u64> {
    match v {
        Some(JsonView::UInt(u)) => Some(u),
        _ => None,
    }
}

/// A number that fits in 64 bits with a sign.
pub open spec fn i64_at(v: Option<JsonView>) -> Option<i64> {
    match v {
        Some(JsonView::UInt(u)) => if u <= i64::MAX {
            Some(u as i64)
        } else {
            None
        },
        Some(JsonView::NegInt(i)) => Some(i),
        _ => None,
    }
}

/// A truth value.
pub open spec fn bool_at(v: Option<JsonView>) -> Option<bool> {
    match v {
        Some(JsonView::Bool(b)) => Some(b),
        _ => None,
    }
}

/// What an optional document says.
pub open spec fn opt_view(j: Option<&Json>) -> Option<JsonView> {
    match j {
        Some(j) => Some(j@),
        None => None,
    }
}

impl Json {
    /// The member `key`, where this is an object that has one.
    pub fn get(&self, key: &str) -> (r: Option<&Json>)
        ensures
            opt_view(r) == field(self@, key@),
    {
        match self {
            Json::Object(m) => {
                let ghost ms = self@->Object_0;
                let mut i: usize = 0;
                proof {
                    assert(ms.skip(0) =~= ms);
                }
                while i < m.len()
                    invariant
                        i <= m.len(),
                        self@ == JsonView::Object(ms),
                        ms.len() == m@.len(),
                        forall|k: int|
                            0 <= k < m@.len() ==> #[trigger] ms[k] == (m@[k].0@, json_view(m@[k].1)),
                        member(ms, key@) == member(ms.skip(i as int), key@),
                    decreases m.len() - i,
                {
                    proof {
                        assert(ms.skip(i as int)[0] == ms[i as int]);
                        assert(ms.skip(i as int).skip(1) =~= ms.skip(i + 1));
                    }
                    if str_eq(m[i].0.as_str(), key) {
                        return Some(&m[i].1);
                    }
                    i = i + 1;
                }
                None
            },
            _ => None,
        }
    }

    /// The text, where this is a string.
    pub fn as_str(&self) -> (r: Option<&str>)
        ensures
            match r {
                Some(s) => text_at(Some(self@)) == Some(s@),
                None => text_at(Some(self@)) is None,
            },
    {
        match self {
            Json::Str(s) => Some(s.as_str()),
            _ => None,
        }
    }

    /// The number, where this is one that is not negative.
    pub fn as_u64(&self) -> (r: Option<u64>)
        ensures
            r == u64_at(Some(self@)),
    {
        match self {
            Json::UInt(u) => Some(*u),
            _ => None,
        }
    }

    /// The number, where this is one that fits with a sign.
    pub fn as_i64(&self) -> (r: Option<i64>)
        ensures
            r == i64_at(Some(self@)),
    {
        match self {
            Json::UInt(u) => if *u <= 0x7fff_ffff_ffff_ffff {
                Some(*u as i64)
            } else {
                None
            },
            Json::NegInt(i) => Some(*i),
            _ => None,
        }
    }

    /// The truth value, where this is one.
    pub fn as_bool(&self) -> (r: Option<bool>)
        ensures
            r == bool_at(Some(self@)),
    {
        match self {
            Json::Bool(b) => Some(*b),
            _ => None,
        }
    }

    /// The elements, where this is an array.
    pub fn as_array(&self) -> (r: Option<&Vec<Json>>)
        ensures
            match r {
                Some(a) => items_at(Some(self@)) == Some(views(a@)),
                None => items_at(Some(self@)) is None,
            },
    {
        match self {
            Json::Array(a) => {
                proof {
                    assert(self@->Array_0 =~= views(a@));
                }
                Some(a)
            },
            _ => None,
        }
    }

    /// The members, where this is an object.
    pub fn as_object(&self) -> (r: Option<&Vec<(String, Json)>>)
        ensures
            match r {
                Some(m) => members_at(Some(self@)) == Some(member_views(m@)),
                None => members_at(Some(self@)) is None,
            },
    {
        match self {
            Json::Object(m) => {
                proof {
                    assert(self@->Object_0 =~= member_views(m@));
                }
                Some(m)
            },
            _ => None,
        }
    }
}

/// The text of a string, or `default` where there is none.
pub open spec fn text_or(v: Option<JsonView>, default: Seq<char>) -> Seq<char> {
    match text_at(v) {
        Some(s) => s,
        None => default,
    }
}

/// The text of a string that is not empty.
pub open spec fn nonempty_text(v: Option<JsonView>) -> Option<Seq<char>> {
    match text_at(v) {
        Some(s) => if s.len() > 0 {
            Some(s)
        } else {
            None
        },
        None => None,
    }
}

/// A truth value, or `default` where there is none.
pub open spec fn bool_or(v: Option<JsonView>, default: bool) -> bool {
    match bool_at(v) {
        Some(b) => b,
        None => default,
    }
}

/// A number that is not negative, or `default` where there is none.
pub open spec fn u64_or(v: Option<JsonView>, default: u64) -> u64 {
    match u64_at(v) {
        Some(n) => n,
        None => default,
    }
}

/// A signed number, or `default` where there is none.
pub open spec fn i64_or(v: Option<JsonView>, default: i64) -> i64 {
    match i64_at(v) {
        Some(n) => n,
        None => default,
    }
}

/// The strings among the elements of a list.
pub open spec fn strings_among(a: Seq<JsonView>) -> Seq<Seq<char>>
    decreases a.len(),
{
    if a.len() == 0 {
        Seq::empty()
    } else {
        match a.last() {
            JsonView::Str(s) => strings_among(a.drop_last()).push(s),
            _ => strings_among(a.drop_last()),
        }
    }
}

/// The strings in an array; nothing else holds any.
pub open spec fn string_list(v: Option<JsonView>) -> Seq<Seq<char>> {
    match items_at(v) {
        Some(a) => strings_among(a),
        None => Seq::empty(),
    }
}

/// The member `key` of a document that may be missing.
pub fn get_at<'a>(v: Option<&'a Json>, key: &str) -> (r: Option<&'a Json>)
    ensures
        opt_view(r) == at(opt_view(v), key@),
{
    match v {
        Some(j) => j.get(key),
        None => None,
    }
}

/// The elements of a document that may be missing.
pub fn get_items<'a>(v: Option<&'a Json>) -> (r: Option<&'a Vec<Json>>)
    ensures
        match r {
            Some(a) => items_at(opt_view(v)) == Some(views(a@)),
            None => items_at(opt_view(v)) is None,
        },
{
    match v {
        Some(j) => j.as_array(),
        None => None,
    }
}

/// The text of a document that may be missing.
pub fn get_text<'a>(v: Option<&'a Json>) -> (r: Option<&'a str>)
    ensures
        match r {
            Some(s) => text_at(opt_view(v)) == Some(s@),
            None => text_at(opt_view(v)) is None,
        },
{
    match v {
        Some(j) => j.as_str(),
        None => None,
    }
}

/// The text of a string, or `default` where there is none.
pub fn get_text_or(v: Option<&Json>, default: &str) -> (r: String)
    ensures
        r@ == text_or(opt_view(v), default@),
{
    match get_text(v) {
        Some(s) => owned(s),
        None => owned(default),
    }
}

/// The text of a string that is not empty.
pub fn get_nonempty(v: Option<&Json>) -> (r: Option<String>)
    ensures
        text::opt_text(r) == nonempty_text(opt_view(v)),
{
    match get_text(v) {
        Some(s) => if s.is_empty() {
            None
        } else {
            Some(owned(s))
        },
        None => None,
    }
}

/// A truth value, or `default` where there is none.
pub fn get_bool_or(v: Option<&Json>, default: bool) -> (r: bool)
    ensures
        r == bool_or(opt_view(v), default),
{
    match v {
        Some(j) => match j.as_bool() {
            Some(b) => b,
            None => default,
        },
        None => default,
    }
}

/// A number that is not negative.
pub fn get_u64(v: Option<&Json>) -> (r: Option<u64>)
    ensures
        r == u64_at(opt_view(v)),
{
    match v {
        Some(j) => j.as_u64(),
        None => None,
    }
}

/// A number that is not negative, or `default` where there is none.
pub fn get_u64_or(v: Option<&Json>, default: u64) -> (r: u64)
    ensures
        r == u64_or(opt_view(v), default),
{
    match get_u64(v) {
        Some(n) => n,
        None => default,
    }
}

/// A signed number.
pub fn get_i64(v: Option<&Json>) -> (r: Option<i64>)
    ensures
        r == i64_at(opt_view(v)),
{
    match v {
        Some(j) => j.as_i64(),
        None => None,
    }
}

/// A signed number, or `default` where there is none.
pub fn get_i64_or(v: Option<&Json>, default: i64) -> (r: i64)
    ensures
        r == i64_or(opt_view(v), default),
{
    match get_i64(v) {
        Some(n) => n,
        None => default,
    }
}

/// The strings in an array.
pub fn get_strings(v: Option<&Json>) -> (r: Vec<String>)
    ensures
        text::texts(r@) == string_list(opt_view(v)),
{
    let mut r: Vec<String> = Vec::new();
    match get_items(v) {
        Some(a) => {
            let ghost all = views(a@);
            let mut i: usize = 0;
            proof {
                assert(all.subrange(0, 0) =~= Seq::<JsonView>::empty());
                assert(text::texts(r@) =~= strings_among(all.subrange(0, 0)));
            }
            while i < a.len()
                invariant
                    i <= a.len(),
                    all == views(a@),
                    text::texts(r@) == strings_among(all.subrange(0, i as int)),
                decreases a.len() - i,
            {
                proof {
                    assert(all.subrange(0, i + 1).drop_last() =~= all.subrange(0, i as int));
                    assert(all.subrange(0, i + 1).last() == a@[i as int]@);
                }
                if let Some(s) = a[i].as_str() {
                    let t = owned(s);
                    proof {
                        text::lemma_texts_push(r@, t);
                    }
                    r.push(t);
                }
                i = i + 1;
            }
            proof {
                assert(all.subrange(0, a@.len() as int) =~= all);
            }
        },
        None => {
            proof {
                assert(text::texts(r@) =~= Seq::<Seq<char>>::empty());
            }
        },
    }
    r
}

/// What the documents of a list say.
pub open spec fn views(a: Seq<Json>) -> Seq<JsonView> {
    Seq::new(a.len(), |i: int| a[i]@)
}

/// What the members of an object say.
pub open spec fn member_views(m: Seq<(String, Json)>) -> Seq<(Seq<char>, JsonView)> {
    Seq::new(m.len(), |i: int| (m[i].0@, m[i].1@))
}

/// Whether serde_json reads back the text it writes for `v`: the keys of every object are in
/// order, no number is a fraction, and nothing nests deeper than `depth`.
pub open spec fn tame(v: JsonView, depth: nat) -> bool
    decreases depth,
{
    match v {
        JsonView::NegInt(i) => i < 0,
        JsonView::Float(_) => false,
        JsonView::Array(a) => depth > 0 && forall|i: int|
            0 <= i < a.len() ==> tame(#[trigger] a[i], (depth - 1) as nat),
        JsonView::Object(m) => depth > 0 && in_key_order(m) && forall|i: int|
            0 <= i < m.len() ==> tame((#[trigger] m[i]).1, (depth - 1) as nat),
        _ => true,
    }
}

/// Whether a document is as a parsed one: the keys of every object are in order, and nothing nests
/// deeper than `depth`.
pub open spec fn orderly(v: JsonView, depth: nat) -> bool
    decreases depth,
{
    match v {
        JsonView::NegInt(i) => i < 0,
        JsonView::Array(a) => depth > 0 && forall|i: int|
            0 <= i < a.len() ==> orderly(#[trigger] a[i], (depth - 1) as nat),
        JsonView::Object(m) => depth > 0 && in_key_order(m) && forall|i: int|
            0 <= i < m.len() ==> orderly((#[trigger] m[i]).1, (depth - 1) as nat),
        _ => true,
    }
}

/// Whether no number in a document is a fraction.
pub open spec fn whole(v: JsonView) -> bool
    decreases v,
{
    match v {
        JsonView::Float(_) => false,
        JsonView::Array(a) => forall|i: int| 0 <= i < a.len() ==> whole(#[trigger] a[i]),
        JsonView::Object(m) => forall|i: int| 0 <= i < m.len() ==> whole((#[trigger] m[i]).1),
        _ => true,
    }
}

/// Whether `b` says what `a` says, but for fractions: another fraction may stand in place of one, or
/// null.
pub open spec fn alike(a: JsonView, b: JsonView) -> bool
    decreases a,
{
    match a {
        JsonView::Float(_) => b is Float || b is Null,
        JsonView::Array(x) => b matches JsonView::Array(y) && x.len() == y.len() && forall|i: int|
            0 <= i < x.len() ==> alike(#[trigger] x[i], y[i]),
        JsonView::Object(m) => b matches JsonView::Object(n) && m.len() == n.len() && forall|i: int|
            0 <= i < m.len() ==> (#[trigger] m[i]).0 == n[i].0 && alike(m[i].1, n[i].1),
        _ => a == b,
    }
}

/// Whether two members that may be missing say the same, but for fractions.
pub open spec fn opt_alike(a: Option<JsonView>, b: Option<JsonView>) -> bool {
    match a {
        Some(x) => b matches Some(y) && alike(x, y),
        None => b is None,
    }
}

/// Every document says what it says.
pub proof fn lemma_alike_self(v: JsonView)
    ensures
        alike(v, v),
    decreases v,
{
    match v {
        JsonView::Array(x) => {
            assert forall|i: int| 0 <= i < x.len() implies alike(#[trigger] x[i], x[i]) by {
                lemma_alike_self(x[i]);
            }
        },
        JsonView::Object(m) => {
            assert forall|i: int| 0 <= i < m.len() implies (#[trigger] m[i]).0 == m[i].0 && alike(
                m[i].1,
                m[i].1,
            ) by {
                lemma_alike_self(m[i].1);
            }
        },
        _ => {},
    }
}

/// What says the same as something that says the same as a third says the same as the third.
pub proof fn lemma_alike_chain(a: JsonView, b: JsonView, c: JsonView)
    requires
        alike(a, b),
        alike(b, c),
    ensures
        alike(a, c),
    decreases a,
{
    match a {
        JsonView::Array(x) => {
            let y = b->Array_0;
            let z = c->Array_0;
            assert forall|i: int| 0 <= i < x.len() implies alike(#[trigger] x[i], z[i]) by {
                assert(alike(y[i], z[i]));
                lemma_alike_chain(x[i], y[i], z[i]);
            }
        },
        JsonView::Object(m) => {
            let n = b->Object_0;
            let k = c->Object_0;
            assert forall|i: int| 0 <= i < m.len() implies (#[trigger] m[i]).0 == k[i].0 && alike(
                m[i].1,
                k[i].1,
            ) by {
                assert(n[i].0 == k[i].0);
                lemma_alike_chain(m[i].1, n[i].1, k[i].1);
            }
        },
        _ => {},
    }
}

/// A parsed document without fractions is read back as it is written.
pub proof fn lemma_whole_tame(v: JsonView, depth: nat)
    requires
        orderly(v, depth),
        whole(v),
    ensures
        tame(v, depth),
    decreases depth,
{
    match v {
        JsonView::Array(a) => {
            let d = (depth - 1) as nat;
            assert forall|i: int| 0 <= i < a.len() implies tame(#[trigger] a[i], d) by {
                lemma_whole_tame(a[i], d);
            }
        },
        JsonView::Object(m) => {
            let d = (depth - 1) as nat;
            assert forall|i: int| 0 <= i < m.len() implies tame((#[trigger] m[i]).1, d) by {
                lemma_whole_tame(m[i].1, d);
            }
        },
        _ => {},
    }
}

/// The keys of an object, each before the next.
pub open spec fn in_key_order(m: Seq<(Seq<char>, JsonView)>) -> bool {
    forall|i: int, j: int| 0 <= i < j < m.len() ==> order::before(#[trigger] m[i].0, #[trigger] m[j].0)
}

/// Keys of which each comes before the next are in order.
pub proof fn lemma_adjacent_keys(m: Seq<(Seq<char>, JsonView)>)
    requires
        forall|i: int| 0 <= i < m.len() - 1 ==> order::before(#[trigger] m[i].0, m[i + 1].0),
    ensures
        in_key_order(m),
{
    assert forall|i: int, j: int| 0 <= i < j < m.len() implies order::before(
        #[trigger] m[i].0,
        #[trigger] m[j].0,
    ) by {
        lemma_keys_between(m, i, j);
    }
}

/// Keys that rise from each to the next rise throughout.
proof fn lemma_keys_between(m: Seq<(Seq<char>, JsonView)>, i: int, j: int)
    requires
        forall|i: int| 0 <= i < m.len() - 1 ==> order::before(#[trigger] m[i].0, m[i + 1].0),
        0 <= i < j < m.len(),
    ensures
        order::before(m[i].0, m[j].0),
    decreases j - i,
{
    if j > i + 1 {
        lemma_keys_between(m, i, j - 1);
        assert(order::before(m[j - 1].0, m[j - 1 + 1].0));
        order::lemma_transitive(m[i].0, m[j - 1].0, m[j].0);
    }
}

/// Where the keys are in order, each key leads to its own value.
pub proof fn lemma_member_at(m: Seq<(Seq<char>, JsonView)>, k: int)
    requires
        in_key_order(m),
        0 <= k < m.len(),
    ensures
        member(m, m[k].0) == Some(m[k].1),
    decreases k,
{
    if k > 0 {
        assert(order::before(m[0].0, m[k].0));
        order::lemma_irreflexive(m[k].0);
        let n = m.skip(1);
        assert forall|i: int, j: int| 0 <= i < j < n.len() implies order::before(
            #[trigger] n[i].0,
            #[trigger] n[j].0,
        ) by {
            assert(order::before(m[i + 1].0, m[j + 1].0));
        }
        lemma_member_at(n, k - 1);
    }
}

/// Where the keys are in order, every key leads to its own value.
pub proof fn lemma_members_at(m: Seq<(Seq<char>, JsonView)>)
    requires
        in_key_order(m),
    ensures
        forall|k: int| 0 <= k < m.len() ==> member(m, (#[trigger] m[k]).0) == Some(m[k].1),
{
    assert forall|k: int| 0 <= k < m.len() implies member(m, (#[trigger] m[k]).0) == Some(m[k].1) by {
        lemma_member_at(m, k);
    }
}

/// How deep serde_json reads.
pub open spec fn read_depth() -> nat {
    127
}

/// A parsed document, as serde_json holds it.
#[verifier::external_type_specification]
#[verifier::external_body]
pub struct ExValue(serde_json::Value);

/// What a document held by serde_json says.
pub uninterp spec fn value_json(v: serde_json::Value) -> JsonView;

/// What `serde_json::from_slice` makes of the bytes: a document, or why they are none.
pub uninterp spec fn json_text(bytes: Seq<u8>) -> Result<JsonView, Seq<char>>;

/// Whether the bytes are the text of the document `v`.
pub open spec fn reads_as(bytes: Seq<u8>, v: JsonView) -> bool {
    json_text(bytes) == Ok::<JsonView, Seq<char>>(v)
}

/// Whether the bytes, if they can be read at all, say what `v` says but for fractions.
pub open spec fn reads_like(bytes: Seq<u8>, v: JsonView) -> bool {
    match json_text(bytes) {
        Ok(w) => alike(v, w),
        Err(_) => true,
    }
}

/// What `serde_json::Error::is_eof` says of the error of bytes that are no document: whether they end
/// too early.
pub uninterp spec fn ends_early(bytes: Seq<u8>) -> bool;

/// The kind of the error of reading something out of the bytes: they are no document, or the
/// document is not the one that is wanted.
pub open spec fn fault_kind(bytes: Seq<u8>) -> ErrorKind {
    if json_text(bytes) is Ok {
        ErrorKind::Other
    } else if ends_early(bytes) {
        ErrorKind::UnexpectedEof
    } else {
        ErrorKind::InvalidData
    }
}

/// Whether the bytes are no document, for the reason `why`.
pub open spec fn unreadable(bytes: Seq<u8>, why: Seq<char>) -> bool {
    json_text(bytes) == Err::<JsonView, Seq<char>>(why)
}

/// The document that comes of inserting the members of each object, in turn, into a
/// `serde_json::Map`.
pub uninterp spec fn built_value(j: JsonView) -> JsonView;

/// The bytes `serde_json::to_vec` writes for a document.
pub uninterp spec fn json_bytes(v: JsonView) -> Seq<u8>;

/// A value without inner structure: a text, a whole number, a truth value, null, or `{}`.
pub open spec fn is_plain(v: JsonView) -> bool {
    match v {
        JsonView::Null => true,
        JsonView::Bool(_) => true,
        JsonView::UInt(_) => true,
        JsonView::NegInt(i) => i < 0,
        JsonView::Str(_) => true,
        JsonView::Object(m) => m.len() == 0,
        _ => false,
    }
}

/// A key of ASCII letters, which JSON text holds as it is.
pub open spec fn letters_only(key: Seq<char>) -> bool {
    forall|i: int|
        0 <= i < key.len() ==> 'a' <= #[trigger] key[i] <= 'z' || 'A' <= key[i] <= 'Z'
}

/// Members under different keys of letters, each with a plain value.
pub open spec fn plain_members(m: Seq<(Seq<char>, JsonView)>) -> bool {
    &&& forall|i: int|
        0 <= i < m.len() ==> letters_only((#[trigger] m[i]).0) && is_plain(m[i].1)
    &&& forall|i: int, j: int| 0 <= i < j < m.len() ==> #[trigger] m[i].0 != #[trigger] m[j].0
}

/// The text of a member: its key in quotes, a colon, and its value as serde_json writes it.
pub open spec fn member_text(key: Seq<char>, v: JsonView) -> Seq<u8> {
    encode_utf8("\""@ + key + "\":"@) + rendered(v)
}

/// The texts of members, with commas between them.
pub open spec fn members_text(m: Seq<(Seq<char>, JsonView)>) -> Seq<u8>
    decreases m.len(),
{
    if m.len() == 0 {
        Seq::empty()
    } else if m.len() == 1 {
        member_text(m[0].0, m[0].1)
    } else {
        members_text(m.drop_last()) + encode_utf8(","@) + member_text(m.last().0, m.last().1)
    }
}

/// The text of an object, member after member.
pub open spec fn object_text(m: Seq<(Seq<char>, JsonView)>) -> Seq<u8> {
    encode_utf8("{"@) + members_text(m) + encode_utf8("}"@)
}

/// Whether a document is an object of exactly these members, in the order of their keys.
pub open spec fn has_members(v: JsonView, m: Seq<(Seq<char>, JsonView)>) -> bool {
    &&& forall|i: int| 0 <= i < m.len() ==> field(v, (#[trigger] m[i]).0) == Some(m[i].1)
    &&& v is Object
    &&& in_key_order(v->Object_0)
    &&& forall|i: int| 0 <= i < v->Object_0.len() ==> m.contains(#[trigger] v->Object_0[i])
}

/// `serde_json::from_slice` parses the bytes into a `Value`; the error is its message, and what
/// `serde_json::Error::is_eof` says of it. What it
/// parses nests no deeper than its limit, and each `serde_json::Map` in it keeps its members in the
/// order of their keys. The text of an object with plain members under different keys parses into an
/// object of exactly those members.
#[verifier::external_body]
fn value_from_slice(bytes: &[u8]) -> (r: Result<Value, (String, bool)>)
    ensures
        forall|m: Seq<(Seq<char>, JsonView)>|
            plain_members(m) && bytes@ == #[trigger] object_text(m) ==> r is Ok && has_members(
                value_json(r->Ok_0),
                m,
            ),
        match r {
            Ok(v) => json_text(bytes@) == (Ok::<JsonView, Seq<char>>(value_json(v))) && orderly(
                value_json(v),
                read_depth(),
            ),
            Err(e) => json_text(bytes@) == (Err::<JsonView, Seq<char>>(e.0@)) && ends_early(bytes@)
                == e.1,
        },
{
    match serde_json::from_slice::<Value>(bytes) {
        Ok(v) => Ok(v),
        Err(e) => Err((e.to_string(), e.is_eof())),
    }
}

/// Takes a `serde_json::Value` apart, variant by variant; a `Map` hands its members out in the
/// order of the keys.
#[verifier::external_body]
fn json_of_value(v: Value) -> (j: Json)
    ensures
        j@ == value_json(v),
{
    match v {
        Value::Null => Json::Null,
        Value::Bool(b) => Json::Bool(b),
        Value::Number(n) => match (n.as_u64(), n.as_i64()) {
            (Some(u), _) => Json::UInt(u),
            (None, Some(i)) => Json::NegInt(i),
            (None, None) => Json::Float(n.to_string()),
        },
        Value::String(s) => Json::Str(s),
        Value::Array(a) => Json::Array(a.into_iter().map(json_of_value).collect()),
        Value::Object(m) => Json::Object(m.into_iter().map(|(k, v)| (k, json_of_value(v))).collect()),
    }
}

/// Puts a `serde_json::Value` together, variant by variant. Where the keys are in order and no
/// number is a fraction, it says what the document says; a fraction is the one nearest to its text,
/// and null where the text is none.
#[verifier::external_body]
fn value_of_json(j: &Json) -> (v: Value)
    ensures
        value_json(v) == built_value(j@),
        tame(j@, read_depth()) ==> value_json(v) == j@,
        orderly(j@, read_depth()) ==> alike(j@, value_json(v)),
{
    match j {
        Json::Null => Value::Null,
        Json::Bool(b) => Value::Bool(*b),
        Json::UInt(u) => Value::from(*u),
        Json::NegInt(i) => Value::from(*i),
        Json::Float(t) => t.parse().ok().and_then(Number::from_f64).map_or(Value::Null, Value::Number),
        Json::Str(s) => Value::String(s.clone()),
        Json::Array(a) => Value::Array(a.iter().map(value_of_json).collect()),
        Json::Object(m) => Value::Object(m.iter().map(|(k, v)| (k.clone(), value_of_json(v))).collect()),
    }
}

/// `serde_json::to_vec` writes a `Value` without white space, which never fails. Where the
/// document is tame, `serde_json::from_slice` reads the same document back. A fraction may be read as
/// another one, or as too large; but for that, whatever is read back is the same.
#[verifier::external_body]
fn value_to_vec(v: &Value) -> (b: Vec<u8>)
    ensures
        b@ == json_bytes(value_json(*v)),
        tame(value_json(*v), read_depth()) ==> reads_as(b@, value_json(*v)),
        reads_like(b@, value_json(*v)),
{
    serde_json::to_vec(v).unwrap_or_default()
}

/// Reads a JSON document.
pub fn parse_json(bytes: &[u8]) -> (r: Result<Json, Error>)
    ensures
        forall|m: Seq<(Seq<char>, JsonView)>|
            plain_members(m) && bytes@ == #[trigger] object_text(m) ==> r is Ok && has_members(
                (r->Ok_0)@,
                m,
            ),
        match r {
            Ok(j) => reads_as(bytes@, j@) && orderly(j@, read_depth()),
            Err(e) => unreadable(bytes@, e@) && e.kind == fault_kind(bytes@),
        },
{
    match value_from_slice(bytes) {
        Ok(v) => Ok(json_of_value(v)),
        Err(e) => {
            let kind = if e.1 {
                ErrorKind::UnexpectedEof
            } else {
                ErrorKind::InvalidData
            };
            Err(Error::of_kind(kind, e.0))
        },
    }
}

/// The bytes a document is written as.
pub open spec fn rendered(j: JsonView) -> Seq<u8> {
    json_bytes(built_value(j))
}

/// Writes a JSON document on one line.
pub fn render_json(j: &Json) -> (b: Vec<u8>)
    ensures
        b@ == rendered(j@),
        tame(j@, read_depth()) ==> reads_as(b@, j@),
        orderly(j@, read_depth()) ==> reads_like(b@, j@),
{
    let v = value_of_json(j);
    let b = value_to_vec(&v);
    proof {
        if orderly(j@, read_depth()) && json_text(b@) is Ok {
            lemma_alike_chain(j@, value_json(v), json_text(b@)->Ok_0);
        }
    }
    b
}

/// Writes a JSON document on one line, with the end of the line.
pub fn render_line(doc: &Json) -> (b: Vec<u8>)
    ensures
        b@ == rendered(doc@) + seq![10u8],
        tame(doc@, read_depth()) ==> reads_as(b@.drop_last(), doc@),
        orderly(doc@, read_depth()) ==> reads_like(b@.drop_last(), doc@),
{
    let mut b = render_json(doc);
    let ghost t = b@;
    b.push(10);
    proof {
        assert(b@ =~= t + seq![10u8]);
        assert(b@.drop_last() =~= t);
    }
    b
}

/// Writes an object member after member, in the order given.
pub fn render_members(m: &Vec<(String, Json)>) -> (b: Vec<u8>)
    ensures
        b@ == object_text(member_views(m@)),
{
    let ghost all = member_views(m@);
    let mut b = "{".as_bytes_vec();
    let ghost head = b@;
    let mut i: usize = 0;
    proof {
        assert(all.subrange(0, 0) =~= Seq::<(Seq<char>, JsonView)>::empty());
        assert(b@ =~= head + members_text(all.subrange(0, 0)));
    }
    while i < m.len()
        invariant
            i <= m.len(),
            all == member_views(m@),
            b@ == head + members_text(all.subrange(0, i as int)),
        decreases m.len() - i,
    {
        let ghost was = b@;
        if i > 0 {
            let mut comma = ",".as_bytes_vec();
            b.append(&mut comma);
        }
        let mut key = owned("\"");
        key.append(m[i].0.as_str());
        key.append("\":");
        let mut key_bytes = key.as_str().as_bytes_vec();
        let mut value = render_json(&m[i].1);
        b.append(&mut key_bytes);
        b.append(&mut value);
        proof {
            let part = all.subrange(0, i + 1);
            assert(part.drop_last() =~= all.subrange(0, i as int));
            assert(part.last() == (m@[i as int].0@, m@[i as int].1@));
            assert(part.len() == i + 1);
            if i == 0 {
                assert(part[0] == part.last());
                assert(members_text(part) == member_text(part[0].0, part[0].1));
                assert(members_text(all.subrange(0, 0)) =~= Seq::<u8>::empty());
            }
            assert(b@ =~= head + members_text(part));
        }
        i = i + 1;
    }
    let mut end = "}".as_bytes_vec();
    b.append(&mut end);
    proof {
        assert(all.subrange(0, all.len() as int) =~= all);
    }
    b
}

/// A member of an object.
pub fn named(key: &str, value: Json) -> (m: (String, Json))
    ensures
        m.0@ == key@,
        m.1@ == value@,
{
    (owned(key), value)
}

/// The members of an object after `key` was given the value `v`: the member with that key is
/// replaced, or a new one comes in before the first greater key.
pub open spec fn put(m: Seq<(Seq<char>, JsonView)>, key: Seq<char>, v: JsonView) -> Seq<
    (Seq<char>, JsonView),
>
    decreases m.len(),
{
    if m.len() == 0 {
        seq![(key, v)]
    } else if m[0].0 == key {
        seq![(key, v)] + m.skip(1)
    } else if order::before(key, m[0].0) {
        seq![(key, v)] + m
    } else {
        seq![m[0]] + put(m.skip(1), key, v)
    }
}

/// A document after `key` was given the value `x`. Null becomes an object; nothing else that is no
/// object has members.
pub open spec fn with_member(v: JsonView, key: Seq<char>, x: JsonView) -> Option<JsonView> {
    match v {
        JsonView::Object(m) => Some(JsonView::Object(put(m, key, x))),
        JsonView::Null => Some(JsonView::Object(seq![(key, x)])),
        _ => None,
    }
}

/// A member that was put is there, and all others are as they were.
pub proof fn law_put_one_member(
    m: Seq<(Seq<char>, JsonView)>,
    key: Seq<char>,
    v: JsonView,
    other: Seq<char>,
)
    ensures
        member(put(m, key, v), key) == Some(v),
        other != key ==> member(put(m, key, v), other) == member(m, other),
    decreases m.len(),
{
    let p = put(m, key, v);
    if m.len() > 0 {
        if m[0].0 == key {
            assert(p.skip(1) =~= m.skip(1));
        } else if order::before(key, m[0].0) {
            assert(p.skip(1) =~= m);
        } else {
            law_put_one_member(m.skip(1), key, v, other);
            assert(p.skip(1) =~= put(m.skip(1), key, v));
        }
    } else {
        assert(p.skip(1) =~= m);
    }
}

/// What is left of members in order is in order.
proof fn lemma_order_tail(m: Seq<(Seq<char>, JsonView)>)
    requires
        in_key_order(m),
        m.len() > 0,
    ensures
        in_key_order(m.skip(1)),
{
    let n = m.skip(1);
    assert forall|i: int, j: int| 0 <= i < j < n.len() implies order::before(
        #[trigger] n[i].0,
        #[trigger] n[j].0,
    ) by {
        assert(order::before(m[i + 1].0, m[j + 1].0));
    }
}

/// Every member after a put is the new one or one that was there.
proof fn lemma_put_members(m: Seq<(Seq<char>, JsonView)>, key: Seq<char>, v: JsonView)
    ensures
        forall|i: int|
            0 <= i < put(m, key, v).len() ==> #[trigger] put(m, key, v)[i] == (key, v)
                || m.contains(put(m, key, v)[i]),
    decreases m.len(),
{
    let p = put(m, key, v);
    if m.len() > 0 && m[0].0 != key && !order::before(key, m[0].0) {
        lemma_put_members(m.skip(1), key, v);
        let q = put(m.skip(1), key, v);
        assert forall|i: int| 0 <= i < p.len() implies #[trigger] p[i] == (key, v) || m.contains(
            p[i],
        ) by {
            if i > 0 {
                assert(p[i] == q[i - 1]);
                if m.skip(1).contains(q[i - 1]) {
                    let k = choose|k: int| 0 <= k < m.skip(1).len() && m.skip(1)[k] == q[i - 1];
                    assert(m[k + 1] == p[i]);
                }
            } else {
                assert(p[0] == m[0]);
            }
        }
    } else if m.len() > 0 {
        assert forall|i: int| 0 <= i < p.len() implies #[trigger] p[i] == (key, v) || m.contains(
            p[i],
        ) by {
            if i > 0 {
                if m[0].0 == key {
                    assert(p[i] == m[i]);
                } else {
                    assert(p[i] == m[i - 1]);
                }
            }
        }
    }
}

/// Members in order stay in order.
proof fn lemma_put_order(m: Seq<(Seq<char>, JsonView)>, key: Seq<char>, v: JsonView)
    requires
        in_key_order(m),
    ensures
        in_key_order(put(m, key, v)),
    decreases m.len(),
{
    let p = put(m, key, v);
    if m.len() > 0 {
        lemma_order_tail(m);
        if m[0].0 == key {
            assert forall|i: int, j: int| 0 <= i < j < p.len() implies order::before(
                #[trigger] p[i].0,
                #[trigger] p[j].0,
            ) by {
                assert(p[j] == m[j]);
                assert(order::before(m[i].0, m[j].0));
            }
        } else if order::before(key, m[0].0) {
            assert forall|i: int, j: int| 0 <= i < j < p.len() implies order::before(
                #[trigger] p[i].0,
                #[trigger] p[j].0,
            ) by {
                assert(p[j] == m[j - 1]);
                if i == 0 {
                    if j > 1 {
                        assert(order::before(m[0].0, m[j - 1].0));
                        order::lemma_transitive(key, m[0].0, m[j - 1].0);
                    }
                } else {
                    assert(p[i] == m[i - 1]);
                    assert(order::before(m[i - 1].0, m[j - 1].0));
                }
            }
        } else {
            let q = put(m.skip(1), key, v);
            lemma_put_order(m.skip(1), key, v);
            lemma_put_members(m.skip(1), key, v);
            order::lemma_total(key, m[0].0);
            assert forall|i: int, j: int| 0 <= i < j < p.len() implies order::before(
                #[trigger] p[i].0,
                #[trigger] p[j].0,
            ) by {
                assert(p[j] == q[j - 1]);
                if i == 0 {
                    if q[j - 1] != (key, v) {
                        let k = choose|k: int| 0 <= k < m.skip(1).len() && m.skip(1)[k] == q[j - 1];
                        assert(order::before(m[0].0, m[k + 1].0));
                    }
                } else {
                    assert(p[i] == q[i - 1]);
                    assert(order::before(q[i - 1].0, q[j - 1].0));
                }
            }
        }
    }
}

/// A document that is read back as it is written is so with one member more.
pub proof fn lemma_put_tame(v: JsonView, key: Seq<char>, x: JsonView)
    requires
        tame(v, read_depth()),
        v is Object,
        tame(x, (read_depth() - 1) as nat),
    ensures
        tame(with_member(v, key, x)->Some_0, read_depth()),
{
    let m = v->Object_0;
    let p = put(m, key, x);
    let d = (read_depth() - 1) as nat;
    lemma_put_order(m, key, x);
    lemma_put_members(m, key, x);
    assert forall|i: int| 0 <= i < p.len() implies tame((#[trigger] p[i]).1, d) by {
        if p[i] != (key, x) {
            let k = choose|k: int| 0 <= k < m.len() && m[k] == p[i];
            assert(tame(m[k].1, d));
        }
    }
}

/// Where keys are in order, a member that has a value already is put where it is.
proof fn lemma_put_same(m: Seq<(Seq<char>, JsonView)>, key: Seq<char>, v: JsonView)
    requires
        in_key_order(m),
        member(m, key) == Some(v),
    ensures
        put(m, key, v) == m,
    decreases m.len(),
{
    if m.len() > 0 {
        let n = m.skip(1);
        if m[0].0 == key {
            assert(put(m, key, v) =~= m);
        } else {
            lemma_order_tail(m);
            lemma_put_same(n, key, v);
            if order::before(key, m[0].0) {
                lemma_no_smaller(m, key);
            }
            assert(put(m, key, v) =~= m);
        }
    }
}

/// Where keys are in order, none comes before the first.
proof fn lemma_no_smaller(m: Seq<(Seq<char>, JsonView)>, key: Seq<char>)
    requires
        in_key_order(m),
        m.len() > 0,
        order::before(key, m[0].0),
    ensures
        member(m, key) is None,
    decreases m.len(),
{
    order::lemma_irreflexive(key);
    if m.len() > 1 {
        lemma_order_tail(m);
        assert(order::before(m[0].0, m[1].0));
        order::lemma_transitive(key, m[0].0, m[1].0);
        lemma_no_smaller(m.skip(1), key);
    }
    assert(m[0].0 != key);
    assert(member(m.skip(1), key) is None);
}

/// Of two values put under one key the last counts.
proof fn lemma_put_twice(m: Seq<(Seq<char>, JsonView)>, key: Seq<char>, a: JsonView, b: JsonView)
    ensures
        put(put(m, key, a), key, b) == put(m, key, b),
    decreases m.len(),
{
    let p = put(m, key, a);
    if m.len() == 0 {
        assert(put(p, key, b) =~= put(m, key, b));
    } else if m[0].0 == key {
        assert(p.skip(1) =~= m.skip(1));
        assert(put(p, key, b) =~= put(m, key, b));
    } else if order::before(key, m[0].0) {
        assert(p.skip(1) =~= m);
        assert(put(p, key, b) =~= put(m, key, b));
    } else {
        lemma_put_twice(m.skip(1), key, a, b);
        assert(p.skip(1) =~= put(m.skip(1), key, a));
        assert(p[0] == m[0]);
    }
}

/// A member that is changed and then changed back is as it was, with all that is around it.
pub proof fn law_put_back(v: JsonView, key: Seq<char>, x: JsonView, between: JsonView)
    requires
        orderly(v, read_depth()),
        field(v, key) == Some(x),
    ensures
        with_member(v, key, between) is Some,
        with_member(with_member(v, key, between)->Some_0, key, x) == Some(v),
{
    let m = v->Object_0;
    lemma_put_twice(m, key, between, x);
    lemma_put_same(m, key, x);
}

/// A parsed document with one member more is as one.
pub proof fn lemma_put_orderly(v: JsonView, key: Seq<char>, x: JsonView)
    requires
        orderly(v, read_depth()),
        v is Object,
        orderly(x, (read_depth() - 1) as nat),
    ensures
        orderly(with_member(v, key, x)->Some_0, read_depth()),
{
    let m = v->Object_0;
    let p = put(m, key, x);
    let d = (read_depth() - 1) as nat;
    lemma_put_order(m, key, x);
    lemma_put_members(m, key, x);
    assert forall|i: int| 0 <= i < p.len() implies orderly((#[trigger] p[i]).1, d) by {
        if p[i] != (key, x) {
            let k = choose|k: int| 0 <= k < m.len() && m[k] == p[i];
            assert(orderly(m[k].1, d));
        }
    }
}

/// Documents that say the same but for fractions have members that do.
pub proof fn lemma_alike_field(v: JsonView, w: JsonView, key: Seq<char>)
    requires
        alike(v, w),
    ensures
        opt_alike(field(v, key), field(w, key)),
{
    if v is Object {
        lemma_alike_member(v->Object_0, w->Object_0, key);
    }
}

/// So do members.
proof fn lemma_alike_member(
    m: Seq<(Seq<char>, JsonView)>,
    n: Seq<(Seq<char>, JsonView)>,
    key: Seq<char>,
)
    requires
        alike(JsonView::Object(m), JsonView::Object(n)),
    ensures
        opt_alike(member(m, key), member(n, key)),
    decreases m.len(),
{
    if m.len() > 0 {
        assert(m[0].0 == n[0].0);
        if m[0].0 != key {
            lemma_alike_rest(m, n);
            lemma_alike_member(m.skip(1), n.skip(1), key);
        }
    }
}

/// The members behind the first say the same where all do.
proof fn lemma_alike_rest(m: Seq<(Seq<char>, JsonView)>, n: Seq<(Seq<char>, JsonView)>)
    requires
        alike(JsonView::Object(m), JsonView::Object(n)),
        m.len() > 0,
    ensures
        alike(JsonView::Object(m.skip(1)), JsonView::Object(n.skip(1))),
{
    let a = m.skip(1);
    let b = n.skip(1);
    assert forall|i: int| 0 <= i < a.len() implies (#[trigger] a[i]).0 == b[i].0 && alike(
        a[i].1,
        b[i].1,
    ) by {
        assert(m[i + 1].0 == n[i + 1].0);
    }
}

/// What says the same but for fractions does so with the same member put in.
proof fn lemma_put_alike(
    m: Seq<(Seq<char>, JsonView)>,
    n: Seq<(Seq<char>, JsonView)>,
    key: Seq<char>,
    x: JsonView,
)
    requires
        alike(JsonView::Object(m), JsonView::Object(n)),
    ensures
        alike(JsonView::Object(put(m, key, x)), JsonView::Object(put(n, key, x))),
    decreases m.len(),
{
    let a = put(m, key, x);
    let b = put(n, key, x);
    lemma_alike_self(x);
    if m.len() == 0 {
        assert(n =~= m);
        lemma_alike_self(JsonView::Object(a));
    } else {
        assert(m[0].0 == n[0].0 && alike(m[0].1, n[0].1));
        lemma_alike_rest(m, n);
        let p = put(m.skip(1), key, x);
        let q = put(n.skip(1), key, x);
        lemma_put_alike(m.skip(1), n.skip(1), key, x);
        assert forall|i: int| 0 <= i < a.len() implies (#[trigger] a[i]).0 == b[i].0 && alike(
            a[i].1,
            b[i].1,
        ) by {
            if m[0].0 == key {
                if i > 0 {
                    assert(a[i] == m[i] && b[i] == n[i]);
                }
            } else if order::before(key, m[0].0) {
                if i > 0 {
                    assert(a[i] == m[i - 1] && b[i] == n[i - 1]);
                }
            } else if i > 0 {
                assert(a[i] == p[i - 1] && b[i] == q[i - 1]);
            }
        }
    }
}

/// A member that is changed and then changed back is as it was, with all that is around it, also
/// where fractions around it became others meanwhile: the rest still says the same.
pub proof fn law_put_back_around_fractions(
    v: JsonView,
    key: Seq<char>,
    x: JsonView,
    between: JsonView,
    meanwhile: JsonView,
)
    requires
        orderly(v, read_depth()),
        field(v, key) == Some(x),
        alike(with_member(v, key, between)->Some_0, meanwhile),
    ensures
        with_member(meanwhile, key, x) is Some,
        alike(v, with_member(meanwhile, key, x)->Some_0),
{
    law_put_back(v, key, x, between);
    let d = with_member(v, key, between)->Some_0;
    lemma_put_alike(d->Object_0, meanwhile->Object_0, key, x);
}

/// An object of plain members in order is read back as it is written.
pub proof fn lemma_plain_tame(v: JsonView, m: Seq<(Seq<char>, JsonView)>)
    requires
        plain_members(m),
        has_members(v, m),
    ensures
        tame(v, read_depth()),
{
    let own = v->Object_0;
    let d = (read_depth() - 1) as nat;
    assert forall|i: int| 0 <= i < own.len() implies tame((#[trigger] own[i]).1, d) by {
        let k = choose|k: int| 0 <= k < m.len() && m[k] == own[i];
        assert(is_plain(m[k].1));
    }
}

/// Where a key belongs among members: at the first one that has it or a greater one.
fn place(m: &Vec<(String, Json)>, key: &str) -> (k: usize)
    ensures
        k <= m@.len(),
        forall|i: int|
            0 <= i < k ==> (#[trigger] m@[i]).0@ != key@ && !order::before(key@, m@[i].0@),
        k < m@.len() ==> m@[k as int].0@ == key@ || order::before(key@, m@[k as int].0@),
{
    let mut k: usize = 0;
    while k < m.len()
        invariant
            k <= m@.len(),
            forall|i: int|
                0 <= i < k ==> (#[trigger] m@[i]).0@ != key@ && !order::before(key@, m@[i].0@),
        decreases m@.len() - k,
    {
        if str_eq(m[k].0.as_str(), key) || less(key, m[k].0.as_str()) {
            return k;
        }
        k += 1;
    }
    k
}

/// Members before the place of a key stay where they are.
proof fn lemma_put_at(m: Seq<(Seq<char>, JsonView)>, key: Seq<char>, v: JsonView, k: int)
    requires
        0 <= k <= m.len(),
        forall|i: int| 0 <= i < k ==> (#[trigger] m[i]).0 != key && !order::before(key, m[i].0),
    ensures
        put(m, key, v) == m.take(k) + put(m.skip(k), key, v),
    decreases k,
{
    if k == 0 {
        assert(m.take(0) + put(m.skip(0), key, v) =~= put(m, key, v)) by {
            assert(m.skip(0) =~= m);
        }
    } else {
        let n = m.skip(1);
        assert forall|i: int| 0 <= i < k - 1 implies (#[trigger] n[i]).0 != key && !order::before(
            key,
            n[i].0,
        ) by {
            assert(n[i] == m[i + 1]);
        }
        lemma_put_at(n, key, v, k - 1);
        assert(n.skip(k - 1) =~= m.skip(k));
        assert(m.take(k) =~= seq![m[0]] + n.take(k - 1));
        assert(put(m, key, v) =~= m.take(k) + put(m.skip(k), key, v));
    }
}

/// A document with a member set; none where it can have no members.
pub fn set_member(j: Json, key: &str, value: Json) -> (r: Option<Json>)
    ensures
        match r {
            Some(d) => with_member(j@, key@, value@) == Some(d@),
            None => with_member(j@, key@, value@) is None,
        },
{
    match j {
        Json::Object(members) => {
            let mut m = members;
            let ghost was = member_views(m@);
            proof {
                assert(j@->Object_0 =~= was);
            }
            let k = place(&m, key);
            proof {
                assert forall|i: int| 0 <= i < k implies (#[trigger] was[i]).0 != key@
                    && !order::before(key@, was[i].0) by {
                    assert(was[i].0 == m@[i].0@);
                }
                lemma_put_at(was, key@, value@, k as int);
            }
            let ghost x = value@;
            if k < m.len() && str_eq(m[k].0.as_str(), key) {
                m.set(k, named(key, value));
                proof {
                    assert(was.skip(k as int)[0] == was[k as int]);
                    assert(member_views(m@) =~= put(was, key@, x));
                }
            } else {
                m.insert(k, named(key, value));
                proof {
                    if k < was.len() {
                        assert(was.skip(k as int)[0] == was[k as int]);
                    }
                    assert(member_views(m@) =~= put(was, key@, x));
                }
            }
            let d = Json::Object(m);
            proof {
                assert(d@->Object_0 =~= put(was, key@, x));
            }
            Some(d)
        },
        Json::Null => {
            let ghost x = value@;
            let d = Json::Object(vec![named(key, value)]);
            proof {
                assert(d@->Object_0 =~= seq![(key@, x)]);
            }
            Some(d)
        },
        _ => None,
    }
}

/// The strings of an array, in their order; anything else has none.
pub open spec fn strings_of(v: Option<JsonView>) -> Seq<Seq<char>> {
    match v {
        Some(JsonView::Array(a)) => a.filter(|x: JsonView| x is Str).map_values(
            |x: JsonView| x->Str_0,
        ),
        _ => Seq::empty(),
    }
}

/// A list of strings is the strings of the array, in their order, without what is no string.
pub proof fn law_string_list(v: Option<JsonView>)
    ensures
        string_list(v) == strings_of(v),
{
    match v {
        Some(JsonView::Array(a)) => {
            lemma_strings_filtered(a);
        },
        _ => {},
    }
}

/// The strings among values are those that pass.
proof fn lemma_strings_filtered(a: Seq<JsonView>)
    ensures
        strings_among(a) == a.filter(|x: JsonView| x is Str).map_values(|x: JsonView| x->Str_0),
    decreases a.len(),
{
    reveal(Seq::filter);
    let pass = |x: JsonView| x is Str;
    let f = |x: JsonView| x->Str_0;
    if a.len() > 0 {
        lemma_strings_filtered(a.drop_last());
        let h = a.drop_last().filter(pass);
        assert(h.push(a.last()).map_values(f) =~= h.map_values(f).push(f(a.last())));
    }
    assert(strings_among(a) =~= a.filter(pass).map_values(f));
}

/// Whether a member is the array of these texts, in their order.
pub open spec fn lists_texts(v: Option<JsonView>, l: Seq<Seq<char>>) -> bool {
    v matches Some(JsonView::Array(a)) && a.len() == l.len() && forall|i: int|
        0 <= i < l.len() ==> #[trigger] a[i] == JsonView::Str(l[i])
}

/// What is read out of a member that may be missing: a value of the kind that is asked for is given as
/// it stands, and anything else counts as missing. A number is one number however it is asked
/// for, as far as it fits.
pub proof fn law_members_read(v: Option<JsonView>, s: Seq<char>, n: u64, m: i64, b: bool)
    ensures
        text_or(Some(JsonView::Str(s)), Seq::empty()) == s,
        nonempty_text(Some(JsonView::Str(s))) == (if s.len() == 0 {
            None
        } else {
            Some(s)
        }),
        bool_or(Some(JsonView::Bool(b)), !b) == b,
        u64_or(Some(JsonView::UInt(n)), 0) == n,
        n <= i64::MAX ==> i64_or(Some(JsonView::UInt(n)), 0) as int == n as int,
        n > i64::MAX ==> i64_or(Some(JsonView::UInt(n)), m) == m,
        i64_or(Some(JsonView::NegInt(m)), 0) == m,
        u64_or(Some(JsonView::NegInt(m)), n) == n,
        !(v matches Some(JsonView::Str(_))) ==> text_or(v, s) == s && nonempty_text(v) is None,
        !(v matches Some(JsonView::Bool(_))) ==> bool_or(v, b) == b,
        !(v matches Some(JsonView::UInt(_))) ==> u64_or(v, n) == n,
        !(v matches Some(JsonView::UInt(_))) && !(v matches Some(JsonView::NegInt(_))) ==> i64_or(
            v,
            m,
        ) == m,
{
}

} // verus!
