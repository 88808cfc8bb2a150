//! The order of texts: character by character, a prefix before what it starts.

use vstd::prelude::*;

use crate::text;
use crate::text::{chars_of, str_eq};

verus! {

/// Whether `a` comes before `b`.
pub open spec fn before(a: Seq<char>, b: Seq<char>) -> bool
    decreases a.len(),
{
    if b.len() == 0 {
        false
    } else if a.len() == 0 {
        true
    } else {
        a[0] < b[0] || (a[0] == b[0] && before(a.skip(1), b.skip(1)))
    }
}

/// No text comes before itself.
pub proof fn lemma_irreflexive(a: Seq<char>)
    ensures
        !before(a, a),
    decreases a.len(),
{
    if a.len() > 0 {
        lemma_irreflexive(a.skip(1));
    }
}

/// What comes before something that comes before a third comes before the third.
pub proof fn lemma_transitive(a: Seq<char>, b: Seq<char>, c: Seq<char>)
    requires
        before(a, b),
        before(b, c),
    ensures
        before(a, c),
    decreases a.len(),
{
    if a.len() > 0 && a[0] == b[0] && b[0] == c[0] {
        lemma_transitive(a.skip(1), b.skip(1), c.skip(1));
    }
}

/// Of two different texts one comes before the other.
pub proof fn lemma_total(a: Seq<char>, b: Seq<char>)
    ensures
        before(a, b) || a == b || before(b, a),
    decreases a.len(),
{
    if a.len() == 0 || b.len() == 0 {
        if a.len() == 0 && b.len() == 0 {
            assert(a =~= b);
        }
    } else if a[0] == b[0] {
        lemma_total(a.skip(1), b.skip(1));
        if a.skip(1) == b.skip(1) {
            assert(a =~= seq![a[0]] + a.skip(1));
            assert(b =~= seq![b[0]] + b.skip(1));
        }
    }
}

/// Two texts that agree up to a place are ordered by what stands there.
pub proof fn lemma_first_difference(a: Seq<char>, b: Seq<char>, k: int)
    requires
        0 <= k < a.len(),
        k < b.len(),
        forall|i: int| 0 <= i < k ==> a[i] == b[i],
        a[k] < b[k],
    ensures
        before(a, b),
    decreases k,
{
    if k > 0 {
        assert forall|i: int| 0 <= i < k - 1 implies a.skip(1)[i] == b.skip(1)[i] by {
            assert(a[i + 1] == b[i + 1]);
        }
        lemma_first_difference(a.skip(1), b.skip(1), k - 1);
        assert(a[0] == b[0]);
    }
}

/// Whether `a` comes before `b`.
pub fn less(a: &str, b: &str) -> (r: bool)
    ensures
        r == before(a@, b@),
{
    let x = chars_of(a);
    let y = chars_of(b);
    let mut i: usize = 0;
    proof {
        assert(a@.skip(0) =~= a@);
        assert(b@.skip(0) =~= b@);
    }
    while i < x.len() && i < y.len()
        invariant
            i <= x.len(),
            i <= y.len(),
            x@ == a@,
            y@ == b@,
            before(a@, b@) == before(a@.skip(i as int), b@.skip(i as int)),
        decreases x.len() - i,
    {
        let c = x[i];
        let d = y[i];
        proof {
            assert(a@.skip(i as int)[0] == c);
            assert(b@.skip(i as int)[0] == d);
            assert(a@.skip(i as int).skip(1) =~= a@.skip(i + 1));
            assert(b@.skip(i as int).skip(1) =~= b@.skip(i + 1));
        }
        if c < d {
            return true;
        }
        if d < c {
            return false;
        }
        i = i + 1;
    }
    i < y.len()
}

/// A text comes before the longer ones that begin with it.
pub proof fn lemma_prefix_before(a: Seq<char>, b: Seq<char>)
    requires
        a.len() < b.len(),
        forall|i: int| 0 <= i < a.len() ==> a[i] == b[i],
    ensures
        before(a, b),
    decreases a.len(),
{
    if a.len() > 0 {
        assert forall|i: int| 0 <= i < a.skip(1).len() implies a.skip(1)[i] == b.skip(1)[i] by {
            assert(a[i + 1] == b[i + 1]);
        }
        lemma_prefix_before(a.skip(1), b.skip(1));
        assert(a[0] == b[0]);
    }
}

/// Whether texts are in order, none twice.
pub open spec fn strictly(s: Seq<Seq<char>>) -> bool {
    forall|i: int, j: int| 0 <= i < j < s.len() ==> before(#[trigger] s[i], #[trigger] s[j])
}

/// Texts in order with one more, which comes in before the first greater one unless it is there.
pub open spec fn with_text(s: Seq<Seq<char>>, t: Seq<char>) -> Seq<Seq<char>>
    decreases s.len(),
{
    if s.len() == 0 {
        seq![t]
    } else if s[0] == t {
        s
    } else if before(t, s[0]) {
        seq![t] + s
    } else {
        seq![s[0]] + with_text(s.skip(1), t)
    }
}

/// The texts of a list in order, each once.
pub open spec fn in_order_once(s: Seq<Seq<char>>) -> Seq<Seq<char>>
    decreases s.len(),
{
    if s.len() == 0 {
        Seq::empty()
    } else {
        with_text(in_order_once(s.drop_last()), s.last())
    }
}

/// What is among texts with one more.
proof fn lemma_with_text(s: Seq<Seq<char>>, t: Seq<char>)
    requires
        strictly(s),
    ensures
        strictly(with_text(s, t)),
        forall|x: Seq<char>| #[trigger] with_text(s, t).contains(x) <==> x == t || s.contains(x),
    decreases s.len(),
{
    let w = with_text(s, t);
    if s.len() == 0 {
        assert(w[0] == t);
        assert forall|x: Seq<char>| #[trigger] w.contains(x) implies x == t by {
            let k = choose|k: int| 0 <= k < w.len() && w[k] == x;
        }
    } else if s[0] == t {
        assert(s.contains(t));
    } else if before(t, s[0]) {
        assert forall|i: int, j: int| 0 <= i < j < w.len() implies before(
            #[trigger] w[i],
            #[trigger] w[j],
        ) by {
            assert(w[j] == s[j - 1]);
            if i == 0 {
                if j > 1 {
                    assert(before(s[0], s[j - 1]));
                    lemma_transitive(t, s[0], s[j - 1]);
                }
            } else {
                assert(w[i] == s[i - 1]);
                assert(before(s[i - 1], s[j - 1]));
            }
        }
        assert forall|x: Seq<char>| #[trigger] w.contains(x) <==> x == t || s.contains(x) by {
            if w.contains(x) {
                let k = choose|k: int| 0 <= k < w.len() && w[k] == x;
                if k > 0 {
                    assert(s[k - 1] == x);
                }
            }
            if s.contains(x) {
                let k = choose|k: int| 0 <= k < s.len() && s[k] == x;
                assert(w[k + 1] == x);
            }
            assert(w[0] == t);
        }
    } else {
        let r = s.skip(1);
        let q = with_text(r, t);
        assert forall|i: int, j: int| 0 <= i < j < r.len() implies before(
            #[trigger] r[i],
            #[trigger] r[j],
        ) by {
            assert(before(s[i + 1], s[j + 1]));
        }
        lemma_with_text(r, t);
        lemma_total(t, s[0]);
        assert forall|i: int, j: int| 0 <= i < j < w.len() implies before(
            #[trigger] w[i],
            #[trigger] w[j],
        ) by {
            assert(w[j] == q[j - 1]);
            if i == 0 {
                assert(q.contains(q[j - 1]));
                if q[j - 1] != t {
                    let k = choose|k: int| 0 <= k < r.len() && r[k] == q[j - 1];
                    assert(before(s[0], s[k + 1]));
                }
            } else {
                assert(w[i] == q[i - 1]);
                assert(before(q[i - 1], q[j - 1]));
            }
        }
        assert forall|x: Seq<char>| #[trigger] w.contains(x) <==> x == t || s.contains(x) by {
            if w.contains(x) {
                let k = choose|k: int| 0 <= k < w.len() && w[k] == x;
                if k > 0 {
                    assert(q[k - 1] == x);
                    assert(q.contains(x));
                    if r.contains(x) {
                        let n = choose|n: int| 0 <= n < r.len() && r[n] == x;
                        assert(s[n + 1] == x);
                    }
                } else {
                    assert(s[0] == x);
                }
            }
            if x == t || s.contains(x) {
                if x == s[0] {
                    assert(w[0] == x);
                } else {
                    if s.contains(x) && x != t {
                        let k = choose|k: int| 0 <= k < s.len() && s[k] == x;
                        assert(r[k - 1] == x);
                        assert(r.contains(x));
                    }
                    assert(q.contains(x));
                    let n = choose|n: int| 0 <= n < q.len() && q[n] == x;
                    assert(w[n + 1] == x);
                }
            }
        }
    }
}

/// The texts of a list are put in order, each once, and none is lost or made up.
pub proof fn law_in_order_once(s: Seq<Seq<char>>)
    ensures
        strictly(in_order_once(s)),
        forall|x: Seq<char>| #[trigger] in_order_once(s).contains(x) <==> s.contains(x),
    decreases s.len(),
{
    if s.len() > 0 {
        let h = s.drop_last();
        law_in_order_once(h);
        lemma_with_text(in_order_once(h), s.last());
        assert forall|x: Seq<char>| #[trigger] in_order_once(s).contains(x) <==> s.contains(x) by {
            if s.contains(x) {
                let k = choose|k: int| 0 <= k < s.len() && s[k] == x;
                if k < h.len() {
                    assert(h[k] == x);
                    assert(h.contains(x));
                }
                assert(in_order_once(h).contains(x) || x == s.last());
            }
            if in_order_once(s).contains(x) {
                if x == s.last() {
                    assert(s[s.len() - 1] == x);
                } else {
                    assert(in_order_once(h).contains(x));
                    let k = choose|k: int| 0 <= k < h.len() && h[k] == x;
                    assert(s[k] == x);
                }
            }
        }
    } else {
        assert forall|x: Seq<char>| #[trigger] in_order_once(s).contains(x) <==> s.contains(x) by {
        }
    }
}

/// Two lists in order that hold each other's first text begin with the same one.
proof fn lemma_same_first(a: Seq<Seq<char>>, b: Seq<Seq<char>>)
    requires
        strictly(a),
        strictly(b),
        a.len() > 0,
        b.len() > 0,
        b.contains(a[0]),
        a.contains(b[0]),
    ensures
        a[0] == b[0],
{
    let i = choose|i: int| 0 <= i < b.len() && b[i] == a[0];
    let j = choose|j: int| 0 <= j < a.len() && a[j] == b[0];
    if i > 0 && j > 0 {
        assert(before(b[0], b[i]));
        assert(before(a[0], a[j]));
        lemma_transitive(a[0], b[0], a[0]);
        lemma_irreflexive(a[0]);
    }
}

/// The texts behind the first are those of the list but the first.
proof fn lemma_rest_of(a: Seq<Seq<char>>)
    requires
        strictly(a),
        a.len() > 0,
    ensures
        strictly(a.skip(1)),
        forall|x: Seq<char>| #[trigger] a.skip(1).contains(x) <==> x != a[0] && a.contains(x),
{
    let r = a.skip(1);
    assert forall|i: int, j: int| 0 <= i < j < r.len() implies before(
        #[trigger] r[i],
        #[trigger] r[j],
    ) by {
        assert(before(a[i + 1], a[j + 1]));
    }
    assert forall|x: Seq<char>| #[trigger] r.contains(x) <==> x != a[0] && a.contains(x) by {
        if r.contains(x) {
            let k = choose|k: int| 0 <= k < r.len() && r[k] == x;
            assert(a[k + 1] == x);
            assert(before(a[0], a[k + 1]));
            lemma_irreflexive(x);
        }
        if x != a[0] && a.contains(x) {
            let k = choose|k: int| 0 <= k < a.len() && a[k] == x;
            assert(r[k - 1] == x);
        }
    }
}

/// There is one way to put texts in order, each once.
pub proof fn lemma_one_order(a: Seq<Seq<char>>, b: Seq<Seq<char>>)
    requires
        strictly(a),
        strictly(b),
        forall|x: Seq<char>| #[trigger] a.contains(x) <==> b.contains(x),
    ensures
        a == b,
    decreases a.len(),
{
    if a.len() == 0 {
        if b.len() > 0 {
            assert(b.contains(b[0]));
            assert(a.contains(b[0]));
        }
        assert(a =~= b);
    } else {
        assert(a.contains(a[0]));
        assert(b.contains(a[0]));
        assert(b.contains(b[0]));
        assert(a.contains(b[0]));
        lemma_same_first(a, b);
        lemma_rest_of(a);
        lemma_rest_of(b);
        assert forall|x: Seq<char>| #[trigger] a.skip(1).contains(x) <==> b.skip(1).contains(x) by {
            assert(a.contains(x) <==> b.contains(x));
        }
        lemma_one_order(a.skip(1), b.skip(1));
        assert(a =~= seq![a[0]] + a.skip(1));
        assert(b =~= seq![b[0]] + b.skip(1));
    }
}

/// Texts before the place of one more stay where they are.
proof fn lemma_with_text_at(s: Seq<Seq<char>>, t: Seq<char>, k: int)
    requires
        0 <= k <= s.len(),
        forall|i: int| 0 <= i < k ==> #[trigger] s[i] != t && !before(t, s[i]),
    ensures
        with_text(s, t) == s.take(k) + with_text(s.skip(k), t),
    decreases k,
{
    if k == 0 {
        assert(s.skip(0) =~= s);
        assert(s.take(0) + with_text(s.skip(0), t) =~= with_text(s, t));
    } else {
        let r = s.skip(1);
        assert forall|i: int| 0 <= i < k - 1 implies #[trigger] r[i] != t && !before(t, r[i]) by {
            assert(r[i] == s[i + 1]);
        }
        lemma_with_text_at(r, t, k - 1);
        assert(r.skip(k - 1) =~= s.skip(k));
        assert(s.take(k) =~= seq![s[0]] + r.take(k - 1));
        assert(with_text(s, t) =~= s.take(k) + with_text(s.skip(k), t));
    }
}

/// Adds a text to texts in order, unless it is there.
pub fn insert_text(v: &mut Vec<String>, t: &str)
    ensures
        text::texts(final(v)@) == with_text(text::texts(old(v)@), t@),
{
    let ghost was = text::texts(v@);
    let mut k: usize = 0;
    while k < v.len()
        invariant
            k <= v@.len(),
            was == text::texts(v@),
            was == text::texts(old(v)@),
            forall|i: int| 0 <= i < k ==> #[trigger] was[i] != t@ && !before(t@, was[i]),
        decreases v@.len() - k,
    {
        if str_eq(v[k].as_str(), t) {
            proof {
                lemma_with_text_at(was, t@, k as int);
                assert(was.skip(k as int)[0] == t@);
                assert(was.take(k as int) + was.skip(k as int) =~= was);
            }
            return;
        }
        if less(t, v[k].as_str()) {
            let ghost at = v@;
            v.insert(k, text::owned(t));
            proof {
                lemma_with_text_at(was, t@, k as int);
                assert(was.skip(k as int)[0] == at[k as int]@);
                assert(text::texts(v@) =~= was.take(k as int) + (seq![t@] + was.skip(k as int)));
            }
            return;
        }
        k += 1;
    }
    let ghost at = v@;
    v.push(text::owned(t));
    proof {
        lemma_with_text_at(was, t@, k as int);
        assert(was.skip(k as int) =~= Seq::<Seq<char>>::empty());
        assert(text::texts(v@) =~= was.take(k as int) + seq![t@]);
    }
}

/// The texts of a list in order, each once.
pub fn sorted_texts(v: &Vec<String>) -> (r: Vec<String>)
    ensures
        text::texts(r@) == in_order_once(text::texts(v@)),
{
    let ghost all = text::texts(v@);
    let mut r: Vec<String> = Vec::new();
    let mut i: usize = 0;
    proof {
        assert(all.subrange(0, 0) =~= Seq::<Seq<char>>::empty());
        assert(text::texts(r@) =~= Seq::<Seq<char>>::empty());
    }
    while i < v.len()
        invariant
            i <= v.len(),
            all == text::texts(v@),
            text::texts(r@) == in_order_once(all.subrange(0, i as int)),
        decreases v.len() - i,
    {
        proof {
            let part = all.subrange(0, i + 1);
            assert(part.drop_last() =~= all.subrange(0, i as int));
            assert(part.last() == v@[i as int]@);
        }
        insert_text(&mut r, v[i].as_str());
        i += 1;
    }
    proof {
        assert(all.subrange(0, all.len() as int) =~= all);
    }
    r
}

/// Whether one pair of texts comes before another: by the first texts, then by the second.
pub open spec fn pair_before(a: (Seq<char>, Seq<char>), b: (Seq<char>, Seq<char>)) -> bool {
    before(a.0, b.0) || (a.0 == b.0 && before(a.1, b.1))
}

/// Something that is ordered by a pair of texts.
pub trait Keyed {
    spec fn key(self) -> (Seq<char>, Seq<char>);
}

/// A list in order with one thing more, which comes in behind all that are not after it.
pub open spec fn placed<V: Keyed>(s: Seq<V>, x: V) -> Seq<V>
    decreases s.len(),
{
    if s.len() == 0 {
        seq![x]
    } else if pair_before(x.key(), s[0].key()) {
        seq![x] + s
    } else {
        seq![s[0]] + placed(s.skip(1), x)
    }
}

/// A list put in order; things with the same key keep their order.
pub open spec fn arranged<V: Keyed>(s: Seq<V>) -> Seq<V>
    decreases s.len(),
{
    if s.len() == 0 {
        Seq::empty()
    } else {
        placed(arranged(s.drop_last()), s.last())
    }
}

/// Whether nothing in a list is after something behind it.
pub open spec fn is_arranged<V: Keyed>(s: Seq<V>) -> bool {
    forall|i: int, j: int|
        0 <= i < j < s.len() ==> !pair_before((#[trigger] s[j]).key(), (#[trigger] s[i]).key())
}

/// What comes before something comes before all that is not before that.
proof fn lemma_pair_chain(
    a: (Seq<char>, Seq<char>),
    b: (Seq<char>, Seq<char>),
    c: (Seq<char>, Seq<char>),
)
    requires
        pair_before(a, b),
        !pair_before(c, b),
    ensures
        pair_before(a, c),
{
    lemma_total(b.0, c.0);
    lemma_total(b.1, c.1);
    if before(a.0, b.0) && before(b.0, c.0) {
        lemma_transitive(a.0, b.0, c.0);
    }
    if before(a.1, b.1) && before(b.1, c.1) {
        lemma_transitive(a.1, b.1, c.1);
    }
}

/// Nothing comes before what comes before it.
proof fn lemma_pair_asymmetric(a: (Seq<char>, Seq<char>), b: (Seq<char>, Seq<char>))
    requires
        pair_before(a, b),
    ensures
        !pair_before(b, a),
{
    lemma_irreflexive(a.0);
    lemma_irreflexive(a.1);
    if before(b.0, a.0) && before(a.0, b.0) {
        lemma_transitive(a.0, b.0, a.0);
    }
    if before(b.1, a.1) && before(a.1, b.1) {
        lemma_transitive(a.1, b.1, a.1);
    }
}

/// What a list holds with one thing more, and that it stays in order.
proof fn lemma_placed<V: Keyed>(s: Seq<V>, x: V)
    requires
        is_arranged(s),
    ensures
        is_arranged(placed(s, x)),
        placed(s, x).to_multiset() =~= s.to_multiset().insert(x),
        placed(s, x).len() == s.len() + 1,
        forall|i: int|
            0 <= i < placed(s, x).len() ==> #[trigger] placed(s, x)[i] == x || s.contains(
                placed(s, x)[i],
            ),
    decreases s.len(),
{
    broadcast use vstd::seq_lib::group_to_multiset_ensures;

    let w = placed(s, x);
    if s.len() == 0 {
        assert(w =~= s.push(x));
    } else if pair_before(x.key(), s[0].key()) {
        assert forall|i: int, j: int| 0 <= i < j < w.len() implies !pair_before(
            (#[trigger] w[j]).key(),
            (#[trigger] w[i]).key(),
        ) by {
            assert(w[j] == s[j - 1]);
            if i == 0 {
                lemma_pair_asymmetric(x.key(), s[0].key());
                if j > 1 {
                    assert(!pair_before(s[j - 1].key(), s[0].key()));
                    lemma_pair_chain(x.key(), s[0].key(), s[j - 1].key());
                    lemma_pair_asymmetric(x.key(), s[j - 1].key());
                }
            } else {
                assert(w[i] == s[i - 1]);
            }
        }
        assert(w =~= s.insert(0, x));
        vstd::seq_lib::to_multiset_insert(s, 0, x);
        assert forall|i: int| 0 <= i < w.len() implies #[trigger] w[i] == x || s.contains(w[i]) by {
            if i > 0 {
                assert(w[i] == s[i - 1]);
            }
        }
    } else {
        let r = s.skip(1);
        let q = placed(r, x);
        assert forall|i: int, j: int| 0 <= i < j < r.len() implies !pair_before(
            (#[trigger] r[j]).key(),
            (#[trigger] r[i]).key(),
        ) by {
            assert(r[j] == s[j + 1] && r[i] == s[i + 1]);
        }
        lemma_placed(r, x);
        assert forall|i: int, j: int| 0 <= i < j < w.len() implies !pair_before(
            (#[trigger] w[j]).key(),
            (#[trigger] w[i]).key(),
        ) by {
            assert(w[j] == q[j - 1]);
            if i == 0 {
                if q[j - 1] != x {
                    let k = choose|k: int| 0 <= k < r.len() && r[k] == q[j - 1];
                    assert(s[k + 1] == q[j - 1]);
                    assert(!pair_before(s[k + 1].key(), s[0].key()));
                }
            } else {
                assert(w[i] == q[i - 1]);
            }
        }
        assert(w =~= q.insert(0, s[0]));
        vstd::seq_lib::to_multiset_insert(q, 0, s[0]);
        assert(s =~= r.insert(0, s[0]));
        vstd::seq_lib::to_multiset_insert(r, 0, s[0]);
        assert(w.to_multiset() =~= s.to_multiset().insert(x));
        assert forall|i: int| 0 <= i < w.len() implies #[trigger] w[i] == x || s.contains(w[i]) by {
            if i > 0 {
                assert(w[i] == q[i - 1]);
                if q[i - 1] != x {
                    let k = choose|k: int| 0 <= k < r.len() && r[k] == q[i - 1];
                    assert(s[k + 1] == w[i]);
                }
            } else {
                assert(w[0] == s[0]);
            }
        }
    }
}

/// A list that is put in order is in order, and holds what it held.
pub proof fn law_arranged<V: Keyed>(s: Seq<V>)
    ensures
        is_arranged(arranged(s)),
        arranged(s).to_multiset() == s.to_multiset(),
    decreases s.len(),
{
    broadcast use vstd::seq_lib::group_to_multiset_ensures;

    if s.len() > 0 {
        law_arranged(s.drop_last());
        lemma_placed(arranged(s.drop_last()), s.last());
        assert(s =~= s.drop_last().push(s.last()));
    } else {
        assert(arranged(s) =~= s);
    }
}

/// Things before the place of one more stay where they are.
pub proof fn lemma_placed_at<V: Keyed>(s: Seq<V>, x: V, k: int)
    requires
        0 <= k <= s.len(),
        forall|i: int| 0 <= i < k ==> !pair_before(x.key(), (#[trigger] s[i]).key()),
        k < s.len() ==> pair_before(x.key(), s[k].key()),
    ensures
        placed(s, x) == s.take(k) + seq![x] + s.skip(k),
    decreases k,
{
    if k == 0 {
        assert(s.take(0) + seq![x] + s.skip(0) =~= placed(s, x));
    } else {
        let r = s.skip(1);
        assert forall|i: int| 0 <= i < k - 1 implies !pair_before(
            x.key(),
            (#[trigger] r[i]).key(),
        ) by {
            assert(r[i] == s[i + 1]);
        }
        lemma_placed_at(r, x, k - 1);
        assert(r.skip(k - 1) =~= s.skip(k));
        assert(s.take(k) =~= seq![s[0]] + r.take(k - 1));
        assert(placed(s, x) =~= s.take(k) + seq![x] + s.skip(k));
    }
}

/// Whether one pair of texts comes before another.
pub fn pair_less(a: (&str, &str), b: (&str, &str)) -> (r: bool)
    ensures
        r == pair_before((a.0@, a.1@), (b.0@, b.1@)),
{
    less(a.0, b.0) || (str_eq(a.0, b.0) && less(a.1, b.1))
}

} // verus!
