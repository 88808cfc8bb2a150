//! Lists of steps that are laid out before they are taken.

use vstd::prelude::*;

verus! {

/// Steps that are there only under a condition.
pub open spec fn when<T>(b: bool, s: Seq<T>) -> Seq<T> {
    if b {
        s
    } else {
        Seq::empty()
    }
}

/// Adds a step under a condition.
pub fn push_if<T>(v: &mut Vec<T>, b: bool, x: T)
    ensures
        final(v)@ == old(v)@ + when(b, seq![x]),
{
    let ghost was = v@;
    if b {
        v.push(x);
        proof {
            assert(v@ =~= was + when(b, seq![x]));
        }
    } else {
        proof {
            assert(v@ =~= was + when(b, seq![x]));
        }
    }
}

/// Adds a step.
pub fn push_one<T>(v: &mut Vec<T>, x: T)
    ensures
        final(v)@ == old(v)@ + seq![x],
{
    let ghost was = v@;
    v.push(x);
    proof {
        assert(v@ =~= was + seq![x]);
    }
}

/// Steps behind steps behind steps.
pub proof fn lemma_assoc<T>(a: Seq<T>, b: Seq<T>, c: Seq<T>)
    ensures
        (a + b) + c == a + (b + c),
{
    assert((a + b) + c =~= a + (b + c));
}

/// Steps whose ranks never fall and lie between the two given.
#[verifier::opaque]
pub open spec fn rising<T>(s: Seq<T>, rank: spec_fn(T) -> int, lo: int, hi: int) -> bool {
    &&& forall|i: int| 0 <= i < s.len() ==> lo <= rank(#[trigger] s[i]) <= hi
    &&& forall|i: int, j: int|
        0 <= i <= j < s.len() ==> rank(#[trigger] s[i]) <= rank(#[trigger] s[j])
}

/// Steps of higher ranks behind steps of lower ones.
pub proof fn lemma_rising<T>(
    a: Seq<T>,
    b: Seq<T>,
    rank: spec_fn(T) -> int,
    lo: int,
    k: int,
    l: int,
    hi: int,
)
    requires
        rising(a, rank, lo, k),
        rising(b, rank, l, hi),
        lo <= k <= l <= hi,
    ensures
        rising(a + b, rank, lo, hi),
{
    reveal(rising);
    let s = a + b;
    let n = a.len() as int;
    assert forall|i: int| 0 <= i < s.len() implies lo <= rank(#[trigger] s[i]) <= hi by {
        if i < n {
            assert(s[i] == a[i]);
        } else {
            assert(s[i] == b[i - n]);
        }
    }
    assert forall|i: int, j: int| 0 <= i <= j < s.len() implies rank(#[trigger] s[i]) <= rank(
        #[trigger] s[j],
    ) by {
        if j < n {
            assert(s[i] == a[i] && s[j] == a[j]);
        } else if i < n {
            assert(s[i] == a[i] && s[j] == b[j - n]);
        } else {
            assert(s[i] == b[i - n] && s[j] == b[j - n]);
        }
    }
}

/// One step.
pub proof fn lemma_one<T>(x: T, rank: spec_fn(T) -> int, k: int)
    requires
        rank(x) == k,
    ensures
        rising(seq![x], rank, k, k),
{
    reveal(rising);
}

/// One step, or none.
pub proof fn lemma_when<T>(b: bool, x: T, rank: spec_fn(T) -> int, k: int)
    requires
        rank(x) == k,
    ensures
        rising(when(b, seq![x]), rank, k, k),
{
    reveal(rising);
}

/// Steps of one rank.
pub proof fn lemma_level<T>(s: Seq<T>, rank: spec_fn(T) -> int, k: int)
    requires
        forall|i: int| 0 <= i < s.len() ==> rank(#[trigger] s[i]) == k,
    ensures
        rising(s, rank, k, k),
{
    reveal(rising);
}

/// A step among some is among these and others.
pub proof fn lemma_among<T>(a: Seq<T>, b: Seq<T>, x: T)
    ensures
        a.contains(x) ==> (a + b).contains(x),
        b.contains(x) ==> (a + b).contains(x),
{
    let s = a + b;
    if a.contains(x) {
        let i = choose|i: int| 0 <= i < a.len() && a[i] == x;
        assert(s[i] == x);
    }
    if b.contains(x) {
        let i = choose|i: int| 0 <= i < b.len() && b[i] == x;
        assert(s[a.len() + i] == x);
    }
}

/// What is among steps behind steps.
pub proof fn lemma_sum_has<T>(a: Seq<T>, b: Seq<T>, x: T)
    ensures
        (a + b).contains(x) <==> a.contains(x) || b.contains(x),
{
    let s = a + b;
    lemma_among(a, b, x);
    if s.contains(x) {
        let i = choose|i: int| 0 <= i < s.len() && s[i] == x;
        if i < a.len() {
            assert(a[i] == x);
        } else {
            assert(b[i - a.len()] == x);
        }
    }
}

/// What is among one step, and among one under a condition, behind others.
pub proof fn lemma_step_has<T>(a: Seq<T>, b: bool, y: T, x: T)
    ensures
        (a + seq![y]).contains(x) <==> a.contains(x) || x == y,
        (a + when(b, seq![y])).contains(x) <==> a.contains(x) || (b && x == y),
{
    lemma_sum_has(a, seq![y], x);
    lemma_sum_has(a, when(b, seq![y]), x);
    assert(seq![y].contains(x) <==> x == y) by {
        assert(seq![y][0] == y);
    }
}

} // verus!
