//! Paths as texts: joining, components, lexical resolution.

use vstd::prelude::*;
use vstd::string::*;

use crate::error::Error;
use crate::text;
use crate::text::{contains_char, is_empty, owned, split, str_eq};

verus! {

/// Whether a path starts at the root.
pub open spec fn absolute(p: Seq<char>) -> bool {
    p.len() > 0 && p[0] == '/'
}

/// `rel` seen from `base`: an absolute path stands for itself.
pub open spec fn joined(base: Seq<char>, rel: Seq<char>) -> Seq<char> {
    if absolute(rel) || base.len() == 0 {
        rel
    } else if base.last() == '/' {
        base + rel
    } else {
        base.push('/') + rel
    }
}

/// Whether a path starts at the root.
pub fn is_absolute(p: &str) -> (r: bool)
    ensures
        r == absolute(p@),
{
    p.unicode_len() > 0 && p.get_char(0) == '/'
}

/// `rel` seen from `base`.
pub fn join(base: &str, rel: &str) -> (r: String)
    ensures
        r@ == joined(base@, rel@),
{
    let n = base.unicode_len();
    if is_absolute(rel) || n == 0 {
        return owned(rel);
    }
    let mut r = owned(base);
    if base.get_char(n - 1) != '/' {
        r.push('/');
    }
    r.append(rel);
    r
}

/// Those of the pieces between the slashes that name something: neither empty nor `.`.
pub open spec fn names_among(ps: Seq<Seq<char>>) -> Seq<Seq<char>>
    decreases ps.len(),
{
    if ps.len() == 0 {
        Seq::empty()
    } else {
        let head = names_among(ps.drop_last());
        if ps.last().len() == 0 || ps.last() == "."@ {
            head
        } else {
            head.push(ps.last())
        }
    }
}

/// The names in a path, in order; `..` is one of them.
pub open spec fn names(p: Seq<char>) -> Seq<Seq<char>> {
    names_among(text::pieces(p, '/'))
}

/// The names in a path, in order.
pub fn names_of(p: &str) -> (v: Vec<String>)
    ensures
        text::texts(v@) == names(p@),
{
    let ps = split(p, '/');
    let ghost all = text::texts(ps@);
    let mut v: Vec<String> = Vec::new();
    let mut i: usize = 0;
    proof {
        assert(all.subrange(0, 0) =~= Seq::<Seq<char>>::empty());
        assert(text::texts(v@) =~= names_among(all.subrange(0, 0)));
    }
    while i < ps.len()
        invariant
            i <= ps.len(),
            all == text::texts(ps@),
            text::texts(v@) == names_among(all.subrange(0, i as int)),
        decreases ps.len() - i,
    {
        let ghost was = v@;
        proof {
            let part = all.subrange(0, i + 1);
            assert(part.drop_last() =~= all.subrange(0, i as int));
            assert(part.last() == ps@[i as int]@);
        }
        if !is_empty(ps[i].as_str()) && !str_eq(ps[i].as_str(), ".") {
            v.push(ps[i].clone());
            proof {
                assert(text::texts(v@) =~= text::texts(was).push(ps@[i as int]@));
            }
        }
        i += 1;
    }
    proof {
        assert(all.subrange(0, all.len() as int) =~= all);
    }
    v
}

/// The name a path ends in, if it ends in one.
pub open spec fn file_name(p: Seq<char>) -> Option<Seq<char>> {
    let n = names(p);
    if n.len() == 0 || n.last() == ".."@ {
        None
    } else {
        Some(n.last())
    }
}

/// The name a path ends in, if it ends in one.
pub fn file_name_of(p: &str) -> (r: Option<String>)
    ensures
        text::opt_text(r) == file_name(p@),
{
    let v = names_of(p);
    let n = v.len();
    proof {
        assert(text::texts(v@).len() == n);
        if n > 0 {
            assert(text::texts(v@)[n - 1] == v@[n - 1]@);
        }
    }
    if n == 0 || str_eq(v[n - 1].as_str(), "..") {
        None
    } else {
        Some(v[n - 1].clone())
    }
}

/// Rejects a path that no system call can take, with the error `msg`.
pub fn without_nul(p: &str, msg: &str) -> (r: Result<(), Error>)
    ensures
        match r {
            Ok(()) => text::nul_free(p@),
            Err(e) => !text::nul_free(p@) && e@ == msg@,
        },
{
    if contains_char(p, '\0') {
        Err(Error::new(owned(msg)))
    } else {
        Ok(())
    }
}

/// The names of a path are the pieces between its slashes, in their order, but for empty ones and
/// `.`.
pub proof fn law_names_of_path(p: Seq<char>)
    ensures
        names(p) == text::pieces(p, '/').filter(|n: Seq<char>| n.len() > 0 && n != "."@),
{
    lemma_names_filtered(text::pieces(p, '/'));
}

/// The names among pieces are those that pass.
proof fn lemma_names_filtered(ps: Seq<Seq<char>>)
    ensures
        names_among(ps) == ps.filter(|n: Seq<char>| n.len() > 0 && n != "."@),
    decreases ps.len(),
{
    reveal(Seq::filter);
    if ps.len() > 0 {
        lemma_names_filtered(ps.drop_last());
    }
}

/// The names among pieces one behind the other.
proof fn lemma_names_sum(a: Seq<Seq<char>>, b: Seq<Seq<char>>)
    ensures
        names_among(a + b) == names_among(a) + names_among(b),
    decreases b.len(),
{
    if b.len() == 0 {
        assert(a + b =~= a);
        assert(names_among(a) + names_among(b) =~= names_among(a));
    } else {
        lemma_names_sum(a, b.drop_last());
        assert((a + b).drop_last() =~= a + b.drop_last());
        assert((a + b).last() == b.last());
        assert(names_among(a + b) =~= names_among(a) + names_among(b));
    }
}

/// The pieces of a text behind another that ends with the separator.
proof fn lemma_pieces_sum(a: Seq<char>, b: Seq<char>, sep: char)
    ensures
        text::pieces(a.push(sep) + b, sep) == text::pieces(a, sep) + text::pieces(b, sep),
    decreases b.len(),
{
    let p = text::pieces(a, sep);
    text::lemma_pieces_nonempty(b, sep);
    if b.len() == 0 {
        assert(a.push(sep) + b =~= a.push(sep));
        assert(a.push(sep).drop_last() =~= a);
        assert(p.push(Seq::empty()) =~= p + seq![Seq::<char>::empty()]);
    } else {
        let h = b.drop_last();
        lemma_pieces_sum(a, h, sep);
        text::lemma_pieces_nonempty(h, sep);
        assert((a.push(sep) + b).drop_last() =~= a.push(sep) + h);
        assert((a.push(sep) + b).last() == b.last());
        let q = text::pieces(h, sep);
        assert((p + q).last() == q.last());
        if b.last() == sep {
            assert((p + q).push(Seq::empty()) =~= p + q.push(Seq::empty()));
        } else {
            let end = q.last().push(b.last());
            assert((p + q).update((p + q).len() - 1, end) =~= p + q.update(q.len() - 1, end));
        }
    }
}

/// A path joined to another leads through the names of the one and then of the other; an absolute
/// path is left as it is.
pub proof fn law_joined_names(base: Seq<char>, rel: Seq<char>)
    ensures
        absolute(rel) ==> joined(base, rel) == rel,
        !absolute(rel) ==> names(joined(base, rel)) == names(base) + names(rel),
        !absolute(rel) && base.len() > 0 ==> absolute(joined(base, rel)) == absolute(base),
{
    reveal_strlit(".");
    if !absolute(rel) {
        if base.len() == 0 {
            reveal_with_fuel(names_among, 2);
            assert(text::pieces(base, '/') == seq![Seq::<char>::empty()]);
            assert(seq![Seq::<char>::empty()].drop_last() =~= Seq::<Seq<char>>::empty());
            assert(seq![Seq::<char>::empty()].last().len() == 0);
            assert(names(base) =~= Seq::empty());
            assert(names(base) + names(rel) =~= names(rel));
        } else if base.last() == '/' {
            let b = base.drop_last();
            assert(b.push('/') =~= base);
            lemma_pieces_sum(b, rel, '/');
            lemma_names_sum(text::pieces(b, '/'), text::pieces(rel, '/'));
            let ps = text::pieces(base, '/');
            assert(ps.drop_last() =~= text::pieces(b, '/'));
        } else {
            lemma_pieces_sum(base, rel, '/');
            lemma_names_sum(text::pieces(base, '/'), text::pieces(rel, '/'));
        }
    }
}

/// The last name of a path is its file name, unless that is `..` or there is none.
pub proof fn law_file_name(base: Seq<char>, name: Seq<char>)
    requires
        base.len() > 0,
        name.len() > 0,
        name != "."@,
        name != ".."@,
        !text::has_char(name, '/'),
    ensures
        file_name(joined(base, name)) == Some(name),
{
    assert(name[0] != '/');
    law_joined_names(base, name);
    text::lemma_one_piece(name, '/');
    reveal_with_fuel(names_among, 2);
    assert(seq![name].drop_last() =~= Seq::<Seq<char>>::empty());
    assert(seq![name].last() == name);
    assert(names(name) =~= seq![name]);
}

/// A slash in front adds no name.
pub proof fn lemma_leading_slash(rest: Seq<char>)
    ensures
        names(seq!['/'] + rest) == names(rest),
{
    let none = Seq::<char>::empty();
    assert(none.push('/') + rest =~= seq!['/'] + rest);
    lemma_pieces_sum(none, rest, '/');
    lemma_names_sum(text::pieces(none, '/'), text::pieces(rest, '/'));
    reveal_with_fuel(names_among, 2);
    assert(text::pieces(none, '/') == seq![Seq::<char>::empty()]);
    assert(seq![Seq::<char>::empty()].drop_last() =~= Seq::<Seq<char>>::empty());
    assert(seq![Seq::<char>::empty()].last().len() == 0);
    assert(names(none) =~= Seq::empty());
    assert(names(none) + names(rest) =~= names(rest));
}

/// The names of a path that is one name.
pub proof fn lemma_one_name(name: Seq<char>)
    requires
        name.len() > 0,
        name != "."@,
        !text::has_char(name, '/'),
    ensures
        names(name) == seq![name],
{
    text::lemma_one_piece(name, '/');
    reveal_with_fuel(names_among, 2);
    assert(seq![name].drop_last() =~= Seq::<Seq<char>>::empty());
    assert(seq![name].last() == name);
    assert(names(name) =~= seq![name]);
}

} // verus!
