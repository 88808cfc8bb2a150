//! What copying a layer comes to: the tree of files that the steps of a copy leave, where each step
//! does what its name says.

use vstd::prelude::*;

use crate::diff::FileKind;
use crate::snapshot;
use crate::snapshot::CopyOp;

verus! {

/// A tree of files: names, kinds and contents.
pub enum Tree {
    /// A directory, entry by entry.
    Dir(Seq<(Seq<char>, Tree)>),
    /// A file of another kind, with its content, its target or its device number.
    Leaf(FileKind, Seq<u8>),
}

/// What kind of file stands at the top of a tree.
pub open spec fn kind_of(t: Tree) -> FileKind {
    match t {
        Tree::Dir(_) => FileKind::Directory,
        Tree::Leaf(k, _) => k,
    }
}

/// What a file that is no directory holds.
pub open spec fn data_of(t: Tree) -> Seq<u8> {
    match t {
        Tree::Dir(_) => Seq::empty(),
        Tree::Leaf(_, d) => d,
    }
}

/// What stands at the destination after one step of copying `t`, where `inside` is what becomes of
/// the entries of a directory and `made` is what stood there before.
pub open spec fn after_step(
    op: CopyOp,
    t: Tree,
    inside: Seq<(Seq<char>, Tree)>,
    made: Option<Tree>,
) -> Option<Tree> {
    match op {
        CopyOp::MakeDir => Some(Tree::Dir(Seq::empty())),
        CopyOp::Descend => Some(Tree::Dir(inside)),
        CopyOp::CopyFile => Some(Tree::Leaf(FileKind::File, data_of(t))),
        CopyOp::MakeLink => Some(Tree::Leaf(FileKind::Symlink, data_of(t))),
        CopyOp::MakeFifo => Some(Tree::Leaf(FileKind::Fifo, Seq::empty())),
        CopyOp::MakeNode => Some(Tree::Leaf(kind_of(t), data_of(t))),
        CopyOp::SetMode => made,
        CopyOp::SetOwner => made,
        CopyOp::CopyAttributes => made,
    }
}

/// What stands at the destination after several steps, where nothing stood before.
pub open spec fn after_steps(ops: Seq<CopyOp>, t: Tree, inside: Seq<(Seq<char>, Tree)>) -> Option<Tree>
    decreases ops.len(),
{
    if ops.len() == 0 {
        None
    } else {
        after_step(ops.last(), t, inside, after_steps(ops.drop_last(), t, inside))
    }
}

/// The copy of a tree, if anything is made of it.
pub open spec fn copied(t: Tree) -> Option<Tree>
    decreases t,
{
    after_steps(
        snapshot::copy_ops(kind_of(t)),
        t,
        match t {
            Tree::Dir(es) => copied_entries(es),
            Tree::Leaf(_, _) => Seq::empty(),
        },
    )
}

/// The copies of the entries of a directory.
pub open spec fn copied_entries(es: Seq<(Seq<char>, Tree)>) -> Seq<(Seq<char>, Tree)>
    decreases es,
{
    if es.len() == 0 {
        Seq::empty()
    } else {
        match copied(es.last().1) {
            Some(c) => copied_entries(es.drop_last()).push((es.last().0, c)),
            None => copied_entries(es.drop_last()),
        }
    }
}

/// Whether all of a tree can be copied: it holds no socket and nothing unknown, and a pipe holds
/// nothing.
pub open spec fn copyable(t: Tree) -> bool
    decreases t,
{
    match t {
        Tree::Dir(es) => forall|i: int| 0 <= i < es.len() ==> copyable((#[trigger] es[i]).1),
        Tree::Leaf(k, d) => {
            &&& k != FileKind::Directory && k != FileKind::Socket && k != FileKind::Other
            &&& k == FileKind::Fifo ==> d.len() == 0
        },
    }
}

/// The steps for a file that is no directory make one of its kind that holds the same.
proof fn lemma_leaf(k: FileKind, d: Seq<u8>)
    requires
        copyable(Tree::Leaf(k, d)),
    ensures
        copied(Tree::Leaf(k, d)) == Some(Tree::Leaf(k, d)),
{
    reveal_with_fuel(after_steps, 5);
    let t = Tree::Leaf(k, d);
    let ops = snapshot::copy_ops(k);
    let none = Seq::<(Seq<char>, Tree)>::empty();
    if k == FileKind::Symlink {
        assert(ops.drop_last() =~= seq![ops[0], ops[1]]);
        assert(ops.drop_last().drop_last() =~= seq![ops[0]]);
        assert(ops.drop_last().drop_last().drop_last() =~= Seq::<CopyOp>::empty());
    } else {
        assert(ops.drop_last() =~= seq![ops[0], ops[1], ops[2]]);
        assert(ops.drop_last().drop_last() =~= seq![ops[0], ops[1]]);
        assert(ops.drop_last().drop_last().drop_last() =~= seq![ops[0]]);
        assert(ops.drop_last().drop_last().drop_last().drop_last() =~= Seq::<CopyOp>::empty());
    }
    if k == FileKind::Fifo {
        assert(d =~= Seq::<u8>::empty());
    }
    assert(copied(t) == after_steps(ops, t, none));
}

/// The steps for a directory make one with the copies of the entries.
proof fn lemma_dir(es: Seq<(Seq<char>, Tree)>)
    ensures
        copied(Tree::Dir(es)) == Some(Tree::Dir(copied_entries(es))),
{
    reveal_with_fuel(after_steps, 6);
    let ops = snapshot::copy_ops(FileKind::Directory);
    assert(ops.drop_last() =~= seq![ops[0], ops[1], ops[2], ops[3]]);
    assert(ops.drop_last().drop_last() =~= seq![ops[0], ops[1], ops[2]]);
    assert(ops.drop_last().drop_last().drop_last() =~= seq![ops[0], ops[1]]);
}

/// A tree without sockets is copied whole: the copy has the same names, kinds and contents.
pub proof fn law_copy_is_whole(t: Tree)
    requires
        copyable(t),
    ensures
        copied(t) == Some(t),
    decreases t,
{
    match t {
        Tree::Dir(es) => {
            lemma_dir(es);
            lemma_entries(es);
        },
        Tree::Leaf(k, d) => {
            lemma_leaf(k, d);
        },
    }
}

/// So are the entries of a directory.
proof fn lemma_entries(es: Seq<(Seq<char>, Tree)>)
    requires
        forall|i: int| 0 <= i < es.len() ==> copyable((#[trigger] es[i]).1),
    ensures
        copied_entries(es) == es,
    decreases es,
{
    if es.len() > 0 {
        let h = es.drop_last();
        assert forall|i: int| 0 <= i < h.len() implies copyable((#[trigger] h[i]).1) by {
            assert(h[i] == es[i]);
        }
        lemma_entries(h);
        assert(copyable(es[es.len() - 1].1));
        law_copy_is_whole(es.last().1);
        assert(copied_entries(es) =~= h.push(es.last()));
        assert(h.push(es.last()) =~= es);
    } else {
        assert(copied_entries(es) =~= es);
    }
}

/// What the places hold after the tree at `src` was copied to `dst`; none where it is refused.
pub open spec fn after_copy(places: Map<Seq<char>, Tree>, src: Seq<char>, dst: Seq<char>) -> Option<
    Map<Seq<char>, Tree>,
> {
    if places.dom().contains(dst) || !places.dom().contains(src) {
        None
    } else {
        match copied(places[src]) {
            Some(c) => Some(places.insert(dst, c)),
            None => None,
        }
    }
}

/// A copy is refused where something is. Else the source stays as it is, and two copies of it are
/// independent: what is written to one changes neither the source nor the other.
pub proof fn law_copies_independent(
    places: Map<Seq<char>, Tree>,
    src: Seq<char>,
    a: Seq<char>,
    b: Seq<char>,
    written: Tree,
)
    requires
        places.dom().contains(src),
        copyable(places[src]),
        !places.dom().contains(a),
        !places.dom().contains(b),
        a != b,
    ensures
        after_copy(places, src, src) is None,
        after_copy(places, src, a) is Some,
        ({
            let one = after_copy(places, src, a)->Some_0;
            let two = after_copy(one, src, b);
            &&& two is Some
            &&& two->Some_0[a] == places[src]
            &&& two->Some_0[b] == places[src]
            &&& two->Some_0[src] == places[src]
            &&& after_copy(two->Some_0, src, a) is None
            &&& two->Some_0.insert(a, written)[src] == places[src]
            &&& two->Some_0.insert(a, written)[b] == places[src]
        }),
{
    law_copy_is_whole(places[src]);
}

/// What is left out of a copy: sockets and what is unknown, and nothing else; every other entry of a
/// directory keeps its name, in the same order.
pub proof fn law_left_out(es: Seq<(Seq<char>, Tree)>)
    ensures
        forall|k: FileKind, d: Seq<u8>|
            k != FileKind::Directory ==> (#[trigger] copied(Tree::Leaf(k, d)) is None <==> k
                == FileKind::Socket || k == FileKind::Other),
        copied(Tree::Dir(es)) is Some,
        (forall|i: int| 0 <= i < es.len() ==> copied((#[trigger] es[i]).1) is Some) ==> {
            &&& copied_entries(es).len() == es.len()
            &&& forall|i: int|
                0 <= i < es.len() ==> (#[trigger] copied_entries(es)[i]) == (
                    es[i].0,
                    copied(es[i].1)->Some_0,
                )
        },
    decreases es.len(),
{
    lemma_dir(es);
    assert forall|k: FileKind, d: Seq<u8>| k != FileKind::Directory implies (#[trigger] copied(
        Tree::Leaf(k, d),
    ) is None <==> k == FileKind::Socket || k == FileKind::Other) by {
        let t = Tree::Leaf(k, d);
        let ops = snapshot::copy_ops(k);
        if k == FileKind::Socket || k == FileKind::Other {
            assert(ops.len() == 0);
        } else {
            reveal_with_fuel(after_steps, 5);
            if k == FileKind::Symlink {
                assert(ops.drop_last() =~= seq![ops[0], ops[1]]);
                assert(ops.drop_last().drop_last() =~= seq![ops[0]]);
            } else {
                assert(ops.drop_last() =~= seq![ops[0], ops[1], ops[2]]);
                assert(ops.drop_last().drop_last() =~= seq![ops[0], ops[1]]);
                assert(ops.drop_last().drop_last().drop_last() =~= seq![ops[0]]);
            }
        }
    }
    if es.len() > 0 && (forall|i: int| 0 <= i < es.len() ==> copied((#[trigger] es[i]).1) is Some) {
        let h = es.drop_last();
        law_left_out(h);
        assert forall|i: int| 0 <= i < h.len() implies copied((#[trigger] h[i]).1) is Some by {
            assert(h[i] == es[i]);
        }
        assert(es.last() == es[es.len() - 1]);
        assert forall|i: int| 0 <= i < es.len() implies (#[trigger] copied_entries(es)[i]) == (
            es[i].0,
            copied(es[i].1)->Some_0,
        ) by {
            if i < h.len() {
                assert(copied_entries(es)[i] == copied_entries(h)[i]);
                assert(h[i] == es[i]);
            }
        }
    }
}

} // verus!
