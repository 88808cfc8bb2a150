//! Running from a sealed copy of the program, which no process in a container can write to.

use vstd::prelude::*;
use vstd::string::*;
use vstd::utf8::*;

use crate::bytes::push_bytes;
use crate::child_calls::EINTR;
use crate::error::{Error, ErrorKind};
use crate::text::owned;

verus! {

/// An argument is not valid.
pub const EINVAL: i32 = 22;

/// The kernel does not have the call.
pub const ENOSYS: i32 = 38;

/// The variable that tells that the program runs from the copy.
pub open spec fn marker() -> Seq<char> {
    "RSRUN_MEMFD_REEXEC=1"@
}

/// A step on the way to the copy.
#[derive(Debug, Clone, Copy, PartialEq, Eq, Structural)]
pub enum ReexecOp {
    /// Make a file in memory.
    MakeFile,
    /// Copy the program there.
    Copy,
    /// Go back to its start.
    Rewind,
    /// Keep it from changing.
    Seal,
    /// See that the words and the environment can be handed on.
    CheckWords,
    /// Run it.
    Run,
}

/// The steps, in order; none where the program runs from the copy already. Whatever fails, the copy
/// is not run.
pub open spec fn reexec_ops(marked: bool) -> Seq<ReexecOp> {
    if marked {
        Seq::empty()
    } else {
        seq![
            ReexecOp::MakeFile,
            ReexecOp::Copy,
            ReexecOp::Rewind,
            ReexecOp::Seal,
            ReexecOp::CheckWords,
            ReexecOp::Run,
        ]
    }
}

/// Lays out the steps; `marked` tells whether the program runs from the copy already.
pub fn reexec_from_sealed_memfd(marked: bool) -> (v: Vec<ReexecOp>)
    ensures
        v@ == reexec_ops(marked),
{
    if marked {
        let v: Vec<ReexecOp> = Vec::new();
        proof {
            assert(v@ =~= reexec_ops(marked));
        }
        return v;
    }
    let v = vec![
        ReexecOp::MakeFile,
        ReexecOp::Copy,
        ReexecOp::Rewind,
        ReexecOp::Seal,
        ReexecOp::CheckWords,
        ReexecOp::Run,
    ];
    proof {
        assert(v@ =~= reexec_ops(marked));
    }
    v
}

/// The copy is whole and sealed before it is run.
pub proof fn law_sealed_before_run(k: int)
    requires
        0 <= k < reexec_ops(false).len(),
        reexec_ops(false)[k] == ReexecOp::Run,
    ensures
        reexec_ops(false).take(k).contains(ReexecOp::Copy),
        reexec_ops(false).take(k).contains(ReexecOp::Seal),
{
    let s = reexec_ops(false).take(k);
    assert(s[1] == ReexecOp::Copy);
    assert(s[3] == ReexecOp::Seal);
}

/// What follows a call that copies a part of the program.
#[derive(Debug)]
pub enum CopyNext {
    /// The next part, if anything is left.
    More,
    /// Start over, by way of a buffer.
    Buffered,
    /// Fail with the error of the call.
    CallError,
    /// Fail with this error.
    Error(Error),
}

/// Decides what follows a `sendfile` call that returned `n`.
pub fn copy_self_exe_to_memfd(n: i64, errno: i32) -> (c: CopyNext)
    ensures
        match c {
            CopyNext::More => n > 0 || n < 0 && errno == EINTR,
            CopyNext::Buffered => n < 0 && (errno == EINVAL || errno == ENOSYS),
            CopyNext::CallError => n < 0 && errno != EINTR && errno != EINVAL && errno != ENOSYS,
            CopyNext::Error(e) => n == 0 && e@ == "sendfile copied a partial executable"@ && e.kind
                == ErrorKind::UnexpectedEof,
        },
{
    if n > 0 {
        CopyNext::More
    } else if n == 0 {
        CopyNext::Error(
            Error::of_kind(
                ErrorKind::UnexpectedEof,
                owned("sendfile copied a partial executable"),
            ),
        )
    } else if errno == EINTR {
        CopyNext::More
    } else if errno == EINVAL || errno == ENOSYS {
        CopyNext::Buffered
    } else {
        CopyNext::CallError
    }
}

/// Decides what follows a `write` call that returned `n`.
pub fn write_all_raw_fd(n: i64, errno: i32) -> (c: CopyNext)
    ensures
        match c {
            CopyNext::More => n > 0 || n < 0 && errno == EINTR,
            CopyNext::Buffered => false,
            CopyNext::CallError => n < 0 && errno != EINTR,
            CopyNext::Error(e) => n == 0 && e@ == "write returned 0"@ && e.kind
                == ErrorKind::WriteZero,
        },
{
    if n > 0 {
        CopyNext::More
    } else if n == 0 {
        CopyNext::Error(Error::of_kind(ErrorKind::WriteZero, owned("write returned 0")))
    } else if errno == EINTR {
        CopyNext::More
    } else {
        CopyNext::CallError
    }
}

/// Whether bytes hold a zero, at which the kernel would cut them off.
pub open spec fn has_nul(b: Seq<u8>) -> bool {
    exists|i: int| 0 <= i < b.len() && #[trigger] b[i] == 0
}

/// Whether bytes hold a zero.
fn nul_in(b: &Vec<u8>) -> (r: bool)
    ensures
        r == has_nul(b@),
{
    let mut i: usize = 0;
    while i < b.len()
        invariant
            i <= b@.len(),
            forall|k: int| 0 <= k < i ==> #[trigger] b@[k] != 0,
        decreases b@.len() - i,
    {
        if b[i] == 0 {
            return true;
        }
        i += 1;
    }
    false
}

/// Whether the words of the command line can be handed on.
pub fn reexec_words(words: &Vec<Vec<u8>>) -> (r: Result<(), Error>)
    ensures
        match r {
            Ok(_) => forall|i: int| 0 <= i < words@.len() ==> !has_nul((#[trigger] words@[i])@),
            Err(e) => e@ == "argv contains NUL"@ && exists|i: int|
                0 <= i < words@.len() && has_nul((#[trigger] words@[i])@),
        },
{
    let mut i: usize = 0;
    while i < words.len()
        invariant
            i <= words@.len(),
            forall|k: int| 0 <= k < i ==> !has_nul((#[trigger] words@[k])@),
        decreases words@.len() - i,
    {
        if nul_in(&words[i]) {
            return Err(Error::new(owned("argv contains NUL")));
        }
        i += 1;
    }
    Ok(())
}

/// A variable of the environment, as it is handed on.
pub open spec fn variable(key: Seq<u8>, value: Seq<u8>) -> Seq<u8> {
    key + seq![61u8] + value
}

/// The environment that the copy gets: the marker, and all that was there.
pub open spec fn reexec_vars(vars: Seq<(Vec<u8>, Vec<u8>)>) -> Seq<Seq<u8>>
    decreases vars.len(),
{
    if vars.len() == 0 {
        seq![encode_utf8(marker())]
    } else {
        reexec_vars(vars.drop_last()).push(variable(vars.last().0@, vars.last().1@))
    }
}

/// What the variables of a list hold.
pub open spec fn var_views(v: Seq<Vec<u8>>) -> Seq<Seq<u8>> {
    Seq::new(v.len(), |i: int| v[i]@)
}

/// The environment that the copy gets.
pub fn reexec_env(vars: &Vec<(Vec<u8>, Vec<u8>)>) -> (r: Result<Vec<Vec<u8>>, Error>)
    ensures
        match r {
            Ok(v) => var_views(v@) == reexec_vars(vars@) && forall|i: int|
                0 <= i < vars@.len() ==> !has_nul(
                    variable((#[trigger] vars@[i]).0@, vars@[i].1@),
                ),
            Err(e) => e@ == "environment contains NUL"@ && exists|i: int|
                0 <= i < vars@.len() && has_nul(variable((#[trigger] vars@[i]).0@, vars@[i].1@)),
        },
{
    let first = "RSRUN_MEMFD_REEXEC=1".as_bytes_vec();
    let mut v: Vec<Vec<u8>> = Vec::new();
    v.push(first);
    let mut i: usize = 0;
    proof {
        assert(vars@.take(0) =~= Seq::<(Vec<u8>, Vec<u8>)>::empty());
        assert(var_views(v@) =~= seq![encode_utf8(marker())]);
    }
    while i < vars.len()
        invariant
            i <= vars@.len(),
            var_views(v@) == reexec_vars(vars@.take(i as int)),
            forall|k: int|
                0 <= k < i ==> !has_nul(variable((#[trigger] vars@[k]).0@, vars@[k].1@)),
        decreases vars@.len() - i,
    {
        let mut item: Vec<u8> = Vec::new();
        push_bytes(&mut item, &vars[i].0);
        item.push(61);
        push_bytes(&mut item, &vars[i].1);
        proof {
            assert(item@ =~= variable(vars@[i as int].0@, vars@[i as int].1@));
        }
        if nul_in(&item) {
            return Err(Error::new(owned("environment contains NUL")));
        }
        let ghost was = v@;
        v.push(item);
        proof {
            assert(vars@.take(i + 1).drop_last() =~= vars@.take(i as int));
            assert(var_views(v@) =~= var_views(was).push(item@));
        }
        i += 1;
    }
    proof {
        assert(vars@.take(vars@.len() as int) =~= vars@);
    }
    Ok(v)
}

/// The program is run again out of a sealed copy, in this order, and once: a run that is marked does
/// nothing of it.
pub proof fn law_reexec_steps(marked: bool, op: ReexecOp)
    ensures
        marked ==> reexec_ops(marked).len() == 0,
        !marked ==> reexec_ops(marked).contains(op) && reexec_ops(marked).len() == 6
            && reexec_ops(marked)[0] == ReexecOp::MakeFile && reexec_ops(marked)[1]
            == ReexecOp::Copy && reexec_ops(marked)[3] == ReexecOp::Seal
            && reexec_ops(marked).last() == ReexecOp::Run,
{
    let ops = reexec_ops(false);
    assert(ops[0] == ReexecOp::MakeFile && ops[1] == ReexecOp::Copy && ops[2] == ReexecOp::Rewind
        && ops[3] == ReexecOp::Seal && ops[4] == ReexecOp::CheckWords && ops[5] == ReexecOp::Run);
}

/// The environment of the second run: the mark first, and then every variable as it was, in order.
pub proof fn law_reexec_vars(vars: Seq<(Vec<u8>, Vec<u8>)>, i: int)
    requires
        0 <= i < vars.len(),
    ensures
        reexec_vars(vars).len() == vars.len() + 1,
        reexec_vars(vars)[0] == encode_utf8("RSRUN_MEMFD_REEXEC=1"@),
        reexec_vars(vars)[i + 1] == vars[i].0@ + seq![0x3du8] + vars[i].1@,
    decreases vars.len(),
{
    let h = vars.drop_last();
    if h.len() > 0 {
        law_reexec_vars(h, if i < h.len() { i } else { 0 });
        if i < h.len() {
            assert(h[i] == vars[i]);
        }
    } else {
        assert(reexec_vars(h) == seq![encode_utf8(marker())]);
    }
}

} // verus!
