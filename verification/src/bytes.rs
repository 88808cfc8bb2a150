//! Lists of bytes.

use vstd::prelude::*;

verus! {

/// A copy of some bytes.
pub fn copy_bytes(b: &Vec<u8>) -> (c: Vec<u8>)
    ensures
        c@ == b@,
{
    let mut c: Vec<u8> = Vec::new();
    let mut i: usize = 0;
    while i < b.len()
        invariant
            i <= b.len(),
            c@ == b@.take(i as int),
        decreases b.len() - i,
    {
        c.push(b[i]);
        i += 1;
        proof {
            assert(c@ =~= b@.take(i as int));
        }
    }
    proof {
        assert(b@.take(b@.len() as int) =~= b@);
    }
    c
}

/// Adds bytes.
pub fn push_bytes(v: &mut Vec<u8>, b: &Vec<u8>)
    ensures
        final(v)@ == old(v)@ + b@,
{
    let ghost was = v@;
    let mut i: usize = 0;
    proof {
        assert(v@ =~= was + b@.take(0));
    }
    while i < b.len()
        invariant
            i <= b@.len(),
            v@ == was + b@.take(i as int),
        decreases b@.len() - i,
    {
        v.push(b[i]);
        i += 1;
        proof {
            assert(v@ =~= was + b@.take(i as int));
        }
    }
    proof {
        assert(b@.take(b@.len() as int) =~= b@);
    }
}

} // verus!
