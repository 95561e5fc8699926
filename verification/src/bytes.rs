//! Small operations on byte strings.
use vstd::prelude::*;

verus! {

/// Whether two byte strings are equal, byte for byte.
pub fn bytes_equal(a: &[u8], b: &[u8]) -> (equal: bool)
    ensures
        equal == (a@ == b@),
{
    if a.len() != b.len() {
        return false;
    }
    let mut i: usize = 0;
    while i < a.len()
        invariant
            a.len() == b.len(),
            i <= a.len(),
            forall|k: int| 0 <= k < i ==> a@[k] == b@[k],
        decreases a.len() - i,
    {
        if a[i] != b[i] {
            return false;
        }
        i = i + 1;
    }
    assert(a@ =~= b@);
    true
}

/// Appends the bytes of `chunk` to `target`, in order.
pub fn append_bytes(target: &mut Vec<u8>, chunk: &[u8])
    ensures
        final(target)@ == old(target)@ + chunk@,
{
    let ghost before = target@;
    let mut i: usize = 0;
    while i < chunk.len()
        invariant
            i <= chunk.len(),
            target@ == before + chunk@.subrange(0, i as int),
        decreases chunk.len() - i,
    {
        target.push(chunk[i]);
        assert(chunk@.subrange(0, i as int).push(chunk@[i as int]) =~= chunk@.subrange(
            0,
            i + 1,
        ));
        i = i + 1;
    }
    assert(chunk@.subrange(0, chunk@.len() as int) =~= chunk@);
}

/// A fresh vector with the bytes of `source`.
pub fn copy_bytes(source: &[u8]) -> (copy: Vec<u8>)
    ensures
        copy@ == source@,
{
    let mut copy: Vec<u8> = Vec::new();
    append_bytes(&mut copy, source);
    assert(Seq::<u8>::empty() + source@ =~= source@);
    copy
}

} // verus!
