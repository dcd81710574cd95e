//! Building blocks for vectors that several stages share.

use vstd::prelude::*;
use crate::fixed::ints;

verus! {

/// Copies `source[from..from + len]` into a new vector.
pub fn copy_range<T: Copy>(source: &Vec<T>, from: usize, len: usize) -> (part: Vec<T>)
    requires
        from + len <= source.len(),
    ensures
        part@ == source@.subrange(from as int, from + len),
{
    let mut part: Vec<T> = Vec::new();
    let mut i: usize = 0;
    while i < len
        invariant
            i <= len,
            from + len <= source.len(),
            part.len() == i,
            forall|j: int| 0 <= j < i ==> part[j] == source[from + j],
        decreases len - i,
    {
        part.push(source[from + i]);
        i += 1;
    }
    assert(part@ =~= source@.subrange(from as int, from + len));
    part
}

/// Copies a whole vector.
pub fn copy_of<T: Copy>(source: &Vec<T>) -> (copy: Vec<T>)
    ensures
        copy@ == source@,
{
    let copy = copy_range(source, 0, source.len());
    assert(copy@ =~= source@);
    copy
}

/// A vector of `len` zeros.
pub fn zeros(len: usize) -> (row: Vec<u64>)
    ensures
        row.len() == len,
        ints(row@) == Seq::new(len as nat, |i: int| 0int),
{
    let mut row: Vec<u64> = Vec::new();
    let mut i: usize = 0;
    while i < len
        invariant
            i <= len,
            row.len() == i,
            forall|j: int| 0 <= j < i ==> row[j] == 0,
        decreases len - i,
    {
        row.push(0);
        i += 1;
    }
    assert(ints(row@) =~= Seq::new(len as nat, |i: int| 0int));
    row
}

} // verus!
