use vstd::prelude::*;

use crate::bytes::be_uint;
use crate::bytes::read_be_u32;
use crate::errors::FormatError;

verus! {

/// One rest-pose anchor of the animated hierarchy. `offset_bits` holds the
/// IEEE-754 bit patterns of the three 32-bit float components of the offset
/// relative to the header's `origin`; the decoder moves them untouched.
#[derive(Clone, Copy, Debug, PartialEq, Eq)]
pub struct Centroid {
    pub parent_id: u32,
    pub offset_bits: [u32; 3],
}

/// What a correctly decoded centroid record holds, given the record's first
/// byte position in the buffer.
pub open spec fn centroid_ok(s: Seq<u8>, off: int, c: Centroid) -> bool {
    &&& c.parent_id == be_uint(s, off, 4)
    &&& c.offset_bits@.len() == 3
    &&& c.offset_bits@[0] == be_uint(s, off + 4, 4)
    &&& c.offset_bits@[1] == be_uint(s, off + 8, 4)
    &&& c.offset_bits@[2] == be_uint(s, off + 12, 4)
}

fn centroid_at(input: &[u8], off: usize) -> (c: Centroid)
    requires
        off + 16 <= input@.len(),
    ensures
        centroid_ok(input@, off as int, c),
{
    let len = input.len();
    proof {
        assert(off + 16 <= len);
    }
    let parent_id = read_be_u32(input, off);
    let x = read_be_u32(input, off + 4);
    let y = read_be_u32(input, off + 8);
    let z = read_be_u32(input, off + 12);
    Centroid { parent_id, offset_bits: [x, y, z] }
}

/// Decodes the single centroid record that starts at `off`, or reports that
/// the buffer ends before the record completes.
pub fn parse_centroid(input: &[u8], off: usize) -> (r: Result<Centroid, FormatError>)
    ensures
        match r {
            Ok(c) => off + 16 <= input@.len() && centroid_ok(input@, off as int, c),
            Err(e) => e == FormatError::Truncated && off + 16 > input@.len(),
        },
{
    let len = input.len();
    if len < 16 || off > len - 16 {
        return Err(FormatError::Truncated);
    }
    Ok(centroid_at(input, off))
}

/// Decodes exactly `count` centroid records, in input order, starting at
/// byte `start`; fails with `Truncated` when fewer than `count * 16` bytes
/// remain there.
pub fn parse_centroids(input: &[u8], start: usize, count: usize) -> (r: Result<
    Vec<Centroid>,
    FormatError,
>)
    ensures
        match r {
            Ok(cs) => {
                &&& start + 16 * count <= input@.len()
                &&& cs@.len() == count
                &&& forall|i: int|
                    0 <= i < count ==> centroid_ok(input@, start + 16 * i, #[trigger] cs@[i])
            },
            Err(e) => e == FormatError::Truncated && start + 16 * count > input@.len(),
        },
{
    let len = input.len();
    if start > len || count > (len - start) / 16 {
        return Err(FormatError::Truncated);
    }
    let mut cs: Vec<Centroid> = Vec::new();
    let mut i: usize = 0;
    while i < count
        invariant
            i <= count,
            start + 16 * count <= len,
            len == input@.len(),
            cs@.len() == i,
            forall|j: int| 0 <= j < i ==> centroid_ok(input@, start + 16 * j, #[trigger] cs@[j]),
        decreases count - i,
    {
        let c = centroid_at(input, start + 16 * i);
        cs.push(c);
        i = i + 1;
    }
    Ok(cs)
}

} // verus!
