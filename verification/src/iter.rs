use vstd::prelude::*;

use crate::bytes::lemma_pow256_values;
use crate::bytes::pow256;
use crate::errors::FormatError;
use crate::frames::Frame;
use crate::header::valid_precision;

verus! {

/// A restartable walk over a frame's samples in consecutive triplets, one
/// per animated point. It is derived freshly from the immutable frame each
/// time one is requested and holds no state beyond its position, so walking
/// it never disturbs the frame or another walk.
pub struct FrameIterator<'a, T> {
    frame: &'a Frame<T>,
    pos: usize,
}

impl<T: Copy> Frame<T> {
    /// Begins a triplet walk at the frame's first sample. Per the container
    /// rules a frame's sample count must be a multiple of three; a frame
    /// that breaks them is refused here rather than walked partially.
    pub fn iter(&self) -> (r: Result<FrameIterator<T>, FormatError>)
        ensures
            match r {
                Ok(it) => {
                    &&& self.data@.len() % 3 == 0
                    &&& it.data_spec() == self.data@
                    &&& it.pos_spec() == 0
                },
                Err(e) => {
                    &&& self.data@.len() % 3 != 0
                    &&& e == (FormatError::InvalidFrameLength {
                        samples: self.data@.len() as usize,
                    })
                },
            },
    {
        let n = self.data.len();
        if n % 3 != 0 {
            return Err(FormatError::InvalidFrameLength { samples: n });
        }
        Ok(FrameIterator { frame: self, pos: 0 })
    }
}

impl<'a, T: Copy> FrameIterator<'a, T> {
    /// The samples being walked.
    pub closed spec fn data_spec(&self) -> Seq<T> {
        self.frame.data@
    }

    /// How many samples the walk has yielded so far.
    pub closed spec fn pos_spec(&self) -> int {
        self.pos as int
    }

    /// The next three samples as one triplet, or `None` once fewer than
    /// three remain; a `None` leaves the walk where it was.
    pub fn next(&mut self) -> (r: Option<[T; 3]>)
        ensures
            final(self).data_spec() == old(self).data_spec(),
            old(self).pos_spec() + 3 <= old(self).data_spec().len() ==> {
                &&& final(self).pos_spec() == old(self).pos_spec() + 3
                &&& match r {
                    Some(t) => t@ == seq![
                        old(self).data_spec()[old(self).pos_spec()],
                        old(self).data_spec()[old(self).pos_spec() + 1],
                        old(self).data_spec()[old(self).pos_spec() + 2],
                    ],
                    None => false,
                }
            },
            old(self).pos_spec() + 3 > old(self).data_spec().len() ==> {
                &&& r is None
                &&& final(self).pos_spec() == old(self).pos_spec()
            },
    {
        let n = self.frame.data.len();
        if self.pos >= n || n - self.pos < 3 {
            return None;
        }
        let t = [self.frame.data[self.pos], self.frame.data[self.pos + 1], self.frame.data[self.pos
            + 2]];
        proof {
            assert(t@ =~= seq![
                self.frame.data@[self.pos as int],
                self.frame.data@[self.pos as int + 1],
                self.frame.data@[self.pos as int + 2],
            ]);
        }
        self.pos = self.pos + 3;
        Some(t)
    }
}

/// The divisor of the symmetric signed quantization: a raw sample of byte
/// width `precision` maps to the float `raw / (2^(8 * precision - 1) - 1)`,
/// which is `raw / norm_denominator(precision)`, nominally in `[-1, 1]`.
/// The division itself is the caller's, float arithmetic being outside this
/// core; the divisor is the largest positive value of the width, so the
/// width's maximum maps to exactly one.
pub fn norm_denominator(precision: usize) -> (d: u64)
    requires
        valid_precision(precision),
    ensures
        d == pow256(precision as nat) / 2 - 1,
{
    proof {
        lemma_pow256_values();
    }
    if precision == 1 {
        0x7f
    } else if precision == 2 {
        0x7fff
    } else if precision == 4 {
        0x7fff_ffff
    } else {
        0x7fff_ffff_ffff_ffff
    }
}

} // verus!
