use vstd::prelude::*;

verus! {

/// A typed decode failure. Decoding is all-or-nothing: no partial container
/// is ever produced alongside one of these.
#[derive(Clone, Copy, Debug, PartialEq, Eq, Structural)]
pub enum FormatError {
    /// The buffer is shorter than eight bytes or does not begin with the
    /// magic tag `".opd"`.
    BadMagic,
    /// The metadata makes no sense: an unsupported `precision`, no centroid
    /// or point count, a frame offset that points before the frame-data
    /// origin, or a frame offset table that is not ascending.
    InvalidHeader,
    /// The buffer ends before a required fixed-size region completes.
    Truncated,
    /// A frame's byte offset, after subtracting the centroid block, is not
    /// evenly divisible by `precision`.
    MisalignedOffset { frame: usize, offset: usize },
    /// A frame's sample count is not a positive multiple of three.
    InvalidFrameLength { samples: usize },
    /// The bytes after the last frame's offset are not a whole number of
    /// `precision`-wide sample triplets; `extra` is the leftover byte count.
    TrailingBytes { extra: usize },
}

} // verus!
