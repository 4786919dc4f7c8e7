use vstd::prelude::*;

verus! {

/// One entry of the header's frame table: a timestamp and a byte offset.
/// `time_bits` is the IEEE-754 bit pattern of the 32-bit float timestamp;
/// this decoder copies it through untouched and never does float arithmetic.
/// `offset` is measured from the frame-data origin plus the size of the
/// centroid block (see the planner for the exact arithmetic).
#[derive(Clone, Copy, Debug, PartialEq, Eq, Structural)]
pub struct FrameMeta {
    pub time_bits: u32,
    pub offset: usize,
}

#[derive(Clone, Debug, PartialEq, Eq)]
pub struct OpdHeaderDirectiveMeta {
    pub project_id: String,
    pub project_name: String,
}

/// The reference point for centroid offsets: the IEEE-754 bit patterns of
/// three 64-bit floats, exposed unmodified for the caller to apply.
#[derive(Clone, Copy, Debug, PartialEq, Eq, Structural)]
pub struct OpdHeaderDirectiveOrigin {
    pub x_bits: u64,
    pub y_bits: u64,
    pub z_bits: u64,
}

impl OpdHeaderDirectiveOrigin {
    /// The three bit patterns in x, y, z order.
    pub fn to_bits(&self) -> (r: [u64; 3])
        ensures
            r@ == seq![self.x_bits, self.y_bits, self.z_bits],
    {
        let r = [self.x_bits, self.y_bits, self.z_bits];
        proof {
            assert(r@ =~= seq![self.x_bits, self.y_bits, self.z_bits]);
        }
        r
    }
}

/// The parsed metadata that drives every layout decision of the decoder.
/// `scale_bits` holds the IEEE-754 bit patterns of the three 32-bit float
/// scale components; like `origin` it is handed through uninterpreted.
/// The optional boolean flags are opaque to the decoder: preserved, never
/// interpreted.
#[derive(Clone, Debug, PartialEq, Eq)]
pub struct OpdHeaderDirective {
    pub version: String,
    pub meta: OpdHeaderDirectiveMeta,
    pub num_centroids: Option<usize>,
    pub has_centroid_volumes: Option<bool>,
    pub num_points: Option<usize>,
    pub origin: OpdHeaderDirectiveOrigin,
    pub precision: usize,
    pub scale_bits: [u32; 3],
    pub frames: Vec<FrameMeta>,
    pub index: Option<bool>,
    pub sub_centroids: Option<bool>,
    pub last_frame_corrected: Option<bool>,
}

#[derive(Clone, Debug, PartialEq, Eq)]
pub struct OpdHeader {
    pub version: String,
    pub compressed: Option<String>,
    pub ty: String,
    pub directive: OpdHeaderDirective,
}

/// The four sample byte-widths the format supports.
pub open spec fn valid_precision(p: usize) -> bool {
    p == 1 || p == 2 || p == 4 || p == 8
}

impl OpdHeaderDirective {
    /// The number of centroid records the payload must hold: `numCentroids`
    /// where present, else `numPoints`; `None` when the header names neither.
    pub open spec fn centroid_count_spec(&self) -> Option<usize> {
        if self.num_centroids is Some {
            self.num_centroids
        } else {
            self.num_points
        }
    }

    pub fn centroid_count(&self) -> (r: Option<usize>)
        ensures
            r == self.centroid_count_spec(),
    {
        match self.num_centroids {
            Some(n) => Some(n),
            None => self.num_points,
        }
    }

    pub fn has_valid_precision(&self) -> (r: bool)
        ensures
            r == valid_precision(self.precision),
    {
        self.precision == 1 || self.precision == 2 || self.precision == 4 || self.precision == 8
    }
}

} // verus!
