use vstd::prelude::*;

use crate::bytes::be_uint;
use crate::bytes::read_be_u32;
use crate::centroid::centroid_ok;
use crate::centroid::parse_centroids;
use crate::centroid::Centroid;
use crate::errors::FormatError;
use crate::frames::frames_ok;
use crate::frames::parse_frame;
use crate::frames::Frames;
use crate::header::valid_precision;
use crate::header::OpdHeader;
use crate::plan::lemma_plan_in_bounds;
use crate::plan::plan_err;
use crate::plan::plan_frames;
use crate::plan::plan_spans;

verus! {

/// The fully decoded container: the header the caller parsed from the JSON
/// text, the complete centroid list in input order, and the frame streams.
/// Built in one all-or-nothing decode pass and never mutated afterwards.
#[derive(Clone, Debug, PartialEq, Eq)]
pub struct OpdFile {
    pub header: OpdHeader,
    pub centroids: Vec<Centroid>,
    pub frames: Frames,
}

/// A buffer opens correctly when it has at least the magic tag and the
/// length prefix, and the first four bytes are the literal `".opd"`.
pub open spec fn magic_ok(s: Seq<u8>) -> bool {
    &&& s.len() >= 8
    &&& s[0] == 0x2eu8
    &&& s[1] == 0x6fu8
    &&& s[2] == 0x70u8
    &&& s[3] == 0x64u8
}

/// The byte length of the JSON header text, stored big-endian at offset 4.
pub open spec fn header_len(s: Seq<u8>) -> int {
    be_uint(s, 4, 4)
}

/// Where the binary payload begins: just past the JSON header text.
pub open spec fn body_start(s: Seq<u8>) -> int {
    8 + header_len(s)
}

/// The bounds of the JSON header text within the container buffer.
#[derive(Clone, Copy, Debug, PartialEq, Eq, Structural)]
pub struct HeaderSpan {
    pub json_start: usize,
    pub json_end: usize,
}

/// Checks the magic tag and the length prefix and locates the JSON header
/// text: the caller deserializes `input[json_start..json_end]` into an
/// [`OpdHeader`] and hands that back to [`parse`] for the rest of the
/// decode.
pub fn header_span(input: &[u8]) -> (r: Result<HeaderSpan, FormatError>)
    ensures
        match r {
            Ok(h) => {
                &&& magic_ok(input@)
                &&& h.json_start == 8
                &&& h.json_end == body_start(input@)
                &&& h.json_end <= input@.len()
            },
            Err(e) => {
                &&& (e == FormatError::BadMagic <==> !magic_ok(input@))
                &&& (e == FormatError::Truncated <==> magic_ok(input@) && body_start(input@)
                    > input@.len())
                &&& (e == FormatError::BadMagic || e == FormatError::Truncated)
            },
        },
{
    let len = input.len();
    if len < 8 {
        return Err(FormatError::BadMagic);
    }
    if !(input[0] == 0x2e && input[1] == 0x6f && input[2] == 0x70 && input[3] == 0x64) {
        return Err(FormatError::BadMagic);
    }
    let l = read_be_u32(input, 4);
    if (l as u64) > (len as u64) - 8 {
        return Err(FormatError::Truncated);
    }
    Ok(HeaderSpan { json_start: 8, json_end: 8 + (l as usize) })
}

/// The first fault that decoding `s` against the caller-parsed header `h`
/// reports, in the order the decoder checks: the magic tag and the header
/// frame, then the header's own fields, then the centroid block, then the
/// frame plan. `None` means the decode succeeds.
pub open spec fn parse_err(s: Seq<u8>, h: OpdHeader) -> Option<FormatError> {
    if !magic_ok(s) {
        Some(FormatError::BadMagic)
    } else if body_start(s) > s.len() {
        Some(FormatError::Truncated)
    } else if !valid_precision(h.directive.precision) {
        Some(FormatError::InvalidHeader)
    } else if h.directive.centroid_count_spec() is None {
        Some(FormatError::InvalidHeader)
    } else {
        let count = h.directive.centroid_count_spec().unwrap();
        if body_start(s) + 16 * count > s.len() {
            Some(FormatError::Truncated)
        } else {
            plan_err(
                h.directive.frames@,
                16 * count,
                h.directive.precision as int,
                s.len() - body_start(s) - 16 * count,
            )
        }
    }
}

/// What a successful decode of `s` against header `h` returns: the header
/// itself, `count` centroids decoded field by field from the bytes after
/// the JSON text, the frame streams decoded per plan, and the number of
/// unconsumed trailing bytes (zero unless the frame table is empty, in
/// which case everything after the centroid block is left unread).
pub open spec fn parse_ok(s: Seq<u8>, h: OpdHeader, file: OpdFile, trailing: int) -> bool {
    let count = h.directive.centroid_count_spec().unwrap();
    let b0 = body_start(s);
    let base = b0 + 16 * count;
    let body_len = s.len() - base;
    let spans = plan_spans(h.directive.frames@, 16 * count, h.directive.precision as int, body_len);
    &&& parse_err(s, h) is None
    &&& file.header == h
    &&& file.centroids@.len() == count
    &&& forall|i: int| 0 <= i < count ==> centroid_ok(s, b0 + 16 * i, #[trigger] file.centroids@[i])
    &&& frames_ok(s, base, h.directive.precision as int, h.directive.frames@, spans, file.frames)
    &&& trailing == if h.directive.frames@.len() == 0 {
        body_len
    } else {
        0
    }
}

/// The top-level decode: one pass over the whole buffer against the header
/// the caller parsed from the buffer's own JSON text. All-or-nothing: on
/// any fault the typed error comes back and no partial container does.
pub fn parse(input: &[u8], header: OpdHeader) -> (r: Result<(OpdFile, usize), FormatError>)
    ensures
        match r {
            Ok(out) => parse_ok(input@, header, out.0, out.1 as int),
            Err(e) => parse_err(input@, header) == Some(e),
        },
{
    let len = input.len();
    let hs = match header_span(input) {
        Ok(h) => h,
        Err(e) => {
            return Err(e);
        },
    };
    let b0 = hs.json_end;
    if !header.directive.has_valid_precision() {
        return Err(FormatError::InvalidHeader);
    }
    let p = header.directive.precision;
    let count = match header.directive.centroid_count() {
        Some(c) => c,
        None => {
            return Err(FormatError::InvalidHeader);
        },
    };
    let centroids = match parse_centroids(input, b0, count) {
        Ok(cs) => cs,
        Err(e) => {
            return Err(e);
        },
    };
    let base = b0 + 16 * count;
    let body_len = len - base;
    let spans = match plan_frames(&header.directive.frames, 16 * count, p, body_len) {
        Ok(sp) => sp,
        Err(e) => {
            return Err(e);
        },
    };
    proof {
        if header.directive.frames@.len() > 0 {
            lemma_plan_in_bounds(
                header.directive.frames@,
                16 * count as int,
                p as int,
                body_len as int,
                spans@,
            );
        }
    }
    let frames = parse_frame(input, base, p, &header.directive.frames, &spans);
    let trailing: usize = if header.directive.frames.len() == 0 {
        body_len
    } else {
        0
    };
    proof {
        assert(spans@ =~= plan_spans(
            header.directive.frames@,
            16 * count as int,
            p as int,
            body_len as int,
        ));
    }
    Ok((OpdFile { header, centroids, frames }, trailing))
}

} // verus!
