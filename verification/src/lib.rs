//! Decoder for the OPD container format: an animated point/centroid dataset
//! stored as a four-byte magic tag, a length-prefixed JSON metadata header,
//! a run of fixed-size centroid records, and a stream of quantized,
//! fixed-width, big-endian sample triplets laid out by the header's
//! per-frame byte-offset table.
//!
//! Everything after the JSON text is decoded and validated here; turning the
//! JSON bytes into an [`OpdHeader`] value is left to the caller, who hands
//! the parsed header back to [`parse`].

mod bytes;
mod centroid;
mod container;
mod encode;
mod errors;
mod frames;
mod header;
mod iter;
mod plan;
mod roundtrip;

pub use bytes::{be_uint, be_sint, lemma_be_sint_range, pow256, read_be_uint};
pub use centroid::{centroid_ok, parse_centroid, parse_centroids, Centroid};
pub use container::{
    body_start, header_len, header_span, magic_ok, parse, parse_err, parse_ok, HeaderSpan, OpdFile,
};
pub use encode::{
    be_bytes, be_sbytes, cum_samples, encode_centroid, encode_centroids, encode_samples,
    flat_samples, lemma_be_sint_of_be_sbytes, lemma_be_uint_of_be_bytes,
    lemma_centroid_round_trip,
};
pub use errors::FormatError;
pub use frames::{frame_ok, frames_ok, frames_seq_ok, parse_frame, sample_at, Frame, Frames};
pub use iter::{norm_denominator, FrameIterator};
pub use roundtrip::{
    encode_file, file_wf, flat_of_frames, frame_seq_content_eq, frames_content_eq, frames_wf,
    lemma_parse_ok_unique, lemma_round_trip, magic_bytes, samples_in_range, total_of_frames,
    width_of_frames,
};
pub use plan::{
    entry_err_from, lemma_plan_covers, lemma_plan_in_bounds, pair_err_from, plan_err, plan_frames,
    plan_ok, plan_spans, sample_index, span_count, sum_counts, tail_err, FrameSpan,
};
pub use header::{
    valid_precision, FrameMeta, OpdHeader, OpdHeaderDirective, OpdHeaderDirectiveMeta,
    OpdHeaderDirectiveOrigin,
};
