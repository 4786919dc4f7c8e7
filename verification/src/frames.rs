use vstd::prelude::*;

use crate::bytes::be_sint;
use crate::bytes::read_be_i16;
use crate::bytes::read_be_i32;
use crate::bytes::read_be_i64;
use crate::bytes::read_be_i8;
use crate::header::valid_precision;
use crate::header::FrameMeta;
use crate::plan::FrameSpan;

verus! {

/// One time-stamped run of decoded samples: the timestamp copied from the
/// frame's metadata entry (an IEEE-754 bit pattern, untouched), and the
/// frame's quantized scalars in input order, three per animated point.
#[derive(Clone, Debug, PartialEq, Eq)]
pub struct Frame<T> {
    pub time_bits: u32,
    pub data: Vec<T>,
}

/// The decoded frame list. The sample width is chosen once per container by
/// the header's `precision`, so exactly one variant is ever populated; the
/// samples carry the signed interpretation of the stored big-endian values.
#[derive(Clone, Debug, PartialEq, Eq)]
pub enum Frames {
    I8(Vec<Frame<i8>>),
    I16(Vec<Frame<i16>>),
    I32(Vec<Frame<i32>>),
    I64(Vec<Frame<i64>>),
}

/// The signed value of sample `j` of a frame that starts at sample index
/// `start` of the stream beginning at byte `base`, for sample width `w`.
pub open spec fn sample_at(s: Seq<u8>, base: int, start: int, j: int, w: nat) -> int {
    be_sint(s, base + (start + j) * w, w)
}

/// What one correctly decoded frame holds, for its metadata entry and its
/// planned span, at sample width `w`.
pub open spec fn frame_ok<T>(
    s: Seq<u8>,
    base: int,
    w: nat,
    meta: FrameMeta,
    span: FrameSpan,
    f: Frame<T>,
    value: spec_fn(T) -> int,
) -> bool {
    &&& f.time_bits == meta.time_bits
    &&& f.data@.len() == span.count
    &&& forall|j: int|
        0 <= j < span.count ==> value(#[trigger] f.data@[j]) == sample_at(
            s,
            base,
            span.start as int,
            j,
            w,
        )
}

/// What a correctly decoded frame list holds: one frame per planned span.
pub open spec fn frames_seq_ok<T>(
    s: Seq<u8>,
    base: int,
    w: nat,
    metas: Seq<FrameMeta>,
    spans: Seq<FrameSpan>,
    fs: Seq<Frame<T>>,
    value: spec_fn(T) -> int,
) -> bool {
    &&& fs.len() == metas.len()
    &&& spans.len() == metas.len()
    &&& forall|i: int|
        0 <= i < fs.len() ==> frame_ok(s, base, w, metas[i], spans[i], #[trigger] fs[i], value)
}

/// What the decoded union holds: the variant selected by the container's
/// sample width, with every frame decoded per plan.
pub open spec fn frames_ok(
    s: Seq<u8>,
    base: int,
    p: int,
    metas: Seq<FrameMeta>,
    spans: Seq<FrameSpan>,
    fs: Frames,
) -> bool {
    match fs {
        Frames::I8(v) => p == 1 && frames_seq_ok(s, base, 1, metas, spans, v@, |x: i8| x as int),
        Frames::I16(v) => p == 2 && frames_seq_ok(s, base, 2, metas, spans, v@, |x: i16| x as int),
        Frames::I32(v) => p == 4 && frames_seq_ok(s, base, 4, metas, spans, v@, |x: i32| x as int),
        Frames::I64(v) => p == 8 && frames_seq_ok(s, base, 8, metas, spans, v@, |x: i64| x as int),
    }
}

fn decode_samples_i8(input: &[u8], base: usize, start: usize, count: usize) -> (v: Vec<i8>)
    requires
        base + (start + count) * 1 <= input@.len(),
    ensures
        v@.len() == count,
        forall|j: int|
            0 <= j < count ==> (#[trigger] v@[j]) as int == sample_at(
                input@,
                base as int,
                start as int,
                j,
                1,
            ),
{
    let len = input.len();
    let mut v: Vec<i8> = Vec::new();
    let mut j: usize = 0;
    while j < count
        invariant
            j <= count,
            base + (start + count) * 1 <= len,
            len == input@.len(),
            v@.len() == j,
            forall|t: int|
                0 <= t < j ==> (#[trigger] v@[t]) as int == sample_at(
                    input@,
                    base as int,
                    start as int,
                    t,
                    1,
                ),
        decreases count - j,
    {
        let x = read_be_i8(input, base + (start + j) * 1);
        v.push(x);
        j = j + 1;
    }
    v
}

fn decode_samples_i16(input: &[u8], base: usize, start: usize, count: usize) -> (v: Vec<i16>)
    requires
        base + (start + count) * 2 <= input@.len(),
    ensures
        v@.len() == count,
        forall|j: int|
            0 <= j < count ==> (#[trigger] v@[j]) as int == sample_at(
                input@,
                base as int,
                start as int,
                j,
                2,
            ),
{
    let len = input.len();
    let mut v: Vec<i16> = Vec::new();
    let mut j: usize = 0;
    while j < count
        invariant
            j <= count,
            base + (start + count) * 2 <= len,
            len == input@.len(),
            v@.len() == j,
            forall|t: int|
                0 <= t < j ==> (#[trigger] v@[t]) as int == sample_at(
                    input@,
                    base as int,
                    start as int,
                    t,
                    2,
                ),
        decreases count - j,
    {
        let x = read_be_i16(input, base + (start + j) * 2);
        v.push(x);
        j = j + 1;
    }
    v
}

fn decode_samples_i32(input: &[u8], base: usize, start: usize, count: usize) -> (v: Vec<i32>)
    requires
        base + (start + count) * 4 <= input@.len(),
    ensures
        v@.len() == count,
        forall|j: int|
            0 <= j < count ==> (#[trigger] v@[j]) as int == sample_at(
                input@,
                base as int,
                start as int,
                j,
                4,
            ),
{
    let len = input.len();
    let mut v: Vec<i32> = Vec::new();
    let mut j: usize = 0;
    while j < count
        invariant
            j <= count,
            base + (start + count) * 4 <= len,
            len == input@.len(),
            v@.len() == j,
            forall|t: int|
                0 <= t < j ==> (#[trigger] v@[t]) as int == sample_at(
                    input@,
                    base as int,
                    start as int,
                    t,
                    4,
                ),
        decreases count - j,
    {
        let x = read_be_i32(input, base + (start + j) * 4);
        v.push(x);
        j = j + 1;
    }
    v
}

fn decode_samples_i64(input: &[u8], base: usize, start: usize, count: usize) -> (v: Vec<i64>)
    requires
        base + (start + count) * 8 <= input@.len(),
    ensures
        v@.len() == count,
        forall|j: int|
            0 <= j < count ==> (#[trigger] v@[j]) as int == sample_at(
                input@,
                base as int,
                start as int,
                j,
                8,
            ),
{
    let len = input.len();
    let mut v: Vec<i64> = Vec::new();
    let mut j: usize = 0;
    while j < count
        invariant
            j <= count,
            base + (start + count) * 8 <= len,
            len == input@.len(),
            v@.len() == j,
            forall|t: int|
                0 <= t < j ==> (#[trigger] v@[t]) as int == sample_at(
                    input@,
                    base as int,
                    start as int,
                    t,
                    8,
                ),
        decreases count - j,
    {
        let x = read_be_i64(input, base + (start + j) * 8);
        v.push(x);
        j = j + 1;
    }
    v
}

fn decode_frames_i8(input: &[u8], base: usize, metas: &Vec<FrameMeta>, spans: &Vec<FrameSpan>) -> (fs:
    Vec<Frame<i8>>)
    requires
        metas@.len() == spans@.len(),
        forall|i: int|
            0 <= i < spans@.len() ==> base + ((#[trigger] spans@[i]).start + spans@[i].count) * 1
                <= input@.len(),
    ensures
        frames_seq_ok(input@, base as int, 1, metas@, spans@, fs@, |x: i8| x as int),
{
    let n = metas.len();
    let mut fs: Vec<Frame<i8>> = Vec::new();
    let mut i: usize = 0;
    while i < n
        invariant
            i <= n,
            n == metas@.len(),
            n == spans@.len(),
            forall|k: int|
                0 <= k < n ==> base + ((#[trigger] spans@[k]).start + spans@[k].count) * 1
                    <= input@.len(),
            fs@.len() == i,
            forall|k: int|
                0 <= k < i ==> frame_ok(
                    input@,
                    base as int,
                    1,
                    metas@[k],
                    spans@[k],
                    #[trigger] fs@[k],
                    |x: i8| x as int,
                ),
        decreases n - i,
    {
        let sp = spans[i];
        let data = decode_samples_i8(input, base, sp.start, sp.count);
        fs.push(Frame { time_bits: metas[i].time_bits, data });
        i = i + 1;
    }
    fs
}

fn decode_frames_i16(input: &[u8], base: usize, metas: &Vec<FrameMeta>, spans: &Vec<FrameSpan>) -> (fs:
    Vec<Frame<i16>>)
    requires
        metas@.len() == spans@.len(),
        forall|i: int|
            0 <= i < spans@.len() ==> base + ((#[trigger] spans@[i]).start + spans@[i].count) * 2
                <= input@.len(),
    ensures
        frames_seq_ok(input@, base as int, 2, metas@, spans@, fs@, |x: i16| x as int),
{
    let n = metas.len();
    let mut fs: Vec<Frame<i16>> = Vec::new();
    let mut i: usize = 0;
    while i < n
        invariant
            i <= n,
            n == metas@.len(),
            n == spans@.len(),
            forall|k: int|
                0 <= k < n ==> base + ((#[trigger] spans@[k]).start + spans@[k].count) * 2
                    <= input@.len(),
            fs@.len() == i,
            forall|k: int|
                0 <= k < i ==> frame_ok(
                    input@,
                    base as int,
                    2,
                    metas@[k],
                    spans@[k],
                    #[trigger] fs@[k],
                    |x: i16| x as int,
                ),
        decreases n - i,
    {
        let sp = spans[i];
        let data = decode_samples_i16(input, base, sp.start, sp.count);
        fs.push(Frame { time_bits: metas[i].time_bits, data });
        i = i + 1;
    }
    fs
}

fn decode_frames_i32(input: &[u8], base: usize, metas: &Vec<FrameMeta>, spans: &Vec<FrameSpan>) -> (fs:
    Vec<Frame<i32>>)
    requires
        metas@.len() == spans@.len(),
        forall|i: int|
            0 <= i < spans@.len() ==> base + ((#[trigger] spans@[i]).start + spans@[i].count) * 4
                <= input@.len(),
    ensures
        frames_seq_ok(input@, base as int, 4, metas@, spans@, fs@, |x: i32| x as int),
{
    let n = metas.len();
    let mut fs: Vec<Frame<i32>> = Vec::new();
    let mut i: usize = 0;
    while i < n
        invariant
            i <= n,
            n == metas@.len(),
            n == spans@.len(),
            forall|k: int|
                0 <= k < n ==> base + ((#[trigger] spans@[k]).start + spans@[k].count) * 4
                    <= input@.len(),
            fs@.len() == i,
            forall|k: int|
                0 <= k < i ==> frame_ok(
                    input@,
                    base as int,
                    4,
                    metas@[k],
                    spans@[k],
                    #[trigger] fs@[k],
                    |x: i32| x as int,
                ),
        decreases n - i,
    {
        let sp = spans[i];
        let data = decode_samples_i32(input, base, sp.start, sp.count);
        fs.push(Frame { time_bits: metas[i].time_bits, data });
        i = i + 1;
    }
    fs
}

fn decode_frames_i64(input: &[u8], base: usize, metas: &Vec<FrameMeta>, spans: &Vec<FrameSpan>) -> (fs:
    Vec<Frame<i64>>)
    requires
        metas@.len() == spans@.len(),
        forall|i: int|
            0 <= i < spans@.len() ==> base + ((#[trigger] spans@[i]).start + spans@[i].count) * 8
                <= input@.len(),
    ensures
        frames_seq_ok(input@, base as int, 8, metas@, spans@, fs@, |x: i64| x as int),
{
    let n = metas.len();
    let mut fs: Vec<Frame<i64>> = Vec::new();
    let mut i: usize = 0;
    while i < n
        invariant
            i <= n,
            n == metas@.len(),
            n == spans@.len(),
            forall|k: int|
                0 <= k < n ==> base + ((#[trigger] spans@[k]).start + spans@[k].count) * 8
                    <= input@.len(),
            fs@.len() == i,
            forall|k: int|
                0 <= k < i ==> frame_ok(
                    input@,
                    base as int,
                    8,
                    metas@[k],
                    spans@[k],
                    #[trigger] fs@[k],
                    |x: i64| x as int,
                ),
        decreases n - i,
    {
        let sp = spans[i];
        let data = decode_samples_i64(input, base, sp.start, sp.count);
        fs.push(Frame { time_bits: metas[i].time_bits, data });
        i = i + 1;
    }
    fs
}

/// Decodes every planned frame of the stream that begins at byte `base`,
/// through the one fixed-width big-endian decode path that the container's
/// sample width selects.
pub fn parse_frame(
    input: &[u8],
    base: usize,
    precision: usize,
    metas: &Vec<FrameMeta>,
    spans: &Vec<FrameSpan>,
) -> (r: Frames)
    requires
        valid_precision(precision),
        metas@.len() == spans@.len(),
        forall|i: int|
            0 <= i < spans@.len() ==> base + ((#[trigger] spans@[i]).start + spans@[i].count)
                * precision <= input@.len(),
    ensures
        frames_ok(input@, base as int, precision as int, metas@, spans@, r),
{
    if precision == 1 {
        Frames::I8(decode_frames_i8(input, base, metas, spans))
    } else if precision == 2 {
        Frames::I16(decode_frames_i16(input, base, metas, spans))
    } else if precision == 4 {
        Frames::I32(decode_frames_i32(input, base, metas, spans))
    } else {
        Frames::I64(decode_frames_i64(input, base, metas, spans))
    }
}

} // verus!
