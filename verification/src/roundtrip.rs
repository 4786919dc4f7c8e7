use vstd::prelude::*;

use vstd::arithmetic::div_mod::lemma_fundamental_div_mod;
use vstd::arithmetic::div_mod::lemma_fundamental_div_mod_converse;
use vstd::arithmetic::div_mod::lemma_mod_multiples_basic;
use vstd::arithmetic::mul::lemma_mul_is_distributive_add;
use vstd::arithmetic::mul::lemma_mul_nonnegative;
use vstd::arithmetic::mul::lemma_mul_strictly_positive;

use crate::bytes::lemma_pow256_values;
use crate::bytes::pow256;
use crate::centroid::centroid_ok;
use crate::container::body_start;
use crate::container::header_len;
use crate::container::magic_ok;
use crate::container::parse_err;
use crate::container::parse_ok;
use crate::container::OpdFile;
use crate::encode::be_bytes;
use crate::encode::be_sbytes;
use crate::encode::encode_centroid;
use crate::encode::encode_centroids;
use crate::encode::lemma_be_bytes_len;
use crate::encode::lemma_be_uint_of_be_bytes;
use crate::encode::cum_samples;
use crate::encode::encode_samples;
use crate::encode::flat_samples;
use crate::encode::lemma_be_sbytes_len;
use crate::encode::lemma_be_sint_of_be_sbytes;
use crate::encode::lemma_cum_samples_monotone;
use crate::encode::lemma_cum_samples_nonneg;
use crate::encode::lemma_cum_samples_step;
use crate::encode::lemma_encode_samples_index;
use crate::encode::lemma_encode_samples_len;
use crate::encode::lemma_flat_samples_index;
use crate::encode::lemma_flat_samples_len;
use crate::frames::frames_seq_ok;
use crate::frames::Frame;
use crate::frames::Frames;
use crate::header::FrameMeta;
use crate::header::OpdHeader;
use crate::plan::entry_err_from;
use crate::plan::pair_err_from;
use crate::plan::plan_err;
use crate::plan::plan_spans;
use crate::plan::sample_index;
use crate::plan::tail_err;
use crate::plan::FrameSpan;

verus! {

/// One frame list agrees with its metadata table: timestamps match, every
/// frame holds a positive whole number of sample triplets, and each entry's
/// byte offset is the centroid block size plus the frame's cumulative
/// sample position times the sample width — exactly what a matching encoder
/// writes into the header.
pub open spec fn frames_wf<T>(metas: Seq<FrameMeta>, fs: Seq<Frame<T>>, cb: int, p: int) -> bool {
    &&& fs.len() == metas.len()
    &&& forall|i: int|
        0 <= i < fs.len() ==> {
            &&& (#[trigger] metas[i]).time_bits == fs[i].time_bits
            &&& fs[i].data@.len() % 3 == 0
            &&& fs[i].data@.len() > 0
            &&& metas[i].offset == cb + p * cum_samples(fs, i)
        }
}

/// Every stored sample's integer reading fits the width's signed range.
pub open spec fn samples_in_range<T>(
    fs: Seq<Frame<T>>,
    value: spec_fn(T) -> int,
    p: nat,
) -> bool {
    forall|i: int, j: int|
        0 <= i < fs.len() && 0 <= j < fs[i].data@.len() ==> -(pow256(p) / 2) <= value(
            #[trigger] fs[i].data@[j],
        ) < pow256(p) / 2
}

proof fn lemma_wf_sample_index<T>(metas: Seq<FrameMeta>, fs: Seq<Frame<T>>, cb: int, p: int, i: int)
    requires
        frames_wf(metas, fs, cb, p),
        p >= 1,
        0 <= i < metas.len(),
    ensures
        sample_index(metas[i], cb, p) == cum_samples(fs, i),
        metas[i].offset - cb == p * cum_samples(fs, i),
        (metas[i].offset - cb) % p == 0,
        cum_samples(fs, i) >= 0,
{
    let c = cum_samples(fs, i);
    lemma_cum_samples_nonneg(fs, i);
    assert(p * c == c * p) by (nonlinear_arith);
    lemma_fundamental_div_mod_converse(metas[i].offset - cb, p, c, 0);
}

proof fn lemma_wf_entry_err_none<T>(
    metas: Seq<FrameMeta>,
    fs: Seq<Frame<T>>,
    cb: int,
    p: int,
    i: int,
)
    requires
        frames_wf(metas, fs, cb, p),
        p >= 1,
        0 <= i <= metas.len(),
    ensures
        entry_err_from(metas, cb, p, i) is None,
    decreases metas.len() - i,
{
    if i < metas.len() {
        lemma_wf_sample_index(metas, fs, cb, p, i);
        lemma_mul_nonnegative(p, cum_samples(fs, i));
        lemma_wf_entry_err_none(metas, fs, cb, p, i + 1);
    }
}

proof fn lemma_wf_pair_err_none<T>(
    metas: Seq<FrameMeta>,
    fs: Seq<Frame<T>>,
    cb: int,
    p: int,
    i: int,
)
    requires
        frames_wf(metas, fs, cb, p),
        p >= 1,
        0 <= i <= metas.len(),
    ensures
        pair_err_from(metas, cb, p, i) is None,
    decreases metas.len() - i,
{
    if i + 1 < metas.len() {
        lemma_wf_sample_index(metas, fs, cb, p, i);
        lemma_wf_sample_index(metas, fs, cb, p, i + 1);
        lemma_cum_samples_step(fs, i);
        lemma_wf_pair_err_none(metas, fs, cb, p, i + 1);
    }
}

/// A well-formed frame list passes the planner against exactly the stream a
/// matching encoder writes, and the plan recovers each frame's own start
/// and count.
proof fn lemma_wf_plan<T>(
    metas: Seq<FrameMeta>,
    fs: Seq<Frame<T>>,
    cb: int,
    p: int,
    body_len: int,
)
    requires
        frames_wf(metas, fs, cb, p),
        p == 1 || p == 2 || p == 4 || p == 8,
        cb >= 0,
        body_len == p * cum_samples(fs, fs.len() as int),
    ensures
        plan_err(metas, cb, p, body_len) is None,
        forall|i: int|
            0 <= i < metas.len() ==> plan_spans(metas, cb, p, body_len)[i] == (FrameSpan {
                start: cum_samples(fs, i) as usize,
                count: fs[i].data@.len() as usize,
            }),
{
    let n = metas.len() as int;
    lemma_wf_entry_err_none(metas, fs, cb, p, 0);
    lemma_wf_pair_err_none(metas, fs, cb, p, 0);
    if n == 0 {
    } else {
        let sl = cum_samples(fs, n - 1);
        let lastlen = fs[n - 1].data@.len() as int;
        lemma_wf_sample_index(metas, fs, cb, p, n - 1);
        lemma_cum_samples_step(fs, n - 1);
        assert(body_len == p * (sl + lastlen));
        lemma_mul_is_distributive_add(p, sl, lastlen);
        assert(body_len == p * sl + p * lastlen);
        assert(sl * p == p * sl) by (nonlinear_arith);
        let rem = body_len - sl * p;
        assert(rem == p * lastlen);
        assert(rem > 0) by {
            lemma_mul_strictly_positive(p, lastlen);
        }
        let k = lastlen / 3;
        assert(lastlen == 3 * k) by {
            lemma_fundamental_div_mod(lastlen, 3);
        }
        assert(rem == k * (3 * p)) by (nonlinear_arith)
            requires
                rem == p * lastlen && lastlen == 3 * k,
        ;
        lemma_mod_multiples_basic(k, 3 * p);
        assert(rem % (3 * p) == 0);
        assert(tail_err(metas, cb, p, body_len) is None);
        // Each planned span is the frame's own start and count.
        assert forall|i: int| 0 <= i < n implies plan_spans(metas, cb, p, body_len)[i]
            == (FrameSpan {
            start: cum_samples(fs, i) as usize,
            count: fs[i].data@.len() as usize,
        }) by {
            lemma_wf_sample_index(metas, fs, cb, p, i);
            assert(fs[i].data.len() == fs[i].data@.len());
            if i + 1 < n {
                lemma_wf_sample_index(metas, fs, cb, p, i + 1);
                lemma_cum_samples_step(fs, i);
            } else {
                assert(rem % p == 0) by {
                    assert(rem == lastlen * p) by (nonlinear_arith)
                        requires
                            rem == p * lastlen,
                    ;
                    lemma_mod_multiples_basic(lastlen, p);
                }
                lemma_fundamental_div_mod_converse(rem, p, lastlen, 0);
            }
        }
    }
}

/// A well-formed frame list, laid out by a matching encoder after `base`,
/// decodes to exactly itself: the planned spans are its own frames' spans
/// and every decoded sample equals the stored one.
proof fn lemma_wf_frames_round_trip<T>(
    s: Seq<u8>,
    base: int,
    metas: Seq<FrameMeta>,
    fs: Seq<Frame<T>>,
    cb: int,
    p: nat,
    value: spec_fn(T) -> int,
)
    requires
        frames_wf(metas, fs, cb, p as int),
        p == 1 || p == 2 || p == 4 || p == 8,
        cb >= 0,
        samples_in_range(fs, value, p),
        base >= 0,
        s.len() == base + p * cum_samples(fs, fs.len() as int),
        forall|t: int|
            0 <= t < p * cum_samples(fs, fs.len() as int) ==> s[base + t] == #[trigger] encode_samples(
                flat_samples(fs, value),
                p,
            )[t],
    ensures
        plan_err(metas, cb, p as int, s.len() - base) is None,
        frames_seq_ok(
            s,
            base,
            p,
            metas,
            plan_spans(metas, cb, p as int, s.len() - base),
            fs,
            value,
        ),
{
    let n = metas.len() as int;
    let total = cum_samples(fs, fs.len() as int);
    let body_len = s.len() - base;
    let flat = flat_samples(fs, value);
    lemma_flat_samples_len(fs, value);
    lemma_encode_samples_len(flat, p);
    lemma_wf_plan(metas, fs, cb, p as int, body_len);
    let spans = plan_spans(metas, cb, p as int, body_len);
    assert forall|i: int|
        0 <= i < fs.len() implies crate::frames::frame_ok(
        s,
        base,
        p,
        metas[i],
        spans[i],
        #[trigger] fs[i],
        value,
    ) by {
        let ci = cum_samples(fs, i);
        lemma_cum_samples_nonneg(fs, i);
        lemma_cum_samples_step(fs, i);
        lemma_cum_samples_monotone(fs, i + 1, fs.len() as int);
        lemma_wf_sample_index(metas, fs, cb, p as int, i);
        assert(ci <= (p as int) * ci) by (nonlinear_arith)
            requires
                p >= 1 && ci >= 0,
        ;
        assert(ci <= usize::MAX);
        assert(spans[i].start == ci);
        assert(fs[i].data.len() == fs[i].data@.len());
        assert(spans[i].count == fs[i].data@.len());
        assert forall|j: int| 0 <= j < fs[i].data@.len() implies value(#[trigger] fs[i].data@[j])
            == crate::frames::sample_at(s, base, ci, j, p) by {
            lemma_flat_samples_index(fs, value, i, j);
            assert(flat[ci + j] == value(fs[i].data@[j]));
            lemma_be_sbytes_len(flat[ci + j], p);
            assert forall|k: int|
                0 <= k < p implies s[(base + (ci + j) * p) + k] == #[trigger] be_sbytes(
                flat[ci + j],
                p,
            )[k] by {
                let t = (ci + j) * p + k;
                assert((ci + j) * p + k < p * total) by (nonlinear_arith)
                    requires
                        0 <= ci,
                        0 <= j,
                        0 <= k < p,
                        ci + j < total,
                        p >= 1,
                ;
                assert(0 <= (ci + j) * p) by {
                    lemma_mul_nonnegative(ci + j, p as int);
                }
                assert(s[base + t] == encode_samples(flat, p)[t]);
                lemma_encode_samples_index(flat, p, ci + j, k);
                assert(base + t == (base + (ci + j) * p) + k);
            }
            lemma_be_sint_of_be_sbytes(s, base + (ci + j) * p, flat[ci + j], p);
        }
    }
}

/// The four magic bytes every container begins with.
pub open spec fn magic_bytes() -> Seq<u8> {
    seq![0x2eu8, 0x6fu8, 0x70u8, 0x64u8]
}

/// The flattened integer sample stream of the decoded union.
pub open spec fn flat_of_frames(fs: Frames) -> Seq<int> {
    match fs {
        Frames::I8(v) => flat_samples(v@, |x: i8| x as int),
        Frames::I16(v) => flat_samples(v@, |x: i16| x as int),
        Frames::I32(v) => flat_samples(v@, |x: i32| x as int),
        Frames::I64(v) => flat_samples(v@, |x: i64| x as int),
    }
}

/// The sample byte width of the union's variant.
pub open spec fn width_of_frames(fs: Frames) -> nat {
    match fs {
        Frames::I8(_) => 1,
        Frames::I16(_) => 2,
        Frames::I32(_) => 4,
        Frames::I64(_) => 8,
    }
}

/// How many samples the union holds over all frames.
pub open spec fn total_of_frames(fs: Frames) -> int {
    match fs {
        Frames::I8(v) => cum_samples(v@, v@.len() as int),
        Frames::I16(v) => cum_samples(v@, v@.len() as int),
        Frames::I32(v) => cum_samples(v@, v@.len() as int),
        Frames::I64(v) => cum_samples(v@, v@.len() as int),
    }
}

/// What a matching encoder writes for a container around its JSON header
/// text: the magic tag, the big-endian length of the JSON text, the text,
/// the centroid records, then every sample in stream order.
pub open spec fn encode_file(file: OpdFile, json: Seq<u8>) -> Seq<u8> {
    magic_bytes() + be_bytes(json.len() as int, 4) + json + encode_centroids(file.centroids@)
        + encode_samples(flat_of_frames(file.frames), width_of_frames(file.frames))
}

/// A container a matching encoder accepts: the JSON text's length fits its
/// four-byte prefix, the header's count names the centroid list's length,
/// and the header's width and frame table agree with the frame data.
pub open spec fn file_wf(file: OpdFile, json: Seq<u8>) -> bool {
    let d = file.header.directive;
    let cb = 16 * file.centroids@.len() as int;
    &&& json.len() < 0x1_0000_0000
    &&& d.centroid_count_spec() == Some(file.centroids@.len() as usize)
    &&& match file.frames {
        Frames::I8(v) => d.precision == 1 && frames_wf(d.frames@, v@, cb, 1),
        Frames::I16(v) => d.precision == 2 && frames_wf(d.frames@, v@, cb, 2),
        Frames::I32(v) => d.precision == 4 && frames_wf(d.frames@, v@, cb, 4),
        Frames::I64(v) => d.precision == 8 && frames_wf(d.frames@, v@, cb, 8),
    }
}

/// Law: round trip. Encoding a well-formed synthetic container with a
/// matching encoder and decoding the result against the same header
/// succeeds, consumes everything, and yields a container whose every field
/// — header, centroid records, timestamps and raw samples — the decoder's
/// contract pins to the original's.
pub proof fn lemma_round_trip(file: OpdFile, json: Seq<u8>)
    requires
        file_wf(file, json),
    ensures
        parse_err(encode_file(file, json), file.header) is None,
        parse_ok(encode_file(file, json), file.header, file, 0),
{
    let s = encode_file(file, json);
    let d = file.header.directive;
    let cs = file.centroids@;
    let count = cs.len() as int;
    let metas = d.frames@;
    let p = d.precision as int;
    let w = width_of_frames(file.frames);
    let flat = flat_of_frames(file.frames);
    let total = total_of_frames(file.frames);
    let jl = json.len() as int;
    let b0 = 8 + jl;
    let base = b0 + 16 * count;
    let cb = 16 * count;

    assert(file.centroids.len() == cs.len());
    lemma_pow256_values();
    lemma_be_bytes_len(jl, 4);
    crate::encode::lemma_encode_centroids_len(cs);
    lemma_encode_samples_len(flat, w);
    match file.frames {
        Frames::I8(v) => {
            lemma_flat_samples_len(v@, |x: i8| x as int);
            lemma_cum_samples_nonneg(v@, v@.len() as int);
        },
        Frames::I16(v) => {
            lemma_flat_samples_len(v@, |x: i16| x as int);
            lemma_cum_samples_nonneg(v@, v@.len() as int);
        },
        Frames::I32(v) => {
            lemma_flat_samples_len(v@, |x: i32| x as int);
            lemma_cum_samples_nonneg(v@, v@.len() as int);
        },
        Frames::I64(v) => {
            lemma_flat_samples_len(v@, |x: i64| x as int);
            lemma_cum_samples_nonneg(v@, v@.len() as int);
        },
    }
    assert(flat.len() == total);
    assert(total >= 0);
    lemma_mul_nonnegative(w as int, total);
    assert(s.len() == 8 + jl + 16 * count + w * total);

    // The framing reads back: magic tag and header length.
    assert(s[0] == 0x2eu8 && s[1] == 0x6fu8 && s[2] == 0x70u8 && s[3] == 0x64u8);
    assert(magic_ok(s));
    assert forall|k: int| 0 <= k < 4 implies s[4 + k] == #[trigger] be_bytes(jl, 4)[k] by {
        assert(s[4 + k] == (magic_bytes() + be_bytes(jl, 4))[4 + k]);
    }
    lemma_be_uint_of_be_bytes(s, 4, jl, 4);
    assert(header_len(s) == jl);
    assert(body_start(s) == b0);

    // Every centroid record reads back field for field.
    assert forall|m: int| 0 <= m < 16 * count implies s[b0 + m] == #[trigger] encode_centroids(
        cs,
    )[m] by {}
    assert forall|i: int| 0 <= i < count implies centroid_ok(s, b0 + 16 * i, #[trigger] cs[i]) by {
        assert forall|k: int| 0 <= k < 16 implies s[(b0 + 16 * i) + k] == #[trigger] encode_centroid(
            cs[i],
        )[k] by {
            assert(s[b0 + (16 * i + k)] == encode_centroids(cs)[16 * i + k]);
            crate::encode::lemma_encode_centroids_index(cs, i, k);
        }
        crate::encode::lemma_centroid_round_trip(s, b0 + 16 * i, cs[i]);
    }

    // The sample stream reads back sample for sample, and the plan built
    // from the same header accepts it.
    assert forall|t: int| 0 <= t < w * total implies s[base + t] == #[trigger] encode_samples(
        flat,
        w,
    )[t] by {}
    match file.frames {
        Frames::I8(v) => {
            assert(samples_in_range(v@, |x: i8| x as int, 1));
            lemma_wf_frames_round_trip(s, base, metas, v@, cb, 1, |x: i8| x as int);
        },
        Frames::I16(v) => {
            assert(samples_in_range(v@, |x: i16| x as int, 2));
            lemma_wf_frames_round_trip(s, base, metas, v@, cb, 2, |x: i16| x as int);
        },
        Frames::I32(v) => {
            assert(samples_in_range(v@, |x: i32| x as int, 4));
            lemma_wf_frames_round_trip(s, base, metas, v@, cb, 4, |x: i32| x as int);
        },
        Frames::I64(v) => {
            assert(samples_in_range(v@, |x: i64| x as int, 8));
            lemma_wf_frames_round_trip(s, base, metas, v@, cb, 8, |x: i64| x as int);
        },
    }
    assert(plan_err(metas, cb, p, s.len() - base) is None);
    assert(parse_err(s, file.header) is None);

    // An empty frame table encodes an empty stream, so nothing trails in
    // either case.
    if metas.len() == 0 {
        match file.frames {
            Frames::I8(v) => assert(cum_samples(v@, 0) == 0),
            Frames::I16(v) => assert(cum_samples(v@, 0) == 0),
            Frames::I32(v) => assert(cum_samples(v@, 0) == 0),
            Frames::I64(v) => assert(cum_samples(v@, 0) == 0),
        }
        assert(s.len() - base == 0);
    }
    assert(parse_ok(s, file.header, file, 0));
}

/// Two frame lists hold the same decoded content: frame for frame, the same
/// timestamp and the same samples.
pub open spec fn frame_seq_content_eq<T>(x: Seq<Frame<T>>, y: Seq<Frame<T>>) -> bool {
    &&& x.len() == y.len()
    &&& forall|i: int|
        0 <= i < x.len() ==> (#[trigger] x[i]).time_bits == y[i].time_bits && x[i].data@
            == y[i].data@
}

/// Two frame unions hold the same decoded content: the same width and the
/// same frames.
pub open spec fn frames_content_eq(a: Frames, b: Frames) -> bool {
    match a {
        Frames::I8(x) => b matches Frames::I8(y) && frame_seq_content_eq(x@, y@),
        Frames::I16(x) => b matches Frames::I16(y) && frame_seq_content_eq(x@, y@),
        Frames::I32(x) => b matches Frames::I32(y) && frame_seq_content_eq(x@, y@),
        Frames::I64(x) => b matches Frames::I64(y) && frame_seq_content_eq(x@, y@),
    }
}

proof fn lemma_frames_seq_ok_unique<T>(
    s: Seq<u8>,
    base: int,
    w: nat,
    metas: Seq<FrameMeta>,
    spans: Seq<FrameSpan>,
    x: Seq<Frame<T>>,
    y: Seq<Frame<T>>,
    value: spec_fn(T) -> int,
)
    requires
        frames_seq_ok(s, base, w, metas, spans, x, value),
        frames_seq_ok(s, base, w, metas, spans, y, value),
        forall|a: T, b: T| #[trigger] value(a) == #[trigger] value(b) ==> a == b,
    ensures
        frame_seq_content_eq(x, y),
{
    assert forall|i: int|
        0 <= i < x.len() implies (#[trigger] x[i]).time_bits == y[i].time_bits && x[i].data@
        == y[i].data@ by {
        assert(crate::frames::frame_ok(s, base, w, metas[i], spans[i], x[i], value));
        assert(crate::frames::frame_ok(s, base, w, metas[i], spans[i], y[i], value));
        assert forall|j: int| 0 <= j < x[i].data@.len() implies x[i].data@[j] == #[trigger] y[i].data@[j] by {
            assert(value(x[i].data@[j]) == crate::frames::sample_at(
                s,
                base,
                spans[i].start as int,
                j,
                w,
            ));
            assert(value(y[i].data@[j]) == crate::frames::sample_at(
                s,
                base,
                spans[i].start as int,
                j,
                w,
            ));
        }
        assert(x[i].data@ =~= y[i].data@);
    }
}

/// Law: the decode contract pins its output. Any two containers and
/// trailing counts that satisfy it for the same buffer and header agree in
/// every field: same header, the same centroid records, the same frame
/// content, the same leftover. With the round-trip law this says decoding
/// an encoded container yields exactly the original's content back.
pub proof fn lemma_parse_ok_unique(
    s: Seq<u8>,
    h: OpdHeader,
    f1: OpdFile,
    t1: int,
    f2: OpdFile,
    t2: int,
)
    requires
        parse_ok(s, h, f1, t1),
        parse_ok(s, h, f2, t2),
    ensures
        f1.header == f2.header,
        f1.centroids@ == f2.centroids@,
        frames_content_eq(f1.frames, f2.frames),
        t1 == t2,
{
    let count = h.directive.centroid_count_spec().unwrap() as int;
    let b0 = body_start(s);
    assert forall|i: int| 0 <= i < count implies f1.centroids@[i] == #[trigger] f2.centroids@[i] by {
        assert(centroid_ok(s, b0 + 16 * i, f1.centroids@[i]));
        assert(centroid_ok(s, b0 + 16 * i, f2.centroids@[i]));
        assert(f1.centroids@[i].offset_bits =~= f2.centroids@[i].offset_bits);
    }
    assert(f1.centroids@ =~= f2.centroids@);
    let base = b0 + 16 * count;
    let p = h.directive.precision as int;
    let spans = plan_spans(h.directive.frames@, 16 * count, p, s.len() - base);
    match f1.frames {
        Frames::I8(x) => {
            let y = f2.frames->I8_0;
            lemma_frames_seq_ok_unique(s, base, 1, h.directive.frames@, spans, x@, y@, |a: i8| a as int);
        },
        Frames::I16(x) => {
            let y = f2.frames->I16_0;
            lemma_frames_seq_ok_unique(s, base, 2, h.directive.frames@, spans, x@, y@, |a: i16| a as int);
        },
        Frames::I32(x) => {
            let y = f2.frames->I32_0;
            lemma_frames_seq_ok_unique(s, base, 4, h.directive.frames@, spans, x@, y@, |a: i32| a as int);
        },
        Frames::I64(x) => {
            let y = f2.frames->I64_0;
            lemma_frames_seq_ok_unique(s, base, 8, h.directive.frames@, spans, x@, y@, |a: i64| a as int);
        },
    }
}

} // verus!
