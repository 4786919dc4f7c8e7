use vstd::prelude::*;

use vstd::arithmetic::div_mod::lemma_div_non_zero;
use vstd::arithmetic::div_mod::lemma_fundamental_div_mod;
use vstd::arithmetic::div_mod::lemma_fundamental_div_mod_converse;
use vstd::arithmetic::div_mod::lemma_small_mod;
use vstd::arithmetic::mul::lemma_mul_inequality;
use vstd::arithmetic::mul::lemma_mul_is_distributive_add_other_way;

use crate::errors::FormatError;
use crate::header::valid_precision;
use crate::header::FrameMeta;

verus! {

/// Where one frame's samples live in the stream that follows the centroid
/// block. Both fields are in scalar-sample units, not bytes: the frame's
/// data occupies bytes `[start * precision, (start + count) * precision)`
/// of that stream.
#[derive(Clone, Copy, Debug, PartialEq, Eq, Structural)]
pub struct FrameSpan {
    pub start: usize,
    pub count: usize,
}

/// A frame-table entry's byte offset is measured from the frame-data origin
/// minus the size of the centroid block (`cb` bytes), so its effective byte
/// offset is `offset - cb`, and its position in scalar-sample units is that
/// divided by the sample width `p`.
pub open spec fn sample_index(m: FrameMeta, cb: int, p: int) -> int {
    (m.offset - cb) / p
}

/// The first fault of a single frame-table entry at or after position `i`:
/// an offset that points before the frame-data origin, or one not evenly
/// divisible by the sample width.
pub open spec fn entry_err_from(metas: Seq<FrameMeta>, cb: int, p: int, i: int) -> Option<
    FormatError,
>
    decreases metas.len() - i,
{
    if i < 0 || i >= metas.len() {
        None
    } else if metas[i].offset < cb {
        Some(FormatError::InvalidHeader)
    } else if (metas[i].offset - cb) % p != 0 {
        Some(FormatError::MisalignedOffset { frame: i as usize, offset: metas[i].offset })
    } else {
        entry_err_from(metas, cb, p, i + 1)
    }
}

/// The first fault of a consecutive pair `(i, i + 1)` of frame-table
/// entries: a non-ascending offset, or a sample range whose length is not a
/// positive multiple of three.
pub open spec fn pair_err_from(metas: Seq<FrameMeta>, cb: int, p: int, i: int) -> Option<
    FormatError,
>
    decreases metas.len() - i,
{
    if i < 0 || i + 1 >= metas.len() {
        None
    } else {
        let s0 = sample_index(metas[i], cb, p);
        let s1 = sample_index(metas[i + 1], cb, p);
        if s1 < s0 {
            Some(FormatError::InvalidHeader)
        } else if s1 == s0 || (s1 - s0) % 3 != 0 {
            Some(FormatError::InvalidFrameLength { samples: (s1 - s0) as usize })
        } else {
            pair_err_from(metas, cb, p, i + 1)
        }
    }
}

/// The fault, if any, of the final open-ended range, which runs from the
/// last entry's sample index to the end of the `body_len`-byte stream.
pub open spec fn tail_err(metas: Seq<FrameMeta>, cb: int, p: int, body_len: int) -> Option<
    FormatError,
> {
    let sl = sample_index(metas[metas.len() - 1], cb, p);
    if sl * p > body_len {
        Some(FormatError::Truncated)
    } else {
        let rem = body_len - sl * p;
        if rem % (3 * p) != 0 {
            Some(FormatError::TrailingBytes { extra: (rem % (3 * p)) as usize })
        } else if rem == 0 {
            Some(FormatError::InvalidFrameLength { samples: 0 })
        } else {
            None
        }
    }
}

/// The first fault of the whole frame plan, checked entry by entry, then
/// pair by pair, then at the open-ended tail; `None` means the plan is
/// valid. An empty frame table is always valid and plans no spans.
pub open spec fn plan_err(metas: Seq<FrameMeta>, cb: int, p: int, body_len: int) -> Option<
    FormatError,
> {
    if entry_err_from(metas, cb, p, 0) is Some {
        entry_err_from(metas, cb, p, 0)
    } else if pair_err_from(metas, cb, p, 0) is Some {
        pair_err_from(metas, cb, p, 0)
    } else if metas.len() == 0 {
        None
    } else {
        tail_err(metas, cb, p, body_len)
    }
}

/// The planned sample count of frame `i`: up to the next entry's sample
/// index, or, for the last entry, to the end of the stream.
pub open spec fn span_count(metas: Seq<FrameMeta>, cb: int, p: int, body_len: int, i: int) -> int {
    if i + 1 < metas.len() {
        sample_index(metas[i + 1], cb, p) - sample_index(metas[i], cb, p)
    } else {
        (body_len - sample_index(metas[i], cb, p) * p) / p
    }
}

/// What a correctly computed plan holds: one span per frame-table entry,
/// each placed at its entry's sample index with its planned count.
pub open spec fn plan_ok(
    metas: Seq<FrameMeta>,
    cb: int,
    p: int,
    body_len: int,
    spans: Seq<FrameSpan>,
) -> bool {
    &&& spans.len() == metas.len()
    &&& forall|i: int|
        0 <= i < metas.len() ==> {
            &&& (#[trigger] spans[i]).start == sample_index(metas[i], cb, p)
            &&& spans[i].count == span_count(metas, cb, p, body_len, i)
        }
}

/// The spans a valid plan computes, as a function of the header metadata
/// and the stream length alone.
pub open spec fn plan_spans(metas: Seq<FrameMeta>, cb: int, p: int, body_len: int) -> Seq<
    FrameSpan,
> {
    Seq::new(
        metas.len(),
        |i: int|
            FrameSpan {
                start: sample_index(metas[i], cb, p) as usize,
                count: span_count(metas, cb, p, body_len, i) as usize,
            },
    )
}

/// Converts the header's per-frame byte-offset table into sample-count
/// ranges: where each frame's data begins and ends, in scalar-sample units,
/// within the `body_len` bytes that follow the `centroid_bytes`-byte
/// centroid block.
pub fn plan_frames(
    metas: &Vec<FrameMeta>,
    centroid_bytes: usize,
    precision: usize,
    body_len: usize,
) -> (r: Result<Vec<FrameSpan>, FormatError>)
    requires
        valid_precision(precision),
    ensures
        match r {
            Ok(spans) => {
                &&& plan_err(metas@, centroid_bytes as int, precision as int, body_len as int)
                    is None
                &&& plan_ok(
                    metas@,
                    centroid_bytes as int,
                    precision as int,
                    body_len as int,
                    spans@,
                )
            },
            Err(e) => plan_err(metas@, centroid_bytes as int, precision as int, body_len as int)
                == Some(e),
        },
{
    let n = metas.len();
    let ghost cbi = centroid_bytes as int;
    let ghost pi = precision as int;

    // Entry pass: every offset must lie at or after the frame-data origin
    // and on a sample boundary.
    let mut sidx: Vec<usize> = Vec::new();
    let mut i: usize = 0;
    while i < n
        invariant
            i <= n,
            n == metas@.len(),
            valid_precision(precision),
            cbi == centroid_bytes as int,
            pi == precision as int,
            entry_err_from(metas@, cbi, pi, 0) == entry_err_from(metas@, cbi, pi, i as int),
            sidx@.len() == i,
            forall|j: int| 0 <= j < i ==> (#[trigger] metas@[j]).offset >= centroid_bytes,
            forall|j: int|
                0 <= j < i ==> ((#[trigger] metas@[j]).offset - centroid_bytes) % pi == 0,
            forall|j: int| 0 <= j < i ==> (#[trigger] sidx@[j]) == sample_index(metas@[j], cbi, pi),
        decreases n - i,
    {
        let m = metas[i];
        if m.offset < centroid_bytes {
            proof {
                assert(entry_err_from(metas@, cbi, pi, i as int) == Some(
                    FormatError::InvalidHeader,
                ));
            }
            return Err(FormatError::InvalidHeader);
        }
        if (m.offset - centroid_bytes) % precision != 0 {
            proof {
                assert(entry_err_from(metas@, cbi, pi, i as int) == Some(
                    FormatError::MisalignedOffset { frame: i, offset: m.offset },
                ));
            }
            return Err(FormatError::MisalignedOffset { frame: i, offset: m.offset });
        }
        let ghost old_sidx = sidx@;
        sidx.push((m.offset - centroid_bytes) / precision);
        proof {
            assert(entry_err_from(metas@, cbi, pi, i as int) == entry_err_from(
                metas@,
                cbi,
                pi,
                i + 1,
            ));
            assert(sidx@[i as int] == sample_index(metas@[i as int], cbi, pi));
            assert forall|j: int| 0 <= j < i + 1 implies (#[trigger] sidx@[j]) == sample_index(
                metas@[j],
                cbi,
                pi,
            ) by {
                if j < i {
                    assert(sidx@[j] == old_sidx[j]);
                }
            }
        }
        i = i + 1;
    }
    proof {
        assert(entry_err_from(metas@, cbi, pi, n as int) is None);
    }

    // Pair pass: consecutive sample indices must ascend by a positive
    // multiple of three.
    let pairs = if n == 0 {
        0
    } else {
        n - 1
    };
    let mut k: usize = 0;
    while k < pairs
        invariant
            k <= pairs,
            n == metas@.len(),
            pairs == if n == 0 {
                0int
            } else {
                n - 1
            },
            valid_precision(precision),
            cbi == centroid_bytes as int,
            pi == precision as int,
            sidx@.len() == n,
            forall|j: int| 0 <= j < n ==> (#[trigger] sidx@[j]) == sample_index(metas@[j], cbi, pi),
            entry_err_from(metas@, cbi, pi, 0) is None,
            pair_err_from(metas@, cbi, pi, 0) == pair_err_from(metas@, cbi, pi, k as int),
            forall|j: int|
                0 <= j < k ==> {
                    &&& (#[trigger] sidx@[j + 1]) > sidx@[j]
                    &&& (sidx@[j + 1] - sidx@[j]) % 3 == 0
                },
        decreases pairs - k,
    {
        let s0 = sidx[k];
        let s1 = sidx[k + 1];
        if s1 < s0 {
            proof {
                assert(pair_err_from(metas@, cbi, pi, k as int) == Some(
                    FormatError::InvalidHeader,
                ));
            }
            return Err(FormatError::InvalidHeader);
        }
        let d = s1 - s0;
        if d == 0 || d % 3 != 0 {
            proof {
                assert(pair_err_from(metas@, cbi, pi, k as int) == Some(
                    FormatError::InvalidFrameLength { samples: d },
                ));
            }
            return Err(FormatError::InvalidFrameLength { samples: d });
        }
        proof {
            assert(pair_err_from(metas@, cbi, pi, k as int) == pair_err_from(
                metas@,
                cbi,
                pi,
                k + 1,
            ));
        }
        k = k + 1;
    }
    proof {
        assert(pair_err_from(metas@, cbi, pi, pairs as int) is None);
    }

    if n == 0 {
        let spans: Vec<FrameSpan> = Vec::new();
        return Ok(spans);
    }

    // Tail: the last entry's range runs to the end of the stream and must
    // hold a positive whole number of sample triplets.
    let sl = sidx[n - 1];
    proof {
        lemma_fundamental_div_mod((metas@[n as int - 1].offset - centroid_bytes) as int, pi);
        assert(sl * precision == metas@[n as int - 1].offset - centroid_bytes);
    }
    let sl_bytes = sl * precision;
    if sl_bytes > body_len {
        proof {
            assert(tail_err(metas@, cbi, pi, body_len as int) == Some(FormatError::Truncated));
        }
        return Err(FormatError::Truncated);
    }
    let rem = body_len - sl_bytes;
    let extra = rem % (3 * precision);
    if extra != 0 {
        return Err(FormatError::TrailingBytes { extra });
    }
    if rem == 0 {
        return Err(FormatError::InvalidFrameLength { samples: 0 });
    }

    let mut spans: Vec<FrameSpan> = Vec::new();
    let mut i: usize = 0;
    while i < n
        invariant
            i <= n,
            n == metas@.len(),
            n > 0,
            valid_precision(precision),
            cbi == centroid_bytes as int,
            pi == precision as int,
            sidx@.len() == n,
            forall|j: int| 0 <= j < n ==> (#[trigger] sidx@[j]) == sample_index(metas@[j], cbi, pi),
            forall|j: int|
                0 <= j < n - 1 ==> {
                    &&& (#[trigger] sidx@[j + 1]) > sidx@[j]
                    &&& (sidx@[j + 1] - sidx@[j]) % 3 == 0
                },
            sl == sidx@[n - 1],
            sl_bytes == sl * precision,
            sl * precision == metas@[n - 1].offset - centroid_bytes,
            sl * precision <= body_len,
            spans@.len() == i,
            forall|j: int|
                0 <= j < i ==> {
                    &&& (#[trigger] spans@[j]).start == sample_index(metas@[j], cbi, pi)
                    &&& spans@[j].count == span_count(metas@, cbi, pi, body_len as int, j)
                },
        decreases n - i,
    {
        let start = sidx[i];
        let count: usize;
        if i + 1 < n {
            count = sidx[i + 1] - start;
        } else {
            count = (body_len - sl_bytes) / precision;
        }
        spans.push(FrameSpan { start, count });
        proof {
            assert(spans@[i as int].start == sample_index(metas@[i as int], cbi, pi));
            assert(spans@[i as int].count == span_count(metas@, cbi, pi, body_len as int, i as int));
        }
        i = i + 1;
    }
    proof {
        assert(tail_err(metas@, cbi, pi, body_len as int) is None);
        assert(plan_err(metas@, cbi, pi, body_len as int) is None);
    }
    Ok(spans)
}

/// The planned sample counts, summed left to right.
pub open spec fn sum_counts(spans: Seq<FrameSpan>) -> int
    decreases spans.len(),
{
    if spans.len() == 0 {
        0
    } else {
        spans[0].count + sum_counts(spans.drop_first())
    }
}

proof fn lemma_entry_props(metas: Seq<FrameMeta>, cb: int, p: int, i: int, j: int)
    requires
        entry_err_from(metas, cb, p, i) is None,
        0 <= i <= j < metas.len(),
    ensures
        metas[j].offset >= cb,
        (metas[j].offset - cb) % p == 0,
    decreases j - i,
{
    if i < j {
        lemma_entry_props(metas, cb, p, i + 1, j);
    }
}

proof fn lemma_pair_props(metas: Seq<FrameMeta>, cb: int, p: int, i: int, j: int)
    requires
        pair_err_from(metas, cb, p, i) is None,
        0 <= i <= j < metas.len() - 1,
    ensures
        sample_index(metas[j + 1], cb, p) > sample_index(metas[j], cb, p),
        (sample_index(metas[j + 1], cb, p) - sample_index(metas[j], cb, p)) % 3 == 0,
    decreases j - i,
{
    if i < j {
        lemma_pair_props(metas, cb, p, i + 1, j);
    }
}

proof fn lemma_sample_index_monotone(metas: Seq<FrameMeta>, cb: int, p: int, i: int, j: int)
    requires
        pair_err_from(metas, cb, p, 0) is None,
        0 <= i <= j < metas.len(),
    ensures
        sample_index(metas[i], cb, p) <= sample_index(metas[j], cb, p),
    decreases j - i,
{
    if i < j {
        lemma_pair_props(metas, cb, p, 0, j - 1);
        lemma_sample_index_monotone(metas, cb, p, i, j - 1);
    }
}

proof fn lemma_sum_contiguous(spans: Seq<FrameSpan>, i: int)
    requires
        0 <= i < spans.len(),
        forall|k: int|
            0 <= k < spans.len() - 1 ==> (#[trigger] spans[k + 1]).start == spans[k].start
                + spans[k].count,
    ensures
        sum_counts(spans.skip(i)) == spans[spans.len() - 1].start + spans[spans.len() - 1].count
            - spans[i].start,
    decreases spans.len() - i,
{
    let n = spans.len() as int;
    assert(spans.skip(i)[0] == spans[i]);
    assert(spans.skip(i).drop_first() =~= spans.skip(i + 1));
    if i == n - 1 {
        assert(sum_counts(spans.skip(i + 1)) == 0);
    } else {
        lemma_sum_contiguous(spans, i + 1);
        assert(spans[i + 1].start == spans[i].start + spans[i].count);
    }
}

/// Law: for a valid frame plan, every planned sample count is a positive
/// multiple of three, and together with the samples skipped before the first
/// frame's offset the counts account for exactly the whole sample stream:
/// the first span's start plus the sum of all counts (the inferred final
/// range included) equals the stream's total sample count `body_len / p`.
pub proof fn lemma_plan_covers(
    metas: Seq<FrameMeta>,
    cb: int,
    p: int,
    body_len: int,
    spans: Seq<FrameSpan>,
)
    requires
        p == 1 || p == 2 || p == 4 || p == 8,
        body_len >= 0,
        metas.len() > 0,
        plan_err(metas, cb, p, body_len) is None,
        plan_ok(metas, cb, p, body_len, spans),
    ensures
        forall|i: int|
            0 <= i < spans.len() ==> (#[trigger] spans[i]).count % 3 == 0 && spans[i].count > 0,
        spans[0].start + sum_counts(spans) == body_len / p,
{
    let n = metas.len() as int;
    let sl = sample_index(metas[n - 1], cb, p);
    let rem = body_len - sl * p;
    let q = rem / (3 * p);

    // The open-ended tail holds a positive whole number of triplets.
    lemma_fundamental_div_mod(rem, 3 * p);
    if rem < 3 * p {
        lemma_small_mod(rem as nat, (3 * p) as nat);
    }
    assert(rem >= 3 * p);
    lemma_div_non_zero(rem, 3 * p);
    assert(rem == (3 * p) * q) by {
        lemma_fundamental_div_mod(rem, 3 * p);
    }
    assert((3 * p) * q == (3 * q) * p) by (nonlinear_arith);
    lemma_fundamental_div_mod_converse(rem, p, 3 * q, 0);
    assert(spans[n - 1].count == 3 * q);
    assert(spans[n - 1].count % 3 == 0);

    // Inner counts come straight from the pair checks.
    assert forall|i: int|
        0 <= i < spans.len() implies (#[trigger] spans[i]).count % 3 == 0 && spans[i].count
        > 0 by {
        if i < n - 1 {
            lemma_pair_props(metas, cb, p, 0, i);
        }
    }

    // Consecutive spans tile the stream, and the last ends at its end.
    assert forall|k: int|
        0 <= k < spans.len() - 1 implies (#[trigger] spans[k + 1]).start == spans[k].start
        + spans[k].count by {
        assert(spans[k].count == span_count(metas, cb, p, body_len, k));
    }
    lemma_mul_is_distributive_add_other_way(p, sl, 3 * q);
    assert(body_len == (sl + 3 * q) * p);
    lemma_fundamental_div_mod_converse(body_len, p, sl + 3 * q, 0);
    assert(body_len / p == sl + 3 * q);
    lemma_sum_contiguous(spans, 0);
    assert(spans.skip(0) =~= spans);
}

/// Every planned span lies inside the `body_len`-byte stream: frame data can
/// be decoded from exactly the bytes the plan names.
pub proof fn lemma_plan_in_bounds(
    metas: Seq<FrameMeta>,
    cb: int,
    p: int,
    body_len: int,
    spans: Seq<FrameSpan>,
)
    requires
        p == 1 || p == 2 || p == 4 || p == 8,
        body_len >= 0,
        metas.len() > 0,
        plan_err(metas, cb, p, body_len) is None,
        plan_ok(metas, cb, p, body_len, spans),
    ensures
        forall|i: int|
            0 <= i < spans.len() ==> ((#[trigger] spans[i]).start + spans[i].count) * p
                <= body_len,
{
    let n = metas.len() as int;
    let sl = sample_index(metas[n - 1], cb, p);
    let rem = body_len - sl * p;
    let q = rem / (3 * p);
    assert(rem == (3 * p) * q) by {
        lemma_fundamental_div_mod(rem, 3 * p);
    }
    assert((3 * p) * q == (3 * q) * p) by (nonlinear_arith);
    lemma_fundamental_div_mod_converse(rem, p, 3 * q, 0);
    assert((rem / p) * p == rem) by {
        lemma_fundamental_div_mod(rem, p);
    }
    assert forall|i: int|
        0 <= i < spans.len() implies ((#[trigger] spans[i]).start + spans[i].count) * p
        <= body_len by {
        if i < n - 1 {
            assert(spans[i].start + spans[i].count == sample_index(metas[i + 1], cb, p));
            lemma_sample_index_monotone(metas, cb, p, i + 1, n - 1);
            lemma_mul_inequality(sample_index(metas[i + 1], cb, p), sl, p);
        } else {
            assert(spans[i].start + spans[i].count == sl + rem / p);
            lemma_mul_is_distributive_add_other_way(p, sl, rem / p);
            assert((sl + rem / p) * p == sl * p + (rem / p) * p);
        }
    }
}

} // verus!

