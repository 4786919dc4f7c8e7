use vstd::prelude::*;

use vstd::arithmetic::div_mod::lemma_fundamental_div_mod;
use vstd::arithmetic::div_mod::lemma_multiply_divide_lt;
use vstd::arithmetic::mul::lemma_mul_inequality;
use vstd::arithmetic::mul::lemma_mul_is_distributive_add;
use vstd::arithmetic::mul::lemma_mul_is_distributive_sub;
use vstd::arithmetic::mul::lemma_mul_nonnegative;

use crate::frames::Frame;

use crate::bytes::be_sint;
use crate::bytes::be_uint;
use crate::bytes::lemma_pow256_pos;
use crate::bytes::pow256;
use crate::centroid::centroid_ok;
use crate::centroid::Centroid;

verus! {

/// The `n`-byte big-endian encoding of the unsigned value `v`: what an
/// encoder writes where the decoder reads `be_uint` back.
pub open spec fn be_bytes(v: int, n: nat) -> Seq<u8>
    decreases n,
{
    if n == 0 {
        Seq::empty()
    } else {
        be_bytes(v / 256, (n - 1) as nat).push((v % 256) as u8)
    }
}

pub proof fn lemma_be_bytes_len(v: int, n: nat)
    ensures
        be_bytes(v, n).len() == n,
    decreases n,
{
    if n > 0 {
        lemma_be_bytes_len(v / 256, (n - 1) as nat);
    }
}

/// Round trip, unsigned: wherever the `n` bytes of `be_bytes(v, n)` stand in
/// a buffer, reading them back big-endian yields `v` again.
pub proof fn lemma_be_uint_of_be_bytes(s: Seq<u8>, off: int, v: int, n: nat)
    requires
        0 <= v < pow256(n),
        forall|k: int| 0 <= k < n ==> s[off + k] == be_bytes(v, n)[k],
    ensures
        be_uint(s, off, n) == v,
    decreases n,
{
    if n == 0 {
    } else {
        let m = (n - 1) as nat;
        lemma_be_bytes_len(v / 256, m);
        lemma_fundamental_div_mod(v, 256);
        lemma_pow256_pos(m);
        assert(0 <= v / 256 < pow256(m)) by {
            lemma_multiply_divide_lt(v, 256, pow256(m));
        }
        assert forall|k: int| 0 <= k < m implies s[off + k] == #[trigger] be_bytes(v / 256, m)[k] by {
            assert(s[off + k] == be_bytes(v, n)[k]);
            assert(be_bytes(v, n)[k] == be_bytes(v / 256, m)[k]);
        }
        lemma_be_uint_of_be_bytes(s, off, v / 256, m);
        assert(s[off + n - 1] == be_bytes(v, n)[n - 1]);
        assert(be_bytes(v, n)[n - 1] == (v % 256) as u8);
    }
}

/// The `n`-byte big-endian two's-complement encoding of the signed value
/// `x`.
pub open spec fn be_sbytes(x: int, n: nat) -> Seq<u8> {
    if x >= 0 {
        be_bytes(x, n)
    } else {
        be_bytes(x + pow256(n), n)
    }
}

/// Round trip, signed: a sample value written two's-complement big-endian
/// reads back as itself.
pub proof fn lemma_be_sint_of_be_sbytes(s: Seq<u8>, off: int, x: int, n: nat)
    requires
        -(pow256(n) / 2) <= x < pow256(n) / 2,
        forall|k: int| 0 <= k < n ==> s[off + k] == be_sbytes(x, n)[k],
    ensures
        be_sint(s, off, n) == x,
{
    lemma_pow256_pos(n);
    if x >= 0 {
        assert forall|k: int| 0 <= k < n implies s[off + k] == be_bytes(x, n)[k] by {
            assert(s[off + k] == be_sbytes(x, n)[k]);
        }
        lemma_be_uint_of_be_bytes(s, off, x, n);
    } else {
        assert forall|k: int|
            0 <= k < n implies s[off + k] == #[trigger] be_bytes(x + pow256(n), n)[k] by {
            assert(s[off + k] == be_sbytes(x, n)[k]);
        }
        lemma_be_uint_of_be_bytes(s, off, x + pow256(n), n);
    }
}

/// The 16-byte encoding of one centroid record: the parent index, then the
/// three offset components, each four bytes big-endian.
pub open spec fn encode_centroid(c: Centroid) -> Seq<u8> {
    be_bytes(c.parent_id as int, 4) + be_bytes(c.offset_bits@[0] as int, 4) + be_bytes(
        c.offset_bits@[1] as int,
        4,
    ) + be_bytes(c.offset_bits@[2] as int, 4)
}

pub proof fn lemma_encode_centroid_len(c: Centroid)
    ensures
        encode_centroid(c).len() == 16,
{
    lemma_be_bytes_len(c.parent_id as int, 4);
    lemma_be_bytes_len(c.offset_bits@[0] as int, 4);
    lemma_be_bytes_len(c.offset_bits@[1] as int, 4);
    lemma_be_bytes_len(c.offset_bits@[2] as int, 4);
}

/// Round trip for one centroid record: wherever its 16 encoded bytes stand
/// in a buffer, the record decoded there holds the original fields.
pub proof fn lemma_centroid_round_trip(s: Seq<u8>, off: int, c: Centroid)
    requires
        c.offset_bits@.len() == 3,
        forall|k: int| 0 <= k < 16 ==> s[off + k] == encode_centroid(c)[k],
    ensures
        centroid_ok(s, off, c),
{
    lemma_be_bytes_len(c.parent_id as int, 4);
    lemma_be_bytes_len(c.offset_bits@[0] as int, 4);
    lemma_be_bytes_len(c.offset_bits@[1] as int, 4);
    lemma_be_bytes_len(c.offset_bits@[2] as int, 4);
    assert(pow256(4) == 0x1_0000_0000) by {
        crate::bytes::lemma_pow256_values();
    }
    assert forall|k: int| 0 <= k < 4 implies s[off + k] == be_bytes(c.parent_id as int, 4)[k] by {
        assert(s[off + k] == encode_centroid(c)[k]);
    }
    lemma_be_uint_of_be_bytes(s, off, c.parent_id as int, 4);
    assert forall|k: int| 0 <= k < 4 implies s[off + 4 + k] == be_bytes(
        c.offset_bits@[0] as int,
        4,
    )[k] by {
        assert(s[off + (4 + k)] == encode_centroid(c)[4 + k]);
    }
    lemma_be_uint_of_be_bytes(s, off + 4, c.offset_bits@[0] as int, 4);
    assert forall|k: int| 0 <= k < 4 implies s[off + 8 + k] == be_bytes(
        c.offset_bits@[1] as int,
        4,
    )[k] by {
        assert(s[off + (8 + k)] == encode_centroid(c)[8 + k]);
    }
    lemma_be_uint_of_be_bytes(s, off + 8, c.offset_bits@[1] as int, 4);
    assert forall|k: int| 0 <= k < 4 implies s[off + 12 + k] == be_bytes(
        c.offset_bits@[2] as int,
        4,
    )[k] by {
        assert(s[off + (12 + k)] == encode_centroid(c)[12 + k]);
    }
    lemma_be_uint_of_be_bytes(s, off + 12, c.offset_bits@[2] as int, 4);
}

/// The centroid block: every record's 16 bytes, in list order.
pub open spec fn encode_centroids(cs: Seq<Centroid>) -> Seq<u8>
    decreases cs.len(),
{
    if cs.len() == 0 {
        Seq::empty()
    } else {
        encode_centroid(cs[0]) + encode_centroids(cs.drop_first())
    }
}

pub proof fn lemma_encode_centroids_len(cs: Seq<Centroid>)
    ensures
        encode_centroids(cs).len() == 16 * cs.len(),
    decreases cs.len(),
{
    if cs.len() > 0 {
        lemma_encode_centroid_len(cs[0]);
        lemma_encode_centroids_len(cs.drop_first());
    }
}

pub proof fn lemma_encode_centroids_index(cs: Seq<Centroid>, i: int, k: int)
    requires
        0 <= i < cs.len(),
        0 <= k < 16,
    ensures
        encode_centroids(cs)[16 * i + k] == encode_centroid(cs[i])[k],
    decreases i,
{
    lemma_encode_centroid_len(cs[0]);
    lemma_encode_centroids_len(cs.drop_first());
    if i == 0 {
        assert(encode_centroids(cs)[k] == encode_centroid(cs[0])[k]);
    } else {
        lemma_encode_centroids_index(cs.drop_first(), i - 1, k);
        assert(cs.drop_first()[i - 1] == cs[i]);
        assert(encode_centroids(cs)[16 * i + k] == encode_centroids(cs.drop_first())[16 * (i - 1)
            + k]);
    }
}

/// The sample stream: every value's `w`-byte two's-complement encoding, in
/// stream order.
pub open spec fn encode_samples(vals: Seq<int>, w: nat) -> Seq<u8>
    decreases vals.len(),
{
    if vals.len() == 0 {
        Seq::empty()
    } else {
        be_sbytes(vals[0], w) + encode_samples(vals.drop_first(), w)
    }
}

pub proof fn lemma_be_sbytes_len(x: int, n: nat)
    ensures
        be_sbytes(x, n).len() == n,
{
    lemma_be_bytes_len(x, n);
    lemma_be_bytes_len(x + pow256(n), n);
}

pub proof fn lemma_encode_samples_len(vals: Seq<int>, w: nat)
    ensures
        encode_samples(vals, w).len() == w * vals.len(),
    decreases vals.len(),
{
    if vals.len() == 0 {
    } else {
        lemma_be_sbytes_len(vals[0], w);
        lemma_encode_samples_len(vals.drop_first(), w);
        lemma_mul_is_distributive_sub(w as int, vals.len() as int, 1);
    }
}

pub proof fn lemma_encode_samples_index(vals: Seq<int>, w: nat, j: int, k: int)
    requires
        0 <= j < vals.len(),
        0 <= k < w,
    ensures
        encode_samples(vals, w)[j * w + k] == be_sbytes(vals[j], w)[k],
    decreases j,
{
    lemma_be_sbytes_len(vals[0], w);
    lemma_encode_samples_len(vals.drop_first(), w);
    if j == 0 {
        assert(encode_samples(vals, w)[0 * w + k] == be_sbytes(vals[0], w)[k]);
    } else {
        lemma_encode_samples_index(vals.drop_first(), w, j - 1, k);
        assert(vals.drop_first()[j - 1] == vals[j]);
        assert((j - 1) * w == j * w - w) by {
            lemma_mul_is_distributive_sub(w as int, j, 1);
            assert(w * (j - 1) == (j - 1) * w) by (nonlinear_arith);
            assert(w * j == j * w) by (nonlinear_arith);
        }
        assert(0 <= (j - 1) * w) by {
            lemma_mul_nonnegative(j - 1, w as int);
        }
        assert((j - 1) * w + k < w * vals.drop_first().len()) by {
            lemma_mul_inequality(j - 1, vals.drop_first().len() as int - 1, w as int);
            lemma_mul_is_distributive_sub(w as int, vals.drop_first().len() as int, 1);
            assert((vals.drop_first().len() - 1) * w == w * (vals.drop_first().len() - 1))
                by (nonlinear_arith);
        }
        assert(encode_samples(vals, w)[j * w + k] == encode_samples(vals.drop_first(), w)[(j - 1)
            * w + k]);
    }
}

/// The values of one frame list's samples, flattened into stream order, as
/// the integer reading `value` of each stored sample.
pub open spec fn flat_samples<T>(fs: Seq<Frame<T>>, value: spec_fn(T) -> int) -> Seq<int>
    decreases fs.len(),
{
    if fs.len() == 0 {
        Seq::empty()
    } else {
        fs[0].data@.map_values(value) + flat_samples(fs.drop_first(), value)
    }
}

/// How many samples the first `i` frames hold together: frame `i`'s start
/// position in the flattened stream.
pub open spec fn cum_samples<T>(fs: Seq<Frame<T>>, i: int) -> int
    decreases i,
{
    if i <= 0 || fs.len() == 0 {
        0
    } else {
        fs[0].data@.len() + cum_samples(fs.drop_first(), i - 1)
    }
}

pub proof fn lemma_cum_samples_nonneg<T>(fs: Seq<Frame<T>>, i: int)
    ensures
        cum_samples(fs, i) >= 0,
    decreases i,
{
    if i > 0 && fs.len() > 0 {
        lemma_cum_samples_nonneg(fs.drop_first(), i - 1);
    }
}

pub proof fn lemma_cum_samples_step<T>(fs: Seq<Frame<T>>, i: int)
    requires
        0 <= i < fs.len(),
    ensures
        cum_samples(fs, i + 1) == cum_samples(fs, i) + fs[i].data@.len(),
        cum_samples(fs, i) >= 0,
    decreases i,
{
    lemma_cum_samples_nonneg(fs, i);
    if i == 0 {
        assert(cum_samples(fs, 1) == fs[0].data@.len() + cum_samples(fs.drop_first(), 0));
        assert(cum_samples(fs.drop_first(), 0) == 0);
        assert(cum_samples(fs, 0) == 0);
    } else {
        lemma_cum_samples_step(fs.drop_first(), i - 1);
        assert(fs.drop_first()[i - 1] == fs[i]);
        assert(cum_samples(fs, i + 1) == fs[0].data@.len() + cum_samples(fs.drop_first(), i));
        assert(cum_samples(fs, i) == fs[0].data@.len() + cum_samples(fs.drop_first(), i - 1));
    }
}

pub proof fn lemma_cum_samples_monotone<T>(fs: Seq<Frame<T>>, a: int, b: int)
    requires
        0 <= a <= b <= fs.len(),
    ensures
        cum_samples(fs, a) <= cum_samples(fs, b),
    decreases b - a,
{
    if a < b {
        lemma_cum_samples_step(fs, b - 1);
        lemma_cum_samples_monotone(fs, a, b - 1);
    }
}

pub proof fn lemma_flat_samples_len<T>(fs: Seq<Frame<T>>, value: spec_fn(T) -> int)
    ensures
        flat_samples(fs, value).len() == cum_samples(fs, fs.len() as int),
    decreases fs.len(),
{
    if fs.len() > 0 {
        lemma_flat_samples_len(fs.drop_first(), value);
    }
}

pub proof fn lemma_flat_samples_index<T>(
    fs: Seq<Frame<T>>,
    value: spec_fn(T) -> int,
    i: int,
    j: int,
)
    requires
        0 <= i < fs.len(),
        0 <= j < fs[i].data@.len(),
    ensures
        flat_samples(fs, value)[cum_samples(fs, i) + j] == value(fs[i].data@[j]),
    decreases i,
{
    if i == 0 {
        assert(cum_samples(fs, 0) == 0);
        assert(flat_samples(fs, value)[j] == fs[0].data@.map_values(value)[j]);
    } else {
        lemma_flat_samples_index(fs.drop_first(), value, i - 1, j);
        assert(fs.drop_first()[i - 1] == fs[i]);
        lemma_cum_samples_nonneg(fs.drop_first(), i - 1);
        assert(cum_samples(fs, i) == fs[0].data@.len() + cum_samples(fs.drop_first(), i - 1));
        lemma_flat_samples_len(fs.drop_first(), value);
        lemma_cum_samples_step(fs.drop_first(), i - 1);
        lemma_cum_samples_monotone(fs.drop_first(), i, fs.drop_first().len() as int);
        assert(flat_samples(fs, value)[cum_samples(fs, i) + j] == flat_samples(
            fs.drop_first(),
            value,
        )[cum_samples(fs.drop_first(), i - 1) + j]);
    }
}

} // verus!
