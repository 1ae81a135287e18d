//! Fixed-point embedding vectors and the cosine distance the index ranks by.
//!
//! Embedding components are carried as fixed-point integers: one unit of
//! real value is `SIM_SCALE`. The distance between two vectors is the scaled
//! cosine distance `SIM_SCALE * (1 - cos)`, computed with integer division
//! and an integer square root and clamped to `[0, 2 * SIM_SCALE]`; identical
//! nonzero vectors are at distance zero.

use vstd::prelude::*;

verus! {

/// Vector dimension of the reference embedding model.
pub const EMBEDDING_DIM: usize = 384;

/// Largest dimension the index accepts; keeps every dot product within
/// bounds.
pub const DIM_MAX: usize = 4096;

/// Largest magnitude a fixed-point component may have.
pub const COMPONENT_BOUND: i64 = 16777216;

/// The fixed-point unit: similarity 1.0 is carried as this value.
pub const SIM_SCALE: i64 = 65536;

/// A well-formed embedding vector of dimension `dim`: right length, every
/// component within the fixed-point bound.
pub open spec fn valid_vector(v: Seq<i64>, dim: nat) -> bool {
    &&& v.len() == dim
    &&& forall|i: int| 0 <= i < v.len() ==> -COMPONENT_BOUND <= #[trigger] v[i] <= COMPONENT_BOUND
}

/// Mathematical dot product of two equal-length integer vectors.
pub open spec fn dot(a: Seq<i64>, b: Seq<i64>) -> int
    decreases a.len(),
{
    if a.len() == 0 || b.len() == 0 {
        0
    } else {
        dot(a.drop_last(), b.drop_last()) + a.last() * b.last()
    }
}

/// The integer square root: the greatest `r` with `r * r <= n` (and `0` for
/// negative `n`).
pub open spec fn isqrt_spec(n: int) -> int
    decreases (if n >= 0 { n } else { 0 }),
{
    if n <= 0 {
        0
    } else {
        let r = isqrt_spec(n - 1);
        if (r + 1) * (r + 1) <= n {
            r + 1
        } else {
            r
        }
    }
}

/// The scaled cosine distance between `q` and `v`.
///
/// A vector without direction (zero norm) is put at the neutral distance
/// `SIM_SCALE`. Otherwise the scaled similarity `dot * SIM_SCALE / (|q| * |v|)`
/// is computed on magnitudes (so division truncates toward zero), clamped to
/// `[-SIM_SCALE, SIM_SCALE]` against rounding of the integer square root, and
/// subtracted from `SIM_SCALE`.
pub open spec fn distance_spec(q: Seq<i64>, v: Seq<i64>) -> int {
    let nq = dot(q, q);
    let nv = dot(v, v);
    if nq <= 0 || nv <= 0 {
        SIM_SCALE as int
    } else {
        let d = dot(q, v);
        let denom = isqrt_spec(nq) * isqrt_spec(nv);
        let m = if d < 0 {
            -d
        } else {
            d
        };
        let mag = m * (SIM_SCALE as int) / denom;
        let mag_c = if mag > SIM_SCALE as int {
            SIM_SCALE as int
        } else {
            mag
        };
        if d < 0 {
            SIM_SCALE as int + mag_c
        } else {
            SIM_SCALE as int - mag_c
        }
    }
}

/// Every well-formed pair of vectors keeps its dot product within
/// `len * COMPONENT_BOUND^2`.
pub proof fn lemma_dot_bound(a: Seq<i64>, b: Seq<i64>)
    requires
        a.len() == b.len(),
        forall|i: int| 0 <= i < a.len() ==> -COMPONENT_BOUND <= #[trigger] a[i] <= COMPONENT_BOUND,
        forall|i: int| 0 <= i < b.len() ==> -COMPONENT_BOUND <= #[trigger] b[i] <= COMPONENT_BOUND,
    ensures
        -(a.len() as int) * (COMPONENT_BOUND as int) * (COMPONENT_BOUND as int) <= dot(a, b) <= (
        a.len() as int) * (COMPONENT_BOUND as int) * (COMPONENT_BOUND as int),
    decreases a.len(),
{
    let bb = COMPONENT_BOUND as int;
    if a.len() == 0 {
    } else {
        lemma_dot_bound(a.drop_last(), b.drop_last());
        let x = a.last() as int;
        let y = b.last() as int;
        assert(-bb * bb <= x * y <= bb * bb) by (nonlinear_arith)
            requires
                -bb <= x <= bb,
                -bb <= y <= bb,
                bb > 0,
        ;
        assert((a.len() as int) * bb * bb == (a.len() - 1) as int * bb * bb + bb * bb)
            by (nonlinear_arith);
    }
}

/// A vector's dot product with itself is never negative.
pub proof fn lemma_dot_self_nonneg(v: Seq<i64>)
    ensures
        dot(v, v) >= 0,
    decreases v.len(),
{
    if v.len() == 0 {
    } else {
        lemma_dot_self_nonneg(v.drop_last());
        let x = v.last() as int;
        assert(x * x >= 0) by (nonlinear_arith);
    }
}

/// The integer square root is nonnegative and squares to at most its
/// argument, while the next integer squares past it.
pub proof fn lemma_isqrt_bounds(n: int)
    requires
        n >= 0,
    ensures
        isqrt_spec(n) >= 0,
        isqrt_spec(n) * isqrt_spec(n) <= n,
        (isqrt_spec(n) + 1) * (isqrt_spec(n) + 1) > n,
    decreases n,
{
    if n == 0 {
    } else {
        lemma_isqrt_bounds(n - 1);
        let r = isqrt_spec(n - 1);
        if (r + 1) * (r + 1) <= n {
            assert((r + 2) * (r + 2) > n) by (nonlinear_arith)
                requires
                    r >= 0,
                    (r + 1) * (r + 1) > n - 1,
                    (r + 1) * (r + 1) <= n,
            ;
        }
    }
}

/// Any `r` bracketed by its own square and the next square is the integer
/// square root.
pub proof fn lemma_isqrt_unique(n: int, r: int)
    requires
        n >= 0,
        r >= 0,
        r * r <= n,
        (r + 1) * (r + 1) > n,
    ensures
        r == isqrt_spec(n),
{
    lemma_isqrt_bounds(n);
    let s = isqrt_spec(n);
    if r < s {
        assert((r + 1) * (r + 1) <= s * s) by (nonlinear_arith)
            requires
                0 <= r,
                r + 1 <= s,
        ;
    }
    if r > s {
        assert((s + 1) * (s + 1) <= r * r) by (nonlinear_arith)
            requires
                0 <= s,
                s + 1 <= r,
        ;
    }
}

/// Executable integer square root by bisection.
///
/// Accepts any `n` below `2^62`, which covers every dot product of
/// well-formed vectors.
fn isqrt64(n: u64) -> (r: u64)
    requires
        (n as int) < 0x4000000000000000,
    ensures
        r as int == isqrt_spec(n as int),
{
    proof {
        lemma_isqrt_bounds(n as int);
    }
    let mut lo: u64 = 0;
    let mut hi: u64 = 0x80000000;
    assert((hi as int) * (hi as int) > n as int);
    while lo + 1 < hi
        invariant
            0 <= lo < hi <= 0x80000000,
            (lo as int) * (lo as int) <= n as int,
            (hi as int) * (hi as int) > n as int,
        decreases hi - lo,
    {
        let mid = lo + (hi - lo) / 2;
        assert(lo < mid < hi);
        assert((mid as int) * (mid as int) < 0x10000000000000000) by (nonlinear_arith)
            requires
                0 <= (mid as int) < 0x80000000,
        ;
        if mid * mid <= n {
            lo = mid;
        } else {
            hi = mid;
        }
    }
    proof {
        lemma_isqrt_unique(n as int, lo as int);
    }
    lo
}

/// Executable dot product; the result is exact.
fn dot_i128(a: &Vec<i64>, b: &Vec<i64>) -> (d: i128)
    requires
        a@.len() == b@.len() <= DIM_MAX,
        forall|i: int| 0 <= i < a@.len() ==> -COMPONENT_BOUND <= #[trigger] a@[i]
            <= COMPONENT_BOUND,
        forall|i: int| 0 <= i < b@.len() ==> -COMPONENT_BOUND <= #[trigger] b@[i]
            <= COMPONENT_BOUND,
    ensures
        d as int == dot(a@, b@),
{
    let ghost bb = COMPONENT_BOUND as int;
    let mut acc: i128 = 0;
    let mut i: usize = 0;
    while i < a.len()
        invariant
            0 <= i <= a@.len(),
            a@.len() == b@.len() <= DIM_MAX,
            forall|j: int| 0 <= j < a@.len() ==> -COMPONENT_BOUND <= #[trigger] a@[j]
                <= COMPONENT_BOUND,
            forall|j: int| 0 <= j < b@.len() ==> -COMPONENT_BOUND <= #[trigger] b@[j]
                <= COMPONENT_BOUND,
            acc as int == dot(a@.take(i as int), b@.take(i as int)),
            -(i as int) * bb * bb <= acc as int <= (i as int) * bb * bb,
            bb == COMPONENT_BOUND as int,
        decreases a@.len() - i,
    {
        let x: i128 = a[i] as i128;
        let y: i128 = b[i] as i128;
        proof {
            assert(-bb * bb <= (x as int) * (y as int) <= bb * bb) by (nonlinear_arith)
                requires
                    -bb <= (x as int) <= bb,
                    -bb <= (y as int) <= bb,
                    bb > 0,
            ;
            assert((i as int) * bb * bb + bb * bb == (i + 1) as int * bb * bb)
                by (nonlinear_arith);
            assert((i as int) * bb * bb <= (DIM_MAX as int) * bb * bb) by (nonlinear_arith)
                requires
                    0 <= (i as int) <= DIM_MAX as int,
                    bb > 0,
            ;
            let ta = a@.take(i + 1);
            let tb = b@.take(i + 1);
            assert(ta.drop_last() =~= a@.take(i as int));
            assert(tb.drop_last() =~= b@.take(i as int));
            assert(ta.last() == a@[i as int]);
            assert(tb.last() == b@[i as int]);
        }
        acc = acc + x * y;
        i += 1;
    }
    proof {
        assert(a@.take(a@.len() as int) =~= a@);
        assert(b@.take(b@.len() as int) =~= b@);
    }
    acc
}

/// Executable scaled cosine distance; returns exactly `distance_spec`.
pub fn distance(q: &Vec<i64>, v: &Vec<i64>) -> (d: i64)
    requires
        q@.len() == v@.len() <= DIM_MAX,
        forall|i: int| 0 <= i < q@.len() ==> -COMPONENT_BOUND <= #[trigger] q@[i]
            <= COMPONENT_BOUND,
        forall|i: int| 0 <= i < v@.len() ==> -COMPONENT_BOUND <= #[trigger] v@[i]
            <= COMPONENT_BOUND,
    ensures
        d as int == distance_spec(q@, v@),
        0 <= d <= 2 * SIM_SCALE,
{
    proof {
        lemma_dot_self_nonneg(q@);
        lemma_dot_self_nonneg(v@);
        lemma_dot_bound(q@, q@);
        lemma_dot_bound(v@, v@);
        lemma_dot_bound(q@, v@);
        assert((DIM_MAX as int) * (COMPONENT_BOUND as int) * (COMPONENT_BOUND as int)
            < 0x4000000000000000);
        assert((q@.len() as int) * (COMPONENT_BOUND as int) * (COMPONENT_BOUND as int) <= (
        DIM_MAX as int) * (COMPONENT_BOUND as int) * (COMPONENT_BOUND as int))
            by (nonlinear_arith)
            requires
                0 <= (q@.len() as int) <= DIM_MAX as int,
                COMPONENT_BOUND as int > 0,
        ;
    }
    let nq: i128 = dot_i128(q, q);
    let nv: i128 = dot_i128(v, v);
    if nq <= 0 || nv <= 0 {
        return SIM_SCALE;
    }
    let d: i128 = dot_i128(q, v);
    let sq: u64 = isqrt64(nq as u64);
    let sv: u64 = isqrt64(nv as u64);
    proof {
        lemma_isqrt_bounds(nq as int);
        lemma_isqrt_bounds(nv as int);
        assert((sq as int) >= 1) by (nonlinear_arith)
            requires
                (sq as int) >= 0,
                ((sq as int) + 1) * ((sq as int) + 1) > nq as int,
                (nq as int) >= 1,
        ;
        assert((sv as int) >= 1) by (nonlinear_arith)
            requires
                (sv as int) >= 0,
                ((sv as int) + 1) * ((sv as int) + 1) > nv as int,
                (nv as int) >= 1,
        ;
        assert((sq as int) * (sq as int) <= nq as int);
        assert((sq as int) <= 0x80000000) by (nonlinear_arith)
            requires
                (sq as int) * (sq as int) <= nq as int,
                (nq as int) < 0x4000000000000000,
                sq as int >= 0,
        ;
        assert((sv as int) <= 0x80000000) by (nonlinear_arith)
            requires
                (sv as int) * (sv as int) <= nv as int,
                (nv as int) < 0x4000000000000000,
                sv as int >= 0,
        ;
        assert((sq as int) * (sv as int) <= 0x80000000 * 0x80000000) by (nonlinear_arith)
            requires
                1 <= (sq as int) <= 0x80000000,
                1 <= (sv as int) <= 0x80000000,
        ;
        assert((sq as int) * (sv as int) >= 1) by (nonlinear_arith)
            requires
                1 <= sq as int,
                1 <= sv as int,
        ;
    }
    let denom: i128 = (sq as i128) * (sv as i128);
    let m: i128 = if d < 0 {
        -d
    } else {
        d
    };
    let mag: i128 = (m * (SIM_SCALE as i128)) / denom;
    proof {
        assert(mag as int >= 0) by (nonlinear_arith)
            requires
                mag as int == (m as int) * (SIM_SCALE as int) / (denom as int),
                m as int >= 0,
                SIM_SCALE as int > 0,
                denom as int >= 1,
        ;
    }
    let mag_c: i128 = if mag > SIM_SCALE as i128 {
        SIM_SCALE as i128
    } else {
        mag
    };
    if d < 0 {
        (SIM_SCALE as i128 + mag_c) as i64
    } else {
        (SIM_SCALE as i128 - mag_c) as i64
    }
}

/// A nonzero vector is at distance zero from itself: the round-trip query
/// that embeds a stored chunk's own vector ranks that chunk closest.
pub proof fn lemma_distance_self_zero(v: Seq<i64>)
    requires
        dot(v, v) > 0,
    ensures
        distance_spec(v, v) == 0,
{
    let n = dot(v, v);
    lemma_isqrt_bounds(n);
    let s = isqrt_spec(n);
    let denom = s * s;
    assert(s >= 1) by (nonlinear_arith)
        requires
            s >= 0,
            (s + 1) * (s + 1) > n,
            n >= 1,
    ;
    assert(denom >= 1) by (nonlinear_arith)
        requires
            s >= 1,
            denom == s * s,
    ;
    assert(denom <= n);
    let sc = SIM_SCALE as int;
    assert(n * sc / denom >= sc) by (nonlinear_arith)
        requires
            1 <= denom <= n,
            sc > 0,
    ;
}

/// Every distance lies between zero and twice the scale.
pub proof fn lemma_distance_range(q: Seq<i64>, v: Seq<i64>)
    ensures
        0 <= distance_spec(q, v) <= 2 * SIM_SCALE,
{
    let nq = dot(q, q);
    let nv = dot(v, v);
    if nq <= 0 || nv <= 0 {
    } else {
        lemma_isqrt_bounds(nq);
        lemma_isqrt_bounds(nv);
        let d = dot(q, v);
        let sq = isqrt_spec(nq);
        let sv = isqrt_spec(nv);
        assert(sq >= 1) by (nonlinear_arith)
            requires
                sq >= 0,
                (sq + 1) * (sq + 1) > nq,
                nq >= 1,
        ;
        assert(sv >= 1) by (nonlinear_arith)
            requires
                sv >= 0,
                (sv + 1) * (sv + 1) > nv,
                nv >= 1,
        ;
        let denom = sq * sv;
        assert(denom >= 1) by (nonlinear_arith)
            requires
                sq >= 1,
                sv >= 1,
                denom == sq * sv,
        ;
        let m = if d < 0 {
            -d
        } else {
            d
        };
        let sc = SIM_SCALE as int;
        assert(m * sc / denom >= 0) by (nonlinear_arith)
            requires
                m >= 0,
                sc > 0,
                denom >= 1,
        ;
    }
}

} // verus!
