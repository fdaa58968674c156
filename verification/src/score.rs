//! Exact integer scoring of vectors against a query target.
//!
//! Components are fixed-point integers, so every score is computed exactly:
//! the squared Euclidean distance for distance metrics, the dot product for
//! similarity metrics, and the sparse dot product over matching indices for
//! sparse targets. All arithmetic is carried out in 128 bits and proved free
//! of overflow.

use vstd::prelude::*;

use crate::types::MetricType;

verus! {

/// The squared Euclidean distance between two component sequences of one
/// length.
pub open spec fn l2_dist(a: Seq<i32>, b: Seq<i32>) -> int
    decreases a.len(),
{
    if a.len() == 0 || b.len() == 0 {
        0
    } else {
        (a[0] - b[0]) * (a[0] - b[0]) + l2_dist(a.drop_first(), b.drop_first())
    }
}

/// The dot product of two component sequences of one length.
pub open spec fn dot(a: Seq<i32>, b: Seq<i32>) -> int
    decreases a.len(),
{
    if a.len() == 0 || b.len() == 0 {
        0
    } else {
        a[0] * b[0] + dot(a.drop_first(), b.drop_first())
    }
}

/// The index of the first occurrence of `x`, or -1 when there is none.
pub open spec fn idx_of<T>(s: Seq<T>, x: T) -> int
    decreases s.len(),
{
    if s.len() == 0 {
        -1
    } else if s[0] == x {
        0
    } else {
        let r = idx_of(s.drop_first(), x);
        if r < 0 {
            -1
        } else {
            r + 1
        }
    }
}

/// `idx_of` names the first occurrence, when there is one.
pub proof fn lemma_idx_of<T>(s: Seq<T>, x: T)
    ensures
        idx_of(s, x) == -1 || (0 <= idx_of(s, x) < s.len()),
        idx_of(s, x) >= 0 ==> s[idx_of(s, x)] == x,
        forall|j: int|
            0 <= j < s.len() && (idx_of(s, x) == -1 || j < idx_of(s, x)) ==> s[j] != x,
    decreases s.len(),
{
    if s.len() > 0 && s[0] != x {
        lemma_idx_of(s.drop_first(), x);
        assert forall|j: int|
            0 <= j < s.len() && (idx_of(s, x) == -1 || j < idx_of(s, x)) implies s[j] != x by {
            if j > 0 {
                assert(s.drop_first()[j - 1] == s[j]);
            }
        }
    }
}

/// The contribution of one sparse query pair: the product with the document
/// component stored under the same index, or 0 when the document has none.
pub open spec fn sparse_term(qx: u32, qv: i32, di: Seq<u32>, dv: Seq<i32>) -> int {
    let i = idx_of(di, qx);
    if 0 <= i < dv.len() {
        qv * dv[i]
    } else {
        0
    }
}

/// The sparse dot product: the sum, over the query's index/value pairs, of
/// the products with the document components stored under the same indices.
pub open spec fn sparse_dot(qi: Seq<u32>, qv: Seq<i32>, di: Seq<u32>, dv: Seq<i32>) -> int
    decreases qi.len(),
{
    if qi.len() == 0 || qv.len() == 0 {
        0
    } else {
        sparse_term(qi[0], qv[0], di, dv) + sparse_dot(qi.drop_first(), qv.drop_first(), di, dv)
    }
}

/// Whether score `s1` ranks no worse than `s2` under the metric: no larger
/// for a distance metric, no smaller for a similarity metric.
pub open spec fn rank_leq(metric: MetricType, s1: int, s2: int) -> bool {
    if metric.is_distance_spec() {
        s1 <= s2
    } else {
        s1 >= s2
    }
}

/// Compute the squared Euclidean distance of two equally long vectors.
pub fn l2_distance(a: &Vec<i32>, b: &Vec<i32>) -> (d: i128)
    requires
        a@.len() == b@.len(),
        a@.len() <= u32::MAX,
    ensures
        d == l2_dist(a@, b@),
{
    let n = a.len();
    let mut sum: i128 = 0;
    proof {
        assert(a@.skip(0) =~= a@);
        assert(b@.skip(0) =~= b@);
    }
    for i in 0..n
        invariant
            n == a.len() == b.len(),
            n <= u32::MAX,
            sum + l2_dist(a@.skip(i as int), b@.skip(i as int)) == l2_dist(a@, b@),
            0 <= sum <= (i as int) * 0x1_0000_0000_0000_0000,
    {
        let av = a[i] as i64;
        let bv = b[i] as i64;
        let diff = av - bv;
        proof {
            assert(0 <= (diff as i128) * (diff as i128) <= 0x1_0000_0000_0000_0000)
                by (nonlinear_arith)
                requires
                    -0x1_0000_0000 <= diff <= 0x1_0000_0000,
            ;
        }
        let term: i128 = (diff as i128) * (diff as i128);
        proof {
            assert((i as int) * 0x1_0000_0000_0000_0000 <= 0x1_0000_0000 * 0x1_0000_0000_0000_0000)
                by (nonlinear_arith)
                requires
                    0 <= i <= 0x1_0000_0000,
            ;
            let sa = a@.skip(i as int);
            let sb = b@.skip(i as int);
            assert(sa[0] == a@[i as int] && sb[0] == b@[i as int]);
            assert(sa.drop_first() =~= a@.skip(i + 1));
            assert(sb.drop_first() =~= b@.skip(i + 1));
            assert(l2_dist(sa, sb) == term + l2_dist(a@.skip(i + 1), b@.skip(i + 1)));
        }
        sum = sum + term;
    }
    proof {
        assert(a@.skip(n as int) =~= Seq::<i32>::empty());
        assert(b@.skip(n as int) =~= Seq::<i32>::empty());
    }
    sum
}

/// Compute the dot product of two equally long vectors.
pub fn dot_product(a: &Vec<i32>, b: &Vec<i32>) -> (d: i128)
    requires
        a@.len() == b@.len(),
        a@.len() <= u32::MAX,
    ensures
        d == dot(a@, b@),
{
    let n = a.len();
    let mut sum: i128 = 0;
    proof {
        assert(a@.skip(0) =~= a@);
        assert(b@.skip(0) =~= b@);
    }
    for i in 0..n
        invariant
            n == a.len() == b.len(),
            n <= u32::MAX,
            sum + dot(a@.skip(i as int), b@.skip(i as int)) == dot(a@, b@),
            -((i as int) * 0x4000_0000_0000_0000) <= sum <= (i as int) * 0x4000_0000_0000_0000,
    {
        let av = a[i] as i64;
        let bv = b[i] as i64;
        proof {
            assert(-0x4000_0000_0000_0000 <= (av as i128) * (bv as i128) <= 0x4000_0000_0000_0000)
                by (nonlinear_arith)
                requires
                    -0x8000_0000 <= av <= 0x8000_0000,
                    -0x8000_0000 <= bv <= 0x8000_0000,
            ;
        }
        let term: i128 = (av as i128) * (bv as i128);
        proof {
            assert((i as int) * 0x4000_0000_0000_0000 <= 0x1_0000_0000 * 0x4000_0000_0000_0000)
                by (nonlinear_arith)
                requires
                    0 <= i <= 0x1_0000_0000,
            ;
            let sa = a@.skip(i as int);
            let sb = b@.skip(i as int);
            assert(sa[0] == a@[i as int] && sb[0] == b@[i as int]);
            assert(sa.drop_first() =~= a@.skip(i + 1));
            assert(sb.drop_first() =~= b@.skip(i + 1));
            assert(dot(sa, sb) == term + dot(a@.skip(i + 1), b@.skip(i + 1)));
        }
        sum = sum + term;
    }
    proof {
        assert(a@.skip(n as int) =~= Seq::<i32>::empty());
        assert(b@.skip(n as int) =~= Seq::<i32>::empty());
    }
    sum
}

/// Find the first occurrence of `x` among the stored sparse indices.
fn find_index(di: &Vec<u32>, x: u32) -> (r: Option<usize>)
    ensures
        match r {
            Some(i) => i < di@.len() && idx_of(di@, x) == i,
            None => idx_of(di@, x) == -1,
        },
{
    let n = di.len();
    proof {
        lemma_idx_of(di@, x);
    }
    for i in 0..n
        invariant
            n == di.len(),
            forall|j: int| 0 <= j < i ==> di@[j] != x,
            idx_of(di@, x) == -1 || 0 <= idx_of(di@, x) < di@.len(),
            idx_of(di@, x) >= 0 ==> di@[idx_of(di@, x)] == x,
            forall|j: int|
                0 <= j < di@.len() && (idx_of(di@, x) == -1 || j < idx_of(di@, x)) ==> di@[j] != x,
    {
        if di[i] == x {
            return Some(i);
        }
    }
    None
}

/// Compute the sparse dot product of a query's index/value pairs against a
/// document's.
pub fn sparse_dot_product(qi: &Vec<u32>, qv: &Vec<i32>, di: &Vec<u32>, dv: &Vec<i32>) -> (d: i128)
    ensures
        d == sparse_dot(qi@, qv@, di@, dv@),
{
    let n = if qi.len() <= qv.len() {
        qi.len()
    } else {
        qv.len()
    };
    let mut sum: i128 = 0;
    proof {
        assert(qi@.skip(0) =~= qi@);
        assert(qv@.skip(0) =~= qv@);
    }
    for k in 0..n
        invariant
            n <= qi.len() && n <= qv.len(),
            n == qi.len() || n == qv.len(),
            sum + sparse_dot(qi@.skip(k as int), qv@.skip(k as int), di@, dv@) == sparse_dot(
                qi@,
                qv@,
                di@,
                dv@,
            ),
            -((k as int) * 0x4000_0000_0000_0000) <= sum <= (k as int) * 0x4000_0000_0000_0000,
    {
        let mut term: i128 = 0;
        if let Some(i) = find_index(di, qi[k]) {
            if i < dv.len() {
                let x = qv[k] as i128;
                let y = dv[i] as i128;
                proof {
                    assert(-0x4000_0000_0000_0000 <= x * y <= 0x4000_0000_0000_0000)
                        by (nonlinear_arith)
                        requires
                            -0x8000_0000 <= x <= 0x8000_0000,
                            -0x8000_0000 <= y <= 0x8000_0000,
                    ;
                }
                term = x * y;
            }
        }
        proof {
            assert((k as int) * 0x4000_0000_0000_0000 <= 0xffff_ffff_ffff_ffff
                * 0x4000_0000_0000_0000) by (nonlinear_arith)
                requires
                    0 <= k <= 0xffff_ffff_ffff_ffff,
            ;
            assert(term == sparse_term(qi@[k as int], qv@[k as int], di@, dv@));
            let sqi = qi@.skip(k as int);
            let sqv = qv@.skip(k as int);
            assert(sqi[0] == qi@[k as int] && sqv[0] == qv@[k as int]);
            assert(sqi.drop_first() =~= qi@.skip(k + 1));
            assert(sqv.drop_first() =~= qv@.skip(k + 1));
            assert(sparse_dot(sqi, sqv, di@, dv@) == sparse_term(qi@[k as int], qv@[k as int], di@, dv@)
                + sparse_dot(qi@.skip(k + 1), qv@.skip(k + 1), di@, dv@));
        }
        sum = sum + term;
    }
    proof {
        if n == qi.len() {
            assert(qi@.skip(n as int) =~= Seq::<u32>::empty());
        } else {
            assert(qv@.skip(n as int) =~= Seq::<i32>::empty());
        }
    }
    sum
}

} // verus!
