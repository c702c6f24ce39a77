//! Binomial coefficients for Bézier curves of any degree.

use vstd::prelude::*;

verus! {

/// The binomial coefficient `n` choose `k`; zero for `k` outside `0..=n`.
pub open spec fn binomial(n: nat, k: int) -> int
    decreases n,
{
    if k < 0 || k > n {
        0
    } else if n == 0 {
        1
    } else {
        binomial((n - 1) as nat, k - 1) + binomial((n - 1) as nat, k)
    }
}

/// Row `n` of Pascal's triangle with a zero on each side.
pub open spec fn padded_row(n: nat) -> Seq<i32> {
    Seq::new(n + 3, |j: int| binomial(n, j - 1) as i32)
}

/// Choosing `k` or leaving out `k` is the same: `n` choose `k` equals `n` choose `n - k`.
pub proof fn law_binomial_symmetric(n: nat, k: int)
    ensures
        binomial(n, k) == binomial(n, n - k),
    decreases n,
{
    if n > 0 {
        law_binomial_symmetric((n - 1) as nat, k - 1);
        law_binomial_symmetric((n - 1) as nat, k);
    }
}

proof fn lemma_binomial_nonneg(n: nat, k: int)
    ensures
        binomial(n, k) >= 0,
    decreases n,
{
    if n > 0 {
        lemma_binomial_nonneg((n - 1) as nat, k - 1);
        lemma_binomial_nonneg((n - 1) as nat, k);
    }
}

/// Coefficients grow down the columns of the triangle.
proof fn lemma_binomial_grows(i: nat, n: nat, k: int)
    requires
        i <= n,
    ensures
        binomial(i, k) <= binomial(n, k),
    decreases n - i,
{
    if i < n {
        lemma_binomial_grows(i, (n - 1) as nat, k);
        lemma_binomial_nonneg((n - 1) as nat, k - 1);
    }
}

/// The row `n` of Pascal's triangle: `n` choose `k` for `k` from 0 to `n`.
pub fn pascal_triangle(n: usize) -> (r: Vec<i32>)
    requires
        n < usize::MAX - 3,
        forall|k: int| 0 <= k <= n ==> #[trigger] binomial(n as nat, k) <= i32::MAX,
    ensures
        r@.len() == n + 1,
        forall|k: int| 0 <= k <= n ==> #[trigger] r@[k] as int == binomial(n as nat, k),
{
    if n == 0 {
        return vec![1];
    }
    if n == 1 {
        let r = vec![1, 1];
        assert(binomial(1, 0) == 1 && binomial(1, 1) == 1) by {
            assert(binomial(0, -1) == 0 && binomial(0, 0) == 1 && binomial(0, 1) == 0);
        }
        return r;
    }
    let mut p: Vec<Vec<i32>> = vec![vec![0, 1, 0]];
    assert(p@[0]@ =~= padded_row(0)) by {
        assert(binomial(0, -1) == 0 && binomial(0, 0) == 1 && binomial(0, 1) == 0);
    }
    let mut i: usize = 1;
    while i <= n
        invariant
            2 <= n < usize::MAX - 3,
            forall|k: int| 0 <= k <= n ==> #[trigger] binomial(n as nat, k) <= i32::MAX,
            1 <= i <= n + 1,
            p@.len() == i,
            forall|m: int| 0 <= m < i ==> (#[trigger] p@[m])@ == padded_row(m as nat),
        decreases n + 1 - i,
    {
        let mut row: Vec<i32> = Vec::new();
        row.push(0);
        let mut j: usize = 0;
        assert(p@[i - 1]@ == padded_row((i - 1) as nat));
        while j < i + 1
            invariant
                2 <= n < usize::MAX - 3,
                forall|k: int| 0 <= k <= n ==> #[trigger] binomial(n as nat, k) <= i32::MAX,
                1 <= i <= n,
                p@.len() == i,
                forall|m: int| 0 <= m < i ==> (#[trigger] p@[m])@ == padded_row(m as nat),
                j <= i + 1,
                row@.len() == j + 1,
                forall|t: int| 0 <= t < j + 1 ==> #[trigger] row@[t] as int == binomial(i as nat, t - 1),
            decreases i + 1 - j,
        {
            let ghost m = (i - 1) as nat;
            proof {
                law_binomial_symmetric(m, j as int);
                lemma_binomial_grows(i as nat, n as nat, j as int);
                lemma_binomial_nonneg(m, j - 1);
                lemma_binomial_nonneg(m, j as int);
                lemma_binomial_nonneg(i as nat, j as int);
            }
            let a = p[i - 1][j];
            let b = p[i - 1][i - j];
            assert(a as int == binomial(m, j - 1));
            assert(b as int == binomial(m, i - j - 1));
            assert(binomial(m, i - j - 1) == binomial(m, j as int));
            row.push(a + b);
            j = j + 1;
        }
        row.push(0);
        proof {
            assert(row@ =~= padded_row(i as nat));
        }
        p.push(row);
        i = i + 1;
    }
    let ret = p.pop().unwrap();
    assert(ret@ == padded_row(n as nat));
    let mut out: Vec<i32> = Vec::new();
    let mut k: usize = 1;
    while k < ret.len() - 1
        invariant
            forall|k: int| 0 <= k <= n ==> #[trigger] binomial(n as nat, k) <= i32::MAX,
            ret@ == padded_row(n as nat),
            1 <= k <= n + 2,
            out@.len() == k - 1,
            forall|t: int| 0 <= t < k - 1 ==> #[trigger] out@[t] as int == binomial(n as nat, t),
        decreases n + 2 - k,
    {
        proof {
            lemma_binomial_nonneg(n as nat, k - 1);
            assert(binomial(n as nat, k - 1) <= i32::MAX);
        }
        out.push(ret[k]);
        k = k + 1;
    }
    out
}

} // verus!
