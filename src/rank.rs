use vstd::prelude::*;
use vstd::arithmetic::power2::{pow2, lemma2_to64, lemma_pow2_adds, lemma_pow2_unfold};

verus! {

/// floor(log2(x)), with the value 0 for x in {0, 1}.
pub open spec fn floor_log2(x: nat) -> nat
    decreases x,
{
    if x < 2 {
        0
    } else {
        1 + floor_log2(x / 2)
    }
}

/// `r` is floor(sqrt(m)).
pub open spec fn is_floor_sqrt(r: nat, m: nat) -> bool {
    r * r <= m && m < (r + 1) * (r + 1)
}

/// The number of columns k of V for a problem of size n and a configured
/// rank: 0 asks for floor(2 log2 n) (written as floor(log2(n^2)), which is
/// the same number for n >= 1 and 0 for n = 0), 1 asks for floor(sqrt(2n)),
/// and any other value is taken as k itself.
pub open spec fn rank_policy_holds(n: nat, rank: nat, k: nat) -> bool {
    if rank == 0 {
        k == floor_log2(n * n)
    } else if rank == 1 {
        is_floor_sqrt(k, 2 * n)
    } else {
        k == rank
    }
}

proof fn lemma_floor_log2_below(x: nat, e: nat)
    requires
        1 <= e,
        x < pow2(e),
    ensures
        floor_log2(x) < e,
    decreases e,
{
    if x >= 2 {
        lemma_pow2_unfold(e);
        if e == 1 {
            lemma2_to64();
        } else {
            lemma_floor_log2_below(x / 2, (e - 1) as nat);
        }
    }
}

fn floor_log2_u128(m: u128) -> (l: usize)
    ensures
        l == floor_log2(m as nat),
        l < 128,
{
    proof {
        lemma2_to64();
        lemma_pow2_adds(64, 64);
        lemma_floor_log2_below(m as nat, 128);
    }
    let mut x: u128 = m;
    let mut l: usize = 0;
    while x >= 2
        invariant
            l + floor_log2(x as nat) == floor_log2(m as nat),
            floor_log2(m as nat) < 128,
        decreases x,
    {
        x = x / 2;
        l = l + 1;
    }
    l
}

fn floor_sqrt_u128(m: u128) -> (r: u128)
    requires
        m < 0x4_0000_0000_0000_0000,
    ensures
        is_floor_sqrt(r as nat, m as nat),
{
    let mut lo: u128 = 0;
    let mut hi: u128 = 0x2_0000_0000;
    assert(m < hi * hi) by (nonlinear_arith)
        requires
            m < 0x4_0000_0000_0000_0000,
            hi == 0x2_0000_0000,
    ;
    while hi - lo > 1
        invariant
            lo < hi <= 0x2_0000_0000,
            lo * lo <= m,
            m < hi * hi,
        decreases hi - lo,
    {
        let mid: u128 = lo + (hi - lo) / 2;
        assert(mid * mid <= 0x4_0000_0000_0000_0000) by (nonlinear_arith)
            requires
                mid <= 0x2_0000_0000,
        ;
        if mid * mid <= m {
            lo = mid;
        } else {
            hi = mid;
        }
    }
    assert(hi == lo + 1);
    lo
}

/// Chooses the number of columns k of the factor V (see `rank_policy_holds`).
pub fn factor_rank(n: usize, rank: usize) -> (k: usize)
    ensures
        rank_policy_holds(n as nat, rank as nat, k as nat),
{
    if rank == 0 {
        assert((n as u128) * (n as u128) <= u128::MAX) by (nonlinear_arith)
            requires
                n <= 0xffff_ffff_ffff_ffff,
        ;
        let m: u128 = (n as u128) * (n as u128);
        floor_log2_u128(m)
    } else if rank == 1 {
        let m: u128 = 2 * (n as u128);
        let r = floor_sqrt_u128(m);
        assert(r <= n) by (nonlinear_arith)
            requires
                r * r <= 2 * n,
        ;
        r as usize
    } else {
        rank
    }
}

} // verus!
