use vstd::prelude::*;

verus! {

/// `n` rounded up to the next multiple of `to`; `n` itself when `to` is zero.
pub open spec fn align_up(n: int, to: int) -> int {
    if to == 0 || n % to == 0 {
        n
    } else {
        n / to * to + to
    }
}

/// Rounds `num` up to the next multiple of `to` (`num` unchanged when `to` is zero).
pub fn align(num: u64, to: u64) -> (r: u64)
    requires
        align_up(num as int, to as int) <= u64::MAX,
    ensures
        r == align_up(num as int, to as int),
{
    if to == 0 || num % to == 0 {
        num
    } else {
        proof {
            lemma_align(num as int, to as int);
        }
        num / to * to + to
    }
}

/// Alignment law: for every `n >= 0` and positive `to`, `align_up(n, to)` is a
/// multiple of `to`, is at least `n`, and exceeds `n` by less than `to`.
pub proof fn lemma_align(n: int, to: int)
    requires
        n >= 0,
        to > 0,
    ensures
        align_up(n, to) % to == 0,
        align_up(n, to) >= n,
        align_up(n, to) < n + to,
        n / to * to >= 0,
        n / to * to <= n,
{
    vstd::arithmetic::div_mod::lemma_fundamental_div_mod(n, to);
    vstd::arithmetic::div_mod::lemma_div_pos_is_pos(n, to);
    vstd::arithmetic::mul::lemma_mul_nonnegative(n / to, to);
    vstd::arithmetic::mul::lemma_mul_is_commutative(to, n / to);
    vstd::arithmetic::div_mod::lemma_mod_multiples_basic(n / to, to);
    if n % to != 0 {
        vstd::arithmetic::div_mod::lemma_mod_multiples_basic(n / to + 1, to);
        vstd::arithmetic::mul::lemma_mul_is_distributive_add_other_way(to, n / to, 1);
    }
}

/// Rounding a value within a block of `u64::MAX` up to the block size does
/// not fit in a `u64`.
pub proof fn lemma_align_past_max(n: int)
    requires
        n > u64::MAX - 511,
    ensures
        align_up(n, 512) > u64::MAX,
{
    lemma_align(n, 512);
    let a = align_up(n, 512);
    if a <= u64::MAX {
        vstd::arithmetic::div_mod::lemma_fundamental_div_mod(a, 512);
        let k = a / 512;
        assert(a == 512 * k);
        assert(false) by (nonlinear_arith)
            requires
                a == 512 * k,
                a > 0xffff_ffff_ffff_fe00int,
                a <= 0xffff_ffff_ffff_ffffint,
        ;
    }
}

} // verus!
