//! The binary logarithm of a power, rounded down, without rounding anything on the way.
use vstd::prelude::*;

verus! {

/// `base` to the `exponent`.
pub open spec fn power(base: nat, exponent: nat) -> nat
    decreases exponent,
{
    if exponent == 0 {
        1
    } else {
        base * power(base, (exponent - 1) as nat)
    }
}

/// The largest exponent to which two can be raised without exceeding `v`, and zero for zero.
pub open spec fn floor_log2(v: nat) -> nat
    decreases v,
{
    if v < 2 {
        0
    } else {
        1 + floor_log2(v / 2)
    }
}

/// A number between two neighbouring powers of two has the lower one's exponent as its logarithm.
pub proof fn lemma_floor_log2(v: nat, r: nat)
    requires
        power(2, r) <= v < power(2, r + 1),
    ensures
        floor_log2(v) == r,
    decreases r,
{
    assert(power(2, r + 1) == 2 * power(2, r));
    if r == 0 {
        assert(power(2, 0) == 1);
    } else {
        let below = (r - 1) as nat;
        assert(power(2, r) == 2 * power(2, below));
        assert(power(2, below + 1) == 2 * power(2, below));
        lemma_power_positive(2, below);
        lemma_floor_log2(v / 2, below);
    }
}

/// A power of a positive number is positive.
pub proof fn lemma_power_positive(base: nat, exponent: nat)
    requires
        base > 0,
    ensures
        power(base, exponent) > 0,
    decreases exponent,
{
    if exponent > 0 {
        lemma_power_positive(base, (exponent - 1) as nat);
        assert(base * power(base, (exponent - 1) as nat) > 0) by (nonlinear_arith)
            requires
                base > 0,
                power(base, (exponent - 1) as nat) > 0,
        ;
    }
}

proof fn lemma_power_adds(base: nat, a: nat, b: nat)
    ensures
        power(base, a + b) == power(base, a) * power(base, b),
    decreases a,
{
    if a == 0 {
        assert(power(base, 0) == 1);
    } else {
        lemma_power_adds(base, (a - 1) as nat, b);
        assert((a + b - 1) as nat == (a - 1) as nat + b);
        assert(base * (power(base, (a - 1) as nat) * power(base, b)) == (base * power(
            base,
            (a - 1) as nat,
        )) * power(base, b)) by (nonlinear_arith);
    }
}

/// What one more limb is worth.
spec fn limb_base() -> nat {
    0x1_0000_0000
}

/// What the limb at place `k` is worth.
spec fn weight(k: nat) -> nat {
    power(limb_base(), k)
}

/// The number whose 32-bit limbs are given, the least significant first.
spec fn value(limbs: Seq<u32>) -> nat
    decreases limbs.len(),
{
    if limbs.len() == 0 {
        0
    } else {
        value(limbs.drop_last()) + limbs.last() as nat * weight((limbs.len() - 1) as nat)
    }
}

proof fn lemma_weight_is_a_power_of_two(k: nat)
    ensures
        weight(k) == power(2, 32 * k),
    decreases k,
{
    if k > 0 {
        lemma_weight_is_a_power_of_two((k - 1) as nat);
        lemma_power_adds(2, 32, (32 * (k - 1)) as nat);
        assert(32 + 32 * (k - 1) == 32 * k);
        assert(power(2, 32) == limb_base()) by {
            reveal_with_fuel(power, 33);
        }
    }
}

/// The limbs below a place are worth less than one at that place.
proof fn lemma_value_below(limbs: Seq<u32>)
    ensures
        value(limbs) < weight(limbs.len()),
    decreases limbs.len(),
{
    if limbs.len() > 0 {
        lemma_value_below(limbs.drop_last());
        let w = weight((limbs.len() - 1) as nat);
        let top = limbs.last() as nat;
        assert(weight(limbs.len()) == limb_base() * w);
        assert(value(limbs.drop_last()) + top * w < limb_base() * w) by (nonlinear_arith)
            requires
                value(limbs.drop_last()) < w,
                top + 1 <= limb_base(),
        ;
    }
}

/// The limbs of `limbs` times `n`.
fn times(limbs: &Vec<u32>, n: u64) -> (r: Vec<u32>)
    requires
        n > 0,
        limbs@.len() > 0,
        limbs@.last() != 0,
    ensures
        value(r@) == value(limbs@) * n,
        limbs@.len() <= r@.len() <= limbs@.len() + 2,
        r@.last() != 0,
{
    let mut r: Vec<u32> = Vec::new();
    let mut carry: u64 = 0;
    let mut i: usize = 0;
    proof {
        assert(limbs@.take(0) =~= Seq::empty());
        assert(n as nat * value(limbs@.take(0)) == 0) by (nonlinear_arith)
            requires
                value(limbs@.take(0)) == 0,
        ;
        assert(0nat * weight(0) == 0) by (nonlinear_arith);
    }
    while i < limbs.len()
        invariant
            i <= limbs@.len(),
            r@.len() == i,
            value(r@) + carry as nat * weight(i as nat) == n as nat * value(limbs@.take(i as int)),
            n > 0,
            limbs@.len() > 0,
            limbs@.last() != 0,
            i == limbs@.len() ==> carry > 0 || r@.last() != 0,
        decreases limbs@.len() - i,
    {
        let ghost before = r@;
        let ghost was = carry as nat;
        let limb: u32 = limbs[i];
        assert((limb as u128) * (n as u128) <= 0xffff_ffff * 0xffff_ffff_ffff_ffff)
            by (nonlinear_arith)
            requires
                limb <= 0xffff_ffffu32,
                n <= 0xffff_ffff_ffff_ffffu64,
        ;
        let t: u128 = (limb as u128) * (n as u128) + (carry as u128);
        let low: u32 = (t % 0x1_0000_0000) as u32;
        let next: u64 = (t / 0x1_0000_0000) as u64;
        r.push(low);
        carry = next;
        proof {
            let w = weight(i as nat);
            assert(r@.drop_last() =~= before);
            assert(limbs@.take(i + 1).drop_last() =~= limbs@.take(i as int));
            assert(weight((i + 1) as nat) == limb_base() * w);
            let sum = value(limbs@.take(i as int));
            assert(value(limbs@.take(i + 1)) == sum + limb as nat * w);
            assert(value(r@) == value(before) + low as nat * w);
            assert(low as nat + next as nat * limb_base() == limb as nat * n as nat + was);
            assert(value(before) + low as nat * w + next as nat * (limb_base() * w) == n as nat * (
            sum + limb as nat * w)) by (nonlinear_arith)
                requires
                    value(before) + was * w == n as nat * sum,
                    low as nat + next as nat * limb_base() == limb as nat * n as nat + was,
            ;
            if i + 1 == limbs@.len() {
                assert(limb == limbs@.last());
                assert(limb as nat * n as nat + was > 0) by (nonlinear_arith)
                    requires
                        limb > 0,
                        n > 0,
                ;
            }
        }
        i = i + 1;
    }
    proof {
        assert(limbs@.take(i as int) =~= limbs@);
        assert(n as nat * value(limbs@) == value(limbs@) * n as nat) by (nonlinear_arith);
    }
    if carry > 0 {
        let low: u32 = (carry % 0x1_0000_0000) as u32;
        let high: u32 = (carry / 0x1_0000_0000) as u32;
        let ghost before = r@;
        r.push(low);
        proof {
            assert(r@.drop_last() =~= before);
        }
        let ghost middle = r@;
        if high > 0 {
            r.push(high);
            proof {
                assert(r@.drop_last() =~= middle);
            }
        }
        proof {
            let w = weight(i as nat);
            assert(weight((i + 1) as nat) == limb_base() * w);
            assert(value(middle) == value(before) + low as nat * w);
            assert(high > 0 ==> value(r@) == value(middle) + high as nat * (limb_base() * w));
            assert(low as nat * w + high as nat * (limb_base() * w) == carry as nat * w)
                by (nonlinear_arith)
                requires
                    carry as nat == low as nat + high as nat * limb_base(),
            ;
            if high == 0 {
                assert(high as nat * (limb_base() * w) == 0) by (nonlinear_arith)
                    requires
                        high == 0,
                ;
            }
        }
    } else {
        proof {
            assert(carry as nat * weight(i as nat) == 0) by (nonlinear_arith)
                requires
                    carry == 0,
            ;
        }
    }
    r
}

/// The binary logarithm, rounded down, of `base` to the `exponent`.
pub fn log2_of_power(base: u64, exponent: usize) -> (r: usize)
    requires
        base > 0,
        exponent <= usize::MAX / 64 - 1,
    ensures
        r == floor_log2(power(base as nat, exponent as nat)),
{
    let mut limbs: Vec<u32> = Vec::new();
    limbs.push(1);
    let mut done: usize = 0;
    proof {
        assert(weight(0) == 1);
        assert(limbs@.drop_last() =~= Seq::empty());
        assert(value(limbs@) == 1) by {
            reveal_with_fuel(value, 2);
        }
    }
    while done < exponent
        invariant
            done <= exponent,
            base > 0,
            1 <= limbs@.len() <= 2 * done + 1,
            limbs@.last() != 0,
            value(limbs@) == power(base as nat, done as nat),
        decreases exponent - done,
    {
        let ghost was = value(limbs@);
        limbs = times(&limbs, base);
        proof {
            assert(power(base as nat, (done + 1) as nat) == base as nat * was);
            assert(was * base as nat == base as nat * was) by (nonlinear_arith);
        }
        done = done + 1;
    }
    let places: usize = limbs.len() - 1;
    let top: u32 = limbs[places];
    let mut bits: usize = 0;
    let mut reached: u64 = 1;
    proof {
        assert(power(2, 0) == 1);
    }
    while reached * 2 <= top as u64
        invariant
            reached == power(2, bits as nat),
            reached <= top,
            bits <= 31,
            reached >= bits + 1,
        decreases top - reached,
    {
        proof {
            assert(power(2, (bits + 1) as nat) == 2 * power(2, bits as nat));
            if bits >= 31 {
                lemma_power_adds(2, 31, (bits - 31) as nat);
                assert(power(2, 31) == 0x8000_0000) by {
                    reveal_with_fuel(power, 32);
                }
                assert(bits == 31);
            }
        }
        reached = reached * 2;
        bits = bits + 1;
    }
    let r: usize = 32 * places + bits;
    proof {
        let w = weight(places as nat);
        let rest = value(limbs@.drop_last());
        lemma_value_below(limbs@.drop_last());
        lemma_weight_is_a_power_of_two(places as nat);
        lemma_power_adds(2, bits as nat, (32 * places) as nat);
        lemma_power_adds(2, (bits + 1) as nat, (32 * places) as nat);
        assert(power(2, (bits + 1) as nat) == 2 * power(2, bits as nat));
        assert(reached as nat * w <= rest + top as nat * w < (2 * reached as nat) * w)
            by (nonlinear_arith)
            requires
                reached <= top,
                top + 1 <= 2 * reached,
                rest < w,
        ;
        lemma_floor_log2(value(limbs@), r as nat);
    }
    r
}

/// A power is the base multiplied with itself, and powers of one base multiply by adding exponents.
pub proof fn law_powers_multiply(base: nat, a: nat, b: nat)
    ensures
        power(base, 0) == 1,
        power(base, 1) == base,
        power(base, a + b) == power(base, a) * power(base, b),
{
    assert(power(base, 0) == 1);
    assert(power(base, 1) == base * power(base, 0));
    lemma_power_adds(base, a, b);
}

/// The logarithm of a positive number is the exponent of the largest power of two within it.
pub proof fn law_the_logarithm_is_the_largest_exponent(v: nat)
    requires
        v > 0,
    ensures
        power(2, floor_log2(v)) <= v < power(2, floor_log2(v) + 1),
    decreases v,
{
    let r = floor_log2(v);
    assert(power(2, 0) == 1);
    assert(power(2, r + 1) == 2 * power(2, r));
    if v >= 2 {
        law_the_logarithm_is_the_largest_exponent(v / 2);
        let below = floor_log2(v / 2);
        assert(r == below + 1);
        assert(power(2, r) == 2 * power(2, below));
    }
}

/// A power of two is no larger than one of a larger exponent.
pub proof fn lemma_power_of_two_grows(a: nat, b: nat)
    requires
        a <= b,
    ensures
        power(2, a) <= power(2, b),
    decreases b,
{
    if a < b {
        lemma_power_of_two_grows(a, (b - 1) as nat);
        assert(power(2, b) == 2 * power(2, (b - 1) as nat));
    }
}

} // verus!
