//! Pseudo-random numbers: a 16-bit linear congruential generator and the
//! mixing step of the watchdog-jitter seed.

use vstd::prelude::*;

verus! {

/// One LCG step: `s * 25173 + 13849` modulo 2^16.
pub open spec fn lcg(s: u16) -> u16 {
    ((s as int * 25173 + 13849) % 65536) as u16
}

/// Advance the LCG state by one step (a permutation of the 16-bit states
/// that runs through all of them, see [`lemma_full_period`]).
pub fn next_rand(s: u16) -> (n: u16)
    ensures
        n == lcg(s),
{
    let m = s.wrapping_mul(25173);
    let n = m.wrapping_add(13849);
    proof {
        let a = s as int * 25173;
        assert(m as int == a % 65536);
        vstd::arithmetic::div_mod::lemma_add_mod_noop(a, 13849, 65536);
        assert(13849int % 65536 == 13849);
        assert((m as int + 13849) % 65536 == (a + 13849) % 65536);
        if m as int + 13849 > 65535 {
            vstd::arithmetic::div_mod::lemma_fundamental_div_mod(m as int + 13849, 65536);
            assert((m as int + 13849) / 65536 == 1) by (nonlinear_arith)
                requires
                    65536 <= m as int + 13849 < 2 * 65536,
            ;
        } else {
            vstd::arithmetic::div_mod::lemma_small_mod((m as int + 13849) as nat, 65536);
        }
    }
    n
}

/// `n` steps of the generator from `s`.
pub open spec fn lcg_iter(s: u16, n: nat) -> u16
    decreases n,
{
    if n == 0 {
        s
    } else {
        lcg(lcg_iter(s, (n - 1) as nat))
    }
}

/// `2^t`.
pub open spec fn two_pow(t: nat) -> nat
    decreases t,
{
    if t == 0 {
        1
    } else {
        2 * two_pow((t - 1) as nat)
    }
}

/// Multiplier of the affine map that `2^t` steps make (see [`jump`]).
spec fn jump_mul(t: nat) -> int {
    if t == 0 {
        25173
    } else if t == 1 {
        12345
    } else if t == 2 {
        27825
    } else if t == 3 {
        53857
    } else if t == 4 {
        18625
    } else if t == 5 {
        8577
    } else if t == 6 {
        33537
    } else if t == 7 {
        1537
    } else if t == 8 {
        3073
    } else if t == 9 {
        6145
    } else if t == 10 {
        12289
    } else if t == 11 {
        24577
    } else if t == 12 {
        49153
    } else if t == 13 {
        32769
    } else if t == 14 {
        1
    } else if t == 15 {
        1
    } else {
        1
    }
}

/// Increment of the affine map that `2^t` steps make (see [`jump`]).
spec fn jump_add(t: nat) -> int {
    if t == 0 {
        13849
    } else if t == 1 {
        48742
    } else if t == 2 {
        17180
    } else if t == 3 {
        31096
    } else if t == 4 {
        61424
    } else if t == 5 {
        21472
    } else if t == 6 {
        30656
    } else if t == 7 {
        12160
    } else if t == 8 {
        24320
    } else if t == 9 {
        48640
    } else if t == 10 {
        31744
    } else if t == 11 {
        63488
    } else if t == 12 {
        61440
    } else if t == 13 {
        57344
    } else if t == 14 {
        49152
    } else if t == 15 {
        32768
    } else {
        0
    }
}

/// What `2^t` steps do to a state: again an affine map modulo 2^16, whose
/// coefficients come from squaring the map of `2^(t-1)` steps.
spec fn jump(t: nat, y: u16) -> u16 {
    ((y as int * jump_mul(t) + jump_add(t)) % 65536) as u16
}

/// The map of `2^t` steps applied twice is the map of `2^(t+1)` steps, and
/// it adds `2^t` modulo `2^(t+1)`.
proof fn lemma_jump_step(t: nat, y: u16)
    requires
        t < 16,
    ensures
        jump(t, jump(t, y)) == jump(t + 1, y),
        jump(t, y) as int % (2 * two_pow(t)) as int == (y as int + two_pow(t)) % (2 * two_pow(t)) as int,
{
    // the coefficient tables, checked on 16-bit words
    reveal_with_fuel(two_pow, 17);
    if t == 0 {
        assert(
            ((((y as u64 * 25173 + 13849) % 65536) * 25173 + 13849) % 65536) as u16
                == ((y as u64 * 12345 + 48742) % 65536) as u16
            && (((y as u64 * 25173 + 13849) % 65536) % 2) as u16
                == ((y as u64 + 1) % 2) as u16
        ) by (bit_vector);
    } else if t == 1 {
        assert(
            ((((y as u64 * 12345 + 48742) % 65536) * 12345 + 48742) % 65536) as u16
                == ((y as u64 * 27825 + 17180) % 65536) as u16
            && (((y as u64 * 12345 + 48742) % 65536) % 4) as u16
                == ((y as u64 + 2) % 4) as u16
        ) by (bit_vector);
    } else if t == 2 {
        assert(
            ((((y as u64 * 27825 + 17180) % 65536) * 27825 + 17180) % 65536) as u16
                == ((y as u64 * 53857 + 31096) % 65536) as u16
            && (((y as u64 * 27825 + 17180) % 65536) % 8) as u16
                == ((y as u64 + 4) % 8) as u16
        ) by (bit_vector);
    } else if t == 3 {
        assert(
            ((((y as u64 * 53857 + 31096) % 65536) * 53857 + 31096) % 65536) as u16
                == ((y as u64 * 18625 + 61424) % 65536) as u16
            && (((y as u64 * 53857 + 31096) % 65536) % 16) as u16
                == ((y as u64 + 8) % 16) as u16
        ) by (bit_vector);
    } else if t == 4 {
        assert(
            ((((y as u64 * 18625 + 61424) % 65536) * 18625 + 61424) % 65536) as u16
                == ((y as u64 * 8577 + 21472) % 65536) as u16
            && (((y as u64 * 18625 + 61424) % 65536) % 32) as u16
                == ((y as u64 + 16) % 32) as u16
        ) by (bit_vector);
    } else if t == 5 {
        assert(
            ((((y as u64 * 8577 + 21472) % 65536) * 8577 + 21472) % 65536) as u16
                == ((y as u64 * 33537 + 30656) % 65536) as u16
            && (((y as u64 * 8577 + 21472) % 65536) % 64) as u16
                == ((y as u64 + 32) % 64) as u16
        ) by (bit_vector);
    } else if t == 6 {
        assert(
            ((((y as u64 * 33537 + 30656) % 65536) * 33537 + 30656) % 65536) as u16
                == ((y as u64 * 1537 + 12160) % 65536) as u16
            && (((y as u64 * 33537 + 30656) % 65536) % 128) as u16
                == ((y as u64 + 64) % 128) as u16
        ) by (bit_vector);
    } else if t == 7 {
        assert(
            ((((y as u64 * 1537 + 12160) % 65536) * 1537 + 12160) % 65536) as u16
                == ((y as u64 * 3073 + 24320) % 65536) as u16
            && (((y as u64 * 1537 + 12160) % 65536) % 256) as u16
                == ((y as u64 + 128) % 256) as u16
        ) by (bit_vector);
    } else if t == 8 {
        assert(
            ((((y as u64 * 3073 + 24320) % 65536) * 3073 + 24320) % 65536) as u16
                == ((y as u64 * 6145 + 48640) % 65536) as u16
            && (((y as u64 * 3073 + 24320) % 65536) % 512) as u16
                == ((y as u64 + 256) % 512) as u16
        ) by (bit_vector);
    } else if t == 9 {
        assert(
            ((((y as u64 * 6145 + 48640) % 65536) * 6145 + 48640) % 65536) as u16
                == ((y as u64 * 12289 + 31744) % 65536) as u16
            && (((y as u64 * 6145 + 48640) % 65536) % 1024) as u16
                == ((y as u64 + 512) % 1024) as u16
        ) by (bit_vector);
    } else if t == 10 {
        assert(
            ((((y as u64 * 12289 + 31744) % 65536) * 12289 + 31744) % 65536) as u16
                == ((y as u64 * 24577 + 63488) % 65536) as u16
            && (((y as u64 * 12289 + 31744) % 65536) % 2048) as u16
                == ((y as u64 + 1024) % 2048) as u16
        ) by (bit_vector);
    } else if t == 11 {
        assert(
            ((((y as u64 * 24577 + 63488) % 65536) * 24577 + 63488) % 65536) as u16
                == ((y as u64 * 49153 + 61440) % 65536) as u16
            && (((y as u64 * 24577 + 63488) % 65536) % 4096) as u16
                == ((y as u64 + 2048) % 4096) as u16
        ) by (bit_vector);
    } else if t == 12 {
        assert(
            ((((y as u64 * 49153 + 61440) % 65536) * 49153 + 61440) % 65536) as u16
                == ((y as u64 * 32769 + 57344) % 65536) as u16
            && (((y as u64 * 49153 + 61440) % 65536) % 8192) as u16
                == ((y as u64 + 4096) % 8192) as u16
        ) by (bit_vector);
    } else if t == 13 {
        assert(
            ((((y as u64 * 32769 + 57344) % 65536) * 32769 + 57344) % 65536) as u16
                == ((y as u64 * 1 + 49152) % 65536) as u16
            && (((y as u64 * 32769 + 57344) % 65536) % 16384) as u16
                == ((y as u64 + 8192) % 16384) as u16
        ) by (bit_vector);
    } else if t == 14 {
        assert(
            ((((y as u64 * 1 + 49152) % 65536) * 1 + 49152) % 65536) as u16
                == ((y as u64 * 1 + 32768) % 65536) as u16
            && (((y as u64 * 1 + 49152) % 65536) % 32768) as u16
                == ((y as u64 + 16384) % 32768) as u16
        ) by (bit_vector);
    } else if t == 15 {
        assert(
            ((((y as u64 * 1 + 32768) % 65536) * 1 + 32768) % 65536) as u16
                == ((y as u64 * 1 + 0) % 65536) as u16
            && (((y as u64 * 1 + 32768) % 65536) % 65536) as u16
                == ((y as u64 + 32768) % 65536) as u16
        ) by (bit_vector);
    }
}

/// Running `n + m` steps is running `n` steps, then `m` more.
pub proof fn lemma_iter_add(s: u16, n: nat, m: nat)
    ensures
        lcg_iter(s, n + m) == lcg_iter(lcg_iter(s, n), m),
    decreases m,
{
    if m > 0 {
        lemma_iter_add(s, n, (m - 1) as nat);
        assert((n + m - 1) as nat == n + (m - 1) as nat);
    }
}

proof fn lemma_doubling(t: nat, y: u16)
    requires
        t <= 16,
    ensures
        lcg_iter(y, two_pow(t)) == jump(t, y),
    decreases t,
{
    if t == 0 {
        assert(lcg_iter(y, 1) == lcg(lcg_iter(y, 0)));
    } else {
        let h = two_pow((t - 1) as nat);
        assert(two_pow(t) == h + h);
        lemma_iter_add(y, h, h);
        lemma_doubling((t - 1) as nat, y);
        lemma_doubling((t - 1) as nat, jump((t - 1) as nat, y));
        lemma_jump_step((t - 1) as nat, y);
    }
}

/// `m` rounds of `2^t` steps add `m * 2^t` modulo `2^(t+1)`.
proof fn lemma_rounds(t: nat, m: nat, y: u16)
    requires
        t < 16,
    ensures
        lcg_iter(y, two_pow(t) * m) as int % (2 * two_pow(t)) as int
            == (y as int + m * two_pow(t)) % (2 * two_pow(t)) as int,
    decreases m,
{
    let h = two_pow(t);
    let p = (2 * h) as int;
    if m == 0 {
        assert(h * m == 0);
    } else {
        let k = h * (m - 1) as nat;
        assert(h * m == k + h) by (nonlinear_arith)
            requires
                k == h * (m - 1) as nat,
                m > 0,
        ;
        lemma_rounds(t, (m - 1) as nat, y);
        lemma_iter_add(y, k, h);
        let z = lcg_iter(y, k);
        lemma_doubling(t, z);
        lemma_jump_step(t, z);
        // z ≡ y + (m-1)h, so z + h ≡ y + m h
        vstd::arithmetic::div_mod::lemma_add_mod_noop(z as int, h as int, p);
        vstd::arithmetic::div_mod::lemma_add_mod_noop(y as int + (m - 1) * h, h as int, p);
        assert((m - 1) * h + h == m * h) by (nonlinear_arith);
    }
}

proof fn lemma_two_pow_split(k: nat) -> (r: (nat, nat))
    requires
        k > 0,
    ensures
        k == two_pow(r.0) * r.1,
        r.1 % 2 == 1,
        two_pow(r.0) <= k,
    decreases k,
{
    if k % 2 == 1 {
        assert(two_pow(0) * k == k) by (nonlinear_arith)
            requires
                two_pow(0) == 1,
        ;
        (0, k)
    } else {
        assert(k == 2 * (k / 2));
        let r = lemma_two_pow_split(k / 2);
        assert(two_pow(r.0 + 1) == 2 * two_pow(r.0));
        assert(two_pow(r.0 + 1) * r.1 == 2 * (two_pow(r.0) * r.1)) by (nonlinear_arith)
            requires
                two_pow(r.0 + 1) == 2 * two_pow(r.0),
        ;
        assert(k == two_pow(r.0 + 1) * r.1);
        (r.0 + 1, r.1)
    }
}

proof fn lemma_two_pow_large(t: nat)
    requires
        t >= 16,
    ensures
        two_pow(t) >= 65536,
    decreases t,
{
    reveal_with_fuel(two_pow, 17);
    if t > 16 {
        lemma_two_pow_large((t - 1) as nat);
    }
}

/// No state comes back before 2^16 steps.
proof fn lemma_no_early_return(s: u16, k: nat)
    requires
        0 < k < 65536,
    ensures
        lcg_iter(s, k) != s,
{
    let (t, m) = lemma_two_pow_split(k);
    if t >= 16 {
        lemma_two_pow_large(t);
    }
    let h = two_pow(t);
    let p = (2 * h) as int;
    lemma_rounds(t, m, s);
    // m is odd: m * h == (m / 2) * p + h
    let q = (m / 2) as int;
    assert(m * h == p * q + h) by (nonlinear_arith)
        requires
            m % 2 == 1,
            q == m / 2,
            p == 2 * h,
    ;
    vstd::arithmetic::div_mod::lemma_mod_multiples_vanish(q, s as int + h, p);
    assert((s as int + m * h) % p == (s as int + h) % p);
    // so the state after `k` steps differs from `s` in bit `t`
    vstd::arithmetic::div_mod::lemma_add_mod_noop(s as int, h as int, p);
    vstd::arithmetic::div_mod::lemma_small_mod(h, p as nat);
    let r = s as int % p;
    vstd::arithmetic::div_mod::lemma_mod_bound(s as int, p);
    if r + h < p {
        vstd::arithmetic::div_mod::lemma_small_mod((r + h) as nat, p as nat);
    } else {
        vstd::arithmetic::div_mod::lemma_mod_sub_multiples_vanish(r + h, p);
        vstd::arithmetic::div_mod::lemma_small_mod((r + h - p) as nat, p as nat);
    }
    assert((s as int + h) % p != r);
}

/// The generator has full period: from any state, the states reached in
/// 0 to 65535 steps are pairwise different (so they are all 65536 states),
/// and 65536 steps lead back to the start.
pub proof fn lemma_full_period(s: u16)
    ensures
        forall|k: nat| 0 < k < 65536 ==> #[trigger] lcg_iter(s, k) != s,
        forall|i: nat, j: nat| i < j < 65536 ==> #[trigger] lcg_iter(s, i) != #[trigger] lcg_iter(s, j),
        lcg_iter(s, 65536) == s,
{
    assert forall|k: nat| 0 < k < 65536 implies #[trigger] lcg_iter(s, k) != s by {
        lemma_no_early_return(s, k);
    }
    assert forall|i: nat, j: nat| i < j < 65536 implies #[trigger] lcg_iter(s, i) != #[trigger] lcg_iter(s, j) by {
        lemma_iter_add(s, i, (j - i) as nat);
        assert(i + (j - i) as nat == j);
        lemma_no_early_return(lcg_iter(s, i), (j - i) as nat);
    }
    reveal_with_fuel(two_pow, 17);
    lemma_doubling(16, s);
}

/// The step taken backwards: `25173` is odd, so it has the inverse `35581`
/// modulo 2^16.
pub open spec fn lcg_back(s: u16) -> u16 {
    ((s as int * 35581 + 3915) % 65536) as u16
}

/// Each step is a permutation of the 16-bit states: stepping back undoes it,
/// so no two states step to the same state.
pub proof fn lemma_lcg_invertible(s: u16)
    ensures
        lcg_back(lcg(s)) == s,
        lcg(lcg_back(s)) == s,
{
    assert(((((s as u64 * 25173 + 13849) % 65536) * 35581 + 3915) % 65536) as u16 == s)
        by (bit_vector);
    assert(((((s as u64 * 35581 + 3915) % 65536) * 25173 + 13849) % 65536) as u16 == s)
        by (bit_vector);
}

/// Mix the low 4 bits of one jitter count into the seed: `(seed << 4) ^ (count & 0xF)`.
pub fn mix_entropy(seed: u16, count: u16) -> (mixed: u16)
    ensures
        mixed == ((((seed as int * 16) % 65536) as u16) ^ (count % 16)),
{
    let mixed = (seed << 4u16) ^ (count & 0x0F);
    assert((seed << 4u16) == ((seed as int * 16) % 65536) as u16) by (bit_vector);
    assert(count & 0x0F == count % 16) by (bit_vector);
    mixed
}

} // verus!
