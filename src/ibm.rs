//! Decoding of the legacy big-endian base-16 floating-point format into
//! IEEE-754 double-precision bit patterns, using integer arithmetic only.
use vstd::arithmetic::power2::{lemma2_to64, lemma2_to64_rest, lemma_pow2_adds, lemma_pow2_unfold, lemma_pow2_strictly_increases, pow2};
use vstd::prelude::*;

verus! {

/// Unsigned big-endian integer value of a byte sequence.
pub open spec fn be_value(s: Seq<u8>) -> nat
    decreases s.len(),
{
    if s.len() == 0 {
        0
    } else {
        be_value(s.drop_last()) * 256 + s.last() as nat
    }
}

/// Number of significant bits of `x` (0 for 0).
pub open spec fn bit_len(x: nat) -> nat
    decreases x,
{
    if x == 0 {
        0
    } else {
        1 + bit_len(x / 2)
    }
}

/// `f / 2^s` rounded to the nearest integer, ties to even.
pub open spec fn round_half_even(f: nat, s: nat) -> nat {
    let q = f / pow2(s);
    let r = f % pow2(s);
    let h = pow2((s - 1) as nat);
    if s > 0 && (r > h || (r == h && q % 2 == 1)) {
        q + 1
    } else {
        q
    }
}

/// The 53-bit significand before a possible carry out of rounding.
pub open spec fn significand53(f: nat) -> nat {
    let n = bit_len(f);
    if n <= 53 {
        f * pow2((53 - n) as nat)
    } else {
        round_half_even(f, (n - 53) as nat)
    }
}

/// IEEE-754 double bits nearest to `(-1)^sign * f * 16^(e - 64 - 14)`.
/// The value is always in the normal range of a double, and zero maps to +0.
pub open spec fn ieee_bits_of(sign: bool, e: nat, f: nat) -> nat {
    if f == 0 {
        0
    } else {
        let n = bit_len(f);
        let m = significand53(f);
        let mant: nat = if m == pow2(53) { pow2(52) } else { m };
        let bexp: nat = if m == pow2(53) { 4 * e + n + 711 } else { 4 * e + n + 710 };
        (if sign { pow2(63) } else { 0nat }) + bexp * pow2(52) + (mant - pow2(52)) as nat
    }
}

/// Meaning of an 8-byte legacy float: sign bit, 7-bit excess-64 base-16 exponent,
/// and a 56-bit fraction without hidden bit.
pub open spec fn decode_spec(b: Seq<u8>) -> nat {
    ieee_bits_of(b[0] >= 128, (b[0] % 128) as nat, be_value(b.subrange(1, 8)))
}

proof fn lemma_bit_len_bounds(x: nat)
    requires
        x > 0,
    ensures
        pow2((bit_len(x) - 1) as nat) <= x < pow2(bit_len(x)),
        bit_len(x) >= 1,
    decreases x,
{
    lemma_pow2_unfold(bit_len(x));
    if x / 2 > 0 {
        lemma_bit_len_bounds(x / 2);
        lemma_pow2_unfold((bit_len(x) - 1) as nat);
    } else {
        assert(bit_len(x / 2) == 0);
        lemma2_to64();
        lemma2_to64_rest();
    }
}

proof fn lemma_bit_len_at_most(x: nat, k: nat)
    requires
        x < pow2(k),
    ensures
        bit_len(x) <= k,
{
    if x > 0 {
        lemma_bit_len_bounds(x);
        if bit_len(x) > k {
            if (bit_len(x) - 1) as nat > k {
                lemma_pow2_strictly_increases(k, (bit_len(x) - 1) as nat);
            }
        }
    }
}

/// Exponent field of a double's bits.
pub open spec fn ieee_exponent(bits: nat) -> nat {
    (bits / pow2(52)) % 2048
}

/// Significand of a normal double's bits, hidden bit included.
pub open spec fn ieee_significand(bits: nat) -> nat {
    bits % pow2(52) + pow2(52)
}

/// A fraction of at most 53 significant bits decodes without loss: the
/// double's significand times `2^(exponent - 1075)` equals `f * 16^(e - 78)`
/// (both sides scaled by `2^1387` to keep the powers whole).
pub proof fn lemma_decode_exact(sign: bool, e: nat, f: nat)
    requires
        e < 128,
        0 < f < pow2(53),
    ensures
        ieee_significand(ieee_bits_of(sign, e, f)) * pow2(ieee_exponent(ieee_bits_of(sign, e, f)) + 312)
            == f * pow2(4 * e + 1075),
{
    lemma_bit_len_at_most(f, 53);
    lemma_bit_len_bounds(f);
    let n = bit_len(f);
    let m = f * pow2((53 - n) as nat);
    lemma_pow2_adds((n - 1) as nat, (53 - n) as nat);
    lemma_pow2_adds(n, (53 - n) as nat);
    assert((n - 1) as nat + (53 - n) as nat == 52);
    assert(n + (53 - n) as nat == 53);
    vstd::arithmetic::power2::lemma_pow2_pos((53 - n) as nat);
    assert(pow2(52) <= m < pow2(53)) by (nonlinear_arith)
        requires
            m == f * pow2((53 - n) as nat),
            pow2((n - 1) as nat) <= f < pow2(n),
            pow2((n - 1) as nat) * pow2((53 - n) as nat) == pow2(52),
            pow2(n) * pow2((53 - n) as nat) == pow2(53),
            pow2((53 - n) as nat) > 0;
    assert(significand53(f) == m);
    let bexp = 4 * e + n + 710;
    let low = (m - pow2(52)) as nat;
    let hi: nat = if sign { pow2(11) } else { 0 };
    lemma2_to64();
    lemma2_to64_rest();
    lemma_pow2_adds(11, 52);
    let r = ieee_bits_of(sign, e, f);
    assert(r == (hi + bexp) * pow2(52) + low) by (nonlinear_arith)
        requires
            r == (if sign { pow2(63) } else { 0nat }) + bexp * pow2(52) + low,
            pow2(63) == pow2(11) * pow2(52),
            hi == if sign { pow2(11) } else { 0 };
    vstd::arithmetic::div_mod::lemma_fundamental_div_mod_converse(
        r as int,
        pow2(52) as int,
        (hi + bexp) as int,
        low as int,
    );
    vstd::arithmetic::div_mod::lemma_fundamental_div_mod_converse(
        (hi + bexp) as int,
        2048,
        (if sign { 1int } else { 0 }),
        bexp as int,
    );
    assert(ieee_exponent(r) == bexp);
    assert(ieee_significand(r) == m);
    lemma_pow2_adds((53 - n) as nat, bexp + 312);
    assert((53 - n) as nat + bexp + 312 == 4 * e + 1075);
    assert(m * pow2(bexp + 312) == f * pow2(4 * e + 1075)) by (nonlinear_arith)
        requires
            m == f * pow2((53 - n) as nat),
            pow2(4 * e + 1075) == pow2((53 - n) as nat) * pow2(bexp + 312);
}

/// Computes `2^s` for small `s`.
fn pow2_u64(s: u64) -> (r: u64)
    requires
        s < 64,
    ensures
        r == pow2(s as nat),
{
    let mut p: u64 = 1;
    let mut i: u64 = 0;
    proof {
        lemma2_to64();
        lemma2_to64_rest();
    }
    while i < s
        invariant
            i <= s < 64,
            p == pow2(i as nat),
        decreases s - i,
    {
        proof {
            lemma_pow2_unfold((i + 1) as nat);
            lemma_pow2_strictly_increases((i + 1) as nat, 64);
            lemma2_to64();
            lemma2_to64_rest();
        lemma2_to64_rest();
        }
        p = p * 2;
        i = i + 1;
    }
    p
}

/// Decodes one 8-byte legacy float into the bits of the equal (or nearest)
/// IEEE-754 double. Every bit pattern decodes; zero of either sign gives +0.
pub fn decode_ibm(b: &[u8]) -> (r: u64)
    requires
        b@.len() == 8,
    ensures
        r as nat == decode_spec(b@),
{
    let sign = b[0] >= 128;
    let e: u64 = (b[0] % 128) as u64;
    let mut f: u64 = 0;
    let mut bound: u64 = 1;
    let mut i: usize = 1;
    proof {
        lemma2_to64();
        lemma2_to64_rest();
    }
    while i < 8
        invariant
            b@.len() == 8,
            1 <= i <= 8,
            f as nat == be_value(b@.subrange(1, i as int)),
            f < bound,
            bound as nat == pow2(8 * (i - 1) as nat),
        decreases 8 - i,
    {
        proof {
            assert(b@.subrange(1, i + 1).drop_last() =~= b@.subrange(1, i as int));
            lemma_pow2_adds(8 * (i - 1) as nat, 8);
            lemma2_to64();
            lemma2_to64_rest();
        lemma2_to64_rest();
            lemma_pow2_strictly_increases((8 * (i - 1) + 8) as nat, 64);
            assert(f * 256 + b[i as int] < bound * 256) by (nonlinear_arith)
                requires f < bound, b[i as int] < 256;
        }
        f = f * 256 + b[i] as u64;
        bound = bound * 256;
        i = i + 1;
    }
    assert(b@.subrange(1, 8) =~= b@.subrange(1, i as int));
    if f == 0 {
        return 0;
    }
    proof {
        lemma2_to64();
        lemma2_to64_rest();
        lemma_bit_len_at_most(f as nat, 56);
        lemma_bit_len_bounds(f as nat);
    }
    let mut n: u64 = 0;
    let mut t: u64 = f;
    while t > 0
        invariant
            bit_len(f as nat) == n + bit_len(t as nat),
            bit_len(f as nat) <= 56,
        decreases t,
    {
        t = t / 2;
        n = n + 1;
    }
    assert(bit_len(t as nat) == 0);
    assert(n == bit_len(f as nat));
    let m: u64;
    if n <= 53 {
        let p = pow2_u64(53 - n);
        proof {
            vstd::arithmetic::power2::lemma_pow2_pos((53 - n) as nat);
            lemma_pow2_adds(n as nat, (53 - n) as nat);
            assert(n as nat + (53 - n) as nat == 53);
            assert(f * p < pow2(n as nat) * p) by (nonlinear_arith)
                requires f < pow2(n as nat), p > 0;
            lemma2_to64();
            lemma2_to64_rest();
        lemma2_to64_rest();
        }
        m = f * p;
    } else {
        let s = n - 53;
        let p = pow2_u64(s);
        let h = pow2_u64(s - 1);
        let q = f / p;
        let rem = f % p;
        proof {
            lemma_pow2_adds(53, s as nat);
            lemma2_to64();
            lemma2_to64_rest();
        lemma2_to64_rest();
            assert(q < pow2(53)) by (nonlinear_arith)
                requires q == f / p, f < pow2(53) * p, p > 0;
            lemma_pow2_adds(52, s as nat);
            assert(52 + s as nat == (n - 1) as nat);
            assert(q >= pow2(52)) by (nonlinear_arith)
                requires q == f / p, f >= pow2(52) * p, p > 0;
        }
        if rem > h || (rem == h && q % 2 == 1) {
            m = q + 1;
        } else {
            m = q;
        }
    }
    assert(m as nat == significand53(f as nat));
    proof {
        lemma2_to64();
        lemma2_to64_rest();
        vstd::arithmetic::power2::lemma_pow2_unfold(53);
        if n <= 53 {
            lemma_pow2_adds((n - 1) as nat, (53 - n) as nat);
            assert((n - 1) as nat + (53 - n) as nat == 52);
            assert(pow2(52) <= m) by (nonlinear_arith)
                requires m == f * pow2((53 - n) as nat), pow2((n - 1) as nat) <= f,
                    pow2((n - 1) as nat) * pow2((53 - n) as nat) == pow2(52);
        }
    }
    let mant: u64 = if m == 0x20_0000_0000_0000 { 0x10_0000_0000_0000 } else { m };
    let bexp: u64 = if m == 0x20_0000_0000_0000 { 4 * e + n + 711 } else { 4 * e + n + 710 };
    let high: u64 = if sign { 0x8000_0000_0000_0000 } else { 0 };
    high + bexp * 0x10_0000_0000_0000 + (mant - 0x10_0000_0000_0000)
}

} // verus!
