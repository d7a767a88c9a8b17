//! Double-precision numbers, carried as their bit patterns.
use vstd::arithmetic::power2::{
    lemma2_to64, lemma2_to64_rest, lemma_pow2_adds, lemma_pow2_pos, lemma_pow2_strictly_increases,
    lemma_pow2_unfold, pow2,
};
use vstd::arithmetic::div_mod::lemma_fundamental_div_mod;
use vstd::prelude::*;

verus! {

/// A number in the binary64 format, by its bits: one for the sign, eleven for
/// the exponent, fifty-two for the fraction. All bits clear is zero.
#[derive(Clone, Copy, Debug)]
pub struct Double {
    pub bits: u64,
}

/// Two doubles are the same number: zero is, whatever its sign, and what is no
/// number is not even the same as itself.
impl PartialEq for Double {
    fn eq(&self, other: &Double) -> (r: bool) {
        !self.is_nan() && !other.is_nan() && (self.bits == other.bits || (self.is_zero()
            && other.is_zero()))
    }
}

impl vstd::std_specs::cmp::PartialEqSpecImpl for Double {
    open spec fn obeys_eq_spec() -> bool {
        true
    }

    open spec fn eq_spec(&self, other: &Double) -> bool {
        !self.not_a_number() && !other.not_a_number() && (self.bits == other.bits || (
        self.vanishes() && other.vanishes()))
    }
}

/// The place of the highest bit that is set in `m`.
pub open spec fn top_bit(m: nat) -> nat
    decreases m,
{
    if m <= 1 {
        0
    } else {
        1 + top_bit(m / 2)
    }
}

/// `m / d` as a whole number, halves going to the even neighbour.
pub open spec fn rounded(m: nat, d: nat) -> nat {
    let q = m / d;
    let r = m % d;
    if 2 * r > d || (2 * r == d && q % 2 == 1) {
        q + 1
    } else {
        q
    }
}

/// The fifty-three leading bits of `m`, rounded.
pub open spec fn leading_bits(m: nat) -> nat {
    let e = top_bit(m);
    if e <= 52 {
        m * pow2((52 - e) as nat)
    } else {
        rounded(m, pow2((e - 52) as nat))
    }
}

/// The bits of the double next to the whole number `m`, without a sign. The
/// highest of the leading bits adds one to the exponent, and so does a carry
/// out of the rounding.
pub open spec fn magnitude_bits(m: nat) -> nat {
    if m == 0 {
        0
    } else {
        (1022 + top_bit(m)) as nat * 0x10_0000_0000_0000 + leading_bits(m)
    }
}

/// The double next to the whole number `n`.
pub open spec fn nearest(n: int) -> Double {
    if n < 0 {
        Double { bits: (0x8000_0000_0000_0000 + magnitude_bits((-n) as nat)) as u64 }
    } else {
        Double { bits: magnitude_bits(n as nat) as u64 }
    }
}

impl Double {
    /// Neither infinite nor not-a-number: the exponent bits are not all set.
    pub open spec fn finite(self) -> bool {
        (self.bits / 0x10_0000_0000_0000) % 0x800 != 0x7ff
    }

    /// No number: the exponent bits are all set, and some fraction bit is.
    pub open spec fn not_a_number(self) -> bool {
        !self.finite() && self.bits % 0x10_0000_0000_0000 != 0
    }

    /// Zero, of either sign: no bit but that of the sign is set.
    pub open spec fn vanishes(self) -> bool {
        self.bits % 0x8000_0000_0000_0000 == 0
    }

    /// The sign bit.
    pub open spec fn negative(self) -> bool {
        self.bits >= 0x8000_0000_0000_0000
    }

    /// The exponent bits.
    pub open spec fn exponent(self) -> nat {
        ((self.bits / 0x10_0000_0000_0000) % 0x800) as nat
    }

    /// The fraction bits below the leading one.
    pub open spec fn significand(self) -> nat {
        (0x10_0000_0000_0000 + self.bits % 0x10_0000_0000_0000) as nat
    }

    /// The number is exactly the whole number `n`: for a normal number, the
    /// significand times two to the exponent less 1075.
    pub open spec fn is_whole(self, n: int) -> bool {
        if n == 0 {
            self.bits == 0
        } else {
            let size: nat = if n < 0 {
                (-n) as nat
            } else {
                n as nat
            };
            &&& self.negative() == (n < 0)
            &&& 0 < self.exponent() < 0x7ff
            &&& self.significand() * pow2(self.exponent()) == size * pow2(1075)
        }
    }

    /// Whether the number is finite.
    pub fn is_finite(self) -> (r: bool)
        ensures
            r == self.finite(),
    {
        (self.bits / 0x10_0000_0000_0000) % 0x800 != 0x7ff
    }

    /// Whether this is no number.
    pub fn is_nan(self) -> (r: bool)
        ensures
            r == self.not_a_number(),
    {
        !self.is_finite() && self.bits % 0x10_0000_0000_0000 != 0
    }

    /// Whether this is zero, of either sign.
    pub fn is_zero(self) -> (r: bool)
        ensures
            r == self.vanishes(),
    {
        self.bits % 0x8000_0000_0000_0000 == 0
    }

    /// Zero.
    pub fn zero() -> (r: Double)
        ensures
            r == nearest(0),
    {
        Double { bits: 0 }
    }

    /// The double next to `n`, halfway cases going to the even one.
    pub fn from_i64(n: i64) -> (r: Double)
        ensures
            r == nearest(n as int),
    {
        if n == 0 {
            return Double { bits: 0 };
        }
        if n < 0 {
            let m: u64 = (-(n as i128)) as u64;
            let bits: u64 = magnitude(m);
            Double { bits: 0x8000_0000_0000_0000 + bits }
        } else {
            Double { bits: magnitude(n as u64) }
        }
    }
}

/// The bits of the double next to `m`.
fn magnitude(m: u64) -> (r: u64)
    requires
        1 <= m <= 0x8000_0000_0000_0000,
    ensures
        r == magnitude_bits(m as nat),
        r < 0x8000_0000_0000_0000,
{
    proof {
        lemma_top_bit_bound(m);
    }
    let mut e: u64 = 0;
    let mut rest: u64 = m;
    while rest > 1
        invariant
            rest >= 1,
            top_bit(m as nat) == e + top_bit(rest as nat),
            top_bit(m as nat) <= 63,
        decreases rest,
    {
        rest = rest / 2;
        e = e + 1;
    }
    let q: u64 = if e <= 52 {
        scaled_up(m, e)
    } else {
        scaled_down(m, e)
    };
    (1022 + e) * 0x10_0000_0000_0000 + q
}

/// The leading bits of a number that has no more than fifty-three.
fn scaled_up(m: u64, e: u64) -> (r: u64)
    requires
        m >= 1,
        e == top_bit(m as nat),
        e <= 52,
    ensures
        r == leading_bits(m as nat),
        r < 0x20_0000_0000_0000,
{
    proof {
        lemma2_to64();
        lemma2_to64_rest();
        lemma_top_bit(m as nat);
    }
    let mut q: u64 = m;
    let mut at: u64 = e;
    assert(m * pow2(0) == m) by (nonlinear_arith)
        requires
            pow2(0) == 1,
    ;
    while at < 52
        invariant
            e <= at <= 52,
            q == m * pow2((at - e) as nat),
            q < 2 * pow2(at as nat),
            pow2(52) == 0x10_0000_0000_0000,
        decreases 52 - at,
    {
        proof {
            let k = (at - e) as nat;
            lemma_pow2_unfold(k + 1);
            lemma_pow2_unfold((at + 1) as nat);
            lemma_pow2_strictly_increases(at as nat, 52);
            assert(m * (2 * pow2(k)) == 2 * (m * pow2(k))) by (nonlinear_arith);
        }
        q = q * 2;
        at = at + 1;
    }
    q
}

/// The leading bits of a number that has more than fifty-three, rounded.
fn scaled_down(m: u64, e: u64) -> (r: u64)
    requires
        m >= 1,
        e == top_bit(m as nat),
        52 < e <= 63,
    ensures
        r == leading_bits(m as nat),
        r <= 0x20_0000_0000_0000,
{
    let mut unit: u64 = 1;
    let mut at: u64 = 52;
    proof {
        lemma2_to64();
    }
    while at < e
        invariant
            52 <= at <= e <= 63,
            unit == pow2((at - 52) as nat),
            pow2(11) == 0x800,
        decreases e - at,
    {
        proof {
            let k = (at - 52) as nat;
            lemma_pow2_unfold(k + 1);
            lemma_pow2_strictly_increases(k, 11);
        }
        unit = unit * 2;
        at = at + 1;
    }
    proof {
        lemma2_to64_rest();
        lemma_top_bit(m as nat);
        lemma_pow2_adds((e - 52) as nat, 52);
        lemma_pow2_pos((e - 52) as nat);
        if e < 63 {
            lemma_pow2_strictly_increases((e - 52) as nat, 11);
        }
        assert(m / unit < 0x20_0000_0000_0000) by (nonlinear_arith)
            requires
                unit > 0,
                m < 2 * (unit * 0x10_0000_0000_0000),
        ;
    }
    let q: u64 = m / unit;
    let r: u64 = m % unit;
    if 2 * r > unit || (2 * r == unit && q % 2 == 1) {
        q + 1
    } else {
        q
    }
}

/// A number of sixty-four bits has its highest bit below the sixty-fourth.
proof fn lemma_top_bit_bound(m: u64)
    requires
        m >= 1,
    ensures
        top_bit(m as nat) <= 63,
{
    lemma2_to64();
    lemma2_to64_rest();
    lemma_top_bit(m as nat);
    if top_bit(m as nat) > 64 {
        lemma_pow2_strictly_increases(64, top_bit(m as nat));
    }
}

/// Whole numbers of up to fifty-three bits keep their value as doubles.
pub proof fn lemma_small_whole_numbers_are_exact(n: int)
    requires
        -0x20_0000_0000_0000 <= n <= 0x20_0000_0000_0000,
    ensures
        nearest(n).is_whole(n),
{
    let m: nat = if n < 0 {
        (-n) as nat
    } else {
        n as nat
    };
    if m > 0 {
        let e = top_bit(m);
        let d = nearest(n);
        lemma2_to64();
        lemma2_to64_rest();
        lemma_top_bit(m);
        if e > 53 {
            lemma_pow2_strictly_increases(53, e);
        }
        let q = leading_bits(m);
        if e <= 52 {
            let k = (52 - e) as nat;
            lemma_pow2_adds(k, e);
            assert(0x10_0000_0000_0000 <= m * pow2(k) < 0x20_0000_0000_0000)
                by (nonlinear_arith)
                requires
                    pow2(e) <= m < 2 * pow2(e),
                    pow2(k) * pow2(e) == 0x10_0000_0000_0000,
            ;
            let x = (1023 + e) as nat;
            assert(d.exponent() == x);
            assert(d.significand() == q);
            assert(1075 == k + x);
            lemma_pow2_adds(k, x);
            assert((m * pow2(k)) * pow2(x) == m * (pow2(k) * pow2(x))) by (nonlinear_arith);
        } else {
            assert(m == 0x20_0000_0000_0000);
            assert(q == 0x10_0000_0000_0000);
            assert(d.exponent() == 1076);
            assert(d.significand() == 0x10_0000_0000_0000);
            lemma_pow2_unfold(1076);
            assert(0x10_0000_0000_0000 * (2 * pow2(1075)) == 0x20_0000_0000_0000 * pow2(1075))
                by (nonlinear_arith);
        }
    }
}

/// The highest bit of `m` is worth at most `m`, and twice that is more.
pub proof fn lemma_top_bit(m: nat)
    requires
        m >= 1,
    ensures
        pow2(top_bit(m)) <= m < 2 * pow2(top_bit(m)),
    decreases m,
{
    lemma2_to64();
    if m > 1 {
        lemma_top_bit(m / 2);
        lemma_pow2_unfold(top_bit(m));
    }
}

/// The size of the difference of two numbers.
pub open spec fn apart(a: int, b: int) -> int {
    if a < b {
        b - a
    } else {
        a - b
    }
}

/// Rounding goes to the nearer multiple, and to the even one where both are as near.
proof fn lemma_rounded(m: nat, d: nat)
    requires
        d > 0,
    ensures
        2 * apart((rounded(m, d) * d) as int, m as int) <= d,
        2 * apart((rounded(m, d) * d) as int, m as int) == d ==> rounded(m, d) % 2 == 0,
{
    let q = m / d;
    let r = m % d;
    lemma_fundamental_div_mod(m as int, d as int);
    assert(m == d * q + r);
    assert(0 <= r < d);
    assert((q + 1) * d == d * q + d) by (nonlinear_arith);
    assert(q * d == d * q) by (nonlinear_arith);
}

/// A whole number of more than fifty-three bits becomes the double that is nearest to
/// it, with its sign: no more than half of what the last place of the double is worth
/// away, and with that place even where it is just that.
pub proof fn lemma_large_whole_numbers_are_near(n: i64)
    requires
        n <= -0x20_0000_0000_0000 || 0x20_0000_0000_0000 <= n,
    ensures
        ({
            let d = nearest(n as int);
            let size = if n < 0 {
                -(n as int)
            } else {
                n as int
            };
            let place = pow2((d.exponent() - 1075) as nat);
            let off = apart((d.significand() * place) as int, size);
            &&& d.negative() == (n < 0)
            &&& 1075 < d.exponent() < 0x7ff
            &&& 2 * off <= place
            &&& 2 * off == place ==> d.significand() % 2 == 0
        }),
{
    let m: nat = if n < 0 {
        (-n) as nat
    } else {
        n as nat
    };
    let e = top_bit(m);
    let d = nearest(n as int);
    lemma2_to64();
    lemma2_to64_rest();
    lemma_top_bit(m);
    if e < 53 {
        lemma_pow2_strictly_increases(e, 53);
    }
    if e > 63 {
        lemma_pow2_strictly_increases(63, e);
    }
    let k = (e - 52) as nat;
    let unit = pow2(k);
    lemma_pow2_pos(k);
    lemma_pow2_adds(k, 52);
    let q = rounded(m, unit);
    lemma_rounded(m, unit);
    assert(m / unit < 0x20_0000_0000_0000) by (nonlinear_arith)
        requires
            unit > 0,
            m < 2 * (unit * 0x10_0000_0000_0000),
    ;
    assert(m / unit >= 0x10_0000_0000_0000) by (nonlinear_arith)
        requires
            unit > 0,
            m >= unit * 0x10_0000_0000_0000,
    ;
    if q < 0x20_0000_0000_0000 {
        assert(d.exponent() == 1023 + e);
        assert(d.significand() == q);
        assert(d.exponent() - 1075 == k);
    } else {
        assert(q == 0x20_0000_0000_0000);
        assert(d.exponent() == 1024 + e);
        assert(d.significand() == 0x10_0000_0000_0000);
        lemma_pow2_unfold(k + 1);
        assert(d.exponent() - 1075 == k + 1);
        assert(0x10_0000_0000_0000 * (2 * unit) == 0x20_0000_0000_0000 * unit) by (nonlinear_arith);
    }
}

} // verus!
