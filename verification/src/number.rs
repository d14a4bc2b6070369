//! Numbers as AMF carries them: IEEE-754 doubles, held by their bits.
//!
//! Whole numbers convert to and from doubles by integer arithmetic on the bit
//! pattern: sign in the top bit, then 11 bits of exponent and 52 of fraction.

use vstd::arithmetic::div_mod::{lemma_div_multiples_vanish, lemma_mod_multiples_basic};
use vstd::arithmetic::power2::{lemma2_to64, lemma2_to64_rest, lemma_pow2_adds, lemma_pow2_pos, lemma_pow2_strictly_increases, lemma_pow2_unfold, pow2};
use vstd::prelude::*;

verus! {

/// A double, by its bits.
#[derive(Debug, Clone, Copy)]
pub struct Double {
    pub bits: u64,
}

/// 2^52: one unit of the exponent field.
pub const UNIT: u64 = 0x10_0000_0000_0000;

/// 2^53: up to here every whole number has a double.
pub const LARGEST_EXACT: u64 = 0x20_0000_0000_0000;

/// 2^63: the sign bit.
pub const SIGN: u64 = 0x8000_0000_0000_0000;

/// The exponent field.
pub open spec fn exponent(bits: u64) -> int {
    (bits as int / UNIT as int) % 2048
}

/// Whether a double is neither infinite nor a NaN.
pub open spec fn is_finite(bits: u64) -> bool {
    exponent(bits) != 2047
}

/// Whether a double is a NaN: the greatest exponent, and a fraction.
pub open spec fn is_nan(bits: u64) -> bool {
    exponent(bits) == 2047 && bits as int % UNIT as int != 0
}

/// Whether a double is zero, of either sign.
pub open spec fn is_zero(bits: u64) -> bool {
    bits == 0 || bits == SIGN
}

/// Whether two doubles are the same number: a NaN is none, and the two zeros are one.
pub open spec fn same_number(a: u64, b: u64) -> bool {
    !is_nan(a) && !is_nan(b) && (a == b || is_zero(a) && is_zero(b))
}

impl PartialEq for Double {
    /// Whether both are the same number.
    fn eq(&self, other: &Double) -> (b: bool) {
        let nan = self.nan() || other.nan();
        let zeros = self.zero() && other.zero();
        !nan && (self.bits == other.bits || zeros)
    }
}

impl vstd::std_specs::cmp::PartialEqSpecImpl for Double {
    open spec fn obeys_eq_spec() -> bool {
        true
    }

    open spec fn eq_spec(&self, other: &Double) -> bool {
        same_number(self.bits, other.bits)
    }
}

impl Double {
    fn nan(&self) -> (b: bool)
        ensures
            b == is_nan(self.bits),
    {
        self.bits / UNIT % 2048 == 2047 && self.bits % UNIT != 0
    }

    fn zero(&self) -> (b: bool)
        ensures
            b == is_zero(self.bits),
    {
        self.bits == 0 || self.bits == SIGN
    }
}

/// Whether a finite double is zero or more (minus zero is).
pub open spec fn at_least_zero(bits: u64) -> bool {
    bits <= SIGN
}

/// A finite double's magnitude is `mantissa * 2^scale`.
pub open spec fn mantissa(bits: u64) -> nat {
    if exponent(bits) == 0 {
        (bits % UNIT) as nat
    } else {
        (bits % UNIT + UNIT) as nat
    }
}

/// A finite double's magnitude is `mantissa * 2^scale`.
pub open spec fn scale(bits: u64) -> int {
    (if exponent(bits) == 0 {
        1
    } else {
        exponent(bits)
    }) - 1075
}

/// The magnitude of a finite double, without what is behind the point.
pub open spec fn whole(bits: u64) -> nat {
    if scale(bits) >= 0 {
        mantissa(bits) * pow2(scale(bits) as nat)
    } else {
        mantissa(bits) / pow2((-scale(bits)) as nat)
    }
}

/// Whether nothing is behind the point.
pub open spec fn is_whole(bits: u64) -> bool {
    scale(bits) >= 0 || mantissa(bits) % pow2((-scale(bits)) as nat) == 0
}

/// The nearest 32-bit number towards zero.
pub open spec fn as_u32(bits: u64) -> u32 {
    if !is_finite(bits) {
        if bits % UNIT == 0 && bits < SIGN {
            u32::MAX
        } else {
            0
        }
    } else if bits > SIGN {
        0
    } else if whole(bits) > u32::MAX {
        u32::MAX
    } else {
        whole(bits) as u32
    }
}

/// The position of the highest bit that is set.
pub open spec fn top_bit(n: nat) -> nat
    decreases n,
{
    if n < 2 {
        0
    } else {
        1 + top_bit(n / 2)
    }
}

/// The bits of the double that is `n`.
pub open spec fn nat_bits(n: nat) -> u64 {
    if n == 0 {
        0
    } else {
        let k = top_bit(n);
        ((1023 + k) * UNIT + (n - pow2(k)) * pow2((52 - k) as nat)) as u64
    }
}

/// The bits of the double that is `n`.
pub open spec fn int_bits(n: int) -> u64 {
    if n < 0 {
        (SIGN + nat_bits((-n) as nat)) as u64
    } else {
        nat_bits(n as nat)
    }
}

proof fn lemma_top_bit(n: nat, k: nat)
    requires
        pow2(k) <= n < pow2(k + 1),
    ensures
        top_bit(n) == k,
    decreases k,
{
    lemma_pow2_unfold(k + 1);
    if k == 0 {
        lemma2_to64();
        lemma2_to64_rest();
    } else {
        lemma_pow2_unfold(k);
        lemma_pow2_pos((k - 1) as nat);
        lemma_top_bit(n / 2, (k - 1) as nat);
    }
}

proof fn lemma_top_bit_range(n: nat)
    requires
        n > 0,
    ensures
        pow2(top_bit(n)) <= n < pow2(top_bit(n) + 1),
    decreases n,
{
    lemma2_to64();
    lemma2_to64_rest();
    if n >= 2 {
        lemma_top_bit_range(n / 2);
        lemma_pow2_unfold(top_bit(n));
        lemma_pow2_unfold(top_bit(n) + 1);
    }
}

/// Whole numbers below 2^53 convert without loss.
pub proof fn lemma_nat_bits(n: nat)
    requires
        n < 0x20_0000_0000_0000,
    ensures
        is_finite(nat_bits(n)),
        nat_bits(n) < SIGN,
        whole(nat_bits(n)) == n,
        is_whole(nat_bits(n)),
{
    lemma2_to64();
    lemma2_to64_rest();
    lemma_pow2_unfold(53);
    if n == 0 {
        lemma_pow2_pos(1074);
        assert(0nat / pow2(1074) == 0) by (nonlinear_arith)
            requires
                pow2(1074) > 0,
        ;
        vstd::arithmetic::div_mod::lemma_small_mod(0, pow2(1074));
    } else {
        let k = top_bit(n);
        lemma_top_bit_range(n);
        if k >= 53 {
            if k > 53 {
                lemma_pow2_strictly_increases(53, k);
            }
            assert(false);
        }
        let s = (52 - k) as nat;
        let p = pow2(k);
        let q = pow2(s);
        lemma_pow2_unfold(k + 1);
        lemma_pow2_adds(k, s);
        lemma_pow2_pos(s);
        let f = (n - p) * q;
        assert(0 <= f < p * q) by (nonlinear_arith)
            requires
                f == (n - p) * q,
                0 <= n - p < p,
                q > 0,
        ;
        assert(f + p * q == n * q) by (nonlinear_arith)
            requires
                f == (n - p) * q,
        ;
        let b = nat_bits(n);
        assert(b as int == (1023 + k) * UNIT + f);
        assert(b as int / UNIT as int == 1023 + k);
        assert(b % UNIT == f);
        assert(mantissa(b) == n * q);
        assert(scale(b) == k - 52);
        if s == 0 {
            assert(n * q == n) by (nonlinear_arith)
                requires
                    q == 1,
            ;
            assert(mantissa(b) * pow2(0) == n) by (nonlinear_arith)
                requires
                    mantissa(b) == n,
                    pow2(0) == 1,
            ;
        } else {
            lemma_div_multiples_vanish(n as int, q as int);
            lemma_mod_multiples_basic(n as int, q as int);
            assert(n * q == q * n) by (nonlinear_arith);
        }
    }
}

fn power_of_two(k: u64) -> (p: u64)
    requires
        k <= 62,
    ensures
        p == pow2(k as nat),
{
    proof {
        lemma2_to64();
        lemma2_to64_rest();
    }
    let mut p: u64 = 1;
    let mut i: u64 = 0;
    while i < k
        invariant
            i <= k <= 62,
            p == pow2(i as nat),
        decreases k - i,
    {
        proof {
            lemma2_to64();
        lemma2_to64_rest();
            lemma_pow2_unfold((i + 1) as nat);
            if i + 1 < 62 {
                lemma_pow2_strictly_increases((i + 1) as nat, 62);
            }
        }
        p = p * 2;
        i = i + 1;
    }
    p
}

impl Double {
    /// The double with these bits.
    pub fn from_bits(bits: u64) -> (d: Double)
        ensures
            d.bits == bits,
    {
        Double { bits }
    }

    /// The bits of this double.
    pub fn to_bits(&self) -> (bits: u64)
        ensures
            bits == self.bits,
    {
        self.bits
    }

    /// The double that is `n`.
    pub fn from_u32(n: u32) -> (d: Double)
        ensures
            d.bits == nat_bits(n as nat),
    {
        Double::from_u64(n as u64)
    }

    /// The double that is `n`, for the numbers up to which every one has a double.
    pub fn from_u64(n: u64) -> (d: Double)
        requires
            n <= LARGEST_EXACT,
        ensures
            d.bits == nat_bits(n as nat),
    {
        if n == 0 {
            return Double { bits: 0 };
        }
        proof {
            lemma2_to64();
            lemma2_to64_rest();
        }
        let mut k: u64 = 0;
        let mut p: u64 = 1;
        while p * 2 <= n
            invariant
                p == pow2(k as nat),
                p <= n <= LARGEST_EXACT,
                k <= 53,
            decreases n - p,
        {
            proof {
                lemma2_to64();
                lemma2_to64_rest();
                lemma_pow2_unfold((k + 1) as nat);
                lemma_pow2_unfold(54);
                if k >= 53 {
                    assert(pow2(54) <= n);
                }
            }
            p = p * 2;
            k = k + 1;
        }
        proof {
            lemma2_to64();
            lemma2_to64_rest();
            lemma_pow2_unfold((k + 1) as nat);
            lemma_top_bit(n as nat, k as nat);
        }
        if k == 53 {
            assert(n == p);
            assert((n - pow2(53)) * pow2((52 - 53) as nat) == 0) by (nonlinear_arith)
                requires
                    n == pow2(53),
            ;
            return Double { bits: 1076 * UNIT };
        }
        let q: u64 = power_of_two(52 - k);
        proof {
            lemma_pow2_adds(k as nat, (52 - k) as nat);
            assert((n - p) * q < p * q) by (nonlinear_arith)
                requires
                    0 <= n - p < p,
                    q > 0,
            ;
        }
        Double { bits: (1023 + k) * UNIT + (n - p) * q }
    }

    /// The double that is `n`.
    pub fn from_i32(n: i32) -> (d: Double)
        ensures
            d.bits == int_bits(n as int),
    {
        if n >= 0 {
            return Double::from_u32(n as u32);
        }
        let m: u32 = (-(n + 1)) as u32 + 1;
        let d = Double::from_u32(m);
        proof {
            lemma_nat_bits(m as nat);
        }
        Double { bits: SIGN + d.bits }
    }

    /// Whether this is neither infinite nor a NaN.
    pub fn finite(&self) -> (b: bool)
        ensures
            b == is_finite(self.bits),
    {
        self.bits / UNIT % 2048 != 2047
    }

    /// Whether this is finite and zero or more.
    pub fn finite_at_least_zero(&self) -> (b: bool)
        ensures
            b == (is_finite(self.bits) && at_least_zero(self.bits)),
    {
        self.finite() && self.bits <= SIGN
    }

    /// The nearest 32-bit number towards zero: what is negative or no number
    /// becomes zero, what is too large the largest.
    pub fn to_u32(&self) -> (n: u32)
        ensures
            n == as_u32(self.bits),
    {
        if !self.finite() {
            return if self.bits % UNIT == 0 && self.bits < SIGN {
                u32::MAX
            } else {
                0
            };
        }
        if self.bits > SIGN {
            return 0;
        }
        self.whole_u32().0
    }

    /// The magnitude without what is behind the point, capped at the largest
    /// 32-bit value, and whether it is the exact magnitude.
    pub fn whole_u32(&self) -> (r: (u32, bool))
        requires
            is_finite(self.bits),
        ensures
            r.0 == (if whole(self.bits) > u32::MAX {
                u32::MAX as nat
            } else {
                whole(self.bits)
            }),
            r.1 == (is_whole(self.bits) && whole(self.bits) <= u32::MAX),
    {
        let e: u64 = self.bits / UNIT % 2048;
        let f: u64 = self.bits % UNIT;
        let m: u64 = if e == 0 {
            f
        } else {
            f + UNIT
        };
        proof {
            lemma2_to64();
        lemma2_to64_rest();
            lemma_pow2_unfold(53);
        }
        if e >= 1075 {
            proof {
                let s = (e - 1075) as nat;
                lemma_pow2_pos(s);
                assert(m * pow2(s) >= m) by (nonlinear_arith)
                    requires
                        pow2(s) >= 1,
                        m >= 0,
                ;
            }
            return (u32::MAX, false);
        }
        let k: u64 = if e == 0 {
            1074
        } else {
            1075 - e
        };
        if k >= 53 {
            proof {
                if k > 53 {
                    lemma_pow2_strictly_increases(53, k as nat);
                }
                vstd::arithmetic::div_mod::lemma_small_mod(m as nat, pow2(k as nat));
                vstd::arithmetic::div_mod::lemma_basic_div(m as int, pow2(k as nat) as int);
            }
            return (0, m == 0);
        }
        let p: u64 = power_of_two(k);
        proof {
            lemma_pow2_pos(k as nat);
        }
        let w: u64 = m / p;
        let exact = m % p == 0;
        if w > u32::MAX as u64 {
            (u32::MAX, false)
        } else {
            (w as u32, exact)
        }
    }
}

// ---------------------------------------------------------------------------
// Laws
// ---------------------------------------------------------------------------

/// The double of a whole number up to 2^53 has the exponent of its highest bit, 1023
/// added, and the bits below that one as its fraction; a negative number has the sign
/// bit set besides.
pub proof fn law_whole_numbers_have_these_bits(n: nat, k: nat)
    requires
        pow2(k) <= n < pow2(k + 1),
        k <= 52,
    ensures
        int_bits(n as int) == (1023 + k) * 0x10_0000_0000_0000 + (n - pow2(k)) * pow2(
            (52 - k) as nat,
        ),
        int_bits(-(n as int)) == int_bits(n as int) + 0x8000_0000_0000_0000,
        nat_bits(n) == int_bits(n as int),
        int_bits(0) == 0,
{
    lemma_top_bit(n, k);
    lemma_bits_in_range(n, k);
    lemma_pow2_pos(k);
}

proof fn lemma_bits_in_range(n: nat, k: nat)
    requires
        pow2(k) <= n < pow2(k + 1),
        k <= 52,
    ensures
        0 <= (n - pow2(k)) * pow2((52 - k) as nat) < 0x10_0000_0000_0000,
{
    lemma2_to64();
    lemma2_to64_rest();
    let s = (52 - k) as nat;
    let p = pow2(k);
    let q = pow2(s);
    lemma_pow2_unfold(k + 1);
    lemma_pow2_adds(k, s);
    lemma_pow2_pos(s);
    let f = (n - p) * q;
    assert(0 <= f < p * q) by (nonlinear_arith)
        requires
            f == (n - p) * q,
            0 <= n - p < p,
            q > 0,
    ;
}

/// Which doubles are numbers, which are zero, and which are equal: a NaN equals nothing,
/// the two zeros are equal, and all else equals only itself.
pub proof fn law_kinds_of_doubles(a: u64, b: u64)
    ensures
        is_finite(a) <==> a % 0x8000_0000_0000_0000 < 0x7FF0_0000_0000_0000,
        is_nan(a) <==> a % 0x8000_0000_0000_0000 > 0x7FF0_0000_0000_0000,
        at_least_zero(a) <==> a <= 0x8000_0000_0000_0000,
        same_number(a, b) == same_number(b, a),
        same_number(a, a) <==> !is_nan(a),
        same_number(0, 0x8000_0000_0000_0000),
        a != b && a % 0x8000_0000_0000_0000 != 0 ==> !same_number(a, b),
        is_nan(a) ==> !same_number(a, b),
{
}

/// A double that lies between two whole numbers counts as the lower one, and is not whole.
pub proof fn law_doubles_are_cut_towards_zero(n: nat, bits: u64)
    requires
        n <= u32::MAX,
        nat_bits(n) <= bits < nat_bits(n + 1),
    ensures
        is_finite(bits),
        whole(bits) == n,
        is_whole(bits) <==> bits == nat_bits(n),
        as_u32(bits) == n,
{
    lemma2_to64();
    lemma2_to64_rest();
    if n == 0 {
        assert(nat_bits(1) == 1023 * UNIT) by {
            lemma_top_bit(1, 0);
        }
        assert(exponent(bits) < 1023);
        let m = mantissa(bits);
        let t = (-scale(bits)) as nat;
        assert(t >= 53);
        lemma_pow2_unfold(53);
        if t > 53 {
            lemma_pow2_strictly_increases(53, t);
        }
        assert(m < pow2(t));
        assert(m / pow2(t) == 0) by (nonlinear_arith)
            requires
                0 <= m < pow2(t),
        ;
        vstd::arithmetic::div_mod::lemma_small_mod(m, pow2(t));
        assert(m == 0 ==> bits == 0);
    } else {
        let k = top_bit(n);
        lemma_top_bit_range(n);
        if k >= 32 {
            if k > 32 {
                lemma_pow2_strictly_increases(32, k);
            }
            assert(false);
        }
        let s = (52 - k) as nat;
        let p = pow2(k);
        let q = pow2(s);
        lemma_pow2_unfold(k + 1);
        lemma_pow2_adds(k, s);
        lemma_pow2_pos(s);
        lemma_bits_in_range(n, k);
        lemma_pow2_pos(k);
        assert((n - p) * q + q == (n + 1 - p) * q) by (nonlinear_arith);
        if n + 1 < pow2(k + 1) {
            lemma_top_bit(n + 1, k);
            lemma_bits_in_range(n + 1, k);
        } else {
            lemma_pow2_unfold(k + 2);
            lemma_top_bit(n + 1, k + 1);
            assert((n + 1 - p) * q == p * q) by (nonlinear_arith)
                requires
                    n + 1 == 2 * p,
            ;
            assert((n + 1 - pow2(k + 1)) * pow2((52 - (k + 1)) as nat) == 0) by (nonlinear_arith)
                requires
                    n + 1 == pow2(k + 1),
            ;
        }
        let f = bits - (1023 + k) * UNIT;
        assert((n - p) * q <= f < (n - p) * q + q);
        assert((n - p) * q + q <= p * q) by (nonlinear_arith)
            requires
                n - p + 1 <= p,
                q > 0,
        ;
        assert(bits as int / UNIT as int == 1023 + k);
        assert(bits % UNIT == f);
        let m = mantissa(bits);
        assert(m == f + p * q);
        assert(n * q <= m < n * q + q) by (nonlinear_arith)
            requires
                m == f + p * q,
                (n - p) * q <= f < (n - p) * q + q,
        ;
        let r = m - n * q;
        assert(r == f - (n - p) * q) by (nonlinear_arith)
            requires
                r == m - n * q,
                m == f + p * q,
        ;
        assert(nat_bits(n) as int == (1023 + k) * UNIT + (n - p) * q);
        vstd::arithmetic::div_mod::lemma_fundamental_div_mod_converse(
            m as int,
            q as int,
            n as int,
            r,
        );
    }
}

/// A number as 32 bits: what is too large is the largest, and what is negative or no
/// number is 0.
pub proof fn law_doubles_as_32_bits(n: nat, bits: u64)
    ensures
        u32::MAX < n < 0x20_0000_0000_0000 ==> as_u32(nat_bits(n)) == 0xFFFF_FFFF,
        as_u32(0x7FF0_0000_0000_0000) == 0xFFFF_FFFF,
        bits > 0x8000_0000_0000_0000 ==> as_u32(bits) == 0,
        is_nan(bits) ==> as_u32(bits) == 0,
{
    if n < 0x20_0000_0000_0000 {
        lemma_nat_bits(n);
    }
}

/// A whole number that becomes a double comes back as it was, and zero is the double without
/// a bit; doubles keep the bits that they are made of.
pub proof fn law_numbers_come_back(
    n: u32,
    m: i32,
    k: u64,
    d: &Double,
    back: u32,
    e: Double,
    f: Double,
    g: Double,
    bits: u64,
    finite: bool,
    natural: bool,
)
    requires
        call_ensures(Double::from_u32, (n,), *d),
        call_ensures(Double::to_u32, (d,), back),
        call_ensures(Double::from_i32, (m,), e),
        k <= 0x20_0000_0000_0000,
        call_ensures(Double::from_u64, (k,), f),
        call_ensures(Double::from_bits, (k,), g),
        call_ensures(Double::to_bits, (d,), bits),
        call_ensures(Double::finite, (d,), finite),
        call_ensures(Double::finite_at_least_zero, (d,), natural),
    ensures
        back == n,
        n == m ==> d.bits == e.bits,
        n == k ==> d.bits == f.bits,
        g.bits == k,
        bits == d.bits,
        finite,
        natural,
        n == 0 ==> d.bits == 0,
        m < 0 ==> e.bits >= 0x8000_0000_0000_0000,
{
    lemma_nat_bits(n as nat);
    lemma_nat_bits((n + 1) as nat);
    law_kinds_of_doubles(d.bits, 0);
    if m < 0 {
        lemma_nat_bits((-m) as nat);
    }
}

} // verus!
