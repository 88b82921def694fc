use vstd::prelude::*;
use vstd::arithmetic::power2::{
    lemma2_to64,
    lemma2_to64_rest,
    lemma_pow2_adds,
    lemma_pow2_pos,
    lemma_pow2_strictly_increases,
    lemma_pow2_unfold,
    pow2,
};
use vstd::arithmetic::div_mod::{
    lemma_div_is_ordered,
    lemma_div_multiples_vanish_quotient,
    lemma_fundamental_div_mod,
};

verus! {

/// The bit pattern of the single-precision number one.
pub const ONE_BITS: u32 = 0x3F80_0000;

/// The bit pattern of the single-precision number negative zero.
pub const NEGATIVE_ZERO_BITS: u32 = 0x8000_0000;

/// The number of values that the fraction field of a single-precision number takes.
pub const FRACTION_SPAN: u32 = 0x80_0000;

/// The exponent field of a bit pattern whose sign bit is clear.
pub open spec fn exponent_field(bits: u32) -> nat {
    (bits / FRACTION_SPAN) as nat
}

/// The fraction field of a bit pattern.
pub open spec fn fraction_field(bits: u32) -> nat {
    (bits % FRACTION_SPAN) as nat
}

/// The number that a bit pattern with a clear sign bit stands for, as a count of
/// units of two to the power of minus 149.
///
/// With the exponent field zero the number is subnormal and the count is the
/// fraction field itself; otherwise the fraction field gets a leading one and is
/// doubled once for each step of the exponent above one.
pub open spec fn numerator(bits: u32) -> nat {
    if exponent_field(bits) == 0 {
        fraction_field(bits)
    } else {
        (FRACTION_SPAN as nat + fraction_field(bits)) * pow2((exponent_field(bits) - 1) as nat)
    }
}

/// The product of the position that `bits` stands for and `cap`, rounded to the
/// nearest integer, halves upwards.
pub open spec fn scaled(bits: u32, cap: u32) -> int {
    (2 * (numerator(bits) * cap) + pow2(149)) / (pow2(150) as int)
}

/// The pattern of one stands for 2 to the power of 149 units, the pattern of zero for none.
pub proof fn lemma_numerator_ends()
    ensures
        numerator(0) == 0,
        numerator(ONE_BITS) == pow2(149),
{
    lemma2_to64();
    lemma_pow2_adds(23, 126);
    assert(exponent_field(ONE_BITS) == 127);
    assert(fraction_field(ONE_BITS) == 0);
}

/// Among the patterns up to that of one, a greater pattern stands for a greater
/// number.
pub proof fn lemma_numerator_monotone(a: u32, b: u32)
    requires
        a <= b,
    ensures
        numerator(a) <= numerator(b),
{
    let ea = exponent_field(a);
    let eb = exponent_field(b);
    let fa = fraction_field(a);
    let fb = fraction_field(b);
    lemma_fundamental_div_mod(a as int, FRACTION_SPAN as int);
    lemma_fundamental_div_mod(b as int, FRACTION_SPAN as int);
    assert(ea <= eb) by {
        lemma_div_is_ordered(a as int, b as int, FRACTION_SPAN as int);
    }
    if ea == eb {
        assert(fa <= fb);
        if ea > 0 {
            let p = pow2((ea - 1) as nat);
            assert((FRACTION_SPAN + fa) * p <= (FRACTION_SPAN + fb) * p) by (nonlinear_arith)
                requires
                    fa <= fb,
                    0 <= p,
            ;
        }
    } else {
        let pb = pow2((eb - 1) as nat);
        lemma_pow2_pos((eb - 1) as nat);
        assert(FRACTION_SPAN <= (FRACTION_SPAN + fb) * pb) by (nonlinear_arith)
            requires
                1 <= pb,
                0 <= fb,
        ;
        if ea > 0 {
            let pa = pow2((ea - 1) as nat);
            lemma_pow2_unfold(ea);
            if ea < eb - 1 {
                lemma_pow2_strictly_increases(ea, (eb - 1) as nat);
            }
            assert(pow2(ea) <= pb);
            assert((FRACTION_SPAN + fa) * pa <= (FRACTION_SPAN + fb) * pb) by (nonlinear_arith)
                requires
                    0 <= fa < FRACTION_SPAN,
                    0 <= fb,
                    0 <= pa,
                    2 * pa <= pb,
            ;
        }
    }
}

/// No pattern up to that of one stands for more than one.
pub proof fn lemma_numerator_bound(bits: u32)
    requires
        bits <= ONE_BITS,
    ensures
        numerator(bits) <= pow2(149),
{
    lemma_numerator_monotone(bits, ONE_BITS);
    lemma_numerator_ends();
}

/// The rounded product is the integer nearest to the exact product: twice the
/// distance between the two, in units of two to the power of minus 149, is at most
/// one whole.
pub proof fn lemma_scaled_nearest(bits: u32, cap: u32)
    ensures
        ({
            let exact = numerator(bits) * cap;
            let whole = pow2(149) as int;
            2 * exact - whole < 2 * (whole * scaled(bits, cap)) <= 2 * exact + whole
        }),
{
    let exact = (numerator(bits) * cap) as int;
    let whole = pow2(149) as int;
    lemma_pow2_pos(149);
    lemma_pow2_unfold(150);
    let q = scaled(bits, cap);
    assert(2 * exact - whole < 2 * (whole * q) <= 2 * exact + whole) by (nonlinear_arith)
        requires
            q == (2 * exact + whole) / (2 * whole),
            0 < whole,
    ;
}

/// The rounded product lies between zero and the cap, and takes both ends: zero at
/// the position zero, the cap at the position one.
pub proof fn lemma_scaled_range(bits: u32, cap: u32)
    requires
        bits <= ONE_BITS,
    ensures
        0 <= scaled(bits, cap) <= cap,
        scaled(0, cap) == 0,
        scaled(ONE_BITS, cap) == cap,
{
    lemma_numerator_bound(bits);
    lemma_numerator_ends();
    lemma_pow2_pos(149);
    lemma_pow2_unfold(150);
    let whole = pow2(149) as int;
    let n = numerator(bits) as int;
    assert(0 <= (2 * (n * cap) + whole) / (2 * whole) <= cap) by (nonlinear_arith)
        requires
            0 <= n <= whole,
            0 < whole,
            0 <= cap,
    ;
    assert((2 * (0 * cap) + whole) / (2 * whole) == 0) by (nonlinear_arith)
        requires
            0 < whole,
    ;
    assert((2 * (whole * cap) + whole) / (2 * whole) == cap) by (nonlinear_arith)
        requires
            0 < whole,
            0 <= cap,
    ;
}

/// A greater position has a rounded product that is at least as great.
pub proof fn lemma_scaled_monotone(a: u32, b: u32, cap: u32)
    requires
        a <= b,
    ensures
        scaled(a, cap) <= scaled(b, cap),
{
    lemma_numerator_monotone(a, b);
    lemma_pow2_pos(150);
    let na = numerator(a) as int;
    let nb = numerator(b) as int;
    assert(na * cap <= nb * cap) by (nonlinear_arith)
        requires
            na <= nb,
            0 <= cap,
    ;
    lemma_div_is_ordered(
        2 * (na * cap) + pow2(149),
        2 * (nb * cap) + pow2(149),
        pow2(150) as int,
    );
}

/// Computes two to the power of `e`.
fn power_of_two(e: u32) -> (out: u64)
    requires
        e < 64,
    ensures
        out == pow2(e as nat),
{
    let mut out: u64 = 1;
    let mut i: u32 = 0;
    proof {
        lemma2_to64();
    }
    while i < e
        invariant
            i <= e < 64,
            out == pow2(i as nat),
        decreases e - i,
    {
        proof {
            lemma_pow2_unfold((i + 1) as nat);
            lemma2_to64();
            lemma2_to64_rest();
            if i + 1 < 63 {
                lemma_pow2_strictly_increases((i + 1) as nat, 63);
            }
        }
        out = out * 2;
        i = i + 1;
    }
    out
}

/// A position in the closed unit interval, held as the bit pattern of a
/// single-precision binary number.
///
/// The patterns from zero to `ONE_BITS` are those of the numbers from zero to one,
/// in ascending order.
#[derive(Clone, Copy, Debug, PartialEq, Eq, Structural)]
pub struct UnitPosition {
    bits: u32,
}

impl UnitPosition {
    #[verifier::type_invariant]
    spec fn inv(self) -> bool {
        self.bits <= ONE_BITS
    }

    /// The bit pattern of the position.
    pub closed spec fn spec_bits(self) -> u32 {
        self.bits
    }

    /// Whether the pattern is one of a position: at most that of one.
    pub open spec fn well_formed(self) -> bool {
        self.spec_bits() <= ONE_BITS
    }

    /// Reads a bit pattern as a position. The pattern is accepted if the number it
    /// stands for lies between zero and one, both included; negative zero is read as
    /// zero. Negative numbers, numbers above one, infinities and patterns that stand
    /// for no number are refused.
    pub fn from_bits(bits: u32) -> (out: Option<UnitPosition>)
        ensures
            out.is_some() <==> bits <= ONE_BITS || bits == NEGATIVE_ZERO_BITS,
            out matches Some(position) ==> {
                &&& position.well_formed()
                &&& position.spec_bits() == if bits == NEGATIVE_ZERO_BITS {
                    0
                } else {
                    bits
                }
            },
    {
        if bits == NEGATIVE_ZERO_BITS {
            Some(UnitPosition { bits: 0 })
        } else if bits <= ONE_BITS {
            Some(UnitPosition { bits })
        } else {
            None
        }
    }

    /// Returns the bit pattern of the position.
    #[verifier::when_used_as_spec(spec_bits)]
    pub fn bits(self) -> (out: u32)
        ensures
            out == self.spec_bits(),
            self.well_formed(),
    {
        proof {
            use_type_invariant(self);
        }
        self.bits
    }

    /// Returns the product of the position and `cap`, rounded to the nearest integer,
    /// halves upwards.
    pub fn scale(self, cap: u32) -> (out: u32)
        ensures
            out == scaled(self.spec_bits(), cap),
            self.well_formed(),
    {
        proof {
            use_type_invariant(self);
            lemma_scaled_range(self.bits, cap);
            lemma2_to64();
            lemma2_to64_rest();
            lemma_pow2_pos(149);
            lemma_pow2_unfold(150);
            lemma_fundamental_div_mod(self.bits as int, FRACTION_SPAN as int);
        }
        let exponent: u32 = self.bits / FRACTION_SPAN;
        let fraction: u32 = self.bits % FRACTION_SPAN;
        let ghost whole = pow2(149) as int;
        if exponent == 0 {
            proof {
                lemma_pow2_strictly_increases(64, 149);
                let n = fraction as int;
                assert((2 * (n * cap) + whole) / (2 * whole) == 0) by (nonlinear_arith)
                    requires
                        0 <= n < 0x80_0000,
                        0 <= cap <= 0xFFFF_FFFF,
                        whole > 0x1_0000_0000_0000_0000,
                ;
            }
            return 0;
        }
        assert(exponent <= 127);
        let significand: u64 = (FRACTION_SPAN + fraction) as u64;
        let shift: u32 = 150 - exponent;
        assert(significand * cap < 0x100_0000 * 0x1_0000_0000) by (nonlinear_arith)
            requires
                0 <= significand < 0x100_0000,
                0 <= cap < 0x1_0000_0000,
        ;
        let product: u64 = significand * (cap as u64);
        let ghost lift = pow2(exponent as nat) as int;
        let ghost low = pow2((exponent - 1) as nat) as int;
        let ghost half = pow2((shift - 1) as nat) as int;
        proof {
            lemma_pow2_pos(exponent as nat);
            lemma_pow2_pos((shift - 1) as nat);
            lemma_pow2_unfold(exponent as nat);
            lemma_pow2_unfold(shift as nat);
            lemma_pow2_adds((shift - 1) as nat, exponent as nat);
            assert(half * lift == whole);
            assert(numerator(self.bits) == significand * low);
            assert(2 * ((significand * low) * cap) == lift * product) by (nonlinear_arith)
                requires
                    lift == 2 * low,
                    product == significand * cap,
            ;
            assert(2 * (numerator(self.bits) * cap) + whole == lift * (product + half))
                by (nonlinear_arith)
                requires
                    2 * (numerator(self.bits) * cap) == lift * product,
                    half * lift == whole,
            ;
            assert(2 * whole == lift * (2 * half)) by (nonlinear_arith)
                requires
                    half * lift == whole,
            ;
            lemma_div_multiples_vanish_quotient(lift, product + half, 2 * half);
            assert(scaled(self.bits, cap) == (product + half) / (2 * half));
        }
        if shift > 57 {
            proof {
                if shift - 1 > 57 {
                    lemma_pow2_strictly_increases(57, (shift - 1) as nat);
                }
                assert(pow2(57) == 0x200_0000_0000_0000) by {
                    lemma_pow2_adds(32, 25);
                }
                assert((product + half) / (2 * half) == 0) by (nonlinear_arith)
                    requires
                        0 <= product < half,
                ;
            }
            return 0;
        }
        let half_unit: u64 = power_of_two(shift - 1);
        proof {
            if shift - 1 < 56 {
                lemma_pow2_strictly_increases((shift - 1) as nat, 56);
            }
            assert(pow2(56) == 0x100_0000_0000_0000) by {
                lemma_pow2_adds(32, 24);
            }
        }
        let unit: u64 = half_unit * 2;
        let rounded: u64 = (product + half_unit) / unit;
        rounded as u32
    }
}

} // verus!
