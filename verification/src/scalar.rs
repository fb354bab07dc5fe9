use std::cmp::Ordering;
use vstd::arithmetic::power2::{
    lemma2_to64, lemma2_to64_rest, lemma_pow2_adds, lemma_pow2_pos, lemma_pow2_strictly_increases,
    pow2,
};
use vstd::prelude::*;
use vstd::std_specs::cmp::{PartialEqSpecImpl, PartialOrdSpecImpl};

verus! {

/// Two to the power 63: the weight of the sign bit.
pub const SIGN_WEIGHT: u64 = 0x8000_0000_0000_0000;

/// Two to the power 52: the weight of the lowest exponent bit.
pub const EXPONENT_WEIGHT: u64 = 0x0010_0000_0000_0000;

/// The magnitude of both infinities; every larger magnitude is a NaN.
pub const INFINITY_MAGNITUDE: u64 = 0x7FF0_0000_0000_0000;

/// Result of comparing two values.
#[derive(Debug, Clone, Copy, PartialEq, Eq, Structural)]
pub enum Order {
    Less,
    Equal,
    Greater,
}

impl Order {
    pub open spec fn spec_reverse(self) -> Order {
        match self {
            Order::Less => Order::Greater,
            Order::Equal => Order::Equal,
            Order::Greater => Order::Less,
        }
    }

    /// The same comparison with its sides exchanged.
    #[verifier::when_used_as_spec(spec_reverse)]
    pub fn reverse(self) -> (r: Order)
        ensures
            r == self.spec_reverse(),
    {
        match self {
            Order::Less => Order::Greater,
            Order::Equal => Order::Equal,
            Order::Greater => Order::Less,
        }
    }

    /// How two integers compare.
    pub open spec fn of_ints(a: int, b: int) -> Order {
        if a < b {
            Order::Less
        } else if a == b {
            Order::Equal
        } else {
            Order::Greater
        }
    }
}

/// An IEEE-754 binary64 number, held by its bit pattern.
///
/// The library never calculates with numbers: it stores them, tells them
/// apart and orders them. All of that is exact on the bit pattern.
#[derive(Debug, Clone, Copy)]
pub struct Scalar {
    pub bits: u64,
}

/// The bit pattern without its sign bit.
pub open spec fn magnitude(bits: u64) -> int {
    bits as int % 0x8000_0000_0000_0000
}

/// Whether the sign bit is set.
pub open spec fn negative(bits: u64) -> bool {
    bits >= 0x8000_0000_0000_0000
}

/// Whether the bit pattern is not a number.
pub open spec fn is_nan_bits(bits: u64) -> bool {
    magnitude(bits) > 0x7FF0_0000_0000_0000
}

/// Whether the bit pattern is neither an infinity nor a NaN.
pub open spec fn is_finite_bits(bits: u64) -> bool {
    magnitude(bits) < 0x7FF0_0000_0000_0000
}

/// An integer that orders the bit patterns other than NaN as the numbers
/// they stand for: the magnitude, negated under a set sign bit. Both zeros
/// have the key zero.
pub open spec fn order_key(bits: u64) -> int {
    if negative(bits) {
        -magnitude(bits)
    } else {
        magnitude(bits)
    }
}

/// How two bit patterns compare as numbers; a NaN compares with nothing.
pub open spec fn order_of_bits(a: u64, b: u64) -> Option<Order> {
    if is_nan_bits(a) || is_nan_bits(b) {
        None
    } else {
        Some(Order::of_ints(order_key(a), order_key(b)))
    }
}

/// The significand of a finite bit pattern, as an integer.
pub open spec fn significand(bits: u64) -> int {
    if magnitude(bits) / 0x0010_0000_0000_0000 == 0 {
        magnitude(bits) % 0x0010_0000_0000_0000
    } else {
        0x0010_0000_0000_0000 + magnitude(bits) % 0x0010_0000_0000_0000
    }
}

/// The power of two that scales the integer significand of a finite bit pattern.
pub open spec fn exponent(bits: u64) -> int {
    if magnitude(bits) / 0x0010_0000_0000_0000 == 0 {
        -1074
    } else {
        magnitude(bits) / 0x0010_0000_0000_0000 - 1075
    }
}

/// The bit pattern of the positive number with the integer significand
/// `sig` and the biased exponent `biased`, brought to normal form.
pub open spec fn normalized(sig: nat, biased: nat) -> u64
    decreases biased,
{
    if sig >= 0x0010_0000_0000_0000 || biased == 0 {
        (biased * 0x0010_0000_0000_0000 + sig - 0x0010_0000_0000_0000) as u64
    } else {
        normalized(2 * sig, (biased - 1) as nat)
    }
}

/// The bit pattern of the number that equals an unsigned 32-bit integer.
pub open spec fn bits_of_u32(n: u32) -> u64 {
    if n == 0 {
        0
    } else {
        normalized(n as nat, 1075)
    }
}

/// Whether a bit pattern stands for exactly the integer `n`.
pub open spec fn stands_for_int(bits: u64, n: int) -> bool {
    let s = if negative(bits) {
        -significand(bits)
    } else {
        significand(bits)
    };
    &&& is_finite_bits(bits)
    &&& if exponent(bits) >= 0 {
        n == s * pow2(exponent(bits) as nat)
    } else {
        s == n * pow2((-exponent(bits)) as nat)
    }
}

/// The number that a bit pattern other than a NaN stands for, times two to
/// the power 1074, which makes an integer of every one of them. An infinity
/// counts as the number beyond the greatest finite one.
pub open spec fn scaled_value(bits: u64) -> int {
    let v = significand(bits) * pow2((exponent(bits) + 1074) as nat);
    if negative(bits) {
        -v
    } else {
        v
    }
}

/// A greater magnitude stands for a greater number.
proof fn lemma_magnitude_grows(a: u64, b: u64)
    requires
        !negative(a),
        !negative(b),
        a < b,
    ensures
        scaled_value(a) < scaled_value(b),
{
    let unit = 0x0010_0000_0000_0000int;
    let ea = a as int / unit;
    let eb = b as int / unit;
    let fa = a as int % unit;
    let fb = b as int % unit;
    lemma2_to64_rest();
    assert(pow2(52) == unit);
    assert(ea <= eb && (ea == eb ==> fa < fb)) by (nonlinear_arith)
        requires
            0 <= a < b,
            unit == 0x0010_0000_0000_0000int,
            ea == a as int / unit,
            eb == b as int / unit,
            fa == a as int % unit,
            fb == b as int % unit,
    ;
    let pa = pow2((exponent(a) + 1074) as nat) as int;
    let pb = pow2((exponent(b) + 1074) as nat) as int;
    lemma_pow2_pos((exponent(a) + 1074) as nat);
    lemma_pow2_pos((exponent(b) + 1074) as nat);
    if ea == eb {
        assert(significand(a) * pa < significand(b) * pa) by (nonlinear_arith)
            requires
                significand(a) < significand(b),
                pa > 0,
        ;
    } else {
        // The number of `a` is below two to the power 52 + ea, and the
        // number of `b` is not.
        let bound = pow2((52 + ea) as nat) as int;
        if ea == 0 {
            lemma2_to64();
            assert(pa == 1);
            assert(significand(a) * pa < bound) by (nonlinear_arith)
                requires
                    significand(a) < unit,
                    pa == 1,
                    bound == unit,
            ;
        } else {
            lemma_pow2_adds(53, (ea - 1) as nat);
            assert(pow2(53) == 2 * unit) by {
                lemma_pow2_adds(52, 1);
                lemma2_to64();
            }
            assert(significand(a) * pa < bound) by (nonlinear_arith)
                requires
                    significand(a) < 2 * unit,
                    pa > 0,
                    bound == (2 * unit) * pa,
            ;
        }
        lemma_pow2_adds(52, (eb - 1) as nat);
        let low = pow2((51 + eb) as nat) as int;
        assert(low == unit * pb);
        assert(significand(b) * pb >= low) by (nonlinear_arith)
            requires
                significand(b) >= unit,
                pb > 0,
                low == unit * pb,
        ;
        if 52 + ea < 51 + eb {
            lemma_pow2_strictly_increases((52 + ea) as nat, (51 + eb) as nat);
        }
    }
}

/// The order of the bit patterns other than NaN is the order of the
/// numbers they stand for.
pub proof fn lemma_order_is_numeric(a: u64, b: u64)
    requires
        !is_nan_bits(a),
        !is_nan_bits(b),
    ensures
        order_of_bits(a, b) == Some(Order::of_ints(scaled_value(a), scaled_value(b))),
{
    let sign = 0x8000_0000_0000_0000int;
    let ma: u64 = (a as int % sign) as u64;
    let mb: u64 = (b as int % sign) as u64;
    assert(scaled_value(ma) >= 0 && scaled_value(mb) >= 0) by {
        lemma_pow2_pos((exponent(ma) + 1074) as nat);
        lemma_pow2_pos((exponent(mb) + 1074) as nat);
        assert(significand(ma) * pow2((exponent(ma) + 1074) as nat) >= 0) by (nonlinear_arith)
            requires
                significand(ma) >= 0,
                pow2((exponent(ma) + 1074) as nat) > 0,
        ;
        assert(significand(mb) * pow2((exponent(mb) + 1074) as nat) >= 0) by (nonlinear_arith)
            requires
                significand(mb) >= 0,
                pow2((exponent(mb) + 1074) as nat) > 0,
        ;
    }
    assert(scaled_value(a) == if negative(a) { -scaled_value(ma) } else { scaled_value(ma) });
    assert(scaled_value(b) == if negative(b) { -scaled_value(mb) } else { scaled_value(mb) });
    if ma < mb {
        lemma_magnitude_grows(ma, mb);
    } else if mb < ma {
        lemma_magnitude_grows(mb, ma);
    }
    if ma == 0 {
        assert(0int * pow2((exponent(ma) + 1074) as nat) == 0);
    } else {
        lemma_magnitude_grows(0, ma);
        assert(0int * pow2((exponent(0) + 1074) as nat) == 0);
    }
    if mb == 0 {
        assert(0int * pow2((exponent(mb) + 1074) as nat) == 0);
    } else {
        lemma_magnitude_grows(0, mb);
        assert(0int * pow2((exponent(0) + 1074) as nat) == 0);
    }
}

/// A bit pattern stands for an integer exactly if the number it stands
/// for is that integer.
pub proof fn lemma_stands_for_int(bits: u64, n: int)
    requires
        is_finite_bits(bits),
    ensures
        stands_for_int(bits, n) <==> scaled_value(bits) == n * pow2(1074),
{
    let e = exponent(bits);
    let s = if negative(bits) {
        -significand(bits)
    } else {
        significand(bits)
    };
    let shift = pow2((e + 1074) as nat) as int;
    lemma_pow2_pos((e + 1074) as nat);
    assert(scaled_value(bits) == s * shift) by (nonlinear_arith)
        requires
            scaled_value(bits) == if negative(bits) {
                -(significand(bits) * shift)
            } else {
                significand(bits) * shift
            },
            s == if negative(bits) {
                -significand(bits)
            } else {
                significand(bits)
            },
    ;
    if e >= 0 {
        let up = pow2(e as nat) as int;
        lemma_pow2_adds(e as nat, 1074);
        lemma_pow2_pos(1074);
        assert(shift == up * pow2(1074));
        assert((n == s * up) <==> (s * shift == n * pow2(1074))) by (nonlinear_arith)
            requires
                shift == up * pow2(1074),
                pow2(1074) > 0,
        ;
    } else {
        let down = pow2((-e) as nat) as int;
        lemma_pow2_adds((-e) as nat, (e + 1074) as nat);
        lemma_pow2_pos((-e) as nat);
        assert(pow2(1074) == down * shift);
        assert((s == n * down) <==> (s * shift == n * pow2(1074))) by (nonlinear_arith)
            requires
                pow2(1074) == down * shift,
                shift > 0,
        ;
    }
}

/// The bit pattern of an unsigned 32-bit integer stands for that integer.
pub proof fn lemma_bits_of_u32(n: u32)
    ensures
        stands_for_int(bits_of_u32(n), n as int),
        !negative(bits_of_u32(n)),
        is_finite_bits(bits_of_u32(n)),
{
    if n == 0 {
        assert(0int * pow2(1074) == 0);
    } else {
        lemma2_to64();
        assert(n * pow2(0) == n);
        lemma_normalized(n as nat, 1075, n);
    }
}

proof fn lemma_normalized(sig: nat, biased: nat, n: u32)
    requires
        n != 0,
        1023 <= biased <= 1075,
        1 <= sig < 0x0020_0000_0000_0000,
        sig == n * pow2((1075 - biased) as nat),
    ensures
        stands_for_int(normalized(sig, biased), n as int),
        !negative(normalized(sig, biased)),
        is_finite_bits(normalized(sig, biased)),
    decreases biased,
{
    let unit = 0x0010_0000_0000_0000int;
    lemma2_to64();
    lemma2_to64_rest();
    if sig >= unit {
        let bits = normalized(sig, biased);
        assert(bits == biased * unit + sig - unit);
        assert(bits as int / unit == biased && bits as int % unit == sig - unit) by (nonlinear_arith)
            requires
                bits == biased * unit + sig - unit,
                unit == 0x0010_0000_0000_0000int,
                unit <= sig < 2 * unit,
                biased >= 0,
        ;
        assert(magnitude(bits) == bits);
        assert(exponent(bits) == biased - 1075);
        assert(significand(bits) == sig);
        if biased == 1075 {
            assert(sig * pow2(0) == sig);
            assert(n * pow2(0) == n);
        }
    } else {
        // A significand below two to the power 52 leaves room for one
        // more doubling before the exponent runs out.
        lemma_pow2_pos((1075 - biased) as nat);
        assert(sig >= pow2((1075 - biased) as nat)) by (nonlinear_arith)
            requires
                sig == n * pow2((1075 - biased) as nat),
                n >= 1,
                pow2((1075 - biased) as nat) > 0,
        ;
        assert(biased > 1023) by {
            assert(pow2(52) == unit);
        }
        lemma_pow2_adds((1075 - biased) as nat, 1);
        assert(n * (pow2((1075 - biased) as nat) * 2) == (n * pow2((1075 - biased) as nat)) * 2)
            by (nonlinear_arith);
        lemma_normalized(2 * sig, (biased - 1) as nat, n);
    }
}

/// The numbers of unsigned 32-bit integers are ordered as the integers are.
pub proof fn lemma_u32_order(a: u32, b: u32)
    ensures
        order_of_bits(bits_of_u32(a), bits_of_u32(b)) == Some(Order::of_ints(a as int, b as int)),
{
    lemma_bits_of_u32(a);
    lemma_bits_of_u32(b);
    lemma_stands_for_int(bits_of_u32(a), a as int);
    lemma_stands_for_int(bits_of_u32(b), b as int);
    lemma_order_is_numeric(bits_of_u32(a), bits_of_u32(b));
    lemma_pow2_pos(1074);
    assert((a as int) < (b as int) ==> a * pow2(1074) < b * pow2(1074)) by (nonlinear_arith)
        requires
            pow2(1074) > 0,
    ;
    assert((a as int) > (b as int) ==> a * pow2(1074) > b * pow2(1074)) by (nonlinear_arith)
        requires
            pow2(1074) > 0,
    ;
}

impl Scalar {
    /// Positive zero, in ghost code.
    pub open spec fn spec_zero() -> Scalar {
        Scalar { bits: 0 }
    }

    /// The number one, in ghost code.
    pub open spec fn spec_one() -> Scalar {
        Scalar { bits: 0x3FF0_0000_0000_0000 }
    }

    pub open spec fn spec_to_bits(&self) -> u64 {
        self.bits
    }

    pub open spec fn spec_is_nan(&self) -> bool {
        is_nan_bits(self.bits)
    }

    pub open spec fn spec_is_finite(&self) -> bool {
        is_finite_bits(self.bits)
    }

    /// How this number compares with another; `None` where either is a NaN.
    pub open spec fn spec_order(&self, other: &Scalar) -> Option<Order> {
        order_of_bits(self.bits, other.bits)
    }

    /// Positive zero.
    pub fn zero() -> (r: Self)
        ensures
            r == Self::spec_zero(),
            stands_for_int(r.bits, 0),
    {
        assert(0int * pow2(1074) == 0);
        Scalar { bits: 0 }
    }

    /// The number one.
    pub fn one() -> (r: Self)
        ensures
            r == Self::spec_one(),
            stands_for_int(r.bits, 1),
    {
        proof {
            vstd::arithmetic::power2::lemma2_to64_rest();
            assert(1int * pow2(52) == 0x0010_0000_0000_0000);
        }
        Scalar { bits: 0x3FF0_0000_0000_0000 }
    }

    pub fn from_bits(bits: u64) -> (r: Self)
        ensures
            r.bits == bits,
    {
        Scalar { bits }
    }

    #[verifier::when_used_as_spec(spec_to_bits)]
    pub fn to_bits(&self) -> (r: u64)
        ensures
            r == self.bits,
    {
        self.bits
    }

    pub open spec fn spec_from_u32(n: u32) -> Scalar {
        Scalar { bits: bits_of_u32(n) }
    }

    /// The number that equals an unsigned 32-bit integer.
    #[verifier::when_used_as_spec(spec_from_u32)]
    pub fn from_u32(n: u32) -> (r: Self)
        ensures
            r == Self::spec_from_u32(n),
            stands_for_int(r.bits, n as int),
            !negative(r.bits),
    {
        if n == 0 {
            return Self::zero();
        }
        let mut sig: u64 = n as u64;
        let mut biased: u64 = 1075;
        proof {
            lemma2_to64();
            assert(n * pow2(0) == n);
        }
        while sig < EXPONENT_WEIGHT
            invariant
                1 <= sig < 0x0020_0000_0000_0000,
                1023 <= biased <= 1075,
                sig == n * pow2((1075 - biased) as nat),
                sig >= pow2((1075 - biased) as nat),
                normalized(sig as nat, biased as nat) == bits_of_u32(n),
                n != 0,
            decreases biased,
        {
            proof {
                lemma2_to64();
                lemma_pow2_adds((1075 - biased) as nat, 1);
                assert(pow2(53) == 0x0020_0000_0000_0000) by {
                    lemma_pow2_adds(52, 1);
                    vstd::arithmetic::power2::lemma2_to64_rest();
                }
                if biased == 1023 {
                    vstd::arithmetic::power2::lemma2_to64_rest();
                    assert(pow2(52) == 0x0010_0000_0000_0000);
                }
                assert(n * (pow2((1075 - biased) as nat) * 2) == (n * pow2((1075 - biased) as nat))
                    * 2) by (nonlinear_arith);
            }
            sig = sig * 2;
            biased = biased - 1;
        }
        let bits: u64 = biased * EXPONENT_WEIGHT + (sig - EXPONENT_WEIGHT);
        proof {
            assert(bits / 0x0010_0000_0000_0000 == biased && bits % 0x0010_0000_0000_0000 == sig
                - 0x0010_0000_0000_0000) by (nonlinear_arith)
                requires
                    bits == biased * 0x0010_0000_0000_0000 + (sig - 0x0010_0000_0000_0000),
                    0x0010_0000_0000_0000 <= sig < 0x0020_0000_0000_0000,
            ;
            assert(magnitude(bits) == bits);
            assert(exponent(bits) == biased - 1075);
            assert(significand(bits) == sig);
            if biased == 1075 {
                lemma2_to64();
                assert(sig * pow2(0) == sig);
                assert(n * pow2(0) == n);
            }
        }
        Scalar { bits }
    }

    /// Whether the number is a NaN.
    #[verifier::when_used_as_spec(spec_is_nan)]
    pub fn is_nan(&self) -> (r: bool)
        ensures
            r == self.spec_is_nan(),
    {
        self.bits % SIGN_WEIGHT > INFINITY_MAGNITUDE
    }

    /// Whether the number is neither an infinity nor a NaN.
    #[verifier::when_used_as_spec(spec_is_finite)]
    pub fn is_finite(&self) -> (r: bool)
        ensures
            r == self.spec_is_finite(),
    {
        self.bits % SIGN_WEIGHT < INFINITY_MAGNITUDE
    }

    /// Compares two numbers as IEEE-754 does: a NaN compares with nothing,
    /// and the two zeros are equal.
    pub fn order(&self, other: &Scalar) -> (r: Option<Order>)
        ensures
            r == self.spec_order(other),
    {
        if self.is_nan() || other.is_nan() {
            return None;
        }
        let a: u64 = self.bits % SIGN_WEIGHT;
        let b: u64 = other.bits % SIGN_WEIGHT;
        let a_negative: bool = self.bits >= SIGN_WEIGHT;
        let b_negative: bool = other.bits >= SIGN_WEIGHT;
        let r = if a_negative {
            if b_negative {
                if a > b {
                    Order::Less
                } else if a == b {
                    Order::Equal
                } else {
                    Order::Greater
                }
            } else if a == 0 && b == 0 {
                Order::Equal
            } else {
                Order::Less
            }
        } else if b_negative {
            if a == 0 && b == 0 {
                Order::Equal
            } else {
                Order::Greater
            }
        } else if a < b {
            Order::Less
        } else if a == b {
            Order::Equal
        } else {
            Order::Greater
        };
        Some(r)
    }
}

impl PartialEq for Scalar {
    fn eq(&self, other: &Scalar) -> (r: bool) {
        match self.order(other) {
            Some(Order::Equal) => true,
            _ => false,
        }
    }
}

impl PartialEqSpecImpl for Scalar {
    open spec fn obeys_eq_spec() -> bool {
        true
    }

    open spec fn eq_spec(&self, other: &Scalar) -> bool {
        self.spec_order(other) == Some(Order::Equal)
    }
}

impl PartialOrd for Scalar {
    fn partial_cmp(&self, other: &Scalar) -> (r: Option<Ordering>) {
        match self.order(other) {
            Some(Order::Less) => Some(Ordering::Less),
            Some(Order::Equal) => Some(Ordering::Equal),
            Some(Order::Greater) => Some(Ordering::Greater),
            None => None,
        }
    }
}

impl PartialOrdSpecImpl for Scalar {
    open spec fn obeys_partial_cmp_spec() -> bool {
        true
    }

    open spec fn partial_cmp_spec(&self, other: &Scalar) -> Option<Ordering> {
        match self.spec_order(other) {
            Some(Order::Less) => Some(Ordering::Less),
            Some(Order::Equal) => Some(Ordering::Equal),
            Some(Order::Greater) => Some(Ordering::Greater),
            None => None,
        }
    }
}

} // verus!
