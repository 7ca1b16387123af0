//! The machine's numbers.
//!
//! Every cell of the machine holds an IEEE 754 binary64 number, kept as its 64 bits:
//! one sign bit, eleven bits of biased exponent, fifty-two bits of fraction. Whatever
//! can be read off the bits is decided here, in integers: the sign, the class of a
//! number, the comparison with the machine's epsilon, and the conversions between
//! numbers and the machine's integer registers. Sums, products and the like are not
//! computed here: the machine asks its host for them.
use vstd::arithmetic::div_mod::{
    lemma_basic_div, lemma_div_by_multiple, lemma_div_denominator, lemma_fundamental_div_mod,
};
use vstd::arithmetic::power2::{
    lemma2_to64, lemma2_to64_rest, lemma_pow2_adds, lemma_pow2_pos, lemma_pow2_strictly_increases,
    lemma_pow2_unfold, pow2,
};
use vstd::bits::{lemma_u64_shl_is_mul, lemma_u64_shr_is_div};
use vstd::prelude::*;

verus! {

/// The sign bit: the bits of `-0.0`.
pub const SIGN: u64 = 0x8000_0000_0000_0000;

/// The bits of positive infinity. Every magnitude above it is a NaN.
pub const INFINITY: u64 = 0x7ff0_0000_0000_0000;

/// The bits of the machine's epsilon, the binary64 number nearest to one ten-millionth.
pub const EPSILON: u64 = 0x3e7a_d7f2_9abc_af48;

/// Two to the power 52: the weight of the exponent field, and the implicit leading
/// bit of a normal number's significand.
pub const HIDDEN: u64 = 0x0010_0000_0000_0000;

/// Two to the power 53: the first integer from which not every integer is a binary64.
pub const EXACT: u64 = 0x0020_0000_0000_0000;

/// Whether the sign bit is set.
pub open spec fn negative(bits: u64) -> bool {
    bits >= SIGN
}

/// The bits with the sign bit cleared: the bits of the absolute value.
pub open spec fn magnitude(bits: u64) -> u64 {
    if bits >= SIGN {
        (bits - SIGN) as u64
    } else {
        bits
    }
}

/// Whether the bits are a NaN.
pub open spec fn is_nan(bits: u64) -> bool {
    magnitude(bits) > INFINITY
}

/// Whether the bits are a zero, a subnormal or a normal number.
pub open spec fn is_finite(bits: u64) -> bool {
    magnitude(bits) < INFINITY
}

/// The biased exponent field, from 0 to 2047.
pub open spec fn exponent(bits: u64) -> nat {
    (magnitude(bits) / HIDDEN) as nat
}

/// The fraction field, below two to the power 52.
pub open spec fn fraction(bits: u64) -> nat {
    (magnitude(bits) % HIDDEN) as nat
}

/// The integer `s` in `|x| = s * 2^scale`: the fraction, with the implicit leading
/// bit where the number is normal.
pub open spec fn significand(bits: u64) -> nat {
    if exponent(bits) == 0 {
        fraction(bits)
    } else {
        (HIDDEN + fraction(bits)) as nat
    }
}

/// The power of two in `|x| = significand * 2^scale`.
pub open spec fn scale(bits: u64) -> int {
    if exponent(bits) == 0 {
        -1074
    } else {
        exponent(bits) - 1075
    }
}

/// The absolute value, as bits.
pub fn abs(bits: u64) -> (r: u64)
    ensures
        r == magnitude(bits),
{
    if bits >= SIGN {
        bits - SIGN
    } else {
        bits
    }
}

/// What the machine takes for zero: an absolute value of at most epsilon.
/// A NaN is not within epsilon.
pub open spec fn within_epsilon(bits: u64) -> bool {
    magnitude(bits) <= EPSILON
}

/// What the machine takes for nonzero: an absolute value of at least epsilon,
/// infinity included. A NaN is not beyond epsilon.
pub open spec fn beyond_epsilon(bits: u64) -> bool {
    EPSILON <= magnitude(bits) <= INFINITY
}

/// Tests `|x| <= epsilon`.
pub fn is_zero(bits: u64) -> (r: bool)
    ensures
        r == within_epsilon(bits),
{
    abs(bits) <= EPSILON
}

/// Tests `|x| >= epsilon`.
pub fn is_nonzero(bits: u64) -> (r: bool)
    ensures
        r == beyond_epsilon(bits),
{
    let m: u64 = abs(bits);
    EPSILON <= m && m <= INFINITY
}

/// Whether the absolute value of `a` is at most that of `b`, as numbers: the two
/// significands are compared at the lower of the two scales.
pub open spec fn at_most(a: u64, b: u64) -> bool {
    let low = if scale(a) <= scale(b) {
        scale(a)
    } else {
        scale(b)
    };
    significand(a) * pow2((scale(a) - low) as nat) <= significand(b) * pow2(
        (scale(b) - low) as nat,
    )
}

/// The order of the bits of two absolute values is the order of the absolute
/// values as numbers.
pub proof fn lemma_order(a: u64, b: u64)
    ensures
        magnitude(a) <= magnitude(b) <==> at_most(a, b),
{
    if exponent(a) < exponent(b) {
        lemma_order_strict(a, b);
    } else if exponent(b) < exponent(a) {
        lemma_order_strict(b, a);
    } else {
        lemma2_to64();
        assert(significand(a) * 1 == significand(a) && significand(b) * 1 == significand(b));
    }
}

/// Between two numbers with different exponent fields, the one with the lower
/// field has the lower absolute value.
proof fn lemma_order_strict(a: u64, b: u64)
    requires
        exponent(a) < exponent(b),
    ensures
        at_most(a, b),
        !at_most(b, a),
{
    let sa = significand(a);
    let sb = significand(b);
    let d = (scale(b) - scale(a)) as nat;
    lemma2_to64();
    assert(sa * 1 == sa && sb * 1 == sb);
    if d >= 1 {
        lemma_apart(sa, sb, d);
    }
}

/// The machine's epsilon is the binary64 nearest to one ten-millionth: its
/// significand, at the scale of two to the power -76, is within half a unit of
/// `2^76 / 10^7`.
pub proof fn lemma_epsilon()
    ensures
        scale(EPSILON) == -76,
        significand(EPSILON) == 7_555_786_372_591_432,
        -10_000_000 <= 2 * (significand(EPSILON) * 10_000_000 - 0x1000_0000_0000_0000_0000int)
            <= 10_000_000,
{
}

/// The machine's tests against epsilon are comparisons of numbers: a number is
/// within epsilon when its absolute value is at most epsilon, and beyond epsilon
/// when it is no NaN and epsilon is at most its absolute value.
pub proof fn lemma_epsilon_tests(bits: u64)
    ensures
        within_epsilon(bits) <==> at_most(bits, EPSILON),
        beyond_epsilon(bits) <==> !is_nan(bits) && at_most(EPSILON, bits),
{
    lemma_order(bits, EPSILON);
    lemma_order(EPSILON, bits);
}

/// The integer part of the absolute value: `significand * 2^scale`, rounded down.
pub open spec fn whole(bits: u64) -> nat {
    if scale(bits) >= 0 {
        significand(bits) * pow2(scale(bits) as nat)
    } else {
        significand(bits) / pow2((-scale(bits)) as nat)
    }
}

/// The number as an address: its integer part, held to the range of addresses.
/// A NaN and every negative number give zero.
pub open spec fn index_of(bits: u64) -> usize {
    if is_nan(bits) || negative(bits) {
        0
    } else if whole(bits) >= usize::MAX {
        usize::MAX
    } else {
        whole(bits) as usize
    }
}

/// The number as a byte: its integer part, held to the range of bytes.
/// A NaN and every negative number give zero.
pub open spec fn byte_of(bits: u64) -> u8 {
    if is_nan(bits) || negative(bits) {
        0
    } else if whole(bits) >= 255 {
        255
    } else {
        whole(bits) as u8
    }
}

/// Converts a number to an address: the integer part, held to the range of
/// addresses; zero for a NaN and for every negative number.
pub fn to_index(bits: u64) -> (r: usize)
    ensures
        r == index_of(bits),
{
    if bits > INFINITY {
        0
    } else {
        let whole: u64 = integer_part(bits);
        if whole >= usize::MAX as u64 {
            usize::MAX
        } else {
            whole as usize
        }
    }
}

/// Converts a number to a byte: the integer part, held to the range of bytes;
/// zero for a NaN and for every negative number.
pub fn to_byte(bits: u64) -> (r: u8)
    ensures
        r == byte_of(bits),
{
    if bits > INFINITY {
        0
    } else {
        let whole: u64 = integer_part(bits);
        if whole >= 255 {
            255
        } else {
            whole as u8
        }
    }
}

/// The integer part of the absolute value, held to the range of `u64`.
fn integer_part(bits: u64) -> (r: u64)
    ensures
        r == if whole(bits) >= u64::MAX {
            u64::MAX
        } else {
            whole(bits) as u64
        },
{
    let m: u64 = abs(bits);
    let e: u64 = m / HIDDEN;
    let f: u64 = m % HIDDEN;
    proof {
        lemma2_to64();
        lemma2_to64_rest();
    }
    if e < 1023 {
        proof {
            let j: nat = (-scale(bits)) as nat;
            lemma_pow2_at_least(53, j);
            lemma_basic_div(significand(bits) as int, pow2(j) as int);
        }
        0
    } else if e >= 1087 {
        proof {
            let k: nat = scale(bits) as nat;
            let s: nat = significand(bits);
            lemma_pow2_at_least(12, k);
            assert(s * pow2(k) >= 0x10_0000_0000_0000 * 0x1000) by (nonlinear_arith)
                requires
                    s >= 0x10_0000_0000_0000,
                    pow2(k) >= 0x1000,
            ;
        }
        u64::MAX
    } else if e >= 1075 {
        let k: u64 = e - 1075;
        let s: u64 = HIDDEN + f;
        proof {
            lemma_pow2_at_least(k as nat, 11);
            assert(s * pow2(k as nat) <= 0x1f_ffff_ffff_ffff * 0x800) by (nonlinear_arith)
                requires
                    s <= 0x1f_ffff_ffff_ffff,
                    pow2(k as nat) <= 0x800,
            ;
            lemma_u64_shl_is_mul(s, k);
        }
        s << k
    } else {
        let j: u64 = 1075 - e;
        let s: u64 = HIDDEN + f;
        proof {
            lemma_u64_shr_is_div(s, j);
        }
        s >> j
    }
}

/// Whether `bits` is the integer `n`: not negative, finite, and
/// `significand * 2^scale == n` exactly.
pub open spec fn encodes(bits: u64, n: nat) -> bool {
    &&& !negative(bits)
    &&& is_finite(bits)
    &&& if scale(bits) >= 0 {
        significand(bits) * pow2(scale(bits) as nat) == n
    } else {
        significand(bits) == n * pow2((-scale(bits)) as nat)
    }
}

/// The bits of the number `n`, for an `n` that is a binary64.
pub open spec fn of_nat(n: nat) -> u64 {
    choose|bits: u64| encodes(bits, n)
}

/// The distance between neighbouring binary64 numbers around `n`: one below two to
/// the power 53, and doubling with every doubling of `n` from there.
pub open spec fn grain(n: nat) -> nat
    decreases n,
{
    if n < EXACT {
        1
    } else {
        2 * grain(n / 2)
    }
}

/// The multiple of `grain(n)` nearest to `n`; of two that are equally near, the
/// even multiple.
pub open spec fn rounded(n: nat) -> nat {
    let g = grain(n);
    let q = n / g;
    let r = n % g;
    if 2 * r < g || (2 * r == g && q % 2 == 0) {
        q * g
    } else {
        (q + 1) * g
    }
}

/// The address as a number: the binary64 nearest to it.
pub open spec fn of_index(n: usize) -> u64 {
    of_nat(rounded(n as nat))
}

/// The binary64 nearest to the integer `n`; of two that are equally near, the one
/// with the even significand.
pub fn nearest(n: u64) -> (r: u64)
    ensures
        encodes(r, rounded(n as nat)),
        r == of_nat(rounded(n as nat)),
{
    let r: u64 = if n == 0 {
        proof {
            lemma_rounded_exact(0);
            assert(0 * pow2(1074) == 0) by (nonlinear_arith);
        }
        0
    } else if n < EXACT {
        proof {
            lemma_rounded_exact(n as nat);
        }
        exact(n)
    } else {
        inexact(n)
    };
    proof {
        lemma_encodes_unique(r, of_nat(rounded(n as nat)), rounded(n as nat));
    }
    r
}

/// Converts an address to a number: the binary64 nearest to it.
pub fn from_index(n: usize) -> (r: u64)
    ensures
        r == of_index(n),
{
    nearest(n as u64)
}

/// Converts a byte to a number.
pub fn from_byte(n: u8) -> (r: u64)
    ensures
        r == of_nat(n as nat),
        encodes(r, n as nat),
{
    proof {
        lemma_rounded_exact(n as nat);
    }
    nearest(n as u64)
}

/// The bits of a positive integer below two to the power 53.
fn exact(n: u64) -> (r: u64)
    requires
        0 < n < EXACT,
    ensures
        encodes(r, n as nat),
{
    let mut m: u64 = n;
    let mut e: u64 = 1075;
    proof {
        lemma2_to64();
        assert(n * 1 == n);
    }
    while m < HIDDEN
        invariant
            0 < n < EXACT,
            0 < m < EXACT,
            1023 <= e <= 1075,
            m == n * pow2((1075 - e) as nat),
        decreases e,
    {
        proof {
            let k: nat = (1075 - e) as nat;
            lemma2_to64_rest();
            if k >= 52 {
                lemma_pow2_at_least(52, k);
                assert(n * pow2(k) >= pow2(k)) by (nonlinear_arith)
                    requires
                        n >= 1,
                ;
            }
            lemma_pow2_unfold(k + 1);
            assert(2 * (n * pow2(k)) == n * (2 * pow2(k))) by (nonlinear_arith);
        }
        m = m * 2;
        e = e - 1;
    }
    proof {
        lemma2_to64();
        assert(m * 1 == m);
        lemma_assembled(m as nat, e as nat);
    }
    assemble(m, e)
}

/// The bits of the binary64 nearest to an integer from two to the power 53 on.
fn inexact(n: u64) -> (r: u64)
    requires
        n >= EXACT,
    ensures
        encodes(r, rounded(n as nat)),
{
    let mut m: u64 = n;
    let mut e: u64 = 1075;
    let mut unit: u64 = 1;
    proof {
        lemma2_to64();
        assert(1 * grain(m as nat) == grain(m as nat));
    }
    while m >= EXACT
        invariant
            n >= EXACT,
            m >= HIDDEN,
            1075 <= e <= 1086,
            1 <= unit <= 0x800,
            unit == pow2((e - 1075) as nat),
            m == n / unit,
            m >= EXACT ==> unit <= 0x400,
            e == 1075 ==> m == n,
            grain(n as nat) == unit * grain(m as nat),
        decreases m,
    {
        proof {
            lemma2_to64();
            lemma_div_denominator(n as int, unit as int, 2);
            lemma_pow2_unfold((e - 1075 + 1) as nat);
            assert(unit * (2 * grain(m as nat / 2)) == (unit * 2) * grain(m as nat / 2))
                by (nonlinear_arith);
            if m / 2 >= EXACT {
                lemma_fundamental_div_mod(n as int, (unit * 2) as int);
                assert((unit * 2) * 0x20_0000_0000_0000 <= (unit * 2) * (m / 2)) by (nonlinear_arith)
                    requires
                        m / 2 >= 0x20_0000_0000_0000,
                        unit >= 0,
                ;
            }
        }
        m = m / 2;
        unit = unit * 2;
        e = e + 1;
    }
    proof {
        lemma_pow2_unfold((e - 1075) as nat);
        assert(unit * grain(m as nat) == unit) by (nonlinear_arith)
            requires
                grain(m as nat) == 1,
        ;
    }
    let ghost quotient: u64 = m;
    let rest: u64 = n % unit;
    let half: u64 = unit / 2;
    if rest > half || (rest == half && m % 2 == 1) {
        m = m + 1;
        if m == EXACT {
            proof {
                lemma_pow2_unfold((e - 1075 + 1) as nat);
            }
            m = HIDDEN;
            e = e + 1;
        }
    }
    let r: u64 = assemble(m, e);
    proof {
        lemma_assembled(m as nat, e as nat);
        let p = pow2(scale(r) as nat);
        if m == HIDDEN && quotient != HIDDEN {
            assert(m * p == (quotient + 1) * unit) by (nonlinear_arith)
                requires
                    m == 0x10_0000_0000_0000,
                    quotient + 1 == 0x20_0000_0000_0000,
                    p == 2 * unit,
            ;
        }
        assert(significand(r) * p == rounded(n as nat));
    }
    r
}

/// The bits of the normal number with significand `m` and exponent field `e`.
spec fn assembled(m: nat, e: nat) -> u64 {
    (e * HIDDEN + (m - HIDDEN)) as u64
}

/// Puts a significand and an exponent field together.
fn assemble(m: u64, e: u64) -> (r: u64)
    requires
        HIDDEN <= m < EXACT,
        1 <= e <= 2046,
    ensures
        r == assembled(m as nat, e as nat),
{
    proof {
        lemma_assembled(m as nat, e as nat);
    }
    e * HIDDEN + (m - HIDDEN)
}

/// No two bit patterns encode the same integer.
pub proof fn lemma_encodes_unique(a: u64, b: u64, n: nat)
    requires
        encodes(a, n),
        encodes(b, n),
    ensures
        a == b,
{
    if n == 0 {
        lemma_encodes_zero(a);
        lemma_encodes_zero(b);
    } else {
        lemma_encodes_normal(a, n);
        lemma_encodes_normal(b, n);
        lemma_encodes_ordered(a, b, n);
        lemma_encodes_ordered(b, a, n);
        if scale(a) >= 0 {
            let p = pow2(scale(a) as nat);
            lemma_pow2_pos(scale(a) as nat);
            assert(significand(a) == significand(b)) by (nonlinear_arith)
                requires
                    significand(a) * p == significand(b) * p,
                    p > 0,
            ;
        }
    }
}

/// Below two to the power 53 every integer is a binary64: rounding leaves it alone.
pub proof fn lemma_rounded_exact(n: nat)
    requires
        n < EXACT,
    ensures
        rounded(n) == n,
{
    let g = grain(n);
    assert(n / g == n && n % g == 0 && n * g == n) by (nonlinear_arith)
        requires
            g == 1,
    ;
}

/// Every integer below two to the power 53 is a binary64: some bits encode it.
pub proof fn lemma_encodable(n: nat) -> (bits: u64)
    requires
        n < EXACT,
    ensures
        encodes(bits, n),
        bits == of_nat(n),
{
    let bits: u64 = if n == 0 {
        assert(0 * pow2(1074) == 0) by (nonlinear_arith);
        0
    } else {
        lemma2_to64();
        assert(n * 1 == n);
        lemma_normalize(n, n, 1075)
    };
    assert(encodes(bits, n));
    lemma_encodes_unique(bits, of_nat(n), n);
    bits
}

/// Every integer that fits 64 bits has a nearest binary64: some bits encode what it
/// is rounded to.
pub proof fn lemma_rounded_encodable(n: nat) -> (bits: u64)
    requires
        n <= u64::MAX,
    ensures
        encodes(bits, rounded(n)),
        bits == of_nat(rounded(n)),
{
    let bits: u64 = if n < EXACT {
        lemma_rounded_exact(n);
        lemma_encodable(n)
    } else {
        lemma2_to64();
        lemma2_to64_rest();
        let k = lemma_grain(n, 11);
        let g = grain(n);
        let q = n / g;
        let r = n % g;
        if 2 * r < g || (2 * r == g && q % 2 == 0) {
            lemma_assembled(q, 1075 + k);
            assembled(q, 1075 + k)
        } else if q + 1 < EXACT {
            lemma_assembled(q + 1, 1075 + k);
            assembled(q + 1, 1075 + k)
        } else {
            lemma_assembled(HIDDEN as nat, 1076 + k);
            lemma_pow2_unfold(k + 1);
            assert(0x10_0000_0000_0000 * (2 * g) == (q + 1) * g) by (nonlinear_arith)
                requires
                    q + 1 == 0x20_0000_0000_0000,
            ;
            assembled(HIDDEN as nat, 1076 + k)
        }
    };
    assert(encodes(bits, rounded(n)));
    lemma_encodes_unique(bits, of_nat(rounded(n)), rounded(n));
    bits
}

/// The distance between neighbours around an integer from two to the power 53 on
/// is a power of two, and there are between `2^52` and `2^53` such distances
/// below the integer.
proof fn lemma_grain(n: nat, span: nat) -> (k: nat)
    requires
        EXACT <= n < EXACT * pow2(span),
    ensures
        1 <= k <= span,
        grain(n) == pow2(k),
        HIDDEN <= n / grain(n) < EXACT,
    decreases n,
{
    lemma2_to64();
    if span == 0 {
        0
    } else if n / 2 < EXACT {
        assert(grain(n / 2) == 1);
        assert(n / 2 == n / grain(n)) by (nonlinear_arith)
            requires
                grain(n) == 2,
        ;
        1
    } else {
        lemma_pow2_unfold(span);
        assert(n / 2 < 0x20_0000_0000_0000 * pow2((span - 1) as nat)) by (nonlinear_arith)
            requires
                n < 0x20_0000_0000_0000 * (2 * pow2((span - 1) as nat)),
        ;
        let below = lemma_grain(n / 2, (span - 1) as nat);
        lemma_pow2_unfold(below + 1);
        lemma_pow2_pos(below);
        lemma_div_denominator(n as int, 2, grain(n / 2) as int);
        below + 1
    }
}

/// The bits that encode an integer have that integer for their integer part, and
/// so convert back to it, as far as it is an address or a byte.
pub proof fn lemma_encoded_converts_back(bits: u64, n: nat)
    requires
        encodes(bits, n),
    ensures
        whole(bits) == n,
        n <= usize::MAX ==> index_of(bits) == n,
        n <= 255 ==> byte_of(bits) == n,
{
    if scale(bits) < 0 {
        let p = pow2((-scale(bits)) as nat);
        lemma_pow2_pos((-scale(bits)) as nat);
        lemma_div_by_multiple(n as int, p as int);
    }
}

/// Only the bits of `0.0` encode zero.
proof fn lemma_encodes_zero(bits: u64)
    requires
        encodes(bits, 0),
    ensures
        bits == 0,
{
    if scale(bits) >= 0 {
        let p = pow2(scale(bits) as nat);
        lemma_pow2_pos(scale(bits) as nat);
        assert(significand(bits) == 0) by (nonlinear_arith)
            requires
                significand(bits) * p == 0,
                p > 0,
        ;
    }
}

/// The bits that encode a positive integer are those of a normal number.
proof fn lemma_encodes_normal(bits: u64, n: nat)
    requires
        encodes(bits, n),
        n > 0,
    ensures
        exponent(bits) > 0,
        HIDDEN <= significand(bits) < EXACT,
{
    if exponent(bits) == 0 {
        lemma_pow2_at_least(52, 1074);
        lemma2_to64_rest();
        assert(n * pow2(1074) >= pow2(1074)) by (nonlinear_arith)
            requires
                n >= 1,
        ;
    }
}

/// Of two normal numbers that encode the same integer, neither has the smaller scale.
proof fn lemma_encodes_ordered(a: u64, b: u64, n: nat)
    requires
        encodes(a, n),
        encodes(b, n),
        n > 0,
        exponent(a) > 0,
        exponent(b) > 0,
    ensures
        scale(a) >= scale(b),
{
    let sa = significand(a);
    let sb = significand(b);
    let d = (scale(b) - scale(a)) as nat;
    if scale(a) >= scale(b) {
    } else if scale(a) >= 0 {
        let p = pow2(scale(a) as nat);
        lemma_pow2_pos(scale(a) as nat);
        lemma_pow2_adds(scale(a) as nat, d);
        assert(sa == sb * pow2(d)) by (nonlinear_arith)
            requires
                sa * p == sb * (p * pow2(d)),
                p > 0,
        ;
        lemma_apart(sa, sb, d);
    } else if scale(b) >= 0 {
        let p = pow2(scale(b) as nat);
        lemma_pow2_pos(scale(b) as nat);
        assert(n >= sb) by (nonlinear_arith)
            requires
                n == sb * p,
                p > 0,
        ;
        lemma_apart(sa, sb, (-scale(a)) as nat);
        let q = pow2((-scale(a)) as nat);
        assert(n * q >= sb * q) by (nonlinear_arith)
            requires
                n >= sb,
        ;
    } else {
        let p = pow2((-scale(b)) as nat);
        lemma_pow2_adds((-scale(b)) as nat, d);
        assert(sa == sb * pow2(d)) by (nonlinear_arith)
            requires
                sa == n * (p * pow2(d)),
                sb == n * p,
        ;
        lemma_apart(sa, sb, d);
    }
}

/// Doubles `m` until it is the significand of a normal number.
proof fn lemma_normalize(n: nat, m: nat, e: nat) -> (bits: u64)
    requires
        0 < n < EXACT,
        0 < m < EXACT,
        1023 <= e <= 1075,
        m == n * pow2((1075 - e) as nat),
    ensures
        encodes(bits, n),
    decreases e,
{
    lemma2_to64();
    lemma2_to64_rest();
    if m >= HIDDEN {
        lemma_assembled(m, e);
        let bits = assembled(m, e);
        if e == 1075 {
            assert(m * 1 == m && n * 1 == n);
            assert(significand(bits) * pow2(scale(bits) as nat) == n);
        }
        bits
    } else {
        let k: nat = (1075 - e) as nat;
        if k >= 52 {
            lemma_pow2_at_least(52, k);
            assert(n * pow2(k) >= pow2(k)) by (nonlinear_arith)
                requires
                    n >= 1,
            ;
        }
        lemma_pow2_unfold(k + 1);
        assert(2 * (n * pow2(k)) == n * (2 * pow2(k))) by (nonlinear_arith);
        lemma_normalize(n, 2 * m, (e - 1) as nat)
    }
}

/// What was put together can be read off again.
proof fn lemma_assembled(m: nat, e: nat)
    requires
        HIDDEN <= m < EXACT,
        1 <= e <= 2046,
    ensures
        assembled(m, e) == e * HIDDEN + (m - HIDDEN),
        assembled(m, e) < INFINITY,
        exponent(assembled(m, e)) == e,
        significand(assembled(m, e)) == m,
        scale(assembled(m, e)) == e - 1075,
{
}

/// A significand of a normal number is not the `2^d`-fold of another, for `d >= 1`.
proof fn lemma_apart(s1: nat, s2: nat, d: nat)
    requires
        s1 < EXACT,
        s2 >= HIDDEN,
        d >= 1,
    ensures
        s1 < s2 * pow2(d),
{
    lemma_pow2_at_least(1, d);
    lemma2_to64();
    assert(s2 * pow2(d) >= 0x10_0000_0000_0000 * 2) by (nonlinear_arith)
        requires
            s2 >= 0x10_0000_0000_0000,
            pow2(d) >= 2,
    ;
}

/// Two to the power `e` is at least two to the power `floor`, for `floor <= e`.
proof fn lemma_pow2_at_least(floor: nat, e: nat)
    requires
        floor <= e,
    ensures
        pow2(floor) <= pow2(e),
{
    if floor < e {
        lemma_pow2_strictly_increases(floor, e);
    }
}

} // verus!
