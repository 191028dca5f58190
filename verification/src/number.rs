use vstd::prelude::*;

verus! {

/// The pattern 0x8000_0000_0000_0000: the sign bit alone.
pub const SIGN_BIT: u64 = 0x8000_0000_0000_0000;

/// The pattern of positive infinity: every magnitude above it is not a number.
pub const INFINITY: u64 = 0x7FF0_0000_0000_0000;

/// The pattern of the tolerance, two to the power of minus fifty-two.
pub const EPSILON: u64 = 0x3CB0_0000_0000_0000;

/// The sixty-three bits below the sign bit. Among patterns that are numbers,
/// a greater magnitude is a greater absolute value.
pub open spec fn magnitude(bits: u64) -> int {
    bits as int % SIGN_BIT as int
}

/// The sign bit is set.
pub open spec fn negative(bits: u64) -> bool {
    bits >= SIGN_BIT
}

/// The pattern stands for no number.
pub open spec fn not_a_number(bits: u64) -> bool {
    magnitude(bits) > INFINITY
}

/// An integer that orders the patterns as the numbers they stand for are
/// ordered: the magnitude, negated under a sign bit. Both zeros get 0.
pub open spec fn ordinal(bits: u64) -> int {
    if negative(bits) {
        -magnitude(bits)
    } else {
        magnitude(bits)
    }
}

/// `a < b` as numbers. Nothing is less than, or has less than it, what is not
/// a number.
pub open spec fn less(a: u64, b: u64) -> bool {
    !not_a_number(a) && !not_a_number(b) && ordinal(a) < ordinal(b)
}

/// `a <= b` as numbers.
pub open spec fn at_most(a: u64, b: u64) -> bool {
    !not_a_number(a) && !not_a_number(b) && ordinal(a) <= ordinal(b)
}

/// The exponent field of a pattern: the eleven bits below the sign bit.
pub open spec fn exponent_field(bits: u64) -> int {
    (bits as int / 0x10_0000_0000_0000) % 0x800
}

/// A pattern stands for a normal number when its exponent field is neither
/// all zeros (zero, subnormal) nor all ones (infinite, not a number).
pub open spec fn normal_pattern(bits: u64) -> bool {
    0 < exponent_field(bits) < 0x7ff
}

/// A pattern stands for a finite number: it is neither infinite nor not a
/// number. Zero and the subnormal numbers are finite.
pub open spec fn finite_pattern(bits: u64) -> bool {
    magnitude(bits) < INFINITY
}

/// Splits a pattern into its magnitude and its sign bit.
pub fn split(bits: u64) -> (r: (u64, bool))
    ensures
        r.0 == magnitude(bits),
        r.1 == negative(bits),
{
    let m: u64 = bits & 0x7FFF_FFFF_FFFF_FFFF;
    assert(m == bits % 0x8000_0000_0000_0000) by (bit_vector)
        requires
            m == bits & 0x7FFF_FFFF_FFFF_FFFF,
    ;
    (m, bits >= SIGN_BIT)
}

/// Decides `not_a_number`.
pub fn pattern_is_nan(bits: u64) -> (r: bool)
    ensures
        r == not_a_number(bits),
{
    split(bits).0 > INFINITY
}

/// Decides `finite_pattern`.
pub fn pattern_is_finite(bits: u64) -> (r: bool)
    ensures
        r == finite_pattern(bits),
{
    split(bits).0 < INFINITY
}

/// Decides `normal_pattern`.
pub fn pattern_is_normal(bits: u64) -> (r: bool)
    ensures
        r == normal_pattern(bits),
{
    let e: u64 = (bits >> 52) & 0x7ff;
    assert(e == (bits / 0x10_0000_0000_0000) % 0x800) by (bit_vector)
        requires
            e == (bits >> 52) & 0x7ff,
    ;
    e != 0 && e != 0x7ff
}

/// Decides `at_most`.
pub fn pattern_le(a: u64, b: u64) -> (r: bool)
    ensures
        r == at_most(a, b),
{
    let (ma, na) = split(a);
    let (mb, nb) = split(b);
    if ma > INFINITY || mb > INFINITY {
        false
    } else if na {
        !nb || mb <= ma
    } else if nb {
        ma == 0 && mb == 0
    } else {
        ma <= mb
    }
}

/// Decides `less`.
pub fn pattern_lt(a: u64, b: u64) -> (r: bool)
    ensures
        r == less(a, b),
{
    let (ma, na) = split(a);
    let (mb, nb) = split(b);
    if ma > INFINITY || mb > INFINITY {
        false
    } else if na {
        if nb {
            mb < ma
        } else {
            ma != 0 || mb != 0
        }
    } else if nb {
        false
    } else {
        ma < mb
    }
}

/// A difference counts as none: it is a number of absolute value at most the
/// tolerance.
pub open spec fn within_tolerance(difference: u64) -> bool {
    !not_a_number(difference) && magnitude(difference) <= EPSILON
}

/// Decides `within_tolerance`.
pub fn is_within_tolerance(difference: u64) -> (r: bool)
    ensures
        r == within_tolerance(difference),
{
    split(difference).0 <= EPSILON
}

/// `equal` is a verdict on `a` and `b` that a difference of theirs, as
/// `difference` can give it, leads to.
pub open spec fn close_by<F: Fn(u64, u64) -> u64>(
    a: u64,
    b: u64,
    equal: bool,
    difference: F,
) -> bool {
    exists|d: u64| #[trigger] difference.ensures((a, b), d) && equal == within_tolerance(d)
}

/// Every difference that `difference` can give for `a` and `b` is a number of
/// absolute value less than the tolerance.
pub open spec fn differ_by_less<F: Fn(u64, u64) -> u64>(a: u64, b: u64, difference: F) -> bool {
    forall|d: u64| #[trigger]
        difference.ensures((a, b), d) ==> !not_a_number(d) && magnitude(d) < EPSILON
}

/// Every difference that `difference` can give for `a` and `b` is greater
/// than the tolerance in absolute value, or not a number.
pub open spec fn differ_by_more<F: Fn(u64, u64) -> u64>(a: u64, b: u64, difference: F) -> bool {
    forall|d: u64| #[trigger] difference.ensures((a, b), d) ==> magnitude(d) > EPSILON
}

/// `difference` is a function: it can give one result only for the same two
/// numbers.
pub open spec fn single_difference<F: Fn(u64, u64) -> u64>(difference: F) -> bool {
    forall|a: u64, b: u64, r1: u64, r2: u64|
        #[trigger] difference.ensures((a, b), r1) && #[trigger] difference.ensures((a, b), r2)
            ==> r1 == r2
}

/// `difference` finds every finite number equal to itself, as subtraction
/// does: what it gives for a finite number and itself is within the
/// tolerance.
pub open spec fn cancels<F: Fn(u64, u64) -> u64>(difference: F) -> bool {
    forall|a: u64, d: u64|
        finite_pattern(a) && #[trigger] difference.ensures((a, a), d) ==> within_tolerance(d)
}

/// Says whether two numbers differ by no more than the tolerance.
/// `difference(a, b)` gives `a - b`.
pub fn almost_equal<F: Fn(u64, u64) -> u64>(a: u64, b: u64, difference: &F) -> (equal: bool)
    requires
        difference.requires((a, b)),
    ensures
        close_by(a, b, equal, *difference),
{
    is_within_tolerance(difference(a, b))
}

/// Numbers that differ by less than the tolerance are found equal, and
/// numbers that differ by more are found unequal.
pub proof fn lemma_tolerance<F: Fn(u64, u64) -> u64>(a: u64, b: u64, equal: bool, difference: F)
    requires
        close_by(a, b, equal, difference),
    ensures
        differ_by_less(a, b, difference) ==> equal,
        differ_by_more(a, b, difference) ==> !equal,
{
}

/// Among numbers the order is total, and `at_most` is `less` or equal rank.
pub proof fn lemma_order(a: u64, b: u64, c: u64)
    ensures
        !less(a, a),
        less(a, b) && less(b, c) ==> less(a, c),
        at_most(a, b) && at_most(b, c) ==> at_most(a, c),
        !not_a_number(a) && !not_a_number(b) ==> (less(a, b) || at_most(b, a)),
        !(less(a, b) && at_most(b, a)),
        at_most(a, b) <==> less(a, b) || (!not_a_number(a) && !not_a_number(b) && ordinal(a)
            == ordinal(b)),
{
}

} // verus!
