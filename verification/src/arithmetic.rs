use vstd::prelude::*;

verus! {

/// One step of binary64 arithmetic. Operands and results are bit patterns.
#[derive(Debug, Clone, Copy)]
pub enum Operation {
    /// The sum of the two operands.
    Add(u64, u64),
    /// The product of the two operands.
    Mul(u64, u64),
    /// The first operand divided by the second.
    Div(u64, u64),
    /// The exponential function of the operand.
    Exp(u64),
}

/// What each operation evaluates to.
pub type Arithmetic = spec_fn(Operation) -> u64;

/// The bit pattern of positive zero.
pub const ZERO: u64 = 0;

/// The bit pattern of one.
pub const ONE: u64 = 0x3FF0_0000_0000_0000;

/// The sign bit. Alone it is the bit pattern of negative zero.
pub const SIGN: u64 = 0x8000_0000_0000_0000;

/// The bit pattern of positive infinity: the largest one that is not a NaN
/// among those with a clear sign bit.
pub const INFINITY: u64 = 0x7FF0_0000_0000_0000;

/// The unit takes every operation.
pub open spec fn total<F: Fn(Operation) -> u64>(unit: &F) -> bool {
    forall|op: Operation| unit.requires((op,))
}

/// The unit realises an arithmetic when it returns nothing but what the
/// arithmetic says.
pub open spec fn realises<F: Fn(Operation) -> u64>(unit: &F, m: Arithmetic) -> bool {
    forall|op: Operation, r: u64| unit.ensures((op,), r) ==> r == m(op)
}

/// The sum of two numbers.
pub open spec fn plus(m: Arithmetic, a: u64, b: u64) -> u64 {
    m(Operation::Add(a, b))
}

/// The product of two numbers.
pub open spec fn times(m: Arithmetic, a: u64, b: u64) -> u64 {
    m(Operation::Mul(a, b))
}

/// The quotient of two numbers.
pub open spec fn over(m: Arithmetic, a: u64, b: u64) -> u64 {
    m(Operation::Div(a, b))
}

/// The exponential function of a number.
pub open spec fn exp(m: Arithmetic, a: u64) -> u64 {
    m(Operation::Exp(a))
}

/// The number with the opposite sign: the same bits but for the sign bit.
pub open spec fn negated(x: u64) -> u64 {
    if x >= SIGN {
        (x - SIGN) as u64
    } else {
        (x + SIGN) as u64
    }
}

/// Whether the number is zero or above. Both zeros are; no NaN is.
pub open spec fn at_least_zero(x: u64) -> bool {
    x <= INFINITY || x == SIGN
}

/// The bits but for the sign bit.
pub open spec fn magnitude(x: u64) -> u64 {
    if x >= SIGN {
        (x - SIGN) as u64
    } else {
        x
    }
}

/// Whether the bits hold no number.
pub open spec fn is_nan(x: u64) -> bool {
    magnitude(x) > INFINITY
}

/// Whether the bits hold a number that is not infinite.
pub open spec fn is_finite(x: u64) -> bool {
    magnitude(x) < INFINITY
}

/// Whether the bits hold one of the two zeros.
pub open spec fn is_zero(x: u64) -> bool {
    magnitude(x) == 0
}

/// Three facts of binary64 arithmetic about zero: zero times a finite number
/// is a zero; negative zero added to a number leaves it; positive zero added
/// to a number other than negative zero leaves it.
pub open spec fn zero_adds_nothing(m: Arithmetic) -> bool {
    &&& forall|x: u64| is_finite(x) ==> is_zero(#[trigger] times(m, ZERO, x))
    &&& forall|x: u64| !is_nan(x) ==> #[trigger] plus(m, SIGN, x) == x
    &&& forall|x: u64| !is_nan(x) && x != SIGN ==> #[trigger] plus(m, ZERO, x) == x
}

/// Hands one operation to the unit.
pub fn eval<F: Fn(Operation) -> u64>(unit: &F, op: Operation) -> (r: u64)
    requires
        total(unit),
    ensures
        forall|m: Arithmetic| #[trigger] realises(unit, m) ==> r == m(op),
{
    unit(op)
}

/// The opposite number.
pub fn negate(x: u64) -> (r: u64)
    ensures
        r == negated(x),
{
    if x >= SIGN {
        x - SIGN
    } else {
        x + SIGN
    }
}

/// Whether the number is zero or above.
#[verifier::when_used_as_spec(at_least_zero)]
pub fn is_at_least_zero(x: u64) -> (r: bool)
    ensures
        r == at_least_zero(x),
{
    x <= INFINITY || x == SIGN
}

} // verus!
