//! Numbers are IEEE 754 doubles, held by their bit patterns. Negation,
//! equality and ordering follow from the format and are computed here; the
//! arithmetic and the reading of decimal literals are supplied by the
//! caller as [`NumberOps`].

use vstd::prelude::*;

verus! {

/// The arithmetic operators of the language.
#[derive(Debug, Clone, Copy, PartialEq, Eq, Structural)]
pub enum ArithOp {
    Minus,
    Slash,
    Star,
    Plus,
}

/// What the number operations compute: the double that a decimal literal
/// denotes, and the result of an arithmetic operator.
pub struct Numbers {
    pub parse: spec_fn(Seq<char>) -> u64,
    pub arith: spec_fn(ArithOp, u64, u64) -> u64,
}

/// The number operations an interpreter is run with: reading a decimal
/// literal, and applying an arithmetic operator, on bit patterns.
pub struct NumberOps<P, A> {
    pub parse: P,
    pub arith: A,
}

impl<P: Fn(&str) -> u64, A: Fn(ArithOp, u64, u64) -> u64> NumberOps<P, A> {
    /// The operations can be called on any input, and compute `nums`.
    pub open spec fn implements(&self, nums: Numbers) -> bool {
        &&& forall|s: &str| #[trigger] self.parse.requires((s,))
        &&& forall|op: ArithOp, a: u64, b: u64| #[trigger] self.arith.requires((op, a, b))
        &&& forall|s: &str, r: u64| #[trigger] self.parse.ensures((s,), r) ==> r == (nums.parse)(s@)
        &&& forall|op: ArithOp, a: u64, b: u64, r: u64|
            #[trigger] self.arith.ensures((op, a, b), r) ==> r == (nums.arith)(op, a, b)
    }

    /// The functions the operations compute (when they compute functions).
    pub open spec fn numbers(&self) -> Numbers {
        choose|nums: Numbers| self.implements(nums)
    }

    /// Reads a decimal literal.
    pub fn parse_number(&self, text: &str, Ghost(nums): Ghost<Numbers>) -> (r: u64)
        requires
            self.implements(nums),
        ensures
            r == (nums.parse)(text@),
    {
        (self.parse)(text)
    }

    /// Applies an arithmetic operator.
    pub fn apply(&self, op: ArithOp, a: u64, b: u64, Ghost(nums): Ghost<Numbers>) -> (r: u64)
        requires
            self.implements(nums),
        ensures
            r == (nums.arith)(op, a, b),
    {
        (self.arith)(op, a, b)
    }
}

pub open spec fn sign_bit() -> u64 {
    0x8000_0000_0000_0000u64
}

pub open spec fn magnitude_mask() -> u64 {
    0x7fff_ffff_ffff_ffffu64
}

/// Whether the bit pattern is a NaN: all exponent bits set, and a
/// fraction that is not zero.
pub open spec fn is_nan(b: u64) -> bool {
    (b & 0x7ff0_0000_0000_0000u64) == 0x7ff0_0000_0000_0000u64 && (b & 0x000f_ffff_ffff_ffffu64) != 0
}

/// The position of a double that is not NaN on the number line, as an
/// integer: the two zeros share position 0, and larger doubles have larger
/// positions.
pub open spec fn order_key(b: u64) -> int {
    if b & sign_bit() != 0 {
        -((b & magnitude_mask()) as int)
    } else {
        (b & magnitude_mask()) as int
    }
}

/// `-x`: the sign bit flipped.
pub open spec fn neg(b: u64) -> u64 {
    b ^ sign_bit()
}

/// `x == y`: neither is NaN, and they are the same double or both zeros.
pub open spec fn num_eq(a: u64, b: u64) -> bool {
    !is_nan(a) && !is_nan(b) && order_key(a) == order_key(b)
}

pub open spec fn num_lt(a: u64, b: u64) -> bool {
    !is_nan(a) && !is_nan(b) && order_key(a) < order_key(b)
}

pub open spec fn num_le(a: u64, b: u64) -> bool {
    !is_nan(a) && !is_nan(b) && order_key(a) <= order_key(b)
}

pub fn negate(b: u64) -> (r: u64)
    ensures
        r == neg(b),
{
    b ^ 0x8000_0000_0000_0000u64
}

fn nan(b: u64) -> (r: bool)
    ensures
        r == is_nan(b),
{
    (b & 0x7ff0_0000_0000_0000u64) == 0x7ff0_0000_0000_0000u64 && (b & 0x000f_ffff_ffff_ffffu64) != 0
}

fn key(b: u64) -> (k: i64)
    ensures
        k as int == order_key(b),
{
    let m = b & 0x7fff_ffff_ffff_ffffu64;
    assert(m <= 0x7fff_ffff_ffff_ffffu64) by (bit_vector)
        requires m == b & 0x7fff_ffff_ffff_ffffu64;
    if b & 0x8000_0000_0000_0000u64 != 0 {
        -(m as i64)
    } else {
        m as i64
    }
}

pub fn equal(a: u64, b: u64) -> (r: bool)
    ensures
        r == num_eq(a, b),
{
    !nan(a) && !nan(b) && key(a) == key(b)
}

pub fn less(a: u64, b: u64) -> (r: bool)
    ensures
        r == num_lt(a, b),
{
    !nan(a) && !nan(b) && key(a) < key(b)
}

pub fn less_equal(a: u64, b: u64) -> (r: bool)
    ensures
        r == num_le(a, b),
{
    !nan(a) && !nan(b) && key(a) <= key(b)
}

} // verus!
