//! The numeric leaf of the value model: a closed union of a non-negative
//! integer, a strictly negative integer, and a finite double kept as its
//! IEEE 754 bit pattern (the bit pattern form keeps the variant free of
//! floating-point arithmetic; callers that hold an `f64` convert through
//! `f64::to_bits` / `f64::from_bits`).
use vstd::prelude::*;

verus! {

/// The exponent field of a double's bit pattern is not all ones exactly when
/// the encoded value is finite (neither an infinity nor a NaN).
pub open spec fn finite_bits(bits: u64) -> bool {
    (bits >> 52) & 0x7ff != 0x7ff
}

#[derive(Clone, Copy, Debug, PartialEq, Eq, Structural, PartialOrd)]
pub enum Number {
    PosInt(u64),
    /// Always less than zero.
    NegInt(i64),
    /// IEEE 754 double bit pattern; always finite.
    Float(u64),
}

impl Number {
    /// The payload invariant each constructor is meant to respect.
    pub open spec fn inv(self) -> bool {
        match self {
            Number::PosInt(_) => true,
            Number::NegInt(n) => n < 0,
            Number::Float(bits) => finite_bits(bits),
        }
    }

    pub open spec fn spec_is_i64(self) -> bool {
        match self {
            Number::PosInt(v) => v <= i64::MAX,
            Number::NegInt(_) => true,
            Number::Float(_) => false,
        }
    }

    /// The number is representable as a signed 64-bit integer.
    pub fn is_i64(&self) -> (r: bool)
        ensures
            r == self.spec_is_i64(),
    {
        match self {
            Number::PosInt(v) => *v <= i64::MAX as u64,
            Number::NegInt(_) => true,
            Number::Float(_) => false,
        }
    }

    /// The number is representable as an unsigned 64-bit integer.
    pub fn is_u64(&self) -> (r: bool)
        ensures
            r == (self is PosInt),
    {
        match self {
            Number::PosInt(_) => true,
            Number::NegInt(_) | Number::Float(_) => false,
        }
    }

    /// The number is the floating-point variant.
    pub fn is_f64(&self) -> (r: bool)
        ensures
            r == (self is Float),
    {
        match self {
            Number::Float(_) => true,
            Number::PosInt(_) | Number::NegInt(_) => false,
        }
    }

    pub open spec fn spec_as_i64(self) -> Option<i64> {
        match self {
            Number::PosInt(n) => if n <= i64::MAX {
                Some(n as i64)
            } else {
                None
            },
            Number::NegInt(n) => Some(n),
            Number::Float(_) => None,
        }
    }

    /// The value as a signed 64-bit integer, when it fits losslessly.
    pub fn as_i64(&self) -> (r: Option<i64>)
        ensures
            r == self.spec_as_i64(),
    {
        match self {
            Number::PosInt(n) => {
                if *n <= i64::MAX as u64 {
                    Some(*n as i64)
                } else {
                    None
                }
            },
            Number::NegInt(n) => Some(*n),
            Number::Float(_) => None,
        }
    }

    /// The value as an unsigned 64-bit integer, when it is the non-negative
    /// integer variant.
    pub fn as_u64(&self) -> (r: Option<u64>)
        ensures
            r == match *self {
                Number::PosInt(n) => Some(n),
                Number::NegInt(_) | Number::Float(_) => None::<u64>,
            },
    {
        match self {
            Number::PosInt(n) => Some(*n),
            Number::NegInt(_) | Number::Float(_) => None,
        }
    }

    /// The double's bit pattern, when the number is the floating-point
    /// variant.
    pub fn as_f64_bits(&self) -> (r: Option<u64>)
        ensures
            r == match *self {
                Number::Float(bits) => Some(bits),
                Number::PosInt(_) | Number::NegInt(_) => None::<u64>,
            },
    {
        match self {
            Number::Float(bits) => Some(*bits),
            Number::PosInt(_) | Number::NegInt(_) => None,
        }
    }

    /// Builds the floating-point variant from a double's bit pattern;
    /// non-finite patterns (infinities, NaN) are rejected.
    pub fn from_f64_bits(bits: u64) -> (r: Option<Number>)
        ensures
            r == if finite_bits(bits) {
                Some(Number::Float(bits))
            } else {
                None::<Number>
            },
            match r {
                Some(n) => n.inv(),
                None => true,
            },
    {
        if (bits >> 52) & 0x7ff != 0x7ff {
            Some(Number::Float(bits))
        } else {
            None
        }
    }
}

} // verus!
