//! Unsigned integer types that a hashed field may hold, and their exact
//! conversions to and from the codec's 64-bit numbers.
use vstd::prelude::*;

verus! {

/// An unsigned integer type whose values the codec carries as `u64`.
pub trait HashNumeric: Sized + Copy {
    /// The value as a natural number.
    spec fn value_of(self) -> nat;

    /// The largest value of the type.
    spec fn max_value() -> nat;

    /// The value as a `u64`, if it fits one; never truncated.
    fn to_u64(self) -> (r: Option<u64>)
        ensures
            r is Some <==> self.value_of() <= u64::MAX,
            r matches Some(v) ==> v as nat == self.value_of();

    /// The value of the type equal to `v`, if `v` fits it.
    fn from_u64(v: u64) -> (r: Option<Self>)
        ensures
            r is Some <==> v as nat <= Self::max_value(),
            r matches Some(x) ==> x.value_of() == v as nat;
}

impl HashNumeric for u8 {
    open spec fn value_of(self) -> nat {
        self as nat
    }

    open spec fn max_value() -> nat {
        u8::MAX as nat
    }

    fn to_u64(self) -> (r: Option<u64>) {
        Some(self as u64)
    }

    fn from_u64(v: u64) -> (r: Option<u8>) {
        if v <= u8::MAX as u64 {
            Some(v as u8)
        } else {
            None
        }
    }
}

impl HashNumeric for u16 {
    open spec fn value_of(self) -> nat {
        self as nat
    }

    open spec fn max_value() -> nat {
        u16::MAX as nat
    }

    fn to_u64(self) -> (r: Option<u64>) {
        Some(self as u64)
    }

    fn from_u64(v: u64) -> (r: Option<u16>) {
        if v <= u16::MAX as u64 {
            Some(v as u16)
        } else {
            None
        }
    }
}

impl HashNumeric for u32 {
    open spec fn value_of(self) -> nat {
        self as nat
    }

    open spec fn max_value() -> nat {
        u32::MAX as nat
    }

    fn to_u64(self) -> (r: Option<u64>) {
        Some(self as u64)
    }

    fn from_u64(v: u64) -> (r: Option<u32>) {
        if v <= u32::MAX as u64 {
            Some(v as u32)
        } else {
            None
        }
    }
}

impl HashNumeric for u64 {
    open spec fn value_of(self) -> nat {
        self as nat
    }

    open spec fn max_value() -> nat {
        u64::MAX as nat
    }

    fn to_u64(self) -> (r: Option<u64>) {
        Some(self)
    }

    fn from_u64(v: u64) -> (r: Option<u64>) {
        Some(v)
    }
}

impl HashNumeric for u128 {
    open spec fn value_of(self) -> nat {
        self as nat
    }

    open spec fn max_value() -> nat {
        u128::MAX as nat
    }

    fn to_u64(self) -> (r: Option<u64>) {
        if self <= u64::MAX as u128 {
            Some(self as u64)
        } else {
            None
        }
    }

    fn from_u64(v: u64) -> (r: Option<u128>) {
        Some(v as u128)
    }
}

impl HashNumeric for usize {
    open spec fn value_of(self) -> nat {
        self as nat
    }

    open spec fn max_value() -> nat {
        usize::MAX as nat
    }

    fn to_u64(self) -> (r: Option<u64>) {
        Some(self as u64)
    }

    fn from_u64(v: u64) -> (r: Option<usize>) {
        if v <= usize::MAX as u64 {
            Some(v as usize)
        } else {
            None
        }
    }
}

} // verus!
