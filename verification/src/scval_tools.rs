use vstd::prelude::*;

verus! {

/// The two halves of an unsigned 128-bit number.
#[derive(Debug, Clone, Copy, PartialEq, Eq)]
pub struct UInt128Parts {
    pub hi: u64,
    pub lo: u64,
}

/// The two halves of a signed 128-bit number: the number is
/// `hi * 2^64 + lo`.
#[derive(Debug, Clone, Copy, PartialEq, Eq)]
pub struct Int128Parts {
    pub hi: i64,
    pub lo: u64,
}

/// A value of a contract, as far as a metric can be read from it: the
/// numbers of up to 128 bits and the two kinds of text, each text as the
/// codec prints it. Every other kind of value is `Other`.
#[derive(Debug, PartialEq, Eq)]
pub enum ScVal {
    U32(u32),
    I32(i32),
    U64(u64),
    I64(i64),
    U128(UInt128Parts),
    I128(Int128Parts),
    Symbol(String),
    Str(String),
    Other,
}

/// The text of a symbol or a string; no other value has one.
pub open spec fn scval_text(v: ScVal) -> Option<Seq<char>> {
    match v {
        ScVal::Symbol(s) => Some(s@),
        ScVal::Str(s) => Some(s@),
        _ => None,
    }
}

/// The number that a numeric value stands for; no other value has one.
pub open spec fn scval_number(v: ScVal) -> Option<int> {
    match v {
        ScVal::U32(n) => Some(n as int),
        ScVal::I32(n) => Some(n as int),
        ScVal::U64(n) => Some(n as int),
        ScVal::I64(n) => Some(n as int),
        ScVal::U128(p) => Some(p.hi * 0x1_0000_0000_0000_0000 + p.lo),
        ScVal::I128(p) => Some(p.hi * 0x1_0000_0000_0000_0000 + p.lo),
        _ => None,
    }
}

/// The number of a numeric value where 64 bits without a sign can hold it.
pub open spec fn scval_u64(v: ScVal) -> Option<u64> {
    match scval_number(v) {
        Some(n) => if 0 <= n <= u64::MAX {
            Some(n as u64)
        } else {
            None
        },
        None => None,
    }
}

/// The text of a symbol or a string, `None` for any other value.
pub fn scval_as_string(v: &ScVal) -> (r: Option<String>)
    ensures
        match r {
            Some(s) => scval_text(*v) == Some(s@),
            None => scval_text(*v) is None,
        },
{
    match v {
        ScVal::Symbol(s) => Some(s.clone()),
        ScVal::Str(s) => Some(s.clone()),
        _ => None,
    }
}

/// The number of a numeric value where 64 bits without a sign can hold it:
/// a negative number has no such form, nor has a 128-bit number whose high
/// half is not zero. `None` for these and for any value that is no number.
pub fn scval_as_u64(v: &ScVal) -> (r: Option<u64>)
    ensures
        r == scval_u64(*v),
{
    match v {
        ScVal::U32(n) => Some(*n as u64),
        ScVal::I32(n) => if *n >= 0 {
            Some(*n as u64)
        } else {
            None
        },
        ScVal::U64(n) => Some(*n),
        ScVal::I64(n) => if *n >= 0 {
            Some(*n as u64)
        } else {
            None
        },
        ScVal::I128(parts) => {
            if parts.hi == 0 {
                Some(parts.lo)
            } else {
                None
            }
        },
        ScVal::U128(parts) => {
            if parts.hi == 0 {
                Some(parts.lo)
            } else {
                None
            }
        },
        _ => None,
    }
}

} // verus!
