use vstd::prelude::*;

pub mod accessor;
pub mod calc;
pub mod gen;
pub mod pattern;
pub mod stream;
pub mod strutil;
pub mod tokens;
pub mod value;

verus! {

// A bitfield compiler: a compact textual bit pattern such as
// `aaaa_bbbb_cccccccc_dddddddddddddddd` is compiled into named, validated
// accessors over one fixed-width unsigned integer.  The pattern names each
// field's bit positions with a token character, fixes constant positions
// with literal `0` and `1` markers, and uses `_` as a purely visual
// separator.

/// The mismatch reported when raw bits disagree with a pattern's fixed
/// bits: the value the fixed bits must hold, and the value actually found
/// at the fixed positions.
#[derive(Debug)]
pub struct Error<T> {
    pub expected: T,
    pub provided: T,
}

impl<T> Error<T> {
    /// Record a mismatch between the required fixed bits and the provided
    /// ones.
    pub fn invalid_bits(expected: T, provided: T) -> (r: Error<T>)
        ensures
            r.expected == expected,
            r.provided == provided,
    {
        Error { expected, provided }
    }
}

/// A declaration-time fault: no instance can exist of a declaration that
/// raised one of these.
#[derive(Debug, Clone, Copy, PartialEq, Eq, Structural)]
pub enum DeclError {
    /// The pattern is empty once separators are removed, or could not be
    /// read at all.
    MalformedPattern,
    /// A field names a token that does not occur in the pattern.
    UnknownToken,
    /// The storage width cannot hold the pattern, or exceeds 64 bits.
    BadWidth,
}

} // verus!
