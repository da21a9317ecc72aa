//! Signed offset arithmetic for seeking.
use vstd::prelude::*;

verus! {

/// Why a logical offset could not be computed.
#[derive(Clone, Copy, Debug, PartialEq, Eq, Structural)]
pub enum SplitError {
    /// The offset would lie before the start of the file.
    InvalidInput,
    /// The offset does not fit in a `u64`.
    Overflow,
}

/// The outcome of adding the offset `off` to the position `base`.
pub open spec fn add_offset(base: int, off: int) -> Result<u64, SplitError> {
    if base + off < 0 {
        Err(SplitError::InvalidInput)
    } else if base + off > u64::MAX {
        Err(SplitError::Overflow)
    } else {
        Ok((base + off) as u64)
    }
}

/// Adds a signed offset to an unsigned position, rejecting a result before
/// zero and one past `u64::MAX`.
pub fn safe_add(nu64: u64, ni64: i64) -> (r: Result<u64, SplitError>)
    ensures
        r == add_offset(nu64 as int, ni64 as int),
{
    if ni64 >= 0 {
        nu64.checked_add(ni64 as u64).ok_or(SplitError::Overflow)
    } else {
        let flip: u64 = if ni64 == i64::MIN {
            9223372036854775808u64
        } else {
            (-ni64) as u64
        };
        if flip <= nu64 {
            Ok(nu64 - flip)
        } else {
            Err(SplitError::InvalidInput)
        }
    }
}

} // verus!
