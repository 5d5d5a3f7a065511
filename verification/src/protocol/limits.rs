//! Checked length arithmetic for fixed-capacity buffers.
use vstd::prelude::*;

use super::error::LimitError;

verus! {

/// The outcome of extending a buffer of `current` bytes by `additional`
/// bytes within `capacity`: overflow is checked before capacity.
pub open spec fn extension(current: int, additional: int, capacity: int) -> Result<usize, LimitError> {
    if current + additional > usize::MAX {
        Err(LimitError::LengthOverflow)
    } else if current + additional > capacity {
        Err(LimitError::CapacityExceeded)
    } else {
        Ok((current + additional) as usize)
    }
}

/// Computes the new length of a buffer grown by `additional` bytes.
pub fn extended_length(current: usize, additional: usize, capacity: usize) -> (r: Result<usize, LimitError>)
    ensures
        r == extension(current as int, additional as int, capacity as int),
{
    let length = match current.checked_add(additional) {
        Some(length) => length,
        None => return Err(LimitError::LengthOverflow),
    };
    if length > capacity {
        return Err(LimitError::CapacityExceeded);
    }
    Ok(length)
}

} // verus!
