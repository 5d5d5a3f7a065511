//! Checked length arithmetic.
use assuan::protocol::limits::extended_length;
use assuan::LimitError;

#[test]
fn addition_checks_overflow_before_capacity() {
  assert_eq!(extended_length(usize::MAX, 1, usize::MAX), Err(LimitError::LengthOverflow));
}

#[test]
fn extension_within_and_beyond_capacity() {
  assert_eq!(extended_length(3, 4, 7), Ok(7));
  assert_eq!(extended_length(3, 5, 7), Err(LimitError::CapacityExceeded));
  assert_eq!(extended_length(0, 0, 0), Ok(0));
}
