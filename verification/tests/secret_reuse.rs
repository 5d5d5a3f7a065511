//! Clearing secret storage through its public interface.
use assuan::SecretBytes;

#[test]
fn clear_wipes_the_entire_allocation_and_preserves_it() {
  let mut secret = SecretBytes::with_capacity(16).unwrap();
  secret.extend_from_slice(b"pass").unwrap();
  let pointer = secret.expose().as_ptr();
  secret.clear();
  assert_eq!(secret.capacity(), 16);
  assert!(secret.is_empty());
  secret.extend_from_slice(&[0; 16]).unwrap();
  assert!(secret.expose().iter().all(|byte| *byte == 0));
  assert_eq!(secret.expose().as_ptr(), pointer);
}
