//! Line buffer reuse through its public interface.
use assuan::{LineBuffer, ProtocolError, MAX_LINE_BYTES};

#[test]
fn mutable_decoding_and_reuse_leave_no_old_bytes() {
  let mut buffer = LineBuffer::new();
  buffer.feed(b"D secret%00\n").unwrap();
  let line = buffer.line_mut().unwrap();
  line.fill(b'\r');
  assert_eq!(buffer.line().unwrap().len(), 11);
  assert_eq!(buffer.line_mut().unwrap().len(), 11);
  buffer.clear();
  buffer.feed(b"OK\n").unwrap();
  assert_eq!(buffer.line_mut().unwrap(), b"OK");
}

#[test]
fn clear_and_overflow_wipe_every_byte() {
  let mut buffer = LineBuffer::new();
  buffer.feed(b"secret\n").unwrap();
  buffer.clear();
  assert!(buffer.line().is_none());
  assert_eq!(buffer.feed(&[b'x'; MAX_LINE_BYTES]), Err(ProtocolError::LineTooLong));
  assert!(buffer.line().is_none());
  assert_eq!(buffer.finish_eof(), Err(ProtocolError::LineTooLong));
}
