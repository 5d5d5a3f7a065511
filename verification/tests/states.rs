//! Client and server session transition contracts.
use assuan::{ClientMachine, ClientState, LineKind};

#[test]
fn remote_error_completes_a_command() {
  let mut machine = ClientMachine::new();
  machine.receive(LineKind::Okay).unwrap();
  machine.begin_command().unwrap();
  machine.receive(LineKind::Error).unwrap();
  assert_eq!(machine.state(), ClientState::Ready);
}
