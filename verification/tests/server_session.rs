//! Request classification, inquiry rules, final responses and HELP lines.

use assuan::server::help::{builtin_commands, help_entry};
use assuan::server::inquiry::{add_received, finish_inquiry, inquiry_line, InquiryLine};
use assuan::server::session::{
    builtin, close_reason, end_reason, finalize, option_request, plan_command, receive_line,
    unknown_command, Builtin, CommandAction,
};
use assuan::{
    request_kind, HandlerError, InquiryOutcome, LimitError, LineKind, ProtocolError, RequestKind,
    ServerError, ServerMachine, ServerState, SessionEnd, StateError, TransportError,
    MAX_LINE_BYTES,
};

#[test]
fn request_lines_are_classified() {
    assert_eq!(request_kind(b""), Ok(RequestKind::Empty));
    assert_eq!(request_kind(b"# note"), Ok(RequestKind::Comment));
    assert_eq!(request_kind(b"D data"), Ok(RequestKind::Data));
    assert_eq!(request_kind(b"END"), Ok(RequestKind::End));
    assert_eq!(request_kind(b"CAN"), Ok(RequestKind::Can));
    assert_eq!(request_kind(b"CANCEL"), Ok(RequestKind::Command));
    assert_eq!(request_kind(b"NOP"), Ok(RequestKind::Command));
    assert_eq!(request_kind(b"END x"), Err(ProtocolError::InvalidLine));
    assert_eq!(request_kind(b"D"), Err(ProtocolError::InvalidLine));
    assert_eq!(request_kind(b"NO\rP"), Err(ProtocolError::InvalidLine));
    assert_eq!(request_kind(b" NOP"), Err(ProtocolError::InvalidToken));
}

fn ready_machine() -> ServerMachine {
    let mut machine = ServerMachine::new();
    machine.send_response(LineKind::Okay).unwrap();
    machine
}

#[test]
fn lines_between_commands_start_commands_or_are_skipped() {
    let mut machine = ready_machine();
    assert!(!receive_line(&mut machine, b"# comment").unwrap());
    assert_eq!(machine.state(), ServerState::Ready);
    assert!(receive_line(&mut machine, b"NOP").unwrap());
    assert_eq!(machine.state(), ServerState::Handler);
    let mut machine = ready_machine();
    assert!(matches!(
        receive_line(&mut machine, b"D x"),
        Err(ServerError::State(StateError::UnexpectedEvent))
    ));
    assert_eq!(machine.state(), ServerState::Invalid);
    let mut machine = ready_machine();
    assert!(matches!(
        receive_line(&mut machine, b"BAD\0"),
        Err(ServerError::Protocol(ProtocolError::InvalidLine))
    ));
    assert_eq!(machine.state(), ServerState::Ready);
}

#[test]
fn builtins_are_selected_by_exact_name() {
    assert_eq!(builtin("NOP"), Builtin::Nop);
    assert_eq!(builtin("BYE"), Builtin::Bye);
    assert_eq!(builtin("HELP"), Builtin::Help);
    assert_eq!(builtin("OPTION"), Builtin::Option);
    assert_eq!(builtin("RESET"), Builtin::Reset);
    assert_eq!(builtin("nop"), Builtin::Registered);
    assert_eq!(builtin("CUSTOM"), Builtin::Registered);
    assert!(matches!(
        option_request(b"=x"),
        Err(HandlerError::Remote { code: 55, ref message }) if message == "invalid option"
    ));
    assert_eq!(option_request(b"a=b").unwrap().name(), b"a");
    assert!(matches!(
        unknown_command(),
        HandlerError::Remote { code: 175, ref message } if message == "unknown command"
    ));
}

#[test]
fn inquiries_record_terminators_and_budget_data() {
    let mut machine = ready_machine();
    receive_line(&mut machine, b"GET").unwrap();
    machine.send_response(LineKind::Inquire).unwrap();
    assert_eq!(inquiry_line(&mut machine, b"D abc").unwrap(), InquiryLine::Data);
    assert_eq!(inquiry_line(&mut machine, b"# note").unwrap(), InquiryLine::Skip);
    assert_eq!(
        inquiry_line(&mut machine, b"END").unwrap(),
        InquiryLine::Terminated(InquiryOutcome::Completed)
    );
    assert_eq!(machine.state(), ServerState::Inquiry);
    assert_eq!(finish_inquiry(&mut machine, Some(InquiryOutcome::Completed)).unwrap(), InquiryOutcome::Completed);
    assert_eq!(machine.state(), ServerState::Handler);
    assert!(matches!(
        finish_inquiry(&mut machine, None),
        Err(HandlerError::State(StateError::NotReady))
    ));
    assert_eq!(add_received(1, 2, 3).unwrap(), 3);
    assert!(matches!(
        add_received(1, 3, 3),
        Err(HandlerError::Limit(LimitError::CapacityExceeded))
    ));
    assert!(matches!(
        add_received(usize::MAX, 1, usize::MAX),
        Err(HandlerError::Limit(LimitError::CapacityExceeded))
    ));
    let mut machine = ready_machine();
    receive_line(&mut machine, b"GET").unwrap();
    machine.send_response(LineKind::Inquire).unwrap();
    assert!(matches!(
        inquiry_line(&mut machine, b"NOP"),
        Err(HandlerError::State(StateError::UnexpectedEvent))
    ));
}

#[test]
fn handler_results_produce_one_final_response() {
    let mut output = [0u8; MAX_LINE_BYTES];
    let mut machine = ready_machine();
    receive_line(&mut machine, b"NOP").unwrap();
    let line = finalize(Ok(()), &mut machine, false, &mut output).unwrap();
    assert_eq!(&output[..line.len], b"OK\n");
    assert!(line.outcome.is_ok());
    assert_eq!(machine.state(), ServerState::Ready);
    assert!(matches!(
        finalize(Ok(()), &mut machine, false, &mut output),
        Err(ServerError::State(StateError::Unusable))
    ));

    receive_line(&mut machine, b"X").unwrap();
    let error = HandlerError::remote(99, "failure").unwrap();
    let line = finalize(Err(error), &mut machine, false, &mut output).unwrap();
    assert_eq!(&output[..line.len], b"ERR 99 failure\n");
    assert_eq!(machine.state(), ServerState::Ready);

    receive_line(&mut machine, b"X").unwrap();
    let line = finalize(Err(HandlerError::Internal), &mut machine, false, &mut output).unwrap();
    assert_eq!(&output[..line.len], b"ERR 63 internal error\n");

    receive_line(&mut machine, b"X").unwrap();
    let bad = HandlerError::Remote { code: 1, message: "two\nlines".to_owned() };
    assert!(matches!(
        finalize(Err(bad), &mut machine, false, &mut output),
        Err(ServerError::Protocol(ProtocolError::InvalidLine))
    ));
    assert_eq!(machine.state(), ServerState::Handler);
    assert!(matches!(
        finalize(Err(HandlerError::Transport(TransportError::Io)), &mut machine, false, &mut output),
        Err(ServerError::Handler(HandlerError::Transport(TransportError::Io)))
    ));
}

#[test]
fn rejected_greeting_is_answered_then_ends_the_session() {
    let mut output = [0u8; MAX_LINE_BYTES];
    let mut machine = ServerMachine::new();
    let error = HandlerError::remote(5, "denied").unwrap();
    let line = finalize(Err(error), &mut machine, true, &mut output).unwrap();
    assert_eq!(&output[..line.len], b"ERR 5 denied\n");
    assert!(matches!(line.outcome, Err(ServerError::Handler(HandlerError::Remote { code: 5, .. }))));
    assert_eq!(machine.state(), ServerState::Invalid);
    let mut machine = ServerMachine::new();
    let line = finalize(Ok(()), &mut machine, true, &mut output).unwrap();
    assert!(line.outcome.is_ok());
    assert_eq!(machine.state(), ServerState::Ready);
}

#[test]
fn session_end_reasons_follow_the_error_category() {
    assert_eq!(close_reason(&Ok(())), SessionEnd::Clean);
    assert_eq!(end_reason(&ServerError::Transport(TransportError::Timeout)), SessionEnd::Timeout);
    assert_eq!(
        end_reason(&ServerError::Handler(HandlerError::Transport(TransportError::Timeout))),
        SessionEnd::Timeout
    );
    assert_eq!(end_reason(&ServerError::Protocol(ProtocolError::InvalidLine)), SessionEnd::Protocol);
    assert_eq!(end_reason(&ServerError::State(StateError::Unusable)), SessionEnd::Protocol);
    assert_eq!(
        end_reason(&ServerError::Transport(TransportError::Protocol(ProtocolError::LineTooLong))),
        SessionEnd::Protocol
    );
    assert_eq!(end_reason(&ServerError::Transport(TransportError::Io)), SessionEnd::Transport);
    assert_eq!(
        end_reason(&ServerError::Handler(HandlerError::Transport(TransportError::Closed))),
        SessionEnd::Transport
    );
    assert_eq!(end_reason(&ServerError::Handler(HandlerError::Internal)), SessionEnd::Handler);
    assert_eq!(end_reason(&ServerError::InvalidOptions), SessionEnd::Handler);
    assert_eq!(close_reason(&Err(ServerError::InvalidOptions)), SessionEnd::Handler);
}

#[test]
fn help_streams_long_metadata_as_utf8_comments_within_the_wire_limit() {
    let name = "N".repeat(999);
    let description = "é🦀".repeat(700);
    let expected = format!("{name} {description}");
    let lines = help_entry(&name, &description).unwrap();
    assert!(lines.len() > 1);
    let mut custom = Vec::new();
    for line in &lines {
        assert!(line.len() <= 1000);
        assert!(line.starts_with(b"# "));
        assert!(line.ends_with(b"\n"));
        custom.extend_from_slice(&line[2..line.len() - 1]);
    }
    assert_eq!(String::from_utf8(custom).unwrap(), expected);
    for line in &lines[..lines.len() - 1] {
        assert!(line.len() > 1000 - 4);
    }
}

#[test]
fn builtin_help_lists_five_commands() {
    let mut lines = Vec::new();
    for (name, description) in builtin_commands() {
        lines.extend(help_entry(name, description).unwrap());
    }
    assert_eq!(lines.len(), 5);
    assert_eq!(lines[0], b"# NOP No operation\n");
    assert_eq!(lines[4], b"# OPTION Set a session option\n");
    assert!(matches!(
        help_entry("BAD NAME", "x"),
        Err(HandlerError::Protocol(ProtocolError::InvalidToken))
    ));
    assert!(matches!(
        help_entry("GOOD", "bad\nline"),
        Err(HandlerError::Protocol(ProtocolError::InvalidLine))
    ));
}

#[test]
fn lines_classified_as_commands_parse_as_commands() {
    for line in [b"NOP".as_slice(), b"CANCEL", b"GETINFO version", b"X  two  spaces", b"ENDX"] {
        assert_eq!(request_kind(line), Ok(RequestKind::Command));
        let command = assuan::Command::parse(line).unwrap();
        assert_ne!(command.name(), "END");
        assert_ne!(command.name(), "CAN");
    }
}

#[test]
fn commands_are_planned_by_exact_name() {
    let mut registry: assuan::Registry<u32> = assuan::Registry::new();
    assert!(registry.register("CUSTOM", "custom command", 7).is_ok());
    let bye = plan_command(&registry, "BYE");
    assert!(matches!(bye.action, CommandAction::Acknowledge) && bye.then_close);
    let nop = plan_command(&registry, "NOP");
    assert!(matches!(nop.action, CommandAction::Acknowledge) && !nop.then_close);
    assert!(matches!(plan_command(&registry, "HELP").action, CommandAction::ListHelp));
    assert!(matches!(plan_command(&registry, "OPTION").action, CommandAction::SetOption));
    assert!(matches!(plan_command(&registry, "RESET").action, CommandAction::ResetSession));
    let custom = plan_command(&registry, "CUSTOM");
    assert!(matches!(custom.action, CommandAction::Call(&7)) && !custom.then_close);
    assert!(matches!(plan_command(&registry, "custom").action, CommandAction::RejectUnknown));
    assert!(matches!(plan_command(&registry, "bye").action, CommandAction::RejectUnknown));
}

#[test]
fn builtin_descriptions_are_fixed() {
    let list = builtin_commands();
    assert_eq!(list[0], ("NOP", "No operation"));
    assert_eq!(list[1], ("BYE", "Close this connection"));
    assert_eq!(list[2], ("HELP", "List commands"));
    assert_eq!(list[3], ("RESET", "Reset transient session state"));
    assert_eq!(list[4], ("OPTION", "Set a session option"));
}
