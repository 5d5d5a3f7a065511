//! Remote errors are bounded wire content and diagnostic output is redacted.

use assuan::{
    HandlerError, ProtocolError, RegistryError, ServerError, StateError, TransportError,
};

#[test]
fn remote_errors_use_the_exact_encoded_limit() {
    for code in [0, 1, u32::MAX] {
        let budget = 1000 - "ERR ".len() - code.to_string().len() - 1 - 1;
        assert!(HandlerError::remote(code, &"x".repeat(budget)).is_ok());
        assert!(HandlerError::remote(code, &"x".repeat(budget + 1)).is_err());
        assert!(HandlerError::remote(code, "").is_ok());
    }
    assert!(HandlerError::remote(1, &"é".repeat(497)).is_err());
    for text in ["bad\rtext", "bad\ntext", "bad\0text"] {
        assert!(HandlerError::remote(1, text).is_err());
        let unchecked = HandlerError::Remote {
            code: 1,
            message: text.to_owned(),
        };
        assert!(unchecked.validate_remote().is_err());
    }
}

#[test]
fn diagnostics_do_not_expose_remote_text_or_transport_sources() {
    let remote = HandlerError::remote(7, "SECRET_MARKER").unwrap();
    for error in [
        remote,
        HandlerError::Transport(TransportError::Io),
        HandlerError::Internal,
    ] {
        assert!(!format!("{error:?}").contains("SECRET_MARKER"));
        assert!(!error.to_string().contains("SECRET_MARKER"));
    }
    assert_eq!(HandlerError::remote(7, "x").unwrap().to_string(), "remote handler error (7)");
    assert_eq!(HandlerError::Internal.to_string(), "internal handler failure");
}

#[test]
fn remote_errors_report_why_they_were_rejected() {
    assert!(matches!(
        HandlerError::remote(1, "bad\ntext"),
        Err(ProtocolError::InvalidLine)
    ));
    assert!(matches!(
        HandlerError::remote(1, &"x".repeat(2000)),
        Err(ProtocolError::LineTooLong)
    ));
    let HandlerError::Remote { code, message } = HandlerError::remote(42, "fine").unwrap() else {
        panic!("expected a remote error");
    };
    assert_eq!((code, message.as_str()), (42, "fine"));
    assert!(HandlerError::State(StateError::NotReady).validate_remote().is_ok());
}

#[test]
fn error_texts_are_fixed() {
    assert_eq!(RegistryError::InvalidName.to_string(), "invalid handler name");
    assert_eq!(
        RegistryError::Reserved("NOP".to_owned()).to_string(),
        "handler name is reserved: NOP"
    );
    assert_eq!(
        RegistryError::Duplicate("X".to_owned()).to_string(),
        "handler already registered: X"
    );
    assert_eq!(RegistryError::InvalidDescription.to_string(), "invalid handler description");
    assert_eq!(ServerError::InvalidOptions.to_string(), "invalid server options");
    assert_eq!(
        ServerError::Protocol(ProtocolError::InvalidLine).to_string(),
        "server protocol failure"
    );
}
