//! OPTION parsing and option builders.

use std::time::Duration;

use assuan::server::options::{capped_deadline, inquiry_deadline};
use assuan::{OptionRequest, ServerOptions};

#[test]
fn option_accepts_documented_separators() {
    let request = OptionRequest::parse(b" --name = value ").unwrap();
    assert_eq!(request.name(), b"name");
    assert_eq!(request.value(), Some(b"value".as_slice()));
}

#[test]
fn option_parsing_preserves_borrowed_binary_values_and_distinguishes_empty() {
    for input in [b" --name = value ".as_slice(), b"name value", b"name=value", b"--name\tvalue"] {
        let option = OptionRequest::parse(input).unwrap();
        assert_eq!(option.name(), b"name");
        assert_eq!(option.value(), Some(b"value".as_slice()));
    }
    assert_eq!(OptionRequest::parse(b"name=").unwrap().value(), Some(b"".as_slice()));
    assert_eq!(OptionRequest::parse(b"name").unwrap().value(), None);
    assert_eq!(OptionRequest::parse(b"name=\xff%00").unwrap().value(), Some(b"\xff%00".as_slice()));
    for invalid in [b"".as_slice(), b"=x", b"--", b"name=\0", b"na%me=value"] {
        assert!(OptionRequest::parse(invalid).is_err());
    }
}

#[test]
fn option_builders_reject_invalid_resource_limits() {
    assert!(ServerOptions::default().with_max_sessions(0).is_err());
    assert!(ServerOptions::default().with_max_sessions(usize::MAX).is_err());
    assert!(ServerOptions::default().with_max_inquiry_bytes(0).is_err());
    assert!(ServerOptions::default().with_greeting_timeout(Duration::ZERO).is_err());
    assert!(ServerOptions::default().with_command_timeout(Duration::MAX).is_err());
    assert!(ServerOptions::default().with_inquiry_timeout(Duration::ZERO).is_err());
    assert!(ServerOptions::default().with_idle_timeout(Duration::ZERO).is_err());
    assert!(ServerOptions::default().with_shutdown_timeout(Duration::ZERO).is_err());
}

#[test]
fn option_builders_keep_valid_limits() {
    let options = ServerOptions::default()
        .with_max_sessions(2)
        .unwrap()
        .with_max_inquiry_bytes(3)
        .unwrap()
        .with_idle_timeout(Duration::from_secs(2))
        .unwrap();
    assert_eq!(options.max_sessions, 2);
    assert_eq!(options.max_inquiry_bytes, 3);
    assert_eq!(options.idle_timeout, Duration::from_secs(2));
    assert_eq!(options.greeting_timeout, Duration::from_secs(120));
    assert!(options.validate().is_ok());
    let defaults = ServerOptions::default();
    assert_eq!(defaults.command_timeout, Duration::from_secs(300));
    assert_eq!(defaults.inquiry_timeout, Duration::from_secs(120));
    assert_eq!(defaults.shutdown_timeout, Duration::from_secs(30));
    assert_eq!(defaults.max_inquiry_bytes, 1024 * 1024);
    assert!(defaults.validate().is_ok());
}

#[test]
fn direct_options_are_validated() {
    let options = ServerOptions { max_sessions: usize::MAX, ..ServerOptions::default() };
    assert!(options.validate().is_err());
    let options = ServerOptions { max_inquiry_bytes: 0, ..ServerOptions::default() };
    assert!(options.validate().is_err());
    let options = ServerOptions { shutdown_timeout: Duration::ZERO, ..ServerOptions::default() };
    assert!(options.validate().is_err());
}

#[test]
fn option_values_follow_the_separator_rules() {
    let option = OptionRequest::parse(b"  name   rest of value  ").unwrap();
    assert_eq!(option.name(), b"name");
    assert_eq!(option.value(), Some(b"rest of value".as_slice()));
    let option = OptionRequest::parse(b"name = = x").unwrap();
    assert_eq!(option.value(), Some(b"= x".as_slice()));
    let option = OptionRequest::parse(b"--").err();
    assert!(option.is_some());
    assert!(!format!("{:?}", OptionRequest::parse(b"name=secret").unwrap()).contains("secret"));
}

#[test]
fn nested_deadline_is_capped_by_the_enclosing_one() {
    let now = tokio::time::Instant::now();
    let sooner = now + Duration::from_secs(5);
    let later = now + Duration::from_secs(50);
    assert_eq!(capped_deadline(Ok(later), sooner), sooner);
    assert_eq!(capped_deadline(Ok(sooner), later), sooner);
    assert_eq!(capped_deadline(Err(assuan::ServerError::InvalidOptions), later), later);
    assert_eq!(inquiry_deadline(Duration::ZERO, later), later);
    assert_eq!(inquiry_deadline(Duration::from_secs(3600), sooner), sooner);
    assert!(inquiry_deadline(Duration::from_secs(1), later) < later);
}
