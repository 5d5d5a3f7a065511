//! Registration rejects invalid metadata without replacing existing handlers.

use assuan::{Registry, RegistryError};

#[test]
fn registration_is_explicit_and_duplicates_fail() {
    let mut registry = Registry::new();
    registry.register("CUSTOM", "Original", "Original").unwrap();
    assert!(matches!(
        registry.register("CUSTOM", "Replacement", "Replacement"),
        Err(RegistryError::Duplicate(_))
    ));
    assert_eq!(*registry.get("CUSTOM").unwrap(), "Original");
    assert!(registry.get("custom").is_none());
}

#[test]
fn names_follow_protocol_syntax_and_wire_limit() {
    for name in ["", "#COMMENT", "HAS SPACE", "HAS\tTAB", "HAS%ESCAPE", "ação"] {
        assert!(
            Registry::new().register(name, "Description", ()).is_err(),
            "accepted {name:?}"
        );
    }
    assert!(Registry::new().register(&"X".repeat(1000), "Description", ()).is_err());
}

#[test]
fn reserved_names_and_line_injection_are_rejected() {
    for name in ["NOP", "BYE", "HELP", "RESET", "OPTION"] {
        assert!(matches!(
            Registry::new().register(name, "Description", ()),
            Err(RegistryError::Reserved(_))
        ));
    }
    for description in ["bad\rtext", "bad\ntext", "bad\0text"] {
        assert!(matches!(
            Registry::new().register("CUSTOM", description, ()),
            Err(RegistryError::InvalidDescription)
        ));
    }
    assert!(Registry::new().register("CUSTOM", "Descrição válida", ()).is_ok());
}

#[test]
fn direct_handlers_cannot_bypass_validation() {
    for name in ["#COMMENT", "NOP", "BYE", "HELP", "RESET", "OPTION"] {
        assert!(Registry::new().register(name, "Description", ()).is_err());
    }
    let mut registry = Registry::new();
    let longest = "X".repeat(999);
    registry.register(&longest, "Description", ()).unwrap();
    assert!(registry.get(&longest).is_some());
    assert!(!format!("{registry:?}").contains(&longest));
}

#[test]
fn registration_keeps_order_and_rejects_without_change() {
    let mut registry = Registry::new();
    registry.register("B", "second", 2).unwrap();
    registry.register("A", "first", 1).unwrap();
    assert!(registry.register("B", "again", 3).is_err());
    assert!(registry.register("NOP", "builtin", 4).is_err());
    assert_eq!(registry.len(), 2);
    assert_eq!(registry.name_at(0), "B");
    assert_eq!(*registry.handler_at(1), 1);
    assert_eq!(*registry.get("B").unwrap(), 2);
    assert_eq!(
        RegistryError::Reserved("NOP".to_owned()),
        Registry::new().register("NOP", "x", 0).unwrap_err()
    );
}
