use elisym_core::error::ElisymError;
use nostr_sdk::nostr::event::builder::{Error as BuilderError, WrongKindError};

#[test]
fn test_payment_error_display() {
    let err = ElisymError::Payment("insufficient funds".into());
    assert!(err.to_string().contains("insufficient funds"));
    assert_eq!(err.to_string(), "Payment error: insufficient funds");
}

#[test]
fn test_config_error_display() {
    let err = ElisymError::Config("missing key".into());
    assert!(err.to_string().contains("missing key"));
    assert_eq!(err.to_string(), "Configuration error: missing key");
}

#[test]
fn test_invalid_capability_card_display() {
    let err = ElisymError::InvalidCapabilityCard("bad card".into());
    assert!(err.to_string().contains("bad card"));
    assert_eq!(err.to_string(), "Invalid capability card: bad card");
}

#[test]
fn test_from_serde_json_error() {
    let json_err = serde_json::from_str::<String>("not-json").unwrap_err();
    let said = json_err.to_string();
    let err: ElisymError = json_err.into();
    assert!(matches!(err, ElisymError::Json(_)));
    assert_eq!(err.to_string(), format!("JSON serialization error: {}", said));
}

#[test]
fn nostr_errors_keep_their_text() {
    let err: ElisymError = nostr_sdk::client::Error::GossipFiltersEmpty.into();
    assert!(matches!(err, ElisymError::Nostr(_)));
    assert_eq!(
        err.to_string(),
        format!("Nostr client error: {}", nostr_sdk::client::Error::GossipFiltersEmpty)
    );

    let err: ElisymError = nostr_sdk::nostr::key::Error::InvalidSecretKey.into();
    assert!(matches!(err, ElisymError::NostrKey(_)));
    assert_eq!(err.to_string(), "Nostr key error: Invalid secret key");

    let wrong_kind = || BuilderError::WrongKind {
        received: nostr_sdk::Kind::TextNote,
        expected: WrongKindError::Single(nostr_sdk::Kind::Metadata),
    };
    let err: ElisymError = wrong_kind().into();
    assert!(matches!(err, ElisymError::NostrEventBuilder(_)));
    assert_eq!(err.to_string(), format!("Nostr event builder error: {}", wrong_kind()));

    let empty = || nostr_sdk::Tag::parse(Vec::<String>::new()).unwrap_err();
    let err: ElisymError = empty().into();
    assert!(matches!(err, ElisymError::NostrTag(_)));
    assert_eq!(err.to_string(), format!("Nostr tag error: {}", empty()));
}
