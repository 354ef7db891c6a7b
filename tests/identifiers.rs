use zone_package::identifier::{ConfigIdent, InvalidConfigIdent, PackageName, PresetName, ServiceName};

#[test]
fn valid_identifiers() {
    let valid = [
        "a", "ab", "a1", "a_", "a-", "a_b", "a-b", "a1_", "a1-", "a1_b", "a1-b",
    ];
    for &id in &valid {
        ConfigIdent::new(id).unwrap_or_else(|error| {
            panic!(
                "ConfigIdent::new for {} should have succeeded, but failed with: {:?}",
                id, error
            );
        });
        PackageName::new(id).unwrap_or_else(|error| {
            panic!(
                "PackageName::new for {} should have succeeded, but failed with: {:?}",
                id, error
            );
        });
        ServiceName::new(id).unwrap_or_else(|error| {
            panic!(
                "ServiceName::new for {} should have succeeded, but failed with: {:?}",
                id, error
            );
        });
        PresetName::new(id).unwrap_or_else(|error| {
            panic!(
                "PresetName::new for {} should have succeeded, but failed with: {:?}",
                id, error
            );
        });
    }
}

#[test]
fn invalid_identifiers() {
    let invalid = [
        "", "1", "_", "-", "1_", "-a", "_a", "a!", "a ", "a\n", "a\t", "a\r", "a\x7F", "a…ë",
    ];
    for &id in &invalid {
        ConfigIdent::new(id).expect_err(&format!("ConfigIdent::new for {} should have failed", id));
        PackageName::new(id).expect_err(&format!("PackageName::new for {} should have failed", id));
        ServiceName::new(id).expect_err(&format!("ServiceName::new for {} should have failed", id));
        PresetName::new(id).expect_err(&format!("PresetName::new for {} should have failed", id));
    }
}

#[test]
fn identifier_boundaries_name_the_broken_rule() {
    assert_eq!(ConfigIdent::new("").unwrap_err(), InvalidConfigIdent::Empty);
    assert_eq!(ConfigIdent::new("1").unwrap_err(), InvalidConfigIdent::StartsWithNonLetter);
    assert_eq!(ConfigIdent::new("_a").unwrap_err(), InvalidConfigIdent::StartsWithNonLetter);
    assert_eq!(ConfigIdent::new("a ").unwrap_err(), InvalidConfigIdent::ContainsInvalidCharacters);
    assert_eq!(ConfigIdent::new("a\n").unwrap_err(), InvalidConfigIdent::ContainsInvalidCharacters);
    assert_eq!(ConfigIdent::new("a!").unwrap_err(), InvalidConfigIdent::ContainsInvalidCharacters);
    assert_eq!(ConfigIdent::new("a…ë").unwrap_err(), InvalidConfigIdent::ContainsInvalidCharacters);
    for ok in ["a", "a-1", "a_b-c"] {
        assert_eq!(ConfigIdent::new(ok).unwrap().as_str(), ok);
    }
}

#[test]
fn identifier_error_messages() {
    assert_eq!(InvalidConfigIdent::Empty.as_static_str(), "config identifier must be non-empty");
    assert_eq!(
        InvalidConfigIdent::StartsWithNonLetter.as_static_str(),
        "config identifier must start with a letter"
    );
    assert_eq!(
        InvalidConfigIdent::ContainsInvalidCharacters.as_static_str(),
        "config identifier must contain only letters, numbers, underscores, and hyphens"
    );
    assert_eq!(
        InvalidConfigIdent::NonAsciiPrintable.as_static_str(),
        "config identifier must be ASCII printable"
    );
}

#[test]
fn identifier_constructors_agree() {
    assert_eq!(PackageName::new_static("pkg-a").unwrap(), PackageName::new_const("pkg-a"));
    assert_eq!(ServiceName::new_const("svc").as_str(), "svc");
    assert!(PresetName::new_static("9").is_err());
}
