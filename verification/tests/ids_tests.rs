use beautytips::ids::is_valid_id;
use beautytips::ids::ActionId;
use beautytips::ids::ActionSource;
use beautytips::ids::QualifiedActionId;

#[test]
fn test_valid_id() {
    assert!(is_valid_id("foo/bar"));
    assert!(is_valid_id("_a/_b"));
    assert!(is_valid_id("1a/1b"));
    assert!(is_valid_id("1___a_dsd_/b___342144_zdfj"));
    assert!(!is_valid_id(""));
    assert!(!is_valid_id("__1/bar"));
    assert!(!is_valid_id("foo/1__"));
    assert!(!is_valid_id("foo"));
    assert!(!is_valid_id("_foo_"));
    assert!(!is_valid_id("a/Bar"));
}

#[test]
fn action_id_accepts_lowercase_digits_underscore() {
    assert!(ActionId::new("foo_1".to_string()).is_ok());
    assert!(ActionId::new("".to_string()).is_ok());
    assert!(ActionId::new("Foo".to_string()).is_err());
    assert!(ActionId::new("a b".to_string()).is_err());
    assert_eq!(
        ActionId::new("X".to_string()).unwrap_err(),
        "X is not a valid action id"
    );
}

#[test]
fn action_source_rejects_underscore() {
    assert!(ActionSource::new_str("user2").is_ok());
    assert!(ActionSource::new_str("a_b").is_err());
    assert!(ActionSource::new_str("A").is_err());
}

#[test]
fn qualified_id_parses_both_forms() {
    let plain = QualifiedActionId::parse_str("fmt").unwrap();
    assert!(plain.source.is_none());
    assert_eq!(plain.unqualified_id().as_str(), "fmt");
    assert_eq!(plain.qualified_name(), "fmt");

    let qualified = QualifiedActionId::parse_str("user/fmt_all").unwrap();
    assert_eq!(qualified.source.as_ref().unwrap().as_str(), "user");
    assert_eq!(qualified.unqualified_id().as_str(), "fmt_all");
    assert_eq!(qualified.qualified_name(), "user/fmt_all");

    assert!(QualifiedActionId::parse_str("User/fmt").is_err());
    assert!(QualifiedActionId::parse_str("a/b/c").is_err());
}
