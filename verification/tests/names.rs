use xml_dom::error::Error;
use xml_dom::matching::{namespaced_name_match, tag_name_match};
use xml_dom::name::{check_part, name_char, name_start_char, Name};

#[test]
fn parse_plain_name_round_trips() {
    let name = Name::parse("root").unwrap();
    assert_eq!(name.to_string(), "root");
    assert_eq!(name.local_name(), "root");
    assert_eq!(name.prefix(), None);
    assert_eq!(name.namespace_uri(), None);
}

#[test]
fn parse_prefixed_name_round_trips() {
    let name = Name::parse("svg:rect").unwrap();
    assert_eq!(name.to_string(), "svg:rect");
    assert_eq!(name.local_name(), "rect");
    assert_eq!(name.prefix(), Some("svg".to_string()));
}

#[test]
fn parse_round_trips_for_many_names() {
    for q in ["a", "_x", "child-1", "a.b", "x:y", "ns1:elem_2", "\u{e9}t\u{e9}", "a\u{b7}b"] {
        assert_eq!(Name::parse(q).unwrap().to_string(), q);
    }
}

#[test]
fn parse_rejects_empty_name() {
    assert_eq!(Name::parse("").unwrap_err(), Error::Syntax);
}

#[test]
fn parse_rejects_empty_parts() {
    assert_eq!(Name::parse(":a").unwrap_err(), Error::Syntax);
    assert_eq!(Name::parse("a:").unwrap_err(), Error::Syntax);
    assert_eq!(Name::parse(":").unwrap_err(), Error::Syntax);
}

#[test]
fn parse_rejects_second_colon() {
    assert_eq!(Name::parse("a:b:c").unwrap_err(), Error::Syntax);
}

#[test]
fn parse_rejects_invalid_characters() {
    assert_eq!(Name::parse("1abc").unwrap_err(), Error::InvalidCharacter);
    assert_eq!(Name::parse("a b").unwrap_err(), Error::InvalidCharacter);
    assert_eq!(Name::parse("-a").unwrap_err(), Error::InvalidCharacter);
    assert_eq!(Name::parse("p:9").unwrap_err(), Error::InvalidCharacter);
    assert_eq!(Name::parse("*").unwrap_err(), Error::InvalidCharacter);
    assert_eq!(Name::parse("#text").unwrap_err(), Error::InvalidCharacter);
}

#[test]
fn from_namespace_keeps_the_namespace() {
    let name = Name::from_namespace("http://example.org/", "ex:item").unwrap();
    assert_eq!(name.namespace_uri(), Some("http://example.org/".to_string()));
    assert_eq!(name.prefix(), Some("ex".to_string()));
    assert_eq!(name.local_name(), "item");
    assert_eq!(name.to_string(), "ex:item");
}

#[test]
fn from_namespace_with_empty_uri_and_no_prefix_has_no_namespace() {
    let name = Name::from_namespace("", "item").unwrap();
    assert_eq!(name.namespace_uri(), None);
    assert_eq!(name.to_string(), "item");
}

#[test]
fn from_namespace_rejects_prefix_without_namespace() {
    assert_eq!(Name::from_namespace("", "ex:item").unwrap_err(), Error::Namespace);
}

#[test]
fn from_namespace_reports_name_errors_first() {
    assert_eq!(Name::from_namespace("", "").unwrap_err(), Error::Syntax);
    assert_eq!(
        Name::from_namespace("http://example.org/", "1x").unwrap_err(),
        Error::InvalidCharacter
    );
}

#[test]
fn namespace_declarations_are_recognised() {
    assert!(Name::parse("xmlns").unwrap().is_namespace_declaration());
    assert!(Name::parse("xmlns:p").unwrap().is_namespace_declaration());
    assert!(!Name::parse("p:xmlns").unwrap().is_namespace_declaration());
    assert!(!Name::parse("xml").unwrap().is_namespace_declaration());
}

#[test]
fn same_key_compares_prefix_and_local_part() {
    let a = Name::parse("p:x").unwrap();
    let b = Name::from_namespace("http://example.org/", "p:x").unwrap();
    let c = Name::parse("q:x").unwrap();
    let d = Name::parse("x").unwrap();
    assert!(a.same_key(&b));
    assert!(!a.same_key(&c));
    assert!(!a.same_key(&d));
    assert!(d.same_key(&d.clone()));
}

#[test]
fn reserved_names_are_kept_as_given() {
    let name = Name::reserved("#text");
    assert_eq!(name.to_string(), "#text");
    assert_eq!(name.prefix(), None);
}

#[test]
fn name_characters_are_classified() {
    assert!(name_start_char('a'));
    assert!(name_start_char('Z'));
    assert!(name_start_char('_'));
    assert!(name_start_char('\u{c0}'));
    assert!(!name_start_char('\u{d7}'));
    assert!(!name_start_char(':'));
    assert!(!name_start_char('-'));
    assert!(!name_start_char('0'));
    assert!(name_char('-'));
    assert!(name_char('.'));
    assert!(name_char('7'));
    assert!(name_char('\u{b7}'));
    assert!(name_char('\u{300}'));
    assert!(!name_char(' '));
    assert!(!name_char(':'));
    assert!(!name_char('*'));
}

#[test]
fn parts_are_checked() {
    assert_eq!(check_part(""), Some(Error::Syntax));
    assert_eq!(check_part("a:b"), Some(Error::InvalidCharacter));
    assert_eq!(check_part("ab"), None);
}

#[test]
fn tag_names_match_literally_or_by_wildcard() {
    let a = "item".to_string();
    let b = "item".to_string();
    let c = "other".to_string();
    let wild = "*".to_string();
    assert!(tag_name_match(&a, &b));
    assert!(!tag_name_match(&a, &c));
    assert!(tag_name_match(&a, &wild));
    assert!(tag_name_match(&wild, &c));
}

#[test]
fn namespaced_names_match_by_namespace_and_local_name() {
    let ns = Some("http://example.org/".to_string());
    let local = "item".to_string();
    let same_ns = "http://example.org/".to_string();
    let other_ns = "http://example.com/".to_string();
    let other_local = "thing".to_string();
    let wild = "*".to_string();
    assert!(namespaced_name_match(&ns, &local, &same_ns, &local));
    assert!(!namespaced_name_match(&ns, &local, &other_ns, &local));
    assert!(!namespaced_name_match(&ns, &local, &same_ns, &other_local));
    assert!(namespaced_name_match(&ns, &local, &wild, &local));
    assert!(namespaced_name_match(&ns, &local, &same_ns, &wild));
    assert!(namespaced_name_match(&ns, &local, &wild, &wild));
}

#[test]
fn a_name_without_namespace_matches_only_the_wildcard_namespace() {
    let local = "item".to_string();
    let some_ns = "http://example.org/".to_string();
    let wild = "*".to_string();
    assert!(!namespaced_name_match(&None, &local, &some_ns, &local));
    assert!(namespaced_name_match(&None, &local, &wild, &local));
    assert!(namespaced_name_match(&None, &local, &wild, &wild));
    assert!(!namespaced_name_match(&None, &local, &wild, &"thing".to_string()));
}

#[test]
fn names_are_equal_as_keys() {
    let a = Name::parse("p:x").unwrap();
    let b = Name::from_namespace("http://example.org/", "p:x").unwrap();
    let c = Name::parse("x").unwrap();
    assert!(a == b);
    assert!(a != c);
    assert_eq!(a, a.clone());
}

#[test]
fn names_are_read_from_strings() {
    let name: Name = "svg:rect".parse().unwrap();
    assert_eq!(name.to_string(), "svg:rect");
    let bad: Result<Name, Error> = "".parse();
    assert_eq!(bad.unwrap_err(), Error::Syntax);
}
