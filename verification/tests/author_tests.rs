use git_together::{Author, AuthorParser, Error};

#[test]
fn new() {
    let author_parser = AuthorParser { domain: Some("example.com".into()) };

    let author = author_parser.parse("Jane Doe; jdoe").unwrap();
    assert_eq!(author.name, "Jane Doe");
    assert_eq!(author.email, "jdoe@example.com");

    let author = author_parser.parse("");
    assert!(author.is_err());

    let author = author_parser.parse("Jane Doe");
    assert!(author.is_err());

    let author = author_parser.parse("Jane Doe; ");
    assert!(author.is_err());

    let author = author_parser.parse("Jane Doe; jane.doe@example.edu").unwrap();
    assert_eq!(author.name, "Jane Doe");
    assert_eq!(author.email, "jane.doe@example.edu");
}

#[test]
fn parse_error_variants() {
    let with_domain = AuthorParser { domain: Some("example.com".into()) };
    let without_domain = AuthorParser { domain: None };

    assert_eq!(with_domain.parse("").unwrap_err(), Error::MissingName);
    assert_eq!(with_domain.parse("  ; jdoe").unwrap_err(), Error::MissingName);
    assert_eq!(with_domain.parse("Jane Doe").unwrap_err(), Error::MissingEmailSeed);
    assert_eq!(with_domain.parse("Jane Doe;  ").unwrap_err(), Error::MissingEmailSeed);
    assert_eq!(without_domain.parse("Jane Doe; jdoe").unwrap_err(), Error::MissingDomain);
}

#[test]
fn parse_trims_segments() {
    let parser = AuthorParser { domain: Some("example.com".into()) };
    let author = parser.parse("  Jane Doe  ;  jdoe  ").unwrap();
    assert_eq!(author.name, "Jane Doe");
    assert_eq!(author.email, "jdoe@example.com");
}

#[test]
fn parse_trims_unicode_whitespace() {
    let parser = AuthorParser { domain: Some("example.com".into()) };
    let author = parser.parse("\u{a0}Jane Doe\u{a0}; jdoe\u{3000}").unwrap();
    assert_eq!(author.name, "Jane Doe");
    assert_eq!(author.email, "jdoe@example.com");
}

#[test]
fn parse_full_email_ignores_domain() {
    let parser = AuthorParser { domain: None };
    let author = parser.parse("Jane Doe; jane@elsewhere.org").unwrap();
    assert_eq!(author.email, "jane@elsewhere.org");
}

#[test]
fn parse_takes_first_two_segments() {
    let parser = AuthorParser { domain: Some("example.com".into()) };
    let author = parser.parse("Jane Doe; jdoe; ignored").unwrap();
    assert_eq!(author.name, "Jane Doe");
    assert_eq!(author.email, "jdoe@example.com");
}

#[test]
fn author_equality_is_structural() {
    let a = Author { name: "Jane".into(), email: "j@example.com".into() };
    let b = Author { name: "Jane".into(), email: "j@example.com".into() };
    let c = Author { name: "Jane".into(), email: "other@example.com".into() };
    assert_eq!(a, b);
    assert_ne!(a, c);
}
