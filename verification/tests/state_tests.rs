use git_together::{parse_author_entries, Author, AuthorParser, Config, Error, GitTogether, Store};

fn store_of(entries: &[(&str, &str)]) -> Store {
    let mut store = Store::new();
    for (k, v) in entries {
        store.set(k, v).unwrap();
    }
    store
}

fn gt_of(entries: &[(&str, &str)], domain: Option<&str>) -> GitTogether<Store> {
    GitTogether {
        config: store_of(entries),
        author_parser: AuthorParser { domain: domain.map(|d| d.to_string()) },
    }
}

#[test]
fn get_authors() {
    let gt = gt_of(
        &[
            ("git-together.authors.jh", ""),
            ("git-together.authors.nn", "Naomi Nagata"),
            ("git-together.authors.ab", "Amos Burton; aburton"),
            ("git-together.authors.ak", "Alex Kamal; akamal"),
            ("git-together.authors.ca", "Chrisjen Avasarala;"),
            ("git-together.authors.bd", "Bobbie Draper; bdraper@mars.mil"),
            ("git-together.authors.jm", "Joe Miller; jmiller@starhelix.com"),
        ],
        Some("rocinante.com"),
    );

    assert!(gt.get_authors(&vec!["jh".to_string()]).is_err());
    assert!(gt.get_authors(&vec!["nn".to_string()]).is_err());
    assert!(gt.get_authors(&vec!["ca".to_string()]).is_err());
    assert!(gt.get_authors(&vec!["jh".to_string(), "bd".to_string()]).is_err());

    assert_eq!(
        gt.get_authors(&vec!["ab".to_string(), "ak".to_string()]).unwrap(),
        vec![
            Author { name: "Amos Burton".into(), email: "aburton@rocinante.com".into() },
            Author { name: "Alex Kamal".into(), email: "akamal@rocinante.com".into() },
        ]
    );
    assert_eq!(
        gt.get_authors(&vec!["ab".to_string(), "bd".to_string(), "jm".to_string()]).unwrap(),
        vec![
            Author { name: "Amos Burton".into(), email: "aburton@rocinante.com".into() },
            Author { name: "Bobbie Draper".into(), email: "bdraper@mars.mil".into() },
            Author { name: "Joe Miller".into(), email: "jmiller@starhelix.com".into() },
        ]
    );
}

#[test]
fn set_active_solo() {
    let mut gt = gt_of(
        &[
            ("git-together.authors.jh", "James Holden; jholden"),
            ("git-together.authors.nn", "Naomi Nagata; nnagata"),
            ("user.name", "Bobbie Draper"),
            ("user.email", "bdraper@mars.mil"),
        ],
        Some("rocinante.com"),
    );

    gt.set_active(&vec!["jh".to_string()]).unwrap();
    assert_eq!(gt.get_active().unwrap(), vec!["jh".to_string()]);
    assert_eq!(gt.config.get("user.name").unwrap(), "James Holden");
    assert_eq!(gt.config.get("user.email").unwrap(), "jholden@rocinante.com");
    assert_eq!(gt.config.get("git-together.user.name").unwrap(), "Bobbie Draper");
    assert_eq!(gt.config.get("git-together.user.email").unwrap(), "bdraper@mars.mil");
}

#[test]
fn set_active_pair() {
    let mut gt = gt_of(
        &[
            ("git-together.authors.jh", "James Holden; jholden"),
            ("git-together.authors.nn", "Naomi Nagata; nnagata"),
            ("user.name", "Bobbie Draper"),
            ("user.email", "bdraper@mars.mil"),
        ],
        Some("rocinante.com"),
    );

    gt.set_active(&vec!["nn".to_string(), "jh".to_string()]).unwrap();
    assert_eq!(gt.get_active().unwrap(), vec!["nn".to_string(), "jh".to_string()]);
    assert_eq!(gt.config.get("user.name").unwrap(), "Naomi Nagata");
    assert_eq!(gt.config.get("user.email").unwrap(), "nnagata@rocinante.com");
    assert_eq!(gt.config.get("git-together.user.name").unwrap(), "Bobbie Draper");
    assert_eq!(gt.config.get("git-together.user.email").unwrap(), "bdraper@mars.mil");
}

#[test]
fn clear_active_pair() {
    let mut gt = gt_of(
        &[
            ("git-together.authors.jh", "James Holden; jholden"),
            ("git-together.authors.nn", "Naomi Nagata; nnagata"),
            ("user.name", "Bobbie Draper"),
            ("user.email", "bdraper@mars.mil"),
        ],
        Some("rocinante.com"),
    );

    gt.set_active(&vec!["nn".to_string(), "jh".to_string()]).unwrap();
    gt.clear_active().unwrap();
    assert!(gt.get_active().is_err());
    assert!(gt.config.get("user.name").is_err());
    assert!(gt.config.get("user.email").is_err());
}

#[test]
fn multiple_set_active() {
    let mut gt = gt_of(
        &[
            ("git-together.authors.jh", "James Holden; jholden"),
            ("git-together.authors.nn", "Naomi Nagata; nnagata"),
            ("user.name", "Bobbie Draper"),
            ("user.email", "bdraper@mars.mil"),
        ],
        Some("rocinante.com"),
    );

    gt.set_active(&vec!["nn".to_string()]).unwrap();
    gt.set_active(&vec!["jh".to_string()]).unwrap();
    assert_eq!(gt.config.get("git-together.user.name").unwrap(), "Bobbie Draper");
    assert_eq!(gt.config.get("git-together.user.email").unwrap(), "bdraper@mars.mil");
}

#[test]
fn rotate_active() {
    let mut gt = gt_of(
        &[
            ("git-together.active", "jh+nn"),
            ("git-together.authors.jh", "James Holden; jholden"),
            ("git-together.authors.nn", "Naomi Nagata; nnagata"),
        ],
        Some("rocinante.com"),
    );

    gt.rotate_active().unwrap();
    assert_eq!(gt.get_active().unwrap(), vec!["nn".to_string(), "jh".to_string()]);
}

#[test]
fn rotate_active_twice_returns() {
    let mut gt = gt_of(
        &[
            ("git-together.active", "jh+nn"),
            ("git-together.authors.jh", "James Holden; jholden"),
            ("git-together.authors.nn", "Naomi Nagata; nnagata"),
        ],
        Some("rocinante.com"),
    );

    gt.rotate_active().unwrap();
    gt.rotate_active().unwrap();
    assert_eq!(gt.get_active().unwrap(), vec!["jh".to_string(), "nn".to_string()]);
}

#[test]
fn rotate_unset_active_is_noop() {
    let mut gt = gt_of(&[("git-together.authors.jh", "James Holden; jholden")], None);
    gt.rotate_active().unwrap();
    assert!(gt.get_active().is_err());
}

#[test]
fn rotate_empty_active_value_is_noop() {
    let mut gt = gt_of(&[("git-together.active", "")], None);
    gt.rotate_active().unwrap();
    assert_eq!(gt.config.get("git-together.active").unwrap(), "");
}

#[test]
fn all_authors() {
    let gt = gt_of(
        &[
            ("git-together.active", "jh+nn"),
            ("git-together.authors.ab", "Amos Burton; aburton"),
            ("git-together.authors.bd", "Bobbie Draper; bdraper@mars.mil"),
            ("git-together.authors.jm", "Joe Miller; jmiller@starhelix.com"),
        ],
        Some("rocinante.com"),
    );

    let all_authors = gt.all_authors().unwrap();
    assert_eq!(all_authors.len(), 3);
    let by_initials = |initials: &str| -> Author {
        all_authors.iter().find(|(i, _)| i == initials).unwrap().1.clone()
    };
    assert_eq!(
        by_initials("ab"),
        Author { name: "Amos Burton".into(), email: "aburton@rocinante.com".into() }
    );
    assert_eq!(
        by_initials("bd"),
        Author { name: "Bobbie Draper".into(), email: "bdraper@mars.mil".into() }
    );
    assert_eq!(
        by_initials("jm"),
        Author { name: "Joe Miller".into(), email: "jmiller@starhelix.com".into() }
    );
}

#[test]
fn all_authors_fails_on_malformed_entry() {
    let gt = gt_of(
        &[
            ("git-together.authors.ab", "Amos Burton; aburton"),
            ("git-together.authors.xx", "No Seed Here"),
            ("git-together.authors.jm", "Joe Miller; jmiller@starhelix.com"),
        ],
        Some("rocinante.com"),
    );

    let err = gt.all_authors().unwrap_err();
    match err {
        Error::InvalidAuthor(initials, raw) => {
            assert_eq!(initials, "xx");
            assert_eq!(raw, "No Seed Here");
        },
        other => panic!("unexpected error: {:?}", other),
    }
}

#[test]
fn set_active_atomic_on_resolution_failure() {
    let mut gt = gt_of(
        &[("git-together.authors.jh", "James Holden; jholden")],
        Some("rocinante.com"),
    );

    let err = gt.set_active(&vec!["jh".to_string(), "zz".to_string()]).unwrap_err();
    assert_eq!(err, Error::AuthorNotFound("zz".to_string()));
    assert!(gt.get_active().is_err());
    assert!(gt.config.get("user.name").is_err());
}

#[test]
fn set_get_active_round_trip() {
    let mut gt = gt_of(
        &[
            ("git-together.authors.jh", "James Holden; jholden"),
            ("git-together.authors.nn", "Naomi Nagata; nnagata"),
            ("git-together.authors.ab", "Amos Burton; aburton"),
        ],
        Some("rocinante.com"),
    );

    for inits in [
        vec!["jh".to_string()],
        vec!["jh".to_string(), "nn".to_string()],
        vec!["ab".to_string(), "jh".to_string(), "nn".to_string()],
    ] {
        gt.set_active(&inits).unwrap();
        assert_eq!(gt.get_active().unwrap(), inits);
    }
}

#[test]
fn parse_author_entries_in_order() {
    let parser = AuthorParser { domain: Some("rocinante.com".into()) };
    let entries = vec![
        ("git-together.authors.ab".to_string(), "Amos Burton; aburton".to_string()),
        ("git-together.authors.bd".to_string(), "Bobbie Draper; bdraper@mars.mil".to_string()),
    ];
    let out = parse_author_entries(&parser, &entries).unwrap();
    assert_eq!(out.len(), 2);
    assert_eq!(out[0].0, "ab");
    assert_eq!(out[0].1, Author { name: "Amos Burton".into(), email: "aburton@rocinante.com".into() });
    assert_eq!(out[1].0, "bd");
    assert_eq!(out[1].1, Author { name: "Bobbie Draper".into(), email: "bdraper@mars.mil".into() });
}

#[test]
fn parse_author_entries_first_failure_wins() {
    let parser = AuthorParser { domain: Some("rocinante.com".into()) };
    let entries = vec![
        ("git-together.authors.ab".to_string(), "Amos Burton; aburton".to_string()),
        ("git-together.authors.ca".to_string(), "Chrisjen Avasarala;".to_string()),
        ("git-together.authors.jh".to_string(), "".to_string()),
    ];
    assert_eq!(
        parse_author_entries(&parser, &entries).unwrap_err(),
        Error::InvalidAuthor("ca".to_string(), "Chrisjen Avasarala;".to_string())
    );
}

#[test]
fn new_reads_domain_from_store() {
    let store = store_of(&[
        ("git-together.domain", "rocinante.com"),
        ("git-together.authors.jh", "James Holden; jholden"),
    ]);
    let gt = GitTogether::new(store);
    let authors = gt.get_authors(&vec!["jh".to_string()]).unwrap();
    assert_eq!(authors[0].email, "jholden@rocinante.com");
}

#[test]
fn activate_and_resolve_scenario() {
    let mut gt = gt_of(
        &[("git-together.authors.jh", "James Holden; jholden"), ("git-together.domain",
            "rocinante.com")],
        Some("rocinante.com"),
    );

    let authors = gt.set_active(&vec!["jh".to_string()]).unwrap();
    assert_eq!(
        authors,
        vec![Author { name: "James Holden".into(), email: "jholden@rocinante.com".into() }]
    );
}
