use git_together::{AuthorParser, Config, Error, GitTogether, Store};

fn gt_of(entries: &[(&str, &str)], domain: Option<&str>) -> GitTogether<Store> {
    let mut store = Store::new();
    for (k, v) in entries {
        store.set(k, v).unwrap();
    }
    GitTogether {
        config: store,
        author_parser: AuthorParser { domain: domain.map(|d| d.to_string()) },
    }
}

#[test]
fn is_signoff_cmd_basics() {
    let gt = gt_of(&[], Some("rocinante.com"));

    assert_eq!(gt.is_signoff_cmd("commit"), true);
    assert_eq!(gt.is_signoff_cmd("merge"), true);
    assert_eq!(gt.is_signoff_cmd("revert"), true);
    assert_eq!(gt.is_signoff_cmd("bisect"), false);
}

#[test]
fn is_signoff_cmd_aliases() {
    let gt = gt_of(&[("git-together.aliases", "ci,m,rv")], Some("rocinante.com"));

    assert_eq!(gt.is_signoff_cmd("ci"), true);
    assert_eq!(gt.is_signoff_cmd("m"), true);
    assert_eq!(gt.is_signoff_cmd("rv"), true);
    assert_eq!(gt.is_signoff_cmd("push"), false);
}

#[test]
fn signoff_solo_author_equals_committer() {
    let gt = gt_of(
        &[
            ("git-together.active", "jh"),
            ("git-together.authors.jh", "James Holden; jholden"),
        ],
        Some("rocinante.com"),
    );

    let s = gt.signoff(false).unwrap();
    assert_eq!(s.author, s.committer);
    assert_eq!(s.author.name, "James Holden");
    assert_eq!(s.author.email, "jholden@rocinante.com");
    assert!(!s.add_signoff);
}

#[test]
fn signoff_pair_adds_flag() {
    let gt = gt_of(
        &[
            ("git-together.active", "jh+nn"),
            ("git-together.authors.jh", "James Holden; jholden"),
            ("git-together.authors.nn", "Naomi Nagata; nnagata"),
        ],
        Some("rocinante.com"),
    );

    let s = gt.signoff(false).unwrap();
    assert_eq!(s.author.name, "James Holden");
    assert_eq!(s.committer.name, "Naomi Nagata");
    assert_eq!(s.committer.email, "nnagata@rocinante.com");
    assert!(s.add_signoff);
}

#[test]
fn signoff_pair_suppressed() {
    let gt = gt_of(
        &[
            ("git-together.active", "jh+nn"),
            ("git-together.authors.jh", "James Holden; jholden"),
            ("git-together.authors.nn", "Naomi Nagata; nnagata"),
        ],
        Some("rocinante.com"),
    );

    let s = gt.signoff(true).unwrap();
    assert!(!s.add_signoff);
}

#[test]
fn signoff_three_uses_first_and_last() {
    let gt = gt_of(
        &[
            ("git-together.active", "jh+nn+ab"),
            ("git-together.authors.jh", "James Holden; jholden"),
            ("git-together.authors.nn", "Naomi Nagata; nnagata"),
            ("git-together.authors.ab", "Amos Burton; aburton"),
        ],
        Some("rocinante.com"),
    );

    let s = gt.signoff(false).unwrap();
    assert_eq!(s.author.name, "James Holden");
    assert_eq!(s.committer.name, "Amos Burton");
    assert!(s.add_signoff);
}

#[test]
fn signoff_without_active_set_fails() {
    let gt = gt_of(&[("git-together.authors.jh", "James Holden; jholden")], None);
    assert_eq!(gt.signoff(false).unwrap_err(), Error::NoActiveAuthors);
}

#[test]
fn signoff_with_empty_active_value_fails() {
    let gt = gt_of(&[("git-together.active", "")], None);
    assert_eq!(gt.signoff(false).unwrap_err(), Error::NoActiveAuthors);
}

#[test]
fn co_author_mode_toggle() {
    let off = gt_of(&[], None);
    assert!(!off.co_author_mode());
    let zero = gt_of(&[("git-together.co-authored", "0")], None);
    assert!(!zero.co_author_mode());
    let on = gt_of(&[("git-together.co-authored", "1")], None);
    assert!(on.co_author_mode());
}

#[test]
fn store_operations() {
    let mut store = Store::new();
    assert!(matches!(store.get("missing"), Err(Error::KeyNotFound(_))));
    store.set("a.b", "one").unwrap();
    store.set("a.c", "two").unwrap();
    store.set("a.b", "three").unwrap();
    assert_eq!(store.get("a.b").unwrap(), "three");
    let all = store.get_all("a.").unwrap();
    assert_eq!(all.len(), 2);
    store.clear("a.b").unwrap();
    assert!(store.get("a.b").is_err());
    store.add("d", "x").unwrap();
    assert_eq!(store.get("d").unwrap(), "x");
    assert!(store.add("d", "y").is_err());
}
