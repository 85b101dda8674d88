use git_together::message::{
    append_message_args, append_template_args, augmented_message, co_author_trailer,
    co_author_trailers, commit_message_input_method, editor_template, rewrite_file_args,
    rewrite_stdin_args,
};
use git_together::{Author, AuthorParser, AugmentPlan, CommitMessageInputMethod, Config,
    GitTogether, Store};

fn args(list: &[&str]) -> Vec<String> {
    list.iter().map(|s| s.to_string()).collect()
}

fn gt_of(entries: &[(&str, &str)], domain: Option<&str>) -> GitTogether<Store> {
    let mut store = Store::new();
    for (k, v) in entries {
        store.set(k, v).unwrap();
    }
    GitTogether {
        config: store,
        author_parser: AuthorParser { domain: domain.map(|d| d.to_string()) },
    }
}

#[test]
fn detects_message_method() {
    assert!(matches!(
        commit_message_input_method(&args(&["-m", "fix"])),
        CommitMessageInputMethod::Message
    ));
    assert!(matches!(
        commit_message_input_method(&args(&["--message", "fix"])),
        CommitMessageInputMethod::Message
    ));
}

#[test]
fn detects_file_method() {
    match commit_message_input_method(&args(&["-a", "-F", "msg.txt"])) {
        CommitMessageInputMethod::File(path) => assert_eq!(path, "msg.txt"),
        _ => panic!("expected a file method"),
    }
    match commit_message_input_method(&args(&["--file", "other.txt"])) {
        CommitMessageInputMethod::File(path) => assert_eq!(path, "other.txt"),
        _ => panic!("expected a file method"),
    }
}

#[test]
fn detects_stdin_method() {
    assert!(matches!(
        commit_message_input_method(&args(&["-F", "-"])),
        CommitMessageInputMethod::Stdin
    ));
    assert!(matches!(
        commit_message_input_method(&args(&["-F-"])),
        CommitMessageInputMethod::Stdin
    ));
}

#[test]
fn detects_reuse_methods() {
    assert!(matches!(
        commit_message_input_method(&args(&["-C", "HEAD~1"])),
        CommitMessageInputMethod::ReuseCommit
    ));
    assert!(matches!(
        commit_message_input_method(&args(&["--reuse-message", "abc"])),
        CommitMessageInputMethod::ReuseCommit
    ));
    assert!(matches!(
        commit_message_input_method(&args(&["-c", "abc"])),
        CommitMessageInputMethod::ReuseCommitAndEdit
    ));
    assert!(matches!(
        commit_message_input_method(&args(&["--reedit-message", "abc"])),
        CommitMessageInputMethod::ReuseCommitAndEdit
    ));
}

#[test]
fn detects_editor_method() {
    assert!(matches!(
        commit_message_input_method(&args(&["-a", "--verbose"])),
        CommitMessageInputMethod::Editor
    ));
    assert!(matches!(
        commit_message_input_method(&args(&["-F"])),
        CommitMessageInputMethod::Editor
    ));
}

#[test]
fn first_flag_wins() {
    assert!(matches!(
        commit_message_input_method(&args(&["-m", "x", "-F", "f.txt"])),
        CommitMessageInputMethod::Message
    ));
}

#[test]
fn trailer_format() {
    let a = Author { name: "Naomi Nagata".into(), email: "nnagata@rocinante.com".into() };
    assert_eq!(co_author_trailer(&a), "Co-authored-by: Naomi Nagata <nnagata@rocinante.com>");
}

#[test]
fn trailers_skip_first_author() {
    let authors = vec![
        Author { name: "A".into(), email: "a@x.com".into() },
        Author { name: "B".into(), email: "b@x.com".into() },
        Author { name: "C".into(), email: "c@x.com".into() },
    ];
    let trailers = co_author_trailers(&authors);
    assert_eq!(
        trailers,
        vec![
            "Co-authored-by: B <b@x.com>".to_string(),
            "Co-authored-by: C <c@x.com>".to_string(),
        ]
    );
}

#[test]
fn augmented_message_layout() {
    let lines = args(&["first line", "second line"]);
    let trailers = args(&["Co-authored-by: B <b@x.com>"]);
    assert_eq!(
        augmented_message(&lines, &trailers),
        "first line\nsecond line\n\nCo-authored-by: B <b@x.com>"
    );
}

#[test]
fn append_and_rewrite_args() {
    assert_eq!(
        append_message_args(&args(&["commit"]), "block"),
        args(&["commit", "-m", "block"])
    );
    assert_eq!(
        append_template_args(&args(&["commit"]), "/tmp/scratch"),
        args(&["commit", "-t", "/tmp/scratch"])
    );
    assert_eq!(editor_template("block"), "\n\nblock");
    assert_eq!(
        rewrite_file_args(&args(&["-F", "msg.txt", "-a"]), "/tmp/scratch"),
        args(&["-F", "/tmp/scratch", "-a"])
    );
    assert_eq!(
        rewrite_stdin_args(&args(&["-F", "-"]), "/tmp/scratch"),
        args(&["-F", "/tmp/scratch"])
    );
    assert_eq!(
        rewrite_stdin_args(&args(&["-F-", "-a"]), "/tmp/scratch"),
        args(&["-F", "/tmp/scratch", "-a"])
    );
}

#[test]
fn authored_by_appends_message_trailer() {
    let gt = gt_of(
        &[
            ("git-together.active", "jh+nn"),
            ("git-together.authors.jh", "James Holden; jholden"),
            ("git-together.authors.nn", "Naomi Nagata; nnagata"),
            ("git-together.co-authored", "1"),
        ],
        Some("rocinante.com"),
    );

    let plan = gt.authored_by(&args(&["-m", "fix bug"]), false).unwrap();
    match plan {
        AugmentPlan::AppendMessage { block } => {
            assert_eq!(block, "Co-authored-by: Naomi Nagata <nnagata@rocinante.com>");
        },
        _ => panic!("expected an appended message argument"),
    }
}

#[test]
fn authored_by_solo_changes_nothing() {
    let gt = gt_of(
        &[
            ("git-together.active", "jh"),
            ("git-together.authors.jh", "James Holden; jholden"),
        ],
        Some("rocinante.com"),
    );

    assert!(matches!(
        gt.authored_by(&args(&["-m", "fix"]), false).unwrap(),
        AugmentPlan::NoChange
    ));
}

#[test]
fn authored_by_suppressed_changes_nothing() {
    let gt = gt_of(
        &[
            ("git-together.active", "jh+nn"),
            ("git-together.authors.jh", "James Holden; jholden"),
            ("git-together.authors.nn", "Naomi Nagata; nnagata"),
        ],
        Some("rocinante.com"),
    );

    assert!(matches!(
        gt.authored_by(&args(&["-m", "fix"]), true).unwrap(),
        AugmentPlan::NoChange
    ));
}

#[test]
fn authored_by_respects_reuse() {
    let gt = gt_of(
        &[
            ("git-together.active", "jh+nn"),
            ("git-together.authors.jh", "James Holden; jholden"),
            ("git-together.authors.nn", "Naomi Nagata; nnagata"),
        ],
        Some("rocinante.com"),
    );

    assert!(matches!(
        gt.authored_by(&args(&["-C", "HEAD~1"]), false).unwrap(),
        AugmentPlan::NoChange
    ));
    assert!(matches!(
        gt.authored_by(&args(&["--reedit-message", "abc"]), false).unwrap(),
        AugmentPlan::NoChange
    ));
}

#[test]
fn authored_by_editor_template() {
    let gt = gt_of(
        &[
            ("git-together.active", "jh+nn"),
            ("git-together.authors.jh", "James Holden; jholden"),
            ("git-together.authors.nn", "Naomi Nagata; nnagata"),
        ],
        Some("rocinante.com"),
    );

    match gt.authored_by(&args(&["-a"]), false).unwrap() {
        AugmentPlan::WriteTemplate { content } => {
            assert_eq!(content, "\n\nCo-authored-by: Naomi Nagata <nnagata@rocinante.com>");
        },
        _ => panic!("expected a template plan"),
    }
}

#[test]
fn authored_by_file_plan() {
    let gt = gt_of(
        &[
            ("git-together.active", "jh+nn"),
            ("git-together.authors.jh", "James Holden; jholden"),
            ("git-together.authors.nn", "Naomi Nagata; nnagata"),
        ],
        Some("rocinante.com"),
    );

    match gt.authored_by(&args(&["-F", "msg.txt"]), false).unwrap() {
        AugmentPlan::ReadFile { path, trailers } => {
            assert_eq!(path, "msg.txt");
            assert_eq!(
                trailers,
                vec!["Co-authored-by: Naomi Nagata <nnagata@rocinante.com>".to_string()]
            );
        },
        _ => panic!("expected a file plan"),
    }
}

#[test]
fn authored_by_stdin_plan() {
    let gt = gt_of(
        &[
            ("git-together.active", "jh+nn"),
            ("git-together.authors.jh", "James Holden; jholden"),
            ("git-together.authors.nn", "Naomi Nagata; nnagata"),
        ],
        Some("rocinante.com"),
    );

    match gt.authored_by(&args(&["-F", "-"]), false).unwrap() {
        AugmentPlan::ReadStdin { trailers } => {
            assert_eq!(
                trailers,
                vec!["Co-authored-by: Naomi Nagata <nnagata@rocinante.com>".to_string()]
            );
        },
        _ => panic!("expected a stdin plan"),
    }
}
