use git_together::invocation::{classify, is_trigger_command, suppresses_signoff, trigger_action};
use git_together::strutil::{after_last, join, split, trim};
use git_together::{namespaced, ConfigScope, TriggerAction};

fn args(list: &[&str]) -> Vec<String> {
    list.iter().map(|s| s.to_string()).collect()
}

#[test]
fn classify_plain_command() {
    let inv = classify(&args(&["commit", "-m", "x"]));
    assert_eq!(inv.scope, ConfigScope::Local);
    assert_eq!(inv.command, "commit");
    assert!(inv.global_args.is_empty());
    assert_eq!(inv.command_args, args(&["-m", "x"]));
}

#[test]
fn classify_strips_global_flag() {
    let inv = classify(&args(&["--global", "with", "jh"]));
    assert_eq!(inv.scope, ConfigScope::Global);
    assert_eq!(inv.command, "with");
    assert_eq!(inv.command_args, args(&["jh"]));
}

#[test]
fn classify_skips_value_consuming_flags() {
    let inv = classify(&args(&["-c", "core.editor=vi", "commit", "-m", "x"]));
    assert_eq!(inv.command, "commit");
    assert_eq!(inv.global_args, args(&["-c", "core.editor=vi"]));
    assert_eq!(inv.command_args, args(&["-m", "x"]));
}

#[test]
fn classify_value_of_flag_is_not_command() {
    let inv = classify(&args(&["--git-dir", "status", "log"]));
    assert_eq!(inv.command, "log");
    assert_eq!(inv.global_args, args(&["--git-dir", "status"]));
}

#[test]
fn classify_info_flag_is_command() {
    let inv = classify(&args(&["--version"]));
    assert_eq!(inv.command, "--version");
    assert!(inv.command_args.is_empty());
}

#[test]
fn classify_without_command() {
    let inv = classify(&args(&["--bare-flag"]));
    assert_eq!(inv.command, "");
    assert_eq!(inv.global_args, args(&["--bare-flag"]));
    assert!(inv.command_args.is_empty());
}

#[test]
fn classify_partitions_at_the_found_token() {
    let inv = classify(&args(&["commit", "-m", "commit"]));
    assert_eq!(inv.command, "commit");
    assert!(inv.global_args.is_empty());
    assert_eq!(inv.command_args, args(&["-m", "commit"]));
}

#[test]
fn trigger_words() {
    assert!(is_trigger_command("with"));
    assert!(is_trigger_command("together"));
    assert!(!is_trigger_command("commit"));
}

#[test]
fn trigger_dispatch() {
    assert_eq!(trigger_action(&args(&[])), TriggerAction::ShowActive);
    assert_eq!(trigger_action(&args(&["--list"])), TriggerAction::List);
    assert_eq!(trigger_action(&args(&["--clear"])), TriggerAction::Clear);
    assert_eq!(trigger_action(&args(&["--version"])), TriggerAction::Version);
    assert_eq!(trigger_action(&args(&["jh", "nn"])), TriggerAction::Activate);
    assert_eq!(trigger_action(&args(&["--list", "jh"])), TriggerAction::Activate);
}

#[test]
fn suppression_rules() {
    assert!(suppresses_signoff("merge", &args(&[])));
    assert!(suppresses_signoff("commit", &args(&["--amend"])));
    assert!(!suppresses_signoff("commit", &args(&["-m", "x"])));
}

#[test]
fn namespaced_keys() {
    assert_eq!(namespaced("active"), "git-together.active");
    assert_eq!(namespaced("authors.jh"), "git-together.authors.jh");
}

#[test]
fn string_helpers() {
    assert_eq!(trim("  a b  "), "a b");
    assert_eq!(trim("\t\n"), "");
    assert_eq!(split("a+b+c", '+'), args(&["a", "b", "c"]));
    assert_eq!(split("", '+'), args(&[""]));
    assert_eq!(split("+", '+'), args(&["", ""]));
    assert_eq!(join(&args(&["a", "b"]), "+"), "a+b");
    assert_eq!(join(&args(&["solo"]), "+"), "solo");
    assert_eq!(after_last("git-together.authors.jh", '.'), "jh");
    assert_eq!(after_last("nodots", '.'), "nodots");
}
