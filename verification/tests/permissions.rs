//! Permission rules.

use a_rust_vm::permission_rules::{
    RulesFile, add_stored_permission_rule, list_rules, load_stored_permission_policy,
};
use a_rust_vm::permissions::{
    PermissionEffect, PermissionPolicy, PermissionRule, SessionApprovals, parse_permission_rule,
};

fn rule(text: &str) -> PermissionRule {
    parse_permission_rule(text).expect("rule should parse")
}

#[test]
fn parses_allow_ask_and_deny_rules() {
    assert_eq!(
        rule("allow write_file:notes.txt"),
        PermissionRule {
            effect: PermissionEffect::Allow,
            tool: "write_file".to_owned(),
            target_prefix: "notes.txt".to_owned(),
        }
    );
    assert_eq!(rule("ask *").tool, "*");
    assert_eq!(rule("deny run_command").effect, PermissionEffect::Deny);
}

#[test]
fn rejects_malformed_rules() {
    assert!(parse_permission_rule("").is_err());
    assert!(parse_permission_rule("allow").is_err());
    assert!(parse_permission_rule("permit write_file").is_err());
    assert!(parse_permission_rule("allow :notes.txt").is_err());
    assert!(parse_permission_rule("allow write_file:").is_err());
    assert!(parse_permission_rule("allow write_file notes.txt").is_err());
}

#[test]
fn decide_uses_first_match_and_defaults_to_ask() {
    let policy = PermissionPolicy::with_rules(vec![
        rule("deny run_command:rm"),
        rule("allow run_command"),
    ]);
    assert_eq!(
        policy.decide("run_command", "rm -rf /tmp"),
        PermissionEffect::Deny
    );
    assert_eq!(
        policy.decide("run_command", "printf hello"),
        PermissionEffect::Allow
    );
    assert_eq!(
        policy.decide("write_file", "notes.txt"),
        PermissionEffect::Ask
    );
}

#[test]
fn wildcard_tool_matches_any_tool_with_target_prefix() {
    let policy = PermissionPolicy::with_rules(vec![rule("deny *:secrets")]);
    assert_eq!(
        policy.decide("read_file", "secrets/token.txt"),
        PermissionEffect::Deny
    );
    assert_eq!(
        policy.decide("write_file", "notes.txt"),
        PermissionEffect::Ask
    );
}

#[test]
fn session_approvals_remember_exact_tool_and_target() {
    let mut approvals = SessionApprovals::new();
    approvals.remember("write_file", "notes.txt");
    assert!(approvals.is_allowed("write_file", "notes.txt"));
    assert!(!approvals.is_allowed("write_file", "other.txt"));
    assert!(!approvals.is_allowed("read_file", "notes.txt"));
    approvals.clear();
    assert!(!approvals.is_allowed("write_file", "notes.txt"));
}

#[test]
fn listed_rules_read_back() {
    let mut file = RulesFile::Missing;
    for text in ["allow  read_file", "deny *:secret/", "ask write_file:src/main.rs"] {
        file = RulesFile::Found(add_stored_permission_rule(&file, text).unwrap());
    }
    let policy = load_stored_permission_policy(&file).unwrap();
    let lines = list_rules(&file).lines;
    assert_eq!(
        lines,
        vec!["allow read_file", "deny *:secret/", "ask write_file:src/main.rs"]
    );
    for (rule, line) in policy.rules().iter().zip(&lines) {
        assert_eq!(&parse_permission_rule(line).unwrap(), rule);
    }
    let RulesFile::Found(bytes) = file else {
        panic!("rules were written");
    };
    assert_eq!(
        String::from_utf8(bytes).unwrap(),
        "[\n  \"allow  read_file\",\n  \"deny *:secret/\",\n  \"ask write_file:src/main.rs\"\n]"
    );
}

#[test]
fn white_space_around_the_parts_of_a_rule_does_not_matter() {
    for text in [
        "allow write_file:notes.txt",
        "  allow\twrite_file : notes.txt\n",
        "allow   write_file:   notes.txt  ",
    ] {
        assert_eq!(rule(text), rule("allow write_file:notes.txt"));
    }
    assert_eq!(rule(" ask  * ").target_prefix, "");
    assert_eq!(rule("deny fetch:http://a:80/").tool, "fetch");
    assert_eq!(rule("deny fetch:http://a:80/").target_prefix, "http://a:80/");
    for text in ["Allow x", "allow a b:c", "allow a:b c", "allow a :", "allow : b", "allowx"] {
        assert!(parse_permission_rule(text).is_err());
    }
}
