use elevate_pam::builtin::access::{evaluate_access, match_one_origin, match_one_user, origin_matches, user_matches};

fn no_groups() -> Vec<String> {
    Vec::new()
}

#[test]
fn user_matches_all_and_exact() {
    assert!(user_matches("ALL", "alice", &no_groups()));
    assert!(user_matches("alice", "alice", &no_groups()));
    assert!(!user_matches("bob", "alice", &no_groups()));
    assert!(user_matches("bob, alice", "alice", &no_groups()));
}

#[test]
fn user_matches_except() {
    assert!(!user_matches("EXCEPT alice", "alice", &no_groups()));
    assert!(user_matches("EXCEPT alice", "bob", &no_groups()));
}

#[test]
fn origin_matches_all_local_and_except() {
    assert!(origin_matches("ALL", "some.host"));
    assert!(origin_matches("LOCAL", "LOCAL"));
    assert!(origin_matches("LOCAL", "tty1"));
    assert!(!origin_matches("LOCAL", "remote.example.com"));
    assert!(origin_matches("remote.example.com", "remote.example.com"));
    assert!(!origin_matches("EXCEPT ALL", "anything"));
}

#[test]
fn origin_matches_case_insensitive() {
    assert!(origin_matches("Some.Host", "some.host"));
}

#[test]
fn user_matches_group_items() {
    let groups = vec!["wheel".to_string(), "staff".to_string()];
    assert!(user_matches("@wheel", "alice", &groups));
    assert!(!user_matches("@admin", "alice", &groups));
    assert!(match_one_user("@staff", "alice", &groups));
    assert!(!match_one_user("EXCEPT @staff", "alice", &groups));
}

#[test]
fn match_one_origin_items() {
    assert!(match_one_origin("ALL", "x"));
    assert!(!match_one_origin("EXCEPT LOCAL", "tty1"));
    assert!(match_one_origin("HOST.example", "host.EXAMPLE"));
}

#[test]
fn evaluate_access_first_matching_line_wins() {
    let text = "# comment\n\n- : bob : ALL\n+ : ALL : LOCAL\n- : ALL : ALL\n";
    assert_eq!(evaluate_access(text, "bob", "tty1", &no_groups()), Some((false, 2)));
    assert_eq!(evaluate_access(text, "alice", "tty1", &no_groups()), Some((true, 3)));
    assert_eq!(evaluate_access(text, "alice", "far.example.com", &no_groups()), Some((false, 4)));
}

#[test]
fn evaluate_access_grants_when_nothing_matches() {
    assert_eq!(evaluate_access("", "alice", "LOCAL", &no_groups()), None);
    assert_eq!(evaluate_access("- : bob : ALL\nshort : line\n", "alice", "LOCAL", &no_groups()), None);
}
