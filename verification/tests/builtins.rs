use elevate_pam::builtin::echo::echo_text;
use elevate_pam::builtin::env::{parse_env_conf, parse_env_file, reads_files, reads_user_file};
use elevate_pam::builtin::faildelay::delay_from_args;
use elevate_pam::builtin::faillock::{self, Phase};
use elevate_pam::builtin::limits::{apply_limit, limit_item, limit_value, limits_status, rules_for, LimitItem};
use elevate_pam::builtin::mkhomedir::{home_mode, home_umask_of};
use elevate_pam::builtin::nologin::nologin_status;
use elevate_pam::builtin::securetty::{check as securetty_check, tty_is_secure};
use elevate_pam::builtin::shells::check_shell;
use elevate_pam::builtin::succeed_if::eval_condition;
use elevate_pam::builtin::tally::{parse_tally, render_tally, TallyAction};
use elevate_pam::builtin::tally2;
use elevate_pam::builtin::umask::umask_from_args;
use elevate_pam::builtin::usertype::check_usertype;
use elevate_pam::builtin::warn::{debug_message, warn_message};
use elevate_pam::builtin::wheel::{group_name, is_group_member, wheel_status};
use elevate_pam::constants::{
    PAM_AUTH_ERR, PAM_PERM_DENIED, PAM_SESSION_ERR, PAM_SUCCESS, PAM_USER_UNKNOWN,
};

fn args(v: &[&str]) -> Vec<String> {
    v.iter().map(|s| s.to_string()).collect()
}

#[test]
fn tally_text_round_trip() {
    let entries = vec![1u64, 2, 3, 18446744073709551615];
    let text = render_tally(&entries);
    assert_eq!(text, "1\n2\n3\n18446744073709551615\n");
    assert_eq!(parse_tally(&text), entries);
    assert_eq!(parse_tally(" 7 \nx\n\n-1\n8"), vec![7, 8]);
    assert!(parse_tally("").is_empty());
}

#[test]
fn faillock_options_and_phases() {
    let o = faillock::parse_opts(&args(&["deny=5", "unlock_time=0", "silent", "dir=/t"]), "/d");
    assert_eq!(o.deny, 5);
    assert_eq!(o.fail_interval, 900);
    assert_eq!(o.unlock_time, 0);
    assert_eq!(o.root_unlock_time, None);
    assert!(o.silent && !o.even_deny_root && !o.local_users_only);
    assert_eq!(o.dir, "/t");
    let d = faillock::parse_opts(&[], "/var/faillock");
    assert_eq!((d.deny, d.unlock_time, d.dir.as_str()), (3, 600, "/var/faillock"));
    assert_eq!(faillock::phase_of(&args(&["authfail"])), Phase::AuthFail);
    assert_eq!(faillock::phase_of(&args(&["authfail", "authsucc"])), Phase::AuthSucc);
    assert_eq!(faillock::phase_of(&[]), Phase::Preauth);
}

#[test]
fn faillock_records_prunes_and_locks() {
    let o = faillock::parse_opts(&[], "/d");
    let now = 10_000u64;
    let tally = vec![now - 5000, now - 100, now - 10];
    match faillock::decide(&o, "alice", false, Phase::AuthFail, now, &tally) {
        TallyAction::Record(v) => assert_eq!(v, vec![now - 100, now - 10, now]),
        other => panic!("unexpected {:?}", other),
    }
    let three = vec![now - 30, now - 20, now - 10];
    assert!(matches!(
        faillock::decide(&o, "alice", false, Phase::Preauth, now, &three),
        TallyAction::Lock(3)
    ));
    let old = vec![now - 800, now - 700, now - 650];
    assert!(matches!(
        faillock::decide(&o, "alice", false, Phase::Preauth, now, &old),
        TallyAction::Clear
    ));
    assert!(matches!(
        faillock::decide(&o, "root", false, Phase::Preauth, now, &three),
        TallyAction::Allow
    ));
    assert!(matches!(
        faillock::decide(&o, "alice", false, Phase::AuthSucc, now, &three),
        TallyAction::Clear
    ));
    let local = faillock::parse_opts(&args(&["local_users_only"]), "/d");
    assert!(matches!(
        faillock::decide(&local, "alice", true, Phase::AuthFail, now, &three),
        TallyAction::Allow
    ));
}

#[test]
fn tally2_counts_and_locks() {
    let o = tally2::parse_opts(&args(&["deny=2", "no_magic_root"]), "/d");
    assert!(o.even_deny_root);
    assert!(matches!(
        tally2::check_and_increment(&o, Some("root"), false, 100, &vec![50]),
        TallyAction::Record(_)
    ));
    assert!(matches!(
        tally2::check_and_increment(&o, Some("bob"), false, 100, &vec![50, 60]),
        TallyAction::Lock(2)
    ));
    assert!(matches!(tally2::check_and_increment(&o, None, true, 100, &vec![]), TallyAction::Clear));
    assert!(matches!(tally2::check_and_increment(&o, None, false, 100, &vec![]), TallyAction::Allow));
    assert!(matches!(tally2::reset_on_success(Some("bob")), TallyAction::Clear));
    assert!(matches!(tally2::reset_on_success(None), TallyAction::Allow));
}

#[test]
fn env_files_are_parsed() {
    let text = "# c\n  A = \"quoted value\" \nB='x'\nnoequals\n\nC=\n";
    assert_eq!(parse_env_file(text), vec!["A=quoted value", "B=x", "C="]);
    let conf = "PATH DEFAULT=/bin OVERRIDE=\"/usr/bin\"\nEDITOR DEFAULT=vi\nLONE\n# x DEFAULT=1\n";
    assert_eq!(parse_env_conf(conf), vec!["PATH=/usr/bin", "EDITOR=vi"]);
    assert!(!reads_files(&[]));
    assert!(reads_files(&args(&["readenv"])));
    assert!(reads_files(&args(&["envfile=/x"])));
    assert!(reads_user_file(&args(&["user_readenv=1"])));
}

#[test]
fn securetty_and_shells() {
    let st = "# secure\nconsole\n/dev/tty1\n";
    assert!(tty_is_secure("tty1", Some(st)));
    assert!(tty_is_secure("/dev/console", Some(st)));
    assert!(!tty_is_secure("pts/0", Some(st)));
    assert!(tty_is_secure("pts/0", None));
    assert_eq!(securetty_check("alice", false, Some("pts/0"), Some(st)), PAM_SUCCESS);
    assert_eq!(securetty_check("root", false, Some("pts/0"), Some(st)), PAM_AUTH_ERR);
    assert_eq!(securetty_check("root", false, None, Some(st)), PAM_SUCCESS);
    let shells = "/bin/sh\n# /bin/zsh\n  /bin/bash \n";
    assert_eq!(check_shell(Some("/bin/bash"), Some(shells)), PAM_SUCCESS);
    assert_eq!(check_shell(Some("/bin/zsh"), Some(shells)), PAM_AUTH_ERR);
    assert_eq!(check_shell(None, Some(shells)), PAM_AUTH_ERR);
    assert_eq!(check_shell(Some("/bin/sh"), None), PAM_AUTH_ERR);
}

#[test]
fn succeed_if_conditions() {
    assert_eq!(eval_condition(&args(&["uid", ">=", "1000"]), Some("a"), Some(1000), Some(1)), PAM_SUCCESS);
    assert_eq!(eval_condition(&args(&["uid", "<", "1000"]), Some("a"), Some(1000), Some(1)), PAM_AUTH_ERR);
    assert_eq!(eval_condition(&args(&["user", "=", "root"]), Some("root"), None, None), PAM_SUCCESS);
    assert_eq!(eval_condition(&args(&["user", "!=", "root"]), Some("root"), None, None), PAM_AUTH_ERR);
    assert_eq!(eval_condition(&args(&["gid", "==", "5"]), Some("a"), Some(1), None), PAM_AUTH_ERR);
    assert_eq!(eval_condition(&args(&["shell", "=", "x"]), Some("a"), None, None), PAM_SUCCESS);
    assert_eq!(eval_condition(&args(&["uid", "="]), None, None, None), PAM_SUCCESS);
    assert_eq!(eval_condition(&args(&["uid", "=", "0"]), None, None, None), PAM_AUTH_ERR);
    assert_eq!(eval_condition(&args(&["uid", "~", "0"]), Some("a"), Some(3), None), PAM_SUCCESS);
}

#[test]
fn usertype_and_wheel() {
    assert_eq!(check_usertype(Some(1000), &[]), PAM_SUCCESS);
    assert_eq!(check_usertype(Some(10), &[]), PAM_AUTH_ERR);
    assert_eq!(check_usertype(Some(10), &args(&["system"])), PAM_SUCCESS);
    assert_eq!(check_usertype(None, &[]), PAM_AUTH_ERR);
    assert_eq!(group_name(&[]), "wheel");
    assert_eq!(group_name(&args(&["group=adm"])), "adm");
    let members = args(&["alice", "bob"]);
    assert_eq!(is_group_member("bob", Some(100), Some(10), &members), Some(true));
    assert_eq!(is_group_member("carol", Some(10), Some(10), &members), Some(true));
    assert_eq!(is_group_member("carol", Some(100), Some(10), &members), Some(false));
    assert_eq!(is_group_member("carol", Some(100), None, &members), Some(false));
    assert_eq!(is_group_member("carol", None, Some(10), &members), None);
    assert_eq!(wheel_status(Some(true), &[]), PAM_SUCCESS);
    assert_eq!(wheel_status(Some(false), &[]), PAM_AUTH_ERR);
    assert_eq!(wheel_status(Some(true), &args(&["deny"])), PAM_PERM_DENIED);
    assert_eq!(wheel_status(None, &[]), PAM_USER_UNKNOWN);
}

#[test]
fn limits_rules_and_values() {
    let conf = "# dom type item value\n* soft nofile 1024\nbob hard nproc 50\n@staff - core 0\nalice soft cpu 1\nshort line\n";
    let rules = rules_for(conf, "bob");
    let got: Vec<(String, String, String)> =
        rules.iter().map(|r| (r.limit_type.clone(), r.item.clone(), r.value.clone())).collect();
    assert_eq!(
        got,
        vec![
            ("soft".to_string(), "nofile".to_string(), "1024".to_string()),
            ("hard".to_string(), "nproc".to_string(), "50".to_string()),
            ("-".to_string(), "core".to_string(), "0".to_string()),
        ]
    );
    assert_eq!(limit_item("memlock"), Some(LimitItem::Memlock));
    assert_eq!(limit_item("bogus"), None);
    assert_eq!(limit_value("unlimited", u64::MAX), Some(u64::MAX));
    assert_eq!(limit_value("12", u64::MAX), Some(12));
    assert_eq!(limit_value("x", u64::MAX), None);
    assert_eq!(apply_limit("soft", 10, 1, 5, u64::MAX), Some((5, 5)));
    assert_eq!(apply_limit("hard", 3, 4, 9, u64::MAX), Some((3, 3)));
    assert_eq!(apply_limit("-", 7, 1, 2, u64::MAX), Some((7, 7)));
    assert_eq!(apply_limit("soft", 10, 1, u64::MAX, u64::MAX), Some((10, u64::MAX)));
    assert_eq!(apply_limit("both", 1, 2, 3, u64::MAX), None);
    assert_eq!(limits_status(false, &args(&["fatal"])), PAM_SESSION_ERR);
    assert_eq!(limits_status(false, &[]), PAM_SUCCESS);
}

#[test]
fn numeric_module_arguments() {
    assert_eq!(umask_from_args(&[]), 0o022);
    assert_eq!(umask_from_args(&args(&["umask=077", "umask=9", "x"])), 0o077);
    assert_eq!(delay_from_args(&[]), 2_000_000);
    assert_eq!(delay_from_args(&args(&["delay=5", "delay=-1"])), 5);
    assert_eq!(home_mode(&[]), 0o755);
    assert_eq!(home_mode(&args(&["umask=0027"])), 0o750);
    assert_eq!(home_umask_of(&[]), 0o022);
    assert_eq!(home_umask_of(&args(&["umask=0027"])), 0o027);
    assert_eq!(home_umask_of(&args(&["umask=9"])), 0o022);
}

#[test]
fn messages_and_simple_statuses() {
    assert_eq!(echo_text(&args(&["hello", "world"])), "hello world");
    assert_eq!(echo_text(&[]), "");
    assert_eq!(warn_message("login", Some("bob")), "pam_warn: service=login user=bob");
    assert_eq!(warn_message("login", None), "pam_warn: service=login user=unknown");
    assert_eq!(
        debug_message("su", None, &args(&["a", "b"])),
        "pam_debug: service=su user=unknown extra=[a b]"
    );
    assert_eq!(nologin_status(true, false), PAM_AUTH_ERR);
    assert_eq!(nologin_status(true, true), PAM_SUCCESS);
    assert_eq!(nologin_status(false, false), PAM_SUCCESS);
}
