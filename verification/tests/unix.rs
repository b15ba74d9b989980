use elevate_pam::builtin::unix::{
    account_status, account_status_code, auth_by_hash, colon_field, ct_eq_bytes, hash_scheme,
    null_token_refused, opasswd_hashes_for, opasswd_update_text, prelim_by_hash,
    rejects_user_name, rewrite_shadow_text, too_short, usize_arg, verify_status, AccountStatus,
    HashScheme, auth_token_choice, prelim_token_choice, reusable_token, TokenChoice,
};
use elevate_pam::constants::{
    PAM_ACCT_EXPIRED, PAM_AUTHINFO_UNAVAIL, PAM_AUTH_ERR, PAM_DISALLOW_NULL_AUTHTOK,
    PAM_NEW_AUTHTOK_REQD, PAM_SUCCESS, PAM_USER_UNKNOWN, PAM_AUTHTOK_RECOVERY_ERR,
};

const SHADOW: &str = "\
alice:$argon2id$old:19000:0:99999:7:::\n\
bob:$argon2id$otherhash:19000:0:99999:7:::\n\
# a comment line, preserved verbatim\n\
charlie:!:19000:0:99999:7:::\n";

fn args(v: &[&str]) -> Vec<String> {
    v.iter().map(|s| s.to_string()).collect()
}

#[test]
fn rewrite_shadow_text_replaces_hash_and_lstchg_only() {
    let out = rewrite_shadow_text(SHADOW, "bob", "$argon2id$newhash", 19500).unwrap();
    let bob_line = out.lines().find(|l| l.starts_with("bob:")).unwrap();
    assert_eq!(bob_line, "bob:$argon2id$newhash:19500:0:99999:7:::");
    assert!(out.contains("alice:$argon2id$old:19000:0:99999:7:::"));
    assert!(out.contains("# a comment line, preserved verbatim"));
    assert!(out.contains("charlie:!:19000:0:99999:7:::"));
}

#[test]
fn rewrite_shadow_text_none_for_unknown_user() {
    assert!(rewrite_shadow_text(SHADOW, "nobody", "x", 1).is_none());
}

#[test]
fn rewrite_shadow_text_ignores_short_malformed_lines() {
    let text = "bob:onlytwofields\n";
    assert!(rewrite_shadow_text(text, "bob", "newhash", 1).is_none());
}

#[test]
fn rewrite_shadow_text_negative_day_and_whole_output() {
    let out = rewrite_shadow_text("x:h:1:2:3:4:5:6:7\n\ny:z\n", "x", "H", -3).unwrap();
    assert_eq!(out, "x:H:-3:2:3:4:5:6:7\n\ny:z\n");
}

#[test]
fn opasswd_hashes_for_parses_and_splits() {
    let text = "alice:h1,h2,h3\nbob:h4\n";
    assert_eq!(opasswd_hashes_for(text, "alice"), vec!["h1", "h2", "h3"]);
    assert_eq!(opasswd_hashes_for(text, "bob"), vec!["h4"]);
    assert!(opasswd_hashes_for(text, "nobody").is_empty());
}

#[test]
fn opasswd_hashes_for_trims_and_drops_empty_items() {
    assert_eq!(opasswd_hashes_for("alice: h1 ,, h2 ,\n", "alice"), vec!["h1", "h2"]);
    assert_eq!(opasswd_hashes_for("alice:a\nalice:b\n", "alice"), vec!["a"]);
}

#[test]
fn opasswd_update_text_prepends_and_caps_at_remember() {
    let text = "alice:h1,h2\n";
    let out = opasswd_update_text(text, "alice", "h3", 2);
    assert_eq!(opasswd_hashes_for(&out, "alice"), vec!["h3", "h1"]);
}

#[test]
fn opasswd_update_text_creates_new_user_entry() {
    let out = opasswd_update_text("", "alice", "h1", 3);
    assert_eq!(opasswd_hashes_for(&out, "alice"), vec!["h1"]);
}

#[test]
fn opasswd_update_text_leaves_other_users_untouched() {
    let text = "alice:h1\nbob:h2,h3\n";
    let out = opasswd_update_text(text, "alice", "h_new", 5);
    assert_eq!(opasswd_hashes_for(&out, "bob"), vec!["h2", "h3"]);
}

#[test]
fn opasswd_update_text_exact_output() {
    let out = opasswd_update_text("bob:x\nnocolon\nalice: a , b\n", "alice", "n", 2);
    assert_eq!(out, "bob:x\nalice:n,a\n");
    let out2 = opasswd_update_text("bob:x\n", "carol", "c", 4);
    assert_eq!(out2, "bob:x\ncarol:c\n");
}

#[test]
fn ct_eq_bytes_compares_whole_slices() {
    assert!(ct_eq_bytes(b"abc", b"abc"));
    assert!(!ct_eq_bytes(b"abc", b"abd"));
    assert!(!ct_eq_bytes(b"abc", b"ab"));
    assert!(ct_eq_bytes(b"", b""));
}

#[test]
fn account_status_expiry_and_aging() {
    let now = 20000;
    let shadow = "old:h:100:0:50:7:::\nexp:h:19999:0:99999:7::19000:\nok:h:19999:0:99999:7:::\n";
    assert_eq!(account_status(Some(shadow), "old", now, true), AccountStatus::NewAuthTok);
    assert_eq!(account_status(Some(shadow), "exp", now, true), AccountStatus::Expired);
    assert_eq!(account_status(Some(shadow), "ok", now, true), AccountStatus::Okay);
    assert_eq!(account_status(Some(shadow), "ghost", now, true), AccountStatus::Okay);
    assert_eq!(account_status(Some(shadow), "ghost", now, false), AccountStatus::Unknown);
    assert_eq!(account_status(None, "x", now, false), AccountStatus::Unknown);
    assert_eq!(account_status_code(AccountStatus::Expired), PAM_ACCT_EXPIRED);
    assert_eq!(account_status_code(AccountStatus::NewAuthTok), PAM_NEW_AUTHTOK_REQD);
    assert_eq!(account_status_code(AccountStatus::Okay), PAM_SUCCESS);
}

#[test]
fn colon_field_reads_first_named_entry() {
    let text = "# c\n\nroot:x:0:0\nalice:hash:1\nalice:other\n";
    assert_eq!(colon_field(text, "alice", 1).as_deref(), Some("hash"));
    assert_eq!(colon_field(text, "alice", 5), None);
    assert_eq!(colon_field(text, "alice", 0), None);
    assert_eq!(colon_field(text, "bob", 1), None);
}

#[test]
fn authenticate_decisions() {
    assert!(rejects_user_name("+nis"));
    assert!(rejects_user_name("-x"));
    assert!(!rejects_user_name("alice"));
    assert_eq!(auth_by_hash(Err(()), 0, &[]), Some(PAM_AUTHINFO_UNAVAIL));
    assert_eq!(auth_by_hash(Ok(None), 0, &[]), Some(PAM_USER_UNKNOWN));
    assert_eq!(auth_by_hash(Ok(Some("!locked")), 0, &[]), Some(PAM_AUTH_ERR));
    assert_eq!(auth_by_hash(Ok(Some("")), 0, &args(&["nullok"])), Some(PAM_SUCCESS));
    assert_eq!(
        auth_by_hash(Ok(Some("")), PAM_DISALLOW_NULL_AUTHTOK, &args(&["nullok"])),
        Some(PAM_AUTH_ERR)
    );
    assert_eq!(auth_by_hash(Ok(Some("$6$x")), 0, &[]), None);
    assert!(null_token_refused("", PAM_DISALLOW_NULL_AUTHTOK));
    assert!(!null_token_refused("", 0));
    assert_eq!(verify_status(Ok(true)), PAM_SUCCESS);
    assert_eq!(verify_status(Ok(false)), PAM_AUTH_ERR);
    assert_eq!(verify_status(Err(())), PAM_AUTHINFO_UNAVAIL);
}

#[test]
fn chauthtok_decisions() {
    assert_eq!(prelim_by_hash("root", Err(()), &[]), Some(PAM_SUCCESS));
    assert_eq!(prelim_by_hash("alice", Ok(Some("")), &args(&["nullok"])), Some(PAM_SUCCESS));
    assert_eq!(prelim_by_hash("alice", Ok(Some("h")), &[]), None);
    assert_eq!(usize_arg(&args(&["minlen=8"]), "minlen"), 8);
    assert_eq!(usize_arg(&args(&["minlen=x"]), "minlen"), 0);
    assert!(too_short("short", &args(&["minlen=8"])));
    assert!(!too_short("long enough", &args(&["minlen=8"])));
    assert_eq!(hash_scheme(&args(&["bcrypt", "rounds=4"])), HashScheme::Bcrypt(4));
    assert_eq!(hash_scheme(&args(&["blowfish"])), HashScheme::Bcrypt(12));
    assert_eq!(hash_scheme(&[]), HashScheme::Preferred);
}

#[test]
fn shadow_rewrite_reads_back_new_hash() {
    let out = rewrite_shadow_text(SHADOW, "alice", "$y$new", 20000).unwrap();
    assert_eq!(colon_field(&out, "alice", 1).as_deref(), Some("$y$new"));
    assert_eq!(colon_field(&out, "alice", 2).as_deref(), Some("20000"));
    assert_eq!(colon_field(&out, "bob", 1).as_deref(), Some("$argon2id$otherhash"));
    for field in 0..10 {
        assert_eq!(colon_field(&out, "bob", field), colon_field(SHADOW, "bob", field));
        assert_eq!(colon_field(&out, "charlie", field), colon_field(SHADOW, "charlie", field));
    }
    // A line that only names the user once its carriage return is dropped
    // hides the entry after the rewrite.
    let text = "alice\r\r\nalice:old:1:2:3:4:5:6:7\n";
    let out = rewrite_shadow_text(text, "alice", "new", 9).unwrap();
    assert_eq!(colon_field(&out, "alice", 1), None);
}

#[test]
fn token_sources_follow_the_arguments() {
    let first = vec!["use_first_pass".to_string()];
    let authtok = vec!["use_authtok".to_string()];
    let none: Vec<String> = Vec::new();
    assert_eq!(reusable_token(Some("pw")), Some("pw".to_string()));
    assert_eq!(reusable_token(Some("")), None);
    assert_eq!(reusable_token(None), None);
    assert_eq!(auth_token_choice(&first, Some("pw")), TokenChoice::Use("pw".to_string()));
    assert_eq!(auth_token_choice(&first, Some("")), TokenChoice::Refuse(PAM_AUTH_ERR));
    assert_eq!(auth_token_choice(&authtok, None), TokenChoice::Ask(None));
    assert_eq!(auth_token_choice(&none, Some("pw")), TokenChoice::Ask(None));
    assert_eq!(prelim_token_choice(&authtok, Some("old")), TokenChoice::Use("old".to_string()));
    assert_eq!(prelim_token_choice(&first, None), TokenChoice::Refuse(PAM_AUTHTOK_RECOVERY_ERR));
    assert_eq!(prelim_token_choice(&none, Some("old")), TokenChoice::Ask(Some(PAM_AUTHTOK_RECOVERY_ERR)));
}
