use elevate_pam::builtin::namespace::parse_conf;

#[test]
fn parse_conf_skips_comments_and_non_user_methods() {
    let text = "\
# a comment
/tmp /var/namespaces/tmp user
/home /var/namespaces/home context
malformed line
/var/tmp /var/namespaces/vartmp user
";
    let rules = parse_conf(text);
    assert_eq!(rules.len(), 2);
    assert_eq!(rules[0].polydir, "/tmp");
    assert_eq!(rules[0].instance_prefix, "/var/namespaces/tmp");
    assert_eq!(rules[1].polydir, "/var/tmp");
}

#[test]
fn parse_conf_empty_for_blank_text() {
    assert!(parse_conf("").is_empty());
    assert!(parse_conf("   \n  \n").is_empty());
}

#[test]
fn parse_conf_trims_and_takes_first_three_words() {
    let rules = parse_conf("   /srv\t/inst/srv   user  extra\n");
    assert_eq!(rules.len(), 1);
    assert_eq!(rules[0].polydir, "/srv");
    assert_eq!(rules[0].instance_prefix, "/inst/srv");
}
