use elevate_pam::appl::PamBuilder;
use elevate_pam::config::{
    falls_back_to_default, service_candidates, ControlFlag, GlobalConfig, ModuleEntry,
    ServiceConfig,
};
use elevate_pam::constants::{PAM_BAD_ITEM, PAM_CONV_ERR};
use elevate_pam::conv::{Converser, FixedConverser, NullConverser};
use elevate_pam::delay::delay_parts;
use elevate_pam::dispatch::{IncludeProgress, IncludeRun};
use elevate_pam::error::{PamError, PamStatus};
use elevate_pam::item::{app_may_set, is_string_item, validate_app_item, ItemStore};
use elevate_pam::legacy_pamd::{candidate_paths, parse_pamd};
use elevate_pam::loader::{
    category_allows_dynload, join_path, shared_candidates, shared_trampoline_slot, slot_assignment,
};
use elevate_pam::log::{log_line, syslog_priority};
use elevate_pam::module::{arg_has, arg_u64, arg_value, ModuleId, ModuleRegistry};
use elevate_pam::modutil::{find_group, find_passwd, find_shadow, in_group, search_key_in, user_in_passwd_text, GrKey, PwKey};
use elevate_pam::paths::{PathsConfig, PathsEnv, RawPathsConfig};
use elevate_pam::securemem::{wipe_bytes, SecretBytes, SecretString};
use elevate_pam::types::{ItemType, Message, MsgStyle, StackKind};
use elevate_pam::config::BuildCategory;
use elevate_pam::data::{name_less, DataTable};

fn args(v: &[&str]) -> Vec<String> {
    v.iter().map(|s| s.to_string()).collect()
}

#[test]
fn module_id_normalizes_names_and_paths() {
    assert_eq!(ModuleId::normalize("pam_unix.so").as_str(), "unix");
    assert_eq!(ModuleId::normalize("  unix ").as_str(), "unix");
    assert_eq!(ModuleId::normalize("pam_unix").as_str(), "unix");
    assert_eq!(ModuleId::normalize("/lib/security/pam_env.so").as_str(), "env");
    assert_eq!(ModuleId::normalize("pam_/x/pam_y.so").as_str(), "y");
    assert_eq!(ModuleId::normalize("unix").so_name(), "pam_unix.so");
    assert_eq!(ModuleId::default().as_str(), "unknown");
}

#[test]
fn module_arguments() {
    let a = args(&["debug", "minlen=8", "minlen=9", "dir=/x=y"]);
    assert!(arg_has(&a, "debug"));
    assert!(!arg_has(&a, "minlen"));
    assert_eq!(arg_value(&a, "minlen"), Some("8"));
    assert_eq!(arg_value(&a, "dir"), Some("/x=y"));
    assert_eq!(arg_value(&a, "none"), None);
    assert_eq!(arg_u64(&a, "minlen", 100), Some(8));
    assert_eq!(arg_u64(&a, "minlen", 5), None);
}

#[test]
fn registry_get_after_register() {
    let mut r: ModuleRegistry<u32> = ModuleRegistry::new();
    r.register(ModuleId::normalize("unix"), 1);
    r.register(ModuleId::normalize("env"), 2);
    r.register(ModuleId::normalize("pam_unix.so"), 3);
    assert_eq!(r.get(&ModuleId::normalize("unix")), Some(&3));
    assert_eq!(r.get(&ModuleId::normalize("env")), Some(&2));
    assert_eq!(r.get(&ModuleId::normalize("deny")), None);
    assert_eq!(r.iter(), vec![&3, &2]);
}

#[test]
fn items_read_back_what_was_set() {
    let mut items = ItemStore::new("login".to_string(), None);
    assert_eq!(items.get_item_str(ItemType::Service), Some("login"));
    assert_eq!(items.get_item_str(ItemType::UserPrompt), Some("login: "));
    assert_eq!(items.get_item_str(ItemType::Tty), None);
    items.set_item_str(ItemType::Tty, Some("tty1"), true).unwrap();
    assert_eq!(items.get_item_str(ItemType::Tty), Some("tty1"));
    items.set_item_str(ItemType::AuthTok, Some("secret"), true).unwrap();
    assert_eq!(items.get_item_str(ItemType::AuthTok), Some("secret"));
    assert_eq!(items.known_authtok(), Some("secret"));
    assert!(matches!(
        items.set_item_str(ItemType::Service, Some("/etc/pam.d/SU"), true),
        Err(PamError::InvalidArgument(_))
    ));
    assert_eq!(items.get_item_str(ItemType::Service), Some("login"));
    items.set_item_str(ItemType::Service, Some("/etc/pam.d/SU"), false).unwrap();
    assert_eq!(items.get_item_str(ItemType::Service), Some("su"));
    assert!(matches!(
        items.set_item_str(ItemType::Service, Some("a/.."), false),
        Err(PamError::InvalidArgument(_))
    ));
    assert_eq!(items.get_item_str(ItemType::Service), Some("su"));
    assert!(matches!(
        items.set_item_str(ItemType::Conv, Some("x"), true),
        Err(PamError::Status(PamStatus(PAM_BAD_ITEM)))
    ));
    items.set_item_str(ItemType::User, Some(""), true).unwrap();
    assert_eq!(items.known_user(), None);
    assert_eq!(items.user_prompt_for(None), "login: ");
    assert_eq!(items.user_prompt_for(Some("who? ")), "who? ");
    items.clear_tokens();
    assert_eq!(items.get_item_str(ItemType::AuthTok), None);
    assert!(validate_app_item(999).is_err());
    assert_eq!(validate_app_item(3).unwrap(), ItemType::Tty);
    assert!(is_string_item(ItemType::User));
    assert!(!is_string_item(ItemType::Conv));
    assert!(!app_may_set(ItemType::AuthTok));
    assert!(app_may_set(ItemType::Tty));
}

#[test]
fn secrets_expose_and_wipe() {
    let s = SecretString::from_str_slice("pässword");
    assert_eq!(s.expose(), "pässword");
    assert_eq!(s.len(), 9);
    assert!(!s.is_empty());
    assert_eq!(SecretString::new(String::new()).into_inner(), "");
    let mut b = SecretBytes::new(vec![1, 2, 3]);
    b.expose_mut()[0] = 9;
    assert_eq!(b.expose(), &[9, 2, 3]);
    let mut buf = [7u8; 4];
    wipe_bytes(&mut buf);
    assert_eq!(buf, [0u8; 4]);
}

#[test]
fn builder_keeps_settings() {
    let b = PamBuilder::new("login".to_string(), GlobalConfig::default())
        .user("alice".to_string())
        .confdir("/tmp/conf".to_string());
    let (service, user, confdir, _global) = b.into_parts();
    assert_eq!(service, "login");
    assert_eq!(user.as_deref(), Some("alice"));
    assert_eq!(confdir.as_deref(), Some("/tmp/conf"));
}

#[test]
fn loader_paths_and_slots() {
    assert!(category_allows_dynload(BuildCategory::Shared));
    assert!(!category_allows_dynload(BuildCategory::Static));
    assert_eq!(join_path("/lib", "pam_x.so"), "/lib/pam_x.so");
    assert_eq!(join_path("/lib/", "pam_x.so"), "/lib/pam_x.so");
    assert_eq!(join_path("", "pam_x.so"), "pam_x.so");
    assert_eq!(join_path("/lib", "/abs"), "/abs");
    let c = shared_candidates(&ModuleId::normalize("unix"), "/lib/security");
    assert_eq!(c, vec!["/lib/security/pam_unix.so", "/lib/security/pam_unix.so"]);
    assert_eq!(slot_assignment(3), (3, Some(3)));
    assert_eq!(slot_assignment(20), (20, None));
    assert_eq!(slot_assignment(500), (0, Some(0)));
    assert_eq!(shared_trampoline_slot(0), 0);
    assert_eq!(shared_trampoline_slot(5), 4);
    assert_eq!(shared_trampoline_slot(1000), 127);
}

#[test]
fn conversers_answer_prompts() {
    let mut f = FixedConverser { password: "pw".to_string(), username: "me".to_string() };
    let msgs = vec![
        Message { style: MsgStyle::PromptEchoOff, text: "Password: ".to_string() },
        Message { style: MsgStyle::PromptEchoOn, text: "login: ".to_string() },
        Message { style: MsgStyle::TextInfo, text: "hi".to_string() },
    ];
    let r = f.converse(&msgs).unwrap();
    let texts: Vec<&str> = r.iter().map(|x| x.text.as_str()).collect();
    assert_eq!(texts, vec!["pw", "me", ""]);
    assert!(r.iter().all(|x| x.retcode == 0));
    let mut n = NullConverser;
    assert!(matches!(n.converse(&msgs), Err(PamError::Status(PamStatus(PAM_CONV_ERR)))));
}

#[test]
fn parse_elevate_style() {
    let text = r#"
# comment
auth       required     pam_env.so readenv=1
auth       required     pam_unix.so
account    required     pam_unix.so
password   required     pam_unix.so
session    required     pam_limits.so
session    required     pam_unix.so
"#;
    let cfg = parse_pamd(text).unwrap();
    assert_eq!(cfg.auth.len(), 2);
    assert_eq!(cfg.session.len(), 2);
    assert_eq!(cfg.auth[0].module, "pam_env.so");
    assert_eq!(cfg.auth[0].args, vec!["readenv=1".to_string()]);
}

#[test]
fn parse_pamd_optional_service_column_and_controls() {
    let text = "login -auth sufficient pam_x.so a b \\\nsession bogus pam_y.so\nother junk x\n";
    let cfg = parse_pamd(text).unwrap();
    assert_eq!(cfg.auth.len(), 1);
    assert!(cfg.auth[0].optional_load);
    assert_eq!(cfg.auth[0].control, ControlFlag::Sufficient);
    assert_eq!(cfg.auth[0].args, vec!["a".to_string(), "b".to_string()]);
    assert_eq!(cfg.session.len(), 1);
    assert_eq!(cfg.session[0].control, ControlFlag::Required);
    assert!(cfg.account.is_empty() && cfg.password.is_empty());
}

#[test]
fn legacy_candidate_paths_skip_toml() {
    let c = candidate_paths("Login", Some("/conf"), "/pre");
    assert_eq!(
        c,
        vec![
            "/conf/login",
            "/pre/etc/pam.d/login",
            "/pre/etc/elevate-pam/legacy-pamd/login",
            "/etc/pam.d/login",
            "/etc/elevate-pam/legacy-pamd/login",
        ]
    );
}

fn entry(control: ControlFlag, module: &str) -> ModuleEntry {
    ModuleEntry {
        control,
        module: module.to_string(),
        args: Vec::new(),
        optional_load: false,
        actions: None,
    }
}

struct MapLoader {
    services: Vec<(String, Vec<ModuleEntry>)>,
}

impl MapLoader {
    fn load_service(&mut self, name: &str) -> Result<ServiceConfig, PamError> {
        for (n, auth) in &self.services {
            if n == name {
                let mut cfg = ServiceConfig::default();
                cfg.auth = auth.clone();
                return Ok(cfg);
            }
        }
        Err(PamError::Config(format!("no {name}")))
    }
}

/// Drive an include run, loading from `loader`.
fn resolve_includes(
    loader: &mut MapLoader,
    global: &GlobalConfig,
    entries: &[ModuleEntry],
    kind: StackKind,
    depth: u32,
) -> Result<Vec<ModuleEntry>, PamError> {
    let mut progress = IncludeRun::new(global, entries.to_vec(), kind, depth).step(None);
    loop {
        progress = match progress {
            IncludeProgress::Load(run, name) => run.step(Some(loader.load_service(&name))),
            IncludeProgress::Continue(run) => run.step(None),
            IncludeProgress::Finish(r) => return r,
        };
    }
}

#[test]
fn resolve_includes_splices_nested_entries_in_place() {
    let global = GlobalConfig::default();
    let mut loader = MapLoader {
        services: vec![("common-auth".to_string(), vec![entry(ControlFlag::Sufficient, "permit")])],
    };
    let entries = vec![entry(ControlFlag::Include, "common-auth"), entry(ControlFlag::Required, "deny")];
    let resolved = resolve_includes(&mut loader, &global, &entries, StackKind::Auth, 0).unwrap();
    assert_eq!(resolved.len(), 2);
    assert_eq!(resolved[0].control, ControlFlag::Sufficient);
    assert_eq!(resolved[0].module, "permit");
    assert_eq!(resolved[1].control, ControlFlag::Required);
    assert_eq!(resolved[1].module, "deny");
}

#[test]
fn resolve_includes_depth_limit_errors_when_not_optional() {
    let global = GlobalConfig::default();
    let mut loader = MapLoader { services: Vec::new() };
    let entries = vec![entry(ControlFlag::Include, "whatever")];
    let result = resolve_includes(&mut loader, &global, &entries, StackKind::Auth, 32);
    assert!(result.is_err());
}

#[test]
fn resolve_includes_depth_limit_skips_when_optional() {
    let global = GlobalConfig::default();
    let mut loader = MapLoader { services: Vec::new() };
    let mut e = entry(ControlFlag::Include, "whatever");
    e.optional_load = true;
    let result = resolve_includes(&mut loader, &global, &[e], StackKind::Auth, 32).unwrap();
    assert!(result.is_empty());
}

#[test]
fn resolve_includes_missing_services() {
    let global = GlobalConfig::default();
    let mut loader = MapLoader { services: Vec::new() };
    let mut e = entry(ControlFlag::Include, "gone");
    assert!(resolve_includes(&mut loader, &global, &[e.clone()], StackKind::Auth, 0).is_err());
    e.optional_load = true;
    let r = resolve_includes(&mut loader, &global, &[e, entry(ControlFlag::Substack, "s")], StackKind::Auth, 0).unwrap();
    assert_eq!(r.len(), 1);
    assert_eq!(r[0].control, ControlFlag::Substack);
}

#[test]
fn service_candidates_and_fallback() {
    let g = GlobalConfig::default();
    let c = service_candidates(&g, "su");
    assert_eq!(c[0], format!("{}/su.toml", g.paths.services_dir));
    assert_eq!(c[1], format!("{}/su.toml", g.paths.vendor_dir));
    assert_eq!(c[2], format!("{}/services/su.toml", g.paths.conf_dir));
    assert!(falls_back_to_default(&g, "su"));
    assert!(!falls_back_to_default(&g, "other"));
}

#[test]
fn user_databases() {
    let passwd = "root:x:0:0:root:/root:/bin/bash\nbad:x:zero:0::/:/bin/sh\nalice:x:1000:100:Alice A:/home/alice:/bin/zsh\n";
    let a = find_passwd(passwd, PwKey::Name("alice")).unwrap();
    assert_eq!((a.uid, a.gid, a.dir.as_str(), a.shell.as_str()), (1000, 100, "/home/alice", "/bin/zsh"));
    assert_eq!(find_passwd(passwd, PwKey::Uid(0)).unwrap().name, "root");
    assert!(find_passwd(passwd, PwKey::Name("bad")).is_none());
    let group = "wheel:x:10:root,,alice\nusers:x:100:\n";
    let g = find_group(group, GrKey::Name("wheel")).unwrap();
    assert_eq!(g.members, vec!["root".to_string(), "alice".to_string()]);
    assert_eq!(find_group(group, GrKey::Gid(100)).unwrap().name, "users");
    assert!(in_group(&a, &g));
    assert!(in_group(&a, &find_group(group, GrKey::Gid(100)).unwrap()));
    let shadow = "alice:$6$h:19000:0:99999:7:::\nshort\n";
    let s = find_shadow(shadow, "alice").unwrap();
    assert_eq!((s.pwdp.as_str(), s.lstchg, s.max, s.inact, s.expire, s.flag), ("$6$h", 19000, 99999, -1, -1, 0));
    assert!(find_shadow(shadow, "short").is_none());
    let conf = "# c\nUMASK\t022\nPASS_MAX_DAYS   99999  \nLONE\n";
    assert_eq!(search_key_in(conf, "UMASK").as_deref(), Some("022"));
    assert_eq!(search_key_in(conf, "PASS_MAX_DAYS").as_deref(), Some("99999"));
    assert_eq!(search_key_in(conf, "LONE").as_deref(), Some(""));
    assert_eq!(search_key_in(conf, "NONE"), None);
    let pw = "root:x:0:0::/root:/bin/sh\n\nbob\n";
    assert!(user_in_passwd_text(pw, "root"));
    assert!(user_in_passwd_text(pw, "bob"));
    assert!(!user_in_passwd_text(pw, "x"));
    assert!(user_in_passwd_text(pw, ""));
}

#[test]
fn log_lines_and_delays() {
    assert_eq!(log_line("login", Some("unix"), "warn", "m"), "elevate-pam(login:unix)[warn]: m");
    assert_eq!(log_line("login", None, "info", "m"), "elevate-pam(login:elevate-pam)[info]: m");
    assert_eq!(syslog_priority("error"), 83);
    assert_eq!(syslog_priority("other"), 87);
    assert_eq!(delay_parts(0), None);
    assert_eq!(delay_parts(2_500_000), Some((2, 500_000_000)));
}

#[test]
fn defaults_match_historical_hardcoded_values() {
    let cfg = PathsConfig::default();
    assert_eq!(cfg.prefix, "/overlayer/syshub");
    assert_eq!(cfg.bindir, "/overlayer/syshub/bin");
    assert_eq!(cfg.module_dir, "/overlayer/syshub/lib/security");
    assert_eq!(cfg.elevators_file, "/overlayer/syshub/etc/elevators/elevate.toml");
    assert_eq!(cfg.shadow_file(&PathsEnv::empty()), "/overlayer/syshub/etc/shadow");
    assert_eq!(cfg.timestamp_dir(), "/overlayer/syshub/var/run/elevate/ts");
}

#[test]
fn data_table_replaces_and_clears_in_name_order() {
    let mut t: DataTable<u32> = DataTable::new();
    assert_eq!(t.set("zeta", 1), None);
    assert_eq!(t.set("alpha", 2), None);
    assert_eq!(t.set("mid", 3), None);
    assert_eq!(t.set("alpha", 4), Some(2));
    assert_eq!(t.get("alpha"), Some(&4));
    assert_eq!(t.get("zeta"), Some(&1));
    assert_eq!(t.get("none"), None);
    assert_eq!(t.take_all(), vec![4, 3, 1]);
    assert_eq!(t.get("alpha"), None);
    assert!(name_less("a", "b"));
    assert!(name_less("ab", "abc"));
    assert!(!name_less("b", "a"));
    assert!(!name_less("x", "x"));
}

#[test]
fn prefix_override_cascades_to_derived_fields() {
    let raw = RawPathsConfig { prefix: Some("/tmp/fake-prefix".to_string()), ..Default::default() };
    let cfg = PathsConfig::from_raw(&raw, &PathsEnv::empty());
    assert_eq!(cfg.prefix, "/tmp/fake-prefix");
    assert_eq!(cfg.bindir, "/tmp/fake-prefix/bin");
    assert_eq!(cfg.module_dir, "/tmp/fake-prefix/lib/security");
    assert_eq!(cfg.shadow_file(&PathsEnv::empty()), "/tmp/fake-prefix/etc/shadow");
    assert_eq!(cfg.conf_dir, "/tmp/fake-prefix/etc/elevate-pam");
    assert_eq!(cfg.services_dir, "/tmp/fake-prefix/etc/elevate-pam/services");
    assert_eq!(cfg.elevators_file, "/tmp/fake-prefix/etc/elevators/elevate.toml");
    let env = PathsEnv { syshub_prefix: None, syshub_etc: Some("/cfg".to_string()) };
    let cfg = PathsConfig::from_raw(&raw, &env);
    assert_eq!(cfg.conf_dir, "/cfg");
    assert_eq!(cfg.shadow_file(&env), "/cfg/shadow");
    assert_eq!(cfg.bindir, "/tmp/fake-prefix/bin");
    // SYSHUB_PREFIX wins over the file's prefix; SYSHUB_ETC over its conf_dir.
    let raw = RawPathsConfig {
        prefix: Some("/file".to_string()),
        conf_dir: Some("/file-conf".to_string()),
        ..Default::default()
    };
    let env = PathsEnv { syshub_prefix: Some("/env".to_string()), syshub_etc: None };
    let cfg = PathsConfig::from_raw(&raw, &env);
    assert_eq!(cfg.prefix, "/env");
    assert_eq!(cfg.bindir, "/env/bin");
    assert_eq!(cfg.conf_dir, "/file-conf");
    let env = PathsEnv { syshub_prefix: None, syshub_etc: Some("/etc-env".to_string()) };
    assert_eq!(PathsConfig::from_raw(&raw, &env).conf_dir, "/etc-env");
    // SYSHUB_ETC is read when a path is asked for.
    assert_eq!(cfg.shadow_file(&env), "/etc-env/shadow");
}

#[test]
fn explicit_file_wins_over_environment() {
    let raw = RawPathsConfig { prefix: Some("/file".to_string()), ..Default::default() };
    let env = PathsEnv { syshub_prefix: Some("/env".to_string()), syshub_etc: Some("/env-etc".to_string()) };
    let cfg = PathsConfig::from_explicit(&raw, &env);
    assert_eq!(cfg.prefix, "/file");
    assert_eq!(cfg.bindir, "/file/bin");
    assert_eq!(cfg.conf_dir, "/env-etc");
    let cfg = PathsConfig::from_explicit(&RawPathsConfig::default(), &env);
    assert_eq!(cfg.prefix, "/env");
    assert_eq!(cfg.module_dir, "/env/lib/security");
    let cfg = PathsConfig::from_raw(&raw, &env);
    assert_eq!(cfg.prefix, "/env");
}
