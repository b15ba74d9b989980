//! Install and runtime paths, resolved from the `[paths]` table of
//! `elevate_privilege.toml`.
//!
//! Every field not explicitly set is derived from the *resolved* `prefix`
//! (not a fixed literal), so overriding just `prefix` cascades to `bindir`,
//! `libdir`, and the rest.  Reading the environment and the configuration
//! file is left to the caller, which hands the values over as
//! [`PathsEnv`] and [`RawPathsConfig`].
//!
//! Resolution order, first match wins: the file that
//! `ELEVATE_PRIVILEGE_TOML` names, then the `SYSHUB_PREFIX` / `SYSHUB_ETC`
//! environment variables, then a `[paths]` table found at a well-known
//! location, then the compiled-in defaults.  `SYSHUB_ETC` is consulted
//! again each time an `/etc`-relative path is asked for.

use vstd::prelude::*;

use crate::text::{
    chars_of, concat, owned, push_str, rfind_char, rindex_of, lemma_rindex_of, string_of_range, trim_end_char,
    trim_end_char_range,
};

verus! {

/// The environment variables that influence path resolution.
#[derive(Debug, Clone)]
pub struct PathsEnv {
    /// `SYSHUB_PREFIX`, if set.
    pub syshub_prefix: Option<String>,
    /// `SYSHUB_ETC`, if set.
    pub syshub_etc: Option<String>,
}

impl PathsEnv {
    /// An environment with neither variable set.
    pub fn empty() -> (r: Self)
        ensures
            r.syshub_prefix is None,
            r.syshub_etc is None,
    {
        PathsEnv { syshub_prefix: None, syshub_etc: None }
    }
}

/// The `[paths]` table as written in the configuration file.
#[derive(Debug, Clone, Default)]
pub struct RawPathsConfig {
    /// Installation prefix.
    pub prefix: Option<String>,
    /// Binary directory.
    pub bindir: Option<String>,
    /// System binary directory.
    pub sbindir: Option<String>,
    /// Library directory.
    pub libdir: Option<String>,
    /// Runtime state directory.
    pub var_dir: Option<String>,
    /// Header directory.
    pub includedir: Option<String>,
    /// PAM configuration directory.
    pub conf_dir: Option<String>,
    /// Service stack directory.
    pub services_dir: Option<String>,
    /// Drop-in service directory.
    pub services_dropin_dir: Option<String>,
    /// PAM module directory.
    pub module_dir: Option<String>,
    /// Vendor service directory.
    pub vendor_dir: Option<String>,
    /// Elevator definitions directory.
    pub elevators_dir: Option<String>,
    /// Elevator definitions file.
    pub elevators_file: Option<String>,
}

/// Resolved install/runtime paths.
#[derive(Debug, Clone)]
pub struct PathsConfig {
    /// Installation prefix.
    pub prefix: String,
    /// Binary directory.
    pub bindir: String,
    /// System binary directory.
    pub sbindir: String,
    /// Library directory.
    pub libdir: String,
    /// Runtime state directory.
    pub var_dir: String,
    /// Header directory.
    pub includedir: String,
    /// PAM configuration directory.
    pub conf_dir: String,
    /// Service stack directory.
    pub services_dir: String,
    /// Drop-in service directory.
    pub services_dropin_dir: String,
    /// PAM module directory.
    pub module_dir: String,
    /// Vendor service directory.
    pub vendor_dir: String,
    /// Elevator definitions directory.
    pub elevators_dir: String,
    /// Elevator definitions file.
    pub elevators_file: String,
}

/// Resolved paths as character sequences.
pub struct PathsView {
    pub prefix: Seq<char>,
    pub bindir: Seq<char>,
    pub sbindir: Seq<char>,
    pub libdir: Seq<char>,
    pub var_dir: Seq<char>,
    pub includedir: Seq<char>,
    pub conf_dir: Seq<char>,
    pub services_dir: Seq<char>,
    pub services_dropin_dir: Seq<char>,
    pub module_dir: Seq<char>,
    pub vendor_dir: Seq<char>,
    pub elevators_dir: Seq<char>,
    pub elevators_file: Seq<char>,
}

/// The characters of an optional string.
pub open spec fn opt_view(o: Option<String>) -> Option<Seq<char>> {
    match o {
        Some(s) => Some(s@),
        None => None,
    }
}

impl View for PathsConfig {
    type V = PathsView;

    open spec fn view(&self) -> PathsView {
        PathsView {
            prefix: self.prefix@,
            bindir: self.bindir@,
            sbindir: self.sbindir@,
            libdir: self.libdir@,
            var_dir: self.var_dir@,
            includedir: self.includedir@,
            conf_dir: self.conf_dir@,
            services_dir: self.services_dir@,
            services_dropin_dir: self.services_dropin_dir@,
            module_dir: self.module_dir@,
            vendor_dir: self.vendor_dir@,
            elevators_dir: self.elevators_dir@,
            elevators_file: self.elevators_file@,
        }
    }
}

/// The compiled-in installation prefix.
pub open spec fn builtin_prefix() -> Seq<char> {
    "/overlayer/syshub"@
}

/// The value of an optional string, or `d` when absent.
pub open spec fn or_default(o: Option<String>, d: Seq<char>) -> Seq<char> {
    match o {
        Some(s) => s@,
        None => d,
    }
}

/// The prefix in effect: `SYSHUB_PREFIX`, else the compiled-in prefix.
pub open spec fn spec_default_prefix(env: PathsEnv) -> Seq<char> {
    or_default(env.syshub_prefix, builtin_prefix())
}

/// The paths that a `[paths]` table found at a well-known location
/// resolves to in an environment: `SYSHUB_PREFIX` / `SYSHUB_ETC` win over
/// the table's `prefix` / `conf_dir`.
pub open spec fn resolve_paths(raw: RawPathsConfig, env: PathsEnv) -> PathsView {
    resolve_paths_with(raw, env, false)
}

/// The paths that a `[paths]` table resolves to in an environment.  With
/// `file_first` (the file that `ELEVATE_PRIVILEGE_TOML` names) the table's
/// `prefix` / `conf_dir` win over `SYSHUB_PREFIX` / `SYSHUB_ETC`; otherwise
/// the environment wins.  Either wins over the compiled-in prefix.
pub open spec fn resolve_paths_with(raw: RawPathsConfig, env: PathsEnv, file_first: bool) -> PathsView {
    let prefix = if file_first {
        or_default(raw.prefix, or_default(env.syshub_prefix, builtin_prefix()))
    } else {
        or_default(env.syshub_prefix, or_default(raw.prefix, builtin_prefix()))
    };
    let conf_dir = if file_first {
        or_default(raw.conf_dir, or_default(env.syshub_etc, prefix + "/etc/elevate-pam"@))
    } else {
        or_default(env.syshub_etc, or_default(raw.conf_dir, prefix + "/etc/elevate-pam"@))
    };
    let elevators_dir = or_default(raw.elevators_dir, prefix + "/etc/elevators"@);
    PathsView {
        prefix,
        bindir: or_default(raw.bindir, prefix + "/bin"@),
        sbindir: or_default(raw.sbindir, prefix + "/bin"@),
        libdir: or_default(raw.libdir, prefix + "/lib"@),
        var_dir: or_default(raw.var_dir, prefix + "/var/run/elevate"@),
        includedir: or_default(raw.includedir, prefix + "/include"@),
        conf_dir,
        services_dir: or_default(raw.services_dir, conf_dir + "/services"@),
        services_dropin_dir: or_default(raw.services_dropin_dir, conf_dir + "/services.d"@),
        module_dir: or_default(raw.module_dir, prefix + "/lib/security"@),
        vendor_dir: or_default(raw.vendor_dir, prefix + "/lib/elevate-pam/services"@),
        elevators_dir,
        elevators_file: or_default(raw.elevators_file, elevators_dir + "/elevate.toml"@),
    }
}

/// A `[paths]` table that sets nothing.
pub open spec fn empty_raw_paths() -> RawPathsConfig {
    RawPathsConfig {
        prefix: None,
        bindir: None,
        sbindir: None,
        libdir: None,
        var_dir: None,
        includedir: None,
        conf_dir: None,
        services_dir: None,
        services_dropin_dir: None,
        module_dir: None,
        vendor_dir: None,
        elevators_dir: None,
        elevators_file: None,
    }
}

/// The first entry that was found, if any.
pub open spec fn first_found<T>(s: Seq<Option<T>>) -> Option<T>
    decreases s.len(),
{
    if s.len() == 0 {
        None
    } else if s[0] is Some {
        s[0]
    } else {
        first_found(s.drop_first())
    }
}

/// [`first_found`] is the entry at the first found index.
pub proof fn lemma_first_found<T>(s: Seq<Option<T>>, i: int)
    requires
        0 <= i < s.len(),
        s[i] is Some,
        forall|j: int| 0 <= j < i ==> s[j] is None,
    ensures
        first_found(s) == s[i],
    decreases i,
{
    if i > 0 {
        assert forall|j: int| 0 <= j < i - 1 implies s.drop_first()[j] is None by {
            assert(s.drop_first()[j] == s[j + 1]);
        }
        lemma_first_found(s.drop_first(), i - 1);
    }
}

/// [`first_found`] is `None` when nothing was found.
pub proof fn lemma_first_found_none<T>(s: Seq<Option<T>>)
    requires
        forall|j: int| 0 <= j < s.len() ==> s[j] is None,
    ensures
        first_found(s) is None,
    decreases s.len(),
{
    if s.len() > 0 {
        assert forall|j: int| 0 <= j < s.len() - 1 implies s.drop_first()[j] is None by {
            assert(s.drop_first()[j] == s[j + 1]);
        }
        lemma_first_found_none(s.drop_first());
    }
}

fn or_else_owned(o: &Option<String>, d: String) -> (r: String)
    ensures
        r@ == or_default(*o, d@),
{
    match o {
        Some(s) => s.clone(),
        None => d,
    }
}

/// The prefix in effect: `SYSHUB_PREFIX`, else `/overlayer/syshub`.
pub fn default_prefix(env: &PathsEnv) -> (r: String)
    ensures
        r@ == spec_default_prefix(*env),
{
    or_else_owned(&env.syshub_prefix, owned("/overlayer/syshub"))
}

impl RawPathsConfig {
    /// A table that sets nothing.
    pub fn empty() -> (r: Self)
        ensures
            r == empty_raw_paths(),
    {
        RawPathsConfig {
            prefix: None,
            bindir: None,
            sbindir: None,
            libdir: None,
            var_dir: None,
            includedir: None,
            conf_dir: None,
            services_dir: None,
            services_dropin_dir: None,
            module_dir: None,
            vendor_dir: None,
            elevators_dir: None,
            elevators_file: None,
        }
    }
}

impl PathsConfig {
    /// Resolve a `[paths]` table found at a well-known location: the
    /// environment first, then the table, then the compiled-in prefix; every
    /// omitted field is derived from the resolved `prefix`, `conf_dir` and
    /// `elevators_dir`.
    pub fn from_raw(raw: &RawPathsConfig, env: &PathsEnv) -> (r: Self)
        ensures
            r@ == resolve_paths(*raw, *env),
    {
        Self::resolve_with(raw, env, false)
    }

    /// Resolve the `[paths]` table of the file that `ELEVATE_PRIVILEGE_TOML`
    /// names: the table first, then the environment, then the compiled-in
    /// prefix.
    pub fn from_explicit(raw: &RawPathsConfig, env: &PathsEnv) -> (r: Self)
        ensures
            r@ == resolve_paths_with(*raw, *env, true),
    {
        Self::resolve_with(raw, env, true)
    }

    fn resolve_with(raw: &RawPathsConfig, env: &PathsEnv, file_first: bool) -> (r: Self)
        ensures
            r@ == resolve_paths_with(*raw, *env, file_first),
    {
        let builtin = owned("/overlayer/syshub");
        let prefix = if file_first {
            or_else_owned(&raw.prefix, or_else_owned(&env.syshub_prefix, builtin))
        } else {
            or_else_owned(&env.syshub_prefix, or_else_owned(&raw.prefix, builtin))
        };
        let derived_conf = concat(prefix.as_str(), "/etc/elevate-pam");
        let conf_dir = if file_first {
            or_else_owned(&raw.conf_dir, or_else_owned(&env.syshub_etc, derived_conf))
        } else {
            or_else_owned(&env.syshub_etc, or_else_owned(&raw.conf_dir, derived_conf))
        };
        let elevators_dir = or_else_owned(
            &raw.elevators_dir,
            concat(prefix.as_str(), "/etc/elevators"),
        );
        PathsConfig {
            bindir: or_else_owned(&raw.bindir, concat(prefix.as_str(), "/bin")),
            sbindir: or_else_owned(&raw.sbindir, concat(prefix.as_str(), "/bin")),
            libdir: or_else_owned(&raw.libdir, concat(prefix.as_str(), "/lib")),
            var_dir: or_else_owned(&raw.var_dir, concat(prefix.as_str(), "/var/run/elevate")),
            includedir: or_else_owned(&raw.includedir, concat(prefix.as_str(), "/include")),
            services_dir: or_else_owned(
                &raw.services_dir,
                concat(conf_dir.as_str(), "/services"),
            ),
            services_dropin_dir: or_else_owned(
                &raw.services_dropin_dir,
                concat(conf_dir.as_str(), "/services.d"),
            ),
            module_dir: or_else_owned(&raw.module_dir, concat(prefix.as_str(), "/lib/security")),
            vendor_dir: or_else_owned(
                &raw.vendor_dir,
                concat(prefix.as_str(), "/lib/elevate-pam/services"),
            ),
            elevators_file: or_else_owned(
                &raw.elevators_file,
                concat(elevators_dir.as_str(), "/elevate.toml"),
            ),
            elevators_dir,
            conf_dir,
            prefix,
        }
    }

    /// Paths resolved with no configuration file, in the given environment.
    pub fn default_with(env: &PathsEnv) -> (r: Self)
        ensures
            r@ == resolve_paths(empty_raw_paths(), *env),
    {
        Self::from_raw(&RawPathsConfig::empty(), env)
    }

    /// A copy with the same paths.
    pub fn clone_paths(&self) -> (r: Self)
        ensures
            r@ == self@,
    {
        PathsConfig {
            prefix: self.prefix.clone(),
            bindir: self.bindir.clone(),
            sbindir: self.sbindir.clone(),
            libdir: self.libdir.clone(),
            var_dir: self.var_dir.clone(),
            includedir: self.includedir.clone(),
            conf_dir: self.conf_dir.clone(),
            services_dir: self.services_dir.clone(),
            services_dropin_dir: self.services_dropin_dir.clone(),
            module_dir: self.module_dir.clone(),
            vendor_dir: self.vendor_dir.clone(),
            elevators_dir: self.elevators_dir.clone(),
            elevators_file: self.elevators_file.clone(),
        }
    }

    /// The well-known locations of `elevate_privilege.toml`, in search
    /// order: the `ELEVATE_PRIVILEGE_TOML` value if set, `/etc`, the
    /// prefix's `etc`, then the working directory.
    pub fn candidates(explicit: Option<&str>, env: &PathsEnv) -> (r: Vec<String>)
        ensures
            r@.map_values(|s: String| s@) == (match explicit {
                Some(e) => seq![e@],
                None => Seq::<Seq<char>>::empty(),
            }) + seq![
                "/etc/elevate_privilege.toml"@,
                spec_default_prefix(*env) + "/etc/elevate_privilege.toml"@,
                "elevate_privilege.toml"@,
            ],
    {
        let mut out: Vec<String> = Vec::new();
        if let Some(e) = explicit {
            out.push(owned(e));
        }
        out.push(owned("/etc/elevate_privilege.toml"));
        let p = default_prefix(env);
        out.push(concat(p.as_str(), "/etc/elevate_privilege.toml"));
        out.push(owned("elevate_privilege.toml"));
        let ghost v = out@.map_values(|s: String| s@);
        assert(v =~= (match explicit {
            Some(e) => seq![e@],
            None => Seq::<Seq<char>>::empty(),
        }) + seq![
            "/etc/elevate_privilege.toml"@,
            spec_default_prefix(*env) + "/etc/elevate_privilege.toml"@,
            "elevate_privilege.toml"@,
        ]);
        out
    }

    /// The first configuration that could be read from the candidate
    /// locations, else the paths resolved with no configuration file.
    pub fn load(found: &Vec<Option<PathsConfig>>, env: &PathsEnv) -> (r: Self)
        ensures
            r@ == (match first_found(found@) {
                Some(p) => p@,
                None => resolve_paths(empty_raw_paths(), *env),
            }),
    {
        let mut i: usize = 0;
        while i < found.len()
            invariant
                i <= found@.len(),
                forall|j: int| 0 <= j < i ==> found@[j] is None,
            decreases found@.len() - i,
        {
            if let Some(p) = &found[i] {
                proof {
                    lemma_first_found(found@, i as int);
                }
                return p.clone_paths();
            }
            i += 1;
        }
        proof {
            lemma_first_found_none(found@);
        }
        Self::default_with(env)
    }

    /// Base `/etc`-equivalent directory: `SYSHUB_ETC` as set when asked
    /// (`env`), else `<prefix>/etc`.
    pub fn etc_dir(&self, env: &PathsEnv) -> (r: String)
        ensures
            r@ == self@.etc_dir(*env),
    {
        match &env.syshub_etc {
            Some(e) => e.clone(),
            None => concat(self.prefix.as_str(), "/etc"),
        }
    }

    /// Shadow password file.
    pub fn shadow_file(&self, env: &PathsEnv) -> (r: String)
        ensures
            r@ == self@.etc_dir(*env) + "/shadow"@,
    {
        concat(self.etc_dir(env).as_str(), "/shadow")
    }

    /// Password file.
    pub fn passwd_file(&self, env: &PathsEnv) -> (r: String)
        ensures
            r@ == self@.etc_dir(*env) + "/passwd"@,
    {
        concat(self.etc_dir(env).as_str(), "/passwd")
    }

    /// Valid login shells.
    pub fn shells_file(&self, env: &PathsEnv) -> (r: String)
        ensures
            r@ == self@.etc_dir(*env) + "/shells"@,
    {
        concat(self.etc_dir(env).as_str(), "/shells")
    }

    /// `login.defs`.
    pub fn login_defs_file(&self, env: &PathsEnv) -> (r: String)
        ensures
            r@ == self@.etc_dir(*env) + "/login.defs"@,
    {
        concat(self.etc_dir(env).as_str(), "/login.defs")
    }

    /// `securetty`.
    pub fn securetty_file(&self, env: &PathsEnv) -> (r: String)
        ensures
            r@ == self@.etc_dir(*env) + "/securetty"@,
    {
        concat(self.etc_dir(env).as_str(), "/securetty")
    }

    /// `nologin`.
    pub fn nologin_file(&self, env: &PathsEnv) -> (r: String)
        ensures
            r@ == self@.etc_dir(*env) + "/nologin"@,
    {
        concat(self.etc_dir(env).as_str(), "/nologin")
    }

    /// Message of the day.
    pub fn motd_file(&self, env: &PathsEnv) -> (r: String)
        ensures
            r@ == self@.etc_dir(*env) + "/motd"@,
    {
        concat(self.etc_dir(env).as_str(), "/motd")
    }

    /// Pre-login notice.
    pub fn issue_file(&self, env: &PathsEnv) -> (r: String)
        ensures
            r@ == self@.etc_dir(*env) + "/issue"@,
    {
        concat(self.etc_dir(env).as_str(), "/issue")
    }

    /// `pam_env.conf`.
    pub fn pam_env_conf(&self, env: &PathsEnv) -> (r: String)
        ensures
            r@ == self@.etc_dir(*env) + "/security/pam_env.conf"@,
    {
        concat(self.etc_dir(env).as_str(), "/security/pam_env.conf")
    }

    /// `limits.conf`.
    pub fn limits_conf(&self, env: &PathsEnv) -> (r: String)
        ensures
            r@ == self@.etc_dir(*env) + "/security/limits.conf"@,
    {
        concat(self.etc_dir(env).as_str(), "/security/limits.conf")
    }

    /// `pam-access` config (`access.conf(5)`).
    pub fn access_conf(&self, env: &PathsEnv) -> (r: String)
        ensures
            r@ == self@.etc_dir(*env) + "/security/access.conf"@,
    {
        concat(self.etc_dir(env).as_str(), "/security/access.conf")
    }

    /// `pam-faillock` per-user tally directory.
    pub fn faillock_dir(&self) -> (r: String)
        ensures
            r@ == trim_end_char(self.var_dir@, '/') + "/faillock"@,
    {
        let v = chars_of(self.var_dir.as_str());
        let e = trim_end_char_range(&v, 0, v.len(), '/');
        let mut out = string_of_range(&v, 0, e);
        push_str(&mut out, "/faillock");
        assert(v@.subrange(0, v@.len() as int) =~= v@);
        out
    }

    /// Skeleton directory for new homes.
    pub fn skel_dir(&self, env: &PathsEnv) -> (r: String)
        ensures
            r@ == self@.etc_dir(*env) + "/skel"@,
    {
        concat(self.etc_dir(env).as_str(), "/skel")
    }

    /// System-wide environment file.
    pub fn environment_file(&self, env: &PathsEnv) -> (r: String)
        ensures
            r@ == self@.etc_dir(*env) + "/environment"@,
    {
        concat(self.etc_dir(env).as_str(), "/environment")
    }

    /// Zoneinfo search directories, in priority order.
    pub fn zoneinfo_dirs(&self, env: &PathsEnv) -> (r: [String; 2])
        ensures
            r[0]@ == self@.etc_dir(*env) + "/zoneinfo"@,
            r[1]@ == self.prefix@ + "/lib/zoneinfo"@,
    {
        [
            concat(self.etc_dir(env).as_str(), "/zoneinfo"),
            concat(self.prefix.as_str(), "/lib/zoneinfo"),
        ]
    }

    /// Grace-period auth timestamp cache directory (`pam-timestamp`).
    pub fn timestamp_dir(&self) -> (r: String)
        ensures
            r@ == trim_end_char(self.var_dir@, '/') + "/ts"@,
    {
        let v = chars_of(self.var_dir.as_str());
        let e = trim_end_char_range(&v, 0, v.len(), '/');
        let mut out = string_of_range(&v, 0, e);
        push_str(&mut out, "/ts");
        assert(v@.subrange(0, v@.len() as int) =~= v@);
        out
    }

    /// Immutable OS core layers: the overlay root (`prefix`'s parent),
    /// `prefix` itself, and the sibling `zaisys` layer under that root.
    pub fn protected_layers(&self) -> (r: Vec<String>)
        ensures
            r@.map_values(|s: String| s@) == seq![
                overlay_root(self.prefix@),
                trim_end_char(self.prefix@, '/'),
                overlay_root(self.prefix@) + "/zaisys"@,
            ],
    {
        let v = chars_of(self.prefix.as_str());
        let e = trim_end_char_range(&v, 0, v.len(), '/');
        assert(v@.subrange(0, v@.len() as int) =~= v@);
        let prefix = string_of_range(&v, 0, e);
        let ghost p = v@.subrange(0, e as int);
        proof {
            lemma_rindex_of(p, '/');
        }
        let root = match rfind_char(&v, 0, e, '/') {
            Some(pos) => {
                if pos == 0 {
                    string_of_range(&v, 0, e)
                } else {
                    assert(p.take(pos as int) =~= v@.subrange(0, pos as int));
                    string_of_range(&v, 0, pos)
                }
            },
            None => string_of_range(&v, 0, e),
        };
        assert(p == trim_end_char(self.prefix@, '/'));
        assert(prefix@ == trim_end_char(self.prefix@, '/'));
        assert(root@ == overlay_root(self.prefix@));
        let root2 = root.clone();
        let zaisys = concat(root2.as_str(), "/zaisys");
        let mut out: Vec<String> = Vec::new();
        out.push(root);
        out.push(prefix);
        out.push(zaisys);
        assert(out@.map_values(|s: String| s@) =~= seq![
            overlay_root(self.prefix@),
            trim_end_char(self.prefix@, '/'),
            overlay_root(self.prefix@) + "/zaisys"@,
        ]);
        out
    }
}

/// Overriding only `prefix` in `[paths]` (with neither `SYSHUB_PREFIX` nor
/// `SYSHUB_ETC` set) moves
/// every derived path under the new prefix, `/etc`-relative files included.
pub proof fn law_prefix_cascades(raw: RawPathsConfig, env: PathsEnv)
    requires
        raw.prefix is Some,
        raw.bindir is None,
        raw.sbindir is None,
        raw.libdir is None,
        raw.var_dir is None,
        raw.includedir is None,
        raw.conf_dir is None,
        raw.services_dir is None,
        raw.services_dropin_dir is None,
        raw.module_dir is None,
        raw.vendor_dir is None,
        raw.elevators_dir is None,
        raw.elevators_file is None,
        env.syshub_prefix is None,
        env.syshub_etc is None,
    ensures
        ({
            let p = raw.prefix.unwrap()@;
            let v = resolve_paths(raw, env);
            &&& v.prefix == p
            &&& v.bindir == p + "/bin"@
            &&& v.sbindir == p + "/bin"@
            &&& v.libdir == p + "/lib"@
            &&& v.var_dir == p + "/var/run/elevate"@
            &&& v.includedir == p + "/include"@
            &&& v.conf_dir == p + "/etc/elevate-pam"@
            &&& v.services_dir == p + "/etc/elevate-pam"@ + "/services"@
            &&& v.services_dropin_dir == p + "/etc/elevate-pam"@ + "/services.d"@
            &&& v.module_dir == p + "/lib/security"@
            &&& v.vendor_dir == p + "/lib/elevate-pam/services"@
            &&& v.elevators_dir == p + "/etc/elevators"@
            &&& v.elevators_file == p + "/etc/elevators"@ + "/elevate.toml"@
            &&& v.etc_dir(env) == p + "/etc"@
        }),
{
}

/// The environment wins over a file found at a well-known location:
/// `SYSHUB_PREFIX` gives the prefix and `SYSHUB_ETC` the configuration and
/// `/etc` directories, whatever its `[paths]` table says.
pub proof fn law_environment_wins(raw: RawPathsConfig, env: PathsEnv)
    ensures
        env.syshub_prefix matches Some(p) ==> resolve_paths(raw, env).prefix == p@,
        env.syshub_etc matches Some(e) ==> resolve_paths(raw, env).conf_dir == e@ && resolve_paths(
            raw,
            env,
        ).etc_dir(env) == e@,
{
}

/// The file that `ELEVATE_PRIVILEGE_TOML` names wins over the environment:
/// its `prefix` and `conf_dir` are taken as written; what it leaves out
/// comes from `SYSHUB_PREFIX` / `SYSHUB_ETC` before the compiled-in prefix.
pub proof fn law_explicit_file_wins(raw: RawPathsConfig, env: PathsEnv)
    ensures
        raw.prefix matches Some(p) ==> resolve_paths_with(raw, env, true).prefix == p@,
        raw.conf_dir matches Some(c) ==> resolve_paths_with(raw, env, true).conf_dir == c@,
        raw.prefix is None ==> resolve_paths_with(raw, env, true).prefix == or_default(
            env.syshub_prefix,
            builtin_prefix(),
        ),
{
}

impl PathsView {
    /// Base `/etc`-equivalent directory when `SYSHUB_ETC` is as in `env`.
    pub open spec fn etc_dir(self, env: PathsEnv) -> Seq<char> {
        match env.syshub_etc {
            Some(e) => e@,
            None => self.prefix + "/etc"@,
        }
    }
}

/// The parent of the prefix (without trailing slashes): everything before
/// its last `/`, or the whole prefix when that slash is the first character
/// or there is none.
pub open spec fn overlay_root(prefix: Seq<char>) -> Seq<char> {
    let p = trim_end_char(prefix, '/');
    match rindex_of(p, '/') {
        Some(pos) => if pos == 0 {
            p
        } else {
            p.take(pos)
        },
        None => p,
    }
}

impl Default for PathsConfig {
    /// Paths resolved with no configuration file and neither
    /// `SYSHUB_PREFIX` nor `SYSHUB_ETC` set.
    fn default() -> (r: Self)
        ensures
            r@ == resolve_paths(empty_raw_paths(), PathsEnv { syshub_prefix: None, syshub_etc: None }),
    {
        Self::default_with(&PathsEnv::empty())
    }
}

} // verus!
