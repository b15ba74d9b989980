//! Configuration model of elevate-pam: build categories, global options,
//! control flags and service stacks.
//!
//! TOML text is read elsewhere; this module holds the configuration as
//! plain values and every rule that is applied to them.

use vstd::prelude::*;

use crate::constants::{
    PAM_ABORT, PAM_ACCT_EXPIRED, PAM_AUTHINFO_UNAVAIL, PAM_AUTHTOK_DISABLE_AGING, PAM_AUTHTOK_ERR,
    PAM_AUTHTOK_EXPIRED, PAM_AUTHTOK_LOCK_BUSY, PAM_AUTHTOK_RECOVERY_ERR, PAM_AUTH_ERR,
    PAM_BAD_ITEM, PAM_BUF_ERR, PAM_CONV_AGAIN, PAM_CONV_ERR, PAM_CRED_ERR, PAM_CRED_EXPIRED,
    PAM_CRED_INSUFFICIENT, PAM_CRED_UNAVAIL, PAM_IGNORE, PAM_INCOMPLETE, PAM_MAXTRIES,
    PAM_MODULE_UNKNOWN, PAM_NEW_AUTHTOK_REQD, PAM_NO_MODULE_DATA, PAM_OPEN_ERR, PAM_PERM_DENIED,
    PAM_RETURN_VALUES, PAM_SERVICE_ERR, PAM_SESSION_ERR, PAM_SUCCESS, PAM_SYMBOL_ERR,
    PAM_SYSTEM_ERR, PAM_TRY_AGAIN, PAM_USER_UNKNOWN,
};
use crate::error::{PamError, PamResult};
use crate::paths;
use crate::text::{
    lower_char,
    chars_of, concat, contains_seq, eq_str, lower, lower_all, owned, parse_unsigned,
    parse_unsigned_range, range_contains_char, range_contains_seq, rfind_char, rindex_of,
    string_of, string_of_range, lemma_rindex_of,
};
use crate::types::{Action, StackKind};

verus! {

// ---------------------------------------------------------------------------
// Build categories
// ---------------------------------------------------------------------------

/// Build / linkage category for elevate-pam artifacts.
#[derive(Debug, Clone, Copy, PartialEq, Eq, Structural)]
pub enum BuildCategory {
    /// Dynamic shared library + dlopen modules.
    Shared,
    /// Static archive with modules linked in.
    Static,
    /// Standalone binary / fully embedded registry.
    Standalone,
}

impl Default for BuildCategory {
    fn default() -> (r: Self)
        ensures
            r == BuildCategory::Shared,
    {
        BuildCategory::Shared
    }
}

/// Build section from `elevate-pam.toml`.
#[derive(Debug, Clone, Copy)]
pub struct BuildConfig {
    /// Produce / use shared library mode.
    pub shared: bool,
    /// Produce / use static library mode (TOML key `static`).
    pub static_: bool,
    /// Produce / use standalone mode.
    pub standalone: bool,
}

/// The `[build]` value as read from TOML: each key holds its boolean, or
/// `None` when the key is absent, not a boolean, or `[build]` is not a
/// table.
#[derive(Debug, Clone, Copy)]
pub struct BuildTable {
    /// Value of `shared`.
    pub shared: Option<bool>,
    /// Value of `static`.
    pub static_: Option<bool>,
    /// Value of `standalone`.
    pub standalone: Option<bool>,
}

/// The category that the booleans select: standalone, then static, then shared.
pub open spec fn spec_primary_category(b: BuildConfig) -> BuildCategory {
    if b.standalone {
        BuildCategory::Standalone
    } else if b.static_ {
        BuildCategory::Static
    } else {
        BuildCategory::Shared
    }
}

impl Default for BuildConfig {
    fn default() -> (r: Self)
        ensures
            r.shared,
            !r.static_,
            !r.standalone,
    {
        Self { shared: true, static_: false, standalone: false }
    }
}

impl BuildConfig {
    /// Resolve the primary build category from booleans.
    ///
    /// Priority: `standalone` > `static` > `shared` (if multiple true).
    pub fn primary_category(&self) -> (r: BuildCategory)
        ensures
            r == spec_primary_category(*self),
    {
        if self.standalone {
            BuildCategory::Standalone
        } else if self.static_ {
            BuildCategory::Static
        } else {
            BuildCategory::Shared
        }
    }

    /// Build section from the `[build]` TOML value, accepting the key
    /// `static`: `shared` defaults to true, the others to false.
    pub fn from_toml_value(v: &BuildTable) -> (r: Self)
        ensures
            r.shared == (match v.shared {
                Some(b) => b,
                None => true,
            }),
            r.static_ == (match v.static_ {
                Some(b) => b,
                None => false,
            }),
            r.standalone == (match v.standalone {
                Some(b) => b,
                None => false,
            }),
    {
        let shared = match v.shared {
            Some(b) => b,
            None => true,
        };
        let static_ = match v.static_ {
            Some(b) => b,
            None => false,
        };
        let standalone = match v.standalone {
            Some(b) => b,
            None => false,
        };
        Self { shared, static_, standalone }
    }
}

// ---------------------------------------------------------------------------
// Paths
// ---------------------------------------------------------------------------

/// Path configuration.
#[derive(Debug, Clone)]
pub struct PathsConfig {
    /// Base conf directory.
    pub conf_dir: String,
    /// Service stack directory.
    pub services_dir: String,
    /// Drop-in service directory.
    pub services_dropin_dir: String,
    /// Shared module directory.
    pub module_dir: String,
    /// Vendor services directory.
    pub vendor_dir: String,
    /// Default / fallback service name.
    pub default_service: String,
}

/// Default conf directory: the installation's PAM configuration directory.
pub fn default_conf_dir(install: &paths::PathsConfig) -> (r: String)
    ensures
        r@ == install.conf_dir@,
{
    install.conf_dir.clone()
}

/// Default service directory: `<conf_dir>/services`.
pub fn default_services_dir(install: &paths::PathsConfig) -> (r: String)
    ensures
        r@ == install.conf_dir@ + "/services"@,
{
    concat(default_conf_dir(install).as_str(), "/services")
}

/// Default drop-in directory: `<conf_dir>/services.d`.
pub fn default_services_dropin(install: &paths::PathsConfig) -> (r: String)
    ensures
        r@ == install.conf_dir@ + "/services.d"@,
{
    concat(default_conf_dir(install).as_str(), "/services.d")
}

/// Default module directory: the installation's module directory.
pub fn default_module_dir(install: &paths::PathsConfig) -> (r: String)
    ensures
        r@ == install.module_dir@,
{
    install.module_dir.clone()
}

/// Default vendor directory: the installation's vendor service directory.
pub fn default_vendor_dir(install: &paths::PathsConfig) -> (r: String)
    ensures
        r@ == install.vendor_dir@,
{
    install.vendor_dir.clone()
}

/// Default fallback service name: `other`.
pub fn default_service_name() -> (r: String)
    ensures
        r@ == "other"@,
{
    owned("other")
}

impl PathsConfig {
    /// Paths derived from an installation's resolved paths.
    pub fn from_install(install: &paths::PathsConfig) -> (r: Self)
        ensures
            r.conf_dir@ == install.conf_dir@,
            r.services_dir@ == install.conf_dir@ + "/services"@,
            r.services_dropin_dir@ == install.conf_dir@ + "/services.d"@,
            r.module_dir@ == install.module_dir@,
            r.vendor_dir@ == install.vendor_dir@,
            r.default_service@ == "other"@,
    {
        PathsConfig {
            conf_dir: default_conf_dir(install),
            services_dir: default_services_dir(install),
            services_dropin_dir: default_services_dropin(install),
            module_dir: default_module_dir(install),
            vendor_dir: default_vendor_dir(install),
            default_service: default_service_name(),
        }
    }
}

impl Default for PathsConfig {
    /// The compiled-in layout under `/overlayer/syshub`.
    fn default() -> (r: Self)
        ensures
            r.conf_dir@ == "/overlayer/syshub/etc/elevate-pam"@,
            r.services_dir@ == "/overlayer/syshub/etc/elevate-pam"@ + "/services"@,
            r.services_dropin_dir@ == "/overlayer/syshub/etc/elevate-pam"@ + "/services.d"@,
            r.module_dir@ == "/overlayer/syshub/lib/security"@,
            r.vendor_dir@ == "/overlayer/syshub/lib/elevate-pam/services"@,
            r.default_service@ == "other"@,
    {
        PathsConfig {
            conf_dir: owned("/overlayer/syshub/etc/elevate-pam"),
            services_dir: concat("/overlayer/syshub/etc/elevate-pam", "/services"),
            services_dropin_dir: concat("/overlayer/syshub/etc/elevate-pam", "/services.d"),
            module_dir: owned("/overlayer/syshub/lib/security"),
            vendor_dir: owned("/overlayer/syshub/lib/elevate-pam/services"),
            default_service: default_service_name(),
        }
    }
}

// ---------------------------------------------------------------------------
// Security and features
// ---------------------------------------------------------------------------

/// Security-related knobs.
#[derive(Debug, Clone, Copy)]
pub struct SecurityConfig {
    /// Fail delay in microseconds.
    pub fail_delay_usec: u32,
    /// Zeroize auth tokens on end.
    pub zeroize_authtok: bool,
    /// Reject service names with path separators.
    pub reject_service_paths: bool,
    /// Max include depth.
    pub max_include_depth: u32,
    /// Max substack level.
    pub max_substack_level: u32,
    /// Max modules per stack.
    pub max_stack_modules: u32,
}

/// Default fail delay: two seconds.
pub fn default_fail_delay() -> (r: u32)
    ensures
        r == 2_000_000,
{
    2_000_000
}

/// Default maximum include depth.
pub fn default_max_include() -> (r: u32)
    ensures
        r == 32,
{
    32
}

/// Default maximum substack level.
pub fn default_max_substack() -> (r: u32)
    ensures
        r == 16,
{
    16
}

/// Default maximum number of modules per stack.
pub fn default_max_stack() -> (r: u32)
    ensures
        r == 64,
{
    64
}

/// Default for boolean options that are on unless configured off.
pub fn default_true() -> (r: bool)
    ensures
        r,
{
    true
}

impl Default for SecurityConfig {
    fn default() -> (r: Self)
        ensures
            r.fail_delay_usec == 2_000_000,
            r.zeroize_authtok,
            r.reject_service_paths,
            r.max_include_depth == 32,
            r.max_substack_level == 16,
            r.max_stack_modules == 64,
    {
        Self {
            fail_delay_usec: default_fail_delay(),
            zeroize_authtok: default_true(),
            reject_service_paths: default_true(),
            max_include_depth: default_max_include(),
            max_substack_level: default_max_substack(),
            max_stack_modules: default_max_stack(),
        }
    }
}

/// Feature toggles from TOML (runtime view of Cargo features).
#[derive(Debug, Clone, Copy)]
pub struct FeaturesConfig {
    /// OS integration (`std`).
    pub std: bool,
    /// Heap allocation support.
    pub alloc: bool,
    /// Dynamic module loading.
    pub dynload: bool,
    /// Syslog logging.
    pub syslog: bool,
    /// Legacy `/etc/pam.d` bridge.
    pub legacy_pamd: bool,
    /// Secure memory wiping.
    pub secure_mem: bool,
    /// Fail-delay on auth failure.
    pub fail_delay: bool,
    /// Built-in modules always available.
    pub builtin_modules: bool,
}

impl Default for FeaturesConfig {
    fn default() -> (r: Self)
        ensures
            r.std && r.alloc && r.dynload && r.syslog && r.legacy_pamd && r.secure_mem
                && r.fail_delay && r.builtin_modules,
    {
        Self {
            std: true,
            alloc: true,
            dynload: true,
            syslog: true,
            legacy_pamd: true,
            secure_mem: true,
            fail_delay: true,
            builtin_modules: true,
        }
    }
}

/// Top-level global configuration (`elevate-pam.toml`).
#[derive(Debug, Clone)]
pub struct GlobalConfig {
    /// Build categories.
    pub build: BuildConfig,
    /// Feature toggles.
    pub features: FeaturesConfig,
    /// Paths.
    pub paths: PathsConfig,
    /// Security.
    pub security: SecurityConfig,
}

/// Whether `g` holds every default except, possibly, its paths.
pub open spec fn has_default_options(g: GlobalConfig) -> bool {
    &&& g.build.shared && !g.build.static_ && !g.build.standalone
    &&& g.features.std && g.features.alloc && g.features.dynload && g.features.syslog
    &&& g.features.legacy_pamd && g.features.secure_mem && g.features.fail_delay
    &&& g.features.builtin_modules
    &&& g.security.fail_delay_usec == 2_000_000 && g.security.zeroize_authtok
    &&& g.security.reject_service_paths && g.security.max_include_depth == 32
    &&& g.security.max_substack_level == 16 && g.security.max_stack_modules == 64
}

impl Default for GlobalConfig {
    /// The default options with the compiled-in layout: the paths that an
    /// installation resolves to with no configuration file and no
    /// `SYSHUB_*` variable (see [`GlobalConfig::embedded_default`] for the
    /// defaults of a resolved installation).
    fn default() -> (r: Self)
        ensures
            has_default_options(r),
            r.paths.conf_dir@ == "/overlayer/syshub/etc/elevate-pam"@,
            r.paths.services_dir@ == "/overlayer/syshub/etc/elevate-pam"@ + "/services"@,
            r.paths.services_dropin_dir@ == "/overlayer/syshub/etc/elevate-pam"@ + "/services.d"@,
            r.paths.module_dir@ == "/overlayer/syshub/lib/security"@,
            r.paths.vendor_dir@ == "/overlayer/syshub/lib/elevate-pam/services"@,
            r.paths.default_service@ == "other"@,
    {
        GlobalConfig {
            build: BuildConfig::default(),
            features: FeaturesConfig::default(),
            paths: PathsConfig::default(),
            security: SecurityConfig::default(),
        }
    }
}

impl GlobalConfig {
    /// Default embedded config (used when no file is found): the default
    /// options, with paths taken from the installation's resolved paths.
    pub fn embedded_default(install: &paths::PathsConfig) -> (r: Self)
        ensures
            has_default_options(r),
            r.paths.conf_dir@ == install.conf_dir@,
            r.paths.services_dir@ == install.conf_dir@ + "/services"@,
            r.paths.services_dropin_dir@ == install.conf_dir@ + "/services.d"@,
            r.paths.module_dir@ == install.module_dir@,
            r.paths.vendor_dir@ == install.vendor_dir@,
            r.paths.default_service@ == "other"@,
    {
        Self::with_install_paths(install)
    }

    /// Defaults with paths taken from an installation's resolved paths.
    pub fn with_install_paths(install: &paths::PathsConfig) -> (r: Self)
        ensures
            has_default_options(r),
            r.paths.conf_dir@ == install.conf_dir@,
            r.paths.services_dir@ == install.conf_dir@ + "/services"@,
            r.paths.services_dropin_dir@ == install.conf_dir@ + "/services.d"@,
            r.paths.module_dir@ == install.module_dir@,
            r.paths.vendor_dir@ == install.vendor_dir@,
            r.paths.default_service@ == "other"@,
    {
        GlobalConfig {
            build: BuildConfig::default(),
            features: FeaturesConfig::default(),
            paths: PathsConfig::from_install(install),
            security: SecurityConfig::default(),
        }
    }

    /// Where `elevate-pam.toml` is looked for, in order: the configured
    /// conf directory, classic `/etc` locations, then the working directory.
    pub fn default_locations(conf_dir: &str) -> (r: Vec<String>)
        ensures
            r@.map_values(|s: String| s@) == seq![
                conf_dir@ + "/elevate-pam.toml"@,
                "/etc/elevate-pam/elevate-pam.toml"@,
                "/etc/elevate-pam.toml"@,
                "elevate-pam.toml"@,
            ],
    {
        let mut out: Vec<String> = Vec::new();
        out.push(concat(conf_dir, "/elevate-pam.toml"));
        out.push(owned("/etc/elevate-pam/elevate-pam.toml"));
        out.push(owned("/etc/elevate-pam.toml"));
        out.push(owned("elevate-pam.toml"));
        assert(out@.map_values(|s: String| s@) =~= seq![
            conf_dir@ + "/elevate-pam.toml"@,
            "/etc/elevate-pam/elevate-pam.toml"@,
            "/etc/elevate-pam.toml"@,
            "elevate-pam.toml"@,
        ]);
        out
    }

    /// The configuration loaded from the first location that could be read
    /// and parsed (`loaded` holds one entry per location of
    /// [`Self::default_locations`], in order), or the defaults for the
    /// installation paths `install`.
    pub fn load_default(loaded: Vec<Option<GlobalConfig>>, install: &paths::PathsConfig) -> (r: Self)
        ensures
            match paths::first_found(loaded@) {
                Some(g) => r == g,
                None => {
                    &&& has_default_options(r)
                    &&& r.paths.conf_dir@ == install.conf_dir@
                    &&& r.paths.services_dir@ == install.conf_dir@ + "/services"@
                    &&& r.paths.services_dropin_dir@ == install.conf_dir@ + "/services.d"@
                    &&& r.paths.module_dir@ == install.module_dir@
                    &&& r.paths.vendor_dir@ == install.vendor_dir@
                    &&& r.paths.default_service@ == "other"@
                },
            },
    {
        let ghost all = loaded@;
        let mut rest = loaded;
        let n = rest.len();
        let mut i: usize = 0;
        while i < n
            invariant
                all == loaded@,
                n == all.len(),
                i <= n,
                rest@.len() == n - i,
                forall|j: int| 0 <= j < i ==> all[j] is None,
                forall|j: int| 0 <= j < rest@.len() ==> rest@[j] == all[i + j],
            decreases n - i,
        {
            let first = rest.remove(0);
            if let Some(g) = first {
                proof {
                    paths::lemma_first_found(all, i as int);
                }
                return g;
            }
            i += 1;
        }
        proof {
            paths::lemma_first_found_none(all);
        }
        Self::embedded_default(install)
    }
}

// ---------------------------------------------------------------------------
// Control flags and action tables
// ---------------------------------------------------------------------------

/// Control flag for a module in a stack.
#[derive(Debug, Clone, Copy, PartialEq, Eq, Structural)]
pub enum ControlFlag {
    /// Failure is fatal at end of stack; continue on fail.
    Required,
    /// Failure is immediate.
    Requisite,
    /// Success short-circuits stack if no prior required failure.
    Sufficient,
    /// Result only matters if no other module decided.
    Optional,
    /// Include another service file (inline).
    Include,
    /// Substack of another service.
    Substack,
}

/// The control flag that a (case-insensitive) name denotes.
pub open spec fn control_flag_of(s: Seq<char>) -> Option<ControlFlag> {
    let l = lower(s);
    if l == "required"@ {
        Some(ControlFlag::Required)
    } else if l == "requisite"@ {
        Some(ControlFlag::Requisite)
    } else if l == "sufficient"@ {
        Some(ControlFlag::Sufficient)
    } else if l == "optional"@ {
        Some(ControlFlag::Optional)
    } else if l == "include"@ {
        Some(ControlFlag::Include)
    } else if l == "substack"@ {
        Some(ControlFlag::Substack)
    } else {
        None
    }
}

/// Linux-PAM semantics of a control flag: the action taken for return
/// code `code`.  Success and "new token required" count as success;
/// `PAM_IGNORE` is ignored by `required`/`requisite`.
pub open spec fn control_action(f: ControlFlag, code: int) -> Action {
    let ok_code = code == PAM_SUCCESS || code == PAM_NEW_AUTHTOK_REQD;
    match f {
        ControlFlag::Required => if ok_code {
            Action::Okay
        } else if code == PAM_IGNORE {
            Action::Ignore
        } else {
            Action::Bad
        },
        ControlFlag::Requisite => if ok_code {
            Action::Okay
        } else if code == PAM_IGNORE {
            Action::Ignore
        } else {
            Action::Die
        },
        ControlFlag::Optional => if ok_code {
            Action::Okay
        } else {
            Action::Ignore
        },
        ControlFlag::Sufficient => if ok_code {
            Action::Done
        } else {
            Action::Ignore
        },
        ControlFlag::Include | ControlFlag::Substack => Action::Bad,
    }
}

/// The whole action table of a control flag.
pub open spec fn control_table(f: ControlFlag) -> Seq<Action> {
    Seq::new(PAM_RETURN_VALUES as nat, |i: int| control_action(f, i))
}

fn control_action_exec(f: ControlFlag, code: i32) -> (r: Action)
    ensures
        r == control_action(f, code as int),
{
    let ok_code = code == PAM_SUCCESS || code == PAM_NEW_AUTHTOK_REQD;
    match f {
        ControlFlag::Required => if ok_code {
            Action::Okay
        } else if code == PAM_IGNORE {
            Action::Ignore
        } else {
            Action::Bad
        },
        ControlFlag::Requisite => if ok_code {
            Action::Okay
        } else if code == PAM_IGNORE {
            Action::Ignore
        } else {
            Action::Die
        },
        ControlFlag::Optional => if ok_code {
            Action::Okay
        } else {
            Action::Ignore
        },
        ControlFlag::Sufficient => if ok_code {
            Action::Done
        } else {
            Action::Ignore
        },
        ControlFlag::Include | ControlFlag::Substack => Action::Bad,
    }
}

impl ControlFlag {
    /// Parse from string (case-insensitive).
    pub fn parse(s: &str) -> (r: Option<Self>)
        ensures
            r == control_flag_of(s@),
    {
        let v = chars_of(s);
        let l = lower_all(&v);
        if eq_str(&l, "required") {
            Some(Self::Required)
        } else if eq_str(&l, "requisite") {
            Some(Self::Requisite)
        } else if eq_str(&l, "sufficient") {
            Some(Self::Sufficient)
        } else if eq_str(&l, "optional") {
            Some(Self::Optional)
        } else if eq_str(&l, "include") {
            Some(Self::Include)
        } else if eq_str(&l, "substack") {
            Some(Self::Substack)
        } else {
            None
        }
    }

    /// Build the action table for this control flag (Linux-PAM semantics).
    pub fn actions(self) -> (r: [Action; PAM_RETURN_VALUES])
        ensures
            r@ == control_table(self),
    {
        let mut actions = [Action::Bad; 32];
        let mut i: usize = 0;
        while i < 32
            invariant
                i <= 32,
                actions@.len() == 32,
                forall|j: int| 0 <= j < i ==> actions@[j] == control_action(self, j),
            decreases 32 - i,
        {
            actions.set(i, control_action_exec(self, i as i32));
            i += 1;
        }
        assert(actions@ =~= control_table(self));
        actions
    }
}

/// The action that a (case-insensitive) action word denotes; a number
/// denotes a jump over that many modules.
pub open spec fn action_of(s: Seq<char>) -> Option<Action> {
    let l = lower(s);
    if l == "ignore"@ {
        Some(Action::Ignore)
    } else if l == "ok"@ {
        Some(Action::Okay)
    } else if l == "done"@ {
        Some(Action::Done)
    } else if l == "bad"@ {
        Some(Action::Bad)
    } else if l == "die"@ {
        Some(Action::Die)
    } else if l == "reset"@ {
        Some(Action::Reset)
    } else {
        match parse_unsigned(l, 0xffff) {
            Some(n) => Some(Action::Jump(n as u16)),
            None => None,
        }
    }
}

/// Parse an action word of the bracket control syntax.
pub fn parse_action(s: &str) -> (r: Option<Action>)
    ensures
        r == action_of(s@),
{
    let v = chars_of(s);
    let l = lower_all(&v);
    if eq_str(&l, "ignore") {
        Some(Action::Ignore)
    } else if eq_str(&l, "ok") {
        Some(Action::Okay)
    } else if eq_str(&l, "done") {
        Some(Action::Done)
    } else if eq_str(&l, "bad") {
        Some(Action::Bad)
    } else if eq_str(&l, "die") {
        Some(Action::Die)
    } else if eq_str(&l, "reset") {
        Some(Action::Reset)
    } else {
        assert(l@.subrange(0, l@.len() as int) =~= l@);
        match parse_unsigned_range(&l, 0, l.len(), 0xffff) {
            Some(n) => Some(Action::Jump(n as u16)),
            None => None,
        }
    }
}

/// The return code that a (case-insensitive) code name denotes.
pub open spec fn return_code_of(name: Seq<char>) -> Option<i32> {
    let l = lower(name);
    if l == "success"@ {
        Some(PAM_SUCCESS)
    } else if l == "open_err"@ {
        Some(PAM_OPEN_ERR)
    } else if l == "symbol_err"@ {
        Some(PAM_SYMBOL_ERR)
    } else if l == "service_err"@ {
        Some(PAM_SERVICE_ERR)
    } else if l == "system_err"@ {
        Some(PAM_SYSTEM_ERR)
    } else if l == "buf_err"@ {
        Some(PAM_BUF_ERR)
    } else if l == "perm_denied"@ {
        Some(PAM_PERM_DENIED)
    } else if l == "auth_err"@ {
        Some(PAM_AUTH_ERR)
    } else if l == "cred_insufficient"@ {
        Some(PAM_CRED_INSUFFICIENT)
    } else if l == "authinfo_unavail"@ {
        Some(PAM_AUTHINFO_UNAVAIL)
    } else if l == "user_unknown"@ {
        Some(PAM_USER_UNKNOWN)
    } else if l == "maxtries"@ {
        Some(PAM_MAXTRIES)
    } else if l == "new_authtok_reqd"@ {
        Some(PAM_NEW_AUTHTOK_REQD)
    } else if l == "acct_expired"@ {
        Some(PAM_ACCT_EXPIRED)
    } else if l == "session_err"@ {
        Some(PAM_SESSION_ERR)
    } else if l == "cred_unavail"@ {
        Some(PAM_CRED_UNAVAIL)
    } else if l == "cred_expired"@ {
        Some(PAM_CRED_EXPIRED)
    } else if l == "cred_err"@ {
        Some(PAM_CRED_ERR)
    } else if l == "no_module_data"@ {
        Some(PAM_NO_MODULE_DATA)
    } else if l == "conv_err"@ {
        Some(PAM_CONV_ERR)
    } else if l == "authtok_err"@ {
        Some(PAM_AUTHTOK_ERR)
    } else if l == "authtok_recovery_err"@ {
        Some(PAM_AUTHTOK_RECOVERY_ERR)
    } else if l == "authtok_lock_busy"@ {
        Some(PAM_AUTHTOK_LOCK_BUSY)
    } else if l == "authtok_disable_aging"@ {
        Some(PAM_AUTHTOK_DISABLE_AGING)
    } else if l == "try_again"@ {
        Some(PAM_TRY_AGAIN)
    } else if l == "ignore"@ {
        Some(PAM_IGNORE)
    } else if l == "abort"@ {
        Some(PAM_ABORT)
    } else if l == "authtok_expired"@ {
        Some(PAM_AUTHTOK_EXPIRED)
    } else if l == "module_unknown"@ {
        Some(PAM_MODULE_UNKNOWN)
    } else if l == "bad_item"@ {
        Some(PAM_BAD_ITEM)
    } else if l == "conv_again"@ {
        Some(PAM_CONV_AGAIN)
    } else if l == "incomplete"@ {
        Some(PAM_INCOMPLETE)
    } else {
        None
    }
}

/// Map a return-code name (as in `[success=ok default=bad]`) to its code.
pub fn return_code_from_name(name: &str) -> (r: Option<i32>)
    ensures
        r == return_code_of(name@),
        r matches Some(c) ==> 0 <= c < PAM_RETURN_VALUES,
{
    let v = chars_of(name);
    let l = lower_all(&v);
    if eq_str(&l, "success") {
        Some(PAM_SUCCESS)
    } else if eq_str(&l, "open_err") {
        Some(PAM_OPEN_ERR)
    } else if eq_str(&l, "symbol_err") {
        Some(PAM_SYMBOL_ERR)
    } else if eq_str(&l, "service_err") {
        Some(PAM_SERVICE_ERR)
    } else if eq_str(&l, "system_err") {
        Some(PAM_SYSTEM_ERR)
    } else if eq_str(&l, "buf_err") {
        Some(PAM_BUF_ERR)
    } else if eq_str(&l, "perm_denied") {
        Some(PAM_PERM_DENIED)
    } else if eq_str(&l, "auth_err") {
        Some(PAM_AUTH_ERR)
    } else if eq_str(&l, "cred_insufficient") {
        Some(PAM_CRED_INSUFFICIENT)
    } else if eq_str(&l, "authinfo_unavail") {
        Some(PAM_AUTHINFO_UNAVAIL)
    } else if eq_str(&l, "user_unknown") {
        Some(PAM_USER_UNKNOWN)
    } else if eq_str(&l, "maxtries") {
        Some(PAM_MAXTRIES)
    } else if eq_str(&l, "new_authtok_reqd") {
        Some(PAM_NEW_AUTHTOK_REQD)
    } else if eq_str(&l, "acct_expired") {
        Some(PAM_ACCT_EXPIRED)
    } else if eq_str(&l, "session_err") {
        Some(PAM_SESSION_ERR)
    } else if eq_str(&l, "cred_unavail") {
        Some(PAM_CRED_UNAVAIL)
    } else if eq_str(&l, "cred_expired") {
        Some(PAM_CRED_EXPIRED)
    } else if eq_str(&l, "cred_err") {
        Some(PAM_CRED_ERR)
    } else if eq_str(&l, "no_module_data") {
        Some(PAM_NO_MODULE_DATA)
    } else if eq_str(&l, "conv_err") {
        Some(PAM_CONV_ERR)
    } else if eq_str(&l, "authtok_err") {
        Some(PAM_AUTHTOK_ERR)
    } else if eq_str(&l, "authtok_recovery_err") {
        Some(PAM_AUTHTOK_RECOVERY_ERR)
    } else if eq_str(&l, "authtok_lock_busy") {
        Some(PAM_AUTHTOK_LOCK_BUSY)
    } else if eq_str(&l, "authtok_disable_aging") {
        Some(PAM_AUTHTOK_DISABLE_AGING)
    } else if eq_str(&l, "try_again") {
        Some(PAM_TRY_AGAIN)
    } else if eq_str(&l, "ignore") {
        Some(PAM_IGNORE)
    } else if eq_str(&l, "abort") {
        Some(PAM_ABORT)
    } else if eq_str(&l, "authtok_expired") {
        Some(PAM_AUTHTOK_EXPIRED)
    } else if eq_str(&l, "module_unknown") {
        Some(PAM_MODULE_UNKNOWN)
    } else if eq_str(&l, "bad_item") {
        Some(PAM_BAD_ITEM)
    } else if eq_str(&l, "conv_again") {
        Some(PAM_CONV_AGAIN)
    } else if eq_str(&l, "incomplete") {
        Some(PAM_INCOMPLETE)
    } else {
        None
    }
}

// ---------------------------------------------------------------------------
// Module entries
// ---------------------------------------------------------------------------

/// One module entry in a service stack.
#[derive(Debug)]
pub struct ModuleEntry {
    /// Control flag.
    pub control: ControlFlag,
    /// Module name (`unix`, `env`, `limits`) or path (`pam_unix.so`).
    pub module: String,
    /// Module arguments (key=value or flags).
    pub args: Vec<String>,
    /// If true, suppress module load errors (leading `-` in classic pam.d).
    pub optional_load: bool,
    /// Optional explicit action overrides, as the `(key, value)` pairs of
    /// the entry's `actions` table in table order, e.g.
    /// `("success", "ok")`, `("default", "bad")`.
    pub actions: Option<Vec<(String, String)>>,
}

/// A module entry as character sequences.
pub struct EntryView {
    pub control: ControlFlag,
    pub module: Seq<char>,
    pub args: Seq<Seq<char>>,
    pub optional_load: bool,
    pub actions: Option<Seq<(Seq<char>, Seq<char>)>>,
}

/// The characters of each string.
pub open spec fn strings_view(v: Seq<String>) -> Seq<Seq<char>> {
    v.map_values(|s: String| s@)
}

/// The characters of each `(key, value)` pair.
pub open spec fn pairs_view(v: Seq<(String, String)>) -> Seq<(Seq<char>, Seq<char>)> {
    v.map_values(|p: (String, String)| (p.0@, p.1@))
}

impl View for ModuleEntry {
    type V = EntryView;

    open spec fn view(&self) -> EntryView {
        EntryView {
            control: self.control,
            module: self.module@,
            args: strings_view(self.args@),
            optional_load: self.optional_load,
            actions: match self.actions {
                Some(t) => Some(pairs_view(t@)),
                None => None,
            },
        }
    }
}

/// A copy of a list of strings.
pub fn clone_strings(v: &Vec<String>) -> (r: Vec<String>)
    ensures
        r@ == v@,
{
    let mut out: Vec<String> = Vec::new();
    let mut i: usize = 0;
    while i < v.len()
        invariant
            i <= v@.len(),
            out@ == v@.take(i as int),
        decreases v@.len() - i,
    {
        out.push(v[i].clone());
        i += 1;
        assert(out@ =~= v@.take(i as int));
    }
    assert(v@.take(i as int) =~= v@);
    out
}

fn clone_pairs(v: &Vec<(String, String)>) -> (r: Vec<(String, String)>)
    ensures
        r@ == v@,
{
    let mut out: Vec<(String, String)> = Vec::new();
    let mut i: usize = 0;
    while i < v.len()
        invariant
            i <= v@.len(),
            out@ == v@.take(i as int),
        decreases v@.len() - i,
    {
        let (k, x) = &v[i];
        out.push((k.clone(), x.clone()));
        i += 1;
        assert(out@ =~= v@.take(i as int));
    }
    assert(v@.take(i as int) =~= v@);
    out
}

impl Clone for ModuleEntry {
    fn clone(&self) -> (r: Self)
        ensures
            r@ == self@,
    {
        ModuleEntry {
            control: self.control,
            module: self.module.clone(),
            args: clone_strings(&self.args),
            optional_load: self.optional_load,
            actions: match &self.actions {
                Some(t) => Some(clone_pairs(t)),
                None => None,
            },
        }
    }
}

/// The value of the first pair whose key is `k`.
pub open spec fn lookup_key(t: Seq<(Seq<char>, Seq<char>)>, k: Seq<char>) -> Option<Seq<char>>
    decreases t.len(),
{
    if t.len() == 0 {
        None
    } else if t[0].0 == k {
        Some(t[0].1)
    } else {
        lookup_key(t.drop_first(), k)
    }
}

/// `base` with the per-code overrides of `t` applied in order; the
/// `default` key and pairs whose key or value is not understood are skipped.
pub open spec fn apply_overrides(base: Seq<Action>, t: Seq<(Seq<char>, Seq<char>)>) -> Seq<Action>
    decreases t.len(),
{
    if t.len() == 0 {
        base
    } else {
        let prev = apply_overrides(base, t.drop_last());
        let (k, v) = t.last();
        if k == "default"@ {
            prev
        } else {
            match (return_code_of(k), action_of(v)) {
                (Some(c), Some(a)) => prev.update(c as int, a),
                _ => prev,
            }
        }
    }
}

/// The action table of an entry: its control flag's table, replaced
/// wholesale by a valid `default`, then the per-code overrides.
pub open spec fn resolved_table(e: EntryView) -> Seq<Action> {
    let base = control_table(e.control);
    match e.actions {
        None => base,
        Some(t) => {
            let start = match lookup_key(t, "default"@) {
                Some(d) => match action_of(d) {
                    Some(a) => Seq::new(PAM_RETURN_VALUES as nat, |i: int| a),
                    None => base,
                },
                None => base,
            };
            apply_overrides(start, t)
        },
    }
}

fn lookup_default(t: &Vec<(String, String)>) -> (r: Option<usize>)
    ensures
        match lookup_key(pairs_view(t@), "default"@) {
            Some(v) => r matches Some(i) && i < t@.len() && t@[i as int].1@ == v,
            None => r is None,
        },
{
    let mut i: usize = 0;
    assert(pairs_view(t@).skip(0) =~= pairs_view(t@));
    while i < t.len()
        invariant
            i <= t@.len(),
            lookup_key(pairs_view(t@), "default"@) == lookup_key(
                pairs_view(t@).skip(i as int),
                "default"@,
            ),
        decreases t@.len() - i,
    {
        let ghost rest = pairs_view(t@).skip(i as int);
        assert(rest[0] == (t@[i as int].0@, t@[i as int].1@));
        if str_eq_string(&t[i].0, "default") {
            return Some(i);
        }
        assert(rest.drop_first() =~= pairs_view(t@).skip(i + 1));
        i += 1;
    }
    assert(pairs_view(t@).skip(i as int) =~= Seq::<(Seq<char>, Seq<char>)>::empty());
    None
}

fn str_eq_string(a: &String, b: &str) -> (r: bool)
    ensures
        r == (a@ == b@),
{
    let v = chars_of(a.as_str());
    eq_str(&v, b)
}

impl ModuleEntry {
    /// Resolve action table (control flag defaults + optional overrides).
    pub fn resolved_actions(&self) -> (r: [Action; PAM_RETURN_VALUES])
        ensures
            r@ == resolved_table(self@),
    {
        let mut actions = self.control.actions();
        if let Some(table) = &self.actions {
            let ghost t = pairs_view(table@);
            if let Some(d) = lookup_default(table) {
                if let Some(a) = parse_action(table[d].1.as_str()) {
                    actions = [a; 32];
                    assert(actions@ =~= Seq::new(PAM_RETURN_VALUES as nat, |i: int| a));
                }
            }
            let ghost start = actions@;
            let mut i: usize = 0;
            while i < table.len()
                invariant
                    i <= table@.len(),
                    t == pairs_view(table@),
                    actions@.len() == PAM_RETURN_VALUES,
                    actions@ == apply_overrides(start, t.take(i as int)),
                decreases table@.len() - i,
            {
                let (key, val) = &table[i];
                let ghost pre = t.take(i as int);
                assert(t.take(i + 1).drop_last() =~= pre);
                assert(t.take(i + 1).last() == (key@, val@));
                if !str_eq_string(key, "default") {
                    if let Some(code) = return_code_from_name(key.as_str()) {
                        if let Some(a) = parse_action(val.as_str()) {
                            actions.set(code as usize, a);
                        }
                    }
                }
                i += 1;
            }
            assert(t.take(i as int) =~= t);
        }
        actions
    }
}

// ---------------------------------------------------------------------------
// Stack types and service configuration
// ---------------------------------------------------------------------------

/// Stack type as used in service TOML (`auth`, `account`, `password`, `session`).
#[derive(Debug, Clone, Copy, PartialEq, Eq, Hash, Structural)]
pub enum StackType {
    /// Authentication.
    Auth,
    /// Account management.
    Account,
    /// Password change.
    Password,
    /// Session open/close (same module list; hooks differ).
    Session,
}

impl StackType {
    /// Map to primary dispatch kind for this stack type.
    pub fn primary_kind(self) -> (r: StackKind)
        ensures
            r == match self {
                StackType::Auth => StackKind::Auth,
                StackType::Account => StackKind::Account,
                StackType::Password => StackKind::ChAuthTok,
                StackType::Session => StackKind::OpenSession,
            },
    {
        match self {
            Self::Auth => StackKind::Auth,
            Self::Account => StackKind::Account,
            Self::Password => StackKind::ChAuthTok,
            Self::Session => StackKind::OpenSession,
        }
    }
}

/// Optional service metadata block.
#[derive(Debug, Clone)]
pub struct ServiceMeta {
    /// Service name override (defaults to file stem).
    pub name: Option<String>,
    /// Human description.
    pub description: Option<String>,
}

impl Default for ServiceMeta {
    fn default() -> (r: Self)
        ensures
            r.name is None,
            r.description is None,
    {
        ServiceMeta { name: None, description: None }
    }
}

/// Service configuration: one TOML file per service (e.g. `elevate.toml`).
#[derive(Debug)]
pub struct ServiceConfig {
    /// Optional metadata.
    pub service: ServiceMeta,
    /// Auth stack.
    pub auth: Vec<ModuleEntry>,
    /// Account stack.
    pub account: Vec<ModuleEntry>,
    /// Password stack.
    pub password: Vec<ModuleEntry>,
    /// Session stack.
    pub session: Vec<ModuleEntry>,
}

impl Default for ServiceConfig {
    fn default() -> (r: Self)
        ensures
            r.service.name is None,
            r.service.description is None,
            r.auth@.len() == 0,
            r.account@.len() == 0,
            r.password@.len() == 0,
            r.session@.len() == 0,
    {
        ServiceConfig {
            service: ServiceMeta::default(),
            auth: Vec::new(),
            account: Vec::new(),
            password: Vec::new(),
            session: Vec::new(),
        }
    }
}

/// The stack that serves a dispatch kind: credentials share the auth
/// stack, and both session phases share the session stack.
pub open spec fn spec_stack_for(c: ServiceConfig, kind: StackKind) -> Seq<ModuleEntry> {
    match kind {
        StackKind::Auth | StackKind::SetCred => c.auth@,
        StackKind::Account => c.account@,
        StackKind::ChAuthTok => c.password@,
        StackKind::OpenSession | StackKind::CloseSession => c.session@,
    }
}

/// The first stack, in the order auth, account, password, session, that
/// holds more than `max` modules, with its name and size.
pub open spec fn oversized_stack(c: ServiceConfig, max: nat) -> Option<(Seq<char>, nat)> {
    if c.auth@.len() > max {
        Some(("auth"@, c.auth@.len()))
    } else if c.account@.len() > max {
        Some(("account"@, c.account@.len()))
    } else if c.password@.len() > max {
        Some(("password"@, c.password@.len()))
    } else if c.session@.len() > max {
        Some(("session"@, c.session@.len()))
    } else {
        None
    }
}

fn stack_limit_message(name: &str, size: usize, max: usize) -> (r: String)
    ensures
        r@ == name@ + " stack has "@ + crate::text::decimal(size as nat) + " modules (max "@
            + crate::text::decimal(max as nat) + ")"@,
{
    let mut out = owned(name);
    crate::text::push_str(&mut out, " stack has ");
    crate::text::push_decimal(&mut out, size as u64);
    crate::text::push_str(&mut out, " modules (max ");
    crate::text::push_decimal(&mut out, max as u64);
    crate::text::push_str(&mut out, ")");
    out
}

impl ServiceConfig {
    /// Stack entries for a given kind.
    pub fn stack_for(&self, kind: StackKind) -> (r: &[ModuleEntry])
        ensures
            r@ == spec_stack_for(*self, kind),
    {
        match kind {
            StackKind::Auth | StackKind::SetCred => self.auth.as_slice(),
            StackKind::Account => self.account.as_slice(),
            StackKind::ChAuthTok => self.password.as_slice(),
            StackKind::OpenSession | StackKind::CloseSession => self.session.as_slice(),
        }
    }

    /// Validate stack sizes against security limits.
    pub fn validate(&self, security: &SecurityConfig) -> (r: PamResult<()>)
        ensures
            match oversized_stack(*self, security.max_stack_modules as nat) {
                None => r is Ok,
                Some((name, size)) => r matches Err(PamError::Config(m)) && m@ == name
                    + " stack has "@ + crate::text::decimal(size) + " modules (max "@
                    + crate::text::decimal(security.max_stack_modules as nat) + ")"@,
            },
    {
        let max = security.max_stack_modules as usize;
        if self.auth.len() > max {
            return Err(PamError::Config(stack_limit_message("auth", self.auth.len(), max)));
        }
        if self.account.len() > max {
            return Err(PamError::Config(stack_limit_message("account", self.account.len(), max)));
        }
        if self.password.len() > max {
            return Err(
                PamError::Config(stack_limit_message("password", self.password.len(), max)),
            );
        }
        if self.session.len() > max {
            return Err(PamError::Config(stack_limit_message("session", self.session.len(), max)));
        }
        Ok(())
    }
}

/// The part of a service name after its last `/`.
pub open spec fn service_base(n: Seq<char>) -> Seq<char> {
    match rindex_of(n, '/') {
        Some(p) => n.skip(p + 1),
        None => n,
    }
}

/// Sanitizing a service name: `Ok` with the lower-cased base name, or
/// `Err` with the reason the name is refused.  With `reject_paths` a name
/// holding a path separator is refused.
pub open spec fn sanitized_service(n: Seq<char>, reject_paths: bool) -> Result<Seq<char>, Seq<char>> {
    let b = service_base(n);
    if reject_paths && n.contains('/') {
        Err("service name contains a path separator"@)
    } else if b.len() == 0 {
        Err("empty service name"@)
    } else if contains_seq(b, ".."@) || b.contains('\0') {
        Err("illegal service name"@)
    } else {
        Ok(lower(b))
    }
}

/// Lower-casing keeps `/`, `.` and NUL where they are, and nothing else
/// becomes one of them; lower-casing twice changes nothing more.
proof fn lemma_lower_char_fixed(c: char)
    ensures
        (lower_char(c) == '/') == (c == '/'),
        (lower_char(c) == '.') == (c == '.'),
        (lower_char(c) == '\0') == (c == '\0'),
        lower_char(lower_char(c)) == lower_char(c),
{
    if 'A' <= c && c <= 'Z' {
        let d = lower_char(c);
        assert(d as u32 == c as u32 + 32);
        assert('a' <= d && d <= 'z');
    }
}

/// Sanitizing a name that was accepted gives it back: an accepted name is
/// its own sanitized form, whatever `reject_paths` says.
pub proof fn law_sanitize_idempotent(name: Seq<char>, reject_paths: bool)
    requires
        sanitized_service(name, reject_paths) is Ok,
    ensures
        sanitized_service(sanitized_service(name, reject_paths)->Ok_0, reject_paths)
            == sanitized_service(name, reject_paths),
{
    let b = service_base(name);
    let s = lower(b);
    lemma_rindex_of(name, '/');
    assert forall|j: int| 0 <= j < s.len() implies s[j] != '/' && (s[j] == '.') == (b[j] == '.')
        && (s[j] == '\0') == (b[j] == '\0') && lower_char(s[j]) == s[j] by {
        lemma_lower_char_fixed(b[j]);
        match rindex_of(name, '/') {
            Some(p) => {
                assert(b[j] == name[p + 1 + j]);
            },
            None => {},
        }
    }
    lemma_rindex_of(s, '/');
    assert(service_base(s) == s);
    assert(!s.contains('/'));
    assert(lower(s) =~= s);
    reveal_strlit("..");
    if contains_seq(s, ".."@) {
        let i = choose|i: int| 0 <= i && i + ".."@.len() <= s.len() && #[trigger] s.subrange(i, i + ".."@.len()) == ".."@;
        assert(".."@.len() == 2);
        assert(s.subrange(i, i + 2)[0] == s[i]);
        assert(s.subrange(i, i + 2)[1] == s[i + 1]);
        assert(s[i] == '.' && s[i + 1] == '.');
        assert(b.subrange(i, i + 2) =~= ".."@);
        assert(contains_seq(b, ".."@));
    }
    if s.contains('\0') {
        let k = choose|k: int| 0 <= k < s.len() && s[k] == '\0';
        assert(b[k] == '\0');
    }
}

/// Sanitize a service name (strip paths, lowercase) — Linux-PAM compatible.
///
/// With `reject_paths` a name holding `/` is refused; otherwise the
/// component after the last `/` is used.
pub fn sanitize_service_name(name: &str, reject_paths: bool) -> (r: PamResult<String>)
    ensures
        match sanitized_service(name@, reject_paths) {
            Ok(s) => r matches Ok(t) && t@ == s,
            Err(m) => r matches Err(PamError::InvalidArgument(t)) && t@ == m,
        },
{
    let v = chars_of(name);
    proof {
        lemma_rindex_of(v@, '/');
    }
    assert(v@.subrange(0, v@.len() as int) =~= v@);
    if reject_paths && range_contains_char(&v, 0, v.len(), '/') {
        return Err(PamError::InvalidArgument(owned("service name contains a path separator")));
    }
    let start = match rfind_char(&v, 0, v.len(), '/') {
        Some(pos) => pos + 1,
        None => 0,
    };
    assert(v@.subrange(start as int, v@.len() as int) =~= service_base(name@));
    if start == v.len() {
        return Err(PamError::InvalidArgument(owned("empty service name")));
    }
    let dots = chars_of("..");
    if range_contains_seq(&v, start, v.len(), &dots) || range_contains_char(
        &v,
        start,
        v.len(),
        '\0',
    ) {
        return Err(PamError::InvalidArgument(owned("illegal service name")));
    }
    let low = crate::text::lower_range(&v, start, v.len());
    Ok(string_of(&low))
}


/// The files that may hold the service `name` (already sanitized), in the
/// order they are tried: `<name>.toml` in the services directory, in the
/// vendor directory, and in `<conf_dir>/services`.
pub fn service_candidates(global: &GlobalConfig, name: &str) -> (r: Vec<String>)
    ensures
        r@.len() == 3,
        r@[0]@ == crate::loader::path_join(global.paths.services_dir@, name@ + ".toml"@),
        r@[1]@ == crate::loader::path_join(global.paths.vendor_dir@, name@ + ".toml"@),
        r@[2]@ == crate::loader::path_join(
            crate::loader::path_join(global.paths.conf_dir@, "services"@),
            name@ + ".toml"@,
        ),
{
    let file = crate::text::concat(name, ".toml");
    let mut out: Vec<String> = Vec::new();
    out.push(crate::loader::join_path(global.paths.services_dir.as_str(), file.as_str()));
    out.push(crate::loader::join_path(global.paths.vendor_dir.as_str(), file.as_str()));
    let services = crate::loader::join_path(global.paths.conf_dir.as_str(), "services");
    out.push(crate::loader::join_path(services.as_str(), file.as_str()));
    out
}

/// Whether a service that is not found falls back to the default service:
/// every service but the default one does.
pub fn falls_back_to_default(global: &GlobalConfig, name: &str) -> (r: bool)
    ensures
        r == (name@ != global.paths.default_service@),
{
    !crate::text::str_eq(name, global.paths.default_service.as_str())
}

/// The error for a service that no candidate file holds.
pub fn service_not_found(global: &GlobalConfig, name: &str) -> (r: PamError)
    ensures
        r matches PamError::Config(m) && m@ == "no TOML service config for '"@ + name@
            + "' (looked in "@ + global.paths.services_dir@ + " and "@ + global.paths.vendor_dir@
            + ")"@,
{
    let mut m = String::new();
    crate::text::push_str(&mut m, "no TOML service config for '");
    crate::text::push_str(&mut m, name);
    crate::text::push_str(&mut m, "' (looked in ");
    crate::text::push_str(&mut m, global.paths.services_dir.as_str());
    crate::text::push_str(&mut m, " and ");
    crate::text::push_str(&mut m, global.paths.vendor_dir.as_str());
    crate::text::push_str(&mut m, ")");
    PamError::Config(m)
}

} // verus!
