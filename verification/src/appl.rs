//! High-level application helpers: the settings of a PAM transaction
//! before it starts.

use vstd::prelude::*;

use crate::config::GlobalConfig;

verus! {

/// Builder for a PAM transaction.
#[derive(Debug)]
pub struct PamBuilder {
    service: String,
    user: Option<String>,
    confdir: Option<String>,
    global: GlobalConfig,
}

impl PamBuilder {
    /// Start building for a service name, with the global configuration that
    /// the default locations give (see `GlobalConfig::load_default`).
    pub fn new(service: String, global: GlobalConfig) -> (r: Self)
        ensures
            r.service_name()@ == service@,
            r.user_name() is None,
            r.confdir_path() is None,
            r.global_config() == global,
    {
        Self { service, user: None, confdir: None, global }
    }

    /// Set target user.
    pub fn user(self, user: String) -> (r: Self)
        ensures
            r.service_name() == self.service_name(),
            r.user_name() matches Some(u) && u@ == user@,
            r.confdir_path() == self.confdir_path(),
            r.global_config() == self.global_config(),
    {
        let mut b = self;
        b.user = Some(user);
        b
    }

    /// Override configuration directory.
    pub fn confdir(self, dir: String) -> (r: Self)
        ensures
            r.service_name() == self.service_name(),
            r.user_name() == self.user_name(),
            r.confdir_path() matches Some(d) && d@ == dir@,
            r.global_config() == self.global_config(),
    {
        let mut b = self;
        b.confdir = Some(dir);
        b
    }

    /// Use an explicit global config.
    pub fn global(self, cfg: GlobalConfig) -> (r: Self)
        ensures
            r.service_name() == self.service_name(),
            r.user_name() == self.user_name(),
            r.confdir_path() == self.confdir_path(),
            r.global_config() == cfg,
    {
        let mut b = self;
        b.global = cfg;
        b
    }

    /// The service name.
    pub closed spec fn service_name(&self) -> String {
        self.service
    }

    /// The target user, if set.
    pub closed spec fn user_name(&self) -> Option<String> {
        self.user
    }

    /// The configuration directory override, if set.
    pub closed spec fn confdir_path(&self) -> Option<String> {
        self.confdir
    }

    /// The global configuration.
    pub closed spec fn global_config(&self) -> GlobalConfig {
        self.global
    }

    /// The settings, taken apart: service, user, configuration directory and
    /// global configuration, for starting the transaction.
    pub fn into_parts(self) -> (r: (String, Option<String>, Option<String>, GlobalConfig))
        ensures
            r == (self.service_name(), self.user_name(), self.confdir_path(), self.global_config()),
    {
        (self.service, self.user, self.confdir, self.global)
    }
}

} // verus!
