//! Layered configuration: the merged settings the resolvers consume, with
//! override-by-presence merging and the documented defaults. Reading the
//! configuration files and the process environment is the caller's job; the
//! environment overrides arrive here as plain optional values.

use vstd::prelude::*;

use crate::text::{join_path, spec_join};

verus! {

/// Default settings for new worktrees.
#[derive(Debug, Clone)]
pub struct Defaults {
    pub base: Option<String>,
    pub worktrees_dir: Option<String>,
    pub branch_prefix: Option<String>,
}

/// Stale-worktree collection settings.
#[derive(Debug, Clone)]
pub struct GcConfig {
    pub stale_days: Option<i64>,
}

/// Per-language verification commands.
#[derive(Debug, Clone)]
pub struct VerifyConfig {
    pub rust: Option<String>,
    pub node: Option<String>,
    pub python: Option<String>,
}

/// The merged configuration.
#[derive(Debug, Clone)]
pub struct Config {
    pub defaults: Defaults,
    pub gc: GcConfig,
    pub verify: VerifyConfig,
}

/// The first value when present, the second otherwise.
pub open spec fn or_opt<T>(a: Option<T>, b: Option<T>) -> Option<T> {
    match a {
        Some(x) => Some(x),
        None => b,
    }
}

fn or_string(a: Option<String>, b: Option<String>) -> (r: Option<String>)
    ensures
        r == or_opt(a, b),
{
    match a {
        Some(x) => Some(x),
        None => b,
    }
}

fn or_i64(a: Option<i64>, b: Option<i64>) -> (r: Option<i64>)
    ensures
        r == or_opt(a, b),
{
    match a {
        Some(x) => Some(x),
        None => b,
    }
}

impl Default for Defaults {
    fn default() -> (d: Defaults)
        ensures
            d.base is None,
            d.worktrees_dir is None,
            d.branch_prefix is None,
    {
        Defaults { base: None, worktrees_dir: None, branch_prefix: None }
    }
}

impl Default for GcConfig {
    fn default() -> (d: GcConfig)
        ensures
            d.stale_days is None,
    {
        GcConfig { stale_days: None }
    }
}

impl Default for VerifyConfig {
    fn default() -> (d: VerifyConfig)
        ensures
            d.rust is None,
            d.node is None,
            d.python is None,
    {
        VerifyConfig { rust: None, node: None, python: None }
    }
}

impl Default for Config {
    fn default() -> (c: Config)
        ensures
            c.defaults.base is None,
            c.defaults.worktrees_dir is None,
            c.defaults.branch_prefix is None,
            c.gc.stale_days is None,
            c.verify.rust is None,
            c.verify.node is None,
            c.verify.python is None,
    {
        Config {
            defaults: Defaults { base: None, worktrees_dir: None, branch_prefix: None },
            gc: GcConfig { stale_days: None },
            verify: VerifyConfig { rust: None, node: None, python: None },
        }
    }
}

/// Merges two configuration layers: a value set in the overriding layer
/// wins, field by field; an absent one falls back to the base layer.
pub fn merge(base: Config, override_cfg: Config) -> (r: Config)
    ensures
        r.defaults.base == or_opt(override_cfg.defaults.base, base.defaults.base),
        r.defaults.worktrees_dir == or_opt(
            override_cfg.defaults.worktrees_dir,
            base.defaults.worktrees_dir,
        ),
        r.defaults.branch_prefix == or_opt(
            override_cfg.defaults.branch_prefix,
            base.defaults.branch_prefix,
        ),
        r.gc.stale_days == or_opt(override_cfg.gc.stale_days, base.gc.stale_days),
        r.verify.rust == or_opt(override_cfg.verify.rust, base.verify.rust),
        r.verify.node == or_opt(override_cfg.verify.node, base.verify.node),
        r.verify.python == or_opt(override_cfg.verify.python, base.verify.python),
{
    Config {
        defaults: Defaults {
            base: or_string(override_cfg.defaults.base, base.defaults.base),
            worktrees_dir: or_string(override_cfg.defaults.worktrees_dir, base.defaults.worktrees_dir),
            branch_prefix: or_string(override_cfg.defaults.branch_prefix, base.defaults.branch_prefix),
        },
        gc: GcConfig { stale_days: or_i64(override_cfg.gc.stale_days, base.gc.stale_days) },
        verify: VerifyConfig {
            rust: or_string(override_cfg.verify.rust, base.verify.rust),
            node: or_string(override_cfg.verify.node, base.verify.node),
            python: or_string(override_cfg.verify.python, base.verify.python),
        },
    }
}

impl Config {
    /// The worktree storage directory: the environment override when
    /// present, the configured value otherwise, `.worktrees` by default.
    pub fn worktrees_dir(&self, env_override: Option<String>) -> (r: String)
        ensures
            r@ == match env_override {
                Some(v) => v@,
                None => match self.defaults.worktrees_dir {
                    Some(d) => d@,
                    None => ".worktrees"@,
                },
            },
    {
        match env_override {
            Some(v) => v,
            None => match &self.defaults.worktrees_dir {
                Some(d) => d.clone(),
                None => ".worktrees".to_owned(),
            },
        }
    }

    /// The branch name prefix, `wt/` by default.
    pub fn branch_prefix(&self) -> (r: String)
        ensures
            r@ == match self.defaults.branch_prefix {
                Some(p) => p@,
                None => "wt/"@,
            },
    {
        match &self.defaults.branch_prefix {
            Some(p) => p.clone(),
            None => "wt/".to_owned(),
        }
    }

    /// The explicit base-branch override: the environment override when
    /// present, the configured value otherwise.
    pub fn default_base(&self, env_override: Option<String>) -> (r: Option<String>)
        ensures
            r == or_opt(env_override, self.defaults.base),
    {
        match env_override {
            Some(v) => Some(v),
            None => self.defaults.base.clone(),
        }
    }

    /// The staleness threshold in days, 7 by default.
    pub fn gc_stale_days(&self) -> (r: i64)
        ensures
            r == match self.gc.stale_days {
                Some(d) => d,
                None => 7,
            },
    {
        match self.gc.stale_days {
            Some(d) => d,
            None => 7,
        }
    }

    /// The verification command for Rust projects, `cargo test` by default.
    pub fn verify_rust(&self) -> (r: String)
        ensures
            r@ == match self.verify.rust {
                Some(c) => c@,
                None => "cargo test"@,
            },
    {
        match &self.verify.rust {
            Some(c) => c.clone(),
            None => "cargo test".to_owned(),
        }
    }

    /// The verification command for Node projects, `npm test` by default.
    pub fn verify_node(&self) -> (r: String)
        ensures
            r@ == match self.verify.node {
                Some(c) => c@,
                None => "npm test"@,
            },
    {
        match &self.verify.node {
            Some(c) => c.clone(),
            None => "npm test".to_owned(),
        }
    }

    /// The verification command for Python projects, `pytest` by default.
    pub fn verify_python(&self) -> (r: String)
        ensures
            r@ == match self.verify.python {
                Some(c) => c@,
                None => "pytest"@,
            },
    {
        match &self.verify.python {
            Some(c) => c.clone(),
            None => "pytest".to_owned(),
        }
    }
}

/// The global configuration file under the tool's home directory, when that
/// directory could be determined.
pub fn global_config_path(home: Option<String>) -> (r: Option<String>)
    ensures
        match home {
            Some(h) => r is Some && r->0@ == spec_join(h@, "config.toml"@),
            None => r is None,
        },
{
    match home {
        Some(h) => Some(join_path(h.as_str(), "config.toml")),
        None => None,
    }
}

} // verus!
