use gw::config::{global_config_path, merge, Config, Defaults, GcConfig, VerifyConfig};
use gw::git::git_error;
use gw::GwError;

fn config_with(defaults: Defaults, gc: GcConfig, verify: VerifyConfig) -> Config {
    Config { defaults, gc, verify }
}

fn empty_config() -> Config {
    config_with(
        Defaults { base: None, worktrees_dir: None, branch_prefix: None },
        GcConfig { stale_days: None },
        VerifyConfig { rust: None, node: None, python: None },
    )
}

#[test]
fn merge_prefers_the_overriding_layer() {
    let base = config_with(
        Defaults {
            base: Some("main".to_string()),
            worktrees_dir: Some(".wts".to_string()),
            branch_prefix: None,
        },
        GcConfig { stale_days: Some(3) },
        VerifyConfig { rust: Some("cargo check".to_string()), node: None, python: None },
    );
    let over = config_with(
        Defaults { base: Some("develop".to_string()), worktrees_dir: None, branch_prefix: None },
        GcConfig { stale_days: None },
        VerifyConfig { rust: None, node: Some("yarn test".to_string()), python: None },
    );
    let merged = merge(base, over);
    assert_eq!(merged.defaults.base, Some("develop".to_string()));
    assert_eq!(merged.defaults.worktrees_dir, Some(".wts".to_string()));
    assert_eq!(merged.defaults.branch_prefix, None);
    assert_eq!(merged.gc.stale_days, Some(3));
    assert_eq!(merged.verify.rust, Some("cargo check".to_string()));
    assert_eq!(merged.verify.node, Some("yarn test".to_string()));
    assert_eq!(merged.verify.python, None);
}

#[test]
fn defaults_apply_when_nothing_is_configured() {
    let c = empty_config();
    assert_eq!(c.branch_prefix(), "wt/".to_string());
    assert_eq!(c.gc_stale_days(), 7);
    assert_eq!(c.verify_rust(), "cargo test".to_string());
    assert_eq!(c.verify_node(), "npm test".to_string());
    assert_eq!(c.verify_python(), "pytest".to_string());
    assert_eq!(c.worktrees_dir(None), ".worktrees".to_string());
    assert_eq!(c.default_base(None), None);
}

#[test]
fn configured_values_replace_the_defaults() {
    let mut c = empty_config();
    c.defaults.branch_prefix = Some("feat/".to_string());
    c.gc.stale_days = Some(30);
    c.verify.rust = Some("cargo nextest run".to_string());
    assert_eq!(c.branch_prefix(), "feat/".to_string());
    assert_eq!(c.gc_stale_days(), 30);
    assert_eq!(c.verify_rust(), "cargo nextest run".to_string());
}

#[test]
fn environment_overrides_take_precedence() {
    let mut c = empty_config();
    c.defaults.worktrees_dir = Some(".configured".to_string());
    c.defaults.base = Some("main".to_string());
    assert_eq!(c.worktrees_dir(Some("/tmp/wts".to_string())), "/tmp/wts".to_string());
    assert_eq!(c.worktrees_dir(None), ".configured".to_string());
    assert_eq!(c.default_base(Some("release".to_string())), Some("release".to_string()));
    assert_eq!(c.default_base(None), Some("main".to_string()));
}

#[test]
fn global_config_path_joins_under_the_home() {
    assert_eq!(
        global_config_path(Some("/home/u/.gw".to_string())),
        Some("/home/u/.gw/config.toml".to_string())
    );
    assert_eq!(global_config_path(None), None);
}

#[test]
fn git_errors_carry_exit_code_two() {
    let e: GwError = git_error("fatal: not a git repository".to_string());
    assert_eq!(e.code, 2);
    assert_eq!(e.message, "fatal: not a git repository".to_string());
}
