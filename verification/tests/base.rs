use gw::git::{Git, RefProbes};

fn no_probes() -> RefProbes {
    RefProbes {
        origin_head: None,
        local_main: false,
        origin_main: false,
        local_master: false,
        origin_master: false,
        current_branch: Ok("work\n".to_string()),
    }
}

#[test]
fn explicit_override_wins_over_everything() {
    let git = Git::new();
    let probes = RefProbes {
        origin_head: Some("refs/remotes/origin/develop\n".to_string()),
        local_main: true,
        origin_main: true,
        local_master: true,
        origin_master: true,
        current_branch: Ok("work\n".to_string()),
    };
    let base = git.resolve_base(&probes, Some("feature-base".to_string()));
    assert_eq!(base, Ok("feature-base".to_string()));
}

#[test]
fn remote_default_branch_is_stripped_of_its_prefix() {
    let git = Git::new();
    let mut probes = no_probes();
    probes.origin_head = Some("refs/remotes/origin/develop\n".to_string());
    assert_eq!(git.resolve_base(&probes, None), Ok("develop".to_string()));
}

#[test]
fn empty_remote_default_falls_through() {
    let git = Git::new();
    let mut probes = no_probes();
    probes.origin_head = Some("refs/remotes/origin/\n".to_string());
    probes.local_main = true;
    assert_eq!(git.resolve_base(&probes, None), Ok("main".to_string()));
}

#[test]
fn main_is_preferred_over_master() {
    let git = Git::new();
    let mut probes = no_probes();
    probes.origin_main = true;
    probes.local_master = true;
    assert_eq!(git.resolve_base(&probes, None), Ok("main".to_string()));
}

#[test]
fn master_is_preferred_over_the_current_branch() {
    let git = Git::new();
    let mut probes = no_probes();
    probes.local_master = true;
    probes.current_branch = Ok("work\n".to_string());
    assert_eq!(git.resolve_base(&probes, None), Ok("master".to_string()));
}

#[test]
fn current_branch_is_the_final_fallback() {
    let git = Git::new();
    let mut probes = no_probes();
    probes.current_branch = Ok("dev\n".to_string());
    assert_eq!(git.resolve_base(&probes, None), Ok("dev".to_string()));
}

#[test]
fn exhausted_chain_propagates_the_query_error() {
    let git = Git::new();
    let mut probes = no_probes();
    probes.current_branch = Err("fatal: ref HEAD is not a symbolic ref".to_string());
    assert_eq!(
        git.resolve_base(&probes, None),
        Err("fatal: ref HEAD is not a symbolic ref".to_string())
    );
}

#[test]
fn branch_exists_follows_the_lookup_outcome() {
    let git = Git::new();
    assert!(git.branch_exists(&Ok("deadbeef refs/heads/main\n".to_string())));
    assert!(!git.branch_exists(&Err("fatal: not a valid ref".to_string())));
}

#[test]
fn current_branch_trims_the_output() {
    let git = Git::new();
    assert_eq!(git.current_branch("main\n"), "main".to_string());
}
