use gw::git::{root_from_common_dir, Git};

#[test]
fn relative_common_dir_resolves_against_toplevel() {
    let git = Git::new();
    let root = git.repo_root("/repo\n", ".git\n");
    assert_eq!(root, "/repo".to_string());
}

#[test]
fn main_and_linked_worktrees_agree_on_the_root() {
    let git = Git::new();
    let from_main = git.repo_root("/repo\n", ".git\n");
    let from_linked = git.repo_root("/repo/.worktrees/foo\n", "/repo/.git/worktrees/foo\n");
    assert_eq!(from_main, from_linked);
    assert_eq!(from_main, "/repo".to_string());
}

#[test]
fn unexpected_layout_falls_back_to_toplevel() {
    let git = Git::new();
    let root = git.repo_root("/top\n", "/nowhere/admin\n");
    assert_eq!(root, "/top".to_string());
}

#[test]
fn common_dir_walk_finds_the_git_ancestor() {
    assert_eq!(root_from_common_dir("/a/b/.git"), Some("/a/b".to_string()));
    assert_eq!(root_from_common_dir("/r/.git/worktrees/x"), Some("/r".to_string()));
    assert_eq!(root_from_common_dir("/a/b"), None);
    assert_eq!(root_from_common_dir(".git"), None);
}

#[test]
fn deepest_git_ancestor_wins() {
    assert_eq!(
        root_from_common_dir("/a/.git/sub/.git/worktrees/w"),
        Some("/a/.git/sub".to_string())
    );
}

#[test]
fn current_toplevel_trims_the_output() {
    let git = Git::new();
    assert_eq!(git.current_toplevel(" /repo\n"), "/repo".to_string());
    assert_eq!(git.current_toplevel("/repo"), "/repo".to_string());
}
