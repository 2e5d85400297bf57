use gw::git::{Git, Worktree};

fn parse(input: &str) -> Vec<Worktree> {
    Git::new().worktrees(input)
}

#[test]
fn two_blocks_with_attributes() {
    let input = "worktree /repo\nHEAD abc123\nbranch refs/heads/main\n\nworktree /repo/.worktrees/foo\nHEAD def456\nbranch refs/heads/wt/foo\n";
    let regs = parse(input);
    assert_eq!(regs.len(), 2);
    assert_eq!(regs[0].path, "/repo".to_string());
    assert_eq!(regs[0].head, Some("abc123".to_string()));
    assert_eq!(regs[0].branch, Some("refs/heads/main".to_string()));
    assert_eq!(regs[1].path, "/repo/.worktrees/foo".to_string());
    assert_eq!(regs[1].head, Some("def456".to_string()));
    assert_eq!(regs[1].branch, Some("refs/heads/wt/foo".to_string()));
}

#[test]
fn empty_input_yields_empty_registry() {
    let regs = parse("");
    assert_eq!(regs.len(), 0);
}

#[test]
fn parsing_twice_yields_equal_registries() {
    let input = "worktree /repo\nbranch refs/heads/main\nworktree /repo/.worktrees/a\nHEAD 0011\n";
    let first = parse(input);
    let second = parse(input);
    assert_eq!(first, second);
}

#[test]
fn block_order_is_preserved() {
    let input = "worktree /one\nworktree /two\nbranch refs/heads/b\nworktree /three\n";
    let regs = parse(input);
    assert_eq!(regs.len(), 3);
    assert_eq!(regs[0].path, "/one".to_string());
    assert_eq!(regs[1].path, "/two".to_string());
    assert_eq!(regs[2].path, "/three".to_string());
}

#[test]
fn unrecognized_lines_are_ignored() {
    let with_noise = "worktree /repo\nbare\nbranch refs/heads/main\nlocked reason text\nworktree /repo/.worktrees/x\ndetached\nHEAD 99aa\n";
    let without_noise = "worktree /repo\nbranch refs/heads/main\nworktree /repo/.worktrees/x\nHEAD 99aa\n";
    assert_eq!(parse(with_noise), parse(without_noise));
}

#[test]
fn duplicate_paths_keep_the_later_branch_last() {
    let input = "worktree /same\nbranch refs/heads/first\nworktree /same\nbranch refs/heads/second\n";
    let regs = parse(input);
    let last_for_path = regs
        .iter()
        .filter(|w| w.path == "/same")
        .last()
        .expect("a record for the path");
    assert_eq!(last_for_path.branch, Some("refs/heads/second".to_string()));
}

#[test]
fn duplicate_paths_are_superseded_by_the_later_block() {
    let input = "worktree /same\nbranch refs/heads/first\nworktree /same\nbranch refs/heads/second\n";
    let regs = parse(input);
    assert_eq!(regs.len(), 1);
    assert_eq!(regs[0].path, "/same".to_string());
    assert_eq!(regs[0].branch, Some("refs/heads/second".to_string()));
}

#[test]
fn superseding_removes_only_the_matching_record() {
    let input = "worktree /a\nworktree /b\nbranch refs/heads/old\nworktree /a\nworktree /b\nbranch refs/heads/new\n";
    let regs = parse(input);
    assert_eq!(regs.len(), 2);
    assert_eq!(regs[0].path, "/a".to_string());
    assert_eq!(regs[1].path, "/b".to_string());
    assert_eq!(regs[1].branch, Some("refs/heads/new".to_string()));
}

#[test]
fn record_without_branch_is_detached() {
    let regs = parse("worktree /x\nHEAD abc\n");
    assert_eq!(regs.len(), 1);
    assert_eq!(regs[0].branch, None);
    assert_eq!(regs[0].head, Some("abc".to_string()));
}

#[test]
fn record_may_omit_head() {
    let regs = parse("worktree /x\nbranch refs/heads/m\n");
    assert_eq!(regs.len(), 1);
    assert_eq!(regs[0].head, None);
    assert_eq!(regs[0].branch, Some("refs/heads/m".to_string()));
}

#[test]
fn crlf_line_endings_are_accepted() {
    let regs = parse("worktree /x\r\nbranch refs/heads/m\r\n");
    assert_eq!(regs.len(), 1);
    assert_eq!(regs[0].path, "/x".to_string());
    assert_eq!(regs[0].branch, Some("refs/heads/m".to_string()));
}

#[test]
fn attribute_lines_before_any_block_are_ignored() {
    let regs = parse("branch refs/heads/x\nHEAD 1234\nworktree /y\n");
    assert_eq!(regs.len(), 1);
    assert_eq!(regs[0].path, "/y".to_string());
    assert_eq!(regs[0].branch, None);
    assert_eq!(regs[0].head, None);
}

#[test]
fn missing_final_newline_still_closes_the_record() {
    let regs = parse("worktree /x\nbranch refs/heads/m");
    assert_eq!(regs.len(), 1);
    assert_eq!(regs[0].branch, Some("refs/heads/m".to_string()));
}
