//! The worktree state model: parsing the machine-readable worktree listing,
//! resolving the shared repository root from the toplevel and common-directory
//! queries, and choosing a base branch through the documented fallback chain.
//!
//! Every function here is a pure function of captured command output; the
//! caller runs the external tool and hands its text in.

use vstd::prelude::*;

use crate::text::{
    has_prefix, join_path, spec_components, spec_join, spec_trim, spec_unsplit, split_components,
    split_lines, spec_lines, starts_with, str_eq, strip_prefix_all, strip_prefix_repeat, trim,
    unsplit_prefix,
};
use crate::GwError;

verus! {

/// Spec-level view of an optional string.
pub open spec fn opt_view(o: Option<String>) -> Option<Seq<char>> {
    match o {
        Some(s) => Some(s@),
        None => None,
    }
}

/// Spec-level view of a string-valued result.
pub open spec fn result_view(r: Result<String, String>) -> Result<Seq<char>, Seq<char>> {
    match r {
        Ok(s) => Ok(s@),
        Err(e) => Err(e@),
    }
}

// ---------------------------------------------------------------------------
// Worktree records and the registry parser
// ---------------------------------------------------------------------------

/// One worktree of the repository, as reported by the listing: its path,
/// the branch checked out there (absent when detached), and the commit
/// currently checked out (absent when the listing omitted it).
#[derive(Debug, Clone)]
pub struct Worktree {
    pub path: String,
    pub branch: Option<String>,
    pub head: Option<String>,
}

/// The mathematical value of a worktree record.
pub ghost struct WorktreeView {
    pub path: Seq<char>,
    pub branch: Option<Seq<char>>,
    pub head: Option<Seq<char>>,
}

impl View for Worktree {
    type V = WorktreeView;

    open spec fn view(&self) -> WorktreeView {
        WorktreeView {
            path: self.path@,
            branch: opt_view(self.branch),
            head: opt_view(self.head),
        }
    }
}

impl PartialEq for Worktree {
    fn eq(&self, other: &Worktree) -> (r: bool) {
        let pe = str_eq(self.path.as_str(), other.path.as_str());
        let be = match (&self.branch, &other.branch) {
            (Some(a), Some(b)) => str_eq(a.as_str(), b.as_str()),
            (None, None) => true,
            _ => false,
        };
        let he = match (&self.head, &other.head) {
            (Some(a), Some(b)) => str_eq(a.as_str(), b.as_str()),
            (None, None) => true,
            _ => false,
        };
        pe && be && he
    }
}

impl vstd::std_specs::cmp::PartialEqSpecImpl for Worktree {
    open spec fn obeys_eq_spec() -> bool {
        true
    }

    open spec fn eq_spec(&self, other: &Worktree) -> bool {
        self.path@ == other.path@ && opt_view(self.branch) == opt_view(other.branch) && opt_view(
            self.head,
        ) == opt_view(other.head)
    }
}

/// Spec-level view of a sequence of worktree records.
pub open spec fn wt_seq_view(s: Seq<Worktree>) -> Seq<WorktreeView> {
    s.map(|i: int, w: Worktree| w@)
}

/// Parser accumulator: the finished records, and the record currently open.
pub ghost struct ParseAcc {
    pub done: Seq<WorktreeView>,
    pub cur: Option<WorktreeView>,
}

/// The records of `s` whose path differs from `q`, in order.
pub open spec fn keep_others(s: Seq<WorktreeView>, q: Seq<char>) -> Seq<WorktreeView>
    decreases s.len(),
{
    if s.len() == 0 {
        Seq::empty()
    } else if s.last().path == q {
        keep_others(s.drop_last(), q)
    } else {
        keep_others(s.drop_last(), q).push(s.last())
    }
}

/// Appends a finalized record to the registry: an earlier record with the
/// same path is silently superseded by the later one.
pub open spec fn supersede(done: Seq<WorktreeView>, w: WorktreeView) -> Seq<WorktreeView> {
    keep_others(done, w.path).push(w)
}

/// Pushes the still-open record, if any, onto the finished ones.
pub open spec fn finish_parse(st: ParseAcc) -> Seq<WorktreeView> {
    match st.cur {
        None => st.done,
        Some(w) => supersede(st.done, w),
    }
}

/// One line of the listing: a `worktree ` line finalizes the open record and
/// opens a new one; `branch ` and `HEAD ` lines attach attributes to the open
/// record; every other line is ignored.
pub open spec fn parse_step(st: ParseAcc, line: Seq<char>) -> ParseAcc {
    if has_prefix(line, "worktree "@) {
        ParseAcc {
            done: finish_parse(st),
            cur: Some(
                WorktreeView {
                    path: strip_prefix_all(line, "worktree "@),
                    branch: None,
                    head: None,
                },
            ),
        }
    } else if has_prefix(line, "branch "@) {
        match st.cur {
            None => st,
            Some(w) => ParseAcc {
                done: st.done,
                cur: Some(
                    WorktreeView {
                        path: w.path,
                        branch: Some(spec_trim(strip_prefix_all(line, "branch "@))),
                        head: w.head,
                    },
                ),
            },
        }
    } else if has_prefix(line, "HEAD "@) {
        match st.cur {
            None => st,
            Some(w) => ParseAcc {
                done: st.done,
                cur: Some(
                    WorktreeView {
                        path: w.path,
                        branch: w.branch,
                        head: Some(spec_trim(strip_prefix_all(line, "HEAD "@))),
                    },
                ),
            },
        }
    } else {
        st
    }
}

/// Appends a finalized record to the registry being built, removing any
/// earlier record with the same path.
fn push_record(result: &mut Vec<Worktree>, wt: Worktree)
    ensures
        wt_seq_view(final(result)@) == supersede(wt_seq_view(old(result)@), wt@),
{
    let ghost ov = wt_seq_view(old(result)@);
    let ghost q = wt@.path;
    let mut i: usize = 0;
    let ghost mut j: int = 0;
    proof {
        assert(ov.take(0) =~= Seq::<WorktreeView>::empty());
        assert(wt_seq_view(result@) =~= keep_others(ov.take(0), q) + ov.skip(0));
    }
    while i < result.len()
        invariant
            0 <= j <= ov.len(),
            i == keep_others(ov.take(j), q).len(),
            q == wt@.path,
            ov.len() == old(result)@.len(),
            wt_seq_view(result@) == keep_others(ov.take(j), q) + ov.skip(j),
            result@.len() == i + ov.len() - j,
        decreases ov.len() - j,
    {
        proof {
            assert(ov.take(j + 1).drop_last() =~= ov.take(j));
            assert(ov.take(j + 1).last() == ov[j]);
            assert(wt_seq_view(result@)[i as int] == ov.skip(j)[0]);
            assert(ov.skip(j)[0] == ov[j]);
            assert(result@[i as int]@ == ov[j]);
        }
        if str_eq(result[i].path.as_str(), wt.path.as_str()) {
            let ghost before = result@;
            result.remove(i);
            proof {
                j = j + 1;
                let kept = keep_others(ov.take(j), q);
                assert(kept == keep_others(ov.take(j - 1), q));
                assert(result@ == before.remove(i as int));
                assert(result@.len() == i + ov.len() - j);
                assert forall|k: int| 0 <= k < result@.len() implies wt_seq_view(result@)[k]
                    == (kept + ov.skip(j))[k] by {
                    assert(wt_seq_view(result@)[k] == result@[k]@);
                    if k < i {
                        assert(result@[k] == before[k]);
                        assert(before[k]@ == wt_seq_view(before)[k]);
                        assert(wt_seq_view(before)[k] == kept[k]);
                        assert((kept + ov.skip(j))[k] == kept[k]);
                    } else {
                        assert(result@[k] == before[k + 1]);
                        assert(before[k + 1]@ == wt_seq_view(before)[k + 1]);
                        assert(wt_seq_view(before)[k + 1] == ov.skip(j - 1)[k + 1 - i]);
                        assert(ov.skip(j - 1)[k + 1 - i] == ov[j + k - i]);
                        assert((kept + ov.skip(j))[k] == ov.skip(j)[k - i]);
                        assert(ov.skip(j)[k - i] == ov[j + k - i]);
                    }
                }
                assert(wt_seq_view(result@) =~= kept + ov.skip(j));
            }
        } else {
            i = i + 1;
            proof {
                j = j + 1;
                assert(keep_others(ov.take(j), q) == keep_others(ov.take(j - 1), q).push(ov[j - 1]));
                assert(wt_seq_view(result@) =~= keep_others(ov.take(j), q) + ov.skip(j));
            }
        }
    }
    proof {
        assert(j == ov.len());
        assert(ov.take(j) =~= ov);
        assert(ov.skip(j) =~= Seq::<WorktreeView>::empty());
        assert(wt_seq_view(result@) =~= keep_others(ov, q));
    }
    result.push(wt);
    proof {
        assert(wt_seq_view(result@) =~= keep_others(ov, q).push(wt@));
    }
}

pub open spec fn parse_run(lines: Seq<Seq<char>>) -> ParseAcc
    decreases lines.len(),
{
    if lines.len() == 0 {
        ParseAcc { done: Seq::empty(), cur: None }
    } else {
        parse_step(parse_run(lines.drop_last()), lines.last())
    }
}

/// The model of the registry parser: the listing split into lines, folded
/// through `parse_step`, with the last open record finalized.
pub open spec fn spec_worktrees(text: Seq<char>) -> Seq<WorktreeView> {
    finish_parse(parse_run(spec_lines(text)))
}

// ---------------------------------------------------------------------------
// Repository root resolution
// ---------------------------------------------------------------------------

/// Walks the components of the common administrative directory from the
/// deepest upward; the components before the deepest one named `.git` are
/// the repository root. A match at the very first component has no parent
/// and does not count.
pub open spec fn spec_root_components(c: Seq<Seq<char>>) -> Option<Seq<Seq<char>>>
    decreases c.len(),
{
    if c.len() <= 1 {
        None
    } else if c.last() == ".git"@ {
        Some(c.drop_last())
    } else {
        spec_root_components(c.drop_last())
    }
}

/// The model of deriving the repository root from the absolute common
/// administrative directory, or `None` when no `.git` ancestor exists.
pub open spec fn spec_root_from_common(p: Seq<char>) -> Option<Seq<char>> {
    match spec_root_components(spec_components(p)) {
        Some(cs) => Some(spec_unsplit(cs)),
        None => None,
    }
}

/// A path with no leading `/` is relative.
pub open spec fn spec_is_relative(p: Seq<char>) -> bool {
    p.len() == 0 || p[0] != '/'
}

/// The model of root resolution from the two command outputs: trim both,
/// resolve the common directory against the toplevel when relative, walk it
/// for a `.git` ancestor, and fall back to the toplevel when none exists.
pub open spec fn spec_repo_root(toplevel_out: Seq<char>, common_out: Seq<char>) -> Seq<char> {
    let top = spec_trim(toplevel_out);
    let c = spec_trim(common_out);
    let abs = if spec_is_relative(c) {
        spec_join(top, c)
    } else {
        c
    };
    match spec_root_from_common(abs) {
        Some(r) => r,
        None => top,
    }
}

/// Finds the parent of the deepest ancestor named `.git` within `common`,
/// the shared administrative directory; `None` when no such ancestor exists.
pub fn root_from_common_dir(common: &str) -> (r: Option<String>)
    ensures
        match r {
            Some(s) => spec_root_from_common(common@) == Some(s@),
            None => spec_root_from_common(common@) is None,
        },
{
    let comps = split_components(common);
    let ghost cv = comps@.map(|i: int, s: String| s@);
    proof {
        assert(cv =~= spec_components(common@));
        assert(cv.take(comps@.len() as int) =~= cv);
    }
    let mut t: usize = comps.len();
    while t > 1
        invariant
            1 <= t <= comps@.len(),
            cv == comps@.map(|i: int, s: String| s@),
            cv == spec_components(common@),
            spec_root_components(cv) == spec_root_components(cv.take(t as int)),
        decreases t,
    {
        proof {
            assert(cv.take(t as int).drop_last() =~= cv.take(t - 1));
            assert(cv.take(t as int).last() == cv[t - 1]);
        }
        if str_eq(comps[t - 1].as_str(), ".git") {
            let parent = unsplit_prefix(&comps, t - 1);
            return Some(parent);
        }
        t = t - 1;
    }
    None
}

// ---------------------------------------------------------------------------
// Base branch resolution
// ---------------------------------------------------------------------------

/// The captured outcomes of the ref queries the fallback chain consults:
/// the remote's symbolic HEAD output (absent when that query failed), the
/// four existence probes, and the current-branch query's outcome.
pub struct RefProbes {
    pub origin_head: Option<String>,
    pub local_main: bool,
    pub origin_main: bool,
    pub local_master: bool,
    pub origin_master: bool,
    pub current_branch: Result<String, String>,
}

/// The mathematical value of a probe snapshot.
pub ghost struct RefProbesView {
    pub origin_head: Option<Seq<char>>,
    pub local_main: bool,
    pub origin_main: bool,
    pub local_master: bool,
    pub origin_master: bool,
    pub current_branch: Result<Seq<char>, Seq<char>>,
}

impl View for RefProbes {
    type V = RefProbesView;

    open spec fn view(&self) -> RefProbesView {
        RefProbesView {
            origin_head: opt_view(self.origin_head),
            local_main: self.local_main,
            origin_main: self.origin_main,
            local_master: self.local_master,
            origin_master: self.origin_master,
            current_branch: result_view(self.current_branch),
        }
    }
}

/// The branch name the remote's symbolic HEAD yields: its output trimmed and
/// stripped of the remote-tracking prefix; empty when the query failed or
/// nothing remains.
pub open spec fn origin_candidate(p: RefProbesView) -> Seq<char> {
    match p.origin_head {
        Some(out) => strip_prefix_all(spec_trim(out), "refs/remotes/origin/"@),
        None => Seq::empty(),
    }
}

/// The fallback chain, first success winning: the explicit override, the
/// remote's default branch when non-empty, `main` when either existence
/// probe for it succeeded, `master` likewise, and finally the current
/// branch of the repository root, whose failure is the chain's failure.
pub open spec fn spec_resolve_base(
    default_base: Option<Seq<char>>,
    p: RefProbesView,
) -> Result<Seq<char>, Seq<char>> {
    match default_base {
        Some(b) => Ok(b),
        None => {
            if origin_candidate(p).len() > 0 {
                Ok(origin_candidate(p))
            } else if p.local_main || p.origin_main {
                Ok("main"@)
            } else if p.local_master || p.origin_master {
                Ok("master"@)
            } else {
                match p.current_branch {
                    Ok(c) => Ok(spec_trim(c)),
                    Err(e) => Err(e),
                }
            }
        },
    }
}

/// An error carrying the external tool's diagnostic text, with the exit
/// code such failures surface under.
pub fn git_error(msg: String) -> (r: GwError)
    ensures
        r.code == 2,
        r.message == msg,
{
    GwError::new(2, msg)
}

#[derive(Clone)]
pub struct Git;

impl Git {
    pub fn new() -> Self {
        Git
    }

    /// The toplevel working directory: the query's output, trimmed.
    pub fn current_toplevel(&self, toplevel_out: &str) -> (r: String)
        ensures
            r@ == spec_trim(toplevel_out@),
    {
        trim(toplevel_out)
    }

    /// The branch currently checked out: the query's output, trimmed.
    pub fn current_branch(&self, branch_out: &str) -> (r: String)
        ensures
            r@ == spec_trim(branch_out@),
    {
        trim(branch_out)
    }

    /// A branch exists exactly when its verify-style ref lookup succeeded;
    /// `probe` is that lookup's captured outcome.
    pub fn branch_exists(&self, probe: &Result<String, String>) -> (r: bool)
        ensures
            r == probe.is_ok(),
    {
        probe.is_ok()
    }

    /// Resolves the repository root from the captured outputs of the
    /// toplevel and common-directory queries.
    pub fn repo_root(&self, toplevel_out: &str, common_out: &str) -> (r: String)
        ensures
            r@ == spec_repo_root(toplevel_out@, common_out@),
    {
        let top = trim(toplevel_out);
        let c = trim(common_out);
        let relative = c.as_str().unicode_len() == 0 || c.as_str().get_char(0) != '/';
        let abs = if relative {
            join_path(top.as_str(), c.as_str())
        } else {
            c
        };
        match root_from_common_dir(abs.as_str()) {
            Some(root) => root,
            None => top,
        }
    }

    /// Parses the machine-readable worktree listing into the ordered
    /// registry of records.
    pub fn worktrees(&self, listing: &str) -> (r: Vec<Worktree>)
        ensures
            wt_seq_view(r@) == spec_worktrees(listing@),
            r@.len() == spec_worktrees(listing@).len(),
    {
        let lines = split_lines(listing);
        let ghost lv = spec_lines(listing@);
        let n = lines.len();
        let mut result: Vec<Worktree> = Vec::new();
        let mut current: Option<Worktree> = None;
        let mut i: usize = 0;
        proof {
            assert(lv.take(0) =~= Seq::<Seq<char>>::empty());
            assert(wt_seq_view(result@) =~= Seq::<WorktreeView>::empty());
        }
        while i < n
            invariant
                0 <= i <= n,
                n == lines@.len(),
                lv == spec_lines(listing@),
                lines@.len() == lv.len(),
                forall|k: int| 0 <= k < lines@.len() ==> lines@[k]@ == lv[k],
                wt_seq_view(result@) == parse_run(lv.take(i as int)).done,
                opt_wt_view(current) == parse_run(lv.take(i as int)).cur,
            decreases n - i,
        {
            proof {
                assert(lv.take(i + 1).drop_last() =~= lv.take(i as int));
                assert(lv.take(i + 1).last() == lv[i as int]);
            }
            let line = &lines[i];
            if starts_with(line.as_str(), "worktree ") {
                match current.take() {
                    Some(wt) => {
                        push_record(&mut result, wt);
                    },
                    None => {},
                }
                current = Some(
                    Worktree {
                        path: strip_prefix_repeat(line.as_str(), "worktree "),
                        branch: None,
                        head: None,
                    },
                );
            } else if starts_with(line.as_str(), "branch ") {
                match current.take() {
                    Some(wt) => {
                        let value = trim(strip_prefix_repeat(line.as_str(), "branch ").as_str());
                        current = Some(
                            Worktree { path: wt.path, branch: Some(value), head: wt.head },
                        );
                    },
                    None => {},
                }
            } else if starts_with(line.as_str(), "HEAD ") {
                match current.take() {
                    Some(wt) => {
                        let value = trim(strip_prefix_repeat(line.as_str(), "HEAD ").as_str());
                        current = Some(
                            Worktree { path: wt.path, branch: wt.branch, head: Some(value) },
                        );
                    },
                    None => {},
                }
            }
            i = i + 1;
        }
        proof {
            assert(lv.take(n as int) =~= lv);
        }
        match current {
            Some(wt) => {
                push_record(&mut result, wt);
            },
            None => {},
        }
        result
    }

    /// Resolves the base branch from the probe snapshot and the optional
    /// explicit override; see `spec_resolve_base` for the chain.
    pub fn resolve_base(&self, probes: &RefProbes, default_base: Option<String>) -> (r: Result<
        String,
        String,
    >)
        ensures
            result_view(r) == spec_resolve_base(opt_view(default_base), probes@),
    {
        match default_base {
            Some(b) => {
                return Ok(b);
            },
            None => {},
        }
        match &probes.origin_head {
            Some(out) => {
                let trimmed = trim(out.as_str());
                let candidate = strip_prefix_repeat(trimmed.as_str(), "refs/remotes/origin/");
                if candidate.as_str().unicode_len() > 0 {
                    return Ok(candidate);
                }
            },
            None => {},
        }
        if probes.local_main || probes.origin_main {
            return Ok("main".to_owned());
        }
        if probes.local_master || probes.origin_master {
            return Ok("master".to_owned());
        }
        match &probes.current_branch {
            Ok(c) => Ok(trim(c.as_str())),
            Err(e) => Err(e.clone()),
        }
    }
}

/// Spec-level view of an optional worktree record.
pub open spec fn opt_wt_view(o: Option<Worktree>) -> Option<WorktreeView> {
    match o {
        Some(w) => Some(w@),
        None => None,
    }
}

// ---------------------------------------------------------------------------
// Laws of the parser
// ---------------------------------------------------------------------------

proof fn lemma_parse_run_push(lines: Seq<Seq<char>>, l: Seq<char>)
    ensures
        parse_run(lines.push(l)) == parse_step(parse_run(lines), l),
{
    assert(lines.push(l).drop_last() =~= lines);
    assert(lines.push(l).last() == l);
}

/// Parsing is deterministic: two registries parsed from the same listing
/// are equal, element for element.
pub proof fn lemma_parser_idempotent(text: Seq<char>, a: Seq<WorktreeView>, b: Seq<WorktreeView>)
    requires
        a == spec_worktrees(text),
        b == spec_worktrees(text),
    ensures
        a == b,
{
}

/// The empty listing parses to the empty registry.
pub proof fn lemma_parser_empty()
    ensures
        spec_worktrees(Seq::empty()) == Seq::<WorktreeView>::empty(),
{
}

/// The paths of the `worktree ` marker lines, in the order they occur.
pub open spec fn marker_paths(lines: Seq<Seq<char>>) -> Seq<Seq<char>>
    decreases lines.len(),
{
    if lines.len() == 0 {
        Seq::empty()
    } else {
        let rest = marker_paths(lines.drop_last());
        if has_prefix(lines.last(), "worktree "@) {
            rest.push(strip_prefix_all(lines.last(), "worktree "@))
        } else {
            rest
        }
    }
}

/// No two of the names are equal.
pub open spec fn distinct_names(s: Seq<Seq<char>>) -> bool {
    forall|i: int, j: int| 0 <= i < j < s.len() ==> s[i] != s[j]
}

proof fn lemma_keep_others_absent(s: Seq<WorktreeView>, q: Seq<char>)
    requires
        forall|i: int| 0 <= i < s.len() ==> s[i].path != q,
    ensures
        keep_others(s, q) == s,
    decreases s.len(),
{
    if s.len() == 0 {
        assert(keep_others(s, q) =~= s);
    } else {
        lemma_keep_others_absent(s.drop_last(), q);
        assert(keep_others(s.drop_last(), q).push(s.last()) =~= s);
    }
}

/// Order preservation: on a listing whose blocks carry pairwise distinct
/// paths, the registry holds exactly one record per marker line, in the
/// listing's order, and the k-th record's path comes from the k-th marker
/// line. (On duplicate paths the later block supersedes the earlier one
/// instead, so such inputs are left out here.)
pub proof fn lemma_parser_order(lines: Seq<Seq<char>>)
    requires
        distinct_names(marker_paths(lines)),
    ensures
        finish_parse(parse_run(lines)).len() == marker_paths(lines).len(),
        forall|k: int|
            0 <= k < marker_paths(lines).len() ==> finish_parse(parse_run(lines))[k].path
                == marker_paths(lines)[k],
    decreases lines.len(),
{
    if lines.len() == 0 {
    } else {
        let dl = lines.drop_last();
        let l = lines.last();
        let mp = marker_paths(lines);
        let mpd = marker_paths(dl);
        assert(distinct_names(mpd)) by {
            if has_prefix(l, "worktree "@) {
                assert(forall|i: int| 0 <= i < mpd.len() ==> mpd[i] == mp[i]);
            }
        }
        lemma_parser_order(dl);
        let st = parse_run(dl);
        let prev = finish_parse(st);
        let out = finish_parse(parse_run(lines));
        if has_prefix(l, "worktree "@) {
            let p = strip_prefix_all(l, "worktree "@);
            let w = WorktreeView { path: p, branch: None, head: None };
            assert(mp =~= mpd.push(p));
            assert forall|i: int| 0 <= i < prev.len() implies prev[i].path != p by {
                assert(prev[i].path == mpd[i]);
                assert(mp[i] == mpd[i]);
                assert(mp[mpd.len() as int] == p);
            }
            lemma_keep_others_absent(prev, p);
            assert(out == supersede(prev, w));
            assert(out =~= prev.push(w));
        } else if has_prefix(l, "branch "@) || has_prefix(l, "HEAD "@) {
            match st.cur {
                None => {
                    assert(out == prev);
                },
                Some(w) => {
                    assert(out.len() == prev.len());
                    assert forall|k: int| 0 <= k < out.len() implies out[k].path == prev[k].path by {
                        let kept = keep_others(st.done, w.path);
                        if k < kept.len() {
                            assert(out[k] == kept[k]);
                            assert(prev[k] == kept[k]);
                        }
                    }
                },
            }
        } else {
            assert(parse_run(lines) == st);
        }
    }
}

/// Order preservation over a whole listing: when its blocks carry pairwise
/// distinct paths, the registry parsed from the text holds one record per
/// `worktree ` line, in the text's order, each record's path taken from its
/// own marker line.
pub proof fn lemma_parser_order_text(text: Seq<char>)
    requires
        distinct_names(marker_paths(spec_lines(text))),
    ensures
        spec_worktrees(text).len() == marker_paths(spec_lines(text)).len(),
        forall|k: int|
            0 <= k < marker_paths(spec_lines(text)).len() ==> spec_worktrees(text)[k].path
                == marker_paths(spec_lines(text))[k],
{
    lemma_parser_order(spec_lines(text));
}

/// No two of the records share a path.
pub open spec fn distinct_paths(s: Seq<WorktreeView>) -> bool {
    forall|i: int, j: int| 0 <= i < j < s.len() ==> s[i].path != s[j].path
}

proof fn lemma_keep_others_sound(s: Seq<WorktreeView>, q: Seq<char>)
    ensures
        forall|i: int| 0 <= i < keep_others(s, q).len() ==> keep_others(s, q)[i].path != q,
        forall|i: int| 0 <= i < keep_others(s, q).len() ==> s.contains(keep_others(s, q)[i]),
        distinct_paths(s) ==> distinct_paths(keep_others(s, q)),
    decreases s.len(),
{
    if s.len() == 0 {
    } else {
        let dl = s.drop_last();
        lemma_keep_others_sound(dl, q);
        assert forall|i: int| 0 <= i < keep_others(dl, q).len() implies s.contains(
            keep_others(dl, q)[i],
        ) by {
            let e = keep_others(dl, q)[i];
            assert(dl.contains(e));
            let w = choose|w: int| 0 <= w < dl.len() && dl[w] == e;
            assert(s[w] == e);
        }
        if distinct_paths(s) {
            assert(distinct_paths(dl));
        }
        if s.last().path == q {
        } else {
            let kept = keep_others(dl, q).push(s.last());
            assert(s.contains(s.last())) by {
                assert(s[s.len() - 1] == s.last());
            }
            if distinct_paths(s) {
                assert forall|a: int, b: int| 0 <= a < b < kept.len() implies kept[a].path
                    != kept[b].path by {
                    if b < keep_others(dl, q).len() {
                        assert(kept[a] == keep_others(dl, q)[a]);
                        assert(kept[b] == keep_others(dl, q)[b]);
                    } else {
                        assert(kept[b] == s.last());
                        let e = keep_others(dl, q)[a];
                        assert(dl.contains(e));
                        let w = choose|w: int| 0 <= w < dl.len() && dl[w] == e;
                        assert(s[w] == e);
                        assert(s[w].path != s[s.len() - 1].path);
                    }
                }
            }
        }
    }
}

proof fn lemma_supersede_distinct(s: Seq<WorktreeView>, w: WorktreeView)
    requires
        distinct_paths(s),
    ensures
        distinct_paths(supersede(s, w)),
{
    lemma_keep_others_sound(s, w.path);
    let kept = keep_others(s, w.path);
    assert forall|a: int, b: int| 0 <= a < b < kept.push(w).len() implies kept.push(w)[a].path
        != kept.push(w)[b].path by {
        if b < kept.len() {
            assert(kept.push(w)[a] == kept[a]);
            assert(kept.push(w)[b] == kept[b]);
        } else {
            assert(kept.push(w)[b] == w);
            assert(kept.push(w)[a] == kept[a]);
        }
    }
}

proof fn lemma_registry_distinct(lines: Seq<Seq<char>>)
    ensures
        distinct_paths(parse_run(lines).done),
        distinct_paths(finish_parse(parse_run(lines))),
    decreases lines.len(),
{
    if lines.len() == 0 {
    } else {
        lemma_registry_distinct(lines.drop_last());
        let st = parse_run(lines.drop_last());
        let l = lines.last();
        if has_prefix(l, "worktree "@) {
            let w = WorktreeView {
                path: strip_prefix_all(l, "worktree "@),
                branch: None,
                head: None,
            };
            lemma_supersede_distinct(finish_parse(st), w);
        } else if has_prefix(l, "branch "@) || has_prefix(l, "HEAD "@) {
            match parse_run(lines).cur {
                None => {},
                Some(w2) => {
                    lemma_supersede_distinct(st.done, w2);
                },
            }
        } else {
        }
    }
}

/// The registry invariant: no two records of a parsed registry share a
/// path; on duplicate blocks the later record silently supersedes the
/// earlier one.
pub proof fn lemma_registry_unique_paths(text: Seq<char>)
    ensures
        distinct_paths(spec_worktrees(text)),
{
    lemma_registry_distinct(spec_lines(text));
}

/// A line is recognized when it carries one of the three markers.
pub open spec fn recognized(line: Seq<char>) -> bool {
    has_prefix(line, "worktree "@) || has_prefix(line, "branch "@) || has_prefix(line, "HEAD "@)
}

/// The lines of a listing with every unrecognized line removed.
pub open spec fn drop_unrecognized(lines: Seq<Seq<char>>) -> Seq<Seq<char>>
    decreases lines.len(),
{
    if lines.len() == 0 {
        Seq::empty()
    } else {
        let rest = drop_unrecognized(lines.drop_last());
        if recognized(lines.last()) {
            rest.push(lines.last())
        } else {
            rest
        }
    }
}

/// Robustness: unrecognized lines interleaved between recognized ones do
/// not change the parse; the listing and the listing with those lines
/// removed yield the same registry.
pub proof fn lemma_parser_robust(lines: Seq<Seq<char>>)
    ensures
        parse_run(drop_unrecognized(lines)) == parse_run(lines),
        finish_parse(parse_run(drop_unrecognized(lines))) == finish_parse(parse_run(lines)),
    decreases lines.len(),
{
    if lines.len() == 0 {
    } else {
        lemma_parser_robust(lines.drop_last());
        if recognized(lines.last()) {
            lemma_parse_run_push(drop_unrecognized(lines.drop_last()), lines.last());
        }
    }
}

// ---------------------------------------------------------------------------
// Laws of root resolution
// ---------------------------------------------------------------------------

/// Root resolution consistency: the main worktree's common directory
/// decomposes into the root's components followed by `.git`; a linked
/// worktree's into the same components followed by `.git`, `worktrees` and
/// the worktree's name. Both resolve to the same repository root. The one
/// input left out is a worktree named `.git` itself, on which the deeper
/// match wins and the two walks part ways.
pub proof fn lemma_root_consistency(
    root_comps: Seq<Seq<char>>,
    name: Seq<char>,
    main_common: Seq<char>,
    linked_common: Seq<char>,
)
    requires
        root_comps.len() >= 1,
        name != ".git"@,
        spec_components(main_common) == root_comps + seq![".git"@],
        spec_components(linked_common) == root_comps + seq![".git"@, "worktrees"@, name],
    ensures
        spec_root_from_common(main_common) == spec_root_from_common(linked_common),
        spec_root_from_common(main_common) == Some(spec_unsplit(root_comps)),
{
    let c1 = root_comps + seq![".git"@];
    assert(c1.last() == ".git"@);
    assert(c1.drop_last() =~= root_comps);
    assert(spec_root_components(c1) == Some(root_comps));
    let c2 = root_comps + seq![".git"@, "worktrees"@, name];
    let c2b = root_comps + seq![".git"@, "worktrees"@];
    assert(c2.last() == name);
    assert(c2.drop_last() =~= c2b);
    assert(c2b.last() == "worktrees"@);
    reveal_strlit("worktrees");
    reveal_strlit(".git");
    assert("worktrees"@.len() != ".git"@.len());
    assert(c2b.drop_last() =~= c1);
    assert(spec_root_components(c2b) == spec_root_components(c1));
    assert(spec_root_components(c2) == spec_root_components(c2b));
    assert(spec_root_from_common(main_common) == Some(spec_unsplit(root_comps)));
    assert(spec_root_from_common(linked_common) == Some(spec_unsplit(root_comps)));
}

/// Root resolution consistency over the paths themselves: the main
/// worktree's common administrative directory is `<root>/.git`, a linked
/// worktree's is `<root>/.git/worktrees/<name>`, and both resolve to the
/// root. The one input left out is a worktree whose directory name is
/// `.git` itself, on which the deeper match wins and the two walks part
/// ways.
pub proof fn lemma_root_consistency_text(root: Seq<char>, name: Seq<char>)
    requires
        name != ".git"@,
        forall|k: int| 0 <= k < name.len() ==> name[k] != '/',
    ensures
        spec_root_from_common(root + "/.git"@) == Some(root),
        spec_root_from_common(root + "/.git/worktrees/"@ + name) == Some(root),
{
    reveal_strlit("/.git");
    reveal_strlit("/.git/worktrees/");
    reveal_strlit(".git");
    reveal_strlit("worktrees");
    assert("/.git"@ =~= seq!['/'] + ".git"@);
    assert("/.git/worktrees/"@ =~= seq!['/'] + ".git"@ + seq!['/'] + "worktrees"@ + seq!['/']);
    assert(forall|k: int| 0 <= k < ".git"@.len() ==> ".git"@[k] != '/');
    assert(forall|k: int| 0 <= k < "worktrees"@.len() ==> "worktrees"@[k] != '/');
    crate::text::lemma_slash_run_noslash(".git"@);
    crate::text::lemma_slash_run_noslash("worktrees"@);
    crate::text::lemma_slash_run_noslash(name);
    assert(spec_components(".git"@) =~= seq![".git"@]);
    assert(spec_components("worktrees"@) =~= seq!["worktrees"@]);
    assert(spec_components(name) =~= seq![name]);

    let main_common = root + "/.git"@;
    assert(main_common =~= root + seq!['/'] + ".git"@);
    crate::text::lemma_components_concat(root, ".git"@);
    assert(spec_components(main_common) =~= spec_components(root) + seq![".git"@]);

    let linked_common = root + "/.git/worktrees/"@ + name;
    let tail = "worktrees"@ + seq!['/'] + name;
    let b = ".git"@ + seq!['/'] + tail;
    assert(linked_common =~= root + seq!['/'] + b);
    crate::text::lemma_components_concat("worktrees"@, name);
    crate::text::lemma_components_concat(".git"@, tail);
    crate::text::lemma_components_concat(root, b);
    assert(spec_components(b) =~= seq![".git"@, "worktrees"@, name]);
    assert(spec_components(linked_common) =~= spec_components(root) + seq![
        ".git"@,
        "worktrees"@,
        name,
    ]);

    lemma_root_consistency(spec_components(root), name, main_common, linked_common);
    crate::text::lemma_unsplit_components(root);
}

// ---------------------------------------------------------------------------
// Laws of base resolution
// ---------------------------------------------------------------------------

/// Override precedence: an explicit override is returned verbatim,
/// whatever the repository's probes say.
pub proof fn lemma_base_override(p: RefProbesView, b: Seq<char>)
    ensures
        spec_resolve_base(Some(b), p) == Ok::<Seq<char>, Seq<char>>(b),
{
}

/// Fallback ordering: with no override, no usable remote default and no
/// `main`, an existing `master` wins over the current branch.
pub proof fn lemma_base_master_before_current(p: RefProbesView)
    requires
        origin_candidate(p).len() == 0,
        !p.local_main,
        !p.origin_main,
        p.local_master || p.origin_master,
    ensures
        spec_resolve_base(None, p) == Ok::<Seq<char>, Seq<char>>("master"@),
{
}

/// Final fallback: when every earlier rule declines, the current branch of
/// the repository root is returned, trimmed.
pub proof fn lemma_base_final_fallback(p: RefProbesView, c: Seq<char>)
    requires
        origin_candidate(p).len() == 0,
        !p.local_main,
        !p.origin_main,
        !p.local_master,
        !p.origin_master,
        p.current_branch == Ok::<Seq<char>, Seq<char>>(c),
    ensures
        spec_resolve_base(None, p) == Ok::<Seq<char>, Seq<char>>(spec_trim(c)),
{
}

/// The resolver fails exactly when every fallback is exhausted and the
/// current-branch query itself failed; the error is that query's text.
pub proof fn lemma_base_failure(default_base: Option<Seq<char>>, p: RefProbesView)
    ensures
        spec_resolve_base(default_base, p) is Err <==> (default_base is None && origin_candidate(
            p,
        ).len() == 0 && !p.local_main && !p.origin_main && !p.local_master && !p.origin_master
            && p.current_branch is Err),
        spec_resolve_base(default_base, p) is Err ==> spec_resolve_base(default_base, p)
            == Err::<Seq<char>, Seq<char>>(p.current_branch->Err_0),
{
}

} // verus!
