//! String primitives the resolvers are specified with: whitespace trimming,
//! repeated-prefix stripping, splitting into lines and into path components.
//! Each executable function is proved equal to its specification model.

use vstd::prelude::*;

verus! {

// ---------------------------------------------------------------------------
// Whitespace and trimming
// ---------------------------------------------------------------------------

/// The whitespace characters this crate trims (the ones the external tool
/// can emit around its output: blanks, tabs and line endings).
pub open spec fn is_wspace(c: char) -> bool {
    c == ' ' || c == '\t' || c == '\n' || c == '\r'
}

pub open spec fn trim_start_rec(s: Seq<char>) -> Seq<char>
    decreases s.len(),
{
    if s.len() > 0 && is_wspace(s[0]) {
        trim_start_rec(s.drop_first())
    } else {
        s
    }
}

pub open spec fn trim_end_rec(s: Seq<char>) -> Seq<char>
    decreases s.len(),
{
    if s.len() > 0 && is_wspace(s.last()) {
        trim_end_rec(s.drop_last())
    } else {
        s
    }
}

/// The model of trimming: whitespace removed from both ends.
pub open spec fn spec_trim(s: Seq<char>) -> Seq<char> {
    trim_end_rec(trim_start_rec(s))
}

proof fn lemma_trim_start_skip(s: Seq<char>, i: int)
    requires
        0 <= i <= s.len(),
        forall|j: int| 0 <= j < i ==> is_wspace(s[j]),
        i == s.len() || !is_wspace(s[i]),
    ensures
        trim_start_rec(s) == s.skip(i),
    decreases i,
{
    if i == 0 {
        assert(s.skip(0) =~= s);
    } else {
        lemma_trim_start_skip(s.drop_first(), i - 1);
        assert(s.drop_first().skip(i - 1) =~= s.skip(i));
    }
}

proof fn lemma_trim_end_take(s: Seq<char>, j: int)
    requires
        0 <= j <= s.len(),
        forall|k: int| j <= k < s.len() ==> is_wspace(s[k]),
        j == 0 || !is_wspace(s[j - 1]),
    ensures
        trim_end_rec(s) == s.take(j),
    decreases s.len() - j,
{
    if j == s.len() {
        assert(s.take(j) =~= s);
    } else {
        lemma_trim_end_take(s.drop_last(), j);
        assert(s.drop_last().take(j) =~= s.take(j));
    }
}

fn wspace_char(c: char) -> (b: bool)
    ensures
        b == is_wspace(c),
{
    c == ' ' || c == '\t' || c == '\n' || c == '\r'
}

/// Removes leading and trailing whitespace.
pub fn trim(s: &str) -> (r: String)
    ensures
        r@ == spec_trim(s@),
{
    let n = s.unicode_len();
    let mut i: usize = 0;
    while i < n && wspace_char(s.get_char(i))
        invariant
            0 <= i <= n,
            n == s@.len(),
            forall|j: int| 0 <= j < i ==> is_wspace(s@[j]),
        decreases n - i,
    {
        i = i + 1;
    }
    let mut j: usize = n;
    while j > i && wspace_char(s.get_char(j - 1))
        invariant
            i <= j <= n,
            n == s@.len(),
            forall|k: int| j <= k < n ==> is_wspace(s@[k]),
        decreases j,
    {
        j = j - 1;
    }
    proof {
        lemma_trim_start_skip(s@, i as int);
        assert forall|k: int| j - i <= k < s@.skip(i as int).len() implies is_wspace(
            s@.skip(i as int)[k],
        ) by {
            assert(s@.skip(i as int)[k] == s@[k + i]);
        }
        lemma_trim_end_take(s@.skip(i as int), j - i as int);
        assert(s@.skip(i as int).take(j - i as int) =~= s@.subrange(i as int, j as int));
    }
    s.substring_char(i, j).to_owned()
}

// ---------------------------------------------------------------------------
// Prefix tests and repeated stripping
// ---------------------------------------------------------------------------

/// `p` is an initial segment of `s`.
pub open spec fn has_prefix(s: Seq<char>, p: Seq<char>) -> bool {
    p.len() <= s.len() && s.take(p.len() as int) == p
}

fn str_has_prefix_at(s: &str, from: usize, p: &str) -> (b: bool)
    requires
        from <= s@.len(),
    ensures
        b == has_prefix(s@.skip(from as int), p@),
{
    let n = s.unicode_len();
    let m = p.unicode_len();
    if m > n - from {
        return false;
    }
    let mut k: usize = 0;
    while k < m
        invariant
            0 <= k <= m,
            from + m <= n,
            n == s@.len(),
            m == p@.len(),
            forall|t: int| 0 <= t < k ==> s@[from + t] == p@[t],
        decreases m - k,
    {
        if s.get_char(from + k) != p.get_char(k) {
            proof {
                assert(s@.skip(from as int)[k as int] == s@[from + k as int]);
                assert(s@.skip(from as int).take(m as int)[k as int] == s@[from + k as int]);
            }
            return false;
        }
        k = k + 1;
    }
    proof {
        assert(s@.skip(from as int).take(m as int) =~= p@);
    }
    true
}

/// Whether `s` starts with the prefix `p`.
pub fn starts_with(s: &str, p: &str) -> (b: bool)
    ensures
        b == has_prefix(s@, p@),
{
    let r = str_has_prefix_at(s, 0, p);
    proof {
        assert(s@.skip(0) =~= s@);
    }
    r
}

/// The model of stripping every leading repetition of a (non-empty) prefix.
pub open spec fn strip_prefix_all(s: Seq<char>, p: Seq<char>) -> Seq<char>
    decreases s.len(),
{
    if p.len() > 0 && has_prefix(s, p) {
        strip_prefix_all(s.skip(p.len() as int), p)
    } else {
        s
    }
}

/// Removes every leading repetition of `p` from `s`.
pub fn strip_prefix_repeat(s: &str, p: &str) -> (r: String)
    ensures
        r@ == strip_prefix_all(s@, p@),
{
    let n = s.unicode_len();
    let m = p.unicode_len();
    if m == 0 {
        return s.to_owned();
    }
    let mut from: usize = 0;
    proof {
        assert(s@.skip(0) =~= s@);
    }
    while str_has_prefix_at(s, from, p)
        invariant
            0 <= from <= n,
            n == s@.len(),
            m == p@.len(),
            m > 0,
            strip_prefix_all(s@, p@) == strip_prefix_all(s@.skip(from as int), p@),
        decreases n - from,
    {
        proof {
            assert(s@.skip(from as int).skip(m as int) =~= s@.skip(from + m as int));
        }
        from = from + m;
    }
    proof {
        assert(s@.skip(from as int) =~= s@.subrange(from as int, n as int));
    }
    s.substring_char(from, n).to_owned()
}

// ---------------------------------------------------------------------------
// Splitting into lines
// ---------------------------------------------------------------------------

/// Accumulator for a left-to-right split: finished pieces, and the piece
/// currently being read.
pub ghost struct SplitAcc {
    pub done: Seq<Seq<char>>,
    pub cur: Seq<char>,
}

/// Removes one trailing carriage return, as a line terminated by a newline
/// loses the `\r` of a `\r\n` ending.
pub open spec fn strip_cr(s: Seq<char>) -> Seq<char> {
    if s.len() > 0 && s.last() == '\r' {
        s.drop_last()
    } else {
        s
    }
}

pub open spec fn lines_step(st: SplitAcc, c: char) -> SplitAcc {
    if c == '\n' {
        SplitAcc { done: st.done.push(strip_cr(st.cur)), cur: Seq::empty() }
    } else {
        SplitAcc { done: st.done, cur: st.cur.push(c) }
    }
}

pub open spec fn lines_run(s: Seq<char>) -> SplitAcc
    decreases s.len(),
{
    if s.len() == 0 {
        SplitAcc { done: Seq::empty(), cur: Seq::empty() }
    } else {
        lines_step(lines_run(s.drop_last()), s.last())
    }
}

/// The model of splitting text into lines: pieces end at `\n`, a terminated
/// piece loses one trailing `\r`, and a final unterminated piece is kept
/// as it stands unless it is empty.
pub open spec fn spec_lines(s: Seq<char>) -> Seq<Seq<char>> {
    let st = lines_run(s);
    if st.cur.len() == 0 {
        st.done
    } else {
        st.done.push(st.cur)
    }
}

/// Splits text into lines.
pub fn split_lines(s: &str) -> (lines: Vec<String>)
    ensures
        lines@.len() == spec_lines(s@).len(),
        forall|k: int| 0 <= k < lines@.len() ==> lines@[k]@ == spec_lines(s@)[k],
{
    let n = s.unicode_len();
    let mut out: Vec<String> = Vec::new();
    let mut start: usize = 0;
    let mut i: usize = 0;
    while i < n
        invariant
            0 <= start <= i <= n,
            n == s@.len(),
            out@.len() == lines_run(s@.take(i as int)).done.len(),
            forall|k: int|
                0 <= k < out@.len() ==> out@[k]@ == lines_run(s@.take(i as int)).done[k],
            lines_run(s@.take(i as int)).cur == s@.subrange(start as int, i as int),
        decreases n - i,
    {
        proof {
            assert(s@.take(i + 1).drop_last() =~= s@.take(i as int));
            assert(s@.take(i + 1).last() == s@[i as int]);
        }
        let c = s.get_char(i);
        if c == '\n' {
            let end: usize = if i > start && s.get_char(i - 1) == '\r' {
                i - 1
            } else {
                i
            };
            proof {
                if i > start && s@[i - 1] == '\r' {
                    assert(s@.subrange(start as int, i as int).last() == s@[i - 1]);
                    assert(s@.subrange(start as int, i as int).drop_last() =~= s@.subrange(
                        start as int,
                        end as int,
                    ));
                }
                assert(strip_cr(s@.subrange(start as int, i as int)) == s@.subrange(
                    start as int,
                    end as int,
                ));
            }
            out.push(s.substring_char(start, end).to_owned());
            start = i + 1;
            proof {
                assert(s@.subrange(start as int, start as int) =~= Seq::<char>::empty());
            }
        } else {
            proof {
                assert(s@.subrange(start as int, i + 1) =~= s@.subrange(
                    start as int,
                    i as int,
                ).push(s@[i as int]));
            }
        }
        i = i + 1;
    }
    proof {
        assert(s@.take(n as int) =~= s@);
    }
    if start < n {
        out.push(s.substring_char(start, n).to_owned());
    }
    out
}

// ---------------------------------------------------------------------------
// Path components
// ---------------------------------------------------------------------------

pub open spec fn slash_step(st: SplitAcc, c: char) -> SplitAcc {
    if c == '/' {
        SplitAcc { done: st.done.push(st.cur), cur: Seq::empty() }
    } else {
        SplitAcc { done: st.done, cur: st.cur.push(c) }
    }
}

pub open spec fn slash_run(s: Seq<char>) -> SplitAcc
    decreases s.len(),
{
    if s.len() == 0 {
        SplitAcc { done: Seq::empty(), cur: Seq::empty() }
    } else {
        slash_step(slash_run(s.drop_last()), s.last())
    }
}

/// The model of splitting a path on `/`: always at least one component,
/// empty components kept (an absolute path starts with an empty one).
pub open spec fn spec_components(s: Seq<char>) -> Seq<Seq<char>> {
    let st = slash_run(s);
    st.done.push(st.cur)
}

/// Splits a path into its `/`-separated components.
pub fn split_components(s: &str) -> (comps: Vec<String>)
    ensures
        comps@.len() == spec_components(s@).len(),
        forall|k: int| 0 <= k < comps@.len() ==> comps@[k]@ == spec_components(s@)[k],
        comps@.len() >= 1,
{
    let n = s.unicode_len();
    let mut out: Vec<String> = Vec::new();
    let mut start: usize = 0;
    let mut i: usize = 0;
    while i < n
        invariant
            0 <= start <= i <= n,
            n == s@.len(),
            out@.len() == slash_run(s@.take(i as int)).done.len(),
            forall|k: int|
                0 <= k < out@.len() ==> out@[k]@ == slash_run(s@.take(i as int)).done[k],
            slash_run(s@.take(i as int)).cur == s@.subrange(start as int, i as int),
        decreases n - i,
    {
        proof {
            assert(s@.take(i + 1).drop_last() =~= s@.take(i as int));
            assert(s@.take(i + 1).last() == s@[i as int]);
        }
        let c = s.get_char(i);
        if c == '/' {
            out.push(s.substring_char(start, i).to_owned());
            start = i + 1;
            proof {
                assert(s@.subrange(start as int, start as int) =~= Seq::<char>::empty());
            }
        } else {
            proof {
                assert(s@.subrange(start as int, i + 1) =~= s@.subrange(
                    start as int,
                    i as int,
                ).push(s@[i as int]));
            }
        }
        i = i + 1;
    }
    proof {
        assert(s@.take(n as int) =~= s@);
        assert(s@.subrange(start as int, n as int) =~= s@.skip(start as int));
    }
    out.push(s.substring_char(start, n).to_owned());
    out
}

/// The model of reassembling components with `/` separators.
pub open spec fn spec_unsplit(c: Seq<Seq<char>>) -> Seq<char>
    decreases c.len(),
{
    if c.len() == 0 {
        Seq::empty()
    } else if c.len() == 1 {
        c[0]
    } else {
        spec_unsplit(c.drop_last()) + seq!['/'] + c.last()
    }
}

/// Joins the first `k` components of `comps` with `/` separators.
pub fn unsplit_prefix(comps: &Vec<String>, k: usize) -> (r: String)
    requires
        1 <= k <= comps@.len(),
    ensures
        r@ == spec_unsplit(comps@.map(|i: int, s: String| s@).take(k as int)),
{
    let ghost cv = comps@.map(|i: int, s: String| s@);
    let mut r: String = comps[0].clone();
    let mut t: usize = 1;
    proof {
        assert(cv.take(1) =~= seq![cv[0]]);
        assert(spec_unsplit(cv.take(1)) == cv[0]);
    }
    while t < k
        invariant
            1 <= t <= k <= comps@.len(),
            cv == comps@.map(|i: int, s: String| s@),
            r@ == spec_unsplit(cv.take(t as int)),
        decreases k - t,
    {
        let piece = r.concat("/");
        r = piece.concat(comps[t].as_str());
        proof {
            reveal_strlit("/");
            assert("/"@ =~= seq!['/']);
            assert(cv.take(t + 1).drop_last() =~= cv.take(t as int));
            assert(cv.take(t + 1).last() == cv[t as int]);
            assert(spec_unsplit(cv.take(t + 1)) == spec_unsplit(cv.take(t as int)) + seq!['/']
                + cv[t as int]);
        }
        t = t + 1;
    }
    r
}

proof fn lemma_unsplit_push_char(d: Seq<Seq<char>>, u: Seq<char>, c: char)
    ensures
        spec_unsplit(d.push(u.push(c))) == spec_unsplit(d.push(u)).push(c),
{
    if d.len() == 0 {
        assert(d.push(u.push(c)) =~= seq![u.push(c)]);
        assert(d.push(u) =~= seq![u]);
    } else {
        assert(d.push(u.push(c)).drop_last() =~= d);
        assert(d.push(u).drop_last() =~= d);
        assert(spec_unsplit(d) + seq!['/'] + u.push(c) =~= (spec_unsplit(d) + seq!['/']
            + u).push(c));
    }
}

/// Reassembling the components of a path gives the path back.
pub proof fn lemma_unsplit_components(s: Seq<char>)
    ensures
        spec_unsplit(spec_components(s)) == s,
    decreases s.len(),
{
    if s.len() == 0 {
        assert(spec_components(s) =~= seq![Seq::<char>::empty()]);
    } else {
        let s0 = s.drop_last();
        let c = s.last();
        lemma_unsplit_components(s0);
        let st0 = slash_run(s0);
        if c == '/' {
            assert(spec_components(s) =~= spec_components(s0).push(Seq::<char>::empty()));
            assert(spec_components(s0).push(Seq::<char>::empty()).drop_last() =~= spec_components(
                s0,
            ));
            assert(s0 + seq!['/'] + Seq::<char>::empty() =~= s);
        } else {
            lemma_unsplit_push_char(st0.done, st0.cur, c);
            assert(st0.done.push(st0.cur.push(c)) =~= spec_components(s));
            assert(st0.done.push(st0.cur) =~= spec_components(s0));
            assert(s0.push(c) =~= s);
        }
    }
}

/// A text without separators is a single component.
pub proof fn lemma_slash_run_noslash(s: Seq<char>)
    requires
        forall|k: int| 0 <= k < s.len() ==> s[k] != '/',
    ensures
        slash_run(s).done == Seq::<Seq<char>>::empty(),
        slash_run(s).cur == s,
    decreases s.len(),
{
    if s.len() == 0 {
    } else {
        lemma_slash_run_noslash(s.drop_last());
        assert(s.drop_last().push(s.last()) =~= s);
    }
}

proof fn lemma_slash_run_concat(a: Seq<char>, b: Seq<char>)
    ensures
        slash_run(a + seq!['/'] + b).done == spec_components(a) + slash_run(b).done,
        slash_run(a + seq!['/'] + b).cur == slash_run(b).cur,
    decreases b.len(),
{
    if b.len() == 0 {
        assert(a + seq!['/'] + b =~= a.push('/'));
        assert(a.push('/').drop_last() =~= a);
        assert(slash_run(a + seq!['/'] + b).done =~= spec_components(a) + slash_run(b).done);
    } else {
        let b0 = b.drop_last();
        let c = b.last();
        lemma_slash_run_concat(a, b0);
        let x = a + seq!['/'] + b0;
        assert(a + seq!['/'] + b =~= x.push(c));
        assert(x.push(c).drop_last() =~= x);
        assert(b0.push(c) =~= b);
        assert(slash_run(x.push(c)).done =~= spec_components(a) + slash_run(b).done);
    }
}

/// Splitting distributes over a separator: the components of
/// `a + "/" + b` are the components of `a` followed by those of `b`.
pub proof fn lemma_components_concat(a: Seq<char>, b: Seq<char>)
    ensures
        spec_components(a + seq!['/'] + b) == spec_components(a) + spec_components(b),
{
    lemma_slash_run_concat(a, b);
    assert(spec_components(a + seq!['/'] + b) =~= spec_components(a) + spec_components(b));
}

/// The model of joining a base path and a relative path.
pub open spec fn spec_join(base: Seq<char>, rel: Seq<char>) -> Seq<char> {
    if base.len() == 0 {
        rel
    } else if base.last() == '/' {
        base + rel
    } else {
        base + seq!['/'] + rel
    }
}

/// Joins a base path and a relative path with a `/` separator.
pub fn join_path(base: &str, rel: &str) -> (r: String)
    ensures
        r@ == spec_join(base@, rel@),
{
    let n = base.unicode_len();
    if n == 0 {
        return rel.to_owned();
    }
    if base.get_char(n - 1) == '/' {
        return base.to_owned().concat(rel);
    }
    let r = base.to_owned().concat("/").concat(rel);
    proof {
        reveal_strlit("/");
        assert("/"@ =~= seq!['/']);
        assert(base@ + "/"@ + rel@ =~= base@ + seq!['/'] + rel@);
    }
    r
}

/// Compares two string slices character by character.
pub fn str_eq(a: &str, b: &str) -> (r: bool)
    ensures
        r == (a@ == b@),
{
    let n = a.unicode_len();
    let m = b.unicode_len();
    if n != m {
        return false;
    }
    let mut k: usize = 0;
    while k < n
        invariant
            0 <= k <= n,
            n == a@.len(),
            n == b@.len(),
            forall|t: int| 0 <= t < k ==> a@[t] == b@[t],
        decreases n - k,
    {
        if a.get_char(k) != b.get_char(k) {
            return false;
        }
        k = k + 1;
    }
    proof {
        assert(a@ =~= b@);
    }
    true
}

} // verus!
