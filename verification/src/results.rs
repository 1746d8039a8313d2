//! Search results: turning candidate rows into results, grouping line
//! matches by file, and the final ranking, de-duplication and paging of
//! the results gathered from every source.
use vstd::prelude::*;
use crate::http::ContextLine;
use crate::text::{to_chars, string_from_chars, has_prefix_at};
use crate::index::opt_view;

verus! {

/// How a query is matched.
#[derive(Clone, Copy, Debug, PartialEq, Eq, Structural)]
pub enum SearchMode {
    Fuzzy,
    Exact,
    Regex,
    Document,
    DocExact,
    DocRegex,
    FileFuzzy,
    FileExact,
    FileRegex,
}

impl SearchMode {
    /// The `file-*` modes, which match file names only.
    pub open spec fn filename_only_spec(self) -> bool {
        self == SearchMode::FileFuzzy || self == SearchMode::FileExact || self == SearchMode::FileRegex
    }

    /// Whether this mode matches file names only (line 0 rows).
    pub fn is_filename_only(&self) -> (b: bool)
        ensures
            b == self.filename_only_spec(),
    {
        match self {
            SearchMode::FileFuzzy | SearchMode::FileExact | SearchMode::FileRegex => true,
            _ => false,
        }
    }
}

/// One candidate line found by the full-text index.
pub struct CandidateRow {
    /// Outer path (before the first `::`).
    pub file_path: String,
    pub file_kind: String,
    /// For archive members: the part after the first `::`.
    pub archive_path: Option<String>,
    pub line_number: usize,
    pub content: String,
    pub mtime: i64,
    pub size: Option<i64>,
    /// The file's row id.
    pub file_id: i64,
}

/// One search result.
pub struct SearchResult {
    pub source: String,
    pub path: String,
    pub archive_path: Option<String>,
    pub line_number: usize,
    pub snippet: String,
    pub score: u32,
    pub kind: String,
    pub mtime: i64,
    pub size: Option<i64>,
    pub context_lines: Vec<ContextLine>,
    pub duplicate_paths: Vec<String>,
    pub extra_matches: Vec<ContextLine>,
}

/// One document-mode group: the best-ranked line of a file and the file's
/// other candidate lines.
pub struct DocumentGroup {
    pub representative: CandidateRow,
    pub members: Vec<CandidateRow>,
}

/// A result with the id of the file it came from.
pub struct ScoredResult {
    pub result: SearchResult,
    pub file_id: i64,
}

/// The marker of a file-name row: `[PATH] `.
pub open spec fn path_tag() -> Seq<char> {
    seq!['[', 'P', 'A', 'T', 'H', ']', ' ']
}

/// The snippet shown for a line: its content without a leading `[PATH] `.
pub open spec fn snippet_spec(content: Seq<char>) -> Seq<char> {
    if content.len() >= 7 && content.subrange(0, 7) == path_tag() {
        content.subrange(7, content.len() as int)
    } else {
        content
    }
}

/// The snippet of a line (see `snippet_spec`).
pub fn snippet_of(content: &str) -> (r: String)
    ensures
        r@ == snippet_spec(content@),
{
    let v = to_chars(content);
    let tag = vec!['[', 'P', 'A', 'T', 'H', ']', ' '];
    if v.len() >= 7 && has_prefix_at(&v, 0, &tag) {
        assert(tag@ == path_tag());
        string_from_chars(&v, 7, v.len())
    } else {
        proof {
            if v@.len() >= 7 {
                assert(tag@ == path_tag());
                assert(v@.subrange(0, 7) != path_tag());
            }
        }
        string_from_chars(&v, 0, v.len())
    }
}

/// A copy of an optional string.
pub fn copy_opt(o: &Option<String>) -> (r: Option<String>)
    ensures
        r == *o,
{
    match o {
        Some(s) => Some(s.clone()),
        None => None,
    }
}

/// The result built from a candidate whose shown content is `content`:
/// its path, member, line, kind, time and size, the snippet of `content`,
/// the given score, and no context or duplicates yet.
pub open spec fn result_with(r: SearchResult, source: Seq<char>, c: CandidateRow, content: Seq<char>, score: u32) -> bool {
    &&& r.source@ == source
    &&& r.path == c.file_path
    &&& r.archive_path == c.archive_path
    &&& r.line_number == c.line_number
    &&& r.snippet@ == snippet_spec(content)
    &&& r.score == score
    &&& r.kind == c.file_kind
    &&& r.mtime == c.mtime
    &&& r.size == c.size
    &&& r.context_lines@.len() == 0
    &&& r.duplicate_paths@.len() == 0
}

/// The result built from a candidate, showing its own content.
pub open spec fn result_from(r: SearchResult, source: Seq<char>, c: CandidateRow, score: u32) -> bool {
    result_with(r, source, c, c.content@, score)
}

/// Builds the result for a candidate row shown with `content`.
pub fn make_result_with(source: &str, c: &CandidateRow, content: &str, score: u32, extra_matches: Vec<ContextLine>) -> (r: SearchResult)
    ensures
        result_with(r, source@, *c, content@, score),
        r.extra_matches == extra_matches,
{
    SearchResult {
        source: source.to_owned(),
        path: c.file_path.clone(),
        archive_path: copy_opt(&c.archive_path),
        line_number: c.line_number,
        snippet: snippet_of(content),
        score,
        kind: c.file_kind.clone(),
        mtime: c.mtime,
        size: c.size,
        context_lines: Vec::new(),
        duplicate_paths: Vec::new(),
        extra_matches,
    }
}

/// Builds the result for a candidate row.
pub fn make_result(source: &str, c: &CandidateRow, score: u32, extra_matches: Vec<ContextLine>) -> (r: SearchResult)
    ensures
        result_from(r, source@, *c, score),
        r.extra_matches == extra_matches,
{
    make_result_with(source, c, c.content.as_str(), score, extra_matches)
}

// ── Grouping line matches by file ────────────────────────────────────────────

/// The position in `g` of the group whose first candidate has file id
/// `id`, searching from `k`; `g.len()` when there is none.
pub open spec fn find_group(c: Seq<CandidateRow>, g: Seq<(int, Seq<int>)>, id: i64, k: int) -> int
    decreases g.len() - k,
{
    if k < 0 || k >= g.len() {
        g.len() as int
    } else if c[g[k].0].file_id == id {
        k
    } else {
        find_group(c, g, id, k + 1)
    }
}

/// The groups of the first `n` candidates: one per file id, in the order
/// of first appearance, each the index of its first candidate and the
/// indices of its later candidates on lines other than 0.
pub open spec fn groups(c: Seq<CandidateRow>, n: int) -> Seq<(int, Seq<int>)>
    decreases n,
{
    if n <= 0 {
        Seq::empty()
    } else {
        let g = groups(c, n - 1);
        let i = n - 1;
        let k = find_group(c, g, c[i].file_id, 0);
        if k == g.len() {
            g.push((i, Seq::empty()))
        } else if c[i].line_number > 0 {
            g.update(k, (g[k].0, g[k].1.push(i)))
        } else {
            g
        }
    }
}

/// The context line of a candidate.
pub open spec fn context_of(c: CandidateRow) -> ContextLine {
    ContextLine { line_number: c.line_number, content: c.content }
}

/// Groups candidate lines by file: one result per file, in the order the
/// files first appear, built from the file's first candidate with score 0;
/// the file's later candidates on lines other than 0 become its extra
/// matches, in order.
pub fn group_by_file(candidates: &Vec<CandidateRow>, source_name: &str) -> (r: Vec<ScoredResult>)
    ensures
        r@.len() == groups(candidates@, candidates@.len() as int).len(),
        forall|k: int| 0 <= k < r@.len() ==> {
            let g = #[trigger] groups(candidates@, candidates@.len() as int)[k];
            &&& r@[k].file_id == candidates@[g.0].file_id
            &&& result_from(r@[k].result, source_name@, candidates@[g.0], 0)
            &&& r@[k].result.extra_matches@ == g.1.map_values(|j: int| context_of(candidates@[j]))
        },
{
    let mut out: Vec<ScoredResult> = Vec::new();
    let mut i: usize = 0;
    while i < candidates.len()
        invariant
            i <= candidates@.len(),
            out@.len() == groups(candidates@, i as int).len(),
            forall|k: int| 0 <= k < out@.len() ==> {
                let g = #[trigger] groups(candidates@, i as int)[k];
                &&& 0 <= g.0 < i
                &&& forall|m: int| 0 <= m < g.1.len() ==> 0 <= #[trigger] g.1[m] < i
                &&& out@[k].file_id == candidates@[g.0].file_id
                &&& result_from(out@[k].result, source_name@, candidates@[g.0], 0)
                &&& out@[k].result.extra_matches@ == g.1.map_values(|j: int| context_of(candidates@[j]))
            },
        decreases candidates@.len() - i,
    {
        let ghost g = groups(candidates@, i as int);
        let c = &candidates[i];
        let mut k: usize = 0;
        while k < out.len() && out[k].file_id != c.file_id
            invariant
                k <= out@.len(),
                out@.len() == g.len(),
                i < candidates@.len(),
                *c == candidates@[i as int],
                forall|m: int| 0 <= m < out@.len() ==> 0 <= (#[trigger] g[m]).0 < i,
                forall|m: int| 0 <= m < out@.len() ==> out@[m].file_id == candidates@[(#[trigger] g[m]).0].file_id,
                find_group(candidates@, g, c.file_id, 0) == find_group(candidates@, g, c.file_id, k as int),
            decreases out@.len() - k,
        {
            k = k + 1;
        }
        assert(find_group(candidates@, g, c.file_id, k as int) == k as int);
        if k == out.len() {
            let res = make_result(source_name, c, 0, Vec::new());
            out.push(ScoredResult { result: res, file_id: c.file_id });
            proof {
                let g2 = groups(candidates@, i + 1);
                assert(g2 == g.push((i as int, Seq::<int>::empty())));
                assert forall|kk: int| 0 <= kk < out@.len() implies {
                    let gg = #[trigger] groups(candidates@, i + 1)[kk];
                    &&& 0 <= gg.0 < i + 1
                    &&& forall|m: int| 0 <= m < gg.1.len() ==> 0 <= #[trigger] gg.1[m] < i + 1
                    &&& out@[kk].file_id == candidates@[gg.0].file_id
                    &&& result_from(out@[kk].result, source_name@, candidates@[gg.0], 0)
                    &&& out@[kk].result.extra_matches@ == gg.1.map_values(|j: int| context_of(candidates@[j]))
                } by {
                    if kk == out@.len() - 1 {
                        assert(out@[kk].result.extra_matches@ =~= Seq::<int>::empty().map_values(|j: int| context_of(candidates@[j])));
                    } else {
                        assert(g2[kk] == g[kk]);
                    }
                }
            }
        } else if c.line_number > 0 {
            let cl = ContextLine { line_number: c.line_number, content: c.content.clone() };
            let ghost old_out = out@;
            out[k].result.extra_matches.push(cl);
            proof {
                let g2 = groups(candidates@, i + 1);
                assert(g2 == g.update(k as int, (g[k as int].0, g[k as int].1.push(i as int))));
                assert forall|kk: int| 0 <= kk < out@.len() implies {
                    let gg = #[trigger] groups(candidates@, i + 1)[kk];
                    &&& 0 <= gg.0 < i + 1
                    &&& forall|m: int| 0 <= m < gg.1.len() ==> 0 <= #[trigger] gg.1[m] < i + 1
                    &&& out@[kk].file_id == candidates@[gg.0].file_id
                    &&& result_from(out@[kk].result, source_name@, candidates@[gg.0], 0)
                    &&& out@[kk].result.extra_matches@ == gg.1.map_values(|j: int| context_of(candidates@[j]))
                } by {
                    if kk == k as int {
                        assert(out@[kk].result.extra_matches@ =~= g2[kk].1.map_values(|j: int| context_of(candidates@[j])));
                    } else {
                        assert(out@[kk] == old_out[kk]);
                        assert(g2[kk] == g[kk]);
                    }
                }
            }
        } else {
            assert(groups(candidates@, i + 1) == g);
        }
        i = i + 1;
    }
    out
}

// ── Ranking, de-duplication and paging ───────────────────────────────────────

/// The identity of a result: source, path, member and line.
pub open spec fn key_of(r: SearchResult) -> (Seq<char>, Seq<char>, Option<Seq<char>>, usize) {
    (r.source@, r.path@, opt_view(r.archive_path), r.line_number)
}

/// `t` (ranked) with `x` placed before the first result whose score is at
/// most its own.
pub open spec fn insert_by_score(t: Seq<SearchResult>, x: SearchResult) -> Seq<SearchResult>
    decreases t.len(),
{
    if t.len() == 0 {
        seq![x]
    } else if t[0].score <= x.score {
        seq![x] + t
    } else {
        seq![t[0]] + insert_by_score(t.drop_first(), x)
    }
}

/// `s` sorted by score, highest first; results with equal scores keep
/// their order (a stable sort).
pub open spec fn rank(s: Seq<SearchResult>) -> Seq<SearchResult>
    decreases s.len(),
{
    if s.len() == 0 {
        s
    } else {
        insert_by_score(rank(s.drop_first()), s[0])
    }
}

/// Whether a result before position `i` has the key of `s[i]`.
pub open spec fn seen_before(s: Seq<SearchResult>, i: int) -> bool {
    exists|j: int| 0 <= j < i && key_of(#[trigger] s[j]) == key_of(s[i])
}

/// `s` with every result whose key occurred earlier removed.
pub open spec fn unique_first(s: Seq<SearchResult>) -> Seq<SearchResult>
    decreases s.len(),
{
    if s.len() == 0 {
        s
    } else if seen_before(s, s.len() - 1) {
        unique_first(s.drop_last())
    } else {
        unique_first(s.drop_last()).push(s.last())
    }
}

/// The page of `u` that starts at `offset` and holds at most `limit`
/// results.
pub open spec fn page_of(u: Seq<SearchResult>, offset: int, limit: int) -> Seq<SearchResult> {
    let lo = if offset < u.len() { offset } else { u.len() as int };
    let hi = if offset + limit < u.len() { offset + limit } else { u.len() as int };
    u.subrange(lo, hi)
}

/// Inserting at the first position whose score is at most `x`'s.
proof fn lemma_insert_at(t: Seq<SearchResult>, x: SearchResult, j: int)
    requires
        0 <= j <= t.len(),
        forall|m: int| 0 <= m < j ==> (#[trigger] t[m]).score > x.score,
        j < t.len() ==> t[j].score <= x.score,
    ensures
        insert_by_score(t, x) == t.insert(j, x),
    decreases t.len(),
{
    if t.len() == 0 {
        assert(t.insert(j, x) =~= seq![x]);
    } else if j == 0 {
        assert(t.insert(0, x) =~= seq![x] + t);
    } else {
        let r = t.drop_first();
        assert forall|m: int| 0 <= m < j - 1 implies (#[trigger] r[m]).score > x.score by {
            assert(r[m] == t[m + 1]);
        }
        lemma_insert_at(r, x, j - 1);
        assert(t.insert(j, x) =~= seq![t[0]] + r.insert(j - 1, x));
    }
}

/// Whether two results have the same key.
fn same_key(a: &SearchResult, b: &SearchResult) -> (r: bool)
    ensures
        r == (key_of(*a) == key_of(*b)),
{
    if a.line_number != b.line_number || a.source != b.source || a.path != b.path {
        return false;
    }
    match (&a.archive_path, &b.archive_path) {
        (Some(x), Some(y)) => *x == *y,
        (None, None) => true,
        _ => false,
    }
}

/// Sorts results by score, highest first, keeping the order of equal
/// scores.
pub fn rank_results(all: Vec<SearchResult>) -> (r: Vec<SearchResult>)
    ensures
        r@ == rank(all@),
{
    let ghost orig = all@;
    let mut rest = all;
    let mut sorted: Vec<SearchResult> = Vec::new();
    while rest.len() > 0
        invariant
            rest@ == orig.subrange(0, rest@.len() as int),
            rest@.len() <= orig.len(),
            sorted@ == rank(orig.subrange(rest@.len() as int, orig.len() as int)),
        decreases rest@.len(),
    {
        let ghost n = rest@.len() as int;
        let x = rest.pop().unwrap();
        assert(x == orig[n - 1]);
        let mut j: usize = 0;
        while j < sorted.len() && sorted[j].score > x.score
            invariant
                j <= sorted@.len(),
                forall|m: int| 0 <= m < j ==> (#[trigger] sorted@[m]).score > x.score,
            decreases sorted@.len() - j,
        {
            j = j + 1;
        }
        proof {
            lemma_insert_at(sorted@, x, j as int);
            let tail = orig.subrange(n - 1, orig.len() as int);
            assert(tail.drop_first() =~= orig.subrange(n, orig.len() as int));
            assert(tail[0] == x);
        }
        sorted.insert(j, x);
        assert(rest@ =~= orig.subrange(0, rest@.len() as int));
    }
    assert(orig.subrange(0, orig.len() as int) =~= orig);
    sorted
}

/// The page and the unique count after processing `s[0..n]`: each result
/// whose key is new is counted, and kept when its position among the
/// unique results falls in `[offset, offset + limit)`.
pub open spec fn pick(s: Seq<SearchResult>, n: int, offset: int, limit: int) -> (Seq<SearchResult>, int)
    decreases n,
{
    if n <= 0 {
        (Seq::empty(), 0)
    } else {
        let (page, count) = pick(s, n - 1, offset, limit);
        if seen_before(s, n - 1) {
            (page, count)
        } else if offset <= count < offset + limit {
            (page.push(s[n - 1]), count + 1)
        } else {
            (page, count + 1)
        }
    }
}

/// `pick` is the page of the unique results.
proof fn lemma_pick(s: Seq<SearchResult>, n: int, offset: int, limit: int)
    requires
        0 <= n <= s.len(),
        offset >= 0,
        limit >= 0,
    ensures
        pick(s, n, offset, limit).1 == unique_first(s.subrange(0, n)).len(),
        pick(s, n, offset, limit).0 == page_of(unique_first(s.subrange(0, n)), offset, limit),
    decreases n,
{
    let t = s.subrange(0, n);
    if n == 0 {
        assert(page_of(unique_first(t), offset, limit) =~= Seq::<SearchResult>::empty());
    } else {
        lemma_pick(s, n - 1, offset, limit);
        let t0 = s.subrange(0, n - 1);
        assert(t.drop_last() =~= t0);
        assert(seen_before(t, n - 1) == seen_before(s, n - 1)) by {
            if seen_before(s, n - 1) {
                let j = choose|j: int| 0 <= j < n - 1 && key_of(#[trigger] s[j]) == key_of(s[n - 1]);
                assert(t[j] == s[j]);
            }
            if seen_before(t, n - 1) {
                let j = choose|j: int| 0 <= j < n - 1 && key_of(#[trigger] t[j]) == key_of(t[n - 1]);
                assert(t[j] == s[j]);
            }
        }
        let u0 = unique_first(t0);
        if !seen_before(s, n - 1) {
            let u = u0.push(s[n - 1]);
            assert(unique_first(t) == u);
            let c = u0.len() as int;
            if offset <= c && c < offset + limit {
                assert(page_of(u, offset, limit) =~= page_of(u0, offset, limit).push(s[n - 1]));
            } else {
                assert(page_of(u, offset, limit) =~= page_of(u0, offset, limit));
            }
        }
    }
}

/// Whether each result has a key that occurred earlier.
fn duplicate_flags(s: &Vec<SearchResult>) -> (r: Vec<bool>)
    ensures
        r@.len() == s@.len(),
        forall|i: int| 0 <= i < s@.len() ==> r@[i] == seen_before(s@, i),
{
    let mut flags: Vec<bool> = Vec::new();
    let mut i: usize = 0;
    while i < s.len()
        invariant
            i <= s@.len(),
            flags@.len() == i,
            forall|m: int| 0 <= m < i ==> flags@[m] == seen_before(s@, m),
        decreases s@.len() - i,
    {
        let mut j: usize = 0;
        let mut seen = false;
        while j < i
            invariant
                j <= i < s@.len(),
                seen == exists|m: int| 0 <= m < j && key_of(#[trigger] s@[m]) == key_of(s@[i as int]),
            decreases i - j,
        {
            if same_key(&s[j], &s[i]) {
                seen = true;
            }
            j = j + 1;
        }
        flags.push(seen);
        i = i + 1;
    }
    flags
}

/// Ranks the results of every source by score (highest first, stable),
/// drops each result whose source, path, member and line occurred earlier,
/// and returns the page `[offset, offset + limit)` of what is left with
/// the number of unique results.
pub fn page_results(all: Vec<SearchResult>, offset: usize, limit: usize) -> (r: (Vec<SearchResult>, usize))
    ensures
        r.0@ == page_of(unique_first(rank(all@)), offset as int, limit as int),
        r.1 == unique_first(rank(all@)).len(),
{
    let ranked = rank_results(all);
    let flags = duplicate_flags(&ranked);
    let ghost s = ranked@;
    let n = ranked.len();
    let mut rest = ranked;
    let mut page: Vec<SearchResult> = Vec::new();
    let mut count: usize = 0;
    let mut i: usize = 0;
    while i < n
        invariant
            n == s.len(),
            flags@.len() == n,
            forall|m: int| 0 <= m < n ==> flags@[m] == seen_before(s, m),
            i <= n,
            rest@ == s.subrange(i as int, n as int),
            (page@, count as int) == pick(s, i as int, offset as int, limit as int),
            count <= i,
        decreases n - i,
    {
        let x = rest.remove(0);
        assert(x == s[i as int]);
        if !flags[i] {
            if offset <= count && count - offset < limit {
                page.push(x);
            }
            count = count + 1;
        }
        i = i + 1;
        assert(rest@ =~= s.subrange(i as int, n as int));
    }
    proof {
        lemma_pick(s, n as int, offset as int, limit as int);
        assert(s.subrange(0, n as int) =~= s);
    }
    (page, count)
}

/// Scores never increase along `s`.
pub open spec fn sorted_by_score(s: Seq<SearchResult>) -> bool {
    forall|i: int, j: int| 0 <= i < j < s.len() ==> (#[trigger] s[i]).score >= (#[trigger] s[j]).score
}

/// No two results of `s` share a key.
pub open spec fn keys_distinct(s: Seq<SearchResult>) -> bool {
    forall|i: int, j: int| 0 <= i < j < s.len() ==> key_of(#[trigger] s[i]) != key_of(#[trigger] s[j])
}

/// Inserting into a ranked sequence keeps it ranked and adds exactly `x`.
proof fn lemma_insert_by_score(t: Seq<SearchResult>, x: SearchResult)
    requires
        sorted_by_score(t),
    ensures
        sorted_by_score(insert_by_score(t, x)),
        insert_by_score(t, x).to_multiset() == t.to_multiset().insert(x),
        insert_by_score(t, x).len() == t.len() + 1,
    decreases t.len(),
{
    broadcast use vstd::seq_lib::group_to_multiset_ensures;
    if t.len() == 0 {
        assert(seq![x] =~= Seq::<SearchResult>::empty().push(x));
    } else if t[0].score <= x.score {
        let r = seq![x] + t;
        assert forall|i: int, j: int| 0 <= i < j < r.len() implies (#[trigger] r[i]).score >= (#[trigger] r[j]).score by {
            if i > 0 {
                assert(r[i] == t[i - 1] && r[j] == t[j - 1]);
            } else {
                assert(r[j] == t[j - 1]);
                assert(t[0].score >= t[j - 1].score || j - 1 == 0);
            }
        }
        vstd::seq_lib::lemma_multiset_commutative(seq![x], t);
        assert(seq![x] =~= Seq::<SearchResult>::empty().push(x));
    } else {
        let rest = t.drop_first();
        assert forall|i: int, j: int| 0 <= i < j < rest.len() implies (#[trigger] rest[i]).score >= (#[trigger] rest[j]).score by {
            assert(rest[i] == t[i + 1] && rest[j] == t[j + 1]);
        }
        lemma_insert_by_score(rest, x);
        let ins = insert_by_score(rest, x);
        let r = seq![t[0]] + ins;
        assert forall|k: int| 0 <= k < ins.len() implies t[0].score >= (#[trigger] ins[k]).score by {
            assert(ins.to_multiset().count(ins[k]) > 0);
            assert(rest.to_multiset().insert(x).count(ins[k]) > 0);
            if ins[k] != x {
                assert(rest.to_multiset().count(ins[k]) > 0);
                assert(rest.contains(ins[k]));
                let m = choose|m: int| 0 <= m < rest.len() && rest[m] == ins[k];
                assert(rest[m] == t[m + 1]);
            }
        }
        assert forall|i: int, j: int| 0 <= i < j < r.len() implies (#[trigger] r[i]).score >= (#[trigger] r[j]).score by {
            if i == 0 {
                assert(r[j] == ins[j - 1]);
            } else {
                assert(r[i] == ins[i - 1] && r[j] == ins[j - 1]);
            }
        }
        vstd::seq_lib::lemma_multiset_commutative(seq![t[0]], ins);
        vstd::seq_lib::lemma_multiset_commutative(seq![t[0]], rest);
        assert(t =~= seq![t[0]] + rest);
        assert(seq![t[0]] =~= Seq::<SearchResult>::empty().push(t[0]));
        assert(t.to_multiset().insert(x) =~= seq![t[0]].to_multiset().add(rest.to_multiset().insert(x)));
    }
}

/// Ranking sorts by score and keeps every result exactly as often as it
/// occurs.
pub proof fn lemma_rank(s: Seq<SearchResult>)
    ensures
        sorted_by_score(rank(s)),
        rank(s).to_multiset() == s.to_multiset(),
        rank(s).len() == s.len(),
    decreases s.len(),
{
    broadcast use vstd::seq_lib::group_to_multiset_ensures;
    if s.len() > 0 {
        lemma_rank(s.drop_first());
        lemma_insert_by_score(rank(s.drop_first()), s[0]);
        assert(s =~= seq![s[0]] + s.drop_first());
        vstd::seq_lib::lemma_multiset_commutative(seq![s[0]], s.drop_first());
        assert(seq![s[0]] =~= Seq::<SearchResult>::empty().push(s[0]));
        assert(s.to_multiset() =~= s.drop_first().to_multiset().insert(s[0]));
    }
}

/// Every result kept by `unique_first` comes from `s`, in order, and the
/// kept keys are distinct.
proof fn lemma_unique_first(s: Seq<SearchResult>)
    ensures
        keys_distinct(unique_first(s)),
        unique_first(s).len() <= s.len(),
        forall|k: int| 0 <= k < unique_first(s).len() ==> exists|j: int| 0 <= j < s.len() && #[trigger] unique_first(s)[k] == s[j],
        sorted_by_score(s) ==> sorted_by_score(unique_first(s)),
    decreases s.len(),
{
    if s.len() > 0 {
        let p = s.drop_last();
        lemma_unique_first(p);
        let u0 = unique_first(p);
        assert forall|k: int| 0 <= k < u0.len() implies exists|j: int| 0 <= j < s.len() && #[trigger] u0[k] == s[j] by {
            let j = choose|j: int| 0 <= j < p.len() && u0[k] == p[j];
            assert(p[j] == s[j]);
        }
        if !seen_before(s, s.len() - 1) {
            let u = u0.push(s.last());
            assert forall|i: int, j: int| 0 <= i < j < u.len() implies key_of(#[trigger] u[i]) != key_of(#[trigger] u[j]) by {
                if j == u.len() - 1 {
                    let m = choose|m: int| 0 <= m < p.len() && u0[i] == p[m];
                    assert(p[m] == s[m]);
                    assert(key_of(s[m]) != key_of(s[s.len() - 1]));
                }
            }
            assert forall|k: int| 0 <= k < u.len() implies exists|j: int| 0 <= j < s.len() && #[trigger] u[k] == s[j] by {
                if k == u.len() - 1 {
                    assert(u[k] == s[s.len() - 1]);
                } else {
                    assert(u[k] == u0[k]);
                }
            }
            if sorted_by_score(s) {
                assert forall|i: int, j: int| 0 <= i < j < p.len() implies (#[trigger] p[i]).score >= (#[trigger] p[j]).score by {
                    assert(p[i] == s[i] && p[j] == s[j]);
                }
                assert forall|i: int, j: int| 0 <= i < j < u.len() implies (#[trigger] u[i]).score >= (#[trigger] u[j]).score by {
                    if j == u.len() - 1 {
                        let m = choose|m: int| 0 <= m < p.len() && u0[i] == p[m];
                        assert(p[m] == s[m]);
                        assert(s[m].score >= s[s.len() - 1].score);
                    }
                }
            }
        } else {
            if sorted_by_score(s) {
                assert forall|i: int, j: int| 0 <= i < j < p.len() implies (#[trigger] p[i]).score >= (#[trigger] p[j]).score by {
                    assert(p[i] == s[i] && p[j] == s[j]);
                }
            }
        }
    }
}

/// Every page of results is ordered by score, highest first, holds no two
/// results with the same source, path, member and line, and has at most
/// `limit` results; the unique count is at most the number of results.
pub proof fn lemma_page_ranked_and_unique(all: Seq<SearchResult>, offset: int, limit: int)
    requires
        offset >= 0,
        limit >= 0,
    ensures
        sorted_by_score(page_of(unique_first(rank(all)), offset, limit)),
        keys_distinct(page_of(unique_first(rank(all)), offset, limit)),
        page_of(unique_first(rank(all)), offset, limit).len() <= limit,
        unique_first(rank(all)).len() <= all.len(),
{
    lemma_rank(all);
    lemma_unique_first(rank(all));
    let u = unique_first(rank(all));
    let pg = page_of(u, offset, limit);
    let lo = if offset < u.len() { offset } else { u.len() as int };
    assert forall|i: int, j: int| 0 <= i < j < pg.len() implies (#[trigger] pg[i]).score >= (#[trigger] pg[j]).score by {
        assert(pg[i] == u[lo + i] && pg[j] == u[lo + j]);
    }
    assert forall|i: int, j: int| 0 <= i < j < pg.len() implies key_of(#[trigger] pg[i]) != key_of(#[trigger] pg[j]) by {
        assert(pg[i] == u[lo + i] && pg[j] == u[lo + j]);
    }
}

// ── Planning a search and finishing its results ─────────────────────────────

/// How many candidates each source scores: enough for the requested page
/// and 200 more, at most the configured candidate limit.
pub fn scoring_limit(offset: usize, limit: usize, fts_limit: usize) -> (r: usize)
    requires
        offset + limit + 200 <= usize::MAX,
    ensures
        r == (if offset + limit + 200 <= fts_limit { offset + limit + 200 } else { fts_limit as int }),
{
    let want = offset + limit + 200;
    if want <= fts_limit { want } else { fts_limit }
}

/// The page size actually served: the requested limit, at most the
/// configured maximum.
pub fn effective_limit(requested: usize, max_limit: usize) -> (r: usize)
    ensures
        r == (if requested <= max_limit { requested } else { max_limit }),
{
    if requested <= max_limit { requested } else { max_limit }
}

/// The full-text pre-filter of a line or file-name mode: fuzzy modes match
/// the query's terms, regex modes the literal runs of the expression, the
/// other modes the query as one phrase. Returns (phrase, query).
pub fn fts_plan(mode: SearchMode, query: &str) -> (r: (bool, String))
    ensures
        r.0 == !(mode == SearchMode::Fuzzy || mode == SearchMode::FileFuzzy || mode == SearchMode::Regex || mode == SearchMode::FileRegex),
        r.1@ == (if mode == SearchMode::Regex || mode == SearchMode::FileRegex {
            crate::search::join_spaces(crate::search::regex_runs(query@, 0, Seq::empty(), Seq::empty()))
        } else {
            query@
        }),
{
    match mode {
        SearchMode::Fuzzy | SearchMode::FileFuzzy => (false, query.to_owned()),
        SearchMode::Regex | SearchMode::FileRegex => (false, crate::search::regex_to_fts_terms(query)),
        _ => (true, query.to_owned()),
    }
}

/// The duplicate paths listed for file `id` among `dups`, searching from
/// position `k`: those of the first entry for `id`.
pub open spec fn dups_for(dups: Seq<(i64, Vec<String>)>, id: i64, k: int) -> Option<Seq<String>>
    decreases dups.len() - k,
{
    if k < 0 || k >= dups.len() {
        None
    } else if dups[k].0 == id {
        Some(dups[k].1@)
    } else {
        dups_for(dups, id, k + 1)
    }
}

/// The results with the duplicate paths of their files filled in (from
/// the first entry of `dups` for each file id), in the same order.
pub fn attach_duplicates(pairs: Vec<ScoredResult>, dups: &Vec<(i64, Vec<String>)>) -> (r: Vec<SearchResult>)
    ensures
        r@.len() == pairs@.len(),
        forall|k: int| 0 <= k < r@.len() ==> {
            let p = #[trigger] pairs@[k];
            &&& r@[k] == SearchResult { duplicate_paths: r@[k].duplicate_paths, ..p.result }
            &&& r@[k].duplicate_paths@ == match dups_for(dups@, p.file_id, 0) {
                Some(v) => v,
                None => p.result.duplicate_paths@,
            }
        },
{
    let ghost orig = pairs@;
    let mut rest = pairs;
    let mut out: Vec<SearchResult> = Vec::new();
    let n = rest.len();
    let mut i: usize = 0;
    while i < n
        invariant
            n == orig.len(),
            i <= n,
            rest@ == orig.subrange(i as int, n as int),
            out@.len() == i,
            forall|k: int| 0 <= k < i ==> {
                let p = #[trigger] orig[k];
                &&& out@[k] == SearchResult { duplicate_paths: out@[k].duplicate_paths, ..p.result }
                &&& out@[k].duplicate_paths@ == match dups_for(dups@, p.file_id, 0) {
                    Some(v) => v,
                    None => p.result.duplicate_paths@,
                }
            },
        decreases n - i,
    {
        let sr = rest.remove(0);
        assert(sr == orig[i as int]);
        let mut result = sr.result;
        let mut j: usize = 0;
        while j < dups.len() && dups[j].0 != sr.file_id
            invariant
                j <= dups@.len(),
                dups_for(dups@, sr.file_id, 0) == dups_for(dups@, sr.file_id, j as int),
            decreases dups@.len() - j,
        {
            j = j + 1;
        }
        if j < dups.len() {
            let copy = dups[j].1.clone();
            assert(copy@ =~= dups@[j as int].1@);
            result.duplicate_paths = copy;
        }
        out.push(result);
        i = i + 1;
        assert(rest@ =~= orig.subrange(i as int, n as int));
    }
    out
}

} // verus!
