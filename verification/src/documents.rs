//! Document-mode candidates: the query's tokens, the full-text expression
//! that finds lines holding any of them, the intersection of the files
//! that hold each token, and the collection of one representative line
//! per qualifying file from the ranked rows.
use vstd::prelude::*;
use crate::text::{to_chars, string_from_chars, push_str, push_char};
use crate::paths::{split_composite_path, split_composite_spec};
use crate::wrap::{words_of, word_ranges, views};
use crate::search::double_quotes;
use crate::archive::utf8_len;
use crate::results::{CandidateRow, DocumentGroup};

verus! {

/// The words of `s` with at least three UTF-8 bytes, in order.
pub open spec fn long_words(ws: Seq<Seq<char>>) -> Seq<Seq<char>>
    decreases ws.len(),
{
    if ws.len() == 0 {
        ws
    } else if utf8_len(ws.last()) >= 3 {
        long_words(ws.drop_last()).push(ws.last())
    } else {
        long_words(ws.drop_last())
    }
}

/// The tokens of a document query: its whitespace-separated words of at
/// least three bytes.
pub fn document_tokens(query: &str) -> (r: Vec<String>)
    ensures
        views(r@) == long_words(words_of(query@)),
{
    let v = to_chars(query);
    let ranges = word_ranges(&v, 0, v.len());
    assert(v@.subrange(0, v@.len() as int) == v@);
    let ghost ws = words_of(v@);
    let mut out: Vec<String> = Vec::new();
    assert(views(out@) =~= Seq::<Seq<char>>::empty());
    let mut k: usize = 0;
    while k < ranges.len()
        invariant
            k <= ranges@.len(),
            v@ == query@,
            ws == words_of(v@),
            ranges@.len() == ws.len(),
            forall|i: int| 0 <= i < ranges@.len() ==> {
                &&& 0 <= (#[trigger] ranges@[i]).0 < ranges@[i].1 <= v@.len()
                &&& v@.subrange(ranges@[i].0 as int, ranges@[i].1 as int) == ws[i]
            },
            views(out@) == long_words(ws.subrange(0, k as int)),
        decreases ranges@.len() - k,
    {
        let (a, b) = ranges[k];
        let w = string_from_chars(&v, a, b);
        assert(ws.subrange(0, k + 1).drop_last() =~= ws.subrange(0, k as int));
        assert(ws.subrange(0, k + 1).last() == w@);
        if w.as_str().as_bytes().len() >= 3 {
            let ghost old_out = out@;
            out.push(w);
            assert(views(out@) =~= views(old_out).push(ws[k as int]));
        }
        k = k + 1;
    }
    assert(ws.subrange(0, ranges@.len() as int) =~= ws);
    out
}

/// A token as a full-text phrase: in double quotes, inner quotes doubled.
pub open spec fn phrase_of(t: Seq<char>) -> Seq<char> {
    seq!['"'] + double_quotes(t) + seq!['"']
}

/// Appends `t` as a full-text phrase to `s`.
fn push_phrase(s: &mut String, t: &str)
    ensures
        final(s)@ == old(s)@ + phrase_of(t@),
{
    let v = to_chars(t);
    push_char(s, '"');
    let ghost base = s@;
    let mut i: usize = 0;
    while i < v.len()
        invariant
            i <= v@.len(),
            v@ == t@,
            s@ == base + double_quotes(v@.subrange(0, i as int)),
        decreases v@.len() - i,
    {
        assert(v@.subrange(0, i + 1).drop_last() =~= v@.subrange(0, i as int));
        if v[i] == '"' {
            push_char(s, '"');
            push_char(s, '"');
        } else {
            push_char(s, v[i]);
        }
        i = i + 1;
        assert(s@ =~= base + double_quotes(v@.subrange(0, i as int)));
    }
    assert(v@.subrange(0, v@.len() as int) =~= v@);
    push_char(s, '"');
    assert(s@ =~= old(s)@ + phrase_of(t@));
}

/// A single token as a full-text phrase.
pub fn token_phrase(t: &str) -> (r: String)
    ensures
        r@ == phrase_of(t@),
{
    let mut s = String::new();
    push_phrase(&mut s, t);
    assert(s@ =~= phrase_of(t@));
    s
}

/// The phrases of the tokens joined with ` OR `.
pub open spec fn or_expression_spec(ts: Seq<Seq<char>>) -> Seq<char>
    decreases ts.len(),
{
    if ts.len() == 0 {
        Seq::empty()
    } else if ts.len() == 1 {
        phrase_of(ts[0])
    } else {
        or_expression_spec(ts.drop_last()) + seq![' ', 'O', 'R', ' '] + phrase_of(ts.last())
    }
}

/// The full-text expression matching lines that hold any token.
pub fn or_expression(tokens: &Vec<String>) -> (r: String)
    ensures
        r@ == or_expression_spec(views(tokens@)),
{
    let ghost tv = views(tokens@);
    let mut s = String::new();
    let mut k: usize = 0;
    while k < tokens.len()
        invariant
            k <= tokens@.len(),
            tv == views(tokens@),
            s@ == or_expression_spec(tv.subrange(0, k as int)),
        decreases tokens@.len() - k,
    {
        assert(tv.subrange(0, k + 1).drop_last() =~= tv.subrange(0, k as int));
        assert(tv.subrange(0, k + 1).last() == tokens@[k as int]@);
        if k > 0 {
            push_str(&mut s, " OR ");
            proof { reveal_strlit(" OR "); }
        } else {
            assert(tv.subrange(0, 1)[0] == tokens@[0]@);
            assert(s@ =~= Seq::<char>::empty());
        }
        let ghost before = s@;
        push_phrase(&mut s, tokens[k].as_str());
        k = k + 1;
        assert(s@ =~= or_expression_spec(tv.subrange(0, k as int)));
    }
    assert(tv.subrange(0, tokens@.len() as int) =~= tv);
    s
}

/// Most rows kept per file: the number of tokens, at least 1.
pub fn per_file_cap(n_tokens: usize) -> (r: usize)
    ensures
        r == (if n_tokens >= 1 { n_tokens } else { 1 }),
{
    if n_tokens >= 1 { n_tokens } else { 1 }
}

/// Most ranked rows read: 20 per requested file and kept row, at least
/// 10 000, as a signed 64-bit bound.
pub fn fetch_limit(limit: usize, cap: usize) -> (r: i64)
    requires
        cap >= 1,
        limit * 20 * cap <= usize::MAX,
    ensures
        r == (if limit * 20 * cap >= 10_000 { limit * 20 * cap } else { 10_000 }) as i64,
{
    assert(limit * 20 <= limit * 20 * cap) by (nonlinear_arith)
        requires
            cap >= 1;
    let n = limit * 20 * cap;
    let m = if n >= 10_000 { n } else { 10_000 };
    #[verifier::truncate] (m as i64)
}

/// Whether `id` occurs in `v`.
fn has_id(v: &Vec<i64>, id: i64) -> (b: bool)
    ensures
        b == v@.contains(id),
{
    let mut i: usize = 0;
    while i < v.len()
        invariant
            i <= v@.len(),
            forall|m: int| 0 <= m < i ==> v@[m] != id,
        decreases v@.len() - i,
    {
        if v[i] == id {
            return true;
        }
        i = i + 1;
    }
    false
}

/// The file ids that hold every token: those found for every token
/// (none when there are no tokens), each once.
pub fn intersect_ids(per_token: &Vec<Vec<i64>>) -> (r: Vec<i64>)
    ensures
        forall|id: i64| r@.contains(id) <==> (per_token@.len() > 0 && forall|t: int| 0 <= t < per_token@.len() ==> (#[trigger] per_token@[t])@.contains(id)),
        forall|a: int, b: int| 0 <= a < b < r@.len() ==> r@[a] != r@[b],
{
    let mut out: Vec<i64> = Vec::new();
    if per_token.len() == 0 {
        return out;
    }
    let first = &per_token[0];
    let mut i: usize = 0;
    while i < first.len()
        invariant
            i <= first@.len(),
            per_token@.len() > 0,
            *first == per_token@[0],
            forall|id: i64| out@.contains(id) <==> (first@.subrange(0, i as int).contains(id)
                && forall|t: int| 0 <= t < per_token@.len() ==> (#[trigger] per_token@[t])@.contains(id)),
            forall|a: int, b: int| 0 <= a < b < out@.len() ==> out@[a] != out@[b],
        decreases first@.len() - i,
    {
        let id = first[i];
        let mut t: usize = 1;
        let mut all = true;
        while t < per_token.len()
            invariant
                1 <= t <= per_token@.len(),
                all == forall|u: int| 1 <= u < t ==> (#[trigger] per_token@[u])@.contains(id),
            decreases per_token@.len() - t,
        {
            if !has_id(&per_token[t], id) {
                all = false;
            }
            t = t + 1;
        }
        let ghost old_out = out@;
        let dup = has_id(&out, id);
        proof {
            assert(per_token@[0]@.contains(id)) by { assert(first@[i as int] == id); }
            assert(first@.subrange(0, i + 1) =~= first@.subrange(0, i as int).push(id));
        }
        if all && !dup {
            out.push(id);
        }
        proof {
            assert forall|x: i64| out@.contains(x) <==> (first@.subrange(0, i + 1).contains(x)
                && forall|t2: int| 0 <= t2 < per_token@.len() ==> (#[trigger] per_token@[t2])@.contains(x)) by {
                let s0 = first@.subrange(0, i as int);
                let s1 = first@.subrange(0, i + 1);
                if x == id {
                    assert(s1[i as int] == id);
                    if all {
                        assert forall|t2: int| 0 <= t2 < per_token@.len() implies (#[trigger] per_token@[t2])@.contains(x) by {
                            if t2 == 0 {} else { assert(per_token@[t2]@.contains(id)); }
                        }
                        if !dup { assert(out@[out@.len() - 1] == id); }
                    } else {
                        let u = choose|u: int| 1 <= u < per_token@.len() && !(#[trigger] per_token@[u])@.contains(id);
                        if out@.contains(x) {
                            assert(old_out.contains(x));
                        }
                    }
                } else {
                    if out@.contains(x) {
                        let k = choose|k: int| 0 <= k < out@.len() && out@[k] == x;
                        if k < old_out.len() { assert(old_out[k] == x); }
                    }
                    if s1.contains(x) {
                        let k = choose|k: int| 0 <= k < s1.len() && s1[k] == x;
                        assert(s0[k] == x);
                    }
                    if old_out.contains(x) {
                        let k = choose|k: int| 0 <= k < old_out.len() && old_out[k] == x;
                        assert(out@[k] == x);
                    }
                    if s0.contains(x) {
                        let k = choose|k: int| 0 <= k < s0.len() && s0[k] == x;
                        assert(s1[k] == x);
                    }
                }
            }
        }
        i = i + 1;
    }
    assert(first@.subrange(0, first@.len() as int) =~= first@);
    out
}

/// One ranked row: path, kind, line number, file id, time, size.
pub type RankedRow = (String, String, usize, i64, i64, Option<i64>);

/// Collects the representative rows of qualifying files from the ranked
/// rows, one row at a time, as the rows are read.
pub struct DocumentCollector {
    /// Files in the order their first row came.
    pub order: Vec<i64>,
    /// Rows kept per file (same positions as `order`), at most `cap`.
    pub counts: Vec<usize>,
    /// The first row of each file.
    pub firsts: Vec<RankedRow>,
    pub qualifying: Vec<i64>,
    pub cap: usize,
    pub limit: usize,
}

/// The collection state after rows: (file order, kept counts, first rows).
pub struct CollectView {
    pub order: Seq<i64>,
    pub counts: Seq<int>,
    pub firsts: Seq<RankedRow>,
}

/// The collection after one more row: rows of files that do not qualify
/// are skipped; a file's first row starts its entry; later rows only
/// count, up to `cap`.
pub open spec fn collect_step(qualifying: Seq<i64>, cap: int, st: CollectView, row: RankedRow) -> CollectView {
    let id = row.3;
    if !qualifying.contains(id) {
        st
    } else if st.order.contains(id) {
        let k = st.order.index_of(id);
        if st.counts[k] < cap {
            CollectView { counts: st.counts.update(k, st.counts[k] + 1), ..st }
        } else {
            st
        }
    } else {
        CollectView {
            order: st.order.push(id),
            counts: st.counts.push(if 0 < cap { 1 } else { 0 }),
            firsts: st.firsts.push(row),
        }
    }
}

/// Whether reading stops after this state: `limit` files have rows and the
/// last of them has `cap` rows.
pub open spec fn collect_done(limit: int, cap: int, st: CollectView) -> bool {
    st.order.len() >= limit && st.order.len() > 0 && st.counts[st.order.len() - 1] >= cap
}

/// The collection after the rows read in order, stopping once done.
pub open spec fn collect_rows(qualifying: Seq<i64>, cap: int, limit: int, rows: Seq<RankedRow>) -> CollectView
    decreases rows.len(),
{
    if rows.len() == 0 {
        CollectView { order: Seq::empty(), counts: Seq::empty(), firsts: Seq::empty() }
    } else {
        let prev = collect_rows(qualifying, cap, limit, rows.drop_last());
        if collect_done(limit, cap, prev) {
            prev
        } else {
            collect_step(qualifying, cap, prev, rows.last())
        }
    }
}

impl DocumentCollector {
    /// The state as a model.
    pub open spec fn view_state(&self) -> CollectView {
        CollectView { order: self.order@, counts: self.counts@.map_values(|c: usize| c as int), firsts: self.firsts@ }
    }

    /// The collector's invariant.
    pub open spec fn wf(&self) -> bool {
        &&& self.order@.len() == self.counts@.len()
        &&& self.order@.len() == self.firsts@.len()
        &&& self.order@.no_duplicates()
        &&& forall|k: int| 0 <= k < self.firsts@.len() ==> (#[trigger] self.firsts@[k]).3 == self.order@[k]
    }

    /// A collector for the qualifying files, keeping up to `cap` rows per
    /// file and stopping after `limit` files.
    pub fn new(qualifying: Vec<i64>, cap: usize, limit: usize) -> (r: Self)
        ensures
            r.wf(),
            r.view_state() == collect_rows(qualifying@, cap as int, limit as int, Seq::empty()),
            r.qualifying@ == qualifying@,
            r.cap == cap,
            r.limit == limit,
    {
        let r = DocumentCollector { order: Vec::new(), counts: Vec::new(), firsts: Vec::new(), qualifying, cap, limit };
        assert(r.view_state().counts =~= Seq::<int>::empty());
        r
    }

    /// Whether reading should stop.
    pub fn done(&self) -> (b: bool)
        requires
            self.wf(),
        ensures
            b == collect_done(self.limit as int, self.cap as int, self.view_state()),
    {
        let n = self.order.len();
        n >= self.limit && n > 0 && self.counts[n - 1] >= self.cap
    }

    /// Takes the next ranked row; returns whether to keep reading.
    pub fn offer(&mut self, row: RankedRow) -> (more: bool)
        requires
            old(self).wf(),
            !collect_done(old(self).limit as int, old(self).cap as int, old(self).view_state()),
        ensures
            final(self).wf(),
            final(self).view_state() == collect_step(old(self).qualifying@, old(self).cap as int, old(self).view_state(), row),
            final(self).qualifying == old(self).qualifying,
            final(self).cap == old(self).cap,
            final(self).limit == old(self).limit,
            more == !collect_done(final(self).limit as int, final(self).cap as int, final(self).view_state()),
    {
        let id = row.3;
        let ghost st = self.view_state();
        if !has_id(&self.qualifying, id) {
            return !self.done();
        }
        let mut k: usize = 0;
        while k < self.order.len() && self.order[k] != id
            invariant
                k <= self.order@.len(),
                forall|m: int| 0 <= m < k ==> self.order@[m] != id,
            decreases self.order@.len() - k,
        {
            k = k + 1;
        }
        if k < self.order.len() {
            proof {
                assert(self.order@.contains(id));
                assert(self.order@[k as int] == id);
                assert(self.order@.index_of(id) == k as int) by {
                    let j = self.order@.index_of(id);
                    assert(self.order@[j] == id);
                    if j != k as int {
                        assert(self.order@.no_duplicates());
                    }
                }
            }
            if self.counts[k] < self.cap {
                let c = self.counts[k];
                self.counts.set(k, c + 1);
                assert(self.view_state().counts =~= st.counts.update(k as int, st.counts[k as int] + 1));
            }
        } else {
            proof {
                assert(!self.order@.contains(id)) by {
                    if self.order@.contains(id) {
                        let j = choose|j: int| 0 <= j < self.order@.len() && self.order@[j] == id;
                    }
                }
            }
            self.order.push(id);
            let c: usize = if 0 < self.cap { 1 } else { 0 };
            self.counts.push(c);
            self.firsts.push(row);
            assert(self.view_state().counts =~= st.counts.push(c as int));
            proof {
                assert forall|a: int, b: int| 0 <= a < self.order@.len() && 0 <= b < self.order@.len() && a != b
                    implies self.order@[a] != self.order@[b] by {
                    if a < st.order.len() && b < st.order.len() {
                    } else if a == st.order.len() {
                        assert(st.order[b] != id) by { if st.order[b] == id { assert(st.order.contains(id)); } }
                    } else {
                        assert(st.order[a] != id) by { if st.order[a] == id { assert(st.order.contains(id)); } }
                    }
                }
            }
        }
        !self.done()
    }

    /// The groups of the first `limit` files: each the file's first row as
    /// a candidate (path split at its first `::`, no content), with no
    /// other members.
    pub fn finish(&self) -> (r: Vec<DocumentGroup>)
        requires
            self.wf(),
        ensures
            r@.len() == (if self.order@.len() < self.limit { self.order@.len() as int } else { self.limit as int }),
            forall|k: int| 0 <= k < r@.len() ==> {
                let row = #[trigger] self.firsts@[k];
                let g = r@[k];
                &&& (g.representative.file_path@, opt_view_str(g.representative.archive_path)) == split_composite_spec(row.0@)
                &&& g.representative.file_kind == row.1
                &&& g.representative.line_number == row.2
                &&& g.representative.file_id == row.3
                &&& g.representative.mtime == row.4
                &&& g.representative.size == row.5
                &&& g.representative.content@.len() == 0
                &&& g.members@.len() == 0
            },
    {
        let n = if self.order.len() < self.limit { self.order.len() } else { self.limit };
        let mut out: Vec<DocumentGroup> = Vec::new();
        let mut k: usize = 0;
        while k < n
            invariant
                self.wf(),
                n <= self.firsts@.len(),
                n == (if self.order@.len() < self.limit { self.order@.len() as int } else { self.limit as int }),
                k <= n,
                out@.len() == k,
                forall|j: int| 0 <= j < k ==> {
                    let row = #[trigger] self.firsts@[j];
                    let g = out@[j];
                    &&& (g.representative.file_path@, opt_view_str(g.representative.archive_path)) == split_composite_spec(row.0@)
                    &&& g.representative.file_kind == row.1
                    &&& g.representative.line_number == row.2
                    &&& g.representative.file_id == row.3
                    &&& g.representative.mtime == row.4
                    &&& g.representative.size == row.5
                    &&& g.representative.content@.len() == 0
                    &&& g.members@.len() == 0
                },
            decreases n - k,
        {
            let row = &self.firsts[k];
            let (fp, ap) = split_composite_path(row.0.as_str());
            let rep = CandidateRow {
                file_path: fp,
                file_kind: row.1.clone(),
                archive_path: ap,
                line_number: row.2,
                content: String::new(),
                mtime: row.4,
                size: row.5,
                file_id: row.3,
            };
            out.push(DocumentGroup { representative: rep, members: Vec::new() });
            k = k + 1;
        }
        out
    }
}

/// The view of an optional string.
pub open spec fn opt_view_str(o: Option<String>) -> Option<Seq<char>> {
    match o {
        Some(s) => Some(s@),
        None => None,
    }
}

} // verus!
