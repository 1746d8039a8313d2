//! Matching candidates against a query: fuzzy scoring (through the
//! `nucleo_matcher` crate), regular expressions (through the `regex` crate),
//! and the per-mode rules that decide which candidates become results.
use vstd::prelude::*;
use crate::text::{to_chars, string_from_chars};
use crate::paths::{contains_seq, str_contains};
use crate::wrap::{words_of, word_ranges, views, lines_of, line_ranges};
use crate::results::{CandidateRow, SearchMode, ScoredResult, DocumentGroup, make_result, make_result_with, result_with, result_from, copy_opt, context_of};
use crate::http::ContextLine;
use crate::archive::utf8_len;

verus! {

// ── Fuzzy scoring ────────────────────────────────────────────────────────────

#[verifier::external_type_specification]
#[verifier::external_body]
pub struct ExMatcher(nucleo_matcher::Matcher);

/// The score that `nucleo_matcher` gives `haystack` for a fuzzy pattern
/// made of `query` (each whitespace-separated word an atom, smart Unicode
/// normalisation, case respected or ignored), with the default matcher
/// configuration; `None` when it does not match.
pub uninterp spec fn fuzzy_score_of(query: Seq<char>, case_sensitive: bool, haystack: Seq<char>) -> Option<u32>;

/// `nucleo_matcher::Matcher::new(Config::DEFAULT)`: a matcher with the
/// default configuration. Nothing is stated of it.
#[verifier::external_body]
fn new_matcher() -> (m: nucleo_matcher::Matcher) {
    nucleo_matcher::Matcher::new(nucleo_matcher::Config::DEFAULT)
}

/// `nucleo_matcher::pattern::Pattern::score` of the fuzzy pattern built by
/// `Pattern::new(query, case, Normalization::Smart, AtomKind::Fuzzy)`,
/// against `haystack`. Trusted: the result is the named
/// `fuzzy_score_of(query, case_sensitive, haystack)`; the matcher only
/// lends scratch memory and its default configuration. The crate panics
/// on haystacks of 2^32 - 1 characters or more, which `requires` leaves
/// out.
#[verifier::external_body]
fn matcher_score(matcher: &mut nucleo_matcher::Matcher, query: &str, case_sensitive: bool, haystack: &str) -> (r: Option<u32>)
    requires
        haystack@.len() < 0xFFFF_FFFF,
    ensures
        r == fuzzy_score_of(query@, case_sensitive, haystack@),
{
    let case = if case_sensitive {
        nucleo_matcher::pattern::CaseMatching::Respect
    } else {
        nucleo_matcher::pattern::CaseMatching::Ignore
    };
    let pattern = nucleo_matcher::pattern::Pattern::new(
        query, case, nucleo_matcher::pattern::Normalization::Smart, nucleo_matcher::pattern::AtomKind::Fuzzy);
    let mut buf = Vec::new();
    pattern.score(nucleo_matcher::Utf32Str::new(haystack, &mut buf), matcher)
}

/// A fuzzy scorer for one query.
pub struct FuzzyScorer {
    matcher: nucleo_matcher::Matcher,
    query: String,
    case_sensitive: bool,
}

impl FuzzyScorer {
    /// The query this scorer matches.
    pub closed spec fn query_view(&self) -> Seq<char> {
        self.query@
    }

    /// Whether this scorer respects case.
    pub closed spec fn respects_case(&self) -> bool {
        self.case_sensitive
    }

    /// A scorer for `query`.
    pub fn new(query: &str, case_sensitive: bool) -> (r: Self)
        ensures
            r.query_view() == query@,
            r.respects_case() == case_sensitive,
    {
        FuzzyScorer { matcher: new_matcher(), query: query.to_owned(), case_sensitive }
    }

    /// The score of `haystack`, or `None` when it does not match.
    pub fn score(&mut self, haystack: &str) -> (r: Option<u32>)
        requires
            haystack@.len() < 0xFFFF_FFFF,
        ensures
            r == fuzzy_score_of(old(self).query_view(), old(self).respects_case(), haystack@),
            final(self).query_view() == old(self).query_view(),
            final(self).respects_case() == old(self).respects_case(),
    {
        matcher_score(&mut self.matcher, self.query.as_str(), self.case_sensitive, haystack)
    }
}

// ── Regular expressions ──────────────────────────────────────────────────────

#[verifier::external_type_specification]
#[verifier::external_body]
pub struct ExRegex(regex::Regex);

/// Whether `regex` accepts `pattern` with the given flags.
pub uninterp spec fn regex_valid(pattern: Seq<char>, case_insensitive: bool, dot_all: bool) -> bool;

/// Whether the regular expression matches somewhere in `text`.
pub uninterp spec fn regex_matches(pattern: Seq<char>, case_insensitive: bool, dot_all: bool, text: Seq<char>) -> bool;

/// The byte bounds of the leftmost-first match in `text`, if any.
pub uninterp spec fn regex_first_match(pattern: Seq<char>, case_insensitive: bool, dot_all: bool, text: Seq<char>) -> Option<(usize, usize)>;

/// A compiled regular expression with the pattern and flags it was
/// compiled from.
pub struct CompiledRegex {
    re: regex::Regex,
    pattern: String,
    case_insensitive: bool,
    dot_all: bool,
}

impl View for CompiledRegex {
    type V = (Seq<char>, bool, bool);

    closed spec fn view(&self) -> (Seq<char>, bool, bool) {
        (self.pattern@, self.case_insensitive, self.dot_all)
    }
}

/// `regex::RegexBuilder::new(pattern).case_insensitive(..)
/// .dot_matches_new_line(..).build()`. Trusted: it succeeds exactly when
/// the named `regex_valid` holds, and the compiled expression records the
/// pattern and flags; the error text is left unsaid.
#[verifier::external_body]
fn build_regex(pattern: &str, case_insensitive: bool, dot_all: bool) -> (r: Result<CompiledRegex, String>)
    ensures
        r is Ok <==> regex_valid(pattern@, case_insensitive, dot_all),
        r matches Ok(rx) ==> rx@ == (pattern@, case_insensitive, dot_all),
{
    match regex::RegexBuilder::new(pattern).case_insensitive(case_insensitive).dot_matches_new_line(dot_all).build() {
        Ok(re) => Ok(CompiledRegex { re, pattern: pattern.to_owned(), case_insensitive, dot_all }),
        Err(e) => Err(e.to_string()),
    }
}

/// `regex::Regex::is_match`. Trusted: the result is the named
/// `regex_matches` of the expression's pattern and flags and `text`.
#[verifier::external_body]
fn regex_is_match(rx: &CompiledRegex, text: &str) -> (b: bool)
    ensures
        b == regex_matches(rx@.0, rx@.1, rx@.2, text@),
{
    rx.re.is_match(text)
}

/// `regex::Regex::find`, as the match's byte bounds. Trusted: the result
/// is the named `regex_first_match`; it is `Some` exactly when the
/// expression matches, and its bounds lie within the text's UTF-8 bytes,
/// start first, as the crate documents.
#[verifier::external_body]
fn regex_find(rx: &CompiledRegex, text: &str) -> (r: Option<(usize, usize)>)
    ensures
        r == regex_first_match(rx@.0, rx@.1, rx@.2, text@),
        r is Some <==> regex_matches(rx@.0, rx@.1, rx@.2, text@),
        r matches Some((a, b)) ==> a <= b <= utf8_len(text@),
{
    match rx.re.find(text) {
        Some(m) => Some((m.start(), m.end())),
        None => None,
    }
}

impl CompiledRegex {
    /// Compiles `pattern` (see `build_regex`).
    pub fn compile(pattern: &str, case_insensitive: bool, dot_all: bool) -> (r: Result<CompiledRegex, String>)
        ensures
            r is Ok <==> regex_valid(pattern@, case_insensitive, dot_all),
            r matches Ok(rx) ==> rx@ == (pattern@, case_insensitive, dot_all),
    {
        build_regex(pattern, case_insensitive, dot_all)
    }

    /// Whether the expression matches somewhere in `text`.
    pub fn is_match(&self, text: &str) -> (b: bool)
        ensures
            b == regex_matches(self@.0, self@.1, self@.2, text@),
    {
        regex_is_match(self, text)
    }

    /// The byte bounds of the first match in `text`.
    pub fn find(&self, text: &str) -> (r: Option<(usize, usize)>)
        ensures
            r == regex_first_match(self@.0, self@.1, self@.2, text@),
            r is Some <==> regex_matches(self@.0, self@.1, self@.2, text@),
            r matches Some((a, b)) ==> a <= b <= utf8_len(text@),
    {
        regex_find(self, text)
    }
}

// ── Per-mode candidate rules ─────────────────────────────────────────────────

/// The words a case-sensitive fuzzy query must contain literally: its
/// whitespace-separated words when case is respected, none otherwise.
pub fn case_sensitive_terms(query: &str, case_sensitive: bool) -> (r: Vec<String>)
    ensures
        views(r@) == (if case_sensitive { words_of(query@) } else { Seq::empty() }),
{
    let mut out: Vec<String> = Vec::new();
    if !case_sensitive {
        assert(views(out@) =~= Seq::<Seq<char>>::empty());
        return out;
    }
    let v = to_chars(query);
    let ranges = word_ranges(&v, 0, v.len());
    assert(v@.subrange(0, v@.len() as int) == v@);
    let mut k: usize = 0;
    while k < ranges.len()
        invariant
            k <= ranges@.len(),
            v@ == query@,
            ranges@.len() == words_of(v@).len(),
            forall|i: int| 0 <= i < ranges@.len() ==> {
                &&& 0 <= (#[trigger] ranges@[i]).0 < ranges@[i].1 <= v@.len()
                &&& v@.subrange(ranges@[i].0 as int, ranges@[i].1 as int) == words_of(v@)[i]
            },
            views(out@) == words_of(v@).subrange(0, k as int),
        decreases ranges@.len() - k,
    {
        let (a, b) = ranges[k];
        let w = string_from_chars(&v, a, b);
        let ghost old_out = out@;
        out.push(w);
        k = k + 1;
        assert(views(out@) =~= views(old_out).push(w@));
        assert(views(out@) =~= words_of(v@).subrange(0, k as int));
    }
    assert(words_of(v@).subrange(0, ranges@.len() as int) =~= words_of(v@));
    out
}

/// Every term occurs in `content` or in `path`.
pub open spec fn terms_present(terms: Seq<Seq<char>>, content: Seq<char>, path: Seq<char>) -> bool {
    forall|i: int| 0 <= i < terms.len() ==> contains_seq(content, #[trigger] terms[i]) || contains_seq(path, terms[i])
}

/// Whether every term occurs in `content` or in `path`.
pub fn all_terms_present(terms: &Vec<String>, content: &str, path: &str) -> (b: bool)
    ensures
        b == terms_present(views(terms@), content@, path@),
{
    let mut i: usize = 0;
    while i < terms.len()
        invariant
            i <= terms@.len(),
            forall|m: int| 0 <= m < i ==> contains_seq(content@, #[trigger] views(terms@)[m]) || contains_seq(path@, views(terms@)[m]),
        decreases terms@.len() - i,
    {
        let t = terms[i].as_str();
        if !str_contains(content, t) && !str_contains(path, t) {
            assert(views(terms@)[i as int] == terms@[i as int]@);
            return false;
        }
        assert(views(terms@)[i as int] == terms@[i as int]@);
        i = i + 1;
    }
    true
}

/// The text a fuzzy candidate is scored against: its content, or its path
/// when the content was not loaded.
pub open spec fn fuzzy_text(c: CandidateRow) -> Seq<char> {
    if c.content@.len() > 0 { c.content@ } else { c.file_path@ }
}

/// The fuzzy verdict on a candidate: dropped when a required term is
/// missing; otherwise its score, where a content search whose content was
/// not loaded keeps the candidate (score 1) even when the path does not
/// match.
pub open spec fn fuzzy_verdict(terms_ok: bool, content: Seq<char>, filename_only: bool, score: Option<u32>) -> Option<u32> {
    if !terms_ok {
        None
    } else if filename_only || content.len() > 0 {
        score
    } else {
        match score {
            Some(s) => Some(s),
            None => Some(1),
        }
    }
}

/// Scores one fuzzy candidate (see `fuzzy_verdict`); `None` drops it.
pub fn fuzzy_candidate_score(scorer: &mut FuzzyScorer, terms: &Vec<String>, c: &CandidateRow, filename_only: bool) -> (r: Option<u32>)
    requires
        c.content@.len() < 0xFFFF_FFFF,
        c.file_path@.len() < 0xFFFF_FFFF,
    ensures
        r == fuzzy_verdict(
            terms_present(views(terms@), c.content@, c.file_path@),
            c.content@,
            filename_only,
            fuzzy_score_of(old(scorer).query_view(), old(scorer).respects_case(), fuzzy_text(*c)),
        ),
        final(scorer).query_view() == old(scorer).query_view(),
        final(scorer).respects_case() == old(scorer).respects_case(),
{
    if !all_terms_present(terms, c.content.as_str(), c.file_path.as_str()) {
        return None;
    }
    let has_content = !c.content.as_str().is_empty();
    let text = if has_content { c.content.as_str() } else { c.file_path.as_str() };
    let score = scorer.score(text);
    if filename_only || has_content {
        score
    } else {
        match score {
            Some(s) => Some(s),
            None => Some(1),
        }
    }
}

/// Whether an exact-mode candidate is kept: always when case is ignored,
/// else only when its content holds the query literally.
pub fn exact_keeps(case_sensitive: bool, content: &str, query: &str) -> (b: bool)
    ensures
        b == (!case_sensitive || contains_seq(content@, query@)),
{
    !case_sensitive || str_contains(content, query)
}

/// Whether a regex-mode candidate is kept: the expression must match its
/// path for file-name searches and its content otherwise.
pub fn regex_keeps(rx: &CompiledRegex, filename_only: bool, path: &str, content: &str) -> (b: bool)
    ensures
        b == regex_matches(rx@.0, rx@.1, rx@.2, if filename_only { path@ } else { content@ }),
{
    if filename_only { rx.is_match(path) } else { rx.is_match(content) }
}

/// The number of newline bytes in `b`.
pub open spec fn count_newlines(b: Seq<u8>) -> nat
    decreases b.len(),
{
    if b.len() == 0 {
        0
    } else {
        count_newlines(b.drop_last()) + if b.last() == 10u8 { 1nat } else { 0nat }
    }
}

/// The line of `doc` that holds byte `start`: its 1-based number (the
/// newlines before `start`, plus one) and its text, or empty text when the
/// document has no such line.
pub open spec fn matched_line_spec(doc: Seq<char>, start: int) -> (int, Seq<char>) {
    let idx = count_newlines(vstd::utf8::encode_utf8(doc).subrange(0, start)) as int;
    let ls = lines_of(doc);
    (idx + 1, if idx < ls.len() { ls[idx] } else { Seq::empty() })
}

/// Locates the line of a match that starts at byte `start` of `doc`.
pub fn matched_line(doc: &str, start: usize) -> (r: (usize, String))
    requires
        start <= utf8_len(doc@) < usize::MAX,
    ensures
        r.0 == matched_line_spec(doc@, start as int).0,
        r.1@ == matched_line_spec(doc@, start as int).1,
{
    let bytes = doc.as_bytes();
    let mut count: usize = 0;
    let mut i: usize = 0;
    while i < start
        invariant
            start <= bytes@.len(),
            bytes@ == vstd::utf8::encode_utf8(doc@),
            i <= start,
            count == count_newlines(bytes@.subrange(0, i as int)),
            count <= i,
        decreases start - i,
    {
        assert(bytes@.subrange(0, i + 1).drop_last() == bytes@.subrange(0, i as int));
        if bytes[i] == 10u8 {
            count = count + 1;
        }
        i = i + 1;
    }
    let v = to_chars(doc);
    let lines = line_ranges(&v);
    let line = if count < lines.len() {
        let (a, b) = lines[count];
        string_from_chars(&v, a, b)
    } else {
        String::new()
    };
    (count + 1, line)
}

// ── Per-source results of each mode ──────────────────────────────────────────

/// The regular-expression modes.
pub open spec fn is_regex_mode(m: SearchMode) -> bool {
    m == SearchMode::Regex || m == SearchMode::FileRegex
}

/// The exact (phrase) modes.
pub open spec fn is_exact_mode(m: SearchMode) -> bool {
    m == SearchMode::Exact || m == SearchMode::FileExact
}

/// The score a line-mode candidate gets, or `None` when it is dropped:
/// file-name modes keep line 0 only; exact mode needs the literal query
/// in the content when case is respected; regex mode needs a match in the
/// path (file names) or the loaded content; the fuzzy modes follow
/// `fuzzy_verdict`.
pub open spec fn line_verdict(mode: SearchMode, query: Seq<char>, case_sensitive: bool, terms: Seq<Seq<char>>, c: CandidateRow, content: Seq<char>) -> Option<u32> {
    let fo = mode.filename_only_spec();
    if fo && c.line_number != 0 {
        None
    } else if is_exact_mode(mode) {
        if !case_sensitive || contains_seq(c.content@, query) { Some(0) } else { None }
    } else if is_regex_mode(mode) {
        if regex_matches(query, !case_sensitive, false, if fo { c.file_path@ } else { content }) { Some(0) } else { None }
    } else {
        fuzzy_verdict(terms_present(terms, c.content@, c.file_path@), c.content@, fo, fuzzy_score_of(query, case_sensitive, fuzzy_text(c)))
    }
}

/// The content a kept line-mode candidate shows: the loaded content in
/// regex mode, its own content otherwise.
pub open spec fn shown_content(mode: SearchMode, c: CandidateRow, content: Seq<char>) -> Seq<char> {
    if is_regex_mode(mode) { content } else { c.content@ }
}

/// The kept candidates among the first `n`, as (index, score), in order.
pub open spec fn line_kept(mode: SearchMode, query: Seq<char>, case_sensitive: bool, terms: Seq<Seq<char>>, cands: Seq<CandidateRow>, contents: Seq<String>, n: int) -> Seq<(int, u32)>
    decreases n,
{
    if n <= 0 {
        Seq::empty()
    } else {
        let prev = line_kept(mode, query, case_sensitive, terms, cands, contents, n - 1);
        match line_verdict(mode, query, case_sensitive, terms, cands[n - 1], contents[n - 1]@) {
            Some(score) => prev.push((n - 1, score)),
            None => prev,
        }
    }
}

/// `v` are the results of a line or file-name mode (see
/// `line_mode_results`): one per kept candidate, in order.
pub open spec fn line_results(mode: SearchMode, query: Seq<char>, case_sensitive: bool, source_name: Seq<char>,
    candidates: Seq<CandidateRow>, contents: Seq<String>, v: Seq<ScoredResult>) -> bool {
    let terms = if case_sensitive { words_of(query) } else { Seq::empty() };
    let kept = line_kept(mode, query, case_sensitive, terms, candidates, contents, candidates.len() as int);
    &&& v.len() == kept.len()
    &&& forall|k: int| 0 <= k < v.len() ==> {
        let (i, score) = #[trigger] kept[k];
        &&& v[k].file_id == candidates[i].file_id
        &&& result_with(v[k].result, source_name, candidates[i], shown_content(mode, candidates[i], contents[i]@), score)
        &&& v[k].result.extra_matches@.len() == 0
    }
}

/// `v` are the results of document-regex mode (see `doc_regex_results`).
pub open spec fn doc_regex_results_spec(query: Seq<char>, case_sensitive: bool, source_name: Seq<char>,
    groups: Seq<DocumentGroup>, docs: Seq<String>, v: Seq<ScoredResult>) -> bool {
    let hits = doc_hits(query, case_sensitive, docs, docs.len() as int);
    &&& v.len() == hits.len()
    &&& forall|k: int| 0 <= k < v.len() ==> {
        let i = #[trigger] hits[k];
        let rep = groups[i].representative;
        let (line, text) = doc_hit_line(query, case_sensitive, rep, docs[i]@);
        &&& v[k].file_id == rep.file_id
        &&& v[k].result.line_number == line
        &&& result_with(v[k].result, source_name, CandidateRow { line_number: v[k].result.line_number, ..rep }, text, 0)
        &&& v[k].result.extra_matches@.len() == 0
    }
}

/// The results of one source in a line or file-name mode, from the
/// candidates of the full-text pre-filter and, for regex mode, their loaded
/// contents (same positions). Fails only in regex mode, when the query is
/// not a valid expression.
pub fn line_mode_results(
    mode: SearchMode,
    query: &str,
    case_sensitive: bool,
    source_name: &str,
    candidates: &Vec<CandidateRow>,
    contents: &Vec<String>,
) -> (r: Result<Vec<ScoredResult>, String>)
    requires
        contents@.len() == candidates@.len(),
        forall|i: int| 0 <= i < candidates@.len() ==> (#[trigger] candidates@[i]).content@.len() < 0xFFFF_FFFF
            && candidates@[i].file_path@.len() < 0xFFFF_FFFF,
    ensures
        r is Err <==> (is_regex_mode(mode) && !regex_valid(query@, !case_sensitive, false)),
        r matches Ok(v) ==> line_results(mode, query@, case_sensitive, source_name@, candidates@, contents@, v@),
{
    let fo = mode.is_filename_only();
    let exact = match mode { SearchMode::Exact | SearchMode::FileExact => true, _ => false };
    let regex = match mode { SearchMode::Regex | SearchMode::FileRegex => true, _ => false };
    let terms = case_sensitive_terms(query, case_sensitive);
    let ghost tv = views(terms@);
    let rx_opt: Option<CompiledRegex> = if regex {
        match CompiledRegex::compile(query, !case_sensitive, false) {
            Ok(rx) => Some(rx),
            Err(e) => { return Err(e); },
        }
    } else {
        None
    };
    let mut scorer = FuzzyScorer::new(query, case_sensitive);
    let mut out: Vec<ScoredResult> = Vec::new();
    let mut i: usize = 0;
    while i < candidates.len()
        invariant
            i <= candidates@.len(),
            contents@.len() == candidates@.len(),
            forall|m: int| 0 <= m < candidates@.len() ==> (#[trigger] candidates@[m]).content@.len() < 0xFFFF_FFFF
                && candidates@[m].file_path@.len() < 0xFFFF_FFFF,
            fo == mode.filename_only_spec(),
            exact == is_exact_mode(mode),
            regex == is_regex_mode(mode),
            tv == views(terms@),
            tv == (if case_sensitive { words_of(query@) } else { Seq::<Seq<char>>::empty() }),
            regex ==> (rx_opt matches Some(rx) && rx@ == (query@, !case_sensitive, false)),
            scorer.query_view() == query@,
            scorer.respects_case() == case_sensitive,
            ({
                let kept = line_kept(mode, query@, case_sensitive, tv, candidates@, contents@, i as int);
                &&& out@.len() == kept.len()
                &&& forall|k: int| 0 <= k < out@.len() ==> {
                    let (j, score) = #[trigger] kept[k];
                    &&& 0 <= j < i
                    &&& out@[k].file_id == candidates@[j].file_id
                    &&& result_with(out@[k].result, source_name@, candidates@[j], shown_content(mode, candidates@[j], contents@[j]@), score)
                    &&& out@[k].result.extra_matches@.len() == 0
                }
            }),
        decreases candidates@.len() - i,
    {
        let c = &candidates[i];
        let ghost prev = line_kept(mode, query@, case_sensitive, tv, candidates@, contents@, i as int);
        let verdict: Option<u32> = if fo && c.line_number != 0 {
            None
        } else if exact {
            if exact_keeps(case_sensitive, c.content.as_str(), query) { Some(0) } else { None }
        } else if regex {
            match &rx_opt {
                Some(rx) => {
                    if regex_keeps(rx, fo, c.file_path.as_str(), contents[i].as_str()) { Some(0) } else { None }
                },
                None => None,
            }
        } else {
            fuzzy_candidate_score(&mut scorer, &terms, c, fo)
        };
        assert(verdict == line_verdict(mode, query@, case_sensitive, tv, candidates@[i as int], contents@[i as int]@));
        match verdict {
            Some(score) => {
                let shown = if regex { contents[i].as_str() } else { c.content.as_str() };
                let res = make_result_with(source_name, c, shown, score, Vec::new());
                out.push(ScoredResult { result: res, file_id: c.file_id });
            },
            None => {},
        }
        i = i + 1;
    }
    Ok(out)
}

/// The results of one source in document mode: one per file group, scored
/// by the fuzzy score of the representative's content (1 when it does not
/// match), with the group's other lines as extra matches.
pub fn document_results(query: &str, case_sensitive: bool, source_name: &str, groups: &Vec<DocumentGroup>) -> (r: Vec<ScoredResult>)
    requires
        forall|i: int| 0 <= i < groups@.len() ==> (#[trigger] groups@[i]).representative.content@.len() < 0xFFFF_FFFF,
    ensures
        r@.len() == groups@.len(),
        forall|k: int| 0 <= k < r@.len() ==> {
            let g = #[trigger] groups@[k];
            let score = match fuzzy_score_of(query@, case_sensitive, g.representative.content@) {
                Some(s) => s,
                None => 1u32,
            };
            &&& r@[k].file_id == g.representative.file_id
            &&& result_from(r@[k].result, source_name@, g.representative, score)
            &&& r@[k].result.extra_matches@ == g.members@.map_values(|m: CandidateRow| context_of(m))
        },
{
    let mut scorer = FuzzyScorer::new(query, case_sensitive);
    let mut out: Vec<ScoredResult> = Vec::new();
    let mut k: usize = 0;
    while k < groups.len()
        invariant
            k <= groups@.len(),
            forall|i: int| 0 <= i < groups@.len() ==> (#[trigger] groups@[i]).representative.content@.len() < 0xFFFF_FFFF,
            scorer.query_view() == query@,
            scorer.respects_case() == case_sensitive,
            out@.len() == k,
            forall|j: int| 0 <= j < k ==> {
                let g = #[trigger] groups@[j];
                let score = match fuzzy_score_of(query@, case_sensitive, g.representative.content@) {
                    Some(s) => s,
                    None => 1u32,
                };
                &&& out@[j].file_id == g.representative.file_id
                &&& result_from(out@[j].result, source_name@, g.representative, score)
                &&& out@[j].result.extra_matches@ == g.members@.map_values(|m: CandidateRow| context_of(m))
            },
        decreases groups@.len() - k,
    {
        let g = &groups[k];
        let score = match scorer.score(g.representative.content.as_str()) {
            Some(s) => s,
            None => 1,
        };
        let mut extras: Vec<ContextLine> = Vec::new();
        let mut m: usize = 0;
        while m < g.members.len()
            invariant
                m <= g.members@.len(),
                extras@ == g.members@.subrange(0, m as int).map_values(|x: CandidateRow| context_of(x)),
            decreases g.members@.len() - m,
        {
            let mm = &g.members[m];
            extras.push(ContextLine { line_number: mm.line_number, content: mm.content.clone() });
            m = m + 1;
            assert(extras@ =~= g.members@.subrange(0, m as int).map_values(|x: CandidateRow| context_of(x)));
        }
        assert(g.members@.subrange(0, g.members@.len() as int) =~= g.members@);
        let res = make_result(source_name, &g.representative, score, extras);
        out.push(ScoredResult { result: res, file_id: g.representative.file_id });
        k = k + 1;
    }
    out
}

/// The line a document-regex hit shows: where the first match starts when
/// there is one, else the representative's own line.
pub open spec fn doc_hit_line(query: Seq<char>, case_sensitive: bool, rep: CandidateRow, doc: Seq<char>) -> (int, Seq<char>) {
    match regex_first_match(query, !case_sensitive, true, doc) {
        Some((a, b)) => matched_line_spec(doc, a as int),
        None => (rep.line_number as int, rep.content@),
    }
}

/// The results of one source in document-regex mode: the expression (case
/// per the request, `.` matching newlines) is applied to each file's whole
/// text (`docs`, same positions as `groups`); each matching file gives one
/// result of score 0 showing the line where the first match starts.
/// Fails only when the query is not a valid expression.
pub fn doc_regex_results(query: &str, case_sensitive: bool, source_name: &str, groups: &Vec<DocumentGroup>, docs: &Vec<String>) -> (r: Result<Vec<ScoredResult>, String>)
    requires
        docs@.len() == groups@.len(),
        forall|i: int| 0 <= i < docs@.len() ==> utf8_len((#[trigger] docs@[i])@) < usize::MAX,
    ensures
        r is Err <==> !regex_valid(query@, !case_sensitive, true),
        r matches Ok(v) ==> doc_regex_results_spec(query@, case_sensitive, source_name@, groups@, docs@, v@),
{
    let rx = match CompiledRegex::compile(query, !case_sensitive, true) {
        Ok(rx) => rx,
        Err(e) => { return Err(e); },
    };
    let mut out: Vec<ScoredResult> = Vec::new();
    let mut i: usize = 0;
    while i < groups.len()
        invariant
            i <= groups@.len(),
            docs@.len() == groups@.len(),
            forall|m: int| 0 <= m < docs@.len() ==> utf8_len((#[trigger] docs@[m])@) < usize::MAX,
            rx@ == (query@, !case_sensitive, true),
            ({
                let hits = doc_hits(query@, case_sensitive, docs@, i as int);
                &&& out@.len() == hits.len()
                &&& forall|k: int| 0 <= k < out@.len() ==> {
                    let j = #[trigger] hits[k];
                    let rep = groups@[j].representative;
                    let (line, text) = doc_hit_line(query@, case_sensitive, rep, docs@[j]@);
                    &&& 0 <= j < i
                    &&& out@[k].file_id == rep.file_id
                    &&& out@[k].result.line_number == line
                    &&& result_with(out@[k].result, source_name@, CandidateRow { line_number: out@[k].result.line_number, ..rep }, text, 0)
                    &&& out@[k].result.extra_matches@.len() == 0
                }
            }),
        decreases groups@.len() - i,
    {
        let doc = docs[i].as_str();
        if rx.is_match(doc) {
            let rep = &groups[i].representative;
            let (line, text) = match rx.find(doc) {
                Some((a, _b)) => matched_line(doc, a),
                None => (rep.line_number, rep.content.clone()),
            };
            let shown = CandidateRow {
                file_path: rep.file_path.clone(),
                file_kind: rep.file_kind.clone(),
                archive_path: copy_opt(&rep.archive_path),
                line_number: line,
                content: String::new(),
                mtime: rep.mtime,
                size: rep.size,
                file_id: rep.file_id,
            };
            let res = make_result_with(source_name, &shown, text.as_str(), 0, Vec::new());
            out.push(ScoredResult { result: res, file_id: rep.file_id });
        }
        i = i + 1;
    }
    Ok(out)
}

/// The positions among the first `n` documents where the expression
/// matches.
pub open spec fn doc_hits(query: Seq<char>, case_sensitive: bool, docs: Seq<String>, n: int) -> Seq<int>
    decreases n,
{
    if n <= 0 {
        Seq::empty()
    } else if regex_matches(query, !case_sensitive, true, docs[n - 1]@) {
        doc_hits(query, case_sensitive, docs, n - 1).push(n - 1)
    } else {
        doc_hits(query, case_sensitive, docs, n - 1)
    }
}

} // verus!
