//! The search of one source: the full-text candidates of the query in its
//! mode, then the mode's matching and scoring, then the duplicates of the
//! result files. Regex modes need the candidates' content, and
//! document-regex mode the whole text of each candidate file; the caller
//! loads them from the content store between the two steps.
use vstd::prelude::*;
use crate::db::DbError;
use crate::db_search::{
    document_candidates, fetch_duplicates_for_file_ids, fts_candidates, doc_cap, fts_answer, document_reading, groups_from,
};
use crate::documents::{long_words, collect_rows, RankedRow};
use crate::search::DateFilter;
use crate::results::{
    attach_duplicates, fts_plan, group_by_file, CandidateRow, DocumentGroup, ScoredResult, SearchMode, SearchResult,
    groups, result_from, context_of,
};
use crate::matching::{document_results, doc_regex_results, line_mode_results, regex_valid, is_regex_mode, fuzzy_score_of};
use crate::archive::utf8_len;

verus! {

/// What the first step of a source's search leaves to do.
pub enum SourcePlan {
    /// Finished: the source's total and its results.
    Done(usize, Vec<SearchResult>),
    /// Regex modes: the candidates, whose content (by file id and line
    /// number) the caller loads, in the same order.
    NeedLines(Vec<CandidateRow>),
    /// Document-regex mode: the file groups, whose whole text (by the
    /// representative's file id) the caller loads, in the same order.
    NeedDocs(Vec<DocumentGroup>),
}

/// The library's error text of a database error.
fn message(e: DbError) -> (r: String)
    ensures
        r == e.message,
{
    e.message
}

/// Whether every candidate's content and path are short enough for the
/// fuzzy matcher.
fn fits_matcher(c: &Vec<CandidateRow>) -> (b: bool)
    ensures
        b <==> fits_all(c@),
{
    let mut i: usize = 0;
    while i < c.len()
        invariant
            i <= c@.len(),
            forall|j: int| 0 <= j < i ==> (#[trigger] c@[j]).content@.len() < 0xFFFF_FFFF
                && c@[j].file_path@.len() < 0xFFFF_FFFF,
        decreases c@.len() - i,
    {
        let n = crate::text::to_chars(c[i].content.as_str()).len();
        let m = crate::text::to_chars(c[i].file_path.as_str()).len();
        if n >= 0xFFFF_FFFF || m >= 0xFFFF_FFFF {
            assert(!((c@[i as int]).content@.len() < 0xFFFF_FFFF && c@[i as int].file_path@.len() < 0xFFFF_FFFF));
            return false;
        }
        i = i + 1;
    }
    true
}

/// The refusal of candidates too long for the fuzzy matcher.
fn too_long() -> (r: String)
    ensures
        r@ == "candidate text too long to score"@,
{
    "candidate text too long to score".to_owned()
}

/// The file ids of scored results, in order.
pub open spec fn file_ids_of(pairs: Seq<ScoredResult>) -> Seq<i64> {
    pairs.map_values(|p: ScoredResult| p.file_id)
}

/// `dups` are the duplicates of the files `ids` as the database answered
/// the duplicate query (see `fetch_duplicates_for_file_ids`); none when
/// there are no ids.
pub open spec fn dups_answered(ids: Seq<i64>, dups: Seq<(i64, Vec<String>)>) -> bool {
    if ids.len() == 0 {
        dups.len() == 0
    } else {
        exists|cells: Seq<Seq<crate::db::SqlCell>>, rows: Seq<(i64, Seq<char>)>| {
            &&& #[trigger] crate::db::answered(crate::db_search::duplicates_sql(ids.len()), crate::db_search::id_views(ids), cells)
            &&& #[trigger] crate::db_search::id_paths_read(cells, rows)
            &&& crate::db_search::grouped(rows, dups)
        }
    }
}

/// `r` are the results `pairs` with the duplicates listed in `dups` filled
/// in (as `attach_duplicates` does).
pub open spec fn duplicates_attached(pairs: Seq<ScoredResult>, dups: Seq<(i64, Vec<String>)>, r: Seq<SearchResult>) -> bool {
    &&& dups_answered(file_ids_of(pairs), dups)
    &&& r.len() == pairs.len()
    &&& forall|k: int| 0 <= k < r.len() ==> {
        let p = #[trigger] pairs[k];
        &&& r[k] == SearchResult { duplicate_paths: r[k].duplicate_paths, ..p.result }
        &&& r[k].duplicate_paths@ == match crate::results::dups_for(dups, p.file_id, 0) {
            Some(v) => v,
            None => p.result.duplicate_paths@,
        }
    }
}

/// The contents of the candidates, in order.
pub open spec fn contents_of(c: Seq<CandidateRow>) -> Seq<String> {
    c.map_values(|x: CandidateRow| x.content)
}

/// The results with the duplicates of their files filled in.
fn with_duplicates(conn: &rusqlite::Connection, pairs: Vec<ScoredResult>) -> (r: Result<Vec<SearchResult>, String>)
    ensures
        r matches Ok(v) ==> v@.len() == pairs@.len() && exists|dups: Seq<(i64, Vec<String>)>| #[trigger] duplicates_attached(pairs@, dups, v@),
        pairs@.len() == 0 ==> (r matches Ok(v) && v@.len() == 0),
{
    let mut ids: Vec<i64> = Vec::new();
    let mut i: usize = 0;
    while i < pairs.len()
        invariant
            i <= pairs@.len(),
            ids@ == file_ids_of(pairs@.subrange(0, i as int)),
        decreases pairs@.len() - i,
    {
        ids.push(pairs[i].file_id);
        i = i + 1;
        assert(ids@ =~= file_ids_of(pairs@.subrange(0, i as int)));
    }
    assert(pairs@.subrange(0, pairs@.len() as int) =~= pairs@);
    assert(ids@.len() == pairs@.len());
    match fetch_duplicates_for_file_ids(conn, &ids) {
        Ok(dups) => {
            let ghost ps = pairs@;
            proof {
                if ids@.len() > 0 {
                    let (cells, rows) = choose|cells: Seq<Seq<crate::db::SqlCell>>, rows: Seq<(i64, Seq<char>)>| {
                        &&& #[trigger] crate::db::answered(crate::db_search::duplicates_sql(ids@.len()), crate::db_search::id_views(ids@), cells)
                        &&& #[trigger] crate::db_search::id_paths_read(cells, rows)
                        &&& crate::db_search::grouped(rows, dups@)
                    };
                    assert(crate::db_search::id_paths_read(cells, rows));
                }
                assert(dups_answered(ids@, dups@));
            }
            let v = attach_duplicates(pairs, &dups);
            assert(duplicates_attached(ps, dups@, v@));
            let res: Result<Vec<SearchResult>, String> = Ok(v);
            assert(res->Ok_0@.len() == ps.len() && duplicates_attached(ps, dups@, res->Ok_0@));
            res
        },
        Err(e) => Err(message(e)),
    }
}

/// The filters of a search: its time range and kinds; file names only in
/// the `file-*` modes.
pub fn search_filter(date_from: Option<i64>, date_to: Option<i64>, kinds: &Vec<String>, filename_only: bool) -> (r: DateFilter)
    ensures
        r.from == date_from,
        r.to == date_to,
        r.kinds@ == kinds@,
        r.filename_only == filename_only,
        r.path_prefix is None,
{
    let mut k: Vec<String> = Vec::new();
    let mut i: usize = 0;
    while i < kinds.len()
        invariant
            i <= kinds@.len(),
            k@ == kinds@.subrange(0, i as int),
        decreases kinds@.len() - i,
    {
        k.push(kinds[i].clone());
        assert(k@ =~= kinds@.subrange(0, i + 1));
        i = i + 1;
    }
    assert(kinds@.subrange(0, kinds@.len() as int) =~= kinds@);
    DateFilter { from: date_from, to: date_to, kinds: k, filename_only, path_prefix: None }
}

/// `d` is the filter `search_filter` makes of these parameters.
pub open spec fn is_search_filter(d: DateFilter, from: Option<i64>, to: Option<i64>, kinds: Seq<String>, filename_only: bool) -> bool {
    &&& d.from == from
    &&& d.to == to
    &&& d.kinds@ == kinds
    &&& d.filename_only == filename_only
    &&& d.path_prefix is None
}

/// Whether a line mode asks the full-text index for a phrase.
pub open spec fn plan_phrase(mode: SearchMode) -> bool {
    !(mode == SearchMode::Fuzzy || mode == SearchMode::FileFuzzy || mode == SearchMode::Regex || mode == SearchMode::FileRegex)
}

/// The full-text query of a mode: the literal runs of an expression in the
/// regex modes, else the query itself.
pub open spec fn plan_query(mode: SearchMode, query: Seq<char>) -> Seq<char> {
    if mode == SearchMode::Regex || mode == SearchMode::FileRegex || mode == SearchMode::DocRegex {
        crate::search::join_spaces(crate::search::regex_runs(query, 0, Seq::empty(), Seq::empty()))
    } else {
        query
    }
}

/// What the document search of `query` found under `date`: no tokens
/// give `(0, [])`; else `n` files qualified (see `document_reading`) and
/// `g` are the groups of the first `limit` of them.
pub open spec fn document_found(query: Seq<char>, limit: usize, date: DateFilter, n: usize, g: Seq<DocumentGroup>) -> bool {
    if long_words(crate::wrap::words_of(query)).len() == 0 {
        n == 0 && g.len() == 0
    } else {
        exists|per_token: Seq<Seq<i64>>, q: Seq<i64>, ranked: Seq<RankedRow>| {
            &&& #[trigger] document_reading(long_words(crate::wrap::words_of(query)), limit, date, per_token, q, ranked)
            &&& q.no_duplicates()
            &&& n == q.len()
            &&& groups_from(collect_rows(q, doc_cap(query), limit as int, ranked), limit as int, g)
        }
    }
}

/// `pairs` score each group's representative against `query` (1 where
/// the matcher gives no score), its members becoming extra matches (as
/// `document_results` does).
pub open spec fn document_scored(query: Seq<char>, case_sensitive: bool, source: Seq<char>, g: Seq<DocumentGroup>, pairs: Seq<ScoredResult>) -> bool {
    &&& pairs.len() == g.len()
    &&& forall|k: int| 0 <= k < pairs.len() ==> {
        let x = #[trigger] g[k];
        let score = match fuzzy_score_of(query, case_sensitive, x.representative.content@) {
            Some(s) => s,
            None => 1u32,
        };
        &&& pairs[k].file_id == x.representative.file_id
        &&& result_from(pairs[k].result, source, x.representative, score)
        &&& pairs[k].result.extra_matches@ == x.members@.map_values(|m: CandidateRow| context_of(m))
    }
}

/// `pairs` are the candidates grouped by file (as `group_by_file` does).
pub open spec fn grouped_by_file(c: Seq<CandidateRow>, source: Seq<char>, pairs: Seq<ScoredResult>) -> bool {
    &&& pairs.len() == groups(c, c.len() as int).len()
    &&& forall|k: int| 0 <= k < pairs.len() ==> {
        let g = #[trigger] groups(c, c.len() as int)[k];
        &&& pairs[k].file_id == c[g.0].file_id
        &&& result_from(pairs[k].result, source, c[g.0], 0)
        &&& pairs[k].result.extra_matches@ == g.1.map_values(|j: int| context_of(c[j]))
    }
}

/// The first step of the search of one source (see `SourcePlan`):
/// document mode and the exact and fuzzy modes finish here; the regex
/// modes stop after the candidates, document-regex mode after the file
/// groups (an invalid expression fails before any query). `limit` bounds
/// the candidates (or files) taken from the full-text index.
pub fn search_source_start(
    conn: &rusqlite::Connection,
    source_name: &str,
    mode: SearchMode,
    query_text: &str,
    case_sensitive: bool,
    limit: usize,
    date_from: Option<i64>,
    date_to: Option<i64>,
    kinds: &Vec<String>,
) -> (r: Result<SourcePlan, String>)
    requires
        mode == SearchMode::Document ==> limit * 20 * doc_cap(query_text@) <= usize::MAX,
        mode == SearchMode::DocRegex ==> limit * 20 * doc_cap(crate::search::join_spaces(
            crate::search::regex_runs(query_text@, 0, Seq::empty(), Seq::empty()))) <= usize::MAX,
    ensures
        r matches Ok(SourcePlan::NeedLines(_)) ==> is_regex_mode(mode),
        r matches Ok(SourcePlan::NeedDocs(_)) ==> mode == SearchMode::DocRegex,
        is_regex_mode(mode) ==> !(r matches Ok(SourcePlan::Done(_, _))),
        mode == SearchMode::DocRegex ==> (r is Ok ==> r matches Ok(SourcePlan::NeedDocs(_))),
        mode == SearchMode::DocRegex && !regex_valid(query_text@, !case_sensitive, true) ==> r is Err,
        mode == SearchMode::Document || mode == SearchMode::DocExact ==> (r is Ok ==> r matches Ok(SourcePlan::Done(_, _))),
        mode == SearchMode::Document ==> (r matches Ok(SourcePlan::Done(n, v)) ==>
            exists|date: DateFilter, g: Seq<DocumentGroup>, pairs: Seq<ScoredResult>, dups: Seq<(i64, Vec<String>)>|
                #![trigger document_found(query_text@, limit, date, n, g), duplicates_attached(pairs, dups, v@)] {
                &&& is_search_filter(date, date_from, date_to, kinds@, false)
                &&& document_found(query_text@, limit, date, n, g)
                &&& document_scored(query_text@, case_sensitive, source_name@, g, pairs)
                &&& duplicates_attached(pairs, dups, v@)
            }),
        mode == SearchMode::Document && long_words(crate::wrap::words_of(query_text@)).len() == 0 ==>
            (r matches Ok(SourcePlan::Done(n, v)) && n == 0 && v@.len() == 0),
        mode == SearchMode::DocExact ==> (r matches Ok(SourcePlan::Done(n, v)) ==>
            exists|date: DateFilter, cands: Seq<CandidateRow>, pairs: Seq<ScoredResult>, dups: Seq<(i64, Vec<String>)>|
                #![trigger fts_answer(query_text@, limit, true, date, cands), duplicates_attached(pairs, dups, v@)] {
                &&& is_search_filter(date, date_from, date_to, kinds@, false)
                &&& fts_answer(query_text@, limit, true, date, cands)
                &&& n == cands.len()
                &&& grouped_by_file(cands, source_name@, pairs)
                &&& duplicates_attached(pairs, dups, v@)
            }),
        mode == SearchMode::DocRegex ==> (r matches Ok(SourcePlan::NeedDocs(g)) ==>
            exists|date: DateFilter, n: usize| #![trigger document_found(plan_query(mode, query_text@), limit, date, n, g@)] {
                &&& is_search_filter(date, date_from, date_to, kinds@, false)
                &&& document_found(plan_query(mode, query_text@), limit, date, n, g@)
            }),
        r matches Ok(SourcePlan::NeedLines(c)) ==> exists|date: DateFilter| #![trigger fts_answer(plan_query(mode, query_text@), limit, plan_phrase(mode), date, c@)] {
            &&& is_search_filter(date, date_from, date_to, kinds@, mode.filename_only_spec())
            &&& fts_answer(plan_query(mode, query_text@), limit, plan_phrase(mode), date, c@)
        },
        mode != SearchMode::Document && mode != SearchMode::DocExact ==> (r matches Ok(SourcePlan::Done(n, v)) ==> {
            &&& n == v@.len()
            &&& exists|date: DateFilter, cands: Seq<CandidateRow>, pairs: Seq<ScoredResult>, dups: Seq<(i64, Vec<String>)>|
                #![trigger fts_answer(plan_query(mode, query_text@), limit, plan_phrase(mode), date, cands), duplicates_attached(pairs, dups, v@)] {
                &&& is_search_filter(date, date_from, date_to, kinds@, mode.filename_only_spec())
                &&& fts_answer(plan_query(mode, query_text@), limit, plan_phrase(mode), date, cands)
                &&& crate::matching::line_results(mode, query_text@, case_sensitive, source_name@, cands, contents_of(cands), pairs)
                &&& duplicates_attached(pairs, dups, v@)
            }
        }),
{
    match mode {
        SearchMode::Document => {
            let date = search_filter(date_from, date_to, kinds, false);
            let (total, groups) = match document_candidates(conn, query_text, limit, &date) {
                Ok(x) => x,
                Err(e) => { return Err(message(e)); },
            };
            let mut reps_fit = true;
            let mut i: usize = 0;
            while i < groups.len()
                invariant
                    i <= groups@.len(),
                    reps_fit ==> forall|j: int| 0 <= j < i ==> (#[trigger] groups@[j]).representative.content@.len() < 0xFFFF_FFFF,
                    groups@.len() == 0 ==> reps_fit,
                decreases groups@.len() - i,
            {
                if crate::text::to_chars(groups[i].representative.content.as_str()).len() >= 0xFFFF_FFFF {
                    reps_fit = false;
                }
                i = i + 1;
            }
            if !reps_fit {
                return Err(too_long());
            }
            let pairs = document_results(query_text, case_sensitive, source_name, &groups);
            let ghost ps = pairs@;
            assert(document_scored(query_text@, case_sensitive, source_name@, groups@, ps));
            assert(document_found(query_text@, limit, date, total, groups@));
            match with_duplicates(conn, pairs) {
                Ok(v) => {
                    let ghost dups = choose|dups: Seq<(i64, Vec<String>)>| duplicates_attached(ps, dups, v@);
                    let res: Result<SourcePlan, String> = Ok(SourcePlan::Done(total, v));
                    assert(res->Ok_0->Done_0 == total);
                    assert(is_search_filter(date, date_from, date_to, kinds@, false)
                        && document_found(query_text@, limit, date, res->Ok_0->Done_0, groups@)
                        && document_scored(query_text@, case_sensitive, source_name@, groups@, ps)
                        && duplicates_attached(ps, dups, res->Ok_0->Done_1@));
                    res
                },
                Err(e) => Err(e),
            }
        },
        SearchMode::DocExact => {
            let date = search_filter(date_from, date_to, kinds, false);
            let candidates = match fts_candidates(conn, query_text, limit, true, &date) {
                Ok(c) => c,
                Err(e) => { return Err(message(e)); },
            };
            let ghost cs = candidates@;
            let total = candidates.len();
            let pairs = group_by_file(&candidates, source_name);
            let ghost ps = pairs@;
            assert(grouped_by_file(cs, source_name@, ps));
            match with_duplicates(conn, pairs) {
                Ok(v) => {
                    let ghost dups = choose|dups: Seq<(i64, Vec<String>)>| duplicates_attached(ps, dups, v@);
                    let res: Result<SourcePlan, String> = Ok(SourcePlan::Done(total, v));
                    assert(fts_answer(query_text@, limit, true, date, cs)
                        && duplicates_attached(ps, dups, res->Ok_0->Done_1@));
                    res
                },
                Err(e) => Err(e),
            }
        },
        SearchMode::DocRegex => {
            match crate::matching::CompiledRegex::compile(query_text, !case_sensitive, true) {
                Ok(_) => {},
                Err(e) => { return Err(e); },
            }
            let terms = crate::search::regex_to_fts_terms(query_text);
            let date = search_filter(date_from, date_to, kinds, false);
            match document_candidates(conn, terms.as_str(), limit, &date) {
                Ok((n, groups)) => {
                    assert(is_search_filter(date, date_from, date_to, kinds@, false));
                    assert(terms@ == plan_query(mode, query_text@));
                    let ghost gs = groups@;
                    let res: Result<SourcePlan, String> = Ok(SourcePlan::NeedDocs(groups));
                    assert(res->Ok_0->NeedDocs_0@ == gs);
                    assert(is_search_filter(date, date_from, date_to, kinds@, false)
                        && document_found(plan_query(mode, query_text@), limit, date, n, res->Ok_0->NeedDocs_0@));
                    res
                },
                Err(e) => Err(message(e)),
            }
        },
        _ => {
            let filename_only = mode.is_filename_only();
            let date = search_filter(date_from, date_to, kinds, filename_only);
            let (phrase, fts_query) = fts_plan(mode, query_text);
            let candidates = match fts_candidates(conn, fts_query.as_str(), limit, phrase, &date) {
                Ok(c) => c,
                Err(e) => { return Err(message(e)); },
            };
            assert(fts_query@ == plan_query(mode, query_text@) && phrase == plan_phrase(mode));
            assert(is_search_filter(date, date_from, date_to, kinds@, mode.filename_only_spec()));
            assert(fts_answer(plan_query(mode, query_text@), limit, plan_phrase(mode), date, candidates@));
            if mode == SearchMode::Regex || mode == SearchMode::FileRegex {
                let ghost cs = candidates@;
                let res: Result<SourcePlan, String> = Ok(SourcePlan::NeedLines(candidates));
                assert(res->Ok_0->NeedLines_0@ == cs);
                assert(is_search_filter(date, date_from, date_to, kinds@, mode.filename_only_spec())
                    && fts_answer(plan_query(mode, query_text@), limit, plan_phrase(mode), date, res->Ok_0->NeedLines_0@));
                return res;
            }
            if !fits_matcher(&candidates) {
                return Err(too_long());
            }
            let mut contents: Vec<String> = Vec::new();
            let mut i: usize = 0;
            while i < candidates.len()
                invariant
                    i <= candidates@.len(),
                    contents@ == contents_of(candidates@.subrange(0, i as int)),
                decreases candidates@.len() - i,
            {
                contents.push(candidates[i].content.clone());
                i = i + 1;
                assert(contents@ =~= contents_of(candidates@.subrange(0, i as int)));
            }
            assert(candidates@.subrange(0, candidates@.len() as int) =~= candidates@);
            let pairs = match line_mode_results(mode, query_text, case_sensitive, source_name, &candidates, &contents) {
                Ok(p) => p,
                Err(e) => { return Err(e); },
            };
            let ghost ps = pairs@;
            let ghost cs = candidates@;
            match with_duplicates(conn, pairs) {
                Ok(v) => {
                    let ghost dups = choose|dups: Seq<(i64, Vec<String>)>| duplicates_attached(ps, dups, v@);
                    let res: Result<SourcePlan, String> = Ok(SourcePlan::Done(v.len(), v));
                    assert(fts_answer(plan_query(mode, query_text@), limit, plan_phrase(mode), date, cs)
                        && crate::matching::line_results(mode, query_text@, case_sensitive, source_name@, cs, contents_of(cs), ps)
                        && duplicates_attached(ps, dups, res->Ok_0->Done_1@));
                    res
                },
                Err(e) => Err(e),
            }
        },
    }
}

/// The second step in a regex mode: the candidates matched against their
/// loaded `contents` (same positions; empty when none was found), then the
/// duplicates. The total is the number of results. Fails when the
/// expression is invalid.
pub fn search_source_lines(
    conn: &rusqlite::Connection,
    source_name: &str,
    mode: SearchMode,
    query_text: &str,
    case_sensitive: bool,
    candidates: &Vec<CandidateRow>,
    contents: &Vec<String>,
) -> (r: Result<(usize, Vec<SearchResult>), String>)
    requires
        contents@.len() == candidates@.len(),
    ensures
        r matches Ok((n, v)) ==> n == v@.len() && exists|pairs: Seq<ScoredResult>, dups: Seq<(i64, Vec<String>)>|
            #[trigger] duplicates_attached(pairs, dups, v@)
            && crate::matching::line_results(mode, query_text@, case_sensitive, source_name@, candidates@, contents@, pairs),
        !fits_all(candidates@) ==> r is Err,
        is_regex_mode(mode) && !regex_valid(query_text@, !case_sensitive, false) && fits_all(candidates@) ==> r is Err,
{
    if !fits_matcher(candidates) {
        return Err(too_long());
    }
    let pairs = match line_mode_results(mode, query_text, case_sensitive, source_name, candidates, contents) {
        Ok(p) => p,
        Err(e) => { return Err(e); },
    };
    let ghost ps = pairs@;
    match with_duplicates(conn, pairs) {
        Ok(v) => {
            let ghost dups = choose|dups: Seq<(i64, Vec<String>)>| duplicates_attached(ps, dups, v@);
            let res: Result<(usize, Vec<SearchResult>), String> = Ok((v.len(), v));
            assert(duplicates_attached(ps, dups, res->Ok_0.1@)
                && crate::matching::line_results(mode, query_text@, case_sensitive, source_name@, candidates@, contents@, ps));
            res
        },
        Err(e) => Err(e),
    }
}

/// Every candidate's content and path are short enough for the fuzzy
/// matcher.
pub open spec fn fits_all(c: Seq<CandidateRow>) -> bool {
    forall|i: int| 0 <= i < c.len() ==> (#[trigger] c[i]).content@.len() < 0xFFFF_FFFF && c[i].file_path@.len() < 0xFFFF_FFFF
}

/// The second step in document-regex mode: the expression applied to each
/// file's loaded text (`docs`, same positions as `groups`), then the
/// duplicates. The total is the number of results.
pub fn search_source_docs(
    conn: &rusqlite::Connection,
    source_name: &str,
    query_text: &str,
    case_sensitive: bool,
    groups: &Vec<DocumentGroup>,
    docs: &Vec<String>,
) -> (r: Result<(usize, Vec<SearchResult>), String>)
    requires
        docs@.len() == groups@.len(),
    ensures
        r matches Ok((n, v)) ==> n == v@.len() && exists|pairs: Seq<ScoredResult>, dups: Seq<(i64, Vec<String>)>|
            #[trigger] duplicates_attached(pairs, dups, v@)
            && crate::matching::doc_regex_results_spec(query_text@, case_sensitive, source_name@, groups@, docs@, pairs),
        (exists|i: int| 0 <= i < docs@.len() && utf8_len((#[trigger] docs@[i])@) >= usize::MAX) ==> r is Err,
        !regex_valid(query_text@, !case_sensitive, true) ==> r is Err,
{
    let mut i: usize = 0;
    while i < docs.len()
        invariant
            i <= docs@.len(),
            forall|j: int| 0 <= j < i ==> utf8_len((#[trigger] docs@[j])@) < usize::MAX,
        decreases docs@.len() - i,
    {
        let n = crate::search::byte_len(docs[i].as_str());
        if n == usize::MAX {
            return Err(too_long());
        }
        i = i + 1;
    }
    let pairs = match doc_regex_results(query_text, case_sensitive, source_name, groups, docs) {
        Ok(p) => p,
        Err(e) => { return Err(e); },
    };
    let ghost ps = pairs@;
    match with_duplicates(conn, pairs) {
        Ok(v) => {
            proof {
                let dups = choose|dups: Seq<(i64, Vec<String>)>| duplicates_attached(ps, dups, v@);
                assert(duplicates_attached(ps, dups, v@));
            }
            Ok((v.len(), v))
        },
        Err(e) => Err(e),
    }
}

} // verus!
