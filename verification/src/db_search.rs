//! The search queries of a source database: counting and listing the
//! full-text candidates of a query under the search filters, the
//! document-mode candidates, and the duplicates of result files.
//!
//! The full-text row id packs a file id and a line number (see
//! `crate::rowid`), so a row's file id is the row id divided by the
//! multiplier and its line number the remainder; line 0 holds the file name.
use vstd::prelude::*;
use crate::db::{
    query, text_param, row_views, cell_at, text_of, int_of, opt_int_of, get_text, get_int,
    get_opt_int, read_single_int, single_int, SqlCell, DbError,
};
use crate::search::{build_fts_query, build_fts_query_spec, placeholder, DateFilter, ParamBinder, SqlValue, ParamView, param_view, param_views};
use crate::results::{CandidateRow, DocumentGroup};
use crate::documents::{
    document_tokens, token_phrase, or_expression, per_file_cap, fetch_limit, intersect_ids,
    long_words, collect_rows, CollectView, DocumentCollector, RankedRow, opt_view_str,
};
use crate::paths::{split_composite_path, split_composite_spec};
use crate::text::{push_str, push_char};

verus! {

/// The file id of a full-text row, in SQL.
pub open spec fn fts_file_id_sql() -> Seq<char> {
    "(lines_fts.rowid / 1000000)"@
}

/// The line number of a full-text row, in SQL.
pub open spec fn fts_line_number_sql() -> Seq<char> {
    "(lines_fts.rowid % 1000000)"@
}

// ── Filter clauses ───────────────────────────────────────────────────────────

/// The kinds as bound text values.
pub open spec fn kind_values(kinds: Seq<String>) -> Seq<SqlValue> {
    kinds.map_values(|k: String| SqlValue::Text(k))
}

/// The placeholders `?(start+1), ?(start+2), ..., ?(start+n)` joined
/// with `, `.
pub open spec fn placeholder_list(start: nat, n: nat) -> Seq<char>
    decreases n,
{
    if n == 0 {
        Seq::empty()
    } else if n == 1 {
        placeholder(start + 1)
    } else {
        placeholder_list(start, (n - 1) as nat) + ", "@ + placeholder(start + n)
    }
}

/// The text of the kind filter for `n` kinds bound after `start` values:
/// `AND <col>kind IN (?a, ?b, ...)`, empty when there are none.
pub open spec fn kind_clause_text(start: nat, n: nat, col: Seq<char>) -> Seq<char> {
    if n == 0 { Seq::empty() } else { "AND "@ + col + "kind IN ("@ + placeholder_list(start, n) + ")"@ }
}

/// `AND <col>kind IN (?a, ?b, ...)`, binding each kind in order; empty
/// when there are no kinds.
fn kind_clause(p: &mut ParamBinder, kinds: &Vec<String>, col: &str) -> (r: String)
    ensures
        final(p).params@ == old(p).params@ + kind_values(kinds@),
        r@ == kind_clause_text(old(p).params@.len(), kinds@.len(), col@),
{
    let mut s = String::new();
    if kinds.len() == 0 {
        assert(kind_values(kinds@) =~= Seq::<SqlValue>::empty());
        assert(p.params@ + kind_values(kinds@) =~= p.params@);
        return s;
    }
    push_str(&mut s, "AND ");
    push_str(&mut s, col);
    push_str(&mut s, "kind IN (");
    let ghost start = p.params@;
    let ghost head = s@;
    let mut i: usize = 0;
    while i < kinds.len()
        invariant
            i <= kinds@.len(),
            p.params@ == start + kind_values(kinds@.subrange(0, i as int)),
            s@ == head + placeholder_list(start.len(), i as nat),
        decreases kinds@.len() - i,
    {
        if i > 0 {
            push_str(&mut s, ", ");
        }
        let ph = p.push(SqlValue::Text(kinds[i].clone()));
        push_str(&mut s, ph.as_str());
        proof {
            if i == 0 {
                assert(s@ =~= head + placeholder_list(start.len(), 1));
            } else {
                assert(s@ =~= head + placeholder_list(start.len(), (i + 1) as nat));
            }
        }
        assert(kind_values(kinds@.subrange(0, i + 1)) =~= kind_values(kinds@.subrange(0, i as int)).push(SqlValue::Text(kinds@[i as int])));
        i = i + 1;
    }
    assert(kinds@.subrange(0, kinds@.len() as int) =~= kinds@);
    push_char(&mut s, ')');
    proof { reveal_strlit(")"); }
    assert(head =~= "AND "@ + col@ + "kind IN ("@);
    assert(s@ =~= kind_clause_text(start.len(), kinds@.len(), col@));
    s
}

/// A bound value that is the `LIKE` pattern of paths below `prefix`:
/// `<prefix>/%`.
pub open spec fn below_pattern(v: SqlValue, prefix: Seq<char>) -> bool {
    v matches SqlValue::Text(l) && l@ == prefix + "/%"@
}

/// The text of the path filter for values bound after `start`:
/// `AND (<col>path = ?a OR <col>path LIKE ?b)`, empty without a prefix.
pub open spec fn prefix_clause_text(start: nat, present: bool, col: Seq<char>) -> Seq<char> {
    if present {
        "AND ("@ + col + "path = "@ + placeholder(start + 1) + " OR "@ + col + "path LIKE "@ + placeholder(start + 2) + ")"@
    } else {
        Seq::empty()
    }
}

/// `AND (<col>path = ?a OR <col>path LIKE ?b)` binding the prefix and
/// `<prefix>/%`; empty when there is no prefix.
fn prefix_clause(p: &mut ParamBinder, prefix: &Option<String>, col: &str) -> (r: String)
    ensures
        r@ == prefix_clause_text(old(p).params@.len(), prefix is Some, col@),
        final(p).params@.len() == old(p).params@.len() + (if prefix is Some { 2int } else { 0int }),
        final(p).params@.subrange(0, old(p).params@.len() as int) == old(p).params@,
        prefix matches Some(x) ==> (final(p).params@[old(p).params@.len() as int] == SqlValue::Text(*x)
            && below_pattern(final(p).params@[old(p).params@.len() + 1int], x@)),
{
    let mut s = String::new();
    match prefix {
        Some(x) => {
            let ghost start = p.params@;
            let eq = p.push(SqlValue::Text(x.clone()));
            let mut like = x.clone();
            push_str(&mut like, "/%");
            let lk = p.push(SqlValue::Text(like));
            push_str(&mut s, "AND (");
            push_str(&mut s, col);
            push_str(&mut s, "path = ");
            push_str(&mut s, eq.as_str());
            push_str(&mut s, " OR ");
            push_str(&mut s, col);
            push_str(&mut s, "path LIKE ");
            push_str(&mut s, lk.as_str());
            push_char(&mut s, ')');
            proof { reveal_strlit(")"); }
            assert(s@ =~= prefix_clause_text(start.len(), true, col@));
            assert(p.params@.subrange(0, start.len() as int) =~= start);
        },
        None => {
            assert(p.params@.subrange(0, p.params@.len() as int) =~= p.params@);
        },
    }
    s
}

/// The bounds of a time filter: the given bounds, else the `i64` extremes.
pub open spec fn time_bounds(date: DateFilter) -> (i64, i64) {
    (match date.from { Some(f) => f, None => i64::MIN }, match date.to { Some(t) => t, None => i64::MAX })
}

// ── Counting ─────────────────────────────────────────────────────────────────

/// The statement that counts the full-text matches of `fts`, at most
/// `limit`: with a time, kind, path or name-only filter, joined with the
/// files and restricted to the time range, the kinds and (name-only) line
/// 0; else on the index alone.
pub open spec fn count_statement_spec(fts: Seq<char>, limit: usize, date: DateFilter) -> (Seq<char>, Seq<ParamView>) {
    let (from, to) = time_bounds(date);
    let nk = date.kinds@.len();
    if date.from is Some || date.to is Some || nk > 0 || date.path_prefix is Some || date.filename_only {
        (
            "SELECT count(*) FROM (SELECT 1 FROM lines_fts JOIN files f ON f.id = (lines_fts.rowid / 1000000) WHERE lines_fts MATCH "@
                + placeholder(1) + " AND f.mtime BETWEEN "@ + placeholder(3) + " AND "@ + placeholder(4)
                + seq![' '] + kind_clause_text(4, nk, "f."@)
                + (if date.filename_only { " AND (lines_fts.rowid % 1000000) = 0"@ } else { Seq::empty() })
                + " LIMIT "@ + placeholder(2) + seq![')'],
            seq![ParamView::Text(fts), ParamView::Integer(limit as i64), ParamView::Integer(from), ParamView::Integer(to)]
                + kind_views(date.kinds@),
        )
    } else {
        (
            "SELECT count(*) FROM (SELECT 1 FROM lines_fts WHERE lines_fts MATCH ?1 LIMIT ?2)"@,
            seq![ParamView::Text(fts), ParamView::Integer(limit as i64)],
        )
    }
}

/// The database answered the counting statement `st` with rows whose
/// count is `n`.
pub open spec fn count_answered(st: (Seq<char>, Seq<ParamView>), n: usize) -> bool {
    exists|rows: Seq<Seq<SqlCell>>| #[trigger] crate::db::answered(st.0, st.1, rows) && crate::db::count_reading(rows) == Some(n)
}

/// The number of full-text matches of `query` (a phrase when `phrase`),
/// at most `limit`, under the filters of `date`; 0 when the query has no
/// terms to match.
pub fn fts_count(conn: &rusqlite::Connection, query_text: &str, limit: usize, phrase: bool, date: &DateFilter) -> (r: Result<usize, DbError>)
    ensures
        build_fts_query_spec(query_text@, phrase) is None ==> r == Ok::<usize, DbError>(0),
        r matches Ok(n) ==> build_fts_query_spec(query_text@, phrase) is None
            || exists|rows: Seq<Seq<SqlCell>>| #[trigger] crate::db::count_reading(rows) == Some(n),
        r matches Ok(n) ==> (build_fts_query_spec(query_text@, phrase) matches Some(f) ==>
            count_answered(count_statement_spec(f, limit, *date), n)),
{
    let fts = match build_fts_query(query_text, phrase) {
        Some(q) => q,
        None => { return Ok(0); },
    };
    let ghost fv = fts@;
    let mut p = ParamBinder::new();
    let mut sql = String::new();
    if !date.is_active() && !date.filename_only {
        p.push(SqlValue::Text(fts));
        p.push(SqlValue::Integer(limit as i64));
        push_str(&mut sql, "SELECT count(*) FROM (SELECT 1 FROM lines_fts WHERE lines_fts MATCH ?1 LIMIT ?2)");
        proof {
            assert(sql@ =~= count_statement_spec(fv, limit, *date).0);
            assert(param_views(p.params@) =~= count_statement_spec(fv, limit, *date).1);
        }
    } else {
        let (from, to) = bounds_of(date);
        let fts_ph = p.push(SqlValue::Text(fts));
        let limit_ph = p.push(SqlValue::Integer(limit as i64));
        let from_ph = p.push(SqlValue::Integer(from));
        let to_ph = p.push(SqlValue::Integer(to));
        let ghost four = p.params@;
        let kinds = kind_clause(&mut p, &date.kinds, "f.");
        push_str(&mut sql, "SELECT count(*) FROM (SELECT 1 FROM lines_fts JOIN files f ON f.id = (lines_fts.rowid / 1000000) WHERE lines_fts MATCH ");
        push_str(&mut sql, fts_ph.as_str());
        push_str(&mut sql, " AND f.mtime BETWEEN ");
        push_str(&mut sql, from_ph.as_str());
        push_str(&mut sql, " AND ");
        push_str(&mut sql, to_ph.as_str());
        push_char(&mut sql, ' ');
        push_str(&mut sql, kinds.as_str());
        if date.filename_only {
            push_str(&mut sql, " AND (lines_fts.rowid % 1000000) = 0");
        }
        push_str(&mut sql, " LIMIT ");
        push_str(&mut sql, limit_ph.as_str());
        push_char(&mut sql, ')');
        proof {
            lemma_param_views_add(four, kind_values(date.kinds@));
            assert(param_views(four) =~= seq![ParamView::Text(fv), ParamView::Integer(limit as i64), ParamView::Integer(from), ParamView::Integer(to)]);
            assert(param_views(p.params@) =~= count_statement_spec(fv, limit, *date).1);
            assert(sql@ =~= count_statement_spec(fv, limit, *date).0);
        }
    }
    let rows = match query(conn, sql.as_str(), p.as_refs()) {
        Ok(rows) => rows,
        Err(e) => { return Err(e); },
    };
    match read_single_int(&rows) {
        Ok(x) => {
            assert(crate::db::count_reading(row_views(rows@)) == Some(x as usize));
            assert(crate::db::answered(count_statement_spec(fv, limit, *date).0, count_statement_spec(fv, limit, *date).1, row_views(rows@)));
            assert(build_fts_query_spec(query_text@, phrase) == Some(fv));
            let res: Result<usize, DbError> = Ok(x as usize);
            assert(crate::db::answered(count_statement_spec(fv, limit, *date).0, count_statement_spec(fv, limit, *date).1, row_views(rows@))
                && crate::db::count_reading(row_views(rows@)) == Some(res->Ok_0));
            assert(count_answered(count_statement_spec(fv, limit, *date), res->Ok_0));
            res
        },
        Err(e) => Err(e),
    }
}

/// The time bounds of a filter.
fn bounds_of(date: &DateFilter) -> (r: (i64, i64))
    ensures
        r == time_bounds(*date),
{
    (match date.from { Some(f) => f, None => i64::MIN }, match date.to { Some(t) => t, None => i64::MAX })
}

// ── Candidates ───────────────────────────────────────────────────────────────

/// A ranked row `(path, kind, line number, file id, time, size)` from its
/// cells, the line number taken `as usize`.
pub open spec fn ranked_row_of(row: Seq<SqlCell>) -> Option<(Seq<char>, Seq<char>, usize, i64, i64, Option<i64>)> {
    match (text_of(cell_at(row, 0)), text_of(cell_at(row, 1)), int_of(cell_at(row, 2)), int_of(cell_at(row, 3)),
        int_of(cell_at(row, 4)), opt_int_of(cell_at(row, 5))) {
        (Some(p), Some(k), Some(l), Some(id), Some(m), Some(z)) => Some((p, k, l as usize, id, m, z)),
        _ => None,
    }
}

/// The model of a ranked row.
pub open spec fn ranked_view(r: RankedRow) -> (Seq<char>, Seq<char>, usize, i64, i64, Option<i64>) {
    (r.0@, r.1@, r.2, r.3, r.4, r.5)
}

/// `vals` are the ranked rows read one by one.
pub open spec fn ranked_read(rows: Seq<Seq<SqlCell>>, vals: Seq<RankedRow>) -> bool {
    crate::db::reads_as(rows, vals, |row: Seq<SqlCell>| ranked_row_of(row), |x: RankedRow| ranked_view(x))
}

/// Reads ranked rows.
pub fn read_ranked_rows(rows: &Vec<Vec<SqlCell>>) -> (r: Result<Vec<RankedRow>, DbError>)
    ensures
        match r {
            Ok(v) => ranked_read(row_views(rows@), v@),
            Err(_) => exists|k: int| 0 <= k < rows@.len() && ranked_row_of(#[trigger] rows@[k]@) is None,
        },
{
    let mut out: Vec<RankedRow> = Vec::new();
    let mut k: usize = 0;
    while k < rows.len()
        invariant
            k <= rows@.len(),
            out@.len() == k,
            forall|j: int| 0 <= j < k ==> ranked_row_of(rows@[j]@) == Some(ranked_view(#[trigger] out@[j])),
        decreases rows@.len() - k,
    {
        let row = &rows[k];
        let p = match get_text(row, 0) { Ok(x) => x, Err(e) => { return Err(e); } };
        let kind = match get_text(row, 1) { Ok(x) => x, Err(e) => { return Err(e); } };
        let l = match get_int(row, 2) { Ok(x) => x, Err(e) => { return Err(e); } };
        let id = match get_int(row, 3) { Ok(x) => x, Err(e) => { return Err(e); } };
        let m = match get_int(row, 4) { Ok(x) => x, Err(e) => { return Err(e); } };
        let z = match get_opt_int(row, 5) { Ok(x) => x, Err(e) => { return Err(e); } };
        out.push((p, kind, l as usize, id, m, z));
        k = k + 1;
    }
    assert(ranked_read(row_views(rows@), out@));
    Ok(out)
}

/// The candidate of a ranked row: its path split at the first `::`, no
/// content.
pub open spec fn candidate_of(row: RankedRow, c: CandidateRow) -> bool {
    &&& (c.file_path@, opt_view_str(c.archive_path)) == split_composite_spec(row.0@)
    &&& c.file_kind@ == row.1@
    &&& c.line_number == row.2
    &&& c.file_id == row.3
    &&& c.mtime == row.4
    &&& c.size == row.5
    &&& c.content@.len() == 0
}

/// The candidates of ranked rows, in order.
pub fn candidates_of(rows: &Vec<RankedRow>) -> (r: Vec<CandidateRow>)
    ensures
        r@.len() == rows@.len(),
        forall|k: int| 0 <= k < r@.len() ==> candidate_of(rows@[k], #[trigger] r@[k]),
{
    let mut out: Vec<CandidateRow> = Vec::new();
    let mut k: usize = 0;
    while k < rows.len()
        invariant
            k <= rows@.len(),
            out@.len() == k,
            forall|j: int| 0 <= j < k ==> candidate_of(rows@[j], #[trigger] out@[j]),
        decreases rows@.len() - k,
    {
        let row = &rows[k];
        let (fp, ap) = split_composite_path(row.0.as_str());
        out.push(CandidateRow {
            file_path: fp,
            file_kind: row.1.clone(),
            archive_path: ap,
            line_number: row.2,
            content: String::new(),
            mtime: row.4,
            size: row.5,
            file_id: row.3,
        });
        k = k + 1;
    }
    out
}

/// The candidates are those of some ranked rows.
pub open spec fn candidates_from(v: Seq<CandidateRow>, rows: Seq<RankedRow>) -> bool {
    &&& v.len() == rows.len()
    &&& forall|k: int| 0 <= k < v.len() ==> candidate_of(rows[k], #[trigger] v[k])
}

/// The models of the kinds bound as text values.
pub open spec fn kind_views(kinds: Seq<String>) -> Seq<ParamView> {
    param_views(kind_values(kinds))
}

/// The models of the values a path prefix binds: the prefix and
/// `<prefix>/%`; none without a prefix.
pub open spec fn prefix_views(prefix: Option<String>) -> Seq<ParamView> {
    match prefix {
        Some(x) => seq![ParamView::Text(x@), ParamView::Text(x@ + "/%"@)],
        None => Seq::empty(),
    }
}

/// The statement of the name rows (line 0) of the files under the path
/// prefix of `date`, within its time and kind filters.
pub open spec fn prefix_statement_spec(limit: usize, date: DateFilter) -> Option<(Seq<char>, Seq<ParamView>)> {
    let (from, to) = time_bounds(date);
    Some((
        "SELECT f.path, f.kind, 0 AS line_number, f.id, f.mtime, f.size FROM files f WHERE (f.path = "@ + placeholder(1)
            + " OR f.path LIKE "@ + placeholder(2) + ") AND f.mtime BETWEEN "@ + placeholder(4) + " AND "@ + placeholder(5)
            + seq![' '] + kind_clause_text(5, date.kinds@.len(), "f."@)
            + (if date.filename_only { " AND f.id NOT LIKE '%::%'"@ } else { Seq::empty() })
            + " LIMIT "@ + placeholder(3),
        prefix_views(date.path_prefix) + seq![ParamView::Integer(limit as i64), ParamView::Integer(from), ParamView::Integer(to)]
            + kind_views(date.kinds@),
    ))
}

/// The statement of the full-text lines matching `fts`: with any filter
/// (or file names only), joined with the files and filtered by time,
/// kinds, path prefix and line 0; else the plain match. At most `limit`.
pub open spec fn match_statement_spec(fts: Seq<char>, limit: usize, date: DateFilter) -> Option<(Seq<char>, Seq<ParamView>)> {
    let (from, to) = time_bounds(date);
    let nk = date.kinds@.len();
    if date.from is Some || date.to is Some || nk > 0 || date.path_prefix is Some || date.filename_only {
        Some((
            "SELECT f.path, f.kind, (lines_fts.rowid % 1000000) AS line_number, f.id, f.mtime, f.size FROM lines_fts JOIN files f ON f.id = (lines_fts.rowid / 1000000) WHERE lines_fts MATCH "@
                + placeholder(1) + " AND f.mtime BETWEEN "@ + placeholder(3) + " AND "@ + placeholder(4)
                + seq![' '] + kind_clause_text(4, nk, "f."@) + seq![' '] + prefix_clause_text(4 + nk, date.path_prefix is Some, "f."@)
                + (if date.filename_only { " AND (lines_fts.rowid % 1000000) = 0"@ } else { Seq::empty() })
                + " LIMIT "@ + placeholder(2),
            seq![ParamView::Text(fts), ParamView::Integer(limit as i64), ParamView::Integer(from), ParamView::Integer(to)]
                + kind_views(date.kinds@) + prefix_views(date.path_prefix),
        ))
    } else {
        Some((
            "SELECT f.path, f.kind, (lines_fts.rowid % 1000000) AS line_number, f.id, f.mtime, f.size FROM lines_fts JOIN files f ON f.id = (lines_fts.rowid / 1000000) WHERE lines_fts MATCH ?1 LIMIT ?2"@,
            seq![ParamView::Text(fts), ParamView::Integer(limit as i64)],
        ))
    }
}

/// The statement that selects the full-text candidates of `query` (see
/// `fts_candidates`): its SQL text and the models of its values; none when
/// the query has no terms and no path prefix is set (nothing to select).
pub open spec fn fts_statement_spec(query: Seq<char>, limit: usize, phrase: bool, date: DateFilter) -> Option<(Seq<char>, Seq<ParamView>)> {
    match build_fts_query_spec(query, phrase) {
        None => if date.path_prefix is Some { prefix_statement_spec(limit, date) } else { None },
        Some(fts) => match_statement_spec(fts, limit, date),
    }
}

/// The candidates `v` come from an answer to the statement `sql` with
/// `ps`: the answer's rows read as ranked rows, each made a candidate.
pub open spec fn answer_candidates(sql: Seq<char>, ps: Seq<ParamView>, v: Seq<CandidateRow>) -> bool {
    exists|cells: Seq<Seq<SqlCell>>, ranked: Seq<RankedRow>|
        #[trigger] crate::db::answered(sql, ps, cells) && #[trigger] ranked_read(cells, ranked) && candidates_from(v, ranked)
}

/// `v` is what the candidate search of `query` gives: nothing when there
/// is no statement to run, else the candidates read from the database's
/// answer to the statement of `fts_statement_spec`.
pub open spec fn fts_answer(query: Seq<char>, limit: usize, phrase: bool, date: DateFilter, v: Seq<CandidateRow>) -> bool {
    match fts_statement_spec(query, limit, phrase, date) {
        None => v.len() == 0,
        Some((sql, ps)) => answer_candidates(sql, ps, v),
    }
}

/// Models of values joined: the models of each part.
proof fn lemma_param_views_add(a: Seq<SqlValue>, b: Seq<SqlValue>)
    ensures
        param_views(a + b) == param_views(a) + param_views(b),
{
    assert(param_views(a + b) =~= param_views(a) + param_views(b));
}

/// The statement of the name rows under a path prefix (see
/// `fts_statement_spec`).
fn prefix_statement(prefix: &String, limit: usize, date: &DateFilter) -> (r: (String, Vec<SqlValue>))
    requires
        date.path_prefix == Some(*prefix),
    ensures
        Some((r.0@, param_views(r.1@))) == prefix_statement_spec(limit, *date),
{
    let mut p = ParamBinder::new();
    let mut sql = String::new();
    let (from, to) = bounds_of(date);
    let eq_ph = p.push(SqlValue::Text(prefix.clone()));
    let mut like = prefix.clone();
    push_str(&mut like, "/%");
    let like_ph = p.push(SqlValue::Text(like));
    let limit_ph = p.push(SqlValue::Integer(limit as i64));
    let from_ph = p.push(SqlValue::Integer(from));
    let to_ph = p.push(SqlValue::Integer(to));
    let ghost five = p.params@;
    let kinds = kind_clause(&mut p, &date.kinds, "f.");
    push_str(&mut sql, "SELECT f.path, f.kind, 0 AS line_number, f.id, f.mtime, f.size FROM files f WHERE (f.path = ");
    push_str(&mut sql, eq_ph.as_str());
    push_str(&mut sql, " OR f.path LIKE ");
    push_str(&mut sql, like_ph.as_str());
    push_str(&mut sql, ") AND f.mtime BETWEEN ");
    push_str(&mut sql, from_ph.as_str());
    push_str(&mut sql, " AND ");
    push_str(&mut sql, to_ph.as_str());
    push_char(&mut sql, ' ');
    push_str(&mut sql, kinds.as_str());
    if date.filename_only {
        push_str(&mut sql, " AND f.id NOT LIKE '%::%'");
    }
    push_str(&mut sql, " LIMIT ");
    push_str(&mut sql, limit_ph.as_str());
    proof {
        lemma_param_views_add(five, kind_values(date.kinds@));
        assert(param_views(five) =~= prefix_views(Some(*prefix))
            + seq![ParamView::Integer(limit as i64), ParamView::Integer(from), ParamView::Integer(to)]);
        assert(param_views(p.params@) =~= (prefix_statement_spec(limit, *date)->0).1);
        assert(sql@ =~= (prefix_statement_spec(limit, *date)->0).0);
    }
    (sql, p.params)
}

/// The statement of the lines matching `fts` under the filters (see
/// `fts_statement_spec`).
fn match_statement(fts: String, limit: usize, date: &DateFilter) -> (r: (String, Vec<SqlValue>))
    ensures
        Some((r.0@, param_views(r.1@))) == match_statement_spec(fts@, limit, *date),
{
    let mut p = ParamBinder::new();
    let mut sql = String::new();
    if date.is_active() || date.filename_only {
        let (from, to) = bounds_of(date);
        let fts_ph = p.push(SqlValue::Text(fts));
        let limit_ph = p.push(SqlValue::Integer(limit as i64));
        let from_ph = p.push(SqlValue::Integer(from));
        let to_ph = p.push(SqlValue::Integer(to));
        let ghost four = p.params@;
        let kinds = kind_clause(&mut p, &date.kinds, "f.");
        let ghost with_kinds = p.params@;
        let prefix = prefix_clause(&mut p, &date.path_prefix, "f.");
        push_str(&mut sql, "SELECT f.path, f.kind, (lines_fts.rowid % 1000000) AS line_number, f.id, f.mtime, f.size FROM lines_fts JOIN files f ON f.id = (lines_fts.rowid / 1000000) WHERE lines_fts MATCH ");
        push_str(&mut sql, fts_ph.as_str());
        push_str(&mut sql, " AND f.mtime BETWEEN ");
        push_str(&mut sql, from_ph.as_str());
        push_str(&mut sql, " AND ");
        push_str(&mut sql, to_ph.as_str());
        push_char(&mut sql, ' ');
        push_str(&mut sql, kinds.as_str());
        push_char(&mut sql, ' ');
        push_str(&mut sql, prefix.as_str());
        if date.filename_only {
            push_str(&mut sql, " AND (lines_fts.rowid % 1000000) = 0");
        }
        push_str(&mut sql, " LIMIT ");
        push_str(&mut sql, limit_ph.as_str());
        proof {
            lemma_param_views_add(four, kind_values(date.kinds@));
            let tail = p.params@.subrange(with_kinds.len() as int, p.params@.len() as int);
            assert(p.params@ =~= with_kinds + tail);
            lemma_param_views_add(with_kinds, tail);
            if date.path_prefix is Some {
                {
                    assert(tail[1] == p.params@[with_kinds.len() + 1int]);
                    assert(param_views(tail) =~= prefix_views(date.path_prefix));
                }
            } else {
                assert(param_views(tail) =~= prefix_views(date.path_prefix));
            }
            assert(param_views(p.params@) =~= (match_statement_spec(fts@, limit, *date)->0).1);
            assert(sql@ =~= (match_statement_spec(fts@, limit, *date)->0).0);
        }
    } else {
        p.push(SqlValue::Text(fts));
        p.push(SqlValue::Integer(limit as i64));
        push_str(&mut sql, "SELECT f.path, f.kind, (lines_fts.rowid % 1000000) AS line_number, f.id, f.mtime, f.size FROM lines_fts JOIN files f ON f.id = (lines_fts.rowid / 1000000) WHERE lines_fts MATCH ?1 LIMIT ?2");
        proof {
            assert(param_views(p.params@) =~= (match_statement_spec(fts@, limit, *date)->0).1);
        }
    }
    (sql, p.params)
}

/// The statement that selects the full-text candidates of a query (see
/// `fts_statement_spec`); none when there is nothing to select.
pub fn fts_statement(query_text: &str, limit: usize, phrase: bool, date: &DateFilter) -> (r: Option<(String, Vec<SqlValue>)>)
    ensures
        match r {
            Some((sql, ps)) => fts_statement_spec(query_text@, limit, phrase, *date) == Some((sql@, param_views(ps@))),
            None => fts_statement_spec(query_text@, limit, phrase, *date) is None,
        },
{
    match build_fts_query(query_text, phrase) {
        None => match &date.path_prefix {
            None => None,
            Some(prefix) => Some(prefix_statement(prefix, limit, date)),
        },
        Some(fts) => Some(match_statement(fts, limit, date)),
    }
}

/// The full-text candidate lines of `query` (a phrase when `phrase`), at
/// most `limit`, under the filters of `date` (time range, kinds, path
/// prefix, file names only): the answer to `fts_statement_spec`. When the
/// query has no terms to match: with a path prefix, the name rows (line
/// 0) of the files under the prefix within the time and kind filters; else
/// none. Candidates carry no content.
pub fn fts_candidates(conn: &rusqlite::Connection, query_text: &str, limit: usize, phrase: bool, date: &DateFilter) -> (r: Result<Vec<CandidateRow>, DbError>)
    ensures
        fts_statement_spec(query_text@, limit, phrase, *date) is None ==> (r matches Ok(v) && v@.len() == 0),
        build_fts_query_spec(query_text@, phrase) is None && date.path_prefix is None ==> (r matches Ok(v) && v@.len() == 0),
        r matches Ok(v) ==> exists|ranked: Seq<RankedRow>| #[trigger] candidates_from(v@, ranked),
        r matches Ok(v) ==> fts_answer(query_text@, limit, phrase, *date, v@),
{
    match fts_statement(query_text, limit, phrase, date) {
        None => {
            let v: Vec<CandidateRow> = Vec::new();
            assert(candidates_from(v@, Seq::<RankedRow>::empty()));
            Ok(v)
        },
        Some((sql, ps)) => run_candidates(conn, sql.as_str(), &ps),
    }
}

/// Runs a candidate query and makes candidates of its rows.
fn run_candidates(conn: &rusqlite::Connection, sql: &str, params: &Vec<SqlValue>) -> (r: Result<Vec<CandidateRow>, DbError>)
    ensures
        r matches Ok(v) ==> exists|ranked: Seq<RankedRow>| #[trigger] candidates_from(v@, ranked),
        r matches Ok(v) ==> answer_candidates(sql@, param_views(params@), v@),
{
    let rows = match query(conn, sql, params) {
        Ok(rows) => rows,
        Err(e) => { return Err(e); },
    };
    let ranked = match read_ranked_rows(&rows) {
        Ok(v) => v,
        Err(e) => { return Err(e); },
    };
    let out = candidates_of(&ranked);
    let res: Result<Vec<CandidateRow>, DbError> = Ok(out);
    assert(candidates_from(res->Ok_0@, ranked@));
    assert(crate::db::answered(sql@, param_views(params@), row_views(rows@)) && ranked_read(row_views(rows@), ranked@)
        && candidates_from(res->Ok_0@, ranked@));
    assert(answer_candidates(sql@, param_views(params@), res->Ok_0@));
    res
}

// ── Duplicates ───────────────────────────────────────────────────────────────

/// The paths listed for `id` among `(id, path)` rows, in row order.
pub open spec fn paths_for(rows: Seq<(i64, Seq<char>)>, id: i64) -> Seq<Seq<char>>
    decreases rows.len(),
{
    if rows.len() == 0 {
        Seq::empty()
    } else if rows.last().0 == id {
        paths_for(rows.drop_last(), id).push(rows.last().1)
    } else {
        paths_for(rows.drop_last(), id)
    }
}

/// The groups hold, once each, every id of the rows, each with the paths
/// that the rows list for it.
pub open spec fn grouped(rows: Seq<(i64, Seq<char>)>, groups: Seq<(i64, Vec<String>)>) -> bool {
    &&& forall|a: int, b: int| 0 <= a < b < groups.len() ==> (#[trigger] groups[a]).0 != (#[trigger] groups[b]).0
    &&& forall|k: int| 0 <= k < groups.len() ==> crate::wrap::views((#[trigger] groups[k]).1@) == paths_for(rows, groups[k].0)
    &&& forall|j: int| 0 <= j < rows.len() ==> exists|k: int| 0 <= k < groups.len() && (#[trigger] groups[k]).0 == (#[trigger] rows[j]).0
    &&& forall|k: int| 0 <= k < groups.len() ==> paths_for(rows, (#[trigger] groups[k]).0).len() > 0
}

/// An `(id, path)` row from its cells.
pub open spec fn id_path_of(row: Seq<SqlCell>) -> Option<(i64, Seq<char>)> {
    match (int_of(cell_at(row, 0)), text_of(cell_at(row, 1))) {
        (Some(i), Some(p)) => Some((i, p)),
        _ => None,
    }
}

/// A copy of a list of strings.
fn copy_strings(v: &Vec<String>) -> (r: Vec<String>)
    ensures
        r@ == v@,
{
    let mut out: Vec<String> = Vec::new();
    let mut i: usize = 0;
    while i < v.len()
        invariant
            i <= v@.len(),
            out@ == v@.subrange(0, i as int),
        decreases v@.len() - i,
    {
        out.push(v[i].clone());
        assert(out@ =~= v@.subrange(0, i + 1));
        i = i + 1;
    }
    assert(v@.subrange(0, v@.len() as int) =~= v@);
    out
}

/// Rows without `id` list no path for it.
proof fn lemma_paths_for_absent(rows: Seq<(i64, Seq<char>)>, id: i64)
    requires
        forall|j: int| 0 <= j < rows.len() ==> (#[trigger] rows[j]).0 != id,
    ensures
        paths_for(rows, id) == Seq::<Seq<char>>::empty(),
    decreases rows.len(),
{
    if rows.len() > 0 {
        let p = rows.drop_last();
        assert forall|j: int| 0 <= j < p.len() implies (#[trigger] p[j]).0 != id by {
            assert(p[j] == rows[j]);
        }
        lemma_paths_for_absent(p, id);
        assert(rows.last() == rows[rows.len() - 1]);
    }
}

/// Groups `(id, path)` rows by id, in the order ids first occur.
pub fn group_paths(rows: &Vec<(i64, String)>) -> (r: Vec<(i64, Vec<String>)>)
    ensures
        grouped(rows@.map_values(|x: (i64, String)| (x.0, x.1@)), r@),
{
    let ghost model = rows@.map_values(|x: (i64, String)| (x.0, x.1@));
    let mut out: Vec<(i64, Vec<String>)> = Vec::new();
    let mut i: usize = 0;
    while i < rows.len()
        invariant
            i <= rows@.len(),
            model == rows@.map_values(|x: (i64, String)| (x.0, x.1@)),
            grouped(model.subrange(0, i as int), out@),
        decreases rows@.len() - i,
    {
        let (id, path) = (rows[i].0, rows[i].1.clone());
        let ghost pre = model.subrange(0, i as int);
        let ghost cur = model.subrange(0, i + 1);
        assert(cur.drop_last() =~= pre);
        assert(cur.last() == (id, path@));
        let mut found: Option<usize> = None;
        let mut k: usize = 0;
        while k < out.len()
            invariant_except_break
                found is None,
            invariant
                k <= out@.len(),
                forall|m: int| 0 <= m < k ==> out@[m].0 != id,
            ensures
                found matches Some(f) ==> f < out@.len() && out@[f as int].0 == id,
                found is None ==> forall|m: int| 0 <= m < out@.len() ==> out@[m].0 != id,
            decreases out@.len() - k,
        {
            if out[k].0 == id {
                found = Some(k);
                break;
            }
            k = k + 1;
        }
        let ghost before = out@;
        proof {
            assert forall|m: int| 0 <= m < before.len() && before[m].0 != id implies
                paths_for(cur, (#[trigger] before[m]).0) == paths_for(pre, before[m].0) by {}
            assert(paths_for(cur, id) == paths_for(pre, id).push(path@));
        }
        match found {
            Some(f) => {
                let mut g = copy_strings(&out[f].1);
                g.push(path);
                out.set(f, (id, g));
                proof {
                    assert forall|a: int, b: int| 0 <= a < b < out@.len() implies (#[trigger] out@[a]).0 != (#[trigger] out@[b]).0 by {
                        assert(out@[a].0 == before[a].0 && out@[b].0 == before[b].0);
                    }
                    assert forall|m: int| 0 <= m < out@.len() implies crate::wrap::views((#[trigger] out@[m]).1@) == paths_for(cur, out@[m].0) by {
                        if m == f {
                            assert(crate::wrap::views(out@[m].1@) =~= crate::wrap::views(before[m].1@).push(path@));
                        } else {
                            assert(out@[m] == before[m]);
                        }
                    }
                    assert forall|j: int| 0 <= j < cur.len() implies exists|m: int| 0 <= m < out@.len() && (#[trigger] out@[m]).0 == (#[trigger] cur[j]).0 by {
                        if j < pre.len() {
                            assert(cur[j] == pre[j]);
                            let m = choose|m: int| 0 <= m < before.len() && (#[trigger] before[m]).0 == (#[trigger] pre[j]).0;
                            assert(out@[m].0 == before[m].0);
                        } else {
                            assert(out@[f as int].0 == cur[j].0);
                        }
                    }
                    assert forall|m: int| 0 <= m < out@.len() implies paths_for(cur, (#[trigger] out@[m]).0).len() > 0 by {
                        assert(out@[m].0 == before[m].0);
                    }
                }
            },
            None => {
                proof {
                    assert forall|j: int| 0 <= j < pre.len() implies (#[trigger] pre[j]).0 != id by {
                        let m = choose|m: int| 0 <= m < before.len() && (#[trigger] before[m]).0 == (#[trigger] pre[j]).0;
                    }
                    lemma_paths_for_absent(pre, id);
                }
                let mut g: Vec<String> = Vec::new();
                g.push(path);
                out.push((id, g));
                proof {
                    assert forall|a: int, b: int| 0 <= a < b < out@.len() implies (#[trigger] out@[a]).0 != (#[trigger] out@[b]).0 by {
                        if b < before.len() {
                            assert(out@[a] == before[a] && out@[b] == before[b]);
                        } else {
                            assert(out@[a] == before[a]);
                        }
                    }
                    assert forall|m: int| 0 <= m < out@.len() implies crate::wrap::views((#[trigger] out@[m]).1@) == paths_for(cur, out@[m].0) by {
                        if m < before.len() {
                            assert(out@[m] == before[m]);
                        } else {
                            assert(crate::wrap::views(out@[m].1@) =~= seq![path@]);
                            assert(paths_for(pre, id).push(path@) =~= seq![path@]);
                        }
                    }
                    assert forall|j: int| 0 <= j < cur.len() implies exists|m: int| 0 <= m < out@.len() && (#[trigger] out@[m]).0 == (#[trigger] cur[j]).0 by {
                        if j < pre.len() {
                            assert(cur[j] == pre[j]);
                            let m = choose|m: int| 0 <= m < before.len() && (#[trigger] before[m]).0 == (#[trigger] pre[j]).0;
                            assert(out@[m] == before[m]);
                        } else {
                            assert(out@[before.len() as int].0 == cur[j].0);
                        }
                    }
                    assert forall|m: int| 0 <= m < out@.len() implies paths_for(cur, (#[trigger] out@[m]).0).len() > 0 by {
                        if m < before.len() {
                            assert(out@[m] == before[m]);
                        }
                    }
                }
            },
        }
        i = i + 1;
    }
    assert(model.subrange(0, rows@.len() as int) =~= model);
    out
}

/// Reads `(id, path)` rows.
pub fn read_id_paths(rows: &Vec<Vec<SqlCell>>) -> (r: Result<Vec<(i64, String)>, DbError>)
    ensures
        match r {
            Ok(v) => v@.len() == rows@.len()
                && forall|k: int| 0 <= k < v@.len() ==> id_path_of(rows@[k]@) == Some(((#[trigger] v@[k]).0, v@[k].1@)),
            Err(_) => exists|k: int| 0 <= k < rows@.len() && id_path_of(#[trigger] rows@[k]@) is None,
        },
{
    let mut out: Vec<(i64, String)> = Vec::new();
    let mut k: usize = 0;
    while k < rows.len()
        invariant
            k <= rows@.len(),
            out@.len() == k,
            forall|j: int| 0 <= j < k ==> id_path_of(rows@[j]@) == Some(((#[trigger] out@[j]).0, out@[j].1@)),
        decreases rows@.len() - k,
    {
        let row = &rows[k];
        let id = match get_int(row, 0) { Ok(x) => x, Err(e) => { return Err(e); } };
        let p = match get_text(row, 1) { Ok(x) => x, Err(e) => { return Err(e); } };
        out.push((id, p));
        k = k + 1;
    }
    Ok(out)
}

/// The ids as bound integer values.
pub open spec fn id_values(ids: Seq<i64>) -> Seq<SqlValue> {
    ids.map_values(|i: i64| SqlValue::Integer(i))
}

/// Binds each id, returning the placeholders joined by `, `.
pub(crate) fn id_placeholders(p: &mut ParamBinder, ids: &Vec<i64>) -> (r: String)
    ensures
        final(p).params@ == old(p).params@ + id_values(ids@),
        r@ == placeholder_list(old(p).params@.len(), ids@.len()),
{
    let mut s = String::new();
    let ghost start = p.params@;
    let mut i: usize = 0;
    while i < ids.len()
        invariant
            i <= ids@.len(),
            p.params@ == start + id_values(ids@.subrange(0, i as int)),
            s@ == placeholder_list(start.len(), i as nat),
        decreases ids@.len() - i,
    {
        if i > 0 {
            push_str(&mut s, ", ");
        }
        let ph = p.push(SqlValue::Integer(ids[i]));
        push_str(&mut s, ph.as_str());
        proof {
            if i == 0 {
                assert(s@ =~= placeholder_list(start.len(), 1));
            } else {
                assert(s@ =~= placeholder_list(start.len(), (i + 1) as nat));
            }
        }
        assert(id_values(ids@.subrange(0, i + 1)) =~= id_values(ids@.subrange(0, i as int)).push(SqlValue::Integer(ids@[i as int])));
        i = i + 1;
    }
    assert(ids@.subrange(0, ids@.len() as int) =~= ids@);
    s
}

/// The query of the aliases of one canonical file, in path order.
pub open spec fn aliases_sql() -> Seq<char> {
    "SELECT canonical_file_id, path FROM files WHERE canonical_file_id = ?1 ORDER BY path"@
}

/// `paths` are the texts in the second cells of `cells`, in order.
pub open spec fn second_texts(cells: Seq<Seq<SqlCell>>, paths: Seq<Seq<char>>) -> bool {
    &&& cells.len() == paths.len()
    &&& forall|k: int| 0 <= k < cells.len() ==> text_of(cell_at(#[trigger] cells[k], 1)) == Some(paths[k])
}

/// The database answered the alias query of `cid` with rows whose paths
/// are `paths`.
pub open spec fn alias_answer(cid: i64, paths: Seq<Seq<char>>) -> bool {
    exists|cells: Seq<Seq<SqlCell>>| #[trigger] crate::db::answered(aliases_sql(), crate::db::int1(cid), cells) && second_texts(cells, paths)
}

/// `g` lists, for the canonical files `ids` that have aliases, each file
/// once with its alias paths (in path order, as answered), in the order
/// the ids first occur; an id without an entry was answered no alias.
pub open spec fn aliases_grouped(ids: Seq<i64>, g: Seq<(i64, Vec<String>)>) -> bool {
    &&& forall|a: int, b: int| 0 <= a < b < g.len() ==> (#[trigger] g[a]).0 != (#[trigger] g[b]).0
    &&& forall|k: int| 0 <= k < g.len() ==> ids.contains((#[trigger] g[k]).0) && g[k].1@.len() > 0
        && alias_answer(g[k].0, crate::wrap::views(g[k].1@))
    &&& forall|cid: i64| ids.contains(cid) && !(exists|k: int| 0 <= k < g.len() && (#[trigger] g[k]).0 == cid)
        ==> #[trigger] alias_answer(cid, Seq::empty())
}

/// The paths in the second cell of each row.
fn read_second_texts(rows: &Vec<Vec<SqlCell>>) -> (r: Result<Vec<String>, DbError>)
    ensures
        r matches Ok(v) ==> second_texts(row_views(rows@), crate::wrap::views(v@)),
{
    let mut out: Vec<String> = Vec::new();
    let mut k: usize = 0;
    while k < rows.len()
        invariant
            k <= rows@.len(),
            out@.len() == k,
            forall|j: int| 0 <= j < k ==> text_of(cell_at(#[trigger] rows@[j]@, 1)) == Some(out@[j]@),
        decreases rows@.len() - k,
    {
        match get_text(&rows[k], 1) {
            Ok(t) => out.push(t),
            Err(e) => { return Err(e); },
        }
        k = k + 1;
    }
    assert(second_texts(row_views(rows@), crate::wrap::views(out@)));
    Ok(out)
}

/// The alias paths of each canonical file of `canonical_ids` that has any
/// (see `aliases_grouped`); nothing when there are no ids.
pub fn fetch_aliases_for_canonical_ids(conn: &rusqlite::Connection, canonical_ids: &Vec<i64>) -> (r: Result<Vec<(i64, Vec<String>)>, DbError>)
    ensures
        canonical_ids@.len() == 0 ==> (r matches Ok(g) && g@.len() == 0),
        r matches Ok(g) ==> aliases_grouped(canonical_ids@, g@),
{
    let mut out: Vec<(i64, Vec<String>)> = Vec::new();
    let mut i: usize = 0;
    while i < canonical_ids.len()
        invariant
            i <= canonical_ids@.len(),
            out@.len() <= i,
            forall|a: int, b: int| 0 <= a < b < out@.len() ==> (#[trigger] out@[a]).0 != (#[trigger] out@[b]).0,
            forall|k: int| 0 <= k < out@.len() ==> canonical_ids@.subrange(0, i as int).contains((#[trigger] out@[k]).0)
                && out@[k].1@.len() > 0 && alias_answer(out@[k].0, crate::wrap::views(out@[k].1@)),
            forall|cid: i64| canonical_ids@.subrange(0, i as int).contains(cid)
                && !(exists|k: int| 0 <= k < out@.len() && (#[trigger] out@[k]).0 == cid)
                ==> #[trigger] alias_answer(cid, Seq::empty()),
        decreases canonical_ids@.len() - i,
    {
        let cid = canonical_ids[i];
        let mut seen = false;
        let mut m: usize = 0;
        while m < out.len()
            invariant
                m <= out@.len(),
                seen == (exists|q: int| 0 <= q < m && (#[trigger] out@[q]).0 == cid),
            decreases out@.len() - m,
        {
            if out[m].0 == cid {
                seen = true;
            }
            m = m + 1;
        }
        let ghost before = out@;
        let ghost prefix = canonical_ids@.subrange(0, i as int);
        let ghost next = canonical_ids@.subrange(0, i + 1);
        assert(next =~= prefix.push(cid));
        if !seen {
            let params = crate::db::int_param(cid);
            let rows = match query(conn, "SELECT canonical_file_id, path FROM files WHERE canonical_file_id = ?1 ORDER BY path", &params) {
                Ok(rows) => rows,
                Err(e) => { return Err(e); },
            };
            assert(param_views(params@) =~= crate::db::int1(cid));
            let paths = match read_second_texts(&rows) {
                Ok(v) => v,
                Err(e) => { return Err(e); },
            };
            assert(crate::db::answered(aliases_sql(), crate::db::int1(cid), row_views(rows@)));
            assert(alias_answer(cid, crate::wrap::views(paths@)));
            if paths.len() > 0 {
                out.push((cid, paths));
            } else {
                assert(crate::wrap::views(paths@) =~= Seq::<Seq<char>>::empty());
                assert(alias_answer(cid, Seq::<Seq<char>>::empty()));
            }
        }
        proof {
            assert forall|k: int| 0 <= k < out@.len() implies next.contains((#[trigger] out@[k]).0) by {
                if k < before.len() {
                    assert(prefix.contains(before[k].0));
                    let j = choose|j: int| 0 <= j < prefix.len() && prefix[j] == before[k].0;
                    assert(next[j] == prefix[j]);
                } else {
                    assert(next[i as int] == cid);
                }
            }
            assert forall|c: i64| next.contains(c) && !(exists|k: int| 0 <= k < out@.len() && (#[trigger] out@[k]).0 == c)
                implies #[trigger] alias_answer(c, Seq::empty()) by {
                let j = choose|j: int| 0 <= j < next.len() && next[j] == c;
                if j < i {
                    assert(prefix[j] == c);
                    assert(prefix.contains(c));
                    assert forall|k: int| 0 <= k < before.len() implies (#[trigger] before[k]).0 != c by {
                        assert(out@[k] == before[k]);
                    }
                } else {
                    assert(c == cid);
                    if seen {
                        let q = choose|q: int| 0 <= q < before.len() && (#[trigger] before[q]).0 == cid;
                        assert(out@[q] == before[q]);
                    } else if out@.len() > before.len() {
                        assert(out@[before.len() as int].0 == cid);
                    }
                }
            }
        }
        i = i + 1;
    }
    assert(canonical_ids@.subrange(0, canonical_ids@.len() as int) =~= canonical_ids@);
    Ok(out)
}

/// The query of the other paths sharing content with `n` files.
pub open spec fn duplicates_sql(n: nat) -> Seq<char> {
    "SELECT d1.file_id, f2.path FROM duplicates d1 JOIN duplicates d2 ON d2.file_hash = d1.file_hash AND d2.file_id != d1.file_id JOIN files f2 ON f2.id = d2.file_id WHERE d1.file_id IN ("@
        + placeholder_list(0, n) + ") ORDER BY d1.file_id, f2.path"@
}

/// `pairs` are the `(file id, path)` rows of `cells`, in order.
pub open spec fn id_paths_read(cells: Seq<Seq<SqlCell>>, pairs: Seq<(i64, Seq<char>)>) -> bool {
    &&& cells.len() == pairs.len()
    &&& forall|k: int| 0 <= k < cells.len() ==> id_path_of(#[trigger] cells[k]) == Some(pairs[k])
}

/// The other paths that share content with each of `file_ids`: for each
/// file id among the duplicate rows, the paths of the other files with the
/// same content hash, in path order; nothing when there are no ids.
pub fn fetch_duplicates_for_file_ids(conn: &rusqlite::Connection, file_ids: &Vec<i64>) -> (r: Result<Vec<(i64, Vec<String>)>, DbError>)
    ensures
        file_ids@.len() == 0 ==> (r matches Ok(g) && g@.len() == 0),
        r matches Ok(g) ==> exists|rows: Seq<(i64, Seq<char>)>| #[trigger] grouped(rows, g@),
        file_ids@.len() > 0 ==> (r matches Ok(g) ==> exists|cells: Seq<Seq<SqlCell>>, pairs: Seq<(i64, Seq<char>)>| {
            &&& #[trigger] crate::db::answered(duplicates_sql(file_ids@.len()), id_views(file_ids@), cells)
            &&& #[trigger] id_paths_read(cells, pairs)
            &&& grouped(pairs, g@)
        }),
{
    if file_ids.len() == 0 {
        let g: Vec<(i64, Vec<String>)> = Vec::new();
        assert(grouped(Seq::<(i64, Seq<char>)>::empty(), g@));
        return Ok(g);
    }
    let mut p = ParamBinder::new();
    let phs = id_placeholders(&mut p, file_ids);
    let mut sql = String::new();
    push_str(&mut sql, "SELECT d1.file_id, f2.path FROM duplicates d1 JOIN duplicates d2 ON d2.file_hash = d1.file_hash AND d2.file_id != d1.file_id JOIN files f2 ON f2.id = d2.file_id WHERE d1.file_id IN (");
    push_str(&mut sql, phs.as_str());
    push_str(&mut sql, ") ORDER BY d1.file_id, f2.path");
    let rows = match query(conn, sql.as_str(), p.as_refs()) {
        Ok(rows) => rows,
        Err(e) => { return Err(e); },
    };
    let pairs = match read_id_paths(&rows) {
        Ok(v) => v,
        Err(e) => { return Err(e); },
    };
    let g = group_paths(&pairs);
    let res: Result<Vec<(i64, Vec<String>)>, DbError> = Ok(g);
    let ghost pv = pairs@.map_values(|x: (i64, String)| (x.0, x.1@));
    assert(grouped(pv, res->Ok_0@));
    proof {
        reveal_strlit(") ORDER BY d1.file_id, f2.path");
        assert(param_views(p.params@) =~= id_views(file_ids@));
        assert(sql@ =~= duplicates_sql(file_ids@.len()));
        assert(id_paths_read(row_views(rows@), pv));
        assert(crate::db::answered(duplicates_sql(file_ids@.len()), id_views(file_ids@), row_views(rows@)));
    }
    res
}

// ── Document mode ────────────────────────────────────────────────────────────

/// The most rows kept per file for a document query: its number of tokens,
/// at least 1.
pub open spec fn doc_cap(query: Seq<char>) -> int {
    let n = long_words(crate::wrap::words_of(query)).len();
    if n >= 1 { n as int } else { 1 }
}

/// The groups are the first `limit` collected files, each with its first
/// row as a content-less candidate and no other members.
pub open spec fn groups_from(st: CollectView, limit: int, g: Seq<DocumentGroup>) -> bool {
    &&& g.len() == (if st.order.len() < limit { st.order.len() as int } else { limit })
    &&& forall|k: int| 0 <= k < g.len() ==> candidate_of(st.firsts[k], (#[trigger] g[k]).representative) && g[k].members@.len() == 0
}

/// Reads the ids in the first cell of each row.
pub(crate) fn read_ids(rows: &Vec<Vec<SqlCell>>) -> (r: Result<Vec<i64>, DbError>)
    ensures
        match r {
            Ok(v) => v@.len() == rows@.len()
                && forall|k: int| 0 <= k < v@.len() ==> int_of(cell_at(#[trigger] rows@[k]@, 0)) == Some(v@[k]),
            Err(_) => exists|k: int| 0 <= k < rows@.len() && int_of(cell_at(#[trigger] rows@[k]@, 0)) is None,
        },
{
    let mut out: Vec<i64> = Vec::new();
    let mut k: usize = 0;
    while k < rows.len()
        invariant
            k <= rows@.len(),
            out@.len() == k,
            forall|j: int| 0 <= j < k ==> int_of(cell_at(#[trigger] rows@[j]@, 0)) == Some(out@[j]),
        decreases rows@.len() - k,
    {
        match get_int(&rows[k], 0) {
            Ok(id) => out.push(id),
            Err(e) => { return Err(e); },
        }
        k = k + 1;
    }
    Ok(out)
}

/// The ids, each once, in the order they first occur.
pub fn distinct_ids(v: &Vec<i64>) -> (r: Vec<i64>)
    ensures
        r@.no_duplicates(),
        forall|id: i64| r@.contains(id) <==> v@.contains(id),
{
    let mut out: Vec<i64> = Vec::new();
    let mut i: usize = 0;
    while i < v.len()
        invariant
            i <= v@.len(),
            out@.no_duplicates(),
            forall|x: i64| out@.contains(x) <==> (exists|j: int| 0 <= j < i && #[trigger] v@[j] == x),
        decreases v@.len() - i,
    {
        let id = v[i];
        let mut seen = false;
        let mut k: usize = 0;
        while k < out.len()
            invariant
                k <= out@.len(),
                seen == (exists|m: int| 0 <= m < k && #[trigger] out@[m] == id),
            decreases out@.len() - k,
        {
            if out[k] == id {
                seen = true;
            }
            k = k + 1;
        }
        let ghost before = out@;
        if !seen {
            out.push(id);
        }
        proof {
            assert forall|x: i64| out@.contains(x) <==> (exists|j: int| 0 <= j < i + 1 && #[trigger] v@[j] == x) by {
                if exists|j: int| 0 <= j < i + 1 && #[trigger] v@[j] == x {
                    let j = choose|j: int| 0 <= j < i + 1 && #[trigger] v@[j] == x;
                    if j < i {
                        assert(before.contains(x));
                        let m = choose|m: int| 0 <= m < before.len() && before[m] == x;
                        assert(out@[m] == x);
                    } else if seen {
                        let m = choose|m: int| 0 <= m < before.len() && #[trigger] before[m] == id;
                        assert(out@[m] == x);
                    } else {
                        assert(out@[before.len() as int] == x);
                    }
                }
                if out@.contains(x) {
                    let m = choose|m: int| 0 <= m < out@.len() && out@[m] == x;
                    if m < before.len() {
                        assert(before[m] == x);
                        assert(before.contains(x));
                    } else {
                        assert(v@[i as int] == x);
                    }
                }
            }
            if !seen {
                assert forall|a: int, b: int| 0 <= a < b < out@.len() implies out@[a] != out@[b] by {
                    if b == before.len() {
                        assert(out@[a] == before[a]);
                        if before[a] == id {
                            assert(exists|m: int| 0 <= m < before.len() && #[trigger] before[m] == id);
                        }
                    } else {
                        assert(out@[a] == before[a] && out@[b] == before[b]);
                    }
                }
            }
        }
        i = i + 1;
    }
    proof {
        assert forall|x: i64| out@.contains(x) <==> v@.contains(x) by {
            if v@.contains(x) {
                let j = choose|j: int| 0 <= j < v@.len() && v@[j] == x;
                assert(exists|j: int| 0 <= j < v@.len() && #[trigger] v@[j] == x);
            }
        }
    }
    out
}

/// A copy of a ranked row.
fn copy_row(r: &RankedRow) -> (c: RankedRow)
    ensures
        c == *r,
{
    (r.0.clone(), r.1.clone(), r.2, r.3, r.4, r.5)
}

/// The query of the files having a line that matches one token.
pub open spec fn token_sql() -> Seq<char> {
    "SELECT DISTINCT (lines_fts.rowid / 1000000) AS file_id FROM lines_fts JOIN files f ON f.id = (lines_fts.rowid / 1000000) WHERE lines_fts MATCH ?1 LIMIT 100000"@
}

/// The query of the best-ranked lines matching any token.
pub open spec fn ranked_lines_sql() -> Seq<char> {
    "SELECT f.path, f.kind, (lines_fts.rowid % 1000000) AS line_number, f.id, f.mtime, f.size FROM lines_fts JOIN files f ON f.id = (lines_fts.rowid / 1000000) WHERE lines_fts MATCH ?1 ORDER BY lines_fts.rank LIMIT ?2"@
}

/// `ids` are the integers in the first cells of `cells`, one per row.
pub open spec fn ids_read(cells: Seq<Seq<SqlCell>>, ids: Seq<i64>) -> bool {
    &&& ids.len() == cells.len()
    &&& forall|k: int| 0 <= k < ids.len() ==> int_of(cell_at(#[trigger] cells[k], 0)) == Some(ids[k])
}

/// `ids` are the files the database answered for `token`.
pub open spec fn token_ids(token: Seq<char>, ids: Seq<i64>) -> bool {
    exists|cells: Seq<Seq<SqlCell>>| #[trigger] crate::db::answered(token_sql(), token_params(token), cells) && ids_read(cells, ids)
}

/// The value bound for one token: its phrase.
pub open spec fn token_params(token: Seq<char>) -> Seq<ParamView> {
    seq![ParamView::Text(crate::documents::phrase_of(token))]
}

/// `id` is listed for every token.
pub open spec fn in_every(per_token: Seq<Seq<i64>>, id: i64) -> bool {
    forall|t: int| 0 <= t < per_token.len() ==> (#[trigger] per_token[t]).contains(id)
}

/// The models of ids bound as integer values.
pub open spec fn id_views(ids: Seq<i64>) -> Seq<ParamView> {
    param_views(id_values(ids))
}

/// The statement that keeps, of the files `ids`, those within the time,
/// kind and path filters of `date`.
pub open spec fn filter_statement_spec(ids: Seq<i64>, date: DateFilter) -> (Seq<char>, Seq<ParamView>) {
    let (from, to) = time_bounds(date);
    let n = ids.len();
    let nk = date.kinds@.len();
    (
        "SELECT id FROM files WHERE id IN ("@ + placeholder_list(2, n) + ") AND mtime BETWEEN "@ + placeholder(1)
            + " AND "@ + placeholder(2) + seq![' '] + kind_clause_text(2 + n, nk, Seq::empty()) + seq![' ']
            + prefix_clause_text(2 + n + nk, date.path_prefix is Some, Seq::empty()),
        seq![ParamView::Integer(from), ParamView::Integer(to)] + id_views(ids) + kind_views(date.kinds@) + prefix_views(date.path_prefix),
    )
}

/// Builds the filter statement (see `filter_statement_spec`).
fn filter_statement(ids: &Vec<i64>, date: &DateFilter) -> (r: (String, Vec<SqlValue>))
    ensures
        (r.0@, param_views(r.1@)) == filter_statement_spec(ids@, *date),
{
    let (from, to) = bounds_of(date);
    let mut p = ParamBinder::new();
    let from_ph = p.push(SqlValue::Integer(from));
    let to_ph = p.push(SqlValue::Integer(to));
    let ghost two = p.params@;
    let id_phs = id_placeholders(&mut p, ids);
    let ghost with_ids = p.params@;
    let kinds = kind_clause(&mut p, &date.kinds, "");
    let ghost with_kinds = p.params@;
    let prefix = prefix_clause(&mut p, &date.path_prefix, "");
    let mut sql = String::new();
    push_str(&mut sql, "SELECT id FROM files WHERE id IN (");
    push_str(&mut sql, id_phs.as_str());
    push_str(&mut sql, ") AND mtime BETWEEN ");
    push_str(&mut sql, from_ph.as_str());
    push_str(&mut sql, " AND ");
    push_str(&mut sql, to_ph.as_str());
    push_char(&mut sql, ' ');
    push_str(&mut sql, kinds.as_str());
    push_char(&mut sql, ' ');
    push_str(&mut sql, prefix.as_str());
    proof {
        reveal_strlit("");
        assert(""@ =~= Seq::<char>::empty());
        lemma_param_views_add(two, id_values(ids@));
        lemma_param_views_add(with_ids, kind_values(date.kinds@));
        let tail = p.params@.subrange(with_kinds.len() as int, p.params@.len() as int);
        assert(p.params@ =~= with_kinds + tail);
        lemma_param_views_add(with_kinds, tail);
        if date.path_prefix is Some {
            assert(tail[1] == p.params@[with_kinds.len() + 1int]);
        }
        assert(param_views(tail) =~= prefix_views(date.path_prefix));
        assert(param_views(p.params@) =~= filter_statement_spec(ids@, *date).1);
        assert(sql@ =~= filter_statement_spec(ids@, *date).0);
    }
    (sql, p.params)
}

/// The rows kept per file for `n` tokens: `n`, at least 1.
pub open spec fn doc_cap_n(n: nat) -> int {
    if n >= 1 { n as int } else { 1 }
}

/// The values of the ranked-lines query: the tokens joined with `OR`, and
/// the number of rows read (20 per wanted file and kept row, at least
/// 10 000).
pub open spec fn ranked_lines_params(tokens: Seq<Seq<char>>, limit: usize) -> Seq<ParamView> {
    let n = limit * 20 * doc_cap_n(tokens.len());
    seq![ParamView::Text(crate::documents::or_expression_spec(tokens)), ParamView::Integer((if n >= 10_000 { n } else { 10_000 }) as i64)]
}

/// The files kept of those every token names: with a time, kind or path
/// filter, those the database kept when asked (none asked when no file
/// qualifies); else exactly those.
pub open spec fn kept_files(per_token: Seq<Seq<i64>>, date: DateFilter, q: Seq<i64>) -> bool {
    if date.from is Some || date.to is Some || date.kinds@.len() > 0 || date.path_prefix is Some {
        (q.len() == 0 && (forall|id: i64| !#[trigger] in_every(per_token, id)))
        || exists|inter: Seq<i64>, cells: Seq<Seq<SqlCell>>, ids: Seq<i64>| {
            &&& (forall|id: i64| #[trigger] inter.contains(id) <==> in_every(per_token, id))
            &&& #[trigger] crate::db::answered(filter_statement_spec(inter, date).0, filter_statement_spec(inter, date).1, cells)
            &&& #[trigger] ids_read(cells, ids)
            &&& forall|id: i64| #[trigger] q.contains(id) <==> ids.contains(id)
        }
    } else {
        forall|id: i64| #[trigger] q.contains(id) <==> in_every(per_token, id)
    }
}

/// What the document search of a non-empty token list read: each token's
/// files, the files kept (see `kept_files`), and, when some file was kept,
/// the ranked lines of any token.
pub open spec fn document_reading(tokens: Seq<Seq<char>>, limit: usize, date: DateFilter, per_token: Seq<Seq<i64>>,
    q: Seq<i64>, ranked: Seq<RankedRow>) -> bool {
    &&& per_token.len() == tokens.len()
    &&& forall|t: int| 0 <= t < tokens.len() ==> #[trigger] token_ids(tokens[t], per_token[t])
    &&& kept_files(per_token, date, q)
    &&& q.len() > 0 ==> exists|cells: Seq<Seq<SqlCell>>|
        #[trigger] crate::db::answered(ranked_lines_sql(), ranked_lines_params(tokens, limit), cells) && ranked_read(cells, ranked)
}

/// The per-token id lists as sequences.
pub open spec fn id_lists(per_token: Seq<Vec<i64>>) -> Seq<Seq<i64>> {
    per_token.map_values(|v: Vec<i64>| v@)
}

/// Document-mode candidates of `query`: its tokens (whitespace-separated
/// words of at least three bytes) must each occur in a file for it to
/// qualify; with an active `date` filter, only qualifying files within
/// its time range, kinds and path prefix remain. Returns the number of
/// qualifying files and, for at most `limit` of them in the order of their
/// best-ranked line, that line as a content-less candidate. No tokens, or
/// no qualifying file, gives `(0, [])`.
pub fn document_candidates(conn: &rusqlite::Connection, query_text: &str, limit: usize, date: &DateFilter) -> (r: Result<(usize, Vec<DocumentGroup>), DbError>)
    requires
        limit * 20 * doc_cap(query_text@) <= usize::MAX,
    ensures
        long_words(crate::wrap::words_of(query_text@)).len() == 0 ==> (r matches Ok((t, g)) && t == 0 && g@.len() == 0),
        long_words(crate::wrap::words_of(query_text@)).len() > 0 ==> (r matches Ok((total, g)) ==>
            exists|per_token: Seq<Seq<i64>>, q: Seq<i64>, ranked: Seq<RankedRow>| {
                &&& #[trigger] document_reading(long_words(crate::wrap::words_of(query_text@)), limit, *date, per_token, q, ranked)
                &&& q.no_duplicates()
                &&& total == q.len()
                &&& groups_from(collect_rows(q, doc_cap(query_text@), limit as int, ranked), limit as int, g@)
            }),
{
    let tokens = document_tokens(query_text);
    let ghost tv = crate::wrap::views(tokens@);
    assert(tv.len() == tokens@.len());
    if tokens.len() == 0 {
        let g: Vec<DocumentGroup> = Vec::new();
        return Ok((0, g));
    }
    let mut per_token: Vec<Vec<i64>> = Vec::new();
    let mut i: usize = 0;
    while i < tokens.len()
        invariant
            i <= tokens@.len(),
            tokens@.len() > 0,
            tv == crate::wrap::views(tokens@),
            tv == long_words(crate::wrap::words_of(query_text@)),
            per_token@.len() == i,
            forall|t: int| 0 <= t < i ==> #[trigger] token_ids(tv[t], per_token@[t]@),
        decreases tokens@.len() - i,
    {
        let phrase = token_phrase(tokens[i].as_str());
        let params = text_param(phrase);
        let rows = match query(
            conn,
            "SELECT DISTINCT (lines_fts.rowid / 1000000) AS file_id FROM lines_fts JOIN files f ON f.id = (lines_fts.rowid / 1000000) WHERE lines_fts MATCH ?1 LIMIT 100000",
            &params,
        ) {
            Ok(rows) => rows,
            Err(e) => { return Err(e); },
        };
        proof {
            assert(tv[i as int] == tokens@[i as int]@);
            assert(param_views(params@) =~= token_params(tv[i as int]));
        }
        match read_ids(&rows) {
            Ok(ids) => {
                proof {
                    assert(ids_read(row_views(rows@), ids@));
                    assert(crate::db::answered(token_sql(), token_params(tv[i as int]), row_views(rows@)));
                    assert(token_ids(tv[i as int], ids@));
                }
                let ghost before = per_token@;
                per_token.push(ids);
                proof {
                    assert forall|t: int| 0 <= t < i + 1 implies #[trigger] token_ids(tv[t], per_token@[t]@) by {
                        if t < i { assert(per_token@[t] == before[t]); }
                    }
                }
            },
            Err(e) => { return Err(e); },
        }
        i = i + 1;
    }
    let ghost pv = id_lists(per_token@);
    let mut qualifying = intersect_ids(&per_token);
    let ghost inter = qualifying@;
    proof {
        assert forall|id: i64| #[trigger] inter.contains(id) <==> in_every(pv, id) by {
            if inter.contains(id) {
                assert forall|t: int| 0 <= t < pv.len() implies (#[trigger] pv[t]).contains(id) by {
                    assert(per_token@[t]@.contains(id));
                }
            }
            if in_every(pv, id) {
                assert forall|t: int| 0 <= t < per_token@.len() implies (#[trigger] per_token@[t])@.contains(id) by {
                    assert(pv[t].contains(id));
                }
            }
        }
        assert forall|a: int, b: int| 0 <= a < qualifying@.len() && 0 <= b < qualifying@.len() && a != b
            implies qualifying@[a] != qualifying@[b] by {
            if a < b { assert(qualifying@[a] != qualifying@[b]); } else { assert(qualifying@[b] != qualifying@[a]); }
        }
    }
    if date.is_active() && qualifying.len() > 0 {
        let (sql, params) = filter_statement(&qualifying, date);
        let rows = match query(conn, sql.as_str(), &params) {
            Ok(rows) => rows,
            Err(e) => { return Err(e); },
        };
        match read_ids(&rows) {
            Ok(ids) => {
                qualifying = distinct_ids(&ids);
                proof {
                    let cells = row_views(rows@);
                    assert(crate::db::answered(filter_statement_spec(inter, *date).0, filter_statement_spec(inter, *date).1, cells));
                    assert(ids_read(cells, ids@));
                }
            },
            Err(e) => { return Err(e); },
        }
    }
    assert(qualifying@.no_duplicates());
    proof {
        if date.from is Some || date.to is Some || date.kinds@.len() > 0 || date.path_prefix is Some {
            if inter.len() == 0 {
                assert forall|id: i64| !#[trigger] in_every(pv, id) by {
                    if in_every(pv, id) { assert(inter.contains(id)); }
                }
            }
        } else {
            assert(qualifying@ == inter);
        }
    }
    assert(kept_files(pv, *date, qualifying@));
    let total = qualifying.len();
    let cap = per_file_cap(tokens.len());
    assert(cap == doc_cap(query_text@));
    if total == 0 {
        let g: Vec<DocumentGroup> = Vec::new();
        let ghost empty_rows = Seq::<RankedRow>::empty();
        let res: Result<(usize, Vec<DocumentGroup>), DbError> = Ok((0, g));
        assert(groups_from(collect_rows(qualifying@, cap as int, limit as int, empty_rows), limit as int, res->Ok_0.1@));
        assert(res->Ok_0.0 == qualifying@.len());
        assert(document_reading(tv, limit, *date, pv, qualifying@, empty_rows));
        return res;
    }
    let or_expr = or_expression(&tokens);
    let fetch = fetch_limit(limit, cap);
    let mut params: Vec<SqlValue> = Vec::new();
    params.push(SqlValue::Text(or_expr));
    params.push(SqlValue::Integer(fetch));
    let rows = match query(
        conn,
        "SELECT f.path, f.kind, (lines_fts.rowid % 1000000) AS line_number, f.id, f.mtime, f.size FROM lines_fts JOIN files f ON f.id = (lines_fts.rowid / 1000000) WHERE lines_fts MATCH ?1 ORDER BY lines_fts.rank LIMIT ?2",
        &params,
    ) {
        Ok(rows) => rows,
        Err(e) => { return Err(e); },
    };
    let ranked = match read_ranked_rows(&rows) {
        Ok(v) => v,
        Err(e) => { return Err(e); },
    };
    proof {
        assert(param_views(params@) =~= ranked_lines_params(tv, limit));
        assert(crate::db::answered(ranked_lines_sql(), ranked_lines_params(tv, limit), row_views(rows@)));
        assert(document_reading(tv, limit, *date, pv, qualifying@, ranked@));
    }
    let ghost q = qualifying@;
    let mut c = DocumentCollector::new(qualifying, cap, limit);
    let mut k: usize = 0;
    while k < ranked.len()
        invariant
            k <= ranked@.len(),
            c.wf(),
            c.view_state() == collect_rows(q, cap as int, limit as int, ranked@.subrange(0, k as int)),
            c.qualifying@ == q,
            c.cap == cap,
            c.limit == limit,
        decreases ranked@.len() - k,
    {
        proof {
            assert(ranked@.subrange(0, k + 1).drop_last() =~= ranked@.subrange(0, k as int));
            assert(ranked@.subrange(0, k + 1).last() == ranked@[k as int]);
        }
        if !c.done() {
            let row = copy_row(&ranked[k]);
            c.offer(row);
        }
        k = k + 1;
    }
    assert(ranked@.subrange(0, ranked@.len() as int) =~= ranked@);
    let groups = c.finish();
    proof {
        assert forall|j: int| 0 <= j < groups@.len() implies candidate_of(c.view_state().firsts[j], (#[trigger] groups@[j]).representative)
            && groups@[j].members@.len() == 0 by {
            assert(c.firsts@[j] == c.view_state().firsts[j]);
        }
    }
    let res: Result<(usize, Vec<DocumentGroup>), DbError> = Ok((total, groups));
    assert(groups_from(collect_rows(q, cap as int, limit as int, ranked@), limit as int, res->Ok_0.1@));
    assert(res->Ok_0.0 == q.len());
    res
}

} // verus!
