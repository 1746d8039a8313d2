//! Writing indexing requests into a source database: one file at a time
//! (its row, its lines and their full-text entries, inline content for
//! small files), a whole request (deletes, renames, files with their
//! fallbacks, error and scan bookkeeping, the activity log), and the
//! database side of archiving (which files still need their chunks
//! written, and recording where each line went).
use vstd::prelude::*;
use crate::db::{
    query, int_param, text_param, read_single_int, resolve_file_id,
    do_cleanup_writes_in, log_activity_in, delete_files_phase1_in, rename_files_in, begin, finish, DbError, SqlCell, row_views, optional_int, ran, answered, optional_answer,
    single_answer, id_by_path_sql, text1, int1, members_of, committed, path_deleted, rename_done, cleanup_done,
    cleanup_history,
};
use crate::search::{SqlValue, ParamView, param_views};
use crate::index::{IndexFile, IndexLine, LineView, sort_lines_by_number, line_views, sort_by_number, join_contents, archive_kind};
use crate::paths::{composite_sep, contains_seq};
use crate::db_search::{read_ids, ids_read};
use crate::ingest::{
    needs_inner_delete, members_pattern, is_stale_upsert, use_inline_storage, inline_layout, fallback_for,
    activity_kind, activity_kind_spec, logged_deletes, logged_renames, line_ref_updates, rename_views, line_refs_spec,
    ref_views,
};
use crate::archive::{ChunkRef, LineMapping};
use crate::session::{Session, Stmt, grew_within};

verus! {

broadcast use crate::session::group_grew;

// ── Small statements ─────────────────────────────────────────────────────────

/// Runs a statement, keeping only whether it failed.
fn run(s: &mut Session, sql: &str, params: &Vec<SqlValue>) -> (r: Result<(), DbError>)
    ensures
        final(s).history() == old(s).history().push((sql@, param_views(params@))),
        r is Ok ==> ran(sql@, param_views(params@)),
{
    match s.execute(sql, params) {
        Ok(_) => Ok(()),
        Err(e) => Err(e),
    }
}

/// Runs a query that returns at most one integer: none when it returns no
/// row.
fn query_optional_int(conn: &rusqlite::Connection, sql: &str, params: &Vec<SqlValue>) -> (r: Result<Option<i64>, DbError>)
    ensures
        r matches Ok(o) ==> exists|rows: Seq<Seq<SqlCell>>| #[trigger] optional_int(rows) == Some(o),
        r matches Ok(o) ==> optional_answer(sql@, param_views(params@), o),
{
    let rows = match query(conn, sql, params) {
        Ok(rows) => rows,
        Err(e) => { return Err(e); },
    };
    assert(answered(sql@, param_views(params@), row_views(rows@)));
    if rows.len() == 0 {
        assert(optional_int(row_views(rows@)) == Some(None::<i64>));
        return Ok(None);
    }
    assert(row_views(rows@)[0] == rows@[0]@);
    match crate::db::get_int(&rows[0], 0) {
        Ok(x) => {
            assert(optional_int(row_views(rows@)) == Some(Some(x)));
            Ok(Some(x))
        },
        Err(e) => Err(e),
    }
}

/// Runs a query that returns one integer.
fn query_one_int(conn: &rusqlite::Connection, sql: &str, params: &Vec<SqlValue>) -> (r: Result<i64, DbError>)
    ensures
        r matches Ok(n) ==> exists|rows: Seq<Seq<SqlCell>>| #[trigger] crate::db::single_int(rows) == Some(n),
        r matches Ok(n) ==> single_answer(sql@, param_views(params@), n),
{
    match query(conn, sql, params) {
        Ok(rows) => {
            let r = read_single_int(&rows);
            proof {
                if r is Ok {
                    assert(crate::db::single_int(row_views(rows@)) == Some(r->Ok_0));
                    assert(answered(sql@, param_views(params@), row_views(rows@)));
                }
            }
            r
        },
        Err(e) => Err(e),
    }
}

/// Runs a statement that returns one integer (an `INSERT ... RETURNING`).
fn returning_int(s: &mut Session, sql: &str, params: &Vec<SqlValue>) -> (r: Result<i64, DbError>)
    ensures
        final(s).history() == old(s).history().push((sql@, param_views(params@))),
        r matches Ok(n) ==> single_answer(sql@, param_views(params@), n),
{
    match s.query(sql, params) {
        Ok(rows) => {
            let r = read_single_int(&rows);
            proof {
                if r is Ok {
                    assert(crate::db::single_int(row_views(rows@)) == Some(r->Ok_0));
                    assert(answered(sql@, param_views(params@), row_views(rows@)));
                }
            }
            r
        },
        Err(e) => Err(e),
    }
}

/// A count; none when it cannot be read.
fn count_read(conn: &rusqlite::Connection, sql: &str, id: i64) -> (r: Option<i64>)
    ensures
        r matches Some(n) ==> single_answer(sql@, int1(id), n),
{
    let params = int_param(id);
    let r = match query_one_int(conn, sql, &params) {
        Ok(n) => Some(n),
        Err(_) => None,
    };
    assert(param_views(params@) =~= int1(id));
    r
}

/// `Some(x)` as an integer parameter, `None` as NULL.
fn opt_int(o: Option<i64>) -> (r: SqlValue)
    ensures
        r == match o { Some(x) => SqlValue::Integer(x), None => SqlValue::Null },
{
    match o {
        Some(x) => SqlValue::Integer(x),
        None => SqlValue::Null,
    }
}

/// An extraction time in milliseconds as stored (`as i64`), or NULL.
fn extract_param(ms: Option<u64>) -> (r: SqlValue)
    ensures
        r == match ms { Some(m) => SqlValue::Integer(m as i64), None => SqlValue::Null },
{
    match ms {
        Some(m) => SqlValue::Integer(m as i64),
        None => SqlValue::Null,
    }
}

// ── One file ─────────────────────────────────────────────────────────────────

/// Queues the archived chunks of a file for removal.
pub open spec fn queue_chunks_sql() -> Seq<char> {
    "INSERT INTO pending_chunk_removes (archive_name, chunk_name) SELECT DISTINCT chunk_archive, chunk_name FROM lines WHERE file_id = ?1 AND chunk_archive IS NOT NULL"@
}

/// The ids of the members of an archive.
pub open spec fn member_ids_sql() -> Seq<char> {
    "SELECT id FROM files WHERE path LIKE ?1"@
}

/// Deletes the members of an archive.
pub open spec fn members_delete_sql() -> Seq<char> {
    "DELETE FROM files WHERE path LIKE ?1"@
}

/// A file that another file of other path already holds the content of.
pub open spec fn content_owner_sql() -> Seq<char> {
    "SELECT id FROM files WHERE content_hash = ?1 AND canonical_file_id IS NULL AND path != ?2 LIMIT 1"@
}

/// The stored time of a path.
pub open spec fn stored_mtime_sql() -> Seq<char> {
    "SELECT mtime FROM files WHERE path = ?1"@
}

/// Makes a file the alias of another.
pub open spec fn alias_sql() -> Seq<char> {
    "INSERT INTO files (path, mtime, size, kind, indexed_at, extract_ms, content_hash, canonical_file_id) VALUES (?1, ?2, ?3, ?4, ?5, ?6, ?7, ?8) ON CONFLICT(path) DO UPDATE SET mtime = excluded.mtime, size = excluded.size, kind = excluded.kind, extract_ms = excluded.extract_ms, content_hash = excluded.content_hash, canonical_file_id = excluded.canonical_file_id"@
}

/// Inserts or updates a file's row, returning its id.
pub open spec fn upsert_sql() -> Seq<char> {
    "INSERT INTO files (path, mtime, size, kind, indexed_at, extract_ms, content_hash, canonical_file_id) VALUES (?1, ?2, ?3, ?4, ?5, ?6, ?7, NULL) ON CONFLICT(path) DO UPDATE SET mtime = excluded.mtime, size = excluded.size, kind = excluded.kind, indexed_at = excluded.indexed_at, extract_ms = excluded.extract_ms, content_hash = excluded.content_hash, canonical_file_id = NULL RETURNING id"@
}

/// Deletes a file's lines.
pub open spec fn lines_delete_sql() -> Seq<char> {
    "DELETE FROM lines WHERE file_id = ?1"@
}

/// Stores a file's content inline.
pub open spec fn inline_sql() -> Seq<char> {
    "INSERT INTO file_content (file_id, content) VALUES (?1, ?2) ON CONFLICT(file_id) DO UPDATE SET content = excluded.content"@
}

/// Drops a file's inline content.
pub open spec fn inline_delete_sql() -> Seq<char> {
    "DELETE FROM file_content WHERE file_id = ?1"@
}

/// Inserts a line row, returning its id.
pub open spec fn line_insert_sql() -> Seq<char> {
    "INSERT INTO lines (file_id, line_number, chunk_archive, chunk_name, line_offset_in_chunk) VALUES (?1, ?2, NULL, NULL, ?3) RETURNING id"@
}

/// Adds a line's full-text entry.
pub open spec fn line_fts_sql() -> Seq<char> {
    "INSERT INTO lines_fts(rowid, content) VALUES (?1, ?2)"@
}

/// The members of the outer archive at `path` were looked up, each
/// member's chunks queued for removal, the members deleted, and the
/// transaction committed.
pub open spec fn members_removed(path: Seq<char>) -> bool {
    exists|cells: Seq<Seq<SqlCell>>, ids: Seq<i64>| {
        &&& #[trigger] answered(member_ids_sql(), text1(members_of(path)), cells)
        &&& #[trigger] ids_read(cells, ids)
        &&& forall|k: int| 0 <= k < ids.len() ==> ran(queue_chunks_sql(), seq![ParamView::Integer(#[trigger] ids[k])])
        &&& ran(members_delete_sql(), text1(members_of(path)))
        &&& committed()
    }
}

/// The values of a content-owner lookup: the hash and the path.
pub open spec fn owner_params(hash: Seq<char>, path: Seq<char>) -> Seq<ParamView> {
    seq![ParamView::Text(hash), ParamView::Text(path)]
}

/// The values of a line row: file, line number and offset.
pub open spec fn line_row_params(file_id: i64, number: int, offset: int) -> Seq<ParamView> {
    seq![ParamView::Integer(file_id), ParamView::Integer(number as i64), ParamView::Integer(offset as i64)]
}

/// An optional integer as bound.
pub open spec fn opt_view(o: Option<i64>) -> ParamView {
    match o { Some(x) => ParamView::Integer(x), None => ParamView::Null }
}

/// An extraction time as bound.
pub open spec fn ms_view(ms: Option<u64>) -> ParamView {
    match ms { Some(m) => ParamView::Integer(m as i64), None => ParamView::Null }
}

/// The values of a file's row: path, time, size, kind, indexing time,
/// extraction time and content hash.
pub open spec fn row_params(file: IndexFile, now: i64) -> Seq<ParamView> {
    seq![
        ParamView::Text(file.path@), ParamView::Integer(file.mtime), opt_view(file.size), ParamView::Text(file.kind@),
        ParamView::Integer(now), ms_view(file.extract_ms),
        match file.content_hash { Some(h) => ParamView::Text(h@), None => ParamView::Null },
    ]
}

/// The values of an alias row: those of the row with `hash`, then the
/// canonical file.
pub open spec fn alias_params(file: IndexFile, hash: Seq<char>, canonical_id: i64, now: i64) -> Seq<ParamView> {
    seq![
        ParamView::Text(file.path@), ParamView::Integer(file.mtime), opt_view(file.size), ParamView::Text(file.kind@),
        ParamView::Integer(now), ms_view(file.extract_ms), ParamView::Text(hash), ParamView::Integer(canonical_id),
    ]
}

/// Line `number` with `content` was inserted for file `file_id` at
/// `offset`, and its full-text entry added under the new line's id.
pub open spec fn line_written(file_id: i64, number: int, content: Seq<char>, offset: int) -> bool {
    exists|line_id: i64| {
        &&& #[trigger] single_answer(line_insert_sql(), line_row_params(file_id, number, offset), line_id)
        &&& ran(line_fts_sql(), seq![ParamView::Integer(line_id), ParamView::Text(content)])
    }
}

/// The lines of `file` were written for its row `file_id`: the old ones
/// deleted, the content stored inline or dropped, and each line in line
/// order inserted (at its position when inline, else at offset 0).
pub open spec fn lines_written(file: IndexFile, inline: bool, file_id: i64) -> bool {
    let sorted = sort_by_number(line_views(file.lines@));
    &&& ran(lines_delete_sql(), int1(file_id))
    &&& if inline {
        ran(inline_sql(), seq![ParamView::Integer(file_id), ParamView::Text(join_contents(sorted))])
    } else {
        ran(inline_delete_sql(), int1(file_id))
    }
    &&& forall|k: int| 0 <= k < sorted.len() ==> line_written(file_id, (#[trigger] sorted[k]).1, sorted[k].2, offset_at(inline, k))
}

/// The offset of the `k`-th line: its position when inline, else 0.
pub open spec fn offset_at(inline: bool, k: int) -> int {
    if inline { k } else { 0 }
}

/// Whether an upsert is older than the stored row (see `is_stale_upsert`).
pub open spec fn stale(incoming: i64, stored: Option<i64>) -> bool {
    match stored { Some(s) => incoming > 0 && incoming < s, None => false }
}

/// Whether a file's content is stored inline (see `use_inline_storage`).
pub open spec fn inline_for(file: IndexFile, threshold: u64) -> bool {
    threshold > 0 && crate::ingest::content_bytes(file.lines@) <= threshold
}

/// The row of `file` was written, unless the stored time is newer: the
/// stored time read, the old chunks of the existing row queued, the row
/// upserted (indexed at `now`), its lines written, and the transaction
/// committed.
pub open spec fn row_written(file: IndexFile, threshold: u64, now: i64) -> bool {
    exists|stored: Option<i64>| {
        &&& #[trigger] optional_answer(stored_mtime_sql(), text1(file.path@), stored)
        &&& !stale(file.mtime, stored) ==> exists|existing: Option<i64>, id: i64| {
            &&& #[trigger] optional_answer(id_by_path_sql(), text1(file.path@), existing)
            &&& (existing matches Some(fid) ==> ran(queue_chunks_sql(), int1(fid)))
            &&& #[trigger] single_answer(upsert_sql(), row_params(file, now), id)
            &&& lines_written(file, inline_for(file, threshold), id)
            &&& committed()
        }
    }
}

/// Whether indexing `file` first deletes its members: an outer archive
/// indexed as a placeholder (time 0), unless `skip`.
pub open spec fn deletes_members(file: IndexFile, skip: bool) -> bool {
    !skip && file.kind@ == archive_kind() && !contains_seq(file.path@, composite_sep()) && file.mtime == 0
}

/// What a successful indexing of `file` wrote (see
/// `process_file_phase1_fallback`): the members removed first when
/// `deletes_members`; then, when another file holds the content, the alias
/// row; else the row and its lines (`row_written`).
pub open spec fn file_written(file: IndexFile, skip: bool, threshold: u64, now: i64) -> bool {
    &&& deletes_members(file, skip) ==> members_removed(file.path@)
    &&& match file.content_hash {
        Some(h) => exists|owner: Option<i64>| {
            &&& #[trigger] optional_answer(content_owner_sql(), owner_params(h@, file.path@), owner)
            &&& match owner {
                Some(c) => ran(alias_sql(), alias_params(file, h@, c, now)),
                None => row_written(file, threshold, now),
            }
        },
        None => row_written(file, threshold, now),
    }
}

/// The statements that indexing a file hands over.
pub open spec fn file_sqls() -> Set<Seq<char>> {
    crate::db::tx_sqls().union(set![
        queue_chunks_sql(), members_delete_sql(), alias_sql(), upsert_sql(), lines_delete_sql(),
        inline_sql(), inline_delete_sql(), line_insert_sql(), line_fts_sql()
    ])
}

/// The statement that opens a transaction.
pub open spec fn begin_stmt() -> Stmt {
    ("BEGIN DEFERRED"@, Seq::empty())
}

/// The statement that commits a transaction.
pub open spec fn commit_stmt() -> Stmt {
    ("COMMIT"@, Seq::empty())
}

/// The removals queued for the first `n` of `ids`, in order.
pub open spec fn queue_stmts(ids: Seq<i64>, n: int) -> Seq<Stmt>
    decreases n,
{
    if n <= 0 {
        Seq::empty()
    } else {
        queue_stmts(ids, n - 1).push((queue_chunks_sql(), int1(ids[n - 1])))
    }
}

/// The statements that remove the members `ids` of the archive at `path`:
/// in one transaction, the removal of each member's chunks queued in
/// order, then the members deleted.
pub open spec fn members_stmts(path: Seq<char>, ids: Seq<i64>) -> Seq<Stmt> {
    seq![begin_stmt()] + queue_stmts(ids, ids.len() as int)
        + seq![(members_delete_sql(), text1(members_of(path))), commit_stmt()]
}

/// `t` is what removing the members of the archive at `path` handed over,
/// for the members that the database answered.
pub open spec fn members_history(path: Seq<char>, t: Seq<Stmt>) -> bool {
    exists|cells: Seq<Seq<SqlCell>>, ids: Seq<i64>| {
        &&& #[trigger] answered(member_ids_sql(), text1(members_of(path)), cells)
        &&& #[trigger] ids_read(cells, ids)
        &&& t == members_stmts(path, ids)
    }
}

/// The statements that write the first `n` of the `sorted` lines of file
/// `file_id`: for each line in order, its row, then its full-text entry
/// under the id that the row's insert returned (`ids`).
pub open spec fn line_stmts(file_id: i64, sorted: Seq<LineView>, ids: Seq<i64>, inline: bool, n: int) -> Seq<Stmt>
    decreases n,
{
    if n <= 0 {
        Seq::empty()
    } else {
        line_stmts(file_id, sorted, ids, inline, n - 1)
            .push((line_insert_sql(), line_row_params(file_id, sorted[n - 1].1, offset_at(inline, n - 1))))
            .push((line_fts_sql(), seq![ParamView::Integer(ids[n - 1]), ParamView::Text(sorted[n - 1].2)]))
    }
}

/// `ids` are the ids that the line inserts of file `file_id` returned, one
/// per sorted line.
pub open spec fn line_ids_answered(file_id: i64, sorted: Seq<LineView>, ids: Seq<i64>, inline: bool) -> bool {
    &&& ids.len() == sorted.len()
    &&& forall|k: int| 0 <= k < ids.len()
        ==> #[trigger] single_answer(line_insert_sql(), line_row_params(file_id, sorted[k].1, offset_at(inline, k)), ids[k])
}

/// The statements of one file's rewrite, in order: the old chunks queued
/// (for an existing row), the row upserted (it returned `file_id`), the
/// old lines deleted, the content stored inline or dropped, then the lines.
pub open spec fn write_stmts(file: IndexFile, now: i64, existing: Option<i64>, inline: bool, file_id: i64, ids: Seq<i64>) -> Seq<Stmt> {
    let sorted = sort_by_number(line_views(file.lines@));
    (match existing {
        Some(fid) => seq![(queue_chunks_sql(), int1(fid))],
        None => Seq::<Stmt>::empty(),
    }) + seq![
        (upsert_sql(), row_params(file, now)),
        (lines_delete_sql(), int1(file_id)),
        if inline {
            (inline_sql(), seq![ParamView::Integer(file_id), ParamView::Text(join_contents(sorted))])
        } else {
            (inline_delete_sql(), int1(file_id))
        },
    ] + line_stmts(file_id, sorted, ids, inline, sorted.len() as int)
}

/// `t` is what writing the row of `file` handed over: nothing when the
/// stored time is newer, else one transaction around `write_stmts`.
pub open spec fn row_history(file: IndexFile, threshold: u64, now: i64, t: Seq<Stmt>) -> bool {
    exists|stored: Option<i64>| {
        &&& #[trigger] optional_answer(stored_mtime_sql(), text1(file.path@), stored)
        &&& stale(file.mtime, stored) ==> t.len() == 0
        &&& !stale(file.mtime, stored) ==> exists|existing: Option<i64>, id: i64, ids: Seq<i64>| {
            &&& #[trigger] optional_answer(id_by_path_sql(), text1(file.path@), existing)
            &&& single_answer(upsert_sql(), row_params(file, now), id)
            &&& #[trigger] line_ids_answered(id, sort_by_number(line_views(file.lines@)), ids, inline_for(file, threshold))
            &&& t == seq![begin_stmt()] + write_stmts(file, now, existing, inline_for(file, threshold), id, ids) + seq![commit_stmt()]
        }
    }
}

/// `t` is what indexing `file` handed over (see `file_written`): the
/// members' removal first when `deletes_members`, then the alias row or
/// the row's history.
pub open spec fn file_history(file: IndexFile, skip: bool, threshold: u64, now: i64, t: Seq<Stmt>) -> bool {
    exists|pre: Seq<Stmt>, tail: Seq<Stmt>| {
        &&& #[trigger] (pre + tail) == t
        &&& if deletes_members(file, skip) { members_history(file.path@, pre) } else { pre.len() == 0 }
        &&& tail_history(file, threshold, now, tail)
    }
}

/// `t` is what indexing `file` handed over after any members' removal:
/// the alias row when another file holds the content, else the row's
/// history.
pub open spec fn tail_history(file: IndexFile, threshold: u64, now: i64, t: Seq<Stmt>) -> bool {
    match file.content_hash {
        Some(h) => exists|owner: Option<i64>| {
            &&& #[trigger] optional_answer(content_owner_sql(), owner_params(h@, file.path@), owner)
            &&& match owner {
                Some(c) => t == seq![(alias_sql(), alias_params(file, h@, c, now))],
                None => row_history(file, threshold, now, t),
            }
        },
        None => row_history(file, threshold, now, t),
    }
}

/// A file's history from its members' part and the rest.
proof fn lemma_file_history(file: IndexFile, skip: bool, threshold: u64, now: i64, pre: Seq<Stmt>, tail: Seq<Stmt>)
    requires
        if deletes_members(file, skip) { members_history(file.path@, pre) } else { pre.len() == 0 },
        tail_history(file, threshold, now, tail),
    ensures
        file_history(file, skip, threshold, now, pre + tail),
{
    assert((pre + tail) == pre + tail);
}

/// Nothing is handed over for a row whose stored time is newer.
proof fn lemma_row_history_stale(file: IndexFile, threshold: u64, now: i64, stored: Option<i64>)
    requires
        optional_answer(stored_mtime_sql(), text1(file.path@), stored),
        stale(file.mtime, stored),
    ensures
        row_history(file, threshold, now, Seq::empty()),
{
}

/// One transaction around `write_stmts` is a row's history.
proof fn lemma_row_history_written(
    file: IndexFile, threshold: u64, now: i64, stored: Option<i64>, existing: Option<i64>, id: i64, ids: Seq<i64>,
)
    requires
        optional_answer(stored_mtime_sql(), text1(file.path@), stored),
        !stale(file.mtime, stored),
        optional_answer(id_by_path_sql(), text1(file.path@), existing),
        single_answer(upsert_sql(), row_params(file, now), id),
        line_ids_answered(id, sort_by_number(line_views(file.lines@)), ids, inline_for(file, threshold)),
    ensures
        row_history(file, threshold, now,
            seq![begin_stmt()] + write_stmts(file, now, existing, inline_for(file, threshold), id, ids) + seq![commit_stmt()]),
{
}

/// Queues the archived chunks of file `file_id` for removal.
fn queue_chunk_removal(s: &mut Session, file_id: i64) -> (r: Result<(), DbError>)
    ensures
        final(s).history() == old(s).history().push((queue_chunks_sql(), int1(file_id))),
        r is Ok ==> ran(queue_chunks_sql(), int1(file_id)),
{
    let params = int_param(file_id);
    let r = run(
        s,
        "INSERT INTO pending_chunk_removes (archive_name, chunk_name) SELECT DISTINCT chunk_archive, chunk_name FROM lines WHERE file_id = ?1 AND chunk_archive IS NOT NULL",
        &params,
    );
    assert(param_views(params@) =~= int1(file_id));
    r
}

/// Deletes the members of an outer archive that is indexed again, first
/// queueing their archived chunks for removal, in one transaction.
fn delete_members(s: &mut Session, path: &str) -> (r: Result<(), DbError>)
    ensures
        grew_within(old(s).history(), final(s).history(), file_sqls()),
        r is Ok ==> members_removed(path@),
        r is Ok ==> exists|t: Seq<Stmt>| final(s).history() == old(s).history() + t && #[trigger] members_history(path@, t),
{
    let ghost h0 = s.history();
    let pattern = members_pattern(path);
    let ghost ps = text1(members_of(path@));
    let p1 = text_param(pattern.clone());
    let rows = match query(s.conn(), "SELECT id FROM files WHERE path LIKE ?1", &p1) {
        Ok(rows) => rows,
        Err(e) => { return Err(e); },
    };
    assert(param_views(p1@) =~= ps);
    let ids = match read_ids(&rows) {
        Ok(ids) => ids,
        Err(e) => { return Err(e); },
    };
    assert(ids_read(row_views(rows@), ids@));
    match begin(s) {
        Ok(()) => {},
        Err(e) => { return Err(e); },
    }
    assert(grew_within(h0, s.history(), file_sqls()));
    let ghost h1 = s.history();
    assert(h1 == h0.push(begin_stmt()));
    let mut body: Result<(), DbError> = Ok(());
    let mut i: usize = 0;
    while i < ids.len()
        invariant_except_break
            body is Ok,
            forall|k: int| 0 <= k < i ==> ran(queue_chunks_sql(), seq![ParamView::Integer(#[trigger] ids@[k])]),
            s.history() == h1 + queue_stmts(ids@, i as int),
        invariant
            i <= ids@.len(),
            grew_within(old(s).history(), s.history(), file_sqls()),
        ensures
            body is Ok ==> forall|k: int| 0 <= k < ids@.len() ==> ran(queue_chunks_sql(), seq![ParamView::Integer(#[trigger] ids@[k])]),
            body is Ok ==> s.history() == h1 + queue_stmts(ids@, ids@.len() as int),
        decreases ids@.len() - i,
    {
        let ghost hb = s.history();
        match queue_chunk_removal(s, ids[i]) {
            Ok(()) => {},
            Err(e) => { body = Err(e); break; },
        }
        assert(s.history() =~= h1 + queue_stmts(ids@, i + 1));
        i = i + 1;
    }
    if body.is_ok() {
        let p2 = text_param(pattern);
        body = run(s, "DELETE FROM files WHERE path LIKE ?1", &p2);
        assert(param_views(p2@) =~= ps);
    }
    let ghost hb = s.history();
    let r = finish(s, body);
    assert(grew_within(hb, s.history(), file_sqls()));
    proof {
        if r is Ok {
            assert(answered(member_ids_sql(), ps, row_views(rows@)) && ids_read(row_views(rows@), ids@));
            let t = members_stmts(path@, ids@);
            assert(s.history() =~= h0 + t);
            assert(members_history(path@, t));
        }
    }
    r
}

/// Registers `file` as an alias of the file `canonical_id` that has the
/// same content: its row points at the canonical file and gets no lines.
fn upsert_alias(s: &mut Session, file: &IndexFile, hash: &str, canonical_id: i64, now: i64) -> (r: Result<(), DbError>)
    ensures
        final(s).history() == old(s).history().push((alias_sql(), alias_params(*file, hash@, canonical_id, now))),
        r is Ok ==> ran(alias_sql(), alias_params(*file, hash@, canonical_id, now)),
{
    let mut p: Vec<SqlValue> = Vec::new();
    p.push(SqlValue::Text(file.path.clone()));
    p.push(SqlValue::Integer(file.mtime));
    p.push(opt_int(file.size));
    p.push(SqlValue::Text(file.kind.clone()));
    p.push(SqlValue::Integer(now));
    p.push(extract_param(file.extract_ms));
    p.push(SqlValue::Text(hash.to_owned()));
    p.push(SqlValue::Integer(canonical_id));
    assert(param_views(p@) =~= alias_params(*file, hash@, canonical_id, now));
    run(
        s,
        "INSERT INTO files (path, mtime, size, kind, indexed_at, extract_ms, content_hash, canonical_file_id) VALUES (?1, ?2, ?3, ?4, ?5, ?6, ?7, ?8) ON CONFLICT(path) DO UPDATE SET mtime = excluded.mtime, size = excluded.size, kind = excluded.kind, extract_ms = excluded.extract_ms, content_hash = excluded.content_hash, canonical_file_id = excluded.canonical_file_id",
        &p,
    )
}

/// Inserts one line row (no chunk yet) and its full-text entry, keyed by
/// the new line row's id; that id.
fn insert_line(s: &mut Session, file_id: i64, line_number: usize, offset: usize, content: &str) -> (r: Result<i64, DbError>)
    ensures
        grew_within(old(s).history(), final(s).history(), file_sqls()),
        r matches Ok(id) ==> final(s).history() == old(s).history()
            .push((line_insert_sql(), line_row_params(file_id, line_number as int, offset as int)))
            .push((line_fts_sql(), seq![ParamView::Integer(id), ParamView::Text(content@)])),
        r matches Ok(id) ==> single_answer(line_insert_sql(), line_row_params(file_id, line_number as int, offset as int), id),
        r is Ok ==> line_written(file_id, line_number as int, content@, offset as int),
{
    let mut p: Vec<SqlValue> = Vec::new();
    p.push(SqlValue::Integer(file_id));
    p.push(SqlValue::Integer(line_number as i64));
    p.push(SqlValue::Integer(offset as i64));
    assert(param_views(p@) =~= line_row_params(file_id, line_number as int, offset as int));
    let line_id = match returning_int(
        s,
        "INSERT INTO lines (file_id, line_number, chunk_archive, chunk_name, line_offset_in_chunk) VALUES (?1, ?2, NULL, NULL, ?3) RETURNING id",
        &p,
    ) {
        Ok(id) => id,
        Err(e) => { return Err(e); },
    };
    let mut f: Vec<SqlValue> = Vec::new();
    f.push(SqlValue::Integer(line_id));
    f.push(SqlValue::Text(content.to_owned()));
    assert(param_views(f@) =~= seq![ParamView::Integer(line_id), ParamView::Text(content@)]);
    let r = run(s, "INSERT INTO lines_fts(rowid, content) VALUES (?1, ?2)", &f);
    assert(single_answer(line_insert_sql(), line_row_params(file_id, line_number as int, offset as int), line_id));
    match r {
        Ok(()) => Ok(line_id),
        Err(e) => Err(e),
    }
}

/// The writes of one file inside its transaction: queue the old chunks,
/// upsert the row, replace its lines, and store small content inline.
fn write_file(s: &mut Session, file: &IndexFile, existing_id: Option<i64>, use_inline: bool, now: i64) -> (r: Result<(), DbError>)
    ensures
        grew_within(old(s).history(), final(s).history(), file_sqls()),
        r is Ok ==> (existing_id matches Some(fid) ==> ran(queue_chunks_sql(), int1(fid))),
        r is Ok ==> exists|id: i64, ids: Seq<i64>| {
            &&& #[trigger] single_answer(upsert_sql(), row_params(*file, now), id)
            &&& lines_written(*file, use_inline, id)
            &&& #[trigger] line_ids_answered(id, sort_by_number(line_views(file.lines@)), ids, use_inline)
            &&& final(s).history() == old(s).history() + write_stmts(*file, now, existing_id, use_inline, id, ids)
        },
{
    let ghost h0 = s.history();
    let ghost pre: Seq<Stmt> = match existing_id {
        Some(fid) => seq![(queue_chunks_sql(), int1(fid))],
        None => Seq::<Stmt>::empty(),
    };
    match existing_id {
        Some(fid) => match queue_chunk_removal(s, fid) {
            Ok(()) => {},
            Err(e) => { return Err(e); },
        },
        None => {},
    }
    assert(s.history() =~= h0 + pre);
    let mut p: Vec<SqlValue> = Vec::new();
    p.push(SqlValue::Text(file.path.clone()));
    p.push(SqlValue::Integer(file.mtime));
    p.push(opt_int(file.size));
    p.push(SqlValue::Text(file.kind.clone()));
    p.push(SqlValue::Integer(now));
    p.push(extract_param(file.extract_ms));
    p.push(match &file.content_hash { Some(h) => SqlValue::Text(h.clone()), None => SqlValue::Null });
    assert(param_views(p@) =~= row_params(*file, now));
    let file_id = match returning_int(
        s,
        "INSERT INTO files (path, mtime, size, kind, indexed_at, extract_ms, content_hash, canonical_file_id) VALUES (?1, ?2, ?3, ?4, ?5, ?6, ?7, NULL) ON CONFLICT(path) DO UPDATE SET mtime = excluded.mtime, size = excluded.size, kind = excluded.kind, indexed_at = excluded.indexed_at, extract_ms = excluded.extract_ms, content_hash = excluded.content_hash, canonical_file_id = NULL RETURNING id",
        &p,
    ) {
        Ok(id) => id,
        Err(e) => { return Err(e); },
    };
    let pd = int_param(file_id);
    assert(param_views(pd@) =~= int1(file_id));
    match run(s, "DELETE FROM lines WHERE file_id = ?1", &pd) {
        Ok(()) => {},
        Err(e) => { return Err(e); },
    }
    let sorted = sort_lines_by_number(&file.lines);
    let ghost sv = sort_by_number(line_views(file.lines@));
    let ghost third: Stmt = if use_inline {
        (inline_sql(), seq![ParamView::Integer(file_id), ParamView::Text(join_contents(sv))])
    } else {
        (inline_delete_sql(), int1(file_id))
    };
    if use_inline {
        let (text, _layout) = inline_layout(&file.lines);
        let mut c: Vec<SqlValue> = Vec::new();
        c.push(SqlValue::Integer(file_id));
        c.push(SqlValue::Text(text));
        assert(param_views(c@) =~= seq![ParamView::Integer(file_id), ParamView::Text(join_contents(sv))]);
        match run(
            s,
            "INSERT INTO file_content (file_id, content) VALUES (?1, ?2) ON CONFLICT(file_id) DO UPDATE SET content = excluded.content",
            &c,
        ) {
            Ok(()) => {},
            Err(e) => { return Err(e); },
        }
    } else {
        let pc = int_param(file_id);
        assert(param_views(pc@) =~= int1(file_id));
        match run(s, "DELETE FROM file_content WHERE file_id = ?1", &pc) {
            Ok(()) => {},
            Err(e) => { return Err(e); },
        }
    }
    let ghost h1 = s.history();
    assert(h1 =~= h0 + pre + seq![(upsert_sql(), row_params(*file, now)), (lines_delete_sql(), int1(file_id)), third]);
    let ghost mut ids: Seq<i64> = Seq::empty();
    let mut k: usize = 0;
    while k < sorted.len()
        invariant
            k <= sorted@.len(),
            line_views(sorted@) == sv,
            sv.len() == sorted@.len(),
            forall|j: int| 0 <= j < k ==> line_written(file_id, (#[trigger] sv[j]).1, sv[j].2, offset_at(use_inline, j)),
            ids.len() == k,
            forall|j: int| 0 <= j < k
                ==> #[trigger] single_answer(line_insert_sql(), line_row_params(file_id, sv[j].1, offset_at(use_inline, j)), ids[j]),
            s.history() == h1 + line_stmts(file_id, sv, ids, use_inline, k as int),
            grew_within(old(s).history(), s.history(), file_sqls()),
        decreases sorted@.len() - k,
    {
        let line = &sorted[k];
        let offset = if use_inline { k } else { 0 };
        assert(sv[k as int] == sorted@[k as int].view_line());
        let id = match insert_line(s, file_id, line.line_number, offset, line.content.as_str()) {
            Ok(id) => id,
            Err(e) => { return Err(e); },
        };
        proof {
            let ni = ids.push(id);
            assert(line_stmts(file_id, sv, ni, use_inline, k as int) == line_stmts(file_id, sv, ids, use_inline, k as int)) by {
                lemma_line_stmts_prefix(file_id, sv, ids, ni, use_inline, k as int);
            }
            ids = ni;
            assert(s.history() =~= h1 + line_stmts(file_id, sv, ids, use_inline, k + 1));
        }
        k = k + 1;
    }
    assert(lines_written(*file, use_inline, file_id));
    assert(single_answer(upsert_sql(), row_params(*file, now), file_id));
    assert(line_ids_answered(file_id, sv, ids, use_inline));
    assert(s.history() =~= h0 + write_stmts(*file, now, existing_id, use_inline, file_id, ids));
    Ok(())
}

/// The statements of the first `n` lines depend only on the first `n` ids.
proof fn lemma_line_stmts_prefix(file_id: i64, sorted: Seq<LineView>, a: Seq<i64>, b: Seq<i64>, inline: bool, n: int)
    requires
        0 <= n <= a.len(),
        n <= b.len(),
        forall|j: int| 0 <= j < n ==> a[j] == b[j],
    ensures
        line_stmts(file_id, sorted, a, inline, n) == line_stmts(file_id, sorted, b, inline, n),
    decreases n,
{
    if n > 0 {
        lemma_line_stmts_prefix(file_id, sorted, a, b, inline, n - 1);
    }
}

/// Indexes one file into the source database (the archive thread writes
/// its chunks later):
/// - an outer archive indexed again as a placeholder (time 0) first loses
///   its members, unless `skip_inner_delete`;
/// - a file whose content another file (not an alias, other path) already
///   has becomes an alias of it, with no lines;
/// - an upsert older than what is stored is skipped;
/// - else, in one transaction, the old chunks are queued for removal, the
///   row is upserted (indexed at `now`), its old lines are deleted, content
///   of at most `inline_threshold` bytes (when above 0) is stored inline,
///   and then each line in line order is inserted with its full-text entry.
///
/// A success means the statements of `file_written` ran, handed over in the
/// order that `file_history` gives.
pub fn process_file_phase1_fallback(s: &mut Session, file: &IndexFile, skip_inner_delete: bool, inline_threshold: u64, now: i64) -> (r: Result<(), DbError>)
    ensures
        grew_within(old(s).history(), final(s).history(), file_sqls()),
        r is Ok ==> file_written(*file, skip_inner_delete, inline_threshold, now),
        r is Ok ==> exists|t: Seq<Stmt>| {
            &&& final(s).history() == old(s).history() + t
            &&& #[trigger] file_history(*file, skip_inner_delete, inline_threshold, now, t)
        },
{
    let ghost h0 = s.history();
    let ghost mut pre: Seq<Stmt> = Seq::empty();
    if needs_inner_delete(skip_inner_delete, file.path.as_str(), file.kind.as_str(), file.mtime) {
        match delete_members(s, file.path.as_str()) {
            Ok(()) => {},
            Err(e) => { return Err(e); },
        }
        proof {
            pre = choose|t: Seq<Stmt>| s.history() == h0 + t && #[trigger] members_history(file.path@, t);
        }
    }
    let ghost h1 = s.history();
    assert(h1 == h0 + pre);
    assert(deletes_members(*file, skip_inner_delete) ==> members_history(file.path@, pre));
    assert(!deletes_members(*file, skip_inner_delete) ==> pre.len() == 0);
    match &file.content_hash {
        Some(hash) => {
            let mut p: Vec<SqlValue> = Vec::new();
            p.push(SqlValue::Text(hash.clone()));
            p.push(SqlValue::Text(file.path.clone()));
            let found = query_optional_int(
                s.conn(),
                "SELECT id FROM files WHERE content_hash = ?1 AND canonical_file_id IS NULL AND path != ?2 LIMIT 1",
                &p,
            );
            assert(param_views(p@) =~= owner_params(hash@, file.path@));
            match found {
                Ok(Some(cid)) => {
                    let r = upsert_alias(s, file, hash.as_str(), cid, now);
                    proof {
                        assert(optional_answer(content_owner_sql(), owner_params(hash@, file.path@), Some(cid)));
                        let tail = seq![(alias_sql(), alias_params(*file, hash@, cid, now))];
                        assert(s.history() =~= h0 + (pre + tail));
                        assert(tail_history(*file, inline_threshold, now, tail));
                        lemma_file_history(*file, skip_inner_delete, inline_threshold, now, pre, tail);
                    }
                    return r;
                },
                Ok(None) => {
                    assert(optional_answer(content_owner_sql(), owner_params(hash@, file.path@), None));
                },
                Err(e) => { return Err(e); },
            }
        },
        None => {},
    }
    let pm = text_param(file.path.clone());
    let stored = match query_optional_int(s.conn(), "SELECT mtime FROM files WHERE path = ?1", &pm) {
        Ok(x) => x,
        Err(e) => { return Err(e); },
    };
    assert(param_views(pm@) =~= text1(file.path@));
    assert(optional_answer(stored_mtime_sql(), text1(file.path@), stored));
    if is_stale_upsert(file.mtime, stored) {
        proof {
            assert(row_written(*file, inline_threshold, now));
            let tail = Seq::<Stmt>::empty();
            lemma_row_history_stale(*file, inline_threshold, now, stored);
            assert(s.history() =~= h0 + (pre + tail));
            assert(tail_history(*file, inline_threshold, now, tail));
            lemma_file_history(*file, skip_inner_delete, inline_threshold, now, pre, tail);
        }
        return Ok(());
    }
    let existing_id = match resolve_file_id(s.conn(), file.path.as_str()) {
        Ok(id) => id,
        Err(e) => { return Err(e); },
    };
    let use_inline = use_inline_storage(&file.lines, inline_threshold);
    match begin(s) {
        Ok(()) => {},
        Err(e) => { return Err(e); },
    }
    assert(grew_within(h1, s.history(), file_sqls()));
    let ghost h2 = s.history();
    let body = write_file(s, file, existing_id, use_inline, now);
    let ghost h3 = s.history();
    let r = finish(s, body);
    assert(grew_within(h3, s.history(), file_sqls()));
    proof {
        if r is Ok {
            let (id, ids) = choose|id: i64, ids: Seq<i64>| {
                &&& #[trigger] single_answer(upsert_sql(), row_params(*file, now), id)
                &&& lines_written(*file, use_inline, id)
                &&& #[trigger] line_ids_answered(id, sort_by_number(line_views(file.lines@)), ids, use_inline)
                &&& h3 == h2 + write_stmts(*file, now, existing_id, use_inline, id, ids)
            };
            assert(optional_answer(id_by_path_sql(), text1(file.path@), existing_id));
            assert(single_answer(upsert_sql(), row_params(*file, now), id));
            assert(row_written(*file, inline_threshold, now));
            let tail = seq![begin_stmt()] + write_stmts(*file, now, existing_id, use_inline, id, ids) + seq![commit_stmt()];
            assert(s.history() =~= h0 + (pre + tail));
            lemma_row_history_written(*file, inline_threshold, now, stored, existing_id, id, ids);
            assert(tail_history(*file, inline_threshold, now, tail));
            lemma_file_history(*file, skip_inner_delete, inline_threshold, now, pre, tail);
        }
    }
    r
}

/// Indexes one file (see `process_file_phase1_fallback`), deleting the
/// members of an outer archive placeholder.
pub fn process_file_phase1(s: &mut Session, file: &IndexFile, inline_threshold: u64, now: i64) -> (r: Result<(), DbError>)
    ensures
        grew_within(old(s).history(), final(s).history(), file_sqls()),
        r is Ok ==> file_written(*file, false, inline_threshold, now),
        r is Ok ==> exists|t: Seq<Stmt>| {
            &&& final(s).history() == old(s).history() + t
            &&& #[trigger] file_history(*file, false, inline_threshold, now, t)
        },
{
    process_file_phase1_fallback(s, file, false, inline_threshold, now)
}

// ── One request ──────────────────────────────────────────────────────────────

/// An indexing request of one source.
pub struct BulkRequest {
    pub source: String,
    pub files: Vec<IndexFile>,
    pub delete_paths: Vec<String>,
    /// `(old path, new path)`.
    pub rename_paths: Vec<(String, String)>,
    /// Failures the client met, `(path, error)`.
    pub indexing_failures: Vec<(String, String)>,
    pub scan_timestamp: Option<i64>,
}

/// What became of the files of a request.
pub struct RequestSummary {
    /// Paths indexed, in request order.
    pub indexed: Vec<String>,
    /// `(path, error)` of the files that failed and were indexed by name
    /// only, in request order.
    pub failed: Vec<(String, String)>,
    /// Indexed paths logged as added and as modified.
    pub added: Vec<String>,
    pub modified: Vec<String>,
    /// The steps of the request that were carried out, in order.
    pub steps: Vec<RequestStep>,
}

/// A step of applying a request to its source database.
#[derive(Clone, Copy, Debug, PartialEq, Eq, Structural)]
pub enum RequestStep {
    /// Delete the removed paths (with their statistics).
    Deletes,
    /// Rename the moved paths.
    Renames,
    /// Index each file (a failed one by name only).
    Files,
    /// Clear and record errors, store the scan time, in one transaction.
    Bookkeeping,
    /// Append the activity log (its failure is not an error of the request).
    Activity,
}

/// The steps of a request, in the order they are carried out: deletes
/// (when there are any), then renames (when there are any), then the
/// files, the bookkeeping and the activity log.
pub open spec fn request_plan_spec(has_deletes: bool, has_renames: bool) -> Seq<RequestStep> {
    (if has_deletes { seq![RequestStep::Deletes] } else { Seq::empty() })
        + (if has_renames { seq![RequestStep::Renames] } else { Seq::empty() })
        + seq![RequestStep::Files, RequestStep::Bookkeeping, RequestStep::Activity]
}

/// The position of the files step in the plan.
pub open spec fn files_at(has_deletes: bool, has_renames: bool) -> int {
    (if has_deletes { 1int } else { 0int }) + (if has_renames { 1int } else { 0int })
}

/// The steps of a request (see `request_plan_spec`).
pub fn request_plan(has_deletes: bool, has_renames: bool) -> (r: Vec<RequestStep>)
    ensures
        r@ == request_plan_spec(has_deletes, has_renames),
{
    let mut v: Vec<RequestStep> = Vec::new();
    if has_deletes {
        v.push(RequestStep::Deletes);
    }
    if has_renames {
        v.push(RequestStep::Renames);
    }
    v.push(RequestStep::Files);
    v.push(RequestStep::Bookkeeping);
    v.push(RequestStep::Activity);
    assert(v@ =~= request_plan_spec(has_deletes, has_renames));
    v
}

/// Where each step stands in the plan: deletes first when there are any,
/// renames next when there are any, then files, bookkeeping and activity.
proof fn lemma_plan_positions(hd: bool, hr: bool)
    ensures
        ({
            let p = request_plan_spec(hd, hr);
            let f = files_at(hd, hr);
            &&& p.len() == f + 3
            &&& forall|i: int| 0 <= i < p.len() ==> (#[trigger] p[i] == RequestStep::Files <==> i == f)
            &&& forall|i: int| 0 <= i < p.len() ==> (p[i] == RequestStep::Bookkeeping <==> i == f + 1)
            &&& forall|i: int| 0 <= i < p.len() ==> (p[i] == RequestStep::Activity <==> i == f + 2)
            &&& forall|i: int| 0 <= i < p.len() ==> (p[i] == RequestStep::Deletes <==> (hd && i == 0))
            &&& forall|i: int| 0 <= i < p.len() ==> (p[i] == RequestStep::Renames <==> (hr && i == f - 1))
        }),
{
    let p = request_plan_spec(hd, hr);
    if hd && hr {
        assert(p =~= seq![RequestStep::Deletes, RequestStep::Renames, RequestStep::Files, RequestStep::Bookkeeping, RequestStep::Activity]);
    } else if hd {
        assert(p =~= seq![RequestStep::Deletes, RequestStep::Files, RequestStep::Bookkeeping, RequestStep::Activity]);
    } else if hr {
        assert(p =~= seq![RequestStep::Renames, RequestStep::Files, RequestStep::Bookkeeping, RequestStep::Activity]);
    } else {
        assert(p =~= seq![RequestStep::Files, RequestStep::Bookkeeping, RequestStep::Activity]);
    }
}

/// Every file of the request was either indexed or failed, in order: the
/// `k`-th file's path is listed under exactly one of the two, and the
/// activity lists hold the indexed ones that `activity_kind_spec` logs.
pub open spec fn summary_of(files: Seq<IndexFile>, outcomes: Seq<bool>, s: RequestSummary) -> bool {
    &&& outcomes.len() == files.len()
    &&& crate::wrap::views(s.indexed@) == indexed_paths(files, outcomes, files.len() as int)
    &&& s.failed@.len() + s.indexed@.len() == files.len()
    &&& crate::wrap::views(s.added@) == logged_as(files, outcomes, files.len() as int, true)
    &&& crate::wrap::views(s.modified@) == logged_as(files, outcomes, files.len() as int, false)
}

/// The paths of the first `n` files whose indexing succeeded.
pub open spec fn indexed_paths(files: Seq<IndexFile>, outcomes: Seq<bool>, n: int) -> Seq<Seq<char>>
    decreases n,
{
    if n <= 0 {
        Seq::empty()
    } else if outcomes[n - 1] {
        indexed_paths(files, outcomes, n - 1).push(files[n - 1].path@)
    } else {
        indexed_paths(files, outcomes, n - 1)
    }
}

/// The paths of the first `n` files indexed and logged as added (`true`) or
/// modified (`false`).
pub open spec fn logged_as(files: Seq<IndexFile>, outcomes: Seq<bool>, n: int, added: bool) -> Seq<Seq<char>>
    decreases n,
{
    if n <= 0 {
        Seq::empty()
    } else if outcomes[n - 1] && activity_kind_spec(files[n - 1].path@, files[n - 1].mtime, files[n - 1].is_new) == Some(added) {
        logged_as(files, outcomes, n - 1, added).push(files[n - 1].path@)
    } else {
        logged_as(files, outcomes, n - 1, added)
    }
}

/// The files of a request indexed one by one (see `process_request_phase1`):
/// a file that fails is indexed by name only, or as an archive placeholder,
/// and its error recorded.
fn write_files(sess: &mut Session, request: &BulkRequest, inline_threshold: u64, now: i64) -> (r: RequestSummary)
    ensures
        grew_within(old(sess).history(), final(sess).history(), file_sqls()),
        r.steps@.len() == 0,
        exists|outcomes: Seq<bool>| {
            &&& #[trigger] summary_of(request.files@, outcomes, r)
            &&& forall|k: int| 0 <= k < outcomes.len() && outcomes[k]
                ==> file_written(#[trigger] request.files@[k], false, inline_threshold, now)
        },
{
    let mut indexed: Vec<String> = Vec::new();
    let mut failed: Vec<(String, String)> = Vec::new();
    let mut added: Vec<String> = Vec::new();
    let mut modified: Vec<String> = Vec::new();
    let ghost mut outcomes: Seq<bool> = Seq::empty();
    let ghost files = request.files@;
    let mut i: usize = 0;
    while i < request.files.len()
        invariant
            i <= files.len(),
            files == request.files@,
            outcomes.len() == i,
            crate::wrap::views(indexed@) == indexed_paths(files, outcomes, i as int),
            failed@.len() + indexed@.len() == i,
            crate::wrap::views(added@) == logged_as(files, outcomes, i as int, true),
            crate::wrap::views(modified@) == logged_as(files, outcomes, i as int, false),
            forall|k: int| 0 <= k < i && outcomes[k] ==> file_written(#[trigger] files[k], false, inline_threshold, now),
            grew_within(old(sess).history(), sess.history(), file_sqls()),
        decreases files.len() - i,
    {
        let file = &request.files[i];
        let ok = match process_file_phase1(sess, file, inline_threshold, now) {
            Ok(()) => {
                indexed.push(file.path.clone());
                match activity_kind(file.path.as_str(), file.mtime, file.is_new) {
                    Some(true) => added.push(file.path.clone()),
                    Some(false) => modified.push(file.path.clone()),
                    None => {},
                }
                true
            },
            Err(e) => {
                let (fallback, skip_inner) = fallback_for(file);
                let _ = process_file_phase1_fallback(sess, &fallback, skip_inner, inline_threshold, now);
                failed.push((file.path.clone(), e.message));
                false
            },
        };
        proof {
            let no = outcomes.push(ok);
            assert forall|n: int| 0 <= n <= i implies indexed_paths(files, no, n) == indexed_paths(files, outcomes, n)
                && logged_as(files, no, n, true) == logged_as(files, outcomes, n, true)
                && logged_as(files, no, n, false) == logged_as(files, outcomes, n, false) by {
                lemma_prefix_outcomes(files, outcomes, no, n);
            }
            outcomes = no;
        }
        i = i + 1;
    }
    let r = RequestSummary { indexed, failed, added, modified, steps: Vec::new() };
    assert(summary_of(request.files@, outcomes, r));
    r
}

/// The error and scan bookkeeping of a request: the client's failures
/// first, then those of `failed`, and the indexed paths cleared.
fn request_bookkeeping(sess: &mut Session, request: &BulkRequest, indexed: &Vec<String>, failed: &Vec<(String, String)>, now: i64) -> (r: Result<(), DbError>)
    ensures
        grew_within(old(sess).history(), final(sess).history(), crate::db::bookkeeping_sqls()),
        indexed@.len() == 0 && failed@.len() == 0 && request.indexing_failures@.len() == 0
            && request.scan_timestamp is None ==> r is Ok,
        r is Ok ==> exists|t: Seq<Stmt>| {
            &&& final(sess).history() == old(sess).history() + t
            &&& #[trigger] cleanup_history(crate::wrap::views(indexed@),
                rename_views(request.indexing_failures@) + rename_views(failed@), now, request.scan_timestamp, t)
        },
        r is Ok ==> cleanup_done(crate::wrap::views(indexed@),
            rename_views(request.indexing_failures@) + rename_views(failed@), now, request.scan_timestamp),
{
    let mut all_failures: Vec<(String, String)> = Vec::new();
    let ghost given = rename_views(request.indexing_failures@);
    let mut j: usize = 0;
    while j < request.indexing_failures.len()
        invariant
            j <= request.indexing_failures@.len(),
            given == rename_views(request.indexing_failures@),
            rename_views(all_failures@) == given.subrange(0, j as int),
        decreases request.indexing_failures@.len() - j,
    {
        let a = request.indexing_failures[j].0.clone();
        let b = request.indexing_failures[j].1.clone();
        assert(given[j as int] == (a@, b@));
        let ghost before = all_failures@;
        all_failures.push((a, b));
        assert(rename_views(all_failures@) =~= rename_views(before).push(given[j as int]));
        assert(given.subrange(0, j + 1) =~= given.subrange(0, j as int).push(given[j as int]));
        j = j + 1;
    }
    assert(given.subrange(0, given.len() as int) =~= given);
    let ghost fv = rename_views(failed@);
    let mut j: usize = 0;
    while j < failed.len()
        invariant
            j <= failed@.len(),
            fv == rename_views(failed@),
            rename_views(all_failures@) == given + fv.subrange(0, j as int),
        decreases failed@.len() - j,
    {
        let a = failed[j].0.clone();
        let b = failed[j].1.clone();
        assert(fv[j as int] == (a@, b@));
        let ghost before = all_failures@;
        all_failures.push((a, b));
        assert(rename_views(all_failures@) =~= rename_views(before).push(fv[j as int]));
        assert(given + fv.subrange(0, j + 1) =~= (given + fv.subrange(0, j as int)).push(fv[j as int]));
        j = j + 1;
    }
    assert(fv.subrange(0, fv.len() as int) =~= fv);
    do_cleanup_writes_in(sess, indexed, &all_failures, now, request.scan_timestamp)
}

/// What the steps done so far of a request have written (see
/// `process_request_phase1`).
pub open spec fn steps_written(request: BulkRequest, inline_threshold: u64, now: i64, s: RequestSummary) -> bool {
    let done = s.steps@;
    &&& done.contains(RequestStep::Deletes) ==> forall|i: int| 0 <= i < request.delete_paths@.len()
        ==> path_deleted(#[trigger] request.delete_paths@[i]@)
    &&& done.contains(RequestStep::Renames) ==> forall|i: int| 0 <= i < request.rename_paths@.len()
        ==> rename_done((#[trigger] request.rename_paths@[i]).0@, request.rename_paths@[i].1@)
    &&& done.contains(RequestStep::Files) ==> exists|outcomes: Seq<bool>| {
        &&& #[trigger] summary_of(request.files@, outcomes, s)
        &&& forall|k: int| 0 <= k < outcomes.len() && outcomes[k]
            ==> file_written(#[trigger] request.files@[k], false, inline_threshold, now)
    }
    &&& done.contains(RequestStep::Bookkeeping) ==> cleanup_done(crate::wrap::views(s.indexed@),
        rename_views(request.indexing_failures@) + rename_views(s.failed@), now, request.scan_timestamp)
}

/// The statements that a step of a request hands over.
pub open spec fn step_sqls(step: RequestStep) -> Set<Seq<char>> {
    match step {
        RequestStep::Deletes => crate::db::delete_sqls(),
        RequestStep::Renames => crate::db::rename_sqls(),
        RequestStep::Files => file_sqls(),
        RequestStep::Bookkeeping => crate::db::bookkeeping_sqls(),
        RequestStep::Activity => crate::db::activity_sqls(),
    }
}

/// What one step of a request handed over, from history `a` to `b`:
/// statements among its `step_sqls`; for the deletes and the renames one
/// transaction as `deletes_history` and `renames_history` give; for the
/// bookkeeping exactly the
/// `cleanup_history` of the paths to clear and the failures to record.
pub open spec fn segment_done(
    step: RequestStep, a: Seq<Stmt>, b: Seq<Stmt>, clear: Seq<Seq<char>>, failures: Seq<(Seq<char>, Seq<char>)>, now: i64,
    scan: Option<i64>,
) -> bool {
    &&& grew_within(a, b, step_sqls(step))
    &&& step == RequestStep::Deletes ==> exists|t: Seq<Stmt>| b == a + t && #[trigger] crate::db::deletes_history(t)
    &&& step == RequestStep::Renames ==> exists|t: Seq<Stmt>| b == a + t && #[trigger] crate::db::renames_history(t)
    &&& step == RequestStep::Bookkeeping ==> exists|t: Seq<Stmt>| b == a + t && #[trigger] cleanup_history(clear, failures, now, scan, t)
}

/// `after` is `before` followed by what the steps of `sm` handed over, one
/// step after the other (see `segment_done`); the bookkeeping clears the
/// indexed paths and records the client's failures, then those of `sm`.
pub open spec fn steps_in_order(before: Seq<Stmt>, after: Seq<Stmt>, request: BulkRequest, sm: RequestSummary, now: i64) -> bool {
    exists|marks: Seq<Seq<Stmt>>| {
        &&& marks.len() == sm.steps@.len() + 1
        &&& marks[0] == before
        &&& #[trigger] marks.last() == after
        &&& forall|i: int| 0 <= i < sm.steps@.len() ==> #[trigger] segment_done(sm.steps@[i], marks[i], marks[i + 1],
            crate::wrap::views(sm.indexed@), rename_views(request.indexing_failures@) + rename_views(sm.failed@), now,
            request.scan_timestamp)
    }
}

/// Applies a request to its source database (open, under the source's
/// write lock), step by step as `request_plan` orders them: deletes (with
/// their statistics), then renames, then each file (a file that fails is
/// indexed by name only, or as an archive placeholder, and its error
/// recorded), then in one transaction the error and scan bookkeeping (the
/// client's failures first), then the activity log (whose failure is not
/// an error of the request). `now` is the time of indexing. The summary
/// lists the steps carried out, which on success are the whole plan, and
/// the session's history then holds their statements one step after the
/// other (`steps_in_order`). A request with nothing to delete, rename,
/// index or record and no scan time always succeeds.
pub fn process_request_phase1(sess: &mut Session, request: &BulkRequest, inline_threshold: u64, activity_max: usize, now: i64) -> (r: Result<RequestSummary, DbError>)
    ensures
        request.delete_paths@.len() == 0 && request.rename_paths@.len() == 0 && request.files@.len() == 0
            && request.indexing_failures@.len() == 0 && request.scan_timestamp is None
            ==> (r matches Ok(s) && s.steps@ == request_plan_spec(false, false) && s.indexed@.len() == 0),
        r matches Ok(s) ==> steps_in_order(old(sess).history(), final(sess).history(), *request, s, now),
        r matches Ok(s) ==> s.steps@ == request_plan_spec(request.delete_paths@.len() > 0, request.rename_paths@.len() > 0),
        r matches Ok(s) ==> steps_written(*request, inline_threshold, now, s),
        r is Ok ==> forall|i: int| 0 <= i < request.delete_paths@.len() ==> path_deleted(#[trigger] request.delete_paths@[i]@),
        r is Ok ==> forall|i: int| 0 <= i < request.rename_paths@.len()
            ==> rename_done((#[trigger] request.rename_paths@[i]).0@, request.rename_paths@[i].1@),
        r matches Ok(s) ==> exists|outcomes: Seq<bool>| {
            &&& #[trigger] summary_of(request.files@, outcomes, s)
            &&& forall|k: int| 0 <= k < outcomes.len() && outcomes[k]
                ==> file_written(#[trigger] request.files@[k], false, inline_threshold, now)
        },
        r matches Ok(s) ==> cleanup_done(crate::wrap::views(s.indexed@),
            rename_views(request.indexing_failures@) + rename_views(s.failed@), now, request.scan_timestamp),
{
    let hd = request.delete_paths.len() > 0;
    let hr = request.rename_paths.len() > 0;
    let plan = request_plan(hd, hr);
    proof { lemma_plan_positions(hd, hr); }
    let ghost f = files_at(hd, hr);
    let mut s = RequestSummary { indexed: Vec::new(), failed: Vec::new(), added: Vec::new(), modified: Vec::new(), steps: Vec::new() };
    let ghost mut marks: Seq<Seq<Stmt>> = seq![sess.history()];
    let mut k: usize = 0;
    while k < plan.len()
        invariant
            k <= plan@.len(),
            plan@ == request_plan_spec(hd, hr),
            hd == (request.delete_paths@.len() > 0),
            hr == (request.rename_paths@.len() > 0),
            f == files_at(hd, hr),
            plan@.len() == f + 3,
            forall|i: int| 0 <= i < plan@.len() ==> (#[trigger] plan@[i] == RequestStep::Files <==> i == f),
            forall|i: int| 0 <= i < plan@.len() ==> (plan@[i] == RequestStep::Bookkeeping <==> i == f + 1),
            forall|i: int| 0 <= i < plan@.len() ==> (plan@[i] == RequestStep::Activity <==> i == f + 2),
            forall|i: int| 0 <= i < plan@.len() ==> (plan@[i] == RequestStep::Deletes <==> (hd && i == 0)),
            forall|i: int| 0 <= i < plan@.len() ==> (plan@[i] == RequestStep::Renames <==> (hr && i == f - 1)),
            s.steps@ == plan@.subrange(0, k as int),
            steps_written(*request, inline_threshold, now, s),
            marks.len() == k + 1,
            marks[0] == old(sess).history(),
            marks.last() == sess.history(),
            forall|i: int| 0 <= i < k ==> #[trigger] segment_done(plan@[i], marks[i], marks[i + 1],
                crate::wrap::views(s.indexed@), rename_views(request.indexing_failures@) + rename_views(s.failed@), now,
                request.scan_timestamp),
            request.delete_paths@.len() == 0 && request.rename_paths@.len() == 0 && request.files@.len() == 0
                && request.indexing_failures@.len() == 0 && request.scan_timestamp is None
                ==> !hd && !hr,
        decreases plan@.len() - k,
    {
        let step = plan[k];
        let ghost hstart = sess.history();
        let ghost before = s.steps@;
        let ghost s0 = s;
        let ghost mut outs: Seq<bool> = Seq::empty();
        proof {
            if before.contains(RequestStep::Files) {
                outs = choose|outcomes: Seq<bool>| {
                    &&& #[trigger] summary_of(request.files@, outcomes, s0)
                    &&& forall|k: int| 0 <= k < outcomes.len() && outcomes[k]
                        ==> file_written(#[trigger] request.files@[k], false, inline_threshold, now)
                };
            }
        }
        match step {
            RequestStep::Deletes => {
                match delete_files_phase1_in(sess, &request.delete_paths) {
                    Ok(_) => {},
                    Err(e) => { return Err(e); },
                }
            },
            RequestStep::Renames => {
                match rename_files_in(sess, &request.rename_paths) {
                    Ok(()) => {},
                    Err(e) => { return Err(e); },
                }
            },
            RequestStep::Files => {
                assert(!before.contains(RequestStep::Bookkeeping)) by {
                    if before.contains(RequestStep::Bookkeeping) {
                        let j = choose|j: int| 0 <= j < before.len() && before[j] == RequestStep::Bookkeeping;
                        assert(plan@[j] == RequestStep::Bookkeeping);
                    }
                }
                let w = write_files(sess, request, inline_threshold, now);
                s = RequestSummary { indexed: w.indexed, failed: w.failed, added: w.added, modified: w.modified, steps: s.steps };
                proof {
                    outs = choose|outcomes: Seq<bool>| {
                        &&& #[trigger] summary_of(request.files@, outcomes, w)
                        &&& forall|k: int| 0 <= k < outcomes.len() && outcomes[k]
                            ==> file_written(#[trigger] request.files@[k], false, inline_threshold, now)
                    };
                }
            },
            RequestStep::Bookkeeping => {
                assert(before[f] == RequestStep::Files);
                assert(s.failed@.len() + s.indexed@.len() == request.files@.len());
                match request_bookkeeping(sess, request, &s.indexed, &s.failed, now) {
                    Ok(()) => {},
                    Err(e) => { return Err(e); },
                }
            },
            RequestStep::Activity => {
                let deleted = logged_deletes(&request.delete_paths);
                let renamed = logged_renames(&request.rename_paths);
                let _ = log_activity_in(sess, now, &s.added, &s.modified, &deleted, &renamed, activity_max);
            },
        }
        let ghost s_mid = s;
        s.steps.push(step);
        proof {
            let ci = crate::wrap::views(s.indexed@);
            let cf = rename_views(request.indexing_failures@) + rename_views(s.failed@);
            let ci0 = crate::wrap::views(s0.indexed@);
            let cf0 = rename_views(request.indexing_failures@) + rename_views(s0.failed@);
            assert(step != RequestStep::Files ==> s.indexed == s0.indexed && s.failed == s0.failed);
            assert(grew_within(hstart, sess.history(), step_sqls(step)));
            assert(segment_done(step, hstart, sess.history(), ci, cf, now, request.scan_timestamp));
            let nm = marks.push(sess.history());
            assert forall|i: int| 0 <= i < k + 1 implies #[trigger] segment_done(plan@[i], nm[i], nm[i + 1], ci, cf, now,
                request.scan_timestamp) by {
                if i < k {
                    assert(nm[i] == marks[i] && nm[i + 1] == marks[i + 1]);
                    assert(segment_done(plan@[i], marks[i], marks[i + 1], ci0, cf0, now, request.scan_timestamp));
                    if step == RequestStep::Files {
                        assert(plan@[i] != RequestStep::Bookkeeping);
                    }
                }
            }
            marks = nm;
            assert(s.steps@ =~= plan@.subrange(0, k + 1));
            assert(s.steps@ =~= before.push(step));
            assert forall|x: RequestStep| s.steps@.contains(x) implies before.contains(x) || x == step by {
                let j = choose|j: int| 0 <= j < s.steps@.len() && s.steps@[j] == x;
                if j < before.len() { assert(before[j] == x); }
            }
            if s.steps@.contains(RequestStep::Files) {
                assert(s.indexed == s_mid.indexed && s.failed == s_mid.failed && s.added == s_mid.added && s.modified == s_mid.modified);
                if step == RequestStep::Files {
                    assert(summary_of(request.files@, outs, s));
                } else {
                    assert(before.contains(RequestStep::Files));
                    assert(s_mid.indexed == s0.indexed && s_mid.failed == s0.failed && s_mid.added == s0.added && s_mid.modified == s0.modified);
                    assert(summary_of(request.files@, outs, s));
                }
            }
        }
        k = k + 1;
    }
    proof {
        assert(plan@.subrange(0, plan@.len() as int) =~= plan@);
        assert(s.steps@[f] == RequestStep::Files);
        assert(s.steps@[f + 1] == RequestStep::Bookkeeping);
        if hd { assert(s.steps@[0] == RequestStep::Deletes); assert(s.steps@.contains(RequestStep::Deletes)); }
        if hr { assert(s.steps@[f - 1] == RequestStep::Renames); assert(s.steps@.contains(RequestStep::Renames)); }
        assert(s.steps@.contains(RequestStep::Files));
        assert(s.steps@.contains(RequestStep::Bookkeeping));
    }
    let ghost fin = choose|outcomes: Seq<bool>| {
        &&& #[trigger] summary_of(request.files@, outcomes, s)
        &&& forall|k: int| 0 <= k < outcomes.len() && outcomes[k]
            ==> file_written(#[trigger] request.files@[k], false, inline_threshold, now)
    };
    assert(steps_in_order(old(sess).history(), sess.history(), *request, s, now));
    let res: Result<RequestSummary, DbError> = Ok(s);
    assert(summary_of(request.files@, fin, res->Ok_0));
    assert(forall|k: int| 0 <= k < fin.len() && fin[k]
        ==> file_written(#[trigger] request.files@[k], false, inline_threshold, now));
    res
}

/// Outcomes that agree on the first `n` files give the same lists for them.
proof fn lemma_prefix_outcomes(files: Seq<IndexFile>, a: Seq<bool>, b: Seq<bool>, n: int)
    requires
        0 <= n <= a.len(),
        n <= b.len(),
        forall|k: int| 0 <= k < n ==> a[k] == b[k],
    ensures
        indexed_paths(files, b, n) == indexed_paths(files, a, n),
        logged_as(files, b, n, true) == logged_as(files, a, n, true),
        logged_as(files, b, n, false) == logged_as(files, a, n, false),
    decreases n,
{
    if n > 0 {
        lemma_prefix_outcomes(files, a, b, n - 1);
    }
}

// ── Archiving ────────────────────────────────────────────────────────────────

/// Counts its archived lines.
pub open spec fn archived_lines_sql() -> Seq<char> {
    "SELECT COUNT(*) FROM lines WHERE file_id = ?1 AND chunk_archive IS NOT NULL"@
}

/// Counts its inline content rows.
pub open spec fn inline_rows_sql() -> Seq<char> {
    "SELECT COUNT(*) FROM file_content WHERE file_id = ?1"@
}

/// Counts its lines.
pub open spec fn line_rows_sql() -> Seq<char> {
    "SELECT COUNT(*) FROM lines WHERE file_id = ?1"@
}

/// A count that could not be read counts as zero.
pub open spec fn count_or_zero(c: Option<i64>) -> i64 {
    match c { Some(n) => n, None => 0 }
}

/// `c` is what the count `sql` of file `id` gave: the number the database
/// answered, or none when it could not be read.
pub open spec fn count_of(sql: Seq<char>, id: i64, c: Option<i64>) -> bool {
    c matches Some(n) ==> single_answer(sql, int1(id), n)
}

/// The archiving decision for a looked-up file: its id when it is indexed,
/// none of its lines is archived, it has no inline content, and it has
/// lines (a count that could not be read counts as zero).
pub open spec fn candidate_spec(lookup: Option<i64>, archived: Option<i64>, inline: Option<i64>, lines: Option<i64>) -> Option<i64> {
    match lookup {
        Some(id) => if count_or_zero(archived) <= 0 && count_or_zero(inline) <= 0 && count_or_zero(lines) != 0 { Some(id) } else { None },
        None => None,
    }
}

/// The archiving decision (see `candidate_spec`).
pub fn candidate_decision(lookup: Option<i64>, archived: Option<i64>, inline: Option<i64>, lines: Option<i64>) -> (r: Option<i64>)
    ensures
        r == candidate_spec(lookup, archived, inline, lines),
{
    let id = match lookup {
        Some(id) => id,
        None => { return None; },
    };
    let a = match archived { Some(n) => n, None => 0 };
    let c = match inline { Some(n) => n, None => 0 };
    let l = match lines { Some(n) => n, None => 0 };
    if a > 0 || c > 0 || l == 0 { None } else { Some(id) }
}

/// The id of the file at `path` when its chunks still need writing: it is
/// indexed, none of its lines is archived yet, its content is not inline,
/// and it has lines. A lookup that fails counts as "none" (no file), a count
/// that fails as zero; the counts are read only for an indexed file.
pub fn archive_candidate(conn: &rusqlite::Connection, path: &str) -> (r: Option<i64>)
    ensures
        r matches Some(id) ==> exists|rows: Seq<Seq<SqlCell>>| #[trigger] optional_int(rows) == Some(Some(id)),
        r matches Some(id) ==> optional_answer(id_by_path_sql(), text1(path@), Some(id))
            && exists|a: Option<i64>, c: Option<i64>, l: Option<i64>| {
                &&& #[trigger] candidate_spec(Some(id), a, c, l) == Some(id)
                &&& count_of(archived_lines_sql(), id, a)
                &&& count_of(inline_rows_sql(), id, c)
                &&& count_of(line_rows_sql(), id, l)
            },
{
    let lookup = match resolve_file_id(conn, path) {
        Ok(o) => o,
        Err(_) => None,
    };
    let file_id = match lookup {
        Some(id) => id,
        None => { return None; },
    };
    let a = count_read(conn, "SELECT COUNT(*) FROM lines WHERE file_id = ?1 AND chunk_archive IS NOT NULL", file_id);
    let c = count_read(conn, "SELECT COUNT(*) FROM file_content WHERE file_id = ?1", file_id);
    let l = count_read(conn, "SELECT COUNT(*) FROM lines WHERE file_id = ?1", file_id);
    let r = candidate_decision(lookup, a, c, l);
    proof {
        if r is Some {
            assert(count_of(archived_lines_sql(), file_id, a));
            assert(count_of(inline_rows_sql(), file_id, c));
            assert(count_of(line_rows_sql(), file_id, l));
            assert(candidate_spec(Some(file_id), a, c, l) == Some(file_id));
        }
    }
    r
}

/// The queued chunk removals.
pub open spec fn pending_sql() -> Seq<char> {
    "SELECT archive_name, chunk_name FROM pending_chunk_removes"@
}

/// Empties the queue of chunk removals.
pub open spec fn pending_delete_sql() -> Seq<char> {
    "DELETE FROM pending_chunk_removes"@
}

/// `pairs` are the two text cells of each row of `cells`.
pub open spec fn text_pairs_read(cells: Seq<Seq<SqlCell>>, pairs: Seq<(Seq<char>, Seq<char>)>) -> bool {
    &&& cells.len() == pairs.len()
    &&& forall|k: int| 0 <= k < cells.len() ==> crate::db::text_of(crate::db::cell_at(#[trigger] cells[k], 0)) == Some(pairs[k].0)
        && crate::db::text_of(crate::db::cell_at(cells[k], 1)) == Some(pairs[k].1)
}

/// Takes the queued chunk removals `(archive, chunk)`: reads them all and
/// empties the queue, in one transaction.
pub fn take_pending_chunk_removes(s: &mut Session) -> (r: Result<Vec<(String, String)>, DbError>)
    ensures
        r matches Ok(v) ==> exists|cells: Seq<Seq<SqlCell>>| {
            &&& #[trigger] answered(pending_sql(), Seq::empty(), cells)
            &&& text_pairs_read(cells, rename_views(v@))
            &&& ran(pending_delete_sql(), Seq::empty())
            &&& committed()
        },
        r is Ok ==> final(s).history() == old(s).history() + seq![
            begin_stmt(), (pending_sql(), Seq::<ParamView>::empty()), (pending_delete_sql(), Seq::<ParamView>::empty()), commit_stmt(),
        ],
{
    let ghost h0 = s.history();
    match begin(s) {
        Ok(()) => {},
        Err(e) => { return Err(e); },
    }
    let none: Vec<SqlValue> = Vec::new();
    assert(param_views(none@) =~= Seq::<ParamView>::empty());
    let rows = match s.query("SELECT archive_name, chunk_name FROM pending_chunk_removes", &none) {
        Ok(rows) => rows,
        Err(e) => {
            return match finish::<()>(s, Err(e)) {
                Ok(()) => Ok(Vec::new()),
                Err(e) => Err(e),
            };
        },
    };
    let mut out: Vec<(String, String)> = Vec::new();
    let mut body: Result<(), DbError> = Ok(());
    let mut k: usize = 0;
    while k < rows.len()
        invariant_except_break
            body is Ok,
            out@.len() == k,
            forall|j: int| 0 <= j < k ==> crate::db::text_of(crate::db::cell_at(#[trigger] rows@[j]@, 0)) == Some(out@[j].0@)
                && crate::db::text_of(crate::db::cell_at(rows@[j]@, 1)) == Some(out@[j].1@),
        invariant
            k <= rows@.len(),
        ensures
            body is Ok ==> out@.len() == rows@.len() && forall|j: int| 0 <= j < rows@.len()
                ==> crate::db::text_of(crate::db::cell_at(#[trigger] rows@[j]@, 0)) == Some(out@[j].0@)
                && crate::db::text_of(crate::db::cell_at(rows@[j]@, 1)) == Some(out@[j].1@),
        decreases rows@.len() - k,
    {
        let a = match crate::db::get_text(&rows[k], 0) {
            Ok(t) => t,
            Err(e) => { body = Err(e); break; },
        };
        let b = match crate::db::get_text(&rows[k], 1) {
            Ok(t) => t,
            Err(e) => { body = Err(e); break; },
        };
        out.push((a, b));
        k = k + 1;
    }
    if body.is_ok() {
        body = run(s, "DELETE FROM pending_chunk_removes", &none);
    }
    match finish(s, body) {
        Ok(()) => {
            proof {
                let cells = row_views(rows@);
                assert(text_pairs_read(cells, rename_views(out@)));
                assert(answered(pending_sql(), Seq::empty(), cells));
                assert(s.history() =~= h0 + seq![
                    begin_stmt(), (pending_sql(), Seq::<ParamView>::empty()), (pending_delete_sql(), Seq::<ParamView>::empty()), commit_stmt(),
                ]);
            }
            Ok(out)
        },
        Err(e) => Err(e),
    }
}

/// The statement that records where a line went.
pub open spec fn line_ref_sql() -> Seq<char> {
    "UPDATE lines SET chunk_archive = ?1, chunk_name = ?2, line_offset_in_chunk = ?3 WHERE file_id = ?4 AND line_number = ?5"@
}

/// The values that record reference `u` (archive, entry, offset, line
/// number) of file `file_id`.
pub open spec fn line_ref_params(u: (Seq<char>, Seq<char>, usize, usize), file_id: i64) -> Seq<ParamView> {
    seq![
        ParamView::Text(u.0), ParamView::Text(u.1), ParamView::Integer(u.2 as i64), ParamView::Integer(file_id),
        ParamView::Integer(u.3 as i64),
    ]
}

/// The statements that record the first `n` of `refs` for file `file_id`,
/// in order.
pub open spec fn ref_stmts(refs: Seq<(Seq<char>, Seq<char>, usize, usize)>, file_id: i64, n: int) -> Seq<Stmt>
    decreases n,
{
    if n <= 0 {
        Seq::empty()
    } else {
        ref_stmts(refs, file_id, n - 1).push((line_ref_sql(), line_ref_params(refs[n - 1], file_id)))
    }
}

/// The references to record for the `i`-th archived file.
pub open spec fn archived_refs(a: Seq<(i64, Vec<LineMapping>, Vec<ChunkRef>)>, i: int) -> Seq<(Seq<char>, Seq<char>, usize, usize)> {
    line_refs_spec(a[i].1@, a[i].2@, a[i].1@.len() as int)
}

/// The statements that record the references of the first `n` archived
/// files, file by file and each file's in order.
pub open spec fn refs_history(a: Seq<(i64, Vec<LineMapping>, Vec<ChunkRef>)>, n: int) -> Seq<Stmt>
    decreases n,
{
    if n <= 0 {
        Seq::empty()
    } else {
        refs_history(a, n - 1) + ref_stmts(archived_refs(a, n - 1), a[n - 1].0, archived_refs(a, n - 1).len() as int)
    }
}

/// Records where the lines of archived files went, in one transaction:
/// for each `(file id, line mappings, stored chunks)`, the references that
/// `line_ref_updates` gives, in order. A reference that fails to record is
/// skipped.
pub fn store_line_refs(s: &mut Session, archived: &Vec<(i64, Vec<LineMapping>, Vec<ChunkRef>)>) -> (r: Result<(), DbError>)
    ensures
        archived@.len() == 0 ==> r is Ok && final(s).history() == old(s).history(),
        archived@.len() > 0 && r is Ok ==> ran("BEGIN DEFERRED"@, Seq::empty()) && committed(),
        archived@.len() > 0 && r is Ok ==> final(s).history()
            == old(s).history() + seq![begin_stmt()] + refs_history(archived@, archived@.len() as int) + seq![commit_stmt()],
{
    if archived.len() == 0 {
        return Ok(());
    }
    let ghost h0 = s.history();
    match begin(s) {
        Ok(()) => {},
        Err(e) => { return Err(e); },
    }
    let ghost h1 = s.history();
    let mut i: usize = 0;
    while i < archived.len()
        invariant
            i <= archived@.len(),
            s.history() == h1 + refs_history(archived@, i as int),
        decreases archived@.len() - i,
    {
        let (file_id, maps, refs) = (&archived[i].0, &archived[i].1, &archived[i].2);
        let updates = line_ref_updates(maps, refs);
        let ghost rv = ref_views(updates@);
        assert(rv == archived_refs(archived@, i as int));
        let ghost hi = s.history();
        let mut k: usize = 0;
        while k < updates.len()
            invariant
                k <= updates@.len(),
                rv == ref_views(updates@),
                s.history() == hi + ref_stmts(rv, *file_id, k as int),
            decreases updates@.len() - k,
        {
            let u = &updates[k];
            let mut p: Vec<SqlValue> = Vec::new();
            p.push(SqlValue::Text(u.0.clone()));
            p.push(SqlValue::Text(u.1.clone()));
            p.push(SqlValue::Integer(u.2 as i64));
            p.push(SqlValue::Integer(*file_id));
            p.push(SqlValue::Integer(u.3 as i64));
            assert(param_views(p@) =~= line_ref_params(rv[k as int], *file_id));
            let _ = s.execute(
                "UPDATE lines SET chunk_archive = ?1, chunk_name = ?2, line_offset_in_chunk = ?3 WHERE file_id = ?4 AND line_number = ?5",
                &p,
            );
            assert(s.history() =~= hi + ref_stmts(rv, *file_id, k + 1));
            k = k + 1;
        }
        assert(s.history() =~= h1 + refs_history(archived@, i + 1));
        i = i + 1;
    }
    let r = s.execute_batch("COMMIT");
    assert(s.history() =~= h0 + seq![begin_stmt()] + refs_history(archived@, archived@.len() as int) + seq![commit_stmt()]);
    r
}

} // verus!
