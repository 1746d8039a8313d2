//! The per-source database: the statements that read and write a source's
//! index, and what the library makes of the rows they return.
//!
//! What a statement returns depends on what the database holds, so the
//! functions that run statements promise what holds whatever came back:
//! their results are those that the row readers below give on some rows.
use vstd::prelude::*;
use crate::search::{SqlValue, ParamView, param_views};
use crate::index::opt_view;
use crate::session::{Session, Stmt, grew_within};
use crate::tree::{list_dir_bounds, list_dir_entries, list_dir_spec, entry_views, DirEntry, FileRow};

verus! {

broadcast use crate::session::group_grew;

// ── The SQLite binding ───────────────────────────────────────────────────────

/// A database connection of the SQLite binding.
#[verifier::external_type_specification]
#[verifier::external_body]
pub struct ExConnection(rusqlite::Connection);

/// An error of the SQLite binding.
#[verifier::external_type_specification]
#[verifier::external_body]
pub struct ExSqlError(rusqlite::Error);

/// A value of the SQLite binding.
#[verifier::external_type_specification]
#[verifier::external_body]
pub struct ExSqlValue(rusqlite::types::Value);

/// One cell of a result row. A floating-point cell is kept without its
/// value.
pub enum SqlCell {
    Null,
    Integer(i64),
    Real,
    Text(String),
    Blob(Vec<u8>),
}

/// An error of a database operation.
#[derive(Debug)]
pub struct DbError {
    pub message: String,
    /// The database was busy or locked by another connection.
    pub locked: bool,
}

/// `rusqlite::types::Value` for a bound parameter: each variant to the
/// variant of the same name. Nothing is stated of the result, which Verus
/// cannot look into.
#[verifier::external_body]
fn bind_value(v: &SqlValue) -> rusqlite::types::Value {
    match v {
        SqlValue::Integer(i) => rusqlite::types::Value::Integer(*i),
        SqlValue::Text(s) => rusqlite::types::Value::Text(s.clone()),
        SqlValue::Null => rusqlite::types::Value::Null,
    }
}

/// A cell from a `rusqlite::types::Value`: each variant to the variant of
/// the same name, a real number without its value. Nothing is stated of the
/// result, since the argument is opaque.
#[verifier::external_body]
fn cell_of(v: rusqlite::types::Value) -> SqlCell {
    match v {
        rusqlite::types::Value::Null => SqlCell::Null,
        rusqlite::types::Value::Integer(i) => SqlCell::Integer(i),
        rusqlite::types::Value::Real(_) => SqlCell::Real,
        rusqlite::types::Value::Text(s) => SqlCell::Text(s),
        rusqlite::types::Value::Blob(b) => SqlCell::Blob(b),
    }
}

/// The statement `sql` with `params` ran to completion on the database.
/// Nothing else is known of it: its effect depends on what the database
/// held. It ties a success to the statement that was handed over.
pub uninterp spec fn ran(sql: Seq<char>, params: Seq<ParamView>) -> bool;

/// `rows` are an answer the database gave to the query `sql` with
/// `params`. Nothing else is known of it: which rows come back depends on
/// what the database holds, so two runs may differ. It ties the rows to
/// the statement that was handed over.
pub uninterp spec fn answered(sql: Seq<char>, params: Seq<ParamView>, rows: Seq<Seq<SqlCell>>) -> bool;

/// A scalar SQL function named `name` was registered on a connection.
/// Nothing else is known of it; it ties a success to the name handed over.
pub uninterp spec fn registered(name: Seq<char>) -> bool;

/// `Connection::execute`: runs one statement with positional parameters
/// and returns the number of rows changed. Trusted: a success means the
/// statement ran (`ran`); the effect depends on the database and is not
/// stated.
#[verifier::external_body]
fn sql_execute(conn: &rusqlite::Connection, sql: &str, params: &Vec<SqlValue>) -> (r: Result<usize, rusqlite::Error>)
    ensures
        r is Ok ==> ran(sql@, param_views(params@)),
{
    let values: Vec<rusqlite::types::Value> = params.iter().map(bind_value).collect();
    conn.execute(sql, rusqlite::params_from_iter(values))
}

/// `Connection::prepare`, then `Statement::query`: every row that `sql`
/// returns for `params`, each with one cell per result column. Trusted:
/// the rows are the database's answer to that statement (`answered`);
/// which rows they are depends on the database and is not stated.
#[verifier::external_body]
fn sql_query(conn: &rusqlite::Connection, sql: &str, params: &Vec<SqlValue>) -> (r: Result<Vec<Vec<SqlCell>>, rusqlite::Error>)
    ensures
        r matches Ok(rows) ==> answered(sql@, param_views(params@), row_views(rows@)),
{
    let mut stmt = conn.prepare(sql)?;
    let n = stmt.column_count();
    let values: Vec<rusqlite::types::Value> = params.iter().map(bind_value).collect();
    let mut rows = stmt.query(rusqlite::params_from_iter(values))?;
    let mut out = Vec::new();
    while let Some(row) = rows.next()? {
        let mut cells = Vec::new();
        for i in 0..n {
            cells.push(cell_of(row.get::<_, rusqlite::types::Value>(i)?));
        }
        out.push(cells);
    }
    Ok(out)
}

/// `Connection::execute_batch`: runs the statements of `sql` in turn.
/// Trusted: a success means they ran (`ran`, with no parameters); the
/// effect depends on the database and is not stated.
#[verifier::external_body]
fn sql_execute_batch(conn: &rusqlite::Connection, sql: &str) -> (r: Result<(), rusqlite::Error>)
    ensures
        r is Ok ==> ran(sql@, Seq::empty()),
{
    conn.execute_batch(sql)
}

/// The message of a binding error (its `Display`); what it says is not
/// stated.
#[verifier::external_body]
fn sql_error_text(e: &rusqlite::Error) -> String {
    e.to_string()
}

/// Whether a binding error is SQLite's `SQLITE_BUSY` or `SQLITE_LOCKED`
/// (`Error::sqlite_error_code`). Which errors those are is SQLite's; not
/// stated.
#[verifier::external_body]
fn sql_error_is_busy(e: &rusqlite::Error) -> bool {
    matches!(e.sqlite_error_code(), Some(rusqlite::ErrorCode::DatabaseBusy) | Some(rusqlite::ErrorCode::DatabaseLocked))
}

/// Whether an operation failed because the database was busy or locked by
/// another connection, so that it may succeed when tried again.
pub fn is_db_locked(e: &DbError) -> (b: bool)
    ensures
        b == e.locked,
{
    e.locked
}

/// The library's error for a binding error.
fn db_error(e: rusqlite::Error) -> (r: DbError) {
    DbError { message: sql_error_text(&e), locked: sql_error_is_busy(&e) }
}

/// Runs one statement; the number of rows changed.
pub(crate) fn execute(conn: &rusqlite::Connection, sql: &str, params: &Vec<SqlValue>) -> (r: Result<usize, DbError>)
    ensures
        r is Ok ==> ran(sql@, param_views(params@)),
{
    match sql_execute(conn, sql, params) {
        Ok(n) => Ok(n),
        Err(e) => Err(db_error(e)),
    }
}

/// Runs a query; its rows.
pub(crate) fn query(conn: &rusqlite::Connection, sql: &str, params: &Vec<SqlValue>) -> (r: Result<Vec<Vec<SqlCell>>, DbError>)
    ensures
        r matches Ok(rows) ==> answered(sql@, param_views(params@), row_views(rows@)),
{
    match sql_query(conn, sql, params) {
        Ok(rows) => Ok(rows),
        Err(e) => Err(db_error(e)),
    }
}

/// Runs a batch of statements.
pub(crate) fn execute_batch(conn: &rusqlite::Connection, sql: &str) -> (r: Result<(), DbError>)
    ensures
        r is Ok ==> ran(sql@, Seq::empty()),
{
    match sql_execute_batch(conn, sql) {
        Ok(()) => Ok(()),
        Err(e) => Err(db_error(e)),
    }
}

// ── Reading cells ────────────────────────────────────────────────────────────

/// The `i`-th cell of a row, if the row has one.
pub open spec fn cell_at(row: Seq<SqlCell>, i: int) -> Option<SqlCell> {
    if 0 <= i < row.len() { Some(row[i]) } else { None }
}

/// A text cell as characters; none for any other cell.
pub open spec fn text_of(c: Option<SqlCell>) -> Option<Seq<char>> {
    match c {
        Some(SqlCell::Text(s)) => Some(s@),
        _ => None,
    }
}

/// An integer cell; none for any other cell.
pub open spec fn int_of(c: Option<SqlCell>) -> Option<i64> {
    match c {
        Some(SqlCell::Integer(i)) => Some(i),
        _ => None,
    }
}

/// A nullable integer cell: `Some(None)` for NULL, `Some(Some(i))` for an
/// integer, none for any other cell.
pub open spec fn opt_int_of(c: Option<SqlCell>) -> Option<Option<i64>> {
    match c {
        Some(SqlCell::Null) => Some(None),
        Some(SqlCell::Integer(i)) => Some(Some(i)),
        _ => None,
    }
}

/// A nullable text cell, as `opt_int_of` for integers.
pub open spec fn opt_text_of(c: Option<SqlCell>) -> Option<Option<Seq<char>>> {
    match c {
        Some(SqlCell::Null) => Some(None),
        Some(SqlCell::Text(s)) => Some(Some(s@)),
        _ => None,
    }
}

/// The message of a cell that does not hold the type asked for.
fn column_type_error(i: usize) -> (r: DbError)
    ensures
        r.message@ == "invalid column type at index "@ + crate::text::decimal_digits(i as nat),
        !r.locked,
{
    let mut m = "invalid column type at index ".to_owned();
    crate::text::push_decimal(&mut m, i as u64);
    DbError { message: m, locked: false }
}

/// Cell `i` of `row` as text.
pub fn get_text(row: &Vec<SqlCell>, i: usize) -> (r: Result<String, DbError>)
    ensures
        match r {
            Ok(s) => text_of(cell_at(row@, i as int)) == Some(s@),
            Err(_) => text_of(cell_at(row@, i as int)) is None,
        },
{
    if i < row.len() {
        match &row[i] {
            SqlCell::Text(s) => return Ok(s.clone()),
            _ => {},
        }
    }
    Err(column_type_error(i))
}

/// Cell `i` of `row` as an integer.
pub fn get_int(row: &Vec<SqlCell>, i: usize) -> (r: Result<i64, DbError>)
    ensures
        match r {
            Ok(n) => int_of(cell_at(row@, i as int)) == Some(n),
            Err(_) => int_of(cell_at(row@, i as int)) is None,
        },
{
    if i < row.len() {
        match &row[i] {
            SqlCell::Integer(n) => return Ok(*n),
            _ => {},
        }
    }
    Err(column_type_error(i))
}

/// Cell `i` of `row` as a nullable integer.
pub fn get_opt_int(row: &Vec<SqlCell>, i: usize) -> (r: Result<Option<i64>, DbError>)
    ensures
        match r {
            Ok(n) => opt_int_of(cell_at(row@, i as int)) == Some(n),
            Err(_) => opt_int_of(cell_at(row@, i as int)) is None,
        },
{
    if i < row.len() {
        match &row[i] {
            SqlCell::Integer(n) => return Ok(Some(*n)),
            SqlCell::Null => return Ok(None),
            _ => {},
        }
    }
    Err(column_type_error(i))
}

/// Cell `i` of `row` as nullable text.
pub fn get_opt_text(row: &Vec<SqlCell>, i: usize) -> (r: Result<Option<String>, DbError>)
    ensures
        match r {
            Ok(Some(s)) => opt_text_of(cell_at(row@, i as int)) == Some(Some(s@)),
            Ok(None) => opt_text_of(cell_at(row@, i as int)) == Some(None::<Seq<char>>),
            Err(_) => opt_text_of(cell_at(row@, i as int)) is None,
        },
{
    if i < row.len() {
        match &row[i] {
            SqlCell::Text(s) => return Ok(Some(s.clone())),
            SqlCell::Null => return Ok(None),
            _ => {},
        }
    }
    Err(column_type_error(i))
}

/// The rows as seen by the library: each row's cells.
pub open spec fn row_views(rows: Seq<Vec<SqlCell>>) -> Seq<Seq<SqlCell>> {
    rows.map_values(|r: Vec<SqlCell>| r@)
}

// ── Directory listing ────────────────────────────────────────────────────────

/// A `files` row `(path, kind, size, mtime)` read from its cells.
pub open spec fn file_row_of(row: Seq<SqlCell>) -> Option<(Seq<char>, Seq<char>, Option<i64>, i64)> {
    match (text_of(cell_at(row, 0)), text_of(cell_at(row, 1)), opt_int_of(cell_at(row, 2)), int_of(cell_at(row, 3))) {
        (Some(p), Some(k), Some(s), Some(m)) => Some((p, k, s, m)),
        _ => None,
    }
}

/// The model of a `files` row of the listing.
pub open spec fn file_row_view(r: FileRow) -> (Seq<char>, Seq<char>, Option<i64>, i64) {
    (r.0@, r.1@, r.2, r.3)
}

/// The listing rows read from result rows: every row must read, else none.
pub fn read_file_rows(rows: &Vec<Vec<SqlCell>>) -> (r: Result<Vec<FileRow>, DbError>)
    ensures
        match r {
            Ok(v) => v@.len() == rows@.len()
                && forall|k: int| 0 <= k < v@.len() ==> file_row_of(rows@[k]@) == Some(file_row_view(#[trigger] v@[k])),
            Err(_) => exists|k: int| 0 <= k < rows@.len() && file_row_of(#[trigger] rows@[k]@) is None,
        },
{
    let mut out: Vec<FileRow> = Vec::new();
    let mut k: usize = 0;
    while k < rows.len()
        invariant
            k <= rows@.len(),
            out@.len() == k,
            forall|j: int| 0 <= j < k ==> file_row_of(rows@[j]@) == Some(file_row_view(#[trigger] out@[j])),
        decreases rows@.len() - k,
    {
        let row = &rows[k];
        let path = match get_text(row, 0) { Ok(x) => x, Err(e) => { return Err(e); } };
        let kind = match get_text(row, 1) { Ok(x) => x, Err(e) => { return Err(e); } };
        let size = match get_opt_int(row, 2) { Ok(x) => x, Err(e) => { return Err(e); } };
        let mtime = match get_int(row, 3) { Ok(x) => x, Err(e) => { return Err(e); } };
        out.push((path, kind, size, mtime));
        k = k + 1;
    }
    Ok(out)
}

/// The key range queried for a listing under a non-empty `prefix` (see
/// `list_dir_bounds`).
pub open spec fn list_dir_range(prefix: Seq<char>) -> (Seq<char>, Seq<char>) {
    if prefix.len() == 0 { (Seq::empty(), seq!['\u{FFFF}']) } else { (prefix, crate::paths::prefix_bump_spec(prefix)) }
}

/// The parameters of the listing query: the two ends of the range.
pub open spec fn list_dir_params(prefix: Seq<char>) -> Seq<crate::search::ParamView> {
    seq![crate::search::ParamView::Text(list_dir_range(prefix).0), crate::search::ParamView::Text(list_dir_range(prefix).1)]
}

/// The listing query.
pub open spec fn list_dir_sql() -> Seq<char> {
    "SELECT path, kind, size, mtime FROM files WHERE path >= ?1 AND path < ?2 ORDER BY path"@
}

/// The listing of the root: every row, in path order.
pub open spec fn list_root_sql() -> Seq<char> {
    "SELECT path, kind, size, mtime FROM files ORDER BY path"@
}

/// The statement of a listing: every row at the root, else the rows in
/// the key range of the prefix.
pub open spec fn list_dir_statement(prefix: Seq<char>) -> (Seq<char>, Seq<crate::search::ParamView>) {
    if prefix.len() == 0 { (list_root_sql(), Seq::empty()) } else { (list_dir_sql(), list_dir_params(prefix)) }
}

/// The immediate children of `prefix` (see `list_dir_spec`), from the
/// `files` rows that the listing statement (`list_dir_statement`) was
/// answered: all of them at the root, else those in the key range of the
/// prefix, in path order.

/// `rows` are the listing rows read one by one from `cells`.
pub open spec fn file_rows_read(cells: Seq<Seq<SqlCell>>, rows: Seq<FileRow>) -> bool {
    &&& rows.len() == cells.len()
    &&& forall|k: int| 0 <= k < rows.len() ==> file_row_of(cells[k]) == Some(file_row_view(#[trigger] rows[k]))
}

pub fn list_dir(conn: &rusqlite::Connection, prefix: &str) -> (r: Result<Vec<DirEntry>, DbError>)
    ensures
        r matches Ok(v) ==> exists|cells: Seq<Seq<SqlCell>>, rows: Seq<FileRow>|
            #[trigger] answered(list_dir_statement(prefix@).0, list_dir_statement(prefix@).1, cells)
            && #[trigger] file_rows_read(cells, rows)
            && entry_views(v@) == list_dir_spec(prefix@, rows),
{
    let root = crate::text::to_chars(prefix).len() == 0;
    let mut params: Vec<SqlValue> = Vec::new();
    let sql = if root {
        "SELECT path, kind, size, mtime FROM files ORDER BY path"
    } else {
        let (low, high) = list_dir_bounds(prefix);
        assert(low@ =~= list_dir_range(prefix@).0);
        assert(high@ =~= list_dir_range(prefix@).1);
        params.push(SqlValue::Text(low));
        params.push(SqlValue::Text(high));
        "SELECT path, kind, size, mtime FROM files WHERE path >= ?1 AND path < ?2 ORDER BY path"
    };
    assert(sql@ == list_dir_statement(prefix@).0);
    assert(param_views(params@) =~= list_dir_statement(prefix@).1);
    let rows = match query(conn, sql, &params) {
        Ok(rows) => rows,
        Err(e) => { return Err(e); },
    };
    let file_rows = match read_file_rows(&rows) {
        Ok(v) => v,
        Err(e) => { return Err(e); },
    };
    let entries = list_dir_entries(prefix, &file_rows);
    proof {
        assert(file_rows_read(row_views(rows@), file_rows@));
        assert(answered(list_dir_statement(prefix@).0, list_dir_statement(prefix@).1, row_views(rows@)));
    }
    let res: Result<Vec<DirEntry>, DbError> = Ok(entries);
    assert(answered(list_dir_statement(prefix@).0, list_dir_statement(prefix@).1, row_views(rows@))
        && file_rows_read(row_views(rows@), file_rows@)
        && entry_views(res->Ok_0@) == list_dir_spec(prefix@, file_rows@));
    res
}

// ── Single values ────────────────────────────────────────────────────────────

/// The message of a query that was expected to return a row.
fn no_rows_error() -> (r: DbError)
    ensures
        r.message@ == "Query returned no rows"@,
        !r.locked,
{
    DbError { message: "Query returned no rows".to_owned(), locked: false }
}

/// The integer in the first cell of the first row, as `query_row` reads it.
pub open spec fn single_int(rows: Seq<Seq<SqlCell>>) -> Option<i64> {
    if rows.len() == 0 { None } else { int_of(cell_at(rows[0], 0)) }
}

/// Reads the integer in the first cell of the first row.
pub fn read_single_int(rows: &Vec<Vec<SqlCell>>) -> (r: Result<i64, DbError>)
    ensures
        match r {
            Ok(n) => single_int(row_views(rows@)) == Some(n),
            Err(_) => single_int(row_views(rows@)) is None,
        },
{
    if rows.len() == 0 {
        return Err(no_rows_error());
    }
    assert(row_views(rows@)[0] == rows@[0]@);
    get_int(&rows[0], 0)
}

/// Runs a query that returns one integer.
fn query_int(conn: &rusqlite::Connection, sql: &str, params: &Vec<SqlValue>) -> (r: Result<i64, DbError>)
    ensures
        r matches Ok(n) ==> exists|rows: Seq<Seq<SqlCell>>| #[trigger] single_int(rows) == Some(n),
        r matches Ok(n) ==> single_answer(sql@, param_views(params@), n),
{
    let rows = match query(conn, sql, params) {
        Ok(rows) => rows,
        Err(e) => { return Err(e); },
    };
    let r = read_single_int(&rows);
    proof {
        if r is Ok {
            assert(answered(sql@, param_views(params@), row_views(rows@)));
        }
    }
    r
}

/// A count read from the first cell of the first row, taken as `usize`
/// (`as usize`).
pub open spec fn count_reading(rows: Seq<Seq<SqlCell>>) -> Option<usize> {
    match single_int(rows) {
        Some(x) => Some(x as usize),
        None => None,
    }
}

/// Runs a query that returns one count.
fn query_count(conn: &rusqlite::Connection, sql: &str) -> (r: Result<usize, DbError>)
    ensures
        r matches Ok(n) ==> exists|rows: Seq<Seq<SqlCell>>| #[trigger] answered(sql@, Seq::empty(), rows) && count_reading(rows) == Some(n),
{
    let none: Vec<SqlValue> = Vec::new();
    let rows = match query(conn, sql, &none) {
        Ok(rows) => rows,
        Err(e) => { return Err(e); },
    };
    assert(param_views(none@) =~= Seq::<ParamView>::empty());
    match read_single_int(&rows) {
        Ok(x) => {
            assert(count_reading(row_views(rows@)) == Some(x as usize));
            assert(answered(sql@, Seq::empty(), row_views(rows@)));
            Ok(x as usize)
        },
        Err(e) => Err(e),
    }
}

/// The number of files in the source.
pub fn count_files(conn: &rusqlite::Connection) -> (r: Result<usize, DbError>)
    ensures
        r matches Ok(n) ==> exists|rows: Seq<Seq<SqlCell>>| #[trigger] answered("SELECT COUNT(*) FROM files"@, Seq::empty(), rows)
            && count_reading(rows) == Some(n),
{
    query_count(conn, "SELECT COUNT(*) FROM files")
}

/// The number of recorded indexing errors.
pub fn get_indexing_error_count(conn: &rusqlite::Connection) -> (r: Result<usize, DbError>)
    ensures
        r matches Ok(n) ==> exists|rows: Seq<Seq<SqlCell>>| #[trigger] answered("SELECT COUNT(*) FROM indexing_errors"@, Seq::empty(), rows)
            && count_reading(rows) == Some(n),
{
    query_count(conn, "SELECT COUNT(*) FROM indexing_errors")
}

/// The number of rows of the full-text index (stale ones included).
pub fn get_fts_row_count(conn: &rusqlite::Connection) -> (r: Result<i64, DbError>)
    ensures
        r matches Ok(n) ==> exists|rows: Seq<Seq<SqlCell>>| #[trigger] single_int(rows) == Some(n),
        r matches Ok(n) ==> single_answer("SELECT COUNT(*) FROM lines_fts"@, Seq::empty(), n),
{
    let none: Vec<SqlValue> = Vec::new();
    assert(param_views(none@) =~= Seq::<ParamView>::empty());
    query_int(conn, "SELECT COUNT(*) FROM lines_fts", &none)
}

/// The text in the first cell of the first row, if there is a row: what
/// `query_row(..).optional()` reads for a text column.
pub open spec fn optional_text(rows: Seq<Seq<SqlCell>>) -> Option<Option<Seq<char>>> {
    if rows.len() == 0 {
        Some(None)
    } else {
        match text_of(cell_at(rows[0], 0)) {
            Some(t) => Some(Some(t)),
            None => None,
        }
    }
}

/// Reads the text of the first row's first cell; none when there is no row.
pub fn read_optional_text(rows: &Vec<Vec<SqlCell>>) -> (r: Result<Option<String>, DbError>)
    ensures
        match r {
            Ok(Some(t)) => optional_text(row_views(rows@)) == Some(Some(t@)),
            Ok(None) => optional_text(row_views(rows@)) == Some(None::<Seq<char>>),
            Err(_) => optional_text(row_views(rows@)) is None,
        },
{
    if rows.len() == 0 {
        return Ok(None);
    }
    assert(row_views(rows@)[0] == rows@[0]@);
    match get_text(&rows[0], 0) {
        Ok(t) => Ok(Some(t)),
        Err(e) => Err(e),
    }
}

/// Runs a query whose first row, if any, holds one text.
fn query_optional_text(conn: &rusqlite::Connection, sql: &str, params: &Vec<SqlValue>) -> (r: Result<Option<String>, DbError>)
    ensures
        r matches Ok(v) ==> exists|rows: Seq<Seq<SqlCell>>| #[trigger] answered(sql@, param_views(params@), rows)
            && optional_text(rows) == Some(opt_view(v)),
{
    let rows = match query(conn, sql, params) {
        Ok(rows) => rows,
        Err(e) => { return Err(e); },
    };
    let r = read_optional_text(&rows);
    proof {
        if r is Ok {
            assert(answered(sql@, param_views(params@), row_views(rows@)));
        }
    }
    r
}

/// The recorded error of one path, if any.
pub fn get_indexing_error(conn: &rusqlite::Connection, path: &str) -> (r: Result<Option<String>, DbError>)
    ensures
        r matches Ok(v) ==> exists|rows: Seq<Seq<SqlCell>>| #[trigger] answered("SELECT error FROM indexing_errors WHERE path = ?1"@, text1(path@), rows)
            && optional_text(rows) == Some(opt_view(v)),
{
    let mut params: Vec<SqlValue> = Vec::new();
    params.push(SqlValue::Text(path.to_owned()));
    assert(param_views(params@) =~= text1(path@));
    query_optional_text(conn, "SELECT error FROM indexing_errors WHERE path = ?1", &params)
}

/// The stored scan time read from the rows: the text parsed as an `i64`,
/// none when there is no row or the text does not parse.
pub open spec fn last_scan_reading(rows: Seq<Seq<SqlCell>>) -> Option<Option<i64>> {
    match optional_text(rows) {
        Some(Some(s)) => Some(crate::text::parse_i64_spec(s)),
        Some(None) => Some(None),
        None => None,
    }
}

/// The time of the last scan: the stored text parsed as an `i64`, none when
/// nothing is stored or the text does not parse.
pub fn get_last_scan(conn: &rusqlite::Connection) -> (r: Result<Option<i64>, DbError>)
    ensures
        r matches Ok(v) ==> exists|rows: Seq<Seq<SqlCell>>| #[trigger] answered("SELECT value FROM meta WHERE key = 'last_scan'"@, Seq::empty(), rows)
            && last_scan_reading(rows) == Some(v),
{
    let none: Vec<SqlValue> = Vec::new();
    let rows = match query(conn, "SELECT value FROM meta WHERE key = 'last_scan'", &none) {
        Ok(rows) => rows,
        Err(e) => { return Err(e); },
    };
    assert(param_views(none@) =~= Seq::<ParamView>::empty());
    assert(answered("SELECT value FROM meta WHERE key = 'last_scan'"@, Seq::empty(), row_views(rows@)));
    match read_optional_text(&rows) {
        Ok(Some(s)) => {
            let v = crate::text::to_chars(s.as_str());
            assert(v@.subrange(0, v@.len() as int) == s@);
            let t = crate::text::parse_i64(&v, 0, v.len());
            assert(last_scan_reading(row_views(rows@)) == Some(t));
            Ok(t)
        },
        Ok(None) => {
            assert(last_scan_reading(row_views(rows@)) == Some(None::<i64>));
            Ok(None)
        },
        Err(e) => Err(e),
    }
}

/// Stores the time of the last scan, in decimal.
pub fn update_last_scan(conn: &rusqlite::Connection, timestamp: i64) -> (r: Result<(), DbError>)
    ensures
        r is Ok ==> ran(last_scan_sql(), text1(crate::text::int_digits(timestamp as int))),
{
    let mut s = Session::new(conn);
    update_last_scan_in(&mut s, timestamp)
}

pub(crate) fn update_last_scan_in(s: &mut Session, timestamp: i64) -> (r: Result<(), DbError>)
    ensures
        r is Ok ==> ran(last_scan_sql(), text1(crate::text::int_digits(timestamp as int))),
        grew_within(old(s).history(), final(s).history(), bookkeeping_sqls()),
        final(s).history() == old(s).history().push((last_scan_sql(), text1(crate::text::int_digits(timestamp as int)))),
{
    let mut v = String::new();
    crate::text::push_i64(&mut v, timestamp);
    let mut params: Vec<SqlValue> = Vec::new();
    params.push(SqlValue::Text(v));
    let r = match s.execute(
        "INSERT INTO meta (key, value) VALUES ('last_scan', ?1) ON CONFLICT(key) DO UPDATE SET value = excluded.value",
        &params,
    ) {
        Ok(_) => Ok(()),
        Err(e) => Err(e),
    };
    assert(param_views(params@) =~= text1(crate::text::int_digits(timestamp as int)));
    r
}

/// Stores the time of the last scan.
pub open spec fn last_scan_sql() -> Seq<char> {
    "INSERT INTO meta (key, value) VALUES ('last_scan', ?1) ON CONFLICT(key) DO UPDATE SET value = excluded.value"@
}

// ── Row lists ────────────────────────────────────────────────────────────────

/// `vals` are the rows read one by one with `f`, each taken by `view`.
pub open spec fn reads_as<T, V>(rows: Seq<Seq<SqlCell>>, vals: Seq<T>, f: spec_fn(Seq<SqlCell>) -> Option<V>, view: spec_fn(T) -> V) -> bool {
    &&& rows.len() == vals.len()
    &&& forall|k: int| 0 <= k < rows.len() ==> f(#[trigger] rows[k]) == Some(view(vals[k]))
}

/// The value limit of a query: `limit as i64`.
pub open spec fn limit_param(limit: usize) -> i64 {
    limit as i64
}

/// `(path, time)` from a row of two cells.
pub open spec fn path_time_of(row: Seq<SqlCell>) -> Option<(Seq<char>, i64)> {
    match (text_of(cell_at(row, 0)), int_of(cell_at(row, 1))) {
        (Some(p), Some(t)) => Some((p, t)),
        _ => None,
    }
}

/// The model of a `(path, time)` pair.
pub open spec fn path_time_view(x: (String, i64)) -> (Seq<char>, i64) {
    (x.0@, x.1)
}

/// `vals` are the `(path, time)` rows read one by one.
pub open spec fn path_times_read(rows: Seq<Seq<SqlCell>>, vals: Seq<(String, i64)>) -> bool {
    reads_as(rows, vals, |row: Seq<SqlCell>| path_time_of(row), |x: (String, i64)| path_time_view(x))
}

/// Reads `(path, time)` rows.
pub fn read_path_times(rows: &Vec<Vec<SqlCell>>) -> (r: Result<Vec<(String, i64)>, DbError>)
    ensures
        match r {
            Ok(v) => path_times_read(row_views(rows@), v@),
            Err(_) => exists|k: int| 0 <= k < rows@.len() && path_time_of(#[trigger] rows@[k]@) is None,
        },
{
    let mut out: Vec<(String, i64)> = Vec::new();
    let mut k: usize = 0;
    while k < rows.len()
        invariant
            k <= rows@.len(),
            out@.len() == k,
            forall|j: int| 0 <= j < k ==> path_time_of(rows@[j]@) == Some(path_time_view(#[trigger] out@[j])),
        decreases rows@.len() - k,
    {
        let row = &rows[k];
        let p = match get_text(row, 0) { Ok(x) => x, Err(e) => { return Err(e); } };
        let t = match get_int(row, 1) { Ok(x) => x, Err(e) => { return Err(e); } };
        out.push((p, t));
        k = k + 1;
    }
    assert(path_times_read(row_views(rows@), out@));
    Ok(out)
}

/// The `limit` most recent outer files (no `::` in the path), newest first:
/// by modification time when `sort_by_mtime`, else by indexing time (the
/// modification time when never indexed). `(path, time)` pairs.
pub fn recent_files(conn: &rusqlite::Connection, limit: usize, sort_by_mtime: bool) -> (r: Result<Vec<(String, i64)>, DbError>)
    ensures
        r matches Ok(v) ==> exists|rows: Seq<Seq<SqlCell>>|
            #[trigger] path_times_read(rows, v@) && answered(recent_files_sql(sort_by_mtime), int1(limit as i64), rows),
{
    let sql = if sort_by_mtime {
        "SELECT path, mtime FROM files WHERE path NOT LIKE '%::%' ORDER BY mtime DESC LIMIT ?1"
    } else {
        "SELECT path, COALESCE(indexed_at, mtime) FROM files WHERE path NOT LIKE '%::%' ORDER BY COALESCE(indexed_at, mtime) DESC LIMIT ?1"
    };
    let mut params: Vec<SqlValue> = Vec::new();
    params.push(SqlValue::Integer(limit as i64));
    let rows = match query(conn, sql, &params) {
        Ok(rows) => rows,
        Err(e) => { return Err(e); },
    };
    assert(param_views(params@) =~= int1(limit as i64));
    assert(sql@ == recent_files_sql(sort_by_mtime));
    match read_path_times(&rows) {
        Ok(v) => {
            assert(path_times_read(row_views(rows@), v@));
            assert(answered(recent_files_sql(sort_by_mtime), int1(limit as i64), row_views(rows@)));
            Ok(v)
        },
        Err(e) => Err(e),
    }
}

/// The query of the most recent outer files, by modification time or by
/// indexing time.
pub open spec fn recent_files_sql(sort_by_mtime: bool) -> Seq<char> {
    if sort_by_mtime {
        "SELECT path, mtime FROM files WHERE path NOT LIKE '%::%' ORDER BY mtime DESC LIMIT ?1"@
    } else {
        "SELECT path, COALESCE(indexed_at, mtime) FROM files WHERE path NOT LIKE '%::%' ORDER BY COALESCE(indexed_at, mtime) DESC LIMIT ?1"@
    }
}

/// The query of the latest activity entries.
pub open spec fn recent_activity_sql() -> Seq<char> {
    "SELECT action, path, new_path, occurred_at FROM activity_log ORDER BY occurred_at DESC LIMIT ?1"@
}

/// Two integer values.
pub open spec fn int2(a: i64, b: i64) -> Seq<ParamView> {
    seq![ParamView::Integer(a), ParamView::Integer(b)]
}

/// One activity-log entry: `(action, path, new path, time)`.
pub type ActivityRow = (String, String, Option<String>, i64);

/// An activity entry from its cells.
pub open spec fn activity_of(row: Seq<SqlCell>) -> Option<(Seq<char>, Seq<char>, Option<Seq<char>>, i64)> {
    match (text_of(cell_at(row, 0)), text_of(cell_at(row, 1)), opt_text_of(cell_at(row, 2)), int_of(cell_at(row, 3))) {
        (Some(a), Some(p), Some(n), Some(t)) => Some((a, p, n, t)),
        _ => None,
    }
}

/// The model of an activity entry.
pub open spec fn activity_view(x: ActivityRow) -> (Seq<char>, Seq<char>, Option<Seq<char>>, i64) {
    (x.0@, x.1@, opt_view(x.2), x.3)
}

/// `vals` are the activity rows read one by one.
pub open spec fn activity_read(rows: Seq<Seq<SqlCell>>, vals: Seq<ActivityRow>) -> bool {
    reads_as(rows, vals, |row: Seq<SqlCell>| activity_of(row), |x: ActivityRow| activity_view(x))
}

/// Reads activity entries.
pub fn read_activity(rows: &Vec<Vec<SqlCell>>) -> (r: Result<Vec<ActivityRow>, DbError>)
    ensures
        match r {
            Ok(v) => activity_read(row_views(rows@), v@),
            Err(_) => exists|k: int| 0 <= k < rows@.len() && activity_of(#[trigger] rows@[k]@) is None,
        },
{
    let mut out: Vec<ActivityRow> = Vec::new();
    let mut k: usize = 0;
    while k < rows.len()
        invariant
            k <= rows@.len(),
            out@.len() == k,
            forall|j: int| 0 <= j < k ==> activity_of(rows@[j]@) == Some(activity_view(#[trigger] out@[j])),
        decreases rows@.len() - k,
    {
        let row = &rows[k];
        let a = match get_text(row, 0) { Ok(x) => x, Err(e) => { return Err(e); } };
        let p = match get_text(row, 1) { Ok(x) => x, Err(e) => { return Err(e); } };
        let n = match get_opt_text(row, 2) { Ok(x) => x, Err(e) => { return Err(e); } };
        let t = match get_int(row, 3) { Ok(x) => x, Err(e) => { return Err(e); } };
        out.push((a, p, n, t));
        k = k + 1;
    }
    assert(activity_read(row_views(rows@), out@));
    Ok(out)
}

/// The `limit` most recent activity-log entries, newest first.
pub fn recent_activity(conn: &rusqlite::Connection, limit: usize) -> (r: Result<Vec<ActivityRow>, DbError>)
    ensures
        r matches Ok(v) ==> exists|rows: Seq<Seq<SqlCell>>|
            #[trigger] activity_read(rows, v@)
                && answered(recent_activity_sql(), int1(limit as i64), rows),
{
    let mut params: Vec<SqlValue> = Vec::new();
    params.push(SqlValue::Integer(limit as i64));
    let rows = match query(
        conn,
        "SELECT action, path, new_path, occurred_at FROM activity_log ORDER BY occurred_at DESC LIMIT ?1",
        &params,
    ) {
        Ok(rows) => rows,
        Err(e) => { return Err(e); },
    };
    assert(param_views(params@) =~= int1(limit as i64));
    match read_activity(&rows) {
        Ok(v) => {
            assert(activity_read(row_views(rows@), v@));
            Ok(v)
        },
        Err(e) => Err(e),
    }
}

/// A file known to the index.
pub struct FileRecord {
    pub path: String,
    pub mtime: i64,
    pub kind: String,
    pub scanner_version: u32,
    pub indexed_at: Option<i64>,
}

/// The model of a file record.
pub open spec fn record_view(f: FileRecord) -> (Seq<char>, i64, Seq<char>, u32, Option<i64>) {
    (f.path@, f.mtime, f.kind@, f.scanner_version, f.indexed_at)
}

/// A `u32` cell as `get::<u32>(..).unwrap_or(0)` reads it: the integer when
/// it fits, else 0.
pub open spec fn u32_or_zero(c: Option<SqlCell>) -> u32 {
    match int_of(c) {
        Some(i) => if 0 <= i <= u32::MAX { i as u32 } else { 0 },
        None => 0,
    }
}

/// A full file record from `(path, mtime, kind, scanner_version, indexed_at)`.
pub open spec fn record_of(row: Seq<SqlCell>) -> Option<(Seq<char>, i64, Seq<char>, u32, Option<i64>)> {
    match (text_of(cell_at(row, 0)), int_of(cell_at(row, 1)), text_of(cell_at(row, 2)), opt_int_of(cell_at(row, 4))) {
        (Some(p), Some(m), Some(k), Some(ix)) => Some((p, m, k, u32_or_zero(cell_at(row, 3)), ix)),
        _ => None,
    }
}

/// A short file record from `(path, kind)`: time and version 0, indexed at 0.
pub open spec fn short_record_of(row: Seq<SqlCell>) -> Option<(Seq<char>, i64, Seq<char>, u32, Option<i64>)> {
    match (text_of(cell_at(row, 0)), text_of(cell_at(row, 1))) {
        (Some(p), Some(k)) => Some((p, 0, k, 0, Some(0))),
        _ => None,
    }
}

/// `vals` are the full file records read one by one.
pub open spec fn records_read(rows: Seq<Seq<SqlCell>>, vals: Seq<FileRecord>) -> bool {
    reads_as(rows, vals, |row: Seq<SqlCell>| record_of(row), |x: FileRecord| record_view(x))
}

/// `vals` are the short file records read one by one.
pub open spec fn short_records_read(rows: Seq<Seq<SqlCell>>, vals: Seq<FileRecord>) -> bool {
    reads_as(rows, vals, |row: Seq<SqlCell>| short_record_of(row), |x: FileRecord| record_view(x))
}

/// `get::<u32>(i).unwrap_or(0)`.
fn get_u32_or_zero(row: &Vec<SqlCell>, i: usize) -> (r: u32)
    ensures
        r == u32_or_zero(cell_at(row@, i as int)),
{
    match get_int(row, i) {
        Ok(n) => if 0 <= n && n <= u32::MAX as i64 { n as u32 } else { 0 },
        Err(_) => 0,
    }
}

/// Reads file records, full ones or short ones.
pub fn read_records(rows: &Vec<Vec<SqlCell>>, short: bool) -> (r: Result<Vec<FileRecord>, DbError>)
    ensures
        match r {
            Ok(v) => if short { short_records_read(row_views(rows@), v@) } else { records_read(row_views(rows@), v@) },
            Err(_) => exists|k: int| 0 <= k < rows@.len()
                && (if short { short_record_of(#[trigger] rows@[k]@) } else { record_of(rows@[k]@) }) is None,
        },
{
    let mut out: Vec<FileRecord> = Vec::new();
    let mut k: usize = 0;
    while k < rows.len()
        invariant
            k <= rows@.len(),
            out@.len() == k,
            forall|j: int| 0 <= j < k ==> (if short { short_record_of(rows@[j]@) } else { record_of(rows@[j]@) })
                == Some(record_view(#[trigger] out@[j])),
        decreases rows@.len() - k,
    {
        let row = &rows[k];
        let rec = if short {
            let p = match get_text(row, 0) { Ok(x) => x, Err(e) => { return Err(e); } };
            let kind = match get_text(row, 1) { Ok(x) => x, Err(e) => { return Err(e); } };
            FileRecord { path: p, mtime: 0, kind, scanner_version: 0, indexed_at: Some(0) }
        } else {
            let p = match get_text(row, 0) { Ok(x) => x, Err(e) => { return Err(e); } };
            let m = match get_int(row, 1) { Ok(x) => x, Err(e) => { return Err(e); } };
            let kind = match get_text(row, 2) { Ok(x) => x, Err(e) => { return Err(e); } };
            let v = get_u32_or_zero(row, 3);
            let ix = match get_opt_int(row, 4) { Ok(x) => x, Err(e) => { return Err(e); } };
            FileRecord { path: p, mtime: m, kind, scanner_version: v, indexed_at: ix }
        };
        out.push(rec);
        k = k + 1;
    }
    if short {
        assert(short_records_read(row_views(rows@), out@));
    } else {
        assert(records_read(row_views(rows@), out@));
    }
    Ok(out)
}

/// Every file of the source, in path order.
pub fn list_files(conn: &rusqlite::Connection) -> (r: Result<Vec<FileRecord>, DbError>)
    ensures
        r matches Ok(v) ==> exists|rows: Seq<Seq<SqlCell>>|
            #[trigger] records_read(rows, v@)
                && answered("SELECT path, mtime, kind, scanner_version, indexed_at FROM files ORDER BY path"@, Seq::empty(), rows),
{
    let none: Vec<SqlValue> = Vec::new();
    let rows = match query(
        conn,
        "SELECT path, mtime, kind, scanner_version, indexed_at FROM files ORDER BY path",
        &none,
    ) {
        Ok(rows) => rows,
        Err(e) => { return Err(e); },
    };
    assert(param_views(none@) =~= Seq::<ParamView>::empty());
    match read_records(&rows, false) {
        Ok(v) => {
            assert(records_read(row_views(rows@), v@));
            Ok(v)
        },
        Err(e) => Err(e),
    }
}

/// The `LIKE` pattern of paths that contain `q`: `%q%`.
pub open spec fn contains_pattern(q: Seq<char>) -> Seq<char> {
    seq!['%'] + q + seq!['%']
}

/// The quick-open query: the most recently indexed files, or the files
/// whose path contains the query ignoring case.
pub open spec fn search_files_sql(q: Seq<char>) -> Seq<char> {
    if q.len() == 0 {
        "SELECT path, kind FROM files ORDER BY indexed_at DESC LIMIT ?"@
    } else {
        "SELECT path, kind FROM files WHERE lower(path) LIKE lower(?) ORDER BY path LIMIT ?"@
    }
}

/// The values of the quick-open query: the pattern when there is a query,
/// then the limit.
pub open spec fn search_files_params(q: Seq<char>, limit: usize) -> Seq<ParamView> {
    if q.len() == 0 {
        int1(limit as i64)
    } else {
        seq![ParamView::Text(contains_pattern(q)), ParamView::Integer(limit as i64)]
    }
}

/// Files for the quick-open palette: with no query the `limit` most
/// recently indexed files, else up to `limit` files whose path contains the
/// query ignoring case, in path order. Short records.
pub fn search_files(conn: &rusqlite::Connection, q: &str, limit: usize) -> (r: Result<Vec<FileRecord>, DbError>)
    ensures
        r matches Ok(v) ==> exists|rows: Seq<Seq<SqlCell>>|
            #[trigger] short_records_read(rows, v@) && answered(search_files_sql(q@), search_files_params(q@, limit), rows),
{
    let mut params: Vec<SqlValue> = Vec::new();
    let sql = if crate::text::to_chars(q).len() == 0 {
        "SELECT path, kind FROM files ORDER BY indexed_at DESC LIMIT ?"
    } else {
        let mut pattern = String::new();
        crate::text::push_char(&mut pattern, '%');
        crate::text::push_str(&mut pattern, q);
        crate::text::push_char(&mut pattern, '%');
        assert(pattern@ =~= contains_pattern(q@));
        params.push(SqlValue::Text(pattern));
        "SELECT path, kind FROM files WHERE lower(path) LIKE lower(?) ORDER BY path LIMIT ?"
    };
    params.push(SqlValue::Integer(limit as i64));
    let rows = match query(conn, sql, &params) {
        Ok(rows) => rows,
        Err(e) => { return Err(e); },
    };
    assert(param_views(params@) =~= search_files_params(q@, limit));
    assert(sql@ == search_files_sql(q@));
    assert(answered(search_files_sql(q@), search_files_params(q@, limit), row_views(rows@)));
    match read_records(&rows, true) {
        Ok(v) => {
            assert(short_records_read(row_views(rows@), v@));
            Ok(v)
        },
        Err(e) => Err(e),
    }
}

// ── Statistics ───────────────────────────────────────────────────────────────

/// A per-kind row `(kind, count, size)` from its cells.
pub open spec fn kind_stat_of(row: Seq<SqlCell>) -> Option<(Seq<char>, i64, i64)> {
    match (text_of(cell_at(row, 0)), int_of(cell_at(row, 1)), int_of(cell_at(row, 2))) {
        (Some(k), Some(c), Some(z)) => Some((k, c, z)),
        _ => None,
    }
}

/// The model of a per-kind row.
pub open spec fn kind_stat_view(x: (String, i64, i64)) -> (Seq<char>, i64, i64) {
    (x.0@, x.1, x.2)
}

/// `vals` are the per-kind rows read one by one.
pub open spec fn kind_stats_read(rows: Seq<Seq<SqlCell>>, vals: Seq<(String, i64, i64)>) -> bool {
    reads_as(rows, vals, |row: Seq<SqlCell>| kind_stat_of(row), |x: (String, i64, i64)| kind_stat_view(x))
}

/// The per-kind counts of the files.
pub open spec fn kind_stats_sql() -> Seq<char> {
    "SELECT kind, COUNT(*), COALESCE(SUM(size), 0), AVG(CAST(extract_ms AS REAL)) FROM files GROUP BY kind"@
}

/// Reads per-kind rows.
pub fn read_kind_stats(rows: &Vec<Vec<SqlCell>>) -> (r: Result<Vec<(String, i64, i64)>, DbError>)
    ensures
        match r {
            Ok(v) => kind_stats_read(row_views(rows@), v@),
            Err(_) => exists|k: int| 0 <= k < rows@.len() && kind_stat_of(#[trigger] rows@[k]@) is None,
        },
{
    let mut out: Vec<(String, i64, i64)> = Vec::new();
    let mut k: usize = 0;
    while k < rows.len()
        invariant
            k <= rows@.len(),
            out@.len() == k,
            forall|j: int| 0 <= j < k ==> kind_stat_of(rows@[j]@) == Some(kind_stat_view(#[trigger] out@[j])),
        decreases rows@.len() - k,
    {
        let row = &rows[k];
        let kind = match get_text(row, 0) { Ok(x) => x, Err(e) => { return Err(e); } };
        let c = match get_int(row, 1) { Ok(x) => x, Err(e) => { return Err(e); } };
        let z = match get_int(row, 2) { Ok(x) => x, Err(e) => { return Err(e); } };
        out.push((kind, c, z));
        k = k + 1;
    }
    assert(kind_stats_read(row_views(rows@), out@));
    Ok(out)
}

/// Totals of per-kind rows: the file count (each count taken `as usize`)
/// and the byte total, both wrapping as release builds do, and each kind's
/// `(count, size)`, a later row of a kind replacing an earlier one.
pub open spec fn stats_totals(st: Seq<(Seq<char>, i64, i64)>) -> (usize, i64, Map<Seq<char>, (int, int)>)
    decreases st.len(),
{
    if st.len() == 0 {
        (0, 0, Map::empty())
    } else {
        let (f, z, m) = stats_totals(st.drop_last());
        let (k, c, s) = st.last();
        (f.wrapping_add(c as usize), z.wrapping_add(s), m.insert(k, ((c as usize) as int, s as int)))
    }
}

/// The models of per-kind rows.
pub open spec fn kind_stat_views(v: Seq<(String, i64, i64)>) -> Seq<(Seq<char>, i64, i64)> {
    v.map_values(|x: (String, i64, i64)| kind_stat_view(x))
}

/// Totals over per-kind rows (see `stats_totals`); each kind listed once.
pub fn sum_kind_stats(rows: &Vec<(String, i64, i64)>) -> (r: (usize, i64, Vec<(String, crate::stats::KindCount)>))
    ensures
        crate::stats::kinds_distinct(r.2@),
        (r.0, r.1, crate::stats::kind_map(r.2@)) == stats_totals(kind_stat_views(rows@)),
{
    let mut files: usize = 0;
    let mut size: i64 = 0;
    let mut by_kind: Vec<(String, crate::stats::KindCount)> = Vec::new();
    let mut i: usize = 0;
    while i < rows.len()
        invariant
            i <= rows@.len(),
            crate::stats::kinds_distinct(by_kind@),
            (files, size, crate::stats::kind_map(by_kind@)) == stats_totals(kind_stat_views(rows@.subrange(0, i as int))),
        decreases rows@.len() - i,
    {
        let (kind, c, z) = &rows[i];
        proof {
            let pre = kind_stat_views(rows@.subrange(0, i + 1));
            assert(pre.drop_last() =~= kind_stat_views(rows@.subrange(0, i as int)));
            assert(pre.last() == kind_stat_view(rows@[i as int]));
        }
        files = files.wrapping_add(*c as usize);
        size = size.wrapping_add(*z);
        crate::stats::set_kind(&mut by_kind, kind.clone(), crate::stats::KindCount { count: *c as usize, size: *z });
        i = i + 1;
    }
    assert(rows@.subrange(0, rows@.len() as int) =~= rows@);
    (files, size, by_kind)
}

/// The file and byte totals of the source and the count and size of each
/// kind (the mean extraction time, a floating-point value, is not kept).
pub fn get_stats(conn: &rusqlite::Connection) -> (r: Result<(usize, i64, Vec<(String, crate::stats::KindCount)>), DbError>)
    ensures
        r matches Ok((f, z, v)) ==> crate::stats::kinds_distinct(v@)
            && exists|st: Seq<(Seq<char>, i64, i64)>| #[trigger] stats_totals(st) == (f, z, crate::stats::kind_map(v@)),
        r matches Ok((f, z, v)) ==> exists|cells: Seq<Seq<SqlCell>>, raw: Seq<(String, i64, i64)>| {
            &&& #[trigger] answered(kind_stats_sql(), Seq::empty(), cells)
            &&& #[trigger] kind_stats_read(cells, raw)
            &&& stats_totals(kind_stat_views(raw)) == (f, z, crate::stats::kind_map(v@))
        },
{
    let none: Vec<SqlValue> = Vec::new();
    let rows = match query(
        conn,
        "SELECT kind, COUNT(*), COALESCE(SUM(size), 0), AVG(CAST(extract_ms AS REAL)) FROM files GROUP BY kind",
        &none,
    ) {
        Ok(rows) => rows,
        Err(e) => { return Err(e); },
    };
    assert(param_views(none@) =~= Seq::<ParamView>::empty());
    let st = match read_kind_stats(&rows) {
        Ok(v) => v,
        Err(e) => { return Err(e); },
    };
    let r = sum_kind_stats(&st);
    assert(stats_totals(kind_stat_views(st@)) == (r.0, r.1, crate::stats::kind_map(r.2@)));
    assert(answered(kind_stats_sql(), Seq::empty(), row_views(rows@)));
    assert(kind_stats_read(row_views(rows@), st@));
    Ok(r)
}

/// The file count and byte total of one extension.
pub struct ExtStat {
    pub ext: String,
    pub count: usize,
    pub size: i64,
}

/// An extension row `(ext, count, size)`, the count taken `as usize`.
pub open spec fn ext_stat_of(row: Seq<SqlCell>) -> Option<(Seq<char>, usize, i64)> {
    match (text_of(cell_at(row, 0)), int_of(cell_at(row, 1)), int_of(cell_at(row, 2))) {
        (Some(e), Some(c), Some(z)) => Some((e, c as usize, z)),
        _ => None,
    }
}

/// The model of an extension statistic.
pub open spec fn ext_stat_view(x: ExtStat) -> (Seq<char>, usize, i64) {
    (x.ext@, x.count, x.size)
}

/// `vals` are the extension rows read one by one.
pub open spec fn ext_stats_read(rows: Seq<Seq<SqlCell>>, vals: Seq<ExtStat>) -> bool {
    reads_as(rows, vals, |row: Seq<SqlCell>| ext_stat_of(row), |x: ExtStat| ext_stat_view(x))
}

/// Reads extension rows.
pub fn read_ext_stats(rows: &Vec<Vec<SqlCell>>) -> (r: Result<Vec<ExtStat>, DbError>)
    ensures
        match r {
            Ok(v) => ext_stats_read(row_views(rows@), v@),
            Err(_) => exists|k: int| 0 <= k < rows@.len() && ext_stat_of(#[trigger] rows@[k]@) is None,
        },
{
    let mut out: Vec<ExtStat> = Vec::new();
    let mut k: usize = 0;
    while k < rows.len()
        invariant
            k <= rows@.len(),
            out@.len() == k,
            forall|j: int| 0 <= j < k ==> ext_stat_of(rows@[j]@) == Some(ext_stat_view(#[trigger] out@[j])),
        decreases rows@.len() - k,
    {
        let row = &rows[k];
        let e = match get_text(row, 0) { Ok(x) => x, Err(e) => { return Err(e); } };
        let c = match get_int(row, 1) { Ok(x) => x, Err(e) => { return Err(e); } };
        let z = match get_int(row, 2) { Ok(x) => x, Err(e) => { return Err(e); } };
        out.push(ExtStat { ext: e, count: c as usize, size: z });
        k = k + 1;
    }
    assert(ext_stats_read(row_views(rows@), out@));
    Ok(out)
}

/// The query of the file counts by extension.
pub open spec fn ext_stats_sql() -> Seq<char> {
    "SELECT file_ext(file_basename(path)) AS ext, COUNT(*) AS cnt, COALESCE(SUM(size), 0) AS total_size FROM files WHERE path NOT LIKE '%::%' AND file_ext(file_basename(path)) != '' GROUP BY ext ORDER BY cnt DESC LIMIT 100"@
}

/// File counts by extension of the outer files that have one, most
/// frequent first, at most 100 rows (names and extensions come from the
/// `file_basename` and `file_ext` functions of `register_scalar_functions`).
pub fn get_stats_by_ext(conn: &rusqlite::Connection) -> (r: Result<Vec<ExtStat>, DbError>)
    ensures
        r matches Ok(v) ==> exists|rows: Seq<Seq<SqlCell>>| #[trigger] ext_stats_read(rows, v@)
            && answered(ext_stats_sql(), Seq::empty(), rows),
{
    let none: Vec<SqlValue> = Vec::new();
    let rows = match query(
        conn,
        "SELECT file_ext(file_basename(path)) AS ext, COUNT(*) AS cnt, COALESCE(SUM(size), 0) AS total_size FROM files WHERE path NOT LIKE '%::%' AND file_ext(file_basename(path)) != '' GROUP BY ext ORDER BY cnt DESC LIMIT 100",
        &none,
    ) {
        Ok(rows) => rows,
        Err(e) => { return Err(e); },
    };
    assert(param_views(none@) =~= Seq::<ParamView>::empty());
    assert(answered(ext_stats_sql(), Seq::empty(), row_views(rows@)));
    match read_ext_stats(&rows) {
        Ok(v) => {
            assert(ext_stats_read(row_views(rows@), v@));
            Ok(v)
        },
        Err(e) => Err(e),
    }
}

/// One point of the scan history.
pub struct ScanHistoryPoint {
    pub scanned_at: i64,
    pub total_files: usize,
    pub total_size: i64,
}

/// A history row `(scanned_at, total_files, total_size)`, the count taken
/// `as usize`.
pub open spec fn history_point_of(row: Seq<SqlCell>) -> Option<(i64, usize, i64)> {
    match (int_of(cell_at(row, 0)), int_of(cell_at(row, 1)), int_of(cell_at(row, 2))) {
        (Some(t), Some(c), Some(z)) => Some((t, c as usize, z)),
        _ => None,
    }
}

/// The model of a history point.
pub open spec fn history_view(x: ScanHistoryPoint) -> (i64, usize, i64) {
    (x.scanned_at, x.total_files, x.total_size)
}

/// `vals` are the history rows read one by one.
pub open spec fn history_read(rows: Seq<Seq<SqlCell>>, vals: Seq<ScanHistoryPoint>) -> bool {
    reads_as(rows, vals, |row: Seq<SqlCell>| history_point_of(row), |x: ScanHistoryPoint| history_view(x))
}

/// Reads history rows.
pub fn read_history(rows: &Vec<Vec<SqlCell>>) -> (r: Result<Vec<ScanHistoryPoint>, DbError>)
    ensures
        match r {
            Ok(v) => history_read(row_views(rows@), v@),
            Err(_) => exists|k: int| 0 <= k < rows@.len() && history_point_of(#[trigger] rows@[k]@) is None,
        },
{
    let mut out: Vec<ScanHistoryPoint> = Vec::new();
    let mut k: usize = 0;
    while k < rows.len()
        invariant
            k <= rows@.len(),
            out@.len() == k,
            forall|j: int| 0 <= j < k ==> history_point_of(rows@[j]@) == Some(history_view(#[trigger] out@[j])),
        decreases rows@.len() - k,
    {
        let row = &rows[k];
        let t = match get_int(row, 0) { Ok(x) => x, Err(e) => { return Err(e); } };
        let c = match get_int(row, 1) { Ok(x) => x, Err(e) => { return Err(e); } };
        let z = match get_int(row, 2) { Ok(x) => x, Err(e) => { return Err(e); } };
        out.push(ScanHistoryPoint { scanned_at: t, total_files: c as usize, total_size: z });
        k = k + 1;
    }
    assert(history_read(row_views(rows@), out@));
    Ok(out)
}

/// Up to `limit` points of the scan history, oldest first.
pub fn get_scan_history(conn: &rusqlite::Connection, limit: usize) -> (r: Result<Vec<ScanHistoryPoint>, DbError>)
    ensures
        r matches Ok(v) ==> exists|rows: Seq<Seq<SqlCell>>| #[trigger] history_read(rows, v@)
            && answered("SELECT scanned_at, total_files, total_size FROM scan_history ORDER BY scanned_at ASC LIMIT ?1"@, int1(limit as i64), rows),
{
    let mut params: Vec<SqlValue> = Vec::new();
    params.push(SqlValue::Integer(limit as i64));
    let rows = match query(
        conn,
        "SELECT scanned_at, total_files, total_size FROM scan_history ORDER BY scanned_at ASC LIMIT ?1",
        &params,
    ) {
        Ok(rows) => rows,
        Err(e) => { return Err(e); },
    };
    assert(param_views(params@) =~= int1(limit as i64));
    match read_history(&rows) {
        Ok(v) => {
            assert(history_read(row_views(rows@), v@));
            Ok(v)
        },
        Err(e) => Err(e),
    }
}

/// A recorded indexing error.
pub struct IndexingError {
    pub path: String,
    pub error: String,
    pub first_seen: i64,
    pub last_seen: i64,
    pub count: i64,
}

/// An error row `(path, error, first_seen, last_seen, count)`.
pub open spec fn indexing_error_of(row: Seq<SqlCell>) -> Option<(Seq<char>, Seq<char>, i64, i64, i64)> {
    match (text_of(cell_at(row, 0)), text_of(cell_at(row, 1)), int_of(cell_at(row, 2)), int_of(cell_at(row, 3)), int_of(cell_at(row, 4))) {
        (Some(p), Some(e), Some(f), Some(l), Some(c)) => Some((p, e, f, l, c)),
        _ => None,
    }
}

/// The model of an indexing error.
pub open spec fn indexing_error_view(x: IndexingError) -> (Seq<char>, Seq<char>, i64, i64, i64) {
    (x.path@, x.error@, x.first_seen, x.last_seen, x.count)
}

/// `vals` are the error rows read one by one.
pub open spec fn indexing_errors_read(rows: Seq<Seq<SqlCell>>, vals: Seq<IndexingError>) -> bool {
    reads_as(rows, vals, |row: Seq<SqlCell>| indexing_error_of(row), |x: IndexingError| indexing_error_view(x))
}

/// Reads error rows.
pub fn read_indexing_errors(rows: &Vec<Vec<SqlCell>>) -> (r: Result<Vec<IndexingError>, DbError>)
    ensures
        match r {
            Ok(v) => indexing_errors_read(row_views(rows@), v@),
            Err(_) => exists|k: int| 0 <= k < rows@.len() && indexing_error_of(#[trigger] rows@[k]@) is None,
        },
{
    let mut out: Vec<IndexingError> = Vec::new();
    let mut k: usize = 0;
    while k < rows.len()
        invariant
            k <= rows@.len(),
            out@.len() == k,
            forall|j: int| 0 <= j < k ==> indexing_error_of(rows@[j]@) == Some(indexing_error_view(#[trigger] out@[j])),
        decreases rows@.len() - k,
    {
        let row = &rows[k];
        let p = match get_text(row, 0) { Ok(x) => x, Err(e) => { return Err(e); } };
        let er = match get_text(row, 1) { Ok(x) => x, Err(e) => { return Err(e); } };
        let f = match get_int(row, 2) { Ok(x) => x, Err(e) => { return Err(e); } };
        let l = match get_int(row, 3) { Ok(x) => x, Err(e) => { return Err(e); } };
        let c = match get_int(row, 4) { Ok(x) => x, Err(e) => { return Err(e); } };
        out.push(IndexingError { path: p, error: er, first_seen: f, last_seen: l, count: c });
        k = k + 1;
    }
    assert(indexing_errors_read(row_views(rows@), out@));
    Ok(out)
}

/// A page of the recorded indexing errors, most recently seen first.
pub fn get_indexing_errors(conn: &rusqlite::Connection, limit: usize, offset: usize) -> (r: Result<Vec<IndexingError>, DbError>)
    ensures
        r matches Ok(v) ==> exists|rows: Seq<Seq<SqlCell>>| #[trigger] indexing_errors_read(rows, v@)
            && answered("SELECT path, error, first_seen, last_seen, count FROM indexing_errors ORDER BY last_seen DESC LIMIT ?1 OFFSET ?2"@,
                int2(limit as i64, offset as i64), rows),
{
    let mut params: Vec<SqlValue> = Vec::new();
    params.push(SqlValue::Integer(limit as i64));
    params.push(SqlValue::Integer(offset as i64));
    let rows = match query(
        conn,
        "SELECT path, error, first_seen, last_seen, count FROM indexing_errors ORDER BY last_seen DESC LIMIT ?1 OFFSET ?2",
        &params,
    ) {
        Ok(rows) => rows,
        Err(e) => { return Err(e); },
    };
    assert(param_views(params@) =~= int2(limit as i64, offset as i64));
    match read_indexing_errors(&rows) {
        Ok(v) => {
            assert(indexing_errors_read(row_views(rows@), v@));
            Ok(v)
        },
        Err(e) => Err(e),
    }
}

// ── Transactions ─────────────────────────────────────────────────────────────

/// The statements that open and close a transaction.
pub open spec fn tx_sqls() -> Set<Seq<char>> {
    set!["BEGIN DEFERRED"@, "COMMIT"@, "ROLLBACK"@]
}

/// The statements that the deletion step hands over.
pub open spec fn delete_sqls() -> Set<Seq<char>> {
    tx_sqls().union(set![
        "DELETE FROM files WHERE path LIKE ?1"@,
        "DELETE FROM files WHERE id = ?1"@,
        "DELETE FROM indexing_errors WHERE path = ?1"@,
        "DELETE FROM indexing_errors WHERE path LIKE ?1"@,
        singleton_duplicates_sql()
    ])
}

/// The statements that delete one path: its row and its members' rows,
/// its recorded error and its members'.
pub open spec fn delete_path_sqls() -> Set<Seq<char>> {
    set![
        "DELETE FROM files WHERE path LIKE ?1"@,
        "DELETE FROM files WHERE id = ?1"@,
        "DELETE FROM indexing_errors WHERE path = ?1"@,
        "DELETE FROM indexing_errors WHERE path LIKE ?1"@
    ]
}

/// `t` is what deleting paths handed over: one transaction in which the
/// paths are deleted first (statements among `delete_path_sqls`), then the
/// duplicate entries left unshared.
pub open spec fn deletes_history(t: Seq<Stmt>) -> bool {
    exists|mid: Seq<Stmt>| {
        &&& #[trigger] grew_within(Seq::empty(), mid, delete_path_sqls())
        &&& t == seq![("BEGIN DEFERRED"@, Seq::<ParamView>::empty())] + mid
            + seq![(singleton_duplicates_sql(), Seq::<ParamView>::empty()), ("COMMIT"@, Seq::<ParamView>::empty())]
    }
}

/// The statements that rename one path: its row, its members' rows, and
/// its name line in the full-text index.
pub open spec fn rename_path_sqls() -> Set<Seq<char>> {
    set![
        "UPDATE files SET path = ?1 WHERE path = ?2"@,
        "UPDATE files SET path = ?1 || substr(path, length(?2) + 1) WHERE path LIKE ?3"@,
        "INSERT INTO lines_fts(lines_fts, rowid, content) VALUES('delete', ?1, ?2)"@,
        "INSERT INTO lines_fts(rowid, content) VALUES(?1, ?2)"@
    ]
}

/// `t` is what renaming paths handed over: one transaction holding only
/// statements among `rename_path_sqls`.
pub open spec fn renames_history(t: Seq<Stmt>) -> bool {
    exists|mid: Seq<Stmt>| {
        &&& #[trigger] grew_within(Seq::empty(), mid, rename_path_sqls())
        &&& t == seq![("BEGIN DEFERRED"@, Seq::<ParamView>::empty())] + mid + seq![("COMMIT"@, Seq::<ParamView>::empty())]
    }
}

/// The statements that the rename step hands over.
pub open spec fn rename_sqls() -> Set<Seq<char>> {
    tx_sqls().union(set![
        "UPDATE files SET path = ?1 WHERE path = ?2"@,
        "UPDATE files SET path = ?1 || substr(path, length(?2) + 1) WHERE path LIKE ?3"@,
        "INSERT INTO lines_fts(lines_fts, rowid, content) VALUES('delete', ?1, ?2)"@,
        "INSERT INTO lines_fts(rowid, content) VALUES(?1, ?2)"@
    ])
}

/// The statements that the bookkeeping step hands over.
pub open spec fn bookkeeping_sqls() -> Set<Seq<char>> {
    tx_sqls().union(set![clear_error_sql(), record_failure_sql(), last_scan_sql(), history_sql()])
}

/// The statements that the activity log hands over.
pub open spec fn activity_sqls() -> Set<Seq<char>> {
    tx_sqls().union(set![activity_sql(), activity_prune_sql()])
}


/// Opens a deferred transaction, as `Connection::unchecked_transaction`
/// does.
pub(crate) fn begin(s: &mut Session) -> (r: Result<(), DbError>)
    ensures
        final(s).history() == old(s).history().push(("BEGIN DEFERRED"@, Seq::<ParamView>::empty())),
        grew_within(old(s).history(), final(s).history(), tx_sqls()),
        r is Ok ==> ran("BEGIN DEFERRED"@, Seq::empty()),
{
    s.execute_batch("BEGIN DEFERRED")
}

/// Commits the open transaction.
fn commit(s: &mut Session) -> (r: Result<(), DbError>)
    ensures
        final(s).history() == old(s).history().push(("COMMIT"@, Seq::<ParamView>::empty())),
        r is Ok ==> committed(),
{
    s.execute_batch("COMMIT")
}

/// Abandons the open transaction, as dropping an uncommitted one does; a
/// failure to roll back is ignored.
fn rollback(s: &mut Session)
    ensures
        final(s).history() == old(s).history().push(("ROLLBACK"@, Seq::<ParamView>::empty())),
{
    let _ = s.execute_batch("ROLLBACK");
}

/// Commits when `body` succeeded, else rolls back; the outcome of `body`
/// unless the commit fails.
pub(crate) fn finish<T>(s: &mut Session, body: Result<T, DbError>) -> (r: Result<T, DbError>)
    ensures
        body is Err ==> r == body,
        r matches Ok(v) ==> body == Ok::<T, DbError>(v),
        r is Ok ==> committed(),
        body is Ok ==> final(s).history() == old(s).history().push(("COMMIT"@, Seq::<ParamView>::empty())),
        body is Err ==> final(s).history() == old(s).history().push(("ROLLBACK"@, Seq::<ParamView>::empty())),
        grew_within(old(s).history(), final(s).history(), tx_sqls()),
{
    match body {
        Ok(v) => match commit(s) {
            Ok(()) => Ok(v),
            Err(e) => Err(e),
        },
        Err(e) => {
            rollback(s);
            Err(e)
        },
    }
}

/// Whether a path names an archive member (`::` in it).
pub open spec fn is_composite(path: Seq<char>) -> bool {
    crate::paths::contains_seq(path, crate::paths::composite_sep())
}

/// Whether a path names an archive member.
pub fn is_composite_path(path: &str) -> (b: bool)
    ensures
        b == is_composite(path@),
{
    let sep = crate::paths::sep_chars();
    let v = crate::text::to_chars(path);
    match crate::text::find_seq(&v, &sep, 0) {
        Some(_) => true,
        None => false,
    }
}

// ── Writing files ────────────────────────────────────────────────────────────

/// Removes the duplicate entries whose content hash is no longer shared.
pub fn cleanup_singleton_duplicates(conn: &rusqlite::Connection) -> (r: Result<(), DbError>)
    ensures
        r is Ok ==> ran(singleton_duplicates_sql(), Seq::empty()),
{
    let mut s = Session::new(conn);
    cleanup_singleton_duplicates_in(&mut s)
}

pub(crate) fn cleanup_singleton_duplicates_in(s: &mut Session) -> (r: Result<(), DbError>)
    ensures
        r is Ok ==> ran(singleton_duplicates_sql(), Seq::empty()),
        grew_within(old(s).history(), final(s).history(), delete_sqls()),
        final(s).history() == old(s).history().push((singleton_duplicates_sql(), Seq::<ParamView>::empty())),
{
    let p: Vec<SqlValue> = Vec::new();
    let r = match s.execute(
        "DELETE FROM duplicates WHERE file_hash IN (SELECT file_hash FROM duplicates GROUP BY file_hash HAVING COUNT(*) = 1)",
        &p,
    ) {
        Ok(_) => Ok(()),
        Err(e) => Err(e),
    };
    assert(param_views(p@) =~= Seq::<ParamView>::empty());
    r
}

/// Deletes the duplicate entries of hashes that only one file has left.
pub open spec fn singleton_duplicates_sql() -> Seq<char> {
    "DELETE FROM duplicates WHERE file_hash IN (SELECT file_hash FROM duplicates GROUP BY file_hash HAVING COUNT(*) = 1)"@
}

/// Inserts or updates the row of each file (path, time, size, kind and
/// scanner version), in one transaction.
pub fn upsert_files(conn: &rusqlite::Connection, files: &Vec<crate::index::IndexFile>) -> (r: Result<(), DbError>)
    ensures
        r is Ok ==> (forall|i: int| 0 <= i < files@.len() ==> ran(upsert_file_sql(), file_row_params(#[trigger] files@[i])))
            && committed(),
{
    let mut s = Session::new(conn);
    let s = &mut s;
    match begin(s) {
        Ok(()) => {},
        Err(e) => { return Err(e); },
    }
    let mut body: Result<(), DbError> = Ok(());
    let mut i: usize = 0;
    while i < files.len()
        invariant_except_break
            body is Ok,
            forall|j: int| 0 <= j < i ==> ran(upsert_file_sql(), file_row_params(#[trigger] files@[j])),
        invariant
            i <= files@.len(),
        ensures
            body is Ok ==> forall|j: int| 0 <= j < files@.len() ==> ran(upsert_file_sql(), file_row_params(#[trigger] files@[j])),
        decreases files@.len() - i,
    {
        let f = &files[i];
        let mut params: Vec<SqlValue> = Vec::new();
        params.push(SqlValue::Text(f.path.clone()));
        params.push(SqlValue::Integer(f.mtime));
        params.push(match f.size { Some(z) => SqlValue::Integer(z), None => SqlValue::Null });
        params.push(SqlValue::Text(f.kind.clone()));
        params.push(SqlValue::Integer(f.scanner_version as i64));
        match s.execute(
            "INSERT INTO files (path, mtime, size, kind, scanner_version) VALUES (?1, ?2, ?3, ?4, ?5) ON CONFLICT(path) DO UPDATE SET mtime = excluded.mtime, size = excluded.size, kind = excluded.kind, scanner_version = excluded.scanner_version",
            &params,
        ) {
            Ok(_) => {},
            Err(e) => {
                body = Err(e);
                break;
            },
        }
        assert(param_views(params@) =~= file_row_params(files@[i as int]));
        i = i + 1;
    }
    finish(s, body)
}

/// Inserts or updates a file's row by path.
pub open spec fn upsert_file_sql() -> Seq<char> {
    "INSERT INTO files (path, mtime, size, kind, scanner_version) VALUES (?1, ?2, ?3, ?4, ?5) ON CONFLICT(path) DO UPDATE SET mtime = excluded.mtime, size = excluded.size, kind = excluded.kind, scanner_version = excluded.scanner_version"@
}

/// The values of a file's row: path, time, size (NULL when unknown), kind
/// and scanner version.
pub open spec fn file_row_params(f: crate::index::IndexFile) -> Seq<ParamView> {
    seq![
        ParamView::Text(f.path@), ParamView::Integer(f.mtime),
        match f.size { Some(z) => ParamView::Integer(z), None => ParamView::Null },
        ParamView::Text(f.kind@), ParamView::Integer(f.scanner_version as i64),
    ]
}

/// One text parameter.
pub(crate) fn text_param(t: String) -> (r: Vec<SqlValue>)
    ensures
        r@.len() == 1,
        r@[0] == SqlValue::Text(t),
{
    let mut v: Vec<SqlValue> = Vec::new();
    v.push(SqlValue::Text(t));
    v
}

/// One integer parameter.
pub(crate) fn int_param(n: i64) -> (r: Vec<SqlValue>)
    ensures
        r@.len() == 1,
        r@[0] == SqlValue::Integer(n),
{
    let mut v: Vec<SqlValue> = Vec::new();
    v.push(SqlValue::Integer(n));
    v
}

/// The integer in the first cell of the first row, if there is a row.
pub open spec fn optional_int(rows: Seq<Seq<SqlCell>>) -> Option<Option<i64>> {
    if rows.len() == 0 {
        Some(None)
    } else {
        match int_of(cell_at(rows[0], 0)) {
            Some(i) => Some(Some(i)),
            None => None,
        }
    }
}

/// The database answered the query `sql` with `ps` by rows whose first
/// integer (none without a row) is `o`.
pub open spec fn optional_answer(sql: Seq<char>, ps: Seq<ParamView>, o: Option<i64>) -> bool {
    exists|rows: Seq<Seq<SqlCell>>| #[trigger] answered(sql, ps, rows) && optional_int(rows) == Some(o)
}

/// The database answered the query `sql` with `ps` by rows whose first row
/// holds the integer `n` first.
pub open spec fn single_answer(sql: Seq<char>, ps: Seq<ParamView>, n: i64) -> bool {
    exists|rows: Seq<Seq<SqlCell>>| #[trigger] answered(sql, ps, rows) && single_int(rows) == Some(n)
}

/// The lookup of a file's id by its path.
pub open spec fn id_by_path_sql() -> Seq<char> {
    "SELECT id FROM files WHERE path = ?1"@
}

/// One text value.
pub open spec fn text1(t: Seq<char>) -> Seq<ParamView> {
    seq![ParamView::Text(t)]
}

/// One integer value.
pub open spec fn int1(i: i64) -> Seq<ParamView> {
    seq![ParamView::Integer(i)]
}

/// The `LIKE` pattern of the members of an archive.
pub open spec fn members_of(path: Seq<char>) -> Seq<char> {
    path + seq![':', ':', '%']
}

/// The transaction was committed.
pub open spec fn committed() -> bool {
    ran("COMMIT"@, Seq::empty())
}

/// `path` was deleted: looked up, and when indexed its members and then
/// its row deleted; its recorded errors and those of its members cleared.
pub open spec fn path_deleted(path: Seq<char>) -> bool {
    &&& exists|o: Option<i64>| {
        &&& #[trigger] optional_answer(id_by_path_sql(), text1(path), o)
        &&& o matches Some(id) ==> ran("DELETE FROM files WHERE path LIKE ?1"@, text1(members_of(path)))
            && ran("DELETE FROM files WHERE id = ?1"@, int1(id))
    }
    &&& ran("DELETE FROM indexing_errors WHERE path = ?1"@, text1(path))
    &&& ran("DELETE FROM indexing_errors WHERE path LIKE ?1"@, text1(members_of(path)))
}

/// The database counted a row at `path`.
pub open spec fn path_taken(path: Seq<char>) -> bool {
    exists|n: i64| #[trigger] single_answer("SELECT COUNT(*) FROM files WHERE path = ?1"@, text1(path), n) && n > 0
}

/// An integer and a text value.
pub open spec fn int_text(i: i64, t: Seq<char>) -> Seq<ParamView> {
    seq![ParamView::Integer(i), ParamView::Text(t)]
}

/// The values of a rename of paths under an archive: the new prefix, the
/// old prefix, and the pattern of the old members.
pub open spec fn prefix_rename_params(old: Seq<char>, new: Seq<char>) -> Seq<ParamView> {
    seq![ParamView::Text(new + seq![':', ':']), ParamView::Text(old + seq![':', ':']), ParamView::Text(members_of(old))]
}

/// `old` was renamed to `new` (see `rename_one`): looked up and, when
/// indexed and `new` was not counted as taken, the row and its members
/// renamed and the name line of the full-text index replaced (under one
/// row id).
pub open spec fn rename_done(old: Seq<char>, new: Seq<char>) -> bool {
    exists|o: Option<i64>| {
        &&& #[trigger] optional_answer(id_by_path_sql(), text1(old), o)
        &&& o is Some && !path_taken(new) ==> {
            &&& ran("UPDATE files SET path = ?1 WHERE path = ?2"@, seq![ParamView::Text(new), ParamView::Text(old)])
            &&& ran("UPDATE files SET path = ?1 || substr(path, length(?2) + 1) WHERE path LIKE ?3"@, prefix_rename_params(old, new))
            &&& exists|row: i64| {
                &&& #[trigger] ran("INSERT INTO lines_fts(lines_fts, rowid, content) VALUES('delete', ?1, ?2)"@, int_text(row, old))
                &&& ran("INSERT INTO lines_fts(rowid, content) VALUES(?1, ?2)"@, int_text(row, new))
            }
        }
    }
}

/// The id of the file at `path`, if it is indexed.
pub fn resolve_file_id(conn: &rusqlite::Connection, path: &str) -> (r: Result<Option<i64>, DbError>)
    ensures
        r matches Ok(o) ==> exists|rows: Seq<Seq<SqlCell>>| #[trigger] optional_int(rows) == Some(o),
        r matches Ok(o) ==> optional_answer(id_by_path_sql(), text1(path@), o),
{
    let params = text_param(path.to_owned());
    let rows = match query(conn, "SELECT id FROM files WHERE path = ?1", &params) {
        Ok(rows) => rows,
        Err(e) => { return Err(e); },
    };
    assert(param_views(params@) =~= text1(path@));
    assert(answered(id_by_path_sql(), text1(path@), row_views(rows@)));
    if rows.len() == 0 {
        assert(optional_int(row_views(rows@)) == Some(None::<i64>));
        return Ok(None);
    }
    assert(row_views(rows@)[0] == rows@[0]@);
    match get_int(&rows[0], 0) {
        Ok(id) => {
            assert(optional_int(row_views(rows@)) == Some(Some(id)));
            Ok(Some(id))
        },
        Err(e) => Err(e),
    }
}

/// Deletes one indexed path and, first, every member of it when it is an
/// archive; nothing when the path is not indexed.
fn delete_one_path_simple(s: &mut Session, path: &str) -> (r: Result<(), DbError>)
    ensures
        r is Ok ==> exists|o: Option<i64>| {
            &&& #[trigger] optional_answer(id_by_path_sql(), text1(path@), o)
            &&& o matches Some(id) ==> ran("DELETE FROM files WHERE path LIKE ?1"@, text1(members_of(path@)))
                && ran("DELETE FROM files WHERE id = ?1"@, int1(id))
        },
        grew_within(old(s).history(), final(s).history(), delete_sqls()),
        grew_within(old(s).history(), final(s).history(), delete_path_sqls()),
{
    let id = match resolve_file_id(s.conn(), path) {
        Ok(Some(id)) => id,
        Ok(None) => {
            assert(optional_answer(id_by_path_sql(), text1(path@), None));
            return Ok(());
        },
        Err(e) => { return Err(e); },
    };
    assert(optional_answer(id_by_path_sql(), text1(path@), Some(id)));
    let p1 = text_param(crate::ingest::members_pattern(path));
    match s.execute( "DELETE FROM files WHERE path LIKE ?1", &p1) {
        Ok(_) => {},
        Err(e) => { return Err(e); },
    }
    assert(param_views(p1@) =~= text1(members_of(path@)));
    let p2 = int_param(id);
    let r = match s.execute( "DELETE FROM files WHERE id = ?1", &p2) {
        Ok(_) => Ok(()),
        Err(e) => Err(e),
    };
    assert(param_views(p2@) =~= int1(id));
    r
}

/// Clears the recorded errors of a path and of its archive members.
fn clear_errors_with_members(s: &mut Session, path: &str) -> (r: Result<(), DbError>)
    ensures
        r is Ok ==> ran("DELETE FROM indexing_errors WHERE path = ?1"@, text1(path@))
            && ran("DELETE FROM indexing_errors WHERE path LIKE ?1"@, text1(members_of(path@))),
        grew_within(old(s).history(), final(s).history(), delete_sqls()),
        grew_within(old(s).history(), final(s).history(), delete_path_sqls()),
{
    let p1 = text_param(path.to_owned());
    match s.execute( "DELETE FROM indexing_errors WHERE path = ?1", &p1) {
        Ok(_) => {},
        Err(e) => { return Err(e); },
    }
    assert(param_views(p1@) =~= text1(path@));
    let p2 = text_param(crate::ingest::members_pattern(path));
    let r = match s.execute( "DELETE FROM indexing_errors WHERE path LIKE ?1", &p2) {
        Ok(_) => Ok(()),
        Err(e) => Err(e),
    };
    assert(param_views(p2@) =~= text1(members_of(path@)));
    r
}

/// Deletes `paths` with their archive members and their recorded errors,
/// then the duplicate entries left unshared, in one transaction.
pub fn delete_files(conn: &rusqlite::Connection, paths: &Vec<String>) -> (r: Result<(), DbError>)
    ensures
        r is Ok ==> (forall|i: int| 0 <= i < paths@.len() ==> path_deleted(#[trigger] paths@[i]@))
            && ran(singleton_duplicates_sql(), Seq::empty()) && committed(),
{
    let mut s = Session::new(conn);
    let s = &mut s;
    match begin(s) {
        Ok(()) => {},
        Err(e) => { return Err(e); },
    }
    let mut body: Result<(), DbError> = Ok(());
    let mut i: usize = 0;
    while i < paths.len()
        invariant_except_break
            body is Ok,
            forall|j: int| 0 <= j < i ==> path_deleted(#[trigger] paths@[j]@),
        invariant
            i <= paths@.len(),
        ensures
            body is Ok ==> forall|j: int| 0 <= j < paths@.len() ==> path_deleted(#[trigger] paths@[j]@),
        decreases paths@.len() - i,
    {
        let p = paths[i].as_str();
        match delete_one_path_simple(s, p) {
            Ok(()) => {},
            Err(e) => { body = Err(e); break; },
        }
        match clear_errors_with_members(s, p) {
            Ok(()) => {},
            Err(e) => { body = Err(e); break; },
        }
        assert(path_deleted(paths@[i as int]@));
        i = i + 1;
    }
    if body.is_ok() {
        body = cleanup_singleton_duplicates_in(s);
    }
    finish(s, body)
}

// ── Deleting with statistics ─────────────────────────────────────────────────

/// The per-kind changes as a map; a later entry of a kind replaces an
/// earlier one.
pub open spec fn delta_map(v: Seq<(String, (i64, i64))>) -> Map<Seq<char>, (i64, i64)>
    decreases v.len(),
{
    if v.len() == 0 {
        Map::empty()
    } else {
        delta_map(v.drop_last()).insert(v.last().0@, v.last().1)
    }
}

/// One more file of `size` bytes for kind `k` (counts start from zero and
/// add up wrapping, as release builds do).
pub open spec fn bumped(m: Map<Seq<char>, (i64, i64)>, k: Seq<char>, size: i64) -> (i64, i64) {
    let o = if m.dom().contains(k) { m[k] } else { (0i64, 0i64) };
    (o.0.wrapping_add(1), o.1.wrapping_add(size))
}

/// With distinct kinds, the map holds each listed kind with its value.
proof fn lemma_delta_map_at(v: Seq<(String, (i64, i64))>, i: int)
    requires
        crate::stats::delta_kinds_distinct(v),
        0 <= i < v.len(),
    ensures
        delta_map(v).dom().contains(v[i].0@),
        delta_map(v)[v[i].0@] == v[i].1,
    decreases v.len(),
{
    if i < v.len() - 1 {
        let p = v.drop_last();
        assert(p[i] == v[i]);
        assert forall|a: int, b: int| 0 <= a < b < p.len() implies (#[trigger] p[a]).0@ != (#[trigger] p[b]).0@ by {
            assert(p[a] == v[a] && p[b] == v[b]);
        }
        lemma_delta_map_at(p, i);
        assert(v[i].0@ != v.last().0@);
    }
}

/// A kind absent from the list is absent from the map.
proof fn lemma_delta_map_absent(v: Seq<(String, (i64, i64))>, k: Seq<char>)
    requires
        forall|i: int| 0 <= i < v.len() ==> v[i].0@ != k,
    ensures
        !delta_map(v).dom().contains(k),
    decreases v.len(),
{
    if v.len() > 0 {
        lemma_delta_map_absent(v.drop_last(), k);
    }
}

/// Lists that agree in the views of their kinds and in their values have
/// the same map.
proof fn lemma_delta_map_same(a: Seq<(String, (i64, i64))>, b: Seq<(String, (i64, i64))>)
    requires
        a.len() == b.len(),
        forall|j: int| 0 <= j < a.len() ==> a[j].0@ == b[j].0@ && a[j].1 == b[j].1,
    ensures
        delta_map(a) == delta_map(b),
    decreases a.len(),
{
    if a.len() > 0 {
        lemma_delta_map_same(a.drop_last(), b.drop_last());
    }
}

/// Updating a listed kind's value updates the map.
proof fn lemma_delta_map_update(v: Seq<(String, (i64, i64))>, i: int, c: (i64, i64))
    requires
        crate::stats::delta_kinds_distinct(v),
        0 <= i < v.len(),
    ensures
        delta_map(v.update(i, (v[i].0, c))) == delta_map(v).insert(v[i].0@, c),
    decreases v.len(),
{
    let w = v.update(i, (v[i].0, c));
    if i == v.len() - 1 {
        assert(w.drop_last() =~= v.drop_last());
        assert(delta_map(w) =~= delta_map(v).insert(v[i].0@, c));
    } else {
        let p = v.drop_last();
        assert forall|a: int, b: int| 0 <= a < b < p.len() implies (#[trigger] p[a]).0@ != (#[trigger] p[b]).0@ by {
            assert(p[a] == v[a] && p[b] == v[b]);
        }
        assert(p[i] == v[i]);
        lemma_delta_map_update(p, i, c);
        assert(w.drop_last() =~= p.update(i, (p[i].0, c)));
        assert(v[i].0@ != v.last().0@);
        assert(delta_map(w) =~= delta_map(v).insert(v[i].0@, c));
    }
}

/// Counts one more file of `size` bytes for `kind`.
fn bump_kind(v: &mut Vec<(String, (i64, i64))>, kind: String, size: i64)
    requires
        crate::stats::delta_kinds_distinct(old(v)@),
    ensures
        crate::stats::delta_kinds_distinct(final(v)@),
        delta_map(final(v)@) == delta_map(old(v)@).insert(kind@, bumped(delta_map(old(v)@), kind@, size)),
{
    let mut i: usize = 0;
    while i < v.len()
        invariant
            i <= v@.len(),
            v@ == old(v)@,
            crate::stats::delta_kinds_distinct(v@),
            forall|m: int| 0 <= m < i ==> v@[m].0@ != kind@,
        decreases v@.len() - i,
    {
        if crate::paths::str_eq(v[i].0.as_str(), kind.as_str()) {
            let ghost before = v@;
            proof { lemma_delta_map_at(before, i as int); }
            let (c, z) = v[i].1;
            let nv = (c.wrapping_add(1), z.wrapping_add(size));
            let k = v[i].0.clone();
            v.set(i, (k, nv));
            proof {
                lemma_delta_map_update(before, i as int, nv);
                lemma_delta_map_same(v@, before.update(i as int, (before[i as int].0, nv)));
                assert forall|a: int, b: int| 0 <= a < b < v@.len() implies (#[trigger] v@[a]).0@ != (#[trigger] v@[b]).0@ by {
                    assert(v@[a].0@ == before[a].0@ && v@[b].0@ == before[b].0@);
                }
            }
            return;
        }
        i = i + 1;
    }
    let ghost before = v@;
    proof { lemma_delta_map_absent(before, kind@); }
    let nv = (1i64, size);
    assert(nv == bumped(delta_map(before), kind@, size)) by {
        assert((0i64).wrapping_add(1) == 1i64);
        assert((0i64).wrapping_add(size) == size);
    }
    v.push((kind, nv));
    assert(v@.drop_last() =~= before);
    assert forall|a: int, b: int| 0 <= a < b < v@.len() implies (#[trigger] v@[a]).0@ != (#[trigger] v@[b]).0@ by {
        if b < before.len() {
            assert(v@[a] == before[a] && v@[b] == before[b]);
        }
    }
}

/// What the deletion of a batch takes away from a source's statistics.
pub struct DeleteDelta {
    pub files_removed: i64,
    pub size_removed: i64,
    /// Per kind: (files, bytes); each kind once.
    pub by_kind: Vec<(String, (i64, i64))>,
}

/// The statistics removed with the files found by `lookups`, one per path
/// (`(size, kind)` of an indexed outer file, none otherwise); sums wrap as
/// release builds do.
pub open spec fn delete_delta(lookups: Seq<Option<(i64, Seq<char>)>>) -> (i64, i64, Map<Seq<char>, (i64, i64)>)
    decreases lookups.len(),
{
    if lookups.len() == 0 {
        (0, 0, Map::empty())
    } else {
        let (f, z, m) = delete_delta(lookups.drop_last());
        match lookups.last() {
            Some((size, kind)) => (f.wrapping_add(1), z.wrapping_add(size), m.insert(kind, bumped(m, kind, size))),
            None => (f, z, m),
        }
    }
}

/// The model of a `(size, kind)` lookup.
pub open spec fn lookup_view(o: Option<(i64, String)>) -> Option<(i64, Seq<char>)> {
    match o {
        Some((z, k)) => Some((z, k@)),
        None => None,
    }
}

/// A `(size, kind)` lookup read from its rows: none when there is no row.
pub open spec fn size_kind_reading(rows: Seq<Seq<SqlCell>>) -> Option<Option<(i64, Seq<char>)>> {
    if rows.len() == 0 {
        Some(None)
    } else {
        match (int_of(cell_at(rows[0], 0)), text_of(cell_at(rows[0], 1))) {
            (Some(z), Some(k)) => Some(Some((z, k))),
            _ => None,
        }
    }
}

/// The size (0 when unknown) and kind of the file at `path`, if indexed.
fn size_and_kind(conn: &rusqlite::Connection, path: &str) -> (r: Result<Option<(i64, String)>, DbError>)
    ensures
        r matches Ok(o) ==> exists|rows: Seq<Seq<SqlCell>>| #[trigger] size_kind_reading(rows) == Some(lookup_view(o)),
{
    let rows = match query(conn, "SELECT COALESCE(size,0), kind FROM files WHERE path = ?1", &text_param(path.to_owned())) {
        Ok(rows) => rows,
        Err(e) => { return Err(e); },
    };
    if rows.len() == 0 {
        assert(size_kind_reading(row_views(rows@)) == Some(None::<(i64, Seq<char>)>));
        return Ok(None);
    }
    assert(row_views(rows@)[0] == rows@[0]@);
    let z = match get_int(&rows[0], 0) { Ok(x) => x, Err(e) => { return Err(e); } };
    let k = match get_text(&rows[0], 1) { Ok(x) => x, Err(e) => { return Err(e); } };
    assert(size_kind_reading(row_views(rows@)) == Some(Some((z, k@))));
    Ok(Some((z, k)))
}

/// Deletes `paths` as `delete_files` does (errors of members matched by
/// `<path>::%`), in one transaction, and returns the statistics that the
/// deleted outer files took away: whatever the database held, the delta of
/// one lookup per path, none for archive members.
pub fn delete_files_phase1(conn: &rusqlite::Connection, paths: &Vec<String>) -> (r: Result<DeleteDelta, DbError>)
    ensures
        r matches Ok(d) ==> crate::stats::delta_kinds_distinct(d.by_kind@)
            && exists|lookups: Seq<Option<(i64, Seq<char>)>>| {
                &&& lookups.len() == paths@.len()
                &&& forall|i: int| 0 <= i < paths@.len() && is_composite(paths@[i]@) ==> (#[trigger] lookups[i]) is None
                &&& #[trigger] delete_delta(lookups) == (d.files_removed, d.size_removed, delta_map(d.by_kind@))
            },
        r is Ok ==> (forall|i: int| 0 <= i < paths@.len() ==> path_deleted(#[trigger] paths@[i]@))
            && ran(singleton_duplicates_sql(), Seq::empty()) && committed(),
{
    let mut s = Session::new(conn);
    delete_files_phase1_in(&mut s, paths)
}

pub(crate) fn delete_files_phase1_in(s: &mut Session, paths: &Vec<String>) -> (r: Result<DeleteDelta, DbError>)
    ensures
        r matches Ok(d) ==> crate::stats::delta_kinds_distinct(d.by_kind@)
            && exists|lookups: Seq<Option<(i64, Seq<char>)>>| {
                &&& lookups.len() == paths@.len()
                &&& forall|i: int| 0 <= i < paths@.len() && is_composite(paths@[i]@) ==> (#[trigger] lookups[i]) is None
                &&& #[trigger] delete_delta(lookups) == (d.files_removed, d.size_removed, delta_map(d.by_kind@))
            },
        r is Ok ==> (forall|i: int| 0 <= i < paths@.len() ==> path_deleted(#[trigger] paths@[i]@))
            && ran(singleton_duplicates_sql(), Seq::empty()) && committed(),
        grew_within(old(s).history(), final(s).history(), delete_sqls()),
        r is Ok ==> exists|t: Seq<Stmt>| final(s).history() == old(s).history() + t && #[trigger] deletes_history(t),
{
    let mut delta = DeleteDelta { files_removed: 0, size_removed: 0, by_kind: Vec::new() };
    let ghost h0 = s.history();
    match begin(s) {
        Ok(()) => {},
        Err(e) => { return Err(e); },
    }
    assert(grew_within(old(s).history(), s.history(), delete_sqls()));
    let ghost h1 = s.history();
    let ghost mut lookups: Seq<Option<(i64, Seq<char>)>> = Seq::empty();
    assert(delta_map(delta.by_kind@) =~= Map::empty());
    let mut body: Result<(), DbError> = Ok(());
    let mut i: usize = 0;
    while i < paths.len()
        invariant_except_break
            body is Ok,
            lookups.len() == i,
            forall|j: int| 0 <= j < i && is_composite(paths@[j]@) ==> (#[trigger] lookups[j]) is None,
            delete_delta(lookups) == (delta.files_removed, delta.size_removed, delta_map(delta.by_kind@)),
            forall|j: int| 0 <= j < i ==> path_deleted(#[trigger] paths@[j]@),
        invariant
            grew_within(old(s).history(), s.history(), delete_sqls()),
            grew_within(h1, s.history(), delete_path_sqls()),
            i <= paths@.len(),
            crate::stats::delta_kinds_distinct(delta.by_kind@),
        ensures
            body is Ok ==> {
                &&& forall|j: int| 0 <= j < paths@.len() ==> path_deleted(#[trigger] paths@[j]@)
                &&& lookups.len() == paths@.len()
                &&& forall|j: int| 0 <= j < paths@.len() && is_composite(paths@[j]@) ==> (#[trigger] lookups[j]) is None
                &&& delete_delta(lookups) == (delta.files_removed, delta.size_removed, delta_map(delta.by_kind@))
            },
        decreases paths@.len() - i,
    {
        let p = paths[i].as_str();
        let mut found: Option<(i64, String)> = None;
        if !is_composite_path(p) {
            match size_and_kind(s.conn(), p) {
                Ok(o) => { found = o; },
                Err(e) => { body = Err(e); break; },
            }
        }
        let ghost this: Option<(i64, Seq<char>)> = lookup_view(found);
        proof {
            let nl = lookups.push(this);
            assert(nl.drop_last() =~= lookups);
        }
        match found {
            Some((z, k)) => {
                delta.files_removed = delta.files_removed.wrapping_add(1);
                delta.size_removed = delta.size_removed.wrapping_add(z);
                bump_kind(&mut delta.by_kind, k, z);
            },
            None => {},
        }
        proof {
            lookups = lookups.push(this);
        }
        match delete_one_path_simple(s, p) {
            Ok(()) => {},
            Err(e) => { body = Err(e); break; },
        }
        match clear_errors_with_members(s, p) {
            Ok(()) => {},
            Err(e) => { body = Err(e); break; },
        }
        assert(path_deleted(paths@[i as int]@));
        i = i + 1;
    }
    let ghost h2 = s.history();
    let ghost mid = h2.subrange(h1.len() as int, h2.len() as int);
    proof {
        assert(h2 =~= h1 + mid);
        assert(grew_within(Seq::empty(), mid, delete_path_sqls())) by {
            assert(mid.subrange(0, 0) =~= Seq::<Stmt>::empty());
            assert forall|j: int| 0 <= j < mid.len() implies delete_path_sqls().contains((#[trigger] mid[j]).0) by {
                assert(mid[j] == h2[h1.len() + j]);
            }
        }
    }
    if body.is_ok() {
        body = cleanup_singleton_duplicates_in(s);
    }
    match finish(s, body) {
        Ok(()) => {
            assert(body is Ok);
            proof {
                let t = seq![("BEGIN DEFERRED"@, Seq::<ParamView>::empty())] + mid
                    + seq![(singleton_duplicates_sql(), Seq::<ParamView>::empty()), ("COMMIT"@, Seq::<ParamView>::empty())];
                assert(s.history() =~= h0 + t);
                assert(deletes_history(t));
            }
            Ok(delta)
        },
        Err(e) => Err(e),
    }
}

// ── Renames, activity and errors ─────────────────────────────────────────────

/// Renames one indexed path: the file, the members of an archive, and the
/// file's name line in the full-text index; skipped when the old path is
/// not indexed or the new one already is (a count that fails to read
/// counts as zero).
fn rename_one(s: &mut Session, old_path: &str, new_path: &str) -> (r: Result<(), DbError>)
    ensures
        r is Ok ==> rename_done(old_path@, new_path@),
        grew_within(old(s).history(), final(s).history(), rename_sqls()),
        grew_within(old(s).history(), final(s).history(), rename_path_sqls()),
{
    let file_id = match resolve_file_id(s.conn(), old_path) {
        Ok(Some(id)) => id,
        Ok(None) => {
            assert(optional_answer(id_by_path_sql(), text1(old_path@), None));
            return Ok(());
        },
        Err(e) => { return Err(e); },
    };
    assert(optional_answer(id_by_path_sql(), text1(old_path@), Some(file_id)));
    let pc = text_param(new_path.to_owned());
    assert(param_views(pc@) =~= text1(new_path@));
    let taken = match query(s.conn(), "SELECT COUNT(*) FROM files WHERE path = ?1", &pc) {
        Ok(rows) => match read_single_int(&rows) {
            Ok(n) => {
                assert(single_answer("SELECT COUNT(*) FROM files WHERE path = ?1"@, text1(new_path@), n));
                n
            },
            Err(_) => 0,
        },
        Err(_) => 0,
    };
    if taken > 0 {
        assert(path_taken(new_path@));
        return Ok(());
    }
    let mut p1: Vec<SqlValue> = Vec::new();
    p1.push(SqlValue::Text(new_path.to_owned()));
    p1.push(SqlValue::Text(old_path.to_owned()));
    match s.execute( "UPDATE files SET path = ?1 WHERE path = ?2", &p1) {
        Ok(_) => {},
        Err(e) => { return Err(e); },
    }
    assert(param_views(p1@) =~= seq![ParamView::Text(new_path@), ParamView::Text(old_path@)]);
    let mut old_prefix = old_path.to_owned();
    crate::text::push_str(&mut old_prefix, "::");
    let mut new_prefix = new_path.to_owned();
    crate::text::push_str(&mut new_prefix, "::");
    proof { reveal_strlit("::"); }
    assert(old_prefix@ =~= old_path@ + seq![':', ':']);
    assert(new_prefix@ =~= new_path@ + seq![':', ':']);
    let mut like = old_prefix.clone();
    crate::text::push_char(&mut like, '%');
    assert(like@ =~= members_of(old_path@));
    let mut p2: Vec<SqlValue> = Vec::new();
    p2.push(SqlValue::Text(new_prefix));
    p2.push(SqlValue::Text(old_prefix));
    p2.push(SqlValue::Text(like));
    match s.execute( "UPDATE files SET path = ?1 || substr(path, length(?2) + 1) WHERE path LIKE ?3", &p2) {
        Ok(_) => {},
        Err(e) => { return Err(e); },
    }
    proof {
        reveal_strlit("::");
        assert("::"@ =~= seq![':', ':']);
    }
    assert(param_views(p2@) =~= prefix_rename_params(old_path@, new_path@));
    let rowid0 = file_id.wrapping_mul(crate::rowid::MAX_LINES_PER_FILE);
    let mut p3: Vec<SqlValue> = Vec::new();
    p3.push(SqlValue::Integer(rowid0));
    p3.push(SqlValue::Text(old_path.to_owned()));
    match s.execute( "INSERT INTO lines_fts(lines_fts, rowid, content) VALUES('delete', ?1, ?2)", &p3) {
        Ok(_) => {},
        Err(e) => { return Err(e); },
    }
    assert(param_views(p3@) =~= int_text(rowid0, old_path@));
    let mut p4: Vec<SqlValue> = Vec::new();
    p4.push(SqlValue::Integer(rowid0));
    p4.push(SqlValue::Text(new_path.to_owned()));
    let r = match s.execute( "INSERT INTO lines_fts(rowid, content) VALUES(?1, ?2)", &p4) {
        Ok(_) => Ok(()),
        Err(e) => Err(e),
    };
    assert(param_views(p4@) =~= int_text(rowid0, new_path@));
    r
}

/// Renames indexed paths `(old, new)` in one transaction (see `rename_one`).
pub fn rename_files(conn: &rusqlite::Connection, renames: &Vec<(String, String)>) -> (r: Result<(), DbError>)
    ensures
        r is Ok ==> (forall|i: int| 0 <= i < renames@.len() ==> rename_done((#[trigger] renames@[i]).0@, renames@[i].1@))
            && committed(),
{
    let mut s = Session::new(conn);
    rename_files_in(&mut s, renames)
}

pub(crate) fn rename_files_in(s: &mut Session, renames: &Vec<(String, String)>) -> (r: Result<(), DbError>)
    ensures
        r is Ok ==> (forall|i: int| 0 <= i < renames@.len() ==> rename_done((#[trigger] renames@[i]).0@, renames@[i].1@))
            && committed(),
        grew_within(old(s).history(), final(s).history(), rename_sqls()),
        r is Ok ==> exists|t: Seq<Stmt>| final(s).history() == old(s).history() + t && #[trigger] renames_history(t),
{
    let ghost h0 = s.history();
    match begin(s) {
        Ok(()) => {},
        Err(e) => { return Err(e); },
    }
    assert(grew_within(old(s).history(), s.history(), rename_sqls()));
    let ghost h1 = s.history();
    let mut body: Result<(), DbError> = Ok(());
    let mut i: usize = 0;
    while i < renames.len()
        invariant_except_break
            body is Ok,
            forall|j: int| 0 <= j < i ==> rename_done((#[trigger] renames@[j]).0@, renames@[j].1@),
        invariant
            grew_within(old(s).history(), s.history(), rename_sqls()),
            grew_within(h1, s.history(), rename_path_sqls()),
            i <= renames@.len(),
        ensures
            body is Ok ==> forall|j: int| 0 <= j < renames@.len() ==> rename_done((#[trigger] renames@[j]).0@, renames@[j].1@),
        decreases renames@.len() - i,
    {
        match rename_one(s, renames[i].0.as_str(), renames[i].1.as_str()) {
            Ok(()) => {},
            Err(e) => { body = Err(e); break; },
        }
        i = i + 1;
    }
    let ghost hb = s.history();
    let ghost mid = hb.subrange(h1.len() as int, hb.len() as int);
    proof {
        assert(hb =~= h1 + mid);
        assert(grew_within(Seq::empty(), mid, rename_path_sqls())) by {
            assert(mid.subrange(0, 0) =~= Seq::<Stmt>::empty());
            assert forall|j: int| 0 <= j < mid.len() implies rename_path_sqls().contains((#[trigger] mid[j]).0) by {
                assert(mid[j] == hb[h1.len() + j]);
            }
        }
    }
    let r = finish(s, body);
    assert(grew_within(hb, s.history(), rename_sqls()));
    proof {
        if r is Ok {
            let t = seq![("BEGIN DEFERRED"@, Seq::<ParamView>::empty())] + mid + seq![("COMMIT"@, Seq::<ParamView>::empty())];
            assert(s.history() =~= h0 + t);
            assert(renames_history(t));
        }
    }
    r
}

/// Appends one activity entry.
fn log_entry(s: &mut Session, now: i64, action: &str, path: &str, new_path: Option<&str>) -> (r: Result<(), DbError>)
    ensures
        r is Ok ==> ran(activity_sql(), entry_params(now, action@, path@, match new_path { Some(n) => Some(n@), None => None })),
        grew_within(old(s).history(), final(s).history(), activity_sqls()),
{
    let mut params: Vec<SqlValue> = Vec::new();
    params.push(SqlValue::Integer(now));
    params.push(SqlValue::Text(action.to_owned()));
    params.push(SqlValue::Text(path.to_owned()));
    params.push(match new_path { Some(n) => SqlValue::Text(n.to_owned()), None => SqlValue::Null });
    let r = match s.execute(
        "INSERT INTO activity_log (occurred_at, action, path, new_path) VALUES (?1, ?2, ?3, ?4)",
        &params,
    ) {
        Ok(_) => Ok(()),
        Err(e) => Err(e),
    };
    assert(param_views(params@) =~= entry_params(now, action@, path@, match new_path { Some(n) => Some(n@), None => None }));
    r
}

/// Appends an activity entry.
pub open spec fn activity_sql() -> Seq<char> {
    "INSERT INTO activity_log (occurred_at, action, path, new_path) VALUES (?1, ?2, ?3, ?4)"@
}

/// Keeps the newest activity entries.
pub open spec fn activity_prune_sql() -> Seq<char> {
    "DELETE FROM activity_log WHERE id NOT IN (SELECT id FROM activity_log ORDER BY id DESC LIMIT ?1)"@
}

/// The values of an activity entry: time, action, path and new path (NULL
/// but for renames).
pub open spec fn entry_params(now: i64, action: Seq<char>, path: Seq<char>, new_path: Option<Seq<char>>) -> Seq<ParamView> {
    seq![
        ParamView::Integer(now), ParamView::Text(action), ParamView::Text(path),
        match new_path { Some(n) => ParamView::Text(n), None => ParamView::Null },
    ]
}

/// Each outer path of `paths` was logged under `action` at `now`.
pub open spec fn paths_logged(now: i64, action: Seq<char>, paths: Seq<Seq<char>>) -> bool {
    forall|i: int| 0 <= i < paths.len() && !is_composite(paths[i]) ==> ran(activity_sql(), entry_params(now, action, #[trigger] paths[i], None))
}

/// Each rename of two outer paths was logged at `now`.
pub open spec fn renames_logged(now: i64, renames: Seq<(Seq<char>, Seq<char>)>) -> bool {
    forall|i: int| 0 <= i < renames.len() && !is_composite(renames[i].0) && !is_composite(renames[i].1)
        ==> ran(activity_sql(), entry_params(now, "renamed"@, (#[trigger] renames[i]).0, Some(renames[i].1)))
}

/// Appends one entry per outer path of `paths` under `action`.
fn log_paths(s: &mut Session, now: i64, action: &str, paths: &Vec<String>) -> (r: Result<(), DbError>)
    ensures
        r is Ok ==> paths_logged(now, action@, crate::wrap::views(paths@)),
        grew_within(old(s).history(), final(s).history(), activity_sqls()),
{
    let ghost pv = crate::wrap::views(paths@);
    let mut i: usize = 0;
    while i < paths.len()
        invariant
            grew_within(old(s).history(), s.history(), activity_sqls()),
            i <= paths@.len(),
            pv == crate::wrap::views(paths@),
            forall|j: int| 0 <= j < i && !is_composite(pv[j]) ==> ran(activity_sql(), entry_params(now, action@, #[trigger] pv[j], None)),
        decreases paths@.len() - i,
    {
        let p = paths[i].as_str();
        assert(pv[i as int] == p@);
        if !is_composite_path(p) {
            match log_entry(s, now, action, p, None) {
                Ok(()) => {},
                Err(e) => { return Err(e); },
            }
        }
        i = i + 1;
    }
    Ok(())
}

/// Appends activity entries for a batch: each outer path added, modified
/// and deleted, then each rename whose two paths are outer (archive members
/// are not logged) and, when `max_entries` is above 0, prunes the
/// log to its `max_entries` newest entries, in one transaction. Nothing is
/// written when the batch is empty.
pub fn log_activity(conn: &rusqlite::Connection, now: i64,
    added: &Vec<String>,
    modified: &Vec<String>,
    deleted: &Vec<String>,
    renamed: &Vec<(String, String)>,
    max_entries: usize,
) -> (r: Result<(), DbError>)
    ensures
        added@.len() == 0 && modified@.len() == 0 && deleted@.len() == 0 && renamed@.len() == 0 ==> r is Ok,
        r is Ok && !(added@.len() == 0 && modified@.len() == 0 && deleted@.len() == 0 && renamed@.len() == 0) ==> {
            &&& paths_logged(now, "added"@, crate::wrap::views(added@))
            &&& paths_logged(now, "modified"@, crate::wrap::views(modified@))
            &&& paths_logged(now, "deleted"@, crate::wrap::views(deleted@))
            &&& renames_logged(now, crate::ingest::rename_views(renamed@))
            &&& max_entries > 0 ==> ran(activity_prune_sql(), int1(max_entries as i64))
            &&& committed()
        },
{
    let mut s = Session::new(conn);
    log_activity_in(&mut s, now, added, modified, deleted, renamed, max_entries)
}

pub(crate) fn log_activity_in(s: &mut Session, now: i64,
    added: &Vec<String>,
    modified: &Vec<String>,
    deleted: &Vec<String>,
    renamed: &Vec<(String, String)>,
    max_entries: usize,
) -> (r: Result<(), DbError>)
    ensures
        added@.len() == 0 && modified@.len() == 0 && deleted@.len() == 0 && renamed@.len() == 0 ==> r is Ok,
        r is Ok && !(added@.len() == 0 && modified@.len() == 0 && deleted@.len() == 0 && renamed@.len() == 0) ==> {
            &&& paths_logged(now, "added"@, crate::wrap::views(added@))
            &&& paths_logged(now, "modified"@, crate::wrap::views(modified@))
            &&& paths_logged(now, "deleted"@, crate::wrap::views(deleted@))
            &&& renames_logged(now, crate::ingest::rename_views(renamed@))
            &&& max_entries > 0 ==> ran(activity_prune_sql(), int1(max_entries as i64))
            &&& committed()
        },
        grew_within(old(s).history(), final(s).history(), activity_sqls()),
{
    if added.len() == 0 && modified.len() == 0 && deleted.len() == 0 && renamed.len() == 0 {
        return Ok(());
    }
    match begin(s) {
        Ok(()) => {},
        Err(e) => { return Err(e); },
    }
    assert(grew_within(old(s).history(), s.history(), activity_sqls()));
    let mut body = log_paths(s, now, "added", added);
    if body.is_ok() {
        body = log_paths(s, now, "modified", modified);
    }
    if body.is_ok() {
        body = log_paths(s, now, "deleted", deleted);
    }
    let ghost rv = crate::ingest::rename_views(renamed@);
    if body.is_ok() {
        let mut i: usize = 0;
        while i < renamed.len()
            invariant_except_break
                body is Ok,
                forall|j: int| 0 <= j < i && !is_composite(rv[j].0) && !is_composite(rv[j].1)
                    ==> ran(activity_sql(), entry_params(now, "renamed"@, (#[trigger] rv[j]).0, Some(rv[j].1))),
            invariant
                grew_within(old(s).history(), s.history(), activity_sqls()),
                i <= renamed@.len(),
                rv == crate::ingest::rename_views(renamed@),
            ensures
                body is Ok ==> renames_logged(now, rv),
            decreases renamed@.len() - i,
        {
            let (o, n) = (&renamed[i].0, &renamed[i].1);
            assert(rv[i as int] == (o@, n@));
            if !is_composite_path(o.as_str()) && !is_composite_path(n.as_str()) {
                match log_entry(s, now, "renamed", o.as_str(), Some(n.as_str())) {
                    Ok(()) => {},
                    Err(e) => { body = Err(e); break; },
                }
            }
            i = i + 1;
        }
    }
    if body.is_ok() && max_entries > 0 {
        let pp = int_param(max_entries as i64);
        body = match s.execute(
            "DELETE FROM activity_log WHERE id NOT IN (SELECT id FROM activity_log ORDER BY id DESC LIMIT ?1)",
            &pp,
        ) {
            Ok(_) => Ok(()),
            Err(e) => Err(e),
        };
        assert(param_views(pp@) =~= int1(max_entries as i64));
    }
    let ghost hb = s.history();
    let r = finish(s, body);
    assert(grew_within(hb, s.history(), activity_sqls()));
    r
}

/// Records one failure: a new path starts with a count of 1 and `now` as
/// first and last seen; a known one gets the new message, `now` as last
/// seen and one more in its count.
fn record_failure(s: &mut Session, path: &str, error: &str, now: i64) -> (r: Result<(), DbError>)
    ensures
        r is Ok ==> ran(record_failure_sql(), failure_params((path@, error@), now)),
        grew_within(old(s).history(), final(s).history(), bookkeeping_sqls()),
        final(s).history() == old(s).history().push((record_failure_sql(), failure_params((path@, error@), now))),
{
    let mut params: Vec<SqlValue> = Vec::new();
    params.push(SqlValue::Text(path.to_owned()));
    params.push(SqlValue::Text(error.to_owned()));
    params.push(SqlValue::Integer(now));
    let r = match s.execute(
        "INSERT INTO indexing_errors (path, error, first_seen, last_seen, count) VALUES (?1, ?2, ?3, ?3, 1) ON CONFLICT(path) DO UPDATE SET error = excluded.error, last_seen = excluded.last_seen, count = count + 1",
        &params,
    ) {
        Ok(_) => Ok(()),
        Err(e) => Err(e),
    };
    assert(param_views(params@) =~= failure_params((path@, error@), now));
    r
}

/// Records (or counts again) the error of a path.
pub open spec fn record_failure_sql() -> Seq<char> {
    "INSERT INTO indexing_errors (path, error, first_seen, last_seen, count) VALUES (?1, ?2, ?3, ?3, 1) ON CONFLICT(path) DO UPDATE SET error = excluded.error, last_seen = excluded.last_seen, count = count + 1"@
}

/// The values of a recorded failure: path, error and time.
pub open spec fn failure_params(f: (Seq<char>, Seq<char>), now: i64) -> Seq<ParamView> {
    seq![ParamView::Text(f.0), ParamView::Text(f.1), ParamView::Integer(now)]
}

/// Clears the recorded error of a path.
pub open spec fn clear_error_sql() -> Seq<char> {
    "DELETE FROM indexing_errors WHERE path = ?1"@
}

/// Snapshots the totals into the scan history.
pub open spec fn history_sql() -> Seq<char> {
    "INSERT INTO scan_history (scanned_at, total_files, total_size, by_kind) SELECT ?1, ?2, ?3, json_group_object(kind, json_object('count', cnt, 'size', sz, 'avg_extract_ms', avg_ms)) FROM (SELECT kind, COUNT(*) AS cnt, COALESCE(SUM(size), 0) AS sz, AVG(CAST(extract_ms AS REAL)) AS avg_ms FROM files GROUP BY kind)"@
}

/// The values of a history entry.
pub open spec fn history_params(at: i64, files: i64, size: i64) -> Seq<ParamView> {
    seq![ParamView::Integer(at), ParamView::Integer(files), ParamView::Integer(size)]
}

/// The bookkeeping after a batch ran (see `do_cleanup_writes`): nothing
/// when there is nothing to do; else each path's error cleared, each
/// failure recorded at `now`, with a scan time that time stored and a
/// history entry written, and the transaction committed.
pub open spec fn cleanup_done(clear: Seq<Seq<char>>, failures: Seq<(Seq<char>, Seq<char>)>, now: i64, scan: Option<i64>) -> bool {
    ||| clear.len() == 0 && failures.len() == 0 && scan is None
    ||| {
        &&& forall|i: int| 0 <= i < clear.len() ==> ran(clear_error_sql(), text1(#[trigger] clear[i]))
        &&& forall|i: int| 0 <= i < failures.len() ==> ran(record_failure_sql(), failure_params(#[trigger] failures[i], now))
        &&& scan matches Some(ts) ==> ran(last_scan_sql(), text1(crate::text::int_digits(ts as int)))
            && exists|files: i64, size: i64| #[trigger] ran(history_sql(), history_params(ts, files, size))
        &&& committed()
    }
}

/// The statements that clear the errors of the first `n` of `paths`, in
/// order.
pub open spec fn clear_stmts(paths: Seq<Seq<char>>, n: int) -> Seq<Stmt>
    decreases n,
{
    if n <= 0 {
        Seq::empty()
    } else {
        clear_stmts(paths, n - 1).push((clear_error_sql(), text1(paths[n - 1])))
    }
}

/// The statements that record the first `n` of `failures` at `now`, in
/// order.
pub open spec fn failure_stmts(failures: Seq<(Seq<char>, Seq<char>)>, now: i64, n: int) -> Seq<Stmt>
    decreases n,
{
    if n <= 0 {
        Seq::empty()
    } else {
        failure_stmts(failures, now, n - 1).push((record_failure_sql(), failure_params(failures[n - 1], now)))
    }
}

/// `t` is what storing the scan time `scan` handed over: nothing without
/// one, else the last scan, then the snapshot of the totals that the
/// database gave.
pub open spec fn scan_stmts(scan: Option<i64>, t: Seq<Stmt>) -> bool {
    match scan {
        None => t.len() == 0,
        Some(ts) => exists|files: i64, size: i64| t == seq![
            (last_scan_sql(), text1(crate::text::int_digits(ts as int))),
            (history_sql(), #[trigger] history_params(ts, files, size)),
        ],
    }
}

/// `t` is what the bookkeeping of a batch handed over (see
/// `do_cleanup_writes`): nothing when there is nothing to do, else one
/// transaction in which the errors of `clear` are cleared first, then
/// `failures` recorded, then the scan time stored.
pub open spec fn cleanup_history(clear: Seq<Seq<char>>, failures: Seq<(Seq<char>, Seq<char>)>, now: i64, scan: Option<i64>, t: Seq<Stmt>) -> bool {
    if clear.len() == 0 && failures.len() == 0 && scan is None {
        t.len() == 0
    } else {
        exists|tail: Seq<Stmt>| {
            &&& #[trigger] scan_stmts(scan, tail)
            &&& t == seq![("BEGIN DEFERRED"@, Seq::<ParamView>::empty())] + clear_stmts(clear, clear.len() as int)
                + failure_stmts(failures, now, failures.len() as int) + tail + seq![("COMMIT"@, Seq::<ParamView>::empty())]
        }
    }
}

/// Records each `(path, error)` failure (see `record_failure`).
fn record_failures(s: &mut Session, failures: &Vec<(String, String)>, now: i64) -> (r: Result<(), DbError>)
    ensures
        r is Ok ==> forall|i: int| 0 <= i < failures@.len()
            ==> ran(record_failure_sql(), failure_params(#[trigger] crate::ingest::rename_views(failures@)[i], now)),
        grew_within(old(s).history(), final(s).history(), bookkeeping_sqls()),
        r is Ok ==> final(s).history() == old(s).history()
            + failure_stmts(crate::ingest::rename_views(failures@), now, failures@.len() as int),
{
    let ghost fv = crate::ingest::rename_views(failures@);
    let mut i: usize = 0;
    while i < failures.len()
        invariant
            grew_within(old(s).history(), s.history(), bookkeeping_sqls()),
            s.history() == old(s).history() + failure_stmts(fv, now, i as int),
            fv == crate::ingest::rename_views(failures@),
            i <= failures@.len(),
            forall|j: int| 0 <= j < i ==> ran(record_failure_sql(), failure_params(#[trigger] crate::ingest::rename_views(failures@)[j], now)),
        decreases failures@.len() - i,
    {
        assert(crate::ingest::rename_views(failures@)[i as int] == (failures@[i as int].0@, failures@[i as int].1@));
        match record_failure(s, failures[i].0.as_str(), failures[i].1.as_str(), now) {
            Ok(()) => {},
            Err(e) => { return Err(e); },
        }
        assert(s.history() =~= old(s).history() + failure_stmts(fv, now, i + 1));
        i = i + 1;
    }
    Ok(())
}

/// Deletes the recorded error of each path.
fn clear_errors(s: &mut Session, paths: &Vec<String>) -> (r: Result<(), DbError>)
    ensures
        r is Ok ==> forall|i: int| 0 <= i < paths@.len() ==> ran(clear_error_sql(), text1(#[trigger] crate::wrap::views(paths@)[i])),
        grew_within(old(s).history(), final(s).history(), bookkeeping_sqls()),
        r is Ok ==> final(s).history() == old(s).history() + clear_stmts(crate::wrap::views(paths@), paths@.len() as int),
{
    let ghost pv = crate::wrap::views(paths@);
    let mut i: usize = 0;
    while i < paths.len()
        invariant
            grew_within(old(s).history(), s.history(), bookkeeping_sqls()),
            s.history() == old(s).history() + clear_stmts(pv, i as int),
            pv == crate::wrap::views(paths@),
            i <= paths@.len(),
            forall|j: int| 0 <= j < i ==> ran(clear_error_sql(), text1(#[trigger] crate::wrap::views(paths@)[j])),
        decreases paths@.len() - i,
    {
        let p = text_param(paths[i].clone());
        match s.execute( "DELETE FROM indexing_errors WHERE path = ?1", &p) {
            Ok(_) => {},
            Err(e) => { return Err(e); },
        }
        assert(param_views(p@) =~= text1(crate::wrap::views(paths@)[i as int]));
        assert(s.history() =~= old(s).history() + clear_stmts(pv, i + 1));
        i = i + 1;
    }
    Ok(())
}

/// Records indexing failures `(path, error)` at time `now`, in one
/// transaction; nothing when there are none.
pub fn upsert_indexing_errors(conn: &rusqlite::Connection, failures: &Vec<(String, String)>, now: i64) -> (r: Result<(), DbError>)
    ensures
        failures@.len() == 0 ==> r is Ok,
        failures@.len() > 0 && r is Ok ==> committed() && forall|i: int| 0 <= i < failures@.len()
            ==> ran(record_failure_sql(), failure_params(#[trigger] crate::ingest::rename_views(failures@)[i], now)),
{
    let mut s = Session::new(conn);
    let s = &mut s;
    if failures.len() == 0 {
        return Ok(());
    }
    match begin(s) {
        Ok(()) => {},
        Err(e) => { return Err(e); },
    }
    let body = record_failures(s, failures, now);
    finish(s, body)
}

/// Deletes the recorded errors of `paths`, in one transaction; nothing
/// when there are none.
pub fn clear_errors_for_paths(conn: &rusqlite::Connection, paths: &Vec<String>) -> (r: Result<(), DbError>)
    ensures
        paths@.len() == 0 ==> r is Ok,
        paths@.len() > 0 && r is Ok ==> committed() && forall|i: int| 0 <= i < paths@.len()
            ==> ran(clear_error_sql(), text1(#[trigger] crate::wrap::views(paths@)[i])),
{
    let mut s = Session::new(conn);
    let s = &mut s;
    if paths.len() == 0 {
        return Ok(());
    }
    match begin(s) {
        Ok(()) => {},
        Err(e) => { return Err(e); },
    }
    let body = clear_errors(s, paths);
    finish(s, body)
}

/// Snapshots the totals into the scan history at `scanned_at`: the file
/// and byte totals given, and the per-kind statistics as a JSON object
/// built by SQLite from the files table (count, size and mean extraction
/// time of each kind).
fn insert_history(s: &mut Session, scanned_at: i64, total_files: usize, total_size: i64) -> (r: Result<(), DbError>)
    ensures
        r is Ok ==> ran(history_sql(), history_params(scanned_at, total_files as i64, total_size)),
        grew_within(old(s).history(), final(s).history(), bookkeeping_sqls()),
        final(s).history() == old(s).history().push((history_sql(), history_params(scanned_at, total_files as i64, total_size))),
{
    let mut params: Vec<SqlValue> = Vec::new();
    params.push(SqlValue::Integer(scanned_at));
    params.push(SqlValue::Integer(total_files as i64));
    params.push(SqlValue::Integer(total_size));
    assert(param_views(params@) =~= history_params(scanned_at, total_files as i64, total_size));
    match s.execute(
        "INSERT INTO scan_history (scanned_at, total_files, total_size, by_kind) SELECT ?1, ?2, ?3, json_group_object(kind, json_object('count', cnt, 'size', sz, 'avg_extract_ms', avg_ms)) FROM (SELECT kind, COUNT(*) AS cnt, COALESCE(SUM(size), 0) AS sz, AVG(CAST(extract_ms AS REAL)) AS avg_ms FROM files GROUP BY kind)",
        &params,
    ) {
        Ok(_) => Ok(()),
        Err(e) => Err(e),
    }
}

/// Snapshots the current totals into the scan history.
pub fn append_scan_history(conn: &rusqlite::Connection, scanned_at: i64) -> (r: Result<(), DbError>)
    ensures
        r is Ok ==> exists|files: i64, size: i64| #[trigger] ran(history_sql(), history_params(scanned_at, files, size)),
{
    let mut s = Session::new(conn);
    append_scan_history_in(&mut s, scanned_at)
}

pub(crate) fn append_scan_history_in(s: &mut Session, scanned_at: i64) -> (r: Result<(), DbError>)
    ensures
        r is Ok ==> exists|files: i64, size: i64| #[trigger] ran(history_sql(), history_params(scanned_at, files, size)),
        grew_within(old(s).history(), final(s).history(), bookkeeping_sqls()),
        r is Ok ==> exists|files: i64, size: i64|
            final(s).history() == old(s).history().push((history_sql(), #[trigger] history_params(scanned_at, files, size))),
{
    let (files, size, _by_kind) = match get_stats(s.conn()) {
        Ok(s) => s,
        Err(e) => { return Err(e); },
    };
    insert_history(s, scanned_at, files, size)
}

/// All the writes that follow a batch, in one transaction: clears the
/// errors of `clear_paths`, records `failures` at `now`, and with a scan
/// time stores it as the last scan and snapshots the totals into the scan
/// history. Nothing is written when there is nothing to do.
pub fn do_cleanup_writes(conn: &rusqlite::Connection, clear_paths: &Vec<String>,
    failures: &Vec<(String, String)>,
    now: i64,
    scan_timestamp: Option<i64>,
) -> (r: Result<(), DbError>)
    ensures
        clear_paths@.len() == 0 && failures@.len() == 0 && scan_timestamp is None ==> r is Ok,
        r is Ok ==> cleanup_done(crate::wrap::views(clear_paths@), crate::ingest::rename_views(failures@), now, scan_timestamp),
{
    let mut s = Session::new(conn);
    do_cleanup_writes_in(&mut s, clear_paths, failures, now, scan_timestamp)
}

pub(crate) fn do_cleanup_writes_in(s: &mut Session, clear_paths: &Vec<String>,
    failures: &Vec<(String, String)>,
    now: i64,
    scan_timestamp: Option<i64>,
) -> (r: Result<(), DbError>)
    ensures
        clear_paths@.len() == 0 && failures@.len() == 0 && scan_timestamp is None ==> r is Ok,
        r is Ok ==> cleanup_done(crate::wrap::views(clear_paths@), crate::ingest::rename_views(failures@), now, scan_timestamp),
        grew_within(old(s).history(), final(s).history(), bookkeeping_sqls()),
        r is Ok ==> exists|t: Seq<Stmt>| {
            &&& final(s).history() == old(s).history() + t
            &&& #[trigger] cleanup_history(crate::wrap::views(clear_paths@), crate::ingest::rename_views(failures@), now, scan_timestamp, t)
        },
{
    let ghost cv = crate::wrap::views(clear_paths@);
    let ghost fv = crate::ingest::rename_views(failures@);
    if clear_paths.len() == 0 && failures.len() == 0 && scan_timestamp.is_none() {
        assert(old(s).history() =~= old(s).history() + Seq::<Stmt>::empty());
        assert(cleanup_history(cv, fv, now, scan_timestamp, Seq::<Stmt>::empty()));
        return Ok(());
    }
    let ghost h0 = s.history();
    match begin(s) {
        Ok(()) => {},
        Err(e) => { return Err(e); },
    }
    assert(grew_within(old(s).history(), s.history(), bookkeeping_sqls()));
    let ghost h1 = s.history();
    let mut body: Result<(), DbError> = Ok(());
    if clear_paths.len() > 0 {
        body = clear_errors(s, clear_paths);
    } else {
        assert(clear_stmts(cv, 0) =~= Seq::<Stmt>::empty());
    }
    let ghost h2 = s.history();
    assert(body is Ok ==> h2 == h1 + clear_stmts(cv, cv.len() as int));
    if body.is_ok() && failures.len() > 0 {
        body = record_failures(s, failures, now);
    } else {
        assert(failure_stmts(fv, now, 0) =~= Seq::<Stmt>::empty());
    }
    let ghost h3 = s.history();
    assert(body is Ok ==> h3 == h2 + failure_stmts(fv, now, fv.len() as int));
    let ghost mut tail: Seq<Stmt> = Seq::empty();
    if body.is_ok() {
        match scan_timestamp {
            Some(ts) => {
                body = update_last_scan_in(s, ts);
                if body.is_ok() {
                    body = append_scan_history_in(s, ts);
                    proof {
                        if body is Ok {
                            let (files, size) = choose|files: i64, size: i64|
                                s.history() == h3.push((last_scan_sql(), text1(crate::text::int_digits(ts as int))))
                                    .push((history_sql(), #[trigger] history_params(ts, files, size)));
                            tail = seq![
                                (last_scan_sql(), text1(crate::text::int_digits(ts as int))),
                                (history_sql(), history_params(ts, files, size)),
                            ];
                            assert(scan_stmts(scan_timestamp, tail));
                        }
                    }
                }
            },
            None => {},
        }
    }
    let ghost hb = s.history();
    assert(body is Ok ==> hb =~= h3 + tail && scan_stmts(scan_timestamp, tail));
    let r = finish(s, body);
    assert(grew_within(hb, s.history(), bookkeeping_sqls()));
    proof {
        if r is Ok {
            let t = seq![("BEGIN DEFERRED"@, Seq::<ParamView>::empty())] + clear_stmts(cv, cv.len() as int)
                + failure_stmts(fv, now, fv.len() as int) + tail + seq![("COMMIT"@, Seq::<ParamView>::empty())];
            assert(s.history() =~= h0 + t);
            assert(cleanup_history(cv, fv, now, scan_timestamp, t));
        }
    }
    r
}

// ── Opening a source database ────────────────────────────────────────────────

/// The schema version that this server reads and writes.
pub const SCHEMA_VERSION: i64 = 14;

/// The text after the last `.` of a file name, lowercased; empty when the
/// name has no `.`.
pub open spec fn ext_after_dot(name: Seq<char>) -> Seq<char> {
    if crate::paths::has_char(name, '.') {
        let d = choose|d: int| crate::paths::last_index_of(name, '.', d);
        crate::paths::lowercase_of(name.subrange(d + 1, name.len() as int))
    } else {
        Seq::empty()
    }
}

/// The SQL function `file_basename`: the text after the last `/`.
pub fn file_basename(path: &str) -> (r: String)
    ensures
        r@ == crate::paths::after_last_slash(path@),
{
    let v = crate::text::to_chars(path);
    match crate::paths::rfind_char(&v, 0, v.len(), '/') {
        Some(d) => {
            proof {
                let e = choose|e: int| crate::paths::last_index_of(path@, '/', e);
                assert(crate::paths::last_index_of(path@, '/', d as int));
                assert(e == d) by {
                    if e < d { assert(path@[d as int] == '/'); }
                    if e > d { assert(path@[e] == '/'); }
                }
            }
            crate::text::string_from_chars(&v, d + 1, v.len())
        },
        None => {
            proof {
                assert(!crate::paths::has_char(path@, '/')) by {
                    if crate::paths::has_char(path@, '/') {
                        let j = choose|j: int| 0 <= j < path@.len() && path@[j] == '/';
                        assert(v@[j] == '/');
                    }
                }
            }
            assert(v@.subrange(0, v@.len() as int) =~= path@);
            crate::text::string_from_chars(&v, 0, v.len())
        },
    }
}

/// The SQL function `file_ext`: the lowercased text after the last `.`,
/// empty when there is no `.`.
pub fn file_ext(name: &str) -> (r: String)
    ensures
        r@ == ext_after_dot(name@),
{
    let v = crate::text::to_chars(name);
    match crate::paths::rfind_char(&v, 0, v.len(), '.') {
        Some(d) => {
            let tail = crate::text::string_from_chars(&v, d + 1, v.len());
            proof {
                let e = choose|e: int| crate::paths::last_index_of(name@, '.', e);
                assert(crate::paths::last_index_of(name@, '.', d as int));
                assert(crate::paths::has_char(name@, '.'));
                assert(e == d) by {
                    if e < d { assert(name@[d as int] == '.'); }
                    if e > d { assert(name@[e] == '.'); }
                }
            }
            crate::paths::to_lowercase(tail.as_str())
        },
        None => {
            proof {
                assert(!crate::paths::has_char(name@, '.')) by {
                    if crate::paths::has_char(name@, '.') {
                        let j = choose|j: int| 0 <= j < name@.len() && name@[j] == '.';
                        assert(v@[j] == '.');
                    }
                }
            }
            String::new()
        },
    }
}

/// `Connection::create_scalar_function` for a deterministic UTF-8 function
/// of one text argument: SQL calls of `name` give `f` of their argument (a
/// call whose argument is not text fails). Trusted: a success means the
/// function was registered under `name`; whether registration succeeds is
/// not stated.
#[verifier::external_body]
fn sql_text_function<F: Fn(&str) -> String + Send + 'static>(conn: &rusqlite::Connection, name: &str, f: F) -> (r: Result<(), rusqlite::Error>)
    ensures
        r is Ok ==> registered(name@),
{
    let flags = rusqlite::functions::FunctionFlags::SQLITE_UTF8 | rusqlite::functions::FunctionFlags::SQLITE_DETERMINISTIC;
    conn.create_scalar_function(name, 1, flags, move |ctx| {
        let s: String = ctx.get(0)?;
        Ok(f(&s))
    })
}

/// Registers the SQL functions `file_basename` and `file_ext`.
pub fn register_scalar_functions(conn: &rusqlite::Connection) -> (r: Result<(), DbError>)
    ensures
        r is Ok ==> registered("file_basename"@) && registered("file_ext"@),
{
    match sql_text_function(conn, "file_basename", file_basename) {
        Ok(()) => {},
        Err(e) => { return Err(db_error(e)); },
    }
    match sql_text_function(conn, "file_ext", file_ext) {
        Ok(()) => Ok(()),
        Err(e) => Err(db_error(e)),
    }
}

/// `Connection::open`: opens (creating when absent) the database at
/// `path`. Whether it succeeds depends on the file system; not stated.
#[verifier::external_body]
fn sql_open(path: &str) -> Result<rusqlite::Connection, rusqlite::Error> {
    rusqlite::Connection::open(path)
}

/// Opens (creating when absent) the database at `path`, with no setup.
pub(crate) fn open_plain(path: &str) -> (r: Result<rusqlite::Connection, DbError>) {
    match sql_open(path) {
        Ok(c) => Ok(c),
        Err(e) => Err(db_error(e)),
    }
}

/// `Connection::busy_timeout`: waits up to `secs` seconds for a lock
/// before a statement fails as busy. It converts the time to milliseconds
/// in an `i32` and panics above that, hence the bound. The outcome is not
/// stated.
#[verifier::external_body]
fn sql_busy_timeout(conn: &rusqlite::Connection, secs: u64) -> Result<(), rusqlite::Error>
    requires
        secs <= 2_147_483,
{
    conn.busy_timeout(std::time::Duration::from_secs(secs))
}

/// What opening does with a database of a given schema version.
pub enum SchemaStep {
    /// A new database: create the schema.
    Create,
    /// Version 13: migrate to the current version.
    Migrate,
    /// The current version.
    Current,
    /// Any other version: refuse.
    Unsupported,
}

/// The step for a schema version.
pub open spec fn schema_step_spec(version: i64) -> SchemaStep {
    if version == 0 {
        SchemaStep::Create
    } else if version == 13 {
        SchemaStep::Migrate
    } else if version == SCHEMA_VERSION {
        SchemaStep::Current
    } else {
        SchemaStep::Unsupported
    }
}

/// The step for a schema version.
pub fn schema_step(version: i64) -> (r: SchemaStep)
    ensures
        r == schema_step_spec(version),
{
    if version == 0 {
        SchemaStep::Create
    } else if version == 13 {
        SchemaStep::Migrate
    } else if version == SCHEMA_VERSION {
        SchemaStep::Current
    } else {
        SchemaStep::Unsupported
    }
}

/// `database schema is v<version> but this server requires v14. Delete
/// <path> and re-run find-scan to rebuild.`
pub open spec fn unsupported_message(version: i64, path: Seq<char>) -> Seq<char> {
    "database schema is v"@ + crate::text::int_digits(version as int) + " but this server requires v14. Delete "@
        + path + " and re-run find-scan to rebuild."@
}

/// The refusal of an unsupported schema version.
fn unsupported_error(version: i64, path: &str) -> (r: DbError)
    ensures
        r.message@ == unsupported_message(version, path@),
        !r.locked,
{
    let mut m = "database schema is v".to_owned();
    crate::text::push_i64(&mut m, version);
    crate::text::push_str(&mut m, " but this server requires v14. Delete ");
    crate::text::push_str(&mut m, path);
    crate::text::push_str(&mut m, " and re-run find-scan to rebuild.");
    proof {
        reveal_strlit("database schema is v");
        reveal_strlit(" but this server requires v14. Delete ");
        reveal_strlit(" and re-run find-scan to rebuild.");
    }
    assert(m@ =~= unsupported_message(version, path@));
    DbError { message: m, locked: false }
}

/// Stamps the current schema version.
fn stamp_version(conn: &rusqlite::Connection) -> (r: Result<(), DbError>)
    ensures
        r is Ok ==> ran("PRAGMA user_version = 14;"@, Seq::empty()),
{
    execute_batch(conn, "PRAGMA user_version = 14;")
}

/// The version read from `PRAGMA user_version` is one that opening accepts.
pub open spec fn opens_at(rows: Seq<Seq<SqlCell>>) -> bool {
    match single_int(rows) {
        Some(v) => !(schema_step_spec(v) is Unsupported),
        None => false,
    }
}

/// Reads the schema version.
pub open spec fn user_version_sql() -> Seq<char> {
    "PRAGMA user_version"@
}

/// Turns on write-ahead logging.
pub open spec fn journal_sql() -> Seq<char> {
    "PRAGMA journal_mode = WAL; PRAGMA synchronous = NORMAL;"@
}

/// Turns on foreign keys.
pub open spec fn foreign_keys_sql() -> Seq<char> {
    "PRAGMA foreign_keys = ON;"@
}

/// Migrates a version-13 database to the current schema.
pub open spec fn migrate_sql() -> Seq<char> {
    "DROP TABLE IF EXISTS file_content; ALTER TABLE files RENAME COLUMN content_hash TO file_hash; DROP INDEX IF EXISTS files_content_hash; CREATE INDEX IF NOT EXISTS files_file_hash ON files(file_hash) WHERE file_hash IS NOT NULL; ALTER TABLE duplicates RENAME COLUMN content_hash TO file_hash; CREATE INDEX IF NOT EXISTS idx_files_mtime ON files(mtime); CREATE INDEX IF NOT EXISTS idx_duplicates_file_id ON duplicates(file_id);"@
}

/// What opening a database found at version `v` ran: the schema (then the
/// version stamp) for a new one, the migration (then the stamp) for
/// version 13, nothing for the current version; any other version is
/// refused.
pub open spec fn opened_at(v: i64, schema: Seq<char>) -> bool {
    match schema_step_spec(v) {
        SchemaStep::Create => ran(schema, Seq::empty()) && ran("PRAGMA user_version = 14;"@, Seq::empty()),
        SchemaStep::Migrate => ran(migrate_sql(), Seq::empty()) && ran("PRAGMA user_version = 14;"@, Seq::empty()),
        SchemaStep::Current => true,
        SchemaStep::Unsupported => false,
    }
}

/// The step for a database found at `version`: refused with the
/// unsupported-version message (naming `path`) when no step applies.
pub fn version_step(version: i64, path: &str) -> (r: Result<SchemaStep, DbError>)
    ensures
        schema_step_spec(version) is Unsupported ==> (r matches Err(e) && e.message@ == unsupported_message(version, path@) && !e.locked),
        !(schema_step_spec(version) is Unsupported) ==> r == Ok::<SchemaStep, DbError>(schema_step_spec(version)),
{
    match schema_step(version) {
        SchemaStep::Unsupported => Err(unsupported_error(version, path)),
        step => Ok(step),
    }
}

/// Opens the source database at `db_path` for indexing: waits up to 30 s
/// for locks, uses write-ahead logging with normal syncing and foreign
/// keys, registers the SQL functions, then by its schema version creates
/// the schema from `schema` (version 0), migrates from version 13, accepts
/// the current version, or refuses any other with `unsupported_message`.
pub fn open(db_path: &str, schema: &str) -> (r: Result<rusqlite::Connection, DbError>)
    ensures
        r is Ok ==> exists|rows: Seq<Seq<SqlCell>>| #[trigger] opens_at(rows),
        r is Ok ==> ran(journal_sql(), Seq::empty()) && ran(foreign_keys_sql(), Seq::empty())
            && exists|v: i64| #[trigger] single_answer(user_version_sql(), Seq::empty(), v) && opened_at(v, schema@),
{
    let conn = match sql_open(db_path) {
        Ok(c) => c,
        Err(e) => { return Err(db_error(e)); },
    };
    match sql_busy_timeout(&conn, 30) {
        Ok(()) => {},
        Err(e) => { return Err(db_error(e)); },
    }
    match execute_batch(&conn, "PRAGMA journal_mode = WAL; PRAGMA synchronous = NORMAL;") {
        Ok(()) => {},
        Err(e) => { return Err(e); },
    }
    match execute_batch(&conn, "PRAGMA foreign_keys = ON;") {
        Ok(()) => {},
        Err(e) => { return Err(e); },
    }
    match register_scalar_functions(&conn) {
        Ok(()) => {},
        Err(e) => { return Err(e); },
    }
    let none: Vec<SqlValue> = Vec::new();
    let rows = match query(&conn, "PRAGMA user_version", &none) {
        Ok(rows) => rows,
        Err(e) => { return Err(e); },
    };
    assert(param_views(none@) =~= Seq::<ParamView>::empty());
    let version = match read_single_int(&rows) {
        Ok(v) => v,
        Err(e) => { return Err(e); },
    };
    assert(single_answer(user_version_sql(), Seq::empty(), version));
    let step = match version_step(version, db_path) {
        Ok(s) => s,
        Err(e) => { return Err(e); },
    };
    match step {
        SchemaStep::Create => {
            match execute_batch(&conn, schema) {
                Ok(()) => {},
                Err(e) => { return Err(e); },
            }
            match stamp_version(&conn) {
                Ok(()) => {},
                Err(e) => { return Err(e); },
            }
        },
        SchemaStep::Migrate => {
            match execute_batch(
                &conn,
                "DROP TABLE IF EXISTS file_content; ALTER TABLE files RENAME COLUMN content_hash TO file_hash; DROP INDEX IF EXISTS files_content_hash; CREATE INDEX IF NOT EXISTS files_file_hash ON files(file_hash) WHERE file_hash IS NOT NULL; ALTER TABLE duplicates RENAME COLUMN content_hash TO file_hash; CREATE INDEX IF NOT EXISTS idx_files_mtime ON files(mtime); CREATE INDEX IF NOT EXISTS idx_duplicates_file_id ON duplicates(file_id);",
            ) {
                Ok(()) => {},
                Err(e) => { return Err(e); },
            }
            match stamp_version(&conn) {
                Ok(()) => {},
                Err(e) => { return Err(e); },
            }
        },
        SchemaStep::Current => {},
        SchemaStep::Unsupported => {
            return Err(unsupported_error(version, db_path));
        },
    }
    assert(opens_at(row_views(rows@)));
    assert(opened_at(version, schema@));
    Ok(conn)
}

/// Opens a source database for statistics reads: waits at most 1 s for
/// locks and registers the SQL functions.
pub fn open_for_stats(db_path: &str) -> (r: Result<rusqlite::Connection, DbError>)
    ensures
        r is Ok ==> registered("file_basename"@) && registered("file_ext"@),
{
    let conn = match sql_open(db_path) {
        Ok(c) => c,
        Err(e) => { return Err(db_error(e)); },
    };
    match sql_busy_timeout(&conn, 1) {
        Ok(()) => {},
        Err(e) => { return Err(db_error(e)); },
    }
    match register_scalar_functions(&conn) {
        Ok(()) => Ok(conn),
        Err(e) => Err(e),
    }
}

/// Adds the indexes that older databases may lack (run once at start-up).
pub fn ensure_indexes(conn: &rusqlite::Connection) -> (r: Result<(), DbError>)
    ensures
        r is Ok ==> ran("CREATE INDEX IF NOT EXISTS idx_files_mtime ON files(mtime); CREATE INDEX IF NOT EXISTS idx_duplicates_file_id ON duplicates(file_id);"@, Seq::empty()),
{
    execute_batch(
        conn,
        "CREATE INDEX IF NOT EXISTS idx_files_mtime ON files(mtime); CREATE INDEX IF NOT EXISTS idx_duplicates_file_id ON duplicates(file_id);",
    )
}

} // verus!
