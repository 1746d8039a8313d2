//! Compaction bookkeeping: the cached statistics of the last wasted-space
//! scan, how they are stored as key/value rows, and the daily start time.
use vstd::prelude::*;
use crate::text::{
    to_chars, find_char, trim_bounds, trim, parse_u32, parse_u32_spec, parse_i64, parse_i64_spec,
    push_i64, int_digits, first_index_of,
};
use crate::paths::has_char;
use crate::db::{
    DbError, SqlCell, cell_at, text_of, row_views, optional_text, read_optional_text, query, execute, execute_batch, open_plain,
    text_param, answered, ran, text1,
};
use crate::search::{ParamView, param_views};

verus! {

/// Cached compaction statistics.
#[derive(Clone, Copy, Debug)]
pub struct CompactionStats {
    /// Sum of the compressed sizes of all orphaned chunks, in bytes.
    pub orphaned_bytes: u64,
    /// Sum of the compressed sizes of all chunks, in bytes.
    pub total_bytes: u64,
    /// Unix time of the end of the scan.
    pub scanned_at: i64,
}

/// Stores `stats` in the in-memory slot, replacing what was there.
pub fn save_stats_to_slot(slot: &mut Option<CompactionStats>, stats: CompactionStats)
    ensures
        *final(slot) == Some(stats),
{
    *slot = Some(stats);
}

/// The meta key of the orphaned byte count.
pub open spec fn key_orphaned() -> Seq<char> {
    seq!['c', 'o', 'm', 'p', 'a', 'c', 't', '_', 'o', 'r', 'p', 'h', 'a', 'n', 'e', 'd', '_', 'b', 'y', 't', 'e', 's']
}

/// The meta key of the total byte count.
pub open spec fn key_total() -> Seq<char> {
    seq!['c', 'o', 'm', 'p', 'a', 'c', 't', '_', 't', 'o', 't', 'a', 'l', '_', 'b', 'y', 't', 'e', 's']
}

/// The meta key of the scan time.
pub open spec fn key_scanned() -> Seq<char> {
    seq!['c', 'o', 'm', 'p', 'a', 'c', 't', '_', 's', 'c', 'a', 'n', 'n', 'e', 'd', '_', 'a', 't']
}

/// The value stored for a `u64` count: the count reinterpreted as `i64`
/// (as `as i64` does), in decimal.
pub open spec fn stored_count(n: u64) -> Seq<char> {
    int_digits(if n <= i64::MAX { n as int } else { n as int - 0x1_0000_0000_0000_0000 })
}

/// The `(key, value)` rows that persist `stats`.
pub fn stats_rows(stats: &CompactionStats) -> (r: Vec<(String, String)>)
    ensures
        r@.len() == 3,
        r@[0].0@ == key_orphaned() && r@[0].1@ == stored_count(stats.orphaned_bytes),
        r@[1].0@ == key_total() && r@[1].1@ == stored_count(stats.total_bytes),
        r@[2].0@ == key_scanned() && r@[2].1@ == int_digits(stats.scanned_at as int),
{
    let k1 = vec!['c', 'o', 'm', 'p', 'a', 'c', 't', '_', 'o', 'r', 'p', 'h', 'a', 'n', 'e', 'd', '_', 'b', 'y', 't', 'e', 's'];
    let k2 = vec!['c', 'o', 'm', 'p', 'a', 'c', 't', '_', 't', 'o', 't', 'a', 'l', '_', 'b', 'y', 't', 'e', 's'];
    let k3 = vec!['c', 'o', 'm', 'p', 'a', 'c', 't', '_', 's', 'c', 'a', 'n', 'n', 'e', 'd', '_', 'a', 't'];
    let key1 = crate::text::string_from_chars(&k1, 0, k1.len());
    let key2 = crate::text::string_from_chars(&k2, 0, k2.len());
    let key3 = crate::text::string_from_chars(&k3, 0, k3.len());
    assert(key1@ =~= key_orphaned());
    assert(key2@ =~= key_total());
    assert(key3@ =~= key_scanned());
    let mut v1 = String::new();
    push_i64(&mut v1, as_signed(stats.orphaned_bytes));
    let mut v2 = String::new();
    push_i64(&mut v2, as_signed(stats.total_bytes));
    let mut v3 = String::new();
    push_i64(&mut v3, stats.scanned_at);
    let mut r = Vec::new();
    r.push((key1, v1));
    r.push((key2, v2));
    r.push((key3, v3));
    r
}

/// `n as i64`.
pub fn as_signed(n: u64) -> (r: i64)
    ensures
        r as int == (if n <= i64::MAX { n as int } else { n as int - 0x1_0000_0000_0000_0000 }),
{
    if n <= i64::MAX as u64 {
        n as i64
    } else {
        let m: i128 = n as i128 - 0x1_0000_0000_0000_0000i128;
        m as i64
    }
}

/// `n as u64` for an `i64`.
pub open spec fn as_unsigned_spec(n: i64) -> u64 {
    (if n >= 0 { n as int } else { n as int + 0x1_0000_0000_0000_0000 }) as u64
}

/// Cached statistics from the three stored values, each parsed as an
/// `i64` (the byte counts reinterpreted as `u64`); none when any is missing
/// or does not parse.
pub open spec fn stats_from_values(orphaned: Option<Seq<char>>, total: Option<Seq<char>>, scanned: Option<Seq<char>>) -> Option<CompactionStats> {
    match (orphaned, total, scanned) {
        (Some(o), Some(t), Some(s)) => match (parse_i64_spec(o), parse_i64_spec(t), parse_i64_spec(s)) {
            (Some(a), Some(b), Some(c)) => Some(CompactionStats {
                orphaned_bytes: as_unsigned_spec(a),
                total_bytes: as_unsigned_spec(b),
                scanned_at: c,
            }),
            _ => None,
        },
        _ => None,
    }
}

/// A signed integer written in decimal (`int_digits`) parses back to
/// itself.
pub proof fn lemma_int_digits_parse(x: i64)
    ensures
        parse_i64_spec(int_digits(x as int)) == Some(x),
{
    if x < 0 {
        let m = (-(x as int)) as nat;
        crate::text::lemma_decimal_digits_value(m);
        crate::text::lemma_decimal_digits_len(m);
        let s = int_digits(x as int);
        assert(s.drop_first() =~= crate::text::decimal_digits(m));
        assert(s[0] == '-');
    } else {
        let d = crate::text::decimal_digits(x as nat);
        crate::text::lemma_decimal_digits_value(x as nat);
        crate::text::lemma_decimal_digits_len(x as nat);
        assert(crate::text::is_digit(d[0]));
    }
}

/// The stored statistics read back as they were: the three values that
/// `stats_rows` writes for `stats` give `stats` again through
/// `stats_from_values`, for every count and time.
pub proof fn lemma_stats_round_trip(stats: CompactionStats)
    ensures
        stats_from_values(
            Some(stored_count(stats.orphaned_bytes)),
            Some(stored_count(stats.total_bytes)),
            Some(int_digits(stats.scanned_at as int)),
        ) == Some(stats),
{
    lemma_stored_count_parse(stats.orphaned_bytes);
    lemma_stored_count_parse(stats.total_bytes);
    lemma_int_digits_parse(stats.scanned_at);
}

/// A stored count parses to the signed value whose reinterpretation is the
/// count.
proof fn lemma_stored_count_parse(n: u64)
    ensures
        parse_i64_spec(stored_count(n)) matches Some(y) && as_unsigned_spec(y) == n,
{
    let v: int = if n <= i64::MAX { n as int } else { n as int - 0x1_0000_0000_0000_0000 };
    let y: i64 = v as i64;
    assert(y as int == v);
    lemma_int_digits_parse(y);
}

/// Cached statistics from the three stored values (see
/// `stats_from_values`).
pub fn stats_from_rows(orphaned: Option<&str>, total: Option<&str>, scanned: Option<&str>) -> (r: Option<CompactionStats>)
    ensures
        r == stats_from_values(
            match orphaned { Some(o) => Some(o@), None => None },
            match total { Some(t) => Some(t@), None => None },
            match scanned { Some(s) => Some(s@), None => None },
        ),
{
    let (o, t, s) = match (orphaned, total, scanned) {
        (Some(o), Some(t), Some(s)) => (o, t, s),
        _ => return None,
    };
    let ov = to_chars(o);
    let tv = to_chars(t);
    let sv = to_chars(s);
    assert(ov@.subrange(0, ov@.len() as int) == o@);
    assert(tv@.subrange(0, tv@.len() as int) == t@);
    assert(sv@.subrange(0, sv@.len() as int) == s@);
    let a = parse_i64(&ov, 0, ov.len());
    let b = parse_i64(&tv, 0, tv.len());
    let c = parse_i64(&sv, 0, sv.len());
    match (a, b, c) {
        (Some(a), Some(b), Some(c)) => Some(CompactionStats {
            orphaned_bytes: as_unsigned(a),
            total_bytes: as_unsigned(b),
            scanned_at: c,
        }),
        _ => None,
    }
}

/// `n as u64` for an `i64` (exec).
pub fn as_unsigned(n: i64) -> (r: u64)
    ensures
        r == as_unsigned_spec(n),
{
    if n >= 0 {
        n as u64
    } else {
        let m: i128 = n as i128 + 0x1_0000_0000_0000_0000i128;
        m as u64
    }
}

// ── The server metadata database ─────────────────────────────────────────────

/// Opens (creating when absent) the server-wide metadata database at
/// `path`, creating its key/value table when missing.
pub fn open_server_db(path: &str) -> (r: Result<rusqlite::Connection, DbError>)
    ensures
        r is Ok ==> ran("CREATE TABLE IF NOT EXISTS meta (key TEXT PRIMARY KEY, value TEXT NOT NULL);"@, Seq::empty()),
{
    let conn = match open_plain(path) {
        Ok(c) => c,
        Err(e) => { return Err(e); },
    };
    match execute_batch(&conn, "CREATE TABLE IF NOT EXISTS meta (key TEXT PRIMARY KEY, value TEXT NOT NULL);") {
        Ok(()) => Ok(conn),
        Err(e) => Err(e),
    }
}

/// A stored value as read: present only when some rows of the meta query
/// held it.
pub open spec fn meta_read(key: Seq<char>, v: Option<Seq<char>>) -> bool {
    v is None || exists|rows: Seq<Seq<SqlCell>>| #[trigger] answered(meta_select_sql(), text1(key), rows) && optional_text(rows) == Some(v)
}

/// Reads the value stored under a meta key.
pub open spec fn meta_select_sql() -> Seq<char> {
    "SELECT value FROM meta WHERE key = ?1"@
}

/// Stores a value under a meta key.
pub open spec fn meta_upsert_sql() -> Seq<char> {
    "INSERT INTO meta(key, value) VALUES(?1, ?2) ON CONFLICT(key) DO UPDATE SET value = excluded.value"@
}

/// The values of a meta row.
pub open spec fn meta_params(key: Seq<char>, value: Seq<char>) -> Seq<ParamView> {
    seq![ParamView::Text(key), ParamView::Text(value)]
}

/// The value stored under `key`; none when absent or unreadable.
fn meta_value(conn: &rusqlite::Connection, key: &str) -> (r: Option<String>)
    ensures
        meta_read(key@, match r { Some(v) => Some(v@), None => None }),
{
    let params = text_param(key.to_owned());
    let rows = match query(conn, "SELECT value FROM meta WHERE key = ?1", &params) {
        Ok(rows) => rows,
        Err(_) => { return None; },
    };
    assert(param_views(params@) =~= text1(key@));
    match read_optional_text(&rows) {
        Ok(Some(v)) => {
            assert(optional_text(row_views(rows@)) == Some(Some(v@)));
            assert(answered(meta_select_sql(), text1(key@), row_views(rows@)));
            Some(v)
        },
        _ => None,
    }
}

/// The cached statistics of the last scan, from the three stored values
/// (see `stats_from_values`); none when any is missing or unreadable.
pub fn load_cached_stats(conn: &rusqlite::Connection) -> (r: Option<CompactionStats>)
    ensures
        exists|o: Option<Seq<char>>, t: Option<Seq<char>>, s: Option<Seq<char>>|
            #[trigger] stats_from_values(o, t, s) == r && meta_read(key_orphaned(), o) && meta_read(key_total(), t)
                && meta_read(key_scanned(), s),
{
    let o = meta_value(conn, "compact_orphaned_bytes");
    let t = meta_value(conn, "compact_total_bytes");
    let s = meta_value(conn, "compact_scanned_at");
    proof {
        reveal_strlit("compact_orphaned_bytes");
        reveal_strlit("compact_total_bytes");
        reveal_strlit("compact_scanned_at");
        assert("compact_orphaned_bytes"@ =~= key_orphaned());
        assert("compact_total_bytes"@ =~= key_total());
        assert("compact_scanned_at"@ =~= key_scanned());
    }
    let ov = match &o { Some(x) => Some(x.as_str()), None => None };
    let tv = match &t { Some(x) => Some(x.as_str()), None => None };
    let sv = match &s { Some(x) => Some(x.as_str()), None => None };
    let r = stats_from_rows(ov, tv, sv);
    proof {
        let a = match o { Some(x) => Some(x@), None => None };
        let b = match t { Some(x) => Some(x@), None => None };
        let c = match s { Some(x) => Some(x@), None => None };
        assert(stats_from_values(a, b, c) == r);
    }
    r
}

/// Stores `stats` as the three key/value rows of `stats_rows`, replacing
/// earlier values.
pub fn save_stats(conn: &rusqlite::Connection, stats: &CompactionStats) -> (r: Result<(), DbError>)
    ensures
        r is Ok ==> ran(meta_upsert_sql(), meta_params(key_orphaned(), stored_count(stats.orphaned_bytes)))
            && ran(meta_upsert_sql(), meta_params(key_total(), stored_count(stats.total_bytes)))
            && ran(meta_upsert_sql(), meta_params(key_scanned(), int_digits(stats.scanned_at as int))),
{
    let rows = stats_rows(stats);
    let mut i: usize = 0;
    while i < rows.len()
        invariant
            i <= rows@.len(),
            rows@.len() == 3,
            forall|j: int| 0 <= j < i ==> ran(meta_upsert_sql(), meta_params((#[trigger] rows@[j]).0@, rows@[j].1@)),
        decreases rows@.len() - i,
    {
        let mut params: Vec<crate::search::SqlValue> = Vec::new();
        params.push(crate::search::SqlValue::Text(rows[i].0.clone()));
        params.push(crate::search::SqlValue::Text(rows[i].1.clone()));
        match execute(
            conn,
            "INSERT INTO meta(key, value) VALUES(?1, ?2) ON CONFLICT(key) DO UPDATE SET value = excluded.value",
            &params,
        ) {
            Ok(_) => {},
            Err(e) => { return Err(e); },
        }
        assert(param_views(params@) =~= meta_params(rows@[i as int].0@, rows@[i as int].1@));
        i = i + 1;
    }
    assert(ran(meta_upsert_sql(), meta_params(rows@[0].0@, rows@[0].1@)));
    assert(ran(meta_upsert_sql(), meta_params(rows@[1].0@, rows@[1].1@)));
    assert(ran(meta_upsert_sql(), meta_params(rows@[2].0@, rows@[2].1@)));
    Ok(())
}

/// The texts in the first cells of `rows`, in order, rows whose first cell
/// is not text skipped.
pub open spec fn first_texts(rows: Seq<Seq<SqlCell>>) -> Seq<Seq<char>>
    decreases rows.len(),
{
    if rows.len() == 0 {
        Seq::empty()
    } else {
        match text_of(cell_at(rows.last(), 0)) {
            Some(t) => first_texts(rows.drop_last()).push(t),
            None => first_texts(rows.drop_last()),
        }
    }
}

/// The content keys a source database still uses: its distinct content
/// hashes (none when the query fails; unreadable rows skipped).
pub fn live_keys(conn: &rusqlite::Connection) -> (r: Vec<String>)
    ensures
        exists|rows: Seq<Seq<SqlCell>>| #[trigger] first_texts(rows) == r@.map_values(|k: String| k@),
        r@.len() > 0 ==> exists|rows: Seq<Seq<SqlCell>>| #[trigger] answered(live_keys_sql(), Seq::empty(), rows)
            && first_texts(rows) == r@.map_values(|k: String| k@),
{
    let none: Vec<crate::search::SqlValue> = Vec::new();
    assert(param_views(none@) =~= Seq::<ParamView>::empty());
    let rows = match query(conn, "SELECT DISTINCT content_hash FROM files WHERE content_hash IS NOT NULL", &none) {
        Ok(rows) => rows,
        Err(_) => {
            let r: Vec<String> = Vec::new();
            assert(first_texts(Seq::<Seq<SqlCell>>::empty()) =~= r@.map_values(|k: String| k@));
            return r;
        },
    };
    let ghost views = row_views(rows@);
    let mut out: Vec<String> = Vec::new();
    let mut i: usize = 0;
    while i < rows.len()
        invariant
            i <= rows@.len(),
            views == row_views(rows@),
            first_texts(views.subrange(0, i as int)) == out@.map_values(|k: String| k@),
        decreases rows@.len() - i,
    {
        let ghost before = views.subrange(0, i as int);
        let ghost after = views.subrange(0, i + 1);
        assert(after.drop_last() =~= before);
        assert(after.last() == rows@[i as int]@);
        match crate::db::get_text(&rows[i], 0) {
            Ok(k) => {
                let ghost old_out = out@;
                out.push(k);
                assert(out@.map_values(|k: String| k@) =~= old_out.map_values(|k: String| k@).push(k@));
            },
            Err(_) => {},
        }
        i = i + 1;
    }
    assert(views.subrange(0, rows@.len() as int) =~= views);
    assert(answered(live_keys_sql(), Seq::empty(), views));
    out
}

/// The query of the content hashes that files still use.
pub open spec fn live_keys_sql() -> Seq<char> {
    "SELECT DISTINCT content_hash FROM files WHERE content_hash IS NOT NULL"@
}

// ── Daily start time ─────────────────────────────────────────────────────────

/// An `HH:MM` time: the text before the first `:` and the text after it,
/// each trimmed and parsed as a number; hours 0–23, minutes 0–59.
pub open spec fn parse_hhmm_spec(s: Seq<char>) -> Option<(u32, u32)> {
    if has_char(s, ':') {
        let d = choose|d: int| first_index_of(s, ':', d);
        match (parse_u32_spec(trim(s.subrange(0, d))), parse_u32_spec(trim(s.subrange(d + 1, s.len() as int)))) {
            (Some(h), Some(m)) => if h > 23 || m > 59 { None } else { Some((h, m)) },
            _ => None,
        }
    } else {
        None
    }
}

/// Parses an `HH:MM` string into hours and minutes.
pub fn parse_hhmm(s: &str) -> (r: Option<(u32, u32)>)
    ensures
        r == parse_hhmm_spec(s@),
{
    let v = to_chars(s);
    let n = v.len();
    assert(v@.subrange(0, n as int) == v@);
    match find_char(&v, 0, n, ':') {
        None => {
            proof {
                if has_char(s@, ':') {
                    let j = choose|j: int| 0 <= j < s@.len() && s@[j] == ':';
                    assert(v@[j] == ':');
                }
            }
            None
        },
        Some(d) => {
            proof {
                assert(first_index_of(s@, ':', d as int));
                let e = choose|e: int| first_index_of(s@, ':', e);
                assert(e == d as int) by {
                    if e < d { assert(v@[e] == ':'); }
                    if e > d { assert(s@[d as int] == ':'); }
                }
            }
            let (a, b) = trim_bounds(&v, 0, d);
            let (c, e) = trim_bounds(&v, d + 1, n);
            match (parse_u32(&v, a, b), parse_u32(&v, c, e)) {
                (Some(h), Some(m)) => if h > 23 || m > 59 { None } else { Some((h, m)) },
                _ => None,
            }
        },
    }
}

} // verus!
