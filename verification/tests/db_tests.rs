use find_server::content::{
    context_window, file_hash_of, file_hashes, file_info, get_file_kind, hash_ranges, join_contents, line_at, page_range,
    resolve_pairs, uses_metadata_context,
};
use find_server::db::resolve_file_id;
use find_server::db::{
    append_scan_history, clear_errors_for_paths, count_files, delete_files, delete_files_phase1, do_cleanup_writes,
    file_basename, file_ext, get_fts_row_count, get_indexing_error, get_indexing_error_count, get_indexing_errors,
    get_last_scan, get_scan_history, get_stats, get_stats_by_ext, list_dir, list_files, log_activity, open,
    open_for_stats, recent_activity, recent_files, rename_files, schema_step, search_files, update_last_scan,
    upsert_files, upsert_indexing_errors, SchemaStep, SCHEMA_VERSION,
};
use find_server::db_search::{
    distinct_ids, document_candidates, fetch_aliases_for_canonical_ids, fetch_duplicates_for_file_ids, fts_candidates, fts_count,
    fts_statement, group_paths,
};
use find_server::db::version_step;
use find_server::search::SqlValue;
use find_server::index::{IndexFile, IndexLine};
use find_server::search::DateFilter;
use find_server::results::SearchMode;
use find_server::search_source::{search_source_docs, search_source_lines, search_source_start, SourcePlan};
use find_server::recent::recent_for_source;
use find_server::file_view::{file_indexing_error, file_meta, split_file_lines};
use find_server::http::ContextLine;
use find_server::compaction::{live_keys, load_cached_stats, open_server_db, save_stats, stats_from_rows, stats_rows, CompactionStats};

const SCHEMA: &str = "
CREATE TABLE files (
    id INTEGER PRIMARY KEY,
    path TEXT NOT NULL UNIQUE,
    mtime INTEGER NOT NULL,
    size INTEGER,
    kind TEXT NOT NULL DEFAULT 'unknown',
    scanner_version INTEGER NOT NULL DEFAULT 0,
    indexed_at INTEGER,
    extract_ms INTEGER,
    file_hash TEXT,
    line_count INTEGER
);
CREATE TABLE meta (key TEXT PRIMARY KEY, value TEXT NOT NULL);
CREATE TABLE activity_log (
    id INTEGER PRIMARY KEY AUTOINCREMENT,
    occurred_at INTEGER NOT NULL,
    action TEXT NOT NULL,
    path TEXT NOT NULL,
    new_path TEXT
);
CREATE TABLE indexing_errors (
    path TEXT PRIMARY KEY,
    error TEXT NOT NULL,
    first_seen INTEGER NOT NULL,
    last_seen INTEGER NOT NULL,
    count INTEGER NOT NULL DEFAULT 1
);
CREATE TABLE scan_history (
    id INTEGER PRIMARY KEY AUTOINCREMENT,
    scanned_at INTEGER NOT NULL,
    total_files INTEGER NOT NULL,
    total_size INTEGER NOT NULL,
    by_kind TEXT NOT NULL
);
CREATE TABLE duplicates (
    file_hash TEXT NOT NULL,
    file_id INTEGER NOT NULL REFERENCES files(id) ON DELETE CASCADE,
    PRIMARY KEY (file_hash, file_id)
);
CREATE VIRTUAL TABLE lines_fts USING fts5(content, content='', tokenize='trigram');
";

fn db() -> rusqlite::Connection {
    open(":memory:", SCHEMA).expect("open")
}

fn file(path: &str, mtime: i64, size: Option<i64>, kind: &str) -> IndexFile {
    IndexFile {
        path: path.to_string(),
        mtime,
        size,
        kind: kind.to_string(),
        lines: Vec::<IndexLine>::new(),
        extract_ms: None,
        content_hash: None,
        scanner_version: 3,
        is_new: true,
    }
}

fn id_of(conn: &rusqlite::Connection, path: &str) -> i64 {
    conn.query_row("SELECT id FROM files WHERE path = ?1", [path], |r| r.get(0)).unwrap()
}

fn fts_line(conn: &rusqlite::Connection, file_id: i64, line: i64, content: &str) {
    conn.execute(
        "INSERT INTO lines_fts(rowid, content) VALUES (?1, ?2)",
        (file_id * 1_000_000 + line, content),
    )
    .unwrap();
}

fn no_filter() -> DateFilter {
    DateFilter { from: None, to: None, kinds: vec![], filename_only: false, path_prefix: None }
}

#[test]
fn open_creates_schema_and_stamps_version() {
    let conn = db();
    let v: i64 = conn.query_row("PRAGMA user_version", [], |r| r.get(0)).unwrap();
    assert_eq!(v, SCHEMA_VERSION);
    assert_eq!(count_files(&conn).unwrap(), 0);
}

#[test]
fn schema_steps_by_version() {
    assert!(matches!(schema_step(0), SchemaStep::Create));
    assert!(matches!(schema_step(13), SchemaStep::Migrate));
    assert!(matches!(schema_step(14), SchemaStep::Current));
    assert!(matches!(schema_step(12), SchemaStep::Unsupported));
    assert!(matches!(schema_step(15), SchemaStep::Unsupported));
}

#[test]
fn open_for_stats_registers_functions() {
    let conn = open_for_stats(":memory:").unwrap();
    let b: String = conn.query_row("SELECT file_basename('a/b/c.TXT')", [], |r| r.get(0)).unwrap();
    let e: String = conn.query_row("SELECT file_ext('c.TXT')", [], |r| r.get(0)).unwrap();
    let none: String = conn.query_row("SELECT file_ext('Makefile')", [], |r| r.get(0)).unwrap();
    assert_eq!(b, "c.TXT");
    assert_eq!(e, "txt");
    assert_eq!(none, "");
}

#[test]
fn basename_and_extension_functions() {
    assert_eq!(file_basename("dir/sub/name.tar.GZ"), "name.tar.GZ");
    assert_eq!(file_basename("plain"), "plain");
    assert_eq!(file_basename("dir/"), "");
    assert_eq!(file_ext("name.tar.GZ"), "gz");
    assert_eq!(file_ext("name"), "");
    assert_eq!(file_ext("name."), "");
}

#[test]
fn upsert_then_list_and_search() {
    let conn = db();
    upsert_files(&conn, &vec![file("b/two.txt", 20, Some(5), "text"), file("a/one.rs", 10, None, "code")]).unwrap();
    // An upsert of an existing path updates it.
    upsert_files(&conn, &vec![file("a/one.rs", 11, Some(7), "code")]).unwrap();
    assert_eq!(count_files(&conn).unwrap(), 2);
    let all = list_files(&conn).unwrap();
    assert_eq!(all.len(), 2);
    assert_eq!(all[0].path, "a/one.rs");
    assert_eq!(all[0].mtime, 11);
    assert_eq!(all[0].kind, "code");
    assert_eq!(all[0].scanner_version, 3);
    assert_eq!(all[0].indexed_at, None);
    assert_eq!(all[1].path, "b/two.txt");
    let found = search_files(&conn, "TWO", 10).unwrap();
    assert_eq!(found.len(), 1);
    assert_eq!(found[0].path, "b/two.txt");
    assert_eq!(found[0].mtime, 0);
    assert_eq!(found[0].indexed_at, Some(0));
    assert_eq!(search_files(&conn, "", 1).unwrap().len(), 1);
}

#[test]
fn recent_files_skip_archive_members() {
    let conn = db();
    upsert_files(&conn, &vec![
        file("old.txt", 10, None, "text"),
        file("new.txt", 30, None, "text"),
        file("a.zip::inner.txt", 50, None, "text"),
    ])
    .unwrap();
    conn.execute("UPDATE files SET indexed_at = 5 WHERE path = 'new.txt'", []).unwrap();
    let by_mtime = recent_files(&conn, 10, true).unwrap();
    assert_eq!(by_mtime, vec![("new.txt".to_string(), 30), ("old.txt".to_string(), 10)]);
    let by_index = recent_files(&conn, 10, false).unwrap();
    assert_eq!(by_index, vec![("old.txt".to_string(), 10), ("new.txt".to_string(), 5)]);
    assert_eq!(recent_files(&conn, 1, true).unwrap().len(), 1);
}

#[test]
fn last_scan_round_trip() {
    let conn = db();
    assert_eq!(get_last_scan(&conn).unwrap(), None);
    update_last_scan(&conn, 1_700_000_000).unwrap();
    assert_eq!(get_last_scan(&conn).unwrap(), Some(1_700_000_000));
    update_last_scan(&conn, -5).unwrap();
    assert_eq!(get_last_scan(&conn).unwrap(), Some(-5));
    conn.execute("UPDATE meta SET value = 'soon' WHERE key = 'last_scan'", []).unwrap();
    assert_eq!(get_last_scan(&conn).unwrap(), None);
}

#[test]
fn activity_log_skips_members_and_prunes() {
    let conn = db();
    log_activity(
        &conn,
        100,
        &vec!["a.txt".to_string(), "x.zip::m.txt".to_string()],
        &vec!["b.txt".to_string()],
        &vec!["c.txt".to_string()],
        &vec![("d.txt".to_string(), "e.txt".to_string()), ("y.zip::1".to_string(), "y.zip::2".to_string())],
        0,
    )
    .unwrap();
    let rows = recent_activity(&conn, 10).unwrap();
    assert_eq!(rows.len(), 4);
    let actions: Vec<&str> = rows.iter().map(|r| r.0.as_str()).collect();
    assert!(actions.contains(&"added") && actions.contains(&"modified") && actions.contains(&"deleted"));
    let renamed = rows.iter().find(|r| r.0 == "renamed").unwrap();
    assert_eq!((renamed.1.as_str(), renamed.2.as_deref(), renamed.3), ("d.txt", Some("e.txt"), 100));
    // Pruning keeps the newest entries.
    log_activity(&conn, 200, &vec!["f.txt".to_string()], &vec![], &vec![], &vec![], 2).unwrap();
    let kept = recent_activity(&conn, 10).unwrap();
    assert_eq!(kept.len(), 2);
    assert_eq!(kept[0].1, "f.txt");
    // An empty batch writes nothing.
    log_activity(&conn, 300, &vec![], &vec![], &vec![], &vec![], 1).unwrap();
    assert_eq!(recent_activity(&conn, 10).unwrap().len(), 2);
}

#[test]
fn delete_phase1_reports_outer_statistics() {
    let conn = db();
    upsert_files(&conn, &vec![
        file("a.zip", 1, Some(100), "archive"),
        file("a.zip::in.txt", 1, Some(10), "text"),
        file("b.txt", 1, Some(7), "text"),
        file("c.txt", 1, None, "text"),
        file("keep.txt", 1, Some(1), "text"),
    ])
    .unwrap();
    upsert_indexing_errors(&conn, &vec![("a.zip::in.txt".to_string(), "bad".to_string()), ("b.txt".to_string(), "worse".to_string())], 5).unwrap();
    let d = delete_files_phase1(&conn, &vec!["a.zip".to_string(), "b.txt".to_string(), "c.txt".to_string(), "missing".to_string()]).unwrap();
    assert_eq!(d.files_removed, 3);
    assert_eq!(d.size_removed, 107);
    let mut by_kind = d.by_kind.clone();
    by_kind.sort();
    assert_eq!(by_kind, vec![("archive".to_string(), (1, 100)), ("text".to_string(), (2, 7))]);
    let left = list_files(&conn).unwrap();
    assert_eq!(left.len(), 1);
    assert_eq!(left[0].path, "keep.txt");
    assert_eq!(get_indexing_error_count(&conn).unwrap(), 0);
}

#[test]
fn delete_files_removes_members_and_unshared_duplicates() {
    let conn = db();
    upsert_files(&conn, &vec![file("x.zip", 1, None, "archive"), file("x.zip::m", 1, None, "text"), file("y.txt", 1, None, "text"), file("z.txt", 1, None, "text")]).unwrap();
    let y = id_of(&conn, "y.txt");
    let z = id_of(&conn, "z.txt");
    conn.execute("INSERT INTO duplicates (file_hash, file_id) VALUES ('h', ?1), ('h', ?2)", [y, z]).unwrap();
    delete_files(&conn, &vec!["x.zip".to_string(), "y.txt".to_string()]).unwrap();
    let left: Vec<String> = list_files(&conn).unwrap().into_iter().map(|f| f.path).collect();
    assert_eq!(left, vec!["z.txt".to_string()]);
    let dups: i64 = conn.query_row("SELECT COUNT(*) FROM duplicates", [], |r| r.get(0)).unwrap();
    assert_eq!(dups, 0);
}

#[test]
fn rename_moves_file_and_members() {
    let conn = db();
    upsert_files(&conn, &vec![file("old.zip", 1, None, "archive"), file("old.zip::a.txt", 1, None, "text"), file("taken.txt", 1, None, "text"), file("t.txt", 1, None, "text")]).unwrap();
    let id = id_of(&conn, "old.zip");
    fts_line(&conn, id, 0, "old.zip");
    rename_files(&conn, &vec![
        ("old.zip".to_string(), "new.zip".to_string()),
        ("t.txt".to_string(), "taken.txt".to_string()),
        ("nothing".to_string(), "else".to_string()),
    ])
    .unwrap();
    let paths: Vec<String> = list_files(&conn).unwrap().into_iter().map(|f| f.path).collect();
    assert_eq!(paths, vec!["new.zip".to_string(), "new.zip::a.txt".to_string(), "t.txt".to_string(), "taken.txt".to_string()]);
    assert_eq!(get_fts_row_count(&conn).unwrap(), 1);
}

#[test]
fn indexing_errors_upsert_count_and_clear() {
    let conn = db();
    upsert_indexing_errors(&conn, &vec![("p".to_string(), "e1".to_string())], 10).unwrap();
    upsert_indexing_errors(&conn, &vec![("p".to_string(), "e2".to_string()), ("q".to_string(), "e3".to_string())], 20).unwrap();
    assert_eq!(get_indexing_error_count(&conn).unwrap(), 2);
    assert_eq!(get_indexing_error(&conn, "p").unwrap(), Some("e2".to_string()));
    assert_eq!(get_indexing_error(&conn, "zz").unwrap(), None);
    let page = get_indexing_errors(&conn, 10, 0).unwrap();
    let p = page.iter().find(|e| e.path == "p").unwrap();
    assert_eq!((p.first_seen, p.last_seen, p.count), (10, 20, 2));
    clear_errors_for_paths(&conn, &vec!["p".to_string()]).unwrap();
    assert_eq!(get_indexing_error_count(&conn).unwrap(), 1);
    assert_eq!(get_indexing_errors(&conn, 10, 1).unwrap().len(), 0);
}

#[test]
fn stats_by_kind_and_extension() {
    let conn = db();
    upsert_files(&conn, &vec![
        file("a.TXT", 1, Some(3), "text"),
        file("b.txt", 1, Some(4), "text"),
        file("c.rs", 1, None, "code"),
        file("Makefile", 1, Some(1), "text"),
        file("z.zip::m.txt", 1, Some(100), "text"),
    ])
    .unwrap();
    let (files, size, mut kinds) = get_stats(&conn).unwrap();
    assert_eq!(files, 5);
    assert_eq!(size, 108);
    kinds.sort_by(|a, b| a.0.cmp(&b.0));
    assert_eq!(kinds.len(), 2);
    assert_eq!((kinds[0].0.as_str(), kinds[0].1.count, kinds[0].1.size), ("code", 1, 0));
    assert_eq!((kinds[1].0.as_str(), kinds[1].1.count, kinds[1].1.size), ("text", 4, 108));
    let exts = get_stats_by_ext(&conn).unwrap();
    assert_eq!(exts.len(), 2);
    assert_eq!((exts[0].ext.as_str(), exts[0].count, exts[0].size), ("txt", 2, 7));
    assert_eq!((exts[1].ext.as_str(), exts[1].count), ("rs", 1));
}

#[test]
fn cleanup_writes_snapshot_history() {
    let conn = db();
    upsert_files(&conn, &vec![file("a.txt", 1, Some(3), "text")]).unwrap();
    upsert_indexing_errors(&conn, &vec![("a.txt".to_string(), "old".to_string())], 1).unwrap();
    do_cleanup_writes(&conn, &vec!["a.txt".to_string()], &vec![("b.txt".to_string(), "new".to_string())], 9, Some(500)).unwrap();
    assert_eq!(get_indexing_error(&conn, "a.txt").unwrap(), None);
    assert_eq!(get_indexing_error(&conn, "b.txt").unwrap(), Some("new".to_string()));
    assert_eq!(get_last_scan(&conn).unwrap(), Some(500));
    append_scan_history(&conn, 400).unwrap();
    let h = get_scan_history(&conn, 10).unwrap();
    assert_eq!(h.len(), 2);
    assert_eq!((h[0].scanned_at, h[0].total_files, h[0].total_size), (400, 1, 3));
    assert_eq!(h[1].scanned_at, 500);
    let by_kind: String = conn.query_row("SELECT by_kind FROM scan_history WHERE scanned_at = 500", [], |r| r.get(0)).unwrap();
    let v: serde_json::Value = serde_json::from_str(&by_kind).unwrap();
    assert_eq!(v["text"]["count"], 1);
    assert_eq!(v["text"]["size"], 3);
    // Nothing to do writes nothing.
    do_cleanup_writes(&conn, &vec![], &vec![], 9, None).unwrap();
    assert_eq!(get_scan_history(&conn, 10).unwrap().len(), 2);
}

#[test]
fn list_dir_reads_rows_in_range() {
    let conn = db();
    upsert_files(&conn, &vec![
        file("src/main.rs", 5, Some(10), "code"),
        file("src/lib/mod.rs", 5, Some(1), "code"),
        file("srcx.txt", 5, Some(1), "text"),
        file("README", 6, None, "text"),
    ])
    .unwrap();
    let entries = list_dir(&conn, "src/").unwrap();
    let names: Vec<(String, String)> = entries.iter().map(|e| (e.name.clone(), e.entry_type.clone())).collect();
    assert_eq!(names, vec![("lib".to_string(), "dir".to_string()), ("main.rs".to_string(), "file".to_string())]);
    let root = list_dir(&conn, "").unwrap();
    let names: Vec<String> = root.iter().map(|e| e.name.clone()).collect();
    assert_eq!(names, vec!["src".to_string(), "README".to_string(), "srcx.txt".to_string()]);
}

#[test]
fn fts_count_and_candidates_with_filters() {
    let conn = db();
    upsert_files(&conn, &vec![file("docs/a.txt", 100, Some(1), "text"), file("b.zip::c.rs", 200, None, "code")]).unwrap();
    let a = id_of(&conn, "docs/a.txt");
    let c = id_of(&conn, "b.zip::c.rs");
    fts_line(&conn, a, 0, "docs/a.txt");
    fts_line(&conn, a, 2, "hello world");
    fts_line(&conn, c, 3, "say hello there");
    assert_eq!(fts_count(&conn, "hello", 100, false, &no_filter()).unwrap(), 2);
    assert_eq!(fts_count(&conn, "hello", 1, false, &no_filter()).unwrap(), 1);
    assert_eq!(fts_count(&conn, "hi", 100, false, &no_filter()).unwrap(), 0);
    let recent = DateFilter { from: Some(150), ..no_filter() };
    assert_eq!(fts_count(&conn, "hello", 100, false, &recent).unwrap(), 1);
    let mut rows = fts_candidates(&conn, "hello", 100, false, &no_filter()).unwrap();
    rows.sort_by_key(|r| r.file_id);
    assert_eq!(rows.len(), 2);
    assert_eq!((rows[0].file_path.as_str(), rows[0].archive_path.as_deref(), rows[0].line_number), ("docs/a.txt", None, 2));
    assert_eq!((rows[1].file_path.as_str(), rows[1].archive_path.as_deref(), rows[1].line_number), ("b.zip", Some("c.rs"), 3));
    assert!(rows.iter().all(|r| r.content.is_empty()));
    let code_only = DateFilter { kinds: vec!["code".to_string()], ..no_filter() };
    let rows = fts_candidates(&conn, "hello", 100, false, &code_only).unwrap();
    assert_eq!(rows.len(), 1);
    assert_eq!(rows[0].file_kind, "code");
    let names = DateFilter { filename_only: true, ..no_filter() };
    let rows = fts_candidates(&conn, "docs", 100, false, &names).unwrap();
    assert_eq!(rows.len(), 1);
    assert_eq!(rows[0].line_number, 0);
    let under = DateFilter { path_prefix: Some("docs".to_string()), ..no_filter() };
    let rows = fts_candidates(&conn, "hello", 100, false, &under).unwrap();
    assert_eq!(rows.len(), 1);
    assert_eq!(rows[0].file_path, "docs/a.txt");
    // No terms and a path prefix: the name rows of the files under it.
    let rows = fts_candidates(&conn, "", 100, false, &under).unwrap();
    assert_eq!(rows.len(), 1);
    assert_eq!((rows[0].file_path.as_str(), rows[0].line_number), ("docs/a.txt", 0));
    // No terms and no prefix: nothing.
    assert_eq!(fts_candidates(&conn, "", 100, false, &no_filter()).unwrap().len(), 0);
}

#[test]
fn document_candidates_need_every_token() {
    let conn = db();
    upsert_files(&conn, &vec![file("both.txt", 100, None, "text"), file("one.txt", 100, None, "text"), file("late.txt", 900, None, "text")]).unwrap();
    let both = id_of(&conn, "both.txt");
    let one = id_of(&conn, "one.txt");
    let late = id_of(&conn, "late.txt");
    fts_line(&conn, both, 2, "alpha here");
    fts_line(&conn, both, 3, "and beta there");
    fts_line(&conn, one, 2, "alpha only");
    fts_line(&conn, late, 2, "alpha beta");
    let (total, groups) = document_candidates(&conn, "alpha beta", 10, &no_filter()).unwrap();
    assert_eq!(total, 2);
    let mut ids: Vec<i64> = groups.iter().map(|g| g.representative.file_id).collect();
    ids.sort();
    let mut want = vec![both, late];
    want.sort();
    assert_eq!(ids, want);
    assert!(groups.iter().all(|g| g.members.is_empty() && g.representative.content.is_empty()));
    let early = DateFilter { to: Some(500), ..no_filter() };
    let (total, groups) = document_candidates(&conn, "alpha beta", 10, &early).unwrap();
    assert_eq!(total, 1);
    assert_eq!(groups.len(), 1);
    assert_eq!(groups[0].representative.file_path, "both.txt");
    let (total, groups) = document_candidates(&conn, "alpha beta", 1, &no_filter()).unwrap();
    assert_eq!((total, groups.len()), (2, 1));
    assert_eq!(document_candidates(&conn, "a b", 10, &no_filter()).unwrap().0, 0);
}

#[test]
fn duplicates_grouped_by_file() {
    let conn = db();
    upsert_files(&conn, &vec![file("a", 1, None, "text"), file("b", 1, None, "text"), file("c", 1, None, "text"), file("d", 1, None, "text")]).unwrap();
    let (a, b, c, d) = (id_of(&conn, "a"), id_of(&conn, "b"), id_of(&conn, "c"), id_of(&conn, "d"));
    conn.execute("INSERT INTO duplicates (file_hash, file_id) VALUES ('h', ?1), ('h', ?2), ('h', ?3), ('k', ?4)", [a, b, c, d]).unwrap();
    let g = fetch_duplicates_for_file_ids(&conn, &vec![a, d]).unwrap();
    assert_eq!(g, vec![(a, vec!["b".to_string(), "c".to_string()])]);
    assert_eq!(fetch_duplicates_for_file_ids(&conn, &vec![]).unwrap(), vec![]);
}

#[test]
fn grouping_and_distinct_ids() {
    let g = group_paths(&vec![(2, "x".to_string()), (1, "y".to_string()), (2, "z".to_string())]);
    assert_eq!(g, vec![(2, vec!["x".to_string(), "z".to_string()]), (1, vec!["y".to_string()])]);
    assert_eq!(distinct_ids(&vec![3, 1, 3, 2, 1]), vec![3, 1, 2]);
}

// ── content lookups ─────────────────────────────────────────────────────────


#[test]
fn content_hashes_and_file_info() {
    let conn = db();
    upsert_files(&conn, &vec![file("a.txt", 1, None, "text"), file("b.png", 1, None, "image")]).unwrap();
    let a = id_of(&conn, "a.txt");
    let b = id_of(&conn, "b.png");
    conn.execute("UPDATE files SET file_hash = 'h1', line_count = 7 WHERE id = ?1", [a]).unwrap();
    assert_eq!(file_hash_of(&conn, a, false), Some("h1".to_string()));
    assert_eq!(file_hash_of(&conn, a, true), Some("h1".to_string()));
    assert_eq!(file_hash_of(&conn, b, false), None);
    assert_eq!(file_hash_of(&conn, 9999, true), None);
    assert_eq!(file_info(&conn, a).unwrap(), (Some(7), Some("h1".to_string())));
    assert_eq!(file_info(&conn, b).unwrap(), (None, None));
    assert_eq!(file_info(&conn, 9999).unwrap(), (None, None));
    assert_eq!(file_hashes(&conn, &vec![a, b, 9999]), vec![(a, "h1".to_string())]);
    assert_eq!(file_hashes(&conn, &vec![]), vec![]);
    assert_eq!(get_file_kind(&conn, "b.png").unwrap(), "image");
    assert!(get_file_kind(&conn, "nope").is_err());
    assert_eq!(resolve_file_id(&conn, "a.txt").unwrap(), Some(a));
    assert_eq!(resolve_file_id(&conn, "zzz").unwrap(), None);
    assert!(uses_metadata_context("image") && uses_metadata_context("audio") && !uses_metadata_context("text"));
}

#[test]
fn batch_ranges_and_answers() {
    let hashes = vec![(1, "h1".to_string()), (2, "h2".to_string()), (3, "h1".to_string())];
    let pairs = vec![(1, 5), (3, 2), (2, 9), (4, 1), (1, 5)];
    let mut ranges = hash_ranges(&pairs, &hashes);
    ranges.sort();
    assert_eq!(ranges, vec![("h1".to_string(), 2, 5), ("h2".to_string(), 9, 9)]);
    let fetched = vec![
        ("h1".to_string(), vec![(2, "two".to_string()), (5, "five".to_string())]),
        ("h2".to_string(), vec![(9, "".to_string())]),
    ];
    let answers = resolve_pairs(&pairs, &hashes, &fetched);
    assert_eq!(answers, vec![((1, 5), "five".to_string()), ((3, 2), "two".to_string())]);
}

#[test]
fn lines_joins_windows_and_pages() {
    let lines = vec![(0, "a".to_string()), (3, "b".to_string()), (3, "c".to_string())];
    assert_eq!(line_at(&lines, 3), Some("b".to_string()));
    assert_eq!(line_at(&lines, 1), None);
    assert_eq!(join_contents(&lines), "a\nb\nc");
    assert_eq!(join_contents(&vec![]), "");
    assert_eq!(context_window(5, 2), (3, 7));
    assert_eq!(context_window(1, 4), (0, 5));
    assert_eq!(page_range(Some(10), 3, Some(4)), (5, 9, 8));
    assert_eq!(page_range(Some(10), 3, Some(40)), (5, 10, 8));
    assert_eq!(page_range(None, 0, None), (2, 0, 0));
    assert_eq!(page_range(Some(1), 0, None), (2, 1, 0));
}

// ── one source's search ─────────────────────────────────────────────────────

fn search_db() -> (rusqlite::Connection, i64, i64) {
    let conn = db();
    upsert_files(&conn, &vec![file("notes.txt", 100, Some(10), "text"), file("main.rs", 200, Some(20), "code")]).unwrap();
    let notes = id_of(&conn, "notes.txt");
    let main = id_of(&conn, "main.rs");
    fts_line(&conn, notes, 0, "notes.txt");
    fts_line(&conn, notes, 4, "hello world");
    fts_line(&conn, main, 0, "main.rs");
    fts_line(&conn, main, 7, "fn hello_there()");
    (conn, notes, main)
}

fn paths_and_lines(results: &[find_server::results::SearchResult]) -> Vec<(String, usize)> {
    let mut v: Vec<(String, usize)> = results.iter().map(|r| (r.path.clone(), r.line_number)).collect();
    v.sort();
    v
}

#[test]
fn exact_search_of_a_source_finishes_in_one_step() {
    let (conn, _, _) = search_db();
    let plan = search_source_start(&conn, "src", SearchMode::Exact, "hello", false, 100, None, None, &vec![]).unwrap();
    match plan {
        SourcePlan::Done(total, results) => {
            assert_eq!(total, 2);
            assert_eq!(paths_and_lines(&results), vec![("main.rs".to_string(), 7), ("notes.txt".to_string(), 4)]);
            assert!(results.iter().all(|r| r.source == "src"));
        }
        _ => panic!("exact mode finishes in the first step"),
    }
    // The kind filter reaches the full-text query.
    match search_source_start(&conn, "src", SearchMode::Exact, "hello", false, 100, None, None, &vec!["code".to_string()]).unwrap() {
        SourcePlan::Done(total, results) => {
            assert_eq!(total, 1);
            assert_eq!(results[0].path, "main.rs");
            assert_eq!(results[0].kind, "code");
        }
        _ => panic!("exact mode finishes in the first step"),
    }
}

#[test]
fn document_exact_search_groups_by_file() {
    let (conn, _, _) = search_db();
    match search_source_start(&conn, "src", SearchMode::DocExact, "hello", false, 100, None, None, &vec![]).unwrap() {
        SourcePlan::Done(total, results) => {
            assert_eq!(total, 2);
            let mut paths: Vec<String> = results.iter().map(|r| r.path.clone()).collect();
            paths.sort();
            assert_eq!(paths, vec!["main.rs".to_string(), "notes.txt".to_string()]);
        }
        _ => panic!("document-exact mode finishes in the first step"),
    }
}

#[test]
fn regex_search_loads_lines_then_matches() {
    let (conn, notes, main) = search_db();
    let candidates = match search_source_start(&conn, "src", SearchMode::Regex, "hel+o_", false, 100, None, None, &vec![]).unwrap() {
        SourcePlan::NeedLines(c) => c,
        _ => panic!("regex mode needs the candidates' lines"),
    };
    let contents: Vec<String> = candidates
        .iter()
        .map(|c| match (c.file_id, c.line_number) {
            (id, 4) if id == notes => "hello world".to_string(),
            (id, 7) if id == main => "fn hello_there()".to_string(),
            _ => String::new(),
        })
        .collect();
    let (total, results) = search_source_lines(&conn, "src", SearchMode::Regex, "hel+o_", false, &candidates, &contents).unwrap();
    assert_eq!(total, 1);
    assert_eq!(paths_and_lines(&results), vec![("main.rs".to_string(), 7)]);
    assert_eq!(results[0].snippet, "fn hello_there()");
    // An invalid expression is refused at the second step too.
    assert!(search_source_lines(&conn, "src", SearchMode::Regex, "(", false, &candidates, &contents).is_err());
}

#[test]
fn document_regex_search_loads_documents_then_matches() {
    let (conn, notes, _) = search_db();
    let groups = match search_source_start(&conn, "src", SearchMode::DocRegex, "hello.world", false, 100, None, None, &vec![]).unwrap() {
        SourcePlan::NeedDocs(g) => g,
        _ => panic!("document-regex mode needs the files' text"),
    };
    let docs: Vec<String> = groups
        .iter()
        .map(|g| if g.representative.file_id == notes { "intro\nhello world\n".to_string() } else { "fn hello_there()\n".to_string() })
        .collect();
    let (total, results) = search_source_docs(&conn, "src", "hello.world", false, &groups, &docs).unwrap();
    assert_eq!(total, 1);
    assert_eq!(results[0].path, "notes.txt");
    assert_eq!(results[0].score, 0);
    // An invalid expression fails before any query.
    assert!(search_source_start(&conn, "src", SearchMode::DocRegex, "(", false, 100, None, None, &vec![]).is_err());
}

#[test]
fn document_search_of_a_source_finishes_in_one_step() {
    let (conn, _, _) = search_db();
    match search_source_start(&conn, "src", SearchMode::Document, "hello world", false, 10, None, None, &vec![]).unwrap() {
        SourcePlan::Done(total, results) => {
            assert_eq!(total, 1);
            assert_eq!(results.len(), 1);
            assert_eq!(results[0].path, "notes.txt");
        }
        _ => panic!("document mode finishes in the first step"),
    }
}

#[test]
fn recent_entries_of_one_source() {
    let conn = db();
    upsert_files(&conn, &vec![file("old.txt", 100, None, "text"), file("new.txt", 300, None, "text"), file("z.zip::m", 500, None, "text")]).unwrap();
    let by_mtime = recent_for_source(&conn, "docs", 10, true).unwrap();
    let got: Vec<(String, String, i64, String)> =
        by_mtime.iter().map(|f| (f.source.clone(), f.path.clone(), f.indexed_at, f.action.clone())).collect();
    assert_eq!(
        got,
        vec![
            ("docs".to_string(), "new.txt".to_string(), 300, "modified".to_string()),
            ("docs".to_string(), "old.txt".to_string(), 100, "modified".to_string()),
        ]
    );
    log_activity(&conn, 1000, &vec!["new.txt".to_string()], &vec![], &vec![], &vec![], 100).unwrap();
    let by_activity = recent_for_source(&conn, "docs", 10, false).unwrap();
    assert_eq!(by_activity.len(), 1);
    assert_eq!((by_activity[0].action.as_str(), by_activity[0].path.as_str(), by_activity[0].indexed_at), ("added", "new.txt", 1000));
}

// ── file answers ────────────────────────────────────────────────────────────

fn cl(n: usize, s: &str) -> ContextLine {
    ContextLine { line_number: n, content: s.to_string() }
}

#[test]
fn file_lines_split_metadata_from_content() {
    let v = split_file_lines(vec![cl(0, "[PATH] a/b.txt"), cl(0, "size: 3"), cl(1, "one"), cl(2, "two")]);
    assert_eq!(v.metadata, vec!["a/b.txt".to_string(), "size: 3".to_string()]);
    assert_eq!(v.lines, vec!["one".to_string(), "two".to_string()]);
    assert!(v.line_offsets.is_empty());
    // A page that does not start at line 1 carries its line numbers.
    let v = split_file_lines(vec![cl(0, "[PATH] a"), cl(5, "five"), cl(6, "six")]);
    assert_eq!(v.lines, vec!["five".to_string(), "six".to_string()]);
    assert_eq!(v.line_offsets, vec![5, 6]);
    let v = split_file_lines(vec![]);
    assert!(v.lines.is_empty() && v.metadata.is_empty() && v.line_offsets.is_empty());
}

#[test]
fn file_meta_falls_back_to_text() {
    let conn = db();
    upsert_files(&conn, &vec![file("a.png", 77, Some(9), "image"), file("b.txt", 5, None, "text")]).unwrap();
    assert_eq!(file_meta(&conn, "a.png"), ("image".to_string(), Some(77), Some(9)));
    assert_eq!(file_meta(&conn, "b.txt"), ("text".to_string(), Some(5), None));
    assert_eq!(file_meta(&conn, "missing"), ("text".to_string(), None, None));
}

#[test]
fn member_errors_fall_back_to_their_archive() {
    let conn = db();
    upsert_indexing_errors(&conn, &vec![("a.zip".to_string(), "corrupt".to_string()), ("b.zip::x".to_string(), "own".to_string())], 5).unwrap();
    assert_eq!(file_indexing_error(&conn, "a.zip::inner.txt").unwrap(), Some("corrupt".to_string()));
    assert_eq!(file_indexing_error(&conn, "b.zip::x").unwrap(), Some("own".to_string()));
    assert_eq!(file_indexing_error(&conn, "b.zip::y").unwrap(), None);
    assert_eq!(file_indexing_error(&conn, "plain.txt").unwrap(), None);
}

// ── compaction statistics ───────────────────────────────────────────────────

#[test]
fn compaction_stats_round_trip_through_the_server_db() {
    let conn = open_server_db(":memory:").unwrap();
    assert!(load_cached_stats(&conn).is_none());
    let stats = CompactionStats { orphaned_bytes: 1234, total_bytes: 99999, scanned_at: 1_700_000_000 };
    save_stats(&conn, &stats).unwrap();
    let back = load_cached_stats(&conn).unwrap();
    assert_eq!((back.orphaned_bytes, back.total_bytes, back.scanned_at), (1234, 99999, 1_700_000_000));
    // A later save replaces the values.
    save_stats(&conn, &CompactionStats { orphaned_bytes: 0, total_bytes: 5, scanned_at: 7 }).unwrap();
    let back = load_cached_stats(&conn).unwrap();
    assert_eq!((back.orphaned_bytes, back.total_bytes, back.scanned_at), (0, 5, 7));
    // A value that does not parse leaves no statistics.
    conn.execute("UPDATE meta SET value = 'x' WHERE key = 'compact_total_bytes'", []).unwrap();
    assert!(load_cached_stats(&conn).is_none());
}

#[test]
fn compaction_stats_rows_and_values() {
    let rows = stats_rows(&CompactionStats { orphaned_bytes: u64::MAX, total_bytes: 3, scanned_at: -1 });
    assert_eq!(rows[0], ("compact_orphaned_bytes".to_string(), "-1".to_string()));
    assert_eq!(rows[1], ("compact_total_bytes".to_string(), "3".to_string()));
    assert_eq!(rows[2], ("compact_scanned_at".to_string(), "-1".to_string()));
    let s = stats_from_rows(Some("-1"), Some("3"), Some("-1")).unwrap();
    assert_eq!((s.orphaned_bytes, s.total_bytes, s.scanned_at), (u64::MAX, 3, -1));
    assert!(stats_from_rows(Some("1"), None, Some("2")).is_none());
}

#[test]
fn live_keys_are_the_distinct_content_hashes() {
    let conn = open(":memory:", "CREATE TABLE files (id INTEGER PRIMARY KEY, path TEXT, content_hash TEXT);").unwrap();
    conn.execute_batch(
        "INSERT INTO files (path, content_hash) VALUES ('a', 'h1'), ('b', 'h2'), ('c', 'h1'), ('d', NULL);",
    )
    .unwrap();
    let mut keys = live_keys(&conn);
    keys.sort();
    assert_eq!(keys, vec!["h1".to_string(), "h2".to_string()]);
    // A database without the column gives none.
    assert!(live_keys(&db()).is_empty());
}

#[test]
fn source_stats_read_from_the_database() {
    let conn = db();
    upsert_files(&conn, &vec![file("a.txt", 1, Some(10), "text"), file("b.txt", 1, Some(5), "text"), file("c.rs", 1, Some(7), "code")]).unwrap();
    fts_line(&conn, 1, 0, "a.txt");
    let s = find_server::stats::source_stats(&conn, "docs".to_string());
    assert_eq!((s.name.as_str(), s.total_files, s.total_size, s.fts_row_count), ("docs", 3, 22, 1));
    let mut kinds: Vec<(String, usize, i64)> = s.by_kind.iter().map(|(k, c)| (k.clone(), c.count, c.size)).collect();
    kinds.sort();
    assert_eq!(kinds, vec![("code".to_string(), 1, 7), ("text".to_string(), 2, 15)]);
    assert_eq!(s.by_ext.len(), 2);
    assert_eq!((s.by_ext[0].ext.as_str(), s.by_ext[0].count), ("txt", 2));
}

#[test]
fn ordinary_errors_are_not_locks() {
    let conn = db();
    let e = find_server::db::search_files(&conn, "x", 10).err();
    assert!(e.is_none());
    let e = open_server_db("/nonexistent-dir/for/sure/server.db").err().unwrap();
    assert!(!find_server::db::is_db_locked(&e));
    let locked = find_server::db::DbError { message: "database is locked".to_string(), locked: true };
    assert!(find_server::db::is_db_locked(&locked));
}

fn plain_filter() -> DateFilter {
    DateFilter { from: None, to: None, kinds: vec![], filename_only: false, path_prefix: None }
}

#[test]
fn fts_statement_binds_query_limit_and_filters() {
    assert!(fts_statement("", 10, true, &plain_filter()).is_none());
    let (sql, params) = fts_statement("hello", 10, true, &plain_filter()).unwrap();
    assert!(sql.contains("MATCH ?1"));
    assert_eq!(params.len(), 2);
    assert!(matches!(&params[0], SqlValue::Text(q) if q.contains("hello")));
    assert!(matches!(params[1], SqlValue::Integer(10)));
    let filtered = DateFilter { from: Some(5), to: Some(9), kinds: vec!["text".to_string()], filename_only: false, path_prefix: None };
    let (sql, params) = fts_statement("hello", 7, true, &filtered).unwrap();
    assert!(sql.contains("BETWEEN ?3 AND ?4"));
    assert!(matches!(params[1], SqlValue::Integer(7)));
    assert!(matches!(params[2], SqlValue::Integer(5)));
    assert!(matches!(params[3], SqlValue::Integer(9)));
    assert!(matches!(&params[4], SqlValue::Text(k) if k == "text"));
    let prefixed = DateFilter { from: None, to: None, kinds: vec![], filename_only: false, path_prefix: Some("/docs".to_string()) };
    let (sql, params) = fts_statement("", 3, true, &prefixed).unwrap();
    assert!(sql.contains("f.path = ?1"));
    assert!(matches!(&params[0], SqlValue::Text(p) if p == "/docs"));
    assert!(matches!(&params[1], SqlValue::Text(p) if p == "/docs/%"));
    assert!(matches!(params[2], SqlValue::Integer(3)));
}

#[test]
fn root_listing_includes_paths_above_u_ffff() {
    let conn = rusqlite::Connection::open_in_memory().unwrap();
    conn.execute_batch(
        "CREATE TABLE files (id INTEGER PRIMARY KEY, path TEXT NOT NULL UNIQUE, mtime INTEGER NOT NULL, size INTEGER, kind TEXT NOT NULL DEFAULT 'text');
         INSERT INTO files (path, mtime, size, kind) VALUES ('a.txt', 1, 2, 'text');
         INSERT INTO files (path, mtime, size, kind) VALUES ('\u{1F600}.txt', 1, 2, 'text');",
    )
    .unwrap();
    let entries = list_dir(&conn, "").unwrap();
    let names: Vec<&str> = entries.iter().map(|e| e.name.as_str()).collect();
    assert_eq!(names, vec!["a.txt", "\u{1F600}.txt"]);
}

#[test]
fn aliases_are_grouped_by_canonical_file() {
    let conn = rusqlite::Connection::open_in_memory().unwrap();
    conn.execute_batch(
        "CREATE TABLE files (id INTEGER PRIMARY KEY, path TEXT NOT NULL UNIQUE, canonical_file_id INTEGER);
         INSERT INTO files (id, path, canonical_file_id) VALUES (1, 'a.txt', NULL);
         INSERT INTO files (id, path, canonical_file_id) VALUES (2, 'z.txt', 1);
         INSERT INTO files (id, path, canonical_file_id) VALUES (3, 'b.txt', 1);
         INSERT INTO files (id, path, canonical_file_id) VALUES (4, 'c.txt', NULL);",
    )
    .unwrap();
    assert!(fetch_aliases_for_canonical_ids(&conn, &vec![]).unwrap().is_empty());
    let g = fetch_aliases_for_canonical_ids(&conn, &vec![1, 4, 1]).unwrap();
    assert_eq!(g, vec![(1, vec!["b.txt".to_string(), "z.txt".to_string()])]);
}

#[test]
fn unsupported_schema_versions_are_refused() {
    let e = version_step(7, "/d/s.db").err().unwrap();
    assert_eq!(e.message, "database schema is v7 but this server requires v14. Delete /d/s.db and re-run find-scan to rebuild.");
    assert!(matches!(version_step(0, "x"), Ok(SchemaStep::Create)));
    assert!(matches!(version_step(13, "x"), Ok(SchemaStep::Migrate)));
    assert!(matches!(version_step(14, "x"), Ok(SchemaStep::Current)));
}
