use find_server::archive::{ChunkRef, LineMapping};
use find_server::index::{IndexFile, IndexLine};
use find_server::session::Session;
use find_server::indexing::{
    process_request_phase1, archive_candidate, process_file_phase1_fallback, store_line_refs, take_pending_chunk_removes,
    candidate_decision, request_plan, BulkRequest, RequestStep,
};

const SCHEMA: &str = "
CREATE TABLE files (
    id INTEGER PRIMARY KEY,
    path TEXT NOT NULL UNIQUE,
    mtime INTEGER NOT NULL,
    size INTEGER,
    kind TEXT NOT NULL DEFAULT 'unknown',
    scanner_version INTEGER NOT NULL DEFAULT 0,
    indexed_at INTEGER,
    extract_ms INTEGER,
    content_hash TEXT,
    canonical_file_id INTEGER
);
CREATE TABLE lines (
    id INTEGER PRIMARY KEY,
    file_id INTEGER NOT NULL,
    line_number INTEGER NOT NULL,
    chunk_archive TEXT,
    chunk_name TEXT,
    line_offset_in_chunk INTEGER
);
CREATE TABLE file_content (file_id INTEGER PRIMARY KEY, content TEXT NOT NULL);
CREATE TABLE pending_chunk_removes (archive_name TEXT NOT NULL, chunk_name TEXT NOT NULL);
CREATE TABLE meta (key TEXT PRIMARY KEY, value TEXT NOT NULL);
CREATE TABLE activity_log (id INTEGER PRIMARY KEY AUTOINCREMENT, occurred_at INTEGER NOT NULL, action TEXT NOT NULL, path TEXT NOT NULL, new_path TEXT);
CREATE TABLE indexing_errors (path TEXT PRIMARY KEY, error TEXT NOT NULL, first_seen INTEGER NOT NULL, last_seen INTEGER NOT NULL, count INTEGER NOT NULL DEFAULT 1);
CREATE TABLE scan_history (id INTEGER PRIMARY KEY AUTOINCREMENT, scanned_at INTEGER NOT NULL, total_files INTEGER NOT NULL, total_size INTEGER NOT NULL, by_kind TEXT NOT NULL);
CREATE TABLE duplicates (file_hash TEXT NOT NULL, file_id INTEGER NOT NULL, PRIMARY KEY (file_hash, file_id));
CREATE VIRTUAL TABLE lines_fts USING fts5(content, content='', tokenize='trigram');
CREATE TRIGGER refuse_line_99 BEFORE INSERT ON lines WHEN NEW.line_number = 99 BEGIN SELECT RAISE(ABORT, 'line 99 refused'); END;
";

fn db() -> rusqlite::Connection {
    let conn = rusqlite::Connection::open_in_memory().unwrap();
    conn.execute_batch(SCHEMA).unwrap();
    conn
}

fn line(n: usize, content: &str) -> IndexLine {
    IndexLine { archive_path: None, line_number: n, content: content.to_string() }
}

fn file(path: &str, mtime: i64, kind: &str, lines: Vec<IndexLine>) -> IndexFile {
    IndexFile {
        path: path.to_string(),
        mtime,
        size: Some(10),
        kind: kind.to_string(),
        lines,
        extract_ms: Some(5),
        content_hash: None,
        scanner_version: 1,
        is_new: true,
    }
}

fn count(conn: &rusqlite::Connection, sql: &str) -> i64 {
    conn.query_row(sql, [], |r| r.get(0)).unwrap()
}

fn id_of(conn: &rusqlite::Connection, path: &str) -> i64 {
    conn.query_row("SELECT id FROM files WHERE path = ?1", [path], |r| r.get(0)).unwrap()
}

#[test]
fn index_file_writes_sorted_lines_and_fts() {
    let conn = db();
    let f = file("a.txt", 100, "text", vec![line(3, "third"), line(0, "a.txt"), line(2, "second")]);
    process_file_phase1_fallback(&mut Session::new(&conn), &f, false, 0, 777).unwrap();
    let id = id_of(&conn, "a.txt");
    let nums: Vec<i64> = conn
        .prepare("SELECT line_number FROM lines WHERE file_id = ?1 ORDER BY id")
        .unwrap()
        .query_map([id], |r| r.get(0))
        .unwrap()
        .map(|x| x.unwrap())
        .collect();
    assert_eq!(nums, vec![0, 2, 3]);
    assert_eq!(count(&conn, "SELECT COUNT(*) FROM lines_fts"), 3);
    assert_eq!(count(&conn, "SELECT indexed_at FROM files"), 777);
    assert_eq!(count(&conn, "SELECT COUNT(*) FROM file_content"), 0);
    // Indexing again replaces the lines.
    let g = file("a.txt", 200, "text", vec![line(0, "a.txt")]);
    process_file_phase1_fallback(&mut Session::new(&conn), &g, false, 0, 778).unwrap();
    assert_eq!(count(&conn, "SELECT COUNT(*) FROM lines"), 1);
    assert_eq!(count(&conn, "SELECT mtime FROM files"), 200);
}

#[test]
fn small_content_is_stored_inline_with_offsets() {
    let conn = db();
    let f = file("s.txt", 100, "text", vec![line(2, "bb"), line(1, "aa")]);
    process_file_phase1_fallback(&mut Session::new(&conn), &f, false, 1000, 1).unwrap();
    let text: String = conn.query_row("SELECT content FROM file_content", [], |r| r.get(0)).unwrap();
    assert_eq!(text, "aa\nbb");
    let offs: Vec<(i64, i64)> = conn
        .prepare("SELECT line_number, line_offset_in_chunk FROM lines ORDER BY line_number")
        .unwrap()
        .query_map([], |r| Ok((r.get(0)?, r.get(1)?)))
        .unwrap()
        .map(|x| x.unwrap())
        .collect();
    assert_eq!(offs, vec![(1, 0), (2, 1)]);
}

#[test]
fn stale_upserts_are_skipped() {
    let conn = db();
    process_file_phase1_fallback(&mut Session::new(&conn), &file("a.txt", 100, "text", vec![line(0, "a.txt")]), false, 0, 1).unwrap();
    process_file_phase1_fallback(&mut Session::new(&conn), &file("a.txt", 50, "text", vec![line(0, "x"), line(2, "y")]), false, 0, 2).unwrap();
    assert_eq!(count(&conn, "SELECT mtime FROM files"), 100);
    assert_eq!(count(&conn, "SELECT COUNT(*) FROM lines"), 1);
}

#[test]
fn same_content_becomes_an_alias() {
    let conn = db();
    let mut a = file("a.txt", 100, "text", vec![line(0, "a.txt"), line(2, "same")]);
    a.content_hash = Some("h".to_string());
    let mut b = file("b.txt", 100, "text", vec![line(0, "b.txt"), line(2, "same")]);
    b.content_hash = Some("h".to_string());
    process_file_phase1_fallback(&mut Session::new(&conn), &a, false, 0, 1).unwrap();
    process_file_phase1_fallback(&mut Session::new(&conn), &b, false, 0, 1).unwrap();
    let a_id = id_of(&conn, "a.txt");
    let canon: i64 = conn.query_row("SELECT canonical_file_id FROM files WHERE path = 'b.txt'", [], |r| r.get(0)).unwrap();
    assert_eq!(canon, a_id);
    assert_eq!(count(&conn, "SELECT COUNT(*) FROM lines"), 2);
}

#[test]
fn archive_placeholder_drops_members_and_queues_chunks() {
    let conn = db();
    process_file_phase1_fallback(&mut Session::new(&conn), &file("z.zip::in.txt", 5, "text", vec![line(0, "in"), line(2, "x")]), false, 0, 1).unwrap();
    conn.execute("UPDATE lines SET chunk_archive = 'content_00001.zip', chunk_name = '1.0'", []).unwrap();
    process_file_phase1_fallback(&mut Session::new(&conn), &file("z.zip", 0, "archive", vec![line(0, "z.zip")]), false, 0, 2).unwrap();
    assert_eq!(count(&conn, "SELECT COUNT(*) FROM files WHERE path LIKE 'z.zip::%'"), 0);
    assert_eq!(count(&conn, "SELECT COUNT(*) FROM pending_chunk_removes"), 1);
    // With the inner delete skipped, members stay.
    process_file_phase1_fallback(&mut Session::new(&conn), &file("y.zip::m", 5, "text", vec![line(0, "m")]), false, 0, 1).unwrap();
    process_file_phase1_fallback(&mut Session::new(&conn), &file("y.zip", 0, "archive", vec![line(0, "y.zip")]), true, 0, 2).unwrap();
    assert_eq!(count(&conn, "SELECT COUNT(*) FROM files WHERE path = 'y.zip::m'"), 1);
}

#[test]
fn request_indexes_files_and_falls_back_on_failure() {
    let conn = db();
    process_file_phase1_fallback(&mut Session::new(&conn), &file("gone.txt", 5, "text", vec![line(0, "gone.txt")]), false, 0, 1).unwrap();
    process_file_phase1_fallback(&mut Session::new(&conn), &file("old.txt", 5, "text", vec![line(0, "old.txt")]), false, 0, 1).unwrap();
    let mut changed = file("mod.txt", 9, "text", vec![line(0, "mod.txt")]);
    changed.is_new = false;
    let request = BulkRequest {
        source: "src".to_string(),
        files: vec![
            file("new.txt", 9, "text", vec![line(0, "new.txt"), line(2, "hello")]),
            file("bad.txt", 9, "text", vec![line(0, "bad.txt"), line(99, "refused")]),
            changed,
            file("arc.zip::m.txt", 9, "text", vec![line(0, "m")]),
        ],
        delete_paths: vec!["gone.txt".to_string()],
        rename_paths: vec![("old.txt".to_string(), "renamed.txt".to_string())],
        indexing_failures: vec![("client.txt".to_string(), "unreadable".to_string())],
        scan_timestamp: Some(1234),
    };
    let s = process_request_phase1(&mut Session::new(&conn), &request, 0, 100, 50).unwrap();
    assert_eq!(s.indexed, vec!["new.txt".to_string(), "mod.txt".to_string(), "arc.zip::m.txt".to_string()]);
    assert_eq!(s.failed.len(), 1);
    assert_eq!(s.failed[0].0, "bad.txt");
    assert!(s.failed[0].1.contains("line 99 refused"));
    assert_eq!(s.added, vec!["new.txt".to_string()]);
    assert_eq!(s.modified, vec!["mod.txt".to_string()]);
    // The failed file is indexed by name only.
    let bad = id_of(&conn, "bad.txt");
    assert_eq!(count(&conn, &format!("SELECT COUNT(*) FROM lines WHERE file_id = {bad}")), 1);
    assert_eq!(count(&conn, "SELECT COUNT(*) FROM files WHERE path = 'gone.txt'"), 0);
    assert_eq!(count(&conn, "SELECT COUNT(*) FROM files WHERE path = 'renamed.txt'"), 1);
    assert_eq!(count(&conn, "SELECT COUNT(*) FROM indexing_errors"), 2);
    let last: String = conn.query_row("SELECT value FROM meta WHERE key = 'last_scan'", [], |r| r.get(0)).unwrap();
    assert_eq!(last, "1234");
    assert_eq!(count(&conn, "SELECT COUNT(*) FROM activity_log"), 4);
    assert_eq!(
        s.steps,
        vec![RequestStep::Deletes, RequestStep::Renames, RequestStep::Files, RequestStep::Bookkeeping, RequestStep::Activity]
    );
}

#[test]
fn empty_request_succeeds_with_the_short_plan() {
    let conn = db();
    let request = BulkRequest {
        source: "s".to_string(),
        files: vec![],
        delete_paths: vec![],
        rename_paths: vec![],
        indexing_failures: vec![],
        scan_timestamp: None,
    };
    let s = process_request_phase1(&mut Session::new(&conn), &request, 0, 100, 50).unwrap();
    assert!(s.indexed.is_empty());
    assert!(s.failed.is_empty());
    assert_eq!(s.steps, vec![RequestStep::Files, RequestStep::Bookkeeping, RequestStep::Activity]);
    assert_eq!(count(&conn, "SELECT COUNT(*) FROM indexing_errors"), 0);
}

#[test]
fn rewrite_replaces_old_lines_with_new_ones() {
    let conn = db();
    let mut sess = Session::new(&conn);
    process_file_phase1_fallback(&mut sess, &file("r.txt", 5, "text", vec![line(0, "r.txt"), line(2, "one"), line(3, "two")]), false, 0, 1).unwrap();
    process_file_phase1_fallback(&mut sess, &file("r.txt", 6, "text", vec![line(0, "r.txt"), line(4, "three")]), false, 0, 2).unwrap();
    let id = id_of(&conn, "r.txt");
    assert_eq!(count(&conn, &format!("SELECT COUNT(*) FROM lines WHERE file_id = {id}")), 2);
    assert_eq!(count(&conn, &format!("SELECT COUNT(*) FROM lines WHERE file_id = {id} AND line_number = 4")), 1);
    assert_eq!(count(&conn, &format!("SELECT COUNT(*) FROM lines WHERE file_id = {id} AND line_number = 2")), 0);
    assert_eq!(count(&conn, "SELECT COUNT(*) FROM lines_fts WHERE lines_fts MATCH 'three'"), 1);
}

#[test]
fn request_plan_orders_deletes_before_renames() {
    assert_eq!(
        request_plan(true, true),
        vec![RequestStep::Deletes, RequestStep::Renames, RequestStep::Files, RequestStep::Bookkeeping, RequestStep::Activity]
    );
    assert_eq!(request_plan(false, true), vec![RequestStep::Renames, RequestStep::Files, RequestStep::Bookkeeping, RequestStep::Activity]);
    assert_eq!(request_plan(false, false), vec![RequestStep::Files, RequestStep::Bookkeeping, RequestStep::Activity]);
}

#[test]
fn archive_decision_from_counts() {
    assert_eq!(candidate_decision(Some(7), Some(0), Some(0), Some(3)), Some(7));
    assert_eq!(candidate_decision(Some(7), None, None, Some(3)), Some(7));
    assert_eq!(candidate_decision(Some(7), Some(2), Some(0), Some(3)), None);
    assert_eq!(candidate_decision(Some(7), Some(0), Some(1), Some(3)), None);
    assert_eq!(candidate_decision(Some(7), Some(0), Some(0), Some(0)), None);
    assert_eq!(candidate_decision(Some(7), Some(0), Some(0), None), None);
    assert_eq!(candidate_decision(None, Some(0), Some(0), Some(3)), None);
}

#[test]
fn archive_candidates_and_line_refs() {
    let conn = db();
    process_file_phase1_fallback(&mut Session::new(&conn), &file("a.txt", 9, "text", vec![line(0, "a"), line(2, "b")]), false, 0, 1).unwrap();
    process_file_phase1_fallback(&mut Session::new(&conn), &file("inline.txt", 9, "text", vec![line(0, "i")]), false, 1000, 1).unwrap();
    process_file_phase1_fallback(&mut Session::new(&conn), &file("empty.txt", 9, "text", vec![]), false, 0, 1).unwrap();
    let a = id_of(&conn, "a.txt");
    assert_eq!(archive_candidate(&conn, "a.txt"), Some(a));
    assert_eq!(archive_candidate(&conn, "inline.txt"), None);
    assert_eq!(archive_candidate(&conn, "empty.txt"), None);
    assert_eq!(archive_candidate(&conn, "missing.txt"), None);
    let maps = vec![
        LineMapping { line_number: 0, chunk_number: 0, offset_in_chunk: 0 },
        LineMapping { line_number: 2, chunk_number: 1, offset_in_chunk: 0 },
        LineMapping { line_number: 7, chunk_number: 5, offset_in_chunk: 3 },
    ];
    let refs = vec![
        ChunkRef { archive_name: "content_00001.zip".to_string(), chunk_name: "1.0".to_string() },
        ChunkRef { archive_name: "content_00001.zip".to_string(), chunk_name: "1.1".to_string() },
    ];
    store_line_refs(&mut Session::new(&conn), &vec![(a, maps, refs)]).unwrap();
    let got: Vec<(i64, String)> = conn
        .prepare("SELECT line_number, chunk_name FROM lines WHERE file_id = ?1 ORDER BY line_number")
        .unwrap()
        .query_map([a], |r| Ok((r.get(0)?, r.get(1)?)))
        .unwrap()
        .map(|x| x.unwrap())
        .collect();
    assert_eq!(got, vec![(0, "1.0".to_string()), (2, "1.1".to_string())]);
    assert_eq!(archive_candidate(&conn, "a.txt"), None);
}

#[test]
fn pending_chunk_removes_are_taken_once() {
    let conn = db();
    conn.execute_batch(
        "INSERT INTO pending_chunk_removes VALUES ('content_00001.zip', 'a.txt.chunk0'); \
         INSERT INTO pending_chunk_removes VALUES ('content_00002.zip', 'b.txt.chunk1');",
    )
    .unwrap();
    let taken = take_pending_chunk_removes(&mut Session::new(&conn)).unwrap();
    assert_eq!(
        taken,
        vec![
            ("content_00001.zip".to_string(), "a.txt.chunk0".to_string()),
            ("content_00002.zip".to_string(), "b.txt.chunk1".to_string()),
        ]
    );
    assert_eq!(count(&conn, "SELECT COUNT(*) FROM pending_chunk_removes"), 0);
    assert!(take_pending_chunk_removes(&mut Session::new(&conn)).unwrap().is_empty());
}

#[test]
fn reindexed_file_queues_its_archived_chunks() {
    let conn = db();
    let f = file("/a.txt", 10, "text", vec![line(1, "hello")]);
    process_file_phase1_fallback(&mut Session::new(&conn), &f, false, 0, 100).unwrap();
    let id = id_of(&conn, "/a.txt");
    conn.execute(
        "UPDATE lines SET chunk_archive = 'content_00001.zip', chunk_name = 'a.txt.chunk0' WHERE file_id = ?1",
        [id],
    )
    .unwrap();
    let g = file("/a.txt", 20, "text", vec![line(1, "hello again")]);
    process_file_phase1_fallback(&mut Session::new(&conn), &g, false, 0, 200).unwrap();
    let taken = take_pending_chunk_removes(&mut Session::new(&conn)).unwrap();
    assert_eq!(taken, vec![("content_00001.zip".to_string(), "a.txt.chunk0".to_string())]);
}
