use find_server::archive::{chunk_lines, parse_archive_number, SharedArchiveState};
use find_server::compaction::parse_hhmm;
use find_server::http::parse_byte_range;
use find_server::index::{filename_only_file, normalize_lines, outer_archive_stub, IndexFile, IndexLine, LINE_CONTENT_START};
use find_server::paths::{extension_of, is_outer_archive, prefix_bump, split_composite_path};
use find_server::rowid::{decode_fts_rowid, encode_fts_rowid};
use find_server::search::{build_fts_query, ParamBinder, SqlValue};
use find_server::tiff::{decode, is_palette_tiff, load_image, patch_pmi, read_pmi, PMI_BLACKISZERO, PMI_PALETTE};
use find_server::db::list_dir;
use find_server::tree::DirEntry;

// ── archive ─────────────────────────────────────────────────────────────────

#[test]
fn test_subfolder_calculation() {
    assert_eq!(0 / 1000, 0);
    assert_eq!(999 / 1000, 0);
    assert_eq!(1000 / 1000, 1);
    assert_eq!(12345 / 1000, 12);
}

#[test]
fn test_parse_archive_number() {
    assert_eq!(parse_archive_number("content_00001.zip"), Some(1));
    assert_eq!(parse_archive_number("content_00999.zip"), Some(999));
    assert_eq!(parse_archive_number("content_12345.zip"), Some(12345));
    assert_eq!(parse_archive_number("invalid.zip"), None);
    assert_eq!(parse_archive_number("content_00001.tar"), None);
    assert_eq!(parse_archive_number("other_00001.zip"), None);
}

#[test]
fn test_chunk_lines() {
    let lines = vec![
        (1, "a".repeat(500)),
        (2, "b".repeat(500)),
        (3, "c".repeat(500)),
    ];

    let result = chunk_lines(0, "/test/file.txt", &lines);

    assert_eq!(result.chunks.len(), 2);
    assert_eq!(result.chunks[0].chunk_number, 0);
    assert_eq!(result.chunks[1].chunk_number, 1);

    assert_eq!(result.line_mappings.len(), 3);
    assert_eq!(result.line_mappings[0].line_number, 1);
    assert_eq!(result.line_mappings[0].chunk_number, 0);
    assert_eq!(result.line_mappings[0].offset_in_chunk, 0);

    assert_eq!(result.line_mappings[1].line_number, 2);
    assert_eq!(result.line_mappings[1].chunk_number, 0);
    assert_eq!(result.line_mappings[1].offset_in_chunk, 1);

    assert_eq!(result.line_mappings[2].line_number, 3);
    assert_eq!(result.line_mappings[2].chunk_number, 1);
    assert_eq!(result.line_mappings[2].offset_in_chunk, 0);
}

#[test]
fn test_chunk_single_large_line() {
    let lines = vec![(1, "x".repeat(2000))];

    let result = chunk_lines(0, "/test/file.txt", &lines);

    assert_eq!(result.chunks.len(), 1);
    assert_eq!(result.line_mappings.len(), 1);
    assert_eq!(result.line_mappings[0].offset_in_chunk, 0);
}

#[test]
fn shared_state_allocates_unique_archive_numbers() {
    // A fresh data directory: no archives listed.
    let mut state = SharedArchiveState::new("/tmp/data".to_string(), &Vec::new());
    let n1 = state.allocate_archive_num();
    let n2 = state.allocate_archive_num();
    let n3 = state.allocate_archive_num();
    assert_ne!(n1, n2);
    assert_ne!(n2, n3);
    assert_ne!(n1, n3);
}

#[test]
fn shared_state_seeds_from_existing_archives() {
    // The content folder holds archives 1 and 5.
    let listing = vec![
        ("content_00001.zip".to_string(), 0u64),
        ("content_00005.zip".to_string(), 0u64),
    ];
    let mut state = SharedArchiveState::new("/tmp/data".to_string(), &listing);
    // Next number should be 6 (max=5, next=6).
    let n = state.allocate_archive_num();
    assert_eq!(n, 6);
}

// ── compaction ──────────────────────────────────────────────────────────────

#[test]
fn parse_hhmm_valid() {
    assert_eq!(parse_hhmm("02:00"), Some((2, 0)));
    assert_eq!(parse_hhmm("00:00"), Some((0, 0)));
    assert_eq!(parse_hhmm("23:59"), Some((23, 59)));
    assert_eq!(parse_hhmm("12:30"), Some((12, 30)));
    // leading/trailing whitespace around components is accepted
    assert_eq!(parse_hhmm(" 3 : 5 "), Some((3, 5)));
}

#[test]
fn parse_hhmm_invalid() {
    assert_eq!(parse_hhmm(""), None); // empty
    assert_eq!(parse_hhmm("0200"), None); // no colon
    assert_eq!(parse_hhmm("24:00"), None); // hour out of range
    assert_eq!(parse_hhmm("23:60"), None); // minute out of range
    assert_eq!(parse_hhmm("abc:00"), None); // non-numeric hour
    assert_eq!(parse_hhmm("00:xyz"), None); // non-numeric minute
    assert_eq!(parse_hhmm(":30"), None); // missing hour
    assert_eq!(parse_hhmm("10:"), None); // missing minute
}

// ── row ids ─────────────────────────────────────────────────────────────────

#[test]
fn encode_decode_roundtrip() {
    for (file_id, line_number) in [(1, 0), (1, 1), (42, 999999), (100, 500000)] {
        let rowid = encode_fts_rowid(file_id, line_number);
        let (dec_file_id, dec_line) = decode_fts_rowid(rowid);
        assert_eq!(dec_file_id, file_id, "file_id mismatch for ({file_id}, {line_number})");
        assert_eq!(dec_line, line_number, "line_number mismatch for ({file_id}, {line_number})");
    }
}

// ── full-text queries ───────────────────────────────────────────────────────

#[test]
fn fts_phrase_wraps_in_quotes() {
    assert_eq!(build_fts_query("hello world", true).as_deref(), Some("\"hello world\""));
}

#[test]
fn fts_phrase_too_short_returns_none() {
    assert!(build_fts_query("ab", true).is_none());
}

#[test]
fn fts_phrase_exactly_3_chars_ok() {
    assert!(build_fts_query("abc", true).is_some());
}

#[test]
fn fts_fuzzy_joins_terms_with_and() {
    let q = build_fts_query("foo bar", false).unwrap();
    assert!(q.contains("foo"));
    assert!(q.contains("AND"));
    assert!(q.contains("bar"));
}

#[test]
fn fts_fuzzy_filters_short_terms() {
    // All terms < 3 chars → None
    assert!(build_fts_query("to go", false).is_none());
}

#[test]
fn fts_fuzzy_mixed_length_keeps_long_terms() {
    // "to" (2 chars) is filtered, "foo" (3 chars) is kept
    let q = build_fts_query("to foo", false).unwrap();
    assert!(q.contains("foo"));
    assert!(!q.contains("to"));
}

#[test]
fn fts_fuzzy_splits_on_dot() {
    let q = build_fts_query("plan.index", false).unwrap();
    assert!(!q.contains('.'));
    assert!(q.contains("plan") && q.contains("index"));
}

#[test]
fn fts_fuzzy_splits_on_special_chars() {
    let q = build_fts_query("test^query", false).unwrap();
    assert!(!q.contains('^'));
    assert!(q.contains("test") && q.contains("query"));
}

// ── composite paths and prefixes ────────────────────────────────────────────

#[test]
fn split_no_separator() {
    let (outer, inner) = split_composite_path("docs/report.pdf");
    assert_eq!(outer, "docs/report.pdf");
    assert!(inner.is_none());
}

#[test]
fn split_single_separator() {
    let (outer, inner) = split_composite_path("archive.zip::member.txt");
    assert_eq!(outer, "archive.zip");
    assert_eq!(inner.as_deref(), Some("member.txt"));
}

#[test]
fn split_nested_separators_splits_at_first() {
    let (outer, inner) = split_composite_path("a.zip::b.zip::c.txt");
    assert_eq!(outer, "a.zip");
    assert_eq!(inner.as_deref(), Some("b.zip::c.txt"));
}

#[test]
fn split_empty_string() {
    let (outer, inner) = split_composite_path("");
    assert_eq!(outer, "");
    assert!(inner.is_none());
}

#[test]
fn prefix_bump_increments_last_byte() {
    assert_eq!(prefix_bump("foo/bar/"), "foo/bar0");
}

#[test]
fn prefix_bump_empty_string_returns_empty() {
    assert_eq!(prefix_bump(""), "");
}

// ── directory listings ──────────────────────────────────────────────────────

/// Lists `prefix` in a source database holding the (path, kind, size)
/// rows of `table`.
fn listing(table: &[(&str, &str, Option<i64>)], prefix: &str) -> Vec<DirEntry> {
    let conn = rusqlite::Connection::open_in_memory().unwrap();
    conn.execute_batch(
        "CREATE TABLE files (id INTEGER PRIMARY KEY, path TEXT NOT NULL UNIQUE, mtime INTEGER NOT NULL, size INTEGER, kind TEXT NOT NULL DEFAULT 'text');",
    )
    .unwrap();
    for (path, kind, size) in table {
        conn.execute("INSERT INTO files (path, mtime, size, kind) VALUES (?1, 0, ?2, ?3)", (path, size, kind))
            .unwrap();
    }
    list_dir(&conn, prefix).unwrap()
}

fn names(entries: &[DirEntry]) -> Vec<&str> {
    entries.iter().map(|e| e.name.as_str()).collect()
}

#[test]
fn list_dir_root_flat_files() {
    let table = [("README.md", "text", Some(0)), ("main.rs", "text", Some(0))];
    let entries = listing(&table, "");
    assert_eq!(entries.len(), 2);
    assert!(entries.iter().all(|e| e.entry_type == "file"));
}

#[test]
fn list_dir_root_shows_subdirectory() {
    let table = [("src/main.rs", "text", Some(0)), ("src/lib.rs", "text", Some(0))];
    let entries = listing(&table, "");
    assert_eq!(entries.len(), 1);
    let dir = &entries[0];
    assert_eq!(dir.entry_type, "dir");
    assert_eq!(dir.name, "src");
    assert_eq!(dir.path, "src/");
}

#[test]
fn list_dir_root_skips_archive_members() {
    let table = [("archive.zip", "archive", Some(0)), ("archive.zip::member.txt", "text", Some(0))];
    let entries = listing(&table, "");
    assert_eq!(entries.len(), 1);
    assert_eq!(entries[0].name, "archive.zip");
    assert_eq!(entries[0].kind.as_deref(), Some("archive"));
}

#[test]
fn list_dir_dirs_sorted_before_files() {
    let table = [("README.md", "text", Some(0)), ("src/main.rs", "text", Some(0))];
    let entries = listing(&table, "");
    assert_eq!(entries.len(), 2);
    assert_eq!(entries[0].entry_type, "dir");
    assert_eq!(entries[1].entry_type, "file");
}

#[test]
fn list_dir_subdir() {
    let table = [("src/main.rs", "text", Some(0)), ("src/lib.rs", "text", Some(0))];
    let entries = listing(&table, "src/");
    let mut ns = names(&entries);
    ns.sort_unstable();
    assert_eq!(ns, ["lib.rs", "main.rs"]);
    assert!(entries.iter().all(|e| e.entry_type == "file"));
}

#[test]
fn list_dir_archive_flat_members() {
    let table = [
        ("data.zip", "archive", Some(0)),
        ("data.zip::a.txt", "text", Some(0)),
        ("data.zip::b.txt", "text", Some(0)),
    ];
    let entries = listing(&table, "data.zip::");
    let mut ns = names(&entries);
    ns.sort_unstable();
    assert_eq!(ns, ["a.txt", "b.txt"]);
    assert!(entries.iter().all(|e| e.entry_type == "file"));
}

#[test]
fn list_dir_archive_with_inner_subdir() {
    let table = [("data.zip::docs/readme.txt", "text", Some(0)), ("data.zip::src/main.rs", "text", Some(0))];
    let entries = listing(&table, "data.zip::");
    assert!(entries.iter().all(|e| e.entry_type == "dir"));
    let mut ns = names(&entries);
    ns.sort_unstable();
    assert_eq!(ns, ["docs", "src"]);
    assert!(entries.iter().all(|e| e.path.ends_with('/')));
}

#[test]
fn list_dir_archive_subdir_listing() {
    let table = [("data.zip::docs/a.txt", "text", Some(0)), ("data.zip::docs/b.txt", "text", Some(0))];
    let entries = listing(&table, "data.zip::docs/");
    let mut ns = names(&entries);
    ns.sort_unstable();
    assert_eq!(ns, ["a.txt", "b.txt"]);
}

#[test]
fn list_dir_nested_archive_returned_as_archive_file() {
    let table = [
        ("outer.zip::inner.zip::data.txt", "text", Some(0)),
        ("outer.zip::inner.zip::notes.txt", "text", Some(0)),
    ];
    let entries = listing(&table, "outer.zip::");
    assert_eq!(entries.len(), 1, "expected exactly one child");

    let inner = &entries[0];
    assert_eq!(inner.name, "inner.zip");
    assert_eq!(inner.entry_type, "file", "nested archive must be entry_type='file', not 'dir'");
    assert_eq!(inner.kind.as_deref(), Some("archive"),
        "nested archive must have kind='archive' so the UI calls listArchiveMembers");
    assert_eq!(inner.path, "outer.zip::inner.zip", "path must not have a trailing '/' or '::'");
}

#[test]
fn list_dir_nested_archive_members() {
    let table = [
        ("outer.zip::inner.zip::data.txt", "text", Some(0)),
        ("outer.zip::inner.zip::notes.txt", "text", Some(0)),
    ];
    let entries = listing(&table, "outer.zip::inner.zip::");
    let mut ns = names(&entries);
    ns.sort_unstable();
    assert_eq!(ns, ["data.txt", "notes.txt"]);
    assert!(entries.iter().all(|e| e.entry_type == "file"));
}

#[test]
fn list_dir_nested_archive_with_explicit_row() {
    let table = [("outer.zip::inner.zip", "archive", Some(0)), ("outer.zip::inner.zip::data.txt", "text", Some(0))];
    let entries = listing(&table, "outer.zip::");
    assert_eq!(entries.len(), 1);
    let inner = &entries[0];
    assert_eq!(inner.name, "inner.zip");
    assert_eq!(inner.kind.as_deref(), Some("archive"));
    assert!(!inner.path.ends_with('/'), "path must not end with '/'");
    assert!(!inner.path.ends_with("::"), "path must not end with '::'");
}

#[test]
fn list_dir_triple_nested_archive() {
    let table = [("outer.zip::middle.zip::inner.zip::file.txt", "text", Some(0))];

    let entries = listing(&table, "outer.zip::");
    assert_eq!(entries.len(), 1);
    assert_eq!(entries[0].name, "middle.zip");
    assert_eq!(entries[0].kind.as_deref(), Some("archive"));
    assert_eq!(entries[0].path, "outer.zip::middle.zip");

    let entries = listing(&table, "outer.zip::middle.zip::");
    assert_eq!(entries.len(), 1);
    assert_eq!(entries[0].name, "inner.zip");
    assert_eq!(entries[0].kind.as_deref(), Some("archive"));
    assert_eq!(entries[0].path, "outer.zip::middle.zip::inner.zip");

    let entries = listing(&table, "outer.zip::middle.zip::inner.zip::");
    assert_eq!(entries.len(), 1);
    assert_eq!(entries[0].name, "file.txt");
    assert_eq!(entries[0].entry_type, "file");
}

#[test]
fn list_dir_null_size_does_not_crash() {
    let table = [("archive.zip::readme.txt", "text", None), ("archive.zip::data.csv", "text", None)];
    let entries = listing(&table, "archive.zip::");
    assert_eq!(entries.len(), 2);
    assert!(entries.iter().all(|e| e.size.is_none()),
        "NULL size in DB must map to size=None in DirEntry, not crash");
}

#[test]
fn list_dir_mixed_archive_contents() {
    let table = [
        ("outer.zip::plain.txt", "text", Some(0)),
        ("outer.zip::subdir/readme.md", "text", Some(0)),
        ("outer.zip::nested.zip::inside.txt", "text", Some(0)),
    ];
    let entries = listing(&table, "outer.zip::");
    let dirs: Vec<_> = entries.iter().filter(|e| e.entry_type == "dir").collect();
    let files: Vec<_> = entries.iter().filter(|e| e.entry_type == "file").collect();

    assert_eq!(dirs.len(), 1);
    assert_eq!(dirs[0].name, "subdir");
    assert!(dirs[0].path.ends_with('/'));

    assert_eq!(files.len(), 2);
    let nested = files.iter().find(|e| e.name == "nested.zip").unwrap();
    assert_eq!(nested.kind.as_deref(), Some("archive"));
    assert_eq!(nested.path, "outer.zip::nested.zip");

    let plain = files.iter().find(|e| e.name == "plain.txt").unwrap();
    assert_eq!(plain.entry_type, "file");
}

// ── palette TIFFs ───────────────────────────────────────────────────────────

/// A 2×2 uncompressed palette TIFF: index 0 white, index 1 black; pixels
/// `[1, 0, 0, 1]`.
fn make_test_tiff() -> Vec<u8> {
    const COLORMAP_OFF: u32 = 134;
    const PIXEL_OFF: u32 = 134 + 768 * 2;

    fn ifd(buf: &mut Vec<u8>, tag: u16, type_id: u16, count: u32, val: u32) {
        buf.extend_from_slice(&tag.to_le_bytes());
        buf.extend_from_slice(&type_id.to_le_bytes());
        buf.extend_from_slice(&count.to_le_bytes());
        buf.extend_from_slice(&val.to_le_bytes());
    }
    const SHORT: u16 = 3;
    const LONG: u16 = 4;

    let mut buf: Vec<u8> = Vec::with_capacity(1674);
    buf.extend_from_slice(b"II");
    buf.extend_from_slice(&42u16.to_le_bytes());
    buf.extend_from_slice(&8u32.to_le_bytes());

    buf.extend_from_slice(&10u16.to_le_bytes());
    ifd(&mut buf, 256, SHORT, 1, 2);
    ifd(&mut buf, 257, SHORT, 1, 2);
    ifd(&mut buf, 258, SHORT, 1, 8);
    ifd(&mut buf, 259, SHORT, 1, 1);
    ifd(&mut buf, 262, SHORT, 1, 3);
    ifd(&mut buf, 273, LONG, 1, PIXEL_OFF);
    ifd(&mut buf, 277, SHORT, 1, 1);
    ifd(&mut buf, 278, SHORT, 1, 2);
    ifd(&mut buf, 279, LONG, 1, 4);
    ifd(&mut buf, 320, SHORT, 768, COLORMAP_OFF);
    buf.extend_from_slice(&0u32.to_le_bytes());
    assert_eq!(buf.len(), 134);

    for _channel in 0..3 {
        buf.extend_from_slice(&65535u16.to_le_bytes());
        for _ in 1..256 {
            buf.extend_from_slice(&0u16.to_le_bytes());
        }
    }
    assert_eq!(buf.len(), 1670);

    buf.extend_from_slice(&[1u8, 0, 0, 1]);
    buf
}

#[test]
fn test_tiff_detected_as_palette() {
    assert!(is_palette_tiff(&make_test_tiff()));
}

#[test]
fn non_tiff_not_detected_as_palette() {
    assert!(!is_palette_tiff(&b"not a tiff at all".to_vec()));
    assert!(!is_palette_tiff(&Vec::new()));
    assert!(!is_palette_tiff(&b"\x89PNG\r\n\x1a\n".to_vec()));
}

#[test]
fn patch_pmi_changes_value() {
    let mut tiff = make_test_tiff();
    assert_eq!(read_pmi(&tiff), Some(PMI_PALETTE));
    patch_pmi(&mut tiff, PMI_PALETTE, PMI_BLACKISZERO).expect("patch failed");
    assert_eq!(read_pmi(&tiff), Some(PMI_BLACKISZERO));
}

#[test]
fn patch_pmi_wrong_from_value_returns_none() {
    let mut tiff = make_test_tiff();
    assert!(patch_pmi(&mut tiff, 99, PMI_BLACKISZERO).is_none());
    assert_eq!(read_pmi(&tiff), Some(PMI_PALETTE));
}

#[test]
fn decode_palette_tiff_correct_pixels() {
    let tiff = make_test_tiff();
    let img = decode(&tiff).expect("decode failed");
    let rgb = img.into_rgb8();
    assert_eq!(rgb.dimensions(), (2, 2));
    assert_eq!(rgb.get_pixel(0, 0), &image::Rgb([0, 0, 0]));
    assert_eq!(rgb.get_pixel(1, 0), &image::Rgb([255, 255, 255]));
    assert_eq!(rgb.get_pixel(0, 1), &image::Rgb([255, 255, 255]));
    assert_eq!(rgb.get_pixel(1, 1), &image::Rgb([0, 0, 0]));
}

#[test]
fn load_image_handles_palette_tiff() {
    let tiff = make_test_tiff();
    let result = load_image(&tiff);
    assert!(result.is_ok(), "load_image failed: {:?}", result.err());
    let img = result.unwrap();
    assert_eq!((img.width(), img.height()), (2, 2));
}

#[test]
fn load_image_falls_through_for_unsupported_format() {
    let result = load_image(&b"garbage bytes that are not an image".to_vec());
    assert!(result.is_err());
}

// ── normalization ───────────────────────────────────────────────────────────

fn make_lines(contents: &[&str]) -> Vec<IndexLine> {
    let mut v = vec![
        IndexLine { archive_path: None, line_number: 0, content: "file.txt".into() },
        IndexLine { archive_path: None, line_number: 1, content: String::new() },
    ];
    for (i, &c) in contents.iter().enumerate() {
        v.push(IndexLine { archive_path: None, line_number: i + LINE_CONTENT_START, content: c.into() });
    }
    v
}

#[test]
fn disabled_when_max_line_length_zero() {
    let lines = make_lines(&["hello world this is a very long line that should not be wrapped"]);
    let result = normalize_lines(lines.clone(), "file.txt", 0, None);
    assert_eq!(result.len(), lines.len());
}

#[test]
fn short_lines_unchanged() {
    let lines = make_lines(&["hello", "world"]);
    let result = normalize_lines(lines, "file.txt", 120, None);
    assert_eq!(result.len(), 4);
    let content: Vec<_> = result.iter().filter(|l| l.line_number >= LINE_CONTENT_START).collect();
    assert_eq!(content[0].content, "hello");
    assert_eq!(content[1].content, "world");
}

#[test]
fn long_line_is_wrapped() {
    let long = "word ".repeat(30).trim_end().to_string();
    let lines = make_lines(&[&long]);
    let result = normalize_lines(lines, "file.txt", 120, None);
    let content_lines: Vec<_> = result.iter().filter(|l| l.line_number >= LINE_CONTENT_START).collect();
    assert!(content_lines.len() > 1, "long line should be split");
    for cl in &content_lines {
        assert!(cl.content.chars().count() <= 120, "line too long: {}", cl.content);
    }
}

#[test]
fn json_is_pretty_printed() {
    let minified = r#"{"a":1,"b":[1,2,3],"c":{"d":true}}"#;
    let lines = make_lines(&[minified]);
    let result = normalize_lines(lines, "data.json", 120, None);
    let content_lines: Vec<_> = result.iter().filter(|l| l.line_number >= LINE_CONTENT_START).collect();
    assert!(content_lines.len() > 1, "JSON should be pretty-printed");
}

#[test]
fn invalid_json_falls_through_to_word_wrap() {
    let invalid = "this is not json at all";
    let lines = make_lines(&[invalid]);
    let result = normalize_lines(lines, "data.json", 120, None);
    assert!(result.iter().any(|l| l.line_number >= LINE_CONTENT_START));
}

#[test]
fn toml_is_pretty_printed() {
    let compact = "a=1\nb=\"hello\"\n[section]\nx=true";
    let lines = make_lines(&[compact]);
    let result = normalize_lines(lines, "config.toml", 120, None);
    assert!(result.iter().any(|l| l.line_number >= LINE_CONTENT_START));
}

#[test]
fn markdown_is_wrapped() {
    let long = "word ".repeat(50).trim_end().to_string();
    let lines = make_lines(&[&long]);
    let result = normalize_lines(lines, "readme.md", 120, None);
    let content_lines: Vec<_> = result.iter().filter(|l| l.line_number >= LINE_CONTENT_START).collect();
    assert!(content_lines.len() > 1, "long markdown line should be wrapped");
    for cl in &content_lines {
        assert!(cl.content.chars().count() <= 120, "line too long: {}", cl.content);
    }
}

#[test]
fn long_word_is_hard_split() {
    let long_word = "a".repeat(300);
    let lines = make_lines(&[&long_word]);
    let result = normalize_lines(lines, "file.txt", 120, None);
    let content_lines: Vec<_> = result.iter().filter(|l| l.line_number >= LINE_CONTENT_START).collect();
    assert!(content_lines.len() > 1, "long word should be split");
    for cl in &content_lines {
        assert!(cl.content.chars().count() <= 120, "chunk too long: {}", cl.content);
    }
    let reassembled: String = content_lines.iter().map(|l| l.content.as_str()).collect();
    assert_eq!(reassembled, long_word);
}

#[test]
fn line_numbers_are_reassigned_sequentially() {
    let long = "word ".repeat(30).trim_end().to_string();
    let lines = make_lines(&[&long, "short"]);
    let result = normalize_lines(lines, "file.txt", 120, None);
    let mut nums: Vec<usize> = result.iter().filter(|l| l.line_number >= LINE_CONTENT_START).map(|l| l.line_number).collect();
    nums.sort_unstable();
    for (i, &n) in nums.iter().enumerate() {
        assert_eq!(n, i + LINE_CONTENT_START);
    }
}

#[test]
fn extension_from_archive_member_path() {
    assert_eq!(extension_of("outer.zip::inner.json"), "json");
    assert_eq!(extension_of("file.txt"), "txt");
    assert_eq!(extension_of("noext"), "");
}

// ── byte ranges ─────────────────────────────────────────────────────────────

#[test]
fn parse_byte_range_valid_closed() {
    assert_eq!(parse_byte_range("bytes=0-99"), Some((0, Some(99))));
    assert_eq!(parse_byte_range("bytes=100-199"), Some((100, Some(199))));
}

#[test]
fn parse_byte_range_valid_open_ended() {
    assert_eq!(parse_byte_range("bytes=500-"), Some((500, None)));
    assert_eq!(parse_byte_range("bytes=0-"), Some((0, None)));
}

#[test]
fn parse_byte_range_multi_range_rejected() {
    assert_eq!(parse_byte_range("bytes=0-99,200-299"), None);
}

#[test]
fn parse_byte_range_missing_prefix_rejected() {
    assert_eq!(parse_byte_range("0-99"), None);
    assert_eq!(parse_byte_range("0-"), None);
}

#[test]
fn parse_byte_range_invalid_numbers_rejected() {
    assert_eq!(parse_byte_range("bytes=abc-def"), None);
    assert_eq!(parse_byte_range("bytes=-100"), None);
}

// ── indexing fallbacks ──────────────────────────────────────────────────────

fn make_file(path: &str, kind: &str) -> IndexFile {
    IndexFile {
        path: path.to_string(),
        mtime: 1000,
        size: Some(100),
        kind: kind.to_string(),
        lines: vec![IndexLine { archive_path: None, line_number: 0, content: path.to_string() }],
        extract_ms: None,
        content_hash: None,
        scanner_version: 0,
        is_new: false,
    }
}

#[test]
fn outer_archive_detected() {
    assert!(is_outer_archive("data.zip", "archive"));
}

#[test]
fn archive_member_not_outer() {
    assert!(!is_outer_archive("data.zip::inner.txt", "archive"));
}

#[test]
fn non_archive_kind_not_outer() {
    assert!(!is_outer_archive("data.zip", "text"));
}

#[test]
fn filename_only_converts_archive_kind_to_unknown() {
    let f = make_file("data.zip", "archive");
    let fallback = filename_only_file(&f);
    assert_eq!(fallback.kind, "unknown");
}

#[test]
fn filename_only_keeps_non_archive_kind() {
    let f = make_file("notes.md", "text");
    let fallback = filename_only_file(&f);
    assert_eq!(fallback.kind, "text");
}

#[test]
fn filename_only_has_single_path_line() {
    let f = make_file("docs/report.pdf", "pdf");
    let fallback = filename_only_file(&f);
    assert_eq!(fallback.lines.len(), 1);
    assert_eq!(fallback.lines[0].line_number, 0);
    assert_eq!(fallback.lines[0].content, "docs/report.pdf");
}

#[test]
fn filename_only_preserves_mtime_and_size() {
    let f = make_file("file.txt", "text");
    let fallback = filename_only_file(&f);
    assert_eq!(fallback.mtime, f.mtime);
    assert_eq!(fallback.size, f.size);
}

#[test]
fn outer_archive_stub_preserves_archive_kind() {
    let f = make_file("backup.7z", "archive");
    let stub = outer_archive_stub(&f);
    assert_eq!(stub.kind, "archive");
}

#[test]
fn outer_archive_stub_uses_zero_mtime() {
    let f = make_file("backup.7z", "archive");
    let stub = outer_archive_stub(&f);
    assert_eq!(stub.mtime, 0);
}

#[test]
fn outer_archive_stub_has_single_path_line() {
    let f = make_file("backups/big.tar.gz", "archive");
    let stub = outer_archive_stub(&f);
    assert_eq!(stub.lines.len(), 1);
    assert_eq!(stub.lines[0].line_number, 0);
    assert_eq!(stub.lines[0].content, "backups/big.tar.gz");
}

// ── query parameters ────────────────────────────────────────────────────────

#[test]
fn param_binder_sequential_placeholders() {
    let mut p = ParamBinder::new();
    assert_eq!(p.push(SqlValue::Text("first".to_string())), "?1");
    assert_eq!(p.push(SqlValue::Text("second".to_string())), "?2");
    assert_eq!(p.push(SqlValue::Integer(42i64)), "?3");
    assert_eq!(p.push(SqlValue::Text("fourth".to_string())), "?4");
}

#[test]
fn param_binder_as_refs_length_matches_push_count() {
    let mut p = ParamBinder::new();
    p.push(SqlValue::Text("a".to_string()));
    p.push(SqlValue::Integer(1i64));
    p.push(SqlValue::Text("b".to_string()));
    assert_eq!(p.as_refs().len(), 3);
}

#[test]
fn param_binder_empty_has_no_refs() {
    let p = ParamBinder::new();
    assert!(p.as_refs().is_empty());
}
