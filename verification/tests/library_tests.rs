use find_server::alerts::{alert_body, alert_route, alert_subject, hostname_from};
use find_server::web::{asset_path, build_label, config_script, inject_config};
use find_server::archive::{archive_name_for_number, chunk_lines, chunk_name, parse_archive_number, LockRegistry, SharedArchiveState};
use find_server::documents::{document_tokens, fetch_limit, intersect_ids, or_expression, per_file_cap, token_phrase, DocumentCollector};
use find_server::formatter::{accept_output, batch_file_name, batch_members, replace_str, stdin_formatter_plan, FormatterConfig, FormatterMode};
use find_server::http::{link_verdict, LinkLookup, LinkVerdict, compact_lines, is_authorized, is_valid_source_name, version_gt, ContextLine};
use find_server::index::{apply_batch_output, apply_formatted_text, finish_batch, IndexLine, LINE_CONTENT_START};
use find_server::ingest::{activity_kind, coalesce_upserts, distinct_chunk_refs, fallback_for, inline_layout, is_stale_upsert,
    line_ref_updates, logged_deletes, logged_renames, members_pattern, needs_inner_delete, use_inline_storage};
use find_server::archive::{ChunkRef, LineMapping};
use find_server::index::IndexFile;
use find_server::matching::{case_sensitive_terms, doc_regex_results, document_results, line_mode_results, matched_line, CompiledRegex, FuzzyScorer};
use find_server::params::{parse_search_params, FileParams, RawParams, RecentQuery};
use find_server::queue::{archive_batch, dispatch_order, queue_drained, request_action, sort_by_age, RequestAction, RequestOutcome};
use find_server::recent::{newest_first, recent_from_mtime_rows, source_of_db_file, RecentFile};
use find_server::results::{attach_duplicates, effective_limit, fts_plan, group_by_file, page_results, rank_results, scoring_limit,
    snippet_of, CandidateRow, DocumentGroup, ScoredResult, SearchMode, SearchResult};
use find_server::rowid::{decode_fts_rowid, encode_fts_rowid};
use find_server::search::{regex_to_fts_terms, DateFilter};
use find_server::serve::{source_path_target, view_kind, ViewKind, member_fits, range_plan, raw_target, RangePlan, RawTarget, MAX_MEMBER_BYTES, content_disposition, content_range, content_type_for, is_safe_relative_path, member_depth, path_within,
    png_name, resolve_range, unsatisfiable_range};
use find_server::order::{sort_by_name, str_le};
use find_server::inbox::{clear_targets, content_line_count, inbox_listing, is_gz_file, shown_file_name, InboxItem};
use find_server::recent::list_sources;
use find_server::stats::{rebuilt_cache, CachedSourceStats, KindCount, SourceStatsCache, SourceStatsDelta};
use find_server::tree::list_dir_bounds;
use find_server::update::{apply_precheck, pick_asset_url, platform_suffix, update_verdict, version_from_tag, CachedUpdateCheck};
use find_server::upload::{is_stale_upload, max_content_size, scan_config_toml, toml_escape, toml_extractors, upload_file, ExtractorEntry, ExtractorMode, ScanConfig, UploadFile, check_patch, upload_complete, PatchCheck, UploadMeta};
use find_server::wrap::{apply_word_wrap, wrap_at_words};
use find_server::tiff::{colormap_entry, colormap_table, ColorMapValue};

// ── helpers ─────────────────────────────────────────────────────────────────

fn cand(file_id: i64, line: usize, path: &str, content: &str) -> CandidateRow {
    CandidateRow {
        file_path: path.to_string(),
        file_kind: "text".to_string(),
        archive_path: None,
        line_number: line,
        content: content.to_string(),
        mtime: 10,
        size: Some(1),
        file_id,
    }
}

fn result(source: &str, path: &str, line: usize, score: u32) -> SearchResult {
    SearchResult {
        source: source.to_string(),
        path: path.to_string(),
        archive_path: None,
        line_number: line,
        snippet: String::new(),
        score,
        kind: "text".to_string(),
        mtime: 0,
        size: None,
        context_lines: vec![],
        duplicate_paths: vec![],
        extra_matches: vec![],
    }
}

// ── row ids (law: decode undoes encode for ids >= 0 and lines below the limit) ──

#[test]
fn rowid_roundtrip_law_examples() {
    for (f, l) in [(0i64, 0i64), (7, 999_999), (123_456, 42)] {
        assert_eq!(decode_fts_rowid(encode_fts_rowid(f, l)), (f, l));
    }
}

// ── search results ──────────────────────────────────────────────────────────

#[test]
fn snippet_strips_path_marker() {
    assert_eq!(snippet_of("[PATH] src/main.rs"), "src/main.rs");
    assert_eq!(snippet_of("hello"), "hello");
    assert_eq!(snippet_of("[PATH]x"), "[PATH]x");
}

#[test]
fn group_by_file_keeps_first_line_and_later_lines_as_extras() {
    let cands = vec![
        cand(1, 3, "a.txt", "first"),
        cand(2, 5, "b.txt", "other"),
        cand(1, 7, "a.txt", "later"),
        cand(1, 0, "a.txt", "[PATH] a.txt"),
        cand(2, 9, "b.txt", "more"),
    ];
    let r = group_by_file(&cands, "src");
    assert_eq!(r.len(), 2);
    assert_eq!(r[0].file_id, 1);
    assert_eq!(r[0].result.line_number, 3);
    assert_eq!(r[0].result.snippet, "first");
    assert_eq!(r[0].result.score, 0);
    assert_eq!(r[0].result.source, "src");
    assert_eq!(r[0].result.extra_matches.len(), 1);
    assert_eq!(r[0].result.extra_matches[0].line_number, 7);
    assert_eq!(r[1].file_id, 2);
    assert_eq!(r[1].result.extra_matches.len(), 1);
    assert_eq!(r[1].result.extra_matches[0].content, "more");
}

#[test]
fn ranking_is_stable_by_descending_score() {
    let all = vec![result("s", "a", 1, 1), result("s", "b", 1, 5), result("s", "c", 1, 3), result("s", "d", 1, 5)];
    let r = rank_results(all);
    let paths: Vec<&str> = r.iter().map(|x| x.path.as_str()).collect();
    assert_eq!(paths, ["b", "d", "c", "a"]);
}

#[test]
fn page_drops_repeated_keys_and_pages() {
    let all = vec![
        result("s", "a", 1, 1),
        result("s", "b", 1, 5),
        result("s", "c", 1, 3),
        result("s", "d", 1, 5),
        result("s", "b", 1, 2),
    ];
    let (page, total) = page_results(all, 1, 2);
    assert_eq!(total, 4);
    let paths: Vec<&str> = page.iter().map(|x| x.path.as_str()).collect();
    assert_eq!(paths, ["d", "c"]);
    // A page past the end is empty.
    let (page, total) = page_results(vec![result("s", "a", 1, 1)], 5, 10);
    assert!(page.is_empty());
    assert_eq!(total, 1);
}

#[test]
fn page_keeps_same_path_on_other_lines_or_sources() {
    let all = vec![result("s", "a", 1, 1), result("s", "a", 2, 1), result("t", "a", 1, 1)];
    let (page, total) = page_results(all, 0, 10);
    assert_eq!(total, 3);
    assert_eq!(page.len(), 3);
}

#[test]
fn scoring_and_page_limits() {
    assert_eq!(scoring_limit(0, 50, 1000), 250);
    assert_eq!(scoring_limit(900, 50, 1000), 1000);
    assert_eq!(effective_limit(500, 200), 200);
    assert_eq!(effective_limit(20, 200), 20);
}

#[test]
fn fts_plan_per_mode() {
    assert_eq!(fts_plan(SearchMode::Fuzzy, "foo bar"), (false, "foo bar".to_string()));
    assert_eq!(fts_plan(SearchMode::Exact, "foo bar"), (true, "foo bar".to_string()));
    assert_eq!(fts_plan(SearchMode::FileRegex, "class\\s+Foo"), (false, "class Foo".to_string()));
    assert!(SearchMode::FileExact.is_filename_only());
    assert!(!SearchMode::Exact.is_filename_only());
}

#[test]
fn duplicates_are_attached_by_file_id() {
    let pairs = vec![
        ScoredResult { result: result("s", "a", 1, 1), file_id: 1 },
        ScoredResult { result: result("s", "b", 1, 1), file_id: 2 },
    ];
    let dups = vec![(2, vec!["copy/b".to_string()]), (2, vec!["ignored".to_string()])];
    let r = attach_duplicates(pairs, &dups);
    assert!(r[0].duplicate_paths.is_empty());
    assert_eq!(r[1].duplicate_paths, vec!["copy/b".to_string()]);
}

#[test]
fn regex_literal_runs_examples() {
    assert_eq!(regex_to_fts_terms("^fn\\s+\\w+"), "fn");
    assert_eq!(regex_to_fts_terms("class\\s+Foo"), "class Foo");
    assert_eq!(regex_to_fts_terms("password"), "password");
    assert_eq!(regex_to_fts_terms("a\\"), "a");
}

#[test]
fn date_filter_activity() {
    let mut f = DateFilter { from: None, to: None, kinds: vec![], filename_only: true, path_prefix: None };
    assert!(!f.is_active());
    f.kinds.push("pdf".to_string());
    assert!(f.is_active());
}

// ── matching ────────────────────────────────────────────────────────────────

#[test]
fn fuzzy_scorer_matches_and_rejects() {
    let mut s = FuzzyScorer::new("hlo", false);
    assert!(s.score("hello").is_some());
    assert!(s.score("zzz").is_none());
    let mut cs = FuzzyScorer::new("Hello", true);
    assert!(cs.score("hello").is_none());
    assert!(cs.score("Hello").is_some());
}

#[test]
fn regex_compile_match_and_find() {
    assert!(CompiledRegex::compile("(", false, false).is_err());
    let rx = CompiledRegex::compile("fo+", true, false).unwrap();
    assert!(rx.is_match("xFOO"));
    assert_eq!(rx.find("xfoo"), Some((1, 4)));
    assert_eq!(rx.find("bar"), None);
}

#[test]
fn matched_line_counts_newlines_before_the_match() {
    assert_eq!(matched_line("a\nbb\nccc", 5), (3, "ccc".to_string()));
    assert_eq!(matched_line("one", 0), (1, "one".to_string()));
    assert_eq!(matched_line("x\r\ny", 3), (2, "y".to_string()));
}

#[test]
fn case_sensitive_terms_only_when_respecting_case() {
    assert_eq!(case_sensitive_terms("Foo  bar", true), vec!["Foo".to_string(), "bar".to_string()]);
    assert!(case_sensitive_terms("Foo bar", false).is_empty());
}

#[test]
fn exact_mode_case_sensitive_needs_literal_content() {
    let cands = vec![cand(1, 4, "a.txt", ""), cand(2, 6, "b.txt", "has Needle")];
    let contents = vec![String::new(), String::new()];
    let r = line_mode_results(SearchMode::Exact, "Needle", true, "s", &cands, &contents).unwrap();
    assert_eq!(r.len(), 1);
    assert_eq!(r[0].file_id, 2);
    let r = line_mode_results(SearchMode::Exact, "Needle", false, "s", &cands, &contents).unwrap();
    assert_eq!(r.len(), 2);
}

#[test]
fn regex_mode_filters_on_loaded_content() {
    let cands = vec![cand(1, 4, "a.txt", ""), cand(2, 6, "b.txt", "")];
    let contents = vec!["say foo".to_string(), "bar".to_string()];
    let r = line_mode_results(SearchMode::Regex, "fo+", false, "s", &cands, &contents).unwrap();
    assert_eq!(r.len(), 1);
    assert_eq!(r[0].result.snippet, "say foo");
    assert!(line_mode_results(SearchMode::Regex, "(", false, "s", &cands, &contents).is_err());
}

#[test]
fn file_modes_keep_only_name_rows() {
    let cands = vec![cand(1, 0, "notes.txt", ""), cand(1, 5, "notes.txt", "")];
    let contents = vec![String::new(), String::new()];
    let r = line_mode_results(SearchMode::FileFuzzy, "notes", false, "s", &cands, &contents).unwrap();
    assert_eq!(r.len(), 1);
    assert_eq!(r[0].result.line_number, 0);
}

#[test]
fn fuzzy_content_search_keeps_unloaded_candidates() {
    // Content was not loaded: the path is scored, and a non-matching path
    // still keeps the candidate with score 1.
    let cands = vec![cand(1, 4, "zzz.txt", "")];
    let contents = vec![String::new()];
    let r = line_mode_results(SearchMode::Fuzzy, "query", false, "s", &cands, &contents).unwrap();
    assert_eq!(r.len(), 1);
    assert_eq!(r[0].result.score, 1);
    // Case-sensitive: every term must appear literally in content or path.
    let r = line_mode_results(SearchMode::Fuzzy, "Query", true, "s", &cands, &contents).unwrap();
    assert!(r.is_empty());
}

#[test]
fn document_results_score_and_extras() {
    let groups = vec![DocumentGroup {
        representative: cand(9, 3, "doc.txt", "zzz"),
        members: vec![cand(9, 8, "doc.txt", "m")],
    }];
    let r = document_results("query", false, "s", &groups);
    assert_eq!(r.len(), 1);
    assert_eq!(r[0].result.score, 1);
    assert_eq!(r[0].result.extra_matches.len(), 1);
    assert_eq!(r[0].result.extra_matches[0].line_number, 8);
}

#[test]
fn doc_regex_reports_line_of_first_match() {
    let groups = vec![
        DocumentGroup { representative: cand(1, 2, "a.txt", ""), members: vec![] },
        DocumentGroup { representative: cand(2, 2, "b.txt", ""), members: vec![] },
    ];
    let docs = vec!["intro\nthe UART\nupdates here".to_string(), "nothing".to_string()];
    let r = doc_regex_results("UART.*updates", false, "s", &groups, &docs).unwrap();
    assert_eq!(r.len(), 1);
    assert_eq!(r[0].file_id, 1);
    assert_eq!(r[0].result.line_number, 2);
    assert_eq!(r[0].result.snippet, "the UART");
}

// ── request parameters ──────────────────────────────────────────────────────

#[test]
fn search_params_are_decoded_and_read() {
    let p = parse_search_params(
        "q=hello%20world&mode=doc-exact&source=a&source=b&kind=pdf&limit=10&offset=5&date_from=-3&date_to=7&case_sensitive=true",
    )
    .unwrap();
    assert_eq!(p.q, "hello world");
    assert_eq!(p.mode, SearchMode::DocExact);
    assert_eq!(p.source, vec!["a".to_string(), "b".to_string()]);
    assert_eq!(p.kinds, vec!["pdf".to_string()]);
    assert_eq!((p.limit, p.offset), (10, 5));
    assert_eq!((p.date_from, p.date_to), (Some(-3), Some(7)));
    assert!(p.case_sensitive);
}

#[test]
fn search_params_defaults_and_errors() {
    let p = parse_search_params("q=a+b&mode=nonsense&case_sensitive=yes").unwrap();
    assert_eq!(p.q, "a b");
    assert_eq!(p.mode, SearchMode::Fuzzy);
    assert_eq!((p.limit, p.offset), (50, 0));
    assert!(!p.case_sensitive);
    assert_eq!(parse_search_params("q=x&limit=abc").err().unwrap(), "invalid limit");
    assert_eq!(parse_search_params("q=x&offset=-1").err().unwrap(), "invalid offset");
    assert_eq!(parse_search_params("q=x&date_from=z").err().unwrap(), "invalid date_from");
    assert_eq!(parse_search_params("limit=5").err().unwrap(), "missing 'q'");
    // The first bad number is reported even when q is missing.
    assert_eq!(parse_search_params("date_to=x").err().unwrap(), "invalid date_to");
}

#[test]
fn endpoint_query_helpers() {
    let f = FileParams {
        source: "s".into(),
        path: "a.zip".into(),
        archive_path: Some("b.txt".into()),
        link_code: None,
        offset: None,
        limit: None,
    };
    assert_eq!(f.full_path(), "a.zip::b.txt");
    assert_eq!(f.first_line(), 0);
    assert!(f.needs_bearer());
    let q = RecentQuery { limit: 2000, sort: "mtime".into() };
    assert_eq!(q.checked_limit().err().unwrap(), "limit exceeds maximum of 1000");
    assert!(q.sort_by_mtime());
    assert_eq!(RecentQuery::with_defaults().limit, 20);
    let r = RawParams { source: "s".into(), path: "p".into(), convert: Some("png".into()), link_code: None, download: Some("1".into()) };
    assert!(r.wants_png() && r.as_attachment());
}

// ── self-update ─────────────────────────────────────────────────────────────

#[test]
fn platform_and_tag_helpers() {
    assert_eq!(platform_suffix("x86_64", "linux").as_deref(), Some("x86_64-linux"));
    assert_eq!(platform_suffix("arm", "linux").as_deref(), Some("armv7-linux"));
    assert_eq!(platform_suffix("x86_64", "macos"), None);
    assert_eq!(version_from_tag(Some("vv1.2.3")), "1.2.3");
    assert_eq!(version_from_tag(None), "");
}

#[test]
fn asset_selection_takes_first_matching_name() {
    let assets = vec![
        (Some("find-x86_64-linux.tar".to_string()), None),
        (Some("find-aarch64-linux".to_string()), Some("url-a".to_string())),
        (Some("find-x86_64-linux".to_string()), Some("url-b".to_string())),
    ];
    assert_eq!(pick_asset_url(&assets, Some("aarch64-linux")).as_deref(), Some("url-a"));
    assert_eq!(pick_asset_url(&assets, Some("x86_64-linux")), None);
    assert_eq!(pick_asset_url(&assets, None), None);
}

#[test]
fn update_check_and_apply_decisions() {
    let v = update_verdict("1.3.0", "1.2.9", true, true, Some("x86_64-linux"));
    assert!(v.update_available && v.restart_supported && v.restart_unsupported_reason.is_none());
    let v = update_verdict("1.3.0", "1.2.9", false, true, None);
    assert!(!v.update_available && !v.restart_supported);
    assert_eq!(v.restart_unsupported_reason.as_deref(), Some("No release asset found for this platform (unknown)"));
    let v = update_verdict("1.3.0", "1.2.9", true, false, None);
    assert_eq!(v.restart_unsupported_reason.as_deref(), Some("Server is not running under systemd"));
    assert_eq!(apply_precheck("1.2.0", "1.2.0", Some("u".into()), None).err().unwrap(), "Already on the latest version (1.2.0)");
    assert_eq!(apply_precheck("2.0.0", "1.2.0", None, Some("arm")).err().unwrap(), "No release asset for this platform (arm)");
    assert_eq!(apply_precheck("2.0.0", "1.2.0", Some("u".into()), None).unwrap(), "u");
    let c = CachedUpdateCheck { checked_at: 100, latest_version: "1".into(), asset_url: None };
    assert!(c.is_fresh(3699));
    assert!(!c.is_fresh(3700));
    assert!(c.is_fresh(50));
}

#[test]
fn versions_compare_numerically() {
    assert!(version_gt("1.10.0", "1.9.9"));
    assert!(!version_gt("1.2.3", "1.2.3"));
    assert!(!version_gt("garbage", "1.0.0"));
}

// ── listings, paths and serving ─────────────────────────────────────────────

#[test]
fn listing_bounds() {
    assert_eq!(list_dir_bounds(""), (String::new(), "\u{FFFF}".to_string()));
    assert_eq!(list_dir_bounds("src/"), ("src/".to_string(), "src0".to_string()));
}

#[test]
fn relative_path_safety() {
    assert!(is_safe_relative_path("a/b.txt"));
    assert!(is_safe_relative_path("./a"));
    assert!(is_safe_relative_path("a/..b"));
    assert!(!is_safe_relative_path("/etc/passwd"));
    assert!(!is_safe_relative_path("\\x"));
    assert!(!is_safe_relative_path("a/../b"));
    assert!(!is_safe_relative_path(".."));
}

#[test]
fn resolved_paths_stay_inside_root() {
    assert!(path_within("/data/src", "/data/src/a.txt"));
    assert!(path_within("/data/src", "/data/src"));
    assert!(path_within("/data/src/", "/data/src/a"));
    assert!(!path_within("/data/src", "/data/srcx/a"));
    assert!(!path_within("/data/src", "/data"));
    assert!(!path_within("/data", "data/x"));
}

#[test]
fn member_depth_counts_separators() {
    assert_eq!(member_depth("x"), 1);
    assert_eq!(member_depth("a.zip::b.txt"), 2);
    assert_eq!(member_depth(":::"), 2);
}

#[test]
fn byte_range_resolution() {
    assert_eq!(resolve_range(0, Some(99), 1000), Some((0, 99, 100)));
    assert_eq!(resolve_range(500, None, 1000), Some((500, 999, 500)));
    assert_eq!(resolve_range(0, Some(5000), 1000), Some((0, 999, 1000)));
    assert_eq!(resolve_range(1000, None, 1000), None);
    assert_eq!(resolve_range(10, Some(5), 100), None);
    assert_eq!(resolve_range(0, None, 0), None);
    assert_eq!(content_range(0, 99, 1000), "bytes 0-99/1000");
    assert_eq!(unsatisfiable_range(1000), "bytes */1000");
}

#[test]
fn served_file_names_and_types() {
    assert_eq!(content_disposition(true, "a\"b.pdf"), "attachment; filename=\"ab.pdf\"");
    assert_eq!(content_disposition(false, "x.png"), "inline; filename=\"x.png\"");
    assert_eq!(png_name(Some("photo")), "photo.png");
    assert_eq!(png_name(None), "file.png");
    assert_eq!(content_type_for("dir/a.png"), "image/png");
    assert_eq!(content_type_for("noext"), "application/octet-stream");
}

// ── indexing decisions ──────────────────────────────────────────────────────

fn index_file(path: &str, kind: &str, mtime: i64) -> IndexFile {
    IndexFile {
        path: path.to_string(),
        mtime,
        size: Some(3),
        kind: kind.to_string(),
        lines: vec![IndexLine { archive_path: None, line_number: 0, content: path.to_string() }],
        extract_ms: Some(5),
        content_hash: Some("h".to_string()),
        scanner_version: 1,
        is_new: true,
    }
}

#[test]
fn activity_log_classification() {
    assert_eq!(activity_kind("a.txt", 5, true), Some(true));
    assert_eq!(activity_kind("a.txt", 5, false), Some(false));
    assert_eq!(activity_kind("a.zip::b.txt", 5, true), None);
    assert_eq!(activity_kind("a.zip", 0, true), None);
    let dels = vec!["x".to_string(), "a.zip::m".to_string(), "y".to_string()];
    assert_eq!(logged_deletes(&dels), vec!["x".to_string(), "y".to_string()]);
    let renames = vec![("a".to_string(), "b".to_string()), ("c::d".to_string(), "e".to_string())];
    assert_eq!(logged_renames(&renames), vec![("a".to_string(), "b".to_string())]);
}

#[test]
fn failed_files_fall_back() {
    let (f, skip) = fallback_for(&index_file("big.zip", "archive", 50));
    assert!(skip);
    assert_eq!(f.mtime, 0);
    assert_eq!(f.kind, "archive");
    let (f, skip) = fallback_for(&index_file("a.zip::b.zip", "archive", 50));
    assert!(!skip);
    assert_eq!(f.kind, "unknown");
    assert_eq!(f.mtime, 50);
    assert!(f.content_hash.is_none());
}

#[test]
fn storage_decisions() {
    assert!(needs_inner_delete(false, "a.zip", "archive", 0));
    assert!(!needs_inner_delete(true, "a.zip", "archive", 0));
    assert!(!needs_inner_delete(false, "a.zip", "archive", 9));
    assert_eq!(members_pattern("a.zip"), "a.zip::%");
    assert!(is_stale_upsert(5, Some(10)));
    assert!(!is_stale_upsert(0, Some(10)));
    assert!(!is_stale_upsert(15, Some(10)));
    assert!(!is_stale_upsert(5, None));
    let lines = vec![
        IndexLine { archive_path: None, line_number: 4, content: "dddd".into() },
        IndexLine { archive_path: None, line_number: 2, content: "bé".into() },
        IndexLine { archive_path: None, line_number: 3, content: "ccc".into() },
    ];
    // 4 + 3 (é is two bytes) + 3 = 10 bytes.
    assert!(use_inline_storage(&lines, 10));
    assert!(!use_inline_storage(&lines, 9));
    assert!(!use_inline_storage(&lines, 0));
    let (text, rows) = inline_layout(&lines);
    assert_eq!(text, "bé\nccc\ndddd");
    assert_eq!(rows, vec![(2, 0), (3, 1), (4, 2)]);
}

#[test]
fn coalescing_keeps_last_upsert_and_honours_deletes() {
    let s = |v: &[&str]| v.iter().map(|x| x.to_string()).collect::<Vec<String>>();
    let reqs = vec![
        (s(&[]), s(&["a", "b"])),
        (s(&["a"]), s(&["c", "b"])),
        (s(&[]), s(&["a", "c"])),
    ];
    let mut r = coalesce_upserts(&reqs);
    r.sort();
    // b's last upsert is in request 1, c's in request 2; a was deleted.
    assert_eq!(r, vec![(1, 1), (2, 1)]);
}

#[test]
fn line_references_follow_stored_chunks() {
    let maps = vec![
        LineMapping { line_number: 1, chunk_number: 0, offset_in_chunk: 0 },
        LineMapping { line_number: 2, chunk_number: 1, offset_in_chunk: 0 },
        LineMapping { line_number: 3, chunk_number: 5, offset_in_chunk: 1 },
    ];
    let refs = vec![
        ChunkRef { archive_name: "c1.zip".into(), chunk_name: "7.0".into() },
        ChunkRef { archive_name: "c1.zip".into(), chunk_name: "7.1".into() },
    ];
    let r = line_ref_updates(&maps, &refs);
    assert_eq!(r, vec![
        ("c1.zip".to_string(), "7.0".to_string(), 0, 1),
        ("c1.zip".to_string(), "7.1".to_string(), 0, 2),
    ]);
    let q = vec![("x".to_string(), "1".to_string()), ("y".to_string(), "2".to_string()), ("x".to_string(), "1".to_string())];
    assert_eq!(distinct_chunk_refs(&q).len(), 2);
}

#[test]
fn chunking_keeps_every_line() {
    let lines = vec![(2, "x".repeat(700)), (3, "y".repeat(700)), (5, String::new())];
    let r = chunk_lines(9, "f", &lines);
    let joined: String = r.chunks.iter().map(|c| c.content.as_str()).collect();
    let expected: String = lines.iter().map(|(_, c)| format!("{c}\n")).collect();
    assert_eq!(joined, expected);
    assert_eq!(r.line_mappings.len(), 3);
    assert_eq!(chunk_name(42, 3), "42.3");
    assert_eq!(archive_name_for_number(7), "content_00007.zip");
}

#[test]
fn shared_state_paths_and_locks() {
    let mut st = SharedArchiveState::new("/d".to_string(), &vec![("content_00003.zip".to_string(), 10)]);
    assert_eq!(st.total_archives(), 1);
    assert_eq!(st.archive_size_bytes(), 10);
    assert_eq!(st.archive_path_for_number(1234), "/d/sources/content/0001/content_01234.zip");
    let a = st.source_lock("s1");
    let b = st.source_lock("s2");
    assert_ne!(a, b);
    assert_eq!(st.source_lock("s1"), a);
}

// ── document mode ───────────────────────────────────────────────────────────

#[test]
fn document_tokens_and_expression() {
    assert_eq!(document_tokens("to be or not"), vec!["not".to_string()]);
    assert_eq!(token_phrase("a\"b"), "\"a\"\"b\"");
    assert_eq!(or_expression(&vec!["foo".to_string(), "bar".to_string()]), "\"foo\" OR \"bar\"");
    assert_eq!(per_file_cap(0), 1);
    assert_eq!(per_file_cap(3), 3);
    assert_eq!(fetch_limit(10, 2), 10_000);
    assert_eq!(fetch_limit(1000, 1), 20_000);
}

#[test]
fn intersection_of_token_files() {
    let mut r = intersect_ids(&vec![vec![1, 2, 3, 2], vec![3, 2, 9]]);
    r.sort();
    assert_eq!(r, vec![2, 3]);
    assert!(intersect_ids(&vec![]).is_empty());
}

#[test]
fn collector_stops_after_limit_files_are_full() {
    let mut c = DocumentCollector::new(vec![1, 2], 1, 2);
    assert!(c.offer(("x.txt".into(), "text".into(), 4, 3, 0, None)));
    assert!(c.offer(("a.zip::m.txt".into(), "text".into(), 5, 1, 7, Some(2))));
    assert!(c.offer(("a.zip::m.txt".into(), "text".into(), 6, 1, 7, Some(2))));
    assert!(!c.offer(("b.txt".into(), "pdf".into(), 8, 2, 9, None)));
    let groups = c.finish();
    assert_eq!(groups.len(), 2);
    assert_eq!(groups[0].representative.file_path, "a.zip");
    assert_eq!(groups[0].representative.archive_path.as_deref(), Some("m.txt"));
    assert_eq!(groups[0].representative.line_number, 5);
    assert_eq!(groups[1].representative.file_id, 2);
}

// ── recent activity ─────────────────────────────────────────────────────────

#[test]
fn recent_sources_and_merge() {
    assert_eq!(source_of_db_file("main.db").as_deref(), Some("main"));
    assert_eq!(source_of_db_file("notes.txt"), None);
    let mut all = recent_from_mtime_rows("a", vec![("x".into(), 5), ("y".into(), 9)]);
    assert_eq!(all[0].action, "modified");
    all.push(RecentFile { source: "b".into(), path: "z".into(), indexed_at: 9, action: "added".into(), new_path: None });
    let r = newest_first(all, 2);
    let paths: Vec<&str> = r.iter().map(|f| f.path.as_str()).collect();
    assert_eq!(paths, ["y", "z"]);
}

// ── statistics ──────────────────────────────────────────────────────────────

#[test]
fn stats_delta_clamps_at_zero_and_adds_kinds() {
    let mut cache = SourceStatsCache {
        sources: vec![CachedSourceStats {
            name: "s".into(),
            total_files: 5,
            total_size: 100,
            by_kind: vec![("text".into(), KindCount { count: 3, size: 60 })],
            by_ext: vec![],
            fts_row_count: 7,
        }],
        rebuilt_at: Some(1),
    };
    let delta = SourceStatsDelta {
        source: "s".into(),
        files_delta: -10,
        size_delta: -50,
        kind_deltas: vec![("text".into(), (-1, -70)), ("pdf".into(), (2, 30))],
    };
    cache.apply_delta(&delta);
    let s = &cache.sources[0];
    assert_eq!(s.total_files, 0);
    assert_eq!(s.total_size, 50);
    assert_eq!(s.by_kind.len(), 2);
    assert_eq!((s.by_kind[0].1.count, s.by_kind[0].1.size), (2, 0));
    assert_eq!(s.by_kind[1].0, "pdf");
    assert_eq!((s.by_kind[1].1.count, s.by_kind[1].1.size), (2, 30));
    let other = SourceStatsDelta { source: "new".into(), files_delta: 3, size_delta: 3, kind_deltas: vec![] };
    cache.apply_delta(&other);
    assert_eq!(cache.sources.len(), 1);
}

// ── formatters ──────────────────────────────────────────────────────────────

fn fmt(path: &str, args: &[&str], exts: &[&str], mode: FormatterMode) -> FormatterConfig {
    FormatterConfig {
        path: path.into(),
        args: args.iter().map(|a| a.to_string()).collect(),
        extensions: exts.iter().map(|e| e.to_string()).collect(),
        mode,
    }
}

#[test]
fn formatter_arguments_and_plans() {
    assert_eq!(replace_str("--file={name} {name}", "{name}", "a.rs"), "--file=a.rs a.rs");
    assert_eq!(replace_str("{{name}", "{name}", "x"), "{x");
    let fmts = vec![
        fmt("prettier", &["--stdin-filepath", "{name}"], &["js"], FormatterMode::Stdin),
        fmt("batchy", &["{dir}"], &["js"], FormatterMode::Batch),
        fmt("rustfmt", &[], &["rs"], FormatterMode::Stdin),
    ];
    let plan = stdin_formatter_plan(&fmts, "src/app.JS");
    assert_eq!(plan.len(), 1);
    assert_eq!(plan[0].0, 0);
    assert_eq!(plan[0].1, vec!["--stdin-filepath".to_string(), "src/app.JS".to_string()]);
    assert!(!accept_output(true, "  \n"));
    assert!(!accept_output(false, "x"));
    assert!(accept_output(true, "x"));
    let names = vec!["a.js".to_string(), "b.rs".to_string(), "c.js".to_string()];
    let m = batch_members(&fmts[1], &names, &vec![false, false, true]);
    assert_eq!(m, vec![(0, "js".to_string())]);
    assert_eq!(batch_file_name(3, "html"), "00003.html");
}

#[test]
fn formatted_text_replaces_content_lines() {
    let lines = vec![
        IndexLine { archive_path: None, line_number: 0, content: "f".into() },
        IndexLine { archive_path: None, line_number: 2, content: "old".into() },
    ];
    let r = apply_formatted_text(&lines, "a\nb\n").unwrap();
    assert_eq!(r.len(), 3);
    assert_eq!(r[1].line_number, LINE_CONTENT_START);
    assert_eq!(r[2].content, "b");
    assert!(apply_formatted_text(&lines, "   ").is_none());
}

// ── the inbox queue ─────────────────────────────────────────────────────────

#[test]
fn queue_order_and_dispatch() {
    let sorted = sort_by_age(vec![(3, "c".into()), (1, "a".into()), (2, "b".into())]);
    let paths: Vec<&str> = sorted.iter().map(|(_, p)| p.as_str()).collect();
    assert_eq!(paths, ["a", "b", "c"]);
    assert_eq!(dispatch_order(&sorted, &vec!["b".to_string()], false), vec!["a".to_string(), "c".to_string()]);
    assert!(dispatch_order(&sorted, &vec![], true).is_empty());
    assert_eq!(archive_batch(&sorted, 2), vec!["a".to_string(), "b".to_string()]);
    assert!(queue_drained(1, 2));
    assert!(!queue_drained(2, 2));
}

#[test]
fn request_outcomes() {
    match request_action(RequestOutcome::TimedOut, 30) {
        RequestAction::MoveToFailed(m) => assert_eq!(m, "Processing timed out after 30s"),
        _ => panic!("expected a failure"),
    }
    assert!(matches!(request_action(RequestOutcome::Indexed, 30), RequestAction::QueueForArchive));
    assert!(matches!(request_action(RequestOutcome::Failed { locked: true, message: "x".into() }, 30), RequestAction::RetryLater));
    match request_action(RequestOutcome::TaskFailed { message: "boom".into() }, 30) {
        RequestAction::MoveToFailed(m) => assert_eq!(m, "Task error: boom"),
        _ => panic!("expected a failure"),
    }
}

// ── uploads ─────────────────────────────────────────────────────────────────

#[test]
fn upload_chunk_checks() {
    assert!(matches!(check_patch(None, 0), PatchCheck::MissingRange));
    assert!(matches!(check_patch(Some("bytes 0-99/200"), 0), PatchCheck::Append));
    assert!(matches!(check_patch(Some("bytes 100-199/200"), 50), PatchCheck::Conflict(50)));
    assert!(matches!(check_patch(Some("garbage"), 50), PatchCheck::Append));
    let meta = UploadMeta { source: "s".into(), rel_path: "p".into(), mtime: 0, total_size: 200, created_at: 0 };
    assert!(upload_complete(200, &meta));
    assert!(!upload_complete(199, &meta));
}

// ── credentials, sources, context ───────────────────────────────────────────

#[test]
fn authorization_rule() {
    assert!(is_authorized("", None, None));
    assert!(is_authorized("tok", Some("Bearer tok"), None));
    assert!(!is_authorized("tok", Some("Bearer nope"), None));
    assert!(is_authorized("tok", None, Some("a=1; find_session=tok ")));
    assert!(!is_authorized("tok", None, Some("find_session=other")));
    assert!(is_valid_source_name("my-source_1"));
    assert!(!is_valid_source_name("../etc"));
}

#[test]
fn context_window_compaction() {
    let lines = vec![
        ContextLine { line_number: 4, content: "a".into() },
        ContextLine { line_number: 5, content: "b".into() },
    ];
    let (start, idx, rest) = compact_lines(lines, 5);
    assert_eq!((start, idx, rest.len()), (4, Some(1), 2));
    let (start, idx, _) = compact_lines(vec![], 5);
    assert_eq!((start, idx), (0, None));
}

// ── wrapping (law: every wrapped line is non-empty and at most the limit) ────

#[test]
fn wrapped_lines_respect_the_limit() {
    assert_eq!(wrap_at_words("aaa bbb ccc", 7), vec!["aaa bbb".to_string(), "ccc".to_string()]);
    for l in apply_word_wrap("one two three four five six seven\neight", 9) {
        assert!(l.chars().count() <= 9);
    }
}

// ── archive laws on concrete values ─────────────────────────────────────────

#[test]
fn archive_name_reads_back_as_its_number() {
    for n in [0u32, 1, 42, 99_999, 100_000, 4_294_967_295] {
        let name = archive_name_for_number(n);
        assert_eq!(parse_archive_number(&name), Some(n as usize));
    }
}

#[test]
fn allocation_wraps_past_u32_limit_without_repeating_the_last() {
    let listing = vec![("content_4294967294.zip".to_string(), 0u64)];
    let mut state = SharedArchiveState::new("/d".to_string(), &listing);
    let a = state.allocate_archive_num();
    let b = state.allocate_archive_num();
    assert_eq!(a, 4_294_967_295);
    assert_eq!(b, 0);
}

#[test]
fn seeded_counter_is_above_every_listed_archive() {
    let listing = vec![
        ("content_00009.zip".to_string(), 10u64),
        ("notes.txt".to_string(), 5u64),
        ("content_00003.zip".to_string(), 20u64),
    ];
    let mut state = SharedArchiveState::new("/d".to_string(), &listing);
    assert_eq!(state.total_archives(), 2);
    assert_eq!(state.archive_size_bytes(), 30);
    assert_eq!(state.allocate_archive_num(), 10);
}

#[test]
fn lock_slot_is_stable_across_later_registrations() {
    let mut reg = LockRegistry::new();
    let a = reg.slot_for("alpha");
    let b = reg.slot_for("beta");
    let a2 = reg.slot_for("alpha");
    let c = reg.slot_for("gamma");
    let b2 = reg.slot_for("beta");
    assert_eq!(a, a2);
    assert_eq!(b, b2);
    assert_ne!(a, b);
    assert_ne!(b, c);
    assert_eq!(reg.keys.len(), 3);
}

#[test]
fn raw_requests_lead_to_files_members_or_refusals() {
    match raw_target(Some("/data/src"), "docs/a.txt", 2) {
        RawTarget::File(full) => assert_eq!(full, "/data/src/docs/a.txt"),
        _ => panic!("a plain path leads to its file"),
    }
    match raw_target(Some("/data/src/"), "b.zip::inner.zip::c.txt", 2) {
        RawTarget::Member(outer, member) => {
            assert_eq!(outer, "/data/src/b.zip");
            assert_eq!(member, "inner.zip::c.txt");
        }
        _ => panic!("a composite path leads to its member"),
    }
    assert!(matches!(raw_target(Some("/r"), "b.zip::inner.zip::c.txt", 1), RawTarget::TooDeep));
    assert!(matches!(raw_target(Some("/r"), "../etc/passwd", 2), RawTarget::BadRequest));
    assert!(matches!(raw_target(Some("/r"), "/etc/passwd", 2), RawTarget::BadRequest));
    assert!(matches!(raw_target(Some("/r"), "../b.zip::c", 2), RawTarget::BadRequest));
    // The outer path is checked before the depth, the depth before the root.
    assert!(matches!(raw_target(None, "../b.zip::x::y::z", 1), RawTarget::BadRequest));
    assert!(matches!(raw_target(None, "b.zip::x::y::z", 1), RawTarget::TooDeep));
    assert!(matches!(raw_target(None, "a.txt", 1), RawTarget::NoRoot));
    assert!(matches!(raw_target(None, "b.zip::c", 1), RawTarget::NoRoot));
}

#[test]
fn members_up_to_sixty_four_mebibytes_are_read() {
    assert_eq!(MAX_MEMBER_BYTES, 64 * 1024 * 1024);
    assert!(member_fits(0));
    assert!(member_fits(64 * 1024 * 1024));
    assert!(!member_fits(64 * 1024 * 1024 + 1));
}

#[test]
fn range_plans_for_a_file() {
    assert!(matches!(range_plan(None, 100), RangePlan::Whole));
    assert!(matches!(range_plan(Some("items=0-5"), 100), RangePlan::Whole));
    assert!(matches!(range_plan(Some("bytes=0-1,4-5"), 100), RangePlan::Whole));
    match range_plan(Some("bytes=10-19"), 100) {
        RangePlan::Partial { start, end, len, content_range } => {
            assert_eq!((start, end, len), (10, 19, 10));
            assert_eq!(content_range, "bytes 10-19/100");
        }
        _ => panic!("a range inside the file is served in part"),
    }
    match range_plan(Some("bytes=90-"), 100) {
        RangePlan::Partial { start, end, len, content_range } => {
            assert_eq!((start, end, len), (90, 99, 10));
            assert_eq!(content_range, "bytes 90-99/100");
        }
        _ => panic!("an open range runs to the last byte"),
    }
    match range_plan(Some("bytes=95-500"), 100) {
        RangePlan::Partial { end, len, .. } => assert_eq!((end, len), (99, 5)),
        _ => panic!("the end is clamped to the last byte"),
    }
    match range_plan(Some("bytes=100-"), 100) {
        RangePlan::Unsatisfiable { content_range } => assert_eq!(content_range, "bytes */100"),
        _ => panic!("a start past the file is unsatisfiable"),
    }
    assert!(matches!(range_plan(Some("bytes=0-"), 0), RangePlan::Unsatisfiable { .. }));
}

#[test]
fn names_order_as_strings_do() {
    assert!(str_le("a", "b"));
    assert!(str_le("ab", "abc"));
    assert!(!str_le("abc", "ab"));
    assert!(str_le("", ""));
    assert!(str_le("Z", "a"));
    assert!(!str_le("é", "z"));
    let names: Vec<String> = ["delta", "Alpha", "beta", "alpha", "b"].iter().map(|s| s.to_string()).collect();
    let mut want = names.clone();
    want.sort();
    assert_eq!(sort_by_name(names), want);
    assert_eq!(sort_by_name(Vec::<String>::new()), Vec::<String>::new());
}

fn item(name: &str, size: u64) -> InboxItem {
    InboxItem { filename: name.to_string(), size_bytes: size, age_secs: 0 }
}

#[test]
fn inbox_listing_keeps_requests_in_name_order() {
    let listed = inbox_listing(vec![item("b.gz", 2), item("notes.txt", 9), item("a.gz", 1), item(".gz", 3), item("c.tar.gz", 4)]);
    let names: Vec<&str> = listed.iter().map(|i| i.filename.as_str()).collect();
    assert_eq!(names, ["a.gz", "b.gz", "c.tar.gz"]);
    assert_eq!(listed[0].size_bytes, 1);
    assert!(is_gz_file("x.gz"));
    assert!(is_gz_file("..gz"));
    assert!(!is_gz_file(".gz"));
    assert!(!is_gz_file("x.gzip"));
    assert!(!is_gz_file("gz"));
}

#[test]
fn inbox_show_and_clear_targets() {
    assert_eq!(shown_file_name("req_1"), "req_1.gz");
    assert_eq!(shown_file_name("req_1.gz"), "req_1.gz");
    assert_eq!(shown_file_name(""), ".gz");
    let lines = vec![
        IndexLine { archive_path: None, line_number: 0, content: "[PATH] a".into() },
        IndexLine { archive_path: None, line_number: 1, content: "x".into() },
        IndexLine { archive_path: None, line_number: 2, content: "y".into() },
    ];
    assert_eq!(content_line_count(&lines), 2);
    assert_eq!(clear_targets("failed"), (false, true));
    assert_eq!(clear_targets("all"), (true, true));
    assert_eq!(clear_targets("pending"), (true, false));
    assert_eq!(clear_targets("anything"), (true, false));
}

#[test]
fn sources_are_the_db_files_in_name_order() {
    let names: Vec<String> = ["work.db", "home.db", "notes.txt", "home.db-wal", "a.db"].iter().map(|s| s.to_string()).collect();
    assert_eq!(list_sources(names), vec!["a".to_string(), "home".to_string(), "work".to_string()]);
}

#[test]
fn rebuilt_cache_orders_sources_by_name() {
    let s = |n: &str| CachedSourceStats { name: n.into(), total_files: 1, total_size: 2, by_kind: vec![], by_ext: vec![], fts_row_count: 0 };
    let cache = rebuilt_cache(vec![s("zeta"), s("alpha"), s("mid")], 42);
    let names: Vec<&str> = cache.sources.iter().map(|x| x.name.as_str()).collect();
    assert_eq!(names, ["alpha", "mid", "zeta"]);
    assert_eq!(cache.rebuilt_at, Some(42));
}

#[test]
fn extractor_table_is_sorted_and_escaped() {
    assert_eq!(toml_extractors(vec![]), "");
    let e = |ext: &str, mode, bin: &str, args: &[&str]| ExtractorEntry {
        ext: ext.to_string(),
        mode,
        bin: bin.to_string(),
        args: args.iter().map(|a| a.to_string()).collect(),
    };
    let t = toml_extractors(vec![
        e("pdf", ExtractorMode::Stdout, "pdftotext", &["-", "{file}"]),
        e("doc", ExtractorMode::TempDir, "C:\\tools\\conv \"x\"", &[]),
    ]);
    assert_eq!(
        t,
        "\n[scan.extractors]\n\
doc = { mode = \"tempdir\", bin = \"C:\\\\tools\\\\conv \\\"x\\\"\", args = [] }\n\
pdf = { mode = \"stdout\", bin = \"pdftotext\", args = [\"-\", \"{file}\"] }\n"
    );
    assert_eq!(toml_escape("a\\b\"c"), "a\\\\b\\\"c");
}

#[test]
fn scanner_configuration_text() {
    let c = ScanConfig {
        server_url: "http://h:8080".into(),
        token: "t0k".into(),
        source: "docs".into(),
        root: "/tmp/find-upload-1".into(),
        wanted: vec!["**/*.txt".into()],
        exclude: vec![],
        exclude_extra: vec!["*.bak".into(), "*.tmp".into()],
        subprocess_timeout_secs: 30,
        max_content_size_mb: max_content_size(None, 10),
    };
    let t = scan_config_toml(&c, "");
    // The key of the wanted patterns, spelled out.
    let key: String = ['i', 'n', 'c', 'l', 'u', 'd', 'e'].iter().collect();
    let want = format!(
        "[server]\nurl = \"http://h:8080\"\ntoken = \"t0k\"\n\n\
[[sources]]\nname = \"docs\"\npath = \"/tmp/find-upload-1\"\n{key} = [\"**/*.txt\"]\n\n\
[scan]\nsubprocess_timeout_secs = 30\nmax_content_size_mb = 10\n\
exclude = []\nexclude_extra = [\"*.bak\", \"*.tmp\"]"
    );
    assert_eq!(t, want);
    assert_eq!(max_content_size(Some(3), 10), 3);
}

#[test]
fn upload_files_and_staleness() {
    assert!(matches!(upload_file("abc.meta"), UploadFile::Meta(s) if s == "abc"));
    assert!(matches!(upload_file("a.b.part"), UploadFile::Part(s) if s == "a.b"));
    assert!(matches!(upload_file(".meta"), UploadFile::Other));
    assert!(matches!(upload_file("abc.metadata"), UploadFile::Other));
    assert!(matches!(upload_file("abc"), UploadFile::Other));
    assert!(is_stale_upload(Some(7201)));
    assert!(!is_stale_upload(Some(7200)));
    assert!(!is_stale_upload(None));
}

fn il(n: usize, s: &str) -> IndexLine {
    IndexLine { archive_path: None, line_number: n, content: s.to_string() }
}

fn contents(v: &[IndexLine]) -> Vec<(usize, String)> {
    v.iter().map(|l| (l.line_number, l.content.clone())).collect()
}

#[test]
fn batch_output_replaces_content_and_marks_handled() {
    let mut files = vec![
        (0, "a.html".to_string(), vec![il(0, "[PATH] a.html"), il(2, "<p>x</p>")]),
        (1, "b.html".to_string(), vec![il(2, "<b>y</b>")]),
    ];
    let mut handled = vec![false, false];
    apply_batch_output(&mut files, &mut handled, 0, "<p>\n  x\n</p>\n");
    assert_eq!(handled, vec![true, false]);
    assert_eq!(
        contents(&files[0].2),
        vec![(0, "[PATH] a.html".to_string()), (2, "<p>".to_string()), (3, "  x".to_string()), (4, "</p>".to_string())]
    );
    assert_eq!(contents(&files[1].2), vec![(2, "<b>y</b>".to_string())]);
    // Blank output changes nothing.
    apply_batch_output(&mut files, &mut handled, 1, "  \n");
    assert_eq!(handled, vec![true, false]);
    assert_eq!(contents(&files[1].2), vec![(2, "<b>y</b>".to_string())]);
}

#[test]
fn finishing_a_batch_wraps_handled_and_normalizes_the_rest() {
    let c = LINE_CONTENT_START;
    let files = vec![
        (3, "long.txt".to_string(), vec![il(1, "meta"), il(c, "aaaa bbbb cccc")]),
        (4, "data.json".to_string(), vec![il(c, "{\"k\":1}")]),
        (5, "other.txt".to_string(), vec![il(c, "x")]),
    ];
    let out = finish_batch(files, &vec![true, false, false], vec![None, None, Some("from formatter".to_string())], 9);
    assert_eq!(out[0].0, 3);
    assert_eq!(contents(&out[0].2), vec![(1, "meta".to_string()), (c, "aaaa bbbb".to_string()), (c + 1, "cccc".to_string())]);
    assert_eq!(out[1].1, "data.json");
    assert_eq!(contents(&out[1].2), vec![(c, "{".to_string()), (c + 1, "  \"k\": 1".to_string()), (c + 2, "}".to_string())]);
    assert_eq!(contents(&out[2].2), vec![(c, "from".to_string()), (c + 1, "formatter".to_string())]);
    // Wrapping off: nothing changes.
    let files = vec![(0, "a.json".to_string(), vec![il(c, "{\"k\":1}")])];
    let out = finish_batch(files, &vec![false], vec![None], 0);
    assert_eq!(contents(&out[0].2), vec![(c, "{\"k\":1}".to_string())]);
}

#[test]
fn share_links_grant_exactly_their_file() {
    let found = |a: Option<&str>| LinkLookup::Found { source: "docs".into(), path: "a.zip".into(), archive_path: a.map(|x| x.to_string()) };
    assert!(matches!(link_verdict(&found(None), "docs", "a.zip"), LinkVerdict::Allowed));
    assert!(matches!(link_verdict(&found(Some("in.txt")), "docs", "a.zip::in.txt"), LinkVerdict::Allowed));
    assert!(matches!(link_verdict(&found(Some("in.txt")), "docs", "a.zip"), LinkVerdict::Forbidden));
    assert!(matches!(link_verdict(&found(None), "other", "a.zip"), LinkVerdict::Forbidden));
    // An empty member path still names a member.
    assert!(matches!(link_verdict(&found(Some("")), "docs", "a.zip::"), LinkVerdict::Allowed));
    assert!(matches!(link_verdict(&LinkLookup::Expired, "docs", "a.zip"), LinkVerdict::Gone));
    assert!(matches!(link_verdict(&LinkLookup::Unknown, "docs", "a.zip"), LinkVerdict::NotFound));
    assert!(matches!(link_verdict(&LinkLookup::Failed, "docs", "a.zip"), LinkVerdict::Failed));
}

#[test]
fn inline_views_by_kind_and_source_paths() {
    assert!(matches!(view_kind(None), ViewKind::NotIndexed));
    assert!(matches!(view_kind(Some("image")), ViewKind::Image));
    assert!(matches!(view_kind(Some("dicom")), ViewKind::Dicom));
    assert!(matches!(view_kind(Some("text")), ViewKind::Unsupported));
    match source_path_target(Some("/srv"), "scans/x.dcm") {
        RawTarget::File(f) => assert_eq!(f, "/srv/scans/x.dcm"),
        _ => panic!("a safe path under a root leads to its file"),
    }
    // Composite paths are not split here.
    match source_path_target(Some("/srv"), "a.zip::b.dcm") {
        RawTarget::File(f) => assert_eq!(f, "/srv/a.zip::b.dcm"),
        _ => panic!("the whole path is taken"),
    }
    assert!(matches!(source_path_target(Some("/srv"), "../x"), RawTarget::BadRequest));
    assert!(matches!(source_path_target(None, "x"), RawTarget::NoRoot));
}

#[test]
fn images_convert_to_png() {
    let img = image::DynamicImage::ImageRgb8(image::RgbImage::from_pixel(2, 3, image::Rgb([10, 20, 30])));
    let mut tiff_bytes = Vec::new();
    img.write_to(&mut std::io::Cursor::new(&mut tiff_bytes), image::ImageFormat::Tiff).unwrap();
    let png = find_server::tiff::png_from_bytes(&tiff_bytes).unwrap();
    assert_eq!(&png[..8], &[0x89, b'P', b'N', b'G', 0x0D, 0x0A, 0x1A, 0x0A]);
    let back = image::load_from_memory(&png).unwrap().into_rgb8();
    assert_eq!((back.width(), back.height()), (2, 3));
    assert_eq!(back.get_pixel(1, 2).0, [10, 20, 30]);
    assert!(find_server::tiff::png_from_bytes(&vec![1, 2, 3]).is_err());
}

#[test]
fn inbox_paused_alert_text() {
    assert_eq!(alert_subject(3), "find-anything inbox worker paused (3 consecutive timeouts)");
    let body = alert_body("nas", 3, 120, "2024-01-02 03:04:05 UTC");
    assert!(body.starts_with("The find-anything inbox worker on nas has been automatically paused\nafter 3 consecutive request processing timeouts (120s each).\n\n"));
    assert!(body.contains("Time of last timeout: 2024-01-02 03:04:05 UTC\n\n"));
    assert!(body.contains("To resume:\nfind-admin inbox resume\n\nOr via the API:\nPOST /api/v1/admin/inbox/resume\n"));
    assert!(body.ends_with("in the server data directory.\n"));
    assert_eq!(hostname_from(Some("  box-1\n")), "box-1");
    assert_eq!(hostname_from(Some(" \n")), "unknown");
    assert_eq!(hostname_from(None), "unknown");
    let s = |x: &str| Some(x.to_string());
    let r = alert_route(&s("a@x"), &s("smtp.x"), &s("f@x")).unwrap();
    assert_eq!((r.to.as_str(), r.host.as_str(), r.from.as_str()), ("a@x", "smtp.x", "f@x"));
    assert!(alert_route(&None, &s("smtp.x"), &s("f@x")).is_none());
    assert!(alert_route(&s("a@x"), &s("smtp.x"), &None).is_none());
}

#[test]
fn web_assets_config_and_build_label() {
    assert_eq!(asset_path("/"), "index.html");
    assert_eq!(asset_path(""), "index.html");
    assert_eq!(asset_path("//app/main.js"), "app/main.js");
    let script = config_script(2);
    assert_eq!(script, "<script>window.find_anything_config={\"download_zip_member_levels\":2};</script>");
    assert_eq!(
        inject_config("<html><head><title>x</title></head><body></body></head></html>", "<s/>"),
        "<html><head><title>x</title><s/></head><body></body></head></html>"
    );
    assert_eq!(inject_config("<p>no head</p>", "<s/>"), "<p>no head</p>");
    assert_eq!(build_label("1.2.3", "abc123", "v1.2.3", ""), "release");
    assert_eq!(build_label("1.2.3", "abc123", " v1.2.3\n", " "), "release");
    assert_eq!(build_label("1.2.3", "abc123", "v1.2.3", "dirty"), "dev");
    assert_eq!(build_label("1.2.3", "abc123", "v1.2.2", ""), "abc123");
    assert_eq!(build_label("1.2.3", "abc123", "", ""), "abc123");
}

#[test]
fn colormap_entries_become_16_bit_values() {
    assert_eq!(colormap_entry(ColorMapValue::Short(65535)), 65535);
    assert_eq!(colormap_entry(ColorMapValue::Big(0x1_0005)), 5);
    assert_eq!(colormap_entry(ColorMapValue::Big(u64::MAX)), 0xFFFF);
    assert_eq!(colormap_entry(ColorMapValue::Byte(200)), 200);
    assert_eq!(colormap_entry(ColorMapValue::Other), 0);
    let table = colormap_table(&vec![ColorMapValue::Byte(1), ColorMapValue::Other, ColorMapValue::Short(300)]);
    assert_eq!(table, vec![1, 0, 300]);
}

#[test]
fn equal_ages_keep_their_order() {
    let sorted = sort_by_age(vec![(2, "x".into()), (1, "a".into()), (2, "y".into()), (1, "b".into()), (2, "z".into())]);
    let names: Vec<&str> = sorted.iter().map(|f| f.1.as_str()).collect();
    assert_eq!(names, vec!["a", "b", "x", "y", "z"]);
}

#[test]
fn prefix_bump_bounds_the_paths_under_a_prefix() {
    let upper = find_server::paths::prefix_bump("docs/");
    assert_eq!(upper, "docs0");
    for p in ["docs/", "docs/a.txt", "docs/z/zz", "docs/\u{e9}t\u{e9}.md"] {
        assert!("docs/" <= p && p < upper.as_str(), "{p}");
    }
    assert!("docs0" >= upper.as_str());
    assert!("doc" < "docs/");
}
