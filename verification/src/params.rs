//! Request parameters: the search query string, decoded with the
//! `form_urlencoded` crate and read into `SearchParams`, and the query
//! structures of the other endpoints with the defaults and checks they
//! apply.
use vstd::prelude::*;
use crate::text::{to_chars, parse_usize, parse_usize_spec, parse_i64, parse_i64_spec};
use crate::paths::{str_eq, composite_path, composite_path_spec};
use crate::index::opt_view;
use crate::results::SearchMode;
use crate::wrap::views;

verus! {

// ── Decoding a query string ──────────────────────────────────────────────────

/// The name/value pairs that `form_urlencoded::parse` decodes from the
/// bytes of a query string (`+` as space, percent escapes, invalid UTF-8
/// replaced), in order.
pub uninterp spec fn url_pairs_of(query: Seq<u8>) -> Seq<(Seq<char>, Seq<char>)>;

/// The views of name/value pairs.
pub open spec fn pair_views(v: Seq<(String, String)>) -> Seq<(Seq<char>, Seq<char>)> {
    v.map_values(|p: (String, String)| (p.0@, p.1@))
}

/// `form_urlencoded::parse` over the bytes of `raw`, each pair made owned.
/// Trusted: the result is the named `url_pairs_of` of those bytes.
#[verifier::external_body]
fn decode_query_pairs(raw: &str) -> (r: Vec<(String, String)>)
    ensures
        pair_views(r@) == url_pairs_of(vstd::utf8::encode_utf8(raw@)),
{
    form_urlencoded::parse(raw.as_bytes()).map(|(k, v)| (k.into_owned(), v.into_owned())).collect()
}

// ── Search parameters ────────────────────────────────────────────────────────

/// The parameters of a search request.
pub struct SearchParams {
    pub q: String,
    pub mode: SearchMode,
    /// Collected from repeated `source=` pairs.
    pub source: Vec<String>,
    pub limit: usize,
    pub offset: usize,
    /// Optional bounds on the modification time.
    pub date_from: Option<i64>,
    pub date_to: Option<i64>,
    /// File kinds to keep; empty keeps every kind.
    pub kinds: Vec<String>,
    /// Whether matching respects case.
    pub case_sensitive: bool,
}

/// The wire name of each search mode.
pub open spec fn mode_of_name(name: Seq<char>) -> Option<SearchMode> {
    if name == "fuzzy"@ {
        Some(SearchMode::Fuzzy)
    } else if name == "exact"@ {
        Some(SearchMode::Exact)
    } else if name == "regex"@ {
        Some(SearchMode::Regex)
    } else if name == "document"@ {
        Some(SearchMode::Document)
    } else if name == "doc-exact"@ {
        Some(SearchMode::DocExact)
    } else if name == "doc-regex"@ {
        Some(SearchMode::DocRegex)
    } else if name == "file-fuzzy"@ {
        Some(SearchMode::FileFuzzy)
    } else if name == "file-exact"@ {
        Some(SearchMode::FileExact)
    } else if name == "file-regex"@ {
        Some(SearchMode::FileRegex)
    } else {
        None
    }
}

impl SearchMode {
    /// The mode named `name`; an unknown name gives the default, fuzzy.
    pub fn from_name(name: &str) -> (m: SearchMode)
        ensures
            m == (match mode_of_name(name@) {
                Some(m) => m,
                None => SearchMode::Fuzzy,
            }),
    {
        if str_eq(name, "fuzzy") {
            SearchMode::Fuzzy
        } else if str_eq(name, "exact") {
            SearchMode::Exact
        } else if str_eq(name, "regex") {
            SearchMode::Regex
        } else if str_eq(name, "document") {
            SearchMode::Document
        } else if str_eq(name, "doc-exact") {
            SearchMode::DocExact
        } else if str_eq(name, "doc-regex") {
            SearchMode::DocRegex
        } else if str_eq(name, "file-fuzzy") {
            SearchMode::FileFuzzy
        } else if str_eq(name, "file-exact") {
            SearchMode::FileExact
        } else if str_eq(name, "file-regex") {
            SearchMode::FileRegex
        } else {
            SearchMode::Fuzzy
        }
    }
}

/// What the pairs read so far say, before defaults are applied.
pub struct ParamsSoFar {
    pub q: Option<Seq<char>>,
    pub mode: SearchMode,
    pub source: Seq<Seq<char>>,
    pub limit: Option<usize>,
    pub offset: Option<usize>,
    pub date_from: Option<i64>,
    pub date_to: Option<i64>,
    pub kinds: Seq<Seq<char>>,
    pub case_sensitive: bool,
}

/// Reading one pair: a later `q`, `mode`, `limit`, `offset`, `date_from`,
/// `date_to` or `case_sensitive` replaces an earlier one; `source` and
/// `kind` accumulate; other names are ignored. A number that does not
/// parse is an error naming the parameter.
pub open spec fn read_pair(st: ParamsSoFar, k: Seq<char>, v: Seq<char>) -> Result<ParamsSoFar, Seq<char>> {
    if k == "q"@ {
        Ok(ParamsSoFar { q: Some(v), ..st })
    } else if k == "mode"@ {
        Ok(ParamsSoFar { mode: match mode_of_name(v) { Some(m) => m, None => SearchMode::Fuzzy }, ..st })
    } else if k == "source"@ {
        Ok(ParamsSoFar { source: st.source.push(v), ..st })
    } else if k == "kind"@ {
        Ok(ParamsSoFar { kinds: st.kinds.push(v), ..st })
    } else if k == "limit"@ {
        match parse_usize_spec(v) {
            Some(n) => Ok(ParamsSoFar { limit: Some(n), ..st }),
            None => Err("invalid limit"@),
        }
    } else if k == "offset"@ {
        match parse_usize_spec(v) {
            Some(n) => Ok(ParamsSoFar { offset: Some(n), ..st }),
            None => Err("invalid offset"@),
        }
    } else if k == "date_from"@ {
        match parse_i64_spec(v) {
            Some(n) => Ok(ParamsSoFar { date_from: Some(n), ..st }),
            None => Err("invalid date_from"@),
        }
    } else if k == "date_to"@ {
        match parse_i64_spec(v) {
            Some(n) => Ok(ParamsSoFar { date_to: Some(n), ..st }),
            None => Err("invalid date_to"@),
        }
    } else if k == "case_sensitive"@ {
        Ok(ParamsSoFar { case_sensitive: v == "1"@ || v == "true"@, ..st })
    } else {
        Ok(st)
    }
}

/// Nothing read yet.
pub open spec fn params_start() -> ParamsSoFar {
    ParamsSoFar {
        q: None,
        mode: SearchMode::Fuzzy,
        source: Seq::empty(),
        limit: None,
        offset: None,
        date_from: None,
        date_to: None,
        kinds: Seq::empty(),
        case_sensitive: false,
    }
}

/// The first `n` pairs read in order; the first error stops the reading.
pub open spec fn read_pairs(pairs: Seq<(Seq<char>, Seq<char>)>, n: int) -> Result<ParamsSoFar, Seq<char>>
    decreases n,
{
    if n <= 0 {
        Ok(params_start())
    } else {
        match read_pairs(pairs, n - 1) {
            Ok(st) => read_pair(st, pairs[n - 1].0, pairs[n - 1].1),
            Err(e) => Err(e),
        }
    }
}

/// Once reading fails, later pairs keep the same error.
proof fn lemma_read_pairs_err(pairs: Seq<(Seq<char>, Seq<char>)>, i: int, n: int)
    requires
        0 <= i <= n,
        read_pairs(pairs, i) is Err,
    ensures
        read_pairs(pairs, n) == read_pairs(pairs, i),
    decreases n - i,
{
    if n > i {
        lemma_read_pairs_err(pairs, i, n - 1);
    }
}

/// The parameters given by `st`, with limit 50 and offset 0 by default;
/// an error when `q` is missing.
pub open spec fn finish_params(st: ParamsSoFar) -> Result<ParamsSoFar, Seq<char>> {
    match st.q {
        None => Err("missing 'q'"@),
        Some(q) => Ok(ParamsSoFar {
            limit: Some(match st.limit { Some(l) => l, None => 50usize }),
            offset: Some(match st.offset { Some(o) => o, None => 0usize }),
            ..st
        }),
    }
}

/// The parameters that a list of pairs gives, or the first error.
pub open spec fn search_params_spec(pairs: Seq<(Seq<char>, Seq<char>)>) -> Result<ParamsSoFar, Seq<char>> {
    match read_pairs(pairs, pairs.len() as int) {
        Ok(st) => finish_params(st),
        Err(e) => Err(e),
    }
}

/// Whether `p` holds what `st` says.
pub open spec fn params_match(p: SearchParams, st: ParamsSoFar) -> bool {
    &&& st.q == Some(p.q@)
    &&& p.mode == st.mode
    &&& views(p.source@) == st.source
    &&& st.limit == Some(p.limit)
    &&& st.offset == Some(p.offset)
    &&& p.date_from == st.date_from
    &&& p.date_to == st.date_to
    &&& views(p.kinds@) == st.kinds
    &&& p.case_sensitive == st.case_sensitive
}

/// The value of `v` as a string, parsed as a `usize`.
fn parse_usize_str(v: &str) -> (r: Option<usize>)
    ensures
        r == parse_usize_spec(v@),
{
    let c = to_chars(v);
    assert(c@.subrange(0, c@.len() as int) == c@);
    parse_usize(&c, 0, c.len())
}

/// The value of `v` as a string, parsed as an `i64`.
fn parse_i64_str(v: &str) -> (r: Option<i64>)
    ensures
        r == parse_i64_spec(v@),
{
    let c = to_chars(v);
    assert(c@.subrange(0, c@.len() as int) == c@);
    parse_i64(&c, 0, c.len())
}

/// An error message.
fn message(s: &str) -> (r: String)
    ensures
        r@ == s@,
{
    s.to_owned()
}

/// Reads search parameters from decoded name/value pairs (see
/// `search_params_spec`).
pub fn search_params_from_pairs(pairs: &Vec<(String, String)>) -> (r: Result<SearchParams, String>)
    ensures
        match (r, search_params_spec(pair_views(pairs@))) {
            (Ok(p), Ok(st)) => params_match(p, st),
            (Err(e), Err(m)) => e@ == m,
            _ => false,
        },
{
    let ghost pv = pair_views(pairs@);
    let mut q: Option<String> = None;
    let mut mode = SearchMode::Fuzzy;
    let mut source: Vec<String> = Vec::new();
    let mut limit: Option<usize> = None;
    let mut offset: Option<usize> = None;
    let mut date_from: Option<i64> = None;
    let mut date_to: Option<i64> = None;
    let mut kinds: Vec<String> = Vec::new();
    let mut case_sensitive = false;
    assert(views(source@) =~= Seq::<Seq<char>>::empty());
    assert(views(kinds@) =~= Seq::<Seq<char>>::empty());
    let mut i: usize = 0;
    while i < pairs.len()
        invariant
            i <= pairs@.len(),
            pv == pair_views(pairs@),
            read_pairs(pv, i as int) == Ok::<ParamsSoFar, Seq<char>>(ParamsSoFar {
                q: match q { Some(s) => Some(s@), None => None },
                mode,
                source: views(source@),
                limit,
                offset,
                date_from,
                date_to,
                kinds: views(kinds@),
                case_sensitive,
            }),
        decreases pairs@.len() - i,
    {
        let k = pairs[i].0.as_str();
        let v = pairs[i].1.as_str();
        assert(pv[i as int] == (k@, v@));
        if str_eq(k, "q") {
            q = Some(v.to_owned());
        } else if str_eq(k, "mode") {
            mode = SearchMode::from_name(v);
        } else if str_eq(k, "source") {
            let ghost old_s = source@;
            source.push(v.to_owned());
            assert(views(source@) =~= views(old_s).push(v@));
        } else if str_eq(k, "kind") {
            let ghost old_k = kinds@;
            kinds.push(v.to_owned());
            assert(views(kinds@) =~= views(old_k).push(v@));
        } else if str_eq(k, "limit") {
            match parse_usize_str(v) {
                Some(n) => { limit = Some(n); },
                None => {
                    proof { lemma_read_pairs_err(pv, i + 1, pv.len() as int); }
                    return Err(message("invalid limit"));
                },
            }
        } else if str_eq(k, "offset") {
            match parse_usize_str(v) {
                Some(n) => { offset = Some(n); },
                None => {
                    proof { lemma_read_pairs_err(pv, i + 1, pv.len() as int); }
                    return Err(message("invalid offset"));
                },
            }
        } else if str_eq(k, "date_from") {
            match parse_i64_str(v) {
                Some(n) => { date_from = Some(n); },
                None => {
                    proof { lemma_read_pairs_err(pv, i + 1, pv.len() as int); }
                    return Err(message("invalid date_from"));
                },
            }
        } else if str_eq(k, "date_to") {
            match parse_i64_str(v) {
                Some(n) => { date_to = Some(n); },
                None => {
                    proof { lemma_read_pairs_err(pv, i + 1, pv.len() as int); }
                    return Err(message("invalid date_to"));
                },
            }
        } else if str_eq(k, "case_sensitive") {
            case_sensitive = str_eq(v, "1") || str_eq(v, "true");
        }
        i = i + 1;
    }
    assert(pv.len() == pairs@.len());
    match q {
        None => Err(message("missing 'q'")),
        Some(q) => Ok(SearchParams {
            q,
            mode,
            source,
            limit: match limit { Some(l) => l, None => 50 },
            offset: match offset { Some(o) => o, None => 0 },
            date_from,
            date_to,
            kinds,
            case_sensitive,
        }),
    }
}

/// Reads the search parameters of a raw query string: decodes its pairs,
/// then reads them (see `search_params_spec`).
pub fn parse_search_params(raw_query: &str) -> (r: Result<SearchParams, String>)
    ensures
        match (r, search_params_spec(url_pairs_of(vstd::utf8::encode_utf8(raw_query@)))) {
            (Ok(p), Ok(st)) => params_match(p, st),
            (Err(e), Err(m)) => e@ == m,
            _ => false,
        },
{
    let pairs = decode_query_pairs(raw_query);
    search_params_from_pairs(&pairs)
}

// ── Query structures of the other endpoints ──────────────────────────────────

/// `GET /file`: one file's lines.
pub struct FileParams {
    pub source: String,
    pub path: String,
    /// Older clients send the member separately; it is joined to `path`.
    pub archive_path: Option<String>,
    /// A share-link code, accepted in place of a bearer token.
    pub link_code: Option<String>,
    /// Index of the first content line returned.
    pub offset: Option<usize>,
    /// Most content lines returned.
    pub limit: Option<usize>,
}

impl FileParams {
    /// The composite path of the requested file.
    pub fn full_path(&self) -> (r: String)
        ensures
            r@ == composite_path_spec(self.path@, opt_view(self.archive_path)),
    {
        match &self.archive_path {
            Some(a) => composite_path(self.path.as_str(), Some(a.as_str())),
            None => composite_path(self.path.as_str(), None),
        }
    }

    /// The first content line returned: `offset`, 0 by default.
    pub fn first_line(&self) -> (r: usize)
        ensures
            r == match self.offset { Some(o) => o, None => 0 },
    {
        match self.offset { Some(o) => o, None => 0 }
    }

    /// Whether the request must carry a bearer token: only when it has no
    /// share-link code.
    pub fn needs_bearer(&self) -> (b: bool)
        ensures
            b == (self.link_code is None),
    {
        self.link_code.is_none()
    }
}

/// `GET /files`: a source's file list, or the files matching `q`.
pub struct FilesParams {
    pub source: String,
    pub q: Option<String>,
    pub limit: Option<usize>,
}

impl FilesParams {
    /// Most matches returned: `limit`, 50 by default.
    pub fn match_limit(&self) -> (r: usize)
        ensures
            r == match self.limit { Some(l) => l, None => 50 },
    {
        match self.limit { Some(l) => l, None => 50 }
    }
}

/// The most recent files a request may ask for.
pub const MAX_RECENT_LIMIT: usize = 1000;

/// `GET /recent`: recently indexed or modified files.
pub struct RecentQuery {
    /// 20 by default.
    pub limit: usize,
    /// `mtime` sorts by modification time; anything else by indexing time.
    pub sort: String,
}

/// The error for a limit above the maximum.
pub open spec fn recent_limit_error() -> Seq<char> {
    "limit exceeds maximum of 1000"@
}

impl RecentQuery {
    /// A query with the defaults: limit 20, indexing-time order.
    pub fn with_defaults() -> (r: RecentQuery)
        ensures
            r.limit == 20,
            r.sort@.len() == 0,
    {
        RecentQuery { limit: crate::http::default_limit(), sort: String::new() }
    }

    /// The limit, or the error when it exceeds `MAX_RECENT_LIMIT`.
    pub fn checked_limit(&self) -> (r: Result<usize, String>)
        ensures
            match r {
                Ok(l) => l == self.limit && self.limit <= MAX_RECENT_LIMIT,
                Err(e) => self.limit > MAX_RECENT_LIMIT && e@ == recent_limit_error(),
            },
    {
        if self.limit > MAX_RECENT_LIMIT {
            Err("limit exceeds maximum of 1000".to_owned())
        } else {
            Ok(self.limit)
        }
    }

    /// Whether results are ordered by modification time.
    pub fn sort_by_mtime(&self) -> (b: bool)
        ensures
            b == (self.sort@ == "mtime"@),
    {
        str_eq(self.sort.as_str(), "mtime")
    }
}

/// `GET /tree`: the children of a directory (empty prefix: the root).
pub struct TreeParams {
    pub source: String,
    /// Ends with `/` below the root, or with `::` inside an archive.
    pub prefix: String,
}

/// `GET /raw`: a file's bytes.
pub struct RawParams {
    pub source: String,
    pub path: String,
    /// `png` asks for the image re-encoded as PNG.
    pub convert: Option<String>,
    /// A share-link code, accepted in place of a bearer token.
    pub link_code: Option<String>,
    /// `1` asks for an attachment rather than inline display.
    pub download: Option<String>,
}

impl RawParams {
    /// Whether the file is to be converted to PNG.
    pub fn wants_png(&self) -> (b: bool)
        ensures
            b == (opt_view(self.convert) == Some("png"@)),
    {
        match &self.convert {
            Some(c) => str_eq(c.as_str(), "png"),
            None => false,
        }
    }

    /// Whether the file is sent as an attachment.
    pub fn as_attachment(&self) -> (b: bool)
        ensures
            b == (opt_view(self.download) == Some("1"@)),
    {
        match &self.download {
            Some(d) => str_eq(d.as_str(), "1"),
            None => false,
        }
    }
}

/// `GET /view`: an image for display.
pub struct ViewParams {
    pub source: String,
    /// Composite path of the image.
    pub path: String,
}

/// `DELETE /admin/inbox`: which queue to clear.
pub struct InboxDeleteQuery {
    /// `pending` by default.
    pub target: String,
}

impl InboxDeleteQuery {
    /// A query with the default target, `pending`.
    pub fn with_default() -> (r: InboxDeleteQuery)
        ensures
            r.target@ == seq!['p', 'e', 'n', 'd', 'i', 'n', 'g'],
    {
        InboxDeleteQuery { target: crate::http::default_target() }
    }
}

/// `GET /admin/inbox/show`: one queued request.
pub struct InboxShowQuery {
    pub name: String,
}

/// `POST /admin/compact`: compaction, or only a report of what it would
/// free.
pub struct CompactQuery {
    pub dry_run: bool,
}

/// `DELETE /admin/source`: the source to delete.
pub struct DeleteSourceQuery {
    pub source: String,
}

} // verus!
