//! Where chunked uploads are kept, and the small text the server writes for
//! the scanner that indexes an upload.
use vstd::prelude::*;
use crate::text::{push_str, push_char, push_decimal, decimal_digits, to_chars, string_from_chars};
use crate::paths::{join, join_spec, has_char, last_index_of, rfind_char};
use crate::order::{Named, sort_by_name, sorted_by_name};

verus! {

/// `uploads`
pub open spec fn uploads_word() -> Seq<char> {
    seq!['u', 'p', 'l', 'o', 'a', 'd', 's']
}

/// The directory of in-progress uploads under the data directory.
pub fn uploads_dir(data_dir: &str) -> (r: String)
    ensures
        r@ == join_spec(data_dir@, uploads_word()),
{
    proof { reveal_strlit("uploads"); }
    assert("uploads"@ =~= uploads_word());
    join(data_dir, "uploads")
}

/// The sidecar metadata file of upload `id`: `<id>.meta`.
pub fn meta_path(uploads: &str, id: &str) -> (r: String)
    ensures
        r@ == join_spec(uploads@, id@ + seq!['.', 'm', 'e', 't', 'a']),
{
    let mut name = String::new();
    push_str(&mut name, id);
    push_char(&mut name, '.');
    push_char(&mut name, 'm');
    push_char(&mut name, 'e');
    push_char(&mut name, 't');
    push_char(&mut name, 'a');
    assert(name@ =~= id@ + seq!['.', 'm', 'e', 't', 'a']);
    join(uploads, name.as_str())
}

/// The partial content file of upload `id`: `<id>.part`.
pub fn part_path(uploads: &str, id: &str) -> (r: String)
    ensures
        r@ == join_spec(uploads@, id@ + seq!['.', 'p', 'a', 'r', 't']),
{
    let mut name = String::new();
    push_str(&mut name, id);
    push_char(&mut name, '.');
    push_char(&mut name, 'p');
    push_char(&mut name, 'a');
    push_char(&mut name, 'r');
    push_char(&mut name, 't');
    assert(name@ =~= id@ + seq!['.', 'p', 'a', 'r', 't']);
    join(uploads, name.as_str())
}

/// The current size of an upload's partial file, given the length the file
/// system reports for it (none when the file is absent): the length, or 0.
pub fn part_size(len: Option<u64>) -> (r: u64)
    ensures
        r == match len { Some(n) => n, None => 0 },
{
    match len {
        Some(n) => n,
        None => 0,
    }
}

/// `items` as a TOML inline array of strings: `["a", "b"]` (the items are
/// quoted as they are).
pub open spec fn toml_string_array_spec(items: Seq<Seq<char>>) -> Seq<char>
    decreases items.len(),
{
    seq!['['] + toml_items(items) + seq![']']
}

/// The quoted items joined with `, `.
pub open spec fn toml_items(items: Seq<Seq<char>>) -> Seq<char>
    decreases items.len(),
{
    if items.len() == 0 {
        Seq::empty()
    } else if items.len() == 1 {
        seq!['"'] + items[0] + seq!['"']
    } else {
        toml_items(items.drop_last()) + seq![',', ' ', '"'] + items.last() + seq!['"']
    }
}

/// Renders strings as a TOML inline array.
pub fn toml_string_array(items: &Vec<String>) -> (r: String)
    ensures
        r@ == toml_string_array_spec(crate::wrap::views(items@)),
{
    let ghost vs = crate::wrap::views(items@);
    let mut s = String::new();
    push_char(&mut s, '[');
    let mut i: usize = 0;
    while i < items.len()
        invariant
            i <= items@.len(),
            vs == crate::wrap::views(items@),
            s@ == seq!['['] + toml_items(vs.subrange(0, i as int)),
        decreases items@.len() - i,
    {
        assert(vs.subrange(0, i + 1).drop_last() == vs.subrange(0, i as int));
        assert(vs.subrange(0, i + 1).last() == items@[i as int]@);
        if i > 0 {
            push_char(&mut s, ',');
            push_char(&mut s, ' ');
        } else {
            assert(vs.subrange(0, 1)[0] == items@[0]@);
        }
        push_char(&mut s, '"');
        push_str(&mut s, items[i].as_str());
        push_char(&mut s, '"');
        i = i + 1;
        assert(s@ =~= seq!['['] + toml_items(vs.subrange(0, i as int)));
    }
    push_char(&mut s, ']');
    assert(vs.subrange(0, items@.len() as int) == vs);
    assert(s@ =~= toml_string_array_spec(vs));
    s
}

// ── Receiving chunks ─────────────────────────────────────────────────────────

/// The metadata of an upload in progress.
pub struct UploadMeta {
    pub source: String,
    pub rel_path: String,
    pub mtime: i64,
    pub total_size: u64,
    pub created_at: i64,
}

/// What to do with a received chunk.
pub enum PatchCheck {
    /// No `Content-Range` header: the request is refused.
    MissingRange,
    /// The chunk does not start where the received bytes end: refused,
    /// with the number of bytes received so far.
    Conflict(u64),
    /// The chunk is appended.
    Append,
}

/// Checks a chunk against what was received: it needs a `Content-Range`
/// header, and when the header names a start, that start must equal the
/// bytes received so far (a header whose start does not parse is
/// accepted).
pub fn check_patch(content_range: Option<&str>, received: u64) -> (r: PatchCheck)
    ensures
        match content_range {
            None => r is MissingRange,
            Some(h) => match crate::http::parse_content_range_start_spec(h@) {
                Some(start) => if start != received { r matches PatchCheck::Conflict(n) && n == received } else { r is Append },
                None => r is Append,
            },
        },
{
    match content_range {
        None => PatchCheck::MissingRange,
        Some(h) => match crate::http::parse_content_range_start(h) {
            Some(start) => if start != received { PatchCheck::Conflict(received) } else { PatchCheck::Append },
            None => PatchCheck::Append,
        },
    }
}

/// Whether every byte of an upload has arrived, so that it is indexed.
pub fn upload_complete(received: u64, meta: &UploadMeta) -> (b: bool)
    ensures
        b == (received >= meta.total_size),
{
    received >= meta.total_size
}


// ── The scanner's configuration ──────────────────────────────────────────────

/// How an external extractor hands back its text.
#[derive(Clone, Copy, Debug, PartialEq, Eq, Structural)]
pub enum ExtractorMode {
    Stdout,
    TempDir,
}

/// An external extractor configured for a file extension.
pub struct ExtractorEntry {
    pub ext: String,
    pub mode: ExtractorMode,
    pub bin: String,
    pub args: Vec<String>,
}

impl Named for ExtractorEntry {
    open spec fn name_of(&self) -> Seq<char> {
        self.ext@
    }

    fn name(&self) -> (r: &str) {
        self.ext.as_str()
    }
}

/// `s` with each `\` doubled and each `"` escaped as `\"`, for a TOML
/// basic string.
pub open spec fn toml_escape_spec(s: Seq<char>) -> Seq<char>
    decreases s.len(),
{
    if s.len() == 0 {
        s
    } else if s.last() == '\\' {
        toml_escape_spec(s.drop_last()) + seq!['\\', '\\']
    } else if s.last() == '"' {
        toml_escape_spec(s.drop_last()) + seq!['\\', '"']
    } else {
        toml_escape_spec(s.drop_last()).push(s.last())
    }
}

/// Escapes `s` for a TOML basic string (see `toml_escape_spec`).
pub fn toml_escape(s: &str) -> (r: String)
    ensures
        r@ == toml_escape_spec(s@),
{
    let v = to_chars(s);
    let mut out = String::new();
    let mut i: usize = 0;
    while i < v.len()
        invariant
            i <= v@.len(),
            v@ == s@,
            out@ == toml_escape_spec(v@.subrange(0, i as int)),
        decreases v@.len() - i,
    {
        assert(v@.subrange(0, i + 1).drop_last() =~= v@.subrange(0, i as int));
        if v[i] == '\\' {
            push_char(&mut out, '\\');
            push_char(&mut out, '\\');
        } else if v[i] == '"' {
            push_char(&mut out, '\\');
            push_char(&mut out, '"');
        } else {
            push_char(&mut out, v[i]);
        }
        i = i + 1;
        assert(out@ =~= toml_escape_spec(v@.subrange(0, i as int)));
    }
    assert(v@.subrange(0, v@.len() as int) =~= v@);
    out
}

/// The name of a mode in the configuration.
pub open spec fn mode_word(m: ExtractorMode) -> Seq<char> {
    match m {
        ExtractorMode::Stdout => "stdout"@,
        ExtractorMode::TempDir => "tempdir"@,
    }
}

/// One extractor's line: `<ext> = { mode = "<mode>", bin = "<bin>", args = [..] }`.
pub open spec fn extractor_line(e: ExtractorEntry) -> Seq<char> {
    e.ext@ + " = { mode = \""@ + mode_word(e.mode) + "\", bin = \""@ + toml_escape_spec(e.bin@) + "\", args = "@
        + toml_string_array_spec(crate::wrap::views(e.args@)) + " }\n"@
}

/// The lines of `s` in order.
pub open spec fn extractor_lines(s: Seq<ExtractorEntry>) -> Seq<char>
    decreases s.len(),
{
    if s.len() == 0 { Seq::empty() } else { extractor_lines(s.drop_last()) + extractor_line(s.last()) }
}

/// The extractor table of the scanner's configuration for extractors
/// listed in the order `s`: nothing when there are none, else the
/// `[scan.extractors]` header and one line each.
pub open spec fn extractors_toml_spec(s: Seq<ExtractorEntry>) -> Seq<char> {
    if s.len() == 0 { Seq::empty() } else { "\n[scan.extractors]\n"@ + extractor_lines(s) }
}

/// Appends one extractor's line.
fn push_extractor_line(out: &mut String, e: &ExtractorEntry)
    ensures
        final(out)@ == old(out)@ + extractor_line(*e),
{
    push_str(out, e.ext.as_str());
    push_str(out, " = { mode = \"");
    match e.mode {
        ExtractorMode::Stdout => push_str(out, "stdout"),
        ExtractorMode::TempDir => push_str(out, "tempdir"),
    }
    push_str(out, "\", bin = \"");
    let b = toml_escape(e.bin.as_str());
    push_str(out, b.as_str());
    push_str(out, "\", args = ");
    let a = toml_string_array(&e.args);
    push_str(out, a.as_str());
    push_str(out, " }\n");
}

/// The extractor table of the scanner's configuration: the extractors in
/// the order of their extensions (see `extractors_toml_spec`).
pub fn toml_extractors(extractors: Vec<ExtractorEntry>) -> (r: String)
    ensures
        exists|s: Seq<ExtractorEntry>| #[trigger] extractors_toml_spec(s) == r@
            && sorted_by_name(s) && s.to_multiset() == extractors@.to_multiset(),
{
    let sorted = sort_by_name(extractors);
    let ghost s = sorted@;
    if sorted.len() == 0 {
        let r = String::new();
        assert(extractors_toml_spec(s) == r@);
        return r;
    }
    let mut out = "\n[scan.extractors]\n".to_owned();
    let mut i: usize = 0;
    while i < sorted.len()
        invariant
            i <= sorted@.len(),
            s == sorted@,
            out@ == "\n[scan.extractors]\n"@ + extractor_lines(s.subrange(0, i as int)),
        decreases sorted@.len() - i,
    {
        assert(s.subrange(0, i + 1).drop_last() =~= s.subrange(0, i as int));
        push_extractor_line(&mut out, &sorted[i]);
        i = i + 1;
        assert(out@ =~= "\n[scan.extractors]\n"@ + extractor_lines(s.subrange(0, i as int)));
    }
    assert(s.subrange(0, s.len() as int) =~= s);
    assert(extractors_toml_spec(s) == out@);
    out
}

/// What the scanner's configuration for one upload says.
pub struct ScanConfig {
    pub server_url: String,
    pub token: String,
    pub source: String,
    /// The directory the uploaded file was placed under.
    pub root: String,
    /// The patterns of files to take.
    pub wanted: Vec<String>,
    pub exclude: Vec<String>,
    pub exclude_extra: Vec<String>,
    pub subprocess_timeout_secs: u64,
    /// The client's limit where it sent one, else the server's.
    pub max_content_size_mb: u64,
}

/// The largest content the scanner extracts for an upload, in MB: the
/// client's hint when it sent one, else the server's setting.
pub fn max_content_size(hint: Option<u64>, server_default: u64) -> (r: u64)
    ensures
        r == match hint { Some(h) => h, None => server_default },
{
    match hint {
        Some(h) => h,
        None => server_default,
    }
}

/// The key of a source's list of wanted patterns.
pub open spec fn wanted_key() -> Seq<char> {
    seq!['i', 'n', 'c', 'l', 'u', 'd', 'e']
}

/// The text of the scanner's configuration file: the server to submit to,
/// the one source rooted at the upload's directory, the scan settings, and
/// the extractor table `extractors`.
pub open spec fn scan_config_spec(c: ScanConfig, extractors: Seq<char>) -> Seq<char> {
    "[server]\nurl = \""@ + c.server_url@ + "\"\ntoken = \""@ + c.token@ + "\"\n\n"@
        + "[[sources]]\nname = \""@ + c.source@ + "\"\npath = \""@ + c.root@ + "\"\n"@ + wanted_key() + " = "@
        + toml_string_array_spec(crate::wrap::views(c.wanted@)) + "\n\n"@
        + "[scan]\nsubprocess_timeout_secs = "@ + decimal_digits(c.subprocess_timeout_secs as nat)
        + "\nmax_content_size_mb = "@ + decimal_digits(c.max_content_size_mb as nat)
        + "\nexclude = "@ + toml_string_array_spec(crate::wrap::views(c.exclude@))
        + "\nexclude_extra = "@ + toml_string_array_spec(crate::wrap::views(c.exclude_extra@)) + extractors
}

/// Writes the scanner's configuration (see `scan_config_spec`).
pub fn scan_config_toml(c: &ScanConfig, extractors: &str) -> (r: String)
    ensures
        r@ == scan_config_spec(*c, extractors@),
{
    let mut s = "[server]\nurl = \"".to_owned();
    push_str(&mut s, c.server_url.as_str());
    push_str(&mut s, "\"\ntoken = \"");
    push_str(&mut s, c.token.as_str());
    push_str(&mut s, "\"\n\n");
    push_str(&mut s, "[[sources]]\nname = \"");
    push_str(&mut s, c.source.as_str());
    push_str(&mut s, "\"\npath = \"");
    push_str(&mut s, c.root.as_str());
    push_str(&mut s, "\"\n");
    let key = vec!['i', 'n', 'c', 'l', 'u', 'd', 'e'];
    crate::text::push_chars(&mut s, &key, 0, key.len());
    assert(key@.subrange(0, 7) =~= wanted_key());
    push_str(&mut s, " = ");
    let inc = toml_string_array(&c.wanted);
    push_str(&mut s, inc.as_str());
    push_str(&mut s, "\n\n");
    push_str(&mut s, "[scan]\nsubprocess_timeout_secs = ");
    push_decimal(&mut s, c.subprocess_timeout_secs);
    push_str(&mut s, "\nmax_content_size_mb = ");
    push_decimal(&mut s, c.max_content_size_mb);
    push_str(&mut s, "\nexclude = ");
    let exc = toml_string_array(&c.exclude);
    push_str(&mut s, exc.as_str());
    push_str(&mut s, "\nexclude_extra = ");
    let extra = toml_string_array(&c.exclude_extra);
    push_str(&mut s, extra.as_str());
    push_str(&mut s, extractors);
    assert(s@ =~= scan_config_spec(*c, extractors@));
    s
}

// ── Cleaning up stale uploads ────────────────────────────────────────────────

/// Uploads with no activity for this long are removed: two hours.
pub const STALE_UPLOAD_SECS: u64 = 7200;

/// A file of the uploads directory.
pub enum UploadFile {
    /// `<stem>.meta`: an upload's metadata.
    Meta(String),
    /// `<stem>.part`: an upload's received bytes.
    Part(String),
    /// Anything else.
    Other,
}

/// A file name's stem and extension as `Path` reads them: split at the
/// last `.`, unless that `.` begins the name (then it has no extension).
pub open spec fn stem_and_ext(name: Seq<char>) -> Option<(Seq<char>, Seq<char>)> {
    if has_char(name, '.') {
        let d = choose|d: int| last_index_of(name, '.', d);
        if d > 0 { Some((name.subrange(0, d), name.subrange(d + 1, name.len() as int))) } else { None }
    } else {
        None
    }
}

/// What a file of the uploads directory is, by its name.
pub open spec fn upload_file_spec(name: Seq<char>, r: UploadFile) -> bool {
    match stem_and_ext(name) {
        Some((stem, ext)) => if ext == "meta"@ {
            r matches UploadFile::Meta(s) && s@ == stem
        } else if ext == "part"@ {
            r matches UploadFile::Part(s) && s@ == stem
        } else {
            r is Other
        },
        None => r is Other,
    }
}

/// What a file of the uploads directory is (see `upload_file_spec`).
pub fn upload_file(name: &str) -> (r: UploadFile)
    ensures
        upload_file_spec(name@, r),
{
    let v = to_chars(name);
    match rfind_char(&v, 0, v.len(), '.') {
        Some(d) => {
            proof {
                assert(last_index_of(v@, '.', d as int));
                let e = choose|e: int| last_index_of(name@, '.', e);
                assert(e == d) by {
                    if e < d { assert(v@[d as int] == '.'); }
                    if e > d { assert(v@[e] == '.'); }
                }
            }
            if d == 0 {
                return UploadFile::Other;
            }
            let stem = string_from_chars(&v, 0, d);
            let ext = string_from_chars(&v, d + 1, v.len());
            if crate::paths::str_eq(ext.as_str(), "meta") {
                UploadFile::Meta(stem)
            } else if crate::paths::str_eq(ext.as_str(), "part") {
                UploadFile::Part(stem)
            } else {
                UploadFile::Other
            }
        },
        None => {
            assert(!has_char(name@, '.'));
            UploadFile::Other
        },
    }
}

/// Whether an upload whose metadata was last touched `age_secs` ago (none
/// when unknown) is stale: older than `STALE_UPLOAD_SECS`.
pub fn is_stale_upload(age_secs: Option<u64>) -> (b: bool)
    ensures
        b == match age_secs { Some(a) => a > STALE_UPLOAD_SECS, None => false },
{
    match age_secs {
        Some(a) => a > STALE_UPLOAD_SECS,
        None => false,
    }
}

} // verus!
