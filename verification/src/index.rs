//! Indexed files and their lines, and the normalization of extracted text
//! before it is stored: built-in pretty-printing, the result of an external
//! formatter, word wrapping, and renumbering of the content lines.
use vstd::prelude::*;
use crate::text::{to_chars, push_str, push_char, trim, trim_bounds};
use crate::paths::{extension_of, extension_spec};
use crate::wrap::{apply_word_wrap, apply_word_wrap_spec, views};

verus! {

/// The first line number that holds file content; lower numbers hold the
/// path (0) and metadata (1).
pub const LINE_CONTENT_START: usize = 2;

/// One line of an indexed file.
#[derive(Clone, Debug)]
pub struct IndexLine {
    pub archive_path: Option<String>,
    pub line_number: usize,
    pub content: String,
}

/// The model of a line: archive path, number and content as characters.
pub type LineView = (Option<Seq<char>>, int, Seq<char>);

/// The model of an optional string.
pub open spec fn opt_view(o: Option<String>) -> Option<Seq<char>> {
    match o {
        Some(s) => Some(s@),
        None => None,
    }
}

impl IndexLine {
    /// The model of this line.
    pub open spec fn view_line(&self) -> LineView {
        (opt_view(self.archive_path), self.line_number as int, self.content@)
    }

    /// An equal copy of this line.
    pub fn duplicate(&self) -> (r: IndexLine)
        ensures
            r.view_line() == self.view_line(),
    {
        IndexLine {
            archive_path: match &self.archive_path {
                Some(a) => Some(a.clone()),
                None => None,
            },
            line_number: self.line_number,
            content: self.content.clone(),
        }
    }
}

/// The models of a sequence of lines.
pub open spec fn line_views(v: Seq<IndexLine>) -> Seq<LineView> {
    v.map_values(|l: IndexLine| l.view_line())
}

/// One file of an indexing request.
#[derive(Debug)]
pub struct IndexFile {
    pub path: String,
    pub mtime: i64,
    pub size: Option<i64>,
    pub kind: String,
    pub lines: Vec<IndexLine>,
    pub extract_ms: Option<u64>,
    pub content_hash: Option<String>,
    pub scanner_version: u32,
    pub is_new: bool,
}

/// `archive`
pub open spec fn archive_kind() -> Seq<char> {
    seq!['a', 'r', 'c', 'h', 'i', 'v', 'e']
}

/// `unknown`
pub open spec fn unknown_kind() -> Seq<char> {
    seq!['u', 'n', 'k', 'n', 'o', 'w', 'n']
}

/// A string with the characters of a literal vector.
fn string_of(v: Vec<char>) -> (s: String)
    ensures
        s@ == v@,
{
    let s = crate::text::string_from_chars(&v, 0, v.len());
    assert(v@.subrange(0, v@.len() as int) == v@);
    s
}

/// The single path line (line 0) of a file.
fn path_line(path: &String) -> (l: IndexLine)
    ensures
        l.archive_path is None,
        l.line_number == 0,
        l.content@ == path@,
{
    IndexLine { archive_path: None, line_number: 0, content: path.clone() }
}

/// A copy of `file` indexed by name only: a single path line, no content
/// hash or extraction time; an archive is recorded with kind `unknown` so
/// that it is not treated as an archive again.
pub fn filename_only_file(file: &IndexFile) -> (r: IndexFile)
    ensures
        r.path@ == file.path@,
        r.mtime == file.mtime,
        r.size == file.size,
        r.kind@ == (if file.kind@ == archive_kind() { unknown_kind() } else { file.kind@ }),
        r.lines@.len() == 1,
        r.lines@[0].archive_path is None,
        r.lines@[0].line_number == 0,
        r.lines@[0].content@ == file.path@,
        r.extract_ms is None,
        r.content_hash is None,
        r.scanner_version == file.scanner_version,
        r.is_new == file.is_new,
{
    let kv = to_chars(file.kind.as_str());
    let archive = vec!['a', 'r', 'c', 'h', 'i', 'v', 'e'];
    assert(archive@ =~= archive_kind());
    let is_archive = kv.len() == 7 && crate::text::matches_at(&kv, &archive, 0);
    proof {
        if kv.len() == 7 { assert(kv@.subrange(0, 7) == kv@); }
        if kv@ == archive_kind() { assert(kv@.len() == 7); }
    }
    let kind = if is_archive {
        let u = string_of(vec!['u', 'n', 'k', 'n', 'o', 'w', 'n']);
        assert(u@ =~= unknown_kind());
        u
    } else {
        file.kind.clone()
    };
    let mut lines = Vec::new();
    lines.push(path_line(&file.path));
    IndexFile {
        path: file.path.clone(),
        mtime: file.mtime,
        size: file.size,
        kind,
        lines,
        extract_ms: None,
        content_hash: None,
        scanner_version: file.scanner_version,
        is_new: file.is_new,
    }
}

/// A placeholder for a top-level archive: kind `archive`, modification time
/// 0 (so the archive is re-examined on the next scan), a single path line.
pub fn outer_archive_stub(file: &IndexFile) -> (r: IndexFile)
    ensures
        r.path@ == file.path@,
        r.mtime == 0,
        r.size == file.size,
        r.kind@ == archive_kind(),
        r.lines@.len() == 1,
        r.lines@[0].archive_path is None,
        r.lines@[0].line_number == 0,
        r.lines@[0].content@ == file.path@,
        r.extract_ms is None,
        r.content_hash is None,
        r.scanner_version == file.scanner_version,
        r.is_new == file.is_new,
{
    let kind = string_of(vec!['a', 'r', 'c', 'h', 'i', 'v', 'e']);
    assert(kind@ =~= archive_kind());
    let mut lines = Vec::new();
    lines.push(path_line(&file.path));
    IndexFile {
        path: file.path.clone(),
        mtime: 0,
        size: file.size,
        kind,
        lines,
        extract_ms: None,
        content_hash: None,
        scanner_version: file.scanner_version,
        is_new: file.is_new,
    }
}

// ── Ordering and joining content lines ───────────────────────────────────────

/// The lines of `s` numbered below `LINE_CONTENT_START` (path and metadata),
/// in order.
pub open spec fn meta_part(s: Seq<LineView>) -> Seq<LineView>
    decreases s.len(),
{
    if s.len() == 0 {
        s
    } else if s.last().1 < LINE_CONTENT_START {
        meta_part(s.drop_last()).push(s.last())
    } else {
        meta_part(s.drop_last())
    }
}

/// The content lines of `s` (numbered `LINE_CONTENT_START` or above), in
/// order.
pub open spec fn content_part(s: Seq<LineView>) -> Seq<LineView>
    decreases s.len(),
{
    if s.len() == 0 {
        s
    } else if s.last().1 >= LINE_CONTENT_START {
        content_part(s.drop_last()).push(s.last())
    } else {
        content_part(s.drop_last())
    }
}

/// `x` inserted into `s` after every line whose number is at most that of
/// `x` (one step of a stable insertion sort).
pub open spec fn insert_by_number(s: Seq<LineView>, x: LineView) -> Seq<LineView>
    decreases s.len(),
{
    if s.len() == 0 || s.last().1 <= x.1 {
        s.push(x)
    } else {
        insert_by_number(s.drop_last(), x).push(s.last())
    }
}

/// `s` stably sorted by line number (`sort_by_key` on the line number).
pub open spec fn sort_by_number(s: Seq<LineView>) -> Seq<LineView>
    decreases s.len(),
{
    if s.len() == 0 { s } else { insert_by_number(sort_by_number(s.drop_last()), s.last()) }
}

/// The contents of `s` joined with newlines.
pub open spec fn join_contents(s: Seq<LineView>) -> Seq<char>
    decreases s.len(),
{
    if s.len() == 0 {
        Seq::empty()
    } else if s.len() == 1 {
        s[0].2
    } else {
        join_contents(s.drop_last()) + seq!['\n'] + s.last().2
    }
}

/// The text of a file's content lines, in line-number order.
pub open spec fn content_text_spec(s: Seq<LineView>) -> Seq<char> {
    join_contents(sort_by_number(content_part(s)))
}

/// Inserting into `s` at `j` where everything before `j` has a number at
/// most that of `x` and everything after has a larger one is the stable
/// insertion step.
proof fn lemma_insert_at(s: Seq<LineView>, x: LineView, j: int)
    requires
        0 <= j <= s.len(),
        j > 0 ==> s[j - 1].1 <= x.1,
        forall|k: int| j <= k < s.len() ==> s[k].1 > x.1,
    ensures
        insert_by_number(s, x) == s.subrange(0, j).push(x) + s.subrange(j, s.len() as int),
    decreases s.len(),
{
    if s.len() == 0 {
        assert(s.subrange(0, j).push(x) + s.subrange(j, s.len() as int) =~= s.push(x));
    } else if s.last().1 <= x.1 {
        assert(j == s.len());
        assert(s.subrange(0, j).push(x) + s.subrange(j, s.len() as int) =~= s.push(x));
    } else {
        let pre = s.drop_last();
        lemma_insert_at(pre, x, j);
        assert(pre.subrange(0, j).push(x) + pre.subrange(j, pre.len() as int)
            + seq![s.last()] =~= s.subrange(0, j).push(x) + s.subrange(j, s.len() as int));
    }
}

/// The lines of `lines` in line-number order (stable), as copies.
pub fn sort_lines_by_number(lines: &Vec<IndexLine>) -> (r: Vec<IndexLine>)
    ensures
        line_views(r@) == sort_by_number(line_views(lines@)),
{
    let ghost lv = line_views(lines@);
    let mut out: Vec<IndexLine> = Vec::new();
    let mut i: usize = 0;
    while i < lines.len()
        invariant
            i <= lines@.len(),
            lv == line_views(lines@),
            line_views(out@) == sort_by_number(lv.subrange(0, i as int)),
        decreases lines@.len() - i,
    {
        let x = lines[i].duplicate();
        let ghost xv = x.view_line();
        assert(lv.subrange(0, i + 1).drop_last() == lv.subrange(0, i as int));
        assert(lv.subrange(0, i + 1).last() == xv);
        let mut j = out.len();
        let ghost sv = line_views(out@);
        while j > 0 && out[j - 1].line_number > x.line_number
            invariant
                j <= out@.len(),
                sv == line_views(out@),
                xv == x.view_line(),
                forall|k: int| j <= k < out@.len() ==> out@[k].line_number > x.line_number,
            decreases j,
        {
            j = j - 1;
        }
        proof {
            assert forall|k: int| j <= k < sv.len() implies sv[k].1 > xv.1 by {
                assert(sv[k] == out@[k].view_line());
            }
            if j > 0 { assert(sv[j - 1] == out@[j - 1].view_line()); }
            lemma_insert_at(sv, xv, j as int);
        }
        out.insert(j, x);
        assert(line_views(out@) =~= sv.subrange(0, j as int).push(xv) + sv.subrange(j as int, sv.len() as int));
        i = i + 1;
    }
    assert(lv.subrange(0, lines@.len() as int) == lv);
    out
}

/// Copies of the lines numbered below `LINE_CONTENT_START` and of the
/// others, each in order.
pub fn partition_lines(lines: &Vec<IndexLine>) -> (r: (Vec<IndexLine>, Vec<IndexLine>))
    ensures
        line_views(r.0@) == meta_part(line_views(lines@)),
        line_views(r.1@) == content_part(line_views(lines@)),
{
    let ghost lv = line_views(lines@);
    let mut meta: Vec<IndexLine> = Vec::new();
    let mut content: Vec<IndexLine> = Vec::new();
    let mut i: usize = 0;
    while i < lines.len()
        invariant
            i <= lines@.len(),
            lv == line_views(lines@),
            line_views(meta@) == meta_part(lv.subrange(0, i as int)),
            line_views(content@) == content_part(lv.subrange(0, i as int)),
        decreases lines@.len() - i,
    {
        assert(lv.subrange(0, i + 1).drop_last() == lv.subrange(0, i as int));
        assert(lv.subrange(0, i + 1).last() == lines@[i as int].view_line());
        let x = lines[i].duplicate();
        let ghost m0 = line_views(meta@);
        let ghost c0 = line_views(content@);
        if x.line_number < LINE_CONTENT_START {
            meta.push(x);
            assert(line_views(meta@) =~= m0.push(lines@[i as int].view_line()));
        } else {
            content.push(x);
            assert(line_views(content@) =~= c0.push(lines@[i as int].view_line()));
        }
        i = i + 1;
    }
    assert(lv.subrange(0, lines@.len() as int) == lv);
    (meta, content)
}

/// The contents of already ordered lines joined with newlines.
pub fn join_line_contents(lines: &Vec<IndexLine>) -> (r: String)
    ensures
        r@ == join_contents(line_views(lines@)),
{
    let ghost lv = line_views(lines@);
    let mut s = String::new();
    let mut i: usize = 0;
    while i < lines.len()
        invariant
            i <= lines@.len(),
            lv == line_views(lines@),
            s@ == join_contents(lv.subrange(0, i as int)),
        decreases lines@.len() - i,
    {
        assert(lv.subrange(0, i + 1).drop_last() == lv.subrange(0, i as int));
        assert(lv.subrange(0, i + 1).last() == lines@[i as int].view_line());
        if i > 0 {
            push_char(&mut s, '\n');
        } else {
            assert(lv.subrange(0, 1)[0] == lv[0]);
        }
        push_str(&mut s, lines[i].content.as_str());
        i = i + 1;
    }
    assert(lv.subrange(0, lines@.len() as int) == lv);
    s
}

/// The text of a file's content lines, in line-number order, joined with
/// newlines.
pub fn content_text(lines: &Vec<IndexLine>) -> (r: String)
    ensures
        r@ == content_text_spec(line_views(lines@)),
{
    let (_meta, content) = partition_lines(lines);
    let sorted = sort_lines_by_number(&content);
    join_line_contents(&sorted)
}


// ── Built-in pretty-printers ─────────────────────────────────────────────────

/// What parsing `text` as JSON (`serde_json::from_str` into a
/// `serde_json::Value`) and printing it back with
/// `serde_json::to_string_pretty` gives; none when either step fails.
pub uninterp spec fn json_pretty_of(text: Seq<char>) -> Option<Seq<char>>;

/// What parsing `text` as a TOML document (`toml::from_str` into a
/// `toml::Value`) and printing it back with `toml::to_string_pretty` gives;
/// none when either step fails.
pub uninterp spec fn toml_pretty_of(text: Seq<char>) -> Option<Seq<char>>;

/// JSON pretty-printing through `serde_json::from_str` and
/// `serde_json::to_string_pretty`.
/// Trusted: the result is the named `json_pretty_of(text)`; which texts
/// parse and how they print is left to serde_json.
#[verifier::external_body]
fn json_pretty(text: &str) -> (r: Option<String>)
    ensures
        opt_view(r) == json_pretty_of(text@),
{
    let v: serde_json::Value = serde_json::from_str(text).ok()?;
    serde_json::to_string_pretty(&v).ok()
}

/// TOML pretty-printing through `toml::from_str` and
/// `toml::to_string_pretty`.
/// Trusted: the result is the named `toml_pretty_of(text)`; which texts
/// parse and how they print is left to the toml crate.
#[verifier::external_body]
fn toml_pretty(text: &str) -> (r: Option<String>)
    ensures
        opt_view(r) == toml_pretty_of(text@),
{
    let v: toml::Value = toml::from_str(text).ok()?;
    toml::to_string_pretty(&v).ok()
}

/// `json`
pub open spec fn ext_json() -> Seq<char> { seq!['j', 's', 'o', 'n'] }

/// `jsonc`
pub open spec fn ext_jsonc() -> Seq<char> { seq!['j', 's', 'o', 'n', 'c'] }

/// `toml`
pub open spec fn ext_toml() -> Seq<char> { seq!['t', 'o', 'm', 'l'] }

/// The built-in pretty-printed form of `text` for extension `ext`: JSON for
/// `json` and `jsonc`, TOML for `toml`, nothing for other extensions.
pub open spec fn builtin_pretty_spec(text: Seq<char>, ext: Seq<char>) -> Option<Seq<char>> {
    if ext == ext_json() || ext == ext_jsonc() {
        json_pretty_of(text)
    } else if ext == ext_toml() {
        toml_pretty_of(text)
    } else {
        None
    }
}

/// Whether the characters of `s` are those of `lit`.
fn eq_chars(s: &String, lit: Vec<char>) -> (b: bool)
    ensures
        b == (s@ == lit@),
{
    let v = to_chars(s.as_str());
    if v.len() != lit.len() {
        return false;
    }
    let r = crate::text::matches_at(&v, &lit, 0);
    assert(v@.subrange(0, v@.len() as int) == v@);
    r
}

/// Pretty-prints `text` with the built-in printer for its extension.
pub fn try_builtin_pretty(text: &str, ext: &String) -> (r: Option<String>)
    ensures
        opt_view(r) == builtin_pretty_spec(text@, ext@),
{
    let j = eq_chars(ext, vec!['j', 's', 'o', 'n']);
    let jc = eq_chars(ext, vec!['j', 's', 'o', 'n', 'c']);
    let t = eq_chars(ext, vec!['t', 'o', 'm', 'l']);
    assert(seq!['j', 's', 'o', 'n'] =~= ext_json());
    assert(seq!['j', 's', 'o', 'n', 'c'] =~= ext_jsonc());
    assert(seq!['t', 'o', 'm', 'l'] =~= ext_toml());
    if j || jc {
        json_pretty(text)
    } else if t {
        toml_pretty(text)
    } else {
        None
    }
}

/// Whether `s` is empty after trimming whitespace.
pub fn is_blank(s: &str) -> (b: bool)
    ensures
        b == (trim(s@).len() == 0),
{
    let v = to_chars(s);
    let (a, c) = trim_bounds(&v, 0, v.len());
    assert(v@.subrange(0, v@.len() as int) == v@);
    a == c
}

// ── Normalization ────────────────────────────────────────────────────────────

/// The content lines built from wrapped text: no archive path, numbered
/// from `LINE_CONTENT_START` on.
pub open spec fn numbered(ws: Seq<Seq<char>>) -> Seq<LineView> {
    Seq::new(ws.len(), |i: int| (None::<Seq<char>>,
        if i + LINE_CONTENT_START <= usize::MAX { i + LINE_CONTENT_START } else { usize::MAX as int }, ws[i]))
}

/// The text that normalization wraps: the built-in pretty-printed form, or
/// else the external formatter's output, or else the text itself.
pub open spec fn working_text(text: Seq<char>, name: Seq<char>, external: Option<Seq<char>>) -> Seq<char> {
    match builtin_pretty_spec(text, extension_spec(name)) {
        Some(t) => t,
        None => match external {
            Some(t) => t,
            None => text,
        },
    }
}

/// Normalization of a file's lines: nothing changes when wrapping is off
/// (`max == 0`); otherwise the path and metadata lines are kept, and the
/// content lines are replaced by the wrapped working text, renumbered.
pub open spec fn normalize_spec(lv: Seq<LineView>, name: Seq<char>, max: nat, external: Option<Seq<char>>) -> Seq<LineView> {
    if max == 0 {
        lv
    } else if content_part(lv).len() == 0 {
        meta_part(lv)
    } else {
        let text = content_text_spec(lv);
        meta_part(lv) + numbered(apply_word_wrap_spec(working_text(text, name, external), max))
    }
}

/// Appends wrapped text to `out` as numbered content lines.
fn push_numbered(out: &mut Vec<IndexLine>, wrapped: Vec<String>)
    ensures
        line_views(final(out)@) == line_views(old(out)@) + numbered(views(wrapped@)),
{
    let ghost start = line_views(out@);
    let mut i: usize = 0;
    while i < wrapped.len()
        invariant
            i <= wrapped@.len(),
            line_views(out@) == start + numbered(views(wrapped@)).subrange(0, i as int),
        decreases wrapped@.len() - i,
    {
        let n = if i <= usize::MAX - LINE_CONTENT_START { i + LINE_CONTENT_START } else { usize::MAX };
        let ghost before = line_views(out@);
        out.push(IndexLine { archive_path: None, line_number: n, content: wrapped[i].clone() });
        assert(numbered(views(wrapped@)).subrange(0, i + 1)
            =~= numbered(views(wrapped@)).subrange(0, i as int).push(numbered(views(wrapped@))[i as int]));
        assert(line_views(out@) =~= before.push(numbered(views(wrapped@))[i as int]));
        i = i + 1;
    }
    assert(numbered(views(wrapped@)).subrange(0, wrapped@.len() as int) =~= numbered(views(wrapped@)));
}

/// Normalizes the lines of the file `name`: with wrapping on, the content
/// is pretty-printed by the built-in printer for its extension (or replaced
/// by `external`, the output of an external formatter, when there is no
/// built-in printer or it fails), word-wrapped at `max_line_length`
/// characters and renumbered; path and metadata lines are kept.
pub fn normalize_lines(lines: Vec<IndexLine>, name: &str, max_line_length: usize, external: Option<String>) -> (r: Vec<IndexLine>)
    ensures
        line_views(r@) == normalize_spec(line_views(lines@), name@, max_line_length as nat, opt_view(external)),
{
    if max_line_length == 0 {
        return lines;
    }
    let (meta, content) = partition_lines(&lines);
    if content.len() == 0 {
        return meta;
    }
    let sorted = sort_lines_by_number(&content);
    let text = join_line_contents(&sorted);
    let ext = extension_of(name);
    let working = match try_builtin_pretty(text.as_str(), &ext) {
        Some(t) => t,
        None => match external {
            Some(t) => t,
            None => text,
        },
    };
    let wrapped = apply_word_wrap(working.as_str(), max_line_length);
    let mut result = meta;
    push_numbered(&mut result, wrapped);
    result
}

/// Word-wraps the content lines of `lines` (as normalization does, without
/// any formatter), keeping path and metadata lines.
pub fn word_wrap_lines(lines: Vec<IndexLine>, max_line_length: usize) -> (r: Vec<IndexLine>)
    requires
        max_line_length > 0,
    ensures
        line_views(r@) == (if content_part(line_views(lines@)).len() == 0 {
            meta_part(line_views(lines@))
        } else {
            meta_part(line_views(lines@)) + numbered(apply_word_wrap_spec(content_text_spec(line_views(lines@)), max_line_length as nat))
        }),
{
    let (meta, content) = partition_lines(&lines);
    if content.len() == 0 {
        return meta;
    }
    let sorted = sort_lines_by_number(&content);
    let text = join_line_contents(&sorted);
    let wrapped = apply_word_wrap(text.as_str(), max_line_length);
    let mut result = meta;
    push_numbered(&mut result, wrapped);
    result
}

/// The lines of a file after a formatter rewrote its content to `formatted`:
/// the path and metadata lines, then one numbered line per line of the
/// formatted text; `None` (nothing to apply) when the text is blank.
pub fn apply_formatted_text(lines: &Vec<IndexLine>, formatted: &str) -> (r: Option<Vec<IndexLine>>)
    ensures
        match r {
            None => trim(formatted@).len() == 0,
            Some(v) => trim(formatted@).len() > 0 && line_views(v@)
                == meta_part(line_views(lines@)) + numbered(crate::wrap::lines_of(formatted@)),
        },
{
    if is_blank(formatted) {
        return None;
    }
    let (meta, _content) = partition_lines(lines);
    let v = to_chars(formatted);
    let ranges = crate::wrap::line_ranges(&v);
    let mut texts: Vec<String> = Vec::new();
    let mut i: usize = 0;
    while i < ranges.len()
        invariant
            i <= ranges@.len(),
            v@ == formatted@,
            ranges@.len() == crate::wrap::lines_of(v@).len(),
            forall|q: int| 0 <= q < ranges@.len() ==> {
                &&& (#[trigger] ranges@[q]).0 <= ranges@[q].1 <= v@.len()
                &&& v@.subrange(ranges@[q].0 as int, ranges@[q].1 as int) == crate::wrap::lines_of(v@)[q]
            },
            views(texts@) == crate::wrap::lines_of(v@).subrange(0, i as int),
        decreases ranges@.len() - i,
    {
        let ghost before = texts@;
        texts.push(crate::text::string_from_chars(&v, ranges[i].0, ranges[i].1));
        assert(views(texts@) =~= views(before).push(crate::wrap::lines_of(v@)[i as int]));
        assert(crate::wrap::lines_of(v@).subrange(0, i + 1) =~= crate::wrap::lines_of(v@).subrange(0, i as int).push(crate::wrap::lines_of(v@)[i as int]));
        i = i + 1;
    }
    assert(crate::wrap::lines_of(v@).subrange(0, ranges@.len() as int) =~= crate::wrap::lines_of(v@));
    let mut result = meta;
    push_numbered(&mut result, texts);
    Some(result)
}


// ── Batches ──────────────────────────────────────────────────────────────────

/// A file of a batch being normalized: its index in the request, its name
/// and its lines.
pub type BatchFile = (usize, String, Vec<IndexLine>);

/// A file's lines word-wrapped at `max` (as `word_wrap_lines` does).
pub open spec fn word_wrapped(lv: Seq<LineView>, max: nat) -> Seq<LineView> {
    if content_part(lv).len() == 0 {
        meta_part(lv)
    } else {
        meta_part(lv) + numbered(apply_word_wrap_spec(content_text_spec(lv), max))
    }
}

/// Applies a batch formatter's output `formatted` for file `idx` of the
/// batch: unless the output is blank, the file's content lines become the
/// lines of the output (see `apply_formatted_text`) and the file is marked
/// handled; every other file stays as it was.
pub fn apply_batch_output(files: &mut Vec<BatchFile>, handled: &mut Vec<bool>, idx: usize, formatted: &str)
    requires
        idx < old(files)@.len(),
        old(handled)@.len() == old(files)@.len(),
    ensures
        final(files)@.len() == old(files)@.len(),
        final(handled)@.len() == old(handled)@.len(),
        forall|j: int| 0 <= j < old(files)@.len() && j != idx ==>
            #[trigger] final(files)@[j] == old(files)@[j] && final(handled)@[j] == old(handled)@[j],
        final(files)@[idx as int].0 == old(files)@[idx as int].0,
        final(files)@[idx as int].1 == old(files)@[idx as int].1,
        if trim(formatted@).len() == 0 {
            final(files)@[idx as int] == old(files)@[idx as int] && final(handled)@[idx as int] == old(handled)@[idx as int]
        } else {
            &&& line_views(final(files)@[idx as int].2@)
                == meta_part(line_views(old(files)@[idx as int].2@)) + numbered(crate::wrap::lines_of(formatted@))
            &&& final(handled)@[idx as int]
        },
{
    match apply_formatted_text(&files[idx].2, formatted) {
        Some(v) => {
            let ghost before = files@;
            let (n, name, _) = files.remove(idx);
            files.insert(idx, (n, name, v));
            assert forall|j: int| 0 <= j < before.len() && j != idx implies #[trigger] files@[j] == before[j] by {
                if j < idx {
                    assert(files@[j] == before.remove(idx as int)[j]);
                } else {
                    assert(files@[j] == before.remove(idx as int)[j - 1]);
                }
            }
            handled.set(idx, true);
        },
        None => {},
    }
}

/// The last steps of normalizing a batch: with wrapping on, the files a
/// batch formatter handled are word-wrapped, and every other file is
/// normalized on its own (see `normalize_lines`; `externals` holds, at the
/// same positions, the output of an external formatter where one ran). With
/// wrapping off nothing changes.
pub fn finish_batch(files: Vec<BatchFile>, handled: &Vec<bool>, externals: Vec<Option<String>>, max_line_length: usize) -> (r: Vec<BatchFile>)
    requires
        handled@.len() == files@.len(),
        externals@.len() == files@.len(),
    ensures
        max_line_length == 0 ==> r@ == files@,
        r@.len() == files@.len(),
        forall|i: int| 0 <= i < files@.len() ==> {
            &&& (#[trigger] r@[i]).0 == files@[i].0
            &&& r@[i].1 == files@[i].1
            &&& max_line_length > 0 ==> line_views(r@[i].2@) == if handled@[i] {
                word_wrapped(line_views(files@[i].2@), max_line_length as nat)
            } else {
                normalize_spec(line_views(files@[i].2@), files@[i].1@, max_line_length as nat, opt_view(externals@[i]))
            }
        },
{
    if max_line_length == 0 {
        return files;
    }
    let ghost orig = files@;
    let ghost ext0 = externals@;
    let mut rest = files;
    let mut exts = externals;
    let mut out: Vec<BatchFile> = Vec::new();
    let n = rest.len();
    let mut i: usize = 0;
    while i < n
        invariant
            n == orig.len(),
            i <= n,
            handled@.len() == n,
            ext0.len() == n,
            max_line_length > 0,
            rest@ == orig.subrange(i as int, n as int),
            exts@ == ext0.subrange(i as int, n as int),
            out@.len() == i,
            forall|k: int| 0 <= k < i ==> {
                &&& (#[trigger] out@[k]).0 == orig[k].0
                &&& out@[k].1 == orig[k].1
                &&& line_views(out@[k].2@) == if handled@[k] {
                    word_wrapped(line_views(orig[k].2@), max_line_length as nat)
                } else {
                    normalize_spec(line_views(orig[k].2@), orig[k].1@, max_line_length as nat, opt_view(ext0[k]))
                }
            },
        decreases n - i,
    {
        let (idx, name, lines) = rest.remove(0);
        let external = exts.remove(0);
        assert(external == ext0[i as int]);
        let new_lines = if handled[i] {
            word_wrap_lines(lines, max_line_length)
        } else {
            normalize_lines(lines, name.as_str(), max_line_length, external)
        };
        out.push((idx, name, new_lines));
        i = i + 1;
        assert(rest@ =~= orig.subrange(i as int, n as int));
        assert(exts@ =~= ext0.subrange(i as int, n as int));
    }
    out
}

} // verus!
