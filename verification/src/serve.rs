//! Serving original files: which relative paths may be opened, whether a
//! resolved file stays inside its source root, how deep archive members
//! may be fetched, byte ranges, and the response headers that name the
//! file and its type (the type guessed with the `mime_guess` crate).
use vstd::prelude::*;
use crate::text::{to_chars, split_on, push_str, push_char, push_decimal, decimal_digits};
use crate::paths::{str_eq, split_composite_spec, split_composite_path, join_spec, join};
use crate::http::{parse_byte_range_spec, parse_byte_range};

verus! {

// ── Relative paths ───────────────────────────────────────────────────────────

/// A request path may be opened under a source root: it does not start
/// with `/` or `\`, and none of its `/`-separated parts is `..`.
pub open spec fn safe_relative_spec(path: Seq<char>) -> bool {
    &&& !(path.len() > 0 && (path[0] == '/' || path[0] == '\\'))
    &&& forall|i: int| 0 <= i < split_on(path, '/').len() ==> #[trigger] split_on(path, '/')[i] != seq!['.', '.']
}

/// Whether a request path may be opened (see `safe_relative_spec`).
pub fn is_safe_relative_path(path: &str) -> (b: bool)
    ensures
        b == safe_relative_spec(path@),
{
    let v = to_chars(path);
    if v.len() > 0 && (v[0] == '/' || v[0] == '\\') {
        return false;
    }
    let parts = crate::text::split_ranges(&v, 0, v.len(), '/');
    assert(v@.subrange(0, v@.len() as int) =~= v@);
    let mut k: usize = 0;
    while k < parts.len()
        invariant
            k <= parts@.len(),
            v@ == path@,
            parts@.len() == split_on(v@, '/').len(),
            forall|i: int| 0 <= i < parts@.len() ==> {
                &&& 0 <= (#[trigger] parts@[i]).0 <= parts@[i].1 <= v@.len()
                &&& v@.subrange(parts@[i].0 as int, parts@[i].1 as int) == split_on(v@, '/')[i]
            },
            forall|i: int| 0 <= i < k ==> #[trigger] split_on(v@, '/')[i] != seq!['.', '.'],
        decreases parts@.len() - k,
    {
        let (a, b) = parts[k];
        if b - a == 2 && v[a] == '.' && v[a + 1] == '.' {
            assert(v@.subrange(a as int, b as int) =~= seq!['.', '.']);
            return false;
        }
        proof {
            let piece = v@.subrange(a as int, b as int);
            if piece == seq!['.', '.'] {
                assert(piece.len() == 2 && piece[0] == '.' && piece[1] == '.');
                assert(v@[a as int] == '.' && v@[a + 1] == '.');
            }
        }
        k = k + 1;
    }
    true
}

/// The non-empty, non-`.` parts of a `/`-separated path, in order.
pub open spec fn path_parts(path: Seq<char>) -> Seq<Seq<char>>
    decreases split_on(path, '/').len(),
{
    named_parts(split_on(path, '/'))
}

/// The parts that name something: neither empty nor `.`.
pub open spec fn named_parts(ps: Seq<Seq<char>>) -> Seq<Seq<char>>
    decreases ps.len(),
{
    if ps.len() == 0 {
        ps
    } else if ps.last().len() == 0 || ps.last() == seq!['.'] {
        named_parts(ps.drop_last())
    } else {
        named_parts(ps.drop_last()).push(ps.last())
    }
}

/// `full` lies inside `root`, part by part (`Path::starts_with` on
/// normalized paths): both or neither are absolute, and the parts of
/// `root` begin the parts of `full`.
pub open spec fn within_spec(root: Seq<char>, full: Seq<char>) -> bool {
    let ra = root.len() > 0 && root[0] == '/';
    let fa = full.len() > 0 && full[0] == '/';
    let rp = path_parts(root);
    let fp = path_parts(full);
    ra == fa && rp.len() <= fp.len() && fp.subrange(0, rp.len() as int) == rp
}

/// The named parts of `v`.
fn named_part_strings(v: &Vec<char>) -> (r: Vec<String>)
    ensures
        crate::wrap::views(r@) == path_parts(v@),
{
    let parts = crate::text::split_ranges(v, 0, v.len(), '/');
    assert(v@.subrange(0, v@.len() as int) =~= v@);
    let ghost ps = split_on(v@, '/');
    let mut out: Vec<String> = Vec::new();
    assert(crate::wrap::views(out@) =~= Seq::<Seq<char>>::empty());
    let mut k: usize = 0;
    while k < parts.len()
        invariant
            k <= parts@.len(),
            ps == split_on(v@, '/'),
            parts@.len() == ps.len(),
            forall|i: int| 0 <= i < parts@.len() ==> {
                &&& 0 <= (#[trigger] parts@[i]).0 <= parts@[i].1 <= v@.len()
                &&& v@.subrange(parts@[i].0 as int, parts@[i].1 as int) == ps[i]
            },
            crate::wrap::views(out@) == named_parts(ps.subrange(0, k as int)),
        decreases parts@.len() - k,
    {
        let (a, b) = parts[k];
        assert(ps.subrange(0, k + 1).drop_last() =~= ps.subrange(0, k as int));
        assert(ps.subrange(0, k + 1).last() == v@.subrange(a as int, b as int));
        let dot = b - a == 1 && v[a] == '.';
        proof {
            let piece = v@.subrange(a as int, b as int);
            if dot { assert(piece =~= seq!['.']); }
            if piece == seq!['.'] { assert(piece[0] == v@[a as int]); }
        }
        if b > a && !dot {
            let ghost old_out = out@;
            out.push(crate::text::string_from_chars(v, a, b));
            assert(crate::wrap::views(out@) =~= crate::wrap::views(old_out).push(v@.subrange(a as int, b as int)));
        }
        k = k + 1;
    }
    assert(ps.subrange(0, parts@.len() as int) =~= ps);
    out
}

/// Whether the resolved file `full` lies inside the resolved source root
/// `root` (see `within_spec`).
pub fn path_within(root: &str, full: &str) -> (b: bool)
    ensures
        b == within_spec(root@, full@),
{
    let rv = to_chars(root);
    let fv = to_chars(full);
    let ra = rv.len() > 0 && rv[0] == '/';
    let fa = fv.len() > 0 && fv[0] == '/';
    if ra != fa {
        return false;
    }
    let rp = named_part_strings(&rv);
    let fp = named_part_strings(&fv);
    if rp.len() > fp.len() {
        return false;
    }
    let ghost rs = crate::wrap::views(rp@);
    let ghost fs = crate::wrap::views(fp@);
    let mut k: usize = 0;
    while k < rp.len()
        invariant
            k <= rp@.len() <= fp@.len(),
            rs == crate::wrap::views(rp@),
            fs == crate::wrap::views(fp@),
            rs == path_parts(root@),
            fs == path_parts(full@),
            ra == (root@.len() > 0 && root@[0] == '/'),
            fa == (full@.len() > 0 && full@[0] == '/'),
            ra == fa,
            forall|i: int| 0 <= i < k ==> fs[i] == rs[i],
        decreases rp@.len() - k,
    {
        if !(rp[k] == fp[k]) {
            assert(rs[k as int] != fs[k as int]);
            assert(fs.subrange(0, rs.len() as int)[k as int] != rs[k as int]);
            return false;
        }
        k = k + 1;
    }
    assert(fs.subrange(0, rs.len() as int) =~= rs);
    true
}

// ── Archive members ──────────────────────────────────────────────────────────

/// The number of non-overlapping `::` in `s`, counted from the left
/// (`str::matches("::").count()`).
pub open spec fn count_seps(s: Seq<char>) -> nat
    decreases s.len(),
{
    if s.len() < 2 {
        0
    } else if s[0] == ':' && s[1] == ':' {
        1 + count_seps(s.subrange(2, s.len() as int))
    } else {
        count_seps(s.subrange(1, s.len() as int))
    }
}

/// How deep a member path reaches into nested archives: its `::` count
/// plus one.
pub fn member_depth(member: &str) -> (d: usize)
    ensures
        d == count_seps(member@) + 1,
{
    let v = to_chars(member);
    let mut i: usize = 0;
    let mut n: usize = 0;
    assert(v@.subrange(0, v@.len() as int) =~= v@);
    while v.len() >= 2 && i <= v.len() - 2
        invariant
            i <= v@.len(),
            2 * n <= i,
            count_seps(v@) == n + count_seps(v@.subrange(i as int, v@.len() as int)),
        decreases v@.len() - i,
    {
        let ghost rest = v@.subrange(i as int, v@.len() as int);
        if v[i] == ':' && v[i + 1] == ':' {
            assert(rest.subrange(2, rest.len() as int) =~= v@.subrange(i + 2, v@.len() as int));
            n = n + 1;
            i = i + 2;
        } else {
            assert(rest.subrange(1, rest.len() as int) =~= v@.subrange(i + 1, v@.len() as int));
            i = i + 1;
        }
    }
    n + 1
}

// ── Byte ranges ──────────────────────────────────────────────────────────────

/// The served part of a file of `size` bytes for a range request from
/// `start` to `end` (to the last byte when open): the end is clamped to
/// the last byte; `None` (unsatisfiable) when the start lies past the end
/// or the file; otherwise (start, end, length).
pub open spec fn resolve_range_spec(start: u64, end: Option<u64>, size: u64) -> Option<(u64, u64, u64)> {
    let last: int = if size == 0 { 0 } else { size - 1 };
    let e: int = match end { Some(x) => if x < last { x as int } else { last }, None => last };
    if start > e || start >= size {
        None
    } else {
        Some((start, e as u64, (e - start + 1) as u64))
    }
}

/// Resolves a range request against the file size (see
/// `resolve_range_spec`).
pub fn resolve_range(start: u64, end: Option<u64>, size: u64) -> (r: Option<(u64, u64, u64)>)
    ensures
        r == resolve_range_spec(start, end, size),
{
    let last = if size == 0 { 0 } else { size - 1 };
    let e = match end {
        Some(x) => if x < last { x } else { last },
        None => last,
    };
    if start > e || start >= size {
        None
    } else {
        Some((start, e, e - start + 1))
    }
}

/// `bytes <start>-<end>/<size>`
pub open spec fn content_range_spec(start: u64, end: u64, size: u64) -> Seq<char> {
    seq!['b', 'y', 't', 'e', 's', ' '] + decimal_digits(start as nat) + seq!['-'] + decimal_digits(end as nat)
        + seq!['/'] + decimal_digits(size as nat)
}

/// The `Content-Range` value of a partial response.
pub fn content_range(start: u64, end: u64, size: u64) -> (r: String)
    ensures
        r@ == content_range_spec(start, end, size),
{
    let mut s = String::new();
    push_str(&mut s, "bytes ");
    proof { reveal_strlit("bytes "); }
    push_decimal(&mut s, start);
    push_char(&mut s, '-');
    push_decimal(&mut s, end);
    push_char(&mut s, '/');
    push_decimal(&mut s, size);
    assert(s@ =~= content_range_spec(start, end, size));
    s
}

/// `bytes */<size>`
pub open spec fn unsatisfiable_range_spec(size: u64) -> Seq<char> {
    seq!['b', 'y', 't', 'e', 's', ' ', '*', '/'] + decimal_digits(size as nat)
}

/// The `Content-Range` value of an unsatisfiable range.
pub fn unsatisfiable_range(size: u64) -> (r: String)
    ensures
        r@ == unsatisfiable_range_spec(size),
{
    let mut s = String::new();
    push_str(&mut s, "bytes */");
    proof { reveal_strlit("bytes */"); }
    push_decimal(&mut s, size);
    assert(s@ =~= unsatisfiable_range_spec(size));
    s
}

// ── Raw-file requests ────────────────────────────────────────────────────────

/// Where a request for an original file leads, decided before the file
/// system is read.
pub enum RawTarget {
    /// The path may not be opened (400).
    BadRequest,
    /// The member lies deeper in nested archives than allowed (422).
    TooDeep,
    /// The source has no configured root (404).
    NoRoot,
    /// A file: its full path under the root.
    File(String),
    /// An archive member: the archive's full path under the root, and the
    /// member path within it (`mid::leaf` for a member of a nested archive).
    Member(String, String),
}

/// The decision of `raw_target` for a source root, a request path and the
/// allowed member depth. A composite path (`outer::member`) is refused when
/// its outer path may not be opened, then when the member is too deep, then
/// when the source has no root; a plain path is refused when it may not be
/// opened, then when the source has no root.
pub open spec fn raw_target_matches(root: Option<Seq<char>>, path: Seq<char>, levels: usize, r: RawTarget) -> bool {
    match split_composite_spec(path) {
        (outer, Some(member)) => {
            if !safe_relative_spec(outer) {
                r is BadRequest
            } else if count_seps(member) + 1 > levels {
                r is TooDeep
            } else {
                match root {
                    None => r is NoRoot,
                    Some(rt) => r matches RawTarget::Member(o, m) && o@ == join_spec(rt, outer) && m@ == member,
                }
            }
        },
        (_, None) => {
            if !safe_relative_spec(path) {
                r is BadRequest
            } else {
                match root {
                    None => r is NoRoot,
                    Some(rt) => r matches RawTarget::File(f) && f@ == join_spec(rt, path),
                }
            }
        },
    }
}

/// Where a request for `path` of a source with root `source_root` leads
/// (see `raw_target_matches`); members may lie at most `member_levels`
/// archives deep.
pub fn raw_target(source_root: Option<&str>, path: &str, member_levels: usize) -> (r: RawTarget)
    ensures
        raw_target_matches(match source_root { Some(x) => Some(x@), None => None }, path@, member_levels, r),
{
    let (outer, member) = split_composite_path(path);
    match member {
        Some(m) => {
            if !is_safe_relative_path(outer.as_str()) {
                return RawTarget::BadRequest;
            }
            if member_depth(m.as_str()) > member_levels {
                return RawTarget::TooDeep;
            }
            match source_root {
                None => RawTarget::NoRoot,
                Some(rt) => RawTarget::Member(join(rt, outer.as_str()), m),
            }
        },
        None => {
            if !is_safe_relative_path(path) {
                return RawTarget::BadRequest;
            }
            match source_root {
                None => RawTarget::NoRoot,
                Some(rt) => RawTarget::File(join(rt, path)),
            }
        },
    }
}

/// The largest archive member read into memory: 64 MiB.
pub const MAX_MEMBER_BYTES: u64 = 67108864;

/// Whether a member of `size` bytes may be read (413 otherwise).
pub fn member_fits(size: u64) -> (b: bool)
    ensures
        b == (size <= MAX_MEMBER_BYTES),
{
    size <= MAX_MEMBER_BYTES
}

/// How a file of known size is sent.
pub enum RangePlan {
    /// The whole file (200).
    Whole,
    /// Bytes `start..=end`, `len` of them, with their `Content-Range` (206).
    Partial { start: u64, end: u64, len: u64, content_range: String },
    /// The range lies outside the file (416), with `bytes */<size>`.
    Unsatisfiable { content_range: String },
}

/// How a file of `size` bytes is sent for an optional `Range` header: the
/// whole file without a header or with one that does not parse; else the
/// resolved part, or the refusal when the range is unsatisfiable.
pub fn range_plan(range_header: Option<&str>, size: u64) -> (r: RangePlan)
    ensures
        match (match range_header { Some(h) => parse_byte_range_spec(h@), None => None }) {
            None => r is Whole,
            Some((start, end)) => match resolve_range_spec(start, end, size) {
                Some((a, b, n)) => r matches RangePlan::Partial { start, end, len, content_range }
                    && start == a && end == b && len == n && content_range@ == content_range_spec(a, b, size),
                None => r matches RangePlan::Unsatisfiable { content_range }
                    && content_range@ == unsatisfiable_range_spec(size),
            },
        },
{
    let parsed = match range_header {
        Some(h) => parse_byte_range(h),
        None => None,
    };
    match parsed {
        None => RangePlan::Whole,
        Some((start, end)) => match resolve_range(start, end, size) {
            Some((a, b, n)) => RangePlan::Partial { start: a, end: b, len: n, content_range: content_range(a, b, size) },
            None => RangePlan::Unsatisfiable { content_range: unsatisfiable_range(size) },
        },
    }
}

// ── Inline views ─────────────────────────────────────────────────────────────

/// How a file is shown inline, by the kind it was indexed as.
pub enum ViewKind {
    /// Not indexed (404).
    NotIndexed,
    /// An image: its bytes, converted to PNG where needed.
    Image,
    /// A DICOM file: rendered to PNG by the preview program.
    Dicom,
    /// Any other kind cannot be shown (422).
    Unsupported,
}

/// How a file indexed as `kind` (none when not indexed) is shown inline.
pub fn view_kind(kind: Option<&str>) -> (r: ViewKind)
    ensures
        match kind {
            None => r is NotIndexed,
            Some(k) => if k@ == "image"@ { r is Image } else if k@ == "dicom"@ { r is Dicom } else { r is Unsupported },
        },
{
    match kind {
        None => ViewKind::NotIndexed,
        Some(k) => if str_eq(k, "image") {
            ViewKind::Image
        } else if str_eq(k, "dicom") {
            ViewKind::Dicom
        } else {
            ViewKind::Unsupported
        },
    }
}

/// Where a request for a file of a source leads when the path is not split
/// into archive members: refused when it may not be opened, then when the
/// source has no root; else the file under the root.
pub fn source_path_target(source_root: Option<&str>, path: &str) -> (r: RawTarget)
    ensures
        if !safe_relative_spec(path@) {
            r is BadRequest
        } else {
            match source_root {
                None => r is NoRoot,
                Some(rt) => r matches RawTarget::File(f) && f@ == join_spec(rt@, path@),
            }
        },
{
    if !is_safe_relative_path(path) {
        return RawTarget::BadRequest;
    }
    match source_root {
        None => RawTarget::NoRoot,
        Some(rt) => RawTarget::File(join(rt, path)),
    }
}

// ── Naming the file ──────────────────────────────────────────────────────────

/// `s` without double quotes.
pub open spec fn without_quotes(s: Seq<char>) -> Seq<char>
    decreases s.len(),
{
    if s.len() == 0 {
        s
    } else if s.last() == '"' {
        without_quotes(s.drop_last())
    } else {
        without_quotes(s.drop_last()).push(s.last())
    }
}

/// `<kind>; filename="<name without quotes>"`, the kind being
/// `attachment` or `inline`.
pub open spec fn disposition_spec(attachment: bool, name: Seq<char>) -> Seq<char> {
    (if attachment { "attachment"@ } else { "inline"@ }) + "; filename=\""@ + without_quotes(name) + seq!['"']
}

/// The `Content-Disposition` value naming a served file.
pub fn content_disposition(attachment: bool, name: &str) -> (r: String)
    ensures
        r@ == disposition_spec(attachment, name@),
{
    let mut s = if attachment { "attachment".to_owned() } else { "inline".to_owned() };
    push_str(&mut s, "; filename=\"");
    let v = to_chars(name);
    let ghost base = s@;
    let mut i: usize = 0;
    while i < v.len()
        invariant
            i <= v@.len(),
            v@ == name@,
            s@ == base + without_quotes(v@.subrange(0, i as int)),
        decreases v@.len() - i,
    {
        assert(v@.subrange(0, i + 1).drop_last() =~= v@.subrange(0, i as int));
        if v[i] != '"' {
            push_char(&mut s, v[i]);
        }
        i = i + 1;
        assert(s@ =~= base + without_quotes(v@.subrange(0, i as int)));
    }
    assert(v@.subrange(0, v@.len() as int) =~= v@);
    push_char(&mut s, '"');
    assert(s@ =~= disposition_spec(attachment, name@));
    s
}

/// The name of a file converted to PNG: its stem with `.png`, or
/// `file.png` without a stem.
pub fn png_name(stem: Option<&str>) -> (r: String)
    ensures
        r@ == match stem { Some(s) => s@ + ".png"@, None => "file.png"@ },
{
    match stem {
        Some(s) => {
            let mut n = s.to_owned();
            push_str(&mut n, ".png");
            n
        },
        None => "file.png".to_owned(),
    }
}

// ── Content types ────────────────────────────────────────────────────────────

/// The media type (`type/subtype`) that `mime_guess` gives a path from its
/// extension, `application/octet-stream` when it knows none.
pub uninterp spec fn mime_of_path(path: Seq<char>) -> Seq<char>;

/// `mime_guess::from_path(path).first_or_octet_stream().essence_str()`.
/// Trusted: the result is the named `mime_of_path` of the path.
#[verifier::external_body]
fn guess_mime(path: &str) -> (r: String)
    ensures
        r@ == mime_of_path(path@),
{
    mime_guess::from_path(path).first_or_octet_stream().essence_str().to_owned()
}

/// The content type served for a file, from its path.
pub fn content_type_for(path: &str) -> (r: String)
    ensures
        r@ == mime_of_path(path@),
{
    guess_mime(path)
}

} // verus!
