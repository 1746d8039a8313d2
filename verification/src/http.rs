//! Request-level rules of the server that do not depend on the web
//! framework: HTTP range headers, upload content ranges, credentials,
//! source names, release version comparison and context windows.
use vstd::prelude::*;
use crate::text::{
    to_chars, string_from_chars, find_char, trim, trim_bounds, parse_u64, parse_u64_spec,
    split_ranges, split_on, matches_at, occurs_at, first_index_of, lemma_split_on_nonempty,
};
use crate::paths::has_char;

verus! {

// ── Range: bytes=<start>-[end] ───────────────────────────────────────────────

/// `bytes=`
pub open spec fn bytes_eq_prefix() -> Seq<char> {
    seq!['b', 'y', 't', 'e', 's', '=']
}

/// The result of parsing an HTTP `Range` header value: `bytes=` followed by
/// a single `<start>-[end]` range (no comma). The start must be a number
/// (surrounding whitespace allowed); an empty end means an open range, and
/// an end that is not a number is dropped (open range as well).
pub open spec fn parse_byte_range_spec(range: Seq<char>) -> Option<(u64, Option<u64>)> {
    if range.len() >= 6 && range.subrange(0, 6) == bytes_eq_prefix() {
        let s = range.subrange(6, range.len() as int);
        if has_char(s, ',') {
            None
        } else if has_char(s, '-') {
            let d = choose|d: int| first_index_of(s, '-', d);
            match parse_u64_spec(trim(s.subrange(0, d))) {
                None => None,
                Some(start) => {
                    let e = trim(s.subrange(d + 1, s.len() as int));
                    Some((start, if e.len() == 0 { None } else { parse_u64_spec(e) }))
                },
            }
        } else {
            None
        }
    } else {
        None
    }
}

/// Facts about `find_char` results restated over a subrange.
proof fn lemma_first_index(v: Seq<char>, from: int, to: int, c: char, i: int)
    requires
        0 <= from <= i < to <= v.len(),
        v[i] == c,
        forall|j: int| from <= j < i ==> v[j] != c,
    ensures
        first_index_of(v.subrange(from, to), c, i - from),
        has_char(v.subrange(from, to), c),
        forall|d: int| first_index_of(v.subrange(from, to), c, d) ==> d == i - from,
{
    let s = v.subrange(from, to);
    assert(s[i - from] == c);
    assert forall|d: int| first_index_of(s, c, d) implies d == i - from by {
        if d < i - from { assert(s[d] == v[from + d]); }
        if d > i - from { assert(s[i - from] == c); }
    }
}

/// Absence of `c` in `v[from..to]`.
proof fn lemma_no_char(v: Seq<char>, from: int, to: int, c: char)
    requires
        0 <= from <= to <= v.len(),
        forall|j: int| from <= j < to ==> v[j] != c,
    ensures
        !has_char(v.subrange(from, to), c),
{
    let s = v.subrange(from, to);
    if has_char(s, c) {
        let j = choose|j: int| 0 <= j < s.len() && s[j] == c;
        assert(v[from + j] == c);
    }
}

/// Parses an HTTP `Range: bytes=<start>-[end]` header value.
pub fn parse_byte_range(range: &str) -> (r: Option<(u64, Option<u64>)>)
    ensures
        r == parse_byte_range_spec(range@),
{
    let v = to_chars(range);
    let p = vec!['b', 'y', 't', 'e', 's', '='];
    assert(p@ =~= bytes_eq_prefix());
    if v.len() < 6 || !matches_at(&v, &p, 0) {
        return None;
    }
    let n = v.len();
    let ghost s = v@.subrange(6, n as int);
    match find_char(&v, 6, n, ',') {
        Some(i) => {
            proof { lemma_first_index(v@, 6, n as int, ',', i as int); }
            return None;
        },
        None => {
            proof { lemma_no_char(v@, 6, n as int, ','); }
        },
    }
    match find_char(&v, 6, n, '-') {
        None => {
            proof { lemma_no_char(v@, 6, n as int, '-'); }
            None
        },
        Some(d) => {
            proof {
                lemma_first_index(v@, 6, n as int, '-', d as int);
                assert(s.subrange(0, d - 6) == v@.subrange(6, d as int));
                assert(s.subrange(d - 6 + 1, s.len() as int) == v@.subrange(d + 1, n as int));
            }
            let (a, b) = trim_bounds(&v, 6, d);
            match parse_u64(&v, a, b) {
                None => None,
                Some(start) => {
                    let (c, e) = trim_bounds(&v, d + 1, n);
                    if c == e {
                        Some((start, None))
                    } else {
                        Some((start, parse_u64(&v, c, e)))
                    }
                },
            }
        },
    }
}

// ── Content-Range: bytes <start>-<end>/<total> ────────────────────────────────

/// `bytes `
pub open spec fn bytes_sp_prefix() -> Seq<char> {
    seq!['b', 'y', 't', 'e', 's', ' ']
}

/// The start offset of a `Content-Range: bytes <start>-...` header value:
/// the text between `bytes ` and the first `-`, parsed as a number.
pub open spec fn parse_content_range_start_spec(header: Seq<char>) -> Option<u64> {
    if header.len() >= 6 && header.subrange(0, 6) == bytes_sp_prefix() {
        let s = header.subrange(6, header.len() as int);
        if has_char(s, '-') {
            let d = choose|d: int| first_index_of(s, '-', d);
            parse_u64_spec(s.subrange(0, d))
        } else {
            None
        }
    } else {
        None
    }
}

/// Parses the start byte offset from a `Content-Range` header value.
pub fn parse_content_range_start(header: &str) -> (r: Option<u64>)
    ensures
        r == parse_content_range_start_spec(header@),
{
    let v = to_chars(header);
    let p = vec!['b', 'y', 't', 'e', 's', ' '];
    assert(p@ =~= bytes_sp_prefix());
    if v.len() < 6 || !matches_at(&v, &p, 0) {
        return None;
    }
    let n = v.len();
    let ghost s = v@.subrange(6, n as int);
    match find_char(&v, 6, n, '-') {
        None => {
            proof { lemma_no_char(v@, 6, n as int, '-'); }
            None
        },
        Some(d) => {
            proof {
                lemma_first_index(v@, 6, n as int, '-', d as int);
                assert(s.subrange(0, d - 6) == v@.subrange(6, d as int));
            }
            parse_u64(&v, 6, d)
        },
    }
}

/// The Content-Range law: a value `bytes <n>-<anything>`, with `n` written
/// in decimal, gives the start `n`, whatever follows the `-`.
pub proof fn lemma_content_range_start(n: u64, tail: Seq<char>)
    ensures
        parse_content_range_start_spec(
            bytes_sp_prefix() + crate::text::decimal_digits(n as nat) + seq!['-'] + tail,
        ) == Some(n),
{
    let d = crate::text::decimal_digits(n as nat);
    crate::text::lemma_decimal_digits_value(n as nat);
    crate::text::lemma_decimal_digits_len(n as nat);
    let h = bytes_sp_prefix() + d + seq!['-'] + tail;
    assert(h.subrange(0, 6) =~= bytes_sp_prefix());
    let s = h.subrange(6, h.len() as int);
    assert(s =~= d + seq!['-'] + tail);
    let k = d.len() as int;
    assert(s[k] == '-');
    assert forall|j: int| 0 <= j < k implies s[j] != '-' by {
        assert(s[j] == d[j]);
        assert(crate::text::is_digit(d[j]));
    }
    assert(first_index_of(s, '-', k));
    assert(has_char(s, '-'));
    let c = choose|c: int| first_index_of(s, '-', c);
    assert(c == k) by {
        if c < k {
            assert(s[c] != '-');
        } else if c > k {
            assert(s[k] != '-');
        }
    }
    assert(s.subrange(0, k) =~= d);
    assert(crate::text::is_digit(d[0]));
    assert(crate::text::parse_u64_spec(d) == Some(n));
}

/// A character that occurs has a first occurrence.
proof fn lemma_first_exists(s: Seq<char>, c: char)
    requires
        has_char(s, c),
    ensures
        exists|d: int| first_index_of(s, c, d),
    decreases s.len(),
{
    let p = s.drop_last();
    if has_char(p, c) {
        lemma_first_exists(p, c);
        let d = choose|d: int| first_index_of(p, c, d);
        assert(s[d] == p[d]);
        assert forall|j: int| 0 <= j < d implies s[j] != c by {
            assert(s[j] == p[j]);
        }
        assert(first_index_of(s, c, d));
    } else {
        let k = s.len() - 1;
        assert forall|j: int| 0 <= j < k implies s[j] != c by {
            assert(s[j] == p[j]);
        }
        let i = choose|i: int| 0 <= i < s.len() && s[i] == c;
        assert(i == k) by {
            if i < k { assert(p[i] == c); }
        }
        assert(first_index_of(s, c, k));
    }
}

/// The Content-Range value `bytes <start>-<rest>`.
pub open spec fn range_value(start: Seq<char>, rest: Seq<char>) -> Seq<char> {
    bytes_sp_prefix() + start + seq!['-'] + rest
}

/// What any start read from a Content-Range value comes from: the value is
/// `bytes `, then a text without `-` that parses as that number, then `-`
/// and anything; a value that does not start with `bytes ` or has no `-`
/// after it gives none.
pub proof fn lemma_content_range_start_source(header: Seq<char>)
    ensures
        parse_content_range_start_spec(header) matches Some(k) ==> exists|t: Seq<char>, rest: Seq<char>| {
            &&& header == #[trigger] range_value(t, rest)
            &&& !has_char(t, '-')
            &&& parse_u64_spec(t) == Some(k)
        },
        !(header.len() >= 6 && header.subrange(0, 6) == bytes_sp_prefix()) ==> parse_content_range_start_spec(header) is None,
        header.len() >= 6 && !has_char(header.subrange(6, header.len() as int), '-')
            ==> parse_content_range_start_spec(header) is None,
{
    if parse_content_range_start_spec(header) is Some {
        let s = header.subrange(6, header.len() as int);
        lemma_first_exists(s, '-');
        let d = choose|d: int| first_index_of(s, '-', d);
        let t = s.subrange(0, d);
        let rest = s.subrange(d + 1, s.len() as int);
        assert(header =~= range_value(t, rest));
        assert(!has_char(t, '-')) by {
            if has_char(t, '-') {
                let j = choose|j: int| 0 <= j < t.len() && t[j] == '-';
                assert(s[j] == '-');
            }
        }
        assert(parse_u64_spec(t) == parse_content_range_start_spec(header));
    }
}

// ── Release versions ─────────────────────────────────────────────────────────

/// The first three dot-separated numbers of a version string, when all
/// three are present and parse.
pub open spec fn parse_version_spec(v: Seq<char>) -> Option<(u64, u64, u64)> {
    let p = split_on(v, '.');
    if p.len() >= 3 {
        match (parse_u64_spec(p[0]), parse_u64_spec(p[1]), parse_u64_spec(p[2])) {
            (Some(a), Some(b), Some(c)) => Some((a, b, c)),
            _ => None,
        }
    } else {
        None
    }
}

/// Lexicographic order on version triples.
pub open spec fn triple_gt(a: (u64, u64, u64), b: (u64, u64, u64)) -> bool {
    a.0 > b.0 || (a.0 == b.0 && (a.1 > b.1 || (a.1 == b.1 && a.2 > b.2)))
}

/// Parses the first three dot-separated numbers of a version string.
pub fn parse_version(s: &str) -> (r: Option<(u64, u64, u64)>)
    ensures
        r == parse_version_spec(s@),
{
    let v = to_chars(s);
    let parts = split_ranges(&v, 0, v.len(), '.');
    assert(v@.subrange(0, v@.len() as int) == v@);
    if parts.len() < 3 {
        return None;
    }
    let a = parse_u64(&v, parts[0].0, parts[0].1);
    let b = parse_u64(&v, parts[1].0, parts[1].1);
    let c = parse_u64(&v, parts[2].0, parts[2].1);
    match (a, b, c) {
        (Some(a), Some(b), Some(c)) => Some((a, b, c)),
        _ => None,
    }
}

/// Whether version `a` is newer than version `b`; false when either does
/// not parse.
pub fn version_gt(a: &str, b: &str) -> (r: bool)
    ensures
        r == match (parse_version_spec(a@), parse_version_spec(b@)) {
            (Some(x), Some(y)) => triple_gt(x, y),
            _ => false,
        },
{
    match (parse_version(a), parse_version(b)) {
        (Some(x), Some(y)) => x.0 > y.0 || (x.0 == y.0 && (x.1 > y.1 || (x.1 == y.1 && x.2 > y.2))),
        _ => false,
    }
}

// ── Credentials ──────────────────────────────────────────────────────────────

/// `Bearer `
pub open spec fn bearer_prefix() -> Seq<char> {
    seq!['B', 'e', 'a', 'r', 'e', 'r', ' ']
}

/// `find_session=`
pub open spec fn session_prefix() -> Seq<char> {
    seq!['f', 'i', 'n', 'd', '_', 's', 'e', 's', 's', 'i', 'o', 'n', '=']
}

/// Whether `s` is `p` followed by `rest`.
pub open spec fn is_prefixed(s: Seq<char>, p: Seq<char>, rest: Seq<char>) -> bool {
    s == p + rest
}

/// The authorization rule: an empty server token lets everyone in;
/// otherwise the request must carry `Authorization: Bearer <token>` or a
/// cookie `find_session=<token>` among its `;`-separated cookies (each
/// trimmed). Headers are given as text when they are present and readable.
pub open spec fn authorized_spec(token: Seq<char>, authorization: Option<Seq<char>>, cookie: Option<Seq<char>>) -> bool {
    ||| token.len() == 0
    ||| (authorization matches Some(a) && is_prefixed(a, bearer_prefix(), token))
    ||| (cookie matches Some(c) && cookie_has_session(c, token))
}

/// Whether one of the `;`-separated cookies of `c`, trimmed, is
/// `find_session=<token>`.
pub open spec fn cookie_has_session(c: Seq<char>, token: Seq<char>) -> bool {
    exists|i: int| 0 <= i < split_on(c, ';').len()
        && #[trigger] is_prefixed(trim(split_on(c, ';')[i]), session_prefix(), token)
}

/// Whether `v[from..to]` is `p` followed by `rest`.
fn prefixed_by(v: &Vec<char>, from: usize, to: usize, p: &Vec<char>, rest: &Vec<char>) -> (b: bool)
    requires
        from <= to <= v.len(),
    ensures
        b == is_prefixed(v@.subrange(from as int, to as int), p@, rest@),
{
    let ghost s = v@.subrange(from as int, to as int);
    let total = to - from;
    if p.len() > total || total - p.len() != rest.len() {
        proof {
            if s == p@ + rest@ { assert(s.len() == p@.len() + rest@.len()); }
        }
        return false;
    }
    let mut k: usize = 0;
    while k < p.len()
        invariant
            from <= to <= v.len(),
            s == v@.subrange(from as int, to as int),
            to - from == p@.len() + rest@.len(),
            k <= p@.len(),
            forall|j: int| 0 <= j < k ==> v@[from + j] == p@[j],
        decreases p@.len() - k,
    {
        if v[from + k] != p[k] {
            assert(s[k as int] == v@[from + k]);
            assert(s[k as int] != (p@ + rest@)[k as int]);
            return false;
        }
        k = k + 1;
    }
    let mut m: usize = 0;
    while m < rest.len()
        invariant
            from <= to <= v.len(),
            s == v@.subrange(from as int, to as int),
            to - from == p@.len() + rest@.len(),
            m <= rest@.len(),
            forall|j: int| 0 <= j < p@.len() ==> v@[from + j] == p@[j],
            forall|j: int| 0 <= j < m ==> v@[from + p@.len() + j] == rest@[j],
        decreases rest@.len() - m,
    {
        if v[from + p.len() + m] != rest[m] {
            assert(s[p@.len() + m] == v@[from + p@.len() + m]);
            assert(s[p@.len() + m] != (p@ + rest@)[p@.len() + m]);
            return false;
        }
        m = m + 1;
    }
    assert(s =~= p@ + rest@);
    true
}

/// Whether a request is authorized (see `authorized_spec`).
pub fn is_authorized(token: &str, authorization: Option<&str>, cookie: Option<&str>) -> (b: bool)
    ensures
        b == authorized_spec(token@, match authorization { Some(a) => Some(a@), None => None },
            match cookie { Some(c) => Some(c@), None => None }),
{
    let t = to_chars(token);
    if t.len() == 0 {
        return true;
    }
    let bearer = vec!['B', 'e', 'a', 'r', 'e', 'r', ' '];
    assert(bearer@ =~= bearer_prefix());
    match authorization {
        Some(a) => {
            let av = to_chars(a);
            if prefixed_by(&av, 0, av.len(), &bearer, &t) {
                assert(av@.subrange(0, av@.len() as int) == av@);
                return true;
            }
            assert(av@.subrange(0, av@.len() as int) == av@);
        },
        None => {},
    }
    let session = vec!['f', 'i', 'n', 'd', '_', 's', 'e', 's', 's', 'i', 'o', 'n', '='];
    assert(session@ =~= session_prefix());
    match cookie {
        Some(c) => {
            let cv = to_chars(c);
            let parts = split_ranges(&cv, 0, cv.len(), ';');
            let ghost sp = split_on(c@, ';');
            assert(cv@.subrange(0, cv@.len() as int) == c@);
            let mut i: usize = 0;
            while i < parts.len()
                invariant
                    i <= parts@.len(),
                    parts@.len() == sp.len(),
                    sp == split_on(c@, ';'),
                    cv@ == c@,
                    cookie == Some(c),
                    t@ == token@,
                    session@ == session_prefix(),
                    forall|k: int| 0 <= k < parts@.len() ==> {
                        &&& 0 <= (#[trigger] parts@[k]).0 <= parts@[k].1 <= cv@.len()
                        &&& cv@.subrange(parts@[k].0 as int, parts@[k].1 as int) == sp[k]
                    },
                    forall|k: int| 0 <= k < i ==> !is_prefixed(trim(#[trigger] sp[k]), session_prefix(), t@),
                decreases parts@.len() - i,
            {
                let (a0, b0) = trim_bounds(&cv, parts[i].0, parts[i].1);
                if prefixed_by(&cv, a0, b0, &session, &t) {
                    assert(is_prefixed(trim(sp[i as int]), session_prefix(), t@));
                    assert(0 <= i < split_on(c@, ';').len()
                        && is_prefixed(trim(split_on(c@, ';')[i as int]), session_prefix(), token@));
                    assert(cookie_has_session(c@, token@));

                    return true;
                }
                i = i + 1;
            }
            false
        },
        None => false,
    }
}

/// Whether a source name is safe to use as a database file name: only
/// ASCII letters, digits, `-` and `_`.
pub open spec fn valid_source_name_spec(source: Seq<char>) -> bool {
    forall|i: int| 0 <= i < source.len() ==> {
        let c = #[trigger] source[i];
        ('a' <= c <= 'z') || ('A' <= c <= 'Z') || ('0' <= c <= '9') || c == '-' || c == '_'
    }
}

/// Checks a source name (see `valid_source_name_spec`).
pub fn is_valid_source_name(source: &str) -> (b: bool)
    ensures
        b == valid_source_name_spec(source@),
{
    let v = to_chars(source);
    let mut i: usize = 0;
    while i < v.len()
        invariant
            i <= v@.len(),
            v@ == source@,
            forall|k: int| 0 <= k < i ==> {
                let c = #[trigger] v@[k];
                ('a' <= c <= 'z') || ('A' <= c <= 'Z') || ('0' <= c <= '9') || c == '-' || c == '_'
            },
        decreases v@.len() - i,
    {
        let c = v[i];
        if !(('a' <= c && c <= 'z') || ('A' <= c && c <= 'Z') || ('0' <= c && c <= '9') || c == '-' || c == '_') {
            assert(!valid_source_name_spec(source@)) by { assert(source@[i as int] == c); }
            return false;
        }
        i = i + 1;
    }
    true
}

// ── Context windows ──────────────────────────────────────────────────────────

/// One line of context around a match.
#[derive(Clone, Debug)]
pub struct ContextLine {
    pub line_number: usize,
    pub content: String,
}

/// Turns a window of context lines into `(start, match index, lines)`: the
/// number of the first line (0 for no lines) and the position of the line
/// numbered `center`, if any.
pub fn compact_lines(lines: Vec<ContextLine>, center: usize) -> (r: (usize, Option<usize>, Vec<ContextLine>))
    ensures
        r.0 == (if lines@.len() == 0 { 0 } else { lines@[0].line_number as int }),
        match r.1 {
            Some(i) => i < lines@.len() && lines@[i as int].line_number == center
                && forall|j: int| 0 <= j < i ==> lines@[j].line_number != center,
            None => forall|j: int| 0 <= j < lines@.len() ==> lines@[j].line_number != center,
        },
        r.2@ == lines@,
{
    let start = if lines.len() == 0 { 0 } else { lines[0].line_number };
    let found = position_of_line(&lines, center);
    (start, found, lines)
}

/// The position of the first line numbered `center`.
fn position_of_line(lines: &Vec<ContextLine>, center: usize) -> (r: Option<usize>)
    ensures
        match r {
            Some(i) => i < lines@.len() && lines@[i as int].line_number == center
                && forall|j: int| 0 <= j < i ==> lines@[j].line_number != center,
            None => forall|j: int| 0 <= j < lines@.len() ==> lines@[j].line_number != center,
        },
{
    let mut i: usize = 0;
    while i < lines.len()
        invariant
            i <= lines@.len(),
            forall|j: int| 0 <= j < i ==> lines@[j].line_number != center,
        decreases lines@.len() - i,
    {
        if lines[i].line_number == center {
            return Some(i);
        }
        i = i + 1;
    }
    None
}

/// Default `target` of an inbox clear request: `pending`.
pub fn default_target() -> (r: String)
    ensures
        r@ == seq!['p', 'e', 'n', 'd', 'i', 'n', 'g'],
{
    let v = vec!['p', 'e', 'n', 'd', 'i', 'n', 'g'];
    let s = string_from_chars(&v, 0, 7);
    assert(s@ =~= seq!['p', 'e', 'n', 'd', 'i', 'n', 'g']);
    s
}

/// Default number of recent files returned.
pub fn default_limit() -> (r: usize)
    ensures
        r == 20,
{
    20
}


// ── Share links ──────────────────────────────────────────────────────────────

/// What looking up a share-link code found.
pub enum LinkLookup {
    /// A live link to a file: its source, path and member path.
    Found { source: String, path: String, archive_path: Option<String> },
    /// The link has expired.
    Expired,
    /// No link has this code.
    Unknown,
    /// The lookup failed.
    Failed,
}

/// Whether a share-link code grants access to a file.
pub enum LinkVerdict {
    /// Access granted.
    Allowed,
    /// The link is for another file (403).
    Forbidden,
    /// The link has expired (410).
    Gone,
    /// No such link, or no link store (404).
    NotFound,
    /// The lookup failed (500).
    Failed,
}

/// The file a link names: `path::archive_path` when it names a member
/// (even an empty one), else `path`.
pub open spec fn link_path_spec(path: Seq<char>, archive_path: Option<Seq<char>>) -> Seq<char> {
    match archive_path {
        Some(ap) => path + seq![':', ':'] + ap,
        None => path,
    }
}

/// The verdict on a share-link code used to read `full_path` of `source`:
/// a live link grants access exactly to the file it names.
pub fn link_verdict(lookup: &LinkLookup, source: &str, full_path: &str) -> (r: LinkVerdict)
    ensures
        match *lookup {
            LinkLookup::Found { source: s, path: p, archive_path: a } =>
                if s@ == source@ && link_path_spec(p@, crate::index::opt_view(a)) == full_path@ {
                    r is Allowed
                } else {
                    r is Forbidden
                },
            LinkLookup::Expired => r is Gone,
            LinkLookup::Unknown => r is NotFound,
            LinkLookup::Failed => r is Failed,
        },
{
    match lookup {
        LinkLookup::Found { source: s, path: p, archive_path: a } => {
            let mut link = p.clone();
            proof { assert(link@ == p@); }
            match a {
                Some(ap) => {
                    crate::text::push_str(&mut link, "::");
                    proof { reveal_strlit("::"); }
                    crate::text::push_str(&mut link, ap.as_str());
                },
                None => {},
            }
            assert(link@ =~= link_path_spec(p@, crate::index::opt_view(*a)));
            if crate::paths::str_eq(s.as_str(), source) && crate::paths::str_eq(link.as_str(), full_path) {
                LinkVerdict::Allowed
            } else {
                LinkVerdict::Forbidden
            }
        },
        LinkLookup::Expired => LinkVerdict::Gone,
        LinkLookup::Unknown => LinkVerdict::NotFound,
        LinkLookup::Failed => LinkVerdict::Failed,
    }
}

} // verus!
