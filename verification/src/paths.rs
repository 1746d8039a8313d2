//! Composite paths (`outer.zip::member.txt`), file-system style path joins,
//! and the small path helpers the server uses to name files.
use vstd::prelude::*;
use crate::text::{find_char, occurs_at, to_chars, string_from_chars, push_char, push_chars, push_str, find_seq, rfind_seq, matches_at};

verus! {

/// The separator between an archive path and a member path: `::`.
pub open spec fn composite_sep() -> Seq<char> {
    seq![':', ':']
}

/// `i` is the first index at which `p` occurs in `s`.
pub open spec fn first_occurrence(s: Seq<char>, p: Seq<char>, i: int) -> bool {
    occurs_at(s, p, i) && forall|j: int| 0 <= j < i ==> !occurs_at(s, p, j)
}

/// `i` is the last index at which `p` occurs in `s`.
pub open spec fn last_occurrence(s: Seq<char>, p: Seq<char>, i: int) -> bool {
    occurs_at(s, p, i) && forall|j: int| i < j ==> !occurs_at(s, p, j)
}

/// Whether `p` occurs anywhere in `s`.
pub open spec fn contains_seq(s: Seq<char>, p: Seq<char>) -> bool {
    exists|j: int| occurs_at(s, p, j)
}

/// The part of `s` after the last `::` (all of `s` when there is none):
/// `s.rsplit("::").next()`.
pub open spec fn after_last_sep(s: Seq<char>) -> Seq<char> {
    if contains_seq(s, composite_sep()) {
        let i = choose|i: int| last_occurrence(s, composite_sep(), i);
        s.subrange(i + 2, s.len() as int)
    } else {
        s
    }
}

/// Whether `p` occurs in `s` (`str::contains`).
pub fn str_contains(s: &str, p: &str) -> (b: bool)
    ensures
        b == contains_seq(s@, p@),
{
    let v = to_chars(s);
    let q = to_chars(p);
    match find_seq(&v, &q, 0) {
        Some(i) => true,
        None => false,
    }
}

/// Whether two strings are equal.
pub fn str_eq(a: &str, b: &str) -> (r: bool)
    ensures
        r == (a@ == b@),
{
    a.to_owned() == b.to_owned()
}

/// The vector `::`.
pub fn sep_chars() -> (v: Vec<char>)
    ensures
        v@ == composite_sep(),
{
    let mut v = Vec::new();
    v.push(':');
    v.push(':');
    assert(v@ =~= composite_sep());
    v
}

/// A composite path split at its first `::`: the outer path and the
/// member path, or the whole path and no member.
pub open spec fn split_composite_spec(path: Seq<char>) -> (Seq<char>, Option<Seq<char>>) {
    if contains_seq(path, composite_sep()) {
        let i = choose|i: int| first_occurrence(path, composite_sep(), i);
        (path.subrange(0, i), Some(path.subrange(i + 2, path.len() as int)))
    } else {
        (path, None)
    }
}

/// Splits a composite path at its first `::` into the outer path and the
/// member path; a path without `::` comes back whole with no member.
pub fn split_composite_path(path: &str) -> (r: (String, Option<String>))
    ensures
        (r.0@, match r.1 { Some(m) => Some(m@), None => None }) == split_composite_spec(path@),
        match r.1 {
            None => r.0@ == path@ && !contains_seq(path@, composite_sep()),
            Some(member) => exists|i: int|
                first_occurrence(path@, composite_sep(), i)
                && r.0@ == path@.subrange(0, i)
                && member@ == path@.subrange(i + 2, path@.len() as int),
        },
{
    let v = to_chars(path);
    let sep = sep_chars();
    assert(sep@.len() == 2);
    match find_seq(&v, &sep, 0) {
        Some(i) => {
            let outer = string_from_chars(&v, 0, i);
            let member = string_from_chars(&v, i + 2, v.len());
            assert(first_occurrence(path@, composite_sep(), i as int));
            proof {
                let j = choose|j: int| first_occurrence(path@, composite_sep(), j);
                assert(first_occurrence(path@, composite_sep(), j));
                if j < i { assert(!occurs_at(path@, composite_sep(), j)); }
                if i < j { assert(!occurs_at(path@, composite_sep(), i as int)); }
            }
            (outer, Some(member))
        },
        None => {
            let whole = string_from_chars(&v, 0, v.len());
            assert(v@.subrange(0, v@.len() as int) == v@);
            (whole, None)
        },
    }
}

/// The members of a composite path: `path::archive_path` when an archive
/// path is given and non-empty, otherwise `path`.
pub open spec fn composite_path_spec(path: Seq<char>, archive_path: Option<Seq<char>>) -> Seq<char> {
    match archive_path {
        Some(ap) => if ap.len() > 0 { path + composite_sep() + ap } else { path },
        None => path,
    }
}

/// Builds a composite path from a base path and an optional archive path.
pub fn composite_path(path: &str, archive_path: Option<&str>) -> (r: String)
    ensures
        r@ == composite_path_spec(path@, match archive_path { Some(a) => Some(a@), None => None }),
{
    let mut s = String::new();
    push_str(&mut s, path);
    match archive_path {
        Some(ap) => {
            let apv = to_chars(ap);
            if apv.len() > 0 {
                push_char(&mut s, ':');
                push_char(&mut s, ':');
                push_chars(&mut s, &apv, 0, apv.len());
                assert(apv@.subrange(0, apv@.len() as int) == ap@);
                assert(s@ =~= path@ + composite_sep() + ap@);
            }
        },
        None => {},
    }
    s
}

/// Whether `path` names a top-level archive: kind `archive` and no `::`.
pub fn is_outer_archive(path: &str, kind: &str) -> (b: bool)
    ensures
        b == (kind@ == seq!['a', 'r', 'c', 'h', 'i', 'v', 'e'] && !contains_seq(path@, composite_sep())),
{
    let k = to_chars(kind);
    let archive = archive_word();
    let is_archive = k.len() == archive.len() && matches_at(&k, &archive, 0);
    proof {
        if k.len() == archive.len() {
            assert(k@.subrange(0, k@.len() as int) == k@);
        }
    }
    if !is_archive {
        return false;
    }
    let v = to_chars(path);
    let sep = sep_chars();
    match find_seq(&v, &sep, 0) {
        Some(_) => false,
        None => true,
    }
}

/// The characters of `archive`.
pub fn archive_word() -> (v: Vec<char>)
    ensures
        v@ == seq!['a', 'r', 'c', 'h', 'i', 'v', 'e'],
{
    let v = vec!['a', 'r', 'c', 'h', 'i', 'v', 'e'];
    assert(v@ =~= seq!['a', 'r', 'c', 'h', 'i', 'v', 'e']);
    v
}

/// The position just past the last `::` of `v` (0 when there is none).
pub fn leaf_start(v: &Vec<char>) -> (k: usize)
    ensures
        k <= v.len(),
        v@.subrange(k as int, v@.len() as int) == after_last_sep(v@),
{
    let sep = sep_chars();
    assert(sep@.len() == 2);
    match rfind_seq(v, &sep) {
        Some(i) => {
            assert(occurs_at(v@, sep@, i as int));
            assert(i + 2 <= v@.len());
            assert(v@.len() == v.len());
            let k = i + 2;
            assert(last_occurrence(v@, composite_sep(), i as int));
            assert(contains_seq(v@, composite_sep()));
            let ghost j = choose|j: int| last_occurrence(v@, composite_sep(), j);
            assert(j == i as int) by {
                if j < i { assert(!occurs_at(v@, composite_sep(), i as int)); }
                if j > i { assert(!occurs_at(v@, composite_sep(), j)); }
            }
            k
        },
        None => {
            assert(v@.subrange(0, v@.len() as int) == v@);
            0
        },
    }
}

// ── Path joins ───────────────────────────────────────────────────────────────

/// `PathBuf::join` on Unix paths: an absolute component replaces the base;
/// otherwise a `/` is inserted unless the base is empty or already ends in one.
pub open spec fn join_spec(base: Seq<char>, comp: Seq<char>) -> Seq<char> {
    if comp.len() > 0 && comp[0] == '/' {
        comp
    } else if base.len() == 0 || base.last() == '/' {
        base + comp
    } else {
        base + seq!['/'] + comp
    }
}

/// Joins a path component onto a base path.
pub fn join(base: &str, comp: &str) -> (r: String)
    ensures
        r@ == join_spec(base@, comp@),
{
    let b = to_chars(base);
    let c = to_chars(comp);
    if c.len() > 0 && c[0] == '/' {
        return string_from_chars(&c, 0, c.len());
    }
    let mut s = string_from_chars(&b, 0, b.len());
    if b.len() > 0 && b[b.len() - 1] != '/' {
        push_char(&mut s, '/');
    }
    push_chars(&mut s, &c, 0, c.len());
    assert(b@.subrange(0, b@.len() as int) == b@);
    assert(c@.subrange(0, c@.len() as int) == c@);
    s
}


// ── Extensions and stems ─────────────────────────────────────────────────────

/// `i` is the last index of `c` in `s`.
pub open spec fn last_index_of(s: Seq<char>, c: char, i: int) -> bool {
    0 <= i < s.len() && s[i] == c && forall|j: int| i < j < s.len() ==> s[j] != c
}

/// Whether `c` occurs in `s`.
pub open spec fn has_char(s: Seq<char>, c: char) -> bool {
    exists|i: int| 0 <= i < s.len() && s[i] == c
}

/// What `str::to_lowercase` returns on a string (Unicode lowercase mapping).
pub uninterp spec fn lowercase_of(s: Seq<char>) -> Seq<char>;

/// Whether every character of `s` is ASCII.
pub open spec fn all_ascii(s: Seq<char>) -> bool {
    forall|i: int| 0 <= i < s.len() ==> (s[i] as u32) < 128
}

/// The ASCII lowercase of a character: `A`..`Z` become `a`..`z`, anything
/// else stays.
pub open spec fn ascii_lower(c: char) -> char {
    if 'A' <= c && c <= 'Z' { ((c as u32) + 32) as char } else { c }
}

/// `str::to_lowercase`.
/// Trusted: the result is the Unicode lowercase mapping of `s`, named
/// `lowercase_of`; on ASCII text that mapping lowercases `A`..`Z` and keeps
/// every other character. What it does to other characters is left unsaid.
#[verifier::external_body]
pub(crate) fn to_lowercase(s: &str) -> (r: String)
    ensures
        r@ == lowercase_of(s@),
        all_ascii(s@) ==> r@ == s@.map_values(|c: char| ascii_lower(c)),
{
    s.to_lowercase()
}

/// Index of the last `c` in `v[from..to]`.
pub fn rfind_char(v: &Vec<char>, from: usize, to: usize, c: char) -> (r: Option<usize>)
    requires
        from <= to <= v.len(),
    ensures
        match r {
            Some(i) => from <= i < to && v@[i as int] == c
                && forall|j: int| i < j < to ==> v@[j] != c,
            None => forall|j: int| from <= j < to ==> v@[j] != c,
        },
{
    let mut i = to;
    while i > from
        invariant
            from <= i <= to <= v.len(),
            forall|j: int| i <= j < to ==> v@[j] != c,
        decreases i - from,
    {
        i = i - 1;
        if v[i] == c {
            return Some(i);
        }
    }
    None
}

/// The lowercased text after the last `.` of the last `::` member of
/// `name`, or the empty string when that member has no `.`.
pub open spec fn extension_spec(name: Seq<char>) -> Seq<char> {
    let leaf = after_last_sep(name);
    if has_char(leaf, '.') {
        let d = choose|d: int| last_index_of(leaf, '.', d);
        lowercase_of(leaf.subrange(d + 1, leaf.len() as int))
    } else {
        Seq::empty()
    }
}

/// The lowercased extension of a possibly composite file name.
pub fn extension_of(name: &str) -> (r: String)
    ensures
        r@ == extension_spec(name@),
{
    let v = to_chars(name);
    let k = leaf_start(&v);
    let ghost leaf = v@.subrange(k as int, v@.len() as int);
    match rfind_char(&v, k, v.len(), '.') {
        Some(d) => {
            let tail = string_from_chars(&v, d + 1, v.len());
            proof {
                assert(last_index_of(leaf, '.', d - k));
                assert(has_char(leaf, '.'));
                let e = choose|e: int| last_index_of(leaf, '.', e);
                assert(e == d - k) by {
                    if e < d - k { assert(leaf[d - k] == '.'); }
                    if e > d - k { assert(leaf[e] == '.'); }
                }
                assert(leaf.subrange(d - k + 1, leaf.len() as int) == tail@);
            }
            to_lowercase(tail.as_str())
        },
        None => {
            proof {
                assert(!has_char(leaf, '.')) by {
                    if has_char(leaf, '.') {
                        let j = choose|j: int| 0 <= j < leaf.len() && leaf[j] == '.';
                        assert(v@[k + j] == '.');
                    }
                }
            }
            String::new()
        },
    }
}

/// The stem of a file name as `Path::file_stem` gives it, or `file` when the
/// name has none (empty, `.` or `..`).
pub open spec fn file_stem_spec(name: Seq<char>) -> Seq<char> {
    if name.len() == 0 || name == seq!['.'] || name == seq!['.', '.'] {
        seq!['f', 'i', 'l', 'e']
    } else if has_char(name, '.') {
        let d = choose|d: int| last_index_of(name, '.', d);
        if d == 0 { name } else { name.subrange(0, d) }
    } else {
        name
    }
}

/// The part of `s` after its last `/` (all of `s` when there is none).
pub open spec fn after_last_slash(s: Seq<char>) -> Seq<char> {
    if has_char(s, '/') {
        let d = choose|d: int| last_index_of(s, '/', d);
        s.subrange(d + 1, s.len() as int)
    } else {
        s
    }
}

/// The file stem of the last member of a possibly composite path.
#[verifier::spinoff_prover]
pub fn stem_from_path(path: &str) -> (r: String)
    ensures
        r@ == file_stem_spec(after_last_slash(after_last_sep(path@))),
{
    let v = to_chars(path);
    let k = leaf_start(&v);
    let ghost leaf1 = v@.subrange(k as int, v@.len() as int);
    let s = match rfind_char(&v, k, v.len(), '/') {
        Some(d) => {
            proof {
                assert(last_index_of(leaf1, '/', d - k));
                let e = choose|e: int| last_index_of(leaf1, '/', e);
                assert(e == d - k) by {
                    if e < d - k { assert(leaf1[d - k] == '/'); }
                    if e > d - k { assert(leaf1[e] == '/'); }
                }
                assert(leaf1.subrange(d - k + 1, leaf1.len() as int) == v@.subrange(d + 1, v@.len() as int));
            }
            d + 1
        },
        None => {
            proof {
                assert(!has_char(leaf1, '/')) by {
                    if has_char(leaf1, '/') {
                        let j = choose|j: int| 0 <= j < leaf1.len() && leaf1[j] == '/';
                        assert(v@[k + j] == '/');
                    }
                }
            }
            k
        },
    };
    let ghost name = v@.subrange(s as int, v@.len() as int);
    assert(name == after_last_slash(after_last_sep(path@)));
    let n = v.len() - s;
    if n == 0 || (n == 1 && v[s] == '.') || (n == 2 && v[s] == '.' && v[s + 1] == '.') {
        proof {
            if n == 1 { assert(name =~= seq!['.']); }
            if n == 2 { assert(name =~= seq!['.', '.']); }
        }
        let mut r = String::new();
        push_char(&mut r, 'f');
        push_char(&mut r, 'i');
        push_char(&mut r, 'l');
        push_char(&mut r, 'e');
        assert(r@ =~= seq!['f', 'i', 'l', 'e']);
        return r;
    }
    proof {
        if n == 1 { assert(name[0] != '.' ==> name != seq!['.']); }
        if n == 2 { assert(name != seq!['.', '.']) by {
            if name == seq!['.', '.'] { assert(name[0] == '.' && name[1] == '.'); }
        } }
    }
    match rfind_char(&v, s, v.len(), '.') {
        Some(d) => {
            proof {
                assert(last_index_of(name, '.', d - s));
                let e = choose|e: int| last_index_of(name, '.', e);
                assert(e == d - s) by {
                    if e < d - s { assert(name[d - s] == '.'); }
                    if e > d - s { assert(name[e] == '.'); }
                }
            }
            if d == s {
                string_from_chars(&v, s, v.len())
            } else {
                string_from_chars(&v, s, d)
            }
        },
        None => {
            proof {
                assert(!has_char(name, '.')) by {
                    if has_char(name, '.') {
                        let j = choose|j: int| 0 <= j < name.len() && name[j] == '.';
                        assert(v@[s + j] == '.');
                    }
                }
            }
            string_from_chars(&v, s, v.len())
        },
    }
}

// ── Range-scan upper bound ───────────────────────────────────────────────────

/// What `String::from_utf8` gives: the decoded string when the bytes are
/// valid UTF-8.
#[verifier::external_body]
pub(crate) fn string_from_utf8(bytes: Vec<u8>) -> (r: Option<String>)
    ensures
        match r {
            Some(s) => vstd::utf8::valid_utf8(bytes@) && s@ == vstd::utf8::decode_utf8(bytes@),
            None => !vstd::utf8::valid_utf8(bytes@),
        },
{
    String::from_utf8(bytes).ok()
}

/// The exclusive upper bound for a prefix range scan: the UTF-8 bytes of
/// `prefix` with the last byte incremented (wrapping), decoded back; the
/// string `U+FFFF` when that is not valid UTF-8; the empty string for an
/// empty prefix.
pub open spec fn prefix_bump_spec(prefix: Seq<char>) -> Seq<char> {
    let b = vstd::utf8::encode_utf8(prefix);
    if b.len() == 0 {
        prefix
    } else {
        let b2 = b.update(b.len() - 1, ((b.last() + 1) % 256) as u8);
        if vstd::utf8::valid_utf8(b2) {
            vstd::utf8::decode_utf8(b2)
        } else {
            seq!['\u{FFFF}']
        }
    }
}

/// `a` sorts before `b` byte by byte, as SQLite compares text.
pub open spec fn bytes_lt(a: Seq<u8>, b: Seq<u8>) -> bool {
    exists|i: int| {
        &&& 0 <= i < b.len()
        &&& i <= a.len()
        &&& #[trigger] a.subrange(0, i) == b.subrange(0, i)
        &&& (i == a.len() || a[i] < b[i])
    }
}

/// The encoding of a concatenation is the concatenation of the encodings.
pub proof fn lemma_encode_concat(a: Seq<char>, b: Seq<char>)
    ensures
        vstd::utf8::encode_utf8(a + b) == vstd::utf8::encode_utf8(a) + vstd::utf8::encode_utf8(b),
    decreases a.len(),
{
    if a.len() > 0 {
        assert((a + b).drop_first() =~= a.drop_first() + b);
        lemma_encode_concat(a.drop_first(), b);
        assert(vstd::utf8::encode_utf8(a + b) =~= vstd::utf8::encode_utf8(a) + vstd::utf8::encode_utf8(b));
    } else {
        assert(a + b =~= b);
        assert(vstd::utf8::encode_utf8(a) + vstd::utf8::encode_utf8(b) =~= vstd::utf8::encode_utf8(b));
    }
}

/// The last byte of a non-empty encoding is never `0xFF`.
proof fn lemma_encode_last_byte(s: Seq<char>)
    requires
        s.len() > 0,
    ensures
        vstd::utf8::encode_utf8(s).len() > 0,
        vstd::utf8::encode_utf8(s).last() < 255,
{
    let c = s.last();
    assert(s.drop_last() + seq![c] =~= s);
    lemma_encode_concat(s.drop_last(), seq![c]);
    assert(seq![c].drop_first() =~= Seq::<char>::empty());
    assert(seq![c][0] == c);
    let e = vstd::utf8::encode_scalar(c as u32);
    assert(vstd::utf8::encode_utf8(Seq::<char>::empty()) =~= Seq::<u8>::empty());
    assert(vstd::utf8::encode_utf8(seq![c]) =~= e);
    let x = c as u32;
    assert(((x & 0x7F) as u8) < 255u8) by (bit_vector);
    assert((0x80u8 | ((x & 0x3F) as u8)) < 255u8) by (bit_vector);
    assert(vstd::utf8::leading_byte_width_1(x) < 255u8);
    assert(vstd::utf8::last_continuation_byte(x) < 255u8);
    assert(e.len() > 0 && e.last() < 255);
}

/// The range law of `prefix_bump`: every path that starts with a non-empty
/// `prefix` sorts, byte by byte, at or after `prefix` and before the bumped
/// prefix, where the bumped bytes decode (else `U+FFFF` stands in).
pub proof fn lemma_prefix_bump_range(prefix: Seq<char>, path: Seq<char>)
    requires
        prefix.len() > 0,
        prefix.is_prefix_of(path),
        vstd::utf8::valid_utf8({
            let b = vstd::utf8::encode_utf8(prefix);
            b.update(b.len() - 1, ((b.last() + 1) % 256) as u8)
        }),
    ensures
        bytes_lt(vstd::utf8::encode_utf8(path), vstd::utf8::encode_utf8(prefix_bump_spec(prefix))),
        !bytes_lt(vstd::utf8::encode_utf8(path), vstd::utf8::encode_utf8(prefix)),
{
    let e = vstd::utf8::encode_utf8(prefix);
    let rest = path.subrange(prefix.len() as int, path.len() as int);
    assert(prefix + rest =~= path);
    lemma_encode_concat(prefix, rest);
    let p = vstd::utf8::encode_utf8(path);
    lemma_encode_last_byte(prefix);
    let b2 = e.update(e.len() - 1, ((e.last() + 1) % 256) as u8);
    vstd::utf8::decode_utf8_encode_utf8(b2);
    let bb = vstd::utf8::encode_utf8(prefix_bump_spec(prefix));
    assert(bb == b2);
    let i = e.len() - 1;
    assert(p.subrange(0, i) =~= bb.subrange(0, i));
    assert(p[i] == e[i]);
    assert(bytes_lt(p, bb));
    assert forall|j: int| 0 <= j < e.len() && j <= p.len() && #[trigger] p.subrange(0, j) == e.subrange(0, j)
        implies !(j == p.len() || p[j] < e[j]) by {
        assert(p[j] == e[j]);
    }
}

/// Produces the upper-bound key for a prefix range scan by incrementing the
/// last byte.
pub fn prefix_bump(prefix: &str) -> (r: String)
    ensures
        r@ == prefix_bump_spec(prefix@),
{
    let bytes = prefix.as_bytes();
    let mut v: Vec<u8> = Vec::new();
    let mut i: usize = 0;
    while i < bytes.len()
        invariant
            i <= bytes@.len(),
            v@ == bytes@.subrange(0, i as int),
        decreases bytes@.len() - i,
    {
        v.push(bytes[i]);
        i = i + 1;
    }
    assert(v@ == bytes@);
    proof { vstd::utf8::encode_utf8_decode_utf8(prefix@); }
    if v.len() == 0 {
        let r = String::new();
        assert(vstd::utf8::decode_utf8(v@) =~= Seq::<char>::empty());
        return r;
    }
    let last = v.len() - 1;
    let b = v[last];
    let nb: u8 = if b == 255 { 0 } else { b + 1 };
    v.set(last, nb);
    match string_from_utf8(v) {
        Some(s) => s,
        None => {
            let mut s = String::new();
            push_char(&mut s, '\u{FFFF}');
            s
        },
    }
}

} // verus!
