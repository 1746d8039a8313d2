//! The web interface's files: which asset a request path names, the
//! configuration handed to the page (injected before the end of its head),
//! and the build label shown in the settings.
use vstd::prelude::*;
use crate::text::{to_chars, string_from_chars, push_str, push_chars, push_decimal, decimal_digits, find_seq, occurs_at};
use crate::paths::{first_occurrence, contains_seq};

verus! {

/// `s` without its leading `/` characters.
pub open spec fn strip_slashes(s: Seq<char>) -> Seq<char>
    decreases s.len(),
{
    if s.len() > 0 && s[0] == '/' { strip_slashes(s.drop_first()) } else { s }
}

/// The asset a request path names: the path without its leading `/`s, and
/// `index.html` when nothing is left.
pub open spec fn asset_path_spec(uri_path: Seq<char>) -> Seq<char> {
    if strip_slashes(uri_path).len() == 0 { "index.html"@ } else { strip_slashes(uri_path) }
}

/// The asset a request path names (see `asset_path_spec`).
pub fn asset_path(uri_path: &str) -> (r: String)
    ensures
        r@ == asset_path_spec(uri_path@),
{
    let v = to_chars(uri_path);
    let mut i: usize = 0;
    assert(v@.subrange(0, v@.len() as int) =~= v@);
    while i < v.len() && v[i] == '/'
        invariant
            i <= v@.len(),
            v@ == uri_path@,
            strip_slashes(uri_path@) == strip_slashes(v@.subrange(i as int, v@.len() as int)),
        decreases v@.len() - i,
    {
        assert(v@.subrange(i as int, v@.len() as int).drop_first() =~= v@.subrange(i + 1, v@.len() as int));
        i = i + 1;
    }
    if i == v.len() {
        assert(strip_slashes(uri_path@).len() == 0);
        proof { reveal_strlit("index.html"); }
        "index.html".to_owned()
    } else {
        string_from_chars(&v, i, v.len())
    }
}

/// `</head>`
pub open spec fn head_end() -> Seq<char> {
    seq!['<', '/', 'h', 'e', 'a', 'd', '>']
}

/// The page's configuration script: the deepest archive member level that
/// downloads may reach.
pub open spec fn config_script_spec(member_levels: u64) -> Seq<char> {
    "<script>window.find_anything_config={\"download_zip_member_levels\":"@ + decimal_digits(member_levels as nat)
        + "};</script>"@
}

/// The page's configuration script (see `config_script_spec`).
pub fn config_script(member_levels: u64) -> (r: String)
    ensures
        r@ == config_script_spec(member_levels),
{
    let mut s = "<script>window.find_anything_config={\"download_zip_member_levels\":".to_owned();
    push_decimal(&mut s, member_levels);
    push_str(&mut s, "};</script>");
    s
}

/// `html` with `script` placed before its first `</head>`; unchanged when
/// it has none.
pub open spec fn inject_spec(html: Seq<char>, script: Seq<char>) -> Seq<char> {
    if contains_seq(html, head_end()) {
        let i = choose|i: int| first_occurrence(html, head_end(), i);
        html.subrange(0, i) + script + html.subrange(i, html.len() as int)
    } else {
        html
    }
}

/// Places the configuration script before the first `</head>` of the page
/// (see `inject_spec`).
pub fn inject_config(html: &str, script: &str) -> (r: String)
    ensures
        r@ == inject_spec(html@, script@),
{
    let v = to_chars(html);
    let p = vec!['<', '/', 'h', 'e', 'a', 'd', '>'];
    assert(p@ =~= head_end());
    match find_seq(&v, &p, 0) {
        Some(i) => {
            proof {
                assert(first_occurrence(html@, head_end(), i as int));
                let j = choose|j: int| first_occurrence(html@, head_end(), j);
                assert(first_occurrence(html@, head_end(), j));
                if j < i { assert(!occurs_at(html@, head_end(), j)); }
                if i < j { assert(!occurs_at(html@, head_end(), i as int)); }
            }
            let mut s = string_from_chars(&v, 0, i);
            push_str(&mut s, script);
            push_chars(&mut s, &v, i, v.len());
            assert(s@ =~= inject_spec(html@, script@));
            s
        },
        None => {
            proof {
                if contains_seq(html@, head_end()) {
                    let j = choose|j: int| occurs_at(html@, head_end(), j);
                    assert(occurs_at(v@, p@, j));
                }
            }
            assert(v@.subrange(0, v@.len() as int) =~= v@);
            string_from_chars(&v, 0, v.len())
        },
    }
}

/// The build label shown in the settings: `dev` when the tree had
/// uncommitted changes, `release` when built from the tag `v<version>`,
/// else the commit hash. The tag and the dirty marker are taken trimmed.
pub open spec fn build_label_spec(version: Seq<char>, hash: Seq<char>, tag: Seq<char>, dirty: Seq<char>) -> Seq<char> {
    if crate::text::trim(dirty).len() > 0 {
        "dev"@
    } else if crate::text::trim(tag) == seq!['v'] + version {
        "release"@
    } else {
        hash
    }
}

/// The build label (see `build_label_spec`).
pub fn build_label(version: &str, hash: &str, tag: &str, dirty: &str) -> (r: String)
    ensures
        r@ == build_label_spec(version@, hash@, tag@, dirty@),
{
    let d = to_chars(dirty);
    let (da, db) = crate::text::trim_bounds(&d, 0, d.len());
    assert(d@.subrange(0, d@.len() as int) =~= dirty@);
    if da < db {
        proof { reveal_strlit("dev"); }
        return "dev".to_owned();
    }
    let t = to_chars(tag);
    let (ta, tb) = crate::text::trim_bounds(&t, 0, t.len());
    assert(t@.subrange(0, t@.len() as int) =~= tag@);
    let trimmed = string_from_chars(&t, ta, tb);
    let mut want = "v".to_owned();
    push_str(&mut want, version);
    proof { reveal_strlit("v"); }
    assert(want@ =~= seq!['v'] + version@);
    if crate::paths::str_eq(trimmed.as_str(), want.as_str()) {
        proof { reveal_strlit("release"); }
        "release".to_owned()
    } else {
        hash.to_owned()
    }
}

} // verus!
