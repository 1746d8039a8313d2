//! Directory listings: the immediate children of a directory, or of a
//! directory inside an archive, built from the indexed paths under it.
use vstd::prelude::*;
use crate::text::{to_chars, string_from_chars, push_str, push_char, find_seq, occurs_at};
use crate::paths::{composite_sep, first_occurrence, contains_seq, str_eq, prefix_bump, prefix_bump_spec};
use crate::index::opt_view;
use crate::wrap::views;

verus! {

/// One entry of a directory listing.
pub struct DirEntry {
    pub name: String,
    /// The path to list next (directories end with `/`), or the file's path.
    pub path: String,
    /// `dir` or `file`.
    pub entry_type: String,
    pub kind: Option<String>,
    pub size: Option<i64>,
    pub mtime: Option<i64>,
}

/// The model of an entry.
pub struct EntryView {
    pub name: Seq<char>,
    pub path: Seq<char>,
    pub entry_type: Seq<char>,
    pub kind: Option<Seq<char>>,
    pub size: Option<i64>,
    pub mtime: Option<i64>,
}

/// The model of an entry.
pub open spec fn entry_view(e: DirEntry) -> EntryView {
    EntryView {
        name: e.name@,
        path: e.path@,
        entry_type: e.entry_type@,
        kind: opt_view(e.kind),
        size: e.size,
        mtime: e.mtime,
    }
}

/// The models of entries.
pub open spec fn entry_views(v: Seq<DirEntry>) -> Seq<EntryView> {
    v.map_values(|e: DirEntry| entry_view(e))
}

/// A row of the file table: path, kind, size, modification time.
pub type FileRow = (String, String, Option<i64>, i64);

/// The key range of the paths under `prefix`: from the prefix to the
/// prefix with its last byte bumped. For the root it gives the empty text
/// and U+FFFF, which leaves out paths that start above U+FFFF; `list_dir`
/// therefore reads the whole table at the root instead.
pub fn list_dir_bounds(prefix: &str) -> (r: (String, String))
    ensures
        prefix@.len() == 0 ==> r.0@.len() == 0 && r.1@ == seq!['\u{FFFF}'],
        prefix@.len() > 0 ==> r.0@ == prefix@ && r.1@ == prefix_bump_spec(prefix@),
{
    if prefix.is_empty() {
        let mut hi = String::new();
        push_char(&mut hi, '\u{FFFF}');
        (String::new(), hi)
    } else {
        (prefix.to_owned(), prefix_bump(prefix))
    }
}

/// The part of `path` after `prefix` (all of `path` when it does not
/// start with `prefix`).
pub open spec fn rest_of(prefix: Seq<char>, path: Seq<char>) -> Seq<char> {
    if prefix.len() <= path.len() && path.subrange(0, prefix.len() as int) == prefix {
        path.subrange(prefix.len() as int, path.len() as int)
    } else {
        path
    }
}

/// The index of the first occurrence of `p` in `s`, if any.
pub open spec fn first_index(s: Seq<char>, p: Seq<char>) -> Option<int> {
    if contains_seq(s, p) {
        Some(choose|i: int| first_occurrence(s, p, i))
    } else {
        None
    }
}

/// A name is a direct leaf of an archive listing when it holds neither
/// `::` nor `/`.
pub open spec fn is_leaf_name(r: Seq<char>) -> bool {
    !contains_seq(r, composite_sep()) && !contains_seq(r, seq!['/'])
}

/// The names of the real files directly in an archive directory.
pub open spec fn leaf_names(prefix: Seq<char>, rows: Seq<FileRow>) -> Set<Seq<char>> {
    Set::new(|n: Seq<char>| exists|i: int| 0 <= i < rows.len() && #[trigger] rest_of(prefix, rows[i].0@) == n && is_leaf_name(n))
}

/// The listing state: names already given a child entry, directory
/// entries, file entries.
pub struct ListState {
    pub seen: Seq<Seq<char>>,
    pub dirs: Seq<EntryView>,
    pub files: Seq<EntryView>,
}

/// A directory entry named `name` under `prefix`.
pub open spec fn dir_entry(prefix: Seq<char>, name: Seq<char>) -> EntryView {
    EntryView { name, path: prefix + name + seq!['/'], entry_type: "dir"@, kind: None, size: None, mtime: None }
}

/// A nested archive named `name` under `prefix`.
pub open spec fn nested_archive_entry(prefix: Seq<char>, name: Seq<char>) -> EntryView {
    EntryView { name, path: prefix + name, entry_type: "file"@, kind: Some("archive"@), size: None, mtime: None }
}

/// The file entry of a row whose name is `name`.
pub open spec fn file_entry(name: Seq<char>, row: FileRow) -> EntryView {
    EntryView { name, path: row.0@, entry_type: "file"@, kind: Some(row.1@), size: row.2, mtime: Some(row.3) }
}

/// The listing state after one more row. Inside an archive (`prefix`
/// holds `::`), a child is cut at whichever of `::` (a nested archive,
/// listed as an archive file) or `/` (a subdirectory) comes first, unless
/// a real file of that name exists; outside, member paths are skipped and
/// a child is cut at `/`. Each child name is listed once; rows with no
/// separator left are files.
pub open spec fn list_step(prefix: Seq<char>, leaves: Set<Seq<char>>, st: ListState, row: FileRow) -> ListState {
    let r = rest_of(prefix, row.0@);
    if contains_seq(prefix, composite_sep()) {
        let colon = first_index(r, composite_sep());
        let slash = first_index(r, seq!['/']);
        let sep: Option<int> = match (colon, slash) {
            (Some(a), Some(b)) => Some(if a < b { a } else { b }),
            (Some(a), None) => Some(a),
            (None, Some(b)) => Some(b),
            (None, None) => None,
        };
        match sep {
            Some(pos) => {
                let child = r.subrange(0, pos);
                if !leaves.contains(child) && !st.seen.contains(child) {
                    if colon == Some(pos) {
                        ListState { seen: st.seen.push(child), files: st.files.push(nested_archive_entry(prefix, child)), ..st }
                    } else {
                        ListState { seen: st.seen.push(child), dirs: st.dirs.push(dir_entry(prefix, child)), ..st }
                    }
                } else {
                    st
                }
            },
            None => ListState { files: st.files.push(file_entry(r, row)), ..st },
        }
    } else if contains_seq(r, composite_sep()) {
        st
    } else {
        match first_index(r, seq!['/']) {
            Some(pos) => {
                let child = r.subrange(0, pos);
                if !st.seen.contains(child) {
                    ListState { seen: st.seen.push(child), dirs: st.dirs.push(dir_entry(prefix, child)), ..st }
                } else {
                    st
                }
            },
            None => ListState { files: st.files.push(file_entry(r, row)), ..st },
        }
    }
}

/// The listing state after the first `n` rows.
pub open spec fn list_rows(prefix: Seq<char>, rows: Seq<FileRow>, n: int) -> ListState
    decreases n,
{
    if n <= 0 {
        ListState { seen: Seq::empty(), dirs: Seq::empty(), files: Seq::empty() }
    } else {
        list_step(prefix, leaf_names(prefix, rows), list_rows(prefix, rows, n - 1), rows[n - 1])
    }
}

/// The listing of `prefix` from the rows under it: directories first,
/// then files, each in row order.
pub open spec fn list_dir_spec(prefix: Seq<char>, rows: Seq<FileRow>) -> Seq<EntryView> {
    let st = list_rows(prefix, rows, rows.len() as int);
    st.dirs + st.files
}

/// The first occurrence is unique.
proof fn lemma_first_index(s: Seq<char>, p: Seq<char>, i: int)
    requires
        first_occurrence(s, p, i),
    ensures
        first_index(s, p) == Some(i),
{
    let j = choose|j: int| first_occurrence(s, p, j);
    assert(first_occurrence(s, p, j));
    if j < i {
        assert(!occurs_at(s, p, j));
    } else if i < j {
        assert(!occurs_at(s, p, i));
    }
}

/// The index of the first occurrence of `p` in `v` (see `first_index`).
fn find_first(v: &Vec<char>, p: &Vec<char>) -> (r: Option<usize>)
    ensures
        match r {
            Some(i) => first_index(v@, p@) == Some(i as int) && first_occurrence(v@, p@, i as int),
            None => first_index(v@, p@) is None,
        },
{
    match find_seq(v, p, 0) {
        Some(i) => {
            proof { lemma_first_index(v@, p@, i as int); }
            Some(i)
        },
        None => {
            proof {
                assert(!contains_seq(v@, p@));
            }
            None
        },
    }
}

/// Whether `name` is among `names`.
fn names_contain(names: &Vec<String>, name: &str) -> (b: bool)
    ensures
        b == views(names@).contains(name@),
{
    let mut i: usize = 0;
    while i < names.len()
        invariant
            i <= names@.len(),
            forall|m: int| 0 <= m < i ==> views(names@)[m] != name@,
        decreases names@.len() - i,
    {
        if str_eq(names[i].as_str(), name) {
            assert(views(names@)[i as int] == name@);
            return true;
        }
        assert(views(names@)[i as int] == names@[i as int]@);
        i = i + 1;
    }
    false
}

/// The part of `path` after `prefix` (see `rest_of`).
fn rest_chars(prefix: &Vec<char>, path: &str) -> (r: Vec<char>)
    ensures
        r@ == rest_of(prefix@, path@),
{
    let v = to_chars(path);
    if prefix.len() <= v.len() && crate::text::matches_at(&v, prefix, 0) {
        let mut out: Vec<char> = Vec::new();
        let mut i = prefix.len();
        while i < v.len()
            invariant
                prefix@.len() <= i <= v@.len(),
                out@ == v@.subrange(prefix@.len() as int, i as int),
            decreases v@.len() - i,
        {
            out.push(v[i]);
            i = i + 1;
        }
        out
    } else {
        proof {
            if prefix@.len() <= v@.len() {
                assert(!occurs_at(v@, prefix@, 0));
            }
        }
        v
    }
}

/// A string of the characters `v[0..k]`.
fn head_string(v: &Vec<char>, k: usize) -> (s: String)
    requires
        k <= v@.len(),
    ensures
        s@ == v@.subrange(0, k as int),
{
    string_from_chars(v, 0, k)
}

/// The names of the real files directly in an archive directory (see
/// `leaf_names`), in row order.
fn collect_leaf_names(prefix: &Vec<char>, rows: &Vec<FileRow>) -> (r: Vec<String>)
    ensures
        forall|n: Seq<char>| views(r@).contains(n) <==> leaf_names(prefix@, rows@).contains(n),
{
    let sep = crate::paths::sep_chars();
    let slash = vec!['/'];
    let mut out: Vec<String> = Vec::new();
    let mut i: usize = 0;
    while i < rows.len()
        invariant
            i <= rows@.len(),
            sep@ == composite_sep(),
            slash@ == seq!['/'],
            forall|n: Seq<char>| views(out@).contains(n) <==>
                (exists|j: int| 0 <= j < i && #[trigger] rest_of(prefix@, rows@[j].0@) == n && is_leaf_name(n)),
        decreases rows@.len() - i,
    {
        let r = rest_chars(prefix, rows[i].0.as_str());
        let c = find_first(&r, &sep);
        let s = find_first(&r, &slash);
        let ghost old_out = out@;
        if c.is_none() && s.is_none() {
            let name = string_from_chars(&r, 0, r.len());
            assert(r@.subrange(0, r@.len() as int) =~= r@);
            out.push(name);
            assert(views(out@) =~= views(old_out).push(r@));
        }
        proof {
            assert forall|n: Seq<char>| views(out@).contains(n) <==>
                (exists|j: int| 0 <= j < i + 1 && #[trigger] rest_of(prefix@, rows@[j].0@) == n && is_leaf_name(n)) by {
                if views(out@).contains(n) {
                    if views(old_out).contains(n) {
                    } else {
                        let k = choose|k: int| 0 <= k < views(out@).len() && views(out@)[k] == n;
                        if k < views(old_out).len() {
                            assert(views(old_out)[k] == views(out@)[k]);
                        }
                        assert(rest_of(prefix@, rows@[i as int].0@) == n);
                    }
                }
                if exists|j: int| 0 <= j < i + 1 && #[trigger] rest_of(prefix@, rows@[j].0@) == n && is_leaf_name(n) {
                    let j = choose|j: int| 0 <= j < i + 1 && #[trigger] rest_of(prefix@, rows@[j].0@) == n && is_leaf_name(n);
                    if j == i {
                        assert(views(out@)[views(out@).len() - 1] == n);
                    } else {
                        assert(views(old_out).contains(n));
                        let k = choose|k: int| 0 <= k < views(old_out).len() && views(old_out)[k] == n;
                        assert(views(out@)[k] == n);
                    }
                }
            }
        }
        i = i + 1;
    }
    proof {
        assert forall|n: Seq<char>| views(out@).contains(n) <==> leaf_names(prefix@, rows@).contains(n) by {
            if views(out@).contains(n) {
                let j = choose|j: int| 0 <= j < rows@.len() && #[trigger] rest_of(prefix@, rows@[j].0@) == n && is_leaf_name(n);
            }
        }
    }
    out
}

/// A directory entry.
fn make_dir_entry(prefix: &str, child: &str) -> (e: DirEntry)
    ensures
        entry_view(e) == dir_entry(prefix@, child@),
{
    let mut path = prefix.to_owned();
    push_str(&mut path, child);
    push_char(&mut path, '/');
    assert(path@ =~= prefix@ + child@ + seq!['/']);
    DirEntry { name: child.to_owned(), path, entry_type: "dir".to_owned(), kind: None, size: None, mtime: None }
}

/// A nested-archive entry.
fn make_archive_entry(prefix: &str, child: &str) -> (e: DirEntry)
    ensures
        entry_view(e) == nested_archive_entry(prefix@, child@),
{
    let mut path = prefix.to_owned();
    push_str(&mut path, child);
    DirEntry { name: child.to_owned(), path, entry_type: "file".to_owned(), kind: Some("archive".to_owned()), size: None, mtime: None }
}

/// A file entry.
fn make_file_entry(name: &str, row: &FileRow) -> (e: DirEntry)
    ensures
        entry_view(e) == file_entry(name@, *row),
{
    DirEntry {
        name: name.to_owned(),
        path: row.0.clone(),
        entry_type: "file".to_owned(),
        kind: Some(row.1.clone()),
        size: row.2,
        mtime: Some(row.3),
    }
}

/// Lists the immediate children of `prefix` from the rows of the files
/// under it (see `list_dir_spec`): `prefix` ends with `/` for a
/// directory, with `::` for an archive, and is empty for the root.
pub fn list_dir_entries(prefix: &str, rows: &Vec<FileRow>) -> (r: Vec<DirEntry>)
    ensures
        entry_views(r@) == list_dir_spec(prefix@, rows@),
{
    let pv = to_chars(prefix);
    let sep = crate::paths::sep_chars();
    let slash = vec!['/'];
    let in_archive = find_seq(&pv, &sep, 0).is_some();
    proof {
        if in_archive {
            let i = choose|i: int| occurs_at(pv@, sep@, i);
        }
    }
    assert(in_archive == contains_seq(prefix@, composite_sep()));
    let leaves: Vec<String> = if in_archive { collect_leaf_names(&pv, rows) } else { Vec::new() };
    let ghost lv = leaf_names(prefix@, rows@);
    let mut seen: Vec<String> = Vec::new();
    let mut dirs: Vec<DirEntry> = Vec::new();
    let mut files: Vec<DirEntry> = Vec::new();
    assert(views(seen@) =~= Seq::<Seq<char>>::empty());
    assert(entry_views(dirs@) =~= Seq::<EntryView>::empty());
    assert(entry_views(files@) =~= Seq::<EntryView>::empty());
    let mut i: usize = 0;
    while i < rows.len()
        invariant
            i <= rows@.len(),
            pv@ == prefix@,
            sep@ == composite_sep(),
            slash@ == seq!['/'],
            in_archive == contains_seq(prefix@, composite_sep()),
            lv == leaf_names(prefix@, rows@),
            in_archive ==> forall|n: Seq<char>| views(leaves@).contains(n) <==> lv.contains(n),
            ({
                let st = list_rows(prefix@, rows@, i as int);
                &&& views(seen@) == st.seen
                &&& entry_views(dirs@) == st.dirs
                &&& entry_views(files@) == st.files
            }),
        decreases rows@.len() - i,
    {
        let row = &rows[i];
        let r = rest_chars(&pv, row.0.as_str());
        let ghost st = list_rows(prefix@, rows@, i as int);
        let ghost old_seen = seen@;
        let ghost old_dirs = dirs@;
        let ghost old_files = files@;
        let colon = find_first(&r, &sep);
        let sl = find_first(&r, &slash);
        if in_archive {
            let sep_pos: Option<usize> = match (colon, sl) {
                (Some(a), Some(b)) => Some(if a < b { a } else { b }),
                (Some(a), None) => Some(a),
                (None, Some(b)) => Some(b),
                (None, None) => None,
            };
            match sep_pos {
                Some(pos) => {
                    let child = head_string(&r, pos);
                    let known = names_contain(&leaves, child.as_str()) || names_contain(&seen, child.as_str());
                    if !known {
                        let is_archive = match colon { Some(a) => a == pos, None => false };
                        seen.push(child.clone());
                        assert(views(seen@) =~= views(old_seen).push(child@));
                        if is_archive {
                            let e = make_archive_entry(prefix, child.as_str());
                            files.push(e);
                            assert(entry_views(files@) =~= entry_views(old_files).push(entry_view(e)));
                        } else {
                            let e = make_dir_entry(prefix, child.as_str());
                            dirs.push(e);
                            assert(entry_views(dirs@) =~= entry_views(old_dirs).push(entry_view(e)));
                        }
                    }
                },
                None => {
                    let name = string_from_chars(&r, 0, r.len());
                    assert(r@.subrange(0, r@.len() as int) =~= r@);
                    let e = make_file_entry(name.as_str(), row);
                    files.push(e);
                    assert(entry_views(files@) =~= entry_views(old_files).push(entry_view(e)));
                },
            }
        } else if colon.is_some() {
        } else {
            match sl {
                Some(pos) => {
                    let child = head_string(&r, pos);
                    if !names_contain(&seen, child.as_str()) {
                        seen.push(child.clone());
                        assert(views(seen@) =~= views(old_seen).push(child@));
                        let e = make_dir_entry(prefix, child.as_str());
                        dirs.push(e);
                        assert(entry_views(dirs@) =~= entry_views(old_dirs).push(entry_view(e)));
                    }
                },
                None => {
                    let name = string_from_chars(&r, 0, r.len());
                    assert(r@.subrange(0, r@.len() as int) =~= r@);
                    let e = make_file_entry(name.as_str(), row);
                    files.push(e);
                    assert(entry_views(files@) =~= entry_views(old_files).push(entry_view(e)));
                },
            }
        }
        i = i + 1;
    }
    let ghost d = dirs@;
    let ghost fv = files@;
    let mut out = dirs;
    let mut f = files;
    out.append(&mut f);
    assert(out@ =~= d + fv);
    assert(entry_views(out@) =~= entry_views(d) + entry_views(fv));
    out
}

} // verus!
