//! What a file request answers: the file's kind and times from its row,
//! its metadata and content lines split apart (with the line numbers only
//! when they are not 1, 2, 3, …), and the indexing error recorded for it
//! or, for an archive member, for its outer archive.
use vstd::prelude::*;
use crate::db::{DbError, SqlCell, cell_at, text_of, int_of, opt_int_of, row_views, get_text, get_int, get_opt_int,
    query, text_param, get_indexing_error, optional_text};
use crate::http::ContextLine;
use crate::index::opt_view;
use crate::paths::{split_composite_spec, split_composite_path};
use crate::results::{snippet_spec, snippet_of};

verus! {

/// The parts of a file's answer built from its lines.
pub struct FileLines {
    /// The content lines (numbered from 1), in order.
    pub lines: Vec<String>,
    /// The numbers of the content lines; empty when they are 1, 2, 3, ….
    pub line_offsets: Vec<usize>,
    /// The metadata lines (number 0), without a leading `[PATH] `.
    pub metadata: Vec<String>,
}

/// The metadata texts of `s`: the lines numbered 0, without a leading
/// `[PATH] `, in order.
pub open spec fn metadata_of(s: Seq<ContextLine>) -> Seq<Seq<char>>
    decreases s.len(),
{
    if s.len() == 0 {
        Seq::empty()
    } else if s.last().line_number == 0 {
        metadata_of(s.drop_last()).push(snippet_spec(s.last().content@))
    } else {
        metadata_of(s.drop_last())
    }
}

/// The content lines of `s` (numbered from 1) as (number, text), in order.
pub open spec fn content_of(s: Seq<ContextLine>) -> Seq<(usize, Seq<char>)>
    decreases s.len(),
{
    if s.len() == 0 {
        Seq::empty()
    } else if s.last().line_number > 0 {
        content_of(s.drop_last()).push((s.last().line_number, s.last().content@))
    } else {
        content_of(s.drop_last())
    }
}

/// The content lines are numbered 1, 2, 3, … in order.
pub open spec fn sequential(c: Seq<(usize, Seq<char>)>) -> bool {
    forall|i: int| 0 <= i < c.len() ==> #[trigger] c[i].0 == i + 1
}

/// `r` holds the lines of `s`: the content texts, their numbers unless
/// sequential, and the metadata texts.
pub open spec fn file_lines_of(s: Seq<ContextLine>, r: FileLines) -> bool {
    let c = content_of(s);
    &&& r.lines@.len() == c.len()
    &&& forall|i: int| 0 <= i < c.len() ==> (#[trigger] r.lines@[i])@ == c[i].1
    &&& if sequential(c) {
        r.line_offsets@.len() == 0
    } else {
        &&& r.line_offsets@.len() == c.len()
        &&& forall|i: int| 0 <= i < c.len() ==> #[trigger] r.line_offsets@[i] == c[i].0
    }
    &&& r.metadata@.len() == metadata_of(s).len()
    &&& forall|i: int| 0 <= i < metadata_of(s).len() ==> (#[trigger] r.metadata@[i])@ == metadata_of(s)[i]
}

/// Splits a file's lines into its answer (see `file_lines_of`).
pub fn split_file_lines(all: Vec<ContextLine>) -> (r: FileLines)
    ensures
        file_lines_of(all@, r),
{
    let ghost s = all@;
    let mut lines: Vec<String> = Vec::new();
    let mut numbers: Vec<usize> = Vec::new();
    let mut metadata: Vec<String> = Vec::new();
    let mut seq_so_far = true;
    let mut i: usize = 0;
    while i < all.len()
        invariant
            s == all@,
            i <= s.len(),
            lines@.len() == content_of(s.subrange(0, i as int)).len(),
            numbers@.len() == lines@.len(),
            forall|k: int| 0 <= k < lines@.len() ==> (#[trigger] lines@[k])@ == content_of(s.subrange(0, i as int))[k].1,
            forall|k: int| 0 <= k < numbers@.len() ==> #[trigger] numbers@[k] == content_of(s.subrange(0, i as int))[k].0,
            seq_so_far == sequential(content_of(s.subrange(0, i as int))),
            metadata@.len() == metadata_of(s.subrange(0, i as int)).len(),
            forall|k: int| 0 <= k < metadata@.len() ==> (#[trigger] metadata@[k])@ == metadata_of(s.subrange(0, i as int))[k],
        decreases s.len() - i,
    {
        let ghost before = s.subrange(0, i as int);
        let ghost after = s.subrange(0, i + 1);
        assert(after.drop_last() =~= before);
        assert(after.last() == s[i as int]);
        let l = &all[i];
        if l.line_number == 0 {
            metadata.push(snippet_of(l.content.as_str()));
            assert(content_of(after) == content_of(before));
        } else {
            let n = lines.len();
            if l.line_number - 1 != n {
                seq_so_far = false;
            }
            lines.push(l.content.clone());
            numbers.push(l.line_number);
            assert(metadata_of(after) == metadata_of(before));
            proof {
                let c0 = content_of(before);
                let c1 = content_of(after);
                assert(c1 == c0.push((l.line_number, l.content@)));
                if sequential(c0) && l.line_number == n + 1 {
                    assert forall|k: int| 0 <= k < c1.len() implies #[trigger] c1[k].0 == k + 1 by {
                        if k < c0.len() { assert(c1[k] == c0[k]); }
                    }
                }
                if !sequential(c0) {
                    let k = choose|k: int| 0 <= k < c0.len() && c0[k].0 != k + 1;
                    assert(c1[k] == c0[k]);
                }
                if l.line_number != n + 1 {
                    assert(c1[n as int].0 != n + 1);
                }
            }
        }
        i = i + 1;
    }
    assert(s.subrange(0, s.len() as int) =~= s);
    let line_offsets = if seq_so_far { Vec::new() } else { numbers };
    FileLines { lines, line_offsets, metadata }
}

/// A file's kind, modification time and size from the first row of
/// `SELECT kind, mtime, size`: none when there is no row or a cell does not
/// read (the modification time is none unless an integer).
pub open spec fn file_meta_reading(rows: Seq<Seq<SqlCell>>) -> Option<(Seq<char>, Option<i64>, Option<i64>)> {
    if rows.len() == 0 {
        None
    } else {
        match (text_of(cell_at(rows[0], 0)), opt_int_of(cell_at(rows[0], 2))) {
            (Some(k), Some(z)) => Some((k, int_of(cell_at(rows[0], 1)), z)),
            _ => None,
        }
    }
}

/// The kind, modification time and size of the file at `path`; `text`
/// with neither time nor size when its row cannot be read.
pub fn file_meta(conn: &rusqlite::Connection, path: &str) -> (r: (String, Option<i64>, Option<i64>))
    ensures
        (r.0@ == "text"@ && r.1 is None && r.2 is None)
            || exists|rows: Seq<Seq<SqlCell>>| #[trigger] file_meta_reading(rows) == Some((r.0@, r.1, r.2))
                && crate::db::answered("SELECT kind, mtime, size FROM files WHERE path = ?1"@, crate::db::text1(path@), rows),
{
    let fallback = ("text".to_owned(), None, None);
    proof { reveal_strlit("text"); }
    let params = text_param(path.to_owned());
    let rows = match query(conn, "SELECT kind, mtime, size FROM files WHERE path = ?1", &params) {
        Ok(rows) => rows,
        Err(_) => { return fallback; },
    };
    assert(crate::search::param_views(params@) =~= crate::db::text1(path@));
    assert(crate::db::answered("SELECT kind, mtime, size FROM files WHERE path = ?1"@, crate::db::text1(path@), row_views(rows@)));
    if rows.len() == 0 {
        return fallback;
    }
    assert(row_views(rows@)[0] == rows@[0]@);
    let kind = match get_text(&rows[0], 0) { Ok(k) => k, Err(_) => { return fallback; } };
    let mtime = match get_int(&rows[0], 1) { Ok(t) => Some(t), Err(_) => None };
    let size = match get_opt_int(&rows[0], 2) { Ok(z) => z, Err(_) => { return fallback; } };
    assert(file_meta_reading(row_views(rows@)) == Some((kind@, mtime, size)));
    (kind, mtime, size)
}

/// The indexing error shown for `path`: its own, else (for an archive
/// member) that of its outer archive, where reading it does not fail.
pub fn file_indexing_error(conn: &rusqlite::Connection, path: &str) -> (r: Result<Option<String>, DbError>)
    ensures
        r matches Ok(Some(e)) ==> exists|rows: Seq<Seq<SqlCell>>, p: Seq<char>| optional_text(rows) == Some(Some(e@))
            && #[trigger] crate::db::answered("SELECT error FROM indexing_errors WHERE path = ?1"@, crate::db::text1(p), rows)
            && (p == path@ || p == split_composite_spec(path@).0),
        split_composite_spec(path@).1 is None ==> (r matches Ok(v) ==> exists|rows: Seq<Seq<SqlCell>>|
            #[trigger] optional_text(rows) == Some(opt_view(v))
            && crate::db::answered("SELECT error FROM indexing_errors WHERE path = ?1"@, crate::db::text1(path@), rows)),
{
    let own = match get_indexing_error(conn, path) {
        Ok(v) => v,
        Err(e) => { return Err(e); },
    };
    match own {
        Some(e) => Ok(Some(e)),
        None => {
            let (outer, member) = split_composite_path(path);
            match member {
                None => Ok(None),
                Some(_) => match get_indexing_error(conn, outer.as_str()) {
                    Ok(v) => Ok(v),
                    Err(_) => Ok(None),
                },
            }
        },
    }
}


/// The kind the file at `path` was indexed as; none when it is not indexed.
pub fn indexed_kind(conn: &rusqlite::Connection, path: &str) -> (r: Result<Option<String>, DbError>)
    ensures
        r matches Ok(v) ==> exists|rows: Seq<Seq<SqlCell>>| #[trigger] optional_text(rows) == Some(opt_view(v))
            && crate::db::answered("SELECT kind FROM files WHERE path = ?1 LIMIT 1"@, crate::db::text1(path@), rows),
{
    let params = text_param(path.to_owned());
    let rows = match query(conn, "SELECT kind FROM files WHERE path = ?1 LIMIT 1", &params) {
        Ok(rows) => rows,
        Err(e) => { return Err(e); },
    };
    assert(crate::search::param_views(params@) =~= crate::db::text1(path@));
    assert(crate::db::answered("SELECT kind FROM files WHERE path = ?1 LIMIT 1"@, crate::db::text1(path@), row_views(rows@)));
    match crate::db::read_optional_text(&rows) {
        Ok(v) => {
            assert(optional_text(row_views(rows@)) == Some(opt_view(v)));
            Ok(v)
        },
        Err(e) => Err(e),
    }
}

} // verus!
