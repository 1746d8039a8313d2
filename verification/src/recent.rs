//! Recent activity across sources: the source databases found in the data
//! directory, the recent-file entries read from each, and their merge into
//! one newest-first list.
use vstd::prelude::*;
use crate::text::{to_chars, string_from_chars};
use crate::order::{sort_by_name, sorted_by_name};
use crate::wrap::views;
use crate::db::{DbError, SqlCell, ActivityRow, path_times_read, activity_read, recent_files, recent_activity};

verus! {

/// The source named by a database file name: the name without its `.db`
/// ending; none for other files.
pub open spec fn source_of_db_spec(name: Seq<char>) -> Option<Seq<char>> {
    if name.len() >= 3 && name.subrange(name.len() - 3, name.len() as int) == seq!['.', 'd', 'b'] {
        Some(name.subrange(0, name.len() - 3))
    } else {
        None
    }
}

/// The source a database file holds (see `source_of_db_spec`).
pub fn source_of_db_file(name: &str) -> (r: Option<String>)
    ensures
        match r { Some(s) => source_of_db_spec(name@) == Some(s@), None => source_of_db_spec(name@) is None },
{
    let v = to_chars(name);
    let n = v.len();
    if n >= 3 && v[n - 3] == '.' && v[n - 2] == 'd' && v[n - 1] == 'b' {
        assert(v@.subrange(n - 3, n as int) =~= seq!['.', 'd', 'b']);
        Some(string_from_chars(&v, 0, n - 3))
    } else {
        proof {
            if n >= 3 && v@.subrange(n - 3, n as int) == seq!['.', 'd', 'b'] {
                assert(v@.subrange(n - 3, n as int)[0] == v@[n - 3]);
                assert(v@.subrange(n - 3, n as int)[1] == v@[n - 2]);
                assert(v@.subrange(n - 3, n as int)[2] == v@[n - 1]);
            }
        }
        None
    }
}

/// The sources of the database files among `names`, in order.
pub open spec fn db_sources(names: Seq<String>) -> Seq<Seq<char>>
    decreases names.len(),
{
    if names.len() == 0 {
        Seq::empty()
    } else {
        match source_of_db_spec(names.last()@) {
            Some(s) => db_sources(names.drop_last()).push(s),
            None => db_sources(names.drop_last()),
        }
    }
}

/// The sources of a data directory from the names of the files in its
/// sources directory: the names of the `.db` files without that ending,
/// in name order.
pub fn list_sources(file_names: Vec<String>) -> (r: Vec<String>)
    ensures
        sorted_by_name(r@),
        exists|c: Seq<String>| #[trigger] views(c) == db_sources(file_names@)
            && r@.to_multiset() == c.to_multiset(),
{
    let mut found: Vec<String> = Vec::new();
    let mut i: usize = 0;
    while i < file_names.len()
        invariant
            i <= file_names@.len(),
            views(found@) == db_sources(file_names@.subrange(0, i as int)),
        decreases file_names@.len() - i,
    {
        let ghost before = file_names@.subrange(0, i as int);
        let ghost after = file_names@.subrange(0, i + 1);
        assert(after.drop_last() =~= before);
        assert(after.last() == file_names@[i as int]);
        let ghost f0 = found@;
        match source_of_db_file(file_names[i].as_str()) {
            Some(s) => {
                found.push(s);
                assert(views(found@) =~= views(f0).push(found@.last()@));
            },
            None => {},
        }
        i = i + 1;
    }
    assert(file_names@.subrange(0, file_names@.len() as int) =~= file_names@);
    let ghost c = found@;
    let r = sort_by_name(found);
    assert(views(c) == db_sources(file_names@));
    r
}

/// One entry of the recent-activity list.
pub struct RecentFile {
    pub source: String,
    pub path: String,
    /// When it happened (seconds).
    pub indexed_at: i64,
    /// `added`, `modified`, `deleted` or `renamed`, as the activity log
    /// records it.
    pub action: String,
    /// The new path of a rename.
    pub new_path: Option<String>,
}

/// `modified`
pub open spec fn modified_action() -> Seq<char> {
    seq!['m', 'o', 'd', 'i', 'f', 'i', 'e', 'd']
}

/// `out` are the entries of `source` for its `(path, time)` rows, in
/// their order, each recorded as modified.
pub open spec fn mtime_entries(source: Seq<char>, rows: Seq<(String, i64)>, out: Seq<RecentFile>) -> bool {
    &&& out.len() == rows.len()
    &&& forall|k: int| 0 <= k < out.len() ==> {
        &&& (#[trigger] out[k]).source@ == source
        &&& out[k].path == rows[k].0
        &&& out[k].indexed_at == rows[k].1
        &&& out[k].action@ == modified_action()
        &&& out[k].new_path is None
    }
}

/// `out` are the entries of `source` for its activity rows, in their order.
pub open spec fn activity_entries(source: Seq<char>, rows: Seq<ActivityRow>, out: Seq<RecentFile>) -> bool {
    &&& out.len() == rows.len()
    &&& forall|k: int| 0 <= k < out.len() ==> {
        &&& (#[trigger] out[k]).source@ == source
        &&& out[k].action == rows[k].0
        &&& out[k].path == rows[k].1
        &&& out[k].new_path == rows[k].2
        &&& out[k].indexed_at == rows[k].3
    }
}

/// Entries of a source from its most recently modified files, (path,
/// time) rows: each recorded as modified.
pub fn recent_from_mtime_rows(source: &str, rows: Vec<(String, i64)>) -> (r: Vec<RecentFile>)
    ensures
        mtime_entries(source@, rows@, r@),
{
    let ghost orig = rows@;
    let mut rest = rows;
    let mut out: Vec<RecentFile> = Vec::new();
    let n = rest.len();
    let mut i: usize = 0;
    while i < n
        invariant
            n == orig.len(),
            i <= n,
            rest@ == orig.subrange(i as int, n as int),
            out@.len() == i,
            forall|k: int| 0 <= k < i ==> {
                &&& (#[trigger] out@[k]).source@ == source@
                &&& out@[k].path == orig[k].0
                &&& out@[k].indexed_at == orig[k].1
                &&& out@[k].action@ == modified_action()
                &&& out@[k].new_path is None
            },
        decreases n - i,
    {
        let (path, at) = rest.remove(0);
        let action = "modified".to_owned();
        proof { reveal_strlit("modified"); }
        out.push(RecentFile { source: source.to_owned(), path, indexed_at: at, action, new_path: None });
        i = i + 1;
        assert(rest@ =~= orig.subrange(i as int, n as int));
    }
    out
}

/// Entries of a source from its activity log, (action, path, new path,
/// time) rows.
pub fn recent_from_activity_rows(source: &str, rows: Vec<(String, String, Option<String>, i64)>) -> (r: Vec<RecentFile>)
    ensures
        activity_entries(source@, rows@, r@),
{
    let ghost orig = rows@;
    let mut rest = rows;
    let mut out: Vec<RecentFile> = Vec::new();
    let n = rest.len();
    let mut i: usize = 0;
    while i < n
        invariant
            n == orig.len(),
            i <= n,
            rest@ == orig.subrange(i as int, n as int),
            out@.len() == i,
            forall|k: int| 0 <= k < i ==> {
                &&& (#[trigger] out@[k]).source@ == source@
                &&& out@[k].action == orig[k].0
                &&& out@[k].path == orig[k].1
                &&& out@[k].new_path == orig[k].2
                &&& out@[k].indexed_at == orig[k].3
            },
        decreases n - i,
    {
        let (action, path, new_path, at) = rest.remove(0);
        out.push(RecentFile { source: source.to_owned(), path, indexed_at: at, action, new_path });
        i = i + 1;
        assert(rest@ =~= orig.subrange(i as int, n as int));
    }
    out
}

/// The recent entries of one source's database: with `sort_by_mtime`, its
/// `limit` most recently modified outer files, each as modified; else its
/// `limit` latest activity-log entries. Newest first.
pub fn recent_for_source(conn: &rusqlite::Connection, source: &str, limit: usize, sort_by_mtime: bool) -> (r: Result<Vec<RecentFile>, DbError>)
    ensures
        r matches Ok(v) ==> if sort_by_mtime {
            exists|rows: Seq<Seq<SqlCell>>, raw: Seq<(String, i64)>|
                #[trigger] path_times_read(rows, raw) && mtime_entries(source@, raw, v@)
                && crate::db::answered(crate::db::recent_files_sql(true), crate::db::int1(limit as i64), rows)
        } else {
            exists|rows: Seq<Seq<SqlCell>>, raw: Seq<ActivityRow>|
                #[trigger] activity_read(rows, raw) && activity_entries(source@, raw, v@)
                && crate::db::answered(crate::db::recent_activity_sql(), crate::db::int1(limit as i64), rows)
        },
{
    if sort_by_mtime {
        let raw = match recent_files(conn, limit, true) {
            Ok(raw) => raw,
            Err(e) => { return Err(e); },
        };
        let ghost rv = raw@;
        let v = recent_from_mtime_rows(source, raw);
        proof {
            let rows = choose|rows: Seq<Seq<SqlCell>>| path_times_read(rows, rv)
                && crate::db::answered(crate::db::recent_files_sql(true), crate::db::int1(limit as i64), rows);
            assert(path_times_read(rows, rv) && mtime_entries(source@, rv, v@)
                && crate::db::answered(crate::db::recent_files_sql(true), crate::db::int1(limit as i64), rows));
        }
        Ok(v)
    } else {
        let raw = match recent_activity(conn, limit) {
            Ok(raw) => raw,
            Err(e) => { return Err(e); },
        };
        let ghost rv = raw@;
        let v = recent_from_activity_rows(source, raw);
        proof {
            let rows = choose|rows: Seq<Seq<SqlCell>>| activity_read(rows, rv)
                && crate::db::answered(crate::db::recent_activity_sql(), crate::db::int1(limit as i64), rows);
            assert(activity_read(rows, rv) && activity_entries(source@, rv, v@)
                && crate::db::answered(crate::db::recent_activity_sql(), crate::db::int1(limit as i64), rows));
        }
        Ok(v)
    }
}

/// `t` (newest first) with `x` placed before the first entry that is not
/// newer than it.
pub open spec fn insert_by_time(t: Seq<RecentFile>, x: RecentFile) -> Seq<RecentFile>
    decreases t.len(),
{
    if t.len() == 0 {
        seq![x]
    } else if t[0].indexed_at <= x.indexed_at {
        seq![x] + t
    } else {
        seq![t[0]] + insert_by_time(t.drop_first(), x)
    }
}

/// `s` sorted newest first; entries of the same time keep their order.
pub open spec fn newest_first_spec(s: Seq<RecentFile>) -> Seq<RecentFile>
    decreases s.len(),
{
    if s.len() == 0 {
        s
    } else {
        insert_by_time(newest_first_spec(s.drop_first()), s[0])
    }
}

/// Inserting at the first position whose time is at most `x`'s.
proof fn lemma_insert_time_at(t: Seq<RecentFile>, x: RecentFile, j: int)
    requires
        0 <= j <= t.len(),
        forall|m: int| 0 <= m < j ==> (#[trigger] t[m]).indexed_at > x.indexed_at,
        j < t.len() ==> t[j].indexed_at <= x.indexed_at,
    ensures
        insert_by_time(t, x) == t.insert(j, x),
    decreases t.len(),
{
    if t.len() == 0 {
        assert(t.insert(j, x) =~= seq![x]);
    } else if j == 0 {
        assert(t.insert(0, x) =~= seq![x] + t);
    } else {
        let r = t.drop_first();
        assert forall|m: int| 0 <= m < j - 1 implies (#[trigger] r[m]).indexed_at > x.indexed_at by {
            assert(r[m] == t[m + 1]);
        }
        lemma_insert_time_at(r, x, j - 1);
        assert(t.insert(j, x) =~= seq![t[0]] + r.insert(j - 1, x));
    }
}

/// The merged recent list: every source's entries, newest first (stable),
/// at most `limit` of them.
pub fn newest_first(all: Vec<RecentFile>, limit: usize) -> (r: Vec<RecentFile>)
    ensures
        r@ == newest_first_spec(all@).subrange(0, if limit < all@.len() { limit as int } else { all@.len() as int }),
{
    let ghost orig = all@;
    let mut rest = all;
    let mut sorted: Vec<RecentFile> = Vec::new();
    while rest.len() > 0
        invariant
            rest@ == orig.subrange(0, rest@.len() as int),
            rest@.len() <= orig.len(),
            sorted@ == newest_first_spec(orig.subrange(rest@.len() as int, orig.len() as int)),
            sorted@.len() == orig.len() - rest@.len(),
        decreases rest@.len(),
    {
        let ghost n = rest@.len() as int;
        let x = rest.pop().unwrap();
        let mut j: usize = 0;
        while j < sorted.len() && sorted[j].indexed_at > x.indexed_at
            invariant
                j <= sorted@.len(),
                forall|m: int| 0 <= m < j ==> (#[trigger] sorted@[m]).indexed_at > x.indexed_at,
            decreases sorted@.len() - j,
        {
            j = j + 1;
        }
        proof {
            lemma_insert_time_at(sorted@, x, j as int);
            let tail = orig.subrange(n - 1, orig.len() as int);
            assert(tail.drop_first() =~= orig.subrange(n, orig.len() as int));
            assert(tail[0] == x);
        }
        sorted.insert(j, x);
        assert(rest@ =~= orig.subrange(0, rest@.len() as int));
    }
    assert(orig.subrange(0, orig.len() as int) =~= orig);
    sorted.truncate(limit);
    sorted
}

} // verus!
