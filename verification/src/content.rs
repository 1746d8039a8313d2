//! Reading file content back: which content blob holds a file's lines (a
//! file's `file_hash`), which line ranges to ask the content store for,
//! and how the lines that come back answer each request. The content store
//! itself is reached by the caller, which hands the lines it returned to
//! the functions here.
use vstd::prelude::*;
use crate::db::{
    query, int_param, row_views, cell_at, text_of, int_of, opt_int_of, opt_text_of, get_text, get_int,
    get_opt_int, get_opt_text, SqlCell, DbError,
};
use crate::search::{ParamBinder, SqlValue};
use crate::text::push_str;

verus! {

// ── Content hashes ───────────────────────────────────────────────────────────

/// The hash read from a lookup's rows: the text of the first row's first
/// cell; none when there is no row or it holds no text.
pub open spec fn hash_reading(rows: Seq<Seq<SqlCell>>) -> Option<Seq<char>> {
    if rows.len() == 0 { None } else { text_of(cell_at(rows[0], 0)) }
}

/// The lookup of a file's content hash, only among files that have one
/// when `non_null_only`.
pub open spec fn hash_sql(non_null_only: bool) -> Seq<char> {
    if non_null_only {
        "SELECT file_hash FROM files WHERE id = ?1 AND file_hash IS NOT NULL"@
    } else {
        "SELECT file_hash FROM files WHERE id = ?1"@
    }
}

/// The content hash of file `file_id`, none when the file is unknown, has
/// no hash, or the lookup fails. With `non_null_only` the query itself
/// skips files without a hash.
pub fn file_hash_of(conn: &rusqlite::Connection, file_id: i64, non_null_only: bool) -> (r: Option<String>)
    ensures
        r matches Some(h) ==> exists|rows: Seq<Seq<SqlCell>>| #[trigger] hash_reading(rows) == Some(h@)
            && crate::db::answered(hash_sql(non_null_only), crate::db::int1(file_id), rows),
{
    let sql = if non_null_only {
        "SELECT file_hash FROM files WHERE id = ?1 AND file_hash IS NOT NULL"
    } else {
        "SELECT file_hash FROM files WHERE id = ?1"
    };
    let params = int_param(file_id);
    let rows = match query(conn, sql, &params) {
        Ok(rows) => rows,
        Err(_) => { return None; },
    };
    assert(crate::search::param_views(params@) =~= crate::db::int1(file_id));
    assert(sql@ == hash_sql(non_null_only));
    assert(crate::db::answered(hash_sql(non_null_only), crate::db::int1(file_id), row_views(rows@)));
    if rows.len() == 0 {
        return None;
    }
    assert(row_views(rows@)[0] == rows@[0]@);
    match get_text(&rows[0], 0) {
        Ok(h) => {
            assert(hash_reading(row_views(rows@)) == Some(h@));
            Some(h)
        },
        Err(_) => None,
    }
}

/// The content of the first line at position `pos`, if any.
pub open spec fn line_at_spec(lines: Seq<(usize, String)>, pos: usize) -> Option<Seq<char>>
    decreases lines.len(),
{
    if lines.len() == 0 {
        None
    } else if lines[0].0 == pos {
        Some(lines[0].1@)
    } else {
        line_at_spec(lines.drop_first(), pos)
    }
}

/// The content of the first line at position `pos` among lines the content
/// store returned.
pub fn line_at(lines: &Vec<(usize, String)>, pos: usize) -> (r: Option<String>)
    ensures
        match r {
            Some(c) => line_at_spec(lines@, pos) == Some(c@),
            None => line_at_spec(lines@, pos) is None,
        },
{
    let mut i: usize = 0;
    assert(lines@.subrange(0, lines@.len() as int) =~= lines@);
    while i < lines.len()
        invariant
            i <= lines@.len(),
            line_at_spec(lines@, pos) == line_at_spec(lines@.subrange(i as int, lines@.len() as int), pos),
        decreases lines@.len() - i,
    {
        let ghost rest = lines@.subrange(i as int, lines@.len() as int);
        assert(rest[0] == lines@[i as int]);
        if lines[i].0 == pos {
            return Some(lines[i].1.clone());
        }
        assert(rest.drop_first() =~= lines@.subrange(i + 1, lines@.len() as int));
        i = i + 1;
    }
    None
}

/// The contents of lines joined by newlines.
pub open spec fn joined_contents(lines: Seq<(usize, String)>) -> Seq<char>
    decreases lines.len(),
{
    if lines.len() == 0 {
        Seq::empty()
    } else if lines.len() == 1 {
        lines[0].1@
    } else {
        joined_contents(lines.drop_last()) + seq!['\n'] + lines.last().1@
    }
}

/// A whole document from the lines the content store returned: their
/// contents joined by newlines.
pub fn join_contents(lines: &Vec<(usize, String)>) -> (r: String)
    ensures
        r@ == joined_contents(lines@),
{
    let mut s = String::new();
    let mut i: usize = 0;
    while i < lines.len()
        invariant
            i <= lines@.len(),
            s@ == joined_contents(lines@.subrange(0, i as int)),
        decreases lines@.len() - i,
    {
        let ghost pre = lines@.subrange(0, i as int);
        let ghost cur = lines@.subrange(0, i + 1);
        assert(cur.drop_last() =~= pre);
        assert(cur.last() == lines@[i as int]);
        if i > 0 {
            crate::text::push_char(&mut s, '\n');
        } else {
            assert(cur.len() == 1);
            assert(cur[0] == lines@[0]);
        }
        push_str(&mut s, lines[i].1.as_str());
        i = i + 1;
    }
    assert(lines@.subrange(0, lines@.len() as int) =~= lines@);
    s
}

// ── Batches of lines ─────────────────────────────────────────────────────────

/// The hash listed for `id` (the last listing wins), if any.
pub open spec fn hash_for(hashes: Seq<(i64, String)>, id: i64) -> Option<Seq<char>>
    decreases hashes.len(),
{
    if hashes.len() == 0 {
        None
    } else if hashes.last().0 == id {
        Some(hashes.last().1@)
    } else {
        hash_for(hashes.drop_last(), id)
    }
}

/// The hash of `id` among `(id, hash)` listings, the last listing winning.
pub fn lookup_hash(hashes: &Vec<(i64, String)>, id: i64) -> (r: Option<String>)
    ensures
        match r {
            Some(h) => hash_for(hashes@, id) == Some(h@),
            None => hash_for(hashes@, id) is None,
        },
{
    let mut i = hashes.len();
    assert(hashes@.subrange(0, hashes@.len() as int) =~= hashes@);
    while i > 0
        invariant
            i <= hashes@.len(),
            hash_for(hashes@, id) == hash_for(hashes@.subrange(0, i as int), id),
        decreases i,
    {
        let ghost pre = hashes@.subrange(0, i as int);
        assert(pre.drop_last() =~= hashes@.subrange(0, i - 1));
        assert(pre.last() == hashes@[i - 1]);
        if hashes[i - 1].0 == id {
            return Some(hashes[i - 1].1.clone());
        }
        i = i - 1;
    }
    None
}

/// The `(id, hash)` listing read from a row, when it reads.
pub open spec fn id_hash_of(row: Seq<SqlCell>) -> Option<(i64, Seq<char>)> {
    match (int_of(cell_at(row, 0)), text_of(cell_at(row, 1))) {
        (Some(i), Some(h)) => Some((i, h)),
        _ => None,
    }
}

/// A listing `(id, hash)` that some result row reads as.
pub open spec fn is_hash_listing(x: (i64, String)) -> bool {
    exists|row: Seq<SqlCell>| #[trigger] id_hash_of(row) == Some((x.0, x.1@))
}

/// The query of the content hashes of `n` files.
pub open spec fn hashes_sql(n: nat) -> Seq<char> {
    "SELECT id, file_hash FROM files WHERE id IN ("@ + crate::db_search::placeholder_list(0, n) + ") AND file_hash IS NOT NULL"@
}

/// Each listing of `r` is read from some row of `cells`.
pub open spec fn listings_from(cells: Seq<Seq<SqlCell>>, r: Seq<(i64, String)>) -> bool {
    forall|k: int| 0 <= k < r.len() ==> exists|j: int| 0 <= j < cells.len()
        && #[trigger] id_hash_of(cells[j]) == Some(((#[trigger] r[k]).0, r[k].1@))
}

/// The content hashes of the files `ids` (those that have one), as
/// `(id, hash)` listings read from the database's answer to the hash query
/// of the ids; rows that do not read are skipped, and a failed query gives
/// none.
pub fn file_hashes(conn: &rusqlite::Connection, ids: &Vec<i64>) -> (r: Vec<(i64, String)>)
    ensures
        ids@.len() == 0 ==> r@.len() == 0,
        forall|k: int| 0 <= k < r@.len() ==> is_hash_listing(#[trigger] r@[k]),
        r@.len() > 0 ==> exists|cells: Seq<Seq<SqlCell>>|
            #[trigger] crate::db::answered(hashes_sql(ids@.len()), crate::db_search::id_views(ids@), cells) && listings_from(cells, r@),
{
    let mut out: Vec<(i64, String)> = Vec::new();
    if ids.len() == 0 {
        return out;
    }
    let mut p = ParamBinder::new();
    let phs = crate::db_search::id_placeholders(&mut p, ids);
    let mut sql = String::new();
    push_str(&mut sql, "SELECT id, file_hash FROM files WHERE id IN (");
    push_str(&mut sql, phs.as_str());
    push_str(&mut sql, ") AND file_hash IS NOT NULL");
    let rows = match query(conn, sql.as_str(), p.as_refs()) {
        Ok(rows) => rows,
        Err(_) => { return out; },
    };
    proof {
        assert(crate::search::param_views(p.params@) =~= crate::db_search::id_views(ids@));
        assert(sql@ =~= hashes_sql(ids@.len()));
    }
    let ghost cells = row_views(rows@);
    let mut k: usize = 0;
    while k < rows.len()
        invariant
            k <= rows@.len(),
            cells == row_views(rows@),
            forall|j: int| 0 <= j < out@.len() ==> is_hash_listing(#[trigger] out@[j]),
            listings_from(cells, out@),
        decreases rows@.len() - k,
    {
        let row = &rows[k];
        match (get_int(row, 0), get_text(row, 1)) {
            (Ok(id), Ok(h)) => {
                assert(id_hash_of(row@) == Some((id, h@)));
                let ghost before = out@;
                out.push((id, h));
                assert forall|j: int| 0 <= j < out@.len() implies is_hash_listing(#[trigger] out@[j]) by {
                    if j < before.len() {
                        assert(out@[j] == before[j]);
                    } else {
                        assert(id_hash_of(rows@[k as int]@) == Some((out@[j].0, out@[j].1@)));
                    }
                }
                assert forall|q: int| 0 <= q < out@.len() implies exists|j: int| 0 <= j < cells.len()
                    && #[trigger] id_hash_of(cells[j]) == Some(((#[trigger] out@[q]).0, out@[q].1@)) by {
                    if q < before.len() {
                        assert(out@[q] == before[q]);
                    } else {
                        assert(cells[k as int] == rows@[k as int]@);
                        assert(id_hash_of(cells[k as int]) == Some((out@[q].0, out@[q].1@)));
                    }
                }
            },
            _ => {},
        }
        k = k + 1;
    }
    proof {
        if out@.len() > 0 {
            assert(crate::db::answered(hashes_sql(ids@.len()), crate::db_search::id_views(ids@), cells));
        }
    }
    out
}

/// The line positions wanted for `hash`: those of the pairs whose file
/// has that hash, each line number taken `as usize`.
pub open spec fn wanted(pairs: Seq<(i64, i64)>, hashes: Seq<(i64, String)>, hash: Seq<char>, pos: usize) -> bool {
    exists|j: int| 0 <= j < pairs.len() && hash_for(hashes, (#[trigger] pairs[j]).0) == Some(hash) && pairs[j].1 as usize == pos
}

/// For each hash that some pair's file has, once: the range of line
/// positions to ask the content store for, from the lowest to the highest
/// wanted position.
pub fn hash_ranges(pairs: &Vec<(i64, i64)>, hashes: &Vec<(i64, String)>) -> (r: Vec<(String, usize, usize)>)
    ensures
        forall|a: int, b: int| 0 <= a < b < r@.len() ==> (#[trigger] r@[a]).0@ != (#[trigger] r@[b]).0@,
        forall|k: int| 0 <= k < r@.len() ==> {
            let (h, lo, hi) = #[trigger] r@[k];
            &&& wanted(pairs@, hashes@, h@, lo)
            &&& wanted(pairs@, hashes@, h@, hi)
            &&& forall|pos: usize| wanted(pairs@, hashes@, h@, pos) ==> lo <= pos <= hi
        },
        forall|j: int| 0 <= j < pairs@.len() && (#[trigger] hash_for(hashes@, pairs@[j].0)) is Some ==>
            exists|k: int| 0 <= k < r@.len() && Some((#[trigger] r@[k]).0@) == hash_for(hashes@, pairs@[j].0),
{
    let mut out: Vec<(String, usize, usize)> = Vec::new();
    let mut i: usize = 0;
    while i < pairs.len()
        invariant
            i <= pairs@.len(),
            forall|a: int, b: int| 0 <= a < b < out@.len() ==> (#[trigger] out@[a]).0@ != (#[trigger] out@[b]).0@,
            forall|k: int| 0 <= k < out@.len() ==> {
                let (h, lo, hi) = #[trigger] out@[k];
                &&& wanted(pairs@.subrange(0, i as int), hashes@, h@, lo)
                &&& wanted(pairs@.subrange(0, i as int), hashes@, h@, hi)
                &&& forall|pos: usize| wanted(pairs@.subrange(0, i as int), hashes@, h@, pos) ==> lo <= pos <= hi
            },
            forall|j: int| 0 <= j < i && (#[trigger] hash_for(hashes@, pairs@[j].0)) is Some ==>
                exists|k: int| 0 <= k < out@.len() && Some((#[trigger] out@[k]).0@) == hash_for(hashes@, pairs@[j].0),
        decreases pairs@.len() - i,
    {
        let (id, ln) = pairs[i];
        let pos = ln as usize;
        let ghost pre = pairs@.subrange(0, i as int);
        let ghost cur = pairs@.subrange(0, i + 1);
        proof {
            assert forall|h: Seq<char>, q: usize| wanted(pre, hashes@, h, q) implies wanted(cur, hashes@, h, q) by {
                let j = choose|j: int| 0 <= j < pre.len() && hash_for(hashes@, (#[trigger] pre[j]).0) == Some(h) && pre[j].1 as usize == q;
                assert(cur[j] == pre[j]);
            }
            assert forall|h: Seq<char>, q: usize| wanted(cur, hashes@, h, q) implies
                wanted(pre, hashes@, h, q) || (hash_for(hashes@, id) == Some(h) && q == pos) by {
                let j = choose|j: int| 0 <= j < cur.len() && hash_for(hashes@, (#[trigger] cur[j]).0) == Some(h) && cur[j].1 as usize == q;
                if j < i {
                    assert(pre[j] == cur[j]);
                } else {
                    assert(cur[j] == pairs@[i as int]);
                }
            }
        }
        match lookup_hash(hashes, id) {
            None => {
                proof {
                    assert forall|k: int| 0 <= k < out@.len() implies ({
                        let (h2, lo, hi) = #[trigger] out@[k];
                        &&& wanted(cur, hashes@, h2@, lo)
                        &&& wanted(cur, hashes@, h2@, hi)
                        &&& forall|q: usize| wanted(cur, hashes@, h2@, q) ==> lo <= q <= hi
                    }) by {}
                    assert forall|j: int| 0 <= j < i + 1 && (#[trigger] hash_for(hashes@, pairs@[j].0)) is Some implies
                        exists|k: int| 0 <= k < out@.len() && Some((#[trigger] out@[k]).0@) == hash_for(hashes@, pairs@[j].0) by {
                        if j == i { assert(pairs@[j].0 == id); }
                    }
                }
            },
            Some(h) => {
                proof {
                    assert(cur[i as int] == pairs@[i as int]);
                    assert(wanted(cur, hashes@, h@, pos));
                }
                let mut found: Option<usize> = None;
                let mut k: usize = 0;
                while k < out.len()
                    invariant_except_break
                        found is None,
                    invariant
                        k <= out@.len(),
                        forall|m: int| 0 <= m < k ==> out@[m].0@ != h@,
                    ensures
                        found matches Some(f) ==> f < out@.len() && out@[f as int].0@ == h@,
                        found is None ==> forall|m: int| 0 <= m < out@.len() ==> out@[m].0@ != h@,
                    decreases out@.len() - k,
                {
                    if crate::paths::str_eq(out[k].0.as_str(), h.as_str()) {
                        found = Some(k);
                        break;
                    }
                    k = k + 1;
                }
                let ghost before = out@;
                match found {
                    Some(f) => {
                        let (lo, hi) = (out[f].1, out[f].2);
                        let nlo = if pos < lo { pos } else { lo };
                        let nhi = if pos > hi { pos } else { hi };
                        let name = out[f].0.clone();
                        out.set(f, (name, nlo, nhi));
                        proof {
                            assert forall|a: int, b: int| 0 <= a < b < out@.len() implies (#[trigger] out@[a]).0@ != (#[trigger] out@[b]).0@ by {
                                assert(out@[a].0@ == before[a].0@ && out@[b].0@ == before[b].0@);
                            }
                            assert forall|m: int| 0 <= m < out@.len() implies ({
                                let (h2, lo2, hi2) = #[trigger] out@[m];
                                &&& wanted(cur, hashes@, h2@, lo2)
                                &&& wanted(cur, hashes@, h2@, hi2)
                                &&& forall|q: usize| wanted(cur, hashes@, h2@, q) ==> lo2 <= q <= hi2
                            }) by {
                                if m == f {
                                    assert(out@[m].0@ == h@);
                                    assert(wanted(pre, hashes@, h@, lo));
                                    assert(wanted(pre, hashes@, h@, hi));
                                } else {
                                    assert(out@[m] == before[m]);
                                    assert(before[m].0@ != h@);
                                }
                            }
                            assert forall|j: int| 0 <= j < i + 1 && (#[trigger] hash_for(hashes@, pairs@[j].0)) is Some implies
                                exists|k: int| 0 <= k < out@.len() && Some((#[trigger] out@[k]).0@) == hash_for(hashes@, pairs@[j].0) by {
                                if j == i {
                                    assert(pairs@[j].0 == id);
                                    assert(Some(out@[f as int].0@) == hash_for(hashes@, pairs@[j].0));
                                } else {
                                    let k = choose|k: int| 0 <= k < before.len() && Some((#[trigger] before[k]).0@) == hash_for(hashes@, pairs@[j].0);
                                    assert(out@[k].0@ == before[k].0@);
                                }
                            }
                        }
                    },
                    None => {
                        out.push((h, pos, pos));
                        proof {
                            assert forall|a: int, b: int| 0 <= a < b < out@.len() implies (#[trigger] out@[a]).0@ != (#[trigger] out@[b]).0@ by {
                                if b < before.len() {
                                    assert(out@[a] == before[a] && out@[b] == before[b]);
                                } else {
                                    assert(out@[a] == before[a]);
                                }
                            }
                            assert forall|q: usize| wanted(pre, hashes@, h@, q) implies false by {
                                let j = choose|j: int| 0 <= j < pre.len() && hash_for(hashes@, (#[trigger] pre[j]).0) == Some(h@) && pre[j].1 as usize == q;
                                assert(pre[j] == pairs@[j]);
                                assert(hash_for(hashes@, pairs@[j].0) is Some);
                                let k = choose|k: int| 0 <= k < before.len() && Some((#[trigger] before[k]).0@) == hash_for(hashes@, pairs@[j].0);
                            }
                            assert forall|m: int| 0 <= m < out@.len() implies ({
                                let (h2, lo2, hi2) = #[trigger] out@[m];
                                &&& wanted(cur, hashes@, h2@, lo2)
                                &&& wanted(cur, hashes@, h2@, hi2)
                                &&& forall|q: usize| wanted(cur, hashes@, h2@, q) ==> lo2 <= q <= hi2
                            }) by {
                                if m < before.len() {
                                    assert(out@[m] == before[m]);
                                    assert(before[m].0@ != h@);
                                } else {
                                    assert(out@[m].0@ == h@);
                                }
                            }
                            assert forall|j: int| 0 <= j < i + 1 && (#[trigger] hash_for(hashes@, pairs@[j].0)) is Some implies
                                exists|k: int| 0 <= k < out@.len() && Some((#[trigger] out@[k]).0@) == hash_for(hashes@, pairs@[j].0) by {
                                if j == i {
                                    assert(pairs@[j].0 == id);
                                    assert(Some(out@[before.len() as int].0@) == hash_for(hashes@, pairs@[j].0));
                                } else {
                                    let k = choose|k: int| 0 <= k < before.len() && Some((#[trigger] before[k]).0@) == hash_for(hashes@, pairs@[j].0);
                                    assert(out@[k] == before[k]);
                                }
                            }
                        }
                    },
                }
            },
        }
        i = i + 1;
    }
    assert(pairs@.subrange(0, pairs@.len() as int) =~= pairs@);
    out
}

/// The lines the content store returned for `hash`, if it returned any.
pub open spec fn fetched_for(fetched: Seq<(String, Vec<(usize, String)>)>, hash: Seq<char>) -> Option<Seq<(usize, String)>>
    decreases fetched.len(),
{
    if fetched.len() == 0 {
        None
    } else if fetched.last().0@ == hash {
        Some(fetched.last().1@)
    } else {
        fetched_for(fetched.drop_last(), hash)
    }
}

/// The content that answers the pair `(file id, line)`: the line of that
/// position among the lines fetched for the file's hash, when it is not
/// empty.
pub open spec fn answer(hashes: Seq<(i64, String)>, fetched: Seq<(String, Vec<(usize, String)>)>, pair: (i64, i64)) -> Option<Seq<char>> {
    match hash_for(hashes, pair.0) {
        Some(h) => match fetched_for(fetched, h) {
            Some(lines) => match line_at_spec(lines, pair.1 as usize) {
                Some(c) => if c.len() > 0 { Some(c) } else { None },
                None => None,
            },
            None => None,
        },
        None => None,
    }
}

/// The lines fetched for `hash` (the last fetch winning), if any.
fn lookup_fetched<'a>(fetched: &'a Vec<(String, Vec<(usize, String)>)>, hash: &str) -> (r: Option<&'a Vec<(usize, String)>>)
    ensures
        match r {
            Some(v) => fetched_for(fetched@, hash@) == Some(v@),
            None => fetched_for(fetched@, hash@) is None,
        },
{
    let mut i = fetched.len();
    assert(fetched@.subrange(0, fetched@.len() as int) =~= fetched@);
    while i > 0
        invariant
            i <= fetched@.len(),
            fetched_for(fetched@, hash@) == fetched_for(fetched@.subrange(0, i as int), hash@),
        decreases i,
    {
        let ghost pre = fetched@.subrange(0, i as int);
        assert(pre.drop_last() =~= fetched@.subrange(0, i - 1));
        assert(pre.last() == fetched@[i - 1]);
        if crate::paths::str_eq(fetched[i - 1].0.as_str(), hash) {
            return Some(&fetched[i - 1].1);
        }
        i = i - 1;
    }
    None
}

/// The answers of a batch of `(file id, line)` pairs from the hashes of
/// the files and the lines fetched per hash: each pair that has an answer
/// (see `answer`), once, in the order pairs first occur, with its content.
pub fn resolve_pairs(pairs: &Vec<(i64, i64)>, hashes: &Vec<(i64, String)>, fetched: &Vec<(String, Vec<(usize, String)>)>) -> (r: Vec<((i64, i64), String)>)
    ensures
        forall|a: int, b: int| 0 <= a < b < r@.len() ==> (#[trigger] r@[a]).0 != (#[trigger] r@[b]).0,
        forall|k: int| 0 <= k < r@.len() ==> answer(hashes@, fetched@, (#[trigger] r@[k]).0) == Some(r@[k].1@),
        forall|j: int| 0 <= j < pairs@.len() && (#[trigger] answer(hashes@, fetched@, pairs@[j])) is Some ==>
            exists|k: int| 0 <= k < r@.len() && (#[trigger] r@[k]).0 == pairs@[j],
        forall|k: int| 0 <= k < r@.len() ==> pairs@.contains((#[trigger] r@[k]).0),
{
    let mut out: Vec<((i64, i64), String)> = Vec::new();
    let mut i: usize = 0;
    while i < pairs.len()
        invariant
            i <= pairs@.len(),
            forall|a: int, b: int| 0 <= a < b < out@.len() ==> (#[trigger] out@[a]).0 != (#[trigger] out@[b]).0,
            forall|k: int| 0 <= k < out@.len() ==> answer(hashes@, fetched@, (#[trigger] out@[k]).0) == Some(out@[k].1@),
            forall|j: int| 0 <= j < i && (#[trigger] answer(hashes@, fetched@, pairs@[j])) is Some ==>
                exists|k: int| 0 <= k < out@.len() && (#[trigger] out@[k]).0 == pairs@[j],
            forall|k: int| 0 <= k < out@.len() ==> pairs@.contains((#[trigger] out@[k]).0),
        decreases pairs@.len() - i,
    {
        let pair = pairs[i];
        let mut content: Option<String> = None;
        match lookup_hash(hashes, pair.0) {
            Some(h) => match lookup_fetched(fetched, h.as_str()) {
                Some(lines) => match line_at(lines, pair.1 as usize) {
                    Some(c) => if crate::text::to_chars(c.as_str()).len() > 0 { content = Some(c); },
                    None => {},
                },
                None => {},
            },
            None => {},
        }
        assert(match content { Some(c) => answer(hashes@, fetched@, pair) == Some(c@), None => answer(hashes@, fetched@, pair) is None });
        match content {
            Some(c) => {
                let mut seen = false;
                let mut k: usize = 0;
                while k < out.len()
                    invariant
                        k <= out@.len(),
                        seen == (exists|m: int| 0 <= m < k && #[trigger] out@[m].0 == pair),
                    decreases out@.len() - k,
                {
                    if out[k].0.0 == pair.0 && out[k].0.1 == pair.1 {
                        seen = true;
                    }
                    k = k + 1;
                }
                if !seen {
                    let ghost before = out@;
                    out.push((pair, c));
                    proof {
                        assert(pairs@[i as int] == pair);
                        assert forall|a: int, b: int| 0 <= a < b < out@.len() implies (#[trigger] out@[a]).0 != (#[trigger] out@[b]).0 by {
                            if b < before.len() {
                                assert(out@[a] == before[a] && out@[b] == before[b]);
                            } else {
                                assert(out@[a] == before[a]);
                            }
                        }
                        assert forall|j: int| 0 <= j < i + 1 && (#[trigger] answer(hashes@, fetched@, pairs@[j])) is Some implies
                            exists|k: int| 0 <= k < out@.len() && (#[trigger] out@[k]).0 == pairs@[j] by {
                            if j < i {
                                let k = choose|k: int| 0 <= k < before.len() && (#[trigger] before[k]).0 == pairs@[j];
                                assert(out@[k] == before[k]);
                            } else {
                                assert(out@[before.len() as int].0 == pairs@[j]);
                            }
                        }
                        assert forall|k: int| 0 <= k < out@.len() implies pairs@.contains((#[trigger] out@[k]).0) by {
                            if k < before.len() {
                                assert(out@[k] == before[k]);
                            } else {
                                assert(pairs@[i as int] == out@[k].0);
                            }
                        }
                    }
                } else {
                    proof {
                        assert forall|j: int| 0 <= j < i + 1 && (#[trigger] answer(hashes@, fetched@, pairs@[j])) is Some implies
                            exists|k: int| 0 <= k < out@.len() && (#[trigger] out@[k]).0 == pairs@[j] by {
                            if j == i {
                                let m = choose|m: int| 0 <= m < out@.len() && #[trigger] out@[m].0 == pair;
                                assert(out@[m].0 == pairs@[j]);
                            }
                        }
                    }
                }
            },
            None => {},
        }
        i = i + 1;
    }
    out
}

// ── Lines of one file ────────────────────────────────────────────────────────

/// A file's line count and content hash read from its row: both none when
/// there is no row.
pub open spec fn file_info_reading(rows: Seq<Seq<SqlCell>>) -> Option<(Option<i64>, Option<Seq<char>>)> {
    if rows.len() == 0 {
        Some((None, None))
    } else {
        match (opt_int_of(cell_at(rows[0], 0)), opt_text_of(cell_at(rows[0], 1))) {
            (Some(c), Some(h)) => Some((c, h)),
            _ => None,
        }
    }
}

/// The line count and content hash of file `file_id`.
pub fn file_info(conn: &rusqlite::Connection, file_id: i64) -> (r: Result<(Option<i64>, Option<String>), DbError>)
    ensures
        r matches Ok((c, h)) ==> exists|rows: Seq<Seq<SqlCell>>| #[trigger] file_info_reading(rows) == Some((c, crate::index::opt_view(h)))
            && crate::db::answered("SELECT line_count, file_hash FROM files WHERE id = ?1"@, crate::db::int1(file_id), rows),
{
    let params = int_param(file_id);
    let rows = match query(conn, "SELECT line_count, file_hash FROM files WHERE id = ?1", &params) {
        Ok(rows) => rows,
        Err(e) => { return Err(e); },
    };
    assert(crate::search::param_views(params@) =~= crate::db::int1(file_id));
    if rows.len() == 0 {
        assert(file_info_reading(row_views(rows@)) == Some((None::<i64>, None::<Seq<char>>)));
        return Ok((None, None));
    }
    assert(row_views(rows@)[0] == rows@[0]@);
    let c = match get_opt_int(&rows[0], 0) { Ok(x) => x, Err(e) => { return Err(e); } };
    let h = match get_opt_text(&rows[0], 1) { Ok(x) => x, Err(e) => { return Err(e); } };
    assert(file_info_reading(row_views(rows@)) == Some((c, crate::index::opt_view(h))));
    Ok((c, h))
}

/// The kind of the file at `path`; an error when it is not indexed.
pub fn get_file_kind(conn: &rusqlite::Connection, path: &str) -> (r: Result<String, DbError>)
    ensures
        r matches Ok(k) ==> exists|rows: Seq<Seq<SqlCell>>| #[trigger] crate::db::optional_text(rows) == Some(Some(k@))
            && crate::db::answered("SELECT kind FROM files WHERE path = ?1 LIMIT 1"@, crate::db::text1(path@), rows),
{
    let params = crate::db::text_param(path.to_owned());
    let rows = match query(conn, "SELECT kind FROM files WHERE path = ?1 LIMIT 1", &params) {
        Ok(rows) => rows,
        Err(e) => { return Err(e); },
    };
    assert(crate::search::param_views(params@) =~= crate::db::text1(path@));
    assert(crate::db::answered("SELECT kind FROM files WHERE path = ?1 LIMIT 1"@, crate::db::text1(path@), row_views(rows@)));
    match crate::db::read_optional_text(&rows) {
        Ok(Some(k)) => Ok(k),
        Ok(None) => Err(DbError { message: "Query returned no rows".to_owned(), locked: false }),
        Err(e) => Err(e),
    }
}

/// Whether the context of a file of `kind` is its metadata line (images
/// and audio) rather than the lines around a match.
pub fn uses_metadata_context(kind: &str) -> (b: bool)
    ensures
        b == (kind@ == "image"@ || kind@ == "audio"@),
{
    crate::paths::str_eq(kind, "image") || crate::paths::str_eq(kind, "audio")
}

/// The lines around `center`: from `window` lines before it (at least
/// line 0) to `window` lines after it.
pub fn context_window(center: usize, window: usize) -> (r: (usize, usize))
    requires
        center + window <= usize::MAX,
    ensures
        r.0 == (if center >= window { center - window } else { 0 }),
        r.1 == center + window,
{
    let lo = if center >= window { center - window } else { 0 };
    (lo, center + window)
}

/// The content lines to read for one page of a file with `line_count`
/// lines (0 when unknown): from line 2 plus `offset`, at most `limit`
/// lines, not past the last line; all content lines when there is no
/// limit. Also the number of content lines in all.
pub fn page_range(line_count: Option<i64>, offset: usize, limit: Option<usize>) -> (r: (usize, usize, usize))
    requires
        limit matches Some(l) ==> 2 + offset + l <= usize::MAX,
    ensures
        ({
            let n = match line_count { Some(c) => c as usize, None => 0usize };
            &&& r.2 == (if n >= 2 { n - 2 } else { 0 })
            &&& match limit {
                Some(l) => r.0 == 2 + offset && r.1 == (if 2 + offset + l <= n { 2 + offset + l } else { n as int }),
                None => r.0 == 2 && r.1 == n,
            }
        }),
{
    let n: usize = match line_count { Some(c) => c as usize, None => 0 };
    let total = if n >= 2 { n - 2 } else { 0 };
    match limit {
        Some(l) => {
            let start = 2 + offset;
            let end = if start + l <= n { start + l } else { n };
            (start, end, total)
        },
        None => (2, n, total),
    }
}

/// `vals` are the texts in the first cells of `rows`, one per row.
pub open spec fn texts_read(rows: Seq<Seq<SqlCell>>, vals: Seq<String>) -> bool {
    &&& rows.len() == vals.len()
    &&& forall|k: int| 0 <= k < rows.len() ==> text_of(cell_at(#[trigger] rows[k], 0)) == Some(vals[k]@)
}

/// The query of the content hashes without inline content.
pub open spec fn pending_hashes_sql() -> Seq<char> {
    "SELECT DISTINCT f.content_hash FROM files f WHERE f.content_hash IS NOT NULL AND NOT EXISTS (SELECT 1 FROM file_content fc WHERE fc.file_id = f.id)"@
}

/// The content hashes that have no inline content row, each once.
pub fn pending_content_hashes(conn: &rusqlite::Connection) -> (r: Result<Vec<String>, DbError>)
    ensures
        r matches Ok(v) ==> exists|rows: Seq<Seq<SqlCell>>| #[trigger] texts_read(rows, v@)
            && crate::db::answered(pending_hashes_sql(), Seq::empty(), rows),
{
    let none: Vec<crate::search::SqlValue> = Vec::new();
    let rows = match query(
        conn,
        "SELECT DISTINCT f.content_hash FROM files f WHERE f.content_hash IS NOT NULL AND NOT EXISTS (SELECT 1 FROM file_content fc WHERE fc.file_id = f.id)",
        &none,
    ) {
        Ok(rows) => rows,
        Err(e) => { return Err(e); },
    };
    assert(crate::search::param_views(none@) =~= Seq::<crate::search::ParamView>::empty());
    assert(crate::db::answered(pending_hashes_sql(), Seq::empty(), row_views(rows@)));
    let mut out: Vec<String> = Vec::new();
    let mut k: usize = 0;
    while k < rows.len()
        invariant
            k <= rows@.len(),
            out@.len() == k,
            forall|j: int| 0 <= j < k ==> text_of(cell_at(#[trigger] rows@[j]@, 0)) == Some(out@[j]@),
        decreases rows@.len() - k,
    {
        match get_text(&rows[k], 0) {
            Ok(h) => out.push(h),
            Err(e) => { return Err(e); },
        }
        k = k + 1;
    }
    let res: Result<Vec<String>, DbError> = Ok(out);
    assert(texts_read(row_views(rows@), res->Ok_0@));
    res
}

} // verus!
