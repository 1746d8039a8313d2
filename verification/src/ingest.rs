//! The decisions of the indexing worker: how a request's files are stored
//! (inline text or archive chunks), when an upsert is stale, what replaces a
//! file that failed to index, what the activity log records, which upserts
//! of a batch of requests survive, and which line references a batch of
//! appended chunks updates.
use vstd::prelude::*;
use crate::text::{push_str, push_char, to_chars};
use crate::paths::{composite_sep, contains_seq, str_contains, is_outer_archive};
use crate::index::{IndexFile, IndexLine, LineView, line_views, sort_by_number, join_contents, filename_only_file, outer_archive_stub, sort_lines_by_number, join_line_contents, archive_kind, unknown_kind};
use crate::archive::{utf8_len, LineMapping, ChunkRef};
use crate::wrap::views;

verus! {

// ── Activity log ─────────────────────────────────────────────────────────────

/// How an indexed file is logged: `Some(true)` added, `Some(false)`
/// modified, `None` not logged (archive placeholders with time 0 and
/// archive members).
pub open spec fn activity_kind_spec(path: Seq<char>, mtime: i64, is_new: bool) -> Option<bool> {
    if mtime != 0 && !contains_seq(path, composite_sep()) { Some(is_new) } else { None }
}

/// How an indexed file is logged (see `activity_kind_spec`).
pub fn activity_kind(path: &str, mtime: i64, is_new: bool) -> (r: Option<bool>)
    ensures
        r == activity_kind_spec(path@, mtime, is_new),
{
    if mtime != 0 && !str_contains(path, "::") {
        proof { reveal_strlit("::"); assert("::"@ =~= composite_sep()); }
        Some(is_new)
    } else {
        proof { reveal_strlit("::"); assert("::"@ =~= composite_sep()); }
        None
    }
}

/// The paths of `s` that are not archive members, in order.
pub open spec fn outer_paths(s: Seq<Seq<char>>) -> Seq<Seq<char>>
    decreases s.len(),
{
    if s.len() == 0 {
        s
    } else if contains_seq(s.last(), composite_sep()) {
        outer_paths(s.drop_last())
    } else {
        outer_paths(s.drop_last()).push(s.last())
    }
}

/// The deleted paths the activity log records: those that are not archive
/// members.
pub fn logged_deletes(paths: &Vec<String>) -> (r: Vec<String>)
    ensures
        views(r@) == outer_paths(views(paths@)),
{
    let ghost pv = views(paths@);
    let mut out: Vec<String> = Vec::new();
    let mut i: usize = 0;
    assert(views(out@) =~= Seq::<Seq<char>>::empty());
    while i < paths.len()
        invariant
            i <= paths@.len(),
            pv == views(paths@),
            views(out@) == outer_paths(pv.subrange(0, i as int)),
        decreases paths@.len() - i,
    {
        assert(pv.subrange(0, i + 1).drop_last() =~= pv.subrange(0, i as int));
        assert(pv.subrange(0, i + 1).last() == paths@[i as int]@);
        let p = paths[i].as_str();
        proof { reveal_strlit("::"); assert("::"@ =~= composite_sep()); }
        if !str_contains(p, "::") {
            let ghost old_out = out@;
            out.push(p.to_owned());
            assert(views(out@) =~= views(old_out).push(p@));
        }
        i = i + 1;
    }
    assert(pv.subrange(0, paths@.len() as int) =~= pv);
    out
}

/// The renames of `s` where neither path is an archive member, in order.
pub open spec fn outer_renames(s: Seq<(Seq<char>, Seq<char>)>) -> Seq<(Seq<char>, Seq<char>)>
    decreases s.len(),
{
    if s.len() == 0 {
        s
    } else if contains_seq(s.last().0, composite_sep()) || contains_seq(s.last().1, composite_sep()) {
        outer_renames(s.drop_last())
    } else {
        outer_renames(s.drop_last()).push(s.last())
    }
}

/// The views of (old, new) path pairs.
pub open spec fn rename_views(v: Seq<(String, String)>) -> Seq<(Seq<char>, Seq<char>)> {
    v.map_values(|p: (String, String)| (p.0@, p.1@))
}

/// The renames the activity log records: those where neither path is an
/// archive member.
pub fn logged_renames(renames: &Vec<(String, String)>) -> (r: Vec<(String, String)>)
    ensures
        rename_views(r@) == outer_renames(rename_views(renames@)),
{
    let ghost rv = rename_views(renames@);
    let mut out: Vec<(String, String)> = Vec::new();
    let mut i: usize = 0;
    assert(rename_views(out@) =~= Seq::<(Seq<char>, Seq<char>)>::empty());
    while i < renames.len()
        invariant
            i <= renames@.len(),
            rv == rename_views(renames@),
            rename_views(out@) == outer_renames(rv.subrange(0, i as int)),
        decreases renames@.len() - i,
    {
        assert(rv.subrange(0, i + 1).drop_last() =~= rv.subrange(0, i as int));
        assert(rv.subrange(0, i + 1).last() == (renames@[i as int].0@, renames@[i as int].1@));
        let a = renames[i].0.as_str();
        let b = renames[i].1.as_str();
        proof { reveal_strlit("::"); assert("::"@ =~= composite_sep()); }
        if !str_contains(a, "::") && !str_contains(b, "::") {
            let ghost old_out = out@;
            out.push((a.to_owned(), b.to_owned()));
            assert(rename_views(out@) =~= rename_views(old_out).push((a@, b@)));
        }
        i = i + 1;
    }
    assert(rv.subrange(0, renames@.len() as int) =~= rv);
    out
}

// ── Storing one file ─────────────────────────────────────────────────────────

/// What replaces a file that failed to index, and whether the stale
/// members of an archive are left alone: a top-level archive becomes its
/// placeholder (members kept), anything else is indexed by name only.
pub fn fallback_for(file: &IndexFile) -> (r: (IndexFile, bool))
    ensures
        r.1 == (file.kind@ == archive_kind() && !contains_seq(file.path@, composite_sep())),
        r.0.path@ == file.path@,
        r.0.mtime == (if r.1 { 0 } else { file.mtime }),
        r.0.size == file.size,
        r.0.kind@ == (if r.1 || file.kind@ == archive_kind() {
            if r.1 { archive_kind() } else { unknown_kind() }
        } else {
            file.kind@
        }),
        r.0.lines@.len() == 1,
        r.0.lines@[0].line_number == 0,
        r.0.lines@[0].content@ == file.path@,
        r.0.lines@[0].archive_path is None,
        r.0.content_hash is None,
        r.0.extract_ms is None,
{
    if is_outer_archive(file.path.as_str(), file.kind.as_str()) {
        (outer_archive_stub(file), true)
    } else {
        (filename_only_file(file), false)
    }
}

/// Whether re-indexing `path` first removes the members stored under it:
/// a top-level archive placeholder (time 0), unless the caller keeps them.
pub fn needs_inner_delete(skip_inner_delete: bool, path: &str, kind: &str, mtime: i64) -> (b: bool)
    ensures
        b == (!skip_inner_delete && kind@ == archive_kind() && !contains_seq(path@, composite_sep()) && mtime == 0),
{
    !skip_inner_delete && is_outer_archive(path, kind) && mtime == 0
}

/// The `LIKE` pattern of the members of an archive: `<path>::%`.
pub fn members_pattern(path: &str) -> (r: String)
    ensures
        r@ == path@ + seq![':', ':', '%'],
{
    let mut s = path.to_owned();
    push_char(&mut s, ':');
    push_char(&mut s, ':');
    push_char(&mut s, '%');
    assert(s@ =~= path@ + seq![':', ':', '%']);
    s
}

/// Whether an upsert is older than what is stored and is skipped: the
/// incoming time is known (above 0) and below the stored one.
pub fn is_stale_upsert(incoming_mtime: i64, stored_mtime: Option<i64>) -> (b: bool)
    ensures
        b == match stored_mtime { Some(s) => incoming_mtime > 0 && incoming_mtime < s, None => false },
{
    match stored_mtime {
        Some(s) => incoming_mtime > 0 && incoming_mtime < s,
        None => false,
    }
}

/// The total UTF-8 size of the contents of `lines`.
pub open spec fn content_bytes(lines: Seq<IndexLine>) -> int
    decreases lines.len(),
{
    if lines.len() == 0 { 0 } else { content_bytes(lines.drop_last()) + utf8_len(lines.last().content@) }
}

/// Whether a file's text is stored inline in the database rather than in
/// archive chunks: inline storage is on (threshold above 0) and the
/// contents total at most the threshold.
pub fn use_inline_storage(lines: &Vec<IndexLine>, threshold: u64) -> (b: bool)
    ensures
        b == (threshold > 0 && content_bytes(lines@) <= threshold),
{
    if threshold == 0 {
        return false;
    }
    let mut total: u64 = 0;
    let mut i: usize = 0;
    while i < lines.len()
        invariant
            i <= lines@.len(),
            total == content_bytes(lines@.subrange(0, i as int)),
            total <= threshold,
        decreases lines@.len() - i,
    {
        assert(lines@.subrange(0, i + 1).drop_last() =~= lines@.subrange(0, i as int));
        let n = lines[i].content.as_str().as_bytes().len();
        if n as u64 > threshold - total {
            proof { lemma_content_bytes_grows(lines@, i as int + 1); }
            return false;
        }
        total = total + n as u64;
        i = i + 1;
    }
    assert(lines@.subrange(0, lines@.len() as int) =~= lines@);
    true
}

/// The content size of a prefix bounds that of any shorter prefix.
proof fn lemma_content_bytes_grows(lines: Seq<IndexLine>, k: int)
    requires
        0 <= k <= lines.len(),
    ensures
        content_bytes(lines) >= content_bytes(lines.subrange(0, k)),
    decreases lines.len() - k,
{
    if k < lines.len() {
        lemma_content_bytes_grows(lines, k + 1);
        assert(lines.subrange(0, k + 1).drop_last() =~= lines.subrange(0, k));
    } else {
        assert(lines.subrange(0, k) =~= lines);
    }
}

/// How a file's lines are stored inline: the contents in line-number
/// order joined with newlines, and for each line (in that order) its
/// number and its position in the text.
pub fn inline_layout(lines: &Vec<IndexLine>) -> (r: (String, Vec<(usize, usize)>))
    ensures
        r.0@ == join_contents(sort_by_number(line_views(lines@))),
        r.1@.len() == sort_by_number(line_views(lines@)).len(),
        forall|k: int| 0 <= k < r.1@.len() ==> (#[trigger] r.1@[k]).0 == sort_by_number(line_views(lines@))[k].1
            && r.1@[k].1 == k,
{
    let sorted = sort_lines_by_number(lines);
    let text = join_line_contents(&sorted);
    let mut rows: Vec<(usize, usize)> = Vec::new();
    let mut k: usize = 0;
    while k < sorted.len()
        invariant
            k <= sorted@.len(),
            rows@.len() == k,
            forall|m: int| 0 <= m < k ==> (#[trigger] rows@[m]).0 == sorted@[m].line_number && rows@[m].1 == m,
        decreases sorted@.len() - k,
    {
        rows.push((sorted[k].line_number, k));
        k = k + 1;
    }
    proof {
        assert forall|m: int| 0 <= m < rows@.len() implies (#[trigger] rows@[m]).0 == sort_by_number(line_views(lines@))[m].1 by {
            assert(line_views(sorted@)[m] == sorted@[m].view_line());
        }
    }
    (text, rows)
}

// ── Coalescing a batch of requests ───────────────────────────────────────────

/// The surviving upserts after reading requests in order: each request's
/// deletes first (remembered for the rest of the batch, and dropping any
/// earlier upsert of the path), then its files, which replace earlier
/// upserts of the same path unless the path was deleted in the batch.
/// Upserts map a path to (request, file) positions.
pub open spec fn coalesce_spec(reqs: Seq<(Seq<Seq<char>>, Seq<Seq<char>>)>, n: int) -> (Set<Seq<char>>, Map<Seq<char>, (int, int)>)
    decreases n,
{
    if n <= 0 {
        (Set::empty(), Map::empty())
    } else {
        let (deleted, ups) = coalesce_spec(reqs, n - 1);
        let r = n - 1;
        let dels = reqs[r].0;
        let deleted2 = deleted.union(dels.to_set());
        let ups2 = ups.remove_keys(dels.to_set());
        (deleted2, files_upserts(reqs[r].1, r, deleted2, ups2, reqs[r].1.len() as int))
    }
}

/// The upserts after the first `m` files of request `r`.
pub open spec fn files_upserts(files: Seq<Seq<char>>, r: int, deleted: Set<Seq<char>>, ups: Map<Seq<char>, (int, int)>, m: int) -> Map<Seq<char>, (int, int)>
    decreases m,
{
    if m <= 0 {
        ups
    } else {
        let prev = files_upserts(files, r, deleted, ups, m - 1);
        if deleted.contains(files[m - 1]) { prev } else { prev.insert(files[m - 1], (r, m - 1)) }
    }
}

/// The views of a batch of requests: (deleted paths, file paths).
pub open spec fn request_views(v: Seq<(Vec<String>, Vec<String>)>) -> Seq<(Seq<Seq<char>>, Seq<Seq<char>>)> {
    v.map_values(|q: (Vec<String>, Vec<String>)| (views(q.0@), views(q.1@)))
}

/// The position in `keys` of `p`, if any.
fn key_position(keys: &Vec<String>, p: &str) -> (r: Option<usize>)
    ensures
        match r {
            Some(i) => i < keys@.len() && keys@[i as int]@ == p@,
            None => forall|i: int| 0 <= i < keys@.len() ==> keys@[i]@ != p@,
        },
{
    let mut i: usize = 0;
    while i < keys.len()
        invariant
            i <= keys@.len(),
            forall|m: int| 0 <= m < i ==> keys@[m]@ != p@,
        decreases keys@.len() - i,
    {
        if crate::paths::str_eq(keys[i].as_str(), p) {
            return Some(i);
        }
        i = i + 1;
    }
    None
}

/// `keys` (distinct) and `vals` list exactly the entries of `ups`.
pub open spec fn assoc_ok(keys: Seq<String>, vals: Seq<(usize, usize)>, ups: Map<Seq<char>, (int, int)>) -> bool {
    &&& keys.len() == vals.len()
    &&& forall|i: int| 0 <= i < keys.len() ==> #[trigger] ups.dom().contains(keys[i]@) && ups[keys[i]@] == (vals[i].0 as int, vals[i].1 as int)
    &&& forall|p: Seq<char>| #[trigger] ups.dom().contains(p) ==> exists|i: int| 0 <= i < keys.len() && keys[i]@ == p
    &&& forall|i: int, j: int| 0 <= i < j < keys.len() ==> (#[trigger] keys[i])@ != (#[trigger] keys[j])@
}

/// Removing an entry from the lists removes its key from the map.
proof fn lemma_assoc_remove(keys: Seq<String>, vals: Seq<(usize, usize)>, ups: Map<Seq<char>, (int, int)>, i: int)
    requires
        assoc_ok(keys, vals, ups),
        0 <= i < keys.len(),
    ensures
        assoc_ok(keys.remove(i), vals.remove(i), ups.remove(keys[i]@)),
{
    let k2 = keys.remove(i);
    let v2 = vals.remove(i);
    let u2 = ups.remove(keys[i]@);
    assert forall|m: int| 0 <= m < k2.len() implies #[trigger] u2.dom().contains(k2[m]@) && u2[k2[m]@] == (v2[m].0 as int, v2[m].1 as int) by {
        if m < i {
            assert(k2[m] == keys[m] && v2[m] == vals[m]);
            assert(keys[m]@ != keys[i]@);
            assert(ups.dom().contains(keys[m]@));
        } else {
            assert(k2[m] == keys[m + 1] && v2[m] == vals[m + 1]);
            assert(keys[i]@ != keys[m + 1]@);
            assert(ups.dom().contains(keys[m + 1]@));
        }
    }
    assert forall|p: Seq<char>| #[trigger] u2.dom().contains(p) implies exists|m: int| 0 <= m < k2.len() && k2[m]@ == p by {
        let j = choose|j: int| 0 <= j < keys.len() && keys[j]@ == p;
        if j < i {
            assert(k2[j] == keys[j]);
        } else {
            assert(j != i);
            assert(k2[j - 1] == keys[j]);
        }
    }
    assert forall|a: int, b: int| 0 <= a < b < k2.len() implies (#[trigger] k2[a])@ != (#[trigger] k2[b])@ by {
        let a2 = if a < i { a } else { a + 1 };
        let b2 = if b < i { b } else { b + 1 };
        assert(k2[a] == keys[a2] && k2[b] == keys[b2]);
    }
}

/// A key absent from the lists is absent from the map.
proof fn lemma_assoc_absent(keys: Seq<String>, vals: Seq<(usize, usize)>, ups: Map<Seq<char>, (int, int)>, p: Seq<char>)
    requires
        assoc_ok(keys, vals, ups),
        forall|i: int| 0 <= i < keys.len() ==> keys[i]@ != p,
    ensures
        !ups.dom().contains(p),
        ups.remove(p) == ups,
{
    if ups.dom().contains(p) {
        let j = choose|j: int| 0 <= j < keys.len() && keys[j]@ == p;
        assert(keys[j]@ != p);
    }
    assert(ups.remove(p) =~= ups);
}

/// Replacing the value of a listed key replaces it in the map.
proof fn lemma_assoc_set(keys: Seq<String>, vals: Seq<(usize, usize)>, ups: Map<Seq<char>, (int, int)>, i: int, v: (usize, usize))
    requires
        assoc_ok(keys, vals, ups),
        0 <= i < keys.len(),
    ensures
        assoc_ok(keys, vals.update(i, v), ups.insert(keys[i]@, (v.0 as int, v.1 as int))),
{
    let v2 = vals.update(i, v);
    let u2 = ups.insert(keys[i]@, (v.0 as int, v.1 as int));
    assert forall|m: int| 0 <= m < keys.len() implies #[trigger] u2.dom().contains(keys[m]@) && u2[keys[m]@] == (v2[m].0 as int, v2[m].1 as int) by {
        if m != i {
            if m < i { assert(keys[m]@ != keys[i]@); } else { assert(keys[i]@ != keys[m]@); }
            assert(ups.dom().contains(keys[m]@));
        }
    }
    assert forall|p: Seq<char>| #[trigger] u2.dom().contains(p) implies exists|m: int| 0 <= m < keys.len() && keys[m]@ == p by {
        if p != keys[i]@ {
            assert(ups.dom().contains(p));
        }
    }
}

/// Adding an entry with a new key adds it to the map.
proof fn lemma_assoc_push(keys: Seq<String>, vals: Seq<(usize, usize)>, ups: Map<Seq<char>, (int, int)>, k: String, v: (usize, usize))
    requires
        assoc_ok(keys, vals, ups),
        forall|i: int| 0 <= i < keys.len() ==> keys[i]@ != k@,
    ensures
        assoc_ok(keys.push(k), vals.push(v), ups.insert(k@, (v.0 as int, v.1 as int))),
{
    let k2 = keys.push(k);
    let v2 = vals.push(v);
    let u2 = ups.insert(k@, (v.0 as int, v.1 as int));
    assert forall|m: int| 0 <= m < k2.len() implies #[trigger] u2.dom().contains(k2[m]@) && u2[k2[m]@] == (v2[m].0 as int, v2[m].1 as int) by {
        if m < keys.len() {
            assert(k2[m] == keys[m] && v2[m] == vals[m]);
            assert(keys[m]@ != k@);
        }
    }
    assert forall|p: Seq<char>| #[trigger] u2.dom().contains(p) implies exists|m: int| 0 <= m < k2.len() && k2[m]@ == p by {
        if p == k@ {
            assert(k2[keys.len() as int] == k);
        } else {
            let j = choose|j: int| 0 <= j < keys.len() && keys[j]@ == p;
            assert(k2[j] == keys[j]);
        }
    }
    assert forall|a: int, b: int| 0 <= a < b < k2.len() implies (#[trigger] k2[a])@ != (#[trigger] k2[b])@ by {
        if b == keys.len() {
            assert(k2[a] == keys[a]);
        } else {
            assert(k2[a] == keys[a] && k2[b] == keys[b]);
        }
    }
}

/// Every listed value names a file of a request read so far whose path
/// is the entry's key.
pub open spec fn vals_ok(reqs: Seq<(Vec<String>, Vec<String>)>, keys: Seq<String>, vals: Seq<(usize, usize)>, q: int) -> bool {
    forall|i: int| 0 <= i < vals.len() ==> {
        &&& (#[trigger] vals[i]).0 < q
        &&& vals[i].0 < reqs.len()
        &&& vals[i].1 < reqs[vals[i].0 as int].1@.len()
        &&& reqs[vals[i].0 as int].1@[vals[i].1 as int]@ == keys[i]@
    }
}

/// Coalesces the upserts of a batch of requests, each given as (deleted
/// paths, file paths): the surviving upserts as (request, file) positions,
/// one per path (see `coalesce_spec`).
pub fn coalesce_upserts(reqs: &Vec<(Vec<String>, Vec<String>)>) -> (r: Vec<(usize, usize)>)
    ensures
        ({
            let ups = coalesce_spec(request_views(reqs@), reqs@.len() as int).1;
            &&& forall|k: int| 0 <= k < r@.len() ==> {
                let (qi, fi) = #[trigger] r@[k];
                &&& qi < reqs@.len()
                &&& fi < reqs@[qi as int].1@.len()
                &&& ups.dom().contains(reqs@[qi as int].1@[fi as int]@)
                &&& ups[reqs@[qi as int].1@[fi as int]@] == (qi as int, fi as int)
            }
            &&& forall|p: Seq<char>| #[trigger] ups.dom().contains(p) ==> exists|k: int| 0 <= k < r@.len() && (r@[k].0 as int, r@[k].1 as int) == ups[p]
            &&& forall|a: int, b: int| 0 <= a < b < r@.len() ==> #[trigger] r@[a] != #[trigger] r@[b]
        }),
{
    let ghost rv = request_views(reqs@);
    let mut deleted: Vec<String> = Vec::new();
    let mut keys: Vec<String> = Vec::new();
    let mut vals: Vec<(usize, usize)> = Vec::new();
    assert(views(deleted@).to_set() =~= Set::<Seq<char>>::empty());
    assert(assoc_ok(keys@, vals@, Map::<Seq<char>, (int, int)>::empty()));
    let mut q: usize = 0;
    while q < reqs.len()
        invariant
            q <= reqs@.len(),
            rv == request_views(reqs@),
            views(deleted@).to_set() == coalesce_spec(rv, q as int).0,
            assoc_ok(keys@, vals@, coalesce_spec(rv, q as int).1),
            vals_ok(reqs@, keys@, vals@, q as int),
        decreases reqs@.len() - q,
    {
        let dels = &reqs[q].0;
        let files = &reqs[q].1;
        assert(rv[q as int] == (views(dels@), views(files@)));
        let ghost prev = coalesce_spec(rv, q as int);
        let mut m: usize = 0;
        while m < dels.len()
            invariant
                m <= dels@.len(),
                q < reqs@.len(),
                *dels == reqs@[q as int].0,
                views(deleted@).to_set() == prev.0.union(views(dels@).subrange(0, m as int).to_set()),
                assoc_ok(keys@, vals@, prev.1.remove_keys(views(dels@).subrange(0, m as int).to_set())),
                vals_ok(reqs@, keys@, vals@, q as int),
            decreases dels@.len() - m,
        {
            let p = dels[m].as_str();
            let ghost dv = views(dels@);
            let ghost before = prev.1.remove_keys(dv.subrange(0, m as int).to_set());
            assert(dv[m as int] == p@);
            assert(dv.subrange(0, m + 1) =~= dv.subrange(0, m as int).push(p@));
            proof { dv.subrange(0, m as int).lemma_push_to_set_commute(p@); }
            assert(prev.1.remove_keys(dv.subrange(0, m + 1).to_set()) =~= before.remove(p@));
            let ghost old_del = deleted@;
            deleted.push(p.to_owned());
            assert(views(deleted@) =~= views(old_del).push(p@));
            proof { views(old_del).lemma_push_to_set_commute(p@); }
            match key_position(&keys, p) {
                Some(i) => {
                    proof { lemma_assoc_remove(keys@, vals@, before, i as int); }
                    let ghost ok = keys@;
                    let ghost ov = vals@;
                    keys.remove(i);
                    vals.remove(i);
                    proof {
                        assert forall|a: int| 0 <= a < vals@.len() implies {
                            &&& (#[trigger] vals@[a]).0 < q
                            &&& vals@[a].0 < reqs@.len()
                            &&& vals@[a].1 < reqs@[vals@[a].0 as int].1@.len()
                            &&& reqs@[vals@[a].0 as int].1@[vals@[a].1 as int]@ == keys@[a]@
                        } by {
                            let a2 = if a < i { a } else { a + 1 };
                            assert(vals@[a] == ov[a2] && keys@[a] == ok[a2]);
                        }
                    }
                },
                None => {
                    proof { lemma_assoc_absent(keys@, vals@, before, p@); }
                },
            }
            m = m + 1;
        }
        assert(views(dels@).subrange(0, dels@.len() as int) =~= views(dels@));
        let ghost del2 = prev.0.union(views(dels@).to_set());
        let ghost ups2 = prev.1.remove_keys(views(dels@).to_set());
        let mut j: usize = 0;
        while j < files.len()
            invariant
                j <= files@.len(),
                q < reqs@.len(),
                *files == reqs@[q as int].1,
                views(deleted@).to_set() == del2,
                assoc_ok(keys@, vals@, files_upserts(views(files@), q as int, del2, ups2, j as int)),
                vals_ok(reqs@, keys@, vals@, q + 1),
            decreases files@.len() - j,
        {
            let f = files[j].as_str();
            let ghost fv = views(files@);
            let ghost cur = files_upserts(fv, q as int, del2, ups2, j as int);
            assert(fv[j as int] == f@);
            let gone = match key_position(&deleted, f) {
                Some(d) => {
                    assert(views(deleted@)[d as int] == f@);
                    true
                },
                None => {
                    proof {
                        if views(deleted@).contains(f@) {
                            let d = choose|d: int| 0 <= d < views(deleted@).len() && views(deleted@)[d] == f@;
                            assert(deleted@[d]@ == f@);
                        }
                    }
                    false
                },
            };
            assert(gone == del2.contains(f@));
            if !gone {
                match key_position(&keys, f) {
                    Some(i) => {
                        proof { lemma_assoc_set(keys@, vals@, cur, i as int, (q, j)); }
                        let ghost ov = vals@;
                        vals.set(i, (q, j));
                        proof {
                            assert forall|a: int| 0 <= a < vals@.len() implies {
                                &&& (#[trigger] vals@[a]).0 < q + 1
                                &&& vals@[a].0 < reqs@.len()
                                &&& vals@[a].1 < reqs@[vals@[a].0 as int].1@.len()
                                &&& reqs@[vals@[a].0 as int].1@[vals@[a].1 as int]@ == keys@[a]@
                            } by {
                                if a != i { assert(vals@[a] == ov[a]); }
                            }
                        }
                    },
                    None => {
                        let k = f.to_owned();
                        proof { lemma_assoc_push(keys@, vals@, cur, k, (q, j)); }
                        let ghost ok = keys@;
                        let ghost ov = vals@;
                        keys.push(k);
                        vals.push((q, j));
                        proof {
                            assert forall|a: int| 0 <= a < vals@.len() implies {
                                &&& (#[trigger] vals@[a]).0 < q + 1
                                &&& vals@[a].0 < reqs@.len()
                                &&& vals@[a].1 < reqs@[vals@[a].0 as int].1@.len()
                                &&& reqs@[vals@[a].0 as int].1@[vals@[a].1 as int]@ == keys@[a]@
                            } by {
                                if a < ov.len() { assert(vals@[a] == ov[a] && keys@[a] == ok[a]); }
                            }
                        }
                    },
                }
            }
            j = j + 1;
        }
        assert(coalesce_spec(rv, q + 1) == (del2, files_upserts(views(files@), q as int, del2, ups2, files@.len() as int)));
        q = q + 1;
    }
    proof {
        let ups = coalesce_spec(rv, reqs@.len() as int).1;
        assert forall|p: Seq<char>| #[trigger] ups.dom().contains(p) implies exists|k: int| 0 <= k < vals@.len() && (vals@[k].0 as int, vals@[k].1 as int) == ups[p] by {
            let i = choose|i: int| 0 <= i < keys@.len() && keys@[i]@ == p;
            assert(ups.dom().contains(keys@[i]@));
        }
        assert forall|a: int, b: int| 0 <= a < b < vals@.len() implies #[trigger] vals@[a] != #[trigger] vals@[b] by {
            assert(keys@[a]@ != keys@[b]@);
        }
    }
    vals
}

/// After coalescing, no surviving upsert is for a path deleted anywhere
/// in the batch so far.
pub proof fn lemma_coalesce_not_deleted(reqs: Seq<(Seq<Seq<char>>, Seq<Seq<char>>)>, n: int)
    requires
        0 <= n <= reqs.len(),
    ensures
        forall|p: Seq<char>| #[trigger] coalesce_spec(reqs, n).1.dom().contains(p) ==> !coalesce_spec(reqs, n).0.contains(p),
    decreases n,
{
    if n > 0 {
        lemma_coalesce_not_deleted(reqs, n - 1);
        let (deleted, ups) = coalesce_spec(reqs, n - 1);
        let dels = reqs[n - 1].0;
        let deleted2 = deleted.union(dels.to_set());
        let ups2 = ups.remove_keys(dels.to_set());
        lemma_files_upserts_avoid(reqs[n - 1].1, n - 1, deleted2, ups2, reqs[n - 1].1.len() as int);
    }
}

/// Adding files never adds a deleted path, when none was there before.
proof fn lemma_files_upserts_avoid(files: Seq<Seq<char>>, r: int, deleted: Set<Seq<char>>, ups: Map<Seq<char>, (int, int)>, m: int)
    requires
        0 <= m <= files.len(),
        forall|p: Seq<char>| #[trigger] ups.dom().contains(p) && deleted.contains(p) ==> false,
    ensures
        forall|p: Seq<char>| #[trigger] files_upserts(files, r, deleted, ups, m).dom().contains(p) ==> !deleted.contains(p),
    decreases m,
{
    if m > 0 {
        lemma_files_upserts_avoid(files, r, deleted, ups, m - 1);
        let prev = files_upserts(files, r, deleted, ups, m - 1);
        let cur = files_upserts(files, r, deleted, ups, m);
        assert forall|p: Seq<char>| #[trigger] cur.dom().contains(p) implies !deleted.contains(p) by {
            if p != files[m - 1] || deleted.contains(files[m - 1]) {
                assert(prev.dom().contains(p));
            }
        }
    } else {
        assert forall|p: Seq<char>| #[trigger] files_upserts(files, r, deleted, ups, m).dom().contains(p) implies !deleted.contains(p) by {
            assert(ups.dom().contains(p));
        }
    }
}

/// After coalescing, each surviving upsert of a path is its last file in
/// the batch: no later request, and no later file of the same request,
/// has that path.
pub proof fn lemma_coalesce_last_writer(reqs: Seq<(Seq<Seq<char>>, Seq<Seq<char>>)>, n: int)
    requires
        0 <= n <= reqs.len(),
    ensures
        forall|p: Seq<char>| #[trigger] coalesce_spec(reqs, n).1.dom().contains(p) ==> {
            let (r, j) = coalesce_spec(reqs, n).1[p];
            &&& 0 <= r < n
            &&& 0 <= j < reqs[r].1.len()
            &&& reqs[r].1[j] == p
            &&& forall|r2: int, j2: int| 0 <= r2 < n && 0 <= j2 < reqs[r2].1.len() && (r2 > r || (r2 == r && j2 > j))
                ==> reqs[r2].1[j2] != p
        },
    decreases n,
{
    if n > 0 {
        lemma_coalesce_last_writer(reqs, n - 1);
        lemma_coalesce_not_deleted(reqs, n - 1);
        let (deleted, ups) = coalesce_spec(reqs, n - 1);
        let dels = reqs[n - 1].0;
        let deleted2 = deleted.union(dels.to_set());
        let ups2 = ups.remove_keys(dels.to_set());
        assert forall|p: Seq<char>| #[trigger] ups2.dom().contains(p) implies {
            let (r1, j1) = ups2[p];
            &&& 0 <= r1 < n - 1
            &&& 0 <= j1 < reqs[r1].1.len()
            &&& reqs[r1].1[j1] == p
            &&& forall|r2: int, j2: int| 0 <= r2 < n - 1 && 0 <= j2 < reqs[r2].1.len() && (r2 > r1 || (r2 == r1 && j2 > j1))
                ==> reqs[r2].1[j2] != p
        } by {
            assert(ups.dom().contains(p));
        }
        lemma_files_last(reqs, n - 1, deleted2, ups2, reqs[n - 1].1.len() as int);
    }
}

/// The last-writer property through the files of request `r`.
proof fn lemma_files_last(reqs: Seq<(Seq<Seq<char>>, Seq<Seq<char>>)>, r: int, deleted: Set<Seq<char>>, ups: Map<Seq<char>, (int, int)>, m: int)
    requires
        0 <= r < reqs.len(),
        0 <= m <= reqs[r].1.len(),
        forall|p: Seq<char>| #[trigger] ups.dom().contains(p) && deleted.contains(p) ==> false,
        forall|p: Seq<char>| #[trigger] ups.dom().contains(p) ==> {
            let (r1, j1) = ups[p];
            &&& 0 <= r1 < r
            &&& 0 <= j1 < reqs[r1].1.len()
            &&& reqs[r1].1[j1] == p
            &&& forall|r2: int, j2: int| 0 <= r2 < r && 0 <= j2 < reqs[r2].1.len() && (r2 > r1 || (r2 == r1 && j2 > j1))
                ==> reqs[r2].1[j2] != p
        },
    ensures
        forall|p: Seq<char>| #[trigger] files_upserts(reqs[r].1, r, deleted, ups, m).dom().contains(p) ==> {
            let (r1, j1) = files_upserts(reqs[r].1, r, deleted, ups, m)[p];
            &&& 0 <= r1 <= r
            &&& 0 <= j1 < reqs[r1].1.len()
            &&& reqs[r1].1[j1] == p
            &&& r1 == r ==> j1 < m
            &&& forall|r2: int, j2: int| 0 <= r2 <= r && 0 <= j2 < reqs[r2].1.len() && (r2 < r || j2 < m) && (r2 > r1 || (r2 == r1 && j2 > j1))
                ==> reqs[r2].1[j2] != p
        },
    decreases m,
{
    if m > 0 {
        lemma_files_last(reqs, r, deleted, ups, m - 1);
        lemma_files_upserts_avoid(reqs[r].1, r, deleted, ups, m - 1);
        let prev = files_upserts(reqs[r].1, r, deleted, ups, m - 1);
        let cur = files_upserts(reqs[r].1, r, deleted, ups, m);
        let f = reqs[r].1[m - 1];
        assert forall|p: Seq<char>| #[trigger] cur.dom().contains(p) implies {
            let (r1, j1) = cur[p];
            &&& 0 <= r1 <= r
            &&& 0 <= j1 < reqs[r1].1.len()
            &&& reqs[r1].1[j1] == p
            &&& r1 == r ==> j1 < m
            &&& forall|r2: int, j2: int| 0 <= r2 <= r && 0 <= j2 < reqs[r2].1.len() && (r2 < r || j2 < m) && (r2 > r1 || (r2 == r1 && j2 > j1))
                ==> reqs[r2].1[j2] != p
        } by {
            if !deleted.contains(f) && p == f {
                assert(cur[p] == (r, m - 1));
            } else {
                assert(prev.dom().contains(p));
                assert(cur[p] == prev[p]);
                let (r1, j1) = prev[p];
                assert forall|r2: int, j2: int| 0 <= r2 <= r && 0 <= j2 < reqs[r2].1.len() && (r2 < r || j2 < m) && (r2 > r1 || (r2 == r1 && j2 > j1))
                    implies reqs[r2].1[j2] != p by {
                    if r2 == r && j2 == m - 1 {
                        if deleted.contains(f) {
                            // A deleted path is never upserted; `p` was upserted, so `p != f`.
                            assert(prev.dom().contains(p));
                        }
                    }
                }
            }
        }
    } else {
        assert forall|p: Seq<char>| #[trigger] files_upserts(reqs[r].1, r, deleted, ups, 0).dom().contains(p) implies {
            let (r1, j1) = ups[p];
            forall|r2: int, j2: int| 0 <= r2 <= r && 0 <= j2 < reqs[r2].1.len() && (r2 < r || j2 < 0) && (r2 > r1 || (r2 == r1 && j2 > j1))
                ==> reqs[r2].1[j2] != p
        } by {
        }
    }
}

// ── Line references of appended chunks ───────────────────────────────────────

/// The line references to record after appending a file's chunks: for
/// each line mapping whose chunk was stored (`chunk_number` below the
/// number of stored chunks, which come in chunk order), the chunk's
/// archive and entry, the line's offset in the chunk and its number.
pub open spec fn line_refs_spec(maps: Seq<LineMapping>, refs: Seq<ChunkRef>, n: int) -> Seq<(Seq<char>, Seq<char>, usize, usize)>
    decreases n,
{
    if n <= 0 {
        Seq::empty()
    } else {
        let prev = line_refs_spec(maps, refs, n - 1);
        let m = maps[n - 1];
        if m.chunk_number < refs.len() {
            prev.push((refs[m.chunk_number as int].archive_name@, refs[m.chunk_number as int].chunk_name@, m.offset_in_chunk, m.line_number))
        } else {
            prev
        }
    }
}

/// The views of line references.
pub open spec fn ref_views(v: Seq<(String, String, usize, usize)>) -> Seq<(Seq<char>, Seq<char>, usize, usize)> {
    v.map_values(|x: (String, String, usize, usize)| (x.0@, x.1@, x.2, x.3))
}

/// The line references to record for one archived file (see
/// `line_refs_spec`): (archive, entry, offset in chunk, line number).
pub fn line_ref_updates(maps: &Vec<LineMapping>, refs: &Vec<ChunkRef>) -> (r: Vec<(String, String, usize, usize)>)
    ensures
        ref_views(r@) == line_refs_spec(maps@, refs@, maps@.len() as int),
{
    let mut out: Vec<(String, String, usize, usize)> = Vec::new();
    let mut i: usize = 0;
    assert(ref_views(out@) =~= Seq::<(Seq<char>, Seq<char>, usize, usize)>::empty());
    while i < maps.len()
        invariant
            i <= maps@.len(),
            ref_views(out@) == line_refs_spec(maps@, refs@, i as int),
        decreases maps@.len() - i,
    {
        let m = &maps[i];
        if m.chunk_number < refs.len() {
            let cr = &refs[m.chunk_number];
            let ghost old_out = out@;
            out.push((cr.archive_name.clone(), cr.chunk_name.clone(), m.offset_in_chunk, m.line_number));
            assert(ref_views(out@) =~= ref_views(old_out).push((cr.archive_name@, cr.chunk_name@, m.offset_in_chunk, m.line_number)));
        }
        i = i + 1;
    }
    out
}

// ── Chunks queued for removal ────────────────────────────────────────────────

/// The views of (archive, entry) pairs.
pub open spec fn pair_views(v: Seq<(String, String)>) -> Seq<(Seq<char>, Seq<char>)> {
    v.map_values(|p: (String, String)| (p.0@, p.1@))
}

/// The chunks to remove, each once: one reference per distinct (archive,
/// entry) pair of the queue, in order of first appearance.
pub fn distinct_chunk_refs(queue: &Vec<(String, String)>) -> (r: Vec<ChunkRef>)
    ensures
        forall|x: (Seq<char>, Seq<char>)| pair_views(queue@).contains(x) <==>
            exists|k: int| 0 <= k < r@.len() && (r@[k].archive_name@, r@[k].chunk_name@) == x,
        forall|a: int, b: int| 0 <= a < b < r@.len() ==>
            (#[trigger] r@[a]).archive_name@ != (#[trigger] r@[b]).archive_name@ || r@[a].chunk_name@ != r@[b].chunk_name@,
{
    let ghost qv = pair_views(queue@);
    let mut out: Vec<ChunkRef> = Vec::new();
    let mut i: usize = 0;
    while i < queue.len()
        invariant
            i <= queue@.len(),
            qv == pair_views(queue@),
            forall|x: (Seq<char>, Seq<char>)| qv.subrange(0, i as int).contains(x) <==>
                exists|k: int| 0 <= k < out@.len() && (out@[k].archive_name@, out@[k].chunk_name@) == x,
            forall|a: int, b: int| 0 <= a < b < out@.len() ==>
                (#[trigger] out@[a]).archive_name@ != (#[trigger] out@[b]).archive_name@ || out@[a].chunk_name@ != out@[b].chunk_name@,
        decreases queue@.len() - i,
    {
        let an = queue[i].0.as_str();
        let cn = queue[i].1.as_str();
        let ghost x = (an@, cn@);
        assert(qv[i as int] == x);
        let mut k: usize = 0;
        while k < out.len() && !(crate::paths::str_eq(out[k].archive_name.as_str(), an) && crate::paths::str_eq(out[k].chunk_name.as_str(), cn))
            invariant
                k <= out@.len(),
                forall|m: int| 0 <= m < k ==> (out@[m].archive_name@, out@[m].chunk_name@) != (an@, cn@),
            decreases out@.len() - k,
        {
            k = k + 1;
        }
        let ghost old_out = out@;
        if k == out.len() {
            out.push(ChunkRef { archive_name: an.to_owned(), chunk_name: cn.to_owned() });
        }
        proof {
            let s0 = qv.subrange(0, i as int);
            let s1 = qv.subrange(0, i + 1);
            assert(s1 =~= s0.push(x));
            assert forall|y: (Seq<char>, Seq<char>)| s1.contains(y) <==>
                exists|m: int| 0 <= m < out@.len() && (out@[m].archive_name@, out@[m].chunk_name@) == y by {
                if s1.contains(y) {
                    let j = choose|j: int| 0 <= j < s1.len() && s1[j] == y;
                    if j < i {
                        assert(s0[j] == y);
                        assert(s0.contains(y));
                        let m = choose|m: int| 0 <= m < old_out.len() && (old_out[m].archive_name@, old_out[m].chunk_name@) == y;
                        assert(out@[m] == old_out[m]);
                    } else if k == old_out.len() {
                        assert(out@[old_out.len() as int].archive_name@ == an@);
                    } else {
                        assert(out@[k as int] == old_out[k as int]);
                    }
                }
                if exists|m: int| 0 <= m < out@.len() && (out@[m].archive_name@, out@[m].chunk_name@) == y {
                    let m = choose|m: int| 0 <= m < out@.len() && (out@[m].archive_name@, out@[m].chunk_name@) == y;
                    if m < old_out.len() {
                        assert(out@[m] == old_out[m]);
                        assert(s0.contains(y));
                        let j = choose|j: int| 0 <= j < s0.len() && s0[j] == y;
                        assert(s1[j] == y);
                    } else {
                        assert(s1[i as int] == y);
                    }
                }
            }
        }
        i = i + 1;
    }
    assert(qv.subrange(0, queue@.len() as int) =~= qv);
    out
}

} // verus!
