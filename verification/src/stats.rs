//! Per-source statistics: totals gathered from the per-kind rows of a
//! source database, and the cached totals kept up to date between full
//! rebuilds by applying the deltas of each indexing batch.
use vstd::prelude::*;
use crate::paths::str_eq;
use crate::db::{DbError, SqlCell, ExtStat, stats_totals, ext_stats_read, single_int, get_stats, get_stats_by_ext, get_fts_row_count};
use crate::order::{Named, sort_by_name, sorted_by_name};

verus! {

/// Files and bytes of one kind.
#[derive(Clone, Copy, Debug)]
pub struct KindCount {
    pub count: usize,
    pub size: i64,
}

/// The cached statistics of one source.
pub struct CachedSourceStats {
    pub name: String,
    pub total_files: usize,
    pub total_size: i64,
    /// One entry per kind.
    pub by_kind: Vec<(String, KindCount)>,
    /// Per extension (filled by full rebuilds).
    pub by_ext: Vec<ExtStat>,
    /// Rows of the full-text index (filled by full rebuilds).
    pub fts_row_count: i64,
}

/// The cached statistics of every source.
pub struct SourceStatsCache {
    pub sources: Vec<CachedSourceStats>,
    /// When the last full rebuild ran.
    pub rebuilt_at: Option<i64>,
}

/// A change to one source's statistics, after an indexing batch.
pub struct SourceStatsDelta {
    pub source: String,
    pub files_delta: i64,
    pub size_delta: i64,
    /// Per kind: (count change, size change); each kind once.
    pub kind_deltas: Vec<(String, (i64, i64))>,
}

/// `x` raised to 0 when negative.
pub open spec fn clamp0(x: int) -> int {
    if x < 0 { 0 } else { x }
}

/// The per-kind statistics as a map from kind to (count, size).
pub open spec fn kind_map(v: Seq<(String, KindCount)>) -> Map<Seq<char>, (int, int)>
    decreases v.len(),
{
    if v.len() == 0 {
        Map::empty()
    } else {
        kind_map(v.drop_last()).insert(v.last().0@, (v.last().1.count as int, v.last().1.size as int))
    }
}

/// No kind occurs twice.
pub open spec fn kinds_distinct(v: Seq<(String, KindCount)>) -> bool {
    forall|i: int, j: int| 0 <= i < j < v.len() ==> (#[trigger] v[i]).0@ != (#[trigger] v[j]).0@
}

/// No kind occurs twice among deltas.
pub open spec fn delta_kinds_distinct(v: Seq<(String, (i64, i64))>) -> bool {
    forall|i: int, j: int| 0 <= i < j < v.len() ==> (#[trigger] v[i]).0@ != (#[trigger] v[j]).0@
}

/// The statistics of a kind after its delta: count and size changed by
/// the delta, each raised to 0 when it would go negative (the count then
/// taken as a `usize`); a kind not seen before starts from zero.
pub open spec fn apply_kind(m: Map<Seq<char>, (int, int)>, k: Seq<char>, d: (i64, i64)) -> Map<Seq<char>, (int, int)> {
    let old = if m.dom().contains(k) { m[k] } else { (0, 0) };
    m.insert(k, ((clamp0(old.0 + d.0) as usize) as int, clamp0(old.1 + d.1)))
}

/// The per-kind statistics after the first `n` kind deltas.
pub open spec fn apply_kinds(m: Map<Seq<char>, (int, int)>, ds: Seq<(String, (i64, i64))>, n: int) -> Map<Seq<char>, (int, int)>
    decreases n,
{
    if n <= 0 {
        m
    } else {
        apply_kind(apply_kinds(m, ds, n - 1), ds[n - 1].0@, ds[n - 1].1)
    }
}

/// The first source named `name`, searching from `k`.
pub open spec fn source_index(v: Seq<CachedSourceStats>, name: Seq<char>, k: int) -> int
    decreases v.len() - k,
{
    if k < 0 || k >= v.len() {
        v.len() as int
    } else if v[k].name@ == name {
        k
    } else {
        source_index(v, name, k + 1)
    }
}

/// The arithmetic of a delta stays within 64-bit signed integers.
pub open spec fn delta_fits(s: CachedSourceStats, d: SourceStatsDelta) -> bool {
    &&& s.total_files <= i64::MAX
    &&& i64::MIN <= s.total_files + d.files_delta <= i64::MAX
    &&& i64::MIN <= s.total_size + d.size_delta <= i64::MAX
    &&& forall|i: int| 0 <= i < d.kind_deltas@.len() ==> {
        let (k, (cd, sd)) = #[trigger] d.kind_deltas@[i];
        let m = kind_map(s.by_kind@);
        let old = if m.dom().contains(k@) { m[k@] } else { (0, 0) };
        &&& old.0 <= i64::MAX
        &&& i64::MIN <= old.0 + cd <= i64::MAX
        &&& i64::MIN <= old.1 + sd <= i64::MAX
    }
}

/// The position of `k` among the kinds, if any.
fn kind_position(v: &Vec<(String, KindCount)>, k: &str) -> (r: Option<usize>)
    ensures
        match r {
            Some(i) => i < v@.len() && v@[i as int].0@ == k@,
            None => forall|i: int| 0 <= i < v@.len() ==> v@[i].0@ != k@,
        },
{
    let mut i: usize = 0;
    while i < v.len()
        invariant
            i <= v@.len(),
            forall|m: int| 0 <= m < i ==> v@[m].0@ != k@,
        decreases v@.len() - i,
    {
        if str_eq(v[i].0.as_str(), k) {
            return Some(i);
        }
        i = i + 1;
    }
    None
}

/// With distinct kinds, the map holds each listed kind with its values.
proof fn lemma_kind_map_at(v: Seq<(String, KindCount)>, i: int)
    requires
        kinds_distinct(v),
        0 <= i < v.len(),
    ensures
        kind_map(v).dom().contains(v[i].0@),
        kind_map(v)[v[i].0@] == (v[i].1.count as int, v[i].1.size as int),
    decreases v.len(),
{
    if i < v.len() - 1 {
        let p = v.drop_last();
        assert(p[i] == v[i]);
        assert forall|a: int, b: int| 0 <= a < b < p.len() implies (#[trigger] p[a]).0@ != (#[trigger] p[b]).0@ by {
            assert(p[a] == v[a] && p[b] == v[b]);
        }
        lemma_kind_map_at(p, i);
        assert(v[i].0@ != v.last().0@);
    }
}

/// A kind absent from the list is absent from the map.
proof fn lemma_kind_map_absent(v: Seq<(String, KindCount)>, k: Seq<char>)
    requires
        forall|i: int| 0 <= i < v.len() ==> v[i].0@ != k,
    ensures
        !kind_map(v).dom().contains(k),
    decreases v.len(),
{
    if v.len() > 0 {
        lemma_kind_map_absent(v.drop_last(), k);
    }
}

/// Updating a listed kind's values updates the map.
proof fn lemma_kind_map_update(v: Seq<(String, KindCount)>, i: int, c: KindCount)
    requires
        kinds_distinct(v),
        0 <= i < v.len(),
    ensures
        kind_map(v.update(i, (v[i].0, c))) == kind_map(v).insert(v[i].0@, (c.count as int, c.size as int)),
    decreases v.len(),
{
    let w = v.update(i, (v[i].0, c));
    if i == v.len() - 1 {
        assert(w.drop_last() =~= v.drop_last());
        if v.len() > 1 {
            let p = v.drop_last();
            assert forall|j: int| 0 <= j < p.len() implies p[j].0@ != v[i].0@ by {
                assert(p[j] == v[j]);
            }
        }
        assert(kind_map(w) =~= kind_map(v).insert(v[i].0@, (c.count as int, c.size as int)));
    } else {
        let p = v.drop_last();
        assert forall|a: int, b: int| 0 <= a < b < p.len() implies (#[trigger] p[a]).0@ != (#[trigger] p[b]).0@ by {
            assert(p[a] == v[a] && p[b] == v[b]);
        }
        assert(p[i] == v[i]);
        lemma_kind_map_update(p, i, c);
        assert(w.drop_last() =~= p.update(i, (p[i].0, c)));
        assert(v[i].0@ != v.last().0@);
        assert(kind_map(w) =~= kind_map(v).insert(v[i].0@, (c.count as int, c.size as int)));
    }
}

/// Sets the statistics of `kind`: replaces them when the kind is listed,
/// else lists it last. Kinds stay distinct.
pub fn set_kind(v: &mut Vec<(String, KindCount)>, kind: String, c: KindCount)
    requires
        kinds_distinct(old(v)@),
    ensures
        kinds_distinct(final(v)@),
        kind_map(final(v)@) == kind_map(old(v)@).insert(kind@, (c.count as int, c.size as int)),
{
    match kind_position(v, kind.as_str()) {
        Some(i) => {
            proof { lemma_kind_map_update(v@, i as int, c); }
            let k = v[i].0.clone();
            assert(k@ == v@[i as int].0@);
            let ghost before = v@;
            v.set(i, (k, c));
            assert(kind_map(v@) == kind_map(before).insert(before[i as int].0@, (c.count as int, c.size as int))) by {
                assert(kind_map(v@) == kind_map(before.update(i as int, (before[i as int].0, c)))) by {
                    assert forall|j: int| 0 <= j < v@.len() implies v@[j].0@ == before.update(i as int, (before[i as int].0, c))[j].0@
                        && v@[j].1 == before.update(i as int, (before[i as int].0, c))[j].1 by {}
                    lemma_kind_map_same_views(v@, before.update(i as int, (before[i as int].0, c)));
                }
            }
            assert forall|a: int, b: int| 0 <= a < b < v@.len() implies (#[trigger] v@[a]).0@ != (#[trigger] v@[b]).0@ by {
                assert(v@[a].0@ == before[a].0@ && v@[b].0@ == before[b].0@);
            }
        },
        None => {
            let ghost before = v@;
            v.push((kind, c));
            assert(v@.drop_last() =~= before);
            assert forall|a: int, b: int| 0 <= a < b < v@.len() implies (#[trigger] v@[a]).0@ != (#[trigger] v@[b]).0@ by {
                if b < before.len() {
                    assert(v@[a] == before[a] && v@[b] == before[b]);
                }
            }
        },
    }
}

/// Lists that agree in the views of their kinds and in their values have
/// the same map.
proof fn lemma_kind_map_same_views(a: Seq<(String, KindCount)>, b: Seq<(String, KindCount)>)
    requires
        a.len() == b.len(),
        forall|j: int| 0 <= j < a.len() ==> a[j].0@ == b[j].0@ && a[j].1 == b[j].1,
    ensures
        kind_map(a) == kind_map(b),
    decreases a.len(),
{
    if a.len() > 0 {
        lemma_kind_map_same_views(a.drop_last(), b.drop_last());
    }
}

impl Named for CachedSourceStats {
    open spec fn name_of(&self) -> Seq<char> {
        self.name@
    }

    fn name(&self) -> (r: &str) {
        self.name.as_str()
    }
}

/// The statistics of one source as its database gives them: each of the
/// totals, the per-extension rows and the full-text row count is what its
/// query read, or empty (zero) where the query failed.
pub open spec fn source_stats_read(s: CachedSourceStats) -> bool {
    &&& kinds_distinct(s.by_kind@)
    &&& ((s.total_files == 0 && s.total_size == 0 && s.by_kind@.len() == 0)
        || exists|cells: Seq<Seq<SqlCell>>, raw: Seq<(String, i64, i64)>| {
            &&& #[trigger] crate::db::answered(crate::db::kind_stats_sql(), Seq::empty(), cells)
            &&& #[trigger] crate::db::kind_stats_read(cells, raw)
            &&& stats_totals(crate::db::kind_stat_views(raw)) == (s.total_files, s.total_size, kind_map(s.by_kind@))
        })
    &&& (s.by_ext@.len() == 0 || exists|rows: Seq<Seq<SqlCell>>| #[trigger] ext_stats_read(rows, s.by_ext@)
        && crate::db::answered(crate::db::ext_stats_sql(), Seq::empty(), rows))
    &&& (s.fts_row_count == 0 || crate::db::single_answer("SELECT COUNT(*) FROM lines_fts"@, Seq::empty(), s.fts_row_count))
}

/// The statistics of the source `name` read from its database (see
/// `source_stats_read`).
pub fn source_stats(conn: &rusqlite::Connection, name: String) -> (r: CachedSourceStats)
    ensures
        r.name == name,
        source_stats_read(r),
{
    let (total_files, total_size, by_kind) = match get_stats(conn) {
        Ok(x) => x,
        Err(_) => (0, 0, Vec::new()),
    };
    let by_ext = match get_stats_by_ext(conn) {
        Ok(v) => v,
        Err(_) => Vec::new(),
    };
    let fts_row_count = match get_fts_row_count(conn) {
        Ok(n) => n,
        Err(_) => 0,
    };
    CachedSourceStats { name, total_files, total_size, by_kind, by_ext, fts_row_count }
}

/// A full rebuild of the cache from the statistics read from each source
/// database: the sources in name order, rebuilt at `now`.
pub fn rebuilt_cache(sources: Vec<CachedSourceStats>, now: i64) -> (r: SourceStatsCache)
    ensures
        sorted_by_name(r.sources@),
        r.sources@.to_multiset() == sources@.to_multiset(),
        r.rebuilt_at == Some(now),
{
    SourceStatsCache { sources: sort_by_name(sources), rebuilt_at: Some(now) }
}

impl SourceStatsCache {
    /// Applies the delta of an indexing batch to the cached statistics of
    /// its source (the first entry with that name): file and byte totals
    /// and each kind's count and size change by the delta, raised to 0
    /// when they would go negative; a kind not cached before starts from
    /// zero. A source not in the cache is left for the next full rebuild.
    pub fn apply_delta(&mut self, delta: &SourceStatsDelta)
        requires
            forall|i: int| 0 <= i < old(self).sources@.len() ==> kinds_distinct((#[trigger] old(self).sources@[i]).by_kind@),
            delta_kinds_distinct(delta.kind_deltas@),
            ({
                let k = source_index(old(self).sources@, delta.source@, 0);
                k < old(self).sources@.len() ==> delta_fits(old(self).sources@[k], *delta)
            }),
        ensures
            final(self).rebuilt_at == old(self).rebuilt_at,
            final(self).sources@.len() == old(self).sources@.len(),
            ({
                let k = source_index(old(self).sources@, delta.source@, 0);
                forall|i: int| 0 <= i < old(self).sources@.len() && i != k ==> #[trigger] final(self).sources@[i] == old(self).sources@[i]
            }),
            ({
                let k = source_index(old(self).sources@, delta.source@, 0);
                k < old(self).sources@.len() ==> {
                    let s = old(self).sources@[k];
                    let t = final(self).sources@[k];
                    &&& t.name == s.name
                    &&& t.fts_row_count == s.fts_row_count
                    &&& t.by_ext == s.by_ext
                    &&& t.total_files == clamp0(s.total_files + delta.files_delta) as usize
                    &&& t.total_size == clamp0(s.total_size + delta.size_delta)
                    &&& kinds_distinct(t.by_kind@)
                    &&& kind_map(t.by_kind@) == apply_kinds(kind_map(s.by_kind@), delta.kind_deltas@, delta.kind_deltas@.len() as int)
                }
            }),
    {
        let ghost k0 = source_index(self.sources@, delta.source@, 0);
        let mut k: usize = 0;
        while k < self.sources.len() && !str_eq(self.sources[k].name.as_str(), delta.source.as_str())
            invariant
                k <= self.sources@.len(),
                source_index(self.sources@, delta.source@, 0) == source_index(self.sources@, delta.source@, k as int),
            decreases self.sources@.len() - k,
        {
            k = k + 1;
        }
        if k == self.sources.len() {
            return;
        }
        assert(k0 == k);
        let ghost s0 = self.sources@[k as int];
        let ghost before = self.sources@;
        let mut s = self.sources.remove(k);
        assert(s == s0);
        assert(kinds_distinct(s.by_kind@));
        let tf = s.total_files as i64 + delta.files_delta;
        s.total_files = if tf < 0 { 0 } else { #[verifier::truncate] (tf as usize) };
        let ts = s.total_size + delta.size_delta;
        s.total_size = if ts < 0 { 0 } else { ts };
        let ghost m0 = kind_map(s0.by_kind@);
        let ghost ds = delta.kind_deltas@;
        let mut j: usize = 0;
        while j < delta.kind_deltas.len()
            invariant
                j <= ds.len(),
                ds == delta.kind_deltas@,
                m0 == kind_map(s0.by_kind@),
                delta_kinds_distinct(ds),
                delta_fits(s0, *delta),
                kinds_distinct(s.by_kind@),
                kind_map(s.by_kind@) == apply_kinds(m0, ds, j as int),
                s.name == s0.name,
                s.fts_row_count == s0.fts_row_count,
                s.by_ext == s0.by_ext,
                s.total_files == clamp0(s0.total_files + delta.files_delta) as usize,
                s.total_size == clamp0(s0.total_size + delta.size_delta),
            decreases ds.len() - j,
        {
            let kind = delta.kind_deltas[j].0.as_str();
            let cd = (delta.kind_deltas[j].1).0;
            let sd = (delta.kind_deltas[j].1).1;
            proof {
                lemma_apply_kinds_other(m0, ds, j as int, kind@);
                assert(ds[j as int].0@ == kind@);
            }
            let ghost cur = s.by_kind@;
            match kind_position(&s.by_kind, kind) {
                Some(i) => {
                    proof { lemma_kind_map_at(cur, i as int); }
                    let c = s.by_kind[i].1;
                    let nc = c.count as i64 + cd;
                    let ns = c.size + sd;
                    let nk = KindCount { count: if nc < 0 { 0 } else { #[verifier::truncate] (nc as usize) }, size: if ns < 0 { 0 } else { ns } };
                    let name = s.by_kind[i].0.clone();
                    proof { lemma_kind_map_update(cur, i as int, nk); }
                    s.by_kind.set(i, (name, nk));
                    proof {
                        assert forall|a: int, b: int| 0 <= a < b < s.by_kind@.len() implies (#[trigger] s.by_kind@[a]).0@ != (#[trigger] s.by_kind@[b]).0@ by {
                            assert(s.by_kind@[a].0@ == cur[a].0@ && s.by_kind@[b].0@ == cur[b].0@);
                        }
                    }
                },
                None => {
                    proof { lemma_kind_map_absent(cur, kind@); }
                    let nc: i64 = cd;
                    let ns: i64 = sd;
                    let nk = KindCount { count: if nc < 0 { 0 } else { #[verifier::truncate] (nc as usize) }, size: if ns < 0 { 0 } else { ns } };
                    s.by_kind.push((kind.to_owned(), nk));
                    proof {
                        assert(s.by_kind@.drop_last() =~= cur);
                        assert forall|a: int, b: int| 0 <= a < b < s.by_kind@.len() implies (#[trigger] s.by_kind@[a]).0@ != (#[trigger] s.by_kind@[b]).0@ by {
                            if b == cur.len() {
                                assert(s.by_kind@[a] == cur[a]);
                            } else {
                                assert(s.by_kind@[a] == cur[a] && s.by_kind@[b] == cur[b]);
                            }
                        }
                    }
                },
            }
            j = j + 1;
        }
        self.sources.insert(k, s);
        assert(self.sources@ =~= before.update(k as int, s));
    }
}

/// Applying the deltas of other kinds leaves a kind as it was.
proof fn lemma_apply_kinds_other(m: Map<Seq<char>, (int, int)>, ds: Seq<(String, (i64, i64))>, j: int, key: Seq<char>)
    requires
        0 <= j <= ds.len(),
        forall|i: int| 0 <= i < j ==> (#[trigger] ds[i]).0@ != key,
    ensures
        apply_kinds(m, ds, j).dom().contains(key) == m.dom().contains(key),
        m.dom().contains(key) ==> apply_kinds(m, ds, j)[key] == m[key],
    decreases j,
{
    if j > 0 {
        lemma_apply_kinds_other(m, ds, j - 1, key);
        assert(ds[j - 1].0@ != key);
    }
}

} // verus!
