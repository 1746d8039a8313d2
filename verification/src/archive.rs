//! Content archives: archive numbering and naming, the state shared by all
//! archive writers, the per-writer rotation decisions, and the chunking of
//! file content into fixed-size pieces.
use vstd::prelude::*;
use crate::text::{
    to_chars, string_from_chars, push_char, push_str, push_zero_padded, push_i64, push_decimal,
    parse_usize, parse_usize_spec, zero_padded, int_digits, decimal_digits, matches_at, occurs_at,
    lemma_zero_padded_value, is_digit,
};
use crate::paths::{join, join_spec};

verus! {

/// Target on-disk size of one archive before the writer moves to a new one.
pub const TARGET_ARCHIVE_SIZE: u64 = 10 * 1024 * 1024;

/// Size limit, in bytes, of one content chunk.
pub const CHUNK_SIZE: usize = 1024;

// ── Archive names ────────────────────────────────────────────────────────────

/// `content_`
pub open spec fn archive_prefix() -> Seq<char> {
    seq!['c', 'o', 'n', 't', 'e', 'n', 't', '_']
}

/// `.zip`
pub open spec fn archive_suffix() -> Seq<char> {
    seq!['.', 'z', 'i', 'p']
}

/// The archive number encoded in a file name `content_<digits>.zip`, as
/// `strip_prefix`, `strip_suffix` and `parse::<usize>` give it.
pub open spec fn parse_archive_number_spec(name: Seq<char>) -> Option<usize> {
    if name.len() >= 12 && name.subrange(0, 8) == archive_prefix()
        && name.subrange(name.len() - 4, name.len() as int) == archive_suffix() {
        parse_usize_spec(name.subrange(8, name.len() - 4))
    } else {
        None
    }
}

/// Extracts the archive number from a file name (`content_00123.zip` → 123).
pub fn parse_archive_number(filename: &str) -> (r: Option<usize>)
    ensures
        r == parse_archive_number_spec(filename@),
{
    let v = to_chars(filename);
    let p = vec!['c', 'o', 'n', 't', 'e', 'n', 't', '_'];
    let x = vec!['.', 'z', 'i', 'p'];
    assert(p@ =~= archive_prefix());
    assert(x@ =~= archive_suffix());
    if v.len() < 12 {
        return None;
    }
    if !matches_at(&v, &p, 0) || !matches_at(&v, &x, v.len() - 4) {
        return None;
    }
    parse_usize(&v, 8, v.len() - 4)
}

/// The file name of archive `n`: `content_` and `n` zero-padded to five
/// digits, then `.zip`.
pub open spec fn archive_name_spec(n: nat) -> Seq<char> {
    archive_prefix() + zero_padded(n, 5) + archive_suffix()
}

/// The file name of archive `archive_num`.
pub fn archive_name_for_number(archive_num: u32) -> (r: String)
    ensures
        r@ == archive_name_spec(archive_num as nat),
{
    let mut s = String::new();
    let p = vec!['c', 'o', 'n', 't', 'e', 'n', 't', '_'];
    let x = vec!['.', 'z', 'i', 'p'];
    crate::text::push_chars(&mut s, &p, 0, 8);
    push_zero_padded(&mut s, archive_num as u64, 5);
    crate::text::push_chars(&mut s, &x, 0, 4);
    assert(s@ =~= archive_name_spec(archive_num as nat));
    s
}

/// Reading back the name of archive `n` gives `n`: every name that
/// `archive_name_for_number` writes is read by `parse_archive_number` as the
/// number it was written for.
pub proof fn lemma_archive_name_roundtrip(n: u32)
    ensures
        parse_archive_number_spec(archive_name_spec(n as nat)) == Some(n as usize),
{
    let z = zero_padded(n as nat, 5);
    lemma_zero_padded_value(n as nat, 5);
    let name = archive_name_spec(n as nat);
    assert(name.subrange(0, 8) =~= archive_prefix());
    assert(name.subrange(name.len() - 4, name.len() as int) =~= archive_suffix());
    assert(name.subrange(8, name.len() - 4) =~= z);
    assert(is_digit(z[0]));
}

/// `sources`
pub open spec fn sources_word() -> Seq<char> {
    seq!['s', 'o', 'u', 'r', 'c', 'e', 's']
}

/// `content`
pub open spec fn content_word() -> Seq<char> {
    seq!['c', 'o', 'n', 't', 'e', 'n', 't']
}

/// The path of archive `n` under `data_dir`: archives live in subfolders of a
/// thousand each, `sources/content/<n / 1000 as 4 digits>/<archive name>`.
pub open spec fn archive_path_spec(data_dir: Seq<char>, n: nat) -> Seq<char> {
    join_spec(
        join_spec(join_spec(join_spec(data_dir, sources_word()), content_word()), zero_padded(n / 1000, 4)),
        archive_name_spec(n),
    )
}

// ── Lock registry ────────────────────────────────────────────────────────────

/// A registry that hands out one lock slot per key, creating it on first
/// use. Slot `i` belongs to `keys[i]`; no key appears twice.
pub struct LockRegistry {
    pub keys: Vec<String>,
}

impl LockRegistry {
    /// The keys of the registry, as strings of characters.
    pub open spec fn key_seq(&self) -> Seq<Seq<char>> {
        self.keys@.map_values(|k: String| k@)
    }

    /// No key is registered twice.
    pub open spec fn wf(&self) -> bool {
        forall|i: int, j: int| 0 <= i < j < self.keys@.len() ==> self.keys@[i]@ != self.keys@[j]@
    }

    /// `later` keeps every slot of this registry: it holds the same keys in
    /// the same slots, and possibly more after them.
    pub open spec fn keeps_slots(&self, later: Self) -> bool {
        &&& self.keys@.len() <= later.keys@.len()
        &&& later.key_seq().subrange(0, self.keys@.len() as int) == self.key_seq()
    }

    /// An empty registry.
    pub fn new() -> (r: Self)
        ensures
            r.wf(),
            r.keys@.len() == 0,
    {
        LockRegistry { keys: Vec::new() }
    }

    /// The slot of `key`, registering it when it is new. Existing slots are
    /// never moved; a new key gets the next slot.
    pub fn slot_for(&mut self, key: &str) -> (slot: usize)
        requires
            old(self).wf(),
        ensures
            final(self).wf(),
            slot < final(self).keys@.len(),
            final(self).keys@[slot as int]@ == key@,
            old(self).keeps_slots(*final(self)),
            (exists|i: int| 0 <= i < old(self).keys@.len() && old(self).keys@[i]@ == key@) ==> final(self).keys@ == old(self).keys@,
            !(exists|i: int| 0 <= i < old(self).keys@.len() && old(self).keys@[i]@ == key@) ==> (
                final(self).keys@.len() == old(self).keys@.len() + 1
                && final(self).keys@.subrange(0, old(self).keys@.len() as int) == old(self).keys@
                && slot == old(self).keys@.len()),
    {
        let k = key.to_owned();
        let mut i: usize = 0;
        while i < self.keys.len()
            invariant
                i <= self.keys@.len(),
                self.keys@ == old(self).keys@,
                old(self).wf(),
                k@ == key@,
                forall|j: int| 0 <= j < i ==> self.keys@[j]@ != key@,
            decreases self.keys@.len() - i,
        {
            if self.keys[i] == k {
                assert(self.key_seq().subrange(0, old(self).keys@.len() as int) =~= old(self).key_seq());
                return i;
            }
            i = i + 1;
        }
        self.keys.push(k);
        assert(final(self).keys@.subrange(0, old(self).keys@.len() as int) =~= old(self).keys@) by {
            assert(self.keys@.subrange(0, old(self).keys@.len() as int) =~= old(self).keys@);
        }
        assert(self.key_seq().subrange(0, old(self).keys@.len() as int) =~= old(self).key_seq());
        i
    }
}

/// Keeping slots is transitive: a registry reached by a run of `slot_for`
/// calls keeps the slots of every registry before it.
pub proof fn lemma_keeps_slots_trans(a: LockRegistry, b: LockRegistry, c: LockRegistry)
    requires
        a.keeps_slots(b),
        b.keeps_slots(c),
    ensures
        a.keeps_slots(c),
{
    assert(c.key_seq().subrange(0, a.keys@.len() as int) =~= a.key_seq()) by {
        assert forall|i: int| 0 <= i < a.keys@.len() implies
            c.key_seq().subrange(0, a.keys@.len() as int)[i] == a.key_seq()[i] by {
            assert(c.key_seq().subrange(0, b.keys@.len() as int)[i] == b.key_seq()[i]);
            assert(b.key_seq().subrange(0, a.keys@.len() as int)[i] == a.key_seq()[i]);
        }
    }
}

/// A key keeps its slot: in every well-formed registry that keeps the slots
/// of one where `key` sits at `slot`, the key sits at that slot and at no
/// other, so every later `slot_for(key)` hands out the same slot.
pub proof fn lemma_slot_stable(before: LockRegistry, after: LockRegistry, slot: int)
    requires
        after.wf(),
        before.keeps_slots(after),
        0 <= slot < before.keys@.len(),
    ensures
        after.keys@[slot]@ == before.keys@[slot]@,
        forall|s: int| 0 <= s < after.keys@.len() && after.keys@[s]@ == before.keys@[slot]@ ==> s == slot,
{
    assert(after.key_seq().subrange(0, before.keys@.len() as int)[slot] == before.key_seq()[slot]);
    assert(after.key_seq()[slot] == after.keys@[slot]@);
    assert(before.key_seq()[slot] == before.keys@[slot]@);
    assert forall|s: int| 0 <= s < after.keys@.len() && after.keys@[s]@ == before.keys@[slot]@ implies s == slot by {
        if s < slot {
            assert(after.keys@[s]@ != after.keys@[slot]@);
        } else if s > slot {
            assert(after.keys@[slot]@ != after.keys@[s]@);
        }
    }
}

/// Two lookups of one registry, the second after the first (any lookups in
/// between keep the slots): they hand out the same slot exactly when they
/// ask for the same key, so each key has one lock and no two keys share one.
pub proof fn lemma_slots_match_keys(r1: LockRegistry, s1: int, k1: Seq<char>, r2: LockRegistry, s2: int, k2: Seq<char>)
    requires
        r2.wf(),
        r1.keeps_slots(r2),
        0 <= s1 < r1.keys@.len(),
        r1.keys@[s1]@ == k1,
        0 <= s2 < r2.keys@.len(),
        r2.keys@[s2]@ == k2,
    ensures
        (s1 == s2) <==> (k1 == k2),
{
    lemma_slot_stable(r1, r2, s1);
}

// ── Shared archive state ─────────────────────────────────────────────────────

/// State shared by every archive writer: the next archive number to hand out,
/// running totals of the archives on disk, and lock slots for archive
/// rewrites and per-source database writes.
pub struct SharedArchiveState {
    pub data_dir: String,
    pub next_archive_num: u32,
    pub total_archives: u64,
    pub archive_size_bytes: u64,
    pub rewrite_locks: LockRegistry,
    pub source_locks: LockRegistry,
}

/// The largest archive number (truncated to `u32`), the count and the total
/// size of the archive files in a directory listing of `(name, size)` pairs;
/// names that are not archive names are skipped. Sizes add up modulo 2^64.
pub open spec fn scan_listing(listing: Seq<(Seq<char>, u64)>) -> (u32, u64, u64)
    decreases listing.len(),
{
    if listing.len() == 0 {
        (0, 0, 0)
    } else {
        let (m, c, b) = scan_listing(listing.drop_last());
        let (name, size) = listing.last();
        match parse_archive_number_spec(name) {
            Some(num) => {
                let n = num as u32;
                (if n > m { n } else { m }, ((c + 1) % 0x1_0000_0000_0000_0000) as u64,
                    ((b + size) % 0x1_0000_0000_0000_0000) as u64)
            },
            None => (m, c, b),
        }
    }
}

/// The counter value after claiming `n`: one more, wrapping to zero past the
/// `u32` limit as an atomic add does.
pub open spec fn number_after(n: u32) -> u32 {
    if n == u32::MAX { 0 } else { (n + 1) as u32 }
}

/// The first number handed out when the highest existing archive is `m`:
/// one more, saturating at the `u32` limit.
pub open spec fn seeded_counter(m: u32) -> u32 {
    if m == u32::MAX { m } else { (m + 1) as u32 }
}

/// The number claimed by the `k`-th of successive allocations (counting from
/// zero) from a counter that stands at `start`.
pub open spec fn nth_allocation(start: u32, k: nat) -> u32 {
    ((start + k) % 0x1_0000_0000) as u32
}

/// Successive allocations: the first claims the counter's value, each one
/// claims the number after the one before it, and fewer than 2^32 of them
/// never claim the same number twice.
pub proof fn lemma_allocations_distinct(start: u32, i: nat, j: nat)
    requires
        i < j < 0x1_0000_0000,
    ensures
        nth_allocation(start, 0) == start,
        number_after(nth_allocation(start, i)) == nth_allocation(start, i + 1),
        nth_allocation(start, i) != nth_allocation(start, j),
{
    let m: int = 0x1_0000_0000;
    let a: int = start + i;
    let b: int = start + j;
    assert((start + 0) % m == start as int);
    let r = a % m;
    assert(0 <= r < m);
    assert((a + 1) % m == (if r == m - 1 { 0 } else { r + 1 })) by {
        vstd::arithmetic::div_mod::lemma_add_mod_noop(a, 1, m);
        assert(1int % m == 1);
        if r == m - 1 {
            assert((r + 1) % m == 0);
        } else {
            assert((r + 1) % m == r + 1);
        }
    }
    assert(a % m != b % m) by {
        vstd::arithmetic::div_mod::lemma_fundamental_div_mod(a, m);
        vstd::arithmetic::div_mod::lemma_fundamental_div_mod(b, m);
        let qa = a / m;
        let qb = b / m;
        if a % m == b % m {
            assert(b - a == (qb - qa) * m) by (nonlinear_arith)
                requires a == m * qa + a % m, b == m * qb + b % m, a % m == b % m;
            assert(false) by (nonlinear_arith)
                requires b - a == (qb - qa) * m, 0 < b - a < m, m > 0;
        }
    }
}

/// `nums` are what successive calls of `allocate_archive_num` return from a
/// counter standing at `start`: the first claims `start`, each later one the
/// number after the one before it.
pub open spec fn successive_allocations(start: u32, nums: Seq<u32>) -> bool {
    &&& nums.len() > 0 ==> nums[0] == start
    &&& forall|i: int| 1 <= i < nums.len() ==> #[trigger] nums[i] == number_after(nums[i - 1])
}

/// Successive allocations count up from the counter, wrapping past the
/// `u32` limit: the `i`-th is `nth_allocation(start, i)`.
proof fn lemma_successive_nth(start: u32, nums: Seq<u32>, i: int)
    requires
        successive_allocations(start, nums),
        0 <= i < nums.len(),
        nums.len() <= 0x1_0000_0000,
    ensures
        nums[i] == nth_allocation(start, i as nat),
    decreases i,
{
    if i == 0 {
        lemma_allocations_distinct(start, 0, 1);
    } else {
        lemma_successive_nth(start, nums, i - 1);
        assert(nums[i] == number_after(nums[i - 1]));
        lemma_allocations_distinct(start, (i - 1) as nat, i as nat);
    }
}

/// Fewer than 2^32 successive allocations hand out pairwise distinct
/// numbers, so each caller owns its archive number without a lock.
pub proof fn lemma_successive_allocations_distinct(start: u32, nums: Seq<u32>)
    requires
        successive_allocations(start, nums),
        nums.len() <= 0x1_0000_0000,
    ensures
        forall|i: int| 0 <= i < nums.len() ==> #[trigger] nums[i] == nth_allocation(start, i as nat),
        forall|i: int, j: int| 0 <= i < j < nums.len() ==> nums[i] != nums[j],
{
    assert forall|i: int| 0 <= i < nums.len() implies #[trigger] nums[i] == nth_allocation(start, i as nat) by {
        lemma_successive_nth(start, nums, i);
    }
    assert forall|i: int, j: int| 0 <= i < j < nums.len() implies nums[i] != nums[j] by {
        lemma_successive_nth(start, nums, i);
        lemma_successive_nth(start, nums, j);
        lemma_allocations_distinct(start, i as nat, j as nat);
    }
}

/// The largest archive number in a listing is at least that of each archive
/// listed (each taken as `u32`).
pub proof fn lemma_scan_listing_max(listing: Seq<(Seq<char>, u64)>, i: int)
    requires
        0 <= i < listing.len(),
        parse_archive_number_spec(listing[i].0) is Some,
    ensures
        (parse_archive_number_spec(listing[i].0)->0 as u32) <= scan_listing(listing).0,
    decreases listing.len(),
{
    if i < listing.len() - 1 {
        lemma_scan_listing_max(listing.drop_last(), i);
        assert(listing.drop_last()[i] == listing[i]);
    }
}

/// A counter seeded from a listing hands out numbers above every archive
/// already listed (unless the highest one is the `u32` limit), so new archives
/// never reuse the name of an existing one.
pub proof fn lemma_seeded_counter_above_existing(listing: Seq<(Seq<char>, u64)>, i: int)
    requires
        0 <= i < listing.len(),
        parse_archive_number_spec(listing[i].0) is Some,
        parse_archive_number_spec(listing[i].0)->0 <= u32::MAX,
        scan_listing(listing).0 < u32::MAX,
    ensures
        parse_archive_number_spec(listing[i].0)->0 < seeded_counter(scan_listing(listing).0),
{
    lemma_scan_listing_max(listing, i);
}

impl SharedArchiveState {
    /// Whether the lock registries are well formed.
    pub open spec fn wf(&self) -> bool {
        self.rewrite_locks.wf() && self.source_locks.wf()
    }

    /// State for `data_dir`, seeded from a listing `(file name, size)` of the
    /// files found in the content subfolders: the counter starts one above the
    /// highest existing archive number (saturating), and the running count and
    /// size start at those of the listed archives.
    pub fn new(data_dir: String, listing: &Vec<(String, u64)>) -> (r: Self)
        ensures
            r.wf(),
            r.data_dir == data_dir,
            ({
                let (m, c, b) = scan_listing(listing@.map_values(|e: (String, u64)| (e.0@, e.1)));
                &&& r.next_archive_num == seeded_counter(m)
                &&& r.total_archives == c
                &&& r.archive_size_bytes == b
            }),
            r.rewrite_locks.keys@.len() == 0,
            r.source_locks.keys@.len() == 0,
    {
        let ghost lst = listing@.map_values(|e: (String, u64)| (e.0@, e.1));
        let mut max_num: u32 = 0;
        let mut count: u64 = 0;
        let mut size_bytes: u64 = 0;
        let mut i: usize = 0;
        while i < listing.len()
            invariant
                i <= listing@.len(),
                lst == listing@.map_values(|e: (String, u64)| (e.0@, e.1)),
                (max_num, count, size_bytes) == scan_listing(lst.subrange(0, i as int)),
            decreases listing@.len() - i,
        {
            let (name, size) = &listing[i];
            assert(lst.subrange(0, i + 1).drop_last() == lst.subrange(0, i as int));
            assert(lst.subrange(0, i + 1).last() == (name@, *size));
            match parse_archive_number(name.as_str()) {
                Some(num) => {
                    let n = num as u32;
                    if n > max_num {
                        max_num = n;
                    }
                    count = if count == u64::MAX { 0 } else { count + 1 };
                    size_bytes = if size_bytes as u128 + *size as u128 > u64::MAX as u128 {
                        (size_bytes as u128 + *size as u128 - 0x1_0000_0000_0000_0000u128) as u64
                    } else {
                        size_bytes + *size
                    };
                },
                None => {},
            }
            i = i + 1;
        }
        assert(lst.subrange(0, listing@.len() as int) == lst);
        SharedArchiveState {
            data_dir,
            next_archive_num: if max_num == u32::MAX { max_num } else { max_num + 1 },
            total_archives: count,
            archive_size_bytes: size_bytes,
            rewrite_locks: LockRegistry::new(),
            source_locks: LockRegistry::new(),
        }
    }

    /// Running count of archive files.
    pub fn total_archives(&self) -> (r: u64)
        ensures
            r == self.total_archives,
    {
        self.total_archives
    }

    /// Running sum of archive sizes in bytes.
    pub fn archive_size_bytes(&self) -> (r: u64)
        ensures
            r == self.archive_size_bytes,
    {
        self.archive_size_bytes
    }

    /// Claims the next archive number; the counter advances by one (wrapping
    /// at the `u32` limit, as an atomic add does).
    pub fn allocate_archive_num(&mut self) -> (n: u32)
        ensures
            n == old(self).next_archive_num,
            final(self).next_archive_num == number_after(n),
            final(self).data_dir == old(self).data_dir,
            final(self).total_archives == old(self).total_archives,
            final(self).archive_size_bytes == old(self).archive_size_bytes,
            final(self).rewrite_locks == old(self).rewrite_locks,
            final(self).source_locks == old(self).source_locks,
    {
        let n = self.next_archive_num;
        self.next_archive_num = if n == u32::MAX { 0 } else { n + 1 };
        n
    }

    /// The rewrite lock slot of the archive at `path`, created on first use.
    pub fn rewrite_lock_for(&mut self, path: &str) -> (slot: usize)
        requires
            old(self).wf(),
        ensures
            final(self).wf(),
            slot < final(self).rewrite_locks.keys@.len(),
            final(self).rewrite_locks.keys@[slot as int]@ == path@,
            (exists|i: int| 0 <= i < old(self).rewrite_locks.keys@.len() && old(self).rewrite_locks.keys@[i]@ == path@)
                ==> final(self).rewrite_locks.keys@ == old(self).rewrite_locks.keys@,
            old(self).rewrite_locks.keeps_slots(final(self).rewrite_locks),
            final(self).source_locks == old(self).source_locks,
            final(self).next_archive_num == old(self).next_archive_num,
            final(self).data_dir == old(self).data_dir,
    {
        self.rewrite_locks.slot_for(path)
    }

    /// The write lock slot of source `source`, created on first use.
    pub fn source_lock(&mut self, source: &str) -> (slot: usize)
        requires
            old(self).wf(),
        ensures
            final(self).wf(),
            slot < final(self).source_locks.keys@.len(),
            final(self).source_locks.keys@[slot as int]@ == source@,
            (exists|i: int| 0 <= i < old(self).source_locks.keys@.len() && old(self).source_locks.keys@[i]@ == source@)
                ==> final(self).source_locks.keys@ == old(self).source_locks.keys@,
            old(self).source_locks.keeps_slots(final(self).source_locks),
            final(self).rewrite_locks == old(self).rewrite_locks,
            final(self).next_archive_num == old(self).next_archive_num,
            final(self).data_dir == old(self).data_dir,
    {
        self.source_locks.slot_for(source)
    }

    /// The path of archive `archive_num`.
    pub fn archive_path_for_number(&self, archive_num: u32) -> (r: String)
        ensures
            r@ == archive_path_spec(self.data_dir@, archive_num as nat),
    {
        let n = archive_num as u64;
        let a = join(self.data_dir.as_str(), "sources");
        proof { reveal_strlit("sources"); reveal_strlit("content"); }
        assert("sources"@ =~= sources_word());
        let b = join(a.as_str(), "content");
        assert("content"@ =~= content_word());
        let mut sub = String::new();
        push_zero_padded(&mut sub, n / 1000, 4);
        assert(sub@ =~= zero_padded((archive_num as nat) / 1000, 4));
        let c = join(b.as_str(), sub.as_str());
        let name = archive_name_for_number(archive_num);
        join(c.as_str(), name.as_str())
    }

    /// The `sources` directory under the data directory.
    pub fn sources_dir(&self) -> (r: String)
        ensures
            r@ == join_spec(self.data_dir@, sources_word()),
    {
        proof { reveal_strlit("sources"); }
        assert("sources"@ =~= sources_word());
        join(self.data_dir.as_str(), "sources")
    }
}


// ── Running totals ───────────────────────────────────────────────────────────

impl SharedArchiveState {
    /// Adds `delta` bytes to the running archive size (wrapping, as an
    /// atomic add does).
    pub fn add_archive_bytes(&mut self, delta: u64)
        ensures
            final(self).archive_size_bytes == ((old(self).archive_size_bytes + delta) % 0x1_0000_0000_0000_0000) as u64,
            final(self).next_archive_num == old(self).next_archive_num,
            final(self).total_archives == old(self).total_archives,
            final(self).data_dir == old(self).data_dir,
            final(self).rewrite_locks == old(self).rewrite_locks,
            final(self).source_locks == old(self).source_locks,
    {
        let sum: u128 = self.archive_size_bytes as u128 + delta as u128;
        self.archive_size_bytes = if sum > u64::MAX as u128 {
            (sum - 0x1_0000_0000_0000_0000u128) as u64
        } else {
            sum as u64
        };
    }

    /// Accounts for an archive rewritten from `size_before` to `size_after`
    /// bytes: growth is added, shrinkage is subtracted without going below
    /// zero.
    pub fn record_rewrite(&mut self, size_before: u64, size_after: u64)
        ensures
            size_after > size_before ==> final(self).archive_size_bytes
                == ((old(self).archive_size_bytes + (size_after - size_before)) % 0x1_0000_0000_0000_0000) as u64,
            size_after < size_before ==> final(self).archive_size_bytes == (
                if old(self).archive_size_bytes >= size_before - size_after {
                    (old(self).archive_size_bytes - (size_before - size_after)) as u64
                } else { 0 }),
            size_after == size_before ==> final(self).archive_size_bytes == old(self).archive_size_bytes,
            final(self).next_archive_num == old(self).next_archive_num,
            final(self).total_archives == old(self).total_archives,
            final(self).data_dir == old(self).data_dir,
            final(self).rewrite_locks == old(self).rewrite_locks,
            final(self).source_locks == old(self).source_locks,
    {
        if size_after > size_before {
            self.add_archive_bytes(size_after - size_before);
        } else if size_after < size_before {
            let d = size_before - size_after;
            self.archive_size_bytes = if self.archive_size_bytes >= d { self.archive_size_bytes - d } else { 0 };
        }
    }

    /// Where the archive named `archive_name` lives: an archive-numbered
    /// name goes to its numbered subfolder, any other name directly under
    /// `sources`.
    pub fn archive_path_for_name(&self, archive_name: &str) -> (r: String)
        ensures
            r@ == match parse_archive_number_spec(archive_name@) {
                Some(num) => archive_path_spec(self.data_dir@, (num as u32) as nat),
                None => join_spec(join_spec(self.data_dir@, sources_word()), archive_name@),
            },
    {
        match parse_archive_number(archive_name) {
            Some(num) => self.archive_path_for_number(num as u32),
            None => {
                let d = self.sources_dir();
                join(d.as_str(), archive_name)
            },
        }
    }
}

// ── Per-writer archive rotation ──────────────────────────────────────────────

/// One archive writer. It owns the archive it is appending to until that
/// archive reaches the target size.
pub struct ArchiveManager {
    pub current_archive_num: Option<u32>,
}

impl ArchiveManager {
    /// A writer that has not claimed an archive yet.
    pub fn new() -> (r: Self)
        ensures
            r.current_archive_num is None,
    {
        ArchiveManager { current_archive_num: None }
    }

    /// A reader over `data_dir`, with shared state of its own whose counters
    /// all start at zero; it is not meant to write.
    pub fn new_for_reading(data_dir: String) -> (r: (Self, SharedArchiveState))
        ensures
            r.0.current_archive_num is None,
            r.1.wf(),
            r.1.data_dir == data_dir,
            r.1.next_archive_num == 0,
            r.1.total_archives == 0,
            r.1.archive_size_bytes == 0,
            r.1.rewrite_locks.keys@.len() == 0,
            r.1.source_locks.keys@.len() == 0,
    {
        let state = SharedArchiveState {
            data_dir,
            next_archive_num: 0,
            total_archives: 0,
            archive_size_bytes: 0,
            rewrite_locks: LockRegistry::new(),
            source_locks: LockRegistry::new(),
        };
        (ArchiveManager { current_archive_num: None }, state)
    }

    /// The archive to append to next. `current_size` is the on-disk size of
    /// the archive currently owned (ignored when there is none). The current
    /// archive is kept while it is below the target size; otherwise a new
    /// number is claimed from the shared state, counted as one more archive,
    /// and owned from now on. The flag tells whether the archive is new (and
    /// must be created empty).
    pub fn current_archive(&mut self, state: &mut SharedArchiveState, current_size: u64) -> (r: (u32, bool))
        ensures
            final(self).current_archive_num == Some(r.0),
            match old(self).current_archive_num {
                Some(n) => current_size < TARGET_ARCHIVE_SIZE ==> (r == (n, false) && *final(state) == *old(state)),
                None => true,
            },
            (old(self).current_archive_num is None || current_size >= TARGET_ARCHIVE_SIZE) ==> {
                &&& r.1
                &&& r.0 == old(state).next_archive_num
                &&& final(state).next_archive_num == number_after(r.0)
                &&& final(state).total_archives == (if old(state).total_archives == u64::MAX { 0 } else { (old(state).total_archives + 1) as u64 })
                &&& final(state).archive_size_bytes == old(state).archive_size_bytes
                &&& final(state).data_dir == old(state).data_dir
                &&& final(state).rewrite_locks == old(state).rewrite_locks
                &&& final(state).source_locks == old(state).source_locks
            },
    {
        match self.current_archive_num {
            Some(n) => {
                if current_size < TARGET_ARCHIVE_SIZE {
                    return (n, false);
                }
            },
            None => {},
        }
        let n = state.allocate_archive_num();
        state.total_archives = if state.total_archives == u64::MAX { 0 } else { state.total_archives + 1 };
        self.current_archive_num = Some(n);
        (n, true)
    }

    /// After an append: once the owned archive has reached the target size
    /// on disk, the writer gives it up.
    pub fn after_append(&mut self, on_disk: u64)
        ensures
            final(self).current_archive_num == (if on_disk >= TARGET_ARCHIVE_SIZE { None } else { old(self).current_archive_num }),
    {
        if on_disk >= TARGET_ARCHIVE_SIZE {
            self.current_archive_num = None;
        }
    }
}

// ── Chunks ───────────────────────────────────────────────────────────────────

/// A chunk of file content to be stored.
#[derive(Clone, Debug)]
pub struct Chunk {
    pub file_id: i64,
    /// Kept for the archive entry comment.
    pub file_path: String,
    pub chunk_number: usize,
    pub content: String,
}

/// Where a chunk is stored: the archive file name and the entry name.
#[derive(Clone, Debug)]
pub struct ChunkRef {
    pub archive_name: String,
    pub chunk_name: String,
}

/// Where a line ended up after chunking.
#[derive(Clone, Debug)]
pub struct LineMapping {
    pub line_number: usize,
    pub chunk_number: usize,
    pub offset_in_chunk: usize,
}

/// The chunks of a file and the place of each of its lines.
pub struct ChunkResult {
    pub chunks: Vec<Chunk>,
    pub line_mappings: Vec<LineMapping>,
}

/// The entry name of chunk `chunk_number` of file `file_id`: `<file_id>.<n>`.
pub open spec fn chunk_name_spec(file_id: int, chunk_number: nat) -> Seq<char> {
    int_digits(file_id) + seq!['.'] + decimal_digits(chunk_number)
}

/// The entry name of a chunk.
pub fn chunk_name(file_id: i64, chunk_number: usize) -> (r: String)
    ensures
        r@ == chunk_name_spec(file_id as int, chunk_number as nat),
{
    let mut s = String::new();
    push_i64(&mut s, file_id);
    push_char(&mut s, '.');
    push_decimal(&mut s, chunk_number as u64);
    assert(s@ =~= chunk_name_spec(file_id as int, chunk_number as nat));
    s
}

/// The number of bytes of the UTF-8 encoding of `s`.
pub open spec fn utf8_len(s: Seq<char>) -> int {
    vstd::utf8::encode_utf8(s).len() as int
}

/// The text a line contributes to a chunk: its content and a newline.
pub open spec fn line_text(content: Seq<char>) -> Seq<char> {
    content.push('\n')
}

/// The state of chunking after some lines: the finished chunks, the chunk
/// being filled, its size in bytes, the offset of the next line in it, and
/// the `(line number, chunk number, offset)` of every line so far.
pub type ChunkingState = (Seq<Seq<char>>, Seq<char>, int, int, Seq<(int, int, int)>);

/// Chunking of `lines` (pairs of line number and content). A line goes into
/// the current chunk unless that chunk is non-empty and the line (with its
/// newline) would take it over `CHUNK_SIZE` bytes; then the current chunk is
/// finished and the line starts the next one.
pub open spec fn chunking(lines: Seq<(int, Seq<char>)>) -> ChunkingState
    decreases lines.len(),
{
    if lines.len() == 0 {
        (Seq::empty(), Seq::empty(), 0, 0, Seq::empty())
    } else {
        let (done, cur, bytes, offset, maps) = chunking(lines.drop_last());
        let (ln, content) = lines.last();
        let tb = utf8_len(content) + 1;
        if bytes + tb > CHUNK_SIZE && cur.len() > 0 {
            let done2 = done.push(cur);
            (done2, line_text(content), tb, 1, maps.push((ln, done2.len() as int, 0)))
        } else {
            (done, cur + line_text(content), bytes + tb, offset + 1, maps.push((ln, done.len() as int, offset)))
        }
    }
}

/// The chunk contents that chunking `lines` produces: the finished chunks
/// and the last one when it is non-empty.
pub open spec fn chunk_contents(lines: Seq<(int, Seq<char>)>) -> Seq<Seq<char>> {
    let (done, cur, _b, _o, _m) = chunking(lines);
    if cur.len() > 0 { done.push(cur) } else { done }
}

/// The concatenation of a sequence of strings.
pub open spec fn concat_all(parts: Seq<Seq<char>>) -> Seq<char>
    decreases parts.len(),
{
    if parts.len() == 0 { Seq::empty() } else { concat_all(parts.drop_last()) + parts.last() }
}

/// All line texts of `lines`, one after the other.
pub open spec fn all_line_texts(lines: Seq<(int, Seq<char>)>) -> Seq<char>
    decreases lines.len(),
{
    if lines.len() == 0 { Seq::empty() } else { all_line_texts(lines.drop_last()) + line_text(lines.last().1) }
}

/// Chunking loses and reorders nothing: the finished chunks and the current
/// one, concatenated, are the texts of the lines; every finished chunk is
/// non-empty; there is one mapping per line, with the line's number.
pub proof fn lemma_chunking_preserves_text(lines: Seq<(int, Seq<char>)>)
    ensures
        ({
            let (done, cur, bytes, offset, maps) = chunking(lines);
            &&& concat_all(done) + cur == all_line_texts(lines)
            &&& forall|i: int| 0 <= i < done.len() ==> #[trigger] done[i].len() > 0
            &&& maps.len() == lines.len()
            &&& forall|i: int| 0 <= i < lines.len() ==> (#[trigger] maps[i]).0 == lines[i].0
            &&& (lines.len() > 0 ==> cur.len() > 0)
        }),
    decreases lines.len(),
{
    if lines.len() > 0 {
        let pre = lines.drop_last();
        lemma_chunking_preserves_text(pre);
        let (done, cur, bytes, offset, maps) = chunking(pre);
        let (ln, content) = lines.last();
        let tb = utf8_len(content) + 1;
        if bytes + tb > CHUNK_SIZE && cur.len() > 0 {
            assert(concat_all(done.push(cur)) == concat_all(done) + cur) by {
                assert(done.push(cur).drop_last() == done);
            }
            assert(concat_all(done.push(cur)) + line_text(content) == all_line_texts(lines));
        } else {
            assert(concat_all(done) + (cur + line_text(content)) == (concat_all(done) + cur) + line_text(content));
        }
        let (done2, cur2, b2, o2, maps2) = chunking(lines);
        assert forall|i: int| 0 <= i < lines.len() implies (#[trigger] maps2[i]).0 == lines[i].0 by {
            if i < pre.len() {
                assert(maps2[i] == maps[i]);
                assert(lines[i] == pre[i]);
            }
        }
    }
}

/// How many of the first `n` mappings put their line into chunk `c`.
pub open spec fn lines_before_in_chunk(maps: Seq<(int, int, int)>, n: int, c: int) -> nat
    decreases n,
{
    if n <= 0 {
        0
    } else {
        lines_before_in_chunk(maps, n - 1, c) + (if maps[n - 1].1 == c { 1nat } else { 0nat })
    }
}

/// The count of the first `n` mappings depends on those mappings alone.
proof fn lemma_lines_before_prefix(a: Seq<(int, int, int)>, b: Seq<(int, int, int)>, n: int, c: int)
    requires
        0 <= n <= a.len(),
        n <= b.len(),
        forall|j: int| 0 <= j < n ==> a[j] == b[j],
    ensures
        lines_before_in_chunk(a, n, c) == lines_before_in_chunk(b, n, c),
    decreases n,
{
    if n > 0 {
        lemma_lines_before_prefix(a, b, n - 1, c);
    }
}

/// No mapping before position `n` names a chunk above all of theirs.
proof fn lemma_lines_before_none(maps: Seq<(int, int, int)>, n: int, c: int)
    requires
        0 <= n <= maps.len(),
        forall|j: int| 0 <= j < n ==> (#[trigger] maps[j]).1 < c,
    ensures
        lines_before_in_chunk(maps, n, c) == 0,
    decreases n,
{
    if n > 0 {
        lemma_lines_before_none(maps, n - 1, c);
    }
}

/// What chunking keeps true line after line: every line went to a chunk
/// at most the current one, in order, at the offset counting the lines
/// before it in that chunk, and the next offset counts the lines of the
/// current chunk.
proof fn lemma_chunking_offsets_state(lines: Seq<(int, Seq<char>)>)
    ensures
        ({
            let (done, cur, bytes, off, maps) = chunking(lines);
            &&& maps.len() == lines.len()
            &&& forall|i: int| 0 <= i < maps.len() ==> 0 <= (#[trigger] maps[i]).1 <= done.len()
            &&& forall|i: int, j: int| 0 <= i <= j < maps.len() ==> (#[trigger] maps[i]).1 <= (#[trigger] maps[j]).1
            &&& forall|i: int| 0 <= i < maps.len() ==> (#[trigger] maps[i]).2 == lines_before_in_chunk(maps, i, maps[i].1)
            &&& off == lines_before_in_chunk(maps, maps.len() as int, done.len() as int)
            &&& maps.len() > 0 ==> maps[0].1 == 0
            &&& forall|i: int| 0 < i < maps.len() ==> (#[trigger] maps[i]).1 == maps[i - 1].1 || maps[i].1 == maps[i - 1].1 + 1
            &&& maps.len() > 0 ==> maps[maps.len() - 1].1 == done.len()
        }),
    decreases lines.len(),
{
    if lines.len() > 0 {
        let pre = lines.drop_last();
        lemma_chunking_offsets_state(pre);
        let (done, cur, bytes, off, maps) = chunking(pre);
        let (done2, cur2, b2, off2, maps2) = chunking(lines);
        let n = maps.len() as int;
        assert(maps2.len() == n + 1);
        assert forall|j: int| 0 <= j < n implies maps2[j] == maps[j] by {}
        assert forall|i: int| 0 <= i < n implies (#[trigger] maps2[i]).2 == lines_before_in_chunk(maps2, i, maps2[i].1) by {
            lemma_lines_before_prefix(maps, maps2, i, maps[i].1);
        }
        let (ln, content) = lines.last();
        let tb = utf8_len(content) + 1;
        if bytes + tb > CHUNK_SIZE && cur.len() > 0 {
            let c = done.len() as int + 1;
            lemma_lines_before_none(maps2, n, c);
            assert(maps2[n] == (ln, c, 0int));
            assert(lines_before_in_chunk(maps2, n + 1, c) == 1);
        } else {
            let c = done.len() as int;
            lemma_lines_before_prefix(maps, maps2, n, c);
            assert(maps2[n] == (ln, c, off));
            assert(lines_before_in_chunk(maps2, n + 1, c) == off + 1);
        }
    }
}

/// The offset law of chunking: every line goes to a chunk that exists, the
/// first line to chunk 0 and each next line to the same chunk as the line
/// before or the next one, and within its chunk a line's offset is
/// the number of earlier lines put into that chunk, so the lines of each
/// chunk have the offsets 0, 1, 2, ... in order.
pub proof fn lemma_chunk_offsets(lines: Seq<(int, Seq<char>)>)
    ensures
        ({
            let maps = chunking(lines).4;
            &&& maps.len() == lines.len()
            &&& forall|i: int| 0 <= i < maps.len() ==> 0 <= (#[trigger] maps[i]).1 < chunk_contents(lines).len()
            &&& forall|i: int, j: int| 0 <= i <= j < maps.len() ==> (#[trigger] maps[i]).1 <= (#[trigger] maps[j]).1
            &&& forall|i: int| 0 <= i < maps.len() ==> (#[trigger] maps[i]).2 == lines_before_in_chunk(maps, i, maps[i].1)
            &&& maps.len() > 0 ==> maps[0].1 == 0
            &&& forall|i: int| 0 < i < maps.len() ==> (#[trigger] maps[i]).1 == maps[i - 1].1 || maps[i].1 == maps[i - 1].1 + 1
        }),
{
    lemma_chunking_offsets_state(lines);
    lemma_chunking_preserves_text(lines);
}

/// The texts of the first `n` lines that the mappings put into chunk `c`,
/// one after the other.
pub open spec fn chunk_text(lines: Seq<(int, Seq<char>)>, maps: Seq<(int, int, int)>, n: int, c: int) -> Seq<char>
    decreases n,
{
    if n <= 0 {
        Seq::empty()
    } else if maps[n - 1].1 == c {
        chunk_text(lines, maps, n - 1, c) + line_text(lines[n - 1].1)
    } else {
        chunk_text(lines, maps, n - 1, c)
    }
}

/// The text of a chunk from the first `n` lines depends on those lines and
/// mappings alone.
proof fn lemma_chunk_text_prefix(
    l1: Seq<(int, Seq<char>)>, m1: Seq<(int, int, int)>, l2: Seq<(int, Seq<char>)>, m2: Seq<(int, int, int)>, n: int, c: int,
)
    requires
        0 <= n <= l1.len(),
        n <= l2.len(),
        n <= m1.len(),
        n <= m2.len(),
        forall|j: int| 0 <= j < n ==> l1[j] == l2[j] && m1[j] == m2[j],
    ensures
        chunk_text(l1, m1, n, c) == chunk_text(l2, m2, n, c),
    decreases n,
{
    if n > 0 {
        lemma_chunk_text_prefix(l1, m1, l2, m2, n - 1, c);
    }
}

/// No line before position `n` went to a chunk above all of theirs.
proof fn lemma_chunk_text_none(lines: Seq<(int, Seq<char>)>, maps: Seq<(int, int, int)>, n: int, c: int)
    requires
        0 <= n <= maps.len(),
        forall|j: int| 0 <= j < n ==> (#[trigger] maps[j]).1 < c,
    ensures
        chunk_text(lines, maps, n, c) == Seq::<char>::empty(),
    decreases n,
{
    if n > 0 {
        lemma_chunk_text_none(lines, maps, n - 1, c);
    }
}

/// What chunking keeps true of the chunk texts: each finished chunk and
/// the current one hold the texts of exactly the lines mapped to them.
proof fn lemma_chunking_text_state(lines: Seq<(int, Seq<char>)>)
    ensures
        ({
            let (done, cur, bytes, off, maps) = chunking(lines);
            &&& forall|c: int| 0 <= c < done.len() ==> #[trigger] done[c] == chunk_text(lines, maps, lines.len() as int, c)
            &&& cur == chunk_text(lines, maps, lines.len() as int, done.len() as int)
        }),
    decreases lines.len(),
{
    lemma_chunking_offsets_state(lines);
    if lines.len() > 0 {
        let pre = lines.drop_last();
        lemma_chunking_text_state(pre);
        lemma_chunking_offsets_state(pre);
        let (done, cur, bytes, off, maps) = chunking(pre);
        let (done2, cur2, b2, off2, maps2) = chunking(lines);
        let n = pre.len() as int;
        assert forall|j: int| 0 <= j < n implies pre[j] == lines[j] && maps[j] == maps2[j] by {}
        assert forall|c: int| chunk_text(lines, maps2, n, c) == chunk_text(pre, maps, n, c) by {
            lemma_chunk_text_prefix(lines, maps2, pre, maps, n, c);
        }
        let (ln, content) = lines.last();
        let tb = utf8_len(content) + 1;
        if bytes + tb > CHUNK_SIZE && cur.len() > 0 {
            let c2 = done.len() as int + 1;
            assert forall|j: int| 0 <= j < n implies (#[trigger] maps2[j]).1 < c2 by {
                assert(maps2[j] == maps[j]);
            }
            lemma_chunk_text_none(lines, maps2, n, c2);
            assert(cur2 =~= chunk_text(lines, maps2, n + 1, c2));
            assert forall|c: int| 0 <= c < done2.len() implies #[trigger] done2[c] == chunk_text(lines, maps2, n + 1, c) by {
                assert(chunk_text(lines, maps2, n + 1, c) == chunk_text(lines, maps2, n, c));
            }
        } else {
            assert forall|c: int| 0 <= c < done2.len() implies #[trigger] done2[c] == chunk_text(lines, maps2, n + 1, c) by {
                assert(chunk_text(lines, maps2, n + 1, c) == chunk_text(lines, maps2, n, c));
            }
        }
    }
}

/// The content law of chunking: each chunk holds, in line order, the texts
/// (content and newline) of exactly the lines mapped to it. With
/// `lemma_chunk_offsets`, the piece at a line's offset in its chunk is that
/// line.
pub proof fn lemma_chunk_contents_lines(lines: Seq<(int, Seq<char>)>)
    ensures
        forall|c: int| 0 <= c < chunk_contents(lines).len()
            ==> #[trigger] chunk_contents(lines)[c] == chunk_text(lines, chunking(lines).4, lines.len() as int, c),
{
    lemma_chunking_text_state(lines);
}

/// A line's text takes one byte more than its content.
proof fn lemma_line_text_len(content: Seq<char>)
    ensures
        utf8_len(line_text(content)) == utf8_len(content) + 1,
{
    assert(line_text(content) =~= content + seq!['\n']);
    crate::paths::lemma_encode_concat(content, seq!['\n']);
    assert(seq!['\n'].drop_first() =~= Seq::<char>::empty());
    assert(seq!['\n'][0] == '\n');
    assert(vstd::utf8::encode_utf8(Seq::<char>::empty()) =~= Seq::<u8>::empty());
    assert(vstd::utf8::encode_utf8(seq!['\n']).len() == 1);
}

/// What chunking keeps true of sizes: the size counted is the size of the
/// current chunk in bytes, and the last line so far is in it.
proof fn lemma_chunking_bytes_state(lines: Seq<(int, Seq<char>)>)
    ensures
        ({
            let (done, cur, bytes, off, maps) = chunking(lines);
            &&& bytes == utf8_len(cur)
            &&& lines.len() > 0 ==> maps[lines.len() - 1].1 == done.len()
        }),
    decreases lines.len(),
{
    lemma_chunking_offsets_state(lines);
    if lines.len() > 0 {
        let pre = lines.drop_last();
        lemma_chunking_bytes_state(pre);
        let (done, cur, bytes, off, maps) = chunking(pre);
        let (ln, content) = lines.last();
        lemma_line_text_len(content);
        let tb = utf8_len(content) + 1;
        if bytes + tb > CHUNK_SIZE && cur.len() > 0 {
        } else {
            crate::paths::lemma_encode_concat(cur, line_text(content));
        }
    }
}

/// The breaking law of chunking: every line after the first starts a new
/// chunk (offset 0) exactly when its text would take the chunk of the line
/// before it over `CHUNK_SIZE` bytes; otherwise it joins that chunk.
pub proof fn lemma_chunk_breaks(lines: Seq<(int, Seq<char>)>)
    ensures
        ({
            let maps = chunking(lines).4;
            forall|i: int| 0 < i < lines.len() ==> ((#[trigger] maps[i]).2 == 0 <==>
                utf8_len(chunk_text(lines, maps, i, maps[i - 1].1)) + utf8_len(line_text(lines[i].1)) > CHUNK_SIZE)
        }),
    decreases lines.len(),
{
    lemma_chunking_offsets_state(lines);
    if lines.len() > 0 {
        let pre = lines.drop_last();
        lemma_chunk_breaks(pre);
        lemma_chunking_offsets_state(pre);
        lemma_chunking_bytes_state(pre);
        lemma_chunking_text_state(pre);
        lemma_chunking_preserves_text(pre);
        let (done, cur, bytes, off, maps) = chunking(pre);
        let maps2 = chunking(lines).4;
        let n = pre.len() as int;
        assert forall|j: int| 0 <= j < n implies pre[j] == lines[j] && maps[j] == maps2[j] by {}
        assert forall|i: int| 0 < i < lines.len() implies ((#[trigger] maps2[i]).2 == 0 <==>
            utf8_len(chunk_text(lines, maps2, i, maps2[i - 1].1)) + utf8_len(line_text(lines[i].1)) > CHUNK_SIZE) by {
            lemma_chunk_text_prefix(lines, maps2, pre, maps, i, maps2[i - 1].1);
            if i < n {
                assert(maps2[i] == maps[i]);
                assert(maps2[i - 1] == maps[i - 1]);
                assert(lines[i] == pre[i]);
            } else {
                let (ln, content) = lines.last();
                lemma_line_text_len(content);
                assert(maps2[i - 1] == maps[n - 1]);
                assert(maps[n - 1].1 == done.len());
                assert(cur.len() > 0);
                if !(bytes + utf8_len(content) + 1 > CHUNK_SIZE) {
                    assert(lines_before_in_chunk(maps, n, done.len() as int) >= 1) by {
                        assert(lines_before_in_chunk(maps, n, done.len() as int)
                            == lines_before_in_chunk(maps, n - 1, done.len() as int) + 1);
                    }
                }
            }
        }
    }
}

/// Splits the content of a file into chunks of about `CHUNK_SIZE` bytes and
/// records where every line ended up.
pub fn chunk_lines(file_id: i64, file_path: &str, lines: &Vec<(usize, String)>) -> (r: ChunkResult)
    ensures
        ({
            let model = lines@.map_values(|l: (usize, String)| (l.0 as int, l.1@));
            let (done, cur, bytes, offset, maps) = chunking(model);
            &&& r.chunks@.len() == chunk_contents(model).len()
            &&& forall|i: int| 0 <= i < r.chunks@.len() ==> {
                &&& (#[trigger] r.chunks@[i]).content@ == chunk_contents(model)[i]
                &&& r.chunks@[i].chunk_number == i
                &&& r.chunks@[i].file_id == file_id
                &&& r.chunks@[i].file_path@ == file_path@
            }
            &&& r.line_mappings@.len() == maps.len()
            &&& forall|i: int| 0 <= i < r.line_mappings@.len() ==> {
                &&& (#[trigger] r.line_mappings@[i]).line_number == maps[i].0
                &&& r.line_mappings@[i].chunk_number == maps[i].1
                &&& r.line_mappings@[i].offset_in_chunk == maps[i].2
            }
        }),
{
    let ghost model = lines@.map_values(|l: (usize, String)| (l.0 as int, l.1@));
    let mut chunks: Vec<Chunk> = Vec::new();
    let mut line_mappings: Vec<LineMapping> = Vec::new();
    let mut current = String::new();
    let mut cur_bytes: usize = 0;
    let mut chunk_number: usize = 0;
    let mut offset: usize = 0;
    let mut cur_nonempty = false;
    let mut i: usize = 0;
    while i < lines.len()
        invariant
            i <= lines@.len(),
            model == lines@.map_values(|l: (usize, String)| (l.0 as int, l.1@)),
            ({
                let (done, cur, bytes, off, maps) = chunking(model.subrange(0, i as int));
                &&& chunks@.len() == done.len()
                &&& chunk_number == done.len()
                &&& forall|j: int| 0 <= j < chunks@.len() ==> {
                    &&& (#[trigger] chunks@[j]).content@ == done[j]
                    &&& chunks@[j].chunk_number == j
                    &&& chunks@[j].file_id == file_id
                    &&& chunks@[j].file_path@ == file_path@
                }
                &&& current@ == cur
                &&& cur_nonempty == (cur.len() > 0)
                &&& cur_bytes == (if bytes > usize::MAX { usize::MAX as int } else { bytes })
                &&& bytes >= 0
                &&& offset == off
                &&& off <= i
                &&& done.len() <= i
                &&& line_mappings@.len() == maps.len()
                &&& forall|j: int| 0 <= j < line_mappings@.len() ==> {
                    &&& (#[trigger] line_mappings@[j]).line_number == maps[j].0
                    &&& line_mappings@[j].chunk_number == maps[j].1
                    &&& line_mappings@[j].offset_in_chunk == maps[j].2
                }
            }),
        decreases lines@.len() - i,
    {
        let ghost pre = model.subrange(0, i as int);
        let ghost post = model.subrange(0, i + 1);
        assert(post.drop_last() == pre);
        let (line_num, content) = &lines[i];
        assert(post.last() == (*line_num as int, content@));
        let cbytes = content.as_str().as_bytes().len();
        let tb: usize = if cbytes == usize::MAX { usize::MAX } else { cbytes + 1 };
        let sum: usize = if cur_bytes > usize::MAX - tb { usize::MAX } else { cur_bytes + tb };
        let ghost (done, cur, bytes, off, maps) = chunking(pre);
        let ghost old_chunks = chunks@;
        let ghost old_maps = line_mappings@;
        let nonempty = cur_nonempty;
        assert((sum > CHUNK_SIZE) == (bytes + utf8_len(content@) + 1 > CHUNK_SIZE));
        if sum > CHUNK_SIZE && nonempty {
            let finished = Chunk {
                file_id,
                file_path: file_path.to_owned(),
                chunk_number,
                content: current,
            };
            chunks.push(finished);
            chunk_number = chunk_number + 1;
            current = String::new();
            cur_bytes = 0;
            offset = 0;
        }
        push_str(&mut current, content.as_str());
        push_char(&mut current, '\n');
        cur_nonempty = true;
        cur_bytes = if cur_bytes > usize::MAX - tb { usize::MAX } else { cur_bytes + tb };
        line_mappings.push(LineMapping {
            line_number: *line_num,
            chunk_number,
            offset_in_chunk: offset,
        });
        offset = offset + 1;
        i = i + 1;
        proof {
            let (d2, c2, b2, o2, m2) = chunking(post);
            assert(current@ == c2);
            assert forall|j: int| 0 <= j < line_mappings@.len() implies {
                &&& (#[trigger] line_mappings@[j]).line_number == m2[j].0
                &&& line_mappings@[j].chunk_number == m2[j].1
                &&& line_mappings@[j].offset_in_chunk == m2[j].2
            } by {
                if j < old_maps.len() {
                    assert(line_mappings@[j] == old_maps[j]);
                    assert(m2[j] == maps[j]);
                }
            }
            assert forall|j: int| 0 <= j < chunks@.len() implies {
                &&& (#[trigger] chunks@[j]).content@ == d2[j]
                &&& chunks@[j].chunk_number == j
                &&& chunks@[j].file_id == file_id
                &&& chunks@[j].file_path@ == file_path@
            } by {
                if j < old_chunks.len() {
                    assert(chunks@[j] == old_chunks[j]);
                    assert(d2[j] == done[j]);
                }
            }
        }
    }
    let ghost all = model.subrange(0, lines@.len() as int);
    assert(all == model);
    let ghost old_chunks = chunks@;
    if cur_nonempty {
        chunks.push(Chunk {
            file_id,
            file_path: file_path.to_owned(),
            chunk_number,
            content: current,
        });
    }
    proof {
        let (done, cur, bytes, off, maps) = chunking(model);
        assert forall|j: int| 0 <= j < chunks@.len() implies {
            &&& (#[trigger] chunks@[j]).content@ == chunk_contents(model)[j]
            &&& chunks@[j].chunk_number == j
            &&& chunks@[j].file_id == file_id
            &&& chunks@[j].file_path@ == file_path@
        } by {
            if j < old_chunks.len() {
                assert(chunks@[j] == old_chunks[j]);
            }
        }
    }
    ChunkResult { chunks, line_mappings }
}

/// A string has no UTF-8 bytes exactly when it has no characters.
pub proof fn lemma_utf8_len_zero(s: Seq<char>)
    ensures
        (vstd::utf8::encode_utf8(s).len() == 0) == (s.len() == 0),
{
    vstd::utf8::encode_utf8_decode_utf8(s);
    if vstd::utf8::encode_utf8(s).len() == 0 {
        assert(vstd::utf8::encode_utf8(s) =~= Seq::<u8>::empty());
    }
}


} // verus!
