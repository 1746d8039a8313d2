//! The inbox queue: which queued requests are handed to the indexing
//! worker and in what order, which are archived in one batch, and what
//! becomes of a request once the worker is done with it.
use vstd::prelude::*;
use crate::paths::str_eq;
use crate::text::{push_str, push_decimal, decimal_digits};
use crate::wrap::views;

verus! {

/// A queued request file: its age key (modification time, in nanoseconds
/// since the epoch) and its path.
pub type QueuedFile = (u128, String);

/// Oldest first: keys never decrease along `s`.
pub open spec fn oldest_first(s: Seq<QueuedFile>) -> bool {
    forall|i: int, j: int| 0 <= i < j < s.len() ==> (#[trigger] s[i]).0 <= (#[trigger] s[j]).0
}

/// `idx` places each entry of `r` at a distinct position of `s`, and
/// entries of equal age keep the order they had in `s`.
pub open spec fn stable_placement(s: Seq<QueuedFile>, r: Seq<QueuedFile>, idx: Seq<int>) -> bool {
    &&& idx.len() == r.len()
    &&& forall|k: int| 0 <= k < r.len() ==> 0 <= #[trigger] idx[k] < s.len() && r[k] == s[idx[k]]
    &&& forall|a: int, b: int| 0 <= a < b < r.len() ==> #[trigger] idx[a] != #[trigger] idx[b]
    &&& forall|a: int, b: int| 0 <= a < b < r.len() && (#[trigger] r[a]).0 == (#[trigger] r[b]).0 ==> idx[a] < idx[b]
}

/// Sorts queued files oldest first; files of equal age keep their order
/// (a stable sort).
pub fn sort_by_age(files: Vec<QueuedFile>) -> (r: Vec<QueuedFile>)
    ensures
        oldest_first(r@),
        r@.to_multiset() == files@.to_multiset(),
        exists|idx: Seq<int>| #[trigger] stable_placement(files@, r@, idx),
{
    broadcast use vstd::seq_lib::group_to_multiset_ensures;
    let ghost orig = files@;
    let mut rest = files;
    let mut sorted: Vec<QueuedFile> = Vec::new();
    let ghost mut idx: Seq<int> = Seq::empty();
    while rest.len() > 0
        invariant
            rest@ == orig.subrange(0, rest@.len() as int),
            rest@.len() <= orig.len(),
            oldest_first(sorted@),
            sorted@.to_multiset() == orig.subrange(rest@.len() as int, orig.len() as int).to_multiset(),
            stable_placement(orig, sorted@, idx),
            forall|k: int| 0 <= k < idx.len() ==> #[trigger] idx[k] >= rest@.len(),
        decreases rest@.len(),
    {
        let ghost n = rest@.len() as int;
        let x = rest.pop().unwrap();
        assert(x == orig[n - 1]);
        let mut j: usize = 0;
        while j < sorted.len() && sorted[j].0 < x.0
            invariant
                j <= sorted@.len(),
                forall|m: int| 0 <= m < j ==> (#[trigger] sorted@[m]).0 < x.0,
            decreases sorted@.len() - j,
        {
            j = j + 1;
        }
        let ghost old_sorted = sorted@;
        let ghost old_idx = idx;
        sorted.insert(j, x);
        proof {
            idx = old_idx.insert(j as int, n - 1);
            let s = sorted@;
            assert forall|a: int, b: int| 0 <= a < b < s.len() implies (#[trigger] s[a]).0 <= (#[trigger] s[b]).0 by {
                if b < j {
                    assert(s[a] == old_sorted[a] && s[b] == old_sorted[b]);
                } else if b == j {
                    assert(s[a] == old_sorted[a]);
                } else if a == j {
                    assert(s[b] == old_sorted[b - 1]);
                    if j < old_sorted.len() {
                        assert(old_sorted[j as int].0 >= x.0);
                        assert(old_sorted[j as int].0 <= old_sorted[b - 1].0 || b - 1 == j);
                    }
                } else if a < j {
                    assert(s[a] == old_sorted[a] && s[b] == old_sorted[b - 1]);
                } else {
                    assert(s[a] == old_sorted[a - 1] && s[b] == old_sorted[b - 1]);
                }
            }
            assert forall|k: int| 0 <= k < s.len() implies 0 <= #[trigger] idx[k] < orig.len() && s[k] == orig[idx[k]] by {
                if k < j { assert(idx[k] == old_idx[k] && s[k] == old_sorted[k]); }
                else if k > j { assert(idx[k] == old_idx[k - 1] && s[k] == old_sorted[k - 1]); }
            }
            assert forall|k: int| 0 <= k < idx.len() implies #[trigger] idx[k] >= n - 1 by {
                if k < j { assert(idx[k] == old_idx[k]); }
                else if k > j { assert(idx[k] == old_idx[k - 1]); }
            }
            assert forall|a: int, b: int| 0 <= a < b < s.len() implies #[trigger] idx[a] != #[trigger] idx[b] by {
                if a == j { assert(idx[b] == old_idx[b - 1]); }
                else if b == j { assert(idx[a] == old_idx[a]); }
                else if b < j { assert(idx[a] == old_idx[a] && idx[b] == old_idx[b]); }
                else if a < j { assert(idx[a] == old_idx[a] && idx[b] == old_idx[b - 1]); }
                else { assert(idx[a] == old_idx[a - 1] && idx[b] == old_idx[b - 1]); }
            }
            assert forall|a: int, b: int| 0 <= a < b < s.len() && (#[trigger] s[a]).0 == (#[trigger] s[b]).0 implies idx[a] < idx[b] by {
                if a == j {
                    assert(idx[b] == old_idx[b - 1]);
                } else if b == j {
                    assert(s[a] == old_sorted[a]);
                    assert(old_sorted[a].0 < x.0);
                } else if b < j {
                    assert(idx[a] == old_idx[a] && idx[b] == old_idx[b]);
                    assert(s[a] == old_sorted[a] && s[b] == old_sorted[b]);
                } else if a < j {
                    assert(idx[a] == old_idx[a] && idx[b] == old_idx[b - 1]);
                    assert(s[a] == old_sorted[a] && s[b] == old_sorted[b - 1]);
                } else {
                    assert(idx[a] == old_idx[a - 1] && idx[b] == old_idx[b - 1]);
                    assert(s[a] == old_sorted[a - 1] && s[b] == old_sorted[b - 1]);
                }
            }
            vstd::seq_lib::to_multiset_insert(old_sorted, j as int, x);
            let tail = orig.subrange(n - 1, orig.len() as int);
            assert(tail =~= orig.subrange(n, orig.len() as int).insert(0, x));
            vstd::seq_lib::to_multiset_insert(orig.subrange(n, orig.len() as int), 0, x);
        }
        assert(rest@ =~= orig.subrange(0, rest@.len() as int));
    }
    assert(orig.subrange(0, orig.len() as int) =~= orig);
    assert(stable_placement(orig, sorted@, idx));
    sorted
}

/// Whether `path` is among `paths`.
fn path_listed(paths: &Vec<String>, path: &str) -> (b: bool)
    ensures
        b == views(paths@).contains(path@),
{
    let mut i: usize = 0;
    while i < paths.len()
        invariant
            i <= paths@.len(),
            forall|k: int| 0 <= k < i ==> views(paths@)[k] != path@,
        decreases paths@.len() - i,
    {
        if str_eq(paths[i].as_str(), path) {
            assert(views(paths@)[i as int] == path@);
            return true;
        }
        assert(views(paths@)[i as int] == paths@[i as int]@);
        i = i + 1;
    }
    false
}

/// The paths of `s` not listed in `busy`, in order.
pub open spec fn not_busy(s: Seq<QueuedFile>, busy: Seq<Seq<char>>) -> Seq<Seq<char>>
    decreases s.len(),
{
    if s.len() == 0 {
        Seq::empty()
    } else if busy.contains(s.last().1@) {
        not_busy(s.drop_last(), busy)
    } else {
        not_busy(s.drop_last(), busy).push(s.last().1@)
    }
}

/// The requests to offer the worker, in order: none while the inbox is
/// paused; otherwise the queued files (sorted oldest first) that the
/// worker does not already have.
pub fn dispatch_order(sorted: &Vec<QueuedFile>, in_flight: &Vec<String>, paused: bool) -> (r: Vec<String>)
    ensures
        views(r@) == (if paused { Seq::empty() } else { not_busy(sorted@, views(in_flight@)) }),
{
    let mut out: Vec<String> = Vec::new();
    if paused {
        assert(views(out@) =~= Seq::<Seq<char>>::empty());
        return out;
    }
    let mut i: usize = 0;
    assert(views(out@) =~= Seq::<Seq<char>>::empty());
    while i < sorted.len()
        invariant
            i <= sorted@.len(),
            views(out@) == not_busy(sorted@.subrange(0, i as int), views(in_flight@)),
        decreases sorted@.len() - i,
    {
        assert(sorted@.subrange(0, i + 1).drop_last() =~= sorted@.subrange(0, i as int));
        let p = sorted[i].1.as_str();
        if !path_listed(in_flight, p) {
            let ghost old_out = out@;
            out.push(p.to_owned());
            assert(views(out@) =~= views(old_out).push(p@));
        }
        i = i + 1;
    }
    assert(sorted@.subrange(0, sorted@.len() as int) =~= sorted@);
    out
}

/// The requests archived in one batch: the oldest `batch_size` of the
/// sorted queue.
pub fn archive_batch(sorted: &Vec<QueuedFile>, batch_size: usize) -> (r: Vec<String>)
    ensures
        r@.len() == (if sorted@.len() < batch_size { sorted@.len() as int } else { batch_size as int }),
        forall|k: int| 0 <= k < r@.len() ==> (#[trigger] r@[k]) == sorted@[k].1,
{
    let n = if sorted.len() < batch_size { sorted.len() } else { batch_size };
    let mut out: Vec<String> = Vec::new();
    let mut k: usize = 0;
    while k < n
        invariant
            n <= sorted@.len(),
            k <= n,
            out@.len() == k,
            forall|j: int| 0 <= j < k ==> (#[trigger] out@[j]) == sorted@[j].1,
        decreases n - k,
    {
        out.push(sorted[k].1.clone());
        k = k + 1;
    }
    out
}

/// Whether the archive queue is drained: the last batch was not full.
pub fn queue_drained(processed: usize, batch_size: usize) -> (b: bool)
    ensures
        b == (processed < batch_size),
{
    processed < batch_size
}

/// How processing a request ended.
pub enum RequestOutcome {
    /// It ran past the time limit.
    TimedOut,
    /// It was indexed.
    Indexed,
    /// It failed; `locked` when the database was busy or locked.
    Failed { locked: bool, message: String },
    /// The task running it failed.
    TaskFailed { message: String },
}

/// What becomes of a request file.
pub enum RequestAction {
    /// Moved on to the archive queue.
    QueueForArchive,
    /// Left in the inbox to be tried again.
    RetryLater,
    /// Moved to the failed folder, with the reason.
    MoveToFailed(String),
}

/// `Processing timed out after <secs>s`
pub open spec fn timeout_reason(secs: u64) -> Seq<char> {
    "Processing timed out after "@ + decimal_digits(secs as nat) + seq!['s']
}

/// `Task error: <message>`
pub open spec fn task_error_reason(m: Seq<char>) -> Seq<char> {
    "Task error: "@ + m
}

/// Decides what becomes of a request after processing (`timeout_secs` is
/// the time limit): indexed requests go to the archive queue, requests
/// that met a busy database stay for a retry, anything else fails with its
/// reason.
pub fn request_action(outcome: RequestOutcome, timeout_secs: u64) -> (r: RequestAction)
    ensures
        match outcome {
            RequestOutcome::TimedOut => r matches RequestAction::MoveToFailed(m) && m@ == timeout_reason(timeout_secs),
            RequestOutcome::Indexed => r is QueueForArchive,
            RequestOutcome::Failed { locked, message } =>
                if locked { r is RetryLater } else { r matches RequestAction::MoveToFailed(m) && m == message },
            RequestOutcome::TaskFailed { message } => r matches RequestAction::MoveToFailed(m) && m@ == task_error_reason(message@),
        },
{
    match outcome {
        RequestOutcome::TimedOut => {
            let mut m = "Processing timed out after ".to_owned();
            push_decimal(&mut m, timeout_secs);
            push_str(&mut m, "s");
            proof { reveal_strlit("s"); }
            assert(m@ =~= timeout_reason(timeout_secs));
            RequestAction::MoveToFailed(m)
        },
        RequestOutcome::Indexed => RequestAction::QueueForArchive,
        RequestOutcome::Failed { locked, message } => {
            if locked { RequestAction::RetryLater } else { RequestAction::MoveToFailed(message) }
        },
        RequestOutcome::TaskFailed { message } => {
            let mut m = "Task error: ".to_owned();
            push_str(&mut m, message.as_str());
            RequestAction::MoveToFailed(m)
        },
    }
}

} // verus!
