//! The inbox as the administration pages show it: which files of a queue
//! directory are requests (`.gz`), their listing in name order, the file
//! named by a request to show one, how many content lines a request
//! carries, and which queues a clear empties.
use vstd::prelude::*;
use crate::text::{to_chars, push_str};
use crate::paths::{has_char, last_index_of, rfind_char};
use crate::order::{Named, sort_by_name, sorted_by_name};
use crate::index::IndexLine;

verus! {

/// A request file waiting in a queue directory.
pub struct InboxItem {
    pub filename: String,
    pub size_bytes: u64,
    /// Seconds since it was last modified.
    pub age_secs: u64,
}

impl Named for InboxItem {
    open spec fn name_of(&self) -> Seq<char> {
        self.filename@
    }

    fn name(&self) -> (r: &str) {
        self.filename.as_str()
    }
}

/// The file name has the extension `gz`, as `Path::extension` reads it:
/// the text after the last `.`, where that `.` does not begin the name.
pub open spec fn is_gz_spec(name: Seq<char>) -> bool {
    has_char(name, '.') && {
        let d = choose|d: int| last_index_of(name, '.', d);
        d > 0 && name.subrange(d + 1, name.len() as int) == seq!['g', 'z']
    }
}

/// Whether a file name has the extension `gz` (see `is_gz_spec`).
pub fn is_gz_file(name: &str) -> (b: bool)
    ensures
        b == is_gz_spec(name@),
{
    let v = to_chars(name);
    match rfind_char(&v, 0, v.len(), '.') {
        Some(d) => {
            proof {
                assert(last_index_of(v@, '.', d as int));
                let e = choose|e: int| last_index_of(name@, '.', e);
                assert(e == d) by {
                    if e < d { assert(v@[d as int] == '.'); }
                    if e > d { assert(v@[e] == '.'); }
                }
            }
            if d == 0 || v.len() - d != 3 || v[d + 1] != 'g' || v[d + 2] != 'z' {
                proof {
                    let sub = v@.subrange(d + 1, v@.len() as int);
                    if d > 0 && sub == seq!['g', 'z'] {
                        assert(sub.len() == 2);
                        assert(sub[0] == v@[d + 1]);
                        assert(sub[1] == v@[d + 2]);
                    }
                }
                false
            } else {
                assert(v@.subrange(d + 1, v@.len() as int) =~= seq!['g', 'z']);
                true
            }
        },
        None => {
            assert(!has_char(name@, '.'));
            false
        },
    }
}

/// The request files among `s`, in order.
pub open spec fn gz_items(s: Seq<InboxItem>) -> Seq<InboxItem>
    decreases s.len(),
{
    if s.len() == 0 {
        s
    } else if is_gz_spec(s.last().filename@) {
        gz_items(s.drop_last()).push(s.last())
    } else {
        gz_items(s.drop_last())
    }
}

/// The listing of a queue directory: its request files in name order.
pub fn inbox_listing(entries: Vec<InboxItem>) -> (r: Vec<InboxItem>)
    ensures
        sorted_by_name(r@),
        r@.to_multiset() == gz_items(entries@).to_multiset(),
{
    let ghost orig = entries@;
    let mut kept: Vec<InboxItem> = Vec::new();
    let mut rest = entries;
    let mut i: usize = 0;
    let n = rest.len();
    while i < n
        invariant
            n == orig.len(),
            i <= n,
            rest@ == orig.subrange(i as int, n as int),
            kept@ == gz_items(orig.subrange(0, i as int)),
        decreases n - i,
    {
        let item = rest.remove(0);
        let ghost before = orig.subrange(0, i as int);
        let ghost after = orig.subrange(0, i + 1);
        assert(after.drop_last() =~= before);
        assert(after.last() == item);
        if is_gz_file(item.filename.as_str()) {
            kept.push(item);
        }
        i = i + 1;
        assert(rest@ =~= orig.subrange(i as int, n as int));
    }
    assert(orig.subrange(0, n as int) =~= orig);
    sort_by_name(kept)
}

/// The file a request to show `name` opens: the name itself when it ends
/// in `.gz`, else the name with `.gz` added.
pub open spec fn shown_file_spec(name: Seq<char>) -> Seq<char> {
    if name.len() >= 3 && name.subrange(name.len() - 3, name.len() as int) == seq!['.', 'g', 'z'] {
        name
    } else {
        name + seq!['.', 'g', 'z']
    }
}

/// The file a request to show `name` opens (see `shown_file_spec`).
pub fn shown_file_name(name: &str) -> (r: String)
    ensures
        r@ == shown_file_spec(name@),
{
    let v = to_chars(name);
    let n = v.len();
    let mut s = name.to_owned();
    if n >= 3 && v[n - 3] == '.' && v[n - 2] == 'g' && v[n - 1] == 'z' {
        assert(v@.subrange(n - 3, n as int) =~= seq!['.', 'g', 'z']);
        s
    } else {
        proof {
            if n >= 3 && v@.subrange(n - 3, n as int) == seq!['.', 'g', 'z'] {
                assert(v@.subrange(n - 3, n as int)[0] == v@[n - 3]);
                assert(v@.subrange(n - 3, n as int)[1] == v@[n - 2]);
                assert(v@.subrange(n - 3, n as int)[2] == v@[n - 1]);
            }
        }
        push_str(&mut s, ".gz");
        proof { reveal_strlit(".gz"); }
        assert(s@ =~= name@ + seq!['.', 'g', 'z']);
        s
    }
}

/// The number of content lines (not numbered 0) among `s`.
pub open spec fn content_line_count_spec(s: Seq<IndexLine>) -> nat
    decreases s.len(),
{
    if s.len() == 0 {
        0
    } else {
        content_line_count_spec(s.drop_last()) + if s.last().line_number != 0 { 1nat } else { 0nat }
    }
}

/// How many content lines (not numbered 0) a file of a request carries.
pub fn content_line_count(lines: &Vec<IndexLine>) -> (r: usize)
    ensures
        r == content_line_count_spec(lines@),
{
    let mut c: usize = 0;
    let mut i: usize = 0;
    while i < lines.len()
        invariant
            i <= lines@.len(),
            c == content_line_count_spec(lines@.subrange(0, i as int)),
            c <= i,
        decreases lines@.len() - i,
    {
        assert(lines@.subrange(0, i + 1).drop_last() =~= lines@.subrange(0, i as int));
        if lines[i].line_number != 0 {
            c = c + 1;
        }
        i = i + 1;
    }
    assert(lines@.subrange(0, lines@.len() as int) =~= lines@);
    c
}

/// Which queues a clear of `target` empties: (pending, failed). `failed`
/// empties the failed queue, `all` both, anything else the pending queue.
pub fn clear_targets(target: &str) -> (r: (bool, bool))
    ensures
        r == (if target@ == "failed"@ { (false, true) } else if target@ == "all"@ { (true, true) } else { (true, false) }),
{
    if crate::paths::str_eq(target, "failed") {
        (false, true)
    } else if crate::paths::str_eq(target, "all") {
        (true, true)
    } else {
        (true, false)
    }
}

} // verus!
