//! The order of names, as `String` orders them (byte by byte; for UTF-8
//! that is the order of the characters' code points), and sorting a list
//! by the names of its items.
use vstd::prelude::*;
use crate::text::to_chars;

verus! {

/// `a` comes no later than `b`: at the first position where they differ
/// the character of `a` is the smaller, or `a` is a prefix of `b`.
pub open spec fn name_le(a: Seq<char>, b: Seq<char>) -> bool
    decreases a.len(),
{
    if a.len() == 0 {
        true
    } else if b.len() == 0 {
        false
    } else if (a[0] as u32) != (b[0] as u32) {
        (a[0] as u32) < (b[0] as u32)
    } else {
        name_le(a.drop_first(), b.drop_first())
    }
}

/// Any two names are ordered one way or the other.
pub proof fn lemma_name_le_total(a: Seq<char>, b: Seq<char>)
    ensures
        name_le(a, b) || name_le(b, a),
    decreases a.len(),
{
    if a.len() > 0 && b.len() > 0 && (a[0] as u32) == (b[0] as u32) {
        lemma_name_le_total(a.drop_first(), b.drop_first());
    }
}

/// The order is transitive.
pub proof fn lemma_name_le_trans(a: Seq<char>, b: Seq<char>, c: Seq<char>)
    requires
        name_le(a, b),
        name_le(b, c),
    ensures
        name_le(a, c),
    decreases a.len(),
{
    if a.len() > 0 && b.len() > 0 && c.len() > 0 && (a[0] as u32) == (b[0] as u32) && (b[0] as u32) == (c[0] as u32) {
        lemma_name_le_trans(a.drop_first(), b.drop_first(), c.drop_first());
    }
}

/// Whether `a` comes no later than `b` (see `name_le`).
pub fn str_le(a: &str, b: &str) -> (r: bool)
    ensures
        r == name_le(a@, b@),
{
    let x = to_chars(a);
    let y = to_chars(b);
    let mut i: usize = 0;
    assert(x@.subrange(0, x@.len() as int) =~= x@);
    assert(y@.subrange(0, y@.len() as int) =~= y@);
    while i < x.len() && i < y.len() && (x[i] as u32) == (y[i] as u32)
        invariant
            i <= x@.len(),
            i <= y@.len(),
            name_le(a@, b@) == name_le(x@.subrange(i as int, x@.len() as int), y@.subrange(i as int, y@.len() as int)),
            x@ == a@,
            y@ == b@,
        decreases x@.len() - i,
    {
        let ghost xs = x@.subrange(i as int, x@.len() as int);
        let ghost ys = y@.subrange(i as int, y@.len() as int);
        assert(xs.drop_first() =~= x@.subrange(i + 1, x@.len() as int));
        assert(ys.drop_first() =~= y@.subrange(i + 1, y@.len() as int));
        assert(xs[0] == x@[i as int] && ys[0] == y@[i as int]);
        i = i + 1;
    }
    let ghost xs = x@.subrange(i as int, x@.len() as int);
    let ghost ys = y@.subrange(i as int, y@.len() as int);
    if i == x.len() {
        true
    } else if i == y.len() {
        false
    } else {
        assert(xs[0] == x@[i as int] && ys[0] == y@[i as int]);
        (x[i] as u32) < (y[i] as u32)
    }
}

/// Items that carry a name.
pub trait Named {
    /// The item's name.
    spec fn name_of(&self) -> Seq<char>;

    /// The item's name.
    fn name(&self) -> (r: &str)
        ensures
            r@ == self.name_of();
}

impl Named for String {
    open spec fn name_of(&self) -> Seq<char> {
        self@
    }

    fn name(&self) -> (r: &str) {
        self.as_str()
    }
}

/// The items of `s` are in the order of their names.
pub open spec fn sorted_by_name<T: Named>(s: Seq<T>) -> bool {
    forall|i: int, j: int| 0 <= i < j < s.len() ==> name_le(#[trigger] s[i].name_of(), #[trigger] s[j].name_of())
}

/// The items of `v` in the order of their names (items of the same name
/// keep their order).
pub fn sort_by_name<T: Named>(v: Vec<T>) -> (r: Vec<T>)
    ensures
        sorted_by_name(r@),
        r@.to_multiset() == v@.to_multiset(),
{
    broadcast use vstd::seq_lib::group_to_multiset_ensures;
    broadcast use vstd::multiset::group_multiset_axioms;
    let ghost orig = v@;
    let mut rest = v;
    let mut out: Vec<T> = Vec::new();
    while rest.len() > 0
        invariant
            sorted_by_name(out@),
            out@.to_multiset().add(rest@.to_multiset()) == orig.to_multiset(),
        decreases rest@.len(),
    {
        let ghost rest0 = rest@;
        let x = rest.pop().unwrap();
        assert(rest0 == rest@.push(x));
        let mut j: usize = 0;
        while j < out.len() && !str_le(x.name(), out[j].name())
            invariant
                j <= out@.len(),
                forall|m: int| 0 <= m < j ==> name_le(#[trigger] out@[m].name_of(), x.name_of()),
            decreases out@.len() - j,
        {
            proof { lemma_name_le_total(x.name_of(), out@[j as int].name_of()); }
            j = j + 1;
        }
        let ghost out0 = out@;
        out.insert(j, x);
        proof {
            assert(out@ == out0.insert(j as int, x));
            assert forall|i: int, k: int| 0 <= i < k < out@.len() implies
                name_le(#[trigger] out@[i].name_of(), #[trigger] out@[k].name_of()) by {
                if k < j {
                } else if k == j {
                } else if i < j {
                    assert(out@[k] == out0[k - 1]);
                    assert(out@[i] == out0[i]);
                } else if i == j {
                    assert(out@[k] == out0[k - 1]);
                    assert(name_le(x.name_of(), out0[j as int].name_of()));
                    if k - 1 > j {
                        lemma_name_le_trans(x.name_of(), out0[j as int].name_of(), out0[k - 1].name_of());
                    }
                } else {
                    assert(out@[k] == out0[k - 1]);
                    assert(out@[i] == out0[i - 1]);
                }
            }
            vstd::seq_lib::to_multiset_insert(out0, j as int, x);
            assert(out@.to_multiset() == out0.to_multiset().insert(x));
            vstd::seq_lib::to_multiset_build(rest@, x);
            assert(rest0.to_multiset() == rest@.to_multiset().insert(x));
            assert(out@.to_multiset().add(rest@.to_multiset()) =~= out0.to_multiset().add(rest0.to_multiset()));
        }
    }
    proof {
        assert(rest@.to_multiset() =~= vstd::multiset::Multiset::empty());
        assert(out@.to_multiset().add(rest@.to_multiset()) =~= out@.to_multiset());
    }
    out
}

} // verus!
