//! Search requests: the query parameters, the full-text match expression
//! built from a query, and the literal terms of a regular expression used
//! to pre-filter candidates.
use vstd::prelude::*;
use crate::text::{to_chars, push_char, push_chars, push_str, string_from_chars, parse_usize, parse_usize_spec, parse_i64, parse_i64_spec};
use crate::wrap::views;
use crate::text::{push_decimal, decimal_digits};

verus! {

// ── Full-text match expressions ──────────────────────────────────────────────

/// Whether `char::is_alphanumeric` holds of `c` (Unicode Alphabetic or
/// Numeric).
pub uninterp spec fn is_alnum(c: char) -> bool;

/// `char::is_alphanumeric`.
/// Trusted: the result is the named `is_alnum(c)`; of an ASCII character it
/// holds exactly for the letters and digits. The Unicode tables beyond ASCII
/// are left unsaid.
#[verifier::external_body]
fn char_is_alphanumeric(c: char) -> (b: bool)
    ensures
        b == is_alnum(c),
        (c as u32) < 128 ==> (b <==> ('a' <= c && c <= 'z') || ('A' <= c && c <= 'Z') || ('0' <= c && c <= '9')),
{
    c.is_alphanumeric()
}

/// Whether `c` separates search terms: anything but a letter, digit or `_`.
pub open spec fn is_term_sep(c: char) -> bool {
    !is_alnum(c) && c != '_'
}

/// The pieces of `s` between separators (`str::split` with a predicate).
pub open spec fn split_terms(s: Seq<char>) -> Seq<Seq<char>>
    decreases s.len(),
{
    if s.len() == 0 {
        seq![Seq::empty()]
    } else {
        let parts = split_terms(s.drop_last());
        if is_term_sep(s.last()) {
            parts.push(Seq::empty())
        } else {
            parts.update(parts.len() - 1, parts.last().push(s.last()))
        }
    }
}

/// The pieces with at least three UTF-8 bytes, in order.
pub open spec fn long_terms(ps: Seq<Seq<char>>) -> Seq<Seq<char>>
    decreases ps.len(),
{
    if ps.len() == 0 {
        ps
    } else if crate::archive::utf8_len(ps.last()) >= 3 {
        long_terms(ps.drop_last()).push(ps.last())
    } else {
        long_terms(ps.drop_last())
    }
}

/// Terms joined with ` AND `.
pub open spec fn join_and(ts: Seq<Seq<char>>) -> Seq<char>
    decreases ts.len(),
{
    if ts.len() == 0 {
        Seq::empty()
    } else if ts.len() == 1 {
        ts[0]
    } else {
        join_and(ts.drop_last()) + seq![' ', 'A', 'N', 'D', ' '] + ts.last()
    }
}

/// `s` with every `"` doubled.
pub open spec fn double_quotes(s: Seq<char>) -> Seq<char>
    decreases s.len(),
{
    if s.len() == 0 {
        s
    } else if s.last() == '"' {
        double_quotes(s.drop_last()) + seq!['"', '"']
    } else {
        double_quotes(s.drop_last()).push(s.last())
    }
}

/// The match expression for a query: a phrase query of at least three
/// bytes becomes one quoted phrase (inner quotes doubled); otherwise the
/// terms of at least three bytes, split at every character that is not a
/// letter, digit or `_`, are joined with ` AND `. None when nothing is left.
pub open spec fn build_fts_query_spec(query: Seq<char>, phrase: bool) -> Option<Seq<char>> {
    if phrase {
        if crate::archive::utf8_len(query) < 3 {
            None
        } else {
            Some(seq!['"'] + double_quotes(query) + seq!['"'])
        }
    } else {
        let ts = long_terms(split_terms(query));
        if ts.len() == 0 { None } else { Some(join_and(ts)) }
    }
}

/// The number of UTF-8 bytes of `s`.
pub(crate) fn byte_len(s: &str) -> (n: usize)
    ensures
        n == crate::archive::utf8_len(s@),
{
    s.as_bytes().len()
}

/// Builds the full-text match expression for a query.
pub fn build_fts_query(query: &str, phrase: bool) -> (r: Option<String>)
    ensures
        match r {
            Some(s) => build_fts_query_spec(query@, phrase) == Some(s@),
            None => build_fts_query_spec(query@, phrase) is None,
        },
{
    let v = to_chars(query);
    if phrase {
        if byte_len(query) < 3 {
            return None;
        }
        let mut s = String::new();
        push_char(&mut s, '"');
        let mut i: usize = 0;
        while i < v.len()
            invariant
                i <= v@.len(),
                v@ == query@,
                s@ == seq!['"'] + double_quotes(v@.subrange(0, i as int)),
            decreases v@.len() - i,
        {
            assert(v@.subrange(0, i + 1).drop_last() == v@.subrange(0, i as int));
            if v[i] == '"' {
                push_char(&mut s, '"');
                push_char(&mut s, '"');
            } else {
                push_char(&mut s, v[i]);
            }
            i = i + 1;
            assert(s@ =~= seq!['"'] + double_quotes(v@.subrange(0, i as int)));
        }
        assert(v@.subrange(0, v@.len() as int) == v@);
        push_char(&mut s, '"');
        assert(s@ =~= seq!['"'] + double_quotes(query@) + seq!['"']);
        return Some(s);
    }
    // Split into pieces, keep the long ones.
    let mut terms: Vec<String> = Vec::new();
    let mut current = String::new();
    let mut i: usize = 0;
    while i < v.len()
        invariant
            i <= v@.len(),
            v@ == query@,
            ({
                let parts = split_terms(v@.subrange(0, i as int));
                &&& current@ == parts.last()
                &&& views(terms@) == long_terms(parts.drop_last())
            }),
        decreases v@.len() - i,
    {
        let ghost pre = v@.subrange(0, i as int);
        let ghost post = v@.subrange(0, i + 1);
        assert(post.drop_last() == pre);
        let c = v[i];
        proof { lemma_split_terms_nonempty(pre); }
        if !char_is_alphanumeric(c) && c != '_' {
            let piece = current;
            current = String::new();
            let ghost old_terms = terms@;
            if byte_len(piece.as_str()) >= 3 {
                terms.push(piece);
                assert(views(terms@) =~= views(old_terms).push(split_terms(pre).last()));
            }
            assert(split_terms(post).drop_last() =~= split_terms(pre));
        } else {
            push_char(&mut current, c);
            assert(split_terms(post).drop_last() =~= split_terms(pre).drop_last());
        }
        i = i + 1;
    }
    assert(v@.subrange(0, v@.len() as int) == v@);
    proof { lemma_split_terms_nonempty(v@); }
    let ghost parts = split_terms(v@);
    let ghost old_terms = terms@;
    if byte_len(current.as_str()) >= 3 {
        terms.push(current);
        assert(views(terms@) =~= views(old_terms).push(parts.last()));
    }
    assert(parts.drop_last().push(parts.last()) =~= parts);
    assert(views(terms@) == long_terms(parts));
    if terms.len() == 0 {
        return None;
    }
    let mut s = String::new();
    let mut k: usize = 0;
    while k < terms.len()
        invariant
            k <= terms@.len(),
            terms@.len() > 0,
            s@ == join_and(views(terms@).subrange(0, k as int)),
        decreases terms@.len() - k,
    {
        let ghost ts = views(terms@);
        assert(ts.subrange(0, k + 1).drop_last() == ts.subrange(0, k as int));
        assert(ts.subrange(0, k + 1).last() == terms@[k as int]@);
        if k > 0 {
            push_char(&mut s, ' ');
            push_char(&mut s, 'A');
            push_char(&mut s, 'N');
            push_char(&mut s, 'D');
            push_char(&mut s, ' ');
        } else {
            assert(ts.subrange(0, 1)[0] == terms@[0]@);
        }
        push_str(&mut s, terms[k].as_str());
        k = k + 1;
        assert(s@ =~= join_and(ts.subrange(0, k as int)));
    }
    assert(views(terms@).subrange(0, terms@.len() as int) == views(terms@));
    Some(s)
}

/// `split_terms` never gives an empty list of pieces.
pub proof fn lemma_split_terms_nonempty(s: Seq<char>)
    ensures
        split_terms(s).len() >= 1,
    decreases s.len(),
{
    if s.len() > 0 {
        lemma_split_terms_nonempty(s.drop_last());
    }
}

// ── Literal terms of a regular expression ────────────────────────────────────

/// The characters with a special meaning in a regular expression.
pub open spec fn is_regex_special(c: char) -> bool {
    c == '^' || c == '$' || c == '.' || c == '*' || c == '+' || c == '?' || c == '|'
        || c == '(' || c == ')' || c == '[' || c == ']' || c == '{' || c == '}'
}

/// The literal runs of a regular expression, scanning from position `i`
/// with the run `cur` in progress and the runs `done` found so far: special
/// characters end a run, a backslash ends a run and skips the next
/// character.
pub open spec fn regex_runs(p: Seq<char>, i: int, cur: Seq<char>, done: Seq<Seq<char>>) -> Seq<Seq<char>>
    decreases p.len() + 1 - i,
{
    if i >= p.len() {
        if cur.len() > 0 { done.push(cur) } else { done }
    } else {
        let c = p[i];
        let flushed = if cur.len() > 0 { done.push(cur) } else { done };
        if c == '\\' {
            regex_runs(p, i + 2, Seq::empty(), flushed)
        } else if is_regex_special(c) {
            regex_runs(p, i + 1, Seq::empty(), flushed)
        } else {
            regex_runs(p, i + 1, cur.push(c), done)
        }
    }
}

/// Runs joined with single spaces.
pub open spec fn join_spaces(ts: Seq<Seq<char>>) -> Seq<char>
    decreases ts.len(),
{
    if ts.len() == 0 {
        Seq::empty()
    } else if ts.len() == 1 {
        ts[0]
    } else {
        join_spaces(ts.drop_last()) + seq![' '] + ts.last()
    }
}

/// Extracts the literal runs of a regular expression, joined with spaces,
/// to use as full-text pre-filter terms.
pub fn regex_to_fts_terms(pattern: &str) -> (r: String)
    ensures
        r@ == join_spaces(regex_runs(pattern@, 0, Seq::empty(), Seq::empty())),
{
    let v = to_chars(pattern);
    let mut terms: Vec<String> = Vec::new();
    let mut current = String::new();
    let mut i: usize = 0;
    assert(views(terms@) =~= Seq::<Seq<char>>::empty());
    while i < v.len()
        invariant
            i <= v@.len(),
            v@ == pattern@,
            regex_runs(v@, 0, Seq::empty(), Seq::empty())
                == regex_runs(v@, i as int, current@, views(terms@)),
        decreases v@.len() - i,
    {
        let c = v[i];
        if c == '\\' || is_special(c) {
            let ghost old_terms = terms@;
            let piece = current;
            current = String::new();
            if !piece.as_str().is_empty() {
                terms.push(piece);
                assert(views(terms@) =~= views(old_terms).push(piece@));
            } else {
                assert(views(terms@) =~= views(old_terms));
            }
            if c == '\\' {
                if i + 1 < v.len() {
                    i = i + 2;
                } else {
                    assert(regex_runs(v@, i + 2, current@, views(terms@))
                        == regex_runs(v@, v@.len() as int, current@, views(terms@)));
                    i = v.len();
                }
            } else {
                i = i + 1;
            }
        } else {
            push_char(&mut current, c);
            i = i + 1;
        }
    }
    let ghost old_terms = terms@;
    if !current.as_str().is_empty() {
        terms.push(current);
        assert(views(terms@) =~= views(old_terms).push(current@));
    }
    let mut s = String::new();
    let mut k: usize = 0;
    while k < terms.len()
        invariant
            k <= terms@.len(),
            s@ == join_spaces(views(terms@).subrange(0, k as int)),
        decreases terms@.len() - k,
    {
        let ghost ts = views(terms@);
        assert(ts.subrange(0, k + 1).drop_last() == ts.subrange(0, k as int));
        assert(ts.subrange(0, k + 1).last() == terms@[k as int]@);
        if k > 0 {
            push_char(&mut s, ' ');
        } else {
            assert(ts.subrange(0, 1)[0] == terms@[0]@);
        }
        push_str(&mut s, terms[k].as_str());
        k = k + 1;
        assert(s@ =~= join_spaces(ts.subrange(0, k as int)));
    }
    assert(views(terms@).subrange(0, terms@.len() as int) == views(terms@));
    s
}

/// Whether `c` is a special character of a regular expression (exec).
fn is_special(c: char) -> (b: bool)
    ensures
        b == is_regex_special(c),
{
    c == '^' || c == '$' || c == '.' || c == '*' || c == '+' || c == '?' || c == '|'
        || c == '(' || c == ')' || c == '[' || c == ']' || c == '{' || c == '}'
}

// ── Result filters ───────────────────────────────────────────────────────────

/// The filters of a search: a modification-time range, the kinds to keep,
/// file names only, and a path prefix.
pub struct DateFilter {
    pub from: Option<i64>,
    pub to: Option<i64>,
    /// Kinds to keep; empty keeps every kind.
    pub kinds: Vec<String>,
    /// Only file-name rows (line 0).
    pub filename_only: bool,
    /// Only paths equal to this prefix or below it (`<prefix>/...`).
    pub path_prefix: Option<String>,
}

impl DateFilter {
    /// Whether a time, kind or path filter is set (file names only does
    /// not count).
    pub fn is_active(&self) -> (b: bool)
        ensures
            b == (self.from is Some || self.to is Some || self.kinds@.len() > 0 || self.path_prefix is Some),
    {
        self.from.is_some() || self.to.is_some() || !self.kinds.is_empty() || self.path_prefix.is_some()
    }
}

// ── Query parameters ─────────────────────────────────────────────────────────

/// A value bound to a query placeholder.
pub enum SqlValue {
    Integer(i64),
    Text(String),
    Null,
}

/// The model of a bound value.
pub enum ParamView {
    Integer(i64),
    Text(Seq<char>),
    Null,
}

/// The model of a bound value: its text as characters.
pub open spec fn param_view(v: SqlValue) -> ParamView {
    match v {
        SqlValue::Integer(i) => ParamView::Integer(i),
        SqlValue::Text(s) => ParamView::Text(s@),
        SqlValue::Null => ParamView::Null,
    }
}

/// The models of bound values.
pub open spec fn param_views(ps: Seq<SqlValue>) -> Seq<ParamView> {
    ps.map_values(|v: SqlValue| param_view(v))
}

/// Collects the values of a query and numbers their placeholders
/// `?1`, `?2`, ... in the order they are added.
pub struct ParamBinder {
    pub params: Vec<SqlValue>,
}

/// The placeholder of the `n`-th value: `?n`.
pub open spec fn placeholder(n: nat) -> Seq<char> {
    seq!['?'] + decimal_digits(n)
}

impl ParamBinder {
    /// A binder with no values.
    pub fn new() -> (r: Self)
        ensures
            r.params@.len() == 0,
    {
        ParamBinder { params: Vec::new() }
    }

    /// Adds a value and returns its placeholder.
    pub fn push(&mut self, v: SqlValue) -> (r: String)
        ensures
            final(self).params@ == old(self).params@.push(v),
            r@ == placeholder(final(self).params@.len()),
    {
        self.params.push(v);
        let mut s = String::new();
        push_char(&mut s, '?');
        push_decimal(&mut s, self.params.len() as u64);
        s
    }

    /// The values, in placeholder order.
    pub fn as_refs(&self) -> (r: &Vec<SqlValue>)
        ensures
            r@ == self.params@,
    {
        &self.params
    }
}

} // verus!
