//! Word wrapping of extracted text: splitting into lines, splitting lines
//! into words, and packing words into lines of bounded length, hard-splitting
//! words that are longer than a line.
use vstd::prelude::*;
use crate::text::{is_ws, char_is_whitespace, split_on, split_ranges, lemma_split_on_nonempty, string_from_chars, to_chars, push_chars, push_char};

verus! {

// ── Lines ────────────────────────────────────────────────────────────────────

/// `s` without one trailing carriage return.
pub open spec fn strip_cr(s: Seq<char>) -> Seq<char> {
    if s.len() > 0 && s.last() == '\r' { s.drop_last() } else { s }
}

/// The lines of `t` as `str::lines` gives them: split at `\n`, a final
/// line ending does not start an empty line, and a `\r` before a `\n` is
/// dropped.
pub open spec fn lines_of(t: Seq<char>) -> Seq<Seq<char>> {
    let p = split_on(t, '\n');
    let k = if t.len() == 0 || t.last() == '\n' { p.len() - 1 } else { p.len() as int };
    Seq::new(k as nat, |i: int| if i < p.len() - 1 { strip_cr(p[i]) } else { p[i] })
}

/// The last piece of `split_on` is empty exactly when the text is empty or
/// ends with the separator.
proof fn lemma_split_last(s: Seq<char>, c: char)
    ensures
        split_on(s, c).len() >= 1,
        (s.len() == 0 || s.last() == c) ==> split_on(s, c).last().len() == 0,
    decreases s.len(),
{
    lemma_split_on_nonempty(s, c);
    if s.len() > 0 {
        lemma_split_on_nonempty(s.drop_last(), c);
    }
}

/// The bounds of the lines of `v` (see `lines_of`).
pub fn line_ranges(v: &Vec<char>) -> (r: Vec<(usize, usize)>)
    ensures
        r@.len() == lines_of(v@).len(),
        forall|i: int| 0 <= i < r@.len() ==> {
            &&& (#[trigger] r@[i]).0 <= r@[i].1 <= v@.len()
            &&& v@.subrange(r@[i].0 as int, r@[i].1 as int) == lines_of(v@)[i]
        },
{
    let parts = split_ranges(v, 0, v.len(), '\n');
    let ghost p = split_on(v@, '\n');
    assert(v@.subrange(0, v@.len() as int) == v@);
    proof { lemma_split_last(v@, '\n'); }
    let k = if v.len() == 0 || v[v.len() - 1] == '\n' { parts.len() - 1 } else { parts.len() };
    let mut r: Vec<(usize, usize)> = Vec::new();
    let mut i: usize = 0;
    while i < k
        invariant
            k <= parts@.len(),
            parts@.len() == p.len(),
            p == split_on(v@, '\n'),
            k == lines_of(v@).len(),
            i <= k,
            r@.len() == i,
            forall|q: int| 0 <= q < parts@.len() ==> {
                &&& 0 <= (#[trigger] parts@[q]).0 <= parts@[q].1 <= v@.len()
                &&& v@.subrange(parts@[q].0 as int, parts@[q].1 as int) == p[q]
            },
            forall|q: int| 0 <= q < i ==> {
                &&& (#[trigger] r@[q]).0 <= r@[q].1 <= v@.len()
                &&& v@.subrange(r@[q].0 as int, r@[q].1 as int) == lines_of(v@)[q]
            },
        decreases k - i,
    {
        let (a, b) = parts[i];
        let ghost old_r = r@;
        if i + 1 < parts.len() && b > a && v[b - 1] == '\r' {
            r.push((a, b - 1));
            assert(v@.subrange(a as int, b - 1) == p[i as int].drop_last());
        } else {
            r.push((a, b));
        }
        proof {
            assert forall|q: int| 0 <= q < i + 1 implies {
                &&& (#[trigger] r@[q]).0 <= r@[q].1 <= v@.len()
                &&& v@.subrange(r@[q].0 as int, r@[q].1 as int) == lines_of(v@)[q]
            } by {
                if q < i { assert(r@[q] == old_r[q]); }
            }
        }
        i = i + 1;
    }
    r
}

// ── Words ────────────────────────────────────────────────────────────────────

/// The whitespace-separated words of `s` (`str::split_whitespace`).
pub open spec fn words_of(s: Seq<char>) -> Seq<Seq<char>>
    decreases s.len(),
{
    if s.len() == 0 {
        Seq::empty()
    } else {
        let w = words_of(s.drop_last());
        let c = s.last();
        if is_ws(c) {
            w
        } else if s.len() >= 2 && !is_ws(s[s.len() - 2]) {
            w.update(w.len() - 1, w.last().push(c))
        } else {
            w.push(seq![c])
        }
    }
}

/// Every word is non-empty and holds no whitespace; a text ending in a
/// non-whitespace character has at least one word.
pub proof fn lemma_words_shape(s: Seq<char>)
    ensures
        forall|i: int| 0 <= i < words_of(s).len() ==> (#[trigger] words_of(s)[i]).len() > 0,
        forall|i: int, j: int| 0 <= i < words_of(s).len() && 0 <= j < words_of(s)[i].len() ==> !is_ws(#[trigger] words_of(s)[i][j]),
        s.len() > 0 && !is_ws(s.last()) ==> words_of(s).len() > 0,
    decreases s.len(),
{
    if s.len() > 0 {
        let pre = s.drop_last();
        lemma_words_shape(pre);
        if s.len() >= 2 && !is_ws(s[s.len() - 2]) {
            assert(pre.last() == s[s.len() - 2]);
        }
        let w = words_of(s);
        let w0 = words_of(pre);
        assert forall|i: int, j: int| 0 <= i < w.len() && 0 <= j < w[i].len() implies !is_ws(#[trigger] w[i][j]) by {
            if i < w0.len() && !(i == w0.len() - 1 && !is_ws(s.last()) && s.len() >= 2 && !is_ws(s[s.len() - 2])) {
                assert(w[i] == w0[i]);
            } else if i == w0.len() - 1 {
                if j < w0[i].len() { assert(w[i][j] == w0[i][j]); }
            }
        }
    }
}

/// The bounds of the words of `v[from..to]`.
pub fn word_ranges(v: &Vec<char>, from: usize, to: usize) -> (r: Vec<(usize, usize)>)
    requires
        from <= to <= v.len(),
    ensures
        r@.len() == words_of(v@.subrange(from as int, to as int)).len(),
        forall|i: int| 0 <= i < r@.len() ==> {
            &&& from <= (#[trigger] r@[i]).0 < r@[i].1 <= to
            &&& v@.subrange(r@[i].0 as int, r@[i].1 as int) == words_of(v@.subrange(from as int, to as int))[i]
        },
{
    let mut r: Vec<(usize, usize)> = Vec::new();
    let mut i = from;
    let mut start = from;
    let mut in_word = false;
    while i < to
        invariant
            from <= start <= i <= to <= v.len(),
            ({
                let w = words_of(v@.subrange(from as int, i as int));
                &&& in_word == (i > from && !is_ws(v@[i - 1]))
                &&& (in_word ==> (r@.len() + 1 == w.len() && start < i && v@.subrange(start as int, i as int) == w.last()))
                &&& (!in_word ==> r@.len() == w.len())
                &&& forall|q: int| 0 <= q < r@.len() ==> {
                    &&& from <= (#[trigger] r@[q]).0 < r@[q].1 <= i
                    &&& v@.subrange(r@[q].0 as int, r@[q].1 as int) == w[q]
                }
            }),
        decreases to - i,
    {
        let ghost pre = v@.subrange(from as int, i as int);
        let ghost post = v@.subrange(from as int, i + 1);
        assert(post.drop_last() == pre);
        assert(post.last() == v@[i as int]);
        if i > from {
            assert(post[post.len() - 2] == v@[i - 1]);
        }
        let c = v[i];
        if char_is_whitespace(c) {
            if in_word {
                r.push((start, i));
                let ghost w = words_of(pre);
                proof {
                    assert forall|q: int| 0 <= q < r@.len() implies {
                        &&& from <= (#[trigger] r@[q]).0 < r@[q].1 <= i + 1
                        &&& v@.subrange(r@[q].0 as int, r@[q].1 as int) == words_of(post)[q]
                    } by {
                        if q < r@.len() - 1 {
                        }
                    }
                }
            }
            in_word = false;
        } else {
            if !in_word {
                start = i;
                assert(v@.subrange(i as int, i + 1) =~= seq![c]);
            } else {
                assert(v@.subrange(start as int, i + 1) == v@.subrange(start as int, i as int).push(c));
            }
            in_word = true;
        }
        i = i + 1;
    }
    if in_word {
        r.push((start, to));
    }
    r
}

// ── Packing words into lines ─────────────────────────────────────────────────

/// The pieces of `word` when hard-split every `max` characters: all have
/// `max` characters except the last, which has the rest.
pub open spec fn hard_split(word: Seq<char>, max: nat) -> Seq<Seq<char>>
    decreases word.len(),
{
    if max == 0 || word.len() <= max {
        seq![word]
    } else {
        seq![word.subrange(0, max as int)] + hard_split(word.subrange(max as int, word.len() as int), max)
    }
}

/// Every piece of a hard split of a non-empty word has between one and
/// `max` characters, and there is at least one piece.
pub proof fn lemma_hard_split_bounded(word: Seq<char>, max: nat)
    requires
        max > 0,
        word.len() > 0,
    ensures
        hard_split(word, max).len() >= 1,
        forall|i: int| 0 <= i < hard_split(word, max).len() ==>
            0 < (#[trigger] hard_split(word, max)[i]).len() <= max,
    decreases word.len(),
{
    if word.len() > max {
        let rest = word.subrange(max as int, word.len() as int);
        lemma_hard_split_bounded(rest, max);
        let h = hard_split(word, max);
        assert forall|i: int| 0 <= i < h.len() implies 0 < (#[trigger] h[i]).len() <= max by {
            if i > 0 { assert(h[i] == hard_split(rest, max)[i - 1]); }
        }
    }
}

/// The state of packing after some words: the finished lines and the line
/// being filled.
pub type WrapState = (Seq<Seq<char>>, Seq<char>);

/// Packing of `words` into lines of at most `max` characters: a word joins
/// the current line after a space when it fits; a word that fits no line is
/// hard-split, its last piece starting the new current line.
pub open spec fn wrap_words(words: Seq<Seq<char>>, max: nat) -> WrapState
    decreases words.len(),
{
    if words.len() == 0 {
        (Seq::empty(), Seq::empty())
    } else {
        let (res, cur) = wrap_words(words.drop_last(), max);
        let w = words.last();
        if w.len() > max {
            let res1 = if cur.len() > 0 { res.push(cur) } else { res };
            let pieces = hard_split(w, max);
            (res1 + pieces.drop_last(), pieces.last())
        } else if cur.len() == 0 {
            (res, w)
        } else if cur.len() + 1 + w.len() <= max {
            (res, cur + seq![' '] + w)
        } else {
            (res.push(cur), w)
        }
    }
}

/// The lines `wrap_at_words` produces from `s`.
pub open spec fn wrap_at_words_spec(s: Seq<char>, max: nat) -> Seq<Seq<char>> {
    let (res, cur) = wrap_words(words_of(s), max);
    if cur.len() > 0 { res.push(cur) } else { res }
}


/// Every line that packing produces from non-empty words has between one
/// and `max` characters, and the line being filled has at most `max`.
pub proof fn lemma_wrap_words_bounded(words: Seq<Seq<char>>, max: nat)
    requires
        max > 0,
        forall|i: int| 0 <= i < words.len() ==> (#[trigger] words[i]).len() > 0,
    ensures
        forall|i: int| 0 <= i < wrap_words(words, max).0.len() ==>
            0 < (#[trigger] wrap_words(words, max).0[i]).len() <= max,
        wrap_words(words, max).1.len() <= max,
        words.len() > 0 ==> wrap_words(words, max).1.len() > 0,
    decreases words.len(),
{
    if words.len() > 0 {
        let pre = words.drop_last();
        assert forall|i: int| 0 <= i < pre.len() implies (#[trigger] pre[i]).len() > 0 by {
            assert(pre[i] == words[i]);
        }
        lemma_wrap_words_bounded(pre, max);
        let (res, cur) = wrap_words(pre, max);
        let w = words.last();
        assert(w.len() > 0);
        if w.len() > max {
            let res1 = if cur.len() > 0 { res.push(cur) } else { res };
            let pieces = hard_split(w, max);
            lemma_hard_split_bounded(w, max);
            let out = res1 + pieces.drop_last();
            assert forall|i: int| 0 <= i < out.len() implies 0 < (#[trigger] out[i]).len() <= max by {
                if i < res1.len() {
                    if i < res.len() { assert(out[i] == res[i]); }
                } else {
                    assert(out[i] == pieces[i - res1.len()]);
                }
            }
            assert(pieces.last() == pieces[pieces.len() - 1]);
        } else if cur.len() == 0 {
        } else if cur.len() + 1 + w.len() <= max {
        } else {
            let out = res.push(cur);
            assert forall|i: int| 0 <= i < out.len() implies 0 < (#[trigger] out[i]).len() <= max by {
                if i < res.len() { assert(out[i] == res[i]); }
            }
        }
    }
}

/// Every line of `wrap_at_words_spec` has between one and `max` characters.
pub proof fn lemma_wrap_at_words_bounded(s: Seq<char>, max: nat)
    requires
        max > 0,
    ensures
        forall|i: int| 0 <= i < wrap_at_words_spec(s, max).len() ==>
            0 < (#[trigger] wrap_at_words_spec(s, max)[i]).len() <= max,
{
    lemma_words_shape(s);
    lemma_wrap_words_bounded(words_of(s), max);
    let (res, cur) = wrap_words(words_of(s), max);
    let out = wrap_at_words_spec(s, max);
    assert forall|i: int| 0 <= i < out.len() implies 0 < (#[trigger] out[i]).len() <= max by {
        if i < res.len() { assert(out[i] == res[i]); }
    }
}

/// The views of a vector of strings.
pub open spec fn views(v: Seq<String>) -> Seq<Seq<char>> {
    v.map_values(|s: String| s@)
}

/// Splits `s` at word boundaries into lines of at most `max_len`
/// characters; words longer than a line are hard-split.
pub fn wrap_at_words(s: &str, max_len: usize) -> (r: Vec<String>)
    requires
        max_len > 0,
    ensures
        views(r@) == wrap_at_words_spec(s@, max_len as nat),
        forall|i: int| 0 <= i < r@.len() ==> 0 < (#[trigger] r@[i])@.len() <= max_len,
{
    let v = to_chars(s);
    let n = v.len();
    let words = word_ranges(&v, 0, n);
    assert(v@.subrange(0, n as int) == s@);
    let ghost ws = words_of(s@);
    let mut result: Vec<String> = Vec::new();
    let mut current: Vec<char> = Vec::new();
    let mut k: usize = 0;
    while k < words.len()
        invariant
            n == v@.len(),
            v@ == s@,
            max_len > 0,
            ws == words_of(s@),
            k <= words@.len(),
            words@.len() == ws.len(),
            forall|q: int| 0 <= q < words@.len() ==> {
                &&& 0 <= (#[trigger] words@[q]).0 < words@[q].1 <= n
                &&& v@.subrange(words@[q].0 as int, words@[q].1 as int) == ws[q]
            },
            ({
                let (res, cur) = wrap_words(ws.subrange(0, k as int), max_len as nat);
                &&& views(result@) == res
                &&& current@ == cur
            }),
        decreases words@.len() - k,
    {
        let ghost pre = ws.subrange(0, k as int);
        let ghost post = ws.subrange(0, k + 1);
        assert(post.drop_last() == pre);
        proof {
            lemma_words_shape(s@);
            assert forall|i: int| 0 <= i < pre.len() implies (#[trigger] pre[i]).len() > 0 by {
                assert(pre[i] == ws[i]);
            }
            lemma_wrap_words_bounded(pre, max_len as nat);
        }
        let (a, b) = words[k];
        assert(post.last() == v@.subrange(a as int, b as int));
        let ghost w = v@.subrange(a as int, b as int);
        let wl = b - a;
        let ghost old_result = result@;
        if wl > max_len {
            if current.len() > 0 {
                let line = string_from_chars(&current, 0, current.len());
                assert(current@.subrange(0, current@.len() as int) == current@);
                result.push(line);
                assert(views(result@) =~= views(old_result).push(current@));
                current = Vec::new();
            }
            let ghost base = result@;
            let mut pos = a;
            while pos < b
                invariant
                    a <= pos <= b <= n,
                    n == v@.len(),
                    max_len > 0,
                    b - a > max_len,
                    w == v@.subrange(a as int, b as int),
                    pos < b ==> current@.len() == 0,
                    base.len() <= result@.len(),
                    result@.subrange(0, base.len() as int) == base,
                    pos < b ==> hard_split(w, max_len as nat)
                        == views(result@.subrange(base.len() as int, result@.len() as int)) + hard_split(v@.subrange(pos as int, b as int), max_len as nat),
                    pos == b ==> hard_split(w, max_len as nat)
                        == views(result@.subrange(base.len() as int, result@.len() as int)) + seq![current@],
                decreases b - pos,
            {
                let ghost rest = v@.subrange(pos as int, b as int);
                let ghost before = result@;
                if b - pos <= max_len {
                    let mut c: Vec<char> = Vec::new();
                    let mut q = pos;
                    while q < b
                        invariant
                            pos <= q <= b <= v@.len(),
                            c@ == v@.subrange(pos as int, q as int),
                        decreases b - q,
                    {
                        c.push(v[q]);
                        q = q + 1;
                    }
                    current = c;
                    pos = b;
                } else {
                    let piece = string_from_chars(&v, pos, pos + max_len);
                    result.push(piece);
                    proof {
                        assert(rest.subrange(0, max_len as int) == v@.subrange(pos as int, pos + max_len));
                        assert(rest.subrange(max_len as int, rest.len() as int) == v@.subrange(pos + max_len, b as int));
                        assert(result@.subrange(0, base.len() as int) =~= base);
                        assert(views(result@.subrange(base.len() as int, result@.len() as int))
                            =~= views(before.subrange(base.len() as int, before.len() as int)).push(piece@));
                    }
                    pos = pos + max_len;
                }
            }
            proof {
                let (res0, cur0) = wrap_words(pre, max_len as nat);
                let res1 = if cur0.len() > 0 { res0.push(cur0) } else { res0 };
                let pieces = hard_split(w, max_len as nat);
                lemma_hard_split_bounded(w, max_len as nat);
                assert(views(base) == res1);
                let tail = views(result@.subrange(base.len() as int, result@.len() as int));
                assert(pieces.drop_last() =~= tail);
                assert(views(result@) =~= views(base) + tail);
            }
        } else if current.len() == 0 {
            let mut q = a;
            while q < b
                invariant
                    a <= q <= b <= v@.len(),
                    current@ == v@.subrange(a as int, q as int),
                decreases b - q,
            {
                current.push(v[q]);
                q = q + 1;
            }
        } else if current.len() < max_len && wl <= max_len - current.len() - 1 {
            current.push(' ');
            let ghost mid = current@;
            let mut q = a;
            while q < b
                invariant
                    a <= q <= b <= v@.len(),
                    current@ == mid + v@.subrange(a as int, q as int),
                decreases b - q,
            {
                current.push(v[q]);
                q = q + 1;
                assert(v@.subrange(a as int, q as int) == v@.subrange(a as int, q - 1).push(v@[q - 1]));
            }
        } else {
            let line = string_from_chars(&current, 0, current.len());
            assert(current@.subrange(0, current@.len() as int) == current@);
            result.push(line);
            assert(views(result@) =~= views(old_result).push(current@));
            let mut c: Vec<char> = Vec::new();
            let mut q = a;
            while q < b
                invariant
                    a <= q <= b <= v@.len(),
                    c@ == v@.subrange(a as int, q as int),
                decreases b - q,
            {
                c.push(v[q]);
                q = q + 1;
            }
            current = c;
        }
        k = k + 1;
    }
    assert(ws.subrange(0, words@.len() as int) == ws);
    let ghost old_result = result@;
    if current.len() > 0 {
        let line = string_from_chars(&current, 0, current.len());
        assert(current@.subrange(0, current@.len() as int) == current@);
        result.push(line);
        assert(views(result@) =~= views(old_result).push(current@));
    }
    proof {
        assert(views(result@) == wrap_at_words_spec(s@, max_len as nat));
        lemma_wrap_at_words_bounded(s@, max_len as nat);
        assert forall|i: int| 0 <= i < result@.len() implies 0 < (#[trigger] result@[i])@.len() <= max_len by {
            assert(views(result@)[i] == result@[i]@);
        }
    }
    result
}


// ── Whole texts ──────────────────────────────────────────────────────────────

/// The lines one input line becomes: itself when it fits, otherwise its
/// packed words (one empty line when it has none).
pub open spec fn wrap_line(l: Seq<char>, max: nat) -> Seq<Seq<char>> {
    if l.len() <= max {
        seq![l]
    } else {
        let w = wrap_at_words_spec(l, max);
        if w.len() == 0 { seq![Seq::empty()] } else { w }
    }
}

/// The wrapped lines of a sequence of input lines, in order.
pub open spec fn wrap_lines_spec(ls: Seq<Seq<char>>, max: nat) -> Seq<Seq<char>>
    decreases ls.len(),
{
    if ls.len() == 0 {
        Seq::empty()
    } else {
        wrap_lines_spec(ls.drop_last(), max) + wrap_line(ls.last(), max)
    }
}

/// What `apply_word_wrap` returns: the text split into lines, each
/// wrapped.
pub open spec fn apply_word_wrap_spec(t: Seq<char>, max: nat) -> Seq<Seq<char>> {
    wrap_lines_spec(lines_of(t), max)
}

/// Every line of a wrapped text has at most `max` characters.
pub proof fn lemma_wrap_lines_bounded(ls: Seq<Seq<char>>, max: nat)
    requires
        max > 0,
    ensures
        forall|i: int| 0 <= i < wrap_lines_spec(ls, max).len() ==> (#[trigger] wrap_lines_spec(ls, max)[i]).len() <= max,
    decreases ls.len(),
{
    if ls.len() > 0 {
        lemma_wrap_lines_bounded(ls.drop_last(), max);
        let l = ls.last();
        lemma_wrap_at_words_bounded(l, max);
        let a = wrap_lines_spec(ls.drop_last(), max);
        let b = wrap_line(l, max);
        let out = wrap_lines_spec(ls, max);
        assert forall|i: int| 0 <= i < out.len() implies (#[trigger] out[i]).len() <= max by {
            if i < a.len() { assert(out[i] == a[i]); } else { assert(out[i] == b[i - a.len()]); }
        }
    }
}

/// Splits text into lines and word-wraps every line longer than `max_len`
/// characters; empty lines are kept.
pub fn apply_word_wrap(text: &str, max_len: usize) -> (r: Vec<String>)
    requires
        max_len > 0,
    ensures
        views(r@) == apply_word_wrap_spec(text@, max_len as nat),
        forall|i: int| 0 <= i < r@.len() ==> (#[trigger] r@[i])@.len() <= max_len,
{
    let v = to_chars(text);
    let ls = line_ranges(&v);
    let ghost lines = lines_of(text@);
    let mut result: Vec<String> = Vec::new();
    let mut i: usize = 0;
    while i < ls.len()
        invariant
            v@ == text@,
            lines == lines_of(text@),
            ls@.len() == lines.len(),
            max_len > 0,
            i <= ls@.len(),
            forall|q: int| 0 <= q < ls@.len() ==> {
                &&& (#[trigger] ls@[q]).0 <= ls@[q].1 <= v@.len()
                &&& v@.subrange(ls@[q].0 as int, ls@[q].1 as int) == lines[q]
            },
            views(result@) == wrap_lines_spec(lines.subrange(0, i as int), max_len as nat),
        decreases ls@.len() - i,
    {
        let (a, b) = ls[i];
        let ghost pre = lines.subrange(0, i as int);
        let ghost post = lines.subrange(0, i + 1);
        assert(post.drop_last() == pre);
        let ghost l = v@.subrange(a as int, b as int);
        assert(post.last() == l);
        let line = string_from_chars(&v, a, b);
        let ghost old_result = result@;
        if b - a <= max_len {
            result.push(line);
            assert(views(result@) =~= views(old_result) + seq![l]);
        } else {
            let wrapped = wrap_at_words(line.as_str(), max_len);
            if wrapped.len() == 0 {
                result.push(String::new());
                assert(views(result@) =~= views(old_result) + seq![Seq::<char>::empty()]);
            } else {
                let mut j: usize = 0;
                while j < wrapped.len()
                    invariant
                        j <= wrapped@.len(),
                        views(result@) == views(old_result) + views(wrapped@).subrange(0, j as int),
                    decreases wrapped@.len() - j,
                {
                    let ghost before = result@;
                    result.push(wrapped[j].clone());
                    assert(views(result@) =~= views(before).push(wrapped@[j as int]@));
                    assert(views(wrapped@).subrange(0, j + 1) =~= views(wrapped@).subrange(0, j as int).push(wrapped@[j as int]@));
                    j = j + 1;
                }
                assert(views(wrapped@).subrange(0, wrapped@.len() as int) =~= views(wrapped@));
            }
        }
        i = i + 1;
    }
    assert(lines.subrange(0, ls@.len() as int) == lines);
    proof {
        lemma_wrap_lines_bounded(lines, max_len as nat);
        assert forall|i: int| 0 <= i < result@.len() implies (#[trigger] result@[i])@.len() <= max_len by {
            assert(views(result@)[i] == result@[i]@);
        }
    }
    result
}

} // verus!
