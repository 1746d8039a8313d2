//! Character-level building blocks shared by the parsers and formatters of
//! the library: Unicode whitespace, trimming, decimal numbers, searching.
use vstd::prelude::*;

verus! {

// ── Strings and character vectors ───────────────────────────────────────────

/// Appends one character to a string (`String::push`).
/// Trusted: the string afterwards is the old one followed by `c`.
#[verifier::external_body]
pub(crate) fn push_char(s: &mut String, c: char)
    ensures
        final(s)@ == old(s)@.push(c),
{
    s.push(c);
}

/// The characters of `s`, in order.
pub fn to_chars(s: &str) -> (v: Vec<char>)
    ensures
        v@ == s@,
{
    let mut v: Vec<char> = Vec::new();
    for c in it: s.chars()
        invariant
            v@ == it.seq().take(it.index() as int),
    {
        v.push(c);
    }
    v
}

/// A string made of the characters `v[from..to]`.
pub fn string_from_chars(v: &Vec<char>, from: usize, to: usize) -> (s: String)
    requires
        from <= to <= v.len(),
    ensures
        s@ == v@.subrange(from as int, to as int),
{
    let mut s = String::new();
    let mut i = from;
    while i < to
        invariant
            from <= i <= to <= v.len(),
            s@ == v@.subrange(from as int, i as int),
        decreases to - i,
    {
        push_char(&mut s, v[i]);
        i = i + 1;
    }
    s
}

/// Appends the characters `v[from..to]` to `s`.
pub fn push_chars(s: &mut String, v: &Vec<char>, from: usize, to: usize)
    requires
        from <= to <= v.len(),
    ensures
        final(s)@ == old(s)@ + v@.subrange(from as int, to as int),
{
    let mut i = from;
    while i < to
        invariant
            from <= i <= to <= v.len(),
            s@ == old(s)@ + v@.subrange(from as int, i as int),
        decreases to - i,
    {
        push_char(s, v[i]);
        i = i + 1;
        assert(v@.subrange(from as int, i as int) == v@.subrange(from as int, i - 1).push(v@[i - 1]));
    }
}

/// Appends a whole string slice to `s`.
pub fn push_str(s: &mut String, t: &str)
    ensures
        final(s)@ == old(s)@ + t@,
{
    let v = to_chars(t);
    push_chars(s, &v, 0, v.len());
    assert(v@.subrange(0, v@.len() as int) == t@);
}

// ── Whitespace and trimming ──────────────────────────────────────────────────

/// Unicode `White_Space`, the set `char::is_whitespace` tests for.
pub open spec fn is_ws(c: char) -> bool {
    let n = c as u32;
    ||| 9 <= n <= 13
    ||| n == 32
    ||| n == 0x85
    ||| n == 0xA0
    ||| n == 0x1680
    ||| 0x2000 <= n <= 0x200A
    ||| n == 0x2028
    ||| n == 0x2029
    ||| n == 0x202F
    ||| n == 0x205F
    ||| n == 0x3000
}

/// Whether `c` is Unicode whitespace.
pub fn char_is_whitespace(c: char) -> (b: bool)
    ensures
        b == is_ws(c),
{
    let n = c as u32;
    (9 <= n && n <= 13) || n == 32 || n == 0x85 || n == 0xA0 || n == 0x1680
        || (0x2000 <= n && n <= 0x200A) || n == 0x2028 || n == 0x2029 || n == 0x202F
        || n == 0x205F || n == 0x3000
}

/// `s` without its leading whitespace.
pub open spec fn trim_start(s: Seq<char>) -> Seq<char>
    decreases s.len(),
{
    if s.len() > 0 && is_ws(s[0]) {
        trim_start(s.drop_first())
    } else {
        s
    }
}

/// `s` without its trailing whitespace.
pub open spec fn trim_end(s: Seq<char>) -> Seq<char>
    decreases s.len(),
{
    if s.len() > 0 && is_ws(s.last()) {
        trim_end(s.drop_last())
    } else {
        s
    }
}

/// `s` without leading and trailing whitespace (`str::trim`).
pub open spec fn trim(s: Seq<char>) -> Seq<char> {
    trim_end(trim_start(s))
}

/// Bounds `(a, b)` such that `v[a..b]` is `v[from..to]` trimmed.
pub fn trim_bounds(v: &Vec<char>, from: usize, to: usize) -> (r: (usize, usize))
    requires
        from <= to <= v.len(),
    ensures
        from <= r.0 <= r.1 <= to,
        v@.subrange(r.0 as int, r.1 as int) == trim(v@.subrange(from as int, to as int)),
{
    let mut a = from;
    while a < to && char_is_whitespace(v[a])
        invariant
            from <= a <= to <= v.len(),
            trim_start(v@.subrange(from as int, to as int)) == trim_start(v@.subrange(a as int, to as int)),
        decreases to - a,
    {
        assert(v@.subrange(a as int, to as int).drop_first() == v@.subrange(a + 1, to as int));
        a = a + 1;
    }
    let mut b = to;
    while b > a && char_is_whitespace(v[b - 1])
        invariant
            from <= a <= b <= to <= v.len(),
            trim_start(v@.subrange(from as int, to as int)) == v@.subrange(a as int, to as int),
            trim_end(v@.subrange(a as int, to as int)) == trim_end(v@.subrange(a as int, b as int)),
        decreases b - a,
    {
        assert(v@.subrange(a as int, b as int).drop_last() == v@.subrange(a as int, b - 1));
        b = b - 1;
    }
    (a, b)
}

// ── Decimal numbers ──────────────────────────────────────────────────────────

/// Whether `c` is an ASCII decimal digit.
pub open spec fn is_digit(c: char) -> bool {
    '0' <= c <= '9'
}

/// The value of an ASCII digit.
pub open spec fn digit_value(c: char) -> nat {
    ((c as u32) - ('0' as u32)) as nat
}

/// Whether every character of `s` is an ASCII digit.
pub open spec fn all_digits(s: Seq<char>) -> bool {
    forall|i: int| 0 <= i < s.len() ==> is_digit(#[trigger] s[i])
}

/// The number that the digit string `s` denotes (0 for the empty string).
pub open spec fn decimal_value(s: Seq<char>) -> nat
    decreases s.len(),
{
    if s.len() == 0 {
        0
    } else {
        decimal_value(s.drop_last()) * 10 + digit_value(s.last())
    }
}

/// What `str::parse::<u64>` returns on `s`: an optional `+`, then one or
/// more ASCII digits, whose value fits in a `u64`.
pub open spec fn parse_u64_spec(s: Seq<char>) -> Option<u64> {
    let body = if s.len() > 0 && s[0] == '+' { s.drop_first() } else { s };
    if body.len() > 0 && all_digits(body) && decimal_value(body) <= u64::MAX {
        Some(decimal_value(body) as u64)
    } else {
        None
    }
}

/// The value of a prefix of a digit string never exceeds the value of the
/// whole string.
pub proof fn lemma_decimal_prefix_le(s: Seq<char>, k: int)
    requires
        0 <= k <= s.len(),
        all_digits(s),
    ensures
        decimal_value(s.subrange(0, k)) <= decimal_value(s),
    decreases s.len() - k,
{
    if k == s.len() {
        assert(s.subrange(0, k) == s);
    } else {
        lemma_decimal_prefix_le(s, k + 1);
        assert(s.subrange(0, k + 1).drop_last() == s.subrange(0, k));
        assert(is_digit(s[k]));
    }
}

/// `str::parse::<u64>` on `v[from..to]`.
pub fn parse_u64(v: &Vec<char>, from: usize, to: usize) -> (r: Option<u64>)
    requires
        from <= to <= v.len(),
    ensures
        r == parse_u64_spec(v@.subrange(from as int, to as int)),
{
    let ghost s = v@.subrange(from as int, to as int);
    let mut i = from;
    if i < to && v[i] == '+' {
        i = i + 1;
    }
    let ghost body = if s.len() > 0 && s[0] == '+' { s.drop_first() } else { s };
    assert(body == v@.subrange(i as int, to as int));
    if i == to {
        return None;
    }
    let start = i;
    let mut acc: u64 = 0;
    while i < to
        invariant
            from <= start <= i <= to <= v.len(),
            body == v@.subrange(start as int, to as int),
            s == v@.subrange(from as int, to as int),
            body == (if s.len() > 0 && s[0] == '+' { s.drop_first() } else { s }),
            all_digits(v@.subrange(start as int, i as int)),
            acc == decimal_value(v@.subrange(start as int, i as int)),
        decreases to - i,
    {
        let c = v[i];
        if !('0' <= c && c <= '9') {
            assert(body[i - start] == c);
            assert(!is_digit(body[i - start]));
            assert(!all_digits(body));
            assert(parse_u64_spec(s).is_none());
            return None;
        }
        let d = (c as u32 - '0' as u32) as u64;
        assert(v@.subrange(start as int, i + 1).drop_last() == v@.subrange(start as int, i as int));
        assert(all_digits(v@.subrange(start as int, i + 1)));
        proof {
            if all_digits(body) {
                lemma_decimal_prefix_le(body, i + 1 - start);
                assert(body.subrange(0, i + 1 - start) == v@.subrange(start as int, i + 1));
            }
        }
        match acc.checked_mul(10) {
            None => {
                assert(decimal_value(v@.subrange(start as int, i + 1)) > u64::MAX);
                assert(parse_u64_spec(s).is_none());
                return None;
            },
            Some(m) => {
                match m.checked_add(d) {
                    None => {
                        return None;
                    },
                    Some(n) => {
                        acc = n;
                    },
                }
            },
        }
        i = i + 1;
    }
    assert(v@.subrange(start as int, to as int) == body);
    Some(acc)
}


// ── Searching ────────────────────────────────────────────────────────────────

/// Whether `p` occurs in `s` starting at index `i`.
pub open spec fn occurs_at(s: Seq<char>, p: Seq<char>, i: int) -> bool {
    0 <= i && i + p.len() <= s.len() && s.subrange(i, i + p.len()) == p
}

/// Index of the first occurrence of `c` in `v[from..to]`.
pub fn find_char(v: &Vec<char>, from: usize, to: usize, c: char) -> (r: Option<usize>)
    requires
        from <= to <= v.len(),
    ensures
        match r {
            Some(i) => from <= i < to && v@[i as int] == c
                && forall|j: int| from <= j < i ==> v@[j] != c,
            None => forall|j: int| from <= j < to ==> v@[j] != c,
        },
{
    let mut i = from;
    while i < to
        invariant
            from <= i <= to <= v.len(),
            forall|j: int| from <= j < i ==> v@[j] != c,
        decreases to - i,
    {
        if v[i] == c {
            return Some(i);
        }
        i = i + 1;
    }
    None
}

/// Whether `p` occurs in `v` at index `i` (exec).
pub fn matches_at(v: &Vec<char>, p: &Vec<char>, i: usize) -> (b: bool)
    ensures
        b == occurs_at(v@, p@, i as int),
{
    if i > v.len() || p.len() > v.len() - i {
        return false;
    }
    let mut k: usize = 0;
    while k < p.len()
        invariant
            i + p.len() <= v.len(),
            k <= p.len(),
            forall|j: int| 0 <= j < k ==> v@[i + j] == p@[j],
        decreases p.len() - k,
    {
        if v[i + k] != p[k] {
            assert(v@.subrange(i as int, i + p.len())[k as int] != p@[k as int]);
            return false;
        }
        k = k + 1;
    }
    assert(v@.subrange(i as int, i + p.len()) =~= p@);
    true
}

/// Index of the first occurrence of `p` in `v` at or after `from`.
pub fn find_seq(v: &Vec<char>, p: &Vec<char>, from: usize) -> (r: Option<usize>)
    requires
        from <= v.len(),
    ensures
        match r {
            Some(i) => from <= i && occurs_at(v@, p@, i as int)
                && forall|j: int| from <= j < i ==> !occurs_at(v@, p@, j),
            None => forall|j: int| from <= j ==> !occurs_at(v@, p@, j),
        },
{
    let mut i = from;
    while i < v.len()
        invariant
            from <= i <= v.len(),
            forall|j: int| from <= j < i ==> !occurs_at(v@, p@, j),
        decreases v.len() - i,
    {
        if matches_at(v, p, i) {
            return Some(i);
        }
        i = i + 1;
    }
    if matches_at(v, p, i) {
        return Some(i);
    }
    None
}

/// Index of the last occurrence of `p` in `v`.
pub fn rfind_seq(v: &Vec<char>, p: &Vec<char>) -> (r: Option<usize>)
    ensures
        match r {
            Some(i) => occurs_at(v@, p@, i as int)
                && forall|j: int| i < j ==> !occurs_at(v@, p@, j),
            None => forall|j: int| !occurs_at(v@, p@, j),
        },
{
    let mut i = v.len();
    if matches_at(v, p, i) {
        return Some(i);
    }
    while i > 0
        invariant
            i <= v.len(),
            forall|j: int| i <= j ==> !occurs_at(v@, p@, j),
        decreases i,
    {
        i = i - 1;
        if matches_at(v, p, i) {
            return Some(i);
        }
    }
    None
}

// ── Decimal formatting ───────────────────────────────────────────────────────

/// The character of a decimal digit.
pub open spec fn digit_char(d: nat) -> char {
    (('0' as u32) + d) as char
}

/// The decimal representation of `n`, without leading zeros.
pub open spec fn decimal_digits(n: nat) -> Seq<char>
    decreases n,
{
    if n < 10 {
        seq![digit_char(n)]
    } else {
        decimal_digits(n / 10).push(digit_char(n % 10))
    }
}

/// `format!("{n:0w$}")`: the decimal digits of `n`, left-padded with zeros to
/// at least `width` characters.
pub open spec fn zero_padded(n: nat, width: nat) -> Seq<char> {
    let d = decimal_digits(n);
    if d.len() < width {
        Seq::new((width - d.len()) as nat, |i: int| '0') + d
    } else {
        d
    }
}

/// `10^k`.
pub open spec fn pow10(k: nat) -> nat
    decreases k,
{
    if k == 0 { 1 } else { 10 * pow10((k - 1) as nat) }
}

/// The number of decimal digits of `n` is at least one, and one more than
/// that of `n / 10` when `n >= 10`.
pub proof fn lemma_decimal_digits_len(n: nat)
    ensures
        decimal_digits(n).len() >= 1,
        n < 10 ==> decimal_digits(n).len() == 1,
        n >= 10 ==> decimal_digits(n).len() == decimal_digits(n / 10).len() + 1,
    decreases n,
{
    if n >= 10 {
        lemma_decimal_digits_len(n / 10);
    }
}

/// A number below `10^k` has at most `k` decimal digits.
pub proof fn lemma_digits_below_pow(n: nat, k: nat)
    requires
        k >= 1,
        n < pow10(k),
    ensures
        decimal_digits(n).len() <= k,
    decreases k,
{
    lemma_decimal_digits_len(n);
    if n >= 10 {
        if k == 1 {
            assert(pow10(1) == 10) by { reveal_with_fuel(pow10, 2); }
        } else {
            let p = pow10((k - 1) as nat);
            assert(n / 10 < p) by (nonlinear_arith)
                requires n < 10 * p;
            lemma_digits_below_pow(n / 10, (k - 1) as nat);
        }
    }
}

/// A `u64` has at most twenty decimal digits.
pub proof fn lemma_u64_digits(n: u64)
    ensures
        decimal_digits(n as nat).len() <= 20,
{
    assert(pow10(20) == 100000000000000000000nat) by { reveal_with_fuel(pow10, 21); }
    lemma_digits_below_pow(n as nat, 20);
}

/// The decimal digits of `n` are digits, and they denote `n`.
pub proof fn lemma_decimal_digits_value(n: nat)
    ensures
        all_digits(decimal_digits(n)),
        decimal_value(decimal_digits(n)) == n,
    decreases n,
{
    let d = decimal_digits(n);
    if n < 10 {
        assert(d.drop_last() =~= Seq::<char>::empty());
        assert(decimal_value(d.drop_last()) == 0);
    } else {
        lemma_decimal_digits_value(n / 10);
        let p = decimal_digits(n / 10);
        assert(d.drop_last() =~= p);
        assert forall|i: int| 0 <= i < d.len() implies is_digit(#[trigger] d[i]) by {
            if i < p.len() {
                assert(d[i] == p[i]);
            }
        }
    }
}

/// Leading zeros do not change the value of a digit string.
pub proof fn lemma_leading_zeros_value(k: nat, d: Seq<char>)
    requires
        all_digits(d),
    ensures
        all_digits(Seq::new(k, |i: int| '0') + d),
        decimal_value(Seq::new(k, |i: int| '0') + d) == decimal_value(d),
    decreases d.len() + k,
{
    let z = Seq::new(k, |i: int| '0');
    let s = z + d;
    assert forall|i: int| 0 <= i < s.len() implies is_digit(#[trigger] s[i]) by {
        if i >= k {
            assert(s[i] == d[i - k]);
        }
    }
    if d.len() == 0 {
        assert(s =~= z);
        if k > 0 {
            let z1 = Seq::new((k - 1) as nat, |i: int| '0');
            lemma_leading_zeros_value((k - 1) as nat, d);
            assert(z.drop_last() =~= z1 + d);
            assert(digit_value(z.last()) == 0);
        }
    } else {
        lemma_leading_zeros_value(k, d.drop_last());
        assert(s.drop_last() =~= z + d.drop_last());
        assert(s.last() == d.last());
    }
}

/// A zero-padded rendering is a digit string that denotes the number.
pub proof fn lemma_zero_padded_value(n: nat, width: nat)
    ensures
        zero_padded(n, width).len() >= 1,
        zero_padded(n, width).len() >= width,
        all_digits(zero_padded(n, width)),
        decimal_value(zero_padded(n, width)) == n,
{
    lemma_decimal_digits_value(n);
    lemma_decimal_digits_len(n);
    let d = decimal_digits(n);
    if d.len() < width {
        lemma_leading_zeros_value((width - d.len()) as nat, d);
    }
}

/// Appends the decimal digits of `n` to `s`.
pub fn push_decimal(s: &mut String, n: u64)
    ensures
        final(s)@ == old(s)@ + decimal_digits(n as nat),
    decreases n,
{
    if n >= 10 {
        push_decimal(s, n / 10);
    }
    let c = char_from_digit((n % 10) as u32);
    push_char(s, c);
    assert(decimal_digits(n as nat) == if n < 10 { seq![digit_char(n as nat)] } else {
        decimal_digits((n / 10) as nat).push(digit_char((n % 10) as nat)) });
}

/// The character of a decimal digit (exec).
pub fn char_from_digit(d: u32) -> (c: char)
    requires
        d < 10,
    ensures
        c == digit_char(d as nat),
{
    if d == 0 { '0' } else if d == 1 { '1' } else if d == 2 { '2' } else if d == 3 { '3' }
    else if d == 4 { '4' } else if d == 5 { '5' } else if d == 6 { '6' } else if d == 7 { '7' }
    else if d == 8 { '8' } else { '9' }
}

/// The number of decimal digits of `n`.
pub fn decimal_len(n: u64) -> (k: usize)
    ensures
        k == decimal_digits(n as nat).len(),
    decreases n,
{
    proof { lemma_decimal_digits_len(n as nat); lemma_u64_digits(n); }
    if n < 10 {
        1
    } else {
        let k = decimal_len(n / 10);
        proof { lemma_decimal_digits_len((n / 10) as nat); }
        k + 1
    }
}

/// Appends `n` in decimal, zero-padded to at least `width` characters.
pub fn push_zero_padded(s: &mut String, n: u64, width: usize)
    ensures
        final(s)@ == old(s)@ + zero_padded(n as nat, width as nat),
{
    let len = decimal_len(n);
    let ghost start = s@;
    if len < width {
        let mut k = len;
        while k < width
            invariant
                len <= k <= width,
                len == decimal_digits(n as nat).len(),
                s@ == start + Seq::new((k - len) as nat, |i: int| '0'),
            decreases width - k,
        {
            push_char(s, '0');
            k = k + 1;
            assert(Seq::new((k - len) as nat, |i: int| '0') =~= Seq::new((k - 1 - len) as nat, |i: int| '0').push('0'));
        }
    }
    let ghost mid = s@;
    push_decimal(s, n);
    assert(s@ =~= start + zero_padded(n as nat, width as nat));
}


/// The decimal representation of a signed integer (`-` before negatives).
pub open spec fn int_digits(x: int) -> Seq<char> {
    if x < 0 { seq!['-'] + decimal_digits((-x) as nat) } else { decimal_digits(x as nat) }
}

/// Appends a signed integer in decimal.
pub fn push_i64(s: &mut String, x: i64)
    ensures
        final(s)@ == old(s)@ + int_digits(x as int),
{
    if x < 0 {
        push_char(s, '-');
        let m: i128 = -(x as i128);
        let u = m as u64;
        push_decimal(s, u);
        assert(s@ =~= old(s)@ + int_digits(x as int));
    } else {
        push_decimal(s, x as u64);
    }
}

/// What `str::parse::<usize>` returns on `s`.
pub open spec fn parse_usize_spec(s: Seq<char>) -> Option<usize> {
    match parse_u64_spec(s) {
        Some(n) => if n <= usize::MAX { Some(n as usize) } else { None },
        None => None,
    }
}

/// `str::parse::<usize>` on `v[from..to]`.
pub fn parse_usize(v: &Vec<char>, from: usize, to: usize) -> (r: Option<usize>)
    requires
        from <= to <= v.len(),
    ensures
        r == parse_usize_spec(v@.subrange(from as int, to as int)),
{
    match parse_u64(v, from, to) {
        Some(n) => if n <= usize::MAX as u64 { Some(n as usize) } else { None },
        None => None,
    }
}

/// What `str::parse::<u32>` returns on `s`.
pub open spec fn parse_u32_spec(s: Seq<char>) -> Option<u32> {
    match parse_u64_spec(s) {
        Some(n) => if n <= u32::MAX { Some(n as u32) } else { None },
        None => None,
    }
}

/// `str::parse::<u32>` on `v[from..to]`.
pub fn parse_u32(v: &Vec<char>, from: usize, to: usize) -> (r: Option<u32>)
    requires
        from <= to <= v.len(),
    ensures
        r == parse_u32_spec(v@.subrange(from as int, to as int)),
{
    match parse_u64(v, from, to) {
        Some(n) => if n <= u32::MAX as u64 { Some(n as u32) } else { None },
        None => None,
    }
}

/// Whether `v` starts with `p` at `from` (exec form of a prefix test).
pub fn has_prefix_at(v: &Vec<char>, from: usize, p: &Vec<char>) -> (b: bool)
    ensures
        b == occurs_at(v@, p@, from as int),
{
    matches_at(v, p, from)
}


// ── Splitting ────────────────────────────────────────────────────────────────

/// `i` is the first index of `c` in `s`.
pub open spec fn first_index_of(s: Seq<char>, c: char, i: int) -> bool {
    0 <= i < s.len() && s[i] == c && forall|j: int| 0 <= j < i ==> s[j] != c
}

/// The pieces of `s` between occurrences of `c` (`str::split`): always at
/// least one piece; `k` separators give `k + 1` pieces.
pub open spec fn split_on(s: Seq<char>, c: char) -> Seq<Seq<char>>
    decreases s.len(),
{
    if s.len() == 0 {
        seq![Seq::empty()]
    } else {
        let parts = split_on(s.drop_last(), c);
        if s.last() == c {
            parts.push(Seq::empty())
        } else {
            parts.update(parts.len() - 1, parts.last().push(s.last()))
        }
    }
}

/// `split_on` never gives an empty list of pieces.
pub proof fn lemma_split_on_nonempty(s: Seq<char>, c: char)
    ensures
        split_on(s, c).len() >= 1,
    decreases s.len(),
{
    if s.len() > 0 {
        lemma_split_on_nonempty(s.drop_last(), c);
    }
}

/// The bounds of the pieces of `v[from..to]` between occurrences of `c`.
pub fn split_ranges(v: &Vec<char>, from: usize, to: usize, c: char) -> (r: Vec<(usize, usize)>)
    requires
        from <= to <= v.len(),
    ensures
        r@.len() == split_on(v@.subrange(from as int, to as int), c).len(),
        forall|i: int| 0 <= i < r@.len() ==> {
            &&& from <= (#[trigger] r@[i]).0 <= r@[i].1 <= to
            &&& v@.subrange(r@[i].0 as int, r@[i].1 as int) == split_on(v@.subrange(from as int, to as int), c)[i]
        },
{
    let mut r: Vec<(usize, usize)> = Vec::new();
    let mut start = from;
    let mut i = from;
    while i < to
        invariant
            from <= start <= i <= to <= v.len(),
            ({
                let parts = split_on(v@.subrange(from as int, i as int), c);
                &&& r@.len() + 1 == parts.len()
                &&& forall|k: int| 0 <= k < r@.len() ==> {
                    &&& from <= (#[trigger] r@[k]).0 <= r@[k].1 <= i
                    &&& v@.subrange(r@[k].0 as int, r@[k].1 as int) == parts[k]
                }
                &&& v@.subrange(start as int, i as int) == parts.last()
            }),
        decreases to - i,
    {
        let ghost pre = v@.subrange(from as int, i as int);
        let ghost post = v@.subrange(from as int, i + 1);
        assert(post.drop_last() == pre);
        proof { lemma_split_on_nonempty(pre, c); }
        let ghost old_r = r@;
        if v[i] == c {
            r.push((start, i));
            start = i + 1;
            proof {
                assert forall|k: int| 0 <= k < r@.len() implies {
                    &&& from <= (#[trigger] r@[k]).0 <= r@[k].1 <= i + 1
                    &&& v@.subrange(r@[k].0 as int, r@[k].1 as int) == split_on(post, c)[k]
                } by {
                    if k < old_r.len() { assert(r@[k] == old_r[k]); }
                }
                assert(v@.subrange(start as int, i + 1) =~= Seq::<char>::empty());
            }
        } else {
            proof {
                assert(v@.subrange(start as int, i + 1) == v@.subrange(start as int, i as int).push(v@[i as int]));
            }
        }
        i = i + 1;
    }
    let ghost parts = split_on(v@.subrange(from as int, to as int), c);
    let ghost old_r = r@;
    r.push((start, to));
    proof {
        assert forall|k: int| 0 <= k < r@.len() implies {
            &&& from <= (#[trigger] r@[k]).0 <= r@[k].1 <= to
            &&& v@.subrange(r@[k].0 as int, r@[k].1 as int) == parts[k]
        } by {
            if k < old_r.len() { assert(r@[k] == old_r[k]); }
        }
    }
    r
}


/// What `str::parse::<i64>` returns on `s`: an optional sign, then one or
/// more ASCII digits, whose value fits in an `i64`.
pub open spec fn parse_i64_spec(s: Seq<char>) -> Option<i64> {
    if s.len() > 0 && s[0] == '-' {
        let body = s.drop_first();
        if body.len() > 0 && all_digits(body) && decimal_value(body) <= 0x8000_0000_0000_0000 {
            Some((-(decimal_value(body) as int)) as i64)
        } else {
            None
        }
    } else {
        match parse_u64_spec(s) {
            Some(n) => if n <= i64::MAX { Some(n as i64) } else { None },
            None => None,
        }
    }
}

/// `str::parse::<i64>` on `v[from..to]`.
pub fn parse_i64(v: &Vec<char>, from: usize, to: usize) -> (r: Option<i64>)
    requires
        from <= to <= v.len(),
    ensures
        r == parse_i64_spec(v@.subrange(from as int, to as int)),
{
    let ghost s = v@.subrange(from as int, to as int);
    if from < to && v[from] == '-' {
        assert(s.drop_first() == v@.subrange(from + 1, to as int));
        if from + 1 == to {
            return None;
        }
        // A leading '+' after the minus sign is not a digit: reject it first.
        if v[from + 1] == '+' {
            assert(!is_digit(s.drop_first()[0]));
            return None;
        }
        assert(v@.subrange(from + 1, to as int)[0] != '+');
        match parse_u64(v, from + 1, to) {
            Some(n) => {
                if n <= 0x8000_0000_0000_0000u64 {
                    let m: i128 = -(n as i128);
                    Some(m as i64)
                } else {
                    None
                }
            },
            None => {
                proof {
                    let body = s.drop_first();
                    if body.len() > 0 && all_digits(body) && decimal_value(body) <= 0x8000_0000_0000_0000 {
                        assert(parse_u64_spec(body) is Some);
                    }
                }
                None
            },
        }
    } else {
        match parse_u64(v, from, to) {
            Some(n) => if n <= i64::MAX as u64 { Some(n as i64) } else { None },
            None => None,
        }
    }
}

} // verus!
