//! External formatters: which configured formatters apply to a file, the
//! arguments they are run with, the names of the files handed to a batch
//! formatter, and which formatter output is accepted.
use vstd::prelude::*;
use crate::text::{to_chars, push_char, push_str, push_zero_padded, zero_padded, trim, occurs_at};
use crate::paths::{str_eq, extension_of, extension_spec};
use crate::wrap::views;

verus! {

/// How a formatter is run: on one file through its standard streams, or
/// once on a directory of files.
#[derive(Clone, Copy, Debug, PartialEq, Eq, Structural)]
pub enum FormatterMode {
    Stdin,
    Batch,
}

/// A configured external formatter.
pub struct FormatterConfig {
    pub path: String,
    /// Arguments; `{name}` (stdin mode) or `{dir}` (batch mode) is filled in.
    pub args: Vec<String>,
    /// Extensions (without the dot) of the files it formats.
    pub extensions: Vec<String>,
    pub mode: FormatterMode,
}

/// `s` with every occurrence of `pat` (non-overlapping, from the left)
/// replaced by `rep` (`str::replace`).
pub open spec fn replace_all(s: Seq<char>, pat: Seq<char>, rep: Seq<char>) -> Seq<char>
    decreases s.len(),
{
    if pat.len() == 0 || s.len() == 0 {
        s
    } else if occurs_at(s, pat, 0) {
        rep + replace_all(s.subrange(pat.len() as int, s.len() as int), pat, rep)
    } else {
        seq![s[0]] + replace_all(s.subrange(1, s.len() as int), pat, rep)
    }
}

/// `s` with `pat` (non-empty) replaced by `rep` everywhere.
pub fn replace_str(s: &str, pat: &str, rep: &str) -> (r: String)
    requires
        pat@.len() > 0,
    ensures
        r@ == replace_all(s@, pat@, rep@),
{
    let v = to_chars(s);
    let p = to_chars(pat);
    let mut out = String::new();
    let mut i: usize = 0;
    assert(v@.subrange(0, v@.len() as int) =~= v@);
    assert(out@ + replace_all(v@, p@, rep@) =~= replace_all(v@, p@, rep@));
    while i < v.len()
        invariant
            i <= v@.len(),
            v@ == s@,
            p@ == pat@,
            p@.len() > 0,
            out@ + replace_all(v@.subrange(i as int, v@.len() as int), p@, rep@) == replace_all(v@, p@, rep@),
        decreases v@.len() - i,
    {
        let ghost rest = v@.subrange(i as int, v@.len() as int);
        let hit = crate::text::matches_at(&v, &p, i);
        proof {
            if occurs_at(v@, p@, i as int) {
                assert(rest.subrange(0, p@.len() as int) =~= v@.subrange(i as int, i + p@.len()));
            } else {
                if p@.len() <= rest.len() {
                    assert(rest.subrange(0, p@.len() as int) =~= v@.subrange(i as int, i + p@.len()));
                }
            }
        }
        if hit {
            let ghost before = out@;
            push_str(&mut out, rep);
            proof {
                assert(rest.subrange(p@.len() as int, rest.len() as int) =~= v@.subrange(i + p@.len(), v@.len() as int));
                assert(before + replace_all(rest, p@, rep@) == before + (rep@ + replace_all(v@.subrange(i + p@.len(), v@.len() as int), p@, rep@)));
                assert(out@ + replace_all(v@.subrange(i + p@.len(), v@.len() as int), p@, rep@) =~= before + replace_all(rest, p@, rep@));
            }
            i = i + p.len();
        } else {
            let ghost before = out@;
            push_char(&mut out, v[i]);
            proof {
                assert(rest.subrange(1, rest.len() as int) =~= v@.subrange(i + 1, v@.len() as int));
                assert(rest[0] == v@[i as int]);
                assert(out@ + replace_all(v@.subrange(i + 1, v@.len() as int), p@, rep@) =~= before + replace_all(rest, p@, rep@));
            }
            i = i + 1;
        }
    }
    assert(v@.subrange(v@.len() as int, v@.len() as int) =~= Seq::<char>::empty());
    assert(out@ + Seq::<char>::empty() =~= out@);
    out
}

/// The arguments with `pat` replaced by `value` in each.
pub fn fill_args(args: &Vec<String>, pat: &str, value: &str) -> (r: Vec<String>)
    requires
        pat@.len() > 0,
    ensures
        r@.len() == args@.len(),
        forall|i: int| 0 <= i < r@.len() ==> (#[trigger] r@[i])@ == replace_all(args@[i]@, pat@, value@),
{
    let mut out: Vec<String> = Vec::new();
    let mut i: usize = 0;
    while i < args.len()
        invariant
            i <= args@.len(),
            pat@.len() > 0,
            out@.len() == i,
            forall|k: int| 0 <= k < i ==> (#[trigger] out@[k])@ == replace_all(args@[k]@, pat@, value@),
        decreases args@.len() - i,
    {
        out.push(replace_str(args[i].as_str(), pat, value));
        i = i + 1;
    }
    out
}

/// Whether a formatter handles files with extension `ext`.
pub fn handles_extension(fmt: &FormatterConfig, ext: &str) -> (b: bool)
    ensures
        b == views(fmt.extensions@).contains(ext@),
{
    let mut i: usize = 0;
    while i < fmt.extensions.len()
        invariant
            i <= fmt.extensions@.len(),
            forall|k: int| 0 <= k < i ==> views(fmt.extensions@)[k] != ext@,
        decreases fmt.extensions@.len() - i,
    {
        if str_eq(fmt.extensions[i].as_str(), ext) {
            assert(views(fmt.extensions@)[i as int] == ext@);
            return true;
        }
        assert(views(fmt.extensions@)[i as int] == fmt.extensions@[i as int]@);
        i = i + 1;
    }
    false
}

/// The stdin formatters to try, in order, for a file with extension
/// `ext`: positions among the configured formatters.
pub open spec fn stdin_candidates(fmts: Seq<FormatterConfig>, ext: Seq<char>, n: int) -> Seq<int>
    decreases n,
{
    if n <= 0 {
        Seq::empty()
    } else if fmts[n - 1].mode == FormatterMode::Stdin && views(fmts[n - 1].extensions@).contains(ext) {
        stdin_candidates(fmts, ext, n - 1).push(n - 1)
    } else {
        stdin_candidates(fmts, ext, n - 1)
    }
}

/// The stdin formatters that apply to the file `name`, in configuration
/// order, each with its arguments (`{name}` filled in with the name).
pub fn stdin_formatter_plan(fmts: &Vec<FormatterConfig>, name: &str) -> (r: Vec<(usize, Vec<String>)>)
    ensures
        ({
            let c = stdin_candidates(fmts@, extension_spec(name@), fmts@.len() as int);
            &&& r@.len() == c.len()
            &&& forall|k: int| 0 <= k < r@.len() ==> {
                let (i, args) = #[trigger] r@[k];
                &&& i == c[k]
                &&& args@.len() == fmts@[i as int].args@.len()
                &&& forall|j: int| 0 <= j < args@.len() ==> (#[trigger] args@[j])@ == replace_all(fmts@[i as int].args@[j]@, "{name}"@, name@)
            }
        }),
{
    let ext = extension_of(name);
    let placeholder = "{name}";
    proof { reveal_strlit("{name}"); }
    let mut out: Vec<(usize, Vec<String>)> = Vec::new();
    let mut i: usize = 0;
    while i < fmts.len()
        invariant
            i <= fmts@.len(),
            ext@ == extension_spec(name@),
            placeholder@ == "{name}"@,
            placeholder@.len() > 0,
            ({
                let c = stdin_candidates(fmts@, ext@, i as int);
                &&& out@.len() == c.len()
                &&& forall|k: int| 0 <= k < out@.len() ==> {
                    let (q, args) = #[trigger] out@[k];
                    &&& q == c[k]
                    &&& q < i
                    &&& args@.len() == fmts@[q as int].args@.len()
                    &&& forall|j: int| 0 <= j < args@.len() ==> (#[trigger] args@[j])@ == replace_all(fmts@[q as int].args@[j]@, "{name}"@, name@)
                }
            }),
        decreases fmts@.len() - i,
    {
        let f = &fmts[i];
        if f.mode == FormatterMode::Stdin && handles_extension(f, ext.as_str()) {
            let args = fill_args(&f.args, placeholder, name);
            out.push((i, args));
        }
        i = i + 1;
    }
    out
}

/// Formatter output is used when the formatter succeeded and wrote
/// something other than whitespace.
pub fn accept_output(success: bool, output: &str) -> (r: bool)
    ensures
        r == (success && trim(output@).len() > 0),
{
    success && !crate::index::is_blank(output)
}

/// The files a batch formatter takes: those not yet handled whose
/// extension it handles, as (position, extension), in order.
pub open spec fn batch_members_spec(fmt: FormatterConfig, names: Seq<String>, handled: Seq<bool>, n: int) -> Seq<(int, Seq<char>)>
    decreases n,
{
    if n <= 0 {
        Seq::empty()
    } else {
        let prev = batch_members_spec(fmt, names, handled, n - 1);
        let ext = extension_spec(names[n - 1]@);
        if !handled[n - 1] && views(fmt.extensions@).contains(ext) {
            prev.push((n - 1, ext))
        } else {
            prev
        }
    }
}

/// The files of a batch that a batch formatter takes (see
/// `batch_members_spec`).
pub fn batch_members(fmt: &FormatterConfig, names: &Vec<String>, handled: &Vec<bool>) -> (r: Vec<(usize, String)>)
    requires
        handled@.len() == names@.len(),
    ensures
        ({
            let m = batch_members_spec(*fmt, names@, handled@, names@.len() as int);
            &&& r@.len() == m.len()
            &&& forall|k: int| 0 <= k < r@.len() ==> (#[trigger] r@[k]).0 == m[k].0 && r@[k].1@ == m[k].1
        }),
{
    let mut out: Vec<(usize, String)> = Vec::new();
    let mut i: usize = 0;
    while i < names.len()
        invariant
            i <= names@.len(),
            handled@.len() == names@.len(),
            ({
                let m = batch_members_spec(*fmt, names@, handled@, i as int);
                &&& out@.len() == m.len()
                &&& forall|k: int| 0 <= k < out@.len() ==> (#[trigger] out@[k]).0 == m[k].0 && out@[k].1@ == m[k].1
            }),
        decreases names@.len() - i,
    {
        let ext = extension_of(names[i].as_str());
        if !handled[i] && handles_extension(fmt, ext.as_str()) {
            out.push((i, ext));
        }
        i = i + 1;
    }
    out
}

/// The name of the `seq`-th file handed to a batch formatter:
/// `<seq, five digits>.<ext>`.
pub fn batch_file_name(seq: u64, ext: &str) -> (r: String)
    ensures
        r@ == zero_padded(seq as nat, 5) + seq!['.'] + ext@,
{
    let mut s = String::new();
    push_zero_padded(&mut s, seq, 5);
    push_char(&mut s, '.');
    push_str(&mut s, ext);
    s
}

} // verus!
