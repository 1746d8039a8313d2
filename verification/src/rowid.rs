use vstd::prelude::*;

verus! {

/// Multiplier that packs a (file id, line number) pair into one FTS row id.
/// Fixed for the lifetime of an index.
pub const MAX_LINES_PER_FILE: i64 = 1_000_000;

/// Rust's truncating division on integers, as a mathematical function.
pub open spec fn trunc_div(a: int, b: int) -> int {
    if a >= 0 { a / b } else { -((-a) / b) }
}

/// Rust's truncating remainder on integers, as a mathematical function.
pub open spec fn trunc_rem(a: int, b: int) -> int {
    a - b * trunc_div(a, b)
}

/// Packs `(file_id, line_number)` into a single FTS row id. The line number
/// must lie below `MAX_LINES_PER_FILE`, else it would collide with the row
/// ids of the next file.
pub fn encode_fts_rowid(file_id: i64, line_number: i64) -> (rowid: i64)
    requires
        0 <= line_number < MAX_LINES_PER_FILE,
        i64::MIN <= file_id * MAX_LINES_PER_FILE <= i64::MAX,
        i64::MIN <= file_id * MAX_LINES_PER_FILE + line_number <= i64::MAX,
    ensures
        rowid == file_id * MAX_LINES_PER_FILE + line_number,
{
    file_id * MAX_LINES_PER_FILE + line_number
}

/// Splits an FTS row id back into `(file_id, line_number)`.
pub fn decode_fts_rowid(rowid: i64) -> (r: (i64, i64))
    ensures
        r.0 == trunc_div(rowid as int, MAX_LINES_PER_FILE as int),
        r.1 == trunc_rem(rowid as int, MAX_LINES_PER_FILE as int),
{
    (rowid / MAX_LINES_PER_FILE, rowid % MAX_LINES_PER_FILE)
}

/// Round trip of the row id packing: for a non-negative file id and a line
/// number below the multiplier, decoding an encoded row id gives back the pair.
pub proof fn lemma_rowid_roundtrip(file_id: int, line_number: int)
    requires
        file_id >= 0,
        0 <= line_number < MAX_LINES_PER_FILE,
    ensures
        trunc_div(file_id * MAX_LINES_PER_FILE + line_number, MAX_LINES_PER_FILE as int) == file_id,
        trunc_rem(file_id * MAX_LINES_PER_FILE + line_number, MAX_LINES_PER_FILE as int) == line_number,
{
    let m = MAX_LINES_PER_FILE as int;
    assert(file_id * m >= 0) by (nonlinear_arith) requires file_id >= 0, m > 0;
    vstd::arithmetic::div_mod::lemma_fundamental_div_mod_converse(
        file_id * m + line_number, m, file_id, line_number);
}

} // verus!
