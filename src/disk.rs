//! Disk totals from the summary row of the filesystem-usage tool.
use vstd::prelude::*;
use vstd::utf8::valid_utf8;
use crate::text::{decimal, lines, parse_u64, split_bytes, split_tokens, tokens, views};

verus! {

/// The tokens of the last line of `ls` that holds any, or none.
pub open spec fn last_row(ls: Seq<Seq<u8>>) -> Seq<Seq<u8>>
    decreases ls.len(),
{
    if ls.len() == 0 {
        Seq::empty()
    } else if tokens(ls.last()).len() > 0 {
        tokens(ls.last())
    } else {
        last_row(ls.drop_last())
    }
}

/// `(total, used)` in MB: the third and fourth fields of the tool's last row,
/// or `(0, 0)` where that row does not give both as numbers.
pub open spec fn disk_usage(out: Seq<u8>) -> (u64, u64) {
    let f = last_row(lines(out));
    if f.len() >= 4 && decimal(f[2]) is Some && decimal(f[3]) is Some {
        (decimal(f[2])->0, decimal(f[3])->0)
    } else {
        (0, 0)
    }
}

/// Relies on std::str::from_utf8: it succeeds exactly on well-formed UTF-8,
/// which vstd states as `valid_utf8`.
#[verifier::external_body]
fn is_utf8(b: &[u8]) -> (r: bool)
    ensures
        r == valid_utf8(b@),
{
    std::str::from_utf8(b).is_ok()
}

/// `(total, used)` in MB from the filesystem-usage tool's output: the totals
/// of its last row where the output is text, else `(0, 0)`.
pub open spec fn hdd_of(out: Seq<u8>) -> (u64, u64) {
    if valid_utf8(out) {
        disk_usage(out)
    } else {
        (0, 0)
    }
}

/// Total and used disk space in MB, read from the output of the
/// filesystem-usage tool; `(0, 0)` where the output is not UTF-8 text or its
/// last row does not give both numbers.
pub fn get_hdd(output: &[u8]) -> (r: (u64, u64))
    ensures
        r == hdd_of(output@),
{
    if is_utf8(output) {
        disk_row_totals(output)
    } else {
        (0, 0)
    }
}

/// Total and used disk space in MB from the last row of the text `output`.
pub fn disk_row_totals(output: &[u8]) -> (r: (u64, u64))
    ensures
        r == disk_usage(output@),
{
    let ls = split_bytes(output, 10);
    let mut i: usize = ls.len();
    let mut row: Vec<Vec<u8>> = Vec::new();
    let mut found = false;
    assert(views(ls@).subrange(0, ls@.len() as int) == views(ls@));
    while i > 0 && !found
        invariant
            i <= ls@.len(),
            found ==> views(row@) == last_row(views(ls@)),
            !found ==> last_row(views(ls@)) == last_row(views(ls@).subrange(0, i as int)),
            !found ==> views(row@) == Seq::<Seq<u8>>::empty(),
        decreases i,
    {
        let ghost pre = views(ls@).subrange(0, i as int);
        assert(pre.drop_last() == views(ls@).subrange(0, i - 1));
        assert(pre.last() == ls@[i - 1]@);
        let t = split_tokens(ls[i - 1].as_slice());
        if t.len() > 0 {
            row = t;
            found = true;
        }
        i = i - 1;
    }
    assert(views(row@) == last_row(views(ls@)));
    if row.len() < 4 {
        return (0, 0);
    }
    assert(views(row@)[2] == row@[2]@);
    assert(views(row@)[3] == row@[3]@);
    match (parse_u64(row[2].as_slice()), parse_u64(row[3].as_slice())) {
        (Some(total), Some(used)) => (total, used),
        _ => (0, 0),
    }
}

/// Reading the same tool output twice gives the same totals.
pub proof fn disk_usage_repeatable(a: Seq<u8>, b: Seq<u8>)
    requires
        a == b,
    ensures
        hdd_of(a) == hdd_of(b),
        disk_usage(a) == disk_usage(b),
{
}

} // verus!
