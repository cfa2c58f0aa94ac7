//! Parsers for the kernel's counter tables: uptime, the memory table and the
//! per-interface traffic table.
use vstd::prelude::*;
use vstd::slice::slice_subrange;
use vstd::string::StringSliceAdditionalSpecFns;
use vstd::utf8::{encode_utf8, is_ascii_chars, is_ascii_chars_encode_utf8};
use crate::text::{
    contains, contains_bytes, decimal, find_byte, find_byte_from, is_space,
    is_space_byte, lines, parse_u64, same_bytes, skip_digits, skip_digits_from, skip_spaces,
    skip_spaces_from, split_bytes, split_tokens, tokens, views,
};

verus! {

/// `n`, or `u64::MAX` where `n` does not fit.
pub open spec fn saturate(n: nat) -> u64 {
    if n <= u64::MAX {
        n as u64
    } else {
        u64::MAX
    }
}

// ---------------------------------------------------------------- uptime

/// Whole seconds of uptime: the digits before the first `.` of the uptime
/// source, or 0 where they do not form a number.
pub open spec fn uptime_of(s: Seq<u8>) -> u64 {
    match decimal(s.subrange(0, find_byte(s, 0, 46))) {
        Some(v) => v,
        None => 0,
    }
}

/// Seconds since boot, read from the text of the uptime source.
pub fn get_uptime(contents: &[u8]) -> (r: u64)
    ensures
        r == uptime_of(contents@),
{
    let k = find_byte_from(contents, 0, 46);
    match parse_u64(slice_subrange(contents, 0, k)) {
        Some(v) => v,
        None => 0,
    }
}

// ---------------------------------------------------------------- interface filter

/// Substrings that mark a loopback or virtual interface.
pub open spec fn ignored_patterns() -> Seq<Seq<u8>> {
    seq![
        "lo".spec_bytes(),
        "docker".spec_bytes(),
        "vnet".spec_bytes(),
        "veth".spec_bytes(),
        "vmbr".spec_bytes(),
        "kube".spec_bytes(),
        "br-".spec_bytes(),
    ]
}

/// The interface is left out of every traffic total.
pub open spec fn is_ignored(name: Seq<u8>) -> bool {
    exists|k: int| 0 <= k < ignored_patterns().len() && contains(name, #[trigger] ignored_patterns()[k])
}

/// Whether the interface named `name` is loopback or virtual.
pub fn is_ignored_iface(name: &[u8]) -> (r: bool)
    ensures
        r == is_ignored(name@),
{
    let pats: [&str; 7] = ["lo", "docker", "vnet", "veth", "vmbr", "kube", "br-"];
    let mut k: usize = 0;
    while k < 7
        invariant
            k <= 7,
            forall|q: int| 0 <= q < 7 ==> (#[trigger] pats@[q]).spec_bytes() == ignored_patterns()[q],
            forall|q: int| 0 <= q < k ==> !contains(name@, #[trigger] ignored_patterns()[q]),
        decreases 7 - k,
    {
        if contains_bytes(name, pats[k].as_bytes()) {
            return true;
        }
        k = k + 1;
    }
    false
}

// ---------------------------------------------------------------- memory table

/// A line of the memory table: `key: value kB`, where the key holds no
/// whitespace and the value is decimal.
pub open spec fn mem_entry(line: Seq<u8>) -> Option<(Seq<u8>, u64)> {
    let c = find_byte(line, 0, 58);
    let i = skip_spaces(line, c + 1);
    let j = skip_digits(line, i);
    let m = skip_spaces(line, j);
    if c < line.len() && (forall|q: int| 0 <= q < c ==> !is_space(#[trigger] line[q])) && i < j
        && m + 2 <= line.len() && line[m] == 107 && line[m + 1] == 66 {
        match decimal(line.subrange(i, j)) {
            Some(v) => Some((line.subrange(0, c), v)),
            None => None,
        }
    } else {
        None
    }
}

/// The value of `key` in the memory table `ls`: the last line that gives it wins.
pub open spec fn mem_value(ls: Seq<Seq<u8>>, key: Seq<u8>) -> Option<u64>
    decreases ls.len(),
{
    if ls.len() == 0 {
        None
    } else {
        match mem_entry(ls.last()) {
            Some((k, v)) if k == key => Some(v),
            _ => mem_value(ls.drop_last(), key),
        }
    }
}

/// Why the memory table could not be read.
#[derive(Debug, Clone, Copy, PartialEq, Eq)]
pub enum MemInfoError {
    /// One of the required keys is absent.
    MissingKey,
    /// Free, buffers, cached and reclaimable memory add up to more than the total.
    UsedUnderflow,
}

/// `(total, used, swap total, swap free)` of the memory table `s`, in kB.
pub open spec fn meminfo(s: Seq<u8>) -> Result<(u64, u64, u64, u64), MemInfoError> {
    let ls = lines(s);
    let total = mem_value(ls, "MemTotal".spec_bytes());
    let free = mem_value(ls, "MemFree".spec_bytes());
    let buffers = mem_value(ls, "Buffers".spec_bytes());
    let cached = mem_value(ls, "Cached".spec_bytes());
    let reclaimable = mem_value(ls, "SReclaimable".spec_bytes());
    let swap_total = mem_value(ls, "SwapTotal".spec_bytes());
    let swap_free = mem_value(ls, "SwapFree".spec_bytes());
    if total is None || free is None || buffers is None || cached is None || reclaimable is None
        || swap_total is None || swap_free is None {
        Err(MemInfoError::MissingKey)
    } else if total->0 < free->0 + buffers->0 + cached->0 + reclaimable->0 {
        Err(MemInfoError::UsedUnderflow)
    } else {
        Ok(
            (
                total->0,
                (total->0 - free->0 - buffers->0 - cached->0 - reclaimable->0) as u64,
                swap_total->0,
                swap_free->0,
            ),
        )
    }
}

/// Reads one line of the memory table: the end of its key and its value.
#[verifier::loop_isolation(false)]
fn mem_entry_of(line: &[u8]) -> (r: Option<(usize, u64)>)
    ensures
        match r {
            Some((c, v)) => c <= line@.len() && mem_entry(line@) == Some((line@.subrange(0, c as int), v)),
            None => mem_entry(line@) is None,
        },
{
    let c = find_byte_from(line, 0, 58);
    if c >= line.len() {
        return None;
    }
    let mut q: usize = 0;
    while q < c
        invariant
            c < line@.len(),
            q <= c,
            forall|p: int| 0 <= p < q ==> !is_space(#[trigger] line@[p]),
        decreases c - q,
    {
        if is_space_byte(line[q]) {
            assert(is_space(line@[q as int]));
            return None;
        }
        q = q + 1;
    }
    let i = skip_spaces_from(line, c + 1);
    let j = skip_digits_from(line, i);
    let m = skip_spaces_from(line, j);
    if i < j && m < line.len() && line.len() - m >= 2 && line[m] == 107 && line[m + 1] == 66 {
        match parse_u64(slice_subrange(line, i, j)) {
            Some(v) => Some((c, v)),
            None => None,
        }
    } else {
        None
    }
}

/// The value of `key` in the memory table split into `ls`.
fn mem_lookup(ls: &Vec<Vec<u8>>, key: &[u8]) -> (r: Option<u64>)
    ensures
        r == mem_value(views(ls@), key@),
{
    let mut r: Option<u64> = None;
    let mut i: usize = 0;
    while i < ls.len()
        invariant
            i <= ls@.len(),
            r == mem_value(views(ls@).subrange(0, i as int), key@),
        decreases ls@.len() - i,
    {
        let line = ls[i].as_slice();
        let ghost pre = views(ls@).subrange(0, i as int + 1);
        assert(pre.drop_last() == views(ls@).subrange(0, i as int));
        assert(pre.last() == line@);
        match mem_entry_of(line) {
            Some((c, v)) => {
                if same_bytes(slice_subrange(line, 0, c), key) {
                    r = Some(v);
                }
            },
            None => {},
        }
        i = i + 1;
    }
    assert(views(ls@).subrange(0, ls@.len() as int) == views(ls@));
    r
}

/// Memory and swap figures from the text of the memory table, in kB:
/// `(total, total - free - buffers - cached - reclaimable, swap total, swap free)`.
pub fn get_memory(contents: &[u8]) -> (r: Result<(u64, u64, u64, u64), MemInfoError>)
    ensures
        r == meminfo(contents@),
{
    let ls = split_bytes(contents, 10);
    let total = mem_lookup(&ls, "MemTotal".as_bytes());
    let free = mem_lookup(&ls, "MemFree".as_bytes());
    let buffers = mem_lookup(&ls, "Buffers".as_bytes());
    let cached = mem_lookup(&ls, "Cached".as_bytes());
    let reclaimable = mem_lookup(&ls, "SReclaimable".as_bytes());
    let swap_total = mem_lookup(&ls, "SwapTotal".as_bytes());
    let swap_free = mem_lookup(&ls, "SwapFree".as_bytes());
    match (total, free, buffers, cached, reclaimable, swap_total, swap_free) {
        (Some(t), Some(f), Some(b), Some(c), Some(s), Some(st), Some(sf)) => {
            let unused: u128 = f as u128 + b as u128 + c as u128 + s as u128;
            if (t as u128) < unused {
                Err(MemInfoError::UsedUnderflow)
            } else {
                Ok((t, (t as u128 - unused) as u64, st, sf))
            }
        },
        _ => Err(MemInfoError::MissingKey),
    }
}

// ---------------------------------------------------------------- interface table

/// A line of the interface table: `name: n0 n1 ... n10 ...`, the name a single
/// token, the first eleven fields decimal. Gives `(n0, n8)`, the received and
/// sent bytes, for an interface that is not filtered out.
pub open spec fn dev_entry(line: Seq<u8>) -> Option<(u64, u64)> {
    let c = find_byte(line, 0, 58);
    let name = tokens(line.subrange(0, c));
    let f = tokens(line.subrange(c + 1, line.len() as int));
    if c < line.len() && name.len() == 1 && !is_ignored(name[0]) && f.len() >= 11 && (forall|
        k: int,
    | 0 <= k < 11 ==> #[trigger] decimal(f[k]) is Some) {
        Some((decimal(f[0])->0, decimal(f[8])->0))
    } else {
        None
    }
}

/// Received bytes summed over the lines of `ls` that count.
pub open spec fn dev_rx_total(ls: Seq<Seq<u8>>) -> nat
    decreases ls.len(),
{
    if ls.len() == 0 {
        0
    } else {
        dev_rx_total(ls.drop_last()) + match dev_entry(ls.last()) {
            Some((rx, _)) => rx as nat,
            None => 0,
        }
    }
}

/// Sent bytes summed over the lines of `ls` that count.
pub open spec fn dev_tx_total(ls: Seq<Seq<u8>>) -> nat
    decreases ls.len(),
{
    if ls.len() == 0 {
        0
    } else {
        dev_tx_total(ls.drop_last()) + match dev_entry(ls.last()) {
            Some((_, tx)) => tx as nat,
            None => 0,
        }
    }
}

/// Reads one line of the interface table.
#[verifier::loop_isolation(false)]
pub fn dev_entry_of(line: &[u8]) -> (r: Option<(u64, u64)>)
    ensures
        r == dev_entry(line@),
{
    let c = find_byte_from(line, 0, 58);
    if c >= line.len() {
        return None;
    }
    let name = split_tokens(slice_subrange(line, 0, c));
    if name.len() != 1 {
        return None;
    }
    assert(views(name@)[0] == name@[0]@);
    if is_ignored_iface(name[0].as_slice()) {
        return None;
    }
    let f = split_tokens(slice_subrange(line, c + 1, line.len()));
    if f.len() < 11 {
        return None;
    }
    let mut rx: u64 = 0;
    let mut tx: u64 = 0;
    let mut k: usize = 0;
    while k < 11
        invariant
            k <= 11,
            f@.len() >= 11,
            forall|q: int| 0 <= q < k ==> #[trigger] decimal(views(f@)[q]) is Some,
            k > 0 ==> decimal(views(f@)[0]) == Some(rx),
            k > 8 ==> decimal(views(f@)[8]) == Some(tx),
        decreases 11 - k,
    {
        assert(views(f@)[k as int] == f@[k as int]@);
        match parse_u64(f[k].as_slice()) {
            Some(v) => {
                if k == 0 {
                    rx = v;
                }
                if k == 8 {
                    tx = v;
                }
            },
            None => {
                assert(decimal(views(f@)[k as int]) is None);
                return None;
            },
        }
        k = k + 1;
    }
    Some((rx, tx))
}

/// Received and sent bytes summed over the interfaces of the interface table
/// `contents`, loopback and virtual interfaces left out; each sum stops at
/// `u64::MAX`.
pub fn get_sys_traffic(contents: &[u8]) -> (r: (u64, u64))
    ensures
        r.0 == saturate(dev_rx_total(lines(contents@))),
        r.1 == saturate(dev_tx_total(lines(contents@))),
{
    let ls = split_bytes(contents, 10);
    let mut rx: u64 = 0;
    let mut tx: u64 = 0;
    let mut i: usize = 0;
    while i < ls.len()
        invariant
            i <= ls@.len(),
            rx == saturate(dev_rx_total(views(ls@).subrange(0, i as int))),
            tx == saturate(dev_tx_total(views(ls@).subrange(0, i as int))),
        decreases ls@.len() - i,
    {
        let ghost pre = views(ls@).subrange(0, i as int + 1);
        assert(pre.drop_last() == views(ls@).subrange(0, i as int));
        assert(pre.last() == ls@[i as int]@);
        match dev_entry_of(ls[i].as_slice()) {
            Some((a, b)) => {
                rx = rx.saturating_add(a);
                tx = tx.saturating_add(b);
            },
            None => {},
        }
        i = i + 1;
    }
    assert(views(ls@).subrange(0, ls@.len() as int) == views(ls@));
    (rx, tx)
}

/// A table in which a single line counts gives exactly that line's received
/// and sent bytes as its totals.
pub proof fn single_interface_totals(ls: Seq<Seq<u8>>, k: int, rx: u64, tx: u64)
    requires
        0 <= k < ls.len(),
        dev_entry(ls[k]) == Some((rx, tx)),
        forall|j: int| 0 <= j < ls.len() && j != k ==> #[trigger] dev_entry(ls[j]) is None,
    ensures
        dev_rx_total(ls) == rx,
        dev_tx_total(ls) == tx,
    decreases ls.len(),
{
    let n = ls.len() - 1;
    if n == k {
        lemma_no_interface_totals(ls.drop_last());
    } else {
        assert(dev_entry(ls[n]) is None);
        assert forall|j: int| 0 <= j < ls.drop_last().len() && j != k implies #[trigger] dev_entry(
            ls.drop_last()[j],
        ) is None by {
            assert(ls.drop_last()[j] == ls[j]);
        }
        single_interface_totals(ls.drop_last(), k, rx, tx);
    }
}

proof fn lemma_no_interface_totals(ls: Seq<Seq<u8>>)
    requires
        forall|j: int| 0 <= j < ls.len() ==> #[trigger] dev_entry(ls[j]) is None,
    ensures
        dev_rx_total(ls) == 0,
        dev_tx_total(ls) == 0,
    decreases ls.len(),
{
    if ls.len() > 0 {
        assert(dev_entry(ls[ls.len() - 1]) is None);
        assert forall|j: int| 0 <= j < ls.drop_last().len() implies #[trigger] dev_entry(
            ls.drop_last()[j],
        ) is None by {
            assert(ls.drop_last()[j] == ls[j]);
        }
        lemma_no_interface_totals(ls.drop_last());
    }
}

/// The interface that a line of the interface table names: the single token
/// before its first `:`.
pub open spec fn dev_name(line: Seq<u8>) -> Option<Seq<u8>> {
    let c = find_byte(line, 0, 58);
    let name = tokens(line.subrange(0, c));
    if c < line.len() && name.len() == 1 {
        Some(name[0])
    } else {
        None
    }
}

proof fn lemma_ascii_bytes(chars: Seq<char>)
    requires
        is_ascii_chars(chars),
    ensures
        encode_utf8(chars) == Seq::new(chars.len(), |i: int| chars[i] as u8),
{
    is_ascii_chars_encode_utf8(chars);
    assert(encode_utf8(chars) =~= Seq::new(chars.len(), |i: int| chars[i] as u8));
}

/// Loopback and container interfaces are filtered out; an ordinary
/// ethernet interface is not.
pub proof fn example_interfaces_filtered()
    ensures
        is_ignored("lo".spec_bytes()),
        is_ignored("docker0".spec_bytes()),
        is_ignored("vnet1".spec_bytes()),
        !is_ignored("eth0".spec_bytes()),
{
    reveal_strlit("lo");
    reveal_strlit("docker");
    reveal_strlit("vnet");
    reveal_strlit("veth");
    reveal_strlit("vmbr");
    reveal_strlit("kube");
    reveal_strlit("br-");
    reveal_strlit("docker0");
    reveal_strlit("vnet1");
    reveal_strlit("eth0");
    lemma_ascii_bytes("lo"@);
    lemma_ascii_bytes("docker"@);
    lemma_ascii_bytes("vnet"@);
    lemma_ascii_bytes("veth"@);
    lemma_ascii_bytes("vmbr"@);
    lemma_ascii_bytes("kube"@);
    lemma_ascii_bytes("br-"@);
    lemma_ascii_bytes("docker0"@);
    lemma_ascii_bytes("vnet1"@);
    lemma_ascii_bytes("eth0"@);
    let lo = "lo".spec_bytes();
    let docker0 = "docker0".spec_bytes();
    let vnet1 = "vnet1".spec_bytes();
    let eth0 = "eth0".spec_bytes();
    assert(lo.subrange(0int, 0int + ignored_patterns()[0].len()) =~= ignored_patterns()[0]);
    assert(contains(lo, ignored_patterns()[0]));
    assert(docker0.subrange(0int, 0int + ignored_patterns()[1].len()) =~= ignored_patterns()[1]);
    assert(contains(docker0, ignored_patterns()[1]));
    assert(vnet1.subrange(0int, 0int + ignored_patterns()[2].len()) =~= ignored_patterns()[2]);
    assert(contains(vnet1, ignored_patterns()[2]));
    assert forall|k: int| 0 <= k < ignored_patterns().len() implies !contains(
        eth0,
        #[trigger] ignored_patterns()[k],
    ) by {
        let p = ignored_patterns()[k];
        assert forall|i: int| 0 <= i && i + p.len() <= eth0.len() implies #[trigger] eth0.subrange(
            i,
            i + p.len(),
        ) != p by {
            assert(eth0.subrange(i, i + p.len())[0] == eth0[i]);
        }
    }
}

/// In an interface table whose data lines name lo, eth0, docker0 and vnet1,
/// only eth0's line counts: the totals are its received and sent bytes.
pub proof fn example_table_totals(ls: Seq<Seq<u8>>, k: int, rx: u64, tx: u64)
    requires
        0 <= k < ls.len(),
        dev_name(ls[k]) == Some("eth0".spec_bytes()),
        dev_entry(ls[k]) == Some((rx, tx)),
        forall|j: int|
            0 <= j < ls.len() && j != k ==> #[trigger] dev_name(ls[j]) is None || dev_name(ls[j])
                == Some("lo".spec_bytes()) || dev_name(ls[j]) == Some("docker0".spec_bytes())
                || dev_name(ls[j]) == Some("vnet1".spec_bytes()),
    ensures
        saturate(dev_rx_total(ls)) == rx,
        saturate(dev_tx_total(ls)) == tx,
{
    example_interfaces_filtered();
    assert forall|j: int| 0 <= j < ls.len() && j != k implies #[trigger] dev_entry(ls[j]) is None by {
        assert(dev_name(ls[j]) is None || is_ignored(dev_name(ls[j])->0));
    }
    single_interface_totals(ls, k, rx, tx);
}

} // verus!
