//! Network totals from the traffic-accounting tool's JSON report: all-time
//! totals per interface, and the totals of a given calendar month.
use vstd::prelude::*;
use vstd::string::StringSliceAdditionalSpecFns;
use crate::counters::{example_interfaces_filtered, is_ignored, is_ignored_iface, saturate};
use crate::text::same_bytes;

verus! {

/// A JSON document as the report's logic reads it. Numbers keep their integer
/// value where they have one; strings are kept as UTF-8 bytes.
#[derive(Debug)]
pub enum Json {
    Null,
    Bool(bool),
    /// A non-negative integer.
    UInt(u64),
    /// A negative integer.
    NegInt(i64),
    /// A number with a fractional part or an exponent.
    Real,
    Str(Vec<u8>),
    Array(Vec<Json>),
    /// Members as the parser gives them, key and value.
    Object(Vec<(Vec<u8>, Json)>),
}

#[verifier::external_type_specification]
#[verifier::external_body]
pub struct ExValue(serde_json::Value);

/// The document that the bytes `b` hold, if they hold one.
pub uninterp spec fn json_text(b: Seq<u8>) -> Option<Json>;

/// Relies on serde_json::from_slice: parses the bytes as one JSON document.
#[verifier::external_body]
fn parse_json(b: &[u8]) -> (r: Option<Json>)
    ensures
        r == json_text(b@),
{
    serde_json::from_slice::<serde_json::Value>(b).ok().map(json_from_value)
}

/// Relies on serde_json::Value and serde_json::Number::{as_u64, as_i64}: moves a
/// parsed value into a `Json`, variant for variant.
#[verifier::external_body]
fn json_from_value(v: serde_json::Value) -> Json {
    match v {
        serde_json::Value::Null => Json::Null,
        serde_json::Value::Bool(b) => Json::Bool(b),
        serde_json::Value::Number(n) => match (n.as_u64(), n.as_i64()) {
            (Some(u), _) => Json::UInt(u),
            (None, Some(i)) => Json::NegInt(i),
            (None, None) => Json::Real,
        },
        serde_json::Value::String(s) => Json::Str(s.into_bytes()),
        serde_json::Value::Array(a) => Json::Array(a.into_iter().map(json_from_value).collect()),
        serde_json::Value::Object(m) => Json::Object(
            m.into_iter().map(|(k, x)| (k.into_bytes(), json_from_value(x))).collect(),
        ),
    }
}

// ---------------------------------------------------------------- reading a document

/// The member `key` of the members `fs`; of repeated keys the last one.
pub open spec fn member(fs: Seq<(Vec<u8>, Json)>, key: Seq<u8>) -> Option<Json>
    decreases fs.len(),
{
    if fs.len() == 0 {
        None
    } else if fs.last().0@ == key {
        Some(fs.last().1)
    } else {
        member(fs.drop_last(), key)
    }
}

/// The member `key` of `j`, where `j` is an object that has one.
pub open spec fn at(j: Json, key: Seq<u8>) -> Option<Json> {
    match j {
        Json::Object(fs) => member(fs@, key),
        _ => None,
    }
}

/// `j.key1.key2`.
pub open spec fn at2(j: Json, key1: Seq<u8>, key2: Seq<u8>) -> Option<Json> {
    match at(j, key1) {
        Some(x) => at(x, key2),
        None => None,
    }
}

pub open spec fn as_u64(j: Option<Json>) -> Option<u64> {
    match j {
        Some(Json::UInt(n)) => Some(n),
        _ => None,
    }
}

/// The value of an integer that fits in an `i64`.
pub open spec fn as_i64(j: Option<Json>) -> Option<int> {
    match j {
        Some(Json::UInt(n)) => if n <= i64::MAX {
            Some(n as int)
        } else {
            None
        },
        Some(Json::NegInt(n)) => Some(n as int),
        _ => None,
    }
}

pub open spec fn as_array(j: Option<Json>) -> Option<Seq<Json>> {
    match j {
        Some(Json::Array(v)) => Some(v@),
        _ => None,
    }
}

pub open spec fn as_str(j: Option<Json>) -> Option<Seq<u8>> {
    match j {
        Some(Json::Str(s)) => Some(s@),
        _ => None,
    }
}

pub open spec fn is_object(j: Option<Json>) -> bool {
    j matches Some(Json::Object(_))
}

fn member_of<'a>(j: &'a Json, key: &[u8]) -> (r: Option<&'a Json>)
    ensures
        match r {
            Some(x) => at(*j, key@) == Some(*x),
            None => at(*j, key@) is None,
        },
{
    match j {
        Json::Object(fs) => {
            let mut found: Option<&'a Json> = None;
            let mut i: usize = 0;
            while i < fs.len()
                invariant
                    i <= fs@.len(),
                    match found {
                        Some(x) => member(fs@.subrange(0, i as int), key@) == Some(*x),
                        None => member(fs@.subrange(0, i as int), key@) is None,
                    },
                decreases fs@.len() - i,
            {
                let ghost pre = fs@.subrange(0, i as int + 1);
                assert(pre.drop_last() == fs@.subrange(0, i as int));
                if same_bytes(fs[i].0.as_slice(), key) {
                    found = Some(&fs[i].1);
                }
                i = i + 1;
            }
            assert(fs@.subrange(0, fs@.len() as int) == fs@);
            found
        },
        _ => None,
    }
}

fn u64_of(j: Option<&Json>) -> (r: Option<u64>)
    ensures
        r == as_u64(
            match j {
                Some(x) => Some(*x),
                None => None,
            },
        ),
{
    match j {
        Some(Json::UInt(n)) => Some(*n),
        _ => None,
    }
}

fn i64_of(j: Option<&Json>) -> (r: Option<i64>)
    ensures
        match r {
            Some(v) => as_i64(
                match j {
                    Some(x) => Some(*x),
                    None => None,
                },
            ) == Some(v as int),
            None => as_i64(
                match j {
                    Some(x) => Some(*x),
                    None => None,
                },
            ) is None,
        },
{
    match j {
        Some(Json::UInt(n)) => if *n <= 9223372036854775807u64 {
            Some(*n as i64)
        } else {
            None
        },
        Some(Json::NegInt(n)) => Some(*n),
        _ => None,
    }
}

// ---------------------------------------------------------------- the report

/// Why the report could not be read.
#[derive(Debug, Clone, Copy, PartialEq, Eq)]
pub enum VnstatError {
    /// The tool's output is not JSON.
    InvalidJson,
    /// A field that the report must have is absent or of another type.
    Malformed,
}

/// One month entry: `None` where it is malformed; `Some(None)` for another
/// month than `year`/`month`; else its received and sent bytes. The bytes of
/// another month are not read.
pub open spec fn month_entry(e: Json, year: int, month: int) -> Option<Option<(u64, u64)>> {
    let y = as_i64(at2(e, "date".spec_bytes(), "year".spec_bytes()));
    let m = as_i64(at2(e, "date".spec_bytes(), "month".spec_bytes()));
    let rx = as_u64(at(e, "rx".spec_bytes()));
    let tx = as_u64(at(e, "tx".spec_bytes()));
    if y is None || m is None {
        None
    } else if y->0 != year || m->0 != month {
        Some(None)
    } else if rx is None || tx is None {
        None
    } else {
        Some(Some((rx->0, tx->0)))
    }
}

/// Received and sent bytes of the entries of `year`/`month`, or `None` where
/// an entry is malformed.
pub open spec fn month_sum(es: Seq<Json>, year: int, month: int) -> Option<(nat, nat)>
    decreases es.len(),
{
    if es.len() == 0 {
        Some((0, 0))
    } else {
        match (month_sum(es.drop_last(), year, month), month_entry(es.last(), year, month)) {
            (Some((a, b)), Some(Some((rx, tx)))) => Some((a + rx as nat, b + tx as nat)),
            (Some((a, b)), Some(None)) => Some((a, b)),
            _ => None,
        }
    }
}

/// One interface: `None` where it is malformed; `Some(None)` where it is
/// filtered out (nothing else of it is read); else its all-time received and
/// sent bytes and those of `year`/`month`.
pub open spec fn iface_entry(i: Json, year: int, month: int) -> Option<Option<(nat, nat, nat, nat)>> {
    let name = as_str(at(i, "name".spec_bytes()));
    let total = at2(i, "traffic".spec_bytes(), "total".spec_bytes());
    let months = as_array(at2(i, "traffic".spec_bytes(), "month".spec_bytes()));
    let rx = as_u64(
        match total {
            Some(t) => at(t, "rx".spec_bytes()),
            None => None,
        },
    );
    let tx = as_u64(
        match total {
            Some(t) => at(t, "tx".spec_bytes()),
            None => None,
        },
    );
    if name is None {
        None
    } else if is_ignored(name->0) {
        Some(None)
    } else if !is_object(total) || months is None || rx is None || tx is None {
        None
    } else {
        match month_sum(months->0, year, month) {
            Some((mrx, mtx)) => Some(Some((rx->0 as nat, tx->0 as nat, mrx, mtx))),
            None => None,
        }
    }
}

/// The four sums over the interfaces `is`, or `None` where one is malformed.
pub open spec fn iface_sum(is: Seq<Json>, year: int, month: int) -> Option<(nat, nat, nat, nat)>
    decreases is.len(),
{
    if is.len() == 0 {
        Some((0, 0, 0, 0))
    } else {
        match (iface_sum(is.drop_last(), year, month), iface_entry(is.last(), year, month)) {
            (Some((a, b, c, d)), Some(Some((rx, tx, mrx, mtx)))) => Some(
                (a + rx, b + tx, c + mrx, d + mtx),
            ),
            (Some(s), Some(None)) => Some(s),
            _ => None,
        }
    }
}

/// `(rx total, tx total, rx this month, tx this month)` of the report `doc`,
/// over the interfaces that are not filtered out; each sum stops at `u64::MAX`.
pub open spec fn vnstat_traffic(doc: Json, year: int, month: int) -> Result<
    (u64, u64, u64, u64),
    VnstatError,
> {
    match as_array(at(doc, "interfaces".spec_bytes())) {
        Some(is) => match iface_sum(is, year, month) {
            Some((a, b, c, d)) => Ok((saturate(a), saturate(b), saturate(c), saturate(d))),
            None => Err(VnstatError::Malformed),
        },
        None => Err(VnstatError::Malformed),
    }
}

proof fn lemma_month_sum_stays_none(es: Seq<Json>, i: int, year: int, month: int)
    requires
        0 <= i <= es.len(),
        month_sum(es.subrange(0, i), year, month) is None,
    ensures
        month_sum(es, year, month) is None,
    decreases es.len() - i,
{
    if i < es.len() {
        assert(es.subrange(0, i + 1).drop_last() == es.subrange(0, i));
        lemma_month_sum_stays_none(es, i + 1, year, month);
    } else {
        assert(es.subrange(0, i) == es);
    }
}

proof fn lemma_iface_sum_stays_none(is: Seq<Json>, i: int, year: int, month: int)
    requires
        0 <= i <= is.len(),
        iface_sum(is.subrange(0, i), year, month) is None,
    ensures
        iface_sum(is, year, month) is None,
    decreases is.len() - i,
{
    if i < is.len() {
        assert(is.subrange(0, i + 1).drop_last() == is.subrange(0, i));
        lemma_iface_sum_stays_none(is, i + 1, year, month);
    } else {
        assert(is.subrange(0, i) == is);
    }
}

proof fn lemma_saturate_add(x: nat, y: nat)
    ensures
        saturate(x + y) == saturate(x).saturating_add(saturate(y)),
{
}

fn month_totals(es: &Vec<Json>, year: i32, month: u32) -> (r: Option<(u64, u64)>)
    ensures
        match month_sum(es@, year as int, month as int) {
            Some((a, b)) => r == Some((saturate(a), saturate(b))),
            None => r is None,
        },
{
    let mut rx: u64 = 0;
    let mut tx: u64 = 0;
    let ghost mut sums: (nat, nat) = (0, 0);
    let mut i: usize = 0;
    while i < es.len()
        invariant
            i <= es@.len(),
            month_sum(es@.subrange(0, i as int), year as int, month as int) == Some(sums),
            rx == saturate(sums.0),
            tx == saturate(sums.1),
        decreases es@.len() - i,
    {
        let ghost pre = es@.subrange(0, i as int + 1);
        assert(pre.drop_last() == es@.subrange(0, i as int));
        let e = &es[i];
        let date = member_of(e, "date".as_bytes());
        let (y, m) = match date {
            Some(d) => (i64_of(member_of(d, "year".as_bytes())), i64_of(member_of(d, "month".as_bytes()))),
            None => (None, None),
        };
        match (y, m) {
            (Some(y), Some(m)) => {
                if y == year as i64 && m == month as i64 {
                    match (u64_of(member_of(e, "rx".as_bytes())), u64_of(member_of(e, "tx".as_bytes()))) {
                        (Some(a), Some(b)) => {
                            proof {
                                lemma_saturate_add(sums.0, a as nat);
                                lemma_saturate_add(sums.1, b as nat);
                                sums = (sums.0 + a as nat, sums.1 + b as nat);
                            }
                            rx = rx.saturating_add(a);
                            tx = tx.saturating_add(b);
                        },
                        _ => {
                            proof {
                                lemma_month_sum_stays_none(es@, i + 1, year as int, month as int);
                            }
                            return None;
                        },
                    }
                }
            },
            _ => {
                proof {
                    lemma_month_sum_stays_none(es@, i + 1, year as int, month as int);
                }
                return None;
            },
        }
        i = i + 1;
    }
    assert(es@.subrange(0, es@.len() as int) == es@);
    Some((rx, tx))
}

/// Network totals of the report `doc` for the calendar month `year`/`month`:
/// `(rx total, tx total, rx this month, tx this month)`.
#[verifier::loop_isolation(false)]
pub fn vnstat_totals(doc: &Json, year: i32, month: u32) -> (r: Result<(u64, u64, u64, u64), VnstatError>)
    ensures
        r == vnstat_traffic(*doc, year as int, month as int),
{
    let is = match member_of(doc, "interfaces".as_bytes()) {
        Some(Json::Array(is)) => is,
        _ => {
            return Err(VnstatError::Malformed);
        },
    };
    let mut a: u64 = 0;
    let mut b: u64 = 0;
    let mut c: u64 = 0;
    let mut d: u64 = 0;
    let ghost mut sums: (nat, nat, nat, nat) = (0, 0, 0, 0);
    let mut i: usize = 0;
    while i < is.len()
        invariant
            i <= is@.len(),
            iface_sum(is@.subrange(0, i as int), year as int, month as int) == Some(sums),
            a == saturate(sums.0),
            b == saturate(sums.1),
            c == saturate(sums.2),
            d == saturate(sums.3),
        decreases is@.len() - i,
    {
        let ghost pre = is@.subrange(0, i as int + 1);
        assert(pre.drop_last() == is@.subrange(0, i as int));
        let e = &is[i];
        let name = match member_of(e, "name".as_bytes()) {
            Some(Json::Str(s)) => s,
            _ => {
                proof {
                    lemma_iface_sum_stays_none(is@, i + 1, year as int, month as int);
                }
                return Err(VnstatError::Malformed);
            },
        };
        if !is_ignored_iface(name.as_slice()) {
            let traffic = member_of(e, "traffic".as_bytes());
            let (total, months) = match traffic {
                Some(t) => (member_of(t, "total".as_bytes()), member_of(t, "month".as_bytes())),
                None => (None, None),
            };
            let (rx, tx) = match total {
                Some(Json::Object(_)) => (
                    u64_of(member_of(total.unwrap(), "rx".as_bytes())),
                    u64_of(member_of(total.unwrap(), "tx".as_bytes())),
                ),
                _ => {
                    proof {
                        lemma_iface_sum_stays_none(is@, i + 1, year as int, month as int);
                    }
                    return Err(VnstatError::Malformed);
                },
            };
            let es = match months {
                Some(Json::Array(es)) => es,
                _ => {
                    proof {
                        lemma_iface_sum_stays_none(is@, i + 1, year as int, month as int);
                    }
                    return Err(VnstatError::Malformed);
                },
            };
            match (rx, tx, month_totals(es, year, month)) {
                (Some(rx), Some(tx), Some((mrx, mtx))) => {
                    proof {
                        let (_, _, m0, m1) = iface_entry(*e, year as int, month as int)->0->0;
                        lemma_saturate_add(sums.0, rx as nat);
                        lemma_saturate_add(sums.1, tx as nat);
                        lemma_saturate_add(sums.2, m0);
                        lemma_saturate_add(sums.3, m1);
                        sums = (sums.0 + rx as nat, sums.1 + tx as nat, sums.2 + m0, sums.3 + m1);
                    }
                    a = a.saturating_add(rx);
                    b = b.saturating_add(tx);
                    c = c.saturating_add(mrx);
                    d = d.saturating_add(mtx);
                },
                _ => {
                    proof {
                        lemma_iface_sum_stays_none(is@, i + 1, year as int, month as int);
                    }
                    return Err(VnstatError::Malformed);
                },
            }
        }
        i = i + 1;
    }
    assert(is@.subrange(0, is@.len() as int) == is@);
    Ok((a, b, c, d))
}

/// What the tool's output `out` gives for the calendar month `year`/`month`:
/// `InvalidJson` where it is not JSON, else the report's totals.
pub open spec fn vnstat_report(out: Seq<u8>, year: int, month: int) -> Result<
    (u64, u64, u64, u64),
    VnstatError,
> {
    match json_text(out) {
        None => Err(VnstatError::InvalidJson),
        Some(doc) => vnstat_traffic(doc, year, month),
    }
}

/// Network totals from the traffic-accounting tool's JSON output, for the
/// local calendar month `year`/`month`: `(rx total, tx total, rx this month,
/// tx this month)`.
pub fn get_vnstat_traffic(output: &[u8], year: i32, month: u32) -> (r: Result<
    (u64, u64, u64, u64),
    VnstatError,
>)
    ensures
        r == vnstat_report(output@, year as int, month as int),
{
    match parse_json(output) {
        Some(doc) => vnstat_totals(&doc, year, month),
        None => Err(VnstatError::InvalidJson),
    }
}

proof fn lemma_single_iface_sum(is: Seq<Json>, k: int, year: int, month: int, t: (nat, nat, nat, nat))
    requires
        0 <= k < is.len(),
        iface_entry(is[k], year, month) == Some(Some(t)),
        forall|j: int|
            0 <= j < is.len() && j != k ==> #[trigger] iface_entry(is[j], year, month) == Some(
                None::<(nat, nat, nat, nat)>,
            ),
    ensures
        iface_sum(is, year, month) == Some(t),
    decreases is.len(),
{
    let n = is.len() - 1;
    assert forall|j: int| 0 <= j < is.drop_last().len() && j != k implies #[trigger] iface_entry(
        is.drop_last()[j],
        year,
        month,
    ) == Some(None::<(nat, nat, nat, nat)>) by {
        assert(is.drop_last()[j] == is[j]);
    }
    if n == k {
        lemma_no_iface_sum(is.drop_last(), year, month);
    } else {
        assert(iface_entry(is[n], year, month) == Some(None::<(nat, nat, nat, nat)>));
        lemma_single_iface_sum(is.drop_last(), k, year, month, t);
    }
}

proof fn lemma_no_iface_sum(is: Seq<Json>, year: int, month: int)
    requires
        forall|j: int|
            0 <= j < is.len() ==> #[trigger] iface_entry(is[j], year, month) == Some(
                None::<(nat, nat, nat, nat)>,
            ),
    ensures
        iface_sum(is, year, month) == Some((0nat, 0nat, 0nat, 0nat)),
    decreases is.len(),
{
    if is.len() > 0 {
        assert(iface_entry(is[is.len() - 1], year, month) == Some(None::<(nat, nat, nat, nat)>));
        assert forall|j: int| 0 <= j < is.drop_last().len() implies #[trigger] iface_entry(
            is.drop_last()[j],
            year,
            month,
        ) == Some(None::<(nat, nat, nat, nat)>) by {
            assert(is.drop_last()[j] == is[j]);
        }
        lemma_no_iface_sum(is.drop_last(), year, month);
    }
}

/// In a report whose interfaces are named lo, eth0, docker0 and vnet1, only
/// eth0 counts: the four totals are eth0's all-time and this month's bytes.
pub proof fn example_report_totals(doc: Json, k: int, year: int, month: int, t: (nat, nat, nat, nat))
    requires
        as_array(at(doc, "interfaces".spec_bytes())) is Some,
        ({
            let is = as_array(at(doc, "interfaces".spec_bytes()))->0;
            &&& 0 <= k < is.len()
            &&& as_str(at(is[k], "name".spec_bytes())) == Some("eth0".spec_bytes())
            &&& iface_entry(is[k], year, month) == Some(Some(t))
            &&& forall|j: int|
                0 <= j < is.len() && j != k ==> {
                    let n = #[trigger] as_str(at(is[j], "name".spec_bytes()));
                    n == Some("lo".spec_bytes()) || n == Some("docker0".spec_bytes()) || n == Some(
                        "vnet1".spec_bytes(),
                    )
                }
        }),
    ensures
        vnstat_traffic(doc, year, month) == Ok::<(u64, u64, u64, u64), VnstatError>(
            (saturate(t.0), saturate(t.1), saturate(t.2), saturate(t.3)),
        ),
{
    example_interfaces_filtered();
    let is = as_array(at(doc, "interfaces".spec_bytes()))->0;
    assert forall|j: int| 0 <= j < is.len() && j != k implies #[trigger] iface_entry(
        is[j],
        year,
        month,
    ) == Some(None::<(nat, nat, nat, nat)>) by {
        assert(as_str(at(is[j], "name".spec_bytes())) is Some);
        assert(is_ignored(as_str(at(is[j], "name".spec_bytes()))->0));
    }
    lemma_single_iface_sum(is, k, year, month, t);
}

} // verus!
