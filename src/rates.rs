//! The update rules of the two background samplers: CPU busy percentage from
//! consecutive CPU counter readings, and network throughput from consecutive
//! interface totals.
use vstd::prelude::*;
use crate::counters::{
    dev_entry, dev_name, dev_rx_total, dev_tx_total, example_table_totals, get_sys_traffic, saturate,
};
use vstd::string::StringSliceAdditionalSpecFns;
use crate::text::{decimal, lines, parse_u64, split_bytes, split_tokens, tokens, views};

verus! {

// ---------------------------------------------------------------- CPU

/// Cumulative jiffies of the four CPU buckets, in the kernel's order.
#[derive(Debug, Clone, Copy, PartialEq, Eq)]
pub struct CpuTimes {
    pub user: u64,
    pub nice: u64,
    pub system: u64,
    pub idle: u64,
}

impl CpuTimes {
    pub open spec fn total(self) -> nat {
        self.user as nat + self.nice as nat + self.system as nat + self.idle as nat
    }

    /// No bucket of `cur` is behind the same bucket of `self`.
    pub open spec fn advances_to(self, cur: CpuTimes) -> bool {
        self.user <= cur.user && self.nice <= cur.nice && self.system <= cur.system && self.idle
            <= cur.idle
    }

    /// All four buckets at zero.
    pub fn zero() -> (r: CpuTimes)
        ensures
            r.total() == 0,
            r == (CpuTimes { user: 0, nice: 0, system: 0, idle: 0 }),
    {
        CpuTimes { user: 0, nice: 0, system: 0, idle: 0 }
    }
}

/// Jiffies elapsed between two readings, at least 1.
pub open spec fn elapsed_jiffies(prev: CpuTimes, cur: CpuTimes) -> nat {
    if cur.total() - prev.total() <= 0 {
        1
    } else {
        (cur.total() - prev.total()) as nat
    }
}

/// `100 - 100 * idle / elapsed`, rounded to the nearest integer, halves up.
pub open spec fn busy_percent(prev: CpuTimes, cur: CpuTimes) -> u64 {
    let st: int = elapsed_jiffies(prev, cur) as int;
    let idle: int = cur.idle - prev.idle;
    ((200 * (st - idle) + st) / (2 * st)) as u64
}

/// The four buckets read from the first line of the kernel's stat table: the
/// second to fifth whitespace-separated fields of that line.
pub open spec fn cpu_times_of(s: Seq<u8>) -> Option<CpuTimes> {
    let t = tokens(lines(s)[0]);
    if t.len() >= 5 && decimal(t[1]) is Some && decimal(t[2]) is Some && decimal(t[3]) is Some
        && decimal(t[4]) is Some {
        Some(
            CpuTimes {
                user: decimal(t[1])->0,
                nice: decimal(t[2])->0,
                system: decimal(t[3])->0,
                idle: decimal(t[4])->0,
            },
        )
    } else {
        None
    }
}

/// Reads the CPU buckets from the text of the kernel's stat table.
pub fn parse_cpu_times(stat: &[u8]) -> (r: Option<CpuTimes>)
    ensures
        r == cpu_times_of(stat@),
{
    let ls = split_bytes(stat, 10);
    assert(views(ls@)[0] == ls@[0]@);
    let t = split_tokens(ls[0].as_slice());
    if t.len() < 5 {
        return None;
    }
    assert(views(t@)[1] == t@[1]@);
    assert(views(t@)[2] == t@[2]@);
    assert(views(t@)[3] == t@[3]@);
    assert(views(t@)[4] == t@[4]@);
    match (
        parse_u64(t[1].as_slice()),
        parse_u64(t[2].as_slice()),
        parse_u64(t[3].as_slice()),
        parse_u64(t[4].as_slice()),
    ) {
        (Some(user), Some(nice), Some(system), Some(idle)) => Some(
            CpuTimes { user, nice, system, idle },
        ),
        _ => None,
    }
}

/// Busy percentage of the CPU between two readings.
pub fn cpu_busy_percent(prev: CpuTimes, cur: CpuTimes) -> (r: u64)
    requires
        prev.advances_to(cur),
    ensures
        r == busy_percent(prev, cur),
        r <= 100,
{
    let pre: u128 = prev.user as u128 + prev.nice as u128 + prev.system as u128
        + prev.idle as u128;
    let now: u128 = cur.user as u128 + cur.nice as u128 + cur.system as u128 + cur.idle as u128;
    let mut st: u128 = now - pre;
    if st == 0 {
        st = 1;
    }
    let idle: u128 = (cur.idle - prev.idle) as u128;
    assert(idle <= st);
    assert(200 * (st - idle) + st <= 201 * st) by (nonlinear_arith)
        requires
            idle <= st,
    ;
    assert((200 * (st - idle) + st) / (2 * st) <= 100) by (nonlinear_arith)
        requires
            idle <= st,
            st >= 1,
    ;
    ((200 * (st - idle) + st) / (2 * st)) as u64
}

/// The CPU sampler's state: the last published percentage and the reading it
/// was computed from.
#[derive(Debug, Clone, Copy, PartialEq, Eq)]
pub struct CpuPercent {
    pub percent: u64,
    pub prev: CpuTimes,
}

/// The sampler's state after a reading `cur`. A reading in which some bucket
/// went backwards publishes nothing; it is kept as the base of the next one.
pub open spec fn cpu_step(s: CpuPercent, cur: CpuTimes) -> CpuPercent {
    CpuPercent {
        percent: if s.prev.advances_to(cur) {
            busy_percent(s.prev, cur)
        } else {
            s.percent
        },
        prev: cur,
    }
}

impl CpuPercent {
    /// The state before the first reading: zero published, zero counters.
    pub fn new() -> (r: CpuPercent)
        ensures
            r.percent == 0,
            r.prev.total() == 0,
    {
        CpuPercent { percent: 0, prev: CpuTimes::zero() }
    }

    /// Takes in one counter reading.
    pub fn record(&mut self, cur: CpuTimes)
        ensures
            *final(self) == cpu_step(*old(self), cur),
    {
        if self.prev.user <= cur.user && self.prev.nice <= cur.nice && self.prev.system
            <= cur.system && self.prev.idle <= cur.idle {
            self.percent = cpu_busy_percent(self.prev, cur);
        }
        self.prev = cur;
    }

    /// One tick of the CPU sampler on the text of the kernel's stat table; a
    /// text that cannot be read leaves the state as it was.
    pub fn tick(&mut self, stat: &[u8])
        ensures
            *final(self) == match cpu_times_of(stat@) {
                Some(cur) => cpu_step(*old(self), cur),
                None => *old(self),
            },
    {
        match parse_cpu_times(stat) {
            Some(cur) => self.record(cur),
            None => {},
        }
    }
}

/// With all the time in the idle bucket the CPU is 0% busy; with none of it,
/// 100% busy.
pub proof fn cpu_percent_extremes(prev: CpuTimes, cur: CpuTimes)
    requires
        prev.advances_to(cur),
    ensures
        cur.total() > prev.total() && cur.idle - prev.idle == cur.total() - prev.total()
            ==> busy_percent(prev, cur) == 0,
        cur.idle == prev.idle ==> busy_percent(prev, cur) == 100,
{
    let st: int = elapsed_jiffies(prev, cur) as int;
    let idle: int = cur.idle - prev.idle;
    if cur.total() > prev.total() && idle == cur.total() - prev.total() {
        assert(st == idle);
        assert((200 * (st - idle) + st) / (2 * st) == 0) by (nonlinear_arith)
            requires
                st == idle,
                st >= 1,
        ;
    }
    if idle == 0 {
        assert((200 * (st - idle) + st) / (2 * st) == 100) by (nonlinear_arith)
            requires
                idle == 0,
                st >= 1,
        ;
    }
}

// ---------------------------------------------------------------- network

/// Bytes per second between two cumulative readings `elapsed` seconds apart;
/// 0 where no time passed or the counter went backwards.
pub open spec fn rate(cur: u64, prev: u64, elapsed: u64) -> u64 {
    if elapsed == 0 || cur < prev {
        0
    } else {
        ((cur - prev) / (elapsed as int)) as u64
    }
}

/// The network sampler's state: the last published rates, the cumulative
/// totals and the clock (in seconds) of the last reading, and the seconds
/// between the last two readings.
#[derive(Debug, Clone, Copy, PartialEq, Eq)]
pub struct NetSpeed {
    pub diff: u64,
    pub clock: u64,
    pub netrx: u64,
    pub nettx: u64,
    pub avgrx: u64,
    pub avgtx: u64,
}

/// The sampler's state after reading totals `rx`, `tx` at `now`. A clock that
/// did not move forward counts as no time elapsed.
pub open spec fn net_step(s: NetSpeed, rx: u64, tx: u64, now: u64) -> NetSpeed {
    let elapsed: u64 = if now > s.clock {
        (now - s.clock) as u64
    } else {
        0
    };
    NetSpeed {
        diff: elapsed,
        clock: now,
        netrx: rate(rx, s.avgrx, elapsed),
        nettx: rate(tx, s.avgtx, elapsed),
        avgrx: rx,
        avgtx: tx,
    }
}

fn rate_of(cur: u64, prev: u64, elapsed: u64) -> (r: u64)
    ensures
        r == rate(cur, prev, elapsed),
{
    if elapsed == 0 || cur < prev {
        0
    } else {
        (cur - prev) / elapsed
    }
}

impl NetSpeed {
    /// The state at start: everything zero.
    pub fn new() -> (r: NetSpeed)
        ensures
            r == (NetSpeed { diff: 0, clock: 0, netrx: 0, nettx: 0, avgrx: 0, avgtx: 0 }),
    {
        NetSpeed { diff: 0, clock: 0, netrx: 0, nettx: 0, avgrx: 0, avgtx: 0 }
    }

    /// Takes in the cumulative totals read at `now` (seconds).
    pub fn record(&mut self, rx: u64, tx: u64, now: u64)
        ensures
            *final(self) == net_step(*old(self), rx, tx, now),
            now <= old(self).clock ==> final(self).netrx == 0 && final(self).nettx == 0,
    {
        let elapsed: u64 = if now > self.clock {
            now - self.clock
        } else {
            0
        };
        self.netrx = rate_of(rx, self.avgrx, elapsed);
        self.nettx = rate_of(tx, self.avgtx, elapsed);
        self.diff = elapsed;
        self.clock = now;
        self.avgrx = rx;
        self.avgtx = tx;
    }

    /// One tick of the network sampler on the text of the interface table
    /// read at `now` (seconds).
    pub fn tick(&mut self, dev: &[u8], now: u64)
        ensures
            *final(self) == net_step(
                *old(self),
                saturate(dev_rx_total(lines(dev@))),
                saturate(dev_tx_total(lines(dev@))),
                now,
            ),
    {
        let (rx, tx) = get_sys_traffic(dev);
        self.record(rx, tx, now);
    }
}

/// A tick of the network sampler on a table whose data lines name lo, eth0,
/// docker0 and vnet1 takes in eth0's received and sent bytes alone.
pub proof fn example_tick_totals(s: NetSpeed, dev: Seq<u8>, k: int, rx: u64, tx: u64, now: u64)
    requires
        0 <= k < lines(dev).len(),
        dev_name(lines(dev)[k]) == Some("eth0".spec_bytes()),
        dev_entry(lines(dev)[k]) == Some((rx, tx)),
        forall|j: int|
            0 <= j < lines(dev).len() && j != k ==> #[trigger] dev_name(lines(dev)[j]) is None
                || dev_name(lines(dev)[j]) == Some("lo".spec_bytes()) || dev_name(lines(dev)[j])
                == Some("docker0".spec_bytes()) || dev_name(lines(dev)[j]) == Some(
                "vnet1".spec_bytes(),
            ),
    ensures
        ({
            let t = net_step(
                s,
                saturate(dev_rx_total(lines(dev))),
                saturate(dev_tx_total(lines(dev))),
                now,
            );
            t.avgrx == rx && t.avgtx == tx
        }),
{
    example_table_totals(lines(dev), k, rx, tx);
}

} // verus!
