//! Assembly of one snapshot from the collectors and the samplers' latest state.
use vstd::prelude::*;
use crate::counters::{dev_rx_total, dev_tx_total, get_memory, get_sys_traffic, get_uptime, meminfo, saturate, uptime_of, MemInfoError};
use crate::disk::{get_hdd, hdd_of};
use crate::rates::{CpuPercent, NetSpeed};
use crate::text::lines;
use crate::vnstat::{get_vnstat_traffic, vnstat_report, VnstatError};

verus! {

/// Options of a sampling pass.
#[derive(Debug, Clone, Copy, PartialEq, Eq)]
pub struct Args {
    /// Take network totals from the traffic-accounting tool instead of the
    /// kernel's interface table.
    pub vnstat: bool,
}

/// The integer fields of one snapshot. Memory and swap are in kB, disk in MB,
/// traffic in bytes, rates in bytes per second, CPU in percent.
#[derive(Debug, Clone, Copy, PartialEq, Eq)]
pub struct StatRequest {
    pub vnstat: bool,
    pub uptime: u64,
    pub memory_total: u64,
    pub memory_used: u64,
    pub swap_total: u64,
    pub swap_used: u64,
    pub hdd_total: u64,
    pub hdd_used: u64,
    pub network_in: u64,
    pub network_out: u64,
    pub last_network_in: u64,
    pub last_network_out: u64,
    pub cpu: u64,
    pub network_rx: u64,
    pub network_tx: u64,
}

impl StatRequest {
    /// A snapshot with every field zero or false.
    pub fn new() -> (r: StatRequest)
        ensures
            r == (StatRequest {
                vnstat: false,
                uptime: 0,
                memory_total: 0,
                memory_used: 0,
                swap_total: 0,
                swap_used: 0,
                hdd_total: 0,
                hdd_used: 0,
                network_in: 0,
                network_out: 0,
                last_network_in: 0,
                last_network_out: 0,
                cpu: 0,
                network_rx: 0,
                network_tx: 0,
            }),
    {
        StatRequest {
            vnstat: false,
            uptime: 0,
            memory_total: 0,
            memory_used: 0,
            swap_total: 0,
            swap_used: 0,
            hdd_total: 0,
            hdd_used: 0,
            network_in: 0,
            network_out: 0,
            last_network_in: 0,
            last_network_out: 0,
            cpu: 0,
            network_rx: 0,
            network_tx: 0,
        }
    }
}

/// Why a sampling pass produced no snapshot.
#[derive(Debug, Clone, Copy, PartialEq, Eq)]
pub enum SampleError {
    Memory(MemInfoError),
    Vnstat(VnstatError),
}

/// `a - b`, or 0 where `b` is larger.
pub open spec fn minus(a: u64, b: u64) -> u64 {
    if b <= a {
        (a - b) as u64
    } else {
        0
    }
}

/// The snapshot `s` filled in from the collectors' results. `traffic` is
/// `(in, out, in this month, out this month)`; the last-period figures are
/// only written in traffic-accounting mode.
pub open spec fn filled(
    s: StatRequest,
    vnstat: bool,
    uptime: u64,
    mem: (u64, u64, u64, u64),
    hdd: (u64, u64),
    traffic: (u64, u64, u64, u64),
    cpu: CpuPercent,
    net: NetSpeed,
) -> StatRequest {
    StatRequest {
        vnstat,
        uptime,
        memory_total: mem.0,
        memory_used: mem.1,
        swap_total: mem.2,
        swap_used: minus(mem.2, mem.3),
        hdd_total: hdd.0,
        hdd_used: hdd.1,
        network_in: traffic.0,
        network_out: traffic.1,
        last_network_in: if vnstat {
            minus(traffic.0, traffic.2)
        } else {
            s.last_network_in
        },
        last_network_out: if vnstat {
            minus(traffic.1, traffic.3)
        } else {
            s.last_network_out
        },
        cpu: cpu.percent,
        network_rx: net.netrx,
        network_tx: net.nettx,
    }
}

fn minus_of(a: u64, b: u64) -> (r: u64)
    ensures
        r == minus(a, b),
{
    if b <= a {
        a - b
    } else {
        0
    }
}

/// Fills `stat` from the texts of the uptime source, the memory table and the
/// disk tool's output, from `traffic` (the traffic-accounting tool's output
/// where `args.vnstat`, else the kernel's interface table), from the local
/// calendar `year` and `month` (which the accounting report is read for), and
/// from the samplers' latest published values. Where the memory table or the
/// accounting report cannot be read, `stat` is left as it was and the error
/// is returned.
pub fn sample(
    args: &Args,
    uptime: &[u8],
    memory: &[u8],
    disk: &[u8],
    traffic: &[u8],
    year: i32,
    month: u32,
    cpu: &CpuPercent,
    net: &NetSpeed,
    stat: &mut StatRequest,
) -> (r: Result<(), SampleError>)
    ensures
        match meminfo(memory@) {
            Err(e) => r == Err::<(), SampleError>(SampleError::Memory(e)) && *final(stat) == *old(stat),
            Ok(mem) => if !args.vnstat {
                r == Ok::<(), SampleError>(()) && *final(stat) == filled(
                    *old(stat),
                    false,
                    uptime_of(uptime@),
                    mem,
                    hdd_of(disk@),
                    (
                        saturate(dev_rx_total(lines(traffic@))),
                        saturate(dev_tx_total(lines(traffic@))),
                        0,
                        0,
                    ),
                    *cpu,
                    *net,
                )
            } else {
                match vnstat_report(traffic@, year as int, month as int) {
                        Err(e) => r == Err::<(), SampleError>(SampleError::Vnstat(e)) && *final(stat) == *old(stat),
                        Ok(t) => r == Ok::<(), SampleError>(()) && *final(stat) == filled(
                            *old(stat),
                            true,
                            uptime_of(uptime@),
                            mem,
                            hdd_of(disk@),
                            t,
                            *cpu,
                            *net,
                        ),
                }
            },
        },
{
    let up = get_uptime(uptime);
    let mem = match get_memory(memory) {
        Ok(m) => m,
        Err(e) => {
            return Err(SampleError::Memory(e));
        },
    };
    let hdd = get_hdd(disk);
    let t: (u64, u64, u64, u64) = if args.vnstat {
        let v = get_vnstat_traffic(traffic, year, month);
        match v {
            Ok(t) => t,
            Err(e) => {
                return Err(SampleError::Vnstat(e));
            },
        }
    } else {
        let (a, b) = get_sys_traffic(traffic);
        (a, b, 0, 0)
    };
    stat.vnstat = args.vnstat;
    stat.uptime = up;
    stat.memory_total = mem.0;
    stat.memory_used = mem.1;
    stat.swap_total = mem.2;
    stat.swap_used = minus_of(mem.2, mem.3);
    stat.hdd_total = hdd.0;
    stat.hdd_used = hdd.1;
    stat.network_in = t.0;
    stat.network_out = t.1;
    if args.vnstat {
        stat.last_network_in = minus_of(t.0, t.2);
        stat.last_network_out = minus_of(t.1, t.3);
    }
    stat.cpu = cpu.percent;
    stat.network_rx = net.netrx;
    stat.network_tx = net.nettx;
    Ok(())
}

} // verus!
