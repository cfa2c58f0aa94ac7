use stat_client::counters::MemInfoError;
use stat_client::rates::{cpu_busy_percent, parse_cpu_times, CpuPercent, CpuTimes, NetSpeed};
use stat_client::snapshot::{sample, Args, SampleError, StatRequest};
use stat_client::vnstat::{get_vnstat_traffic, vnstat_totals, Json, VnstatError};

fn times(user: u64, nice: u64, system: u64, idle: u64) -> CpuTimes {
    CpuTimes { user, nice, system, idle }
}

#[test]
fn cpu_all_idle_is_zero() {
    assert_eq!(cpu_busy_percent(times(10, 10, 10, 10), times(10, 10, 10, 110)), 0);
}

#[test]
fn cpu_no_idle_is_hundred() {
    assert_eq!(cpu_busy_percent(times(10, 10, 10, 10), times(60, 10, 60, 10)), 100);
}

#[test]
fn cpu_no_activity_is_hundred() {
    assert_eq!(cpu_busy_percent(times(1, 2, 3, 4), times(1, 2, 3, 4)), 100);
}

#[test]
fn cpu_rounds_to_nearest() {
    assert_eq!(cpu_busy_percent(times(0, 0, 0, 0), times(1, 0, 1, 2)), 50);
    // 100 - 100 * 1 / 8 = 87.5
    assert_eq!(cpu_busy_percent(times(0, 0, 0, 0), times(7, 0, 0, 1)), 88);
    // 100 - 100 * 2 / 3 = 33.33
    assert_eq!(cpu_busy_percent(times(0, 0, 0, 0), times(1, 0, 0, 2)), 33);
}

#[test]
fn cpu_stat_first_line() {
    let stat = b"cpu  100 20 30 400 5 6 7 0 0 0\ncpu0 50 10 15 200 2 3 3 0 0 0\n";
    assert_eq!(parse_cpu_times(stat), Some(times(100, 20, 30, 400)));
    assert_eq!(parse_cpu_times(b"cpu 1 2 3\n"), None);
    assert_eq!(parse_cpu_times(b""), None);
}

#[test]
fn cpu_sampler_ticks() {
    let mut s = CpuPercent::new();
    assert_eq!(s.percent, 0);
    s.tick(b"cpu  100 0 100 200 0\n");
    assert_eq!(s.percent, 50);
    s.tick(b"cpu  100 0 100 300 0\n");
    assert_eq!(s.percent, 0);
    s.tick(b"garbage");
    assert_eq!(s.percent, 0);
    assert_eq!(s.prev, times(100, 0, 100, 300));
    s.tick(b"cpu  200 0 100 300 0\n");
    assert_eq!(s.percent, 100);
}

#[test]
fn cpu_sampler_counter_reset() {
    let mut s = CpuPercent::new();
    s.record(times(100, 0, 0, 100));
    assert_eq!(s.percent, 50);
    s.record(times(10, 0, 0, 10));
    assert_eq!(s.percent, 50);
    assert_eq!(s.prev, times(10, 0, 0, 10));
}

#[test]
fn net_rate_over_elapsed_seconds() {
    let mut n = NetSpeed::new();
    n.record(1000, 2000, 100);
    assert_eq!(n.diff, 100);
    assert_eq!((n.netrx, n.nettx), (10, 20));
    n.record(1600, 2300, 102);
    assert_eq!(n.diff, 2);
    assert_eq!((n.netrx, n.nettx), (300, 150));
    assert_eq!((n.avgrx, n.avgtx, n.clock), (1600, 2300, 102));
}

#[test]
fn net_rate_without_elapsed_time() {
    let mut n = NetSpeed::new();
    n.record(1000, 2000, 50);
    n.record(5000, 6000, 50);
    assert_eq!((n.netrx, n.nettx), (0, 0));
    n.record(9000, 9000, 40);
    assert_eq!((n.netrx, n.nettx), (0, 0));
    assert_eq!(n.clock, 40);
}

#[test]
fn net_rate_counter_went_back() {
    let mut n = NetSpeed::new();
    n.record(1000, 2000, 50);
    n.record(10, 4000, 52);
    assert_eq!((n.netrx, n.nettx), (0, 1000));
}

#[test]
fn net_sampler_tick_reads_table() {
    let mut n = NetSpeed::new();
    let t = "    lo: 999 1 0 0 0 0 0 0 999 1 0 0 0 0 0 0\n  eth0: 400 1 0 0 0 0 0 0 800 1 0 0 0 0 0 0\n";
    n.tick(t.as_bytes(), 4);
    assert_eq!((n.avgrx, n.avgtx), (400, 800));
    assert_eq!((n.netrx, n.nettx), (100, 200));
}

const MEMINFO: &str = "MemTotal: 1000 kB\nMemFree: 200 kB\nBuffers: 50 kB\nCached: 50 kB\nSReclaimable: 100 kB\nSwapTotal: 500 kB\nSwapFree: 500 kB\n";

#[test]
fn sample_end_to_end() {
    let args = Args { vnstat: false };
    let mut cpu = CpuPercent::new();
    cpu.record(times(30, 0, 0, 10));
    let mut net = NetSpeed::new();
    net.record(100, 300, 10);
    let mut stat = StatRequest::new();
    stat.last_network_in = 7;
    let dev = "  eth0: 5000 1 0 0 0 0 0 0 6000 1 0 0 0 0 0 0\n";
    let df = "total - 150000 50000 100000 34% -\n";
    let r = sample(&args, b"12345.67 8900.11", MEMINFO.as_bytes(), df.as_bytes(), dev.as_bytes(), 2024, 6, &cpu, &net, &mut stat);
    assert_eq!(r, Ok(()));
    assert_eq!(stat.uptime, 12345);
    assert_eq!((stat.memory_total, stat.memory_used), (1000, 600));
    assert_eq!((stat.swap_total, stat.swap_used), (500, 0));
    assert_eq!((stat.hdd_total, stat.hdd_used), (150000, 50000));
    assert_eq!((stat.network_in, stat.network_out), (5000, 6000));
    assert_eq!(stat.last_network_in, 7);
    assert_eq!(stat.cpu, 75);
    assert_eq!((stat.network_rx, stat.network_tx), (10, 30));
    assert!(!stat.vnstat);
}

#[test]
fn sample_memory_failure_leaves_snapshot() {
    let args = Args { vnstat: false };
    let mut stat = StatRequest::new();
    stat.uptime = 3;
    let r = sample(&args, b"12.0", b"MemTotal: 1 kB\n", b"", b"", 2024, 6, &CpuPercent::new(), &NetSpeed::new(), &mut stat);
    assert_eq!(r, Err(SampleError::Memory(MemInfoError::MissingKey)));
    assert_eq!(stat.uptime, 3);
}

#[test]
fn sample_accounting_mode_invalid_report() {
    let args = Args { vnstat: true };
    let mut stat = StatRequest::new();
    let r = sample(&args, b"1.0", MEMINFO.as_bytes(), b"", b"not json", 2024, 6, &CpuPercent::new(), &NetSpeed::new(), &mut stat);
    assert_eq!(r, Err(SampleError::Vnstat(VnstatError::InvalidJson)));
    assert_eq!(stat, StatRequest::new());
}

#[test]
fn sample_accounting_mode() {
    let args = Args { vnstat: true };
    let mut stat = StatRequest::new();
    let report = r#"{"interfaces":[{"name":"eth0","traffic":{"total":{"rx":900,"tx":800},"month":[{"date":{"year":1970,"month":1},"rx":1,"tx":2}]}}]}"#;
    let r = sample(&args, b"1.0", MEMINFO.as_bytes(), b"", report.as_bytes(), 1970, 2, &CpuPercent::new(), &NetSpeed::new(), &mut stat);
    assert_eq!(r, Ok(()));
    assert!(stat.vnstat);
    assert_eq!((stat.network_in, stat.network_out), (900, 800));
    assert_eq!((stat.last_network_in, stat.last_network_out), (900, 800));
}

fn obj(members: Vec<(&str, Json)>) -> Json {
    Json::Object(members.into_iter().map(|(k, v)| (k.as_bytes().to_vec(), v)).collect())
}

fn month(year: u64, m: u64, rx: u64, tx: u64) -> Json {
    obj(vec![
        ("date", obj(vec![("month", Json::UInt(m)), ("year", Json::UInt(year))])),
        ("rx", Json::UInt(rx)),
        ("tx", Json::UInt(tx)),
    ])
}

fn iface(name: &str, rx: u64, tx: u64, months: Vec<Json>) -> Json {
    obj(vec![
        ("name", Json::Str(name.as_bytes().to_vec())),
        ("traffic", obj(vec![("month", Json::Array(months)), ("total", obj(vec![("rx", Json::UInt(rx)), ("tx", Json::UInt(tx))]))])),
    ])
}

#[test]
fn vnstat_sums_current_month() {
    let doc = obj(vec![(
        "interfaces",
        Json::Array(vec![
            iface("eth0", 1000, 2000, vec![month(2024, 5, 10, 20), month(2024, 6, 100, 200)]),
            iface("lo", 7777, 7777, vec![month(2024, 6, 7777, 7777)]),
            iface("eth1", 3000, 4000, vec![month(2024, 6, 300, 400), month(2023, 6, 1, 1)]),
        ]),
    )]);
    assert_eq!(vnstat_totals(&doc, 2024, 6), Ok((4000, 6000, 400, 600)));
    assert_eq!(vnstat_totals(&doc, 2024, 5), Ok((4000, 6000, 10, 20)));
    assert_eq!(vnstat_totals(&doc, 2025, 1), Ok((4000, 6000, 0, 0)));
}

#[test]
fn vnstat_filtered_interface_not_read() {
    let doc = obj(vec![("interfaces", Json::Array(vec![obj(vec![("name", Json::Str(b"docker0".to_vec()))])]))]);
    assert_eq!(vnstat_totals(&doc, 2024, 6), Ok((0, 0, 0, 0)));
}

#[test]
fn vnstat_malformed_report() {
    assert_eq!(vnstat_totals(&obj(vec![]), 2024, 6), Err(VnstatError::Malformed));
    let no_total = obj(vec![("interfaces", Json::Array(vec![obj(vec![("name", Json::Str(b"eth0".to_vec()))])]))]);
    assert_eq!(vnstat_totals(&no_total, 2024, 6), Err(VnstatError::Malformed));
    let bad_month = obj(vec![("interfaces", Json::Array(vec![iface("eth0", 1, 1, vec![obj(vec![("rx", Json::UInt(1))])])]))]);
    assert_eq!(vnstat_totals(&bad_month, 2024, 6), Err(VnstatError::Malformed));
    let well_formed = obj(vec![("interfaces", Json::Array(vec![iface("eth0", 1, 1, vec![month(2024, 6, 1, 1)])]))]);
    assert_eq!(vnstat_totals(&well_formed, 2024, 6), Ok((1, 1, 1, 1)));
    let neg_rx = obj(vec![("interfaces", Json::Array(vec![obj(vec![
        ("name", Json::Str(b"eth0".to_vec())),
        ("traffic", obj(vec![("month", Json::Array(vec![])), ("total", obj(vec![("rx", Json::NegInt(-1)), ("tx", Json::UInt(1))]))])),
    ])]))]);
    assert_eq!(vnstat_totals(&neg_rx, 2024, 6), Err(VnstatError::Malformed));
}

#[test]
fn vnstat_tool_output() {
    let report = r#"{"vnstatversion":"2.9","interfaces":[{"name":"eth0","traffic":{"total":{"rx":500,"tx":600},"month":[{"date":{"year":1999,"month":12},"rx":5,"tx":6}]}},{"name":"veth0","traffic":{"total":{"rx":1,"tx":1},"month":[]}}]}"#;
    assert_eq!(get_vnstat_traffic(report.as_bytes(), 2024, 6), Ok((500, 600, 0, 0)));
    assert_eq!(get_vnstat_traffic(report.as_bytes(), 1999, 12), Ok((500, 600, 5, 6)));
    assert_eq!(get_vnstat_traffic(b"{", 2024, 6), Err(VnstatError::InvalidJson));
    assert_eq!(get_vnstat_traffic(b"[]", 2024, 6), Err(VnstatError::Malformed));
}

#[test]
fn vnstat_only_real_interface_counts() {
    let doc = obj(vec![(
        "interfaces",
        Json::Array(vec![
            iface("lo", 11, 12, vec![month(2024, 6, 13, 14)]),
            iface("eth0", 1000, 2000, vec![month(2024, 6, 100, 200)]),
            iface("docker0", 21, 22, vec![month(2024, 6, 23, 24)]),
            iface("vnet1", 31, 32, vec![month(2024, 6, 33, 34)]),
        ]),
    )]);
    assert_eq!(vnstat_totals(&doc, 2024, 6), Ok((1000, 2000, 100, 200)));
}

#[test]
fn net_sampler_only_real_interface_counts() {
    let mut n = NetSpeed::new();
    let t = "    lo: 11 1 0 0 0 0 0 0 12 1 0 0 0 0 0 0
  eth0: 400 1 0 0 0 0 0 0 800 1 0 0 0 0 0 0
docker0: 21 1 0 0 0 0 0 0 22 1 0 0 0 0 0 0
 vnet1: 31 1 0 0 0 0 0 0 32 1 0 0 0 0 0 0
";
    n.tick(t.as_bytes(), 10);
    assert_eq!((n.avgrx, n.avgtx), (400, 800));
}

#[test]
fn sample_accounting_mode_current_month() {
    let args = Args { vnstat: true };
    let mut stat = StatRequest::new();
    let report = r#"{"interfaces":[{"name":"eth0","traffic":{"total":{"rx":900,"tx":800},"month":[{"date":{"year":2024,"month":6},"rx":100,"tx":300}]}}]}"#;
    let r = sample(&args, b"1.0", MEMINFO.as_bytes(), b"", report.as_bytes(), 2024, 6, &CpuPercent::new(), &NetSpeed::new(), &mut stat);
    assert_eq!(r, Ok(()));
    assert_eq!((stat.last_network_in, stat.last_network_out), (800, 500));
}
