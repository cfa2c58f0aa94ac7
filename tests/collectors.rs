use stat_client::counters::{get_memory, get_sys_traffic, get_uptime, is_ignored_iface, MemInfoError};
use stat_client::disk::{disk_row_totals, get_hdd};
use stat_client::text::{parse_u64, split_bytes, split_tokens};

const MEMINFO: &str = "MemTotal:        1000 kB\nMemFree:          200 kB\nBuffers:           50 kB\nCached:            50 kB\nSReclaimable:     100 kB\nSwapTotal:        500 kB\nSwapFree:         500 kB\nHugePages_Total:       0\n";

fn dev_table(rows: &[(&str, u64, u64)]) -> String {
    let mut s = String::from("Inter-|   Receive                                                |  Transmit\n face |bytes    packets errs drop fifo frame compressed multicast|bytes    packets errs drop fifo colls carrier compressed\n");
    for (name, rx, tx) in rows {
        s.push_str(&format!("{:>6}: {} 10 0 0 0 0 0 0 {} 20 0 0 0 0 0 0\n", name, rx, tx));
    }
    s
}

#[test]
fn uptime_whole_seconds() {
    assert_eq!(get_uptime(b"12345.67 8900.11\n"), 12345);
}

#[test]
fn uptime_unreadable_is_zero() {
    assert_eq!(get_uptime(b""), 0);
    assert_eq!(get_uptime(b"abc.5"), 0);
    assert_eq!(get_uptime(b"12 34"), 0);
}

#[test]
fn memory_table_example() {
    assert_eq!(get_memory(MEMINFO.as_bytes()), Ok((1000, 600, 500, 500)));
}

#[test]
fn memory_missing_key_is_an_error() {
    let table = MEMINFO.replace("SReclaimable", "Reclaimable");
    assert_eq!(get_memory(table.as_bytes()), Err(MemInfoError::MissingKey));
    assert_eq!(get_memory(b""), Err(MemInfoError::MissingKey));
}

#[test]
fn memory_used_below_zero_is_an_error() {
    let table = MEMINFO.replace("MemTotal:        1000 kB", "MemTotal:         300 kB");
    assert_eq!(get_memory(table.as_bytes()), Err(MemInfoError::UsedUnderflow));
}

#[test]
fn memory_last_line_of_a_key_wins() {
    let table = format!("{}MemFree: 100 kB\n", MEMINFO);
    assert_eq!(get_memory(table.as_bytes()), Ok((1000, 700, 500, 500)));
}

#[test]
fn memory_all_used() {
    let table = "MemTotal: 400 kB\nMemFree: 100 kB\nBuffers: 100 kB\nCached: 100 kB\nSReclaimable: 100 kB\nSwapTotal: 0 kB\nSwapFree: 0 kB";
    assert_eq!(get_memory(table.as_bytes()), Ok((400, 0, 0, 0)));
}

#[test]
fn interface_filter_keeps_only_real_interfaces() {
    let t = dev_table(&[("lo", 1000, 2000), ("eth0", 300, 400), ("docker0", 5, 6), ("vnet1", 7, 8)]);
    assert_eq!(get_sys_traffic(t.as_bytes()), (300, 400));
}

#[test]
fn interface_names_filtered() {
    assert!(is_ignored_iface(b"lo"));
    assert!(is_ignored_iface(b"docker0"));
    assert!(is_ignored_iface(b"vnet1"));
    assert!(is_ignored_iface(b"veth12ab"));
    assert!(is_ignored_iface(b"vmbr0"));
    assert!(is_ignored_iface(b"kube-ipvs0"));
    assert!(is_ignored_iface(b"br-1234"));
    assert!(!is_ignored_iface(b"eth0"));
    assert!(!is_ignored_iface(b"ens3"));
    assert!(!is_ignored_iface(b"wlan0"));
}

#[test]
fn single_interface_table_round_trip() {
    let t = dev_table(&[("eth0", 123456789, 987654321)]);
    assert_eq!(get_sys_traffic(t.as_bytes()), (123456789, 987654321));
}

#[test]
fn interface_totals_add_up() {
    let t = dev_table(&[("eth0", 100, 1), ("eth1", 200, 2), ("wlan0", 300, 3)]);
    assert_eq!(get_sys_traffic(t.as_bytes()), (600, 6));
}

#[test]
fn interface_malformed_lines_skipped() {
    let mut t = dev_table(&[("eth0", 10, 20)]);
    t.push_str("  eth1: 1 2 3\n");
    t.push_str("  eth2: x 2 3 4 5 6 7 8 9 10 11\n");
    t.push_str("eth3:5 1 1 1 1 1 1 1 6 1 1\n");
    assert_eq!(get_sys_traffic(t.as_bytes()), (15, 26));
}

#[test]
fn interface_totals_saturate() {
    let t = dev_table(&[("eth0", u64::MAX, 1), ("eth1", 5, 2)]);
    assert_eq!(get_sys_traffic(t.as_bytes()), (u64::MAX, 3));
}

#[test]
fn interface_empty_table() {
    assert_eq!(get_sys_traffic(b""), (0, 0));
}

const DF: &str = "Filesystem     Type 1M-blocks  Used Available Use% Mounted on\n/dev/sda1      ext4    100000 40000     60000  40% /\n/dev/sdb1      xfs      50000 10000     40000  20% /data\ntotal          -       150000 50000    100000  34% -\n";

#[test]
fn disk_total_row() {
    assert_eq!(get_hdd(DF.as_bytes()), (150000, 50000));
}

#[test]
fn disk_trailing_blank_lines() {
    let out = format!("{}\n   \n", DF);
    assert_eq!(get_hdd(out.as_bytes()), (150000, 50000));
}

#[test]
fn disk_unreadable_is_zero() {
    assert_eq!(get_hdd(b""), (0, 0));
    assert_eq!(get_hdd(b"total - 12"), (0, 0));
    assert_eq!(get_hdd(b"total - 12 x 5"), (0, 0));
}

#[test]
fn disk_parse_repeatable() {
    assert_eq!(get_hdd(DF.as_bytes()), get_hdd(DF.as_bytes()));
}

#[test]
fn decimal_numbers() {
    assert_eq!(parse_u64(b"0"), Some(0));
    assert_eq!(parse_u64(b"18446744073709551615"), Some(u64::MAX));
    assert_eq!(parse_u64(b"18446744073709551616"), None);
    assert_eq!(parse_u64(b""), None);
    assert_eq!(parse_u64(b"12a"), None);
}

#[test]
fn tokens_and_pieces() {
    assert_eq!(split_tokens(b"  a bc\t d \n"), vec![b"a".to_vec(), b"bc".to_vec(), b"d".to_vec()]);
    assert_eq!(split_bytes(b"a\n\nb", b'\n'), vec![b"a".to_vec(), b"".to_vec(), b"b".to_vec()]);
}

#[test]
fn disk_output_not_utf8_is_zero() {
    let mut out = vec![0xFFu8, b'\n'];
    out.extend_from_slice(b"total - 5 6 0 0% -\n");
    assert_eq!(get_hdd(&out), (0, 0));
    assert_eq!(disk_row_totals(&out), (5, 6));
    assert_eq!(get_hdd(b"total - 5 6 0 0% -\n"), (5, 6));
}

#[test]
fn decimal_leading_plus() {
    assert_eq!(parse_u64(b"+42"), Some(42));
    assert_eq!(parse_u64(b"+"), None);
    assert_eq!(parse_u64(b"++1"), None);
    assert_eq!(parse_u64(b"-1"), None);
    assert_eq!(get_uptime(b"+12.3"), 12);
}

#[test]
fn interface_line_with_eleven_numbers_counts() {
    let t = "  eth0: 1 2 3 4 5 6 7 8 9 10 11\n";
    assert_eq!(get_sys_traffic(t.as_bytes()), (1, 9));
}
