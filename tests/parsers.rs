use ssh_pool::address::{parse_url, UrlError};
use ssh_pool::metrics::{
    build_snapshot, parse_cpu, parse_disk, parse_memory, parse_net_info, parse_network,
    parse_uptime, MemoryUsage,
};

const FREE_OUTPUT: &str = "              total        used        free      shared  buff/cache   available\nMem:           1000         400         600          12         300         500\nSwap:          2047           0        2047\n";

fn net_dump(rx_eth: u64, tx_eth: u64) -> String {
    format!(
        "Inter-|   Receive                                                |  Transmit\n face |bytes    packets errs drop fifo frame compressed multicast|bytes    packets errs drop fifo colls carrier compressed\n    lo: 5000 50 0 0 0 0 0 0 5000 50 0 0 0 0 0 0\n  eth0: {} 10 0 0 0 0 0 0 {} 5 0 0 0 0 0 0\n",
        rx_eth, tx_eth
    )
}

#[test]
fn memory_row_is_read_by_column() {
    let m = parse_memory(FREE_OUTPUT);
    assert_eq!(m, MemoryUsage { total: 1000, used: 400, free: 600 });
}

#[test]
fn memory_malformed_second_line_gives_zeros() {
    let m = parse_memory("header\nMem: lots some none\n");
    assert_eq!(m, MemoryUsage { total: 0, used: 0, free: 0 });
    let m = parse_memory("only one line");
    assert_eq!(m, MemoryUsage { total: 0, used: 0, free: 0 });
    let m = parse_memory("");
    assert_eq!(m, MemoryUsage { total: 0, used: 0, free: 0 });
}

#[test]
fn memory_partial_row_keeps_present_fields() {
    let m = parse_memory("h\r\nMem: 2048 +17\r\n");
    assert_eq!(m, MemoryUsage { total: 2048, used: 17, free: 0 });
}

#[test]
fn uptime_summary_precedes_first_comma() {
    let u = parse_uptime(" 10:15:01 up 3 days,  4:02,  2 users,  load average: 0.00, 0.01, 0.05\n");
    assert_eq!(u, "10:15:01 up 3 days");
    assert_eq!(parse_uptime("  no commas here \n"), "no commas here");
    assert_eq!(parse_uptime(""), "");
}

#[test]
fn cpu_fields_are_trimmed_percentages() {
    let c = parse_cpu("Cpu(s):  12.5%, 3.0% ,  0.0 ni");
    assert_eq!(c.user, "12.5");
    assert_eq!(c.system, "3.0");
    let c = parse_cpu("%Cpu(s):  2.3 us,  1.0 sy,  0.0 ni, 96.5 id");
    assert_eq!(c.user, "2.3 us");
    assert_eq!(c.system, "1.0 sy");
}

#[test]
fn cpu_missing_fields_default_to_zero() {
    let c = parse_cpu("no colon at all");
    assert_eq!(c.user, "");
    assert_eq!(c.system, "0");
    let c = parse_cpu("Cpu(s): 7%%");
    assert_eq!(c.user, "7");
    assert_eq!(c.system, "0");
}

#[test]
fn net_info_sums_ethernet_lines_only() {
    let (rx, tx) = parse_net_info(&net_dump(1000, 500));
    assert_eq!((rx, tx), (1000, 500));
    let two = "  ens3: 10 0 0 0 0 0 0 0 20 0 0\n  eth0: 5 0 0 0 0 0 0 0 7 0\n  wlan0: 99 0 0 0 0 0 0 0 99 0\n";
    assert_eq!(parse_net_info(two), (15, 27));
}

#[test]
fn net_info_skips_short_and_malformed_lines() {
    let text = "  eth0: 10 0 0 0 0 0 0 0\n  eth0: x 0 0 0 0 0 0 0 9 0\n";
    assert_eq!(parse_net_info(text), (0, 9));
    assert_eq!(parse_net_info(""), (0, 0));
}

#[test]
fn net_info_saturates_on_huge_counters() {
    let text = "eth0: 18446744073709551615 0 0 0 0 0 0 0 1 0\nens1: 5 0 0 0 0 0 0 0 1 0\n";
    assert_eq!(parse_net_info(text), (u64::MAX, 2));
}

#[test]
fn network_rate_from_two_snapshots() {
    let n = parse_network(&net_dump(10_000, 700), &net_dump(12_048, 1_724), 1);
    assert_eq!(n.rx_bytes, 2048);
    assert_eq!(n.tx_bytes, 1024);
    let rx_rate = n.rx_bytes as f64 / 1024.0 / n.elapsed_secs as f64;
    let tx_rate = n.tx_bytes as f64 / 1024.0 / n.elapsed_secs as f64;
    assert_eq!(rx_rate, 2.0);
    assert_eq!(tx_rate, 1.0);
}

#[test]
fn network_decreasing_counter_gives_zero() {
    let n = parse_network(&net_dump(5_000, 900), &net_dump(1_000, 100), 1);
    assert_eq!(n.rx_bytes, 0);
    assert_eq!(n.tx_bytes, 0);
    let rx_rate = n.rx_bytes as f64 / 1024.0 / n.elapsed_secs as f64;
    assert_eq!(rx_rate, 0.0);
}

#[test]
fn disk_reads_totals_row() {
    let text = "Filesystem      Size  Used Avail Use% Mounted on\n/dev/sda1        50G   20G   28G  42% /\ntotal            50G   20G   28G  42% -\n";
    let d = parse_disk(text);
    assert_eq!(d.total, "50G");
    assert_eq!(d.used, "20G");
    assert_eq!(d.available, "28G");
    assert_eq!(d.use_percentage, "42%");
}

#[test]
fn disk_missing_row_gives_defaults() {
    let d = parse_disk("");
    assert_eq!(d.total, "0");
    assert_eq!(d.used, "0");
    assert_eq!(d.available, "0");
    assert_eq!(d.use_percentage, "0%");
    let d = parse_disk("total 10G\n");
    assert_eq!(d.total, "10G");
    assert_eq!(d.used, "0");
}

#[test]
fn snapshot_holds_all_five_classes() {
    let s = build_snapshot(
        "12:00 up 1 day, 1 user",
        FREE_OUTPUT,
        "Cpu(s): 1.5%, 2.5%",
        &net_dump(0, 0),
        &net_dump(4096, 2048),
        "total 10G 4G 6G 40% -",
        1,
    );
    assert_eq!(s.uptime, "12:00 up 1 day");
    assert_eq!(s.memory, MemoryUsage { total: 1000, used: 400, free: 600 });
    assert_eq!(s.cpu.user, "1.5");
    assert_eq!(s.cpu.system, "2.5");
    assert_eq!((s.network.rx_bytes, s.network.tx_bytes, s.network.elapsed_secs), (4096, 2048, 1));
    assert_eq!(s.disk.used, "4G");
    assert_eq!(s.disk.use_percentage, "40%");
}

#[test]
fn url_yields_four_fields() {
    let a = parse_url("root:s3cret@example.com:22").unwrap();
    assert_eq!(a.username, "root");
    assert_eq!(a.password, "s3cret");
    assert_eq!(a.host, "example.com");
    assert_eq!(a.port, 22);
    let a = parse_url(":@:65535").unwrap();
    assert_eq!((a.username.as_str(), a.password.as_str(), a.host.as_str(), a.port), ("", "", "", 65535));
}

#[test]
fn url_of_wrong_shape_is_malformed() {
    for bad in ["", "root@host:22", "root:pw@host", "a@b@c:1", "a:b:c@h:1", "a:b@h:1:2", "rootpw@host"] {
        assert_eq!(parse_url(bad).unwrap_err(), UrlError::Malformed, "{}", bad);
    }
}

#[test]
fn url_with_bad_port_is_rejected() {
    for bad in ["u:p@h:65536", "u:p@h:abc", "u:p@h:", "u:p@h:-1", "u:p@h:+"] {
        assert_eq!(parse_url(bad).unwrap_err(), UrlError::InvalidPort, "{}", bad);
    }
    assert_eq!(parse_url("u:p@h:+22").unwrap().port, 22);
}
