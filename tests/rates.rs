use perf_vumeter::{
    bitrate_between, busy_between, disk_rate_between, sort_desc, CpuStats, DiskCounters,
    DiskStats, IfCounter, IfStats, StatsError,
};

fn stat(idle: &[i64]) -> Vec<u8> {
    let mut s = String::new();
    for (i, v) in idle.iter().enumerate() {
        if i == 0 {
            s.push_str(&format!("cpu  1 2 3 {} 5 6\n", v));
        } else {
            s.push_str(&format!("cpu{} 1 2 3 {} 5 6\n", i - 1, v));
        }
    }
    s.push_str("intr 1 2 3\n");
    s.into_bytes()
}

fn diskstats(devs: &[(&str, i64, i64)]) -> Vec<u8> {
    let mut s = String::new();
    for (name, rd, wr) in devs {
        s.push_str(&format!("   8       0 {} 1 0 {} 0 1 0 {} 0 0 0 0\n", name, rd, wr));
    }
    s.into_bytes()
}

#[test]
fn bitrate_is_scale_correct() {
    // 500 bytes in half a second are 8000 bits per second.
    assert_eq!(bitrate_between(1000, 1500, 500_000), 8000);
}

#[test]
fn disk_rate_is_scale_correct() {
    let prev = DiskCounters { name: b"sda".to_vec(), read: 1000, written: 0 };
    let cur = DiskCounters { name: b"sda".to_vec(), read: 1500, written: 0 };
    // 500 sectors in half a second are 1000 sectors per second.
    assert_eq!(disk_rate_between(&cur, &prev, 500_000), 1000);
}

#[test]
fn busy_share_of_one_core() {
    // 60 idle ticks of 10 ms in one second: 40 % busy.
    assert_eq!(busy_between(500, 560, 1_000_000, 1), 40_000);
    // The aggregate idles 100 ticks over two cores: 50 % busy.
    assert_eq!(busy_between(1000, 1100, 1_000_000, 2), 50_000);
    // More idle than time passed gives a negative share, rounded down.
    assert_eq!(busy_between(0, 101, 1_000_000, 1), -1_000);
}

#[test]
fn rates_round_down_and_saturate() {
    assert_eq!(bitrate_between(10, 9, 3_000_000), -3);
    assert_eq!(bitrate_between(i64::MIN, i64::MAX, 1), i64::MAX);
}

#[test]
fn sort_desc_orders_largest_first() {
    let mut v = vec![3, -1, 7, 3, 0];
    sort_desc(&mut v);
    assert_eq!(v, vec![7, 3, 3, 0, -1]);
}

#[test]
fn if_stats_bitrate() {
    let mut rx = IfStats::new("br0", IfCounter::Rx, b"1000\n", 1_000_000).unwrap();
    assert_eq!(rx.iface, "br0");
    assert_eq!(rx.dir, IfCounter::Rx);
    assert_eq!(rx.bitrate(b"1500\n", 1_500_000), Ok(8000));
    assert_eq!(rx.bitrate(b"2500\n", 2_500_000), Ok(8000));
}

#[test]
fn if_stats_errors_keep_the_previous_sample() {
    let mut tx = IfStats::new("eth0", IfCounter::Tx, b"0\n", 100).unwrap();
    assert_eq!(tx.bitrate(b"10\n", 100), Err(StatsError::ClockStalled));
    assert_eq!(tx.bitrate(b"", 200), Err(StatsError::Empty));
    assert_eq!(tx.bitrate(b"125\n", 1_000_100), Ok(1000));
    assert_eq!(IfStats::new("eth0", IfCounter::Tx, b"x\n", 0).unwrap_err(), StatsError::BadNumber);
}

#[test]
fn counter_file_names() {
    assert_eq!(IfCounter::Rx.stat_name(), "rx_bytes");
    assert_eq!(IfCounter::Tx.stat_name(), "tx_bytes");
}

#[test]
fn cpu_rates_sort_cores_busiest_first() {
    let mut cpu = CpuStats::new(&stat(&[1000, 500, 500]), 0).unwrap();
    assert_eq!(cpu.n_cpu(), 2);
    let r = cpu.cpurates(&stat(&[1100, 560, 540]), 1_000_000).unwrap();
    assert_eq!(r, vec![50_000, 60_000, 40_000]);
}

#[test]
fn cpu_rates_errors() {
    let mut cpu = CpuStats::new(&stat(&[0, 0, 0]), 10).unwrap();
    assert_eq!(cpu.cpurates(&stat(&[0, 0, 0, 0]), 20), Err(StatsError::CpuCountChanged));
    assert_eq!(cpu.cpurates(&stat(&[0, 0, 0]), 10), Err(StatsError::ClockStalled));
    assert_eq!(cpu.cpurates(b"cpu 1\n", 20), Err(StatsError::Malformed));
    assert_eq!(CpuStats::new(b"intr 1\n", 0).unwrap_err(), StatsError::Empty);
    // The aggregate alone holds no core.
    assert_eq!(CpuStats::new(b"cpu 1 2 3 4\n", 0).unwrap_err(), StatsError::Empty);
    let mut cpu = CpuStats::new(&stat(&[0, 0, 0]), 10).unwrap();
    assert_eq!(cpu.cpurates(b"cpu 1 2 3 4\n", 20), Err(StatsError::CpuCountChanged));
}

#[test]
fn disk_rates_largest_first() {
    let mut disk = DiskStats::new(&diskstats(&[("sda", 0, 0), ("nvme0n1", 0, 0)]), 0).unwrap();
    let r = disk.diskrates(&diskstats(&[("sda", 1000, 0), ("nvme0n1", 3000, 1000)]), 1_000_000);
    assert_eq!(r, Ok(vec![4000, 1000]));
}

#[test]
fn new_disk_gives_no_rate() {
    let mut disk = DiskStats::new(&diskstats(&[("sda", 0, 0)]), 0).unwrap();
    let r = disk.diskrates(
        &diskstats(&[("sda", 200, 0), ("sdb", 9_000_000_000, 9_000_000_000)]),
        1_000_000,
    );
    assert_eq!(r, Ok(vec![200]));
    // Next time round the new disk has a baseline.
    let r = disk.diskrates(
        &diskstats(&[("sda", 200, 0), ("sdb", 9_000_000_100, 9_000_000_000)]),
        2_000_000,
    );
    assert_eq!(r, Ok(vec![100, 0]));
}

#[test]
fn disk_rates_errors() {
    let mut disk = DiskStats::new(&diskstats(&[("sda", 0, 0)]), 5).unwrap();
    assert_eq!(disk.diskrates(&diskstats(&[("sda", 1, 0)]), 5), Err(StatsError::ClockStalled));
    assert_eq!(disk.diskrates(b"", 6), Err(StatsError::Empty));
}
