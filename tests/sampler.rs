use perf_vumeter::{
    ChannelRange, CpuStats, DiskStats, IfCounter, IfStats, NetMode, Smoother, StatsError,
    VuMeter,
};

fn setup(mode: NetMode) -> VuMeter {
    VuMeter {
        cpu: CpuStats::new(b"cpu 0 0 0 1000\ncpu0 0 0 0 500\ncpu1 0 0 0 500\n", 0).unwrap(),
        disk: DiskStats::new(b"8 0 sda 0 0 0 0 0 0 0\n259 0 nvme0n1 0 0 0 0 0 0 0\n", 0)
            .unwrap(),
        rx: IfStats::new("br0", IfCounter::Rx, b"0\n", 0).unwrap(),
        tx: IfStats::new("br0", IfCounter::Tx, b"0\n", 0).unwrap(),
        meter: Smoother::new(vec![ChannelRange { lo: 0, hi: 255, rest: 0 }; 4]),
        mode,
        max_mbps: 100,
    }
}

const CPU: &[u8] = b"cpu 0 0 0 1100\ncpu0 0 0 0 560\ncpu1 0 0 0 540\n";
const DISK: &[u8] = b"8 0 sda 0 0 1000 0 0 0 0\n259 0 nvme0n1 0 0 3000 0 0 0 1000\n";

#[test]
fn tick_sends_cpu_disk_and_network_in_order() {
    let mut v = setup(NetMode::OneWay);
    let t = v.tick(CPU, DISK, b"250000\n", b"62500\n", 1_000_000).unwrap();
    assert_eq!(t.cpu_rates, vec![50_000, 60_000, 40_000]);
    assert_eq!(t.disk_rates, vec![4000, 1000]);
    assert_eq!((t.rx_rate, t.tx_rate), (2_000_000, 500_000));
    assert_eq!((t.cpu_gauge, t.disk_gauge, t.net_gauge), (50_000, 5_120, 5_120));
    assert_eq!(
        t.frames,
        vec![[0xFD, 0x02, 0x31, 50], [0xFD, 0x02, 0x32, 5], [0xFD, 0x02, 0x33, 5]]
    );
}

#[test]
fn tick_centered_network() {
    let mut v = setup(NetMode::Centered);
    let t = v.tick(CPU, DISK, b"250000\n", b"62500\n", 1_000_000).unwrap();
    // 108 + 63.21 * 1.5 / 100
    assert_eq!(t.net_gauge, 108_948);
    assert_eq!(t.frames[2], [0xFD, 0x02, 0x33, 96]);
}

#[test]
fn tick_fails_on_a_bad_source() {
    let mut v = setup(NetMode::OneWay);
    assert_eq!(v.tick(CPU, DISK, b"", b"0\n", 1_000_000).unwrap_err(), StatsError::Empty);
    let mut v = setup(NetMode::OneWay);
    assert_eq!(v.tick(CPU, DISK, b"0\n", b"0\n", 0).unwrap_err(), StatsError::ClockStalled);
}
