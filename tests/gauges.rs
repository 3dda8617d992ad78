use perf_vumeter::{cpu_gauge, disk_gauge, net_gauge, net_gauge_centered};

#[test]
fn cpu_gauge_two_cores_averages() {
    // Busy shares in thousandths of a percent; gauges in thousandths.
    assert_eq!(cpu_gauge(&vec![50_000, 60_000, 40_000]), 50_000);
}

#[test]
fn cpu_gauge_single_core_scales_to_256() {
    assert_eq!(cpu_gauge(&vec![50_000, 50_000]), 128_000);
    assert_eq!(cpu_gauge(&vec![100_000, 100_000]), 256_000);
}

#[test]
fn cpu_gauge_four_cores_adds_four_fifths() {
    // (100 + 80) / 2 + 0.8 * (50 + 30) = 90 + 64
    assert_eq!(cpu_gauge(&vec![0, 100_000, 80_000, 50_000, 30_000]), 154_000);
}

#[test]
fn cpu_gauge_six_cores_adds_half_and_third() {
    // (90 + 60) / 2 + (30 + 30) / 2 + (20 + 10) / 3 = 75 + 30 + 10
    assert_eq!(
        cpu_gauge(&vec![0, 90_000, 60_000, 30_000, 30_000, 20_000, 10_000, 5_000]),
        115_000
    );
}

#[test]
fn cpu_gauge_rounds_down() {
    assert_eq!(cpu_gauge(&vec![0, 1, 0]), 0);
    assert_eq!(cpu_gauge(&vec![0, -1, 0]), -1);
}

#[test]
fn disk_gauge_uses_only_the_busiest_device() {
    // 256 * 4000 / 200000 = 5.12, not the sum of 1000 and 4000.
    assert_eq!(disk_gauge(&vec![4000, 1000]), 5_120);
    assert_eq!(disk_gauge(&vec![200_000]), 256_000);
}

#[test]
fn disk_gauge_without_devices_is_zero() {
    assert_eq!(disk_gauge(&vec![]), 0);
}

#[test]
fn net_gauge_follows_the_busier_direction() {
    // 256 * (2.0 / 100) = 5.12
    assert_eq!(net_gauge(2_000_000, 500_000, 100), 5_120);
    assert_eq!(net_gauge(500_000, 2_000_000, 100), 5_120);
    assert_eq!(net_gauge(100_000_000, 0, 100), 256_000);
}

#[test]
fn net_gauge_centered_moves_both_ways() {
    assert_eq!(net_gauge_centered(0, 0, 100), 108_000);
    // A full net receive rate moves (255 - 108) * 0.43 up.
    assert_eq!(net_gauge_centered(100_000_000, 0, 100), 171_210);
    // A full net send rate moves (108 - 28) * 0.83 down.
    assert_eq!(net_gauge_centered(0, 100_000_000, 100), 41_600);
}
