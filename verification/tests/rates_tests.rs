use sysmon::rates::{
    cpu_percent_centi, cpu_reading, delta_or_zero, mem_stats, net_bytes, net_rate_milli_kb,
    ram_percent_centi,
};

#[test]
fn delta_of_growing_counter() {
    assert_eq!(delta_or_zero(100, 250), 150);
}

#[test]
fn delta_of_regressed_counter_is_zero() {
    assert_eq!(delta_or_zero(250, 100), 0);
}

#[test]
fn cpu_percent_zero_total_is_exactly_zero() {
    assert_eq!(cpu_percent_centi(0, 0), 0);
    assert_eq!(cpu_percent_centi(0, 50), 0);
}

#[test]
fn cpu_percent_exact_values() {
    // busy 40 of 100 ticks: 40.00%
    assert_eq!(cpu_percent_centi(100, 60), 4000);
    // busy 2 of 3 ticks: 66.66% rounded down
    assert_eq!(cpu_percent_centi(3, 1), 6666);
    // fully idle
    assert_eq!(cpu_percent_centi(100, 100), 0);
    // idle delta above total delta clamps to zero busy
    assert_eq!(cpu_percent_centi(10, 25), 0);
}

#[test]
fn cpu_percent_stays_in_range() {
    for (t, i) in [(0u64, 0u64), (1, 0), (7, 3), (1000, 999), (u64::MAX, 0), (5, 900)] {
        let p = cpu_percent_centi(t, i);
        assert!(p <= 10000);
    }
}

#[test]
fn cpu_reading_sums_all_fields_and_takes_fourth_as_idle() {
    let stat = b"cpu  100 200 300 400 500\ncpu0 1 2 3 4 5\n";
    let (total, idle) = cpu_reading(stat).unwrap();
    assert_eq!(total, 1500);
    assert_eq!(idle, 400);
}

#[test]
fn cpu_reading_skips_unparsable_fields() {
    let stat = b"cpu 10 x 20 30 40\n";
    let (total, idle) = cpu_reading(stat).unwrap();
    assert_eq!(total, 100);
    assert_eq!(idle, 40);
}

#[test]
fn cpu_reading_with_too_few_fields_is_none() {
    assert!(cpu_reading(b"cpu 1 2 3\n").is_none());
    assert!(cpu_reading(b"\n").is_none());
}

#[test]
fn mem_stats_reads_both_labels() {
    let mem = b"MemTotal:  1000 kB\nMemFree:  100 kB\nMemAvailable:  400 kB\n";
    assert_eq!(mem_stats(mem), (1000, 400));
}

#[test]
fn mem_stats_missing_label_reads_zero() {
    assert_eq!(mem_stats(b"MemTotal: 1000 kB\n"), (1000, 0));
    assert_eq!(mem_stats(b"nothing here\n"), (0, 0));
}

#[test]
fn ram_percent_exact_value() {
    // used 600 of 1000 kB: 60.00%
    assert_eq!(ram_percent_centi(1000, 400), 6000);
}

#[test]
fn ram_percent_degenerate_inputs() {
    assert_eq!(ram_percent_centi(0, 0), 0);
    // available above total clamps to zero used
    assert_eq!(ram_percent_centi(100, 200), 0);
    // nothing available: 100.00%
    assert_eq!(ram_percent_centi(100, 0), 10000);
}

#[test]
fn net_bytes_finds_interface_line() {
    let dev = b"Inter-|  Receive\n  lo: 999 0 0\n  eth0: 123456 7 8\n";
    assert_eq!(net_bytes(dev), 123456);
}

#[test]
fn net_bytes_last_interface_line_wins() {
    let dev = b"eth0: 100 0\nwlan0: 200 0\n";
    assert_eq!(net_bytes(dev), 200);
}

#[test]
fn net_bytes_without_interface_is_zero() {
    assert_eq!(net_bytes(b"lo: 999 0\n"), 0);
}

#[test]
fn net_rate_counter_reset_gives_zero() {
    assert_eq!(net_rate_milli_kb(1000, 500), 0);
}

#[test]
fn net_rate_first_tick_gives_zero() {
    assert_eq!(net_rate_milli_kb(0, 123456), 0);
}

#[test]
fn net_rate_exact_value() {
    // 2048 bytes = 2 kB = 2000 thousandths
    assert_eq!(net_rate_milli_kb(1000, 3048), 2000);
}
