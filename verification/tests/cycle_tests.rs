use sysmon::cycle::{Sampler, TickInput, TOP_N, WINDOW_LEN};
use sysmon::procs::ProcEntry;

fn full_input() -> TickInput {
    TickInput {
        cpu_stat: Some(b"cpu  10 0 0 90\ncpu0 10 0 0 90\n".to_vec()),
        meminfo: Some(b"MemTotal: 1000 kB\nMemAvailable: 250 kB\n".to_vec()),
        net_dev: Some(b"  lo: 1 0\n  eth0: 1000 0\n".to_vec()),
        processes: vec![
            ProcEntry {
                name: b"1".to_vec(),
                status: Some(b"Name:\tinit\nVmRSS:\t  500 kB\n".to_vec()),
            },
            ProcEntry {
                name: b"2".to_vec(),
                status: Some(b"Name:\tweb\nVmRSS:\t  900 kB\n".to_vec()),
            },
        ],
        temps: vec![b"36500\n".to_vec()],
        uptime: Some(b"12345.67 99999.99\n".to_vec()),
        loadavg: Some(b"0.50 0.40 0.30 2/457 31415\n".to_vec()),
    }
}

fn empty_input() -> TickInput {
    TickInput {
        cpu_stat: None,
        meminfo: None,
        net_dev: None,
        processes: Vec::new(),
        temps: Vec::new(),
        uptime: None,
        loadavg: None,
    }
}

#[test]
fn one_full_tick_produces_a_complete_snapshot() {
    let mut s = Sampler::new();
    let snap = s.tick(full_input());

    // The three histories keep their fixed length.
    assert_eq!(snap.cpu_history.len(), WINDOW_LEN);
    assert_eq!(snap.ram_history.len(), WINDOW_LEN);
    assert_eq!(snap.net_history.len(), WINDOW_LEN);

    // Percentages lie in [0, 100].
    assert!(snap.cpu_centi_pct <= 10000);
    assert!(snap.ram_centi_pct <= 10000);

    // First tick: previous counters are zero, so the whole reading is
    // the delta: total 100, idle 90, busy 10%.
    assert_eq!(snap.cpu_centi_pct, 1000);

    // Memory: 750 of 1000 kB used.
    assert_eq!(snap.ram_centi_pct, 7500);
    assert_eq!(snap.ram_used_kb, 750);
    assert_eq!(snap.ram_total_kb, 1000);

    // First tick: no previous byte counter, rate is zero.
    assert_eq!(snap.net_rate_milli_kb, 0);

    // The fresh values sit at the end of their histories.
    assert_eq!(snap.cpu_history[WINDOW_LEN - 1], 1000);
    assert_eq!(snap.ram_history[WINDOW_LEN - 1], 7500);
    assert_eq!(snap.net_history[WINDOW_LEN - 1], 0);

    // Ranking: at most ten entries, sorted descending.
    assert!(snap.top_processes.len() <= TOP_N);
    assert_eq!(snap.top_processes.len(), 2);
    assert_eq!(snap.top_processes[0].ram_kb, 900);
    assert_eq!(snap.top_processes[1].ram_kb, 500);
    for w in snap.top_processes.windows(2) {
        assert!(w[0].ram_kb >= w[1].ram_kb);
    }

    assert_eq!(snap.temperature, "36.5°C".as_bytes().to_vec());
    assert_eq!(snap.uptime_secs, 12345);
    assert_eq!(snap.threads, b"2/457".to_vec());
}

#[test]
fn second_tick_uses_deltas() {
    let mut s = Sampler::new();
    let _ = s.tick(full_input());

    let mut input = full_input();
    // 40 more ticks, 10 of them idle: 75% busy.
    input.cpu_stat = Some(b"cpu  20 10 10 100\n".to_vec());
    // 2048 more bytes received: 2 kB.
    input.net_dev = Some(b"  eth0: 3048 0\n".to_vec());
    let snap = s.tick(input);

    assert_eq!(snap.cpu_centi_pct, 7500);
    assert_eq!(snap.net_rate_milli_kb, 2000);
}

#[test]
fn network_counter_reset_yields_zero_rate() {
    let mut s = Sampler::new();
    let mut first = empty_input();
    first.net_dev = Some(b"eth0: 1000 0\n".to_vec());
    let _ = s.tick(first);

    let mut second = empty_input();
    second.net_dev = Some(b"eth0: 500 0\n".to_vec());
    let snap = s.tick(second);
    assert_eq!(snap.net_rate_milli_kb, 0);
}

#[test]
fn unreadable_sources_degrade_without_failing() {
    let mut s = Sampler::new();
    let snap = s.tick(empty_input());

    assert_eq!(snap.cpu_centi_pct, 0);
    assert_eq!(snap.ram_centi_pct, 0);
    assert_eq!(snap.ram_used_kb, 0);
    assert_eq!(snap.ram_total_kb, 0);
    assert_eq!(snap.net_rate_milli_kb, 0);
    assert_eq!(snap.top_processes.len(), 0);
    assert_eq!(snap.temperature, b"N/A".to_vec());
    assert_eq!(snap.uptime_secs, 0);
    assert_eq!(snap.threads, b"N/A".to_vec());
    assert_eq!(snap.cpu_history.len(), WINDOW_LEN);
    assert_eq!(snap.ram_history.len(), WINDOW_LEN);
    assert_eq!(snap.net_history.len(), WINDOW_LEN);
}

#[test]
fn histories_hold_the_recent_values_in_order() {
    let mut s = Sampler::new();
    let mut last = None;
    for total in [100u64, 200, 300] {
        let mut input = empty_input();
        let line = format!("cpu {} 0 0 0\n", total);
        input.cpu_stat = Some(line.into_bytes());
        last = Some(s.tick(input));
    }
    let snap = last.unwrap();
    // Each tick was fully busy after the first delta; the first tick sees
    // the whole counter as delta, also fully busy.
    assert_eq!(snap.cpu_history[WINDOW_LEN - 3], 10000);
    assert_eq!(snap.cpu_history[WINDOW_LEN - 2], 10000);
    assert_eq!(snap.cpu_history[WINDOW_LEN - 1], 10000);
}
