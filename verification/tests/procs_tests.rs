use sysmon::procs::{
    gather_snapshots, is_numeric_name, ram_kb_of, rank_top, ProcEntry, ProcessSnapshot,
};

fn snap(name: &str, pid: &str, ram_kb: u64) -> ProcessSnapshot {
    ProcessSnapshot {
        name: name.as_bytes().to_vec(),
        pid: pid.as_bytes().to_vec(),
        ram_kb,
    }
}

#[test]
fn ranking_excludes_zero_sorts_descending_keeps_tie_order() {
    // Memory values 5, 0, 12, 3, 12 MB (held in kilobytes).
    let procs = vec![
        snap("a", "1", 5 * 1024),
        snap("b", "2", 0),
        snap("c", "3", 12 * 1024),
        snap("d", "4", 3 * 1024),
        snap("e", "5", 12 * 1024),
    ];
    let ranked = rank_top(procs, 10);
    let rams: Vec<u64> = ranked.iter().map(|p| p.ram_kb / 1024).collect();
    assert_eq!(rams, vec![12, 12, 5, 3]);
    let names: Vec<String> =
        ranked.iter().map(|p| String::from_utf8(p.name.clone()).unwrap()).collect();
    assert_eq!(names, vec!["c", "e", "a", "d"]);
}

#[test]
fn ranking_truncates_to_n() {
    let procs = vec![snap("a", "1", 10), snap("b", "2", 30), snap("c", "3", 20)];
    let ranked = rank_top(procs, 2);
    let rams: Vec<u64> = ranked.iter().map(|p| p.ram_kb).collect();
    assert_eq!(rams, vec![30, 20]);
}

#[test]
fn ranking_of_nothing_is_empty() {
    assert_eq!(rank_top(Vec::new(), 10).len(), 0);
    assert_eq!(rank_top(vec![snap("a", "1", 0)], 10).len(), 0);
}

#[test]
fn numeric_names() {
    assert!(is_numeric_name(b"12345"));
    assert!(!is_numeric_name(b"12a45"));
    assert!(!is_numeric_name(b"self"));
}

#[test]
fn ram_kb_parses_first_token() {
    assert_eq!(ram_kb_of(b"  1234 kB"), 1234);
    assert_eq!(ram_kb_of(b"N/A"), 0);
    assert_eq!(ram_kb_of(b""), 0);
}

#[test]
fn gather_skips_non_numeric_unreadable_and_zero_ram() {
    let entries = vec![
        ProcEntry {
            name: b"123".to_vec(),
            status: Some(b"Name:\tinit\nVmRSS:\t  500 kB\n".to_vec()),
        },
        ProcEntry {
            name: b"acpi".to_vec(),
            status: Some(b"Name:\tnot-a-pid\nVmRSS:\t 900 kB\n".to_vec()),
        },
        ProcEntry { name: b"456".to_vec(), status: None },
        ProcEntry {
            name: b"789".to_vec(),
            status: Some(b"Name:\tkthread\n".to_vec()),
        },
        ProcEntry {
            name: b"222".to_vec(),
            status: Some(b"Name:\tweb\nVmRSS:\t  800 kB\n".to_vec()),
        },
    ];
    let got = gather_snapshots(entries);
    assert_eq!(got.len(), 2);
    assert_eq!(got[0].name, b"init".to_vec());
    assert_eq!(got[0].pid, b"123".to_vec());
    assert_eq!(got[0].ram_kb, 500);
    assert_eq!(got[1].name, b"web".to_vec());
    assert_eq!(got[1].pid, b"222".to_vec());
    assert_eq!(got[1].ram_kb, 800);
}
