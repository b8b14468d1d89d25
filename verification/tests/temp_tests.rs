use sysmon::temp::{format_temp, select_temp};

fn select(readings: &[&str]) -> String {
    let v: Vec<Vec<u8>> = readings.iter().map(|r| r.as_bytes().to_vec()).collect();
    String::from_utf8(select_temp(&v)).unwrap()
}

#[test]
fn no_plausible_reading_gives_sentinel() {
    assert_eq!(select(&[]), "N/A");
    assert_eq!(select(&["0", "-500", "junk"]), "N/A");
}

#[test]
fn millidegrees_become_one_decimal() {
    assert_eq!(select(&["36500\n"]), "36.5°C");
}

#[test]
fn first_plausible_source_wins() {
    assert_eq!(select(&["0\n", "41200\n", "99999\n"]), "41.2°C");
}

#[test]
fn formatting_rounds_to_tenths() {
    assert_eq!(String::from_utf8(format_temp(36550)).unwrap(), "36.6°C");
    assert_eq!(String::from_utf8(format_temp(36549)).unwrap(), "36.5°C");
    assert_eq!(String::from_utf8(format_temp(999)).unwrap(), "1.0°C");
    assert_eq!(String::from_utf8(format_temp(50)).unwrap(), "0.1°C");
}
