use sysmon::kv::extract_value;

fn extract(content: &str, key: &str) -> String {
    String::from_utf8(extract_value(content.as_bytes(), key.as_bytes())).unwrap()
}

#[test]
fn colon_line_is_split_and_trimmed() {
    assert_eq!(extract("model name\t: Intel Xeon E5\n", "model name"), "Intel Xeon E5");
}

#[test]
fn equals_line_is_split_and_quote_stripped() {
    let content = "PRETTY_NAME=\"Debian GNU/Linux 12\"\nVERSION=12\n";
    assert_eq!(extract(content, "PRETTY_NAME"), "Debian GNU/Linux 12");
}

#[test]
fn matching_is_case_insensitive() {
    assert_eq!(extract("NAME=linux\n", "name"), "linux");
    assert_eq!(extract("vmrss:   42 kB\n", "VmRSS"), "42 kB");
}

#[test]
fn absent_key_gives_sentinel() {
    assert_eq!(extract("MemTotal: 100 kB\n", "MemFree"), "N/A");
}

#[test]
fn empty_content_gives_sentinel() {
    assert_eq!(extract("", "anything"), "N/A");
}

#[test]
fn matched_line_without_delimiter_gives_sentinel() {
    assert_eq!(extract("just the key alone\n", "key"), "N/A");
}

#[test]
fn first_matching_line_wins() {
    let content = "Name: first\nName: second\n";
    assert_eq!(extract(content, "Name"), "first");
}

#[test]
fn value_stops_at_second_delimiter() {
    assert_eq!(extract("a: b : c\n", "a"), "b");
}

#[test]
fn colon_preferred_over_equals() {
    // The split is on `:` whenever the line holds one, even after an `=`.
    assert_eq!(extract("k = v : w\n", "k"), "w");
}

#[test]
fn substring_match_can_pick_a_longer_key() {
    // Deliberate looseness: "Name" also matches a line of a longer key.
    assert_eq!(extract("ThreadsName: 7\n", "Name"), "7");
}
