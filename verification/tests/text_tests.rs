use sysmon::text::{
    find_bytes, find_ci, lines_of, nth_token, parse_u64, parse_u64_prefix, strip_quotes,
    tokens_of, trim_bytes, u64_to_dec,
};

#[test]
fn parse_u64_accepts_plain_decimals() {
    assert_eq!(parse_u64(b"0"), Some(0));
    assert_eq!(parse_u64(b"123456"), Some(123456));
    assert_eq!(parse_u64(b"18446744073709551615"), Some(u64::MAX));
}

#[test]
fn parse_u64_rejects_junk_and_overflow() {
    assert_eq!(parse_u64(b""), None);
    assert_eq!(parse_u64(b"12a"), None);
    assert_eq!(parse_u64(b"-5"), None);
    assert_eq!(parse_u64(b"12.5"), None);
    assert_eq!(parse_u64(b"18446744073709551616"), None);
}

#[test]
fn parse_prefix_stops_at_first_non_digit() {
    assert_eq!(parse_u64_prefix(b"12345.67"), 12345);
    assert_eq!(parse_u64_prefix(b"42"), 42);
    assert_eq!(parse_u64_prefix(b"x42"), 0);
    assert_eq!(parse_u64_prefix(b""), 0);
}

#[test]
fn decimal_rendering_is_exact() {
    assert_eq!(u64_to_dec(0), b"0".to_vec());
    assert_eq!(u64_to_dec(7), b"7".to_vec());
    assert_eq!(u64_to_dec(1024), b"1024".to_vec());
    assert_eq!(u64_to_dec(u64::MAX), b"18446744073709551615".to_vec());
}

#[test]
fn tokens_split_on_ascii_whitespace() {
    let toks = tokens_of(b"  cpu\t10  20\n30 ");
    let toks: Vec<&[u8]> = toks.iter().map(|t| t.as_slice()).collect();
    assert_eq!(toks, vec![&b"cpu"[..], b"10", b"20", b"30"]);
    assert_eq!(tokens_of(b"   ").len(), 0);
}

#[test]
fn nth_token_picks_by_index() {
    assert_eq!(nth_token(b"a bb ccc", 1), Some(b"bb".to_vec()));
    assert_eq!(nth_token(b"a bb ccc", 3), None);
}

#[test]
fn lines_split_on_line_feeds() {
    let ls = lines_of(b"one\ntwo\n");
    let ls: Vec<&[u8]> = ls.iter().map(|l| l.as_slice()).collect();
    assert_eq!(ls, vec![&b"one"[..], b"two", b""]);
}

#[test]
fn trimming_and_quote_stripping() {
    assert_eq!(trim_bytes(b"  \t v v \r\n"), b"v v".to_vec());
    assert_eq!(trim_bytes(b"   "), Vec::<u8>::new());
    assert_eq!(strip_quotes(b"\"quoted\" text\""), b"quoted text".to_vec());
}

#[test]
fn substring_search_exact_and_case_insensitive() {
    assert!(find_bytes(b"  eth0: 5", b"eth0"));
    assert!(!find_bytes(b"  ETH0: 5", b"eth0"));
    assert!(find_ci(b"  ETH0: 5", b"eth0"));
    assert!(find_ci(b"anything", b""));
    assert!(!find_ci(b"short", b"much longer"));
}
