use hexrun_miner::report::{attempts_per_second, format_elapsed, format_number, render_record};

#[test]
fn small_numbers_have_no_separator() {
    assert_eq!(format_number(0), b"0".to_vec());
    assert_eq!(format_number(7), b"7".to_vec());
    assert_eq!(format_number(999), b"999".to_vec());
}

#[test]
fn thousands_are_separated() {
    assert_eq!(format_number(1000), b"1,000".to_vec());
    assert_eq!(format_number(1234), b"1,234".to_vec());
    assert_eq!(format_number(1234567), b"1,234,567".to_vec());
    assert_eq!(format_number(1000000000), b"1,000,000,000".to_vec());
}

#[test]
fn largest_count_is_separated() {
    assert_eq!(
        format_number(u64::MAX),
        b"18,446,744,073,709,551,615".to_vec()
    );
}

#[test]
fn rate_rounds_to_nearest() {
    assert_eq!(attempts_per_second(10, 1000), 10);
    assert_eq!(attempts_per_second(3, 2000), 2); // 1.5 rounds up
    assert_eq!(attempts_per_second(1, 3000), 0); // 0.33 rounds down
    assert_eq!(attempts_per_second(0, 5), 0);
}

#[test]
fn rate_saturates() {
    assert_eq!(attempts_per_second(u64::MAX, 1), u64::MAX);
}

#[test]
fn elapsed_has_two_decimals() {
    assert_eq!(format_elapsed(2500), b"2.50".to_vec());
    assert_eq!(format_elapsed(999), b"0.99".to_vec());
    assert_eq!(format_elapsed(61005), b"61.00".to_vec());
    assert_eq!(format_elapsed(1), b"0.00".to_vec());
}

#[test]
fn record_has_exact_expected_text() {
    let ts = b"2024-01-01 00:00:00 UTC".to_vec();
    let addr = b"ab".to_vec();
    let key = b"cd".to_vec();
    let record = render_record(&ts, &addr, &key, b'f', 8, 1234567, 2500);
    let expected = "=== Ethereum vanity address ===\n\
                    Time: 2024-01-01 00:00:00 UTC\n\
                    Address: 0xab\n\
                    Private key: cd\n\
                    Repeated digit: 'f' x 8\n\
                    Attempts: 1,234,567\n\
                    Elapsed: 2.50 s\n\
                    Rate: 493827 attempts/s\n\
                    \n";
    assert_eq!(String::from_utf8(record).unwrap(), expected);
}

#[test]
fn two_records_stay_separate_and_parse_apart() {
    let ts = b"2024-01-01 00:00:00 UTC".to_vec();
    let a1 = b"1111111111111111111111111111111111111111".to_vec();
    let k1 = b"aa".to_vec();
    let a2 = b"2222222222222222222222222222222222222222".to_vec();
    let k2 = b"bb".to_vec();
    let r1 = render_record(&ts, &a1, &k1, b'1', 40, 100, 1000);
    let r2 = render_record(&ts, &a2, &k2, b'2', 40, 200, 2000);
    let mut joined = r1.clone();
    joined.extend_from_slice(&r2);
    let text = String::from_utf8(joined).unwrap();
    let blocks: Vec<&str> = text.split("\n\n").collect();
    assert_eq!(blocks.len(), 3);
    assert_eq!(blocks[2], "");
    assert!(blocks[0].starts_with("=== Ethereum vanity address ==="));
    assert!(blocks[1].starts_with("=== Ethereum vanity address ==="));
    assert!(blocks[0].contains("Address: 0x1111111111111111111111111111111111111111"));
    assert!(blocks[1].contains("Address: 0x2222222222222222222222222222222222222222"));
    assert_eq!(format!("{}\n\n{}\n\n", blocks[0], blocks[1]), text);
}
