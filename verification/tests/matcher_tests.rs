use hexrun_miner::pattern::suffix_match;

fn addr(s: &str) -> Vec<u8> {
    assert_eq!(s.len(), 40, "test addresses are 40 characters");
    s.as_bytes().to_vec()
}

#[test]
fn seven_zero_suffix_matches_at_seven() {
    let a = addr("abcdef0123456789abcdef0123456789a0000000");
    assert_eq!(suffix_match(&a, 7), Some((b'0', 7)));
}

#[test]
fn seven_zero_suffix_rejected_at_eight() {
    let a = addr("abcdef0123456789abcdef0123456789a0000000");
    assert_eq!(suffix_match(&a, 8), None);
}

#[test]
fn run_not_anchored_at_end_does_not_match() {
    let a = addr("abcdef0123456789abcdef0123456789ab55555a");
    assert_eq!(suffix_match(&a, 5), None);
}

#[test]
fn longer_run_reports_full_length() {
    let a = addr("abcdef0123456789abcdef0123456789abaaaaaa");
    assert_eq!(suffix_match(&a, 3), Some((b'a', 6)));
}

#[test]
fn exact_threshold_boundary() {
    let a = addr("abcdef0123456789abcdef0123456789abcd7777");
    assert_eq!(suffix_match(&a, 4), Some((b'7', 4)));
    assert_eq!(suffix_match(&a, 5), None);
}

#[test]
fn whole_address_one_digit() {
    let a = addr("aaaaaaaaaaaaaaaaaaaaaaaaaaaaaaaaaaaaaaaa");
    assert_eq!(suffix_match(&a, 40), Some((b'a', 40)));
}

#[test]
fn non_hex_final_character_never_matches() {
    let a = addr("abcdef0123456789abcdef0123456789a000000Z");
    assert_eq!(suffix_match(&a, 1), None);
}

#[test]
fn threshold_beyond_length_never_matches() {
    let a = vec![b'a', b'a', b'a', b'a'];
    assert_eq!(suffix_match(&a, 5), None);
}

#[test]
fn empty_input_never_matches() {
    let a: Vec<u8> = Vec::new();
    assert_eq!(suffix_match(&a, 1), None);
}

#[test]
fn repeated_calls_agree() {
    let a = addr("abcdef0123456789abcdef0123456789a0000000");
    let first = suffix_match(&a, 7);
    for _ in 0..100 {
        assert_eq!(suffix_match(&a, 7), first);
    }
}

#[test]
fn uppercase_digits_are_not_hex_here() {
    let a = addr("abcdef0123456789abcdef0123456789aFFFFFFF");
    assert_eq!(suffix_match(&a, 7), None);
}
