use hexrun_miner::pattern::suffix_match;
use hexrun_miner::report::render_record;
use hexrun_miner::search::{run_worker, select_winner, MatchResult, SearchState, SessionTotals};
use rayon::iter::{IntoParallelIterator, ParallelIterator};
use std::sync::Arc;

fn run_round(worker_count: usize, min_run: usize, batch_size: usize) -> (Option<MatchResult>, u64) {
    let state = Arc::new(SearchState::new());
    let results: Vec<Option<MatchResult>> = (0..worker_count)
        .into_par_iter()
        .map(|_| run_worker(&state, min_run, batch_size))
        .collect();
    let attempts = state.attempts_so_far();
    (select_winner(results, min_run), attempts)
}

fn assert_valid_match(m: &MatchResult, min_run: usize) {
    assert_eq!(m.address.len(), 40);
    assert_eq!(m.secret.len(), 32);
    assert!(m.run_len >= min_run);
    assert_eq!(suffix_match(&m.address, min_run), Some((m.digit, m.run_len)));
}

#[test]
fn worker_observing_stop_returns_nothing() {
    let state = SearchState::new();
    state.request_stop();
    assert!(run_worker(&state, 3, 100).is_none());
    assert_eq!(state.attempts_so_far(), 0);
}

#[test]
fn lone_worker_finds_a_match_and_sets_the_stop_flag() {
    let state = SearchState::new();
    let m = run_worker(&state, 3, 200).expect("a run of three is common");
    assert_valid_match(&m, 3);
    assert!(state.stop_requested());
    assert!(state.attempts_so_far() > 0);
}

#[test]
fn round_with_one_worker_terminates_with_one_match() {
    let (winner, attempts) = run_round(1, 3, 200);
    let m = winner.expect("a round must not end with zero results");
    assert_valid_match(&m, 3);
    assert!(attempts > 0);
}

#[test]
fn round_with_several_workers_terminates_with_one_match() {
    let (winner, attempts) = run_round(4, 3, 200);
    let m = winner.expect("a round must not end with zero results");
    assert_valid_match(&m, 3);
    assert!(attempts > 0);
}

#[test]
fn winner_selection_is_empty_only_when_all_slots_are() {
    let empty: Vec<Option<MatchResult>> = vec![None, None, None];
    assert!(select_winner(empty, 3).is_none());
}

#[test]
fn winner_selection_surfaces_a_filled_slot() {
    let state = SearchState::new();
    let m = run_worker(&state, 1, 50).expect("a run of one is immediate");
    let digit = m.digit;
    let slots: Vec<Option<MatchResult>> = vec![None, Some(m), None];
    let w = select_winner(slots, 1).expect("one slot was filled");
    assert_eq!(w.digit, digit);
    assert_valid_match(&w, 1);
}

#[test]
fn two_rounds_give_distinct_records_that_append_cleanly() {
    let (w1, a1) = run_round(2, 3, 200);
    let (w2, a2) = run_round(2, 3, 200);
    let m1 = w1.expect("first round finds a match");
    let m2 = w2.expect("second round finds a match");
    assert_valid_match(&m1, 3);
    assert_valid_match(&m2, 3);
    assert_ne!(m1.secret, m2.secret, "independent rounds draw independent keys");
    let ts = b"2024-01-01 00:00:00 UTC".to_vec();
    let r1 = render_record(&ts, &m1.address, &m1.private_key_hex(), m1.digit, m1.run_len as u64, a1, 1500);
    let r2 = render_record(&ts, &m2.address, &m2.private_key_hex(), m2.digit, m2.run_len as u64, a2, 1500);
    let mut joined = r1.clone();
    joined.extend_from_slice(&r2);
    let text = String::from_utf8(joined).unwrap();
    let blocks: Vec<&str> = text.split("\n\n").collect();
    assert_eq!(blocks.len(), 3);
    assert_eq!(blocks[2], "");
    let addr1 = String::from_utf8(m1.address.clone()).unwrap();
    let addr2 = String::from_utf8(m2.address.clone()).unwrap();
    assert!(blocks[0].contains(&format!("Address: 0x{}", addr1)));
    assert!(blocks[1].contains(&format!("Address: 0x{}", addr2)));
    let key1 = String::from_utf8(m1.private_key_hex()).unwrap();
    assert!(blocks[0].contains(&format!("Private key: {}", key1)));
}

#[test]
fn private_key_hex_round_trips_through_decode() {
    let state = SearchState::new();
    let m = run_worker(&state, 1, 10).expect("a run of one is immediate");
    let hex = m.private_key_hex();
    assert_eq!(hex.len(), 64);
    assert_eq!(hexrun_miner::hexcode::decode_hex(&hex), Ok(m.secret.clone()));
}

#[test]
fn session_totals_count_up_and_respect_the_target() {
    let mut totals = SessionTotals::new();
    assert_eq!(totals.found, 0);
    assert!(totals.keep_searching(0));
    assert!(totals.keep_searching(2));
    totals.record_match();
    assert_eq!(totals.found, 1);
    assert!(totals.keep_searching(2));
    totals.record_match();
    assert!(!totals.keep_searching(2));
    assert!(totals.keep_searching(0));
}
