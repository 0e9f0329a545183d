use hexrun_miner::config::{ConfigError, SearchSettings};

fn settings(min_run: usize) -> SearchSettings {
    SearchSettings {
        min_run,
        workers: 4,
        batch_size: 1000,
        stats_interval: 3,
        target: 0,
    }
}

#[test]
fn floor_of_three_is_accepted() {
    assert_eq!(settings(3).validate_min_run(), Ok(false));
}

#[test]
fn two_is_a_fatal_configuration_error() {
    assert_eq!(settings(2).validate_min_run(), Err(ConfigError::RunTooShort));
    assert_eq!(settings(0).validate_min_run(), Err(ConfigError::RunTooShort));
}

#[test]
fn high_thresholds_warn_but_are_accepted() {
    assert_eq!(settings(15).validate_min_run(), Ok(false));
    assert_eq!(settings(16).validate_min_run(), Ok(true));
    assert_eq!(settings(40).validate_min_run(), Ok(true));
}

#[test]
fn defaults_match_the_documented_ones() {
    let s = SearchSettings::defaults(12);
    assert_eq!(s.min_run, 8);
    assert_eq!(s.workers, 12);
    assert_eq!(s.batch_size, 1000);
    assert_eq!(s.stats_interval, 3);
    assert_eq!(s.target, 0);
}
