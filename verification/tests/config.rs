use filename_normalizer::{ConfigError, Limit, RunConfiguration, LIMIT_MAX, LIMIT_MIN};

#[test]
fn limit_bounds_are_twenty_and_hundred() {
    assert_eq!(LIMIT_MIN, 20);
    assert_eq!(LIMIT_MAX, 100);
}

#[test]
fn limit_in_range_is_accepted() {
    assert_eq!(Limit::new(20).unwrap().value(), 20);
    assert_eq!(Limit::new(57).unwrap().value(), 57);
    assert_eq!(Limit::new(100).unwrap().value(), 100);
}

#[test]
fn limit_out_of_range_is_refused() {
    for value in [i64::MIN, -1, 0, 1, 19, 101, 127, 256, 276, i64::MAX] {
        assert!(Limit::new(value).is_none());
    }
}

#[test]
fn configuration_keeps_its_values() {
    let config = RunConfiguration::new("some/dir", Some(25), true, false).unwrap();
    assert_eq!(config.root(), "some/dir");
    assert_eq!(config.limit().unwrap().value(), 25);
    assert!(config.verbose());
    assert!(!config.dry_run());
    assert_eq!(config.limit_notice(), None);
}

#[test]
fn configuration_without_limit_says_so() {
    let config = RunConfiguration::new(".", None, false, true).unwrap();
    assert!(config.limit().is_none());
    assert!(!config.verbose());
    assert!(config.dry_run());
    assert_eq!(
        config.limit_notice(),
        Some(String::from("Limit was not provided, using default: 0"))
    );
}

#[test]
fn configuration_refuses_a_limit_out_of_range() {
    assert_eq!(
        RunConfiguration::new(".", Some(19), false, false).err(),
        Some(ConfigError::LimitOutOfRange(19))
    );
    assert_eq!(
        RunConfiguration::new(".", Some(101), true, true).err(),
        Some(ConfigError::LimitOutOfRange(101))
    );
    assert_eq!(
        RunConfiguration::new(".", Some(0), true, true).err(),
        Some(ConfigError::LimitOutOfRange(0))
    );
}

#[test]
fn missing_directory_is_named() {
    let config = RunConfiguration::new("no/such dir", None, false, false).unwrap();
    assert_eq!(
        config.missing_directory(),
        "Error: The directory 'no/such dir' does not exist."
    );
}
