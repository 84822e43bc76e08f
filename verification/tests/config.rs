use rblint::config::{Config, SettingsSource};

#[test]
fn default_config_values() {
    let c = Config::default();
    assert_eq!(c.line_length, 120);
    assert_eq!(c.max_method_lines, 30);
    assert_eq!(c.max_class_lines, 300);
    assert_eq!(c.max_complexity, 10);
    assert!(c.select.is_empty());
    assert!(c.ignore.is_empty());
    assert!(c.exclude.is_empty());
}

#[test]
fn toml_anywhere_up_the_tree_wins_over_rubocop() {
    assert_eq!(
        Config::settings_source(&[false, false, true], &[false, true, true]),
        SettingsSource::Toml(2)
    );
    assert_eq!(
        Config::settings_source(&[true, false, true], &[true, false, false]),
        SettingsSource::Toml(0)
    );
    assert_eq!(
        Config::settings_source(&[false, false, false], &[false, true, true]),
        SettingsSource::Rubocop(1)
    );
    assert_eq!(
        Config::settings_source(&[false, false], &[false, false]),
        SettingsSource::Default
    );
    assert_eq!(Config::settings_source(&[], &[]), SettingsSource::Default);
}

#[test]
fn rubocop_conversion_falls_back_to_defaults() {
    let c = Config::from_rubocop(None);
    assert_eq!(c.line_length, 120);
    let mut converted = Config::default();
    converted.line_length = 99;
    let c = Config::from_rubocop(Some(converted));
    assert_eq!(c.line_length, 99);
}
