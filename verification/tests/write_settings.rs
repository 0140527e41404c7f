//! The settings of writes to DuckDB.

use std::collections::HashMap;

use table_providers::duckdb::write_settings::DuckDBWriteSettings;

fn params(entries: &[(&str, &str)]) -> HashMap<String, String> {
    entries.iter().map(|(key, value)| (key.to_string(), value.to_string())).collect()
}

#[test]
fn test_default_settings() {
    let settings = DuckDBWriteSettings::default();
    assert!(settings.recompute_statistics_on_write);
}

#[test]
fn test_new_settings() {
    let settings = DuckDBWriteSettings::new();
    assert!(settings.recompute_statistics_on_write);
}

#[test]
fn test_with_recompute_statistics_on_write() {
    let settings = DuckDBWriteSettings::new().with_recompute_statistics_on_write(false);
    assert!(!settings.recompute_statistics_on_write);
}

#[test]
fn test_from_params_valid_enabled() {
    let params = params(&[("recompute_statistics_on_write", "enabled")]);
    let settings = DuckDBWriteSettings::from_params(&params);
    assert!(settings.recompute_statistics_on_write);
}

#[test]
fn test_from_params_valid_disabled() {
    let params = params(&[("recompute_statistics_on_write", "disabled")]);
    let settings = DuckDBWriteSettings::from_params(&params);
    assert!(!settings.recompute_statistics_on_write);
}

#[test]
fn test_from_params_invalid_value() {
    let params = params(&[("recompute_statistics_on_write", "invalid")]);
    let settings = DuckDBWriteSettings::from_params(&params);
    assert!(settings.recompute_statistics_on_write);
}

#[test]
fn test_from_params_missing_param() {
    let params = HashMap::new();
    let settings = DuckDBWriteSettings::from_params(&params);
    assert!(settings.recompute_statistics_on_write);
}

#[test]
fn the_case_of_a_switch_does_not_matter() {
    let settings = DuckDBWriteSettings::from_params(&params(&[(
        "recompute_statistics_on_write",
        "DISabled",
    )]));
    assert!(!settings.recompute_statistics_on_write);
    // The Kelvin sign is a capital K, so it is none of the letters here.
    let settings = DuckDBWriteSettings::from_params(&params(&[(
        "recompute_statistics_on_write",
        "disabled\u{212A}",
    )]));
    assert!(settings.recompute_statistics_on_write);
}

#[test]
fn each_switch_is_read_from_its_own_parameter() {
    let settings = DuckDBWriteSettings::from_params(&params(&[
        ("overwrite_file_swap", "enabled"),
        ("recompute_statistics_on_write", "disabled"),
    ]));
    assert!(!settings.recompute_statistics_on_write);
    let swapped = DuckDBWriteSettings::new()
        .with_recompute_statistics_on_write(false)
        .with_overwrite_file_swap(settings.overwrite_file_swap);
    assert_eq!(format!("{swapped:?}"), format!("{settings:?}"));
}
