//! Tests of command-line validation.

use td3pattern::config::{get_config, Config, ConfigError, Mode};

fn args(list: &[&str]) -> Vec<String> {
    list.iter().map(|s| s.to_string()).collect()
}

#[test]
fn mode_verbs() {
    assert_eq!(Mode::from_str("upload"), Ok(Mode::Upload));
    assert_eq!(Mode::from_str("download"), Ok(Mode::Download));
    assert_eq!(Mode::from_str("list"), Err(()));
}

#[test]
fn download_defaults() {
    let c: Config = get_config(&args(&["td3pattern", "1", "2B"]), None, None, None)
        .expect("a plain download must validate");
    assert_eq!(c.mode, Mode::Download);
    assert_eq!(c.group, 0);
    assert_eq!(c.pnum, 1);
    assert_eq!(c.ab, 1);
    assert_eq!(c.in_port, "TD-3");
    assert_eq!(c.out_port, "TD-3");
    assert_eq!(c.filename, "");
}

#[test]
fn upload_requires_file() {
    let r = get_config(&args(&["td3pattern", "upload", "1", "1A"]), None, None, None);
    assert_eq!(r.unwrap_err(), ConfigError::UploadNeedsFile);
    let c = get_config(
        &args(&["td3pattern", "upload", "4", "8a"]),
        Some("p.txt".to_string()),
        None,
        None,
    )
    .expect("an upload with a file must validate");
    assert_eq!(c.mode, Mode::Upload);
    assert_eq!(c.group, 3);
    assert_eq!(c.pnum, 7);
    assert_eq!(c.ab, 0);
    assert_eq!(c.filename, "p.txt");
}

#[test]
fn group_and_pattern_ranges() {
    let r = get_config(&args(&["x", "5", "1A"]), None, None, None);
    assert_eq!(r.unwrap_err(), ConfigError::GroupRange);
    let r = get_config(&args(&["x", "one", "1A"]), None, None, None);
    assert_eq!(r.unwrap_err(), ConfigError::GroupParse);
    let r = get_config(&args(&["x", "1", "9A"]), None, None, None);
    assert_eq!(r.unwrap_err(), ConfigError::PatternRange);
    let r = get_config(&args(&["x", "1", "0A"]), None, None, None);
    assert_eq!(r.unwrap_err(), ConfigError::PatternRange);
    let r = get_config(&args(&["x", "1", "1C"]), None, None, None);
    assert_eq!(r.unwrap_err(), ConfigError::PatternSide);
    let r = get_config(&args(&["x", "1", "10A"]), None, None, None);
    assert_eq!(r.unwrap_err(), ConfigError::PatternLength);
    let r = get_config(&args(&["x", "1", "xA"]), None, None, None);
    assert_eq!(r.unwrap_err(), ConfigError::PatternParse);
    let r = get_config(&args(&["x"]), None, None, None);
    assert_eq!(r.unwrap_err(), ConfigError::NotEnoughArguments);
    let r = get_config(&args(&["x", "1"]), None, None, None);
    assert_eq!(r.unwrap_err(), ConfigError::DownloadArguments);
    let r = get_config(&args(&["x", "upload", "1"]), None, None, None);
    assert_eq!(r.unwrap_err(), ConfigError::UploadArguments);
}

#[test]
fn explicit_ports_kept() {
    let c = get_config(
        &args(&["x", "2", "3B"]),
        None,
        Some("Loopback in 1".to_string()),
        Some("".to_string()),
    )
    .expect("a download with ports must validate");
    assert_eq!(c.group, 1);
    assert_eq!(c.in_port, "Loopback in 1");
    // an empty port value falls back to the device name
    assert_eq!(c.out_port, "TD-3");
}
