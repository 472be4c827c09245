use holdtap::options::{Argument, Invocation, OptionError, Options};
use holdtap::text::parse_whole_number;

fn args(texts: &[&str]) -> Vec<Argument> {
    texts
        .iter()
        .map(|text| Argument {
            text: text.to_string(),
            is_number: text.parse::<f64>().is_ok(),
        })
        .collect()
}

fn run(texts: &[&str]) -> Options {
    match Options::parse(&args(texts)) {
        Ok(Invocation::Run(options)) => options,
        other => panic!("{:?}", other),
    }
}

fn fail(texts: &[&str]) -> OptionError {
    match Options::parse(&args(texts)) {
        Err(error) => error,
        other => panic!("{:?}", other),
    }
}

#[test]
fn nothing_asked_for() {
    let options = run(&[]);
    assert_eq!(options.device, None);
    assert_eq!(options.config.tap_timeout, 140_000_000);
    assert_eq!(options.config.min_primary_age, 45_000_000);
    assert_eq!(options.config.scroll_move_mm, "0.8");
    assert_eq!(options.config.primary_move_mm, "1.5");
}

#[test]
fn what_is_not_asked_for_keeps_its_default() {
    let options = run(&["--tap-timeout-ms", "120", "--scroll-move-mm", "0.7"]);
    assert_eq!(options.device, None);
    assert_eq!(options.config.tap_timeout, 120_000_000);
    assert_eq!(options.config.scroll_move_mm, "0.7");
    assert_eq!(options.config.min_primary_age, 45_000_000);
    assert_eq!(options.config.primary_move_mm, "1.5");
}

#[test]
fn everything_asked_for() {
    let options = run(&[
        "--tap-timeout-ms",
        "120",
        "--scroll-move-mm",
        "0.7",
        "--primary-age-ms",
        "+30",
        "--primary-move-mm",
        "-1e3",
        "-d",
        "/dev/input/event3",
    ]);
    assert_eq!(options.device.as_deref(), Some("/dev/input/event3"));
    assert_eq!(options.config.tap_timeout, 120_000_000);
    assert_eq!(options.config.min_primary_age, 30_000_000);
    assert_eq!(options.config.scroll_move_mm, "0.7");
    assert_eq!(options.config.primary_move_mm, "-1e3");
}

#[test]
fn later_values_override_earlier_ones() {
    let options = run(&["--device", "a", "--tap-timeout-ms", "1", "--device", "b"]);
    assert_eq!(options.device.as_deref(), Some("b"));
    assert_eq!(options.config.tap_timeout, 1_000_000);
}

#[test]
fn values_may_look_like_options() {
    let options = run(&["--device", "--help"]);
    assert_eq!(options.device.as_deref(), Some("--help"));
}

#[test]
fn first_decision_stands() {
    assert!(matches!(
        Options::parse(&args(&["-h", "--bogus"])),
        Ok(Invocation::Help)
    ));
    assert!(matches!(
        Options::parse(&args(&["-d", "x", "--help", "-V"])),
        Ok(Invocation::Help)
    ));
    assert!(matches!(
        Options::parse(&args(&["--version"])),
        Ok(Invocation::Version)
    ));
    assert!(matches!(
        Options::parse(&args(&["-V", "-h"])),
        Ok(Invocation::Version)
    ));
    assert_eq!(fail(&["--bogus", "-h"]).message(), "unknown option: --bogus");
}

#[test]
fn errors_in_words() {
    assert_eq!(fail(&["--device"]).message(), "missing value after --device");
    assert_eq!(
        fail(&["--tap-timeout-ms", "1.5"]).message(),
        "invalid value for --tap-timeout-ms: 1.5"
    );
    assert_eq!(
        fail(&["--scroll-move-mm", "far"]).message(),
        "invalid value for --scroll-move-mm: far"
    );
    assert_eq!(
        fail(&["--primary-age-ms", "18446744073709551616"]).message(),
        "invalid value for --primary-age-ms: 18446744073709551616"
    );
    assert_eq!(fail(&["-x"]).message(), "unknown option: -x");
    assert!(matches!(fail(&["-d"]), OptionError::MissingValue(_)));
    assert!(matches!(
        fail(&["--primary-move-mm", ""]),
        OptionError::InvalidValue { .. }
    ));
}

#[test]
fn whole_numbers_as_std_reads_them() {
    for text in [
        "", "+", "-", "-0", "-1", "++1", "+-1", "0", "007", "+7", "140", "1 ", " 1", "1_000", "0x10",
        "18446744073709551615", "+18446744073709551615", "18446744073709551616",
        "99999999999999999999", "00000000000000000000000000000042", "12a", "a12", "é", "٣",
        "18446744073709551616x",
    ] {
        assert_eq!(parse_whole_number(text), text.parse::<u64>().ok(), "{}", text);
    }
}
