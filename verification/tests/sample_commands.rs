use tusks::sample_commands::{check_fail, color_label, fail, format_label, maybe_result, Color, Format, Parameters};

#[test]
fn fail_returns_its_message() {
    assert_eq!(fail(), Err("something went wrong".to_string()));
}

#[test]
fn check_fail_returns_custom_exit_code() {
    assert_eq!(check_fail(), Ok(42));
}

#[test]
fn maybe_result_follows_the_flag() {
    assert_eq!(maybe_result(true), Err("not ok".to_string()));
    assert_eq!(maybe_result(false), Ok(Some(0)));
}

#[test]
fn colour_and_format_labels() {
    assert_eq!(color_label(Color::Auto), "auto");
    assert_eq!(color_label(Color::Always), "always");
    assert_eq!(color_label(Color::Never), "never");
    assert_eq!(format_label(Format::Json), "json");
    assert_eq!(format_label(Format::Text), "text");
    assert_eq!(format_label(Format::Yaml), "yaml");
}

#[test]
fn parameters_hold_a_reference() {
    let verbose = true;
    let p = Parameters { verbose: &verbose };
    assert!(*p.verbose);
}
