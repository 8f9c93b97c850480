use tusks::parsing::attribute::models::{AttrError, SyntaxError, TasksConfig, TusksAttr};

fn parse_tusks_attr(input: &str) -> Result<TusksAttr, AttrError> {
    TusksAttr::parse(input)
}

fn parse_tasks_config(input: &str) -> Result<TasksConfig, AttrError> {
    TasksConfig::parse(input)
}

#[test]
fn empty_attr() {
    let attr = parse_tusks_attr("").unwrap();
    assert!(!attr.debug);
    assert!(!attr.root);
    assert!(!attr.derive_debug_for_parameters);
    assert!(attr.tasks.is_none());
}

#[test]
fn root_flag() {
    let attr = parse_tusks_attr("root").unwrap();
    assert!(attr.root);
    assert!(!attr.debug);
}

#[test]
fn debug_flag() {
    let attr = parse_tusks_attr("debug").unwrap();
    assert!(attr.debug);
}

#[test]
fn derive_debug_flag() {
    let attr = parse_tusks_attr("derive_debug_for_parameters").unwrap();
    assert!(attr.derive_debug_for_parameters);
}

#[test]
fn explicit_bool_true() {
    let attr = parse_tusks_attr("root = true").unwrap();
    assert!(attr.root);
}

#[test]
fn explicit_bool_false() {
    let attr = parse_tusks_attr("root = false").unwrap();
    assert!(!attr.root);
}

#[test]
fn multiple_flags() {
    let attr = parse_tusks_attr("root, debug").unwrap();
    assert!(attr.root);
    assert!(attr.debug);
}

#[test]
fn all_flags() {
    let attr = parse_tusks_attr("root, debug, derive_debug_for_parameters").unwrap();
    assert!(attr.root);
    assert!(attr.debug);
    assert!(attr.derive_debug_for_parameters);
}

#[test]
fn unknown_attribute_errors() {
    let err = parse_tusks_attr("unknown").unwrap_err();
    assert!(err.message().contains("unknown tusks attribute"));
}

#[test]
fn tasks_without_parens_uses_defaults() {
    let attr = parse_tusks_attr("root, tasks").unwrap();
    assert!(attr.root);
    let tasks = attr.tasks.unwrap();
    assert_eq!(tasks.max_groupsize, 5);
    assert_eq!(tasks.max_depth, 20);
    assert_eq!(tasks.separator, ".");
    assert!(tasks.use_colors);
}

#[test]
fn tasks_with_custom_config() {
    let attr = parse_tusks_attr("root, tasks(max_groupsize = 10, separator = \"/\", max_depth = 3)").unwrap();
    let tasks = attr.tasks.unwrap();
    assert_eq!(tasks.max_groupsize, 10);
    assert_eq!(tasks.max_depth, 3);
    assert_eq!(tasks.separator, "/");
}

#[test]
fn tasks_use_colors_false() {
    let attr = parse_tusks_attr("tasks(use_colors = false)").unwrap();
    let tasks = attr.tasks.unwrap();
    assert!(!tasks.use_colors);
}

#[test]
fn tasks_use_colors_flag_only() {
    let attr = parse_tusks_attr("tasks(use_colors)").unwrap();
    let tasks = attr.tasks.unwrap();
    assert!(tasks.use_colors);
}

#[test]
fn tasks_config_defaults() {
    let config = parse_tasks_config("").unwrap();
    assert_eq!(config.max_groupsize, 5);
    assert_eq!(config.max_depth, 20);
    assert_eq!(config.separator, ".");
    assert!(config.use_colors);
}

#[test]
fn tasks_config_partial_override() {
    let config = parse_tasks_config("max_groupsize = 3").unwrap();
    assert_eq!(config.max_groupsize, 3);
    assert_eq!(config.max_depth, 20);
}

#[test]
fn tasks_config_unknown_parameter_errors() {
    let err = parse_tasks_config("unknown = 5").unwrap_err();
    assert!(err.message().contains("unknown tasks parameter"));
}

#[test]
fn tasks_config_custom_separator() {
    let config = parse_tasks_config("separator = \"::\"").unwrap();
    assert_eq!(config.separator, "::");
}

#[test]
fn unknown_attribute_message_names_it() {
    let err = parse_tusks_attr("root, verbose").unwrap_err();
    assert_eq!(err.message(), "unknown tusks attribute: verbose");
}

#[test]
fn unknown_parameter_message_names_it() {
    let err = parse_tasks_config("max_groupsize = 2, width = 3").unwrap_err();
    assert_eq!(err.message(), "unknown tasks parameter: width");
}

#[test]
fn trailing_comma_is_accepted() {
    let attr = parse_tusks_attr("root, debug,").unwrap();
    assert!(attr.root && attr.debug);
    let config = parse_tasks_config("max_depth = 2,").unwrap();
    assert_eq!(config.max_depth, 2);
}

#[test]
fn integer_with_underscores() {
    let config = parse_tasks_config("max_groupsize = 1_000").unwrap();
    assert_eq!(config.max_groupsize, 1000);
}

#[test]
fn missing_comma_is_a_syntax_error() {
    let err = parse_tusks_attr("root debug").unwrap_err();
    assert!(matches!(err, AttrError::Syntax(SyntaxError::ExpectedComma)));
    assert_eq!(err.message(), "expected `,`");
}

#[test]
fn missing_value_is_a_syntax_error() {
    let err = parse_tasks_config("max_depth =").unwrap_err();
    assert!(matches!(err, AttrError::Syntax(SyntaxError::ExpectedInt)));
}

#[test]
fn wrong_value_kinds_are_syntax_errors() {
    assert!(matches!(parse_tusks_attr("root = 1").unwrap_err(), AttrError::Syntax(SyntaxError::ExpectedBool)));
    assert!(matches!(parse_tasks_config("max_depth = \"x\"").unwrap_err(), AttrError::Syntax(SyntaxError::ExpectedInt)));
    assert!(matches!(parse_tasks_config("separator = 3").unwrap_err(), AttrError::Syntax(SyntaxError::ExpectedString)));
}

#[test]
fn lexical_errors() {
    assert!(matches!(parse_tusks_attr("root; debug").unwrap_err(), AttrError::Syntax(SyntaxError::UnexpectedChar(';'))));
    assert!(matches!(parse_tasks_config("separator = \"x").unwrap_err(), AttrError::Syntax(SyntaxError::UnterminatedString)));
    assert!(matches!(parse_tasks_config("max_depth = 0b12").unwrap_err(), AttrError::Syntax(SyntaxError::InvalidNumber)));
    assert!(matches!(parse_tasks_config("max_depth = 0x").unwrap_err(), AttrError::Syntax(SyntaxError::InvalidNumber)));
    assert!(matches!(parse_tasks_config("max_depth = 1e3").unwrap_err(), AttrError::Syntax(SyntaxError::InvalidNumber)));
    assert!(matches!(parse_tusks_attr("tasks(max_depth = 3").unwrap_err(), AttrError::Syntax(SyntaxError::UnbalancedParentheses)));
}

#[test]
fn number_too_large() {
    let err = parse_tasks_config("max_depth = 99999999999999999999999999").unwrap_err();
    assert!(matches!(err, AttrError::Syntax(SyntaxError::NumberTooLarge)));
}

#[test]
fn string_escapes() {
    let config = parse_tasks_config("separator = \"\\\"\"").unwrap();
    assert_eq!(config.separator, "\"");
}

#[test]
fn integer_radix_and_suffix() {
    assert_eq!(parse_tasks_config("max_groupsize = 10usize").unwrap().max_groupsize, 10);
    assert_eq!(parse_tasks_config("max_groupsize = 3u8").unwrap().max_groupsize, 3);
    assert_eq!(parse_tasks_config("max_groupsize = 0x1F").unwrap().max_groupsize, 31);
    assert_eq!(parse_tasks_config("max_groupsize = 0x1fu32").unwrap().max_groupsize, 31);
    assert_eq!(parse_tasks_config("max_groupsize = 0o17").unwrap().max_groupsize, 15);
    assert_eq!(parse_tasks_config("max_groupsize = 0b1010").unwrap().max_groupsize, 10);
    assert_eq!(parse_tasks_config("max_groupsize = 0x_ff").unwrap().max_groupsize, 255);
    assert!(matches!(
        parse_tasks_config("max_groupsize = 0xffff_ffff_ffff_ffff_f").unwrap_err(),
        AttrError::Syntax(SyntaxError::NumberTooLarge)
    ));
}

#[test]
fn string_escapes_as_rust_reads_them() {
    assert_eq!(parse_tasks_config(r#"separator = "\x41""#).unwrap().separator, "A");
    assert_eq!(parse_tasks_config(r#"separator = "\u{2192}""#).unwrap().separator, "\u{2192}");
    assert_eq!(parse_tasks_config(r#"separator = "\u{1_F600}""#).unwrap().separator, "\u{1F600}");
    assert_eq!(parse_tasks_config("separator = \"a\\\n   b\"").unwrap().separator, "ab");
    assert_eq!(parse_tasks_config("separator = \"a\r\nb\"").unwrap().separator, "a\nb");
    assert!(matches!(
        parse_tasks_config(r#"separator = "\x80""#).unwrap_err(),
        AttrError::Syntax(SyntaxError::InvalidEscape('x'))
    ));
    assert!(matches!(
        parse_tasks_config(r#"separator = "\u{D800}""#).unwrap_err(),
        AttrError::Syntax(SyntaxError::InvalidEscape('u'))
    ));
    assert!(matches!(
        parse_tasks_config(r#"separator = "\u{1234567}""#).unwrap_err(),
        AttrError::Syntax(SyntaxError::InvalidEscape('u'))
    ));
    assert!(matches!(
        parse_tasks_config("separator = \"a\rb\"").unwrap_err(),
        AttrError::Syntax(SyntaxError::BareCarriageReturn)
    ));
    assert!(matches!(parse_tasks_config(r#"separator = "\q""#).unwrap_err(), AttrError::Syntax(SyntaxError::UnknownEscape('q'))));
}

#[test]
fn raw_strings() {
    assert_eq!(parse_tasks_config(r#"separator = r"\x""#).unwrap().separator, "\\x");
    assert_eq!(parse_tasks_config(r##"separator = r#"a"b"#"##).unwrap().separator, "a\"b");
    assert!(matches!(parse_tasks_config(r#"separator = r"abc"#).unwrap_err(), AttrError::Syntax(SyntaxError::UnterminatedString)));
    let attr = TusksAttr::parse(r##"root, tasks(separator = r#"::"#, max_depth = 2)"##).unwrap();
    let tasks = attr.tasks.unwrap();
    assert_eq!(tasks.separator, "::");
    assert_eq!(tasks.max_depth, 2);
}

#[test]
fn unicode_identifiers_are_names() {
    let err = parse_tusks_attr("débug").unwrap_err();
    assert_eq!(err.message(), "unknown tusks attribute: débug");
    let err = parse_tasks_config("größe = 3").unwrap_err();
    assert_eq!(err.message(), "unknown tasks parameter: größe");
    assert!(matches!(parse_tusks_attr("é").unwrap_err(), AttrError::UnknownAttribute(_)));
    assert!(matches!(parse_tusks_attr("root, ß").unwrap_err(), AttrError::UnknownAttribute(_)));
    assert!(matches!(parse_tusks_attr("·x").unwrap_err(), AttrError::Syntax(SyntaxError::UnexpectedChar('·'))));
    assert_eq!(parse_tasks_config("max_depth = 3usizé").unwrap().max_depth, 3);
}

#[test]
fn raw_identifiers_are_names_of_their_own() {
    let err = parse_tusks_attr("r#debug").unwrap_err();
    assert_eq!(err.message(), "unknown tusks attribute: r#debug");
    let err = parse_tusks_attr("tasks(r#max_depth = 3)").unwrap_err();
    assert_eq!(err.message(), "unknown tasks parameter: r#max_depth");
    let err = parse_tusks_attr("r#type").unwrap_err();
    assert_eq!(err.message(), "unknown tusks attribute: r#type");
    assert!(matches!(parse_tusks_attr("r#self").unwrap_err(), AttrError::Syntax(SyntaxError::UnexpectedChar('#'))));
    assert!(matches!(parse_tusks_attr("r#_").unwrap_err(), AttrError::Syntax(SyntaxError::UnexpectedChar('#'))));
    assert!(matches!(parse_tusks_attr("r##debug").unwrap_err(), AttrError::Syntax(SyntaxError::UnexpectedChar('#'))));
}

#[test]
fn keywords_are_no_names() {
    assert!(matches!(parse_tusks_attr("type").unwrap_err(), AttrError::Syntax(SyntaxError::ExpectedIdent)));
    assert!(matches!(parse_tusks_attr("root, self").unwrap_err(), AttrError::Syntax(SyntaxError::ExpectedIdent)));
    assert!(matches!(parse_tusks_attr("_").unwrap_err(), AttrError::Syntax(SyntaxError::ExpectedIdent)));
    assert!(matches!(parse_tasks_config("true").unwrap_err(), AttrError::Syntax(SyntaxError::ExpectedIdent)));
    assert!(matches!(parse_tusks_attr("types").unwrap_err(), AttrError::UnknownAttribute(_)));
}

#[test]
fn string_suffix_is_ignored() {
    assert_eq!(parse_tasks_config("separator = \"/\"suffix").unwrap().separator, "/");
    assert_eq!(parse_tasks_config("separator = r\"::\"_s, max_depth = 2").unwrap().separator, "::");
    assert_eq!(parse_tasks_config(r##"separator = r#"-"#x"##).unwrap().separator, "-");
    assert!(matches!(parse_tasks_config("separator = \"/\"#").unwrap_err(), AttrError::Syntax(SyntaxError::UnexpectedChar('#'))));
}
