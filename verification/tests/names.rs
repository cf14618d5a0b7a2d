use ccase::{
    case_value_parser, lines_to_inputs, pattern_value_parser, validate_options, Case,
    CaseExtension, ConversionError, Pattern, PatternExtension,
};
use ccase::convert;

#[test]
fn invalid_case() {
    // an unknown style name is rejected the same way whether it was meant
    // as the target or as the source of a conversion
    match case_value_parser("SNEK") {
        Err(ConversionError::UnknownCase { raw }) => assert_eq!(raw, "SNEK"),
        other => panic!("expected an unknown-case error, got {:?}", other),
    }
    let err = case_value_parser("SNEK").unwrap_err();
    assert!(err.message().contains("not a valid case"));
    assert_eq!(case_value_parser("snake").unwrap(), Case::Snake);
}

#[test]
fn invalid_pattern() {
    match pattern_value_parser("bogus") {
        Err(ConversionError::UnknownPattern { raw }) => assert_eq!(raw, "bogus"),
        other => panic!("expected an unknown-pattern error, got {:?}", other),
    }
    assert!(pattern_value_parser("bogus").unwrap_err().message().contains("not a valid pattern"));
}

#[test]
fn from_and_boundaries_exclusive() {
    // a source style and a custom boundary string cannot be used with each
    // other, even when both are individually valid
    assert!(case_value_parser("snake").is_ok());
    assert!(case_value_parser("kebab").is_ok());
    let r = validate_options(true, true, true, false, false, true);
    assert_eq!(r, Err(ConversionError::ConflictingOptions));
}

#[test]
fn target_and_overrides_exclusive() {
    let r = validate_options(true, false, false, true, false, true);
    assert_eq!(r, Err(ConversionError::ConflictingOptions));
    let r = validate_options(true, false, false, false, true, true);
    assert_eq!(r, Err(ConversionError::ConflictingOptions));
}

#[test]
fn missing_required_options() {
    let r = validate_options(false, false, false, false, false, true);
    assert_eq!(r, Err(ConversionError::MissingRequired));
    let r = validate_options(true, false, false, false, false, false);
    assert_eq!(r, Err(ConversionError::MissingRequired));
    let r = validate_options(true, true, false, false, false, true);
    assert_eq!(r, Ok(()));
}

#[test]
fn screaming_snake_lookup_is_alias_aware() {
    let a = case_value_parser("screaming").unwrap();
    let b = case_value_parser("ScreamingSnake").unwrap();
    let c = case_value_parser("SCREAMING_SNAKE").unwrap();
    assert_eq!(a, Case::ScreamingSnake);
    assert_eq!(a, b);
    assert_eq!(b, c);
}

#[test]
fn short_names_resolve() {
    assert_eq!(case_value_parser("pseudo").unwrap(), Case::PseudoRandom);
    assert_eq!(case_value_parser("alternate").unwrap(), Case::Alternating);
}

#[test]
fn all_cases_resolve_by_their_flat_name() {
    for case in Case::all_cases() {
        let flat = case.name_to_flat_case();
        assert_eq!(case_value_parser(&flat).unwrap(), case);
    }
}

#[test]
fn all_patterns_resolve_by_name() {
    for pattern in ccase::all_patterns() {
        assert_eq!(pattern_value_parser(pattern.name()).unwrap(), pattern);
    }
    assert_eq!(pattern_value_parser("PseudoRandom").unwrap(), Pattern::PseudoRandom);
    assert_eq!(pattern_value_parser("camel").unwrap(), Pattern::Camel);
}

#[test]
fn aliases_point_at_their_canonical_style() {
    assert_eq!(Case::UpperCamel.is_alias(), Some(Case::Pascal));
    assert_eq!(Case::UpperKebab.is_alias(), Some(Case::Cobol));
    assert_eq!(Case::ScreamingSnake.is_alias(), Some(Case::UpperSnake));
    assert_eq!(Case::Snake.is_alias(), None);
}

#[test]
fn aliases_behave_like_their_canonical_style() {
    let out_alias = convert("myVarName", Case::ScreamingSnake, None, None);
    let out_canonical = convert("myVarName", Case::UpperSnake, None, None);
    assert_eq!(out_alias, out_canonical);
    assert_eq!(out_alias, "MY_VAR_NAME");
}

#[test]
fn names_in_their_own_case() {
    assert_eq!(Case::Snake.name_in_case(), "snake_case");
    assert_eq!(Case::UpperCamel.name_in_case(), "UpperCamelCase");
    assert_eq!(Case::ScreamingSnake.name_in_case(), "SCREAMING_SNAKE_CASE");
    assert_eq!(Case::Title.name_in_case(), "Title Case");
}

#[test]
fn flat_names() {
    assert_eq!(Case::ScreamingSnake.name_to_flat_case(), "screamingsnake");
    assert_eq!(Case::Snake.name_to_flat_case(), "snake");
    assert_eq!(Case::PseudoRandom.name_to_flat_case(), "pseudorandom");
}

#[test]
fn short_names() {
    assert_eq!(Case::PseudoRandom.short_name(), Some("pseudo"));
    assert_eq!(Case::ScreamingSnake.short_name(), Some("screaming"));
    assert_eq!(Case::Alternating.short_name(), Some("alternate"));
    assert_eq!(Case::Kebab.short_name(), None);
}

#[test]
fn pattern_examples() {
    assert_eq!(Pattern::Lowercase.example(), "lower, lower, ...");
    assert_eq!(Pattern::Camel.example(), "lower, Capital, Capital, ...");
    assert_eq!(Pattern::Alternating.example(), "aLtErNaTiNg, aLtErNaTiNg, ...");
}

#[test]
fn catalog_sizes() {
    assert_eq!(Case::all_cases().len(), 19);
    assert_eq!(ccase::all_patterns().len(), 9);
}

#[test]
fn stdin() {
    let inputs = lines_to_inputs("myVarName");
    let snake = case_value_parser("snake").unwrap();
    let mut out = String::new();
    for input in &inputs {
        out.push_str(&convert(input, snake, None, None));
        out.push('\n');
    }
    assert_eq!(out, "my_var_name\n");
}

#[test]
fn newline_ending() {
    let inputs = lines_to_inputs("myVarName\n");
    let snake = case_value_parser("snake").unwrap();
    let mut out = String::new();
    for input in &inputs {
        out.push_str(&convert(input, snake, None, None));
        out.push('\n');
    }
    assert_eq!(out, "my_var_name\n");
}

#[test]
fn empty() {
    let inputs = lines_to_inputs("");
    assert!(inputs.is_empty());
    let snake = case_value_parser("snake").unwrap();
    let mut out = String::new();
    for input in &inputs {
        out.push_str(&convert(input, snake, None, None));
        out.push('\n');
    }
    assert_eq!(out, "");
}

#[test]
fn main_multiple_inputs() {
    let inputs = lines_to_inputs("myVarName\nanotherMultiWordToken\n");
    let pascal = case_value_parser("Pascal").unwrap();
    let mut out = String::new();
    for input in &inputs {
        out.push_str(&convert(input, pascal, None, None));
        out.push('\n');
    }
    assert_eq!(out, "MyVarName\nAnotherMultiWordToken\n");
}

#[test]
fn line_splitting() {
    assert_eq!(lines_to_inputs("a\n\nb"), vec!["a", "", "b"]);
    assert_eq!(lines_to_inputs("spaced  \nplain"), vec!["spaced", "plain"]);
    assert_eq!(lines_to_inputs("crlf\r\nline"), vec!["crlf", "line"]);
}
