use ccase::{convert, convert_with, join, split, Boundary, Pattern};
use ccase::case_value_parser;

fn run_to(name: &str, input: &str) -> String {
    let case = case_value_parser(name).expect("valid case name");
    convert(input, case, None, None)
}

fn run_from_to(from_name: &str, to_name: &str, input: &str) -> String {
    let from = case_value_parser(from_name).expect("valid case name");
    let to = case_value_parser(to_name).expect("valid case name");
    convert(input, to, Some(from), None)
}

#[test]
fn to_case() {
    assert_eq!(format!("{}\n", run_to("snake", "myVarName")), "my_var_name\n");
    assert_eq!(format!("{}\n", run_to("kebab", "myVarName")), "my-var-name\n");
}

#[test]
fn from_case() {
    assert_eq!(format!("{}\n", run_from_to("snake", "pascal", "my_var-name")), "MyVar-name\n");
    assert_eq!(format!("{}\n", run_from_to("pascal", "snake", "myVar-name")), "my_var-name\n");
}

#[test]
fn case_inputs_not_lower() {
    assert_eq!(format!("{}\n", run_to("SNAKE", "myVarName")), "my_var_name\n");
    assert_eq!(format!("{}\n", run_to("SnAkE", "myVarName")), "my_var_name\n");
    assert_eq!(format!("{}\n", run_from_to("KEBab", "snake", "my-varName")), "my_varname\n");
    assert_eq!(format!("{}\n", run_from_to("KEBAB", "snake", "my-varName")), "my_varname\n");
}

#[test]
fn empty_string_input() {
    assert_eq!(format!("{}\n", run_to("snake", "")), "\n");
}

#[test]
fn boundaries() {
    let snake = case_value_parser("snake").unwrap();
    let bs = Boundary::list_from("aA");
    assert_eq!(
        format!("{}\n", convert("myVar-Name-Longer", snake, None, Some(&bs))),
        "my_var-name-longer\n"
    );
    let bs = Boundary::list_from("-");
    assert_eq!(
        format!("{}\n", convert("myVar-Name-Longer", snake, None, Some(&bs))),
        "myvar_name_longer\n"
    );
}

#[test]
fn multiple_inputs() {
    let snake = case_value_parser("snake").unwrap();
    let inputs = ["myVarName", "anotherMultiWordToken"];
    let mut out = String::new();
    for input in inputs {
        out.push_str(&convert(input, snake, None, None));
        out.push('\n');
    }
    assert_eq!(out, "my_var_name\nanother_multi_word_token\n");
}

#[test]
fn acronym_boundary() {
    assert_eq!(run_to("snake", "HTTPServer"), "http_server");
}

#[test]
fn boundary_detection() {
    assert_eq!(Boundary::list_from("aA"), vec![Boundary::LowerUpper]);
    assert_eq!(Boundary::list_from("-"), vec![Boundary::Hyphen]);
    assert_eq!(
        Boundary::list_from("aA8a -"),
        vec![
            Boundary::Hyphen,
            Boundary::Space,
            Boundary::LowerUpper,
            Boundary::UpperDigit,
            Boundary::DigitLower,
        ]
    );
    // `AAa` exhibits the acronym boundary alone: the upper-to-lower pair
    // inside the run is not reported separately.
    assert_eq!(Boundary::list_from("AAa"), vec![Boundary::Acronym]);
}

#[test]
fn custom_delimiter_boundary() {
    let snake = case_value_parser("snake").unwrap();
    let bs = vec![Boundary::CustomDelim('.')];
    assert_eq!(convert("my.var.name", snake, None, Some(&bs)), "my_var_name");
}

#[test]
fn split_words() {
    let bs = Boundary::defaults();
    assert_eq!(split("my-varName", &bs), vec!["my", "var", "Name"]);
    assert_eq!(split("", &bs), Vec::<String>::new());
    // consecutive and trailing delimiters never yield empty words
    assert_eq!(split("my__var_", &bs), vec!["my", "var"]);
}

#[test]
fn split_keeps_all_non_delimiter_characters() {
    let bs = Boundary::defaults();
    let input = "one-two_three four5Six";
    let words = split(input, &bs);
    let rebuilt: String = words.concat();
    let stripped: String = input.chars().filter(|c| !"-_ ".contains(*c)).collect();
    assert_eq!(rebuilt, stripped);
}

#[test]
fn join_words() {
    assert_eq!(join(&Vec::new(), "-"), "");
    assert_eq!(join(&vec!["one".to_string()], "-"), "one");
    assert_eq!(join(&vec!["one".to_string(), "two".to_string()], "--"), "one--two");
}

#[test]
fn deterministic_styles() {
    assert_eq!(run_to("title", "My variable NAME"), "My Variable Name");
    assert_eq!(run_to("toggle", "My variable NAME"), "mY vARIABLE nAME");
    assert_eq!(run_to("alternating", "My variable NAME"), "mY vArIaBlE nAmE");
    assert_eq!(run_to("upperflat", "My variable NAME"), "MYVARIABLENAME");
    assert_eq!(run_to("cobol", "My variable NAME"), "MY-VARIABLE-NAME");
    assert_eq!(run_to("train", "My variable NAME"), "My-Variable-Name");
    assert_eq!(run_to("camel", "XML_HTTP_Request"), "xmlHttpRequest");
}

#[test]
fn pattern_and_delimiter_override() {
    let bs = Boundary::defaults();
    assert_eq!(convert_with("myVarName", &bs, Pattern::Sentence, " "), "My var name");
    assert_eq!(convert_with("myVarName", &bs, Pattern::Uppercase, "."), "MY.VAR.NAME");
}

#[test]
fn converting_canonical_input_is_identity() {
    for (name, text) in [
        ("snake", "my_var_name"),
        ("kebab", "my-var-name"),
        ("pascal", "MyVarName"),
        ("screamingsnake", "MY_VAR_NAME"),
        ("flat", "myvarname"),
    ] {
        let case = case_value_parser(name).unwrap();
        assert_eq!(convert(text, case, Some(case), None), text);
    }
}

#[test]
fn converting_twice_equals_converting_once() {
    for name in [
        "snake", "kebab", "cobol", "train", "screamingsnake", "upper", "lower", "title",
        "toggle", "alternating",
    ] {
        let case = case_value_parser(name).unwrap();
        let once = convert("Some-mixed_input TEXT99Value", case, Some(case), None);
        let twice = convert(&once, case, Some(case), None);
        assert_eq!(twice, once);
    }
}

#[test]
fn random_styles_only_change_letter_case() {
    let random = case_value_parser("random").unwrap();
    let out = convert("myVarName", random, None, None);
    assert_eq!(out.to_lowercase(), "my var name");

    let pseudo = case_value_parser("pseudo").unwrap();
    let out = convert("myVarName", pseudo, None, None);
    assert_eq!(out.to_lowercase(), "my var name");
}

#[test]
fn pseudo_random_mixes_within_words() {
    let pseudo = case_value_parser("pseudo").unwrap();
    for _ in 0..5 {
        let out = convert("abcdefghijklmnop", pseudo, None, None);
        let chars: Vec<char> = out.chars().collect();
        for w in chars.windows(3) {
            assert!(!w.iter().all(|c| c.is_ascii_lowercase()));
            assert!(!w.iter().all(|c| c.is_ascii_uppercase()));
        }
    }
}
