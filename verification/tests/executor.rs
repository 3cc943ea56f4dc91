use bunbun::error::BunBunError;
use bunbun::routes::hop_action_from_entries;
use bunbun::routes::interpret_output;
use bunbun::routes::split_process_args;
use bunbun::routes::HopAction;

#[test]
fn return_body() {
    match interpret_output(true, r#"{"body": "a"}"#.as_bytes(), "") {
        Ok(action) => assert_eq!(action, HopAction::Body("a".to_string())),
        Err(e) => panic!("unexpected error: {e:?}"),
    }
}

#[test]
fn return_redirect() {
    match interpret_output(true, r#"{"redirect": "a"}"#.as_bytes(), "") {
        Ok(action) => assert_eq!(action, HopAction::Redirect("a".to_string())),
        Err(e) => panic!("unexpected error: {e:?}"),
    }
}

#[test]
fn non_success_exit_code_yields_err() {
    match interpret_output(false, r#"{"body": "a"}"#.as_bytes(), "the program failed") {
        Err(BunBunError::CustomProgram(stderr)) => assert_eq!(stderr, "the program failed"),
        other => panic!("wrong result, got {other:?}"),
    }
}

#[test]
fn malformed_output_yields_json_parse_err() {
    assert!(matches!(
        interpret_output(true, b"not json at all", ""),
        Err(BunBunError::JsonParse(_))
    ));
    assert!(matches!(
        interpret_output(true, b"", ""),
        Err(BunBunError::JsonParse(_))
    ));
}

#[test]
fn output_with_both_keys_yields_json_parse_err() {
    assert!(matches!(
        interpret_output(true, r#"{"redirect": "a", "body": "b"}"#.as_bytes(), ""),
        Err(BunBunError::JsonParse(_))
    ));
}

#[test]
fn output_with_unknown_key_yields_json_parse_err() {
    assert!(matches!(
        interpret_output(true, r#"{"other": "a"}"#.as_bytes(), ""),
        Err(BunBunError::JsonParse(_))
    ));
}

#[test]
fn output_with_non_string_value_yields_json_parse_err() {
    assert!(matches!(
        interpret_output(true, r#"{"body": 3}"#.as_bytes(), ""),
        Err(BunBunError::JsonParse(_))
    ));
}

#[test]
fn entries_map_directly_to_actions() {
    match hop_action_from_entries(vec![("body".to_string(), "text".to_string())]) {
        Ok(action) => assert_eq!(action, HopAction::Body("text".to_string())),
        Err(e) => panic!("unexpected error: {e:?}"),
    }
    assert!(matches!(
        hop_action_from_entries(Vec::new()),
        Err(BunBunError::JsonParse(_))
    ));
}

#[test]
fn query_encoding_escapes_the_fragment_set() {
    assert_eq!(bunbun::template_args::query("hello world"), "hello%20world");
    assert_eq!(bunbun::template_args::query("a&b#c'd"), "a%26b%23c%27d");
    assert_eq!(bunbun::template_args::query("1+1=\"2\""), "1%2B1=%222%22");
    assert_eq!(bunbun::template_args::query("tab\there"), "tab%09here");
    assert_eq!(bunbun::template_args::query("plain-text_stays.as~is"), "plain-text_stays.as~is");
}

#[test]
fn query_encoding_escapes_every_byte_of_multibyte_characters() {
    assert_eq!(bunbun::template_args::query("caf\u{e9}"), "caf%C3%A9");
    assert_eq!(bunbun::template_args::query("\u{3053}"), "%E3%81%93");
    assert_eq!(bunbun::template_args::query("\u{1f600}"), "%F0%9F%98%80");
}

#[test]
fn process_args_split_on_single_spaces() {
    assert_eq!(split_process_args(""), Vec::<String>::new());
    assert_eq!(split_process_args("a"), vec!["a"]);
    assert_eq!(split_process_args("hello world"), vec!["hello", "world"]);
    assert_eq!(split_process_args("a  b"), vec!["a", "", "b"]);
}
