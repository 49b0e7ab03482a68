use json_utils::state::JsonUtils;
use json_utils::state::ViewMode;
use json_utils::value::Json;
use json_utils::value::json_clone;
use json_utils::value::json_eq;

fn parsed(text: &str) -> JsonUtils {
    let mut st = JsonUtils::new();
    st.load_text(text.to_string());
    st
}

#[test]
fn new_state_is_empty() {
    let st = JsonUtils::new();
    assert!(!st.is_valid);
    assert_eq!(st.raw_input, "");
    assert_eq!(st.formatted_json, "");
    assert_eq!(st.error_message, "");
    assert!(st.json_tree.is_empty());
    assert_eq!(st.selected_node, 0);
    assert!(st.parsed_value.is_none());
    assert!(st.view_mode == ViewMode::Raw);
    assert_eq!(st.scroll_offset, 0);
}

#[test]
fn parse_valid_object() {
    let st = parsed("{\"a\": 1, \"b\": [true, null]}");
    assert!(st.is_valid);
    assert!(st.parsed_value.is_some());
    assert_eq!(st.error_message, "");
    assert_eq!(st.selected_node, 0);
    assert!(!st.json_tree.is_empty());
}

#[test]
fn parse_malformed_clears_everything() {
    let mut st = parsed("{\"a\": 1}");
    assert!(st.is_valid);
    st.load_text("{\"a\":}".to_string());
    assert!(!st.is_valid);
    assert!(st.json_tree.is_empty());
    assert!(!st.error_message.is_empty());
    assert!(st.error_message.starts_with("Invalid JSON: "));
    assert_eq!(st.formatted_json, "");
    assert!(st.parsed_value.is_none());
    assert_eq!(st.raw_input, "{\"a\":}");
}

#[test]
fn pretty_output_exact() {
    let st = parsed("{\"a\":1}");
    assert_eq!(st.formatted_json, "{\n  \"a\": 1\n}");
}

#[test]
fn pretty_output_is_not_the_input() {
    let st = parsed("{\"a\":1}");
    assert_ne!(st.formatted_json, st.raw_input);
}

#[test]
fn round_trip_simple() {
    let st = parsed("{\"a\": 1, \"b\": \"two\"}");
    assert!(st.is_valid);
    let st2 = parsed(&st.formatted_json);
    assert!(st2.is_valid);
    assert!(json_eq(
        st.parsed_value.as_ref().unwrap(),
        st2.parsed_value.as_ref().unwrap()
    ));
}

#[test]
fn round_trip_nested() {
    let st = parsed("{\"x\":[1,2,{\"y\":true}],\"z\":{\"w\":[[]],\"v\":{}},\"n\":null}");
    let st2 = parsed(&st.formatted_json);
    assert!(json_eq(
        st.parsed_value.as_ref().unwrap(),
        st2.parsed_value.as_ref().unwrap()
    ));
}

#[test]
fn round_trip_numbers() {
    let st = parsed("[0, -1, 1.5, 1e3, -2.25e-2, 18446744073709551615, -9223372036854775808]");
    let st2 = parsed(&st.formatted_json);
    assert!(json_eq(
        st.parsed_value.as_ref().unwrap(),
        st2.parsed_value.as_ref().unwrap()
    ));
}

#[test]
fn round_trip_strings_with_escapes() {
    let st = parsed("{\"s\": \"line\\nbreak \\\"quoted\\\" \\u00e9 tab\\t\"}");
    let st2 = parsed(&st.formatted_json);
    assert!(json_eq(
        st.parsed_value.as_ref().unwrap(),
        st2.parsed_value.as_ref().unwrap()
    ));
}

#[test]
fn round_trip_keeps_key_order() {
    let st = parsed("{\"zeta\": 1, \"alpha\": 2, \"mid\": 3}");
    let st2 = parsed(&st.formatted_json);
    match st2.parsed_value.as_ref().unwrap() {
        Json::Obj(entries) => {
            let keys: Vec<&str> = entries.iter().map(|(k, _)| k.as_str()).collect();
            assert_eq!(keys, vec!["zeta", "alpha", "mid"]);
        }
        _ => panic!("expected an object"),
    }
}

#[test]
fn minify_exact() {
    let mut st = parsed("{\n  \"a\": 1,\n  \"b\": [2, 3]\n}");
    let mini = st.minified_for_copy();
    assert_eq!(mini.unwrap(), "{\"a\":1,\"b\":[2,3]}");
}

#[test]
fn minify_without_document_is_refused() {
    let mut st = JsonUtils::new();
    assert!(st.minified_for_copy().is_none());
    let mut bad = parsed("not json");
    assert!(bad.minified_for_copy().is_none());
}

#[test]
fn pretty_for_copy_only_when_valid() {
    let st = parsed("{\"a\":1}");
    let copied = st.pretty_for_copy();
    assert_eq!(copied.unwrap(), st.formatted_json);
    let empty = JsonUtils::new();
    assert!(empty.pretty_for_copy().is_none());
    let bad = parsed("nope");
    assert!(bad.pretty_for_copy().is_none());
}

#[test]
fn reparse_replaces_document_wholly() {
    let mut st = parsed("{\"a\":1}");
    st.load_text("[1,2]".to_string());
    assert!(st.is_valid);
    match st.parsed_value.as_ref().unwrap() {
        Json::Arr(elems) => assert_eq!(elems.len(), 2),
        _ => panic!("expected an array"),
    }
    assert_eq!(st.selected_node, 0);
}

#[test]
fn scalar_documents_parse() {
    for text in ["null", "true", "42", "\"hello\""] {
        let st = parsed(text);
        assert!(st.is_valid, "{} should parse", text);
        assert_eq!(st.json_tree.len(), 1);
    }
}

#[test]
fn json_eq_distinguishes() {
    let a = parsed("{\"a\":1}").parsed_value.unwrap();
    let b = parsed("{\"a\":2}").parsed_value.unwrap();
    let c = parsed("{\"a\":1}").parsed_value.unwrap();
    let d = parsed("{\"b\":1}").parsed_value.unwrap();
    let e = parsed("[1]").parsed_value.unwrap();
    assert!(json_eq(&a, &c));
    assert!(!json_eq(&a, &b));
    assert!(!json_eq(&a, &d));
    assert!(!json_eq(&a, &e));
}

#[test]
fn json_eq_sees_key_order() {
    let a = parsed("{\"a\":1,\"b\":2}").parsed_value.unwrap();
    let b = parsed("{\"b\":2,\"a\":1}").parsed_value.unwrap();
    assert!(!json_eq(&a, &b));
}

#[test]
fn json_clone_is_deep_equal() {
    let v = parsed("{\"x\":[1,{\"y\":null}]}").parsed_value.unwrap();
    let c = json_clone(&v);
    assert!(json_eq(&v, &c));
}

#[test]
fn status_messages() {
    let mut st = parsed("{\"a\":1}");
    st.note_copied_pretty();
    assert_eq!(st.error_message, "Copied formatted JSON to clipboard");
    st.note_copied_minified();
    assert_eq!(st.error_message, "Copied minified JSON to clipboard");
    st.note_copy_failed("denied");
    assert_eq!(st.error_message, "Failed to copy to clipboard: denied");
    st.note_clipboard_get_failed("no display");
    assert_eq!(st.error_message, "Failed to get clipboard: no display");
    assert!(st.is_valid);
    st.note_file_read_failed("gone");
    assert_eq!(st.error_message, "Failed to read file: gone");
    st.note_editor_failed();
    assert_eq!(st.error_message, "Failed to open Neovim");
    assert!(st.is_valid);
}
