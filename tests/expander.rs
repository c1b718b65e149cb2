use xpander::{
    apply_delete_setting, expand_match, expand_snippet, replace_captures, ExpansionResult,
    HostRequest, MatchResult, Snippet, VarNode,
};

fn no_answers() -> Vec<String> {
    Vec::new()
}

#[test]
fn test_basic_expansion() {
    let snippet = Snippet::new(";test", "hello world");
    let match_result = MatchResult {
        snippet: snippet.clone(),
        typed_trigger: ";test".to_string(),
        chars_to_delete: 5,
        captures: None,
    };

    let result = expand_match(&match_result, &VarNode::Null, &no_answers()).unwrap();
    assert_eq!(result.text, "hello world");
    assert_eq!(result.delete_count, 5);
    assert!(result.cursor_offset.is_none());
}

#[test]
fn test_capture_replacement() {
    let text = "Number: $1, Code: $2";
    let captures = vec!["123".to_string(), "ABC".to_string()];

    let result = replace_captures(text, &captures);
    assert_eq!(result, "Number: 123, Code: ABC");
}

#[test]
fn test_cursor_position() {
    let mut snippet = Snippet::new(";sig", "Hello $|$ World");
    snippet.cursor_position = true;

    let match_result = MatchResult {
        snippet,
        typed_trigger: ";sig".to_string(),
        chars_to_delete: 4,
        captures: None,
    };

    let result = expand_match(&match_result, &VarNode::Null, &no_answers()).unwrap();
    assert_eq!(result.text, "Hello  World");
    assert_eq!(result.cursor_offset, Some(6));
}

#[test]
fn test_case_propagation() {
    let mut snippet = Snippet::new(";email", "test@example.com");
    snippet.propagate_case = true;

    let match_result = MatchResult {
        snippet: snippet.clone(),
        typed_trigger: ";EMAIL".to_string(),
        chars_to_delete: 6,
        captures: None,
    };

    let result = expand_match(&match_result, &VarNode::Null, &no_answers()).unwrap();
    assert_eq!(result.text, "TEST@EXAMPLE.COM");
}

#[test]
fn test_variable_expansion() {
    let snippet = Snippet::new(";test", "Value: {{env:TEST_EXPAND_VAR}}");

    let match_result = MatchResult {
        snippet,
        typed_trigger: ";test".to_string(),
        chars_to_delete: 5,
        captures: None,
    };

    let pending = expand_match(&match_result, &VarNode::Null, &no_answers());
    assert_eq!(pending.unwrap_err(), HostRequest::Env("TEST_EXPAND_VAR".to_string()));
    let result =
        expand_match(&match_result, &VarNode::Null, &vec!["expanded".to_string()]).unwrap();
    assert_eq!(result.text, "Value: expanded");
}

#[test]
fn test_regex_capture_expansion() {
    let mut snippet = Snippet::new(r";d(\d+)", "Number is $1");
    snippet.regex = true;

    let match_result = MatchResult {
        snippet,
        typed_trigger: ";d456".to_string(),
        chars_to_delete: 5,
        captures: Some(vec!["456".to_string()]),
    };

    let result = expand_match(&match_result, &VarNode::Null, &no_answers()).unwrap();
    assert_eq!(result.text, "Number is 456");
}

#[test]
fn capture_references_edge_cases() {
    let caps = vec!["A".to_string(), "B".to_string()];
    assert_eq!(replace_captures("$0 $3 $12 $ $x", &caps), "$0 $3 $12 $ $x");
    assert_eq!(replace_captures("$2$1$2", &caps), "BAB");
    assert_eq!(replace_captures("cost: $$1", &caps), "cost: $A");
    assert_eq!(replace_captures("$99999999999999999999999", &caps), "$99999999999999999999999");
    assert_eq!(replace_captures("", &caps), "");
    let nested = vec!["$2".to_string(), "B".to_string()];
    assert_eq!(replace_captures("$1", &nested), "$2");
}

#[test]
fn expand_snippet_uses_trigger_length() {
    let mut s = Snippet::new(";sig", "Best, $|$");
    s.cursor_position = true;
    let r = expand_snippet(&s, &VarNode::Null, &no_answers()).unwrap();
    assert_eq!(r.text, "Best, ");
    assert_eq!(r.delete_count, 4);
    assert_eq!(r.cursor_offset, Some(0));
    s.cursor_position = false;
    let r = expand_snippet(&s, &VarNode::Null, &no_answers()).unwrap();
    assert_eq!(r.cursor_offset, None);
}

#[test]
fn delete_setting_zeroes_delete_count() {
    let e = ExpansionResult { text: "x".to_string(), delete_count: 3, cursor_offset: Some(1) };
    let kept = apply_delete_setting(e.clone(), true);
    assert_eq!(kept.delete_count, 3);
    let r = apply_delete_setting(e, false);
    assert_eq!(r.delete_count, 0);
    assert_eq!(r.text, "x");
    assert_eq!(r.cursor_offset, Some(1));
}
