use xpander::{expand_match, process_event, HostRequest, KeyboardEvent, MatchResult, Matcher, Snippet, VarNode};

fn type_text(m: &mut Matcher, s: &str) -> Option<MatchResult> {
    let mut last = None;
    for ch in s.chars() {
        let ev = if ch == ' ' || ch.is_ascii_punctuation() {
            KeyboardEvent::WordBoundary(ch)
        } else {
            KeyboardEvent::Character(ch)
        };
        last = process_event(m, true, ev);
    }
    last
}

#[test]
fn scenario_basic_literal() {
    let mut m = Matcher::new();
    m.reload(vec![Snippet::new(";email", "test@example.com")]);
    let r = type_text(&mut m, ";email").unwrap();
    assert_eq!(r.chars_to_delete, 6);
    assert_eq!(r.typed_trigger, ";email");
    let e = expand_match(&r, &VarNode::Null, &Vec::new()).unwrap();
    assert_eq!(e.text, "test@example.com");
    assert_eq!(e.delete_count, 6);
    assert_eq!(e.cursor_offset, None);
}

#[test]
fn scenario_cursor_marker() {
    let mut m = Matcher::new();
    m.reload(vec![Snippet::new(";sig", "Hello $|$ World").with_cursor_position()]);
    let r = type_text(&mut m, ";sig").unwrap();
    let e = expand_match(&r, &VarNode::Null, &Vec::new()).unwrap();
    assert_eq!(e.text, "Hello  World");
    assert_eq!(e.cursor_offset, Some(6));
}

#[test]
fn scenario_case_propagation_all_caps() {
    let snippet = Snippet::new(";email", "test@example.com").with_case_propagation();
    let r = MatchResult { snippet, typed_trigger: ";EMAIL".to_string(), chars_to_delete: 6, captures: None };
    let e = expand_match(&r, &VarNode::Null, &Vec::new()).unwrap();
    assert_eq!(e.text, "TEST@EXAMPLE.COM");
}

#[test]
fn scenario_word_boundary() {
    let mut m = Matcher::new();
    m.reload(vec![Snippet::new("btw", "by the way").with_word_boundary()]);
    assert!(type_text(&mut m, "hellobtw").is_none());
    m.clear();
    let r = type_text(&mut m, "hello btw").unwrap();
    assert_eq!(r.chars_to_delete, 3);
}

#[test]
fn scenario_regex_with_capture() {
    let mut m = Matcher::new();
    let mut s = Snippet::new(r";d(\d+)", "Number is $1");
    s.regex = true;
    m.reload(vec![s]);
    let mut r = None;
    for ch in ";d456".chars() {
        m.push_char(ch);
        r = m.check_match();
    }
    let r = r.unwrap();
    assert_eq!(r.chars_to_delete, 5);
    let e = expand_match(&r, &VarNode::Null, &Vec::new()).unwrap();
    assert_eq!(e.text, "Number is 456");
}

#[test]
fn scenario_variable_expansion() {
    let mut m = Matcher::new();
    m.reload(vec![Snippet::new(";t", "Value: {{env:TEST}}")]);
    let r = type_text(&mut m, ";t").unwrap();
    let env = [("TEST", "expanded")];
    let mut answers: Vec<String> = Vec::new();
    let e = loop {
        match expand_match(&r, &VarNode::Null, &answers) {
            Ok(e) => break e,
            Err(HostRequest::Env(name)) => {
                answers.push(env.iter().find(|(k, _)| *k == name).unwrap().1.to_string())
            }
            Err(other) => panic!("unexpected request {:?}", other),
        }
    };
    assert_eq!(e.text, "Value: expanded");
}

#[test]
fn property_literal_suffix_of_any_input() {
    for input in ["x;e", ";e", "a b c ;e", "long prefix with spaces and punctuation!?;e"] {
        let mut m = Matcher::new();
        m.reload(vec![Snippet::new(";e", "E")]);
        for ch in input.chars() {
            m.push_char(ch);
        }
        let r = m.check_match().unwrap();
        assert_eq!(r.chars_to_delete, 2);
        assert_eq!(r.snippet.replace, "E");
    }
    let mut m = Matcher::new();
    m.reload(vec![Snippet::new(";e", "E")]);
    for _ in 0..300 {
        m.push_char('z');
    }
    m.push_char(';');
    m.push_char('e');
    assert_eq!(m.check_match().unwrap().chars_to_delete, 2);
}

#[test]
fn property_word_boundary_predicate() {
    for (text, expect) in [("btw", true), (" btw", true), ("(btw", true), ("\tbtw", true), ("abtw", false), ("1btw", false)] {
        let mut m = Matcher::new();
        m.reload(vec![Snippet::new("btw", "x").with_word_boundary()]);
        for ch in text.chars() {
            m.push_char(ch);
        }
        assert_eq!(m.check_match().is_some(), expect, "{}", text);
    }
}

#[test]
fn property_longer_trigger_wins() {
    let mut m = Matcher::new();
    m.reload(vec![Snippet::new("st", "short"), Snippet::new(";st", "long")]);
    for ch in "a;st".chars() {
        m.push_char(ch);
    }
    let r = m.check_match().unwrap();
    assert_eq!(r.snippet.replace, "long");
    assert_eq!(r.chars_to_delete, 3);
}

#[test]
fn property_no_rematch_after_expansion() {
    let mut m = Matcher::new();
    m.reload(vec![Snippet::new(";e", "E")]);
    assert!(type_text(&mut m, ";e").is_some());
    assert!(m.check_match().is_none());
    assert!(type_text(&mut m, "e").is_none());
}

#[test]
fn property_propagate_case_idempotent() {
    for (t, r) in [("EMAIL", "test@example.com"), ("Email", "test@example.com"), ("email", "Test")] {
        let once = xpander::propagate_case(t, r);
        assert_eq!(xpander::propagate_case(t, &once), once);
    }
}

#[test]
fn property_cursor_marker_lengths() {
    let marked = "ab$|$cd";
    let (text, pos) = xpander::find_cursor_position(marked);
    let pos = pos.unwrap();
    assert_eq!(text.chars().count() + 3, marked.chars().count());
    assert_eq!(pos + (text.chars().count() - pos), marked.chars().count() - 3);
}

#[test]
fn property_plain_text_round_trip() {
    let t = "no tokens { here } at all $1 $|$";
    assert_eq!(xpander::expand_variables(t, &VarNode::Null, &Vec::new()).unwrap(), t);
}
