use xpander::{process_event, KeyboardEvent, Matcher, Snippet};

fn make_snippet(trigger: &str, replace: &str) -> Snippet {
    Snippet::new(trigger, replace)
}

#[test]
fn test_basic_match() {
    let mut matcher = Matcher::new();
    let snippets = vec![make_snippet(";email", "test@example.com")];
    matcher.reload(snippets);

    for ch in ";email".chars() {
        matcher.push_char(ch);
    }

    let result = matcher.check_match();
    assert!(result.is_some());

    let result = result.unwrap();
    assert_eq!(result.typed_trigger, ";email");
    assert_eq!(result.chars_to_delete, 6);
}

#[test]
fn test_no_match() {
    let mut matcher = Matcher::new();
    let snippets = vec![make_snippet(";email", "test@example.com")];
    matcher.reload(snippets);

    for ch in ";emai".chars() {
        matcher.push_char(ch);
    }

    let result = matcher.check_match();
    assert!(result.is_none());
}

#[test]
fn test_word_boundary() {
    let mut matcher = Matcher::new();
    let mut snippet = make_snippet("btw", "by the way");
    snippet.word_boundary = true;
    let snippets = vec![snippet];
    matcher.reload(snippets);

    for ch in "hellobtw".chars() {
        matcher.push_char(ch);
    }
    assert!(matcher.check_match().is_none());

    matcher.clear();
    for ch in "hello btw".chars() {
        matcher.push_char(ch);
    }
    assert!(matcher.check_match().is_some());
}

#[test]
fn test_backspace() {
    let mut matcher = Matcher::new();
    let snippets = vec![make_snippet(";test", "replacement")];
    matcher.reload(snippets);

    for ch in ";tess".chars() {
        matcher.push_char(ch);
    }
    matcher.handle_backspace();
    matcher.push_char('t');

    let result = matcher.check_match();
    assert!(result.is_some());
}

#[test]
fn test_regex_match() {
    let mut matcher = Matcher::new();
    let mut snippet = make_snippet(r";d(\d+)", "Number: $1");
    snippet.regex = true;
    let snippets = vec![snippet];
    matcher.reload(snippets);

    for ch in ";d123".chars() {
        matcher.push_char(ch);
    }

    let result = matcher.check_match();
    assert!(result.is_some());

    let result = result.unwrap();
    assert_eq!(result.captures, Some(vec!["123".to_string()]));
}

#[test]
fn test_disabled_snippet() {
    let mut matcher = Matcher::new();
    let mut snippet = make_snippet(";test", "replacement");
    snippet.enabled = false;
    let snippets = vec![snippet];
    matcher.reload(snippets);

    for ch in ";test".chars() {
        matcher.push_char(ch);
    }

    assert!(matcher.check_match().is_none());
}

#[test]
fn buffer_is_pruned_to_half_capacity() {
    let mut matcher = Matcher::new();
    for i in 0..256 {
        matcher.push_char(if i % 2 == 0 { 'a' } else { 'b' });
    }
    assert_eq!(matcher.buffer().chars().count(), 256);
    matcher.push_char('z');
    let b = matcher.buffer();
    assert_eq!(b.chars().count(), 128);
    assert!(b.ends_with("abz"));
    for _ in 0..1000 {
        matcher.push_char('q');
        assert!(matcher.buffer().chars().count() <= 256);
    }
}

#[test]
fn remove_last_and_backspace_on_empty() {
    let mut matcher = Matcher::default();
    matcher.handle_backspace();
    assert_eq!(matcher.buffer(), "");
    for ch in "hello".chars() {
        matcher.push_char(ch);
    }
    matcher.remove_last(2);
    assert_eq!(matcher.buffer(), "hel");
    matcher.remove_last(10);
    assert_eq!(matcher.buffer(), "");
}

#[test]
fn literal_preferred_over_regex_and_regex_order() {
    let mut matcher = Matcher::new();
    let mut r1 = make_snippet(r"x(\d)", "first $1");
    r1.regex = true;
    let mut r2 = make_snippet(r"(\d)", "second $1");
    r2.regex = true;
    matcher.reload(vec![r1, r2, make_snippet("x1", "lit")]);
    for ch in "x1".chars() {
        matcher.push_char(ch);
    }
    let m = matcher.check_match().unwrap();
    assert_eq!(m.snippet.replace, "lit");
    assert_eq!(m.captures, None);
    matcher.clear();
    for ch in "y2".chars() {
        matcher.push_char(ch);
    }
    let m = matcher.check_match().unwrap();
    assert_eq!(m.snippet.replace, "second $1");
    assert_eq!(m.typed_trigger, "2");
    assert_eq!(m.chars_to_delete, 1);
}

#[test]
fn invalid_regex_is_skipped() {
    let mut matcher = Matcher::new();
    let mut bad = make_snippet("(unclosed", "x");
    bad.regex = true;
    let mut good = make_snippet(r"ok", "y");
    good.regex = true;
    matcher.reload(vec![bad, good]);
    for ch in "ok".chars() {
        matcher.push_char(ch);
    }
    let m = matcher.check_match().unwrap();
    assert_eq!(m.snippet.replace, "y");
}

#[test]
fn regex_word_boundary() {
    let mut matcher = Matcher::new();
    let mut r = make_snippet(r"n(\d+)", "num $1");
    r.regex = true;
    r.word_boundary = true;
    matcher.reload(vec![r]);
    for ch in "an12".chars() {
        matcher.push_char(ch);
    }
    assert!(matcher.check_match().is_none());
    matcher.clear();
    for ch in "a n12".chars() {
        matcher.push_char(ch);
    }
    assert_eq!(matcher.check_match().unwrap().chars_to_delete, 3);
}

#[test]
fn engine_event_takes_match_out_of_buffer() {
    let mut matcher = Matcher::new();
    matcher.reload(vec![make_snippet(";e", "mail")]);
    assert!(process_event(&mut matcher, true, KeyboardEvent::WordBoundary(';')).is_none());
    let m = process_event(&mut matcher, true, KeyboardEvent::Character('e')).unwrap();
    assert_eq!(m.chars_to_delete, 2);
    assert_eq!(matcher.buffer(), "");
    assert!(matcher.check_match().is_none());
    assert!(process_event(&mut matcher, false, KeyboardEvent::Character('x')).is_none());
    assert_eq!(matcher.buffer(), "");
    process_event(&mut matcher, true, KeyboardEvent::Character('x'));
    process_event(&mut matcher, true, KeyboardEvent::Character('y'));
    process_event(&mut matcher, true, KeyboardEvent::Backspace);
    assert_eq!(matcher.buffer(), "x");
    process_event(&mut matcher, true, KeyboardEvent::Tab);
    assert_eq!(matcher.buffer(), "");
}

#[test]
fn regex_groups_keep_their_numbers() {
    let mut matcher = Matcher::new();
    let mut r = make_snippet(r"(a)?(b)", "[$1|$2]");
    r.regex = true;
    matcher.reload(vec![r]);
    matcher.push_char('b');
    let m = matcher.check_match().unwrap();
    assert_eq!(m.captures, Some(vec!["".to_string(), "b".to_string()]));
    let e = xpander::expand_match(&m, &xpander::VarNode::Null, &Vec::new()).unwrap();
    assert_eq!(e.text, "[|b]");
    let mut plain = make_snippet(r"zz", "no groups");
    plain.regex = true;
    matcher.reload(vec![plain]);
    matcher.push_char('z');
    matcher.push_char('z');
    assert_eq!(matcher.check_match().unwrap().captures, None);
}
