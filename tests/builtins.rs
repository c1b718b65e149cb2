use xpander::{
    case_mode, strip_trailing_newlines, CaseMode, CharCase,
    expand_variables, find_cursor_position, propagate_case, resolve_builtin, ExpandError,
    HostRequest, VarNode,
};

/// Expands `text`, answering built-in requests from the library and
/// environment requests from `env`.
fn expand_with(text: &str, vars: &VarNode, env: &[(&str, &str)]) -> Result<String, String> {
    let mut answers: Vec<String> = Vec::new();
    loop {
        match expand_variables(text, vars, &answers) {
            Ok(s) => return Ok(s),
            Err(req) => {
                let answer = match resolve_builtin(&req) {
                    Some(r) => r.map_err(|e| format!("{:?}", e))?,
                    None => match &req {
                        HostRequest::Env(name) => env
                            .iter()
                            .find(|(k, _)| k == name)
                            .map(|(_, v)| v.to_string())
                            .ok_or_else(|| format!("missing {}", name))?,
                        other => return Err(format!("unexpected {:?}", other)),
                    },
                };
                answers.push(answer);
            }
        }
    }
}

fn clock(fmt: &str) -> String {
    resolve_builtin(&HostRequest::Clock(fmt.to_string())).unwrap().unwrap()
}

#[test]
fn test_expand_date() {
    let result = clock("%Y-%m-%d");
    assert!(result.len() == 10);
    assert!(result.contains('-'));
}

#[test]
fn test_expand_date_custom_format() {
    let result = clock("%d/%m/%Y");
    assert!(result.len() == 10);
    assert!(result.contains('/'));
}

#[test]
fn test_expand_time() {
    let result = clock("%H:%M:%S");
    assert!(result.contains(':'));
}

#[test]
fn test_expand_random() {
    let result = resolve_builtin(&HostRequest::Random("5".to_string())).unwrap().unwrap();
    assert_eq!(result.len(), 5);
    assert!(result.chars().all(|c| c.is_ascii_digit()));
}

#[test]
fn test_expand_uuid() {
    let result = resolve_builtin(&HostRequest::Uuid).unwrap().unwrap();
    assert_eq!(result.len(), 36);
    assert!(result.contains('-'));
}

#[test]
fn test_expand_variables() {
    let text = "Hello {{env:TEST_USER}}, today is {{date}}";
    let result = expand_with(text, &VarNode::Null, &[("TEST_USER", "testuser")]).unwrap();
    assert!(result.contains("testuser"));
    assert!(!result.contains("{{"));
}

#[test]
fn test_custom_variables() {
    let vars = VarNode::Mapping(vec![(
        "user".to_string(),
        VarNode::Mapping(vec![
            ("name".to_string(), VarNode::Str("Rafa".to_string())),
            (
                "contact".to_string(),
                VarNode::Mapping(vec![(
                    "email".to_string(),
                    VarNode::Str("test@example.com".to_string()),
                )]),
            ),
            ("age".to_string(), VarNode::Number("30".to_string())),
        ]),
    )]);

    let text = "Hi {{user.name}}, email: {{user.contact.email}}, age: {{user.age}}";
    let result = expand_variables(text, &vars, &Vec::new()).unwrap();

    assert!(result.contains("Hi Rafa"));
    assert!(result.contains("email: test@example.com"));
    assert!(result.contains("age: 30"));
}

#[test]
fn test_expand_variables_default() {
    let text = "Hello {{env:TEST_USER_DEF}}, today is {{date}}";
    let vars = VarNode::Null;
    let result = expand_with(text, &vars, &[("TEST_USER_DEF", "testuser")]).unwrap();
    assert!(result.contains("testuser"));
    assert!(!result.contains("{{"));
}

#[test]
fn test_find_cursor_position() {
    let (text, pos) = find_cursor_position("Hello $|$ World");
    assert_eq!(text, "Hello  World");
    assert_eq!(pos, Some(6));

    let (text, pos) = find_cursor_position("No cursor here");
    assert_eq!(text, "No cursor here");
    assert_eq!(pos, None);
}

#[test]
fn test_propagate_case_all_upper() {
    let result = propagate_case("EMAIL", "test@example.com");
    assert_eq!(result, "TEST@EXAMPLE.COM");
}

#[test]
fn test_propagate_case_title() {
    let result = propagate_case("Email", "test@example.com");
    assert_eq!(result, "Test@example.com");
}

#[test]
fn test_propagate_case_lower() {
    let result = propagate_case("email", "Test@Example.com");
    assert_eq!(result, "Test@Example.com");
}

#[test]
fn propagate_case_edge_cases() {
    assert_eq!(propagate_case("", "abc"), "abc");
    assert_eq!(propagate_case("ABC", ""), "");
    assert_eq!(propagate_case(";123", "abc"), "abc");
    assert_eq!(propagate_case(";EMAIL", "test"), "TEST");
    assert_eq!(propagate_case("EmAil", "abc"), "abc");
    assert_eq!(propagate_case("Émile", "été"), "Été");
    assert_eq!(propagate_case("STRASSE", "straße"), "STRASSE");
    assert_eq!(propagate_case(";Email", "test@example.com"), "Test@example.com");
    assert_eq!(propagate_case(";EMAIL", "test@example.com"), "TEST@EXAMPLE.COM");
    assert_eq!(propagate_case(";email", "test@example.com"), "test@example.com");
    assert_eq!(propagate_case("1Ab", "xyz"), "Xyz");
    assert_eq!(propagate_case("1AB", "xyz"), "XYZ");
}

#[test]
fn cursor_marker_first_only_and_edges() {
    let (text, pos) = find_cursor_position("$|$a$|$");
    assert_eq!(text, "a$|$");
    assert_eq!(pos, Some(0));
    let (text, pos) = find_cursor_position("ab$|");
    assert_eq!(text, "ab$|");
    assert_eq!(pos, None);
    let (text, pos) = find_cursor_position("");
    assert_eq!(text, "");
    assert_eq!(pos, None);
}

#[test]
fn tokens_scalars_unknown_and_cursor() {
    let vars = VarNode::Mapping(vec![
        ("flag".to_string(), VarNode::Bool(true)),
        ("off".to_string(), VarNode::Bool(false)),
        ("nothing".to_string(), VarNode::Null),
        ("list".to_string(), VarNode::List(vec![VarNode::Str("x".to_string())])),
        ("date".to_string(), VarNode::Str("custom wins".to_string())),
    ]);
    let none: Vec<String> = Vec::new();
    assert_eq!(expand_variables("{{flag}}/{{off}}/{{nothing}}", &vars, &none).unwrap(), "true/false/");
    assert_eq!(expand_variables("{{ flag }}", &vars, &none).unwrap(), "true");
    assert_eq!(expand_variables("{{list}}", &vars, &none).unwrap(), "{{list}}");
    assert_eq!(expand_variables("{{ nope }}", &vars, &none).unwrap(), "{{ nope }}");
    assert_eq!(expand_variables("{{date}}", &vars, &none).unwrap(), "custom wins");
    assert_eq!(expand_variables("a{{cursor}}b{{|}}", &VarNode::Null, &none).unwrap(), "a$|$b$|$");
    assert_eq!(expand_variables("{{}} {x}} {{a}", &VarNode::Null, &none).unwrap(), "{{}} {x}} {{a}");
    assert_eq!(expand_variables("{{{x}}", &VarNode::Null, &none).unwrap(), "{{{x}}");
    assert_eq!(expand_variables("", &VarNode::Null, &none).unwrap(), "");
}

#[test]
fn token_requests_in_order() {
    let none: Vec<String> = Vec::new();
    let text = "{{shell: echo hi }}{{clipboard}}{{random:3}}{{time: %H }}{{datetime}}{{uuid}}";
    assert_eq!(expand_variables(text, &VarNode::Null, &none), Err(HostRequest::Shell("echo hi".to_string())));
    let a1 = vec!["hi".to_string()];
    assert_eq!(expand_variables(text, &VarNode::Null, &a1), Err(HostRequest::Clipboard));
    let a2 = vec!["hi".to_string(), "clip".to_string()];
    assert_eq!(expand_variables(text, &VarNode::Null, &a2), Err(HostRequest::Random("3".to_string())));
    let a3 = vec!["hi".to_string(), "clip".to_string(), "123".to_string()];
    assert_eq!(expand_variables(text, &VarNode::Null, &a3), Err(HostRequest::Clock("%H".to_string())));
    let a4 = vec!["hi".to_string(), "clip".to_string(), "123".to_string(), "07".to_string()];
    assert_eq!(
        expand_variables(text, &VarNode::Null, &a4),
        Err(HostRequest::Clock("%Y-%m-%d %H:%M:%S".to_string()))
    );
    let mut a5 = a4.clone();
    a5.push("D".to_string());
    assert_eq!(expand_variables(text, &VarNode::Null, &a5), Err(HostRequest::Uuid));
    a5.push("U".to_string());
    assert_eq!(expand_variables(text, &VarNode::Null, &a5).unwrap(), "hiclip12307DU");
}

#[test]
fn random_digit_counts() {
    for n in ["1", "+2", "20"] {
        let r = resolve_builtin(&HostRequest::Random(n.to_string())).unwrap().unwrap();
        assert_eq!(r.len(), n.trim_start_matches('+').parse::<usize>().unwrap());
        assert!(r.chars().all(|c| c.is_ascii_digit()));
    }
    let r = resolve_builtin(&HostRequest::Random("20".to_string())).unwrap().unwrap();
    assert_ne!(r.chars().next(), Some('0'));
    for bad in ["0", "21", "", "x", "-1", "+", "99999999999999999999999"] {
        assert_eq!(
            resolve_builtin(&HostRequest::Random(bad.to_string())),
            Some(Err(ExpandError::InvalidRandomDigits))
        );
    }
    assert_eq!(resolve_builtin(&HostRequest::Env("X".to_string())), None);
    assert_eq!(resolve_builtin(&HostRequest::Clipboard), None);
}

#[test]
fn case_mode_on_given_flags() {
    let punct = CharCase { alphabetic: false, uppercase: false, lowercase: false };
    let upper = CharCase { alphabetic: true, uppercase: true, lowercase: false };
    let lower = CharCase { alphabetic: true, uppercase: false, lowercase: true };
    assert_eq!(case_mode(&vec![punct, upper, upper]), CaseMode::AllCaps);
    assert_eq!(case_mode(&vec![punct, upper, lower, punct, lower]), CaseMode::Capitalized);
    assert_eq!(case_mode(&vec![upper, lower, upper]), CaseMode::AsIs);
    assert_eq!(case_mode(&vec![lower, upper]), CaseMode::AsIs);
    assert_eq!(case_mode(&vec![punct, punct]), CaseMode::AsIs);
    assert_eq!(case_mode(&Vec::new()), CaseMode::AsIs);
}

#[test]
fn uuid_shape_and_clock_errors() {
    let u: Vec<char> = resolve_builtin(&HostRequest::Uuid).unwrap().unwrap().chars().collect();
    assert_eq!(u.len(), 36);
    for (i, c) in u.iter().enumerate() {
        if [8, 13, 18, 23].contains(&i) {
            assert_eq!(*c, '-');
        } else {
            assert!(c.is_ascii_digit() || ('a'..='f').contains(c));
        }
    }
    assert_eq!(u[14], '4');
    assert!("89ab".contains(u[19]));
    assert_eq!(
        resolve_builtin(&HostRequest::Clock("%Q bad".to_string())),
        Some(Err(ExpandError::InvalidTimeFormat))
    );
}

#[test]
fn shell_output_newlines() {
    assert_eq!(strip_trailing_newlines("hello\n\n"), "hello");
    assert_eq!(strip_trailing_newlines("a\nb"), "a\nb");
    assert_eq!(strip_trailing_newlines("\n"), "");
    assert_eq!(strip_trailing_newlines(""), "");
}
