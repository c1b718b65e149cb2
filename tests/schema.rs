use xpander::{
    default_keystroke_delay, default_layout, default_true, flatten_snippets, Config, Folder,
    Settings, Snippet, SnippetNode, VarNode,
};

#[test]
fn test_default_config() {
    let config = Config::default();
    assert!(config.settings.enabled);
    assert!(!config.settings.enable_sound);
    assert!(config.snippets.is_empty());
}

#[test]
fn test_snippet_builder() {
    let snippet = Snippet::new(";email", "test@example.com")
        .with_label("Email")
        .with_case_propagation();

    assert_eq!(snippet.trigger, ";email");
    assert_eq!(snippet.replace, "test@example.com");
    assert_eq!(snippet.label, Some("Email".to_string()));
    assert!(snippet.propagate_case);
}

#[test]
fn settings_defaults() {
    let s = Settings::default();
    assert!(s.enabled);
    assert!(s.delete_trigger);
    assert!(!s.enable_sound);
    assert!(!s.notify_on_expand);
    assert_eq!(s.keystroke_delay_ms, 12);
    assert_eq!(s.ydotool_socket, None);
    assert_eq!(s.layout, "qwerty");
    assert!(default_true());
    assert_eq!(default_keystroke_delay(), 12);
    assert_eq!(default_layout(), "qwerty");
    assert!(matches!(Config::default().variables, VarNode::Null));
}

#[test]
fn snippet_builders_set_one_flag_each() {
    let s = Snippet::new("a", "b");
    assert!(!s.cursor_position && !s.word_boundary && !s.regex && s.enabled);
    let s = s.with_cursor_position();
    assert!(s.cursor_position && !s.word_boundary);
    let s = s.with_word_boundary();
    assert!(s.cursor_position && s.word_boundary && !s.propagate_case);
}

#[test]
fn flatten_skips_disabled_snippets_and_folders() {
    let mut off = Snippet::new(";off", "x");
    off.enabled = false;
    let nodes = vec![
        SnippetNode::Folder(Folder {
            folder: "Work".to_string(),
            items: vec![
                SnippetNode::Snippet(Snippet::new(";sig", "Work Signature")),
                SnippetNode::Snippet(off),
                SnippetNode::Folder(Folder {
                    folder: "Hidden".to_string(),
                    items: vec![SnippetNode::Snippet(Snippet::new(";h", "hidden"))],
                    enabled: false,
                }),
            ],
            enabled: true,
        }),
        SnippetNode::Snippet(Snippet::new(";home", "Home Address")),
    ];
    let flat = flatten_snippets(&nodes);
    let triggers: Vec<&str> = flat.iter().map(|s| s.trigger.as_str()).collect();
    assert_eq!(triggers, vec![";sig", ";home"]);
    assert!(flatten_snippets(&Vec::new()).is_empty());
}
