use xpander::{Snippet, Trie};

fn make_snippet(trigger: &str) -> Snippet {
    Snippet {
        trigger: trigger.to_string(),
        replace: "content".to_string(),
        label: None,
        propagate_case: false,
        cursor_position: false,
        word_boundary: false,
        regex: false,
        applications: None,
        exclude_applications: None,
        enabled: true,
    }
}

#[test]
fn test_reverse_lookup() {
    let mut trie = Trie::new();
    trie.insert(make_snippet(";test"));

    let (s, len) = trie.find_match("hello ;test").unwrap();
    assert_eq!(s.trigger, ";test");
    assert_eq!(len, 5);

    let (s, len) = trie.find_match("this is a ;test").unwrap();
    assert_eq!(s.trigger, ";test");
    assert_eq!(len, 5);

    assert!(trie.find_match(";tes").is_none());

    assert!(trie.find_match("nothing here").is_none());
}

#[test]
fn test_longest_match_priority() {
    let mut trie = Trie::new();
    trie.insert(make_snippet("test"));
    trie.insert(make_snippet(";test"));

    let (s, len) = trie.find_match("hello ;test").unwrap();
    assert_eq!(s.trigger, ";test");
    assert_eq!(len, 5);
}

#[test]
fn trie_longest_wins_in_either_insertion_order() {
    let mut trie = Trie::new();
    trie.insert(make_snippet(";test"));
    trie.insert(make_snippet("test"));
    let (s, len) = trie.find_match("hello ;test").unwrap();
    assert_eq!(s.trigger, ";test");
    assert_eq!(len, 5);
    let (s, len) = trie.find_match("hello test").unwrap();
    assert_eq!(s.trigger, "test");
    assert_eq!(len, 4);
}

#[test]
fn trie_later_snippet_replaces_same_trigger() {
    let mut trie = Trie::new();
    let mut first = make_snippet(";x");
    first.replace = "one".to_string();
    let mut second = make_snippet(";x");
    second.replace = "two".to_string();
    trie.insert(first);
    trie.insert(second);
    let (s, len) = trie.find_match("a;x").unwrap();
    assert_eq!(s.replace, "two");
    assert_eq!(len, 2);
}

#[test]
fn trie_empty_text_and_empty_trie() {
    let trie = Trie::new();
    assert!(trie.find_match("abc").is_none());
    let mut trie = Trie::new();
    trie.insert(make_snippet("abc"));
    assert!(trie.find_match("").is_none());
    let (_, len) = trie.find_match("abc").unwrap();
    assert_eq!(len, 3);
}

#[test]
fn trie_non_ascii_trigger() {
    let mut trie = Trie::new();
    trie.insert(make_snippet("çà"));
    let (s, len) = trie.find_match("voilà çà").unwrap();
    assert_eq!(s.trigger, "çà");
    assert_eq!(len, 2);
}
