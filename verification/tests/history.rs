use bite::history::{EnteredCommands, History};

#[test]
fn enter() {
    let mut trie = EnteredCommands::new();

    trie.enter("ab cd ef");
    trie.enter("ab cd ef");
    trie.enter("ab cd ef");
    trie.enter("ab ef cd");
    trie.enter("ab ef cd");
    trie.enter("ef cd ab");

    assert_eq!(trie.len(), 3);
    assert_eq!(trie.get("ab cd ef"), Some(3));
    assert_eq!(trie.get("ab ef cd"), Some(2));
    assert_eq!(trie.get("ef cd ab"), Some(1));
}

#[test]
fn predict() {
    let trie = {
        let mut trie = EnteredCommands::new();

        trie.enter("abzzz ef");
        trie.enter("abzzz ef");
        trie.enter("abzzz ef");
        trie.enter("ab ef cd");
        trie.enter("ab ef cd");
        trie.enter("abxxx");
        trie.enter("yyyyy");
        trie
    };

    let options = trie.predict("ab");
    let mut options = options.iter().map(|s| s.as_str());
    assert_eq!(options.next(), Some("zzz ef"));
    assert_eq!(options.next(), Some(" ef cd"));
    assert_eq!(options.next(), Some("xxx"));
    assert_eq!(options.next(), None);
}

#[test]
fn serde() {
    // Build a history
    let mut history = History::new();

    history.enter("/home/user", "ab cd ef");
    history.enter("/home/user", "ab cd ef");
    history.enter("/home/user", "ab cd ef");
    history.enter("/home/user/stuff", "ab cd ef");
    history.enter("/home/user/stuff", "ab cd ef");
    history.enter("/home/user", "cd ef");

    let buffer = history.to_bytes();

    let maybe_readback = History::from_bytes(&buffer[..]);
    assert_eq!(maybe_readback.is_ok(), true);
    if let Ok(readback) = maybe_readback {
        assert_eq!(history, readback);
    }
}

#[test]
fn predict_unknown_start() {
    let mut trie = EnteredCommands::new();
    trie.enter("ls");
    assert_eq!(trie.predict("x"), Vec::<String>::new());
    assert_eq!(trie.get("x"), None);
}

#[test]
fn from_maps_later_entries_win() {
    let maps = vec![
        ("/a".to_string(), vec![("x".to_string(), 1), ("x".to_string(), 5)]),
        ("/a".to_string(), vec![("y".to_string(), 2)]),
    ];
    let h = History::from_maps(&maps);
    let back = h.to_maps();
    assert_eq!(back, vec![("/a".to_string(), vec![("y".to_string(), 2)])]);
}

#[test]
fn predict_from_a_stored_command_finds_every_longer_one() {
    let mut e = bite::history::EnteredCommands::new();
    e.enter("ls");
    e.enter("ls -l");
    e.enter("ls -l");
    e.enter("lsof");
    e.enter("cat");
    let r = e.predict("ls");
    assert_eq!(r.len(), 3);
    assert_eq!(r[0], " -l");
    assert!(r.contains(&"".to_string()));
    assert!(r.contains(&"of".to_string()));
}

#[test]
fn histories_with_the_same_folders_are_equal_in_any_order() {
    let mut a = History::new();
    a.enter("/b", "ls");
    a.enter("/a", "cd");
    let mut b = History::new();
    b.enter("/a", "cd");
    b.enter("/b", "ls");
    assert_eq!(a, b);
    let names: Vec<String> = a.to_maps().into_iter().map(|(d, _)| d).collect();
    assert_eq!(names, vec!["/a".to_string(), "/b".to_string()]);
}

#[test]
fn bytes_that_are_no_history_are_refused() {
    assert!(History::from_bytes(&[1, 2, 3]).is_err());
    assert!(History::from_bytes(&[]).is_err());
    let empty = History::new();
    let back = History::from_bytes(&empty.to_bytes()).unwrap();
    assert_eq!(back, empty);
}

#[test]
fn equal_counts_keep_the_order_of_the_trie() {
    let mut trie = EnteredCommands::new();
    trie.enter("ab1");
    trie.enter("abA");
    trie.enter("abq");
    trie.enter("abq");
    assert_eq!(trie.predict("ab"), vec!["q".to_string(), "1".to_string(), "A".to_string()]);
}
