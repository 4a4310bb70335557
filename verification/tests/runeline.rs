use bite::runeline::Runeline;

#[test]
fn append_empty() {
    {
        let mut rl = Runeline::new();
        rl.insert_str("h");
        assert_eq!(rl.text().len(), 1);
        assert_eq!(rl.byte_index(), 1);
        assert_eq!(rl.char_index(), 1);
    }
    {
        let mut rl = Runeline::new();
        rl.insert_str("ä");
        assert_eq!(rl.text().len(), 2);
        assert_eq!(rl.byte_index(), 2);
        assert_eq!(rl.char_index(), 1);
    }
}

#[test]
fn move_around() {
    let mut rl = Runeline::new();
    rl.insert_str("Hällö");
    assert_eq!(rl.text().len(), 7);
    // Past the string
    assert_eq!(rl.byte_index(), 7);
    assert_eq!(rl.char_index(), 5);
    rl.move_left();
    // before ö
    assert_eq!(rl.byte_index(), 5);
    assert_eq!(rl.char_index(), 4);
    rl.move_left();
    // before l
    assert_eq!(rl.byte_index(), 4);
    assert_eq!(rl.char_index(), 3);
    rl.move_left();
    // before l
    assert_eq!(rl.byte_index(), 3);
    assert_eq!(rl.char_index(), 2);
    rl.move_left();
    // before ä
    assert_eq!(rl.byte_index(), 1);
    assert_eq!(rl.char_index(), 1);
    rl.move_left();
    // before H
    assert_eq!(rl.byte_index(), 0);
    assert_eq!(rl.char_index(), 0);
    rl.move_left();
    // before H
    assert_eq!(rl.byte_index(), 0);
    assert_eq!(rl.char_index(), 0);
    rl.move_right();
    // before ä
    assert_eq!(rl.byte_index(), 1);
    assert_eq!(rl.char_index(), 1);
    rl.move_right();
    // before l
    assert_eq!(rl.byte_index(), 3);
    assert_eq!(rl.char_index(), 2);
    rl.move_right();
    // before l
    assert_eq!(rl.byte_index(), 4);
    assert_eq!(rl.char_index(), 3);
    rl.move_right();
    // before ö
    assert_eq!(rl.byte_index(), 5);
    assert_eq!(rl.char_index(), 4);
    rl.move_right();
    // Past the string
    assert_eq!(rl.byte_index(), 7);
    assert_eq!(rl.char_index(), 5);
    rl.move_right();
    // Past the string
    assert_eq!(rl.byte_index(), 7);
    assert_eq!(rl.char_index(), 5);
}

#[test]
fn delete_chars() {
    let mut rl = Runeline::new();
    rl.insert_str("Hällö Wörld!");

    assert_eq!(rl.text().len(), 15);

    for _i in 0..11 {
        rl.move_left();
    }
    rl.delete_right();

    assert_eq!(rl.text(), "Hllö Wörld!");
    assert_eq!(rl.byte_index(), 1);
    assert_eq!(rl.char_index(), 1);

    rl.delete_right();

    assert_eq!(rl.text(), "Hlö Wörld!");
    assert_eq!(rl.byte_index(), 1);
    assert_eq!(rl.char_index(), 1);

    rl.delete_left();

    assert_eq!(rl.text(), "lö Wörld!");
    assert_eq!(rl.byte_index(), 0);
    assert_eq!(rl.char_index(), 0);
}

#[test]
fn runeline_text_before_cursor_and_clear() {
    let mut rl = Runeline::new();
    rl.insert_str("aöb");
    rl.move_left();
    assert_eq!(rl.text_before_cursor(), "aö");
    rl.delete_left();
    assert_eq!(rl.text(), "ab");
    assert_eq!(rl.char_index(), 1);
    assert_eq!(rl.byte_index(), 1);
    rl.insert_str("€");
    assert_eq!(rl.text(), "a€b");
    assert_eq!(rl.byte_index(), 4);
    let old = rl.clear();
    assert_eq!(old, "a€b");
    assert_eq!(rl.text(), "");
    assert_eq!(rl.char_index(), 0);
}

#[test]
fn runeline_replace() {
    let mut rl = Runeline::new();
    rl.insert_str("abcd");
    rl.move_left();
    rl.replace("xüz".to_string(), true);
    assert_eq!(rl.text(), "xüz");
    assert_eq!(rl.char_index(), 3);
    assert_eq!(rl.byte_index(), 4);
    rl.replace("qrst".to_string(), false);
    assert_eq!(rl.char_index(), 0);
    rl.move_right();
    rl.replace("ü".to_string(), true);
    assert_eq!(rl.char_index(), 1);
    assert_eq!(rl.byte_index(), 2);
    rl.delete_right();
    assert_eq!(rl.text(), "ü");
}
