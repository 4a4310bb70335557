use bite::screen::{
    Action, CharacterAttribute, Color, EraseDisplay, EraseLine, Event, Point, Rectangle, RowRange, Screen, BOLD,
    FG_COLOR,
};

fn row_text(s: &Screen, row: isize) -> String {
    s.compacted_row_slice(row).iter().map(|c| c.code_point).collect()
}

/// A fixed-size screen of `w` columns and `h` rows with `bytes` added.
fn fixed(w: usize, h: usize, bytes: &[u8]) -> Screen {
    let mut s = Screen::new();
    s.fixed_size(w, h);
    let _ = s.add_bytes(bytes);
    s
}

fn cursor(s: &Screen) -> (isize, isize) {
    (s.cursor_x(), s.cursor_y())
}

#[test]
fn cursor_lower_left_then_text() {
    let mut s = fixed(80, 25, b"Hello");
    assert_eq!(s.perform(Action::CursorLowerLeft), Event::Ignore);
    let _ = s.add_bytes(b"World!");
    assert_eq!(row_text(&s, 0), "Hello");
    assert_eq!(row_text(&s, 1), "");
    assert_eq!(row_text(&s, 24), "World!");
    assert_eq!(cursor(&s), (6, 24));
    // A new line in the last row scrolls up.
    let _ = s.add_bytes(b"\n");
    assert_eq!(row_text(&s, 23), "World!");
    assert_eq!(cursor(&s), (0, 24));
}

#[test]
fn absolute_cursor_positions() {
    let mut s = fixed(80, 25, b"Hello World!");
    s.perform(Action::CursorAbsoluteColumn(4));
    let _ = s.add_bytes(b"xxxx");
    assert_eq!(row_text(&s, 0), "Hellxxxxrld!");
    assert_eq!(cursor(&s), (8, 0));

    let mut s = Screen::new();
    let _ = s.add_bytes(b"Hello World!");
    s.perform(Action::CursorAbsoluteColumn(4));
    let _ = s.add_bytes(b"xxxx");
    s.perform(Action::CursorAbsoluteColumn(31));
    assert_eq!(row_text(&s, 0), "Hellxxxxrld!");
    assert_eq!(cursor(&s), (31, 0));

    let mut s = fixed(80, 25, b"Hello\nWorld!");
    s.perform(Action::CursorAbsolutePosition(0, 4));
    let _ = s.add_bytes(b"xxxx");
    assert_eq!(row_text(&s, 0), "Hellxxxx");
    assert_eq!(row_text(&s, 1), "World!");

    // A screen without fixed size grows to the cursor.
    let mut s = Screen::new();
    let _ = s.add_bytes(b"Hello\nWorld!");
    s.perform(Action::CursorAbsolutePosition(2, 6));
    let _ = s.add_bytes(b"xxxx");
    assert_eq!(s.width(), 10);
    assert_eq!(s.height(), 3);
    assert_eq!(row_text(&s, 2), "      xxxx");
}

#[test]
fn relative_cursor_moves() {
    let mut s = fixed(80, 25, b"Hello");
    s.perform(Action::CursorDown(5));
    let _ = s.add_bytes(b"World");
    assert_eq!(row_text(&s, 0), "Hello");
    assert_eq!(row_text(&s, 5), "     World");

    let mut s = Screen::new();
    let _ = s.add_bytes(b"World!");
    s.perform(Action::CursorUp(1));
    let _ = s.add_bytes(b"Hello");
    assert_eq!(s.height(), 2);
    assert_eq!(row_text(&s, 0), "      Hello");
    assert_eq!(row_text(&s, 1), "World!");

    let mut s = fixed(10, 25, b"");
    s.perform(Action::CursorForward(12));
    let _ = s.add_bytes(b"Hello\nWorld");
    assert_eq!(row_text(&s, 0), "         H");
    assert_eq!(row_text(&s, 1), "ello");
    assert_eq!(row_text(&s, 2), "World");

    let mut s = Screen::new();
    let _ = s.add_bytes(b"Hello");
    s.perform(Action::CursorBackward(12));
    let _ = s.add_bytes(b"World");
    assert_eq!(row_text(&s, 0), "World  Hello");

    let mut s = fixed(80, 25, b"Hello");
    s.perform(Action::VerticalPositionRelative(2));
    let _ = s.add_bytes(b"World");
    assert_eq!(cursor(&s), (10, 2));
    assert_eq!(row_text(&s, 2), "     World");

    let mut s = fixed(80, 25, b"");
    s.perform(Action::VerticalPositionAbsolute(4));
    let _ = s.add_bytes(b"Hello");
    s.perform(Action::VerticalPositionAbsolute(1));
    let _ = s.add_bytes(b"World");
    assert_eq!(cursor(&s), (10, 1));
    assert_eq!(row_text(&s, 4), "Hello");
    assert_eq!(row_text(&s, 1), "     World");

    let mut s = fixed(80, 25, b"Hello");
    s.perform(Action::CursorNextLine(3));
    let _ = s.add_bytes(b"World");
    assert_eq!(cursor(&s), (5, 3));
    assert_eq!(row_text(&s, 3), "World");

    let mut s = fixed(80, 25, b"");
    s.perform(Action::VerticalPositionRelative(5));
    let _ = s.add_bytes(b"Hello");
    s.perform(Action::CursorPrevLine(3));
    let _ = s.add_bytes(b"World");
    assert_eq!(cursor(&s), (5, 2));
    assert_eq!(row_text(&s, 5), "Hello");
    assert_eq!(row_text(&s, 2), "World");

    let mut s = Screen::new();
    s.perform(Action::HorizontalMove(3));
    assert_eq!(cursor(&s), (3, 0));
    s.perform(Action::SaveCursor);
    s.perform(Action::CursorDown(2));
    s.perform(Action::RestoreCursor);
    assert_eq!(cursor(&s), (3, 0));
}

#[test]
fn next_line_index_and_reverse_index() {
    let mut s = fixed(80, 25, b"Hello");
    assert_eq!(s.perform(Action::NextLine), Event::Ignore);
    let _ = s.add_bytes(b"World");
    assert_eq!(cursor(&s), (5, 1));
    assert_eq!(row_text(&s, 1), "World");

    let mut s = fixed(80, 25, b"Hello");
    s.perform(Action::Index);
    let _ = s.add_bytes(b"World");
    assert_eq!(cursor(&s), (10, 1));
    assert_eq!(row_text(&s, 1), "     World");

    let mut s = fixed(80, 25, b"");
    s.perform(Action::VerticalPositionAbsolute(24));
    let _ = s.add_bytes(b"Hello");
    s.perform(Action::Index);
    let _ = s.add_bytes(b"World");
    assert_eq!(cursor(&s), (10, 24));
    assert_eq!(row_text(&s, 23), "Hello");
    assert_eq!(row_text(&s, 24), "     World");

    let mut s = fixed(80, 25, b"Hello");
    s.perform(Action::ReverseIndex);
    let _ = s.add_bytes(b"World");
    assert_eq!(cursor(&s), (10, 0));
    assert_eq!(row_text(&s, 0), "     World");
    assert_eq!(row_text(&s, 1), "Hello");
}

#[test]
fn scrolling_actions() {
    let mut s = fixed(80, 25, b"\n\n\n\nHello\nWorld");
    s.perform(Action::ScrollUp(4));
    let _ = s.add_bytes(b"Test");
    assert_eq!(cursor(&s), (9, 5));
    assert_eq!(row_text(&s, 0), "Hello");
    assert_eq!(row_text(&s, 1), "World");
    assert_eq!(row_text(&s, 5), "     Test");

    let mut s = fixed(80, 25, b"Hello World\n");
    s.perform(Action::ScrollDown(1));
    let _ = s.add_bytes(b"Test ");
    assert_eq!(cursor(&s), (5, 1));
    assert_eq!(row_text(&s, 1), "Test  World");

    let mut s = fixed(10, 5, b"a\nb\nc\nd");
    s.perform(Action::CursorAbsolutePosition(1, 0));
    s.perform(Action::InsertLines(2));
    assert_eq!(row_text(&s, 0), "a");
    assert_eq!(row_text(&s, 1), "");
    assert_eq!(row_text(&s, 2), "");
    assert_eq!(row_text(&s, 3), "b");
    assert_eq!(row_text(&s, 4), "c");
    s.perform(Action::DeleteLines(1));
    assert_eq!(row_text(&s, 1), "");
    assert_eq!(row_text(&s, 2), "b");
    assert_eq!(row_text(&s, 3), "c");
    assert_eq!(row_text(&s, 4), "");

    // A scroll region limits scrolling; the cursor moves into it.
    let mut s = fixed(10, 5, b"a\nb\nc\nd\ne");
    s.perform(Action::ScrollRegion(Some(RowRange { start: 1, end: 3 })));
    assert_eq!(cursor(&s), (1, 1));
    s.perform(Action::ScrollUp(1));
    assert_eq!(row_text(&s, 0), "a");
    assert_eq!(row_text(&s, 1), "c");
    assert_eq!(row_text(&s, 2), "d");
    assert_eq!(row_text(&s, 3), "");
    assert_eq!(row_text(&s, 4), "e");
}

#[test]
fn erase_parts_of_the_display() {
    let mut s = fixed(10, 3, b"abcde\nfghij\nklmno");
    s.perform(Action::CursorAbsolutePosition(1, 2));
    s.perform(Action::EraseLine(EraseLine::Right, false));
    // Erased cells are blanks, not drawn characters, so the compacted row ends before them.
    assert_eq!(row_text(&s, 1), "fg");
    assert_eq!(row_text(&s, 0), "abcde");
    s.perform(Action::EraseLine(EraseLine::Left, false));
    assert_eq!(row_text(&s, 1), "");
    s.perform(Action::EraseDisplay(EraseDisplay::Above, false));
    assert_eq!(row_text(&s, 0), "");
    assert_eq!(row_text(&s, 2), "klmno");
    s.perform(Action::EraseDisplay(EraseDisplay::All, false));
    assert_eq!(row_text(&s, 2), "");
    assert_eq!(s.row_slice(2).len(), 9);
    assert!(s.row_slice(2).iter().all(|c| c.code_point == ' ' && !c.drawn()));
}

#[test]
fn attributes_and_modes() {
    let mut s = Screen::new();
    assert_eq!(
        s.character_attributes(&[CharacterAttribute::Bold, CharacterAttribute::Foreground(Color::Red)]),
        Event::Ignore
    );
    s.place_char('x');
    let c = s.compacted_row_slice(0)[0];
    assert!(c.attributes.contains(BOLD | FG_COLOR));
    // Bold text shows the bright variant of the first eight colors.
    assert_eq!(c.foreground_color(), Some(9));
    s.character_attributes(&[CharacterAttribute::Normal, CharacterAttribute::Background(Color::Blue)]);
    s.place_char('y');
    let c = s.compacted_row_slice(0)[1];
    assert!(!c.attributes.contains(BOLD));
    assert_eq!(c.background_color(), Some(4));
    assert_eq!(c.foreground_color(), None);

    assert_eq!(s.perform(Action::SetPrivateMode(1049)), Event::StartTui);
    assert_eq!(s.perform(Action::DecApplicationKeypad(true)), Event::StartTui);
}

#[test]
fn fill_erase_and_repeat() {
    let mut s = fixed(80, 25, b"Hello");
    s.perform(Action::FillArea(33, Rectangle::new_isize(3, 1, 11, 9)));
    assert_eq!(cursor(&s), (5, 0));
    assert_eq!(row_text(&s, 0), "Hello");
    for row in 1..10 {
        assert_eq!(row_text(&s, row), "   !!!!!!!!!");
    }
    assert_eq!(row_text(&s, 10), "");
    // Control codes are not drawn.
    s.perform(Action::FillArea(7, Rectangle::new_isize(0, 12, 5, 12)));
    assert_eq!(row_text(&s, 12), "");

    let mut s = fixed(80, 25, b"Hello World\n0123456789\n01234\n");
    s.perform(Action::EraseArea(Rectangle::new_isize(2, 1, 8, 3), false));
    assert_eq!(cursor(&s), (0, 3));
    assert_eq!(row_text(&s, 0), "Hello World");
    assert_eq!(row_text(&s, 1), "01       9");
    assert_eq!(row_text(&s, 2), "01");

    let mut s = Screen::new();
    let _ = s.add_bytes(b"ab");
    s.perform(Action::RepeatCharacter(3));
    assert_eq!(row_text(&s, 0), "abbbb");
    assert_eq!(cursor(&s), (5, 0));
}

#[test]
fn rectangles_clip() {
    let r = Rectangle::new_isize(-2, 3, 20, 8);
    let c = r.clipped(&Rectangle::new_isize(0, 0, 9, 4));
    assert_eq!(c, Rectangle::new_isize(0, 3, 9, 4));
}

#[test]
fn column_scrolls() {
    let mut s = fixed(10, 25, b"Hello\n0123456789World");
    s.perform(Action::ScrollLeft(4));
    assert_eq!(cursor(&s), (5, 2));
    assert_eq!(row_text(&s, 0), "o");
    assert_eq!(row_text(&s, 1), "456789");
    assert_eq!(row_text(&s, 2), "d");

    let mut s = fixed(10, 25, b"Hello\n0123456789World");
    s.perform(Action::ScrollRight(4));
    assert_eq!(cursor(&s), (5, 2));
    assert_eq!(row_text(&s, 0), "    Hello");
    assert_eq!(row_text(&s, 1), "    012345");
    assert_eq!(row_text(&s, 2), "    World");

    let mut s = fixed(80, 25, b"Hello World\n0123456789\n     ");
    s.perform(Action::InsertColumns(4));
    let _ = s.add_bytes(b"Stuff");
    assert_eq!(cursor(&s), (10, 2));
    assert_eq!(row_text(&s, 0), "Hello     World");
    assert_eq!(row_text(&s, 1), "01234    56789");
    assert_eq!(row_text(&s, 2), "     Stuff");

    let mut s = fixed(80, 25, b"Hello World\n0123456789\n     ");
    s.perform(Action::DeleteColumns(4));
    let _ = s.add_bytes(b"Stuff");
    assert_eq!(cursor(&s), (10, 2));
    assert_eq!(row_text(&s, 0), "Hellold");
    assert_eq!(row_text(&s, 1), "012349");
    assert_eq!(row_text(&s, 2), "     Stuff");
}

#[test]
fn dec_back_and_forward_index() {
    let mut s = fixed(80, 25, b"Hello");
    for _ in 0..4 {
        s.perform(Action::DecBackIndex);
    }
    let _ = s.add_bytes(b"a");
    for _ in 0..3 {
        s.perform(Action::DecBackIndex);
    }
    let _ = s.add_bytes(b"_");
    assert_eq!(cursor(&s), (1, 0));
    assert_eq!(row_text(&s, 0), "_Hallo");

    let mut s = fixed(10, 25, b"Hello");
    for _ in 0..5 {
        s.perform(Action::DecForwardIndex);
    }
    assert_eq!(cursor(&s), (9, 0));
    assert_eq!(row_text(&s, 0), "ello");
}

#[test]
fn insert_and_delete_characters() {
    let mut s = fixed(10, 2, b"abcdef");
    s.perform(Action::CursorAbsoluteColumn(2));
    s.perform(Action::InsertCharacters(2));
    assert_eq!(row_text(&s, 0), "ab  cdef");
    assert_eq!(cursor(&s), (2, 0));
    s.perform(Action::DeleteCharacters(3));
    assert_eq!(row_text(&s, 0), "abdef");
}

#[test]
fn copy_area_and_erase_characters() {
    let mut s = fixed(80, 25, b"Hello World\n0123456789");
    s.perform(Action::CopyArea(Rectangle::new_isize(2, 0, 5, 1), 0, Point { x: 11, y: 2 }, 0));
    assert_eq!(cursor(&s), (10, 1));
    assert_eq!(row_text(&s, 0), "Hello World");
    assert_eq!(row_text(&s, 1), "0123456789");
    assert_eq!(row_text(&s, 2), "           llo ");
    assert_eq!(row_text(&s, 3), "           2345");

    let mut s = fixed(20, 25, b"Hello World\n0123456789");
    s.perform(Action::CopyArea(Rectangle::new_isize(2, 0, 9, 1), 0, Point { x: 17, y: 2 }, 0));
    assert_eq!(cursor(&s), (10, 1));
    assert_eq!(row_text(&s, 2), "                 llo");
    assert_eq!(row_text(&s, 3), "                 234");

    let mut s = fixed(10, 2, b"Hello");
    s.perform(Action::CursorAbsoluteColumn(1));
    s.perform(Action::EraseCharacters(3));
    assert_eq!(row_text(&s, 0), "H   o");
    assert_eq!(cursor(&s), (1, 0));
    // Up to the right edge only.
    s.perform(Action::EraseCharacters(30));
    assert_eq!(row_text(&s, 0), "H");

    let mut s = Screen::new();
    let _ = s.add_bytes(b"ab");
    s.perform(Action::CursorAbsoluteColumn(1));
    s.perform(Action::EraseCharacters(5));
    assert_eq!(s.width(), 7);
    assert_eq!(row_text(&s, 0), "a");
}

#[test]
fn delete_characters_undoes_insert() {
    let mut s = fixed(10, 2, b"abcdefghij");
    s.perform(Action::CursorAbsolutePosition(0, 3));
    s.perform(Action::InsertCharacters(2));
    assert_eq!(row_text(&s, 0), "abc  defgh");
    s.perform(Action::DeleteCharacters(2));
    assert_eq!(row_text(&s, 0), "abcdefgh");
    assert!(!s.row_slice(0).is_empty());
}

#[test]
fn bytes_in_pieces_give_the_same_screen() {
    let mut whole = Screen::new();
    let _ = whole.add_bytes(b"Hello World!\x1b[5Gxxxx\x1b[1mB");
    let mut pieces = Screen::new();
    let _ = pieces.add_bytes(b"Hello World!\x1b");
    let _ = pieces.add_bytes(b"[5");
    let _ = pieces.add_bytes(b"Gxxxx\x1b[1");
    let _ = pieces.add_bytes(b"mB");
    assert_eq!(row_text(&whole, 0), "HellxxxxBld!");
    assert_eq!(row_text(&pieces, 0), row_text(&whole, 0));
    assert_eq!(cursor(&pieces), cursor(&whole));
    assert!(pieces.compacted_row_slice(0)[8].attributes.contains(BOLD));
    // A window title does not show.
    let mut s = Screen::new();
    let _ = s.add_bytes(b"\x1b]0;title\x07ok");
    assert_eq!(row_text(&s, 0), "ok");
}

/// A screen with bytes added, and checks on it.
struct Test(Screen);

impl Test {
    /// An empty screen, then the bytes.
    fn e(bytes: &[u8]) -> Test {
        let mut s = Screen::new();
        let _ = s.add_bytes(bytes);
        Test(s)
    }

    /// A fixed-size screen of `w` columns and `h` rows, then the bytes.
    fn s(w: isize, h: isize, bytes: &[u8]) -> Test {
        let mut s = Screen::new();
        s.fixed_size(w as usize, h as usize);
        let _ = s.add_bytes(bytes);
        Test(s)
    }

    /// Check the compacted row.
    fn cr(self, row: isize, gt: &str) -> Test {
        assert_eq!(row_text(&self.0, row), gt);
        self
    }

    fn width(self, gt: isize) -> Test {
        assert_eq!(self.0.width(), gt);
        self
    }

    fn height(self, gt: isize) -> Test {
        assert_eq!(self.0.height(), gt);
        self
    }

    /// Check the cursor position.
    fn cp(self, gt_x: isize, gt_y: isize) -> Test {
        assert_eq!(self.0.cursor_x(), gt_x);
        assert_eq!(self.0.cursor_y(), gt_y);
        self
    }
}

#[test]
fn cursor_motion() {
    // CursorLowerLeft
    Test::s(80, 25, b"Hello\x1bFWorld!")
        .cr(0, "Hello")
        .cr(1, "")
        .cr(24, "World!")
        .cp(6, 24);
    // Scroll up due to newline in last row
    Test::s(80, 25, b"Hello\x1bFWorld!\n").cr(23, "World!").cp(
        0,
        24,
    );

    // CursorAbsoluteColumn
    Test::s(80, 25, b"Hello World!\x1b[5Gxxxx")
        .cr(0, "Hellxxxxrld!")
        .cp(8, 0);
    Test::e(b"Hello World!\x1b[5Gxxxx\x1b[32G")
        .cr(0, "Hellxxxxrld!")
        .cp(31, 0);

    // CursorAbsolutePosition
    Test::s(80, 25, b"Hello\nWorld!\x1b[1;5Hxxxx")
        .cr(0, "Hellxxxx")
        .cr(1, "World!");
    // Wrap around at right edge
    Test::s(10, 25, b"Hello\nWorld!\x1b[1;5Hxxxx\x1b[2;80HStuff")
        .width(10)
        .cr(0, "Hellxxxx")
        .cr(1, "World!   S")
        .cr(2, "tuff");
    // Scroll up last row
    Test::s(10, 25, b"Hello\nWorld!\x1b[1;5Hxxxx\x1b[25;80HStuff")
        .width(10)
        .cr(0, "World!")
        .cr(23, "         S")
        .cr(24, "tuff");
    // Adaptive size will create new rows/columns as required
    Test::e(b"Hello\nWorld!\x1b[3;7Hxxxx")
        .width(10)
        .height(3)
        .cr(0, "Hello")
        .cr(1, "World!")
        .cr(2, "      xxxx");

    // CursorDown
    Test::s(80, 25, b"Hello\x1b[5BWorld").cr(0, "Hello").cr(
        5,
        "     World",
    );
    Test::e(b"Hello\x1b[5BWorld").height(6).cr(0, "Hello").cr(
        5,
        "     World",
    );

    // CursorUp
    Test::s(80, 25, b"\x1b[5BHello\x1b[2AWorld")
        .cr(5, "Hello")
        .cr(3, "     World");
    Test::e(b"World!\x1b[1AHello")
        .height(2)
        .cr(0, "      Hello")
        .cr(1, "World!");

    // CursorForward
    Test::s(10, 25, b"\x1b[12CHello\nWorld")
        .cr(0, "         H")
        .cr(1, "ello")
        .cr(2, "World");
    Test::e(b"\x1b[12CHello\nWorld")
        .height(2)
        .width(17)
        .cr(0, "            Hello")
        .cr(1, "World");

    // CursorBackward
    Test::s(10, 25, b"Hello\x1b[12DWorld").cr(0, "World");
    Test::e(b"Hello\x1b[12DWorld").cr(0, "World  Hello");

    // VerticalPositionRelative
    Test::s(80, 25, b"Hello\x1b[2eWorld")
        .cp(10, 2)
        .cr(0, "Hello")
        .cr(2, "     World");

    // VerticalPositionAbsolute
    Test::s(80, 25, b"\x1b[5dHello\x1b[2dWorld")
        .cp(10, 1)
        .cr(4, "Hello")
        .cr(1, "     World");

    // Cursor Next Line
    Test::s(80, 25, b"Hello\x1b[3EWorld")
        .cp(5, 3)
        .cr(0, "Hello")
        .cr(3, "World");

    // Cursor Previous Line
    Test::s(80, 25, b"\x1b[5eHello\x1b[3FWorld")
        .cp(5, 2)
        .cr(5, "Hello")
        .cr(2, "World");

    // Next Line
    Test::s(80, 25, b"Hello\x1bEWorld")
        .cp(5, 1)
        .cr(0, "Hello")
        .cr(1, "World");

    // Index
    Test::s(80, 25, b"Hello\x1bDWorld")
        .cp(10, 1)
        .cr(0, "Hello")
        .cr(1, "     World");
    Test::s(80, 25, b"\x1b[25dHello\x1bDWorld")
        .cp(10, 24)
        .cr(23, "Hello")
        .cr(24, "     World");

    // Reverse Index
    Test::s(80, 25, b"Hello\x1bMWorld")
        .cp(10, 0)
        .cr(0, "     World")
        .cr(1, "Hello");

    // Scroll up
    Test::s(80, 25, b"\n\n\n\nHello\nWorld\x1b[4STest")
        .cp(9, 5)
        .cr(0, "Hello")
        .cr(1, "World")
        .cr(5, "     Test");

    // Scroll down
    Test::s(80, 25, b"Hello World\n\x1b[1TTest ").cp(5, 1).cr(
        1,
        "Test  World",
    );

    // Scroll Left
    Test::s(10, 25, b"Hello\n0123456789World\x1b[4 @")
        .cp(5, 2)
        .cr(0, "o")
        .cr(1, "456789")
        .cr(2, "d");

    // Scroll Right
    Test::s(10, 25, b"Hello\n0123456789World\x1b[4 A")
        .cp(5, 2)
        .cr(0, "    Hello")
        .cr(1, "    012345")
        .cr(2, "    World");

    // Backspace
    Test::s(80, 25, b"Hello\x08\x08\x08art").cp(5, 0).cr(
        0,
        "Heart",
    );

    // DEC Back Index
    Test::s(80, 25, b"Hello\x1b6\x1b6\x1b6\x1b6a\x1b6\x1b6\x1b6_")
        .cp(1, 0)
        .cr(0, "_Hallo");

    // DEC Forward Index
    Test::s(10, 25, b"Hello\x1b9\x1b9\x1b9\x1b9\x1b9")
        .cp(9, 0)
        .cr(0, "ello");

    // FillArea
    Test::s(80, 25, b"Hello\x1b[33;2;4;10;12$x")
        .cp(5, 0)
        .cr(0, "Hello")
        .cr(1, "   !!!!!!!!!")
        .cr(2, "   !!!!!!!!!")
        .cr(3, "   !!!!!!!!!")
        .cr(4, "   !!!!!!!!!")
        .cr(5, "   !!!!!!!!!")
        .cr(6, "   !!!!!!!!!")
        .cr(7, "   !!!!!!!!!")
        .cr(8, "   !!!!!!!!!")
        .cr(9, "   !!!!!!!!!");

    // Copy Area
    Test::s(80, 25, b"Hello World\n0123456789\x1b[1;3;2;6;0;3;12;0$v")
        .cp(10, 1)
        .cr(0, "Hello World")
        .cr(1, "0123456789")
        .cr(2, "           llo ")
        .cr(3, "           2345");
    Test::s(20, 25, b"Hello World\n0123456789\x1b[1;3;2;10;0;3;18;0$v")
        .cp(10, 1)
        .cr(0, "Hello World")
        .cr(1, "0123456789")
        .cr(2, "                 llo")
        .cr(3, "                 234");

    // Insert Column
    Test::s(80, 25, b"Hello World\n0123456789\n     \x1b[4'}Stuff")
        .cp(10, 2)
        .cr(0, "Hello     World")
        .cr(1, "01234    56789")
        .cr(2, "     Stuff");

    // Delete Column
    Test::s(80, 25, b"Hello World\n0123456789\n     \x1b[4'~Stuff")
        .cp(10, 2)
        .cr(0, "Hellold")
        .cr(1, "012349")
        .cr(2, "     Stuff");

    // EraseArea
    Test::s(80, 25, b"Hello World\n0123456789\n01234\n\x1b[2;3;4;9$z")
        .cp(0, 3)
        .cr(0, "Hello World")
        .cr(1, "01       9")
        .cr(2, "01");

}
