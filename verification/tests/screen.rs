use bite::screen::{Cell, Event, Matrix, Screen};

fn row_text(s: &Screen, row: isize) -> String {
    s.compacted_row_slice(row).iter().map(|c| c.code_point).collect()
}

fn check_compacted_row(s: &Screen, row: isize, gt: &str) {
    assert_eq!(row_text(s, row), gt);
}

/// Put the cursor of a screen that is not of fixed size at (x, y).
fn place_cursor(s: &mut Screen, x: isize, y: isize) {
    s.move_left_edge();
    s.move_top_edge();
    s.move_right(x);
    s.move_down(y);
}

fn cells_len(s: &Screen) -> isize {
    s.width() * s.height()
}

#[test]
fn test_start_screen() {
    let mut s = Screen::new();
    s.make_room();
    assert_eq!(s.width(), 1);
    assert_eq!(s.height(), 1);
    assert_eq!(cells_len(&s), 1);
}

#[test]
fn test_place_letter() {
    let mut s = Screen::new();
    s.place_char('H');
    assert_eq!(s.width(), 1);
    assert_eq!(s.height(), 1);
    assert_eq!(cells_len(&s), 1);
    assert_eq!(s.compacted_row_slice(0)[0].code_point, 'H');
}

#[test]
fn test_grow_left() {
    let mut s = Screen::new();
    s.make_room();
    place_cursor(&mut s, -3, 0);
    s.make_room();
    assert_eq!(s.width(), 4);
    assert_eq!(s.height(), 1);
    assert_eq!(cells_len(&s), 4);
    assert_eq!(s.cursor_x(), 0);
    assert_eq!(s.cursor_y(), 0);
}

#[test]
fn test_grow_right() {
    let mut s = Screen::new();
    s.make_room();
    place_cursor(&mut s, 3, 0);
    s.make_room();
    assert_eq!(s.width(), 4);
    assert_eq!(s.height(), 1);
    assert_eq!(cells_len(&s), 4);
    assert_eq!(s.cursor_x(), 3);
    assert_eq!(s.cursor_y(), 0);
}

#[test]
fn test_grow_up() {
    let mut s = Screen::new();
    s.make_room();
    place_cursor(&mut s, 0, -3);
    s.make_room();
    assert_eq!(s.width(), 1);
    assert_eq!(s.height(), 4);
    assert_eq!(cells_len(&s), 4);
    assert_eq!(s.cursor_x(), 0);
    assert_eq!(s.cursor_y(), 0);
}

#[test]
fn test_grow_down() {
    let mut s = Screen::new();
    s.make_room();
    place_cursor(&mut s, 0, 3);
    s.make_room();
    assert_eq!(s.width(), 1);
    assert_eq!(s.height(), 4);
    assert_eq!(cells_len(&s), 4);
    assert_eq!(s.cursor_x(), 0);
    assert_eq!(s.cursor_y(), 3);
}

#[test]
fn test_compacted_row() {
    // Matrix contains:
    // hello
    //       world
    //
    let mut s = Screen::new();
    s.place_str("hello");
    s.move_down(1);
    s.place_str("world");
    s.move_down(1);
    s.make_room();

    assert_eq!(s.height(), 3);

    let l0 = s.compacted_row_slice(0);
    assert_eq!(l0.len(), 5);
    let c0: Vec<char> = l0.iter().map(|c| c.code_point).collect();
    assert_eq!(c0, ['h', 'e', 'l', 'l', 'o']);

    check_compacted_row(&s, 0, "hello");
    check_compacted_row(&s, 1, "     world");

    let l2 = s.compacted_row_slice(2);
    assert_eq!(l2.len(), 0);
}

#[test]
fn empty_cell_vec() {
    let v = Screen::one_line_cell_vec(b"");
    assert_eq!(v.len(), 0);
}

#[test]
fn delete_char() {
    let mut s = Screen::new();
    let _ = s.add_bytes(b"hello\nworld\n");

    // Delete the e
    place_cursor(&mut s, 1, 0);
    s.delete_character();

    assert_eq!(s.height(), 2);
    check_compacted_row(&s, 0, "hllo");
    check_compacted_row(&s, 1, "world");
}

#[test]
fn insert_char() {
    let mut s = Screen::new();
    let _ = s.add_bytes(b"hello\nworld\n");

    // Insert before the e
    place_cursor(&mut s, 1, 0);
    s.insert_character();

    assert_eq!(s.height(), 2);
    check_compacted_row(&s, 0, "h ello");
    check_compacted_row(&s, 1, "world");
}

#[test]
fn delete_row_0() {
    let mut s = Screen::new();
    let _ = s.add_bytes(b"hello\nworld\n");

    assert_eq!(s.height(), 2);
    s.delete_row();
    assert_eq!(s.height(), 2);
    check_compacted_row(&s, 0, "hello");
    check_compacted_row(&s, 1, "world");

    // Delete the first row
    place_cursor(&mut s, 1, 0);
    s.delete_row();

    assert_eq!(s.height(), 1);
    check_compacted_row(&s, 0, "world");
}

#[test]
fn delete_row_1() {
    let mut s = Screen::new();
    let _ = s.add_bytes(b"hello\nworld\n");

    // Delete the second row
    place_cursor(&mut s, 1, 1);
    s.delete_row();

    assert_eq!(s.height(), 1);
    check_compacted_row(&s, 0, "hello");
}

#[test]
fn insert_row() {
    let mut s = Screen::new();
    let _ = s.add_bytes(b"hello\nworld\n");

    // Insert a row between the two
    place_cursor(&mut s, 1, 0);
    s.insert_row();

    assert_eq!(s.height(), 3);
    check_compacted_row(&s, 0, "hello");
    check_compacted_row(&s, 1, "");
    check_compacted_row(&s, 2, "world");
}

#[test]
fn insert_row_one_line() {
    let mut s = Screen::new();
    let _ = s.add_bytes(b"hello");
    s.insert_row();

    assert_eq!(s.height(), 2);
    check_compacted_row(&s, 0, "hello");
    check_compacted_row(&s, 1, "");
}

#[test]
fn break_line() {
    let mut s = Screen::new();
    let _ = s.add_bytes(b"hello\nworld\n");

    // Break the first line between the l
    place_cursor(&mut s, 3, 0);
    s.break_line();

    assert_eq!(s.cursor_x(), 0);
    assert_eq!(s.cursor_y(), 1);

    assert_eq!(s.height(), 3);
    check_compacted_row(&s, 0, "hel");
    check_compacted_row(&s, 1, "lo");
    check_compacted_row(&s, 2, "world");
}

#[test]
fn break_line_at_end() {
    let mut s = Screen::new();
    let _ = s.add_bytes(b"hello");
    s.break_line();

    assert_eq!(s.cursor_x(), 0);
    assert_eq!(s.cursor_y(), 1);

    assert_eq!(s.height(), 2);
    check_compacted_row(&s, 0, "hello");
    check_compacted_row(&s, 1, "");
}

#[test]
fn text_before_cursor() {
    let mut s = Screen::new();
    let _ = s.add_bytes(b"hello\nworld\n");

    // Get hell
    place_cursor(&mut s, 4, 0);
    let tbc = s.text_before_cursor();
    assert_eq!(tbc.as_str(), "hell");
}

#[test]
fn join_next_line() {
    let mut s = Screen::new();
    let _ = s.add_bytes(b"hello\nworld\n");

    place_cursor(&mut s, 5, 0);
    s.join_next_line();
    assert_eq!(s.height(), 1);
    check_compacted_row(&s, 0, "helloworld");
}

#[test]
fn empty_screen_iter() {
    let mut s = Screen::new();
    assert_eq!(s.line_iter().len(), 0);

    let _ = s.add_bytes(b"stuff\n");
    assert_eq!(s.line_iter().len(), 1);
    let _ = s.add_bytes(b"stuff\nstuff\n");
    assert_eq!(s.line_iter().len(), 3);
}

#[test]
fn bell() {
    let mut s = Screen::new();
    assert_eq!(s.add_byte(b'\x07'), Event::Bell);
}

#[test]
fn simple_text() {
    let mut s = Screen::new();
    let _ = s.add_bytes(b"he\rwo");
    check_compacted_row(&s, 0, "wo");
    assert_eq!(s.height(), 1);

    let mut s = Screen::new();
    let _ = s.add_bytes(b"he\nwo\n");
    check_compacted_row(&s, 0, "he");
    check_compacted_row(&s, 1, "wo");
    assert_eq!(s.height(), 2);
    assert_eq!(s.line_iter().len(), 2);
}

// The same behaviour on the first version of the screen.

#[test]
fn screen_start_screen() {
    let mut s = Screen::new();
    s.make_room();
    assert_eq!(s.width(), 1);
    assert_eq!(s.height(), 1);
    assert_eq!(cells_len(&s), 1);
}

#[test]
fn screen_place_letter() {
    let mut s = Screen::new();
    s.place_char('H');
    assert_eq!(s.width(), 1);
    assert_eq!(s.height(), 1);
    assert_eq!(cells_len(&s), 1);
    assert_eq!(s.compacted_row_slice(0)[0].code_point, 'H');
}

#[test]
fn screen_grow_left() {
    let mut s = Screen::new();
    s.make_room();
    place_cursor(&mut s, -3, 0);
    s.make_room();
    assert_eq!(s.width(), 4);
    assert_eq!(s.height(), 1);
    assert_eq!(cells_len(&s), 4);
    assert_eq!(s.cursor_x(), 0);
    assert_eq!(s.cursor_y(), 0);
}

#[test]
fn screen_grow_right() {
    let mut s = Screen::new();
    s.make_room();
    place_cursor(&mut s, 3, 0);
    s.make_room();
    assert_eq!(s.width(), 4);
    assert_eq!(s.height(), 1);
    assert_eq!(cells_len(&s), 4);
    assert_eq!(s.cursor_x(), 3);
    assert_eq!(s.cursor_y(), 0);
}

#[test]
fn screen_grow_up() {
    let mut s = Screen::new();
    s.make_room();
    place_cursor(&mut s, 0, -3);
    s.make_room();
    assert_eq!(s.width(), 1);
    assert_eq!(s.height(), 4);
    assert_eq!(cells_len(&s), 4);
    assert_eq!(s.cursor_x(), 0);
    assert_eq!(s.cursor_y(), 0);
}

#[test]
fn screen_grow_down() {
    let mut s = Screen::new();
    s.make_room();
    place_cursor(&mut s, 0, 3);
    s.make_room();
    assert_eq!(s.width(), 1);
    assert_eq!(s.height(), 4);
    assert_eq!(cells_len(&s), 4);
    assert_eq!(s.cursor_x(), 0);
    assert_eq!(s.cursor_y(), 3);
}

#[test]
fn screen_compacted_row() {
    let mut s = Screen::new();
    s.place_str("hello");
    s.move_down(1);
    s.place_str("world");
    s.move_down(1);
    s.make_room();

    assert_eq!(s.height(), 3);
    let m = s.freeze();
    let l0 = m.compacted_row(0);
    assert_eq!(l0.len(), 5);
    let c0: Vec<char> = l0.iter().map(|c| c.code_point).collect();
    assert_eq!(c0, ['h', 'e', 'l', 'l', 'o']);
    let l1: String = m.compacted_row(1).iter().map(|c| c.code_point).collect();
    assert_eq!(l1, "     world");
    assert_eq!(m.compacted_row(2).len(), 0);
}

// Further behaviour.

#[test]
fn extract_text_of_rows() {
    let mut s = Screen::new();
    let _ = s.add_bytes(b"ab\ncd");
    assert_eq!(s.extract_text(), "ab\ncd\n");
    assert_eq!(s.extract_text_without_last_nl(), "ab\ncd");
}

#[test]
fn word_before_cursor_and_its_deletion() {
    let mut s = Screen::new();
    s.place_str("ls foo");
    assert_eq!(s.word_before_cursor(), "foo");
    s.delete_word_before_cursor();
    assert_eq!(s.cursor_x(), 3);
    assert_eq!(s.word_before_cursor(), "");
    assert_eq!(s.text_before_cursor(), "ls ");
}

#[test]
fn fixed_size_wraps_and_scrolls() {
    let mut s = Screen::new();
    s.fixed_size(3, 2);
    let _ = s.add_bytes(b"abcdefg");
    // The first row scrolled out; the last character starts a row of its own
    check_compacted_row(&s, 0, "def");
    check_compacted_row(&s, 1, "g");
    assert_eq!(s.width(), 3);
    assert_eq!(s.height(), 2);
}

#[test]
fn utf8_bytes_make_one_character() {
    let mut s = Screen::new();
    let _ = s.add_bytes("aöb€".as_bytes());
    check_compacted_row(&s, 0, "aöb€");
    // An invalid byte is ignored
    let _ = s.add_bytes(&[0xff, b'c']);
    check_compacted_row(&s, 0, "aöb€c");
}

#[test]
fn bell_stops_the_bytes() {
    let mut s = Screen::new();
    assert_eq!(s.add_bytes(b"a\x07b"), Err(Event::Bell));
    check_compacted_row(&s, 0, "a");
}

#[test]
fn tab_and_backspace() {
    let mut s = Screen::new();
    let _ = s.add_bytes(b"a\tb");
    assert_eq!(s.cursor_x(), 9);
    let _ = s.add_bytes(b"\x08c");
    check_compacted_row(&s, 0, "a       c");
}

#[test]
fn cell_colors() {
    let colors = bite::screen::Colors { foreground: 3, background: 4 };
    let c = Cell::new(colors);
    assert_eq!(c.foreground_color(), None);
    assert_eq!(c.background_color(), None);
    let attrs = bite::screen::Attributes::from_bits(bite::screen::FG_COLOR | bite::screen::BOLD | bite::screen::BG_COLOR);
    let c = Cell::with_attr(colors, attrs);
    assert_eq!(c.foreground_color(), Some(11));
    assert_eq!(c.background_color(), Some(4));
    assert!(!c.drawn());
    assert_eq!(Cell::new(colors).encode_utf8(), vec![b' ']);
}

#[test]
fn matrices_look_the_same() {
    let a = Screen::one_line_matrix(b"xy");
    let b = Screen::one_line_matrix(b"xy");
    let c = Screen::one_line_matrix(b"xz");
    assert!(a.looks_same(&b));
    assert!(!a.looks_same(&c));
    let s = Screen::new_from_matrix(Screen::one_line_matrix(b"xy"));
    assert!(!s.looks_different(&b));
    assert_eq!(Matrix::new().rows(), 0);
}

#[test]
fn replace_text() {
    let mut s = Screen::new();
    let _ = s.add_bytes(b"old text\nmore");
    s.replace("new", false);
    assert_eq!(s.height(), 1);
    check_compacted_row(&s, 0, "new");
    assert_eq!(s.cursor_x(), 3);
    s.replace("abc", true);
    assert_eq!(s.cursor_x(), 3);
}

#[test]
fn insert_str_before_cursor() {
    let mut s = Screen::new();
    s.place_str("ad");
    s.move_left(1);
    s.insert_str("bc");
    check_compacted_row(&s, 0, "abcd");
}

#[test]
fn delete_left_of_cursor() {
    let mut s = Screen::new();
    s.place_str("abc");
    s.delete_left();
    check_compacted_row(&s, 0, "ab");
    s.move_left_edge();
    s.delete_left();
    check_compacted_row(&s, 0, "ab");
}

#[test]
fn cursor_at_end() {
    let mut s = Screen::new();
    let _ = s.add_bytes(b"ab\ncd");
    assert!(s.cursor_at_end());
    assert!(s.cursor_at_end_of_line());
    s.move_left(1);
    assert!(!s.cursor_at_end());
    s.move_end_of_line();
    assert!(s.cursor_at_end());
}
