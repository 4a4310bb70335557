//! Text input line.
//!
//! Handles UTF-8 input: the cursor is kept both as a character position and as the byte offset
//! of that position in the UTF-8 encoding of the line.

use vstd::prelude::*;
use vstd::utf8::*;
use crate::strings::{char_len_utf8, string_push_str};
use crate::utf8_text::{
    byte_offset, char_width, lemma_byte_offset_bounds, lemma_byte_offset_strict, lemma_encode_injective,
    lemma_encode_len_ge, lemma_encode_split, lemma_encode_single, lemma_encode_concat, lemma_inner_not_boundary, lemma_offset_is_boundary,
};

verus! {

broadcast use vstd::utf8::encode_utf8_valid_utf8, vstd::utf8::encode_utf8_decode_utf8,
    vstd::string::axiom_spec_iter, vstd::string::next_postcondition;

/// `String::insert_str`: inserts `text` at byte position `idx`, which must be a character
/// boundary of the string. The encoding of the result is the old encoding with the encoding of
/// `text` spliced in at `idx`.
#[verifier::external_body]
fn string_insert_str(s: &mut String, idx: usize, text: &str)
    requires
        is_char_boundary(encode_utf8(old(s)@), idx as int),
    ensures
        encode_utf8(final(s)@) == encode_utf8(old(s)@).take(idx as int) + encode_utf8(text@)
            + encode_utf8(old(s)@).skip(idx as int),
{
    s.insert_str(idx, text);
}

/// `String::split_off`: keeps the bytes before `at` (a character boundary) in `s` and returns
/// the bytes from `at` on as a new string.
#[verifier::external_body]
fn string_split_off(s: &mut String, at: usize) -> (rest: String)
    requires
        is_char_boundary(encode_utf8(old(s)@), at as int),
    ensures
        encode_utf8(final(s)@) == encode_utf8(old(s)@).take(at as int),
        encode_utf8(rest@) == encode_utf8(old(s)@).skip(at as int),
{
    s.split_off(at)
}

/// Byte length of the UTF-8 encoding of a string.
fn byte_len(s: &String) -> (n: usize)
    ensures
        n == encode_utf8(s@).len(),
{
    s.as_str().as_bytes().len()
}

/// Number of characters of a string slice.
pub fn char_count(text: &str) -> (n: usize)
    ensures
        n == text@.len(),
{
    let nbytes = text.as_bytes().len();
    proof {
        lemma_encode_len_ge(text@);
    }
    let mut n: usize = 0;
    for c in it: text.chars()
        invariant
            n == it.index(),
            it.seq() == text@,
            text@.len() <= nbytes,
    {
        n = n + 1;
    }
    n
}

/// Character and byte index where the next character will be inserted.
struct Cursor {
    char_index: usize,
    byte_index: usize,
}

/// Current string and cursor position.
pub struct Runeline {
    line: String,
    cursor: Cursor,
}

impl Cursor {
    /// A new cursor always starts at the beginning of the line.
    fn new() -> (c: Self)
        ensures
            c.char_index == 0,
            c.byte_index == 0,
    {
        Self { char_index: 0, byte_index: 0 }
    }
}

/// The line and cursor after inserting `t` at the cursor: the text lands at the cursor and the
/// cursor moves past it.
pub open spec fn inserted(v: (Seq<char>, int), t: Seq<char>) -> (Seq<char>, int) {
    (v.0.take(v.1) + t + v.0.skip(v.1), v.1 + t.len())
}

/// The line and cursor after moving one character to the left, if there is one.
pub open spec fn moved_left(v: (Seq<char>, int)) -> (Seq<char>, int) {
    if v.1 > 0 {
        (v.0, v.1 - 1)
    } else {
        (v.0, 0)
    }
}

/// The line and cursor after moving one character to the right, if there is one.
pub open spec fn moved_right(v: (Seq<char>, int)) -> (Seq<char>, int) {
    if v.1 < v.0.len() {
        (v.0, v.1 + 1)
    } else {
        v
    }
}

/// The line and cursor after deleting the character under the cursor, if there is one.
pub open spec fn right_deleted(v: (Seq<char>, int)) -> (Seq<char>, int) {
    if v.1 < v.0.len() {
        (v.0.take(v.1) + v.0.skip(v.1 + 1), v.1)
    } else {
        v
    }
}

/// The line and cursor after deleting the character left of the cursor, if there is one.
pub open spec fn left_deleted(v: (Seq<char>, int)) -> (Seq<char>, int) {
    if v.1 > 0 {
        (v.0.take(v.1 - 1) + v.0.skip(v.1), v.1 - 1)
    } else {
        v
    }
}

/// Deleting left of the cursor right after typing a character gives back the line and the
/// cursor position from before.
pub proof fn law_delete_left_undoes_insert(v: (Seq<char>, int), c: char)
    requires
        0 <= v.1 <= v.0.len(),
    ensures
        left_deleted(inserted(v, seq![c])) == v,
{
    let w = inserted(v, seq![c]);
    assert(w.0.take(w.1 - 1) =~= v.0.take(v.1));
    assert(w.0.skip(w.1) =~= v.0.skip(v.1));
    assert(v.0.take(v.1) + v.0.skip(v.1) =~= v.0);
}

/// Moving right after a move to the left returns the cursor to where it was.
pub proof fn law_move_right_undoes_move_left(v: (Seq<char>, int))
    requires
        0 < v.1 <= v.0.len(),
    ensures
        moved_right(moved_left(v)) == v,
{
}

/// Away from the start of the line, deleting left of the cursor is moving left and then
/// deleting under the cursor.
pub proof fn law_delete_left_is_move_left_then_delete_right(v: (Seq<char>, int))
    requires
        0 < v.1 <= v.0.len(),
    ensures
        left_deleted(v) == right_deleted(moved_left(v)),
{
    assert(v.0.skip(v.1 - 1 + 1) =~= v.0.skip(v.1));
}

/// After typing, the text left of the cursor is the text that was left of it before, followed
/// by what was typed; the text right of the cursor is unchanged.
pub proof fn law_insert_extends_text_before_cursor(v: (Seq<char>, int), t: Seq<char>)
    requires
        0 <= v.1 <= v.0.len(),
    ensures
        inserted(v, t).0.take(inserted(v, t).1) == v.0.take(v.1) + t,
        inserted(v, t).0.skip(inserted(v, t).1) == v.0.skip(v.1),
        inserted(v, t).0.len() == v.0.len() + t.len(),
{
    let w = inserted(v, t);
    assert(w.0.take(w.1) =~= v.0.take(v.1) + t);
    assert(w.0.skip(w.1) =~= v.0.skip(v.1));
}

impl View for Runeline {
    /// The characters of the line and the cursor position in characters.
    type V = (Seq<char>, int);

    closed spec fn view(&self) -> (Seq<char>, int) {
        (self.line@, self.cursor.char_index as int)
    }
}

impl Runeline {
    /// The cursor lies within the line, and its byte index is the offset of the cursor's
    /// character position in the UTF-8 encoding of the line.
    pub closed spec fn wf(&self) -> bool {
        &&& self.cursor.char_index <= self.line@.len()
        &&& self.cursor.byte_index == byte_offset(self.line@, self.cursor.char_index as int)
        &&& encode_utf8(self.line@).len() <= usize::MAX
    }

    /// A well-formed line has its cursor within the text, so the text left of the cursor has
    /// exactly as many characters as the cursor index.
    pub proof fn law_cursor_within_text(&self)
        requires
            self.wf(),
        ensures
            0 <= self@.1 <= self@.0.len(),
            self@.0.take(self@.1).len() == self@.1,
    {
    }

    /// Byte offset of the cursor in the UTF-8 encoding of the line.
    pub open spec fn spec_byte_index(&self) -> int {
        byte_offset(self@.0, self@.1)
    }

    /// A new input line starts empty.
    pub fn new() -> (r: Self)
        ensures
            r.wf(),
            r@.0 == Seq::<char>::empty(),
            r@.1 == 0,
    {
        let r = Self { line: String::new(), cursor: Cursor::new() };
        proof {
            assert(r.line@.take(0) =~= Seq::<char>::empty());
        }
        r
    }

    /// Clear the line to an empty string and return the old content.
    pub fn clear(&mut self) -> (old_text: String)
        requires
            old(self).wf(),
        ensures
            final(self).wf(),
            final(self)@.0 == Seq::<char>::empty(),
            final(self)@.1 == 0,
            old_text@ == old(self)@.0,
    {
        self.cursor.char_index = 0;
        self.cursor.byte_index = 0;
        let mut old_text = String::new();
        std::mem::swap(&mut old_text, &mut self.line);
        proof {
            assert(self.line@.take(0) =~= Seq::<char>::empty());
        }
        old_text
    }

    /// Retrieve the input as a slice.
    pub fn text(&self) -> (t: &str)
        ensures
            t@ == self@.0,
    {
        self.line.as_str()
    }

    /// Retrieve the input left of the cursor.
    pub fn text_before_cursor(&self) -> (t: &str)
        requires
            self.wf(),
        ensures
            t@ == self@.0.take(self@.1),
            t@.len() == self@.1,
            0 <= self@.1 <= self@.0.len(),
    {
        proof {
            lemma_offset_is_boundary(self.line@, self.cursor.char_index as int);
        }
        let (before, _after) = self.line.as_str().split_at(self.cursor.byte_index);
        proof {
            lemma_encode_split(self.line@, self.cursor.char_index as int);
            assert(encode_utf8(self.line@).subrange(0, self.cursor.byte_index as int)
                =~= encode_utf8(self.line@.take(self.cursor.char_index as int)));
            lemma_encode_injective(before@, self.line@.take(self.cursor.char_index as int));
        }
        before
    }

    /// Retrieve the cursor position as how many characters are shown left of it.
    pub fn char_index(&self) -> (i: usize)
        ensures
            i == self@.1,
    {
        self.cursor.char_index
    }

    /// Retrieve the cursor position as a byte offset into the UTF-8 encoding of the line.
    pub fn byte_index(&self) -> (i: usize)
        requires
            self.wf(),
        ensures
            i == self.spec_byte_index(),
    {
        self.cursor.byte_index
    }

    /// Move the cursor one code point to the left.
    pub fn move_left(&mut self)
        requires
            old(self).wf(),
        ensures
            final(self).wf(),
            final(self)@ == moved_left(old(self)@),
    {
        if self.cursor.char_index > 0 {
            let ghost s = self.line@;
            let ghost k = self.cursor.char_index as int;
            proof {
                lemma_byte_offset_strict(s, k - 1, k);
                lemma_offset_is_boundary(s, k - 1);
                lemma_byte_offset_bounds(s, k);
            }
            loop
                invariant_except_break
                    byte_offset(s, k - 1) < self.cursor.byte_index <= byte_offset(s, k),
                invariant
                    s == self.line@,
                    k == self.cursor.char_index,
                    0 < k <= s.len(),
                    encode_utf8(s).len() <= usize::MAX,
                    is_char_boundary(encode_utf8(s), byte_offset(s, k - 1)),
                ensures
                    self.cursor.byte_index == byte_offset(s, k - 1),
                    s == self.line@,
                    k == self.cursor.char_index,
                decreases self.cursor.byte_index,
            {
                self.cursor.byte_index -= 1;
                if self.is_char_boundary() {
                    proof {
                        if self.cursor.byte_index != byte_offset(s, k - 1) {
                            lemma_inner_not_boundary(s, k - 1, self.cursor.byte_index as int);
                        }
                    }
                    break;
                }
            }
            self.cursor.char_index -= 1;
        }
    }

    /// Move the cursor one code point to the right.
    pub fn move_right(&mut self)
        requires
            old(self).wf(),
        ensures
            final(self).wf(),
            final(self)@ == moved_right(old(self)@),
    {
        let len = byte_len(&self.line);
        let ghost s = self.line@;
        let ghost k = self.cursor.char_index as int;
        proof {
            lemma_byte_offset_bounds(s, k);
            if k == s.len() {
                assert(self.cursor.byte_index == len);
            } else {
                lemma_byte_offset_strict(s, k, s.len() as int);
            }
        }
        if self.cursor.byte_index < len {
            proof {
                assert(k < s.len()) by {
                    if k == s.len() {
                        lemma_byte_offset_bounds(s, k);
                    }
                }
                lemma_byte_offset_strict(s, k, k + 1);
                lemma_byte_offset_bounds(s, k + 1);
                lemma_offset_is_boundary(s, k + 1);
            }
            loop
                invariant_except_break
                    byte_offset(s, k) <= self.cursor.byte_index < byte_offset(s, k + 1),
                invariant
                    s == self.line@,
                    k == self.cursor.char_index,
                    0 <= k < s.len(),
                    len == encode_utf8(s).len(),
                    byte_offset(s, k + 1) <= len,
                    is_char_boundary(encode_utf8(s), byte_offset(s, k + 1)),
                ensures
                    self.cursor.byte_index == byte_offset(s, k + 1),
                    s == self.line@,
                    k == self.cursor.char_index,
                decreases len - self.cursor.byte_index,
            {
                self.cursor.byte_index += 1;
                if self.cursor.byte_index >= len {
                    break;
                }
                if self.is_char_boundary() {
                    proof {
                        if self.cursor.byte_index != byte_offset(s, k + 1) {
                            lemma_inner_not_boundary(s, k, self.cursor.byte_index as int);
                        }
                    }
                    break;
                }
            }
            self.cursor.char_index += 1;
        }
    }

    /// Insert a string at the current cursor position.
    ///
    /// Move as many characters to the right as the new string contains.
    pub fn insert_str(&mut self, text: &str)
        requires
            old(self).wf(),
        ensures
            final(self).wf(),
            final(self)@ == inserted(old(self)@, text@),
            final(self)@.0.take(final(self)@.1) == old(self)@.0.take(old(self)@.1) + text@,
            final(self)@.0.skip(final(self)@.1) == old(self)@.0.skip(old(self)@.1),
            final(self)@.1 == old(self)@.1 + text@.len(),
    {
        let ghost s = self.line@;
        let ghost k = self.cursor.char_index as int;
        proof {
            lemma_offset_is_boundary(s, k);
            lemma_encode_split(s, k);
            assert(encode_utf8(s).take(self.cursor.byte_index as int) =~= encode_utf8(s.take(k)));
            assert(encode_utf8(s).skip(self.cursor.byte_index as int) =~= encode_utf8(s.skip(k)));
        }
        string_insert_str(&mut self.line, self.cursor.byte_index, text);
        let new_len = byte_len(&self.line);
        proof {
            lemma_encode_concat(s.take(k), text@);
            lemma_encode_concat(s.take(k) + text@, s.skip(k));
            lemma_encode_injective(self.line@, s.take(k) + text@ + s.skip(k));
            assert(self.line@.take(k + text@.len()) =~= s.take(k) + text@);
            lemma_encode_len_ge(text@);
            lemma_byte_offset_bounds(s, k);
            assert(new_len == encode_utf8(s.take(k)).len() + encode_utf8(text@).len() + encode_utf8(
                s.skip(k),
            ).len());
        }
        self.cursor.byte_index += text.len();
        self.cursor.char_index += char_count(text);
        proof {
            law_insert_extends_text_before_cursor(old(self)@, text@);
        }
    }

    /// Delete the character under the cursor.
    pub fn delete_right(&mut self)
        requires
            old(self).wf(),
        ensures
            final(self).wf(),
            final(self)@ == right_deleted(old(self)@),
    {
        let ghost s = self.line@;
        let ghost k = self.cursor.char_index as int;
        proof {
            lemma_offset_is_boundary(s, k);
            lemma_encode_split(s, k);
            assert(encode_utf8(s).take(self.cursor.byte_index as int) =~= encode_utf8(s.take(k)));
            assert(encode_utf8(s).skip(self.cursor.byte_index as int) =~= encode_utf8(s.skip(k)));
        }
        // Find the length of the character under the cursor
        let mut rest = string_split_off(&mut self.line, self.cursor.byte_index);
        proof {
            lemma_encode_injective(self.line@, s.take(k));
            lemma_encode_injective(rest@, s.skip(k));
        }
        let mut chars = rest.as_str().chars();
        let first = chars.next();
        let bytes_in_char = match first {
            Some(c) => char_len_utf8(c),
            None => 0,
        };
        proof {
            let r = rest@;
            if r.len() > 0 {
                assert(r.take(1) =~= seq![r[0]]);
                lemma_encode_single(r[0]);
                assert(bytes_in_char == byte_offset(r, 1));
                lemma_offset_is_boundary(r, 1);
                lemma_encode_split(r, 1);
                assert(encode_utf8(r).skip(bytes_in_char as int) =~= encode_utf8(r.skip(1)));
            } else {
                assert(encode_utf8(r).skip(0) =~= encode_utf8(r));
            }
        }
        let tail = string_split_off(&mut rest, bytes_in_char);
        proof {
            let r = s.skip(k);
            if r.len() > 0 {
                lemma_encode_injective(tail@, r.skip(1));
                assert(r.skip(1) =~= s.skip(k + 1));
            } else {
                lemma_encode_injective(tail@, r);
            }
        }
        string_push_str(&mut self.line, tail.as_str());
        proof {
            let n = self.line@;
            assert(n.take(k) =~= s.take(k));
            if k < s.len() {
                assert(n =~= s.take(k) + s.skip(k + 1));
            } else {
                assert(n =~= s);
            }
            lemma_encode_split(n, k);
            lemma_encode_split(s, k);
            if k < s.len() {
                lemma_encode_split(s.skip(k), 1);
                assert(s.skip(k).skip(1) =~= s.skip(k + 1));
                lemma_encode_split(s, k + 1);
                assert(n.skip(k) =~= s.skip(k + 1));
            } else {
                assert(n =~= s);
            }
            assert(encode_utf8(n).len() <= encode_utf8(s).len());
        }
    }

    /// Delete the character left of the cursor if there is one.
    pub fn delete_left(&mut self)
        requires
            old(self).wf(),
        ensures
            final(self).wf(),
            final(self)@ == left_deleted(old(self)@),
    {
        if self.cursor.char_index > 0 {
            self.move_left();
            self.delete_right();
        }
    }

    /// Replace the string with the new one.
    ///
    /// The cursor can be placed at the beginning of the line or at the same character position as
    /// the old string.
    pub fn replace(&mut self, s: String, stay_there: bool)
        requires
            old(self).wf(),
        ensures
            final(self).wf(),
            final(self)@.0 == s@,
            final(self)@.1 == if stay_there {
                if old(self)@.1 <= s@.len() { old(self)@.1 } else { s@.len() as int }
            } else {
                0
            },
    {
        self.line = s;
        let ci = self.cursor.char_index;
        self.cursor.byte_index = 0;
        self.cursor.char_index = 0;
        let _ = byte_len(&self.line);
        proof {
            assert(self.line@.take(0) =~= Seq::<char>::empty());
        }
        if stay_there {
            for _i in 0..ci
                invariant
                    self.wf(),
                    self.line@ == s@,
                    self.cursor.char_index == if _i <= s@.len() { _i as int } else { s@.len() as int },
            {
                self.move_right();
            }
        }
    }

    /// Check if the byte index is at the start of an utf8 code point.
    fn is_char_boundary(&self) -> (b: bool)
        ensures
            b == is_char_boundary(encode_utf8(self.line@), self.cursor.byte_index as int),
    {
        self.line.as_str().is_char_boundary(self.cursor.byte_index)
    }
}

} // verus!
