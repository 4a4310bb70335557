//! Small verified text helpers: comparison, character collection, and the decimal text form
//! of 32-bit integers (formatting and parsing as `std` does it).

use vstd::prelude::*;
use vstd::utf8::*;
use crate::utf8_text::{char_width, lemma_encode_injective};

verus! {

broadcast use vstd::string::axiom_spec_iter, vstd::string::next_postcondition;

/// `String::push`: appends one character.
#[verifier::external_body]
pub fn string_push(s: &mut String, c: char)
    ensures
        final(s)@ == old(s)@.push(c),
{
    s.push(c);
}

/// `String::push_str`: appends `text`.
#[verifier::external_body]
pub fn string_push_str(s: &mut String, text: &str)
    ensures
        final(s)@ == old(s)@ + text@,
{
    s.push_str(text);
}

/// The number of bytes of the UTF-8 encoding of `c`, by the range of its code point.
pub fn char_len_utf8(c: char) -> (n: usize)
    ensures
        n == char_width(c),
{
    let v = c as u32;
    if v <= 0x7F {
        1
    } else if v <= 0x7FF {
        2
    } else if v <= 0xFFFF {
        3
    } else {
        4
    }
}

/// Equality of two string slices by comparing their UTF-8 bytes.
pub fn str_eq(a: &str, b: &str) -> (r: bool)
    ensures
        r == (a@ == b@),
{
    let ab = a.as_bytes();
    let bb = b.as_bytes();
    if ab.len() != bb.len() {
        return false;
    }
    let mut i: usize = 0;
    while i < ab.len()
        invariant
            ab@ == encode_utf8(a@),
            bb@ == encode_utf8(b@),
            ab@.len() == bb@.len(),
            i <= ab@.len(),
            forall|j: int| 0 <= j < i ==> ab@[j] == bb@[j],
        decreases ab@.len() - i,
    {
        if ab[i] != bb[i] {
            return false;
        }
        i = i + 1;
    }
    proof {
        assert(ab@ =~= bb@);
        lemma_encode_injective(a@, b@);
    }
    true
}

/// Text `a` comes before text `b` in the order of code points, character by character; a
/// text comes before every longer text that it begins.
pub open spec fn text_less(a: Seq<char>, b: Seq<char>) -> bool
    decreases a.len(),
{
    if a.len() == 0 {
        b.len() > 0
    } else if b.len() == 0 {
        false
    } else if a[0] != b[0] {
        a[0] < b[0]
    } else {
        text_less(a.drop_first(), b.drop_first())
    }
}

/// No text comes before itself.
pub proof fn lemma_text_less_irreflexive(a: Seq<char>)
    ensures
        !text_less(a, a),
    decreases a.len(),
{
    if a.len() > 0 {
        lemma_text_less_irreflexive(a.drop_first());
    }
}

/// The order is transitive.
pub proof fn lemma_text_less_transitive(a: Seq<char>, b: Seq<char>, c: Seq<char>)
    requires
        text_less(a, b),
        text_less(b, c),
    ensures
        text_less(a, c),
    decreases a.len(),
{
    if a.len() > 0 && b.len() > 0 && c.len() > 0 && a[0] == b[0] && b[0] == c[0] {
        lemma_text_less_transitive(a.drop_first(), b.drop_first(), c.drop_first());
    }
}

/// Of two different texts, one comes before the other.
pub proof fn lemma_text_less_total(a: Seq<char>, b: Seq<char>)
    requires
        a != b,
    ensures
        text_less(a, b) || text_less(b, a),
    decreases a.len(),
{
    if a.len() > 0 && b.len() > 0 && a[0] == b[0] {
        if a.drop_first() == b.drop_first() {
            assert(a =~= seq![a[0]] + a.drop_first());
            assert(b =~= seq![b[0]] + b.drop_first());
        }
        lemma_text_less_total(a.drop_first(), b.drop_first());
    } else if a.len() > 0 && b.len() > 0 {
    } else if a.len() == 0 && b.len() == 0 {
        assert(a =~= b);
    }
}

/// Whether `a` comes before `b`.
pub fn str_less(a: &str, b: &str) -> (r: bool)
    ensures
        r == text_less(a@, b@),
{
    let av = chars_of(a);
    let bv = chars_of(b);
    let mut i: usize = 0;
    proof {
        assert(a@.skip(0) =~= a@);
        assert(b@.skip(0) =~= b@);
    }
    while i < av.len() && i < bv.len() && av[i] == bv[i]
        invariant
            av@ == a@,
            bv@ == b@,
            i <= av@.len(),
            i <= bv@.len(),
            text_less(a@, b@) == text_less(a@.skip(i as int), b@.skip(i as int)),
        decreases av@.len() - i,
    {
        proof {
            assert(a@.skip(i as int).drop_first() =~= a@.skip(i + 1));
            assert(b@.skip(i as int).drop_first() =~= b@.skip(i + 1));
        }
        i = i + 1;
    }
    proof {
        let sa = a@.skip(i as int);
        let sb = b@.skip(i as int);
        assert(sa.len() == a@.len() - i);
        assert(sb.len() == b@.len() - i);
        if i < av@.len() && i < bv@.len() {
            assert(sa[0] == a@[i as int]);
            assert(sb[0] == b@[i as int]);
        }
    }
    if i == av.len() {
        assert(a@.skip(i as int).len() == 0);
        i < bv.len()
    } else if i == bv.len() {
        assert(b@.skip(i as int).len() == 0);
        false
    } else {
        assert(av@[i as int] != bv@[i as int]);
        av[i] < bv[i]
    }
}

/// Equality of a `String` with a string slice.
pub fn string_eq_str(a: &String, b: &str) -> (r: bool)
    ensures
        r == (a@ == b@),
{
    str_eq(a.as_str(), b)
}

/// Collect the characters of a string slice.
pub fn chars_of(s: &str) -> (v: Vec<char>)
    ensures
        v@ == s@,
{
    let mut v: Vec<char> = Vec::new();
    for c in it: s.chars()
        invariant
            it.seq() == s@,
            v@ == s@.take(it.index() as int),
    {
        proof {
            assert(s@.take(it.index() as int + 1) =~= s@.take(it.index() as int).push(c));
        }
        v.push(c);
    }
    proof {
        assert(s@.take(s@.len() as int) =~= s@);
    }
    v
}

/// Build a `String` from characters.
pub fn string_from_chars(cs: &[char]) -> (s: String)
    ensures
        s@ == cs@,
{
    let mut s = String::new();
    let mut i: usize = 0;
    while i < cs.len()
        invariant
            i <= cs@.len(),
            s@ == cs@.take(i as int),
        decreases cs@.len() - i,
    {
        proof {
            assert(cs@.take(i as int + 1) =~= cs@.take(i as int).push(cs@[i as int]));
        }
        string_push(&mut s, cs[i]);
        i = i + 1;
    }
    proof {
        assert(cs@.take(cs@.len() as int) =~= cs@);
    }
    s
}

/// True for the ASCII decimal digits.
pub open spec fn is_digit(c: char) -> bool {
    '0' <= c && c <= '9'
}

/// Numeric value of a decimal digit.
pub open spec fn digit_value(c: char) -> int {
    (c as int) - ('0' as int)
}

/// The digit character for a value below ten.
pub open spec fn digit_char(d: int) -> char {
    ((d + ('0' as int)) as u32) as char
}

/// All characters are decimal digits.
pub open spec fn all_digits(s: Seq<char>) -> bool {
    forall|i: int| 0 <= i < s.len() ==> #[trigger] is_digit(s[i])
}

/// Value of a sequence of decimal digits, most significant first.
pub open spec fn digits_value(s: Seq<char>) -> int
    decreases s.len(),
{
    if s.len() == 0 {
        0
    } else {
        digits_value(s.drop_last()) * 10 + digit_value(s.last())
    }
}

/// Decimal text of a natural number, without leading zeros.
pub open spec fn decimal_text(n: nat) -> Seq<char>
    decreases n,
{
    if n < 10 {
        seq![digit_char(n as int)]
    } else {
        decimal_text(n / 10).push(digit_char((n % 10) as int))
    }
}

/// Decimal text of an integer, with a leading minus sign when negative.
pub open spec fn int_text(i: int) -> Seq<char> {
    if i < 0 {
        seq!['-'] + decimal_text((-i) as nat)
    } else {
        decimal_text(i as nat)
    }
}

/// Length of an optional leading sign.
pub open spec fn sign_len(s: Seq<char>) -> int {
    if s.len() > 0 && (s[0] == '-' || s[0] == '+') {
        1
    } else {
        0
    }
}

/// The integer that a text denotes: an optional sign followed by at least one decimal digit.
pub open spec fn spec_parse_int(s: Seq<char>) -> Option<int> {
    let body = s.skip(sign_len(s));
    if body.len() > 0 && all_digits(body) {
        if s[0] == '-' {
            Some(-digits_value(body))
        } else {
            Some(digits_value(body))
        }
    } else {
        None
    }
}

/// What `str::parse::<i32>` gives: the denoted integer if it fits into an `i32`.
pub open spec fn spec_parse_i32(s: Seq<char>) -> Option<i32> {
    match spec_parse_int(s) {
        Some(v) => if i32::MIN <= v <= i32::MAX {
            Some(v as i32)
        } else {
            None
        },
        None => None,
    }
}

proof fn lemma_digits_value_nonneg(s: Seq<char>)
    requires
        all_digits(s),
    ensures
        digits_value(s) >= 0,
    decreases s.len(),
{
    if s.len() > 0 {
        assert(all_digits(s.drop_last())) by {
            assert forall|i: int| 0 <= i < s.drop_last().len() implies #[trigger] is_digit(
                s.drop_last()[i],
            ) by {
                assert(is_digit(s[i]));
            }
        }
        lemma_digits_value_nonneg(s.drop_last());
        assert(is_digit(s[s.len() - 1]));
    }
}

proof fn lemma_digit_char(d: int)
    requires
        0 <= d < 10,
    ensures
        digit_value(digit_char(d)) == d,
        is_digit(digit_char(d)),
{
    assert(((d + 48) as u32) as char as int == d + 48);
}

proof fn lemma_decimal_text(n: nat)
    ensures
        decimal_text(n).len() > 0,
        all_digits(decimal_text(n)),
        digits_value(decimal_text(n)) == n,
    decreases n,
{
    let t = decimal_text(n);
    lemma_digit_char((n % 10) as int);
    if n < 10 {
        assert(t.drop_last() =~= Seq::<char>::empty());
        assert(is_digit(t[0]));
        assert(digits_value(t.drop_last()) == 0);
        assert(t.last() == digit_char(n as int));
        assert(n % 10 == n);
    } else {
        lemma_decimal_text(n / 10);
        let p = decimal_text(n / 10);
        assert(t.drop_last() =~= p);
        assert forall|i: int| 0 <= i < t.len() implies #[trigger] is_digit(t[i]) by {
            if i < p.len() {
                assert(t[i] == p[i]);
            }
        }
        assert(t.last() == digit_char((n % 10) as int));
        assert((n / 10) * 10 + n % 10 == n);
    }
}

/// Formatting an `i32` as decimal text and parsing that text gives back the number.
pub proof fn lemma_parse_format_roundtrip(i: i32)
    ensures
        spec_parse_i32(int_text(i as int)) == Some(i),
{
    if i < 0 {
        let m = (-i) as nat;
        lemma_decimal_text(m);
        let t = int_text(i as int);
        assert(t.skip(1) =~= decimal_text(m));
        assert(t[0] == '-');
    } else {
        lemma_decimal_text(i as nat);
        let t = int_text(i as int);
        assert(is_digit(t[0]));
        assert(t.skip(0) =~= t);
    }
}

/// Append the decimal text of `n`.
fn push_decimal(s: &mut String, n: u32)
    ensures
        final(s)@ == old(s)@ + decimal_text(n as nat),
    decreases n,
{
    if n >= 10 {
        push_decimal(s, n / 10);
    }
    let d: u8 = (n % 10) as u8;
    let c = (d + 48u8) as char;
    proof {
        assert(c == digit_char((n % 10) as int));
    }
    string_push(s, c);
    proof {
        if n >= 10 {
            assert(old(s)@ + decimal_text((n / 10) as nat) + seq![c] =~= old(s)@ + decimal_text(
                (n / 10) as nat,
            ).push(c));
        } else {
            assert(old(s)@.push(c) =~= old(s)@ + seq![c]);
        }
    }
}

/// Append the decimal text of `n`.
fn push_decimal_usize(s: &mut String, n: usize)
    ensures
        final(s)@ == old(s)@ + decimal_text(n as nat),
    decreases n,
{
    if n >= 10 {
        push_decimal_usize(s, n / 10);
    }
    let d: u8 = (n % 10) as u8;
    let c = (d + 48u8) as char;
    proof {
        assert(c == digit_char((n % 10) as int));
    }
    string_push(s, c);
    proof {
        if n >= 10 {
            assert(old(s)@ + decimal_text((n / 10) as nat) + seq![c] =~= old(s)@ + decimal_text(
                (n / 10) as nat,
            ).push(c));
        } else {
            assert(old(s)@.push(c) =~= old(s)@ + seq![c]);
        }
    }
}

/// Decimal text of a `usize`, as `format!("{}", n)` gives it.
pub fn usize_to_string(n: usize) -> (s: String)
    ensures
        s@ == decimal_text(n as nat),
{
    let mut s = String::new();
    push_decimal_usize(&mut s, n);
    proof {
        assert(Seq::<char>::empty() + decimal_text(n as nat) =~= decimal_text(n as nat));
    }
    s
}

/// Decimal text of an `i32`, as `format!("{}", i)` gives it.
pub fn i32_to_string(i: i32) -> (s: String)
    ensures
        s@ == int_text(i as int),
{
    let mut s = String::new();
    if i < 0 {
        string_push(&mut s, '-');
        let m: u32 = if i == i32::MIN {
            2147483648u32
        } else {
            (-i) as u32
        };
        push_decimal(&mut s, m);
        proof {
            assert(seq!['-'] + decimal_text(m as nat) =~= Seq::<char>::empty().push('-')
                + decimal_text(m as nat));
        }
    } else {
        push_decimal(&mut s, i as u32);
        proof {
            assert(Seq::<char>::empty() + decimal_text(i as nat) =~= decimal_text(i as nat));
        }
    }
    s
}

/// Parse the decimal text of an `i32` as `str::parse::<i32>` does.
pub fn parse_i32(text: &str) -> (r: Option<i32>)
    ensures
        r == spec_parse_i32(text@),
{
    let cs = chars_of(text);
    let n = cs.len();
    if n == 0 {
        return None;
    }
    let start: usize = if cs[0] == '-' || cs[0] == '+' {
        1
    } else {
        0
    };
    let ghost body = cs@.skip(start as int);
    if start >= n {
        return None;
    }
    // Saturating accumulator: exact while below the cap.
    let cap: u64 = 2147483649;
    let mut acc: u64 = 0;
    let mut i: usize = start;
    while i < n
        invariant
            cs@ == text@,
            n == cs@.len(),
            start <= i <= n,
            start == sign_len(cs@),
            cap == 2147483649,
            body == cs@.skip(start as int),
            all_digits(cs@.subrange(start as int, i as int)),
            acc == if digits_value(cs@.subrange(start as int, i as int)) < cap {
                digits_value(cs@.subrange(start as int, i as int))
            } else {
                cap as int
            },
        decreases n - i,
    {
        let c = cs[i];
        if !('0' <= c && c <= '9') {
            proof {
                assert(!is_digit(body[i - start]));
            }
            return None;
        }
        let d: u64 = ((c as u32) - 48u32) as u64;
        let ghost prev = cs@.subrange(start as int, i as int);
        let ghost next = cs@.subrange(start as int, i as int + 1);
        proof {
            assert(next.drop_last() =~= prev);
            assert(next.last() == c);
            assert(all_digits(next)) by {
                assert forall|j: int| 0 <= j < next.len() implies #[trigger] is_digit(next[j]) by {
                    if j < prev.len() {
                        assert(next[j] == prev[j]);
                    }
                }
            }
            lemma_digits_value_nonneg(prev);
            assert(digits_value(next) == digits_value(prev) * 10 + d);
        }
        if acc < cap {
            proof {
                assert(acc * 10 + d <= 21474836500) by (nonlinear_arith)
                    requires
                        acc < 2147483649,
                        d <= 9,
                ;
            }
            let v = acc * 10 + d;
            acc = if v < cap {
                v
            } else {
                cap
            };
        } else {
            proof {
                assert(digits_value(prev) >= cap);
                assert(digits_value(prev) * 10 >= digits_value(prev)) by (nonlinear_arith)
                    requires
                        digits_value(prev) >= 0,
                ;
            }
        }
        i = i + 1;
    }
    proof {
        assert(cs@.subrange(start as int, n as int) =~= body);
    }
    if cs[0] == '-' {
        if acc <= 2147483648 {
            let r: i64 = -(acc as i64);
            Some(r as i32)
        } else {
            None
        }
    } else {
        if acc <= 2147483647 {
            Some(acc as i32)
        } else {
            None
        }
    }
}

} // verus!
