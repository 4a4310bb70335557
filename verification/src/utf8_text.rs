//! Facts about the UTF-8 encoding of character sequences: how byte offsets and character
//! boundaries correspond to character positions.

use vstd::prelude::*;
use vstd::utf8::*;

verus! {

broadcast use vstd::utf8::encode_utf8_valid_utf8, vstd::utf8::encode_utf8_decode_utf8;

/// Number of bytes taken by the UTF-8 encoding of the first `k` characters of `s`.
pub open spec fn byte_offset(s: Seq<char>, k: int) -> int {
    encode_utf8(s.take(k)).len() as int
}

/// Width in bytes of the UTF-8 encoding of a single character.
pub open spec fn char_width(c: char) -> int {
    encode_scalar(c as u32).len() as int
}

/// Every character is encoded with one to four bytes.
pub proof fn lemma_char_width_bounds(c: char)
    ensures
        1 <= char_width(c) <= 4,
{
}

/// Encoding distributes over concatenation.
pub proof fn lemma_encode_concat(a: Seq<char>, b: Seq<char>)
    ensures
        encode_utf8(a + b) == encode_utf8(a) + encode_utf8(b),
    decreases a.len(),
{
    if a.len() == 0 {
        assert(a + b =~= b);
        assert(encode_utf8(a) =~= Seq::<u8>::empty());
        assert(encode_utf8(a) + encode_utf8(b) =~= encode_utf8(b));
    } else {
        assert((a + b).drop_first() =~= a.drop_first() + b);
        lemma_encode_concat(a.drop_first(), b);
        assert((a + b)[0] == a[0]);
        assert(encode_utf8(a + b) =~= encode_scalar(a[0] as u32) + encode_utf8(a.drop_first() + b));
        assert(encode_utf8(a) + encode_utf8(b) =~= encode_scalar(a[0] as u32) + (encode_utf8(
            a.drop_first(),
        ) + encode_utf8(b)));
    }
}

/// Encoding a single character.
pub proof fn lemma_encode_single(c: char)
    ensures
        encode_utf8(seq![c]) == encode_scalar(c as u32),
{
    reveal_with_fuel(encode_utf8, 2);
    assert(seq![c].drop_first() =~= Seq::<char>::empty());
    assert(encode_scalar(c as u32) + Seq::<u8>::empty() =~= encode_scalar(c as u32));
}

/// The encoding has at least as many bytes as there are characters.
pub proof fn lemma_encode_len_ge(s: Seq<char>)
    ensures
        encode_utf8(s).len() >= s.len(),
    decreases s.len(),
{
    if s.len() > 0 {
        lemma_encode_len_ge(s.drop_first());
    }
}

/// Equal encodings come from equal character sequences.
pub proof fn lemma_encode_injective(a: Seq<char>, b: Seq<char>)
    requires
        encode_utf8(a) == encode_utf8(b),
    ensures
        a == b,
{
    assert(decode_utf8(encode_utf8(a)) == a);
    assert(decode_utf8(encode_utf8(b)) == b);
}

/// The encoding of a sequence splits at any character position.
pub proof fn lemma_encode_split(s: Seq<char>, k: int)
    requires
        0 <= k <= s.len(),
    ensures
        encode_utf8(s) == encode_utf8(s.take(k)) + encode_utf8(s.skip(k)),
        byte_offset(s, k) + encode_utf8(s.skip(k)).len() == encode_utf8(s).len(),
{
    assert(s =~= s.take(k) + s.skip(k));
    lemma_encode_concat(s.take(k), s.skip(k));
}

/// Advancing by one character adds the width of that character.
pub proof fn lemma_byte_offset_step(s: Seq<char>, k: int)
    requires
        0 <= k < s.len(),
    ensures
        byte_offset(s, k + 1) == byte_offset(s, k) + char_width(s[k]),
{
    assert(s.take(k + 1) =~= s.take(k) + seq![s[k]]);
    lemma_encode_concat(s.take(k), seq![s[k]]);
    lemma_encode_single(s[k]);
}

/// Byte offsets grow strictly with the character position.
pub proof fn lemma_byte_offset_strict(s: Seq<char>, j: int, k: int)
    requires
        0 <= j < k <= s.len(),
    ensures
        byte_offset(s, j) < byte_offset(s, k),
    decreases k - j,
{
    lemma_byte_offset_step(s, k - 1);
    if j < k - 1 {
        lemma_byte_offset_strict(s, j, k - 1);
    }
}

/// Byte offset bounds.
pub proof fn lemma_byte_offset_bounds(s: Seq<char>, k: int)
    requires
        0 <= k <= s.len(),
    ensures
        0 <= byte_offset(s, k) <= encode_utf8(s).len(),
        k <= byte_offset(s, k),
        byte_offset(s, 0) == 0,
        byte_offset(s, s.len() as int) == encode_utf8(s).len(),
{
    lemma_encode_split(s, k);
    lemma_encode_len_ge(s.take(k));
    assert(s.take(0) =~= Seq::<char>::empty());
    assert(s.take(s.len() as int) =~= s);
}

/// A byte index is a character boundary of the encoding exactly when it is the byte offset
/// of some character position.
pub proof fn lemma_boundary_iff(s: Seq<char>, j: int)
    ensures
        is_char_boundary(encode_utf8(s), j) <==> exists|k: int|
            0 <= k <= s.len() && #[trigger] byte_offset(s, k) == j,
    decreases s.len(),
{
    let bytes = encode_utf8(s);
    if j == 0 {
        lemma_byte_offset_bounds(s, 0);
        assert(byte_offset(s, 0) == j);
    } else if s.len() == 0 {
        assert(bytes =~= Seq::<u8>::empty());
        assert forall|k: int| 0 <= k <= s.len() implies byte_offset(s, k) != j by {
            assert(s.take(k) =~= Seq::<char>::empty());
        }
    } else if j < 0 || bytes.len() < j {
        assert forall|k: int| 0 <= k <= s.len() implies byte_offset(s, k) != j by {
            lemma_byte_offset_bounds(s, k);
        }
    } else {
        let rest = s.drop_first();
        let w = char_width(s[0]);
        encode_utf8_first_scalar(s);
        assert(length_of_first_scalar(bytes) == w);
        assert(pop_first_scalar(bytes) =~= encode_utf8(rest));
        lemma_boundary_iff(rest, j - w);
        // relate byte offsets of s and rest
        assert forall|k: int| 0 <= k <= rest.len() implies #[trigger] byte_offset(s, k + 1)
            == w + byte_offset(rest, k) by {
            assert(s.take(k + 1) =~= seq![s[0]] + rest.take(k));
            lemma_encode_concat(seq![s[0]], rest.take(k));
            lemma_encode_single(s[0]);
        }
        if is_char_boundary(bytes, j) {
            let k = choose|k: int| 0 <= k <= rest.len() && #[trigger] byte_offset(rest, k) == j - w;
            assert(byte_offset(s, k + 1) == j);
        }
        if exists|k: int| 0 <= k <= s.len() && #[trigger] byte_offset(s, k) == j {
            let k = choose|k: int| 0 <= k <= s.len() && #[trigger] byte_offset(s, k) == j;
            lemma_byte_offset_bounds(s, 0);
            assert(k != 0);
            assert(byte_offset(s, (k - 1) + 1) == w + byte_offset(rest, k - 1));
            assert(byte_offset(rest, k - 1) == j - w);
        }
    }
}

/// The byte offset of a character position is a character boundary.
pub proof fn lemma_offset_is_boundary(s: Seq<char>, k: int)
    requires
        0 <= k <= s.len(),
    ensures
        is_char_boundary(encode_utf8(s), byte_offset(s, k)),
{
    lemma_boundary_iff(s, byte_offset(s, k));
}

/// No byte strictly between two consecutive character offsets is a boundary.
pub proof fn lemma_inner_not_boundary(s: Seq<char>, k: int, j: int)
    requires
        0 <= k < s.len(),
        byte_offset(s, k) < j < byte_offset(s, k + 1),
    ensures
        !is_char_boundary(encode_utf8(s), j),
{
    lemma_boundary_iff(s, j);
    if is_char_boundary(encode_utf8(s), j) {
        let m = choose|m: int| 0 <= m <= s.len() && #[trigger] byte_offset(s, m) == j;
        if m <= k {
            if m < k {
                lemma_byte_offset_strict(s, m, k);
            }
        } else {
            if m > k + 1 {
                lemma_byte_offset_strict(s, k + 1, m);
            }
        }
    }
}

} // verus!
