//! A model of text as a sequence of Unicode scalar values, with its UTF-8 and UTF-16 encodings,
//! and the facts about code-point boundaries that the index converters rely on.

use vstd::prelude::*;
use vstd::utf8::*;
use vstd::std_specs::bits::u8_leading_ones;
use vstd::std_specs::bits::axiom_u8_leading_ones;

verus! {

broadcast use vstd::utf8::char_is_scalar;

/// True when `unit` is a UTF-16 surrogate code unit (high or low).
pub open spec fn spec_is_utf16_surrogate(unit: u16) -> bool {
    0xD800 <= unit <= 0xDFFF
}

/// The UTF-16 encoding of one scalar value: one code unit below U+10000, otherwise a surrogate pair.
pub open spec fn encode_utf16_char(c: char) -> Seq<u16> {
    let v = c as u32;
    if v < 0x10000 {
        seq![v as u16]
    } else {
        seq![(0xD800 + (v - 0x10000) / 0x400) as u16, (0xDC00 + (v - 0x10000) % 0x400) as u16]
    }
}

/// The UTF-16 encoding of a sequence of scalar values.
pub open spec fn encode_utf16(chars: Seq<char>) -> Seq<u16>
    decreases chars.len(),
{
    if chars.len() == 0 {
        seq![]
    } else {
        encode_utf16_char(chars[0]) + encode_utf16(chars.drop_first())
    }
}

/// Number of UTF-8 bytes that encode `c`.
pub open spec fn utf8_char_len(c: char) -> int {
    encode_scalar(c as u32).len() as int
}

/// Number of UTF-16 code units that encode `c`.
pub open spec fn utf16_char_len(c: char) -> int {
    encode_utf16_char(c).len() as int
}

/// The UTF-8 byte offset at which the `k`-th scalar of `chars` starts (or the total length, for
/// `k == chars.len()`).
pub open spec fn utf8_offset(chars: Seq<char>, k: int) -> int {
    encode_utf8(chars.take(k)).len() as int
}

/// The UTF-16 code-unit offset at which the `k`-th scalar of `chars` starts (or the total length,
/// for `k == chars.len()`).
pub open spec fn utf16_offset(chars: Seq<char>, k: int) -> int {
    encode_utf16(chars.take(k)).len() as int
}

/// The byte length of the code point that a UTF-8 sequence starting with `first_byte` encodes,
/// read from the number of leading one bits; zero for a byte that cannot start a code point.
pub open spec fn spec_utf8_code_point_byte_len(first_byte: u8) -> int {
    let ones = u8_leading_ones(first_byte);
    if ones == 0 {
        1
    } else if ones == 2 {
        2
    } else if ones == 3 {
        3
    } else if ones == 4 {
        4
    } else {
        0
    }
}

/// True when `byte` is the first byte of a code point's UTF-8 encoding (not a continuation byte).
pub open spec fn spec_is_utf8_code_point_first_byte(byte: u8) -> bool {
    (byte >> 6u8) != 2u8
}

/// Encoding a sequence extended by one scalar appends that scalar's UTF-8 bytes.
pub proof fn lemma_encode_utf8_push(s: Seq<char>, c: char)
    ensures
        encode_utf8(s.push(c)) == encode_utf8(s) + encode_scalar(c as u32),
    decreases s.len(),
{
    if s.len() == 0 {
        assert(s.push(c).drop_first() =~= Seq::<char>::empty());
        assert(encode_utf8(s) =~= Seq::<u8>::empty());
        assert(encode_utf8(s.push(c).drop_first()) =~= Seq::<u8>::empty());
        assert(encode_utf8(s.push(c)) =~= encode_utf8(s) + encode_scalar(c as u32));
    } else {
        lemma_encode_utf8_push(s.drop_first(), c);
        assert(s.push(c).drop_first() =~= s.drop_first().push(c));
        assert(encode_utf8(s.push(c)) =~= encode_utf8(s) + encode_scalar(c as u32));
    }
}

/// Encoding a sequence extended by one scalar appends that scalar's UTF-16 code units.
pub proof fn lemma_encode_utf16_push(s: Seq<char>, c: char)
    ensures
        encode_utf16(s.push(c)) == encode_utf16(s) + encode_utf16_char(c),
    decreases s.len(),
{
    if s.len() == 0 {
        assert(s.push(c).drop_first() =~= Seq::<char>::empty());
        assert(encode_utf16(s) =~= Seq::<u16>::empty());
        assert(encode_utf16(s.push(c).drop_first()) =~= Seq::<u16>::empty());
        assert(encode_utf16(s.push(c)) =~= encode_utf16(s) + encode_utf16_char(c));
    } else {
        lemma_encode_utf16_push(s.drop_first(), c);
        assert(s.push(c).drop_first() =~= s.drop_first().push(c));
        assert(encode_utf16(s.push(c)) =~= encode_utf16(s) + encode_utf16_char(c));
    }
}

/// UTF-8 encoding distributes over concatenation.
pub proof fn lemma_encode_utf8_concat(a: Seq<char>, b: Seq<char>)
    ensures
        encode_utf8(a + b) == encode_utf8(a) + encode_utf8(b),
    decreases a.len(),
{
    if a.len() == 0 {
        assert(a + b =~= b);
        assert(encode_utf8(a) =~= Seq::<u8>::empty());
        assert(encode_utf8(a + b) =~= encode_utf8(a) + encode_utf8(b));
    } else {
        lemma_encode_utf8_concat(a.drop_first(), b);
        assert((a + b).drop_first() =~= a.drop_first() + b);
        assert((a + b)[0] == a[0]);
        assert(encode_utf8(a + b) =~= encode_utf8(a) + encode_utf8(b));
    }
}

/// UTF-16 encoding distributes over concatenation.
pub proof fn lemma_encode_utf16_concat(a: Seq<char>, b: Seq<char>)
    ensures
        encode_utf16(a + b) == encode_utf16(a) + encode_utf16(b),
    decreases a.len(),
{
    if a.len() == 0 {
        assert(a + b =~= b);
        assert(encode_utf16(a) =~= Seq::<u16>::empty());
        assert(encode_utf16(a + b) =~= encode_utf16(a) + encode_utf16(b));
    } else {
        lemma_encode_utf16_concat(a.drop_first(), b);
        assert((a + b).drop_first() =~= a.drop_first() + b);
        assert((a + b)[0] == a[0]);
        assert(encode_utf16(a + b) =~= encode_utf16(a) + encode_utf16(b));
    }
}

/// Widths of single scalars in both encodings.
pub proof fn lemma_char_widths(c: char)
    ensures
        1 <= utf8_char_len(c) <= 4,
        1 <= utf16_char_len(c) <= 2,
{
}

/// The UTF-8 and UTF-16 offsets of scalar `k + 1` follow those of scalar `k` by its widths.
pub proof fn lemma_offset_step(chars: Seq<char>, k: int)
    requires
        0 <= k < chars.len(),
    ensures
        utf8_offset(chars, k + 1) == utf8_offset(chars, k) + utf8_char_len(chars[k]),
        utf16_offset(chars, k + 1) == utf16_offset(chars, k) + utf16_char_len(chars[k]),
{
    assert(chars.take(k + 1) =~= chars.take(k).push(chars[k]));
    lemma_encode_utf8_push(chars.take(k), chars[k]);
    lemma_encode_utf16_push(chars.take(k), chars[k]);
}

/// The offsets of the first and the past-the-end positions.
pub proof fn lemma_offset_ends(chars: Seq<char>)
    ensures
        utf8_offset(chars, 0) == 0,
        utf16_offset(chars, 0) == 0,
        utf8_offset(chars, chars.len() as int) == encode_utf8(chars).len(),
        utf16_offset(chars, chars.len() as int) == encode_utf16(chars).len(),
{
    assert(chars.take(0) =~= Seq::<char>::empty());
    assert(chars.take(chars.len() as int) =~= chars);
    assert(encode_utf8(Seq::<char>::empty()) =~= Seq::<u8>::empty());
    assert(encode_utf16(Seq::<char>::empty()) =~= Seq::<u16>::empty());
}

/// Offsets grow strictly with the scalar index.
pub proof fn lemma_offset_strictly_increasing(chars: Seq<char>, j: int, k: int)
    requires
        0 <= j < k <= chars.len(),
    ensures
        utf8_offset(chars, j) < utf8_offset(chars, k),
        utf16_offset(chars, j) < utf16_offset(chars, k),
        utf8_offset(chars, j) + utf8_char_len(chars[j]) <= utf8_offset(chars, k),
        utf16_offset(chars, j) + utf16_char_len(chars[j]) <= utf16_offset(chars, k),
    decreases k - j,
{
    lemma_offset_step(chars, j);
    lemma_char_widths(chars[j]);
    if j + 1 < k {
        lemma_offset_strictly_increasing(chars, j + 1, k);
        lemma_char_widths(chars[j + 1]);
    }
}

/// Offsets never decrease, and they lie within the encodings.
pub proof fn lemma_offset_bounds(chars: Seq<char>, k: int)
    requires
        0 <= k <= chars.len(),
    ensures
        0 <= utf8_offset(chars, k) <= encode_utf8(chars).len(),
        0 <= utf16_offset(chars, k) <= encode_utf16(chars).len(),
        k < chars.len() ==> utf8_offset(chars, k) < encode_utf8(chars).len(),
        k < chars.len() ==> utf16_offset(chars, k) < encode_utf16(chars).len(),
{
    lemma_offset_ends(chars);
    if k < chars.len() {
        lemma_offset_strictly_increasing(chars, k, chars.len() as int);
    }
}

/// The encoding of `chars` holds the encoding of scalar `k` at that scalar's offset.
pub proof fn lemma_encoded_char_at_offset(chars: Seq<char>, k: int)
    requires
        0 <= k < chars.len(),
    ensures
        forall|j: int|
            0 <= j < utf8_char_len(chars[k]) ==> #[trigger] encode_utf8(chars)[utf8_offset(chars, k)
                + j] == encode_scalar(chars[k] as u32)[j],
        forall|j: int|
            0 <= j < utf16_char_len(chars[k]) ==> #[trigger] encode_utf16(chars)[utf16_offset(
                chars,
                k,
            ) + j] == encode_utf16_char(chars[k])[j],
{
    let rest = chars.skip(k + 1);
    assert(chars =~= chars.take(k + 1) + rest);
    assert(chars.take(k + 1) =~= chars.take(k).push(chars[k]));
    lemma_encode_utf8_concat(chars.take(k + 1), rest);
    lemma_encode_utf16_concat(chars.take(k + 1), rest);
    lemma_encode_utf8_push(chars.take(k), chars[k]);
    lemma_encode_utf16_push(chars.take(k), chars[k]);
}

/// The first UTF-8 byte of a scalar is a first byte whose leading ones give the scalar's width,
/// and every later byte of it is a continuation byte.
pub proof fn lemma_utf8_scalar_bytes(c: char)
    ensures
        spec_utf8_code_point_byte_len(encode_scalar(c as u32)[0]) == utf8_char_len(c),
        spec_is_utf8_code_point_first_byte(encode_scalar(c as u32)[0]),
        forall|j: int|
            1 <= j < utf8_char_len(c) ==> !spec_is_utf8_code_point_first_byte(
                #[trigger] encode_scalar(c as u32)[j],
            ),
{
    let v = c as u32;
    let b = encode_scalar(v)[0];
    axiom_u8_leading_ones(b);
    let ones = u8_leading_ones(b);
    if has_width_1_encoding(v) {
        assert(v <= 0x7f ==> ((v & 0x7f) as u8) >> 7u8 == 0u8 && (((v & 0x7f) as u8) >> 6u8)
            != 2u8) by (bit_vector);
        assert((b >> 7u8) & 1u8 == 0u8);
        assert(ones == 0) by {
            if ones > 0 {
                assert(8 - ones <= 7u8 < 8);
                assert((b >> 7u8) & 1u8 == 1u8);
            }
        }
    } else if has_width_2_encoding(v) {
        assert(0xC0u8 <= b <= 0xDFu8) by (bit_vector)
            requires
                b == 0xC0u8 | ((v >> 6u32) & 0x1Fu32) as u8,
        ;
        assert(0xC0u8 <= b <= 0xDFu8 ==> (b >> 7u8) & 1u8 == 1u8 && (b >> 6u8) & 1u8 == 1u8 && (b
            >> 5u8) & 1u8 == 0u8 && (b >> 6u8) != 2u8) by (bit_vector);
        assert(ones == 2) by {
            if ones < 2 {
                assert(8 - 2 <= 6u8 < 8);
                if ones == 0 {
                    assert((b >> 7u8) & 1u8 == 0u8);
                } else {
                    assert((b >> 6u8) & 1u8 == 0u8);
                }
            } else if ones > 2 {
                assert(8 - ones <= 5u8 < 8);
                assert((b >> 5u8) & 1u8 == 1u8);
            }
        }
        let b1 = encode_scalar(v)[1];
        assert((0x80u8 | (v & 0x3Fu32) as u8) >> 6u8 == 2u8) by (bit_vector);
    } else if has_width_3_encoding(v) {
        assert(0xE0u8 <= b <= 0xEFu8) by (bit_vector)
            requires
                b == 0xE0u8 | ((v >> 12u32) & 0x0Fu32) as u8,
        ;
        assert(0xE0u8 <= b <= 0xEFu8 ==> (b >> 7u8) & 1u8 == 1u8 && (b >> 6u8) & 1u8 == 1u8 && (b
            >> 5u8) & 1u8 == 1u8 && (b >> 4u8) & 1u8 == 0u8 && (b >> 6u8) != 2u8) by (bit_vector);
        assert(ones == 3) by {
            if ones < 3 {
                if ones == 0 {
                    assert((b >> 7u8) & 1u8 == 0u8);
                } else if ones == 1 {
                    assert((b >> 6u8) & 1u8 == 0u8);
                } else {
                    assert((b >> 5u8) & 1u8 == 0u8);
                }
            } else if ones > 3 {
                assert(8 - ones <= 4u8 < 8);
                assert((b >> 4u8) & 1u8 == 1u8);
            }
        }
        assert((0x80u8 | (v & 0x3Fu32) as u8) >> 6u8 == 2u8) by (bit_vector);
        assert((0x80u8 | ((v >> 6u32) & 0x3Fu32) as u8) >> 6u8 == 2u8) by (bit_vector);
    } else {
        assert(has_width_4_encoding(v));
        assert(0xF0u8 <= b <= 0xF7u8) by (bit_vector)
            requires
                b == 0xF0u8 | ((v >> 18u32) & 0x7u32) as u8,
        ;
        assert(0xF0u8 <= b <= 0xF7u8 ==> (b >> 7u8) & 1u8 == 1u8 && (b >> 6u8) & 1u8 == 1u8 && (b
            >> 5u8) & 1u8 == 1u8 && (b >> 4u8) & 1u8 == 1u8 && (b >> 3u8) & 1u8 == 0u8 && (b >> 6u8)
            != 2u8) by (bit_vector);
        assert(ones == 4) by {
            if ones < 4 {
                if ones == 0 {
                    assert((b >> 7u8) & 1u8 == 0u8);
                } else if ones == 1 {
                    assert((b >> 6u8) & 1u8 == 0u8);
                } else if ones == 2 {
                    assert((b >> 5u8) & 1u8 == 0u8);
                } else {
                    assert((b >> 4u8) & 1u8 == 0u8);
                }
            } else if ones > 4 {
                assert(8 - ones <= 3u8 < 8);
                assert((b >> 3u8) & 1u8 == 1u8);
            }
        }
        assert((0x80u8 | (v & 0x3Fu32) as u8) >> 6u8 == 2u8) by (bit_vector);
        assert((0x80u8 | ((v >> 6u32) & 0x3Fu32) as u8) >> 6u8 == 2u8) by (bit_vector);
        assert((0x80u8 | ((v >> 12u32) & 0x3Fu32) as u8) >> 6u8 == 2u8) by (bit_vector);
    }
}

/// The first UTF-16 code unit of a scalar is a surrogate exactly when the scalar takes two units.
pub proof fn lemma_utf16_scalar_units(c: char)
    ensures
        spec_is_utf16_surrogate(encode_utf16_char(c)[0]) <==> utf16_char_len(c) == 2,
{
    let v = c as u32;
    assert(is_scalar(v));
}

/// A code-point boundary is identified by its offset in either encoding.
pub proof fn lemma_offset_injective(chars: Seq<char>, j: int, k: int)
    requires
        0 <= j <= chars.len(),
        0 <= k <= chars.len(),
        utf8_offset(chars, j) == utf8_offset(chars, k) || utf16_offset(chars, j) == utf16_offset(
            chars,
            k,
        ),
    ensures
        j == k,
{
    if j < k {
        lemma_offset_strictly_increasing(chars, j, k);
    } else if k < j {
        lemma_offset_strictly_increasing(chars, k, j);
    }
}

/// Offsets compare as the scalar indexes do.
pub proof fn lemma_offset_monotone(chars: Seq<char>, j: int, k: int)
    requires
        0 <= j <= chars.len(),
        0 <= k <= chars.len(),
    ensures
        j <= k <==> utf8_offset(chars, j) <= utf8_offset(chars, k),
        j <= k <==> utf16_offset(chars, j) <= utf16_offset(chars, k),
{
    if j < k {
        lemma_offset_strictly_increasing(chars, j, k);
    } else if k < j {
        lemma_offset_strictly_increasing(chars, k, j);
    }
}

/// True when `index` is the UTF-16 offset of a code-point boundary of `chars` (the end included).
pub open spec fn is_utf16_boundary(chars: Seq<char>, index: int) -> bool {
    exists|k: int| 0 <= k <= chars.len() && utf16_offset(chars, k) == index
}

/// True when `index` is the UTF-8 offset of a code-point boundary of `chars` (the end included).
pub open spec fn is_utf8_boundary(chars: Seq<char>, index: int) -> bool {
    exists|k: int| 0 <= k <= chars.len() && utf8_offset(chars, k) == index
}

/// The scalar index of the boundary at UTF-16 offset `index`.
pub open spec fn char_index_of_utf16(chars: Seq<char>, index: int) -> int {
    choose|k: int| 0 <= k <= chars.len() && utf16_offset(chars, k) == index
}

/// The scalar index of the boundary at UTF-8 offset `index`.
pub open spec fn char_index_of_utf8(chars: Seq<char>, index: int) -> int {
    choose|k: int| 0 <= k <= chars.len() && utf8_offset(chars, k) == index
}

/// The boundary at offset `utf16_offset(chars, k)` is scalar `k`, and likewise for UTF-8.
pub proof fn lemma_char_index_of_offset(chars: Seq<char>, k: int)
    requires
        0 <= k <= chars.len(),
    ensures
        is_utf16_boundary(chars, utf16_offset(chars, k)),
        is_utf8_boundary(chars, utf8_offset(chars, k)),
        char_index_of_utf16(chars, utf16_offset(chars, k)) == k,
        char_index_of_utf8(chars, utf8_offset(chars, k)) == k,
{
    let j16 = char_index_of_utf16(chars, utf16_offset(chars, k));
    lemma_offset_injective(chars, j16, k);
    let j8 = char_index_of_utf8(chars, utf8_offset(chars, k));
    lemma_offset_injective(chars, j8, k);
}

/// True when `unit` is a UTF-16 surrogate code unit.
pub fn is_utf16_surrogate(unit: u16) -> (r: bool)
    ensures
        r == spec_is_utf16_surrogate(unit),
{
    0xD800 <= unit && unit <= 0xDFFF
}

/// The byte length of the code point whose UTF-8 encoding starts with `first_byte`, or zero when
/// the byte cannot start a code point.
pub fn utf8_code_point_byte_len(first_byte: u8) -> (len: usize)
    ensures
        len == spec_utf8_code_point_byte_len(first_byte),
{
    // Matching on the count of leading ones is cheaper than indexing a table.
    match first_byte.leading_ones() {
        0 => 1,
        2 => 2,
        3 => 3,
        4 => 4,
        _ => 0,  // not the first byte of a code point
    }
}

/// True when `byte` starts a code point in UTF-8 (it is not a continuation byte).
pub fn is_utf8_code_point_first_byte(byte: u8) -> (r: bool)
    ensures
        r == spec_is_utf8_code_point_first_byte(byte),
{
    (byte >> 6) != 0b10
}

/// The UTF-8 offset of the boundary at UTF-16 offset `index`.
pub open spec fn utf8_of_utf16(chars: Seq<char>, index: int) -> int {
    utf8_offset(chars, char_index_of_utf16(chars, index))
}

/// The UTF-16 offset of the boundary at UTF-8 offset `index`.
pub open spec fn utf16_of_utf8(chars: Seq<char>, index: int) -> int {
    utf16_offset(chars, char_index_of_utf8(chars, index))
}

/// Converting a boundary's offset to the other encoding and back gives the offset back, the
/// converted offset is a boundary too, and conversion keeps the order of boundaries.
pub proof fn lemma_offset_conversion_round_trip(chars: Seq<char>, i: int, j: int)
    requires
        is_utf16_boundary(chars, i),
        is_utf8_boundary(chars, j),
    ensures
        is_utf8_boundary(chars, utf8_of_utf16(chars, i)),
        utf16_of_utf8(chars, utf8_of_utf16(chars, i)) == i,
        is_utf16_boundary(chars, utf16_of_utf8(chars, j)),
        utf8_of_utf16(chars, utf16_of_utf8(chars, j)) == j,
        is_utf16_boundary(chars, utf16_of_utf8(chars, j)) ==> (i <= utf16_of_utf8(chars, j)
            <==> utf8_of_utf16(chars, i) <= j),
{
    let ki = char_index_of_utf16(chars, i);
    let kj = char_index_of_utf8(chars, j);
    lemma_char_index_of_offset(chars, ki);
    lemma_char_index_of_offset(chars, kj);
    lemma_offset_monotone(chars, ki, kj);
}

/// Converting UTF-16 boundaries to UTF-8 offsets keeps their order, gives UTF-8 boundaries within
/// the encoding, and takes the ends of the text to the ends.
pub proof fn lemma_utf8_of_utf16_order(chars: Seq<char>, a: int, b: int)
    requires
        is_utf16_boundary(chars, a),
        is_utf16_boundary(chars, b),
    ensures
        a < b <==> utf8_of_utf16(chars, a) < utf8_of_utf16(chars, b),
        a == b <==> utf8_of_utf16(chars, a) == utf8_of_utf16(chars, b),
        is_utf8_boundary(chars, utf8_of_utf16(chars, a)),
        0 <= utf8_of_utf16(chars, a) <= encode_utf8(chars).len(),
        a == 0 ==> utf8_of_utf16(chars, a) == 0,
        a == encode_utf16(chars).len() ==> utf8_of_utf16(chars, a) == encode_utf8(chars).len(),
{
    let ka = char_index_of_utf16(chars, a);
    let kb = char_index_of_utf16(chars, b);
    lemma_offset_monotone(chars, ka, kb);
    lemma_offset_monotone(chars, kb, ka);
    lemma_offset_bounds(chars, ka);
    lemma_char_index_of_offset(chars, ka);
    lemma_offset_ends(chars);
    lemma_char_index_of_offset(chars, 0);
    lemma_char_index_of_offset(chars, chars.len() as int);
}

} // verus!
