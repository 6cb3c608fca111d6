//! Conversion between UTF-8 and UTF-16 offsets of one text, walking both encodings forward.

use vstd::prelude::*;
use vstd::utf8::*;
use vstd::string::StringSliceAdditionalSpecFns;
use crate::utf16_utf8_index_converter::utf16_utf8_boundary_pairs;
use crate::text_encoding::{
    char_index_of_utf16, char_index_of_utf8, encode_utf16, encode_utf16_char, is_utf16_boundary,
    is_utf16_surrogate, is_utf8_boundary, is_utf8_code_point_first_byte, lemma_char_widths,
    lemma_encoded_char_at_offset, lemma_offset_bounds, lemma_offset_ends, lemma_offset_injective,
    lemma_offset_monotone, lemma_offset_step, lemma_utf16_scalar_units, lemma_utf8_scalar_bytes,
    spec_is_utf8_code_point_first_byte, utf16_offset, utf16_of_utf8, utf8_code_point_byte_len,
    utf8_offset, lemma_char_index_of_offset, lemma_offset_strictly_increasing,
};

verus! {

/// The (UTF-8 offset, UTF-16 offset) pair of every code-point boundary of `chars`, in order, from
/// the start of the text to its end.
pub open spec fn utf8_utf16_boundary_pairs(chars: Seq<char>) -> Seq<(usize, usize)> {
    Seq::new(
        (chars.len() + 1) as nat,
        |k: int| (utf8_offset(chars, k) as usize, utf16_offset(chars, k) as usize),
    )
}

/// Converts UTF-8 offsets of a text to UTF-16 offsets and back, moving forward only.
///
/// `utf8_str` and `utf16_str` must be the two encodings of the same text. The converter starts
/// at a code-point boundary; while `initial` is set, it has not yet reported that boundary.
pub struct UtfIndexConverter<'a, 'b> {
    pub utf8_str: &'b str,
    pub utf16_str: &'a [u16],
    pub initial: bool,
    pub utf8_index: usize,
    pub utf16_index: usize,
}

impl<'a, 'b> UtfIndexConverter<'a, 'b> {
    /// The scalar values of the text.
    pub open spec fn chars(&self) -> Seq<char> {
        self.utf8_str@
    }

    /// The two strings are the two encodings of one text.
    pub open spec fn encodings_agree(&self) -> bool {
        &&& self.utf16_str@ == encode_utf16(self.utf8_str@)
        &&& encode_utf8(self.utf8_str@).len() <= usize::MAX
    }

    /// The converter stands at boundary `k`.
    pub open spec fn at_boundary(&self, k: int) -> bool {
        &&& 0 <= k <= self.chars().len()
        &&& self.utf8_index == utf8_offset(self.chars(), k)
        &&& self.utf16_index == utf16_offset(self.chars(), k)
    }

    /// Well-formedness: matching encodings and a position at a boundary.
    pub open spec fn wf(&self) -> bool {
        &&& self.encodings_agree()
        &&& exists|k: int| self.at_boundary(k)
    }

    /// The index of the boundary at which the converter stands.
    pub open spec fn boundary(&self) -> int {
        choose|k: int| self.at_boundary(k)
    }

    /// The boundary pairs that are still to come: none once the converter stands at the end of
    /// the text, otherwise those from the current boundary on (when it is not reported yet) or
    /// from the next one.
    pub open spec fn remaining(&self) -> Seq<(usize, usize)> {
        if self.boundary() == self.chars().len() {
            Seq::empty()
        } else if self.initial {
            utf8_utf16_boundary_pairs(self.chars()).skip(self.boundary())
        } else {
            utf8_utf16_boundary_pairs(self.chars()).skip(self.boundary() + 1)
        }
    }

    /// The converter stands at exactly one boundary.
    pub proof fn lemma_boundary(&self)
        requires
            self.wf(),
        ensures
            self.at_boundary(self.boundary()),
            forall|k: int| #[trigger] self.at_boundary(k) ==> k == self.boundary(),
    {
        let b = self.boundary();
        assert(self.at_boundary(b));
        assert forall|k: int| #[trigger] self.at_boundary(k) implies k == b by {
            lemma_offset_injective(self.chars(), k, b);
        }
    }

    /// Creates a converter at the start of the text.
    pub fn new(utf8: &'b str, utf16: &'a [u16]) -> (r: Self)
        requires
            utf16@ == encode_utf16(utf8@),
            encode_utf8(utf8@).len() <= usize::MAX,
        ensures
            r.wf(),
            r.utf8_str == utf8,
            r.utf16_str == utf16,
            r.initial,
            r.boundary() == 0,
            r.remaining() == if utf8@.len() == 0 {
                Seq::<(usize, usize)>::empty()
            } else {
                utf8_utf16_boundary_pairs(utf8@)
            },
    {
        let r = Self { utf8_str: utf8, utf16_str: utf16, initial: true, utf8_index: 0, utf16_index: 0 };
        proof {
            lemma_offset_ends(utf8@);
            assert(r.at_boundary(0));
            r.lemma_boundary();
            assert(utf8_utf16_boundary_pairs(utf8@).skip(0) =~= utf8_utf16_boundary_pairs(utf8@));
        }
        r
    }

    /// Gives the next boundary pair `(utf8 offset, utf16 offset)`, or `None` at the end of the
    /// text.
    pub fn next(&mut self) -> (r: Option<(usize, usize)>)
        requires
            old(self).wf(),
        ensures
            final(self).wf(),
            final(self).utf8_str == old(self).utf8_str,
            final(self).utf16_str == old(self).utf16_str,
            old(self).remaining().len() == 0 ==> r is None && *final(self) == *old(self),
            old(self).remaining().len() > 0 ==> {
                &&& r == Some(old(self).remaining()[0])
                &&& !final(self).initial
                &&& final(self).boundary() == if old(self).initial {
                    old(self).boundary()
                } else {
                    old(self).boundary() + 1
                }
            },
            final(self).remaining() == if old(self).remaining().len() == 0 {
                old(self).remaining()
            } else {
                old(self).remaining().drop_first()
            },
    {
        let ghost chars = self.chars();
        let ghost k = self.boundary();
        proof {
            self.lemma_boundary();
            lemma_offset_ends(chars);
            lemma_offset_bounds(chars, k);
        }
        if self.utf16_index >= self.utf16_str.len() {
            proof {
                if k < chars.len() {
                    lemma_offset_bounds(chars, k);
                }
            }
            return None;
        }
        assert(k < chars.len());
        if !self.initial {
            proof {
                lemma_offset_step(chars, k);
                lemma_offset_bounds(chars, k + 1);
                lemma_encoded_char_at_offset(chars, k);
                lemma_utf8_scalar_bytes(chars[k]);
                lemma_utf16_scalar_units(chars[k]);
                lemma_char_widths(chars[k]);
                assert(encode_utf16(chars)[utf16_offset(chars, k) + 0] == encode_utf16_char(
                    chars[k],
                )[0]);
                assert(encode_utf8(chars)[utf8_offset(chars, k) + 0] == encode_scalar(
                    chars[k] as u32,
                )[0]);
            }
            self.utf16_index += if is_utf16_surrogate(self.utf16_str[self.utf16_index]) {
                2
            } else {
                1
            };
            let bytes = self.utf8_str.as_bytes();
            self.utf8_index += utf8_code_point_byte_len(bytes[self.utf8_index]);
            proof {
                assert(self.at_boundary(k + 1));
            }
        }
        self.initial = false;
        proof {
            let nk = if old(self).initial { k } else { k + 1 };
            assert(self.at_boundary(nk));
            self.lemma_boundary();
            lemma_offset_bounds(chars, nk);
            if nk == chars.len() {
                assert(self.remaining() =~= old(self).remaining().drop_first());
            } else {
                assert(self.remaining() =~= old(self).remaining().drop_first());
            }
        }
        Some((self.utf8_index, self.utf16_index))
    }

    /// Gives all the boundary pairs that are still to come, in order.
    pub fn collect_pairs(self) -> (v: Vec<(usize, usize)>)
        requires
            self.wf(),
        ensures
            v@ == self.remaining(),
    {
        let ghost all = self.remaining();
        let mut this = self;
        let mut v: Vec<(usize, usize)> = Vec::new();
        loop
            invariant
                this.wf(),
                this.utf8_str == self.utf8_str,
                this.utf16_str == self.utf16_str,
                all == v@ + this.remaining(),
                all == self.remaining(),
            decreases this.remaining().len(),
        {
            match this.next() {
                Some(pair) => {
                    v.push(pair);
                },
                None => {
                    assert(this.remaining() =~= Seq::<(usize, usize)>::empty());
                    assert(all =~= v@);
                    return v;
                },
            }
        }
    }

    /// Converts the UTF-16 offset of a boundary at or after the converter's position to the
    /// UTF-8 offset of the same boundary. Converting the current boundary again leaves the
    /// converter as it is; otherwise the converter moves to the converted boundary.
    pub fn convert_to_utf8_index(&mut self, utf16_index: usize) -> (r: usize)
        requires
            old(self).wf(),
            is_utf16_boundary(old(self).chars(), utf16_index as int),
            old(self).boundary() <= char_index_of_utf16(old(self).chars(), utf16_index as int),
        ensures
            final(self).wf(),
            final(self).utf8_str == old(self).utf8_str,
            final(self).utf16_str == old(self).utf16_str,
            r == utf8_offset(
                old(self).chars(),
                char_index_of_utf16(old(self).chars(), utf16_index as int),
            ),
            utf16_index == old(self).utf16_index ==> *final(self) == *old(self),
            utf16_index != old(self).utf16_index ==> final(self).boundary() == char_index_of_utf16(
                old(self).chars(),
                utf16_index as int,
            ) && !final(self).initial,
    {
        let ghost chars = self.chars();
        let ghost j = char_index_of_utf16(chars, utf16_index as int);
        proof {
            self.lemma_boundary();
        }
        // Converting the current index again is supported.
        if utf16_index == self.utf16_index {
            proof {
                lemma_offset_injective(chars, j, self.boundary());
            }
            return self.utf8_index;
        }
        proof {
            if j == self.boundary() {
                assert(false);
            }
        }
        loop
            invariant
                self.wf(),
                self.utf8_str == old(self).utf8_str,
                self.utf16_str == old(self).utf16_str,
                chars == self.chars(),
                j == char_index_of_utf16(chars, utf16_index as int),
                0 <= j <= chars.len(),
                utf16_offset(chars, j) == utf16_index,
                utf16_index != old(self).utf16_index,
                self.boundary() < j,
            decreases j - self.boundary(), if self.initial { 1int } else { 0int },
        {
            proof {
                self.lemma_boundary();
            }
            let ghost pos = if self.initial { self.boundary() } else { self.boundary() + 1 };
            proof {
                lemma_offset_bounds(chars, pos);
                assert(self.remaining().len() > 0);
                assert(self.remaining()[0] == utf8_utf16_boundary_pairs(chars)[pos]);
            }
            let next = self.next();
            match next {
                Some(pair) => {
                    let (u8_index, u16_index) = pair;
                    if u16_index >= utf16_index {
                        proof {
                            lemma_offset_monotone(chars, pos, j);
                            lemma_offset_monotone(chars, j, pos);
                        }
                        return u8_index;
                    }
                    proof {
                        lemma_offset_monotone(chars, j, pos);
                    }
                },
                None => {
                    assert(false);
                },
            }
        }
    }

    /// Converts the UTF-8 offset of a boundary at or after the converter's position to the
    /// UTF-16 offset of the same boundary. Converting the current boundary again leaves the
    /// converter as it is; otherwise the converter moves to the converted boundary.
    pub fn convert_to_utf16_index(&mut self, utf8_index: usize) -> (r: usize)
        requires
            old(self).wf(),
            is_utf8_boundary(old(self).chars(), utf8_index as int),
            old(self).boundary() <= char_index_of_utf8(old(self).chars(), utf8_index as int),
        ensures
            final(self).wf(),
            final(self).utf8_str == old(self).utf8_str,
            final(self).utf16_str == old(self).utf16_str,
            r == utf16_offset(
                old(self).chars(),
                char_index_of_utf8(old(self).chars(), utf8_index as int),
            ),
            utf8_index == old(self).utf8_index ==> *final(self) == *old(self),
            utf8_index != old(self).utf8_index ==> final(self).boundary() == char_index_of_utf8(
                old(self).chars(),
                utf8_index as int,
            ) && !final(self).initial,
    {
        let ghost chars = self.chars();
        let ghost j = char_index_of_utf8(chars, utf8_index as int);
        proof {
            self.lemma_boundary();
        }
        // Converting the current index again is supported.
        if utf8_index == self.utf8_index {
            proof {
                lemma_offset_injective(chars, j, self.boundary());
            }
            return self.utf16_index;
        }
        proof {
            if j == self.boundary() {
                assert(false);
            }
        }
        loop
            invariant
                self.wf(),
                self.utf8_str == old(self).utf8_str,
                self.utf16_str == old(self).utf16_str,
                chars == self.chars(),
                j == char_index_of_utf8(chars, utf8_index as int),
                0 <= j <= chars.len(),
                utf8_offset(chars, j) == utf8_index,
                utf8_index != old(self).utf8_index,
                self.boundary() < j,
            decreases j - self.boundary(), if self.initial { 1int } else { 0int },
        {
            proof {
                self.lemma_boundary();
            }
            let ghost pos = if self.initial { self.boundary() } else { self.boundary() + 1 };
            proof {
                lemma_offset_bounds(chars, pos);
                assert(self.remaining().len() > 0);
                assert(self.remaining()[0] == utf8_utf16_boundary_pairs(chars)[pos]);
            }
            let next = self.next();
            match next {
                Some(pair) => {
                    let (u8_index, u16_index) = pair;
                    if u8_index >= utf8_index {
                        proof {
                            lemma_offset_monotone(chars, pos, j);
                            lemma_offset_monotone(chars, j, pos);
                        }
                        return u16_index;
                    }
                    proof {
                        lemma_offset_monotone(chars, j, pos);
                    }
                },
                None => {
                    assert(false);
                },
            }
        }
    }
}

/// The index of the scalar whose UTF-8 encoding holds byte `byte_index`.
pub open spec fn char_containing_utf8_byte(chars: Seq<char>, byte_index: int) -> int {
    choose|k: int|
        0 <= k < chars.len() && #[trigger] utf8_offset(chars, k) <= byte_index < utf8_offset(
            chars,
            k + 1,
        )
}

/// For every byte of the UTF-8 encoding of `chars`, the UTF-16 offset of the code point that
/// holds that byte.
pub open spec fn utf16_indexes_of_utf8_bytes(chars: Seq<char>) -> Seq<usize> {
    Seq::new(
        encode_utf8(chars).len(),
        |b: int| utf16_offset(chars, char_containing_utf8_byte(chars, b)) as usize,
    )
}

/// Only one scalar holds a given byte.
pub proof fn lemma_containing_char_unique(chars: Seq<char>, b: int, j: int, k: int)
    requires
        0 <= j < chars.len(),
        0 <= k < chars.len(),
        utf8_offset(chars, j) <= b < utf8_offset(chars, j + 1),
        utf8_offset(chars, k) <= b < utf8_offset(chars, k + 1),
    ensures
        j == k,
{
    if j < k {
        lemma_offset_monotone(chars, j + 1, k);
    } else if k < j {
        lemma_offset_monotone(chars, k + 1, j);
    }
}

/// Every byte of the encoding lies in exactly one scalar's encoding.
pub proof fn lemma_char_containing_utf8_byte(chars: Seq<char>, b: int, k: int)
    requires
        0 <= b < encode_utf8(chars).len(),
        0 <= k <= chars.len(),
        utf8_offset(chars, k) <= b,
    ensures
        0 <= char_containing_utf8_byte(chars, b) < chars.len(),
        utf8_offset(chars, char_containing_utf8_byte(chars, b)) <= b < utf8_offset(
            chars,
            char_containing_utf8_byte(chars, b) + 1,
        ),
    decreases chars.len() - k,
{
    lemma_offset_ends(chars);
    if k == chars.len() {
        assert(false);
    } else if b < utf8_offset(chars, k + 1) {
        assert(0 <= k < chars.len() && utf8_offset(chars, k) <= b < utf8_offset(chars, k + 1));
    } else {
        lemma_char_containing_utf8_byte(chars, b, k + 1);
    }
}

/// Gives, for each byte of a text's UTF-8 encoding, the UTF-16 offset of the code point that
/// holds that byte, walking forward.
///
/// `utf8_str` and `utf16_str` must be the two encodings of the same text.
pub struct Utf16IndexesForUtf8<'a, 'b> {
    pub utf8_str: &'b str,
    pub utf16_str: &'a [u16],
    pub initial: bool,
    pub utf8_index: usize,
    pub utf16_index: usize,
}

impl<'a, 'b> Utf16IndexesForUtf8<'a, 'b> {
    /// The scalar values of the text.
    pub open spec fn chars(&self) -> Seq<char> {
        self.utf8_str@
    }

    /// The byte at `utf8_index` lies in scalar `k`, whose UTF-16 offset is `utf16_index`.
    pub open spec fn in_char(&self, k: int) -> bool {
        &&& 0 <= k < self.chars().len()
        &&& utf8_offset(self.chars(), k) <= self.utf8_index < utf8_offset(self.chars(), k + 1)
        &&& self.utf16_index == utf16_offset(self.chars(), k)
    }

    /// Well-formedness: matching encodings and a position inside the text, or at its start when
    /// the text is empty.
    pub open spec fn wf(&self) -> bool {
        &&& self.utf16_str@ == encode_utf16(self.utf8_str@)
        &&& encode_utf8(self.utf8_str@).len() <= usize::MAX
        &&& (exists|k: int| self.in_char(k)) || (self.chars().len() == 0 && self.utf8_index == 0)
    }

    /// The UTF-16 offsets that are still to come: those of the bytes from the current one on
    /// (when it is not reported yet) or from the next one, none once the current byte is the
    /// last one.
    pub open spec fn remaining(&self) -> Seq<usize> {
        let n = encode_utf8(self.chars()).len() as int;
        if self.utf8_index + 1 >= n {
            Seq::empty()
        } else if self.initial {
            utf16_indexes_of_utf8_bytes(self.chars()).subrange(self.utf8_index as int, n)
        } else {
            utf16_indexes_of_utf8_bytes(self.chars()).subrange(self.utf8_index + 1, n)
        }
    }

    /// Creates a walker at the first byte of the text.
    pub fn new(utf8_str: &'b str, utf16_str: &'a [u16]) -> (r: Self)
        requires
            utf16_str@ == encode_utf16(utf8_str@),
            encode_utf8(utf8_str@).len() <= usize::MAX,
        ensures
            r.wf(),
            r.utf8_str == utf8_str,
            r.utf16_str == utf16_str,
            r.remaining() == if encode_utf8(utf8_str@).len() <= 1 {
                Seq::<usize>::empty()
            } else {
                utf16_indexes_of_utf8_bytes(utf8_str@)
            },
    {
        let r = Self { utf8_str, utf16_str, initial: true, utf8_index: 0, utf16_index: 0 };
        proof {
            let chars = utf8_str@;
            lemma_offset_ends(chars);
            if chars.len() > 0 {
                lemma_offset_step(chars, 0);
                lemma_char_widths(chars[0]);
                assert(r.in_char(0));
            }
            assert(utf16_indexes_of_utf8_bytes(chars).subrange(0, encode_utf8(chars).len() as int)
                =~= utf16_indexes_of_utf8_bytes(chars));
        }
        r
    }

    /// Gives the UTF-16 offset for the next byte, or `None` once the last byte is reached.
    pub fn next(&mut self) -> (r: Option<usize>)
        requires
            old(self).wf(),
        ensures
            final(self).wf(),
            final(self).utf8_str == old(self).utf8_str,
            final(self).utf16_str == old(self).utf16_str,
            old(self).remaining().len() == 0 ==> r is None && *final(self) == *old(self),
            old(self).remaining().len() > 0 ==> r == Some(old(self).remaining()[0]),
            final(self).remaining() == if old(self).remaining().len() == 0 {
                old(self).remaining()
            } else {
                old(self).remaining().drop_first()
            },
    {
        let ghost chars = self.chars();
        let ghost n = encode_utf8(chars).len() as int;
        let ghost k = choose|k: int| self.in_char(k);
        let bytes = self.utf8_str.as_bytes();
        proof {
            lemma_offset_ends(chars);
            if self.in_char(k) {
                lemma_offset_bounds(chars, k + 1);
                lemma_offset_step(chars, k);
            }
        }
        if self.utf8_index + 1 >= self.utf8_str.len() {
            return None;
        }
        assert(self.in_char(k));
        let ghost nk = k;
        if !self.initial {
            self.utf8_index += 1;
            let ghost b = self.utf8_index as int;
            proof {
                lemma_offset_step(chars, k);
                lemma_encoded_char_at_offset(chars, k);
                lemma_utf8_scalar_bytes(chars[k]);
                lemma_utf16_scalar_units(chars[k]);
                lemma_char_widths(chars[k]);
                lemma_offset_bounds(chars, k);
                assert(encode_utf16(chars)[utf16_offset(chars, k) + 0] == encode_utf16_char(
                    chars[k],
                )[0]);
                if b < utf8_offset(chars, k + 1) {
                    let j = b - utf8_offset(chars, k);
                    assert(encode_utf8(chars)[utf8_offset(chars, k) + j] == encode_scalar(
                        chars[k] as u32,
                    )[j]);
                    assert(!spec_is_utf8_code_point_first_byte(encode_scalar(chars[k] as u32)[j]));
                } else {
                    if k + 1 == chars.len() {
                        assert(false);
                    }
                    lemma_encoded_char_at_offset(chars, k + 1);
                    lemma_utf8_scalar_bytes(chars[k + 1]);
                    assert(encode_utf8(chars)[utf8_offset(chars, k + 1) + 0] == encode_scalar(
                        chars[k + 1] as u32,
                    )[0]);
                }
            }
            if is_utf8_code_point_first_byte(bytes[self.utf8_index]) {
                self.utf16_index += if is_utf16_surrogate(self.utf16_str[self.utf16_index]) {
                    2
                } else {
                    1
                };
                proof {
                    nk = k + 1;
                    lemma_offset_step(chars, k + 1);
                    lemma_char_widths(chars[k + 1]);
                }
            }
        }
        self.initial = false;
        proof {
            assert(self.in_char(nk));
            let b = self.utf8_index as int;
            lemma_char_containing_utf8_byte(chars, b, 0);
            lemma_containing_char_unique(chars, b, nk, char_containing_utf8_byte(chars, b));
            lemma_offset_bounds(chars, nk);
            assert(self.remaining() =~= old(self).remaining().drop_first());
        }
        Some(self.utf16_index)
    }

    /// Gives all the UTF-16 offsets that are still to come, in order.
    pub fn collect_indexes(self) -> (v: Vec<usize>)
        requires
            self.wf(),
        ensures
            v@ == self.remaining(),
    {
        let ghost all = self.remaining();
        let mut this = self;
        let mut v: Vec<usize> = Vec::new();
        loop
            invariant
                this.wf(),
                this.utf8_str == self.utf8_str,
                this.utf16_str == self.utf16_str,
                all == v@ + this.remaining(),
                all == self.remaining(),
            decreases this.remaining().len(),
        {
            match this.next() {
                Some(index) => {
                    v.push(index);
                },
                None => {
                    assert(this.remaining() =~= Seq::<usize>::empty());
                    assert(all =~= v@);
                    return v;
                },
            }
        }
    }
}

/// The boundary pairs run from `(0, 0)` to the lengths of the two encodings, increase strictly in
/// both offsets, and are boundaries of both encodings; the other converter walks the same pairs,
/// with the offsets in the other order.
pub proof fn lemma_boundary_pairs(chars: Seq<char>)
    requires
        encode_utf8(chars).len() <= usize::MAX,
        encode_utf16(chars).len() <= usize::MAX,
    ensures
        ({
            let p = utf8_utf16_boundary_pairs(chars);
            &&& p.len() == chars.len() + 1
            &&& p[0] == (0usize, 0usize)
            &&& p.last() == (encode_utf8(chars).len() as usize, encode_utf16(chars).len() as usize)
            &&& forall|i: int, j: int|
                0 <= i < j < p.len() ==> #[trigger] p[i].0 < #[trigger] p[j].0 && p[i].1 < p[j].1
            &&& forall|i: int|
                0 <= i < p.len() ==> is_utf8_boundary(chars, #[trigger] p[i].0 as int)
                    && is_utf16_boundary(chars, p[i].1 as int) && utf16_of_utf8(chars, p[i].0 as int)
                    == p[i].1
            &&& utf16_utf8_boundary_pairs(chars) == p.map_values(
                |pair: (usize, usize)| (pair.1, pair.0),
            )
        }),
{
    let p = utf8_utf16_boundary_pairs(chars);
    lemma_offset_ends(chars);
    assert(p.last() == p[chars.len() as int]);
    assert forall|i: int| 0 <= i < p.len() implies 0 <= #[trigger] utf8_offset(chars, i) <= usize::MAX
        && 0 <= utf16_offset(chars, i) <= usize::MAX by {
        lemma_offset_bounds(chars, i);
    }
    assert forall|i: int, j: int| 0 <= i < j < p.len() implies #[trigger] p[i].0 < #[trigger] p[j].0
        && p[i].1 < p[j].1 by {
        lemma_offset_strictly_increasing(chars, i, j);
    }
    assert forall|i: int| 0 <= i < p.len() implies is_utf8_boundary(chars, #[trigger] p[i].0 as int)
        && is_utf16_boundary(chars, p[i].1 as int) && utf16_of_utf8(chars, p[i].0 as int)
        == p[i].1 by {
        lemma_char_index_of_offset(chars, i);
    }
    assert(utf16_utf8_boundary_pairs(chars) =~= p.map_values(
        |pair: (usize, usize)| (pair.1, pair.0),
    ));
}

/// The UTF-16 offsets given for the bytes of the UTF-8 encoding never decrease; each is the
/// UTF-16 offset of a code point that starts at or before the byte, and at the first byte of a
/// code point it is the conversion of that byte's offset.
pub proof fn lemma_utf16_indexes_of_utf8_bytes(chars: Seq<char>)
    requires
        encode_utf8(chars).len() <= usize::MAX,
        encode_utf16(chars).len() <= usize::MAX,
    ensures
        ({
            let v = utf16_indexes_of_utf8_bytes(chars);
            &&& v.len() == encode_utf8(chars).len()
            &&& forall|a: int, b: int| 0 <= a <= b < v.len() ==> #[trigger] v[a] <= #[trigger] v[b]
            &&& forall|b: int|
                0 <= b < v.len() ==> is_utf16_boundary(chars, #[trigger] v[b] as int) && v[b]
                    < encode_utf16(chars).len()
            &&& forall|b: int|
                0 <= b < v.len() && is_utf8_boundary(chars, b) ==> #[trigger] v[b] == utf16_of_utf8(
                    chars,
                    b,
                )
        }),
{
    let v = utf16_indexes_of_utf8_bytes(chars);
    lemma_offset_ends(chars);
    assert forall|b: int| 0 <= b < v.len() implies 0 <= #[trigger] char_containing_utf8_byte(chars, b)
        < chars.len() && utf8_offset(chars, char_containing_utf8_byte(chars, b)) <= b < utf8_offset(
        chars,
        char_containing_utf8_byte(chars, b) + 1,
    ) by {
        lemma_char_containing_utf8_byte(chars, b, 0);
    }
    assert forall|a: int, b: int| 0 <= a <= b < v.len() implies #[trigger] v[a] <= #[trigger] v[b] by {
        let ca = char_containing_utf8_byte(chars, a);
        let cb = char_containing_utf8_byte(chars, b);
        lemma_offset_monotone(chars, ca, cb);
        lemma_offset_monotone(chars, cb + 1, ca);
        lemma_offset_bounds(chars, ca);
        lemma_offset_bounds(chars, cb);
    }
    assert forall|b: int| 0 <= b < v.len() implies is_utf16_boundary(chars, #[trigger] v[b] as int)
        && v[b] < encode_utf16(chars).len() by {
        let c = char_containing_utf8_byte(chars, b);
        lemma_offset_bounds(chars, c);
        lemma_char_index_of_offset(chars, c);
        lemma_offset_strictly_increasing(chars, c, chars.len() as int);
    }
    assert forall|b: int| 0 <= b < v.len() && is_utf8_boundary(chars, b) implies #[trigger] v[b]
        == utf16_of_utf8(chars, b) by {
        let c = char_containing_utf8_byte(chars, b);
        let k = char_index_of_utf8(chars, b);
        lemma_char_containing_utf8_byte(chars, b, 0);
        assert(0 <= k <= chars.len() && utf8_offset(chars, k) == b);
        lemma_offset_bounds(chars, c);
        lemma_offset_monotone(chars, c, k);
        lemma_offset_monotone(chars, c + 1, k);
    }
}

} // verus!
