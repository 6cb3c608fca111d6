//! Walks a text's UTF-16 and UTF-8 encodings side by side, one code point at a time, giving the
//! pair of offsets at every code-point boundary, the end included.

use vstd::prelude::*;
use vstd::utf8::*;
use vstd::string::StringSliceAdditionalSpecFns;
use crate::text_encoding::{
    char_index_of_utf16, char_index_of_utf8, encode_utf16, encode_utf16_char, is_utf16_boundary,
    is_utf16_surrogate, is_utf8_boundary, lemma_char_index_of_offset, lemma_char_widths,
    lemma_encoded_char_at_offset, lemma_offset_bounds, lemma_offset_ends, lemma_offset_injective,
    lemma_offset_monotone, lemma_offset_step, lemma_utf16_scalar_units, lemma_utf8_scalar_bytes,
    utf16_offset, utf8_code_point_byte_len, utf8_offset,
};

verus! {

/// The (UTF-16 offset, UTF-8 offset) pair of every code-point boundary of `chars`, in order, from
/// the start of the text to its end.
pub open spec fn utf16_utf8_boundary_pairs(chars: Seq<char>) -> Seq<(usize, usize)> {
    Seq::new(
        (chars.len() + 1) as nat,
        |k: int| (utf16_offset(chars, k) as usize, utf8_offset(chars, k) as usize),
    )
}

/// Converts UTF-16 offsets of a text to UTF-8 offsets and back, moving forward only.
///
/// `utf16_str` and `utf8_str` must be the two encodings of the same text.
pub struct Utf16Utf8IndexConverter<'a, 'b> {
    pub utf16_str: &'a [u16],
    pub utf8_str: &'b str,
    pub utf16_index: usize,
    pub utf8_index: usize,
}

impl<'a, 'b> Utf16Utf8IndexConverter<'a, 'b> {
    /// The scalar values of the text.
    pub open spec fn chars(&self) -> Seq<char> {
        self.utf8_str@
    }

    /// The two strings are the two encodings of one text.
    pub open spec fn encodings_agree(&self) -> bool {
        &&& self.utf16_str@ == encode_utf16(self.utf8_str@)
        &&& self.utf16_str@.len() < usize::MAX
        &&& encode_utf8(self.utf8_str@).len() <= usize::MAX
    }

    /// The converter stands at boundary `k` (it will next report the pair of that boundary).
    pub open spec fn at_boundary(&self, k: int) -> bool {
        &&& 0 <= k <= self.chars().len()
        &&& self.utf16_index == utf16_offset(self.chars(), k)
        &&& self.utf8_index == utf8_offset(self.chars(), k)
    }

    /// The converter has reported the end boundary and has nothing more to give.
    pub open spec fn is_exhausted(&self) -> bool {
        &&& self.utf16_index == self.utf16_str@.len() + 1
        &&& self.utf8_index == encode_utf8(self.chars()).len()
    }

    /// Well-formedness: matching encodings and a position at a boundary or past the end.
    pub open spec fn wf(&self) -> bool {
        &&& self.encodings_agree()
        &&& (self.is_exhausted() || exists|k: int| self.at_boundary(k))
    }

    /// How many boundary pairs this converter has already passed.
    pub open spec fn position(&self) -> int {
        if self.is_exhausted() {
            self.chars().len() + 1int
        } else {
            choose|k: int| self.at_boundary(k)
        }
    }

    /// The boundary pairs that are still to come.
    pub open spec fn remaining(&self) -> Seq<(usize, usize)> {
        utf16_utf8_boundary_pairs(self.chars()).skip(self.position())
    }

    proof fn lemma_position(&self)
        requires
            self.wf(),
        ensures
            0 <= self.position() <= self.chars().len() + 1,
            self.position() <= self.chars().len() ==> self.at_boundary(self.position()),
            self.position() <= self.chars().len() <==> !self.is_exhausted(),
            self.remaining().len() == self.chars().len() + 1 - self.position(),
            self.encodings_agree(),
    {
        let chars = self.chars();
        lemma_offset_ends(chars);
        if !self.is_exhausted() {
            let k = self.position();
            assert(self.at_boundary(k));
        }
    }

    /// Creates a converter at the start of the text.
    pub fn new(utf16: &'a [u16], utf8: &'b str) -> (r: Self)
        requires
            utf16@ == encode_utf16(utf8@),
            utf16@.len() < usize::MAX,
            encode_utf8(utf8@).len() <= usize::MAX,
        ensures
            r.wf(),
            r.utf16_str == utf16,
            r.utf8_str == utf8,
            r.position() == 0,
            r.remaining() == utf16_utf8_boundary_pairs(utf8@),
    {
        let r = Self { utf16_str: utf16, utf8_str: utf8, utf16_index: 0, utf8_index: 0 };
        proof {
            lemma_offset_ends(utf8@);
            lemma_char_index_of_offset(utf8@, 0);
            assert(r.at_boundary(0));
            assert(!r.is_exhausted());
            let k = r.position();
            lemma_offset_injective(utf8@, k, 0);
            assert(r.remaining() =~= utf16_utf8_boundary_pairs(utf8@));
        }
        r
    }

    /// Gives the next boundary pair `(utf16 offset, utf8 offset)`, or `None` after the end pair.
    pub fn next(&mut self) -> (r: Option<(usize, usize)>)
        requires
            old(self).wf(),
        ensures
            final(self).wf(),
            final(self).utf16_str == old(self).utf16_str,
            final(self).utf8_str == old(self).utf8_str,
            old(self).remaining().len() == 0 ==> r is None && final(self).position() == old(
                self,
            ).position(),
            old(self).remaining().len() > 0 ==> r == Some(old(self).remaining()[0])
                && final(self).position() == old(self).position() + 1,
            final(self).remaining() == if old(self).remaining().len() == 0 {
                old(self).remaining()
            } else {
                old(self).remaining().drop_first()
            },
    {
        let ghost chars = self.chars();
        let ghost k = self.position();
        proof {
            self.lemma_position();
            lemma_offset_ends(chars);
        }
        let indexes = (self.utf16_index, self.utf8_index);
        if self.utf16_index >= self.utf16_str.len() {
            if self.utf16_index == self.utf16_str.len() {
                proof {
                    if k < chars.len() {
                        lemma_offset_bounds(chars, k);
                    }
                    assert(k == chars.len());
                }
                self.utf16_index += 1;
                proof {
                    assert(self.is_exhausted());
                    assert(self.remaining() =~= Seq::<(usize, usize)>::empty());
                }
                return Some(indexes);
            }
            proof {
                if k <= chars.len() {
                    lemma_offset_bounds(chars, k);
                }
                assert(self.remaining() =~= Seq::<(usize, usize)>::empty());
            }
            return None;
        }
        proof {
            if k == chars.len() {
                assert(false);
            }
            lemma_offset_bounds(chars, k);
            lemma_offset_step(chars, k);
            lemma_offset_bounds(chars, k + 1);
            lemma_encoded_char_at_offset(chars, k);
            lemma_utf8_scalar_bytes(chars[k]);
            lemma_utf16_scalar_units(chars[k]);
            lemma_char_widths(chars[k]);
            assert(encode_utf16(chars)[utf16_offset(chars, k) + 0] == encode_utf16_char(
                chars[k],
            )[0]);
            assert(encode_utf8(chars)[utf8_offset(chars, k) + 0] == encode_scalar(
                chars[k] as u32,
            )[0]);
        }
        self.utf16_index += if is_utf16_surrogate(self.utf16_str[self.utf16_index]) {
            2
        } else {
            1
        };
        let bytes = self.utf8_str.as_bytes();
        self.utf8_index += utf8_code_point_byte_len(bytes[self.utf8_index]);
        proof {
            assert(self.at_boundary(k + 1));
            let k2 = self.position();
            assert(self.at_boundary(k2));
            lemma_offset_injective(chars, k2, k + 1);
            assert(self.remaining() =~= old(self).remaining().drop_first());
        }
        Some(indexes)
    }

    /// Gives all the boundary pairs that are still to come, in order.
    pub fn collect_pairs(self) -> (v: Vec<(usize, usize)>)
        requires
            self.wf(),
        ensures
            v@ == self.remaining(),
    {
        let ghost all = self.remaining();
        let mut this = self;
        let mut v: Vec<(usize, usize)> = Vec::new();
        loop
            invariant
                this.wf(),
                this.utf16_str == self.utf16_str,
                this.utf8_str == self.utf8_str,
                all == v@ + this.remaining(),
                all == self.remaining(),
            decreases this.remaining().len(),
        {
            proof {
                this.lemma_position();
            }
            match this.next() {
                Some(pair) => {
                    v.push(pair);
                },
                None => {
                    assert(this.remaining() =~= Seq::<(usize, usize)>::empty());
                    assert(all =~= v@);
                    return v;
                },
            }
        }
    }

    /// Converts the UTF-16 offset of a boundary at or after the converter's position to the
    /// UTF-8 offset of the same boundary; the converter moves past that boundary.
    pub fn convert_to_utf8_index(&mut self, utf16_index: usize) -> (r: usize)
        requires
            old(self).wf(),
            is_utf16_boundary(old(self).chars(), utf16_index as int),
            old(self).position() <= char_index_of_utf16(old(self).chars(), utf16_index as int),
        ensures
            final(self).wf(),
            final(self).utf16_str == old(self).utf16_str,
            final(self).utf8_str == old(self).utf8_str,
            r == utf8_offset(
                old(self).chars(),
                char_index_of_utf16(old(self).chars(), utf16_index as int),
            ),
            final(self).position() == char_index_of_utf16(old(self).chars(), utf16_index as int)
                + 1,
    {
        let ghost chars = self.chars();
        let ghost j = char_index_of_utf16(chars, utf16_index as int);
        loop
            invariant
                self.wf(),
                self.utf16_str == old(self).utf16_str,
                self.utf8_str == old(self).utf8_str,
                chars == self.chars(),
                chars == old(self).chars(),
                j == char_index_of_utf16(chars, utf16_index as int),
                0 <= j <= chars.len(),
                utf16_offset(chars, j) == utf16_index,
                self.position() <= j,
            decreases j - self.position(),
        {
            proof {
                self.lemma_position();
            }
            let ghost pos = self.position();
            proof {
                lemma_offset_bounds(chars, pos);
            }
            let next = self.next();
            match next {
                Some(pair) => {
                    let (u16_index, u8_index) = pair;
                    if u16_index >= utf16_index {
                        proof {
                            lemma_offset_monotone(chars, pos, j);
                            lemma_offset_monotone(chars, j, pos);
                        }
                        return u8_index;
                    }
                },
                None => {
                    assert(false);
                },
            }
        }
    }

    /// Converts the UTF-8 offset of a boundary at or after the converter's position to the
    /// UTF-16 offset of the same boundary; the converter moves past that boundary.
    pub fn convert_to_utf16_index(&mut self, utf8_index: usize) -> (r: usize)
        requires
            old(self).wf(),
            is_utf8_boundary(old(self).chars(), utf8_index as int),
            old(self).position() <= char_index_of_utf8(old(self).chars(), utf8_index as int),
        ensures
            final(self).wf(),
            final(self).utf16_str == old(self).utf16_str,
            final(self).utf8_str == old(self).utf8_str,
            r == utf16_offset(
                old(self).chars(),
                char_index_of_utf8(old(self).chars(), utf8_index as int),
            ),
            final(self).position() == char_index_of_utf8(old(self).chars(), utf8_index as int)
                + 1,
    {
        let ghost chars = self.chars();
        let ghost j = char_index_of_utf8(chars, utf8_index as int);
        loop
            invariant
                self.wf(),
                self.utf16_str == old(self).utf16_str,
                self.utf8_str == old(self).utf8_str,
                chars == self.chars(),
                chars == old(self).chars(),
                j == char_index_of_utf8(chars, utf8_index as int),
                0 <= j <= chars.len(),
                utf8_offset(chars, j) == utf8_index,
                self.position() <= j,
            decreases j - self.position(),
        {
            proof {
                self.lemma_position();
            }
            let ghost pos = self.position();
            proof {
                lemma_offset_bounds(chars, pos);
            }
            let next = self.next();
            match next {
                Some(pair) => {
                    let (u16_index, u8_index) = pair;
                    if u8_index >= utf8_index {
                        proof {
                            lemma_offset_monotone(chars, pos, j);
                            lemma_offset_monotone(chars, j, pos);
                        }
                        return u16_index;
                    }
                },
                None => {
                    assert(false);
                },
            }
        }
    }
}

} // verus!
