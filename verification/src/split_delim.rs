use vstd::prelude::*;
use vstd::string::StringSliceAdditionalSpecFns;
use vstd::utf8::encode_utf8;

use crate::text::{
    char_to_string, find_match, first_match_at, lemma_first_match_unique, match_at,
    split_around, split_head, split_rest,
};

verus! {

/// Anything that can locate its next occurrence inside a haystack. The
/// occurrence is described by its UTF-8 bytes.
pub trait Delimiter {
    /// The bytes one occurrence of this delimiter takes up.
    spec fn delim_bytes(&self) -> Seq<u8>;

    /// The byte range `[start, end)` of the earliest occurrence of this
    /// delimiter in `s`, or nothing when it does not occur at all.
    fn find_next(&self, s: &str) -> (r: Option<(usize, usize)>)
        ensures
            r matches Some(found) ==> first_match_at(s.spec_bytes(), self.delim_bytes(),
                found.0 as int) && found.1 == found.0 + self.delim_bytes().len(),
            r is None ==> forall|j: int| !match_at(s.spec_bytes(), self.delim_bytes(), j),
    ;
}

impl<'d> Delimiter for &'d str {
    open spec fn delim_bytes(&self) -> Seq<u8> {
        (*self).spec_bytes()
    }

    fn find_next(&self, s: &str) -> (r: Option<(usize, usize)>)
        ensures
            r matches Some(found) ==> first_match_at(s.spec_bytes(), self.delim_bytes(),
                found.0 as int) && found.1 == found.0 + self.delim_bytes().len(),
            r is None ==> forall|j: int| !match_at(s.spec_bytes(), self.delim_bytes(), j),
    {
        let _hay_len = s.as_bytes().len();
        match find_match(s, *self) {
            Some(start) => Some((start, start + self.as_bytes().len())),
            None => None,
        }
    }
}

impl Delimiter for char {
    open spec fn delim_bytes(&self) -> Seq<u8> {
        encode_utf8(seq![*self])
    }

    fn find_next(&self, s: &str) -> (r: Option<(usize, usize)>)
        ensures
            r matches Some(found) ==> first_match_at(s.spec_bytes(), self.delim_bytes(),
                found.0 as int) && found.1 == found.0 + self.delim_bytes().len(),
            r is None ==> forall|j: int| !match_at(s.spec_bytes(), self.delim_bytes(), j),
    {
        let _hay_len = s.as_bytes().len();
        let delimiter = char_to_string(*self);
        let delimiter_str = delimiter.as_str();
        proof {
            assert(delimiter_str@ == seq![*self]);
            assert(delimiter_str.spec_bytes() == encode_utf8(seq![*self]));
        }
        match find_match(s, delimiter_str) {
            Some(start) => Some((start, start + delimiter_str.as_bytes().len())),
            None => None,
        }
    }
}

/// Yields the pieces of a borrowed haystack in order, cutting at each
/// occurrence of a delimiter of any kind that can locate itself.
pub struct StrSplit<'haystack, D> {
    remainder: Option<&'haystack str>,
    delimiter: D,
}

impl<'haystack, D: Delimiter> StrSplit<'haystack, D> {
    /// What is left to cut, as UTF-8 bytes; nothing once the haystack is
    /// exhausted.
    pub closed spec fn spec_remainder(&self) -> Option<Seq<u8>> {
        match self.remainder {
            Some(remainder) => Some(remainder.spec_bytes()),
            None => None,
        }
    }

    /// The bytes of one occurrence of the delimiter.
    pub closed spec fn spec_delimiter(&self) -> Seq<u8> {
        self.delimiter.delim_bytes()
    }

    /// A splitter over all of `haystack`.
    pub fn new(haystack: &'haystack str, delimiter: D) -> (split: Self)
        ensures
            split.spec_remainder() == Some(haystack.spec_bytes()),
            split.spec_delimiter() == delimiter.delim_bytes(),
    {
        Self { remainder: Some(haystack), delimiter }
    }

    /// The piece before the next occurrence of the delimiter; once no
    /// occurrence is left, the rest of the haystack in one piece, and
    /// after that nothing.
    pub fn next(&mut self) -> (r: Option<&'haystack str>)
        ensures
            final(self).spec_delimiter() == old(self).spec_delimiter(),
            old(self).spec_remainder() is None ==> r is None
                && final(self).spec_remainder() is None,
            old(self).spec_remainder() matches Some(rem) ==> {
                &&& r matches Some(head) && head.spec_bytes() == split_head(
                    rem,
                    old(self).spec_delimiter(),
                )
                &&& final(self).spec_remainder() == split_rest(rem, old(self).spec_delimiter())
            },
    {
        let remainder = match self.remainder {
            Some(remainder) => remainder,
            None => {
                return None;
            },
        };

        match self.delimiter.find_next(remainder) {
            Some((start, end)) => {
                proof {
                    let i0 = choose|j: int|
                        first_match_at(
                            remainder.spec_bytes(),
                            self.delimiter.delim_bytes(),
                            j,
                        );
                    lemma_first_match_unique(
                        remainder.spec_bytes(),
                        self.delimiter.delim_bytes(),
                        start as int,
                        i0,
                    );
                }
                let (head, rest) = split_around(remainder, start, end - start);
                self.remainder = Some(rest);
                Some(head)
            },
            None => self.remainder.take(),
        }
    }
}

/// The piece of `s` that stands before the first occurrence of `delimiter`;
/// all of `s` when `delimiter` does not occur in it.
pub fn sub_string_before_str<'haystack>(s: &'haystack str, delimiter: &str) -> (r: &'haystack str)
    ensures
        r.spec_bytes() == split_head(s.spec_bytes(), delimiter.spec_bytes()),
{
    let mut split = StrSplit::new(s, delimiter);
    match split.next() {
        Some(head) => head,
        None => vstd::pervasive::unreached(),
    }
}

/// The piece of `s` that stands before the first occurrence of `delimiter`;
/// all of `s` when `delimiter` does not occur in it.
pub fn sub_string_before_char<'haystack>(s: &'haystack str, delimiter: char) -> (r: &'haystack str)
    ensures
        r.spec_bytes() == split_head(s.spec_bytes(), encode_utf8(seq![delimiter])),
{
    let mut split = StrSplit::new(s, delimiter);
    match split.next() {
        Some(head) => head,
        None => vstd::pervasive::unreached(),
    }
}

} // verus!
