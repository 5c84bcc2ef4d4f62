use vstd::prelude::*;
use vstd::string::StringSliceAdditionalSpecFns;
use vstd::utf8::encode_utf8;

use crate::text::{
    char_to_string, find_match, first_match_at, lemma_first_match_unique, split_around,
    split_head, split_rest,
};

verus! {

/// Yields the pieces of a borrowed haystack in order, cutting at each
/// occurrence of a delimiter string. Text is compared by its UTF-8 bytes.
pub struct StrSplit<'haystack, 'delimiter> {
    remainder: Option<&'haystack str>,
    delimiter: &'delimiter str,
}

impl<'haystack, 'delimiter> StrSplit<'haystack, 'delimiter> {
    /// What is left to cut, as UTF-8 bytes; nothing once the haystack is
    /// exhausted.
    pub closed spec fn spec_remainder(&self) -> Option<Seq<u8>> {
        match self.remainder {
            Some(remainder) => Some(remainder.spec_bytes()),
            None => None,
        }
    }

    /// The delimiter, as UTF-8 bytes.
    pub closed spec fn spec_delimiter(&self) -> Seq<u8> {
        self.delimiter.spec_bytes()
    }

    /// A splitter over all of `haystack`.
    pub fn new(haystack: &'haystack str, delimiter: &'delimiter str) -> (split: Self)
        ensures
            split.spec_remainder() == Some(haystack.spec_bytes()),
            split.spec_delimiter() == delimiter.spec_bytes(),
    {
        Self { remainder: Some(haystack), delimiter }
    }

    /// The piece before the next occurrence of the delimiter; once no
    /// occurrence is left, the rest of the haystack in one piece, and
    /// after that nothing. A haystack that ends with the delimiter thus
    /// yields an empty final piece.
    pub fn next(&mut self) -> (r: Option<&'haystack str>)
        ensures
            final(self).spec_delimiter() == old(self).spec_delimiter(),
            old(self).spec_remainder() is None ==> r is None
                && final(self).spec_remainder() is None,
            old(self).spec_remainder() matches Some(rem) ==> {
                &&& r matches Some(head) && head.spec_bytes() == split_head(
                    rem,
                    old(self).spec_delimiter(),
                )
                &&& final(self).spec_remainder() == split_rest(rem, old(self).spec_delimiter())
            },
    {
        let remainder = match self.remainder {
            Some(remainder) => remainder,
            None => {
                return None;
            },
        };

        match find_match(remainder, self.delimiter) {
            Some(i) => {
                proof {
                    let i0 = choose|j: int|
                        first_match_at(remainder.spec_bytes(), self.delimiter.spec_bytes(), j);
                    lemma_first_match_unique(
                        remainder.spec_bytes(),
                        self.delimiter.spec_bytes(),
                        i as int,
                        i0,
                    );
                }
                let (head, rest) = split_around(remainder, i, self.delimiter.as_bytes().len());
                self.remainder = Some(rest);
                Some(head)
            },
            None => self.remainder.take(),
        }
    }
}

/// The piece of `s` that stands before the first occurrence of `c`; all of
/// `s` when `c` does not occur in it.
pub fn sub_string_before<'a>(s: &'a str, c: char) -> (r: &'a str)
    ensures
        r.spec_bytes() == split_head(s.spec_bytes(), encode_utf8(seq![c])),
{
    let delimiter = char_to_string(c);
    let mut split = StrSplit::new(s, delimiter.as_str());
    match split.next() {
        Some(head) => head,
        None => vstd::pervasive::unreached(),
    }
}

} // verus!
