use vstd::prelude::*;
use vstd::string::StringSliceAdditionalSpecFns;
use vstd::utf8::{
    encode_utf8_valid_utf8, is_char_boundary, is_char_boundary_iff_not_is_continuation_byte,
    is_char_boundary_start_end_of_seq, valid_utf8_split,
};

verus! {

/// Text is matched by its UTF-8 bytes: `needle` occurs in `hay` at byte
/// position `i` when the bytes agree there and both ends of the occurrence
/// fall on character boundaries.
pub open spec fn match_at(hay: Seq<u8>, needle: Seq<u8>, i: int) -> bool {
    &&& 0 <= i
    &&& i + needle.len() <= hay.len()
    &&& hay.subrange(i, i + needle.len() as int) == needle
    &&& is_char_boundary(hay, i)
    &&& is_char_boundary(hay, i + needle.len() as int)
}

/// `i` is the earliest position at which `needle` occurs in `hay`.
pub open spec fn first_match_at(hay: Seq<u8>, needle: Seq<u8>, i: int) -> bool {
    &&& match_at(hay, needle, i)
    &&& forall|j: int| 0 <= j < i ==> !match_at(hay, needle, j)
}

/// No two positions are both the earliest occurrence.
pub proof fn lemma_first_match_unique(hay: Seq<u8>, needle: Seq<u8>, i: int, j: int)
    requires
        first_match_at(hay, needle, i),
        first_match_at(hay, needle, j),
    ensures
        i == j,
{
}

/// What stands before the first occurrence of `delim` in `hay`; all of `hay`
/// when `delim` does not occur at all.
pub open spec fn split_head(hay: Seq<u8>, delim: Seq<u8>) -> Seq<u8> {
    if exists|i: int| first_match_at(hay, delim, i) {
        hay.subrange(0, choose|i: int| first_match_at(hay, delim, i))
    } else {
        hay
    }
}

/// What stands after the first occurrence of `delim` in `hay`; nothing when
/// `delim` does not occur at all.
pub open spec fn split_rest(hay: Seq<u8>, delim: Seq<u8>) -> Option<Seq<u8>> {
    if exists|i: int| first_match_at(hay, delim, i) {
        let i = choose|i: int| first_match_at(hay, delim, i);
        Some(hay.subrange(i + delim.len(), hay.len() as int))
    } else {
        None
    }
}

/// The pieces of `hay` between the occurrences of `delim`, in order: what
/// a splitter yields cut by cut, the final piece holding no occurrence. A
/// haystack without any occurrence is one piece.
pub open spec fn split_pieces(hay: Seq<u8>, delim: Seq<u8>) -> Seq<Seq<u8>>
    decreases hay.len()
        when delim.len() > 0
    via split_pieces_decreases
{
    match split_rest(hay, delim) {
        Some(rest) => seq![split_head(hay, delim)] + split_pieces(rest, delim),
        None => seq![hay],
    }
}

#[via_fn]
proof fn split_pieces_decreases(hay: Seq<u8>, delim: Seq<u8>) {
    if split_rest(hay, delim) is Some {
        let i = choose|i: int| first_match_at(hay, delim, i);
        assert(first_match_at(hay, delim, i));
    }
}

/// Relies on char::to_string: the string holding exactly the one character.
#[verifier::external_body]
pub fn char_to_string(c: char) -> (s: String)
    ensures
        s@ =~= seq![c],
{
    c.to_string()
}

/// True when `needle` occupies `hay[i ..]`, byte for byte.
fn subrange_eq(hay: &[u8], needle: &[u8], i: usize) -> (r: bool)
    requires
        i + needle@.len() <= hay@.len(),
    ensures
        r == (hay@.subrange(i as int, i + needle@.len()) == needle@),
{
    let hay_len = hay.len();
    let mut j: usize = 0;
    while j < needle.len()
        invariant
            hay_len == hay@.len(),
            i + needle@.len() <= hay@.len(),
            j <= needle@.len(),
            forall|k: int| 0 <= k < j ==> hay@[i + k] == needle@[k],
        decreases needle@.len() - j,
    {
        if hay[i + j] != needle[j] {
            assert(hay@.subrange(i as int, i + needle@.len())[j as int] != needle@[j as int]);
            return false;
        }
        j = j + 1;
    }
    assert(hay@.subrange(i as int, i + needle@.len()) =~= needle@);
    true
}

/// The byte position of the earliest occurrence of `needle` in `hay`, or
/// nothing when `needle` does not occur at all.
#[verifier::loop_isolation(false)]
pub fn find_match(hay: &str, needle: &str) -> (r: Option<usize>)
    ensures
        r matches Some(i) ==> first_match_at(hay.spec_bytes(), needle.spec_bytes(), i as int),
        r is None ==> forall|j: int| !match_at(hay.spec_bytes(), needle.spec_bytes(), j),
{
    let hay_bytes = hay.as_bytes();
    let needle_bytes = needle.as_bytes();
    if needle_bytes.len() > hay_bytes.len() {
        return None;
    }

    if needle_bytes.len() == 0 {
        // The empty needle matches right at the start.
        proof {
            encode_utf8_valid_utf8(hay@);
            assert(is_char_boundary(hay.spec_bytes(), 0));
            assert(hay.spec_bytes().subrange(0, 0) =~= needle.spec_bytes());
        }
        return Some(0);
    }

    let last = hay_bytes.len() - needle_bytes.len();
    let mut i: usize = 0;
    while i <= last
        invariant
            i <= last + 1,
            forall|j: int| 0 <= j < i ==> !match_at(hay.spec_bytes(), needle.spec_bytes(), j),
        decreases last + 1 - i,
    {
        let matched = subrange_eq(hay_bytes, needle_bytes, i) && hay.is_char_boundary(i)
            && hay.is_char_boundary(i + needle_bytes.len());
        if matched {
            return Some(i);
        }
        i = i + 1;
    }
    None
}

/// Split `s` just before and just after an occurrence of `dlen` bytes that
/// starts at byte position `i`: what stands before the occurrence, and what
/// stands after it.
pub fn split_around<'a>(s: &'a str, i: usize, dlen: usize) -> (r: (&'a str, &'a str))
    requires
        i + dlen <= s.spec_bytes().len(),
        is_char_boundary(s.spec_bytes(), i as int),
        is_char_boundary(s.spec_bytes(), i + dlen as int),
    ensures
        r.0.spec_bytes() == s.spec_bytes().subrange(0, i as int),
        r.1.spec_bytes() == s.spec_bytes().subrange(i + dlen, s.spec_bytes().len() as int),
{
    proof {
        encode_utf8_valid_utf8(s@);
    }
    let (head, with_delim) = s.split_at(i);
    proof {
        valid_utf8_split(s.spec_bytes(), i as int);
        assert(with_delim.spec_bytes()
            == s.spec_bytes().subrange(i as int, s.spec_bytes().len() as int));
        if dlen == 0 {
            assert(is_char_boundary(with_delim.spec_bytes(), 0));
        } else if i + dlen == s.spec_bytes().len() {
            is_char_boundary_start_end_of_seq(with_delim.spec_bytes());
        } else {
            is_char_boundary_iff_not_is_continuation_byte(s.spec_bytes(), i + dlen);
            assert(with_delim.spec_bytes()[dlen as int] == s.spec_bytes()[i + dlen]);
            is_char_boundary_iff_not_is_continuation_byte(
                with_delim.spec_bytes(),
                dlen as int,
            );
        }
    }
    let (_, rest) = with_delim.split_at(dlen);
    proof {
        assert(rest.spec_bytes() =~= s.spec_bytes().subrange(
            i + dlen,
            s.spec_bytes().len() as int,
        ));
    }
    (head, rest)
}

} // verus!
