use vstd::prelude::*;
use vstd::string::StringSliceAdditionalSpecFns;
use vstd::utf8::encode_utf8;
use core::ops::Range;

verus! {

/// One proposed correction to a text: remove a byte range, or put another
/// string in its place.
pub enum Change {
    Delete(Range<usize>),
    Replace(Range<usize>, String),
}

/// Something that can look over a text and propose corrections.
pub trait Spellchecker {
    /// The corrections this checker proposes for `input`. Nothing is
    /// promised of them: each checker has its own opinion.
    fn check(&self, input: &str) -> Vec<Change>;
}

/// Record a change without enacting it: the text stays exactly as it was.
pub fn apply_change(_string: &mut String, _change: Change)
    ensures
        final(_string)@ == old(_string)@,
{
}

/// Run a checker picked at compile time over `input`. Since changes are
/// recorded but never enacted, the result reads as the input did.
pub fn spellcheck_static<C: Spellchecker>(input: &str, spellchecker: C) -> (r: String)
    ensures
        r@ == input@,
{
    let mut result = input.to_owned();
    let mut changes = spellchecker.check(input);
    while changes.len() > 0
        invariant
            result@ == input@,
        decreases changes@.len(),
    {
        let change = changes.remove(0);
        apply_change(&mut result, change);
    }
    result
}

/// As `spellcheck_static`, for a checker picked at run time.
pub fn spellcheck_dynamic(input: &str, spellchecker: &dyn Spellchecker) -> (r: String)
    ensures
        r@ == input@,
{
    let mut result = input.to_owned();
    let mut changes = spellchecker.check(input);
    while changes.len() > 0
        invariant
            result@ == input@,
        decreases changes@.len(),
    {
        let change = changes.remove(0);
        apply_change(&mut result, change);
    }
    result
}

/// The byte range that `word` occupies when it starts at `index`.
pub fn string_range(index: usize, word: &str) -> (r: Range<usize>)
    requires
        index + word.spec_bytes().len() <= usize::MAX,
    ensures
        r.start == index,
        r.end == index + word.spec_bytes().len(),
{
    let len = word.as_bytes().len();
    index..index + len
}

/// A proposal to remove `space` where it stands at `index`.
pub fn delete_string(index: usize, space: &str) -> (r: Change)
    requires
        index + space.spec_bytes().len() <= usize::MAX,
    ensures
        r matches Change::Delete(range) && range.start == index && range.end == index
            + space.spec_bytes().len(),
{
    Change::Delete(string_range(index, space))
}

/// A checker that proposes removing every space.
pub struct DeleteSpacesSpellchecker;

/// One space is one byte of UTF-8.
proof fn lemma_space_byte_len()
    ensures
        encode_utf8(" "@).len() == 1,
{
    reveal_strlit(" ");
    assert(" "@ =~= seq![' ']);
    vstd::utf8::char_is_scalar(' ');
    assert(encode_utf8(seq![' ']).len() == 1) by {
        reveal_with_fuel(encode_utf8, 2);
        assert(seq![' '].drop_first() =~= Seq::<char>::empty());
    }
}

impl Spellchecker for DeleteSpacesSpellchecker {
    /// Propose one deletion for each space, at its byte position.
    fn check(&self, input: &str) -> Vec<Change> {
        let space = " ";
        proof {
            lemma_space_byte_len();
        }
        let bytes = input.as_bytes();
        let mut changes: Vec<Change> = Vec::new();
        let mut i: usize = 0;
        while i < bytes.len()
            invariant
                encode_utf8(space@).len() == 1,
            decreases bytes@.len() - i,
        {
            if bytes[i] == 32 {
                changes.push(delete_string(i, space));
            }
            i = i + 1;
        }
        changes
    }
}

/// A checker that never proposes anything.
pub struct NoopSpellchecker;

impl Spellchecker for NoopSpellchecker {
    fn check(&self, _input: &str) -> Vec<Change> {
        vec![]
    }
}

} // verus!
