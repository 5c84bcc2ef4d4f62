use vstd::prelude::*;
use vstd::utf8::encode_utf8;

verus! {

/// A reference to the least element of a non-empty slice; of equal least
/// elements, the earliest one.
pub fn smallest(v: &[i32]) -> (s: &i32)
    requires
        v@.len() > 0,
    ensures
        forall|i: int| 0 <= i < v@.len() ==> *s <= v@[i],
        exists|i: int|
            #![auto]
            0 <= i < v@.len() && *s == v@[i] && (forall|j: int| 0 <= j < i ==> v@[j] > *s),
{
    let mut min_index: usize = 0;
    let mut idx: usize = 1;
    while idx < v.len()
        invariant
            1 <= idx <= v@.len(),
            min_index < idx,
            forall|j: int| 0 <= j < idx ==> v@[min_index as int] <= v@[j],
            forall|j: int| 0 <= j < min_index ==> v@[j] > v@[min_index as int],
        decreases v@.len() - idx,
    {
        if v[idx] < v[min_index] {
            min_index = idx;
        }
        idx = idx + 1;
    }
    &v[min_index]
}

/// True when `prefix` starts `s`, byte for byte.
fn bytes_have_prefix(s: &[u8], prefix: &[u8]) -> (r: bool)
    ensures
        r == prefix@.is_prefix_of(s@),
{
    if prefix.len() > s.len() {
        return false;
    }

    let mut j: usize = 0;
    while j < prefix.len()
        invariant
            j <= prefix@.len() <= s@.len(),
            forall|k: int| 0 <= k < j ==> s@[k] == prefix@[k],
        decreases prefix@.len() - j,
    {
        if s[j] != prefix[j] {
            assert(s@.subrange(0, prefix@.len() as int)[j as int] != prefix@[j as int]);
            return false;
        }
        j = j + 1;
    }
    assert(prefix@ =~= s@.subrange(0, prefix@.len() as int));
    true
}

/// A table of names searched front to back. Strings are compared by their
/// UTF-8 bytes, which for valid text is the same as comparing characters.
pub struct StringTable {
    pub elements: Vec<String>,
}

/// `prefix` starts `s`, with both texts taken as their UTF-8 bytes.
pub open spec fn starts_with(s: Seq<char>, prefix: Seq<char>) -> bool {
    encode_utf8(prefix).is_prefix_of(encode_utf8(s))
}

impl StringTable {
    /// The first element that `prefix` starts, or nothing when no element
    /// matches.
    pub fn find_by_prefix(&self, prefix: &str) -> (r: Option<&String>)
        ensures
            match r {
                Some(element) => exists|i: int|
                    #![auto]
                    {
                        &&& 0 <= i < self.elements@.len()
                        &&& *element == self.elements@[i]
                        &&& starts_with(self.elements@[i]@, prefix@)
                        &&& forall|j: int| 0 <= j < i ==> !starts_with(self.elements@[j]@, prefix@)
                    },
                None => forall|i: int| 0 <= i < self.elements@.len()
                    ==> !starts_with(#[trigger] self.elements@[i]@, prefix@),
            },
    {
        let mut i: usize = 0;
        while i < self.elements.len()
            invariant
                i <= self.elements@.len(),
                forall|j: int| 0 <= j < i ==> !starts_with(#[trigger] self.elements@[j]@, prefix@),
            decreases self.elements@.len() - i,
        {
            if bytes_have_prefix(self.elements[i].as_str().as_bytes(), prefix.as_bytes()) {
                return Some(&self.elements[i]);
            }
            i = i + 1;
        }
        None
    }
}

} // verus!
