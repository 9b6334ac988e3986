//! Strings as sequences of characters.

use vstd::prelude::*;
use vstd::std_specs::iter::IteratorSpec;

verus! {

/// The characters of `s`, in their order.
pub fn chars_of(s: &str) -> (chars: Vec<char>)
    ensures
        chars@ == s@,
{
    broadcast use vstd::string::group_string_axioms;

    let mut chars: Vec<char> = Vec::new();
    let mut rest = s.chars();
    loop
        invariant
            rest.obeys_prophetic_iter_laws(),
            rest.decrease() is Some,
            chars@ + rest.remaining() == s@,
        decreases rest.decrease()->0,
    {
        let ghost before = rest.remaining();
        match rest.next() {
            Some(c) => {
                chars.push(c);
                assert(chars@ + rest.remaining() =~= (chars@.drop_last() + before));
            },
            None => {
                assert(chars@ =~= s@);
                return chars;
            },
        }
    }
}

/// The views of strings, in their order.
pub open spec fn string_views(strings: Seq<String>) -> Seq<Seq<char>> {
    strings.map_values(|s: String| s@)
}

/// A copy of the strings.
pub fn clone_strings(strings: &Vec<String>) -> (copy: Vec<String>)
    ensures
        string_views(copy@) == string_views(strings@),
{
    let mut copy: Vec<String> = Vec::new();
    let mut i: usize = 0;
    while i < strings.len()
        invariant
            i <= strings.len(),
            string_views(copy@) =~= string_views(strings@).take(i as int),
        decreases strings.len() - i,
    {
        let ghost before = copy@;
        let s = strings[i].clone();
        copy.push(s);
        assert(string_views(copy@) =~= string_views(before).push(s@));
        i += 1;
    }
    assert(string_views(strings@).take(i as int) =~= string_views(strings@));
    copy
}

/// Whether `wanted` is among the strings.
pub fn contains_string(strings: &Vec<String>, wanted: &String) -> (found: bool)
    ensures
        found == string_views(strings@).contains(wanted@),
{
    let mut i: usize = 0;
    while i < strings.len()
        invariant
            i <= strings.len(),
            forall|j: int| 0 <= j < i ==> string_views(strings@)[j] != wanted@,
        decreases strings.len() - i,
    {
        if strings[i] == *wanted {
            assert(string_views(strings@)[i as int] == wanted@);
            return true;
        }
        i += 1;
    }
    false
}

} // verus!
