//! Moving between strings and sequences of characters.

use vstd::prelude::*;
use crate::seqs::{lemma_position_at, position};

verus! {

/// The strings of a vector as the contracts see them.
pub open spec fn string_views(strings: Seq<String>) -> Seq<Seq<char>> {
    strings.map_values(|s: String| s@)
}

/// `String::push` appends the given character to the end of the string.
pub assume_specification[ String::push ](s: &mut String, ch: char)
    ensures
        final(s)@ == old(s)@.push(ch),
;

/// The characters of a string, in order.
pub fn chars_of(s: &str) -> (v: Vec<char>)
    ensures
        v@ == s@,
{
    let mut v: Vec<char> = Vec::new();
    for c in it: s.chars()
        invariant
            it.seq() == s@,
            v@ == s@.take(it.index() as int),
    {
        v.push(c);
    }
    v
}

/// The string made of the characters of `chars` from index `from` up to,
/// not including, index `to`.
pub fn string_of(chars: &Vec<char>, from: usize, to: usize) -> (s: String)
    requires
        from <= to <= chars.len(),
    ensures
        s@ == chars@.subrange(from as int, to as int),
{
    let mut s = String::new();
    let mut i: usize = from;
    while i < to
        invariant
            from <= i <= to <= chars.len(),
            s@ == chars@.subrange(from as int, i as int),
        decreases to - i,
    {
        s.push(chars[i]);
        i += 1;
        assert(chars@.subrange(from as int, i as int) == chars@.subrange(
            from as int,
            i - 1,
        ).push(chars@[i - 1]));
    }
    s
}

/// The index at which `s` first stands among `strings`, if it is among them.
pub fn find_string(strings: &Vec<String>, s: &String) -> (found: Option<usize>)
    ensures
        match found {
            Some(index) => index < strings.len() && strings[index as int]@ == s@ && index
                == position(string_views(strings@), s@),
            None => !string_views(strings@).contains(s@),
        },
{
    let ghost views = string_views(strings@);
    let mut i: usize = 0;
    while i < strings.len()
        invariant
            i <= strings.len(),
            views == string_views(strings@),
            forall|j: int| 0 <= j < i ==> views[j] != s@,
        decreases strings.len() - i,
    {
        if strings[i] == *s {
            proof {
                lemma_position_at(views, s@, i as int);
            }
            return Some(i);
        }
        i += 1;
    }
    None
}

} // verus!
