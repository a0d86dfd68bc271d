//! Turning the long words of a sentence back to front.

use vstd::prelude::*;
use crate::text::{
    byte_len,
    chars_of,
    join_chars,
    joined,
    reversed,
    split_chars,
    split_on,
    string_of,
    takes_bytes,
    texts,
};

verus! {

/// A word as it stands after the spin: back to front where it takes five
/// bytes or more in UTF-8, else unchanged.
pub open spec fn spun(word: Seq<char>) -> Seq<char> {
    if byte_len(word) >= 5 {
        word.reverse()
    } else {
        word
    }
}

/// The words of a sentence after the spin.
pub open spec fn spun_words(words: Seq<Seq<char>>) -> Seq<Seq<char>> {
    words.map_values(|word: Seq<char>| spun(word))
}

/// Turns every word of five bytes or more back to front. Words are what
/// stands between single spaces, and stay in their places.
pub fn spin_words(input: &str) -> (output: String)
    ensures
        output@ == joined(spun_words(split_on(input@, ' ')), " "@),
{
    let words = split_chars(&chars_of(input), ' ');
    let mut turned: Vec<Vec<char>> = Vec::new();
    let mut i: usize = 0;
    while i < words.len()
        invariant
            i <= words.len(),
            turned.len() == i,
            forall|k: int| 0 <= k < i ==> (#[trigger] turned@[k])@ == spun(words@[k]@),
        decreases words.len() - i,
    {
        if takes_bytes(&words[i], 5) {
            turned.push(reversed(&words[i]));
        } else {
            turned.push(words[i].clone());
        }
        i += 1;
    }
    assert(texts(turned@) =~= spun_words(texts(words@)));
    string_of(&join_chars(&turned, " "))
}

} // verus!
