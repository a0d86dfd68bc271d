//! Counting the vowels of a text.

use vstd::prelude::*;
use crate::text::chars_of;

verus! {

/// Whether a character is one of the five vowels, small or capital.
pub open spec fn is_vowel(c: char) -> bool {
    c == 'a' || c == 'e' || c == 'i' || c == 'o' || c == 'u' || c == 'A' || c == 'E' || c == 'I'
        || c == 'O' || c == 'U'
}

/// The number of vowels in a text.
pub open spec fn vowels_in(s: Seq<char>) -> nat
    decreases s.len(),
{
    if s.len() == 0 {
        0
    } else if is_vowel(s.last()) {
        vowels_in(s.drop_last()) + 1
    } else {
        vowels_in(s.drop_last())
    }
}

/// Tests whether a character is a vowel.
pub fn vowel(c: char) -> (b: bool)
    ensures
        b == is_vowel(c),
{
    c == 'a' || c == 'e' || c == 'i' || c == 'o' || c == 'u' || c == 'A' || c == 'E' || c == 'I'
        || c == 'O' || c == 'U'
}

/// Counts the vowels of a text.
pub fn vowel_count(some_string: &str) -> (counter: u32)
    requires
        vowels_in(some_string@) <= u32::MAX,
    ensures
        counter == vowels_in(some_string@),
{
    let chars = chars_of(some_string);
    let mut counter: u32 = 0;
    let mut i: usize = 0;
    while i < chars.len()
        invariant
            i <= chars.len(),
            chars@ == some_string@,
            vowels_in(chars@) <= u32::MAX,
            counter == vowels_in(chars@.take(i as int)),
            counter <= vowels_in(chars@),
        decreases chars.len() - i,
    {
        proof {
            assert(chars@.take(i + 1).drop_last() =~= chars@.take(i as int));
            lemma_vowels_grow(chars@, i + 1);
        }
        if vowel(chars[i]) {
            counter += 1;
        }
        i += 1;
    }
    assert(chars@.take(i as int) =~= chars@);
    counter
}

/// The start of a text has no more vowels than the whole.
pub proof fn lemma_vowels_grow(s: Seq<char>, k: int)
    requires
        0 <= k <= s.len(),
    ensures
        vowels_in(s.take(k)) <= vowels_in(s),
    decreases s.len(),
{
    if k < s.len() {
        lemma_vowels_grow(s.drop_last(), k);
        assert(s.drop_last().take(k) =~= s.take(k));
    } else {
        assert(s.take(k) =~= s);
    }
}

} // verus!
