//! Whether one number has a digit three times in a row that another number
//! has twice in a row.

use vstd::prelude::*;
use crate::pattern::{all_groups, captures_iter, found_in, is_match};
use crate::text::{chars_of, decimal, decimal_chars, string_of, substring};

verus! {

/// The pattern for three digits in a row.
pub open spec fn three_digits() -> Seq<char> {
    "(\\d{3})"@
}

/// Whether a match is the same character three times.
pub open spec fn is_triple(groups: Seq<Option<Seq<char>>>) -> bool {
    &&& groups.len() >= 1
    &&& groups[0] is Some
    &&& groups[0].unwrap().len() == 3
    &&& groups[0].unwrap()[0] == groups[0].unwrap()[1]
    &&& groups[0].unwrap()[1] == groups[0].unwrap()[2]
}

/// Whether the match at position `i` is a triple whose first two characters,
/// read as a pattern, are found in the text.
pub open spec fn doubled_at(matches: Seq<Seq<Option<Seq<char>>>>, text: Seq<char>, i: int) -> bool {
    &&& 0 <= i < matches.len()
    &&& is_triple(matches[i])
    &&& found_in(matches[i][0].unwrap().subrange(0, 2), text) == Some(true)
}

/// Whether one of the matches is a triple whose first two characters are
/// found in the text.
pub open spec fn triple_doubled(matches: Seq<Seq<Option<Seq<char>>>>, text: Seq<char>) -> bool {
    exists|i: int| doubled_at(matches, text, i)
}

/// Looks among the matches for the same digit three times in a row, and for
/// two of that digit in a row in the text.
pub fn triple_doubled_in(matches: &Vec<Vec<Option<String>>>, text: &str) -> (found: bool)
    ensures
        found == triple_doubled(matches.deep_view(), text@),
{
    let mut i: usize = 0;
    while i < matches.len()
        invariant
            i <= matches.len(),
            forall|k: int| 0 <= k < i ==> !doubled_at(matches.deep_view(), text@, k),
        decreases matches.len() - i,
    {
        let groups = &matches[i];
        assert(matches.deep_view()[i as int] == groups.deep_view());
        if groups.len() >= 1 {
            assert(groups.deep_view()[0] == groups[0].deep_view());
            match &groups[0] {
                Some(regex_match) => {
                    let chars = chars_of(regex_match.as_str());
                    if chars.len() == 3 && chars[0] == chars[1] && chars[1] == chars[2] {
                        let second_layer_regex = substring(&chars, 0, 2);
                        match is_match(second_layer_regex.as_str(), text) {
                            Some(true) => {
                                assert(doubled_at(matches.deep_view(), text@, i as int));
                                return true;
                            },
                            _ => {},
                        }
                    }
                },
                None => {},
            }
        }
        i += 1;
    }
    false
}

/// Whether the first number has, from its first digit on in steps of three,
/// the same digit three times in a row, and the second number has that digit
/// twice in a row.
pub fn triple_double(num1: u64, num2: u64) -> (found: bool)
    ensures
        found == match all_groups(three_digits(), decimal(num1 as nat)) {
            Some(matches) => triple_doubled(matches, decimal(num2 as nat)),
            None => false,
        },
{
    let string1 = string_of(&decimal_chars(num1));
    let string2 = string_of(&decimal_chars(num2));
    match captures_iter("(\\d{3})", string1.as_str()) {
        Some(matches) => triple_doubled_in(&matches, string2.as_str()),
        None => false,
    }
}

} // verus!
