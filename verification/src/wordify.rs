//! Spelling out the numbers from one to 999.

use vstd::prelude::*;
use crate::text::{append_str, chars_of, decimal, decimal_chars, same_text, string_of, substring};

verus! {

/// The word for a single digit; the digit zero is passed over in silence.
pub open spec fn digit_word(s: Seq<char>) -> Option<Seq<char>> {
    if s == "0"@ {
        Some(""@)
    } else if s == "1"@ {
        Some("one"@)
    } else if s == "2"@ {
        Some("two"@)
    } else if s == "3"@ {
        Some("three"@)
    } else if s == "4"@ {
        Some("four"@)
    } else if s == "5"@ {
        Some("five"@)
    } else if s == "6"@ {
        Some("six"@)
    } else if s == "7"@ {
        Some("seven"@)
    } else if s == "8"@ {
        Some("eight"@)
    } else if s == "9"@ {
        Some("nine"@)
    } else {
        None
    }
}

/// The word for the tens that a digit from two to nine counts.
pub open spec fn tens_word(s: Seq<char>) -> Option<Seq<char>> {
    if s == "2"@ {
        Some("twenty"@)
    } else if s == "3"@ {
        Some("thirty"@)
    } else if s == "4"@ {
        Some("fourty"@)
    } else if s == "5"@ {
        Some("fifty"@)
    } else if s == "6"@ {
        Some("sixty"@)
    } else if s == "7"@ {
        Some("seventy"@)
    } else if s == "8"@ {
        Some("eighty"@)
    } else if s == "9"@ {
        Some("ninety"@)
    } else {
        None
    }
}

/// The word for a number from ten to nineteen.
pub open spec fn teen_word(s: Seq<char>) -> Option<Seq<char>> {
    if s == "10"@ {
        Some("ten"@)
    } else if s == "11"@ {
        Some("eleven"@)
    } else if s == "12"@ {
        Some("twelve"@)
    } else if s == "13"@ {
        Some("thirteen"@)
    } else if s == "14"@ {
        Some("fourteen"@)
    } else if s == "15"@ {
        Some("fifteen"@)
    } else if s == "16"@ {
        Some("sixteen"@)
    } else if s == "17"@ {
        Some("seventeen"@)
    } else if s == "18"@ {
        Some("eighteen"@)
    } else if s == "19"@ {
        Some("nineteen"@)
    } else {
        None
    }
}

/// Whether a numeral can be spelled as a number of two digits: it is one of
/// ten to nineteen, or it begins with a digit from two to nine and another
/// digit.
pub open spec fn two_digits_spellable(s: Seq<char>) -> bool {
    &&& s.len() >= 2
    &&& if s.subrange(0, 1) == "1"@ {
        teen_word(s) is Some
    } else {
        tens_word(s.subrange(0, 1)) is Some && digit_word(s.subrange(1, 2)) is Some
    }
}

/// The words for a number of two digits, read from the first two characters
/// of its numeral.
pub open spec fn two_digit_words(s: Seq<char>) -> Seq<char> {
    if s.subrange(0, 1) == "1"@ {
        teen_word(s).unwrap()
    } else {
        let tens = tens_word(s.subrange(0, 1)).unwrap();
        let ones = digit_word(s.subrange(1, 2)).unwrap();
        if ones.len() == 0 {
            tens
        } else {
            tens + " "@ + ones
        }
    }
}

/// The words for a number from its numeral of one, two or three digits.
pub open spec fn number_words(s: Seq<char>) -> Seq<char> {
    if s.len() == 1 {
        digit_word(s).unwrap()
    } else if s.len() == 2 {
        two_digit_words(s)
    } else {
        digit_word(s.subrange(0, 1)).unwrap() + " hundred "@ + two_digit_words(s.subrange(1, 3))
    }
}

/// Whether a number is spelled out: all from one to 999 but those of three
/// digits with a zero in the middle.
pub open spec fn spelled_out(num: nat) -> bool {
    1 <= num < 1000 && (num >= 100 ==> (num / 10) % 10 != 0)
}

/// The word for a single digit, given as a numeral.
pub fn digit_to_string(s: &str) -> (word: Option<&'static str>)
    ensures
        match word {
            Some(w) => digit_word(s@) == Some(w@),
            None => digit_word(s@).is_none(),
        },
{
    if same_text(s, "0") {
        Some("")
    } else if same_text(s, "1") {
        Some("one")
    } else if same_text(s, "2") {
        Some("two")
    } else if same_text(s, "3") {
        Some("three")
    } else if same_text(s, "4") {
        Some("four")
    } else if same_text(s, "5") {
        Some("five")
    } else if same_text(s, "6") {
        Some("six")
    } else if same_text(s, "7") {
        Some("seven")
    } else if same_text(s, "8") {
        Some("eight")
    } else if same_text(s, "9") {
        Some("nine")
    } else {
        None
    }
}

/// The word for the tens that a digit from two to nine counts, given as a
/// numeral.
pub fn tens_digit_to_string(s: &str) -> (word: Option<&'static str>)
    ensures
        match word {
            Some(w) => tens_word(s@) == Some(w@),
            None => tens_word(s@).is_none(),
        },
{
    if same_text(s, "2") {
        Some("twenty")
    } else if same_text(s, "3") {
        Some("thirty")
    } else if same_text(s, "4") {
        Some("fourty")
    } else if same_text(s, "5") {
        Some("fifty")
    } else if same_text(s, "6") {
        Some("sixty")
    } else if same_text(s, "7") {
        Some("seventy")
    } else if same_text(s, "8") {
        Some("eighty")
    } else if same_text(s, "9") {
        Some("ninety")
    } else {
        None
    }
}

fn teen_to_string(s: &str) -> (word: Option<&'static str>)
    ensures
        match word {
            Some(w) => teen_word(s@) == Some(w@),
            None => teen_word(s@).is_none(),
        },
{
    if same_text(s, "10") {
        Some("ten")
    } else if same_text(s, "11") {
        Some("eleven")
    } else if same_text(s, "12") {
        Some("twelve")
    } else if same_text(s, "13") {
        Some("thirteen")
    } else if same_text(s, "14") {
        Some("fourteen")
    } else if same_text(s, "15") {
        Some("fifteen")
    } else if same_text(s, "16") {
        Some("sixteen")
    } else if same_text(s, "17") {
        Some("seventeen")
    } else if same_text(s, "18") {
        Some("eighteen")
    } else if same_text(s, "19") {
        Some("nineteen")
    } else {
        None
    }
}

/// The words for a number of two digits, given as a numeral.
pub fn double_digit_to_string(s: &str) -> (words: Option<String>)
    requires
        two_digits_spellable(s@),
    ensures
        words is Some,
        words.unwrap()@ == two_digit_words(s@),
{
    let chars = chars_of(s);
    let first = substring(&chars, 0, 1);
    if same_text(first.as_str(), "1") {
        match teen_to_string(s) {
            Some(word) => Some(string_of(&chars_of(word))),
            None => None,
        }
    } else {
        let second = substring(&chars, 1, 2);
        let tens = match tens_digit_to_string(first.as_str()) {
            Some(word) => word,
            None => { return None; },
        };
        let ones = match digit_to_string(second.as_str()) {
            Some(word) => word,
            None => { return None; },
        };
        let mut words = chars_of(tens);
        if ones.unicode_len() > 0 {
            append_str(&mut words, " ");
            append_str(&mut words, ones);
        }
        Some(string_of(&words))
    }
}

/// The numerals of the spelled-out numbers are those that the words are
/// defined for.
pub proof fn lemma_numerals_spellable(num: nat)
    requires
        spelled_out(num),
    ensures
        decimal(num).len() == if num < 10 {
            1nat
        } else if num < 100 {
            2nat
        } else {
            3nat
        },
        num < 10 ==> digit_word(decimal(num)) is Some,
        10 <= num < 100 ==> two_digits_spellable(decimal(num)),
        100 <= num ==> digit_word(decimal(num).subrange(0, 1)) is Some && two_digits_spellable(
            decimal(num).subrange(1, 3),
        ),
{
    reveal_strlit("0");
    reveal_strlit("1");
    reveal_strlit("2");
    reveal_strlit("3");
    reveal_strlit("4");
    reveal_strlit("5");
    reveal_strlit("6");
    reveal_strlit("7");
    reveal_strlit("8");
    reveal_strlit("9");
    reveal_strlit("10");
    reveal_strlit("11");
    reveal_strlit("12");
    reveal_strlit("13");
    reveal_strlit("14");
    reveal_strlit("15");
    reveal_strlit("16");
    reveal_strlit("17");
    reveal_strlit("18");
    reveal_strlit("19");
    reveal_with_fuel(decimal, 3);
    let s = decimal(num);
    if num < 10 {
        assert(s =~= seq![crate::text::digit_char(num)]);
        assert(digit_word(s) is Some) by {
            lemma_one_digit_numerals(s);
        }
    } else if num < 100 {
        lemma_two_digit_numerals(s, num);
    } else {
        let rest = s.subrange(1, 3);
        assert(s.subrange(0, 1) =~= seq![crate::text::digit_char(num / 100)]);
        lemma_one_digit_numerals(s.subrange(0, 1));
        assert(rest =~= decimal(num % 100)) by {
            assert(num % 100 >= 10);
            assert((num % 100) / 10 == (num / 10) % 10);
            assert((num % 100) % 10 == num % 10);
        }
        lemma_two_digit_numerals(rest, num % 100);
    }
}

proof fn lemma_one_digit_numerals(s: Seq<char>)
    requires
        s.len() == 1,
        crate::text::is_digit(s[0]),
    ensures
        digit_word(s) is Some,
        s[0] != '0' && s[0] != '1' ==> tens_word(s) is Some,
        s[0] == '1' <==> s == "1"@,
{
    reveal_strlit("0");
    reveal_strlit("1");
    reveal_strlit("2");
    reveal_strlit("3");
    reveal_strlit("4");
    reveal_strlit("5");
    reveal_strlit("6");
    reveal_strlit("7");
    reveal_strlit("8");
    reveal_strlit("9");
    let c = s[0];
    if c == '0' {
        assert(s =~= "0"@);
    } else if c == '1' {
        assert(s =~= "1"@);
    } else if c == '2' {
        assert(s =~= "2"@);
    } else if c == '3' {
        assert(s =~= "3"@);
    } else if c == '4' {
        assert(s =~= "4"@);
    } else if c == '5' {
        assert(s =~= "5"@);
    } else if c == '6' {
        assert(s =~= "6"@);
    } else if c == '7' {
        assert(s =~= "7"@);
    } else if c == '8' {
        assert(s =~= "8"@);
    } else {
        assert(s =~= "9"@);
    }
}

proof fn lemma_two_digit_numerals(s: Seq<char>, n: nat)
    requires
        10 <= n < 100,
        s == decimal(n),
    ensures
        s.len() == 2,
        two_digits_spellable(s),
{
    reveal_strlit("10");
    reveal_strlit("11");
    reveal_strlit("12");
    reveal_strlit("13");
    reveal_strlit("14");
    reveal_strlit("15");
    reveal_strlit("16");
    reveal_strlit("17");
    reveal_strlit("18");
    reveal_strlit("19");
    reveal_with_fuel(decimal, 2);
    assert(s =~= seq![crate::text::digit_char(n / 10), crate::text::digit_char(n % 10)]);
    lemma_one_digit_numerals(s.subrange(0, 1));
    lemma_one_digit_numerals(s.subrange(1, 2));
    if s.subrange(0, 1) == "1"@ {
        assert(n / 10 == 1);
        let d = n % 10;
        if d == 0 {
            assert(s =~= "10"@);
        } else if d == 1 {
            assert(s =~= "11"@);
        } else if d == 2 {
            assert(s =~= "12"@);
        } else if d == 3 {
            assert(s =~= "13"@);
        } else if d == 4 {
            assert(s =~= "14"@);
        } else if d == 5 {
            assert(s =~= "15"@);
        } else if d == 6 {
            assert(s =~= "16"@);
        } else if d == 7 {
            assert(s =~= "17"@);
        } else if d == 8 {
            assert(s =~= "18"@);
        } else {
            assert(s =~= "19"@);
        }
    }
}

/// Spells out a number from one to 999.
pub fn wordify(num: u32) -> (words: Result<String, &'static str>)
    requires
        num == 0 || num >= 1000 || spelled_out(num as nat),
    ensures
        match words {
            Ok(text) => 1 <= num < 1000 && text@ == number_words(decimal(num as nat)),
            Err(complaint) => (num == 0 || num >= 1000) && complaint@ == "Invalid Number"@,
        },
{
    if num == 0 || num >= 1000 {
        return Err("Invalid Number");
    }
    let num_string = decimal_chars(num as u64);
    proof {
        lemma_numerals_spellable(num as nat);
    }
    if num_string.len() == 1 {
        let numeral = string_of(&num_string);
        match digit_to_string(numeral.as_str()) {
            Some(word) => Ok(string_of(&chars_of(word))),
            None => Err("Invalid Number"),
        }
    } else if num_string.len() == 2 {
        let numeral = string_of(&num_string);
        match double_digit_to_string(numeral.as_str()) {
            Some(words) => Ok(words),
            None => Err("Invalid Number"),
        }
    } else {
        let hundreds = substring(&num_string, 0, 1);
        let rest = substring(&num_string, 1, 3);
        let mut words = match digit_to_string(hundreds.as_str()) {
            Some(word) => chars_of(word),
            None => { return Err("Invalid Number"); },
        };
        append_str(&mut words, " hundred ");
        match double_digit_to_string(rest.as_str()) {
            Some(tail) => {
                append_str(&mut words, tail.as_str());
            },
            None => { return Err("Invalid Number"); },
        }
        Ok(string_of(&words))
    }
}

} // verus!
