//! Morse code for capital letters and digits.

use vstd::prelude::*;
use crate::text::{
    chars_of,
    join_chars,
    joined,
    same_text,
    split_whitespace,
    string_of,
    is_word,
    lemma_words_of_joined,
    texts,
    words_of,
};

verus! {

/// The Morse code of a capital letter or a digit.
pub open spec fn code_of(c: char) -> Option<Seq<char>> {
    if c == 'A' {
        Some(".-"@)
    } else if c == 'B' {
        Some("-..."@)
    } else if c == 'C' {
        Some("-.-."@)
    } else if c == 'D' {
        Some("-.."@)
    } else if c == 'E' {
        Some("."@)
    } else if c == 'F' {
        Some("..-."@)
    } else if c == 'G' {
        Some("--."@)
    } else if c == 'H' {
        Some("...."@)
    } else if c == 'I' {
        Some(".."@)
    } else if c == 'J' {
        Some(".---"@)
    } else if c == 'K' {
        Some("-.-"@)
    } else if c == 'L' {
        Some(".-.."@)
    } else if c == 'M' {
        Some("--"@)
    } else if c == 'N' {
        Some("-."@)
    } else if c == 'O' {
        Some("---"@)
    } else if c == 'P' {
        Some(".--."@)
    } else if c == 'Q' {
        Some("--.-"@)
    } else if c == 'R' {
        Some(".-."@)
    } else if c == 'S' {
        Some("..."@)
    } else if c == 'T' {
        Some("-"@)
    } else if c == 'U' {
        Some("..-"@)
    } else if c == 'V' {
        Some("...-"@)
    } else if c == 'W' {
        Some(".--"@)
    } else if c == 'X' {
        Some("-..-"@)
    } else if c == 'Y' {
        Some("-.--"@)
    } else if c == 'Z' {
        Some("--.."@)
    } else if c == '0' {
        Some("-----"@)
    } else if c == '1' {
        Some(".----"@)
    } else if c == '2' {
        Some("..---"@)
    } else if c == '3' {
        Some("...--"@)
    } else if c == '4' {
        Some("....-"@)
    } else if c == '5' {
        Some("....."@)
    } else if c == '6' {
        Some("-...."@)
    } else if c == '7' {
        Some("--..."@)
    } else if c == '8' {
        Some("---.."@)
    } else if c == '9' {
        Some("----."@)
    } else {
        None
    }
}

/// The capital letter or digit that a Morse code stands for.
pub open spec fn char_of(code: Seq<char>) -> Option<char> {
    if code == ".-"@ {
        Some('A')
    } else if code == "-..."@ {
        Some('B')
    } else if code == "-.-."@ {
        Some('C')
    } else if code == "-.."@ {
        Some('D')
    } else if code == "."@ {
        Some('E')
    } else if code == "..-."@ {
        Some('F')
    } else if code == "--."@ {
        Some('G')
    } else if code == "...."@ {
        Some('H')
    } else if code == ".."@ {
        Some('I')
    } else if code == ".---"@ {
        Some('J')
    } else if code == "-.-"@ {
        Some('K')
    } else if code == ".-.."@ {
        Some('L')
    } else if code == "--"@ {
        Some('M')
    } else if code == "-."@ {
        Some('N')
    } else if code == "---"@ {
        Some('O')
    } else if code == ".--."@ {
        Some('P')
    } else if code == "--.-"@ {
        Some('Q')
    } else if code == ".-."@ {
        Some('R')
    } else if code == "..."@ {
        Some('S')
    } else if code == "-"@ {
        Some('T')
    } else if code == "..-"@ {
        Some('U')
    } else if code == "...-"@ {
        Some('V')
    } else if code == ".--"@ {
        Some('W')
    } else if code == "-..-"@ {
        Some('X')
    } else if code == "-.--"@ {
        Some('Y')
    } else if code == "--.."@ {
        Some('Z')
    } else if code == "-----"@ {
        Some('0')
    } else if code == ".----"@ {
        Some('1')
    } else if code == "..---"@ {
        Some('2')
    } else if code == "...--"@ {
        Some('3')
    } else if code == "....-"@ {
        Some('4')
    } else if code == "....."@ {
        Some('5')
    } else if code == "-...."@ {
        Some('6')
    } else if code == "--..."@ {
        Some('7')
    } else if code == "---.."@ {
        Some('8')
    } else if code == "----."@ {
        Some('9')
    } else {
        None
    }
}

/// The Morse codes of the characters of a text.
pub open spec fn codes_of(s: Seq<char>) -> Seq<Seq<char>> {
    s.map_values(|c: char| code_of(c).unwrap())
}

/// The characters that a list of Morse codes stands for.
pub open spec fn chars_for(codes: Seq<Seq<char>>) -> Seq<char> {
    codes.map_values(|code: Seq<char>| char_of(code).unwrap())
}

/// Whether every character of the text has a Morse code.
pub open spec fn all_have_codes(s: Seq<char>) -> bool {
    forall|i: int| 0 <= i < s.len() ==> code_of(#[trigger] s[i]) is Some
}

/// Whether every word of the text is a Morse code.
pub open spec fn all_are_codes(s: Seq<char>) -> bool {
    forall|i: int| 0 <= i < words_of(s).len() ==> char_of(#[trigger] words_of(s)[i]) is Some
}

/// The Morse code of a character, if it has one.
pub fn morse_for(c: char) -> (code: Option<&'static str>)
    ensures
        match code {
            Some(text) => code_of(c) == Some(text@),
            None => code_of(c).is_none(),
        },
{
    match c {
        'A' => Some(".-"),
        'B' => Some("-..."),
        'C' => Some("-.-."),
        'D' => Some("-.."),
        'E' => Some("."),
        'F' => Some("..-."),
        'G' => Some("--."),
        'H' => Some("...."),
        'I' => Some(".."),
        'J' => Some(".---"),
        'K' => Some("-.-"),
        'L' => Some(".-.."),
        'M' => Some("--"),
        'N' => Some("-."),
        'O' => Some("---"),
        'P' => Some(".--."),
        'Q' => Some("--.-"),
        'R' => Some(".-."),
        'S' => Some("..."),
        'T' => Some("-"),
        'U' => Some("..-"),
        'V' => Some("...-"),
        'W' => Some(".--"),
        'X' => Some("-..-"),
        'Y' => Some("-.--"),
        'Z' => Some("--.."),
        '0' => Some("-----"),
        '1' => Some(".----"),
        '2' => Some("..---"),
        '3' => Some("...--"),
        '4' => Some("....-"),
        '5' => Some("....."),
        '6' => Some("-...."),
        '7' => Some("--..."),
        '8' => Some("---.."),
        '9' => Some("----."),
        _ => None,
    }
}

/// The character that a Morse code stands for, if it stands for one.
pub fn char_for(code: &str) -> (c: Option<char>)
    ensures
        c == char_of(code@),
{
    if same_text(code, ".-") {
        Some('A')
    } else if same_text(code, "-...") {
        Some('B')
    } else if same_text(code, "-.-.") {
        Some('C')
    } else if same_text(code, "-..") {
        Some('D')
    } else if same_text(code, ".") {
        Some('E')
    } else if same_text(code, "..-.") {
        Some('F')
    } else if same_text(code, "--.") {
        Some('G')
    } else if same_text(code, "....") {
        Some('H')
    } else if same_text(code, "..") {
        Some('I')
    } else if same_text(code, ".---") {
        Some('J')
    } else if same_text(code, "-.-") {
        Some('K')
    } else if same_text(code, ".-..") {
        Some('L')
    } else if same_text(code, "--") {
        Some('M')
    } else if same_text(code, "-.") {
        Some('N')
    } else if same_text(code, "---") {
        Some('O')
    } else if same_text(code, ".--.") {
        Some('P')
    } else if same_text(code, "--.-") {
        Some('Q')
    } else if same_text(code, ".-.") {
        Some('R')
    } else if same_text(code, "...") {
        Some('S')
    } else if same_text(code, "-") {
        Some('T')
    } else if same_text(code, "..-") {
        Some('U')
    } else if same_text(code, "...-") {
        Some('V')
    } else if same_text(code, ".--") {
        Some('W')
    } else if same_text(code, "-..-") {
        Some('X')
    } else if same_text(code, "-.--") {
        Some('Y')
    } else if same_text(code, "--..") {
        Some('Z')
    } else if same_text(code, "-----") {
        Some('0')
    } else if same_text(code, ".----") {
        Some('1')
    } else if same_text(code, "..---") {
        Some('2')
    } else if same_text(code, "...--") {
        Some('3')
    } else if same_text(code, "....-") {
        Some('4')
    } else if same_text(code, ".....") {
        Some('5')
    } else if same_text(code, "-....") {
        Some('6')
    } else if same_text(code, "--...") {
        Some('7')
    } else if same_text(code, "---..") {
        Some('8')
    } else if same_text(code, "----.") {
        Some('9')
    } else {
        None
    }
}

/// Writes a text of capital letters and digits in Morse code, with a space
/// between the codes.
pub fn encode_morse(morse_code: &str) -> (encoded: String)
    requires
        all_have_codes(morse_code@),
    ensures
        encoded@ == joined(codes_of(morse_code@), " "@),
{
    let chars = chars_of(morse_code);
    let mut codes: Vec<Vec<char>> = Vec::new();
    let mut i: usize = 0;
    while i < chars.len()
        invariant
            i <= chars.len(),
            chars@ == morse_code@,
            all_have_codes(chars@),
            codes.len() == i,
            forall|k: int| 0 <= k < i ==> (#[trigger] codes@[k])@ == code_of(chars@[k]).unwrap(),
        decreases chars.len() - i,
    {
        match morse_for(chars[i]) {
            Some(code) => {
                codes.push(chars_of(code));
            },
            None => {
                codes.push(Vec::new());
            },
        }
        i += 1;
    }
    assert(texts(codes@) =~= codes_of(morse_code@));
    string_of(&join_chars(&codes, " "))
}

/// Reads a text in Morse code: the codes are its words, and each stands for
/// one character.
pub fn decode_morse(morse_code: &str) -> (decoded: String)
    requires
        all_are_codes(morse_code@),
    ensures
        decoded@ == chars_for(words_of(morse_code@)),
{
    let words = split_whitespace(&chars_of(morse_code));
    let mut decoded: Vec<char> = Vec::new();
    let mut i: usize = 0;
    while i < words.len()
        invariant
            i <= words.len(),
            texts(words@) == words_of(morse_code@),
            all_are_codes(morse_code@),
            decoded.len() == i,
            forall|k: int| 0 <= k < i ==> #[trigger] decoded@[k] == char_of(words@[k]@).unwrap(),
        decreases words.len() - i,
    {
        let word = string_of(&words[i]);
        assert(texts(words@)[i as int] == words@[i as int]@);
        match char_for(word.as_str()) {
            Some(c) => {
                decoded.push(c);
            },
            None => {
                decoded.push(' ');
            },
        }
        i += 1;
    }
    assert(decoded@ =~= chars_for(texts(words@)));
    string_of(&decoded)
}


/// Reads a text in Morse code, where every one of its words is a Morse code.
pub fn try_decode_morse(morse_code: &str) -> (decoded: Option<String>)
    ensures
        match decoded {
            Some(text) => all_are_codes(morse_code@) && text@ == chars_for(words_of(morse_code@)),
            None => !all_are_codes(morse_code@),
        },
{
    let words = split_whitespace(&chars_of(morse_code));
    let mut i: usize = 0;
    while i < words.len()
        invariant
            i <= words.len(),
            texts(words@) == words_of(morse_code@),
            forall|k: int| 0 <= k < i ==> char_of(#[trigger] words_of(morse_code@)[k]) is Some,
        decreases words.len() - i,
    {
        assert(texts(words@)[i as int] == words@[i as int]@);
        if char_for(string_of(&words[i]).as_str()).is_none() {
            return None;
        }
        i += 1;
    }
    Some(decode_morse(morse_code))
}


/// The first `n` signals of a code read as a number in binary: a leading
/// one, then zero for a dot and one for a dash. Different codes give
/// different numbers.
pub open spec fn signal_number(code: Seq<char>, n: nat) -> nat
    decreases n,
{
    if n == 0 {
        1
    } else {
        2 * signal_number(code, (n - 1) as nat) + if code[n - 1] == '-' {
            1nat
        } else {
            0nat
        }
    }
}

/// A Morse code is a word of dots and dashes, and stands for the character
/// whose code it is.
pub proof fn lemma_code_is_read_back(c: char)
    requires
        code_of(c) is Some,
    ensures
        is_word(code_of(c).unwrap()),
        char_of(code_of(c).unwrap()) == Some(c),
{
    reveal_with_fuel(signal_number, 6);
    reveal_strlit(".-");
    assert(signal_number(".-"@, 2) == 5);
    reveal_strlit("-...");
    assert(signal_number("-..."@, 4) == 24);
    reveal_strlit("-.-.");
    assert(signal_number("-.-."@, 4) == 26);
    reveal_strlit("-..");
    assert(signal_number("-.."@, 3) == 12);
    reveal_strlit(".");
    assert(signal_number("."@, 1) == 2);
    reveal_strlit("..-.");
    assert(signal_number("..-."@, 4) == 18);
    reveal_strlit("--.");
    assert(signal_number("--."@, 3) == 14);
    reveal_strlit("....");
    assert(signal_number("...."@, 4) == 16);
    reveal_strlit("..");
    assert(signal_number(".."@, 2) == 4);
    reveal_strlit(".---");
    assert(signal_number(".---"@, 4) == 23);
    reveal_strlit("-.-");
    assert(signal_number("-.-"@, 3) == 13);
    reveal_strlit(".-..");
    assert(signal_number(".-.."@, 4) == 20);
    reveal_strlit("--");
    assert(signal_number("--"@, 2) == 7);
    reveal_strlit("-.");
    assert(signal_number("-."@, 2) == 6);
    reveal_strlit("---");
    assert(signal_number("---"@, 3) == 15);
    reveal_strlit(".--.");
    assert(signal_number(".--."@, 4) == 22);
    reveal_strlit("--.-");
    assert(signal_number("--.-"@, 4) == 29);
    reveal_strlit(".-.");
    assert(signal_number(".-."@, 3) == 10);
    reveal_strlit("...");
    assert(signal_number("..."@, 3) == 8);
    reveal_strlit("-");
    assert(signal_number("-"@, 1) == 3);
    reveal_strlit("..-");
    assert(signal_number("..-"@, 3) == 9);
    reveal_strlit("...-");
    assert(signal_number("...-"@, 4) == 17);
    reveal_strlit(".--");
    assert(signal_number(".--"@, 3) == 11);
    reveal_strlit("-..-");
    assert(signal_number("-..-"@, 4) == 25);
    reveal_strlit("-.--");
    assert(signal_number("-.--"@, 4) == 27);
    reveal_strlit("--..");
    assert(signal_number("--.."@, 4) == 28);
    reveal_strlit("-----");
    assert(signal_number("-----"@, 5) == 63);
    reveal_strlit(".----");
    assert(signal_number(".----"@, 5) == 47);
    reveal_strlit("..---");
    assert(signal_number("..---"@, 5) == 39);
    reveal_strlit("...--");
    assert(signal_number("...--"@, 5) == 35);
    reveal_strlit("....-");
    assert(signal_number("....-"@, 5) == 33);
    reveal_strlit(".....");
    assert(signal_number("....."@, 5) == 32);
    reveal_strlit("-....");
    assert(signal_number("-...."@, 5) == 48);
    reveal_strlit("--...");
    assert(signal_number("--..."@, 5) == 56);
    reveal_strlit("---..");
    assert(signal_number("---.."@, 5) == 60);
    reveal_strlit("----.");
    assert(signal_number("----."@, 5) == 62);
    let code = code_of(c).unwrap();
    assert forall|i: int| 0 <= i < code.len() implies code[i] == '.' || code[i] == '-' by {}
    assert(signal_number(code, code.len()) >= 2);
}

/// What `encode_morse` writes, `decode_morse` reads back: the codes of a text
/// of capital letters and digits, with a space between each two, are a text
/// in Morse code that stands for that text.
pub proof fn lemma_morse_round_trip(s: Seq<char>)
    requires
        all_have_codes(s),
    ensures
        all_are_codes(joined(codes_of(s), " "@)),
        chars_for(words_of(joined(codes_of(s), " "@))) == s,
{
    let codes = codes_of(s);
    assert forall|i: int| 0 <= i < codes.len() implies is_word(#[trigger] codes[i]) && char_of(
        codes[i],
    ) == Some(s[i]) by {
        lemma_code_is_read_back(s[i]);
    }
    lemma_words_of_joined(codes);
    assert(chars_for(codes) =~= s);
}

} // verus!
