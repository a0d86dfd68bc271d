use katas::morse::{char_for, decode_morse, encode_morse, morse_for, try_decode_morse};
use katas::pig_latin::{pig_it, pigify_word};
use katas::text::{char_is_whitespace, split_chars, split_whitespace, trim};
use katas::word_spin::spin_words;

#[test]
fn it_works_for_words_shorter_than_4_chars() {
    assert_eq!(spin_words("Test"), "Test".to_string());
    assert_eq!(spin_words("Te"), "Te".to_string());
    assert_eq!(spin_words("ant"), "ant".to_string());
    assert_eq!(
        spin_words("lots of tiny word"),
        "lots of tiny word".to_string()
    );
}

#[test]
fn it_words_for_the_example() {
    assert_eq!(
        spin_words("Stop gninnipS My sdroW"),
        "Stop Spinning My Words".to_string()
    );
}

#[test]
fn it_words_with_space_padded_strings() {
    assert_eq!(
        spin_words(" Stop gninnipS My sdroW "),
        " Stop Spinning My Words ".to_string()
    );
}

#[test]
fn words_are_measured_in_bytes_and_turned_by_characters() {
    assert_eq!(spin_words(""), "");
    assert_eq!(spin_words("  "), "  ");
    assert_eq!(spin_words("abcd"), "abcd");
    assert_eq!(spin_words("abcde"), "edcba");
    assert_eq!(spin_words("ab  abcdef"), "ab  fedcba");
    // three characters, six bytes
    assert_eq!(spin_words("äöü"), "üöä");
    // four characters, four bytes; two characters, five bytes
    assert_eq!(spin_words("abcd 中é"), "abcd é中");
    assert_eq!(spin_words("tab\tis no space"), "si\tbat no ecaps");
}

#[test]
fn it_works_without_punctuation() {
    assert_eq!(
        pig_it("Pig latin is cool"),
        "igPay atinlay siay oolcay".to_string()
    );
}

#[test]
fn it_works_with_spaced_out_punctuation() {
    assert_eq!(pig_it("Hello world !"), "elloHay orldway !".to_string());
}

#[test]
fn it_works_with_word_ending_punctuation() {
    assert_eq!(
        pig_it("Hello world! How is it going today?"),
        "elloHay orldway! owHay siay tiay oinggay odaytay?".to_string()
    );
}

#[test]
fn it_works_with_word_mid_punctuation() {
    assert_eq!(
        pig_it("Hello world! How's it going today?"),
        "elloHay orldway! owHay'say tiay oinggay odaytay?".to_string()
    );
}

#[test]
fn each_run_of_letters_is_put_into_pig_latin() {
    assert_eq!(pigify_word("a"), "aay");
    assert_eq!(pigify_word("?!"), "?!");
    assert_eq!(pigify_word("x9"), "9xay");
    assert_eq!(pigify_word("(well-being)"), "(ellway-eingbay)");
    assert_eq!(pigify_word("--a"), "--aay");
    assert_eq!(pigify_word("écoute!"), "couteéay!");
    assert_eq!(pig_it("tab\tin a word"), "abtay\tniay aay ordway");
}

#[test]
fn it_works_to_decode_example() {
    assert_eq!(
        decode_morse(".... . -.-- .--- ..- -.. ."),
        "HEYJUDE".to_string()
    );
}

#[test]
fn it_works_to_encode_example() {
    assert_eq!(
        encode_morse("HEYJUDE"),
        ".... . -.-- .--- ..- -.. .".to_string()
    );
}

#[test]
fn it_is_reversible() {
    let input = "SOMETESTSTRING";

    assert_eq!(decode_morse(&encode_morse(input)), input.to_string());
}

#[test]
fn every_letter_and_digit_has_its_code() {
    let all = "ABCDEFGHIJKLMNOPQRSTUVWXYZ0123456789";
    for c in all.chars() {
        let code = morse_for(c).unwrap();
        assert!(code.chars().all(|m| m == '.' || m == '-'));
        assert!(!code.is_empty() && code.len() <= 5);
        assert_eq!(char_for(code), Some(c));
    }
    assert_eq!(decode_morse(&encode_morse(all)), all);
    assert_eq!(morse_for('a'), None);
    assert_eq!(morse_for(' '), None);
    assert_eq!(char_for(""), None);
    assert_eq!(char_for("......"), None);
    assert_eq!(char_for(".-"), Some('A'));
    assert_eq!(morse_for('S'), Some("..."));
    assert_eq!(morse_for('0'), Some("-----"));
    assert_eq!(encode_morse(""), "");
    assert_eq!(decode_morse(""), "");
    assert_eq!(decode_morse("  \n ... \t --- \u{2003}...  "), "SOS");
    assert_eq!(try_decode_morse("... --- ...").as_deref(), Some("SOS"));
    assert_eq!(try_decode_morse("").as_deref(), Some(""));
    assert_eq!(try_decode_morse("... ---- ..."), None);
    assert_eq!(try_decode_morse("...|---"), None);
}

#[test]
fn texts_are_split_and_trimmed_as_the_standard_library_does() {
    let chars = |s: &str| s.chars().collect::<Vec<char>>();
    for text in
        ["", " ", "a", " a", "a ", "a b", "a  b", "  a\t b\n", "\u{2003}x\u{a0}y z\u{3000}", "a\u{200b}b"]
    {
        let words: Vec<Vec<char>> = text.split_whitespace().map(chars).collect();
        assert_eq!(split_whitespace(&chars(text)), words, "{:?}", text);
        let parts: Vec<Vec<char>> = text.split(' ').map(chars).collect();
        assert_eq!(split_chars(&chars(text), ' '), parts, "{:?}", text);
        assert_eq!(trim(&chars(text)), chars(text.trim()), "{:?}", text);
    }
}

#[test]
fn white_space_is_what_the_standard_library_calls_white_space() {
    for code in 0..=0x10FFFFu32 {
        if let Some(c) = char::from_u32(code) {
            assert_eq!(char_is_whitespace(c), c.is_whitespace(), "{:#x}", code);
        }
    }
    assert!(char_is_whitespace(' '));
    assert!(char_is_whitespace('\u{3000}'));
    assert!(!char_is_whitespace('\u{200b}'));
    assert!(!char_is_whitespace('.'));
}
