use katas::scrabble::{
    letters_from_matches, modifiers_from_matches, scrabble_score, Letter, ScoreModifier, Word,
};

type Error = &'static str;

#[test]
fn it_does_not_work_with_invalid_chars() {
    assert_eq!(
        scrabble_score("t&@%&est"),
        Err("This is not a valid scrabble word")
    );
    assert_eq!(
        scrabble_score("123"),
        Err("This is not a valid scrabble word")
    );
}

#[test]
fn it_works_for_words_without_letter_modifiers() -> Result<(), Error> {
    assert_eq!(scrabble_score("test")?, 4);
    assert_eq!(scrabble_score("hello")?, 8);
    assert_eq!(scrabble_score("quiz")?, 22);

    Ok(())
}

#[test]
fn it_works_for_mixed_case_words_without_modifiers() -> Result<(), Error> {
    assert_eq!(scrabble_score("tESt")?, 4);
    assert_eq!(scrabble_score("heLLO")?, 8);
    assert_eq!(scrabble_score("quIz")?, 22);

    Ok(())
}

#[test]
fn it_works_with_double_letter_modifiers() -> Result<(), Error> {
    assert_eq!(scrabble_score("t*e*s*t*")?, 8);
    assert_eq!(scrabble_score("h*ello")?, 12);
    assert_eq!(scrabble_score("q*u*iz")?, 33);

    Ok(())
}

#[test]
fn it_works_with_blank_letter_modifiers() -> Result<(), Error> {
    assert_eq!(scrabble_score("t**^e**s*t*")?, 7);
    assert_eq!(scrabble_score("h**^ello")?, 4);
    assert_eq!(scrabble_score("q*u*iz**^")?, 23);

    Ok(())
}

#[test]
fn it_works_for_modified_words_without_letter_modifiers() -> Result<(), Error> {
    assert_eq!(scrabble_score("test(t)")?, 12);
    assert_eq!(scrabble_score("hello(d)")?, 16);
    assert_eq!(scrabble_score("quiz(d)(d)")?, 88);

    Ok(())
}

#[test]
fn it_works_with_triple_letter_modifiers() -> Result<(), Error> {
    assert_eq!(scrabble_score("t**e**s*t*")?, 10);
    assert_eq!(scrabble_score("h**ello")?, 16);
    assert_eq!(scrabble_score("q*u*iz**")?, 53);

    Ok(())
}

#[test]
fn it_works_with_mixed_word_and_letter_modifiers() -> Result<(), Error> {
    assert_eq!(scrabble_score("t**e**s*t*(d)")?, 20);
    assert_eq!(scrabble_score("h**ello(d)(d)")?, 64);
    assert_eq!(scrabble_score("q*u*iz**^(t)")?, 69);

    Ok(())
}

#[test]
fn white_space_around_a_word_does_not_count() {
    assert_eq!(scrabble_score("  quiz\n"), Ok(22));
    assert_eq!(scrabble_score("\u{2003}Quiz(T)\t"), Ok(66));
    assert_eq!(scrabble_score(""), Ok(0));
    assert_eq!(scrabble_score("   "), Ok(0));
    assert_eq!(scrabble_score("(d)"), Ok(0));
    assert_eq!(scrabble_score("qu iz"), Err("This is not a valid scrabble word"));
    assert_eq!(scrabble_score("quiz(x)"), Err("This is not a valid scrabble word"));
    assert_eq!(scrabble_score("quiz***"), Err("This is not a valid scrabble word"));
    assert_eq!(scrabble_score("(d)quiz"), Err("This is not a valid scrabble word"));
    assert_eq!(scrabble_score("é"), Err("This is not a valid scrabble word"));
}

#[test]
fn a_score_beyond_32_bits_is_turned_down() {
    // 3^20 = 3486784401 fits, 3^21 does not
    let twenty = "(t)".repeat(20);
    assert_eq!(scrabble_score(&format!("a{}", twenty)), Ok(3_486_784_401));
    assert_eq!(
        scrabble_score(&format!("a{}(t)", twenty)),
        Err("This is not a valid scrabble word")
    );
    // the marks alone are beyond 32 bits, though the letters count nothing
    assert_eq!(
        scrabble_score(&format!("a^{}(t)", twenty)),
        Err("This is not a valid scrabble word")
    );
    // 10 * 3^19 is beyond, 1 * 3^19 is not
    let nineteen = "(t)".repeat(19);
    assert_eq!(scrabble_score(&format!("e{}", nineteen)), Ok(1_162_261_467));
    assert_eq!(
        scrabble_score(&format!("z{}(d)(d)", nineteen)),
        Err("This is not a valid scrabble word")
    );
}

#[test]
fn letters_and_marks_are_scored_one_by_one() {
    assert_eq!(ScoreModifier::Double.multiplier(), 2);
    assert_eq!(ScoreModifier::Triple.multiplier(), 3);
    let z = Letter { c: 'z', score_modifier: Some(ScoreModifier::Triple), blank_tile: false };
    assert_eq!(z.score(), 30);
    assert!(z.is_scorable());
    let blank = Letter { c: '?', score_modifier: Some(ScoreModifier::Triple), blank_tile: true };
    assert_eq!(blank.score(), 0);
    assert!(blank.is_scorable());
    let capital = Letter { c: 'Z', score_modifier: None, blank_tile: false };
    assert!(!capital.is_scorable());
    let k = Letter { c: 'k', score_modifier: None, blank_tile: false };
    assert_eq!(k.score(), 5);
    let word = Word {
        letters: vec![z, blank, k],
        modifiers: vec![ScoreModifier::Double, ScoreModifier::Triple],
    };
    assert!(word.is_countable());
    assert_eq!(word.letters_score(), 35);
    assert_eq!(word.multiplier(), 6);
    assert_eq!(word.score(), 210);
    let unread = Word { letters: vec![capital], modifiers: vec![] };
    assert!(!unread.is_countable());
    let empty = Word { letters: vec![], modifiers: vec![] };
    assert_eq!(empty.score(), 0);
    assert_eq!(empty.multiplier(), 1);
}

#[test]
fn words_are_read_letter_by_letter() {
    let word = Word::from_string(" Q*ui**^z(d)(t) ").unwrap();
    assert_eq!(
        word.letters,
        vec![
            Letter { c: 'q', score_modifier: Some(ScoreModifier::Double), blank_tile: false },
            Letter { c: 'u', score_modifier: None, blank_tile: false },
            Letter { c: 'i', score_modifier: Some(ScoreModifier::Triple), blank_tile: true },
            Letter { c: 'z', score_modifier: None, blank_tile: false },
        ]
    );
    assert_eq!(word.modifiers, vec![ScoreModifier::Double, ScoreModifier::Triple]);
    assert!(Word::from_string("x y").is_err());
    assert_eq!(Letter::letters_from_string("A-b**"), vec![
        Letter { c: 'A', score_modifier: None, blank_tile: false },
        Letter { c: 'b', score_modifier: Some(ScoreModifier::Triple), blank_tile: false },
    ]);
    assert_eq!(
        ScoreModifier::from_word_modifier_string("(d)x(t)(q)(d"),
        vec![ScoreModifier::Double, ScoreModifier::Triple]
    );
}

#[test]
fn matches_that_stand_for_nothing_are_passed_over() {
    let group = |text: &str| Some(text.to_string());
    let matches = vec![
        vec![group("a*"), group("a"), group("*"), group("")],
        vec![group("b"), group("b"), group("***"), group("")],
        vec![group("c"), None, group(""), group("")],
        vec![group("d"), group("d")],
        vec![group("e^"), group("e"), group(""), group("^")],
        vec![group(""), group(""), group(""), group("")],
    ];
    assert_eq!(
        letters_from_matches(&matches),
        vec![
            Letter { c: 'a', score_modifier: Some(ScoreModifier::Double), blank_tile: false },
            Letter { c: 'e', score_modifier: None, blank_tile: true },
        ]
    );
    let marks = vec![
        vec![group("(d)"), group("d")],
        vec![group("(x)"), group("x")],
        vec![group("(t)")],
        vec![group("(t)"), None],
        vec![group("(t)"), group("t"), group("more")],
    ];
    assert_eq!(
        modifiers_from_matches(&marks),
        vec![ScoreModifier::Double, ScoreModifier::Triple]
    );
}

#[test]
fn a_word_is_read_from_the_groups_of_a_match() {
    let group = |text: &str| Some(text.to_string());
    let word = Word::from_groups(&vec![group("q*z(d)"), group("q*z"), group("(d)")]).unwrap();
    assert_eq!(
        word.letters,
        vec![
            Letter { c: 'q', score_modifier: Some(ScoreModifier::Double), blank_tile: false },
            Letter { c: 'z', score_modifier: None, blank_tile: false },
        ]
    );
    assert_eq!(word.modifiers, vec![ScoreModifier::Double]);
    let bare = Word::from_groups(&vec![group("ab"), group("ab"), None]).unwrap();
    assert_eq!(bare.letters.len(), 2);
    assert!(bare.modifiers.is_empty());
    let more = Word::from_groups(&vec![None, group("k"), group("(t)(t)"), group("x")]).unwrap();
    assert_eq!(more.score(), 45);
    assert_eq!(
        Word::from_groups(&vec![group("ab"), None, group("(d)")]).err(),
        Some("This is not a valid scrabble word")
    );
    assert!(Word::from_groups(&vec![group("ab"), group("ab")]).is_err());
    assert!(Word::from_groups(&vec![]).is_err());
}
