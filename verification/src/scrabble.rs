//! Scoring a word of a word game. A word is written as its letters, each
//! followed by up to two asterisks (the letter counts double or triple) and a
//! caret (the tile is blank and counts nothing), and then by marks in
//! brackets that double or triple the whole word: `(d)` or `(t)`.

use vstd::prelude::*;
use crate::pattern::{all_groups, captures, captures_iter, first_groups, found_in, is_match};
use crate::text::{chars_of, lowered, same_text, string_of, to_lowercase, trim, trimmed};

verus! {

/// The complaint about a word that cannot be scored.
pub open spec fn invalid_word() -> Seq<char> {
    "This is not a valid scrabble word"@
}

/// The pattern of a whole word: letters with their marks, then the marks of
/// the word.
pub open spec fn word_pattern() -> Seq<char> {
    "^((?:[a-z]\\*{0,2}\\^?)*)((?:\\([td]\\))*)$"@
}

/// The pattern of one letter with its marks.
pub open spec fn letter_pattern() -> Seq<char> {
    "([a-zA-Z])(\\*{0,2})(\\^?)"@
}

/// The pattern of one mark of the word.
pub open spec fn modifier_pattern() -> Seq<char> {
    "\\(([td])\\)"@
}

/// A mark that multiplies a score.
#[derive(Debug, Clone, Copy, PartialEq, Eq, Structural)]
pub enum ScoreModifier {
    Double,
    Triple,
}

impl ScoreModifier {
    /// The number by which the mark multiplies.
    pub open spec fn factor(self) -> nat {
        match self {
            ScoreModifier::Double => 2,
            ScoreModifier::Triple => 3,
        }
    }

    /// The number by which the mark multiplies.
    pub fn multiplier(&self) -> (factor: u32)
        ensures
            factor == self.factor(),
    {
        match self {
            ScoreModifier::Double => 2,
            ScoreModifier::Triple => 3,
        }
    }

    /// The marks of a word, read from the matches of the pattern of a mark:
    /// `d` doubles, `t` triples.
    pub fn from_word_modifier_string(s: &str) -> (modifiers: Vec<ScoreModifier>)
        ensures
            modifiers@ == match all_groups(modifier_pattern(), s@) {
                Some(matches) => modifiers_of(matches),
                None => Seq::empty(),
            },
    {
        match captures_iter("\\(([td])\\)", s) {
            Some(matches) => modifiers_from_matches(&matches),
            None => Vec::new(),
        }
    }
}

/// The mark that a match of the pattern of a mark stands for, if its first
/// group is `d` or `t`.
pub open spec fn modifier_of(groups: Seq<Option<Seq<char>>>) -> Option<ScoreModifier> {
    if groups.len() >= 2 && groups[1] == Some("d"@) {
        Some(ScoreModifier::Double)
    } else if groups.len() >= 2 && groups[1] == Some("t"@) {
        Some(ScoreModifier::Triple)
    } else {
        None
    }
}

/// The marks that the matches stand for, in order; a match that stands for
/// none is passed over.
pub open spec fn modifiers_of(matches: Seq<Seq<Option<Seq<char>>>>) -> Seq<ScoreModifier>
    decreases matches.len(),
{
    if matches.len() == 0 {
        Seq::empty()
    } else {
        match modifier_of(matches.last()) {
            Some(m) => modifiers_of(matches.drop_last()).push(m),
            None => modifiers_of(matches.drop_last()),
        }
    }
}

/// Reads the marks of a word from the matches of the pattern of a mark.
pub fn modifiers_from_matches(matches: &Vec<Vec<Option<String>>>) -> (modifiers: Vec<ScoreModifier>)
    ensures
        modifiers@ == modifiers_of(matches.deep_view()),
{
    let mut modifiers: Vec<ScoreModifier> = Vec::new();
    let mut i: usize = 0;
    assert(matches.deep_view().take(0) =~= Seq::empty());
    while i < matches.len()
        invariant
            i <= matches.len(),
            modifiers@ == modifiers_of(matches.deep_view().take(i as int)),
        decreases matches.len() - i,
    {
        let groups = &matches[i];
        proof {
            let next = matches.deep_view().take(i + 1);
            assert(next.drop_last() =~= matches.deep_view().take(i as int));
            assert(next.last() == groups.deep_view());
        }
        if groups.len() >= 2 {
            assert(groups.deep_view()[1] == groups[1].deep_view());
            match &groups[1] {
                Some(letter) => {
                    if same_text(letter.as_str(), "d") {
                        modifiers.push(ScoreModifier::Double);
                    } else if same_text(letter.as_str(), "t") {
                        modifiers.push(ScoreModifier::Triple);
                    }
                },
                None => {},
            }
        }
        i += 1;
    }
    assert(matches.deep_view().take(i as int) =~= matches.deep_view());
    modifiers
}

/// A letter of a word with its marks.
#[derive(Debug, Clone, Copy, PartialEq, Eq, Structural)]
pub struct Letter {
    pub c: char,
    pub score_modifier: Option<ScoreModifier>,
    pub blank_tile: bool,
}

/// What a small letter counts; other characters count nothing and cannot be
/// scored.
pub open spec fn letter_value(c: char) -> Option<nat> {
    if c == 'a' || c == 'e' || c == 'i' || c == 'l' || c == 'n' || c == 'o' || c == 'r' || c == 's'
        || c == 't' || c == 'u' {
        Some(1)
    } else if c == 'd' || c == 'g' {
        Some(2)
    } else if c == 'b' || c == 'c' || c == 'm' || c == 'p' {
        Some(3)
    } else if c == 'f' || c == 'h' || c == 'v' || c == 'w' || c == 'y' {
        Some(4)
    } else if c == 'k' {
        Some(5)
    } else if c == 'j' || c == 'x' {
        Some(8)
    } else if c == 'q' || c == 'z' {
        Some(10)
    } else {
        None
    }
}

fn raw_score(c: char) -> (value: Option<u32>)
    ensures
        match value {
            Some(v) => letter_value(c) == Some(v as nat),
            None => letter_value(c).is_none(),
        },
{
    match c {
        'a' => Some(1),
        'b' => Some(3),
        'c' => Some(3),
        'd' => Some(2),
        'e' => Some(1),
        'f' => Some(4),
        'g' => Some(2),
        'h' => Some(4),
        'i' => Some(1),
        'j' => Some(8),
        'k' => Some(5),
        'l' => Some(1),
        'm' => Some(3),
        'n' => Some(1),
        'o' => Some(1),
        'p' => Some(3),
        'q' => Some(10),
        'r' => Some(1),
        's' => Some(1),
        't' => Some(1),
        'u' => Some(1),
        'v' => Some(4),
        'w' => Some(4),
        'x' => Some(8),
        'y' => Some(4),
        'z' => Some(10),
        _ => None,
    }
}

impl Letter {
    /// Whether the letter can be scored: it is a blank tile or a small letter
    /// of the English alphabet.
    pub open spec fn scorable(self) -> bool {
        self.blank_tile || letter_value(self.c) is Some
    }

    /// What the letter counts: nothing for a blank tile, else the letter's
    /// value times its mark.
    pub open spec fn points(self) -> nat {
        if self.blank_tile {
            0
        } else {
            match self.score_modifier {
                Some(m) => letter_value(self.c).unwrap() * m.factor(),
                None => letter_value(self.c).unwrap(),
            }
        }
    }

    /// Tests whether the letter can be scored.
    pub fn is_scorable(&self) -> (scorable: bool)
        ensures
            scorable == self.scorable(),
    {
        self.blank_tile || raw_score(self.c).is_some()
    }

    /// What the letter counts.
    pub fn score(&self) -> (points: u32)
        requires
            self.scorable(),
        ensures
            points == self.points(),
            points <= 30,
    {
        if self.blank_tile {
            0
        } else {
            let raw_score = match raw_score(self.c) {
                Some(value) => value,
                None => 0,
            };
            match &self.score_modifier {
                Some(m) => raw_score * m.multiplier(),
                None => raw_score,
            }
        }
    }

    /// The letters of a word with their marks, read from the matches of the
    /// pattern of a letter.
    pub fn letters_from_string(word: &str) -> (letters: Vec<Letter>)
        ensures
            letters@ == match all_groups(letter_pattern(), word@) {
                Some(matches) => letters_of(matches),
                None => Seq::empty(),
            },
    {
        match captures_iter("([a-zA-Z])(\\*{0,2})(\\^?)", word) {
            Some(matches) => letters_from_matches(&matches),
            None => Vec::new(),
        }
    }
}

/// The mark that a letter's asterisks stand for: none for none, double for
/// one, triple for two. The outer `None` says that the text is none of these.
pub open spec fn mark_of(asterisks: Seq<char>) -> Option<Option<ScoreModifier>> {
    if asterisks == ""@ {
        Some(None)
    } else if asterisks == "*"@ {
        Some(Some(ScoreModifier::Double))
    } else if asterisks == "**"@ {
        Some(Some(ScoreModifier::Triple))
    } else {
        None
    }
}

/// The letter that a match of the pattern of a letter stands for: its first
/// group begins with the letter, its second holds the asterisks, its third
/// the caret of a blank tile. `None` where a group is missing or the
/// asterisks are not as expected.
pub open spec fn letter_of(groups: Seq<Option<Seq<char>>>) -> Option<Letter> {
    if groups.len() >= 4 && groups[1] is Some && groups[1].unwrap().len() >= 1 && groups[2] is Some
        && mark_of(groups[2].unwrap()) is Some && groups[3] is Some {
        Some(
            Letter {
                c: groups[1].unwrap()[0],
                score_modifier: mark_of(groups[2].unwrap()).unwrap(),
                blank_tile: groups[3].unwrap() == "^"@,
            },
        )
    } else {
        None
    }
}

/// The letters that the matches stand for, in order; a match that stands for
/// none is passed over.
pub open spec fn letters_of(matches: Seq<Seq<Option<Seq<char>>>>) -> Seq<Letter>
    decreases matches.len(),
{
    if matches.len() == 0 {
        Seq::empty()
    } else {
        match letter_of(matches.last()) {
            Some(letter) => letters_of(matches.drop_last()).push(letter),
            None => letters_of(matches.drop_last()),
        }
    }
}

fn letter_from_groups(groups: &Vec<Option<String>>) -> (letter: Option<Letter>)
    ensures
        letter == letter_of(groups.deep_view()),
{
    if groups.len() < 4 {
        return None;
    }
    assert(groups.deep_view()[1] == groups[1].deep_view());
    assert(groups.deep_view()[2] == groups[2].deep_view());
    assert(groups.deep_view()[3] == groups[3].deep_view());
    match (&groups[1], &groups[2], &groups[3]) {
        (Some(letter), Some(multiplier), Some(blank)) => {
            let chars = chars_of(letter.as_str());
            if chars.len() == 0 {
                return None;
            }
            let score_modifier = if same_text(multiplier.as_str(), "") {
                None
            } else if same_text(multiplier.as_str(), "*") {
                Some(ScoreModifier::Double)
            } else if same_text(multiplier.as_str(), "**") {
                Some(ScoreModifier::Triple)
            } else {
                return None;
            };
            let blank_tile = same_text(blank.as_str(), "^");
            Some(Letter { c: chars[0], score_modifier, blank_tile })
        },
        _ => None,
    }
}

/// Reads the letters of a word from the matches of the pattern of a letter.
pub fn letters_from_matches(matches: &Vec<Vec<Option<String>>>) -> (letters: Vec<Letter>)
    ensures
        letters@ == letters_of(matches.deep_view()),
{
    let mut letters: Vec<Letter> = Vec::new();
    let mut i: usize = 0;
    assert(matches.deep_view().take(0) =~= Seq::empty());
    while i < matches.len()
        invariant
            i <= matches.len(),
            letters@ == letters_of(matches.deep_view().take(i as int)),
        decreases matches.len() - i,
    {
        proof {
            let next = matches.deep_view().take(i + 1);
            assert(next.drop_last() =~= matches.deep_view().take(i as int));
            assert(next.last() == matches[i as int].deep_view());
        }
        match letter_from_groups(&matches[i]) {
            Some(letter) => {
                letters.push(letter);
            },
            None => {},
        }
        i += 1;
    }
    assert(matches.deep_view().take(i as int) =~= matches.deep_view());
    letters
}

/// The sum of what the letters count.
pub open spec fn letters_total(letters: Seq<Letter>) -> nat
    decreases letters.len(),
{
    if letters.len() == 0 {
        0
    } else {
        letters_total(letters.drop_last()) + letters.last().points()
    }
}

/// The product of the factors of the marks.
pub open spec fn factors_product(modifiers: Seq<ScoreModifier>) -> nat
    decreases modifiers.len(),
{
    if modifiers.len() == 0 {
        1
    } else {
        factors_product(modifiers.drop_last()) * modifiers.last().factor()
    }
}

/// A word: its letters, and the marks that multiply the whole word.
#[derive(Debug)]
pub struct Word {
    pub letters: Vec<Letter>,
    pub modifiers: Vec<ScoreModifier>,
}

/// More letters count no less.
pub proof fn lemma_letters_total_grows(letters: Seq<Letter>, k: int)
    requires
        0 <= k <= letters.len(),
    ensures
        letters_total(letters.take(k)) <= letters_total(letters),
    decreases letters.len(),
{
    if k < letters.len() {
        lemma_letters_total_grows(letters.drop_last(), k);
        assert(letters.drop_last().take(k) =~= letters.take(k));
    } else {
        assert(letters.take(k) =~= letters);
    }
}

/// More marks multiply by no less.
pub proof fn lemma_factors_product_grows(modifiers: Seq<ScoreModifier>, k: int)
    requires
        0 <= k <= modifiers.len(),
    ensures
        1 <= factors_product(modifiers.take(k)) <= factors_product(modifiers),
    decreases modifiers.len(),
{
    if k < modifiers.len() {
        lemma_factors_product_grows(modifiers.drop_last(), k);
        assert(modifiers.drop_last().take(k) =~= modifiers.take(k));
        assert(factors_product(modifiers.drop_last()) * modifiers.last().factor()
            >= factors_product(modifiers.drop_last())) by (nonlinear_arith)
            requires
                modifiers.last().factor() >= 1,
        ;
    } else {
        assert(modifiers.take(k) =~= modifiers);
        if k > 0 {
            lemma_factors_product_grows(modifiers.drop_last(), k - 1);
            assert(factors_product(modifiers.drop_last()) * modifiers.last().factor() >= 1)
                by (nonlinear_arith)
                requires
                    factors_product(modifiers.drop_last()) >= 1,
                    modifiers.last().factor() >= 1,
            ;
        }
    }
}

impl Word {
    /// Whether every letter of the word can be scored.
    pub open spec fn scorable(&self) -> bool {
        forall|i: int| 0 <= i < self.letters@.len() ==> (#[trigger] self.letters@[i]).scorable()
    }

    /// What the word counts: the sum of its letters times the product of its
    /// marks.
    pub open spec fn total(&self) -> nat {
        letters_total(self.letters@) * factors_product(self.modifiers@)
    }

    /// Whether the word can be scored in 32 bits: the sum of its letters, the
    /// product of its marks and the product of the two are no larger than the
    /// largest 32-bit number.
    pub open spec fn countable(&self) -> bool {
        &&& self.scorable()
        &&& letters_total(self.letters@) <= u32::MAX
        &&& factors_product(self.modifiers@) <= u32::MAX
        &&& self.total() <= u32::MAX
    }

    /// What the word counts.
    pub fn score(&self) -> (points: u32)
        requires
            self.countable(),
        ensures
            points == self.total(),
    {
        self.letters_score() * self.multiplier()
    }

    /// The sum of what the letters count.
    pub fn letters_score(&self) -> (points: u32)
        requires
            self.scorable(),
            letters_total(self.letters@) <= u32::MAX,
        ensures
            points == letters_total(self.letters@),
    {
        let mut points: u32 = 0;
        let mut i: usize = 0;
        assert(self.letters@.take(0) =~= Seq::empty());
        while i < self.letters.len()
            invariant
                i <= self.letters.len(),
                self.scorable(),
                letters_total(self.letters@) <= u32::MAX,
                points == letters_total(self.letters@.take(i as int)),
            decreases self.letters.len() - i,
        {
            proof {
                let next = self.letters@.take(i + 1);
                assert(next.drop_last() =~= self.letters@.take(i as int));
                lemma_letters_total_grows(self.letters@, i + 1);
            }
            points = points + self.letters[i].score();
            i += 1;
        }
        assert(self.letters@.take(i as int) =~= self.letters@);
        points
    }

    /// The product of the factors of the word's marks.
    pub fn multiplier(&self) -> (factor: u32)
        requires
            factors_product(self.modifiers@) <= u32::MAX,
        ensures
            factor == factors_product(self.modifiers@),
    {
        let mut acc: u32 = 1;
        let mut i: usize = 0;
        assert(self.modifiers@.take(0) =~= Seq::empty());
        while i < self.modifiers.len()
            invariant
                i <= self.modifiers.len(),
                factors_product(self.modifiers@) <= u32::MAX,
                acc == factors_product(self.modifiers@.take(i as int)),
            decreases self.modifiers.len() - i,
        {
            proof {
                let next = self.modifiers@.take(i + 1);
                assert(next.drop_last() =~= self.modifiers@.take(i as int));
                lemma_factors_product_grows(self.modifiers@, i + 1);
            }
            acc = acc * self.modifiers[i].multiplier();
            i += 1;
        }
        assert(self.modifiers@.take(i as int) =~= self.modifiers@);
        acc
    }

    /// Tests whether the word can be scored in 32 bits.
    pub fn is_countable(&self) -> (countable: bool)
        ensures
            countable == self.countable(),
    {
        let mut i: usize = 0;
        let mut sum: u64 = 0;
        assert(self.letters@.take(0) =~= Seq::empty());
        while i < self.letters.len()
            invariant
                i <= self.letters.len(),
                forall|k: int| 0 <= k < i ==> (#[trigger] self.letters@[k]).scorable(),
                sum == letters_total(self.letters@.take(i as int)),
                sum <= u32::MAX,
            decreases self.letters.len() - i,
        {
            if !self.letters[i].is_scorable() {
                return false;
            }
            proof {
                let next = self.letters@.take(i + 1);
                assert(next.drop_last() =~= self.letters@.take(i as int));
                lemma_letters_total_grows(self.letters@, i + 1);
            }
            sum = sum + self.letters[i].score() as u64;
            if sum > 0xFFFF_FFFF {
                return false;
            }
            i += 1;
        }
        assert(self.letters@.take(i as int) =~= self.letters@);
        let mut product: u64 = 1;
        let mut k: usize = 0;
        assert(self.modifiers@.take(0) =~= Seq::empty());
        while k < self.modifiers.len()
            invariant
                k <= self.modifiers.len(),
                product == factors_product(self.modifiers@.take(k as int)),
                product <= u32::MAX,
            decreases self.modifiers.len() - k,
        {
            proof {
                let next = self.modifiers@.take(k + 1);
                assert(next.drop_last() =~= self.modifiers@.take(k as int));
                lemma_factors_product_grows(self.modifiers@, k + 1);
            }
            assert(product * 3 <= 0xFFFF_FFFF * 3) by (nonlinear_arith)
                requires
                    product <= 0xFFFF_FFFF,
            ;
            product = product * self.modifiers[k].multiplier() as u64;
            if product > 0xFFFF_FFFF {
                return false;
            }
            k += 1;
        }
        assert(self.modifiers@.take(k as int) =~= self.modifiers@);
        assert(sum * product <= 0xFFFF_FFFF * 0xFFFF_FFFF) by (nonlinear_arith)
            requires
                sum <= 0xFFFF_FFFF,
                product <= 0xFFFF_FFFF,
        ;
        sum * product <= 0xFFFF_FFFF
    }

    /// Reads a word: surrounding white space and the difference between
    /// capital and small letters do not count.
    pub fn from_string(word: &str) -> (read: Result<Word, &'static str>)
        ensures
            match read {
                Ok(w) => word_read(lowered(trimmed(word@))) == Some((w.letters@, w.modifiers@)),
                Err(complaint) => word_read(lowered(trimmed(word@))).is_none() && complaint@
                    == invalid_word(),
            },
    {
        let trimmed_word = string_of(&to_lowercase(&trim(&chars_of(word))));
        let pattern = "^((?:[a-z]\\*{0,2}\\^?)*)((?:\\([td]\\))*)$";
        match is_match(pattern, trimmed_word.as_str()) {
            Some(true) => {},
            _ => { return Err("This is not a valid scrabble word"); },
        }
        match captures(pattern, trimmed_word.as_str()) {
            Some(Some(groups)) => Word::from_groups(&groups),
            _ => Err("This is not a valid scrabble word"),
        }
    }

    /// Reads a word from the groups of a match of the pattern of a whole
    /// word: the first group holds the letters, the second, where it took
    /// part in the match, the marks of the word.
    pub fn from_groups(capture: &Vec<Option<String>>) -> (read: Result<Word, &'static str>)
        ensures
            match read {
                Ok(w) => word_of(capture.deep_view()) == Some((w.letters@, w.modifiers@)),
                Err(complaint) => word_of(capture.deep_view()).is_none() && complaint@
                    == invalid_word(),
            },
    {
        if capture.len() < 3 {
            return Err("This is not a valid scrabble word");
        }
        assert(capture.deep_view()[1] == capture[1].deep_view());
        assert(capture.deep_view()[2] == capture[2].deep_view());
        let letters = match &capture[1] {
            Some(text) => Letter::letters_from_string(text.as_str()),
            None => { return Err("This is not a valid scrabble word"); },
        };
        let modifiers = match &capture[2] {
            Some(text) => ScoreModifier::from_word_modifier_string(text.as_str()),
            None => Vec::new(),
        };
        Ok(Word { letters, modifiers })
    }
}

/// The letters and marks that the groups of a match of the pattern of a whole
/// word stand for: the first group holds the letters, the second, where it
/// took part in the match, the marks. `None` where there are fewer than three
/// groups or the first took no part.
pub open spec fn word_of(groups: Seq<Option<Seq<char>>>) -> Option<
    (Seq<Letter>, Seq<ScoreModifier>),
> {
    if groups.len() >= 3 && groups[1] is Some {
        Some(
            (
                match all_groups(letter_pattern(), groups[1].unwrap()) {
                    Some(matches) => letters_of(matches),
                    None => Seq::empty(),
                },
                match groups[2] {
                    Some(marks) => match all_groups(modifier_pattern(), marks) {
                        Some(matches) => modifiers_of(matches),
                        None => Seq::empty(),
                    },
                    None => Seq::empty(),
                },
            ),
        )
    } else {
        None
    }
}

/// The letters and marks of a word, read from its text: the text must match
/// the pattern of a whole word; the first group of the match holds the
/// letters, the second, where it took part, the marks.
pub open spec fn word_read(text: Seq<char>) -> Option<(Seq<Letter>, Seq<ScoreModifier>)> {
    if found_in(word_pattern(), text) == Some(true) {
        match first_groups(word_pattern(), text) {
            Some(Some(groups)) => word_of(groups),
            _ => None,
        }
    } else {
        None
    }
}

/// What a word that has been read counts, where it can be scored in 32 bits.
pub open spec fn score_of(read: Option<(Seq<Letter>, Seq<ScoreModifier>)>) -> Option<nat> {
    match read {
        Some((letters, modifiers)) => {
            if (forall|i: int| 0 <= i < letters.len() ==> (#[trigger] letters[i]).scorable())
                && letters_total(letters) <= u32::MAX && factors_product(modifiers) <= u32::MAX
                && letters_total(letters) * factors_product(modifiers) <= u32::MAX {
                Some(letters_total(letters) * factors_product(modifiers))
            } else {
                None
            }
        },
        None => None,
    }
}

/// Scores a word. A text that is no word, and a word whose score cannot be
/// counted in 32 bits, are turned down.
pub fn scrabble_score(word: &str) -> (score: Result<u32, &'static str>)
    ensures
        match score {
            Ok(points) => score_of(word_read(lowered(trimmed(word@)))) == Some(points as nat),
            Err(complaint) => score_of(word_read(lowered(trimmed(word@)))).is_none() && complaint@
                == invalid_word(),
        },
{
    match Word::from_string(word) {
        Ok(w) => {
            if w.is_countable() {
                Ok(w.score())
            } else {
                Err("This is not a valid scrabble word")
            }
        },
        Err(complaint) => Err(complaint),
    }
}

} // verus!
