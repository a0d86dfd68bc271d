//! Pig Latin: the first letter of each word goes to its end, and `ay` after
//! it.

use vstd::prelude::*;
use crate::text::{
    append_chars,
    append_str,
    char_is_alphanumeric,
    chars_of,
    is_alphanumeric,
    join_chars,
    joined,
    split_chars,
    split_on,
    string_of,
    texts,
};

verus! {

/// The length of the run at the start of a text in which every character is
/// of the kind of the first: a letter or number, or neither.
pub open spec fn run_len(w: Seq<char>) -> nat
    decreases w.len(),
{
    if w.len() <= 1 {
        w.len()
    } else if is_alphanumeric(w[0]) == is_alphanumeric(w[1]) {
        1 + run_len(w.skip(1))
    } else {
        1
    }
}

/// A run of letters and numbers in Pig Latin: its first character after the
/// others, then `ay`. Any other run stays as it is.
pub open spec fn pig_run(w: Seq<char>) -> Seq<char> {
    if w.len() > 0 && is_alphanumeric(w[0]) {
        w.skip(1).push(w[0]) + "ay"@
    } else {
        w
    }
}

/// A word in Pig Latin: each of its runs of letters and numbers is put into
/// Pig Latin, and what stands between them stays.
pub open spec fn pig_word(w: Seq<char>) -> Seq<char>
    decreases w.len(),
{
    let k = run_len(w) as int;
    if k <= 0 || k >= w.len() {
        pig_run(w)
    } else {
        pig_run(w.take(k)) + pig_word(w.skip(k))
    }
}

/// The words of a sentence in Pig Latin.
pub open spec fn pig_words(words: Seq<Seq<char>>) -> Seq<Seq<char>> {
    words.map_values(|word: Seq<char>| pig_word(word))
}

/// Whether no word of the sentence is empty: it is not empty, and spaces
/// stand neither at its ends nor next to each other.
pub open spec fn no_empty_word(s: Seq<char>) -> bool {
    forall|i: int| 0 <= i < split_on(s, ' ').len() ==> (#[trigger] split_on(s, ' ')[i]).len() > 0
}

fn run_end(w: &Vec<char>, start: usize) -> (end: usize)
    requires
        start < w@.len(),
    ensures
        start < end <= w@.len(),
        end - start == run_len(w@.skip(start as int)),
{
    let kind = char_is_alphanumeric(w[start]);
    assert(start < w.len());
    let mut end: usize = start + 1;
    assert(w@.skip(start as int)[0] == w@[start as int]);
    while end < w.len() && char_is_alphanumeric(w[end]) == kind
        invariant
            start < end <= w@.len(),
            kind == is_alphanumeric(w@[start as int]),
            is_alphanumeric(w@[end - 1]) == kind,
            run_len(w@.skip(start as int)) == (end - 1 - start) + run_len(w@.skip(end - 1)),
        decreases w.len() - end,
    {
        proof {
            let tail = w@.skip(end - 1);
            assert(tail[0] == w@[end - 1]);
            assert(tail[1] == w@[end as int]);
            assert(tail.skip(1) =~= w@.skip(end as int));
        }
        end += 1;
    }
    proof {
        let tail = w@.skip(end - 1);
        assert(tail[0] == w@[end - 1]);
        if end < w.len() {
            assert(tail[1] == w@[end as int]);
        }
    }
    end
}

fn pig_chars(w: &Vec<char>) -> (pig: Vec<char>)
    ensures
        pig@ == pig_word(w@),
{
    let mut pig: Vec<char> = Vec::new();
    let mut start: usize = 0;
    assert(w@.skip(0) =~= w@);
    while start < w.len()
        invariant
            start <= w.len(),
            pig@ + pig_word(w@.skip(start as int)) == pig_word(w@),
        decreases w.len() - start,
    {
        let end = run_end(w, start);
        let ghost rest = w@.skip(start as int);
        let ghost before = pig@;
        proof {
            assert(rest.take(end - start) =~= w@.subrange(start as int, end as int));
            assert(rest.skip(end - start) =~= w@.skip(end as int));
            assert(rest[0] == w@[start as int]);
        }
        if char_is_alphanumeric(w[start]) {
            let mut i: usize = start + 1;
            while i < end
                invariant
                    start < i <= end <= w.len(),
                    pig@ == before + w@.subrange(start + 1, i as int),
                decreases end - i,
            {
                pig.push(w[i]);
                assert(pig@ =~= before + w@.subrange(start + 1, i + 1));
                i += 1;
            }
            pig.push(w[start]);
            append_str(&mut pig, "ay");
            assert(pig@ =~= before + pig_run(w@.subrange(start as int, end as int))) by {
                let run = w@.subrange(start as int, end as int);
                assert(run.skip(1) =~= w@.subrange(start + 1, end as int));
            }
        } else {
            let mut i: usize = start;
            while i < end
                invariant
                    start <= i <= end <= w.len(),
                    pig@ == before + w@.subrange(start as int, i as int),
                decreases end - i,
            {
                pig.push(w[i]);
                assert(pig@ =~= before + w@.subrange(start as int, i + 1));
                i += 1;
            }
        }
        proof {
            let run = w@.subrange(start as int, end as int);
            assert(run[0] == w@[start as int]);
            if end < w.len() {
                assert(pig_word(rest) == pig_run(run) + pig_word(w@.skip(end as int)));
                assert(pig@ + pig_word(w@.skip(end as int)) =~= before + pig_word(rest));
            } else {
                assert(rest =~= run);
                assert(w@.skip(end as int) =~= Seq::empty());
                assert(pig_word(Seq::<char>::empty()) =~= Seq::empty());
                assert(pig@ + pig_word(w@.skip(end as int)) =~= before + pig_word(rest));
            }
        }
        start = end;
    }
    proof {
        assert(w@.skip(start as int) =~= Seq::empty());
        assert(pig_word(Seq::<char>::empty()) =~= Seq::empty());
        assert(pig@ + Seq::<char>::empty() =~= pig@);
    }
    pig
}

/// Puts a word into Pig Latin. Where the word has marks among its letters,
/// each run of letters and numbers is put into Pig Latin by itself.
pub fn pigify_word(word: &str) -> (pig: String)
    requires
        word@.len() > 0,
    ensures
        pig@ == pig_word(word@),
{
    string_of(&pig_chars(&chars_of(word)))
}

/// Puts a sentence into Pig Latin, word by word. Words are what stands
/// between single spaces.
pub fn pig_it(english_input: &str) -> (pig: String)
    requires
        no_empty_word(english_input@),
    ensures
        pig@ == joined(pig_words(split_on(english_input@, ' ')), " "@),
{
    let words = split_chars(&chars_of(english_input), ' ');
    let mut pigs: Vec<Vec<char>> = Vec::new();
    let mut i: usize = 0;
    while i < words.len()
        invariant
            i <= words.len(),
            pigs.len() == i,
            forall|k: int| 0 <= k < i ==> (#[trigger] pigs@[k])@ == pig_word(words@[k]@),
        decreases words.len() - i,
    {
        pigs.push(pig_chars(&words[i]));
        i += 1;
    }
    assert(texts(pigs@) =~= pig_words(texts(words@)));
    string_of(&join_chars(&pigs, " "))
}

} // verus!
