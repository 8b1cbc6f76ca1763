//! Capitalising the words of a name.

use vstd::prelude::*;
use vstd::string::*;

verus! {

/// The lower-case form of a text, as `str::to_lowercase` gives it.
pub uninterp spec fn lowercase_of(text: Seq<char>) -> Seq<char>;

/// The pieces that `str::split` cuts a text into at the occurrences of a
/// separator.
pub uninterp spec fn pieces_of(text: Seq<char>, separator: Seq<char>) -> Seq<Seq<char>>;

pub open spec fn texts(list: Seq<String>) -> Seq<Seq<char>> {
    list.map_values(|s: String| s@)
}

/// `str::to_lowercase`.
#[verifier::external_body]
fn lowercase(text: &str) -> (lower: String)
    ensures
        lower@ == lowercase_of(text@),
{
    text.to_lowercase()
}

/// Whether `separator` stands in `text` at position `at`.
pub open spec fn stands_at(text: Seq<char>, separator: Seq<char>, at: int) -> bool {
    0 <= at && at + separator.len() <= text.len() && text.subrange(at, at + separator.len())
        == separator
}

/// The first position at or after `from` at which `separator` stands in
/// `text`.
pub open spec fn first_at(text: Seq<char>, separator: Seq<char>, from: int) -> Option<int>
    decreases text.len() - from + 1,
{
    if from < 0 || from + separator.len() > text.len() {
        None
    } else if stands_at(text, separator, from) {
        Some(from)
    } else {
        first_at(text, separator, from + 1)
    }
}

/// A text cut at a separator that is not empty: what stands before the
/// first occurrence of the separator, and then the rest behind it cut in
/// the same way. A text without the separator is one piece.
pub open spec fn cut(text: Seq<char>, separator: Seq<char>) -> Seq<Seq<char>>
    decreases text.len(),
{
    match first_at(text, separator, 0) {
        Some(at) => if separator.len() > 0 && 0 <= at && at + separator.len() <= text.len() {
            seq![text.subrange(0, at)] + cut(
                text.subrange(at + separator.len(), text.len() as int),
                separator,
            )
        } else {
            seq![text]
        },
        None => seq![text],
    }
}

/// `str::split` with a string as the separator, the pieces collected. A
/// separator that is not empty cuts the text at its occurrences, found from
/// the left, none overlapping the one before.
#[verifier::external_body]
pub(crate) fn split(text: &str, separator: &str) -> (pieces: Vec<String>)
    ensures
        texts(pieces@) == pieces_of(text@, separator@),
        separator@.len() > 0 ==> texts(pieces@) == cut(text@, separator@),
{
    text.split(separator).map(|piece| piece.to_string()).collect()
}

/// A lower-case ASCII letter as a capital.
pub open spec fn capital(c: char) -> char {
    if 'a' <= c && c <= 'z' {
        ((c as u8) - 32) as char
    } else {
        c
    }
}

/// A word with its first character as a capital, where that is a
/// lower-case ASCII letter.
pub open spec fn capitalized(word: Seq<char>) -> Seq<char> {
    if word.len() > 0 {
        seq![capital(word[0])] + word.subrange(1, word.len() as int)
    } else {
        word
    }
}

/// The words from the `from`th on, capitalised, with a hyphen before each
/// but the very first.
pub open spec fn hyphenated(words: Seq<Seq<char>>, from: int) -> Seq<char>
    decreases words.len() - from,
{
    if from < 0 || from >= words.len() {
        Seq::empty()
    } else if from == 0 {
        capitalized(words[from]) + hyphenated(words, from + 1)
    } else {
        seq!['-'] + capitalized(words[from]) + hyphenated(words, from + 1)
    }
}

proof fn lemma_hyphenated_step(words: Seq<Seq<char>>, k: int)
    requires
        0 <= k < words.len(),
    ensures
        hyphenated(words.subrange(0, k + 1), 0) == hyphenated(words.subrange(0, k), 0) + (if k == 0 {
            Seq::<char>::empty()
        } else {
            seq!['-']
        }) + capitalized(words[k]),
{
    lemma_hyphenated_append(words.subrange(0, k), words[k], 0);
    assert(words.subrange(0, k + 1) =~= words.subrange(0, k).push(words[k]));
}

proof fn lemma_hyphenated_append(words: Seq<Seq<char>>, word: Seq<char>, from: int)
    requires
        0 <= from <= words.len(),
    ensures
        hyphenated(words.push(word), from) == hyphenated(words, from) + (if words.len() == 0 {
            Seq::<char>::empty()
        } else {
            seq!['-']
        }) + capitalized(word),
    decreases words.len() - from,
{
    let longer = words.push(word);
    if from < words.len() {
        lemma_hyphenated_append(words, word, from + 1);
        assert(longer[from] == words[from]);
        assert(hyphenated(longer, from) =~= hyphenated(words, from) + (if words.len() == 0 {
            Seq::<char>::empty()
        } else {
            seq!['-']
        }) + capitalized(word));
    } else {
        assert(longer[from] == word);
        assert(hyphenated(longer, from + 1) =~= Seq::<char>::empty());
        assert(hyphenated(words, from) =~= Seq::<char>::empty());
        assert(hyphenated(longer, from) =~= hyphenated(words, from) + (if words.len() == 0 {
            Seq::<char>::empty()
        } else {
            seq!['-']
        }) + capitalized(word));
    }
}

/// Appends a word with its first character capitalised.
fn push_capitalized(out: &mut String, word: &str)
    ensures
        final(out)@ == old(out)@ + capitalized(word@),
{
    let n = word.unicode_len();
    if n == 0 {
        assert(out@ =~= old(out)@ + capitalized(word@));
        return ;
    }
    let first = word.get_char(0);
    if first >= 'a' && first <= 'z' {
        let upper = match first {
            'a' => "A",
            'b' => "B",
            'c' => "C",
            'd' => "D",
            'e' => "E",
            'f' => "F",
            'g' => "G",
            'h' => "H",
            'i' => "I",
            'j' => "J",
            'k' => "K",
            'l' => "L",
            'm' => "M",
            'n' => "N",
            'o' => "O",
            'p' => "P",
            'q' => "Q",
            'r' => "R",
            's' => "S",
            't' => "T",
            'u' => "U",
            'v' => "V",
            'w' => "W",
            'x' => "X",
            'y' => "Y",
            _ => "Z",
        };
        proof {
            reveal_strlit("A");
            reveal_strlit("B");
            reveal_strlit("C");
            reveal_strlit("D");
            reveal_strlit("E");
            reveal_strlit("F");
            reveal_strlit("G");
            reveal_strlit("H");
            reveal_strlit("I");
            reveal_strlit("J");
            reveal_strlit("K");
            reveal_strlit("L");
            reveal_strlit("M");
            reveal_strlit("N");
            reveal_strlit("O");
            reveal_strlit("P");
            reveal_strlit("Q");
            reveal_strlit("R");
            reveal_strlit("S");
            reveal_strlit("T");
            reveal_strlit("U");
            reveal_strlit("V");
            reveal_strlit("W");
            reveal_strlit("X");
            reveal_strlit("Y");
            reveal_strlit("Z");
            assert(upper@ =~= seq![capital(first)]);
        }
        out.append(upper);
        out.append(word.substring_char(1, n));
    } else {
        out.append(word);
        assert(word@ =~= seq![capital(word@[0])] + word@.subrange(1, n as int));
    }
}

/// Joins words to a name in the form of a header name: each word with a
/// capital, the words joined by hyphens.
pub fn join_words(words: &Vec<String>) -> (name: String)
    ensures
        name@ == hyphenated(texts(words@), 0),
{
    let mut name = String::new();
    let mut k: usize = 0;
    assert(name@ =~= hyphenated(texts(words@).subrange(0, 0), 0));
    while k < words.len()
        invariant
            k <= words@.len(),
            name@ == hyphenated(texts(words@).subrange(0, k as int), 0),
        decreases words@.len() - k,
    {
        proof {
            reveal_strlit("-");
            lemma_hyphenated_step(texts(words@), k as int);
        }
        if k != 0 {
            name.append("-");
        }
        push_capitalized(&mut name, words[k].as_str());
        assert(name@ =~= hyphenated(texts(words@).subrange(0, k as int), 0) + (if k == 0 {
            Seq::<char>::empty()
        } else {
            seq!['-']
        }) + capitalized(words@[k as int]@));
        k += 1;
    }
    assert(texts(words@).subrange(0, k as int) =~= texts(words@));
    name
}

/// Writes a name in the form of a header name: in lower case, each word
/// with a capital, the words joined by hyphens. `pattern` is what
/// separates the words of `text`.
pub fn unwords(text: &str, pattern: &str) -> (name: String)
    ensures
        name@ == hyphenated(pieces_of(lowercase_of(text@), pattern@), 0),
        pattern@.len() > 0 ==> name@ == hyphenated(cut(lowercase_of(text@), pattern@), 0),
{
    let lower = lowercase(text);
    let words = split(lower.as_str(), pattern);
    join_words(&words)
}

} // verus!
