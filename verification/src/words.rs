//! Localized words: a dictionary from word keys to translations, and the
//! lookup with its fallbacks.

use crate::render::LabelTexts;
use vstd::prelude::*;
use vstd::string::StringExecFns;

verus! {

/// The language that a lookup falls back to.
pub open spec fn fallback_lang() -> Seq<char> {
    "en"@
}

/// The marker that stands for a word without any entry.
pub open spec fn missing_marker() -> Seq<char> {
    "<null>"@
}

/// What `str::to_uppercase` returns for a text.
pub uninterp spec fn uppercase_of(s: Seq<char>) -> Seq<char>;

/// What `str::to_lowercase` returns for a text.
pub uninterp spec fn lowercase_of(s: Seq<char>) -> Seq<char>;

/// The letter case that a word is shown in.
#[derive(Clone, Copy, Debug, PartialEq, Eq, Structural)]
pub enum CharaCase {
    Upper,
    Normal,
    Lower,
}

/// The text of a word in one language.
#[derive(Clone, Debug)]
pub struct Translation {
    pub lang: String,
    pub text: String,
}

/// A word of the dictionary: its key, in upper case, and its translations.
#[derive(Clone, Debug)]
pub struct WordEntry {
    pub key: String,
    pub translations: Vec<Translation>,
}

/// The dictionary. Where a key or a language occurs twice, the first
/// occurrence counts.
#[derive(Clone, Debug)]
pub struct Dictionary {
    pub entries: Vec<WordEntry>,
}

/// The first translation in the language `lang`.
pub open spec fn find_translation(ts: Seq<Translation>, lang: Seq<char>) -> Option<Seq<char>>
    decreases ts.len(),
{
    if ts.len() == 0 {
        None
    } else if ts[0].lang@ == lang {
        Some(ts[0].text@)
    } else {
        find_translation(ts.skip(1), lang)
    }
}

/// The translations of the first entry with the key `key`.
pub open spec fn find_entry(entries: Seq<WordEntry>, key: Seq<char>) -> Option<Seq<Translation>>
    decreases entries.len(),
{
    if entries.len() == 0 {
        None
    } else if entries[0].key@ == key {
        Some(entries[0].translations@)
    } else {
        find_entry(entries.skip(1), key)
    }
}

/// The translation in `lang`, else the one in the fallback language.
pub open spec fn lookup_spec(ts: Seq<Translation>, lang: Seq<char>) -> Option<Seq<char>> {
    match find_translation(ts, lang) {
        Some(t) => Some(t),
        None => find_translation(ts, fallback_lang()),
    }
}

/// The translation in `lang` with its fallbacks: the fallback language, then
/// the marker for a missing word.
pub open spec fn lookup_or_marker(ts: Seq<Translation>, lang: Seq<char>) -> Seq<char> {
    match lookup_spec(ts, lang) {
        Some(t) => t,
        None => missing_marker(),
    }
}

/// A text in the letter case `case`.
pub open spec fn cased(word: Seq<char>, case: CharaCase) -> Seq<char> {
    match case {
        CharaCase::Upper => uppercase_of(word),
        CharaCase::Lower => lowercase_of(word),
        CharaCase::Normal => word,
    }
}

/// The word `word` in `lang1`, followed by a slash and the word in `lang2`
/// where a second language is given. A word that the dictionary lacks is the
/// marker for a missing word.
pub open spec fn word_text(
    dictionary: Dictionary,
    word: Seq<char>,
    lang1: Seq<char>,
    lang2: Option<Seq<char>>,
    case: CharaCase,
) -> Seq<char> {
    match find_entry(dictionary.entries@, uppercase_of(word)) {
        None => missing_marker(),
        Some(ts) => match lang2 {
            None => cased(lookup_or_marker(ts, lang1), case),
            Some(second) => cased(lookup_or_marker(ts, lang1), case) + "/"@ + cased(
                lookup_or_marker(ts, second),
                case,
            ),
        },
    }
}

/// Calls `str::to_uppercase`; the contract names its result.
#[verifier::external_body]
fn uppercase(s: &str) -> (r: String)
    ensures
        r@ == uppercase_of(s@),
{
    s.to_uppercase()
}

/// Calls `str::to_lowercase`; the contract names its result.
#[verifier::external_body]
fn lowercase(s: &str) -> (r: String)
    ensures
        r@ == lowercase_of(s@),
{
    s.to_lowercase()
}

/// Whether two texts are the same.
fn same_text(a: &str, b: &str) -> (r: bool)
    ensures
        r == (a@ == b@),
{
    let x = String::from_str(a);
    let y = String::from_str(b);
    x == y
}

fn apply_case(word: &str, case: &CharaCase) -> (r: String)
    ensures
        r@ == cased(word@, *case),
{
    match case {
        CharaCase::Upper => uppercase(word),
        CharaCase::Lower => lowercase(word),
        CharaCase::Normal => String::from_str(word),
    }
}

fn translation_in<'a>(ts: &'a Vec<Translation>, lang: &str) -> (r: Option<&'a str>)
    ensures
        match r {
            Some(t) => find_translation(ts@, lang@) == Some(t@),
            None => find_translation(ts@, lang@) is None,
        },
{
    let mut i: usize = 0;
    assert(ts@.skip(0) =~= ts@);
    while i < ts.len()
        invariant
            i <= ts.len(),
            find_translation(ts@, lang@) == find_translation(ts@.skip(i as int), lang@),
        decreases ts.len() - i,
    {
        if same_text(ts[i].lang.as_str(), lang) {
            return Some(ts[i].text.as_str());
        }
        proof {
            assert(ts@.skip(i as int).skip(1) =~= ts@.skip(i + 1));
        }
        i = i + 1;
    }
    None
}

fn lookup<'a>(ts: &'a Vec<Translation>, lang: &str) -> (r: Option<&'a str>)
    ensures
        match r {
            Some(t) => lookup_spec(ts@, lang@) == Some(t@),
            None => lookup_spec(ts@, lang@) is None,
        },
{
    match translation_in(ts, lang) {
        Some(t) => Some(t),
        None => translation_in(ts, "en"),
    }
}

fn entry_for<'a>(dictionary: &'a Dictionary, key: &str) -> (r: Option<&'a Vec<Translation>>)
    ensures
        match r {
            Some(ts) => find_entry(dictionary.entries@, key@) == Some(ts@),
            None => find_entry(dictionary.entries@, key@) is None,
        },
{
    let mut i: usize = 0;
    assert(dictionary.entries@.skip(0) =~= dictionary.entries@);
    while i < dictionary.entries.len()
        invariant
            i <= dictionary.entries.len(),
            find_entry(dictionary.entries@, key@) == find_entry(
                dictionary.entries@.skip(i as int),
                key@,
            ),
        decreases dictionary.entries.len() - i,
    {
        if same_text(dictionary.entries[i].key.as_str(), key) {
            return Some(&dictionary.entries[i].translations);
        }
        proof {
            assert(dictionary.entries@.skip(i as int).skip(1) =~= dictionary.entries@.skip(i + 1));
        }
        i = i + 1;
    }
    None
}

/// Looks a word up: in `lang1`, and in `lang2` where one is given, each with
/// the fallback language behind it.
pub fn get_word(
    dictionary: &Dictionary,
    word: &str,
    lang1: &str,
    lang2: Option<&str>,
    case: CharaCase,
) -> (r: String)
    ensures
        r@ == word_text(
            *dictionary,
            word@,
            lang1@,
            match lang2 {
                Some(l) => Some(l@),
                None => None,
            },
            case,
        ),
{
    let key = uppercase(word);
    let ts = match entry_for(dictionary, key.as_str()) {
        Some(ts) => ts,
        None => {
            return String::from_str("<null>");
        },
    };
    let primary = match lookup(ts, lang1) {
        Some(t) => t,
        None => "<null>",
    };
    let mut result = apply_case(primary, &case);
    match lang2 {
        Some(second) => {
            let secondary = match lookup(ts, second) {
                Some(t) => t,
                None => "<null>",
            };
            result.append("/");
            let shown = apply_case(secondary, &case);
            result.append(shown.as_str());
        },
        None => {},
    }
    result
}

/// The words of a page header in the languages of a guild. The heading and
/// the update interval are shown in the first language only.
pub open spec fn header_labels_spec(
    dictionary: Dictionary,
    lang1: Seq<char>,
    lang2: Option<Seq<char>>,
) -> LabelTexts {
    LabelTexts {
        year: word_text(dictionary, "Year"@, lang1, lang2, CharaCase::Normal),
        count_log: word_text(dictionary, "Count Log"@, lang1, None, CharaCase::Normal),
        date: word_text(dictionary, "Date"@, lang1, lang2, CharaCase::Normal),
        sum: word_text(dictionary, "Sum"@, lang1, lang2, CharaCase::Normal),
        interval: word_text(dictionary, "5 minutes change"@, lang1, None, CharaCase::Normal),
    }
}

} // verus!
