//! The lexicon: three ordered mappings from a surface form to its gloss, and
//! the first-match lookups over them.

use vstd::prelude::*;
use crate::text::{
    chars_of, ends_with, fold, folded, lemma_plain_text_is_folded, same_text, starts_with,
    string_of,
};

verus! {

/// One entry of a mapping: a surface form and what it means.
pub struct LexEntry {
    pub key: Seq<char>,
    pub gloss: Seq<char>,
}

/// The three mappings of a lexicon, each in the order in which its entries
/// were added.
pub struct Lexicon {
    pub prefixes: Seq<LexEntry>,
    pub suffixes: Seq<LexEntry>,
    pub vocabulary: Seq<LexEntry>,
}

/// How a key is held against a word.
#[derive(Clone, Copy, Debug)]
pub enum Matching {
    /// The key is the whole word.
    Whole,
    /// The word begins with the key.
    Prefix,
    /// The word ends with the key.
    Suffix,
}

/// Whether `key` matches `word` in the way `how`.
pub open spec fn key_matches(how: Matching, key: Seq<char>, word: Seq<char>) -> bool {
    match how {
        Matching::Whole => key == word,
        Matching::Prefix => key.is_prefix_of(word),
        Matching::Suffix => key.is_suffix_of(word),
    }
}

/// Whether entry `i` matches `word` and no entry before it does.
pub open spec fn is_first_match(
    how: Matching,
    entries: Seq<LexEntry>,
    word: Seq<char>,
    i: int,
) -> bool {
    &&& 0 <= i < entries.len()
    &&& key_matches(how, entries[i].key, word)
    &&& forall|j: int| 0 <= j < i ==> !key_matches(how, #[trigger] entries[j].key, word)
}

/// The index of the first entry whose key matches `word`, if any does.
pub open spec fn first_match(how: Matching, entries: Seq<LexEntry>, word: Seq<char>) -> Option<
    int,
> {
    if exists|i: int| is_first_match(how, entries, word, i) {
        Some(choose|i: int| is_first_match(how, entries, word, i))
    } else {
        None
    }
}

/// The first match is the one entry that matches with none matching before it.
pub proof fn lemma_first_match_is(how: Matching, entries: Seq<LexEntry>, word: Seq<char>, i: int)
    requires
        is_first_match(how, entries, word, i),
    ensures
        first_match(how, entries, word) == Some(i),
{
    let c = choose|k: int| is_first_match(how, entries, word, k);
    assert(is_first_match(how, entries, word, c));
    if c < i {
        assert(!key_matches(how, entries[c].key, word));
    }
    if i < c {
        assert(!key_matches(how, entries[i].key, word));
    }
}

/// Where an entry matches, there is a first match, at that entry or before it.
pub proof fn lemma_match_has_first(how: Matching, entries: Seq<LexEntry>, word: Seq<char>, i: int)
    requires
        0 <= i < entries.len(),
        key_matches(how, entries[i].key, word),
    ensures
        first_match(how, entries, word) is Some,
        first_match(how, entries, word).unwrap() <= i,
    decreases i,
{
    if exists|j: int| 0 <= j < i && key_matches(how, #[trigger] entries[j].key, word) {
        let j = choose|j: int| 0 <= j < i && key_matches(how, #[trigger] entries[j].key, word);
        lemma_match_has_first(how, entries, word, j);
    } else {
        lemma_first_match_is(how, entries, word, i);
    }
}

/// Where no entry matches there is no first match.
pub proof fn lemma_first_match_none(how: Matching, entries: Seq<LexEntry>, word: Seq<char>)
    requires
        forall|j: int| 0 <= j < entries.len() ==> !key_matches(how, #[trigger] entries[j].key, word),
    ensures
        first_match(how, entries, word) is None,
{
}

/// The first entry whose key matches `word`, if any does.
pub open spec fn first_entry(how: Matching, entries: Seq<LexEntry>, word: Seq<char>) -> Option<
    LexEntry,
> {
    match first_match(how, entries, word) {
        Some(i) => Some(entries[i]),
        None => None,
    }
}

/// Whether some entry of `m` has the key `key`.
pub open spec fn has_key(m: Seq<LexEntry>, key: Seq<char>) -> bool {
    first_match(Matching::Whole, m, key) is Some
}

/// Whether `m` can be a mapping of a lexicon: no key is empty, every key is
/// in case-folded form, and no key stands twice.
pub open spec fn valid_mapping(m: Seq<LexEntry>) -> bool {
    &&& forall|i: int|
        0 <= i < m.len() ==> (#[trigger] m[i]).key.len() > 0 && folded(m[i].key) == m[i].key
    &&& forall|i: int, j: int|
        0 <= i < j < m.len() ==> (#[trigger] m[i]).key != (#[trigger] m[j]).key
}

impl Lexicon {
    /// The lexicon without entries.
    pub open spec fn empty() -> Lexicon {
        Lexicon { prefixes: Seq::empty(), suffixes: Seq::empty(), vocabulary: Seq::empty() }
    }

    /// The mapping that is searched in the way `how`.
    pub open spec fn mapping(self, how: Matching) -> Seq<LexEntry> {
        match how {
            Matching::Whole => self.vocabulary,
            Matching::Prefix => self.prefixes,
            Matching::Suffix => self.suffixes,
        }
    }

    /// The first entry of the mapping for `how` whose key matches `word`.
    pub open spec fn lookup(self, how: Matching, word: Seq<char>) -> Option<LexEntry> {
        first_entry(how, self.mapping(how), word)
    }

    /// Whether each of the three mappings is valid.
    pub open spec fn well_formed(self) -> bool {
        &&& valid_mapping(self.prefixes)
        &&& valid_mapping(self.suffixes)
        &&& valid_mapping(self.vocabulary)
    }
}

/// Why a mapping does not take an entry.
#[derive(Clone, Copy, Debug, PartialEq, Eq, Structural)]
pub enum LexiconError {
    /// The key has no character.
    EmptyKey,
    /// The key is not in case-folded form.
    NotLowercase,
    /// The mapping has an entry with this key.
    DuplicateKey,
}

/// Why `m` does not take an entry with the key `key`, if it does not.
pub open spec fn refusal(m: Seq<LexEntry>, key: Seq<char>) -> Option<LexiconError> {
    if key.len() == 0 {
        Some(LexiconError::EmptyKey)
    } else if folded(key) != key {
        Some(LexiconError::NotLowercase)
    } else if has_key(m, key) {
        Some(LexiconError::DuplicateKey)
    } else {
        None
    }
}

/// The lexicon that a translator reads unless it is given another one.
pub open spec fn standard_lexicon() -> Lexicon {
    Lexicon {
        prefixes: seq![
            LexEntry { key: "ar"@, gloss: "arcaxh/civilization related"@ },
            LexEntry { key: "khe"@, gloss: "state of being"@ },
            LexEntry { key: "vel"@, gloss: "important person/role"@ },
        ],
        suffixes: seq![
            LexEntry { key: "in"@, gloss: "person"@ },
            LexEntry { key: "ar"@, gloss: "object/concept"@ },
            LexEntry { key: "ith"@, gloss: "state/quality"@ },
        ],
        vocabulary: seq![
            LexEntry { key: "arkashir"@, gloss: "the arcaxh people"@ },
            LexEntry { key: "zorakhion"@, gloss: "symbiotic microorganism"@ },
            LexEntry { key: "velkharn"@, gloss: "capital city"@ },
        ],
    }
}

/// An entry as the dictionary stores it.
struct Entry {
    key: Vec<char>,
    gloss: Vec<char>,
}

/// What a stored entry stands for.
spec fn entry_of(e: Entry) -> LexEntry {
    LexEntry { key: e.key@, gloss: e.gloss@ }
}

/// What a stored mapping stands for.
spec fn entries_of(v: Seq<Entry>) -> Seq<LexEntry> {
    v.map_values(|e: Entry| entry_of(e))
}

/// Tells whether `key` matches `word` in the way `how`.
fn matches(how: Matching, key: &[char], word: &[char]) -> (r: bool)
    ensures
        r == key_matches(how, key@, word@),
{
    match how {
        Matching::Whole => same_text(key, word),
        Matching::Prefix => starts_with(word, key),
        Matching::Suffix => ends_with(word, key),
    }
}

/// The place of the first entry of `entries` whose key matches `word`.
fn find(how: Matching, entries: &Vec<Entry>, word: &[char]) -> (r: Option<usize>)
    ensures
        r is Some ==> first_match(how, entries_of(entries@), word@) == Some(r.unwrap() as int),
        r is None ==> first_match(how, entries_of(entries@), word@) is None,
{
    let ghost model = entries_of(entries@);
    let mut i: usize = 0;
    while i < entries.len()
        invariant
            i <= entries.len(),
            model == entries_of(entries@),
            forall|j: int| 0 <= j < i ==> !key_matches(how, #[trigger] model[j].key, word@),
        decreases entries.len() - i,
    {
        if matches(how, entries[i].key.as_slice(), word) {
            proof {
                lemma_first_match_is(how, model, word@, i as int);
            }
            return Some(i);
        }
        i += 1;
    }
    proof {
        lemma_first_match_none(how, model, word@);
    }
    None
}

/// Adds the entry `key`, `gloss` at the end of `entries`, unless the mapping
/// refuses the key.
fn append_entry(entries: &mut Vec<Entry>, key: &str, gloss: &str) -> (r: Result<(), LexiconError>)
    requires
        valid_mapping(entries_of(old(entries)@)),
    ensures
        valid_mapping(entries_of(final(entries)@)),
        match refusal(entries_of(old(entries)@), key@) {
            Some(e) => r == Err::<(), LexiconError>(e) && final(entries)@ == old(entries)@,
            None => r is Ok && entries_of(final(entries)@) == entries_of(old(entries)@).push(
                LexEntry { key: key@, gloss: gloss@ },
            ),
        },
{
    let k = chars_of(key);
    if k.len() == 0 {
        return Err(LexiconError::EmptyKey);
    }
    let low = fold(k.as_slice());
    if !same_text(low.as_slice(), k.as_slice()) {
        return Err(LexiconError::NotLowercase);
    }
    if find(Matching::Whole, entries, k.as_slice()).is_some() {
        return Err(LexiconError::DuplicateKey);
    }
    let ghost before = entries_of(entries@);
    let g = chars_of(gloss);
    entries.push(Entry { key: k, gloss: g });
    proof {
        let after = entries_of(entries@);
        let e = LexEntry { key: key@, gloss: gloss@ };
        assert(after =~= before.push(e));
        assert forall|i: int, j: int| 0 <= i < j < after.len() implies (#[trigger] after[i]).key
            != (#[trigger] after[j]).key by {
            if j == before.len() && before[i].key == key@ {
                lemma_match_has_first(Matching::Whole, before, key@, i);
            }
        }
    }
    Ok(())
}

/// The dictionary of the translator: prefixes, suffixes and whole words, each
/// with its gloss. It is filled once and then only read.
pub struct ArcaxhDictionary {
    prefixes: Vec<Entry>,
    suffixes: Vec<Entry>,
    vocabulary: Vec<Entry>,
}

impl View for ArcaxhDictionary {
    type V = Lexicon;

    closed spec fn view(&self) -> Lexicon {
        Lexicon {
            prefixes: entries_of(self.prefixes@),
            suffixes: entries_of(self.suffixes@),
            vocabulary: entries_of(self.vocabulary@),
        }
    }
}

impl ArcaxhDictionary {
    /// Every dictionary holds a well-formed lexicon.
    #[verifier::type_invariant]
    pub open spec fn valid(&self) -> bool {
        self@.well_formed()
    }

    /// The dictionary without entries.
    pub fn new() -> (d: ArcaxhDictionary)
        ensures
            d@ == Lexicon::empty(),
            d@.well_formed(),
    {
        let d = ArcaxhDictionary {
            prefixes: Vec::new(),
            suffixes: Vec::new(),
            vocabulary: Vec::new(),
        };
        assert(d@.prefixes =~= Seq::empty());
        assert(d@.suffixes =~= Seq::empty());
        assert(d@.vocabulary =~= Seq::empty());
        d
    }

    /// This dictionary with one more prefix, behind the prefixes that are
    /// there.
    pub fn with_prefix(self, key: &str, gloss: &str) -> (r: Result<ArcaxhDictionary, LexiconError>)
        ensures
            match refusal(self@.prefixes, key@) {
                Some(e) => r == Err::<ArcaxhDictionary, LexiconError>(e),
                None => r is Ok && r.unwrap()@.well_formed() && r.unwrap()@ == (Lexicon {
                    prefixes: self@.prefixes.push(LexEntry { key: key@, gloss: gloss@ }),
                    ..self@
                }),
            },
    {
        proof {
            use_type_invariant(&self);
        }
        let mut prefixes = self.prefixes;
        match append_entry(&mut prefixes, key, gloss) {
            Ok(()) => Ok(
                ArcaxhDictionary { prefixes, suffixes: self.suffixes, vocabulary: self.vocabulary },
            ),
            Err(e) => Err(e),
        }
    }

    /// This dictionary with one more suffix, behind the suffixes that are
    /// there.
    pub fn with_suffix(self, key: &str, gloss: &str) -> (r: Result<ArcaxhDictionary, LexiconError>)
        ensures
            match refusal(self@.suffixes, key@) {
                Some(e) => r == Err::<ArcaxhDictionary, LexiconError>(e),
                None => r is Ok && r.unwrap()@.well_formed() && r.unwrap()@ == (Lexicon {
                    suffixes: self@.suffixes.push(LexEntry { key: key@, gloss: gloss@ }),
                    ..self@
                }),
            },
    {
        proof {
            use_type_invariant(&self);
        }
        let mut suffixes = self.suffixes;
        match append_entry(&mut suffixes, key, gloss) {
            Ok(()) => Ok(
                ArcaxhDictionary { prefixes: self.prefixes, suffixes, vocabulary: self.vocabulary },
            ),
            Err(e) => Err(e),
        }
    }

    /// This dictionary with one more whole word, behind the words that are
    /// there.
    pub fn with_word(self, key: &str, gloss: &str) -> (r: Result<ArcaxhDictionary, LexiconError>)
        ensures
            match refusal(self@.vocabulary, key@) {
                Some(e) => r == Err::<ArcaxhDictionary, LexiconError>(e),
                None => r is Ok && r.unwrap()@.well_formed() && r.unwrap()@ == (Lexicon {
                    vocabulary: self@.vocabulary.push(LexEntry { key: key@, gloss: gloss@ }),
                    ..self@
                }),
            },
    {
        proof {
            use_type_invariant(&self);
        }
        let mut vocabulary = self.vocabulary;
        match append_entry(&mut vocabulary, key, gloss) {
            Ok(()) => Ok(
                ArcaxhDictionary { prefixes: self.prefixes, suffixes: self.suffixes, vocabulary },
            ),
            Err(e) => Err(e),
        }
    }

    /// The key and the gloss of the first entry that matches `word` in the
    /// way `how`. `word` is held against the keys as it stands: a caller who
    /// wants letters matched whatever their case hands in the case-folded
    /// form.
    pub fn lookup(&self, how: Matching, word: &[char]) -> (r: Option<(&Vec<char>, &Vec<char>)>)
        ensures
            match self@.lookup(how, word@) {
                Some(e) => r is Some && r.unwrap().0@ == e.key && r.unwrap().1@ == e.gloss,
                None => r is None,
            },
    {
        let entries = match how {
            Matching::Whole => &self.vocabulary,
            Matching::Prefix => &self.prefixes,
            Matching::Suffix => &self.suffixes,
        };
        match find(how, entries, word) {
            Some(i) => Some((&entries[i].key, &entries[i].gloss)),
            None => None,
        }
    }

    /// The entries of the mapping that is searched in the way `how`, as pairs
    /// of key and gloss, in their order.
    pub fn entries(&self, how: Matching) -> (r: Vec<(String, String)>)
        ensures
            r@.len() == self@.mapping(how).len(),
            forall|i: int|
                0 <= i < r@.len() ==> (#[trigger] r@[i]).0@ == self@.mapping(how)[i].key
                    && r@[i].1@ == self@.mapping(how)[i].gloss,
    {
        let entries = match how {
            Matching::Whole => &self.vocabulary,
            Matching::Prefix => &self.prefixes,
            Matching::Suffix => &self.suffixes,
        };
        let mut r: Vec<(String, String)> = Vec::new();
        let mut i: usize = 0;
        while i < entries.len()
            invariant
                i <= entries.len(),
                entries_of(entries@) == self@.mapping(how),
                r@.len() == i,
                forall|j: int|
                    0 <= j < i ==> (#[trigger] r@[j]).0@ == self@.mapping(how)[j].key
                        && r@[j].1@ == self@.mapping(how)[j].gloss,
            decreases entries.len() - i,
        {
            let key = string_of(entries[i].key.as_slice());
            let gloss = string_of(entries[i].gloss.as_slice());
            r.push((key, gloss));
            i += 1;
        }
        r
    }

    /// The gloss that the vocabulary has for `word`, whatever the case of its
    /// letters: that of the entry whose key is the case-folded form of
    /// `word`.
    pub fn lookup_vocabulary(&self, word: &str) -> (r: Option<String>)
        ensures
            match self@.lookup(Matching::Whole, folded(word@)) {
                Some(e) => r is Some && r.unwrap()@ == e.gloss,
                None => r is None,
            },
    {
        let w = chars_of(word);
        let low = fold(w.as_slice());
        match self.lookup(Matching::Whole, low.as_slice()) {
            Some((_, gloss)) => Some(string_of(gloss.as_slice())),
            None => None,
        }
    }

    /// The key and the gloss of the first prefix with which `word` begins,
    /// whatever the case of its letters: the first one with which the
    /// case-folded form of `word` begins.
    pub fn find_prefix(&self, word: &str) -> (r: Option<(String, String)>)
        ensures
            match self@.lookup(Matching::Prefix, folded(word@)) {
                Some(e) => r is Some && r.unwrap().0@ == e.key && r.unwrap().1@ == e.gloss,
                None => r is None,
            },
    {
        let w = chars_of(word);
        let low = fold(w.as_slice());
        match self.lookup(Matching::Prefix, low.as_slice()) {
            Some((key, gloss)) => Some((string_of(key.as_slice()), string_of(gloss.as_slice()))),
            None => None,
        }
    }

    /// The key and the gloss of the first suffix with which `word` ends,
    /// whatever the case of its letters: the first one with which the
    /// case-folded form of `word` ends.
    pub fn find_suffix(&self, word: &str) -> (r: Option<(String, String)>)
        ensures
            match self@.lookup(Matching::Suffix, folded(word@)) {
                Some(e) => r is Some && r.unwrap().0@ == e.key && r.unwrap().1@ == e.gloss,
                None => r is None,
            },
    {
        let w = chars_of(word);
        let low = fold(w.as_slice());
        match self.lookup(Matching::Suffix, low.as_slice()) {
            Some((key, gloss)) => Some((string_of(key.as_slice()), string_of(gloss.as_slice()))),
            None => None,
        }
    }

    /// The dictionary that holds the standard lexicon.
    pub fn standard() -> (d: ArcaxhDictionary)
        ensures
            d@ == standard_lexicon(),
            d@.well_formed(),
    {
        proof {
            reveal_strlit("ar");
            reveal_strlit("khe");
            reveal_strlit("vel");
            reveal_strlit("in");
            reveal_strlit("ith");
            reveal_strlit("arkashir");
            reveal_strlit("zorakhion");
            reveal_strlit("velkharn");
            lemma_plain_text_is_folded("ar"@);
            lemma_plain_text_is_folded("khe"@);
            lemma_plain_text_is_folded("vel"@);
            lemma_plain_text_is_folded("in"@);
            lemma_plain_text_is_folded("ith"@);
            lemma_plain_text_is_folded("arkashir"@);
            lemma_plain_text_is_folded("zorakhion"@);
            lemma_plain_text_is_folded("velkharn"@);
            assert("khe"@[0] != "vel"@[0]);
            assert("in"@[0] != "ar"@[0]);
            assert("arkashir"@[0] != "velkharn"@[0]);
        }
        let d = ArcaxhDictionary::new();
        proof {
            lemma_first_match_none(Matching::Whole, d@.prefixes, "ar"@);
        }
        let d = d.with_prefix("ar", "arcaxh/civilization related").unwrap();
        proof {
            lemma_first_match_none(Matching::Whole, d@.prefixes, "khe"@);
        }
        let d = d.with_prefix("khe", "state of being").unwrap();
        proof {
            lemma_first_match_none(Matching::Whole, d@.prefixes, "vel"@);
        }
        let d = d.with_prefix("vel", "important person/role").unwrap();
        proof {
            lemma_first_match_none(Matching::Whole, d@.suffixes, "in"@);
        }
        let d = d.with_suffix("in", "person").unwrap();
        proof {
            lemma_first_match_none(Matching::Whole, d@.suffixes, "ar"@);
        }
        let d = d.with_suffix("ar", "object/concept").unwrap();
        proof {
            lemma_first_match_none(Matching::Whole, d@.suffixes, "ith"@);
        }
        let d = d.with_suffix("ith", "state/quality").unwrap();
        proof {
            lemma_first_match_none(Matching::Whole, d@.vocabulary, "arkashir"@);
        }
        let d = d.with_word("arkashir", "the arcaxh people").unwrap();
        proof {
            lemma_first_match_none(Matching::Whole, d@.vocabulary, "zorakhion"@);
        }
        let d = d.with_word("zorakhion", "symbiotic microorganism").unwrap();
        proof {
            lemma_first_match_none(Matching::Whole, d@.vocabulary, "velkharn"@);
        }
        let d = d.with_word("velkharn", "capital city").unwrap();
        proof {
            assert(d@.prefixes =~= standard_lexicon().prefixes);
            assert(d@.suffixes =~= standard_lexicon().suffixes);
            assert(d@.vocabulary =~= standard_lexicon().vocabulary);
            use_type_invariant(&d);
        }
        d
    }
}

} // verus!
