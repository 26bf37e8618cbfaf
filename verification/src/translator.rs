//! The translator: the gloss of a text word by word, and the breakdown of a
//! word that the vocabulary does not hold.

use vstd::prelude::*;
use crate::lexicon::{standard_lexicon, ArcaxhDictionary, LexEntry, Lexicon, Matching};
use crate::text::{
    append_text, chars_of, fold, folded, join, joined, split_words, string_of, texts, tokens,
};

verus! {

/// The annotation for one affix: `(key [gloss])`.
pub open spec fn fragment(e: LexEntry) -> Seq<char> {
    seq!['('] + e.key + seq![' ', '['] + e.gloss + seq![']', ')']
}

/// The fragment for `e`, where there is one, as a list.
pub open spec fn fragment_list(e: Option<LexEntry>) -> Seq<Seq<char>> {
    match e {
        Some(e) => seq![fragment(e)],
        None => Seq::empty(),
    }
}

/// The annotations for the word whose case-folded form is `low`: that of the
/// first matching prefix, then that of the first matching suffix.
pub open spec fn fragments(lex: Lexicon, low: Seq<char>) -> Seq<Seq<char>> {
    fragment_list(lex.lookup(Matching::Prefix, low)) + fragment_list(
        lex.lookup(Matching::Suffix, low),
    )
}

/// The breakdown of `word`, whose case-folded form is `low`: the word itself
/// where no affix matches; else the word, a colon and a space, and the
/// annotations joined by hyphens.
pub open spec fn analysis(lex: Lexicon, word: Seq<char>, low: Seq<char>) -> Seq<char> {
    let f = fragments(lex, low);
    if f.len() == 0 {
        word
    } else {
        word + seq![':', ' '] + joined(f, seq!['-'])
    }
}

/// The gloss of `word`, whose case-folded form is `low`: that of the
/// vocabulary where it holds `low`, else the breakdown of the word.
pub open spec fn word_gloss(lex: Lexicon, word: Seq<char>, low: Seq<char>) -> Seq<char> {
    match lex.lookup(Matching::Whole, low) {
        Some(e) => e.gloss,
        None => analysis(lex, word, low),
    }
}

/// The glosses of the words of `text`, in order.
pub open spec fn glosses(lex: Lexicon, text: Seq<char>) -> Seq<Seq<char>> {
    tokens(text).map_values(|w: Seq<char>| word_gloss(lex, w, folded(w)))
}

/// The gloss of `text`: the glosses of its words with one space between each
/// two neighbours.
pub open spec fn translation(lex: Lexicon, text: Seq<char>) -> Seq<char> {
    joined(glosses(lex, text), seq![' '])
}

/// Translates Arcaxh text into English glosses with the help of a dictionary
/// that it holds and never changes.
pub struct ArcaxhTranslator {
    dictionary: ArcaxhDictionary,
}

impl View for ArcaxhTranslator {
    type V = Lexicon;

    closed spec fn view(&self) -> Lexicon {
        self.dictionary@
    }
}

/// The annotation for the affix `key` with the gloss `gloss`.
fn fragment_of(key: &[char], gloss: &[char]) -> (r: Vec<char>)
    ensures
        r@ == fragment(LexEntry { key: key@, gloss: gloss@ }),
{
    let mut r: Vec<char> = Vec::new();
    r.push('(');
    append_text(&mut r, key);
    r.push(' ');
    r.push('[');
    append_text(&mut r, gloss);
    r.push(']');
    r.push(')');
    assert(r@ =~= fragment(LexEntry { key: key@, gloss: gloss@ }));
    r
}

impl ArcaxhTranslator {
    /// A translator that reads the standard dictionary.
    pub fn new() -> (t: ArcaxhTranslator)
        ensures
            t@ == standard_lexicon(),
            t@.well_formed(),
    {
        ArcaxhTranslator { dictionary: ArcaxhDictionary::standard() }
    }

    /// A translator that reads `dictionary`.
    pub fn with_dictionary(dictionary: ArcaxhDictionary) -> (t: ArcaxhTranslator)
        ensures
            t@ == dictionary@,
            t@.well_formed(),
    {
        proof {
            use_type_invariant(&dictionary);
        }
        ArcaxhTranslator { dictionary }
    }

    /// The dictionary that this translator reads.
    pub fn dictionary(&self) -> (d: &ArcaxhDictionary)
        ensures
            d@ == self@,
            d@.well_formed(),
    {
        proof {
            use_type_invariant(&self.dictionary);
        }
        &self.dictionary
    }

    /// The breakdown of `word`, whose case-folded form is `low`.
    pub fn analyze_chars(&self, word: &[char], low: &[char]) -> (r: Vec<char>)
        ensures
            r@ == analysis(self@, word@, low@),
    {
        let mut components: Vec<Vec<char>> = Vec::new();
        match self.dictionary.lookup(Matching::Prefix, low) {
            Some((key, gloss)) => {
                components.push(fragment_of(key.as_slice(), gloss.as_slice()));
            },
            None => {},
        }
        assert(texts(components@) =~= fragment_list(self@.lookup(Matching::Prefix, low@)));
        match self.dictionary.lookup(Matching::Suffix, low) {
            Some((key, gloss)) => {
                components.push(fragment_of(key.as_slice(), gloss.as_slice()));
            },
            None => {},
        }
        assert(texts(components@) =~= fragments(self@, low@));
        let mut r: Vec<char> = Vec::new();
        append_text(&mut r, word);
        if components.len() > 0 {
            r.push(':');
            r.push(' ');
            let mut hyphen: Vec<char> = Vec::new();
            hyphen.push('-');
            assert(hyphen@ =~= seq!['-']);
            let notes = join(&components, hyphen.as_slice());
            append_text(&mut r, notes.as_slice());
        }
        assert(r@ =~= analysis(self@, word@, low@));
        r
    }

    /// The breakdown of `word`, whose case-folded form is `low`, as a string.
    pub fn analyze_folded(&self, word: &str, low: &str) -> (r: String)
        ensures
            r@ == analysis(self@, word@, low@),
    {
        let w = chars_of(word);
        let l = chars_of(low);
        let a = self.analyze_chars(w.as_slice(), l.as_slice());
        string_of(a.as_slice())
    }

    /// Breaks `word` down into the first prefix and the first suffix of the
    /// dictionary that match its case-folded form. The two are looked for
    /// apart from each other, so both may cover the same letters. The word
    /// itself stands in the result as it was given; it comes back alone where
    /// neither a prefix nor a suffix matches.
    pub fn analyze_word(&self, word: &str) -> (r: String)
        ensures
            r@ == analysis(self@, word@, folded(word@)),
    {
        let w = chars_of(word);
        let l = fold(w.as_slice());
        let a = self.analyze_chars(w.as_slice(), l.as_slice());
        string_of(a.as_slice())
    }

    /// The gloss of `word`, whose case-folded form is `low`.
    pub fn gloss_chars(&self, word: &[char], low: &[char]) -> (r: Vec<char>)
        ensures
            r@ == word_gloss(self@, word@, low@),
    {
        match self.dictionary.lookup(Matching::Whole, low) {
            Some((_, gloss)) => {
                let mut r: Vec<char> = Vec::new();
                append_text(&mut r, gloss.as_slice());
                r
            },
            None => self.analyze_chars(word, low),
        }
    }

    /// The gloss of `word`, whose case-folded form is `low`, as a string.
    pub fn gloss_folded(&self, word: &str, low: &str) -> (r: String)
        ensures
            r@ == word_gloss(self@, word@, low@),
    {
        let w = chars_of(word);
        let l = chars_of(low);
        let g = self.gloss_chars(w.as_slice(), l.as_slice());
        string_of(g.as_slice())
    }

    /// The gloss of `text`, word by word.
    pub fn translate_chars(&self, text: &[char]) -> (r: Vec<char>)
        ensures
            r@ == translation(self@, text@),
    {
        let words = split_words(text);
        let mut parts: Vec<Vec<char>> = Vec::new();
        let mut i: usize = 0;
        while i < words.len()
            invariant
                i <= words.len(),
                texts(words@) == tokens(text@),
                texts(parts@) == glosses(self@, text@).take(i as int),
            decreases words.len() - i,
        {
            let low = fold(words[i].as_slice());
            let gloss = self.gloss_chars(words[i].as_slice(), low.as_slice());
            proof {
                let all = glosses(self@, text@);
                assert(texts(words@)[i as int] == words@[i as int]@);
                assert(all.len() == words@.len());
                assert(all[i as int] == gloss@);
                assert(all.take(i + 1) =~= all.take(i as int).push(gloss@));
                assert(texts(parts@.push(gloss)) =~= texts(parts@).push(gloss@));
            }
            parts.push(gloss);
            i += 1;
        }
        assert(glosses(self@, text@).take(i as int) =~= glosses(self@, text@));
        let mut space: Vec<char> = Vec::new();
        space.push(' ');
        assert(space@ =~= seq![' ']);
        join(&parts, space.as_slice())
    }

    /// Translates `text`: each word becomes the gloss that the vocabulary has
    /// for its case-folded form, or else its breakdown; the results stand in
    /// the order of the words, with one space between each two neighbours.
    /// Text without a word gives the empty string.
    ///
    /// A gloss is English, not Arcaxh: translating a result once more is not
    /// meant to give it back, and in general does not.
    pub fn translate_to_english(&self, text: &str) -> (r: String)
        ensures
            r@ == translation(self@, text@),
    {
        let t = chars_of(text);
        let g = self.translate_chars(t.as_slice());
        string_of(g.as_slice())
    }
}

} // verus!
