//! What holds of every translation, whatever the lexicon and the text.

use vstd::prelude::*;
use crate::lexicon::{
    first_match, is_first_match, lemma_match_has_first, LexEntry, Lexicon, Matching,
};
use crate::text::{
    folded, is_space, lemma_joined_concat, lemma_plain_text_is_folded, lemma_tokens_concat,
    lemma_tokens_of_word, lemma_word_len, space_free, tokens, word_len,
};
use crate::translator::{analysis, glosses, translation, word_gloss};

verus! {

/// Every word into which a text is split has a character and holds no
/// white space.
pub proof fn law_words_hold_no_white_space(s: Seq<char>)
    ensures
        forall|i: int|
            0 <= i < tokens(s).len() ==> (#[trigger] tokens(s)[i]).len() > 0 && space_free(
                tokens(s)[i],
            ),
    decreases s.len(),
{
    if s.len() == 0 {
    } else if is_space(s[0]) {
        law_words_hold_no_white_space(s.skip(1));
        assert(tokens(s) == tokens(s.skip(1)));
    } else {
        let n = word_len(s) as int;
        lemma_word_len(s);
        law_words_hold_no_white_space(s.skip(n));
        let rest = tokens(s.skip(n));
        assert forall|i: int| 0 <= i < tokens(s).len() implies (#[trigger] tokens(s)[i]).len() > 0
            && space_free(tokens(s)[i]) by {
            if i > 0 {
                assert(tokens(s)[i] == rest[i - 1]);
            }
        }
    }
}

/// The translation of a single word is the gloss of that word.
pub proof fn lemma_translation_of_word(lex: Lexicon, w: Seq<char>)
    requires
        w.len() > 0,
        space_free(w),
    ensures
        translation(lex, w) == word_gloss(lex, w, folded(w)),
{
    lemma_tokens_of_word(w);
    assert(glosses(lex, w) =~= seq![word_gloss(lex, w, folded(w))]);
}

/// A word whose case-folded form is a key of the vocabulary is translated to
/// the gloss that stands with that key.
pub proof fn law_known_word(lex: Lexicon, w: Seq<char>, i: int)
    requires
        lex.well_formed(),
        space_free(w),
        0 <= i < lex.vocabulary.len(),
        lex.vocabulary[i].key == folded(w),
    ensures
        translation(lex, w) == lex.vocabulary[i].gloss,
{
    assert(w.len() > 0) by {
        if w.len() == 0 {
            assert(folded(w).len() == 0);
        }
    }
    lemma_translation_of_word(lex, w);
    lemma_match_has_first(Matching::Whole, lex.vocabulary, folded(w), i);
    let j = first_match(Matching::Whole, lex.vocabulary, folded(w)).unwrap();
    assert(is_first_match(Matching::Whole, lex.vocabulary, folded(w), j));
    assert(j == i);
}

/// A word that no prefix and no suffix matches is its own breakdown.
pub proof fn law_unmatched_word_is_its_breakdown(lex: Lexicon, w: Seq<char>)
    requires
        lex.lookup(Matching::Prefix, folded(w)) is None,
        lex.lookup(Matching::Suffix, folded(w)) is None,
    ensures
        analysis(lex, w, folded(w)) == w,
{
}

/// A word that the vocabulary does not hold and that no prefix and no suffix
/// matches is its own translation.
pub proof fn law_unknown_word(lex: Lexicon, w: Seq<char>)
    requires
        space_free(w),
        lex.lookup(Matching::Whole, folded(w)) is None,
        lex.lookup(Matching::Prefix, folded(w)) is None,
        lex.lookup(Matching::Suffix, folded(w)) is None,
    ensures
        translation(lex, w) == w,
{
    if w.len() > 0 {
        lemma_translation_of_word(lex, w);
    } else {
        assert(glosses(lex, w) =~= Seq::<Seq<char>>::empty());
        assert(w =~= Seq::<char>::empty());
    }
}

/// The translation of two texts with one white-space character between
/// them, where each holds a word, is the translation of the first, a space,
/// and the translation of the second.
pub proof fn lemma_translation_concat(lex: Lexicon, a: Seq<char>, c: char, b: Seq<char>)
    requires
        is_space(c),
        tokens(a).len() > 0,
        tokens(b).len() > 0,
    ensures
        translation(lex, a + seq![c] + b) == translation(lex, a) + seq![' '] + translation(lex, b),
{
    lemma_tokens_concat(a, c, b);
    assert(glosses(lex, a + seq![c] + b) =~= glosses(lex, a) + glosses(lex, b));
    lemma_joined_concat(glosses(lex, a), glosses(lex, b), seq![' ']);
}

/// Translation keeps the order of the words: two words with a space between
/// them are translated to the translation of the first, a space, and the
/// translation of the second.
pub proof fn law_translation_keeps_order(lex: Lexicon, a: Seq<char>, b: Seq<char>)
    requires
        a.len() > 0,
        b.len() > 0,
        space_free(a),
        space_free(b),
    ensures
        translation(lex, a + seq![' '] + b) == translation(lex, a) + seq![' '] + translation(
            lex,
            b,
        ),
{
    lemma_tokens_of_word(a);
    lemma_tokens_of_word(b);
    lemma_translation_concat(lex, a, ' ', b);
}

/// The translation of the empty text is the empty text.
pub proof fn law_empty_text(lex: Lexicon)
    ensures
        translation(lex, Seq::<char>::empty()) == Seq::<char>::empty(),
{
    assert(glosses(lex, Seq::<char>::empty()) =~= Seq::<Seq<char>>::empty());
}

/// Translating a translation once more can change it: there are a
/// well-formed lexicon and a text whose translation is not its own
/// translation.
pub proof fn law_translation_not_idempotent()
    ensures
        exists|lex: Lexicon, text: Seq<char>|
            lex.well_formed() && translation(lex, #[trigger] translation(lex, text))
                != translation(lex, text),
{
    let a = seq!['a'];
    let b = seq!['b'];
    let c = seq!['c'];
    let lex = Lexicon {
        prefixes: Seq::empty(),
        suffixes: Seq::empty(),
        vocabulary: seq![LexEntry { key: a, gloss: b }, LexEntry { key: b, gloss: c }],
    };
    lemma_plain_text_is_folded(a);
    lemma_plain_text_is_folded(b);
    assert(a[0] != b[0]);
    assert(lex.well_formed());
    law_known_word(lex, a, 0);
    law_known_word(lex, b, 1);
    assert(b[0] != c[0]);
    assert(translation(lex, translation(lex, a)) != translation(lex, a));
}

} // verus!
