//! Text as sequences of characters: conversion between strings and character
//! vectors, white space, and case folding.

use vstd::prelude::*;

verus! {

/// Whether `c` carries the Unicode property `White_Space`.
pub open spec fn is_space(c: char) -> bool {
    let n = c as u32;
    ||| 0x09 <= n <= 0x0D
    ||| n == 0x20
    ||| n == 0x85
    ||| n == 0xA0
    ||| n == 0x1680
    ||| 0x2000 <= n <= 0x200A
    ||| n == 0x2028
    ||| n == 0x2029
    ||| n == 0x202F
    ||| n == 0x205F
    ||| n == 0x3000
}

/// Whether no character of `s` is white space.
pub open spec fn space_free(s: Seq<char>) -> bool {
    forall|i: int| 0 <= i < s.len() ==> !is_space(#[trigger] s[i])
}

/// Tells whether `c` is white space.
pub fn char_is_space(c: char) -> (b: bool)
    ensures
        b == is_space(c),
{
    let n: u32 = c as u32;
    (0x09 <= n && n <= 0x0D) || n == 0x20 || n == 0x85 || n == 0xA0 || n == 0x1680 || (0x2000 <= n
        && n <= 0x200A) || n == 0x2028 || n == 0x2029 || n == 0x202F || n == 0x205F || n == 0x3000
}

/// The characters of `s`, in order.
pub fn chars_of(s: &str) -> (v: Vec<char>)
    ensures
        v@ == s@,
{
    let mut v: Vec<char> = Vec::new();
    for c in it: s.chars()
        invariant
            v@ == it.seq().take(it.index() as int),
            it.seq() == s@,
    {
        v.push(c);
    }
    v
}

/// `String::push`: appends the one character `c` to the end of `s` and
/// leaves what `s` held before in place.
#[verifier::external_body]
fn push_char(s: &mut String, c: char)
    ensures
        final(s)@ == old(s)@.push(c),
{
    s.push(c);
}

/// The string that holds the characters of `chars`, in order.
pub fn string_of(chars: &[char]) -> (s: String)
    ensures
        s@ == chars@,
{
    let mut s = String::new();
    let mut i: usize = 0;
    while i < chars.len()
        invariant
            i <= chars.len(),
            s@ == chars@.take(i as int),
        decreases chars.len() - i,
    {
        push_char(&mut s, chars[i]);
        i += 1;
    }
    s
}

/// Whether every character of `s` is ASCII.
pub open spec fn ascii_only(s: Seq<char>) -> bool {
    forall|i: int| 0 <= i < s.len() ==> #[trigger] s[i] <= '\u{7f}'
}

/// The lower-case form of an ASCII letter; any other character as it is.
pub open spec fn ascii_lower(c: char) -> char {
    if 'A' <= c <= 'Z' {
        ((c as u8) + 32) as char
    } else {
        c
    }
}

/// What the standard library's Unicode lower-case mapping makes of `s`.
pub uninterp spec fn lowercase(s: Seq<char>) -> Seq<char>;

/// The case-folded form of `s`, by which words are matched. ASCII text is
/// folded letter by letter; text with any other character goes through the
/// Unicode lower-case mapping as a whole.
pub open spec fn folded(s: Seq<char>) -> Seq<char> {
    if ascii_only(s) {
        s.map_values(|c: char| ascii_lower(c))
    } else {
        lowercase(s)
    }
}

/// `str::to_lowercase`: the lower-case equivalent of `s` as a new string. The
/// result is a function of the characters of `s` alone; it is named, not
/// spelled out.
#[verifier::external_body]
fn unicode_lowercase(s: &str) -> (r: String)
    ensures
        r@ == lowercase(s@),
{
    s.to_lowercase()
}

/// ASCII text without capital letters is its own case-folded form.
pub proof fn lemma_plain_text_is_folded(s: Seq<char>)
    requires
        forall|i: int| 0 <= i < s.len() ==> (#[trigger] s[i]) <= '\u{7f}' && !('A' <= s[i] <= 'Z'),
    ensures
        folded(s) == s,
{
    assert(folded(s) =~= s);
}

/// Tells whether every character of `s` is ASCII.
pub fn all_ascii(s: &[char]) -> (b: bool)
    ensures
        b == ascii_only(s@),
{
    let mut i: usize = 0;
    while i < s.len()
        invariant
            i <= s.len(),
            ascii_only(s@.take(i as int)),
        decreases s.len() - i,
    {
        let c: char = s[i];
        if c > '\u{7f}' {
            return false;
        }
        i += 1;
    }
    assert(s@.take(i as int) =~= s@);
    true
}

/// The lower-case form of `c` where it is an ASCII letter, else `c`.
pub fn char_ascii_lower(c: char) -> (r: char)
    ensures
        r == ascii_lower(c),
{
    if 'A' <= c && c <= 'Z' {
        ((c as u8) + 32) as char
    } else {
        c
    }
}

/// Case-folds `word`.
pub fn fold(word: &[char]) -> (r: Vec<char>)
    ensures
        r@ == folded(word@),
{
    if all_ascii(word) {
        let mut r: Vec<char> = Vec::new();
        let mut i: usize = 0;
        while i < word.len()
            invariant
                i <= word.len(),
                r@ == word@.take(i as int).map_values(|c: char| ascii_lower(c)),
            decreases word.len() - i,
        {
            r.push(char_ascii_lower(word[i]));
            i += 1;
        }
        r
    } else {
        let s = string_of(word);
        let low = unicode_lowercase(s.as_str());
        chars_of(low.as_str())
    }
}

/// Tells whether `a` and `b` hold the same characters.
pub fn same_text(a: &[char], b: &[char]) -> (r: bool)
    ensures
        r == (a@ == b@),
{
    if a.len() != b.len() {
        return false;
    }
    let mut i: usize = 0;
    while i < a.len()
        invariant
            i <= a.len(),
            a.len() == b.len(),
            a@.take(i as int) == b@.take(i as int),
        decreases a.len() - i,
    {
        if a[i] != b[i] {
            return false;
        }
        assert(a@.take(i + 1) =~= a@.take(i as int).push(a@[i as int]));
        assert(b@.take(i + 1) =~= b@.take(i as int).push(b@[i as int]));
        i += 1;
    }
    assert(a@.take(i as int) =~= a@);
    assert(b@.take(i as int) =~= b@);
    true
}

/// Tells whether `word` begins with `key`.
pub fn starts_with(word: &[char], key: &[char]) -> (r: bool)
    ensures
        r == key@.is_prefix_of(word@),
{
    if key.len() > word.len() {
        return false;
    }
    same_text(key, vstd::slice::slice_subrange(word, 0, key.len()))
}

/// Tells whether `word` ends with `key`.
pub fn ends_with(word: &[char], key: &[char]) -> (r: bool)
    ensures
        r == key@.is_suffix_of(word@),
{
    if key.len() > word.len() {
        return false;
    }
    same_text(key, vstd::slice::slice_subrange(word, word.len() - key.len(), word.len()))
}

/// The length of the longest run of characters at the start of `s` that
/// holds no white space.
pub open spec fn word_len(s: Seq<char>) -> nat
    decreases s.len(),
{
    if s.len() == 0 || is_space(s[0]) {
        0
    } else {
        1 + word_len(s.skip(1))
    }
}

/// The run that `word_len` measures lies within `s`, is free of white space,
/// ends where `s` ends or where white space stands, and is not empty where
/// `s` starts with a character that is no white space.
pub proof fn lemma_word_len(s: Seq<char>)
    ensures
        word_len(s) <= s.len(),
        space_free(s.take(word_len(s) as int)),
        word_len(s) < s.len() ==> is_space(s[word_len(s) as int]),
        s.len() > 0 && !is_space(s[0]) ==> word_len(s) >= 1,
    decreases s.len(),
{
    if s.len() == 0 || is_space(s[0]) {
    } else {
        let t = s.skip(1);
        lemma_word_len(t);
        let n = word_len(s) as int;
        assert forall|i: int| 0 <= i < n implies !is_space(#[trigger] s.take(n)[i]) by {
            if i > 0 {
                assert(s.take(n)[i] == t.take(n - 1)[i - 1]);
            }
        }
        if n < s.len() {
            assert(s[n] == t[n - 1]);
        }
    }
}

/// The words of `s`: its longest runs of characters that are no white space,
/// from left to right.
pub open spec fn tokens(s: Seq<char>) -> Seq<Seq<char>>
    decreases s.len(),
    via tokens_decreases
{
    if s.len() == 0 {
        Seq::empty()
    } else if is_space(s[0]) {
        tokens(s.skip(1))
    } else {
        seq![s.take(word_len(s) as int)] + tokens(s.skip(word_len(s) as int))
    }
}

#[via_fn]
proof fn tokens_decreases(s: Seq<char>) {
    lemma_word_len(s);
}

/// A run that holds no white space is measured whole.
pub proof fn lemma_word_len_of_word(w: Seq<char>)
    requires
        space_free(w),
    ensures
        word_len(w) == w.len(),
    decreases w.len(),
{
    if w.len() > 0 {
        lemma_word_len_of_word(w.skip(1));
    }
}

/// White space behind `a` ends the run at the start of `a` where `a` itself
/// does not.
pub proof fn lemma_word_len_before_space(a: Seq<char>, rest: Seq<char>)
    requires
        rest.len() > 0,
        is_space(rest[0]),
    ensures
        word_len(a + rest) == word_len(a),
    decreases a.len(),
{
    let s = a + rest;
    if a.len() == 0 {
        assert(s =~= rest);
    } else if is_space(a[0]) {
    } else {
        assert(s.skip(1) =~= a.skip(1) + rest);
        lemma_word_len_before_space(a.skip(1), rest);
    }
}

/// A text that is not empty and holds no white space is its one word.
pub proof fn lemma_tokens_of_word(w: Seq<char>)
    requires
        w.len() > 0,
        space_free(w),
    ensures
        tokens(w) == seq![w],
{
    lemma_word_len_of_word(w);
    let n = w.len() as int;
    assert(w.take(n) =~= w);
    assert(w.skip(n) =~= Seq::<char>::empty());
    assert(tokens(w.skip(n)) == Seq::<Seq<char>>::empty());
    assert(seq![w] + Seq::<Seq<char>>::empty() =~= seq![w]);
}

/// The words of two texts with one white-space character between them are
/// the words of the first, then those of the second.
pub proof fn lemma_tokens_concat(a: Seq<char>, c: char, b: Seq<char>)
    requires
        is_space(c),
    ensures
        tokens(a + seq![c] + b) == tokens(a) + tokens(b),
    decreases a.len(),
{
    let s = a + seq![c] + b;
    if a.len() == 0 {
        assert(s.skip(1) =~= b);
        assert(tokens(a) + tokens(b) =~= tokens(b));
    } else if is_space(a[0]) {
        assert(s.skip(1) =~= a.skip(1) + seq![c] + b);
        lemma_tokens_concat(a.skip(1), c, b);
    } else {
        let n = word_len(a) as int;
        lemma_word_len(a);
        assert(s =~= a + (seq![c] + b));
        lemma_word_len_before_space(a, seq![c] + b);
        assert(s.take(n) =~= a.take(n));
        assert(s.skip(n) =~= a.skip(n) + seq![c] + b);
        lemma_tokens_concat(a.skip(n), c, b);
        assert(tokens(s) =~= tokens(a) + tokens(b));
    }
}

/// The texts of `parts` in one, with `sep` between each two neighbours.
pub open spec fn joined(parts: Seq<Seq<char>>, sep: Seq<char>) -> Seq<char>
    decreases parts.len(),
{
    if parts.len() == 0 {
        Seq::empty()
    } else if parts.len() == 1 {
        parts[0]
    } else {
        joined(parts.drop_last(), sep) + sep + parts.last()
    }
}

/// Joining two lists that each hold a text joins each and puts `sep` between
/// the two results.
pub proof fn lemma_joined_concat(x: Seq<Seq<char>>, y: Seq<Seq<char>>, sep: Seq<char>)
    requires
        x.len() > 0,
        y.len() > 0,
    ensures
        joined(x + y, sep) == joined(x, sep) + sep + joined(y, sep),
    decreases y.len(),
{
    let xy = x + y;
    assert(xy.last() == y.last());
    assert(xy.drop_last() =~= x + y.drop_last());
    if y.len() == 1 {
        assert(x + y.drop_last() =~= x);
    } else {
        lemma_joined_concat(x, y.drop_last(), sep);
        assert(joined(xy, sep) =~= joined(x, sep) + sep + joined(y, sep));
    }
}

/// What a vector of character vectors holds, as texts.
pub open spec fn texts(v: Seq<Vec<char>>) -> Seq<Seq<char>> {
    v.map_values(|t: Vec<char>| t@)
}

/// Appends the characters of `src` to `dst`.
pub fn append_text(dst: &mut Vec<char>, src: &[char])
    ensures
        final(dst)@ == old(dst)@ + src@,
{
    let mut i: usize = 0;
    while i < src.len()
        invariant
            i <= src.len(),
            dst@ == old(dst)@ + src@.take(i as int),
        decreases src.len() - i,
    {
        dst.push(src[i]);
        i += 1;
    }
    assert(src@.take(i as int) =~= src@);
}

/// Joins `parts` with `sep` between each two neighbours.
pub fn join(parts: &Vec<Vec<char>>, sep: &[char]) -> (r: Vec<char>)
    ensures
        r@ == joined(texts(parts@), sep@),
{
    let mut r: Vec<char> = Vec::new();
    let mut i: usize = 0;
    while i < parts.len()
        invariant
            i <= parts.len(),
            r@ == joined(texts(parts@).take(i as int), sep@),
        decreases parts.len() - i,
    {
        let ghost done = texts(parts@).take(i as int);
        let ghost next = texts(parts@).take(i + 1);
        assert(next.drop_last() =~= done);
        assert(next.last() == parts@[i as int]@);
        if i > 0 {
            append_text(&mut r, sep);
        }
        append_text(&mut r, parts[i].as_slice());
        assert(r@ =~= joined(next, sep@));
        i += 1;
    }
    assert(texts(parts@).take(i as int) =~= texts(parts@));
    r
}

/// Splits `text` into its words.
pub fn split_words(text: &[char]) -> (r: Vec<Vec<char>>)
    ensures
        texts(r@) == tokens(text@),
{
    let mut r: Vec<Vec<char>> = Vec::new();
    let mut i: usize = 0;
    assert(text@.skip(0) =~= text@);
    while i < text.len()
        invariant
            i <= text.len(),
            tokens(text@) == texts(r@) + tokens(text@.skip(i as int)),
        decreases text.len() - i,
    {
        let ghost rest = text@.skip(i as int);
        if char_is_space(text[i]) {
            assert(rest.skip(1) =~= text@.skip(i + 1));
            i += 1;
        } else {
            let start: usize = i;
            let mut word: Vec<char> = Vec::new();
            assert(text@.subrange(start as int, i as int) =~= Seq::empty());
            while i < text.len() && !char_is_space(text[i])
                invariant
                    start <= i <= text.len(),
                    word@ == text@.subrange(start as int, i as int),
                    word_len(text@.skip(start as int)) == (i - start) + word_len(
                        text@.skip(i as int),
                    ),
                decreases text.len() - i,
            {
                word.push(text[i]);
                assert(text@.skip(i as int).skip(1) =~= text@.skip(i + 1));
                assert(text@.subrange(start as int, i + 1) =~= text@.subrange(
                    start as int,
                    i as int,
                ).push(text@[i as int]));
                i += 1;
            }
            proof {
                let n = word_len(rest) as int;
                assert(n == i - start);
                assert(rest.take(n) =~= word@);
                assert(rest.skip(n) =~= text@.skip(i as int));
                assert(texts(r@.push(word)) =~= texts(r@) + seq![word@]);
            }
            r.push(word);
        }
    }
    assert(texts(r@) + tokens(text@.skip(i as int)) =~= texts(r@));
    r
}

} // verus!
