use arcaxh_translator::text::{
    all_ascii, append_text, char_ascii_lower, char_is_space, chars_of, ends_with, fold, join,
    same_text, split_words, starts_with, string_of,
};

fn chars(s: &str) -> Vec<char> {
    s.chars().collect()
}

fn string(v: &[char]) -> String {
    v.iter().collect()
}

#[test]
fn white_space_is_what_the_standard_library_calls_so() {
    let mut c = '\0';
    loop {
        assert_eq!(char_is_space(c), c.is_whitespace(), "{:?}", c);
        if c == char::MAX {
            break;
        }
        c = char::from_u32(c as u32 + 1).unwrap_or('\u{e000}');
    }
}

#[test]
fn ascii_letters_fold_as_the_standard_library_folds_them() {
    for n in 0u8..128 {
        let c = n as char;
        assert_eq!(char_ascii_lower(c), c.to_ascii_lowercase());
        assert_eq!(string(&fold(&[c])), c.to_string().to_lowercase());
    }
    assert_eq!(char_ascii_lower('Ä'), 'Ä');
}

#[test]
fn fold_is_the_lower_case_form() {
    for s in ["", "arkashir", "ARKASHIR", "Vel-Kharn 42", "ÄRKashir", "ΟΔΟΣ", "农历新年", "İ"] {
        assert_eq!(string(&fold(&chars(s))), s.to_lowercase(), "{:?}", s);
    }
    assert_eq!(string(&fold(&chars("HeLLo"))), "hello");
    assert_eq!(string(&fold(&chars("ÄRK"))), "ärk");
}

#[test]
fn strings_and_characters_convert_both_ways() {
    for s in ["", "a", "arkashir", "ärk 农历\n"] {
        assert_eq!(chars_of(s), chars(s));
        assert_eq!(string_of(&chars(s)), s);
    }
}

#[test]
fn all_ascii_tells_ascii_text() {
    assert!(all_ascii(&chars("")));
    assert!(all_ascii(&chars("Vel kharn\u{7f}")));
    assert!(!all_ascii(&chars("vel\u{80}")));
    assert!(!all_ascii(&chars("ärk")));
}

#[test]
fn same_text_compares_character_by_character() {
    assert!(same_text(&chars(""), &chars("")));
    assert!(same_text(&chars("vel"), &chars("vel")));
    assert!(!same_text(&chars("vel"), &chars("ver")));
    assert!(!same_text(&chars("vel"), &chars("ve")));
    assert!(!same_text(&chars("ve"), &chars("vel")));
}

#[test]
fn starts_with_and_ends_with() {
    assert!(starts_with(&chars("velkharn"), &chars("vel")));
    assert!(starts_with(&chars("vel"), &chars("vel")));
    assert!(starts_with(&chars("vel"), &chars("")));
    assert!(!starts_with(&chars("ve"), &chars("vel")));
    assert!(!starts_with(&chars("xvel"), &chars("vel")));
    assert!(ends_with(&chars("xyzin"), &chars("in")));
    assert!(ends_with(&chars("in"), &chars("in")));
    assert!(ends_with(&chars("in"), &chars("")));
    assert!(!ends_with(&chars("n"), &chars("in")));
    assert!(!ends_with(&chars("inx"), &chars("in")));
}

#[test]
fn split_words_is_split_whitespace() {
    for s in [
        "",
        " ",
        "a",
        "a b",
        "  a  b  ",
        "arkashir\tqqq\nvel",
        "a\u{a0}b\u{3000}c\u{2003}d",
        "\u{85}x\u{1680}",
        "a\u{200b}b",
    ] {
        let got: Vec<String> = split_words(&chars(s)).iter().map(|w| string(w)).collect();
        let want: Vec<String> = s.split_whitespace().map(|w| w.to_string()).collect();
        assert_eq!(got, want, "{:?}", s);
    }
    assert_eq!(split_words(&chars(" ab  c ")), vec![chars("ab"), chars("c")]);
}

#[test]
fn join_puts_the_separator_between_neighbours() {
    let sep = chars(", ");
    assert_eq!(string(&join(&vec![], &sep)), "");
    assert_eq!(string(&join(&vec![chars("a")], &sep)), "a");
    assert_eq!(string(&join(&vec![chars("a"), chars("b")], &sep)), "a, b");
    assert_eq!(
        string(&join(&vec![chars("a"), chars(""), chars("c")], &sep)),
        "a, , c"
    );
}

#[test]
fn append_text_appends() {
    let mut v = chars("ab");
    append_text(&mut v, &chars("cd"));
    assert_eq!(v, chars("abcd"));
    append_text(&mut v, &[]);
    assert_eq!(v, chars("abcd"));
}
