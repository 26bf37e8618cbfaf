use arcaxh_translator::{ArcaxhDictionary, LexiconError, Matching};

fn chars(s: &str) -> Vec<char> {
    s.chars().collect()
}

#[test]
fn empty_dictionary_finds_nothing() {
    let d = ArcaxhDictionary::new();
    assert_eq!(d.lookup_vocabulary("arkashir"), None);
    assert_eq!(d.find_prefix("arkashir"), None);
    assert_eq!(d.find_suffix("arkashir"), None);
}

#[test]
fn standard_dictionary_holds_the_standard_entries() {
    let d = ArcaxhDictionary::standard();
    assert_eq!(
        d.find_prefix("ar"),
        Some(("ar".to_string(), "arcaxh/civilization related".to_string()))
    );
    assert_eq!(
        d.find_prefix("khex"),
        Some(("khe".to_string(), "state of being".to_string()))
    );
    assert_eq!(
        d.find_prefix("velx"),
        Some(("vel".to_string(), "important person/role".to_string()))
    );
    assert_eq!(
        d.find_suffix("xin"),
        Some(("in".to_string(), "person".to_string()))
    );
    assert_eq!(
        d.find_suffix("xar"),
        Some(("ar".to_string(), "object/concept".to_string()))
    );
    assert_eq!(
        d.find_suffix("xith"),
        Some(("ith".to_string(), "state/quality".to_string()))
    );
    assert_eq!(
        d.lookup_vocabulary("arkashir"),
        Some("the arcaxh people".to_string())
    );
    assert_eq!(
        d.lookup_vocabulary("zorakhion"),
        Some("symbiotic microorganism".to_string())
    );
    assert_eq!(
        d.lookup_vocabulary("velkharn"),
        Some("capital city".to_string())
    );
    assert_eq!(d.lookup_vocabulary("vel"), None);
}

#[test]
fn lookups_ignore_case() {
    let d = ArcaxhDictionary::standard();
    assert_eq!(
        d.lookup_vocabulary("Arkashir"),
        Some("the arcaxh people".to_string())
    );
    assert_eq!(
        d.find_prefix("VELX"),
        Some(("vel".to_string(), "important person/role".to_string()))
    );
    assert_eq!(
        d.find_suffix("xIN"),
        Some(("in".to_string(), "person".to_string()))
    );
}

#[test]
fn lookup_by_characters_takes_the_word_as_it_stands() {
    let d = ArcaxhDictionary::standard();
    assert!(d.lookup(Matching::Whole, &chars("Arkashir")).is_none());
    assert!(d.lookup(Matching::Prefix, &chars("Velx")).is_none());
    assert!(d.lookup(Matching::Suffix, &chars("xIN")).is_none());
}

#[test]
fn vocabulary_lookup_needs_the_whole_word() {
    let d = ArcaxhDictionary::standard();
    assert_eq!(d.lookup_vocabulary("arkashi"), None);
    assert_eq!(d.lookup_vocabulary("arkashirs"), None);
    assert_eq!(d.lookup_vocabulary(""), None);
}

#[test]
fn affix_may_be_the_whole_word() {
    let d = ArcaxhDictionary::standard();
    assert_eq!(
        d.find_prefix("vel"),
        Some(("vel".to_string(), "important person/role".to_string()))
    );
    assert_eq!(
        d.find_suffix("in"),
        Some(("in".to_string(), "person".to_string()))
    );
    assert_eq!(d.find_prefix("ve"), None);
    assert_eq!(d.find_suffix("n"), None);
    assert_eq!(d.find_prefix(""), None);
}

#[test]
fn the_three_mappings_are_separate() {
    let d = ArcaxhDictionary::new()
        .with_prefix("ar", "as prefix")
        .unwrap()
        .with_suffix("ar", "as suffix")
        .unwrap()
        .with_word("ar", "as word")
        .unwrap();
    assert_eq!(
        d.find_prefix("ar"),
        Some(("ar".to_string(), "as prefix".to_string()))
    );
    assert_eq!(
        d.find_suffix("ar"),
        Some(("ar".to_string(), "as suffix".to_string()))
    );
    assert_eq!(d.lookup_vocabulary("ar"), Some("as word".to_string()));
}

#[test]
fn empty_key_is_refused() {
    assert!(matches!(
        ArcaxhDictionary::new().with_prefix("", "x"),
        Err(LexiconError::EmptyKey)
    ));
    assert!(matches!(
        ArcaxhDictionary::new().with_suffix("", "x"),
        Err(LexiconError::EmptyKey)
    ));
    assert!(matches!(
        ArcaxhDictionary::new().with_word("", "x"),
        Err(LexiconError::EmptyKey)
    ));
}

#[test]
fn key_with_capital_letter_is_refused() {
    assert!(matches!(
        ArcaxhDictionary::new().with_prefix("Vel", "x"),
        Err(LexiconError::NotLowercase)
    ));
    assert!(matches!(
        ArcaxhDictionary::new().with_suffix("iN", "x"),
        Err(LexiconError::NotLowercase)
    ));
    assert!(matches!(
        ArcaxhDictionary::new().with_word("ÄRK", "x"),
        Err(LexiconError::NotLowercase)
    ));
}

#[test]
fn repeated_key_is_refused() {
    let d = ArcaxhDictionary::new().with_prefix("vel", "x").unwrap();
    assert!(matches!(
        d.with_prefix("vel", "y"),
        Err(LexiconError::DuplicateKey)
    ));
    let d = ArcaxhDictionary::new().with_suffix("in", "x").unwrap();
    assert!(matches!(
        d.with_suffix("in", "y"),
        Err(LexiconError::DuplicateKey)
    ));
    let d = ArcaxhDictionary::new().with_word("ärk", "x").unwrap();
    assert!(matches!(
        d.with_word("ärk", "y"),
        Err(LexiconError::DuplicateKey)
    ));
}

#[test]
fn errors_compare_and_print() {
    assert_eq!(LexiconError::EmptyKey, LexiconError::EmptyKey);
    assert_ne!(LexiconError::EmptyKey, LexiconError::DuplicateKey);
    assert_eq!(format!("{:?}", LexiconError::NotLowercase), "NotLowercase");
}

#[test]
fn keys_without_case_are_taken() {
    let d = ArcaxhDictionary::new()
        .with_word("农历", "calendar")
        .unwrap()
        .with_prefix("7-", "seven")
        .unwrap();
    assert_eq!(d.lookup_vocabulary("农历"), Some("calendar".to_string()));
    assert_eq!(
        d.find_prefix("7-up"),
        Some(("7-".to_string(), "seven".to_string()))
    );
}

#[test]
fn lookup_by_characters_gives_key_and_gloss() {
    let d = ArcaxhDictionary::standard();
    let word = chars("velkin");
    let (key, gloss) = d.lookup(Matching::Prefix, &word).unwrap();
    assert_eq!(key, &chars("vel"));
    assert_eq!(gloss, &chars("important person/role"));
    let (key, gloss) = d.lookup(Matching::Suffix, &word).unwrap();
    assert_eq!(key, &chars("in"));
    assert_eq!(gloss, &chars("person"));
    assert!(d.lookup(Matching::Whole, &word).is_none());
    let word = chars("zorakhion");
    let (key, gloss) = d.lookup(Matching::Whole, &word).unwrap();
    assert_eq!(key, &chars("zorakhion"));
    assert_eq!(gloss, &chars("symbiotic microorganism"));
}
