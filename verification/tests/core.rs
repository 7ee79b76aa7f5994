use compositefont::classify::{classify_character, is_control, is_white_space, CharacterClass};
use compositefont::codepoint::{codepoint_to_char, single_codepoint, ResolveError};
use compositefont::profile::{CompositeFontProfile, FontAdjustment, ProfileStore};

#[derive(Clone, Copy, Debug, PartialEq)]
struct Metrics {
    size_ratio: f64,
    baseline_shift_em: f64,
    tracking_adjust_em: f64,
}

const NEUTRAL: Metrics = Metrics {
    size_ratio: 1.0,
    baseline_shift_em: 0.0,
    tracking_adjust_em: 0.0,
};

fn adjustment(font_family: &str) -> FontAdjustment<Metrics> {
    FontAdjustment {
        font_family: font_family.to_owned(),
        fallback_font_families: Vec::new(),
        metrics: NEUTRAL,
    }
}

fn test_profile() -> CompositeFontProfile<Metrics> {
    let mut profile = CompositeFontProfile::neutral_default(NEUTRAL);
    profile.name = "subtitle".to_owned();
    profile.western = adjustment("Inter");
    profile.hiragana = adjustment("Hiragana Font");
    profile.katakana = adjustment("Katakana Font");
    profile.kanji = adjustment("Kanji Font");
    profile.digit = adjustment("Digit Font");
    profile.symbol = adjustment("Symbol Font");
    profile.other = adjustment("Fallback Font");
    profile
}

#[test]
fn classifies_ascii_letters_as_western() {
    for character in ['A', 'z'] {
        assert_eq!(classify_character(character), CharacterClass::Western);
    }
}

#[test]
fn classifies_hiragana() {
    for character in ['あ', 'ん', 'ゝ', '\u{3099}'] {
        assert_eq!(classify_character(character), CharacterClass::Hiragana);
    }
}

#[test]
fn classifies_katakana() {
    for character in ['ア', 'ン', 'ヿ', 'ー', 'ｶ', 'ﾞ'] {
        assert_eq!(classify_character(character), CharacterClass::Katakana);
    }
}

#[test]
fn classifies_kanji() {
    for character in ['漢', '字', '々', '𠮷'] {
        assert_eq!(classify_character(character), CharacterClass::Kanji);
    }
}

#[test]
fn classifies_digits() {
    for character in ['0', '9', '０', '９', '٥'] {
        assert_eq!(classify_character(character), CharacterClass::Digit);
    }
}

#[test]
fn classifies_symbols() {
    for character in ['!', '?', '。', '・', '★', '😀'] {
        assert_eq!(classify_character(character), CharacterClass::Symbol);
    }
}

#[test]
fn classifies_unmatched_characters_as_other() {
    for character in ['é', 'Ж', 'Ａ', ' '] {
        assert_eq!(classify_character(character), CharacterClass::Other);
    }
}

#[test]
fn profile_selects_adjustment_for_each_class() {
    let profile = test_profile();

    for (character, font, category) in [
        ('A', "Inter", "western"),
        ('あ', "Hiragana Font", "hiragana"),
        ('カ', "Katakana Font", "katakana"),
        ('漢', "Kanji Font", "kanji"),
        ('1', "Digit Font", "digit"),
        ('!', "Symbol Font", "symbol"),
        ('Ж', "Fallback Font", "other"),
    ] {
        let resolved = profile.resolve(character);
        assert_eq!(resolved.font_family, font);
        assert_eq!(resolved.category, category);
        assert_eq!(resolved.rule_id, category);
    }
}

#[test]
fn accepts_exactly_one_unicode_scalar() {
    assert_eq!(single_codepoint("漢").unwrap(), '漢');
    assert_eq!(single_codepoint(""), Err(ResolveError::EmptyCharacter));
    assert_eq!(
        single_codepoint("ab"),
        Err(ResolveError::MultipleCharacters)
    );
}

#[test]
fn validates_integer_codepoints() {
    assert_eq!(codepoint_to_char(0x6f22).unwrap(), '漢');
    assert_eq!(
        codepoint_to_char(0xd800),
        Err(ResolveError::InvalidCodepoint(0xd800))
    );
}

#[test]
fn rejects_unknown_profile() {
    let store = ProfileStore::with_builtin_default(NEUTRAL);
    let error = store.resolve('A', Some("missing")).unwrap_err();
    assert_eq!(error, ResolveError::ProfileNotFound("missing".to_owned()));
}

#[test]
fn class_names_are_the_profile_keys() {
    let names: Vec<&str> = [
        CharacterClass::Western,
        CharacterClass::Hiragana,
        CharacterClass::Katakana,
        CharacterClass::Kanji,
        CharacterClass::Digit,
        CharacterClass::Symbol,
        CharacterClass::Other,
    ]
    .iter()
    .map(|class| class.as_str())
    .collect();
    assert_eq!(
        names,
        ["western", "hiragana", "katakana", "kanji", "digit", "symbol", "other"]
    );
}

#[test]
fn codepoints_around_the_surrogates_and_the_top() {
    assert_eq!(codepoint_to_char(0xd7ff).unwrap(), '\u{d7ff}');
    assert_eq!(
        codepoint_to_char(0xdfff),
        Err(ResolveError::InvalidCodepoint(0xdfff))
    );
    assert_eq!(codepoint_to_char(0xe000).unwrap(), '\u{e000}');
    assert_eq!(codepoint_to_char(0x10ffff).unwrap(), '\u{10ffff}');
    assert_eq!(
        codepoint_to_char(0x110000),
        Err(ResolveError::InvalidCodepoint(0x110000))
    );
    assert_eq!(single_codepoint("𠮷").unwrap(), '𠮷');
}

#[test]
fn white_space_and_control_tests_agree_with_std_on_every_scalar() {
    for value in 0..=0x10ffffu32 {
        if let Some(character) = char::from_u32(value) {
            assert_eq!(is_white_space(character), character.is_whitespace(), "{value:x}");
            assert_eq!(is_control(character), character.is_control(), "{value:x}");
        }
    }
}

#[test]
fn the_store_finds_profiles_by_name_and_the_last_of_a_name_wins() {
    let mut first = test_profile();
    first.western = adjustment("First");
    let mut second = test_profile();
    second.western = adjustment("Second");
    let store = ProfileStore::from_profiles(vec![
        CompositeFontProfile::neutral_default(NEUTRAL),
        first,
        second,
    ]);
    let resolved = store.resolve('A', Some("subtitle")).unwrap();
    assert_eq!(resolved.font_family, "Second");
    let default = store.resolve('A', None).unwrap();
    assert_eq!(default.font_family, "");
    assert_eq!(default.category, "western");
    assert!(store.profile_named("absent").is_none());
}

#[test]
fn candidates_list_the_class_then_its_fallbacks_then_older_families() {
    let mut profile = test_profile();
    profile.kanji.fallback_font_families = vec!["Old One".to_owned()];
    profile.kanji_fallbacks = vec![adjustment("Newer")];
    let candidates = profile.candidates_for_class(CharacterClass::Kanji);
    let families: Vec<&str> = candidates.iter().map(|a| a.font_family.as_str()).collect();
    assert_eq!(families, ["Kanji Font", "Newer", "Old One"]);
    assert!(candidates.iter().all(|a| a.fallback_font_families.is_empty()));
}
