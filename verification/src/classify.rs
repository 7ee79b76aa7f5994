//! Character classes that a composite font distinguishes, and the rule that
//! assigns one class to every Unicode scalar value.
use vstd::prelude::*;

verus! {

/// The character classes that a composite font profile distinguishes.
#[derive(Clone, Copy, Debug, PartialEq, Eq, Structural)]
pub enum CharacterClass {
    /// Half-width ASCII letters.
    Western,
    Hiragana,
    Katakana,
    Kanji,
    Digit,
    Symbol,
    /// Anything else: spaces, full-width Latin letters, other scripts.
    Other,
}

/// The name under which a class appears in profiles and diagnostics.
pub open spec fn class_name(class: CharacterClass) -> Seq<char> {
    match class {
        CharacterClass::Western => "western"@,
        CharacterClass::Hiragana => "hiragana"@,
        CharacterClass::Katakana => "katakana"@,
        CharacterClass::Kanji => "kanji"@,
        CharacterClass::Digit => "digit"@,
        CharacterClass::Symbol => "symbol"@,
        CharacterClass::Other => "other"@,
    }
}

impl CharacterClass {
    pub fn as_str(self) -> (name: &'static str)
        ensures
            name@ == class_name(self),
    {
        match self {
            CharacterClass::Western => "western",
            CharacterClass::Hiragana => "hiragana",
            CharacterClass::Katakana => "katakana",
            CharacterClass::Kanji => "kanji",
            CharacterClass::Digit => "digit",
            CharacterClass::Symbol => "symbol",
            CharacterClass::Other => "other",
        }
    }
}

/// Hiragana block (combining sound marks included) and the archaic and small
/// hiragana letters of the Kana Supplement blocks.
pub open spec fn hiragana_codepoint(cp: u32) -> bool {
    ||| 0x3041 <= cp <= 0x309F
    ||| cp == 0x1B001
    ||| cp == 0x1B11F
    ||| cp == 0x1B132
}

/// Full- and half-width katakana, the prolonged sound mark, phonetic
/// extensions and the katakana of the Kana Supplement blocks.
pub open spec fn katakana_codepoint(cp: u32) -> bool {
    ||| 0x30A1 <= cp <= 0x30FA
    ||| 0x30FC <= cp <= 0x30FF
    ||| 0x31F0 <= cp <= 0x31FF
    ||| 0xFF66 <= cp <= 0xFF9F
    ||| cp == 0x1B000
    ||| 0x1B100 <= cp <= 0x1B122
    ||| cp == 0x1B155
    ||| 0x1B164 <= cp <= 0x1B167
}

/// CJK ideographs of all extensions, compatibility ideographs, radicals,
/// strokes, iteration marks and related marks.
pub open spec fn kanji_codepoint(cp: u32) -> bool {
    ||| 0x2E80 <= cp <= 0x2FDF
    ||| 0x3005 <= cp <= 0x3007
    ||| 0x3021 <= cp <= 0x3029
    ||| 0x3038 <= cp <= 0x303B
    ||| 0x31C0 <= cp <= 0x31EF
    ||| 0x3400 <= cp <= 0x4DBF
    ||| 0x4E00 <= cp <= 0x9FFF
    ||| 0xF900 <= cp <= 0xFAFF
    ||| 0x16FE2 <= cp <= 0x16FE3
    ||| 0x20000 <= cp <= 0x2A6DF
    ||| 0x2A700 <= cp <= 0x2EE5F
    ||| 0x2F800 <= cp <= 0x2FA1F
    ||| 0x30000 <= cp <= 0x33479
}

/// `char::is_numeric`: the character is in the Unicode general category
/// Nd, Nl or No. The table is Unicode's; it gets a name, not a definition.
pub uninterp spec fn unicode_numeric(c: char) -> bool;

/// `char::is_alphanumeric`: the character is alphabetic or numeric in
/// Unicode's sense.
pub uninterp spec fn unicode_alphanumeric(c: char) -> bool;

/// The Unicode White_Space property, as `char::is_whitespace` tests it.
pub open spec fn white_space_codepoint(cp: u32) -> bool {
    ||| 0x09 <= cp <= 0x0D
    ||| cp == 0x20
    ||| cp == 0x85
    ||| cp == 0xA0
    ||| cp == 0x1680
    ||| 0x2000 <= cp <= 0x200A
    ||| cp == 0x2028
    ||| cp == 0x2029
    ||| cp == 0x202F
    ||| cp == 0x205F
    ||| cp == 0x3000
}

/// The Unicode general category Cc, as `char::is_control` tests it.
pub open spec fn control_codepoint(cp: u32) -> bool {
    cp <= 0x1F || 0x7F <= cp <= 0x9F
}

/// Half-width ASCII letters, as `char::is_ascii_alphabetic` tests them.
pub open spec fn ascii_alphabetic_codepoint(cp: u32) -> bool {
    (0x41 <= cp <= 0x5A) || (0x61 <= cp <= 0x7A)
}

/// A symbol is neither alphanumeric, nor white space, nor a control character.
pub open spec fn symbol_character(c: char) -> bool {
    !unicode_alphanumeric(c) && !white_space_codepoint(c as u32) && !control_codepoint(c as u32)
}

/// The class of a character. The tests run from the top down, so a
/// character that two rules accept takes the first: `ー` is katakana, `々`
/// is kanji, and a digit that is also a letter is a digit.
pub open spec fn class_of(c: char) -> CharacterClass {
    let cp = c as u32;
    if hiragana_codepoint(cp) {
        CharacterClass::Hiragana
    } else if katakana_codepoint(cp) {
        CharacterClass::Katakana
    } else if kanji_codepoint(cp) {
        CharacterClass::Kanji
    } else if unicode_numeric(c) {
        CharacterClass::Digit
    } else if ascii_alphabetic_codepoint(cp) {
        CharacterClass::Western
    } else if symbol_character(c) {
        CharacterClass::Symbol
    } else {
        CharacterClass::Other
    }
}

/// Calls `char::is_numeric`; its result is the Unicode table's answer for
/// the character and depends on nothing else.
#[verifier::external_body]
fn char_is_numeric(c: char) -> (numeric: bool)
    ensures
        numeric == unicode_numeric(c),
{
    c.is_numeric()
}

/// Calls `char::is_alphanumeric`; its result is the Unicode table's answer
/// for the character and depends on nothing else.
#[verifier::external_body]
fn char_is_alphanumeric(c: char) -> (alphanumeric: bool)
    ensures
        alphanumeric == unicode_alphanumeric(c),
{
    c.is_alphanumeric()
}

fn is_hiragana(codepoint: u32) -> (r: bool)
    ensures
        r == hiragana_codepoint(codepoint),
{
    (0x3041 <= codepoint && codepoint <= 0x309F) || codepoint == 0x1B001 || codepoint == 0x1B11F
        || codepoint == 0x1B132
}

fn is_katakana(codepoint: u32) -> (r: bool)
    ensures
        r == katakana_codepoint(codepoint),
{
    (0x30A1 <= codepoint && codepoint <= 0x30FA) || (0x30FC <= codepoint && codepoint <= 0x30FF)
        || (0x31F0 <= codepoint && codepoint <= 0x31FF) || (0xFF66 <= codepoint && codepoint
        <= 0xFF9F) || codepoint == 0x1B000 || (0x1B100 <= codepoint && codepoint <= 0x1B122)
        || codepoint == 0x1B155 || (0x1B164 <= codepoint && codepoint <= 0x1B167)
}

fn is_kanji(codepoint: u32) -> (r: bool)
    ensures
        r == kanji_codepoint(codepoint),
{
    (0x2E80 <= codepoint && codepoint <= 0x2FDF) || (0x3005 <= codepoint && codepoint <= 0x3007)
        || (0x3021 <= codepoint && codepoint <= 0x3029) || (0x3038 <= codepoint && codepoint
        <= 0x303B) || (0x31C0 <= codepoint && codepoint <= 0x31EF) || (0x3400 <= codepoint
        && codepoint <= 0x4DBF) || (0x4E00 <= codepoint && codepoint <= 0x9FFF) || (0xF900
        <= codepoint && codepoint <= 0xFAFF) || (0x16FE2 <= codepoint && codepoint <= 0x16FE3)
        || (0x20000 <= codepoint && codepoint <= 0x2A6DF) || (0x2A700 <= codepoint && codepoint
        <= 0x2EE5F) || (0x2F800 <= codepoint && codepoint <= 0x2FA1F) || (0x30000 <= codepoint
        && codepoint <= 0x33479)
}

/// Whether the character has the White_Space property.
pub fn is_white_space(value: char) -> (r: bool)
    ensures
        r == white_space_codepoint(value as u32),
{
    let cp = value as u32;
    (0x09 <= cp && cp <= 0x0D) || cp == 0x20 || cp == 0x85 || cp == 0xA0 || cp == 0x1680 || (0x2000
        <= cp && cp <= 0x200A) || cp == 0x2028 || cp == 0x2029 || cp == 0x202F || cp == 0x205F
        || cp == 0x3000
}

/// Whether the character is a control character (general category Cc).
pub fn is_control(value: char) -> (r: bool)
    ensures
        r == control_codepoint(value as u32),
{
    let cp = value as u32;
    cp <= 0x1F || (0x7F <= cp && cp <= 0x9F)
}

fn is_ascii_alphabetic(value: char) -> (r: bool)
    ensures
        r == ascii_alphabetic_codepoint(value as u32),
{
    let cp = value as u32;
    (0x41 <= cp && cp <= 0x5A) || (0x61 <= cp && cp <= 0x7A)
}

fn is_symbol(value: char) -> (r: bool)
    ensures
        r == symbol_character(value),
{
    !char_is_alphanumeric(value) && !is_white_space(value) && !is_control(value)
}

/// Assigns one character class to a Unicode scalar value.
///
/// Unicode's Script property puts digits, punctuation and the prolonged sound
/// mark into `Common`; for a composite font the precedence and the shared
/// marks are fixed here instead.
pub fn classify_character(value: char) -> (class: CharacterClass)
    ensures
        class == class_of(value),
{
    let codepoint = value as u32;
    if is_hiragana(codepoint) {
        CharacterClass::Hiragana
    } else if is_katakana(codepoint) {
        CharacterClass::Katakana
    } else if is_kanji(codepoint) {
        CharacterClass::Kanji
    } else if char_is_numeric(value) {
        CharacterClass::Digit
    } else if is_ascii_alphabetic(value) {
        CharacterClass::Western
    } else if is_symbol(value) {
        CharacterClass::Symbol
    } else {
        CharacterClass::Other
    }
}

/// Distinct classes have distinct names, so a name read back from a
/// diagnostic identifies its class.
pub proof fn lemma_class_names_distinct(a: CharacterClass, b: CharacterClass)
    requires
        a != b,
    ensures
        class_name(a) != class_name(b),
{
    reveal_strlit("western");
    reveal_strlit("hiragana");
    reveal_strlit("katakana");
    reveal_strlit("kanji");
    reveal_strlit("digit");
    reveal_strlit("symbol");
    reveal_strlit("other");
    assert("western"@[0] == 'w');
    assert("hiragana"@[0] == 'h');
    assert("katakana"@[0] == 'k');
    assert("kanji"@.len() == 5);
    assert("katakana"@.len() == 8);
    assert("digit"@[0] == 'd');
    assert("symbol"@[0] == 's');
    assert("other"@[0] == 'o');
}


/// The script ranges decide the class before any Unicode property: a kana
/// code point is kana, and a kanji code point (no kana range meets a kanji
/// one) is kanji whatever Unicode says of its numeric value, so the
/// ideographic iteration mark, closing mark and number zero (U+3005 to
/// U+3007) and the Hangzhou numerals (U+3021 to U+3029) are kanji. Only
/// outside these ranges does a numeric character become a digit.
pub proof fn lemma_script_ranges_decide_class(c: char)
    ensures
        hiragana_codepoint(c as u32) ==> class_of(c) == CharacterClass::Hiragana,
        katakana_codepoint(c as u32) && !hiragana_codepoint(c as u32) ==> class_of(c)
            == CharacterClass::Katakana,
        kanji_codepoint(c as u32) ==> !hiragana_codepoint(c as u32) && !katakana_codepoint(
            c as u32,
        ),
        kanji_codepoint(c as u32) ==> class_of(c) == CharacterClass::Kanji,
        (0x3005 <= c as u32 <= 0x3007 || 0x3021 <= c as u32 <= 0x3029) ==> class_of(c)
            == CharacterClass::Kanji,
        !hiragana_codepoint(c as u32) && !katakana_codepoint(c as u32) && !kanji_codepoint(c as u32)
            && unicode_numeric(c) ==> class_of(c) == CharacterClass::Digit,
        class_of(c) == CharacterClass::Digit ==> unicode_numeric(c),
{
}

} // verus!
