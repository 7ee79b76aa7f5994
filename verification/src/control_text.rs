//! The AviUtl2 text control tags that the composite font understands
//! (`<#..>`, `<s..>`, `<@..>`), and the formatting state that they leave
//! behind for each piece of visible text.
//!
//! Values that a tag names (colours, font families, outline widths, size
//! expressions) are kept as character ranges of the source text. Font sizes
//! are decimal numbers; the parser records every size expression and lists
//! the numeric conditions (a literal is finite, a size stays positive) that
//! a floating-point evaluation has to confirm.
use vstd::prelude::*;
use vstd::string::StringSliceAdditionalSpecFns;
use vstd::slice::axiom_spec_len;
use crate::classify::{control_codepoint, is_control};
use crate::text::{chars_of, char_utf8_width, lemma_utf8_offset_bounded, push_char, push_chars, string_from_chars, utf8_offset, utf8_width};

verus! {

broadcast use axiom_spec_len;

/// Characters `start..end` of the source text.
#[derive(Clone, Copy, Debug, PartialEq, Eq, Structural)]
pub struct TextRange {
    pub start: usize,
    pub end: usize,
}

/// A text value held by the formatting state.
#[derive(Clone, Copy, Debug, PartialEq, Eq, Structural)]
pub enum TextValue {
    /// Characters of the source text.
    Source(TextRange),
    /// The object's own font family, given by the caller.
    ObjectFontFamily,
}

/// One attribute of the text format: the value in force, the value that a
/// reset returns to, and whether the input text has set it explicitly.
#[derive(Clone, Copy, Debug, PartialEq, Eq)]
pub struct AttributeState<T> {
    pub input_override: bool,
    pub current_value: Option<T>,
    pub reset_value: Option<T>,
    pub object_default: Option<T>,
}

impl<T: Copy> AttributeState<T> {
    pub open spec fn initial(object_default: Option<T>) -> Self {
        AttributeState {
            input_override: false,
            current_value: object_default,
            reset_value: object_default,
            object_default,
        }
    }

    pub open spec fn with_value(self, value: T) -> Self {
        AttributeState { input_override: true, current_value: Some(value), ..self }
    }

    pub open spec fn after_reset(self) -> Self {
        AttributeState { input_override: false, current_value: self.reset_value, ..self }
    }

    pub open spec fn with_reset_value(self, reset_value: Option<T>) -> Self {
        AttributeState {
            reset_value,
            current_value: if self.input_override {
                self.current_value
            } else {
                reset_value
            },
            ..self
        }
    }

    pub fn new(object_default: Option<T>) -> (r: Self)
        ensures
            r == Self::initial(object_default),
    {
        AttributeState {
            input_override: false,
            current_value: object_default,
            reset_value: object_default,
            object_default,
        }
    }

    pub fn set(&mut self, value: T)
        ensures
            *final(self) == old(self).with_value(value),
    {
        self.input_override = true;
        self.current_value = Some(value);
    }

    pub fn reset(&mut self)
        ensures
            *final(self) == old(self).after_reset(),
    {
        self.input_override = false;
        self.current_value = self.reset_value;
    }

    pub fn set_reset_value(&mut self, reset_value: Option<T>)
        ensures
            *final(self) == old(self).with_reset_value(reset_value),
    {
        self.reset_value = reset_value;
        if !self.input_override {
            self.current_value = reset_value;
        }
    }

    /// A profile may supply this attribute only while the input text leaves
    /// it alone.
    pub fn profile_allowed(&self) -> (r: bool)
        ensures
            r == !self.input_override,
    {
        !self.input_override
    }
}

/// The bold, italic and strike-through switches.
#[derive(Clone, Copy, Debug, Default, PartialEq, Eq, Structural)]
pub struct StyleFlags {
    pub bold: bool,
    pub italic: bool,
    pub strike: bool,
}

/// The letters that switch the styles on, in the order `B`, `I`, `S`.
pub open spec fn control_letters(styles: StyleFlags) -> Seq<char> {
    (if styles.bold {
        seq!['B']
    } else {
        Seq::empty()
    }) + (if styles.italic {
        seq!['I']
    } else {
        Seq::empty()
    }) + (if styles.strike {
        seq!['S']
    } else {
        Seq::empty()
    })
}

impl StyleFlags {
    pub fn as_control_letters(self) -> (value: String)
        ensures
            value@ == control_letters(self),
    {
        let mut value = String::new();
        if self.bold {
            push_char(&mut value, 'B');
        }
        if self.italic {
            push_char(&mut value, 'I');
        }
        if self.strike {
            push_char(&mut value, 'S');
        }
        assert(value@ =~= control_letters(self));
        value
    }
}

/// Size expressions `first..end` of the parse, in order: the chain that
/// leads from the object's font size (or from an absolute size, which is
/// always the first of a chain) to the size in force.
#[derive(Clone, Copy, Debug, PartialEq, Eq, Structural)]
pub struct SizeChain {
    pub first: usize,
    pub end: usize,
}

/// The formatting that the input's control tags have put in force.
#[derive(Clone, Copy, Debug)]
pub struct TextFormatState {
    pub text_color: AttributeState<TextValue>,
    pub decoration_color: AttributeState<TextValue>,
    /// The input text has set the font size.
    pub font_size_override: bool,
    pub at_font_family: AttributeState<TextValue>,
    pub at_decoration: AttributeState<u8>,
    pub at_bold: AttributeState<bool>,
    pub at_italic: AttributeState<bool>,
    pub at_strike: AttributeState<bool>,
    pub s_font_family: AttributeState<TextValue>,
    pub s_bold: AttributeState<bool>,
    pub s_italic: AttributeState<bool>,
    pub s_strike: AttributeState<bool>,
    pub s_outline_size: AttributeState<TextValue>,
    /// The size expressions whose replay gives the size in force.
    pub size_chain: SizeChain,
    pub s_style_active: bool,
}

/// The caller's object format that control tags start from and reset to.
/// The object's font size stays with the caller: sizes are decimal numbers
/// that this module does not evaluate.
#[derive(Clone, Debug, Default)]
pub struct ControlTextDefaults {
    pub font_family: Option<String>,
}

impl TextFormatState {
    pub open spec fn initial(has_font_family: bool) -> Self {
        let family: Option<TextValue> = if has_font_family {
            Some(TextValue::ObjectFontFamily)
        } else {
            None
        };
        let no_text: Option<TextValue> = None;
        let no_flag: Option<bool> = None;
        let no_decoration: Option<u8> = None;
        TextFormatState {
            text_color: AttributeState::initial(no_text),
            decoration_color: AttributeState::initial(no_text),
            font_size_override: false,
            at_font_family: AttributeState::initial(family),
            at_decoration: AttributeState::initial(no_decoration),
            at_bold: AttributeState::initial(no_flag),
            at_italic: AttributeState::initial(no_flag),
            at_strike: AttributeState::initial(no_flag),
            s_font_family: AttributeState::initial(family),
            s_bold: AttributeState::initial(no_flag),
            s_italic: AttributeState::initial(no_flag),
            s_strike: AttributeState::initial(no_flag),
            s_outline_size: AttributeState::initial(no_text),
            size_chain: SizeChain { first: 0, end: 0 },
            s_style_active: false,
        }
    }

    /// The font attribute in force: the `<s>` tag's font while the input has
    /// set one, otherwise the `<@>` tag's.
    pub open spec fn effective_font_state_spec(self) -> AttributeState<TextValue> {
        if self.s_font_family.input_override {
            self.s_font_family
        } else {
            self.at_font_family
        }
    }

    pub open spec fn s_style_override_spec(self) -> Option<StyleFlags> {
        if self.s_style_active {
            Some(
                StyleFlags {
                    bold: self.s_bold.current_value.unwrap_or(false),
                    italic: self.s_italic.current_value.unwrap_or(false),
                    strike: self.s_strike.current_value.unwrap_or(false),
                },
            )
        } else {
            None
        }
    }

    pub open spec fn at_style_override_spec(self) -> Option<StyleFlags> {
        if self.at_bold.input_override || self.at_italic.input_override
            || self.at_strike.input_override {
            Some(
                StyleFlags {
                    bold: self.at_bold.current_value.unwrap_or(false),
                    italic: self.at_italic.current_value.unwrap_or(false),
                    strike: self.at_strike.current_value.unwrap_or(false),
                },
            )
        } else {
            None
        }
    }

    pub open spec fn override_value<T>(attribute: AttributeState<T>) -> Option<T> {
        if attribute.input_override {
            attribute.current_value
        } else {
            None
        }
    }

    /// Clears everything that an `<s>` tag sets besides the size.
    pub open spec fn without_s_optional(self) -> Self {
        TextFormatState {
            s_font_family: self.s_font_family.after_reset(),
            s_bold: self.s_bold.after_reset(),
            s_italic: self.s_italic.after_reset(),
            s_strike: self.s_strike.after_reset(),
            s_outline_size: self.s_outline_size.after_reset(),
            s_style_active: false,
            ..self
        }
    }

    /// The `<s>` font and styles reset to what the `<@>` tag has in force.
    pub open spec fn with_s_resets_from_at(self) -> Self {
        TextFormatState {
            s_font_family: self.s_font_family.with_reset_value(self.at_font_family.current_value),
            s_bold: self.s_bold.with_reset_value(self.at_bold.current_value),
            s_italic: self.s_italic.with_reset_value(self.at_italic.current_value),
            s_strike: self.s_strike.with_reset_value(self.at_strike.current_value),
            ..self
        }
    }

    /// `<@>`: the font, its decoration and styles return to the object's,
    /// and so does everything optional of the `<s>` tag.
    pub open spec fn without_at_format(self) -> Self {
        TextFormatState {
            at_font_family: self.at_font_family.after_reset(),
            at_decoration: self.at_decoration.after_reset(),
            at_bold: self.at_bold.after_reset(),
            at_italic: self.at_italic.after_reset(),
            at_strike: self.at_strike.after_reset(),
            ..self.without_s_optional()
        }.with_s_resets_from_at()
    }

    pub fn new(defaults: &ControlTextDefaults) -> (r: Self)
        ensures
            r == Self::initial(defaults.font_family is Some),
    {
        let family = match &defaults.font_family {
            Some(_) => Some(TextValue::ObjectFontFamily),
            None => None,
        };
        let at_font_family = AttributeState::new(family);
        let at_bold: AttributeState<bool> = AttributeState::new(None);
        let at_italic: AttributeState<bool> = AttributeState::new(None);
        let at_strike: AttributeState<bool> = AttributeState::new(None);
        TextFormatState {
            text_color: AttributeState::new(None),
            decoration_color: AttributeState::new(None),
            font_size_override: false,
            at_font_family,
            at_decoration: AttributeState::new(None),
            at_bold,
            at_italic,
            at_strike,
            s_font_family: AttributeState { reset_value: at_font_family.current_value, ..at_font_family },
            s_bold: AttributeState { reset_value: at_bold.current_value, ..at_bold },
            s_italic: AttributeState { reset_value: at_italic.current_value, ..at_italic },
            s_strike: AttributeState { reset_value: at_strike.current_value, ..at_strike },
            s_outline_size: AttributeState::new(None),
            size_chain: SizeChain { first: 0, end: 0 },
            s_style_active: false,
        }
    }

    /// A profile may choose the font only while the input leaves it alone.
    pub fn profile_font_allowed(&self) -> (r: bool)
        ensures
            r == !self.effective_font_state_spec().input_override,
    {
        self.effective_font_state().profile_allowed()
    }

    /// A profile may scale the size only while the input leaves it alone.
    pub fn profile_size_allowed(&self) -> (r: bool)
        ensures
            r == !self.font_size_override,
    {
        !self.font_size_override
    }

    /// The font family in force.
    pub fn effective_font_family(&self) -> (r: Option<TextValue>)
        ensures
            r == self.effective_font_state_spec().current_value,
    {
        self.effective_font_state().current_value
    }

    /// The size expressions whose replay gives the size in force.
    pub fn size_restore_chain(&self) -> (r: SizeChain)
        ensures
            r == self.size_chain,
    {
        self.size_chain
    }

    pub fn s_font_override(&self) -> (r: Option<TextValue>)
        ensures
            r == Self::override_value(self.s_font_family),
    {
        if self.s_font_family.input_override {
            self.s_font_family.current_value
        } else {
            None
        }
    }

    pub fn s_style_override(&self) -> (r: Option<StyleFlags>)
        ensures
            r == self.s_style_override_spec(),
    {
        if self.s_style_active {
            Some(
                StyleFlags {
                    bold: unwrap_flag(self.s_bold.current_value),
                    italic: unwrap_flag(self.s_italic.current_value),
                    strike: unwrap_flag(self.s_strike.current_value),
                },
            )
        } else {
            None
        }
    }

    pub fn s_outline_override(&self) -> (r: Option<TextValue>)
        ensures
            r == Self::override_value(self.s_outline_size),
    {
        if self.s_outline_size.input_override {
            self.s_outline_size.current_value
        } else {
            None
        }
    }

    pub fn at_style_override(&self) -> (r: Option<StyleFlags>)
        ensures
            r == self.at_style_override_spec(),
    {
        if self.at_bold.input_override || self.at_italic.input_override
            || self.at_strike.input_override {
            Some(
                StyleFlags {
                    bold: unwrap_flag(self.at_bold.current_value),
                    italic: unwrap_flag(self.at_italic.current_value),
                    strike: unwrap_flag(self.at_strike.current_value),
                },
            )
        } else {
            None
        }
    }

    pub fn at_decoration_override(&self) -> (r: Option<u8>)
        ensures
            r == Self::override_value(self.at_decoration),
    {
        if self.at_decoration.input_override {
            self.at_decoration.current_value
        } else {
            None
        }
    }

    /// Which of the `<@>` styles the input has set.
    pub fn at_style_component_overrides(&self) -> (r: StyleFlags)
        ensures
            r == (StyleFlags {
                bold: self.at_bold.input_override,
                italic: self.at_italic.input_override,
                strike: self.at_strike.input_override,
            }),
    {
        StyleFlags {
            bold: self.at_bold.input_override,
            italic: self.at_italic.input_override,
            strike: self.at_strike.input_override,
        }
    }

    fn effective_font_state(&self) -> (r: AttributeState<TextValue>)
        ensures
            r == self.effective_font_state_spec(),
    {
        if self.s_font_family.input_override {
            self.s_font_family
        } else {
            self.at_font_family
        }
    }

    fn clear_s_optional_format(&mut self)
        ensures
            *final(self) == old(self).without_s_optional(),
    {
        self.s_font_family.reset();
        self.s_bold.reset();
        self.s_italic.reset();
        self.s_strike.reset();
        self.s_outline_size.reset();
        self.s_style_active = false;
    }

    fn sync_s_resets_from_at(&mut self)
        ensures
            *final(self) == old(self).with_s_resets_from_at(),
    {
        let family = self.at_font_family.current_value;
        self.s_font_family.set_reset_value(family);
        let bold = self.at_bold.current_value;
        self.s_bold.set_reset_value(bold);
        let italic = self.at_italic.current_value;
        self.s_italic.set_reset_value(italic);
        let strike = self.at_strike.current_value;
        self.s_strike.set_reset_value(strike);
    }

    fn reset_at_format(&mut self)
        ensures
            *final(self) == old(self).without_at_format(),
    {
        self.at_font_family.reset();
        self.at_decoration.reset();
        self.at_bold.reset();
        self.at_italic.reset();
        self.at_strike.reset();
        self.s_font_family.reset();
        self.s_bold.reset();
        self.s_italic.reset();
        self.s_strike.reset();
        self.s_outline_size.reset();
        self.s_style_active = false;
        self.sync_s_resets_from_at();
    }
}

fn unwrap_flag(value: Option<bool>) -> (r: bool)
    ensures
        r == value.unwrap_or(false),
{
    match value {
        Some(flag) => flag,
        None => false,
    }
}

/// Why a control text could not be taken apart.
#[derive(Clone, Copy, Debug, PartialEq, Eq, Structural)]
pub struct ParseError;

/// How a size expression derives the new size from the one in force.
#[derive(Clone, Copy, Debug, PartialEq, Eq, Structural)]
pub enum SizeExpressionKind {
    Absolute,
    Add,
    Subtract,
    Multiply,
}

/// A size field: its whole text, and the decimal number after the operator.
#[derive(Clone, Copy, Debug, PartialEq, Eq, Structural)]
pub struct SizeExpression {
    pub kind: SizeExpressionKind,
    pub number: TextRange,
    pub source: TextRange,
}

#[derive(Clone, Copy, Debug, PartialEq, Eq, Structural)]
pub struct SizeTag {
    pub size: Option<SizeExpression>,
    pub size_field_is_empty: bool,
    pub font: Option<TextRange>,
    pub style: Option<StyleFlags>,
    pub outline_size: Option<TextRange>,
    pub reset: bool,
}

#[derive(Clone, Copy, Debug, PartialEq, Eq, Structural)]
pub struct FontStyle {
    pub decoration: Option<u8>,
    pub styles: StyleFlags,
}

/// One control tag of the kinds that the composite font understands.
#[derive(Clone, Copy, Debug, PartialEq, Eq, Structural)]
pub enum BasicFormatTag {
    Color { text: Option<TextRange>, decoration: Option<TextRange>, reset: bool },
    Size(SizeTag),
    Font { font: Option<TextRange>, style: Option<FontStyle>, reset: bool },
    StyleDelta { add: bool, styles: StyleFlags },
}

/// A condition on decimal numbers of the input that only their
/// floating-point values decide.
#[derive(Clone, Copy, Debug, PartialEq, Eq, Structural)]
pub enum NumericCheck {
    /// The number of size expression `index` is finite, and greater than
    /// zero when the expression is absolute or multiplies.
    SizeLiteral(usize),
    /// The outline width is finite and not negative.
    OutlineLiteral(TextRange),
    /// Replaying the chain from the object's size gives no size, or a finite
    /// size greater than zero.
    SizeChain(SizeChain),
}

pub open spec fn mk_range(start: int, end: int) -> TextRange {
    TextRange { start: start as usize, end: end as usize }
}

pub open spec fn is_ascii_digit(c: char) -> bool {
    '0' <= c && c <= '9'
}

pub open spec fn is_ascii_hexdigit(c: char) -> bool {
    ('0' <= c && c <= '9') || ('a' <= c && c <= 'f') || ('A' <= c && c <= 'F')
}

/// The comma-separated fields of `src[field_start..end]`, where the scan for
/// commas has reached `i`.
pub open spec fn fields_from(src: Seq<char>, field_start: int, i: int, end: int) -> Seq<TextRange>
    decreases end - i,
{
    if i >= end {
        seq![mk_range(field_start, end)]
    } else if src[i] == ',' {
        seq![mk_range(field_start, i)] + fields_from(src, i + 1, i + 1, end)
    } else {
        fields_from(src, field_start, i + 1, end)
    }
}

pub open spec fn fields_of(src: Seq<char>, r: TextRange) -> Seq<TextRange> {
    fields_from(src, r.start as int, r.start as int, r.end as int)
}

pub open spec fn spec_split_fields(src: Seq<char>, r: TextRange, maximum: int) -> Result<
    Seq<TextRange>,
    ParseError,
> {
    if fields_of(src, r).len() <= maximum {
        Ok(fields_of(src, r))
    } else {
        Err(ParseError)
    }
}

pub open spec fn valid_range(src: Seq<char>, r: TextRange) -> bool {
    r.start <= r.end <= src.len()
}

/// A character that may stand in a font family name of a tag.
pub open spec fn name_char(c: char) -> bool {
    !(c == '<' || c == '>' || c == ',' || control_codepoint(c as u32))
}

pub open spec fn spec_optional_name(src: Seq<char>, r: TextRange) -> Result<
    Option<TextRange>,
    ParseError,
> {
    if r.start == r.end {
        Ok(None)
    } else if forall|i: int| r.start <= i < r.end ==> name_char(#[trigger] src[i]) {
        Ok(Some(r))
    } else {
        Err(ParseError)
    }
}

/// The colour names that AviUtl2 accepts besides six hexadecimal digits.
pub open spec fn color_alias(word: Seq<char>) -> bool {
    ||| word == seq!['w', 'h', 'i', 't', 'e']
    ||| word == seq!['r', 'e', 'd']
    ||| word == seq!['y', 'e', 'l', 'l', 'o', 'w']
    ||| word == seq!['g', 'r', 'e', 'e', 'n']
    ||| word == seq!['a', 'q', 'u', 'a']
    ||| word == seq!['b', 'l', 'u', 'e']
    ||| word == seq!['m', 'a', 'g', 'e', 'n', 't', 'a']
    ||| word == seq!['b', 'l', 'a', 'c', 'k']
}

pub open spec fn hex_color(src: Seq<char>, r: TextRange) -> bool {
    r.end - r.start == 6 && forall|i: int| r.start <= i < r.end ==> is_ascii_hexdigit(#[trigger] src[i])
}

pub open spec fn spec_optional_color(src: Seq<char>, r: TextRange) -> Result<
    Option<TextRange>,
    ParseError,
> {
    if r.start == r.end {
        Ok(None)
    } else if hex_color(src, r) || color_alias(src.subrange(r.start as int, r.end as int)) {
        Ok(Some(r))
    } else {
        Err(ParseError)
    }
}

/// A colour field that spells one of AviUtl2's eight colour names, or six
/// hexadecimal digits, is accepted as that colour; an empty one sets none.
pub proof fn lemma_color_names_accepted(src: Seq<char>, r: TextRange)
    requires
        valid_range(src, r),
    ensures
        ({
            let word = src.subrange(r.start as int, r.end as int);
            word == "white"@ || word == "red"@ || word == "yellow"@ || word == "green"@ || word
                == "aqua"@ || word == "blue"@ || word == "magenta"@ || word == "black"@
        }) ==> spec_optional_color(src, r) == Ok::<Option<TextRange>, ParseError>(Some(r)),
        (r.end - r.start == 6 && forall|i: int|
            r.start <= i < r.end ==> #[trigger] is_ascii_hexdigit(src[i])) ==> spec_optional_color(
            src,
            r,
        ) == Ok::<Option<TextRange>, ParseError>(Some(r)),
        r.start == r.end ==> spec_optional_color(src, r) == Ok::<Option<TextRange>, ParseError>(
            None,
        ),
{
    reveal_strlit("white");
    reveal_strlit("red");
    reveal_strlit("yellow");
    reveal_strlit("green");
    reveal_strlit("aqua");
    reveal_strlit("blue");
    reveal_strlit("magenta");
    reveal_strlit("black");
    let word = src.subrange(r.start as int, r.end as int);
    if word == "white"@ {
        assert(word =~= seq!['w', 'h', 'i', 't', 'e']);
    }
    if word == "red"@ {
        assert(word =~= seq!['r', 'e', 'd']);
    }
    if word == "yellow"@ {
        assert(word =~= seq!['y', 'e', 'l', 'l', 'o', 'w']);
    }
    if word == "green"@ {
        assert(word =~= seq!['g', 'r', 'e', 'e', 'n']);
    }
    if word == "aqua"@ {
        assert(word =~= seq!['a', 'q', 'u', 'a']);
    }
    if word == "blue"@ {
        assert(word =~= seq!['b', 'l', 'u', 'e']);
    }
    if word == "magenta"@ {
        assert(word =~= seq!['m', 'a', 'g', 'e', 'n', 't', 'a']);
    }
    if word == "black"@ {
        assert(word =~= seq!['b', 'l', 'a', 'c', 'k']);
    }
}

pub open spec fn style_letter(c: char) -> bool {
    c == 'B' || c == 'I' || c == 'S'
}

pub open spec fn has_letter(src: Seq<char>, r: TextRange, letter: char) -> bool {
    exists|i: int| r.start <= i < r.end && src[i] == letter
}

/// Style letters `B`, `I`, `S`, each at most once.
pub open spec fn spec_style_flags(src: Seq<char>, r: TextRange) -> Result<StyleFlags, ParseError> {
    if (forall|i: int| r.start <= i < r.end ==> style_letter(#[trigger] src[i])) && (forall|
        i: int,
        j: int,
    | r.start <= i < j < r.end ==> src[i] != src[j]) {
        Ok(
            StyleFlags {
                bold: has_letter(src, r, 'B'),
                italic: has_letter(src, r, 'I'),
                strike: has_letter(src, r, 'S'),
            },
        )
    } else {
        Err(ParseError)
    }
}

pub open spec fn spec_nonempty_style_flags(src: Seq<char>, r: TextRange) -> Result<
    StyleFlags,
    ParseError,
> {
    if r.start == r.end {
        Err(ParseError)
    } else {
        spec_style_flags(src, r)
    }
}

/// An optional decoration digit `0` to `6`, then style letters.
pub open spec fn spec_font_style(src: Seq<char>, r: TextRange) -> Result<FontStyle, ParseError> {
    if r.start < r.end && '0' <= src[r.start as int] && src[r.start as int] <= '6' {
        match spec_style_flags(src, mk_range(r.start + 1, r.end as int)) {
            Ok(styles) => Ok(
                FontStyle { decoration: Some((src[r.start as int] as u32 - 48) as u8), styles },
            ),
            Err(e) => Err(e),
        }
    } else if r.start < r.end && '7' <= src[r.start as int] && src[r.start as int] <= '9' {
        Err(ParseError)
    } else {
        match spec_style_flags(src, r) {
            Ok(styles) => Ok(FontStyle { decoration: None, styles }),
            Err(e) => Err(e),
        }
    }
}

pub open spec fn digits_start(src: Seq<char>, r: TextRange) -> int {
    if r.start < r.end && (src[r.start as int] == '+' || src[r.start as int] == '-') {
        r.start + 1
    } else {
        r.start as int
    }
}

/// An optionally signed decimal number: digits with at most one point, and
/// at least one digit.
pub open spec fn decimal_syntax(src: Seq<char>, r: TextRange) -> bool {
    let d = digits_start(src, r);
    &&& d < r.end
    &&& forall|i: int| d <= i < r.end ==> is_ascii_digit(#[trigger] src[i]) || src[i] == '.'
    &&& forall|i: int, j: int| d <= i < j < r.end ==> !(src[i] == '.' && src[j] == '.')
    &&& exists|i: int| d <= i < r.end && is_ascii_digit(#[trigger] src[i])
}

pub open spec fn spec_size_expression(src: Seq<char>, r: TextRange) -> Result<
    SizeExpression,
    ParseError,
> {
    let first = if r.start < r.end {
        src[r.start as int]
    } else {
        ' '
    };
    let kind = if first == '+' {
        SizeExpressionKind::Add
    } else if first == '-' {
        SizeExpressionKind::Subtract
    } else if first == '*' {
        SizeExpressionKind::Multiply
    } else {
        SizeExpressionKind::Absolute
    };
    let number = if kind == SizeExpressionKind::Absolute {
        r
    } else {
        mk_range(r.start + 1, r.end as int)
    };
    if number.start < number.end && (src[number.start as int] == '+' || src[number.start as int]
        == '-') {
        Err(ParseError)
    } else if decimal_syntax(src, number) {
        Ok(SizeExpression { kind, number, source: r })
    } else {
        Err(ParseError)
    }
}

pub open spec fn reset_size_tag() -> SizeTag {
    SizeTag {
        size: None,
        size_field_is_empty: false,
        font: None,
        style: None,
        outline_size: None,
        reset: true,
    }
}

pub open spec fn spec_outline_field(src: Seq<char>, fields: Seq<TextRange>) -> Result<
    Option<TextRange>,
    ParseError,
> {
    if fields.len() > 3 {
        let f = fields[3];
        if f.start == f.end || !decimal_syntax(src, f) {
            Err(ParseError)
        } else {
            Ok(Some(f))
        }
    } else {
        Ok(None)
    }
}

pub open spec fn spec_style_field(src: Seq<char>, fields: Seq<TextRange>) -> Result<
    Option<StyleFlags>,
    ParseError,
> {
    if fields.len() > 2 {
        match spec_style_flags(src, fields[2]) {
            Ok(styles) => Ok(Some(styles)),
            Err(e) => Err(e),
        }
    } else {
        Ok(None)
    }
}

pub open spec fn spec_name_field(src: Seq<char>, fields: Seq<TextRange>) -> Result<
    Option<TextRange>,
    ParseError,
> {
    if fields.len() > 1 {
        spec_optional_name(src, fields[1])
    } else {
        Ok(None)
    }
}

pub open spec fn spec_size_field(src: Seq<char>, fields: Seq<TextRange>) -> Result<
    Option<SizeExpression>,
    ParseError,
> {
    if fields[0].start == fields[0].end {
        Ok(None)
    } else {
        match spec_size_expression(src, fields[0]) {
            Ok(e) => Ok(Some(e)),
            Err(e) => Err(e),
        }
    }
}

/// `<s size,font,styles,outline>` with up to four fields; `<s>` resets.
pub open spec fn spec_size_tag(src: Seq<char>, payload: TextRange) -> Result<SizeTag, ParseError> {
    if payload.start == payload.end {
        Ok(reset_size_tag())
    } else {
        match spec_split_fields(src, payload, 4) {
            Err(e) => Err(e),
            Ok(fields) => match spec_size_field(src, fields) {
                Err(e) => Err(e),
                Ok(size) => match spec_name_field(src, fields) {
                    Err(e) => Err(e),
                    Ok(font) => match spec_style_field(src, fields) {
                        Err(e) => Err(e),
                        Ok(style) => match spec_outline_field(src, fields) {
                            Err(e) => Err(e),
                            Ok(outline_size) => Ok(
                                SizeTag {
                                    size,
                                    size_field_is_empty: fields[0].start == fields[0].end,
                                    font,
                                    style,
                                    outline_size,
                                    reset: false,
                                },
                            ),
                        },
                    },
                },
            },
        }
    }
}

/// `<#text,decoration>` with up to two colours; `<#>` resets both.
pub open spec fn spec_color_tag(src: Seq<char>, payload: TextRange) -> Result<
    BasicFormatTag,
    ParseError,
> {
    if payload.start == payload.end {
        Ok(BasicFormatTag::Color { text: None, decoration: None, reset: true })
    } else {
        match spec_split_fields(src, payload, 2) {
            Err(e) => Err(e),
            Ok(fields) => match spec_optional_color(src, fields[0]) {
                Err(e) => Err(e),
                Ok(text) => {
                    if fields.len() > 1 {
                        match spec_optional_color(src, fields[1]) {
                            Err(e) => Err(e),
                            Ok(decoration) => Ok(
                                BasicFormatTag::Color { text, decoration, reset: true },
                            ),
                        }
                    } else {
                        Ok(BasicFormatTag::Color { text, decoration: None, reset: true })
                    }
                },
            },
        }
    }
}

/// `<@font,style>`, `<@+styles>`, `<@-styles>`; `<@>` resets.
pub open spec fn spec_font_tag(src: Seq<char>, payload: TextRange) -> Result<
    BasicFormatTag,
    ParseError,
> {
    if payload.start == payload.end {
        Ok(BasicFormatTag::Font { font: None, style: None, reset: true })
    } else if src[payload.start as int] == '+' || src[payload.start as int] == '-' {
        match spec_nonempty_style_flags(src, mk_range(payload.start + 1, payload.end as int)) {
            Ok(styles) => Ok(
                BasicFormatTag::StyleDelta { add: src[payload.start as int] == '+', styles },
            ),
            Err(e) => Err(e),
        }
    } else {
        match spec_split_fields(src, payload, 2) {
            Err(e) => Err(e),
            Ok(fields) => match spec_optional_name(src, fields[0]) {
                Err(e) => Err(e),
                Ok(font) => {
                    let style: Result<Option<FontStyle>, ParseError> = if fields.len() > 1 {
                        match spec_font_style(src, fields[1]) {
                            Ok(s) => Ok(Some(s)),
                            Err(e) => Err(e),
                        }
                    } else {
                        Ok(None)
                    };
                    match style {
                        Err(e) => Err(e),
                        Ok(style) => if font is None && style is None {
                            Err(ParseError)
                        } else {
                            Ok(BasicFormatTag::Font { font, style, reset: false })
                        },
                    }
                },
            },
        }
    }
}

/// The tag whose body (the text between `<` and `>`) is `body`.
#[verifier::opaque]
pub open spec fn spec_parse_tag(src: Seq<char>, body: TextRange) -> Result<
    BasicFormatTag,
    ParseError,
> {
    if body.start == body.end {
        Err(ParseError)
    } else {
        let payload = mk_range(body.start + 1, body.end as int);
        if src[body.start as int] == '#' {
            spec_color_tag(src, payload)
        } else if src[body.start as int] == 's' {
            match spec_size_tag(src, payload) {
                Ok(tag) => Ok(BasicFormatTag::Size(tag)),
                Err(e) => Err(e),
            }
        } else if src[body.start as int] == '@' {
            spec_font_tag(src, payload)
        } else {
            Err(ParseError)
        }
    }
}

fn split_fields(src: &Vec<char>, r: TextRange, maximum: usize) -> (result: Result<
    Vec<TextRange>,
    ParseError,
>)
    requires
        valid_range(src@, r),
    ensures
        match result {
            Ok(fields) => spec_split_fields(src@, r, maximum as int) == Ok::<
                Seq<TextRange>,
                ParseError,
            >(fields@),
            Err(e) => spec_split_fields(src@, r, maximum as int) == Err::<
                Seq<TextRange>,
                ParseError,
            >(e),
        },
{
    let mut fields: Vec<TextRange> = Vec::new();
    let mut field_start = r.start;
    let mut i = r.start;
    while i < r.end
        invariant
            r.start <= field_start <= i <= r.end <= src@.len(),
            fields@ + fields_from(src@, field_start as int, i as int, r.end as int) == fields_of(
                src@,
                r,
            ),
        decreases r.end - i,
    {
        if src[i] == ',' {
            let ghost rest = fields_from(src@, (i + 1) as int, (i + 1) as int, r.end as int);
            fields.push(TextRange { start: field_start, end: i });
            assert(fields@ + rest =~= fields@.drop_last() + (seq![mk_range(field_start as int, i as int)] + rest));
            field_start = i + 1;
        }
        i += 1;
    }
    let ghost before = fields@;
    assert(fields_from(src@, field_start as int, i as int, r.end as int) == seq![
        mk_range(field_start as int, r.end as int),
    ]);
    fields.push(TextRange { start: field_start, end: r.end });
    assert(fields@ =~= before + seq![mk_range(field_start as int, r.end as int)]);
    if fields.len() <= maximum {
        Ok(fields)
    } else {
        Err(ParseError)
    }
}

fn parse_optional_name(src: &Vec<char>, r: TextRange) -> (result: Result<Option<TextRange>, ParseError>)
    requires
        valid_range(src@, r),
    ensures
        result == spec_optional_name(src@, r),
{
    if r.start == r.end {
        return Ok(None);
    }
    let mut i = r.start;
    while i < r.end
        invariant
            r.start <= i <= r.end <= src@.len(),
            forall|k: int| r.start <= k < i ==> name_char(#[trigger] src@[k]),
        decreases r.end - i,
    {
        let c = src[i];
        if c == '<' || c == '>' || c == ',' || is_control(c) {
            assert(!name_char(src@[i as int]));
            return Err(ParseError);
        }
        i += 1;
    }
    Ok(Some(r))
}

fn is_hexdigit(c: char) -> (r: bool)
    ensures
        r == is_ascii_hexdigit(c),
{
    ('0' <= c && c <= '9') || ('a' <= c && c <= 'f') || ('A' <= c && c <= 'F')
}

/// Whether `src[r]` spells `word`.
fn range_spells(src: &Vec<char>, r: TextRange, word: &[char]) -> (result: bool)
    requires
        valid_range(src@, r),
    ensures
        result == (src@.subrange(r.start as int, r.end as int) == word@),
{
    if r.end - r.start != word.len() {
        assert(src@.subrange(r.start as int, r.end as int).len() != word@.len());
        return false;
    }
    let mut i: usize = 0;
    while i < word.len()
        invariant
            r.end - r.start == word@.len(),
            valid_range(src@, r),
            i <= word@.len(),
            forall|k: int| 0 <= k < i ==> src@[r.start + k] == word@[k],
        decreases word@.len() - i,
    {
        if src[r.start + i] != word[i] {
            assert(src@.subrange(r.start as int, r.end as int)[i as int] != word@[i as int]);
            return false;
        }
        i += 1;
    }
    assert(src@.subrange(r.start as int, r.end as int) =~= word@);
    true
}

fn is_color_alias(src: &Vec<char>, r: TextRange) -> (result: bool)
    requires
        valid_range(src@, r),
    ensures
        result == color_alias(src@.subrange(r.start as int, r.end as int)),
{
    let white = ['w', 'h', 'i', 't', 'e'];
    let red = ['r', 'e', 'd'];
    let yellow = ['y', 'e', 'l', 'l', 'o', 'w'];
    let green = ['g', 'r', 'e', 'e', 'n'];
    let aqua = ['a', 'q', 'u', 'a'];
    let blue = ['b', 'l', 'u', 'e'];
    let magenta = ['m', 'a', 'g', 'e', 'n', 't', 'a'];
    let black = ['b', 'l', 'a', 'c', 'k'];
    assert(white@ =~= seq!['w', 'h', 'i', 't', 'e']);
    assert(red@ =~= seq!['r', 'e', 'd']);
    assert(yellow@ =~= seq!['y', 'e', 'l', 'l', 'o', 'w']);
    assert(green@ =~= seq!['g', 'r', 'e', 'e', 'n']);
    assert(aqua@ =~= seq!['a', 'q', 'u', 'a']);
    assert(blue@ =~= seq!['b', 'l', 'u', 'e']);
    assert(magenta@ =~= seq!['m', 'a', 'g', 'e', 'n', 't', 'a']);
    assert(black@ =~= seq!['b', 'l', 'a', 'c', 'k']);
    range_spells(src, r, &white) || range_spells(src, r, &red) || range_spells(src, r, &yellow)
        || range_spells(src, r, &green) || range_spells(src, r, &aqua) || range_spells(
        src,
        r,
        &blue,
    ) || range_spells(src, r, &magenta) || range_spells(src, r, &black)
}

fn parse_optional_color(src: &Vec<char>, r: TextRange) -> (result: Result<Option<TextRange>, ParseError>)
    requires
        valid_range(src@, r),
    ensures
        result == spec_optional_color(src@, r),
{
    if r.start == r.end {
        return Ok(None);
    }
    let mut is_hex = r.end - r.start == 6;
    if is_hex {
        let mut i = r.start;
        while i < r.end
            invariant
                r.start <= i <= r.end <= src@.len(),
                r.end - r.start == 6,
                is_hex == forall|k: int| r.start <= k < i ==> is_ascii_hexdigit(#[trigger] src@[k]),
            decreases r.end - i,
        {
            if !is_hexdigit(src[i]) {
                is_hex = false;
            }
            i += 1;
        }
    }
    if is_hex || is_color_alias(src, r) {
        Ok(Some(r))
    } else {
        Err(ParseError)
    }
}

fn parse_style_flags(src: &Vec<char>, r: TextRange) -> (result: Result<StyleFlags, ParseError>)
    requires
        valid_range(src@, r),
    ensures
        result == spec_style_flags(src@, r),
{
    let mut styles = StyleFlags { bold: false, italic: false, strike: false };
    let mut i = r.start;
    while i < r.end
        invariant
            r.start <= i <= r.end <= src@.len(),
            forall|k: int| r.start <= k < i ==> style_letter(#[trigger] src@[k]),
            forall|k: int, l: int| r.start <= k < l < i ==> src@[k] != src@[l],
            styles.bold == has_letter(src@, mk_range(r.start as int, i as int), 'B'),
            styles.italic == has_letter(src@, mk_range(r.start as int, i as int), 'I'),
            styles.strike == has_letter(src@, mk_range(r.start as int, i as int), 'S'),
        decreases r.end - i,
    {
        let c = src[i];
        if c == 'B' {
            if styles.bold {
                let ghost k = choose|k: int| r.start <= k < i && src@[k] == 'B';
                assert(src@[k] == src@[i as int]);
                return Err(ParseError);
            }
            styles.bold = true;
        } else if c == 'I' {
            if styles.italic {
                let ghost k = choose|k: int| r.start <= k < i && src@[k] == 'I';
                assert(src@[k] == src@[i as int]);
                return Err(ParseError);
            }
            styles.italic = true;
        } else if c == 'S' {
            if styles.strike {
                let ghost k = choose|k: int| r.start <= k < i && src@[k] == 'S';
                assert(src@[k] == src@[i as int]);
                return Err(ParseError);
            }
            styles.strike = true;
        } else {
            assert(!style_letter(src@[i as int]));
            return Err(ParseError);
        }
        assert(forall|k: int| r.start <= k < i ==> src@[k] != src@[i as int]);
        i += 1;
        assert(has_letter(src@, mk_range(r.start as int, i as int), c));
    }
    Ok(styles)
}

fn parse_nonempty_style_flags(src: &Vec<char>, r: TextRange) -> (result: Result<StyleFlags, ParseError>)
    requires
        valid_range(src@, r),
    ensures
        result == spec_nonempty_style_flags(src@, r),
{
    if r.start == r.end {
        return Err(ParseError);
    }
    parse_style_flags(src, r)
}

fn parse_font_style(src: &Vec<char>, r: TextRange) -> (result: Result<FontStyle, ParseError>)
    requires
        valid_range(src@, r),
    ensures
        result == spec_font_style(src@, r),
{
    if r.start < r.end && '0' <= src[r.start] && src[r.start] <= '6' {
        let digit = src[r.start];
        let styles = parse_style_flags(src, TextRange { start: r.start + 1, end: r.end })?;
        Ok(FontStyle { decoration: Some(((digit as u32) - 48) as u8), styles })
    } else if r.start < r.end && '7' <= src[r.start] && src[r.start] <= '9' {
        Err(ParseError)
    } else {
        let styles = parse_style_flags(src, r)?;
        Ok(FontStyle { decoration: None, styles })
    }
}

/// Checks the form of a decimal number; its value is for the caller's
/// floating-point arithmetic.
fn check_decimal_syntax(src: &Vec<char>, r: TextRange) -> (result: Result<(), ParseError>)
    requires
        valid_range(src@, r),
    ensures
        result is Ok <==> decimal_syntax(src@, r),
{
    if r.start == r.end {
        return Err(ParseError);
    }
    let d = if src[r.start] == '+' || src[r.start] == '-' {
        r.start + 1
    } else {
        r.start
    };
    if d >= r.end {
        return Err(ParseError);
    }
    let mut dot_seen = false;
    let mut digit_seen = false;
    let mut i = d;
    while i < r.end
        invariant
            d == digits_start(src@, r),
            d <= i <= r.end <= src@.len(),
            forall|k: int| d <= k < i ==> is_ascii_digit(#[trigger] src@[k]) || src@[k] == '.',
            forall|k: int, l: int| d <= k < l < i ==> !(src@[k] == '.' && src@[l] == '.'),
            dot_seen == exists|k: int| d <= k < i && src@[k] == '.',
            digit_seen == exists|k: int| d <= k < i && is_ascii_digit(#[trigger] src@[k]),
        decreases r.end - i,
    {
        let c = src[i];
        if '0' <= c && c <= '9' {
            digit_seen = true;
        } else if c == '.' && !dot_seen {
            dot_seen = true;
        } else {
            if c == '.' {
                let ghost k = choose|k: int| d <= k < i && src@[k] == '.';
                assert(src@[k] == '.' && src@[i as int] == '.');
            } else {
                assert(!(is_ascii_digit(src@[i as int]) || src@[i as int] == '.'));
            }
            return Err(ParseError);
        }
        i += 1;
    }
    if !digit_seen {
        return Err(ParseError);
    }
    Ok(())
}

fn parse_size_expression(src: &Vec<char>, r: TextRange) -> (result: Result<SizeExpression, ParseError>)
    requires
        valid_range(src@, r),
    ensures
        result == spec_size_expression(src@, r),
{
    let first = if r.start < r.end {
        src[r.start]
    } else {
        ' '
    };
    let kind = if first == '+' {
        SizeExpressionKind::Add
    } else if first == '-' {
        SizeExpressionKind::Subtract
    } else if first == '*' {
        SizeExpressionKind::Multiply
    } else {
        SizeExpressionKind::Absolute
    };
    let number = match kind {
        SizeExpressionKind::Absolute => r,
        _ => TextRange { start: r.start + 1, end: r.end },
    };
    if number.start < number.end && (src[number.start] == '+' || src[number.start] == '-') {
        return Err(ParseError);
    }
    check_decimal_syntax(src, number)?;
    Ok(SizeExpression { kind, number, source: r })
}

proof fn lemma_fields_valid(src: Seq<char>, field_start: int, i: int, end: int)
    requires
        0 <= field_start <= i <= end <= src.len(),
        end <= usize::MAX,
    ensures
        fields_from(src, field_start, i, end).len() >= 1,
        forall|k: int|
            0 <= k < fields_from(src, field_start, i, end).len() ==> field_start <= (
            #[trigger] fields_from(src, field_start, i, end)[k]).start <= fields_from(
                src,
                field_start,
                i,
                end,
            )[k].end <= end,
    decreases end - i,
{
    if i < end {
        if src[i] == ',' {
            lemma_fields_valid(src, i + 1, i + 1, end);
            let rest = fields_from(src, i + 1, i + 1, end);
            let all = fields_from(src, field_start, i, end);
            assert(all == seq![mk_range(field_start, i)] + rest);
            assert forall|k: int| 0 <= k < all.len() implies field_start <= (#[trigger] all[k]).start
                <= all[k].end <= end by {
                if k > 0 {
                    assert(all[k] == rest[k - 1]);
                }
            }
        } else {
            lemma_fields_valid(src, field_start, i + 1, end);
        }
    }
}

fn parse_size_tag(src: &Vec<char>, payload: TextRange) -> (result: Result<SizeTag, ParseError>)
    requires
        valid_range(src@, payload),
    ensures
        result == spec_size_tag(src@, payload),
{
    if payload.start == payload.end {
        return Ok(
            SizeTag {
                size: None,
                size_field_is_empty: false,
                font: None,
                style: None,
                outline_size: None,
                reset: true,
            },
        );
    }
    proof {
        lemma_fields_valid(src@, payload.start as int, payload.start as int, payload.end as int);
    }
    let fields = split_fields(src, payload, 4)?;
    let size_field_is_empty = fields[0].start == fields[0].end;
    let size = if size_field_is_empty {
        None
    } else {
        Some(parse_size_expression(src, fields[0])?)
    };
    let font = if fields.len() > 1 {
        parse_optional_name(src, fields[1])?
    } else {
        None
    };
    let style = if fields.len() > 2 {
        Some(parse_style_flags(src, fields[2])?)
    } else {
        None
    };
    let outline_size = if fields.len() > 3 {
        let field = fields[3];
        if field.start == field.end {
            return Err(ParseError);
        }
        check_decimal_syntax(src, field)?;
        Some(field)
    } else {
        None
    };
    Ok(SizeTag { size, size_field_is_empty, font, style, outline_size, reset: false })
}

fn parse_color_tag(src: &Vec<char>, payload: TextRange) -> (result: Result<BasicFormatTag, ParseError>)
    requires
        valid_range(src@, payload),
    ensures
        result == spec_color_tag(src@, payload),
{
    if payload.start == payload.end {
        return Ok(BasicFormatTag::Color { text: None, decoration: None, reset: true });
    }
    proof {
        lemma_fields_valid(src@, payload.start as int, payload.start as int, payload.end as int);
    }
    let fields = split_fields(src, payload, 2)?;
    let text = parse_optional_color(src, fields[0])?;
    let decoration = if fields.len() > 1 {
        parse_optional_color(src, fields[1])?
    } else {
        None
    };
    Ok(BasicFormatTag::Color { text, decoration, reset: true })
}

fn parse_font_tag(src: &Vec<char>, payload: TextRange) -> (result: Result<BasicFormatTag, ParseError>)
    requires
        valid_range(src@, payload),
    ensures
        result == spec_font_tag(src@, payload),
{
    if payload.start == payload.end {
        return Ok(BasicFormatTag::Font { font: None, style: None, reset: true });
    }
    if src[payload.start] == '+' || src[payload.start] == '-' {
        let add = src[payload.start] == '+';
        let styles = parse_nonempty_style_flags(
            src,
            TextRange { start: payload.start + 1, end: payload.end },
        )?;
        return Ok(BasicFormatTag::StyleDelta { add, styles });
    }
    proof {
        lemma_fields_valid(src@, payload.start as int, payload.start as int, payload.end as int);
    }
    let fields = split_fields(src, payload, 2)?;
    let font = parse_optional_name(src, fields[0])?;
    let style = if fields.len() > 1 {
        Some(parse_font_style(src, fields[1])?)
    } else {
        None
    };
    if font.is_none() && style.is_none() {
        return Err(ParseError);
    }
    Ok(BasicFormatTag::Font { font, style, reset: false })
}

fn parse_tag(src: &Vec<char>, body: TextRange) -> (result: Result<BasicFormatTag, ParseError>)
    requires
        valid_range(src@, body),
    ensures
        result == spec_parse_tag(src@, body),
{
    reveal(spec_parse_tag);
    if body.start == body.end {
        return Err(ParseError);
    }
    let payload = TextRange { start: body.start + 1, end: body.end };
    let first = src[body.start];
    if first == '#' {
        parse_color_tag(src, payload)
    } else if first == 's' {
        let tag = parse_size_tag(src, payload)?;
        Ok(BasicFormatTag::Size(tag))
    } else if first == '@' {
        parse_font_tag(src, payload)
    } else {
        Err(ParseError)
    }
}

pub open spec fn style_delta(attribute: AttributeState<bool>, selected: bool, value: bool) -> AttributeState<bool> {
    if selected {
        attribute.with_value(value)
    } else {
        attribute
    }
}

/// What an `<s>` tag does to the format; `n` is the number of size
/// expressions before the tag's own, which becomes expression `n`.
pub open spec fn apply_size_tag_spec(state: TextFormatState, tag: SizeTag, n: usize) -> TextFormatState {
    if tag.reset {
        TextFormatState {
            font_size_override: false,
            size_chain: SizeChain { first: n, end: n },
            ..state.without_s_optional()
        }
    } else {
        let s1 = state.without_s_optional();
        let s2 = if tag.size_field_is_empty {
            TextFormatState {
                font_size_override: false,
                size_chain: SizeChain { first: n, end: n },
                ..s1
            }
        } else {
            match tag.size {
                Some(e) => TextFormatState {
                    font_size_override: true,
                    size_chain: SizeChain {
                        first: if e.kind == SizeExpressionKind::Absolute {
                            n
                        } else {
                            s1.size_chain.first
                        },
                        end: (n + 1) as usize,
                    },
                    ..s1
                },
                None => s1,
            }
        };
        let s3 = match tag.font {
            Some(f) => TextFormatState {
                s_font_family: s2.s_font_family.with_value(TextValue::Source(f)),
                ..s2
            },
            None => s2,
        };
        let s4 = match tag.style {
            Some(st) => TextFormatState {
                s_bold: s3.s_bold.with_value(st.bold),
                s_italic: s3.s_italic.with_value(st.italic),
                s_strike: s3.s_strike.with_value(st.strike),
                s_style_active: true,
                ..s3
            },
            None => s3,
        };
        match tag.outline_size {
            Some(o) => TextFormatState {
                s_outline_size: s4.s_outline_size.with_value(TextValue::Source(o)),
                ..s4
            },
            None => s4,
        }
    }
}

/// What a tag does to the format; `n` numbers the tag's size expression.
#[verifier::opaque]
pub open spec fn apply_tag_spec(state: TextFormatState, tag: BasicFormatTag, n: usize) -> TextFormatState {
    match tag {
        BasicFormatTag::Color { text, decoration, reset } => {
            let s1 = TextFormatState {
                text_color: state.text_color.after_reset(),
                decoration_color: state.decoration_color.after_reset(),
                ..state
            };
            let s2 = match text {
                Some(t) => TextFormatState {
                    text_color: s1.text_color.with_value(TextValue::Source(t)),
                    ..s1
                },
                None => s1,
            };
            match decoration {
                Some(d) => TextFormatState {
                    decoration_color: s2.decoration_color.with_value(TextValue::Source(d)),
                    ..s2
                },
                None => s2,
            }
        },
        BasicFormatTag::Size(t) => apply_size_tag_spec(state, t, n),
        BasicFormatTag::Font { font, style, reset } => {
            if font is Some && !reset {
                let s1 = state.without_at_format();
                let s2 = TextFormatState {
                    at_font_family: s1.at_font_family.with_value(TextValue::Source(font->0)),
                    ..s1
                };
                let s3 = match style {
                    Some(fs) => {
                        let sd = match fs.decoration {
                            Some(d) => TextFormatState {
                                at_decoration: s2.at_decoration.with_value(d),
                                ..s2
                            },
                            None => s2,
                        };
                        TextFormatState {
                            at_bold: sd.at_bold.with_value(fs.styles.bold),
                            at_italic: sd.at_italic.with_value(fs.styles.italic),
                            at_strike: sd.at_strike.with_value(fs.styles.strike),
                            ..sd
                        }
                    },
                    None => s2,
                };
                s3.with_s_resets_from_at()
            } else {
                state.without_at_format()
            }
        },
        BasicFormatTag::StyleDelta { add, styles } => {
            let s1 = TextFormatState {
                at_bold: style_delta(state.at_bold, styles.bold, add),
                at_italic: style_delta(state.at_italic, styles.italic, add),
                at_strike: style_delta(state.at_strike, styles.strike, add),
                ..state
            };
            let s2 = if s1.s_style_active {
                TextFormatState {
                    s_bold: style_delta(s1.s_bold, styles.bold, add),
                    s_italic: style_delta(s1.s_italic, styles.italic, add),
                    s_strike: style_delta(s1.s_strike, styles.strike, add),
                    ..s1
                }
            } else {
                s1
            };
            s2.with_s_resets_from_at()
        },
    }
}

fn apply_style_delta(attribute: &mut AttributeState<bool>, selected: bool, value: bool)
    ensures
        *final(attribute) == style_delta(*old(attribute), selected, value),
{
    if selected {
        attribute.set(value);
    }
}

fn apply_size_tag(state: &mut TextFormatState, tag: SizeTag, n: usize)
    requires
        n < usize::MAX,
    ensures
        *final(state) == apply_size_tag_spec(*old(state), tag, n),
{
    if tag.reset {
        state.font_size_override = false;
        state.size_chain = SizeChain { first: n, end: n };
        state.clear_s_optional_format();
        return ;
    }
    state.clear_s_optional_format();
    if tag.size_field_is_empty {
        state.font_size_override = false;
        state.size_chain = SizeChain { first: n, end: n };
    } else if let Some(expression) = tag.size {
        state.font_size_override = true;
        let first = match expression.kind {
            SizeExpressionKind::Absolute => n,
            _ => state.size_chain.first,
        };
        state.size_chain = SizeChain { first, end: n + 1 };
    }
    if let Some(font) = tag.font {
        state.s_font_family.set(TextValue::Source(font));
    }
    if let Some(styles) = tag.style {
        state.s_bold.set(styles.bold);
        state.s_italic.set(styles.italic);
        state.s_strike.set(styles.strike);
        state.s_style_active = true;
    }
    if let Some(outline_size) = tag.outline_size {
        state.s_outline_size.set(TextValue::Source(outline_size));
    }
}

fn set_at_styles(state: &mut TextFormatState, styles: StyleFlags)
    ensures
        *final(state) == (TextFormatState {
            at_bold: old(state).at_bold.with_value(styles.bold),
            at_italic: old(state).at_italic.with_value(styles.italic),
            at_strike: old(state).at_strike.with_value(styles.strike),
            ..*old(state)
        }),
{
    state.at_bold.set(styles.bold);
    state.at_italic.set(styles.italic);
    state.at_strike.set(styles.strike);
}

fn apply_tag(state: &mut TextFormatState, tag: BasicFormatTag, n: usize)
    requires
        n < usize::MAX,
    ensures
        *final(state) == apply_tag_spec(*old(state), tag, n),
{
    reveal(apply_tag_spec);
    match tag {
        BasicFormatTag::Color { text, decoration, reset: _ } => {
            state.text_color.reset();
            state.decoration_color.reset();
            if let Some(text) = text {
                state.text_color.set(TextValue::Source(text));
            }
            if let Some(decoration) = decoration {
                state.decoration_color.set(TextValue::Source(decoration));
            }
        },
        BasicFormatTag::Size(tag) => apply_size_tag(state, tag, n),
        BasicFormatTag::Font { font, style, reset } => {
            match font {
                Some(font) if !reset => {
                    state.reset_at_format();
                    state.at_font_family.set(TextValue::Source(font));
                    if let Some(style) = style {
                        if let Some(decoration) = style.decoration {
                            state.at_decoration.set(decoration);
                        }
                        set_at_styles(state, style.styles);
                    }
                    state.sync_s_resets_from_at();
                },
                _ => state.reset_at_format(),
            }
        },
        BasicFormatTag::StyleDelta { add, styles } => {
            apply_style_delta(&mut state.at_bold, styles.bold, add);
            apply_style_delta(&mut state.at_italic, styles.italic, add);
            apply_style_delta(&mut state.at_strike, styles.strike, add);
            if state.s_style_active {
                apply_style_delta(&mut state.s_bold, styles.bold, add);
                apply_style_delta(&mut state.s_italic, styles.italic, add);
                apply_style_delta(&mut state.s_strike, styles.strike, add);
            }
            state.sync_s_resets_from_at();
        },
    }
}

/// Whether a span is visible text or one line break of the input.
#[derive(Clone, Copy, Debug, PartialEq, Eq, Structural)]
pub enum ParsedSpanKind {
    Visible,
    Newline,
}

/// A run of visible text, or one line break, with the format in force.
#[derive(Clone, Copy, Debug)]
pub struct SpanView {
    pub chars: TextRange,
    pub kind: ParsedSpanKind,
    pub format: TextFormatState,
}

/// A span of the input: its UTF-8 byte range, its character range, its
/// kind and the format in force.
#[derive(Debug)]
pub struct ParsedSpan {
    pub range: std::ops::Range<usize>,
    pub chars: TextRange,
    pub kind: ParsedSpanKind,
    pub format: TextFormatState,
}

impl ParsedSpan {
    pub open spec fn view_spec(self) -> SpanView {
        SpanView { chars: self.chars, kind: self.kind, format: self.format }
    }
}

/// The outcome of taking a control text apart.
pub struct ParsedControlText {
    /// Visible runs and line breaks in source order; tags are left out.
    pub spans: Vec<ParsedSpan>,
    /// Every size expression of the input, in order.
    pub size_expressions: Vec<SizeExpression>,
    /// The conditions on decimal numbers that floating-point arithmetic
    /// has to confirm before the parse stands.
    pub numeric_checks: Vec<NumericCheck>,
    /// The characters of the input.
    pub source: Vec<char>,
    /// The object's font family that `TextValue::ObjectFontFamily` stands for.
    pub object_font_family: Option<String>,
}

/// What the parse has collected up to some point of the input.
pub struct ParseAccumulator {
    pub spans: Seq<SpanView>,
    pub exprs: Seq<SizeExpression>,
    pub checks: Seq<NumericCheck>,
}

pub open spec fn push_visible(acc: ParseAccumulator, start: int, end: int, state: TextFormatState) -> ParseAccumulator {
    if start < end {
        ParseAccumulator {
            spans: acc.spans.push(
                SpanView { chars: mk_range(start, end), kind: ParsedSpanKind::Visible, format: state },
            ),
            ..acc
        }
    } else {
        acc
    }
}

/// The position of the first `>` at or after `from`.
pub open spec fn find_close(src: Seq<char>, from: int) -> Option<int>
    decreases src.len() - from,
{
    if from < 0 || from >= src.len() {
        None
    } else if src[from] == '>' {
        Some(from)
    } else {
        find_close(src, from + 1)
    }
}

pub proof fn lemma_find_close_bounds(src: Seq<char>, from: int)
    requires
        0 <= from,
    ensures
        find_close(src, from) matches Some(j) ==> from <= j < src.len() && src[j] == '>',
    decreases src.len() - from,
{
    if from < src.len() && src[from] != '>' {
        lemma_find_close_bounds(src, from + 1);
    }
}

/// The size expression that an `<s>` tag applies.
pub open spec fn size_tag_expression(t: SizeTag) -> Option<SizeExpression> {
    if t.reset || t.size_field_is_empty {
        None
    } else {
        t.size
    }
}

/// The size expression that a tag adds.
pub open spec fn tag_expressions(tag: BasicFormatTag) -> Seq<SizeExpression> {
    match tag {
        BasicFormatTag::Size(t) => match size_tag_expression(t) {
            Some(e) => seq![e],
            None => Seq::empty(),
        },
        _ => Seq::empty(),
    }
}

/// The numeric conditions that a tag adds: its size literal, its outline
/// width, and the size chain that it leaves in force.
#[verifier::opaque]
pub open spec fn tag_checks(tag: BasicFormatTag, n: usize, after: TextFormatState) -> Seq<NumericCheck> {
    match tag {
        BasicFormatTag::Size(t) => (match size_tag_expression(t) {
            Some(_) => seq![NumericCheck::SizeLiteral(n)],
            None => Seq::empty(),
        }) + (match t.outline_size {
            Some(o) => seq![NumericCheck::OutlineLiteral(o)],
            None => Seq::empty(),
        }) + (match size_tag_expression(t) {
            Some(_) => seq![NumericCheck::SizeChain(after.size_chain)],
            None => Seq::empty(),
        }),
        _ => Seq::empty(),
    }
}

/// The length of a line break that starts at `cursor`: `\r\n` is one.
pub open spec fn newline_end(src: Seq<char>, cursor: int) -> int {
    if src[cursor] == '\r' && cursor + 1 < src.len() && src[cursor + 1] == '\n' {
        cursor + 2
    } else {
        cursor + 1
    }
}

/// The rest of the parse from `cursor`, where visible text runs from
/// `visible_start` and `state` is in force.
pub open spec fn scan(
    src: Seq<char>,
    cursor: int,
    visible_start: int,
    state: TextFormatState,
    acc: ParseAccumulator,
) -> Result<ParseAccumulator, ParseError>
    decreases src.len() - cursor,
{
    if cursor < 0 || cursor >= src.len() {
        Ok(push_visible(acc, visible_start, src.len() as int, state))
    } else if src[cursor] == '<' {
        let acc1 = push_visible(acc, visible_start, cursor, state);
        match find_close(src, cursor + 1) {
            None => Err(ParseError),
            Some(j) => match spec_parse_tag(src, mk_range(cursor + 1, j)) {
                Err(e) => Err(e),
                Ok(tag) => {
                    proof {
                        lemma_find_close_bounds(src, cursor + 1);
                    }
                    let n = acc1.exprs.len() as usize;
                    let after = apply_tag_spec(state, tag, n);
                    let acc2 = ParseAccumulator {
                        exprs: acc1.exprs + tag_expressions(tag),
                        checks: acc1.checks + tag_checks(tag, n, after),
                        ..acc1
                    };
                    scan(src, j + 1, j + 1, after, acc2)
                },
            },
        }
    } else if src[cursor] == '\r' || src[cursor] == '\n' {
        let acc1 = push_visible(acc, visible_start, cursor, state);
        let end = newline_end(src, cursor);
        let acc2 = ParseAccumulator {
            spans: acc1.spans.push(
                SpanView { chars: mk_range(cursor, end), kind: ParsedSpanKind::Newline, format: state },
            ),
            ..acc1
        };
        scan(src, end, end, state, acc2)
    } else {
        scan(src, cursor + 1, visible_start, state, acc)
    }
}

/// Parsing `src` with an object that has (or lacks) a font family of its own.
pub open spec fn spec_parse_control_text(src: Seq<char>, has_font_family: bool) -> Result<
    ParseAccumulator,
    ParseError,
> {
    scan(
        src,
        0,
        0,
        TextFormatState::initial(has_font_family),
        ParseAccumulator { spans: Seq::empty(), exprs: Seq::empty(), checks: Seq::empty() },
    )
}

pub open spec fn spans_view(spans: Seq<ParsedSpan>) -> Seq<SpanView> {
    spans.map_values(|s: ParsedSpan| s.view_spec())
}

/// Every span's byte range encloses the UTF-8 encoding of its characters.
pub open spec fn byte_ranges_match(src: Seq<char>, spans: Seq<ParsedSpan>) -> bool {
    forall|i: int|
        0 <= i < spans.len() ==> {
            &&& (#[trigger] spans[i]).chars.start <= spans[i].chars.end <= src.len()
            &&& spans[i].range.start == utf8_offset(src, spans[i].chars.start as int)
            &&& spans[i].range.end == utf8_offset(src, spans[i].chars.end as int)
        }
}

/// Spans come in source order and do not overlap.
pub open spec fn spans_in_order(spans: Seq<ParsedSpan>) -> bool {
    forall|i: int, j: int| 0 <= i < j < spans.len() ==> spans[i].chars.end <= spans[j].chars.start
}

/// The UTF-8 encoding of the whole source fits in memory.
pub open spec fn source_fits(src: Seq<char>) -> bool {
    utf8_offset(src, src.len() as int) <= usize::MAX
}

/// What a parse guarantees of its spans.
pub open spec fn well_formed_spans(src: Seq<char>, spans: Seq<ParsedSpan>) -> bool {
    &&& source_fits(src)
    &&& byte_ranges_match(src, spans)
    &&& spans_in_order(spans)
}

fn push_visible_span(
    spans: &mut Vec<ParsedSpan>,
    chars: TextRange,
    bytes: std::ops::Range<usize>,
    state: &TextFormatState,
)
    ensures
        spans_view(final(spans)@) == (if chars.start < chars.end {
            spans_view(old(spans)@).push(
                SpanView { chars, kind: ParsedSpanKind::Visible, format: *state },
            )
        } else {
            spans_view(old(spans)@)
        }),
        final(spans)@ == (if chars.start < chars.end {
            old(spans)@.push(
                ParsedSpan { range: bytes, chars, kind: ParsedSpanKind::Visible, format: *state },
            )
        } else {
            old(spans)@
        }),
{
    if chars.start < chars.end {
        spans.push(ParsedSpan { range: bytes, chars, kind: ParsedSpanKind::Visible, format: *state });
        assert(spans_view(spans@) =~= spans_view(old(spans)@).push(
            SpanView { chars, kind: ParsedSpanKind::Visible, format: *state },
        ));
    }
}

/// Finds the `>` that closes the tag opened at `cursor`, with its byte offset.
fn find_tag_end(source: &str, src: &Vec<char>, cursor: usize, cursor_byte: usize, byte_len: usize) -> (found: Option<(usize, usize)>)
    requires
        src@ == source@,
        cursor < src@.len(),
        src@[cursor as int] == '<',
        cursor_byte == utf8_offset(src@, cursor as int),
        byte_len == source.spec_bytes().len(),
    ensures
        match found {
            Some((j, j_byte)) => {
                &&& find_close(src@, cursor + 1) == Some(j as int)
                &&& cursor < j < src@.len()
                &&& src@[j as int] == '>'
                &&& j_byte == utf8_offset(src@, j as int)
            },
            None => find_close(src@, cursor + 1) is None,
        },
{
    let len = src.len();
    proof {
        lemma_utf8_offset_bounded(source, (cursor + 1) as int);
        assert(utf8_offset(src@, cursor + 1) == utf8_offset(src@, cursor as int) + utf8_width(
            src@[cursor as int],
        ));
    }
    let mut j = cursor + 1;
    let mut j_byte = cursor_byte + 1;
    while j < len && src[j] != '>'
        invariant
            src@ == source@,
            len == src@.len(),
            cursor < j <= len,
            j_byte == utf8_offset(src@, j as int),
            byte_len == source.spec_bytes().len(),
            j_byte <= byte_len,
            find_close(src@, cursor as int + 1) == find_close(src@, j as int),
        decreases len - j,
    {
        proof {
            lemma_utf8_offset_bounded(source, (j + 1) as int);
            assert(utf8_offset(src@, j + 1) == utf8_offset(src@, j as int) + utf8_width(
                src@[j as int],
            ));
        }
        j_byte = j_byte + char_utf8_width(src[j]);
        j = j + 1;
    }
    if j >= len {
        return None;
    }
    Some((j, j_byte))
}

/// Only an `<s>` tag moves the size chain, and only to its own expression.
proof fn lemma_apply_tag_chain(state: TextFormatState, tag: BasicFormatTag, n: usize)
    requires
        n < usize::MAX,
        state.size_chain.first <= state.size_chain.end == n,
    ensures
        apply_tag_spec(state, tag, n).size_chain.first <= apply_tag_spec(state, tag, n).size_chain.end
            == n + tag_expressions(tag).len(),
{
    reveal(apply_tag_spec);
    match tag {
        BasicFormatTag::Size(t) => {
            assert(state.without_s_optional().size_chain == state.size_chain);
        },
        BasicFormatTag::Font { font, style, reset } => {
            assert(state.without_at_format().size_chain == state.size_chain);
        },
        BasicFormatTag::StyleDelta { add, styles } => {},
        BasicFormatTag::Color { .. } => {},
    }
}

/// Applies a tag to the format and records its size expression and its
/// numeric conditions.
fn record_tag(
    state: &mut TextFormatState,
    exprs: &mut Vec<SizeExpression>,
    checks: &mut Vec<NumericCheck>,
    tag: BasicFormatTag,
)
    requires
        old(exprs)@.len() < usize::MAX,
        old(state).size_chain.first <= old(state).size_chain.end == old(exprs)@.len(),
    ensures
        final(state).size_chain.first <= final(state).size_chain.end == final(exprs)@.len(),
        *final(state) == apply_tag_spec(*old(state), tag, old(exprs)@.len() as usize),
        final(exprs)@ == old(exprs)@ + tag_expressions(tag),
        final(checks)@ == old(checks)@ + tag_checks(tag, old(exprs)@.len() as usize, *final(state)),
{
    reveal(tag_checks);
    let n = exprs.len();
    proof {
        lemma_apply_tag_chain(*state, tag, n);
    }
    apply_tag(state, tag, n);
    if let BasicFormatTag::Size(size_tag) = tag {
        let applied = if size_tag.reset || size_tag.size_field_is_empty {
            None
        } else {
            size_tag.size
        };
        if let Some(expression) = applied {
            exprs.push(expression);
            checks.push(NumericCheck::SizeLiteral(n));
        }
        if let Some(outline) = size_tag.outline_size {
            checks.push(NumericCheck::OutlineLiteral(outline));
        }
        if applied.is_some() {
            checks.push(NumericCheck::SizeChain(state.size_chain));
        }
    }
    assert(exprs@ =~= old(exprs)@ + tag_expressions(tag));
    assert(checks@ =~= old(checks)@ + tag_checks(tag, n, *state));
}

/// Takes a control text apart into visible runs and line breaks, with the
/// format that the `<#>`, `<s>` and `<@>` tags leave in force for each.
///
/// Any other tag, a tag that is malformed, and a `<` without its `>` make
/// the whole text unsupported. The numeric conditions of the result still
/// have to hold for the parse to stand.
pub fn parse_control_text(source: &str, defaults: ControlTextDefaults) -> (result: Result<
    ParsedControlText,
    ParseError,
>)
    ensures
        match result {
            Ok(parsed) => {
                &&& spec_parse_control_text(source@, defaults.font_family is Some) matches Ok(acc)
                &&& spans_view(parsed.spans@) == acc.spans
                &&& parsed.size_expressions@ == acc.exprs
                &&& parsed.numeric_checks@ == acc.checks
                &&& parsed.source@ == source@
                &&& parsed.object_font_family == defaults.font_family
                &&& well_formed_spans(source@, parsed.spans@)
            },
            Err(_) => spec_parse_control_text(source@, defaults.font_family is Some) is Err,
        },
{
    let src = chars_of(source);
    let ghost has_family = defaults.font_family is Some;
    let mut state = TextFormatState::new(&defaults);
    let mut spans: Vec<ParsedSpan> = Vec::new();
    let mut exprs: Vec<SizeExpression> = Vec::new();
    let mut checks: Vec<NumericCheck> = Vec::new();
    let mut cursor: usize = 0;
    let mut cursor_byte: usize = 0;
    let mut visible_start: usize = 0;
    let mut visible_byte: usize = 0;
    let len = src.len();
    let byte_len = source.as_bytes().len();
    proof {
        lemma_utf8_offset_bounded(source, 0);
        lemma_utf8_offset_bounded(source, len as int);
        assert(spans_view(spans@) =~= Seq::<SpanView>::empty());
        assert(exprs@ =~= Seq::<SizeExpression>::empty());
        assert(checks@ =~= Seq::<NumericCheck>::empty());
    }
    while cursor < len
        invariant
            src@ == source@,
            has_family == (defaults.font_family is Some),
            len == src@.len(),
            visible_start <= cursor <= len,
            cursor_byte == utf8_offset(src@, cursor as int),
            visible_byte == utf8_offset(src@, visible_start as int),
            byte_len == source.spec_bytes().len(),
            cursor_byte <= byte_len,
            exprs@.len() <= cursor,
            state.size_chain.first <= state.size_chain.end,
            state.size_chain.end == exprs@.len(),
            byte_ranges_match(src@, spans@),
            spans_in_order(spans@),
            forall|k: int| 0 <= k < spans@.len() ==> (#[trigger] spans@[k]).chars.end <= visible_start,
            scan(
                src@,
                cursor as int,
                visible_start as int,
                state,
                ParseAccumulator { spans: spans_view(spans@), exprs: exprs@, checks: checks@ },
            ) == spec_parse_control_text(src@, has_family),
        decreases len - cursor,
    {
        let c = src[cursor];
        if c == '<' {
            let ghost acc0 = ParseAccumulator { spans: spans_view(spans@), exprs: exprs@, checks: checks@ };
            push_visible_span(
                &mut spans,
                TextRange { start: visible_start, end: cursor },
                visible_byte..cursor_byte,
                &state,
            );
            let ghost acc1 = ParseAccumulator { spans: spans_view(spans@), exprs: exprs@, checks: checks@ };
            assert(acc1 == push_visible(acc0, visible_start as int, cursor as int, state));
            let (j, j_byte) = match find_tag_end(source, &src, cursor, cursor_byte, byte_len) {
                Some(found) => found,
                None => {
                    proof {
                        assert(scan(src@, cursor as int, visible_start as int, state, acc0) is Err);
                    }
                    return Err(ParseError);
                },
            };
            let tag = match parse_tag(&src, TextRange { start: cursor + 1, end: j }) {
                Ok(tag) => tag,
                Err(e) => {
                    proof {
                        assert(spec_parse_tag(src@, mk_range(cursor + 1, j as int)) is Err);
                        assert(scan(src@, cursor as int, visible_start as int, state, acc0) is Err);
                    }
                    return Err(e);
                },
            };
            let n = exprs.len();
            let ghost before_state = state;
            record_tag(&mut state, &mut exprs, &mut checks, tag);
            proof {
                lemma_utf8_offset_bounded(source, (j + 1) as int);
                assert(utf8_offset(src@, j + 1) == utf8_offset(src@, j as int) + 1);
            }
            proof {
                assert(tag_expressions(tag).len() <= 1);
            }
            cursor = j + 1;
            cursor_byte = j_byte + 1;
            visible_start = cursor;
            visible_byte = cursor_byte;
        } else if c == '\r' || c == '\n' {
            let ghost acc0 = ParseAccumulator { spans: spans_view(spans@), exprs: exprs@, checks: checks@ };
            push_visible_span(
                &mut spans,
                TextRange { start: visible_start, end: cursor },
                visible_byte..cursor_byte,
                &state,
            );
            let end = if c == '\r' && cursor + 1 < len && src[cursor + 1] == '\n' {
                cursor + 2
            } else {
                cursor + 1
            };
            proof {
                lemma_utf8_offset_bounded(source, end as int);
                assert(utf8_offset(src@, cursor + 1) == utf8_offset(src@, cursor as int) + 1);
                if end == cursor + 2 {
                    assert(utf8_offset(src@, cursor + 2) == utf8_offset(src@, cursor + 1) + 1);
                }
            }
            let end_byte = cursor_byte + (end - cursor);
            let ghost before = spans@;
            spans.push(
                ParsedSpan {
                    range: cursor_byte..end_byte,
                    chars: TextRange { start: cursor, end },
                    kind: ParsedSpanKind::Newline,
                    format: state,
                },
            );
            assert(spans_view(spans@) =~= spans_view(before).push(
                SpanView {
                    chars: mk_range(cursor as int, end as int),
                    kind: ParsedSpanKind::Newline,
                    format: state,
                },
            ));
            cursor = end;
            cursor_byte = end_byte;
            visible_start = cursor;
            visible_byte = cursor_byte;
        } else {
            proof {
                lemma_utf8_offset_bounded(source, (cursor + 1) as int);
                assert(utf8_offset(src@, cursor + 1) == utf8_offset(src@, cursor as int) + utf8_width(src@[cursor as int]));
            }
            cursor_byte = cursor_byte + char_utf8_width(c);
            cursor = cursor + 1;
        }
    }
    push_visible_span(
        &mut spans,
        TextRange { start: visible_start, end: len },
        visible_byte..cursor_byte,
        &state,
    );
    proof {
        lemma_utf8_offset_bounded(source, len as int);
    }
    Ok(
        ParsedControlText {
            spans,
            size_expressions: exprs,
            numeric_checks: checks,
            source: src,
            object_font_family: defaults.font_family,
        },
    )
}

impl ParsedControlText {
    /// The characters `r` of the input; nothing when `r` is not a range of it.
    pub fn range_text(&self, r: TextRange) -> (text: String)
        ensures
            valid_range(self.source@, r) ==> text@ == self.source@.subrange(
                r.start as int,
                r.end as int,
            ),
            !valid_range(self.source@, r) ==> text@ == Seq::<char>::empty(),
    {
        if r.start <= r.end && r.end <= self.source.len() {
            string_from_chars(&self.source, r.start, r.end)
        } else {
            String::new()
        }
    }

    /// The text that a format value stands for.
    pub fn value_text(&self, value: TextValue) -> (text: Option<String>)
        ensures
            match value {
                TextValue::Source(r) => text matches Some(t) && t@ == range_chars(self.source@, r),
                TextValue::ObjectFontFamily => match self.object_font_family {
                    Some(family) => text matches Some(t) && t@ == family@,
                    None => text is None,
                },
            },
    {
        match value {
            TextValue::Source(r) => Some(self.range_text(r)),
            TextValue::ObjectFontFamily => match &self.object_font_family {
                Some(family) => Some(family.clone()),
                None => None,
            },
        }
    }

    /// The texts of the size expressions that replay the size in force,
    /// such as `80`, `+10`, `*1.5`.
    pub fn size_restore_expressions(&self, format: &TextFormatState) -> (texts: Vec<String>)
        ensures
            texts@.len() == restore_texts(self, format.size_chain).len(),
            forall|k: int|
                0 <= k < texts@.len() ==> (#[trigger] texts@[k])@ == restore_texts(
                    self,
                    format.size_chain,
                )[k],
    {
        let mut texts: Vec<String> = Vec::new();
        let chain = format.size_chain;
        if chain.first > chain.end || chain.end > self.size_expressions.len() {
            return texts;
        }
        let mut k = chain.first;
        while k < chain.end
            invariant
                chain == format.size_chain,
                chain.first <= k <= chain.end <= self.size_expressions@.len(),
                texts@.len() == k - chain.first,
                forall|m: int|
                    0 <= m < texts@.len() ==> (#[trigger] texts@[m])@ == restore_texts(self, chain)[m],
            decreases chain.end - k,
        {
            let text = self.range_text(self.size_expressions[k].source);
            texts.push(text);
            k += 1;
        }
        texts
    }
}

/// The characters `r` of `src`; nothing when `r` is not a range of it.
pub open spec fn range_chars(src: Seq<char>, r: TextRange) -> Seq<char> {
    if valid_range(src, r) {
        src.subrange(r.start as int, r.end as int)
    } else {
        Seq::empty()
    }
}

/// The texts of the size expressions `chain.first..chain.end`; none when the
/// chain is not one of the parse.
pub open spec fn restore_texts(parsed: &ParsedControlText, chain: SizeChain) -> Seq<Seq<char>> {
    if chain.first <= chain.end <= parsed.size_expressions@.len() {
        Seq::new(
            (chain.end - chain.first) as nat,
            |k: int| range_chars(parsed.source@, parsed.size_expressions@[chain.first + k].source),
        )
    } else {
        Seq::empty()
    }
}

} // verus!
