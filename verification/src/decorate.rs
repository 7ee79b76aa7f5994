//! Control tags around text runs. A run with an adjustment gets its font,
//! size, spacing, scale and position tags, and after them the tags that
//! bring back the format the input had in force.
//!
//! The numbers inside the tags are computed by the caller and handed in as
//! text; this module decides which tags are written, in which order, and
//! what they restore.
use vstd::prelude::*;
use crate::control_text::{
    ParsedControlText, StyleFlags, TextFormatState, TextRange, TextValue, control_letters,
    mk_range, range_chars, restore_texts,
};
use crate::classify::{control_codepoint, is_control};
use crate::runs::TextRun;
use crate::text::{chars_of, push_char, push_chars, push_str};

verus! {

/// The text that a format value stands for; empty where there is none.
pub open spec fn value_chars(parsed: &ParsedControlText, value: Option<TextValue>) -> Seq<char> {
    match value {
        Some(TextValue::Source(r)) => range_chars(parsed.source@, r),
        Some(TextValue::ObjectFontFamily) => match parsed.object_font_family {
            Some(family) => family@,
            None => Seq::empty(),
        },
        None => Seq::empty(),
    }
}

/// The font that the input's `<s>` tags have set.
pub open spec fn s_font_spec(format: TextFormatState) -> Option<TextValue> {
    TextFormatState::override_value(format.s_font_family)
}

/// The outline size that the input's `<s>` tags have set.
pub open spec fn s_outline_spec(format: TextFormatState) -> Option<TextValue> {
    TextFormatState::override_value(format.s_outline_size)
}

/// How many optional fields an `<s>` tag carries to keep what the input
/// has set: up to the outline, the styles or the font.
pub open spec fn s_field_count(format: TextFormatState) -> int {
    if s_outline_spec(format) is Some {
        3
    } else if format.s_style_override_spec() is Some {
        2
    } else if s_font_spec(format) is Some {
        1
    } else {
        0
    }
}

/// The input has set something optional of the `<s>` tag.
pub open spec fn has_s_optional(format: TextFormatState) -> bool {
    s_font_spec(format) is Some || format.s_style_override_spec() is Some || s_outline_spec(
        format,
    ) is Some
}

pub open spec fn style_letters(style: Option<StyleFlags>) -> Seq<char> {
    match style {
        Some(s) => control_letters(s),
        None => Seq::empty(),
    }
}

/// The font field of an `<s>` tag that carries `n` optional fields.
pub open spec fn s_font_field(parsed: &ParsedControlText, format: TextFormatState) -> Seq<char> {
    if s_field_count(format) >= 1 {
        seq![','] + value_chars(parsed, s_font_spec(format))
    } else {
        Seq::empty()
    }
}

pub open spec fn s_style_field(format: TextFormatState) -> Seq<char> {
    if s_field_count(format) >= 2 {
        seq![','] + style_letters(format.s_style_override_spec())
    } else {
        Seq::empty()
    }
}

pub open spec fn s_outline_field(parsed: &ParsedControlText, format: TextFormatState) -> Seq<char> {
    if s_field_count(format) >= 3 {
        seq![','] + value_chars(parsed, s_outline_spec(format))
    } else {
        Seq::empty()
    }
}

/// `<s` and the size field, then the optional fields that the input has in
/// force, then `>`.
#[verifier::opaque]
pub open spec fn s_tag(parsed: &ParsedControlText, size_field: Seq<char>, format: TextFormatState) -> Seq<
    char,
> {
    seq!['<', 's'] + size_field + s_font_field(parsed, format) + s_style_field(format)
        + s_outline_field(parsed, format) + seq!['>']
}

/// The `<@>` styles that the input has switched on.
pub open spec fn at_added(format: TextFormatState) -> StyleFlags {
    StyleFlags {
        bold: format.at_bold.input_override && format.at_bold.current_value.unwrap_or(false),
        italic: format.at_italic.input_override && format.at_italic.current_value.unwrap_or(false),
        strike: format.at_strike.input_override && format.at_strike.current_value.unwrap_or(false),
    }
}

/// The `<@>` styles that the input has switched off.
pub open spec fn at_removed(format: TextFormatState) -> StyleFlags {
    StyleFlags {
        bold: format.at_bold.input_override && !format.at_bold.current_value.unwrap_or(false),
        italic: format.at_italic.input_override && !format.at_italic.current_value.unwrap_or(
            false,
        ),
        strike: format.at_strike.input_override && !format.at_strike.current_value.unwrap_or(
            false,
        ),
    }
}

/// `<@+..>` with the styles the input has switched on and `<@-..>` with
/// those it has switched off, each only where there is one.
#[verifier::opaque]
pub open spec fn at_restoration(format: TextFormatState) -> Seq<char> {
    let added = control_letters(at_added(format));
    let removed = control_letters(at_removed(format));
    (if added.len() > 0 {
        seq!['<', '@', '+'] + added + seq!['>']
    } else {
        Seq::empty()
    }) + (if removed.len() > 0 {
        seq!['<', '@', '-'] + removed + seq!['>']
    } else {
        Seq::empty()
    })
}

/// `<s..>` tags replaying the given size expressions in order.
pub open spec fn size_tags(exprs: Seq<Seq<char>>) -> Seq<char>
    decreases exprs.len(),
{
    if exprs.len() == 0 {
        Seq::empty()
    } else {
        size_tags(exprs.drop_last()) + seq!['<', 's'] + exprs.last() + seq!['>']
    }
}

/// What follows a generated size reset `<s>`: while the input leaves the
/// size alone, an `<s>` tag with the optional fields it has in force (if
/// any); otherwise the input's own size expressions replayed, the last one
/// together with those fields.
#[verifier::opaque]
pub open spec fn s_format_restoration(parsed: &ParsedControlText, format: TextFormatState) -> Seq<
    char,
> {
    if !format.font_size_override {
        if has_s_optional(format) {
            s_tag(parsed, Seq::empty(), format)
        } else {
            Seq::empty()
        }
    } else {
        let exprs = restore_texts(parsed, format.size_chain);
        if exprs.len() == 0 {
            Seq::empty()
        } else {
            size_tags(exprs.drop_last()) + s_tag(parsed, exprs.last(), format)
        }
    }
}

/// The `<@>` styles and the optional `<s>` fields of the input, written
/// after a generated font tag: the latter in an `<s*1>` tag.
#[verifier::opaque]
pub open spec fn format_restoration(parsed: &ParsedControlText, format: TextFormatState) -> Seq<
    char,
> {
    at_restoration(format) + (if has_s_optional(format) {
        s_tag(parsed, seq!['*', '1'], format)
    } else {
        Seq::empty()
    })
}

/// The text of a format value.
fn value_or_empty(parsed: &ParsedControlText, value: Option<TextValue>) -> (text: String)
    ensures
        text@ == value_chars(parsed, value),
{
    match value {
        Some(v) => match parsed.value_text(v) {
            Some(t) => t,
            None => String::new(),
        },
        None => String::new(),
    }
}

/// Whether the input has set anything optional of the `<s>` tag.
pub fn has_s_optional_format(format: &TextFormatState) -> (r: bool)
    ensures
        r == has_s_optional(*format),
{
    format.s_font_override().is_some() || format.s_style_override().is_some()
        || format.s_outline_override().is_some()
}

/// Appends `,` and a field's text.
fn write_field(output: &mut String, text: &str)
    ensures
        final(output)@ == old(output)@ + seq![','] + text@,
{
    push_char(output, ',');
    push_str(output, text);
}

/// How many optional fields an `<s>` tag carries.
fn s_field_count_of(format: &TextFormatState) -> (n: u8)
    ensures
        n == s_field_count(*format),
{
    if format.s_outline_override().is_some() {
        3
    } else if format.s_style_override().is_some() {
        2
    } else if format.s_font_override().is_some() {
        1
    } else {
        0
    }
}

fn write_s_font_field(output: &mut String, parsed: &ParsedControlText, format: &TextFormatState, n: u8)
    requires
        n == s_field_count(*format),
    ensures
        final(output)@ == old(output)@ + s_font_field(parsed, *format),
{
    if n >= 1 {
        let text = value_or_empty(parsed, format.s_font_override());
        write_field(output, text.as_str());
    } else {
        assert(old(output)@ + s_font_field(parsed, *format) =~= old(output)@);
    }
}

fn write_s_style_field(output: &mut String, format: &TextFormatState, n: u8)
    requires
        n == s_field_count(*format),
    ensures
        final(output)@ == old(output)@ + s_style_field(*format),
{
    if n >= 2 {
        let letters = match format.s_style_override() {
            Some(s) => s.as_control_letters(),
            None => String::new(),
        };
        write_field(output, letters.as_str());
    } else {
        assert(old(output)@ + s_style_field(*format) =~= old(output)@);
    }
}

fn write_s_outline_field(output: &mut String, parsed: &ParsedControlText, format: &TextFormatState, n: u8)
    requires
        n == s_field_count(*format),
    ensures
        final(output)@ == old(output)@ + s_outline_field(parsed, *format),
{
    if n >= 3 {
        let text = value_or_empty(parsed, format.s_outline_override());
        write_field(output, text.as_str());
    } else {
        assert(old(output)@ + s_outline_field(parsed, *format) =~= old(output)@);
    }
}

/// Appends `<s`, the size field, the optional fields that the input has in
/// force, and `>`.
pub fn write_s_control_tag(
    output: &mut String,
    parsed: &ParsedControlText,
    size_field: &str,
    format: &TextFormatState,
)
    ensures
        final(output)@ == old(output)@ + s_tag(parsed, size_field@, *format),
{
    let n = s_field_count_of(format);
    let ghost start = output@;
    push_char(output, '<');
    push_char(output, 's');
    push_str(output, size_field);
    write_s_font_field(output, parsed, format, n);
    write_s_style_field(output, format, n);
    write_s_outline_field(output, parsed, format, n);
    push_char(output, '>');
    reveal(s_tag);
    assert(output@ =~= start + s_tag(parsed, size_field@, *format));
}

/// The letters of the styles `owned` whose switch in `styles` is `on`.
fn owned_letters(owned: StyleFlags, styles: StyleFlags, on: bool) -> (letters: String)
    ensures
        letters@ == control_letters(
            StyleFlags {
                bold: owned.bold && styles.bold == on,
                italic: owned.italic && styles.italic == on,
                strike: owned.strike && styles.strike == on,
            },
        ),
{
    let mut letters = String::new();
    if owned.bold && styles.bold == on {
        push_char(&mut letters, 'B');
    }
    if owned.italic && styles.italic == on {
        push_char(&mut letters, 'I');
    }
    if owned.strike && styles.strike == on {
        push_char(&mut letters, 'S');
    }
    assert(letters@ =~= control_letters(
        StyleFlags {
            bold: owned.bold && styles.bold == on,
            italic: owned.italic && styles.italic == on,
            strike: owned.strike && styles.strike == on,
        },
    ));
    letters
}

/// Appends `<@`, the sign, the letters and `>`, where there are letters.
fn write_style_delta(output: &mut String, sign: char, letters: &String)
    ensures
        final(output)@ == old(output)@ + (if letters@.len() > 0 {
            seq!['<', '@', sign] + letters@ + seq!['>']
        } else {
            Seq::empty()
        }),
{
    let ghost start = output@;
    if !letters.as_str().is_empty() {
        push_char(output, '<');
        push_char(output, '@');
        push_char(output, sign);
        push_str(output, letters.as_str());
        push_char(output, '>');
        assert(output@ =~= start + (seq!['<', '@', sign] + letters@ + seq!['>']));
    } else {
        assert(output@ =~= start + Seq::<char>::empty());
    }
}

/// Appends `<@+..>` and `<@-..>` for the `<@>` styles that the input has set.
pub fn write_at_format_restoration(output: &mut String, format: &TextFormatState)
    ensures
        final(output)@ == old(output)@ + at_restoration(*format),
{
    let owned = format.at_style_component_overrides();
    let styles = match format.at_style_override() {
        Some(s) => s,
        None => StyleFlags { bold: false, italic: false, strike: false },
    };
    let added = owned_letters(owned, styles, true);
    let removed = owned_letters(owned, styles, false);
    assert(added@ == control_letters(at_added(*format)));
    assert(removed@ == control_letters(at_removed(*format)));
    let ghost start = output@;
    write_style_delta(output, '+', &added);
    write_style_delta(output, '-', &removed);
    reveal(at_restoration);
    assert(output@ =~= start + at_restoration(*format));
}

/// Appends the tags that follow a generated size reset `<s>`.
pub fn write_s_format_restoration(
    output: &mut String,
    parsed: &ParsedControlText,
    format: &TextFormatState,
)
    ensures
        final(output)@ == old(output)@ + s_format_restoration(parsed, *format),
{
    reveal(s_format_restoration);
    if format.profile_size_allowed() {
        if has_s_optional_format(format) {
            proof {
                reveal_strlit("");
            }
            assert(""@ =~= Seq::<char>::empty());
            write_s_control_tag(output, parsed, "", format);
        } else {
            assert(old(output)@ + s_format_restoration(parsed, *format) =~= old(output)@);
        }
        return ;
    }
    let exprs = parsed.size_restore_expressions(format);
    let ghost texts = restore_texts(parsed, format.size_chain);
    if exprs.len() == 0 {
        assert(old(output)@ + s_format_restoration(parsed, *format) =~= old(output)@);
        return ;
    }
    let last = exprs.len() - 1;
    let ghost start = output@;
    let mut k: usize = 0;
    while k < last
        invariant
            exprs@.len() == texts.len(),
            forall|m: int| 0 <= m < exprs@.len() ==> (#[trigger] exprs@[m])@ == texts[m],
            last == exprs@.len() - 1,
            k <= last,
            output@ == start + size_tags(texts.take(k as int)),
        decreases last - k,
    {
        push_char(output, '<');
        push_char(output, 's');
        push_str(output, exprs[k].as_str());
        push_char(output, '>');
        assert(texts.take(k + 1).drop_last() =~= texts.take(k as int));
        assert(texts.take(k + 1).last() == texts[k as int]);
        k += 1;
    }
    assert(texts.take(last as int) =~= texts.drop_last());
    write_s_control_tag(output, parsed, exprs[last].as_str(), format);
}

/// Appends what follows a generated font tag: the `<@>` styles of the input
/// and, where it has set them, the optional `<s>` fields in an `<s*1>` tag.
pub fn write_format_restoration(
    output: &mut String,
    parsed: &ParsedControlText,
    format: &TextFormatState,
)
    ensures
        final(output)@ == old(output)@ + format_restoration(parsed, *format),
{
    let ghost start = output@;
    write_at_format_restoration(output, format);
    if has_s_optional_format(format) {
        proof {
            reveal_strlit("*1");
        }
        assert("*1"@ =~= seq!['*', '1']);
        write_s_control_tag(output, parsed, "*1", format);
    } else {
        assert(output@ =~= output@ + Seq::<char>::empty());
    }
    reveal(format_restoration);
    assert(output@ =~= start + format_restoration(parsed, *format));
}

/// The numbers of a fragment's tags, as text; `None` where the tag is not
/// written.
pub struct FragmentTags {
    /// The size ratio of `<s*..>`.
    pub size: Option<String>,
    /// The character spacing of `<gw..>`.
    pub tracking: Option<String>,
    /// The horizontal scale of `<tw..>`.
    pub horizontal: Option<String>,
    /// The vertical scale of `<th..>`.
    pub vertical: Option<String>,
    /// The vertical offset field of `<p+0,..>`, with its sign.
    pub baseline: Option<String>,
}

/// `<`, the name, the value and `>`; nothing without a value.
pub open spec fn open_tag(value: Option<String>, name: Seq<char>) -> Seq<char> {
    match value {
        Some(v) => seq!['<'] + name + v@ + seq!['>'],
        None => Seq::empty(),
    }
}

/// `<`, the name and `>`, where there is a value.
pub open spec fn close_tag(value: Option<String>, name: Seq<char>) -> Seq<char> {
    match value {
        Some(_) => seq!['<'] + name + seq!['>'],
        None => Seq::empty(),
    }
}

/// The tags written before a fragment, in the order size, spacing,
/// horizontal and vertical scale, offset.
pub open spec fn fragment_opening(parsed: &ParsedControlText, tags: FragmentTags, format: TextFormatState) -> Seq<
    char,
> {
    (match tags.size {
        Some(v) => s_tag(parsed, seq!['*'] + v@, format),
        None => Seq::empty(),
    }) + open_tag(tags.tracking, seq!['g', 'w']) + open_tag(tags.horizontal, seq!['t', 'w'])
        + open_tag(tags.vertical, seq!['t', 'h']) + open_tag(tags.baseline, seq!['p', '+', '0', ','])
}

/// The tags written after a fragment: those of the opening closed in
/// reverse order, and after a size reset the input's size and `<s>` fields.
pub open spec fn fragment_closing(parsed: &ParsedControlText, tags: FragmentTags, format: TextFormatState) -> Seq<
    char,
> {
    close_tag(tags.baseline, seq!['p']) + close_tag(tags.vertical, seq!['t', 'h']) + close_tag(
        tags.horizontal,
        seq!['t', 'w'],
    ) + close_tag(tags.tracking, seq!['g', 'w']) + (match tags.size {
        Some(_) => seq!['<', 's', '>'] + s_format_restoration(parsed, format),
        None => Seq::empty(),
    })
}

/// A fragment of text between its opening and closing tags; nothing for an
/// empty fragment.
pub open spec fn fragment_text(
    parsed: &ParsedControlText,
    piece: Seq<char>,
    tags: FragmentTags,
    format: TextFormatState,
) -> Seq<char> {
    if piece.len() == 0 {
        Seq::empty()
    } else {
        fragment_opening(parsed, tags, format) + piece + fragment_closing(parsed, tags, format)
    }
}

/// Appends `<`, the name, the value and `>`, where there is a value.
fn write_open_tag(output: &mut String, name: &str, value: &Option<String>)
    ensures
        final(output)@ == old(output)@ + open_tag(*value, name@),
{
    let ghost start = output@;
    match value {
        Some(v) => {
            push_char(output, '<');
            push_str(output, name);
            push_str(output, v.as_str());
            push_char(output, '>');
            assert(output@ =~= start + open_tag(*value, name@));
        },
        None => {
            assert(output@ =~= start + open_tag(*value, name@));
        },
    }
}

/// Appends `<`, the name and `>`, where there is a value.
fn write_close_tag(output: &mut String, name: &str, value: &Option<String>)
    ensures
        final(output)@ == old(output)@ + close_tag(*value, name@),
{
    let ghost start = output@;
    if value.is_some() {
        push_char(output, '<');
        push_str(output, name);
        push_char(output, '>');
    }
    assert(output@ =~= start + close_tag(*value, name@));
}

fn write_size_opening(
    output: &mut String,
    parsed: &ParsedControlText,
    size: &Option<String>,
    format: &TextFormatState,
)
    ensures
        final(output)@ == old(output)@ + match *size {
            Some(v) => s_tag(parsed, seq!['*'] + v@, *format),
            None => Seq::empty(),
        },
{
    match size {
        Some(v) => {
            let mut field = String::new();
            push_char(&mut field, '*');
            push_str(&mut field, v.as_str());
            assert(field@ =~= seq!['*'] + v@);
            write_s_control_tag(output, parsed, field.as_str(), format);
        },
        None => {
            assert(old(output)@ + Seq::<char>::empty() =~= old(output)@);
        },
    }
}

fn write_fragment_opening(
    output: &mut String,
    parsed: &ParsedControlText,
    tags: &FragmentTags,
    format: &TextFormatState,
)
    ensures
        final(output)@ == old(output)@ + fragment_opening(parsed, *tags, *format),
{
    let ghost start = output@;
    write_size_opening(output, parsed, &tags.size, format);
    let ghost s1 = output@;
    proof {
        reveal_strlit("gw");
        reveal_strlit("tw");
        reveal_strlit("th");
        reveal_strlit("p+0,");
    }
    write_open_tag(output, "gw", &tags.tracking);
    let ghost s2 = output@;
    write_open_tag(output, "tw", &tags.horizontal);
    let ghost s3 = output@;
    write_open_tag(output, "th", &tags.vertical);
    let ghost s4 = output@;
    write_open_tag(output, "p+0,", &tags.baseline);
    assert(s2 == s1 + open_tag(tags.tracking, seq!['g', 'w']));
    assert(s3 == s2 + open_tag(tags.horizontal, seq!['t', 'w']));
    assert(s4 == s3 + open_tag(tags.vertical, seq!['t', 'h']));
    assert(output@ == s4 + open_tag(tags.baseline, seq!['p', '+', '0', ',']));
    assert(output@ =~= start + fragment_opening(parsed, *tags, *format));
}

fn write_size_closing(
    output: &mut String,
    parsed: &ParsedControlText,
    size: &Option<String>,
    format: &TextFormatState,
)
    ensures
        final(output)@ == old(output)@ + match *size {
            Some(_) => seq!['<', 's', '>'] + s_format_restoration(parsed, *format),
            None => Seq::empty(),
        },
{
    if size.is_some() {
        push_char(output, '<');
        push_char(output, 's');
        push_char(output, '>');
        write_s_format_restoration(output, parsed, format);
        assert(output@ =~= old(output)@ + (seq!['<', 's', '>'] + s_format_restoration(
            parsed,
            *format,
        )));
    } else {
        assert(old(output)@ + Seq::<char>::empty() =~= old(output)@);
    }
}

fn write_fragment_closing(
    output: &mut String,
    parsed: &ParsedControlText,
    tags: &FragmentTags,
    format: &TextFormatState,
)
    ensures
        final(output)@ == old(output)@ + fragment_closing(parsed, *tags, *format),
{
    let ghost start = output@;
    proof {
        reveal_strlit("p");
        reveal_strlit("th");
        reveal_strlit("tw");
        reveal_strlit("gw");
    }
    write_close_tag(output, "p", &tags.baseline);
    let ghost s1 = output@;
    write_close_tag(output, "th", &tags.vertical);
    let ghost s2 = output@;
    write_close_tag(output, "tw", &tags.horizontal);
    let ghost s3 = output@;
    write_close_tag(output, "gw", &tags.tracking);
    let ghost s4 = output@;
    write_size_closing(output, parsed, &tags.size, format);
    assert(s1 == start + close_tag(tags.baseline, seq!['p']));
    assert(s2 == s1 + close_tag(tags.vertical, seq!['t', 'h']));
    assert(s3 == s2 + close_tag(tags.horizontal, seq!['t', 'w']));
    assert(s4 == s3 + close_tag(tags.tracking, seq!['g', 'w']));
    assert(output@ =~= start + fragment_closing(parsed, *tags, *format));
}

/// Appends the characters `start..end` of the input between the tags of a
/// fragment; nothing for an empty range.
pub fn write_control_tag_fragment(
    output: &mut String,
    parsed: &ParsedControlText,
    start: usize,
    end: usize,
    tags: &FragmentTags,
    format: &TextFormatState,
)
    requires
        start <= end <= parsed.source@.len(),
    ensures
        final(output)@ == old(output)@ + fragment_text(
            parsed,
            parsed.source@.subrange(start as int, end as int),
            *tags,
            *format,
        ),
{
    let ghost piece = parsed.source@.subrange(start as int, end as int);
    if start == end {
        assert(old(output)@ + fragment_text(parsed, piece, *tags, *format) =~= old(output)@);
        return ;
    }
    let ghost begin = output@;
    write_fragment_opening(output, parsed, tags, format);
    push_chars(output, &parsed.source, start, end);
    write_fragment_closing(output, parsed, tags, format);
    assert(output@ =~= begin + fragment_text(parsed, piece, *tags, *format));
}

/// A piece of a run: characters of the input, and the layout override that
/// covers them, if one does.
#[derive(Clone, Copy, Debug, PartialEq, Eq, Structural)]
pub struct Fragment {
    pub chars: TextRange,
    pub layout_override: Option<usize>,
}

/// The fragments of `run` from override `k` on, the text before `cursor`
/// being done: each override inside the run is a fragment, and so is each
/// stretch between them that is not empty.
pub open spec fn plan_from(run: TextRange, overrides: Seq<TextRange>, k: int, cursor: int) -> Seq<
    Fragment,
>
    decreases overrides.len() - k,
{
    if k >= overrides.len() || k < 0 {
        if cursor < run.end {
            seq![Fragment { chars: mk_range(cursor, run.end as int), layout_override: None }]
        } else {
            Seq::empty()
        }
    } else if overrides[k].start >= run.start && overrides[k].end <= run.end {
        (if cursor < overrides[k].start {
            seq![
                Fragment {
                    chars: mk_range(cursor, overrides[k].start as int),
                    layout_override: None,
                },
            ]
        } else {
            Seq::empty()
        }) + seq![Fragment { chars: overrides[k], layout_override: Some(k as usize) }]
            + plan_from(run, overrides, k + 1, overrides[k].end as int)
    } else {
        plan_from(run, overrides, k + 1, cursor)
    }
}

/// The fragments of a run, in order.
pub open spec fn plan_fragments(run: TextRange, overrides: Seq<TextRange>) -> Seq<Fragment> {
    plan_from(run, overrides, 0, run.start as int)
}

/// Cuts a run into fragments at the layout overrides that lie inside it.
pub fn plan_run_fragments(run: TextRange, overrides: &Vec<TextRange>) -> (fragments: Vec<Fragment>)
    ensures
        fragments@ == plan_fragments(run, overrides@),
{
    let mut fragments: Vec<Fragment> = Vec::new();
    let mut cursor = run.start;
    let mut k: usize = 0;
    while k < overrides.len()
        invariant
            k <= overrides@.len(),
            fragments@ + plan_from(run, overrides@, k as int, cursor as int) == plan_fragments(
                run,
                overrides@,
            ),
        decreases overrides@.len() - k,
    {
        let item = overrides[k];
        let ghost before = fragments@;
        if item.start >= run.start && item.end <= run.end {
            if cursor < item.start {
                fragments.push(
                    Fragment { chars: TextRange { start: cursor, end: item.start }, layout_override: None },
                );
            }
            fragments.push(Fragment { chars: item, layout_override: Some(k) });
            assert(fragments@ + plan_from(run, overrides@, k + 1, item.end as int) =~= before
                + plan_from(run, overrides@, k as int, cursor as int));
            cursor = item.end;
        }
        k += 1;
    }
    let ghost before = fragments@;
    if cursor < run.end {
        fragments.push(Fragment { chars: TextRange { start: cursor, end: run.end }, layout_override: None });
    }
    assert(fragments@ =~= before + plan_from(run, overrides@, k as int, cursor as int));
    fragments
}

/// The fragments of a run between their tags, in order.
pub open spec fn fragments_text(
    parsed: &ParsedControlText,
    fragments: Seq<Fragment>,
    tags: Seq<FragmentTags>,
    format: TextFormatState,
) -> Seq<char>
    decreases fragments.len(),
{
    if fragments.len() == 0 {
        Seq::empty()
    } else {
        let k = fragments.len() - 1;
        fragments_text(parsed, fragments.drop_last(), tags, format) + fragment_text(
            parsed,
            range_chars(parsed.source@, fragments[k].chars),
            tags[k],
            format,
        )
    }
}

/// A run switches the font where the profile names one and the input has
/// not chosen the font itself.
pub open spec fn font_switch(family: Seq<char>, format: TextFormatState) -> bool {
    !format.effective_font_state_spec().input_override && family.len() > 0
}

/// A run with an adjustment: its fragments, and around them, where the font
/// is switched, `<@family>` and `<@>`, each followed by the restoration of
/// the input's own format.
pub open spec fn run_text(
    parsed: &ParsedControlText,
    family: Seq<char>,
    fragments: Seq<Fragment>,
    tags: Seq<FragmentTags>,
    format: TextFormatState,
) -> Seq<char> {
    let body = fragments_text(parsed, fragments, tags, format);
    if font_switch(family, format) {
        seq!['<', '@'] + family + seq!['>'] + format_restoration(parsed, format) + body + seq![
            '<',
            '@',
            '>',
        ] + format_restoration(parsed, format)
    } else {
        body
    }
}

/// Every fragment is a range of the input.
pub open spec fn fragments_in_source(parsed: &ParsedControlText, fragments: Seq<Fragment>) -> bool {
    forall|k: int|
        0 <= k < fragments.len() ==> (#[trigger] fragments[k]).chars.start <= fragments[k].chars.end
            <= parsed.source@.len()
}

/// Appends `<@`, the family and `>`, then the input's format.
fn write_font_switch(
    output: &mut String,
    parsed: &ParsedControlText,
    family: &str,
    format: &TextFormatState,
)
    ensures
        final(output)@ == old(output)@ + (seq!['<', '@'] + family@ + seq!['>'] + format_restoration(
            parsed,
            *format,
        )),
{
    push_char(output, '<');
    push_char(output, '@');
    push_str(output, family);
    push_char(output, '>');
    write_format_restoration(output, parsed, format);
    assert(output@ =~= old(output)@ + (seq!['<', '@'] + family@ + seq!['>'] + format_restoration(
        parsed,
        *format,
    )));
}

/// Appends `<@>`, then the input's format.
fn write_font_reset(output: &mut String, parsed: &ParsedControlText, format: &TextFormatState)
    ensures
        final(output)@ == old(output)@ + (seq!['<', '@', '>'] + format_restoration(parsed, *format)),
{
    push_char(output, '<');
    push_char(output, '@');
    push_char(output, '>');
    write_format_restoration(output, parsed, format);
    assert(output@ =~= old(output)@ + (seq!['<', '@', '>'] + format_restoration(parsed, *format)));
}

/// Appends a run with an adjustment: its fragments between their tags and,
/// where the font is switched, the font tags around them.
pub fn write_control_tag_run(
    output: &mut String,
    parsed: &ParsedControlText,
    family: &str,
    format: &TextFormatState,
    fragments: &Vec<Fragment>,
    tags: &Vec<FragmentTags>,
)
    requires
        fragments@.len() == tags@.len(),
        fragments_in_source(parsed, fragments@),
    ensures
        final(output)@ == old(output)@ + run_text(parsed, family@, fragments@, tags@, *format),
{
    let has_font = format.profile_font_allowed() && !family.is_empty();
    assert(has_font == font_switch(family@, *format));
    let ghost start = output@;
    if has_font {
        write_font_switch(output, parsed, family, format);
    }
    let ghost before_body = output@;
    let mut k: usize = 0;
    while k < fragments.len()
        invariant
            k <= fragments@.len(),
            fragments@.len() == tags@.len(),
            fragments_in_source(parsed, fragments@),
            output@ == before_body + fragments_text(parsed, fragments@.take(k as int), tags@, *format),
        decreases fragments@.len() - k,
    {
        let fragment = fragments[k];
        write_control_tag_fragment(
            output,
            parsed,
            fragment.chars.start,
            fragment.chars.end,
            &tags[k],
            format,
        );
        proof {
            let taken = fragments@.take(k + 1);
            assert(taken.drop_last() =~= fragments@.take(k as int));
            assert(taken[k as int] == fragment);
            assert(range_chars(parsed.source@, fragment.chars) == parsed.source@.subrange(
                fragment.chars.start as int,
                fragment.chars.end as int,
            ));
        }
        k += 1;
    }
    assert(fragments@.take(fragments@.len() as int) =~= fragments@);
    let ghost body = output@;
    if has_font {
        write_font_reset(output, parsed, format);
        assert(output@ =~= start + run_text(parsed, family@, fragments@, tags@, *format));
    } else {
        assert(output@ =~= start + run_text(parsed, family@, fragments@, tags@, *format));
    }
}

/// The fragments that the plan makes of a run are ranges of the input, when
/// the overrides are.
proof fn lemma_plan_in_source(
    parsed: &ParsedControlText,
    run: TextRange,
    overrides: Seq<TextRange>,
    k: int,
    cursor: int,
)
    requires
        overrides_valid(parsed.source@.len() as int, overrides),
        0 <= k <= overrides.len(),
        run.start <= cursor <= run.end <= parsed.source@.len(),
        parsed.source@.len() <= usize::MAX,
        forall|j: int|
            k <= j < overrides.len() && (#[trigger] overrides[j]).start >= run.start ==> cursor
                <= overrides[j].start,
    ensures
        fragments_in_source(parsed, plan_from(run, overrides, k, cursor)),
    decreases overrides.len() - k,
{
    let plan = plan_from(run, overrides, k, cursor);
    if k >= overrides.len() {
    } else if overrides[k].start >= run.start && overrides[k].end <= run.end {
        let item = overrides[k];
        assert forall|j: int|
            k + 1 <= j < overrides.len() && (#[trigger] overrides[j]).start >= run.start implies item.end
            <= overrides[j].start by {
            assert(overrides[k].end <= overrides[j].start);
        }
        lemma_plan_in_source(parsed, run, overrides, k + 1, item.end as int);
        let rest = plan_from(run, overrides, k + 1, item.end as int);
        let gap: Seq<Fragment> = if cursor < item.start {
            seq![Fragment { chars: mk_range(cursor, item.start as int), layout_override: None }]
        } else {
            Seq::empty()
        };
        let head = gap + seq![Fragment { chars: item, layout_override: Some(k as usize) }];
        assert(plan == head + rest);
        assert forall|m: int| 0 <= m < plan.len() implies (#[trigger] plan[m]).chars.start
            <= plan[m].chars.end <= parsed.source@.len() by {
            if m < head.len() {
                if m < gap.len() {
                    assert(plan[m] == gap[m]);
                } else {
                    assert(plan[m] == head[m]);
                }
            } else {
                assert(plan[m] == rest[m - head.len()]);
            }
        }
    } else {
        lemma_plan_in_source(parsed, run, overrides, k + 1, cursor);
    }
}

/// What a run with an adjustment needs besides the run: the font family of
/// its adjustment, and the numbers of the tags of each of its fragments.
pub struct RunDecoration {
    pub font_family: String,
    pub fragment_tags: Vec<FragmentTags>,
}

/// A character that would end a tag or a tag's field.
pub open spec fn breaks_tag(c: char) -> bool {
    c == '<' || c == '>' || c == ',' || control_codepoint(c as u32)
}

/// A font family that can stand in a `<@..>` tag.
pub open spec fn family_is_safe(family: Seq<char>) -> bool {
    forall|i: int| 0 <= i < family.len() ==> !breaks_tag(#[trigger] family[i])
}

/// Layout overrides are non-empty ranges of the input, in order, without
/// overlap.
pub open spec fn overrides_valid(len: int, overrides: Seq<TextRange>) -> bool {
    &&& forall|k: int|
        0 <= k < overrides.len() ==> (#[trigger] overrides[k]).start < overrides[k].end <= len
    &&& forall|i: int, j: int|
        0 <= i < j < overrides.len() ==> (#[trigger] overrides[i]).end <= (
        #[trigger] overrides[j]).start
}

/// The text that replaces one run: a run without adjustment stays as it is;
/// one with an adjustment needs a decoration with a safe family and the
/// tags of each of its fragments.
pub open spec fn run_piece(
    parsed: &ParsedControlText,
    run: TextRun,
    overrides: Seq<TextRange>,
    decoration: Option<RunDecoration>,
) -> Option<Seq<char>> {
    match run.adjustment {
        None => Some(range_chars(parsed.source@, run.chars)),
        Some(_) => match decoration {
            Some(d) => if family_is_safe(d.font_family@) && d.fragment_tags@.len() == plan_fragments(
                run.chars,
                overrides,
            ).len() {
                Some(
                    run_text(
                        parsed,
                        d.font_family@,
                        plan_fragments(run.chars, overrides),
                        d.fragment_tags@,
                        run.format,
                    ),
                )
            } else {
                None
            },
            None => None,
        },
    }
}

/// The input from character `cursor` on, runs `i..` replaced: the text
/// between runs stays as it is. Nothing where a run is out of order or out
/// of the input, or cannot be written.
pub open spec fn decorate_from(
    parsed: &ParsedControlText,
    runs: Seq<TextRun>,
    overrides: Seq<TextRange>,
    decorations: Seq<Option<RunDecoration>>,
    i: int,
    cursor: int,
) -> Option<Seq<char>>
    decreases runs.len() - i,
{
    if i < 0 || i >= runs.len() {
        Some(parsed.source@.subrange(cursor, parsed.source@.len() as int))
    } else {
        let run = runs[i];
        if run.chars.start < cursor || run.chars.start > run.chars.end || run.chars.end
            > parsed.source@.len() {
            None
        } else {
            match run_piece(parsed, run, overrides, decorations[i]) {
                Some(piece) => match decorate_from(
                    parsed,
                    runs,
                    overrides,
                    decorations,
                    i + 1,
                    run.chars.end as int,
                ) {
                    Some(rest) => Some(
                        parsed.source@.subrange(cursor, run.chars.start as int) + piece + rest,
                    ),
                    None => None,
                },
                None => None,
            }
        }
    }
}

/// The decorated text: nothing where there is not one decoration slot per
/// run, or the layout overrides are not valid, or a run cannot be written.
pub open spec fn decorated_text(
    parsed: &ParsedControlText,
    runs: Seq<TextRun>,
    overrides: Seq<TextRange>,
    decorations: Seq<Option<RunDecoration>>,
) -> Option<Seq<char>> {
    if decorations.len() != runs.len() || !overrides_valid(parsed.source@.len() as int, overrides) {
        None
    } else {
        decorate_from(parsed, runs, overrides, decorations, 0, 0)
    }
}

/// Whether a font family can stand in a `<@..>` tag: no `<`, `>`, `,` or
/// control character.
pub fn font_family_is_safe(family: &str) -> (safe: bool)
    ensures
        safe == family_is_safe(family@),
{
    let chars = chars_of(family);
    let mut i: usize = 0;
    while i < chars.len()
        invariant
            chars@ == family@,
            i <= chars@.len(),
            forall|j: int| 0 <= j < i ==> !breaks_tag(#[trigger] chars@[j]),
        decreases chars@.len() - i,
    {
        let c = chars[i];
        if c == '<' || c == '>' || c == ',' || is_control(c) {
            assert(breaks_tag(chars@[i as int]));
            return false;
        }
        i += 1;
    }
    true
}

/// Whether the layout overrides are non-empty ranges of an input of `len`
/// characters, in order and without overlap.
pub fn layout_overrides_are_valid(len: usize, overrides: &Vec<TextRange>) -> (valid: bool)
    ensures
        valid == overrides_valid(len as int, overrides@),
{
    let mut previous_end: usize = 0;
    let mut k: usize = 0;
    while k < overrides.len()
        invariant
            k <= overrides@.len(),
            forall|m: int| 0 <= m < k ==> (#[trigger] overrides@[m]).start < overrides@[m].end <= len,
            forall|m: int| 0 <= m < k ==> (#[trigger] overrides@[m]).end <= previous_end,
            k == 0 ==> previous_end == 0,
            k > 0 ==> previous_end == overrides@[k - 1].end,
            forall|i: int, j: int|
                0 <= i < j < k ==> (#[trigger] overrides@[i]).end <= (#[trigger] overrides@[j]).start,
        decreases overrides@.len() - k,
    {
        let item = overrides[k];
        if item.start < previous_end || item.start >= item.end || item.end > len {
            proof {
                if item.start < previous_end {
                    assert(overrides@[k - 1].end > overrides@[k as int].start);
                } else {
                    assert(overrides@[k as int] == item);
                }
            }
            return false;
        }
        previous_end = item.end;
        k += 1;
    }
    true
}

/// Checks what one run needs and writes it: `false`, with nothing written,
/// where the run cannot be written.
fn write_run_piece(
    output: &mut String,
    parsed: &ParsedControlText,
    run: &TextRun,
    overrides: &Vec<TextRange>,
    decoration: &Option<RunDecoration>,
) -> (written: bool)
    requires
        run.chars.start <= run.chars.end <= parsed.source@.len(),
        overrides_valid(parsed.source@.len() as int, overrides@),
    ensures
        match run_piece(parsed, *run, overrides@, *decoration) {
            Some(piece) => written && final(output)@ == old(output)@ + piece,
            None => !written && final(output)@ == old(output)@,
        },
{
    match run.adjustment {
        None => {
            push_chars(output, &parsed.source, run.chars.start, run.chars.end);
            true
        },
        Some(_) => match decoration {
            None => false,
            Some(d) => {
                if !font_family_is_safe(d.font_family.as_str()) {
                    return false;
                }
                let fragments = plan_run_fragments(run.chars, overrides);
                let source_len = parsed.source.len();
                assert(source_len == parsed.source@.len());
                if d.fragment_tags.len() != fragments.len() {
                    return false;
                }
                proof {
                    lemma_plan_in_source(
                        parsed,
                        run.chars,
                        overrides@,
                        0,
                        run.chars.start as int,
                    );
                }
                write_control_tag_run(
                    output,
                    parsed,
                    d.font_family.as_str(),
                    &run.format,
                    &fragments,
                    &d.fragment_tags,
                );
                true
            },
        },
    }
}

/// Writes the input with each run that has an adjustment replaced by its
/// tagged text; the text between runs and the runs without adjustment stay
/// as they are. `None` where the runs, the layout overrides or the
/// decorations cannot be written: then the caller keeps the input.
pub fn decorate_runs(
    parsed: &ParsedControlText,
    runs: &Vec<TextRun>,
    overrides: &Vec<TextRange>,
    decorations: &Vec<Option<RunDecoration>>,
) -> (decorated: Option<String>)
    ensures
        match decorated {
            Some(text) => decorated_text(parsed, runs@, overrides@, decorations@) == Some(text@),
            None => decorated_text(parsed, runs@, overrides@, decorations@) is None,
        },
{
    let len = parsed.source.len();
    if decorations.len() != runs.len() || !layout_overrides_are_valid(len, overrides) {
        return None;
    }
    let ghost whole = decorated_text(parsed, runs@, overrides@, decorations@);
    let mut output = String::new();
    let mut cursor: usize = 0;
    let mut i: usize = 0;
    while i < runs.len()
        invariant
            len == parsed.source@.len(),
            decorations@.len() == runs@.len(),
            overrides_valid(len as int, overrides@),
            whole == decorate_from(parsed, runs@, overrides@, decorations@, 0, 0),
            i <= runs@.len(),
            cursor <= len,
            whole == match decorate_from(parsed, runs@, overrides@, decorations@, i as int, cursor as int) {
                Some(rest) => Some(output@ + rest),
                None => None::<Seq<char>>,
            },
        decreases runs@.len() - i,
    {
        let run = &runs[i];
        if run.chars.start < cursor || run.chars.start > run.chars.end || run.chars.end > len {
            return None;
        }
        let ghost before = output@;
        let mut piece_output = String::new();
        if !write_run_piece(&mut piece_output, parsed, run, overrides, &decorations[i]) {
            return None;
        }
        push_chars(&mut output, &parsed.source, cursor, run.chars.start);
        push_str(&mut output, piece_output.as_str());
        proof {
            let gap = parsed.source@.subrange(cursor as int, run.chars.start as int);
            let piece = piece_output@;
            let next = decorate_from(
                parsed,
                runs@,
                overrides@,
                decorations@,
                i + 1,
                run.chars.end as int,
            );
            match next {
                Some(rest) => {
                    assert(before + (gap + piece + rest) =~= output@ + rest);
                },
                None => {},
            }
        }
        cursor = run.chars.end;
        i += 1;
    }
    push_chars(&mut output, &parsed.source, cursor, len);
    Some(output)
}

/// The characters of the fragments, one after the other.
pub open spec fn joined_fragments(src: Seq<char>, fragments: Seq<Fragment>) -> Seq<char>
    decreases fragments.len(),
{
    if fragments.len() == 0 {
        Seq::empty()
    } else {
        joined_fragments(src, fragments.drop_last()) + range_chars(src, fragments.last().chars)
    }
}

proof fn lemma_joined_concat(src: Seq<char>, a: Seq<Fragment>, b: Seq<Fragment>)
    ensures
        joined_fragments(src, a + b) == joined_fragments(src, a) + joined_fragments(src, b),
    decreases b.len(),
{
    if b.len() == 0 {
        assert(a + b =~= a);
        assert(joined_fragments(src, a) + joined_fragments(src, b) =~= joined_fragments(src, a));
    } else {
        lemma_joined_concat(src, a, b.drop_last());
        assert((a + b).drop_last() =~= a + b.drop_last());
        assert((a + b).last() == b.last());
    }
}

/// The fragments of a run cover its characters from `cursor` on, one
/// after the other, without gap or overlap.
proof fn lemma_plan_tiles(
    parsed: &ParsedControlText,
    run: TextRange,
    overrides: Seq<TextRange>,
    k: int,
    cursor: int,
)
    requires
        overrides_valid(parsed.source@.len() as int, overrides),
        0 <= k <= overrides.len(),
        run.start <= cursor <= run.end <= parsed.source@.len(),
        parsed.source@.len() <= usize::MAX,
        forall|j: int|
            k <= j < overrides.len() && (#[trigger] overrides[j]).start >= run.start ==> cursor
                <= overrides[j].start,
    ensures
        joined_fragments(parsed.source@, plan_from(run, overrides, k, cursor))
            == parsed.source@.subrange(cursor, run.end as int),
    decreases overrides.len() - k,
{
    let src = parsed.source@;
    if k >= overrides.len() {
        if cursor < run.end {
            let one = seq![Fragment { chars: mk_range(cursor, run.end as int), layout_override: None }];
            assert(one.drop_last() =~= Seq::<Fragment>::empty());
            reveal_with_fuel(joined_fragments, 2);
            assert(joined_fragments(src, one) =~= src.subrange(cursor, run.end as int));
        } else {
            assert(src.subrange(cursor, run.end as int) =~= Seq::<char>::empty());
        }
    } else if overrides[k].start >= run.start && overrides[k].end <= run.end {
        let item = overrides[k];
        assert forall|j: int|
            k + 1 <= j < overrides.len() && (#[trigger] overrides[j]).start >= run.start implies item.end
            <= overrides[j].start by {
            assert(overrides[k].end <= overrides[j].start);
        }
        lemma_plan_tiles(parsed, run, overrides, k + 1, item.end as int);
        let rest = plan_from(run, overrides, k + 1, item.end as int);
        let gap: Seq<Fragment> = if cursor < item.start {
            seq![Fragment { chars: mk_range(cursor, item.start as int), layout_override: None }]
        } else {
            Seq::empty()
        };
        let mine = seq![Fragment { chars: item, layout_override: Some(k as usize) }];
        assert(plan_from(run, overrides, k, cursor) == gap + mine + rest);
        lemma_joined_concat(src, gap + mine, rest);
        lemma_joined_concat(src, gap, mine);
        assert(mine.drop_last() =~= Seq::<Fragment>::empty());
        reveal_with_fuel(joined_fragments, 2);
        assert(joined_fragments(src, mine) =~= src.subrange(item.start as int, item.end as int));
        if cursor < item.start {
            assert(gap.drop_last() =~= Seq::<Fragment>::empty());
            assert(joined_fragments(src, gap) =~= src.subrange(cursor, item.start as int));
        } else {
            assert(joined_fragments(src, gap) =~= src.subrange(cursor, item.start as int));
        }
        assert(src.subrange(cursor, item.start as int) + src.subrange(item.start as int, item.end as int)
            + src.subrange(item.end as int, run.end as int) =~= src.subrange(cursor, run.end as int));
    } else {
        lemma_plan_tiles(parsed, run, overrides, k + 1, cursor);
    }
}

/// Cutting a run at the layout overrides loses and repeats nothing: its
/// fragments, one after the other, are the run's characters.
pub proof fn lemma_fragments_cover_run(
    parsed: &ParsedControlText,
    run: TextRange,
    overrides: Seq<TextRange>,
)
    requires
        overrides_valid(parsed.source@.len() as int, overrides),
        run.start <= run.end <= parsed.source@.len(),
        parsed.source@.len() <= usize::MAX,
    ensures
        joined_fragments(parsed.source@, plan_fragments(run, overrides)) == range_chars(
            parsed.source@,
            run,
        ),
        fragments_in_source(parsed, plan_fragments(run, overrides)),
{
    lemma_plan_tiles(parsed, run, overrides, 0, run.start as int);
    lemma_plan_in_source(parsed, run, overrides, 0, run.start as int);
}

/// Tags that write nothing.
pub open spec fn neutral_tags(tags: FragmentTags) -> bool {
    &&& tags.size is None
    &&& tags.tracking is None
    &&& tags.horizontal is None
    &&& tags.vertical is None
    &&& tags.baseline is None
}

proof fn lemma_neutral_fragments(
    parsed: &ParsedControlText,
    fragments: Seq<Fragment>,
    tags: Seq<FragmentTags>,
    format: TextFormatState,
)
    requires
        fragments.len() <= tags.len(),
        forall|k: int| 0 <= k < tags.len() ==> neutral_tags(#[trigger] tags[k]),
    ensures
        fragments_text(parsed, fragments, tags, format) == joined_fragments(parsed.source@, fragments),
    decreases fragments.len(),
{
    if fragments.len() > 0 {
        let k = fragments.len() - 1;
        lemma_neutral_fragments(parsed, fragments.drop_last(), tags, format);
        assert(neutral_tags(tags[k]));
        let piece = range_chars(parsed.source@, fragments[k].chars);
        assert(fragment_opening(parsed, tags[k], format) =~= Seq::<char>::empty());
        assert(fragment_closing(parsed, tags[k], format) =~= Seq::<char>::empty());
        assert(fragment_text(parsed, piece, tags[k], format) =~= piece);
    }
}

/// Runs are ranges of the input, in order, without overlap.
pub open spec fn runs_in_order(len: int, runs: Seq<TextRun>) -> bool {
    &&& forall|i: int|
        0 <= i < runs.len() ==> (#[trigger] runs[i]).chars.start <= runs[i].chars.end <= len
    &&& forall|i: int, j: int|
        0 <= i < j < runs.len() ==> (#[trigger] runs[i]).chars.end <= (#[trigger] runs[j]).chars.start
}

/// A decoration that adds nothing to a run: no font and no tags.
pub open spec fn neutral_decoration(
    run: TextRun,
    overrides: Seq<TextRange>,
    decoration: Option<RunDecoration>,
) -> bool {
    run.adjustment is Some ==> (decoration matches Some(d) && d.font_family@.len() == 0
        && d.fragment_tags@.len() == plan_fragments(run.chars, overrides).len() && forall|k: int|
        0 <= k < d.fragment_tags@.len() ==> neutral_tags(#[trigger] d.fragment_tags@[k]))
}

proof fn lemma_neutral_from(
    parsed: &ParsedControlText,
    runs: Seq<TextRun>,
    overrides: Seq<TextRange>,
    decorations: Seq<Option<RunDecoration>>,
    i: int,
    cursor: int,
)
    requires
        decorations.len() == runs.len(),
        overrides_valid(parsed.source@.len() as int, overrides),
        runs_in_order(parsed.source@.len() as int, runs),
        parsed.source@.len() <= usize::MAX,
        forall|j: int|
            0 <= j < runs.len() ==> neutral_decoration(#[trigger] runs[j], overrides, decorations[j]),
        0 <= i <= runs.len(),
        0 <= cursor <= parsed.source@.len(),
        forall|j: int| i <= j < runs.len() ==> cursor <= (#[trigger] runs[j]).chars.start,
    ensures
        decorate_from(parsed, runs, overrides, decorations, i, cursor) == Some(
            parsed.source@.subrange(cursor, parsed.source@.len() as int),
        ),
    decreases runs.len() - i,
{
    let src = parsed.source@;
    if i < runs.len() {
        let run = runs[i];
        assert(cursor <= run.chars.start);
        assert forall|j: int| i + 1 <= j < runs.len() implies run.chars.end <= (
        #[trigger] runs[j]).chars.start by {
            assert(runs[i].chars.end <= runs[j].chars.start);
        }
        lemma_neutral_from(parsed, runs, overrides, decorations, i + 1, run.chars.end as int);
        assert(neutral_decoration(runs[i], overrides, decorations[i]));
        let piece = range_chars(src, run.chars);
        if run.adjustment is Some {
            let d = decorations[i]->Some_0;
            let plan = plan_fragments(run.chars, overrides);
            lemma_plan_tiles(parsed, run.chars, overrides, 0, run.chars.start as int);
            lemma_neutral_fragments(parsed, plan, d.fragment_tags@, run.format);
            assert(family_is_safe(d.font_family@));
            assert(run_text(parsed, d.font_family@, plan, d.fragment_tags@, run.format) == piece);
        }
        assert(run_piece(parsed, run, overrides, decorations[i]) == Some(piece));
        assert(src.subrange(cursor, run.chars.start as int) + piece + src.subrange(
            run.chars.end as int,
            src.len() as int,
        ) =~= src.subrange(cursor, src.len() as int));
    }
}

/// Decorations that add nothing leave the text as it is: where every run
/// with an adjustment has neither a font nor tags, the decorated text is
/// the input.
pub proof fn lemma_neutral_decorations_keep_text(
    parsed: &ParsedControlText,
    runs: Seq<TextRun>,
    overrides: Seq<TextRange>,
    decorations: Seq<Option<RunDecoration>>,
)
    requires
        decorations.len() == runs.len(),
        overrides_valid(parsed.source@.len() as int, overrides),
        runs_in_order(parsed.source@.len() as int, runs),
        parsed.source@.len() <= usize::MAX,
        forall|j: int|
            0 <= j < runs.len() ==> neutral_decoration(#[trigger] runs[j], overrides, decorations[j]),
    ensures
        decorated_text(parsed, runs, overrides, decorations) == Some(parsed.source@),
{
    lemma_neutral_from(parsed, runs, overrides, decorations, 0, 0);
    assert(parsed.source@.subrange(0, parsed.source@.len() as int) =~= parsed.source@);
}


/// Whether `letter` stands in a `<@` tag of `text` whose sign is `sign`:
/// after `<@` and the sign, among style letters only.
pub open spec fn in_style_tag(text: Seq<char>, sign: char, letter: char) -> bool {
    exists|a: int, b: int|
        #![trigger text[a], text[b]]
        0 <= a && a + 3 <= b < text.len() && text[a] == '<' && text[a + 1] == '@' && text[a + 2]
            == sign && text[b] == letter && forall|k: int|
            a + 3 <= k < b ==> crate::control_text::style_letter(#[trigger] text[k])
}

/// `letter` occurs at most once in `text`.
pub open spec fn at_most_once(text: Seq<char>, letter: char) -> bool {
    forall|i: int, j: int| 0 <= i < j < text.len() ==> !(#[trigger] text[i] == letter && #[trigger] text[j] == letter)
}

/// Whether the styles `s` switch the style of `letter`.
pub open spec fn style_flag(s: StyleFlags, letter: char) -> bool {
    if letter == 'B' {
        s.bold
    } else if letter == 'I' {
        s.italic
    } else {
        s.strike
    }
}

/// Where `letter` stands among the letters of `s`.
pub open spec fn letter_position(s: StyleFlags, letter: char) -> int {
    if letter == 'B' {
        0
    } else if letter == 'I' {
        if s.bold { 1 } else { 0 }
    } else {
        (if s.bold { 1int } else { 0int }) + (if s.italic { 1int } else { 0int })
    }
}

proof fn lemma_control_letters(s: StyleFlags, letter: char)
    requires
        letter == 'B' || letter == 'I' || letter == 'S',
    ensures
        ({
            let l = crate::control_text::control_letters(s);
            &&& l.len() <= 3
            &&& forall|k: int| 0 <= k < l.len() ==> crate::control_text::style_letter(#[trigger] l[k])
            &&& style_flag(s, letter) ==> 0 <= letter_position(s, letter) < l.len() && l[letter_position(s, letter)] == letter
            &&& forall|k: int| 0 <= k < l.len() && #[trigger] l[k] == letter ==> style_flag(s, letter) && k == letter_position(s, letter)
        }),
{
    let l = crate::control_text::control_letters(s);
    let b: Seq<char> = if s.bold { seq!['B'] } else { Seq::empty() };
    let i: Seq<char> = if s.italic { seq!['I'] } else { Seq::empty() };
    let t: Seq<char> = if s.strike { seq!['S'] } else { Seq::empty() };
    assert(l == b + i + t);
    assert forall|k: int| 0 <= k < l.len() implies (k < b.len() ==> l[k] == 'B') && (b.len() <= k < b.len() + i.len() ==> l[k] == 'I') && (b.len() + i.len() <= k ==> l[k] == 'S') by {
        if k < b.len() {
            assert(l[k] == b[k]);
        } else if k < b.len() + i.len() {
            assert(l[k] == i[k - b.len()]);
        } else {
            assert(l[k] == t[k - b.len() - i.len()]);
        }
    }
}

proof fn lemma_style_tag_index(text: Seq<char>, sign: char, letters: Seq<char>, i: int, letter: char)
    requires
        text == seq!['<', '@', sign] + letters + seq!['>'],
        0 <= i < text.len(),
        text[i] == letter,
        letter == 'B' || letter == 'I' || letter == 'S',
        sign == '+' || sign == '-',
    ensures
        3 <= i < 3 + letters.len(),
        letters[i - 3] == letter,
{
    if i < 3 {
        assert(text[i] == seq!['<', '@', sign][i]);
    } else if i < 3 + letters.len() {
        assert(text[i] == letters[i - 3]);
    } else {
        assert(text[i] == '>');
    }
}

/// A `<@` tag with `sign` listing `letters`, where there are any.
spec fn style_tag(sign: char, letters: Seq<char>) -> Seq<char> {
    if letters.len() > 0 {
        seq!['<', '@', sign] + letters + seq!['>']
    } else {
        Seq::empty()
    }
}

/// The letters of a tag: style letters only, with `letter` at `position`
/// where `listed`, and nowhere else.
spec fn letters_place(letters: Seq<char>, letter: char, listed: bool, position: int) -> bool {
    &&& forall|k: int| 0 <= k < letters.len() ==> crate::control_text::style_letter(#[trigger] letters[k])
    &&& listed ==> 0 <= position < letters.len() && letters[position] == letter
    &&& forall|k: int| 0 <= k < letters.len() && #[trigger] letters[k] == letter ==> listed && k == position
}

proof fn lemma_occurrences(
    added: Seq<char>,
    removed: Seq<char>,
    letter: char,
    fa: bool,
    fr: bool,
    pa: int,
    pr: int,
)
    requires
        letter == 'B' || letter == 'I' || letter == 'S',
        letters_place(added, letter, fa, pa),
        letters_place(removed, letter, fr, pr),
    ensures
        ({
            let p = style_tag('+', added);
            let t = p + style_tag('-', removed);
            forall|i: int|
                0 <= i < t.len() && #[trigger] t[i] == letter ==> (fa && i == 3 + pa) || (fr && i
                    == p.len() + 3 + pr)
        }),
{
    let p = style_tag('+', added);
    let m = style_tag('-', removed);
    let t = p + m;
    assert forall|i: int| 0 <= i < t.len() && #[trigger] t[i] == letter implies (fa && i == 3 + pa)
        || (fr && i == p.len() + 3 + pr) by {
        if i < p.len() {
            assert(t[i] == p[i]);
            lemma_style_tag_index(p, '+', added, i, letter);
        } else {
            assert(t[i] == m[i - p.len()]);
            lemma_style_tag_index(m, '-', removed, i - p.len(), letter);
        }
    }
}

proof fn lemma_found_in_plus(added: Seq<char>, removed: Seq<char>, letter: char, pa: int)
    requires
        letter == 'B' || letter == 'I' || letter == 'S',
        letters_place(added, letter, true, pa),
    ensures
        in_style_tag(style_tag('+', added) + style_tag('-', removed), '+', letter),
{
    let p = style_tag('+', added);
    let t = p + style_tag('-', removed);
    let b = 3 + pa;
    assert(t[0] == p[0] && t[1] == p[1] && t[2] == p[2]);
    assert(t[b] == p[b]);
    assert(p[b] == added[pa]);
    assert forall|k: int| 3 <= k < b implies crate::control_text::style_letter(#[trigger] t[k]) by {
        assert(t[k] == p[k]);
        assert(p[k] == added[k - 3]);
    }
    assert(t[0] == '<' && t[1] == '@' && t[2] == '+');
}

proof fn lemma_found_in_minus(added: Seq<char>, removed: Seq<char>, letter: char, pr: int)
    requires
        letter == 'B' || letter == 'I' || letter == 'S',
        letters_place(removed, letter, true, pr),
    ensures
        in_style_tag(style_tag('+', added) + style_tag('-', removed), '-', letter),
{
    let p = style_tag('+', added);
    let m = style_tag('-', removed);
    let t = p + m;
    let a = p.len() as int;
    let b = a + 3 + pr;
    assert(t[a] == m[0] && t[a + 1] == m[1] && t[a + 2] == m[2]);
    assert(t[b] == m[b - a]);
    assert(m[b - a] == removed[pr]);
    assert forall|k: int| a + 3 <= k < b implies crate::control_text::style_letter(#[trigger] t[k]) by {
        assert(t[k] == m[k - a]);
        assert(m[k - a] == removed[k - a - 3]);
    }
    assert(t[a] == '<' && t[a + 1] == '@' && t[a + 2] == '-');
}

proof fn lemma_tags_name_letter(
    added: Seq<char>,
    removed: Seq<char>,
    letter: char,
    owned: bool,
    on: bool,
    pa: int,
    pr: int,
)
    requires
        letter == 'B' || letter == 'I' || letter == 'S',
        letters_place(added, letter, owned && on, pa),
        letters_place(removed, letter, owned && !on, pr),
    ensures
        ({
            let t = style_tag('+', added) + style_tag('-', removed);
            &&& owned ==> in_style_tag(t, if on { '+' } else { '-' }, letter) && at_most_once(t, letter)
            &&& !owned ==> !t.contains(letter)
        }),
{
    let t = style_tag('+', added) + style_tag('-', removed);
    lemma_occurrences(added, removed, letter, owned && on, owned && !on, pa, pr);
    if owned && on {
        lemma_found_in_plus(added, removed, letter, pa);
    }
    if owned && !on {
        lemma_found_in_minus(added, removed, letter, pr);
    }
    assert forall|i: int, j: int| 0 <= i < j < t.len() implies !(#[trigger] t[i] == letter
        && #[trigger] t[j] == letter) by {
        if t[i] == letter && t[j] == letter {
            assert(false);
        }
    }
    if t.contains(letter) {
        let i = choose|i: int| 0 <= i < t.len() && t[i] == letter;
        assert(t[i] == letter);
    }
}

proof fn lemma_at_restoration_style(format: TextFormatState, letter: char, owned: bool, on: bool)
    requires
        letter == 'B' || letter == 'I' || letter == 'S',
        style_flag(at_added(format), letter) == (owned && on),
        style_flag(at_removed(format), letter) == (owned && !on),
    ensures
        owned ==> in_style_tag(at_restoration(format), if on { '+' } else { '-' }, letter)
            && at_most_once(at_restoration(format), letter),
        !owned ==> !at_restoration(format).contains(letter),
{
    let a = at_added(format);
    let r = at_removed(format);
    let added = control_letters(a);
    let removed = control_letters(r);
    lemma_control_letters(a, letter);
    lemma_control_letters(r, letter);
    assert(at_restoration(format) == style_tag('+', added) + style_tag('-', removed)) by {
        reveal(at_restoration);
    }
    lemma_tags_name_letter(
        added,
        removed,
        letter,
        owned,
        on,
        letter_position(a, letter),
        letter_position(r, letter),
    );
}

/// The restoration written after a generated font tag names every `<@>`
/// style that the input set, each once: in a `<@+..>` tag where the input
/// switched it on, in a `<@-..>` tag where it switched it off, and not at
/// all where the input left it to the object.
pub proof fn lemma_at_restoration_names_input_styles(format: TextFormatState)
    ensures
        ({
            let t = at_restoration(format);
            &&& format.at_bold.input_override ==> in_style_tag(
                t,
                if format.at_bold.current_value.unwrap_or(false) { '+' } else { '-' },
                'B',
            ) && at_most_once(t, 'B')
            &&& !format.at_bold.input_override ==> !t.contains('B')
            &&& format.at_italic.input_override ==> in_style_tag(
                t,
                if format.at_italic.current_value.unwrap_or(false) { '+' } else { '-' },
                'I',
            ) && at_most_once(t, 'I')
            &&& !format.at_italic.input_override ==> !t.contains('I')
            &&& format.at_strike.input_override ==> in_style_tag(
                t,
                if format.at_strike.current_value.unwrap_or(false) { '+' } else { '-' },
                'S',
            ) && at_most_once(t, 'S')
            &&& !format.at_strike.input_override ==> !t.contains('S')
        }),
{
    lemma_at_restoration_style(
        format,
        'B',
        format.at_bold.input_override,
        format.at_bold.current_value.unwrap_or(false),
    );
    lemma_at_restoration_style(
        format,
        'I',
        format.at_italic.input_override,
        format.at_italic.current_value.unwrap_or(false),
    );
    lemma_at_restoration_style(
        format,
        'S',
        format.at_strike.input_override,
        format.at_strike.current_value.unwrap_or(false),
    );
}

} // verus!
