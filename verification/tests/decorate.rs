//! Decoration scenarios run end to end: the library parses, resolves the
//! adjustments, cuts the runs and writes the tags; the tag numbers are
//! computed here from the profile's metrics, as the host side does.
use compositefont::classify::CharacterClass;
use compositefont::control_text::{
    parse_control_text, ControlTextDefaults, NumericCheck, ParsedControlText, ParsedSpanKind,
    SizeExpressionKind, TextFormatState, TextRange,
};
use compositefont::coverage::{
    resolve_with_coverage, resolved_adjustment_for_format, resolved_adjustment_with_index,
    GlyphCoverage, UnknownGlyphCoverage,
};
use std::collections::HashMap;
use compositefont::decorate::{
    decorate_runs, font_family_is_safe, layout_overrides_are_valid, plan_run_fragments,
    write_s_format_restoration, Fragment, FragmentTags, RunDecoration,
};
use compositefont::profile::{CompositeFontProfile, FontAdjustment};
use compositefont::runs::{resolve_text_runs, TextRun};

#[derive(Clone, Copy, Debug, PartialEq)]
struct Metrics {
    size_ratio: f64,
    baseline_shift_em: f64,
    tracking_adjust_em: f64,
    vertical_scale_ratio: f64,
    horizontal_scale_ratio: f64,
}

const NEUTRAL: Metrics = Metrics {
    size_ratio: 1.0,
    baseline_shift_em: 0.0,
    tracking_adjust_em: 0.0,
    vertical_scale_ratio: 1.0,
    horizontal_scale_ratio: 1.0,
};

fn adjustment(
    font_family: &str,
    size_ratio: f64,
    baseline_shift_em: f64,
    tracking_adjust_em: f64,
    vertical_scale_ratio: f64,
    horizontal_scale_ratio: f64,
) -> FontAdjustment<Metrics> {
    FontAdjustment {
        font_family: font_family.to_owned(),
        fallback_font_families: Vec::new(),
        metrics: Metrics {
            size_ratio,
            baseline_shift_em,
            tracking_adjust_em,
            vertical_scale_ratio,
            horizontal_scale_ratio,
        },
    }
}

fn decoration_profile() -> CompositeFontProfile<Metrics> {
    let latin = || adjustment("Latin", 1.15, 0.02, 0.05, 0.9, 1.1);
    let japanese = || adjustment("Japanese", 1.0, 0.0, 0.0, 1.0, 1.0);
    let mut profile = CompositeFontProfile::neutral_default(NEUTRAL);
    profile.name = "subtitle".to_owned();
    profile.western = latin();
    profile.hiragana = japanese();
    profile.katakana = japanese();
    profile.kanji = japanese();
    profile.digit = latin();
    profile.symbol = japanese();
    profile.other = japanese();
    profile
}

fn approximately_equal(left: f64, right: f64) -> bool {
    (left - right).abs() < 1e-9
}

fn format_control_number(value: f64) -> String {
    let value = if value.abs() < 0.000_000_5 { 0.0 } else { value };
    let mut formatted = format!("{value:.6}");
    while formatted.ends_with('0') {
        formatted.pop();
    }
    if formatted.ends_with('.') {
        formatted.pop();
    }
    formatted
}

fn number(parsed: &ParsedControlText, range: TextRange) -> f64 {
    parsed.range_text(range).parse().unwrap_or(f64::NAN)
}

fn replay(parsed: &ParsedControlText, first: usize, end: usize, object: Option<f64>) -> Option<f64> {
    let mut size = object;
    for expression in &parsed.size_expressions[first..end] {
        let value = number(parsed, expression.number);
        size = match expression.kind {
            SizeExpressionKind::Absolute => Some(value),
            SizeExpressionKind::Add => size.map(|size| size + value),
            SizeExpressionKind::Subtract => size.map(|size| size - value),
            SizeExpressionKind::Multiply => size.map(|size| size * value),
        };
    }
    size
}

fn effective_font_size(
    parsed: &ParsedControlText,
    format: &TextFormatState,
    object: Option<f64>,
) -> Option<f64> {
    if !format.font_size_override {
        return object;
    }
    let chain = format.size_restore_chain();
    replay(parsed, chain.first, chain.end, object)
}

fn numbers_are_valid(parsed: &ParsedControlText, object: Option<f64>) -> bool {
    parsed.numeric_checks.iter().all(|check| match *check {
        NumericCheck::SizeLiteral(index) => {
            let expression = parsed.size_expressions[index];
            let value = number(parsed, expression.number);
            value.is_finite()
                && (value > 0.0
                    || !matches!(
                        expression.kind,
                        SizeExpressionKind::Absolute | SizeExpressionKind::Multiply
                    ))
        }
        NumericCheck::OutlineLiteral(range) => {
            let value = number(parsed, range);
            value.is_finite() && value >= 0.0
        }
        NumericCheck::SizeChain(chain) => match replay(parsed, chain.first, chain.end, object) {
            Some(size) => size.is_finite() && size > 0.0,
            None => true,
        },
    })
}

fn fragment_tags(
    metrics: &Metrics,
    format: &TextFormatState,
    active_font_size: Option<f64>,
    char_spacing: Option<f64>,
) -> FragmentTags {
    let size_ratio = if format.profile_size_allowed() { metrics.size_ratio } else { 1.0 };
    let tracking = (active_font_size.is_some()
        && char_spacing.is_some()
        && !approximately_equal(metrics.tracking_adjust_em, 0.0))
    .then(|| char_spacing.unwrap() + active_font_size.unwrap() * metrics.tracking_adjust_em);
    let baseline = (active_font_size.is_some()
        && !approximately_equal(metrics.baseline_shift_em, 0.0))
    .then(|| {
        let shift = -(active_font_size.unwrap() * metrics.baseline_shift_em);
        let sign = if shift > 0.0 { "+" } else { "" };
        format!("{sign}{}", format_control_number(shift))
    });
    FragmentTags {
        size: (!approximately_equal(size_ratio, 1.0)).then(|| format_control_number(size_ratio)),
        tracking: tracking.map(format_control_number),
        horizontal: (!approximately_equal(metrics.horizontal_scale_ratio, 1.0))
            .then(|| format_control_number(metrics.horizontal_scale_ratio)),
        vertical: (!approximately_equal(metrics.vertical_scale_ratio, 1.0))
            .then(|| format_control_number(metrics.vertical_scale_ratio)),
        baseline,
    }
}

fn resolve_runs<C: GlyphCoverage>(
    parsed: &ParsedControlText,
    profile: &CompositeFontProfile<Metrics>,
    coverage: &mut C,
) -> (Vec<TextRun>, Vec<FontAdjustment<Metrics>>) {
    let mut adjustments: Vec<FontAdjustment<Metrics>> = Vec::new();
    let mut keys = vec![0usize; parsed.source.len()];
    for span in &parsed.spans {
        if span.kind != ParsedSpanKind::Visible {
            continue;
        }
        for index in span.chars.start..span.chars.end {
            let adjustment = resolved_adjustment_for_format(
                profile,
                parsed.source[index],
                &span.format,
                coverage,
                NEUTRAL,
            );
            let key = match adjustments.iter().position(|known| {
                known.font_family == adjustment.font_family && known.metrics == adjustment.metrics
            }) {
                Some(key) => key,
                None => {
                    adjustments.push(adjustment);
                    adjustments.len() - 1
                }
            };
            keys[index] = key;
        }
    }
    (resolve_text_runs(parsed, &keys), adjustments)
}

fn decorate_plain_text(
    text: &str,
    profile: &CompositeFontProfile<Metrics>,
    base_font_size: Option<f64>,
    base_char_spacing: Option<f64>,
) -> String {
    let mut coverage = UnknownGlyphCoverage::new();
    decorate_plain_text_with_coverage(text, profile, base_font_size, base_char_spacing, &mut coverage)
}

fn decorate_plain_text_with_coverage<C: GlyphCoverage>(
    text: &str,
    profile: &CompositeFontProfile<Metrics>,
    base_font_size: Option<f64>,
    base_char_spacing: Option<f64>,
    coverage: &mut C,
) -> String {
    let font_size = base_font_size.filter(|value| value.is_finite() && *value > 0.0);
    let char_spacing = base_char_spacing.filter(|value| value.is_finite());
    let Ok(parsed) = parse_control_text(text, ControlTextDefaults { font_family: None }) else {
        return text.to_owned();
    };
    if !numbers_are_valid(&parsed, font_size) {
        return text.to_owned();
    }
    let (runs, adjustments) = resolve_runs(&parsed, profile, coverage);
    let overrides: Vec<TextRange> = Vec::new();
    let decorations: Vec<Option<RunDecoration>> = runs
        .iter()
        .map(|run| {
            run.adjustment.map(|key| {
                let adjustment = &adjustments[key];
                let active = effective_font_size(&parsed, &run.format, font_size);
                let fragments = plan_run_fragments(run.chars, &overrides);
                RunDecoration {
                    font_family: adjustment.font_family.clone(),
                    fragment_tags: fragments
                        .iter()
                        .map(|_| fragment_tags(&adjustment.metrics, &run.format, active, char_spacing))
                        .collect(),
                }
            })
        })
        .collect();
    decorate_runs(&parsed, &runs, &overrides, &decorations).unwrap_or_else(|| text.to_owned())
}

#[test]
fn empty_and_neutral_text_are_unchanged() {
    assert_eq!(
        decorate_plain_text("", &decoration_profile(), Some(100.0), Some(0.0)),
        ""
    );
    assert_eq!(
        decorate_plain_text(
            "国LINE123",
            &CompositeFontProfile::neutral_default(NEUTRAL),
            Some(100.0),
            Some(0.0),
        ),
        "国LINE123"
    );
}

#[test]
fn decorates_and_coalesces_adjacent_visual_runs() {
    let decorated =
        decorate_plain_text("国LINE123国", &decoration_profile(), Some(100.0), Some(3.0));

    assert_eq!(
        decorated,
        "<@Japanese>国<@><@Latin><s*1.15><gw8><tw1.1><th0.9><p+0,-2>LINE123<p><th><tw><gw><s><@><@Japanese>国<@>"
    );
}

#[test]
fn omits_absolute_adjustments_without_base_metrics() {
    assert_eq!(
        decorate_plain_text("A", &decoration_profile(), None, None),
        "<@Latin><s*1.15><tw1.1><th0.9>A<th><tw><s><@>"
    );
}

#[test]
fn closes_runs_around_line_breaks() {
    assert_eq!(
        decorate_plain_text("A\r\n国\nB", &decoration_profile(), Some(100.0), Some(0.0),),
        "<@Latin><s*1.15><gw5><tw1.1><th0.9><p+0,-2>A<p><th><tw><gw><s><@>\r\n<@Japanese>国<@>\n<@Latin><s*1.15><gw5><tw1.1><th0.9><p+0,-2>B<p><th><tw><gw><s><@>"
    );
}

#[test]
fn decorates_visible_runs_between_color_tags() {
    let decorated = decorate_plain_text(
        "国<#ff0000>LINE<#>123",
        &decoration_profile(),
        Some(100.0),
        Some(0.0),
    );

    assert!(decorated.starts_with("<@Japanese>国<@><#ff0000>"));
    assert!(decorated.contains("<p+0,-2>LINE<p>"));
    assert!(decorated.contains("<@><#><@Latin>"));
    assert!(decorated.contains("<p+0,-2>123<p>"));
    assert_eq!(decorated.matches("<#ff0000>").count(), 1);
    assert_eq!(decorated.matches("<#>").count(), 1);
}

#[test]
fn input_size_wins_but_other_profile_attributes_use_the_effective_size() {
    let decorated = decorate_plain_text(
        "<s120>国LINE<s>",
        &decoration_profile(),
        Some(100.0),
        Some(0.0),
    );

    assert!(!decorated.contains("<s*1.15>"));
    assert!(decorated.contains("<@Japanese>国<@>"));
    assert!(decorated.contains("<@Latin><gw6><tw1.1><th0.9><p+0,-2.4>LINE"));
    assert!(decorated.starts_with("<s120>"));
    assert!(decorated.ends_with("<s>"));
}

#[test]
fn generated_size_reset_replays_the_exact_input_size_expression() {
    let parsed = parse_control_text(
        "<s100.123456789>A",
        ControlTextDefaults { font_family: None },
    )
    .unwrap();
    let mut restored = String::new();
    write_s_format_restoration(&mut restored, &parsed, &parsed.spans[0].format);

    assert_eq!(restored, "<s100.123456789>");
}

#[test]
fn generated_resets_replay_the_exact_input_outline_value() {
    let decorated = decorate_plain_text(
        "<s,,,2.123456789>A<s>",
        &decoration_profile(),
        Some(100.0),
        Some(0.0),
    );

    assert!(decorated.contains("<s*1,,,2.123456789>"));
    assert!(!decorated.contains("2.123457"));
}

#[test]
fn profile_size_resumes_after_input_size_reset() {
    let decorated = decorate_plain_text(
        "<s120>ABC<s>国123",
        &decoration_profile(),
        Some(100.0),
        Some(0.0),
    );
    let reset = decorated
        .find("<s><@Japanese>")
        .expect("input size reset is preserved");
    let (before, after) = decorated.split_at(reset);

    assert!(!before.contains("<s*1.15>"));
    assert!(after.contains("<@Latin><s*1.15>"));
    assert!(after.contains("<gw5>"));
    assert!(after.contains("<p+0,-2>"));
}

#[test]
fn s_tag_fields_override_profile_independently() {
    let decorated = decorate_plain_text(
        "<s120,User Font,B,8>LINE<s>",
        &decoration_profile(),
        Some(100.0),
        Some(0.0),
    );

    assert!(!decorated.contains("<@Latin>"));
    assert!(!decorated.contains("<s*1.15>"));
    assert!(decorated.contains("<gw6>"));
    assert!(decorated.contains("<tw1.1>"));
    assert!(decorated.contains("<th0.9>"));
    assert!(decorated.contains("<p+0,-2.4>"));
    assert!(decorated.starts_with("<s120,User Font,B,8>"));
    assert!(decorated.ends_with("<s>"));
}

#[test]
fn restores_active_input_styles_around_generated_font_runs() {
    let decorated = decorate_plain_text(
        "<@+B>国<#red>LINE<#><@+I>123<@-BIS>",
        &decoration_profile(),
        Some(100.0),
        Some(0.0),
    );

    assert!(decorated.contains("<@Japanese><@+B>国<@><@+B>"));
    assert!(decorated.contains("<#red><@Latin><@+B>"));
    assert!(decorated.contains("<@><@+B><#><@+I>"));
    assert!(decorated.contains("<@Latin><@+BI>"));
    assert!(decorated.ends_with("<@-BIS>"));
}

#[test]
fn basic_tag_state_and_original_line_endings_cross_run_boundaries() {
    let input = "<#red>国\r\nLINE\n123<#>";
    let decorated = decorate_plain_text(input, &decoration_profile(), Some(100.0), Some(0.0));

    assert_eq!(decorated.matches("\r\n").count(), 1);
    assert_eq!(decorated.matches('\n').count(), 2);
    assert!(decorated.contains("<@><@Latin>") || decorated.contains("\r\n<@Latin>"));
    assert!(decorated.starts_with("<#red>"));
    assert!(decorated.ends_with("<#>"));
}

#[test]
fn possible_control_text_is_returned_byte_for_byte() {
    let profile = decoration_profile();
    for text in [
        "</>漢字<!>かんじ</>",
        "<// comment > remains opaque //>国",
        "<?obj.rz=obj.time*360?>国",
        "<?=string.format(\"%d\", obj.frame)?>",
        "<future-control>国",
        "閉じていない<",
        "1 < 2",
        "<#ff0000>国<future-control>LINE<#>",
        "<#not-a-preset>国<#>",
        "<sNaN>国<s>",
        "<@User Font,7B>国<@>",
    ] {
        assert_eq!(
            decorate_plain_text(text, &profile, Some(100.0), Some(0.0)),
            text
        );
    }
}

#[test]
fn generated_text_is_idempotent() {
    let profile = decoration_profile();
    for input in [
        "国LINE",
        "国<#ff0000>LINE<#>123",
        "<s120>ABC<s>国123",
        "<@User Font>国LINE<@>",
        "<@+B><#red>国LINE<#><@-B>",
    ] {
        let once = decorate_plain_text(input, &profile, Some(100.0), Some(0.0));
        let twice = decorate_plain_text(&once, &profile, Some(100.0), Some(0.0));
        assert_eq!(twice, once, "input: {input}");
    }
}

#[test]
fn supported_generated_tags_are_idempotent_without_opaque_profile_tags() {
    let mut profile = CompositeFontProfile::neutral_default(NEUTRAL);
    profile.western.font_family = "Font Only".to_owned();
    profile.western.metrics.size_ratio = 1.2;

    for input in ["ABC", "<@+B>ABC<@-B>", "<s,,B>ABC<s>"] {
        let once = decorate_plain_text(input, &profile, Some(100.0), Some(0.0));
        assert!(!once.contains("<gw"));
        assert!(!once.contains("<tw"));
        assert!(!once.contains("<th"));
        assert!(!once.contains("<p"));
        let twice = decorate_plain_text(&once, &profile, Some(100.0), Some(0.0));
        assert_eq!(twice, once, "input: {input}");
    }
}

#[test]
fn font_run_restoration_preserves_unknown_relative_input_size() {
    let mut profile = CompositeFontProfile::neutral_default(NEUTRAL);
    profile.western.font_family = "Font Only".to_owned();
    let input = "<s*1.5,,B>A<s>";

    let once = decorate_plain_text(input, &profile, None, None);
    assert!(once.contains("<@Font Only><s*1,,B>A<@><s*1,,B>"));
    assert!(!once.contains("<@Font Only><s*1.5,,B>A"));
    let twice = decorate_plain_text(&once, &profile, None, None);
    assert_eq!(twice, once);
}

#[test]
fn unsafe_used_adjustment_fails_open() {
    let mut profile = decoration_profile();
    profile.western.font_family = "Unsafe,Font".to_owned();
    assert_eq!(
        decorate_plain_text("ABC", &profile, Some(100.0), Some(0.0)),
        "ABC"
    );
    profile.western.font_family = "Unsafe\nFont".to_owned();
    assert_eq!(
        decorate_plain_text("ABC", &profile, Some(100.0), Some(0.0)),
        "ABC"
    );
}

#[test]
fn greater_than_and_fullwidth_angle_brackets_are_plain_text() {
    let mut profile = decoration_profile();
    profile.symbol = adjustment("Latin", 1.15, 0.02, 0.05, 0.9, 1.1);
    let decorated = decorate_plain_text("A>B＜C＞", &profile, None, None);
    assert!(decorated.contains("A>B＜C＞"));
    assert_ne!(decorated, "A>B＜C＞");
}

#[test]
fn input_font_does_not_enable_adjustments_from_a_disabled_profile_row() {
    let mut profile = CompositeFontProfile::neutral_default(NEUTRAL);
    profile.western = adjustment("", 1.5, 0.25, 12.0, 0.8, 1.2);

    assert_eq!(
        decorate_plain_text("<@User Font>A<@>", &profile, Some(100.0), Some(3.0)),
        "<@User Font>A<@>"
    );
}

#[test]
fn layout_overrides_cut_a_run_into_fragments() {
    let run = TextRange { start: 2, end: 8 };
    let overrides = vec![
        TextRange { start: 0, end: 1 },
        TextRange { start: 3, end: 4 },
        TextRange { start: 4, end: 5 },
        TextRange { start: 9, end: 10 },
    ];
    let fragments = plan_run_fragments(run, &overrides);
    assert_eq!(
        fragments,
        vec![
            Fragment { chars: TextRange { start: 2, end: 3 }, layout_override: None },
            Fragment { chars: TextRange { start: 3, end: 4 }, layout_override: Some(1) },
            Fragment { chars: TextRange { start: 4, end: 5 }, layout_override: Some(2) },
            Fragment { chars: TextRange { start: 5, end: 8 }, layout_override: None },
        ]
    );
    assert!(layout_overrides_are_valid(10, &overrides));
    assert!(!layout_overrides_are_valid(9, &overrides));
    assert!(!layout_overrides_are_valid(
        10,
        &vec![TextRange { start: 3, end: 5 }, TextRange { start: 4, end: 6 }]
    ));
    assert!(!layout_overrides_are_valid(10, &vec![TextRange { start: 3, end: 3 }]));
}

#[test]
fn fragments_with_overrides_get_their_own_tags() {
    let parsed = parse_control_text("ABCD", ControlTextDefaults { font_family: None }).unwrap();
    let keys = vec![0; 4];
    let runs = resolve_text_runs(&parsed, &keys);
    let overrides = vec![TextRange { start: 0, end: 1 }, TextRange { start: 1, end: 2 }];
    let fragments = plan_run_fragments(runs[0].chars, &overrides);
    assert_eq!(fragments.len(), 3);
    let tags = |size: Option<&str>, tracking: Option<&str>| FragmentTags {
        size: size.map(str::to_owned),
        tracking: tracking.map(str::to_owned),
        horizontal: None,
        vertical: None,
        baseline: None,
    };
    let decorations = vec![Some(RunDecoration {
        font_family: "Mono".to_owned(),
        fragment_tags: vec![tags(Some("1.5"), None), tags(None, Some("-3")), tags(None, None)],
    })];
    assert_eq!(
        decorate_runs(&parsed, &runs, &overrides, &decorations).unwrap(),
        "<@Mono><s*1.5>A<s><gw-3>B<gw>CD<@>"
    );
    let wrong_count = vec![Some(RunDecoration {
        font_family: "Mono".to_owned(),
        fragment_tags: vec![tags(None, None)],
    })];
    assert_eq!(decorate_runs(&parsed, &runs, &overrides, &wrong_count), None);
    assert_eq!(decorate_runs(&parsed, &runs, &overrides, &vec![]), None);
}

#[test]
fn font_families_with_tag_characters_are_unsafe() {
    assert!(font_family_is_safe("Yu Gothic UI"));
    assert!(font_family_is_safe(""));
    for family in ["A<B", "A>B", "A,B", "A\nB", "A\u{7f}B", "A\u{85}B"] {
        assert!(!font_family_is_safe(family), "{family:?}");
    }
}

#[test]
fn runs_split_where_the_class_font_changes() {
    let parsed =
        parse_control_text("国LINE\n123", ControlTextDefaults { font_family: None }).unwrap();
    let profile = decoration_profile();
    let mut coverage = UnknownGlyphCoverage::new();
    let keys: Vec<usize> = parsed
        .source
        .iter()
        .map(|character| {
            let span_format = &parsed.spans[0].format;
            let adjustment = resolved_adjustment_for_format(
                &profile,
                *character,
                span_format,
                &mut coverage,
                NEUTRAL,
            );
            if adjustment.font_family == "Latin" { 1 } else { 0 }
        })
        .collect();
    let runs = resolve_text_runs(&parsed, &keys);
    let pieces: Vec<(String, Option<usize>, usize, usize)> = runs
        .iter()
        .map(|run| (parsed.range_text(run.chars), run.adjustment, run.utf8.end, run.utf16.end))
        .collect();
    assert_eq!(
        pieces,
        vec![
            ("国".to_owned(), Some(0), 3, 1),
            ("LINE".to_owned(), Some(1), 7, 5),
            ("\n".to_owned(), None, 8, 6),
            ("123".to_owned(), Some(1), 11, 9),
        ]
    );
    assert_eq!(CharacterClass::Digit.as_str(), "digit");
}

#[derive(Default)]
struct TestCoverage {
    values: HashMap<(String, char), bool>,
    glyph_queries: Vec<(String, char)>,
}

impl GlyphCoverage for TestCoverage {
    fn has_glyph(&mut self, font_family: &str, character: char) -> Option<bool> {
        self.glyph_queries.push((font_family.to_owned(), character));
        self.values
            .get(&(font_family.to_owned(), character))
            .copied()
    }
}

#[test]
fn selects_first_font_with_the_requested_glyph() {
    let mut profile = decoration_profile();
    profile.kanji = adjustment("Std", 1.0, 0.0, 0.0, 1.0, 1.0);
    profile.kanji_fallbacks = vec![
        adjustment("Pr6", 1.05, 0.01, 0.02, 0.98, 1.02),
        adjustment("Last", 1.0, 0.0, 0.0, 1.0, 1.0),
    ];
    let mut coverage = TestCoverage::default();
    coverage.values.insert(("Std".to_owned(), '𠮷'), false);
    coverage.values.insert(("Pr6".to_owned(), '𠮷'), true);

    let (selected, index) = resolved_adjustment_with_index(&profile, '𠮷', &mut coverage, NEUTRAL);
    assert_eq!(selected.font_family, "Pr6");
    assert_eq!(selected.metrics.size_ratio, 1.05);
    assert_eq!(index, 1);
}

#[test]
fn fallback_search_asks_each_named_font_in_order_until_one_has_the_glyph() {
    let mut profile = decoration_profile();
    profile.kanji = adjustment("Std", 1.0, 0.0, 0.0, 1.0, 1.0);
    profile.kanji_fallbacks = vec![
        adjustment("", 1.0, 0.0, 0.0, 1.0, 1.0),
        adjustment("Pr6", 1.05, 0.01, 0.02, 0.98, 1.02),
        adjustment("Last", 1.0, 0.0, 0.0, 1.0, 1.0),
    ];
    let mut coverage = TestCoverage::default();
    coverage.values.insert(("Std".to_owned(), '𠮷'), false);
    coverage.values.insert(("Pr6".to_owned(), '𠮷'), true);

    let (selected, index) = resolved_adjustment_with_index(&profile, '𠮷', &mut coverage, NEUTRAL);
    assert_eq!(selected.font_family, "Pr6");
    assert_eq!(index, 2);
    assert_eq!(
        coverage.glyph_queries,
        vec![("Std".to_owned(), '𠮷'), ("Pr6".to_owned(), '𠮷')]
    );
}

#[test]
fn selects_fallbacks_for_non_kanji_character_classes() {
    let mut profile = decoration_profile();
    profile.hiragana = adjustment("Kana Std", 1.0, 0.0, 0.0, 1.0, 1.0);
    profile.hiragana_fallbacks = vec![adjustment("Kana Extended", 1.08, 0.01, 0.02, 0.95, 1.05)];
    let mut coverage = TestCoverage::default();
    coverage.values.insert(("Kana Std".to_owned(), 'あ'), false);
    coverage
        .values
        .insert(("Kana Extended".to_owned(), 'あ'), true);

    let (selected, index) = resolved_adjustment_with_index(&profile, 'あ', &mut coverage, NEUTRAL);
    assert_eq!(selected.font_family, "Kana Extended");
    assert_eq!(selected.metrics.size_ratio, 1.08);
    assert_eq!(selected.metrics.horizontal_scale_ratio, 1.05);
    assert_eq!(index, 1);
}

#[test]
fn continues_after_an_unknown_font_when_a_later_font_has_the_glyph() {
    let mut profile = decoration_profile();
    profile.kanji = adjustment("Missing", 1.0, 0.0, 0.0, 1.0, 1.0);
    profile.kanji_fallbacks = vec![adjustment("Pr6", 1.0, 0.0, 0.0, 1.0, 1.0)];
    let mut coverage = TestCoverage::default();
    coverage.values.insert(("Pr6".to_owned(), '𠮷'), true);

    let (selected, index) = resolved_adjustment_with_index(&profile, '𠮷', &mut coverage, NEUTRAL);
    assert_eq!(selected.font_family, "Pr6");
    assert_eq!(index, 1);
}

#[test]
fn decoration_splits_kanji_runs_at_fallback_boundaries() {
    let mut profile = decoration_profile();
    profile.kanji.font_family = "Std".to_owned();
    profile.kanji_fallbacks = vec![adjustment("Pr6", 1.0, 0.0, 0.0, 1.0, 1.0)];
    let mut coverage = TestCoverage::default();
    coverage.values.insert(("Std".to_owned(), '国'), true);
    coverage.values.insert(("Std".to_owned(), '𠮷'), false);
    coverage.values.insert(("Pr6".to_owned(), '𠮷'), true);

    assert_eq!(
        decorate_plain_text_with_coverage("国𠮷国", &profile, Some(100.0), Some(0.0), &mut coverage),
        "<@Std>国<@><@Pr6>𠮷<@><@Std>国<@>"
    );
}

#[test]
fn input_font_suppresses_profile_font_and_fallback_queries() {
    let mut profile = decoration_profile();
    profile.western_fallbacks = vec![adjustment("Latin Fallback", 1.0, 0.0, 0.0, 1.0, 1.0)];
    let mut coverage = TestCoverage::default();
    let decorated = decorate_plain_text_with_coverage(
        "<@User Font>国LINE<@>",
        &profile,
        Some(100.0),
        Some(3.0),
        &mut coverage,
    );

    assert!(!decorated.contains("<@Japanese>"));
    assert!(!decorated.contains("<@Latin>"));
    assert!(!decorated.contains("Latin Fallback"));
    assert!(decorated.contains("<s*1.15><gw8><tw1.1><th0.9><p+0,-2>LINE"));
    assert!(coverage.glyph_queries.is_empty());
}

#[test]
fn fallback_rules_name_the_chosen_candidate() {
    let mut profile = decoration_profile();
    profile.kanji = adjustment("Std", 1.0, 0.0, 0.0, 1.0, 1.0);
    profile.kanji_fallbacks = vec![
        adjustment("Pr6", 1.05, 0.01, 0.02, 0.98, 1.02),
        adjustment("Last", 1.0, 0.0, 0.0, 1.0, 1.0),
    ];
    let mut coverage = TestCoverage::default();
    coverage.values.insert(("Std".to_owned(), '𠮷'), false);
    coverage.values.insert(("Pr6".to_owned(), '𠮷'), false);
    coverage.values.insert(("Last".to_owned(), '𠮷'), false);
    let resolved = resolve_with_coverage(&profile, '𠮷', &mut coverage, NEUTRAL);
    assert_eq!(resolved.font_family, "Last");
    assert_eq!(resolved.category, "kanji");
    assert_eq!(resolved.rule_id, "kanji:fallback:2");
    assert_eq!(coverage.glyph_queries.len(), 3);

    let mut coverage = TestCoverage::default();
    coverage.values.insert(("Std".to_owned(), '国'), true);
    let resolved = resolve_with_coverage(&profile, '国', &mut coverage, NEUTRAL);
    assert_eq!(resolved.font_family, "Std");
    assert_eq!(resolved.rule_id, "kanji");
    assert_eq!(coverage.glyph_queries.len(), 1);
}

#[test]
fn a_class_without_fonts_keeps_the_font() {
    let profile = CompositeFontProfile::neutral_default(NEUTRAL);
    let mut coverage = TestCoverage::default();
    let (selected, index) = resolved_adjustment_with_index(&profile, 'A', &mut coverage, NEUTRAL);
    assert_eq!(selected.font_family, "");
    assert_eq!(selected.metrics, NEUTRAL);
    assert_eq!(index, 0);
    assert!(coverage.glyph_queries.is_empty());
}

#[test]
fn resolved_runs_expose_utf8_and_utf16_ranges_for_sdk_adapter() {
    let text = "A𠮷\nあ";
    let parsed = parse_control_text(text, ControlTextDefaults::default()).unwrap();
    let mut coverage = UnknownGlyphCoverage::new();
    let (runs, _) = resolve_runs(
        &parsed,
        &CompositeFontProfile::neutral_default(NEUTRAL),
        &mut coverage,
    );

    assert_eq!(runs.len(), 3);
    assert_eq!(runs[0].utf8, 0..5);
    assert_eq!(runs[0].utf16, 0..3);
    assert_eq!(&text[runs[0].utf8.clone()], "A𠮷");
    assert_eq!(runs[1].utf8, 5..6);
    assert_eq!(runs[1].utf16, 3..4);
    assert_eq!(runs[1].adjustment, None);
    assert_eq!(runs[2].utf8, 6..9);
    assert_eq!(runs[2].utf16, 4..5);
    assert_eq!(&text[runs[2].utf8.clone()], "あ");
}

#[test]
fn tagged_runs_keep_ranges_in_the_original_utf8_and_utf16_source() {
    let text = "<#red>A𠮷<#>\nあ";
    let parsed = parse_control_text(text, ControlTextDefaults::default()).unwrap();
    let mut coverage = UnknownGlyphCoverage::new();
    let (runs, _) = resolve_runs(
        &parsed,
        &CompositeFontProfile::neutral_default(NEUTRAL),
        &mut coverage,
    );

    assert_eq!(runs.len(), 3);
    for run in &runs {
        assert_eq!(
            run.utf16.start,
            text[..run.utf8.start].encode_utf16().count()
        );
        assert_eq!(run.utf16.end, text[..run.utf8.end].encode_utf16().count());
    }
    assert_eq!(&text[runs[0].utf8.clone()], "A𠮷");
    assert_eq!(&text[runs[1].utf8.clone()], "\n");
    assert_eq!(&text[runs[2].utf8.clone()], "あ");
}

fn integration_test_profile() -> CompositeFontProfile<Metrics> {
    let western = adjustment("Arial Black", 1.0, 0.0, 0.05, 1.1, 0.9);
    let japanese = || adjustment("游明朝", 1.0, 0.0, 0.1, 0.9, 1.1);
    let mut profile = CompositeFontProfile::neutral_default(NEUTRAL);
    profile.name = "integration-test".to_owned();
    profile.western = adjustment("Arial Black", 1.0, 0.0, 0.05, 1.1, 0.9);
    profile.hiragana = japanese();
    profile.katakana = japanese();
    profile.kanji = adjustment("Arial", 1.0, 0.0, 0.1, 0.9, 1.1);
    profile.kanji_fallbacks = vec![adjustment("A P-OTF UD新ゴ Pr6N B", 1.0, 0.0, 0.1, 0.9, 1.1), japanese()];
    profile.digit = western;
    profile.symbol = japanese();
    profile.other = japanese();
    profile
}

#[test]
fn integration_profile_resolves_all_categories() {
    let profile = integration_test_profile();

    assert_eq!(profile.resolve('A').font_family, "Arial Black");
    assert_eq!(profile.resolve('A').metrics.tracking_adjust_em, 0.05);
    assert_eq!(profile.resolve('A').metrics.vertical_scale_ratio, 1.1);
    assert_eq!(profile.resolve('A').metrics.horizontal_scale_ratio, 0.9);
    assert_eq!(profile.resolve('あ').font_family, "游明朝");
    assert_eq!(profile.resolve('あ').metrics.tracking_adjust_em, 0.1);
    assert_eq!(profile.resolve('あ').metrics.vertical_scale_ratio, 0.9);
    assert_eq!(profile.resolve('あ').metrics.horizontal_scale_ratio, 1.1);
    assert_eq!(profile.resolve('カ').font_family, "游明朝");
    assert_eq!(profile.resolve('日').font_family, "Arial");
    assert_eq!(profile.kanji_fallbacks.len(), 2);
    assert_eq!(
        profile.kanji_fallbacks[0].font_family,
        "A P-OTF UD新ゴ Pr6N B"
    );
    assert_eq!(profile.resolve('1').font_family, "Arial Black");
    assert_eq!(profile.resolve('。').font_family, "游明朝");
    assert_eq!(profile.resolve('Ж').font_family, "游明朝");
}
