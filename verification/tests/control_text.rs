use compositefont::control_text::{
    parse_control_text, ControlTextDefaults, ParseError, ParsedControlText, ParsedSpanKind,
    SizeExpressionKind, StyleFlags, TextFormatState, TextValue,
};

fn defaults() -> ControlTextDefaults {
    ControlTextDefaults {
        font_family: Some("Object Font".to_owned()),
    }
}

const OBJECT_FONT_SIZE: f64 = 40.0;

fn text(parsed: &ParsedControlText, value: Option<TextValue>) -> Option<String> {
    value.and_then(|value| parsed.value_text(value))
}

/// The font size in force: the object's, or the replay of the input's size
/// expressions from it.
fn effective_font_size(parsed: &ParsedControlText, format: &TextFormatState) -> f64 {
    let mut size = OBJECT_FONT_SIZE;
    if !format.font_size_override {
        return size;
    }
    let chain = format.size_restore_chain();
    for expression in &parsed.size_expressions[chain.first..chain.end] {
        let number: f64 = parsed.range_text(expression.number).parse().unwrap();
        size = match expression.kind {
            SizeExpressionKind::Absolute => number,
            SizeExpressionKind::Add => size + number,
            SizeExpressionKind::Subtract => size - number,
            SizeExpressionKind::Multiply => size * number,
        };
    }
    size
}

#[test]
fn tokenizes_visible_text_tags_and_original_newlines() {
    let source = "国<#ff0000>LINE<#>\r\n<s120>123<s>\n";
    let parsed = parse_control_text(source, defaults()).unwrap();
    assert_eq!(
        parsed
            .spans
            .iter()
            .map(|span| (&source[span.range.clone()], span.kind))
            .collect::<Vec<_>>(),
        vec![
            ("国", ParsedSpanKind::Visible),
            ("LINE", ParsedSpanKind::Visible),
            ("\r\n", ParsedSpanKind::Newline),
            ("123", ParsedSpanKind::Visible),
            ("\n", ParsedSpanKind::Newline),
        ]
    );
    for span in &parsed.spans {
        assert_eq!(parsed.range_text(span.chars), &source[span.range.clone()]);
    }
}

#[test]
fn tracks_only_fields_explicitly_owned_by_input_tags() {
    let source = "<s120>1<s,User Font>2<@At Font,6BI>3<#ff0000>4";
    let parsed = parse_control_text(source, defaults()).unwrap();
    let one = &parsed.spans[0].format;
    assert!(!one.profile_size_allowed());
    assert!(one.profile_font_allowed());
    let two = &parsed.spans[1].format;
    assert!(two.profile_size_allowed());
    assert!(!two.profile_font_allowed());
    assert_eq!(
        text(&parsed, two.effective_font_family()).as_deref(),
        Some("User Font")
    );
    let three = &parsed.spans[2].format;
    assert_eq!(
        text(&parsed, three.effective_font_family()).as_deref(),
        Some("At Font")
    );
    assert_eq!(three.at_decoration_override(), Some(6));
    assert_eq!(
        three.at_style_override(),
        Some(StyleFlags {
            bold: true,
            italic: true,
            strike: false,
        })
    );
    let four = &parsed.spans[3].format;
    assert!(four.text_color.input_override);
    assert!(!four.decoration_color.input_override);
}

#[test]
fn color_tags_reset_omitted_fields_before_applying_present_fields() {
    let parsed =
        parse_control_text("<#red,green>A<#blue>B<#,yellow>C<#,>D", defaults()).unwrap();
    let states = parsed
        .spans
        .iter()
        .map(|span| &span.format)
        .collect::<Vec<_>>();

    assert_eq!(
        text(&parsed, states[0].text_color.current_value).as_deref(),
        Some("red")
    );
    assert_eq!(
        text(&parsed, states[0].decoration_color.current_value).as_deref(),
        Some("green")
    );
    assert_eq!(
        text(&parsed, states[1].text_color.current_value).as_deref(),
        Some("blue")
    );
    assert!(!states[1].decoration_color.input_override);
    assert!(!states[2].text_color.input_override);
    assert_eq!(
        text(&parsed, states[2].decoration_color.current_value).as_deref(),
        Some("yellow")
    );
    assert!(!states[3].text_color.input_override);
    assert!(!states[3].decoration_color.input_override);
}

#[test]
fn size_reset_returns_to_object_defaults_and_reenables_profile_size() {
    let parsed = parse_control_text("<s120>A<s>B", defaults()).unwrap();
    assert_eq!(effective_font_size(&parsed, &parsed.spans[0].format), 120.0);
    assert!(!parsed.spans[0].format.profile_size_allowed());
    assert_eq!(effective_font_size(&parsed, &parsed.spans[1].format), 40.0);
    assert!(parsed.spans[1].format.profile_size_allowed());
}

#[test]
fn empty_size_field_resets_size_but_applies_other_s_fields() {
    let parsed = parse_control_text("<s80><s,User Font,,8>A", defaults()).unwrap();
    let state = &parsed.spans[0].format;
    assert_eq!(effective_font_size(&parsed, state), 40.0);
    assert!(state.profile_size_allowed());
    assert_eq!(
        text(&parsed, state.s_font_override()).as_deref(),
        Some("User Font")
    );
    assert_eq!(state.s_style_override(), Some(StyleFlags::default()));
    assert_eq!(text(&parsed, state.s_outline_override()).as_deref(), Some("8"));
}

#[test]
fn relative_sizes_follow_aviutl_order() {
    let parsed = parse_control_text("<s80><s+10><s*1.5>A", defaults()).unwrap();
    assert_eq!(effective_font_size(&parsed, &parsed.spans[0].format), 135.0);
    assert_eq!(
        parsed.size_restore_expressions(&parsed.spans[0].format),
        ["80", "+10", "*1.5"]
    );
}

#[test]
fn at_reset_clears_font_decoration_and_styles_but_keeps_size() {
    let parsed =
        parse_control_text("<s80,Size Font,B><@User Font,6IS>A<@>B", defaults()).unwrap();
    let before = &parsed.spans[0].format;
    assert_eq!(effective_font_size(&parsed, before), 80.0);
    assert_eq!(
        text(&parsed, before.effective_font_family()).as_deref(),
        Some("User Font")
    );
    assert_eq!(before.at_decoration_override(), Some(6));
    let after = &parsed.spans[1].format;
    assert_eq!(effective_font_size(&parsed, after), 80.0);
    assert_eq!(
        text(&parsed, after.effective_font_family()).as_deref(),
        Some("Object Font")
    );
    assert!(after.at_style_override().is_none());
}

#[test]
fn style_deltas_update_active_s_style_and_its_reset_base() {
    let parsed = parse_control_text("<s80,,B><@+I>A<s>B", defaults()).unwrap();
    assert_eq!(
        parsed.spans[0].format.s_style_override(),
        Some(StyleFlags {
            bold: true,
            italic: true,
            strike: false,
        })
    );
    assert_eq!(
        parsed.spans[1].format.at_style_override(),
        Some(StyleFlags {
            bold: false,
            italic: true,
            strike: false,
        })
    );
}

#[test]
fn consecutive_basic_tags_preserve_non_nested_attribute_scope() {
    let parsed = parse_control_text("<@+B><#red>A<@+I>B<@-B><#>C<@-I>D", defaults()).unwrap();
    let state = |index: usize| &parsed.spans[index].format;

    assert_eq!(state(0).at_bold.current_value, Some(true));
    assert!(!state(0).at_italic.input_override);
    assert_eq!(
        text(&parsed, state(0).text_color.current_value).as_deref(),
        Some("red")
    );
    assert_eq!(state(1).at_bold.current_value, Some(true));
    assert_eq!(state(1).at_italic.current_value, Some(true));
    assert_eq!(state(2).at_bold.current_value, Some(false));
    assert_eq!(state(2).at_italic.current_value, Some(true));
    assert!(!state(2).text_color.input_override);
    assert_eq!(state(3).at_italic.current_value, Some(false));
}

#[test]
fn rejects_unsupported_unknown_and_malformed_tags_before_output() {
    for source in [
        "<?obj.rz=1?>国",
        "</>漢字<!>かんじ</>",
        "<// comment //>国",
        "<future-control>国",
        "閉じていない<",
        "<snope>国",
        "<@+X>国",
        "<s80,,,>国",
        "<#red,blue,green>国",
        "<#custom-palette-alias>国",
    ] {
        assert!(
            matches!(parse_control_text(source, defaults()), Err(ParseError)),
            "{source}"
        );
    }
}

#[test]
fn angle_brackets_that_open_no_tag_are_plain_text() {
    let source = "a>b＜c＞";
    let parsed = parse_control_text(source, ControlTextDefaults::default()).unwrap();
    assert_eq!(parsed.spans.len(), 1);
    assert_eq!(&source[parsed.spans[0].range.clone()], source);
}

#[test]
fn plain_text_is_one_visible_span_with_the_initial_format() {
    let parsed = parse_control_text("漢字 and かな", ControlTextDefaults::default()).unwrap();
    assert_eq!(parsed.spans.len(), 1);
    let format = &parsed.spans[0].format;
    assert!(format.profile_font_allowed());
    assert!(format.profile_size_allowed());
    assert_eq!(format.effective_font_family(), None);
    assert!(parsed.size_expressions.is_empty());
    assert!(parsed.numeric_checks.is_empty());
}

#[test]
fn empty_text_has_no_spans() {
    let parsed = parse_control_text("", ControlTextDefaults::default()).unwrap();
    assert!(parsed.spans.is_empty());
}
