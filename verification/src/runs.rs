//! Text runs: the visible text cut where the resolved font adjustment
//! changes, with line breaks as runs of their own.
//!
//! Adjustments are compared through keys: the caller numbers the distinct
//! adjustments it resolved, and equal keys stand for equal adjustments.
use vstd::prelude::*;
use crate::control_text::{
    ParsedControlText, ParsedSpan, ParsedSpanKind, SpanView, TextFormatState, TextRange,
    mk_range, spans_view, well_formed_spans,
};
use crate::text::{
    char_utf16_width, char_utf8_width, lemma_utf8_offset_monotone, utf16_offset, utf16_width,
    utf8_offset, utf8_width,
};

verus! {

/// A run of text with one adjustment (`None` for a line break), its
/// character, UTF-8 and UTF-16 ranges in the source, and the input format.
#[derive(Debug)]
pub struct TextRun {
    pub utf8: std::ops::Range<usize>,
    pub utf16: std::ops::Range<usize>,
    pub chars: TextRange,
    pub adjustment: Option<usize>,
    pub format: TextFormatState,
}

/// A run as plain values.
#[derive(Clone, Copy, Debug)]
pub struct RunView {
    pub chars: TextRange,
    pub adjustment: Option<usize>,
    pub format: TextFormatState,
}

impl TextRun {
    pub open spec fn view_spec(self) -> RunView {
        RunView { chars: self.chars, adjustment: self.adjustment, format: self.format }
    }
}

pub open spec fn runs_view(runs: Seq<TextRun>) -> Seq<RunView> {
    runs.map_values(|r: TextRun| r.view_spec())
}

/// The maximal pieces of `seg_start..end` over which the key stays the same,
/// where the scan has reached `i`.
pub open spec fn key_segments(keys: Seq<usize>, seg_start: int, i: int, end: int) -> Seq<TextRange>
    decreases end - i,
{
    if i >= end {
        seq![mk_range(seg_start, end)]
    } else if keys[i] != keys[seg_start] {
        seq![mk_range(seg_start, i)] + key_segments(keys, i, i + 1, end)
    } else {
        key_segments(keys, seg_start, i + 1, end)
    }
}

/// The runs of one span: a line break is one run without adjustment; visible
/// text is cut where the key changes.
pub open spec fn span_runs(keys: Seq<usize>, span: SpanView) -> Seq<RunView> {
    if span.kind == ParsedSpanKind::Newline {
        seq![RunView { chars: span.chars, adjustment: None, format: span.format }]
    } else if span.chars.start >= span.chars.end {
        Seq::empty()
    } else {
        key_segments(keys, span.chars.start as int, span.chars.start + 1, span.chars.end as int).map_values(
            |r: TextRange| RunView {
                chars: r,
                adjustment: Some(keys[r.start as int]),
                format: span.format,
            },
        )
    }
}

/// The runs of all spans, in order.
pub open spec fn runs_of(keys: Seq<usize>, spans: Seq<SpanView>) -> Seq<RunView>
    decreases spans.len(),
{
    if spans.len() == 0 {
        Seq::empty()
    } else {
        runs_of(keys, spans.drop_last()) + span_runs(keys, spans.last())
    }
}

/// Every run's byte and code unit ranges are those of its characters.
pub open spec fn run_ranges_match(src: Seq<char>, runs: Seq<TextRun>) -> bool {
    forall|i: int|
        0 <= i < runs.len() ==> {
            &&& (#[trigger] runs[i]).utf8.start == utf8_offset(src, runs[i].chars.start as int)
            &&& runs[i].utf8.end == utf8_offset(src, runs[i].chars.end as int)
            &&& runs[i].utf16.start == utf16_offset(src, runs[i].chars.start as int)
            &&& runs[i].utf16.end == utf16_offset(src, runs[i].chars.end as int)
        }
}

proof fn lemma_utf16_below_utf8(s: Seq<char>, i: int)
    requires
        0 <= i,
    ensures
        utf16_offset(s, i) <= utf8_offset(s, i),
    decreases i,
{
    if i > 0 {
        lemma_utf16_below_utf8(s, i - 1);
    }
}

/// Advances the UTF-16 offset from character `from` to character `to`.
fn advance_utf16(src: &Vec<char>, from: usize, from_utf16: usize, to: usize) -> (r: usize)
    requires
        from <= to <= src@.len(),
        from_utf16 == utf16_offset(src@, from as int),
        utf8_offset(src@, src@.len() as int) <= usize::MAX,
    ensures
        r == utf16_offset(src@, to as int),
{
    let mut i = from;
    let mut u = from_utf16;
    while i < to
        invariant
            from <= i <= to <= src@.len(),
            u == utf16_offset(src@, i as int),
            utf8_offset(src@, src@.len() as int) <= usize::MAX,
        decreases to - i,
    {
        proof {
            lemma_utf16_below_utf8(src@, i + 1);
            lemma_utf8_offset_monotone(src@, i + 1, src@.len() as int);
        }
        u = u + char_utf16_width(src[i]);
        i += 1;
    }
    u
}

/// Cuts the visible spans of a parse into runs of equal adjustment keys,
/// `keys[i]` being the key resolved for source character `i`, and keeps each
/// line break as a run without adjustment.
pub fn resolve_text_runs(parsed: &ParsedControlText, keys: &Vec<usize>) -> (runs: Vec<TextRun>)
    requires
        well_formed_spans(parsed.source@, parsed.spans@),
        keys@.len() == parsed.source@.len(),
    ensures
        runs_view(runs@) == runs_of(keys@, spans_view(parsed.spans@)),
        run_ranges_match(parsed.source@, runs@),
{
    let src = &parsed.source;
    let ghost spans = spans_view(parsed.spans@);
    let mut runs: Vec<TextRun> = Vec::new();
    let mut pos: usize = 0;
    let mut pos_utf16: usize = 0;
    let mut s: usize = 0;
    assert(runs_view(runs@) =~= runs_of(keys@, spans.take(0)));
    while s < parsed.spans.len()
        invariant
            src == &parsed.source,
            spans == spans_view(parsed.spans@),
            well_formed_spans(src@, parsed.spans@),
            keys@.len() == src@.len(),
            s <= parsed.spans@.len(),
            pos <= src@.len(),
            pos_utf16 == utf16_offset(src@, pos as int),
            forall|k: int| s <= k < parsed.spans@.len() ==> pos <= (#[trigger] parsed.spans@[k]).chars.start,
            runs_view(runs@) == runs_of(keys@, spans.take(s as int)),
            run_ranges_match(src@, runs@),
        decreases parsed.spans@.len() - s,
    {
        let span = &parsed.spans[s];
        let ghost before = runs_view(runs@);
        assert(spans.take(s as int + 1).drop_last() =~= spans.take(s as int));
        assert(spans.take(s as int + 1).last() == span.view_spec());
        let start = span.chars.start;
        let end = span.chars.end;
        let start_utf16 = advance_utf16(src, pos, pos_utf16, start);
        proof {
            lemma_utf8_offset_monotone(src@, end as int, src@.len() as int);
            lemma_utf16_below_utf8(src@, end as int);
        }
        match span.kind {
            ParsedSpanKind::Newline => {
                let end_utf16 = advance_utf16(src, start, start_utf16, end);
                runs.push(
                    TextRun {
                        utf8: span.range.start..span.range.end,
                        utf16: start_utf16..end_utf16,
                        chars: span.chars,
                        adjustment: None,
                        format: span.format,
                    },
                );
                assert(runs_view(runs@) =~= before + span_runs(keys@, span.view_spec()));
                pos = end;
                pos_utf16 = end_utf16;
            },
            ParsedSpanKind::Visible => {
                if start < end {
                    let end_utf16 = push_key_segments(src, keys, span, start_utf16, &mut runs);
                    pos = end;
                    pos_utf16 = end_utf16;
                } else {
                    assert(runs_view(runs@) =~= before + span_runs(keys@, span.view_spec()));
                    pos = start;
                    pos_utf16 = start_utf16;
                }
            },
        }
        s += 1;
    }
    assert(spans.take(parsed.spans@.len() as int) =~= spans);
    runs
}

/// Pushes the runs of one non-empty visible span.
fn push_key_segments(
    src: &Vec<char>,
    keys: &Vec<usize>,
    span: &ParsedSpan,
    start_utf16: usize,
    runs: &mut Vec<TextRun>,
) -> (end_utf16: usize)
    requires
        span.kind == ParsedSpanKind::Visible,
        span.chars.start < span.chars.end <= src@.len(),
        keys@.len() == src@.len(),
        span.range.start == utf8_offset(src@, span.chars.start as int),
        span.range.end == utf8_offset(src@, span.chars.end as int),
        start_utf16 == utf16_offset(src@, span.chars.start as int),
        utf8_offset(src@, src@.len() as int) <= usize::MAX,
        run_ranges_match(src@, old(runs)@),
    ensures
        runs_view(final(runs)@) == runs_view(old(runs)@) + span_runs(keys@, span.view_spec()),
        run_ranges_match(src@, final(runs)@),
        end_utf16 == utf16_offset(src@, span.chars.end as int),
{
    let start = span.chars.start;
    let end = span.chars.end;
    let ghost goal = key_segments(keys@, start as int, start + 1, end as int);
    let ghost before = runs_view(runs@);
    let ghost pieces: Seq<TextRange> = Seq::empty();
    let mut seg_start = start;
    let mut seg_utf8 = span.range.start;
    let mut seg_utf16 = start_utf16;
    let mut i = start + 1;
    proof {
        lemma_utf8_offset_monotone(src@, start + 1, src@.len() as int);
        lemma_utf16_below_utf8(src@, start + 1);
    }
    let mut i_utf8 = seg_utf8 + char_utf8_width(src[start]);
    let mut i_utf16 = seg_utf16 + char_utf16_width(src[start]);
    while i < end
        invariant
            start <= seg_start < i <= end <= src@.len(),
            keys@.len() == src@.len(),
            seg_utf8 == utf8_offset(src@, seg_start as int),
            seg_utf16 == utf16_offset(src@, seg_start as int),
            i_utf8 == utf8_offset(src@, i as int),
            i_utf16 == utf16_offset(src@, i as int),
            utf8_offset(src@, src@.len() as int) <= usize::MAX,
            pieces + key_segments(keys@, seg_start as int, i as int, end as int) == goal,
            runs_view(runs@) == before + pieces.map_values(
                |r: TextRange| RunView {
                    chars: r,
                    adjustment: Some(keys@[r.start as int]),
                    format: span.format,
                },
            ),
            run_ranges_match(src@, runs@),
        decreases end - i,
    {
        if keys[i] != keys[seg_start] {
            let ghost old_runs = runs_view(runs@);
            runs.push(
                TextRun {
                    utf8: seg_utf8..i_utf8,
                    utf16: seg_utf16..i_utf16,
                    chars: TextRange { start: seg_start, end: i },
                    adjustment: Some(keys[seg_start]),
                    format: span.format,
                },
            );
            proof {
                let piece = mk_range(seg_start as int, i as int);
                assert(key_segments(keys@, seg_start as int, i as int, end as int) == seq![piece]
                    + key_segments(keys@, i as int, i + 1, end as int));
                assert(pieces.push(piece) + key_segments(keys@, i as int, i + 1, end as int)
                    =~= pieces + key_segments(keys@, seg_start as int, i as int, end as int));
                assert(runs_view(runs@) =~= old_runs.push(
                    RunView { chars: piece, adjustment: Some(keys@[seg_start as int]), format: span.format },
                ));
                pieces = pieces.push(piece);
            }
            seg_start = i;
            seg_utf8 = i_utf8;
            seg_utf16 = i_utf16;
        } else {
            assert(key_segments(keys@, seg_start as int, i as int, end as int) == key_segments(
                keys@,
                seg_start as int,
                i + 1,
                end as int,
            ));
        }
        proof {
            lemma_utf8_offset_monotone(src@, i + 1, src@.len() as int);
            lemma_utf16_below_utf8(src@, i + 1);
        }
        i_utf8 = i_utf8 + char_utf8_width(src[i]);
        i_utf16 = i_utf16 + char_utf16_width(src[i]);
        i += 1;
    }
    let ghost old_runs = runs_view(runs@);
    runs.push(
        TextRun {
            utf8: seg_utf8..i_utf8,
            utf16: seg_utf16..i_utf16,
            chars: TextRange { start: seg_start, end },
            adjustment: Some(keys[seg_start]),
            format: span.format,
        },
    );
    proof {
        let piece = mk_range(seg_start as int, end as int);
        assert(key_segments(keys@, seg_start as int, i as int, end as int) == seq![piece]);
        assert(pieces.push(piece) =~= goal);
        assert(runs_view(runs@) =~= old_runs.push(
            RunView { chars: piece, adjustment: Some(keys@[seg_start as int]), format: span.format },
        ));
        assert(runs_view(runs@) =~= before + goal.map_values(
            |r: TextRange| RunView {
                chars: r,
                adjustment: Some(keys@[r.start as int]),
                format: span.format,
            },
        ));
    }
    i_utf16
}

/// The pieces of `key_segments` tile `seg_start..end` in order, each piece
/// keeps one key, and neighbouring pieces have different keys.
proof fn lemma_key_segments(keys: Seq<usize>, seg_start: int, i: int, end: int)
    requires
        0 <= seg_start < i <= end <= keys.len(),
        end <= usize::MAX,
        forall|k: int| seg_start <= k < i ==> keys[k] == keys[seg_start],
    ensures
        ({
            let segs = key_segments(keys, seg_start, i, end);
            &&& segs.len() >= 1
            &&& segs[0].start == seg_start
            &&& segs.last().end == end
            &&& forall|k: int| 0 <= k < segs.len() ==> (#[trigger] segs[k]).start < segs[k].end
            &&& forall|k: int| 0 <= k < segs.len() - 1 ==> (#[trigger] segs[k]).end == segs[k + 1].start
            &&& forall|k: int, m: int|
                0 <= k < segs.len() && (#[trigger] segs[k]).start <= m < segs[k].end ==> #[trigger] keys[m]
                    == keys[segs[k].start as int]
            &&& forall|k: int|
                0 <= k < segs.len() - 1 ==> keys[(#[trigger] segs[k]).start as int] != keys[segs[k
                    + 1].start as int]
        }),
    decreases end - i,
{
    if i >= end {
        let segs = key_segments(keys, seg_start, i, end);
        assert(segs == seq![mk_range(seg_start, end)]);
        assert(segs[0] == mk_range(seg_start, end));
    } else if keys[i] != keys[seg_start] {
        lemma_key_segments(keys, i, i + 1, end);
        let rest = key_segments(keys, i, i + 1, end);
        let segs = key_segments(keys, seg_start, i, end);
        assert(segs == seq![mk_range(seg_start, i)] + rest);
        assert forall|k: int| 0 <= k < segs.len() - 1 implies (#[trigger] segs[k]).end == segs[k
            + 1].start by {
            if k > 0 {
                assert(segs[k] == rest[k - 1]);
            }
        }
        assert forall|k: int, m: int|
            0 <= k < segs.len() && (#[trigger] segs[k]).start <= m < segs[k].end implies #[trigger] keys[m]
                == keys[segs[k].start as int] by {
            if k > 0 {
                assert(segs[k] == rest[k - 1]);
            }
        }
        assert forall|k: int|
            0 <= k < segs.len() - 1 implies keys[(#[trigger] segs[k]).start as int] != keys[segs[k
                + 1].start as int] by {
            if k > 0 {
                assert(segs[k] == rest[k - 1]);
            }
        }
    } else {
        lemma_key_segments(keys, seg_start, i + 1, end);
    }
}

/// Runs of equal adjustments are merged: the runs of a visible span tile
/// it in order, every character of a run has the run's adjustment, and two
/// neighbouring runs always have different adjustments.
pub proof fn lemma_visible_runs_are_maximal(keys: Seq<usize>, span: SpanView)
    requires
        span.kind == ParsedSpanKind::Visible,
        span.chars.start < span.chars.end <= keys.len(),
    ensures
        ({
            let runs = span_runs(keys, span);
            &&& runs.len() >= 1
            &&& runs[0].chars.start == span.chars.start
            &&& runs.last().chars.end == span.chars.end
            &&& forall|k: int| 0 <= k < runs.len() - 1 ==> (#[trigger] runs[k]).chars.end == runs[k
                + 1].chars.start
            &&& forall|k: int, m: int|
                0 <= k < runs.len() && (#[trigger] runs[k]).chars.start <= m < runs[k].chars.end
                    ==> runs[k].adjustment == Some(#[trigger] keys[m])
            &&& forall|k: int|
                0 <= k < runs.len() - 1 ==> (#[trigger] runs[k]).adjustment != runs[k + 1].adjustment
        }),
{
    let start = span.chars.start as int;
    let end = span.chars.end as int;
    lemma_key_segments(keys, start, start + 1, end);
    let segs = key_segments(keys, start, start + 1, end);
    let runs = span_runs(keys, span);
    assert(runs.len() == segs.len());
    assert forall|k: int| 0 <= k < runs.len() implies (#[trigger] runs[k]).chars == segs[k]
        && runs[k].adjustment == Some(keys[segs[k].start as int]) by {}
    assert forall|k: int| 0 <= k < runs.len() - 1 implies (#[trigger] runs[k]).chars.end == runs[k
        + 1].chars.start by {
        assert(runs[k].chars == segs[k]);
        assert(runs[k + 1].chars == segs[k + 1]);
    }
    assert forall|k: int, m: int|
        0 <= k < runs.len() && (#[trigger] runs[k]).chars.start <= m < runs[k].chars.end implies runs[k].adjustment
            == Some(#[trigger] keys[m]) by {
        assert(runs[k].chars == segs[k]);
        assert(segs[k].start <= m < segs[k].end);
    }
    assert forall|k: int| 0 <= k < runs.len() - 1 implies (#[trigger] runs[k]).adjustment != runs[k
        + 1].adjustment by {
        assert(runs[k].chars == segs[k]);
        assert(runs[k + 1].chars == segs[k + 1]);
    }
    assert(runs[0].chars == segs[0]);
    assert(runs.last().chars == segs.last());
}

} // verus!
