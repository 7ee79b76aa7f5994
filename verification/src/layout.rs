//! What the layout pass looks at: the characters of each line that the
//! adjusted runs draw, which of them leave ink, and the font each is drawn
//! with. The measuring itself stays with the caller.
use vstd::prelude::*;
use crate::classify::{control_codepoint, is_control, is_white_space, white_space_codepoint};
use crate::control_text::{ParsedControlText, TextFormatState};
use crate::decorate::value_chars;
use crate::runs::TextRun;

verus! {

/// A character laid out on a line: its position in the input and the run
/// it belongs to.
#[derive(Clone, Copy, Debug, PartialEq, Eq, Structural)]
pub struct LayoutCharacter {
    pub index: usize,
    pub run: usize,
}

/// The characters `start..end` of run `r` that are not control characters.
pub open spec fn run_characters(src: Seq<char>, start: int, end: int, r: int) -> Seq<LayoutCharacter>
    decreases end - start,
{
    if end <= start {
        Seq::empty()
    } else {
        let before = run_characters(src, start, end - 1, r);
        if control_codepoint(src[end - 1] as u32) {
            before
        } else {
            before.push(LayoutCharacter { index: (end - 1) as usize, run: r as usize })
        }
    }
}

/// The lines of runs `0..k`: a run without adjustment (a line break) ends a
/// line; the characters of the other runs fill the current one.
pub open spec fn layout_lines_of(src: Seq<char>, runs: Seq<TextRun>, k: int) -> Seq<Seq<LayoutCharacter>>
    decreases k,
{
    if k <= 0 {
        seq![Seq::empty()]
    } else {
        let lines = layout_lines_of(src, runs, k - 1);
        let run = runs[k - 1];
        if run.adjustment is None {
            lines.push(Seq::empty())
        } else {
            lines.update(
                lines.len() - 1,
                lines.last() + run_characters(src, run.chars.start as int, run.chars.end as int, k - 1),
            )
        }
    }
}

pub open spec fn lines_view(lines: Seq<Vec<LayoutCharacter>>) -> Seq<Seq<LayoutCharacter>> {
    lines.map_values(|line: Vec<LayoutCharacter>| line@)
}

proof fn lemma_lines_nonempty(src: Seq<char>, runs: Seq<TextRun>, k: int)
    ensures
        layout_lines_of(src, runs, k).len() >= 1,
    decreases k,
{
    if k > 0 {
        lemma_lines_nonempty(src, runs, k - 1);
    }
}

/// How many of runs `0..k` have no adjustment: the line breaks among them.
pub open spec fn breaks_before(runs: Seq<TextRun>, k: int) -> nat
    decreases k,
{
    if k <= 0 {
        0
    } else {
        breaks_before(runs, k - 1) + if runs[k - 1].adjustment is None {
            1nat
        } else {
            0nat
        }
    }
}

proof fn lemma_breaks_monotone(runs: Seq<TextRun>, a: int, b: int)
    requires
        a <= b,
    ensures
        breaks_before(runs, a) <= breaks_before(runs, b),
    decreases b - a,
{
    if a < b {
        lemma_breaks_monotone(runs, a, b - 1);
    }
}

/// The runs lie within the source.
pub open spec fn runs_within(src: Seq<char>, runs: Seq<TextRun>) -> bool {
    forall|i: int|
        0 <= i < runs.len() ==> (#[trigger] runs[i]).chars.start <= runs[i].chars.end <= src.len()
}

/// Laid-out character `a` comes before `b`: an earlier run, or an earlier
/// position in the same run.
pub open spec fn laid_out_before(a: LayoutCharacter, b: LayoutCharacter) -> bool {
    a.run < b.run || (a.run == b.run && a.index < b.index)
}

proof fn lemma_run_characters(src: Seq<char>, start: int, end: int, r: int)
    requires
        0 <= start,
        end <= src.len(),
        end <= usize::MAX,
        0 <= r <= usize::MAX,
    ensures
        forall|j: int|
            0 <= j < run_characters(src, start, end, r).len() ==> {
                let e = #[trigger] run_characters(src, start, end, r)[j];
                &&& e.run == r as usize
                &&& start <= e.index < end
                &&& !control_codepoint(src[e.index as int] as u32)
            },
        forall|a: int, b: int|
            0 <= a < b < run_characters(src, start, end, r).len() ==> (#[trigger] run_characters(
                src,
                start,
                end,
                r,
            )[a]).index < (#[trigger] run_characters(src, start, end, r)[b]).index,
        forall|p: int|
            start <= p < end && !control_codepoint(#[trigger] src[p] as u32) ==> run_characters(
                src,
                start,
                end,
                r,
            ).contains(LayoutCharacter { index: p as usize, run: r as usize }),
    decreases end - start,
{
    if end > start {
        lemma_run_characters(src, start, end - 1, r);
        let before = run_characters(src, start, end - 1, r);
        let now = run_characters(src, start, end, r);
        if control_codepoint(src[end - 1] as u32) {
            assert(now == before);
        } else {
            let e = LayoutCharacter { index: (end - 1) as usize, run: r as usize };
            assert(now == before.push(e));
            assert(now[now.len() - 1] == e);
            assert forall|j: int| 0 <= j < before.len() implies #[trigger] now[j] == before[j] by {}
            assert forall|j: int|
                0 <= j < now.len() implies {
                let e = #[trigger] now[j];
                &&& e.run == r as usize
                &&& start <= e.index < end
                &&& !control_codepoint(src[e.index as int] as u32)
            } by {
                if j < before.len() {
                    assert(now[j] == before[j]);
                }
            }
            assert forall|a: int, b: int| 0 <= a < b < now.len() implies (#[trigger] now[a]).index
                < (#[trigger] now[b]).index by {
                assert(now[a] == before[a]);
                if b < before.len() {
                    assert(now[b] == before[b]);
                }
            }
            assert forall|p: int|
                start <= p < end && !control_codepoint(#[trigger] src[p] as u32) implies now.contains(
                LayoutCharacter { index: p as usize, run: r as usize },
            ) by {
                if p < end - 1 {
                    let q = choose|q: int|
                        0 <= q < before.len() && before[q] == LayoutCharacter {
                            index: p as usize,
                            run: r as usize,
                        };
                    assert(now[q] == before[q]);
                }
            }
        }
    }
}

/// What the lines of runs `0..k` hold, stated without the way they are
/// built: one line more than there are line breaks; each laid-out
/// character belongs to an adjusted run, lies in that run and is no
/// control character, and sits in the line that the breaks before its run
/// lead to; the characters of a line come in the order of the source; and
/// every such character of every adjusted run is laid out.
pub proof fn lemma_layout_lines_shape(src: Seq<char>, runs: Seq<TextRun>, k: int)
    requires
        0 <= k <= runs.len(),
        runs.len() <= usize::MAX,
        runs_within(src, runs),
    ensures
        layout_lines_of(src, runs, k).len() == breaks_before(runs, k) + 1,
        forall|l: int, j: int|
            0 <= l < layout_lines_of(src, runs, k).len() && 0 <= j < layout_lines_of(
                src,
                runs,
                k,
            )[l].len() ==> {
                let e = #[trigger] layout_lines_of(src, runs, k)[l][j];
                &&& e.run < k
                &&& runs[e.run as int].adjustment is Some
                &&& breaks_before(runs, e.run as int) == l
                &&& runs[e.run as int].chars.start <= e.index < runs[e.run as int].chars.end
                &&& !control_codepoint(src[e.index as int] as u32)
            },
        forall|l: int, a: int, b: int|
            0 <= l < layout_lines_of(src, runs, k).len() && 0 <= a < b < layout_lines_of(
                src,
                runs,
                k,
            )[l].len() ==> laid_out_before(
                #[trigger] layout_lines_of(src, runs, k)[l][a],
                #[trigger] layout_lines_of(src, runs, k)[l][b],
            ),
        forall|r: int, p: int|
            0 <= r < k && runs[r].adjustment is Some && runs[r].chars.start <= p
                < runs[r].chars.end && !control_codepoint(#[trigger] src[p] as u32) ==> (
            #[trigger] layout_lines_of(src, runs, k)[breaks_before(runs, r) as int]).contains(
                LayoutCharacter { index: p as usize, run: r as usize },
            ),
    decreases k,
{
    if k > 0 {
        lemma_layout_lines_shape(src, runs, k - 1);
        let lines = layout_lines_of(src, runs, k - 1);
        let now = layout_lines_of(src, runs, k);
        let run = runs[k - 1];
        assert(run.chars.start <= run.chars.end <= src.len());
        if run.adjustment is None {
            assert(now == lines.push(Seq::empty()));
            assert forall|r: int, p: int|
                0 <= r < k && runs[r].adjustment is Some && runs[r].chars.start <= p
                    < runs[r].chars.end && !control_codepoint(#[trigger] src[p] as u32) implies (
            #[trigger] now[breaks_before(runs, r) as int]).contains(
                LayoutCharacter { index: p as usize, run: r as usize },
            ) by {
                assert(r < k - 1);
                lemma_breaks_monotone(runs, r, k - 1);
                assert(now[breaks_before(runs, r) as int] == lines[breaks_before(runs, r) as int]);
            }
        } else {
            let rc = run_characters(src, run.chars.start as int, run.chars.end as int, k - 1);
            lemma_run_characters(src, run.chars.start as int, run.chars.end as int, k - 1);
            let last = lines.len() - 1;
            assert(now == lines.update(last, lines[last] + rc));
            assert(breaks_before(runs, k) == breaks_before(runs, k - 1));
            assert forall|l: int, j: int|
                0 <= l < now.len() && 0 <= j < now[l].len() implies {
                let e = #[trigger] now[l][j];
                &&& e.run < k
                &&& runs[e.run as int].adjustment is Some
                &&& breaks_before(runs, e.run as int) == l
                &&& runs[e.run as int].chars.start <= e.index < runs[e.run as int].chars.end
                &&& !control_codepoint(src[e.index as int] as u32)
            } by {
                if l == last && j >= lines[last].len() {
                    assert(now[l][j] == rc[j - lines[last].len()]);
                } else if l == last {
                    assert(now[l][j] == lines[l][j]);
                } else {
                    assert(now[l] == lines[l]);
                }
            }
            assert forall|l: int, a: int, b: int|
                0 <= l < now.len() && 0 <= a < b < now[l].len() implies laid_out_before(
                #[trigger] now[l][a],
                #[trigger] now[l][b],
            ) by {
                if l == last {
                    let n = lines[last].len();
                    if b < n {
                        assert(now[l][a] == lines[l][a]);
                        assert(now[l][b] == lines[l][b]);
                    } else if a < n {
                        assert(now[l][a] == lines[l][a]);
                        assert(now[l][b] == rc[b - n]);
                        assert(lines[l][a].run < k - 1);
                    } else {
                        assert(now[l][a] == rc[a - n]);
                        assert(now[l][b] == rc[b - n]);
                    }
                } else {
                    assert(now[l] == lines[l]);
                }
            }
            assert forall|r: int, p: int|
                0 <= r < k && runs[r].adjustment is Some && runs[r].chars.start <= p
                    < runs[r].chars.end && !control_codepoint(#[trigger] src[p] as u32) implies (
            #[trigger] now[breaks_before(runs, r) as int]).contains(
                LayoutCharacter { index: p as usize, run: r as usize },
            ) by {
                let target = LayoutCharacter { index: p as usize, run: r as usize };
                let l = breaks_before(runs, r) as int;
                if r == k - 1 {
                    assert(l == last);
                    assert(rc.contains(target));
                    let q = choose|q: int| 0 <= q < rc.len() && rc[q] == target;
                    assert(now[l][lines[last].len() + q] == target);
                } else {
                    lemma_breaks_monotone(runs, r, k - 1);
                    assert(lines[l].contains(target));
                    let q = choose|q: int| 0 <= q < lines[l].len() && lines[l][q] == target;
                    if l == last {
                        assert(now[l][q] == target);
                    } else {
                        assert(now[l] == lines[l]);
                    }
                }
            }
        }
    }
}

/// Splits the adjusted runs into lines at the line breaks, keeping for each
/// line the characters that are not control characters, in order.
pub fn layout_lines(parsed: &ParsedControlText, runs: &Vec<TextRun>) -> (lines: Vec<
    Vec<LayoutCharacter>,
>)
    requires
        forall|i: int|
            0 <= i < runs@.len() ==> (#[trigger] runs@[i]).chars.start <= runs@[i].chars.end
                <= parsed.source@.len(),
    ensures
        lines_view(lines@) == layout_lines_of(parsed.source@, runs@, runs@.len() as int),
        lines@.len() == breaks_before(runs@, runs@.len() as int) + 1,
{
    let ghost src = parsed.source@;
    let mut lines: Vec<Vec<LayoutCharacter>> = Vec::new();
    let mut line: Vec<LayoutCharacter> = Vec::new();
    let mut k: usize = 0;
    while k < runs.len()
        invariant
            src == parsed.source@,
            k <= runs@.len(),
            forall|i: int|
                0 <= i < runs@.len() ==> (#[trigger] runs@[i]).chars.start <= runs@[i].chars.end
                    <= src.len(),
            lines_view(lines@).push(line@) == layout_lines_of(src, runs@, k as int),
        decreases runs@.len() - k,
    {
        let run = &runs[k];
        proof {
            lemma_lines_nonempty(src, runs@, k as int);
        }
        let ghost before = lines_view(lines@).push(line@);
        if run.adjustment.is_none() {
            let finished = line;
            lines.push(finished);
            line = Vec::new();
            assert(lines_view(lines@) =~= before);
            assert(lines_view(lines@).push(line@) =~= before.push(Seq::empty()));
        } else {
            let ghost line_before = line@;
            let mut p = run.chars.start;
            while p < run.chars.end
                invariant
                    run.chars.start <= p <= run.chars.end <= src.len(),
                    src == parsed.source@,
                    line@ == line_before + run_characters(src, run.chars.start as int, p as int, k as int),
                decreases run.chars.end - p,
            {
                if !is_control(parsed.source[p]) {
                    line.push(LayoutCharacter { index: p, run: k });
                }
                p += 1;
            }
            assert(lines_view(lines@).push(line@) =~= before.update(
                before.len() - 1,
                before.last() + run_characters(src, run.chars.start as int, run.chars.end as int, k as int),
            ));
        }
        k += 1;
    }
    lines.push(line);
    proof {
        lemma_layout_lines_shape(src, runs@, runs@.len() as int);
    }
    lines
}

/// A character that leaves ink: neither white space nor a control
/// character.
pub open spec fn visible_layout_character(c: char) -> bool {
    !white_space_codepoint(c as u32) && !control_codepoint(c as u32)
}

/// Whether a character leaves ink: it is neither white space nor a control
/// character.
pub fn is_visible_layout_character(character: char) -> (visible: bool)
    ensures
        visible == visible_layout_character(character),
{
    !is_white_space(character) && !is_control(character)
}

/// The font a character is drawn with: where the input has chosen the font,
/// the font in force (or the object's); otherwise the adjustment's family,
/// or the object's font where that is empty.
pub open spec fn spec_layout_font_family(
    parsed: &ParsedControlText,
    format: TextFormatState,
    adjustment_family: Seq<char>,
    base_family: Option<Seq<char>>,
) -> Option<Seq<char>> {
    if format.effective_font_state_spec().input_override {
        match format.effective_font_state_spec().current_value {
            Some(value) => Some(value_chars(parsed, Some(value))),
            None => base_family,
        }
    } else if adjustment_family.len() == 0 {
        base_family
    } else {
        Some(adjustment_family)
    }
}

/// The font a character is drawn with, as `spec_layout_font_family` says.
pub fn layout_font_family(
    parsed: &ParsedControlText,
    format: &TextFormatState,
    adjustment_family: &str,
    base_family: Option<&str>,
) -> (family: Option<String>)
    ensures
        match family {
            Some(f) => spec_layout_font_family(
                parsed,
                *format,
                adjustment_family@,
                match base_family {
                    Some(b) => Some(b@),
                    None => None,
                },
            ) == Some(f@),
            None => spec_layout_font_family(
                parsed,
                *format,
                adjustment_family@,
                match base_family {
                    Some(b) => Some(b@),
                    None => None,
                },
            ) is None,
        },
{
    let base = match base_family {
        Some(b) => Some(b.to_string()),
        None => None,
    };
    if !format.profile_font_allowed() {
        match format.effective_font_family() {
            Some(value) => match parsed.value_text(value) {
                Some(text) => Some(text),
                None => Some(String::new()),
            },
            None => base,
        }
    } else if adjustment_family.is_empty() {
        base
    } else {
        Some(adjustment_family.to_string())
    }
}

} // verus!
