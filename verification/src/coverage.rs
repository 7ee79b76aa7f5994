//! Asking which fonts have a glyph, and picking the adjustment that draws a
//! character.
use vstd::prelude::*;
use crate::classify::{CharacterClass, class_name, class_of, classify_character};
use crate::control_text::TextFormatState;
use crate::fallback::{
    FallbackProgress, FallbackSearch, FallbackStep, fallback_answer, fallback_next, fallback_start,
    family_names, lemma_first_answering_frame, lemma_next_usable_bounds, lemma_question_done,
    lemma_question_step, lemma_run_search_from, questions_before, search_log, search_summarizes,
    select_candidate, usable_candidates, usable_names,
};
use crate::profile::{
    CompositeFontProfile, FontAdjustment, FontAdjustmentView, ProfileView, ResolvedFont,
    adjustments_view, candidate_views,
};
use crate::text::{decimal_digits, push_decimal, push_str};

verus! {

/// A question asked of a glyph coverage: the font family, the character,
/// and the answer given.
pub type GlyphQuestion = (Seq<char>, char, Option<bool>);

/// Tells whether a font has a glyph for a character.
///
/// A coverage may record the questions asked of it, each with its answer;
/// verified code can then state what it asked. A coverage implemented
/// outside verified code keeps the defaults below and records nothing, so
/// nothing is claimed of the questions asked of it.
pub trait GlyphCoverage {
    /// Whether this coverage records the questions asked of it.
    closed spec fn records_queries(&self) -> bool {
        false
    }

    /// The questions recorded so far, in order, with their answers.
    closed spec fn queries(&self) -> Seq<GlyphQuestion> {
        Seq::empty()
    }

    /// `None` means that the font or its coverage could not be queried.
    fn has_glyph(&mut self, font_family: &str, character: char) -> (answer: Option<bool>)
        ensures
            final(self).records_queries() == old(self).records_queries(),
            old(self).records_queries() ==> final(self).queries() == old(self).queries().push(
                (font_family@, character, answer),
            ),
    ;
}

/// Knows no font: every question is answered with "unknown".
#[derive(Clone, Copy)]
pub struct UnknownGlyphCoverage {
    asked: Ghost<Seq<GlyphQuestion>>,
}

impl UnknownGlyphCoverage {
    /// A coverage that has been asked nothing.
    pub fn new() -> (coverage: Self)
        ensures
            coverage.records_queries(),
            coverage.queries() == Seq::<GlyphQuestion>::empty(),
    {
        UnknownGlyphCoverage { asked: Ghost(Seq::empty()) }
    }
}

impl Default for UnknownGlyphCoverage {
    fn default() -> (coverage: Self)
        ensures
            coverage.records_queries(),
            coverage.queries() == Seq::<GlyphQuestion>::empty(),
    {
        UnknownGlyphCoverage::new()
    }
}

impl GlyphCoverage for UnknownGlyphCoverage {
    closed spec fn records_queries(&self) -> bool {
        true
    }

    closed spec fn queries(&self) -> Seq<GlyphQuestion> {
        self.asked@
    }

    fn has_glyph(&mut self, font_family: &str, character: char) -> (answer: Option<bool>)
        ensures
            answer is None,
    {
        self.asked = Ghost(self.asked@.push((font_family@, character, None)));
        None
    }
}

/// Asks the coverage about the candidate families in the order that the
/// fallback search chooses, and returns the candidate it selects for the
/// answers given: the first with the glyph, else the first whose coverage is
/// unknown, else the last one with a family; `None` when no candidate has a
/// family. Each candidate with a family is asked about `character` in turn,
/// until one has the glyph; nothing else is asked.
pub fn select_fallback<C: GlyphCoverage>(
    families: &Vec<String>,
    character: char,
    coverage: &mut C,
) -> (selected: Option<usize>)
    ensures
        exists|answers: Seq<Option<bool>>|
            answers.len() == families@.len() && selected == #[trigger] select_candidate(
                usable_candidates(families@),
                answers,
            ) && (old(coverage).records_queries() ==> final(coverage).queries() == old(
                coverage,
            ).queries() + search_log(family_names(families@), character, answers)),
        final(coverage).records_queries() == old(coverage).records_queries(),
{
    let ghost usable = usable_candidates(families@);
    let ghost names = family_names(families@);
    let ghost start = coverage.queries();
    assert(usable_names(names) =~= usable);
    let count = families.len();
    let ghost n = count as nat;
    let ghost mut answers: Seq<Option<bool>> = Seq::new(n, |i: int| None);
    let mut search = fallback_start();
    assert(search_summarizes(usable, answers, search));
    assert(start + questions_before(names, character, answers, 0) =~= start);
    loop
        invariant
            usable == usable_candidates(families@),
            names == family_names(families@),
            usable_names(names) == usable,
            n == families@.len(),
            n <= usize::MAX,
            answers.len() == n,
            search_summarizes(usable, answers, search),
            start == old(coverage).queries(),
            coverage.records_queries() == old(coverage).records_queries(),
            coverage.records_queries() ==> coverage.queries() == start + questions_before(
                names,
                character,
                answers,
                search.next as int,
            ),
        decreases n - search.next,
    {
        match fallback_next(families, search) {
            FallbackStep::Done(r) => {
                proof {
                    lemma_run_search_from(usable, answers, search);
                    lemma_question_done(names, character, answers, search);
                    assert(r == select_candidate(usable, answers));
                    assert(coverage.records_queries() ==> coverage.queries() == old(coverage).queries()
                        + search_log(names, character, answers));
                }
                return r;
            },
            FallbackStep::Query(i) => {
                proof {
                    lemma_next_usable_bounds(usable, search.next as int);
                }
                let answer = coverage.has_glyph(families[i].as_str(), character);
                proof {
                    let updated = answers.update(i as int, answer);
                    lemma_question_step(names, character, answers, search, i, answer);
                    if coverage.records_queries() {
                        assert(coverage.queries() =~= start + questions_before(
                            names,
                            character,
                            updated,
                            i + 1,
                        ));
                    }
                    lemma_first_answering_frame(usable, answers, search.next as int, i as int, answer, None);
                    lemma_first_answering_frame(
                        usable,
                        answers,
                        search.next as int,
                        i as int,
                        answer,
                        Some(true),
                    );
                    answers = updated;
                    lemma_run_search_from(usable, answers, search);
                }
                match fallback_answer(search, i, answer) {
                    FallbackProgress::Found(f) => {
                        proof {
                            assert(Some(f) == select_candidate(usable, answers));
                            assert(coverage.records_queries() ==> coverage.queries() == old(
                                coverage,
                            ).queries() + search_log(names, character, answers));
                        }
                        return Some(f);
                    },
                    FallbackProgress::Continue(next) => {
                        proof {
                            crate::fallback::lemma_step_summarizes(usable, answers, search, i);
                        }
                        search = next;
                    },
                }
            },
        }
    }
}

/// The family names of the candidates.
pub open spec fn candidate_names<M>(candidates: Seq<FontAdjustmentView<M>>) -> Seq<Seq<char>> {
    candidates.map_values(|a: FontAdjustmentView<M>| a.font_family)
}

/// Candidates whose family is not empty.
pub open spec fn usable_views<M>(candidates: Seq<FontAdjustmentView<M>>) -> Seq<bool> {
    candidates.map_values(|a: FontAdjustmentView<M>| a.font_family.len() > 0)
}

/// The adjustment and candidate position that the selection gives: the
/// neutral adjustment at position 0 where no candidate has a family.
pub open spec fn selected_adjustment<M>(
    candidates: Seq<FontAdjustmentView<M>>,
    answers: Seq<Option<bool>>,
    neutral_metrics: M,
) -> (FontAdjustmentView<M>, usize) {
    match select_candidate(usable_views(candidates), answers) {
        Some(i) => (candidates[i as int], i),
        None => (FontAdjustmentView {
            font_family: Seq::empty(),
            fallback_font_families: Seq::empty(),
            metrics: neutral_metrics,
        }, 0),
    }
}

/// The adjustment that draws `character`, and its position among the
/// class's candidates, as the coverage answers; the coverage is asked about
/// the candidates' families as `select_fallback` asks.
pub fn resolved_adjustment_with_index<M: Copy, C: GlyphCoverage>(
    profile: &CompositeFontProfile<M>,
    character: char,
    coverage: &mut C,
    neutral_metrics: M,
) -> (resolved: (FontAdjustment<M>, usize))
    ensures
        exists|answers: Seq<Option<bool>>|
            answers.len() == candidate_views(profile@, class_of(character)).len() && (
            resolved.0@, resolved.1) == #[trigger] selected_adjustment(
                candidate_views(profile@, class_of(character)),
                answers,
                neutral_metrics,
            ) && (old(coverage).records_queries() ==> final(coverage).queries() == old(
                coverage,
            ).queries() + search_log(
                candidate_names(candidate_views(profile@, class_of(character))),
                character,
                answers,
            )),
        final(coverage).records_queries() == old(coverage).records_queries(),
{
    let class = classify_character(character);
    let candidates = profile.candidates_for_class(class);
    let ghost views = candidate_views(profile@, class);
    let mut families: Vec<String> = Vec::new();
    let mut k: usize = 0;
    while k < candidates.len()
        invariant
            adjustments_view(candidates@) == views,
            k <= candidates@.len(),
            families@.len() == k,
            forall|j: int| 0 <= j < k ==> (#[trigger] families@[j])@ == views[j].font_family,
        decreases candidates@.len() - k,
    {
        assert(adjustments_view(candidates@)[k as int] == candidates@[k as int]@);
        families.push(candidates[k].font_family.clone());
        k += 1;
    }
    assert(usable_candidates(families@) =~= usable_views(views));
    assert(family_names(families@) =~= candidate_names(views));
    let selected = select_fallback(&families, character, coverage);
    match selected {
        Some(i) => {
            proof {
                let answers = choose|answers: Seq<Option<bool>>|
                    answers.len() == families@.len() && selected == select_candidate(
                        usable_candidates(families@),
                        answers,
                    ) && (old(coverage).records_queries() ==> coverage.queries() == old(
                        coverage,
                    ).queries() + search_log(family_names(families@), character, answers));
                crate::fallback::lemma_select_in_range(usable_views(views), answers);
                assert(adjustments_view(candidates@)[i as int] == candidates@[i as int]@);
                assert(selected_adjustment(views, answers, neutral_metrics) == (views[i as int], i));
            }
            (candidates[i].duplicate(), i)
        },
        None => {
            let neutral = FontAdjustment::neutral(neutral_metrics);
            proof {
                let answers = choose|answers: Seq<Option<bool>>|
                    answers.len() == families@.len() && selected == select_candidate(
                        usable_candidates(families@),
                        answers,
                    ) && (old(coverage).records_queries() ==> coverage.queries() == old(
                        coverage,
                    ).queries() + search_log(family_names(families@), character, answers));
                assert(selected_adjustment(views, answers, neutral_metrics).0 == neutral@);
            }
            (neutral, 0)
        },
    }
}

/// The class's own adjustment without fallbacks; the neutral one where the
/// class names no font.
pub open spec fn fixed_adjustment<M>(profile: ProfileView<M>, class: CharacterClass, neutral_metrics: M) -> FontAdjustmentView<M> {
    let own = profile.adjustment(class);
    if own.font_family.len() == 0 {
        FontAdjustmentView {
            font_family: Seq::empty(),
            fallback_font_families: Seq::empty(),
            metrics: neutral_metrics,
        }
    } else {
        FontAdjustmentView { fallback_font_families: Seq::empty(), ..own }
    }
}

/// The adjustment for a character under the input's format. Where the
/// input leaves the font to the profile, it is the one that the fallback
/// search selects as the coverage answers. Where the input has chosen the
/// font, nothing is asked of the coverage: it is the class's own adjustment
/// without fallbacks, or the neutral one where the class names no font.
pub fn resolved_adjustment_for_format<M: Copy, C: GlyphCoverage>(
    profile: &CompositeFontProfile<M>,
    character: char,
    format: &TextFormatState,
    coverage: &mut C,
    neutral_metrics: M,
) -> (adjustment: FontAdjustment<M>)
    ensures
        format.effective_font_state_spec().input_override ==> adjustment@ == fixed_adjustment(
            profile@,
            class_of(character),
            neutral_metrics,
        ) && final(coverage).queries() == old(coverage).queries(),
        final(coverage).records_queries() == old(coverage).records_queries(),
        !format.effective_font_state_spec().input_override ==> exists|answers: Seq<Option<bool>>|
            answers.len() == candidate_views(profile@, class_of(character)).len() && adjustment@
                == (#[trigger] selected_adjustment(
                candidate_views(profile@, class_of(character)),
                answers,
                neutral_metrics,
            )).0 && (old(coverage).records_queries() ==> final(coverage).queries() == old(
                coverage,
            ).queries() + search_log(
                candidate_names(candidate_views(profile@, class_of(character))),
                character,
                answers,
            )),
{
    if format.profile_font_allowed() {
        let (adjustment, _index) = resolved_adjustment_with_index(
            profile,
            character,
            coverage,
            neutral_metrics,
        );
        adjustment
    } else {
        let own = profile.adjustment_for(classify_character(character));
        if own.font_family.as_str().is_empty() {
            FontAdjustment::neutral(neutral_metrics)
        } else {
            let adjustment = FontAdjustment {
                font_family: own.font_family.clone(),
                fallback_font_families: Vec::new(),
                metrics: own.metrics,
            };
            assert(adjustment@.fallback_font_families =~= Seq::<Seq<char>>::empty());
            adjustment
        }
    }
}

/// The rule that chose a candidate: the class's name, with `:fallback:`
/// and the candidate's position after it when a later candidate was chosen.
pub open spec fn rule_id_for(class: CharacterClass, index: usize) -> Seq<char> {
    if index == 0 {
        class_name(class)
    } else {
        class_name(class) + ":fallback:"@ + decimal_digits(index as nat)
    }
}

/// Resolves a character against a profile as the coverage answers: the
/// font and metrics of the adjustment that draws it, the class's name, and
/// the rule that chose the adjustment.
pub fn resolve_with_coverage<M: Copy, C: GlyphCoverage>(
    profile: &CompositeFontProfile<M>,
    codepoint: char,
    coverage: &mut C,
    neutral_metrics: M,
) -> (resolved: ResolvedFont<M>)
    ensures
        resolved.category@ == class_name(class_of(codepoint)),
        exists|answers: Seq<Option<bool>>|
            answers.len() == candidate_views(profile@, class_of(codepoint)).len() && {
                let (adjustment, index) = #[trigger] selected_adjustment(
                    candidate_views(profile@, class_of(codepoint)),
                    answers,
                    neutral_metrics,
                );
                &&& resolved.font_family@ == adjustment.font_family
                &&& resolved.metrics == adjustment.metrics
                &&& resolved.rule_id@ == rule_id_for(class_of(codepoint), index)
                &&& old(coverage).records_queries() ==> final(coverage).queries() == old(
                    coverage,
                ).queries() + search_log(
                    candidate_names(candidate_views(profile@, class_of(codepoint))),
                    codepoint,
                    answers,
                )
            },
        final(coverage).records_queries() == old(coverage).records_queries(),
{
    let class = classify_character(codepoint);
    let (adjustment, index) = resolved_adjustment_with_index(
        profile,
        codepoint,
        coverage,
        neutral_metrics,
    );
    let name = class.as_str();
    let mut rule_id = name.to_string();
    if index > 0 {
        push_str(&mut rule_id, ":fallback:");
        push_decimal(&mut rule_id, index);
    }
    assert(rule_id@ == rule_id_for(class, index));
    ResolvedFont {
        font_family: adjustment.font_family,
        metrics: adjustment.metrics,
        category: name.to_string(),
        rule_id,
    }
}

} // verus!
