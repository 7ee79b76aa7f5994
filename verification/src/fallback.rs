//! Choosing, among a character class's candidate fonts, the one that draws a
//! character.
//!
//! Whether a font has a glyph is asked of the host's font manager, one
//! candidate at a time; the search below decides which candidate to ask
//! next and when to stop, so that the asking stays with the caller.
use vstd::prelude::*;

verus! {

/// Candidates with an empty family name leave the font alone and are never
/// asked about.
pub open spec fn usable_candidates(families: Seq<String>) -> Seq<bool> {
    families.map_values(|family: String| family@.len() > 0)
}

/// The last usable candidate before `k`.
pub open spec fn last_usable(usable: Seq<bool>, k: int) -> Option<usize>
    decreases k,
{
    if k <= 0 {
        None
    } else if usable[k - 1] {
        Some((k - 1) as usize)
    } else {
        last_usable(usable, k - 1)
    }
}

/// The first usable candidate before `k` whose answer is `wanted`.
pub open spec fn first_answering(
    usable: Seq<bool>,
    answers: Seq<Option<bool>>,
    k: int,
    wanted: Option<bool>,
) -> Option<usize>
    decreases k,
{
    if k <= 0 {
        None
    } else {
        match first_answering(usable, answers, k - 1, wanted) {
            Some(i) => Some(i),
            None => if usable[k - 1] && answers[k - 1] == wanted {
                Some((k - 1) as usize)
            } else {
                None
            },
        }
    }
}

/// The candidate that draws the character: the first usable candidate that
/// has the glyph; failing that, the first one whose coverage could not be
/// determined; failing that, the last usable one. `None` when no candidate
/// is usable, in which case the font is left alone.
pub open spec fn select_candidate(usable: Seq<bool>, answers: Seq<Option<bool>>) -> Option<usize> {
    let n = usable.len() as int;
    match first_answering(usable, answers, n, Some(true)) {
        Some(i) => Some(i),
        None => match first_answering(usable, answers, n, None) {
            Some(i) => Some(i),
            None => last_usable(usable, n),
        },
    }
}

/// How far the search has come: candidates before `next` have been asked
/// (or skipped), and none of them had the glyph.
#[derive(Clone, Copy, Debug, PartialEq, Eq, Structural)]
pub struct FallbackSearch {
    pub next: usize,
    pub last: Option<usize>,
    pub first_unknown: Option<usize>,
}

/// What the search wants next.
#[derive(Clone, Copy, Debug, PartialEq, Eq, Structural)]
pub enum FallbackStep {
    /// Ask whether candidate `index` has the glyph.
    Query(usize),
    /// The search is over; `None` leaves the font alone.
    Done(Option<usize>),
}

/// The outcome of one answer.
#[derive(Clone, Copy, Debug, PartialEq, Eq, Structural)]
pub enum FallbackProgress {
    /// This candidate has the glyph.
    Found(usize),
    /// Keep searching.
    Continue(FallbackSearch),
}

/// The first usable candidate at or after `from`.
pub open spec fn next_usable(usable: Seq<bool>, from: int) -> Option<usize>
    decreases usable.len() - from,
{
    if from < 0 || from >= usable.len() {
        None
    } else if usable[from] {
        Some(from as usize)
    } else {
        next_usable(usable, from + 1)
    }
}

pub open spec fn spec_initial_search() -> FallbackSearch {
    FallbackSearch { next: 0, last: None, first_unknown: None }
}

pub open spec fn spec_next_step(usable: Seq<bool>, search: FallbackSearch) -> FallbackStep {
    match next_usable(usable, search.next as int) {
        Some(i) => FallbackStep::Query(i),
        None => FallbackStep::Done(
            match search.first_unknown {
                Some(u) => Some(u),
                None => search.last,
            },
        ),
    }
}

pub open spec fn spec_record_answer(search: FallbackSearch, index: usize, answer: Option<bool>) -> FallbackProgress {
    if answer == Some(true) {
        FallbackProgress::Found(index)
    } else {
        FallbackProgress::Continue(
            FallbackSearch {
                next: (index + 1) as usize,
                last: Some(index),
                first_unknown: if search.first_unknown is None && answer is None {
                    Some(index)
                } else {
                    search.first_unknown
                },
            },
        )
    }
}

pub proof fn lemma_next_usable_bounds(usable: Seq<bool>, from: int)
    requires
        0 <= from,
        usable.len() <= usize::MAX,
    ensures
        next_usable(usable, from) matches Some(i) ==> from <= i < usable.len() && usable[i as int]
            && forall|j: int| from <= j < i ==> !usable[j],
        next_usable(usable, from) is None ==> forall|j: int| from <= j < usable.len() ==> !usable[j],
    decreases usable.len() - from,
{
    if from < usable.len() && !usable[from] {
        lemma_next_usable_bounds(usable, from + 1);
    }
}

/// Running the search with the answers that the font manager gives.
pub open spec fn run_search(usable: Seq<bool>, answers: Seq<Option<bool>>, search: FallbackSearch) -> Option<
    usize,
>
    decreases usable.len() - search.next,
{
    match spec_next_step(usable, search) {
        FallbackStep::Done(r) => r,
        FallbackStep::Query(i) => {
            if i < search.next || i >= usable.len() || i == usize::MAX {
                None
            } else {
                match spec_record_answer(search, i, answers[i as int]) {
                    FallbackProgress::Found(f) => Some(f),
                    FallbackProgress::Continue(s) => run_search(usable, answers, s),
                }
            }
        },
    }
}

proof fn lemma_skip_unusable(usable: Seq<bool>, answers: Seq<Option<bool>>, a: int, b: int)
    requires
        0 <= a <= b <= usable.len(),
        forall|j: int| a <= j < b ==> !usable[j],
    ensures
        last_usable(usable, b) == last_usable(usable, a),
        first_answering(usable, answers, b, Some(true)) == first_answering(usable, answers, a, Some(true)),
        first_answering(usable, answers, b, None) == first_answering(usable, answers, a, None),
    decreases b - a,
{
    if a < b {
        lemma_skip_unusable(usable, answers, a, b - 1);
    }
}

proof fn lemma_first_answering_stays(
    usable: Seq<bool>,
    answers: Seq<Option<bool>>,
    a: int,
    b: int,
    wanted: Option<bool>,
)
    requires
        0 <= a <= b,
        first_answering(usable, answers, a, wanted) is Some,
    ensures
        first_answering(usable, answers, b, wanted) == first_answering(usable, answers, a, wanted),
    decreases b - a,
{
    if a < b {
        lemma_first_answering_stays(usable, answers, a, b - 1, wanted);
    }
}

/// The search state summarises the answers before `next`.
pub open spec fn search_summarizes(usable: Seq<bool>, answers: Seq<Option<bool>>, search: FallbackSearch) -> bool {
    &&& search.next <= usable.len()
    &&& search.last == last_usable(usable, search.next as int)
    &&& search.first_unknown == first_answering(usable, answers, search.next as int, None)
    &&& first_answering(usable, answers, search.next as int, Some(true)) is None
}

pub proof fn lemma_run_search_from(usable: Seq<bool>, answers: Seq<Option<bool>>, search: FallbackSearch)
    requires
        answers.len() == usable.len(),
        usable.len() <= usize::MAX,
        search_summarizes(usable, answers, search),
    ensures
        run_search(usable, answers, search) == select_candidate(usable, answers),
    decreases usable.len() - search.next,
{
    let n = usable.len() as int;
    lemma_next_usable_bounds(usable, search.next as int);
    match next_usable(usable, search.next as int) {
        None => {
            lemma_skip_unusable(usable, answers, search.next as int, n);
        },
        Some(i) => {
            lemma_skip_unusable(usable, answers, search.next as int, i as int);
            let answer = answers[i as int];
            if answer == Some(true) {
                assert(first_answering(usable, answers, i + 1, Some(true)) == Some(i));
                lemma_first_answering_stays(usable, answers, i + 1, n, Some(true));
            } else {
                let next = FallbackSearch {
                    next: (i + 1) as usize,
                    last: Some(i),
                    first_unknown: if search.first_unknown is None && answer is None {
                        Some(i)
                    } else {
                        search.first_unknown
                    },
                };
                assert(spec_record_answer(search, i, answer) == FallbackProgress::Continue(next));
                assert(search_summarizes(usable, answers, next));
                lemma_run_search_from(usable, answers, next);
            }
        },
    }
}

/// Asking the candidates in the order that the search chooses, and stopping
/// where it stops, selects `select_candidate`: the first candidate with the
/// glyph, else the first whose coverage is unknown, else the last usable one.
pub proof fn lemma_search_selects(usable: Seq<bool>, answers: Seq<Option<bool>>)
    requires
        answers.len() == usable.len(),
        usable.len() <= usize::MAX,
    ensures
        run_search(usable, answers, spec_initial_search()) == select_candidate(usable, answers),
{
    lemma_run_search_from(usable, answers, spec_initial_search());
}

/// One answer that is not "has the glyph" moves the search on, and the new
/// state summarises the answers up to the candidate asked.
pub proof fn lemma_step_summarizes(
    usable: Seq<bool>,
    answers: Seq<Option<bool>>,
    search: FallbackSearch,
    i: usize,
)
    requires
        answers.len() == usable.len(),
        usable.len() <= usize::MAX,
        search_summarizes(usable, answers, search),
        next_usable(usable, search.next as int) == Some(i),
    ensures
        match spec_record_answer(search, i, answers[i as int]) {
            FallbackProgress::Continue(next) => search_summarizes(usable, answers, next)
                && search.next < next.next,
            FallbackProgress::Found(_) => true,
        },
{
    lemma_next_usable_bounds(usable, search.next as int);
    lemma_skip_unusable(usable, answers, search.next as int, i as int);
}

proof fn lemma_answering_in_range(
    usable: Seq<bool>,
    answers: Seq<Option<bool>>,
    k: int,
    wanted: Option<bool>,
)
    requires
        k <= usable.len() <= usize::MAX,
    ensures
        first_answering(usable, answers, k, wanted) matches Some(i) ==> i < k && usable[i as int],
        last_usable(usable, k) matches Some(i) ==> i < k && usable[i as int],
    decreases k,
{
    if k > 0 {
        lemma_answering_in_range(usable, answers, k - 1, wanted);
    }
}

/// The selected candidate is one of the usable candidates.
pub proof fn lemma_select_in_range(usable: Seq<bool>, answers: Seq<Option<bool>>)
    requires
        usable.len() <= usize::MAX,
    ensures
        select_candidate(usable, answers) matches Some(i) ==> i < usable.len() && usable[i as int],
{
    lemma_answering_in_range(usable, answers, usable.len() as int, Some(true));
    lemma_answering_in_range(usable, answers, usable.len() as int, None);
}

/// The family names of the candidates.
pub open spec fn family_names(families: Seq<String>) -> Seq<Seq<char>> {
    families.map_values(|family: String| family@)
}

/// Candidates with a family name.
pub open spec fn usable_names(names: Seq<Seq<char>>) -> Seq<bool> {
    names.map_values(|name: Seq<char>| name.len() > 0)
}

/// The questions that the search asks about the first `k` candidates, each
/// with its answer: the family, the character and the answer, for every
/// candidate with a family, in order, up to and including the first one
/// that has the glyph.
pub open spec fn questions_before(
    names: Seq<Seq<char>>,
    character: char,
    answers: Seq<Option<bool>>,
    k: int,
) -> Seq<(Seq<char>, char, Option<bool>)>
    decreases k,
{
    if k <= 0 {
        Seq::empty()
    } else {
        let earlier = questions_before(names, character, answers, k - 1);
        if names[k - 1].len() > 0 && first_answering(usable_names(names), answers, k - 1, Some(true))
            is None {
            earlier.push((names[k - 1], character, answers[k - 1]))
        } else {
            earlier
        }
    }
}

/// All the questions that the search asks about `character`, in order.
pub open spec fn search_log(names: Seq<Seq<char>>, character: char, answers: Seq<Option<bool>>) -> Seq<
    (Seq<char>, char, Option<bool>),
> {
    questions_before(names, character, answers, names.len() as int)
}

/// An answer about candidate `i` changes nothing about the candidates
/// before it.
pub proof fn lemma_first_answering_frame(
    usable: Seq<bool>,
    answers: Seq<Option<bool>>,
    k: int,
    i: int,
    answer: Option<bool>,
    wanted: Option<bool>,
)
    requires
        0 <= k <= i < answers.len(),
    ensures
        first_answering(usable, answers.update(i, answer), k, wanted) == first_answering(
            usable,
            answers,
            k,
            wanted,
        ),
    decreases k,
{
    if k > 0 {
        lemma_first_answering_frame(usable, answers, k - 1, i, answer, wanted);
    }
}

proof fn lemma_questions_frame(
    names: Seq<Seq<char>>,
    character: char,
    answers: Seq<Option<bool>>,
    k: int,
    i: int,
    answer: Option<bool>,
)
    requires
        0 <= k <= i < answers.len(),
    ensures
        questions_before(names, character, answers.update(i, answer), k) == questions_before(
            names,
            character,
            answers,
            k,
        ),
    decreases k,
{
    if k > 0 {
        lemma_questions_frame(names, character, answers, k - 1, i, answer);
        lemma_first_answering_frame(usable_names(names), answers, k - 1, i, answer, Some(true));
    }
}

proof fn lemma_questions_skip(
    names: Seq<Seq<char>>,
    character: char,
    answers: Seq<Option<bool>>,
    a: int,
    b: int,
)
    requires
        0 <= a <= b <= names.len(),
        forall|j: int| a <= j < b ==> !usable_names(names)[j],
    ensures
        questions_before(names, character, answers, b) == questions_before(names, character, answers, a),
    decreases b - a,
{
    if a < b {
        lemma_questions_skip(names, character, answers, a, b - 1);
        assert(!usable_names(names)[b - 1]);
    }
}

proof fn lemma_questions_after_found(
    names: Seq<Seq<char>>,
    character: char,
    answers: Seq<Option<bool>>,
    a: int,
    b: int,
)
    requires
        0 <= a <= b,
        first_answering(usable_names(names), answers, a, Some(true)) is Some,
    ensures
        questions_before(names, character, answers, b) == questions_before(names, character, answers, a),
    decreases b - a,
{
    if a < b {
        lemma_questions_after_found(names, character, answers, a, b - 1);
        lemma_first_answering_stays(usable_names(names), answers, a, b - 1, Some(true));
    }
}

/// Asking about candidate `i`, the next one the search chooses, adds that
/// question to the log.
pub proof fn lemma_question_step(
    names: Seq<Seq<char>>,
    character: char,
    answers: Seq<Option<bool>>,
    search: FallbackSearch,
    i: usize,
    answer: Option<bool>,
)
    requires
        answers.len() == names.len(),
        names.len() <= usize::MAX,
        search_summarizes(usable_names(names), answers, search),
        next_usable(usable_names(names), search.next as int) == Some(i),
    ensures
        questions_before(names, character, answers.update(i as int, answer), i + 1)
            == questions_before(names, character, answers, search.next as int).push(
            (names[i as int], character, answer),
        ),
        answer == Some(true) ==> search_log(names, character, answers.update(i as int, answer))
            == questions_before(names, character, answers.update(i as int, answer), i + 1),
{
    let usable = usable_names(names);
    let updated = answers.update(i as int, answer);
    lemma_next_usable_bounds(usable, search.next as int);
    lemma_skip_unusable(usable, answers, search.next as int, i as int);
    lemma_questions_skip(names, character, answers, search.next as int, i as int);
    lemma_questions_frame(names, character, answers, i as int, i as int, answer);
    lemma_first_answering_frame(usable, answers, i as int, i as int, answer, Some(true));
    assert(usable[i as int]);
    if answer == Some(true) {
        assert(first_answering(usable, updated, i + 1, Some(true)) == Some(i));
        lemma_questions_after_found(names, character, updated, i + 1, names.len() as int);
    }
}

/// When the search ends without finding the glyph, it has asked about
/// every candidate with a family.
pub proof fn lemma_question_done(
    names: Seq<Seq<char>>,
    character: char,
    answers: Seq<Option<bool>>,
    search: FallbackSearch,
)
    requires
        names.len() <= usize::MAX,
        search.next <= names.len(),
        next_usable(usable_names(names), search.next as int) is None,
    ensures
        search_log(names, character, answers) == questions_before(
            names,
            character,
            answers,
            search.next as int,
        ),
{
    lemma_next_usable_bounds(usable_names(names), search.next as int);
    lemma_questions_skip(names, character, answers, search.next as int, names.len() as int);
}

/// A search that has asked nothing yet.
pub fn fallback_start() -> (search: FallbackSearch)
    ensures
        search == spec_initial_search(),
{
    FallbackSearch { next: 0, last: None, first_unknown: None }
}

/// The next candidate to ask about, or the end of the search.
pub fn fallback_next(families: &Vec<String>, search: FallbackSearch) -> (step: FallbackStep)
    ensures
        step == spec_next_step(usable_candidates(families@), search),
{
    let ghost usable = usable_candidates(families@);
    let mut i = search.next;
    while i < families.len()
        invariant
            usable == usable_candidates(families@),
            search.next <= i <= families@.len() || (i == search.next && search.next > families@.len()),
            next_usable(usable, search.next as int) == next_usable(usable, i as int),
        decreases families@.len() - i,
    {
        if !families[i].as_str().is_empty() {
            assert(usable[i as int]);
            return FallbackStep::Query(i);
        }
        assert(!usable[i as int]);
        i += 1;
    }
    match search.first_unknown {
        Some(u) => FallbackStep::Done(Some(u)),
        None => FallbackStep::Done(search.last),
    }
}

/// Takes the font manager's answer for candidate `index`: `Some(true)` when
/// it has the glyph, `Some(false)` when it lacks it, `None` when unknown.
pub fn fallback_answer(search: FallbackSearch, index: usize, answer: Option<bool>) -> (progress: FallbackProgress)
    requires
        index < usize::MAX,
    ensures
        progress == spec_record_answer(search, index, answer),
{
    match answer {
        Some(true) => FallbackProgress::Found(index),
        _ => {
            let first_unknown = match (search.first_unknown, answer) {
                (None, None) => Some(index),
                _ => search.first_unknown,
            };
            FallbackProgress::Continue(
                FallbackSearch { next: index + 1, last: Some(index), first_unknown },
            )
        },
    }
}

} // verus!
