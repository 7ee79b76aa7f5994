//! Composite font profiles: for every character class a font family with its
//! metric adjustments, and further candidates for characters that the first
//! font lacks.
//!
//! The metric adjustments (size ratio, baseline shift, tracking, scales) are
//! decimal numbers that this library carries without computing with them;
//! they form the type parameter `M`.
use vstd::prelude::*;
use crate::classify::{CharacterClass, class_name, class_of, classify_character};
use crate::codepoint::ResolveError;

verus! {

/// The name of the profile used when a caller names none.
pub const DEFAULT_PROFILE_NAME: &'static str = "default";

/// The version of the saved profile document.
pub const PROFILE_SCHEMA_VERSION: u32 = 1;

/// `"default"`, as a character sequence.
pub open spec fn default_profile_name() -> Seq<char> {
    seq!['d', 'e', 'f', 'a', 'u', 'l', 't']
}

/// The font and the metric adjustments applied to one character class.
#[derive(Debug)]
pub struct FontAdjustment<M> {
    /// An empty family keeps the current font.
    pub font_family: String,
    /// Families tried, in order, with the same metrics when the first one
    /// lacks a glyph (the older way of giving fallbacks).
    pub fallback_font_families: Vec<String>,
    pub metrics: M,
}

/// A font adjustment as plain values.
pub struct FontAdjustmentView<M> {
    pub font_family: Seq<char>,
    pub fallback_font_families: Seq<Seq<char>>,
    pub metrics: M,
}

pub open spec fn strings_view(strings: Seq<String>) -> Seq<Seq<char>> {
    strings.map_values(|s: String| s@)
}

impl<M> View for FontAdjustment<M> {
    type V = FontAdjustmentView<M>;

    open spec fn view(&self) -> FontAdjustmentView<M> {
        FontAdjustmentView {
            font_family: self.font_family@,
            fallback_font_families: strings_view(self.fallback_font_families@),
            metrics: self.metrics,
        }
    }
}

pub open spec fn adjustments_view<M>(adjustments: Seq<FontAdjustment<M>>) -> Seq<FontAdjustmentView<M>> {
    adjustments.map_values(|a: FontAdjustment<M>| a@)
}

/// A copy of a list of strings.
pub fn copy_strings(strings: &Vec<String>) -> (copy: Vec<String>)
    ensures
        copy@ == strings@,
{
    let mut copy: Vec<String> = Vec::new();
    let mut i: usize = 0;
    while i < strings.len()
        invariant
            i <= strings@.len(),
            copy@ == strings@.take(i as int),
        decreases strings@.len() - i,
    {
        copy.push(strings[i].clone());
        assert(copy@ =~= strings@.take(i as int + 1));
        i += 1;
    }
    assert(strings@.take(strings@.len() as int) =~= strings@);
    copy
}

impl<M: Copy> FontAdjustment<M> {
    /// Keeps the font and applies the given (neutral) metrics.
    pub open spec fn neutral_view(neutral_metrics: M) -> FontAdjustmentView<M> {
        FontAdjustmentView {
            font_family: Seq::empty(),
            fallback_font_families: Seq::empty(),
            metrics: neutral_metrics,
        }
    }

    pub fn neutral(neutral_metrics: M) -> (adjustment: Self)
        ensures
            adjustment@ == Self::neutral_view(neutral_metrics),
    {
        let adjustment = FontAdjustment {
            font_family: String::new(),
            fallback_font_families: Vec::new(),
            metrics: neutral_metrics,
        };
        assert(adjustment@.fallback_font_families =~= Seq::<Seq<char>>::empty());
        adjustment
    }

    pub fn duplicate(&self) -> (copy: Self)
        ensures
            copy@ == self@,
    {
        FontAdjustment {
            font_family: self.font_family.clone(),
            fallback_font_families: copy_strings(&self.fallback_font_families),
            metrics: self.metrics,
        }
    }
}

/// A named profile: one adjustment and a list of fallback adjustments for
/// each character class.
#[derive(Debug)]
pub struct CompositeFontProfile<M> {
    pub name: String,
    pub western: FontAdjustment<M>,
    pub western_fallbacks: Vec<FontAdjustment<M>>,
    pub hiragana: FontAdjustment<M>,
    pub hiragana_fallbacks: Vec<FontAdjustment<M>>,
    pub katakana: FontAdjustment<M>,
    pub katakana_fallbacks: Vec<FontAdjustment<M>>,
    pub kanji: FontAdjustment<M>,
    pub kanji_fallbacks: Vec<FontAdjustment<M>>,
    pub digit: FontAdjustment<M>,
    pub digit_fallbacks: Vec<FontAdjustment<M>>,
    pub symbol: FontAdjustment<M>,
    pub symbol_fallbacks: Vec<FontAdjustment<M>>,
    pub other: FontAdjustment<M>,
    pub other_fallbacks: Vec<FontAdjustment<M>>,
}

/// A profile as plain values.
pub struct ProfileView<M> {
    pub name: Seq<char>,
    pub western: FontAdjustmentView<M>,
    pub western_fallbacks: Seq<FontAdjustmentView<M>>,
    pub hiragana: FontAdjustmentView<M>,
    pub hiragana_fallbacks: Seq<FontAdjustmentView<M>>,
    pub katakana: FontAdjustmentView<M>,
    pub katakana_fallbacks: Seq<FontAdjustmentView<M>>,
    pub kanji: FontAdjustmentView<M>,
    pub kanji_fallbacks: Seq<FontAdjustmentView<M>>,
    pub digit: FontAdjustmentView<M>,
    pub digit_fallbacks: Seq<FontAdjustmentView<M>>,
    pub symbol: FontAdjustmentView<M>,
    pub symbol_fallbacks: Seq<FontAdjustmentView<M>>,
    pub other: FontAdjustmentView<M>,
    pub other_fallbacks: Seq<FontAdjustmentView<M>>,
}

impl<M> ProfileView<M> {
    /// The adjustment for a class.
    pub open spec fn adjustment(self, class: CharacterClass) -> FontAdjustmentView<M> {
        match class {
            CharacterClass::Western => self.western,
            CharacterClass::Hiragana => self.hiragana,
            CharacterClass::Katakana => self.katakana,
            CharacterClass::Kanji => self.kanji,
            CharacterClass::Digit => self.digit,
            CharacterClass::Symbol => self.symbol,
            CharacterClass::Other => self.other,
        }
    }

    /// The fallback adjustments for a class.
    pub open spec fn fallbacks(self, class: CharacterClass) -> Seq<FontAdjustmentView<M>> {
        match class {
            CharacterClass::Western => self.western_fallbacks,
            CharacterClass::Hiragana => self.hiragana_fallbacks,
            CharacterClass::Katakana => self.katakana_fallbacks,
            CharacterClass::Kanji => self.kanji_fallbacks,
            CharacterClass::Digit => self.digit_fallbacks,
            CharacterClass::Symbol => self.symbol_fallbacks,
            CharacterClass::Other => self.other_fallbacks,
        }
    }

    /// The profile with the adjustment for `class` replaced.
    pub open spec fn with_adjustment(self, class: CharacterClass, adjustment: FontAdjustmentView<M>) -> Self {
        match class {
            CharacterClass::Western => ProfileView { western: adjustment, ..self },
            CharacterClass::Hiragana => ProfileView { hiragana: adjustment, ..self },
            CharacterClass::Katakana => ProfileView { katakana: adjustment, ..self },
            CharacterClass::Kanji => ProfileView { kanji: adjustment, ..self },
            CharacterClass::Digit => ProfileView { digit: adjustment, ..self },
            CharacterClass::Symbol => ProfileView { symbol: adjustment, ..self },
            CharacterClass::Other => ProfileView { other: adjustment, ..self },
        }
    }
}

impl<M> View for CompositeFontProfile<M> {
    type V = ProfileView<M>;

    open spec fn view(&self) -> ProfileView<M> {
        ProfileView {
            name: self.name@,
            western: self.western@,
            western_fallbacks: adjustments_view(self.western_fallbacks@),
            hiragana: self.hiragana@,
            hiragana_fallbacks: adjustments_view(self.hiragana_fallbacks@),
            katakana: self.katakana@,
            katakana_fallbacks: adjustments_view(self.katakana_fallbacks@),
            kanji: self.kanji@,
            kanji_fallbacks: adjustments_view(self.kanji_fallbacks@),
            digit: self.digit@,
            digit_fallbacks: adjustments_view(self.digit_fallbacks@),
            symbol: self.symbol@,
            symbol_fallbacks: adjustments_view(self.symbol_fallbacks@),
            other: self.other@,
            other_fallbacks: adjustments_view(self.other_fallbacks@),
        }
    }
}

/// A character resolved against a profile: the adjustment to apply and the
/// class that chose it.
#[derive(Debug)]
pub struct ResolvedFont<M> {
    pub font_family: String,
    pub metrics: M,
    pub category: String,
    pub rule_id: String,
}

impl<M: Copy> CompositeFontProfile<M> {
    /// The profile named `default` that keeps every font and applies the
    /// given neutral metrics.
    pub fn neutral_default(neutral_metrics: M) -> (profile: Self)
        ensures
            profile@.name == default_profile_name(),
            forall|class: CharacterClass|
                {
                    &&& #[trigger] profile@.adjustment(class) == FontAdjustment::<M>::neutral_view(neutral_metrics)
                    &&& profile@.fallbacks(class) == Seq::<FontAdjustmentView<M>>::empty()
                },
    {
        let profile = CompositeFontProfile {
            name: default_name(),
            western: FontAdjustment::neutral(neutral_metrics),
            western_fallbacks: Vec::new(),
            hiragana: FontAdjustment::neutral(neutral_metrics),
            hiragana_fallbacks: Vec::new(),
            katakana: FontAdjustment::neutral(neutral_metrics),
            katakana_fallbacks: Vec::new(),
            kanji: FontAdjustment::neutral(neutral_metrics),
            kanji_fallbacks: Vec::new(),
            digit: FontAdjustment::neutral(neutral_metrics),
            digit_fallbacks: Vec::new(),
            symbol: FontAdjustment::neutral(neutral_metrics),
            symbol_fallbacks: Vec::new(),
            other: FontAdjustment::neutral(neutral_metrics),
            other_fallbacks: Vec::new(),
        };
        assert(adjustments_view(profile.western_fallbacks@) =~= Seq::<FontAdjustmentView<M>>::empty());
        assert(adjustments_view(profile.hiragana_fallbacks@) =~= Seq::<FontAdjustmentView<M>>::empty());
        assert(adjustments_view(profile.katakana_fallbacks@) =~= Seq::<FontAdjustmentView<M>>::empty());
        assert(adjustments_view(profile.kanji_fallbacks@) =~= Seq::<FontAdjustmentView<M>>::empty());
        assert(adjustments_view(profile.digit_fallbacks@) =~= Seq::<FontAdjustmentView<M>>::empty());
        assert(adjustments_view(profile.symbol_fallbacks@) =~= Seq::<FontAdjustmentView<M>>::empty());
        assert(adjustments_view(profile.other_fallbacks@) =~= Seq::<FontAdjustmentView<M>>::empty());
        profile
    }

    pub fn adjustment_for(&self, class: CharacterClass) -> (adjustment: &FontAdjustment<M>)
        ensures
            adjustment@ == self@.adjustment(class),
    {
        match class {
            CharacterClass::Western => &self.western,
            CharacterClass::Hiragana => &self.hiragana,
            CharacterClass::Katakana => &self.katakana,
            CharacterClass::Kanji => &self.kanji,
            CharacterClass::Digit => &self.digit,
            CharacterClass::Symbol => &self.symbol,
            CharacterClass::Other => &self.other,
        }
    }

    /// The adjustment for a class, to change in place.
    pub fn adjustment_for_mut(&mut self, class: CharacterClass) -> (adjustment: &mut FontAdjustment<M>)
        ensures
            (*adjustment)@ == old(self)@.adjustment(class),
            final(self)@ == old(self)@.with_adjustment(class, (*final(adjustment))@),
    {
        match class {
            CharacterClass::Western => &mut self.western,
            CharacterClass::Hiragana => &mut self.hiragana,
            CharacterClass::Katakana => &mut self.katakana,
            CharacterClass::Kanji => &mut self.kanji,
            CharacterClass::Digit => &mut self.digit,
            CharacterClass::Symbol => &mut self.symbol,
            CharacterClass::Other => &mut self.other,
        }
    }

    /// Replaces the adjustment for a class.
    pub fn set_adjustment(&mut self, class: CharacterClass, adjustment: FontAdjustment<M>)
        ensures
            final(self)@ == old(self)@.with_adjustment(class, adjustment@),
    {
        match class {
            CharacterClass::Western => self.western = adjustment,
            CharacterClass::Hiragana => self.hiragana = adjustment,
            CharacterClass::Katakana => self.katakana = adjustment,
            CharacterClass::Kanji => self.kanji = adjustment,
            CharacterClass::Digit => self.digit = adjustment,
            CharacterClass::Symbol => self.symbol = adjustment,
            CharacterClass::Other => self.other = adjustment,
        }
    }

    pub fn fallbacks_for(&self, class: CharacterClass) -> (fallbacks: &Vec<FontAdjustment<M>>)
        ensures
            adjustments_view(fallbacks@) == self@.fallbacks(class),
    {
        match class {
            CharacterClass::Western => &self.western_fallbacks,
            CharacterClass::Hiragana => &self.hiragana_fallbacks,
            CharacterClass::Katakana => &self.katakana_fallbacks,
            CharacterClass::Kanji => &self.kanji_fallbacks,
            CharacterClass::Digit => &self.digit_fallbacks,
            CharacterClass::Symbol => &self.symbol_fallbacks,
            CharacterClass::Other => &self.other_fallbacks,
        }
    }

    /// The adjustment for the character's class, named by that class.
    pub fn resolve(&self, codepoint: char) -> (resolved: ResolvedFont<M>)
        ensures
            resolved.font_family@ == self@.adjustment(class_of(codepoint)).font_family,
            resolved.metrics == self@.adjustment(class_of(codepoint)).metrics,
            resolved.category@ == class_name(class_of(codepoint)),
            resolved.rule_id@ == class_name(class_of(codepoint)),
    {
        let class = classify_character(codepoint);
        let adjustment = self.adjustment_for(class);
        let class_name = class.as_str();
        ResolvedFont {
            font_family: adjustment.font_family.clone(),
            metrics: adjustment.metrics,
            category: class_name.to_owned(),
            rule_id: class_name.to_owned(),
        }
    }
}

/// A new `"default"` string.
pub fn default_name() -> (name: String)
    ensures
        name@ == default_profile_name(),
{
    proof {
        reveal_strlit("default");
    }
    assert(DEFAULT_PROFILE_NAME@ == default_profile_name());
    DEFAULT_PROFILE_NAME.to_owned()
}

/// The candidates tried, in order, for a character of `class`: the class's
/// adjustment, its fallback adjustments, then the older fallback families
/// with the class's own metrics. No candidate keeps a fallback family list.
pub open spec fn candidate_views<M>(profile: ProfileView<M>, class: CharacterClass) -> Seq<FontAdjustmentView<M>> {
    let primary = FontAdjustmentView {
        fallback_font_families: Seq::empty(),
        ..profile.adjustment(class)
    };
    seq![primary] + profile.fallbacks(class).map_values(
        |a: FontAdjustmentView<M>| FontAdjustmentView { fallback_font_families: Seq::empty(), ..a },
    ) + profile.adjustment(class).fallback_font_families.map_values(
        |family: Seq<char>| FontAdjustmentView { font_family: family, ..primary },
    )
}

impl<M: Copy> CompositeFontProfile<M> {
    /// The candidate adjustments for a class, in the order they are tried.
    pub fn candidates_for_class(&self, class: CharacterClass) -> (candidates: Vec<FontAdjustment<M>>)
        ensures
            adjustments_view(candidates@) == candidate_views(self@, class),
    {
        let ghost goal = candidate_views(self@, class);
        let ghost primary_goal = FontAdjustmentView {
            fallback_font_families: Seq::empty(),
            ..self@.adjustment(class)
        };
        let ghost part_a = self@.fallbacks(class).map_values(
            |a: FontAdjustmentView<M>| FontAdjustmentView { fallback_font_families: Seq::empty(), ..a },
        );
        let ghost part_b = self@.adjustment(class).fallback_font_families.map_values(
            |family: Seq<char>| FontAdjustmentView { font_family: family, ..primary_goal },
        );
        assert(goal == seq![primary_goal] + part_a + part_b);
        let source = self.adjustment_for(class);
        let primary = FontAdjustment {
            font_family: source.font_family.clone(),
            fallback_font_families: Vec::new(),
            metrics: source.metrics,
        };
        let ghost primary_view = primary@;
        assert(primary_view.fallback_font_families =~= Seq::<Seq<char>>::empty());
        let mut candidates: Vec<FontAdjustment<M>> = Vec::new();
        candidates.push(primary.duplicate());
        assert(adjustments_view(candidates@) =~= goal.take(1));
        let fallbacks = self.fallbacks_for(class);
        let mut i: usize = 0;
        while i < fallbacks.len()
            invariant
                goal == candidate_views(self@, class),
                goal == seq![primary_goal] + part_a + part_b,
                part_a == self@.fallbacks(class).map_values(
                    |a: FontAdjustmentView<M>| FontAdjustmentView { fallback_font_families: Seq::empty(), ..a },
                ),
                part_b.len() == self@.adjustment(class).fallback_font_families.len(),
                adjustments_view(fallbacks@) == self@.fallbacks(class),
                i <= fallbacks@.len(),
                adjustments_view(candidates@) == goal.take(1 + i),
                goal.len() == 1 + fallbacks@.len() + source@.fallback_font_families.len(),
                source@ == self@.adjustment(class),
                primary@ == primary_view,
                primary_view == (FontAdjustmentView { fallback_font_families: Seq::empty(), ..self@.adjustment(class) }),
            decreases fallbacks@.len() - i,
        {
            let f = &fallbacks[i];
            let candidate = FontAdjustment {
                font_family: f.font_family.clone(),
                fallback_font_families: Vec::new(),
                metrics: f.metrics,
            };
            let ghost before = candidates@;
            assert(adjustments_view(fallbacks@)[i as int] == f@);
            assert(strings_view(candidate.fallback_font_families@) =~= Seq::<Seq<char>>::empty());
            assert(goal[1 + i] == part_a[i as int]);
            assert(candidate@ =~= goal[1 + i]);
            candidates.push(candidate);
            assert(adjustments_view(candidates@) =~= adjustments_view(before).push(candidate@));
            assert(goal.take(1 + i + 1) =~= goal.take(1 + i).push(goal[1 + i]));
            i += 1;
        }
        let legacy = &source.fallback_font_families;
        let mut k: usize = 0;
        while k < legacy.len()
            invariant
                goal == candidate_views(self@, class),
                goal == seq![primary_goal] + part_a + part_b,
                part_a.len() == fallbacks@.len(),
                part_b == self@.adjustment(class).fallback_font_families.map_values(
                    |family: Seq<char>| FontAdjustmentView { font_family: family, ..primary_goal },
                ),
                primary_goal == (FontAdjustmentView { fallback_font_families: Seq::empty(), ..self@.adjustment(class) }),
                legacy@ == source.fallback_font_families@,
                k <= legacy@.len(),
                adjustments_view(candidates@) == goal.take(1 + fallbacks@.len() + k),
                goal.len() == 1 + fallbacks@.len() + legacy@.len(),
                source@ == self@.adjustment(class),
                adjustments_view(fallbacks@) == self@.fallbacks(class),
                primary_view == (FontAdjustmentView { fallback_font_families: Seq::empty(), ..self@.adjustment(class) }),
            decreases legacy@.len() - k,
        {
            let candidate = FontAdjustment {
                font_family: legacy[k].clone(),
                fallback_font_families: Vec::new(),
                metrics: source.metrics,
            };
            let ghost before = candidates@;
            assert(strings_view(legacy@)[k as int] == legacy@[k as int]@);
            assert(strings_view(candidate.fallback_font_families@) =~= Seq::<Seq<char>>::empty());
            assert(goal[1 + fallbacks@.len() + k] == part_b[k as int]);
            assert(candidate@ =~= goal[1 + fallbacks@.len() + k]);
            candidates.push(candidate);
            assert(adjustments_view(candidates@) =~= adjustments_view(before).push(candidate@));
            assert(goal.take(1 + fallbacks@.len() + k + 1) =~= goal.take(1 + fallbacks@.len() + k).push(
                goal[1 + fallbacks@.len() + k],
            ));
            k += 1;
        }
        assert(goal.take(goal.len() as int) =~= goal);
        candidates
    }
}

/// Profiles by name; where two share a name, the later one counts.
pub open spec fn lookup_profile<M>(profiles: Seq<ProfileView<M>>, name: Seq<char>) -> Option<ProfileView<M>>
    decreases profiles.len(),
{
    if profiles.len() == 0 {
        None
    } else if profiles.last().name == name {
        Some(profiles.last())
    } else {
        lookup_profile(profiles.drop_last(), name)
    }
}

pub open spec fn profiles_view<M>(profiles: Seq<CompositeFontProfile<M>>) -> Seq<ProfileView<M>> {
    profiles.map_values(|p: CompositeFontProfile<M>| p@)
}

/// The profiles that a script module resolves characters against.
#[derive(Debug)]
pub struct ProfileStore<M> {
    profiles: Vec<CompositeFontProfile<M>>,
}

impl<M: Copy> ProfileStore<M> {
    /// The store's profiles, in the order given.
    pub closed spec fn entries(self) -> Seq<ProfileView<M>> {
        profiles_view(self.profiles@)
    }

    /// The profile that a name selects.
    pub open spec fn lookup(self, name: Seq<char>) -> Option<ProfileView<M>> {
        lookup_profile(self.entries(), name)
    }

    pub fn from_profiles(profiles: Vec<CompositeFontProfile<M>>) -> (store: Self)
        ensures
            store.entries() == profiles_view(profiles@),
    {
        ProfileStore { profiles }
    }

    /// A store holding the neutral `default` profile only.
    pub fn with_builtin_default(neutral_metrics: M) -> (store: Self)
        ensures
            store.entries().len() == 1,
            store.entries()[0].name == default_profile_name(),
            forall|class: CharacterClass|
                {
                    &&& #[trigger] store.entries()[0].adjustment(class) == FontAdjustment::<M>::neutral_view(neutral_metrics)
                    &&& store.entries()[0].fallbacks(class) == Seq::<FontAdjustmentView<M>>::empty()
                },
    {
        let mut profiles = Vec::new();
        profiles.push(CompositeFontProfile::neutral_default(neutral_metrics));
        ProfileStore { profiles }
    }

    /// The profile that `name` selects.
    pub fn profile_named(&self, name: &str) -> (profile: Option<&CompositeFontProfile<M>>)
        ensures
            match profile {
                Some(p) => self.lookup(name@) == Some(p@),
                None => self.lookup(name@) is None,
            },
    {
        let key = name.to_owned();
        let ghost all = self.entries();
        let mut i = self.profiles.len();
        assert(all.take(i as int) =~= all);
        while i > 0
            invariant
                all == profiles_view(self.profiles@),
                i <= self.profiles@.len(),
                key@ == name@,
                lookup_profile(all.take(i as int), name@) == lookup_profile(all, name@),
            decreases i,
        {
            let ghost prefix = all.take(i as int);
            assert(prefix.drop_last() =~= all.take(i - 1));
            assert(prefix.last() == self.profiles@[i - 1]@);
            if self.profiles[i - 1].name == key {
                return Some(&self.profiles[i - 1]);
            }
            i -= 1;
        }
        None
    }

    /// The profile that an optional name selects: no name means `default`.
    pub fn profile(&self, profile_name: Option<&str>) -> (result: Result<&CompositeFontProfile<M>, ResolveError>)
        ensures
            match result {
                Ok(p) => self.lookup(requested_name(profile_name)) == Some(p@),
                Err(e) => self.lookup(requested_name(profile_name)) is None && (e
                    matches ResolveError::ProfileNotFound(n) && n@ == requested_name(profile_name)),
            },
    {
        let name = match profile_name {
            Some(name) => name,
            None => {
                proof {
                    reveal_strlit("default");
                }
                DEFAULT_PROFILE_NAME
            },
        };
        assert(name@ == requested_name(profile_name));
        match self.profile_named(name) {
            Some(profile) => Ok(profile),
            None => Err(ResolveError::ProfileNotFound(name.to_owned())),
        }
    }

    /// Resolves a character against the profile that an optional name
    /// selects; an unknown name is an error, never the default profile.
    pub fn resolve(&self, codepoint: char, profile_name: Option<&str>) -> (result: Result<
        ResolvedFont<M>,
        ResolveError,
    >)
        ensures
            match result {
                Ok(resolved) => self.lookup(requested_name(profile_name)) matches Some(p) && {
                    &&& resolved.font_family@ == p.adjustment(class_of(codepoint)).font_family
                    &&& resolved.metrics == p.adjustment(class_of(codepoint)).metrics
                    &&& resolved.category@ == class_name(class_of(codepoint))
                    &&& resolved.rule_id@ == class_name(class_of(codepoint))
                },
                Err(e) => self.lookup(requested_name(profile_name)) is None && (e
                    matches ResolveError::ProfileNotFound(n) && n@ == requested_name(profile_name)),
            },
    {
        let profile = self.profile(profile_name)?;
        Ok(profile.resolve(codepoint))
    }
}

/// The profile name that a request selects.
pub open spec fn requested_name(profile_name: Option<&str>) -> Seq<char> {
    match profile_name {
        Some(name) => name@,
        None => default_profile_name(),
    }
}

} // verus!
