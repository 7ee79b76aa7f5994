//! The profile editor's model: the document being edited, the selected
//! profile and the selected character class row.
use vstd::prelude::*;
use vstd::set_lib::set_int_range;
use crate::classify::{
    CharacterClass, class_of, unicode_alphanumeric, unicode_numeric, white_space_codepoint,
};
use crate::document::{ProfileDocument, document_ok, has_default_profile, name_ok_at};
use crate::profile::{
    CompositeFontProfile, FontAdjustment, FontAdjustmentView, ProfileView, default_profile_name,
    profiles_view,
};
use crate::staging::{compare_names, lemma_name_less_transitive, name_less};
use crate::text::{
    chars_of,
    decimal_digits, digit_char, lemma_decimal_digits_last, lemma_trimmed_idempotent,
    lemma_trimmed_unchanged, push_decimal, push_str, trim_text, trimmed,
};

verus! {

/// The number of character class rows that the editor lists.
pub const CATEGORY_COUNT: usize = 7;

/// One row of the editor's class list: the class, its label and a sample.
#[derive(Clone, Copy, Debug)]
pub struct CategoryRow {
    pub class: CharacterClass,
    pub label: &'static str,
    pub sample: &'static str,
}

/// The classes in the order that the editor lists them.
pub open spec fn category_class(index: int) -> CharacterClass {
    if index == 0 {
        CharacterClass::Kanji
    } else if index == 1 {
        CharacterClass::Hiragana
    } else if index == 2 {
        CharacterClass::Katakana
    } else if index == 3 {
        CharacterClass::Symbol
    } else if index == 4 {
        CharacterClass::Western
    } else if index == 5 {
        CharacterClass::Digit
    } else {
        CharacterClass::Other
    }
}

/// The label of row `index`.
pub open spec fn category_label(index: int) -> Seq<char> {
    if index == 0 {
        "漢字"@
    } else if index == 1 {
        "かな"@
    } else if index == 2 {
        "カナ"@
    } else if index == 3 {
        "記号"@
    } else if index == 4 {
        "欧文"@
    } else if index == 5 {
        "数字"@
    } else {
        "その他"@
    }
}

/// The sample text of row `index`.
pub open spec fn category_sample(index: int) -> Seq<char> {
    if index == 0 {
        "国漢字"@
    } else if index == 1 {
        "あいう"@
    } else if index == 2 {
        "アイウ"@
    } else if index == 3 {
        "。・！？★"@
    } else if index == 4 {
        "LINE Word"@
    } else if index == 5 {
        "123456"@
    } else {
        "é Ж Ａ"@
    }
}

/// The editor's row `index`.
pub fn category_row(index: usize) -> (row: CategoryRow)
    requires
        index < CATEGORY_COUNT,
    ensures
        row.class == category_class(index as int),
        row.label@ == category_label(index as int),
        row.sample@ == category_sample(index as int),
{
    if index == 0 {
        CategoryRow { class: CharacterClass::Kanji, label: "漢字", sample: "国漢字" }
    } else if index == 1 {
        CategoryRow { class: CharacterClass::Hiragana, label: "かな", sample: "あいう" }
    } else if index == 2 {
        CategoryRow { class: CharacterClass::Katakana, label: "カナ", sample: "アイウ" }
    } else if index == 3 {
        CategoryRow { class: CharacterClass::Symbol, label: "記号", sample: "。・！？★" }
    } else if index == 4 {
        CategoryRow { class: CharacterClass::Western, label: "欧文", sample: "LINE Word" }
    } else if index == 5 {
        CategoryRow { class: CharacterClass::Digit, label: "数字", sample: "123456" }
    } else {
        CategoryRow { class: CharacterClass::Other, label: "その他", sample: "é Ж Ａ" }
    }
}

/// Each row edits the class that its sample shows: every character of the
/// sample that is not white space falls into the row's class. For the kanji,
/// kana and katakana rows this follows from the script ranges alone; for the
/// others it follows once Unicode's numeric and alphanumeric answers for the
/// sample's characters are the ones the Unicode tables give (the digits are
/// numeric, the letters alphanumeric, the symbols neither).
pub proof fn lemma_category_samples_match_classes(index: int, i: int)
    requires
        0 <= index < CATEGORY_COUNT,
        0 <= i < category_sample(index).len(),
    ensures
        ({
            let c = category_sample(index)[i];
            &&& index <= 2 ==> class_of(c) == category_class(index)
            &&& (!white_space_codepoint(c as u32) && unicode_numeric(c) == (index == 5)
                && unicode_alphanumeric(c) == (index != 3)) ==> class_of(c) == category_class(index)
        }),
{
    reveal_strlit("国漢字");
    reveal_strlit("あいう");
    reveal_strlit("アイウ");
    reveal_strlit("。・！？★");
    reveal_strlit("LINE Word");
    reveal_strlit("123456");
    reveal_strlit("é Ж Ａ");
    let c = category_sample(index)[i];
    if index == 0 {
        assert(c == '国' || c == '漢' || c == '字');
    } else if index == 1 {
        assert(c == 'あ' || c == 'い' || c == 'う');
    } else if index == 2 {
        assert(c == 'ア' || c == 'イ' || c == 'ウ');
    } else if index == 3 {
        assert(c == '。' || c == '・' || c == '！' || c == '？' || c == '★');
    } else if index == 4 {
        assert(c == 'L' || c == 'I' || c == 'N' || c == 'E' || c == ' ' || c == 'W' || c == 'o' || c
            == 'r' || c == 'd');
    } else if index == 5 {
        assert(c == '1' || c == '2' || c == '3' || c == '4' || c == '5' || c == '6');
    } else {
        assert(c == 'é' || c == ' ' || c == 'Ж' || c == 'Ａ');
    }
}

/// The kanji and kana rows are labelled in their own script: every
/// character of their label falls into the row's class.
pub proof fn lemma_category_labels_match_classes(index: int, i: int)
    requires
        0 <= index <= 2,
        0 <= i < category_label(index).len(),
    ensures
        class_of(category_label(index)[i]) == category_class(index),
{
    reveal_strlit("漢字");
    reveal_strlit("かな");
    reveal_strlit("カナ");
    let c = category_label(index)[i];
    if index == 0 {
        assert(c == '漢' || c == '字');
    } else if index == 1 {
        assert(c == 'か' || c == 'な');
    } else {
        assert(c == 'カ' || c == 'ナ');
    }
}

/// Why the editor refused a change.
#[derive(Clone, Copy, Debug, PartialEq, Eq, Structural)]
pub enum ModelError {
    /// The new name is white space only.
    EmptyProfileName,
    /// Another profile already has the new name.
    DuplicateProfileName,
    /// The `default` profile keeps its name.
    DefaultProfileRenamed,
    /// The `default` profile cannot be deleted.
    DefaultProfileDeleted,
    /// The last profile cannot be deleted.
    LastProfileDeleted,
}

/// The editor's message for a refused change; `name` is the requested name,
/// trimmed.
pub open spec fn model_error_message(error: ModelError, name: Seq<char>) -> Seq<char> {
    match error {
        ModelError::EmptyProfileName => "プロファイル名を入力してください。"@,
        ModelError::DuplicateProfileName => "プロファイル「"@ + name + "」は既に存在します。"@,
        ModelError::DefaultProfileRenamed => "defaultプロファイルの名前は変更できません。"@,
        ModelError::DefaultProfileDeleted => "defaultプロファイルは削除できません。"@,
        ModelError::LastProfileDeleted => "最後のプロファイルは削除できません。"@,
    }
}

impl ModelError {
    /// The message shown for the refusal; `requested_name` is the name that
    /// a rename asked for.
    pub fn message(self, requested_name: &str) -> (message: String)
        ensures
            message@ == model_error_message(self, trimmed(requested_name@)),
    {
        let mut message = String::new();
        match self {
            ModelError::EmptyProfileName => push_str(&mut message, "プロファイル名を入力してください。"),
            ModelError::DuplicateProfileName => {
                let name = trim_text(requested_name);
                push_str(&mut message, "プロファイル「");
                push_str(&mut message, name.as_str());
                push_str(&mut message, "」は既に存在します。");
            },
            ModelError::DefaultProfileRenamed => push_str(
                &mut message,
                "defaultプロファイルの名前は変更できません。",
            ),
            ModelError::DefaultProfileDeleted => push_str(
                &mut message,
                "defaultプロファイルは削除できません。",
            ),
            ModelError::LastProfileDeleted => push_str(&mut message, "最後のプロファイルは削除できません。"),
        }
        assert(message@ =~= model_error_message(self, trimmed(requested_name@)));
        message
    }
}

/// The prefix of the names given to new profiles.
pub open spec fn new_profile_prefix() -> Seq<char> {
    seq!['新', '規', 'プ', 'ロ', 'フ', 'ァ', 'イ', 'ル', ' ']
}

/// The name of the `k`-th new profile.
pub open spec fn new_profile_name(k: nat) -> Seq<char> {
    new_profile_prefix() + decimal_digits(k)
}

/// Some profile has the name.
pub open spec fn name_taken<M>(profiles: Seq<ProfileView<M>>, name: Seq<char>) -> bool {
    exists|i: int| 0 <= i < profiles.len() && (#[trigger] profiles[i]).name == name
}

/// The editor's state.
pub struct EditorModel<M> {
    document: ProfileDocument<M>,
    selected_profile: usize,
    selected_category: usize,
}

impl<M: Copy> EditorModel<M> {
    /// The model holds a profile and selects one of its profiles and rows.
    pub closed spec fn wf(self) -> bool {
        &&& self.document.profiles@.len() > 0
        &&& self.selected_profile < self.document.profiles@.len()
        &&& self.selected_category < CATEGORY_COUNT
    }

    pub closed spec fn profiles(self) -> Seq<ProfileView<M>> {
        profiles_view(self.document.profiles@)
    }

    pub closed spec fn schema_version(self) -> u32 {
        self.document.schema_version
    }

    pub closed spec fn selected(self) -> int {
        self.selected_profile as int
    }

    pub closed spec fn category(self) -> int {
        self.selected_category as int
    }

    /// The edited document passes every check that saving makes.
    pub open spec fn document_valid(self) -> bool {
        document_ok(self.schema_version(), self.profiles())
    }

    /// Edits a document; an empty document is replaced by the built-in one.
    pub fn new(document: ProfileDocument<M>, neutral_metrics: M) -> (model: Self)
        ensures
            model.wf(),
            model.selected() == 0,
            model.category() == 0,
            document.profiles@.len() > 0 ==> model.profiles() == profiles_view(document.profiles@)
                && model.schema_version() == document.schema_version,
            document.profiles@.len() == 0 ==> model.profiles().len() == 1 && model.profiles()[0].name
                == default_profile_name(),
            document.profiles@.len() == 0 || document_ok(
                document.schema_version,
                profiles_view(document.profiles@),
            ) ==> model.document_valid(),
    {
        let document = if document.profiles.len() == 0 {
            ProfileDocument::with_builtin_default(neutral_metrics)
        } else {
            document
        };
        let model = EditorModel { document, selected_profile: 0, selected_category: 0 };
        proof {
            if model.profiles().len() == 1 && model.profiles()[0].name == default_profile_name() {
                lemma_trimmed_unchanged(default_profile_name());
                assert(name_ok_at(model.profiles(), 0));
                assert(has_default_profile(model.profiles()));
            }
        }
        model
    }

    pub fn document(&self) -> (document: &ProfileDocument<M>)
        ensures
            profiles_view(document.profiles@) == self.profiles(),
            document.schema_version == self.schema_version(),
    {
        &self.document
    }

    pub fn selected_profile_index(&self) -> (index: usize)
        ensures
            index == self.selected(),
    {
        self.selected_profile
    }

    pub fn selected_category_index(&self) -> (index: usize)
        ensures
            index == self.category(),
    {
        self.selected_category
    }

    pub fn selected_profile(&self) -> (profile: &CompositeFontProfile<M>)
        requires
            self.wf(),
        ensures
            profile@ == self.profiles()[self.selected()],
    {
        &self.document.profiles[self.selected_profile]
    }

    /// The selected profile, to change in place.
    pub fn selected_profile_mut(&mut self) -> (profile: &mut CompositeFontProfile<M>)
        requires
            old(self).wf(),
        ensures
            (*profile)@ == old(self).profiles()[old(self).selected()],
            final(self).wf(),
            final(self).selected() == old(self).selected(),
            final(self).category() == old(self).category(),
            final(self).schema_version() == old(self).schema_version(),
            final(self).profiles() == old(self).profiles().update(
                old(self).selected(),
                (*final(profile))@,
            ),
    {
        let selected = self.selected_profile;
        &mut self.document.profiles[selected]
    }

    /// The adjustment of the selected profile for the selected row's class.
    pub fn selected_adjustment(&self) -> (adjustment: &FontAdjustment<M>)
        requires
            self.wf(),
        ensures
            adjustment@ == self.profiles()[self.selected()].adjustment(category_class(self.category())),
    {
        let class = category_row(self.selected_category).class;
        self.document.profiles[self.selected_profile].adjustment_for(class)
    }

    /// Selects a profile by index; an index past the end changes nothing.
    pub fn select_profile(&mut self, index: usize) -> (selected: bool)
        requires
            old(self).wf(),
        ensures
            final(self).wf(),
            selected == (index < old(self).profiles().len()),
            final(self).selected() == if selected {
                index as int
            } else {
                old(self).selected()
            },
            final(self).profiles() == old(self).profiles(),
            final(self).category() == old(self).category(),
            final(self).schema_version() == old(self).schema_version(),
    {
        if index >= self.document.profiles.len() {
            return false;
        }
        self.selected_profile = index;
        true
    }

    /// Selects a class row by index; an index past the rows changes nothing.
    pub fn select_category(&mut self, index: usize) -> (selected: bool)
        requires
            old(self).wf(),
        ensures
            final(self).wf(),
            selected == (index < CATEGORY_COUNT),
            final(self).category() == if selected {
                index as int
            } else {
                old(self).category()
            },
            final(self).profiles() == old(self).profiles(),
            final(self).selected() == old(self).selected(),
            final(self).schema_version() == old(self).schema_version(),
    {
        if index >= CATEGORY_COUNT {
            return false;
        }
        self.selected_category = index;
        true
    }
}

proof fn lemma_decimal_nonempty(n: nat)
    ensures
        decimal_digits(n).len() >= 1,
    decreases n,
{
    if n >= 10 {
        lemma_decimal_nonempty(n / 10);
    }
}

proof fn lemma_digit_char_injective(a: nat, b: nat)
    requires
        a < 10,
        b < 10,
        digit_char(a) == digit_char(b),
    ensures
        a == b,
{
}

/// Different numbers have different decimal texts.
proof fn lemma_decimal_injective(a: nat, b: nat)
    requires
        decimal_digits(a) == decimal_digits(b),
    ensures
        a == b,
    decreases a + b,
{
    if a < 10 && b < 10 {
        assert(decimal_digits(a)[0] == digit_char(a));
        assert(decimal_digits(b)[0] == digit_char(b));
        lemma_digit_char_injective(a, b);
    } else if a < 10 {
        lemma_decimal_nonempty(b / 10);
        assert(decimal_digits(b).len() >= 2);
    } else if b < 10 {
        lemma_decimal_nonempty(a / 10);
        assert(decimal_digits(a).len() >= 2);
    } else {
        let da = decimal_digits(a);
        let db = decimal_digits(b);
        assert(da.last() == db.last());
        lemma_digit_char_injective(a % 10, b % 10);
        assert(da.drop_last() =~= decimal_digits(a / 10));
        assert(db.drop_last() =~= decimal_digits(b / 10));
        lemma_decimal_injective(a / 10, b / 10);
    }
}

/// New profiles with different numbers get different names.
proof fn lemma_new_names_distinct(a: nat, b: nat)
    requires
        new_profile_name(a) == new_profile_name(b),
    ensures
        a == b,
{
    let pa = new_profile_name(a);
    let pb = new_profile_name(b);
    let k = new_profile_prefix().len() as int;
    assert(pa.skip(k) =~= decimal_digits(a));
    assert(pb.skip(k) =~= decimal_digits(b));
    lemma_decimal_injective(a, b);
}

/// When the names of the new profiles `1..s` are all taken, there are at
/// least `s - 1` profiles.
proof fn lemma_taken_names_fit<M>(profiles: Seq<ProfileView<M>>, s: int)
    requires
        1 <= s,
        forall|k: int| 1 <= k < s ==> name_taken(profiles, #[trigger] new_profile_name(k as nat)),
    ensures
        s - 1 <= profiles.len(),
{
    let n = profiles.len() as int;
    let owner = |k: int|
        choose|i: int| 0 <= i < n && (#[trigger] profiles[i]).name == new_profile_name(k as nat);
    let suffixes = set_int_range(1, s);
    let owners = suffixes.map(owner);
    vstd::set_lib::lemma_int_range(1, s);
    vstd::set_lib::lemma_int_range(0, n);
    assert forall|k1: int, k2: int|
        suffixes.contains(k1) && suffixes.contains(k2) && #[trigger] owner(k1) == #[trigger] owner(
            k2,
        ) implies k1 == k2 by {
        assert(name_taken(profiles, new_profile_name(k1 as nat)));
        assert(name_taken(profiles, new_profile_name(k2 as nat)));
        lemma_new_names_distinct(k1 as nat, k2 as nat);
    }
    vstd::set_lib::lemma_map_size(suffixes, owners, owner);
    assert forall|i: int| owners.contains(i) implies set_int_range(0, n).contains(i) by {
        let k = choose|k: int| suffixes.contains(k) && owner(k) == i;
        assert(name_taken(profiles, new_profile_name(k as nat)));
    }
    vstd::set_lib::lemma_len_subset(owners, set_int_range(0, n));
}

/// The number of the next new profile: the smallest `k >= 1` whose name is
/// not taken.
pub open spec fn is_next_profile_number<M>(profiles: Seq<ProfileView<M>>, k: nat) -> bool {
    &&& k >= 1
    &&& !name_taken(profiles, new_profile_name(k))
    &&& forall|j: nat| 1 <= j < k ==> name_taken(profiles, #[trigger] new_profile_name(j))
}

proof fn lemma_create_keeps_ok<M>(
    schema_version: u32,
    old: Seq<ProfileView<M>>,
    new: Seq<ProfileView<M>>,
    k: nat,
)
    requires
        document_ok(schema_version, old),
        new.len() == old.len() + 1,
        new.drop_last() == old,
        is_next_profile_number(old, k),
        new.last().name == new_profile_name(k),
    ensures
        document_ok(schema_version, new),
{
    let n = old.len() as int;
    let name = new_profile_name(k);
    lemma_decimal_digits_last(k);
    assert(name[0] == '新');
    assert(name.last() == decimal_digits(k).last());
    lemma_trimmed_unchanged(name);
    assert forall|i: int| 0 <= i < n implies new[i] == old[i] by {
        assert(new.drop_last()[i] == new[i]);
    }
    assert forall|i: int| 0 <= i < new.len() implies #[trigger] name_ok_at(new, i) by {
        if i < n {
            assert(name_ok_at(old, i));
        } else {
            assert forall|j: int| 0 <= j < i implies (#[trigger] new[j]).name != new[i].name by {
                assert(new[j] == old[j]);
                if old[j].name == name {
                    assert(name_taken(old, name));
                }
            }
        }
    }
    let d = choose|i: int| 0 <= i < old.len() && (#[trigger] old[i]).name == default_profile_name();
    assert(new[d] == old[d]);
}

proof fn lemma_rename_keeps_ok<M>(
    schema_version: u32,
    old: Seq<ProfileView<M>>,
    selected: int,
    new_name: Seq<char>,
)
    requires
        document_ok(schema_version, old),
        0 <= selected < old.len(),
        new_name.len() > 0,
        trimmed(new_name) == new_name,
        forall|i: int| 0 <= i < old.len() && i != selected ==> (#[trigger] old[i]).name != new_name,
        old[selected].name == default_profile_name() ==> new_name == default_profile_name(),
    ensures
        document_ok(schema_version, old.update(selected, ProfileView { name: new_name, ..old[selected] })),
{
    let new = old.update(selected, ProfileView { name: new_name, ..old[selected] });
    assert forall|i: int| 0 <= i < new.len() implies #[trigger] name_ok_at(new, i) by {
        assert(name_ok_at(old, i));
        assert forall|j: int| 0 <= j < i implies (#[trigger] new[j]).name != new[i].name by {
            if j != selected && i != selected {
                assert(old[j].name != old[i].name);
            }
        }
    }
    let d = choose|i: int| 0 <= i < old.len() && (#[trigger] old[i]).name == default_profile_name();
    if d == selected {
        assert(new[d].name == default_profile_name());
    } else {
        assert(new[d] == old[d]);
    }
}

proof fn lemma_delete_keeps_ok<M>(schema_version: u32, old: Seq<ProfileView<M>>, selected: int)
    requires
        document_ok(schema_version, old),
        0 <= selected < old.len(),
        old.len() > 1,
        old[selected].name != default_profile_name(),
    ensures
        document_ok(schema_version, old.remove(selected)),
{
    let new = old.remove(selected);
    old.remove_ensures(selected);
    let source = |i: int| if i < selected { i } else { i + 1 };
    assert forall|i: int| 0 <= i < new.len() implies #[trigger] name_ok_at(new, i) by {
        assert(new[i] == old[source(i)]);
        assert(name_ok_at(old, source(i)));
        assert forall|j: int| 0 <= j < i implies (#[trigger] new[j]).name != new[i].name by {
            assert(new[j] == old[source(j)]);
            assert(source(j) < source(i));
            assert(old[source(j)].name != old[source(i)].name);
        }
    }
    let d = choose|i: int| 0 <= i < old.len() && (#[trigger] old[i]).name == default_profile_name();
    if d < selected {
        assert(new[d] == old[d]);
    } else {
        assert(new[d - 1] == old[d]);
    }
}

proof fn lemma_same_names_keep_ok<M>(
    schema_version: u32,
    old: Seq<ProfileView<M>>,
    new: Seq<ProfileView<M>>,
)
    requires
        document_ok(schema_version, old),
        new.len() == old.len(),
        forall|i: int| 0 <= i < old.len() ==> (#[trigger] new[i]).name == old[i].name,
    ensures
        document_ok(schema_version, new),
{
    assert forall|i: int| 0 <= i < new.len() implies #[trigger] name_ok_at(new, i) by {
        assert(name_ok_at(old, i));
        assert forall|j: int| 0 <= j < i implies (#[trigger] new[j]).name != new[i].name by {
            assert(old[j].name != old[i].name);
        }
    }
    let d = choose|i: int| 0 <= i < old.len() && (#[trigger] old[i]).name == default_profile_name();
    assert(new[d].name == default_profile_name());
}

impl<M: Copy> EditorModel<M> {
    /// Whether a profile is named `name`.
    fn has_profile_named(&self, name: &String) -> (found: bool)
        ensures
            found == name_taken(self.profiles(), name@),
    {
        let ghost view = self.profiles();
        let mut i: usize = 0;
        while i < self.document.profiles.len()
            invariant
                view == profiles_view(self.document.profiles@),
                i <= self.document.profiles@.len(),
                forall|k: int| 0 <= k < i ==> (#[trigger] view[k]).name != name@,
            decreases self.document.profiles@.len() - i,
        {
            if self.document.profiles[i].name == *name {
                assert(view[i as int].name == name@);
                return true;
            }
            i += 1;
        }
        false
    }

    /// Adds a neutral profile named `新規プロファイル k`, with the smallest
    /// number `k >= 1` that no profile uses, and selects it.
    pub fn create_profile(&mut self, neutral_metrics: M)
        requires
            old(self).wf(),
            old(self).profiles().len() < usize::MAX,
        ensures
            final(self).wf(),
            final(self).schema_version() == old(self).schema_version(),
            final(self).profiles().len() == old(self).profiles().len() + 1,
            final(self).profiles().drop_last() == old(self).profiles(),
            exists|k: nat|
                is_next_profile_number(old(self).profiles(), k) && final(self).profiles().last().name
                    == new_profile_name(k),
            forall|class: CharacterClass|
                {
                    &&& #[trigger] final(self).profiles().last().adjustment(class)
                        == FontAdjustment::<M>::neutral_view(neutral_metrics)
                    &&& final(self).profiles().last().fallbacks(class) == Seq::<
                        FontAdjustmentView<M>,
                    >::empty()
                },
            final(self).selected() == final(self).profiles().len() - 1,
            final(self).category() == 0,
            old(self).document_valid() ==> final(self).document_valid(),
    {
        let ghost before = self.profiles();
        let n = self.document.profiles.len();
        proof {
            reveal_strlit("新規プロファイル ");
            assert("新規プロファイル "@ =~= new_profile_prefix());
        }
        let mut suffix: usize = 1;
        let mut candidate = String::new();
        push_str(&mut candidate, "新規プロファイル ");
        push_decimal(&mut candidate, suffix);
        assert(candidate@ =~= new_profile_name(suffix as nat));
        while self.has_profile_named(&candidate)
            invariant
                self.wf(),
                before == self.profiles(),
                n == before.len(),
                n < usize::MAX,
                1 <= suffix <= n + 1,
                candidate@ == new_profile_name(suffix as nat),
                forall|j: nat| 1 <= j < suffix ==> name_taken(before, #[trigger] new_profile_name(j)),
            decreases n + 1 - suffix,
        {
            proof {
                assert forall|k: int| 1 <= k < suffix + 1 implies name_taken(
                    before,
                    #[trigger] new_profile_name(k as nat),
                ) by {
                    if k < suffix {
                        let j = k as nat;
                        assert(name_taken(before, new_profile_name(j)));
                    }
                }
                lemma_taken_names_fit(before, suffix + 1);
            }
            suffix = suffix + 1;
            proof {
                reveal_strlit("新規プロファイル ");
                assert("新規プロファイル "@ =~= new_profile_prefix());
            }
            candidate = String::new();
            push_str(&mut candidate, "新規プロファイル ");
            push_decimal(&mut candidate, suffix);
            assert(candidate@ =~= new_profile_name(suffix as nat));
        }
        let mut profile = CompositeFontProfile::neutral_default(neutral_metrics);
        let ghost neutral = profile@;
        profile.name = candidate;
        assert(profile@ == ProfileView { name: candidate@, ..neutral });
        self.document.profiles.push(profile);
        assert(self.profiles().last() == profile@);
        assert forall|class: CharacterClass|
            {
                &&& #[trigger] self.profiles().last().adjustment(class)
                    == FontAdjustment::<M>::neutral_view(neutral_metrics)
                &&& self.profiles().last().fallbacks(class) == Seq::<FontAdjustmentView<M>>::empty()
            } by {
            assert(neutral.adjustment(class) == FontAdjustment::<M>::neutral_view(neutral_metrics));
            assert(neutral.fallbacks(class) == Seq::<FontAdjustmentView<M>>::empty());
        }
        self.selected_profile = self.document.profiles.len() - 1;
        self.selected_category = 0;
        assert(self.profiles().drop_last() =~= before);
        assert(is_next_profile_number(before, suffix as nat));
        proof {
            if old(self).document_valid() {
                lemma_create_keeps_ok(self.schema_version(), before, self.profiles(), suffix as nat);
            }
        }
    }

    /// Renames the selected profile to the trimmed `name`.
    pub fn rename_selected_profile(&mut self, name: &str) -> (result: Result<(), ModelError>)
        requires
            old(self).wf(),
        ensures
            final(self).wf(),
            final(self).selected() == old(self).selected(),
            final(self).category() == old(self).category(),
            final(self).schema_version() == old(self).schema_version(),
            ({
                let new_name = trimmed(name@);
                let profiles = old(self).profiles();
                let selected = old(self).selected();
                if new_name.len() == 0 {
                    result == Err::<(), ModelError>(ModelError::EmptyProfileName)
                        && final(self).profiles() == profiles
                } else if exists|i: int|
                    0 <= i < profiles.len() && i != selected && (#[trigger] profiles[i]).name
                        == new_name {
                    result == Err::<(), ModelError>(ModelError::DuplicateProfileName)
                        && final(self).profiles() == profiles
                } else if profiles[selected].name == default_profile_name() && new_name
                    != default_profile_name() {
                    result == Err::<(), ModelError>(ModelError::DefaultProfileRenamed)
                        && final(self).profiles() == profiles
                } else {
                    result == Ok::<(), ModelError>(()) && final(self).profiles() == profiles.update(
                        selected,
                        ProfileView { name: new_name, ..profiles[selected] },
                    )
                }
            }),
            old(self).document_valid() ==> final(self).document_valid(),
    {
        let ghost profiles = self.profiles();
        let new_name = trim_text(name);
        if new_name.as_str().is_empty() {
            return Err(ModelError::EmptyProfileName);
        }
        let selected = self.selected_profile;
        let mut i: usize = 0;
        while i < self.document.profiles.len()
            invariant
                self.wf(),
                profiles == self.profiles(),
                selected == self.selected(),
                new_name@ == trimmed(name@),
                new_name@.len() > 0,
                i <= profiles.len(),
                forall|k: int| 0 <= k < i && k != selected ==> (#[trigger] profiles[k]).name != new_name@,
            decreases profiles.len() - i,
        {
            if i != selected && self.document.profiles[i].name == new_name {
                assert(profiles[i as int].name == new_name@);
                return Err(ModelError::DuplicateProfileName);
            }
            i += 1;
        }
        let default_name = crate::profile::default_name();
        if self.document.profiles[selected].name == default_name && new_name != default_name {
            return Err(ModelError::DefaultProfileRenamed);
        }
        let ghost chosen = new_name@;
        let mut profile = self.document.profiles.remove(selected);
        profile.name = new_name;
        self.document.profiles.insert(selected, profile);
        proof {
            if old(self).document_valid() {
                lemma_trimmed_idempotent(name@);
                lemma_rename_keeps_ok(self.schema_version(), profiles, selected as int, chosen);
            }
        }
        assert(self.profiles() =~= profiles.update(
            selected as int,
            ProfileView { name: trimmed(name@), ..profiles[selected as int] },
        ));
        Ok(())
    }

    /// Deletes the selected profile, unless it is `default` or the last one.
    pub fn delete_selected_profile(&mut self) -> (result: Result<(), ModelError>)
        requires
            old(self).wf(),
        ensures
            final(self).wf(),
            final(self).schema_version() == old(self).schema_version(),
            ({
                let profiles = old(self).profiles();
                let selected = old(self).selected();
                if profiles[selected].name == default_profile_name() {
                    result == Err::<(), ModelError>(ModelError::DefaultProfileDeleted)
                        && final(self).profiles() == profiles && final(self).selected() == selected
                        && final(self).category() == old(self).category()
                } else if profiles.len() == 1 {
                    result == Err::<(), ModelError>(ModelError::LastProfileDeleted)
                        && final(self).profiles() == profiles && final(self).selected() == selected
                        && final(self).category() == old(self).category()
                } else {
                    &&& result == Ok::<(), ModelError>(())
                    &&& final(self).profiles() == profiles.remove(selected)
                    &&& final(self).selected() == if selected < profiles.len() - 1 {
                        selected
                    } else {
                        profiles.len() - 2
                    }
                    &&& final(self).category() == 0
                }
            }),
            old(self).document_valid() ==> final(self).document_valid(),
    {
        let ghost profiles = self.profiles();
        let selected = self.selected_profile;
        let default_name = crate::profile::default_name();
        if self.document.profiles[selected].name == default_name {
            return Err(ModelError::DefaultProfileDeleted);
        }
        if self.document.profiles.len() == 1 {
            return Err(ModelError::LastProfileDeleted);
        }
        self.document.profiles.remove(selected);
        let last = self.document.profiles.len() - 1;
        self.selected_profile = if selected < last {
            selected
        } else {
            last
        };
        self.selected_category = 0;
        assert(self.profiles() =~= profiles.remove(selected as int));
        proof {
            if old(self).document_valid() {
                lemma_delete_keeps_ok(self.schema_version(), profiles, selected as int);
            }
        }
        Ok(())
    }

    /// Replaces the selected row's adjustment of the selected profile with
    /// the trimmed family and the given metrics.
    pub fn update_selected_adjustment(&mut self, font_family: &str, metrics: M)
        requires
            old(self).wf(),
        ensures
            final(self).wf(),
            final(self).selected() == old(self).selected(),
            final(self).category() == old(self).category(),
            final(self).schema_version() == old(self).schema_version(),
            final(self).profiles() == old(self).profiles().update(
                old(self).selected(),
                old(self).profiles()[old(self).selected()].with_adjustment(
                    category_class(old(self).category()),
                    FontAdjustmentView {
                        font_family: trimmed(font_family@),
                        fallback_font_families: Seq::empty(),
                        metrics,
                    },
                ),
            ),
            old(self).document_valid() ==> final(self).document_valid(),
    {
        let ghost profiles = self.profiles();
        let selected = self.selected_profile;
        let class = category_row(self.selected_category).class;
        let adjustment = FontAdjustment {
            font_family: trim_text(font_family),
            fallback_font_families: Vec::new(),
            metrics,
        };
        assert(adjustment@.fallback_font_families =~= Seq::<Seq<char>>::empty());
        let mut profile = self.document.profiles.remove(selected);
        profile.set_adjustment(class, adjustment);
        self.document.profiles.insert(selected, profile);
        assert(self.profiles() =~= profiles.update(
            selected as int,
            profiles[selected as int].with_adjustment(class, adjustment@),
        ));
        proof {
            if old(self).document_valid() {
                assert(profiles[selected as int].with_adjustment(class, adjustment@).name
                    == profiles[selected as int].name);
                lemma_same_names_keep_ok(self.schema_version(), profiles, self.profiles());
            }
        }
    }
}

/// Names in the order of their characters, without repeats.
pub open spec fn strictly_sorted(names: Seq<String>) -> bool {
    forall|i: int, j: int|
        0 <= i < j < names.len() ==> name_less((#[trigger] names[i])@, (#[trigger] names[j])@)
}

/// Some entry of `names` is `name`.
pub open spec fn lists_name(names: Seq<String>, name: Seq<char>) -> bool {
    exists|i: int| 0 <= i < names.len() && (#[trigger] names[i])@ == name
}

/// Adds a name to a sorted list, where it is not there yet.
fn insert_name(names: &mut Vec<String>, name: String)
    requires
        strictly_sorted(old(names)@),
    ensures
        strictly_sorted(final(names)@),
        forall|n: Seq<char>|
            #[trigger] lists_name(final(names)@, n) == (lists_name(old(names)@, n) || n == name@),
{
    let ghost before = names@;
    let mut p: usize = 0;
    while p < names.len()
        invariant
            names@ == before,
            strictly_sorted(before),
            p <= before.len(),
            forall|q: int| 0 <= q < p ==> name_less((#[trigger] before[q])@, name@),
        ensures
            p <= before.len(),
            forall|q: int| 0 <= q < p ==> name_less((#[trigger] before[q])@, name@),
            p < before.len() ==> name_less(name@, before[p as int]@),
        decreases before.len() - p,
    {
        let order = compare_names(names[p].as_str(), name.as_str());
        if order == 0 {
            assert(lists_name(before, name@));
            return ;
        }
        if order > 0 {
            break;
        }
        p += 1;
    }
    let ghost text = name@;
    proof {
        assert forall|q: int| p <= q < before.len() implies name_less(
            text,
            (#[trigger] before[q])@,
        ) by {
            if q > p {
                lemma_name_less_transitive(text, before[p as int]@, before[q]@);
            }
        }
    }
    names.insert(p, name);
    proof {
        let after = names@;
        before.insert_ensures(p as int, after[p as int]);
        assert(after == before.insert(p as int, after[p as int]));
        assert forall|a: int, b: int|
            0 <= a < b < after.len() implies name_less(
            (#[trigger] after[a])@,
            (#[trigger] after[b])@,
        ) by {
            if b < p {
                assert(name_less(before[a]@, before[b]@));
            } else if b == p {
            } else if a < p {
                assert(after[b] == before[b - 1]);
                lemma_name_less_transitive(before[a]@, text, before[b - 1]@);
            } else if a == p {
                assert(after[b] == before[b - 1]);
            } else {
                assert(after[a] == before[a - 1]);
                assert(after[b] == before[b - 1]);
                assert(name_less(before[a - 1]@, before[b - 1]@));
            }
        }
        assert forall|n: Seq<char>| #[trigger]
            lists_name(after, n) == (lists_name(before, n) || n == text) by {
            if lists_name(after, n) {
                let i = choose|i: int| 0 <= i < after.len() && after[i]@ == n;
                if i < p {
                    assert(after[i] == before[i]);
                } else if i > p {
                    assert(after[i] == before[i - 1]);
                }
            }
            if lists_name(before, n) {
                let i = choose|i: int| 0 <= i < before.len() && before[i]@ == n;
                if i < p {
                    assert(after[i] == before[i]);
                } else {
                    assert(after[i + 1] == before[i]);
                }
            }
            if n == text {
                assert(after[p as int]@ == text);
            }
        }
    }
}

/// A font that the editor offers: a system font that is listed under its
/// own name (not empty, not a vertical `@` face).
pub open spec fn offered_system_font(name: Seq<char>) -> bool {
    name.len() > 0 && name[0] != '@'
}

/// Some profile of the list uses the family for one of its classes.
pub open spec fn family_in_use<M>(profiles: Seq<ProfileView<M>>, family: Seq<char>) -> bool {
    family.len() > 0 && exists|i: int, k: int|
        0 <= i < profiles.len() && 0 <= k < CATEGORY_COUNT && (#[trigger] profiles[i].adjustment(
            category_class(k),
        )).font_family == family
}

/// A font that belongs in the editor's font box.
pub open spec fn font_wanted<M>(system_fonts: Seq<String>, profiles: Seq<ProfileView<M>>, name: Seq<char>) -> bool {
    (exists|k: int| 0 <= k < system_fonts.len() && (#[trigger] system_fonts[k])@ == name && offered_system_font(name))
        || family_in_use(profiles, name)
}

impl<M: Copy> EditorModel<M> {
    /// The fonts that the editor's font box lists, in order and without
    /// repeats: the system fonts given under their own names, and every
    /// family that a profile uses; `Arial` and `Yu Gothic UI` where there
    /// is none of either.
    pub fn font_choices(&self, system_fonts: &Vec<String>) -> (fonts: Vec<String>)
        ensures
            strictly_sorted(fonts@),
            (exists|n: Seq<char>| #[trigger] font_wanted(system_fonts@, self.profiles(), n))
                ==> forall|n: Seq<char>|
                #[trigger] lists_name(fonts@, n) == font_wanted(system_fonts@, self.profiles(), n),
            !(exists|n: Seq<char>| #[trigger] font_wanted(system_fonts@, self.profiles(), n))
                ==> fonts@.len() == 2 && fonts@[0]@ == "Arial"@ && fonts@[1]@ == "Yu Gothic UI"@,
    {
        let mut fonts: Vec<String> = Vec::new();
        let mut k: usize = 0;
        while k < system_fonts.len()
            invariant
                strictly_sorted(fonts@),
                k <= system_fonts@.len(),
                forall|n: Seq<char>|
                    #[trigger] lists_name(fonts@, n) == (exists|j: int|
                        0 <= j < k && (#[trigger] system_fonts@[j])@ == n && offered_system_font(n)),
            decreases system_fonts@.len() - k,
        {
            let name = &system_fonts[k];
            let offered = !name.as_str().is_empty() && !starts_with_at(name.as_str());
            let ghost before = fonts@;
            if offered {
                insert_name(&mut fonts, name.clone());
            }
            proof {
                assert forall|n: Seq<char>| #[trigger]
                    lists_name(fonts@, n) == (exists|j: int|
                        0 <= j < k + 1 && (#[trigger] system_fonts@[j])@ == n && offered_system_font(
                            n,
                        )) by {
                    if n == system_fonts@[k as int]@ && offered_system_font(n) {
                        assert(system_fonts@[k as int]@ == n);
                    }
                    if exists|j: int|
                        0 <= j < k + 1 && (#[trigger] system_fonts@[j])@ == n && offered_system_font(
                            n,
                        ) {
                        let j = choose|j: int|
                            0 <= j < k + 1 && (#[trigger] system_fonts@[j])@ == n
                                && offered_system_font(n);
                        if j < k {
                            assert(exists|j: int|
                                0 <= j < k && (#[trigger] system_fonts@[j])@ == n
                                    && offered_system_font(n));
                        }
                    }
                }
            }
            k += 1;
        }
        let ghost from_system = fonts@;
        let mut i: usize = 0;
        while i < self.document.profiles.len()
            invariant
                strictly_sorted(fonts@),
                i <= self.document.profiles@.len(),
                self.profiles() == profiles_view(self.document.profiles@),
                forall|n: Seq<char>|
                    #[trigger] lists_name(fonts@, n) == (lists_name(from_system, n) || family_in_use(
                        self.profiles().take(i as int),
                        n,
                    )),
            decreases self.document.profiles@.len() - i,
        {
            let mut row: usize = 0;
            while row < CATEGORY_COUNT
                invariant
                    strictly_sorted(fonts@),
                    i < self.document.profiles@.len(),
                    row <= CATEGORY_COUNT,
                    self.profiles() == profiles_view(self.document.profiles@),
                    forall|n: Seq<char>|
                        #[trigger] lists_name(fonts@, n) == (lists_name(from_system, n)
                            || family_in_use(self.profiles().take(i as int), n) || (n.len() > 0
                            && exists|r: int|
                            0 <= r < row && self.profiles()[i as int].adjustment(
                                category_class(r),
                            ).font_family == n)),
                decreases CATEGORY_COUNT - row,
            {
                let class = category_row(row).class;
                let family = &self.document.profiles[i].adjustment_for(class).font_family;
                if !family.as_str().is_empty() {
                    insert_name(&mut fonts, family.clone());
                }
                proof {
                    let p = self.profiles()[i as int];
                    assert forall|n: Seq<char>| #[trigger]
                        lists_name(fonts@, n) == (lists_name(from_system, n) || family_in_use(
                            self.profiles().take(i as int),
                            n,
                        ) || (n.len() > 0 && exists|r: int|
                            0 <= r < row + 1 && p.adjustment(category_class(r)).font_family == n)) by {
                        if n.len() > 0 && p.adjustment(category_class(row as int)).font_family == n {
                            assert(exists|r: int|
                                0 <= r < row + 1 && p.adjustment(category_class(r)).font_family == n);
                        }
                        if n.len() > 0 && exists|r: int|
                            0 <= r < row + 1 && p.adjustment(category_class(r)).font_family == n {
                            let r = choose|r: int|
                                0 <= r < row + 1 && p.adjustment(category_class(r)).font_family == n;
                            if r < row {
                                assert(exists|r: int|
                                    0 <= r < row && p.adjustment(category_class(r)).font_family == n);
                            }
                        }
                    }
                }
                row += 1;
            }
            proof {
                let taken = self.profiles().take(i + 1);
                assert forall|n: Seq<char>| #[trigger]
                    lists_name(fonts@, n) == (lists_name(from_system, n) || family_in_use(taken, n)) by {
                    if family_in_use(taken, n) {
                        let (a, r) = choose|a: int, r: int|
                            0 <= a < taken.len() && 0 <= r < CATEGORY_COUNT && (
                            #[trigger] taken[a].adjustment(category_class(r))).font_family == n;
                        if a < i {
                            assert(self.profiles().take(i as int)[a] == taken[a]);
                            assert(family_in_use(self.profiles().take(i as int), n));
                        } else {
                            assert(taken[a] == self.profiles()[i as int]);
                        }
                    }
                    if family_in_use(self.profiles().take(i as int), n) {
                        let (a, r) = choose|a: int, r: int|
                            0 <= a < i && 0 <= r < CATEGORY_COUNT && (#[trigger] self.profiles().take(
                                i as int,
                            )[a].adjustment(category_class(r))).font_family == n;
                        assert(taken[a] == self.profiles().take(i as int)[a]);
                    }
                    if n.len() > 0 && exists|r: int|
                        0 <= r < CATEGORY_COUNT && self.profiles()[i as int].adjustment(
                            category_class(r),
                        ).font_family == n {
                        let r = choose|r: int|
                            0 <= r < CATEGORY_COUNT && self.profiles()[i as int].adjustment(
                                category_class(r),
                            ).font_family == n;
                        assert(taken[i as int] == self.profiles()[i as int]);
                    }
                }
            }
            i += 1;
        }
        assert(self.profiles().take(self.profiles().len() as int) =~= self.profiles());
        assert forall|n: Seq<char>| #[trigger]
            lists_name(fonts@, n) == font_wanted(system_fonts@, self.profiles(), n) by {}
        if fonts.len() == 0 {
            proof {
                if exists|n: Seq<char>| #[trigger] font_wanted(system_fonts@, self.profiles(), n) {
                    let n = choose|n: Seq<char>| #[trigger] font_wanted(system_fonts@, self.profiles(), n);
                    assert(lists_name(fonts@, n));
                }
                reveal_strlit("Arial");
                reveal_strlit("Yu Gothic UI");
                assert(name_less("Arial"@, "Yu Gothic UI"@));
            }
            fonts.push("Arial".to_string());
            fonts.push("Yu Gothic UI".to_string());
        } else {
            proof {
                assert(font_wanted(system_fonts@, self.profiles(), fonts@[0]@)) by {
                    assert(lists_name(fonts@, fonts@[0]@));
                }
            }
        }
        fonts
    }
}

/// Whether a name starts with `@`.
fn starts_with_at(name: &str) -> (at: bool)
    ensures
        at == (name@.len() > 0 && name@[0] == '@'),
{
    let chars = chars_of(name);
    chars.len() > 0 && chars[0] == '@'
}

} // verus!
