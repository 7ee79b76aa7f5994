//! The saved profile document shared by the editor and the script module,
//! and the conditions under which a document is accepted.
use vstd::prelude::*;
use crate::profile::{
    CompositeFontProfile, PROFILE_SCHEMA_VERSION, ProfileView, default_profile_name, profiles_view,
};
use crate::text::{decimal_digits, push_decimal, push_str, trim_text, trimmed};

verus! {

/// The persisted document: a schema version and the profiles in order.
#[derive(Debug)]
pub struct ProfileDocument<M> {
    pub schema_version: u32,
    pub profiles: Vec<CompositeFontProfile<M>>,
}

/// Why a profile document is refused.
#[derive(Clone, Copy, Debug, PartialEq, Eq, Structural)]
pub enum DocumentError {
    /// The document has another schema version.
    UnsupportedSchema(u32),
    /// The document holds no profile.
    NoProfiles,
    /// No profile is named `default`.
    MissingDefaultProfile,
    /// The profile at this index has a name of white space only.
    EmptyProfileName(usize),
    /// The profile at this index repeats the name of an earlier one.
    DuplicateProfileName(usize),
}

/// Some profile is named `default`.
pub open spec fn has_default_profile<M>(profiles: Seq<ProfileView<M>>) -> bool {
    exists|i: int| 0 <= i < profiles.len() && (#[trigger] profiles[i]).name == default_profile_name()
}

/// The checks that both the editor and the script module make: the schema
/// version, at least one profile, and a `default` profile.
pub open spec fn spec_check_header<M>(schema_version: u32, profiles: Seq<ProfileView<M>>) -> Result<
    (),
    DocumentError,
> {
    if schema_version != 1 {
        Err(DocumentError::UnsupportedSchema(schema_version))
    } else if profiles.len() == 0 {
        Err(DocumentError::NoProfiles)
    } else if !has_default_profile(profiles) {
        Err(DocumentError::MissingDefaultProfile)
    } else {
        Ok(())
    }
}

/// The name checks from index `i` on: no blank name, no repeated name.
pub open spec fn spec_check_names_from<M>(profiles: Seq<ProfileView<M>>, i: int) -> Result<
    (),
    DocumentError,
>
    decreases profiles.len() - i,
{
    if i < 0 || i >= profiles.len() {
        Ok(())
    } else if trimmed(profiles[i].name).len() == 0 {
        Err(DocumentError::EmptyProfileName(i as usize))
    } else if exists|j: int| 0 <= j < i && (#[trigger] profiles[j]).name == profiles[i].name {
        Err(DocumentError::DuplicateProfileName(i as usize))
    } else {
        spec_check_names_from(profiles, i + 1)
    }
}

/// The editor's acceptance of a document: the header checks, then every
/// name in order.
pub open spec fn spec_validate_document<M>(schema_version: u32, profiles: Seq<ProfileView<M>>) -> Result<
    (),
    DocumentError,
> {
    match spec_check_header(schema_version, profiles) {
        Err(e) => Err(e),
        Ok(()) => spec_check_names_from(profiles, 0),
    }
}

/// Profile `k`'s name is not blank and no earlier profile has it.
pub open spec fn name_ok_at<M>(profiles: Seq<ProfileView<M>>, k: int) -> bool {
    &&& trimmed(profiles[k].name).len() > 0
    &&& forall|j: int| 0 <= j < k ==> (#[trigger] profiles[j]).name != profiles[k].name
}

/// A document passes every check: the current schema, some profile, a
/// `default` profile, and names that are neither blank nor repeated.
pub open spec fn document_ok<M>(schema_version: u32, profiles: Seq<ProfileView<M>>) -> bool {
    &&& schema_version == 1
    &&& profiles.len() > 0
    &&& has_default_profile(profiles)
    &&& forall|k: int| 0 <= k < profiles.len() ==> #[trigger] name_ok_at(profiles, k)
}

proof fn lemma_names_from<M>(profiles: Seq<ProfileView<M>>, i: int)
    requires
        0 <= i <= profiles.len(),
    ensures
        (spec_check_names_from(profiles, i) is Ok) == (forall|k: int|
            i <= k < profiles.len() ==> #[trigger] name_ok_at(profiles, k)),
    decreases profiles.len() - i,
{
    if i < profiles.len() {
        lemma_names_from(profiles, i + 1);
        let all_from = forall|k: int| i <= k < profiles.len() ==> #[trigger] name_ok_at(profiles, k);
        if exists|j: int| 0 <= j < i && (#[trigger] profiles[j]).name == profiles[i].name {
            let j = choose|j: int| 0 <= j < i && (#[trigger] profiles[j]).name == profiles[i].name;
            assert(!name_ok_at(profiles, i));
            assert(!all_from);
        } else if trimmed(profiles[i].name).len() == 0 {
            assert(!name_ok_at(profiles, i));
            assert(!all_from);
        } else {
            assert(name_ok_at(profiles, i));
            if spec_check_names_from(profiles, i + 1) is Ok {
                assert forall|k: int| i <= k < profiles.len() implies #[trigger] name_ok_at(
                    profiles,
                    k,
                ) by {
                    if k > i {
                        assert(i + 1 <= k);
                    }
                }
            } else {
                assert(!name_ok_at(profiles, choose|k: int|
                    i + 1 <= k < profiles.len() && !#[trigger] name_ok_at(profiles, k)));
            }
        }
    }
}

/// A document is accepted exactly when it passes every check.
pub proof fn lemma_validate_is_ok<M>(schema_version: u32, profiles: Seq<ProfileView<M>>)
    ensures
        (spec_validate_document(schema_version, profiles) is Ok) == document_ok(
            schema_version,
            profiles,
        ),
{
    lemma_names_from(profiles, 0);
}

impl<M: Copy> ProfileDocument<M> {
    /// A document of the current schema holding the neutral `default` profile.
    pub fn with_builtin_default(neutral_metrics: M) -> (document: Self)
        ensures
            document.schema_version == PROFILE_SCHEMA_VERSION,
            document.profiles@.len() == 1,
            document.profiles@[0]@.name == default_profile_name(),
    {
        let mut profiles = Vec::new();
        profiles.push(CompositeFontProfile::neutral_default(neutral_metrics));
        ProfileDocument { schema_version: PROFILE_SCHEMA_VERSION, profiles }
    }

    /// A document of the current schema holding the given profiles.
    pub fn from_profiles(profiles: Vec<CompositeFontProfile<M>>) -> (document: Self)
        ensures
            document.schema_version == PROFILE_SCHEMA_VERSION,
            document.profiles@ == profiles@,
    {
        ProfileDocument { schema_version: PROFILE_SCHEMA_VERSION, profiles }
    }

    /// Whether some profile is named `default`.
    pub fn has_default_profile(&self) -> (found: bool)
        ensures
            found == has_default_profile(profiles_view(self.profiles@)),
    {
        let ghost view = profiles_view(self.profiles@);
        let key = crate::profile::default_name();
        let mut i: usize = 0;
        while i < self.profiles.len()
            invariant
                view == profiles_view(self.profiles@),
                key@ == default_profile_name(),
                i <= self.profiles@.len(),
                forall|k: int| 0 <= k < i ==> (#[trigger] view[k]).name != default_profile_name(),
            decreases self.profiles@.len() - i,
        {
            if self.profiles[i].name == key {
                assert(view[i as int].name == default_profile_name());
                return true;
            }
            i += 1;
        }
        false
    }

    /// The checks that the script module makes before it uses a document.
    pub fn check_header(&self) -> (result: Result<(), DocumentError>)
        ensures
            result == spec_check_header(self.schema_version, profiles_view(self.profiles@)),
    {
        if self.schema_version != PROFILE_SCHEMA_VERSION {
            return Err(DocumentError::UnsupportedSchema(self.schema_version));
        }
        if self.profiles.len() == 0 {
            return Err(DocumentError::NoProfiles);
        }
        if !self.has_default_profile() {
            return Err(DocumentError::MissingDefaultProfile);
        }
        Ok(())
    }

    /// The checks that the editor makes before it loads or saves a document.
    pub fn validate(&self) -> (result: Result<(), DocumentError>)
        ensures
            result == spec_validate_document(self.schema_version, profiles_view(self.profiles@)),
    {
        self.check_header()?;
        let ghost view = profiles_view(self.profiles@);
        let mut i: usize = 0;
        while i < self.profiles.len()
            invariant
                view == profiles_view(self.profiles@),
                i <= self.profiles@.len(),
                spec_check_header(self.schema_version, view) == Ok::<(), DocumentError>(()),
                spec_check_names_from(view, i as int) == spec_check_names_from(view, 0),
            decreases self.profiles@.len() - i,
        {
            let name = trim_text(self.profiles[i].name.as_str());
            assert(view[i as int].name == self.profiles@[i as int].name@);
            if name.as_str().is_empty() {
                return Err(DocumentError::EmptyProfileName(i));
            }
            let mut j: usize = 0;
            while j < i
                invariant
                    view == profiles_view(self.profiles@),
                    i < self.profiles@.len(),
                    spec_check_header(self.schema_version, view) == Ok::<(), DocumentError>(()),
                    spec_check_names_from(view, i as int) == spec_check_names_from(view, 0),
                    trimmed(view[i as int].name).len() != 0,
                    j <= i,
                    forall|k: int| 0 <= k < j ==> (#[trigger] view[k]).name != view[i as int].name,
                decreases i - j,
            {
                if self.profiles[j].name == self.profiles[i].name {
                    assert(view[j as int].name == view[i as int].name);
                    return Err(DocumentError::DuplicateProfileName(i));
                }
                j += 1;
            }
            i += 1;
        }
        Ok(())
    }
}

/// The editor's message for a refused document.
pub open spec fn document_error_message<M>(profiles: Seq<ProfileView<M>>, error: DocumentError) -> Seq<char> {
    match error {
        DocumentError::UnsupportedSchema(version) => "未対応のプロファイル形式です（schema_version: "@
            + decimal_digits(version as nat) + "、対応: "@ + decimal_digits(1) + "）"@,
        DocumentError::NoProfiles => "プロファイルが1件もありません。"@,
        DocumentError::MissingDefaultProfile => "defaultプロファイルがありません。"@,
        DocumentError::EmptyProfileName(index) => decimal_digits((index + 1) as nat) + "件目のプロファイル名が空です。"@,
        DocumentError::DuplicateProfileName(index) => if index < profiles.len() {
            "プロファイル名「"@ + profiles[index as int].name + "」が重複しています。"@
        } else {
            "プロファイル名「"@ + "」が重複しています。"@
        },
    }
}

impl<M: Copy> ProfileDocument<M> {
    /// The editor's message for a refused document.
    pub fn error_message(&self, error: DocumentError) -> (message: String)
        requires
            error matches DocumentError::EmptyProfileName(index) ==> index < usize::MAX,
        ensures
            message@ == document_error_message(profiles_view(self.profiles@), error),
    {
        let mut message = String::new();
        match error {
            DocumentError::UnsupportedSchema(version) => {
                push_str(&mut message, "未対応のプロファイル形式です（schema_version: ");
                push_decimal(&mut message, version as usize);
                push_str(&mut message, "、対応: ");
                push_decimal(&mut message, PROFILE_SCHEMA_VERSION as usize);
                push_str(&mut message, "）");
            },
            DocumentError::NoProfiles => {
                push_str(&mut message, "プロファイルが1件もありません。");
            },
            DocumentError::MissingDefaultProfile => {
                push_str(&mut message, "defaultプロファイルがありません。");
            },
            DocumentError::EmptyProfileName(index) => {
                push_decimal(&mut message, index + 1);
                push_str(&mut message, "件目のプロファイル名が空です。");
            },
            DocumentError::DuplicateProfileName(index) => {
                push_str(&mut message, "プロファイル名「");
                if index < self.profiles.len() {
                    push_str(&mut message, self.profiles[index].name.as_str());
                }
                push_str(&mut message, "」が重複しています。");
            },
        }
        assert(message@ =~= document_error_message(profiles_view(self.profiles@), error));
        message
    }
}

} // verus!
