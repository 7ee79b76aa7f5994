use compositefont::classify::CharacterClass;
use compositefont::document::{DocumentError, ProfileDocument};
use compositefont::editor::{category_row, EditorModel, ModelError};
use compositefont::profile::{CompositeFontProfile, PROFILE_SCHEMA_VERSION};
use compositefont::staging::{
    compare_names, file_name_of, is_supported_font_path, DestinationKind, FontRegistrationState,
    FontStageOutcome,
};

#[derive(Clone, Copy, Debug, PartialEq)]
struct Metrics {
    size_ratio: f64,
    baseline_shift_em: f64,
    tracking_adjust_em: f64,
}

const NEUTRAL: Metrics = Metrics {
    size_ratio: 1.0,
    baseline_shift_em: 0.0,
    tracking_adjust_em: 0.0,
};

fn builtin_model() -> EditorModel<Metrics> {
    EditorModel::new(ProfileDocument::with_builtin_default(NEUTRAL), NEUTRAL)
}

#[test]
fn creates_renames_and_deletes_profiles() {
    let mut model = builtin_model();
    model.create_profile(NEUTRAL);
    assert_eq!(model.selected_profile().name, "新規プロファイル 1");

    model.rename_selected_profile("字幕").unwrap();
    assert_eq!(model.selected_profile().name, "字幕");

    model.delete_selected_profile().unwrap();
    assert_eq!(model.document().profiles.len(), 1);
    assert_eq!(model.selected_profile().name, "default");
}

#[test]
fn rejects_duplicate_or_empty_profile_names() {
    let mut model = builtin_model();
    model.create_profile(NEUTRAL);
    assert!(model.rename_selected_profile("default").is_err());
    assert!(model.rename_selected_profile("  ").is_err());
}

#[test]
fn keeps_the_default_profile_name() {
    let mut model = builtin_model();
    assert!(model.rename_selected_profile("字幕").is_err());
    assert!(model.delete_selected_profile().is_err());
}

#[test]
fn updates_each_category_as_percent_values() {
    let mut model = builtin_model();
    model.select_category(4);
    let (size_percent, baseline_percent, tracking_percent) = (115.0, -2.0, 3.5);
    model.update_selected_adjustment(
        "DIN 2014",
        Metrics {
            size_ratio: size_percent / 100.0,
            baseline_shift_em: baseline_percent / 100.0,
            tracking_adjust_em: tracking_percent / 100.0,
        },
    );

    let western = &model.selected_profile().western;
    assert_eq!(western.font_family, "DIN 2014");
    assert_eq!(western.metrics.size_ratio, 1.15);
    assert_eq!(western.metrics.baseline_shift_em, -0.02);
    assert_eq!(western.metrics.tracking_adjust_em, 0.035);
}

#[test]
fn keeps_at_least_one_profile() {
    let mut model = builtin_model();
    assert!(model.delete_selected_profile().is_err());
}

#[test]
fn model_errors_name_the_refused_change() {
    let mut model = builtin_model();
    assert_eq!(
        model.rename_selected_profile("字幕"),
        Err(ModelError::DefaultProfileRenamed)
    );
    assert_eq!(
        model.delete_selected_profile(),
        Err(ModelError::DefaultProfileDeleted)
    );
    model.create_profile(NEUTRAL);
    assert_eq!(
        model.rename_selected_profile(" \t"),
        Err(ModelError::EmptyProfileName)
    );
    assert_eq!(
        model.rename_selected_profile("default"),
        Err(ModelError::DuplicateProfileName)
    );
    let only = EditorModel::new(
        ProfileDocument::from_profiles(vec![{
            let mut profile = CompositeFontProfile::neutral_default(NEUTRAL);
            profile.name = "solo".to_owned();
            profile
        }]),
        NEUTRAL,
    );
    let mut only = only;
    assert_eq!(
        only.delete_selected_profile(),
        Err(ModelError::LastProfileDeleted)
    );
}

#[test]
fn new_profiles_take_the_smallest_free_number() {
    let mut model = builtin_model();
    model.create_profile(NEUTRAL);
    model.create_profile(NEUTRAL);
    assert_eq!(model.selected_profile().name, "新規プロファイル 2");
    assert!(model.select_profile(1));
    model.rename_selected_profile("字幕").unwrap();
    model.create_profile(NEUTRAL);
    assert_eq!(model.selected_profile().name, "新規プロファイル 1");
    assert_eq!(model.selected_profile_index(), 3);
    assert_eq!(model.selected_category_index(), 0);
}

#[test]
fn renaming_trims_and_may_keep_the_same_name() {
    let mut model = builtin_model();
    model.create_profile(NEUTRAL);
    model.rename_selected_profile("  字幕  ").unwrap();
    assert_eq!(model.selected_profile().name, "字幕");
    model.rename_selected_profile("字幕").unwrap();
    assert_eq!(model.selected_profile().name, "字幕");
    let mut default_model = builtin_model();
    default_model.rename_selected_profile(" default ").unwrap();
    assert_eq!(default_model.selected_profile().name, "default");
}

#[test]
fn deleting_the_last_profile_in_the_list_selects_the_one_before() {
    let mut model = builtin_model();
    model.create_profile(NEUTRAL);
    model.create_profile(NEUTRAL);
    assert_eq!(model.selected_profile_index(), 2);
    model.delete_selected_profile().unwrap();
    assert_eq!(model.selected_profile_index(), 1);
    assert_eq!(model.selected_profile().name, "新規プロファイル 1");
}

#[test]
fn selections_out_of_range_change_nothing() {
    let mut model = builtin_model();
    assert!(!model.select_profile(1));
    assert!(!model.select_category(7));
    assert!(model.select_category(6));
    assert_eq!(model.selected_category_index(), 6);
    assert_eq!(category_row(6).class, CharacterClass::Other);
    assert_eq!(category_row(0).class, CharacterClass::Kanji);
    assert_eq!(category_row(0).label, "漢字");
}

#[test]
fn an_empty_document_is_replaced_by_the_builtin_one() {
    let model: EditorModel<Metrics> = EditorModel::new(ProfileDocument::from_profiles(Vec::new()), NEUTRAL);
    assert_eq!(model.document().profiles.len(), 1);
    assert_eq!(model.selected_profile().name, "default");
}

#[test]
fn documents_are_validated_in_order() {
    let named = |name: &str| {
        let mut profile = CompositeFontProfile::neutral_default(NEUTRAL);
        profile.name = name.to_owned();
        profile
    };
    let good = ProfileDocument::from_profiles(vec![named("default"), named("字幕")]);
    assert_eq!(good.validate(), Ok(()));
    let wrong_schema = ProfileDocument {
        schema_version: PROFILE_SCHEMA_VERSION + 1,
        profiles: vec![named("default")],
    };
    assert_eq!(
        wrong_schema.validate(),
        Err(DocumentError::UnsupportedSchema(PROFILE_SCHEMA_VERSION + 1))
    );
    let empty: ProfileDocument<Metrics> = ProfileDocument::from_profiles(Vec::new());
    assert_eq!(empty.validate(), Err(DocumentError::NoProfiles));
    let no_default = ProfileDocument::from_profiles(vec![named("字幕")]);
    assert_eq!(no_default.validate(), Err(DocumentError::MissingDefaultProfile));
    let blank = ProfileDocument::from_profiles(vec![named("default"), named("  ")]);
    assert_eq!(blank.validate(), Err(DocumentError::EmptyProfileName(1)));
    let twice = ProfileDocument::from_profiles(vec![named("a"), named("default"), named("a")]);
    assert_eq!(twice.validate(), Err(DocumentError::DuplicateProfileName(2)));
}

#[test]
fn recognizes_supported_font_extensions_case_insensitively() {
    for name in ["a.ttf", "b.OTF", "c.Ttc", "d.oTc"] {
        assert!(is_supported_font_path(name), "{name}");
    }
    for name in ["a.woff2", "b.txt", "no-extension"] {
        assert!(!is_supported_font_path(name), "{name}");
    }
}

#[test]
fn font_paths_are_split_at_either_separator() {
    assert_eq!(file_name_of("fonts/nested/a.TTF").as_deref(), Some("a.TTF"));
    assert_eq!(file_name_of("C:\\fonts\\b.otf").as_deref(), Some("b.otf"));
    assert_eq!(file_name_of("fonts/c.ttc/").as_deref(), Some("c.ttc"));
    assert_eq!(file_name_of("fonts/.."), None);
    assert_eq!(file_name_of(""), None);
    assert!(!is_supported_font_path(".ttf"));
    assert!(!is_supported_font_path("fonts/.otf"));
    assert!(is_supported_font_path("fonts/x.y.otc"));
}

#[test]
fn current_directory_components_at_the_end_name_no_file() {
    assert_eq!(file_name_of("a.ttf/.").as_deref(), Some("a.ttf"));
    assert_eq!(file_name_of("fonts/./b.otf/./").as_deref(), Some("b.otf"));
    assert_eq!(file_name_of("fonts\\c.ttc\\.").as_deref(), Some("c.ttc"));
    assert_eq!(file_name_of("fonts/x./"), Some("x.".to_owned()));
    assert_eq!(file_name_of("."), None);
    assert_eq!(file_name_of("./."), None);
    assert_eq!(file_name_of("/."), None);
    assert_eq!(file_name_of("a/../."), None);
    assert!(is_supported_font_path("a.ttf/."));
    assert!(!is_supported_font_path("a.ttf/.."));
}

#[test]
fn file_names_agree_with_std_paths_for_slash_separated_paths() {
    for path in [
        "a.ttf", "a.ttf/", "a.ttf/.", "a.ttf/./", "dir/./a.otf/.", ".", "./.", "/", "/.", "..",
        "a/..", "a/../.", "dir//b.ttc", ".hidden", "x.", "", "./a.ttf", "a/./.",
    ] {
        let expected = std::path::Path::new(path)
            .file_name()
            .map(|name| name.to_str().unwrap().to_owned());
        assert_eq!(file_name_of(path), expected, "{path:?}");
    }
}

#[test]
fn names_compare_by_code_points() {
    assert!(compare_names("a.ttf", "b.ttf") < 0);
    assert!(compare_names("b", "a") > 0);
    assert_eq!(compare_names("同じ", "同じ"), 0);
    assert!(compare_names("ab", "abc") < 0);
    assert!(compare_names("Z", "a") < 0);
}

fn paths(items: &[&str]) -> Vec<String> {
    items.iter().map(|item| item.to_string()).collect()
}

#[test]
fn stages_new_fonts_without_overwriting_existing_files() {
    let mut state = FontRegistrationState::default();
    let files = paths(&["source/nested/test.ttf"]);
    let first = state
        .stage_fonts_for_next_launch(&files, &vec![DestinationKind::Missing])
        .unwrap();
    assert_eq!(first.outcome.source_file_count, 1);
    assert_eq!(first.outcome.added_file_count, 1);
    assert_eq!(first.outcome.existing_file_count, 0);
    assert_eq!(first.copies, vec![0]);
    assert_eq!(first.fonts[0].file_name, "test.ttf");
    assert_eq!(first.fonts[0].source_path, "source/nested/test.ttf");

    let second = state
        .stage_fonts_for_next_launch(&files, &vec![DestinationKind::File])
        .unwrap();
    assert_eq!(second.outcome.added_file_count, 0);
    assert_eq!(second.outcome.existing_file_count, 1);
    assert!(second.copies.is_empty());
}

#[test]
fn a_second_staging_after_the_copies_adds_nothing() {
    let mut state = FontRegistrationState::default();
    let files = paths(&["src/z.otf", "src/nested/a.TTF", "src/m.ttc"]);
    let before = vec![DestinationKind::Missing, DestinationKind::File, DestinationKind::Missing];
    let first = state.stage_fonts_for_next_launch(&files, &before).unwrap();
    assert_eq!(first.failure, None);
    assert_eq!(first.outcome.added_file_count, 2);
    assert_eq!(first.outcome.existing_file_count, 1);
    let after: Vec<DestinationKind> = before
        .iter()
        .map(|kind| match kind {
            DestinationKind::Missing => DestinationKind::File,
            other => *other,
        })
        .collect();
    let second = state.stage_fonts_for_next_launch(&files, &after).unwrap();
    assert_eq!(second.failure, None);
    assert!(second.copies.is_empty());
    assert_eq!(second.outcome.source_file_count, 3);
    assert_eq!(second.outcome.added_file_count, 0);
    assert_eq!(second.outcome.existing_file_count, 3);
}

#[test]
fn rejects_duplicate_file_names_from_nested_source_directories() {
    let mut state = FontRegistrationState::default();
    let files = paths(&["source/a/font.otf", "source/b/font.otf"]);
    let error = state
        .stage_fonts_for_next_launch(&files, &vec![DestinationKind::Missing; 2])
        .unwrap_err();
    assert!(error.contains("duplicate private font file name"));
    assert_eq!(
        error,
        "duplicate private font file name font.otf: source/a/font.otf and source/b/font.otf"
    );
}

#[test]
fn staging_orders_fonts_by_file_name_and_stops_at_a_folder() {
    let mut state = FontRegistrationState::default();
    let files = paths(&["src/z.otf", "src/nested/a.TTF", "src/m.ttc", "src/b.otc"]);
    let destinations = vec![
        DestinationKind::Missing,
        DestinationKind::File,
        DestinationKind::Other,
        DestinationKind::Missing,
    ];
    let plan = state
        .stage_fonts_for_next_launch(&files, &destinations)
        .unwrap();
    let names: Vec<&str> = plan.fonts.iter().map(|font| font.file_name.as_str()).collect();
    assert_eq!(names, ["a.TTF", "b.otc", "m.ttc", "z.otf"]);
    assert_eq!(plan.failure, Some(2));
    assert_eq!(plan.copies, vec![1]);
    assert_eq!(plan.outcome.added_file_count, 1);
    assert_eq!(plan.outcome.existing_file_count, 1);
    assert_eq!(plan.outcome.source_file_count, 4);
}

#[test]
fn staging_nothing_gives_an_empty_outcome() {
    let mut state = FontRegistrationState::default();
    let plan = state.stage_fonts_for_next_launch(&Vec::new(), &Vec::new()).unwrap();
    assert_eq!(plan.outcome, FontStageOutcome::default());
    assert!(plan.fonts.is_empty());
    assert_eq!(plan.failure, None);
}

#[test]
fn a_path_without_a_file_name_is_refused() {
    let mut state = FontRegistrationState::default();
    let error = state
        .stage_fonts_for_next_launch(&paths(&["fonts/.."]), &vec![DestinationKind::Missing])
        .unwrap_err();
    assert_eq!(error, "font path has no file name: fonts/..");
}

#[test]
fn profiles_and_rows_change_in_place() {
    let mut model = builtin_model();
    model.create_profile(NEUTRAL);
    model.selected_profile_mut().name = "字幕".to_owned();
    model
        .selected_profile_mut()
        .adjustment_for_mut(CharacterClass::Kanji)
        .font_family = "Std".to_owned();
    assert_eq!(model.selected_profile().name, "字幕");
    assert_eq!(model.selected_adjustment().font_family, "Std");
    assert_eq!(model.document().profiles[0].kanji.font_family, "");
}

#[test]
fn refusals_have_the_editor_messages() {
    assert_eq!(
        ModelError::DuplicateProfileName.message("  字幕 "),
        "プロファイル「字幕」は既に存在します。"
    );
    assert_eq!(
        ModelError::LastProfileDeleted.message(""),
        "最後のプロファイルは削除できません。"
    );
    let named = |name: &str| {
        let mut profile = CompositeFontProfile::neutral_default(NEUTRAL);
        profile.name = name.to_owned();
        profile
    };
    let twice = ProfileDocument::from_profiles(vec![named("default"), named("a"), named("a")]);
    let error = twice.validate().unwrap_err();
    assert_eq!(twice.error_message(error), "プロファイル名「a」が重複しています。");
    let blank = ProfileDocument::from_profiles(vec![named("default"), named(" ")]);
    let error = blank.validate().unwrap_err();
    assert_eq!(blank.error_message(error), "2件目のプロファイル名が空です。");
    let schema = ProfileDocument {
        schema_version: 7,
        profiles: vec![named("default")],
    };
    let error = schema.validate().unwrap_err();
    assert_eq!(
        schema.error_message(error),
        "未対応のプロファイル形式です（schema_version: 7、対応: 1）"
    );
}

#[test]
fn the_font_box_lists_system_and_profile_fonts_once_in_order() {
    let mut model = builtin_model();
    model.select_category(0);
    model.update_selected_adjustment("Std", NEUTRAL);
    let fonts = model.font_choices(&vec![
        "Yu Gothic UI".to_owned(),
        "@Yu Gothic UI".to_owned(),
        "".to_owned(),
        "Arial".to_owned(),
        "Std".to_owned(),
    ]);
    assert_eq!(fonts, ["Arial", "Std", "Yu Gothic UI"]);
    let empty = builtin_model().font_choices(&vec!["@Vertical".to_owned()]);
    assert_eq!(empty, ["Arial", "Yu Gothic UI"]);
}
