use openmeters::settings::{
    order_choices, KeyedChoice,
    canonical_theme_name, clamp_bar_height, initial_persist, persist_allowed, theme_writable,
    theme_write, BarAlignment, BarSettings, ChangeOrigin, FrequencyScale, LoadOutcome,
    MainWindowSettings, MeterMode, PopoutWindowSettings, ThemeChoice, ThemeStore, ThemeWrite,
    VisualFrameRate,
};

#[test]
fn persisted_container_defaults_are_stable() {
    let main = MainWindowSettings::default();
    assert_eq!((main.width, main.height), (420, 520));

    let bar = BarSettings::default();
    assert_eq!(
        (bar.enabled, bar.alignment, bar.height, bar.monitor),
        (false, BarAlignment::Top, 180, None)
    );

    let popout = PopoutWindowSettings::default();
    assert_eq!(
        (popout.width, popout.height, popout.popped_out),
        (0, 0, true)
    );
}


fn listed(choices: &[ThemeChoice]) -> Vec<(&str, bool)> {
    choices
        .iter()
        .map(|choice| (choice.name.as_str(), choice.builtin))
        .collect()
}

#[test]
fn list_sorted_with_default_first() {
    let choices = ThemeStore::choices(vec!["zebra".into(), "alpha".into()]);
    assert_eq!(
        listed(&choices),
        vec![("default", true), ("alpha", false), ("zebra", false)]
    );
}

#[test]
fn theme_choices_skip_the_builtin_stem_and_sort_without_case() {
    let choices = ThemeStore::choices(vec![
        "Beta".into(),
        "default".into(),
        "alpha".into(),
        "Alpha".into(),
    ]);
    assert_eq!(
        listed(&choices),
        vec![
            ("default", true),
            ("alpha", false),
            ("Alpha", false),
            ("Beta", false)
        ]
    );
    assert_eq!(choices[0].display_text(), "default (built-in)");
    assert_eq!(choices[1].display_text(), "alpha");
}

#[test]
fn canonical_names_match_saved_file_stems() {
    let raw = " custom/theme\\name\0 ";
    let name = canonical_theme_name(raw);
    assert_eq!(name, " customthemename ");
    assert_eq!(canonical_theme_name(&name), name);
    let choices = ThemeStore::choices(vec![name.clone()]);
    assert!(choices
        .iter()
        .any(|choice| choice.name == name && !choice.builtin));
}

#[test]
fn theme_files_live_in_the_theme_directory() {
    let store = ThemeStore::new("/home/user/.config/openmeters");
    assert_eq!(store.dir, "/home/user/.config/openmeters/themes");
    assert_eq!(
        store.theme_path("night/owl"),
        "/home/user/.config/openmeters/themes/nightowl.json"
    );
    let rooted = ThemeStore::new("/srv/");
    assert_eq!(rooted.dir, "/srv/themes");
    assert_eq!(ThemeStore::auto_name(1), "default-custom");
    assert_eq!(ThemeStore::auto_name(2), "default-custom-2");
    assert_eq!(ThemeStore::auto_name(17), "default-custom-17");
}

#[test]
fn bar_heights_are_clamped() {
    assert_eq!(clamp_bar_height(10), 24);
    assert_eq!(clamp_bar_height(900), 800);
    assert_eq!(clamp_bar_height(100), 100);
    assert_eq!(clamp_bar_height(clamp_bar_height(5)), 24);
}

#[test]
fn visual_frame_rate_labels_and_intervals() {
    assert_eq!(VisualFrameRate::default(), VisualFrameRate::Fps60);
    assert_eq!(VisualFrameRate::Display.label(), "Match main display");
    assert_eq!(VisualFrameRate::Fps60.interval(), Some(16_666_667));
    assert_eq!(VisualFrameRate::Fps30.interval(), Some(33_333_334));
    assert_eq!(VisualFrameRate::Fps120.interval(), Some(8_333_334));
    assert_eq!(VisualFrameRate::Display.interval(), None);
}

#[test]
fn meter_units_and_labels() {
    assert_eq!(MeterMode::LufsShortTerm.unit_label(), "LUFS");
    assert_eq!(MeterMode::LufsMomentary.unit_label(), "LUFS");
    assert_eq!(MeterMode::RmsFast.unit_label(), "dB");
    assert_eq!(MeterMode::TruePeak.unit_label(), "dB");
    assert_eq!(MeterMode::TruePeak.label(), "True Peak");
    assert_eq!(FrequencyScale::default().label(), "Logarithmic");
}

#[test]
fn automatic_changes_never_persist_before_a_good_load() {
    assert!(!persist_allowed(false, ChangeOrigin::Automatic));
    assert!(persist_allowed(false, ChangeOrigin::User));
    assert!(persist_allowed(true, ChangeOrigin::Automatic));
}

#[test]
fn update_builtin_rejected() {
    assert!(!theme_writable("default"));
    assert!(theme_writable("default-custom"));
    assert!(theme_writable("Default"));
}

#[test]
fn builtin_theme_changes_go_to_a_copy() {
    assert_eq!(theme_write("default"), ThemeWrite::NewCopy);
    assert_eq!(theme_write("default-custom"), ThemeWrite::InPlace);
    assert_ne!(ThemeStore::auto_name(1), "default");
}

#[test]
fn failed_loads_persist_only_after_a_user_change() {
    for (outcome, can_save) in [
        (LoadOutcome::Missing, true),
        (LoadOutcome::Loaded, true),
        (LoadOutcome::Failed, false),
    ] {
        let flag = initial_persist(outcome);
        assert_eq!(flag, can_save);
        let after_automatic = persist_allowed(flag, ChangeOrigin::Automatic);
        assert_eq!(after_automatic, can_save);
        assert!(persist_allowed(after_automatic, ChangeOrigin::User));
    }
}

#[test]
fn keyed_theme_choices_go_builtin_first_then_by_key() {
    let keyed = |name: &str, key: &str, builtin: bool| KeyedChoice {
        choice: ThemeChoice {
            name: name.into(),
            builtin,
        },
        key: key.into(),
    };
    let ordered = order_choices(vec![
        keyed("Zeta", "zeta", false),
        keyed("ÄPFEL", "äpfel", false),
        keyed("default", "default", true),
        keyed("Apple", "apple", false),
    ]);
    let names: Vec<&str> = ordered.iter().map(|k| k.choice.name.as_str()).collect();
    assert_eq!(names, ["default", "Apple", "Zeta", "ÄPFEL"]);
}
