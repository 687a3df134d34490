use openmeters::visuals::{ConfigValue, ModuleSettings, VisualKind, VisualSettings};

fn field(name: &str, value: &str) -> (String, String) {
    (name.to_string(), value.to_string())
}

#[test]
fn palettes_go_into_a_module_config_and_read_back() {
    let mut module = ModuleSettings {
        enabled: Some(true),
        config: Some(ConfigValue::Object(vec![field("fft_size", "4096")])),
    };
    module.override_palette(Some("{\"stops\":[]}".to_string()));
    assert_eq!(module.extract_palette().as_deref(), Some("{\"stops\":[]}"));
    assert_eq!(
        module.config,
        Some(ConfigValue::Object(vec![
            field("fft_size", "4096"),
            field("palette", "{\"stops\":[]}")
        ]))
    );

    module.override_palette(Some("null".to_string()));
    assert_eq!(module.extract_palette().as_deref(), Some("null"));

    module.override_palette(None);
    assert_eq!(module.extract_palette(), None);
    assert_eq!(
        module.config,
        Some(ConfigValue::Object(vec![field("fft_size", "4096")]))
    );
    assert_eq!(module.enabled, Some(true));
}

#[test]
fn a_module_without_config_gets_an_object_and_other_values_stay() {
    let mut empty = ModuleSettings::default();
    empty.override_palette(Some("[1]".to_string()));
    assert_eq!(
        empty.config,
        Some(ConfigValue::Object(vec![field("palette", "[1]")]))
    );

    let mut other = ModuleSettings {
        enabled: None,
        config: Some(ConfigValue::Other("42".to_string())),
    };
    other.override_palette(Some("[1]".to_string()));
    assert_eq!(other.config, Some(ConfigValue::Other("42".to_string())));
    assert_eq!(other.extract_palette(), None);
}

#[test]
fn stripping_every_palette_keeps_the_rest() {
    let mut settings = VisualSettings {
        modules: vec![
            (
                VisualKind::Spectrum,
                ModuleSettings {
                    enabled: Some(false),
                    config: Some(ConfigValue::Object(vec![
                        field("palette", "{}"),
                        field("smoothing", "0.5"),
                    ])),
                },
            ),
            (VisualKind::Loudness, ModuleSettings::default()),
        ],
        order: vec![VisualKind::Loudness, VisualKind::Spectrum],
    };
    settings.strip_all_palettes();
    assert_eq!(
        settings.modules[0].1.config,
        Some(ConfigValue::Object(vec![field("smoothing", "0.5")]))
    );
    assert_eq!(settings.modules[0].1.enabled, Some(false));
    assert_eq!(settings.modules[1].1, ModuleSettings::default());
    assert_eq!(settings.order, vec![VisualKind::Loudness, VisualKind::Spectrum]);
}
