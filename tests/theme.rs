use shadcn_ui::config::{Config, CONFIG_FILE_NAME};
use shadcn_ui::theme::{
    preset_names, select_mode, select_preset, select_radius, theme_description, Radius, ThemeMode,
};

#[test]
fn test_preset_names_complete() {
    let names = preset_names();
    assert_eq!(names.len(), 5);
    assert!(names.contains(&"zinc"));
    assert!(names.contains(&"slate"));
    assert!(names.contains(&"stone"));
    assert!(names.contains(&"gray"));
    assert!(names.contains(&"neutral"));
}

#[test]
fn descriptions_of_presets() {
    assert_eq!(theme_description("zinc"), "Cool gray tones (default)");
    assert_eq!(theme_description("slate"), "Slate blue-gray tones");
    assert_eq!(theme_description("stone"), "Warm stone-brown tones");
    assert_eq!(theme_description("gray"), "Pure neutral gray tones");
    assert_eq!(theme_description("neutral"), "Balanced neutral tones");
    assert_eq!(theme_description("ocean"), "Unknown theme");
    assert_eq!(theme_description(""), "Unknown theme");
}

#[test]
fn preset_selection_falls_back_to_zinc() {
    assert_eq!(select_preset("slate"), "slate");
    assert_eq!(select_preset("neutral"), "neutral");
    assert_eq!(select_preset("ocean"), "zinc");
    assert_eq!(select_preset("Slate"), "zinc");
}

#[test]
fn radius_and_mode_selection() {
    assert_eq!(select_radius("none"), Radius::Zero);
    assert_eq!(select_radius("sm"), Radius::Sm);
    assert_eq!(select_radius("md"), Radius::Md);
    assert_eq!(select_radius("lg"), Radius::Lg);
    assert_eq!(select_radius("full"), Radius::Full);
    assert_eq!(select_radius("huge"), Radius::Md);
    assert_eq!(select_mode(true), ThemeMode::Dark);
    assert_eq!(select_mode(false), ThemeMode::Light);
    assert_eq!(ThemeMode::default(), ThemeMode::Light);
    assert_eq!(Radius::default(), Radius::Md);
}

#[test]
fn default_config_values() {
    let c = Config::default();
    assert_eq!(c.project.components_dir, "src/components/ui");
    assert_eq!(c.project.theme_file, "src/theme.rs");
    assert_eq!(c.theme.base_color, "zinc");
    assert_eq!(c.theme.radius, "md");
    assert!(c.theme.dark_mode);
    assert_eq!(c.registry.url, "https://shadcn-ui-rs.dev/registry");
    assert_eq!(CONFIG_FILE_NAME, "shadcn-ui.toml");
}
