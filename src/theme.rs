//! Theme presets: their names and descriptions, and the choices that a
//! project's theme settings make among them.
use vstd::prelude::*;
use crate::text::same_text;

verus! {

/// Theme mode (light or dark).
#[derive(Debug, Default, Clone, Copy, PartialEq, Eq, Structural)]
pub enum ThemeMode {
    #[default]
    Light,
    Dark,
}

/// Border radius presets.
#[derive(Debug, Default, Clone, Copy, PartialEq, Eq, Structural)]
pub enum Radius {
    Zero,
    Sm,
    #[default]
    Md,
    Lg,
    Full,
}

/// The names of the built-in presets.
pub open spec fn preset_list() -> Seq<Seq<char>> {
    seq!["zinc"@, "slate"@, "stone"@, "gray"@, "neutral"@]
}

/// All available preset names.
pub fn preset_names() -> (r: Vec<&'static str>)
    ensures
        r@.map_values(|s: &str| s@) == preset_list(),
{
    let mut r: Vec<&'static str> = Vec::new();
    r.push("zinc");
    r.push("slate");
    r.push("stone");
    r.push("gray");
    r.push("neutral");
    assert(r@.map_values(|s: &str| s@) =~= preset_list());
    r
}

/// The one-line description of the preset `name`.
pub open spec fn description_of(name: Seq<char>) -> Seq<char> {
    if name == "zinc"@ {
        "Cool gray tones (default)"@
    } else if name == "slate"@ {
        "Slate blue-gray tones"@
    } else if name == "stone"@ {
        "Warm stone-brown tones"@
    } else if name == "gray"@ {
        "Pure neutral gray tones"@
    } else if name == "neutral"@ {
        "Balanced neutral tones"@
    } else {
        "Unknown theme"@
    }
}

/// The one-line description of the preset `name`.
pub fn theme_description(name: &str) -> (r: &'static str)
    ensures
        r@ == description_of(name@),
{
    if same_text(name, "zinc") {
        "Cool gray tones (default)"
    } else if same_text(name, "slate") {
        "Slate blue-gray tones"
    } else if same_text(name, "stone") {
        "Warm stone-brown tones"
    } else if same_text(name, "gray") {
        "Pure neutral gray tones"
    } else if same_text(name, "neutral") {
        "Balanced neutral tones"
    } else {
        "Unknown theme"
    }
}

/// The preset a theme setting names: itself when it is a built-in preset,
/// and `zinc` otherwise.
pub open spec fn preset_for(base_color: Seq<char>) -> Seq<char> {
    if preset_list().contains(base_color) {
        base_color
    } else {
        "zinc"@
    }
}

/// The built-in preset that `base_color` selects.
pub fn select_preset(base_color: &str) -> (r: &'static str)
    ensures
        r@ == preset_for(base_color@),
{
    let names = preset_names();
    let mut i: usize = 0;
    while i < names.len()
        invariant
            i <= names@.len(),
            names@.map_values(|s: &str| s@) == preset_list(),
            forall|j: int| 0 <= j < i ==> preset_list()[j] != base_color@,
        decreases names.len() - i,
    {
        assert(names@[i as int]@ == preset_list()[i as int]);
        if same_text(names[i], base_color) {
            assert(preset_list().contains(base_color@));
            return names[i];
        }
        i = i + 1;
    }
    assert(!preset_list().contains(base_color@));
    "zinc"
}

/// The radius that a radius setting names, `Md` for an unknown one.
pub open spec fn radius_for(name: Seq<char>) -> Radius {
    if name == "none"@ {
        Radius::Zero
    } else if name == "sm"@ {
        Radius::Sm
    } else if name == "md"@ {
        Radius::Md
    } else if name == "lg"@ {
        Radius::Lg
    } else if name == "full"@ {
        Radius::Full
    } else {
        Radius::Md
    }
}

/// The radius that the setting `name` selects.
pub fn select_radius(name: &str) -> (r: Radius)
    ensures
        r == radius_for(name@),
{
    if same_text(name, "none") {
        Radius::Zero
    } else if same_text(name, "sm") {
        Radius::Sm
    } else if same_text(name, "md") {
        Radius::Md
    } else if same_text(name, "lg") {
        Radius::Lg
    } else if same_text(name, "full") {
        Radius::Full
    } else {
        Radius::Md
    }
}

/// The mode that the dark-mode setting selects.
pub fn select_mode(dark_mode: bool) -> (r: ThemeMode)
    ensures
        r == (if dark_mode {
            ThemeMode::Dark
        } else {
            ThemeMode::Light
        }),
{
    if dark_mode {
        ThemeMode::Dark
    } else {
        ThemeMode::Light
    }
}

} // verus!
