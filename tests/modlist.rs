use shadcn_ui::modlist::{mod_file_text, module_list, module_of, sort_names, text_le, trim_span, trim_text};

fn strings(v: &[&str]) -> Vec<String> {
    v.iter().map(|s| s.to_string()).collect()
}

#[test]
fn merges_existing_and_new_modules_sorted() {
    let existing = "//! UI components generated by shadcn-ui.\n\npub mod card;\n  pub mod button;  \nmod private;\npub mod ;\n";
    let mods = module_list(existing, &strings(&["dialog", "button", "alert"]));
    assert_eq!(mods, strings(&["", "alert", "button", "card", "dialog"]));
}

#[test]
fn new_file_from_nothing() {
    let mods = module_list("", &strings(&["toggle_group", "toggle"]));
    assert_eq!(mods, strings(&["toggle", "toggle_group"]));
    assert_eq!(
        mod_file_text(&mods),
        "//! UI components generated by shadcn-ui.\n\npub mod toggle;\npub mod toggle_group;\n"
    );
    assert_eq!(mod_file_text(&Vec::new()), "//! UI components generated by shadcn-ui.\n\n\n");
}

#[test]
fn declaration_parsing() {
    assert_eq!(module_of("pub mod button;"), Some("button".to_string()));
    assert_eq!(module_of("\t pub mod card;\r"), Some("card".to_string()));
    assert_eq!(module_of("pub mod x"), None);
    assert_eq!(module_of("pub mod;"), None);
    assert_eq!(module_of("mod button;"), None);
    assert_eq!(module_of(""), None);
}

#[test]
fn trimming_uses_unicode_white_space() {
    assert_eq!(trim_text("  a b \t"), "a b");
    assert_eq!(trim_text("\u{3000}x\u{a0}"), "x");
    assert_eq!(trim_text("   "), "");
    assert_eq!(trim_text("x"), "x");
}

#[test]
fn character_order() {
    assert!(text_le("a", "b"));
    assert!(!text_le("b", "a"));
    assert!(text_le("a", "ab"));
    assert!(!text_le("ab", "a"));
    assert!(text_le("same", "same"));
    assert!(text_le("", ""));
    assert!(text_le("Z", "a"));
    let v = strings(&["é", "z", "a", "toggle_group", "toggle", "a"]);
    let mut expected = v.clone();
    expected.sort();
    assert_eq!(sort_names(&v), expected);
}

#[test]
fn trim_span_from_marks() {
    assert_eq!(trim_span(&vec![true, false, true, false, true]), (1, 4));
    assert_eq!(trim_span(&vec![true, true]), (2, 2));
    assert_eq!(trim_span(&vec![]), (0, 0));
    assert_eq!(trim_span(&vec![false]), (0, 1));
}
