use shadcn_ui::install::{cased_with, find_dependent, title_case, to_pascal_case};
use shadcn_ui::registry::{default_registry, ComponentCategory, ComponentMeta, Registry};

fn meta(name: &str, deps: &[&str]) -> ComponentMeta {
    ComponentMeta {
        name: name.to_string(),
        version: "0.1.0".to_string(),
        description: String::new(),
        gpui_version: ">=0.2.0".to_string(),
        files: vec![format!("{}.rs", name)],
        dependencies: deps.iter().map(|d| d.to_string()).collect(),
        category: ComponentCategory::Input,
    }
}

fn registry(entries: &[(&str, &[&str])]) -> Registry {
    Registry {
        version: "1".to_string(),
        components: entries.iter().map(|(n, d)| meta(n, d)).collect(),
    }
}

#[test]
fn dependency_comes_first() {
    let reg = default_registry();
    assert_eq!(reg.resolve_dependencies(&["toggle_group"]), vec!["toggle", "toggle_group"]);
}

#[test]
fn transitive_dependencies_in_order() {
    let reg = default_registry();
    assert_eq!(
        reg.resolve_dependencies(&["alert_dialog", "button"]),
        vec!["button", "dialog", "alert_dialog"]
    );
    assert_eq!(reg.resolve_dependencies(&["drawer", "sheet"]), vec!["sheet", "drawer"]);
}

#[test]
fn shared_and_repeated_names_appear_once() {
    let reg = registry(&[("a", &["c"]), ("b", &["c"]), ("c", &[])]);
    assert_eq!(reg.resolve_dependencies(&["a", "b", "a", "c"]), vec!["c", "a", "b"]);
    assert!(reg.resolve_dependencies(&[]).is_empty());
}

#[test]
fn unknown_names_are_leaves() {
    let reg = registry(&[("a", &["ghost"])]);
    assert_eq!(reg.resolve_dependencies(&["a", "nope"]), vec!["ghost", "a", "nope"]);
}

#[test]
fn cycles_terminate() {
    let reg = registry(&[("a", &["b"]), ("b", &["a"])]);
    assert_eq!(reg.resolve_dependencies(&["a"]), vec!["b", "a"]);
    let reg = registry(&[("s", &["s"])]);
    assert_eq!(reg.resolve_dependencies(&["s"]), vec!["s"]);
}

#[test]
fn resolution_is_repeatable() {
    let reg = default_registry();
    let req = ["alert_dialog", "toggle_group", "drawer", "card"];
    let first = reg.resolve_dependencies(&req);
    let second = reg.resolve_dependencies(&req);
    assert_eq!(first, second);
    for (i, n) in first.iter().enumerate() {
        assert!(!first[..i].contains(n));
        for d in &reg.find(n).unwrap().dependencies {
            assert!(first[..i].contains(d));
        }
    }
}

#[test]
fn find_takes_the_first_match() {
    let mut reg = registry(&[("a", &[]), ("b", &["x"])]);
    reg.components.push(meta("b", &["y"]));
    assert_eq!(reg.find("b").unwrap().dependencies, vec!["x"]);
    assert!(reg.find("zzz").is_none());
    assert_eq!(reg.resolve_dependencies(&["b"]), vec!["x", "b"]);
}

#[test]
fn catalog_contents() {
    let reg = default_registry();
    assert_eq!(reg.version, "0.2.0");
    let names = reg.component_names();
    assert_eq!(names.len(), 22);
    assert_eq!(names[0], "button");
    assert_eq!(names[21], "sonner");
    assert_eq!(reg.find("dialog").unwrap().dependencies, vec!["button"]);
    assert_eq!(reg.find("alert").unwrap().version, "0.2.0");
    assert_eq!(reg.find("toggle_group").unwrap().files, vec!["toggle_group.rs"]);
    let layout: Vec<&str> =
        reg.by_category(ComponentCategory::Layout).iter().map(|c| c.name.as_str()).collect();
    assert_eq!(layout, vec!["sheet", "drawer"]);
    assert_eq!(reg.by_category(ComponentCategory::Special).len(), 0);
    assert_eq!(reg.by_category(ComponentCategory::Input).len(), 10);
}

#[test]
fn category_labels() {
    assert_eq!(ComponentCategory::Input.display_name(), "Input");
    assert_eq!(ComponentCategory::Display.display_name(), "Display");
    assert_eq!(ComponentCategory::Feedback.display_name(), "Feedback");
    assert_eq!(ComponentCategory::Navigation.display_name(), "Navigation");
    assert_eq!(ComponentCategory::Layout.display_name(), "Layout");
    assert_eq!(ComponentCategory::Special.display_name(), "Special");
}

#[test]
fn dependent_lookup() {
    let reg = default_registry();
    let order = reg.resolve_dependencies(&["alert_dialog"]);
    assert_eq!(find_dependent(&order, "dialog", &reg), "alert_dialog");
    assert_eq!(find_dependent(&order, "button", &reg), "dialog");
    assert_eq!(find_dependent(&order, "card", &reg), "unknown");
}

#[test]
fn name_casing() {
    assert_eq!(title_case("toggle_group"), "Toggle Group");
    assert_eq!(title_case("button"), "Button");
    assert_eq!(to_pascal_case("alert_dialog"), "AlertDialog");
    assert_eq!(to_pascal_case("hover_card"), "HoverCard");
    assert_eq!(title_case(""), "");
    assert_eq!(title_case("a__b"), "A  B");
    assert_eq!(to_pascal_case("_x"), "X");
    assert_eq!(title_case("ßx"), "SSx");
}

#[test]
fn casing_from_given_upper_forms() {
    let upper: Vec<String> = "ab_cd".chars().map(|c| c.to_uppercase().collect()).collect();
    assert_eq!(cased_with("ab_cd", " ", &upper), "Ab Cd");
    let marked: Vec<String> = vec!["<x>", "?", "?", "<y>", "?"].into_iter().map(String::from).collect();
    assert_eq!(cased_with("xy_zw", "-", &marked), "<x>y-<y>w");
}
