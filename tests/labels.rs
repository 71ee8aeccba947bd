use indexmap::IndexMap;
use workstyle::config::{Config, Other};
use workstyle::label::{matching_rule, new_workspace_name, pretty_window, pretty_windows, rename_plan};
use workstyle::text::first_token_of;
use workstyle::window::{matches_lowered, Window};

fn window(name: Option<&str>, app_id: Option<&str>, class: Option<&str>) -> Window {
    Window {
        name: name.map(|s| s.to_string()),
        app_id: app_id.map(|s| s.to_string()),
        window_properties_class: class.map(|s| s.to_string()),
    }
}

fn class_window(class: &str) -> Window {
    window(None, None, Some(class))
}

fn config(rules: &[(&str, &str)], other: Other) -> Config {
    let mut mappings = IndexMap::new();
    for (p, i) in rules {
        mappings.insert(p.to_string(), i.to_string());
    }
    Config { mappings, other }
}

fn fct_rules() -> Vec<(&'static str, &'static str)> {
    vec![("firefox", "F"), ("chromium", "C"), ("foot", "T")]
}

#[test]
fn label_follows_window_order() {
    let c = config(&fct_rules(), Other::default());
    let ws = vec![class_window("firefox"), class_window("chromium"), class_window("foot")];
    assert_eq!(pretty_windows(&c, &ws), "F C T ");
}

#[test]
fn label_keeps_repeats_without_dedup() {
    let c = config(&fct_rules(), Other::default());
    let ws = vec![class_window("chromium"), class_window("foot"), class_window("chromium")];
    assert_eq!(pretty_windows(&c, &ws), "C T C ");
}

#[test]
fn dedup_shows_icon_once() {
    let other = Other { deduplicate_icons: true, ..Other::default() };
    let c = config(&fct_rules(), other);
    let ws = vec![class_window("chromium"), class_window("chromium")];
    let label = pretty_windows(&c, &ws);
    assert_eq!(label, "C ");
    assert_eq!(label.matches('C').count(), 1);
}

#[test]
fn dedup_keeps_first_seen_order() {
    let other = Other { deduplicate_icons: true, ..Other::default() };
    let c = config(&fct_rules(), other);
    let ws = vec![
        class_window("foot"),
        class_window("chromium"),
        class_window("foot"),
        class_window("firefox"),
        class_window("chromium"),
    ];
    assert_eq!(pretty_windows(&c, &ws), "T C F ");
}

#[test]
fn unmatched_window_gets_default_fallback() {
    let c = config(&fct_rules(), Other::default());
    assert_eq!(pretty_window(&c, &class_window("gimp")), "-");
}

#[test]
fn unmatched_window_gets_configured_fallback() {
    let other = Other { fallback_icon: Some("?".to_string()), ..Other::default() };
    let c = config(&fct_rules(), other);
    assert_eq!(pretty_window(&c, &class_window("gimp")), "?");
    assert_eq!(pretty_windows(&c, &[class_window("gimp"), class_window("foot")]), "? T ");
}

#[test]
fn first_matching_rule_wins() {
    let c = config(&[("fire", "1"), ("firefox", "2")], Other::default());
    assert_eq!(pretty_window(&c, &class_window("firefox")), "1");
    let c = config(&[("firefox", "2"), ("fire", "1")], Other::default());
    assert_eq!(pretty_window(&c, &class_window("firefox")), "2");
}

#[test]
fn matching_lowercases_the_window_not_the_pattern() {
    let w = window(Some("Mozilla FIREFOX"), None, None);
    assert!(w.matches("firefox"));
    assert!(!w.matches("FIREFOX"));
    assert!(!w.matches("chromium"));
    let w = window(None, Some("org.Foot"), None);
    assert!(w.matches("foot"));
    let w = window(None, None, None);
    assert!(!w.matches(""));
    assert!(!w.has_identity());
    assert!(class_window("x").has_identity());
}

#[test]
fn empty_pattern_matches_any_present_field() {
    assert!(class_window("anything").matches(""));
}

#[test]
fn empty_workspace_renames_to_ordinal() {
    assert_eq!(new_workspace_name("3: F C ", ": ", ""), "3");
    assert_eq!(new_workspace_name("3", ": ", ""), "3");
    let c = config(&fct_rules(), Other::default());
    let plan = rename_plan(&c, &vec![("7: T ".to_string(), Vec::new())]);
    assert_eq!(plan, vec![("7: T ".to_string(), "7".to_string())]);
}

#[test]
fn workspace_name_joins_ordinal_separator_label() {
    assert_eq!(new_workspace_name("2: old", ": ", "F C "), "2: F C ");
    assert_eq!(new_workspace_name("2", " | ", "T "), "2 | T ");
    assert_eq!(new_workspace_name("2 | x | y", " | ", "T "), "2 | T ");
}

#[test]
fn ordinal_is_text_before_first_separator() {
    assert_eq!(first_token_of("1: www: a", ": "), "1");
    assert_eq!(first_token_of("main", ": "), "main");
    assert_eq!(first_token_of(": x", ": "), "");
}

#[test]
fn rename_plan_covers_every_workspace_in_order() {
    let c = config(&fct_rules(), Other::default());
    let ws = vec![
        ("1".to_string(), vec![class_window("firefox"), class_window("foot")]),
        ("2: C ".to_string(), vec![class_window("chromium")]),
        ("3".to_string(), Vec::new()),
    ];
    let plan = rename_plan(&c, &ws);
    assert_eq!(
        plan,
        vec![
            ("1".to_string(), "1: F T ".to_string()),
            ("2: C ".to_string(), "2: C ".to_string()),
            ("3".to_string(), "3".to_string()),
        ]
    );
}

#[test]
fn separator_defaults_and_configured() {
    let c = config(&fct_rules(), Other::default());
    assert_eq!(c.separator(), ": ");
    let other = Other { separator: Some(" | ".to_string()), ..Other::default() };
    let c = config(&fct_rules(), other);
    assert_eq!(c.separator(), " | ");
}

#[test]
fn separator_inside_an_icon_falls_back_to_default() {
    let other = Other { separator: Some("|".to_string()), ..Other::default() };
    let c = config(&[("a", "x|y")], other);
    assert_eq!(c.separator(), ": ");
}

#[test]
fn separator_inside_fallback_icon_falls_back_to_default() {
    let other = Other {
        separator: Some("#".to_string()),
        fallback_icon: Some("#?".to_string()),
        ..Other::default()
    };
    let c = config(&[("a", "b")], other);
    assert_eq!(c.separator(), ": ");
}

#[test]
fn empty_separator_is_never_used() {
    let other = Other { separator: Some(String::new()), ..Other::default() };
    let c = config(&[], other);
    assert_eq!(c.separator(), ": ");
}

#[test]
fn rename_plan_uses_configured_separator() {
    let other = Other { separator: Some(" - ".to_string()), ..Other::default() };
    let c = config(&fct_rules(), other);
    let plan = rename_plan(&c, &vec![("4 - old".to_string(), vec![class_window("foot")])]);
    assert_eq!(plan[0].1, "4 - T ");
}

#[test]
fn matching_rule_gives_first_match() {
    let c = config(&[("fire", "1"), ("foot", "2"), ("firefox", "3")], Other::default());
    assert_eq!(matching_rule(&c, &class_window("Firefox")), Some(0));
    assert_eq!(matching_rule(&c, &class_window("foot")), Some(1));
    assert_eq!(matching_rule(&c, &class_window("gimp")), None);
    assert_eq!(matching_rule(&config(&[], Other::default()), &class_window("foot")), None);
}

#[test]
fn matches_lowered_takes_text_as_given() {
    let some = |s: &str| Some(s.to_string());
    assert!(matches_lowered(&None, &some("org.foot"), &None, "foot"));
    assert!(!matches_lowered(&some("FOOT"), &None, &None, "foot"));
    assert!(matches_lowered(&None, &None, &some("xfirefoxx"), "firefox"));
    assert!(!matches_lowered(&None, &None, &None, ""));
    assert!(matches_lowered(&some(""), &None, &None, ""));
}
