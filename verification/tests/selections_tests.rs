use weave_cli::selections::{category_display_name, category_instruction, SelectionMode, UserSelections};

fn strings(items: &[&str]) -> Vec<String> {
    items.iter().map(|s| s.to_string()).collect()
}

#[test]
fn new_selections_are_empty() {
    let s = UserSelections::new("demo".to_string());
    assert_eq!(s.project_name, "demo");
    assert!(s.get("platforms").is_none());
    assert_eq!(s.selections.len(), 0);
}

#[test]
fn set_single_replaces_previous_selection() {
    let mut s = UserSelections::new("demo".to_string());
    s.set_multi("platforms", strings(&["nexpo-web", "taurte-web"]));
    s.set_single("platforms", "taurte-desktop".to_string());
    assert_eq!(s.get("platforms"), Some(&strings(&["taurte-desktop"])));
    assert!(s.is_selected("platforms", "taurte-desktop"));
    assert!(!s.is_selected("platforms", "nexpo-web"));
}

#[test]
fn set_multi_is_read_back_and_leaves_other_categories() {
    let mut s = UserSelections::new("demo".to_string());
    s.set_single("auth", "auth0".to_string());
    s.set_multi("backends", strings(&["rust", "go"]));
    assert_eq!(s.get("backends"), Some(&strings(&["rust", "go"])));
    assert!(s.is_selected("backends", "go"));
    assert!(!s.is_selected("backends", "python"));
    assert!(s.is_selected("auth", "auth0"));
    assert!(!s.is_selected("database", "mongodb"));
}

#[test]
fn selection_modes() {
    assert_eq!(UserSelections::selection_mode_for("platforms"), SelectionMode::Single);
    assert_eq!(UserSelections::selection_mode_for("auth"), SelectionMode::OptionalSingle);
    for c in ["backends", "database", "cloud", "microservices", "infrastructure", "extras", "anything"] {
        assert_eq!(UserSelections::selection_mode_for(c), SelectionMode::Multi);
    }
}

#[test]
fn summary_lines_cover_every_category_in_order() {
    let mut s = UserSelections::new("demo".to_string());
    s.set_single("platforms", "nexpo-web".to_string());
    s.set_multi("backends", strings(&["rust", "go"]));
    s.set_multi("auth", Vec::new());
    let lines = s.summary_lines();
    let expected: Vec<(String, String)> = vec![
        ("Platform Stack", "nexpo-web"),
        ("Backend Language", "rust, go"),
        ("Authentication", "None"),
        ("Database", "Not selected"),
        ("Cloud Provider", "Not selected"),
        ("Microservices", "Not selected"),
        ("Infrastructure", "Not selected"),
        ("Extras", "Not selected"),
    ]
    .into_iter()
    .map(|(a, b)| (a.to_string(), b.to_string()))
    .collect();
    assert_eq!(lines, expected);
}

#[test]
fn display_names_and_instructions() {
    assert_eq!(category_display_name("platforms"), "Platform Stack");
    assert_eq!(category_display_name("cloud"), "Cloud Provider");
    assert_eq!(category_display_name("custom"), "custom");
    assert_eq!(category_instruction("platforms"), "Choose your platform stack (pick one)");
    assert_eq!(category_instruction("auth"), "Choose an authentication provider (optional)");
    assert_eq!(category_instruction("extras"), "Select additional features");
    assert_eq!(category_instruction("custom"), "");
}
