use weave_cli::app::{App, AppScreen, SelectionListState, WizardKey, WizardOutcome};
use weave_cli::manifest::{ManifestEntry, TemplateInfo, WeaveManifest};
use weave_cli::selections::SelectionMode;
use weave_cli::strmap::StrMap;

fn strings(items: &[&str]) -> Vec<String> {
    items.iter().map(|s| s.to_string()).collect()
}

fn entry(label: &str, description: Option<&str>) -> ManifestEntry {
    ManifestEntry {
        label: label.to_string(),
        description: description.map(|d| d.to_string()),
        keep: Vec::new(),
        terraform_keep: Vec::new(),
        env_vars: Vec::new(),
        docker_services: Vec::new(),
        requires: Vec::new(),
        conflicts_with: Vec::new(),
        dependencies: Vec::new(),
        dev_dependencies: Vec::new(),
    }
}

fn manifest() -> WeaveManifest {
    let mut platforms = StrMap::new();
    platforms.insert("taurte".to_string(), entry("Taurte", None));
    platforms.insert("nexpo".to_string(), entry("Nexpo", Some("Next.js + Expo")));
    let mut backends = StrMap::new();
    backends.insert("rust".to_string(), entry("Rust", None));
    backends.insert("go".to_string(), entry("Go", None));
    let mut auth = StrMap::new();
    auth.insert("auth0".to_string(), entry("Auth0", None));
    WeaveManifest {
        template: TemplateInfo { name: "t".to_string(), version: "v1".to_string(), minimum_cli_version: None },
        platforms,
        backends,
        auth,
        database: StrMap::new(),
        cloud: StrMap::new(),
        microservices: StrMap::new(),
        infrastructure: StrMap::new(),
        extras: StrMap::new(),
    }
}

#[test]
fn new_app_shows_only_categories_with_options() {
    let app = App::new(manifest(), "demo".to_string());
    assert_eq!(app.screen, AppScreen::Welcome);
    assert_eq!(app.categories, strings(&["platforms", "backends", "auth"]));
    assert_eq!(app.list_states.len(), 3);
    let p = &app.list_states[0];
    assert_eq!(p.keys, strings(&["nexpo", "taurte"]));
    assert_eq!(p.labels, strings(&["Nexpo", "Taurte"]));
    assert_eq!(p.descriptions, strings(&["Next.js + Expo", "No description available."]));
    assert_eq!(p.mode, SelectionMode::Single);
    assert_eq!(p.checked, vec![false, false]);
    assert_eq!(app.list_states[2].mode, SelectionMode::OptionalSingle);
    assert_eq!(app.selections.project_name, "demo");
}

#[test]
fn full_wizard_walk() {
    let mut app = App::new(manifest(), "demo".to_string());
    assert_eq!(app.handle_key(WizardKey::Enter), WizardOutcome::Continue);
    assert_eq!(app.screen, AppScreen::Selection(0));
    // platforms: single select, Enter picks the highlighted option
    app.handle_key(WizardKey::Down);
    app.handle_key(WizardKey::Enter);
    assert_eq!(app.screen, AppScreen::Selection(1));
    assert_eq!(app.selections.get("platforms"), Some(&strings(&["taurte"])));
    // backends: a selection is required
    app.handle_key(WizardKey::Enter);
    assert_eq!(app.screen, AppScreen::Selection(1));
    assert!(app.selections.get("backends").is_none());
    app.handle_key(WizardKey::Char('a'));
    app.handle_key(WizardKey::Enter);
    assert_eq!(app.selections.get("backends"), Some(&strings(&["go", "rust"])));
    // auth: optional, Enter with nothing selected records an empty selection
    assert_eq!(app.screen, AppScreen::Selection(2));
    app.handle_key(WizardKey::Enter);
    assert_eq!(app.screen, AppScreen::Summary);
    assert_eq!(app.selections.get("auth"), Some(&Vec::new()));
    assert_eq!(app.handle_key(WizardKey::Esc), WizardOutcome::Continue);
    assert_eq!(app.screen, AppScreen::Selection(2));
    app.handle_key(WizardKey::Enter);
    assert_eq!(app.handle_key(WizardKey::Enter), WizardOutcome::Confirm);
}

#[test]
fn select_all_toggles_back_and_escape_goes_back() {
    let mut app = App::new(manifest(), "demo".to_string());
    app.screen = AppScreen::Selection(1);
    app.handle_key(WizardKey::Char('a'));
    assert_eq!(app.list_states[1].checked, vec![true, true]);
    app.handle_key(WizardKey::Char('a'));
    assert_eq!(app.list_states[1].checked, vec![false, false]);
    app.handle_key(WizardKey::Char(' '));
    assert_eq!(app.list_states[1].checked, vec![true, false]);
    app.handle_key(WizardKey::Esc);
    assert_eq!(app.screen, AppScreen::Selection(0));
    app.handle_key(WizardKey::Esc);
    assert_eq!(app.screen, AppScreen::Welcome);
}

#[test]
fn select_all_ignored_outside_multi_select() {
    let mut app = App::new(manifest(), "demo".to_string());
    app.screen = AppScreen::Selection(0);
    app.handle_key(WizardKey::Char('a'));
    assert_eq!(app.list_states[0].checked, vec![false, false]);
}

#[test]
fn quit_from_every_wizard_screen() {
    let mut app = App::new(manifest(), "demo".to_string());
    assert_eq!(app.handle_key(WizardKey::Char('q')), WizardOutcome::Quit);
    app.screen = AppScreen::Selection(1);
    assert_eq!(app.handle_key(WizardKey::Char('q')), WizardOutcome::Quit);
    app.screen = AppScreen::Summary;
    assert_eq!(app.handle_key(WizardKey::Char('q')), WizardOutcome::Quit);
    app.screen = AppScreen::Progress;
    assert_eq!(app.handle_key(WizardKey::Char('q')), WizardOutcome::Continue);
}

#[test]
fn list_navigation_wraps() {
    let mut l = SelectionListState::new(strings(&["a", "b", "c"]), strings(&["A", "B", "C"]), strings(&["x", "y", "z"]), SelectionMode::Multi);
    assert_eq!(l.current_label(), "A");
    l.previous();
    assert_eq!(l.cursor, 2);
    assert_eq!(l.current_description(), "z");
    l.next();
    assert_eq!(l.cursor, 0);
    l.toggle();
    l.next();
    l.next();
    l.toggle();
    assert_eq!(l.selected_keys(), strings(&["a", "c"]));
    l.toggle();
    assert_eq!(l.selected_keys(), strings(&["a"]));
}

#[test]
fn single_and_optional_lists() {
    let mut s = SelectionListState::new(strings(&["a", "b"]), strings(&["A", "B"]), strings(&["", ""]), SelectionMode::Single);
    s.toggle();
    s.toggle();
    assert_eq!(s.selected_keys(), strings(&["a"]));
    s.next();
    s.toggle();
    assert_eq!(s.selected_keys(), strings(&["b"]));
    let mut o = SelectionListState::new(strings(&["a", "b"]), strings(&["A", "B"]), strings(&["", ""]), SelectionMode::OptionalSingle);
    o.toggle();
    assert_eq!(o.selected_keys(), strings(&["a"]));
    o.toggle();
    assert!(o.selected_keys().is_empty());
    let empty = SelectionListState::new(Vec::new(), Vec::new(), Vec::new(), SelectionMode::Multi);
    assert_eq!(empty.current_label(), "");
}

#[test]
fn database_and_cloud_need_a_pick() {
    let mut m = manifest();
    m.database.insert("mongodb".to_string(), entry("MongoDB", None));
    m.database.insert("none".to_string(), entry("None", None));
    m.cloud.insert("aws".to_string(), entry("AWS", None));
    let mut app = App::new(m, "demo".to_string());
    assert_eq!(app.categories, strings(&["platforms", "backends", "auth", "database", "cloud"]));
    app.screen = AppScreen::Selection(3);
    assert_eq!(app.handle_key(WizardKey::Enter), WizardOutcome::Continue);
    assert_eq!(app.screen, AppScreen::Selection(3));
    assert!(app.selections.get("database").is_none());
    app.handle_key(WizardKey::Down);
    app.handle_key(WizardKey::Char(' '));
    app.handle_key(WizardKey::Enter);
    assert_eq!(app.selections.get("database"), Some(&strings(&["none"])));
    assert_eq!(app.screen, AppScreen::Selection(4));
    app.handle_key(WizardKey::Enter);
    assert_eq!(app.screen, AppScreen::Selection(4));
    assert!(app.selections.get("cloud").is_none());
    app.handle_key(WizardKey::Char(' '));
    app.handle_key(WizardKey::Enter);
    assert_eq!(app.selections.get("cloud"), Some(&strings(&["aws"])));
    assert_eq!(app.screen, AppScreen::Summary);
}
