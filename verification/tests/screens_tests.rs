use weave_cli::init::{counts_as_content, current_dir_project_name, next_steps, plan_update, UpdatePlan};
use weave_cli::screens::{centered_rect, decimal_string, key_hints, progress_bar, ScreenArea};
use weave_cli::selections::SelectionMode;

#[test]
fn progress_bar_has_forty_cells() {
    let bar = progress_bar(50, "Copying");
    assert_eq!(bar, format!(" [{}{}] 50% — Copying", "█".repeat(20), "░".repeat(20)));
    assert_eq!(progress_bar(0, ""), format!(" [{}] 0% — ", "░".repeat(40)));
    assert_eq!(progress_bar(100, "done"), format!(" [{}] 100% — done", "█".repeat(40)));
    assert_eq!(progress_bar(7, "x"), format!(" [{}{}] 7% — x", "█".repeat(2), "░".repeat(38)));
}

#[test]
fn decimals() {
    assert_eq!(decimal_string(0), "0");
    assert_eq!(decimal_string(42), "42");
    assert_eq!(decimal_string(65535), "65535");
}

#[test]
fn key_hints_by_mode() {
    assert_eq!(
        key_hints(SelectionMode::Single),
        vec![("↑↓", "Navigate"), ("Enter", "Select & Continue"), ("Space", "Select"), ("Esc", "Back"), ("q", "Quit")]
    );
    assert_eq!(key_hints(SelectionMode::OptionalSingle)[2], ("Enter", "Continue (skip if none)"));
    let multi = key_hints(SelectionMode::Multi);
    assert_eq!(multi.len(), 6);
    assert_eq!(multi[2], ("a", "Select All"));
}

#[test]
fn centred_rectangles() {
    let area = ScreenArea { x: 0, y: 0, width: 100, height: 50 };
    assert_eq!(centered_rect(50, 50, area), ScreenArea { x: 25, y: 13, width: 50, height: 25 });
    let full = centered_rect(100, 100, ScreenArea { x: 3, y: 4, width: 40, height: 20 });
    assert_eq!(full, ScreenArea { x: 3, y: 4, width: 40, height: 20 });
}

#[test]
fn next_step_lines() {
    assert_eq!(
        next_steps("demo", false, true),
        vec![
            "    1. cd demo".to_string(),
            "    2. Copy .env.example to .env and fill in your keys".to_string(),
            "    3. bun install".to_string(),
            "    4. bun dev".to_string(),
        ]
    );
    assert_eq!(
        next_steps("demo", true, false),
        vec!["    1. Copy .env.example to .env and fill in your keys".to_string(), "    2. bun dev".to_string()]
    );
}

#[test]
fn current_directory_rules() {
    assert_eq!(current_dir_project_name(Some("site".to_string())), "site");
    assert_eq!(current_dir_project_name(None), "my-project");
    assert!(!counts_as_content(".git"));
    assert!(!counts_as_content(".idea"));
    assert!(counts_as_content("src"));
    assert!(counts_as_content(".github"));
}

#[test]
fn update_plans() {
    assert_eq!(plan_update(true, false), UpdatePlan::UpToDate);
    assert_eq!(plan_update(true, true), UpdatePlan::Redownload);
    assert_eq!(plan_update(false, true), UpdatePlan::Download);
    assert_eq!(plan_update(false, false), UpdatePlan::Download);
}

#[test]
fn centered_rect_rounds_to_cells() {
    let area = ScreenArea { x: 0, y: 0, width: 81, height: 31 };
    assert_eq!(centered_rect(60, 50, area), ScreenArea { x: 16, y: 8, width: 49, height: 15 });
    let shifted = ScreenArea { x: 10, y: 5, width: 81, height: 31 };
    assert_eq!(centered_rect(60, 50, shifted), ScreenArea { x: 26, y: 13, width: 49, height: 15 });
    let odd = ScreenArea { x: 0, y: 0, width: 7, height: 3 };
    assert_eq!(centered_rect(51, 33, odd), ScreenArea { x: 2, y: 1, width: 3, height: 1 });
}
