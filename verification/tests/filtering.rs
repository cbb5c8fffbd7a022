use package_inventory::catalog::Catalog;
use package_inventory::dispatch::apply;
use package_inventory::inventory::build;
use package_inventory::model::{
    Action, Category, CategoryFilter, InstallState, PackageRow, Selection, StateFilter,
};
use package_inventory::order::sort_rows;
use package_inventory::selection::{filter, row_matches};

fn text(items: &[&str]) -> Vec<String> {
    items.iter().map(|s| s.to_string()).collect()
}

fn row(name: &str, state: InstallState, list: Option<&str>) -> PackageRow {
    let category = match list {
        Some(l) => Category::Listed(l.to_string()),
        None => Category::Unlisted,
    };
    PackageRow::new(name, state, "", category)
}

fn names_in(rows: &[PackageRow]) -> Vec<String> {
    rows.iter().map(|r| r.name.clone()).collect()
}

fn select(search: &str, list: CategoryFilter, state: StateFilter) -> Selection {
    Selection { search: search.to_string(), list, state }
}

fn sample() -> Vec<PackageRow> {
    let mut catalog = Catalog::new();
    catalog.insert("com.a", "A app", "Recommended");
    build(&text(&["com.a", "com.b"]), &text(&["com.a"]), &catalog)
}

#[test]
fn scenario_build_filter_remove_refilter() {
    let mut baseline = sample();
    assert_eq!(names_in(&baseline), text(&["com.a", "com.b"]));
    let installed = select("", CategoryFilter::All, StateFilter::Only(InstallState::Installed));
    let shown = filter(&baseline, &installed);
    assert_eq!(names_in(&shown), text(&["com.a"]));
    assert_eq!(shown[0], baseline[0]);

    let outcome = apply(&baseline[0], Action::Remove, Ok(()));
    assert_eq!(outcome, Ok(InstallState::Uninstalled));
    baseline[0].state = outcome.unwrap();
    let shown = filter(&baseline, &installed);
    assert!(shown.is_empty());
}

#[test]
fn scenario_search_text() {
    let baseline = sample();
    let shown = filter(&baseline, &select("b", CategoryFilter::All, StateFilter::All));
    assert_eq!(names_in(&shown), text(&["com.b"]));
    assert_eq!(shown[0].state, InstallState::Uninstalled);
    assert_eq!(shown[0].description, "[No description]");
    assert_eq!(shown[0].uad_list, Category::Unlisted);
}

#[test]
fn filter_with_nothing_chosen_shows_everything_by_name() {
    let baseline = vec![
        row("b", InstallState::Installed, None),
        row("A", InstallState::Uninstalled, Some("Expert")),
        row("a", InstallState::Installed, None),
        row("B", InstallState::Uninstalled, None),
    ];
    let shown = filter(&baseline, &Selection::all());
    assert_eq!(names_in(&shown), text(&["A", "B", "a", "b"]));
    assert_eq!(shown.len(), baseline.len());
    assert_eq!(shown[0], baseline[1]);
}

#[test]
fn filter_again_gives_the_same() {
    let baseline = vec![
        row("org.z", InstallState::Installed, Some("Expert")),
        row("org.b", InstallState::Installed, Some("Expert")),
        row("com.b", InstallState::Installed, Some("Expert")),
        row("org.a", InstallState::Uninstalled, Some("Expert")),
        row("org.c", InstallState::Installed, None),
    ];
    let selection = select(
        "org",
        CategoryFilter::Only(Category::Listed("Expert".to_string())),
        StateFilter::Only(InstallState::Installed),
    );
    let once = filter(&baseline, &selection);
    let twice = filter(&once, &selection);
    assert_eq!(names_in(&once), text(&["org.b", "org.z"]));
    assert_eq!(once, twice);
}

#[test]
fn filter_leaves_the_baseline_alone() {
    let baseline = sample();
    let copy = baseline.clone();
    let _ = filter(&baseline, &select("a", CategoryFilter::All, StateFilter::All));
    assert_eq!(baseline, copy);
}

#[test]
fn filter_search_is_case_sensitive() {
    let baseline = vec![row("Com.Mail", InstallState::Installed, None)];
    let upper = filter(&baseline, &select("Mail", CategoryFilter::All, StateFilter::All));
    let lower = filter(&baseline, &select("mail", CategoryFilter::All, StateFilter::All));
    assert_eq!(upper.len(), 1);
    assert!(lower.is_empty());
}

#[test]
fn filter_by_category() {
    let baseline = vec![
        row("a", InstallState::Installed, Some("Recommended")),
        row("b", InstallState::Installed, Some("Expert")),
        row("c", InstallState::Installed, None),
    ];
    let listed = CategoryFilter::Only(Category::Listed("Expert".to_string()));
    assert_eq!(names_in(&filter(&baseline, &select("", listed, StateFilter::All))), text(&["b"]));
    let unlisted = CategoryFilter::Only(Category::Unlisted);
    assert_eq!(names_in(&filter(&baseline, &select("", unlisted, StateFilter::All))), text(&["c"]));
}

#[test]
fn filter_by_state() {
    let baseline = vec![
        row("a", InstallState::Installed, None),
        row("b", InstallState::Uninstalled, None),
    ];
    let gone = select("", CategoryFilter::All, StateFilter::Only(InstallState::Uninstalled));
    assert_eq!(names_in(&filter(&baseline, &gone)), text(&["b"]));
}

#[test]
fn filter_needs_all_three_to_hold() {
    let one = row("com.x", InstallState::Installed, Some("Expert"));
    let expert = CategoryFilter::Only(Category::Listed("Expert".to_string()));
    let other = CategoryFilter::Only(Category::Listed("Unsafe".to_string()));
    let installed = StateFilter::Only(InstallState::Installed);
    let removed = StateFilter::Only(InstallState::Uninstalled);
    assert!(row_matches(&one, &select("x", expert.clone(), installed)));
    assert!(!row_matches(&one, &select("y", expert.clone(), installed)));
    assert!(!row_matches(&one, &select("x", other, installed)));
    assert!(!row_matches(&one, &select("x", expert, removed)));
    assert!(row_matches(&one, &select("com.x", CategoryFilter::All, StateFilter::All)));
    assert!(!row_matches(&one, &select("com.xx", CategoryFilter::All, StateFilter::All)));
}

#[test]
fn filter_of_nothing_is_empty() {
    let shown = filter(&Vec::new(), &Selection::all());
    assert!(shown.is_empty());
}

#[test]
fn sort_by_code_point_puts_capitals_first() {
    let rows = vec![
        row("b", InstallState::Installed, None),
        row("a", InstallState::Installed, None),
        row("B", InstallState::Installed, None),
        row("ab", InstallState::Installed, None),
        row("", InstallState::Installed, None),
    ];
    assert_eq!(names_in(&sort_rows(&rows, false)), text(&["", "B", "a", "ab", "b"]));
    assert_eq!(names_in(&sort_rows(&rows, true)), text(&["", "a", "ab", "b", "B"]));
}

#[test]
fn sort_keeps_rows_of_one_name_in_order() {
    let rows = vec![
        row("x", InstallState::Installed, Some("first")),
        row("a", InstallState::Installed, None),
        row("x", InstallState::Uninstalled, Some("second")),
    ];
    let sorted = sort_rows(&rows, false);
    assert_eq!(sorted[0], rows[1]);
    assert_eq!(sorted[1], rows[0]);
    assert_eq!(sorted[2], rows[2]);
}

#[test]
fn sort_by_keys_goes_by_the_keys_alone() {
    let rows = vec![
        row("a", InstallState::Installed, None),
        row("b", InstallState::Installed, None),
        row("c", InstallState::Installed, None),
        row("d", InstallState::Installed, None),
    ];
    let keys = text(&["2", "1", "2", "0"]);
    let out = package_inventory::order::sort_by_keys(&rows, &keys);
    assert_eq!(names_in(&out), text(&["d", "b", "a", "c"]));
}

#[test]
fn sort_by_keys_orders_a_prefix_first() {
    let rows = vec![
        row("long", InstallState::Installed, None),
        row("short", InstallState::Installed, None),
    ];
    let out = package_inventory::order::sort_by_keys(&rows, &text(&["com.a.b", "com.a"]));
    assert_eq!(names_in(&out), text(&["short", "long"]));
}

#[test]
fn sort_folds_letters_beyond_ascii() {
    let rows = vec![
        row("\u{e9}b", InstallState::Installed, None),
        row("\u{c9}a", InstallState::Installed, None),
    ];
    assert_eq!(names_in(&sort_rows(&rows, true)), text(&["\u{c9}a", "\u{e9}b"]));
    assert_eq!(names_in(&sort_rows(&rows, false)), text(&["\u{c9}a", "\u{e9}b"]));
    let rows = vec![
        row("\u{e9}a", InstallState::Installed, None),
        row("\u{c9}b", InstallState::Installed, None),
    ];
    assert_eq!(names_in(&sort_rows(&rows, true)), text(&["\u{e9}a", "\u{c9}b"]));
    assert_eq!(names_in(&sort_rows(&rows, false)), text(&["\u{c9}b", "\u{e9}a"]));
}

#[test]
fn filter_keeps_names_distinct() {
    let baseline = sample();
    let shown = filter(&baseline, &select("com", CategoryFilter::All, StateFilter::All));
    assert_eq!(names_in(&shown), text(&["com.a", "com.b"]));
}
