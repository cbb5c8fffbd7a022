use package_inventory::catalog::{Catalog, Package};
use package_inventory::inventory::{build, holds_name};
use package_inventory::model::{Category, InstallState, PackageRow};

fn strings(items: &[&str]) -> Vec<String> {
    items.iter().map(|s| s.to_string()).collect()
}

fn names_of(rows: &[PackageRow]) -> Vec<String> {
    rows.iter().map(|r| r.name.clone()).collect()
}

#[test]
fn build_merges_device_and_catalog() {
    let mut catalog = Catalog::new();
    catalog.insert("com.a", "A app", "Recommended");
    let rows = build(&strings(&["com.a", "com.b"]), &strings(&["com.a"]), &catalog);
    assert_eq!(rows.len(), 2);
    assert_eq!(
        rows[0],
        PackageRow::new(
            "com.a",
            InstallState::Installed,
            "A app",
            Category::Listed("Recommended".to_string())
        )
    );
    assert_eq!(
        rows[1],
        PackageRow::new("com.b", InstallState::Uninstalled, "[No description]", Category::Unlisted)
    );
}

#[test]
fn build_keeps_one_row_for_each_name() {
    let catalog = Catalog::new();
    let all = strings(&["x", "y", "x", "z", "y", "x"]);
    let rows = build(&all, &strings(&[]), &catalog);
    assert_eq!(names_of(&rows), strings(&["x", "y", "z"]));
}

#[test]
fn build_of_nothing_is_empty() {
    let catalog = Catalog::new();
    let rows = build(&strings(&[]), &strings(&["com.a"]), &catalog);
    assert!(rows.is_empty());
}

#[test]
fn build_orders_without_regard_to_case() {
    let catalog = Catalog::new();
    let rows = build(&strings(&["B", "a", "C", "b"]), &strings(&[]), &catalog);
    assert_eq!(names_of(&rows), strings(&["a", "B", "b", "C"]));
}

#[test]
fn build_keeps_order_of_names_equal_but_for_case() {
    let catalog = Catalog::new();
    let rows = build(&strings(&["b", "A", "a", "B"]), &strings(&[]), &catalog);
    assert_eq!(names_of(&rows), strings(&["A", "a", "b", "B"]));
}

#[test]
fn build_names_are_case_sensitive_keys() {
    let mut catalog = Catalog::new();
    catalog.insert("com.a", "lower", "Recommended");
    let rows = build(&strings(&["Com.A", "com.a"]), &strings(&["Com.A"]), &catalog);
    assert_eq!(rows.len(), 2);
    assert_eq!(
        rows[0],
        PackageRow::new("Com.A", InstallState::Installed, "[No description]", Category::Unlisted)
    );
    assert_eq!(
        rows[1],
        PackageRow::new(
            "com.a",
            InstallState::Uninstalled,
            "lower",
            Category::Listed("Recommended".to_string())
        )
    );
}

#[test]
fn build_state_follows_the_installed_set() {
    let catalog = Catalog::new();
    let installed = strings(&["p2", "p4", "elsewhere"]);
    let rows = build(&strings(&["p1", "p2", "p3", "p4"]), &installed, &catalog);
    for row in rows.iter() {
        let active = installed.contains(&row.name);
        assert_eq!(row.state == InstallState::Installed, active);
    }
    assert_eq!(rows.len(), 4);
}

#[test]
fn build_unknown_packages_get_the_sentinels() {
    let mut catalog = Catalog::new();
    catalog.insert("known", "Known", "Advanced");
    let rows = build(&strings(&["known", "unknown"]), &strings(&[]), &catalog);
    assert_eq!(rows[0].description, "Known");
    assert_eq!(rows[0].uad_list, Category::Listed("Advanced".to_string()));
    assert_eq!(rows[1].description, "[No description]");
    assert_eq!(rows[1].uad_list, Category::Unlisted);
}

#[test]
fn catalog_lookup_finds_what_was_inserted() {
    let mut catalog = Catalog::new();
    assert_eq!(catalog.lookup(&"com.a".to_string()), None);
    catalog.insert("com.a", "A app", "Recommended");
    catalog.insert("com.b", "B app", "Expert");
    let found = catalog.lookup(&"com.a".to_string());
    assert_eq!(
        found,
        Some(&Package { description: "A app".to_string(), list: "Recommended".to_string() })
    );
    assert_eq!(catalog.lookup(&"com.c".to_string()), None);
    assert_eq!(catalog.lookup(&"COM.A".to_string()), None);
}

#[test]
fn catalog_insert_replaces_an_earlier_entry() {
    let mut catalog = Catalog::new();
    catalog.insert("com.a", "old", "Recommended");
    catalog.insert("com.a", "new", "Unsafe");
    let found = catalog.lookup(&"com.a".to_string());
    assert_eq!(found, Some(&Package { description: "new".to_string(), list: "Unsafe".to_string() }));
}

#[test]
fn holds_name_is_exact() {
    let set = strings(&["com.a", "com.b"]);
    assert!(holds_name(&set, &"com.b".to_string()));
    assert!(!holds_name(&set, &"com".to_string()));
    assert!(!holds_name(&set, &"Com.a".to_string()));
    assert!(!holds_name(&strings(&[]), &"com.a".to_string()));
}

#[test]
fn row_duplicate_is_equal() {
    let row = PackageRow::new(
        "com.a",
        InstallState::Installed,
        "A app",
        Category::Listed("Recommended".to_string()),
    );
    assert_eq!(row.duplicate(), row);
    assert!(row.uad_list.same(&Category::Listed("Recommended".to_string())));
    assert!(!row.uad_list.same(&Category::Listed("recommended".to_string())));
    assert!(!row.uad_list.same(&Category::Unlisted));
    assert!(Category::Unlisted.same(&Category::Unlisted));
}

#[test]
fn reconcile_keeps_the_order_of_first_occurrence() {
    let mut catalog = Catalog::new();
    catalog.insert("b", "B", "Expert");
    let rows = package_inventory::inventory::reconcile(
        &strings(&["z", "b", "z", "a", "b"]),
        &strings(&["a"]),
        &catalog,
    );
    assert_eq!(names_of(&rows), strings(&["z", "b", "a"]));
    assert_eq!(rows[1].description, "B");
    assert_eq!(rows[1].uad_list, Category::Listed("Expert".to_string()));
    assert_eq!(rows[2].state, InstallState::Installed);
    assert_eq!(rows[0].state, InstallState::Uninstalled);
}

#[test]
fn build_length_is_the_number_of_distinct_names() {
    let catalog = Catalog::new();
    let all = strings(&["a", "A", "a", "b", "", "b", ""]);
    let rows = build(&all, &strings(&[]), &catalog);
    assert_eq!(rows.len(), 4);
}
