use release_monitor::common::{Config, Repository, RepositoryConfig};
use release_monitor::database::{initial_release_string, plan_sync, rows_contain, entries_contain, same_entry};

fn entry(name: &str, owner: &str, on_release: &str) -> RepositoryConfig {
    RepositoryConfig::new(name.to_string(), owner.to_string(), on_release.to_string())
}

fn row(id: i64, name: &str, owner: &str, version: &str, on_release: &str) -> Repository {
    Repository {
        id,
        name: name.to_string(),
        owner: owner.to_string(),
        version: version.to_string(),
        on_release: on_release.to_string(),
    }
}

fn keys(entries: &[RepositoryConfig]) -> Vec<(String, String, String)> {
    entries
        .iter()
        .map(|e| (e.name.clone(), e.owner.clone(), e.on_release.clone()))
        .collect()
}

fn triple(name: &str, owner: &str, on_release: &str) -> (String, String, String) {
    (name.to_string(), owner.to_string(), on_release.to_string())
}

#[test]
fn initial_release_is_zero() {
    assert_eq!(initial_release_string(), "0.0.0");
}

#[test]
fn empty_table_gets_every_configured_entry() {
    let config = Config {
        refresh_interval: 60,
        repositories: vec![entry("netbird", "netbirdio", "a"), entry("caddy", "caddyserver", "b")],
    };
    let plan = plan_sync(&config, &Vec::new());
    assert_eq!(keys(&plan.inserts), vec![triple("netbird", "netbirdio", "a"), triple("caddy", "caddyserver", "b")]);
    assert!(plan.deletes.is_empty());
}

#[test]
fn synchronised_table_needs_nothing() {
    let config = Config { refresh_interval: 60, repositories: vec![entry("netbird", "netbirdio", "a")] };
    let rows = vec![row(1, "netbird", "netbirdio", "v0.30.0", "a")];
    let plan = plan_sync(&config, &rows);
    assert!(plan.inserts.is_empty());
    assert!(plan.deletes.is_empty());
}

#[test]
fn unconfigured_row_is_deleted() {
    let config = Config { refresh_interval: 60, repositories: vec![] };
    let rows = vec![row(1, "netbird", "netbirdio", "v0.30.0", "a")];
    let plan = plan_sync(&config, &rows);
    assert!(plan.inserts.is_empty());
    assert_eq!(keys(&plan.deletes), vec![triple("netbird", "netbirdio", "a")]);
}

#[test]
fn changed_command_replaces_the_row() {
    let config = Config { refresh_interval: 60, repositories: vec![entry("netbird", "netbirdio", "new")] };
    let rows = vec![row(1, "netbird", "netbirdio", "v0.30.0", "old")];
    let plan = plan_sync(&config, &rows);
    assert_eq!(keys(&plan.inserts), vec![triple("netbird", "netbirdio", "new")]);
    assert_eq!(keys(&plan.deletes), vec![triple("netbird", "netbirdio", "old")]);
}

#[test]
fn changed_owner_replaces_the_row() {
    let config = Config { refresh_interval: 60, repositories: vec![entry("caddy", "someone", "b")] };
    let rows = vec![row(4, "caddy", "caddyserver", "v2.8.0", "b")];
    let plan = plan_sync(&config, &rows);
    assert_eq!(keys(&plan.inserts), vec![triple("caddy", "someone", "b")]);
    assert_eq!(keys(&plan.deletes), vec![triple("caddy", "caddyserver", "b")]);
}

#[test]
fn mixed_table_is_planned_in_order() {
    let config = Config {
        refresh_interval: 60,
        repositories: vec![entry("a", "o", "x"), entry("b", "o", "y"), entry("c", "o", "z")],
    };
    let rows = vec![row(1, "d", "o", "1", "w"), row(2, "b", "o", "2", "y"), row(3, "e", "o", "3", "v")];
    let plan = plan_sync(&config, &rows);
    assert_eq!(keys(&plan.inserts), vec![triple("a", "o", "x"), triple("c", "o", "z")]);
    assert_eq!(keys(&plan.deletes), vec![triple("d", "o", "w"), triple("e", "o", "v")]);
}

#[test]
fn duplicated_configuration_entry_is_inserted_twice() {
    let config = Config { refresh_interval: 60, repositories: vec![entry("a", "o", "x"), entry("a", "o", "x")] };
    let plan = plan_sync(&config, &Vec::new());
    assert_eq!(keys(&plan.inserts), vec![triple("a", "o", "x"), triple("a", "o", "x")]);
}

#[test]
fn rows_contain_matches_all_three_fields() {
    let rows = vec![row(1, "a", "o", "1", "x")];
    assert!(rows_contain(&rows, &entry("a", "o", "x")));
    assert!(!rows_contain(&rows, &entry("a", "o", "y")));
    assert!(!rows_contain(&rows, &entry("a", "p", "x")));
    assert!(!rows_contain(&rows, &entry("b", "o", "x")));
}

#[test]
fn entries_contain_and_same_entry() {
    let entries = vec![entry("a", "o", "x"), entry("b", "o", "y")];
    assert!(entries_contain(&entries, &entry("b", "o", "y")));
    assert!(!entries_contain(&entries, &entry("b", "o", "x")));
    assert!(same_entry(&entry("a", "o", "x"), &entry("a", "o", "x")));
    assert!(!same_entry(&entry("a", "o", "x"), &entry("a", "o", "z")));
}

#[test]
fn applying_a_plan_then_planning_again_gives_nothing() {
    let config = Config {
        refresh_interval: 60,
        repositories: vec![entry("a", "o", "x"), entry("b", "o", "y")],
    };
    let mut rows = vec![row(1, "b", "o", "v2", "y"), row(2, "c", "o", "v3", "z")];
    let plan = plan_sync(&config, &rows);
    rows.retain(|r| !plan.deletes.iter().any(|d| d.name == r.name && d.owner == r.owner && d.on_release == r.on_release));
    for (k, e) in plan.inserts.iter().enumerate() {
        rows.push(row(10 + k as i64, &e.name, &e.owner, &initial_release_string(), &e.on_release));
    }
    assert_eq!(rows.len(), 2);
    assert_eq!(rows[0].version, "v2");
    assert_eq!(rows[1].name, "a");
    assert_eq!(rows[1].version, "0.0.0");
    let again = plan_sync(&config, &rows);
    assert!(again.inserts.is_empty());
    assert!(again.deletes.is_empty());
}

#[test]
fn rows_of_configured_entries_keep_their_ids() {
    let config = Config { refresh_interval: 60, repositories: vec![entry("b", "o", "y"), entry("a", "o", "x")] };
    let rows = vec![row(5, "a", "o", "v1", "x"), row(9, "c", "o", "v3", "z"), row(12, "b", "o", "v2", "y")];
    let plan = plan_sync(&config, &rows);
    let kept: Vec<(i64, String)> = rows
        .iter()
        .filter(|r| !plan.deletes.iter().any(|d| d.name == r.name && d.owner == r.owner && d.on_release == r.on_release))
        .map(|r| (r.id, r.version.clone()))
        .collect();
    assert_eq!(kept, vec![(5, "v1".to_string()), (12, "v2".to_string())]);
    assert!(plan.inserts.is_empty());
}
