use release_monitor::commands::{add_repository, remove_repository, CommandError};
use release_monitor::common::{Config, RepositoryConfig};

fn entry(name: &str, owner: &str, on_release: &str) -> RepositoryConfig {
    RepositoryConfig::new(name.to_string(), owner.to_string(), on_release.to_string())
}

fn some(s: &str) -> Option<String> {
    Some(s.to_string())
}

fn names(config: &Config) -> Vec<(String, String, String)> {
    config
        .repositories
        .iter()
        .map(|e| (e.owner.clone(), e.name.clone(), e.on_release.clone()))
        .collect()
}

#[test]
fn add_appends_entry() {
    let mut config = Config { refresh_interval: 3600, repositories: vec![entry("caddy", "caddyserver", "b")] };
    assert!(add_repository(&mut config, some("netbird"), some("netbirdio"), some("/usr/local/sbin/update-netbird")).is_ok());
    assert_eq!(
        names(&config),
        vec![
            ("caddyserver".to_string(), "caddy".to_string(), "b".to_string()),
            ("netbirdio".to_string(), "netbird".to_string(), "/usr/local/sbin/update-netbird".to_string()),
        ]
    );
    assert_eq!(config.refresh_interval, 3600);
}

#[test]
fn add_without_command_is_refused() {
    let mut config = Config::default();
    let r = add_repository(&mut config, some("netbird"), some("netbirdio"), None);
    assert!(matches!(r, Err(CommandError::MissingAddArguments)));
    assert!(config.repositories.is_empty());
    assert_eq!(
        r.err().unwrap().message(),
        "[ERROR] name, owner and on_release are required. (release-monitor add --name <NAME> --owner <OWNER> --on_release <ON_RELEASE>)"
    );
}

#[test]
fn remove_removes_every_match() {
    let mut config = Config {
        refresh_interval: 60,
        repositories: vec![entry("netbird", "netbirdio", "a"), entry("caddy", "caddyserver", "b"), entry("netbird", "netbirdio", "c")],
    };
    assert!(remove_repository(&mut config, some("netbird"), some("netbirdio")).is_ok());
    assert_eq!(names(&config), vec![("caddyserver".to_string(), "caddy".to_string(), "b".to_string())]);
    assert_eq!(config.refresh_interval, 60);
}

#[test]
fn remove_needs_owner_and_name_to_match() {
    let mut config = Config { refresh_interval: 60, repositories: vec![entry("netbird", "netbirdio", "a")] };
    let r = remove_repository(&mut config, some("netbird"), some("other"));
    match &r {
        Err(CommandError::RepositoryNotFound { owner, name }) => {
            assert_eq!(owner, "other");
            assert_eq!(name, "netbird");
        }
        _ => panic!("expected not found"),
    }
    assert_eq!(r.err().unwrap().message(), "[ERROR] Repository other/netbird was not found in configuration");
    assert_eq!(config.repositories.len(), 1);
}

#[test]
fn remove_without_owner_is_refused() {
    let mut config = Config { refresh_interval: 60, repositories: vec![entry("netbird", "netbirdio", "a")] };
    let r = remove_repository(&mut config, some("netbird"), None);
    assert!(matches!(r, Err(CommandError::MissingRemoveArguments)));
    assert_eq!(r.err().unwrap().message(), "[ERROR] name and owner are required. Release-monitor remove --name  --owner <OWNER>");
    assert_eq!(config.repositories.len(), 1);
}

#[test]
fn added_repository_can_be_removed() {
    let mut config = Config::default();
    add_repository(&mut config, some("x"), some("y"), some("z")).ok().unwrap();
    assert!(remove_repository(&mut config, some("x"), some("y")).is_ok());
    assert!(config.repositories.is_empty());
}
