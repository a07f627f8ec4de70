use release_monitor::common::{Config, Repository, RepositoryConfig};
use release_monitor::executor::Executor;

#[test]
fn default_config_refreshes_hourly_without_repositories() {
    let config = Config::default();
    assert_eq!(config.refresh_interval, 3600);
    assert!(config.repositories.is_empty());
}

#[test]
fn repository_config_new_keeps_fields() {
    let repo = RepositoryConfig::new(
        "netbird".to_string(),
        "netbirdio".to_string(),
        "/usr/local/sbin/update-netbird".to_string(),
    );
    assert_eq!(repo.name, "netbird");
    assert_eq!(repo.owner, "netbirdio");
    assert_eq!(repo.on_release, "/usr/local/sbin/update-netbird");
}

#[test]
fn repository_config_copy_is_equal() {
    let repo = RepositoryConfig::new("caddy".to_string(), "caddyserver".to_string(), "true".to_string());
    let copy = repo.copy();
    assert_eq!(copy.name, "caddy");
    assert_eq!(copy.owner, "caddyserver");
    assert_eq!(copy.on_release, "true");
}

#[test]
fn repository_key_drops_id_and_version() {
    let row = Repository {
        id: 7,
        name: "caddy".to_string(),
        owner: "caddyserver".to_string(),
        version: "v2.8.0".to_string(),
        on_release: "systemctl restart my-dependent-service".to_string(),
    };
    let key = row.key();
    assert_eq!(key.name, "caddy");
    assert_eq!(key.owner, "caddyserver");
    assert_eq!(key.on_release, "systemctl restart my-dependent-service");
}

#[test]
fn executor_keeps_command_verbatim() {
    let command = "echo \"A new NetBird release is available\"\n/usr/local/sbin/update-netbird\n";
    let executor = Executor::new(command.to_string());
    assert_eq!(executor.command(), command);
}

#[test]
fn executor_does_not_interpolate_placeholders() {
    let executor = Executor::new("deploy {{ new_version }}".to_string());
    assert_eq!(executor.command(), "deploy {{ new_version }}");
}
