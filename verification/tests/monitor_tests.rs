use release_monitor::common::{Config, Release, Repository, RepositoryConfig};
use release_monitor::monitor::{release_url, Action, Event, Monitor, MonitorStatus, Phase};

fn row(id: i64, name: &str, owner: &str, version: &str, on_release: &str) -> Repository {
    Repository {
        id,
        name: name.to_string(),
        owner: owner.to_string(),
        version: version.to_string(),
        on_release: on_release.to_string(),
    }
}

fn release(tag: &str) -> Release {
    Release {
        tag_name: tag.to_string(),
        name: Some(tag.to_string()),
        prerelease: false,
        published_at: "2024-01-01T00:00:00Z".to_string(),
    }
}

fn config(interval: u64) -> Config {
    Config {
        refresh_interval: interval,
        repositories: vec![RepositoryConfig::new("netbird".to_string(), "netbirdio".to_string(), "cmd".to_string())],
    }
}

fn started(interval: u64) -> Monitor {
    let mut monitor = Monitor::new(config(interval), true);
    assert!(matches!(monitor.step(Event::Started), Action::SyncDatabase));
    assert!(matches!(monitor.step(Event::Synced(Ok(()))), Action::ListRepositories));
    monitor
}

fn expect_fetch(action: Action, owner: &str, name: &str) {
    match action {
        Action::FetchRelease { owner: o, name: n, url } => {
            assert_eq!(o, owner);
            assert_eq!(n, name);
            assert_eq!(url, format!("https://api.github.com/repos/{}/{}/releases/latest", owner, name));
        }
        _ => panic!("expected a fetch"),
    }
}

#[test]
fn release_url_points_at_latest_release() {
    assert_eq!(
        release_url("netbirdio", "netbird"),
        "https://api.github.com/repos/netbirdio/netbird/releases/latest"
    );
}

#[test]
fn new_monitor_is_idle_and_reports_running() {
    let monitor = Monitor::new(config(10), true);
    assert_eq!(monitor.phase(), Phase::Idle);
    assert_eq!(monitor.get_status(), MonitorStatus::Active);
    assert!(monitor.current().is_none());
    assert_eq!(monitor.config().refresh_interval, 10);
}

#[test]
fn stopped_monitor_reports_stopped() {
    let mut monitor = Monitor::new(config(10), true);
    monitor.stop();
    assert_eq!(monitor.get_status(), MonitorStatus::Stopped);
}

#[test]
fn new_tag_runs_command_then_records_release() {
    let mut monitor = started(30);
    let rows = vec![row(1, "netbird", "netbirdio", "0.0.0", "update-netbird")];
    expect_fetch(monitor.step(Event::Listed(Ok(rows))), "netbirdio", "netbird");
    assert_eq!(monitor.current().unwrap().id, 1);
    match monitor.step(Event::Fetched(Ok(release("v0.30.0")))) {
        Action::RunCommand { name, command, release } => {
            assert_eq!(name, "netbird");
            assert_eq!(command, "update-netbird");
            assert_eq!(release, "v0.30.0");
        }
        _ => panic!("expected the command to run"),
    }
    assert_eq!(monitor.phase(), Phase::Running(0));
    match monitor.step(Event::Executed(Ok(()))) {
        Action::RecordRelease { owner, name, release } => {
            assert_eq!(owner, "netbirdio");
            assert_eq!(name, "netbird");
            assert_eq!(release, "v0.30.0");
        }
        _ => panic!("expected the release to be recorded"),
    }
    match monitor.step(Event::Recorded(Ok(()))) {
        Action::Sleep { seconds } => assert_eq!(seconds, 30),
        _ => panic!("expected a sleep"),
    }
    assert!(matches!(monitor.step(Event::Woke), Action::ListRepositories));
}

#[test]
fn known_tag_runs_nothing() {
    let mut monitor = started(5);
    let rows = vec![row(1, "a", "o", "v1", "ca"), row(2, "b", "o", "v2", "cb")];
    expect_fetch(monitor.step(Event::Listed(Ok(rows))), "o", "a");
    expect_fetch(monitor.step(Event::Fetched(Ok(release("v1")))), "o", "b");
    match monitor.step(Event::Fetched(Ok(release("v2")))) {
        Action::Sleep { seconds } => assert_eq!(seconds, 5),
        _ => panic!("expected a sleep"),
    }
}

#[test]
fn failed_fetch_moves_on() {
    let mut monitor = started(5);
    let rows = vec![row(1, "a", "o", "v1", "ca"), row(2, "b", "o", "v1", "cb")];
    expect_fetch(monitor.step(Event::Listed(Ok(rows))), "o", "a");
    expect_fetch(monitor.step(Event::Fetched(Err("timeout".to_string()))), "o", "b");
    match monitor.step(Event::Fetched(Ok(release("v2")))) {
        Action::RunCommand { command, .. } => assert_eq!(command, "cb"),
        _ => panic!("expected the command to run"),
    }
}

#[test]
fn failed_command_ends_loop_without_recording() {
    let mut monitor = started(5);
    let rows = vec![row(1, "a", "o", "v1", "false")];
    monitor.step(Event::Listed(Ok(rows)));
    monitor.step(Event::Fetched(Ok(release("v2"))));
    match monitor.step(Event::Executed(Err("status 1".to_string()))) {
        Action::Finish(Err(message)) => assert_eq!(message, "status 1"),
        _ => panic!("expected the loop to end"),
    }
    assert_eq!(monitor.phase(), Phase::Finished);
    assert!(matches!(monitor.step(Event::Woke), Action::Wait));
    assert!(matches!(monitor.step(Event::Recorded(Ok(()))), Action::Wait));
}

#[test]
fn failed_recording_aborts() {
    let mut monitor = started(5);
    monitor.step(Event::Listed(Ok(vec![row(1, "a", "o", "v1", "true")])));
    monitor.step(Event::Fetched(Ok(release("v2"))));
    monitor.step(Event::Executed(Ok(())));
    match monitor.step(Event::Recorded(Err("locked".to_string()))) {
        Action::Abort(message) => assert_eq!(message, "locked"),
        _ => panic!("expected an abort"),
    }
}

#[test]
fn empty_table_sleeps() {
    let mut monitor = started(42);
    match monitor.step(Event::Listed(Ok(Vec::new()))) {
        Action::Sleep { seconds } => assert_eq!(seconds, 42),
        _ => panic!("expected a sleep"),
    }
    assert_eq!(monitor.phase(), Phase::Sleeping);
}

#[test]
fn failed_sync_ends_loop() {
    let mut monitor = Monitor::new(config(1), true);
    monitor.step(Event::Started);
    match monitor.step(Event::Synced(Err("no table".to_string()))) {
        Action::Finish(Err(message)) => assert_eq!(message, "no table"),
        _ => panic!("expected the loop to end"),
    }
}

#[test]
fn failed_listing_ends_loop() {
    let mut monitor = started(1);
    match monitor.step(Event::Listed(Err("io".to_string()))) {
        Action::Finish(Err(message)) => assert_eq!(message, "io"),
        _ => panic!("expected the loop to end"),
    }
}

#[test]
fn stopped_monitor_ends_after_sleep() {
    let mut monitor = started(1);
    monitor.step(Event::Listed(Ok(Vec::new())));
    monitor.stop();
    assert!(matches!(monitor.step(Event::Woke), Action::Finish(Ok(()))));
    assert_eq!(monitor.phase(), Phase::Finished);
}

#[test]
fn monitor_created_stopped_ends_after_sync() {
    let mut monitor = Monitor::new(config(1), false);
    monitor.step(Event::Started);
    assert!(matches!(monitor.step(Event::Synced(Ok(()))), Action::Finish(Ok(()))));
}

#[test]
fn event_of_another_phase_is_ignored() {
    let mut monitor = Monitor::new(config(1), true);
    assert!(matches!(monitor.step(Event::Woke), Action::Wait));
    assert_eq!(monitor.phase(), Phase::Idle);
    monitor.step(Event::Started);
    assert!(matches!(monitor.step(Event::Executed(Ok(()))), Action::Wait));
    assert_eq!(monitor.phase(), Phase::Syncing);
}
