//! The data model shared by the configuration, the stored release state and
//! the monitor.
use vstd::prelude::*;

verus! {

/// A repository as it is configured in the YAML file.
pub struct RepositoryConfig {
    pub name: String,
    pub owner: String,
    pub on_release: String,
}

/// The mathematical value of a [`RepositoryConfig`]; it is also the key by which
/// a stored row is matched against the configuration.
pub struct RepositoryConfigView {
    pub name: Seq<char>,
    pub owner: Seq<char>,
    pub on_release: Seq<char>,
}

impl View for RepositoryConfig {
    type V = RepositoryConfigView;

    open spec fn view(&self) -> RepositoryConfigView {
        RepositoryConfigView { name: self.name@, owner: self.owner@, on_release: self.on_release@ }
    }
}

/// A repository row of the stored release state.
pub struct Repository {
    pub id: i64,
    pub name: String,
    pub owner: String,
    pub version: String,
    pub on_release: String,
}

/// The mathematical value of a [`Repository`] row.
pub struct RepositoryView {
    pub id: i64,
    pub name: Seq<char>,
    pub owner: Seq<char>,
    pub version: Seq<char>,
    pub on_release: Seq<char>,
}

impl View for Repository {
    type V = RepositoryView;

    open spec fn view(&self) -> RepositoryView {
        RepositoryView {
            id: self.id,
            name: self.name@,
            owner: self.owner@,
            version: self.version@,
            on_release: self.on_release@,
        }
    }
}

impl RepositoryView {
    /// The configuration entry that a stored row stands for.
    pub open spec fn key(self) -> RepositoryConfigView {
        RepositoryConfigView { name: self.name, owner: self.owner, on_release: self.on_release }
    }
}

/// The whole configuration file.
pub struct Config {
    pub refresh_interval: u64,
    pub repositories: Vec<RepositoryConfig>,
}

/// The mathematical value of a [`Config`].
pub struct ConfigView {
    pub refresh_interval: u64,
    pub repositories: Seq<RepositoryConfigView>,
}

/// The views of a sequence of configuration entries.
pub open spec fn config_views(s: Seq<RepositoryConfig>) -> Seq<RepositoryConfigView> {
    s.map_values(|r: RepositoryConfig| r@)
}

/// The views of a sequence of stored rows.
pub open spec fn repository_views(s: Seq<Repository>) -> Seq<RepositoryView> {
    s.map_values(|r: Repository| r@)
}

impl View for Config {
    type V = ConfigView;

    open spec fn view(&self) -> ConfigView {
        ConfigView {
            refresh_interval: self.refresh_interval,
            repositories: config_views(self.repositories@),
        }
    }
}

/// The part of a GitHub release that the monitor receives.
pub struct Release {
    pub tag_name: String,
    pub name: Option<String>,
    pub prerelease: bool,
    pub published_at: String,
}

/// The refresh interval of a configuration that states none, in seconds.
pub const DEFAULT_REFRESH_INTERVAL: u64 = 3600;

impl Config {
    /// The configuration written when none exists: an hourly refresh and no
    /// repositories.
    pub fn default() -> (config: Self)
        ensures
            config@.refresh_interval == 3600,
            config@.repositories == Seq::<RepositoryConfigView>::empty(),
    {
        let config = Config { refresh_interval: DEFAULT_REFRESH_INTERVAL, repositories: Vec::new() };
        assert(config@.repositories =~= Seq::<RepositoryConfigView>::empty());
        config
    }
}

impl RepositoryConfig {
    pub fn new(name: String, owner: String, on_release: String) -> (repo: Self)
        ensures
            repo@ == (RepositoryConfigView { name: name@, owner: owner@, on_release: on_release@ }),
    {
        RepositoryConfig { name, owner, on_release }
    }

    /// A copy of this entry.
    pub fn copy(&self) -> (repo: Self)
        ensures
            repo@ == self@,
    {
        RepositoryConfig {
            name: self.name.clone(),
            owner: self.owner.clone(),
            on_release: self.on_release.clone(),
        }
    }
}

impl Repository {
    /// The configuration entry that this stored row stands for.
    pub fn key(&self) -> (repo: RepositoryConfig)
        ensures
            repo@ == self@.key(),
    {
        RepositoryConfig {
            name: self.name.clone(),
            owner: self.owner.clone(),
            on_release: self.on_release.clone(),
        }
    }
}

} // verus!
