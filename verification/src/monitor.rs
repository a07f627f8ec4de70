//! The polling loop of the monitor, as a state machine.
//!
//! The loop alternates outside work (synchronising and reading the stored
//! rows, fetching a release over the network, running a shell command,
//! recording a release, sleeping) with decisions. [`Monitor::step`] takes the
//! outcome of the last piece of outside work as an [`Event`] and answers with
//! the next piece to do as an [`Action`]; the caller performs it and hands the
//! outcome back.
//!
//! Each cycle reads the stored rows once and visits them in order. A row whose
//! release cannot be fetched is skipped. When the fetched tag differs from the
//! stored release, the row's command runs; the new release is recorded only
//! after the command succeeded, and a failing command ends the loop. After the
//! last row the monitor sleeps for the refresh interval, and a new cycle starts
//! while the monitor is running.
use vstd::prelude::*;
use crate::common::{Config, ConfigView, Release, Repository, RepositoryView, repository_views};
use crate::database::{initial_release, record_release};

verus! {

/// The address of the GitHub API that reports the latest release of `owner/name`.
pub open spec fn release_url_of(owner: Seq<char>, name: Seq<char>) -> Seq<char> {
    "https://api.github.com/repos/"@ + owner + "/"@ + name + "/releases/latest"@
}

/// The address of the GitHub API that reports the latest release of `owner/name`.
pub fn release_url(owner: &str, name: &str) -> (url: String)
    ensures
        url@ == release_url_of(owner@, name@),
        url@ == "https://api.github.com/repos/"@ + owner@ + "/"@ + name@ + "/releases/latest"@,
{
    let mut url = String::from_str("https://api.github.com/repos/");
    url.append(owner);
    url.append("/");
    url.append(name);
    url.append("/releases/latest");
    url
}

/// Where the monitor stands in its loop.
#[derive(PartialEq, Eq, Structural, Clone, Copy, Debug)]
pub enum Phase {
    /// Created; the loop has not begun.
    Idle,
    /// The stored rows are being synchronised with the configuration.
    Syncing,
    /// The stored rows are being read for a new cycle.
    Listing,
    /// The latest release of the row at this index is being fetched.
    Fetching(usize),
    /// The command of the row at this index runs for a new release.
    Running(usize),
    /// The new release of the row at this index is being recorded.
    Recording(usize),
    /// Waiting for the next cycle.
    Sleeping,
    /// The loop has ended.
    Finished,
}

/// The outcome of a piece of outside work, handed to [`Monitor::step`].
pub enum Event {
    /// The caller starts the loop.
    Started,
    /// The stored rows were synchronised with the configuration, or not.
    Synced(Result<(), String>),
    /// The stored rows were read, or could not be.
    Listed(Result<Vec<Repository>, String>),
    /// The latest release was fetched, or could not be.
    Fetched(Result<Release, String>),
    /// The command ran successfully, or failed.
    Executed(Result<(), String>),
    /// The new release was recorded, or could not be.
    Recorded(Result<(), String>),
    /// The sleep between two cycles is over.
    Woke,
}

/// The mathematical value of an [`Event`]; of a fetched release only its tag counts.
pub enum EventView {
    Started,
    Synced(Result<(), Seq<char>>),
    Listed(Result<Seq<RepositoryView>, Seq<char>>),
    Fetched(Result<Seq<char>, Seq<char>>),
    Executed(Result<(), Seq<char>>),
    Recorded(Result<(), Seq<char>>),
    Woke,
}

pub open spec fn unit_result_view(r: Result<(), String>) -> Result<(), Seq<char>> {
    match r {
        Ok(()) => Ok(()),
        Err(m) => Err(m@),
    }
}

impl View for Event {
    type V = EventView;

    open spec fn view(&self) -> EventView {
        match self {
            Event::Started => EventView::Started,
            Event::Synced(r) => EventView::Synced(unit_result_view(*r)),
            Event::Listed(r) => EventView::Listed(
                match r {
                    Ok(rows) => Ok(repository_views(rows@)),
                    Err(m) => Err(m@),
                },
            ),
            Event::Fetched(r) => EventView::Fetched(
                match r {
                    Ok(release) => Ok(release.tag_name@),
                    Err(m) => Err(m@),
                },
            ),
            Event::Executed(r) => EventView::Executed(unit_result_view(*r)),
            Event::Recorded(r) => EventView::Recorded(unit_result_view(*r)),
            Event::Woke => EventView::Woke,
        }
    }
}

/// The next piece of outside work, answered by [`Monitor::step`].
pub enum Action {
    /// Synchronise the stored rows with the configuration.
    SyncDatabase,
    /// Read the stored rows.
    ListRepositories,
    /// Fetch the latest release of `owner/name` from `url`.
    FetchRelease { owner: String, name: String, url: String },
    /// Run `command` (handed to `sh -c`) for release `release` of repository `name`.
    RunCommand { name: String, command: String, release: String },
    /// Record `release` as the release of the rows of `owner/name`.
    RecordRelease { owner: String, name: String, release: String },
    /// Sleep for this many seconds.
    Sleep { seconds: u64 },
    /// End the loop with this result.
    Finish(Result<(), String>),
    /// End the process: the release state could not be recorded.
    Abort(String),
    /// Nothing to do: the event did not belong to the current phase.
    Wait,
}

/// The mathematical value of an [`Action`].
pub enum ActionView {
    SyncDatabase,
    ListRepositories,
    FetchRelease { owner: Seq<char>, name: Seq<char>, url: Seq<char> },
    RunCommand { name: Seq<char>, command: Seq<char>, release: Seq<char> },
    RecordRelease { owner: Seq<char>, name: Seq<char>, release: Seq<char> },
    Sleep { seconds: u64 },
    Finish(Result<(), Seq<char>>),
    Abort(Seq<char>),
    Wait,
}

impl View for Action {
    type V = ActionView;

    open spec fn view(&self) -> ActionView {
        match self {
            Action::SyncDatabase => ActionView::SyncDatabase,
            Action::ListRepositories => ActionView::ListRepositories,
            Action::FetchRelease { owner, name, url } => ActionView::FetchRelease {
                owner: owner@,
                name: name@,
                url: url@,
            },
            Action::RunCommand { name, command, release } => ActionView::RunCommand {
                name: name@,
                command: command@,
                release: release@,
            },
            Action::RecordRelease { owner, name, release } => ActionView::RecordRelease {
                owner: owner@,
                name: name@,
                release: release@,
            },
            Action::Sleep { seconds } => ActionView::Sleep { seconds: *seconds },
            Action::Finish(r) => ActionView::Finish(unit_result_view(*r)),
            Action::Abort(m) => ActionView::Abort(m@),
            Action::Wait => ActionView::Wait,
        }
    }
}

/// What [`Monitor::get_status`] reports.
#[derive(PartialEq, Eq, Structural, Clone, Copy, Debug)]
pub enum MonitorStatus {
    Active,
    Stopped,
}

/// The monitor: its configuration, whether it keeps running, where it stands in
/// its loop, the rows of the current cycle and the release being handled.
pub struct Monitor {
    config: Config,
    running: bool,
    phase: Phase,
    repositories: Vec<Repository>,
    pending_release: String,
}

/// The mathematical value of a [`Monitor`].
pub struct MonitorView {
    pub config: ConfigView,
    pub running: bool,
    pub phase: Phase,
    pub repositories: Seq<RepositoryView>,
    pub pending_release: Seq<char>,
}

impl View for Monitor {
    type V = MonitorView;

    closed spec fn view(&self) -> MonitorView {
        MonitorView {
            config: self.config@,
            running: self.running,
            phase: self.phase,
            repositories: repository_views(self.repositories@),
            pending_release: self.pending_release@,
        }
    }
}

impl MonitorView {
    /// A phase that works on a row names a row of the current cycle, and the
    /// rows of a cycle can be counted in a `usize`.
    pub open spec fn well_formed(self) -> bool {
        &&& self.repositories.len() <= usize::MAX
        &&& match self.phase {
            Phase::Fetching(i) => i < self.repositories.len(),
            Phase::Running(i) => i < self.repositories.len(),
            Phase::Recording(i) => i < self.repositories.len(),
            _ => true,
        }
    }



    pub open spec fn with_phase(self, phase: Phase) -> MonitorView {
        MonitorView { phase, ..self }
    }
}

/// The request for the latest release of a row.
pub open spec fn fetch_action(r: RepositoryView) -> ActionView {
    ActionView::FetchRelease { owner: r.owner, name: r.name, url: release_url_of(r.owner, r.name) }
}

/// A new cycle begins, or the loop ends if the monitor was stopped.
pub open spec fn begin_cycle(s: MonitorView) -> (MonitorView, ActionView) {
    if s.running {
        (s.with_phase(Phase::Listing), ActionView::ListRepositories)
    } else {
        (s.with_phase(Phase::Finished), ActionView::Finish(Ok(())))
    }
}

/// The row at `index` is done: the next row's release is fetched, or, after
/// the last row, the monitor sleeps for the refresh interval.
pub open spec fn after_row(s: MonitorView, index: int) -> (MonitorView, ActionView) {
    if index + 1 < s.repositories.len() {
        (
            s.with_phase(Phase::Fetching((index + 1) as usize)),
            fetch_action(s.repositories[index + 1]),
        )
    } else {
        (s.with_phase(Phase::Sleeping), ActionView::Sleep { seconds: s.config.refresh_interval })
    }
}

/// The loop ends with `result`.
pub open spec fn finish(s: MonitorView, result: Result<(), Seq<char>>) -> (MonitorView, ActionView) {
    (s.with_phase(Phase::Finished), ActionView::Finish(result))
}

/// The transition of the monitor on an event: its next state and its next action.
pub open spec fn next(s: MonitorView, e: EventView) -> (MonitorView, ActionView) {
    match (s.phase, e) {
        (Phase::Idle, EventView::Started) => (s.with_phase(Phase::Syncing), ActionView::SyncDatabase),
        (Phase::Syncing, EventView::Synced(Ok(()))) => begin_cycle(s),
        (Phase::Syncing, EventView::Synced(Err(m))) => finish(s, Err(m)),
        (Phase::Listing, EventView::Listed(Ok(rows))) => {
            let t = MonitorView { repositories: rows, ..s };
            if rows.len() > 0 {
                (t.with_phase(Phase::Fetching(0)), fetch_action(rows[0]))
            } else {
                (t.with_phase(Phase::Sleeping), ActionView::Sleep { seconds: s.config.refresh_interval })
            }
        },
        (Phase::Listing, EventView::Listed(Err(m))) => finish(s, Err(m)),
        (Phase::Fetching(i), EventView::Fetched(Ok(tag))) => {
            let r = s.repositories[i as int];
            if tag != r.version {
                (
                    MonitorView { phase: Phase::Running(i), pending_release: tag, ..s },
                    ActionView::RunCommand { name: r.name, command: r.on_release, release: tag },
                )
            } else {
                after_row(s, i as int)
            }
        },
        (Phase::Fetching(i), EventView::Fetched(Err(_))) => after_row(s, i as int),
        (Phase::Running(i), EventView::Executed(Ok(()))) => {
            let r = s.repositories[i as int];
            (
                s.with_phase(Phase::Recording(i)),
                ActionView::RecordRelease { owner: r.owner, name: r.name, release: s.pending_release },
            )
        },
        (Phase::Running(i), EventView::Executed(Err(m))) => finish(s, Err(m)),
        (Phase::Recording(i), EventView::Recorded(Ok(()))) => after_row(s, i as int),
        (Phase::Recording(i), EventView::Recorded(Err(m))) => (
            s.with_phase(Phase::Finished),
            ActionView::Abort(m),
        ),
        (Phase::Sleeping, EventView::Woke) => begin_cycle(s),
        _ => (s, ActionView::Wait),
    }
}

impl Monitor {
    #[verifier::type_invariant]
    closed spec fn inv(self) -> bool {
        self@.well_formed()
    }

    /// A monitor for `config`, before its loop has begun.
    pub fn new(config: Config, running: bool) -> (monitor: Self)
        ensures
            monitor@ == (MonitorView {
                config: config@,
                running,
                phase: Phase::Idle,
                repositories: Seq::empty(),
                pending_release: Seq::empty(),
            }),
    {
        let monitor = Monitor {
            config,
            running,
            phase: Phase::Idle,
            repositories: Vec::new(),
            pending_release: String::new(),
        };
        assert(monitor@.repositories =~= Seq::<RepositoryView>::empty());
        monitor
    }

    /// Asks the loop to end: it ends when the next cycle would begin.
    pub fn stop(&mut self)
        ensures
            final(self)@ == (MonitorView { running: false, ..old(self)@ }),
    {
        proof {
            use_type_invariant(&*self);
        }
        self.running = false;
    }

    /// Whether the monitor keeps running.
    pub fn get_status(&self) -> (status: MonitorStatus)
        ensures
            status == (if self@.running {
                MonitorStatus::Active
            } else {
                MonitorStatus::Stopped
            }),
    {
        if self.running {
            MonitorStatus::Active
        } else {
            MonitorStatus::Stopped
        }
    }

    /// Where the monitor stands in its loop.
    pub fn phase(&self) -> (phase: Phase)
        ensures
            phase == self@.phase,
    {
        self.phase
    }

    /// The configuration of the monitor.
    pub fn config(&self) -> (config: &Config)
        ensures
            config@ == self@.config,
    {
        &self.config
    }

    /// The row that the current phase works on, if any.
    pub fn current(&self) -> (row: Option<&Repository>)
        ensures
            match self@.phase {
                Phase::Fetching(i) | Phase::Running(i) | Phase::Recording(i) => row.is_some()
                    && row.unwrap()@ == self@.repositories[i as int],
                _ => row.is_none(),
            },
    {
        proof {
            use_type_invariant(self);
        }
        match self.phase {
            Phase::Fetching(i) | Phase::Running(i) | Phase::Recording(i) => Some(&self.repositories[i]),
            _ => None,
        }
    }

    /// The request for the latest release of the row at `index`.
    fn fetch_request(&self, index: usize) -> (action: Action)
        requires
            index < self@.repositories.len(),
        ensures
            action@ == fetch_action(self@.repositories[index as int]),
    {
        let row = &self.repositories[index];
        Action::FetchRelease {
            owner: row.owner.clone(),
            name: row.name.clone(),
            url: release_url(row.owner.as_str(), row.name.as_str()),
        }
    }

    /// A new cycle begins, or the loop ends if the monitor was stopped.
    fn begin_cycle(&mut self) -> (action: Action)
        ensures
            (final(self)@, action@) == begin_cycle(old(self)@),
    {
        proof {
            use_type_invariant(&*self);
        }
        if self.running {
            self.phase = Phase::Listing;
            Action::ListRepositories
        } else {
            self.phase = Phase::Finished;
            Action::Finish(Ok(()))
        }
    }

    /// The row at `index` is done.
    fn after_row(&mut self, index: usize) -> (action: Action)
        requires
            index < old(self)@.repositories.len(),
        ensures
            (final(self)@, action@) == after_row(old(self)@, index as int),
    {
        let n = self.repositories.len();
        assert(self@.repositories.len() == n);
        if index + 1 < n {
            let action = self.fetch_request(index + 1);
            self.phase = Phase::Fetching(index + 1);
            action
        } else {
            self.phase = Phase::Sleeping;
            Action::Sleep { seconds: self.config.refresh_interval }
        }
    }

    /// The loop ends with `result`.
    fn finish(&mut self, result: Result<(), String>) -> (action: Action)
        ensures
            (final(self)@, action@) == finish(old(self)@, unit_result_view(result)),
    {
        proof {
            use_type_invariant(&*self);
        }
        self.phase = Phase::Finished;
        Action::Finish(result)
    }

    /// Takes the outcome of the last piece of outside work and answers with the
    /// next one, as [`next`] states.
    pub fn step(&mut self, event: Event) -> (action: Action)
        ensures
            (final(self)@, action@) == next(old(self)@, event@),
    {
        proof {
            use_type_invariant(&*self);
        }
        match (self.phase, event) {
            (Phase::Idle, Event::Started) => {
                self.phase = Phase::Syncing;
                Action::SyncDatabase
            },
            (Phase::Syncing, Event::Synced(Ok(()))) => self.begin_cycle(),
            (Phase::Syncing, Event::Synced(Err(m))) => self.finish(Err(m)),
            (Phase::Listing, Event::Listed(Ok(rows))) => {
                if rows.len() > 0 {
                    self.repositories = rows;
                    let action = self.fetch_request(0);
                    self.phase = Phase::Fetching(0);
                    action
                } else {
                    self.repositories = rows;
                    self.phase = Phase::Sleeping;
                    Action::Sleep { seconds: self.config.refresh_interval }
                }
            },
            (Phase::Listing, Event::Listed(Err(m))) => self.finish(Err(m)),
            (Phase::Fetching(i), Event::Fetched(Ok(release))) => {
                let row = &self.repositories[i];
                if !(release.tag_name == row.version) {
                    let action = Action::RunCommand {
                        name: row.name.clone(),
                        command: row.on_release.clone(),
                        release: release.tag_name.clone(),
                    };
                    self.pending_release = release.tag_name;
                    self.phase = Phase::Running(i);
                    action
                } else {
                    self.after_row(i)
                }
            },
            (Phase::Fetching(i), Event::Fetched(Err(_))) => self.after_row(i),
            (Phase::Running(i), Event::Executed(Ok(()))) => {
                let row = &self.repositories[i];
                let action = Action::RecordRelease {
                    owner: row.owner.clone(),
                    name: row.name.clone(),
                    release: self.pending_release.clone(),
                };
                self.phase = Phase::Recording(i);
                action
            },
            (Phase::Running(i), Event::Executed(Err(m))) => self.finish(Err(m)),
            (Phase::Recording(i), Event::Recorded(Ok(()))) => self.after_row(i),
            (Phase::Recording(i), Event::Recorded(Err(m))) => {
                self.phase = Phase::Finished;
                Action::Abort(m)
            },
            (Phase::Sleeping, Event::Woke) => self.begin_cycle(),
            _ => Action::Wait,
        }
    }
}

impl EventView {
    /// The rows of a listing can be counted in a `usize`.
    pub open spec fn well_formed(self) -> bool {
        match self {
            EventView::Listed(Ok(rows)) => rows.len() <= usize::MAX,
            _ => true,
        }
    }
}

/// Every transition keeps a monitor well formed.
pub proof fn lemma_next_preserves_well_formed(s: MonitorView, e: EventView)
    requires
        s.well_formed(),
        e.well_formed(),
    ensures
        next(s, e).0.well_formed(),
{
}


/// A row's command runs only when the tag just fetched for it differs from its
/// stored release; the command is the row's own, and the tag becomes the
/// release in hand.
pub proof fn lemma_command_runs_only_for_new_release(s: MonitorView, e: EventView)
    requires
        s.well_formed(),
    ensures
        match next(s, e).1 {
            ActionView::RunCommand { name, command, release } => match (s.phase, e) {
                (Phase::Fetching(i), EventView::Fetched(Ok(tag))) => {
                    &&& tag != s.repositories[i as int].version
                    &&& release == tag
                    &&& command == s.repositories[i as int].on_release
                    &&& name == s.repositories[i as int].name
                    &&& next(s, e).0.phase == Phase::Running(i)
                    &&& next(s, e).0.pending_release == tag
                },
                _ => false,
            },
            _ => true,
        },
{
}

/// A release is recorded only after the row's command succeeded, and what is
/// recorded is the release that the command ran for, under the row's owner and name.
pub proof fn lemma_release_recorded_only_after_success(s: MonitorView, e: EventView)
    requires
        s.well_formed(),
    ensures
        match next(s, e).1 {
            ActionView::RecordRelease { owner, name, release } => match (s.phase, e) {
                (Phase::Running(i), EventView::Executed(Ok(()))) => {
                    &&& release == s.pending_release
                    &&& owner == s.repositories[i as int].owner
                    &&& name == s.repositories[i as int].name
                },
                _ => false,
            },
            _ => true,
        },
{
}

/// Once the loop has ended, no event makes the monitor do anything.
pub proof fn lemma_finished_is_final(s: MonitorView, e: EventView)
    requires
        s.phase == Phase::Finished,
    ensures
        next(s, e) == (s, ActionView::Wait),
{
}

/// A step never changes the configuration or whether the monitor keeps
/// running, and every sleep lasts the configured refresh interval.
pub proof fn lemma_step_keeps_config(s: MonitorView, e: EventView)
    ensures
        next(s, e).0.config == s.config,
        next(s, e).0.running == s.running,
        match next(s, e).1 {
            ActionView::Sleep { seconds } => seconds == s.config.refresh_interval,
            _ => true,
        },
{
}

/// A newly configured repository, stored at the initial release, runs its
/// command on the first successful check whose tag is not the initial release.
pub proof fn lemma_new_repository_runs_on_first_check(s: MonitorView, i: usize, tag: Seq<char>)
    requires
        s.well_formed(),
        s.phase == Phase::Fetching(i),
        s.repositories[i as int].version == initial_release(),
        tag != initial_release(),
    ensures
        next(s, EventView::Fetched(Ok(tag))).1 == (ActionView::RunCommand {
            name: s.repositories[i as int].name,
            command: s.repositories[i as int].on_release,
            release: tag,
        }),
{
}


/// The address asked for the latest release of `owner/name` is
/// `https://api.github.com/repos/`, the owner, `/`, the name, then
/// `/releases/latest`, for every owner and name: the owner sits right after the
/// 29 characters of the prefix, then a `/`, then the name.
pub proof fn lemma_release_url_shape(owner: Seq<char>, name: Seq<char>)
    ensures
        release_url_of(owner, name) == "https://api.github.com/repos/"@ + owner + "/"@ + name
            + "/releases/latest"@,
        release_url_of(owner, name).len() == 29 + owner.len() as int + 1 + name.len() as int + 16,
        release_url_of(owner, name).subrange(29, 29 + owner.len() as int) == owner,
        release_url_of(owner, name)[29 + owner.len() as int] == '/',
        release_url_of(owner, name).subrange(29 + owner.len() as int + 1, 29 + owner.len() as int + 1 + name.len() as int)
            == name,
{
    reveal_strlit("https://api.github.com/repos/");
    reveal_strlit("/");
    reveal_strlit("/releases/latest");
    let u = release_url_of(owner, name);
    assert(u =~= "https://api.github.com/repos/"@ + owner + "/"@ + name + "/releases/latest"@);
    assert(u.subrange(29, 29 + owner.len() as int) =~= owner);
    assert(u.subrange(29 + owner.len() as int + 1, 29 + owner.len() as int + 1 + name.len() as int) =~= name);
}

/// A fetched tag that differs from the stored release, whatever the two are,
/// runs the row's own command for that tag, and the tag is kept in hand.
pub proof fn lemma_new_tag_runs_command(s: MonitorView, i: usize, tag: Seq<char>)
    requires
        s.well_formed(),
        s.phase == Phase::Fetching(i),
        tag != s.repositories[i as int].version,
    ensures
        next(s, EventView::Fetched(Ok(tag))) == (
            MonitorView { phase: Phase::Running(i), pending_release: tag, ..s },
            ActionView::RunCommand {
                name: s.repositories[i as int].name,
                command: s.repositories[i as int].on_release,
                release: tag,
            },
        ),
{
}

/// A successful command records the release in hand for the row's owner and name.
pub proof fn lemma_successful_command_records_release(s: MonitorView, i: usize)
    requires
        s.well_formed(),
        s.phase == Phase::Running(i),
    ensures
        next(s, EventView::Executed(Ok(()))) == (
            MonitorView { phase: Phase::Recording(i), ..s },
            ActionView::RecordRelease {
                owner: s.repositories[i as int].owner,
                name: s.repositories[i as int].name,
                release: s.pending_release,
            },
        ),
{
}

/// When row `i` is done (its release could not be fetched, the fetched tag is
/// its stored release, or its new release was recorded) the monitor fetches
/// row `i + 1` at its own address, or sleeps for the refresh interval after the
/// last row.
pub proof fn lemma_row_done_moves_on(s: MonitorView, i: usize, e: EventView)
    requires
        s.well_formed(),
        match e {
            EventView::Fetched(Err(_)) => s.phase == Phase::Fetching(i),
            EventView::Fetched(Ok(tag)) => s.phase == Phase::Fetching(i) && tag
                == s.repositories[i as int].version,
            EventView::Recorded(Ok(())) => s.phase == Phase::Recording(i),
            _ => false,
        },
    ensures
        next(s, e) == (if i + 1 < s.repositories.len() {
            (
                MonitorView { phase: Phase::Fetching((i + 1) as usize), ..s },
                ActionView::FetchRelease {
                    owner: s.repositories[i + 1].owner,
                    name: s.repositories[i + 1].name,
                    url: "https://api.github.com/repos/"@ + s.repositories[i + 1].owner + "/"@
                        + s.repositories[i + 1].name + "/releases/latest"@,
                },
            )
        } else {
            (
                MonitorView { phase: Phase::Sleeping, ..s },
                ActionView::Sleep { seconds: s.config.refresh_interval },
            )
        }),
{
}

/// A listing starts the cycle at its first row, asked for at its own address,
/// or, when there are no rows, sleeps for the refresh interval.
pub proof fn lemma_listing_starts_at_first_row(s: MonitorView, rows: Seq<RepositoryView>)
    requires
        s.phase == Phase::Listing,
    ensures
        next(s, EventView::Listed(Ok(rows))) == (if rows.len() > 0 {
            (
                MonitorView { phase: Phase::Fetching(0), repositories: rows, ..s },
                ActionView::FetchRelease {
                    owner: rows[0].owner,
                    name: rows[0].name,
                    url: "https://api.github.com/repos/"@ + rows[0].owner + "/"@ + rows[0].name
                        + "/releases/latest"@,
                },
            )
        } else {
            (
                MonitorView { phase: Phase::Sleeping, repositories: rows, ..s },
                ActionView::Sleep { seconds: s.config.refresh_interval },
            )
        }),
{
}

/// Rows are fetched in order and none is passed over: a fetch of row `j` comes
/// right after the listing (then `j` is 0) or right after row `j - 1` was
/// done; and the monitor goes to sleep only from an empty listing or once the
/// last row is done.
pub proof fn lemma_rows_fetched_in_order(s: MonitorView, e: EventView)
    requires
        s.well_formed(),
        e.well_formed(),
    ensures
        match next(s, e).0.phase {
            Phase::Fetching(j) => {
                ||| s.phase == Phase::Fetching(j)
                ||| (s.phase == Phase::Listing && j == 0)
                ||| (j > 0 && s.phase == Phase::Fetching((j - 1) as usize))
                ||| (j > 0 && s.phase == Phase::Recording((j - 1) as usize))
            },
            _ => true,
        },
        next(s, e).0.phase == Phase::Sleeping ==> match s.phase {
            Phase::Sleeping => true,
            Phase::Listing => next(s, e).0.repositories.len() == 0,
            Phase::Fetching(i) => i + 1 == s.repositories.len(),
            Phase::Recording(i) => i + 1 == s.repositories.len(),
            _ => false,
        },
        next(s, e).0.phase != s.phase && (next(s, e).0.phase is Fetching || next(s, e).0.phase is Running
            || next(s, e).0.phase is Recording) && !(s.phase is Listing) ==> next(s, e).0.repositories
            == s.repositories,
{
}

/// A failing command ends the loop with its error, and nothing is recorded.
pub proof fn lemma_failed_command_ends_loop(s: MonitorView, i: usize, message: Seq<char>)
    requires
        s.phase == Phase::Running(i),
    ensures
        next(s, EventView::Executed(Err(message))) == (
            MonitorView { phase: Phase::Finished, ..s },
            ActionView::Finish(Err(message)),
        ),
{
}

/// A stopped monitor ends its loop, successfully, where the next cycle would
/// begin; a running one reads the stored rows there.
pub proof fn lemma_cycle_begins_or_stops(s: MonitorView)
    requires
        s.phase == Phase::Sleeping || s.phase == Phase::Syncing,
    ensures
        ({
            let e = if s.phase == Phase::Sleeping {
                EventView::Woke
            } else {
                EventView::Synced(Ok(()))
            };
            next(s, e) == if s.running {
                (MonitorView { phase: Phase::Listing, ..s }, ActionView::ListRepositories)
            } else {
                (MonitorView { phase: Phase::Finished, ..s }, ActionView::Finish(Ok(())))
            }
        }),
{
}

/// A recorded release is not acted on again: once the rows of `owner/name`
/// hold the release that was recorded for them, fetching that same tag for
/// such a row in a later cycle runs nothing, and the monitor moves on.
pub proof fn lemma_recorded_release_not_run_again(
    s: MonitorView,
    rows: Seq<RepositoryView>,
    j: usize,
    owner: Seq<char>,
    name: Seq<char>,
    release: Seq<char>,
)
    requires
        s.well_formed(),
        s.phase == Phase::Fetching(j),
        s.repositories == record_release(rows, owner, name, release),
        s.repositories[j as int].owner == owner,
        s.repositories[j as int].name == name,
    ensures
        s.repositories[j as int].version == release,
        !(next(s, EventView::Fetched(Ok(release))).1 is RunCommand),
        next(s, EventView::Fetched(Ok(release))).0.phase != Phase::Running(j),
{
    assert(s.repositories[j as int] == (if rows[j as int].owner == owner && rows[j as int].name
        == name {
        RepositoryView { version: release, ..rows[j as int] }
    } else {
        rows[j as int]
    }));
}

/// Starting the loop synchronises the stored rows; a failure to synchronise or
/// to read the rows ends the loop with its error; a failure to record a release
/// aborts; an event that does not answer the current phase changes nothing.
pub proof fn lemma_start_and_failures(s: MonitorView, e: EventView)
    ensures
        s.phase == Phase::Idle && e == EventView::Started ==> next(s, e) == (
            MonitorView { phase: Phase::Syncing, ..s },
            ActionView::SyncDatabase,
        ),
        s.phase == Phase::Syncing && e is Synced && e->Synced_0 is Err ==> next(s, e) == (
            MonitorView { phase: Phase::Finished, ..s },
            ActionView::Finish(Err(e->Synced_0->Err_0)),
        ),
        s.phase == Phase::Listing && e is Listed && e->Listed_0 is Err ==> next(s, e) == (
            MonitorView { phase: Phase::Finished, ..s },
            ActionView::Finish(Err(e->Listed_0->Err_0)),
        ),
        s.phase is Recording && e is Recorded && e->Recorded_0 is Err ==> next(s, e) == (
            MonitorView { phase: Phase::Finished, ..s },
            ActionView::Abort(e->Recorded_0->Err_0),
        ),
        !answers(s.phase, e) ==> next(s, e) == (s, ActionView::Wait),
{
}

/// Whether `e` is the outcome of the work that `phase` waits for.
pub open spec fn answers(phase: Phase, e: EventView) -> bool {
    match (phase, e) {
        (Phase::Idle, EventView::Started) => true,
        (Phase::Syncing, EventView::Synced(_)) => true,
        (Phase::Listing, EventView::Listed(_)) => true,
        (Phase::Fetching(_), EventView::Fetched(_)) => true,
        (Phase::Running(_), EventView::Executed(_)) => true,
        (Phase::Recording(_), EventView::Recorded(_)) => true,
        (Phase::Sleeping, EventView::Woke) => true,
        _ => false,
    }
}

} // verus!
