//! Synchronisation of the stored release state with the configuration.
//!
//! A stored row stands for the configuration entry with the same name, owner
//! and `on_release` command. Synchronising deletes the rows whose entry is no
//! longer configured and inserts, at the initial release, every configured
//! entry that no row stands for; all other rows keep their release.
use vstd::prelude::*;
use crate::common::{
    Config, ConfigView, Repository, RepositoryConfig, RepositoryConfigView, RepositoryView,
    config_views, repository_views,
};

verus! {

broadcast use vstd::seq_lib::group_seq_properties;

/// The release that a newly configured repository starts at.
pub open spec fn initial_release() -> Seq<char> {
    seq!['0', '.', '0', '.', '0']
}

/// The release that a newly configured repository starts at, as a `String`.
pub fn initial_release_string() -> (release: String)
    ensures
        release@ == initial_release(),
{
    let release = String::from_str("0.0.0");
    proof {
        reveal_strlit("0.0.0");
    }
    assert(release@ =~= initial_release());
    release
}

/// The configuration entries that a sequence of rows stands for.
pub open spec fn row_keys(rows: Seq<RepositoryView>) -> Seq<RepositoryConfigView> {
    rows.map_values(|r: RepositoryView| r.key())
}

/// The entries of stored rows that are no longer configured, in row order.
pub open spec fn stale_keys(
    configured: Seq<RepositoryConfigView>,
    rows: Seq<RepositoryView>,
) -> Seq<RepositoryConfigView> {
    row_keys(rows).filter(|k: RepositoryConfigView| !configured.contains(k))
}

/// The configured entries that no stored row stands for, in configuration order.
pub open spec fn new_entries(
    configured: Seq<RepositoryConfigView>,
    rows: Seq<RepositoryView>,
) -> Seq<RepositoryConfigView> {
    configured.filter(|c: RepositoryConfigView| !row_keys(rows).contains(c))
}

/// The statements that bring the stored rows in line with the configuration:
/// each entry of `inserts` is inserted at the initial release, and every row
/// that stands for an entry of `deletes` is deleted.
pub struct SyncPlan {
    pub inserts: Vec<RepositoryConfig>,
    pub deletes: Vec<RepositoryConfig>,
}

/// The mathematical value of a [`SyncPlan`].
pub struct SyncPlanView {
    pub inserts: Seq<RepositoryConfigView>,
    pub deletes: Seq<RepositoryConfigView>,
}

impl View for SyncPlan {
    type V = SyncPlanView;

    open spec fn view(&self) -> SyncPlanView {
        SyncPlanView { inserts: config_views(self.inserts@), deletes: config_views(self.deletes@) }
    }
}

impl SyncPlanView {
    pub open spec fn is_empty(self) -> bool {
        self.inserts.len() == 0 && self.deletes.len() == 0
    }
}

/// The plan that synchronises `rows` with the configuration `config`.
pub open spec fn sync_plan(config: ConfigView, rows: Seq<RepositoryView>) -> SyncPlanView {
    SyncPlanView {
        inserts: new_entries(config.repositories, rows),
        deletes: stale_keys(config.repositories, rows),
    }
}

/// What the table holds of a row once ids are set aside: its entry and its release.
pub struct StoredEntry {
    pub key: RepositoryConfigView,
    pub release: Seq<char>,
}

pub open spec fn stored_entry(r: RepositoryView) -> StoredEntry {
    StoredEntry { key: r.key(), release: r.version }
}

pub open spec fn stored_entries(rows: Seq<RepositoryView>) -> Seq<StoredEntry> {
    rows.map_values(|r: RepositoryView| stored_entry(r))
}

/// The rows that `plan` leaves in place, whole (ids and releases included),
/// in their order: those that stand for no deleted entry.
pub open spec fn kept_rows(rows: Seq<RepositoryView>, plan: SyncPlanView) -> Seq<RepositoryView> {
    rows.filter(|r: RepositoryView| !plan.deletes.contains(r.key()))
}

/// The table after `plan` has been carried out on `rows`: the rows that stand
/// for no deleted entry, in their order, then one new row per insert.
pub open spec fn apply_plan(rows: Seq<RepositoryView>, plan: SyncPlanView) -> Seq<StoredEntry> {
    stored_entries(kept_rows(rows, plan))
        + plan.inserts.map_values(
        |c: RepositoryConfigView| StoredEntry { key: c, release: initial_release() },
    )
}

/// Whether two configuration entries are the same entry.
pub fn same_entry(a: &RepositoryConfig, b: &RepositoryConfig) -> (same: bool)
    ensures
        same == (a@ == b@),
{
    a.name == b.name && a.owner == b.owner && a.on_release == b.on_release
}

/// Whether some stored row stands for the entry `entry`.
pub fn rows_contain(rows: &Vec<Repository>, entry: &RepositoryConfig) -> (found: bool)
    ensures
        found == row_keys(repository_views(rows@)).contains(entry@),
{
    let ghost keys = row_keys(repository_views(rows@));
    for i in 0..rows.len()
        invariant
            keys == row_keys(repository_views(rows@)),
            keys.len() == rows@.len(),
            forall|j: int| 0 <= j < i ==> keys[j] != entry@,
    {
        let row = &rows[i];
        if row.name == entry.name && row.owner == entry.owner && row.on_release == entry.on_release {
            assert(keys[i as int] == entry@);
            return true;
        }
    }
    false
}

/// Whether the configuration entries `entries` hold `entry`.
pub fn entries_contain(entries: &Vec<RepositoryConfig>, entry: &RepositoryConfig) -> (found: bool)
    ensures
        found == config_views(entries@).contains(entry@),
{
    let ghost views = config_views(entries@);
    for i in 0..entries.len()
        invariant
            views == config_views(entries@),
            views.len() == entries@.len(),
            forall|j: int| 0 <= j < i ==> views[j] != entry@,
    {
        if same_entry(&entries[i], entry) {
            assert(views[i as int] == entry@);
            return true;
        }
    }
    false
}

/// The plan that synchronises the stored rows `rows` with `config`: the
/// configured entries that no row stands for are inserted, and the entries of
/// the rows that are no longer configured are deleted.
pub fn plan_sync(config: &Config, rows: &Vec<Repository>) -> (plan: SyncPlan)
    ensures
        plan@ == sync_plan(config@, repository_views(rows@)),
{
    let ghost configured = config@.repositories;
    let ghost row_views = repository_views(rows@);
    let ghost insert_pred = |c: RepositoryConfigView| !row_keys(row_views).contains(c);
    let ghost delete_pred = |k: RepositoryConfigView| !configured.contains(k);

    let mut inserts: Vec<RepositoryConfig> = Vec::new();
    let n = config.repositories.len();
    for i in 0..n
        invariant
            n == config.repositories@.len(),
            configured == config@.repositories,
            row_views == repository_views(rows@),
            insert_pred == (|c: RepositoryConfigView| !row_keys(row_views).contains(c)),
            config_views(inserts@) == configured.take(i as int).filter(insert_pred),
    {
        let entry = &config.repositories[i];
        let ghost before = inserts@;
        if !rows_contain(rows, entry) {
            inserts.push(entry.copy());
            assert(config_views(inserts@) =~= config_views(before).push(entry@));
        }
        proof {
            assert(configured.take(i + 1) =~= configured.take(i as int).push(entry@));
            configured.take(i as int).lemma_filter_push(entry@, insert_pred);
        }
    }
    assert(configured.take(n as int) =~= configured);

    let mut deletes: Vec<RepositoryConfig> = Vec::new();
    let m = rows.len();
    let ghost keys = row_keys(row_views);
    for i in 0..m
        invariant
            m == rows@.len(),
            configured == config@.repositories,
            row_views == repository_views(rows@),
            keys == row_keys(row_views),
            keys.len() == m,
            delete_pred == (|k: RepositoryConfigView| !configured.contains(k)),
            config_views(deletes@) == keys.take(i as int).filter(delete_pred),
    {
        let key = rows[i].key();
        let ghost before = deletes@;
        assert(key@ == keys[i as int]);
        if !entries_contain(&config.repositories, &key) {
            deletes.push(key);
            assert(config_views(deletes@) =~= config_views(before).push(keys[i as int]));
        }
        proof {
            assert(keys.take(i + 1) =~= keys.take(i as int).push(keys[i as int]));
            keys.take(i as int).lemma_filter_push(keys[i as int], delete_pred);
        }
    }
    assert(keys.take(m as int) =~= keys);
    SyncPlan { inserts, deletes }
}


/// An element is kept by a filter exactly when it occurs and satisfies the predicate.
proof fn lemma_filter_membership<A>(s: Seq<A>, p: spec_fn(A) -> bool, x: A)
    ensures
        s.filter(p).contains(x) <==> (s.contains(x) && p(x)),
{
    broadcast use vstd::seq_lib::group_filter_ensures;

    if s.filter(p).contains(x) {
        s.lemma_filter_contains_rev(p, x);
        let i = choose|i: int| 0 <= i < s.filter(p).len() && s.filter(p)[i] == x;
        assert(p(s.filter(p)[i]));
    }
    if s.contains(x) && p(x) {
        let j = choose|j: int| 0 <= j < s.len() && s[j] == x;
        s.lemma_filter_contains(p, j);
    }
}

/// Synchronisation makes the table stand for exactly the configured entries:
/// every configured entry has a row afterwards and every row afterwards stands
/// for a configured entry; the rows of entries that stay configured are kept
/// with their release; an entry that had no row starts at the initial release.
pub proof fn lemma_sync_matches_config(config: ConfigView, rows: Seq<RepositoryView>)
    ensures
        ({
            let after = apply_plan(rows, sync_plan(config, rows));
            &&& forall|k: RepositoryConfigView|
                (exists|i: int| 0 <= i < after.len() && (#[trigger] after[i]).key == k)
                    <==> config.repositories.contains(k)
            &&& forall|i: int|
                0 <= i < rows.len() && config.repositories.contains(#[trigger] rows[i].key())
                    ==> after.contains(stored_entry(rows[i]))
            &&& forall|e: StoredEntry|
                #![trigger after.contains(e)]
                after.contains(e) && !row_keys(rows).contains(e.key) ==> e.release
                    == initial_release()
            &&& forall|e: StoredEntry|
                #![trigger after.contains(e)]
                after.contains(e) && row_keys(rows).contains(e.key) ==> stored_entries(
                    rows,
                ).contains(e)
        }),
{
    let configured = config.repositories;
    let plan = sync_plan(config, rows);
    let keys = row_keys(rows);
    let keep = |r: RepositoryView| !plan.deletes.contains(r.key());
    let kept = kept_rows(rows, plan);
    assert(kept == rows.filter(keep));
    let added = plan.inserts.map_values(
        |c: RepositoryConfigView| StoredEntry { key: c, release: initial_release() },
    );
    let after = apply_plan(rows, plan);
    assert(after == stored_entries(kept) + added);
    let stale = |k: RepositoryConfigView| !configured.contains(k);
    let fresh = |c: RepositoryConfigView| !keys.contains(c);

    // A row is kept exactly when its entry is configured.
    assert forall|i: int| 0 <= i < rows.len() implies (keep(rows[i]) <==> configured.contains(
        rows[i].key(),
    )) by {
        assert(keys[i] == rows[i].key());
        assert(keys.contains(rows[i].key()));
        lemma_filter_membership(keys, stale, rows[i].key());
    }
    // Each entry of the new table comes either from a kept row or from an insert.
    assert forall|j: int| 0 <= j < after.len() implies {
        let e = #[trigger] after[j];
        ||| (exists|r: RepositoryView|
            kept.contains(r) && rows.contains(r) && configured.contains(r.key()) && e
                == stored_entry(r))
        ||| (plan.inserts.contains(e.key) && configured.contains(e.key) && !keys.contains(e.key)
            && e.release == initial_release())
    } by {
        if j < stored_entries(kept).len() {
            let r = kept[j];
            assert(kept.contains(r));
            lemma_filter_membership(rows, keep, r);
            let i = choose|i: int| 0 <= i < rows.len() && rows[i] == r;
            assert(after[j] == stored_entry(r));
        } else {
            let c = plan.inserts[j - stored_entries(kept).len()];
            assert(plan.inserts.contains(c));
            lemma_filter_membership(configured, fresh, c);
        }
    }
    // Every configured entry has a row afterwards.
    assert forall|k: RepositoryConfigView| configured.contains(k) implies exists|i: int|
        0 <= i < after.len() && (#[trigger] after[i]).key == k by {
        if keys.contains(k) {
            let i = choose|i: int| 0 <= i < keys.len() && keys[i] == k;
            assert(rows[i].key() == k);
            lemma_filter_membership(rows, keep, rows[i]);
            let j = choose|j: int| 0 <= j < kept.len() && kept[j] == rows[i];
            assert(after[j].key == k);
        } else {
            lemma_filter_membership(configured, fresh, k);
            let j = choose|j: int| 0 <= j < plan.inserts.len() && plan.inserts[j] == k;
            assert(after[stored_entries(kept).len() + j].key == k);
        }
    }
    // Rows of configured entries are kept.
    assert forall|i: int|
        0 <= i < rows.len() && configured.contains(#[trigger] rows[i].key()) implies after.contains(
        stored_entry(rows[i]),
    ) by {
        lemma_filter_membership(rows, keep, rows[i]);
        let j = choose|j: int| 0 <= j < kept.len() && kept[j] == rows[i];
        assert(after[j] == stored_entry(rows[i]));
    }
    assert forall|k: RepositoryConfigView|
        (exists|i: int| 0 <= i < after.len() && (#[trigger] after[i]).key == k) implies configured.contains(k) by {
        let i = choose|i: int| 0 <= i < after.len() && (#[trigger] after[i]).key == k;
    }
    assert forall|e: StoredEntry| after.contains(e) && !keys.contains(e.key) implies e.release
        == initial_release() by {
        let j = choose|j: int| 0 <= j < after.len() && after[j] == e;
        assert(after[j] == e);
        if !(plan.inserts.contains(e.key) && configured.contains(e.key) && !keys.contains(e.key)
            && e.release == initial_release()) {
            let r = choose|r: RepositoryView|
                kept.contains(r) && rows.contains(r) && configured.contains(r.key()) && e
                    == stored_entry(r);
            let i = choose|i: int| 0 <= i < rows.len() && rows[i] == r;
            assert(keys[i] == r.key());
        }
    }
    assert forall|e: StoredEntry| after.contains(e) && keys.contains(e.key) implies stored_entries(
        rows,
    ).contains(e) by {
        let j = choose|j: int| 0 <= j < after.len() && after[j] == e;
        assert(after[j] == e);
        if !(plan.inserts.contains(e.key) && configured.contains(e.key) && !keys.contains(e.key)
            && e.release == initial_release()) {
            let r = choose|r: RepositoryView|
                kept.contains(r) && rows.contains(r) && configured.contains(r.key()) && e
                    == stored_entry(r);
            let i = choose|i: int| 0 <= i < rows.len() && rows[i] == r;
            assert(stored_entries(rows)[i] == e);
        }
    }
}

/// Synchronisation is idempotent: once a table holds what a synchronisation
/// with `config` left, synchronising it again with `config` changes nothing.
pub proof fn lemma_sync_is_idempotent(
    config: ConfigView,
    rows: Seq<RepositoryView>,
    synced: Seq<RepositoryView>,
)
    requires
        stored_entries(synced) == apply_plan(rows, sync_plan(config, rows)),
    ensures
        sync_plan(config, synced).is_empty(),
{
    broadcast use vstd::seq_lib::group_filter_ensures;

    lemma_sync_matches_config(config, rows);
    let after = apply_plan(rows, sync_plan(config, rows));
    let configured = config.repositories;
    let keys = row_keys(synced);
    let stale = |k: RepositoryConfigView| !configured.contains(k);
    let fresh = |c: RepositoryConfigView| !keys.contains(c);
    assert forall|i: int| 0 <= i < keys.len() implies configured.contains(#[trigger] keys[i]) by {
        assert(after[i].key == keys[i]);
    }
    assert forall|c: RepositoryConfigView| configured.contains(c) implies keys.contains(c) by {
        let i = choose|i: int| 0 <= i < after.len() && (#[trigger] after[i]).key == c;
        assert(keys[i] == c);
    }
    if stale_keys(configured, synced).len() > 0 {
        let k = stale_keys(configured, synced)[0];
        assert(stale_keys(configured, synced).contains(k));
        lemma_filter_membership(keys, stale, k);
    }
    if new_entries(configured, synced).len() > 0 {
        let c = new_entries(configured, synced)[0];
        assert(new_entries(configured, synced).contains(c));
        lemma_filter_membership(configured, fresh, c);
    }
}


/// Synchronisation leaves every row whose entry stays configured in place,
/// whole: with its id, its release and its command; and the rows it leaves are
/// exactly those, in their order.
pub proof fn lemma_sync_keeps_configured_rows(config: ConfigView, rows: Seq<RepositoryView>)
    ensures
        ({
            let kept = kept_rows(rows, sync_plan(config, rows));
            &&& forall|i: int|
                0 <= i < rows.len() && config.repositories.contains(#[trigger] rows[i].key())
                    ==> kept.contains(rows[i])
            &&& forall|r: RepositoryView|
                #![trigger kept.contains(r)]
                kept.contains(r) <==> (rows.contains(r) && config.repositories.contains(r.key()))
            &&& apply_plan(rows, sync_plan(config, rows)) == stored_entries(kept) + sync_plan(
                config,
                rows,
            ).inserts.map_values(
                |c: RepositoryConfigView| StoredEntry { key: c, release: initial_release() },
            )
        }),
{
    let configured = config.repositories;
    let plan = sync_plan(config, rows);
    let keys = row_keys(rows);
    let keep = |r: RepositoryView| !plan.deletes.contains(r.key());
    let kept = kept_rows(rows, plan);
    assert(kept == rows.filter(keep));
    let stale = |k: RepositoryConfigView| !configured.contains(k);
    assert forall|r: RepositoryView| rows.contains(r) implies (keep(r) <==> configured.contains(
        r.key(),
    )) by {
        let i = choose|i: int| 0 <= i < rows.len() && rows[i] == r;
        assert(keys[i] == r.key());
        assert(keys.contains(r.key()));
        lemma_filter_membership(keys, stale, r.key());
    }
    assert forall|r: RepositoryView| kept.contains(r) <==> (rows.contains(r)
        && configured.contains(r.key())) by {
        lemma_filter_membership(rows, keep, r);
    }
    assert forall|i: int|
        0 <= i < rows.len() && configured.contains(#[trigger] rows[i].key()) implies kept.contains(
        rows[i],
    ) by {
        assert(rows.contains(rows[i]));
        lemma_filter_membership(rows, keep, rows[i]);
    }
}

/// The rows after `UPDATE repositories SET release = release WHERE owner = owner
/// AND name = name`: every row of that owner and name gets the release; all
/// other rows, and all other fields, stay.
pub open spec fn record_release(
    rows: Seq<RepositoryView>,
    owner: Seq<char>,
    name: Seq<char>,
    release: Seq<char>,
) -> Seq<RepositoryView> {
    rows.map_values(
        |r: RepositoryView|
            if r.owner == owner && r.name == name {
                RepositoryView { version: release, ..r }
            } else {
                r
            },
    )
}


/// What the plan holds, entry by entry: an entry is deleted exactly when some
/// stored row stands for it and it is not configured; an entry is inserted
/// exactly when it is configured and no stored row stands for it. Inserts come
/// in configuration order and deletes in row order.
pub proof fn lemma_sync_plan_entries(config: ConfigView, rows: Seq<RepositoryView>)
    ensures
        forall|k: RepositoryConfigView|
            #![trigger sync_plan(config, rows).deletes.contains(k)]
            sync_plan(config, rows).deletes.contains(k) <==> ((exists|i: int|
                0 <= i < rows.len() && k == (RepositoryConfigView {
                    name: rows[i].name,
                    owner: rows[i].owner,
                    on_release: rows[i].on_release,
                })) && !config.repositories.contains(k)),
        forall|c: RepositoryConfigView|
            #![trigger sync_plan(config, rows).inserts.contains(c)]
            sync_plan(config, rows).inserts.contains(c) <==> (config.repositories.contains(c)
                && !(exists|i: int|
                0 <= i < rows.len() && c == (RepositoryConfigView {
                    name: rows[i].name,
                    owner: rows[i].owner,
                    on_release: rows[i].on_release,
                }))),
{
    let configured = config.repositories;
    let keys = row_keys(rows);
    let stale = |k: RepositoryConfigView| !configured.contains(k);
    let fresh = |c: RepositoryConfigView| !keys.contains(c);
    assert forall|k: RepositoryConfigView| keys.contains(k) <==> (exists|i: int|
        0 <= i < rows.len() && k == (RepositoryConfigView {
            name: rows[i].name,
            owner: rows[i].owner,
            on_release: rows[i].on_release,
        })) by {
        if keys.contains(k) {
            let i = choose|i: int| 0 <= i < keys.len() && keys[i] == k;
            assert(k == rows[i].key());
        }
        if exists|i: int|
            0 <= i < rows.len() && k == (RepositoryConfigView {
                name: rows[i].name,
                owner: rows[i].owner,
                on_release: rows[i].on_release,
            }) {
            let i = choose|i: int|
                0 <= i < rows.len() && k == (RepositoryConfigView {
                    name: rows[i].name,
                    owner: rows[i].owner,
                    on_release: rows[i].on_release,
                });
            assert(keys[i] == k);
        }
    }
    assert forall|k: RepositoryConfigView| sync_plan(config, rows).deletes.contains(k) <==> (
    keys.contains(k) && !configured.contains(k)) by {
        lemma_filter_membership(keys, stale, k);
    }
    assert forall|c: RepositoryConfigView| sync_plan(config, rows).inserts.contains(c) <==> (
    configured.contains(c) && !keys.contains(c)) by {
        lemma_filter_membership(configured, fresh, c);
    }
}

} // verus!
