//! The edits that the `add` and `remove` commands make to the configuration.
//!
//! `add` appends an entry and needs a name, an owner and a command. `remove`
//! needs a name and an owner, and removes every entry with that owner and
//! name; when there is none it reports an error and changes nothing.
use vstd::prelude::*;
use crate::common::{Config, ConfigView, RepositoryConfig, RepositoryConfigView, config_views};

verus! {

broadcast use vstd::seq_lib::group_seq_properties;

/// Why a command refused to change the configuration.
pub enum CommandError {
    /// `add` was not given a name, an owner and a command.
    MissingAddArguments,
    /// `remove` was not given a name and an owner.
    MissingRemoveArguments,
    /// No configured repository has this owner and name.
    RepositoryNotFound { owner: String, name: String },
}

/// Whether the entry `r` is the repository `owner/name`.
pub open spec fn is_repository(r: RepositoryConfigView, name: Seq<char>, owner: Seq<char>) -> bool {
    r.name == name && r.owner == owner
}

/// The entries of `entries` that are not the repository `owner/name`, in order.
pub open spec fn without_repository(
    entries: Seq<RepositoryConfigView>,
    name: Seq<char>,
    owner: Seq<char>,
) -> Seq<RepositoryConfigView> {
    entries.filter(|r: RepositoryConfigView| !is_repository(r, name, owner))
}

/// Whether `entries` holds the repository `owner/name`.
pub open spec fn has_repository(
    entries: Seq<RepositoryConfigView>,
    name: Seq<char>,
    owner: Seq<char>,
) -> bool {
    exists|i: int| 0 <= i < entries.len() && is_repository(#[trigger] entries[i], name, owner)
}

/// Appends the repository `owner/name` with the command `on_release`, when all
/// three are given; otherwise reports [`CommandError::MissingAddArguments`] and
/// leaves the configuration as it was.
pub fn add_repository(
    config: &mut Config,
    name: Option<String>,
    owner: Option<String>,
    on_release: Option<String>,
) -> (r: Result<(), CommandError>)
    ensures
        r is Ok <==> (name is Some && owner is Some && on_release is Some),
        r is Err ==> r == Err::<(), CommandError>(CommandError::MissingAddArguments) && final(config)@
            == old(config)@,
        r is Ok ==> final(config)@ == (ConfigView {
            refresh_interval: old(config)@.refresh_interval,
            repositories: old(config)@.repositories.push(
                RepositoryConfigView {
                    name: name.unwrap()@,
                    owner: owner.unwrap()@,
                    on_release: on_release.unwrap()@,
                },
            ),
        }),
{
    match (name, owner, on_release) {
        (Some(name), Some(owner), Some(on_release)) => {
            let ghost before = config.repositories@;
            config.repositories.push(RepositoryConfig::new(name, owner, on_release));
            assert(config_views(config.repositories@) =~= config_views(before).push(
                config.repositories@.last()@,
            ));
            Ok(())
        },
        _ => Err(CommandError::MissingAddArguments),
    }
}

/// Removes every entry of the repository `owner/name`. Without a name and an
/// owner it reports [`CommandError::MissingRemoveArguments`]; when no entry is
/// that repository it reports [`CommandError::RepositoryNotFound`]; in both
/// cases the configuration is left as it was.
pub fn remove_repository(
    config: &mut Config,
    name: Option<String>,
    owner: Option<String>,
) -> (r: Result<(), CommandError>)
    ensures
        (name is None || owner is None) ==> r == Err::<(), CommandError>(
            CommandError::MissingRemoveArguments,
        ),
        (name is Some && owner is Some) ==> {
            let entries = old(config)@.repositories;
            if has_repository(entries, name.unwrap()@, owner.unwrap()@) {
                &&& r is Ok
                &&& final(config)@ == (ConfigView {
                    refresh_interval: old(config)@.refresh_interval,
                    repositories: without_repository(entries, name.unwrap()@, owner.unwrap()@),
                })
            } else {
                &&& r matches Err(CommandError::RepositoryNotFound { owner: o, name: n })
                &&& o@ == owner.unwrap()@
                &&& n@ == name.unwrap()@
            }
        },
        r is Err ==> final(config)@ == old(config)@,
{
    let (name, owner) = match (name, owner) {
        (Some(name), Some(owner)) => (name, owner),
        _ => {
            return Err(CommandError::MissingRemoveArguments);
        },
    };
    let ghost entries = config@.repositories;
    let ghost keep = |r: RepositoryConfigView| !is_repository(r, name@, owner@);
    let mut kept: Vec<RepositoryConfig> = Vec::new();
    let mut found = false;
    let n = config.repositories.len();
    for i in 0..n
        invariant
            n == config.repositories@.len(),
            entries == config@.repositories,
            keep == (|r: RepositoryConfigView| !is_repository(r, name@, owner@)),
            config_views(kept@) == entries.take(i as int).filter(keep),
            found <==> exists|j: int| 0 <= j < i && is_repository(#[trigger] entries[j], name@, owner@),
    {
        let entry = &config.repositories[i];
        let ghost before = kept@;
        assert(entries[i as int] == entry@);
        if entry.name == name && entry.owner == owner {
            found = true;
        } else {
            kept.push(entry.copy());
            assert(config_views(kept@) =~= config_views(before).push(entry@));
        }
        proof {
            assert(entries.take(i + 1) =~= entries.take(i as int).push(entry@));
            entries.take(i as int).lemma_filter_push(entry@, keep);
        }
    }
    assert(entries.take(n as int) =~= entries);
    if !found {
        return Err(CommandError::RepositoryNotFound { owner, name });
    }
    config.repositories = kept;
    Ok(())
}

impl CommandError {
    /// The message that reports this error.
    pub fn message(&self) -> (text: String)
        ensures
            self is MissingAddArguments ==> text@
                == "[ERROR] name, owner and on_release are required. (release-monitor add --name <NAME> --owner <OWNER> --on_release <ON_RELEASE>)"@,
            self is MissingRemoveArguments ==> text@
                == "[ERROR] name and owner are required. Release-monitor remove --name  --owner <OWNER>"@,
            self matches CommandError::RepositoryNotFound { owner, name } ==> text@
                == "[ERROR] Repository "@ + owner@ + "/"@ + name@
                + " was not found in configuration"@,
    {
        match self {
            CommandError::MissingAddArguments => String::from_str(
                "[ERROR] name, owner and on_release are required. (release-monitor add --name <NAME> --owner <OWNER> --on_release <ON_RELEASE>)",
            ),
            CommandError::MissingRemoveArguments => String::from_str(
                "[ERROR] name and owner are required. Release-monitor remove --name  --owner <OWNER>",
            ),
            CommandError::RepositoryNotFound { owner, name } => {
                let mut text = String::from_str("[ERROR] Repository ");
                text.append(owner.as_str());
                text.append("/");
                text.append(name.as_str());
                text.append(" was not found in configuration");
                text
            },
        }
    }
}

/// After a removal no entry is the removed repository, and every other entry
/// stays, in its order.
pub proof fn lemma_removed_repository_is_gone(
    entries: Seq<RepositoryConfigView>,
    name: Seq<char>,
    owner: Seq<char>,
)
    ensures
        !has_repository(without_repository(entries, name, owner), name, owner),
        forall|i: int|
            0 <= i < entries.len() && !is_repository(#[trigger] entries[i], name, owner)
                ==> without_repository(entries, name, owner).contains(entries[i]),
{
    broadcast use vstd::seq_lib::group_filter_ensures;

    let keep = |r: RepositoryConfigView| !is_repository(r, name, owner);
    let rest = without_repository(entries, name, owner);
    assert forall|i: int| 0 <= i < rest.len() implies !is_repository(#[trigger] rest[i], name, owner) by {
        assert(keep(rest[i]));
    }
    assert forall|i: int|
        0 <= i < entries.len() && !is_repository(#[trigger] entries[i], name, owner)
            implies rest.contains(entries[i]) by {
        entries.lemma_filter_contains(keep, i);
    }
}

/// A repository just added can be removed: removal finds it.
pub proof fn lemma_added_repository_can_be_removed(
    entries: Seq<RepositoryConfigView>,
    added: RepositoryConfigView,
)
    ensures
        has_repository(entries.push(added), added.name, added.owner),
{
    assert(entries.push(added)[entries.len() as int] == added);
}

} // verus!
