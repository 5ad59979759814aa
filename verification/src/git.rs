//! Reconciling local history with the remote.
//!
//! The caller fetches, merges, commits and pushes; what to do next is
//! decided here from what each operation reported.

use vstd::prelude::*;
use vstd::string::*;
use crate::config::{ConfinuumConfig, EntryModel, has_entry};
use crate::error::{ErrorKind, Failure, FailureModel, Wording, bare_failure, failure_about};
use crate::path::{
    FilePath,
    PathModel,
    contains_path,
    join_paths,
    parse_path,
    paths_view,
    render_path,
};

verus! {

/// How the fetched history relates to the local one, as the version control
/// backend's merge analysis reports it.
#[derive(Clone, Copy, Debug, PartialEq, Eq, Structural)]
pub struct MergeAnalysis {
    /// Both histories have diverged; a merge is needed.
    pub normal: bool,
    /// Everything fetched is reachable from the local head.
    pub up_to_date: bool,
    /// The fetched history continues the local one.
    pub fast_forward: bool,
    /// The local head points to no commit.
    pub unborn: bool,
}

/// The classes of a merge analysis.
#[derive(Clone, Copy, Debug, PartialEq, Eq, Structural)]
pub enum Relation {
    UpToDate,
    Unborn,
    /// The analysis reports nothing.
    Nothing,
    FastForward,
    Normal,
}

/// The class of an analysis.  Up to date comes before unborn, unborn before
/// fast forward, fast forward before a merge.
pub open spec fn relation_of(a: MergeAnalysis) -> Relation {
    if a.up_to_date {
        Relation::UpToDate
    } else if a.unborn {
        Relation::Unborn
    } else if a.fast_forward {
        Relation::FastForward
    } else if a.normal {
        Relation::Normal
    } else {
        Relation::Nothing
    }
}

impl MergeAnalysis {
    /// Classifies the analysis.
    pub fn classify(&self) -> (r: Relation)
        ensures
            r == relation_of(*self),
    {
        if self.up_to_date {
            Relation::UpToDate
        } else if self.unborn {
            Relation::Unborn
        } else if self.fast_forward {
            Relation::FastForward
        } else if self.normal {
            Relation::Normal
        } else {
            Relation::Nothing
        }
    }
}

/// The guard of every operation that changes the configuration: it fails
/// unless the local branch is up to date with what was fetched.  The
/// failure says whether something was to be added or deleted.
pub fn divergence_guard(analysis: MergeAnalysis, deleting: bool) -> (r: Result<(), Failure>)
    ensures
        r is Ok <==> analysis.up_to_date,
        r is Err ==> r->Err_0@ == diverged(deleting),
{
    if analysis.up_to_date {
        Ok(())
    } else if deleting {
        Err(Failure::bare(Wording::ChangesBeforeDeleting))
    } else {
        Err(Failure::bare(Wording::ChangesBeforeAdding))
    }
}

/// The failure of the guard.
pub open spec fn diverged(deleting: bool) -> FailureModel {
    if deleting {
        bare_failure(Wording::ChangesBeforeDeleting)
    } else {
        bare_failure(Wording::ChangesBeforeAdding)
    }
}

/// Where an update stands.
#[derive(Clone, Copy, Debug, PartialEq, Eq, Structural)]
pub enum SyncState {
    /// The remote branch is being fetched and compared.
    Fetching,
    /// The local branch is being moved to the fetched commit.
    FastForwarding,
    /// The three-way merge of the trees is being computed.
    Merging,
    /// The conflicted index is being checked out for inspection.
    Aborting,
    /// The merge commit is being created.
    Committing,
    /// The merged head is being checked out.
    CheckingOut,
    /// The merge commit is being pushed.
    Pushing,
    /// The update succeeded.
    Done,
    /// The merge had conflicts; nothing was committed or pushed.
    ConflictAborted,
    /// The update failed.
    Failed(ErrorKind),
}

/// What the caller reports to an update.
#[derive(Clone, Copy, Debug, PartialEq, Eq, Structural)]
pub enum SyncEvent {
    /// The fetch succeeded, with the analysis of what was fetched and
    /// whether every changed file belongs to an entry.
    Fetched { analysis: MergeAnalysis, orphaned: bool },
    /// The merge of the trees was computed, with or without conflicts.
    Merged { conflicts: bool },
    /// The operation asked for succeeded.
    Succeeded,
    /// The operation asked for failed.
    Broke,
}

/// What an update asks the caller to do.
#[derive(Clone, Copy, Debug, PartialEq, Eq, Structural)]
pub enum SyncAction {
    /// Fetch the remote branch and analyse it against the local head.
    Fetch,
    /// Advance the local branch to the fetched commit and check it out.
    FastForward,
    /// Merge the local and the fetched tree over their merge base.
    MergeTrees,
    /// Check out the conflicted index into the working tree.
    CheckoutConflicts,
    /// Write the merged tree and commit it with both parents.
    CommitMerge,
    /// Check out the merged head.
    CheckoutHead,
    /// Push the local branch.
    Push,
    /// Deploy the links again and report how the update ended.
    Redeploy,
}

/// Whether an update has ended.
pub open spec fn is_terminal(s: SyncState) -> bool {
    s == SyncState::Done || s == SyncState::ConflictAborted || s is Failed
}

/// What an update in state `s` asks for.
pub open spec fn action_of(s: SyncState) -> SyncAction {
    match s {
        SyncState::Fetching => SyncAction::Fetch,
        SyncState::FastForwarding => SyncAction::FastForward,
        SyncState::Merging => SyncAction::MergeTrees,
        SyncState::Aborting => SyncAction::CheckoutConflicts,
        SyncState::Committing => SyncAction::CommitMerge,
        SyncState::CheckingOut => SyncAction::CheckoutHead,
        SyncState::Pushing => SyncAction::Push,
        SyncState::Done | SyncState::ConflictAborted | SyncState::Failed(_) => SyncAction::Redeploy,
    }
}

/// The state that follows a successful fetch.
pub open spec fn after_fetch(analysis: MergeAnalysis, orphaned: bool) -> SyncState {
    if orphaned {
        SyncState::Failed(ErrorKind::OrphanedFile)
    } else {
        match relation_of(analysis) {
            Relation::UpToDate | Relation::Unborn | Relation::Nothing => SyncState::Done,
            Relation::FastForward => SyncState::FastForwarding,
            Relation::Normal => SyncState::Merging,
        }
    }
}

/// The transition of an update.
///
/// A failed operation fails the update; a failed push after the merge was
/// committed is a rejected push, since local history has advanced and the
/// remote has not.  Conflicts abort the merge before anything is committed.
/// An event that was not asked for fails the update as well.  An update
/// that has ended stays as it is.
pub open spec fn sync_transition(s: SyncState, e: SyncEvent) -> SyncState {
    match s {
        SyncState::Fetching => match e {
            SyncEvent::Fetched { analysis, orphaned } => after_fetch(analysis, orphaned),
            _ => SyncState::Failed(ErrorKind::Io),
        },
        SyncState::FastForwarding => match e {
            SyncEvent::Succeeded => SyncState::Done,
            _ => SyncState::Failed(ErrorKind::Io),
        },
        SyncState::Merging => match e {
            SyncEvent::Merged { conflicts } => if conflicts {
                SyncState::Aborting
            } else {
                SyncState::Committing
            },
            _ => SyncState::Failed(ErrorKind::Io),
        },
        SyncState::Aborting => SyncState::ConflictAborted,
        SyncState::Committing => match e {
            SyncEvent::Succeeded => SyncState::CheckingOut,
            _ => SyncState::Failed(ErrorKind::Io),
        },
        SyncState::CheckingOut => match e {
            SyncEvent::Succeeded => SyncState::Pushing,
            _ => SyncState::Failed(ErrorKind::Io),
        },
        SyncState::Pushing => match e {
            SyncEvent::Succeeded => SyncState::Done,
            _ => SyncState::Failed(ErrorKind::PushRejected),
        },
        SyncState::Done | SyncState::ConflictAborted | SyncState::Failed(_) => s,
    }
}

/// The failure that an update in state `s` reports, if it reports one.
pub open spec fn failure_of(s: SyncState) -> Option<ErrorKind> {
    match s {
        SyncState::ConflictAborted => Some(ErrorKind::MergeConflict),
        SyncState::Failed(kind) => Some(kind),
        _ => None,
    }
}

impl SyncState {
    /// The state in which an update begins.
    pub fn start() -> (s: SyncState)
        ensures
            s == SyncState::Fetching,
    {
        SyncState::Fetching
    }

    /// What the update asks for.
    pub fn action(&self) -> (a: SyncAction)
        ensures
            a == action_of(*self),
    {
        match self {
            SyncState::Fetching => SyncAction::Fetch,
            SyncState::FastForwarding => SyncAction::FastForward,
            SyncState::Merging => SyncAction::MergeTrees,
            SyncState::Aborting => SyncAction::CheckoutConflicts,
            SyncState::Committing => SyncAction::CommitMerge,
            SyncState::CheckingOut => SyncAction::CheckoutHead,
            SyncState::Pushing => SyncAction::Push,
            _ => SyncAction::Redeploy,
        }
    }

    /// Whether the update has ended.
    pub fn is_terminal(&self) -> (b: bool)
        ensures
            b == is_terminal(*self),
    {
        match self {
            SyncState::Done | SyncState::ConflictAborted | SyncState::Failed(_) => true,
            _ => false,
        }
    }

    /// The kind of failure that the update reports, if it reports one.
    pub fn failure(&self) -> (r: Option<ErrorKind>)
        ensures
            r == failure_of(*self),
    {
        match self {
            SyncState::ConflictAborted => Some(ErrorKind::MergeConflict),
            SyncState::Failed(kind) => Some(*kind),
            _ => None,
        }
    }

    /// The state that follows on an event.
    pub fn step(&self, event: SyncEvent) -> (next: SyncState)
        ensures
            next == sync_transition(*self, event),
    {
        match self {
            SyncState::Fetching => match event {
                SyncEvent::Fetched { analysis, orphaned } => {
                    if orphaned {
                        SyncState::Failed(ErrorKind::OrphanedFile)
                    } else {
                        match analysis.classify() {
                            Relation::FastForward => SyncState::FastForwarding,
                            Relation::Normal => SyncState::Merging,
                            _ => SyncState::Done,
                        }
                    }
                },
                _ => SyncState::Failed(ErrorKind::Io),
            },
            SyncState::FastForwarding => match event {
                SyncEvent::Succeeded => SyncState::Done,
                _ => SyncState::Failed(ErrorKind::Io),
            },
            SyncState::Merging => match event {
                SyncEvent::Merged { conflicts } => if conflicts {
                    SyncState::Aborting
                } else {
                    SyncState::Committing
                },
                _ => SyncState::Failed(ErrorKind::Io),
            },
            SyncState::Aborting => SyncState::ConflictAborted,
            SyncState::Committing => match event {
                SyncEvent::Succeeded => SyncState::CheckingOut,
                _ => SyncState::Failed(ErrorKind::Io),
            },
            SyncState::CheckingOut => match event {
                SyncEvent::Succeeded => SyncState::Pushing,
                _ => SyncState::Failed(ErrorKind::Io),
            },
            SyncState::Pushing => match event {
                SyncEvent::Succeeded => SyncState::Done,
                _ => SyncState::Failed(ErrorKind::PushRejected),
            },
            SyncState::Done => SyncState::Done,
            SyncState::ConflictAborted => SyncState::ConflictAborted,
            SyncState::Failed(kind) => SyncState::Failed(*kind),
        }
    }
}

/// The state of an update after the events, taken in order from state `s`.
pub open spec fn sync_run(s: SyncState, events: Seq<SyncEvent>) -> SyncState
    decreases events.len(),
{
    if events.len() == 0 {
        s
    } else {
        sync_transition(sync_run(s, events.drop_last()), events.last())
    }
}

/// An action that adds a commit to the local branch or changes the remote.
pub open spec fn advances_history(a: SyncAction) -> bool {
    a == SyncAction::FastForward || a == SyncAction::CommitMerge || a == SyncAction::Push
}

/// The states of a merge that was found to conflict.
pub open spec fn conflicted(s: SyncState) -> bool {
    s == SyncState::Aborting || s == SyncState::ConflictAborted
}

/// A conflicting merge is not destructive: once the merge has reported
/// conflicts, whatever the caller reports afterwards, the update never asks
/// for a commit, a fast forward or a push, and it ends by reporting the
/// conflict.
pub proof fn theorem_conflict_commits_nothing(events: Seq<SyncEvent>)
    ensures
        conflicted(
            sync_run(sync_transition(SyncState::Merging, SyncEvent::Merged { conflicts: true }), events),
        ),
        !advances_history(
            action_of(
                sync_run(
                    sync_transition(SyncState::Merging, SyncEvent::Merged { conflicts: true }),
                    events,
                ),
            ),
        ),
        events.len() > 0 ==> failure_of(
            sync_run(sync_transition(SyncState::Merging, SyncEvent::Merged { conflicts: true }), events),
        ) == Some(ErrorKind::MergeConflict),
    decreases events.len(),
{
    if events.len() > 0 {
        theorem_conflict_commits_nothing(events.drop_last());
    }
}

/// A fast forward creates no merge commit: from a fetch that reports a fast
/// forward on, whatever the caller reports afterwards, the update never asks
/// for a merge or a merge commit.
pub proof fn theorem_fast_forward_merges_nothing(analysis: MergeAnalysis, events: Seq<SyncEvent>)
    requires
        relation_of(analysis) == Relation::FastForward,
    ensures
        ({
            let s = sync_run(
                sync_transition(SyncState::Fetching, SyncEvent::Fetched { analysis, orphaned: false }),
                events,
            );
            s == SyncState::FastForwarding || s == SyncState::Done || s == SyncState::Failed(
                ErrorKind::Io,
            )
        }),
    decreases events.len(),
{
    if events.len() > 0 {
        theorem_fast_forward_merges_nothing(analysis, events.drop_last());
    }
}

/// An update that has ended stays as it is.
pub proof fn theorem_terminal_is_final(s: SyncState, e: SyncEvent)
    requires
        is_terminal(s),
    ensures
        sync_transition(s, e) == s,
{
}

/// The changed files of one entry.
#[derive(Debug)]
pub struct EntryChanges {
    pub name: String,
    pub files: Vec<FilePath>,
}

/// The model of the changed files of one entry.
pub struct ChangesModel {
    pub name: Seq<char>,
    pub files: Seq<PathModel>,
}

impl View for EntryChanges {
    type V = ChangesModel;

    open spec fn view(&self) -> ChangesModel {
        ChangesModel { name: self.name@, files: paths_view(self.files@) }
    }
}

/// The models of a list of changes.
pub open spec fn changes_view(v: Seq<EntryChanges>) -> Seq<ChangesModel> {
    Seq::new(v.len(), |i: int| v[i]@)
}

/// What changed between two trees, entry by entry.
#[derive(Debug)]
pub struct ChangeSummary {
    /// The changed files of each entry that has any.
    pub entries: Vec<EntryChanges>,
    /// Whether the configuration file itself changed.
    pub config_updated: bool,
}

/// A changed file below the directory of an entry: its first component
/// names the entry.
pub open spec fn in_entry(p: PathModel) -> bool {
    p.len() > 1
}

/// The configuration file, relative to the repository.
pub open spec fn config_file() -> PathModel {
    seq!["config.toml"@]
}

/// A changed file that belongs to no entry of `entries`.
pub open spec fn is_orphan(entries: Seq<EntryModel>, p: PathModel) -> bool {
    in_entry(p) && !has_entry(entries, p[0])
}

/// The first of `files` from `from` on that is an orphan, or the number of
/// files if none is.
pub open spec fn first_orphan(entries: Seq<EntryModel>, files: Seq<PathModel>, from: int) -> int
    decreases files.len() - from,
{
    if from < 0 || from >= files.len() {
        files.len() as int
    } else if is_orphan(entries, files[from]) {
        from
    } else {
        first_orphan(entries, files, from + 1)
    }
}

/// The groups split `seen` by entry: each group has a name of its own and
/// holds, each once, the files of `seen` that lie in its entry, at least
/// one; and every file of `seen` that lies in an entry has its group.
pub open spec fn groups_split(groups: Seq<ChangesModel>, seen: Seq<PathModel>) -> bool {
    &&& forall|a: int, b: int|
        0 <= a < groups.len() && 0 <= b < groups.len() && a != b ==> (#[trigger] groups[a]).name
            != (#[trigger] groups[b]).name
    &&& forall|g: int|
        0 <= g < groups.len() ==> (#[trigger] groups[g]).files.no_duplicates()
            && groups[g].files.len() > 0
    &&& forall|g: int, p: PathModel|
        0 <= g < groups.len() ==> ((#[trigger] groups[g]).files.contains(p) <==> (
        #[trigger] seen.contains(p)) && in_entry(p) && p[0] == groups[g].name)
    &&& forall|j: int|
        0 <= j < seen.len() && in_entry(#[trigger] seen[j]) ==> exists|g: int|
            0 <= g < groups.len() && (#[trigger] groups[g]).name == seen[j][0]
}

/// Where the group called `name` stands.
fn find_group(groups: &Vec<EntryChanges>, name: &String) -> (r: Option<usize>)
    ensures
        r is Some ==> r->0 < groups@.len() && groups@[r->0 as int].name@ == name@,
        r is None ==> forall|g: int| 0 <= g < groups@.len() ==> groups@[g].name@ != name@,
{
    let mut i: usize = 0;
    while i < groups.len()
        invariant
            i <= groups@.len(),
            forall|g: int| 0 <= g < i ==> groups@[g].name@ != name@,
        decreases groups@.len() - i,
    {
        if groups[i].name == *name {
            return Some(i);
        }
        i += 1;
    }
    None
}

/// Files `file`, which lies in an entry, under its group.
fn record_change(groups: &mut Vec<EntryChanges>, file: &FilePath, Ghost(seen): Ghost<Seq<PathModel>>)
    requires
        in_entry(file@),
        groups_split(changes_view(old(groups)@), seen),
    ensures
        groups_split(changes_view(final(groups)@), seen.push(file@)),
{
    let ghost before = changes_view(groups@);
    let ghost now = seen.push(file@);
    let name = file.component(0);
    assert forall|p: PathModel| now.contains(p) <==> seen.contains(p) || p == file@ by {
        if seen.contains(p) {
            let j = choose|j: int| 0 <= j < seen.len() && seen[j] == p;
            assert(now[j] == p);
        }
        if p == file@ {
            assert(now[seen.len() as int] == p);
        }
        if now.contains(p) {
            let j = choose|j: int| 0 <= j < now.len() && now[j] == p;
            if j < seen.len() {
                assert(seen[j] == p);
            }
        }
    }
    match find_group(groups, name) {
        Some(k) => {
            let group = groups.remove(k);
            assert(group@ == before[k as int]);
            let EntryChanges { name: group_name, files: group_files } = group;
            let mut files = group_files;
            let ghost old_files = paths_view(files@);
            if !contains_path(&files, file) {
                files.push(file.clone());
                proof {
                    assert(paths_view(files@) =~= old_files.push(file@));
                    assert forall|a: int, b: int|
                        0 <= a < paths_view(files@).len() && 0 <= b < paths_view(files@).len() && a
                            != b implies paths_view(files@)[a] != paths_view(files@)[b] by {
                        if a < old_files.len() && b < old_files.len() {
                            assert(paths_view(files@)[a] == old_files[a]);
                            assert(paths_view(files@)[b] == old_files[b]);
                        } else if a < old_files.len() {
                            assert(paths_view(files@)[a] == old_files[a]);
                            assert(old_files.contains(old_files[a]));
                        } else {
                            assert(paths_view(files@)[b] == old_files[b]);
                            assert(old_files.contains(old_files[b]));
                        }
                    }
                    assert forall|p: PathModel|
                        paths_view(files@).contains(p) <==> old_files.contains(p) || p == file@ by {
                        if old_files.contains(p) {
                            let j = choose|j: int| 0 <= j < old_files.len() && old_files[j] == p;
                            assert(paths_view(files@)[j] == p);
                        }
                        if p == file@ {
                            assert(paths_view(files@)[old_files.len() as int] == p);
                        }
                        if paths_view(files@).contains(p) {
                            let j = choose|j: int|
                                0 <= j < paths_view(files@).len() && paths_view(files@)[j] == p;
                            if j < old_files.len() {
                                assert(old_files[j] == p);
                            }
                        }
                    }
                }
            }
            let ghost new_files = paths_view(files@);
            groups.insert(k, EntryChanges { name: group_name, files });
            proof {
                let after = changes_view(groups@);
                assert(after.len() == before.len());
                assert forall|g: int| 0 <= g < after.len() && g != k implies after[g]
                    == before[g] by {}
                assert(after[k as int].name == before[k as int].name);
                assert(after[k as int].files == new_files);
                assert forall|g: int, p: PathModel| 0 <= g < after.len() implies ((
                #[trigger] after[g]).files.contains(p) <==> (#[trigger] now.contains(p))
                    && in_entry(p) && p[0] == after[g].name) by {
                    if g == k {
                        assert(before[k as int].files.contains(p) <==> seen.contains(p)
                            && in_entry(p) && p[0] == before[k as int].name);
                    } else {
                        assert(before[g].files.contains(p) <==> seen.contains(p) && in_entry(p)
                            && p[0] == before[g].name);
                        assert(before[g].name != before[k as int].name);
                    }
                }
                assert forall|j: int| 0 <= j < now.len() && in_entry(#[trigger] now[j]) implies exists|
                    g: int,
                | 0 <= g < after.len() && (#[trigger] after[g]).name == now[j][0] by {
                    if j < seen.len() {
                        assert(now[j] == seen[j]);
                        let g = choose|g: int|
                            0 <= g < before.len() && (#[trigger] before[g]).name == seen[j][0];
                        assert(after[g].name == now[j][0]);
                    } else {
                        assert(after[k as int].name == now[j][0]);
                    }
                }
                assert forall|a: int, b: int|
                    0 <= a < after.len() && 0 <= b < after.len() && a != b implies (
                #[trigger] after[a]).name != (#[trigger] after[b]).name by {
                    assert(after[a].name == before[a].name);
                    assert(after[b].name == before[b].name);
                }
                assert forall|g: int| 0 <= g < after.len() implies (
                #[trigger] after[g]).files.no_duplicates() && after[g].files.len() > 0 by {
                    if g != k {
                        assert(after[g] == before[g]);
                    }
                }
            }
        },
        None => {
            let mut files: Vec<FilePath> = Vec::new();
            files.push(file.clone());
            assert(paths_view(files@) =~= seq![file@]);
            groups.push(EntryChanges { name: name.clone(), files });
            proof {
                let after = changes_view(groups@);
                let k = before.len() as int;
                assert(after =~= before.push(ChangesModel { name: name@, files: seq![file@] }));
                assert forall|g: int, p: PathModel| 0 <= g < after.len() implies ((
                #[trigger] after[g]).files.contains(p) <==> (#[trigger] now.contains(p))
                    && in_entry(p) && p[0] == after[g].name) by {
                    if g == k {
                        if after[g].files.contains(p) {
                            let j = choose|j: int|
                                0 <= j < after[g].files.len() && after[g].files[j] == p;
                            assert(p == file@);
                        }
                        if p == file@ {
                            assert(after[g].files[0] == p);
                        }
                        if seen.contains(p) && in_entry(p) && p[0] == name@ {
                            let j = choose|j: int| 0 <= j < seen.len() && seen[j] == p;
                            let h = choose|h: int|
                                0 <= h < before.len() && (#[trigger] before[h]).name == seen[j][0];
                            assert(groups@[h].name@ == name@);
                        }
                    } else {
                        assert(after[g] == before[g]);
                        assert(before[g].files.contains(p) <==> seen.contains(p) && in_entry(p)
                            && p[0] == before[g].name);
                        assert(before[g].name != name@);
                    }
                }
                assert forall|j: int| 0 <= j < now.len() && in_entry(#[trigger] now[j]) implies exists|
                    g: int,
                | 0 <= g < after.len() && (#[trigger] after[g]).name == now[j][0] by {
                    if j < seen.len() {
                        assert(now[j] == seen[j]);
                        let g = choose|g: int|
                            0 <= g < before.len() && (#[trigger] before[g]).name == seen[j][0];
                        assert(after[g] == before[g]);
                        assert(after[g].name == now[j][0]);
                    } else {
                        assert(after[k].name == now[j][0]);
                    }
                }
                assert forall|a: int, b: int|
                    0 <= a < after.len() && 0 <= b < after.len() && a != b implies (
                #[trigger] after[a]).name != (#[trigger] after[b]).name by {
                    if a < k {
                        assert(after[a] == before[a]);
                    }
                    if b < k {
                        assert(after[b] == before[b]);
                    }
                }
                assert forall|g: int| 0 <= g < after.len() implies (
                #[trigger] after[g]).files.no_duplicates() && after[g].files.len() > 0 by {
                    if g < k {
                        assert(after[g] == before[g]);
                    }
                }
            }
        },
    }
}

/// Splits the changed files, given relative to the repository, by entry.
///
/// A file at the top of the repository belongs to no entry; of these only
/// the configuration file is noted.  A file below a directory that no entry
/// is named after is an orphan, and the first orphan fails the split.
pub fn diff_entries(files: &Vec<FilePath>, config: &ConfinuumConfig) -> (r: Result<
    ChangeSummary,
    Failure,
>)
    ensures
        r is Err <==> 0 <= first_orphan(config@.entries, paths_view(files@), 0) < files@.len(),
        r is Err ==> r->Err_0@ == failure_about(
            Wording::Orphaned,
            render_path(files@[first_orphan(config@.entries, paths_view(files@), 0)]@),
        ),
        r is Ok ==> groups_split(changes_view(r->Ok_0.entries@), paths_view(files@)),
        r is Ok ==> r->Ok_0.config_updated == paths_view(files@).contains(config_file()),
{
    let ghost all = paths_view(files@);
    let mut groups: Vec<EntryChanges> = Vec::new();
    let mut config_updated = false;
    let mut i: usize = 0;
    assert(all.take(0) =~= Seq::<PathModel>::empty());
    while i < files.len()
        invariant
            i <= files@.len(),
            all == paths_view(files@),
            first_orphan(config@.entries, all, 0) == first_orphan(config@.entries, all, i as int),
            groups_split(changes_view(groups@), all.take(i as int)),
            config_updated == all.take(i as int).contains(config_file()),
        decreases files@.len() - i,
    {
        let file = &files[i];
        let ghost seen = all.take(i as int);
        proof {
            assert(all.take(i as int + 1) =~= seen.push(file@));
            assert forall|p: PathModel| seen.push(file@).contains(p) <==> seen.contains(p) || p
                == file@ by {
                if seen.contains(p) {
                    let j = choose|j: int| 0 <= j < seen.len() && seen[j] == p;
                    assert(seen.push(file@)[j] == p);
                }
                if p == file@ {
                    assert(seen.push(file@)[seen.len() as int] == p);
                }
                if seen.push(file@).contains(p) {
                    let j = choose|j: int|
                        0 <= j < seen.push(file@).len() && seen.push(file@)[j] == p;
                    if j < seen.len() {
                        assert(seen[j] == p);
                    }
                }
            }
        }
        if file.len() > 1 {
            if !config.contains_key(file.component(0).as_str()) {
                return Err(Failure::new(Wording::Orphaned, file.to_string()));
            }
            proof {
                assert(file@ != config_file());
            }
            record_change(&mut groups, file, Ghost(seen));
        } else {
            if file.len() == 1 && file.begins_with_name("config.toml") {
                config_updated = true;
                assert(file@ =~= config_file());
            } else {
                assert(file@ != config_file()) by {
                    if file@.len() == 1 {
                        assert(config_file()[0] == "config.toml"@);
                    }
                }
            }
            proof {
                let groups_now = changes_view(groups@);
                let now = seen.push(file@);
                assert forall|j: int| 0 <= j < now.len() && in_entry(#[trigger] now[j]) implies exists|
                    g: int,
                | 0 <= g < groups_now.len() && (#[trigger] groups_now[g]).name == now[j][0] by {
                    assert(j < seen.len());
                    assert(now[j] == seen[j]);
                }
                assert forall|g: int, p: PathModel| 0 <= g < groups_now.len() implies ((
                #[trigger] groups_now[g]).files.contains(p) <==> (#[trigger] now.contains(p))
                    && in_entry(p) && p[0] == groups_now[g].name) by {
                    assert(groups_now[g].files.contains(p) <==> seen.contains(p) && in_entry(p)
                        && p[0] == groups_now[g].name);
                }
            }
        }
        i += 1;
    }
    assert(all.take(i as int) =~= all);
    Ok(ChangeSummary { entries: groups, config_updated })
}

/// The first `k` changed files, each on a line of its own, indented.
pub open spec fn file_lines(files: Seq<PathModel>, k: int) -> Seq<char>
    decreases k,
{
    if k <= 0 {
        Seq::<char>::empty()
    } else {
        file_lines(files, k - 1) + "    "@ + render_path(files[k - 1]) + "\n"@
    }
}

/// The changes of one entry: its name, then its changed files.
pub open spec fn entry_block(c: ChangesModel) -> Seq<char> {
    c.name + ":\n"@ + file_lines(c.files, c.files.len() as int)
}

/// The changes of the first `k` entries.
pub open spec fn entry_blocks(groups: Seq<ChangesModel>, k: int) -> Seq<char>
    decreases k,
{
    if k <= 0 {
        Seq::<char>::empty()
    } else {
        entry_blocks(groups, k - 1) + entry_block(groups[k - 1])
    }
}

/// The line that tells of a change to the configuration file.
pub open spec fn config_line(config_updated: bool) -> Seq<char> {
    if config_updated {
        "config.toml\n"@
    } else {
        Seq::<char>::empty()
    }
}

/// The message of a merge commit: which commit was merged into which, and
/// what changed.
pub open spec fn merge_message(fetched: Seq<char>, head: Seq<char>, config_updated: bool, groups: Seq<ChangesModel>) -> Seq<char> {
    "Merge "@ + fetched + " into "@ + head + "\n\nFiles changed:\n"@ + config_line(
        config_updated,
    ) + entry_blocks(groups, groups.len() as int)
}

/// Writes the changes of one entry.
fn write_entry_block(changes: &EntryChanges) -> (r: String)
    ensures
        r@ == entry_block(changes@),
{
    let mut lines = String::new();
    let ghost files = paths_view(changes.files@);
    let mut i: usize = 0;
    while i < changes.files.len()
        invariant
            i <= changes.files@.len(),
            files == paths_view(changes.files@),
            lines@ == file_lines(files, i as int),
        decreases changes.files@.len() - i,
    {
        lines.append("    ");
        lines.append(changes.files[i].to_string().as_str());
        lines.append("\n");
        i += 1;
    }
    let mut out = changes.name.clone();
    out.append(":\n");
    out.append(lines.as_str());
    out
}

/// Writes the message of a merge commit, from the names of the fetched and
/// of the local commit and from what changed between them.
pub fn write_merge_message(fetched: &str, head: &str, changes: &ChangeSummary) -> (r: String)
    ensures
        r@ == merge_message(
            fetched@,
            head@,
            changes.config_updated,
            changes_view(changes.entries@),
        ),
{
    let mut blocks = String::new();
    let ghost groups = changes_view(changes.entries@);
    let mut i: usize = 0;
    while i < changes.entries.len()
        invariant
            i <= changes.entries@.len(),
            groups == changes_view(changes.entries@),
            blocks@ == entry_blocks(groups, i as int),
        decreases changes.entries@.len() - i,
    {
        blocks.append(write_entry_block(&changes.entries[i]).as_str());
        i += 1;
    }
    let mut out = String::from_str("Merge ");
    out.append(fetched);
    out.append(" into ");
    out.append(head);
    out.append("\n\nFiles changed:\n");
    if changes.config_updated {
        out.append("config.toml\n");
    } else {
        out.append("");
        proof {
            reveal_strlit("");
            assert(""@ =~= Seq::<char>::empty());
        }
    }
    out.append(blocks.as_str());
    out
}

/// The name and the address that sign a commit.
#[derive(Debug, Clone)]
pub struct Signature {
    pub name: String,
    pub email: String,
}

/// Why no signature can be made from the version control system's
/// settings.
#[derive(Clone, Copy, Debug, PartialEq, Eq, Structural)]
pub enum SignatureError {
    /// No name is set.
    NoName,
    /// No address is set.
    NoEmail,
    /// The address that is set is not an address.
    InvalidEmail,
}

/// Whether `email_address::EmailAddress::is_valid` accepts the text.
pub uninterp spec fn email_address_valid(address: Seq<char>) -> bool;

/// Calls `email_address::EmailAddress::is_valid`, which parses the text as
/// an address and says whether that succeeded.  The answer depends on the
/// text alone.
#[verifier::external_body]
fn email_is_valid(address: &str) -> (b: bool)
    ensures
        b == email_address_valid(address@),
{
    email_address::EmailAddress::is_valid(address)
}

/// The signature made from a name and an address, where both are set and
/// the address was found valid or not.
pub fn signature_from(name: Option<String>, email: Option<String>, email_valid: bool) -> (r: Result<
    Signature,
    SignatureError,
>)
    ensures
        name is None ==> r == Err::<Signature, SignatureError>(SignatureError::NoName),
        name is Some && email is None ==> r == Err::<Signature, SignatureError>(
            SignatureError::NoEmail,
        ),
        name is Some && email is Some && !email_valid ==> r == Err::<Signature, SignatureError>(
            SignatureError::InvalidEmail,
        ),
        name is Some && email is Some && email_valid ==> r is Ok && r->Ok_0.name@ == name->0@
            && r->Ok_0.email@ == email->0@,
{
    match name {
        None => Err(SignatureError::NoName),
        Some(name) => match email {
            None => Err(SignatureError::NoEmail),
            Some(email) => if email_valid {
                Ok(Signature { name, email })
            } else {
                Err(SignatureError::InvalidEmail)
            },
        },
    }
}

/// The signature made from the name and the address that the version
/// control system's settings hold: both must be set, and the address must
/// be a valid one.
pub fn get_user_sig(name: Option<String>, email: Option<String>) -> (r: Result<
    Signature,
    SignatureError,
>)
    ensures
        name is None ==> r == Err::<Signature, SignatureError>(SignatureError::NoName),
        name is Some && email is None ==> r == Err::<Signature, SignatureError>(
            SignatureError::NoEmail,
        ),
        name is Some && email is Some && !email_address_valid(email->0@) ==> r == Err::<
            Signature,
            SignatureError,
        >(SignatureError::InvalidEmail),
        name is Some && email is Some && email_address_valid(email->0@) ==> r is Ok
            && r->Ok_0.name@ == name->0@ && r->Ok_0.email@ == email->0@,
{
    let valid = match &email {
        Some(e) => email_is_valid(e.as_str()),
        None => false,
    };
    signature_from(name, email, valid)
}

/// The kinds of credentials that the remote accepts.
#[derive(Clone, Copy, Debug, PartialEq, Eq, Structural)]
pub struct CredentialTypes {
    pub username: bool,
    pub ssh_key: bool,
    pub default: bool,
    pub ssh_memory: bool,
    pub user_pass_plaintext: bool,
}

/// The credential to offer.
#[derive(Clone, Copy, Debug, PartialEq, Eq, Structural)]
pub enum CredentialChoice {
    /// The user name alone.
    Username,
    /// A key read by the backend from a file.
    SshKeyFile,
    /// A key handed over from memory.
    SshKeyMemory,
    /// A user name and a password.
    UserPass,
    /// Nothing that the remote accepts can be offered.
    Unsupported,
}

/// The credential to offer for the kinds that the remote accepts: the user
/// name before a key file, a key file before a key from memory, and a
/// password last.
pub open spec fn credential_for(allowed: CredentialTypes) -> CredentialChoice {
    if allowed.username {
        CredentialChoice::Username
    } else if allowed.ssh_key || allowed.default {
        CredentialChoice::SshKeyFile
    } else if allowed.ssh_memory {
        CredentialChoice::SshKeyMemory
    } else if allowed.user_pass_plaintext {
        CredentialChoice::UserPass
    } else {
        CredentialChoice::Unsupported
    }
}

/// Chooses the credential to offer.
pub fn choose_credential(allowed: CredentialTypes) -> (r: CredentialChoice)
    ensures
        r == credential_for(allowed),
{
    if allowed.username {
        CredentialChoice::Username
    } else if allowed.ssh_key || allowed.default {
        CredentialChoice::SshKeyFile
    } else if allowed.ssh_memory {
        CredentialChoice::SshKeyMemory
    } else if allowed.user_pass_plaintext {
        CredentialChoice::UserPass
    } else {
        CredentialChoice::Unsupported
    }
}

/// The names of the key files that are tried, in order.
pub open spec fn ssh_key_names() -> Seq<Seq<char>> {
    seq!["id_ed25519"@, "id_rsa"@, "id_ecdsa"@, "id_dsa"@]
}

/// The key file to use: the first of the four that is present, in the
/// directory of keys.  `present` says of each whether it is there; a name
/// that it does not speak of counts as absent.
pub open spec fn ssh_key_choice(ssh_dir: PathModel, present: Seq<bool>, from: int) -> Option<PathModel>
    decreases 4 - from,
{
    if from < 0 || from >= 4 {
        None
    } else if from < present.len() && present[from] {
        Some(join_paths(ssh_dir, parse_path(ssh_key_names()[from])))
    } else {
        ssh_key_choice(ssh_dir, present, from + 1)
    }
}

/// Finds the key file to use.
pub fn find_ssh_key(ssh_dir: &FilePath, present: &Vec<bool>) -> (r: Option<FilePath>)
    ensures
        r is Some <==> ssh_key_choice(ssh_dir@, present@, 0) is Some,
        r is Some ==> r->0@ == ssh_key_choice(ssh_dir@, present@, 0)->0,
{
    let mut i: usize = 0;
    while i < 4
        invariant
            i <= 4,
            ssh_key_choice(ssh_dir@, present@, 0) == ssh_key_choice(ssh_dir@, present@, i as int),
        decreases 4 - i,
    {
        if i < present.len() && present[i] {
            let name = if i == 0 {
                "id_ed25519"
            } else if i == 1 {
                "id_rsa"
            } else if i == 2 {
                "id_ecdsa"
            } else {
                "id_dsa"
            };
            return Some(ssh_dir.join(&FilePath::parse(name)));
        }
        i += 1;
    }
    None
}

/// The kinds of lines in a printed diff.
#[derive(Clone, Copy, Debug, PartialEq, Eq, Structural)]
pub enum DiffLineKind {
    Addition,
    Deletion,
    FileHeader,
    HunkHeader,
    Binary,
    Other,
}

/// How a line of a printed diff is set.
#[derive(Clone, Copy, Debug, PartialEq, Eq, Structural)]
pub enum LineStyle {
    Green,
    Red,
    Blue,
    Bold,
    Plain,
}

/// How a line of each kind is set.
pub open spec fn style_of(kind: DiffLineKind) -> LineStyle {
    match kind {
        DiffLineKind::Addition => LineStyle::Green,
        DiffLineKind::Deletion => LineStyle::Red,
        DiffLineKind::FileHeader | DiffLineKind::Binary => LineStyle::Bold,
        DiffLineKind::HunkHeader => LineStyle::Blue,
        DiffLineKind::Other => LineStyle::Plain,
    }
}

/// The sign in front of a line of each kind.
pub open spec fn sign_of(kind: DiffLineKind) -> Seq<char> {
    match kind {
        DiffLineKind::Addition => "+"@,
        DiffLineKind::Deletion => "-"@,
        _ => ""@,
    }
}

/// A line of a printed diff: how it is set, the sign in front of it, and
/// whether an empty line follows it.
pub fn print_diff(kind: DiffLineKind) -> (r: (LineStyle, &'static str, bool))
    ensures
        r.0 == style_of(kind),
        r.1@ == sign_of(kind),
        r.2 == (kind == DiffLineKind::HunkHeader),
{
    match kind {
        DiffLineKind::Addition => (LineStyle::Green, "+", false),
        DiffLineKind::Deletion => (LineStyle::Red, "-", false),
        DiffLineKind::FileHeader => (LineStyle::Bold, "", false),
        DiffLineKind::HunkHeader => (LineStyle::Blue, "", true),
        DiffLineKind::Binary => (LineStyle::Bold, "", false),
        DiffLineKind::Other => (LineStyle::Plain, "", false),
    }
}

} // verus!
