//! The commands: what each of them changes in the configuration, and the
//! steps that the caller carries out for it.

use vstd::prelude::*;
use vstd::string::*;
use crate::config::{ConfigEntry, ConfigModel, ConfinuumConfig, EntryModel, entry_index, has_entry};
use crate::error::{
    Failure,
    FailureModel,
    Wording,
    bare_failure,
    failure_about,
    failure_matches,
};
use crate::config::{GitProtocol, PathKind};
use crate::git::{
    ChangeSummary,
    MergeAnalysis,
    changes_view,
    config_file,
    diff_entries,
    diverged,
    divergence_guard,
    first_orphan,
    groups_split,
};
use crate::ingest::{
    Candidate,
    CopyModel,
    CopyStep,
    Found,
    Ingestion,
    copies_view,
    find_unresolved,
    first_unresolved,
    ingest_model,
    storage_dir,
};
use crate::path::{
    FilePath,
    PathModel,
    diff_paths,
    is_absolute,
    is_prefix,
    join_paths,
    no_parent_steps,
    paths_view,
    relative_to,
    render_path,
    str_equal,
};
use crate::text::{decimal, decimal_text, join_lines, lines_of};

verus! {

/// One step that the caller carries out.
#[derive(Debug)]
pub enum Step {
    /// Copy the file at `from` to `to` in storage, creating the directories
    /// that `to` lies in.
    Copy { from: FilePath, to: FilePath },
    /// Put a copy of the stored file `from` at `to`, in place of whatever
    /// stands there.
    Restore { from: FilePath, to: FilePath },
    /// Remove the file or link at the path.
    Remove(FilePath),
    /// Remove the directory at the path with all that it holds.
    RemoveTree(FilePath),
    /// Write the configuration to disk.
    SaveConfig,
    /// Stage every change in the repository and commit with the message.
    Commit(String),
    /// Undeploy the entry of the given name, or all entries.
    Undeploy(Option<String>),
    /// Deploy the entry of the given name, or all entries.
    Deploy(Option<String>),
    /// Fetch from the remote and reconcile with it.
    Sync,
    /// Push the local branch to the remote.
    Push,
}

/// The model of a step.
pub enum StepModel {
    Copy { from: PathModel, to: PathModel },
    Restore { from: PathModel, to: PathModel },
    Remove(PathModel),
    RemoveTree(PathModel),
    SaveConfig,
    Commit(Seq<char>),
    Undeploy(Option<Seq<char>>),
    Deploy(Option<Seq<char>>),
    Sync,
    Push,
}

/// The model of an optional name.
pub open spec fn name_view(name: Option<String>) -> Option<Seq<char>> {
    match name {
        Some(n) => Some(n@),
        None => None,
    }
}

impl View for Step {
    type V = StepModel;

    open spec fn view(&self) -> StepModel {
        match self {
            Step::Copy { from, to } => StepModel::Copy { from: from@, to: to@ },
            Step::Restore { from, to } => StepModel::Restore { from: from@, to: to@ },
            Step::Remove(p) => StepModel::Remove(p@),
            Step::RemoveTree(p) => StepModel::RemoveTree(p@),
            Step::SaveConfig => StepModel::SaveConfig,
            Step::Commit(m) => StepModel::Commit(m@),
            Step::Undeploy(n) => StepModel::Undeploy(name_view(*n)),
            Step::Deploy(n) => StepModel::Deploy(name_view(*n)),
            Step::Sync => StepModel::Sync,
            Step::Push => StepModel::Push,
        }
    }
}

/// The models of a list of steps.
pub open spec fn steps_view(v: Seq<Step>) -> Seq<StepModel> {
    Seq::new(v.len(), |i: int| v[i]@)
}

/// What a command comes to: the steps to carry out in order, the files that
/// it added or removed, relative to the entry's base directory, and the
/// failure to report once the steps are carried out, if any.
#[derive(Debug)]
pub struct Outcome {
    pub steps: Vec<Step>,
    pub files: Vec<FilePath>,
    pub failure: Option<Failure>,
}

/// The copies as steps.
pub open spec fn copy_steps(copies: Seq<CopyModel>) -> Seq<StepModel> {
    Seq::new(copies.len(), |i: int| StepModel::Copy { from: copies[i].from, to: copies[i].to })
}

/// The push, where it is asked for.
pub open spec fn push_steps(push: bool) -> Seq<StepModel> {
    if push {
        seq![StepModel::Push]
    } else {
        Seq::empty()
    }
}

/// The message of the commit that adds files to an entry.
pub open spec fn add_message(name: Seq<char>, files: Seq<PathModel>) -> Seq<char> {
    "Added "@ + decimal(files.len()) + " files to `"@ + name + "`\n\nNew files:\n"@ + join_lines(
        files,
    )
}

/// The message of the commit that creates an entry.
pub open spec fn new_message(name: Seq<char>, files: Seq<PathModel>) -> Seq<char> {
    if files.len() == 0 {
        "Added configs for `"@ + name + "`\n\nNew files:\n"@
    } else {
        "Added configs for `"@ + name + "` with "@ + decimal(files.len()) + " files\n\nNew files:\n"@
            + join_lines(files)
    }
}

/// The message of the commit that deletes an entry.
pub open spec fn delete_message(name: Seq<char>, files: Seq<PathModel>) -> Seq<char> {
    "Deleted entry `"@ + name + "`\n\nDeleted files:\n"@ + join_lines(files)
}

/// The message of the commit that removes files from an entry.
pub open spec fn remove_message(name: Seq<char>, files: Seq<PathModel>) -> Seq<char> {
    "Deleted "@ + decimal(files.len()) + " files from `"@ + name + "`\n\nDeleted files:\n"@
        + join_lines(files)
}

/// Writes the message of the commit that adds files to an entry.
pub fn write_add_message(name: &str, files: &Vec<FilePath>) -> (r: String)
    ensures
        r@ == add_message(name@, paths_view(files@)),
{
    let mut m = String::from_str("Added ");
    m.append(decimal_text(files.len()).as_str());
    m.append(" files to `");
    m.append(name);
    m.append("`\n\nNew files:\n");
    m.append(lines_of(files).as_str());
    m
}

/// Writes the message of the commit that creates an entry.
pub fn write_new_message(name: &str, files: &Vec<FilePath>) -> (r: String)
    ensures
        r@ == new_message(name@, paths_view(files@)),
{
    let mut m = String::from_str("Added configs for `");
    m.append(name);
    if files.len() == 0 {
        m.append("`\n\nNew files:\n");
    } else {
        m.append("` with ");
        m.append(decimal_text(files.len()).as_str());
        m.append(" files\n\nNew files:\n");
        m.append(lines_of(files).as_str());
    }
    m
}

/// Writes the message of the commit that deletes an entry.
pub fn write_delete_message(name: &str, files: &Vec<FilePath>) -> (r: String)
    ensures
        r@ == delete_message(name@, paths_view(files@)),
{
    let mut m = String::from_str("Deleted entry `");
    m.append(name);
    m.append("`\n\nDeleted files:\n");
    m.append(lines_of(files).as_str());
    m
}

/// Writes the message of the commit that removes files from an entry.
pub fn write_remove_message(name: &str, files: &Vec<FilePath>) -> (r: String)
    ensures
        r@ == remove_message(name@, paths_view(files@)),
{
    let mut m = String::from_str("Deleted ");
    m.append(decimal_text(files.len()).as_str());
    m.append(" files from `");
    m.append(name);
    m.append("`\n\nDeleted files:\n");
    m.append(lines_of(files).as_str());
    m
}

/// An outcome that is a failure and nothing else.
fn refuse(failure: Failure) -> (r: Outcome)
    ensures
        steps_view(r.steps@) == Seq::<StepModel>::empty(),
        paths_view(r.files@) == Seq::<PathModel>::empty(),
        r.failure is Some,
        r.failure->0@ == failure@,
{
    let r = Outcome { steps: Vec::new(), files: Vec::new(), failure: Some(failure) };
    assert(steps_view(r.steps@) =~= Seq::<StepModel>::empty());
    assert(paths_view(r.files@) =~= Seq::<PathModel>::empty());
    r
}

/// The copies as steps.
fn steps_of_copies(copies: &Vec<CopyStep>) -> (r: Vec<Step>)
    ensures
        steps_view(r@) == copy_steps(copies_view(copies@)),
{
    let mut out: Vec<Step> = Vec::new();
    let ghost want = copy_steps(copies_view(copies@));
    let mut i: usize = 0;
    assert(steps_view(out@) =~= want.take(0));
    while i < copies.len()
        invariant
            i <= copies@.len(),
            want == copy_steps(copies_view(copies@)),
            steps_view(out@) == want.take(i as int),
        decreases copies@.len() - i,
    {
        let ghost before = steps_view(out@);
        out.push(Step::Copy { from: copies[i].from.clone(), to: copies[i].to.clone() });
        assert(steps_view(out@) =~= before.push(want[i as int]));
        assert(before.push(want[i as int]) =~= want.take(i as int + 1));
        i += 1;
    }
    assert(want.take(i as int) =~= want);
    out
}

/// The steps that follow the copies of an ingestion.
pub open spec fn closing_steps(message: Seq<char>, name: Seq<char>, push: bool) -> Seq<StepModel> {
    seq![StepModel::SaveConfig, StepModel::Commit(message), StepModel::Deploy(Some(name))]
        + push_steps(push)
}

/// Appends the steps that follow the copies of an ingestion.
fn close_steps(steps: &mut Vec<Step>, message: String, name: &str, push: bool)
    ensures
        steps_view(final(steps)@) == steps_view(old(steps)@) + closing_steps(message@, name@, push),
{
    let ghost before = steps_view(steps@);
    steps.push(Step::SaveConfig);
    steps.push(Step::Commit(message));
    steps.push(Step::Deploy(Some(String::from_str(name))));
    if push {
        steps.push(Step::Push);
    }
    assert(steps_view(steps@) =~= before + closing_steps(message@, name@, push));
}

/// Whether the entries are those of `before`, but for the one at `at`.
pub open spec fn same_but(before: Seq<EntryModel>, after: Seq<EntryModel>, at: int) -> bool {
    &&& after.len() == before.len()
    &&& forall|j: int| 0 <= j < before.len() && j != at ==> after[j] == before[j]
}

/// Adds files to an existing entry.
///
/// Nothing happens unless the local branch is up to date and the entry
/// exists.  Then the candidates are taken in.  If that fails, the copies
/// made up to the failure are the only steps, and the configuration is
/// unchanged.  If it succeeds, the configuration is saved, the change is
/// committed, the entry is deployed, and the branch is pushed where asked.
pub fn add(
    config: &mut ConfinuumConfig,
    name: &str,
    files: &Vec<Candidate>,
    config_dir: &FilePath,
    analysis: MergeAnalysis,
    push: bool,
) -> (r: Outcome)
    ensures
        !analysis.up_to_date ==> failure_matches(Some(diverged(false)), r.failure),
        analysis.up_to_date && !has_entry(old(config)@.entries, name@) ==> failure_matches(
            Some(failure_about(Wording::NoEntryToAddTo, name@)),
            r.failure,
        ),
        !analysis.up_to_date || !has_entry(old(config)@.entries, name@) ==> steps_view(r.steps@)
            == Seq::<StepModel>::empty(),
        r.failure is Some ==> final(config)@ == old(config)@,
        analysis.up_to_date && has_entry(old(config)@.entries, name@) ==> ({
            let at = entry_index(old(config)@.entries, name@);
            let model = ingest_model(old(config)@.entries[at], files@, config_dir@);
            &&& failure_matches(model.failure, r.failure)
            &&& paths_view(r.files@).to_set() == model.added
            &&& paths_view(r.files@).no_duplicates()
            &&& model.failure is Some ==> steps_view(r.steps@) == copy_steps(model.copies)
            &&& model.failure is None ==> steps_view(r.steps@) == copy_steps(model.copies)
                + closing_steps(add_message(name@, paths_view(r.files@)), name@, push)
            &&& model.failure is None ==> final(config)@.confinuum == old(config)@.confinuum
                && same_but(old(config)@.entries, final(config)@.entries, at)
                && final(config)@.entries[at].name == name@ && final(config)@.entries[at].target_dir
                == model.target_dir && final(config)@.entries[at].files.to_set() == model.files
        }),
{
    if let Err(changes) = divergence_guard(analysis, false) {
        return refuse(changes);
    }
    let at = match config.position(name) {
        Some(at) => at,
        None => {
            return refuse(Failure::new(Wording::NoEntryToAddTo, String::from_str(name)));
        },
    };
    let mut entry = config.entry(at).duplicate();
    let Ingestion { copies, added, failure } = ConfinuumConfig::add_files_recursive(
        &mut entry,
        files,
        config_dir,
    );
    let mut steps = steps_of_copies(&copies);
    if failure.is_some() {
        return Outcome { steps, files: added, failure };
    }
    let message = write_add_message(name, &added);
    close_steps(&mut steps, message, name, push);
    config.replace(at, entry);
    Outcome { steps, files: added, failure: None }
}

/// The steps that follow the creation of an entry without files: the
/// configuration is saved, the change is committed, and the branch is
/// pushed where asked.
pub open spec fn bare_entry_steps(name: Seq<char>, push: bool) -> Seq<StepModel> {
    seq![StepModel::SaveConfig, StepModel::Commit(new_message(name, Seq::empty()))] + push_steps(
        push,
    )
}

/// Creates an entry, and takes files in if any are given.
///
/// Nothing happens unless the local branch is up to date and the name is
/// free.  Without files, the empty entry is added, the configuration is
/// saved, the change is committed, and the branch is pushed where asked.
/// With files, they are taken in: if that fails, the copies made up to the
/// failure are the only steps, and the configuration is unchanged;
/// otherwise the entry is added with them, the configuration is saved, the
/// change is committed, the entry is deployed, and the branch is pushed
/// where asked.
pub fn new(
    config: &mut ConfinuumConfig,
    name: &str,
    files: Option<&Vec<Candidate>>,
    config_dir: &FilePath,
    analysis: MergeAnalysis,
    push: bool,
) -> (r: Outcome)
    ensures
        !analysis.up_to_date ==> failure_matches(Some(diverged(false)), r.failure),
        analysis.up_to_date && has_entry(old(config)@.entries, name@) ==> failure_matches(
            Some(failure_about(Wording::EntryExists, name@)),
            r.failure,
        ),
        !analysis.up_to_date || has_entry(old(config)@.entries, name@) ==> steps_view(r.steps@)
            == Seq::<StepModel>::empty(),
        r.failure is Some ==> final(config)@ == old(config)@,
        analysis.up_to_date && !has_entry(old(config)@.entries, name@) && files is None ==> ({
            let fresh = EntryModel { name: name@, target_dir: None, files: Seq::empty() };
            &&& r.failure is None
            &&& paths_view(r.files@) == Seq::<PathModel>::empty()
            &&& steps_view(r.steps@) == bare_entry_steps(name@, push)
            &&& final(config)@.confinuum == old(config)@.confinuum
            &&& final(config)@.entries == old(config)@.entries.push(fresh)
        }),
        analysis.up_to_date && !has_entry(old(config)@.entries, name@) && files is Some ==> ({
            let fresh = EntryModel { name: name@, target_dir: None, files: Seq::empty() };
            let model = ingest_model(fresh, files->0@, config_dir@);
            &&& failure_matches(model.failure, r.failure)
            &&& paths_view(r.files@).to_set() == model.added
            &&& paths_view(r.files@).no_duplicates()
            &&& model.failure is Some ==> steps_view(r.steps@) == copy_steps(model.copies)
            &&& model.failure is None ==> steps_view(r.steps@) == copy_steps(model.copies)
                + closing_steps(new_message(name@, paths_view(r.files@)), name@, push)
            &&& model.failure is None ==> final(config)@.confinuum == old(config)@.confinuum
                && final(config)@.entries.len() == old(config)@.entries.len() + 1
                && final(config)@.entries.drop_last() == old(config)@.entries
                && final(config)@.entries.last().name == name@
                && final(config)@.entries.last().target_dir == model.target_dir
                && final(config)@.entries.last().files.to_set() == model.files
        }),
{
    if let Err(changes) = divergence_guard(analysis, false) {
        return refuse(changes);
    }
    if config.contains_key(name) {
        return refuse(Failure::new(Wording::EntryExists, String::from_str(name)));
    }
    let mut entry = ConfigEntry::new(String::from_str(name));
    assert(entry@ == (EntryModel { name: name@, target_dir: None, files: Seq::empty() }));
    let given = match files {
        Some(given) => given,
        None => {
            let none: Vec<FilePath> = Vec::new();
            assert(paths_view(none@) =~= Seq::<PathModel>::empty());
            let message = write_new_message(name, &none);
            let mut steps: Vec<Step> = Vec::new();
            steps.push(Step::SaveConfig);
            steps.push(Step::Commit(message));
            if push {
                steps.push(Step::Push);
            }
            assert(steps_view(steps@) =~= bare_entry_steps(name@, push));
            let inserted = config.insert(entry);
            return Outcome { steps, files: none, failure: None };
        },
    };
    let Ingestion { copies, added, failure } = ConfinuumConfig::add_files_recursive(
        &mut entry,
        given,
        config_dir,
    );
    let mut steps = steps_of_copies(&copies);
    if failure.is_some() {
        return Outcome { steps, files: added, failure };
    }
    let message = write_new_message(name, &added);
    close_steps(&mut steps, message, name, push);
    let ghost before = config@.entries;
    let inserted = config.insert(entry);
    assert(inserted);
    assert(config@.entries.drop_last() =~= before);
    Outcome { steps, files: added, failure: None }
}

/// The step that gives one tracked file back to its place: the deployed
/// path is removed, or a copy of the stored file is put there.
pub open spec fn release_step(target: PathModel, storage: PathModel, rel: PathModel, no_replace: bool) -> StepModel {
    if no_replace {
        StepModel::Remove(join_paths(target, rel))
    } else {
        StepModel::Restore { from: join_paths(storage, rel), to: join_paths(target, rel) }
    }
}

/// The steps that give the tracked files back, in order.
pub open spec fn release_steps(target: PathModel, storage: PathModel, rels: Seq<PathModel>, no_replace: bool) -> Seq<StepModel> {
    Seq::new(rels.len(), |i: int| release_step(target, storage, rels[i], no_replace))
}

/// The steps that delete an entry whose files were given back.
pub open spec fn delete_closing(storage: PathModel, message: Seq<char>, push: bool) -> Seq<StepModel> {
    seq![StepModel::RemoveTree(storage), StepModel::SaveConfig, StepModel::Commit(message)]
        + push_steps(push)
}

/// An outcome without steps and without a failure.
fn nothing_to_do() -> (r: Outcome)
    ensures
        steps_view(r.steps@) == Seq::<StepModel>::empty(),
        paths_view(r.files@) == Seq::<PathModel>::empty(),
        r.failure is None,
{
    let r = Outcome { steps: Vec::new(), files: Vec::new(), failure: None };
    assert(steps_view(r.steps@) =~= Seq::<StepModel>::empty());
    assert(paths_view(r.files@) =~= Seq::<PathModel>::empty());
    r
}

/// The tracked files of an entry, in order.
fn files_of(entry: &ConfigEntry) -> (r: Vec<FilePath>)
    ensures
        paths_view(r@) == entry@.files,
{
    let mut out: Vec<FilePath> = Vec::new();
    let mut i: usize = 0;
    assert(paths_view(out@) =~= entry@.files.take(0));
    while i < entry.file_count()
        invariant
            i <= entry@.files.len(),
            paths_view(out@) == entry@.files.take(i as int),
        decreases entry@.files.len() - i,
    {
        let ghost before = paths_view(out@);
        out.push(entry.file(i).clone());
        assert(paths_view(out@) =~= before.push(entry@.files[i as int]));
        assert(before.push(entry@.files[i as int]) =~= entry@.files.take(i as int + 1));
        i += 1;
    }
    assert(entry@.files.take(i as int) =~= entry@.files);
    out
}

/// The steps that give the files back, in order.
fn steps_of_release(target: &FilePath, storage: &FilePath, rels: &Vec<FilePath>, no_replace: bool) -> (r:
    Vec<Step>)
    ensures
        steps_view(r@) == release_steps(target@, storage@, paths_view(rels@), no_replace),
{
    let mut out: Vec<Step> = Vec::new();
    let ghost want = release_steps(target@, storage@, paths_view(rels@), no_replace);
    let mut i: usize = 0;
    assert(steps_view(out@) =~= want.take(0));
    while i < rels.len()
        invariant
            i <= rels@.len(),
            want == release_steps(target@, storage@, paths_view(rels@), no_replace),
            steps_view(out@) == want.take(i as int),
        decreases rels@.len() - i,
    {
        let ghost before = steps_view(out@);
        let to = target.join(&rels[i]);
        if no_replace {
            out.push(Step::Remove(to));
        } else {
            out.push(Step::Restore { from: storage.join(&rels[i]), to });
        }
        assert(steps_view(out@) =~= before.push(want[i as int]));
        assert(before.push(want[i as int]) =~= want.take(i as int + 1));
        i += 1;
    }
    assert(want.take(i as int) =~= want);
    out
}

/// The failure that refuses a deletion before the remote is looked at, if
/// any: the entry must exist.
pub open spec fn delete_precheck(c: ConfigModel, name: Seq<char>) -> Option<FailureModel> {
    if !has_entry(c.entries, name) {
        Some(failure_about(Wording::NoEntryToDelete, name))
    } else {
        None
    }
}

/// Where the entry to delete stands.
fn find_to_delete(config: &ConfinuumConfig, name: &str) -> (r: Result<usize, Failure>)
    ensures
        r is Err <==> delete_precheck(config@, name@) is Some,
        r is Err ==> r->Err_0@ == delete_precheck(config@, name@)->0,
        r is Ok ==> r->Ok_0 == entry_index(config@.entries, name@) && r->Ok_0
            < config@.entries.len(),
{
    match config.position(name) {
        Some(at) => Ok(at),
        None => Err(Failure::new(Wording::NoEntryToDelete, String::from_str(name))),
    }
}

/// Checks a deletion before the remote is looked at.
pub fn check_delete(config: &ConfinuumConfig, name: &str) -> (r: Option<Failure>)
    ensures
        failure_matches(delete_precheck(config@, name@), r),
{
    match find_to_delete(config, name) {
        Ok(_) => None,
        Err(refusal) => Some(refusal),
    }
}

/// Deletes an entry.
///
/// Nothing happens unless the entry exists, the local branch is up to date
/// and the deletion was confirmed.  An entry that tracks files without a
/// base directory cannot give them back, which is a failure.  Otherwise
/// each tracked file is given back to its place, the entry's storage is
/// removed, the entry leaves the configuration, the configuration is saved,
/// the change is committed, and the branch is pushed where asked.
pub fn delete(
    config: &mut ConfinuumConfig,
    name: &str,
    config_dir: &FilePath,
    analysis: MergeAnalysis,
    confirmed: bool,
    no_replace_files: bool,
    push: bool,
) -> (r: Outcome)
    ensures
        !has_entry(old(config)@.entries, name@) ==> failure_matches(
            delete_precheck(old(config)@, name@),
            r.failure,
        ),
        has_entry(old(config)@.entries, name@) && !analysis.up_to_date ==> failure_matches(
            Some(diverged(true)),
            r.failure,
        ),
        r.failure is Some ==> final(config)@ == old(config)@ && steps_view(r.steps@) == Seq::<
            StepModel,
        >::empty(),
        has_entry(old(config)@.entries, name@) && analysis.up_to_date && !confirmed ==> r.failure
            is None && final(config)@ == old(config)@ && steps_view(r.steps@) == Seq::<
            StepModel,
        >::empty(),
        has_entry(old(config)@.entries, name@) && analysis.up_to_date && confirmed ==> ({
            let at = entry_index(old(config)@.entries, name@);
            let e = old(config)@.entries[at];
            let storage = storage_dir(config_dir@, name@);
            &&& r.failure is Some <==> e.files.len() > 0 && e.target_dir is None
            &&& r.failure is Some ==> r.failure->0@ == failure_about(Wording::NoTargetDir, name@)
            &&& r.failure is None ==> paths_view(r.files@) == e.files
            &&& r.failure is None ==> final(config)@.confinuum == old(config)@.confinuum
                && final(config)@.entries == old(config)@.entries.remove(at)
            &&& r.failure is None && e.target_dir is Some ==> steps_view(r.steps@) == release_steps(
                e.target_dir->0,
                storage,
                e.files,
                no_replace_files,
            ) + delete_closing(storage, delete_message(name@, e.files), push)
            &&& r.failure is None && e.target_dir is None ==> steps_view(r.steps@)
                == delete_closing(storage, delete_message(name@, e.files), push)
        }),
{
    let at = match find_to_delete(config, name) {
        Ok(at) => at,
        Err(refusal) => {
            return refuse(refusal);
        },
    };
    if let Err(changes) = divergence_guard(analysis, true) {
        return refuse(changes);
    }
    if !confirmed {
        return nothing_to_do();
    }
    let entry = config.entry(at);
    let storage = config_dir.join(&FilePath::parse(name));
    let files = files_of(entry);
    let mut steps = match entry.target_dir() {
        Some(target) => steps_of_release(target, &storage, &files, no_replace_files),
        None => {
            if files.len() > 0 {
                return refuse(Failure::new(Wording::NoTargetDir, String::from_str(name)));
            }
            let none: Vec<Step> = Vec::new();
            assert(steps_view(none@) =~= Seq::<StepModel>::empty());
            none
        },
    };
    let ghost before = steps_view(steps@);
    let message = write_delete_message(name, &files);
    steps.push(Step::RemoveTree(storage));
    steps.push(Step::SaveConfig);
    steps.push(Step::Commit(message));
    if push {
        steps.push(Step::Push);
    }
    proof {
        let closing = delete_closing(
            storage_dir(config_dir@, name@),
            delete_message(name@, paths_view(files@)),
            push,
        );
        assert(steps_view(steps@) =~= before + closing);
        assert(Seq::<StepModel>::empty() + closing =~= closing);
    }
    let removed = config.remove(name);
    Outcome { steps, files, failure: None }
}

/// The first candidate from `from` on at which nothing was found, or the
/// number of candidates if there is none.
pub open spec fn first_missing(cands: Seq<Candidate>, from: int) -> int
    decreases cands.len() - from,
{
    if from < 0 || from >= cands.len() {
        cands.len() as int
    } else if cands[from].found is Missing {
        from
    } else {
        first_missing(cands, from + 1)
    }
}

/// A path that is the stored copy of a tracked file of `e`.
pub open spec fn is_tracked(e: EntryModel, storage: PathModel, p: PathModel) -> bool {
    is_prefix(storage, p) && e.files.contains(p.skip(storage.len() as int))
}

/// The first candidate from `from` on that is not the stored copy of a
/// tracked file, or the number of candidates if there is none.
pub open spec fn first_untracked(cands: Seq<Candidate>, e: EntryModel, storage: PathModel, from: int) -> int
    decreases cands.len() - from,
{
    if from < 0 || from >= cands.len() {
        cands.len() as int
    } else if !is_tracked(e, storage, cands[from].path@) {
        from
    } else {
        first_untracked(cands, e, storage, from + 1)
    }
}

/// The candidates' paths relative to storage.
pub open spec fn stored_rels(cands: Seq<Candidate>, storage: PathModel) -> Seq<PathModel> {
    Seq::new(cands.len(), |i: int| cands[i].path@.skip(storage.len() as int))
}

/// The steps that take one file out of an entry: its copy is put back at
/// its place unless that is not wanted, and its stored copy is removed.
pub open spec fn withdraw_step(target: PathModel, storage: PathModel, rel: PathModel, no_replace: bool) -> Seq<StepModel> {
    let stored = join_paths(storage, rel);
    if no_replace {
        seq![StepModel::Remove(stored)]
    } else {
        seq![
            StepModel::Restore { from: stored, to: join_paths(target, rel) },
            StepModel::Remove(stored),
        ]
    }
}

/// The steps that take the first `k` files out of an entry, in order.
pub open spec fn withdraw_steps(target: PathModel, storage: PathModel, rels: Seq<PathModel>, no_replace: bool, k: int) -> Seq<StepModel>
    decreases k,
{
    if k <= 0 {
        Seq::empty()
    } else {
        withdraw_steps(target, storage, rels, no_replace, k - 1) + withdraw_step(
            target,
            storage,
            rels[k - 1],
            no_replace,
        )
    }
}

/// The steps of a removal: the entry is undeployed, the files are taken
/// out, the configuration is saved, the change is committed and pushed
/// where asked, and the entry is deployed again.
pub open spec fn remove_steps(
    target: PathModel,
    storage: PathModel,
    rels: Seq<PathModel>,
    no_replace: bool,
    name: Seq<char>,
    push: bool,
) -> Seq<StepModel> {
    seq![StepModel::Undeploy(Some(name))] + withdraw_steps(
        target,
        storage,
        rels,
        no_replace,
        rels.len() as int,
    ) + seq![StepModel::SaveConfig, StepModel::Commit(remove_message(name, rels))] + push_steps(
        push,
    ) + seq![StepModel::Deploy(Some(name))]
}

/// The failure of a candidate that is not the stored copy of a tracked
/// file: it lies outside the entry's storage, or the entry does not track
/// it.
pub open spec fn untracked_failure(storage: PathModel, name: Seq<char>, p: PathModel) -> FailureModel {
    if is_prefix(storage, p) {
        FailureModel {
            wording: Wording::FileNotInEntry,
            subject: render_path(p.skip(storage.len() as int)),
            other: name,
        }
    } else {
        FailureModel {
            wording: Wording::OutsideStorage,
            subject: render_path(p),
            other: render_path(storage),
        }
    }
}

/// The failure that refuses a removal before the remote is looked at, if
/// any.
///
/// In this order: the entry must exist; every candidate must have been
/// resolved; something must stand at every candidate; and every candidate
/// must be the stored copy of a tracked file.
pub open spec fn remove_precheck(
    c: ConfigModel,
    name: Seq<char>,
    cands: Seq<Candidate>,
    config_dir: PathModel,
) -> Option<FailureModel> {
    if !has_entry(c.entries, name) {
        Some(failure_about(Wording::NoEntry, name))
    } else {
        let e = c.entries[entry_index(c.entries, name)];
        let storage = storage_dir(config_dir, name);
        let unresolved = first_unresolved(cands, 0);
        let missing = first_missing(cands, 0);
        let untracked = first_untracked(cands, e, storage, 0);
        if 0 <= unresolved < cands.len() {
            Some(failure_about(Wording::UnresolvedToRemove, render_path(cands[unresolved].path@)))
        } else if 0 <= missing < cands.len() {
            Some(failure_about(Wording::FileToRemoveMissing, render_path(cands[missing].path@)))
        } else if 0 <= untracked < cands.len() {
            Some(untracked_failure(storage, name, cands[untracked].path@))
        } else {
            None
        }
    }
}

/// The failure that refuses a removal before anything is done, if any:
/// what refuses it before the remote is looked at; then the local branch
/// must be up to date; and the entry must have a base directory if a file
/// is to be put back.
pub open spec fn remove_refusal(
    c: ConfigModel,
    name: Seq<char>,
    cands: Seq<Candidate>,
    config_dir: PathModel,
    analysis: MergeAnalysis,
) -> Option<FailureModel> {
    match remove_precheck(c, name, cands, config_dir) {
        Some(f) => Some(f),
        None => {
            let e = c.entries[entry_index(c.entries, name)];
            if !analysis.up_to_date {
                Some(diverged(true))
            } else if cands.len() > 0 && e.target_dir is None {
                Some(failure_about(Wording::NoTargetDir, name))
            } else {
                None
            }
        },
    }
}

/// Where the first candidate stands at which nothing was found.
fn find_missing(cands: &Vec<Candidate>) -> (r: Option<usize>)
    ensures
        r is Some <==> 0 <= first_missing(cands@, 0) < cands@.len(),
        r is Some ==> r->0 == first_missing(cands@, 0),
{
    let mut i: usize = 0;
    while i < cands.len()
        invariant
            i <= cands@.len(),
            first_missing(cands@, 0) == first_missing(cands@, i as int),
        decreases cands@.len() - i,
    {
        if let Found::Missing = cands[i].found {
            return Some(i);
        }
        i += 1;
    }
    None
}

/// The candidates' paths relative to storage, or the first candidate that
/// is not the stored copy of a tracked file.
fn tracked_rels(cands: &Vec<Candidate>, entry: &ConfigEntry, storage: &FilePath) -> (r: Result<
    Vec<FilePath>,
    usize,
>)
    ensures
        r is Err <==> 0 <= first_untracked(cands@, entry@, storage@, 0) < cands@.len(),
        r is Err ==> r->Err_0 == first_untracked(cands@, entry@, storage@, 0),
        r is Ok ==> paths_view(r->Ok_0@) == stored_rels(cands@, storage@),
        r is Ok ==> forall|i: int|
            0 <= i < cands@.len() ==> entry@.files.contains(#[trigger] stored_rels(cands@, storage@)[i]),
{
    let mut out: Vec<FilePath> = Vec::new();
    let ghost want = stored_rels(cands@, storage@);
    let mut i: usize = 0;
    assert(paths_view(out@) =~= want.take(0));
    while i < cands.len()
        invariant
            i <= cands@.len(),
            want == stored_rels(cands@, storage@),
            first_untracked(cands@, entry@, storage@, 0) == first_untracked(
                cands@,
                entry@,
                storage@,
                i as int,
            ),
            paths_view(out@) == want.take(i as int),
            forall|j: int| 0 <= j < i ==> entry@.files.contains(#[trigger] want[j]),
        decreases cands@.len() - i,
    {
        let ghost before = paths_view(out@);
        match cands[i].path.strip_prefix(storage) {
            Some(rel) => {
                if !entry.has_file(&rel) {
                    return Err(i);
                }
                out.push(rel);
            },
            None => {
                return Err(i);
            },
        }
        assert(paths_view(out@) =~= before.push(want[i as int]));
        assert(before.push(want[i as int]) =~= want.take(i as int + 1));
        i += 1;
    }
    assert(want.take(i as int) =~= want);
    Ok(out)
}

/// The steps that take the files out of an entry, in order.
fn steps_of_withdrawal(target: &FilePath, storage: &FilePath, rels: &Vec<FilePath>, no_replace: bool) -> (r:
    Vec<Step>)
    ensures
        steps_view(r@) == withdraw_steps(
            target@,
            storage@,
            paths_view(rels@),
            no_replace,
            rels@.len() as int,
        ),
{
    let mut out: Vec<Step> = Vec::new();
    let ghost all = paths_view(rels@);
    let mut i: usize = 0;
    assert(steps_view(out@) =~= Seq::<StepModel>::empty());
    while i < rels.len()
        invariant
            i <= rels@.len(),
            all == paths_view(rels@),
            steps_view(out@) == withdraw_steps(target@, storage@, all, no_replace, i as int),
        decreases rels@.len() - i,
    {
        let ghost before = steps_view(out@);
        let stored = storage.join(&rels[i]);
        if !no_replace {
            out.push(Step::Restore { from: stored.clone(), to: target.join(&rels[i]) });
        }
        out.push(Step::Remove(stored));
        assert(steps_view(out@) =~= before + withdraw_step(
            target@,
            storage@,
            all[i as int],
            no_replace,
        ));
        i += 1;
    }
    out
}

/// Where the entry stands that files are removed from, and the files'
/// paths relative to its storage.
fn prepare_removal(
    config: &ConfinuumConfig,
    name: &str,
    files: &Vec<Candidate>,
    config_dir: &FilePath,
) -> (r: Result<(usize, Vec<FilePath>), Failure>)
    ensures
        r is Err <==> remove_precheck(config@, name@, files@, config_dir@) is Some,
        r is Err ==> r->Err_0@ == remove_precheck(config@, name@, files@, config_dir@)->0,
        r is Ok ==> r->Ok_0.0 == entry_index(config@.entries, name@) && r->Ok_0.0
            < config@.entries.len(),
        r is Ok ==> paths_view(r->Ok_0.1@) == stored_rels(files@, storage_dir(config_dir@, name@)),
{
    let at = match config.position(name) {
        Some(at) => at,
        None => {
            return Err(Failure::new(Wording::NoEntry, String::from_str(name)));
        },
    };
    if let Some(k) = find_unresolved(files) {
        return Err(Failure::new(Wording::UnresolvedToRemove, files[k].path.to_string()));
    }
    if let Some(k) = find_missing(files) {
        return Err(Failure::new(Wording::FileToRemoveMissing, files[k].path.to_string()));
    }
    let storage = config_dir.join(&FilePath::parse(name));
    match tracked_rels(files, config.entry(at), &storage) {
        Ok(rels) => Ok((at, rels)),
        Err(k) => match files[k].path.strip_prefix(&storage) {
            Some(rel) => Err(
                Failure::naming(Wording::FileNotInEntry, rel.to_string(), String::from_str(name)),
            ),
            None => Err(
                Failure::naming(
                    Wording::OutsideStorage,
                    files[k].path.to_string(),
                    storage.to_string(),
                ),
            ),
        },
    }
}

/// Checks a removal before the remote is looked at.
pub fn check_remove(
    config: &ConfinuumConfig,
    name: &str,
    files: &Vec<Candidate>,
    config_dir: &FilePath,
) -> (r: Option<Failure>)
    ensures
        failure_matches(remove_precheck(config@, name@, files@, config_dir@), r),
{
    match prepare_removal(config, name, files, config_dir) {
        Ok(_) => None,
        Err(refusal) => Some(refusal),
    }
}

/// Removes files from an entry.  The candidates are the stored copies of
/// the files, as the scan of the given paths resolved them.
///
/// Nothing happens where the removal is refused, nor where it was not
/// confirmed.  Otherwise the files leave the entry, and the steps are those
/// of a removal.
pub fn remove(
    config: &mut ConfinuumConfig,
    name: &str,
    files: &Vec<Candidate>,
    config_dir: &FilePath,
    analysis: MergeAnalysis,
    confirmed: bool,
    no_replace_files: bool,
    push: bool,
) -> (r: Outcome)
    ensures
        failure_matches(
            remove_refusal(old(config)@, name@, files@, config_dir@, analysis),
            r.failure,
        ),
        r.failure is Some || !confirmed ==> final(config)@ == old(config)@ && steps_view(r.steps@)
            == Seq::<StepModel>::empty(),
        r.failure is None && confirmed ==> ({
            let at = entry_index(old(config)@.entries, name@);
            let e = old(config)@.entries[at];
            let storage = storage_dir(config_dir@, name@);
            let rels = stored_rels(files@, storage);
            let target = match e.target_dir {
                Some(t) => t,
                None => Seq::empty(),
            };
            &&& paths_view(r.files@) == rels
            &&& steps_view(r.steps@) == remove_steps(
                target,
                storage,
                rels,
                no_replace_files,
                name@,
                push,
            )
            &&& final(config)@.confinuum == old(config)@.confinuum
            &&& same_but(old(config)@.entries, final(config)@.entries, at)
            &&& final(config)@.entries[at].name == name@
            &&& final(config)@.entries[at].target_dir == e.target_dir
            &&& final(config)@.entries[at].files.to_set() == e.files.to_set().difference(
                rels.to_set(),
            )
        }),
{
    let (at, rels) = match prepare_removal(config, name, files, config_dir) {
        Ok(found) => found,
        Err(refusal) => {
            return refuse(refusal);
        },
    };
    let storage = config_dir.join(&FilePath::parse(name));
    if let Err(changes) = divergence_guard(analysis, true) {
        return refuse(changes);
    }
    let mut entry = config.entry(at).duplicate();
    let no_target = FilePath::empty();
    let target = match entry.target_dir() {
        Some(t) => t.clone(),
        None => {
            if files.len() > 0 {
                return refuse(Failure::new(Wording::NoTargetDir, String::from_str(name)));
            }
            no_target
        },
    };
    if !confirmed {
        return nothing_to_do();
    }
    let ghost e = entry@;
    let ghost all = paths_view(rels@);
    let mut steps: Vec<Step> = Vec::new();
    steps.push(Step::Undeploy(Some(String::from_str(name))));
    let mut middle = steps_of_withdrawal(&target, &storage, &rels, no_replace_files);
    let ghost middle_view = steps_view(middle@);
    let ghost first = steps_view(steps@);
    steps.append(&mut middle);
    assert(steps_view(steps@) =~= first + middle_view);
    let message = write_remove_message(name, &rels);
    let ghost before = steps_view(steps@);
    steps.push(Step::SaveConfig);
    steps.push(Step::Commit(message));
    if push {
        steps.push(Step::Push);
    }
    steps.push(Step::Deploy(Some(String::from_str(name))));
    assert(steps_view(steps@) =~= remove_steps(
        target@,
        storage@,
        all,
        no_replace_files,
        name@,
        push,
    ));
    let mut i: usize = 0;
    assert(all.take(0) =~= Seq::<PathModel>::empty());
    assert(e.files.to_set().difference(all.take(0).to_set()) =~= e.files.to_set());
    while i < rels.len()
        invariant
            i <= rels@.len(),
            all == paths_view(rels@),
            entry@.name == e.name,
            entry@.target_dir == e.target_dir,
            entry@.files.to_set() == e.files.to_set().difference(all.take(i as int).to_set()),
        decreases rels@.len() - i,
    {
        let ghost taken = all.take(i as int);
        let removed = entry.remove_file(&rels[i]);
        proof {
            assert(all.take(i as int + 1) =~= taken.push(all[i as int]));
            taken.lemma_push_to_set_commute(all[i as int]);
            assert(e.files.to_set().difference(taken.to_set()).remove(all[i as int])
                =~= e.files.to_set().difference(taken.to_set().insert(all[i as int])));
        }
        i += 1;
    }
    assert(all.take(i as int) =~= all);
    config.replace(at, entry);
    Outcome { steps, files: rels, failure: None }
}

/// Redeploys everything: all entries are undeployed, then deployed.
pub fn redeploy() -> (r: Vec<Step>)
    ensures
        steps_view(r@) == seq![StepModel::Undeploy(None), StepModel::Deploy(None)],
{
    let mut steps: Vec<Step> = Vec::new();
    steps.push(Step::Undeploy(None));
    steps.push(Step::Deploy(None));
    assert(steps_view(steps@) =~= seq![StepModel::Undeploy(None), StepModel::Deploy(None)]);
    steps
}

/// Pushes the local branch.
pub fn push() -> (r: Vec<Step>)
    ensures
        steps_view(r@) == seq![StepModel::Push],
{
    let mut steps: Vec<Step> = Vec::new();
    steps.push(Step::Push);
    assert(steps_view(steps@) =~= seq![StepModel::Push]);
    steps
}

/// Whether a step of an update is still carried out: every step is while
/// no step has failed; after a failure only the deployment is, so that the
/// links stand again whatever came of the update.
pub fn update_runs(step: &Step, failed: bool) -> (b: bool)
    ensures
        b == (!failed || step@ is Deploy),
{
    match step {
        Step::Deploy(_) => true,
        _ => !failed,
    }
}

/// Updates from the remote: all entries are undeployed, local history is
/// reconciled with the remote, and whatever came of that, all entries are
/// deployed again.
pub fn update() -> (r: Vec<Step>)
    ensures
        steps_view(r@) == seq![StepModel::Undeploy(None), StepModel::Sync, StepModel::Deploy(None)],
{
    let mut steps: Vec<Step> = Vec::new();
    steps.push(Step::Undeploy(None));
    steps.push(Step::Sync);
    steps.push(Step::Deploy(None));
    assert(steps_view(steps@) =~= seq![
        StepModel::Undeploy(None),
        StepModel::Sync,
        StepModel::Deploy(None),
    ]);
    steps
}

/// What `list` tells of an entry.
#[derive(Debug)]
pub struct EntrySummary {
    pub name: String,
    /// The number of tracked files.
    pub files: usize,
    /// The base directory, once files were added.
    pub target_dir: Option<FilePath>,
}

/// Whether `s` tells of `e`.
pub open spec fn summarizes(s: EntrySummary, e: EntryModel) -> bool {
    &&& s.name@ == e.name
    &&& s.files == e.files.len()
    &&& s.target_dir is Some <==> e.target_dir is Some
    &&& s.target_dir is Some ==> s.target_dir->0@ == e.target_dir->0
}

/// The text that tells of an entry.
pub open spec fn summary_text(s: EntrySummary) -> Seq<char> {
    match s.target_dir {
        Some(d) => s.name@ + ": "@ + decimal(s.files as nat) + " files\n\u{21B3} "@ + render_path(d@),
        None => s.name@ + ": uninitialized"@,
    }
}

impl EntrySummary {
    /// The text that tells of the entry.
    pub fn text(&self) -> (r: String)
        ensures
            r@ == summary_text(*self),
    {
        let mut out = self.name.clone();
        match &self.target_dir {
            Some(d) => {
                out.append(": ");
                out.append(decimal_text(self.files).as_str());
                out.append(" files\n\u{21B3} ");
                out.append(d.to_string().as_str());
            },
            None => {
                out.append(": uninitialized");
            },
        }
        out
    }
}

/// Tells of every entry, in order.
pub fn list(config: &ConfinuumConfig) -> (r: Vec<EntrySummary>)
    ensures
        r@.len() == config@.entries.len(),
        forall|i: int| 0 <= i < r@.len() ==> summarizes(#[trigger] r@[i], config@.entries[i]),
{
    let mut out: Vec<EntrySummary> = Vec::new();
    let mut i: usize = 0;
    while i < config.len()
        invariant
            i <= config@.entries.len(),
            out@.len() == i,
            forall|j: int| 0 <= j < i ==> summarizes(#[trigger] out@[j], config@.entries[j]),
        decreases config@.entries.len() - i,
    {
        let entry = config.entry(i);
        let target_dir = match entry.target_dir() {
            Some(d) => Some(d.clone()),
            None => None,
        };
        out.push(EntrySummary { name: entry.name().clone(), files: entry.file_count(), target_dir });
        i += 1;
    }
    out
}

/// What a check of the remote found.
#[derive(Debug)]
pub struct CheckReport {
    /// Whether the local branch is up to date.
    pub up_to_date: bool,
    /// What changed on the remote, entry by entry.
    pub changes: ChangeSummary,
    /// Where the check asked about one entry: whether it has changes.
    pub named: Option<bool>,
}

/// Whether a group is called `name`.
pub open spec fn names_group(changes: ChangeSummary, name: Seq<char>) -> bool {
    exists|g: int| 0 <= g < changes.entries@.len() && (#[trigger] changes.entries@[g]).name@ == name
}

/// Checks what was fetched against the configuration: whether the local
/// branch is up to date, which entries have changes on the remote, and, if
/// an entry is named, whether it is one of them.  A changed file that
/// belongs to no entry fails the check.
pub fn check(
    config: &ConfinuumConfig,
    analysis: MergeAnalysis,
    changed: &Vec<FilePath>,
    name: Option<&str>,
) -> (r: Result<CheckReport, Failure>)
    ensures
        r is Err <==> 0 <= first_orphan(config@.entries, paths_view(changed@), 0) < changed@.len(),
        r is Err ==> r->Err_0@ == failure_about(
            Wording::Orphaned,
            render_path(changed@[first_orphan(config@.entries, paths_view(changed@), 0)]@),
        ),
        r is Ok ==> r->Ok_0.up_to_date == analysis.up_to_date,
        r is Ok ==> groups_split(changes_view(r->Ok_0.changes.entries@), paths_view(changed@)),
        r is Ok ==> r->Ok_0.changes.config_updated == paths_view(changed@).contains(config_file()),
        r is Ok ==> (r->Ok_0.named is Some <==> name is Some),
        r is Ok && name is Some ==> r->Ok_0.named->0 == names_group(r->Ok_0.changes, name->0@),
{
    let changes = match diff_entries(changed, config) {
        Ok(changes) => changes,
        Err(f) => {
            return Err(f);
        },
    };
    let named = match name {
        None => None,
        Some(n) => {
            let mut hit = false;
            let mut i: usize = 0;
            while i < changes.entries.len()
                invariant
                    i <= changes.entries@.len(),
                    hit == exists|g: int|
                        0 <= g < i && (#[trigger] changes.entries@[g]).name@ == n@,
                decreases changes.entries@.len() - i,
            {
                if str_equal(changes.entries[i].name.as_str(), n) {
                    hit = true;
                }
                i += 1;
            }
            Some(hit)
        },
    };
    Ok(CheckReport { up_to_date: analysis.up_to_date, changes, named })
}

/// How the configuration comes to be.
#[derive(Debug)]
pub enum InitPlan {
    /// Clone the repository at the address, then deploy all entries.
    Clone(String),
    /// Set up a new repository with its remote.
    Create,
}

/// Decides how `init` proceeds, from what was found at the place of the
/// configuration file.  A directory there is an error; so is a file,
/// unless overwriting it was asked for.
pub fn init(found: PathKind, force: bool, git: Option<String>) -> (r: Result<InitPlan, Failure>)
    ensures
        found == PathKind::Directory ==> r is Err && r->Err_0@ == bare_failure(
            Wording::ConfigIsDirectory,
        ),
        found == PathKind::File && !force ==> r is Err && r->Err_0@ == bare_failure(
            Wording::ConfigExists,
        ),
        r is Err <==> found == PathKind::Directory || (found == PathKind::File && !force),
        r is Ok && git is Some ==> r->Ok_0 is Clone && r->Ok_0->Clone_0@ == git->0@,
        r is Ok && git is None ==> r->Ok_0 is Create,
{
    match ConfinuumConfig::file_exists(found) {
        Err(corrupt) => Err(corrupt),
        Ok(exists) => {
            if exists && !force {
                Err(Failure::bare(Wording::ConfigExists))
            } else {
                match git {
                    Some(url) => Ok(InitPlan::Clone(url)),
                    None => Ok(InitPlan::Create),
                }
            }
        },
    }
}

/// How the address of a remote says it is reached.
#[derive(Clone, Copy, Debug, PartialEq, Eq, Structural)]
pub enum UrlScheme {
    File,
    Ftp,
    Ftps,
    Git,
    GitSsh,
    Http,
    Https,
    Ssh,
    Unspecified,
}

/// The name of a scheme.
pub open spec fn scheme_name(scheme: UrlScheme) -> Seq<char> {
    match scheme {
        UrlScheme::File => "file"@,
        UrlScheme::Ftp => "ftp"@,
        UrlScheme::Ftps => "ftps"@,
        UrlScheme::Git => "git"@,
        UrlScheme::GitSsh => "git+ssh"@,
        UrlScheme::Http => "http"@,
        UrlScheme::Https => "https"@,
        UrlScheme::Ssh => "ssh"@,
        UrlScheme::Unspecified => "unspecified"@,
    }
}

/// The protocol for a remote, where it is supported: secure shell and
/// secure hypertext transfer are.
pub fn protocol_of(scheme: UrlScheme) -> (r: Result<GitProtocol, Failure>)
    ensures
        scheme == UrlScheme::Https ==> r == Ok::<GitProtocol, Failure>(GitProtocol::Https),
        scheme == UrlScheme::Ssh ==> r == Ok::<GitProtocol, Failure>(GitProtocol::Ssh),
        scheme != UrlScheme::Https && scheme != UrlScheme::Ssh ==> r is Err && r->Err_0@
            == failure_about(Wording::UnsupportedProtocol, scheme_name(scheme)),
{
    let name = match scheme {
        UrlScheme::Https => {
            return Ok(GitProtocol::Https);
        },
        UrlScheme::Ssh => {
            return Ok(GitProtocol::Ssh);
        },
        UrlScheme::File => "file",
        UrlScheme::Ftp => "ftp",
        UrlScheme::Ftps => "ftps",
        UrlScheme::Git => "git",
        UrlScheme::GitSsh => "git+ssh",
        UrlScheme::Http => "http",
        UrlScheme::Unspecified => "unspecified",
    };
    Err(Failure::new(Wording::UnsupportedProtocol, String::from_str(name)))
}

/// The way from the configuration directory to `path`, under which the
/// repository knows the file.
pub fn repo_relative(path: &FilePath, config_dir: &FilePath) -> (r: Result<FilePath, Failure>)
    ensures
        r is Err ==> r->Err_0@ == bare_failure(Wording::NoRelativePath),
        is_absolute(path@) && !is_absolute(config_dir@) ==> r is Ok && r->Ok_0@ == path@,
        !is_absolute(path@) && is_absolute(config_dir@) ==> r is Err,
        is_absolute(path@) == is_absolute(config_dir@) && no_parent_steps(config_dir@) ==> r is Ok
            && r->Ok_0@ == relative_to(path@, config_dir@),
{
    match diff_paths(path, config_dir) {
        Some(rel) => Ok(rel),
        None => Err(Failure::bare(Wording::NoRelativePath)),
    }
}

/// What can be done with one entry.
#[derive(Debug)]
pub enum EntryCommand {
    /// Create the entry, with files or without.
    Create { files: Option<Vec<FilePath>>, push: bool },
    /// Delete the entry.
    Delete { no_confirm: bool, no_replace_files: bool, push: bool },
    /// Show the tracked files of the entry.
    Show,
    /// Check whether the entry is up to date.
    Check { print_diff: bool },
    /// Add files to the entry.
    AddFiles { files: Vec<FilePath>, push: bool },
    /// Remove files from the entry.
    RemoveFiles { files: Vec<FilePath>, no_confirm: bool, no_replace_files: bool, push: bool },
}

/// A command that changes the configuration: it runs behind the divergence
/// guard.
pub open spec fn is_mutating(c: EntryCommand) -> bool {
    c is Create || c is Delete || c is AddFiles || c is RemoveFiles
}

/// A command that the user confirms before it runs.
pub open spec fn asks_confirmation(c: EntryCommand) -> bool {
    match c {
        EntryCommand::Delete { no_confirm, .. } => !no_confirm,
        EntryCommand::RemoveFiles { no_confirm, .. } => !no_confirm,
        _ => false,
    }
}

impl EntryCommand {
    /// Whether the command changes the configuration.
    pub fn mutates(&self) -> (b: bool)
        ensures
            b == is_mutating(*self),
    {
        match self {
            EntryCommand::Create { .. } => true,
            EntryCommand::Delete { .. } => true,
            EntryCommand::AddFiles { .. } => true,
            EntryCommand::RemoveFiles { .. } => true,
            _ => false,
        }
    }

    /// Whether the user is asked before the command runs.
    pub fn needs_confirmation(&self) -> (b: bool)
        ensures
            b == asks_confirmation(*self),
    {
        match self {
            EntryCommand::Delete { no_confirm, .. } => !*no_confirm,
            EntryCommand::RemoveFiles { no_confirm, .. } => !*no_confirm,
            _ => false,
        }
    }
}

} // verus!
