//! Deploying and undeploying the links of tracked files.
//!
//! A tracked file is deployed when a symbolic link at the place it came from
//! points to its copy in storage.  The caller probes the file system and
//! carries out the actions; what to do is decided here, one file at a time.

use vstd::prelude::*;
use vstd::string::*;
use crate::config::{ConfinuumConfig, EntryModel, has_entry};
use crate::error::{Failure, FailureModel, Wording, failure_about};
use crate::ingest::storage_dir;
use crate::path::{FilePath, PathModel, join_paths, render_path, str_equal};

verus! {

/// One tracked file of a reconciliation: where it is deployed and where it
/// is stored.
#[derive(Debug)]
pub struct LinkPair {
    pub deployed: FilePath,
    pub stored: FilePath,
}

/// The model of a pair.
pub struct PairModel {
    pub deployed: PathModel,
    pub stored: PathModel,
}

impl View for LinkPair {
    type V = PairModel;

    open spec fn view(&self) -> PairModel {
        PairModel { deployed: self.deployed@, stored: self.stored@ }
    }
}

/// The models of a list of pairs.
pub open spec fn pairs_view(v: Seq<LinkPair>) -> Seq<PairModel> {
    Seq::new(v.len(), |i: int| v[i]@)
}

/// The pair of the tracked file `rel` of the entry `e`, whose base directory
/// is `target`.
pub open spec fn pair_of(e: EntryModel, target: PathModel, config_dir: PathModel, rel: PathModel) -> PairModel {
    PairModel {
        deployed: join_paths(target, rel),
        stored: join_paths(storage_dir(config_dir, e.name), rel),
    }
}

/// Whether `filter` lets the entry called `name` through.
pub open spec fn passes(filter: Option<Seq<char>>, name: Seq<char>) -> bool {
    filter is None || filter->0 == name
}

/// The pairs of one entry, in the order of its files: none unless the
/// filter lets it through and it has a base directory.
pub open spec fn entry_pairs(e: EntryModel, config_dir: PathModel, filter: Option<Seq<char>>) -> Seq<
    PairModel,
> {
    if passes(filter, e.name) && e.target_dir is Some {
        Seq::new(e.files.len(), |i: int| pair_of(e, e.target_dir->0, config_dir, e.files[i]))
    } else {
        Seq::empty()
    }
}

/// The pairs of the entries from `from` on, entry by entry.
pub open spec fn pairs_from(entries: Seq<EntryModel>, from: int, config_dir: PathModel, filter: Option<Seq<char>>) -> Seq<PairModel>
    decreases entries.len() - from,
{
    if from < 0 || from >= entries.len() {
        Seq::empty()
    } else {
        entry_pairs(entries[from], config_dir, filter) + pairs_from(
            entries,
            from + 1,
            config_dir,
            filter,
        )
    }
}

/// The model of an optional name.
pub open spec fn filter_view(name: Option<&str>) -> Option<Seq<char>> {
    match name {
        Some(n) => Some(n@),
        None => None,
    }
}

/// The reconciliation record: the pairs of every entry that the filter lets
/// through.  A filter that names no entry is an error.
pub fn reconciliation(config: &ConfinuumConfig, config_dir: &FilePath, name: Option<&str>) -> (r:
    Result<Vec<LinkPair>, Failure>)
    ensures
        r is Err <==> name is Some && !has_entry(config@.entries, name->0@),
        r is Err ==> r->Err_0@ == failure_about(Wording::NoEntry, name->0@),
        r is Ok ==> pairs_view(r->Ok_0@) == pairs_from(
            config@.entries,
            0,
            config_dir@,
            filter_view(name),
        ),
{
    if let Some(n) = name {
        if !config.contains_key(n) {
            return Err(Failure::new(Wording::NoEntry, String::from_str(n)));
        }
    }
    let ghost filter = filter_view(name);
    let ghost whole = pairs_from(config@.entries, 0, config_dir@, filter);
    let mut out: Vec<LinkPair> = Vec::new();
    let mut i: usize = 0;
    assert(pairs_view(out@) =~= Seq::<PairModel>::empty());
    while i < config.len()
        invariant
            i <= config@.entries.len(),
            filter == filter_view(name),
            whole == pairs_from(config@.entries, 0, config_dir@, filter),
            whole == pairs_view(out@) + pairs_from(config@.entries, i as int, config_dir@, filter),
        decreases config@.entries.len() - i,
    {
        let entry = config.entry(i);
        let ghost before = pairs_view(out@);
        let ghost these = entry_pairs(entry@, config_dir@, filter);
        let ghost rest = pairs_from(config@.entries, i as int + 1, config_dir@, filter);
        let through = match name {
            Some(n) => str_equal(entry.name().as_str(), n),
            None => true,
        };
        if through {
            if let Some(target) = entry.target_dir() {
                let storage = config_dir.join(&FilePath::parse(entry.name().as_str()));
                let mut j: usize = 0;
                assert(before + these.take(0) =~= before);
                while j < entry.file_count()
                    invariant
                        j <= entry@.files.len(),
                        these == entry_pairs(entry@, config_dir@, filter),
                        these.len() == entry@.files.len(),
                        passes(filter, entry@.name),
                        entry@.target_dir == Some(target@),
                        storage@ == storage_dir(config_dir@, entry@.name),
                        pairs_view(out@) == before + these.take(j as int),
                    decreases entry@.files.len() - j,
                {
                    let ghost now = pairs_view(out@);
                    let rel = entry.file(j);
                    out.push(LinkPair { deployed: target.join(rel), stored: storage.join(rel) });
                    assert(pairs_view(out@) =~= now.push(these[j as int]));
                    assert(now.push(these[j as int]) =~= before + these.take(j as int + 1));
                    j += 1;
                }
                assert(these.take(j as int) =~= these);
            } else {
                assert(before + these =~= before);
            }
        } else {
            assert(before + these =~= before);
        }
        assert((before + these) + rest =~= before + (these + rest));
        i += 1;
    }
    assert(pairs_view(out@) + Seq::<PairModel>::empty() =~= pairs_view(out@));
    Ok(out)
}

/// What stands at a deployed path.
#[derive(Debug)]
pub enum Deployed {
    /// Nothing.
    Missing,
    /// A symbolic link, with the path it points to.
    Link(FilePath),
    /// Anything else: a regular file, a directory.
    Other,
}

/// The model of what stands at a deployed path.
pub enum DeployedModel {
    Missing,
    Link(PathModel),
    Other,
}

/// What a probe of a pair found.
#[derive(Debug)]
pub struct Probe {
    /// Whether the copy in storage is there.
    pub stored_exists: bool,
    /// What stands at the deployed path.
    pub deployed: Deployed,
}

/// The model of a probe.
pub struct ProbeModel {
    pub stored_exists: bool,
    pub deployed: DeployedModel,
}

impl View for Probe {
    type V = ProbeModel;

    open spec fn view(&self) -> ProbeModel {
        ProbeModel {
            stored_exists: self.stored_exists,
            deployed: match self.deployed {
                Deployed::Missing => DeployedModel::Missing,
                Deployed::Link(t) => DeployedModel::Link(t@),
                Deployed::Other => DeployedModel::Other,
            },
        }
    }
}

/// What deploying does to one file.
#[derive(Clone, Copy, Debug, PartialEq, Eq, Structural)]
pub enum LinkDecision {
    /// The copy in storage is missing: the state is corrupt.
    Corrupt,
    /// The link is there already.
    Keep,
    /// Nothing is there: create the link.
    Create,
    /// Something else is there: remove it, then create the link.
    Replace,
}

/// Whether the link of the pair is in place.
pub open spec fn is_linked(pair: PairModel, probe: ProbeModel) -> bool {
    probe.deployed == DeployedModel::Link(pair.stored)
}

/// The decision of a deployment for one file.
pub open spec fn link_decision(pair: PairModel, probe: ProbeModel) -> LinkDecision {
    if !probe.stored_exists {
        LinkDecision::Corrupt
    } else if is_linked(pair, probe) {
        LinkDecision::Keep
    } else if probe.deployed is Missing {
        LinkDecision::Create
    } else {
        LinkDecision::Replace
    }
}

/// Whether undeploying removes what stands at the deployed path: only the
/// link to the file's own copy in storage.
pub open spec fn unlink_decision(pair: PairModel, probe: ProbeModel) -> bool {
    is_linked(pair, probe)
}

/// What restoring does to one file after a failed deployment.
#[derive(Clone, Copy, Debug, PartialEq, Eq, Structural)]
pub enum RestoreDecision {
    /// Something of the user's is there: leave it.
    Leave,
    /// Nothing is there: copy the file back from storage.
    Copy,
    /// The link is there: remove it, then copy the file back from storage.
    Replace,
}

/// The decision of a restoration for one file.
pub open spec fn restore_decision(pair: PairModel, probe: ProbeModel) -> RestoreDecision {
    if probe.deployed is Missing {
        RestoreDecision::Copy
    } else if is_linked(pair, probe) {
        RestoreDecision::Replace
    } else {
        RestoreDecision::Leave
    }
}

/// Whether the link of the pair is in place.
pub fn linked(pair: &LinkPair, probe: &Probe) -> (b: bool)
    ensures
        b == is_linked(pair@, probe@),
{
    match &probe.deployed {
        Deployed::Link(t) => t.same(&pair.stored),
        _ => false,
    }
}

/// Decides what deploying does to one file.
pub fn decide_link(pair: &LinkPair, probe: &Probe) -> (d: LinkDecision)
    ensures
        d == link_decision(pair@, probe@),
{
    if !probe.stored_exists {
        LinkDecision::Corrupt
    } else if linked(pair, probe) {
        LinkDecision::Keep
    } else if let Deployed::Missing = probe.deployed {
        LinkDecision::Create
    } else {
        LinkDecision::Replace
    }
}

/// Decides whether undeploying removes what stands at the deployed path.
pub fn decide_unlink(pair: &LinkPair, probe: &Probe) -> (remove: bool)
    ensures
        remove == unlink_decision(pair@, probe@),
{
    linked(pair, probe)
}

/// Decides what restoring does to one file.
pub fn decide_restore(pair: &LinkPair, probe: &Probe) -> (d: RestoreDecision)
    ensures
        d == restore_decision(pair@, probe@),
{
    if let Deployed::Missing = probe.deployed {
        RestoreDecision::Copy
    } else if linked(pair, probe) {
        RestoreDecision::Replace
    } else {
        RestoreDecision::Leave
    }
}

/// Whether links are created or removed.
#[derive(Clone, Copy, Debug, PartialEq, Eq, Structural)]
pub enum Mode {
    Deploy,
    Undeploy,
}

/// Where a reconciliation stands.
#[derive(Clone, Copy, Debug, PartialEq, Eq, Structural)]
pub enum Stage {
    /// The pair in work is to be probed.
    Probing,
    /// An action on the pair in work is awaited.
    Acting,
    /// After a failed deployment: the pair in work is to be probed.
    RestoreProbing,
    /// After a failed deployment: an action on the pair in work is awaited.
    RestoreActing,
    /// Nothing is left to do.
    Finished,
}

/// What the caller does to the file system for one pair.
#[derive(Clone, Copy, Debug, PartialEq, Eq, Structural)]
pub enum FsAction {
    /// Create the link at the deployed path, pointing to storage.
    Link,
    /// Remove what stands at the deployed path, then create the link.
    Relink,
    /// Remove the link at the deployed path.
    Unlink,
    /// Copy the file from storage to the deployed path.
    Restore,
    /// Remove the link at the deployed path, then copy the file from
    /// storage to it.
    Replace,
}

/// What the caller reports.
#[derive(Debug)]
pub enum Event {
    /// What the probe of the pair in work found.
    Found(Probe),
    /// Whether the action on the pair in work was carried out.
    Carried(bool),
}

/// The model of an event.
pub enum EventModel {
    Found(ProbeModel),
    Carried(bool),
}

impl View for Event {
    type V = EventModel;

    open spec fn view(&self) -> EventModel {
        match self {
            Event::Found(p) => EventModel::Found(p@),
            Event::Carried(ok) => EventModel::Carried(*ok),
        }
    }
}

/// What the caller is asked to do next.
#[derive(Clone, Copy, Debug, PartialEq, Eq, Structural)]
pub enum Request {
    /// Probe the pair at the index and report what was found.
    Probe(usize),
    /// Carry out the action on the pair at the index and report whether it
    /// succeeded.
    Act(usize, FsAction),
    /// Nothing: the reconciliation is over.
    Finished,
}

/// The state of a reconciliation.
pub struct RunModel {
    pub mode: Mode,
    pub stage: Stage,
    /// The index of the pair in work.
    pub at: nat,
    /// While an action is awaited: the action.
    pub action: FsAction,
    /// The failure to report at the end.
    pub failure: Option<FailureModel>,
    /// How many actions failed without ending the reconciliation.
    pub unrestored: nat,
}

/// Whether the stage belongs to the restoration.
pub open spec fn restoring(stage: Stage) -> bool {
    stage == Stage::RestoreProbing || stage == Stage::RestoreActing
}

/// The state in which a reconciliation of `n` pairs begins.
pub open spec fn initial_run(mode: Mode, n: nat) -> RunModel {
    RunModel {
        mode,
        stage: if n > 0 {
            Stage::Probing
        } else {
            Stage::Finished
        },
        at: 0,
        action: FsAction::Link,
        failure: None,
        unrestored: 0,
    }
}

/// The state once the pair in work is done with: the following pair is to
/// be probed, or nothing is left.
pub open spec fn next_pair(s: RunModel, n: nat) -> RunModel {
    let at = s.at + 1;
    RunModel {
        at,
        stage: if at >= n {
            Stage::Finished
        } else if restoring(s.stage) {
            Stage::RestoreProbing
        } else {
            Stage::Probing
        },
        ..s
    }
}

/// The state once a deployment of `n` pairs has failed: every pair is
/// restored, from the first on, and the failure is kept.
pub open spec fn start_restore(s: RunModel, failure: FailureModel, n: nat) -> RunModel {
    RunModel {
        at: 0,
        unrestored: 0,
        failure: Some(failure),
        stage: if n > 0 {
            Stage::RestoreProbing
        } else {
            Stage::Finished
        },
        ..s
    }
}

/// The state with one more failure that does not end the reconciliation;
/// the first such failure is kept where none is kept yet.
pub open spec fn note_failure(s: RunModel, subject: Seq<char>) -> RunModel {
    RunModel {
        failure: if s.failure is None {
            Some(failure_about(Wording::OperationFailed, subject))
        } else {
            s.failure
        },
        unrestored: s.unrestored + 1,
        ..s
    }
}

/// The state with the action awaited.
pub open spec fn await_action(s: RunModel, action: FsAction) -> RunModel {
    RunModel {
        stage: if restoring(s.stage) {
            Stage::RestoreActing
        } else {
            Stage::Acting
        },
        action,
        ..s
    }
}

/// The transition of a reconciliation of `pairs` on an event.
///
/// Deploying: a missing copy in storage is a corrupt state, which ends the
/// deployment; so does an action that fails.  Every pair is then restored:
/// where nothing stands at its deployed path, or its own link, a plain copy
/// of the stored file is put there.  The failure that ended the deployment
/// is reported at the end.
/// Undeploying goes on after an action that fails.  An event that was not
/// asked for changes nothing.
pub open spec fn run_step(pairs: Seq<PairModel>, s: RunModel, e: EventModel) -> RunModel {
    let pair = pairs[s.at as int];
    match (s.stage, e) {
        (Stage::Probing, EventModel::Found(p)) => match s.mode {
            Mode::Deploy => match link_decision(pair, p) {
                LinkDecision::Corrupt => start_restore(
                    s,
                    failure_about(Wording::MissingInStorage, render_path(pair.stored)),
                    pairs.len(),
                ),
                LinkDecision::Keep => next_pair(s, pairs.len()),
                LinkDecision::Create => await_action(s, FsAction::Link),
                LinkDecision::Replace => await_action(s, FsAction::Relink),
            },
            Mode::Undeploy => if unlink_decision(pair, p) {
                await_action(s, FsAction::Unlink)
            } else {
                next_pair(s, pairs.len())
            },
        },
        (Stage::Acting, EventModel::Carried(ok)) => if ok {
            next_pair(s, pairs.len())
        } else {
            match s.mode {
                Mode::Deploy => start_restore(
                    s,
                    failure_about(Wording::OperationFailed, render_path(pair.deployed)),
                    pairs.len(),
                ),
                Mode::Undeploy => next_pair(
                    note_failure(s, render_path(pair.deployed)),
                    pairs.len(),
                ),
            }
        },
        (Stage::RestoreProbing, EventModel::Found(p)) => match restore_decision(pair, p) {
            RestoreDecision::Leave => next_pair(s, pairs.len()),
            RestoreDecision::Copy => await_action(s, FsAction::Restore),
            RestoreDecision::Replace => await_action(s, FsAction::Replace),
        },
        (Stage::RestoreActing, EventModel::Carried(ok)) => if ok {
            next_pair(s, pairs.len())
        } else {
            next_pair(RunModel { unrestored: s.unrestored + 1, ..s }, pairs.len())
        },
        _ => s,
    }
}

/// What a reconciliation in state `s` asks for.
pub open spec fn run_request(s: RunModel) -> Request {
    match s.stage {
        Stage::Probing | Stage::RestoreProbing => Request::Probe(s.at as usize),
        Stage::Acting | Stage::RestoreActing => Request::Act(s.at as usize, s.action),
        Stage::Finished => Request::Finished,
    }
}

/// A state that a reconciliation of `n` pairs can be in.
pub open spec fn run_wf(s: RunModel, n: nat) -> bool {
    &&& s.unrestored <= s.at
    &&& s.at <= n
    &&& s.stage != Stage::Finished ==> s.at < n
}

/// A deployment or an undeployment in progress.
#[derive(Debug)]
pub struct Reconciler {
    pairs: Vec<LinkPair>,
    mode: Mode,
    stage: Stage,
    at: usize,
    action: FsAction,
    failure: Option<Failure>,
    unrestored: usize,
}

/// The model of an optional failure.
pub open spec fn failure_view(f: Option<Failure>) -> Option<FailureModel> {
    match f {
        Some(f) => Some(f@),
        None => None,
    }
}

impl View for Reconciler {
    type V = RunModel;

    closed spec fn view(&self) -> RunModel {
        RunModel {
            mode: self.mode,
            stage: self.stage,
            at: self.at as nat,
            action: self.action,
            failure: failure_view(self.failure),
            unrestored: self.unrestored as nat,
        }
    }
}

impl Reconciler {
    /// The pairs that are reconciled.
    pub closed spec fn pairs(&self) -> Seq<PairModel> {
        pairs_view(self.pairs@)
    }

    /// Every reconciliation is in a state that it can be in.
    #[verifier::type_invariant]
    pub open spec fn inv(self) -> bool {
        run_wf(self@, self.pairs().len())
    }

    /// A reconciliation of `pairs` at its beginning.
    pub fn new(mode: Mode, pairs: Vec<LinkPair>) -> (r: Reconciler)
        ensures
            r.pairs() == pairs_view(pairs@),
            r@ == initial_run(mode, pairs@.len()),
    {
        let stage = if pairs.len() > 0 {
            Stage::Probing
        } else {
            Stage::Finished
        };
        Reconciler {
            pairs,
            mode,
            stage,
            at: 0,
            action: FsAction::Link,
            failure: None,
            unrestored: 0,
        }
    }

    /// What the caller is asked to do next.
    pub fn request(&self) -> (r: Request)
        ensures
            r == run_request(self@),
            r is Probe ==> r->Probe_0 < self.pairs().len(),
            r is Act ==> r->Act_0 < self.pairs().len(),
    {
        proof {
            use_type_invariant(self);
        }
        match self.stage {
            Stage::Probing | Stage::RestoreProbing => Request::Probe(self.at),
            Stage::Acting | Stage::RestoreActing => Request::Act(self.at, self.action),
            Stage::Finished => Request::Finished,
        }
    }

    /// The number of pairs.
    pub fn len(&self) -> (n: usize)
        ensures
            n == self.pairs().len(),
    {
        self.pairs.len()
    }

    /// The pair at `i`.
    pub fn pair(&self, i: usize) -> (p: &LinkPair)
        requires
            i < self.pairs().len(),
        ensures
            p@ == self.pairs()[i as int],
    {
        &self.pairs[i]
    }

    /// Whether nothing is left to do.
    pub fn is_finished(&self) -> (b: bool)
        ensures
            b == (self@.stage == Stage::Finished),
    {
        match self.stage {
            Stage::Finished => true,
            _ => false,
        }
    }

    /// The failure to report: of a deployment, the one that ended it; of an
    /// undeployment, the first one.
    pub fn failure(&self) -> (f: Option<&Failure>)
        ensures
            f is Some <==> self@.failure is Some,
            f is Some ==> self@.failure == Some(f->0@),
    {
        self.failure.as_ref()
    }

    /// How many actions failed without ending the reconciliation.
    pub fn unrestored(&self) -> (n: usize)
        ensures
            n == self@.unrestored,
    {
        self.unrestored
    }

    /// Takes an event and moves to the next state.
    pub fn step(&mut self, event: &Event)
        ensures
            final(self)@ == run_step(old(self).pairs(), old(self)@, event@),
            final(self).pairs() == old(self).pairs(),
    {
        proof {
            use_type_invariant(&*self);
        }
        let n = self.pairs.len();
        match (self.stage, event) {
            (Stage::Probing, Event::Found(p)) => {
                let pair = &self.pairs[self.at];
                match self.mode {
                    Mode::Deploy => match decide_link(pair, p) {
                        LinkDecision::Corrupt => {
                            let failure = Failure::new(
                                Wording::MissingInStorage,
                                pair.stored.to_string(),
                            );
                            self.begin_restore(failure);
                        },
                        LinkDecision::Keep => self.advance(),
                        LinkDecision::Create => self.expect(FsAction::Link),
                        LinkDecision::Replace => self.expect(FsAction::Relink),
                    },
                    Mode::Undeploy => if decide_unlink(pair, p) {
                        self.expect(FsAction::Unlink)
                    } else {
                        self.advance()
                    },
                }
            },
            (Stage::Acting, Event::Carried(ok)) => {
                if *ok {
                    self.advance();
                } else {
                    let failure = Failure::new(
                        Wording::OperationFailed,
                        self.pairs[self.at].deployed.to_string(),
                    );
                    match self.mode {
                        Mode::Deploy => {
                            self.begin_restore(failure);
                        },
                        Mode::Undeploy => {
                            if self.failure.is_none() {
                                self.failure = Some(failure);
                            }
                            self.advance();
                            self.unrestored = self.unrestored + 1;
                        },
                    }
                }
            },
            (Stage::RestoreProbing, Event::Found(p)) => {
                match decide_restore(&self.pairs[self.at], p) {
                    RestoreDecision::Leave => self.advance(),
                    RestoreDecision::Copy => self.expect(FsAction::Restore),
                    RestoreDecision::Replace => self.expect(FsAction::Replace),
                }
            },
            (Stage::RestoreActing, Event::Carried(ok)) => {
                self.advance();
                if !*ok {
                    self.unrestored = self.unrestored + 1;
                }
            },
            _ => {},
        }
    }

    fn advance(&mut self)
        requires
            old(self)@.stage != Stage::Finished,
        ensures
            final(self)@ == next_pair(old(self)@, old(self).pairs().len()),
            final(self).pairs() == old(self).pairs(),
    {
        proof {
            use_type_invariant(&*self);
        }
        let n = self.pairs.len();
        assert(self.at < n);
        let at = self.at + 1;
        let restoring = match self.stage {
            Stage::RestoreProbing | Stage::RestoreActing => true,
            _ => false,
        };
        let stage = if at >= n {
            Stage::Finished
        } else if restoring {
            Stage::RestoreProbing
        } else {
            Stage::Probing
        };
        self.stage = Stage::Finished;
        self.at = at;
        self.stage = stage;
    }

    fn expect(&mut self, action: FsAction)
        requires
            old(self)@.stage == Stage::Probing || old(self)@.stage == Stage::RestoreProbing,
        ensures
            final(self)@ == await_action(old(self)@, action),
            final(self).pairs() == old(self).pairs(),
    {
        proof {
            use_type_invariant(&*self);
        }
        let stage = match self.stage {
            Stage::RestoreProbing | Stage::RestoreActing => Stage::RestoreActing,
            _ => Stage::Acting,
        };
        self.action = action;
        self.stage = stage;
    }

    fn begin_restore(&mut self, failure: Failure)
        ensures
            final(self)@ == start_restore(old(self)@, failure@, old(self).pairs().len()),
            final(self).pairs() == old(self).pairs(),
    {
        proof {
            use_type_invariant(&*self);
        }
        let stage = if self.pairs.len() > 0 {
            Stage::RestoreProbing
        } else {
            Stage::Finished
        };
        self.stage = Stage::Finished;
        self.unrestored = 0;
        self.at = 0;
        self.failure = Some(failure);
        self.stage = stage;
    }
}

/// Starts the deployment of the entries that the filter lets through.
pub fn deploy(config: &ConfinuumConfig, config_dir: &FilePath, name: Option<&str>) -> (r: Result<
    Reconciler,
    Failure,
>)
    ensures
        r is Err <==> name is Some && !has_entry(config@.entries, name->0@),
        r is Err ==> r->Err_0@ == failure_about(Wording::NoEntry, name->0@),
        r is Ok ==> r->Ok_0.pairs() == pairs_from(
            config@.entries,
            0,
            config_dir@,
            filter_view(name),
        ),
        r is Ok ==> r->Ok_0@ == initial_run(Mode::Deploy, r->Ok_0.pairs().len()),
{
    match reconciliation(config, config_dir, name) {
        Ok(pairs) => Ok(Reconciler::new(Mode::Deploy, pairs)),
        Err(f) => Err(f),
    }
}

/// Starts the undeployment of the entries that the filter lets through.
pub fn undeploy(config: &ConfinuumConfig, config_dir: &FilePath, name: Option<&str>) -> (r: Result<
    Reconciler,
    Failure,
>)
    ensures
        r is Err <==> name is Some && !has_entry(config@.entries, name->0@),
        r is Err ==> r->Err_0@ == failure_about(Wording::NoEntry, name->0@),
        r is Ok ==> r->Ok_0.pairs() == pairs_from(
            config@.entries,
            0,
            config_dir@,
            filter_view(name),
        ),
        r is Ok ==> r->Ok_0@ == initial_run(Mode::Undeploy, r->Ok_0.pairs().len()),
{
    match reconciliation(config, config_dir, name) {
        Ok(pairs) => Ok(Reconciler::new(Mode::Undeploy, pairs)),
        Err(f) => Err(f),
    }
}

} // verus!
