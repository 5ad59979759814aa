//! A model of the file system, and what deploying and undeploying do to it.
//!
//! The model maps each path at which something stands to what stands there.
//! Deploying and undeploying are modelled as the caller carries them out:
//! pair by pair, each probed and then acted on as decided, every action
//! succeeding.

use vstd::prelude::*;
use crate::deployment::{
    DeployedModel,
    EventModel,
    FsAction,
    LinkDecision,
    Mode,
    PairModel,
    ProbeModel,
    RunModel,
    Stage,
    initial_run,
    is_linked,
    link_decision,
    run_step,
    unlink_decision,
};
use crate::path::PathModel;

verus! {

/// What stands at a path.
pub enum NodeModel {
    /// A symbolic link to the given path.
    Link(PathModel),
    /// Anything else.
    Other,
}

/// The file system: what stands at each path at which something stands.
pub type FsModel = Map<PathModel, NodeModel>;

/// What a probe of `pair` finds in `fs`.
pub open spec fn probe_of(fs: FsModel, pair: PairModel) -> ProbeModel {
    ProbeModel {
        stored_exists: fs.contains_key(pair.stored),
        deployed: if !fs.contains_key(pair.deployed) {
            DeployedModel::Missing
        } else {
            match fs[pair.deployed] {
                NodeModel::Link(t) => DeployedModel::Link(t),
                NodeModel::Other => DeployedModel::Other,
            }
        },
    }
}

/// The file system after deploying one pair.
pub open spec fn link_one(fs: FsModel, pair: PairModel) -> FsModel {
    match link_decision(pair, probe_of(fs, pair)) {
        LinkDecision::Corrupt | LinkDecision::Keep => fs,
        LinkDecision::Create | LinkDecision::Replace => fs.insert(
            pair.deployed,
            NodeModel::Link(pair.stored),
        ),
    }
}

/// The file system after undeploying one pair.
pub open spec fn unlink_one(fs: FsModel, pair: PairModel) -> FsModel {
    if unlink_decision(pair, probe_of(fs, pair)) {
        fs.remove(pair.deployed)
    } else {
        fs
    }
}

/// The file system after deploying the first `k` pairs in order.
pub open spec fn deploy_upto(fs: FsModel, pairs: Seq<PairModel>, k: int) -> FsModel
    decreases k,
{
    if k <= 0 {
        fs
    } else {
        link_one(deploy_upto(fs, pairs, k - 1), pairs[k - 1])
    }
}

/// The file system after undeploying the first `k` pairs in order.
pub open spec fn undeploy_upto(fs: FsModel, pairs: Seq<PairModel>, k: int) -> FsModel
    decreases k,
{
    if k <= 0 {
        fs
    } else {
        unlink_one(undeploy_upto(fs, pairs, k - 1), pairs[k - 1])
    }
}

/// The file system after deploying all pairs.
pub open spec fn deploy_all(fs: FsModel, pairs: Seq<PairModel>) -> FsModel {
    deploy_upto(fs, pairs, pairs.len() as int)
}

/// The file system after undeploying all pairs.
pub open spec fn undeploy_all(fs: FsModel, pairs: Seq<PairModel>) -> FsModel {
    undeploy_upto(fs, pairs, pairs.len() as int)
}

/// Every copy in storage is there.
pub open spec fn storage_complete(fs: FsModel, pairs: Seq<PairModel>) -> bool {
    forall|i: int| 0 <= i < pairs.len() ==> fs.contains_key(#[trigger] pairs[i].stored)
}

/// No two pairs are deployed at the same path.
pub open spec fn distinct_deployed(pairs: Seq<PairModel>) -> bool {
    forall|i: int, j: int|
        0 <= i < pairs.len() && 0 <= j < pairs.len() && i != j ==> (#[trigger] pairs[i]).deployed
            != (#[trigger] pairs[j]).deployed
}

/// Whether `p` is the deployed path of one of the first `k` pairs.
pub open spec fn deployed_among(pairs: Seq<PairModel>, k: int, p: PathModel) -> bool {
    exists|i: int| 0 <= i < k && i < pairs.len() && (#[trigger] pairs[i]).deployed == p
}

/// Deploying removes nothing, and changes only deployed paths.
pub proof fn lemma_deploy_frame(fs: FsModel, pairs: Seq<PairModel>, k: int)
    requires
        0 <= k <= pairs.len(),
    ensures
        forall|p: PathModel| fs.contains_key(p) ==> deploy_upto(fs, pairs, k).contains_key(p),
        forall|p: PathModel|
            !#[trigger] deployed_among(pairs, k, p) ==> (deploy_upto(fs, pairs, k).contains_key(p)
                == fs.contains_key(p)) && (fs.contains_key(p) ==> deploy_upto(fs, pairs, k)[p]
                == fs[p]),
    decreases k,
{
    if k > 0 {
        lemma_deploy_frame(fs, pairs, k - 1);
        let before = deploy_upto(fs, pairs, k - 1);
        let after = deploy_upto(fs, pairs, k);
        assert forall|p: PathModel| fs.contains_key(p) implies after.contains_key(p) by {
            assert(before.contains_key(p));
        }
        assert forall|p: PathModel| !#[trigger] deployed_among(pairs, k, p) implies (after.contains_key(p)
            == fs.contains_key(p)) && (fs.contains_key(p) ==> after[p] == fs[p]) by {
            let last = pairs[k - 1];
            if last.deployed == p {
                assert(deployed_among(pairs, k, p));
            }
            if deployed_among(pairs, k - 1, p) {
                let i = choose|i: int| 0 <= i < k - 1 && i < pairs.len() && (
                #[trigger] pairs[i]).deployed == p;
                assert(0 <= i < k && pairs[i].deployed == p);
            }
        }
    }
}

/// Where storage is complete and no two pairs share a deployed path, after
/// the first `k` pairs are deployed each of them is linked to its copy.
pub proof fn lemma_deploy_links(fs: FsModel, pairs: Seq<PairModel>, k: int)
    requires
        0 <= k <= pairs.len(),
        storage_complete(fs, pairs),
        distinct_deployed(pairs),
    ensures
        forall|i: int|
            0 <= i < k ==> is_linked(
                #[trigger] pairs[i],
                probe_of(deploy_upto(fs, pairs, k), pairs[i]),
            ),
        storage_complete(deploy_upto(fs, pairs, k), pairs),
    decreases k,
{
    lemma_deploy_frame(fs, pairs, k);
    if k > 0 {
        lemma_deploy_links(fs, pairs, k - 1);
        let before = deploy_upto(fs, pairs, k - 1);
        let after = deploy_upto(fs, pairs, k);
        let last = pairs[k - 1];
        assert(before.contains_key(last.stored));
        assert forall|i: int| 0 <= i < k implies is_linked(
            #[trigger] pairs[i],
            probe_of(after, pairs[i]),
        ) by {
            if i < k - 1 {
                assert(is_linked(pairs[i], probe_of(before, pairs[i])));
                assert(pairs[i].deployed != last.deployed);
            }
        }
    }
}

/// Deploying changes nothing where every pair is linked already.
pub proof fn lemma_deploy_settled(fs: FsModel, pairs: Seq<PairModel>, k: int)
    requires
        0 <= k <= pairs.len(),
        forall|i: int| 0 <= i < pairs.len() ==> is_linked(#[trigger] pairs[i], probe_of(fs, pairs[i])),
    ensures
        deploy_upto(fs, pairs, k) == fs,
    decreases k,
{
    if k > 0 {
        lemma_deploy_settled(fs, pairs, k - 1);
        assert(is_linked(pairs[k - 1], probe_of(fs, pairs[k - 1])));
    }
}

/// Deploying twice is deploying once: where every copy in storage is there
/// and no two tracked files share a deployed path, a second deployment
/// finds every link in place, decides to keep each, and leaves the file
/// system as the first one left it.
pub proof fn theorem_deploy_idempotent(fs: FsModel, pairs: Seq<PairModel>)
    requires
        storage_complete(fs, pairs),
        distinct_deployed(pairs),
    ensures
        forall|i: int|
            0 <= i < pairs.len() ==> link_decision(
                #[trigger] pairs[i],
                probe_of(deploy_all(fs, pairs), pairs[i]),
            ) == LinkDecision::Keep,
        deploy_all(deploy_all(fs, pairs), pairs) == deploy_all(fs, pairs),
{
    let once = deploy_all(fs, pairs);
    lemma_deploy_links(fs, pairs, pairs.len() as int);
    assert forall|i: int| 0 <= i < pairs.len() implies link_decision(
        #[trigger] pairs[i],
        probe_of(once, pairs[i]),
    ) == LinkDecision::Keep by {
        assert(is_linked(pairs[i], probe_of(once, pairs[i])));
        assert(once.contains_key(pairs[i].stored));
    }
    lemma_deploy_settled(once, pairs, pairs.len() as int);
}

/// The last of the first `k` pairs that is deployed at `p`, or a negative
/// number if none is.
pub open spec fn last_at(pairs: Seq<PairModel>, k: int, p: PathModel) -> int
    decreases k,
{
    if k <= 0 {
        -1
    } else if pairs[k - 1].deployed == p {
        k - 1
    } else {
        last_at(pairs, k - 1, p)
    }
}

/// A path is deployed at by one of the first `k` pairs just when there is a
/// last such pair.
pub proof fn lemma_last_at(pairs: Seq<PairModel>, k: int, p: PathModel)
    requires
        0 <= k <= pairs.len(),
    ensures
        last_at(pairs, k, p) < k,
        last_at(pairs, k, p) >= 0 <==> deployed_among(pairs, k, p),
        last_at(pairs, k, p) >= 0 ==> pairs[last_at(pairs, k, p)].deployed == p,
    decreases k,
{
    if k > 0 {
        lemma_last_at(pairs, k - 1, p);
        if pairs[k - 1].deployed == p {
            assert(deployed_among(pairs, k, p));
        } else {
            if deployed_among(pairs, k, p) {
                let i = choose|i: int| 0 <= i < k && i < pairs.len() && (
                #[trigger] pairs[i]).deployed == p;
                assert(i < k - 1);
                assert(deployed_among(pairs, k - 1, p));
            }
            if deployed_among(pairs, k - 1, p) {
                let i = choose|i: int| 0 <= i < k - 1 && i < pairs.len() && (
                #[trigger] pairs[i]).deployed == p;
                assert(0 <= i < k && pairs[i].deployed == p);
            }
        }
    }
}

/// Where storage is complete, after the first `k` pairs are deployed each
/// deployed path holds the link of the last pair that is deployed there.
pub proof fn lemma_deploy_last_wins(fs: FsModel, pairs: Seq<PairModel>, k: int, p: PathModel)
    requires
        0 <= k <= pairs.len(),
        storage_complete(fs, pairs),
        last_at(pairs, k, p) >= 0,
    ensures
        deploy_upto(fs, pairs, k).contains_key(p),
        deploy_upto(fs, pairs, k)[p] == NodeModel::Link(pairs[last_at(pairs, k, p)].stored),
    decreases k,
{
    if k > 0 {
        let before = deploy_upto(fs, pairs, k - 1);
        let last = pairs[k - 1];
        lemma_deploy_frame(fs, pairs, k - 1);
        assert(before.contains_key(last.stored));
        if last.deployed != p {
            lemma_deploy_last_wins(fs, pairs, k - 1, p);
        }
    }
}

/// Deploying twice leaves the file system as deploying once leaves it,
/// where every copy in storage is there; this also where several tracked
/// files share a deployed path.
pub proof fn theorem_deploy_state_idempotent(fs: FsModel, pairs: Seq<PairModel>)
    requires
        storage_complete(fs, pairs),
    ensures
        deploy_all(deploy_all(fs, pairs), pairs) == deploy_all(fs, pairs),
{
    let n = pairs.len() as int;
    let once = deploy_all(fs, pairs);
    let twice = deploy_all(once, pairs);
    lemma_deploy_frame(fs, pairs, n);
    assert(storage_complete(once, pairs));
    lemma_deploy_frame(once, pairs, n);
    assert forall|p: PathModel| #[trigger]
        twice.dom().contains(p) == once.dom().contains(p) && (once.dom().contains(p) ==> twice[p]
            == once[p]) by {
        lemma_last_at(pairs, n, p);
        if deployed_among(pairs, n, p) {
            lemma_deploy_last_wins(fs, pairs, n, p);
            lemma_deploy_last_wins(once, pairs, n, p);
        }
    }
    assert(twice.dom() =~= once.dom());
    assert(twice =~= once);
}

/// Undeploying adds nothing and changes nothing that it leaves in place.
pub proof fn lemma_undeploy_frame(fs: FsModel, pairs: Seq<PairModel>, k: int)
    requires
        0 <= k <= pairs.len(),
    ensures
        forall|p: PathModel|
            #[trigger] undeploy_upto(fs, pairs, k).contains_key(p) ==> fs.contains_key(p)
                && undeploy_upto(fs, pairs, k)[p] == fs[p],
    decreases k,
{
    if k > 0 {
        lemma_undeploy_frame(fs, pairs, k - 1);
        let before = undeploy_upto(fs, pairs, k - 1);
        let after = undeploy_upto(fs, pairs, k);
        assert forall|p: PathModel| #[trigger] after.contains_key(p) implies fs.contains_key(p)
            && after[p] == fs[p] by {
            assert(before.contains_key(p));
        }
    }
}

/// Undeploying is not destructive: whatever stands at a path stays there
/// untouched, unless it is the link at the deployed path of a tracked file
/// that points to that file's own copy in storage.
pub proof fn theorem_undeploy_spares(fs: FsModel, pairs: Seq<PairModel>, p: PathModel)
    requires
        fs.contains_key(p),
        forall|i: int|
            0 <= i < pairs.len() && (#[trigger] pairs[i]).deployed == p ==> fs[p] != NodeModel::Link(
                pairs[i].stored,
            ),
    ensures
        undeploy_all(fs, pairs).contains_key(p),
        undeploy_all(fs, pairs)[p] == fs[p],
{
    lemma_undeploy_spares_upto(fs, pairs, p, pairs.len() as int);
}

/// The same of the first `k` pairs.
pub proof fn lemma_undeploy_spares_upto(fs: FsModel, pairs: Seq<PairModel>, p: PathModel, k: int)
    requires
        0 <= k <= pairs.len(),
        fs.contains_key(p),
        forall|i: int|
            0 <= i < pairs.len() && (#[trigger] pairs[i]).deployed == p ==> fs[p] != NodeModel::Link(
                pairs[i].stored,
            ),
    ensures
        undeploy_upto(fs, pairs, k).contains_key(p),
        undeploy_upto(fs, pairs, k)[p] == fs[p],
    decreases k,
{
    if k > 0 {
        lemma_undeploy_spares_upto(fs, pairs, p, k - 1);
        let before = undeploy_upto(fs, pairs, k - 1);
        let last = pairs[k - 1];
        if last.deployed == p {
            assert(fs[p] != NodeModel::Link(last.stored));
            assert(!is_linked(last, probe_of(before, last)));
        }
    }
}

/// After undeploying, no tracked file is linked to its copy any more.
pub proof fn lemma_undeploy_unlinks(fs: FsModel, pairs: Seq<PairModel>, k: int)
    requires
        0 <= k <= pairs.len(),
    ensures
        forall|i: int|
            0 <= i < k ==> !is_linked(
                #[trigger] pairs[i],
                probe_of(undeploy_upto(fs, pairs, k), pairs[i]),
            ),
    decreases k,
{
    if k > 0 {
        lemma_undeploy_unlinks(fs, pairs, k - 1);
        let before = undeploy_upto(fs, pairs, k - 1);
        let after = undeploy_upto(fs, pairs, k);
        assert forall|i: int| 0 <= i < k implies !is_linked(
            #[trigger] pairs[i],
            probe_of(after, pairs[i]),
        ) by {
            if i < k - 1 {
                assert(!is_linked(pairs[i], probe_of(before, pairs[i])));
            }
        }
    }
}

/// Undeploying changes nothing where no pair is linked.
pub proof fn lemma_undeploy_settled(fs: FsModel, pairs: Seq<PairModel>, k: int)
    requires
        0 <= k <= pairs.len(),
        forall|i: int| 0 <= i < pairs.len() ==> !is_linked(#[trigger] pairs[i], probe_of(fs, pairs[i])),
    ensures
        undeploy_upto(fs, pairs, k) == fs,
    decreases k,
{
    if k > 0 {
        lemma_undeploy_settled(fs, pairs, k - 1);
        assert(!is_linked(pairs[k - 1], probe_of(fs, pairs[k - 1])));
    }
}

/// Undeploying twice is undeploying once: a second undeployment removes
/// nothing.
pub proof fn theorem_undeploy_idempotent(fs: FsModel, pairs: Seq<PairModel>)
    ensures
        forall|i: int|
            0 <= i < pairs.len() ==> !unlink_decision(
                #[trigger] pairs[i],
                probe_of(undeploy_all(fs, pairs), pairs[i]),
            ),
        undeploy_all(undeploy_all(fs, pairs), pairs) == undeploy_all(fs, pairs),
{
    lemma_undeploy_unlinks(fs, pairs, pairs.len() as int);
    lemma_undeploy_settled(undeploy_all(fs, pairs), pairs, pairs.len() as int);
}

/// After a deployment every tracked file is a link to its copy in storage,
/// and after the undeployment that follows nothing stands at any deployed
/// path; this where every copy in storage is there and no two tracked files
/// share a deployed path.
pub proof fn theorem_deploy_then_undeploy(fs: FsModel, pairs: Seq<PairModel>)
    requires
        storage_complete(fs, pairs),
        distinct_deployed(pairs),
    ensures
        forall|i: int|
            0 <= i < pairs.len() ==> deploy_all(fs, pairs).contains_key(
                (#[trigger] pairs[i]).deployed,
            ) && deploy_all(fs, pairs)[pairs[i].deployed] == NodeModel::Link(pairs[i].stored),
        forall|i: int|
            0 <= i < pairs.len() ==> !undeploy_all(deploy_all(fs, pairs), pairs).contains_key(
                (#[trigger] pairs[i]).deployed,
            ),
{
    let up = deploy_all(fs, pairs);
    let down = undeploy_all(up, pairs);
    lemma_deploy_links(fs, pairs, pairs.len() as int);
    assert forall|i: int| 0 <= i < pairs.len() implies up.contains_key(
        (#[trigger] pairs[i]).deployed,
    ) && up[pairs[i].deployed] == NodeModel::Link(pairs[i].stored) by {
        assert(is_linked(pairs[i], probe_of(up, pairs[i])));
    }
    lemma_undeploy_unlinks(up, pairs, pairs.len() as int);
    lemma_undeploy_frame(up, pairs, pairs.len() as int);
    assert forall|i: int| 0 <= i < pairs.len() implies !down.contains_key(
        (#[trigger] pairs[i]).deployed,
    ) by {
        let d = pairs[i].deployed;
        if down.contains_key(d) {
            assert(down[d] == up[d]);
            assert(is_linked(pairs[i], probe_of(down, pairs[i])));
        }
    }
}

/// The file system after an action on a pair was carried out.
pub open spec fn effect(fs: FsModel, pair: PairModel, action: FsAction) -> FsModel {
    match action {
        FsAction::Link | FsAction::Relink => fs.insert(pair.deployed, NodeModel::Link(pair.stored)),
        FsAction::Unlink => fs.remove(pair.deployed),
        FsAction::Restore | FsAction::Replace => fs.insert(pair.deployed, NodeModel::Other),
    }
}

/// One round of a reconciliation against a file system: the caller answers
/// what is asked, truthfully, and every action succeeds.
pub open spec fn round(pairs: Seq<PairModel>, s: RunModel, fs: FsModel) -> (RunModel, FsModel) {
    let pair = pairs[s.at as int];
    match s.stage {
        Stage::Probing | Stage::RestoreProbing => (
            run_step(pairs, s, EventModel::Found(probe_of(fs, pair))),
            fs,
        ),
        Stage::Acting | Stage::RestoreActing => (
            run_step(pairs, s, EventModel::Carried(true)),
            effect(fs, pair, s.action),
        ),
        Stage::Finished => (s, fs),
    }
}

/// So many rounds, one after the other.
pub open spec fn rounds(pairs: Seq<PairModel>, s: RunModel, fs: FsModel, n: nat) -> (RunModel, FsModel)
    decreases n,
{
    if n == 0 {
        (s, fs)
    } else {
        let next = round(pairs, s, fs);
        rounds(pairs, next.0, next.1, (n - 1) as nat)
    }
}

/// A reconciliation that is about to probe the pair at `i`, or is finished
/// if there is no such pair, and has met no failure.
pub open spec fn clean_at(s: RunModel, mode: Mode, i: int, n: int) -> bool {
    &&& s.mode == mode
    &&& s.at == i
    &&& s.stage == if i < n {
        Stage::Probing
    } else {
        Stage::Finished
    }
    &&& s.failure is None
}

/// The file system after the first `k` pairs are handled in the mode.
pub open spec fn handled_upto(mode: Mode, fs: FsModel, pairs: Seq<PairModel>, k: int) -> FsModel {
    match mode {
        Mode::Deploy => deploy_upto(fs, pairs, k),
        Mode::Undeploy => undeploy_upto(fs, pairs, k),
    }
}

/// Rounds from the pair at `i` on bring a reconciliation to its end, with
/// the file system that the model gives.
proof fn lemma_rounds_from(
    mode: Mode,
    pairs: Seq<PairModel>,
    fs: FsModel,
    s: RunModel,
    i: int,
    budget: nat,
)
    requires
        0 <= i <= pairs.len(),
        mode == Mode::Deploy ==> storage_complete(fs, pairs),
        clean_at(s, mode, i, pairs.len() as int),
        budget >= 2 * (pairs.len() - i),
    ensures
        rounds(pairs, s, handled_upto(mode, fs, pairs, i), budget).0.stage == Stage::Finished,
        rounds(pairs, s, handled_upto(mode, fs, pairs, i), budget).0.failure is None,
        rounds(pairs, s, handled_upto(mode, fs, pairs, i), budget).1 == handled_upto(
            mode,
            fs,
            pairs,
            pairs.len() as int,
        ),
    decreases pairs.len() - i,
{
    let n = pairs.len() as int;
    let now = handled_upto(mode, fs, pairs, i);
    if i >= n {
        lemma_rounds_finished(pairs, s, now, budget);
    } else {
        let pair = pairs[i];
        let then = handled_upto(mode, fs, pairs, i + 1);
        if mode == Mode::Deploy {
            lemma_deploy_frame(fs, pairs, i);
            assert(now.contains_key(pair.stored));
        }
        let first = round(pairs, s, now);
        assert(rounds(pairs, s, now, budget) == rounds(
            pairs,
            first.0,
            first.1,
            (budget - 1) as nat,
        ));
        if first.0.stage == Stage::Acting {
            let second = round(pairs, first.0, first.1);
            assert(rounds(pairs, first.0, first.1, (budget - 1) as nat) == rounds(
                pairs,
                second.0,
                second.1,
                (budget - 2) as nat,
            ));
            assert(second.1 == then);
            assert(clean_at(second.0, mode, i + 1, n));
            lemma_rounds_from(mode, pairs, fs, second.0, i + 1, (budget - 2) as nat);
        } else {
            assert(first.1 == then);
            assert(clean_at(first.0, mode, i + 1, n));
            lemma_rounds_from(mode, pairs, fs, first.0, i + 1, (budget - 1) as nat);
        }
    }
}

/// Rounds change nothing once a reconciliation is finished.
proof fn lemma_rounds_finished(pairs: Seq<PairModel>, s: RunModel, fs: FsModel, budget: nat)
    requires
        s.stage == Stage::Finished,
    ensures
        rounds(pairs, s, fs, budget) == (s, fs),
    decreases budget,
{
    if budget > 0 {
        lemma_rounds_finished(pairs, s, fs, (budget - 1) as nat);
    }
}

/// A deployment that is carried out faithfully does what the model says:
/// where every copy in storage is there and every action succeeds, two
/// rounds for each pair bring it to its end without a failure, and the file
/// system is then the one that deploying all pairs gives.
pub proof fn theorem_deployment_follows_model(fs: FsModel, pairs: Seq<PairModel>)
    requires
        storage_complete(fs, pairs),
    ensures
        ({
            let end = rounds(pairs, initial_run(Mode::Deploy, pairs.len()), fs, 2 * pairs.len());
            end.0.stage == Stage::Finished && end.0.failure is None && end.1 == deploy_all(fs, pairs)
        }),
{
    lemma_rounds_from(
        Mode::Deploy,
        pairs,
        fs,
        initial_run(Mode::Deploy, pairs.len()),
        0,
        2 * pairs.len(),
    );
}

/// An undeployment that is carried out faithfully does what the model says:
/// where every action succeeds, two rounds for each pair bring it to its
/// end without a failure, and the file system is then the one that
/// undeploying all pairs gives.
pub proof fn theorem_undeployment_follows_model(fs: FsModel, pairs: Seq<PairModel>)
    ensures
        ({
            let end = rounds(pairs, initial_run(Mode::Undeploy, pairs.len()), fs, 2 * pairs.len());
            end.0.stage == Stage::Finished && end.0.failure is None && end.1 == undeploy_all(
                fs,
                pairs,
            )
        }),
{
    lemma_rounds_from(
        Mode::Undeploy,
        pairs,
        fs,
        initial_run(Mode::Undeploy, pairs.len()),
        0,
        2 * pairs.len(),
    );
}

} // verus!
