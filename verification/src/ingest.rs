//! Taking files into an entry.
//!
//! The caller scans the candidate paths and hands over what it found.  The
//! functions here decide the entry's base directory, which files are taken,
//! where their copies go, and how the entry changes.

use vstd::prelude::*;
use vstd::string::*;
use crate::config::{ConfigEntry, ConfinuumConfig, EntryModel};
use crate::error::{
    Failure,
    FailureModel,
    Wording,
    bare_failure,
    failure_about,
    failure_matches,
};
use crate::path::{
    FilePath,
    PathModel,
    common_path_all,
    common_path_result,
    contains_path,
    common_prefix_all,
    is_absolute,
    is_prefix,
    join_paths,
    lemma_common_prefix_all_bounds,
    lemma_common_prefix_all_longest,
    lemma_common_prefix_all_members,
    lemma_prefix_transitive,
    parent_of,
    parse_path,
    paths_view,
    render_path,
};

verus! {

/// What a scan found at a candidate path.
#[derive(Debug)]
pub enum Found {
    /// The path could not be resolved.
    Unresolved,
    /// The path was resolved, but nothing is there.
    Missing,
    /// A regular file.
    File,
    /// A directory, with what was found at each of its entries.
    Directory(Vec<Candidate>),
}

/// A candidate for ingestion: its resolved path, or the path as given where
/// it could not be resolved, and what was found there.
#[derive(Debug)]
pub struct Candidate {
    pub path: FilePath,
    pub found: Found,
}

/// The files that a walk takes, in order, and the failure that ended it.
pub struct Walk {
    pub sources: Seq<PathModel>,
    pub failure: Option<FailureModel>,
}

/// A walk that took nothing and did not fail.
pub open spec fn empty_walk() -> Walk {
    Walk { sources: Seq::empty(), failure: None }
}

/// A walk that failed at once.
pub open spec fn failed_walk(wording: Wording, at: PathModel) -> Walk {
    Walk { sources: Seq::empty(), failure: Some(failure_about(wording, render_path(at))) }
}

/// The failure of a file that lies outside the base.
pub open spec fn outside_base(at: PathModel, base: PathModel) -> FailureModel {
    FailureModel {
        wording: Wording::OutsideBase,
        subject: render_path(at),
        other: render_path(base),
    }
}

/// A directory of the version control system's own.
pub open spec fn is_git_dir(p: PathModel) -> bool {
    p.len() > 0 && p.last() == ".git"@
}

/// A candidate that the walk passes over: an entry of a directory that is
/// called `.git`, whatever it is.
pub open spec fn passed_over(c: Candidate, inside: bool) -> bool {
    inside && is_git_dir(c.path@)
}

/// The first candidate from `from` on that is not passed over and could not
/// be resolved, or the number of candidates if there is none.  `inside`
/// says whether the candidates are the entries of a directory.
pub open spec fn first_blocked(cands: Seq<Candidate>, from: int, inside: bool) -> int
    decreases cands.len() - from,
{
    if from < 0 || from >= cands.len() {
        cands.len() as int
    } else if !passed_over(cands[from], inside) && cands[from].found is Unresolved {
        from
    } else {
        first_blocked(cands, from + 1, inside)
    }
}

/// The first candidate from `from` on that could not be resolved, or the
/// number of candidates if all of them could.
pub open spec fn first_unresolved(cands: Seq<Candidate>, from: int) -> int {
    first_blocked(cands, from, false)
}

/// The walk of one candidate below `base`: a file is taken if it lies under
/// `base`; a directory gives the walk of its entries, unless it is called
/// `.git`, in which case it gives nothing.
pub open spec fn walk_one(c: Candidate, base: PathModel) -> Walk
    decreases c, 0nat,
{
    match c.found {
        Found::Unresolved => failed_walk(Wording::Unresolved, c.path@),
        Found::Missing => failed_walk(Wording::FileMissing, c.path@),
        Found::File => if is_prefix(base, c.path@) {
            Walk { sources: seq![c.path@], failure: None }
        } else {
            Walk { sources: Seq::empty(), failure: Some(outside_base(c.path@, base)) }
        },
        Found::Directory(children) => if is_git_dir(c.path@) {
            empty_walk()
        } else {
            walk_level(children@, base, true)
        },
    }
}

/// The walk of the candidates given to an ingestion, or of the entries of
/// one directory: it fails before it takes anything if one of them could
/// not be resolved.  Entries called `.git` are passed over.
pub open spec fn walk_level(cands: Seq<Candidate>, base: PathModel, inside: bool) -> Walk
    decreases cands, cands.len() + 1,
{
    let k = first_blocked(cands, 0, inside);
    if 0 <= k < cands.len() {
        failed_walk(Wording::Unresolved, cands[k].path@)
    } else {
        walk_from(cands, 0, base, inside)
    }
}

/// The walk of the candidates from `i` on, one after the other, up to the
/// first failure.
pub open spec fn walk_from(cands: Seq<Candidate>, i: int, base: PathModel, inside: bool) -> Walk
    decreases cands, cands.len() - i,
{
    if i < 0 || i >= cands.len() {
        empty_walk()
    } else if passed_over(cands[i], inside) {
        walk_from(cands, i + 1, base, inside)
    } else {
        let head = walk_one(cands[i], base);
        if head.failure is Some {
            head
        } else {
            let rest = walk_from(cands, i + 1, base, inside);
            Walk { sources: head.sources + rest.sources, failure: rest.failure }
        }
    }
}

/// One file to copy into storage: where it is, where its copy goes, and its
/// path relative to the entry's base directory.
#[derive(Debug)]
pub struct CopyStep {
    pub from: FilePath,
    pub to: FilePath,
    pub rel: FilePath,
}

/// The model of a copy.
pub struct CopyModel {
    pub from: PathModel,
    pub to: PathModel,
    pub rel: PathModel,
}

impl View for CopyStep {
    type V = CopyModel;

    open spec fn view(&self) -> CopyModel {
        CopyModel { from: self.from@, to: self.to@, rel: self.rel@ }
    }
}

/// The models of a list of copies.
pub open spec fn copies_view(v: Seq<CopyStep>) -> Seq<CopyModel> {
    Seq::new(v.len(), |i: int| v[i]@)
}

/// The copy of `source`, which lies under `base`, into `storage`.
pub open spec fn copy_of(source: PathModel, base: PathModel, storage: PathModel) -> CopyModel {
    let rel = source.skip(base.len() as int);
    CopyModel { from: source, to: join_paths(storage, rel), rel }
}

/// The copies of `sources`, in order.
pub open spec fn planned_copies(sources: Seq<PathModel>, base: PathModel, storage: PathModel) -> Seq<
    CopyModel,
> {
    Seq::new(sources.len(), |i: int| copy_of(sources[i], base, storage))
}

/// The relative paths of `sources`, in order.
pub open spec fn relative_paths(sources: Seq<PathModel>, base: PathModel) -> Seq<PathModel> {
    Seq::new(sources.len(), |i: int| sources[i].skip(base.len() as int))
}

/// Where the first unresolved candidate stands, if there is one.
pub fn find_unresolved(cands: &Vec<Candidate>) -> (r: Option<usize>)
    ensures
        r is Some <==> 0 <= first_unresolved(cands@, 0) < cands@.len(),
        r is Some ==> r->0 == first_unresolved(cands@, 0),
{
    find_blocked(cands, false)
}

/// Where the first candidate stands that is not passed over and could not
/// be resolved, if there is one.
pub fn find_blocked(cands: &Vec<Candidate>, inside: bool) -> (r: Option<usize>)
    ensures
        r is Some <==> 0 <= first_blocked(cands@, 0, inside) < cands@.len(),
        r is Some ==> r->0 == first_blocked(cands@, 0, inside),
{
    let mut i: usize = 0;
    while i < cands.len()
        invariant
            i <= cands@.len(),
            first_blocked(cands@, 0, inside) == first_blocked(cands@, i as int, inside),
        decreases cands@.len() - i,
    {
        if let Found::Unresolved = cands[i].found {
            if !(inside && cands[i].path.ends_with_name(".git")) {
                return Some(i);
            }
        }
        i += 1;
    }
    None
}

/// The failure at `path`, told in the given sentence.
fn failure_at(wording: Wording, path: &FilePath) -> (r: Failure)
    ensures
        r@ == failure_about(wording, render_path(path@)),
{
    Failure::new(wording, path.to_string())
}

/// Walks one candidate and appends the copies of the files it takes to
/// `out`.
pub fn walk_candidate(
    c: &Candidate,
    base: &FilePath,
    storage: &FilePath,
    out: &mut Vec<CopyStep>,
) -> (r: Option<Failure>)
    ensures
        copies_view(final(out)@) == copies_view(old(out)@) + planned_copies(
            walk_one(*c, base@).sources,
            base@,
            storage@,
        ),
        failure_matches(walk_one(*c, base@).failure, r),
    decreases c, 0nat,
{
    let ghost none = planned_copies(Seq::<PathModel>::empty(), base@, storage@);
    assert(copies_view(out@) + none =~= copies_view(out@));
    match &c.found {
        Found::Unresolved => Some(failure_at(Wording::Unresolved, &c.path)),
        Found::Missing => Some(failure_at(Wording::FileMissing, &c.path)),
        Found::File => {
            match c.path.strip_prefix(base) {
                Some(rel) => {
                    let ghost before = copies_view(out@);
                    let to = storage.join(&rel);
                    out.push(CopyStep { from: c.path.clone(), to, rel });
                    assert(copies_view(out@) =~= before + planned_copies(
                        seq![c.path@],
                        base@,
                        storage@,
                    ));
                    None
                },
                None => Some(
                    Failure::naming(Wording::OutsideBase, c.path.to_string(), base.to_string()),
                ),
            }
        },
        Found::Directory(children) => {
            if c.path.ends_with_name(".git") {
                None
            } else {
                walk_candidates(children, base, storage, out, true)
            }
        },
    }
}

/// Walks the candidates given to an ingestion, or the entries of one
/// directory, and appends the copies of the files it takes to `out`.
pub fn walk_candidates(
    cands: &Vec<Candidate>,
    base: &FilePath,
    storage: &FilePath,
    out: &mut Vec<CopyStep>,
    inside: bool,
) -> (r: Option<Failure>)
    ensures
        copies_view(final(out)@) == copies_view(old(out)@) + planned_copies(
            walk_level(cands@, base@, inside).sources,
            base@,
            storage@,
        ),
        failure_matches(walk_level(cands@, base@, inside).failure, r),
    decreases cands, 1nat,
{
    let ghost start = copies_view(out@);
    assert(start + planned_copies(Seq::<PathModel>::empty(), base@, storage@) =~= start);
    if let Some(k) = find_blocked(cands, inside) {
        return Some(failure_at(Wording::Unresolved, &cands[k].path));
    }
    let ghost whole = walk_from(cands@, 0, base@, inside);
    let mut i: usize = 0;
    let ghost mut taken: Seq<PathModel> = Seq::empty();
    while i < cands.len()
        invariant
            i <= cands@.len(),
            whole == walk_from(cands@, 0, base@, inside),
            whole == walk_level(cands@, base@, inside),
            start == copies_view(old(out)@),
            copies_view(out@) == start + planned_copies(taken, base@, storage@),
            whole.sources == taken + walk_from(cands@, i as int, base@, inside).sources,
            whole.failure == walk_from(cands@, i as int, base@, inside).failure,
        decreases cands@.len() - i,
    {
        if !(inside && cands[i].path.ends_with_name(".git")) {
            let ghost head = walk_one(cands@[i as int], base@);
            let ghost rest = walk_from(cands@, i as int + 1, base@, inside);
            let failed = walk_candidate(&cands[i], base, storage, out);
            proof {
                assert((start + planned_copies(taken, base@, storage@)) + planned_copies(
                    head.sources,
                    base@,
                    storage@,
                ) =~= start + planned_copies(taken + head.sources, base@, storage@));
                assert((taken + head.sources) + rest.sources =~= taken + (head.sources
                    + rest.sources));
                taken = taken + head.sources;
            }
            if failed.is_some() {
                return failed;
            }
        }
        i += 1;
    }
    proof {
        assert(taken + Seq::<PathModel>::empty() =~= taken);
    }
    None
}

/// The directory that a file lies in; the file itself where it has none.
pub open spec fn anchor_of_file(p: PathModel) -> PathModel {
    match parent_of(p) {
        Some(d) => d,
        None => p,
    }
}

/// The directory that a candidate speaks for: itself if it is a directory,
/// else the directory it lies in.
pub open spec fn anchor_of(c: Candidate) -> PathModel {
    if c.found is Directory {
        c.path@
    } else {
        anchor_of_file(c.path@)
    }
}

/// Where the tracked files of an entry are deployed, in order.
pub open spec fn deployed_paths(e: EntryModel) -> Seq<PathModel> {
    match e.target_dir {
        Some(d) => Seq::new(e.files.len(), |i: int| join_paths(d, e.files[i])),
        None => Seq::empty(),
    }
}

/// The directories that the base of an ingestion must contain: those of the
/// files tracked so far, then those of the candidates.
pub open spec fn ingest_anchors(e: EntryModel, cands: Seq<Candidate>) -> Seq<PathModel> {
    Seq::new(deployed_paths(e).len(), |i: int| anchor_of_file(deployed_paths(e)[i])) + Seq::new(
        cands.len(),
        |i: int| anchor_of(cands[i]),
    )
}

/// The base directory of an ingestion: the lowest common ancestor of the
/// anchors, if there is one and it is absolute.
pub open spec fn ingest_base(e: EntryModel, cands: Seq<Candidate>) -> Option<PathModel> {
    match common_path_result(ingest_anchors(e, cands)) {
        Some(b) => if is_absolute(b) {
            Some(b)
        } else {
            None
        },
        None => None,
    }
}

/// The directory that holds the tracked copies of the entry called `name`.
pub open spec fn storage_dir(config_dir: PathModel, name: Seq<char>) -> PathModel {
    join_paths(config_dir, parse_path(name))
}

/// The tracked files of `e`, each expressed relative to `base` in place of
/// the entry's base directory.
pub open spec fn rebased(e: EntryModel, base: PathModel) -> Seq<PathModel> {
    match e.target_dir {
        Some(d) => Seq::new(e.files.len(), |i: int| join_paths(d, e.files[i]).skip(base.len() as int)),
        None => e.files,
    }
}

/// What an ingestion comes to.
pub struct IngestModel {
    /// The failure that ended it, with what it is about.
    pub failure: Option<FailureModel>,
    /// The copies to make, in order; after a failure, those that precede it.
    pub copies: Seq<CopyModel>,
    /// The entry's base directory afterwards.
    pub target_dir: Option<PathModel>,
    /// The entry's tracked files afterwards.
    pub files: Set<PathModel>,
    /// The relative paths that were taken.
    pub added: Set<PathModel>,
}

/// An ingestion that failed: the entry stays as it was.
pub open spec fn failed_ingest(e: EntryModel, failure: FailureModel, copies: Seq<CopyModel>) -> IngestModel {
    IngestModel {
        failure: Some(failure),
        copies,
        target_dir: e.target_dir,
        files: e.files.to_set(),
        added: Set::empty(),
    }
}

/// What taking `cands` into `e` comes to, with storage below `config_dir`.
///
/// A candidate that could not be resolved fails the ingestion before
/// anything else; so does the lack of an absolute common base.  Otherwise
/// the candidates are walked, and each file taken is copied to storage under
/// its path relative to the base.  If the walk fails, the copies before the
/// failure remain and the entry is unchanged.  If it succeeds, the entry's
/// base directory is the new base, its former files are expressed relative
/// to it, and the files taken are added.
pub open spec fn ingest_model(e: EntryModel, cands: Seq<Candidate>, config_dir: PathModel) -> IngestModel {
    let k = first_unresolved(cands, 0);
    if 0 <= k < cands.len() {
        failed_ingest(
            e,
            failure_about(Wording::Unresolved, render_path(cands[k].path@)),
            Seq::empty(),
        )
    } else {
        match ingest_base(e, cands) {
            None => failed_ingest(e, bare_failure(Wording::NoCommonBase), Seq::empty()),
            Some(base) => {
                let walk = walk_level(cands, base, false);
                let copies = planned_copies(walk.sources, base, storage_dir(config_dir, e.name));
                match walk.failure {
                    Some(failure) => failed_ingest(e, failure, copies),
                    None => IngestModel {
                        failure: None,
                        copies,
                        target_dir: Some(base),
                        files: rebased(e, base).to_set() + relative_paths(walk.sources, base).to_set(),
                        added: relative_paths(walk.sources, base).to_set(),
                    },
                }
            },
        }
    }
}

/// What an ingestion did: the copies to make, the relative paths that were
/// taken, each once, and the failure that ended it, if any.
#[derive(Debug)]
pub struct Ingestion {
    pub copies: Vec<CopyStep>,
    pub added: Vec<FilePath>,
    pub failure: Option<Failure>,
}

/// The directory that a file lies in; the file itself where it has none.
pub fn file_anchor(p: &FilePath) -> (r: FilePath)
    ensures
        r@ == anchor_of_file(p@),
{
    match p.parent() {
        Some(d) => d,
        None => p.clone(),
    }
}

impl ConfinuumConfig {
    /// Takes the candidates into `entry`, with storage below `config_dir`.
    /// The caller makes the copies in order, whether or not the ingestion
    /// failed.
    pub fn add_files_recursive(
        entry: &mut ConfigEntry,
        files: &Vec<Candidate>,
        config_dir: &FilePath,
    ) -> (r: Ingestion)
        ensures
            failure_matches(ingest_model(old(entry)@, files@, config_dir@).failure, r.failure),
            copies_view(r.copies@) == ingest_model(old(entry)@, files@, config_dir@).copies,
            paths_view(r.added@).to_set() == ingest_model(old(entry)@, files@, config_dir@).added,
            paths_view(r.added@).no_duplicates(),
            final(entry)@.name == old(entry)@.name,
            final(entry)@.target_dir == ingest_model(old(entry)@, files@, config_dir@).target_dir,
            final(entry)@.files.to_set() == ingest_model(old(entry)@, files@, config_dir@).files,
            r.failure is Some ==> final(entry)@ == old(entry)@,
    {
        let ghost e0 = entry@;
        let ghost model = ingest_model(e0, files@, config_dir@);
        if let Some(k) = find_unresolved(files) {
            let failure = failure_at(Wording::Unresolved, &files[k].path);
            let r = Ingestion { copies: Vec::new(), added: Vec::new(), failure: Some(failure) };
            assert(copies_view(r.copies@) =~= Seq::<CopyModel>::empty());
            assert(paths_view(r.added@).to_set() =~= Set::<PathModel>::empty());
            return r;
        }
        let anchors = Self::anchors(entry, files);
        let found = common_path_all(&anchors);
        let base = match found {
            Some(b) => if b.is_absolute() {
                b
            } else {
                let r = Ingestion {
                    copies: Vec::new(),
                    added: Vec::new(),
                    failure: Some(Failure::bare(Wording::NoCommonBase)),
                };
                assert(copies_view(r.copies@) =~= Seq::<CopyModel>::empty());
                assert(paths_view(r.added@).to_set() =~= Set::<PathModel>::empty());
                return r;
            },
            None => {
                let r = Ingestion {
                    copies: Vec::new(),
                    added: Vec::new(),
                    failure: Some(Failure::bare(Wording::NoCommonBase)),
                };
                assert(copies_view(r.copies@) =~= Seq::<CopyModel>::empty());
                assert(paths_view(r.added@).to_set() =~= Set::<PathModel>::empty());
                return r;
            },
        };
        assert(ingest_base(e0, files@) == Some(base@));
        let storage = config_dir.join(&FilePath::parse(entry.name().as_str()));
        let mut copies: Vec<CopyStep> = Vec::new();
        assert(copies_view(copies@) =~= Seq::<CopyModel>::empty());
        let failed = walk_candidates(files, &base, &storage, &mut copies, false);
        let ghost walk = walk_level(files@, base@, false);
        assert(copies_view(copies@) =~= planned_copies(walk.sources, base@, storage@));
        if failed.is_some() {
            let r = Ingestion { copies, added: Vec::new(), failure: failed };
            assert(paths_view(r.added@).to_set() =~= Set::<PathModel>::empty());
            return r;
        }
        let ghost rels = relative_paths(walk.sources, base@);
        assert forall|j: int| 0 <= j < rels.len() implies copies@[j]@.rel == #[trigger] rels[j] by {
            assert(copies_view(copies@)[j] == planned_copies(walk.sources, base@, storage@)[j]);
        }
        let mut all = Self::rebase(entry, &base, Ghost(files@));
        let ghost old_part = paths_view(all@);
        let mut added: Vec<FilePath> = Vec::new();
        assert(paths_view(added@) =~= Seq::<PathModel>::empty());
        assert(rels.take(0) =~= Seq::<PathModel>::empty());
        assert(old_part + rels.take(0) =~= old_part);
        let mut i: usize = 0;
        while i < copies.len()
            invariant
                i <= copies@.len(),
                copies@.len() == rels.len(),
                forall|j: int| 0 <= j < rels.len() ==> copies@[j]@.rel == #[trigger] rels[j],
                paths_view(all@) == old_part + rels.take(i as int),
                paths_view(added@).to_set() == rels.take(i as int).to_set(),
                paths_view(added@).no_duplicates(),
            decreases copies@.len() - i,
        {
            let rel = &copies[i].rel;
            let ghost all_before = paths_view(all@);
            let ghost added_before = paths_view(added@);
            all.push(rel.clone());
            proof {
                assert(rels.take(i as int + 1) =~= rels.take(i as int).push(rels[i as int]));
                assert(paths_view(all@) =~= all_before.push(rels[i as int]));
                assert(all_before.push(rels[i as int]) =~= old_part + rels.take(i as int + 1));
                rels.take(i as int).lemma_push_to_set_commute(rels[i as int]);
            }
            if !contains_path(&added, rel) {
                added.push(rel.clone());
                proof {
                    assert(paths_view(added@) =~= added_before.push(rels[i as int]));
                    added_before.lemma_push_to_set_commute(rels[i as int]);
                    assert forall|a: int, b: int|
                        0 <= a < paths_view(added@).len() && 0 <= b < paths_view(added@).len() && a
                            != b implies paths_view(added@)[a] != paths_view(added@)[b] by {
                        if a < added_before.len() && b < added_before.len() {
                            assert(paths_view(added@)[a] == added_before[a]);
                            assert(paths_view(added@)[b] == added_before[b]);
                        } else if a < added_before.len() {
                            assert(paths_view(added@)[a] == added_before[a]);
                            assert(added_before.contains(added_before[a]));
                        } else {
                            assert(paths_view(added@)[b] == added_before[b]);
                            assert(added_before.contains(added_before[b]));
                        }
                    }
                }
            } else {
                proof {
                    assert(added_before.to_set().contains(rels[i as int]));
                    assert(added_before.to_set().insert(rels[i as int]) =~= added_before.to_set());
                }
            }
            i += 1;
        }
        proof {
            assert(rels.take(i as int) =~= rels);
            vstd::seq_lib::seq_to_set_distributes_over_add(old_part, rels);
        }
        entry.set_files(&all);
        entry.set_target_dir(base);
        Ingestion { copies, added, failure: None }
    }

    /// The anchors of an ingestion.
    fn anchors(entry: &ConfigEntry, files: &Vec<Candidate>) -> (r: Vec<FilePath>)
        ensures
            paths_view(r@) == ingest_anchors(entry@, files@),
    {
        let mut out: Vec<FilePath> = Vec::new();
        let ghost first = Seq::new(
            deployed_paths(entry@).len(),
            |i: int| anchor_of_file(deployed_paths(entry@)[i]),
        );
        let ghost second = Seq::new(files@.len(), |i: int| anchor_of(files@[i]));
        assert(paths_view(out@) =~= first.take(0));
        if let Some(dir) = entry.target_dir() {
            let mut i: usize = 0;
            while i < entry.file_count()
                invariant
                    i <= entry@.files.len(),
                    entry@.target_dir == Some(dir@),
                    first == Seq::new(
                        deployed_paths(entry@).len(),
                        |i: int| anchor_of_file(deployed_paths(entry@)[i]),
                    ),
                    paths_view(out@) == first.take(i as int),
                decreases entry@.files.len() - i,
            {
                let ghost before = paths_view(out@);
                let deployed = dir.join(entry.file(i));
                out.push(file_anchor(&deployed));
                assert(paths_view(out@) =~= before.push(first[i as int]));
                assert(before.push(first[i as int]) =~= first.take(i as int + 1));
                i += 1;
            }
            assert(first.take(i as int) =~= first);
        } else {
            assert(first =~= Seq::<PathModel>::empty());
            assert(first.take(0) =~= first);
        }
        let mut j: usize = 0;
        assert(first + second.take(0) =~= first);
        while j < files.len()
            invariant
                j <= files@.len(),
                second == Seq::new(files@.len(), |i: int| anchor_of(files@[i])),
                paths_view(out@) == first + second.take(j as int),
            decreases files@.len() - j,
        {
            let ghost before = paths_view(out@);
            let c = &files[j];
            let anchor = match c.found {
                Found::Directory(_) => c.path.clone(),
                _ => file_anchor(&c.path),
            };
            out.push(anchor);
            assert(paths_view(out@) =~= before.push(second[j as int]));
            assert(before.push(second[j as int]) =~= first + second.take(j as int + 1));
            j += 1;
        }
        assert(second.take(j as int) =~= second);
        out
    }

    /// The tracked files of `entry`, each expressed relative to `base`,
    /// which is the base of an ingestion into `entry`.
    fn rebase(entry: &ConfigEntry, base: &FilePath, Ghost(cands): Ghost<Seq<Candidate>>) -> (r:
        Vec<FilePath>)
        requires
            ingest_base(entry@, cands) == Some(base@),
        ensures
            paths_view(r@) == rebased(entry@, base@),
    {
        let mut out: Vec<FilePath> = Vec::new();
        let ghost want = rebased(entry@, base@);
        let n = entry.file_count();
        let mut i: usize = 0;
        assert(paths_view(out@) =~= want.take(0));
        while i < n
            invariant
                n == entry@.files.len(),
                i <= n,
                want == rebased(entry@, base@),
                want.len() == n,
                ingest_base(entry@, cands) == Some(base@),
                paths_view(out@) == want.take(i as int),
            decreases n - i,
        {
            let ghost before = paths_view(out@);
            let rel = match entry.target_dir() {
                None => entry.file(i).clone(),
                Some(dir) => {
                    let deployed = dir.join(entry.file(i));
                    proof {
                        let anchors = ingest_anchors(entry@, cands);
                        assert(base@ == common_prefix_all(anchors));
                        lemma_common_prefix_all_bounds(anchors, i as int);
                        assert(anchors[i as int] == anchor_of_file(deployed@));
                        lemma_anchor_is_prefix(deployed@);
                        lemma_prefix_transitive(base@, anchors[i as int], deployed@);
                    }
                    match deployed.strip_prefix(base) {
                        Some(rel) => rel,
                        None => deployed,
                    }
                },
            };
            out.push(rel);
            assert(paths_view(out@) =~= before.push(want[i as int]));
            assert(before.push(want[i as int]) =~= want.take(i as int + 1));
            i += 1;
        }
        assert(want.take(i as int) =~= want);
        out
    }
}

/// The anchor of a file is a beginning of its path.
pub proof fn lemma_anchor_is_prefix(p: PathModel)
    ensures
        is_prefix(anchor_of_file(p), p),
{
    match parent_of(p) {
        Some(d) => {
            assert(p.take(d.len() as int) =~= p.drop_last());
        },
        None => {
            assert(p.take(p.len() as int) =~= p);
        },
    }
}

/// Every file that the walk of a candidate takes lies under the base.
pub proof fn lemma_walk_one_under_base(c: Candidate, base: PathModel)
    ensures
        forall|i: int|
            0 <= i < walk_one(c, base).sources.len() ==> is_prefix(
                base,
                #[trigger] walk_one(c, base).sources[i],
            ),
    decreases c, 0nat,
{
    match c.found {
        Found::Directory(children) => {
            if !is_git_dir(c.path@) {
                lemma_walk_level_under_base(children@, base, true);
            }
        },
        _ => {},
    }
}

/// Every file that the walk of a directory's entries takes lies under the
/// base.
pub proof fn lemma_walk_level_under_base(cands: Seq<Candidate>, base: PathModel, inside: bool)
    ensures
        forall|i: int|
            0 <= i < walk_level(cands, base, inside).sources.len() ==> is_prefix(
                base,
                #[trigger] walk_level(cands, base, inside).sources[i],
            ),
    decreases cands, cands.len() + 1,
{
    lemma_walk_from_under_base(cands, 0, base, inside);
}

/// Every file that the walk of the candidates from `k` on takes lies under
/// the base.
pub proof fn lemma_walk_from_under_base(
    cands: Seq<Candidate>,
    k: int,
    base: PathModel,
    inside: bool,
)
    ensures
        forall|i: int|
            0 <= i < walk_from(cands, k, base, inside).sources.len() ==> is_prefix(
                base,
                #[trigger] walk_from(cands, k, base, inside).sources[i],
            ),
    decreases cands, cands.len() - k,
{
    if 0 <= k < cands.len() {
        let head = walk_one(cands[k], base);
        lemma_walk_one_under_base(cands[k], base);
        if passed_over(cands[k], inside) {
            lemma_walk_from_under_base(cands, k + 1, base, inside);
        } else if head.failure is None {
            let rest = walk_from(cands, k + 1, base, inside);
            lemma_walk_from_under_base(cands, k + 1, base, inside);
            let all = walk_from(cands, k, base, inside).sources;
            assert forall|i: int| 0 <= i < all.len() implies is_prefix(base, #[trigger] all[i]) by {
                if i < head.sources.len() {
                    assert(all[i] == head.sources[i]);
                } else {
                    assert(all[i] == rest.sources[i - head.sources.len()]);
                }
            }
        }
    }
}

/// The base of an ingestion is the lowest common ancestor of the anchors:
/// it contains the directory of every file tracked so far and of every
/// candidate, and every directory that contains them all contains it.
pub proof fn theorem_base_is_lowest_common_ancestor(
    e: EntryModel,
    cands: Seq<Candidate>,
    other: PathModel,
)
    requires
        ingest_base(e, cands) is Some,
    ensures
        forall|i: int|
            0 <= i < ingest_anchors(e, cands).len() ==> is_prefix(
                ingest_base(e, cands)->0,
                #[trigger] ingest_anchors(e, cands)[i],
            ),
        (forall|i: int|
            0 <= i < ingest_anchors(e, cands).len() ==> is_prefix(
                other,
                #[trigger] ingest_anchors(e, cands)[i],
            )) ==> is_prefix(other, ingest_base(e, cands)->0),
{
    let anchors = ingest_anchors(e, cands);
    assert(ingest_base(e, cands)->0 == common_prefix_all(anchors));
    assert forall|i: int| 0 <= i < anchors.len() implies is_prefix(
        common_prefix_all(anchors),
        #[trigger] anchors[i],
    ) by {
        lemma_common_prefix_all_bounds(anchors, i);
    }
    if forall|i: int| 0 <= i < anchors.len() ==> is_prefix(other, #[trigger] anchors[i]) {
        lemma_common_prefix_all_longest(anchors, other);
    }
}

/// An ingestion moves no file: each file taken is deployed where it was
/// found, and each file tracked so far stays deployed where it was, though
/// its relative path may be rewritten.
pub proof fn theorem_ingest_keeps_locations(
    e: EntryModel,
    cands: Seq<Candidate>,
    config_dir: PathModel,
)
    requires
        ingest_base(e, cands) is Some,
    ensures
        forall|i: int|
            0 <= i < ingest_model(e, cands, config_dir).copies.len() ==> ingest_base(e, cands)->0 + (
            #[trigger] ingest_model(e, cands, config_dir).copies[i]).rel == ingest_model(
                e,
                cands,
                config_dir,
            ).copies[i].from,
        e.target_dir is Some ==> forall|i: int|
            0 <= i < e.files.len() ==> ingest_base(e, cands)->0 + #[trigger] rebased(
                e,
                ingest_base(e, cands)->0,
            )[i] == join_paths(e.target_dir->0, e.files[i]),
{
    let base = ingest_base(e, cands)->0;
    let model = ingest_model(e, cands, config_dir);
    let walk = walk_level(cands, base, false);
    lemma_walk_level_under_base(cands, base, false);
    assert forall|i: int| 0 <= i < model.copies.len() implies base + (
    #[trigger] model.copies[i]).rel == model.copies[i].from by {
        let source = walk.sources[i];
        assert(is_prefix(base, source));
        assert(base + source.skip(base.len() as int) =~= source);
    }
    if e.target_dir is Some {
        let anchors = ingest_anchors(e, cands);
        assert(base == common_prefix_all(anchors));
        assert forall|i: int| 0 <= i < e.files.len() implies base + #[trigger] rebased(e, base)[i]
            == join_paths(e.target_dir->0, e.files[i]) by {
            let deployed = join_paths(e.target_dir->0, e.files[i]);
            lemma_common_prefix_all_bounds(anchors, i);
            assert(anchors[i] == anchor_of_file(deployed));
            lemma_anchor_is_prefix(deployed);
            lemma_prefix_transitive(base, anchors[i], deployed);
            assert(base + deployed.skip(base.len() as int) =~= deployed);
        }
    }
}

/// The base is stable under growth: where the base of an ingestion is the
/// entry's base directory, the relative paths of the files tracked so far
/// are unchanged.
pub proof fn theorem_base_stable(e: EntryModel, cands: Seq<Candidate>)
    requires
        e.target_dir is Some,
        ingest_base(e, cands) == e.target_dir,
        forall|i: int| 0 <= i < e.files.len() ==> !is_absolute(#[trigger] e.files[i]),
    ensures
        rebased(e, e.target_dir->0) == e.files,
{
    let d = e.target_dir->0;
    assert forall|i: int| 0 <= i < e.files.len() implies #[trigger] rebased(e, d)[i]
        == e.files[i] by {
        assert((d + e.files[i]).skip(d.len() as int) =~= e.files[i]);
    }
    assert(rebased(e, d) =~= e.files);
}

/// Every candidate of `a` is among `b`, and every candidate of `b` among
/// `a`.
pub open spec fn same_candidates(a: Seq<Candidate>, b: Seq<Candidate>) -> bool {
    &&& forall|i: int| 0 <= i < a.len() ==> b.contains(#[trigger] a[i])
    &&& forall|j: int| 0 <= j < b.len() ==> a.contains(#[trigger] b[j])
}

/// No candidate from `from` on blocks the walk just when each of them is
/// passed over or was resolved.
pub proof fn lemma_first_blocked(cands: Seq<Candidate>, from: int, inside: bool)
    requires
        0 <= from <= cands.len(),
    ensures
        first_blocked(cands, from, inside) >= from,
        first_blocked(cands, from, inside) >= cands.len() <==> forall|k: int|
            from <= k < cands.len() ==> passed_over(#[trigger] cands[k], inside)
                || !(cands[k].found is Unresolved),
    decreases cands.len() - from,
{
    if from < cands.len() {
        lemma_first_blocked(cands, from + 1, inside);
        if first_blocked(cands, from, inside) >= cands.len() {
            assert forall|k: int| from <= k < cands.len() implies passed_over(
                #[trigger] cands[k],
                inside,
            ) || !(cands[k].found is Unresolved) by {
                if k > from {
                    assert(from + 1 <= k);
                }
            }
        }
    }
}

/// A walk of candidates succeeds just when the walk of each candidate that
/// is not passed over succeeds, and it then takes just the files that those
/// walks take.
pub proof fn lemma_walk_from_members(cands: Seq<Candidate>, i: int, base: PathModel, inside: bool)
    requires
        0 <= i <= cands.len(),
    ensures
        walk_from(cands, i, base, inside).failure is None <==> forall|k: int|
            i <= k < cands.len() ==> passed_over(#[trigger] cands[k], inside) || walk_one(
                cands[k],
                base,
            ).failure is None,
        walk_from(cands, i, base, inside).failure is None ==> forall|p: PathModel|
            #[trigger] walk_from(cands, i, base, inside).sources.contains(p) <==> exists|k: int|
                i <= k < cands.len() && !passed_over(#[trigger] cands[k], inside) && walk_one(
                    cands[k],
                    base,
                ).sources.contains(p),
    decreases cands.len() - i,
{
    if i < cands.len() {
        lemma_walk_from_members(cands, i + 1, base, inside);
        let whole = walk_from(cands, i, base, inside);
        let rest = walk_from(cands, i + 1, base, inside);
        let head = walk_one(cands[i], base);
        let skip = passed_over(cands[i], inside);
        if whole.failure is None {
            assert forall|k: int| i <= k < cands.len() implies passed_over(
                #[trigger] cands[k],
                inside,
            ) || walk_one(cands[k], base).failure is None by {
                if k > i {
                    assert(i + 1 <= k);
                }
            }
            assert forall|p: PathModel| #[trigger]
                whole.sources.contains(p) <==> exists|k: int|
                    i <= k < cands.len() && !passed_over(#[trigger] cands[k], inside) && walk_one(
                        cands[k],
                        base,
                    ).sources.contains(p) by {
                if whole.sources.contains(p) {
                    let at = choose|at: int| 0 <= at < whole.sources.len() && whole.sources[at] == p;
                    if !skip && at < head.sources.len() {
                        assert(head.sources[at] == p);
                        assert(head.sources.contains(p));
                        assert(!passed_over(cands[i], inside));
                    } else {
                        if skip {
                            assert(rest.sources[at] == p);
                        } else {
                            assert(rest.sources[at - head.sources.len()] == p);
                        }
                        assert(rest.sources.contains(p));
                        let k = choose|k: int|
                            i + 1 <= k < cands.len() && !passed_over(#[trigger] cands[k], inside)
                                && walk_one(cands[k], base).sources.contains(p);
                        assert(i <= k < cands.len() && !passed_over(cands[k], inside));
                    }
                }
                if exists|k: int|
                    i <= k < cands.len() && !passed_over(#[trigger] cands[k], inside) && walk_one(
                        cands[k],
                        base,
                    ).sources.contains(p) {
                    let k = choose|k: int|
                        i <= k < cands.len() && !passed_over(#[trigger] cands[k], inside)
                            && walk_one(cands[k], base).sources.contains(p);
                    if k == i {
                        let at = choose|at: int|
                            0 <= at < head.sources.len() && head.sources[at] == p;
                        assert(whole.sources[at] == p);
                    } else {
                        assert(i + 1 <= k < cands.len() && !passed_over(cands[k], inside));
                        assert(rest.sources.contains(p));
                        let at = choose|at: int|
                            0 <= at < rest.sources.len() && rest.sources[at] == p;
                        if skip {
                            assert(whole.sources[at] == p);
                        } else {
                            assert(whole.sources[head.sources.len() + at] == p);
                        }
                    }
                }
            }
        } else {
            if forall|k: int|
                i <= k < cands.len() ==> passed_over(#[trigger] cands[k], inside) || walk_one(
                    cands[k],
                    base,
                ).failure is None {
                assert(passed_over(cands[i], inside) || walk_one(cands[i], base).failure is None);
                assert forall|k: int| i + 1 <= k < cands.len() implies passed_over(
                    #[trigger] cands[k],
                    inside,
                ) || walk_one(cands[k], base).failure is None by {
                    assert(i <= k);
                }
            }
        }
    }
}

/// The order of the candidates does not matter to an ingestion that
/// succeeds: the same candidates in another order, or given more than once,
/// succeed as well and give the same base directory, the same tracked files
/// and the same files added.
pub proof fn theorem_ingest_ignores_order(
    e: EntryModel,
    first: Seq<Candidate>,
    second: Seq<Candidate>,
    config_dir: PathModel,
)
    requires
        same_candidates(first, second),
        ingest_model(e, first, config_dir).failure is None,
    ensures
        ingest_model(e, second, config_dir).failure is None,
        ingest_model(e, second, config_dir).target_dir == ingest_model(
            e,
            first,
            config_dir,
        ).target_dir,
        ingest_model(e, second, config_dir).files == ingest_model(e, first, config_dir).files,
        ingest_model(e, second, config_dir).added == ingest_model(e, first, config_dir).added,
{
    lemma_first_blocked(first, 0, false);
    lemma_first_blocked(second, 0, false);
    assert(first_blocked(first, 0, false) >= first.len());
    assert forall|k: int| 0 <= k < second.len() implies passed_over(#[trigger] second[k], false)
        || !(second[k].found is Unresolved) by {
        assert(first.contains(second[k]));
        let i = choose|i: int| 0 <= i < first.len() && first[i] == second[k];
        assert(passed_over(first[i], false) || !(first[i].found is Unresolved));
    }
    let base = ingest_base(e, first)->0;
    let a = ingest_anchors(e, first);
    let b = ingest_anchors(e, second);
    let old = deployed_paths(e).len() as int;
    assert(a.len() > 0);
    assert forall|i: int| 0 <= i < a.len() implies b.contains(#[trigger] a[i]) by {
        if i < old {
            assert(b[i] == a[i]);
        } else {
            assert(second.contains(first[i - old]));
            let j = choose|j: int| 0 <= j < second.len() && second[j] == first[i - old];
            assert(b[old + j] == a[i]);
        }
    }
    assert forall|j: int| 0 <= j < b.len() implies a.contains(#[trigger] b[j]) by {
        if j < old {
            assert(a[j] == b[j]);
        } else {
            assert(first.contains(second[j - old]));
            let i = choose|i: int| 0 <= i < first.len() && first[i] == second[j - old];
            assert(a[old + i] == b[j]);
        }
    }
    if b.len() == 0 {
        assert(b.contains(a[0]));
    }
    lemma_common_prefix_all_members(a, b);
    assert(ingest_base(e, second) == Some(base));
    let one = walk_level(first, base, false);
    let two = walk_level(second, base, false);
    lemma_walk_from_members(first, 0, base, false);
    lemma_walk_from_members(second, 0, base, false);
    assert forall|k: int| 0 <= k < second.len() implies passed_over(#[trigger] second[k], false)
        || walk_one(second[k], base).failure is None by {
        assert(first.contains(second[k]));
        let i = choose|i: int| 0 <= i < first.len() && first[i] == second[k];
        assert(passed_over(first[i], false) || walk_one(first[i], base).failure is None);
    }
    assert(two.failure is None);
    assert forall|p: PathModel| one.sources.contains(p) <==> two.sources.contains(p) by {
        if one.sources.contains(p) {
            let i = choose|i: int|
                0 <= i < first.len() && !passed_over(#[trigger] first[i], false) && walk_one(
                    first[i],
                    base,
                ).sources.contains(p);
            assert(second.contains(first[i]));
            let j = choose|j: int| 0 <= j < second.len() && second[j] == first[i];
            assert(!passed_over(second[j], false) && walk_one(second[j], base).sources.contains(p));
        }
        if two.sources.contains(p) {
            let j = choose|j: int|
                0 <= j < second.len() && !passed_over(#[trigger] second[j], false) && walk_one(
                    second[j],
                    base,
                ).sources.contains(p);
            assert(first.contains(second[j]));
            let i = choose|i: int| 0 <= i < first.len() && first[i] == second[j];
            assert(!passed_over(first[i], false) && walk_one(first[i], base).sources.contains(p));
        }
    }
    let r1 = relative_paths(one.sources, base);
    let r2 = relative_paths(two.sources, base);
    assert forall|q: PathModel| r1.to_set().contains(q) <==> r2.to_set().contains(q) by {
        if r1.contains(q) {
            let at = choose|at: int| 0 <= at < r1.len() && r1[at] == q;
            assert(one.sources.contains(one.sources[at]));
            let to = choose|to: int| 0 <= to < two.sources.len() && two.sources[to] == one.sources[at];
            assert(r2[to] == q);
        }
        if r2.contains(q) {
            let at = choose|at: int| 0 <= at < r2.len() && r2[at] == q;
            assert(two.sources.contains(two.sources[at]));
            let to = choose|to: int| 0 <= to < one.sources.len() && one.sources[to] == two.sources[at];
            assert(r1[to] == q);
        }
    }
    assert(r1.to_set() =~= r2.to_set());
}

} // verus!
