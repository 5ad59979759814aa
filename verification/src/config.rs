//! The configuration: named entries of tracked files.

use vstd::prelude::*;
use vstd::string::*;
use crate::error::{Failure, Wording, bare_failure};
use crate::path::{FilePath, PathModel, join_paths, parse_path, path_wf, paths_view, str_equal};

verus! {

/// How the remote repository is reached.
#[derive(Clone, Copy, Debug, PartialEq, Eq, Structural)]
pub enum GitProtocol {
    Ssh,
    Https,
}

/// Where the name and the address for commits come from.
#[derive(Clone, Copy, Debug, PartialEq, Eq, Structural)]
pub enum SignatureSource {
    Github,
    GitConfig,
}

/// The settings of the tool itself.
#[derive(Clone, Copy, Debug, PartialEq, Eq, Structural)]
pub struct Confinuum {
    pub git_protocol: GitProtocol,
    pub signature_source: SignatureSource,
}

/// The model of an entry: its name, its base directory once it has one, and
/// its tracked files, each relative to the base directory.
pub struct EntryModel {
    pub name: Seq<char>,
    pub target_dir: Option<PathModel>,
    pub files: Seq<PathModel>,
}

/// An entry tracks no file twice, and all its paths are well formed.
pub open spec fn entry_wf(e: EntryModel) -> bool {
    &&& e.files.no_duplicates()
    &&& forall|i: int| 0 <= i < e.files.len() ==> path_wf(#[trigger] e.files[i])
    &&& e.target_dir is Some ==> path_wf(e.target_dir->0)
}

/// The model of an optional path.
pub open spec fn option_view(p: Option<FilePath>) -> Option<PathModel> {
    match p {
        Some(d) => Some(d@),
        None => None,
    }
}

/// A named group of tracked files that share a base directory.
#[derive(Debug)]
pub struct ConfigEntry {
    name: String,
    target_dir: Option<FilePath>,
    files: Vec<FilePath>,
}

impl View for ConfigEntry {
    type V = EntryModel;

    closed spec fn view(&self) -> EntryModel {
        EntryModel {
            name: self.name@,
            target_dir: option_view(self.target_dir),
            files: paths_view(self.files@),
        }
    }
}

/// The position of `p` in `files`, if it is there.
pub open spec fn index_of_path(files: Seq<PathModel>, p: PathModel) -> Option<int> {
    if files.contains(p) {
        Some(files.index_of(p))
    } else {
        None
    }
}

impl ConfigEntry {
    /// Every entry is well formed.
    #[verifier::type_invariant]
    pub open spec fn inv(self) -> bool {
        entry_wf(self@)
    }

    /// An entry without files and without a base directory.
    pub fn new(name: String) -> (r: ConfigEntry)
        ensures
            r@.name == name@,
            r@.target_dir is None,
            r@.files == Seq::<PathModel>::empty(),
    {
        let r = ConfigEntry { name, target_dir: None, files: Vec::new() };
        assert(r@.files =~= Seq::<PathModel>::empty());
        r
    }

    /// The entry's name.
    pub fn name(&self) -> (r: &String)
        ensures
            r@ == self@.name,
    {
        &self.name
    }

    /// The entry's base directory, once files were added.
    pub fn target_dir(&self) -> (r: Option<&FilePath>)
        ensures
            r is Some <==> self@.target_dir is Some,
            r is Some ==> r->0@ == self@.target_dir->0,
    {
        self.target_dir.as_ref()
    }

    /// The number of tracked files.
    pub fn file_count(&self) -> (n: usize)
        ensures
            n == self@.files.len(),
    {
        self.files.len()
    }

    /// The tracked file at `i`.
    pub fn file(&self, i: usize) -> (r: &FilePath)
        requires
            i < self@.files.len(),
        ensures
            r@ == self@.files[i as int],
    {
        &self.files[i]
    }

    /// Where `rel` stands among the tracked files.
    pub fn position(&self, rel: &FilePath) -> (r: Option<usize>)
        ensures
            r is Some <==> self@.files.contains(rel@),
            r is Some ==> r->0 < self@.files.len() && self@.files[r->0 as int] == rel@,
    {
        let mut i: usize = 0;
        while i < self.files.len()
            invariant
                i <= self.files@.len(),
                forall|j: int| 0 <= j < i ==> self@.files[j] != rel@,
            decreases self.files@.len() - i,
        {
            if self.files[i].same(rel) {
                assert(self@.files[i as int] == rel@);
                return Some(i);
            }
            i += 1;
        }
        None
    }

    /// Whether `rel` is tracked.
    pub fn has_file(&self, rel: &FilePath) -> (b: bool)
        ensures
            b == self@.files.contains(rel@),
    {
        self.position(rel).is_some()
    }

    /// Tracks `rel`, unless it is tracked already.  Says whether it was new.
    pub fn add_file(&mut self, rel: FilePath) -> (added: bool)
        ensures
            added == !old(self)@.files.contains(rel@),
            added ==> final(self)@.files == old(self)@.files.push(rel@),
            !added ==> final(self)@.files == old(self)@.files,
            final(self)@.name == old(self)@.name,
            final(self)@.target_dir == old(self)@.target_dir,
    {
        proof {
            use_type_invariant(&*self);
            use_type_invariant(&rel);
        }
        if self.has_file(&rel) {
            return false;
        }
        let ghost before = self@.files;
        let mut files: Vec<FilePath> = Vec::new();
        core::mem::swap(&mut files, &mut self.files);
        files.push(rel);
        assert(paths_view(files@) =~= before.push(rel@));
        core::mem::swap(&mut files, &mut self.files);
        proof {
            assert(self@.files =~= before.push(rel@));
            assert forall|i: int| 0 <= i < self@.files.len() implies path_wf(
                #[trigger] self@.files[i],
            ) by {
                if i < before.len() {
                    assert(self@.files[i] == before[i]);
                }
            }
            assert forall|i: int, j: int|
                0 <= i < self@.files.len() && 0 <= j < self@.files.len() && i != j implies self@.files[i]
                != self@.files[j] by {
                if i < before.len() && j < before.len() {
                    assert(self@.files[i] == before[i]);
                    assert(self@.files[j] == before[j]);
                } else if i < before.len() {
                    assert(self@.files[i] == before[i]);
                    assert(before.contains(before[i]));
                } else {
                    assert(self@.files[j] == before[j]);
                    assert(before.contains(before[j]));
                }
            }
        }
        true
    }

    /// Stops tracking `rel`.  Says whether it was tracked.
    pub fn remove_file(&mut self, rel: &FilePath) -> (removed: bool)
        ensures
            removed == old(self)@.files.contains(rel@),
            final(self)@.files.to_set() == old(self)@.files.to_set().remove(rel@),
            !removed ==> final(self)@.files == old(self)@.files,
            removed ==> final(self)@.files == old(self)@.files.remove(
                old(self)@.files.index_of(rel@),
            ),
            final(self)@.name == old(self)@.name,
            final(self)@.target_dir == old(self)@.target_dir,
    {
        proof {
            use_type_invariant(&*self);
        }
        let ghost before = self@.files;
        match self.position(rel) {
            None => {
                assert(before.to_set() =~= before.to_set().remove(rel@));
                false
            },
            Some(i) => {
                proof {
                    let k = before.index_of(rel@);
                    assert(before[k] == rel@);
                    assert(k == i);
                }
                let mut files: Vec<FilePath> = Vec::new();
                core::mem::swap(&mut files, &mut self.files);
                files.remove(i);
                assert(paths_view(files@) =~= before.remove(i as int));
                proof {
                    lemma_remove_no_duplicates(before, i as int);
                    assert forall|j: int| 0 <= j < before.remove(i as int).len() implies path_wf(
                        #[trigger] before.remove(i as int)[j],
                    ) by {
                        if j < i {
                            assert(before.remove(i as int)[j] == before[j]);
                        } else {
                            assert(before.remove(i as int)[j] == before[j + 1]);
                        }
                    }
                }
                core::mem::swap(&mut files, &mut self.files);
                proof {
                    assert(self@.files =~= before.remove(i as int));
                    lemma_remove_no_duplicates(before, i as int);
                    assert forall|j: int| 0 <= j < self@.files.len() implies path_wf(
                        #[trigger] self@.files[j],
                    ) by {
                        if j < i {
                            assert(self@.files[j] == before[j]);
                        } else {
                            assert(self@.files[j] == before[j + 1]);
                        }
                    }
                }
                true
            },
        }
    }

    /// Sets the base directory.
    pub fn set_target_dir(&mut self, dir: FilePath)
        ensures
            final(self)@.target_dir == Some(dir@),
            final(self)@.files == old(self)@.files,
            final(self)@.name == old(self)@.name,
    {
        proof {
            use_type_invariant(&*self);
            use_type_invariant(&dir);
        }
        self.target_dir = Some(dir);
    }

    /// Replaces the tracked files by `files`, each taken once.
    pub fn set_files(&mut self, files: &Vec<FilePath>)
        ensures
            final(self)@.files.to_set() == paths_view(files@).to_set(),
            final(self)@.name == old(self)@.name,
            final(self)@.target_dir == old(self)@.target_dir,
    {
        proof {
            use_type_invariant(&*self);
        }
        self.files = Vec::new();
        assert(self@.files =~= Seq::<PathModel>::empty());
        let mut i: usize = 0;
        while i < files.len()
            invariant
                i <= files@.len(),
                self@.files.to_set() == paths_view(files@).take(i as int).to_set(),
                self@.name == old(self)@.name,
                self@.target_dir == old(self)@.target_dir,
            decreases files@.len() - i,
        {
            let ghost before = self@.files;
            let ghost taken = paths_view(files@).take(i as int);
            let added = self.add_file(files[i].clone());
            proof {
                let next = paths_view(files@).take(i as int + 1);
                assert(next =~= taken.push(files@[i as int]@));
                taken.lemma_push_to_set_commute(files@[i as int]@);
                if added {
                    before.lemma_push_to_set_commute(files@[i as int]@);
                } else {
                    assert(before.to_set().insert(files@[i as int]@) =~= before.to_set());
                }
            }
            i += 1;
        }
        assert(paths_view(files@).take(i as int) =~= paths_view(files@));
    }

    /// A copy of this entry.
    pub fn duplicate(&self) -> (r: ConfigEntry)
        ensures
            r@ == self@,
    {
        proof {
            use_type_invariant(self);
        }
        let mut files: Vec<FilePath> = Vec::new();
        let mut i: usize = 0;
        while i < self.files.len()
            invariant
                i <= self.files@.len(),
                paths_view(files@) == self@.files.take(i as int),
            decreases self.files@.len() - i,
        {
            let ghost before = paths_view(files@);
            files.push(self.files[i].clone());
            assert(paths_view(files@) =~= before.push(self@.files[i as int]));
            assert(before.push(self@.files[i as int]) =~= self@.files.take(i as int + 1));
            i += 1;
        }
        assert(self@.files.take(i as int) =~= self@.files);
        let target_dir = match &self.target_dir {
            Some(d) => Some(d.clone()),
            None => None,
        };
        ConfigEntry { name: self.name.clone(), target_dir, files }
    }
}

/// The model of the configuration: the settings and the entries.
pub struct ConfigModel {
    pub confinuum: Confinuum,
    pub entries: Seq<EntryModel>,
}

/// The names of the entries, in order.
pub open spec fn entry_names(entries: Seq<EntryModel>) -> Seq<Seq<char>> {
    Seq::new(entries.len(), |i: int| entries[i].name)
}

/// A configuration holds no name twice, and each entry is well formed.
pub open spec fn config_wf(c: ConfigModel) -> bool {
    &&& entry_names(c.entries).no_duplicates()
    &&& forall|i: int| 0 <= i < c.entries.len() ==> entry_wf(#[trigger] c.entries[i])
}

/// Whether an entry is called `name`.
pub open spec fn has_entry(entries: Seq<EntryModel>, name: Seq<char>) -> bool {
    entry_names(entries).contains(name)
}

/// The position of the entry called `name`.
pub open spec fn entry_index(entries: Seq<EntryModel>, name: Seq<char>) -> int {
    entry_names(entries).index_of(name)
}

/// The models of a list of entries.
pub open spec fn entries_view(v: Seq<ConfigEntry>) -> Seq<EntryModel> {
    Seq::new(v.len(), |i: int| v[i]@)
}

/// What stands at the place of a file.
#[derive(Clone, Copy, Debug, PartialEq, Eq, Structural)]
pub enum PathKind {
    Missing,
    File,
    Directory,
    Other,
}

/// The whole configuration.
#[derive(Debug)]
pub struct ConfinuumConfig {
    confinuum: Confinuum,
    entries: Vec<ConfigEntry>,
}

impl View for ConfinuumConfig {
    type V = ConfigModel;

    closed spec fn view(&self) -> ConfigModel {
        ConfigModel { confinuum: self.confinuum, entries: entries_view(self.entries@) }
    }
}

impl ConfinuumConfig {
    /// Every configuration is well formed.
    #[verifier::type_invariant]
    pub open spec fn inv(self) -> bool {
        config_wf(self@)
    }

    /// A configuration without entries.
    pub fn init(git_protocol: GitProtocol, signature_source: SignatureSource) -> (r:
        ConfinuumConfig)
        ensures
            r@.confinuum == (Confinuum { git_protocol, signature_source }),
            r@.entries == Seq::<EntryModel>::empty(),
    {
        let r = ConfinuumConfig {
            confinuum: Confinuum { git_protocol, signature_source },
            entries: Vec::new(),
        };
        assert(r@.entries =~= Seq::<EntryModel>::empty());
        r
    }

    /// Whether a configuration file is there, from what was found at its
    /// place.  A directory there is an error.
    pub fn file_exists(found: PathKind) -> (r: Result<bool, Failure>)
        ensures
            r is Err <==> found == PathKind::Directory,
            r is Err ==> r->Err_0@ == bare_failure(Wording::ConfigIsDirectory),
            r is Ok ==> r->Ok_0 == (found == PathKind::File),
    {
        match found {
            PathKind::Directory => Err(Failure::bare(Wording::ConfigIsDirectory)),
            PathKind::File => Ok(true),
            _ => Ok(false),
        }
    }

    /// Whether the configuration can be used, from what was found at its
    /// place and whether what the file holds could be read as a
    /// configuration.
    pub fn load(found: PathKind, readable: bool) -> (r: Result<(), Failure>)
        ensures
            r is Ok <==> found == PathKind::File && readable,
            found == PathKind::Directory ==> r is Err && r->Err_0@ == bare_failure(
                Wording::ConfigIsDirectory,
            ),
            found == PathKind::File && !readable ==> r is Err && r->Err_0@ == bare_failure(
                Wording::ConfigUnreadable,
            ),
            found != PathKind::Directory && found != PathKind::File ==> r is Err && r->Err_0@
                == bare_failure(Wording::ConfigMissing),
    {
        match Self::file_exists(found) {
            Err(e) => Err(e),
            Ok(false) => Err(Failure::bare(Wording::ConfigMissing)),
            Ok(true) => if readable {
                Ok(())
            } else {
                Err(Failure::bare(Wording::ConfigUnreadable))
            },
        }
    }

    /// The directory that holds the configuration and the tracked copies,
    /// below the home directory.
    pub fn get_dir(home: &FilePath) -> (r: FilePath)
        ensures
            r@ == join_paths(home@, parse_path(".config/confinuum"@)),
    {
        home.join(&FilePath::parse(".config/confinuum"))
    }

    /// The configuration file, below the home directory.
    pub fn get_path(home: &FilePath) -> (r: FilePath)
        ensures
            r@ == join_paths(home@, parse_path(".config/confinuum/config.toml"@)),
    {
        home.join(&FilePath::parse(".config/confinuum/config.toml"))
    }

    /// The settings.
    pub fn settings(&self) -> (r: Confinuum)
        ensures
            r == self@.confinuum,
    {
        self.confinuum
    }

    /// The number of entries.
    pub fn len(&self) -> (n: usize)
        ensures
            n == self@.entries.len(),
    {
        self.entries.len()
    }

    /// The entry at `i`.
    pub fn entry(&self, i: usize) -> (r: &ConfigEntry)
        requires
            i < self@.entries.len(),
        ensures
            r@ == self@.entries[i as int],
    {
        &self.entries[i]
    }

    /// Where the entry called `name` stands.
    pub fn position(&self, name: &str) -> (r: Option<usize>)
        ensures
            r is Some <==> has_entry(self@.entries, name@),
            r is Some ==> r->0 == entry_index(self@.entries, name@),
            r is Some ==> r->0 < self@.entries.len() && self@.entries[r->0 as int].name == name@,
    {
        proof {
            use_type_invariant(self);
        }
        let ghost names = entry_names(self@.entries);
        let mut i: usize = 0;
        while i < self.entries.len()
            invariant
                i <= self.entries@.len(),
                names == entry_names(self@.entries),
                names.no_duplicates(),
                forall|j: int| 0 <= j < i ==> names[j] != name@,
            decreases self.entries@.len() - i,
        {
            if str_equal(self.entries[i].name().as_str(), name) {
                proof {
                    assert(names[i as int] == name@);
                    let k = names.index_of(name@);
                    assert(names[k] == name@);
                }
                return Some(i);
            }
            i += 1;
        }
        None
    }

    /// Whether an entry is called `name`.
    pub fn contains_key(&self, name: &str) -> (b: bool)
        ensures
            b == has_entry(self@.entries, name@),
    {
        self.position(name).is_some()
    }

    /// The entry called `name`.
    pub fn get(&self, name: &str) -> (r: Option<&ConfigEntry>)
        ensures
            r is Some <==> has_entry(self@.entries, name@),
            r is Some ==> r->0@ == self@.entries[entry_index(self@.entries, name@)],
    {
        match self.position(name) {
            Some(i) => Some(&self.entries[i]),
            None => None,
        }
    }

    /// Adds `entry`, unless its name is taken.  Says whether it was added.
    pub fn insert(&mut self, entry: ConfigEntry) -> (added: bool)
        ensures
            added == !has_entry(old(self)@.entries, entry@.name),
            added ==> final(self)@.entries == old(self)@.entries.push(entry@),
            !added ==> final(self)@.entries == old(self)@.entries,
            final(self)@.confinuum == old(self)@.confinuum,
    {
        proof {
            use_type_invariant(&*self);
            use_type_invariant(&entry);
        }
        if self.contains_key(entry.name().as_str()) {
            return false;
        }
        let ghost before = self@.entries;
        let mut entries: Vec<ConfigEntry> = Vec::new();
        core::mem::swap(&mut entries, &mut self.entries);
        assert(entry_names(Seq::<EntryModel>::empty()) =~= Seq::<Seq<char>>::empty());
        entries.push(entry);
        proof {
            let after = entries_view(entries@);
            assert(after =~= before.push(entry@));
            assert(entry_names(after) =~= entry_names(before).push(entry@.name));
            assert forall|i: int| 0 <= i < after.len() implies entry_wf(#[trigger] after[i]) by {
                if i < before.len() {
                    assert(after[i] == before[i]);
                }
            }
            assert forall|i: int, j: int|
                0 <= i < after.len() && 0 <= j < after.len() && i != j implies entry_names(after)[i]
                != entry_names(after)[j] by {
                let nb = entry_names(before);
                if i < before.len() && j < before.len() {
                    assert(entry_names(after)[i] == nb[i]);
                    assert(entry_names(after)[j] == nb[j]);
                } else if i < before.len() {
                    assert(entry_names(after)[i] == nb[i]);
                    assert(nb.contains(nb[i]));
                } else {
                    assert(entry_names(after)[j] == nb[j]);
                    assert(nb.contains(nb[j]));
                }
            }
        }
        core::mem::swap(&mut entries, &mut self.entries);
        true
    }

    /// Takes out the entry called `name`.
    pub fn remove(&mut self, name: &str) -> (r: Option<ConfigEntry>)
        ensures
            r is Some <==> has_entry(old(self)@.entries, name@),
            r is Some ==> r->0@ == old(self)@.entries[entry_index(old(self)@.entries, name@)],
            r is Some ==> final(self)@.entries == old(self)@.entries.remove(
                entry_index(old(self)@.entries, name@),
            ),
            r is None ==> final(self)@.entries == old(self)@.entries,
            !has_entry(final(self)@.entries, name@),
            final(self)@.confinuum == old(self)@.confinuum,
    {
        proof {
            use_type_invariant(&*self);
        }
        let ghost before = self@.entries;
        match self.position(name) {
            None => None,
            Some(i) => {
                let mut entries: Vec<ConfigEntry> = Vec::new();
                core::mem::swap(&mut entries, &mut self.entries);
                assert(entry_names(Seq::<EntryModel>::empty()) =~= Seq::<Seq<char>>::empty());
                let taken = entries.remove(i);
                proof {
                    let after = entries_view(entries@);
                    assert(after =~= before.remove(i as int));
                    assert(entry_names(after) =~= entry_names(before).remove(i as int));
                    lemma_remove_no_duplicates(entry_names(before), i as int);
                    assert forall|j: int| 0 <= j < after.len() implies entry_wf(
                        #[trigger] after[j],
                    ) by {
                        if j < i {
                            assert(after[j] == before[j]);
                        } else {
                            assert(after[j] == before[j + 1]);
                        }
                    }
                    assert(!entry_names(after).to_set().contains(name@));
                    assert(!entry_names(after).contains(name@));
                }
                core::mem::swap(&mut entries, &mut self.entries);
                Some(taken)
            },
        }
    }

    /// Puts `entry` in the place of the entry at `i`, which has its name.
    pub fn replace(&mut self, i: usize, entry: ConfigEntry)
        requires
            i < old(self)@.entries.len(),
            old(self)@.entries[i as int].name == entry@.name,
        ensures
            final(self)@.entries == old(self)@.entries.update(i as int, entry@),
            final(self)@.confinuum == old(self)@.confinuum,
    {
        proof {
            use_type_invariant(&*self);
            use_type_invariant(&entry);
        }
        let ghost before = self@.entries;
        let mut entries: Vec<ConfigEntry> = Vec::new();
        core::mem::swap(&mut entries, &mut self.entries);
        assert(entry_names(Seq::<EntryModel>::empty()) =~= Seq::<Seq<char>>::empty());
        entries.set(i, entry);
        proof {
            let after = entries_view(entries@);
            assert(after =~= before.update(i as int, entry@));
            assert(entry_names(after) =~= entry_names(before));
            assert forall|j: int| 0 <= j < after.len() implies entry_wf(#[trigger] after[j]) by {
                if j != i {
                    assert(after[j] == before[j]);
                }
            }
        }
        core::mem::swap(&mut entries, &mut self.entries);
    }
}

/// Removing an element keeps a sequence free of duplicates and removes the
/// element from its set.
pub proof fn lemma_remove_no_duplicates<A>(s: Seq<A>, i: int)
    requires
        s.no_duplicates(),
        0 <= i < s.len(),
    ensures
        s.remove(i).no_duplicates(),
        s.remove(i).to_set() == s.to_set().remove(s[i]),
{
    let r = s.remove(i);
    assert forall|a: int, b: int| 0 <= a < r.len() && 0 <= b < r.len() && a != b implies r[a]
        != r[b] by {
        let a0 = if a < i { a } else { a + 1 };
        let b0 = if b < i { b } else { b + 1 };
        assert(r[a] == s[a0]);
        assert(r[b] == s[b0]);
    }
    assert forall|x: A| r.to_set().contains(x) <==> s.to_set().remove(s[i]).contains(x) by {
        if r.to_set().contains(x) {
            let a = choose|a: int| 0 <= a < r.len() && r[a] == x;
            let a0 = if a < i { a } else { a + 1 };
            assert(s[a0] == x);
            assert(s.contains(x));
        }
        if s.to_set().remove(s[i]).contains(x) {
            let a0 = choose|a0: int| 0 <= a0 < s.len() && s[a0] == x;
            let a = if a0 < i { a0 } else { a0 - 1 };
            assert(r[a] == x);
            assert(r.contains(x));
        }
    }
    assert(r.to_set() =~= s.to_set().remove(s[i]));
}

} // verus!
