//! Showing the tracked files of an entry as a tree.

use vstd::prelude::*;
use vstd::string::*;
use crate::config::{ConfinuumConfig, EntryModel, entry_index, has_entry};
use crate::error::{Failure, Wording, failure_about};
use crate::path::{FilePath, PathModel, render_path, str_equal};

verus! {

/// A directory of the tree: its name and what it holds.  A file is a
/// directory that holds nothing.
#[derive(Debug)]
pub struct MockDirEntry {
    pub name: String,
    pub entries: Vec<MockDirEntry>,
}

/// The model of a tree.
pub struct TreeModel {
    pub name: Seq<char>,
    pub entries: Seq<TreeModel>,
}

/// The model of a tree.
pub open spec fn tree_view(t: MockDirEntry) -> TreeModel
    decreases t,
{
    TreeModel { name: t.name@, entries: forest_view(t.entries@) }
}

/// The models of a list of trees.
pub open spec fn forest_view(ts: Seq<MockDirEntry>) -> Seq<TreeModel>
    decreases ts,
{
    if ts.len() == 0 {
        Seq::empty()
    } else {
        forest_view(ts.drop_last()).push(tree_view(ts.last()))
    }
}

impl View for MockDirEntry {
    type V = TreeModel;

    open spec fn view(&self) -> TreeModel {
        tree_view(*self)
    }
}

/// The models of a list of trees stand in the order of the trees.
pub proof fn lemma_forest_view(ts: Seq<MockDirEntry>)
    ensures
        forest_view(ts).len() == ts.len(),
        forall|i: int| 0 <= i < ts.len() ==> #[trigger] forest_view(ts)[i] == tree_view(ts[i]),
    decreases ts.len(),
{
    if ts.len() > 0 {
        lemma_forest_view(ts.drop_last());
        assert forall|i: int| 0 <= i < ts.len() implies #[trigger] forest_view(ts)[i] == tree_view(
            ts[i],
        ) by {
            if i < ts.len() - 1 {
                assert(ts.drop_last()[i] == ts[i]);
            }
        }
    }
}

/// A tree that holds nothing.
pub open spec fn leaf(name: Seq<char>) -> TreeModel {
    TreeModel { name, entries: Seq::empty() }
}

/// The first of `entries` from `from` on that is called `name`, or the
/// number of entries if none is.
pub open spec fn child_index(entries: Seq<TreeModel>, name: Seq<char>, from: int) -> int
    decreases entries.len() - from,
{
    if from < 0 || from >= entries.len() {
        entries.len() as int
    } else if entries[from].name == name {
        from
    } else {
        child_index(entries, name, from + 1)
    }
}

/// The tree with the components of `path` from `depth` on added below its
/// root: each component is looked up among the entries of the directory
/// reached so far, and added behind them where it is missing.
pub open spec fn grow(t: TreeModel, path: PathModel, depth: int) -> TreeModel
    decreases path.len() - depth,
{
    if depth < 0 || depth >= path.len() {
        t
    } else {
        let k = child_index(t.entries, path[depth], 0);
        if 0 <= k < t.entries.len() {
            TreeModel { name: t.name, entries: t.entries.update(k, grow(t.entries[k], path, depth + 1)) }
        } else {
            TreeModel {
                name: t.name,
                entries: t.entries.push(grow(leaf(path[depth]), path, depth + 1)),
            }
        }
    }
}

/// The tree with each of the first `k` paths added, in order.
pub open spec fn grow_all(t: TreeModel, paths: Seq<PathModel>, k: int) -> TreeModel
    decreases k,
{
    if k <= 0 {
        t
    } else {
        grow(grow_all(t, paths, k - 1), paths[k - 1], 0)
    }
}

/// One line of a printed tree.
#[derive(Debug)]
pub struct TreeRow {
    /// How deep the directory stands below the root.
    pub depth: usize,
    /// Whether it is the last entry of its directory.
    pub last: bool,
    /// Whether it holds nothing.
    pub leaf: bool,
    pub name: String,
}

/// The model of a line.
pub struct RowModel {
    pub depth: nat,
    pub last: bool,
    pub leaf: bool,
    pub name: Seq<char>,
}

impl View for TreeRow {
    type V = RowModel;

    open spec fn view(&self) -> RowModel {
        RowModel { depth: self.depth as nat, last: self.last, leaf: self.leaf, name: self.name@ }
    }
}

/// The models of a list of lines.
pub open spec fn rows_view(v: Seq<TreeRow>) -> Seq<RowModel> {
    Seq::new(v.len(), |i: int| v[i]@)
}

/// The depth below `depth`; depths do not grow beyond what a machine word
/// holds.
pub open spec fn deeper(depth: nat) -> nat {
    if depth < usize::MAX {
        depth + 1
    } else {
        depth
    }
}

/// The lines of a tree: its own, then those of its entries in order.
pub open spec fn rows_of(t: TreeModel, depth: nat, last: bool) -> Seq<RowModel>
    decreases t, 0nat,
{
    seq![RowModel { depth, last, leaf: t.entries.len() == 0, name: t.name }] + rows_from(
        t.entries,
        deeper(depth),
        0,
    )
}

/// The lines of the entries from `k` on.
pub open spec fn rows_from(entries: Seq<TreeModel>, depth: nat, k: int) -> Seq<RowModel>
    decreases entries, entries.len() - k,
{
    if k < 0 || k >= entries.len() {
        Seq::empty()
    } else {
        rows_of(entries[k], depth, k == entries.len() - 1) + rows_from(entries, depth, k + 1)
    }
}

impl MockDirEntry {
    /// A directory called `name` that holds `entries`.
    pub fn new_dir(name: String, entries: Vec<MockDirEntry>) -> (r: MockDirEntry)
        ensures
            r@ == (TreeModel { name: name@, entries: forest_view(entries@) }),
    {
        MockDirEntry { name, entries }
    }

    /// Adds `entry` behind the entries of this directory.
    pub fn dir_add_entry(&mut self, entry: MockDirEntry)
        ensures
            final(self)@ == (TreeModel {
                name: old(self)@.name,
                entries: old(self)@.entries.push(entry@),
            }),
    {
        let ghost before = self.entries@;
        self.entries.push(entry);
        proof {
            assert(self.entries@.drop_last() =~= before);
        }
    }

    /// Where the first entry called `name` stands.
    pub fn dir_find_entry(&self, name: &str) -> (r: Option<usize>)
        ensures
            r is Some <==> 0 <= child_index(self@.entries, name@, 0) < self@.entries.len(),
            r is Some ==> r->0 == child_index(self@.entries, name@, 0),
            r is Some ==> r->0 < self.entries@.len(),
    {
        proof {
            lemma_forest_view(self.entries@);
        }
        let mut i: usize = 0;
        while i < self.entries.len()
            invariant
                i <= self.entries@.len(),
                self@.entries.len() == self.entries@.len(),
                forall|j: int|
                    0 <= j < self.entries@.len() ==> #[trigger] self@.entries[j] == tree_view(
                        self.entries@[j],
                    ),
                child_index(self@.entries, name@, 0) == child_index(self@.entries, name@, i as int),
            decreases self.entries@.len() - i,
        {
            if str_equal(self.entries[i].name.as_str(), name) {
                return Some(i);
            }
            i += 1;
        }
        None
    }

    /// Adds the components of `path` from `depth` on below this directory.
    pub fn build_tree(&mut self, path: &FilePath, depth: usize)
        ensures
            final(self)@ == grow(old(self)@, path@, depth as int),
        decreases path@.len() - depth,
    {
        if depth < path.len() {
            let item = path.component(depth);
            let ghost before = self.entries@;
            proof {
                lemma_forest_view(before);
            }
            match self.dir_find_entry(item.as_str()) {
                Some(i) => {
                    let mut child = self.entries.remove(i);
                    let ghost child_before = child@;
                    child.build_tree(path, depth + 1);
                    self.entries.insert(i, child);
                    proof {
                        lemma_forest_view(self.entries@);
                        assert(self.entries@.len() == before.len());
                        assert forall|j: int| 0 <= j < before.len() && j != i implies self.entries@[j]
                            == before[j] by {}
                        assert(forest_view(self.entries@) =~= forest_view(before).update(
                            i as int,
                            grow(child_before, path@, depth + 1),
                        ));
                    }
                },
                None => {
                    let mut child = MockDirEntry::new_dir(item.clone(), Vec::new());
                    assert(child@.entries =~= Seq::<TreeModel>::empty());
                    child.build_tree(path, depth + 1);
                    self.entries.push(child);
                    proof {
                        assert(self.entries@.drop_last() =~= before);
                    }
                },
            }
        }
    }

    /// The lines of this tree, which stands `depth` deep and is or is not
    /// the last entry of its directory, appended to `out`.
    pub fn print_tree(&self, depth: usize, last: bool, out: &mut Vec<TreeRow>)
        ensures
            rows_view(final(out)@) == rows_view(old(out)@) + rows_of(self@, depth as nat, last),
        decreases self, 0nat,
    {
        let ghost start = rows_view(out@);
        let ghost own = RowModel {
            depth: depth as nat,
            last,
            leaf: self@.entries.len() == 0,
            name: self@.name,
        };
        proof {
            lemma_forest_view(self.entries@);
        }
        out.push(
            TreeRow { depth, last, leaf: self.entries.len() == 0, name: self.name.clone() },
        );
        assert(rows_view(out@) =~= start + seq![own]);
        let below = if depth < usize::MAX {
            depth + 1
        } else {
            depth
        };
        let n = self.entries.len();
        let ghost whole = rows_from(self@.entries, below as nat, 0);
        let ghost mut done: Seq<RowModel> = Seq::empty();
        assert(start + seq![own] + done =~= start + seq![own]);
        let mut k: usize = 0;
        while k < n
            invariant
                k <= n,
                n == self.entries@.len(),
                self@.entries.len() == n,
                forall|j: int|
                    0 <= j < n ==> #[trigger] self@.entries[j] == tree_view(self.entries@[j]),
                rows_view(out@) == start + seq![own] + done,
                whole == rows_from(self@.entries, below as nat, 0),
                whole == done + rows_from(self@.entries, below as nat, k as int),
            decreases n - k,
        {
            let ghost these = rows_of(self@.entries[k as int], below as nat, k == n - 1);
            let ghost rest = rows_from(self@.entries, below as nat, k as int + 1);
            self.entries[k].print_tree(below, k == n - 1, out);
            proof {
                assert((start + seq![own] + done) + these =~= start + seq![own] + (done + these));
                assert((done + these) + rest =~= done + (these + rest));
                done = done + these;
            }
            k += 1;
        }
        proof {
            assert(done + Seq::<RowModel>::empty() =~= done);
            assert((start + seq![own]) + whole =~= start + (seq![own] + whole));
        }
    }
}

/// How far a line at `depth` is indented behind the bar.
pub open spec fn indent_of(depth: nat) -> nat {
    if depth <= 1 {
        0
    } else {
        ((depth - 1) * 4 - 1) as nat
    }
}

/// So many blanks.
pub open spec fn blanks(n: nat) -> Seq<char>
    decreases n,
{
    if n == 0 {
        Seq::<char>::empty()
    } else {
        blanks((n - 1) as nat) + " "@
    }
}

/// The text of a line: the root shows its name; every other line shows a
/// bar if it is indented, the indentation, the branch, the sign of a file
/// or of a directory, and the name.
pub open spec fn row_text(r: RowModel) -> Seq<char> {
    if r.depth == 0 {
        r.name
    } else {
        let bar = if indent_of(r.depth) == 0 {
            ""@
        } else {
            "\u{2502}"@
        };
        let branch = if r.last {
            "\u{2514}\u{2500}\u{2500}"@
        } else {
            "\u{251C}\u{2500}\u{2500}"@
        };
        let sign = if r.leaf {
            " \u{1F5CB}"@
        } else {
            " \u{1F5C1} "@
        };
        bar + blanks(indent_of(r.depth)) + branch + sign + " "@ + r.name
    }
}

impl TreeRow {
    /// The text of the line.
    pub fn text(&self) -> (r: String)
        requires
            self.depth * 4 <= usize::MAX,
        ensures
            r@ == row_text(self@),
    {
        if self.depth == 0 {
            return self.name.clone();
        }
        let indent: usize = if self.depth <= 1 {
            0
        } else {
            (self.depth - 1) * 4 - 1
        };
        let mut out = if indent == 0 {
            String::from_str("")
        } else {
            String::from_str("\u{2502}")
        };
        let ghost bar = out@;
        let mut i: usize = 0;
        assert(bar + blanks(0) =~= bar);
        while i < indent
            invariant
                i <= indent,
                out@ == bar + blanks(i as nat),
            decreases indent - i,
        {
            out.append(" ");
            assert(bar + blanks(i as nat) + " "@ =~= bar + blanks((i + 1) as nat));
            i += 1;
        }
        if self.last {
            out.append("\u{2514}\u{2500}\u{2500}");
        } else {
            out.append("\u{251C}\u{2500}\u{2500}");
        }
        if self.leaf {
            out.append(" \u{1F5CB}");
        } else {
            out.append(" \u{1F5C1} ");
        }
        out.append(" ");
        out.append(self.name.as_str());
        out
    }
}

/// The title of the tree of an entry.
pub open spec fn show_title(e: EntryModel) -> Seq<char> {
    match e.target_dir {
        Some(d) => e.name + " in "@ + render_path(d),
        None => e.name + ": uninitialized"@,
    }
}

/// The tree of the tracked files of the entry called `name`, below a root
/// that carries the entry's name and base directory.
pub fn show(config: &ConfinuumConfig, name: &str) -> (r: Result<MockDirEntry, Failure>)
    ensures
        r is Ok <==> has_entry(config@.entries, name@),
        r is Err ==> r->Err_0@ == failure_about(Wording::NoEntry, name@),
        r is Ok ==> ({
            let e = config@.entries[entry_index(config@.entries, name@)];
            r->Ok_0@ == grow_all(leaf(show_title(e)), e.files, e.files.len() as int)
        }),
{
    let entry = match config.get(name) {
        Some(entry) => entry,
        None => {
            return Err(Failure::new(Wording::NoEntry, String::from_str(name)));
        },
    };
    let mut title = entry.name().clone();
    match entry.target_dir() {
        Some(d) => {
            title.append(" in ");
            title.append(d.to_string().as_str());
        },
        None => {
            title.append(": uninitialized");
        },
    }
    let mut root = MockDirEntry::new_dir(title, Vec::new());
    assert(root@.entries =~= Seq::<TreeModel>::empty());
    let mut i: usize = 0;
    while i < entry.file_count()
        invariant
            i <= entry@.files.len(),
            root@ == grow_all(leaf(show_title(entry@)), entry@.files, i as int),
        decreases entry@.files.len() - i,
    {
        root.build_tree(entry.file(i), 0);
        i += 1;
    }
    Ok(root)
}

} // verus!
