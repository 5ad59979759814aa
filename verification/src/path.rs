//! Paths as sequences of components.
//!
//! A path is modelled by the sequence of its components, each a sequence of
//! characters.  An absolute path begins with the root component `/`.

use vstd::prelude::*;
use vstd::string::*;

verus! {

/// The mathematical model of a path: its components in order.
pub type PathModel = Seq<Seq<char>>;

/// The root component.
pub open spec fn root_component() -> Seq<char> {
    seq!['/']
}

/// The component that stands for the directory itself; it never occurs in a
/// well-formed path.
pub open spec fn dot_component() -> Seq<char> {
    seq!['.']
}

/// A component that names a directory entry: not empty, free of separators,
/// and not the dot.
pub open spec fn is_name(c: Seq<char>) -> bool {
    &&& c.len() > 0
    &&& !c.contains('/')
    &&& c != dot_component()
}

/// Every component is a name, except that the first may be the root.
pub open spec fn path_wf(p: PathModel) -> bool {
    forall|i: int| 0 <= i < p.len() ==> (is_name(#[trigger] p[i]) || (i == 0 && p[i] == root_component()))
}

/// An absolute path begins with the root component.
pub open spec fn is_absolute(p: PathModel) -> bool {
    p.len() > 0 && p[0] == root_component()
}

/// `a` is a component-wise prefix of `b`.
pub open spec fn is_prefix(a: PathModel, b: PathModel) -> bool {
    a.len() <= b.len() && b.take(a.len() as int) == a
}

/// Appending `b` to `a`; an absolute `b` replaces `a`.
pub open spec fn join_paths(a: PathModel, b: PathModel) -> PathModel {
    if is_absolute(b) {
        b
    } else {
        a + b
    }
}

/// The path without its last component, if it has one that can be dropped.
pub open spec fn parent_of(p: PathModel) -> Option<PathModel> {
    if p.len() == 0 || (p.len() == 1 && p[0] == root_component()) {
        None
    } else {
        Some(p.drop_last())
    }
}

/// The components that a list of strings holds.
pub open spec fn strings_view(v: Seq<String>) -> PathModel {
    Seq::new(v.len(), |i: int| v[i]@)
}

/// The models of a list of paths.
pub open spec fn paths_view(v: Seq<FilePath>) -> Seq<PathModel> {
    Seq::new(v.len(), |i: int| v[i]@)
}

/// The components of the longest common beginning of `a` and `b`.
pub open spec fn common_prefix(a: PathModel, b: PathModel) -> PathModel
    decreases a.len(),
{
    if a.len() > 0 && b.len() > 0 && a[0] == b[0] {
        seq![a[0]] + common_prefix(a.drop_first(), b.drop_first())
    } else {
        seq![]
    }
}

/// The longest common beginning of all `paths`; of a single path, the path.
pub open spec fn common_prefix_all(paths: Seq<PathModel>) -> PathModel
    decreases paths.len(),
{
    if paths.len() == 0 {
        seq![]
    } else if paths.len() == 1 {
        paths[0]
    } else {
        common_prefix(common_prefix_all(paths.drop_last()), paths.last())
    }
}

/// The common path of `paths`: none of no paths, the path itself of one, and
/// of several their longest common beginning unless that is empty.
pub open spec fn common_path_result(paths: Seq<PathModel>) -> Option<PathModel> {
    if paths.len() == 0 {
        None
    } else if paths.len() >= 2 && common_prefix_all(paths).len() == 0 {
        None
    } else {
        Some(common_prefix_all(paths))
    }
}

/// The component that steps to the parent directory.
pub open spec fn parent_component() -> Seq<char> {
    seq!['.', '.']
}

/// No component steps to a parent directory.
pub open spec fn no_parent_steps(p: PathModel) -> bool {
    forall|i: int| 0 <= i < p.len() ==> #[trigger] p[i] != parent_component()
}

/// The way from `base` to `path`: one step up for each component of `base`
/// behind their common beginning, then the rest of `path`.
pub open spec fn relative_to(path: PathModel, base: PathModel) -> PathModel {
    let k = common_prefix(path, base).len() as int;
    Seq::new((base.len() - k) as nat, |i: int| parent_component()) + path.skip(k)
}

/// The index of the first separator in `s`, or its length if it has none.
pub open spec fn first_slash(s: Seq<char>) -> int
    decreases s.len(),
{
    if s.len() == 0 || s[0] == '/' {
        0
    } else {
        1 + first_slash(s.drop_first())
    }
}

/// A piece between separators that becomes a component.
pub open spec fn keeps(piece: Seq<char>) -> bool {
    piece.len() > 0 && piece != dot_component()
}

/// The names that `s` spells: its pieces between separators, without the
/// empty ones and the dots.
pub open spec fn names_of(s: Seq<char>) -> PathModel
    decreases s.len(),
{
    let k = first_slash(s);
    let head = if keeps(s.take(k)) {
        seq![s.take(k)]
    } else {
        Seq::<Seq<char>>::empty()
    };
    if 0 <= k < s.len() {
        head + names_of(s.skip(k + 1))
    } else {
        head
    }
}

/// The path that `s` spells: the root if `s` begins with a separator, then
/// its names.
pub open spec fn parse_path(s: Seq<char>) -> PathModel {
    let lead = if s.len() > 0 && s[0] == '/' {
        seq![root_component()]
    } else {
        Seq::<Seq<char>>::empty()
    };
    lead + names_of(s)
}

/// The spelling of a path: its components with a separator between them,
/// and none behind the root.
pub open spec fn render_path(p: PathModel) -> Seq<char>
    decreases p.len(),
{
    if p.len() == 0 {
        Seq::<char>::empty()
    } else if p.len() == 1 {
        p[0]
    } else if p.len() == 2 && p[0] == root_component() {
        p[0] + p[1]
    } else {
        render_path(p.drop_last()) + seq!['/'] + p.last()
    }
}

/// A path of components.
#[derive(Debug)]
pub struct FilePath {
    parts: Vec<String>,
}

impl View for FilePath {
    type V = PathModel;

    closed spec fn view(&self) -> PathModel {
        strings_view(self.parts@)
    }
}

impl FilePath {
    /// Every value of this type is well formed.
    #[verifier::type_invariant]
    pub open spec fn inv(self) -> bool {
        path_wf(self@)
    }

    /// The path without components.
    pub fn empty() -> (r: FilePath)
        ensures
            r@ == Seq::<Seq<char>>::empty(),
    {
        let r = FilePath { parts: Vec::new() };
        assert(r@ =~= Seq::<Seq<char>>::empty());
        r
    }

    /// The number of components.
    pub fn len(&self) -> (n: usize)
        ensures
            n == self@.len(),
    {
        self.parts.len()
    }

    /// The component at `i`.
    pub fn component(&self, i: usize) -> (c: &String)
        requires
            i < self@.len(),
        ensures
            c@ == self@[i as int],
    {
        &self.parts[i]
    }

    /// Whether the path begins with the root component.
    pub fn is_absolute(&self) -> (b: bool)
        ensures
            b == is_absolute(self@),
    {
        if self.parts.len() == 0 {
            return false;
        }
        let first = self.parts[0].as_str();
        proof {
            reveal_strlit("/");
            assert("/"@ =~= root_component());
        }
        str_equal(first, "/")
    }
}

impl Clone for FilePath {
    fn clone(&self) -> (r: FilePath)
        ensures
            r@ == self@,
    {
        self.slice(0, self.parts.len())
    }
}

impl FilePath {
    /// The components from `from` up to `to`.
    pub fn slice(&self, from: usize, to: usize) -> (r: FilePath)
        requires
            from <= to <= self@.len(),
        ensures
            r@ == self@.subrange(from as int, to as int),
    {
        proof {
            use_type_invariant(self);
        }
        let mut parts: Vec<String> = Vec::new();
        let mut i: usize = from;
        while i < to
            invariant
                from <= i <= to <= self.parts@.len(),
                strings_view(parts@) == self@.subrange(from as int, i as int),
            decreases to - i,
        {
            let ghost before = strings_view(parts@);
            parts.push(self.parts[i].clone());
            assert(strings_view(parts@) =~= before.push(self@[i as int]));
            assert(before.push(self@[i as int]) =~= self@.subrange(from as int, i as int + 1));
            i += 1;
        }
        assert(path_wf(strings_view(parts@))) by {
            let q = strings_view(parts@);
            assert forall|j: int| 0 <= j < q.len() implies (is_name(#[trigger] q[j]) || (j == 0
                && q[j] == root_component())) by {
                assert(q[j] == self@[from + j]);
            }
        }
        FilePath { parts }
    }

    /// Whether both paths have the same components.
    pub fn same(&self, other: &FilePath) -> (b: bool)
        ensures
            b == (self@ == other@),
    {
        let n = self.parts.len();
        if n != other.parts.len() {
            return false;
        }
        let mut i: usize = 0;
        while i < n
            invariant
                n == self.parts@.len(),
                n == other.parts@.len(),
                i <= n,
                self@.take(i as int) == other@.take(i as int),
            decreases n - i,
        {
            if self.parts[i] != other.parts[i] {
                assert(self@[i as int] != other@[i as int]);
                return false;
            }
            assert(self@.take(i as int + 1) =~= self@.take(i as int).push(self@[i as int]));
            assert(other@.take(i as int + 1) =~= other@.take(i as int).push(other@[i as int]));
            i += 1;
        }
        assert(self@.take(n as int) =~= self@);
        assert(other@.take(n as int) =~= other@);
        true
    }

    /// Whether `base` is a beginning of this path.
    pub fn starts_with(&self, base: &FilePath) -> (b: bool)
        ensures
            b == is_prefix(base@, self@),
    {
        let n = base.parts.len();
        if n > self.parts.len() {
            return false;
        }
        let head = self.slice(0, n);
        head.same(base)
    }

    /// The rest of this path behind `base`, if `base` is a beginning of it.
    pub fn strip_prefix(&self, base: &FilePath) -> (r: Option<FilePath>)
        ensures
            r is Some <==> is_prefix(base@, self@),
            r is Some ==> r->0@ == self@.skip(base@.len() as int),
    {
        if self.starts_with(base) {
            Some(self.slice(base.parts.len(), self.parts.len()))
        } else {
            None
        }
    }

    /// This path followed by `other`, or `other` alone if it is absolute.
    pub fn join(&self, other: &FilePath) -> (r: FilePath)
        ensures
            r@ == join_paths(self@, other@),
    {
        proof {
            use_type_invariant(self);
            use_type_invariant(other);
        }
        if other.is_absolute() {
            return other.clone();
        }
        let mut parts: Vec<String> = Vec::new();
        let mut i: usize = 0;
        while i < self.parts.len()
            invariant
                i <= self.parts@.len(),
                strings_view(parts@) == self@.take(i as int),
            decreases self.parts@.len() - i,
        {
            let ghost before = strings_view(parts@);
            parts.push(self.parts[i].clone());
            assert(strings_view(parts@) =~= before.push(self@[i as int]));
            assert(before.push(self@[i as int]) =~= self@.take(i as int + 1));
            i += 1;
        }
        assert(self@.take(i as int) =~= self@);
        let mut j: usize = 0;
        while j < other.parts.len()
            invariant
                j <= other.parts@.len(),
                strings_view(parts@) == self@ + other@.take(j as int),
            decreases other.parts@.len() - j,
        {
            let ghost before = strings_view(parts@);
            parts.push(other.parts[j].clone());
            assert(strings_view(parts@) =~= before.push(other@[j as int]));
            assert(before.push(other@[j as int]) =~= self@ + other@.take(j as int + 1));
            j += 1;
        }
        assert(other@.take(j as int) =~= other@);
        assert(path_wf(strings_view(parts@))) by {
            let q = strings_view(parts@);
            assert forall|k: int| 0 <= k < q.len() implies (is_name(#[trigger] q[k]) || (k == 0
                && q[k] == root_component())) by {
                if k < self@.len() {
                    assert(q[k] == self@[k]);
                } else {
                    assert(q[k] == other@[k - self@.len()]);
                }
            }
        }
        FilePath { parts }
    }

    /// The path without its last component; the root and the empty path have
    /// none.
    pub fn parent(&self) -> (r: Option<FilePath>)
        ensures
            r is Some <==> parent_of(self@) is Some,
            r is Some ==> r->0@ == parent_of(self@)->0,
    {
        let n = self.parts.len();
        if n == 0 || (n == 1 && self.is_absolute()) {
            None
        } else {
            let r = self.slice(0, n - 1);
            assert(r@ =~= self@.drop_last());
            Some(r)
        }
    }

    /// Whether the last component is `name`.
    pub fn ends_with_name(&self, name: &str) -> (b: bool)
        ensures
            b == (self@.len() > 0 && self@.last() == name@),
    {
        let n = self.parts.len();
        if n == 0 {
            return false;
        }
        str_equal(self.parts[n - 1].as_str(), name)
    }

    /// Whether the first component is `name`.
    pub fn begins_with_name(&self, name: &str) -> (b: bool)
        ensures
            b == (self@.len() > 0 && self@[0] == name@),
    {
        if self.parts.len() == 0 {
            return false;
        }
        str_equal(self.parts[0].as_str(), name)
    }

    /// Reads a path from its spelling.  Repeated and trailing separators and
    /// dot components are dropped.
    pub fn parse(s: &str) -> (r: FilePath)
        ensures
            r@ == parse_path(s@),
    {
        let n = s.unicode_len();
        let mut parts: Vec<String> = Vec::new();
        if n > 0 && s.get_char(0) == '/' {
            proof {
                reveal_strlit("/");
                assert("/"@ =~= root_component());
            }
            parts.push(String::from_str("/"));
        }
        let ghost lead = strings_view(parts@);
        assert(lead =~= parse_path(s@).take(lead.len() as int));
        assert(s@.skip(0) =~= s@);
        let mut start: usize = 0;
        let mut i: usize = 0;
        while i < n
            invariant
                start <= i <= n,
                n == s@.len(),
                forall|j: int| start <= j < i ==> s@[j] != '/',
                parse_path(s@) == strings_view(parts@) + names_of(s@.skip(start as int)),
                path_wf(strings_view(parts@)),
            decreases n - i,
        {
            if s.get_char(i) == '/' {
                let piece = s.substring_char(start, i);
                proof {
                    let t = s@.skip(start as int);
                    lemma_first_slash(t, i - start);
                    assert(t.take(i - start) =~= piece@);
                    assert(t.skip(i - start + 1) =~= s@.skip(i as int + 1));
                }
                if Self::keeps_piece(piece) {
                    let ghost before = strings_view(parts@);
                    parts.push(String::from_str(piece));
                    proof {
                        assert(strings_view(parts@) =~= before + seq![piece@]);
                        lemma_piece_is_name(s@, start as int, i as int);
                        assert(path_wf(strings_view(parts@))) by {
                            let q = strings_view(parts@);
                            assert forall|k: int| 0 <= k < q.len() implies (is_name(
                                #[trigger] q[k],
                            ) || (k == 0 && q[k] == root_component())) by {
                                if k < before.len() {
                                    assert(q[k] == before[k]);
                                }
                            }
                        }
                        assert(before + (seq![piece@] + names_of(s@.skip(i as int + 1)))
                            =~= strings_view(parts@) + names_of(s@.skip(i as int + 1)));
                    }
                } else {
                    proof {
                        assert(Seq::<Seq<char>>::empty() + names_of(s@.skip(i as int + 1))
                            =~= names_of(s@.skip(i as int + 1)));
                    }
                }
                start = i + 1;
            }
            i += 1;
        }
        let piece = s.substring_char(start, n);
        proof {
            let t = s@.skip(start as int);
            lemma_first_slash(t, n - start);
            assert(t.take(n - start) =~= piece@);
        }
        if Self::keeps_piece(piece) {
            let ghost before = strings_view(parts@);
            parts.push(String::from_str(piece));
            proof {
                assert(strings_view(parts@) =~= before + seq![piece@]);
                lemma_piece_is_name(s@, start as int, n as int);
                assert(path_wf(strings_view(parts@))) by {
                    let q = strings_view(parts@);
                    assert forall|k: int| 0 <= k < q.len() implies (is_name(#[trigger] q[k]) || (k
                        == 0 && q[k] == root_component())) by {
                        if k < before.len() {
                            assert(q[k] == before[k]);
                        }
                    }
                }
            }
        } else {
            proof {
                assert(strings_view(parts@) + Seq::<Seq<char>>::empty() =~= strings_view(parts@));
            }
        }
        FilePath { parts }
    }

    fn keeps_piece(piece: &str) -> (b: bool)
        ensures
            b == keeps(piece@),
    {
        proof {
            reveal_strlit(".");
            assert("."@ =~= dot_component());
        }
        piece.unicode_len() > 0 && !str_equal(piece, ".")
    }

    /// The spelling of this path.
    pub fn to_string(&self) -> (r: String)
        ensures
            r@ == render_path(self@),
    {
        let mut out = String::new();
        let n = self.parts.len();
        let mut i: usize = 0;
        while i < n
            invariant
                n == self.parts@.len(),
                i <= n,
                out@ == render_path(self@.take(i as int)),
            decreases n - i,
        {
            let ghost prev = self@.take(i as int);
            let ghost next = self@.take(i as int + 1);
            proof {
                assert(next.drop_last() =~= prev);
                assert(next.last() == self@[i as int]);
                reveal_strlit("/");
                assert("/"@ =~= seq!['/']);
            }
            if i >= 2 || (i == 1 && !self.is_absolute()) {
                out.append("/");
            }
            proof {
                if i == 1 {
                    assert(next[0] == self@[0]);
                }
            }
            out.append(self.parts[i].as_str());
            proof {
                if i == 0 {
                    assert(out@ =~= next[0]);
                } else if i == 1 && is_absolute(self@) {
                    assert(prev[0] == self@[0]);
                    assert(out@ =~= next[0] + next[1]);
                }
            }
            i += 1;
        }
        assert(self@.take(n as int) =~= self@);
        out
    }
}

/// Where the first separator stands.
pub proof fn lemma_first_slash(s: Seq<char>, k: int)
    requires
        0 <= k <= s.len(),
        forall|j: int| 0 <= j < k ==> s[j] != '/',
        k == s.len() || s[k] == '/',
    ensures
        first_slash(s) == k,
    decreases k,
{
    if k > 0 {
        let t = s.drop_first();
        assert forall|j: int| 0 <= j < k - 1 implies t[j] != '/' by {
            assert(t[j] == s[j + 1]);
        }
        lemma_first_slash(t, k - 1);
    }
}

/// A kept piece without separators is a name.
proof fn lemma_piece_is_name(s: Seq<char>, from: int, to: int)
    requires
        0 <= from <= to <= s.len(),
        forall|j: int| from <= j < to ==> s[j] != '/',
        keeps(s.subrange(from, to)),
    ensures
        is_name(s.subrange(from, to)),
{
    let piece = s.subrange(from, to);
    if piece.contains('/') {
        let j = choose|j: int| 0 <= j < piece.len() && piece[j] == '/';
        assert(s[from + j] == '/');
    }
}

/// Calls `common_path::common_path_all` on the paths, each handed over
/// component by component.  The contract restates what that function
/// computes on Unix paths: nothing for no paths, the first path itself where
/// there is no other, and otherwise the components that all paths begin
/// with, unless there is none.
#[verifier::external_body]
pub(crate) fn common_path_all(paths: &Vec<FilePath>) -> (r: Option<FilePath>)
    ensures
        r is Some <==> common_path_result(paths_view(paths@)) is Some,
        r is Some ==> r->0@ == common_path_result(paths_view(paths@))->0,
{
    let bufs: Vec<std::path::PathBuf> = paths.iter().map(|p| p.parts.iter().collect()).collect();
    let found = common_path::common_path_all(bufs.iter().map(|b| b.as_path()));
    found.map(|b| FilePath {
        parts: b.components().map(|c| c.as_os_str().to_string_lossy().into_owned()).collect(),
    })
}

/// Calls `pathdiff::diff_paths`, each path handed over component by
/// component.  The contract restates what that function computes on Unix
/// paths: between an absolute and a relative path, the absolute `path`
/// itself or nothing; otherwise, where `base` has no step to a parent, one
/// such step for each component of `base` behind the common beginning,
/// followed by the rest of `path`.
#[verifier::external_body]
pub(crate) fn diff_paths(path: &FilePath, base: &FilePath) -> (r: Option<FilePath>)
    ensures
        is_absolute(path@) != is_absolute(base@) ==> (r is Some <==> is_absolute(path@)),
        is_absolute(path@) != is_absolute(base@) && r is Some ==> r->0@ == path@,
        is_absolute(path@) == is_absolute(base@) && no_parent_steps(base@) ==> r is Some && r->0@
            == relative_to(path@, base@),
{
    let path_buf: std::path::PathBuf = path.parts.iter().collect();
    let base_buf: std::path::PathBuf = base.parts.iter().collect();
    pathdiff::diff_paths(path_buf, base_buf).map(|b| FilePath {
        parts: b.components().map(|c| c.as_os_str().to_string_lossy().into_owned()).collect(),
    })
}

/// The common beginning of two paths is a beginning of both.
pub proof fn lemma_common_prefix_bounds(a: PathModel, b: PathModel)
    ensures
        is_prefix(common_prefix(a, b), a),
        is_prefix(common_prefix(a, b), b),
    decreases a.len(),
{
    if a.len() > 0 && b.len() > 0 && a[0] == b[0] {
        lemma_common_prefix_bounds(a.drop_first(), b.drop_first());
        let rest = common_prefix(a.drop_first(), b.drop_first());
        let cp = common_prefix(a, b);
        assert(cp =~= seq![a[0]] + rest);
        assert(a.take(cp.len() as int) =~= seq![a[0]] + a.drop_first().take(rest.len() as int));
        assert(b.take(cp.len() as int) =~= seq![b[0]] + b.drop_first().take(rest.len() as int));
    } else {
        assert(a.take(0) =~= Seq::<Seq<char>>::empty());
        assert(b.take(0) =~= Seq::<Seq<char>>::empty());
    }
}

/// Every common beginning of two paths is a beginning of their common
/// beginning.
pub proof fn lemma_common_prefix_longest(a: PathModel, b: PathModel, c: PathModel)
    requires
        is_prefix(c, a),
        is_prefix(c, b),
    ensures
        is_prefix(c, common_prefix(a, b)),
    decreases a.len(),
{
    let cp = common_prefix(a, b);
    if c.len() == 0 {
        assert(cp.take(0) =~= c);
    } else {
        assert(a.take(c.len() as int)[0] == c[0]);
        assert(b.take(c.len() as int)[0] == c[0]);
        let a1 = a.drop_first();
        let b1 = b.drop_first();
        let c1 = c.drop_first();
        assert(a1.take(c1.len() as int) =~= c1) by {
            assert forall|i: int| 0 <= i < c1.len() implies a1.take(c1.len() as int)[i] == c1[i] by {
                assert(a.take(c.len() as int)[i + 1] == c[i + 1]);
            }
        }
        assert(b1.take(c1.len() as int) =~= c1) by {
            assert forall|i: int| 0 <= i < c1.len() implies b1.take(c1.len() as int)[i] == c1[i] by {
                assert(b.take(c.len() as int)[i + 1] == c[i + 1]);
            }
        }
        lemma_common_prefix_longest(a1, b1, c1);
        let rest = common_prefix(a1, b1);
        assert(cp =~= seq![a[0]] + rest);
        assert(cp.take(c.len() as int) =~= seq![a[0]] + rest.take(c1.len() as int));
        assert(c =~= seq![c[0]] + c1);
    }
}

/// A beginning of a beginning is a beginning.
pub proof fn lemma_prefix_transitive(a: PathModel, b: PathModel, c: PathModel)
    requires
        is_prefix(a, b),
        is_prefix(b, c),
    ensures
        is_prefix(a, c),
{
    assert(c.take(a.len() as int) =~= b.take(a.len() as int)) by {
        assert forall|i: int| 0 <= i < a.len() implies c.take(a.len() as int)[i] == b.take(
            a.len() as int,
        )[i] by {
            assert(c.take(b.len() as int)[i] == b[i]);
        }
    }
}

/// The common beginning of several paths is a beginning of each of them.
pub proof fn lemma_common_prefix_all_bounds(paths: Seq<PathModel>, i: int)
    requires
        0 <= i < paths.len(),
    ensures
        is_prefix(common_prefix_all(paths), paths[i]),
    decreases paths.len(),
{
    if paths.len() == 1 {
        assert(paths[0].take(paths[0].len() as int) =~= paths[0]);
    } else {
        let front = paths.drop_last();
        let inner = common_prefix_all(front);
        lemma_common_prefix_bounds(inner, paths.last());
        if i < paths.len() - 1 {
            lemma_common_prefix_all_bounds(front, i);
            assert(front[i] == paths[i]);
            lemma_prefix_transitive(common_prefix_all(paths), inner, paths[i]);
        }
    }
}

/// Every beginning that several paths share is a beginning of their common
/// beginning.
pub proof fn lemma_common_prefix_all_longest(paths: Seq<PathModel>, c: PathModel)
    requires
        paths.len() > 0,
        forall|i: int| 0 <= i < paths.len() ==> is_prefix(c, #[trigger] paths[i]),
    ensures
        is_prefix(c, common_prefix_all(paths)),
    decreases paths.len(),
{
    if paths.len() == 1 {
    } else {
        let front = paths.drop_last();
        assert forall|i: int| 0 <= i < front.len() implies is_prefix(c, #[trigger] front[i]) by {
            assert(front[i] == paths[i]);
        }
        lemma_common_prefix_all_longest(front, c);
        lemma_common_prefix_longest(common_prefix_all(front), paths.last(), c);
    }
}

/// Whether `p` is among `v`.
pub fn contains_path(v: &Vec<FilePath>, p: &FilePath) -> (b: bool)
    ensures
        b == paths_view(v@).contains(p@),
{
    let mut i: usize = 0;
    while i < v.len()
        invariant
            i <= v@.len(),
            forall|j: int| 0 <= j < i ==> paths_view(v@)[j] != p@,
        decreases v@.len() - i,
    {
        if v[i].same(p) {
            assert(paths_view(v@)[i as int] == p@);
            return true;
        }
        i += 1;
    }
    false
}

/// The common beginning of several paths depends on which paths they are,
/// not on their order or number.
pub proof fn lemma_common_prefix_all_members(a: Seq<PathModel>, b: Seq<PathModel>)
    requires
        a.len() > 0,
        b.len() > 0,
        forall|i: int| 0 <= i < a.len() ==> b.contains(#[trigger] a[i]),
        forall|j: int| 0 <= j < b.len() ==> a.contains(#[trigger] b[j]),
    ensures
        common_prefix_all(a) == common_prefix_all(b),
{
    let ca = common_prefix_all(a);
    let cb = common_prefix_all(b);
    assert forall|j: int| 0 <= j < b.len() implies is_prefix(ca, #[trigger] b[j]) by {
        assert(a.contains(b[j]));
        let i = choose|i: int| 0 <= i < a.len() && a[i] == b[j];
        lemma_common_prefix_all_bounds(a, i);
    }
    lemma_common_prefix_all_longest(b, ca);
    assert forall|i: int| 0 <= i < a.len() implies is_prefix(cb, #[trigger] a[i]) by {
        assert(b.contains(a[i]));
        let j = choose|j: int| 0 <= j < b.len() && b[j] == a[i];
        lemma_common_prefix_all_bounds(b, j);
    }
    lemma_common_prefix_all_longest(a, cb);
    assert(cb.take(ca.len() as int) =~= cb);
    assert(ca =~= cb);
}

/// The names joined by separators.
pub open spec fn spell_names(names: PathModel) -> Seq<char>
    decreases names.len(),
{
    if names.len() == 0 {
        Seq::<char>::empty()
    } else if names.len() == 1 {
        names[0]
    } else {
        names[0] + seq!['/'] + spell_names(names.drop_first())
    }
}

/// One more name is spelled behind a separator.
proof fn lemma_spell_push(names: PathModel, last: Seq<char>)
    requires
        names.len() > 0,
    ensures
        spell_names(names.push(last)) == spell_names(names) + seq!['/'] + last,
    decreases names.len(),
{
    let all = names.push(last);
    assert(all[0] == names[0]);
    if names.len() == 1 {
        assert(all.drop_first() =~= seq![last]);
        assert(spell_names(seq![last]) == last);
    } else {
        let rest = names.drop_first();
        assert(all.drop_first() =~= rest.push(last));
        lemma_spell_push(rest, last);
        assert(names[0] + seq!['/'] + (spell_names(rest) + seq!['/'] + last) =~= (names[0]
            + seq!['/'] + spell_names(rest)) + seq!['/'] + last);
    }
}

/// The spelling of a path is the root, if it has one, and its names joined
/// by separators.
proof fn lemma_render_spells(p: PathModel)
    ensures
        is_absolute(p) ==> render_path(p) == root_component() + spell_names(p.drop_first()),
        !is_absolute(p) ==> render_path(p) == spell_names(p),
    decreases p.len(),
{
    if p.len() == 0 {
    } else if p.len() == 1 {
        if is_absolute(p) {
            assert(p.drop_first() =~= Seq::<Seq<char>>::empty());
            assert(root_component() + Seq::<char>::empty() =~= root_component());
        }
    } else if p.len() == 2 && p[0] == root_component() {
        assert(p.drop_first() =~= seq![p[1]]);
    } else {
        let front = p.drop_last();
        lemma_render_spells(front);
        assert(front[0] == p[0]);
        if is_absolute(p) {
            let names = front.drop_first();
            assert(p.drop_first() =~= names.push(p.last()));
            lemma_spell_push(names, p.last());
            assert(root_component() + (spell_names(names) + seq!['/'] + p.last())
                =~= root_component() + spell_names(names) + seq!['/'] + p.last());
        } else {
            assert(p =~= front.push(p.last()));
            lemma_spell_push(front, p.last());
        }
    }
}

/// Reading the names joined by separators gives the names.
proof fn lemma_names_of_spelling(names: PathModel)
    requires
        forall|i: int| 0 <= i < names.len() ==> is_name(#[trigger] names[i]),
    ensures
        names_of(spell_names(names)) == names,
    decreases names.len(),
{
    let s = spell_names(names);
    if names.len() == 0 {
        assert(s.take(0) =~= Seq::<char>::empty());
        assert(names =~= Seq::<Seq<char>>::empty());
    } else {
        let head = names[0];
        assert(is_name(head));
        assert forall|j: int| 0 <= j < head.len() implies head[j] != '/' by {
            if head[j] == '/' {
                assert(head.contains('/'));
            }
        }
        if names.len() == 1 {
            lemma_first_slash(s, s.len() as int);
            assert(s.take(s.len() as int) =~= s);
            assert(names =~= seq![head]);
        } else {
            let rest = names.drop_first();
            assert forall|i: int| 0 <= i < rest.len() implies is_name(#[trigger] rest[i]) by {
                assert(rest[i] == names[i + 1]);
            }
            lemma_names_of_spelling(rest);
            let k = head.len() as int;
            assert(s[k] == '/');
            assert forall|j: int| 0 <= j < k implies s[j] != '/' by {
                assert(s[j] == head[j]);
            }
            lemma_first_slash(s, k);
            assert(s.take(k) =~= head);
            assert(s.skip(k + 1) =~= spell_names(rest));
            assert(seq![head] + rest =~= names);
        }
    }
}

/// Reading the spelling of a path gives the path back.
pub proof fn theorem_parse_inverts_render(p: PathModel)
    requires
        path_wf(p),
    ensures
        parse_path(render_path(p)) == p,
{
    lemma_render_spells(p);
    let s = render_path(p);
    if is_absolute(p) {
        let rest = p.drop_first();
        assert forall|i: int| 0 <= i < rest.len() implies is_name(#[trigger] rest[i]) by {
            assert(rest[i] == p[i + 1]);
            assert(is_name(p[i + 1]) || (i + 1 == 0 && p[i + 1] == root_component()));
        }
        lemma_names_of_spelling(rest);
        assert(s[0] == '/');
        assert(s.take(0) =~= Seq::<char>::empty());
        assert(s.skip(1) =~= spell_names(rest));
        assert(seq![root_component()] + rest =~= p);
        assert(names_of(s) == Seq::<Seq<char>>::empty() + names_of(s.skip(1)));
        assert(Seq::<Seq<char>>::empty() + rest =~= rest);
    } else {
        assert forall|i: int| 0 <= i < p.len() implies is_name(#[trigger] p[i]) by {
            assert(is_name(p[i]) || (i == 0 && p[i] == root_component()));
        }
        lemma_names_of_spelling(p);
        if p.len() > 0 {
            assert(is_name(p[0]));
            assert(s[0] == p[0][0]);
            if p[0][0] == '/' {
                assert(p[0].contains('/'));
            }
        }
        assert(Seq::<Seq<char>>::empty() + p =~= p);
    }
}

/// Whether two strings hold the same characters.
pub fn str_equal(a: &str, b: &str) -> (r: bool)
    ensures
        r == (a@ == b@),
{
    let n = a.unicode_len();
    if n != b.unicode_len() {
        return false;
    }
    let mut i: usize = 0;
    while i < n
        invariant
            n == a@.len(),
            n == b@.len(),
            i <= n,
            a@.take(i as int) == b@.take(i as int),
        decreases n - i,
    {
        if a.get_char(i) != b.get_char(i) {
            assert(a@.take(i as int + 1)[i as int] != b@.take(i as int + 1)[i as int]);
            return false;
        }
        assert(a@.take(i as int + 1) =~= a@.take(i as int).push(a@[i as int]));
        assert(b@.take(i as int + 1) =~= b@.take(i as int).push(b@[i as int]));
        i += 1;
    }
    assert(a@.take(n as int) =~= a@);
    assert(b@.take(n as int) =~= b@);
    true
}

} // verus!
