//! Paths as sequences of components, and the paths and keys the runner
//! derives from them.

use vstd::prelude::*;

verus! {

/// The separator between path components, and the whole of the root path.
pub open spec fn separator() -> Seq<char> {
    seq!['/']
}

/// A path as its components, first to last; an absolute path starts with
/// the component `/`.
#[derive(Debug)]
pub struct PathParts {
    pub parts: Vec<String>,
}

impl View for PathParts {
    type V = Seq<Seq<char>>;

    open spec fn view(&self) -> Seq<Seq<char>> {
        self.parts.deep_view()
    }
}

impl Clone for PathParts {
    fn clone(&self) -> (res: Self)
        ensures
            res@ == self@,
    {
        let mut parts: Vec<String> = Vec::new();
        let mut i: usize = 0;
        while i < self.parts.len()
            invariant
                i <= self.parts.len(),
                parts@.len() == i,
                forall|j: int| 0 <= j < i ==> #[trigger] parts@[j]@ == self.parts@[j]@,
            decreases self.parts.len() - i,
        {
            parts.push(self.parts[i].clone());
            i = i + 1;
        }
        let res = PathParts { parts };
        assert(res@ =~= self@);
        res
    }
}

/// The text of a path: its components joined by `/`, where the root
/// component `/` is followed directly by the next one.
pub open spec fn render_path(p: Seq<Seq<char>>) -> Seq<char>
    decreases p.len(),
{
    if p.len() == 0 {
        Seq::empty()
    } else if p.len() == 1 {
        p[0]
    } else {
        let init = render_path(p.drop_last());
        if init == separator() {
            init + p.last()
        } else {
            init + separator() + p.last()
        }
    }
}

/// Whether `base` is a leading run of the components of `p`.
pub open spec fn is_prefix(base: Seq<Seq<char>>, p: Seq<Seq<char>>) -> bool {
    base.len() <= p.len() && p.take(base.len() as int) == base
}

/// The key of an exercise: its directory relative to the root when it lies
/// under the root, the whole directory otherwise.
pub open spec fn key_spec(root: Seq<Seq<char>>, dir: Seq<Seq<char>>) -> Seq<char> {
    if is_prefix(root, dir) {
        render_path(dir.skip(root.len() as int))
    } else {
        render_path(dir)
    }
}

/// The name of the directory that holds the exercises.
pub const EXERCISES_DIR: &'static str = "exercises";

/// The name of the file that records passed exercises.
pub const STATE_FILE: &'static str = ".runner-state";

/// The key of a directory under the root is its path relative to the root:
/// for `root` followed by the components `rel`, the text of `rel`.
pub proof fn lemma_key_of_path_under_root(root: Seq<Seq<char>>, rel: Seq<Seq<char>>)
    ensures
        key_spec(root, root + rel) == render_path(rel),
{
    assert((root + rel).take(root.len() as int) =~= root);
    assert((root + rel).skip(root.len() as int) =~= rel);
}

/// A path lies under each of its leading runs, and a file of an exercise
/// lies under the exercise's directory.
pub proof fn lemma_child_lies_under(dir: Seq<Seq<char>>, rel: Seq<Seq<char>>)
    ensures
        is_prefix(dir, dir + rel),
{
    assert((dir + rel).take(dir.len() as int) =~= dir);
}

/// A named path component (a name, `.` or `..`): not empty and without `/`.
pub open spec fn name_component(c: Seq<char>) -> bool {
    &&& c.len() > 0
    &&& forall|j: int| 0 <= j < c.len() ==> #[trigger] c[j] != '/'
}

/// The component `.`.
pub open spec fn cur_dir() -> Seq<char> {
    seq!['.']
}

/// Whether a component sequence is one that a `Path` yields: the root
/// component `/` only first; every other component a name; `.` only first.
pub open spec fn valid_components(p: Seq<Seq<char>>) -> bool {
    forall|i: int| 0 <= i < p.len() ==> {
        if #[trigger] p[i] == separator() {
            i == 0
        } else {
            name_component(p[i]) && (p[i] == cur_dir() ==> i == 0)
        }
    }
}

/// How many characters `t` begins with before its first `/` (all of them
/// when it has none).
pub open spec fn piece_len(t: Seq<char>) -> nat
    decreases t.len(),
{
    if t.len() == 0 || t[0] == '/' {
        0
    } else {
        1 + piece_len(t.drop_first())
    }
}

/// The components that the pieces of `t` between `/` stand for, as `Path`
/// reads them: empty pieces are dropped, and so is a `.` piece unless it is
/// the first piece of a relative path (`first`).
pub open spec fn name_pieces(t: Seq<char>, first: bool) -> Seq<Seq<char>>
    decreases t.len(),
{
    if t.len() == 0 {
        Seq::empty()
    } else {
        let n = piece_len(t);
        let piece = t.take(n as int);
        let rest = if n < t.len() {
            name_pieces(t.skip(n as int + 1), false)
        } else {
            Seq::empty()
        };
        if n == 0 || (piece == cur_dir() && !first) {
            rest
        } else {
            seq![piece] + rest
        }
    }
}

/// The components that a path text stands for, as `Path::join` and
/// `Path::components` read it: a leading `/` is the root component, then
/// the pieces between `/`.
pub open spec fn text_components(t: Seq<char>) -> Seq<Seq<char>> {
    if t.len() > 0 && t[0] == '/' {
        seq![separator()] + name_pieces(t.drop_first(), false)
    } else {
        name_pieces(t, true)
    }
}

proof fn lemma_piece_len_split(t: Seq<char>, k: int)
    requires
        0 <= k <= t.len(),
        forall|j: int| 0 <= j < k ==> #[trigger] t[j] != '/',
    ensures
        piece_len(t) == k + piece_len(t.skip(k)),
    decreases k,
{
    if k > 0 {
        assert forall|j: int| 0 <= j < k - 1 implies #[trigger] t.drop_first()[j] != '/' by {
            assert(t.drop_first()[j] == t[j + 1]);
        }
        lemma_piece_len_split(t.drop_first(), k - 1);
        assert(t.drop_first().skip(k - 1) =~= t.skip(k));
    } else {
        assert(t.skip(0) =~= t);
    }
}

/// The text of plain names is not empty, begins with the first name, and
/// is not the root path.
proof fn lemma_render_plain(p: Seq<Seq<char>>)
    requires
        p.len() >= 1,
        forall|i: int| 0 <= i < p.len() ==> name_component(#[trigger] p[i]),
    ensures
        render_path(p).len() > 0,
        render_path(p)[0] == p[0][0],
        render_path(p) != separator(),
    decreases p.len(),
{
    assert(name_component(p[0]));
    if p.len() >= 2 {
        let dl = p.drop_last();
        assert forall|i: int| 0 <= i < dl.len() implies name_component(#[trigger] dl[i]) by {
            assert(dl[i] == p[i]);
        }
        lemma_render_plain(dl);
        assert(dl[0] == p[0]);
        assert(render_path(p) == render_path(dl) + separator() + p.last());
    } else {
        assert(p[0][0] != '/');
    }
    if render_path(p) == separator() {
        assert(render_path(p)[0] == '/');
    }
}

/// Rendering from the front: the first name, `/`, then the rest rendered.
proof fn lemma_render_front(p: Seq<Seq<char>>)
    requires
        p.len() >= 2,
        forall|i: int| 0 <= i < p.len() ==> name_component(#[trigger] p[i]),
    ensures
        render_path(p) == p[0] + separator() + render_path(p.drop_first()),
    decreases p.len(),
{
    let dl = p.drop_last();
    assert forall|i: int| 0 <= i < dl.len() implies name_component(#[trigger] dl[i]) by {
        assert(dl[i] == p[i]);
    }
    lemma_render_plain(dl);
    if p.len() == 2 {
        assert(render_path(dl) == p[0]);
        assert(p.drop_first() =~= seq![p[1]]);
        assert(render_path(p) =~= p[0] + separator() + p[1]);
    } else {
        let df = p.drop_first();
        assert forall|i: int| 0 <= i < df.len() implies name_component(#[trigger] df[i]) by {
            assert(df[i] == p[i + 1]);
        }
        lemma_render_front(dl);
        assert(dl.drop_first() =~= df.drop_last());
        let dfl = df.drop_last();
        assert forall|i: int| 0 <= i < dfl.len() implies name_component(#[trigger] dfl[i]) by {
            assert(dfl[i] == p[i + 1]);
        }
        lemma_render_plain(dfl);
        assert(df.last() == p.last());
        let r = render_path(dfl);
        assert(render_path(df) == r + separator() + p.last());
        assert(render_path(p) == (p[0] + separator() + r) + separator() + p.last());
        assert((p[0] + separator() + r) + separator() + p.last() =~= p[0] + separator() + (r + separator() + p.last()));
    }
}

/// Reading back the text of names gives the same names, when a `.` can
/// only be the first of them and is kept there (`first`).
proof fn lemma_name_pieces_of_render(rel: Seq<Seq<char>>, first: bool)
    requires
        forall|i: int| 0 <= i < rel.len() ==> name_component(#[trigger] rel[i]),
        forall|i: int| 0 <= i < rel.len() && #[trigger] rel[i] == cur_dir() ==> i == 0 && first,
    ensures
        name_pieces(render_path(rel), first) == rel,
    decreases rel.len(),
{
    if rel.len() == 0 {
        assert(name_pieces(render_path(rel), first) =~= rel);
    } else {
        let k = rel[0];
        assert(name_component(k));
        let t = render_path(rel);
        if rel.len() == 1 {
            assert(t == k);
            lemma_piece_len_split(t, k.len() as int);
            assert(t.skip(k.len() as int) =~= Seq::<char>::empty());
            assert(piece_len(t) == k.len());
            assert(t.take(k.len() as int) =~= k);
            assert(name_pieces(t, first) =~= rel);
        } else {
            lemma_render_front(rel);
            let df = rel.drop_first();
            let r = render_path(df);
            assert forall|i: int| 0 <= i < df.len() implies name_component(#[trigger] df[i]) by {
                assert(df[i] == rel[i + 1]);
            }
            assert forall|i: int| 0 <= i < df.len() && #[trigger] df[i] == cur_dir() implies i == 0 && false by {
                assert(df[i] == rel[i + 1]);
            }
            lemma_name_pieces_of_render(df, false);
            assert(t =~= k + separator() + r);
            assert forall|j: int| 0 <= j < k.len() implies #[trigger] t[j] != '/' by {
                assert(t[j] == k[j]);
            }
            lemma_piece_len_split(t, k.len() as int);
            assert(t.skip(k.len() as int)[0] == '/');
            assert(piece_len(t) == k.len());
            assert(t.take(k.len() as int) =~= k);
            assert(t.skip(k.len() as int + 1) =~= r);
            assert(name_pieces(t, first) =~= seq![k] + df);
            assert(rel =~= seq![k] + df);
        }
    }
}

/// The text of the root followed by names is `/` followed by the text of
/// the names.
proof fn lemma_render_rooted(q: Seq<Seq<char>>)
    requires
        forall|i: int| 0 <= i < q.len() ==> name_component(#[trigger] q[i]),
    ensures
        render_path(seq![separator()] + q) == separator() + render_path(q),
    decreases q.len(),
{
    let p = seq![separator()] + q;
    if q.len() == 0 {
        assert(p =~= seq![separator()]);
        assert(separator() + render_path(q) =~= separator());
    } else if q.len() == 1 {
        assert(p.drop_last() =~= seq![separator()]);
        assert(render_path(p.drop_last()) == separator());
        assert(render_path(q) == q[0]);
    } else {
        let ql = q.drop_last();
        assert forall|i: int| 0 <= i < ql.len() implies name_component(#[trigger] ql[i]) by {
            assert(ql[i] == q[i]);
        }
        lemma_render_rooted(ql);
        assert(p.drop_last() =~= seq![separator()] + ql);
        lemma_render_plain(ql);
        let r = render_path(ql);
        assert(render_path(p.drop_last()) == separator() + r);
        assert((separator() + r).len() > 1);
        assert(render_path(p) == (separator() + r) + separator() + q.last());
        assert(render_path(q) == r + separator() + q.last());
        assert((separator() + r) + separator() + q.last() =~= separator() + (r + separator() + q.last()));
    }
}

/// Reading back the text of a component sequence that a `Path` yields gives
/// the same components.
pub proof fn lemma_text_components_of_render(p: Seq<Seq<char>>)
    requires
        valid_components(p),
    ensures
        text_components(render_path(p)) == p,
{
    if p.len() == 0 {
        assert(text_components(render_path(p)) =~= p);
    } else if p[0] == separator() {
        let q = p.drop_first();
        assert forall|i: int| 0 <= i < q.len() implies name_component(#[trigger] q[i]) by {
            assert(q[i] == p[i + 1]);
            assert(p[i + 1] != separator());
        }
        assert forall|i: int| 0 <= i < q.len() && #[trigger] q[i] == cur_dir() implies i == 0 && false by {
            assert(q[i] == p[i + 1]);
            assert(p[i + 1] != separator());
        }
        assert(p =~= seq![separator()] + q);
        lemma_render_rooted(q);
        lemma_name_pieces_of_render(q, false);
        let t = render_path(p);
        assert(t == separator() + render_path(q));
        assert(t.drop_first() =~= render_path(q));
        assert(text_components(t) =~= p);
    } else {
        assert forall|i: int| 0 <= i < p.len() implies name_component(#[trigger] p[i]) by {
            if p[i] == separator() {
                assert(i == 0);
            }
        }
        assert forall|i: int| 0 <= i < p.len() && #[trigger] p[i] == cur_dir() implies i == 0 && true by {
            assert(p[i] != separator());
        }
        lemma_name_pieces_of_render(p, true);
        lemma_render_plain(p);
        assert(p[0][0] != '/');
    }
}

/// Joining an exercise's key back onto the root gives its directory, for
/// every directory under the root whose components a `Path` can yield; and
/// the key is relative (it does not begin with `/`) unless the root is empty
/// and the directory absolute.
pub proof fn lemma_key_joins_back(root: Seq<Seq<char>>, dir: Seq<Seq<char>>)
    requires
        is_prefix(root, dir),
        valid_components(dir),
    ensures
        root + text_components(key_spec(root, dir)) == dir,
        key_spec(root, dir).len() > 0 && !(root.len() == 0 && dir[0] == separator()) ==> key_spec(root, dir)[0] != '/',
{
    let rel = dir.skip(root.len() as int);
    assert(root + rel =~= dir);
    if root.len() == 0 {
        assert(rel =~= dir);
    } else {
        assert forall|i: int| 0 <= i < rel.len() implies name_component(#[trigger] rel[i]) && rel[i] != separator() && rel[i] != cur_dir() by {
            assert(rel[i] == dir[root.len() + i]);
            if dir[root.len() + i] == separator() {
                assert(root.len() + i == 0);
            }
            if dir[root.len() + i] == cur_dir() {
                assert(root.len() + i == 0);
            }
        }
        assert(valid_components(rel));
    }
    lemma_text_components_of_render(rel);
    if rel.len() > 0 && rel[0] != separator() {
        assert forall|i: int| 0 <= i < rel.len() implies name_component(#[trigger] rel[i]) by {
            if rel[i] == separator() {
                assert(i == 0);
            }
        }
        lemma_render_plain(rel);
    }
    if root.len() == 0 && dir.len() > 0 {
        assert(rel[0] == dir[0]);
    }
}

impl PathParts {
    /// The path with one more component at its end (`Path::join` of a
    /// plain name).
    pub fn child(&self, name: &str) -> (res: PathParts)
        ensures
            res@ == self@.push(name@),
    {
        let mut res = self.clone();
        res.parts.push(name.to_owned());
        assert(res@ =~= self@.push(name@));
        res
    }

    /// Whether `base` is a leading run of this path's components.
    pub fn starts_with(&self, base: &PathParts) -> (res: bool)
        ensures
            res == is_prefix(base@, self@),
    {
        let n = base.parts.len();
        if n > self.parts.len() {
            return false;
        }
        let mut i: usize = 0;
        while i < n
            invariant
                n == base@.len(),
                n <= self@.len(),
                i <= n,
                forall|j: int| 0 <= j < i ==> self@[j] == base@[j],
            decreases n - i,
        {
            if self.parts[i] != base.parts[i] {
                assert(self@.take(n as int)[i as int] != base@[i as int]);
                return false;
            }
            i = i + 1;
        }
        assert(self@.take(n as int) =~= base@);
        true
    }

    /// The rest of this path after `base`, when `base` is a leading run of
    /// its components.
    pub fn strip_prefix(&self, base: &PathParts) -> (res: Option<PathParts>)
        ensures
            match res {
                Some(rest) => is_prefix(base@, self@) && rest@ == self@.skip(base@.len() as int),
                None => !is_prefix(base@, self@),
            },
    {
        if !self.starts_with(base) {
            return None;
        }
        let mut parts: Vec<String> = Vec::new();
        let mut i: usize = base.parts.len();
        while i < self.parts.len()
            invariant
                base@.len() <= i <= self@.len(),
                parts@.len() == i - base@.len(),
                forall|j: int| 0 <= j < parts@.len() ==> #[trigger] parts@[j]@ == self@[base@.len() + j],
            decreases self.parts.len() - i,
        {
            parts.push(self.parts[i].clone());
            i = i + 1;
        }
        let rest = PathParts { parts };
        assert(rest@ =~= self@.skip(base@.len() as int));
        Some(rest)
    }

    /// The text of the path.
    pub fn render(&self) -> (res: String)
        ensures
            res@ == render_path(self@),
    {
        let mut acc = String::new();
        let mut i: usize = 0;
        while i < self.parts.len()
            invariant
                i <= self@.len(),
                acc@ == render_path(self@.take(i as int)),
            decreases self.parts.len() - i,
        {
            proof {
                assert(self@.take(i + 1).drop_last() =~= self@.take(i as int));
            }
            if i == 0 {
                acc = self.parts[0].clone();
            } else if acc.as_str().unicode_len() == 1 && acc.as_str().get_char(0) == '/' {
                assert(acc@ =~= separator());
                acc.append(self.parts[i].as_str());
            } else {
                proof {
                    if acc@ == separator() {
                        assert(acc@.len() == 1 && acc@[0] == '/');
                    }
                }
                acc.append("/");
                proof { reveal_strlit("/"); assert("/"@ =~= separator()); }
                acc.append(self.parts[i].as_str());
            }
            i = i + 1;
        }
        assert(self@.take(self@.len() as int) =~= self@);
        acc
    }
}

/// The path and each of its ancestors, nearest first, down to its first
/// component (the root directory for an absolute path).
pub fn ancestors(path: &PathParts) -> (res: Vec<PathParts>)
    ensures
        res@.len() == path@.len(),
        forall|i: int| 0 <= i < res@.len() ==> #[trigger] res@[i]@ == path@.take(path@.len() - i),
{
    let n = path.parts.len();
    let mut res: Vec<PathParts> = Vec::new();
    let mut current = path.clone();
    let mut i: usize = 0;
    while i < n
        invariant
            n == path@.len(),
            i <= n,
            res@.len() == i,
            current@ == path@.take(n - i),
            forall|j: int| 0 <= j < i ==> #[trigger] res@[j]@ == path@.take(n - j),
        decreases n - i,
    {
        let next = current.clone();
        res.push(current);
        current = next;
        let ghost before = current@;
        current.parts.pop();
        assert(current@ =~= before.drop_last());
        assert(current@ =~= path@.take(n - i - 1));
        i = i + 1;
    }
    res
}

/// The file that records passed exercises, directly under the root.
pub fn state_path(root: &PathParts) -> (res: PathParts)
    ensures
        res@ == root@.push(STATE_FILE@),
{
    root.child(STATE_FILE)
}

/// The key of an exercise directory: the directory relative to the root,
/// as text; the whole directory when it does not lie under the root.
pub fn key_of(root: &PathParts, dir: &PathParts) -> (res: String)
    ensures
        res@ == key_spec(root@, dir@),
{
    match dir.strip_prefix(root) {
        Some(rest) => rest.render(),
        None => dir.render(),
    }
}

/// The library source of an exercise: `src/lib.rs` under its directory.
pub fn lib_file(dir: &PathParts) -> (res: PathParts)
    ensures
        res@ == dir@.push("src"@).push("lib.rs"@),
{
    dir.child("src").child("lib.rs")
}

/// The program source of an exercise: `src/main.rs` under its directory.
pub fn main_file(dir: &PathParts) -> (res: PathParts)
    ensures
        res@ == dir@.push("src"@).push("main.rs"@),
{
    dir.child("src").child("main.rs")
}

/// The primary source file of an exercise, to open in an editor and to read
/// notes from: `src/lib.rs` when that file exists, `src/main.rs` otherwise.
pub fn source_file(dir: &PathParts, lib_exists: bool) -> (res: PathParts)
    ensures
        lib_exists ==> res@ == dir@.push("src"@).push("lib.rs"@),
        !lib_exists ==> res@ == dir@.push("src"@).push("main.rs"@),
{
    if lib_exists {
        lib_file(dir)
    } else {
        main_file(dir)
    }
}

} // verus!
