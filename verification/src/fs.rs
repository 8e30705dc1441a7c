//! The filesystem as the library models it: a map from paths (sequences of
//! name segments, relative to an existing root) to objects (directories, or
//! files with textual contents), the two primitive actions that `create`
//! performs on it, and a verified in-memory filesystem holding that map.

use vstd::prelude::*;

verus! {

/// The ways a creation step can fail in the model: the target path already
/// holds an object, or its parent directory does not exist.
#[derive(Clone, Copy, Debug, PartialEq, Eq, Structural)]
pub enum FsError {
    AlreadyExists,
    NotFound,
}

/// A filesystem object: a directory, or a file with its textual contents.
pub enum Obj {
    Dir,
    File { contents: Seq<char> },
}

/// A filesystem state: each existing path, as the sequence of its name
/// segments relative to the root, mapped to the object it holds.
/// The root itself (the empty path) is implicit and always a directory.
pub type FsMap = Map<Seq<Seq<char>>, Obj>;

/// One primitive filesystem action: create a new directory, or create a new
/// file and write the given contents into it. Paths are segment lists
/// relative to the root the plan is executed under.
#[derive(Debug, Clone, PartialEq, Eq)]
pub enum Action {
    MakeDir { path: Vec<String> },
    WriteFile { path: Vec<String>, contents: String },
}

/// The mathematical shape of an [`Action`].
pub enum ActionView {
    MakeDir { path: Seq<Seq<char>> },
    WriteFile { path: Seq<Seq<char>>, contents: Seq<char> },
}

impl ActionView {
    /// The path at which the action creates an object.
    pub open spec fn target(&self) -> Seq<Seq<char>> {
        match self {
            ActionView::MakeDir { path } => *path,
            ActionView::WriteFile { path, .. } => *path,
        }
    }

    /// The object the action creates when it succeeds.
    pub open spec fn obj(&self) -> Obj {
        match self {
            ActionView::MakeDir { .. } => Obj::Dir,
            ActionView::WriteFile { contents, .. } => Obj::File { contents: *contents },
        }
    }
}

impl View for Action {
    type V = ActionView;

    open spec fn view(&self) -> ActionView {
        match self {
            Action::MakeDir { path } => ActionView::MakeDir { path: path.deep_view() },
            Action::WriteFile { path, contents } => ActionView::WriteFile {
                path: path.deep_view(),
                contents: contents@,
            },
        }
    }
}

impl DeepView for Action {
    type V = ActionView;

    open spec fn deep_view(&self) -> ActionView {
        self.view()
    }
}

/// Whether the parent directory of path `p` exists in `m`: the root (for a
/// single-segment path) always does; otherwise the path one segment shorter
/// must hold a directory.
pub open spec fn parent_is_dir(m: FsMap, p: Seq<Seq<char>>) -> bool {
    p.len() == 1 || (m.dom().contains(p.drop_last()) && m[p.drop_last()] is Dir)
}

/// What creating object `o` at path `p` does to filesystem `m`: it fails
/// without mutation when `p` already holds an object (the root always does),
/// fails without mutation when the parent directory is missing, and otherwise
/// adds exactly the one object.
pub open spec fn apply_step(m: FsMap, p: Seq<Seq<char>>, o: Obj) -> (FsMap, Result<(), FsError>) {
    if p.len() == 0 || m.dom().contains(p) {
        (m, Err(FsError::AlreadyExists))
    } else if !parent_is_dir(m, p) {
        (m, Err(FsError::NotFound))
    } else {
        (m.insert(p, o), Ok(()))
    }
}

/// What performing action `a` does to filesystem `m`.
pub open spec fn apply_spec(m: FsMap, a: ActionView) -> (FsMap, Result<(), FsError>) {
    apply_step(m, a.target(), a.obj())
}

/// What performing a sequence of actions does: each in turn, stopping at the
/// first failure and keeping whatever was already created.
pub open spec fn run_spec(m: FsMap, actions: Seq<ActionView>) -> (FsMap, Result<(), FsError>)
    decreases actions.len(),
{
    if actions.len() == 0 {
        (m, Ok(()))
    } else {
        let (m1, r) = apply_spec(m, actions[0]);
        if r is Err {
            (m1, r)
        } else {
            run_spec(m1, actions.drop_first())
        }
    }
}

/// A filesystem map shaped like a real tree: every path present is non-empty
/// and has its parent directory present.
pub open spec fn fs_wf(m: FsMap) -> bool {
    forall|p: Seq<Seq<char>>| #[trigger] m.dom().contains(p) ==> p.len() >= 1 && parent_is_dir(m, p)
}

/// A created object as the in-memory filesystem stores it.
pub enum Node {
    Dir,
    File { contents: String },
}

impl View for Node {
    type V = Obj;

    open spec fn view(&self) -> Obj {
        match self {
            Node::Dir => Obj::Dir,
            Node::File { contents } => Obj::File { contents: contents@ },
        }
    }
}

/// The map described by a list of (path, object) records, later records
/// taking precedence.
pub(crate) open spec fn map_of(s: Seq<(Vec<String>, Node)>) -> FsMap
    decreases s.len(),
{
    if s.len() == 0 {
        Map::empty()
    } else {
        map_of(s.drop_last()).insert(s.last().0.deep_view(), s.last().1@)
    }
}

/// Whether the records of `s` all have distinct paths.
pub(crate) open spec fn keys_distinct(s: Seq<(Vec<String>, Node)>) -> bool {
    forall|i: int, j: int|
        #![trigger s[i], s[j]]
        0 <= i < j < s.len() ==> s[i].0.deep_view() != s[j].0.deep_view()
}

/// A path is in the map described by `s` exactly when some record holds it,
/// and under distinct keys each record's path maps to that record's object.
pub(crate) proof fn lemma_map_of_props(s: Seq<(Vec<String>, Node)>)
    ensures
        forall|k: Seq<Seq<char>>|
            #[trigger] map_of(s).dom().contains(k) <==> exists|i: int|
                0 <= i < s.len() && (#[trigger] s[i]).0.deep_view() == k,
        keys_distinct(s) ==> forall|i: int|
            0 <= i < s.len() ==> map_of(s)[(#[trigger] s[i]).0.deep_view()] == s[i].1@,
    decreases s.len(),
{
    if s.len() == 0 {
    } else {
        let s0 = s.drop_last();
        lemma_map_of_props(s0);
        assert forall|k: Seq<Seq<char>>| #[trigger] map_of(s).dom().contains(k) implies exists|i: int|
            0 <= i < s.len() && (#[trigger] s[i]).0.deep_view() == k by {
            if k == s.last().0.deep_view() {
                assert(s[s.len() - 1].0.deep_view() == k);
            } else {
                assert(map_of(s0).dom().contains(k));
                let i = choose|i: int| 0 <= i < s0.len() && (#[trigger] s0[i]).0.deep_view() == k;
                assert(s0[i] == s[i]);
                assert(s[i].0.deep_view() == k);
            }
        }
        assert forall|k: Seq<Seq<char>>|
            (exists|i: int| 0 <= i < s.len() && (#[trigger] s[i]).0.deep_view() == k) implies map_of(
            s,
        ).dom().contains(k) by {
            let i = choose|i: int| 0 <= i < s.len() && (#[trigger] s[i]).0.deep_view() == k;
            if i < s.len() - 1 {
                assert(s0[i].0.deep_view() == k);
            }
        }
        if keys_distinct(s) {
            assert(keys_distinct(s0));
            assert forall|i: int| 0 <= i < s.len() implies map_of(s)[(#[trigger] s[i]).0.deep_view()]
                == s[i].1@ by {
                if i < s.len() - 1 {
                    assert(s[i].0.deep_view() != s.last().0.deep_view());
                    assert(s0[i].0.deep_view() == s[i].0.deep_view());
                }
            }
        }
    }
}

/// An in-memory filesystem: a growing collection of created objects, viewed
/// as an [`FsMap`].
pub struct FsModel {
    entries: Vec<(Vec<String>, Node)>,
}

impl View for FsModel {
    type V = FsMap;

    closed spec fn view(&self) -> FsMap {
        map_of(self.entries@)
    }
}

impl FsModel {
    /// Internal invariant: no path is recorded twice.
    pub closed spec fn wf(&self) -> bool {
        keys_distinct(self.entries@)
    }

    /// A fresh filesystem: nothing exists below the root.
    pub fn new() -> (fs: FsModel)
        ensures
            fs.wf(),
            fs@ == Map::<Seq<Seq<char>>, Obj>::empty(),
    {
        FsModel { entries: Vec::new() }
    }

    /// The index of the record holding `path`, if any.
    fn find(&self, path: &Vec<String>) -> (r: Option<usize>)
        ensures
            match r {
                Option::Some(i) => i < self.entries@.len() && self.entries@[i as int].0.deep_view()
                    == path.deep_view(),
                Option::None => forall|i: int|
                    0 <= i < self.entries@.len() ==> (#[trigger] self.entries@[i]).0.deep_view()
                        != path.deep_view(),
            },
    {
        let mut i: usize = 0;
        while i < self.entries.len()
            invariant
                i <= self.entries@.len(),
                forall|j: int|
                    0 <= j < i ==> (#[trigger] self.entries@[j]).0.deep_view()
                        != path.deep_view(),
            decreases self.entries@.len() - i,
        {
            if path_eq(&self.entries[i].0, path) {
                return Some(i);
            }
            i += 1;
        }
        None
    }

    /// Creates `node` at `path`, exactly as [`apply_step`] describes.
    pub(crate) fn create_obj(&mut self, path: &Vec<String>, node: Node) -> (r: Result<
        (),
        FsError,
    >)
        requires
            old(self).wf(),
        ensures
            final(self).wf(),
            ({
                let (m2, res) = apply_step(old(self)@, path.deep_view(), node@);
                final(self)@ == m2 && r == res
            }),
    {
        proof {
            lemma_map_of_props(self.entries@);
            assert(path.deep_view().len() == path@.len());
        }
        if path.len() == 0 {
            return Err(FsError::AlreadyExists);
        }
        if self.find(path).is_some() {
            return Err(FsError::AlreadyExists);
        }
        assert(!self@.dom().contains(path.deep_view()));
        if path.len() > 1 {
            let par = parent_of(path);
            let parent_ok = match self.find(&par) {
                Option::Some(i) => match &self.entries[i].1 {
                    Node::Dir => true,
                    Node::File { .. } => false,
                },
                Option::None => false,
            };
            if !parent_ok {
                proof {
                    assert(!parent_is_dir(self@, path.deep_view()));
                }
                return Err(FsError::NotFound);
            }
            proof {
                assert(parent_is_dir(self@, path.deep_view()));
            }
        }
        let owned = copy_path(path);
        self.entries.push((owned, node));
        proof {
            let s = self.entries@;
            assert(s.drop_last() =~= old(self).entries@);
            assert(self@ == old(self)@.insert(path.deep_view(), node@));
            assert forall|i: int, j: int|
                #![trigger s[i], s[j]]
                0 <= i < j < s.len() implies s[i].0.deep_view() != s[j].0.deep_view() by {
                if j == s.len() - 1 {
                    assert(s[i] == old(self).entries@[i]);
                }
            }
        }
        Ok(())
    }

    /// Performs one action, exactly as [`apply_spec`] describes.
    pub fn apply(&mut self, action: &Action) -> (r: Result<(), FsError>)
        requires
            old(self).wf(),
        ensures
            final(self).wf(),
            ({
                let (m2, res) = apply_spec(old(self)@, action@);
                final(self)@ == m2 && r == res
            }),
    {
        match action {
            Action::MakeDir { path } => self.create_obj(path, Node::Dir),
            Action::WriteFile { path, contents } => self.create_obj(
                path,
                Node::File { contents: contents.clone() },
            ),
        }
    }

    /// Performs a whole sequence of actions, exactly as [`run_spec`]
    /// describes: in order, stopping at the first failure.
    pub fn run(&mut self, actions: &Vec<Action>) -> (r: Result<(), FsError>)
        requires
            old(self).wf(),
        ensures
            final(self).wf(),
            ({
                let (m2, res) = run_spec(old(self)@, actions.deep_view());
                final(self)@ == m2 && r == res
            }),
    {
        let ghost m0 = self@;
        let ghost avs = actions.deep_view();
        proof {
            assert(avs.skip(0) =~= avs);
        }
        let mut i: usize = 0;
        while i < actions.len()
            invariant
                self.wf(),
                i <= actions@.len(),
                m0 == old(self)@,
                avs == actions.deep_view(),
                run_spec(m0, avs) == run_spec(self@, avs.skip(i as int)),
            decreases actions@.len() - i,
        {
            let ghost pre = self@;
            let r = self.apply(&actions[i]);
            proof {
                assert(avs.skip(i as int)[0] == avs[i as int]);
                assert(avs.skip(i as int).drop_first() =~= avs.skip(i as int + 1));
                assert(avs[i as int] == actions@[i as int]@);
            }
            if let Err(e) = r {
                proof {
                    assert(avs.skip(i as int).len() > 0);
                    assert(apply_spec(pre, avs[i as int]) == (self@, Err::<(), FsError>(e)));
                    assert(run_spec(pre, avs.skip(i as int)) == (self@, Err::<(), FsError>(e)));
                    assert(run_spec(m0, avs) == (self@, Err::<(), FsError>(e)));
                }
                return Err(e);
            }
            i += 1;
        }
        proof {
            assert(avs.skip(i as int) =~= Seq::<ActionView>::empty());
        }
        Ok(())
    }

    /// Whether an object exists at `path`.
    pub fn contains_path(&self, path: &Vec<String>) -> (b: bool)
        requires
            self.wf(),
        ensures
            b == self@.dom().contains(path.deep_view()),
    {
        proof {
            lemma_map_of_props(self.entries@);
        }
        self.find(path).is_some()
    }

    /// Whether a directory exists at `path`.
    pub fn is_dir(&self, path: &Vec<String>) -> (b: bool)
        requires
            self.wf(),
        ensures
            b == (self@.dom().contains(path.deep_view()) && self@[path.deep_view()] is Dir),
    {
        proof {
            lemma_map_of_props(self.entries@);
        }
        match self.find(path) {
            Option::Some(i) => match &self.entries[i].1 {
                Node::Dir => true,
                Node::File { .. } => false,
            },
            Option::None => false,
        }
    }

    /// The contents of the file at `path`: `None` when nothing is there or a
    /// directory is.
    pub fn read_file(&self, path: &Vec<String>) -> (r: Option<String>)
        requires
            self.wf(),
        ensures
            ({
                let pv = path.deep_view();
                match r {
                    Option::Some(s) => self@.dom().contains(pv) && self@[pv] == (Obj::File {
                        contents: s@,
                    }),
                    Option::None => !self@.dom().contains(pv) || self@[pv] is Dir,
                }
            }),
    {
        proof {
            lemma_map_of_props(self.entries@);
        }
        match self.find(path) {
            Option::Some(i) => match &self.entries[i].1 {
                Node::File { contents } => Some(contents.clone()),
                Node::Dir => None,
            },
            Option::None => None,
        }
    }
}

/// Whether two paths have the same segments.
pub fn path_eq(a: &Vec<String>, b: &Vec<String>) -> (r: bool)
    ensures
        r == (a.deep_view() == b.deep_view()),
{
    proof {
        assert(a.deep_view().len() == a@.len());
        assert(b.deep_view().len() == b@.len());
    }
    if a.len() != b.len() {
        return false;
    }
    let mut i: usize = 0;
    while i < a.len()
        invariant
            i <= a@.len(),
            a@.len() == b@.len(),
            forall|j: int| 0 <= j < i ==> a.deep_view()[j] == b.deep_view()[j],
        decreases a@.len() - i,
    {
        let same = a[i] == b[i];
        if !same {
            proof {
                assert(a.deep_view()[i as int] != b.deep_view()[i as int]);
            }
            return false;
        }
        i += 1;
    }
    proof {
        assert(a.deep_view() =~= b.deep_view());
    }
    true
}

/// An owned copy of a path.
pub fn copy_path(path: &Vec<String>) -> (r: Vec<String>)
    ensures
        r.deep_view() == path.deep_view(),
{
    let mut r: Vec<String> = Vec::new();
    let mut i: usize = 0;
    while i < path.len()
        invariant
            i <= path@.len(),
            r@.len() == i,
            forall|j: int| 0 <= j < i ==> r.deep_view()[j] == path.deep_view()[j],
        decreases path@.len() - i,
    {
        r.push(path[i].clone());
        i += 1;
    }
    proof {
        assert(r.deep_view() =~= path.deep_view());
    }
    r
}

/// `path` with `name` appended: the path of a directory's child.
pub fn join(path: &Vec<String>, name: &String) -> (r: Vec<String>)
    ensures
        r.deep_view() == path.deep_view().push(name@),
{
    let mut r = copy_path(path);
    r.push(name.clone());
    proof {
        assert(r.deep_view() =~= path.deep_view().push(name@));
    }
    r
}

/// The path one segment shorter: the parent's path.
pub fn parent_of(path: &Vec<String>) -> (r: Vec<String>)
    requires
        path@.len() >= 1,
    ensures
        r.deep_view() == path.deep_view().drop_last(),
{
    let mut r: Vec<String> = Vec::new();
    let mut i: usize = 0;
    while i < path.len() - 1
        invariant
            path@.len() >= 1,
            i <= path@.len() - 1,
            r@.len() == i,
            forall|j: int| 0 <= j < i ==> r.deep_view()[j] == path.deep_view()[j],
        decreases path@.len() - 1 - i,
    {
        r.push(path[i].clone());
        i += 1;
    }
    proof {
        assert(r.deep_view() =~= path.deep_view().drop_last());
    }
    r
}

} // verus!
