//! The interface of the library: an `Entry` is anything placeable into the
//! tree and materializable at a filesystem path; a `File` is any value with
//! a textual rendering, and every such value is a file entry. A `Directory`
//! maps names to child entries, nested without bound.

use vstd::prelude::*;

use crate::create::{create_spec, materialize_directory};
use crate::fs::{copy_path, Action, FsError, FsModel, Node};
use crate::plan::{plan_directory, plan_spec};

verus! {

broadcast use vstd::seq::axiom_seq_index_decreases, vstd::std_specs::vec::axiom_vec_decreases_to_view;

/// The mathematical shape of an entry: file contents as a sequence of
/// characters, directory children as a sequence of (name, child) pairs.
pub enum EntryView {
    File { contents: Seq<char> },
    Directory { children: Seq<(Seq<char>, EntryView)> },
}

/// A well-formed entry: within every directory, child names are distinct.
pub open spec fn entry_wf(e: EntryView) -> bool
    decreases e,
{
    match e {
        EntryView::File { contents } => true,
        EntryView::Directory { children } => {
            &&& forall|i: int, j: int|
                #![trigger children[i], children[j]]
                0 <= i < j < children.len() ==> children[i].0 != children[j].0
            &&& forall|i: int| 0 <= i < children.len() ==> entry_wf(#[trigger] children[i].1)
        },
    }
}

/// A directory to be materialized: a list of (name, child) pairs. Names are
/// expected to be distinct; see [`entry_wf`].
pub struct Directory {
    pub children: Vec<(String, EntryTree)>,
}

/// A closed tree of entries a directory can own: a file with fixed contents,
/// or a nested directory.
pub enum EntryTree {
    File { contents: String },
    Directory(Directory),
}

/// The views of a list of named children.
pub open spec fn children_views(s: Seq<(String, EntryTree)>) -> Seq<(Seq<char>, EntryView)>
    decreases s,
{
    Seq::new(
        s.len(),
        |i: int|
            if 0 <= i < s.len() {
                (s[i].0@, s[i].1.tree_view())
            } else {
                arbitrary()
            },
    )
}

impl EntryTree {
    /// The tree this value describes.
    pub open spec fn tree_view(&self) -> EntryView
        decreases self,
    {
        match self {
            EntryTree::File { contents } => EntryView::File { contents: contents@ },
            EntryTree::Directory(d) => EntryView::Directory {
                children: children_views(d.children@),
            },
        }
    }
}

impl Directory {
    /// The tree this directory describes.
    pub open spec fn dir_view(&self) -> EntryView {
        EntryView::Directory { children: children_views(self.children@) }
    }
}

/// Anything placeable into the tree and materializable at a filesystem path.
pub trait Entry {
    /// The tree of files and directories this entry describes.
    spec fn entry_view(&self) -> EntryView;

    /// Materializes this entry at `path` in `fs`, exactly as [`create_spec`]
    /// describes: on failure, everything created before the failing step
    /// stays.
    fn create(&self, fs: &mut FsModel, path: &Vec<String>) -> (r: Result<(), FsError>)
        requires
            old(fs).wf(),
        ensures
            final(fs).wf(),
            ({
                let (m2, res) = create_spec(old(fs)@, self.entry_view(), path.deep_view());
                final(fs)@ == m2 && r == res
            }),
    ;

    /// The actions that materializing this entry at `path` performs, exactly
    /// as [`plan_spec`] describes: every parent directory's action before
    /// its children's.
    fn plan(&self, path: &Vec<String>) -> (r: Vec<Action>)
        ensures
            r.deep_view() == plan_spec(self.entry_view(), path.deep_view()),
    ;
}

/// Anything with a textual rendering, usable as a file entry.
pub trait File {
    /// The rendering, as a sequence of characters.
    spec fn contents(&self) -> Seq<char>;

    /// Renders the value to the text the file will hold.
    fn render(&self) -> (r: String)
        ensures
            r@ == self.contents(),
    ;
}

/// A ready-rendered value: its text is itself.
impl File for String {
    open spec fn contents(&self) -> Seq<char> {
        self@
    }

    fn render(&self) -> (r: String) {
        self.clone()
    }
}

/// Every renderable value is a file entry: materializing it writes its text
/// into a new file.
impl<T: File> Entry for T {
    open spec fn entry_view(&self) -> EntryView {
        EntryView::File { contents: self.contents() }
    }

    fn create(&self, fs: &mut FsModel, path: &Vec<String>) -> (r: Result<(), FsError>) {
        fs.create_obj(path, Node::File { contents: self.render() })
    }

    fn plan(&self, path: &Vec<String>) -> (r: Vec<Action>) {
        let mut v: Vec<Action> = Vec::new();
        v.push(Action::WriteFile { path: copy_path(path), contents: self.render() });
        proof {
            assert(v.deep_view() =~= plan_spec(self.entry_view(), path.deep_view()));
        }
        v
    }
}

impl Entry for EntryTree {
    open spec fn entry_view(&self) -> EntryView {
        self.tree_view()
    }

    fn create(&self, fs: &mut FsModel, path: &Vec<String>) -> (r: Result<(), FsError>) {
        self.materialize(fs, path)
    }

    fn plan(&self, path: &Vec<String>) -> (r: Vec<Action>) {
        self.actions(path)
    }
}

impl Entry for Directory {
    open spec fn entry_view(&self) -> EntryView {
        self.dir_view()
    }

    fn create(&self, fs: &mut FsModel, path: &Vec<String>) -> (r: Result<(), FsError>) {
        materialize_directory(fs, &self.children, path)
    }

    fn plan(&self, path: &Vec<String>) -> (r: Vec<Action>) {
        plan_directory(&self.children, path)
    }
}

} // verus!
