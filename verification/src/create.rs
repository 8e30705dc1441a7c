//! The `create` operation: materializing an entry at a path. A file entry
//! becomes one file holding its contents; a directory entry becomes a new
//! directory, then every child is created beneath it, depth-first, in list
//! order, stopping at the first failure and keeping what was already created.

use vstd::prelude::*;

use crate::entry::{children_views, EntryTree, EntryView};
use crate::fs::{apply_step, join, FsError, FsMap, FsModel, Node, Obj};

verus! {

broadcast use vstd::seq::axiom_seq_index_decreases, vstd::std_specs::vec::axiom_vec_decreases_to_view;

/// What creating entry `e` at path `p` does to filesystem `m`, and whether it
/// succeeds.
pub open spec fn create_spec(m: FsMap, e: EntryView, p: Seq<Seq<char>>) -> (
    FsMap,
    Result<(), FsError>,
)
    decreases e, 0int,
{
    match e {
        EntryView::File { contents } => apply_step(m, p, Obj::File { contents }),
        EntryView::Directory { children } => {
            let (m1, r) = apply_step(m, p, Obj::Dir);
            if r is Err {
                (m1, r)
            } else {
                create_children_spec(m1, children, p, 0)
            }
        },
    }
}

/// What creating the children of a directory at `p`, from index `i` on, does
/// to filesystem `m`: each child at `p` extended by its name, stopping at the
/// first failure.
pub open spec fn create_children_spec(
    m: FsMap,
    children: Seq<(Seq<char>, EntryView)>,
    p: Seq<Seq<char>>,
    i: int,
) -> (FsMap, Result<(), FsError>)
    decreases children, children.len() - i,
{
    if i < 0 || i >= children.len() {
        (m, Ok(()))
    } else {
        let (m1, r) = create_spec(m, children[i].1, p.push(children[i].0));
        if r is Err {
            (m1, r)
        } else {
            create_children_spec(m1, children, p, i + 1)
        }
    }
}

impl EntryTree {
    /// Materializes this tree at `path` in `fs`, exactly as [`create_spec`]
    /// describes.
    pub(crate) fn materialize(&self, fs: &mut FsModel, path: &Vec<String>) -> (r: Result<
        (),
        FsError,
    >)
        requires
            old(fs).wf(),
        ensures
            final(fs).wf(),
            ({
                let (m2, res) = create_spec(old(fs)@, self.tree_view(), path.deep_view());
                final(fs)@ == m2 && r == res
            }),
        decreases self,
    {
        match self {
            EntryTree::File { contents } => fs.create_obj(
                path,
                Node::File { contents: contents.clone() },
            ),
            EntryTree::Directory(d) => {
                proof {
                    assert(decreases_to!(*self => *d));
                    assert(decreases_to!(*d => d.children));
                }
                materialize_directory(fs, &d.children, path)
            },
        }
    }
}

/// Creates a new directory at `path` in `fs`, then each named child beneath
/// it, in list order, stopping at the first failure.
pub(crate) fn materialize_directory(
    fs: &mut FsModel,
    children: &Vec<(String, EntryTree)>,
    path: &Vec<String>,
) -> (r: Result<(), FsError>)
    requires
        old(fs).wf(),
    ensures
        final(fs).wf(),
        ({
            let e = EntryView::Directory { children: children_views(children@) };
            let (m2, res) = create_spec(old(fs)@, e, path.deep_view());
            final(fs)@ == m2 && r == res
        }),
    decreases children,
{
    let r0 = fs.create_obj(path, Node::Dir);
    if r0.is_err() {
        return r0;
    }
    let ghost m1 = fs@;
    let ghost cs = children_views(children@);
    let ghost pv = path.deep_view();
    proof {
        assert(cs.len() == children@.len());
        assert(forall|k: int|
            0 <= k < cs.len() ==> cs[k] == ((#[trigger] children@[k]).0@,
            children@[k].1.tree_view()));
    }
    let mut i: usize = 0;
    while i < children.len()
        invariant
            fs.wf(),
            i <= children@.len(),
            cs.len() == children@.len(),
            cs == children_views(children@),
            pv == path.deep_view(),
            forall|k: int|
                0 <= k < cs.len() ==> cs[k] == ((#[trigger] children@[k]).0@,
                children@[k].1.tree_view()),
            apply_step(old(fs)@, pv, Obj::Dir) == (m1, Ok::<(), FsError>(())),
            create_children_spec(m1, cs, pv, 0) == create_children_spec(fs@, cs, pv, i as int),
        decreases children@.len() - i,
    {
        let ghost pre = fs@;
        let name = &children[i].0;
        let child = &children[i].1;
        let child_path = join(path, name);
        proof {
            assert(decreases_to!(*children => children@));
            assert(decreases_to!(children@ => children@[i as int]));
            assert(decreases_to!(children@[i as int] => children@[i as int].1));
        }
        let rc = child.materialize(fs, &child_path);
        proof {
            assert(child_path.deep_view() == pv.push(cs[i as int].0));
            assert(child.tree_view() == cs[i as int].1);
            assert(create_spec(pre, cs[i as int].1, pv.push(cs[i as int].0)) == (fs@, rc));
        }
        if rc.is_err() {
            proof {
                assert(create_children_spec(pre, cs, pv, i as int) == (fs@, rc));
                assert(create_spec(
                    old(fs)@,
                    EntryView::Directory { children: cs },
                    pv,
                ) == (fs@, rc));
            }
            return rc;
        }
        i += 1;
    }
    proof {
        assert(create_children_spec(fs@, cs, pv, i as int) == (fs@, Ok::<(), FsError>(())));
    }
    Ok(())
}

} // verus!
