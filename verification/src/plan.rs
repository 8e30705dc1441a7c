//! Planning: the flat sequence of filesystem actions that materializing an
//! entry performs — each directory's action before its children's, children
//! in list order.

use vstd::prelude::*;

use crate::entry::{children_views, EntryTree, EntryView};
use crate::fs::{copy_path, join, Action, ActionView};

verus! {

broadcast use vstd::seq::axiom_seq_index_decreases, vstd::std_specs::vec::axiom_vec_decreases_to_view;

/// The actions that materializing entry `e` at path `p` performs, in order.
pub open spec fn plan_spec(e: EntryView, p: Seq<Seq<char>>) -> Seq<ActionView>
    decreases e, 0int,
{
    match e {
        EntryView::File { contents } => seq![ActionView::WriteFile { path: p, contents }],
        EntryView::Directory { children } => seq![ActionView::MakeDir { path: p }]
            + child_plans_spec(children, p, 0),
    }
}

/// The actions for the children of a directory at `p`, from index `i` on.
pub open spec fn child_plans_spec(
    children: Seq<(Seq<char>, EntryView)>,
    p: Seq<Seq<char>>,
    i: int,
) -> Seq<ActionView>
    decreases children, children.len() - i,
{
    if i < 0 || i >= children.len() {
        Seq::empty()
    } else {
        plan_spec(children[i].1, p.push(children[i].0)) + child_plans_spec(children, p, i + 1)
    }
}

impl EntryTree {
    /// The actions that materializing this tree at `path` performs, exactly
    /// as [`plan_spec`] describes.
    pub(crate) fn actions(&self, path: &Vec<String>) -> (r: Vec<Action>)
        ensures
            r.deep_view() == plan_spec(self.tree_view(), path.deep_view()),
        decreases self,
    {
        match self {
            EntryTree::File { contents } => {
                let mut v: Vec<Action> = Vec::new();
                v.push(Action::WriteFile { path: copy_path(path), contents: contents.clone() });
                proof {
                    assert(v.deep_view() =~= plan_spec(self.tree_view(), path.deep_view()));
                }
                v
            },
            EntryTree::Directory(d) => {
                proof {
                    assert(decreases_to!(*self => *d));
                    assert(decreases_to!(*d => d.children));
                }
                plan_directory(&d.children, path)
            },
        }
    }
}

/// The actions for a whole directory at `path`: the directory itself first,
/// then each named child's actions, in list order.
pub(crate) fn plan_directory(children: &Vec<(String, EntryTree)>, path: &Vec<String>) -> (r:
    Vec<Action>)
    ensures
        r.deep_view() == plan_spec(
            EntryView::Directory { children: children_views(children@) },
            path.deep_view(),
        ),
    decreases children,
{
    let mut v: Vec<Action> = Vec::new();
    v.push(Action::MakeDir { path: copy_path(path) });
    let ghost cs = children_views(children@);
    let ghost pv = path.deep_view();
    let ghost goal = plan_spec(EntryView::Directory { children: cs }, pv);
    proof {
        assert(cs.len() == children@.len());
        assert(forall|k: int|
            0 <= k < cs.len() ==> cs[k] == ((#[trigger] children@[k]).0@,
            children@[k].1.tree_view()));
        assert(v.deep_view() =~= seq![ActionView::MakeDir { path: pv }]);
    }
    let mut i: usize = 0;
    while i < children.len()
        invariant
            i <= children@.len(),
            cs.len() == children@.len(),
            cs == children_views(children@),
            pv == path.deep_view(),
            goal == plan_spec(EntryView::Directory { children: cs }, pv),
            forall|k: int|
                0 <= k < cs.len() ==> cs[k] == ((#[trigger] children@[k]).0@,
                children@[k].1.tree_view()),
            v.deep_view() + child_plans_spec(cs, pv, i as int) == goal,
        decreases children@.len() - i,
    {
        let name = &children[i].0;
        let child = &children[i].1;
        let child_path = join(path, name);
        proof {
            assert(decreases_to!(*children => children@));
            assert(decreases_to!(children@ => children@[i as int]));
            assert(decreases_to!(children@[i as int] => children@[i as int].1));
        }
        let mut cp = child.actions(&child_path);
        let ghost v_prev = v.deep_view();
        let ghost step = plan_spec(cs[i as int].1, pv.push(cs[i as int].0));
        v.append(&mut cp);
        proof {
            assert(child_path.deep_view() == pv.push(cs[i as int].0));
            assert(child.tree_view() == cs[i as int].1);
            assert(v.deep_view() =~= v_prev + step);
            assert(child_plans_spec(cs, pv, i as int) == step + child_plans_spec(
                cs,
                pv,
                i as int + 1,
            ));
            assert((v_prev + step) + child_plans_spec(cs, pv, i as int + 1) =~= v_prev
                + child_plans_spec(cs, pv, i as int));
        }
        i += 1;
    }
    proof {
        assert(child_plans_spec(cs, pv, i as int) == Seq::<ActionView>::empty());
        assert(v.deep_view() + Seq::<ActionView>::empty() =~= v.deep_view());
    }
    v
}

} // verus!
