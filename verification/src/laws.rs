//! What the library guarantees: creating a well-formed entry at a free path
//! under an existing parent succeeds and adds exactly the entry's subtree;
//! creating at an occupied path fails without mutation; a file reads back as
//! written; every child of a directory materializes as its own independent
//! creation would; and the planned actions do exactly what `create` does.

use vstd::prelude::*;

use crate::create::{create_children_spec, create_spec};
use crate::entry::{entry_wf, EntryView};
use crate::fs::{
    apply_spec, fs_wf, parent_is_dir, run_spec, ActionView, FsError, FsMap, Obj,
};
use crate::plan::{child_plans_spec, plan_spec};

verus! {

broadcast use vstd::seq::axiom_seq_index_decreases, vstd::std_specs::vec::axiom_vec_decreases_to_view;

/// Everything that creating entry `e` at path `p` puts on the filesystem:
/// each path of the subtree, mapped to the object created there.
pub open spec fn tree_map(e: EntryView, p: Seq<Seq<char>>) -> FsMap
    decreases e, 0int,
{
    match e {
        EntryView::File { contents } => Map::empty().insert(p, Obj::File { contents }),
        EntryView::Directory { children } => Map::empty().insert(p, Obj::Dir).union_prefer_right(
            children_map(children, p, 0),
        ),
    }
}

/// Everything that creating the children of a directory at `p`, from index
/// `i` on, puts on the filesystem.
pub open spec fn children_map(
    children: Seq<(Seq<char>, EntryView)>,
    p: Seq<Seq<char>>,
    i: int,
) -> FsMap
    decreases children, children.len() - i,
{
    if i < 0 || i >= children.len() {
        Map::empty()
    } else {
        tree_map(children[i].1, p.push(children[i].0)).union_prefer_right(
            children_map(children, p, i + 1),
        )
    }
}

/// The subtree of `e` at `p` covers `p` itself — a file's contents or a
/// directory — and nothing outside the paths extending `p`.
pub proof fn lemma_tree_map_dom(e: EntryView, p: Seq<Seq<char>>)
    ensures
        tree_map(e, p).dom().contains(p),
        tree_map(e, p)[p] == (match e {
            EntryView::File { contents } => Obj::File { contents },
            EntryView::Directory { .. } => Obj::Dir,
        }),
        forall|q: Seq<Seq<char>>| #[trigger]
            tree_map(e, p).dom().contains(q) ==> q.len() >= p.len() && q.subrange(
                0,
                p.len() as int,
            ) == p,
    decreases e, 0int,
{
    assert(p.subrange(0, p.len() as int) =~= p);
    match e {
        EntryView::File { contents } => {
            assert(tree_map(e, p) == Map::<Seq<Seq<char>>, Obj>::empty().insert(
                p,
                Obj::File { contents },
            ));
            assert(tree_map(e, p)[p] == Obj::File { contents });
            assert forall|q: Seq<Seq<char>>| #[trigger]
                tree_map(e, p).dom().contains(q) implies q.len() >= p.len() && q.subrange(
                0,
                p.len() as int,
            ) == p by {
                assert(q == p);
            }
        },
        EntryView::Directory { children } => {
            lemma_children_map_dom(children, p, 0);
            assert(!children_map(children, p, 0).dom().contains(p));
            assert(tree_map(e, p)[p] == Obj::Dir);
            assert forall|q: Seq<Seq<char>>| #[trigger]
                tree_map(e, p).dom().contains(q) implies q.len() >= p.len() && q.subrange(
                0,
                p.len() as int,
            ) == p by {
                if q != p {
                    assert(children_map(children, p, 0).dom().contains(q));
                }
            }
        },
    }
}

/// The children's subtrees at `p` cover only paths strictly below `p`, each
/// starting with the name of one of the children from index `i` on.
pub proof fn lemma_children_map_dom(
    cs: Seq<(Seq<char>, EntryView)>,
    p: Seq<Seq<char>>,
    i: int,
)
    ensures
        forall|q: Seq<Seq<char>>| #[trigger]
            children_map(cs, p, i).dom().contains(q) ==> q.len() > p.len() && q.subrange(
                0,
                p.len() as int,
            ) == p && exists|j: int|
                i <= j < cs.len() && q[p.len() as int] == (#[trigger] cs[j]).0,
    decreases cs, cs.len() - i,
{
    if 0 <= i < cs.len() {
        let cp = p.push(cs[i].0);
        lemma_tree_map_dom(cs[i].1, cp);
        lemma_children_map_dom(cs, p, i + 1);
        assert forall|q: Seq<Seq<char>>| #[trigger]
            children_map(cs, p, i).dom().contains(q) implies q.len() > p.len() && q.subrange(
            0,
            p.len() as int,
        ) == p && exists|j: int|
            i <= j < cs.len() && q[p.len() as int] == (#[trigger] cs[j]).0 by {
            if children_map(cs, p, i + 1).dom().contains(q) {
                let j = choose|j: int|
                    i + 1 <= j < cs.len() && q[p.len() as int] == (#[trigger] cs[j]).0;
                assert(i <= j < cs.len() && q[p.len() as int] == cs[j].0);
            } else {
                assert(tree_map(cs[i].1, cp).dom().contains(q));
                assert(q.len() >= cp.len());
                assert(q.subrange(0, cp.len() as int) == cp);
                assert forall|x: int| 0 <= x < p.len() implies q.subrange(0, p.len() as int)[x]
                    == p[x] by {
                    assert(q.subrange(0, cp.len() as int)[x] == cp[x]);
                }
                assert(q.subrange(0, p.len() as int) =~= p);
                assert(q.subrange(0, cp.len() as int)[p.len() as int] == cp[p.len() as int]);
                assert(q[p.len() as int] == cs[i].0);
            }
        }
    }
}

/// In a well-shaped filesystem, every non-empty prefix of an existing path
/// also exists.
pub proof fn lemma_fs_wf_prefix(m: FsMap, q: Seq<Seq<char>>, k: int)
    requires
        fs_wf(m),
        m.dom().contains(q),
        1 <= k <= q.len(),
    ensures
        m.dom().contains(q.subrange(0, k)),
    decreases q.len() - k,
{
    if k == q.len() {
        assert(q.subrange(0, k) =~= q);
    } else {
        lemma_fs_wf_prefix(m, q, k + 1);
        let q1 = q.subrange(0, k + 1);
        assert(m.dom().contains(q1));
        assert(q1.drop_last() =~= q.subrange(0, k));
    }
}

/// In a well-shaped filesystem, nothing exists at or below a free path.
pub proof fn lemma_free_path_no_extension(m: FsMap, p: Seq<Seq<char>>, q: Seq<Seq<char>>)
    requires
        fs_wf(m),
        !m.dom().contains(p),
        p.len() >= 1,
        m.dom().contains(q),
    ensures
        !(q.len() >= p.len() && q.subrange(0, p.len() as int) == p),
{
    if q.len() >= p.len() && q.subrange(0, p.len() as int) == p {
        lemma_fs_wf_prefix(m, q, p.len() as int);
    }
}

/// Creating one object at a free path under an existing parent keeps the
/// filesystem well shaped.
pub proof fn lemma_insert_preserves_wf(m: FsMap, p: Seq<Seq<char>>, o: Obj)
    requires
        fs_wf(m),
        !m.dom().contains(p),
        p.len() >= 1,
        parent_is_dir(m, p),
    ensures
        fs_wf(m.insert(p, o)),
{
    let m2 = m.insert(p, o);
    assert forall|q: Seq<Seq<char>>| #[trigger] m2.dom().contains(q) implies q.len() >= 1
        && parent_is_dir(m2, q) by {
        if q == p {
            if p.len() > 1 {
                assert(m.dom().contains(p.drop_last()));
                assert(p.drop_last().len() < p.len());
                assert(m2[p.drop_last()] == m[p.drop_last()]);
            }
        } else {
            assert(m.dom().contains(q));
            if q.len() > 1 {
                assert(m.dom().contains(q.drop_last()));
                assert(q.drop_last() != p);
                assert(m2[q.drop_last()] == m[q.drop_last()]);
            }
        }
    }
}

/// Creating a well-formed entry at a free path whose parent directory exists
/// always succeeds, adds exactly the entry's subtree — nothing else on the
/// filesystem changes — and keeps the filesystem well shaped. Nesting is
/// unbounded: this holds at every depth of directories within directories.
pub proof fn lemma_create_ok(m: FsMap, e: EntryView, p: Seq<Seq<char>>)
    requires
        fs_wf(m),
        entry_wf(e),
        p.len() >= 1,
        !m.dom().contains(p),
        parent_is_dir(m, p),
    ensures
        create_spec(m, e, p).1 == Ok::<(), FsError>(()),
        create_spec(m, e, p).0 == m.union_prefer_right(tree_map(e, p)),
        fs_wf(create_spec(m, e, p).0),
    decreases e, 0int,
{
    lemma_tree_map_dom(e, p);
    match e {
        EntryView::File { contents } => {
            lemma_insert_preserves_wf(m, p, Obj::File { contents });
            assert(m.insert(p, Obj::File { contents }) =~= m.union_prefer_right(
                tree_map(e, p),
            ));
        },
        EntryView::Directory { children } => {
            let m1 = m.insert(p, Obj::Dir);
            lemma_insert_preserves_wf(m, p, Obj::Dir);
            lemma_children_map_dom(children, p, 0);
            assert forall|j: int| 0 <= j < children.len() implies !m1.dom().contains(
                p.push((#[trigger] children[j]).0),
            ) by {
                let q = p.push(children[j].0);
                assert(q.len() == p.len() + 1);
                if m.dom().contains(q) {
                    lemma_free_path_no_extension(m, p, q);
                    assert(q.subrange(0, p.len() as int) =~= p);
                }
            }
            lemma_create_children_ok(m1, children, p, 0);
            assert(m1.union_prefer_right(children_map(children, p, 0))
                =~= m.union_prefer_right(tree_map(e, p)));
        },
    }
}

/// Creating the remaining children of a directory in order, each at a free
/// path beneath it, succeeds and adds exactly their subtrees.
pub proof fn lemma_create_children_ok(
    m: FsMap,
    cs: Seq<(Seq<char>, EntryView)>,
    p: Seq<Seq<char>>,
    i: int,
)
    requires
        fs_wf(m),
        0 <= i <= cs.len(),
        forall|j: int| i <= j < cs.len() ==> entry_wf((#[trigger] cs[j]).1),
        forall|j: int, k: int|
            #![trigger cs[j], cs[k]]
            i <= j < k < cs.len() ==> cs[j].0 != cs[k].0,
        m.dom().contains(p),
        m[p] is Dir,
        forall|j: int| i <= j < cs.len() ==> !m.dom().contains(p.push((#[trigger] cs[j]).0)),
    ensures
        create_children_spec(m, cs, p, i).1 == Ok::<(), FsError>(()),
        create_children_spec(m, cs, p, i).0 == m.union_prefer_right(children_map(cs, p, i)),
        fs_wf(create_children_spec(m, cs, p, i).0),
    decreases cs, cs.len() - i,
{
    if i >= cs.len() {
        assert(m.union_prefer_right(children_map(cs, p, i)) =~= m);
    } else {
        let ni = cs[i].0;
        let ci = cs[i].1;
        let cp = p.push(ni);
        assert(cp.drop_last() =~= p);
        lemma_create_ok(m, ci, cp);
        let m2 = m.union_prefer_right(tree_map(ci, cp));
        lemma_tree_map_dom(ci, cp);
        assert(!tree_map(ci, cp).dom().contains(p));
        assert forall|j: int| i + 1 <= j < cs.len() implies !m2.dom().contains(
            p.push((#[trigger] cs[j]).0),
        ) by {
            let q = p.push(cs[j].0);
            if tree_map(ci, cp).dom().contains(q) {
                assert(q.len() == cp.len());
                assert(q.subrange(0, cp.len() as int) =~= q);
                assert(q == cp);
                assert(q[p.len() as int] == cs[j].0 && cp[p.len() as int] == ni);
                assert(false);
            }
        }
        lemma_create_children_ok(m2, cs, p, i + 1);
        lemma_children_map_dom(cs, p, i + 1);
        assert(m2.union_prefer_right(children_map(cs, p, i + 1)) =~= m.union_prefer_right(
            children_map(cs, p, i),
        ));
    }
}

/// Creating anything at a path that already holds an object — the root, the
/// empty path, always does — fails with `AlreadyExists` and mutates nothing.
pub proof fn lemma_create_existing_fails(m: FsMap, e: EntryView, p: Seq<Seq<char>>)
    requires
        m.dom().contains(p) || p.len() == 0,
    ensures
        create_spec(m, e, p) == (m, Err::<(), FsError>(FsError::AlreadyExists)),
{
    match e {
        EntryView::File { contents } => {},
        EntryView::Directory { children } => {},
    }
}

/// Creating anything at a free non-root path whose parent directory is
/// missing fails with `NotFound` and mutates nothing. With
/// [`lemma_create_ok`] and [`lemma_create_existing_fails`], this pins down
/// exactly when creation succeeds on a well-shaped filesystem: the target is
/// free and its parent directory exists.
pub proof fn lemma_create_missing_parent_fails(m: FsMap, e: EntryView, p: Seq<Seq<char>>)
    requires
        p.len() >= 1,
        !m.dom().contains(p),
        !parent_is_dir(m, p),
    ensures
        create_spec(m, e, p) == (m, Err::<(), FsError>(FsError::NotFound)),
{
    match e {
        EntryView::File { contents } => {},
        EntryView::Directory { children } => {},
    }
}

/// Whatever the outcome, creation keeps the filesystem well shaped: every
/// object is created under an existing parent directory, so even the partial
/// state left behind by a failure is a real tree.
pub proof fn lemma_create_preserves_shape(m: FsMap, e: EntryView, p: Seq<Seq<char>>)
    requires
        fs_wf(m),
    ensures
        fs_wf(create_spec(m, e, p).0),
    decreases e, 0int,
{
    match e {
        EntryView::File { contents } => {
            let o = Obj::File { contents };
            if p.len() >= 1 && !m.dom().contains(p) && parent_is_dir(m, p) {
                lemma_insert_preserves_wf(m, p, o);
            }
        },
        EntryView::Directory { children } => {
            if p.len() >= 1 && !m.dom().contains(p) && parent_is_dir(m, p) {
                lemma_insert_preserves_wf(m, p, Obj::Dir);
                lemma_create_children_preserve_shape(m.insert(p, Obj::Dir), children, p, 0);
            }
        },
    }
}

/// Whatever the outcome, creating a directory's children keeps the
/// filesystem well shaped.
pub proof fn lemma_create_children_preserve_shape(
    m: FsMap,
    cs: Seq<(Seq<char>, EntryView)>,
    p: Seq<Seq<char>>,
    i: int,
)
    requires
        fs_wf(m),
    ensures
        fs_wf(create_children_spec(m, cs, p, i).0),
    decreases cs, cs.len() - i,
{
    if 0 <= i < cs.len() {
        let cp = p.push(cs[i].0);
        lemma_create_preserves_shape(m, cs[i].1, cp);
        let (m1, r) = create_spec(m, cs[i].1, cp);
        if r is Ok {
            lemma_create_children_preserve_shape(m1, cs, p, i + 1);
        }
    }
}

/// Whatever the outcome, performing a sequence of actions keeps the
/// filesystem well shaped.
pub proof fn lemma_run_preserves_shape(m: FsMap, actions: Seq<ActionView>)
    requires
        fs_wf(m),
    ensures
        fs_wf(run_spec(m, actions).0),
    decreases actions.len(),
{
    if actions.len() > 0 {
        let a = actions[0];
        let p = a.target();
        if p.len() >= 1 && !m.dom().contains(p) && parent_is_dir(m, p) {
            lemma_insert_preserves_wf(m, p, a.obj());
        }
        let (m1, r) = apply_spec(m, a);
        if r is Ok {
            lemma_run_preserves_shape(m1, actions.drop_first());
        }
    }
}

/// Each child's subtree sits, unchanged, in the combined map of a
/// directory's children, as long as names are distinct.
pub proof fn lemma_children_map_covers(
    cs: Seq<(Seq<char>, EntryView)>,
    p: Seq<Seq<char>>,
    i: int,
    j: int,
)
    requires
        forall|a: int, b: int|
            #![trigger cs[a], cs[b]]
            i <= a < b < cs.len() ==> cs[a].0 != cs[b].0,
        0 <= i <= j < cs.len(),
    ensures
        forall|q: Seq<Seq<char>>| #[trigger]
            tree_map(cs[j].1, p.push(cs[j].0)).dom().contains(q) ==> children_map(
                cs,
                p,
                i,
            ).dom().contains(q) && children_map(cs, p, i)[q] == tree_map(
                cs[j].1,
                p.push(cs[j].0),
            )[q],
    decreases j - i,
{
    let cp = p.push(cs[j].0);
    lemma_tree_map_dom(cs[j].1, cp);
    lemma_children_map_dom(cs, p, i + 1);
    if i == j {
        assert forall|q: Seq<Seq<char>>| #[trigger]
            tree_map(cs[j].1, cp).dom().contains(q) implies children_map(
            cs,
            p,
            i,
        ).dom().contains(q) && children_map(cs, p, i)[q] == tree_map(cs[j].1, cp)[q] by {
            if children_map(cs, p, i + 1).dom().contains(q) {
                let k = choose|k: int|
                    i + 1 <= k < cs.len() && q[p.len() as int] == (#[trigger] cs[k]).0;
                assert(q.subrange(0, cp.len() as int) == cp);
                assert(q.subrange(0, cp.len() as int)[p.len() as int] == cp[p.len() as int]);
                assert(q[p.len() as int] == cs[i].0);
                assert(cs[i].0 != cs[k].0);
                assert(false);
            }
        }
    } else {
        lemma_children_map_covers(cs, p, i + 1, j);
    }
}

/// After a directory entry is successfully created at `p`, `p` holds a
/// directory and every (name, child) pair has materialized beneath it
/// exactly what creating that child on its own at `p` joined with its name
/// produces.
pub proof fn lemma_directory_children_materialize(
    m: FsMap,
    cs: Seq<(Seq<char>, EntryView)>,
    p: Seq<Seq<char>>,
)
    requires
        fs_wf(m),
        entry_wf(EntryView::Directory { children: cs }),
        p.len() >= 1,
        !m.dom().contains(p),
        parent_is_dir(m, p),
    ensures
        create_spec(m, EntryView::Directory { children: cs }, p).1 == Ok::<(), FsError>(()),
        create_spec(m, EntryView::Directory { children: cs }, p).0.dom().contains(p),
        create_spec(m, EntryView::Directory { children: cs }, p).0[p] == Obj::Dir,
        forall|j: int, q: Seq<Seq<char>>|
            0 <= j < cs.len() && #[trigger] tree_map(
                cs[j].1,
                p.push(cs[j].0),
            ).dom().contains(q) ==> create_spec(
                m,
                EntryView::Directory { children: cs },
                p,
            ).0.dom().contains(q) && create_spec(m, EntryView::Directory { children: cs }, p).0[q]
                == tree_map(cs[j].1, p.push(cs[j].0))[q],
{
    let e = EntryView::Directory { children: cs };
    lemma_create_ok(m, e, p);
    lemma_tree_map_dom(e, p);
    lemma_children_map_dom(cs, p, 0);
    assert forall|j: int, q: Seq<Seq<char>>|
        0 <= j < cs.len() && #[trigger] tree_map(
            cs[j].1,
            p.push(cs[j].0),
        ).dom().contains(q) implies create_spec(m, e, p).0.dom().contains(q) && create_spec(
        m,
        e,
        p,
    ).0[q] == tree_map(cs[j].1, p.push(cs[j].0))[q] by {
        lemma_children_map_covers(cs, p, 0, j);
        assert(children_map(cs, p, 0).dom().contains(q));
        assert(tree_map(e, p).dom().contains(q));
    }
}

/// A file entry wrapping contents `t`, successfully created at `p`, reads
/// back from `p` as exactly `t`, and nothing else on the filesystem changes.
pub proof fn lemma_file_round_trip(m: FsMap, t: Seq<char>, p: Seq<Seq<char>>)
    requires
        fs_wf(m),
        p.len() >= 1,
        !m.dom().contains(p),
        parent_is_dir(m, p),
    ensures
        create_spec(m, EntryView::File { contents: t }, p).1 == Ok::<(), FsError>(()),
        create_spec(m, EntryView::File { contents: t }, p).0 == m.insert(
            p,
            Obj::File { contents: t },
        ),
{
    let e = EntryView::File { contents: t };
    lemma_create_ok(m, e, p);
    assert(m.union_prefer_right(tree_map(e, p)) =~= m.insert(p, Obj::File { contents: t }));
}

/// Sibling independence: in a directory of file entries with distinct names,
/// each created file holds its own contents, wherever it stands in the list.
pub proof fn lemma_sibling_files_independent(
    m: FsMap,
    cs: Seq<(Seq<char>, EntryView)>,
    p: Seq<Seq<char>>,
)
    requires
        fs_wf(m),
        entry_wf(EntryView::Directory { children: cs }),
        forall|j: int| 0 <= j < cs.len() ==> (#[trigger] cs[j]).1 is File,
        p.len() >= 1,
        !m.dom().contains(p),
        parent_is_dir(m, p),
    ensures
        create_spec(m, EntryView::Directory { children: cs }, p).1 == Ok::<(), FsError>(()),
        forall|j: int|
            0 <= j < cs.len() ==> ({
                let m2 = create_spec(m, EntryView::Directory { children: cs }, p).0;
                let cp = p.push((#[trigger] cs[j]).0);
                m2.dom().contains(cp) && m2[cp] == (Obj::File { contents: cs[j].1->contents })
            }),
{
    lemma_directory_children_materialize(m, cs, p);
    let m2 = create_spec(m, EntryView::Directory { children: cs }, p).0;
    assert forall|j: int| 0 <= j < cs.len() implies ({
        let cp = p.push((#[trigger] cs[j]).0);
        m2.dom().contains(cp) && m2[cp] == (Obj::File { contents: cs[j].1->contents })
    }) by {
        let cp = p.push(cs[j].0);
        lemma_tree_map_dom(cs[j].1, cp);
        assert(tree_map(cs[j].1, cp).dom().contains(cp));
    }
}

/// Performing a concatenation of action sequences is performing the first
/// and then — only when it succeeded — the second.
pub proof fn lemma_run_append(m: FsMap, a: Seq<ActionView>, b: Seq<ActionView>)
    ensures
        run_spec(m, a + b) == ({
            let (m1, r) = run_spec(m, a);
            if r is Err {
                (m1, r)
            } else {
                run_spec(m1, b)
            }
        }),
    decreases a.len(),
{
    if a.len() == 0 {
        assert(a + b =~= b);
    } else {
        assert((a + b).len() > 0);
        assert((a + b)[0] == a[0]);
        assert((a + b).drop_first() =~= a.drop_first() + b);
        let (m1, r) = apply_spec(m, a[0]);
        if r is Ok {
            lemma_run_append(m1, a.drop_first(), b);
        }
    }
}

/// The plan does exactly what `create` does: running the planned actions of
/// entry `e` at path `p` takes any filesystem to the same state, with the
/// same result, as creating `e` at `p` directly.
pub proof fn lemma_plan_matches_create(m: FsMap, e: EntryView, p: Seq<Seq<char>>)
    ensures
        run_spec(m, plan_spec(e, p)) == create_spec(m, e, p),
    decreases e, 0int,
{
    match e {
        EntryView::File { contents } => {
            let a = ActionView::WriteFile { path: p, contents };
            let s = seq![a];
            assert(s.len() == 1 && s[0] == a);
            assert(s.drop_first() =~= Seq::<ActionView>::empty());
            let (m1, r) = apply_spec(m, a);
            assert(run_spec(m1, Seq::<ActionView>::empty()) == (m1, Ok::<(), FsError>(())));
        },
        EntryView::Directory { children } => {
            let a = ActionView::MakeDir { path: p };
            let rest = child_plans_spec(children, p, 0);
            lemma_run_append(m, seq![a], rest);
            assert(seq![a].len() == 1 && seq![a][0] == a);
            assert(seq![a].drop_first() =~= Seq::<ActionView>::empty());
            let (m1, r) = apply_spec(m, a);
            assert(run_spec(m1, Seq::<ActionView>::empty()) == (m1, Ok::<(), FsError>(())));
            if r is Ok {
                lemma_plans_children_match(m1, children, p, 0);
            }
        },
    }
}

/// The children's plans, from index `i` on, do exactly what creating the
/// children from index `i` on does.
pub proof fn lemma_plans_children_match(
    m: FsMap,
    cs: Seq<(Seq<char>, EntryView)>,
    p: Seq<Seq<char>>,
    i: int,
)
    ensures
        run_spec(m, child_plans_spec(cs, p, i)) == create_children_spec(m, cs, p, i),
    decreases cs, cs.len() - i,
{
    if 0 <= i < cs.len() {
        let head = plan_spec(cs[i].1, p.push(cs[i].0));
        let rest = child_plans_spec(cs, p, i + 1);
        lemma_run_append(m, head, rest);
        lemma_plan_matches_create(m, cs[i].1, p.push(cs[i].0));
        let (m1, r) = create_spec(m, cs[i].1, p.push(cs[i].0));
        if r is Ok {
            lemma_plans_children_match(m1, cs, p, i + 1);
        }
    }
}

} // verus!
