//! The span tree: a rooted tree over span ids. The root is the synthetic
//! span id 0; nodes can be added at the root, relocated under a new parent
//! and dumped breadth first.

use vstd::prelude::*;
use vstd::string::*;

use crate::metadata::Metadata;

verus! {

/// The mathematical shape of a tree node: its id, its display name and its
/// children in order.
#[verifier::ext_equal]
pub ghost struct NodeView {
    pub id: u32,
    pub name: Seq<char>,
    pub children: Seq<NodeView>,
}

/// One node of the span tree, owning its children.
pub struct Span {
    /// The span id of this node.
    pub id: u32,
    /// The name shown in path lines, taken from the span's metadata.
    pub name: String,
    children: Vec<Span>,
}

/// The views of a list of nodes, in order.
pub open spec fn views_of(list: Seq<Span>) -> Seq<NodeView>
    decreases list,
{
    if list.len() == 0 {
        Seq::empty()
    } else {
        seq![list[0]@] + views_of(list.drop_first())
    }
}

impl View for Span {
    type V = NodeView;

    closed spec fn view(&self) -> NodeView
        decreases self,
    {
        NodeView { id: self.id, name: self.name@, children: views_of(self.children@) }
    }
}

/// `views_of` maps the list elementwise.
pub proof fn lemma_views_of(list: Seq<Span>)
    ensures
        views_of(list).len() == list.len(),
        forall|j: int| 0 <= j < list.len() ==> #[trigger] views_of(list)[j] == list[j]@,
    decreases list.len(),
{
    if list.len() > 0 {
        lemma_views_of(list.drop_first());
        assert(views_of(list) == seq![list[0]@] + views_of(list.drop_first()));
        assert(seq![list[0]@].len() == 1);
        assert forall|j: int| 0 <= j < list.len() implies #[trigger] views_of(list)[j]
            == list[j]@ by {
            if j > 0 {
                assert(views_of(list)[j] == (seq![list[0]@] + views_of(list.drop_first()))[j]);
                assert((seq![list[0]@] + views_of(list.drop_first()))[j] == views_of(
                    list.drop_first(),
                )[j - 1]);
                assert(list.drop_first()[j - 1] == list[j]);
            } else {
                assert(views_of(list)[0] == list[0]@);
            }
        }
    }
}

/// All span ids in a node's subtree, in depth-first order.
pub open spec fn node_ids(n: NodeView) -> Seq<u32>
    decreases n,
{
    seq![n.id] + forest_ids(n.children)
}

/// All span ids in a forest, in order.
pub open spec fn forest_ids(list: Seq<NodeView>) -> Seq<u32>
    decreases list,
{
    if list.len() == 0 {
        Seq::empty()
    } else {
        node_ids(list[0]) + forest_ids(list.drop_first())
    }
}

/// A well-formed tree carries each span id at most once.
pub open spec fn tree_wf(n: NodeView) -> bool {
    node_ids(n).no_duplicates()
}

/// The parent search: the id of the first node (in depth-first order) whose
/// direct children contain the given id.
pub open spec fn find_parent_in(pid: u32, list: Seq<NodeView>, id: u32) -> Option<u32>
    decreases list,
{
    if list.len() == 0 {
        None
    } else if list[0].id == id {
        Some(pid)
    } else {
        match find_parent_in(list[0].id, list[0].children, id) {
            Some(r) => Some(r),
            None => find_parent_in(pid, list.drop_first(), id),
        }
    }
}

/// The parent of `id` in the tree rooted at `n`, if any.
pub open spec fn find_parent_node(n: NodeView, id: u32) -> Option<u32> {
    find_parent_in(n.id, n.children, id)
}

/// Removal of the subtree rooted at `id` from a forest: the forest without
/// it, and the removed subtree when found.
pub open spec fn remove_from_forest(list: Seq<NodeView>, id: u32) -> (Seq<NodeView>, Option<
    NodeView,
>)
    decreases list,
{
    if list.len() == 0 {
        (list, None)
    } else if list[0].id == id {
        (list.drop_first(), Some(list[0]))
    } else {
        let (c2, r) = remove_from_forest(list[0].children, id);
        if r is Some {
            (seq![NodeView { children: c2, ..list[0] }] + list.drop_first(), r)
        } else {
            let (rest, r2) = remove_from_forest(list.drop_first(), id);
            (seq![list[0]] + rest, r2)
        }
    }
}

/// Removal of the subtree rooted at `id` from the tree rooted at `n`.
pub open spec fn remove_from_node(n: NodeView, id: u32) -> (NodeView, Option<NodeView>) {
    let (cs, r) = remove_from_forest(n.children, id);
    (NodeView { children: cs, ..n }, r)
}

/// Insertion of `x` under the first node with id `parent` in a forest.
pub open spec fn add_under_forest(list: Seq<NodeView>, x: NodeView, parent: u32) -> (Seq<
    NodeView,
>, bool)
    decreases list,
{
    if list.len() == 0 {
        (list, false)
    } else {
        let (c2, ok) = add_under_node(list[0], x, parent);
        if ok {
            (seq![c2] + list.drop_first(), true)
        } else {
            let (rest, ok2) = add_under_forest(list.drop_first(), x, parent);
            (seq![list[0]] + rest, ok2)
        }
    }
}

/// Insertion of `x` under the first node with id `parent` in the tree
/// rooted at `n`; `false` when no such node exists.
pub open spec fn add_under_node(n: NodeView, x: NodeView, parent: u32) -> (NodeView, bool)
    decreases n,
{
    if n.id == parent {
        (NodeView { children: n.children.push(x), ..n }, true)
    } else {
        let (cs, ok) = add_under_forest(n.children, x, parent);
        (NodeView { children: cs, ..n }, ok)
    }
}

/// Relocation of the subtree rooted at `id` under `parent`: committed when
/// both the removal and the re-insertion succeed, otherwise a no-op.
pub open spec fn relocate_node_spec(n: NodeView, id: u32, parent: u32) -> (NodeView, bool) {
    let (t2, r) = remove_from_node(n, id);
    match r {
        Some(x) => {
            let (t3, ok) = add_under_node(t2, x, parent);
            if ok {
                (t3, true)
            } else {
                (n, false)
            }
        },
        None => (n, false),
    }
}

/// One line of the tree dump: the slash-joined path, a space, the id and a
/// line break.
pub open spec fn line_text(path: Seq<char>, id: u32) -> Seq<char> {
    path + " "@ + crate::util::decimal_digits(id as nat) + "\n"@
}

/// Number of nodes in a subtree.
pub open spec fn node_size(n: NodeView) -> nat
    decreases n,
{
    1 + forest_size(n.children)
}

/// Number of nodes in a forest.
pub open spec fn forest_size(list: Seq<NodeView>) -> nat
    decreases list,
{
    if list.len() == 0 {
        0
    } else {
        node_size(list[0]) + forest_size(list.drop_first())
    }
}

/// Number of nodes left in a traversal queue.
pub open spec fn queue_size(q: Seq<(Seq<char>, NodeView)>) -> nat
    decreases q,
{
    if q.len() == 0 {
        0
    } else {
        node_size(q[0].1) + queue_size(q.drop_first())
    }
}

/// The queue entries of a node's children: each child with its path.
pub open spec fn child_entries(path: Seq<char>, list: Seq<NodeView>) -> Seq<
    (Seq<char>, NodeView),
> {
    list.map_values(|c: NodeView| (path + "/"@ + c.name, c))
}

/// Queue sizes add over concatenation.
pub proof fn lemma_queue_size_concat(a: Seq<(Seq<char>, NodeView)>, b: Seq<(Seq<char>, NodeView)>)
    ensures
        queue_size(a + b) == queue_size(a) + queue_size(b),
    decreases a.len(),
{
    if a.len() == 0 {
        assert(a + b =~= b);
    } else {
        assert((a + b).drop_first() =~= a.drop_first() + b);
        assert((a + b)[0] == a[0]);
        lemma_queue_size_concat(a.drop_first(), b);
    }
}

/// The queue entries of a forest hold as many nodes as the forest.
pub proof fn lemma_child_entries_size(path: Seq<char>, list: Seq<NodeView>)
    ensures
        queue_size(child_entries(path, list)) == forest_size(list),
    decreases list.len(),
{
    if list.len() == 0 {
    } else {
        assert(child_entries(path, list).drop_first() =~= child_entries(
            path,
            list.drop_first(),
        ));
        assert(child_entries(path, list)[0].1 == list[0]);
        lemma_child_entries_size(path, list.drop_first());
    }
}

/// The lines of a breadth-first traversal: the front entry's line, then the
/// rest of the queue with the front node's children appended.
pub open spec fn bfs_lines(q: Seq<(Seq<char>, NodeView)>) -> Seq<Seq<char>>
    decreases queue_size(q),
    via bfs_lines_decreases
{
    if q.len() == 0 {
        Seq::empty()
    } else {
        seq![line_text(q[0].0, q[0].1.id)] + bfs_lines(
            q.drop_first() + child_entries(q[0].0, q[0].1.children),
        )
    }
}

#[via_fn]
proof fn bfs_lines_decreases(q: Seq<(Seq<char>, NodeView)>) {
    if q.len() != 0 {
        lemma_queue_size_concat(q.drop_first(), child_entries(q[0].0, q[0].1.children));
        lemma_child_entries_size(q[0].0, q[0].1.children);
        assert(queue_size(q) == node_size(q[0].1) + queue_size(q.drop_first()));
    }
}

/// The `(path, node)` records of a breadth-first traversal, in emission
/// order.
pub open spec fn bfs_records(q: Seq<(Seq<char>, NodeView)>) -> Seq<(Seq<char>, NodeView)>
    decreases queue_size(q),
    via bfs_records_decreases
{
    if q.len() == 0 {
        Seq::empty()
    } else {
        seq![q[0]] + bfs_records(q.drop_first() + child_entries(q[0].0, q[0].1.children))
    }
}

#[via_fn]
proof fn bfs_records_decreases(q: Seq<(Seq<char>, NodeView)>) {
    if q.len() != 0 {
        lemma_queue_size_concat(q.drop_first(), child_entries(q[0].0, q[0].1.children));
        lemma_child_entries_size(q[0].0, q[0].1.children);
        assert(queue_size(q) == node_size(q[0].1) + queue_size(q.drop_first()));
    }
}

/// The line of one traversal record.
pub open spec fn rec_line(r: (Seq<char>, NodeView)) -> Seq<char> {
    line_text(r.0, r.1.id)
}

/// The span id of one traversal record.
pub open spec fn rec_id(r: (Seq<char>, NodeView)) -> u32 {
    r.1.id
}

/// The lines of a record list, in order.
pub open spec fn rec_lines_of(rs: Seq<(Seq<char>, NodeView)>) -> Seq<Seq<char>> {
    rs.map_values(|r: (Seq<char>, NodeView)| rec_line(r))
}

/// The span ids of a record list, in order.
pub open spec fn rec_ids_of(rs: Seq<(Seq<char>, NodeView)>) -> Seq<u32> {
    rs.map_values(|r: (Seq<char>, NodeView)| rec_id(r))
}

/// All span ids under a traversal queue, in order.
pub open spec fn queue_ids(q: Seq<(Seq<char>, NodeView)>) -> Seq<u32>
    decreases q,
{
    if q.len() == 0 {
        Seq::empty()
    } else {
        node_ids(q[0].1) + queue_ids(q.drop_first())
    }
}

/// Queue ids concatenate over queue concatenation.
proof fn lemma_queue_ids_concat(a: Seq<(Seq<char>, NodeView)>, b: Seq<(Seq<char>, NodeView)>)
    ensures
        queue_ids(a + b) == queue_ids(a) + queue_ids(b),
    decreases a.len(),
{
    if a.len() == 0 {
        assert(a + b =~= b);
        assert(queue_ids(a) + queue_ids(b) =~= queue_ids(b));
    } else {
        assert((a + b).drop_first() =~= a.drop_first() + b);
        assert((a + b)[0] == a[0]);
        lemma_queue_ids_concat(a.drop_first(), b);
        assert(node_ids(a[0].1) + (queue_ids(a.drop_first()) + queue_ids(b)) =~= (node_ids(a[0].1)
            + queue_ids(a.drop_first())) + queue_ids(b));
    }
}

/// The queue entries of a forest hold exactly the forest's ids.
proof fn lemma_queue_ids_child_entries(path: Seq<char>, list: Seq<NodeView>)
    ensures
        queue_ids(child_entries(path, list)) == forest_ids(list),
    decreases list.len(),
{
    if list.len() == 0 {
        assert(child_entries(path, list).len() == 0);
    } else {
        assert(child_entries(path, list).drop_first() =~= child_entries(path, list.drop_first()));
        assert(child_entries(path, list)[0].1 == list[0]);
        lemma_queue_ids_child_entries(path, list.drop_first());
    }
}

/// `suffix` closes `s`.
pub open spec fn ends_with(s: Seq<char>, suffix: Seq<char>) -> bool {
    s.len() >= suffix.len() && s.skip(s.len() - suffix.len()) == suffix
}

/// The breadth-first traversal of a queue whose entry paths each end in
/// their node's name: the lines are the records' lines, the emitted ids
/// are exactly the ids under the queue, and every record's path ends in
/// its node's name.
proof fn lemma_bfs_records_props(q: Seq<(Seq<char>, NodeView)>)
    requires
        forall|k: int| 0 <= k < q.len() ==> ends_with((#[trigger] q[k]).0, q[k].1.name),
    ensures
        bfs_lines(q) == rec_lines_of(bfs_records(q)),
        rec_ids_of(bfs_records(q)).to_multiset() == queue_ids(q).to_multiset(),
        forall|k: int|
            0 <= k < bfs_records(q).len() ==> ends_with(
                (#[trigger] bfs_records(q)[k]).0,
                bfs_records(q)[k].1.name,
            ),
    decreases queue_size(q),
{
    broadcast use vstd::seq_lib::lemma_multiset_commutative;
    broadcast use vstd::multiset::group_multiset_axioms;

    if q.len() == 0 {
        assert(bfs_lines(q) =~= rec_lines_of(bfs_records(q)));
        assert(rec_ids_of(bfs_records(q)) =~= queue_ids(q));
    } else {
        let front = q[0];
        let kids = child_entries(front.0, front.1.children);
        let q2 = q.drop_first() + kids;
        lemma_queue_size_concat(q.drop_first(), kids);
        lemma_child_entries_size(front.0, front.1.children);
        assert(queue_size(q) == node_size(front.1) + queue_size(q.drop_first()));
        assert forall|k: int| 0 <= k < q2.len() implies ends_with(
            (#[trigger] q2[k]).0,
            q2[k].1.name,
        ) by {
            if k < q.drop_first().len() {
                assert(q2[k] == q.drop_first()[k]);
                assert(q.drop_first()[k] == q[k + 1]);
            } else {
                let j = k - q.drop_first().len();
                assert(q2[k] == kids[j]);
                let c = front.1.children[j];
                let p = front.0 + "/"@ + c.name;
                assert(kids[j] == (p, c));
                assert(p.skip(p.len() - c.name.len()) =~= c.name);
            }
        }
        lemma_bfs_records_props(q2);
        // Lines.
        assert(bfs_records(q) == seq![front] + bfs_records(q2));
        assert forall|k: int| 0 <= k < bfs_records(q).len() implies #[trigger] rec_lines_of(
            bfs_records(q),
        )[k] == bfs_lines(q)[k] by {
            if k == 0 {
                assert(bfs_records(q)[0] == front);
                assert(bfs_lines(q)[0] == line_text(front.0, front.1.id));
            } else {
                assert(bfs_records(q)[k] == bfs_records(q2)[k - 1]);
                assert(bfs_lines(q)[k] == bfs_lines(q2)[k - 1]);
                assert(bfs_lines(q2)[k - 1] == rec_lines_of(bfs_records(q2))[k - 1]);
            }
        }
        assert(bfs_lines(q).len() == 1 + bfs_lines(q2).len());
        assert(bfs_lines(q) =~= rec_lines_of(bfs_records(q)));
        // Ids.
        assert(rec_ids_of(bfs_records(q)) =~= seq![front.1.id] + rec_ids_of(bfs_records(q2)));
        lemma_queue_ids_concat(q.drop_first(), kids);
        lemma_queue_ids_child_entries(front.0, front.1.children);
        assert(queue_ids(q) == node_ids(front.1) + queue_ids(q.drop_first()));
        assert(node_ids(front.1) == seq![front.1.id] + forest_ids(front.1.children));
        assert(rec_ids_of(bfs_records(q)).to_multiset() =~= seq![front.1.id].to_multiset().add(
            rec_ids_of(bfs_records(q2)).to_multiset(),
        ));
        assert(queue_ids(q2).to_multiset() =~= queue_ids(q.drop_first()).to_multiset().add(
            forest_ids(front.1.children).to_multiset(),
        ));
        assert(queue_ids(q).to_multiset() =~= seq![front.1.id].to_multiset().add(
            forest_ids(front.1.children).to_multiset().add(
                queue_ids(q.drop_first()).to_multiset(),
            ),
        ));
        assert(queue_ids(q.drop_first()).to_multiset().add(
            forest_ids(front.1.children).to_multiset(),
        ) =~= forest_ids(front.1.children).to_multiset().add(
            queue_ids(q.drop_first()).to_multiset(),
        ));
        assert(rec_ids_of(bfs_records(q2)).to_multiset() == forest_ids(
            front.1.children,
        ).to_multiset().add(queue_ids(q.drop_first()).to_multiset()));
        assert(rec_ids_of(bfs_records(q)).to_multiset() =~= queue_ids(q).to_multiset());
        // Paths.
        assert forall|k: int| 0 <= k < bfs_records(q).len() implies ends_with(
            (#[trigger] bfs_records(q)[k]).0,
            bfs_records(q)[k].1.name,
        ) by {
            if k == 0 {
                assert(bfs_records(q)[0] == front);
                assert(ends_with(q[0].0, q[0].1.name));
            } else {
                assert(bfs_records(q)[k] == bfs_records(q2)[k - 1]);
            }
        }
    }
}

/// Forest ids concatenate over forest concatenation.
proof fn lemma_forest_ids_concat(a: Seq<NodeView>, b: Seq<NodeView>)
    ensures
        forest_ids(a + b) == forest_ids(a) + forest_ids(b),
    decreases a.len(),
{
    if a.len() == 0 {
        assert(a + b =~= b);
        assert(forest_ids(a) + forest_ids(b) =~= forest_ids(b));
    } else {
        assert((a + b).drop_first() =~= a.drop_first() + b);
        assert((a + b)[0] == a[0]);
        lemma_forest_ids_concat(a.drop_first(), b);
        assert(node_ids(a[0]) + (forest_ids(a.drop_first()) + forest_ids(b)) =~= (node_ids(a[0])
            + forest_ids(a.drop_first())) + forest_ids(b));
    }
}

/// The ids of a one-node forest.
proof fn lemma_forest_ids_singleton(n: NodeView)
    ensures
        forest_ids(seq![n]) == node_ids(n),
{
    assert(seq![n].len() == 1);
    assert(seq![n][0] == n);
    assert(seq![n].drop_first() =~= Seq::<NodeView>::empty());
    assert(forest_ids(seq![n]) == node_ids(n) + forest_ids(Seq::<NodeView>::empty()));
    assert(node_ids(n) + Seq::<u32>::empty() =~= node_ids(n));
}

/// Forest ids distribute over appending one node.
proof fn lemma_forest_ids_push(list: Seq<NodeView>, x: NodeView)
    ensures
        forest_ids(list.push(x)) == forest_ids(list) + node_ids(x),
{
    assert(list.push(x) =~= list + seq![x]);
    lemma_forest_ids_concat(list, seq![x]);
    lemma_forest_ids_singleton(x);
}

/// Appending a leaf with a fresh id at root level extends the tree's ids
/// by exactly that id and keeps the tree well formed.
pub proof fn lemma_add_fresh_leaf_preserves_wf(t: NodeView, id: u32, name: Seq<char>)
    requires
        tree_wf(t),
        !node_ids(t).contains(id),
    ensures
        ({
            let t2 = NodeView {
                children: t.children.push(NodeView { id, name, children: Seq::empty() }),
                ..t
            };
            node_ids(t2) == node_ids(t).push(id) && tree_wf(t2)
        }),
{
    let leaf = NodeView { id, name, children: Seq::empty() };
    let t2 = NodeView { children: t.children.push(leaf), ..t };
    assert(node_ids(leaf) =~= seq![id]);
    lemma_forest_ids_push(t.children, leaf);
    assert(node_ids(t2) =~= node_ids(t).push(id));
    assert forall|i: int, j: int|
        0 <= i < j < node_ids(t2).len() implies node_ids(t2)[i] != node_ids(t2)[j] by {
        if j < node_ids(t).len() {
            assert(node_ids(t2)[i] == node_ids(t)[i] && node_ids(t2)[j] == node_ids(t)[j]);
        } else {
            assert(node_ids(t2)[j] == id);
            assert(node_ids(t2)[i] == node_ids(t)[i]);
            assert(!node_ids(t).contains(id));
        }
    }
}

/// A successful removal splits the forest's ids between what stays and the
/// removed subtree.
proof fn lemma_remove_forest_ids(list: Seq<NodeView>, id: u32)
    ensures
        remove_from_forest(list, id).1 is Some ==> forest_ids(list).to_multiset() == forest_ids(
            remove_from_forest(list, id).0,
        ).to_multiset().add(node_ids(remove_from_forest(list, id).1->Some_0).to_multiset()),
    decreases forest_size(list),
{
    broadcast use vstd::seq_lib::lemma_multiset_commutative;
    broadcast use vstd::multiset::group_multiset_axioms;

    if list.len() == 0 {
    } else if list[0].id == id {
    } else {
        assert(forest_size(list) == node_size(list[0]) + forest_size(list.drop_first()));
        let (c2, r) = remove_from_forest(list[0].children, id);
        if r is Some {
            let x = r->Some_0;
            lemma_remove_forest_ids(list[0].children, id);
            let n2 = NodeView { children: c2, ..list[0] };
            assert(remove_from_forest(list, id).0 == seq![n2] + list.drop_first());
            lemma_forest_ids_concat(seq![n2], list.drop_first());
            lemma_forest_ids_singleton(n2);
            assert(forest_ids(list) == node_ids(list[0]) + forest_ids(list.drop_first()));
            assert(node_ids(list[0]) == seq![list[0].id] + forest_ids(list[0].children));
            assert(node_ids(n2) == seq![list[0].id] + forest_ids(c2));
            assert(forest_ids(list).to_multiset() =~= forest_ids(
                remove_from_forest(list, id).0,
            ).to_multiset().add(node_ids(x).to_multiset()));
        } else {
            let (rest, r2) = remove_from_forest(list.drop_first(), id);
            if r2 is Some {
                let x = r2->Some_0;
                lemma_remove_forest_ids(list.drop_first(), id);
                assert(remove_from_forest(list, id).0 == seq![list[0]] + rest);
                lemma_forest_ids_concat(seq![list[0]], rest);
                lemma_forest_ids_singleton(list[0]);
                assert(forest_ids(list) == node_ids(list[0]) + forest_ids(list.drop_first()));
                assert(forest_ids(list).to_multiset() =~= forest_ids(
                    remove_from_forest(list, id).0,
                ).to_multiset().add(node_ids(x).to_multiset()));
            }
        }
    }
}

/// A successful insertion adds exactly the inserted subtree's ids.
proof fn lemma_add_node_ids(n: NodeView, x: NodeView, parent: u32)
    ensures
        add_under_node(n, x, parent).1 ==> node_ids(add_under_node(n, x, parent).0).to_multiset()
            == node_ids(n).to_multiset().add(node_ids(x).to_multiset()),
    decreases node_size(n), 0int,
{
    broadcast use vstd::seq_lib::lemma_multiset_commutative;
    broadcast use vstd::multiset::group_multiset_axioms;

    if n.id == parent {
        lemma_forest_ids_push(n.children, x);
        let t2 = add_under_node(n, x, parent).0;
        assert(node_ids(t2) == seq![n.id] + (forest_ids(n.children) + node_ids(x)));
        assert(node_ids(n) == seq![n.id] + forest_ids(n.children));
        assert(node_ids(t2).to_multiset() =~= node_ids(n).to_multiset().add(
            node_ids(x).to_multiset(),
        ));
    } else {
        assert(forest_size(n.children) < node_size(n));
        lemma_add_forest_ids(n.children, x, parent);
        let (cs, ok) = add_under_forest(n.children, x, parent);
        if ok {
            let t2 = add_under_node(n, x, parent).0;
            assert(node_ids(t2) == seq![n.id] + forest_ids(cs));
            assert(node_ids(n) == seq![n.id] + forest_ids(n.children));
            assert(node_ids(t2).to_multiset() =~= node_ids(n).to_multiset().add(
                node_ids(x).to_multiset(),
            ));
        }
    }
}

/// A successful insertion adds exactly the inserted subtree's ids.
proof fn lemma_add_forest_ids(list: Seq<NodeView>, x: NodeView, parent: u32)
    ensures
        add_under_forest(list, x, parent).1 ==> forest_ids(
            add_under_forest(list, x, parent).0,
        ).to_multiset() == forest_ids(list).to_multiset().add(node_ids(x).to_multiset()),
    decreases forest_size(list), 1int,
{
    broadcast use vstd::seq_lib::lemma_multiset_commutative;
    broadcast use vstd::multiset::group_multiset_axioms;

    if list.len() == 0 {
    } else {
        assert(forest_size(list) == node_size(list[0]) + forest_size(list.drop_first()));
        lemma_add_node_ids(list[0], x, parent);
        let (c2, ok) = add_under_node(list[0], x, parent);
        if ok {
            assert(add_under_forest(list, x, parent).0 == seq![c2] + list.drop_first());
            lemma_forest_ids_concat(seq![c2], list.drop_first());
            lemma_forest_ids_singleton(c2);
            assert(forest_ids(list) == node_ids(list[0]) + forest_ids(list.drop_first()));
            assert(forest_ids(add_under_forest(list, x, parent).0).to_multiset() =~= forest_ids(
                list,
            ).to_multiset().add(node_ids(x).to_multiset()));
        } else {
            let (rest, ok2) = add_under_forest(list.drop_first(), x, parent);
            if ok2 {
                lemma_add_forest_ids(list.drop_first(), x, parent);
                assert(add_under_forest(list, x, parent).0 == seq![list[0]] + rest);
                lemma_forest_ids_concat(seq![list[0]], rest);
                lemma_forest_ids_singleton(list[0]);
                assert(forest_ids(list) == node_ids(list[0]) + forest_ids(list.drop_first()));
                assert(forest_ids(add_under_forest(list, x, parent).0).to_multiset()
                    =~= forest_ids(list).to_multiset().add(node_ids(x).to_multiset()));
            }
        }
    }
}

/// A relocation never changes which spans the tree holds — committed, it
/// permutes the ids; refused, it is a no-op — and it keeps a well-formed
/// tree well formed.
pub proof fn lemma_relocate_preserves_wf(t: NodeView, id: u32, parent: u32)
    requires
        tree_wf(t),
    ensures
        ({
            let (t2, ok) = relocate_node_spec(t, id, parent);
            node_ids(t2).to_multiset() == node_ids(t).to_multiset() && tree_wf(t2)
        }),
{
    broadcast use vstd::seq_lib::lemma_multiset_commutative;
    broadcast use vstd::multiset::group_multiset_axioms;

    let (tr, r) = remove_from_node(t, id);
    match r {
        Some(x) => {
            let (t3, ok) = add_under_node(tr, x, parent);
            if ok {
                lemma_remove_forest_ids(t.children, id);
                let (cs, _) = remove_from_forest(t.children, id);
                assert(node_ids(t) == seq![t.id] + forest_ids(t.children));
                assert(node_ids(tr) == seq![t.id] + forest_ids(cs));
                assert(node_ids(t).to_multiset() =~= node_ids(tr).to_multiset().add(
                    node_ids(x).to_multiset(),
                ));
                lemma_add_node_ids(tr, x, parent);
                assert(node_ids(t3).to_multiset() =~= node_ids(t).to_multiset());
                node_ids(t).lemma_multiset_has_no_duplicates();
                node_ids(t3).lemma_multiset_has_no_duplicates_conv();
            }
        },
        None => {},
    }
}

/// For a well-formed tree, the breadth-first dump lists each span exactly
/// once — the emitted ids are a permutation of the tree's ids, which are
/// distinct — and every line's path ends in that span's name.
pub proof fn lemma_tree_dump_each_span_once(t: NodeView)
    requires
        tree_wf(t),
    ensures
        ({
            let recs = bfs_records(seq![(t.name, t)]);
            &&& bfs_lines(seq![(t.name, t)]) == rec_lines_of(recs)
            &&& rec_ids_of(recs).to_multiset() == node_ids(t).to_multiset()
            &&& rec_ids_of(recs).no_duplicates()
            &&& forall|k: int|
                0 <= k < recs.len() ==> ends_with((#[trigger] recs[k]).0, recs[k].1.name)
        }),
{
    let q0 = seq![(t.name, t)];
    assert forall|k: int| 0 <= k < q0.len() implies ends_with(
        (#[trigger] q0[k]).0,
        q0[k].1.name,
    ) by {
        assert(q0[0].0 == t.name);
        assert(t.name.skip(0) =~= t.name);
    }
    lemma_bfs_records_props(q0);
    assert(q0.drop_first().len() == 0);
    assert(queue_ids(q0.drop_first()) =~= Seq::<u32>::empty());
    assert(queue_ids(q0) =~= node_ids(t));
    node_ids(t).lemma_multiset_has_no_duplicates();
    rec_ids_of(bfs_records(q0)).lemma_multiset_has_no_duplicates_conv();
}

/// The concatenation of a sequence of lines.
pub open spec fn cat_lines(lines: Seq<Seq<char>>) -> Seq<char>
    decreases lines.len(),
{
    if lines.len() == 0 {
        Seq::empty()
    } else {
        lines[0] + cat_lines(lines.drop_first())
    }
}

/// The full dump of a tree rooted at `n`: its breadth-first lines, joined.
pub open spec fn tree_dump(n: NodeView) -> Seq<char> {
    cat_lines(bfs_lines(seq![(n.name, n)]))
}

/// The view of a traversal queue.
pub open spec fn queue_view(q: Seq<(String, Span)>) -> Seq<(Seq<char>, NodeView)> {
    q.map_values(|e: (String, Span)| (e.0@, e.1@))
}

/// A removal that found nothing leaves the forest as it was.
pub proof fn lemma_remove_none_unchanged(list: Seq<NodeView>, id: u32)
    ensures
        remove_from_forest(list, id).1 is None ==> remove_from_forest(list, id).0 == list,
    decreases list.len(),
{
    if list.len() == 0 {
    } else if list[0].id == id {
    } else {
        let (c2, r) = remove_from_forest(list[0].children, id);
        if r is Some {
        } else {
            lemma_remove_none_unchanged(list.drop_first(), id);
            let (rest, r2) = remove_from_forest(list.drop_first(), id);
            if r2 is None {
                assert(seq![list[0]] + list.drop_first() =~= list);
            }
        }
    }
}

/// Skipping a prefix in which nothing matches and no subtree holds the id
/// does not change what a removal finds; the prefix is kept as it is.
pub proof fn lemma_remove_forest_skip(list: Seq<NodeView>, id: u32, i: int)
    requires
        0 <= i <= list.len(),
        forall|j: int|
            0 <= j < i ==> (#[trigger] list[j]).id != id && remove_from_forest(
                list[j].children,
                id,
            ).1 is None,
    ensures
        remove_from_forest(list, id).1 == remove_from_forest(list.skip(i), id).1,
        remove_from_forest(list, id).0 == list.take(i) + remove_from_forest(list.skip(i), id).0,
    decreases i,
{
    if i == 0 {
        assert(list.skip(0) =~= list);
        assert(list.take(0) + remove_from_forest(list, id).0 =~= remove_from_forest(list, id).0);
    } else {
        assert(list[0].id != id && remove_from_forest(list[0].children, id).1 is None);
        let tail = list.drop_first();
        assert forall|j: int|
            0 <= j < i - 1 implies (#[trigger] tail[j]).id != id && remove_from_forest(
                tail[j].children,
                id,
            ).1 is None by {
            assert(tail[j] == list[j + 1]);
        }
        lemma_remove_forest_skip(tail, id, i - 1);
        assert(tail.skip(i - 1) =~= list.skip(i));
        assert(list.take(i) =~= seq![list[0]] + tail.take(i - 1));
        let (rest, r2) = remove_from_forest(tail, id);
        assert(remove_from_forest(list, id) == (seq![list[0]] + rest, r2));
        assert(seq![list[0]] + (tail.take(i - 1) + remove_from_forest(list.skip(i), id).0) =~= (
        seq![list[0]] + tail.take(i - 1)) + remove_from_forest(list.skip(i), id).0);
    }
}

/// An insertion that found no parent leaves the forest as it was.
pub proof fn lemma_add_false_unchanged(list: Seq<NodeView>, x: NodeView, parent: u32)
    ensures
        !add_under_forest(list, x, parent).1 ==> add_under_forest(list, x, parent).0 == list,
    decreases list,
{
    if list.len() == 0 {
    } else {
        lemma_add_node_false_unchanged(list[0], x, parent);
        let (c2, ok) = add_under_node(list[0], x, parent);
        if ok {
        } else {
            lemma_add_false_unchanged(list.drop_first(), x, parent);
            let (rest, ok2) = add_under_forest(list.drop_first(), x, parent);
            if !ok2 {
                assert(seq![list[0]] + list.drop_first() =~= list);
            }
        }
    }
}

/// An insertion that found no parent leaves the tree as it was.
pub proof fn lemma_add_node_false_unchanged(n: NodeView, x: NodeView, parent: u32)
    ensures
        !add_under_node(n, x, parent).1 ==> add_under_node(n, x, parent).0 =~~= n,
    decreases n,
{
    if n.id == parent {
    } else {
        lemma_add_false_unchanged(n.children, x, parent);
    }
}

/// Skipping a prefix in which no node carries the parent does not change
/// what an insertion does; the prefix is kept as it is.
pub proof fn lemma_add_forest_skip(list: Seq<NodeView>, x: NodeView, parent: u32, i: int)
    requires
        0 <= i <= list.len(),
        forall|j: int| 0 <= j < i ==> !add_under_node(#[trigger] list[j], x, parent).1,
    ensures
        add_under_forest(list, x, parent).1 == add_under_forest(list.skip(i), x, parent).1,
        add_under_forest(list, x, parent).0 == list.take(i) + add_under_forest(
            list.skip(i),
            x,
            parent,
        ).0,
    decreases i,
{
    if i == 0 {
        assert(list.skip(0) =~= list);
        assert(list.take(0) + add_under_forest(list, x, parent).0 =~= add_under_forest(
            list,
            x,
            parent,
        ).0);
    } else {
        assert(!add_under_node(list[0], x, parent).1);
        lemma_add_node_false_unchanged(list[0], x, parent);
        let tail = list.drop_first();
        assert forall|j: int| 0 <= j < i - 1 implies !add_under_node(
            #[trigger] tail[j],
            x,
            parent,
        ).1 by {
            assert(tail[j] == list[j + 1]);
        }
        lemma_add_forest_skip(tail, x, parent, i - 1);
        assert(tail.skip(i - 1) =~= list.skip(i));
        assert(list.take(i) =~= seq![list[0]] + tail.take(i - 1));
        let (rest, ok2) = add_under_forest(tail, x, parent);
        assert(add_under_forest(list, x, parent).0 == seq![list[0]] + rest);
        assert(seq![list[0]] + (tail.take(i - 1) + add_under_forest(list.skip(i), x, parent).0)
            =~= (seq![list[0]] + tail.take(i - 1)) + add_under_forest(list.skip(i), x, parent).0);
    }
}

/// Skipping a prefix in which the id is neither a direct child nor inside a
/// subtree does not change what the parent search finds.
pub proof fn lemma_find_parent_skip(pid: u32, list: Seq<NodeView>, id: u32, i: int)
    requires
        0 <= i <= list.len(),
        forall|j: int|
            0 <= j < i ==> (#[trigger] list[j]).id != id && find_parent_in(
                list[j].id,
                list[j].children,
                id,
            ) is None,
    ensures
        find_parent_in(pid, list, id) == find_parent_in(pid, list.skip(i), id),
    decreases i,
{
    if i == 0 {
        assert(list.skip(0) =~= list);
    } else {
        let tail = list.drop_first();
        assert forall|j: int|
            0 <= j < i - 1 implies (#[trigger] tail[j]).id != id && find_parent_in(
                tail[j].id,
                tail[j].children,
                id,
            ) is None by {
            assert(tail[j] == list[j + 1]);
        }
        lemma_find_parent_skip(pid, tail, id, i - 1);
        assert(tail.skip(i - 1) =~= list.skip(i));
    }
}

impl Span {
    /// The empty root node: the synthetic span id 0, named `root`.
    pub fn new() -> (r: Span)
        ensures
            r@ == (NodeView { id: 0, name: "root"@, children: Seq::empty() }),
    {
        let r = Span { id: 0, name: String::from_str("root"), children: Vec::new() };
        proof {
            assert(views_of(r.children@) =~= Seq::<NodeView>::empty());
            assert(r@ =~~= (NodeView { id: 0, name: "root"@, children: Seq::empty() }));
        }
        r
    }

    /// A leaf node for a span definition, named after its metadata.
    pub fn with_metadata(id: u32, metadata: &Metadata) -> (r: Span)
        ensures
            r@ == (NodeView { id, name: metadata.name@, children: Seq::empty() }),
    {
        let r = Span { id, name: metadata.name.clone(), children: Vec::new() };
        proof {
            assert(views_of(r.children@) =~= Seq::<NodeView>::empty());
            assert(r@ =~~= (NodeView { id, name: metadata.name@, children: Seq::empty() }));
        }
        r
    }

    /// A deep copy whose view equals this one's.
    pub fn duplicate(&self) -> (r: Span)
        ensures
            r@ == self@,
        decreases *self,
    {
        let n = self.children.len();
        let mut out: Vec<Span> = Vec::new();
        let mut i: usize = 0;
        while i < n
            invariant
                i <= n,
                n == self.children@.len(),
                out@.len() == i,
                forall|j: int| 0 <= j < i ==> (#[trigger] out@[j])@ == self.children@[j]@,
            decreases n - i,
        {
            proof {
                assert(decreases_to!(*self => self.children@[i as int]));
            }
            let c = self.children[i].duplicate();
            out.push(c);
            i += 1;
        }
        proof {
            lemma_views_of(out@);
            lemma_views_of(self.children@);
            assert(out@.len() == self.children@.len());
            assert(views_of(out@) =~= views_of(self.children@));
        }
        let ghost gout = out@;
        let r = Span { id: self.id, name: self.name.clone(), children: out };
        proof {
            assert(r.children@ == gout);
            assert(r@ =~~= self@);
        }
        r
    }

    /// Appends a child at this node.
    pub fn add_node(&mut self, node: Span)
        ensures
            final(self)@ == (NodeView {
                children: old(self)@.children.push(node@),
                ..old(self)@
            }),
    {
        let ghost gnode = node@;
        let ghost pre = self.children@;
        self.children.push(node);
        proof {
            lemma_views_of(pre);
            lemma_views_of(self.children@);
            assert(views_of(self.children@) =~= views_of(pre).push(gnode));
            assert(self@ =~~= (NodeView { children: views_of(pre).push(gnode), ..old(self)@ }));
        }
    }

    /// Removes the subtree rooted at the given id and returns it, walking
    /// direct children before descending, depth first.
    pub fn remove_node(&mut self, id: u32) -> (r: Option<Span>)
        ensures
            final(self)@ == remove_from_node(old(self)@, id).0,
            match r {
                Some(x) => remove_from_node(old(self)@, id).1 == Some(x@),
                None => remove_from_node(old(self)@, id).1 is None,
            },
        decreases *self,
    {
        let ghost oldviews = old(self)@.children;
        proof {
            lemma_views_of(old(self).children@);
        }
        let n = self.children.len();
        let mut i: usize = 0;
        while i < n
            invariant
                i <= n,
                n == self.children@.len(),
                n == old(self).children@.len(),
                n == oldviews.len(),
                oldviews == views_of(old(self).children@),
                self.id == old(self).id,
                self.name == old(self).name,
                forall|k: int| 0 <= k < oldviews.len() ==> #[trigger] oldviews[k] == old(
                    self,
                ).children@[k]@,
                forall|k: int|
                    i <= k < n ==> #[trigger] self.children@[k] == old(self).children@[k],
                forall|k: int| 0 <= k < i ==> (#[trigger] self.children@[k])@ == oldviews[k],
                forall|k: int|
                    0 <= k < i ==> (#[trigger] oldviews[k]).id != id && remove_from_forest(
                        oldviews[k].children,
                        id,
                    ).1 is None,
            decreases n - i,
        {
            if self.children[i].id == id {
                let x = self.children.remove(i);
                proof {
                    lemma_remove_forest_skip(oldviews, id, i as int);
                    assert(oldviews.skip(i as int)[0] == oldviews[i as int]);
                    assert(x@ == oldviews[i as int]);
                    assert(remove_from_forest(oldviews, id).1 == Some(x@));
                    assert(remove_from_forest(oldviews.skip(i as int), id).0 == oldviews.skip(
                        i as int,
                    ).drop_first());
                    lemma_views_of(self.children@);
                    assert forall|k: int| 0 <= k < self.children@.len() implies #[trigger] views_of(
                        self.children@,
                    )[k] == remove_from_forest(oldviews, id).0[k] by {
                        if k < i as int {
                            assert(views_of(self.children@)[k] == self.children@[k]@);
                        } else {
                            assert(self.children@[k] == old(self).children@[k + 1]);
                            assert(oldviews.skip(i as int).drop_first()[k - i] == oldviews[k + 1]);
                        }
                    }
                    assert(views_of(self.children@) =~= remove_from_forest(oldviews, id).0);
                    assert(self@ =~~= remove_from_node(old(self)@, id).0);
                }
                return Some(x);
            }
            let mut child = self.children.remove(i);
            let ghost oldchild = child@;
            proof {
                assert(oldchild == oldviews[i as int]);
            }
            let res = child.remove_node(id);
            let ghost newchild = child@;
            self.children.insert(i, child);
            match res {
                Some(x) => {
                    proof {
                        lemma_remove_forest_skip(oldviews, id, i as int);
                        assert(oldviews.skip(i as int)[0] == oldviews[i as int]);
                        let (c2, r) = remove_from_forest(oldviews[i as int].children, id);
                        assert(r == Some(x@));
                        assert(newchild == (NodeView { children: c2, ..oldviews[i as int] }));
                        assert(remove_from_forest(oldviews.skip(i as int), id).0 == seq![newchild]
                            + oldviews.skip(i as int).drop_first());
                        lemma_views_of(self.children@);
                        assert forall|k: int|
                            0 <= k < self.children@.len() implies #[trigger] views_of(
                            self.children@,
                        )[k] == remove_from_forest(oldviews, id).0[k] by {
                            if k < i as int {
                                assert(views_of(self.children@)[k] == self.children@[k]@);
                            } else if k == i as int {
                                assert(self.children@[k] == child);
                            } else {
                                assert(self.children@[k] == old(self).children@[k]);
                                assert(oldviews.skip(i as int).drop_first()[k - i - 1]
                                    == oldviews[k]);
                            }
                        }
                        assert(views_of(self.children@) =~= remove_from_forest(oldviews, id).0);
                        assert(self@ =~~= remove_from_node(old(self)@, id).0);
                    }
                    return Some(x);
                },
                None => {
                    proof {
                        lemma_remove_none_unchanged(oldviews[i as int].children, id);
                        assert(newchild =~~= oldviews[i as int]);
                        assert forall|k: int|
                            i + 1 <= k < n implies #[trigger] self.children@[k] == old(
                            self,
                        ).children@[k] by {}
                    }
                },
            }
            i += 1;
        }
        proof {
            lemma_remove_forest_skip(oldviews, id, n as int);
            assert(oldviews.skip(n as int) =~= Seq::<NodeView>::empty());
            assert(remove_from_forest(oldviews, id).1 is None);
            assert(remove_from_forest(oldviews, id).0 == oldviews.take(n as int) + Seq::<
                NodeView,
            >::empty());
            assert(oldviews.take(n as int) + Seq::<NodeView>::empty() =~= oldviews);
            lemma_views_of(self.children@);
            assert(views_of(self.children@) =~= oldviews);
            assert(self@ =~~= remove_from_node(old(self)@, id).0);
        }
        None
    }

    /// Adds the given node under the first node carrying the parent id;
    /// hands the node back when no such parent exists.
    pub fn add_node_with_parent(&mut self, node: Span, parent: u32) -> (r: Option<Span>)
        ensures
            final(self)@ == add_under_node(old(self)@, node@, parent).0,
            match r {
                Some(x) => !add_under_node(old(self)@, node@, parent).1 && x@ == node@,
                None => add_under_node(old(self)@, node@, parent).1,
            },
        decreases *self,
    {
        let ghost gnode = node@;
        if self.id == parent {
            let ghost pre = self.children@;
            self.children.push(node);
            proof {
                lemma_views_of(pre);
                lemma_views_of(self.children@);
                assert(views_of(self.children@) =~= views_of(pre).push(gnode));
                assert(self@ =~~= add_under_node(old(self)@, gnode, parent).0);
            }
            return None;
        }
        let ghost oldviews = old(self)@.children;
        proof {
            lemma_views_of(old(self).children@);
        }
        let mut nd = node;
        let n = self.children.len();
        let mut i: usize = 0;
        while i < n
            invariant
                i <= n,
                n == self.children@.len(),
                n == old(self).children@.len(),
                n == oldviews.len(),
                oldviews == views_of(old(self).children@),
                self.id == old(self).id,
                self.id != parent,
                self.name == old(self).name,
                nd@ == gnode,
                gnode == node@,
                forall|k: int| 0 <= k < oldviews.len() ==> #[trigger] oldviews[k] == old(
                    self,
                ).children@[k]@,
                forall|k: int|
                    i <= k < n ==> #[trigger] self.children@[k] == old(self).children@[k],
                forall|k: int| 0 <= k < i ==> (#[trigger] self.children@[k])@ == oldviews[k],
                forall|k: int|
                    0 <= k < i ==> !add_under_node(#[trigger] oldviews[k], gnode, parent).1,
            decreases n - i,
        {
            let mut child = self.children.remove(i);
            let ghost oldchild = child@;
            proof {
                assert(oldchild == oldviews[i as int]);
            }
            let res = child.add_node_with_parent(nd, parent);
            let ghost newchild = child@;
            self.children.insert(i, child);
            match res {
                Some(x) => {
                    proof {
                        lemma_add_node_false_unchanged(oldviews[i as int], gnode, parent);
                        assert(newchild =~~= oldviews[i as int]);
                    }
                    nd = x;
                },
                None => {
                    proof {
                        lemma_add_forest_skip(oldviews, gnode, parent, i as int);
                        assert(oldviews.skip(i as int)[0] == oldviews[i as int]);
                        assert(add_under_node(oldviews[i as int], gnode, parent).1);
                        assert(newchild == add_under_node(oldviews[i as int], gnode, parent).0);
                        assert(add_under_forest(oldviews.skip(i as int), gnode, parent).0 == seq![
                            newchild,
                        ] + oldviews.skip(i as int).drop_first());
                        lemma_views_of(self.children@);
                        assert forall|k: int|
                            0 <= k < self.children@.len() implies #[trigger] views_of(
                            self.children@,
                        )[k] == add_under_forest(oldviews, gnode, parent).0[k] by {
                            if k < i as int {
                                assert(views_of(self.children@)[k] == self.children@[k]@);
                            } else if k == i as int {
                                assert(self.children@[k] == child);
                            } else {
                                assert(self.children@[k] == old(self).children@[k]);
                                assert(oldviews.skip(i as int).drop_first()[k - i - 1]
                                    == oldviews[k]);
                            }
                        }
                        assert(views_of(self.children@) =~= add_under_forest(
                            oldviews,
                            gnode,
                            parent,
                        ).0);
                        assert(self@ =~~= add_under_node(old(self)@, gnode, parent).0);
                    }
                    return None;
                },
            }
            i += 1;
        }
        proof {
            lemma_add_forest_skip(oldviews, gnode, parent, n as int);
            assert(oldviews.skip(n as int) =~= Seq::<NodeView>::empty());
            assert(!add_under_forest(oldviews, gnode, parent).1);
            assert(add_under_forest(oldviews, gnode, parent).0 == oldviews.take(n as int) + Seq::<
                NodeView,
            >::empty());
            assert(oldviews.take(n as int) + Seq::<NodeView>::empty() =~= oldviews);
            lemma_views_of(self.children@);
            assert(views_of(self.children@) =~= oldviews);
            assert(self@ =~~= add_under_node(old(self)@, gnode, parent).0);
        }
        Some(nd)
    }

    /// Relocates the subtree rooted at `id` under the node `new_parent`.
    /// The move happens only when both the removal and the re-insertion
    /// succeed; otherwise the tree is left exactly as it was.
    pub fn relocate_node(&mut self, id: u32, new_parent: u32) -> (r: bool)
        ensures
            final(self)@ == relocate_node_spec(old(self)@, id, new_parent).0,
            r == relocate_node_spec(old(self)@, id, new_parent).1,
    {
        let mut copy = self.duplicate();
        match copy.remove_node(id) {
            Some(x) => {
                match copy.add_node_with_parent(x, new_parent) {
                    None => {
                        *self = copy;
                        true
                    },
                    Some(_) => false,
                }
            },
            None => false,
        }
    }

    /// Finds the parent of the given id: the first node, in depth-first
    /// order, whose direct children contain it.
    pub fn find_parent(&self, id: u32) -> (r: Option<u32>)
        ensures
            r == find_parent_node(self@, id),
        decreases *self,
    {
        let n = self.children.len();
        let mut i: usize = 0;
        proof {
            lemma_views_of(self.children@);
        }
        while i < n
            invariant
                i <= n,
                n == self.children@.len(),
                self@.children == views_of(self.children@),
                views_of(self.children@).len() == n,
                forall|j: int|
                    0 <= j < n ==> views_of(self.children@)[j] == (#[trigger] self.children@[j])@,
                forall|j: int|
                    0 <= j < i ==> (#[trigger] self@.children[j]).id != id && find_parent_in(
                        self@.children[j].id,
                        self@.children[j].children,
                        id,
                    ) is None,
            decreases n - i,
        {
            if self.children[i].id == id {
                proof {
                    lemma_find_parent_skip(self@.id, self@.children, id, i as int);
                    assert(self@.children.skip(i as int)[0] == self@.children[i as int]);
                }
                return Some(self.id);
            }
            proof {
                assert(decreases_to!(*self => self.children@[i as int]));
            }
            let deep = self.children[i].find_parent(id);
            match deep {
                Some(p) => {
                    proof {
                        lemma_find_parent_skip(self@.id, self@.children, id, i as int);
                        assert(self@.children.skip(i as int)[0] == self@.children[i as int]);
                    }
                    return Some(p);
                },
                None => {},
            }
            i += 1;
        }
        proof {
            lemma_find_parent_skip(self@.id, self@.children, id, n as int);
            assert(self@.children.skip(n as int) =~= Seq::<NodeView>::empty());
        }
        None
    }

    /// Dumps the tree breadth first: one `<path> <id>` line per node, the
    /// path slash-joined from the root down.
    pub fn write(&self) -> (r: String)
        ensures
            r@ == tree_dump(self@),
    {
        let ghost target = tree_dump(self@);
        let mut out = String::new();
        let mut queue: Vec<(String, Span)> = Vec::new();
        let rootpath = self.name.clone();
        let root = self.duplicate();
        queue.push((rootpath, root));
        proof {
            assert(queue_view(queue@) =~= seq![(self@.name, self@)]);
        }
        while queue.len() > 0
            invariant
                out@ + cat_lines(bfs_lines(queue_view(queue@))) == target,
            decreases queue_size(queue_view(queue@)),
        {
            let ghost q0 = queue_view(queue@);
            let (path, mut node) = queue.remove(0);
            let ghost gnode = node@;
            let ghost cviews = gnode.children;
            proof {
                assert(q0[0] == (path@, gnode));
                assert(queue_view(queue@) =~= q0.drop_first());
            }
            let ghost rest = queue_view(queue@);
            let ids = crate::util::u64_to_string(node.id as u64);
            let mut line = path.clone();
            line.append(" ");
            line.append(ids.as_str());
            line.append("\n");
            out.append(line.as_str());
            proof {
                assert(line@ == line_text(q0[0].0, q0[0].1.id));
                lemma_views_of(node.children@);
            }
            let mut k: usize = 0;
            let cl = node.children.len();
            let ghost total = cl as nat;
            while node.children.len() > 0
                invariant
                    k <= total,
                    total <= usize::MAX,
                    total == cviews.len(),
                    cviews == q0[0].1.children,
                    rest == q0.drop_first(),
                    node.children@.len() == total - k,
                    views_of(node.children@).len() == node.children@.len(),
                    forall|j: int|
                        0 <= j < node.children@.len() ==> #[trigger] views_of(node.children@)[j]
                            == node.children@[j]@,
                    forall|j: int|
                        0 <= j < node.children@.len() ==> (#[trigger] node.children@[j])@
                            == cviews[k + j],
                    path@ == q0[0].0,
                    queue_view(queue@) == rest + child_entries(path@, cviews.take(k as int)),
                decreases node.children@.len(),
            {
                let c = node.children.remove(0);
                let mut cp = path.clone();
                cp.append("/");
                cp.append(c.name.as_str());
                let ghost gcp = cp@;
                let ghost gc = c@;
                let ghost qpre = queue_view(queue@);
                queue.push((cp, c));
                proof {
                    assert(k < total);
                    assert(gc == cviews[k as int]);
                    assert(gcp == path@ + "/"@ + cviews[k as int].name);
                    assert(queue_view(queue@) =~= qpre.push((gcp, gc)));
                    assert(cviews.take(k as int + 1).len() == k + 1);
                    assert(cviews.take(k as int + 1).drop_last() =~= cviews.take(k as int));
                    assert(cviews.take(k as int + 1).last() == cviews[k as int]);
                    assert(child_entries(path@, cviews.take(k as int + 1)).len() == k + 1);
                    assert forall|j: int|
                        0 <= j < k + 1 implies child_entries(path@, cviews.take(k as int + 1))[j]
                        == child_entries(path@, cviews.take(k as int)).push((gcp, gc))[j] by {
                        assert(child_entries(path@, cviews.take(k as int + 1))[j] == (
                        path@ + "/"@ + cviews.take(k as int + 1)[j].name, cviews.take(
                            k as int + 1,
                        )[j]));
                        if j < k {
                            assert(child_entries(path@, cviews.take(k as int))[j] == (
                            path@ + "/"@ + cviews.take(k as int)[j].name, cviews.take(
                                k as int,
                            )[j]));
                            assert(cviews.take(k as int + 1)[j] == cviews.take(k as int)[j]);
                        } else {
                            assert(cviews.take(k as int + 1)[j] == cviews[k as int]);
                        }
                    }
                    assert(child_entries(path@, cviews.take(k as int + 1)) =~= child_entries(
                        path@,
                        cviews.take(k as int),
                    ).push((gcp, gc)));
                    assert(queue_view(queue@) =~= rest + child_entries(
                        path@,
                        cviews.take(k as int + 1),
                    ));
                    lemma_views_of(node.children@);
                    assert forall|j: int|
                        0 <= j < node.children@.len() implies (#[trigger] node.children@[j])@
                        == cviews[k + 1 + j] by {}
                }
                k += 1;
            }
            proof {
                assert(k == total);
                assert(cviews.take(total as int) =~= cviews);
                assert(queue_view(queue@) == rest + child_entries(q0[0].0, q0[0].1.children));
                assert(bfs_lines(q0) == seq![line_text(q0[0].0, q0[0].1.id)] + bfs_lines(
                    queue_view(queue@),
                ));
                assert(bfs_lines(q0).drop_first() =~= bfs_lines(queue_view(queue@)));
                assert(cat_lines(bfs_lines(q0)) == line_text(q0[0].0, q0[0].1.id) + cat_lines(
                    bfs_lines(queue_view(queue@)),
                ));
                lemma_queue_size_concat(rest, child_entries(q0[0].0, q0[0].1.children));
                lemma_child_entries_size(q0[0].0, q0[0].1.children);
                assert(queue_size(q0) == node_size(q0[0].1) + queue_size(q0.drop_first()));
                assert(queue_size(queue_view(queue@)) < queue_size(q0));
            }
        }
        proof {
            assert(queue_view(queue@) =~= Seq::<(Seq<char>, NodeView)>::empty());
            assert(cat_lines(bfs_lines(queue_view(queue@))) =~= Seq::<char>::empty());
            assert(out@ + Seq::<char>::empty() =~= out@);
        }
        out
    }
}

/// The id chain from a node down to `id`, both inclusive, when `id` lies
/// in its subtree.
pub open spec fn path_in_node(n: NodeView, id: u32) -> Option<Seq<u32>>
    decreases n,
{
    if n.id == id {
        Some(seq![n.id])
    } else {
        match path_in_forest(n.children, id) {
            Some(p) => Some(seq![n.id] + p),
            None => None,
        }
    }
}

/// The id chain down to `id` in the first subtree of a forest that holds
/// it.
pub open spec fn path_in_forest(list: Seq<NodeView>, id: u32) -> Option<Seq<u32>>
    decreases list,
{
    if list.len() == 0 {
        None
    } else {
        match path_in_node(list[0], id) {
            Some(p) => Some(p),
            None => path_in_forest(list.drop_first(), id),
        }
    }
}

/// Skipping a prefix of subtrees that do not hold the id does not change
/// what the path search finds.
pub proof fn lemma_path_forest_skip(list: Seq<NodeView>, id: u32, i: int)
    requires
        0 <= i <= list.len(),
        forall|j: int| 0 <= j < i ==> path_in_node(#[trigger] list[j], id) is None,
    ensures
        path_in_forest(list, id) == path_in_forest(list.skip(i), id),
    decreases i,
{
    if i == 0 {
        assert(list.skip(0) =~= list);
    } else {
        let tail = list.drop_first();
        assert forall|j: int| 0 <= j < i - 1 implies path_in_node(
            #[trigger] tail[j],
            id,
        ) is None by {
            assert(tail[j] == list[j + 1]);
        }
        lemma_path_forest_skip(tail, id, i - 1);
        assert(tail.skip(i - 1) =~= list.skip(i));
    }
}

impl Span {
    /// The id chain from this node down to `id`, when `id` lies in the
    /// subtree.
    pub fn path_to(&self, id: u32) -> (r: Option<Vec<u32>>)
        ensures
            match r {
                Some(p) => path_in_node(self@, id) == Some(p@),
                None => path_in_node(self@, id) is None,
            },
        decreases *self,
    {
        if self.id == id {
            let mut out: Vec<u32> = Vec::new();
            out.push(self.id);
            proof {
                assert(out@ =~= seq![self@.id]);
            }
            return Some(out);
        }
        let n = self.children.len();
        let mut i: usize = 0;
        proof {
            lemma_views_of(self.children@);
        }
        while i < n
            invariant
                i <= n,
                n == self.children@.len(),
                self@.children == views_of(self.children@),
                self@.id == self.id,
                self.id != id,
                views_of(self.children@).len() == n,
                forall|j: int|
                    0 <= j < n ==> #[trigger] views_of(self.children@)[j] == self.children@[j]@,
                forall|j: int| 0 <= j < i ==> path_in_node(#[trigger] self@.children[j], id) is None,
            decreases n - i,
        {
            proof {
                assert(decreases_to!(*self => self.children@[i as int]));
            }
            match self.children[i].path_to(id) {
                Some(p) => {
                    proof {
                        lemma_path_forest_skip(self@.children, id, i as int);
                        assert(self@.children.skip(i as int)[0] == self@.children[i as int]);
                    }
                    let mut out: Vec<u32> = Vec::new();
                    out.push(self.id);
                    let mut rest = p;
                    let ghost grest = rest@;
                    out.append(&mut rest);
                    proof {
                        assert(out@ =~= seq![self@.id] + grest);
                    }
                    return Some(out);
                },
                None => {},
            }
            i += 1;
        }
        proof {
            lemma_path_forest_skip(self@.children, id, n as int);
            assert(self@.children.skip(n as int) =~= Seq::<NodeView>::empty());
        }
        None
    }
}

/// The span tree of one session: a root node carrying the synthetic span
/// id 0, named `root`, under which all spans hang.
pub struct SpanTree {
    root: Span,
}

impl View for SpanTree {
    type V = NodeView;

    closed spec fn view(&self) -> NodeView {
        self.root@
    }
}

impl SpanTree {
    /// The empty tree: only the synthetic root.
    pub fn new() -> (r: SpanTree)
        ensures
            r@ == (NodeView { id: 0, name: "root"@, children: Seq::empty() }),
    {
        SpanTree { root: Span::new() }
    }

    /// Appends a node at root level.
    pub fn add_node(&mut self, node: Span)
        ensures
            final(self)@ == (NodeView {
                children: old(self)@.children.push(node@),
                ..old(self)@
            }),
    {
        self.root.add_node(node);
    }

    /// The parent of `id`, if it hangs in the tree; root-level nodes have
    /// parent 0.
    pub fn find_parent(&self, id: u32) -> (r: Option<u32>)
        ensures
            r == find_parent_node(self@, id),
    {
        self.root.find_parent(id)
    }

    /// Relocates the subtree rooted at `id` under `new_parent`; either
    /// committed whole or a no-op.
    pub fn relocate_node(&mut self, id: u32, new_parent: u32) -> (r: bool)
        ensures
            final(self)@ == relocate_node_spec(old(self)@, id, new_parent).0,
            r == relocate_node_spec(old(self)@, id, new_parent).1,
    {
        self.root.relocate_node(id, new_parent)
    }

    /// The breadth-first dump, one `<path> <id>` line per node.
    pub fn write(&self) -> (r: String)
        ensures
            r@ == tree_dump(self@),
    {
        self.root.write()
    }

    /// The id chain from the root down to `id`, when `id` hangs in the
    /// tree.
    pub fn path_to(&self, id: u32) -> (r: Option<Vec<u32>>)
        ensures
            match r {
                Some(p) => path_in_node(self@, id) == Some(p@),
                None => path_in_node(self@, id) is None,
            },
    {
        self.root.path_to(id)
    }
}

} // verus!
