//! What holds of every well-formed index and of every walk over it.

use crate::archive::extract::{expected_total, steps_of};
use crate::archive::model::wf_nodes;
use crate::archive::walk::{
    base_stack, children_walk, stack_walk, subtree_walk, walk, PendingView, Visit,
};
use crate::archive::{EntryView, NodeID};
use vstd::prelude::*;

verus! {

/// The node that is reached from `id` by following parent links `steps`
/// times; the walk stays at a node without a parent.
pub open spec fn ancestor(nodes: Seq<EntryView>, id: int, steps: nat) -> int
    decreases steps,
{
    if steps == 0 {
        id
    } else {
        match nodes[id].parent {
            Some(parent) => ancestor(nodes, parent@, (steps - 1) as nat),
            None => id,
        }
    }
}

/// The number of parent links between a node and the root.
pub open spec fn depth(nodes: Seq<EntryView>, id: int) -> nat
    decreases id,
{
    if id <= 0 || id >= nodes.len() {
        0
    } else {
        match nodes[id].parent {
            Some(parent) => if parent@ < id {
                1 + depth(nodes, parent@)
            } else {
                0
            },
            None => 0,
        }
    }
}

/// The tree has no cycle: following the parent links from any node leads to
/// the root, in as many steps as the node is deep, which is at most the
/// node's position in the arena.
pub proof fn lemma_parent_links_reach_root(nodes: Seq<EntryView>, id: int)
    requires
        wf_nodes(nodes),
        0 <= id < nodes.len(),
    ensures
        ancestor(nodes, id, depth(nodes, id)) == 0,
        depth(nodes, id) <= id,
    decreases id,
{
    if id > 0 {
        let parent = nodes[id].parent.unwrap()@;
        lemma_parent_links_reach_root(nodes, parent);
    }
}

/// Whether `x` is `top` or lies below it.
pub open spec fn under(nodes: Seq<EntryView>, top: int, x: int) -> bool
    decreases x,
{
    if x == top {
        true
    } else if x <= 0 || x >= nodes.len() {
        false
    } else {
        match nodes[x].parent {
            Some(parent) => parent@ < x && under(nodes, top, parent@),
            None => false,
        }
    }
}

/// How often a walk visits the node at position `x`.
pub open spec fn visits_of(visits: Seq<Visit>, x: int) -> nat
    decreases visits.len(),
{
    if visits.len() == 0 {
        0
    } else {
        visits_of(visits.drop_last(), x) + if visits.last().id@ == x {
            1nat
        } else {
            0nat
        }
    }
}

pub proof fn lemma_visits_of_add(a: Seq<Visit>, b: Seq<Visit>, x: int)
    ensures
        visits_of(a + b, x) == visits_of(a, x) + visits_of(b, x),
    decreases b.len(),
{
    if b.len() == 0 {
        assert(a + b == a);
    } else {
        assert((a + b).drop_last() == a + b.drop_last());
        assert((a + b).last() == b.last());
        lemma_visits_of_add(a, b.drop_last(), x);
    }
}

proof fn lemma_visits_of_one(visit: Visit, x: int)
    ensures
        visits_of(seq![visit], x) == if visit.id@ == x {
            1nat
        } else {
            0nat
        },
{
    assert(seq![visit].drop_last() == Seq::<Visit>::empty());
    assert(seq![visit].last() == visit);
    assert(visits_of(Seq::<Visit>::empty(), x) == 0);
}

/// A node lies only below nodes that come before it.
pub proof fn lemma_under_order(nodes: Seq<EntryView>, top: int, x: int)
    requires
        under(nodes, top, x),
    ensures
        top <= x,
        x != top ==> 0 < x < nodes.len(),
    decreases x,
{
    if x != top {
        lemma_under_order(nodes, top, nodes[x].parent.unwrap()@);
    }
}

/// What lies below a child lies below its parent.
pub proof fn lemma_under_child(nodes: Seq<EntryView>, top: int, child: int, x: int)
    requires
        wf_nodes(nodes),
        0 <= top < nodes.len(),
        0 <= child < nodes.len(),
        nodes[child].parent == Some(NodeID(top as usize)),
        top < child,
        under(nodes, child, x),
    ensures
        under(nodes, top, x),
    decreases x,
{
    if x == top {
    } else if x == child {
        assert(under(nodes, top, top));
    } else {
        lemma_under_order(nodes, child, x);
        lemma_under_child(nodes, top, child, nodes[x].parent.unwrap()@);
    }
}

/// What lies properly below a node lies below one of its children.
proof fn lemma_under_some_child(nodes: Seq<EntryView>, top: int, x: int) -> (j: int)
    requires
        wf_nodes(nodes),
        0 <= top < nodes.len(),
        under(nodes, top, x),
        x != top,
    ensures
        0 <= j < nodes[top].children.len(),
        under(nodes, nodes[top].children[j]@, x),
    decreases x,
{
    lemma_under_order(nodes, top, x);
    let parent = nodes[x].parent.unwrap()@;
    if parent == top {
        assert(nodes[parent].children.contains(NodeID(x as usize)));
        let j = choose|j: int|
            0 <= j < nodes[top].children.len() && nodes[top].children[j] == NodeID(x as usize);
        assert(under(nodes, x, x));
        j
    } else {
        let j = lemma_under_some_child(nodes, top, parent);
        let child = nodes[top].children[j]@;
        assert(under(nodes, child, x));
        j
    }
}

/// Nothing lies below two different children of one node.
pub proof fn lemma_under_one_child(nodes: Seq<EntryView>, top: int, j1: int, j2: int, x: int)
    requires
        wf_nodes(nodes),
        0 <= top < nodes.len(),
        0 <= j1 < nodes[top].children.len(),
        0 <= j2 < nodes[top].children.len(),
        j1 != j2,
        under(nodes, nodes[top].children[j1]@, x),
    ensures
        !under(nodes, nodes[top].children[j2]@, x),
    decreases x,
{
    let c1 = nodes[top].children[j1];
    let c2 = nodes[top].children[j2];
    assert(c1 != c2) by {
        if j1 < j2 {
            assert(nodes[c1@].name != nodes[c2@].name);
        } else {
            assert(nodes[c2@].name != nodes[c1@].name);
        }
    }
    assert(top < c1@ < nodes.len() && nodes[c1@].parent == Some(NodeID(top as usize)));
    assert(top < c2@ < nodes.len() && nodes[c2@].parent == Some(NodeID(top as usize)));
    if under(nodes, c2@, x) {
        if x == c1@ {
            // c2 would lie above the parent of c1, which comes before c2.
            assert(under(nodes, c2@, top));
            lemma_under_order(nodes, c2@, top);
        } else if x == c2@ {
            assert(under(nodes, c1@, top));
            lemma_under_order(nodes, c1@, top);
        } else {
            lemma_under_order(nodes, c1@, x);
            lemma_under_one_child(nodes, top, j1, j2, nodes[x].parent.unwrap()@);
        }
    }
}

/// Whether `x` lies below one of the first `k` children of `top`.
pub open spec fn under_children(nodes: Seq<EntryView>, top: int, k: int, x: int) -> bool {
    exists|j: int| 0 <= j < k && #[trigger] under(nodes, nodes[top].children[j]@, x)
}

/// The walk of a subtree visits every node of the subtree once, and no other.
pub proof fn lemma_subtree_walk_visits(
    nodes: Seq<EntryView>,
    id: int,
    path: Seq<Seq<char>>,
    x: int,
)
    requires
        wf_nodes(nodes),
        0 <= id < nodes.len(),
    ensures
        visits_of(subtree_walk(nodes, id, path), x) == if under(nodes, id, x) {
            1nat
        } else {
            0nat
        },
    decreases nodes.len() - id, 1int, 0int,
{
    let below = crate::archive::walk::extended(path, nodes[id].name);
    let first = seq![Visit { id: NodeID(id as usize), path: below }];
    let n = nodes[id].children.len() as int;
    let rest = children_walk(nodes, id, n, below);
    lemma_children_walk_visits(nodes, id, n, below, x);
    lemma_visits_of_add(first, rest, x);
    lemma_visits_of_one(first[0], x);
    if x == id {
        if under_children(nodes, id, n, x) {
            let j = choose|j: int| 0 <= j < n && #[trigger] under(nodes, nodes[id].children[j]@, x);
            lemma_under_order(nodes, nodes[id].children[j]@, x);
        }
    } else if under(nodes, id, x) {
        let j = lemma_under_some_child(nodes, id, x);
    } else if under_children(nodes, id, n, x) {
        let j = choose|j: int| 0 <= j < n && #[trigger] under(nodes, nodes[id].children[j]@, x);
        lemma_under_child(nodes, id, nodes[id].children[j]@, x);
    }
}

/// The walk of the first `k` children's subtrees visits every node below
/// one of these children once, and no other.
pub proof fn lemma_children_walk_visits(
    nodes: Seq<EntryView>,
    id: int,
    k: int,
    path: Seq<Seq<char>>,
    x: int,
)
    requires
        wf_nodes(nodes),
        0 <= id < nodes.len(),
        0 <= k <= nodes[id].children.len(),
    ensures
        visits_of(children_walk(nodes, id, k, path), x) == if under_children(nodes, id, k, x) {
            1nat
        } else {
            0nat
        },
    decreases nodes.len() - id, 0int, k,
{
    if k > 0 {
        let child = nodes[id].children[k - 1]@;
        assert(id < child < nodes.len());
        let first = subtree_walk(nodes, child, path);
        let rest = children_walk(nodes, id, k - 1, path);
        lemma_subtree_walk_visits(nodes, child, path, x);
        lemma_children_walk_visits(nodes, id, k - 1, path, x);
        lemma_visits_of_add(first, rest, x);
        if under(nodes, child, x) {
            if under_children(nodes, id, k - 1, x) {
                let j = choose|j: int|
                    0 <= j < k - 1 && #[trigger] under(nodes, nodes[id].children[j]@, x);
                lemma_under_one_child(nodes, id, k - 1, j, x);
            }
        } else if under_children(nodes, id, k, x) {
            let j = choose|j: int| 0 <= j < k && #[trigger] under(nodes, nodes[id].children[j]@, x);
            assert(j < k - 1);
        }
    }
}

/// Every node lies below the root.
pub proof fn lemma_under_root(nodes: Seq<EntryView>, x: int)
    requires
        wf_nodes(nodes),
        0 <= x < nodes.len(),
    ensures
        under(nodes, 0, x),
    decreases x,
{
    if x > 0 {
        lemma_under_root(nodes, nodes[x].parent.unwrap()@);
    }
}

/// The walk from the root is the walk of the root's subtree.
pub proof fn lemma_walk_of_one(nodes: Seq<EntryView>, base: NodeID)
    ensures
        walk(nodes, seq![base]) == subtree_walk(nodes, base@, Seq::empty()),
{
    let stack = base_stack(seq![base]);
    assert(stack.len() == 1);
    assert(stack.drop_last() == Seq::<crate::archive::walk::PendingView>::empty());
    assert(stack_walk(nodes, stack.drop_last()) == Seq::<Visit>::empty());
    assert(subtree_walk(nodes, base@, Seq::empty()) + Seq::<Visit>::empty() == subtree_walk(
        nodes,
        base@,
        Seq::empty(),
    ));
}

/// The walk from the root visits every node of the index exactly once, and
/// nothing that is no node of the index.
pub proof fn lemma_walk_from_root_visits_each_node_once(nodes: Seq<EntryView>, x: int)
    requires
        wf_nodes(nodes),
    ensures
        visits_of(walk(nodes, seq![NodeID(0)]), x) == if 0 <= x < nodes.len() {
            1nat
        } else {
            0nat
        },
{
    lemma_walk_of_one(nodes, NodeID(0));
    lemma_subtree_walk_visits(nodes, 0, Seq::empty(), x);
    if 0 <= x < nodes.len() {
        lemma_under_root(nodes, x);
    } else if under(nodes, 0, x) {
        lemma_under_order(nodes, 0, x);
    }
}

/// How many of the first `n` nodes are `top` or lie below it.
pub open spec fn descendants(nodes: Seq<EntryView>, top: int, n: int) -> nat
    decreases n,
{
    if n <= 0 {
        0
    } else {
        descendants(nodes, top, n - 1) + if under(nodes, top, n - 1) {
            1nat
        } else {
            0nat
        }
    }
}

/// How many visits a walk pays to the first `n` nodes.
pub open spec fn visits_below(visits: Seq<Visit>, n: int) -> nat
    decreases n,
{
    if n <= 0 {
        0
    } else {
        visits_below(visits, n - 1) + visits_of(visits, n - 1)
    }
}

proof fn lemma_visits_below_push(visits: Seq<Visit>, visit: Visit, n: int)
    ensures
        visits_below(visits.push(visit), n) == visits_below(visits, n) + if 0 <= visit.id@ < n {
            1nat
        } else {
            0nat
        },
    decreases n,
{
    if n > 0 {
        lemma_visits_below_push(visits, visit, n - 1);
        assert(visits.push(visit).drop_last() == visits);
        assert(visits.push(visit).last() == visit);
    }
}

/// A walk that visits only the first `n` nodes is as long as the visits
/// that it pays to them.
proof fn lemma_visits_below_len(visits: Seq<Visit>, n: int)
    requires
        forall|i: int| 0 <= i < visits.len() ==> 0 <= (#[trigger] visits[i]).id@ < n,
    ensures
        visits_below(visits, n) == visits.len(),
    decreases visits.len(),
{
    if visits.len() == 0 {
        lemma_visits_below_empty(n);
        assert(visits == Seq::<Visit>::empty());
    } else {
        let front = visits.drop_last();
        assert(0 <= visits[visits.len() - 1].id@ < n);
        assert forall|i: int| 0 <= i < front.len() implies 0 <= (#[trigger] front[i]).id@ < n by {
            assert(front[i] == visits[i]);
        }
        lemma_visits_below_len(front, n);
        lemma_visits_below_push(front, visits.last(), n);
        assert(front.push(visits.last()) == visits);
    }
}

proof fn lemma_visits_below_empty(n: int)
    ensures
        visits_below(Seq::<Visit>::empty(), n) == 0,
    decreases n,
{
    if n > 0 {
        lemma_visits_below_empty(n - 1);
    }
}

/// A node that a walk visits is visited at least once.
pub proof fn lemma_visited(visits: Seq<Visit>, i: int)
    requires
        0 <= i < visits.len(),
    ensures
        visits_of(visits, visits[i].id@) >= 1,
    decreases visits.len(),
{
    if i < visits.len() - 1 {
        lemma_visited(visits.drop_last(), i);
    }
}

proof fn lemma_subtree_visits_below(nodes: Seq<EntryView>, id: int, path: Seq<Seq<char>>, n: int)
    requires
        wf_nodes(nodes),
        0 <= id < nodes.len(),
    ensures
        visits_below(subtree_walk(nodes, id, path), n) == descendants(nodes, id, n),
    decreases n,
{
    if n > 0 {
        lemma_subtree_visits_below(nodes, id, path, n - 1);
        lemma_subtree_walk_visits(nodes, id, path, n - 1);
    }
}

/// The walk of a subtree visits only nodes of the index, and as many as the
/// node has descendants, itself included.
pub proof fn lemma_subtree_walk_len(nodes: Seq<EntryView>, id: int, path: Seq<Seq<char>>)
    requires
        wf_nodes(nodes),
        0 <= id < nodes.len(),
    ensures
        subtree_walk(nodes, id, path).len() == descendants(nodes, id, nodes.len() as int),
        forall|i: int|
            0 <= i < subtree_walk(nodes, id, path).len() ==> id <= (#[trigger] subtree_walk(
                nodes,
                id,
                path,
            )[i]).id@ < nodes.len(),
{
    let visits = subtree_walk(nodes, id, path);
    assert forall|i: int| 0 <= i < visits.len() implies id <= (#[trigger] visits[i]).id@
        < nodes.len() by {
        let x = visits[i].id@;
        lemma_visited(visits, i);
        lemma_subtree_walk_visits(nodes, id, path, x);
        lemma_under_order(nodes, id, x);
    }
    lemma_visits_below_len(visits, nodes.len() as int);
    lemma_subtree_visits_below(nodes, id, path, nodes.len() as int);
}

proof fn lemma_descendants_of_root(nodes: Seq<EntryView>, n: int)
    requires
        wf_nodes(nodes),
        0 <= n <= nodes.len(),
    ensures
        descendants(nodes, 0, n) == n,
    decreases n,
{
    if n > 0 {
        lemma_descendants_of_root(nodes, n - 1);
        lemma_under_root(nodes, n - 1);
    }
}

/// The walk from the root makes as many visits as the index has nodes.
pub proof fn lemma_walk_from_root_len(nodes: Seq<EntryView>)
    requires
        wf_nodes(nodes),
    ensures
        walk(nodes, seq![NodeID(0)]).len() == nodes.len(),
{
    lemma_walk_of_one(nodes, NodeID(0));
    lemma_subtree_walk_len(nodes, 0, Seq::empty());
    lemma_descendants_of_root(nodes, nodes.len() as int);
}

/// An extraction that has the root among its bases expects as many entries
/// as the container has records.
pub proof fn lemma_total_with_root(nodes: Seq<EntryView>, entry_count: int, bases: Seq<NodeID>)
    requires
        bases.contains(NodeID(0)),
    ensures
        expected_total(nodes, entry_count, bases) == entry_count,
{
}

/// An extraction of one node expects as many entries as that node has
/// descendants, itself included, but no more than the container has
/// records.
pub proof fn lemma_total_of_one_node(nodes: Seq<EntryView>, entry_count: int, base: NodeID)
    requires
        wf_nodes(nodes),
        0 < base@ < nodes.len(),
    ensures
        expected_total(nodes, entry_count, seq![base]) == if descendants(
            nodes,
            base@,
            nodes.len() as int,
        ) <= entry_count {
            descendants(nodes, base@, nodes.len() as int) as int
        } else {
            entry_count
        },
{
    lemma_walk_of_one(nodes, base);
    lemma_subtree_walk_len(nodes, base@, Seq::empty());
    assert(!seq![base].contains(NodeID(0))) by {
        if seq![base].contains(NodeID(0)) {
            let i = choose|i: int| 0 <= i < seq![base].len() && seq![base][i] == NodeID(0);
            assert(seq![base][i] == base);
        }
    }
}

/// No extraction expects more entries than the container has records.
pub proof fn lemma_total_bound(nodes: Seq<EntryView>, entry_count: int, bases: Seq<NodeID>)
    requires
        0 <= entry_count,
    ensures
        0 <= expected_total(nodes, entry_count, bases) <= entry_count,
{
}

/// A walk that never visits the root asks for one step per visit.
proof fn lemma_steps_without_root(nodes: Seq<EntryView>, visits: Seq<Visit>)
    requires
        forall|i: int| 0 <= i < visits.len() ==> (#[trigger] visits[i]).id@ != 0,
    ensures
        steps_of(nodes, visits).len() == visits.len(),
    decreases visits.len(),
{
    if visits.len() > 0 {
        let rest = visits.drop_first();
        assert forall|i: int| 0 <= i < rest.len() implies (#[trigger] rest[i]).id@ != 0 by {
            assert(rest[i] == visits[i + 1]);
        }
        lemma_steps_without_root(nodes, rest);
        assert(visits[0].id@ != 0);
    }
}

/// The walk from bases that are nodes of the index visits nodes of the index
/// only, and the root only where it is among the bases.
pub proof fn lemma_stack_walk_ids(nodes: Seq<EntryView>, stack: Seq<PendingView>, i: int)
    requires
        wf_nodes(nodes),
        forall|k: int| 0 <= k < stack.len() ==> 0 <= (#[trigger] stack[k]).id@ < nodes.len(),
        0 <= i < stack_walk(nodes, stack).len(),
    ensures
        0 <= stack_walk(nodes, stack)[i].id@ < nodes.len(),
        stack_walk(nodes, stack)[i].id@ == 0 ==> exists|k: int|
            0 <= k < stack.len() && (#[trigger] stack[k]).id@ == 0,
    decreases stack.len(),
{
    if stack.len() > 0 {
        let top = stack.last();
        let first = subtree_walk(nodes, top.id@, top.path);
        lemma_subtree_walk_len(nodes, top.id@, top.path);
        if i < first.len() {
            assert(stack_walk(nodes, stack)[i] == first[i]);
            if first[i].id@ == 0 {
                assert(stack[stack.len() - 1].id@ == 0);
            }
        } else {
            let rest = stack.drop_last();
            assert forall|k: int| 0 <= k < rest.len() implies 0 <= (#[trigger] rest[k]).id@
                < nodes.len() by {
                assert(rest[k] == stack[k]);
            }
            lemma_stack_walk_ids(nodes, rest, i - first.len());
            assert(stack_walk(nodes, stack)[i] == stack_walk(nodes, rest)[i - first.len()]);
            if stack_walk(nodes, stack)[i].id@ == 0 {
                let k = choose|k: int| 0 <= k < rest.len() && (#[trigger] rest[k]).id@ == 0;
                assert(stack[k].id@ == 0);
            }
        }
    }
}

/// An extraction that leaves the root out makes one step for each visit of
/// its walk. It makes exactly as many steps as it expects, so that after
/// its last step the count of what was extracted is the expected total,
/// where the walk visits no more nodes than the container has records, and
/// only there.
pub proof fn lemma_steps_reach_total(nodes: Seq<EntryView>, entry_count: int, bases: Seq<NodeID>)
    requires
        wf_nodes(nodes),
        forall|i: int| 0 <= i < bases.len() ==> 0 < (#[trigger] bases[i])@ < nodes.len(),
    ensures
        steps_of(nodes, walk(nodes, bases)).len() == walk(nodes, bases).len(),
        steps_of(nodes, walk(nodes, bases)).len() == expected_total(nodes, entry_count, bases)
            <==> walk(nodes, bases).len() <= entry_count,
{
    let stack = base_stack(bases);
    let visits = walk(nodes, bases);
    assert forall|i: int| 0 <= i < visits.len() implies (#[trigger] visits[i]).id@ != 0 by {
        lemma_stack_walk_ids(nodes, stack, i);
        if visits[i].id@ == 0 {
            let k = choose|k: int| 0 <= k < stack.len() && (#[trigger] stack[k]).id@ == 0;
            assert(bases[k]@ == 0);
        }
    }
    lemma_steps_without_root(nodes, visits);
    assert(!bases.contains(NodeID(0))) by {
        if bases.contains(NodeID(0)) {
            let i = choose|i: int| 0 <= i < bases.len() && bases[i] == NodeID(0);
            assert(bases[i]@ == 0);
        }
    }
}

/// Whatever its bases, an extraction makes one step for each visit of its
/// walk that is not paid to the root.
pub proof fn lemma_steps_len(nodes: Seq<EntryView>, visits: Seq<Visit>)
    ensures
        steps_of(nodes, visits).len() + visits_of(visits, 0) == visits.len(),
    decreases visits.len(),
{
    if visits.len() > 0 {
        let first = seq![visits[0]];
        let rest = visits.drop_first();
        lemma_steps_len(nodes, rest);
        assert(first + rest == visits);
        lemma_visits_of_add(first, rest, 0);
        lemma_visits_of_one(visits[0], 0);
    }
}

/// An extraction of the root makes one step for each node but the root. It
/// makes exactly as many steps as it expects, so that after its last step
/// the count of what was extracted is the expected total, for the
/// containers whose index has one node for each record, and for no others:
/// those in which every directory on the way to a record has a record of
/// its own and no two records lead to one node.
pub proof fn lemma_root_steps_reach_total(nodes: Seq<EntryView>, entry_count: int)
    requires
        wf_nodes(nodes),
    ensures
        steps_of(nodes, walk(nodes, seq![NodeID(0)])).len() == nodes.len() - 1,
        steps_of(nodes, walk(nodes, seq![NodeID(0)])).len() == expected_total(
            nodes,
            entry_count,
            seq![NodeID(0)],
        ) <==> nodes.len() == entry_count + 1,
{
    let visits = walk(nodes, seq![NodeID(0)]);
    lemma_steps_len(nodes, visits);
    lemma_walk_from_root_visits_each_node_once(nodes, 0);
    lemma_walk_from_root_len(nodes);
    assert(seq![NodeID(0)][0] == NodeID(0));
    assert(seq![NodeID(0)].contains(NodeID(0)));
}

} // verus!
