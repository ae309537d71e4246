//! Where a stored path leads in the index: every record of the container
//! has one node, and the walk from the root gives that node the record's
//! path.

use crate::archive::laws::{
    lemma_children_walk_visits, lemma_under_child, lemma_under_one_child, lemma_under_order,
    lemma_visited, lemma_walk_from_root_visits_each_node_once, lemma_walk_of_one, under,
    under_children, visits_of,
};
use crate::archive::model::{
    attach, child_named, child_named_from, insert_from, lemma_attach_wf, lemma_child_named_some,
    new_entry, wf_nodes, EntrySource,
};
use crate::archive::path::{components, path_parts, PathPart};
use crate::archive::text::decoded_filename;
use crate::archive::walk::{children_walk, extended, is_valid_name, subtree_walk, walk};
use crate::archive::{built, root_view, EntryView, NodeID, StoredEntry};
use vstd::prelude::*;

verus! {

/// The names of a list of components.
pub open spec fn names_of(parts: Seq<PathPart>) -> Seq<Seq<char>> {
    parts.map_values(|part: PathPart| part.name)
}

/// The node that the names from the `k`-th on lead to from `cur`, each name
/// taken as the name of a child.
pub open spec fn resolve(nodes: Seq<EntryView>, names: Seq<Seq<char>>, cur: int, k: int) -> Option<
    int,
>
    decreases names.len() - k,
{
    if k < 0 || k >= names.len() {
        Some(cur)
    } else {
        match child_named(nodes, cur, names[k]) {
            Some(child) => resolve(nodes, names, child@, k + 1),
            None => None,
        }
    }
}

/// The names on the way from the root down to a node, the root's own name
/// left out.
pub open spec fn node_names(nodes: Seq<EntryView>, id: int) -> Seq<Seq<char>>
    decreases id,
{
    if id <= 0 || id >= nodes.len() {
        Seq::empty()
    } else {
        match nodes[id].parent {
            Some(parent) => if parent@ < id {
                node_names(nodes, parent@).push(nodes[id].name)
            } else {
                Seq::empty()
            },
            None => Seq::empty(),
        }
    }
}

/// The names that count as components of a relative path, in order.
pub open spec fn valid_names(names: Seq<Seq<char>>) -> Seq<Seq<char>>
    decreases names.len(),
{
    if names.len() == 0 {
        Seq::empty()
    } else {
        extended(valid_names(names.drop_last()), names.last())
    }
}

/// The relative path that a walk from `top` gives to the node `x` below it.
pub open spec fn relative_path(nodes: Seq<EntryView>, top: int, x: int) -> Seq<Seq<char>>
    decreases x,
{
    if x == top {
        extended(Seq::empty(), nodes[x].name)
    } else if x <= 0 || x >= nodes.len() {
        Seq::empty()
    } else {
        match nodes[x].parent {
            Some(parent) => if parent@ < x {
                extended(relative_path(nodes, top, parent@), nodes[x].name)
            } else {
                Seq::empty()
            },
            None => Seq::empty(),
        }
    }
}

/// Whether `b` holds the nodes of `a` with their names, kinds and parents,
/// and lists their children first and in the same order.
#[verifier::opaque]
pub open spec fn extends(a: Seq<EntryView>, b: Seq<EntryView>) -> bool {
    &&& a.len() <= b.len()
    &&& forall|i: int|
        0 <= i < a.len() ==> {
            &&& (#[trigger] b[i]).name == a[i].name
            &&& b[i].parent == a[i].parent
            &&& b[i].props == a[i].props
            &&& a[i].children.len() <= b[i].children.len()
        }
    &&& forall|i: int, j: int|
        0 <= i < a.len() && 0 <= j < a[i].children.len() ==> #[trigger] b[i].children[j]
            == a[i].children[j]
}

pub proof fn lemma_extends_transitive(a: Seq<EntryView>, b: Seq<EntryView>, c: Seq<EntryView>)
    requires
        extends(a, b),
        extends(b, c),
    ensures
        extends(a, c),
{
    reveal(extends);
    assert forall|i: int| 0 <= i < a.len() implies {
        &&& (#[trigger] c[i]).name == a[i].name
        &&& c[i].parent == a[i].parent
        &&& c[i].props == a[i].props
        &&& a[i].children.len() <= c[i].children.len()
    } by {
        assert(b[i].name == a[i].name);
    }
    assert forall|i: int, j: int|
        0 <= i < a.len() && 0 <= j < a[i].children.len() implies #[trigger] c[i].children[j]
        == a[i].children[j] by {
        assert(b[i].name == a[i].name);
        assert(b[i].children[j] == a[i].children[j]);
    }
}

pub proof fn lemma_attach_extends(nodes: Seq<EntryView>, parent: int, entry: EntryView)
    requires
        0 <= parent < nodes.len(),
    ensures
        extends(nodes, attach(nodes, parent, entry)),
{
    reveal(extends);
}

/// What a node is in an arena that extends the node's arena.
pub proof fn lemma_extends_at(a: Seq<EntryView>, b: Seq<EntryView>, i: int)
    requires
        extends(a, b),
        0 <= i < a.len(),
    ensures
        a.len() <= b.len(),
        b[i].name == a[i].name,
        b[i].parent == a[i].parent,
        b[i].props == a[i].props,
        a[i].children.len() <= b[i].children.len(),
        forall|j: int| 0 <= j < a[i].children.len() ==> #[trigger] b[i].children[j] == a[i].children[j],
{
    reveal(extends);
}

/// An arena extends itself, and no arena that extends it is shorter.
pub proof fn lemma_extends_len(a: Seq<EntryView>, b: Seq<EntryView>)
    ensures
        extends(a, a),
        extends(a, b) ==> a.len() <= b.len(),
{
    reveal(extends);
}

/// Whether every listed child is a node of the arena.
pub open spec fn children_in_range(nodes: Seq<EntryView>) -> bool {
    forall|i: int, j: int|
        0 <= i < nodes.len() && 0 <= j < nodes[i].children.len() ==> 0 <= (
        #[trigger] nodes[i].children[j])@ < nodes.len()
}

/// An insertion takes no node away.
pub proof fn lemma_insert_len(
    nodes: Seq<EntryView>,
    cur: int,
    parts: Seq<PathPart>,
    k: int,
    source: EntrySource,
)
    requires
        0 <= cur < nodes.len(),
        children_in_range(nodes),
    ensures
        nodes.len() <= insert_from(nodes, cur, parts, k, source).len(),
        children_in_range(insert_from(nodes, cur, parts, k, source)),
    decreases parts.len() - k,
{
    if 0 <= k < parts.len() {
        match child_named(nodes, cur, parts[k].name) {
            Some(id) => {
                lemma_child_named_some(nodes, nodes[cur].children, parts[k].name, 0);
                let j = choose|j: int|
                    0 <= j < nodes[cur].children.len() && nodes[cur].children[j] == id;
                assert(0 <= nodes[cur].children[j]@ < nodes.len());
                lemma_insert_len(nodes, id@, parts, k + 1, source);
            },
            None => {
                let grown = attach(nodes, cur, new_entry(parts[k], source));
                let id = NodeID(nodes.len() as usize);
                assert(grown.len() == nodes.len() + 1);
                assert forall|i: int, j: int|
                    0 <= i < grown.len() && 0 <= j < grown[i].children.len() implies 0 <= (
                #[trigger] grown[i].children[j])@ < grown.len() by {
                    if i == cur && j == nodes[cur].children.len() {
                        assert(grown[i].children[j] == id);
                    } else if i < nodes.len() {
                        assert(grown[i].children[j] == nodes[i].children[j]);
                    }
                }
                lemma_insert_len(grown, nodes.len() as int, parts, k + 1, source);
            },
        }
    }
}

/// A child that is found under a name is found under it in every arena
/// that extends the arena.
pub proof fn lemma_child_named_from_extends(
    a: Seq<EntryView>,
    b: Seq<EntryView>,
    parent: int,
    name: Seq<char>,
    from: int,
)
    requires
        wf_nodes(a),
        extends(a, b),
        0 <= parent < a.len(),
        0 <= from,
        child_named_from(a, a[parent].children, name, from) is Some,
    ensures
        child_named_from(b, b[parent].children, name, from) == child_named_from(
            a,
            a[parent].children,
            name,
            from,
        ),
    decreases a[parent].children.len() - from,
{
    if from < a[parent].children.len() {
        let child = a[parent].children[from];
        lemma_extends_at(a, b, parent);
        assert(b[parent].children[from] == child);
        assert(parent < child@ < a.len());
        lemma_extends_at(a, b, child@);
        if a[child@].name != name {
            lemma_child_named_from_extends(a, b, parent, name, from + 1);
        }
    }
}

/// The names down to a node stay what they are in an arena that extends
/// the arena.
pub proof fn lemma_node_names_extends(a: Seq<EntryView>, b: Seq<EntryView>, id: int)
    requires
        wf_nodes(a),
        extends(a, b),
        0 <= id < a.len(),
    ensures
        node_names(b, id) == node_names(a, id),
    decreases id,
{
    lemma_extends_at(a, b, id);
    if id > 0 {
        lemma_node_names_extends(a, b, a[id].parent.unwrap()@);
    }
}

/// Names that lead to a node lead to it in every arena that extends the
/// arena.
pub proof fn lemma_resolve_extends(
    a: Seq<EntryView>,
    b: Seq<EntryView>,
    names: Seq<Seq<char>>,
    cur: int,
    k: int,
)
    requires
        wf_nodes(a),
        extends(a, b),
        0 <= cur < a.len(),
        0 <= k,
        resolve(a, names, cur, k) is Some,
    ensures
        resolve(b, names, cur, k) == resolve(a, names, cur, k),
        0 <= resolve(a, names, cur, k).unwrap() < a.len(),
    decreases names.len() - k,
{
    if k < names.len() {
        let child = child_named(a, cur, names[k]).unwrap();
        lemma_child_named_from_extends(a, b, cur, names[k], 0);
        lemma_child_named_some(a, a[cur].children, names[k], 0);
        let j = choose|j: int| 0 <= j < a[cur].children.len() && a[cur].children[j] == child;
        assert(cur < a[cur].children[j]@ < a.len());
        lemma_resolve_extends(a, b, names, child@, k + 1);
    }
}

/// The node that an insertion attaches is the child that its name leads to.
proof fn lemma_child_named_attached(nodes: Seq<EntryView>, parent: int, entry: EntryView, from: int)
    requires
        wf_nodes(nodes),
        nodes.len() < usize::MAX,
        0 <= parent < nodes.len(),
        0 <= from <= nodes[parent].children.len(),
        child_named_from(nodes, nodes[parent].children, entry.name, from) is None,
    ensures
        child_named_from(
            attach(nodes, parent, entry),
            attach(nodes, parent, entry)[parent].children,
            entry.name,
            from,
        ) == Some(NodeID(nodes.len() as usize)),
    decreases nodes[parent].children.len() - from,
{
    let after = attach(nodes, parent, entry);
    let children = after[parent].children;
    assert(children == nodes[parent].children.push(NodeID(nodes.len() as usize)));
    if from < nodes[parent].children.len() {
        let child = nodes[parent].children[from];
        assert(children[from] == child);
        assert(parent < child@ < nodes.len());
        assert(after[child@].name == nodes[child@].name);
        lemma_child_named_attached(nodes, parent, entry, from + 1);
    } else {
        assert(children[from] == NodeID(nodes.len() as usize));
        assert(after[nodes.len() as int].name == entry.name);
    }
}

/// A child that is found under a name is a node that hangs below the node
/// that lists it, and carries the name.
pub proof fn lemma_found_child(nodes: Seq<EntryView>, cur: int, name: Seq<char>)
    requires
        wf_nodes(nodes),
        0 <= cur < nodes.len(),
        child_named(nodes, cur, name) is Some,
    ensures
        cur < child_named(nodes, cur, name).unwrap()@ < nodes.len(),
        nodes[child_named(nodes, cur, name).unwrap()@].parent == Some(NodeID(cur as usize)),
        nodes[child_named(nodes, cur, name).unwrap()@].name == name,
{
    let id = child_named(nodes, cur, name).unwrap();
    lemma_child_named_some(nodes, nodes[cur].children, name, 0);
    let j = choose|j: int| 0 <= j < nodes[cur].children.len() && nodes[cur].children[j] == id;
    assert(cur < nodes[cur].children[j]@ < nodes.len());
}

/// The arena after a node was attached under a name that was free.
pub proof fn lemma_attached_child(nodes: Seq<EntryView>, cur: int, entry: EntryView)
    requires
        wf_nodes(nodes),
        nodes.len() < usize::MAX,
        0 <= cur < nodes.len(),
        entry.children.len() == 0,
        child_named(nodes, cur, entry.name) is None,
    ensures
        wf_nodes(attach(nodes, cur, entry)),
        extends(nodes, attach(nodes, cur, entry)),
        child_named(attach(nodes, cur, entry), cur, entry.name) == Some(
            NodeID(nodes.len() as usize),
        ),
{
    lemma_attach_wf(nodes, cur, entry);
    lemma_attach_extends(nodes, cur, entry);
    lemma_child_named_attached(nodes, cur, entry, 0);
}

/// One step of an insertion, from the child at which it goes on.
#[verifier::rlimit(50)]
proof fn lemma_insert_step(
    mid: Seq<EntryView>,
    after: Seq<EntryView>,
    names: Seq<Seq<char>>,
    cur: int,
    next: int,
    k: int,
)
    requires
        wf_nodes(mid),
        wf_nodes(after),
        extends(mid, after),
        0 <= cur < mid.len(),
        0 <= k < names.len(),
        child_named(mid, cur, names[k]) == Some(NodeID(next as usize)),
        0 <= next < mid.len(),
        next <= usize::MAX,
        resolve(after, names, next, k + 1) is Some,
        0 <= resolve(after, names, next, k + 1).unwrap() < after.len(),
        node_names(after, resolve(after, names, next, k + 1).unwrap()) == node_names(after, next)
            + names.skip(k + 1),
    ensures
        resolve(after, names, cur, k) == resolve(after, names, next, k + 1),
        node_names(after, resolve(after, names, cur, k).unwrap()) == node_names(after, cur)
            + names.skip(k),
{
    let name = names[k];
    lemma_found_child(mid, cur, name);
    lemma_child_named_from_extends(mid, after, cur, name, 0);
    assert(child_named(after, cur, name) == Some(NodeID(next as usize)));
    lemma_extends_at(mid, after, next);
    assert(node_names(after, next) == node_names(after, cur).push(name));
    assert(names.skip(k) == seq![name] + names.skip(k + 1));
    assert(node_names(after, cur).push(name) + names.skip(k + 1) == node_names(after, cur)
        + names.skip(k));
}

/// What an insertion does: the arena stays well formed, keeps what it had,
/// and the inserted names lead from the node at which the insertion began
/// to one node, down to which the names are those down to that node
/// followed by the inserted names.
#[verifier::rlimit(50)]
pub proof fn lemma_insert_from(
    nodes: Seq<EntryView>,
    cur: int,
    parts: Seq<PathPart>,
    k: int,
    source: EntrySource,
)
    requires
        wf_nodes(nodes),
        0 <= cur < nodes.len(),
        0 <= k <= parts.len(),
        insert_from(nodes, cur, parts, k, source).len() <= usize::MAX,
    ensures
        wf_nodes(insert_from(nodes, cur, parts, k, source)),
        extends(nodes, insert_from(nodes, cur, parts, k, source)),
        resolve(insert_from(nodes, cur, parts, k, source), names_of(parts), cur, k) is Some,
        0 <= resolve(insert_from(nodes, cur, parts, k, source), names_of(parts), cur, k).unwrap()
            < insert_from(nodes, cur, parts, k, source).len(),
        node_names(
            insert_from(nodes, cur, parts, k, source),
            resolve(insert_from(nodes, cur, parts, k, source), names_of(parts), cur, k).unwrap(),
        ) == node_names(insert_from(nodes, cur, parts, k, source), cur) + names_of(parts).skip(k),
    decreases parts.len() - k,
{
    let after = insert_from(nodes, cur, parts, k, source);
    let names = names_of(parts);
    if k >= parts.len() {
        assert(names.skip(k) == Seq::<Seq<char>>::empty());
        assert(node_names(after, cur) + Seq::<Seq<char>>::empty() == node_names(after, cur));
        lemma_extends_len(nodes, nodes);
    } else {
        let name = parts[k].name;
        assert(names[k] == name);
        let found = child_named(nodes, cur, name);
        if found is Some {
            let next = found.unwrap()@;
            lemma_found_child(nodes, cur, name);
            assert(after == insert_from(nodes, next, parts, k + 1, source));
            lemma_insert_from(nodes, next, parts, k + 1, source);
            lemma_insert_step(nodes, after, names, cur, next, k);
        } else {
            let entry = new_entry(parts[k], source);
            let mid = attach(nodes, cur, entry);
            let next = nodes.len() as int;
            assert(after == insert_from(mid, next, parts, k + 1, source));
            assert(mid.len() == nodes.len() + 1);
            assert(children_in_range(mid)) by {
                assert forall|i: int, j: int|
                    0 <= i < mid.len() && 0 <= j < mid[i].children.len() implies 0 <= (
                #[trigger] mid[i].children[j])@ < mid.len() by {
                    if i == cur && j == nodes[cur].children.len() {
                    } else if i < nodes.len() {
                        assert(mid[i].children[j] == nodes[i].children[j]);
                    }
                }
            }
            lemma_insert_len(mid, next, parts, k + 1, source);
            lemma_attached_child(nodes, cur, entry);
            lemma_insert_from(mid, next, parts, k + 1, source);
            lemma_extends_transitive(nodes, mid, after);
            lemma_insert_step(mid, after, names, cur, next, k);
        }
    }
}

/// The names of the components of a path are its components.
pub proof fn lemma_names_of_path_parts(path: Seq<char>)
    ensures
        names_of(path_parts(path)) == components(path),
{
    assert(names_of(path_parts(path)) =~= components(path));
}

/// Every stage of the construction lists only nodes that it has.
pub proof fn lemma_built_in_range(records: Seq<Option<StoredEntry>>, n: int)
    ensures
        1 <= built(records, n).len(),
        children_in_range(built(records, n)),
    decreases n,
{
    if n <= 0 {
        assert(built(records, n) == seq![root_view()]);
        assert(seq![root_view()][0].children.len() == 0);
    } else {
        lemma_built_in_range(records, n - 1);
        let stored = records[n - 1].unwrap();
        lemma_insert_len(
            built(records, n - 1),
            0,
            path_parts(decoded_filename(stored.name_raw@)),
            0,
            stored.source((n - 1) as usize),
        );
    }
}

/// Every stage of the construction of an index is a well-formed arena, and
/// a later stage extends an earlier one.
pub proof fn lemma_built_stages(records: Seq<Option<StoredEntry>>, n: int, m: int)
    requires
        0 <= n <= m <= records.len(),
        built(records, m).len() <= usize::MAX,
    ensures
        wf_nodes(built(records, n)),
        wf_nodes(built(records, m)),
        extends(built(records, n), built(records, m)),
    decreases m,
{
    lemma_extends_len(built(records, m), built(records, m));
    if m == 0 {
        assert(built(records, 0) == seq![root_view()]);
        lemma_root_alone_wf();
    } else {
        let before = built(records, m - 1);
        let stored = records[m - 1].unwrap();
        let parts = path_parts(decoded_filename(stored.name_raw@));
        let source = stored.source((m - 1) as usize);
        lemma_built_in_range(records, m - 1);
        lemma_insert_len(before, 0, parts, 0, source);
        lemma_built_stages(records, if n < m {
            n
        } else {
            m - 1
        }, m - 1);
        lemma_insert_from(before, 0, parts, 0, source);
        if n < m {
            lemma_extends_transitive(built(records, n), before, built(records, m));
        }
    }
}

proof fn lemma_root_alone_wf()
    ensures
        wf_nodes(seq![root_view()]),
{
    let nodes = seq![root_view()];
    assert(nodes[0] == root_view());
    assert(nodes[0].children.len() == 0);
}

/// Two nodes down to which the names are the same are one node.
pub proof fn lemma_node_names_unique(nodes: Seq<EntryView>, a: int, b: int)
    requires
        wf_nodes(nodes),
        0 <= a < nodes.len(),
        0 <= b < nodes.len(),
        node_names(nodes, a) == node_names(nodes, b),
    ensures
        a == b,
    decreases a,
{
    if a == 0 || b == 0 {
        if a != b {
            let other = if a == 0 {
                b
            } else {
                a
            };
            assert(node_names(nodes, other).len() > 0);
            assert(node_names(nodes, 0).len() == 0);
        }
    } else {
        let pa = nodes[a].parent.unwrap()@;
        let pb = nodes[b].parent.unwrap()@;
        let na = node_names(nodes, pa).push(nodes[a].name);
        let nb = node_names(nodes, pb).push(nodes[b].name);
        assert(na == nb);
        assert(na.drop_last() == node_names(nodes, pa));
        assert(nb.drop_last() == node_names(nodes, pb));
        assert(na.last() == nodes[a].name);
        assert(nb.last() == nodes[b].name);
        lemma_node_names_unique(nodes, pa, pb);
        assert(nodes[pa].children.contains(NodeID(a as usize)));
        assert(nodes[pa].children.contains(NodeID(b as usize)));
        let ja = choose|j: int|
            0 <= j < nodes[pa].children.len() && nodes[pa].children[j] == NodeID(a as usize);
        let jb = choose|j: int|
            0 <= j < nodes[pa].children.len() && nodes[pa].children[j] == NodeID(b as usize);
        if ja < jb {
            assert(nodes[nodes[pa].children[ja]@].name != nodes[nodes[pa].children[jb]@].name);
        } else if jb < ja {
            assert(nodes[nodes[pa].children[jb]@].name != nodes[nodes[pa].children[ja]@].name);
        }
    }
}

proof fn lemma_extended_add(a: Seq<Seq<char>>, b: Seq<Seq<char>>, name: Seq<char>)
    ensures
        extended(a + b, name) == a + extended(b, name),
{
    if is_valid_name(name) {
        assert((a + b).push(name) == a + b.push(name));
    }
}

/// The relative path from a node is the node's own part followed by the
/// relative path from the child below which the visited node lies.
proof fn lemma_relative_path_through_child(nodes: Seq<EntryView>, top: int, child: int, x: int)
    requires
        wf_nodes(nodes),
        0 <= top < child < nodes.len(),
        nodes[child].parent == Some(NodeID(top as usize)),
        under(nodes, child, x),
    ensures
        relative_path(nodes, top, x) == relative_path(nodes, top, top) + relative_path(
            nodes,
            child,
            x,
        ),
    decreases x,
{
    let own = relative_path(nodes, top, top);
    if x == child {
        lemma_extended_add(own, Seq::empty(), nodes[child].name);
        assert(own + Seq::<Seq<char>>::empty() == own);
    } else {
        lemma_under_order(nodes, child, x);
        let parent = nodes[x].parent.unwrap()@;
        lemma_relative_path_through_child(nodes, top, child, parent);
        lemma_extended_add(own, relative_path(nodes, child, parent), nodes[x].name);
    }
}

/// Every visit of the walk of a subtree carries the path with which the
/// subtree was entered, followed by the relative path from the top of the
/// subtree to the visited node.
pub proof fn lemma_subtree_walk_paths(
    nodes: Seq<EntryView>,
    id: int,
    path: Seq<Seq<char>>,
    i: int,
)
    requires
        wf_nodes(nodes),
        0 <= id < nodes.len(),
        0 <= i < subtree_walk(nodes, id, path).len(),
    ensures
        under(nodes, id, subtree_walk(nodes, id, path)[i].id@),
        subtree_walk(nodes, id, path)[i].path == path + relative_path(
            nodes,
            id,
            subtree_walk(nodes, id, path)[i].id@,
        ),
    decreases nodes.len() - id, 1int, 0int,
{
    let below = extended(path, nodes[id].name);
    lemma_extended_add(path, Seq::empty(), nodes[id].name);
    assert(path + Seq::<Seq<char>>::empty() == path);
    if i > 0 {
        lemma_children_walk_paths(nodes, id, nodes[id].children.len() as int, path, i - 1);
    }
}

/// Every visit of the walk of the first `k` children's subtrees carries the
/// path with which the parent was entered, followed by the relative path
/// from the parent to the visited node.
pub proof fn lemma_children_walk_paths(
    nodes: Seq<EntryView>,
    id: int,
    k: int,
    path: Seq<Seq<char>>,
    i: int,
)
    requires
        wf_nodes(nodes),
        0 <= id < nodes.len(),
        0 <= k <= nodes[id].children.len(),
        0 <= i < children_walk(nodes, id, k, extended(path, nodes[id].name)).len(),
    ensures
        under(nodes, id, children_walk(nodes, id, k, extended(path, nodes[id].name))[i].id@),
        children_walk(nodes, id, k, extended(path, nodes[id].name))[i].id@ != id,
        children_walk(nodes, id, k, extended(path, nodes[id].name))[i].path == path
            + relative_path(
            nodes,
            id,
            children_walk(nodes, id, k, extended(path, nodes[id].name))[i].id@,
        ),
    decreases nodes.len() - id, 0int, k,
{
    let below = extended(path, nodes[id].name);
    if k > 0 {
        let child = nodes[id].children[k - 1]@;
        assert(id < child < nodes.len());
        assert(nodes[child].parent == Some(NodeID(id as usize)));
        let first = subtree_walk(nodes, child, below);
        if i < first.len() {
            lemma_subtree_walk_paths(nodes, child, below, i);
            let x = first[i].id@;
            lemma_under_order(nodes, child, x);
            lemma_relative_path_through_child(nodes, id, child, x);
            lemma_extended_add(path, Seq::empty(), nodes[id].name);
            assert(path + Seq::<Seq<char>>::empty() == path);
            assert(below == path + relative_path(nodes, id, id));
            assert(below + relative_path(nodes, child, x) == path + (relative_path(nodes, id, id)
                + relative_path(nodes, child, x)));
            assert(under(nodes, id, x)) by {
                lemma_under_child(nodes, id, child, x);
            }
        } else {
            lemma_children_walk_paths(nodes, id, k - 1, path, i - first.len());
        }
    }
}

/// From the root, the relative path to a node is made of the names down to
/// the node that count as path components.
pub proof fn lemma_relative_path_from_root(nodes: Seq<EntryView>, x: int)
    requires
        wf_nodes(nodes),
        0 <= x < nodes.len(),
    ensures
        relative_path(nodes, 0, x) == valid_names(node_names(nodes, x)),
    decreases x,
{
    if x == 0 {
        assert(!is_valid_name(nodes[0].name));
    } else {
        let parent = nodes[x].parent.unwrap()@;
        lemma_relative_path_from_root(nodes, parent);
        let names = node_names(nodes, x);
        assert(names.drop_last() == node_names(nodes, parent));
        assert(names.last() == nodes[x].name);
    }
}

/// Every record of a container has exactly one node in the index built from
/// the container: the components of its decoded path lead from the root to
/// that node, no other node has these names above it, and the walk from the
/// root visits the node once, with the record's path without the
/// components that are no path components.
pub proof fn lemma_record_has_one_node(records: Seq<Option<StoredEntry>>, i: int) -> (id: int)
    requires
        forall|j: int| 0 <= j < records.len() ==> (#[trigger] records[j]) is Some,
        0 <= i < records.len(),
        built(records, records.len() as int).len() <= usize::MAX,
    ensures
        wf_nodes(built(records, records.len() as int)),
        0 <= id < built(records, records.len() as int).len(),
        resolve(
            built(records, records.len() as int),
            components(decoded_filename(records[i].unwrap().name_raw@)),
            0,
            0,
        ) == Some(id),
        node_names(built(records, records.len() as int), id) == components(
            decoded_filename(records[i].unwrap().name_raw@),
        ),
        forall|other: int|
            0 <= other < built(records, records.len() as int).len() && #[trigger] node_names(
                built(records, records.len() as int),
                other,
            ) == components(decoded_filename(records[i].unwrap().name_raw@)) ==> other == id,
        visits_of(walk(built(records, records.len() as int), seq![NodeID(0)]), id) == 1,
        forall|v: int|
            0 <= v < walk(built(records, records.len() as int), seq![NodeID(0)]).len() && (
            #[trigger] walk(built(records, records.len() as int), seq![NodeID(0)])[v]).id@ == id
                ==> walk(built(records, records.len() as int), seq![NodeID(0)])[v].path
                == valid_names(components(decoded_filename(records[i].unwrap().name_raw@))),
{
    let n = records.len() as int;
    let nodes = built(records, n);
    let stored = records[i].unwrap();
    let path = decoded_filename(stored.name_raw@);
    let names = components(path);
    let parts = path_parts(path);
    let before = built(records, i);
    let stage = built(records, i + 1);
    lemma_built_stages(records, i + 1, n);
    lemma_built_stages(records, i, i + 1);
    lemma_names_of_path_parts(path);
    lemma_insert_from(before, 0, parts, 0, stored.source(i as usize));
    assert(names.skip(0) == names);
    assert(node_names(stage, 0) + names == names);
    let id = resolve(stage, names, 0, 0).unwrap();
    lemma_resolve_extends(stage, nodes, names, 0, 0);
    lemma_node_names_extends(stage, nodes, id);
    assert forall|other: int|
        0 <= other < nodes.len() && #[trigger] node_names(nodes, other) == names implies other
        == id by {
        lemma_node_names_unique(nodes, other, id);
    }
    lemma_walk_from_root_visits_each_node_once(nodes, id);
    let visits = walk(nodes, seq![NodeID(0)]);
    lemma_walk_of_one(nodes, NodeID(0));
    assert forall|v: int| 0 <= v < visits.len() && (#[trigger] visits[v]).id@ == id implies visits[v].path
        == valid_names(names) by {
        lemma_subtree_walk_paths(nodes, 0, Seq::empty(), v);
        lemma_relative_path_from_root(nodes, id);
        assert(Seq::<Seq<char>>::empty() + relative_path(nodes, 0, id) == relative_path(
            nodes,
            0,
            id,
        ));
    }
    id
}

/// What lies below a node lies below everything that the node lies below.
pub proof fn lemma_under_transitive(nodes: Seq<EntryView>, a: int, b: int, c: int)
    requires
        under(nodes, a, b),
        under(nodes, b, c),
    ensures
        under(nodes, a, c),
    decreases c,
{
    if c != b && c != a {
        lemma_under_order(nodes, b, c);
        lemma_under_transitive(nodes, a, b, nodes[c].parent.unwrap()@);
    }
}

/// The walk of a subtree visits a node before every node below it: a
/// directory comes before its descendants.
pub proof fn lemma_subtree_walk_order(
    nodes: Seq<EntryView>,
    id: int,
    path: Seq<Seq<char>>,
    i: int,
    j: int,
)
    requires
        wf_nodes(nodes),
        0 <= id < nodes.len(),
        0 <= i < subtree_walk(nodes, id, path).len(),
        0 <= j < subtree_walk(nodes, id, path).len(),
        subtree_walk(nodes, id, path)[i].id != subtree_walk(nodes, id, path)[j].id,
        under(
            nodes,
            subtree_walk(nodes, id, path)[i].id@,
            subtree_walk(nodes, id, path)[j].id@,
        ),
    ensures
        i < j,
    decreases nodes.len() - id, 1int, 0int,
{
    let below = extended(path, nodes[id].name);
    let n = nodes[id].children.len() as int;
    let visits = subtree_walk(nodes, id, path);
    if i > 0 {
        lemma_children_walk_paths(nodes, id, n, path, i - 1);
        let a = visits[i].id@;
        if j == 0 {
            // The top of the subtree lies below none of its descendants.
            lemma_under_order(nodes, id, a);
            lemma_under_order(nodes, a, id);
        } else {
            lemma_children_walk_order(nodes, id, n, below, i - 1, j - 1);
        }
    }
}

/// The walk of the first `k` children's subtrees visits a node before
/// every node below it.
pub proof fn lemma_children_walk_order(
    nodes: Seq<EntryView>,
    id: int,
    k: int,
    path: Seq<Seq<char>>,
    i: int,
    j: int,
)
    requires
        wf_nodes(nodes),
        0 <= id < nodes.len(),
        0 <= k <= nodes[id].children.len(),
        0 <= i < children_walk(nodes, id, k, path).len(),
        0 <= j < children_walk(nodes, id, k, path).len(),
        children_walk(nodes, id, k, path)[i].id != children_walk(nodes, id, k, path)[j].id,
        under(
            nodes,
            children_walk(nodes, id, k, path)[i].id@,
            children_walk(nodes, id, k, path)[j].id@,
        ),
    ensures
        i < j,
    decreases nodes.len() - id, 0int, k,
{
    if k > 0 {
        let child = nodes[id].children[k - 1]@;
        assert(id < child < nodes.len());
        let first = subtree_walk(nodes, child, path);
        let rest = children_walk(nodes, id, k - 1, path);
        let visits = children_walk(nodes, id, k, path);
        if i < first.len() && j < first.len() {
            lemma_subtree_walk_order(nodes, child, path, i, j);
        } else if i >= first.len() && j >= first.len() {
            lemma_children_walk_order(nodes, id, k - 1, path, i - first.len(), j - first.len());
        } else if j < first.len() {
            // A node of an earlier child's subtree has nothing of the last
            // child's subtree below it.
            let a = visits[i].id@;
            let x = visits[j].id@;
            lemma_subtree_walk_paths(nodes, child, path, j);
            lemma_visited(rest, i - first.len());
            lemma_children_walk_visits(nodes, id, k - 1, path, a);
            assert(under_children(nodes, id, k - 1, a));
            let m = choose|m: int|
                0 <= m < k - 1 && #[trigger] under(nodes, nodes[id].children[m]@, a);
            lemma_under_transitive(nodes, nodes[id].children[m]@, a, x);
            lemma_under_one_child(nodes, id, m, k - 1, x);
        }
    }
}

/// The walk from the root visits every directory before everything below it.
pub proof fn lemma_directory_before_descendants(nodes: Seq<EntryView>, i: int, j: int)
    requires
        wf_nodes(nodes),
        0 <= i < walk(nodes, seq![NodeID(0)]).len(),
        0 <= j < walk(nodes, seq![NodeID(0)]).len(),
        walk(nodes, seq![NodeID(0)])[i].id != walk(nodes, seq![NodeID(0)])[j].id,
        under(
            nodes,
            walk(nodes, seq![NodeID(0)])[i].id@,
            walk(nodes, seq![NodeID(0)])[j].id@,
        ),
    ensures
        i < j,
{
    lemma_walk_of_one(nodes, NodeID(0));
    lemma_subtree_walk_order(nodes, 0, Seq::empty(), i, j);
}

} // verus!
