//! Containers of plain files: where every record is a file and no record's
//! path leads through another's, the index has one file for each record.

use crate::archive::laws::{
    lemma_visited, lemma_walk_from_root_visits_each_node_once, visits_of,
};
use crate::archive::model::{
    attach, child_named, insert_from, new_entry, wf_nodes, EntrySource,
};
use crate::archive::path::{accumulated, components, path_parts, PathPart, SEPARATOR};
use crate::archive::resolve::{
    extends, lemma_attached_child, lemma_built_stages, lemma_extends_at, lemma_extends_len,
    lemma_found_child, lemma_insert_from, lemma_insert_len, lemma_names_of_path_parts,
    lemma_node_names_extends, lemma_node_names_unique, names_of, node_names, resolve,
};
use crate::archive::text::decoded_filename;
use crate::archive::walk::{walk, Visit};
use crate::archive::{built, root_view, EntryView, NodeID, StoredEntry};
use vstd::prelude::*;

verus! {

/// What an insertion from a node with the names `base` above it has made
/// of an arena: the nodes that it created lie on the inserted path, each
/// with the kind that its component gives it, and only nodes on that path
/// got a child.
#[verifier::opaque]
pub open spec fn shaped(
    nodes: Seq<EntryView>,
    after: Seq<EntryView>,
    base: Seq<Seq<char>>,
    parts: Seq<PathPart>,
    k: int,
    source: EntrySource,
) -> bool {
    &&& forall|x: int|
        nodes.len() <= x < after.len() ==> created_on_path(
            #[trigger] after[x],
            node_names(after, x),
            base,
            parts,
            k,
            source,
        )
    &&& forall|x: int|
        0 <= x < nodes.len() && (#[trigger] after[x]).children.len() > nodes[x].children.len()
            ==> lies_on_path(node_names(nodes, x), base, parts, k)
}

/// The shape of an insertion, seen from one component earlier.
proof fn lemma_shaped_one_up(
    nodes: Seq<EntryView>,
    after: Seq<EntryView>,
    base: Seq<Seq<char>>,
    parts: Seq<PathPart>,
    k: int,
    source: EntrySource,
)
    requires
        0 <= k < parts.len(),
        shaped(nodes, after, base.push(parts[k].name), parts, k + 1, source),
    ensures
        shaped(nodes, after, base, parts, k, source),
{
    reveal(shaped);
    assert forall|x: int| nodes.len() <= x < after.len() implies created_on_path(
        #[trigger] after[x],
        node_names(after, x),
        base,
        parts,
        k,
        source,
    ) by {
        lemma_created_one_up(after[x], node_names(after, x), base, parts, k, source);
    }
    assert forall|x: int|
        0 <= x < nodes.len() && (#[trigger] after[x]).children.len() > nodes[x].children.len() implies lies_on_path(
        node_names(nodes, x),
        base,
        parts,
        k,
    ) by {
        lemma_lies_one_up(node_names(nodes, x), base, parts, k);
    }
}

/// The shape of an insertion that began by attaching a node.
proof fn lemma_shaped_attached(
    nodes: Seq<EntryView>,
    mid: Seq<EntryView>,
    after: Seq<EntryView>,
    cur: int,
    base: Seq<Seq<char>>,
    parts: Seq<PathPart>,
    k: int,
    source: EntrySource,
)
    requires
        0 <= k < parts.len(),
        0 <= cur < nodes.len(),
        mid == attach(nodes, cur, new_entry(parts[k], source)),
        mid.len() == nodes.len() + 1,
        mid.len() <= after.len(),
        base == node_names(nodes, cur),
        node_names(mid, nodes.len() as int) == base.push(parts[k].name),
        node_names(after, nodes.len() as int) == base.push(parts[k].name),
        after[nodes.len() as int].props == new_entry(parts[k], source).props,
        forall|x: int| 0 <= x < nodes.len() ==> #[trigger] node_names(mid, x) == node_names(nodes, x),
        shaped(mid, after, base.push(parts[k].name), parts, k + 1, source),
    ensures
        shaped(nodes, after, base, parts, k, source),
{
    reveal(shaped);
    let names = names_of(parts);
    let name = parts[k].name;
    let next = nodes.len() as int;
    assert(names[k] == name);
    assert(mid[next].children.len() == 0);
    assert forall|x: int| nodes.len() <= x < after.len() implies created_on_path(
        #[trigger] after[x],
        node_names(after, x),
        base,
        parts,
        k,
        source,
    ) by {
        if x == next {
            if after[next].children.len() > 0 {
                assert(lies_on_path(node_names(mid, next), base.push(name), parts, k + 1));
            }
            assert(names.subrange(k, k + 1) == seq![name]);
            assert(base.push(name) == base + seq![name]);
        } else {
            lemma_created_one_up(after[x], node_names(after, x), base, parts, k, source);
        }
    }
    assert forall|x: int|
        0 <= x < nodes.len() && (#[trigger] after[x]).children.len() > nodes[x].children.len() implies lies_on_path(
        node_names(nodes, x),
        base,
        parts,
        k,
    ) by {
        if x == cur {
            assert(names.subrange(k, k) == Seq::<Seq<char>>::empty());
            assert(base + Seq::<Seq<char>>::empty() == base);
        } else {
            assert(mid[x] == nodes[x]);
            assert(node_names(mid, x) == node_names(nodes, x));
            lemma_lies_one_up(node_names(nodes, x), base, parts, k);
        }
    }
}

/// The nodes that an insertion creates lie on the inserted path, each with
/// the kind that its component gives it, and only the nodes on that path
/// get a child.
pub proof fn lemma_insert_shape(
    nodes: Seq<EntryView>,
    cur: int,
    parts: Seq<PathPart>,
    k: int,
    source: EntrySource,
)
    requires
        wf_nodes(nodes),
        0 <= cur < nodes.len(),
        0 <= k <= parts.len(),
        insert_from(nodes, cur, parts, k, source).len() <= usize::MAX,
    ensures
        shaped(
            nodes,
            insert_from(nodes, cur, parts, k, source),
            node_names(nodes, cur),
            parts,
            k,
            source,
        ),
    decreases parts.len() - k,
{
    let after = insert_from(nodes, cur, parts, k, source);
    let base = node_names(nodes, cur);
    if k < parts.len() {
        let name = parts[k].name;
        let found = child_named(nodes, cur, name);
        if found is Some {
            let next = found.unwrap()@;
            lemma_found_child(nodes, cur, name);
            assert(node_names(nodes, next) == base.push(name));
            lemma_insert_shape(nodes, next, parts, k + 1, source);
            lemma_shaped_one_up(nodes, after, base, parts, k, source);
        } else {
            let entry = new_entry(parts[k], source);
            let mid = attach(nodes, cur, entry);
            let next = nodes.len() as int;
            assert(mid.len() == nodes.len() + 1);
            lemma_insert_len_of_attached(nodes, cur, parts, k, source);
            lemma_attached_child(nodes, cur, entry);
            lemma_found_child(mid, cur, name);
            lemma_node_names_extends(nodes, mid, cur);
            assert(node_names(mid, next) == base.push(name));
            lemma_insert_from(mid, next, parts, k + 1, source);
            lemma_insert_shape(mid, next, parts, k + 1, source);
            lemma_node_names_extends(mid, after, next);
            lemma_extends_at(mid, after, next);
            lemma_extends_len(mid, after);
            assert forall|x: int| 0 <= x < nodes.len() implies #[trigger] node_names(mid, x)
                == node_names(nodes, x) by {
                lemma_node_names_extends(nodes, mid, x);
            }
            assert(mid[next].props == entry.props);
            lemma_shaped_attached(nodes, mid, after, cur, base, parts, k, source);
        }
    } else {
        reveal(shaped);
    }
}

/// Whether a node with the names `own` above it lies `d` components down
/// the path from the node with the names `base` above it, for some `d`
/// from 0 up to but not including the number of components that are left.
pub open spec fn lies_on_path(
    own: Seq<Seq<char>>,
    base: Seq<Seq<char>>,
    parts: Seq<PathPart>,
    k: int,
) -> bool {
    let d = own.len() - base.len();
    &&& 0 <= d < parts.len() - k
    &&& own == base + names_of(parts).subrange(k, k + d)
}

/// Whether a node that an insertion created stands for one of the
/// components that were left: it lies on the path, has the kind of its
/// component, and has a child only where a component follows.
pub open spec fn created_on_path(
    node: EntryView,
    own: Seq<Seq<char>>,
    base: Seq<Seq<char>>,
    parts: Seq<PathPart>,
    k: int,
    source: EntrySource,
) -> bool {
    let d = own.len() - base.len();
    &&& 1 <= d <= parts.len() - k
    &&& own == base + names_of(parts).subrange(k, k + d)
    &&& node.props == new_entry(parts[k + d - 1], source).props
    &&& (node.children.len() > 0 ==> k + d < parts.len())
}

proof fn lemma_created_one_up(
    node: EntryView,
    own: Seq<Seq<char>>,
    base: Seq<Seq<char>>,
    parts: Seq<PathPart>,
    k: int,
    source: EntrySource,
)
    requires
        0 <= k < parts.len(),
        created_on_path(node, own, base.push(parts[k].name), parts, k + 1, source),
    ensures
        created_on_path(node, own, base, parts, k, source),
{
    let names = names_of(parts);
    let d = own.len() - base.len() - 1;
    assert(names[k] == parts[k].name);
    assert(base.push(parts[k].name) + names.subrange(k + 1, k + 1 + d) == base + names.subrange(
        k,
        k + 1 + d,
    ));
}

proof fn lemma_lies_one_up(own: Seq<Seq<char>>, base: Seq<Seq<char>>, parts: Seq<PathPart>, k: int)
    requires
        0 <= k < parts.len(),
        lies_on_path(own, base.push(parts[k].name), parts, k + 1),
    ensures
        lies_on_path(own, base, parts, k),
{
    let names = names_of(parts);
    let d = own.len() - base.len() - 1;
    assert(names[k] == parts[k].name);
    assert(base.push(parts[k].name) + names.subrange(k + 1, k + 1 + d) == base + names.subrange(
        k,
        k + 1 + d,
    ));
}

proof fn lemma_insert_len_of_attached(
    nodes: Seq<EntryView>,
    cur: int,
    parts: Seq<PathPart>,
    k: int,
    source: EntrySource,
)
    requires
        wf_nodes(nodes),
        0 <= cur < nodes.len(),
        0 <= k < parts.len(),
        child_named(nodes, cur, parts[k].name) is None,
    ensures
        nodes.len() < insert_from(nodes, cur, parts, k, source).len(),
{
    let mid = attach(nodes, cur, new_entry(parts[k], source));
    assert(mid.len() == nodes.len() + 1);
    assert(crate::archive::resolve::children_in_range(mid)) by {
        assert forall|i: int, j: int|
            0 <= i < mid.len() && 0 <= j < mid[i].children.len() implies 0 <= (
        #[trigger] mid[i].children[j])@ < mid.len() by {
            if i == cur && j == nodes[cur].children.len() {
            } else if i < nodes.len() {
                assert(mid[i].children[j] == nodes[i].children[j]);
            }
        }
    }
    lemma_insert_len(mid, nodes.len() as int, parts, k + 1, source);
}

/// A path has at most as many components as characters.
pub proof fn lemma_components_len(s: Seq<char>)
    ensures
        components(s).len() <= s.len(),
    decreases s.len(),
{
    if s.len() > 0 {
        crate::archive::path::lemma_first_separator_bounds(s);
        let f = crate::archive::path::first_separator(s);
        if f < s.len() {
            lemma_components_len(s.skip(f + 1));
        }
    }
}

/// The accumulated path of components behind a first one begins with the
/// first one and a separator.
proof fn lemma_accumulated_shift(first: Seq<char>, rest: Seq<Seq<char>>, k: int)
    requires
        1 <= k <= rest.len(),
    ensures
        accumulated(seq![first] + rest, k) == first + seq![SEPARATOR] + accumulated(rest, k - 1),
    decreases k,
{
    let all = seq![first] + rest;
    assert(all[0] == first);
    assert(all[k] == rest[k - 1]);
    if k == 1 {
        assert(accumulated(all, 0) == first);
        assert(accumulated(rest, 0) == rest[0]);
    } else {
        lemma_accumulated_shift(first, rest, k - 1);
        assert((first + seq![SEPARATOR] + accumulated(rest, k - 2)) + seq![SEPARATOR] + rest[k - 1]
            == first + seq![SEPARATOR] + (accumulated(rest, k - 2) + seq![SEPARATOR] + rest[k
            - 1]));
    }
}

/// The path accumulated up to a component is shorter than the whole path by
/// at least the number of components that follow.
pub proof fn lemma_accumulated_len(s: Seq<char>, k: int)
    requires
        0 <= k < components(s).len(),
    ensures
        accumulated(components(s), k).len() + (components(s).len() - 1 - k) <= s.len(),
    decreases s.len(),
{
    crate::archive::path::lemma_first_separator_bounds(s);
    let f = crate::archive::path::first_separator(s);
    if f < s.len() {
        let first = s.take(f);
        let tail = s.skip(f + 1);
        let rest = components(tail);
        assert(components(s) == seq![first] + rest);
        lemma_components_len(tail);
        if k >= 1 {
            lemma_accumulated_shift(first, rest, k);
            lemma_accumulated_len(tail, k - 1);
        } else {
            assert(accumulated(components(s), 0) == first);
        }
    }
}

/// Only in its last component can a path end.
pub proof fn lemma_terminal_is_last(path: Seq<char>, k: int)
    requires
        0 <= k < path_parts(path).len(),
        path_parts(path)[k].terminal,
    ensures
        k == path_parts(path).len() - 1,
{
    lemma_accumulated_len(path, k);
}

/// The components of the decoded path of a record.
pub open spec fn record_names(records: Seq<Option<StoredEntry>>, j: int) -> Seq<Seq<char>> {
    components(decoded_filename(records[j].unwrap().name_raw@))
}

/// Whether a path leads through another: its components are the first
/// components of the other, or all of them.
pub open spec fn is_prefix(a: Seq<Seq<char>>, b: Seq<Seq<char>>) -> bool {
    a.len() <= b.len() && b.subrange(0, a.len() as int) == a
}

/// Whether every record of a container is a file, and no record's path
/// leads through the path of another: every record could be read, its
/// decoded path has components and ends in the last of them, and of two
/// records neither has the other's path at the beginning of its own.
pub open spec fn plain_files(records: Seq<Option<StoredEntry>>) -> bool {
    &&& forall|j: int| 0 <= j < records.len() ==> (#[trigger] records[j]) is Some
    &&& forall|j: int|
        0 <= j < records.len() ==> (#[trigger] record_names(records, j)).len() > 0 && path_parts(
            decoded_filename(records[j].unwrap().name_raw@),
        ).last().terminal
    &&& forall|i: int, j: int|
        0 <= i < records.len() && 0 <= j < records.len() && i != j ==> !is_prefix(
            #[trigger] record_names(records, i),
            #[trigger] record_names(records, j),
        )
}

/// Whether names lead along the path of one of the first `n` records.
pub open spec fn covered(records: Seq<Option<StoredEntry>>, n: int, names: Seq<Seq<char>>) -> bool {
    exists|j: int| 0 <= j < n && is_prefix(names, #[trigger] record_names(records, j))
}

/// Whether names are the path of one of the first `n` records.
pub open spec fn is_record(records: Seq<Option<StoredEntry>>, n: int, names: Seq<Seq<char>>) -> bool {
    exists|j: int| 0 <= j < n && names == #[trigger] record_names(records, j)
}

/// How many of the first `n` nodes are files.
pub open spec fn files_among(nodes: Seq<EntryView>, n: int) -> nat
    decreases n,
{
    if n <= 0 {
        0
    } else {
        files_among(nodes, n - 1) + if nodes[n - 1].props is File {
            1nat
        } else {
            0nat
        }
    }
}

/// What holds of the index of the first `n` records of a container of plain
/// files: every node lies on the path of a record, exactly the ends of
/// these paths are files, a file has no children, and there are `n` files.
pub open spec fn stage_of_plain_files(
    records: Seq<Option<StoredEntry>>,
    n: int,
    nodes: Seq<EntryView>,
) -> bool {
    &&& forall|x: int| 1 <= x < nodes.len() ==> covered(records, n, #[trigger] node_names(nodes, x))
    &&& forall|x: int|
        0 <= x < nodes.len() && (#[trigger] nodes[x]).props is File ==> is_record(
            records,
            n,
            node_names(nodes, x),
        ) && nodes[x].children.len() == 0
    &&& files_among(nodes, nodes.len() as int) == n
}

proof fn lemma_files_among_extends(a: Seq<EntryView>, b: Seq<EntryView>, n: int)
    requires
        extends(a, b),
        0 <= n <= a.len(),
    ensures
        files_among(b, n) == files_among(a, n),
    decreases n,
{
    if n > 0 {
        lemma_files_among_extends(a, b, n - 1);
        lemma_extends_at(a, b, n - 1);
    }
}

/// Where one node from `lo` on is a file, the files up to `hi` are one more
/// than the files up to `lo` once `hi` has passed that node.
proof fn lemma_files_among_one(nodes: Seq<EntryView>, lo: int, hi: int, id: int)
    requires
        0 <= lo <= hi <= nodes.len(),
        lo <= id < nodes.len(),
        nodes[id].props is File,
        forall|x: int| lo <= x < nodes.len() && (#[trigger] nodes[x]).props is File ==> x == id,
    ensures
        files_among(nodes, hi) == files_among(nodes, lo) + if id < hi {
            1nat
        } else {
            0nat
        },
    decreases hi - lo,
{
    if hi > lo {
        lemma_files_among_one(nodes, lo, hi - 1, id);
        if nodes[hi - 1].props is File {
            assert(hi - 1 == id);
        }
    }
}

/// Indexing one more record of a container of plain files adds one file.
#[verifier::rlimit(50)]
pub proof fn lemma_plain_files_step(records: Seq<Option<StoredEntry>>, n: int)
    requires
        plain_files(records),
        0 <= n < records.len(),
        built(records, n + 1).len() <= usize::MAX,
        wf_nodes(built(records, n)),
        stage_of_plain_files(records, n, built(records, n)),
    ensures
        stage_of_plain_files(records, n + 1, built(records, n + 1)),
{
    let nodes = built(records, n);
    let after = built(records, n + 1);
    let stored = records[n].unwrap();
    let path = decoded_filename(stored.name_raw@);
    let parts = path_parts(path);
    let source = stored.source(n as usize);
    let names = record_names(records, n);
    assert(after == insert_from(nodes, 0, parts, 0, source));
    lemma_names_of_path_parts(path);
    assert(names_of(parts) == names);
    assert(names.len() > 0);
    assert(parts.len() == names.len());
    lemma_insert_from(nodes, 0, parts, 0, source);
    lemma_insert_shape(nodes, 0, parts, 0, source);
    reveal(shaped);
    lemma_extends_len(nodes, after);
    let empty = Seq::<Seq<char>>::empty();
    assert(node_names(nodes, 0) == empty);
    lemma_node_names_extends(nodes, after, 0);
    let id = resolve(after, names, 0, 0).unwrap();
    assert(names.skip(0) == names);
    assert(empty + names == names);
    assert(node_names(after, id) == names);
    // The end of the new path is a new node.
    assert(id >= nodes.len()) by {
        if id < nodes.len() {
            lemma_node_names_extends(nodes, after, id);
            assert(id != 0);
            assert(covered(records, n, node_names(nodes, id)));
            let j = choose|j: int|
                0 <= j < n && is_prefix(node_names(nodes, id), #[trigger] record_names(records, j));
            assert(is_prefix(record_names(records, n), record_names(records, j)));
        }
    }
    assert forall|x: int| nodes.len() <= x < after.len() implies is_prefix(
        #[trigger] node_names(after, x),
        names,
    ) && (after[x].props is File ==> node_names(after, x) == names && after[x].children.len() == 0
        && x == id) by {
        let own = node_names(after, x);
        assert(created_on_path(after[x], own, empty, parts, 0, source));
        let d = own.len() - empty.len();
        assert(own == empty + names.subrange(0, d));
        assert(empty + names.subrange(0, d) == names.subrange(0, d));
        if after[x].props is File {
            assert(parts[d - 1].terminal);
            lemma_terminal_is_last(path, d - 1);
            assert(names.subrange(0, names.len() as int) == names);
            lemma_node_names_unique(after, x, id);
        }
    }
    assert(after[id].props is File) by {
        let own = node_names(after, id);
        assert(created_on_path(after[id], own, empty, parts, 0, source));
        assert(own.len() - empty.len() == parts.len());
        assert(parts[parts.len() - 1] == parts.last());
    }
    assert forall|x: int| 1 <= x < after.len() implies covered(
        records,
        n + 1,
        #[trigger] node_names(after, x),
    ) by {
        if x < nodes.len() {
            lemma_node_names_extends(nodes, after, x);
            assert(covered(records, n, node_names(nodes, x)));
            let j = choose|j: int|
                0 <= j < n && is_prefix(node_names(nodes, x), #[trigger] record_names(records, j));
            assert(is_prefix(node_names(after, x), record_names(records, j)));
        } else {
            assert(is_prefix(node_names(after, x), record_names(records, n)));
        }
    }
    assert forall|x: int| 0 <= x < after.len() && (#[trigger] after[x]).props is File implies is_record(
        records,
        n + 1,
        node_names(after, x),
    ) && after[x].children.len() == 0 by {
        if x < nodes.len() {
            lemma_extends_at(nodes, after, x);
            lemma_node_names_extends(nodes, after, x);
            assert(nodes[x].props is File);
            assert(is_record(records, n, node_names(nodes, x)));
            let j = choose|j: int|
                0 <= j < n && node_names(nodes, x) == #[trigger] record_names(records, j);
            assert(node_names(after, x) == record_names(records, j));
            if after[x].children.len() > nodes[x].children.len() {
                assert(lies_on_path(node_names(nodes, x), empty, parts, 0));
                let d = node_names(nodes, x).len() - empty.len();
                assert(empty + names.subrange(0, d) == names.subrange(0, d));
                assert(is_prefix(record_names(records, j), record_names(records, n)));
            }
        } else {
            assert(node_names(after, x) == record_names(records, n));
        }
    }
    lemma_files_among_extends(nodes, after, nodes.len() as int);
    lemma_files_among_one(after, nodes.len() as int, after.len() as int, id);
}

/// The index of a container of plain files has one file for each record,
/// and every file is a leaf.
pub proof fn lemma_plain_files_stage(records: Seq<Option<StoredEntry>>, n: int)
    requires
        plain_files(records),
        0 <= n <= records.len(),
        built(records, n).len() <= usize::MAX,
    ensures
        wf_nodes(built(records, n)),
        stage_of_plain_files(records, n, built(records, n)),
    decreases n,
{
    lemma_built_stages(records, n, n);
    if n == 0 {
        let nodes = built(records, 0);
        assert(nodes == seq![root_view()]);
        assert(nodes[0] == root_view());
        assert(files_among(nodes, 0) == 0);
        assert(files_among(nodes, 1) == 0);
    } else {
        lemma_built_stages(records, n - 1, n);
        lemma_extends_len(built(records, n - 1), built(records, n));
        lemma_plain_files_stage(records, n - 1);
        lemma_plain_files_step(records, n - 1);
    }
}

/// How many visits of a walk are paid to files that have no children.
pub open spec fn file_leaf_visits(nodes: Seq<EntryView>, visits: Seq<Visit>) -> nat
    decreases visits.len(),
{
    if visits.len() == 0 {
        0
    } else {
        file_leaf_visits(nodes, visits.drop_last()) + if is_file_leaf(nodes, visits.last().id@) {
            1nat
        } else {
            0nat
        }
    }
}

/// Whether a node is a file without children.
pub open spec fn is_file_leaf(nodes: Seq<EntryView>, x: int) -> bool {
    nodes[x].props is File && nodes[x].children.len() == 0
}

/// The visits that a walk pays to the files without children among the
/// first `n` nodes.
pub open spec fn file_leaf_visits_below(nodes: Seq<EntryView>, visits: Seq<Visit>, n: int) -> nat
    decreases n,
{
    if n <= 0 {
        0
    } else {
        file_leaf_visits_below(nodes, visits, n - 1) + if is_file_leaf(nodes, n - 1) {
            visits_of(visits, n - 1)
        } else {
            0nat
        }
    }
}

proof fn lemma_file_leaf_visits_below_push(
    nodes: Seq<EntryView>,
    visits: Seq<Visit>,
    visit: Visit,
    n: int,
)
    ensures
        file_leaf_visits_below(nodes, visits.push(visit), n) == file_leaf_visits_below(
            nodes,
            visits,
            n,
        ) + if 0 <= visit.id@ < n && is_file_leaf(nodes, visit.id@) {
            1nat
        } else {
            0nat
        },
    decreases n,
{
    if n > 0 {
        lemma_file_leaf_visits_below_push(nodes, visits, visit, n - 1);
        assert(visits.push(visit).drop_last() == visits);
        assert(visits.push(visit).last() == visit);
    }
}

proof fn lemma_file_leaf_visits_below_empty(nodes: Seq<EntryView>, n: int)
    ensures
        file_leaf_visits_below(nodes, Seq::<Visit>::empty(), n) == 0,
    decreases n,
{
    if n > 0 {
        lemma_file_leaf_visits_below_empty(nodes, n - 1);
    }
}

proof fn lemma_file_leaf_visits_split(nodes: Seq<EntryView>, visits: Seq<Visit>, n: int)
    requires
        forall|i: int| 0 <= i < visits.len() ==> 0 <= (#[trigger] visits[i]).id@ < n,
    ensures
        file_leaf_visits(nodes, visits) == file_leaf_visits_below(nodes, visits, n),
    decreases visits.len(),
{
    if visits.len() == 0 {
        lemma_file_leaf_visits_below_empty(nodes, n);
        assert(visits == Seq::<Visit>::empty());
    } else {
        let front = visits.drop_last();
        assert(0 <= visits[visits.len() - 1].id@ < n);
        assert forall|i: int| 0 <= i < front.len() implies 0 <= (#[trigger] front[i]).id@ < n by {
            assert(front[i] == visits[i]);
        }
        lemma_file_leaf_visits_split(nodes, front, n);
        lemma_file_leaf_visits_below_push(nodes, front, visits.last(), n);
        assert(front.push(visits.last()) == visits);
    }
}

proof fn lemma_file_leaf_visits_once(nodes: Seq<EntryView>, visits: Seq<Visit>, n: int)
    requires
        0 <= n <= nodes.len(),
        forall|x: int| 0 <= x < n ==> #[trigger] visits_of(visits, x) == 1,
        forall|x: int| 0 <= x < n && (#[trigger] nodes[x]).props is File ==> nodes[x].children.len() == 0,
    ensures
        file_leaf_visits_below(nodes, visits, n) == files_among(nodes, n),
    decreases n,
{
    if n > 0 {
        lemma_file_leaf_visits_once(nodes, visits, n - 1);
        assert(visits_of(visits, n - 1) == 1);
        assert(nodes[n - 1].props is File ==> nodes[n - 1].children.len() == 0);
    }
}

/// In the index of a container of plain files, the walk from the root pays
/// exactly one visit to each of as many files without children as the
/// container has records, and no other file exists.
pub proof fn lemma_walk_visits_each_file_once(records: Seq<Option<StoredEntry>>)
    requires
        plain_files(records),
        built(records, records.len() as int).len() <= usize::MAX,
    ensures
        wf_nodes(built(records, records.len() as int)),
        files_among(
            built(records, records.len() as int),
            built(records, records.len() as int).len() as int,
        ) == records.len(),
        forall|x: int|
            0 <= x < built(records, records.len() as int).len() && (#[trigger] built(
                records,
                records.len() as int,
            )[x]).props is File ==> is_file_leaf(built(records, records.len() as int), x)
                && visits_of(walk(built(records, records.len() as int), seq![NodeID(0)]), x) == 1,
        file_leaf_visits(
            built(records, records.len() as int),
            walk(built(records, records.len() as int), seq![NodeID(0)]),
        ) == records.len(),
{
    let nodes = built(records, records.len() as int);
    let visits = walk(nodes, seq![NodeID(0)]);
    lemma_plain_files_stage(records, records.len() as int);
    assert forall|x: int| 0 <= x < nodes.len() implies #[trigger] visits_of(visits, x) == 1 by {
        lemma_walk_from_root_visits_each_node_once(nodes, x);
    }
    assert forall|i: int| 0 <= i < visits.len() implies 0 <= (#[trigger] visits[i]).id@
        < nodes.len() by {
        lemma_visited(visits, i);
        lemma_walk_from_root_visits_each_node_once(nodes, visits[i].id@);
    }
    lemma_file_leaf_visits_split(nodes, visits, nodes.len() as int);
    lemma_file_leaf_visits_once(nodes, visits, nodes.len() as int);
}

} // verus!
