//! The order in which a directory shows its entries: directories first,
//! then by name.

use crate::archive::path::chars_of;
use crate::archive::{ArchiveEntries, EntryView, NodeID};
use vstd::prelude::*;

verus! {

/// Whether `a` comes before `b` in the order of dictionaries, character by
/// character.
pub open spec fn name_before(a: Seq<char>, b: Seq<char>) -> bool
    decreases a.len(),
{
    if b.len() == 0 {
        false
    } else if a.len() == 0 {
        true
    } else if a[0] != b[0] {
        a[0] < b[0]
    } else {
        name_before(a.skip(1), b.skip(1))
    }
}

/// Whether the node `a` is shown before the node `b`: a directory before a
/// file, and of two of one kind the one whose name comes first.
pub open spec fn shown_before(nodes: Seq<EntryView>, a: NodeID, b: NodeID) -> bool {
    let first = nodes[a@];
    let second = nodes[b@];
    if (first.props is Directory) != (second.props is Directory) {
        first.props is Directory
    } else {
        name_before(first.name, second.name)
    }
}

/// Where `id` goes into a list that is in display order: before the first
/// node, from position `from` on, that is not shown before it.
pub open spec fn display_position(nodes: Seq<EntryView>, shown: Seq<NodeID>, id: NodeID, from: int) -> int
    decreases shown.len() - from,
{
    if from < 0 || from >= shown.len() {
        shown.len() as int
    } else if shown_before(nodes, shown[from], id) {
        display_position(nodes, shown, id, from + 1)
    } else {
        from
    }
}

/// The nodes in display order: each node, in the given order, goes in
/// before the first node that is not shown before it.
pub open spec fn display_order(nodes: Seq<EntryView>, ids: Seq<NodeID>) -> Seq<NodeID>
    decreases ids.len(),
{
    if ids.len() == 0 {
        Seq::empty()
    } else {
        let shown = display_order(nodes, ids.drop_last());
        shown.insert(display_position(nodes, shown, ids.last(), 0), ids.last())
    }
}

/// Of two different names one comes before the other.
pub proof fn lemma_name_before_total(a: Seq<char>, b: Seq<char>)
    ensures
        a == b || name_before(a, b) || name_before(b, a),
        !(name_before(a, b) && name_before(b, a)),
    decreases a.len(),
{
    if a.len() == 0 || b.len() == 0 {
        if a.len() == 0 && b.len() == 0 {
            assert(a =~= b);
        }
    } else if a[0] == b[0] {
        lemma_name_before_total(a.skip(1), b.skip(1));
        if a.skip(1) == b.skip(1) {
            assert(a =~= seq![a[0]] + a.skip(1));
            assert(b =~= seq![b[0]] + b.skip(1));
        }
    }
}

pub proof fn lemma_name_before_transitive(a: Seq<char>, b: Seq<char>, c: Seq<char>)
    requires
        name_before(a, b),
        name_before(b, c),
    ensures
        name_before(a, c),
    decreases a.len(),
{
    if a.len() > 0 && b.len() > 0 && c.len() > 0 {
        if a[0] == b[0] && b[0] == c[0] {
            lemma_name_before_transitive(a.skip(1), b.skip(1), c.skip(1));
        }
    }
}

pub proof fn lemma_shown_before_transitive(nodes: Seq<EntryView>, a: NodeID, b: NodeID, c: NodeID)
    requires
        shown_before(nodes, a, b),
        shown_before(nodes, b, c),
    ensures
        shown_before(nodes, a, c),
{
    let (x, y, z) = (nodes[a@], nodes[b@], nodes[c@]);
    if (x.props is Directory) == (y.props is Directory) && (y.props is Directory) == (
    z.props is Directory) {
        lemma_name_before_transitive(x.name, y.name, z.name);
    }
}

/// Of two nodes of different names one is shown before the other.
pub proof fn lemma_shown_before_total(nodes: Seq<EntryView>, a: NodeID, b: NodeID)
    ensures
        nodes[a@].name == nodes[b@].name || shown_before(nodes, a, b) || shown_before(nodes, b, a),
        !(shown_before(nodes, a, b) && shown_before(nodes, b, a)),
{
    lemma_name_before_total(nodes[a@].name, nodes[b@].name);
}

/// Whether `a` comes before `b` in the order of dictionaries.
pub fn is_name_before(a: &str, b: &str) -> (before: bool)
    ensures
        before == name_before(a@, b@),
{
    let first = chars_of(a);
    let second = chars_of(b);
    let mut i: usize = 0;
    assert(a@.skip(0) == a@ && b@.skip(0) == b@);
    while i < first.len() && i < second.len()
        invariant
            i <= first.len(),
            i <= second.len(),
            first@ == a@,
            second@ == b@,
            name_before(a@, b@) == name_before(a@.skip(i as int), b@.skip(i as int)),
        decreases first.len() - i,
    {
        let ghost x = a@.skip(i as int);
        let ghost y = b@.skip(i as int);
        proof {
            assert(x[0] == first@[i as int]);
            assert(y[0] == second@[i as int]);
            assert(x.skip(1) == a@.skip(i + 1));
            assert(y.skip(1) == b@.skip(i + 1));
        }
        if first[i] != second[i] {
            return first[i] < second[i];
        }
        i += 1;
    }
    proof {
        assert(a@.skip(i as int).len() == first.len() - i);
        assert(b@.skip(i as int).len() == second.len() - i);
    }
    i < second.len()
}

/// Whether the node `a` is shown before the node `b`.
pub fn is_shown_before(files: &ArchiveEntries, a: NodeID, b: NodeID) -> (before: bool)
    requires
        a@ < files@.len(),
        b@ < files@.len(),
    ensures
        before == shown_before(files@, a, b),
{
    let first = files.get(a);
    let second = files.get(b);
    if first.props.is_dir() != second.props.is_dir() {
        first.props.is_dir()
    } else {
        is_name_before(first.name.as_str(), second.name.as_str())
    }
}

/// The position for a node is a position of the list or the one behind it,
/// every node before it is shown before the node, and the node at it is not.
pub proof fn lemma_display_position(nodes: Seq<EntryView>, shown: Seq<NodeID>, id: NodeID, from: int)
    requires
        0 <= from <= shown.len(),
    ensures
        from <= display_position(nodes, shown, id, from) <= shown.len(),
        forall|j: int|
            from <= j < display_position(nodes, shown, id, from) ==> shown_before(
                nodes,
                #[trigger] shown[j],
                id,
            ),
        display_position(nodes, shown, id, from) < shown.len() ==> !shown_before(
            nodes,
            shown[display_position(nodes, shown, id, from)],
            id,
        ),
    decreases shown.len() - from,
{
    if from < shown.len() && shown_before(nodes, shown[from], id) {
        lemma_display_position(nodes, shown, id, from + 1);
    }
}

/// The display order holds the nodes that it was given, each as often as
/// it was given.
pub proof fn lemma_display_order_members(nodes: Seq<EntryView>, ids: Seq<NodeID>)
    ensures
        display_order(nodes, ids).len() == ids.len(),
        forall|x: NodeID| #[trigger] display_order(nodes, ids).contains(x) <==> ids.contains(x),
    decreases ids.len(),
{
    if ids.len() > 0 {
        let front = ids.drop_last();
        let shown = display_order(nodes, front);
        let pos = display_position(nodes, shown, ids.last(), 0);
        lemma_display_order_members(nodes, front);
        lemma_display_position(nodes, shown, ids.last(), 0);
        shown.insert_ensures(pos, ids.last());
        let all = display_order(nodes, ids);
        assert forall|x: NodeID| #[trigger] all.contains(x) <==> ids.contains(x) by {
            if all.contains(x) {
                let i = choose|i: int| 0 <= i < all.len() && all[i] == x;
                if i < pos {
                    assert(shown[i] == x);
                    assert(shown.contains(x));
                    assert(front.contains(x));
                    let j = choose|j: int| 0 <= j < front.len() && front[j] == x;
                    assert(ids[j] == x);
                } else if i > pos {
                    assert(all[(i - 1) + 1] == shown[i - 1]);
                    assert(shown.contains(x));
                    assert(front.contains(x));
                    let j = choose|j: int| 0 <= j < front.len() && front[j] == x;
                    assert(ids[j] == x);
                } else {
                    assert(ids[ids.len() - 1] == x);
                }
            }
            if ids.contains(x) {
                let j = choose|j: int| 0 <= j < ids.len() && ids[j] == x;
                if j < ids.len() - 1 {
                    assert(front[j] == x);
                    assert(front.contains(x));
                    assert(shown.contains(x));
                    let i = choose|i: int| 0 <= i < shown.len() && shown[i] == x;
                    if i < pos {
                        assert(all[i] == x);
                    } else {
                        assert(all[i + 1] == x);
                    }
                } else {
                    assert(all[pos] == x);
                }
            }
        }
    }
}

/// The display order of nodes of which no two carry the same name lists
/// each node before every node that it is shown before: it is the one
/// order that any sorting of these nodes arrives at.
pub proof fn lemma_display_order_sorted(nodes: Seq<EntryView>, ids: Seq<NodeID>, i: int, j: int)
    requires
        forall|a: int, b: int|
            0 <= a < b < ids.len() ==> nodes[(#[trigger] ids[a])@].name != nodes[(
            #[trigger] ids[b])@].name,
        0 <= i < j < ids.len(),
    ensures
        shown_before(nodes, display_order(nodes, ids)[i], display_order(nodes, ids)[j]),
    decreases ids.len(),
{
    let front = ids.drop_last();
    let last = ids.last();
    let shown = display_order(nodes, front);
    let pos = display_position(nodes, shown, last, 0);
    let all = display_order(nodes, ids);
    lemma_display_order_members(nodes, front);
    lemma_display_position(nodes, shown, last, 0);
    shown.insert_ensures(pos, last);
    assert forall|a: int, b: int| 0 <= a < b < front.len() implies nodes[(
    #[trigger] front[a])@].name != nodes[(#[trigger] front[b])@].name by {
        assert(front[a] == ids[a] && front[b] == ids[b]);
    }
    // The place in the shorter list of what stands at a place of the longer one.
    let before = |k: int| if k < pos { k } else { k - 1 };
    if i != pos && j != pos {
        assert(all[i] == shown[before(i)]) by {
            if i > pos {
                assert(all[(i - 1) + 1] == shown[i - 1]);
            }
        }
        assert(all[j] == shown[before(j)]) by {
            if j > pos {
                assert(all[(j - 1) + 1] == shown[j - 1]);
            }
        }
        lemma_display_order_sorted(nodes, front, before(i), before(j));
    } else if j == pos {
        assert(all[i] == shown[i]);
    } else {
        // i == pos: the node at the position is not shown before the new
        // node, so the new node is shown before it and all that follows.
        assert(all[(j - 1) + 1] == shown[j - 1]);
        let at = shown[pos];
        assert(shown.contains(at));
        assert(front.contains(at));
        let k = choose|k: int| 0 <= k < front.len() && front[k] == at;
        assert(ids[k] == at);
        assert(nodes[ids[k]@].name != nodes[ids[ids.len() - 1]@].name);
        lemma_shown_before_total(nodes, last, at);
        if j - 1 > pos {
            lemma_display_order_sorted(nodes, front, pos, j - 1);
            lemma_shown_before_transitive(nodes, last, at, shown[j - 1]);
        }
    }
}

} // verus!
