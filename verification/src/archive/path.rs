//! Stored paths: how a decoded path falls into components.

use vstd::prelude::*;
use vstd::std_specs::iter::IteratorSpec;

verus! {

/// The separator between the components of a stored path.
pub const SEPARATOR: char = '/';

/// Where the first separator of `s` stands, or the length of `s` without one.
pub open spec fn first_separator(s: Seq<char>) -> int
    decreases s.len(),
{
    if s.len() == 0 {
        0
    } else if s[0] == SEPARATOR {
        0
    } else {
        1 + first_separator(s.skip(1))
    }
}

/// The components of a path: the pieces between separators, where a
/// separator at the very end closes the last component and opens no other.
pub open spec fn components(s: Seq<char>) -> Seq<Seq<char>>
    decreases s.len(),
    via components_terminates
{
    if s.len() == 0 {
        Seq::empty()
    } else {
        let k = first_separator(s);
        if k >= s.len() {
            seq![s]
        } else {
            seq![s.take(k)] + components(s.skip(k + 1))
        }
    }
}

#[via_fn]
proof fn components_terminates(s: Seq<char>) {
    lemma_first_separator_bounds(s);
}

/// The path made of the components up to and including the `k`-th, with
/// separators between them.
pub open spec fn accumulated(parts: Seq<Seq<char>>, k: int) -> Seq<char>
    decreases k,
{
    if k <= 0 {
        parts[0]
    } else {
        accumulated(parts, k - 1) + seq![SEPARATOR] + parts[k]
    }
}

/// One component of a stored path.
pub struct PathPart {
    /// The component's text.
    pub name: Seq<char>,
    /// Whether the path up to and including this component is the whole path.
    pub terminal: bool,
}

/// The components of a path, each with the mark of whether the path ends in it.
pub open spec fn path_parts(path: Seq<char>) -> Seq<PathPart> {
    Seq::new(
        components(path).len(),
        |k: int|
            PathPart {
                name: components(path)[k],
                terminal: accumulated(components(path), k) == path,
            },
    )
}

/// A component as the index works with it.
pub struct Component {
    pub name: String,
    pub terminal: bool,
}

impl View for Component {
    type V = PathPart;

    open spec fn view(&self) -> PathPart {
        PathPart { name: self.name@, terminal: self.terminal }
    }
}

pub proof fn lemma_first_separator_bounds(s: Seq<char>)
    ensures
        0 <= first_separator(s) <= s.len(),
        first_separator(s) < s.len() ==> s[first_separator(s)] == SEPARATOR,
        forall|j: int| 0 <= j < first_separator(s) ==> s[j] != SEPARATOR,
    decreases s.len(),
{
    if s.len() != 0 && s[0] != SEPARATOR {
        lemma_first_separator_bounds(s.skip(1));
        assert forall|j: int| 0 <= j < first_separator(s) implies s[j] != SEPARATOR by {
            if j > 0 {
                assert(s.skip(1)[j - 1] == s[j]);
            }
        }
    }
}

/// The first separator is where a separator stands with none before it.
pub proof fn lemma_first_separator_is(s: Seq<char>, k: int)
    requires
        0 <= k <= s.len(),
        forall|j: int| 0 <= j < k ==> s[j] != SEPARATOR,
        k < s.len() ==> s[k] == SEPARATOR,
    ensures
        first_separator(s) == k,
{
    lemma_first_separator_bounds(s);
    let f = first_separator(s);
    if f < k {
        assert(s[f] == SEPARATOR);
    } else if f > k {
        assert(s[k] != SEPARATOR);
    }
}

/// The characters of a string, one by one.
pub fn chars_of(s: &str) -> (chars: Vec<char>)
    ensures
        chars@ == s@,
{
    let mut chars: Vec<char> = Vec::new();
    let mut it = s.chars();
    loop
        invariant
            chars@ + it.remaining() == s@,
            it.obeys_prophetic_iter_laws(),
            it.decrease() is Some,
        ensures
            chars@ == s@,
        decreases it.decrease()->0,
    {
        broadcast use vstd::string::next_postcondition;

        match it.next() {
            Some(c) => {
                chars.push(c);
            },
            None => {
                break ;
            },
        }
    }
    chars
}

/// The views of a list of components.
pub open spec fn parts_view(parts: Seq<Component>) -> Seq<PathPart> {
    parts.map_values(|c: Component| c@)
}

/// The names in a list of components.
pub open spec fn part_names(parts: Seq<Component>) -> Seq<Seq<char>> {
    parts.map_values(|c: Component| c.name@)
}

/// The accumulated path looks at no component after the `k`-th.
pub proof fn lemma_accumulated_prefix(a: Seq<Seq<char>>, b: Seq<Seq<char>>, k: int)
    requires
        0 <= k < a.len(),
        k < b.len(),
        forall|j: int| 0 <= j <= k ==> a[j] == b[j],
    ensures
        accumulated(a, k) == accumulated(b, k),
    decreases k,
{
    if k > 0 {
        lemma_accumulated_prefix(a, b, k - 1);
    }
}

/// Splits a path into its components and marks the one in which the path ends.
pub fn split_path(path: &str) -> (parts: Vec<Component>)
    ensures
        parts_view(parts@) == path_parts(path@),
{
    let chars = chars_of(path);
    let n = chars.len();
    let mut parts: Vec<Component> = Vec::new();
    let mut start: usize = 0;
    let mut i: usize = 0;
    let ghost mut ends: Seq<int> = Seq::empty();
    proof {
        assert(path@.skip(0) == path@);
        assert(part_names(parts@) == Seq::<Seq<char>>::empty());
    }
    while i < n
        invariant
            start <= i <= n,
            n == chars.len(),
            chars@ == path@,
            forall|j: int| start <= j < i ==> path@[j] != SEPARATOR,
            components(path@) == part_names(parts@) + components(path@.skip(start as int)),
            ends.len() == parts.len(),
            parts.len() == 0 ==> start == 0,
            parts.len() > 0 ==> start > 0 && ends[parts.len() - 1] == start - 1 && path@[start - 1]
                == SEPARATOR,
            forall|k: int|
                0 <= k < parts.len() ==> 0 <= #[trigger] ends[k] < n && accumulated(
                    part_names(parts@),
                    k,
                ) == path@.take(ends[k]) && !parts[k].terminal,
        decreases n - i,
    {
        if chars[i] == SEPARATOR {
            let name = path.substring_char(start, i).to_owned();
            let ghost rest = path@.skip(start as int);
            let ghost old_names = part_names(parts@);
            let ghost old_len = parts.len() as int;
            proof {
                assert forall|j: int| 0 <= j < i - start implies rest[j] != SEPARATOR by {
                    assert(rest[j] == path@[start + j]);
                }
                lemma_first_separator_is(rest, i - start);
                assert(rest.take(i - start) == path@.subrange(start as int, i as int));
                assert(rest.skip(i - start + 1) == path@.skip(i + 1));
            }
            parts.push(Component { name, terminal: false });
            proof {
                let names = part_names(parts@);
                ends = ends.push(i as int);
                assert(names == old_names.push(path@.subrange(start as int, i as int)));
                assert(names + components(path@.skip(i + 1)) == old_names + (seq![
                    path@.subrange(start as int, i as int),
                ] + components(path@.skip(i + 1))));
                assert forall|k: int| 0 <= k < parts.len() implies 0 <= #[trigger] ends[k] < n
                    && accumulated(names, k) == path@.take(ends[k]) && !parts[k].terminal by {
                    if k < old_len {
                        lemma_accumulated_prefix(names, old_names, k);
                    } else if old_len > 0 {
                        lemma_accumulated_prefix(names, old_names, k - 1);
                        assert(accumulated(names, k) == path@.take(start - 1) + seq![SEPARATOR]
                            + path@.subrange(start as int, i as int));
                        assert(accumulated(names, k) == path@.take(i as int));
                    } else {
                        assert(accumulated(names, k) == path@.take(i as int));
                    }
                }
            }
            start = i + 1;
        }
        i += 1;
    }
    let ghost rest = path@.skip(start as int);
    proof {
        assert forall|j: int| 0 <= j < n - start implies rest[j] != SEPARATOR by {
            assert(rest[j] == path@[start + j]);
        }
        lemma_first_separator_is(rest, n - start);
    }
    if start < n {
        let name = path.substring_char(start, n).to_owned();
        let ghost old_names = part_names(parts@);
        let ghost old_len = parts.len() as int;
        parts.push(Component { name, terminal: true });
        proof {
            let names = part_names(parts@);
            ends = ends.push(n as int);
            assert(rest == path@.subrange(start as int, n as int));
            assert(names == old_names.push(rest));
            assert(names == components(path@));
            assert(path@.take(n as int) == path@);
            assert forall|k: int| 0 <= k < parts.len() implies accumulated(names, k)
                == path@.take(ends[k]) by {
                if k < old_len {
                    lemma_accumulated_prefix(names, old_names, k);
                } else if old_len > 0 {
                    lemma_accumulated_prefix(names, old_names, k - 1);
                    assert(accumulated(names, k) == path@.take(start - 1) + seq![SEPARATOR]
                        + path@.subrange(start as int, n as int));
                    assert(accumulated(names, k) == path@.take(n as int));
                } else {
                    assert(accumulated(names, k) == path@.take(n as int));
                }
            }
        }
    } else {
        proof {
            assert(part_names(parts@) + Seq::<Seq<char>>::empty() == part_names(parts@));
        }
    }
    proof {
        let names = part_names(parts@);
        assert(names == components(path@));
        assert forall|k: int| 0 <= k < parts.len() implies parts_view(parts@)[k] == path_parts(
            path@,
        )[k] by {
            assert(accumulated(names, k) == path@.take(ends[k]));
            if ends[k] < n {
                assert(path@.take(ends[k]).len() != path@.len());
            } else {
                assert(path@.take(n as int) == path@);
            }
        }
        assert(parts_view(parts@) =~= path_parts(path@));
    }
    parts
}

} // verus!
