//! The straight lines between turning places.

use vstd::prelude::*;
use crate::board::{Board, Coor, Edge};

verus! {

/// The length of the line between two places: the distance between their
/// rows if they are in one column, otherwise the distance between their
/// columns.
pub open spec fn span(from: Coor, to: Coor) -> int {
    if from.x == to.x {
        if to.y > from.y {
            to.y - from.y
        } else {
            from.y - to.y
        }
    } else {
        if to.x > from.x {
            to.x - from.x
        } else {
            from.x - to.x
        }
    }
}

/// Whether a straight line runs between two places: they differ and share a
/// column or a row.
pub open spec fn lines_up(a: Coor, b: Coor) -> bool {
    a != b && (a.x == b.x || a.y == b.y)
}

/// The lines that leave one place, listed under that place.
pub type Lines = (Coor, Seq<Edge>);

/// The list `graph` with the line `edge` added under the place `key`: at the
/// end of the lines that `key` has already, or, if it has none, as a new
/// entry at the end of the list.
pub open spec fn joined(graph: Seq<Lines>, key: Coor, edge: Edge) -> Seq<Lines>
    decreases graph.len(),
{
    if graph.len() == 0 {
        seq![(key, seq![edge])]
    } else if graph[0].0 == key {
        seq![(key, graph[0].1.push(edge))] + graph.drop_first()
    } else {
        seq![graph[0]] + joined(graph.drop_first(), key, edge)
    }
}

/// The list `graph` with the lines added that run from `from` to the first
/// `count` of the places `corners`, in their order.
pub open spec fn linked(graph: Seq<Lines>, corners: Seq<Coor>, from: Coor, count: int) -> Seq<
    Lines,
>
    decreases count,
{
    if count <= 0 {
        graph
    } else {
        let before = linked(graph, corners, from, count - 1);
        let to = corners[count - 1];
        if lines_up(from, to) {
            joined(before, from, Edge { to, len: span(from, to) as usize })
        } else {
            before
        }
    }
}

/// The lines that leave the first `count` of the places `corners`, each to
/// every place of `corners` that it lines up with. A place that occurs twice
/// in `corners` has its lines twice.
pub open spec fn wired(corners: Seq<Coor>, count: int) -> Seq<Lines>
    decreases count,
{
    if count <= 0 {
        Seq::empty()
    } else {
        linked(wired(corners, count - 1), corners, corners[count - 1], corners.len() as int)
    }
}

/// The list of lines as sequences.
pub open spec fn graph_view(graph: Seq<(Coor, Vec<Edge>)>) -> Seq<Lines> {
    graph.map_values(|entry: (Coor, Vec<Edge>)| (entry.0, entry.1@))
}

/// Whether the place `key` has lines listed in `graph`.
pub open spec fn has_lines(graph: Seq<Lines>, key: Coor) -> bool {
    exists|i: int| 0 <= i < graph.len() && (#[trigger] graph[i]).0 == key
}

/// The lines listed for the place `key`: those of the first entry for it.
pub open spec fn lines_from(graph: Seq<Lines>, key: Coor) -> Seq<Edge>
    recommends
        has_lines(graph, key),
{
    graph[choose|i: int|
        0 <= i < graph.len() && (#[trigger] graph[i]).0 == key && forall|j: int|
            0 <= j < i ==> (#[trigger] graph[j]).0 != key].1
}

/// Whether every line listed in `graph` has the length that lies between its
/// two ends.
pub open spec fn measured(graph: Seq<Lines>) -> bool {
    forall|i: int, j: int|
        0 <= i < graph.len() && 0 <= j < graph[i].1.len() ==> (#[trigger] graph[i].1[j]).len
            == span(graph[i].0, graph[i].1[j].to)
}

/// Whether every line listed in `graph` ends at one of the places `corners`.
pub open spec fn lands(graph: Seq<Lines>, corners: Seq<Coor>) -> bool {
    forall|i: int, j: int|
        0 <= i < graph.len() && 0 <= j < graph[i].1.len() ==> corners.contains(
            (#[trigger] graph[i].1[j]).to,
        )
}

/// The index of the first entry of `graph` for the place `key`, or the length
/// of `graph` if there is none.
pub proof fn lemma_first_entry(graph: Seq<Lines>, key: Coor) -> (at: int)
    ensures
        0 <= at <= graph.len(),
        forall|i: int| 0 <= i < at ==> (#[trigger] graph[i]).0 != key,
        at < graph.len() ==> graph[at].0 == key,
    decreases graph.len(),
{
    if graph.len() == 0 || graph[0].0 == key {
        0
    } else {
        let rest = graph.drop_first();
        let at = lemma_first_entry(rest, key);
        assert forall|i: int| 0 <= i < at + 1 implies (#[trigger] graph[i]).0 != key by {
            if i > 0 {
                assert(rest[i - 1] == graph[i]);
            }
        }
        if at < rest.len() {
            assert(rest[at] == graph[at + 1]);
        }
        at + 1
    }
}

/// Where `joined` puts a line: under the first entry for the place, or in a
/// new entry at the end if the place has none.
pub proof fn lemma_joined(graph: Seq<Lines>, key: Coor, edge: Edge, at: int)
    requires
        0 <= at <= graph.len(),
        forall|i: int| 0 <= i < at ==> (#[trigger] graph[i]).0 != key,
        at < graph.len() ==> graph[at].0 == key,
    ensures
        joined(graph, key, edge) == (if at < graph.len() {
            graph.update(at, (key, graph[at].1.push(edge)))
        } else {
            graph.push((key, seq![edge]))
        }),
    decreases graph.len(),
{
    if graph.len() == 0 {
        assert(joined(graph, key, edge) =~= graph.push((key, seq![edge])));
    } else if at == 0 {
        assert(joined(graph, key, edge) =~= graph.update(0, (key, graph[0].1.push(edge))));
    } else {
        let rest = graph.drop_first();
        assert(graph[0].0 != key);
        assert forall|i: int| 0 <= i < at - 1 implies (#[trigger] rest[i]).0 != key by {
            assert(rest[i] == graph[i + 1]);
        }
        lemma_joined(rest, key, edge, at - 1);
        if at < graph.len() {
            assert(joined(graph, key, edge) =~= graph.update(at, (key, graph[at].1.push(edge))));
        } else {
            assert(joined(graph, key, edge) =~= graph.push((key, seq![edge])));
        }
    }
}

/// Adding a line of the right length keeps every length right.
pub proof fn lemma_joined_measured(graph: Seq<Lines>, key: Coor, edge: Edge)
    requires
        measured(graph),
        edge.len == span(key, edge.to),
    ensures
        measured(joined(graph, key, edge)),
{
    let at = lemma_first_entry(graph, key);
    lemma_joined(graph, key, edge, at);
    let after = joined(graph, key, edge);
    assert forall|i: int, j: int| 0 <= i < after.len() && 0 <= j < after[i].1.len() implies (
    #[trigger] after[i].1[j]).len == span(after[i].0, after[i].1[j].to) by {
        if i < graph.len() && (i != at || j < graph[i].1.len()) {
            assert(after[i].1[j] == graph[i].1[j]);
        }
    }
}

/// The lines that `linked` adds have the right length.
pub proof fn lemma_linked_measured(graph: Seq<Lines>, corners: Seq<Coor>, from: Coor, count: int)
    requires
        measured(graph),
        count <= corners.len(),
    ensures
        measured(linked(graph, corners, from, count)),
    decreases count,
{
    if count > 0 {
        lemma_linked_measured(graph, corners, from, count - 1);
        let to = corners[count - 1];
        if lines_up(from, to) {
            lemma_joined_measured(
                linked(graph, corners, from, count - 1),
                from,
                Edge { to, len: span(from, to) as usize },
            );
        }
    }
}

/// Every line between turning places has the length that lies between its
/// ends.
pub proof fn lemma_wired_measured(corners: Seq<Coor>, count: int)
    requires
        count <= corners.len(),
    ensures
        measured(wired(corners, count)),
    decreases count,
{
    if count > 0 {
        lemma_wired_measured(corners, count - 1);
        lemma_linked_measured(
            wired(corners, count - 1),
            corners,
            corners[count - 1],
            corners.len() as int,
        );
    }
}

/// Adding a line that ends at one of the places keeps every line ending at
/// one.
pub proof fn lemma_joined_lands(graph: Seq<Lines>, corners: Seq<Coor>, key: Coor, edge: Edge)
    requires
        lands(graph, corners),
        corners.contains(edge.to),
    ensures
        lands(joined(graph, key, edge), corners),
{
    let at = lemma_first_entry(graph, key);
    lemma_joined(graph, key, edge, at);
    let after = joined(graph, key, edge);
    assert forall|i: int, j: int|
        0 <= i < after.len() && 0 <= j < after[i].1.len() implies corners.contains(
        (#[trigger] after[i].1[j]).to,
    ) by {
        if i < graph.len() && (i != at || j < graph[i].1.len()) {
            assert(after[i].1[j] == graph[i].1[j]);
        }
    }
}

/// The lines that `linked` adds end at places of `corners`.
pub proof fn lemma_linked_lands(graph: Seq<Lines>, corners: Seq<Coor>, from: Coor, count: int)
    requires
        lands(graph, corners),
        count <= corners.len(),
    ensures
        lands(linked(graph, corners, from, count), corners),
    decreases count,
{
    if count > 0 {
        lemma_linked_lands(graph, corners, from, count - 1);
        let to = corners[count - 1];
        if lines_up(from, to) {
            lemma_joined_lands(
                linked(graph, corners, from, count - 1),
                corners,
                from,
                Edge { to, len: span(from, to) as usize },
            );
        }
    }
}

/// Every line between the places `corners` ends at one of them.
pub proof fn lemma_wired_lands(corners: Seq<Coor>, count: int)
    requires
        count <= corners.len(),
    ensures
        lands(wired(corners, count), corners),
    decreases count,
{
    if count > 0 {
        lemma_wired_lands(corners, count - 1);
        lemma_linked_lands(
            wired(corners, count - 1),
            corners,
            corners[count - 1],
            corners.len() as int,
        );
    }
}

/// Adds the line `edge` under the place `key`.
fn join(graph: &mut Vec<(Coor, Vec<Edge>)>, key: &Coor, edge: Edge)
    ensures
        graph_view(final(graph)@) == joined(graph_view(old(graph)@), *key, edge),
{
    let mut at: usize = 0;
    while at < graph.len()
        invariant
            at <= graph.len(),
            graph@ == old(graph)@,
            forall|i: int| 0 <= i < at ==> (#[trigger] graph@[i]).0 != *key,
        ensures
            at <= graph.len(),
            graph@ == old(graph)@,
            forall|i: int| 0 <= i < at ==> (#[trigger] graph@[i]).0 != *key,
            at < graph.len() ==> graph@[at as int].0 == *key,
        decreases graph.len() - at,
    {
        if graph[at].0 == *key {
            break;
        }
        at = at + 1;
    }
    proof {
        let before = graph_view(old(graph)@);
        assert forall|i: int| 0 <= i < at implies (#[trigger] before[i]).0 != *key by {
            assert(before[i].0 == graph@[i].0);
        }
        lemma_joined(before, *key, edge, at as int);
    }
    if at < graph.len() {
        graph[at].1.push(edge);
        assert(graph_view(graph@) =~= joined(graph_view(old(graph)@), *key, edge));
    } else {
        let mut edges: Vec<Edge> = Vec::new();
        edges.push(edge);
        graph.push((key.clone(), edges));
        assert(graph_view(graph@) =~= joined(graph_view(old(graph)@), *key, edge));
    }
}

/// The index of the first entry for `key`.
pub(crate) fn find(graph: &Vec<(Coor, Vec<Edge>)>, key: &Coor) -> (at: Option<usize>)
    ensures
        match at {
            Some(i) => i < graph@.len() && graph@[i as int].0 == *key && has_lines(
                graph_view(graph@),
                *key,
            ) && lines_from(graph_view(graph@), *key) == graph@[i as int].1@,
            None => !has_lines(graph_view(graph@), *key),
        },
{
    let ghost lines = graph_view(graph@);
    let mut i: usize = 0;
    while i < graph.len()
        invariant
            i <= graph.len(),
            lines == graph_view(graph@),
            forall|k: int| 0 <= k < i ==> (#[trigger] lines[k]).0 != *key,
        decreases graph.len() - i,
    {
        if graph[i].0 == *key {
            assert(lines[i as int].0 == *key);
            return Some(i);
        }
        assert(lines[i as int].0 == graph@[i as int].0);
        i = i + 1;
    }
    None
}

impl Board {
    /// The length of the line from `from` to `to`.
    pub fn dist(board: &Vec<Vec<bool>>, from: &Coor, to: &Coor) -> (length: usize)
        ensures
            length == span(*from, *to),
    {
        if from.x == to.x {
            if to.y > from.y {
                to.y - from.y
            } else {
                from.y - to.y
            }
        } else {
            if to.x > from.x {
                to.x - from.x
            } else {
                from.x - to.x
            }
        }
    }

    /// Lists, for each of the places `corners`, the lines that run from it to the
    /// others: one to each place in the same column or row, with the distance
    /// between the two. The places come in the order in which `corners` first
    /// names them, the lines of a place in the order of `corners`.
    pub fn graph(board: &Vec<Vec<bool>>, corners: &Vec<Coor>) -> (map: Vec<(Coor, Vec<Edge>)>)
        ensures
            graph_view(map@) == wired(corners@, corners@.len() as int),
    {
        let mut map: Vec<(Coor, Vec<Edge>)> = Vec::new();
        let mut i: usize = 0;
        assert(graph_view(map@) =~= Seq::empty());
        while i < corners.len()
            invariant
                i <= corners.len(),
                graph_view(map@) == wired(corners@, i as int),
            decreases corners.len() - i,
        {
            let from = &corners[i];
            let mut j: usize = 0;
            while j < corners.len()
                invariant
                    i < corners.len(),
                    j <= corners.len(),
                    *from == corners@[i as int],
                    graph_view(map@) == linked(wired(corners@, i as int), corners@, *from, j as int),
                decreases corners.len() - j,
            {
                let to = &corners[j];
                let same = *from == *to;
                let no_line = from.x != to.x && from.y != to.y;
                if !(same || no_line) {
                    let length = Board::dist(board, from, to);
                    if length != 0 {
                        join(&mut map, from, Edge { to: to.clone(), len: length });
                    }
                }
                j = j + 1;
            }
            i = i + 1;
        }
        map
    }
}

} // verus!
