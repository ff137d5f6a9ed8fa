//! Shortest-path queries between two persons, reported as a chain of
//! relationship lines from the finish back to the start.
use vstd::prelude::*;

use crate::family::{find_id, lemma_find_id, Family};
use crate::graph::{
    adjacent, edge_weight, lemma_adjacent_symmetric, find_edge, graph_edges, graph_nodes, is_shortest_walk, is_walk, joins,
    shortest_path, EdgeView,
};
use crate::person::{PersonView, Relationship};

verus! {

/// One step of a reported chain: a person and, except for the last step,
/// the kind of the edge that joins it to the next person.
#[derive(Debug)]
pub struct PersonRelationship {
    pub id: i32,
    pub name: String,
    pub relationship: Option<Relationship>,
}

/// Mathematical value of a `PersonRelationship`.
pub struct StepView {
    pub id: i32,
    pub name: Seq<char>,
    pub relationship: Option<Relationship>,
}

impl View for PersonRelationship {
    type V = StepView;

    open spec fn view(&self) -> StepView {
        StepView { id: self.id, name: self.name@, relationship: self.relationship }
    }
}

/// Why a query has no chain to report.
#[derive(Clone, Copy, PartialEq, Eq, Debug, Structural)]
pub enum PathError {
    /// The identifier names no person of the family.
    UnknownPerson(i32),
    /// Both persons are known but no chain of relationships joins them.
    NoRelationship,
}

/// Some walk joins `s` to `f`.
pub open spec fn connected(edges: Seq<EdgeView>, n: int, s: int, f: int) -> bool {
    exists|p: Seq<usize>| #[trigger] is_walk(edges, n, p, s, f)
}

/// `rel` is the kind of some edge that joins `a` and `b`.
pub open spec fn labels_edge(edges: Seq<EdgeView>, a: int, b: int, rel: Option<Relationship>) -> bool {
    exists|e: int| 0 <= e < edges.len() && #[trigger] joins(edges[e], a, b) && rel == Some(edges[e].2)
}

/// The label of a step from `a` to `b`: the kind of some edge joining them,
/// or none where no edge does.
pub open spec fn step_label(edges: Seq<EdgeView>, a: int, b: int, rel: Option<Relationship>) -> bool {
    if adjacent(edges, a, b) {
        labels_edge(edges, a, b, rel)
    } else {
        rel is None
    }
}

/// `steps` reports the nodes `q` in order: each person, and for every step
/// but the last the kind of some edge joining it to the next node, or none
/// where no edge joins them.
pub open spec fn describes(
    recs: Seq<PersonView>,
    edges: Seq<EdgeView>,
    q: Seq<usize>,
    steps: Seq<StepView>,
) -> bool {
    &&& steps.len() == q.len()
    &&& forall|i: int|
        0 <= i < q.len() ==> {
            &&& (#[trigger] steps[i]).id == recs[q[i] as int].person_id
            &&& steps[i].name == recs[q[i] as int].name
        }
    &&& forall|i: int|
        0 <= i < q.len() - 1 ==> step_label(edges, q[i] as int, q[i + 1] as int, (#[trigger] steps[i]).relationship)
    &&& q.len() > 0 ==> steps[q.len() - 1].relationship is None
}

/// The outcome that a query from `start` to `finish` owes: an unknown
/// identifier (start first), no relationship where no walk exists, and
/// otherwise the steps of a shortest walk, read from `finish` to `start`.
pub open spec fn answers(
    family: Family,
    start: i32,
    finish: i32,
    r: Result<Seq<StepView>, PathError>,
) -> bool {
    let recs = family.records();
    let edges = graph_edges(family.graph);
    let n = recs.len() as int;
    let s = find_id(recs, start);
    let f = find_id(recs, finish);
    if s < 0 {
        r == Err::<Seq<StepView>, PathError>(PathError::UnknownPerson(start))
    } else if f < 0 {
        r == Err::<Seq<StepView>, PathError>(PathError::UnknownPerson(finish))
    } else if !connected(edges, n, s, f) {
        r == Err::<Seq<StepView>, PathError>(PathError::NoRelationship)
    } else {
        &&& r is Ok
        &&& exists|p: Seq<usize>| #[trigger]
            is_shortest_walk(edges, n, p, s, f) && describes(recs, edges, p.reverse(), r->Ok_0)
    }
}

pub open spec fn steps_view(v: Seq<PersonRelationship>) -> Seq<StepView> {
    v.map_values(|x: PersonRelationship| x@)
}

/// Reports a list of nodes from its last node back to its first: each
/// person, and for each step but the last the kind of an edge that joins it to
/// the next node, or none where no edge does. Where parallel edges join two
/// steps, the kind reported is that of the edge that `petgraph`'s `find_edge`
/// meets first, a fixed choice for a given graph.
pub fn relationships_along(family: &Family, path: &Vec<usize>) -> (r: Vec<PersonRelationship>)
    requires
        family.wf(),
        forall|i: int| 0 <= i < path@.len() ==> #[trigger] path@[i] < family.records().len(),
    ensures
        describes(family.records(), graph_edges(family.graph), path@.reverse(), steps_view(r@)),
{
    let ghost recs = family.records();
    let ghost edges = graph_edges(family.graph);
    let ghost q = path@.reverse();
    let n = path.len();
    let mut r: Vec<PersonRelationship> = Vec::new();
    let mut i: usize = 0;
    while i < n
        invariant
            family.wf(),
            recs == family.records(),
            edges == graph_edges(family.graph),
            n == path@.len(),
            q == path@.reverse(),
            i <= n,
            forall|j: int| 0 <= j < path@.len() ==> #[trigger] path@[j] < recs.len(),
            r@.len() == i,
            forall|j: int|
                0 <= j < i ==> {
                    &&& (#[trigger] r@[j])@.id == recs[q[j] as int].person_id
                    &&& r@[j]@.name == recs[q[j] as int].name
                },
            forall|j: int|
                0 <= j < i && j < n - 1 ==> step_label(edges, q[j] as int, q[j + 1] as int, (#[trigger] r@[j])@.relationship),
            forall|j: int| 0 <= j < i && j == n - 1 ==> (#[trigger] r@[j])@.relationship is None,
        decreases n - i,
    {
        let a = path[n - 1 - i];
        assert(a == q[i as int]);
        assert(path@[n - 1 - i] < recs.len());
        let relationship = if i + 1 < n {
            let b = path[n - 2 - i];
            assert(b == q[i + 1]);
            assert(path@[n - 2 - i] < recs.len());
            match find_edge(&family.graph, a, b) {
                Some(e) => {
                    let k = edge_weight(&family.graph, e);
                    assert(adjacent(edges, a as int, b as int));
                    assert(labels_edge(edges, a as int, b as int, k));
                    k
                },
                None => None,
            }
        } else {
            None
        };
        assert(i + 1 < n ==> step_label(edges, q[i as int] as int, q[i + 1] as int, relationship));
        let ghost before = r@;
        let person = &family.persons[a];
        let step = PersonRelationship { id: person.person_id, name: person.name.clone(), relationship };
        proof {
            assert(recs[a as int] == family.persons@[a as int]@);
        }
        r.push(step);
        proof {
            assert forall|j: int| 0 <= j < i implies r@[j] == before[j] by {}
            assert(r@[i as int] == step);
        }
        i = i + 1;
    }
    proof {
        assert(steps_view(r@).len() == q.len());
        assert forall|j: int| 0 <= j < q.len() implies (#[trigger] steps_view(r@)[j]) == r@[j]@ by {}
        assert forall|j: int| 0 <= j < q.len() - 1 implies step_label(edges, q[j] as int, q[j + 1] as int, (#[trigger] steps_view(r@)[j]).relationship) by {
            assert(steps_view(r@)[j] == r@[j]@);
        }
    }
    r
}

/// Finds a shortest chain of relationships from `start` to `finish` and
/// reports it from `finish` back to `start`.
pub fn get_shortest_path(family: &Family, start: i32, finish: i32) -> (r: Result<
    Vec<PersonRelationship>,
    PathError,
>)
    requires
        family.wf(),
    ensures
        answers(
            *family,
            start,
            finish,
            match r {
                Ok(v) => Ok(steps_view(v@)),
                Err(e) => Err(e),
            },
        ),
{
    let ghost recs = family.records();
    proof {
        lemma_find_id(recs, start);
        lemma_find_id(recs, finish);
    }
    let s = match family.handle_of(start) {
        Some(h) => h,
        None => {
            return Err(PathError::UnknownPerson(start));
        },
    };
    let f = match family.handle_of(finish) {
        Some(h) => h,
        None => {
            return Err(PathError::UnknownPerson(finish));
        },
    };
    match shortest_path(&family.graph, s, f) {
        None => Err(PathError::NoRelationship),
        Some(p) => {
            let rels = relationships_along(family, &p);
            assert(is_shortest_walk(graph_edges(family.graph), recs.len() as int, p@, s as int, f as int));
            Ok(rels)
        },
    }
}

/// A walk read backwards is a walk between the same two persons, the other
/// way round: the graph is undirected.
pub proof fn lemma_walk_reversed(edges: Seq<EdgeView>, n: int, p: Seq<usize>, s: int, f: int)
    requires
        is_walk(edges, n, p, s, f),
    ensures
        is_walk(edges, n, p.reverse(), f, s),
        p.reverse().len() == p.len(),
{
    let q = p.reverse();
    let m = p.len();
    assert forall|i: int| 0 <= i < q.len() implies #[trigger] q[i] < n by {
        assert(q[i] == p[m - 1 - i]);
    }
    assert forall|i: int| 0 <= i < q.len() - 1 implies #[trigger] adjacent(edges, q[i] as int, q[i + 1] as int) by {
        let k = m - 2 - i;
        assert(q[i] == p[k + 1]);
        assert(q[i + 1] == p[k]);
        assert(adjacent(edges, p[k] as int, p[k + 1] as int));
        lemma_adjacent_symmetric(edges, p[k] as int, p[k + 1] as int);
    }
}

/// Swapping start and finish changes neither whether a relationship is
/// found nor the length of the reported chain.
pub proof fn lemma_query_symmetry(
    family: Family,
    a: i32,
    b: i32,
    ab: Result<Seq<StepView>, PathError>,
    ba: Result<Seq<StepView>, PathError>,
)
    requires
        family.wf(),
        answers(family, a, b, ab),
        answers(family, b, a, ba),
    ensures
        ab is Ok <==> ba is Ok,
        ab == Err::<Seq<StepView>, PathError>(PathError::NoRelationship) <==> ba == Err::<
            Seq<StepView>,
            PathError,
        >(PathError::NoRelationship),
        ab is Ok ==> ab->Ok_0.len() == ba->Ok_0.len(),
{
    let recs = family.records();
    let edges = graph_edges(family.graph);
    let n = recs.len() as int;
    let s = find_id(recs, a);
    let f = find_id(recs, b);
    if s >= 0 && f >= 0 {
        if connected(edges, n, s, f) {
            let p = choose|p: Seq<usize>| #[trigger] is_walk(edges, n, p, s, f);
            lemma_walk_reversed(edges, n, p, s, f);
            assert(connected(edges, n, f, s));
        }
        if connected(edges, n, f, s) {
            let p = choose|p: Seq<usize>| #[trigger] is_walk(edges, n, p, f, s);
            lemma_walk_reversed(edges, n, p, f, s);
            assert(connected(edges, n, s, f));
        }
        if connected(edges, n, s, f) {
            let p1 = choose|p: Seq<usize>| #[trigger]
                is_shortest_walk(edges, n, p, s, f) && describes(recs, edges, p.reverse(), ab->Ok_0);
            let p2 = choose|p: Seq<usize>| #[trigger]
                is_shortest_walk(edges, n, p, f, s) && describes(recs, edges, p.reverse(), ba->Ok_0);
            lemma_walk_reversed(edges, n, p1, s, f);
            lemma_walk_reversed(edges, n, p2, f, s);
            assert(p2.len() <= p1.reverse().len());
            assert(p1.len() <= p2.reverse().len());
        }
    }
}

} // verus!
