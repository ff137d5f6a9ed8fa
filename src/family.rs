//! Ingestion: one canonical record and one node per identifier, then one
//! labelled edge per relative reference that resolves.
use std::collections::HashMap;
use vstd::prelude::*;

use crate::graph::{
    add_edge, add_node, edge_count, graph_edges, graph_nodes, new_graph, EdgeView, PersonGraph, HANDLE_LIMIT,
};
use crate::person::{add_persons, merged, Person, PersonView, Relationship};
use crate::table::{
    column_of, csv_records_of, find_column, parsed_i32, parsed_opt_id, read_id, read_opt_id,
    read_records, table_view,
};

verus! {

broadcast use vstd::std_specs::hash::group_hash_axioms;

/// Most distinct persons a family holds: three edges each stay within `u32` handles.
pub const PERSON_LIMIT: usize = 1431655765;

/// Why a table could not be ingested. Row numbers count the header as row 0.
#[derive(Clone, Copy, PartialEq, Eq, Debug, Structural)]
pub enum IngestError {
    /// The `csv` reader rejected the input (encoding, unequal records), in
    /// the record given where the reader names one.
    Malformed(Option<u64>),
    /// The input holds no header row.
    MissingHeader,
    /// One of the five required columns is not named in the header.
    MissingColumn,
    /// The row has another number of fields than the header.
    WrongFieldCount(usize),
    /// An identifier field of the row is not a number.
    BadNumber(usize),
    /// More distinct persons than `PERSON_LIMIT`.
    TooManyPersons,
}

/// Positions of the five columns that the rows are read from.
#[derive(Clone, Copy, PartialEq, Eq, Debug, Structural)]
pub struct Columns {
    pub person_id: usize,
    pub spouse_id: usize,
    pub father_id: usize,
    pub mother_id: usize,
    pub name: usize,
}

/// The columns named `PersonID`, `SpouseID`, `FatherID`, `MotherID`, `Person`.
pub open spec fn header_columns(h: Seq<Seq<char>>) -> Option<Columns> {
    match (
        column_of(h, "PersonID"@),
        column_of(h, "SpouseID"@),
        column_of(h, "FatherID"@),
        column_of(h, "MotherID"@),
        column_of(h, "Person"@),
    ) {
        (Some(a), Some(b), Some(c), Some(d), Some(e)) => Some(
            Columns {
                person_id: a as usize,
                spouse_id: b as usize,
                father_id: c as usize,
                mother_id: d as usize,
                name: e as usize,
            },
        ),
        _ => None,
    }
}

/// Reads data row `k` of a table whose header has `width` fields.
pub open spec fn row_person(row: Seq<Seq<char>>, width: int, c: Columns, k: int) -> Result<
    PersonView,
    IngestError,
> {
    if row.len() != width {
        Err(IngestError::WrongFieldCount(k as usize))
    } else {
        match (
            parsed_i32(row[c.person_id as int]),
            parsed_opt_id(row[c.spouse_id as int]),
            parsed_opt_id(row[c.father_id as int]),
            parsed_opt_id(row[c.mother_id as int]),
        ) {
            (Some(id), Some(s), Some(f), Some(m)) => Ok(
                PersonView {
                    person_id: id,
                    spouse_id: s,
                    father_id: f,
                    mother_id: m,
                    name: row[c.name as int],
                },
            ),
            _ => Err(IngestError::BadNumber(k as usize)),
        }
    }
}

/// Position of the record with identifier `id`, or -1.
pub open spec fn find_id(recs: Seq<PersonView>, id: i32) -> int
    decreases recs.len(),
{
    if recs.len() == 0 {
        -1
    } else if recs.last().person_id == id {
        recs.len() - 1
    } else {
        find_id(recs.drop_last(), id)
    }
}

pub open spec fn unique_ids(recs: Seq<PersonView>) -> bool {
    forall|i: int, j: int|
        0 <= i < recs.len() && 0 <= j < recs.len() && i != j ==> recs[i].person_id
            != recs[j].person_id
}

/// Canonical records after data rows `1 ..= k`, in order of first appearance.
pub open spec fn ingest_rows(t: Seq<Seq<Seq<char>>>, c: Columns, k: int) -> Result<
    Seq<PersonView>,
    IngestError,
>
    decreases k,
{
    if k <= 0 {
        Ok(Seq::empty())
    } else {
        match ingest_rows(t, c, k - 1) {
            Err(e) => Err(e),
            Ok(recs) => match row_person(t[k], t[0].len() as int, c, k) {
                Err(e) => Err(e),
                Ok(p) => {
                    let h = find_id(recs, p.person_id);
                    if h >= 0 {
                        Ok(recs.update(h, merged(recs[h], p)))
                    } else if recs.len() >= PERSON_LIMIT {
                        Err(IngestError::TooManyPersons)
                    } else {
                        Ok(recs.push(p))
                    }
                },
            },
        }
    }
}

/// Canonical records of a whole table, header first.
pub open spec fn table_records(t: Seq<Seq<Seq<char>>>) -> Result<Seq<PersonView>, IngestError> {
    if t.len() == 0 {
        Err(IngestError::MissingHeader)
    } else {
        match header_columns(t[0]) {
            None => Err(IngestError::MissingColumn),
            Some(c) => ingest_rows(t, c, t.len() - 1),
        }
    }
}

/// The edge that record `h` declares through reference `r`, if `r` resolves.
pub open spec fn reference_edge(
    recs: Seq<PersonView>,
    h: int,
    r: Option<i32>,
    kind: Relationship,
) -> Seq<EdgeView> {
    match r {
        Some(x) => if find_id(recs, x) >= 0 {
            seq![(h, find_id(recs, x), kind)]
        } else {
            Seq::empty()
        },
        None => Seq::empty(),
    }
}

/// The edges that record `h` declares: spouse, father, mother.
pub open spec fn record_edges(recs: Seq<PersonView>, h: int) -> Seq<EdgeView> {
    reference_edge(recs, h, recs[h].spouse_id, Relationship::Spouse) + reference_edge(
        recs,
        h,
        recs[h].father_id,
        Relationship::Father,
    ) + reference_edge(recs, h, recs[h].mother_id, Relationship::Mother)
}

/// The edges declared by records `0 .. k`, in record order.
pub open spec fn edges_upto(recs: Seq<PersonView>, k: int) -> Seq<EdgeView>
    decreases k,
{
    if k <= 0 {
        Seq::empty()
    } else {
        edges_upto(recs, k - 1) + record_edges(recs, k - 1)
    }
}

pub open spec fn family_edges(recs: Seq<PersonView>) -> Seq<EdgeView> {
    edges_upto(recs, recs.len() as int)
}

pub proof fn lemma_find_id(recs: Seq<PersonView>, id: i32)
    ensures
        -1 <= find_id(recs, id) < recs.len(),
        find_id(recs, id) >= 0 ==> recs[find_id(recs, id)].person_id == id,
        find_id(recs, id) < 0 ==> forall|i: int| 0 <= i < recs.len() ==> recs[i].person_id != id,
        forall|i: int|
            0 <= i < recs.len() && unique_ids(recs) && recs[i].person_id == id ==> find_id(recs, id)
                == i,
    decreases recs.len(),
{
    if recs.len() > 0 {
        let d = recs.drop_last();
        lemma_find_id(d, id);
        assert forall|i: int| 0 <= i < recs.len() - 1 implies recs[i] == d[i] by {}
        if unique_ids(recs) {
            assert(unique_ids(d));
        }
    }
}

proof fn lemma_edges_upto_len(recs: Seq<PersonView>, k: int)
    requires
        0 <= k <= recs.len(),
    ensures
        edges_upto(recs, k).len() <= 3 * k,
    decreases k,
{
    if k > 0 {
        lemma_edges_upto_len(recs, k - 1);
    }
}

/// The index maps exactly the identifiers of the records to their positions.
pub open spec fn index_agrees(m: Map<i32, usize>, recs: Seq<PersonView>) -> bool {
    &&& forall|id: i32| #[trigger] m.contains_key(id) <==> find_id(recs, id) >= 0
    &&& forall|id: i32| #[trigger] m.contains_key(id) ==> m[id] == find_id(recs, id)
}

/// Identifier of each record, by position.
pub open spec fn ids_of(recs: Seq<PersonView>) -> Seq<i32> {
    recs.map_values(|p: PersonView| p.person_id)
}

proof fn lemma_find_id_same_ids(a: Seq<PersonView>, b: Seq<PersonView>, id: i32)
    requires
        ids_of(a) == ids_of(b),
    ensures
        find_id(a, id) == find_id(b, id),
    decreases a.len(),
{
    assert(a.len() == ids_of(a).len());
    assert(b.len() == ids_of(b).len());
    if a.len() > 0 {
        assert(a.last().person_id == ids_of(a)[a.len() - 1]);
        assert(b.last().person_id == ids_of(b)[b.len() - 1]);
        assert(ids_of(a.drop_last()) =~= ids_of(a).drop_last());
        assert(ids_of(b.drop_last()) =~= ids_of(b).drop_last());
        lemma_find_id_same_ids(a.drop_last(), b.drop_last(), id);
    }
}

proof fn lemma_ingest_error_stays(t: Seq<Seq<Seq<char>>>, c: Columns, k: int, m: int)
    requires
        k <= m,
        ingest_rows(t, c, k) is Err,
    ensures
        ingest_rows(t, c, m) == ingest_rows(t, c, k),
    decreases m - k,
{
    if k < m {
        lemma_ingest_error_stays(t, c, k, m - 1);
    }
}

/// The records read from a table, the graph over them, and the index from
/// identifier to node handle. Node handle `h` addresses `persons[h]`.
#[derive(Debug)]
pub struct Family {
    pub graph: PersonGraph,
    pub persons: Vec<Person>,
    pub handles: HashMap<i32, usize>,
}

impl Family {
    pub open spec fn records(&self) -> Seq<PersonView> {
        self.persons@.map_values(|p: Person| p@)
    }

    /// Handles and records agree, every identifier has one node, and the
    /// edges are exactly those the records declare.
    pub open spec fn wf(&self) -> bool {
        let recs = self.records();
        &&& recs.len() <= PERSON_LIMIT
        &&& graph_nodes(self.graph) == ids_of(recs)
        &&& unique_ids(recs)
        &&& index_agrees(self.handles@, recs)
        &&& graph_edges(self.graph) == family_edges(recs)
        &&& graph_edges(self.graph).len() <= HANDLE_LIMIT
    }

    /// Number of nodes: one per distinct identifier.
    pub fn node_count(&self) -> (r: usize)
        requires
            self.wf(),
        ensures
            r == graph_nodes(self.graph).len(),
            r == self.records().len(),
    {
        self.persons.len()
    }

    /// Number of edges: one per resolved relative reference.
    pub fn edge_count(&self) -> (r: usize)
        ensures
            r == graph_edges(self.graph).len(),
    {
        edge_count(&self.graph)
    }

    /// The canonical record of an identifier.
    pub fn person(&self, id: i32) -> (r: Option<&Person>)
        requires
            self.wf(),
        ensures
            match r {
                Some(p) => find_id(self.records(), id) >= 0 && p@ == self.records()[find_id(
                    self.records(),
                    id,
                )],
                None => find_id(self.records(), id) < 0,
            },
    {
        proof {
            lemma_find_id(self.records(), id);
        }
        match self.handles.get(&id) {
            Some(h) => Some(&self.persons[*h]),
            None => None,
        }
    }

    /// The node handle of an identifier.
    pub fn handle_of(&self, id: i32) -> (r: Option<usize>)
        requires
            self.wf(),
        ensures
            r == (if find_id(self.records(), id) >= 0 {
                Some(find_id(self.records(), id) as usize)
            } else {
                None
            }),
    {
        match self.handles.get(&id) {
            Some(h) => Some(*h),
            None => None,
        }
    }
}

/// Every identifier of a family has exactly one node, that node carries the
/// identifier, and every node belongs to exactly one identifier.
pub proof fn lemma_node_stability(family: Family)
    requires
        family.wf(),
    ensures
        forall|id: i32| #[trigger]
            family.handles@.contains_key(id) ==> family.handles@[id] < graph_nodes(family.graph).len()
                && graph_nodes(family.graph)[family.handles@[id] as int] == id,
        forall|x: i32, y: i32|
            family.handles@.contains_key(x) && family.handles@.contains_key(y)
                && #[trigger] family.handles@[x] == #[trigger] family.handles@[y] ==> x == y,
        forall|h: int|
            0 <= h < graph_nodes(family.graph).len() ==> family.handles@.contains_key(
                #[trigger] graph_nodes(family.graph)[h],
            ) && family.handles@[graph_nodes(family.graph)[h]] == h,
{
    let recs = family.records();
    assert forall|id: i32| #[trigger] family.handles@.contains_key(id) implies family.handles@[id]
        < graph_nodes(family.graph).len() && graph_nodes(family.graph)[family.handles@[id] as int]
        == id by {
        lemma_find_id(recs, id);
    }
    assert forall|x: i32, y: i32|
        family.handles@.contains_key(x) && family.handles@.contains_key(y)
            && #[trigger] family.handles@[x] == #[trigger] family.handles@[y] implies x == y by {
        lemma_find_id(recs, x);
        lemma_find_id(recs, y);
    }
    assert forall|h: int| 0 <= h < graph_nodes(family.graph).len() implies family.handles@.contains_key(
        #[trigger] graph_nodes(family.graph)[h],
    ) && family.handles@[graph_nodes(family.graph)[h]] == h by {
        let id = graph_nodes(family.graph)[h];
        assert(ids_of(recs)[h] == recs[h].person_id);
        lemma_find_id(recs, id);
        assert(find_id(recs, id) == h);
        assert(family.handles@.contains_key(id));
    }
}

/// A reference to an identifier that no record carries adds no edge.
pub proof fn lemma_dangling_reference(recs: Seq<PersonView>, h: int, x: i32, kind: Relationship)
    requires
        forall|i: int| 0 <= i < recs.len() ==> recs[i].person_id != x,
    ensures
        reference_edge(recs, h, Some(x), kind) == Seq::<EdgeView>::empty(),
{
    lemma_find_id(recs, x);
}

/// Identifiers of the data rows `1 ..= k` that read as persons.
pub open spec fn row_ids(t: Seq<Seq<Seq<char>>>, c: Columns, k: int) -> Set<i32>
    decreases k,
{
    if k <= 0 {
        Set::empty()
    } else {
        match row_person(t[k], t[0].len() as int, c, k) {
            Ok(p) => row_ids(t, c, k - 1).insert(p.person_id),
            Err(_) => row_ids(t, c, k - 1),
        }
    }
}

/// Identifiers of all data rows of a table.
pub open spec fn table_ids(t: Seq<Seq<Seq<char>>>) -> Set<i32> {
    if t.len() == 0 {
        Set::empty()
    } else {
        match header_columns(t[0]) {
            Some(c) => row_ids(t, c, t.len() - 1),
            None => Set::empty(),
        }
    }
}

proof fn lemma_ingest_ids(t: Seq<Seq<Seq<char>>>, c: Columns, k: int)
    requires
        ingest_rows(t, c, k) is Ok,
    ensures
        ids_of(ingest_rows(t, c, k)->Ok_0).to_set() == row_ids(t, c, k),
    decreases k,
{
    if k > 0 {
        lemma_ingest_ids(t, c, k - 1);
        let recs = ingest_rows(t, c, k - 1)->Ok_0;
        let p = row_person(t[k], t[0].len() as int, c, k)->Ok_0;
        let now = ingest_rows(t, c, k)->Ok_0;
        lemma_find_id(recs, p.person_id);
        let h = find_id(recs, p.person_id);
        if h >= 0 {
            assert(ids_of(now) =~= ids_of(recs));
            assert(ids_of(recs)[h] == p.person_id);
            assert(ids_of(now).to_set() =~= row_ids(t, c, k));
        } else {
            assert(ids_of(now) =~= ids_of(recs).push(p.person_id));
            assert(ids_of(now).to_set() =~= row_ids(t, c, k)) by {
                assert forall|x: i32| ids_of(now).contains(x) <==> row_ids(t, c, k).contains(x) by {
                    if ids_of(recs).contains(x) {
                        let i = choose|i: int| 0 <= i < ids_of(recs).len() && ids_of(recs)[i] == x;
                        assert(ids_of(now)[i] == x);
                    }
                    if x == p.person_id {
                        assert(ids_of(now)[recs.len() as int] == x);
                    }
                }
            }
        }
    }
}

/// However many rows name an identifier, a family read from a table has
/// exactly one node per distinct identifier of its rows: the index covers
/// those identifiers and no others, the node count is their number, each
/// node carries its identifier, and no two identifiers share a node.
pub proof fn lemma_one_node_per_identifier(t: Seq<Seq<Seq<char>>>, family: Family)
    requires
        family.wf(),
        table_records(t) == Ok::<Seq<PersonView>, IngestError>(family.records()),
    ensures
        family.handles@.dom() == table_ids(t),
        graph_nodes(family.graph).len() == table_ids(t).len(),
        forall|id: i32| #[trigger]
            family.handles@.contains_key(id) ==> graph_nodes(family.graph)[family.handles@[id] as int]
                == id,
        forall|x: i32, y: i32|
            family.handles@.contains_key(x) && family.handles@.contains_key(y)
                && #[trigger] family.handles@[x] == #[trigger] family.handles@[y] ==> x == y,
{
    let recs = family.records();
    let c = header_columns(t[0])->0;
    lemma_ingest_ids(t, c, t.len() - 1);
    lemma_node_stability(family);
    assert(family.handles@.dom() =~= ids_of(recs).to_set()) by {
        assert forall|id: i32| family.handles@.dom().contains(id) <==> ids_of(recs).contains(id) by {
            lemma_find_id(recs, id);
            if ids_of(recs).contains(id) {
                let i = choose|i: int| 0 <= i < ids_of(recs).len() && ids_of(recs)[i] == id;
                assert(recs[i].person_id == id);
            }
            if family.handles@.contains_key(id) {
                assert(ids_of(recs)[find_id(recs, id)] == id);
            }
        }
    }
    assert(ids_of(recs).no_duplicates()) by {
        assert forall|i: int, j: int|
            0 <= i < ids_of(recs).len() && 0 <= j < ids_of(recs).len() && i != j implies ids_of(recs)[i]
            != ids_of(recs)[j] by {
            assert(ids_of(recs)[i] == recs[i].person_id);
            assert(ids_of(recs)[j] == recs[j].person_id);
        }
    }
    ids_of(recs).unique_seq_to_set();
}

/// Each present reference of each record names an identifier that no record carries.
pub open spec fn all_references_dangle(recs: Seq<PersonView>) -> bool {
    forall|h: int, i: int|
        #![trigger recs[h], recs[i]]
        0 <= h < recs.len() && 0 <= i < recs.len() ==> {
            &&& recs[h].spouse_id != Some(recs[i].person_id)
            &&& recs[h].father_id != Some(recs[i].person_id)
            &&& recs[h].mother_id != Some(recs[i].person_id)
        }
}

/// Where every reference dangles, the records declare no edge at all, so
/// `add_graph_edges` leaves the edge count as it was.
pub proof fn lemma_all_dangling_adds_no_edges(recs: Seq<PersonView>, k: int)
    requires
        0 <= k <= recs.len(),
        all_references_dangle(recs),
    ensures
        edges_upto(recs, k) == Seq::<EdgeView>::empty(),
    decreases k,
{
    if k > 0 {
        lemma_all_dangling_adds_no_edges(recs, k - 1);
        let h = k - 1;
        lemma_find_id(recs, recs[h].spouse_id.unwrap_or(0));
        lemma_find_id(recs, recs[h].father_id.unwrap_or(0));
        lemma_find_id(recs, recs[h].mother_id.unwrap_or(0));
        assert(record_edges(recs, h) =~= Seq::<EdgeView>::empty());
        assert(edges_upto(recs, k) =~= Seq::<EdgeView>::empty());
    }
}

/// Every edge of a family joins two of its records, and the edges that a
/// record declares are those of its references that resolve.
pub proof fn lemma_edges_resolve(recs: Seq<PersonView>, k: int)
    requires
        0 <= k <= recs.len(),
    ensures
        forall|e: int|
            0 <= e < edges_upto(recs, k).len() ==> 0 <= (#[trigger] edges_upto(recs, k)[e]).0 < k
                && 0 <= edges_upto(recs, k)[e].1 < recs.len(),
    decreases k,
{
    if k > 0 {
        lemma_edges_resolve(recs, k - 1);
        let h = k - 1;
        lemma_find_id(recs, recs[h].spouse_id.unwrap_or(0));
        lemma_find_id(recs, recs[h].father_id.unwrap_or(0));
        lemma_find_id(recs, recs[h].mother_id.unwrap_or(0));
        let prev = edges_upto(recs, k - 1);
        let all = edges_upto(recs, k);
        assert forall|e: int| 0 <= e < all.len() implies 0 <= (#[trigger] all[e]).0 < k && 0 <= all[e].1
            < recs.len() by {
            if e >= prev.len() {
                let r = record_edges(recs, h);
                assert(all[e] == r[e - prev.len()]);
            }
        }
    }
}

/// Reads the positions of the five columns from the header row.
fn header_of(header: &Vec<String>) -> (r: Option<Columns>)
    ensures
        r == header_columns(header@.map_values(|f: String| f@)),
        r matches Some(c) ==> c.person_id < header.len() && c.spouse_id < header.len()
            && c.father_id < header.len() && c.mother_id < header.len() && c.name < header.len(),
{
    let a = find_column(header, &String::from_str("PersonID"));
    let b = find_column(header, &String::from_str("SpouseID"));
    let c = find_column(header, &String::from_str("FatherID"));
    let d = find_column(header, &String::from_str("MotherID"));
    let e = find_column(header, &String::from_str("Person"));
    match (a, b, c, d, e) {
        (Some(a), Some(b), Some(c), Some(d), Some(e)) => Some(
            Columns { person_id: a, spouse_id: b, father_id: c, mother_id: d, name: e },
        ),
        _ => None,
    }
}

/// Reads data row `k` into a person.
fn parse_row(row: &Vec<String>, width: usize, c: Columns, k: usize) -> (r: Result<Person, IngestError>)
    requires
        c.person_id < width,
        c.spouse_id < width,
        c.father_id < width,
        c.mother_id < width,
        c.name < width,
    ensures
        match r {
            Ok(p) => row_person(row@.map_values(|f: String| f@), width as int, c, k as int) == Ok::<
                PersonView,
                IngestError,
            >(p@),
            Err(e) => row_person(row@.map_values(|f: String| f@), width as int, c, k as int)
                == Err::<PersonView, IngestError>(e),
        },
{
    if row.len() != width {
        return Err(IngestError::WrongFieldCount(k));
    }
    let id = read_id(&row[c.person_id]);
    let s = read_opt_id(&row[c.spouse_id]);
    let f = read_opt_id(&row[c.father_id]);
    let m = read_opt_id(&row[c.mother_id]);
    match (id, s, f, m) {
        (Some(id), Some(s), Some(f), Some(m)) => Ok(
            Person {
                person_id: id,
                spouse_id: s,
                father_id: f,
                mother_id: m,
                name: row[c.name].clone(),
            },
        ),
        _ => Err(IngestError::BadNumber(k)),
    }
}

/// Adds the edge that record `h` declares through `r`, where `r` resolves.
fn add_reference(
    graph: &mut PersonGraph,
    handles: &HashMap<i32, usize>,
    h: usize,
    r: Option<i32>,
    kind: Relationship,
    recs: Ghost<Seq<PersonView>>,
)
    requires
        h < recs@.len(),
        index_agrees(handles@, recs@),
        graph_nodes(*old(graph)).len() == recs@.len(),
        recs@.len() <= PERSON_LIMIT,
        graph_edges(*old(graph)).len() < HANDLE_LIMIT,
    ensures
        graph_nodes(*final(graph)) == graph_nodes(*old(graph)),
        graph_edges(*final(graph)) == graph_edges(*old(graph)) + reference_edge(recs@, h as int, r, kind),
{
    if let Some(relative_id) = r {
        proof {
            lemma_find_id(recs@, relative_id);
        }
        if let Some(relative) = handles.get(&relative_id) {
            add_edge(graph, h, *relative, kind);
            assert(graph_edges(*graph) =~= graph_edges(*old(graph)) + reference_edge(recs@, h as int, r, kind));
        } else {
            assert(graph_edges(*graph) =~= graph_edges(*old(graph)) + reference_edge(recs@, h as int, r, kind));
        }
    } else {
        assert(graph_edges(*graph) =~= graph_edges(*old(graph)) + reference_edge(recs@, h as int, r, kind));
    }
}

/// Adds one edge for every relative reference of every record that resolves
/// to a record, labelled with the kind of the reference, in record order.
/// References to identifiers outside the records add nothing.
pub fn add_graph_edges(graph: &mut PersonGraph, persons: &Vec<Person>, handles: &HashMap<i32, usize>)
    requires
        persons@.len() <= PERSON_LIMIT,
        graph_nodes(*old(graph)).len() == persons@.len(),
        graph_edges(*old(graph)).len() + 3 * persons@.len() <= HANDLE_LIMIT,
        index_agrees(handles@, persons@.map_values(|p: Person| p@)),
    ensures
        graph_nodes(*final(graph)) == graph_nodes(*old(graph)),
        graph_edges(*final(graph)) == graph_edges(*old(graph)) + family_edges(
            persons@.map_values(|p: Person| p@),
        ),
{
    let ghost recs = persons@.map_values(|p: Person| p@);
    let mut h: usize = 0;
    assert(graph_edges(*graph) =~= graph_edges(*old(graph)) + edges_upto(recs, 0));
    while h < persons.len()
        invariant
            h <= persons@.len(),
            recs == persons@.map_values(|p: Person| p@),
            persons@.len() <= PERSON_LIMIT,
            index_agrees(handles@, recs),
            graph_nodes(*graph) == graph_nodes(*old(graph)),
            graph_nodes(*graph).len() == persons@.len(),
            graph_edges(*old(graph)).len() + 3 * persons@.len() <= HANDLE_LIMIT,
            graph_edges(*graph) == graph_edges(*old(graph)) + edges_upto(recs, h as int),
        decreases persons@.len() - h,
    {
        proof {
            lemma_edges_upto_len(recs, h as int);
        }
        let ghost start = graph_edges(*graph);
        add_reference(graph, handles, h, persons[h].spouse_id, Relationship::Spouse, Ghost(recs));
        add_reference(graph, handles, h, persons[h].father_id, Relationship::Father, Ghost(recs));
        add_reference(graph, handles, h, persons[h].mother_id, Relationship::Mother, Ghost(recs));
        assert(graph_edges(*graph) =~= graph_edges(*old(graph)) + edges_upto(recs, h + 1));
        h = h + 1;
    }
}

/// Builds the family of a table given as records of fields, header first:
/// the canonical records of `table_records`, one node each, and their edges.
pub fn family_from_records(records: &Vec<Vec<String>>) -> (r: Result<Family, IngestError>)
    ensures
        match table_records(table_view(records@)) {
            Ok(recs) => r is Ok && r->Ok_0.wf() && r->Ok_0.records() == recs,
            Err(e) => r == Err::<Family, IngestError>(e),
        },
{
    let ghost tv = table_view(records@);
    if records.len() == 0 {
        return Err(IngestError::MissingHeader);
    }
    let header = &records[0];
    assert(tv[0] =~= header@.map_values(|f: String| f@));
    let cols = match header_of(header) {
        Some(c) => c,
        None => {
            return Err(IngestError::MissingColumn);
        },
    };
    let mut graph = new_graph();
    let mut persons: Vec<Person> = Vec::new();
    let mut handles: HashMap<i32, usize> = HashMap::new();
    let mut k: usize = 1;
    proof {
        assert(persons@.map_values(|p: Person| p@) =~= Seq::<PersonView>::empty());
        assert(ids_of(Seq::<PersonView>::empty()) =~= Seq::<i32>::empty());
    }
    while k < records.len()
        invariant
            1 <= k <= records@.len(),
            tv == table_view(records@),
            header == &records@[0],
            header_columns(tv[0]) == Some(cols),
            cols.person_id < header@.len(),
            cols.spouse_id < header@.len(),
            cols.father_id < header@.len(),
            cols.mother_id < header@.len(),
            cols.name < header@.len(),
            ingest_rows(tv, cols, k - 1) == Ok::<Seq<PersonView>, IngestError>(
                persons@.map_values(|p: Person| p@),
            ),
            persons@.len() <= PERSON_LIMIT,
            graph_nodes(graph) == ids_of(persons@.map_values(|p: Person| p@)),
            graph_edges(graph) == Seq::<EdgeView>::empty(),
            unique_ids(persons@.map_values(|p: Person| p@)),
            index_agrees(handles@, persons@.map_values(|p: Person| p@)),
        decreases records@.len() - k,
    {
        let ghost recs = persons@.map_values(|p: Person| p@);
        assert(tv[k as int] =~= records@[k as int]@.map_values(|f: String| f@));
        assert(tv[0].len() == header@.len());
        let p = match parse_row(&records[k], header.len(), cols, k) {
            Ok(p) => p,
            Err(e) => {
                proof {
                    lemma_ingest_error_stays(tv, cols, k as int, tv.len() - 1);
                }
                return Err(e);
            },
        };
        let id = p.person_id;
        proof {
            lemma_find_id(recs, id);
        }
        match handles.get(&id) {
            Some(h) => {
                let h = *h;
                add_persons(&mut persons[h], &p);
                proof {
                    let nrecs = persons@.map_values(|p: Person| p@);
                    assert(nrecs =~= recs.update(h as int, merged(recs[h as int], p@)));
                    assert(ids_of(nrecs) =~= ids_of(recs));
                    assert forall|x: i32| #[trigger] find_id(nrecs, x) == find_id(recs, x) by {
                        lemma_find_id_same_ids(nrecs, recs, x);
                    }
                    assert(unique_ids(nrecs)) by {
                        assert forall|i: int, j: int|
                            0 <= i < nrecs.len() && 0 <= j < nrecs.len() && i != j implies nrecs[i].person_id
                            != nrecs[j].person_id by {
                            assert(ids_of(nrecs)[i] == ids_of(recs)[i]);
                            assert(ids_of(nrecs)[j] == ids_of(recs)[j]);
                        }
                    }
                }
            },
            None => {
                if persons.len() >= PERSON_LIMIT {
                    proof {
                        lemma_ingest_error_stays(tv, cols, k as int, tv.len() - 1);
                    }
                    return Err(IngestError::TooManyPersons);
                }
                let h = add_node(&mut graph, id);
                handles.insert(id, h);
                persons.push(p);
                proof {
                    let nrecs = persons@.map_values(|p: Person| p@);
                    assert(nrecs =~= recs.push(p@));
                    assert(ids_of(nrecs) =~= ids_of(recs).push(id));
                    assert(nrecs.drop_last() =~= recs);
                    assert forall|x: i32| x != id implies #[trigger] find_id(nrecs, x) == find_id(recs, x) by {}
                    assert(find_id(nrecs, id) == recs.len());
                }
            },
        }
        k = k + 1;
    }
    proof {
        lemma_edges_upto_len(persons@.map_values(|p: Person| p@), 0);
    }
    add_graph_edges(&mut graph, &persons, &handles);
    assert(graph_edges(graph) =~= family_edges(persons@.map_values(|p: Person| p@)));
    proof {
        lemma_edges_upto_len(persons@.map_values(|p: Person| p@), persons@.len() as int);
    }
    let family = Family { graph, persons, handles };
    Ok(family)
}

/// Reads a `;`-delimited table from bytes and builds its family.
pub fn extract_graph_from_csv(b: &[u8]) -> (r: Result<Family, IngestError>)
    ensures
        match csv_records_of(b@) {
            Err(pos) => r == Err::<Family, IngestError>(IngestError::Malformed(pos)),
            Ok(t) => match table_records(t) {
                Ok(recs) => r is Ok && r->Ok_0.wf() && r->Ok_0.records() == recs,
                Err(e) => r == Err::<Family, IngestError>(e),
            },
        },
{
    match read_records(b) {
        Ok(records) => family_from_records(&records),
        Err(pos) => Err(IngestError::Malformed(pos)),
    }
}

} // verus!
