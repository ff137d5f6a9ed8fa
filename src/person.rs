//! Person records and the rule that merges rows for one identifier.
use vstd::prelude::*;

verus! {

/// The kind of a reference that one record makes to another.
#[derive(Clone, Copy, PartialEq, Eq, Debug, Structural)]
pub enum Relationship {
    Spouse,
    Father,
    Mother,
}

/// One row of the family table, or the canonical record of an identifier.
#[derive(Debug)]
pub struct Person {
    pub person_id: i32,
    pub spouse_id: Option<i32>,
    pub father_id: Option<i32>,
    pub mother_id: Option<i32>,
    /// Display name of the person.
    pub name: String,
}

/// Mathematical value of a `Person`.
pub struct PersonView {
    pub person_id: i32,
    pub spouse_id: Option<i32>,
    pub father_id: Option<i32>,
    pub mother_id: Option<i32>,
    pub name: Seq<char>,
}

impl View for Person {
    type V = PersonView;

    open spec fn view(&self) -> PersonView {
        PersonView {
            person_id: self.person_id,
            spouse_id: self.spouse_id,
            father_id: self.father_id,
            mother_id: self.mother_id,
            name: self.name@,
        }
    }
}

/// A present value in a newer row wins; an absent one keeps what was known.
pub open spec fn merge_field(known: Option<i32>, newer: Option<i32>) -> Option<i32> {
    match newer {
        Some(v) => Some(v),
        None => known,
    }
}

/// The canonical record after a further row for the same identifier.
pub open spec fn merged(known: PersonView, newer: PersonView) -> PersonView {
    PersonView {
        person_id: known.person_id,
        spouse_id: merge_field(known.spouse_id, newer.spouse_id),
        father_id: merge_field(known.father_id, newer.father_id),
        mother_id: merge_field(known.mother_id, newer.mother_id),
        name: known.name,
    }
}

/// Two optional values of which at most one is present.
pub open spec fn disjoint_field(a: Option<i32>, b: Option<i32>) -> bool {
    a is None || b is None
}

/// Two rows whose present relative fields do not overlap.
pub open spec fn disjoint_rows(a: PersonView, b: PersonView) -> bool {
    &&& disjoint_field(a.spouse_id, b.spouse_id)
    &&& disjoint_field(a.father_id, b.father_id)
    &&& disjoint_field(a.mother_id, b.mother_id)
}

/// Merges the present relative fields of `person` into the record `heritage`.
pub fn add_persons(heritage: &mut Person, person: &Person)
    ensures
        final(heritage)@ == merged(old(heritage)@, person@),
{
    if person.spouse_id.is_some() {
        heritage.spouse_id = person.spouse_id;
    }
    if person.father_id.is_some() {
        heritage.father_id = person.father_id;
    }
    if person.mother_id.is_some() {
        heritage.mother_id = person.mother_id;
    }
}

/// Merging two rows with disjoint present fields gives the same record in
/// either order, and that record holds every field that either row supplied.
pub proof fn lemma_merge_order_irrelevant(known: PersonView, a: PersonView, b: PersonView)
    requires
        disjoint_rows(a, b),
    ensures
        merged(merged(known, a), b) == merged(merged(known, b), a),
        a.spouse_id is Some ==> merged(merged(known, a), b).spouse_id == a.spouse_id,
        a.father_id is Some ==> merged(merged(known, a), b).father_id == a.father_id,
        a.mother_id is Some ==> merged(merged(known, a), b).mother_id == a.mother_id,
        b.spouse_id is Some ==> merged(merged(known, a), b).spouse_id == b.spouse_id,
        b.father_id is Some ==> merged(merged(known, a), b).father_id == b.father_id,
        b.mother_id is Some ==> merged(merged(known, a), b).mother_id == b.mother_id,
{
}

/// Merging the same row twice changes nothing beyond merging it once.
pub proof fn lemma_merge_idempotent(known: PersonView, a: PersonView)
    ensures
        merged(merged(known, a), a) == merged(known, a),
{
}

} // verus!
