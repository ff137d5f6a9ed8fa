use heritage_pathfind::family::{add_graph_edges, extract_graph_from_csv, family_from_records, Family, IngestError};
use heritage_pathfind::person::{add_persons, Person, Relationship};
use heritage_pathfind::render::fmt_person_relationships;
use heritage_pathfind::resolve::{get_shortest_path, relationships_along, PathError, PersonRelationship};

// Example graph:
// [F?] [M5]
//    | |
//    [F3] [M4]
//       | |
//       [F2]  [M6]
//          | |
//          [?1]
const CSV: &str = "PersonID;SpouseID;FatherID;MotherID;Person
1;;2;6;?1
2;6;3;4;F2
3;4;;5;F3
4;3;;;M4
5;;;;M5
6;2;;;M6";

fn load(text: &str) -> Family {
    extract_graph_from_csv(text.as_bytes()).unwrap()
}

fn step(id: i32, name: &str, relationship: Option<Relationship>) -> PersonRelationship {
    PersonRelationship { id, name: name.to_string(), relationship }
}

fn same_steps(a: &[PersonRelationship], b: &[PersonRelationship]) -> bool {
    a.len() == b.len()
        && a.iter().zip(b.iter()).all(|(x, y)| {
            x.id == y.id && x.name == y.name && x.relationship == y.relationship
        })
}

fn row(fields: &[&str]) -> Vec<String> {
    fields.iter().map(|f| f.to_string()).collect()
}

#[test]
fn parse() {
    let family = load(CSV);

    assert_eq!(family.node_count(), 6);
    assert_eq!(family.edge_count(), 9);
    assert_eq!(family.handles.len(), 6);

    let person = family.person(1).unwrap();
    assert_eq!(person.person_id, 1);
    assert_eq!(person.spouse_id, None);
    assert_eq!(person.father_id, Some(2));
    assert_eq!(person.mother_id, Some(6));
    assert_eq!(person.name, "?1");
}

#[test]
fn pathfind() {
    let family = load(CSV);

    let path_a = get_shortest_path(&family, 1, 5).unwrap();
    let expected_path_a = vec![
        step(5, "M5", Some(Relationship::Mother)),
        step(3, "F3", Some(Relationship::Father)),
        step(2, "F2", Some(Relationship::Father)),
        step(1, "?1", None),
    ];
    assert!(same_steps(&path_a, &expected_path_a));

    let path_b = get_shortest_path(&family, 1, 6).unwrap();
    let expected_path_b = vec![step(6, "M6", Some(Relationship::Mother)), step(1, "?1", None)];
    assert!(same_steps(&path_b, &expected_path_b));
}

#[test]
fn rendered_chain() {
    let family = load(CSV);
    let path = get_shortest_path(&family, 1, 5).unwrap();
    assert_eq!(
        fmt_person_relationships(&path),
        "M5(5) is Mother of\nF3(3) is Father of\nF2(2) is Father of\n?1(1)"
    );
}

#[test]
fn rendered_single_and_empty() {
    assert_eq!(fmt_person_relationships(&[]), "");
    assert_eq!(fmt_person_relationships(&[step(-12, "Ann", None)]), "Ann(-12)");
    assert_eq!(step(40, "Bo", Some(Relationship::Spouse)).to_string(), "Bo(40) is Spouse of");
}

#[test]
fn same_person_is_a_chain_of_one() {
    let family = load(CSV);
    let path = get_shortest_path(&family, 4, 4).unwrap();
    assert!(same_steps(&path, &[step(4, "M4", None)]));
}

#[test]
fn merge_keeps_known_fields_in_either_order() {
    let first = "PersonID;SpouseID;FatherID;MotherID;Person\n7;;8;;A\n7;9;;;A\n";
    let second = "PersonID;SpouseID;FatherID;MotherID;Person\n7;9;;;A\n7;;8;;A\n";
    for text in [first, second] {
        let family = load(text);
        assert_eq!(family.node_count(), 1);
        let p = family.person(7).unwrap();
        assert_eq!(p.spouse_id, Some(9));
        assert_eq!(p.father_id, Some(8));
        assert_eq!(p.mother_id, None);
    }
}

#[test]
fn merge_newer_present_value_wins() {
    let mut known = Person { person_id: 1, spouse_id: Some(2), father_id: Some(3), mother_id: None, name: "X".to_string() };
    let newer = Person { person_id: 1, spouse_id: None, father_id: Some(5), mother_id: Some(6), name: "Y".to_string() };
    add_persons(&mut known, &newer);
    assert_eq!(known.spouse_id, Some(2));
    assert_eq!(known.father_id, Some(5));
    assert_eq!(known.mother_id, Some(6));
    assert_eq!(known.name, "X");
}

#[test]
fn one_node_per_identifier() {
    let text = "PersonID;SpouseID;FatherID;MotherID;Person\n1;2;;;A\n2;1;;;B\n1;;;;A\n2;;;;B\n";
    let family = load(text);
    assert_eq!(family.node_count(), 2);
    assert_eq!(family.handles.len(), 2);
    assert_ne!(family.handle_of(1), family.handle_of(2));
    // Both spouse declarations become edges.
    assert_eq!(family.edge_count(), 2);
}

#[test]
fn dangling_reference_is_ignored() {
    let text = "PersonID;SpouseID;FatherID;MotherID;Person\n1;99;98;97;A\n2;;1;;B\n";
    let family = load(text);
    assert_eq!(family.node_count(), 2);
    assert_eq!(family.edge_count(), 1);
    assert_eq!(family.person(1).unwrap().father_id, Some(98));
}

#[test]
fn unknown_identifier() {
    let family = load(CSV);
    assert_eq!(get_shortest_path(&family, 42, 1).unwrap_err(), PathError::UnknownPerson(42));
    assert_eq!(get_shortest_path(&family, 1, 43).unwrap_err(), PathError::UnknownPerson(43));
    assert_eq!(get_shortest_path(&family, 44, 45).unwrap_err(), PathError::UnknownPerson(44));
}

#[test]
fn no_relationship() {
    let text = "PersonID;SpouseID;FatherID;MotherID;Person\n1;;2;;A\n2;;;;B\n3;;;;C\n";
    let family = load(text);
    assert_eq!(get_shortest_path(&family, 1, 3).unwrap_err(), PathError::NoRelationship);
    assert_eq!(get_shortest_path(&family, 3, 2).unwrap_err(), PathError::NoRelationship);
}

#[test]
fn symmetric_queries() {
    let family = load(CSV);
    let there = get_shortest_path(&family, 1, 5).unwrap();
    let back = get_shortest_path(&family, 5, 1).unwrap();
    assert_eq!(there.len(), back.len());
    assert_eq!(back.first().unwrap().id, 1);
    assert_eq!(back.last().unwrap().id, 5);
    // Labels stay as declared: 1 declared 2 its father.
    assert_eq!(back[0].relationship, Some(Relationship::Father));
}

#[test]
fn extra_and_reordered_columns() {
    let text = "Person;Note;MotherID;FatherID;SpouseID;PersonID\nA;x;;2;;1\nB;y;;;;2\n";
    let family = load(text);
    assert_eq!(family.person(1).unwrap().father_id, Some(2));
    assert_eq!(family.person(2).unwrap().name, "B");
    assert_eq!(family.edge_count(), 1);
}

#[test]
fn ingest_errors() {
    assert_eq!(extract_graph_from_csv(b"").unwrap_err(), IngestError::MissingHeader);
    assert_eq!(
        extract_graph_from_csv(b"PersonID;SpouseID;FatherID;Person\n1;;;A\n").unwrap_err(),
        IngestError::MissingColumn
    );
    assert_eq!(
        extract_graph_from_csv(b"PersonID;SpouseID;FatherID;MotherID;Person\n1;;;;A\nx;;;;B\n").unwrap_err(),
        IngestError::BadNumber(2)
    );
    assert_eq!(
        extract_graph_from_csv(b"PersonID;SpouseID;FatherID;MotherID;Person\n1;;-;;A\n").unwrap_err(),
        IngestError::BadNumber(1)
    );
    assert_eq!(
        extract_graph_from_csv(b"PersonID;SpouseID;FatherID;MotherID;Person\n1;;;A\n").unwrap_err(),
        IngestError::Malformed(Some(1))
    );
    assert_eq!(
        extract_graph_from_csv(b"PersonID;SpouseID;FatherID;MotherID;Person\n1;;;;\xff\n").unwrap_err(),
        IngestError::Malformed(Some(1))
    );
    let records = vec![
        row(&["PersonID", "SpouseID", "FatherID", "MotherID", "Person"]),
        row(&["1", "", "", "", "A"]),
        row(&["2", "", ""]),
    ];
    assert_eq!(family_from_records(&records).unwrap_err(), IngestError::WrongFieldCount(2));
}

#[test]
fn signed_identifiers() {
    let text = "PersonID;SpouseID;FatherID;MotherID;Person\n-3;;+7;;A\n7;;;;B\n";
    let family = load(text);
    assert_eq!(family.person(-3).unwrap().father_id, Some(7));
    let path = get_shortest_path(&family, -3, 7).unwrap();
    assert_eq!(fmt_person_relationships(&path), "B(7) is Father of\nA(-3)");
}

#[test]
fn header_only_table_is_empty() {
    let family = load("PersonID;SpouseID;FatherID;MotherID;Person\n");
    assert_eq!(family.node_count(), 0);
    assert_eq!(family.edge_count(), 0);
}

#[test]
fn edges_are_appended_once_per_resolved_reference() {
    let mut family = load(CSV);
    add_graph_edges(&mut family.graph, &family.persons, &family.handles);
    assert_eq!(family.edge_count(), 18);
    assert_eq!(family.graph.node_count(), 6);
}

#[test]
fn all_dangling_references_add_no_edges() {
    let text = "PersonID;SpouseID;FatherID;MotherID;Person\n1;10;11;12;A\n2;20;21;22;B\n";
    let mut family = load(text);
    assert_eq!(family.edge_count(), 0);
    add_graph_edges(&mut family.graph, &family.persons, &family.handles);
    assert_eq!(family.edge_count(), 0);
}

#[test]
fn unequal_record_is_named() {
    let text = b"PersonID;SpouseID;FatherID;MotherID;Person\n1;;;;A\n2;;;;B\n3;;;C\n";
    assert_eq!(extract_graph_from_csv(text).unwrap_err(), IngestError::Malformed(Some(3)));
}

#[test]
fn empty_node_list_reports_nothing() {
    let family = load(CSV);
    assert!(relationships_along(&family, &vec![]).is_empty());
}

#[test]
fn unjoined_pair_has_no_label() {
    let family = load(CSV);
    // 5 and 1 are not joined by any edge; 1 and 2 are (1 declares 2 its father).
    let h1 = family.handle_of(1).unwrap();
    let h2 = family.handle_of(2).unwrap();
    let h5 = family.handle_of(5).unwrap();
    let steps = relationships_along(&family, &vec![h2, h1, h5]);
    assert!(same_steps(
        &steps,
        &[step(5, "M5", None), step(1, "?1", Some(Relationship::Father)), step(2, "F2", None)]
    ));
}
