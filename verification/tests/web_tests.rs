use food_inspections::datetime::DateTime;
use food_inspections::models::{Inspection, Place, Violation};
use food_inspections::web::{grouped_by, index_items, places_json, search, zip};

fn place(id: i32) -> Place {
    Place {
        id,
        name: format!("place {}", id),
        program_identifier: format!("P{}", id),
        description: None,
        phone: None,
        address: format!("{} Main St", id),
        longitude: 1.5f64.to_bits(),
        latitude: (-2.25f64).to_bits(),
    }
}

fn inspection(id: i32, place_id: i32) -> Inspection {
    Inspection {
        id,
        place_id,
        title: String::new(),
        published: true,
        closed: id % 2 == 0,
        inspected_at: DateTime { year: 2016, month: 3, day: id as u32, hour: 7, minute: 15, second: 0, nanosecond: 0 },
        inspection_type: "Routine".to_string(),
        inspection_score: id * 5,
    }
}

fn violation(id: i32, inspection_id: i32) -> Violation {
    Violation { id, inspection_id, kind: "red".to_string(), points: id, description: format!("v{}", id) }
}

#[test]
fn grouping_follows_the_parents() {
    let groups = grouped_by(vec![violation(1, 20), violation(2, 10), violation(3, 20)], &vec![10, 20, 30]);
    assert_eq!(groups, vec![vec![violation(2, 10)], vec![violation(1, 20), violation(3, 20)], vec![]]);
}

#[test]
fn duplicate_parents_take_children_at_their_last_place() {
    let groups = grouped_by(vec![violation(1, 20), violation(2, 10)], &vec![20, 10, 20]);
    assert_eq!(groups, vec![vec![], vec![violation(2, 10)], vec![violation(1, 20)]]);
}

#[test]
fn zip_pairs_up_to_the_shorter() {
    assert_eq!(zip(vec![1, 2, 3], vec!['a', 'b']), vec![(1, 'a'), (2, 'b')]);
    assert_eq!(zip(Vec::<i32>::new(), vec!['a']), Vec::<(i32, char)>::new());
}

#[test]
fn violations_for_inspections() {
    let inspections = vec![inspection(1, 7), inspection(2, 7)];
    let r = Violation::for_inspections(&inspections, vec![violation(5, 2), violation(6, 1), violation(7, 2)]);
    assert_eq!(r.len(), 2);
    assert_eq!(r[0], (&inspections[0], vec![violation(6, 1)]));
    assert_eq!(r[1], (&inspections[1], vec![violation(5, 2), violation(7, 2)]));
}

#[test]
fn places_with_inspections_and_violations() {
    let r = Place::in_the_bounds(
        vec![place(2), place(1)],
        vec![inspection(10, 1), inspection(11, 2), inspection(12, 1)],
        vec![violation(100, 12), violation(101, 10), violation(102, 12)],
    );
    assert_eq!(
        r,
        vec![
            (place(2), vec![(inspection(11, 2), vec![])]),
            (
                place(1),
                vec![
                    (inspection(10, 1), vec![violation(101, 10)]),
                    (inspection(12, 1), vec![violation(100, 12), violation(102, 12)]),
                ]
            ),
        ]
    );
}

#[test]
fn places_document() {
    let records = Place::in_the_bounds(
        vec![place(1)],
        vec![inspection(10, 1)],
        vec![violation(100, 10)],
    );
    let doc = places_json(records);
    assert_eq!(doc.status, 300);
    assert_eq!(doc.reason, None);
    assert_eq!(doc.results.len(), 1);
    let p = &doc.results[0];
    assert_eq!(p.id, 1);
    assert_eq!(p.name, "place 1");
    assert_eq!(p.program_identifier, "P1");
    assert_eq!(f64::from_bits(p.longitude), 1.5);
    assert_eq!(f64::from_bits(p.latitude), -2.25);
    assert_eq!(p.inspections.len(), 1);
    let i = &p.inspections[0];
    assert_eq!(i.id, 10);
    assert_eq!(i.place_id, 1);
    assert_eq!(i.closed, true);
    assert_eq!(i.inspection_score, 50);
    assert_eq!(i.inspection_type, "Routine");
    assert_eq!(i.violations, vec![violation(100, 10)]);
    assert_eq!(places_json(Vec::new()).results.len(), 0);
}

#[test]
fn front_page_items() {
    assert_eq!(index_items(), vec!["One".to_string(), "Two".to_string(), "Three".to_string()]);
}

#[test]
fn search_greets() {
    assert_eq!(search("anything", Some(3)), "Hello, world!");
    assert_eq!(search("", None), "Hello, world!");
}
