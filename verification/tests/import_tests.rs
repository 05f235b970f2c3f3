use food_inspections::datetime::{date_or_fallback, inspection_date, inspection_date_text, DateTime};
use food_inspections::models::{
    BusinessXml, FindOrCreate, Inspection, InspectionXml, NewInspection, NewPlace, NewViolation,
    Place, Violation, ViolationXml,
};
use food_inspections::scraper::{results_url, violations_to_import};

fn some(s: &str) -> Option<String> {
    Some(s.to_string())
}

fn date(year: i32, month: u32, day: u32, hour: u32, minute: u32, second: u32) -> DateTime {
    DateTime { year, month, day, hour, minute, second, nanosecond: 0 }
}

fn place() -> Place {
    Place {
        id: 12,
        name: "Cafe".to_string(),
        program_identifier: "CAFE".to_string(),
        description: None,
        phone: None,
        address: "1 Main St".to_string(),
        longitude: 0,
        latitude: 0,
    }
}

fn inspection_xml(date: Option<String>, violations: Option<Vec<ViolationXml>>) -> InspectionXml {
    InspectionXml {
        inspection_date: date,
        inspection_business_name: some("Cafe"),
        inspection_type: some("Routine Inspection/Field Review"),
        inspection_score: some("15"),
        inspection_result: some("Unsatisfactory"),
        inspection_closed_business: some("false"),
        violation: violations,
    }
}

fn violation_xml(points: Option<String>) -> ViolationXml {
    ViolationXml {
        violation_type: some("red"),
        violation_descr: some("Food contact surfaces"),
        violation_points: points,
    }
}

#[test]
fn inspection_dates_are_read_at_quarter_past_seven() {
    assert_eq!(inspection_date(&some("03/15/2016")), date(2016, 3, 15, 7, 15, 0));
    assert_eq!(inspection_date(&some("  12/01/2014 ")), date(2014, 12, 1, 7, 15, 0));
    assert_eq!(inspection_date_text(&some(" 1/2/2015\t")), "1/2/2015 7:15");
}

#[test]
fn unreadable_inspection_dates_fall_back() {
    let fallback = date(1999, 9, 5, 23, 56, 4);
    assert_eq!(inspection_date(&None), fallback);
    assert_eq!(inspection_date(&some("")), fallback);
    assert_eq!(inspection_date(&some("02/30/2016")), fallback);
    assert_eq!(inspection_date(&some("2016-03-15")), fallback);
    assert_eq!(date_or_fallback(None), fallback);
    assert_eq!(date_or_fallback(Some(date(2001, 1, 1, 0, 0, 0))), date(2001, 1, 1, 0, 0, 0));
}

#[test]
fn new_violation_from_published_violation() {
    let v = NewViolation::from_xml(3, &violation_xml(some("10")));
    assert_eq!(
        v,
        NewViolation {
            inspection_id: 3,
            kind: "red".to_string(),
            points: 10,
            description: "Food contact surfaces".to_string(),
        }
    );
    let empty = ViolationXml { violation_type: None, violation_descr: None, violation_points: some("x") };
    let v = NewViolation::from_xml(4, &empty);
    assert_eq!(v.kind, "");
    assert_eq!(v.description, "");
    assert_eq!(v.points, 0);
}

#[test]
fn find_or_create_keeps_what_was_found() {
    let inspection = Inspection {
        id: 3,
        place_id: 12,
        title: String::new(),
        published: true,
        closed: false,
        inspected_at: date(2016, 3, 15, 7, 15, 0),
        inspection_type: "Routine".to_string(),
        inspection_score: 15,
    };
    let found = Violation {
        id: 9,
        inspection_id: 3,
        kind: "red".to_string(),
        points: 10,
        description: "Food contact surfaces".to_string(),
    };
    let xml = violation_xml(some("10"));
    assert_eq!(
        Violation::find_or_create(&inspection, &xml, Some(found.clone())),
        FindOrCreate::Found(found)
    );
    assert_eq!(
        Violation::find_or_create(&inspection, &xml, None),
        FindOrCreate::Create(NewViolation::from_xml(3, &xml))
    );
    let xml = inspection_xml(some("03/15/2016"), None);
    assert_eq!(
        Inspection::find_or_create(&place(), &xml, Some(inspection.clone())),
        FindOrCreate::Found(inspection)
    );
}

#[test]
fn new_inspection_from_published_inspection() {
    let n = NewInspection::from_xml(&place(), &inspection_xml(some("03/15/2016"), None));
    assert_eq!(
        n,
        NewInspection {
            place_id: 12,
            title: String::new(),
            published: true,
            closed: false,
            inspected_at: date(2016, 3, 15, 7, 15, 0),
            inspection_type: "Routine Inspection/Field Review".to_string(),
            inspection_score: 15,
        }
    );
    match Inspection::find_or_create(&place(), &inspection_xml(None, None), None) {
        FindOrCreate::Create(n) => assert_eq!(n.inspected_at, date(1999, 9, 5, 23, 56, 4)),
        FindOrCreate::Found(_) => panic!("nothing was found"),
    }
}

#[test]
fn new_place_from_published_business() {
    let business = BusinessXml {
        name: some("Cafe"),
        program_identifier: None,
        description: some("Seating 0-12"),
        address: some("1 Main St"),
        city: some("SEATTLE"),
        zip_code: some("98101"),
        phone: None,
        longitude: some("-122.3"),
        latitude: some("47.6"),
        inspection: None,
    };
    let lon = (-122.3f64).to_bits();
    let lat = 47.6f64.to_bits();
    let expected = NewPlace {
        name: "Cafe".to_string(),
        program_identifier: String::new(),
        description: some("Seating 0-12"),
        phone: None,
        address: "1 Main St".to_string(),
        longitude: lon,
        latitude: lat,
    };
    assert_eq!(NewPlace::from_xml(&business, lon, lat), expected);
    assert_eq!(Place::find_or_create(&business, lon, lat, None), FindOrCreate::Create(expected));
    assert_eq!(
        Place::find_or_create(&business, lon, lat, Some(place())),
        FindOrCreate::Found(place())
    );
}

#[test]
fn results_url_names_the_day() {
    assert_eq!(
        results_url(8, 2, 2017),
        "http://info.kingcounty.gov/health/ehs/foodsafety/inspections/Results.aspx?Output=X&Business_Name=%&Business_Address=&Longitude=&Latitude=&City=&Zip_Code=&Inspection_Type=All&Inspection_Start=1/1/2014&Inspection_End=8/2/2017&Inspection_Closed_Business=A&Violation_Points=&Violation_Red_Points=&Violation_Descr=&Fuzzy_Search=N&Sort=B"
    );
    assert!(results_url(12, 31, -5).contains("Inspection_End=12/31/-5&"));
}

#[test]
fn only_violations_with_points_of_new_inspections_are_imported() {
    let vs = vec![
        violation_xml(some("10")),
        violation_xml(None),
        violation_xml(some("")),
        violation_xml(some("5")),
    ];
    let xml = inspection_xml(some("03/15/2016"), Some(vs));
    assert_eq!(
        violations_to_import(&xml, true),
        vec![violation_xml(some("10")), violation_xml(some("5"))]
    );
    assert_eq!(violations_to_import(&xml, false), Vec::<ViolationXml>::new());
    assert_eq!(violations_to_import(&inspection_xml(None, None), true), Vec::<ViolationXml>::new());
}
