use food_inspections::models::{BusinessInspectionViolation, BusinessXml, InspectionXml, ViolationXml};
use food_inspections::xml::{
    field_text_exec, mentions_value_key_exec, results_from_text, XmlContent, XmlElement, XmlReadError,
};

fn text(s: &str) -> XmlElement {
    XmlElement { attributes: Vec::new(), members: XmlContent::Text(s.to_string()) }
}

fn empty() -> XmlElement {
    XmlElement { attributes: Vec::new(), members: XmlContent::Nothing }
}

/// An element as serde_xml builds it: the text-only children before the
/// first child with children of its own among the attributes, the others
/// among the members.
fn element(attributes: Vec<(&str, &str)>, members: Vec<(&str, Vec<XmlElement>)>) -> XmlElement {
    XmlElement {
        attributes: attributes.into_iter().map(|(k, v)| (k.to_string(), vec![v.to_string()])).collect(),
        members: if members.is_empty() {
            XmlContent::Nothing
        } else {
            XmlContent::Members(members.into_iter().map(|(k, v)| (k.to_string(), v)).collect())
        },
    }
}

fn some(s: &str) -> Option<String> {
    Some(s.to_string())
}

#[test]
fn field_text_looks_in_attributes_then_members() {
    let el = element(
        vec![("Name", "Cafe")],
        vec![("Inspection", vec![element(vec![("Inspection_Type", "Routine")], vec![])]), ("Phone", vec![text("555"), text("556")]), ("City", vec![empty()])],
    );
    assert_eq!(field_text_exec(&el, "Name"), Some(some("Cafe")));
    assert_eq!(field_text_exec(&el, "Phone"), Some(some("555")));
    assert_eq!(field_text_exec(&el, "City"), Some(some("")));
    assert_eq!(field_text_exec(&el, "Zip_Code"), Some(None));
    assert_eq!(field_text_exec(&el, "Inspection"), None);
    let both = XmlElement {
        attributes: vec![("Name".to_string(), vec!["First".to_string(), "Second".to_string()])],
        members: XmlContent::Members(vec![("Name".to_string(), vec![text("Member")])]),
    };
    assert_eq!(field_text_exec(&both, "Name"), Some(some("First")));
}

fn violation_element() -> XmlElement {
    element(vec![("Violation_Descr", "Hand washing"), ("Violation_Points", "5"), ("Violation_Type", "blue")], vec![])
}

fn expected_violation() -> ViolationXml {
    ViolationXml { violation_type: some("blue"), violation_descr: some("Hand washing"), violation_points: some("5") }
}

#[test]
fn results_are_read_from_a_tree_built_as_serde_xml_builds_it() {
    let inspection = element(
        vec![("Inspection_Date", "03/15/2016"), ("Inspection_Score", "5"), ("Inspection_Type", "Routine")],
        vec![("Violation", vec![violation_element()])],
    );
    let business = element(
        vec![("Address", "1 Main St"), ("Name", "Cafe")],
        vec![("Inspection", vec![inspection, element(vec![("Inspection_Type", "Consultation")], vec![])]), ("Latitude", vec![text("47.6")]), ("Longitude", vec![text("-122.3")])],
    );
    let root = element(vec![("Disclaimer", "As is")], vec![("Business", vec![business])]);
    let expected = BusinessInspectionViolation {
        disclaimer: some("As is"),
        business: vec![BusinessXml {
            name: some("Cafe"),
            program_identifier: None,
            description: None,
            address: some("1 Main St"),
            city: None,
            zip_code: None,
            phone: None,
            longitude: some("-122.3"),
            latitude: some("47.6"),
            inspection: Some(vec![
                InspectionXml {
                    inspection_date: some("03/15/2016"),
                    inspection_business_name: None,
                    inspection_type: some("Routine"),
                    inspection_score: some("5"),
                    inspection_result: None,
                    inspection_closed_business: None,
                    violation: Some(vec![expected_violation()]),
                },
                InspectionXml {
                    inspection_date: None,
                    inspection_business_name: None,
                    inspection_type: some("Consultation"),
                    inspection_score: None,
                    inspection_result: None,
                    inspection_closed_business: None,
                    violation: None,
                },
            ]),
        }],
    };
    assert_eq!(BusinessInspectionViolation::from_element(&root), Ok(expected));
}

#[test]
fn a_violation_of_text_children_is_read() {
    assert_eq!(ViolationXml::from_element(&violation_element()), Ok(expected_violation()));
}

#[test]
fn no_business_elements_means_no_businesses() {
    let results = BusinessInspectionViolation::from_element(&element(vec![], vec![]));
    assert_eq!(results, Ok(BusinessInspectionViolation { disclaimer: None, business: Vec::new() }));
}

#[test]
fn a_text_field_holding_elements_is_unreadable() {
    let root = element(vec![], vec![("Disclaimer", vec![element(vec![("Part", "x")], vec![])])]);
    assert_eq!(BusinessInspectionViolation::from_element(&root), Err(XmlReadError::Unreadable));
    let business = element(vec![], vec![("Name", vec![element(vec![], vec![("First", vec![text("A")])])])]);
    assert_eq!(BusinessXml::from_element(&business), Err(XmlReadError::Unreadable));
}

#[test]
fn a_record_of_bare_text_is_unreadable() {
    let root = element(vec![], vec![("Business", vec![element(vec![("Name", "Cafe")], vec![]), text("junk")])]);
    assert_eq!(BusinessInspectionViolation::from_element(&root), Err(XmlReadError::Unreadable));
    assert_eq!(InspectionXml::from_element(&text("junk")), Err(XmlReadError::Unreadable));
}

#[test]
fn a_list_of_text_only_elements_is_unreadable() {
    let root = element(vec![("Business", "Cafe")], vec![]);
    assert_eq!(BusinessInspectionViolation::from_element(&root), Err(XmlReadError::Unreadable));
    let inspection = element(vec![("Violation", "dirty")], vec![]);
    assert_eq!(InspectionXml::from_element(&inspection), Err(XmlReadError::Unreadable));
}

#[test]
fn published_text_is_parsed_and_read() {
    let text = "<BusinessInspectionViolation>\
<Disclaimer>As is</Disclaimer>\
<Business>\
<Name>Cafe</Name>\
<Address>1 Main St</Address>\
<Longitude>-122.3</Longitude>\
<Latitude>47.6</Latitude>\
<Inspection>\
<Inspection_Date>03/15/2016</Inspection_Date>\
<Inspection_Type>Routine</Inspection_Type>\
<Inspection_Score>5</Inspection_Score>\
<Violation>\
<Violation_Type>blue</Violation_Type>\
<Violation_Descr>Hand washing</Violation_Descr>\
<Violation_Points>5</Violation_Points>\
</Violation>\
</Inspection>\
</Business>\
</BusinessInspectionViolation>";
    let expected = BusinessInspectionViolation {
        disclaimer: some("As is"),
        business: vec![BusinessXml {
            name: some("Cafe"),
            program_identifier: None,
            description: None,
            address: some("1 Main St"),
            city: None,
            zip_code: None,
            phone: None,
            longitude: some("-122.3"),
            latitude: some("47.6"),
            inspection: Some(vec![InspectionXml {
                inspection_date: some("03/15/2016"),
                inspection_business_name: None,
                inspection_type: some("Routine"),
                inspection_score: some("5"),
                inspection_result: None,
                inspection_closed_business: None,
                violation: Some(vec![expected_violation()]),
            }]),
        }],
    };
    assert_eq!(results_from_text(text), Ok(expected));
}

#[test]
fn text_that_is_not_xml_is_refused() {
    assert_eq!(results_from_text("this is not a document"), Err(XmlReadError::NotXml));
}

#[test]
fn text_mixed_with_elements_is_refused() {
    assert_eq!(results_from_text("<a>x<b/></a>"), Err(XmlReadError::NotXml));
    assert_eq!(results_from_text("<a><b/>x</a>"), Err(XmlReadError::NotXml));
}

#[test]
fn text_holding_the_value_key_is_refused() {
    assert!(mentions_value_key_exec("<a $value=\"x\" b=\"y\"/>"));
    assert!(!mentions_value_key_exec("<a><b>value $</b></a>"));
    assert!(!mentions_value_key_exec("$valu"));
    assert_eq!(results_from_text("<a $value=\"x\" b=\"y\"/>"), Err(XmlReadError::NotXml));
    assert_eq!(results_from_text("<a><$value>x</$value><b>y</b></a>"), Err(XmlReadError::NotXml));
}

#[test]
fn an_empty_result_set_is_read() {
    assert_eq!(
        results_from_text("<BusinessInspectionViolation><Disclaimer>As is</Disclaimer></BusinessInspectionViolation>"),
        Ok(BusinessInspectionViolation { disclaimer: some("As is"), business: Vec::new() })
    );
}
