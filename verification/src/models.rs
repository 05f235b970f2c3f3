//! The records of places, inspections and violations, the published
//! inspection results they are imported from, and the importer's decisions
//! on them.

use vstd::prelude::*;
use crate::datetime::{inspection_date, inspection_date_spec, DateTime};
use crate::text::{
    law_numbers_read_back_as_written, number_or_zero, number_or_zero_spec, signed_decimal, text_or_empty,
    text_or_empty_spec,
};

verus! {

/// A violation as the published results list it.
#[derive(Clone, Debug, PartialEq, Eq)]
pub struct ViolationXml {
    pub violation_type: Option<String>,
    pub violation_descr: Option<String>,
    pub violation_points: Option<String>,
}

/// An inspection as the published results list it.
#[derive(Clone, Debug, PartialEq, Eq)]
pub struct InspectionXml {
    pub inspection_date: Option<String>,
    pub inspection_business_name: Option<String>,
    pub inspection_type: Option<String>,
    pub inspection_score: Option<String>,
    pub inspection_result: Option<String>,
    pub inspection_closed_business: Option<String>,
    pub violation: Option<Vec<ViolationXml>>,
}

/// A business as the published results list it.
#[derive(Clone, Debug, PartialEq, Eq)]
pub struct BusinessXml {
    pub name: Option<String>,
    pub program_identifier: Option<String>,
    pub description: Option<String>,
    pub address: Option<String>,
    pub city: Option<String>,
    pub zip_code: Option<String>,
    pub phone: Option<String>,
    /// The longitude as published; the importer reads it as a decimal number.
    pub longitude: Option<String>,
    /// The latitude as published; the importer reads it as a decimal number.
    pub latitude: Option<String>,
    pub inspection: Option<Vec<InspectionXml>>,
}

/// The whole of a published result set.
#[derive(Clone, Debug, PartialEq, Eq)]
pub struct BusinessInspectionViolation {
    pub disclaimer: Option<String>,
    pub business: Vec<BusinessXml>,
}

/// A violation to be recorded.
#[derive(Clone, Debug, PartialEq, Eq)]
pub struct NewViolation {
    pub inspection_id: i32,
    pub kind: String,
    pub points: i32,
    pub description: String,
}

/// A recorded violation.
#[derive(Clone, Debug, PartialEq, Eq)]
pub struct Violation {
    pub id: i32,
    pub inspection_id: i32,
    pub kind: String,
    pub points: i32,
    pub description: String,
}

/// An inspection to be recorded.
#[derive(Clone, Debug, PartialEq, Eq)]
pub struct NewInspection {
    pub place_id: i32,
    pub title: String,
    pub published: bool,
    pub closed: bool,
    pub inspected_at: DateTime,
    pub inspection_type: String,
    pub inspection_score: i32,
}

/// A recorded inspection.
#[derive(Clone, Debug, PartialEq, Eq)]
pub struct Inspection {
    pub id: i32,
    pub place_id: i32,
    pub title: String,
    pub published: bool,
    pub closed: bool,
    pub inspected_at: DateTime,
    pub inspection_type: String,
    pub inspection_score: i32,
}

/// A place to be recorded. The coordinates are held as the bit patterns of
/// their IEEE-754 double-precision values.
#[derive(Clone, Debug, PartialEq, Eq)]
pub struct NewPlace {
    pub name: String,
    pub program_identifier: String,
    pub description: Option<String>,
    pub phone: Option<String>,
    pub address: String,
    pub longitude: u64,
    pub latitude: u64,
}

/// A recorded place. The coordinates are held as the bit patterns of their
/// IEEE-754 double-precision values.
#[derive(Clone, Debug, PartialEq, Eq)]
pub struct Place {
    pub id: i32,
    pub name: String,
    pub program_identifier: String,
    pub description: Option<String>,
    pub phone: Option<String>,
    pub address: String,
    pub longitude: u64,
    pub latitude: u64,
}

/// What the importer does with a record that it looked up: keep the one it
/// found, or create the new one.
#[derive(Clone, Debug, PartialEq, Eq)]
pub enum FindOrCreate<R, N> {
    Found(R),
    Create(N),
}

pub(crate) fn copy_text(t: &Option<String>) -> (r: Option<String>)
    ensures
        r == *t,
{
    match t {
        Some(s) => Some(s.clone()),
        None => None,
    }
}

impl NewViolation {
    /// Whether this is the violation that the published `violation` of the
    /// inspection `inspection_id` stands for: absent texts become empty, and
    /// points that are absent or not a number become zero.
    pub open spec fn is_from_xml(self, inspection_id: i32, violation: ViolationXml) -> bool {
        &&& self.inspection_id == inspection_id
        &&& self.kind@ == text_or_empty_spec(violation.violation_type)
        &&& self.points == number_or_zero_spec(violation.violation_points)
        &&& self.description@ == text_or_empty_spec(violation.violation_descr)
    }

    /// The violation that a published violation of an inspection stands for.
    pub fn from_xml(inspection_id: i32, violation: &ViolationXml) -> (r: NewViolation)
        ensures
            r.is_from_xml(inspection_id, *violation),
    {
        NewViolation {
            inspection_id,
            kind: text_or_empty(&violation.violation_type),
            points: number_or_zero(&violation.violation_points),
            description: text_or_empty(&violation.violation_descr),
        }
    }
}

impl Violation {
    /// Keeps the violation that the lookup found; where it found none,
    /// creates the one that the published violation stands for.
    pub fn find_or_create(inspection: &Inspection, violation: &ViolationXml, found: Option<
        Violation,
    >) -> (r: FindOrCreate<Violation, NewViolation>)
        ensures
            match r {
                FindOrCreate::Found(v) => found == Some(v),
                FindOrCreate::Create(n) => found is None && n.is_from_xml(inspection.id, *violation),
            },
    {
        match found {
            Some(v) => FindOrCreate::Found(v),
            None => FindOrCreate::Create(NewViolation::from_xml(inspection.id, violation)),
        }
    }
}

impl NewInspection {
    /// Whether this is the inspection that the published `inspection` of the
    /// place `place_id` stands for: untitled, published, not closed, dated
    /// as the importer reads the published date, with an empty type where
    /// none is given and a zero score where none can be read.
    pub open spec fn is_from_xml(self, place_id: i32, inspection: InspectionXml) -> bool {
        &&& self.place_id == place_id
        &&& self.title@ == Seq::<char>::empty()
        &&& self.published
        &&& !self.closed
        &&& self.inspected_at == inspection_date_spec(inspection.inspection_date)
        &&& self.inspection_type@ == text_or_empty_spec(inspection.inspection_type)
        &&& self.inspection_score == number_or_zero_spec(inspection.inspection_score)
    }

    /// The inspection that a published inspection of a place stands for.
    pub fn from_xml(place: &Place, inspection: &InspectionXml) -> (r: NewInspection)
        ensures
            r.is_from_xml(place.id, *inspection),
            r.inspected_at.is_valid(),
    {
        NewInspection {
            place_id: place.id,
            title: String::new(),
            published: true,
            closed: false,
            inspected_at: inspection_date(&inspection.inspection_date),
            inspection_type: text_or_empty(&inspection.inspection_type),
            inspection_score: number_or_zero(&inspection.inspection_score),
        }
    }
}

impl Inspection {
    /// Keeps the inspection that the lookup found; where it found none,
    /// creates the one that the published inspection stands for.
    pub fn find_or_create(place: &Place, inspection: &InspectionXml, found: Option<Inspection>) -> (r:
        FindOrCreate<Inspection, NewInspection>)
        ensures
            match r {
                FindOrCreate::Found(i) => found == Some(i),
                FindOrCreate::Create(n) => found is None && n.is_from_xml(place.id, *inspection),
            },
    {
        match found {
            Some(i) => FindOrCreate::Found(i),
            None => FindOrCreate::Create(NewInspection::from_xml(place, inspection)),
        }
    }
}

impl NewPlace {
    /// Whether this is the place that the published `business` stands for,
    /// at the coordinates `longitude` and `latitude` (bit patterns of the
    /// values read from the published coordinates): absent texts become
    /// empty, and the description and phone are kept as they are.
    pub open spec fn is_from_xml(self, business: BusinessXml, longitude: u64, latitude: u64) -> bool {
        &&& self.name@ == text_or_empty_spec(business.name)
        &&& self.program_identifier@ == text_or_empty_spec(business.program_identifier)
        &&& self.description == business.description
        &&& self.phone == business.phone
        &&& self.address@ == text_or_empty_spec(business.address)
        &&& self.longitude == longitude
        &&& self.latitude == latitude
    }

    /// The place that a published business stands for.
    pub fn from_xml(business: &BusinessXml, longitude: u64, latitude: u64) -> (r: NewPlace)
        ensures
            r.is_from_xml(*business, longitude, latitude),
    {
        NewPlace {
            name: text_or_empty(&business.name),
            program_identifier: text_or_empty(&business.program_identifier),
            description: copy_text(&business.description),
            phone: copy_text(&business.phone),
            address: text_or_empty(&business.address),
            longitude,
            latitude,
        }
    }
}

impl Place {
    /// Keeps the place that the lookup found; where it found none, creates
    /// the one that the published business stands for.
    pub fn find_or_create(business: &BusinessXml, longitude: u64, latitude: u64, found: Option<
        Place,
    >) -> (r: FindOrCreate<Place, NewPlace>)
        ensures
            match r {
                FindOrCreate::Found(p) => found == Some(p),
                FindOrCreate::Create(n) => found is None && n.is_from_xml(
                    *business,
                    longitude,
                    latitude,
                ),
            },
    {
        match found {
            Some(p) => FindOrCreate::Found(p),
            None => FindOrCreate::Create(NewPlace::from_xml(business, longitude, latitude)),
        }
    }
}

/// The text that a published field gives a record: the published text
/// itself, or the empty text where nothing is published.
pub open spec fn published_or_empty(t: Option<String>) -> Seq<char> {
    match t {
        Some(s) => s@,
        None => Seq::<char>::empty(),
    }
}

/// A place created for a published business carries the business's own
/// name, program identifier and address (each empty only where none is
/// published), its description and phone as published, and the coordinates
/// it was given.
pub proof fn law_new_place_carries_the_business(n: NewPlace, business: BusinessXml, longitude: u64, latitude: u64)
    requires
        n.is_from_xml(business, longitude, latitude),
    ensures
        n.name@ == published_or_empty(business.name),
        n.program_identifier@ == published_or_empty(business.program_identifier),
        n.address@ == published_or_empty(business.address),
        n.description == business.description,
        n.phone == business.phone,
        n.longitude == longitude,
        n.latitude == latitude,
        business.program_identifier matches Some(p) ==> n.program_identifier@ == p@,
        business.name matches Some(p) ==> n.name@ == p@,
        business.address matches Some(p) ==> n.address@ == p@,
{
}

/// An inspection created for a published inspection of a place belongs to
/// that place, is untitled, published and open, and carries the published
/// type (empty only where none is published).
pub proof fn law_new_inspection_carries_the_inspection(n: NewInspection, place_id: i32, inspection: InspectionXml)
    requires
        n.is_from_xml(place_id, inspection),
    ensures
        n.place_id == place_id,
        n.title@.len() == 0,
        n.published,
        !n.closed,
        n.inspection_type@ == published_or_empty(inspection.inspection_type),
{
}

/// A violation created for a published violation of an inspection belongs
/// to that inspection and carries the published type as its kind and the
/// published description as its description (each empty only where none is
/// published).
pub proof fn law_new_violation_carries_the_violation(n: NewViolation, inspection_id: i32, violation: ViolationXml)
    requires
        n.is_from_xml(inspection_id, violation),
    ensures
        n.inspection_id == inspection_id,
        n.kind@ == published_or_empty(violation.violation_type),
        n.description@ == published_or_empty(violation.violation_descr),
{
}

/// A violation created for a published violation whose points are the
/// decimal writing of a 32-bit integer carries that integer as its points;
/// one whose points are absent carries zero.
pub proof fn law_new_violation_points_are_the_published_points(
    n: NewViolation,
    inspection_id: i32,
    violation: ViolationXml,
    points: i32,
)
    requires
        n.is_from_xml(inspection_id, violation),
    ensures
        violation.violation_points matches Some(t) && t@ == signed_decimal(points as int)
            ==> n.points == points,
        violation.violation_points is None ==> n.points == 0,
{
    law_numbers_read_back_as_written(points);
}

/// An inspection created for a published inspection whose score is the
/// decimal writing of a 32-bit integer carries that integer as its score;
/// one whose score is absent carries zero.
pub proof fn law_new_inspection_score_is_the_published_score(
    n: NewInspection,
    place_id: i32,
    inspection: InspectionXml,
    score: i32,
)
    requires
        n.is_from_xml(place_id, inspection),
    ensures
        inspection.inspection_score matches Some(t) && t@ == signed_decimal(score as int)
            ==> n.inspection_score == score,
        inspection.inspection_score is None ==> n.inspection_score == 0,
{
    law_numbers_read_back_as_written(score);
}

} // verus!
