//! The importer's plan: where it downloads the results from, and which
//! published violations it records.

use vstd::prelude::*;
use vstd::string::*;
use crate::models::{copy_text, InspectionXml, ViolationXml};
use crate::text::{append_decimal, append_signed_decimal, decimal, signed_decimal, text_or_empty_spec};

verus! {

/// The address of the published results of all inspections since
/// 2014-01-01 up to the day `month`/`day`/`year`.
pub open spec fn results_url_spec(month: u32, day: u32, year: i32) -> Seq<char> {
    "http://info.kingcounty.gov/health/ehs/foodsafety/inspections/Results.aspx?Output=X&Business_Name=%&Business_Address=&Longitude=&Latitude=&City=&Zip_Code=&Inspection_Type=All&Inspection_Start=1/1/2014&Inspection_End="@
        + decimal(month as nat) + "/"@ + decimal(day as nat) + "/"@ + signed_decimal(year as int)
        + "&Inspection_Closed_Business=A&Violation_Points=&Violation_Red_Points=&Violation_Descr=&Fuzzy_Search=N&Sort=B"@
}

/// The address of the published results of all inspections since
/// 2014-01-01 up to the given day.
pub fn results_url(month: u32, day: u32, year: i32) -> (r: String)
    ensures
        r@ == results_url_spec(month, day, year),
{
    let mut url = String::from_str(
        "http://info.kingcounty.gov/health/ehs/foodsafety/inspections/Results.aspx?Output=X&Business_Name=%&Business_Address=&Longitude=&Latitude=&City=&Zip_Code=&Inspection_Type=All&Inspection_Start=1/1/2014&Inspection_End=",
    );
    append_decimal(&mut url, month as u64);
    url.append("/");
    append_decimal(&mut url, day as u64);
    url.append("/");
    append_signed_decimal(&mut url, year as i64);
    url.append(
        "&Inspection_Closed_Business=A&Violation_Points=&Violation_Red_Points=&Violation_Descr=&Fuzzy_Search=N&Sort=B",
    );
    url
}

/// Whether a published violation carries points, the mark of the
/// violations that the importer records.
pub open spec fn has_points(violation: ViolationXml) -> bool {
    text_or_empty_spec(violation.violation_points).len() > 0
}

/// The published violations of an inspection that the importer records: none
/// unless the inspection was newly created, and of its violations those that
/// carry points, in their order.
pub open spec fn violations_to_import_spec(inspection: InspectionXml, new_record: bool) -> Seq<
    ViolationXml,
> {
    if new_record && inspection.violation is Some {
        inspection.violation->0@.filter(|v: ViolationXml| has_points(v))
    } else {
        Seq::empty()
    }
}

fn copy_violation(v: &ViolationXml) -> (r: ViolationXml)
    ensures
        r == *v,
{
    ViolationXml {
        violation_type: copy_text(&v.violation_type),
        violation_descr: copy_text(&v.violation_descr),
        violation_points: copy_text(&v.violation_points),
    }
}

/// The published violations of an inspection that the importer records.
pub fn violations_to_import(inspection: &InspectionXml, new_record: bool) -> (r: Vec<ViolationXml>)
    ensures
        r@ == violations_to_import_spec(*inspection, new_record),
{
    broadcast use vstd::seq_lib::group_filter_ensures;
    let mut out: Vec<ViolationXml> = Vec::new();
    if !new_record {
        return out;
    }
    match &inspection.violation {
        None => out,
        Some(vs) => {
            let ghost pred = |v: ViolationXml| has_points(v);
            let mut i: usize = 0;
            while i < vs.len()
                invariant
                    i <= vs.len(),
                    pred == (|v: ViolationXml| has_points(v)),
                    out@ == vs@.take(i as int).filter(pred),
                decreases vs.len() - i,
            {
                let v = &vs[i];
                proof {
                    vs@.take(i as int).lemma_filter_push(vs@[i as int], pred);
                    assert(vs@.take(i + 1) =~= vs@.take(i as int).push(vs@[i as int]));
                }
                let has = match &v.violation_points {
                    Some(p) => p.as_str().unicode_len() > 0,
                    None => false,
                };
                assert(has == pred(vs@[i as int]));
                if has {
                    out.push(copy_violation(v));
                }
                i = i + 1;
            }
            assert(vs@.take(vs.len() as int) =~= vs@);
            out
        },
    }
}

/// For a newly created inspection, the importer records exactly the
/// published violations whose points text is present and not empty, whatever
/// their type or description, in their published order; for an inspection
/// found again, or one without violations, it records none.
pub proof fn law_imported_violations_are_those_with_points(inspection: InspectionXml, new_record: bool)
    ensures
        violations_to_import_spec(inspection, new_record) == if new_record && inspection.violation is Some {
            inspection.violation->0@.filter(
                |v: ViolationXml| v.violation_points is Some && v.violation_points->0@.len() > 0,
            )
        } else {
            Seq::<ViolationXml>::empty()
        },
{
    let pred = |v: ViolationXml| v.violation_points is Some && v.violation_points->0@.len() > 0;
    assert((|v: ViolationXml| has_points(v)) =~= pred);
}

} // verus!
