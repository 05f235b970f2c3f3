//! How the importer reads the published results: the text is parsed into an
//! XML tree, and the records are read out of the tree.
//!
//! In the tree, an element keeps under `attributes` its XML attributes and
//! those of its children that hold only text and come before its first child
//! with children of its own; every later child is kept under `members`, all
//! children of one name together. A field of a record is looked up first
//! among the attributes, then among the members.

use vstd::prelude::*;
use vstd::string::*;
use crate::models::{BusinessInspectionViolation, BusinessXml, InspectionXml, ViolationXml};

verus! {

/// What an XML element holds after its attributes: named child elements
/// (each name once, with all the elements of that name in document order),
/// text, or nothing.
#[derive(Debug, PartialEq, Eq)]
pub enum XmlContent {
    Members(Vec<(String, Vec<XmlElement>)>),
    Text(String),
    Nothing,
}

/// An XML element: its attributes, each name with all its values, and what
/// it holds.
#[derive(Debug, PartialEq, Eq)]
pub struct XmlElement {
    pub attributes: Vec<(String, Vec<String>)>,
    pub members: XmlContent,
}

/// What an XML element holds, in terms of plain values.
pub enum XmlTreeContent {
    Members(Seq<(Seq<char>, Seq<XmlTree>)>),
    Text(Seq<char>),
    Nothing,
}

/// An XML element in terms of plain values.
pub struct XmlTree {
    pub attributes: Seq<(Seq<char>, Seq<Seq<char>>)>,
    pub members: XmlTreeContent,
}

/// Why the published results could not be read.
#[derive(Debug, PartialEq, Eq)]
pub enum XmlReadError {
    /// The text is not an XML document.
    NotXml,
    /// The document does not have the shape of the results.
    Unreadable,
}

/// The texts of a list of strings.
pub open spec fn texts_of(v: Seq<String>) -> Seq<Seq<char>> {
    v.map_values(|s: String| s@)
}

/// The attributes of an element, in terms of plain values.
pub open spec fn attributes_view(a: Seq<(String, Vec<String>)>) -> Seq<(Seq<char>, Seq<Seq<char>>)> {
    a.map_values(|p: (String, Vec<String>)| (p.0@, texts_of(p.1@)))
}

/// An element in terms of plain values.
pub open spec fn tree_of(e: XmlElement) -> XmlTree
    decreases e,
{
    XmlTree {
        attributes: attributes_view(e.attributes@),
        members: match e.members {
            XmlContent::Members(ms) => XmlTreeContent::Members(members_view(ms@)),
            XmlContent::Text(s) => XmlTreeContent::Text(s@),
            XmlContent::Nothing => XmlTreeContent::Nothing,
        },
    }
}

/// The named child elements of an element, in terms of plain values.
pub open spec fn members_view(ms: Seq<(String, Vec<XmlElement>)>) -> Seq<(Seq<char>, Seq<XmlTree>)>
    decreases ms,
{
    if ms.len() == 0 {
        Seq::empty()
    } else {
        members_view(ms.drop_last()).push((ms.last().0@, trees_of(ms.last().1@)))
    }
}

/// A list of elements in terms of plain values.
pub open spec fn trees_of(es: Seq<XmlElement>) -> Seq<XmlTree>
    decreases es,
{
    if es.len() == 0 {
        Seq::empty()
    } else {
        trees_of(es.drop_last()).push(tree_of(es.last()))
    }
}


proof fn lemma_members_view(ms: Seq<(String, Vec<XmlElement>)>)
    ensures
        members_view(ms).len() == ms.len(),
        forall|i: int|
            0 <= i < ms.len() ==> #[trigger] members_view(ms)[i] == (ms[i].0@, trees_of(ms[i].1@)),
    decreases ms.len(),
{
    if ms.len() > 0 {
        lemma_members_view(ms.drop_last());
        assert forall|i: int| 0 <= i < ms.len() implies #[trigger] members_view(ms)[i] == (
            ms[i].0@,
            trees_of(ms[i].1@),
        ) by {
            if i < ms.len() - 1 {
                assert(ms.drop_last()[i] == ms[i]);
            }
        }
    }
}

proof fn lemma_trees_of(es: Seq<XmlElement>)
    ensures
        trees_of(es).len() == es.len(),
        forall|i: int| 0 <= i < es.len() ==> #[trigger] trees_of(es)[i] == tree_of(es[i]),
    decreases es.len(),
{
    if es.len() > 0 {
        lemma_trees_of(es.drop_last());
        assert forall|i: int| 0 <= i < es.len() implies #[trigger] trees_of(es)[i] == tree_of(
            es[i],
        ) by {
            if i < es.len() - 1 {
                assert(es.drop_last()[i] == es[i]);
            }
        }
    }
}

/// The value paired with the first occurrence of `name` in `pairs`.
pub open spec fn find_named<T>(pairs: Seq<(Seq<char>, T)>, name: Seq<char>) -> Option<T>
    decreases pairs.len(),
{
    if pairs.len() == 0 {
        None
    } else if pairs[0].0 == name {
        Some(pairs[0].1)
    } else {
        find_named(pairs.drop_first(), name)
    }
}

/// Whether `t` holds a text-only child or an attribute named `name`.
pub open spec fn has_attribute(t: XmlTree, name: Seq<char>) -> bool {
    find_named(t.attributes, name) matches Some(vs) && vs.len() > 0
}

/// The child elements of `t` named `name`, if it has any among its members.
pub open spec fn member_trees(t: XmlTree, name: Seq<char>) -> Option<Seq<XmlTree>> {
    match t.members {
        XmlTreeContent::Members(ms) => find_named(ms, name),
        _ => None,
    }
}

/// The text that an element holds as a field: its text, the empty text for
/// an empty element; `None` where it has attributes or child elements.
pub open spec fn element_text(t: XmlTree) -> Option<Seq<char>> {
    if t.attributes.len() == 0 {
        match t.members {
            XmlTreeContent::Text(s) => Some(s),
            XmlTreeContent::Nothing => Some(Seq::empty()),
            XmlTreeContent::Members(_) => None,
        }
    } else {
        None
    }
}

/// The text field `name` of `t`: `Some(v)` where it can be read, with `v`
/// absent where the field is; `None` where the field's first element holds
/// something other than text.
pub open spec fn field_text(t: XmlTree, name: Seq<char>) -> Option<Option<Seq<char>>> {
    if has_attribute(t, name) {
        Some(Some(find_named(t.attributes, name)->0[0]))
    } else {
        match member_trees(t, name) {
            Some(es) => if es.len() > 0 {
                match element_text(es[0]) {
                    Some(s) => Some(Some(s)),
                    None => None,
                }
            } else {
                Some(None)
            },
            None => Some(None),
        }
    }
}

/// Whether `t` can be read as a record: it does not hold bare text.
pub open spec fn record_shaped(t: XmlTree) -> bool {
    !(t.attributes.len() == 0 && t.members is Text)
}

/// An optional text, in terms of plain values.
pub open spec fn opt_text(t: Option<String>) -> Option<Seq<char>> {
    match t {
        Some(s) => Some(s@),
        None => None,
    }
}

/// A field as read, in terms of plain values.
pub open spec fn read_text(r: Option<Option<String>>) -> Option<Option<Seq<char>>> {
    match r {
        Some(t) => Some(opt_text(t)),
        None => None,
    }
}

fn find_attribute<'a>(el: &'a XmlElement, name: &str) -> (r: Option<&'a Vec<String>>)
    ensures
        match r {
            Some(v) => find_named(tree_of(*el).attributes, name@) == Some(texts_of(v@)),
            None => find_named(tree_of(*el).attributes, name@) is None,
        },
{
    let ghost view = tree_of(*el).attributes;
    assert(view == attributes_view(el.attributes@));
    let key = String::from_str(name);
    let mut i: usize = 0;
    assert(view.skip(0) =~= view);
    while i < el.attributes.len()
        invariant
            i <= el.attributes@.len(),
            key@ == name@,
            view == attributes_view(el.attributes@),
            find_named(view, name@) == find_named(view.skip(i as int), name@),
        decreases el.attributes@.len() - i,
    {
        proof {
            assert(view.skip(i as int).drop_first() =~= view.skip(i + 1));
            assert(view.skip(i as int)[0] == view[i as int]);
        }
        if el.attributes[i].0 == key {
            return Some(&el.attributes[i].1);
        }
        i = i + 1;
    }
    assert(view.skip(i as int) =~= Seq::<(Seq<char>, Seq<Seq<char>>)>::empty());
    None
}

fn find_members<'a>(el: &'a XmlElement, name: &str) -> (r: Option<&'a Vec<XmlElement>>)
    ensures
        match r {
            Some(v) => member_trees(tree_of(*el), name@) == Some(trees_of(v@)),
            None => member_trees(tree_of(*el), name@) is None,
        },
{
    match &el.members {
        XmlContent::Members(ms) => {
            let ghost view = members_view(ms@);
            proof {
                lemma_members_view(ms@);
                assert(member_trees(tree_of(*el), name@) == find_named(view, name@));
            }
            let key = String::from_str(name);
            let mut i: usize = 0;
            assert(view.skip(0) =~= view);
            while i < ms.len()
                invariant
                    i <= ms@.len(),
                    key@ == name@,
                    view == members_view(ms@),
                    view.len() == ms@.len(),
                    forall|j: int|
                        0 <= j < ms@.len() ==> #[trigger] view[j] == (ms@[j].0@, trees_of(
                            ms@[j].1@,
                        )),
                    member_trees(tree_of(*el), name@) == find_named(view, name@),
                    find_named(view, name@) == find_named(view.skip(i as int), name@),
                decreases ms@.len() - i,
            {
                proof {
                    assert(view.skip(i as int).drop_first() =~= view.skip(i + 1));
                    assert(view.skip(i as int)[0] == view[i as int]);
                }
                if ms[i].0 == key {
                    return Some(&ms[i].1);
                }
                i = i + 1;
            }
            assert(view.skip(i as int) =~= Seq::<(Seq<char>, Seq<XmlTree>)>::empty());
            None
        },
        _ => None,
    }
}

fn element_text_exec(el: &XmlElement) -> (r: Option<String>)
    ensures
        opt_text(r) == element_text(tree_of(*el)),
{
    if el.attributes.len() != 0 {
        return None;
    }
    match &el.members {
        XmlContent::Text(s) => Some(s.clone()),
        XmlContent::Nothing => Some(String::new()),
        XmlContent::Members(_) => None,
    }
}

/// Reads the text field `name` of `el`: `None` where it cannot be read as
/// text; otherwise the text, absent where the field is.
pub fn field_text_exec(el: &XmlElement, name: &str) -> (r: Option<Option<String>>)
    ensures
        read_text(r) == field_text(tree_of(*el), name@),
{
    match find_attribute(el, name) {
        Some(values) => {
            if values.len() > 0 {
                proof {
                    assert(texts_of(values@)[0] == values@[0]@);
                }
                return Some(Some(values[0].clone()));
            }
        },
        None => {},
    }
    match find_members(el, name) {
        Some(es) => {
            proof {
                lemma_trees_of(es@);
            }
            if es.len() > 0 {
                match element_text_exec(&es[0]) {
                    Some(s) => Some(Some(s)),
                    None => None,
                }
            } else {
                Some(None)
            }
        },
        None => Some(None),
    }
}

fn record_shaped_exec(el: &XmlElement) -> (r: bool)
    ensures
        r == record_shaped(tree_of(*el)),
{
    match &el.members {
        XmlContent::Text(_) => el.attributes.len() != 0,
        _ => true,
    }
}

fn has_attribute_exec(el: &XmlElement, name: &str) -> (r: bool)
    ensures
        r == has_attribute(tree_of(*el), name@),
{
    match find_attribute(el, name) {
        Some(values) => values.len() > 0,
        None => false,
    }
}


/// Whether `readable` holds of every tree of `ts`.
pub open spec fn all_readable(readable: spec_fn(XmlTree) -> bool, ts: Seq<XmlTree>) -> bool {
    forall|i: int| 0 <= i < ts.len() ==> readable(#[trigger] ts[i])
}

/// Whether `list` holds, in order, the records that `reads` relates to the
/// trees `ts`.
pub open spec fn all_read<R>(reads: spec_fn(R, XmlTree) -> bool, list: Seq<R>, ts: Seq<XmlTree>) -> bool {
    &&& list.len() == ts.len()
    &&& forall|i: int| 0 <= i < ts.len() ==> reads(#[trigger] list[i], ts[i])
}

/// Reads each element of `els` with `read`, which reads one record or
/// refuses an element as `Unreadable`; stops at the first refusal.
fn records_from<R, F: Fn(&XmlElement) -> Result<R, XmlReadError>>(
    els: &Vec<XmlElement>,
    read: F,
    Ghost(readable): Ghost<spec_fn(XmlTree) -> bool>,
    Ghost(reads): Ghost<spec_fn(R, XmlTree) -> bool>,
) -> (r: Result<Vec<R>, XmlReadError>)
    requires
        forall|el: &XmlElement| #[trigger] read.requires((el,)),
        forall|el: &XmlElement, res: Result<R, XmlReadError>| #[trigger]
            read.ensures((el,), res) ==> match res {
                Ok(v) => readable(tree_of(*el)) && reads(v, tree_of(*el)),
                Err(e) => !readable(tree_of(*el)) && e is Unreadable,
            },
    ensures
        match r {
            Ok(list) => all_readable(readable, trees_of(els@)) && all_read(
                reads,
                list@,
                trees_of(els@),
            ),
            Err(e) => !all_readable(readable, trees_of(els@)) && e is Unreadable,
        },
{
    proof {
        lemma_trees_of(els@);
    }
    let mut r: Vec<R> = Vec::new();
    let mut i: usize = 0;
    while i < els.len()
        invariant
            i <= els@.len(),
            trees_of(els@).len() == els@.len(),
            forall|j: int| 0 <= j < els@.len() ==> #[trigger] trees_of(els@)[j] == tree_of(els@[j]),
            r@.len() == i,
            forall|el: &XmlElement| #[trigger] read.requires((el,)),
            forall|el: &XmlElement, res: Result<R, XmlReadError>| #[trigger]
                read.ensures((el,), res) ==> match res {
                    Ok(v) => readable(tree_of(*el)) && reads(v, tree_of(*el)),
                    Err(e) => !readable(tree_of(*el)) && e is Unreadable,
                },
            all_readable(readable, trees_of(els@).take(i as int)),
            all_read(reads, r@, trees_of(els@).take(i as int)),
        decreases els@.len() - i,
    {
        let v = match read(&els[i]) {
            Ok(v) => v,
            Err(e) => {
                assert(!readable(trees_of(els@)[i as int]));
                return Err(e);
            },
        };
        let ghost before = r@;
        let ghost k = i as int;
        let ghost gv = v;
        r.push(v);
        i = i + 1;
        proof {
            assert(els@[k] == els[k]);
            let ts = trees_of(els@).take(i as int);
            assert forall|j: int| 0 <= j < i implies readable(#[trigger] ts[j]) by {
                if j < k {
                    assert(ts[j] == trees_of(els@).take(k)[j]);
                }
            }
            assert forall|j: int| 0 <= j < i implies reads(#[trigger] r@[j], ts[j]) by {
                if j < k {
                    assert(r@[j] == before[j]);
                    assert(ts[j] == trees_of(els@).take(k)[j]);
                } else {
                    assert(r@[j] == gv);
                }
            }
        }
    }
    assert(trees_of(els@).take(i as int) =~= trees_of(els@));
    Ok(r)
}

/// Whether `t` can be read as a violation.
pub open spec fn violation_readable(t: XmlTree) -> bool {
    &&& record_shaped(t)
    &&& field_text(t, "Violation_Type"@) is Some
    &&& field_text(t, "Violation_Descr"@) is Some
    &&& field_text(t, "Violation_Points"@) is Some
}

impl ViolationXml {
    /// Whether this is the violation that the element `t` describes.
    pub open spec fn reads(self, t: XmlTree) -> bool {
        &&& field_text(t, "Violation_Type"@) == Some(opt_text(self.violation_type))
        &&& field_text(t, "Violation_Descr"@) == Some(opt_text(self.violation_descr))
        &&& field_text(t, "Violation_Points"@) == Some(opt_text(self.violation_points))
    }

    /// The violation that a `Violation` element describes, or `Unreadable`
    /// where the element does not have the shape of one.
    pub fn from_element(el: &XmlElement) -> (r: Result<ViolationXml, XmlReadError>)
        ensures
            match r {
                Ok(v) => violation_readable(tree_of(*el)) && v.reads(tree_of(*el)),
                Err(e) => !violation_readable(tree_of(*el)) && e is Unreadable,
            },
    {
        if !record_shaped_exec(el) {
            return Err(XmlReadError::Unreadable);
        }
        let violation_type = match field_text_exec(el, "Violation_Type") {
            Some(t) => t,
            None => return Err(XmlReadError::Unreadable),
        };
        let violation_descr = match field_text_exec(el, "Violation_Descr") {
            Some(t) => t,
            None => return Err(XmlReadError::Unreadable),
        };
        let violation_points = match field_text_exec(el, "Violation_Points") {
            Some(t) => t,
            None => return Err(XmlReadError::Unreadable),
        };
        Ok(ViolationXml { violation_type, violation_descr, violation_points })
    }
}

/// Whether every element of `ts` can be read as a violation.
pub open spec fn violations_readable(ts: Seq<XmlTree>) -> bool {
    all_readable(|t: XmlTree| violation_readable(t), ts)
}

/// Whether `list` holds the violations that the elements `ts` describe.
pub open spec fn reads_violations(list: Seq<ViolationXml>, ts: Seq<XmlTree>) -> bool {
    all_read(|r: ViolationXml, t: XmlTree| r.reads(t), list, ts)
}


/// Whether `t` can be read as an inspection.
pub open spec fn inspection_readable(t: XmlTree) -> bool {
    &&& record_shaped(t)
    &&& field_text(t, "Inspection_Date"@) is Some
    &&& field_text(t, "Inspection_Business_Name"@) is Some
    &&& field_text(t, "Inspection_Type"@) is Some
    &&& field_text(t, "Inspection_Score"@) is Some
    &&& field_text(t, "Inspection_Result"@) is Some
    &&& field_text(t, "Inspection_Closed_Business"@) is Some
    &&& !has_attribute(t, "Violation"@)
    &&& (member_trees(t, "Violation"@) matches Some(ts) ==> violations_readable(ts))
}

impl InspectionXml {
    /// Whether this is the inspection that the element `t` describes.
    pub open spec fn reads(self, t: XmlTree) -> bool {
        &&& field_text(t, "Inspection_Date"@) == Some(opt_text(self.inspection_date))
        &&& field_text(t, "Inspection_Business_Name"@) == Some(
            opt_text(self.inspection_business_name),
        )
        &&& field_text(t, "Inspection_Type"@) == Some(opt_text(self.inspection_type))
        &&& field_text(t, "Inspection_Score"@) == Some(opt_text(self.inspection_score))
        &&& field_text(t, "Inspection_Result"@) == Some(opt_text(self.inspection_result))
        &&& field_text(t, "Inspection_Closed_Business"@) == Some(
            opt_text(self.inspection_closed_business),
        )
        &&& match member_trees(t, "Violation"@) {
            Some(ts) => self.violation matches Some(vs) && reads_violations(vs@, ts),
            None => self.violation is None,
        }
    }

    /// The inspection that an `Inspection` element describes, or
    /// `Unreadable` where the element does not have the shape of one.
    pub fn from_element(el: &XmlElement) -> (r: Result<InspectionXml, XmlReadError>)
        ensures
            match r {
                Ok(v) => inspection_readable(tree_of(*el)) && v.reads(tree_of(*el)),
                Err(e) => !inspection_readable(tree_of(*el)) && e is Unreadable,
            },
    {
        if !record_shaped_exec(el) || has_attribute_exec(el, "Violation") {
            return Err(XmlReadError::Unreadable);
        }
        let inspection_date = match field_text_exec(el, "Inspection_Date") {
            Some(t) => t,
            None => return Err(XmlReadError::Unreadable),
        };
        let inspection_business_name = match field_text_exec(el, "Inspection_Business_Name") {
            Some(t) => t,
            None => return Err(XmlReadError::Unreadable),
        };
        let inspection_type = match field_text_exec(el, "Inspection_Type") {
            Some(t) => t,
            None => return Err(XmlReadError::Unreadable),
        };
        let inspection_score = match field_text_exec(el, "Inspection_Score") {
            Some(t) => t,
            None => return Err(XmlReadError::Unreadable),
        };
        let inspection_result = match field_text_exec(el, "Inspection_Result") {
            Some(t) => t,
            None => return Err(XmlReadError::Unreadable),
        };
        let inspection_closed_business = match field_text_exec(el, "Inspection_Closed_Business") {
            Some(t) => t,
            None => return Err(XmlReadError::Unreadable),
        };
        let violation = match find_members(el, "Violation") {
            Some(els) => match records_from(
                els,
                ViolationXml::from_element,
                Ghost(|t: XmlTree| violation_readable(t)),
                Ghost(|r: ViolationXml, t: XmlTree| r.reads(t)),
            ) {
                Ok(vs) => Some(vs),
                Err(e) => return Err(e),
            },
            None => None,
        };
        Ok(
            InspectionXml {
                inspection_date,
                inspection_business_name,
                inspection_type,
                inspection_score,
                inspection_result,
                inspection_closed_business,
                violation,
            },
        )
    }
}

/// Whether every element of `ts` can be read as an inspection.
pub open spec fn inspections_readable(ts: Seq<XmlTree>) -> bool {
    all_readable(|t: XmlTree| inspection_readable(t), ts)
}

/// Whether `list` holds the inspections that the elements `ts` describe.
pub open spec fn reads_inspections(list: Seq<InspectionXml>, ts: Seq<XmlTree>) -> bool {
    all_read(|r: InspectionXml, t: XmlTree| r.reads(t), list, ts)
}



/// Whether `t` can be read as a business.
pub open spec fn business_readable(t: XmlTree) -> bool {
    &&& record_shaped(t)
    &&& field_text(t, "Name"@) is Some
    &&& field_text(t, "Program_Identifier"@) is Some
    &&& field_text(t, "Description"@) is Some
    &&& field_text(t, "Address"@) is Some
    &&& field_text(t, "City"@) is Some
    &&& field_text(t, "Zip_Code"@) is Some
    &&& field_text(t, "Phone"@) is Some
    &&& field_text(t, "Longitude"@) is Some
    &&& field_text(t, "Latitude"@) is Some
    &&& !has_attribute(t, "Inspection"@)
    &&& (member_trees(t, "Inspection"@) matches Some(ts) ==> inspections_readable(ts))
}

impl BusinessXml {
    /// Whether this is the business that the element `t` describes.
    pub open spec fn reads(self, t: XmlTree) -> bool {
        &&& field_text(t, "Name"@) == Some(opt_text(self.name))
        &&& field_text(t, "Program_Identifier"@) == Some(opt_text(self.program_identifier))
        &&& field_text(t, "Description"@) == Some(opt_text(self.description))
        &&& field_text(t, "Address"@) == Some(opt_text(self.address))
        &&& field_text(t, "City"@) == Some(opt_text(self.city))
        &&& field_text(t, "Zip_Code"@) == Some(opt_text(self.zip_code))
        &&& field_text(t, "Phone"@) == Some(opt_text(self.phone))
        &&& field_text(t, "Longitude"@) == Some(opt_text(self.longitude))
        &&& field_text(t, "Latitude"@) == Some(opt_text(self.latitude))
        &&& match member_trees(t, "Inspection"@) {
            Some(ts) => self.inspection matches Some(list) && reads_inspections(list@, ts),
            None => self.inspection is None,
        }
    }

    /// The business that a `Business` element describes, or `Unreadable`
    /// where the element does not have the shape of one.
    pub fn from_element(el: &XmlElement) -> (r: Result<BusinessXml, XmlReadError>)
        ensures
            match r {
                Ok(b) => business_readable(tree_of(*el)) && b.reads(tree_of(*el)),
                Err(e) => !business_readable(tree_of(*el)) && e is Unreadable,
            },
    {
        if !record_shaped_exec(el) || has_attribute_exec(el, "Inspection") {
            return Err(XmlReadError::Unreadable);
        }
        let name = match field_text_exec(el, "Name") {
            Some(t) => t,
            None => return Err(XmlReadError::Unreadable),
        };
        let program_identifier = match field_text_exec(el, "Program_Identifier") {
            Some(t) => t,
            None => return Err(XmlReadError::Unreadable),
        };
        let description = match field_text_exec(el, "Description") {
            Some(t) => t,
            None => return Err(XmlReadError::Unreadable),
        };
        let address = match field_text_exec(el, "Address") {
            Some(t) => t,
            None => return Err(XmlReadError::Unreadable),
        };
        let city = match field_text_exec(el, "City") {
            Some(t) => t,
            None => return Err(XmlReadError::Unreadable),
        };
        let zip_code = match field_text_exec(el, "Zip_Code") {
            Some(t) => t,
            None => return Err(XmlReadError::Unreadable),
        };
        let phone = match field_text_exec(el, "Phone") {
            Some(t) => t,
            None => return Err(XmlReadError::Unreadable),
        };
        let longitude = match field_text_exec(el, "Longitude") {
            Some(t) => t,
            None => return Err(XmlReadError::Unreadable),
        };
        let latitude = match field_text_exec(el, "Latitude") {
            Some(t) => t,
            None => return Err(XmlReadError::Unreadable),
        };
        let inspection = match find_members(el, "Inspection") {
            Some(els) => match records_from(
                els,
                InspectionXml::from_element,
                Ghost(|t: XmlTree| inspection_readable(t)),
                Ghost(|r: InspectionXml, t: XmlTree| r.reads(t)),
            ) {
                Ok(list) => Some(list),
                Err(e) => return Err(e),
            },
            None => None,
        };
        Ok(
            BusinessXml {
                name,
                program_identifier,
                description,
                address,
                city,
                zip_code,
                phone,
                longitude,
                latitude,
                inspection,
            },
        )
    }
}

/// Whether every element of `ts` can be read as a business.
pub open spec fn businesses_readable(ts: Seq<XmlTree>) -> bool {
    all_readable(|t: XmlTree| business_readable(t), ts)
}

/// Whether `list` holds the businesses that the elements `ts` describe.
pub open spec fn reads_businesses(list: Seq<BusinessXml>, ts: Seq<XmlTree>) -> bool {
    all_read(|r: BusinessXml, t: XmlTree| r.reads(t), list, ts)
}


/// Whether `t` can be read as a whole result set.
pub open spec fn results_readable(t: XmlTree) -> bool {
    &&& record_shaped(t)
    &&& field_text(t, "Disclaimer"@) is Some
    &&& !has_attribute(t, "Business"@)
    &&& (member_trees(t, "Business"@) matches Some(ts) ==> businesses_readable(ts))
}

impl BusinessInspectionViolation {
    /// Whether these are the results that the document's root element `t`
    /// describes; a document without businesses lists none.
    pub open spec fn reads(self, t: XmlTree) -> bool {
        &&& field_text(t, "Disclaimer"@) == Some(opt_text(self.disclaimer))
        &&& match member_trees(t, "Business"@) {
            Some(ts) => reads_businesses(self.business@, ts),
            None => self.business@.len() == 0,
        }
    }

    /// The results that the root element of a document describes, or
    /// `Unreadable` where it does not have the shape of them.
    pub fn from_element(el: &XmlElement) -> (r: Result<BusinessInspectionViolation, XmlReadError>)
        ensures
            match r {
                Ok(b) => results_readable(tree_of(*el)) && b.reads(tree_of(*el)),
                Err(e) => !results_readable(tree_of(*el)) && e is Unreadable,
            },
    {
        if !record_shaped_exec(el) || has_attribute_exec(el, "Business") {
            return Err(XmlReadError::Unreadable);
        }
        let disclaimer = match field_text_exec(el, "Disclaimer") {
            Some(t) => t,
            None => return Err(XmlReadError::Unreadable),
        };
        let business = match find_members(el, "Business") {
            Some(els) => match records_from(
                els,
                BusinessXml::from_element,
                Ghost(|t: XmlTree| business_readable(t)),
                Ghost(|r: BusinessXml, t: XmlTree| r.reads(t)),
            ) {
                Ok(list) => list,
                Err(e) => return Err(e),
            },
            None => Vec::new(),
        };
        Ok(BusinessInspectionViolation { disclaimer, business })
    }
}


/// A violation read from an element carries, in each of its fields, the
/// text of the element's child of that field's own name: its type from
/// `Violation_Type`, its description from `Violation_Descr`, its points from
/// `Violation_Points`, each absent exactly where that child is.
pub proof fn law_violation_fields_come_from_their_own_children(v: ViolationXml, t: XmlTree)
    requires
        v.reads(t),
    ensures
        field_text(t, "Violation_Type"@) == Some(opt_text(v.violation_type)),
        field_text(t, "Violation_Descr"@) == Some(opt_text(v.violation_descr)),
        field_text(t, "Violation_Points"@) == Some(opt_text(v.violation_points)),
{
}

/// An inspection read from an element carries, in each of its fields, the
/// text of the element's child of that field's own name, and as its
/// violations, in order, those that its `Violation` children describe:
/// none at all where it has no such child.
pub proof fn law_inspection_fields_come_from_their_own_children(i: InspectionXml, t: XmlTree)
    requires
        i.reads(t),
    ensures
        field_text(t, "Inspection_Date"@) == Some(opt_text(i.inspection_date)),
        field_text(t, "Inspection_Business_Name"@) == Some(opt_text(i.inspection_business_name)),
        field_text(t, "Inspection_Type"@) == Some(opt_text(i.inspection_type)),
        field_text(t, "Inspection_Score"@) == Some(opt_text(i.inspection_score)),
        field_text(t, "Inspection_Result"@) == Some(opt_text(i.inspection_result)),
        field_text(t, "Inspection_Closed_Business"@) == Some(opt_text(i.inspection_closed_business)),
        member_trees(t, "Violation"@) is None <==> i.violation is None,
        member_trees(t, "Violation"@) matches Some(ts) ==> (i.violation matches Some(vs) && vs@.len()
            == ts.len() && forall|k: int| 0 <= k < ts.len() ==> (#[trigger] vs@[k]).reads(ts[k])),
{
}

/// A business read from an element carries, in each of its fields, the text
/// of the element's child of that field's own name, and as its inspections,
/// in order, those that its `Inspection` children describe: none at all
/// where it has no such child.
pub proof fn law_business_fields_come_from_their_own_children(b: BusinessXml, t: XmlTree)
    requires
        b.reads(t),
    ensures
        field_text(t, "Name"@) == Some(opt_text(b.name)),
        field_text(t, "Program_Identifier"@) == Some(opt_text(b.program_identifier)),
        field_text(t, "Description"@) == Some(opt_text(b.description)),
        field_text(t, "Address"@) == Some(opt_text(b.address)),
        field_text(t, "City"@) == Some(opt_text(b.city)),
        field_text(t, "Zip_Code"@) == Some(opt_text(b.zip_code)),
        field_text(t, "Phone"@) == Some(opt_text(b.phone)),
        field_text(t, "Longitude"@) == Some(opt_text(b.longitude)),
        field_text(t, "Latitude"@) == Some(opt_text(b.latitude)),
        member_trees(t, "Inspection"@) is None <==> b.inspection is None,
        member_trees(t, "Inspection"@) matches Some(ts) ==> (b.inspection matches Some(list)
            && list@.len() == ts.len() && forall|k: int|
            0 <= k < ts.len() ==> (#[trigger] list@[k]).reads(ts[k])),
{
}

/// The results read from a document's root carry its `Disclaimer` text, and
/// as businesses, in order, those that its `Business` children describe:
/// none where it has no such child.
pub proof fn law_results_come_from_their_own_children(r: BusinessInspectionViolation, t: XmlTree)
    requires
        r.reads(t),
    ensures
        field_text(t, "Disclaimer"@) == Some(opt_text(r.disclaimer)),
        member_trees(t, "Business"@) is None ==> r.business@.len() == 0,
        member_trees(t, "Business"@) matches Some(ts) ==> (r.business@.len() == ts.len() && forall|
            k: int,
        | 0 <= k < ts.len() ==> (#[trigger] r.business@[k]).reads(ts[k])),
{
}

/// Where an element keeps a text-only child under `name`, as serde_xml does
/// for those before its first child with children, the field of that name
/// reads as that child's text: `field_text` looks nowhere else first.
pub proof fn law_text_children_are_read_as_written(t: XmlTree, name: Seq<char>, text: Seq<char>, rest: Seq<Seq<char>>)
    requires
        find_named(t.attributes, name) == Some(seq![text] + rest),
    ensures
        field_text(t, name) == Some(Some(text)),
{
    assert((seq![text] + rest)[0] == text);
}

/// serde_xml's generic element tree, which the parse yields; opaque here.
#[verifier::external_type_specification]
#[verifier::external_body]
pub struct ExXmlValueElement(serde_xml::value::Element);

/// The root element of the XML document `text`, as serde_xml reads it into
/// its generic element tree; `None` where serde_xml does not read `text` as
/// a document.
pub uninterp spec fn xml_root(text: Seq<char>) -> Option<XmlTree>;

/// A tree of serde_xml as an `XmlElement`, one field for one; the maps of
/// serde_xml become lists in the order of their keys. It makes no call of
/// its own and is used only inside `parse_xml`, whose contract covers what
/// it returns.
#[verifier::external_body]
fn element_of(e: serde_xml::value::Element) -> XmlElement {
    let attributes = e.attributes.into_iter().collect();
    let members = match e.members {
        serde_xml::value::Content::Members(ms) => XmlContent::Members(
            ms.into_iter().map(|(k, v)| (k, v.into_iter().map(element_of).collect())).collect(),
        ),
        serde_xml::value::Content::Text(s) => XmlContent::Text(s),
        serde_xml::value::Content::Nothing => XmlContent::Nothing,
    };
    XmlElement { attributes, members }
}

/// Whether the key `$value`, under which serde_xml keeps the text that an
/// element holds, starts at byte `i` of `b`.
pub open spec fn value_key_at(b: Seq<u8>, i: int) -> bool {
    &&& 0 <= i
    &&& i + 6 <= b.len()
    &&& b[i] == 36
    &&& b[i + 1] == 118
    &&& b[i + 2] == 97
    &&& b[i + 3] == 108
    &&& b[i + 4] == 117
    &&& b[i + 5] == 101
}

/// Whether the bytes `b` hold the key `$value` anywhere.
pub open spec fn mentions_value_key(b: Seq<u8>) -> bool {
    exists|i: int| #[trigger] value_key_at(b, i)
}

/// Whether the text `text` holds the key `$value` anywhere.
pub fn mentions_value_key_exec(text: &str) -> (r: bool)
    ensures
        r == mentions_value_key(text.spec_bytes()),
{
    let b = text.as_bytes();
    let n = b.len();
    let mut i: usize = 0;
    while n >= 6 && i <= n - 6
        invariant
            n == b@.len(),
            b@ == text.spec_bytes(),
            i <= n,
            forall|j: int| 0 <= j < i ==> !#[trigger] value_key_at(b@, j),
        decreases n - i,
    {
        if b[i] == 36 && b[i + 1] == 118 && b[i + 2] == 97 && b[i + 3] == 108 && b[i + 4] == 117
            && b[i + 5] == 101 {
            assert(value_key_at(text.spec_bytes(), i as int));
            return true;
        }
        i = i + 1;
    }
    assert forall|j: int| !#[trigger] value_key_at(b@, j) by {
        if 0 <= j < i {
        }
    }
    false
}

/// serde_xml's `from_str` into its generic `Element`: the claim is that
/// the tree it returns, taken one field for one, is `xml_root(text)`, and
/// that it fails exactly where `xml_root(text)` is `None`. What the tree is
/// for a given text is not stated.
///
/// serde_xml panics (`unreachable!` in its element visitor) where an
/// element gets a second key after the key `$value` that holds its text;
/// that needs an element or attribute named `$value`, so texts holding that
/// key are left out. Text mixed with elements is a lexing error there, not
/// a panic. The depth of the stack, which serde_xml's recursive descent uses
/// in proportion to the nesting and to the length of a text run, is a limit
/// of the machine and is not stated.
#[verifier::external_body]
fn parse_xml(text: &str) -> (r: Option<XmlElement>)
    requires
        !mentions_value_key(text.spec_bytes()),
    ensures
        match r {
            Some(e) => xml_root(text@) == Some(tree_of(e)),
            None => xml_root(text@) is None,
        },
{
    match serde_xml::from_str::<serde_xml::value::Element>(text) {
        Ok(e) => Some(element_of(e)),
        Err(_) => None,
    }
}

/// Reads the published results out of the XML text `text`: `NotXml` where
/// the text holds the key `$value` (which no name of the results is, and on
/// which the parser can stop with a panic) or is not a document,
/// `Unreadable` where its root element does not have the shape of the
/// results, the results it describes otherwise.
pub fn results_from_text(text: &str) -> (r: Result<BusinessInspectionViolation, XmlReadError>)
    ensures
        mentions_value_key(text.spec_bytes()) ==> r matches Err(XmlReadError::NotXml),
        !mentions_value_key(text.spec_bytes()) ==> match xml_root(text@) {
            Some(t) => match r {
                Ok(b) => results_readable(t) && b.reads(t),
                Err(e) => !results_readable(t) && e is Unreadable,
            },
            None => r matches Err(XmlReadError::NotXml),
        },
{
    if mentions_value_key_exec(text) {
        return Err(XmlReadError::NotXml);
    }
    match parse_xml(text) {
        Some(root) => BusinessInspectionViolation::from_element(&root),
        None => Err(XmlReadError::NotXml),
    }
}

} // verus!
