//! What the web service computes for its pages: the places of a map area
//! with their inspections and violations, grouped under each other, and the
//! documents it answers with.

use vstd::prelude::*;
use vstd::string::*;
use crate::datetime::DateTime;
use crate::models::{Inspection, Place, Violation};

verus! {

/// A record that belongs to a parent record, which it names by the parent's
/// id.
pub trait BelongsTo {
    /// The id of the parent record.
    spec fn parent_key(&self) -> i32;

    /// The id of the parent record.
    fn parent_id(&self) -> (r: i32)
        ensures
            r == self.parent_key(),
    ;
}

impl BelongsTo for Inspection {
    open spec fn parent_key(&self) -> i32 {
        self.place_id
    }

    fn parent_id(&self) -> (r: i32) {
        self.place_id
    }
}

impl BelongsTo for Violation {
    open spec fn parent_key(&self) -> i32 {
        self.inspection_id
    }

    fn parent_id(&self) -> (r: i32) {
        self.inspection_id
    }
}

impl BelongsTo for (Inspection, Vec<Violation>) {
    open spec fn parent_key(&self) -> i32 {
        self.0.place_id
    }

    fn parent_id(&self) -> (r: i32) {
        self.0.place_id
    }
}

/// Whether `i` is the last position at which its id occurs in `ids`.
pub open spec fn is_last_index(ids: Seq<i32>, i: int) -> bool {
    &&& 0 <= i < ids.len()
    &&& forall|j: int| i < j < ids.len() ==> ids[j] != ids[i]
}

/// The children that fall to the parent at position `i` of `parents`: those
/// that name its id, in their order, where `i` is the last position of that
/// id; none at an earlier position of an id that occurs twice.
pub open spec fn group_by_key<C>(children: Seq<C>, key: spec_fn(C) -> i32, parents: Seq<i32>, i: int) -> Seq<C> {
    if is_last_index(parents, i) {
        children.filter(|c: C| key(c) == parents[i])
    } else {
        Seq::empty()
    }
}

/// Whether every child names the id of one of the parents.
pub open spec fn all_have_parents<C>(children: Seq<C>, key: spec_fn(C) -> i32, parents: Seq<i32>) -> bool {
    forall|k: int| 0 <= k < children.len() ==> parents.contains(#[trigger] key(children[k]))
}

/// The key of a record by the trait.
pub open spec fn parent_key_of<C: BelongsTo>() -> spec_fn(C) -> i32 {
    |c: C| c.parent_key()
}

/// The last position of `key` in `ids`.
fn last_index(ids: &Vec<i32>, key: i32) -> (r: usize)
    requires
        ids@.contains(key),
    ensures
        r < ids@.len(),
        ids@[r as int] == key,
        is_last_index(ids@, r as int),
{
    let mut i: usize = ids.len();
    while i > 0
        invariant
            i <= ids@.len(),
            ids@.contains(key),
            forall|j: int| i <= j < ids@.len() ==> ids@[j] != key,
        decreases i,
    {
        if ids[i - 1] == key {
            return i - 1;
        }
        i = i - 1;
    }
    proof {
        let j = choose|j: int| 0 <= j < ids@.len() && ids@[j] == key;
        assert(ids@[j] != key);
    }
    0
}

/// Puts each child under the parent whose id it names, as diesel's
/// `grouped_by` does: one group per parent, in the order of the parents,
/// each holding its children in their order. Where an id occurs twice among
/// the parents, its children go to its last occurrence.
pub fn grouped_by<C: BelongsTo>(children: Vec<C>, parents: &Vec<i32>) -> (r: Vec<Vec<C>>)
    requires
        all_have_parents(children@, parent_key_of::<C>(), parents@),
    ensures
        r@.len() == parents@.len(),
        forall|i: int|
            0 <= i < parents@.len() ==> #[trigger] r@[i]@ == group_by_key(
                children@,
                parent_key_of::<C>(),
                parents@,
                i,
            ),
{
    broadcast use vstd::seq_lib::group_filter_ensures;
    let n = parents.len();
    let mut groups: Vec<Vec<C>> = Vec::new();
    let mut i: usize = 0;
    while i < n
        invariant
            n == parents@.len(),
            i <= n,
            groups@.len() == i,
            forall|j: int| 0 <= j < i ==> (#[trigger] groups@[j])@ == Seq::<C>::empty(),
        decreases n - i,
    {
        groups.push(Vec::new());
        i = i + 1;
    }
    let ghost all = children@;
    let total = children.len();
    let ghost key = parent_key_of::<C>();
    let mut children = children;
    let mut k: usize = 0;
    proof {
        assert forall|j: int| 0 <= j < n implies (#[trigger] groups@[j])@ == group_by_key(
            all.take(0),
            key,
            parents@,
            j,
        ) by {
            assert(all.take(0) =~= Seq::<C>::empty());
            reveal_with_fuel(Seq::filter, 1);
        }
    }
    while children.len() > 0
        invariant
            n == parents@.len(),
            groups@.len() == n,
            k <= all.len(),
            all.len() == total,
            children@ == all.skip(k as int),
            key == parent_key_of::<C>(),
            all_have_parents(all, key, parents@),
            forall|j: int|
                0 <= j < n ==> (#[trigger] groups@[j])@ == group_by_key(
                    all.take(k as int),
                    key,
                    parents@,
                    j,
                ),
        decreases children@.len(),
    {
        assert(k < all.len());
        let c = children.remove(0);
        proof {
            assert(c == all[k as int]);
            assert(children@ =~= all.skip(k + 1));
            assert(all.take(k + 1) =~= all.take(k as int).push(c));
            assert(parents@.contains(key(all[k as int])));
        }
        let id = c.parent_id();
        let idx = last_index(parents, id);
        let ghost before = groups@;
        let mut group: Vec<C> = Vec::new();
        std::mem::swap(&mut group, &mut groups[idx]);
        group.push(c);
        std::mem::swap(&mut group, &mut groups[idx]);
        k = k + 1;
        proof {
            assert forall|j: int| 0 <= j < n implies (#[trigger] groups@[j])@ == group_by_key(
                all.take(k as int),
                key,
                parents@,
                j,
            ) by {
                let prev = all.take(k - 1);
                if is_last_index(parents@, j) {
                    let pred = |x: C| key(x) == parents@[j];
                    prev.lemma_filter_push(c, pred);
                    if j != idx {
                        assert(parents@[j] != id) by {
                            if parents@[j] == id {
                                if j < idx {
                                    assert(parents@[idx as int] == parents@[j]);
                                } else {
                                    assert(parents@[j] == parents@[idx as int]);
                                }
                            }
                        }
                        assert(groups@[j] == before[j]);
                    }
                } else {
                    assert(j != idx);
                    assert(groups@[j] == before[j]);
                }
            }
        }
    }
    proof {
        assert(all.take(k as int) =~= all);
    }
    groups
}


/// Every child in the group of a parent names that parent's id.
pub proof fn lemma_group_members_name_their_parent<C>(
    children: Seq<C>,
    key: spec_fn(C) -> i32,
    parents: Seq<i32>,
    i: int,
    j: int,
)
    requires
        0 <= j < group_by_key(children, key, parents, i).len(),
    ensures
        key(group_by_key(children, key, parents, i)[j]) == parents[i],
{
    let pred = |c: C| key(c) == parents[i];
    children.lemma_filter_pred(pred, j);
}

proof fn lemma_last_occurrence(ids: Seq<i32>, j: int)
    requires
        0 <= j < ids.len(),
    ensures
        exists|i: int| j <= i && is_last_index(ids, i) && ids[i] == ids[j],
    decreases ids.len() - j,
{
    if exists|m: int| j < m < ids.len() && ids[m] == ids[j] {
        let m = choose|m: int| j < m < ids.len() && ids[m] == ids[j];
        lemma_last_occurrence(ids, m);
        let i = choose|i: int| m <= i && is_last_index(ids, i) && ids[i] == ids[m];
        assert(j <= i && is_last_index(ids, i) && ids[i] == ids[j]);
    } else {
        assert(is_last_index(ids, j));
    }
}

/// Every child whose parent is among the parents lands in the group of the
/// last position of that parent's id.
pub proof fn lemma_child_falls_to_its_parent<C>(
    children: Seq<C>,
    key: spec_fn(C) -> i32,
    parents: Seq<i32>,
    k: int,
)
    requires
        all_have_parents(children, key, parents),
        0 <= k < children.len(),
    ensures
        exists|i: int|
            is_last_index(parents, i) && parents[i] == key(children[k]) && #[trigger] group_by_key(
                children,
                key,
                parents,
                i,
            ).contains(children[k]),
{
    assert(parents.contains(key(children[k])));
    let j = choose|j: int| 0 <= j < parents.len() && parents[j] == key(children[k]);
    lemma_last_occurrence(parents, j);
    let i = choose|i: int| j <= i && is_last_index(parents, i) && parents[i] == parents[j];
    let pred = |c: C| key(c) == parents[i];
    children.lemma_filter_contains(pred, k);
    assert(group_by_key(children, key, parents, i).contains(children[k]));
}

/// Pairs up the items of two lists, position by position, as far as the
/// shorter list reaches.
pub fn zip<A, B>(a: Vec<A>, b: Vec<B>) -> (r: Vec<(A, B)>)
    ensures
        r@.len() == if a@.len() <= b@.len() {
            a@.len()
        } else {
            b@.len()
        },
        forall|i: int| 0 <= i < r@.len() ==> #[trigger] r@[i] == (a@[i], b@[i]),
{
    let ghost a0 = a@;
    let ghost b0 = b@;
    let total = a.len();
    let mut a = a;
    let mut b = b;
    let mut r: Vec<(A, B)> = Vec::new();
    let mut k: usize = 0;
    while a.len() > 0 && b.len() > 0
        invariant
            k <= a0.len(),
            k <= b0.len(),
            a0.len() == total,
            a@ == a0.skip(k as int),
            b@ == b0.skip(k as int),
            r@.len() == k,
            forall|i: int| 0 <= i < k ==> #[trigger] r@[i] == (a0[i], b0[i]),
        decreases a@.len(),
    {
        let x = a.remove(0);
        let y = b.remove(0);
        proof {
            assert(x == a0[k as int]);
            assert(y == b0[k as int]);
            assert(a@ =~= a0.skip(k + 1));
            assert(b@ =~= b0.skip(k + 1));
        }
        r.push((x, y));
        k = k + 1;
    }
    r
}

/// The ids of the places, in their order.
pub open spec fn place_ids(places: Seq<Place>) -> Seq<i32> {
    places.map_values(|p: Place| p.id)
}

/// The ids of the inspections, in their order.
pub open spec fn inspection_ids(inspections: Seq<Inspection>) -> Seq<i32> {
    inspections.map_values(|i: Inspection| i.id)
}

fn ids_of_places(places: &Vec<Place>) -> (r: Vec<i32>)
    ensures
        r@ == place_ids(places@),
{
    let mut r: Vec<i32> = Vec::new();
    let mut i: usize = 0;
    while i < places.len()
        invariant
            i <= places@.len(),
            r@ == place_ids(places@.take(i as int)),
        decreases places@.len() - i,
    {
        r.push(places[i].id);
        i = i + 1;
        assert(place_ids(places@.take(i as int)) =~= place_ids(places@.take(i - 1)).push(
            places@[i - 1].id,
        ));
    }
    assert(places@.take(i as int) =~= places@);
    r
}

fn ids_of_inspections(inspections: &Vec<Inspection>) -> (r: Vec<i32>)
    ensures
        r@ == inspection_ids(inspections@),
{
    let mut r: Vec<i32> = Vec::new();
    let mut i: usize = 0;
    while i < inspections.len()
        invariant
            i <= inspections@.len(),
            r@ == inspection_ids(inspections@.take(i as int)),
        decreases inspections@.len() - i,
    {
        r.push(inspections[i].id);
        i = i + 1;
        assert(inspection_ids(inspections@.take(i as int)) =~= inspection_ids(
            inspections@.take(i - 1),
        ).push(inspections@[i - 1].id));
    }
    assert(inspections@.take(i as int) =~= inspections@);
    r
}

impl Violation {
    /// Each of the inspections with its violations, in the order of the
    /// inspections.
    pub fn for_inspections<'a>(inspections: &'a Vec<Inspection>, violations: Vec<Violation>) -> (r:
        Vec<(&'a Inspection, Vec<Violation>)>)
        requires
            all_have_parents(
                violations@,
                parent_key_of::<Violation>(),
                inspection_ids(inspections@),
            ),
        ensures
            r@.len() == inspections@.len(),
            forall|i: int|
                0 <= i < r@.len() ==> *(#[trigger] r@[i]).0 == inspections@[i] && r@[i].1@
                    == group_by_key(
                    violations@,
                    parent_key_of::<Violation>(),
                    inspection_ids(inspections@),
                    i,
                ),
    {
        let ids = ids_of_inspections(inspections);
        let mut groups = grouped_by(violations, &ids);
        let ghost g0 = groups@;
        let mut r: Vec<(&'a Inspection, Vec<Violation>)> = Vec::new();
        let mut i: usize = 0;
        while i < inspections.len()
            invariant
                i <= inspections@.len(),
                g0.len() == inspections@.len(),
                groups@ == g0.skip(i as int),
                r@.len() == i,
                forall|j: int| 0 <= j < i ==> *(#[trigger] r@[j]).0 == inspections@[j] && r@[j].1
                    == g0[j],
            decreases inspections@.len() - i,
        {
            let g = groups.remove(0);
            proof {
                assert(g == g0[i as int]);
                assert(groups@ =~= g0.skip(i + 1));
            }
            r.push((&inspections[i], g));
            i = i + 1;
        }
        r
    }
}


/// An inspection and its violations, in terms of plain values.
pub open spec fn pair_view(p: (Inspection, Vec<Violation>)) -> (Inspection, Seq<Violation>) {
    (p.0, p.1@)
}

/// Each inspection with the violations that fall to it.
pub open spec fn inspections_with_violations(
    inspections: Seq<Inspection>,
    violations: Seq<Violation>,
) -> Seq<(Inspection, Seq<Violation>)> {
    Seq::new(
        inspections.len(),
        |j: int|
            (
                inspections[j],
                group_by_key(
                    violations,
                    parent_key_of::<Violation>(),
                    inspection_ids(inspections),
                    j,
                ),
            ),
    )
}

/// The place an inspection with its violations belongs to.
pub open spec fn place_of_pair() -> spec_fn((Inspection, Seq<Violation>)) -> i32 {
    |p: (Inspection, Seq<Violation>)| p.0.place_id
}

/// Filtering by a predicate on the image commutes with taking the image.
proof fn lemma_filter_map_values<A, B>(s: Seq<A>, f: spec_fn(A) -> B, q: spec_fn(B) -> bool)
    ensures
        s.filter(|x: A| q(f(x))).map_values(f) == s.map_values(f).filter(q),
    decreases s.len(),
{
    reveal_with_fuel(Seq::filter, 1);
    if s.len() > 0 {
        let init = s.drop_last();
        lemma_filter_map_values(init, f, q);
        assert(s.map_values(f).drop_last() =~= init.map_values(f));
        assert(init.filter(|x: A| q(f(x))).push(s.last()).map_values(f) =~= init.filter(
            |x: A| q(f(x)),
        ).map_values(f).push(f(s.last())));
    } else {
        assert(s.filter(|x: A| q(f(x))).map_values(f) =~= s.map_values(f).filter(q));
    }
}

impl Place {
    /// The places of a map area, each with its inspections and each of those
    /// with its violations. `places` are the places found in the area, in the
    /// order the query returned them; `inspection_list` the inspections of
    /// those places; `violations` the violations of those inspections.
    pub fn in_the_bounds(
        places: Vec<Place>,
        inspection_list: Vec<Inspection>,
        violations: Vec<Violation>,
    ) -> (r: Vec<(Place, Vec<(Inspection, Vec<Violation>)>)>)
        requires
            all_have_parents(inspection_list@, parent_key_of::<Inspection>(), place_ids(places@)),
            all_have_parents(
                violations@,
                parent_key_of::<Violation>(),
                inspection_ids(inspection_list@),
            ),
        ensures
            r@.len() == places@.len(),
            forall|i: int|
                0 <= i < r@.len() ==> (#[trigger] r@[i]).0 == places@[i] && r@[i].1@.map_values(
                    |p: (Inspection, Vec<Violation>)| pair_view(p),
                ) == group_by_key(
                    inspections_with_violations(inspection_list@, violations@),
                    place_of_pair(),
                    place_ids(places@),
                    i,
                ),
    {
        let ghost insp = inspection_list@;
        let ghost pids = place_ids(places@);
        let place_ids_v = ids_of_places(&places);
        let inspection_ids_v = ids_of_inspections(&inspection_list);
        let violation_groups = grouped_by(violations, &inspection_ids_v);
        let pairs = zip(inspection_list, violation_groups);
        let ghost fv = |p: (Inspection, Vec<Violation>)| pair_view(p);
        proof {
            assert(pairs@.map_values(fv) =~= inspections_with_violations(insp, violations@));
            assert forall|k: int| 0 <= k < pairs@.len() implies pids.contains(
                #[trigger] parent_key_of::<(Inspection, Vec<Violation>)>()(pairs@[k]),
            ) by {
                assert(parent_key_of::<Inspection>()(insp[k]) == pairs@[k].0.place_id);
            }
        }
        let place_groups = grouped_by(pairs, &place_ids_v);
        let ghost ps = places@;
        let r = zip(places, place_groups);
        proof {
            assert forall|i: int| 0 <= i < r@.len() implies (#[trigger] r@[i]).0 == ps[i]
                && r@[i].1@.map_values(fv) == group_by_key(
                inspections_with_violations(insp, violations@),
                place_of_pair(),
                pids,
                i,
            ) by {
                if is_last_index(pids, i) {
                    let q = |p: (Inspection, Seq<Violation>)| place_of_pair()(p) == pids[i];
                    lemma_filter_map_values(pairs@, fv, q);
                    assert((|c: (Inspection, Vec<Violation>)|
                        parent_key_of::<(Inspection, Vec<Violation>)>()(c) == pids[i]) =~= (|
                        x: (Inspection, Vec<Violation>),
                    | q(fv(x))));
                } else {
                    assert(r@[i].1@.map_values(fv) =~= Seq::<(Inspection, Seq<Violation>)>::empty());
                }
            }
        }
        r
    }
}


/// An inspection with its violations, as the map view receives it.
#[derive(Debug, PartialEq, Eq)]
pub struct InspectionJson {
    pub violations: Vec<Violation>,
    pub id: i32,
    pub place_id: i32,
    pub closed: bool,
    pub inspected_at: DateTime,
    pub inspection_type: String,
    pub inspection_score: i32,
}

/// A place with its inspections, as the map view receives it. The
/// coordinates are the bit patterns of IEEE-754 double-precision values.
#[derive(Debug, PartialEq, Eq)]
pub struct PlaceDetailsJson {
    pub inspections: Vec<InspectionJson>,
    pub id: i32,
    pub name: String,
    pub program_identifier: String,
    pub description: Option<String>,
    pub longitude: u64,
    pub latitude: u64,
}

/// The answer to a request for the places of a map area.
#[derive(Debug, PartialEq, Eq)]
pub struct PlacesJson {
    pub results: Vec<PlaceDetailsJson>,
    pub status: i32,
    pub reason: Option<String>,
}

impl InspectionJson {
    /// Whether this document shows the inspection `inspection` with the
    /// violations `violations`.
    pub open spec fn describes(self, inspection: Inspection, violations: Vec<Violation>) -> bool {
        &&& self.violations == violations
        &&& self.id == inspection.id
        &&& self.place_id == inspection.place_id
        &&& self.closed == inspection.closed
        &&& self.inspected_at == inspection.inspected_at
        &&& self.inspection_type == inspection.inspection_type
        &&& self.inspection_score == inspection.inspection_score
    }
}

impl PlaceDetailsJson {
    /// Whether this document shows the place `place` with the inspections
    /// `inspections`, in their order.
    pub open spec fn describes(self, place: Place, inspections: Seq<(Inspection, Vec<Violation>)>) -> bool {
        &&& self.id == place.id
        &&& self.name == place.name
        &&& self.program_identifier == place.program_identifier
        &&& self.description == place.description
        &&& self.longitude == place.longitude
        &&& self.latitude == place.latitude
        &&& self.inspections@.len() == inspections.len()
        &&& forall|j: int|
            0 <= j < inspections.len() ==> (#[trigger] self.inspections@[j]).describes(
                inspections[j].0,
                inspections[j].1,
            )
    }
}

fn inspections_json(inspections: Vec<(Inspection, Vec<Violation>)>) -> (r: Vec<InspectionJson>)
    ensures
        r@.len() == inspections@.len(),
        forall|j: int|
            0 <= j < r@.len() ==> (#[trigger] r@[j]).describes(inspections@[j].0, inspections@[j].1),
{
    let ghost all = inspections@;
    let total = inspections.len();
    let mut rest = inspections;
    let mut r: Vec<InspectionJson> = Vec::new();
    let mut k: usize = 0;
    while rest.len() > 0
        invariant
            k <= all.len(),
            all.len() == total,
            rest@ == all.skip(k as int),
            r@.len() == k,
            forall|j: int| 0 <= j < k ==> (#[trigger] r@[j]).describes(all[j].0, all[j].1),
        decreases rest@.len(),
    {
        assert(k < all.len());
        let (i, violations) = rest.remove(0);
        proof {
            assert((i, violations) == all[k as int]);
            assert(rest@ =~= all.skip(k + 1));
        }
        r.push(
            InspectionJson {
                violations,
                id: i.id,
                place_id: i.place_id,
                closed: i.closed,
                inspected_at: i.inspected_at,
                inspection_type: i.inspection_type,
                inspection_score: i.inspection_score,
            },
        );
        k = k + 1;
    }
    r
}

/// The answer to a request for the places of a map area: each place with
/// its inspections and their violations, in their order, under the status
/// 300 and no reason.
pub fn places_json(records: Vec<(Place, Vec<(Inspection, Vec<Violation>)>)>) -> (r: PlacesJson)
    ensures
        r.status == 300,
        r.reason is None,
        r.results@.len() == records@.len(),
        forall|i: int|
            0 <= i < records@.len() ==> (#[trigger] r.results@[i]).describes(
                records@[i].0,
                records@[i].1@,
            ),
{
    let ghost all = records@;
    let total = records.len();
    let mut rest = records;
    let mut results: Vec<PlaceDetailsJson> = Vec::new();
    let mut k: usize = 0;
    while rest.len() > 0
        invariant
            k <= all.len(),
            all.len() == total,
            rest@ == all.skip(k as int),
            results@.len() == k,
            forall|j: int| 0 <= j < k ==> (#[trigger] results@[j]).describes(all[j].0, all[j].1@),
        decreases rest@.len(),
    {
        assert(k < all.len());
        let (place, inspections) = rest.remove(0);
        proof {
            assert((place, inspections) == all[k as int]);
            assert(rest@ =~= all.skip(k + 1));
        }
        let ghost shown = inspections@;
        let inspections = inspections_json(inspections);
        results.push(
            PlaceDetailsJson {
                inspections,
                id: place.id,
                name: place.name,
                program_identifier: place.program_identifier,
                description: place.description,
                longitude: place.longitude,
                latitude: place.latitude,
            },
        );
        k = k + 1;
    }
    PlacesJson { results, status: 300, reason: None }
}

/// The items the front page lists.
pub fn index_items() -> (r: Vec<String>)
    ensures
        r@.len() == 3,
        r@[0]@ == "One"@,
        r@[1]@ == "Two"@,
        r@[2]@ == "Three"@,
{
    let mut r: Vec<String> = Vec::new();
    r.push(String::from_str("One"));
    r.push(String::from_str("Two"));
    r.push(String::from_str("Three"));
    r
}

/// The answer to a search: the search is not implemented, and every request
/// is answered with the same greeting, whatever it captures and however many
/// results it asks for.
pub fn search(captures: &str, limit: Option<i64>) -> (r: &'static str)
    ensures
        r@ == "Hello, world!"@,
{
    "Hello, world!"
}

/// A place document shows its own place: the same id, name, program
/// identifier, description and coordinates, and, in order, one inspection
/// document per inspection of the place, each with that inspection's id,
/// place, closing, date, type, score and violations.
pub proof fn law_place_document_shows_its_place(
    d: PlaceDetailsJson,
    place: Place,
    inspections: Seq<(Inspection, Vec<Violation>)>,
)
    requires
        d.describes(place, inspections),
    ensures
        d.id == place.id,
        d.name == place.name,
        d.program_identifier == place.program_identifier,
        d.description == place.description,
        d.longitude == place.longitude,
        d.latitude == place.latitude,
        d.inspections@.len() == inspections.len(),
        forall|j: int|
            0 <= j < inspections.len() ==> {
                let ij = #[trigger] d.inspections@[j];
                &&& ij.id == inspections[j].0.id
                &&& ij.place_id == inspections[j].0.place_id
                &&& ij.closed == inspections[j].0.closed
                &&& ij.inspected_at == inspections[j].0.inspected_at
                &&& ij.inspection_type == inspections[j].0.inspection_type
                &&& ij.inspection_score == inspections[j].0.inspection_score
                &&& ij.violations == inspections[j].1
            },
{
    assert forall|j: int| 0 <= j < inspections.len() implies {
        let ij = #[trigger] d.inspections@[j];
        &&& ij.id == inspections[j].0.id
        &&& ij.place_id == inspections[j].0.place_id
        &&& ij.closed == inspections[j].0.closed
        &&& ij.inspected_at == inspections[j].0.inspected_at
        &&& ij.inspection_type == inspections[j].0.inspection_type
        &&& ij.inspection_score == inspections[j].0.inspection_score
        &&& ij.violations == inspections[j].1
    } by {
        assert(d.inspections@[j].describes(inspections[j].0, inspections[j].1));
    }
}

/// In the grouping of a map area, every inspection listed under a place is
/// one of that place's (it names the place's id), and every violation listed
/// under such an inspection is one of that inspection's (it names the
/// inspection's id).
pub proof fn law_grouped_records_belong_to_their_parents(
    places: Seq<Place>,
    inspections: Seq<Inspection>,
    violations: Seq<Violation>,
    i: int,
    j: int,
    k: int,
)
    requires
        0 <= i < places.len(),
        0 <= j < group_by_key(
            inspections_with_violations(inspections, violations),
            place_of_pair(),
            place_ids(places),
            i,
        ).len(),
    ensures
        ({
            let listed = group_by_key(
                inspections_with_violations(inspections, violations),
                place_of_pair(),
                place_ids(places),
                i,
            )[j];
            &&& listed.0.place_id == places[i].id
            &&& 0 <= k < listed.1.len() ==> listed.1[k].inspection_id == listed.0.id
        }),
{
    broadcast use vstd::seq_lib::group_filter_ensures;

    let all = inspections_with_violations(inspections, violations);
    let g = group_by_key(all, place_of_pair(), place_ids(places), i);
    lemma_group_members_name_their_parent(all, place_of_pair(), place_ids(places), i, j);
    assert(place_ids(places)[i] == places[i].id);
    if is_last_index(place_ids(places), i) {
        let pred = |c: (Inspection, Seq<Violation>)| place_of_pair()(c) == place_ids(places)[i];
        assert(g == all.filter(pred));
        assert(all.filter(pred)[j] == g[j]);
        assert(all.filter(pred).contains(g[j]));
        all.lemma_filter_contains_rev(pred, g[j]);
        let m = choose|m: int| 0 <= m < all.len() && all[m] == g[j];
        let ids = inspection_ids(inspections);
        if 0 <= k < g[j].1.len() {
            lemma_group_members_name_their_parent(violations, parent_key_of::<Violation>(), ids, m, k);
            assert(ids[m] == inspections[m].id);
        }
    }
}

} // verus!
