//! The property index: parcel id to the physical attributes of the parcel.
use vstd::prelude::*;

use crate::records::{BuildingRecord, LocationRecord};

verus! {

/// Physical attributes of one parcel.
#[derive(Clone, Debug)]
pub struct Property {
    /// Lot area in square feet.
    pub lot_size: Option<i64>,
    pub address: Option<String>,
    /// Latitude in ten-millionths of a degree.
    pub latitude: Option<i64>,
    /// Longitude in ten-millionths of a degree.
    pub longitude: Option<i64>,
}

/// One entry of the index.
pub struct IndexEntry {
    pub parcel_id: String,
    pub property: Property,
}

/// Properties keyed by parcel id; each id appears in at most one entry.
pub struct PropertyIndex {
    entries: Vec<IndexEntry>,
}

/// An exact copy of an optional text.
pub fn copy_text(s: &Option<String>) -> (r: Option<String>)
    ensures
        r == *s,
{
    match s {
        Some(t) => Some(t.clone()),
        None => None,
    }
}

impl Property {
    /// An exact copy of the property.
    pub fn duplicate(&self) -> (r: Property)
        ensures
            r == *self,
    {
        Property {
            lot_size: self.lot_size,
            address: copy_text(&self.address),
            latitude: self.latitude,
            longitude: self.longitude,
        }
    }
}

/// The property that a building record contributes, keyed by its parcel id.
pub open spec fn building_entry(b: BuildingRecord) -> Option<(Seq<char>, Property)> {
    match b.fields {
        Some(f) => match f.taxparcelid {
            Some(id) => Some(
                (
                    id@,
                    Property {
                        lot_size: f.lotsqfeet,
                        address: f.streetaddressformatted,
                        latitude: None,
                        longitude: None,
                    },
                ),
            ),
            None => None,
        },
        None => None,
    }
}

/// The index after folding in building records in order; a later record for
/// an id replaces an earlier one.
pub open spec fn index_of_buildings(bs: Seq<BuildingRecord>) -> Map<Seq<char>, Property>
    decreases bs.len(),
{
    if bs.len() == 0 {
        Map::empty()
    } else {
        let m = index_of_buildings(bs.drop_last());
        match building_entry(bs.last()) {
            Some((id, p)) => m.insert(id, p),
            None => m,
        }
    }
}

/// The index after applying location records in order: each one that names
/// a known parcel sets that parcel's coordinates; the others are dropped.
pub open spec fn apply_locations(m: Map<Seq<char>, Property>, ls: Seq<LocationRecord>) -> Map<
    Seq<char>,
    Property,
>
    decreases ls.len(),
{
    if ls.len() == 0 {
        m
    } else {
        let prev = apply_locations(m, ls.drop_last());
        match ls.last().fields {
            Some(f) => match f.taxparcelid {
                Some(id) => if prev.contains_key(id@) {
                    prev.insert(
                        id@,
                        Property { latitude: f.latitude, longitude: f.longitude, ..prev[id@] },
                    )
                } else {
                    prev
                },
                None => prev,
            },
            None => prev,
        }
    }
}

/// The index built from building records, then location records.
pub open spec fn index_of(bs: Seq<BuildingRecord>, ls: Seq<LocationRecord>) -> Map<
    Seq<char>,
    Property,
> {
    apply_locations(index_of_buildings(bs), ls)
}

impl PropertyIndex {
    /// Parcel ids are unique among the entries.
    pub closed spec fn wf(&self) -> bool {
        forall|i: int, j: int|
            0 <= i < j < self.entries@.len() ==> #[trigger] self.entries@[i].parcel_id@
                != #[trigger] self.entries@[j].parcel_id@
    }

    spec fn has_id_at(&self, k: Seq<char>, i: int) -> bool {
        0 <= i < self.entries@.len() && self.entries@[i].parcel_id@ == k
    }

    /// The index as a map from parcel id to property.
    pub closed spec fn view(&self) -> Map<Seq<char>, Property> {
        Map::new(
            |k: Seq<char>| exists|i: int| self.has_id_at(k, i),
            |k: Seq<char>| self.entries@[choose|i: int| self.has_id_at(k, i)].property,
        )
    }

    proof fn lemma_view_at(&self, i: int)
        requires
            self.wf(),
            0 <= i < self.entries@.len(),
        ensures
            self@.contains_key(self.entries@[i].parcel_id@),
            self@[self.entries@[i].parcel_id@] == self.entries@[i].property,
    {
        let k = self.entries@[i].parcel_id@;
        assert(self.has_id_at(k, i));
        let j = choose|j: int| self.has_id_at(k, j);
        if j != i {
            if j < i {
                assert(self.entries@[j].parcel_id@ != self.entries@[i].parcel_id@);
            } else {
                assert(self.entries@[i].parcel_id@ != self.entries@[j].parcel_id@);
            }
        }
    }

    /// An index with no properties.
    pub fn new() -> (r: PropertyIndex)
        ensures
            r.wf(),
            r@ == Map::<Seq<char>, Property>::empty(),
    {
        let r = PropertyIndex { entries: Vec::new() };
        assert(r@ =~= Map::<Seq<char>, Property>::empty());
        r
    }

    fn position(&self, id: &String) -> (r: Option<usize>)
        requires
            self.wf(),
        ensures
            match r {
                Some(i) => i < self.entries@.len() && self.entries@[i as int].parcel_id@ == id@,
                None => !self@.contains_key(id@),
            },
    {
        let mut i: usize = 0;
        while i < self.entries.len()
            invariant
                i <= self.entries@.len(),
                forall|j: int| 0 <= j < i ==> self.entries@[j].parcel_id@ != id@,
            decreases self.entries@.len() - i,
        {
            if self.entries[i].parcel_id == *id {
                return Some(i);
            }
            i = i + 1;
        }
        None
    }

    /// The property of parcel `id`, if the index holds one.
    pub fn get(&self, id: &String) -> (r: Option<&Property>)
        requires
            self.wf(),
        ensures
            match r {
                Some(p) => self@.contains_key(id@) && *p == self@[id@],
                None => !self@.contains_key(id@),
            },
    {
        match self.position(id) {
            Some(i) => {
                proof {
                    self.lemma_view_at(i as int);
                }
                Some(&self.entries[i].property)
            },
            None => None,
        }
    }

    /// Sets the property of parcel `id`, replacing any earlier one.
    pub fn insert(&mut self, id: String, property: Property)
        requires
            old(self).wf(),
        ensures
            final(self).wf(),
            final(self)@ == old(self)@.insert(id@, property),
    {
        let ghost k = id@;
        match self.position(&id) {
            Some(i) => {
                self.entries[i] = IndexEntry { parcel_id: id, property };
                proof {
                    assert(self.wf());
                    self.lemma_view_at(i as int);
                    assert forall|k2: Seq<char>| #[trigger] self@.contains_key(k2) == old(self)@.insert(k, property).contains_key(k2) by {
                        if k2 != k {
                            if self@.contains_key(k2) {
                                let j = choose|j: int| self.has_id_at(k2, j);
                                assert(old(self).has_id_at(k2, j));
                            }
                            if old(self)@.contains_key(k2) {
                                let j = choose|j: int| old(self).has_id_at(k2, j);
                                assert(self.has_id_at(k2, j));
                            }
                        }
                    }
                    assert forall|k2: Seq<char>| #[trigger] self@.contains_key(k2) && k2 != k implies self@[k2] == old(self)@[k2] by {
                        let j = choose|j: int| self.has_id_at(k2, j);
                        self.lemma_view_at(j);
                        old(self).lemma_view_at(j);
                    }
                    assert(self@ =~= old(self)@.insert(k, property));
                }
            },
            None => {
                self.entries.push(IndexEntry { parcel_id: id, property });
                proof {
                    let n = old(self).entries@.len() as int;
                    assert forall|j: int| 0 <= j < n implies self.entries@[j].parcel_id@ != k by {
                        old(self).lemma_view_at(j);
                    }
                    assert(self.wf());
                    self.lemma_view_at(n);
                    assert forall|k2: Seq<char>| #[trigger] self@.contains_key(k2) == old(self)@.insert(k, property).contains_key(k2) by {
                        if k2 != k {
                            if self@.contains_key(k2) {
                                let j = choose|j: int| self.has_id_at(k2, j);
                                assert(old(self).has_id_at(k2, j));
                            }
                            if old(self)@.contains_key(k2) {
                                let j = choose|j: int| old(self).has_id_at(k2, j);
                                assert(self.has_id_at(k2, j));
                            }
                        }
                    }
                    assert forall|k2: Seq<char>| #[trigger] self@.contains_key(k2) && k2 != k implies self@[k2] == old(self)@[k2] by {
                        let j = choose|j: int| self.has_id_at(k2, j);
                        self.lemma_view_at(j);
                        old(self).lemma_view_at(j);
                    }
                    assert(self@ =~= old(self)@.insert(k, property));
                }
            },
        }
    }

    /// Sets the coordinates of parcel `id`, if the index holds it; does
    /// nothing otherwise.
    pub fn set_location(&mut self, id: &String, latitude: Option<i64>, longitude: Option<i64>)
        requires
            old(self).wf(),
        ensures
            final(self).wf(),
            final(self)@ == (if old(self)@.contains_key(id@) {
                old(self)@.insert(id@, Property { latitude, longitude, ..old(self)@[id@] })
            } else {
                old(self)@
            }),
    {
        match self.get(id) {
            Some(p) => {
                let updated = Property {
                    lot_size: p.lot_size,
                    address: copy_text(&p.address),
                    latitude,
                    longitude,
                };
                self.insert(id.clone(), updated);
            },
            None => {},
        }
    }
}

/// Builds the property index from building records, then location records.
pub fn build_index(buildings: &Vec<BuildingRecord>, locations: &Vec<LocationRecord>) -> (r:
    PropertyIndex)
    ensures
        r.wf(),
        r@ == index_of(buildings@, locations@),
{
    let mut index = PropertyIndex::new();
    let mut i: usize = 0;
    while i < buildings.len()
        invariant
            i <= buildings@.len(),
            index.wf(),
            index@ == index_of_buildings(buildings@.take(i as int)),
        decreases buildings@.len() - i,
    {
        assert(buildings@.take(i + 1).drop_last() =~= buildings@.take(i as int));
        if let Some(f) = &buildings[i].fields {
            if let Some(id) = &f.taxparcelid {
                let p = Property {
                    lot_size: f.lotsqfeet,
                    address: copy_text(&f.streetaddressformatted),
                    latitude: None,
                    longitude: None,
                };
                index.insert(id.clone(), p);
            }
        }
        i = i + 1;
    }
    assert(buildings@.take(i as int) =~= buildings@);
    let ghost built = index@;
    let mut j: usize = 0;
    while j < locations.len()
        invariant
            j <= locations@.len(),
            index.wf(),
            built == index_of_buildings(buildings@),
            index@ == apply_locations(built, locations@.take(j as int)),
        decreases locations@.len() - j,
    {
        assert(locations@.take(j + 1).drop_last() =~= locations@.take(j as int));
        if let Some(f) = &locations[j].fields {
            if let Some(id) = &f.taxparcelid {
                index.set_location(id, f.latitude, f.longitude);
            }
        }
        j = j + 1;
    }
    assert(locations@.take(j as int) =~= locations@);
    index
}

} // verus!
