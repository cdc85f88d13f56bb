//! A store that lives in memory and merges as the rules say.
//!
//! It holds the documents of each kind in a list without two documents of
//! one key, and what it holds is, to contracts, the mathematical store.

use crate::document::beacon::{Beacon, BeaconView};
use crate::document::edge::{Edge, EdgeView};
use crate::document::hotspot::{Hotspot, HotspotView};
use crate::document::iot_poc::IotPoc;
use crate::document::iot_poc_file::{fresh_record, FileInfo, IotPocFile, IotPocFileView};
use crate::document::{bytes_eq, DocumentError};
use crate::handler::arangodb::{build, spec_build, DBError, Entities, ERROR_DOCUMENT_NOT_FOUND};
use crate::handler::store::{
    applied,
    files_only_advance,
    found,
    insert_beacon,
    upsert_edge,
    upsert_edges,
    upsert_hotspot,
    upsert_hotspots,
    StoreView,
};
use crate::handler::upsert::{merge_beacon, merge_edge, merge_hotspot, EdgeDoc, EdgeDocView};
use crate::text::texts;
use vstd::prelude::*;

verus! {

/// The map from the key of each document to what the document says.
pub open spec fn keyed<D, K, V>(docs: Seq<D>, key: spec_fn(D) -> K, view: spec_fn(D) -> V) -> Map<
    K,
    V,
>
    decreases docs.len(),
{
    if docs.len() == 0 {
        Map::empty()
    } else {
        keyed(docs.drop_last(), key, view).insert(key(docs.last()), view(docs.last()))
    }
}

/// No two documents have the same key.
pub open spec fn distinct_keys<D, K>(docs: Seq<D>, key: spec_fn(D) -> K) -> bool {
    forall|i: int, j: int|
        0 <= i < j < docs.len() ==> key(#[trigger] docs[i]) != key(#[trigger] docs[j])
}

proof fn lemma_distinct_init<D, K>(docs: Seq<D>, key: spec_fn(D) -> K)
    requires
        distinct_keys(docs, key),
        docs.len() > 0,
    ensures
        distinct_keys(docs.drop_last(), key),
{
    let init = docs.drop_last();
    assert forall|i: int, j: int| 0 <= i < j < init.len() implies key(#[trigger] init[i]) != key(
        #[trigger] init[j],
    ) by {
        assert(init[i] == docs[i]);
        assert(init[j] == docs[j]);
    }
}

proof fn lemma_keyed_contains<D, K, V>(
    docs: Seq<D>,
    key: spec_fn(D) -> K,
    view: spec_fn(D) -> V,
    k: K,
)
    ensures
        keyed(docs, key, view).contains_key(k) <==> exists|i: int|
            0 <= i < docs.len() && key(#[trigger] docs[i]) == k,
    decreases docs.len(),
{
    if docs.len() > 0 {
        let init = docs.drop_last();
        lemma_keyed_contains(init, key, view, k);
        if exists|i: int| 0 <= i < init.len() && key(#[trigger] init[i]) == k {
            let i = choose|i: int| 0 <= i < init.len() && key(#[trigger] init[i]) == k;
            assert(key(docs[i]) == k);
        }
        if exists|i: int| 0 <= i < docs.len() && key(#[trigger] docs[i]) == k {
            let i = choose|i: int| 0 <= i < docs.len() && key(#[trigger] docs[i]) == k;
            if i < init.len() {
                assert(key(init[i]) == k);
            }
        }
    }
}

proof fn lemma_keyed_at<D, K, V>(docs: Seq<D>, key: spec_fn(D) -> K, view: spec_fn(D) -> V, i: int)
    requires
        distinct_keys(docs, key),
        0 <= i < docs.len(),
    ensures
        keyed(docs, key, view).contains_key(key(docs[i])),
        keyed(docs, key, view)[key(docs[i])] == view(docs[i]),
    decreases docs.len(),
{
    if i < docs.len() - 1 {
        lemma_distinct_init(docs, key);
        lemma_keyed_at(docs.drop_last(), key, view, i);
        assert(docs.drop_last()[i] == docs[i]);
        assert(key(docs[i]) != key(docs[docs.len() - 1]));
    }
}

proof fn lemma_keyed_replace<D, K, V>(
    docs: Seq<D>,
    key: spec_fn(D) -> K,
    view: spec_fn(D) -> V,
    i: int,
    doc: D,
)
    requires
        distinct_keys(docs, key),
        0 <= i < docs.len(),
        key(doc) == key(docs[i]),
    ensures
        distinct_keys(docs.remove(i).push(doc), key),
        keyed(docs.remove(i).push(doc), key, view) == keyed(docs, key, view).insert(
            key(doc),
            view(doc),
        ),
{
    let rest = docs.remove(i);
    let next = rest.push(doc);
    assert forall|a: int| 0 <= a < rest.len() implies #[trigger] rest[a] == docs[if a < i {
        a
    } else {
        a + 1
    }] by {}
    assert(distinct_keys(next, key)) by {
        assert forall|a: int, b: int| 0 <= a < b < next.len() implies key(#[trigger] next[a])
            != key(#[trigger] next[b]) by {
            let a0 = if a < i {
                a
            } else {
                a + 1
            };
            assert(next[a] == docs[a0]);
            if b < rest.len() {
                let b0 = if b < i {
                    b
                } else {
                    b + 1
                };
                assert(next[b] == docs[b0]);
            } else {
                assert(next[b] == doc);
                assert(key(docs[a0]) != key(docs[i]));
            }
        }
    }
    let lhs = keyed(next, key, view);
    let rhs = keyed(docs, key, view).insert(key(doc), view(doc));
    assert forall|k: K| lhs.contains_key(k) == rhs.contains_key(k) by {
        lemma_keyed_contains(next, key, view, k);
        lemma_keyed_contains(docs, key, view, k);
        if lhs.contains_key(k) {
            let a = choose|a: int| 0 <= a < next.len() && key(#[trigger] next[a]) == k;
            if a < rest.len() {
                let a0 = if a < i {
                    a
                } else {
                    a + 1
                };
                assert(next[a] == docs[a0]);
            }
        }
        if rhs.contains_key(k) {
            if k == key(doc) {
                assert(key(next[next.len() - 1]) == k);
            } else {
                let a0 = choose|a: int| 0 <= a < docs.len() && key(#[trigger] docs[a]) == k;
                let a = if a0 < i {
                    a0
                } else {
                    a0 - 1
                };
                assert(next[a] == docs[a0]);
            }
        }
    }
    assert forall|k: K| lhs.contains_key(k) implies lhs[k] == rhs[k] by {
        lemma_keyed_contains(next, key, view, k);
        let a = choose|a: int| 0 <= a < next.len() && key(#[trigger] next[a]) == k;
        lemma_keyed_at(next, key, view, a);
        if a < rest.len() {
            let a0 = if a < i {
                a
            } else {
                a + 1
            };
            assert(next[a] == docs[a0]);
            lemma_keyed_at(docs, key, view, a0);
            assert(key(docs[a0]) != key(docs[i]));
        }
    }
    assert(lhs =~= rhs);
}

proof fn lemma_keyed_push<D, K, V>(docs: Seq<D>, key: spec_fn(D) -> K, view: spec_fn(D) -> V, doc: D)
    requires
        distinct_keys(docs, key),
        forall|i: int| 0 <= i < docs.len() ==> key(#[trigger] docs[i]) != key(doc),
    ensures
        distinct_keys(docs.push(doc), key),
        keyed(docs.push(doc), key, view) == keyed(docs, key, view).insert(key(doc), view(doc)),
        !keyed(docs, key, view).contains_key(key(doc)),
{
    let next = docs.push(doc);
    assert(next.drop_last() =~= docs);
    lemma_keyed_contains(docs, key, view, key(doc));
    assert forall|a: int, b: int| 0 <= a < b < next.len() implies key(#[trigger] next[a]) != key(
        #[trigger] next[b],
    ) by {
        assert(next[a] == docs[a]);
        if b < docs.len() {
            assert(next[b] == docs[b]);
        }
    }
}

/// The hotspots of a list by their key.
pub open spec fn hotspot_map(docs: Seq<Hotspot>) -> Map<Seq<u8>, HotspotView> {
    keyed(docs, |h: Hotspot| h._key@, |h: Hotspot| h@)
}

/// The beacons of a list by their key.
pub open spec fn beacon_map(docs: Seq<Beacon>) -> Map<Seq<char>, BeaconView> {
    keyed(docs, |b: Beacon| b._key@, |b: Beacon| b@)
}

/// The edges of a list by their key.
pub open spec fn edge_map(docs: Seq<EdgeDoc>) -> Map<Seq<char>, EdgeDocView> {
    keyed(docs, |e: EdgeDoc| e._key@, |e: EdgeDoc| e@)
}

/// The file records of a list by their key.
pub open spec fn file_map(docs: Seq<IotPocFile>) -> Map<Seq<char>, IotPocFileView> {
    keyed(docs, |f: IotPocFile| f._key@, |f: IotPocFile| f@)
}

/// Why a report could not be applied.
#[derive(Debug, Clone, Copy)]
pub enum PopulateError {
    /// The report cannot be turned into documents.
    Document(DocumentError),
    /// The store could not take the documents.
    Store(DBError),
}

/// A store in memory.
#[derive(Debug)]
pub struct MemoryStore {
    beacons: Vec<Beacon>,
    hotspots: Vec<Hotspot>,
    edges: Vec<EdgeDoc>,
    files: Vec<IotPocFile>,
    /// How many witnessings have been written in all.
    writes: u64,
}

impl View for MemoryStore {
    type V = StoreView;

    closed spec fn view(&self) -> StoreView {
        StoreView {
            beacons: beacon_map(self.beacons@),
            hotspots: hotspot_map(self.hotspots@),
            edges: edge_map(self.edges@),
            files: file_map(self.files@),
        }
    }
}

impl MemoryStore {
    /// How many witnessings have been written in all.
    pub closed spec fn writes(&self) -> nat {
        self.writes as nat
    }

    /// There is one document for each key, and no edge has counted more
    /// witnessings than were written.
    pub closed spec fn wf(&self) -> bool {
        &&& distinct_keys(self.beacons@, |b: Beacon| b._key@)
        &&& distinct_keys(self.hotspots@, |h: Hotspot| h._key@)
        &&& distinct_keys(self.edges@, |e: EdgeDoc| e._key@)
        &&& distinct_keys(self.files@, |f: IotPocFile| f._key@)
        &&& forall|i: int|
            0 <= i < self.edges@.len() ==> (#[trigger] self.edges@[i]).wf() && self.edges@[i].count
                <= self.writes
    }

    /// How many witnessings have been written in all. One more can be
    /// written as long as this is below the end of the counter.
    pub fn witnessings(&self) -> (r: u64)
        ensures
            r == self.writes(),
    {
        self.writes
    }

    /// A store without documents.
    pub fn new() -> (r: Self)
        ensures
            r.wf(),
            r@.beacons == Map::<Seq<char>, BeaconView>::empty(),
            r@.hotspots == Map::<Seq<u8>, HotspotView>::empty(),
            r@.edges == Map::<Seq<char>, EdgeDocView>::empty(),
            r@.files == Map::<Seq<char>, IotPocFileView>::empty(),
            r.writes() == 0,
    {
        MemoryStore {
            beacons: Vec::new(),
            hotspots: Vec::new(),
            edges: Vec::new(),
            files: Vec::new(),
            writes: 0,
        }
    }

    /// A store without documents that counts on from the given number of
    /// witnessings.
    pub fn with_witnessings(witnessings: u64) -> (r: Self)
        ensures
            r.wf(),
            r@.beacons == Map::<Seq<char>, BeaconView>::empty(),
            r@.hotspots == Map::<Seq<u8>, HotspotView>::empty(),
            r@.edges == Map::<Seq<char>, EdgeDocView>::empty(),
            r@.files == Map::<Seq<char>, IotPocFileView>::empty(),
            r.writes() == witnessings,
    {
        MemoryStore {
            beacons: Vec::new(),
            hotspots: Vec::new(),
            edges: Vec::new(),
            files: Vec::new(),
            writes: witnessings,
        }
    }

    fn hotspot_index(&self, key: &Vec<u8>) -> (r: Option<usize>)
        ensures
            match r {
                Some(i) => i < self.hotspots.len() && self.hotspots@[i as int]._key@ == key@,
                None => forall|j: int|
                    0 <= j < self.hotspots.len() ==> (#[trigger] self.hotspots@[j])._key@ != key@,
            },
    {
        let mut i: usize = 0;
        while i < self.hotspots.len()
            invariant
                i <= self.hotspots.len(),
                forall|j: int| 0 <= j < i ==> (#[trigger] self.hotspots@[j])._key@ != key@,
            decreases self.hotspots.len() - i,
        {
            if bytes_eq(&self.hotspots[i]._key, key) {
                return Some(i);
            }
            i += 1;
        }
        None
    }

    fn beacon_index(&self, key: &String) -> (r: Option<usize>)
        ensures
            match r {
                Some(i) => i < self.beacons.len() && self.beacons@[i as int]._key@ == key@,
                None => forall|j: int|
                    0 <= j < self.beacons.len() ==> (#[trigger] self.beacons@[j])._key@ != key@,
            },
    {
        let mut i: usize = 0;
        while i < self.beacons.len()
            invariant
                i <= self.beacons.len(),
                forall|j: int| 0 <= j < i ==> (#[trigger] self.beacons@[j])._key@ != key@,
            decreases self.beacons.len() - i,
        {
            if self.beacons[i]._key == *key {
                return Some(i);
            }
            i += 1;
        }
        None
    }

    fn edge_index(&self, key: &String) -> (r: Option<usize>)
        ensures
            match r {
                Some(i) => i < self.edges.len() && self.edges@[i as int]._key@ == key@,
                None => forall|j: int|
                    0 <= j < self.edges.len() ==> (#[trigger] self.edges@[j])._key@ != key@,
            },
    {
        let mut i: usize = 0;
        while i < self.edges.len()
            invariant
                i <= self.edges.len(),
                forall|j: int| 0 <= j < i ==> (#[trigger] self.edges@[j])._key@ != key@,
            decreases self.edges.len() - i,
        {
            if self.edges[i]._key == *key {
                return Some(i);
            }
            i += 1;
        }
        None
    }

    /// The hotspot of the device with the given key, if the store holds
    /// one.
    pub fn hotspot(&self, key: &Vec<u8>) -> (r: Option<&Hotspot>)
        requires
            self.wf(),
        ensures
            match r {
                Some(h) => found(self@.hotspots, key@) == Some(h@),
                None => found(self@.hotspots, key@) is None,
            },
    {
        proof {
            lemma_keyed_contains(self.hotspots@, |h: Hotspot| h._key@, |h: Hotspot| h@, key@);
        }
        match self.hotspot_index(key) {
            Some(i) => {
                proof {
                    lemma_keyed_at(self.hotspots@, |h: Hotspot| h._key@, |h: Hotspot| h@, i as int);
                }
                Some(&self.hotspots[i])
            },
            None => None,
        }
    }

    /// The beacon with the given key, if the store holds one.
    pub fn beacon(&self, key: &String) -> (r: Option<&Beacon>)
        requires
            self.wf(),
        ensures
            match r {
                Some(b) => found(self@.beacons, key@) == Some(b@),
                None => found(self@.beacons, key@) is None,
            },
    {
        proof {
            lemma_keyed_contains(self.beacons@, |b: Beacon| b._key@, |b: Beacon| b@, key@);
        }
        match self.beacon_index(key) {
            Some(i) => {
                proof {
                    lemma_keyed_at(self.beacons@, |b: Beacon| b._key@, |b: Beacon| b@, i as int);
                }
                Some(&self.beacons[i])
            },
            None => None,
        }
    }

    /// The edge with the given key, if the store holds one.
    pub fn edge(&self, key: &String) -> (r: Option<&EdgeDoc>)
        requires
            self.wf(),
        ensures
            match r {
                Some(e) => found(self@.edges, key@) == Some(e@) && e.wf(),
                None => found(self@.edges, key@) is None,
            },
    {
        proof {
            lemma_keyed_contains(self.edges@, |e: EdgeDoc| e._key@, |e: EdgeDoc| e@, key@);
        }
        match self.edge_index(key) {
            Some(i) => {
                proof {
                    lemma_keyed_at(self.edges@, |e: EdgeDoc| e._key@, |e: EdgeDoc| e@, i as int);
                }
                Some(&self.edges[i])
            },
            None => None,
        }
    }

    /// Writes one hotspot record by the merge rule of hotspots.
    pub fn upsert_hotspot(&mut self, hotspot: Hotspot)
        requires
            old(self).wf(),
        ensures
            final(self).wf(),
            final(self).writes() == old(self).writes(),
            final(self)@ == (StoreView {
                hotspots: upsert_hotspot(old(self)@.hotspots, hotspot@),
                ..old(self)@
            }),
    {
        let ghost key_of = |h: Hotspot| h._key@;
        let ghost view_of = |h: Hotspot| h@;
        let ghost before = self.hotspots@;
        proof {
            lemma_keyed_contains(before, key_of, view_of, hotspot._key@);
        }
        match self.hotspot_index(&hotspot._key) {
            Some(i) => {
                proof {
                    lemma_keyed_at(before, key_of, view_of, i as int);
                }
                let existing = self.hotspots.remove(i);
                let merged = merge_hotspot(Some(existing), hotspot);
                proof {
                    lemma_keyed_replace(before, key_of, view_of, i as int, merged);
                }
                self.hotspots.push(merged);
            },
            None => {
                let merged = merge_hotspot(None, hotspot);
                proof {
                    lemma_keyed_push(before, key_of, view_of, merged);
                }
                self.hotspots.push(merged);
            },
        }
    }

    /// Offers one beacon: it is written unless the store holds a beacon of
    /// that key already.
    pub fn insert_beacon(&mut self, beacon: Beacon)
        requires
            old(self).wf(),
        ensures
            final(self).wf(),
            final(self).writes() == old(self).writes(),
            final(self)@ == (StoreView {
                beacons: insert_beacon(old(self)@.beacons, beacon@),
                ..old(self)@
            }),
    {
        let ghost key_of = |b: Beacon| b._key@;
        let ghost view_of = |b: Beacon| b@;
        let ghost before = self.beacons@;
        proof {
            lemma_keyed_contains(before, key_of, view_of, beacon._key@);
        }
        match self.beacon_index(&beacon._key) {
            Some(i) => {
                proof {
                    lemma_keyed_at(before, key_of, view_of, i as int);
                    assert(beacon_map(before).insert(beacon@.key, before[i as int]@) =~= beacon_map(
                        before,
                    ));
                }
            },
            None => {
                let merged = merge_beacon(None, beacon);
                proof {
                    lemma_keyed_push(before, key_of, view_of, merged);
                }
                self.beacons.push(merged);
            },
        }
    }

    /// Writes one witnessing by the merge rule of edges: the edge of its
    /// key counts one more, in its count and in the bucket of each observed
    /// value, and nothing else in the store changes. If the store has no
    /// room to count it, the answer is an error and nothing changes.
    pub fn upsert_edge(&mut self, edge: &Edge) -> (r: Result<(), DBError>)
        requires
            old(self).wf(),
        ensures
            final(self).wf(),
            r is Ok <==> old(self).writes() < u64::MAX,
            match r {
                Ok(()) => {
                    &&& final(self).writes() == old(self).writes() + 1
                    &&& final(self)@ == (StoreView {
                        edges: upsert_edge(old(self)@.edges, edge@),
                        ..old(self)@
                    })
                },
                Err(e) => {
                    &&& e is Other
                    &&& final(self).writes() == old(self).writes()
                    &&& final(self)@ == old(self)@
                },
            },
    {
        if self.writes == u64::MAX {
            return Err(DBError::Other);
        }
        let ghost key_of = |e: EdgeDoc| e._key@;
        let ghost view_of = |e: EdgeDoc| e@;
        let ghost before = self.edges@;
        proof {
            lemma_keyed_contains(before, key_of, view_of, edge._key@);
        }
        match self.edge_index(&edge._key) {
            Some(i) => {
                proof {
                    lemma_keyed_at(before, key_of, view_of, i as int);
                }
                let existing = self.edges.remove(i);
                let merged = merge_edge(Some(existing), edge);
                proof {
                    lemma_keyed_replace(before, key_of, view_of, i as int, merged);
                }
                self.edges.push(merged);
                self.writes = self.writes + 1;
                proof {
                    let rest = before.remove(i as int);
                    assert forall|j: int| 0 <= j < self.edges@.len() implies (
                    #[trigger] self.edges@[j]).wf() && self.edges@[j].count <= self.writes by {
                        if j < rest.len() {
                            assert(self.edges@[j] == before[if j < i {
                                j
                            } else {
                                j + 1
                            }]);
                        }
                    }
                }
            },
            None => {
                let merged = merge_edge(None, edge);
                proof {
                    lemma_keyed_push(before, key_of, view_of, merged);
                }
                self.edges.push(merged);
                self.writes = self.writes + 1;
                proof {
                    assert forall|j: int| 0 <= j < self.edges@.len() implies (
                    #[trigger] self.edges@[j]).wf() && self.edges@[j].count <= self.writes by {
                        if j < before.len() {
                            assert(self.edges@[j] == before[j]);
                        }
                    }
                }
            },
        }
        Ok(())
    }

    /// Writes the documents of one report: its hotspots, its edges and
    /// its beacon. If the store has no room to count the witnessings, it
    /// answers with an error and stays as it was.
    pub fn apply(&mut self, entities: Entities) -> (r: Result<(), DBError>)
        requires
            old(self).wf(),
        ensures
            final(self).wf(),
            match r {
                Ok(()) => {
                    &&& final(self)@ == applied(old(self)@, entities@)
                    &&& final(self).writes() == old(self).writes() + entities.edges.len()
                },
                Err(e) => {
                    &&& e is Other
                    &&& old(self).writes() + entities.edges.len() > u64::MAX
                    &&& final(self)@ == old(self)@
                    &&& final(self).writes() == old(self).writes()
                },
            },
    {
        let ghost start = self@;
        let ghost views = entities@;
        let Entities { beacon, mut hotspots, edges } = entities;
        if edges.len() as u64 > u64::MAX - self.writes {
            return Err(DBError::Other);
        }
        let ghost all_hotspots = hotspots@;
        let ghost hotspot_view = |h: Hotspot| h@;
        let total = hotspots.len();
        let mut i: usize = 0;
        assert(views.hotspots.take(0) =~= Seq::<HotspotView>::empty());
        while i < total
            invariant
                i <= total,
                total == all_hotspots.len(),
                self.wf(),
                self.writes() == old(self).writes(),
                hotspot_view == (|h: Hotspot| h@),
                views.hotspots == all_hotspots.map_values(hotspot_view),
                hotspots@ == all_hotspots.skip(i as int),
                self@ == (StoreView {
                    hotspots: upsert_hotspots(start.hotspots, views.hotspots.take(i as int)),
                    ..start
                }),
            decreases total - i,
        {
            proof {
                assert(views.hotspots.take(i + 1).drop_last() =~= views.hotspots.take(i as int));
                assert(views.hotspots.take(i + 1).last() == all_hotspots[i as int]@);
                assert(hotspots@[0] == all_hotspots[i as int]);
            }
            let hotspot = hotspots.remove(0);
            assert(hotspots@ =~= all_hotspots.skip(i + 1));
            self.upsert_hotspot(hotspot);
            i += 1;
        }
        assert(views.hotspots.take(i as int) =~= views.hotspots);
        let ghost middle = self@;
        let mut k: usize = 0;
        assert(views.edges.take(0) =~= Seq::<EdgeView>::empty());
        while k < edges.len()
            invariant
                k <= edges.len(),
                self.wf(),
                self.writes() == old(self).writes() + k,
                old(self).writes() + edges.len() <= u64::MAX,
                views.edges == edges@.map_values(|e: Edge| e@),
                self@ == (StoreView {
                    edges: upsert_edges(start.edges, views.edges.take(k as int)),
                    ..middle
                }),
            decreases edges.len() - k,
        {
            proof {
                assert(views.edges.take(k + 1).drop_last() =~= views.edges.take(k as int));
                assert(views.edges.take(k + 1).last() == edges@[k as int]@);
            }
            match self.upsert_edge(&edges[k]) {
                Ok(()) => {},
                Err(e) => {
                    return Err(e);
                },
            }
            k += 1;
        }
        assert(views.edges.take(k as int) =~= views.edges);
        self.insert_beacon(beacon);
        Ok(())
    }

    /// Turns a decoded report into its documents, as of the time `now` in
    /// milliseconds since the epoch, and writes them. The answer is the
    /// identifier of the beacon, or `None` for a report that nobody heard,
    /// which is dropped. After an error the store is as it was.
    pub fn populate_collections(&mut self, iot_poc: &IotPoc, now: u64) -> (r: Result<
        Option<String>,
        PopulateError,
    >)
        requires
            old(self).wf(),
        ensures
            final(self).wf(),
            match spec_build(*iot_poc, now) {
                Ok(None) => {
                    &&& r matches Ok(None)
                    &&& final(self)@ == old(self)@
                    &&& final(self).writes() == old(self).writes()
                },
                Err(e) => {
                    &&& r matches Err(PopulateError::Document(d)) && d == e
                    &&& final(self)@ == old(self)@
                    &&& final(self).writes() == old(self).writes()
                },
                Ok(Some(entities)) => if old(self).writes() + entities.edges.len() <= u64::MAX {
                    &&& r matches Ok(Some(poc_id)) && poc_id@ == entities.beacon.poc_id
                    &&& final(self)@ == applied(old(self)@, entities)
                    &&& final(self).writes() == old(self).writes() + entities.edges.len()
                } else {
                    &&& r matches Err(PopulateError::Store(e)) && e is Other
                    &&& final(self)@ == old(self)@
                    &&& final(self).writes() == old(self).writes()
                },
            },
    {
        match build(iot_poc, now) {
            Ok(None) => Ok(None),
            Err(e) => Err(PopulateError::Document(e)),
            Ok(Some(entities)) => {
                let poc_id = entities.beacon.poc_id.clone();
                match self.apply(entities) {
                    Ok(()) => Ok(Some(poc_id)),
                    Err(e) => Err(PopulateError::Store(e)),
                }
            },
        }
    }

    /// Whether the store holds a hotspot of the device with the given key.
    pub fn hotspot_exists(&self, pub_key: &Vec<u8>) -> (r: bool)
        requires
            self.wf(),
        ensures
            r == self@.hotspots.contains_key(pub_key@),
    {
        self.hotspot(pub_key).is_some()
    }

    /// Whether the store holds a beacon with the given identifier.
    pub fn beacon_exists(&self, poc_id: &String) -> (r: bool)
        requires
            self.wf(),
        ensures
            r == self@.beacons.contains_key(poc_id@),
    {
        self.beacon(poc_id).is_some()
    }

    fn file_index(&self, key: &String) -> (r: Option<usize>)
        ensures
            match r {
                Some(i) => i < self.files.len() && self.files@[i as int]._key@ == key@,
                None => forall|j: int|
                    0 <= j < self.files.len() ==> (#[trigger] self.files@[j])._key@ != key@,
            },
    {
        let mut i: usize = 0;
        while i < self.files.len()
            invariant
                i <= self.files.len(),
                forall|j: int| 0 <= j < i ==> (#[trigger] self.files@[j])._key@ != key@,
            decreases self.files.len() - i,
        {
            if self.files[i]._key == *key {
                return Some(i);
            }
            i += 1;
        }
        None
    }

    /// Whether the store holds a record of the file with the given key.
    pub fn file_exists(&self, key: &String) -> (r: bool)
        requires
            self.wf(),
        ensures
            r == self@.files.contains_key(key@),
    {
        proof {
            lemma_keyed_contains(self.files@, |f: IotPocFile| f._key@, |f: IotPocFile| f@, key@);
        }
        self.file_index(key).is_some()
    }

    /// Writes the record with which a file starts out, unless the store
    /// holds a record of the file already.
    pub fn init_file(&mut self, file: &FileInfo)
        requires
            old(self).wf(),
        ensures
            final(self).wf(),
            final(self).writes() == old(self).writes(),
            final(self)@ == (StoreView {
                files: if old(self)@.files.contains_key(file.key@) {
                    old(self)@.files
                } else {
                    old(self)@.files.insert(file.key@, fresh_record(file@))
                },
                ..old(self)@
            }),
            files_only_advance(old(self)@.files, final(self)@.files),
    {
        let ghost key_of = |f: IotPocFile| f._key@;
        let ghost view_of = |f: IotPocFile| f@;
        proof {
            lemma_keyed_contains(self.files@, key_of, view_of, file.key@);
        }
        if self.file_index(&file.key).is_none() {
            let record = IotPocFile::from(file);
            proof {
                lemma_keyed_push(self.files@, key_of, view_of, record);
            }
            self.files.push(record);
        }
    }

    /// Marks the file with the given key done. A file without a record is
    /// an error, and nothing changes.
    pub fn complete_file(&mut self, key: &String) -> (r: Result<(), DBError>)
        requires
            old(self).wf(),
        ensures
            final(self).wf(),
            final(self).writes() == old(self).writes(),
            r is Ok <==> old(self)@.files.contains_key(key@),
            final(self)@ == (StoreView {
                files: if old(self)@.files.contains_key(key@) {
                    old(self)@.files.insert(
                        key@,
                        IotPocFileView { done: true, ..old(self)@.files[key@] },
                    )
                } else {
                    old(self)@.files
                },
                ..old(self)@
            }),
            files_only_advance(old(self)@.files, final(self)@.files),
    {
        let ghost key_of = |f: IotPocFile| f._key@;
        let ghost view_of = |f: IotPocFile| f@;
        let ghost before = self.files@;
        proof {
            lemma_keyed_contains(before, key_of, view_of, key@);
        }
        match self.file_index(key) {
            Some(i) => {
                proof {
                    lemma_keyed_at(before, key_of, view_of, i as int);
                }
                let mut record = self.files.remove(i);
                record.complete();
                proof {
                    lemma_keyed_replace(before, key_of, view_of, i as int, record);
                }
                self.files.push(record);
                Ok(())
            },
            None => Err(DBError::ArangoClientError { error_num: Some(ERROR_DOCUMENT_NOT_FOUND) }),
        }
    }

    /// Counts one more failed pass over the file with the given key and
    /// answers with the new count. Whether the file is done does not
    /// change. A file without a record, and a counter at its end, are
    /// errors, and nothing changes.
    pub fn increment_file_retry(&mut self, key: &String) -> (r: Result<u8, DBError>)
        requires
            old(self).wf(),
        ensures
            final(self).wf(),
            final(self).writes() == old(self).writes(),
            r is Ok <==> old(self)@.files.contains_key(key@) && old(self)@.files[key@].retries
                < u8::MAX,
            match r {
                Ok(n) => {
                    &&& n == old(self)@.files[key@].retries + 1
                    &&& final(self)@.files[key@].retries == n
                    &&& final(self)@.files[key@].done == old(self)@.files[key@].done
                },
                Err(e) => if old(self)@.files.contains_key(key@) {
                    e is Other
                } else {
                    e == (DBError::ArangoClientError { error_num: Some(ERROR_DOCUMENT_NOT_FOUND) })
                },
            },
            final(self)@ == (StoreView {
                files: if old(self)@.files.contains_key(key@) && old(self)@.files[key@].retries
                    < u8::MAX {
                    old(self)@.files.insert(
                        key@,
                        IotPocFileView {
                            retries: (old(self)@.files[key@].retries + 1) as u8,
                            ..old(self)@.files[key@]
                        },
                    )
                } else {
                    old(self)@.files
                },
                ..old(self)@
            }),
            files_only_advance(old(self)@.files, final(self)@.files),
    {
        let ghost key_of = |f: IotPocFile| f._key@;
        let ghost view_of = |f: IotPocFile| f@;
        let ghost before = self.files@;
        proof {
            lemma_keyed_contains(before, key_of, view_of, key@);
        }
        match self.file_index(key) {
            Some(i) => {
                proof {
                    lemma_keyed_at(before, key_of, view_of, i as int);
                }
                if self.files[i].retries == u8::MAX {
                    return Err(DBError::Other);
                }
                let mut record = self.files.remove(i);
                let counted = record.increment_retry();
                proof {
                    lemma_keyed_replace(before, key_of, view_of, i as int, record);
                }
                self.files.push(record);
                match counted {
                    Some(n) => Ok(n),
                    None => Err(DBError::Other),
                }
            },
            None => Err(DBError::ArangoClientError { error_num: Some(ERROR_DOCUMENT_NOT_FOUND) }),
        }
    }

    /// How often a pass over the file with the given key has failed; zero
    /// for a file without a record.
    pub fn get_file_retries(&self, key: &String) -> (r: u8)
        requires
            self.wf(),
        ensures
            r == if self@.files.contains_key(key@) {
                self@.files[key@].retries
            } else {
                0
            },
    {
        proof {
            lemma_keyed_contains(self.files@, |f: IotPocFile| f._key@, |f: IotPocFile| f@, key@);
        }
        match self.file_index(key) {
            Some(i) => {
                proof {
                    lemma_keyed_at(
                        self.files@,
                        |f: IotPocFile| f._key@,
                        |f: IotPocFile| f@,
                        i as int,
                    );
                }
                self.files[i].retries
            },
            None => 0,
        }
    }

    /// The record of the file with the given key, if the store holds one.
    pub fn file(&self, key: &String) -> (r: Option<&IotPocFile>)
        requires
            self.wf(),
        ensures
            match r {
                Some(f) => found(self@.files, key@) == Some(f@),
                None => found(self@.files, key@) is None,
            },
    {
        proof {
            lemma_keyed_contains(self.files@, |f: IotPocFile| f._key@, |f: IotPocFile| f@, key@);
        }
        match self.file_index(key) {
            Some(i) => {
                proof {
                    lemma_keyed_at(
                        self.files@,
                        |f: IotPocFile| f._key@,
                        |f: IotPocFile| f@,
                        i as int,
                    );
                }
                Some(&self.files[i])
            },
            None => None,
        }
    }

    /// The keys of the files that are done.
    pub fn get_done_file_keys(&self) -> (r: Vec<String>)
        requires
            self.wf(),
        ensures
            forall|key: Seq<char>| #[trigger]
                texts(r@).contains(key) <==> self@.files.contains_key(key)
                    && self@.files[key].done,
            texts(r@).no_duplicates(),
    {
        let ghost key_of = |f: IotPocFile| f._key@;
        let ghost view_of = |f: IotPocFile| f@;
        let mut keys: Vec<String> = Vec::new();
        let mut i: usize = 0;
        while i < self.files.len()
            invariant
                i <= self.files.len(),
                self.wf(),
                texts(keys@).no_duplicates(),
                forall|key: Seq<char>|
                    texts(keys@).contains(key) <==> exists|j: int|
                        0 <= j < i && (#[trigger] self.files@[j])._key@ == key
                            && self.files@[j].done,
            decreases self.files.len() - i,
        {
            let ghost before = texts(keys@);
            if self.files[i].done {
                keys.push(self.files[i]._key.clone());
                proof {
                    let id = self.files@[i as int]._key@;
                    assert(texts(keys@) =~= before.push(id));
                    assert(!before.contains(id)) by {
                        if before.contains(id) {
                            let j = choose|j: int|
                                0 <= j < i && (#[trigger] self.files@[j])._key@ == id
                                    && self.files@[j].done;
                            assert(key_of(self.files@[j]) != key_of(self.files@[i as int]));
                        }
                    }
                    assert(before.push(id).no_duplicates()) by {
                        assert forall|a: int, b: int|
                            0 <= a < before.len() + 1 && 0 <= b < before.len() + 1 && a
                                != b implies before.push(id)[a] != before.push(id)[b] by {
                            if a < before.len() && b < before.len() {
                            } else if a < before.len() {
                                assert(before.contains(before[a]));
                            } else {
                                assert(before.contains(before[b]));
                            }
                        }
                    }
                    assert forall|key: Seq<char>|
                        texts(keys@).contains(key) <==> exists|j: int|
                            0 <= j < i + 1 && (#[trigger] self.files@[j])._key@ == key
                                && self.files@[j].done by {
                        vstd::seq_lib::lemma_seq_contains_after_push(before, id, key);
                        if texts(keys@).contains(key) {
                            if key == id {
                                assert(self.files@[i as int]._key@ == key);
                            } else {
                                let j = choose|j: int|
                                    0 <= j < i && (#[trigger] self.files@[j])._key@ == key
                                        && self.files@[j].done;
                                assert(self.files@[j]._key@ == key);
                            }
                        }
                    }
                }
            }
            i += 1;
        }
        proof {
            assert forall|key: Seq<char>| #[trigger]
                texts(keys@).contains(key) <==> self@.files.contains_key(key)
                    && self@.files[key].done by {
                lemma_keyed_contains(self.files@, key_of, view_of, key);
                if texts(keys@).contains(key) {
                    let j = choose|j: int|
                        0 <= j < i && (#[trigger] self.files@[j])._key@ == key
                            && self.files@[j].done;
                    lemma_keyed_at(self.files@, key_of, view_of, j);
                }
                if self@.files.contains_key(key) && self@.files[key].done {
                    let j = choose|j: int|
                        0 <= j < self.files@.len() && key_of(#[trigger] self.files@[j]) == key;
                    lemma_keyed_at(self.files@, key_of, view_of, j);
                    assert(self.files@[j]._key@ == key);
                }
            }
        }
        keys
    }
}

} // verus!
