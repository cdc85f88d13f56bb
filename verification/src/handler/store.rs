//! The store as a mathematical object, and what holds of writing to it.
//!
//! The store is three maps from keys to documents. A report is applied by
//! writing its hotspots, its edges and its beacon, each by the merge rule
//! of its kind. The lemmas of this module say what that comes to for a
//! single key, and from there that redelivery is harmless and that the
//! order of two reports does not matter.

use crate::document::beacon::BeaconView;
use crate::document::edge::EdgeView;
use crate::document::hotspot::HotspotView;
use crate::document::iot_poc_file::IotPocFileView;
use crate::document::witness::WitnessView;
use crate::handler::arangodb::{entities_of, witness_hotspots_from, EntitiesView};
use crate::handler::upsert::{
    bumped,
    existing_ids,
    existing_time,
    max_time,
    merged_beacon,
    merged_edge,
    merged_hotspot,
    tally,
    EdgeDocView,
};
use vstd::prelude::*;

verus! {

/// What the store holds.
pub struct StoreView {
    /// The beacons by their identifier.
    pub beacons: Map<Seq<char>, BeaconView>,
    /// The hotspots by their public key.
    pub hotspots: Map<Seq<u8>, HotspotView>,
    /// The edges by their key.
    pub edges: Map<Seq<char>, EdgeDocView>,
    /// The file records by the key of the file.
    pub files: Map<Seq<char>, IotPocFileView>,
}

/// File records only move forward: none is lost, a file that is done
/// stays done, and no retry count goes down.
pub open spec fn files_only_advance(
    before: Map<Seq<char>, IotPocFileView>,
    after: Map<Seq<char>, IotPocFileView>,
) -> bool {
    forall|key: Seq<char>| #[trigger]
        before.contains_key(key) ==> {
            &&& after.contains_key(key)
            &&& before[key].done ==> after[key].done
            &&& before[key].retries <= after[key].retries
        }
}

/// The document under a key, if there is one.
pub open spec fn found<K, V>(m: Map<K, V>, key: K) -> Option<V> {
    if m.contains_key(key) {
        Some(m[key])
    } else {
        None
    }
}

/// The hotspots after one record has been written.
pub open spec fn upsert_hotspot(m: Map<Seq<u8>, HotspotView>, hotspot: HotspotView) -> Map<
    Seq<u8>,
    HotspotView,
> {
    m.insert(hotspot.key, merged_hotspot(found(m, hotspot.key), hotspot))
}

/// The hotspots after the records have been written one after the other.
pub open spec fn upsert_hotspots(m: Map<Seq<u8>, HotspotView>, hotspots: Seq<HotspotView>) -> Map<
    Seq<u8>,
    HotspotView,
>
    decreases hotspots.len(),
{
    if hotspots.len() == 0 {
        m
    } else {
        upsert_hotspot(upsert_hotspots(m, hotspots.drop_last()), hotspots.last())
    }
}

/// The edges after one witnessing has been written.
pub open spec fn upsert_edge(m: Map<Seq<char>, EdgeDocView>, edge: EdgeView) -> Map<
    Seq<char>,
    EdgeDocView,
> {
    m.insert(edge.key, merged_edge(found(m, edge.key), edge))
}

/// The edges after the witnessings have been written one after the other.
pub open spec fn upsert_edges(m: Map<Seq<char>, EdgeDocView>, edges: Seq<EdgeView>) -> Map<
    Seq<char>,
    EdgeDocView,
>
    decreases edges.len(),
{
    if edges.len() == 0 {
        m
    } else {
        upsert_edge(upsert_edges(m, edges.drop_last()), edges.last())
    }
}

/// The beacons after one beacon has been offered.
pub open spec fn insert_beacon(m: Map<Seq<char>, BeaconView>, beacon: BeaconView) -> Map<
    Seq<char>,
    BeaconView,
> {
    m.insert(beacon.key, merged_beacon(found(m, beacon.key), beacon))
}

/// The store after the documents of one report have been written.
pub open spec fn applied(store: StoreView, entities: EntitiesView) -> StoreView {
    StoreView {
        beacons: insert_beacon(store.beacons, entities.beacon),
        hotspots: upsert_hotspots(store.hotspots, entities.hotspots),
        edges: upsert_edges(store.edges, entities.edges),
        files: store.files,
    }
}

/// The last of the records that is for the device `key`, if there is one.
pub open spec fn last_with_key(hotspots: Seq<HotspotView>, key: Seq<u8>) -> Option<HotspotView>
    decreases hotspots.len(),
{
    if hotspots.len() == 0 {
        None
    } else if hotspots.last().key == key {
        Some(hotspots.last())
    } else {
        last_with_key(hotspots.drop_last(), key)
    }
}

/// The beacons that the records for the device `key` list.
pub open spec fn ids_with_key(hotspots: Seq<HotspotView>, key: Seq<u8>) -> Set<Seq<char>>
    decreases hotspots.len(),
{
    if hotspots.len() == 0 {
        Set::empty()
    } else if hotspots.last().key == key {
        ids_with_key(hotspots.drop_last(), key).union(hotspots.last().poc_ids)
    } else {
        ids_with_key(hotspots.drop_last(), key)
    }
}

/// The latest update time among the records for the device `key`.
pub open spec fn time_with_key(hotspots: Seq<HotspotView>, key: Seq<u8>) -> Option<u64>
    decreases hotspots.len(),
{
    if hotspots.len() == 0 {
        None
    } else if hotspots.last().key == key {
        max_time(time_with_key(hotspots.drop_last(), key), hotspots.last().last_updated_at)
    } else {
        time_with_key(hotspots.drop_last(), key)
    }
}

/// What the store holds of the device `key` after the records have been
/// written, where it held `base` before: the last record for the device,
/// with every beacon listed before or by a record, and the latest of all
/// update times. Without a record for the device, what it held.
pub open spec fn folded_hotspot(
    base: Option<HotspotView>,
    hotspots: Seq<HotspotView>,
    key: Seq<u8>,
) -> Option<HotspotView> {
    match last_with_key(hotspots, key) {
        None => base,
        Some(last) => Some(
            HotspotView {
                poc_ids: existing_ids(base).union(ids_with_key(hotspots, key)),
                last_updated_at: max_time(existing_time(base), time_with_key(hotspots, key)),
                ..last
            },
        ),
    }
}

/// Taking the later of times does not depend on how they are grouped.
pub proof fn lemma_max_time_assoc(a: Option<u64>, b: Option<u64>, c: Option<u64>)
    ensures
        max_time(max_time(a, b), c) == max_time(a, max_time(b, c)),
        max_time(a, b) == max_time(b, a),
        max_time(a, a) == a,
        max_time(a, None) == a,
        max_time(None, a) == a,
{
}

proof fn lemma_no_record(hotspots: Seq<HotspotView>, key: Seq<u8>)
    requires
        last_with_key(hotspots, key) is None,
    ensures
        ids_with_key(hotspots, key) == Set::<Seq<char>>::empty(),
        time_with_key(hotspots, key) is None,
    decreases hotspots.len(),
{
    if hotspots.len() > 0 {
        lemma_no_record(hotspots.drop_last(), key);
    }
}

proof fn lemma_last_has_key(hotspots: Seq<HotspotView>, key: Seq<u8>)
    ensures
        last_with_key(hotspots, key) matches Some(last) ==> last.key == key,
    decreases hotspots.len(),
{
    if hotspots.len() > 0 {
        lemma_last_has_key(hotspots.drop_last(), key);
    }
}

/// Writing records one after the other leaves under each key what
/// `folded_hotspot` says.
pub proof fn lemma_upsert_hotspots_at(
    m: Map<Seq<u8>, HotspotView>,
    hotspots: Seq<HotspotView>,
    key: Seq<u8>,
)
    ensures
        found(upsert_hotspots(m, hotspots), key) == folded_hotspot(found(m, key), hotspots, key),
    decreases hotspots.len(),
{
    if hotspots.len() > 0 {
        let init = hotspots.drop_last();
        let h = hotspots.last();
        let base = found(m, key);
        lemma_upsert_hotspots_at(m, init, key);
        lemma_last_has_key(init, key);
        if h.key == key {
            let before = folded_hotspot(base, init, key);
            let after = merged_hotspot(before, h);
            match last_with_key(init, key) {
                None => {
                    lemma_no_record(init, key);
                    assert(existing_ids(base).union(h.poc_ids) =~= existing_ids(base).union(
                        ids_with_key(hotspots, key),
                    ));
                },
                Some(last) => {
                    assert(existing_ids(before).union(h.poc_ids) =~= existing_ids(base).union(
                        ids_with_key(hotspots, key),
                    ));
                    lemma_max_time_assoc(
                        existing_time(base),
                        time_with_key(init, key),
                        h.last_updated_at,
                    );
                },
            }
            assert(folded_hotspot(base, hotspots, key) == Some(after));
        }
    }
}

/// Two records say the same of a device, whatever beacons they list and
/// whenever they were written.
pub open spec fn same_device_data(a: HotspotView, b: HotspotView) -> bool {
    (HotspotView { poc_ids: b.poc_ids, last_updated_at: b.last_updated_at, ..a }) == b
}

/// Wherever both lists of records speak of a device, the last record of
/// the one says of it what the last record of the other says.
pub open spec fn hotspots_agree(a: Seq<HotspotView>, b: Seq<HotspotView>) -> bool {
    forall|key: Seq<u8>|
        (#[trigger] last_with_key(a, key)) is Some && last_with_key(b, key) is Some
            ==> same_device_data(last_with_key(a, key)->0, last_with_key(b, key)->0)
}

/// Hotspots end up the same whichever of two lists of records is written
/// first, provided the two say the same of the devices that they share.
pub proof fn lemma_upsert_hotspots_commute(
    m: Map<Seq<u8>, HotspotView>,
    a: Seq<HotspotView>,
    b: Seq<HotspotView>,
)
    requires
        hotspots_agree(a, b),
    ensures
        upsert_hotspots(upsert_hotspots(m, a), b) == upsert_hotspots(upsert_hotspots(m, b), a),
{
    let ab = upsert_hotspots(upsert_hotspots(m, a), b);
    let ba = upsert_hotspots(upsert_hotspots(m, b), a);
    assert forall|key: Seq<u8>| found(ab, key) == found(ba, key) by {
        let base = found(m, key);
        lemma_upsert_hotspots_at(m, a, key);
        lemma_upsert_hotspots_at(upsert_hotspots(m, a), b, key);
        lemma_upsert_hotspots_at(m, b, key);
        lemma_upsert_hotspots_at(upsert_hotspots(m, b), a, key);
        let la = last_with_key(a, key);
        let lb = last_with_key(b, key);
        if la is Some && lb is Some {
            let ida = ids_with_key(a, key);
            let idb = ids_with_key(b, key);
            let ta = time_with_key(a, key);
            let tb = time_with_key(b, key);
            assert(existing_ids(base).union(ida).union(idb) =~= existing_ids(base).union(
                idb,
            ).union(ida));
            lemma_max_time_assoc(existing_time(base), ta, tb);
            lemma_max_time_assoc(existing_time(base), tb, ta);
            lemma_max_time_assoc(ta, tb, None);
        }
    }
    assert(ab =~= ba) by {
        assert forall|key: Seq<u8>| ab.contains_key(key) == ba.contains_key(key) by {
            assert(found(ab, key) == found(ba, key));
        }
        assert forall|key: Seq<u8>| ab.contains_key(key) implies ab[key] == ba[key] by {
            assert(found(ab, key) == found(ba, key));
        }
    }
}

/// What the store holds under the edge key `key` after the witnessings
/// have been written, where it held `base` before: each witnessing with
/// that key is merged in, in order.
pub open spec fn folded_edge(base: Option<EdgeDocView>, edges: Seq<EdgeView>, key: Seq<char>) -> Option<
    EdgeDocView,
>
    decreases edges.len(),
{
    if edges.len() == 0 {
        base
    } else if edges.last().key == key {
        Some(merged_edge(folded_edge(base, edges.drop_last(), key), edges.last()))
    } else {
        folded_edge(base, edges.drop_last(), key)
    }
}

/// Writing witnessings one after the other leaves under each key what
/// `folded_edge` says.
pub proof fn lemma_upsert_edges_at(
    m: Map<Seq<char>, EdgeDocView>,
    edges: Seq<EdgeView>,
    key: Seq<char>,
)
    ensures
        found(upsert_edges(m, edges), key) == folded_edge(found(m, key), edges, key),
    decreases edges.len(),
{
    if edges.len() > 0 {
        lemma_upsert_edges_at(m, edges.drop_last(), key);
        lemma_upsert_edges_at(m, edges.drop_last(), edges.last().key);
    }
}

/// The first of the witnessings with the key `key`, if there is one.
pub open spec fn first_with_key(edges: Seq<EdgeView>, key: Seq<char>) -> Option<EdgeView>
    decreases edges.len(),
{
    if edges.len() == 0 {
        None
    } else {
        match first_with_key(edges.drop_last(), key) {
            Some(edge) => Some(edge),
            None => if edges.last().key == key {
                Some(edges.last())
            } else {
                None
            },
        }
    }
}

/// The edge that a witnessing founds, before anything is counted: what it
/// says of the two devices and of their distance.
pub open spec fn unwritten(edge: EdgeView) -> EdgeDocView {
    EdgeDocView {
        key: edge.key,
        beacon_pub_key: edge.beacon_pub_key,
        witness_pub_key: edge.witness_pub_key,
        distance: edge.distance,
        count: 0,
        snr_hist: Map::empty(),
        signal_hist: Map::empty(),
        ingest_latency_hist: Map::empty(),
    }
}

proof fn lemma_found_edge(edge: EdgeView)
    ensures
        merged_edge(None, edge) == merged_edge(Some(unwritten(edge)), edge),
{
    let a = merged_edge(None, edge);
    let b = merged_edge(Some(unwritten(edge)), edge);
    assert(a.snr_hist =~= b.snr_hist);
    assert(a.signal_hist =~= b.signal_hist);
    assert(a.ingest_latency_hist =~= b.ingest_latency_hist);
}

proof fn lemma_folded_from_nothing(edges: Seq<EdgeView>, key: Seq<char>)
    ensures
        match first_with_key(edges, key) {
            Some(first) => folded_edge(None, edges, key) == folded_edge(
                Some(unwritten(first)),
                edges,
                key,
            ) && folded_edge(None, edges, key) is Some,
            None => forall|base: Option<EdgeDocView>|
                #[trigger] folded_edge(base, edges, key) == base,
        },
    decreases edges.len(),
{
    if edges.len() > 0 {
        let init = edges.drop_last();
        lemma_folded_from_nothing(init, key);
        match first_with_key(init, key) {
            Some(first) => {},
            None => {
                assert(folded_edge(None, init, key) == None::<EdgeDocView>);
                if edges.last().key == key {
                    lemma_found_edge(edges.last());
                    assert(folded_edge(Some(unwritten(edges.last())), init, key) == Some(
                        unwritten(edges.last()),
                    ));
                } else {
                    assert forall|base: Option<EdgeDocView>| #[trigger]
                        folded_edge(base, edges, key) == base by {
                        assert(folded_edge(base, init, key) == base);
                    }
                }
            },
        }
    }
}

/// Counting two values comes to the same in either order.
pub proof fn lemma_bumped_commutes(hist: Map<i64, nat>, a: i64, b: i64)
    ensures
        bumped(bumped(hist, a), b)
            == bumped(bumped(hist, b), a),
{
    assert(bumped(bumped(hist, a), b)
        =~= bumped(bumped(hist, b), a));
}

proof fn lemma_merged_edge_commutes(doc: EdgeDocView, a: EdgeView, b: EdgeView)
    ensures
        merged_edge(Some(merged_edge(Some(doc), a)), b) == merged_edge(
            Some(merged_edge(Some(doc), b)),
            a,
        ),
{
    lemma_bumped_commutes(doc.snr_hist, a.witness_snr as i64, b.witness_snr as i64);
    lemma_bumped_commutes(doc.signal_hist, a.witness_signal as i64, b.witness_signal as i64);
    lemma_bumped_commutes(doc.ingest_latency_hist, a.ingest_latency, b.ingest_latency);
}

proof fn lemma_front_to_back(doc: EdgeDocView, edge: EdgeView, edges: Seq<EdgeView>, key: Seq<char>)
    requires
        edge.key == key,
    ensures
        folded_edge(Some(doc), edges, key) is Some,
        folded_edge(Some(merged_edge(Some(doc), edge)), edges, key) == Some(
            merged_edge(folded_edge(Some(doc), edges, key), edge),
        ),
    decreases edges.len(),
{
    if edges.len() > 0 {
        let init = edges.drop_last();
        lemma_front_to_back(doc, edge, init, key);
        if edges.last().key == key {
            let mid = folded_edge(Some(doc), init, key)->0;
            lemma_merged_edge_commutes(mid, edge, edges.last());
        }
    }
}

proof fn lemma_folded_edge_swap(
    doc: EdgeDocView,
    a: Seq<EdgeView>,
    b: Seq<EdgeView>,
    key: Seq<char>,
)
    ensures
        folded_edge(folded_edge(Some(doc), a, key), b, key) == folded_edge(
            folded_edge(Some(doc), b, key),
            a,
            key,
        ),
    decreases b.len(),
{
    if b.len() > 0 {
        let init = b.drop_last();
        lemma_folded_edge_swap(doc, a, init, key);
        if b.last().key == key {
            lemma_front_to_back(doc, b.last(), init, key);
            let mid = folded_edge(Some(doc), init, key)->0;
            lemma_front_to_back(mid, b.last(), a, key);
        }
    }
}

/// Wherever both lists of witnessings would found an edge that the store
/// does not hold yet, they found the same edge.
pub open spec fn edges_agree(
    m: Map<Seq<char>, EdgeDocView>,
    a: Seq<EdgeView>,
    b: Seq<EdgeView>,
) -> bool {
    forall|key: Seq<char>|
        !m.contains_key(key) && (#[trigger] first_with_key(a, key)) is Some && first_with_key(
            b,
            key,
        ) is Some ==> unwritten(first_with_key(a, key)->0) == unwritten(first_with_key(b, key)->0)
}

/// Edges end up the same whichever of two lists of witnessings is written
/// first, provided the two found the same edges where both found one.
pub proof fn lemma_upsert_edges_commute(
    m: Map<Seq<char>, EdgeDocView>,
    a: Seq<EdgeView>,
    b: Seq<EdgeView>,
)
    requires
        edges_agree(m, a, b),
    ensures
        upsert_edges(upsert_edges(m, a), b) == upsert_edges(upsert_edges(m, b), a),
{
    let ab = upsert_edges(upsert_edges(m, a), b);
    let ba = upsert_edges(upsert_edges(m, b), a);
    assert forall|key: Seq<char>| found(ab, key) == found(ba, key) by {
        let base = found(m, key);
        lemma_upsert_edges_at(m, a, key);
        lemma_upsert_edges_at(upsert_edges(m, a), b, key);
        lemma_upsert_edges_at(m, b, key);
        lemma_upsert_edges_at(upsert_edges(m, b), a, key);
        lemma_folded_from_nothing(a, key);
        lemma_folded_from_nothing(b, key);
        match base {
            Some(doc) => {
                lemma_folded_edge_swap(doc, a, b, key);
            },
            None => {
                match (first_with_key(a, key), first_with_key(b, key)) {
                    (Some(fa), Some(fb)) => {
                        lemma_folded_edge_swap(unwritten(fa), a, b, key);
                        assert(folded_edge(None, a, key) == folded_edge(
                            Some(unwritten(fa)),
                            a,
                            key,
                        ));
                        assert(folded_edge(None, b, key) == folded_edge(
                            Some(unwritten(fb)),
                            b,
                            key,
                        ));
                    },
                    (Some(fa), None) => {
                        assert(folded_edge(None, b, key) == None::<EdgeDocView>);
                        assert(folded_edge(folded_edge(None, a, key), b, key) == folded_edge(
                            None,
                            a,
                            key,
                        ));
                    },
                    (None, Some(fb)) => {
                        assert(folded_edge(None, a, key) == None::<EdgeDocView>);
                        assert(folded_edge(folded_edge(None, b, key), a, key) == folded_edge(
                            None,
                            b,
                            key,
                        ));
                    },
                    (None, None) => {
                        assert(folded_edge(None, a, key) == None::<EdgeDocView>);
                        assert(folded_edge(None, b, key) == None::<EdgeDocView>);
                    },
                }
            },
        }
    }
    assert(ab =~= ba) by {
        assert forall|key: Seq<char>| ab.contains_key(key) == ba.contains_key(key) by {
            assert(found(ab, key) == found(ba, key));
        }
        assert forall|key: Seq<char>| ab.contains_key(key) implies ab[key] == ba[key] by {
            assert(found(ab, key) == found(ba, key));
        }
    }
}

/// Applying one report and then another leaves the same hotspots and the
/// same edges as applying them the other way round, provided that the two
/// say the same of every device that they share, and found the same edge
/// wherever both found one that the store does not hold yet.
pub proof fn lemma_reports_commute(store: StoreView, a: EntitiesView, b: EntitiesView)
    requires
        hotspots_agree(a.hotspots, b.hotspots),
        edges_agree(store.edges, a.edges, b.edges),
    ensures
        applied(applied(store, a), b).hotspots == applied(applied(store, b), a).hotspots,
        applied(applied(store, a), b).edges == applied(applied(store, b), a).edges,
{
    lemma_upsert_hotspots_commute(store.hotspots, a.hotspots, b.hotspots);
    lemma_upsert_edges_commute(store.edges, a.edges, b.edges);
}

/// Writing one witnessing changes the edge of its key and no other: that
/// edge counts exactly one more, each of its histograms gains exactly one
/// in the bucket of the observed value and keeps every other bucket, and
/// what it says of the two devices stays. A new edge starts at one.
pub proof fn lemma_one_more_witnessing(m: Map<Seq<char>, EdgeDocView>, edge: EdgeView)
    ensures
        ({
            let after = upsert_edge(m, edge);
            &&& after.contains_key(edge.key)
            &&& forall|key: Seq<char>|
                key != edge.key ==> #[trigger] found(after, key) == found(m, key)
            &&& after[edge.key].count == (if m.contains_key(edge.key) {
                m[edge.key].count
            } else {
                0
            }) + 1
            &&& after[edge.key].snr_hist == bumped(
                if m.contains_key(edge.key) {
                    m[edge.key].snr_hist
                } else {
                    Map::empty()
                },
                edge.witness_snr as i64,
            )
            &&& after[edge.key].signal_hist == bumped(
                if m.contains_key(edge.key) {
                    m[edge.key].signal_hist
                } else {
                    Map::empty()
                },
                edge.witness_signal as i64,
            )
            &&& after[edge.key].ingest_latency_hist == bumped(
                if m.contains_key(edge.key) {
                    m[edge.key].ingest_latency_hist
                } else {
                    Map::empty()
                },
                edge.ingest_latency,
            )
            &&& m.contains_key(edge.key) ==> unwritten_of(after[edge.key]) == unwritten_of(
                m[edge.key],
            )
        }),
{
}

/// What a stored edge says of the two devices, with nothing counted.
pub open spec fn unwritten_of(doc: EdgeDocView) -> EdgeDocView {
    EdgeDocView {
        count: 0,
        snr_hist: Map::empty(),
        signal_hist: Map::empty(),
        ingest_latency_hist: Map::empty(),
        ..doc
    }
}

/// Counting a value once more raises its bucket by exactly one and leaves
/// every other bucket as it was.
pub proof fn lemma_bumped(hist: Map<i64, nat>, value: i64, other: i64)
    ensures
        tally(bumped(hist, value), value) == tally(hist, value) + 1,
        other != value ==> tally(bumped(hist, value), other) == tally(hist, other),
        other != value ==> (bumped(hist, value).contains_key(other) <==> hist.contains_key(other)),
{
}

/// Two edges, or the lack of one on both sides, with the same count and
/// the same three histograms.
pub open spec fn same_counts(a: Option<EdgeDocView>, b: Option<EdgeDocView>) -> bool {
    match (a, b) {
        (None, None) => true,
        (Some(x), Some(y)) => {
            &&& x.count == y.count
            &&& x.snr_hist == y.snr_hist
            &&& x.signal_hist == y.signal_hist
            &&& x.ingest_latency_hist == y.ingest_latency_hist
        },
        _ => false,
    }
}

proof fn lemma_folded_same_counts(
    x: Option<EdgeDocView>,
    y: Option<EdgeDocView>,
    edges: Seq<EdgeView>,
    key: Seq<char>,
)
    requires
        same_counts(x, y),
    ensures
        same_counts(folded_edge(x, edges, key), folded_edge(y, edges, key)),
    decreases edges.len(),
{
    if edges.len() > 0 {
        lemma_folded_same_counts(x, y, edges.drop_last(), key);
    }
}

/// Whichever of two lists of witnessings is written first, every edge
/// ends up with the same count and the same three histograms: counting is
/// independent of order, whatever the witnessings and whatever the store
/// held.
pub proof fn lemma_upsert_edges_commute_in_counts(
    m: Map<Seq<char>, EdgeDocView>,
    a: Seq<EdgeView>,
    b: Seq<EdgeView>,
    key: Seq<char>,
)
    ensures
        same_counts(
            found(upsert_edges(upsert_edges(m, a), b), key),
            found(upsert_edges(upsert_edges(m, b), a), key),
        ),
{
    let base = found(m, key);
    lemma_upsert_edges_at(m, a, key);
    lemma_upsert_edges_at(upsert_edges(m, a), b, key);
    lemma_upsert_edges_at(m, b, key);
    lemma_upsert_edges_at(upsert_edges(m, b), a, key);
    lemma_folded_from_nothing(a, key);
    lemma_folded_from_nothing(b, key);
    let ab = folded_edge(folded_edge(base, a, key), b, key);
    let ba = folded_edge(folded_edge(base, b, key), a, key);
    match base {
        Some(doc) => {
            lemma_folded_edge_swap(doc, a, b, key);
            lemma_folded_same_counts(ab, ab, Seq::empty(), key);
        },
        None => {
            match (first_with_key(a, key), first_with_key(b, key)) {
                (Some(fa), Some(fb)) => {
                    let seed_a = Some(unwritten(fa));
                    let seed_b = Some(unwritten(fb));
                    lemma_folded_edge_swap(unwritten(fa), a, b, key);
                    assert(folded_edge(None, a, key) == folded_edge(seed_a, a, key));
                    assert(folded_edge(None, b, key) == folded_edge(seed_b, b, key));
                    assert(ab == folded_edge(folded_edge(seed_a, b, key), a, key));
                    lemma_folded_same_counts(seed_a, seed_b, b, key);
                    lemma_folded_same_counts(
                        folded_edge(seed_a, b, key),
                        folded_edge(seed_b, b, key),
                        a,
                        key,
                    );
                },
                (Some(fa), None) => {
                    assert(folded_edge(None, b, key) == None::<EdgeDocView>);
                    assert(ab == folded_edge(None, a, key));
                    lemma_folded_same_counts(ab, ab, Seq::empty(), key);
                },
                (None, Some(fb)) => {
                    assert(folded_edge(None, a, key) == None::<EdgeDocView>);
                    assert(ba == folded_edge(None, b, key));
                    lemma_folded_same_counts(ab, ab, Seq::empty(), key);
                },
                (None, None) => {
                    assert(folded_edge(None, a, key) == None::<EdgeDocView>);
                    assert(folded_edge(None, b, key) == None::<EdgeDocView>);
                },
            }
        },
    }
}

/// Two hotspots, or the lack of one on both sides, that list the same
/// beacons and were last updated at the same time.
pub open spec fn same_ids_and_time(a: Option<HotspotView>, b: Option<HotspotView>) -> bool {
    match (a, b) {
        (None, None) => true,
        (Some(x), Some(y)) => x.poc_ids == y.poc_ids && x.last_updated_at == y.last_updated_at,
        _ => false,
    }
}

/// Whichever of two lists of records is written first, every hotspot ends
/// up with the same set of beacons and the same time of its last update,
/// whatever the records and whatever the store held.
pub proof fn lemma_upsert_hotspots_commute_in_ids(
    m: Map<Seq<u8>, HotspotView>,
    a: Seq<HotspotView>,
    b: Seq<HotspotView>,
    key: Seq<u8>,
)
    ensures
        same_ids_and_time(
            found(upsert_hotspots(upsert_hotspots(m, a), b), key),
            found(upsert_hotspots(upsert_hotspots(m, b), a), key),
        ),
{
    let base = found(m, key);
    lemma_upsert_hotspots_at(m, a, key);
    lemma_upsert_hotspots_at(upsert_hotspots(m, a), b, key);
    lemma_upsert_hotspots_at(m, b, key);
    lemma_upsert_hotspots_at(upsert_hotspots(m, b), a, key);
    if last_with_key(a, key) is Some && last_with_key(b, key) is Some {
        let ida = ids_with_key(a, key);
        let idb = ids_with_key(b, key);
        let ta = time_with_key(a, key);
        let tb = time_with_key(b, key);
        assert(existing_ids(base).union(ida).union(idb) =~= existing_ids(base).union(idb).union(
            ida,
        ));
        lemma_max_time_assoc(existing_time(base), ta, tb);
        lemma_max_time_assoc(existing_time(base), tb, ta);
        lemma_max_time_assoc(ta, tb, None);
    }
}

/// Applying one report and then another leaves, in either order and with
/// no condition on the two reports, the same devices with the same sets
/// of beacons and the same times of their last update, and the same edges
/// with the same counts and the same histograms.
pub proof fn lemma_reports_commute_in_counts(store: StoreView, a: EntitiesView, b: EntitiesView)
    ensures
        forall|key: Seq<u8>| #[trigger]
            same_ids_and_time(
                found(applied(applied(store, a), b).hotspots, key),
                found(applied(applied(store, b), a).hotspots, key),
            ),
        forall|key: Seq<char>| #[trigger]
            same_counts(
                found(applied(applied(store, a), b).edges, key),
                found(applied(applied(store, b), a).edges, key),
            ),
{
    assert forall|key: Seq<u8>| #[trigger]
        same_ids_and_time(
            found(applied(applied(store, a), b).hotspots, key),
            found(applied(applied(store, b), a).hotspots, key),
        ) by {
        lemma_upsert_hotspots_commute_in_ids(store.hotspots, a.hotspots, b.hotspots, key);
    }
    assert forall|key: Seq<char>| #[trigger]
        same_counts(
            found(applied(applied(store, a), b).edges, key),
            found(applied(applied(store, b), a).edges, key),
        ) by {
        lemma_upsert_edges_commute_in_counts(store.edges, a.edges, b.edges, key);
    }
}

/// The same records, written at the time `now`.
pub open spec fn retimed(hotspots: Seq<HotspotView>, now: u64) -> Seq<HotspotView> {
    hotspots.map_values(|h: HotspotView| HotspotView { last_updated_at: Some(now), ..h })
}

proof fn lemma_retimed_at(hotspots: Seq<HotspotView>, now: u64, key: Seq<u8>)
    ensures
        last_with_key(retimed(hotspots, now), key) == match last_with_key(hotspots, key) {
            Some(last) => Some(HotspotView { last_updated_at: Some(now), ..last }),
            None => None,
        },
        ids_with_key(retimed(hotspots, now), key) == ids_with_key(hotspots, key),
        time_with_key(retimed(hotspots, now), key) == if last_with_key(hotspots, key) is Some {
            Some(now)
        } else {
            None
        },
    decreases hotspots.len(),
{
    if hotspots.len() > 0 {
        let init = hotspots.drop_last();
        lemma_retimed_at(init, now, key);
        assert(retimed(hotspots, now).drop_last() =~= retimed(init, now));
        if last_with_key(init, key) is None {
            lemma_no_record(init, key);
        }
    }
}

/// Writing the same records once more, at the time `now`, leaves every
/// hotspot as it was, but that the time of the last update of each device
/// among the records moves on to `now` where `now` is later.
pub proof fn lemma_rewrite_hotspots(
    m: Map<Seq<u8>, HotspotView>,
    hotspots: Seq<HotspotView>,
    now: u64,
    key: Seq<u8>,
)
    ensures
        found(upsert_hotspots(upsert_hotspots(m, hotspots), retimed(hotspots, now)), key)
            == match found(upsert_hotspots(m, hotspots), key) {
            None => None,
            Some(once) => Some(
                HotspotView {
                    last_updated_at: if last_with_key(hotspots, key) is Some {
                        max_time(once.last_updated_at, Some(now))
                    } else {
                        once.last_updated_at
                    },
                    ..once
                },
            ),
        },
{
    let once = upsert_hotspots(m, hotspots);
    let base = found(m, key);
    lemma_upsert_hotspots_at(m, hotspots, key);
    lemma_upsert_hotspots_at(once, retimed(hotspots, now), key);
    lemma_retimed_at(hotspots, now, key);
    if last_with_key(hotspots, key) is Some {
        let ids = ids_with_key(hotspots, key);
        assert(existing_ids(base).union(ids).union(ids) =~= existing_ids(base).union(ids));
    }
}

/// No two of the witnessings have the same key.
pub open spec fn distinct_edge_keys(edges: Seq<EdgeView>) -> bool {
    forall|i: int, j: int|
        0 <= i < j < edges.len() ==> (#[trigger] edges[i]).key != (#[trigger] edges[j]).key
}

/// Where no two witnessings have the same key, writing them all comes, for
/// the key of each, to writing that one.
pub proof fn lemma_single_edge(base: Option<EdgeDocView>, edges: Seq<EdgeView>, i: int)
    requires
        distinct_edge_keys(edges),
        0 <= i < edges.len(),
    ensures
        folded_edge(base, edges, edges[i].key) == Some(merged_edge(base, edges[i])),
    decreases edges.len(),
{
    let init = edges.drop_last();
    let key = edges[i].key;
    assert(distinct_edge_keys(init)) by {
        assert forall|a: int, b: int| 0 <= a < b < init.len() implies (#[trigger] init[a]).key != (
        #[trigger] init[b]).key by {
            assert(init[a] == edges[a]);
            assert(init[b] == edges[b]);
        }
    }
    if i == edges.len() - 1 {
        lemma_no_edge_with_key(base, init, key);
        assert forall|j: int| 0 <= j < init.len() implies (#[trigger] init[j]).key != key by {
            assert(init[j] == edges[j]);
        }
    } else {
        lemma_single_edge(base, init, i);
        assert(init[i] == edges[i]);
        assert(edges[i].key != edges[edges.len() - 1].key);
    }
}

proof fn lemma_no_edge_with_key(base: Option<EdgeDocView>, edges: Seq<EdgeView>, key: Seq<char>)
    requires
        forall|j: int| 0 <= j < edges.len() ==> (#[trigger] edges[j]).key != key,
    ensures
        folded_edge(base, edges, key) == base,
    decreases edges.len(),
{
    if edges.len() > 0 {
        let init = edges.drop_last();
        assert forall|j: int| 0 <= j < init.len() implies (#[trigger] init[j]).key != key by {
            assert(init[j] == edges[j]);
        }
        lemma_no_edge_with_key(base, init, key);
        assert(edges.last() == edges[edges.len() - 1]);
    }
}

proof fn lemma_witness_hotspots_retimed(witnesses: Seq<WitnessView>, i: int, first: u64, second: u64)
    requires
        0 <= i,
    ensures
        witness_hotspots_from(witnesses, i, second) == retimed(
            witness_hotspots_from(witnesses, i, first),
            second,
        ),
    decreases witnesses.len() - i,
{
    if i < witnesses.len() {
        lemma_witness_hotspots_retimed(witnesses, i + 1, first, second);
        assert(witness_hotspots_from(witnesses, i, second) =~= retimed(
            witness_hotspots_from(witnesses, i, first),
            second,
        ));
    } else {
        assert(witness_hotspots_from(witnesses, i, second) =~= retimed(
            witness_hotspots_from(witnesses, i, first),
            second,
        ));
    }
}

/// The documents of a beacon that is applied at another time differ in
/// the time of the hotspot records alone.
pub proof fn lemma_entities_retimed(beacon: BeaconView, first: u64, second: u64)
    ensures
        entities_of(beacon, second) == (EntitiesView {
            hotspots: retimed(entities_of(beacon, first).hotspots, second),
            ..entities_of(beacon, first)
        }),
{
    lemma_witness_hotspots_retimed(beacon.witnesses, 0, first, second);
    assert(entities_of(beacon, second).hotspots =~= retimed(
        entities_of(beacon, first).hotspots,
        second,
    ));
}

/// Applying the same report a second time, at the time `second`, changes
/// nothing but this: the time of the last update of each device of the
/// report moves on to `second` where that is later, and every witnessing
/// of the report is counted once more on its edge.
///
/// Where no two witnessings of the report have the same edge key, each
/// edge of the report has its count raised by exactly one, and each of its
/// histograms by exactly one in the bucket of the witnessing's value.
pub proof fn lemma_redelivery(store: StoreView, beacon: BeaconView, first: u64, second: u64)
    ensures
        ({
            let report = entities_of(beacon, first);
            let once = applied(store, report);
            let twice = applied(once, entities_of(beacon, second));
            &&& twice.beacons == once.beacons
            &&& twice.hotspots.dom() == once.hotspots.dom()
            &&& forall|key: Seq<u8>| #[trigger]
                once.hotspots.contains_key(key) ==> twice.hotspots[key] == (HotspotView {
                    last_updated_at: if last_with_key(report.hotspots, key) is Some {
                        max_time(once.hotspots[key].last_updated_at, Some(second))
                    } else {
                        once.hotspots[key].last_updated_at
                    },
                    ..once.hotspots[key]
                })
            &&& forall|key: Seq<char>| #[trigger]
                found(twice.edges, key) == folded_edge(found(once.edges, key), report.edges, key)
            &&& distinct_edge_keys(report.edges) ==> forall|i: int|
                0 <= i < report.edges.len() ==> {
                    let edge = #[trigger] report.edges[i];
                    &&& once.edges.contains_key(edge.key)
                    &&& twice.edges.contains_key(edge.key)
                    &&& twice.edges[edge.key] == merged_edge(Some(once.edges[edge.key]), edge)
                    &&& twice.edges[edge.key].count == once.edges[edge.key].count + 1
                    &&& twice.edges[edge.key].snr_hist == bumped(
                        once.edges[edge.key].snr_hist,
                        edge.witness_snr as i64,
                    )
                    &&& twice.edges[edge.key].signal_hist == bumped(
                        once.edges[edge.key].signal_hist,
                        edge.witness_signal as i64,
                    )
                    &&& twice.edges[edge.key].ingest_latency_hist == bumped(
                        once.edges[edge.key].ingest_latency_hist,
                        edge.ingest_latency,
                    )
                }
        }),
{
    let report = entities_of(beacon, first);
    let again = entities_of(beacon, second);
    let once = applied(store, report);
    let twice = applied(once, again);
    lemma_entities_retimed(beacon, first, second);
    assert(twice.beacons =~= once.beacons);
    assert forall|key: Seq<u8>|
        once.hotspots.contains_key(key) == twice.hotspots.contains_key(key) && (
        #[trigger] once.hotspots.contains_key(key) ==> twice.hotspots[key] == (HotspotView {
            last_updated_at: if last_with_key(report.hotspots, key) is Some {
                max_time(once.hotspots[key].last_updated_at, Some(second))
            } else {
                once.hotspots[key].last_updated_at
            },
            ..once.hotspots[key]
        })) by {
        lemma_rewrite_hotspots(store.hotspots, report.hotspots, second, key);
    }
    assert(twice.hotspots.dom() =~= once.hotspots.dom());
    assert forall|key: Seq<char>| #[trigger]
        found(twice.edges, key) == folded_edge(found(once.edges, key), report.edges, key) by {
        lemma_upsert_edges_at(once.edges, report.edges, key);
    }
    if distinct_edge_keys(report.edges) {
        assert forall|i: int| 0 <= i < report.edges.len() implies {
            let edge = #[trigger] report.edges[i];
            &&& once.edges.contains_key(edge.key)
            &&& twice.edges.contains_key(edge.key)
            &&& twice.edges[edge.key] == merged_edge(Some(once.edges[edge.key]), edge)
        } by {
            let edge = report.edges[i];
            lemma_upsert_edges_at(store.edges, report.edges, edge.key);
            lemma_upsert_edges_at(once.edges, report.edges, edge.key);
            lemma_single_edge(found(store.edges, edge.key), report.edges, i);
            lemma_single_edge(found(once.edges, edge.key), report.edges, i);
        }
    }
}

} // verus!
