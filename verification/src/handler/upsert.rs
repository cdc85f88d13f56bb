//! How a document joins what the store holds under its key.
//!
//! A beacon is written once and never again. A hotspot takes over what the
//! latest report says of the device, while the set of its beacons only
//! grows and the time of its last update only advances. An edge counts:
//! each witnessing adds one to its count and one to a bucket of each of
//! its three histograms.

use crate::document::beacon::{Beacon, BeaconView};
use crate::document::edge::{Edge, EdgeView};
use crate::document::hotspot::{Hotspot, HotspotView};
use crate::document::witness::Distance;
use crate::document::clone_bytes;
use crate::text::{contains_key, texts};
use vstd::prelude::*;

verus! {

/// The later of two times, where a time may be unknown.
pub open spec fn max_time(a: Option<u64>, b: Option<u64>) -> Option<u64> {
    match (a, b) {
        (Some(x), Some(y)) => if x >= y {
            Some(x)
        } else {
            Some(y)
        },
        (Some(x), None) => Some(x),
        (None, _) => b,
    }
}

/// The beacons that the stored hotspot lists; none if there is no stored
/// hotspot.
pub open spec fn existing_ids(existing: Option<HotspotView>) -> Set<Seq<char>> {
    match existing {
        Some(old) => old.poc_ids,
        None => Set::empty(),
    }
}

/// The time of the stored hotspot's last update, if there is any.
pub open spec fn existing_time(existing: Option<HotspotView>) -> Option<u64> {
    match existing {
        Some(old) => old.last_updated_at,
        None => None,
    }
}

/// The hotspot that the store holds after `incoming` has been written
/// over `existing`: the incoming record, with the beacons of both and the
/// later of the two update times.
pub open spec fn merged_hotspot(existing: Option<HotspotView>, incoming: HotspotView) -> HotspotView {
    HotspotView {
        poc_ids: existing_ids(existing).union(incoming.poc_ids),
        last_updated_at: max_time(existing_time(existing), incoming.last_updated_at),
        ..incoming
    }
}

/// Writing over a stored hotspot loses none of its beacons and does not
/// turn back the time of its last update.
pub proof fn lemma_hotspot_grows(old: HotspotView, incoming: HotspotView)
    ensures
        old.poc_ids.subset_of(merged_hotspot(Some(old), incoming).poc_ids),
        incoming.poc_ids.subset_of(merged_hotspot(Some(old), incoming).poc_ids),
        match (old.last_updated_at, merged_hotspot(Some(old), incoming).last_updated_at) {
            (Some(before), Some(after)) => before <= after,
            (Some(_), None) => false,
            (None, _) => true,
        },
{
}

/// The view of an optional hotspot.
pub open spec fn hotspot_view(hotspot: Option<Hotspot>) -> Option<HotspotView> {
    match hotspot {
        Some(h) => Some(h@),
        None => None,
    }
}

fn later(a: Option<u64>, b: Option<u64>) -> (r: Option<u64>)
    ensures
        r == max_time(a, b),
{
    match (a, b) {
        (Some(x), Some(y)) => if x >= y {
            Some(x)
        } else {
            Some(y)
        },
        (Some(x), None) => Some(x),
        (None, _) => b,
    }
}

/// Writes `incoming` over what the store holds of the device, if
/// anything. The result lists no beacon twice if the stored hotspot did
/// not.
pub fn merge_hotspot(existing: Option<Hotspot>, incoming: Hotspot) -> (r: Hotspot)
    ensures
        r@ == merged_hotspot(hotspot_view(existing), incoming@),
        (existing matches Some(old) ==> old.wf()) ==> r.wf(),
{
    let ghost old_ids = existing_ids(hotspot_view(existing));
    let Hotspot {
        _key,
        poc_ids: incoming_ids,
        str_location,
        location,
        parent_str_location,
        parent_location,
        name,
        last_updated_at,
        gain,
        elevation,
    } = incoming;
    let (mut ids, old_time) = match existing {
        Some(old) => (old.poc_ids, old.last_updated_at),
        None => (Vec::new(), None),
    };
    let ghost start = texts(ids@);
    proof {
        assert(start.to_set() =~= old_ids) by {
            if existing is None {
                assert(start =~= Seq::<Seq<char>>::empty());
            }
        }
        assert(texts(incoming_ids@.take(0)) =~= Seq::<Seq<char>>::empty());
        assert(old_ids.union(Seq::<Seq<char>>::empty().to_set()) =~= old_ids);
    }
    let mut i: usize = 0;
    while i < incoming_ids.len()
        invariant
            i <= incoming_ids.len(),
            texts(ids@).to_set() == old_ids.union(texts(incoming_ids@.take(i as int)).to_set()),
            start.no_duplicates() ==> texts(ids@).no_duplicates(),
        decreases incoming_ids.len() - i,
    {
        let ghost before = texts(ids@);
        let ghost seen = texts(incoming_ids@.take(i as int));
        let ghost id = incoming_ids@[i as int]@;
        proof {
            assert(texts(incoming_ids@.take(i + 1)) =~= seen.push(id));
            seen.lemma_push_to_set_commute(id);
        }
        if !contains_key(&ids, &incoming_ids[i]) {
            ids.push(incoming_ids[i].clone());
            proof {
                assert(texts(ids@) =~= before.push(id));
                before.lemma_push_to_set_commute(id);
                assert(before.to_set().insert(id) =~= old_ids.union(seen.push(id).to_set()));
            }
        } else {
            proof {
                assert(before.to_set().contains(id));
                assert(before.to_set() =~= old_ids.union(seen.push(id).to_set()));
            }
        }
        i += 1;
    }
    proof {
        assert(incoming_ids@.take(i as int) =~= incoming_ids@);
    }
    Hotspot {
        _key,
        poc_ids: ids,
        str_location,
        location,
        parent_str_location,
        parent_location,
        name,
        last_updated_at: later(old_time, last_updated_at),
        gain,
        elevation,
    }
}

/// The beacon that the store holds after `incoming` has been offered
/// where `existing` may be there already: what was there stays.
pub open spec fn merged_beacon(existing: Option<BeaconView>, incoming: BeaconView) -> BeaconView {
    match existing {
        Some(old) => old,
        None => incoming,
    }
}

/// The view of an optional beacon.
pub open spec fn beacon_view(beacon: Option<Beacon>) -> Option<BeaconView> {
    match beacon {
        Some(b) => Some(b@),
        None => None,
    }
}

/// Offers `incoming` where the store may hold a beacon of that key
/// already: the stored one stays, and only a new one is written.
pub fn merge_beacon(existing: Option<Beacon>, incoming: Beacon) -> (r: Beacon)
    ensures
        r@ == merged_beacon(beacon_view(existing), incoming@),
{
    match existing {
        Some(old) => old,
        None => incoming,
    }
}

/// How often `value` has been counted.
pub open spec fn tally(hist: Map<i64, nat>, value: i64) -> nat {
    if hist.contains_key(value) {
        hist[value]
    } else {
        0
    }
}

/// The histogram after `value` has been counted once more.
pub open spec fn bumped(hist: Map<i64, nat>, value: i64) -> Map<i64, nat> {
    hist.insert(value, tally(hist, value) + 1)
}

/// One bucket of a histogram: a value and how often it was seen.
#[derive(Debug, Clone, Copy)]
pub struct Bucket {
    pub value: i64,
    pub count: u64,
}

/// The map from each value to its count.
pub open spec fn bucket_map(buckets: Seq<Bucket>) -> Map<i64, nat>
    decreases buckets.len(),
{
    if buckets.len() == 0 {
        Map::empty()
    } else {
        bucket_map(buckets.drop_last()).insert(buckets.last().value, buckets.last().count as nat)
    }
}

/// The sum of the counts.
pub open spec fn bucket_sum(buckets: Seq<Bucket>) -> nat
    decreases buckets.len(),
{
    if buckets.len() == 0 {
        0
    } else {
        bucket_sum(buckets.drop_last()) + buckets.last().count as nat
    }
}

/// No two buckets are for the same value.
pub open spec fn distinct_values(buckets: Seq<Bucket>) -> bool {
    forall|i: int, j: int|
        0 <= i < j < buckets.len() ==> (#[trigger] buckets[i]).value != (#[trigger] buckets[j]).value
}

proof fn lemma_bucket_map_keys(buckets: Seq<Bucket>, value: i64)
    ensures
        bucket_map(buckets).contains_key(value) <==> exists|i: int|
            0 <= i < buckets.len() && (#[trigger] buckets[i]).value == value,
    decreases buckets.len(),
{
    if buckets.len() > 0 {
        let init = buckets.drop_last();
        lemma_bucket_map_keys(init, value);
        if exists|i: int| 0 <= i < init.len() && (#[trigger] init[i]).value == value {
            let i = choose|i: int| 0 <= i < init.len() && (#[trigger] init[i]).value == value;
            assert(buckets[i].value == value);
        }
        if exists|i: int| 0 <= i < buckets.len() && (#[trigger] buckets[i]).value == value {
            let i = choose|i: int| 0 <= i < buckets.len() && (#[trigger] buckets[i]).value == value;
            if i < init.len() {
                assert(init[i].value == value);
            }
        }
    }
}

proof fn lemma_bucket_map_value(buckets: Seq<Bucket>, i: int)
    requires
        distinct_values(buckets),
        0 <= i < buckets.len(),
    ensures
        bucket_map(buckets).contains_key(buckets[i].value),
        bucket_map(buckets)[buckets[i].value] == buckets[i].count,
    decreases buckets.len(),
{
    let init = buckets.drop_last();
    if i < buckets.len() - 1 {
        assert(distinct_values(init)) by {
            assert forall|a: int, b: int| 0 <= a < b < init.len() implies (#[trigger] init[a]).value
                != (#[trigger] init[b]).value by {
                assert(init[a] == buckets[a]);
                assert(init[b] == buckets[b]);
            }
        }
        lemma_bucket_map_value(init, i);
        assert(init[i] == buckets[i]);
        assert(buckets[i].value != buckets[buckets.len() - 1].value);
    }
}

proof fn lemma_bucket_update(buckets: Seq<Bucket>, i: int, count: u64)
    requires
        distinct_values(buckets),
        0 <= i < buckets.len(),
    ensures
        bucket_map(buckets.update(i, Bucket { value: buckets[i].value, count }))
            == bucket_map(buckets).insert(buckets[i].value, count as nat),
        bucket_sum(buckets.update(i, Bucket { value: buckets[i].value, count })) + buckets[i].count
            == bucket_sum(buckets) + count,
        distinct_values(buckets.update(i, Bucket { value: buckets[i].value, count })),
    decreases buckets.len(),
{
    let changed = Bucket { value: buckets[i].value, count };
    let updated = buckets.update(i, changed);
    let init = buckets.drop_last();
    assert(distinct_values(updated)) by {
        assert forall|a: int, b: int| 0 <= a < b < updated.len() implies (
        #[trigger] updated[a]).value != (#[trigger] updated[b]).value by {
            assert(updated[a].value == buckets[a].value);
            assert(updated[b].value == buckets[b].value);
        }
    }
    if i == buckets.len() - 1 {
        assert(updated.drop_last() =~= init);
        assert(bucket_map(updated) =~= bucket_map(buckets).insert(buckets[i].value, count as nat));
    } else {
        assert(distinct_values(init)) by {
            assert forall|a: int, b: int| 0 <= a < b < init.len() implies (#[trigger] init[a]).value
                != (#[trigger] init[b]).value by {
                assert(init[a] == buckets[a]);
                assert(init[b] == buckets[b]);
            }
        }
        lemma_bucket_update(init, i, count);
        assert(init[i] == buckets[i]);
        assert(updated.drop_last() =~= init.update(i, changed));
        assert(buckets[i].value != buckets[buckets.len() - 1].value);
        assert(bucket_map(updated) =~= bucket_map(buckets).insert(buckets[i].value, count as nat));
    }
}

proof fn lemma_bucket_within_sum(buckets: Seq<Bucket>, i: int)
    requires
        0 <= i < buckets.len(),
    ensures
        buckets[i].count <= bucket_sum(buckets),
    decreases buckets.len(),
{
    if i < buckets.len() - 1 {
        lemma_bucket_within_sum(buckets.drop_last(), i);
        assert(buckets.drop_last()[i] == buckets[i]);
    }
}

proof fn lemma_bucket_sum_prefix(buckets: Seq<Bucket>, k: int)
    requires
        0 <= k <= buckets.len(),
    ensures
        bucket_sum(buckets.take(k)) <= bucket_sum(buckets),
    decreases buckets.len(),
{
    if k < buckets.len() {
        lemma_bucket_sum_prefix(buckets.drop_last(), k);
        assert(buckets.drop_last().take(k) =~= buckets.take(k));
    } else {
        assert(buckets.take(k) =~= buckets);
    }
}

/// Counts of observed values.
#[derive(Debug)]
pub struct Histogram {
    buckets: Vec<Bucket>,
}

impl View for Histogram {
    type V = Map<i64, nat>;

    closed spec fn view(&self) -> Map<i64, nat> {
        bucket_map(self.buckets@)
    }
}

impl Histogram {
    /// How many observations have been counted in all.
    pub closed spec fn total(&self) -> nat {
        bucket_sum(self.buckets@)
    }

    /// Each value has one bucket, and the total fits a counter.
    pub closed spec fn wf(&self) -> bool {
        &&& distinct_values(self.buckets@)
        &&& bucket_sum(self.buckets@) <= u64::MAX
    }

    /// The histogram of no observation.
    pub fn new() -> (r: Self)
        ensures
            r.wf(),
            r@ == Map::<i64, nat>::empty(),
            r.total() == 0,
    {
        Histogram { buckets: Vec::new() }
    }

    /// The buckets, in the order in which their values were first seen.
    pub fn buckets(&self) -> (r: &Vec<Bucket>)
        ensures
            bucket_map(r@) == self@,
            bucket_sum(r@) == self.total(),
    {
        &self.buckets
    }

    fn position(&self, value: i64) -> (r: Option<usize>)
        ensures
            match r {
                Some(i) => i < self.buckets.len() && self.buckets@[i as int].value == value,
                None => forall|j: int|
                    0 <= j < self.buckets.len() ==> (#[trigger] self.buckets@[j]).value != value,
            },
    {
        let mut i: usize = 0;
        while i < self.buckets.len()
            invariant
                i <= self.buckets.len(),
                forall|j: int| 0 <= j < i ==> (#[trigger] self.buckets@[j]).value != value,
            decreases self.buckets.len() - i,
        {
            if self.buckets[i].value == value {
                return Some(i);
            }
            i += 1;
        }
        None
    }

    /// How many observations have been counted in all.
    pub fn observations(&self) -> (r: u64)
        requires
            self.wf(),
        ensures
            r == self.total(),
    {
        let mut sum: u64 = 0;
        let mut i: usize = 0;
        assert(self.buckets@.take(0) =~= Seq::<Bucket>::empty());
        while i < self.buckets.len()
            invariant
                i <= self.buckets.len(),
                sum == bucket_sum(self.buckets@.take(i as int)),
                bucket_sum(self.buckets@) <= u64::MAX,
            decreases self.buckets.len() - i,
        {
            proof {
                assert(self.buckets@.take(i + 1).drop_last() =~= self.buckets@.take(i as int));
                lemma_bucket_sum_prefix(self.buckets@, i + 1);
            }
            sum = sum + self.buckets[i].count;
            i += 1;
        }
        assert(self.buckets@.take(i as int) =~= self.buckets@);
        sum
    }

    /// How often `value` has been counted.
    pub fn count(&self, value: i64) -> (r: u64)
        requires
            self.wf(),
        ensures
            r == tally(self@, value),
    {
        proof {
            lemma_bucket_map_keys(self.buckets@, value);
        }
        match self.position(value) {
            Some(i) => {
                proof {
                    lemma_bucket_map_value(self.buckets@, i as int);
                }
                self.buckets[i].count
            },
            None => 0,
        }
    }

    /// Counts `value` once more.
    pub fn record(&mut self, value: i64)
        requires
            old(self).wf(),
            old(self).total() < u64::MAX,
        ensures
            final(self).wf(),
            final(self)@ == bumped(old(self)@, value),
            final(self).total() == old(self).total() + 1,
    {
        proof {
            lemma_bucket_map_keys(self.buckets@, value);
        }
        match self.position(value) {
            Some(i) => {
                let bucket = self.buckets[i];
                proof {
                    lemma_bucket_map_value(self.buckets@, i as int);
                    lemma_bucket_within_sum(self.buckets@, i as int);
                    lemma_bucket_update(self.buckets@, i as int, (bucket.count + 1) as u64);
                }
                self.buckets.set(i, Bucket { value: bucket.value, count: bucket.count + 1 });
            },
            None => {
                let ghost before = self.buckets@;
                self.buckets.push(Bucket { value, count: 1 });
                proof {
                    assert(self.buckets@.drop_last() =~= before);
                    assert(distinct_values(self.buckets@)) by {
                        assert forall|a: int, b: int|
                            0 <= a < b < self.buckets@.len() implies (
                        #[trigger] self.buckets@[a]).value != (#[trigger] self.buckets@[b]).value by {
                            if b < before.len() {
                                assert(before[a] == self.buckets@[a]);
                                assert(before[b] == self.buckets@[b]);
                            } else {
                                assert(before[a] == self.buckets@[a]);
                            }
                        }
                    }
                }
            },
        }
    }
}

/// The edge between two places, as the store holds it.
#[derive(Debug)]
pub struct EdgeDoc {
    pub _key: String,
    /// The device that sent the first beacon counted here.
    pub beacon_pub_key: Vec<u8>,
    /// The device that heard it.
    pub witness_pub_key: Vec<u8>,
    pub distance: Distance,
    /// How many witnessings were counted.
    pub count: u64,
    pub snr_hist: Histogram,
    pub signal_hist: Histogram,
    pub ingest_latency_hist: Histogram,
}

/// A stored edge as contracts see it.
pub struct EdgeDocView {
    pub key: Seq<char>,
    pub beacon_pub_key: Seq<u8>,
    pub witness_pub_key: Seq<u8>,
    pub distance: Distance,
    pub count: nat,
    pub snr_hist: Map<i64, nat>,
    pub signal_hist: Map<i64, nat>,
    pub ingest_latency_hist: Map<i64, nat>,
}

impl View for EdgeDoc {
    type V = EdgeDocView;

    open spec fn view(&self) -> EdgeDocView {
        EdgeDocView {
            key: self._key@,
            beacon_pub_key: self.beacon_pub_key@,
            witness_pub_key: self.witness_pub_key@,
            distance: self.distance,
            count: self.count as nat,
            snr_hist: self.snr_hist@,
            signal_hist: self.signal_hist@,
            ingest_latency_hist: self.ingest_latency_hist@,
        }
    }
}

impl EdgeDoc {
    /// The count is the total of each histogram.
    pub open spec fn wf(&self) -> bool {
        &&& self.snr_hist.wf()
        &&& self.signal_hist.wf()
        &&& self.ingest_latency_hist.wf()
        &&& self.snr_hist.total() == self.count
        &&& self.signal_hist.total() == self.count
        &&& self.ingest_latency_hist.total() == self.count
    }
}

/// The edge that the store holds after one witnessing has been written
/// where `existing` may be there already. A new edge starts at one; an
/// existing one keeps what it says of the two devices and counts one
/// more.
pub open spec fn merged_edge(existing: Option<EdgeDocView>, edge: EdgeView) -> EdgeDocView {
    match existing {
        None => EdgeDocView {
            key: edge.key,
            beacon_pub_key: edge.beacon_pub_key,
            witness_pub_key: edge.witness_pub_key,
            distance: edge.distance,
            count: 1,
            snr_hist: bumped(Map::empty(), edge.witness_snr as i64),
            signal_hist: bumped(Map::empty(), edge.witness_signal as i64),
            ingest_latency_hist: bumped(Map::empty(), edge.ingest_latency),
        },
        Some(old) => EdgeDocView {
            count: old.count + 1,
            snr_hist: bumped(old.snr_hist, edge.witness_snr as i64),
            signal_hist: bumped(old.signal_hist, edge.witness_signal as i64),
            ingest_latency_hist: bumped(old.ingest_latency_hist, edge.ingest_latency),
            ..old
        },
    }
}

/// Each witnessing adds exactly one to the count of its edge and exactly
/// one to the bucket of its value in each histogram, and changes no other
/// bucket.
pub proof fn lemma_edge_counts(old: EdgeDocView, edge: EdgeView, value: i64)
    ensures
        merged_edge(Some(old), edge).count == old.count + 1,
        tally(merged_edge(Some(old), edge).snr_hist, value) == tally(old.snr_hist, value) + if value
            == edge.witness_snr as i64 {
            1nat
        } else {
            0nat
        },
        tally(merged_edge(Some(old), edge).signal_hist, value) == tally(old.signal_hist, value)
            + if value == edge.witness_signal as i64 {
            1nat
        } else {
            0nat
        },
        tally(merged_edge(Some(old), edge).ingest_latency_hist, value) == tally(
            old.ingest_latency_hist,
            value,
        ) + if value == edge.ingest_latency {
            1nat
        } else {
            0nat
        },
{
}

/// The view of an optional stored edge.
pub open spec fn edge_doc_view(doc: Option<EdgeDoc>) -> Option<EdgeDocView> {
    match doc {
        Some(d) => Some(d@),
        None => None,
    }
}

/// Writes one witnessing where the store may hold the edge already. The
/// counter of a stored edge must have room for one more.
pub fn merge_edge(existing: Option<EdgeDoc>, edge: &Edge) -> (r: EdgeDoc)
    requires
        existing matches Some(old) ==> old.wf() && old.count < u64::MAX,
    ensures
        r.wf(),
        r@ == merged_edge(edge_doc_view(existing), edge@),
{
    match existing {
        None => {
            let mut snr_hist = Histogram::new();
            snr_hist.record(edge.witness_snr as i64);
            let mut signal_hist = Histogram::new();
            signal_hist.record(edge.witness_signal as i64);
            let mut ingest_latency_hist = Histogram::new();
            ingest_latency_hist.record(edge.ingest_latency);
            EdgeDoc {
                _key: edge._key.clone(),
                beacon_pub_key: clone_bytes(&edge.beacon_pub_key),
                witness_pub_key: clone_bytes(&edge.witness_pub_key),
                distance: edge.distance,
                count: 1,
                snr_hist,
                signal_hist,
                ingest_latency_hist,
            }
        },
        Some(old) => {
            let mut doc = old;
            doc.snr_hist.record(edge.witness_snr as i64);
            doc.signal_hist.record(edge.witness_signal as i64);
            doc.ingest_latency_hist.record(edge.ingest_latency);
            doc.count = doc.count + 1;
            doc
        },
    }
}

} // verus!
