//! What the store answers, and the documents that a report turns into.

use crate::document::beacon::{spec_beacon, Beacon, BeaconView};
use crate::document::edge::{edge_of, Edge, EdgeView};
use crate::document::hotspot::{hotspot_of_beacon, hotspot_of_witness, Hotspot, HotspotView};
use crate::document::iot_poc::IotPoc;
use crate::document::witness::{Witness, WitnessView};
use crate::document::{bytes_eq, DocumentError};
use vstd::prelude::*;

verus! {

/// Error number with which the store reports a write conflict.
pub const ERROR_CONFLICT: u16 = 1200;

/// Error number with which the store reports that a unique constraint is
/// violated: a document with that key exists.
pub const ERROR_UNIQUE_CONSTRAINT_VIOLATED: u16 = 1210;

/// Error number with which the store reports that it holds no document
/// of the key.
pub const ERROR_DOCUMENT_NOT_FOUND: u16 = 1202;

/// An error met while talking to the store.
#[derive(Debug, Clone, Copy)]
pub enum DBError {
    /// A document could not be turned into its stored form.
    SerdeError,
    /// The store's client failed. `error_num` is the store's error number
    /// where the store itself answered with one.
    ArangoClientError { error_num: Option<u16> },
    /// Anything else.
    Other,
}

/// The classes of store errors that the pipeline tells apart.
#[derive(Debug, Clone, Copy, PartialEq, Eq, Structural)]
pub enum ErrorKind {
    /// The write may succeed when tried again.
    Transient,
    /// The document exists already: a harmless redelivery.
    Conflict,
    /// Trying again cannot help.
    Fatal,
}

impl DBError {
    /// The class of an error, as a specification.
    pub open spec fn spec_kind(self) -> ErrorKind {
        match self {
            DBError::ArangoClientError { error_num: Some(n) } => if n == ERROR_CONFLICT || n
                == ERROR_UNIQUE_CONSTRAINT_VIOLATED {
                ErrorKind::Conflict
            } else {
                ErrorKind::Transient
            },
            DBError::ArangoClientError { error_num: None } => ErrorKind::Transient,
            DBError::SerdeError => ErrorKind::Fatal,
            DBError::Other => ErrorKind::Fatal,
        }
    }

    /// Classifies the error.
    pub fn kind(&self) -> (r: ErrorKind)
        ensures
            r == self.spec_kind(),
    {
        match self {
            DBError::ArangoClientError { error_num: Some(n) } => {
                if *n == ERROR_CONFLICT || *n == ERROR_UNIQUE_CONSTRAINT_VIOLATED {
                    ErrorKind::Conflict
                } else {
                    ErrorKind::Transient
                }
            },
            DBError::ArangoClientError { error_num: None } => ErrorKind::Transient,
            DBError::SerdeError => ErrorKind::Fatal,
            DBError::Other => ErrorKind::Fatal,
        }
    }
}

/// What an insert amounts to, given the store's answer: a conflict means
/// that the document is there already, which is as good as success; any
/// other error stands.
pub open spec fn spec_insert_outcome(answer: Result<(), DBError>) -> Result<(), DBError> {
    match answer {
        Ok(()) => Ok(()),
        Err(e) => if e.spec_kind() == ErrorKind::Conflict {
            Ok(())
        } else {
            Err(e)
        },
    }
}

/// Decides what an insert amounts to, given the store's answer.
pub fn insert_document(answer: Result<(), DBError>) -> (r: Result<(), DBError>)
    ensures
        r == spec_insert_outcome(answer),
{
    match answer {
        Ok(()) => Ok(()),
        Err(e) => {
            if e.kind() == ErrorKind::Conflict {
                Ok(())
            } else {
                Err(e)
            }
        },
    }
}

/// The documents that one report turns into.
#[derive(Debug)]
pub struct Entities {
    /// The beacon, with its witnesses.
    pub beacon: Beacon,
    /// The record of the beaconing device, then one record for each
    /// witnessing device.
    pub hotspots: Vec<Hotspot>,
    /// One edge candidate for each witness, in the order of the witnesses.
    pub edges: Vec<Edge>,
}

/// The documents of a report as contracts see them.
pub struct EntitiesView {
    pub beacon: BeaconView,
    pub hotspots: Seq<HotspotView>,
    pub edges: Seq<EdgeView>,
}

impl View for Entities {
    type V = EntitiesView;

    open spec fn view(&self) -> EntitiesView {
        EntitiesView {
            beacon: self.beacon@,
            hotspots: self.hotspots@.map_values(|h: Hotspot| h@),
            edges: self.edges@.map_values(|e: Edge| e@),
        }
    }
}

/// No witness after the one at `i` is the same device.
pub open spec fn is_last_of_key(witnesses: Seq<WitnessView>, i: int) -> bool {
    forall|j: int| i < j < witnesses.len() ==> (#[trigger] witnesses[j]).pub_key != witnesses[i].pub_key
}

/// The hotspot records of the witnesses from `i` on: one for each device,
/// taken from the last report of that device.
pub open spec fn witness_hotspots_from(witnesses: Seq<WitnessView>, i: int, now: u64) -> Seq<
    HotspotView,
>
    decreases witnesses.len() - i,
{
    if i < 0 || i >= witnesses.len() {
        Seq::empty()
    } else if is_last_of_key(witnesses, i) {
        seq![hotspot_of_witness(witnesses[i], now)] + witness_hotspots_from(witnesses, i + 1, now)
    } else {
        witness_hotspots_from(witnesses, i + 1, now)
    }
}

/// The hotspot records of the witnesses: one for each device.
pub open spec fn witness_hotspots(witnesses: Seq<WitnessView>, now: u64) -> Seq<HotspotView> {
    witness_hotspots_from(witnesses, 0, now)
}

/// The edge candidates of a beacon: one for each witness.
pub open spec fn edges_of(beacon: BeaconView) -> Seq<EdgeView> {
    beacon.witnesses.map_values(|w: WitnessView| edge_of(beacon, w))
}

/// The documents that a beacon gives when it is applied at the time `now`.
pub open spec fn entities_of(beacon: BeaconView, now: u64) -> EntitiesView {
    EntitiesView {
        beacon: beacon,
        hotspots: seq![hotspot_of_beacon(beacon, now)] + witness_hotspots(beacon.witnesses, now),
        edges: edges_of(beacon),
    }
}

/// What a report turns into at the time `now`: nothing if nobody heard
/// the beacon, an error if a location in it names no cell, and its
/// documents otherwise.
pub open spec fn spec_build(iot_poc: IotPoc, now: u64) -> Result<
    Option<EntitiesView>,
    DocumentError,
> {
    if iot_poc.witness_count() == 0 {
        Ok(None)
    } else {
        match spec_beacon(iot_poc) {
            Ok(beacon) => Ok(Some(entities_of(beacon, now))),
            Err(e) => Err(e),
        }
    }
}

/// The view of an answer.
pub open spec fn build_result_view(r: Result<Option<Entities>, DocumentError>) -> Result<
    Option<EntitiesView>,
    DocumentError,
> {
    match r {
        Ok(Some(entities)) => Ok(Some(entities@)),
        Ok(None) => Ok(None),
        Err(e) => Err(e),
    }
}

fn last_of_key(witnesses: &Vec<Witness>, i: usize) -> (r: bool)
    requires
        i < witnesses.len(),
    ensures
        r == is_last_of_key(witnesses@.map_values(|w: Witness| w@), i as int),
{
    let ghost views = witnesses@.map_values(|w: Witness| w@);
    let mut j: usize = i + 1;
    while j < witnesses.len()
        invariant
            i < j <= witnesses.len(),
            views == witnesses@.map_values(|w: Witness| w@),
            forall|k: int| i < k < j ==> (#[trigger] views[k]).pub_key != views[i as int].pub_key,
        decreases witnesses.len() - j,
    {
        if bytes_eq(&witnesses[j].pub_key, &witnesses[i].pub_key) {
            assert(views[j as int].pub_key == views[i as int].pub_key);
            return false;
        }
        j += 1;
    }
    true
}

/// Derives the hotspot records and the edge candidates of a beacon that
/// is applied at the time `now`, in milliseconds since the epoch. It
/// always succeeds.
pub fn derive_entities(beacon: Beacon, now: u64) -> (r: Result<Entities, DocumentError>)
    ensures
        r matches Ok(entities) && entities@ == entities_of(beacon@, now),
{
    let ghost witnesses = beacon@.witnesses;
    let ghost hotspot_view = |h: Hotspot| h@;
    let ghost edge_view = |e: Edge| e@;
    let mut hotspots: Vec<Hotspot> = Vec::new();
    let mut edges: Vec<Edge> = Vec::new();
    match Hotspot::from_beacon(&beacon, now) {
        Ok(hotspot) => {
            hotspots.push(hotspot);
        },
        Err(e) => {
            return Err(e);
        },
    }
    assert(hotspots@.map_values(hotspot_view) =~= seq![hotspot_of_beacon(beacon@, now)]);
    assert(edges@.map_values(edge_view) =~= edges_of(beacon@).take(0));
    let mut i: usize = 0;
    while i < beacon.witnesses.0.len()
        invariant
            i <= beacon.witnesses.0.len(),
            witnesses == beacon@.witnesses,
            witnesses.len() == beacon.witnesses.0.len(),
            hotspot_view == (|h: Hotspot| h@),
            edge_view == (|e: Edge| e@),
            hotspots@.map_values(hotspot_view) + witness_hotspots_from(witnesses, i as int, now)
                == seq![hotspot_of_beacon(beacon@, now)] + witness_hotspots(witnesses, now),
            edges@.map_values(edge_view) == edges_of(beacon@).take(i as int),
        decreases beacon.witnesses.0.len() - i,
    {
        let ghost hotspots_before = hotspots@.map_values(hotspot_view);
        let ghost edges_before = edges@.map_values(edge_view);
        let witness = &beacon.witnesses.0[i];
        assert(witness@ == witnesses[i as int]);
        if last_of_key(&beacon.witnesses.0, i) {
            match Hotspot::from_witness(witness, now) {
                Ok(hotspot) => {
                    hotspots.push(hotspot);
                },
                Err(e) => {
                    return Err(e);
                },
            }
            assert(hotspots@.map_values(hotspot_view) =~= hotspots_before.push(
                hotspot_of_witness(witnesses[i as int], now),
            ));
            assert(hotspots_before.push(hotspot_of_witness(witnesses[i as int], now))
                + witness_hotspots_from(witnesses, i + 1, now) =~= hotspots_before
                + witness_hotspots_from(witnesses, i as int, now));
        }
        match Edge::new(&beacon, witness) {
            Ok(edge) => {
                edges.push(edge);
            },
            Err(e) => {
                return Err(e);
            },
        }
        assert(edges@.map_values(edge_view) =~= edges_before.push(
            edge_of(beacon@, witnesses[i as int]),
        ));
        assert(edges_of(beacon@).take(i + 1) =~= edges_of(beacon@).take(i as int).push(
            edge_of(beacon@, witnesses[i as int]),
        ));
        i += 1;
    }
    assert(edges_of(beacon@).take(i as int) =~= edges_of(beacon@));
    assert(hotspots@.map_values(hotspot_view) + Seq::<HotspotView>::empty()
        =~= hotspots@.map_values(hotspot_view));
    Ok(Entities { beacon, hotspots, edges })
}

/// Turns a decoded report into its documents, as of the time `now` in
/// milliseconds since the epoch.
///
/// A report without witnesses is dropped: the answer is `Ok(None)`, and
/// that is no error. Otherwise the answer is an error if and only if a
/// location in the report is present and names no cell.
pub fn build(iot_poc: &IotPoc, now: u64) -> (r: Result<Option<Entities>, DocumentError>)
    ensures
        build_result_view(r) == spec_build(*iot_poc, now),
        iot_poc.witness_count() == 0 ==> r matches Ok(None),
{
    if iot_poc.selected_witnesses.len() == 0 && iot_poc.unselected_witnesses.len() == 0 {
        return Ok(None);
    }
    match Beacon::try_from(iot_poc) {
        Ok(beacon) => match derive_entities(beacon, now) {
            Ok(entities) => Ok(Some(entities)),
            Err(e) => Err(e),
        },
        Err(e) => Err(e),
    }
}

} // verus!
