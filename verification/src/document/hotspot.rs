//! The standing record of one device, whichever part it played.

use crate::document::beacon::{Beacon, BeaconView};
use crate::document::witness::{Witness, WitnessView};
use crate::text::texts;
use crate::document::{
    clone_bytes,
    clone_opt_text,
    get_name,
    hotspot_name,
    opt_text,
    DocumentError,
};
use vstd::prelude::*;

verus! {

/// A device, as one report shows it.
#[derive(Debug)]
pub struct Hotspot {
    /// The public key of the device.
    pub _key: Vec<u8>,
    /// The beacons that the device has sent.
    pub poc_ids: Vec<String>,
    pub str_location: Option<String>,
    pub location: Option<u64>,
    pub parent_str_location: Option<String>,
    pub parent_location: Option<u64>,
    pub name: String,
    /// When the record was last written, in milliseconds since the epoch.
    pub last_updated_at: Option<u64>,
    pub gain: Option<i32>,
    pub elevation: Option<i32>,
}

/// A hotspot as contracts see it.
pub struct HotspotView {
    pub key: Seq<u8>,
    /// The beacons that the device has sent, as a set.
    pub poc_ids: Set<Seq<char>>,
    pub str_location: Option<Seq<char>>,
    pub location: Option<u64>,
    pub parent_str_location: Option<Seq<char>>,
    pub parent_location: Option<u64>,
    pub name: Seq<char>,
    pub last_updated_at: Option<u64>,
    pub gain: Option<i32>,
    pub elevation: Option<i32>,
}

impl View for Hotspot {
    type V = HotspotView;

    open spec fn view(&self) -> HotspotView {
        HotspotView {
            key: self._key@,
            poc_ids: texts(self.poc_ids@).to_set(),
            str_location: opt_text(self.str_location),
            location: self.location,
            parent_str_location: opt_text(self.parent_str_location),
            parent_location: self.parent_location,
            name: self.name@,
            last_updated_at: self.last_updated_at,
            gain: self.gain,
            elevation: self.elevation,
        }
    }
}

impl Hotspot {
    /// No beacon is listed twice.
    pub open spec fn wf(&self) -> bool {
        texts(self.poc_ids@).no_duplicates()
    }
}

/// The record of the device that sent a beacon, as of the time `now`. It
/// names the beacon among those that the device has sent.
pub open spec fn hotspot_of_beacon(beacon: BeaconView, now: u64) -> HotspotView {
    HotspotView {
        key: beacon.pub_key,
        poc_ids: set![beacon.poc_id],
        str_location: beacon.str_location,
        location: beacon.location,
        parent_str_location: beacon.parent_str_location,
        parent_location: beacon.parent_location,
        name: hotspot_name(beacon.pub_key),
        last_updated_at: Some(now),
        gain: Some(beacon.gain),
        elevation: Some(beacon.elevation),
    }
}

/// The record of a device that heard a beacon, as of the time `now`. It
/// names no beacon.
pub open spec fn hotspot_of_witness(witness: WitnessView, now: u64) -> HotspotView {
    HotspotView {
        key: witness.pub_key,
        poc_ids: Set::empty(),
        str_location: witness.str_location,
        location: witness.location,
        parent_str_location: witness.parent_str_location,
        parent_location: witness.parent_location,
        name: hotspot_name(witness.pub_key),
        last_updated_at: Some(now),
        gain: Some(witness.gain),
        elevation: Some(witness.elevation),
    }
}

impl Hotspot {
    /// The record of the device that sent the beacon, written at the time
    /// `now`, in milliseconds since the epoch. It always succeeds.
    pub fn from_beacon(beacon: &Beacon, now: u64) -> (r: Result<Hotspot, DocumentError>)
        ensures
            r matches Ok(hotspot) && hotspot@ == hotspot_of_beacon(beacon@, now) && hotspot.wf(),
    {
        let name = match get_name(&beacon.pub_key) {
            Ok(name) => name,
            Err(e) => {
                return Err(e);
            },
        };
        let mut poc_ids: Vec<String> = Vec::new();
        poc_ids.push(beacon.poc_id.clone());
        let hotspot = Hotspot {
            _key: clone_bytes(&beacon.pub_key),
            str_location: clone_opt_text(&beacon.str_location),
            location: beacon.location,
            parent_str_location: clone_opt_text(&beacon.parent_str_location),
            parent_location: beacon.parent_location,
            name,
            poc_ids,
            last_updated_at: Some(now),
            gain: Some(beacon.gain),
            elevation: Some(beacon.elevation),
        };
        assert(texts(hotspot.poc_ids@) =~= seq![beacon@.poc_id]);
        assert(seq![beacon@.poc_id].to_set() =~= set![beacon@.poc_id]) by {
            assert(seq![beacon@.poc_id][0] == beacon@.poc_id);
        }
        Ok(hotspot)
    }

    /// The record of a device that heard a beacon, written at the time
    /// `now`, in milliseconds since the epoch. It always succeeds.
    pub fn from_witness(witness: &Witness, now: u64) -> (r: Result<Hotspot, DocumentError>)
        ensures
            r matches Ok(hotspot) && hotspot@ == hotspot_of_witness(witness@, now) && hotspot.wf(),
    {
        let name = match get_name(&witness.pub_key) {
            Ok(name) => name,
            Err(e) => {
                return Err(e);
            },
        };
        let hotspot = Hotspot {
            _key: clone_bytes(&witness.pub_key),
            str_location: clone_opt_text(&witness.str_location),
            location: witness.location,
            parent_str_location: clone_opt_text(&witness.parent_str_location),
            parent_location: witness.parent_location,
            name,
            poc_ids: Vec::new(),
            last_updated_at: Some(now),
            gain: Some(witness.gain),
            elevation: Some(witness.elevation),
        };
        assert(texts(hotspot.poc_ids@) =~= Seq::<Seq<char>>::empty());
        assert(Seq::<Seq<char>>::empty().to_set() =~= Set::<Seq<char>>::empty());
        Ok(hotspot)
    }
}

} // verus!
