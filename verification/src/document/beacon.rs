//! The document of one beacon, with the records of those who heard it.

use crate::document::iot_poc::{DecimalValue, IotPoc};
use crate::document::loc_data::{
    spec_loc_data,
    spec_parent_loc_data,
    LocData,
    LocDataView,
    ParentLocData,
};
use crate::document::witness::{
    first_invalid_cell,
    locations_of,
    spec_witnesses,
    Distance,
    Witness,
    WitnessView,
    Witnesses,
};
use crate::document::{animal_name, clone_bytes, hotspot_name, opt_text, pub_key_text, DocumentError};
use base64::engine::general_purpose;
use base64::Engine;
use vstd::prelude::*;

verus! {

/// The URL-safe base64 text of a byte string, without padding.
pub uninterp spec fn spec_base64_url_no_pad(bytes: Seq<u8>) -> Seq<char>;

/// `Engine::encode` of `general_purpose::URL_SAFE_NO_PAD`: the bytes in
/// URL-safe base64 without padding. The text depends on the bytes alone.
#[verifier::external_body]
fn encode_poc_id(poc_id: &Vec<u8>) -> (r: String)
    ensures
        r@ == spec_base64_url_no_pad(poc_id@),
{
    general_purpose::URL_SAFE_NO_PAD.encode(poc_id)
}

/// The distance between a beacon and a witness at the given locations. It
/// is zero as soon as one of the two has no location.
pub open spec fn spec_distance(beacon_loc: Option<u64>, witness_loc: Option<u64>) -> Distance {
    match (beacon_loc, witness_loc) {
        (Some(beacon), Some(witness)) => Distance::Between(beacon, witness),
        _ => Distance::Zero,
    }
}

/// Computes the distance between a beacon and a witness at the given
/// locations.
pub fn calc_distance(beacon_loc: Option<u64>, witness_loc: Option<u64>) -> (r: Distance)
    ensures
        r == spec_distance(beacon_loc, witness_loc),
        beacon_loc is None || witness_loc is None ==> r == Distance::Zero,
{
    match (beacon_loc, witness_loc) {
        (Some(beacon), Some(witness)) => Distance::Between(beacon, witness),
        _ => Distance::Zero,
    }
}

/// A beacon: the event of one device transmitting, together with everyone
/// who heard it.
#[derive(Debug)]
pub struct Beacon {
    pub _key: String,
    pub poc_id: String,
    pub ingest_time_unix: i64,
    pub location: Option<u64>,
    pub str_location: Option<String>,
    pub parent_str_location: Option<String>,
    pub parent_location: Option<u64>,
    pub gain: i32,
    pub elevation: i32,
    pub hex_scale: DecimalValue,
    pub reward_unit: DecimalValue,
    pub pub_key: Vec<u8>,
    pub name: String,
    pub frequency: u64,
    pub channel: i32,
    pub tx_power: i32,
    pub timestamp: i64,
    pub tmst: u32,
    pub witnesses: Witnesses,
}

/// A beacon as contracts see it.
pub struct BeaconView {
    pub key: Seq<char>,
    pub poc_id: Seq<char>,
    pub ingest_time_unix: i64,
    pub location: Option<u64>,
    pub str_location: Option<Seq<char>>,
    pub parent_str_location: Option<Seq<char>>,
    pub parent_location: Option<u64>,
    pub gain: i32,
    pub elevation: i32,
    pub hex_scale: DecimalValue,
    pub reward_unit: DecimalValue,
    pub pub_key: Seq<u8>,
    pub name: Seq<char>,
    pub frequency: u64,
    pub channel: i32,
    pub tx_power: i32,
    pub timestamp: i64,
    pub tmst: u32,
    pub witnesses: Seq<WitnessView>,
}

impl View for Beacon {
    type V = BeaconView;

    open spec fn view(&self) -> BeaconView {
        BeaconView {
            key: self._key@,
            poc_id: self.poc_id@,
            ingest_time_unix: self.ingest_time_unix,
            location: self.location,
            str_location: opt_text(self.str_location),
            parent_str_location: opt_text(self.parent_str_location),
            parent_location: self.parent_location,
            gain: self.gain,
            elevation: self.elevation,
            hex_scale: self.hex_scale,
            reward_unit: self.reward_unit,
            pub_key: self.pub_key@,
            name: self.name@,
            frequency: self.frequency,
            channel: self.channel,
            tx_power: self.tx_power,
            timestamp: self.timestamp,
            tmst: self.tmst,
            witnesses: self.witnesses@,
        }
    }
}

/// The witnesses, each at its distance from a beacon at `beacon_loc`.
pub open spec fn with_distances(witnesses: Seq<WitnessView>, beacon_loc: Option<u64>) -> Seq<
    WitnessView,
> {
    witnesses.map_values(
        |w: WitnessView| WitnessView { distance: spec_distance(beacon_loc, w.location), ..w },
    )
}

/// A witness is at distance zero as soon as the beacon or the witness has
/// no location.
pub proof fn lemma_distance_defaults(
    witnesses: Seq<WitnessView>,
    beacon_loc: Option<u64>,
    i: int,
)
    requires
        0 <= i < witnesses.len(),
        beacon_loc is None || witnesses[i].location is None,
    ensures
        with_distances(witnesses, beacon_loc)[i].distance == Distance::Zero,
        with_distances(witnesses, beacon_loc)[i].location == witnesses[i].location,
{
}

/// The beacon that a report gives, with the text of its identifier, the
/// data derived from its location, the name derived from its key, and its
/// witnesses as they are handed in.
pub open spec fn assembled_beacon(
    iot_poc: IotPoc,
    poc_id: Seq<char>,
    loc: LocDataView,
    parent: LocDataView,
    name: Seq<char>,
    witnesses: Seq<WitnessView>,
) -> BeaconView {
    BeaconView {
        key: poc_id,
        poc_id: poc_id,
        ingest_time_unix: iot_poc.beacon_report.received_timestamp,
        location: iot_poc.beacon_report.location,
        str_location: loc.str_loc,
        parent_str_location: parent.str_loc,
        parent_location: parent.loc,
        gain: iot_poc.beacon_report.gain,
        elevation: iot_poc.beacon_report.elevation,
        hex_scale: iot_poc.beacon_report.hex_scale,
        reward_unit: iot_poc.beacon_report.reward_unit,
        pub_key: iot_poc.beacon_report.report.pub_key@,
        name: name,
        frequency: iot_poc.beacon_report.report.frequency,
        channel: iot_poc.beacon_report.report.channel,
        tx_power: iot_poc.beacon_report.report.tx_power,
        timestamp: iot_poc.beacon_report.report.timestamp,
        tmst: iot_poc.beacon_report.report.tmst,
        witnesses: witnesses,
    }
}

/// Every location of a report: the beacon's, then those of the selected
/// witnesses, then those of the others.
pub open spec fn report_locations(iot_poc: IotPoc) -> Seq<Option<u64>> {
    seq![iot_poc.beacon_report.location] + (locations_of(iot_poc.selected_witnesses@)
        + locations_of(iot_poc.unselected_witnesses@))
}

/// The beacon of a report whose locations are all sound: every witness is
/// at its distance from the beacon.
pub open spec fn beacon_of(iot_poc: IotPoc) -> BeaconView
    recommends
        first_invalid_cell(report_locations(iot_poc)) is None,
{
    assembled_beacon(
        iot_poc,
        spec_base64_url_no_pad(iot_poc.poc_id@),
        spec_loc_data(iot_poc.beacon_report.location)->Ok_0,
        spec_parent_loc_data(iot_poc.beacon_report.location)->Ok_0,
        hotspot_name(iot_poc.beacon_report.report.pub_key@),
        with_distances(spec_witnesses(iot_poc)->Ok_0, iot_poc.beacon_report.location),
    )
}

/// The beacon of a report, or the error of the first location in it that
/// names no cell.
pub open spec fn spec_beacon(iot_poc: IotPoc) -> Result<BeaconView, DocumentError> {
    match first_invalid_cell(report_locations(iot_poc)) {
        Some(h3index) => Err(DocumentError::InvalidCellIndex(h3index)),
        None => Ok(beacon_of(iot_poc)),
    }
}

/// The view of an answer.
pub open spec fn beacon_result_view(r: Result<Beacon, DocumentError>) -> Result<
    BeaconView,
    DocumentError,
> {
    match r {
        Ok(beacon) => Ok(beacon@),
        Err(e) => Err(e),
    }
}

fn set_distances(witnesses: &mut Vec<Witness>, beacon_loc: Option<u64>)
    ensures
        final(witnesses)@.map_values(|w: Witness| w@) == with_distances(
            old(witnesses)@.map_values(|w: Witness| w@),
            beacon_loc,
        ),
{
    let ghost view_of = |w: Witness| w@;
    let ghost start = witnesses@.map_values(view_of);
    let mut i: usize = 0;
    while i < witnesses.len()
        invariant
            i <= witnesses.len(),
            witnesses.len() == start.len(),
            view_of == (|w: Witness| w@),
            forall|j: int|
                0 <= j < i ==> (#[trigger] witnesses@[j])@ == with_distances(start, beacon_loc)[j],
            forall|j: int| i <= j < witnesses.len() ==> (#[trigger] witnesses@[j])@ == start[j],
        decreases witnesses.len() - i,
    {
        let distance = calc_distance(beacon_loc, witnesses[i].location);
        let moved = witnesses[i].with_distance(distance);
        witnesses.set(i, moved);
        i += 1;
    }
    assert(witnesses@.map_values(view_of) =~= with_distances(start, beacon_loc));
}

impl Beacon {
    /// Attaches to each witness its distance from the beacon. Nothing else
    /// changes.
    pub fn set_witness_distance(&mut self)
        ensures
            final(self)@ == (BeaconView {
                witnesses: with_distances(old(self)@.witnesses, old(self).location),
                ..old(self)@
            }),
    {
        set_distances(&mut self.witnesses.0, self.location);
    }

    /// Puts a beacon together from its report and what was derived from
    /// the report's identifier, location and key.
    pub fn assemble(
        iot_poc: &IotPoc,
        poc_id: String,
        loc_data: LocData,
        parent_loc_data: ParentLocData,
        name: String,
        witnesses: Witnesses,
    ) -> (r: Beacon)
        ensures
            r@ == assembled_beacon(
                *iot_poc,
                poc_id@,
                loc_data@,
                parent_loc_data@,
                name@,
                witnesses@,
            ),
    {
        let beacon_report = &iot_poc.beacon_report;
        Beacon {
            _key: poc_id.clone(),
            poc_id,
            ingest_time_unix: beacon_report.received_timestamp,
            location: beacon_report.location,
            str_location: loc_data.str_loc,
            parent_str_location: parent_loc_data.str_loc,
            parent_location: parent_loc_data.loc,
            gain: beacon_report.gain,
            elevation: beacon_report.elevation,
            hex_scale: beacon_report.hex_scale,
            reward_unit: beacon_report.reward_unit,
            pub_key: clone_bytes(&beacon_report.report.pub_key),
            name,
            frequency: beacon_report.report.frequency,
            channel: beacon_report.report.channel,
            tx_power: beacon_report.report.tx_power,
            timestamp: beacon_report.report.timestamp,
            tmst: beacon_report.report.tmst,
            witnesses,
        }
    }

    /// Builds the beacon of a report, with its witnesses. It fails if and
    /// only if a location in the report is present and names no cell, with
    /// the first such location: the beacon's own, then the witnesses' in
    /// their order.
    pub fn try_from(iot_poc: &IotPoc) -> (r: Result<Beacon, DocumentError>)
        ensures
            beacon_result_view(r) == spec_beacon(*iot_poc),
    {
        let ghost locations = report_locations(*iot_poc);
        let ghost witness_locations = locations_of(iot_poc.selected_witnesses@) + locations_of(
            iot_poc.unselected_witnesses@,
        );
        proof {
            assert(locations.drop_first() =~= witness_locations);
            assert(locations[0] == iot_poc.beacon_report.location);
        }
        let enc_poc_id = encode_poc_id(&iot_poc.poc_id);
        let location = iot_poc.beacon_report.location;
        let loc_data = match LocData::from_h3(location) {
            Ok(data) => data,
            Err(e) => {
                return Err(e);
            },
        };
        let parent_loc_data = match ParentLocData::from_h3(location) {
            Ok(data) => data,
            Err(e) => {
                return Err(e);
            },
        };
        let text = pub_key_text(&iot_poc.beacon_report.report.pub_key);
        let name = animal_name(&text);
        let witnesses = match Witnesses::try_from(iot_poc) {
            Ok(witnesses) => witnesses,
            Err(e) => {
                return Err(e);
            },
        };
        let mut beacon = Beacon::assemble(
            iot_poc,
            enc_poc_id,
            loc_data,
            parent_loc_data,
            name,
            witnesses,
        );
        beacon.set_witness_distance();
        Ok(beacon)
    }
}

} // verus!
