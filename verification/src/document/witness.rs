//! The record of one device that heard a beacon.

use crate::document::iot_poc::{DecimalValue, IotPoc, IotVerifiedWitnessReport};
use crate::document::loc_data::{
    spec_is_cell_index,
    spec_loc_data,
    spec_parent_loc_data,
    LocData,
    LocDataView,
    ParentLocData,
};
use crate::document::{
    animal_name,
    clone_bytes,
    clone_opt_text,
    hotspot_name,
    opt_text,
    pub_key_text,
    DocumentError,
};
use vstd::prelude::*;

verus! {

/// How far a witness is from its beacon.
#[derive(Debug, Clone, Copy, PartialEq, Eq, Structural)]
pub enum Distance {
    /// One of the two has no location: the distance counts as zero.
    Zero,
    /// The length in kilometres of the great circle between the centres of
    /// the beacon's cell, named first, and the witness's cell.
    Between(u64, u64),
}

/// A witness of a beacon.
#[derive(Debug)]
pub struct Witness {
    pub ingest_time_unix: i64,
    pub str_location: Option<String>,
    pub location: Option<u64>,
    pub parent_str_location: Option<String>,
    pub parent_location: Option<u64>,
    pub gain: i32,
    pub elevation: i32,
    pub hex_scale: DecimalValue,
    pub reward_unit: DecimalValue,
    pub invalid_reason: i32,
    pub verification_status: i32,
    pub participant_side: i32,
    pub pub_key: Vec<u8>,
    pub name: String,
    pub timestamp: i64,
    pub tmst: u32,
    pub signal: i32,
    pub snr: i32,
    pub frequency: u64,
    pub selected: bool,
    pub distance: Distance,
}

/// A witness as contracts see it.
pub struct WitnessView {
    pub ingest_time_unix: i64,
    pub str_location: Option<Seq<char>>,
    pub location: Option<u64>,
    pub parent_str_location: Option<Seq<char>>,
    pub parent_location: Option<u64>,
    pub gain: i32,
    pub elevation: i32,
    pub hex_scale: DecimalValue,
    pub reward_unit: DecimalValue,
    pub invalid_reason: i32,
    pub verification_status: i32,
    pub participant_side: i32,
    pub pub_key: Seq<u8>,
    pub name: Seq<char>,
    pub timestamp: i64,
    pub tmst: u32,
    pub signal: i32,
    pub snr: i32,
    pub frequency: u64,
    pub selected: bool,
    pub distance: Distance,
}

impl View for Witness {
    type V = WitnessView;

    open spec fn view(&self) -> WitnessView {
        WitnessView {
            ingest_time_unix: self.ingest_time_unix,
            str_location: opt_text(self.str_location),
            location: self.location,
            parent_str_location: opt_text(self.parent_str_location),
            parent_location: self.parent_location,
            gain: self.gain,
            elevation: self.elevation,
            hex_scale: self.hex_scale,
            reward_unit: self.reward_unit,
            invalid_reason: self.invalid_reason,
            verification_status: self.verification_status,
            participant_side: self.participant_side,
            pub_key: self.pub_key@,
            name: self.name@,
            timestamp: self.timestamp,
            tmst: self.tmst,
            signal: self.signal,
            snr: self.snr,
            frequency: self.frequency,
            selected: self.selected,
            distance: self.distance,
        }
    }
}

/// The witness that a report gives, with the data derived from its
/// location and the name derived from its key. It starts out unselected
/// and at distance zero.
pub open spec fn assembled_witness(
    report: IotVerifiedWitnessReport,
    loc: LocDataView,
    parent: LocDataView,
    name: Seq<char>,
) -> WitnessView {
    WitnessView {
        ingest_time_unix: report.received_timestamp,
        str_location: loc.str_loc,
        location: report.location,
        parent_str_location: parent.str_loc,
        parent_location: parent.loc,
        gain: report.gain,
        elevation: report.elevation,
        hex_scale: report.hex_scale,
        reward_unit: report.reward_unit,
        invalid_reason: report.invalid_reason,
        verification_status: report.status,
        participant_side: report.participant_side,
        pub_key: report.report.pub_key@,
        name: name,
        timestamp: report.report.timestamp,
        tmst: report.report.tmst,
        signal: report.report.signal,
        snr: report.report.snr,
        frequency: report.report.frequency,
        selected: false,
        distance: Distance::Zero,
    }
}

/// The location is present and names no cell.
pub open spec fn is_invalid_location(location: Option<u64>) -> bool {
    location matches Some(h3index) && !spec_is_cell_index(h3index)
}

/// The witness that a report with a sound location gives.
pub open spec fn witness_of(report: IotVerifiedWitnessReport, selected: bool) -> WitnessView
    recommends
        !is_invalid_location(report.location),
{
    WitnessView {
        selected: selected,
        ..assembled_witness(
            report,
            spec_loc_data(report.location)->Ok_0,
            spec_parent_loc_data(report.location)->Ok_0,
            hotspot_name(report.report.pub_key@),
        )
    }
}

impl Witness {
    /// Puts a witness together from its report and what was derived from
    /// the report's location and key.
    pub fn assemble(
        report: &IotVerifiedWitnessReport,
        loc_data: LocData,
        parent_loc_data: ParentLocData,
        name: String,
    ) -> (r: Witness)
        ensures
            r@ == assembled_witness(*report, loc_data@, parent_loc_data@, name@),
    {
        Witness {
            ingest_time_unix: report.received_timestamp,
            str_location: loc_data.str_loc,
            location: report.location,
            parent_str_location: parent_loc_data.str_loc,
            parent_location: parent_loc_data.loc,
            gain: report.gain,
            elevation: report.elevation,
            hex_scale: report.hex_scale,
            reward_unit: report.reward_unit,
            invalid_reason: report.invalid_reason,
            verification_status: report.status,
            participant_side: report.participant_side,
            pub_key: clone_bytes(&report.report.pub_key),
            name,
            timestamp: report.report.timestamp,
            tmst: report.report.tmst,
            signal: report.report.signal,
            snr: report.report.snr,
            frequency: report.report.frequency,
            selected: false,
            distance: Distance::Zero,
        }
    }

    /// Builds the witness of a report. It fails if and only if the report's
    /// location is present and names no cell.
    pub fn try_from(witness_report: &IotVerifiedWitnessReport) -> (r: Result<
        Witness,
        DocumentError,
    >)
        ensures
            match r {
                Ok(witness) => !is_invalid_location(witness_report.location) && witness@
                    == witness_of(*witness_report, false),
                Err(e) => is_invalid_location(witness_report.location) && e
                    == DocumentError::InvalidCellIndex(witness_report.location->0),
            },
    {
        let loc_data = match LocData::from_h3(witness_report.location) {
            Ok(data) => data,
            Err(e) => {
                return Err(e);
            },
        };
        let parent_loc_data = match ParentLocData::from_h3(witness_report.location) {
            Ok(data) => data,
            Err(e) => {
                return Err(e);
            },
        };
        let text = pub_key_text(&witness_report.report.pub_key);
        let name = animal_name(&text);
        Ok(Witness::assemble(witness_report, loc_data, parent_loc_data, name))
    }

    /// A copy of the witness at the given distance.
    pub fn with_distance(&self, distance: Distance) -> (r: Witness)
        ensures
            r@ == (WitnessView { distance: distance, ..self@ }),
    {
        Witness {
            ingest_time_unix: self.ingest_time_unix,
            str_location: clone_opt_text(&self.str_location),
            location: self.location,
            parent_str_location: clone_opt_text(&self.parent_str_location),
            parent_location: self.parent_location,
            gain: self.gain,
            elevation: self.elevation,
            hex_scale: self.hex_scale,
            reward_unit: self.reward_unit,
            invalid_reason: self.invalid_reason,
            verification_status: self.verification_status,
            participant_side: self.participant_side,
            pub_key: clone_bytes(&self.pub_key),
            name: self.name.clone(),
            timestamp: self.timestamp,
            tmst: self.tmst,
            signal: self.signal,
            snr: self.snr,
            frequency: self.frequency,
            selected: self.selected,
            distance,
        }
    }
}

impl Clone for Witness {
    fn clone(&self) -> (r: Self)
        ensures
            r@ == self@,
    {
        self.with_distance(self.distance)
    }
}

/// The witnesses of a beacon: those selected for reward first, then the
/// others, each group in the order of the report.
#[derive(Debug)]
pub struct Witnesses(pub Vec<Witness>);

impl View for Witnesses {
    type V = Seq<WitnessView>;

    open spec fn view(&self) -> Seq<WitnessView> {
        self.0@.map_values(|w: Witness| w@)
    }
}

/// The witnesses that reports with sound locations give.
pub open spec fn witnesses_of(reports: Seq<IotVerifiedWitnessReport>, selected: bool) -> Seq<
    WitnessView,
> {
    reports.map_values(|r: IotVerifiedWitnessReport| witness_of(r, selected))
}

/// The locations of the reports.
pub open spec fn locations_of(reports: Seq<IotVerifiedWitnessReport>) -> Seq<Option<u64>> {
    reports.map_values(|r: IotVerifiedWitnessReport| r.location)
}

/// The first location that is present and names no cell, if there is one.
pub open spec fn first_invalid_cell(locations: Seq<Option<u64>>) -> Option<u64>
    decreases locations.len(),
{
    if locations.len() == 0 {
        None
    } else if is_invalid_location(locations[0]) {
        locations[0]
    } else {
        first_invalid_cell(locations.drop_first())
    }
}

/// The first unsound location is found where every location before it is
/// sound.
pub proof fn lemma_first_invalid_at(locations: Seq<Option<u64>>, i: int)
    requires
        0 <= i < locations.len(),
        forall|j: int| 0 <= j < i ==> !is_invalid_location(#[trigger] locations[j]),
        is_invalid_location(locations[i]),
    ensures
        first_invalid_cell(locations) == locations[i],
    decreases i,
{
    if i > 0 {
        let rest = locations.drop_first();
        assert forall|j: int| 0 <= j < i - 1 implies !is_invalid_location(#[trigger] rest[j]) by {
            assert(rest[j] == locations[j + 1]);
        }
        lemma_first_invalid_at(rest, i - 1);
    }
}

/// There is no first unsound location where every location is sound, and
/// only there.
pub proof fn lemma_none_invalid(locations: Seq<Option<u64>>)
    ensures
        first_invalid_cell(locations) is None <==> forall|j: int|
            0 <= j < locations.len() ==> !is_invalid_location(#[trigger] locations[j]),
    decreases locations.len(),
{
    if locations.len() > 0 {
        let rest = locations.drop_first();
        lemma_none_invalid(rest);
        if first_invalid_cell(locations) is None {
            assert forall|j: int| 0 <= j < locations.len() implies !is_invalid_location(
                #[trigger] locations[j],
            ) by {
                if j > 0 {
                    assert(rest[j - 1] == locations[j]);
                }
            }
        }
        if forall|j: int| 0 <= j < locations.len() ==> !is_invalid_location(#[trigger] locations[j]) {
            assert(!is_invalid_location(locations[0]));
            assert forall|j: int| 0 <= j < rest.len() implies !is_invalid_location(
                #[trigger] rest[j],
            ) by {
                assert(rest[j] == locations[j + 1]);
            }
        }
    }
}

/// The witnesses of a report, or the error of its first unsound witness
/// location.
pub open spec fn spec_witnesses(iot_poc: IotPoc) -> Result<Seq<WitnessView>, DocumentError> {
    match first_invalid_cell(
        locations_of(iot_poc.selected_witnesses@) + locations_of(iot_poc.unselected_witnesses@),
    ) {
        Some(h3index) => Err(DocumentError::InvalidCellIndex(h3index)),
        None => Ok(
            witnesses_of(iot_poc.selected_witnesses@, true) + witnesses_of(
                iot_poc.unselected_witnesses@,
                false,
            ),
        ),
    }
}

/// The view of an answer.
pub open spec fn witnesses_result_view(r: Result<Witnesses, DocumentError>) -> Result<
    Seq<WitnessView>,
    DocumentError,
> {
    match r {
        Ok(witnesses) => Ok(witnesses@),
        Err(e) => Err(e),
    }
}

fn push_witnesses(
    witnesses: &mut Vec<Witness>,
    reports: &Vec<IotVerifiedWitnessReport>,
    selected: bool,
) -> (r: Result<(), DocumentError>)
    ensures
        match r {
            Ok(()) => {
                &&& forall|j: int|
                    0 <= j < reports.len() ==> !is_invalid_location(
                        #[trigger] locations_of(reports@)[j],
                    )
                &&& final(witnesses)@.map_values(|w: Witness| w@) == old(witnesses)@.map_values(
                    |w: Witness| w@,
                ) + witnesses_of(reports@, selected)
            },
            Err(e) => exists|i: int|
                {
                    &&& 0 <= i < reports.len()
                    &&& forall|j: int|
                        0 <= j < i ==> !is_invalid_location(#[trigger] locations_of(reports@)[j])
                    &&& is_invalid_location(#[trigger] locations_of(reports@)[i])
                    &&& e == DocumentError::InvalidCellIndex(locations_of(reports@)[i]->0)
                },
        },
{
    let ghost view_of = |w: Witness| w@;
    let mut i: usize = 0;
    assert(old(witnesses)@.map_values(view_of) + witnesses_of(reports@.take(0), selected)
        =~= old(witnesses)@.map_values(view_of));
    while i < reports.len()
        invariant
            i <= reports.len(),
            view_of == (|w: Witness| w@),
            forall|j: int| 0 <= j < i ==> !is_invalid_location(#[trigger] locations_of(reports@)[j]),
            witnesses@.map_values(view_of) == old(witnesses)@.map_values(view_of) + witnesses_of(
                reports@.take(i as int),
                selected,
            ),
        decreases reports.len() - i,
    {
        let ghost before = witnesses@;
        match Witness::try_from(&reports[i]) {
            Ok(mut witness) => {
                witness.selected = selected;
                witnesses.push(witness);
                assert(witnesses@.map_values(view_of) =~= before.map_values(view_of).push(
                    witness_of(reports@[i as int], selected),
                ));
                assert(witnesses_of(reports@.take(i + 1), selected) =~= witnesses_of(
                    reports@.take(i as int),
                    selected,
                ).push(witness_of(reports@[i as int], selected)));
            },
            Err(e) => {
                assert(is_invalid_location(locations_of(reports@)[i as int]));
                return Err(e);
            },
        }
        i += 1;
    }
    assert(reports@.take(i as int) =~= reports@);
    Ok(())
}

impl Witnesses {
    /// Gathers the witnesses of a report: the selected ones, marked as
    /// such, then the others. It fails if and only if the location of one
    /// of them is present and names no cell, with the first such location.
    pub fn try_from(iot_poc: &IotPoc) -> (r: Result<Witnesses, DocumentError>)
        ensures
            witnesses_result_view(r) == spec_witnesses(*iot_poc),
    {
        let ghost selected = locations_of(iot_poc.selected_witnesses@);
        let ghost unselected = locations_of(iot_poc.unselected_witnesses@);
        let ghost all = selected + unselected;
        let mut witnesses: Vec<Witness> = Vec::new();
        match push_witnesses(&mut witnesses, &iot_poc.selected_witnesses, true) {
            Ok(()) => {},
            Err(e) => {
                proof {
                    let i = choose|i: int|
                        {
                            &&& 0 <= i < selected.len()
                            &&& forall|j: int|
                                0 <= j < i ==> !is_invalid_location(#[trigger] selected[j])
                            &&& is_invalid_location(#[trigger] selected[i])
                            &&& e == DocumentError::InvalidCellIndex(selected[i]->0)
                        };
                    assert forall|j: int| 0 <= j < i implies !is_invalid_location(
                        #[trigger] all[j],
                    ) by {
                        assert(all[j] == selected[j]);
                    }
                    assert(all[i] == selected[i]);
                    lemma_first_invalid_at(all, i);
                }
                return Err(e);
            },
        }
        match push_witnesses(&mut witnesses, &iot_poc.unselected_witnesses, false) {
            Ok(()) => {},
            Err(e) => {
                proof {
                    let i = choose|i: int|
                        {
                            &&& 0 <= i < unselected.len()
                            &&& forall|j: int|
                                0 <= j < i ==> !is_invalid_location(#[trigger] unselected[j])
                            &&& is_invalid_location(#[trigger] unselected[i])
                            &&& e == DocumentError::InvalidCellIndex(unselected[i]->0)
                        };
                    let k = selected.len() + i;
                    assert forall|j: int| 0 <= j < k implies !is_invalid_location(
                        #[trigger] all[j],
                    ) by {
                        if j < selected.len() {
                            assert(all[j] == selected[j]);
                        } else {
                            assert(all[j] == unselected[j - selected.len()]);
                        }
                    }
                    assert(all[k] == unselected[i]);
                    lemma_first_invalid_at(all, k);
                }
                return Err(e);
            },
        }
        proof {
            assert forall|j: int| 0 <= j < all.len() implies !is_invalid_location(
                #[trigger] all[j],
            ) by {
                if j < selected.len() {
                    assert(all[j] == selected[j]);
                } else {
                    assert(all[j] == unselected[j - selected.len()]);
                }
            }
            lemma_none_invalid(all);
            assert(Seq::<Witness>::empty().map_values(|w: Witness| w@) + witnesses_of(
                iot_poc.selected_witnesses@,
                true,
            ) =~= witnesses_of(iot_poc.selected_witnesses@, true));
        }
        Ok(Witnesses(witnesses))
    }

    /// How many witnesses there are.
    pub fn len(&self) -> (r: usize)
        ensures
            r == self@.len(),
    {
        self.0.len()
    }

    /// The witness at `index`, if there is one.
    pub fn get(&self, index: usize) -> (r: Option<&Witness>)
        ensures
            index < self@.len() ==> r is Some && r->0@ == self@[index as int],
            index >= self@.len() ==> r is None,
    {
        if index < self.0.len() {
            Some(&self.0[index])
        } else {
            None
        }
    }
}

} // verus!
