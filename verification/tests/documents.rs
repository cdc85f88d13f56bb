use arango_etl::document::beacon::calc_distance;
use arango_etl::document::{get_name, hotspot_key};
use arango_etl::document::iot_poc::{
    DecimalValue, IotBeaconReport, IotPoc, IotValidBeaconReport, IotVerifiedWitnessReport,
    IotWitnessReport,
};
use arango_etl::document::iot_poc_file::{FileInfo, IotPocFile};
use arango_etl::document::loc_data::{LocData, ParentLocData, PARENT_RESOLUTION};
use arango_etl::document::witness::Distance;
use arango_etl::document::{
    Beacon, DocumentError, Edge, Hotspot, Witness, Witnesses, BEACON_COLLECTION,
    FILES_COLLECTION, HOTSPOT_COLLECTION, WITNESS_EDGE_COLLECTION,
};
use arango_etl::handler::arangodb::{build, derive_entities};
use base64::engine::general_purpose;
use base64::Engine;
use h3o::{CellIndex, LatLng, Resolution};
use helium_crypto::PublicKeyBinary;
use std::str::FromStr;

const CELL: u64 = 0x8a1fb46622dffff;
const CELL_PARENT: u64 = 0x851fb467fffffff;
const KNOWN_KEY: &str = "112CuoXo7WCcp6GGwDNBo6H5nKXGH45UNJ39iEefdv2mwmnwdFt8";

fn key_bytes(text: &str) -> Vec<u8> {
    Vec::<u8>::from(PublicKeyBinary::from_str(text).unwrap())
}

fn other_cell() -> u64 {
    let coord = LatLng::new(48.8566, 2.3522).unwrap();
    u64::from(coord.to_cell(Resolution::Ten))
}

fn witness_report(key: &[u8], location: Option<u64>, received: i64) -> IotVerifiedWitnessReport {
    IotVerifiedWitnessReport {
        received_timestamp: received,
        status: 1,
        report: IotWitnessReport {
            pub_key: key.to_vec(),
            timestamp: 1_700_000_000_000_000_123,
            tmst: 77,
            signal: -1040,
            snr: 55,
            frequency: 867_500_000,
        },
        location,
        gain: 12,
        elevation: 30,
        hex_scale: DecimalValue { mantissa: 5, scale: 1 },
        reward_unit: DecimalValue { mantissa: 125, scale: 2 },
        invalid_reason: 0,
        participant_side: 0,
    }
}

fn report(
    location: Option<u64>,
    selected: Vec<IotVerifiedWitnessReport>,
    unselected: Vec<IotVerifiedWitnessReport>,
) -> IotPoc {
    IotPoc {
        poc_id: vec![1, 2, 3, 255],
        beacon_report: IotValidBeaconReport {
            received_timestamp: 1_700_000_000_000,
            location,
            gain: 40,
            elevation: 18,
            hex_scale: DecimalValue { mantissa: 1, scale: 0 },
            reward_unit: DecimalValue { mantissa: 1, scale: 0 },
            report: IotBeaconReport {
                pub_key: key_bytes(KNOWN_KEY),
                frequency: 868_100_000,
                channel: 3,
                tx_power: 14,
                timestamp: 1_700_000_000_000_000_000,
                tmst: 5,
            },
        },
        selected_witnesses: selected,
        unselected_witnesses: unselected,
    }
}

#[test]
fn known() {
    let coord = LatLng::new(37.769377, -122.388903).unwrap();
    println!("coord: {:?}", coord);
    let cell_from_coord = coord.to_cell(Resolution::Twelve);
    println!("cell_from_coord: {:?}", cell_from_coord);
    let cell_u64 = u64::from(cell_from_coord);
    println!("cell_u64: {:?}", cell_u64);
    let cell_str = cell_from_coord.to_string();
    println!("cell_str: {:?}", cell_str);

    let cell_from_u64 = CellIndex::try_from(cell_u64).unwrap();
    println!("cell_from_u64: {:?}", cell_from_u64);
    let cell_coords = LatLng::from(cell_from_u64);
    println!("cell_coords: {:?}", cell_coords);
    let cell_from_u64_str = cell_from_u64.to_string();
    println!("cell_from_u64_str: {:?}", cell_from_u64_str);

    assert_eq!(cell_from_coord, cell_from_u64);
    assert_eq!(cell_str, cell_from_u64_str);

    let loc_data = LocData::from_h3(Some(cell_u64)).unwrap();
    assert_eq!(loc_data.loc, Some(cell_u64));
    assert_eq!(loc_data.str_loc, Some(cell_str));
}

#[test]
fn collections_are_named() {
    assert_eq!(BEACON_COLLECTION, "beacons");
    assert_eq!(HOTSPOT_COLLECTION, "hotspots");
    assert_eq!(WITNESS_EDGE_COLLECTION, "witnesses");
    assert_eq!(FILES_COLLECTION, "files");
    assert_eq!(PARENT_RESOLUTION, 5);
}

#[test]
fn name_of_a_known_key() {
    let name = get_name(&key_bytes(KNOWN_KEY)).unwrap();
    assert_eq!(name, "feisty-glass-dalmatian");
}

#[test]
fn name_depends_on_the_key() {
    let other = get_name(&vec![0u8; 33]).unwrap();
    assert_ne!(other, "feisty-glass-dalmatian");
    assert_eq!(other.split('-').count(), 3);
    assert_eq!(other, get_name(&vec![0u8; 33]).unwrap());
}

#[test]
fn location_of_a_cell() {
    let loc = LocData::from_h3(Some(CELL)).unwrap();
    assert_eq!(loc.loc, Some(CELL));
    assert_eq!(loc.str_loc.as_deref(), Some("8a1fb46622dffff"));
    let parent = ParentLocData::from_h3(Some(CELL)).unwrap();
    assert_eq!(parent.loc, Some(CELL_PARENT));
    assert_eq!(parent.str_loc.as_deref(), Some("851fb467fffffff"));
}

#[test]
fn location_agrees_with_the_grid() {
    for cell in [CELL, other_cell(), CELL_PARENT] {
        let index = CellIndex::try_from(cell).unwrap();
        let loc = LocData::from_h3(Some(cell)).unwrap();
        assert_eq!(loc.str_loc, Some(index.to_string()));
        let parent = ParentLocData::from_h3(Some(cell)).unwrap();
        assert_eq!(parent.loc, index.parent(Resolution::Five).map(u64::from));
        assert_eq!(parent.str_loc, index.parent(Resolution::Five).map(|p| p.to_string()));
    }
}

#[test]
fn absent_location_gives_absent_data() {
    let loc = LocData::from_h3(None).unwrap();
    assert_eq!(loc.loc, None);
    assert_eq!(loc.str_loc, None);
    let parent = ParentLocData::from_h3(None).unwrap();
    assert_eq!(parent.loc, None);
    assert_eq!(parent.str_loc, None);
}

#[test]
fn coarse_cell_has_no_parent_at_the_grouping_resolution() {
    let coarse = u64::from(CellIndex::try_from(CELL).unwrap().parent(Resolution::Three).unwrap());
    let loc = LocData::from_h3(Some(coarse)).unwrap();
    assert_eq!(loc.loc, Some(coarse));
    let parent = ParentLocData::from_h3(Some(coarse)).unwrap();
    assert_eq!(parent.loc, None);
    assert_eq!(parent.str_loc, None);
}

#[test]
fn invalid_cell_is_an_error() {
    for bad in [0u64, 1, u64::MAX, CELL | (1 << 63)] {
        assert_eq!(LocData::from_h3(Some(bad)).err(), Some(DocumentError::InvalidCellIndex(bad)));
        assert_eq!(
            ParentLocData::from_h3(Some(bad)).err(),
            Some(DocumentError::InvalidCellIndex(bad))
        );
    }
}

#[test]
fn distance_defaults_to_zero() {
    assert_eq!(calc_distance(None, None), Distance::Zero);
    assert_eq!(calc_distance(Some(CELL), None), Distance::Zero);
    assert_eq!(calc_distance(None, Some(CELL)), Distance::Zero);
    assert_eq!(calc_distance(Some(CELL), Some(CELL_PARENT)), Distance::Between(CELL, CELL_PARENT));
}

#[test]
fn witness_of_a_report() {
    let key = vec![1u8; 33];
    let witness = Witness::try_from(&witness_report(&key, Some(CELL), 1_700_000_000_250)).unwrap();
    assert_eq!(witness.ingest_time_unix, 1_700_000_000_250);
    assert_eq!(witness.location, Some(CELL));
    assert_eq!(witness.str_location.as_deref(), Some("8a1fb46622dffff"));
    assert_eq!(witness.parent_location, Some(CELL_PARENT));
    assert_eq!(witness.parent_str_location.as_deref(), Some("851fb467fffffff"));
    assert_eq!(witness.gain, 12);
    assert_eq!(witness.elevation, 30);
    assert_eq!(witness.hex_scale, DecimalValue { mantissa: 5, scale: 1 });
    assert_eq!(witness.reward_unit, DecimalValue { mantissa: 125, scale: 2 });
    assert_eq!(witness.verification_status, 1);
    assert_eq!(witness.pub_key, key);
    assert_eq!(witness.name, get_name(&key).unwrap());
    assert_eq!(witness.timestamp, 1_700_000_000_000_000_123);
    assert_eq!(witness.tmst, 77);
    assert_eq!(witness.signal, -1040);
    assert_eq!(witness.snr, 55);
    assert_eq!(witness.frequency, 867_500_000);
    assert!(!witness.selected);
    assert_eq!(witness.distance, Distance::Zero);
}

#[test]
fn witness_with_an_invalid_cell_is_an_error() {
    let bad = witness_report(&[2u8; 33], Some(7), 0);
    assert_eq!(Witness::try_from(&bad).err(), Some(DocumentError::InvalidCellIndex(7)));
}

#[test]
fn witnesses_come_selected_first() {
    let poc = report(
        Some(CELL),
        vec![witness_report(&[1u8; 33], Some(CELL), 10), witness_report(&[2u8; 33], None, 20)],
        vec![witness_report(&[3u8; 33], Some(other_cell()), 30)],
    );
    let witnesses = Witnesses::try_from(&poc).unwrap();
    assert_eq!(witnesses.len(), 3);
    assert_eq!(witnesses.0[0].pub_key, vec![1u8; 33]);
    assert!(witnesses.0[0].selected);
    assert_eq!(witnesses.0[1].pub_key, vec![2u8; 33]);
    assert!(witnesses.0[1].selected);
    assert_eq!(witnesses.0[2].pub_key, vec![3u8; 33]);
    assert!(!witnesses.0[2].selected);
    assert!(witnesses.get(3).is_none());
    assert_eq!(witnesses.get(2).unwrap().ingest_time_unix, 30);
}

#[test]
fn beacon_of_a_report() {
    let far = other_cell();
    let poc = report(
        Some(CELL),
        vec![witness_report(&[1u8; 33], Some(far), 1_700_000_000_400)],
        vec![witness_report(&[2u8; 33], None, 1_700_000_000_500)],
    );
    let beacon = Beacon::try_from(&poc).unwrap();
    assert_eq!(beacon.poc_id, "AQID_w");
    assert_eq!(beacon.poc_id, general_purpose::URL_SAFE_NO_PAD.encode([1u8, 2, 3, 255]));
    assert_eq!(beacon._key, beacon.poc_id);
    assert_eq!(beacon.ingest_time_unix, 1_700_000_000_000);
    assert_eq!(beacon.location, Some(CELL));
    assert_eq!(beacon.str_location.as_deref(), Some("8a1fb46622dffff"));
    assert_eq!(beacon.parent_location, Some(CELL_PARENT));
    assert_eq!(beacon.parent_str_location.as_deref(), Some("851fb467fffffff"));
    assert_eq!(beacon.gain, 40);
    assert_eq!(beacon.elevation, 18);
    assert_eq!(beacon.pub_key, key_bytes(KNOWN_KEY));
    assert_eq!(beacon.name, "feisty-glass-dalmatian");
    assert_eq!(beacon.frequency, 868_100_000);
    assert_eq!(beacon.channel, 3);
    assert_eq!(beacon.tx_power, 14);
    assert_eq!(beacon.timestamp, 1_700_000_000_000_000_000);
    assert_eq!(beacon.tmst, 5);
    assert_eq!(beacon.witnesses.len(), 2);
    assert_eq!(beacon.witnesses.0[0].distance, Distance::Between(CELL, far));
    assert_eq!(beacon.witnesses.0[1].distance, Distance::Zero);
}

#[test]
fn beacon_without_location_has_every_witness_at_zero() {
    let poc = report(None, vec![witness_report(&[1u8; 33], Some(CELL), 1)], vec![]);
    let beacon = Beacon::try_from(&poc).unwrap();
    assert_eq!(beacon.location, None);
    assert_eq!(beacon.str_location, None);
    assert_eq!(beacon.parent_location, None);
    assert_eq!(beacon.witnesses.0[0].distance, Distance::Zero);
}

#[test]
fn first_invalid_location_is_reported() {
    let poc = report(
        Some(3),
        vec![witness_report(&[1u8; 33], Some(4), 1)],
        vec![witness_report(&[2u8; 33], Some(5), 1)],
    );
    assert_eq!(Beacon::try_from(&poc).err(), Some(DocumentError::InvalidCellIndex(3)));
    let poc = report(
        Some(CELL),
        vec![witness_report(&[1u8; 33], Some(CELL), 1), witness_report(&[1u8; 33], Some(4), 1)],
        vec![witness_report(&[2u8; 33], Some(5), 1)],
    );
    assert_eq!(Beacon::try_from(&poc).err(), Some(DocumentError::InvalidCellIndex(4)));
    let poc = report(
        None,
        vec![witness_report(&[1u8; 33], None, 1)],
        vec![witness_report(&[2u8; 33], Some(5), 1)],
    );
    assert_eq!(Witnesses::try_from(&poc).err(), Some(DocumentError::InvalidCellIndex(5)));
    assert_eq!(build(&poc, 0).err(), Some(DocumentError::InvalidCellIndex(5)));
}

#[test]
fn set_witness_distance_changes_nothing_else() {
    let poc = report(Some(CELL), vec![witness_report(&[1u8; 33], Some(CELL_PARENT), 9)], vec![]);
    let mut beacon = Beacon::try_from(&poc).unwrap();
    beacon.location = None;
    beacon.set_witness_distance();
    assert_eq!(beacon.witnesses.0[0].distance, Distance::Zero);
    assert_eq!(beacon.witnesses.0[0].location, Some(CELL_PARENT));
    assert_eq!(beacon.witnesses.0[0].ingest_time_unix, 9);
    assert_eq!(beacon.poc_id, "AQID_w");
}

#[test]
fn edge_of_a_pairing() {
    let far = other_cell();
    let poc = report(
        Some(CELL),
        vec![witness_report(&[1u8; 33], Some(far), 1_700_000_000_400)],
        vec![],
    );
    let beacon = Beacon::try_from(&poc).unwrap();
    let edge = Edge::new(&beacon, &beacon.witnesses.0[0]).unwrap();
    assert_eq!(edge._key, format!("beacon_{}_witness_{}", CELL, far));
    assert_eq!(edge.beacon_pub_key, key_bytes(KNOWN_KEY));
    assert_eq!(edge.witness_pub_key, vec![1u8; 33]);
    assert_eq!(edge.distance, Distance::Between(CELL, far));
    assert_eq!(edge.witness_snr, 55);
    assert_eq!(edge.witness_signal, -1040);
    assert_eq!(edge.ingest_latency, 400);
}

#[test]
fn ingest_latency_is_clamped_to_zero() {
    let poc = report(
        Some(CELL),
        vec![
            witness_report(&[1u8; 33], None, 1_699_999_999_000),
            witness_report(&[2u8; 33], None, i64::MIN),
            witness_report(&[3u8; 33], None, 1_700_000_000_000),
            witness_report(&[4u8; 33], None, 1_700_000_000_001),
        ],
        vec![],
    );
    let beacon = Beacon::try_from(&poc).unwrap();
    let early = Edge::new(&beacon, &beacon.witnesses.0[0]).unwrap();
    assert_eq!(early.ingest_latency, 0);
    assert_eq!(early._key, format!("beacon_{}_witness_unknown", CELL));
    let earliest = Edge::new(&beacon, &beacon.witnesses.0[1]).unwrap();
    assert_eq!(earliest.ingest_latency, 0);
    let same = Edge::new(&beacon, &beacon.witnesses.0[2]).unwrap();
    assert_eq!(same.ingest_latency, 0);
    let late = Edge::new(&beacon, &beacon.witnesses.0[3]).unwrap();
    assert_eq!(late.ingest_latency, 1);
}

#[test]
fn ingest_latency_is_zero_where_the_difference_does_not_fit() {
    let mut poc = report(
        Some(CELL),
        vec![witness_report(&[1u8; 33], None, i64::MAX), witness_report(&[2u8; 33], None, 2_000)],
        vec![],
    );
    poc.beacon_report.received_timestamp = -10;
    let beacon = Beacon::try_from(&poc).unwrap();
    let beyond = Edge::new(&beacon, &beacon.witnesses.0[0]).unwrap();
    assert_eq!(beyond.ingest_latency, 0);
    let within = Edge::new(&beacon, &beacon.witnesses.0[1]).unwrap();
    assert_eq!(within.ingest_latency, 2_010);
    poc.beacon_report.received_timestamp = 2_000;
    poc.selected_witnesses[1].received_timestamp = 1_000;
    let beacon = Beacon::try_from(&poc).unwrap();
    let before = Edge::new(&beacon, &beacon.witnesses.0[1]).unwrap();
    assert_eq!(before.ingest_latency, 0);
}

#[test]
fn hotspot_in_both_roles() {
    let poc = report(Some(CELL), vec![witness_report(&[1u8; 33], None, 1)], vec![]);
    let beacon = Beacon::try_from(&poc).unwrap();
    let sender = Hotspot::from_beacon(&beacon, 1_700_000_000_999).unwrap();
    assert_eq!(sender._key, key_bytes(KNOWN_KEY));
    assert_eq!(sender.poc_ids, vec!["AQID_w".to_string()]);
    assert_eq!(sender.location, Some(CELL));
    assert_eq!(sender.str_location.as_deref(), Some("8a1fb46622dffff"));
    assert_eq!(sender.parent_location, Some(CELL_PARENT));
    assert_eq!(sender.name, "feisty-glass-dalmatian");
    assert_eq!(sender.last_updated_at, Some(1_700_000_000_999));
    assert_eq!(sender.gain, Some(40));
    assert_eq!(sender.elevation, Some(18));
    let hearer = Hotspot::from_witness(&beacon.witnesses.0[0], 5).unwrap();
    assert_eq!(hearer._key, vec![1u8; 33]);
    assert!(hearer.poc_ids.is_empty());
    assert_eq!(hearer.location, None);
    assert_eq!(hearer.last_updated_at, Some(5));
    assert_eq!(hearer.gain, Some(12));
    assert_eq!(hearer.elevation, Some(30));
    assert_eq!(hearer.name, get_name(&vec![1u8; 33]).unwrap());
}

#[test]
fn report_without_witnesses_is_dropped() {
    let poc = report(Some(CELL), vec![], vec![]);
    assert!(matches!(build(&poc, 1), Ok(None)));
    let broken = report(Some(3), vec![], vec![]);
    assert!(matches!(build(&broken, 1), Ok(None)));
}

#[test]
fn report_turns_into_its_documents() {
    let far = other_cell();
    let poc = report(
        Some(CELL),
        vec![
            witness_report(&[1u8; 33], Some(far), 1_700_000_000_100),
            witness_report(&[2u8; 33], None, 1_700_000_000_200),
        ],
        vec![witness_report(&[3u8; 33], Some(CELL), 1_700_000_000_300)],
    );
    let entities = build(&poc, 42).unwrap().unwrap();
    assert_eq!(entities.beacon.poc_id, "AQID_w");
    assert_eq!(entities.hotspots.len(), 4);
    assert_eq!(entities.hotspots[0]._key, key_bytes(KNOWN_KEY));
    assert_eq!(entities.hotspots[0].poc_ids, vec!["AQID_w".to_string()]);
    assert_eq!(entities.hotspots[1]._key, vec![1u8; 33]);
    assert_eq!(entities.hotspots[2]._key, vec![2u8; 33]);
    assert_eq!(entities.hotspots[3]._key, vec![3u8; 33]);
    for hotspot in &entities.hotspots {
        assert_eq!(hotspot.last_updated_at, Some(42));
    }
    assert_eq!(entities.edges.len(), 3);
    assert_eq!(entities.edges[0]._key, format!("beacon_{}_witness_{}", CELL, far));
    assert_eq!(entities.edges[1]._key, format!("beacon_{}_witness_unknown", CELL));
    assert_eq!(entities.edges[2]._key, format!("beacon_{}_witness_{}", CELL, CELL));
    assert_eq!(entities.edges[1].distance, Distance::Zero);
    assert_eq!(entities.edges[2].ingest_latency, 300);
}

#[test]
fn report_with_unselected_witnesses_only_is_built() {
    let poc = report(Some(CELL), vec![], vec![witness_report(&[3u8; 33], None, 5)]);
    let entities = build(&poc, 1).unwrap().unwrap();
    assert_eq!(entities.edges.len(), 1);
    assert!(!entities.beacon.witnesses.0[0].selected);
}

#[test]
fn one_hotspot_for_each_witnessing_device() {
    let far = other_cell();
    let mut moved = witness_report(&[1u8; 33], Some(far), 2);
    moved.gain = 99;
    let poc = report(
        Some(CELL),
        vec![witness_report(&[1u8; 33], Some(CELL), 1), witness_report(&[2u8; 33], None, 1)],
        vec![moved],
    );
    let beacon = Beacon::try_from(&poc).unwrap();
    let entities = derive_entities(beacon, 7).unwrap();
    assert_eq!(entities.hotspots.len(), 3);
    assert_eq!(entities.hotspots[1]._key, vec![2u8; 33]);
    assert_eq!(entities.hotspots[2]._key, vec![1u8; 33]);
    assert_eq!(entities.hotspots[2].gain, Some(99));
    assert_eq!(entities.hotspots[2].location, Some(far));
    assert_eq!(entities.edges.len(), 3);
}

#[test]
fn file_record_starts_out_open() {
    let info = FileInfo { key: "iot_poc.1700000000000.gz".to_string(), timestamp: 1_700_000_000_000, size: 1234 };
    let record = IotPocFile::from(&info);
    assert_eq!(record._key, "iot_poc.1700000000000.gz");
    assert_eq!(record.timestamp, 1_700_000_000_000);
    assert_eq!(record.unix_ts, 1_700_000_000_000);
    assert_eq!(record.size, 1234);
    assert!(!record.done);
    assert_eq!(record.retries, 0);
    let copy = info.clone();
    assert_eq!(copy.key, info.key);
    assert_eq!(copy.timestamp, info.timestamp);
    assert_eq!(copy.size, info.size);
}

#[test]
fn file_record_counts_and_completes() {
    let info = FileInfo { key: "f".to_string(), timestamp: 5, size: 1 };
    let mut record = IotPocFile::from(&info);
    assert_eq!(record.increment_retry(), Some(1));
    assert_eq!(record.increment_retry(), Some(2));
    assert!(!record.done);
    record.complete();
    assert!(record.done);
    assert_eq!(record.retries, 2);
    assert_eq!(record.increment_retry(), Some(3));
    assert!(record.done);
    record.complete();
    assert!(record.done);
    record.retries = u8::MAX;
    assert_eq!(record.increment_retry(), None);
    assert_eq!(record.retries, u8::MAX);
}

#[test]
fn parent_is_the_cell_with_its_finer_digits_unused() {
    for cell in [CELL, other_cell()] {
        let expected = (cell & !(0xfu64 << 52)) | (5u64 << 52) | ((1u64 << 30) - 1);
        assert_eq!(ParentLocData::from_h3(Some(cell)).unwrap().loc, Some(expected));
    }
    assert_eq!(ParentLocData::from_h3(Some(CELL_PARENT)).unwrap().loc, Some(CELL_PARENT));
}

#[test]
fn hotspot_key_is_the_canonical_text_of_the_public_key() {
    assert_eq!(hotspot_key(&key_bytes(KNOWN_KEY)), KNOWN_KEY);
    let bytes = vec![7u8; 33];
    assert_eq!(hotspot_key(&bytes), PublicKeyBinary::from(bytes.clone()).to_string());
    assert_ne!(hotspot_key(&bytes), hotspot_key(&vec![8u8; 33]));
}
