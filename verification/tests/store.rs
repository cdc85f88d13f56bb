use arango_etl::document::iot_poc::{
    DecimalValue, IotBeaconReport, IotPoc, IotValidBeaconReport, IotVerifiedWitnessReport,
    IotWitnessReport,
};
use arango_etl::document::iot_poc_file::FileInfo;
use arango_etl::document::witness::Distance;
use arango_etl::document::{
    hotspot_key, DocumentError, Edge, Hotspot, BEACON_COLLECTION, FILES_COLLECTION,
    HOTSPOT_COLLECTION, WITNESS_EDGE_COLLECTION,
};
use arango_etl::handler::query::{
    beacon_exists_query, complete_file_query, done_file_keys_query, edge_upsert_query,
    exists_from_rows, file_exists_query, file_retries_query, hotspot_exists_query,
    hotspot_upsert_query, increment_file_retry_query, new_count_from_rows, retries_from_rows,
};
use arango_etl::handler::arangodb::{
    build, insert_document, DBError, ErrorKind, ERROR_CONFLICT, ERROR_DOCUMENT_NOT_FOUND,
    ERROR_UNIQUE_CONSTRAINT_VIOLATED,
};
use arango_etl::handler::memory::{MemoryStore, PopulateError};
use arango_etl::handler::upsert::{merge_beacon, merge_edge, merge_hotspot, Histogram};

const CELL: u64 = 0x8a1fb46622dffff;
const CELL_PARENT: u64 = 0x851fb467fffffff;

fn witness_report(key: u8, location: Option<u64>, snr: i32, signal: i32, received: i64) -> IotVerifiedWitnessReport {
    IotVerifiedWitnessReport {
        received_timestamp: received,
        status: 1,
        report: IotWitnessReport {
            pub_key: vec![key; 33],
            timestamp: 0,
            tmst: 0,
            signal,
            snr,
            frequency: 867_500_000,
        },
        location,
        gain: key as i32,
        elevation: 2,
        hex_scale: DecimalValue { mantissa: 1, scale: 0 },
        reward_unit: DecimalValue { mantissa: 1, scale: 0 },
        invalid_reason: 0,
        participant_side: 0,
    }
}

fn report(id: u8, sender: u8, location: Option<u64>, witnesses: Vec<IotVerifiedWitnessReport>) -> IotPoc {
    IotPoc {
        poc_id: vec![id, id, id],
        beacon_report: IotValidBeaconReport {
            received_timestamp: 1_000,
            location,
            gain: sender as i32,
            elevation: 3,
            hex_scale: DecimalValue { mantissa: 1, scale: 0 },
            reward_unit: DecimalValue { mantissa: 1, scale: 0 },
            report: IotBeaconReport {
                pub_key: vec![sender; 33],
                frequency: 868_100_000,
                channel: 1,
                tx_power: 14,
                timestamp: 0,
                tmst: 0,
            },
        },
        selected_witnesses: witnesses,
        unselected_witnesses: vec![],
    }
}

fn hotspot(key: u8, ids: &[&str], gain: i32, at: Option<u64>) -> Hotspot {
    Hotspot {
        _key: vec![key; 33],
        poc_ids: ids.iter().map(|id| id.to_string()).collect(),
        str_location: None,
        location: None,
        parent_str_location: None,
        parent_location: None,
        name: format!("device-{}", key),
        last_updated_at: at,
        gain: Some(gain),
        elevation: Some(1),
    }
}

fn edge(key: &str, snr: i32, signal: i32, latency: i64) -> Edge {
    Edge {
        _key: key.to_string(),
        beacon_pub_key: vec![1; 33],
        witness_pub_key: vec![2; 33],
        distance: Distance::Between(CELL, CELL_PARENT),
        witness_snr: snr,
        witness_signal: signal,
        ingest_latency: latency,
    }
}

fn sorted(ids: &[String]) -> Vec<String> {
    let mut ids = ids.to_vec();
    ids.sort();
    ids
}

fn buckets_of(hist: &Histogram) -> Vec<(i64, u64)> {
    let mut buckets: Vec<(i64, u64)> = hist.buckets().iter().map(|b| (b.value, b.count)).collect();
    buckets.sort();
    buckets
}

#[test]
fn store_errors_are_classified() {
    assert_eq!(DBError::ArangoClientError { error_num: Some(1210) }.kind(), ErrorKind::Conflict);
    assert_eq!(DBError::ArangoClientError { error_num: Some(1200) }.kind(), ErrorKind::Conflict);
    assert_eq!(DBError::ArangoClientError { error_num: Some(1202) }.kind(), ErrorKind::Transient);
    assert_eq!(DBError::ArangoClientError { error_num: Some(0) }.kind(), ErrorKind::Transient);
    assert_eq!(DBError::ArangoClientError { error_num: None }.kind(), ErrorKind::Transient);
    assert_eq!(DBError::SerdeError.kind(), ErrorKind::Fatal);
    assert_eq!(DBError::Other.kind(), ErrorKind::Fatal);
    assert_eq!(ERROR_CONFLICT, 1200);
    assert_eq!(ERROR_UNIQUE_CONSTRAINT_VIOLATED, 1210);
    assert_eq!(ERROR_DOCUMENT_NOT_FOUND, 1202);
}

#[test]
fn insert_takes_a_conflict_for_success() {
    assert!(insert_document(Ok(())).is_ok());
    assert!(insert_document(Err(DBError::ArangoClientError { error_num: Some(1210) })).is_ok());
    assert!(insert_document(Err(DBError::ArangoClientError { error_num: Some(1200) })).is_ok());
    assert!(matches!(
        insert_document(Err(DBError::ArangoClientError { error_num: Some(1203) })),
        Err(DBError::ArangoClientError { error_num: Some(1203) })
    ));
    assert!(matches!(insert_document(Err(DBError::SerdeError)), Err(DBError::SerdeError)));
    assert!(matches!(insert_document(Err(DBError::Other)), Err(DBError::Other)));
}

#[test]
fn new_hotspot_is_taken_as_it_comes() {
    let merged = merge_hotspot(None, hotspot(1, &["a"], 5, Some(10)));
    assert_eq!(merged._key, vec![1u8; 33]);
    assert_eq!(merged.poc_ids, vec!["a".to_string()]);
    assert_eq!(merged.gain, Some(5));
    assert_eq!(merged.last_updated_at, Some(10));
}

#[test]
fn hotspot_merge_unites_beacons_and_keeps_the_later_time() {
    let old = hotspot(1, &["a", "b"], 5, Some(100));
    let merged = merge_hotspot(Some(old), hotspot(1, &["b", "c"], 9, Some(50)));
    assert_eq!(merged.poc_ids, vec!["a".to_string(), "b".to_string(), "c".to_string()]);
    assert_eq!(merged.gain, Some(9));
    assert_eq!(merged.last_updated_at, Some(100));
    let again = merge_hotspot(Some(merged), hotspot(1, &[], 3, Some(200)));
    assert_eq!(again.poc_ids, vec!["a".to_string(), "b".to_string(), "c".to_string()]);
    assert_eq!(again.gain, Some(3));
    assert_eq!(again.last_updated_at, Some(200));
    let timeless = merge_hotspot(Some(again), hotspot(1, &[], 3, None));
    assert_eq!(timeless.last_updated_at, Some(200));
}

#[test]
fn hotspot_merge_overwrites_the_location() {
    let mut incoming = hotspot(1, &[], 1, Some(1));
    incoming.location = Some(CELL);
    incoming.str_location = Some("8a1fb46622dffff".to_string());
    incoming.parent_location = Some(CELL_PARENT);
    incoming.elevation = Some(77);
    let merged = merge_hotspot(Some(hotspot(1, &["x"], 1, Some(1))), incoming);
    assert_eq!(merged.location, Some(CELL));
    assert_eq!(merged.str_location.as_deref(), Some("8a1fb46622dffff"));
    assert_eq!(merged.parent_location, Some(CELL_PARENT));
    assert_eq!(merged.elevation, Some(77));
    assert_eq!(merged.poc_ids, vec!["x".to_string()]);
}

#[test]
fn beacon_is_written_once() {
    let first = build(&report(1, 9, Some(CELL), vec![witness_report(2, None, 1, 1, 1)]), 0)
        .unwrap()
        .unwrap()
        .beacon;
    let mut second = build(&report(1, 8, None, vec![witness_report(3, None, 1, 1, 1)]), 0)
        .unwrap()
        .unwrap()
        .beacon;
    second.gain = 1234;
    let kept = merge_beacon(Some(first), second);
    assert_eq!(kept.pub_key, vec![9u8; 33]);
    assert_eq!(kept.gain, 9);
    let fresh = build(&report(2, 8, None, vec![witness_report(3, None, 1, 1, 1)]), 0)
        .unwrap()
        .unwrap()
        .beacon;
    let written = merge_beacon(None, fresh);
    assert_eq!(written.pub_key, vec![8u8; 33]);
}

#[test]
fn histogram_counts_values() {
    let mut hist = Histogram::new();
    assert_eq!(hist.count(5), 0);
    assert!(hist.buckets().is_empty());
    hist.record(5);
    hist.record(-3);
    hist.record(5);
    assert_eq!(hist.count(5), 2);
    assert_eq!(hist.count(-3), 1);
    assert_eq!(hist.count(0), 0);
    assert_eq!(buckets_of(&hist), vec![(-3, 1), (5, 2)]);
}

#[test]
fn new_edge_starts_at_one() {
    let doc = merge_edge(None, &edge("k", 55, -1040, 400));
    assert_eq!(doc._key, "k");
    assert_eq!(doc.beacon_pub_key, vec![1u8; 33]);
    assert_eq!(doc.witness_pub_key, vec![2u8; 33]);
    assert_eq!(doc.distance, Distance::Between(CELL, CELL_PARENT));
    assert_eq!(doc.count, 1);
    assert_eq!(buckets_of(&doc.snr_hist), vec![(55, 1)]);
    assert_eq!(buckets_of(&doc.signal_hist), vec![(-1040, 1)]);
    assert_eq!(buckets_of(&doc.ingest_latency_hist), vec![(400, 1)]);
}

#[test]
fn edge_merge_counts_and_keeps_its_endpoints() {
    let doc = merge_edge(None, &edge("k", 55, -1040, 400));
    let mut other = edge("k", 55, -990, 0);
    other.beacon_pub_key = vec![7; 33];
    other.distance = Distance::Zero;
    let doc = merge_edge(Some(doc), &other);
    assert_eq!(doc.count, 2);
    assert_eq!(doc.beacon_pub_key, vec![1u8; 33]);
    assert_eq!(doc.distance, Distance::Between(CELL, CELL_PARENT));
    assert_eq!(buckets_of(&doc.snr_hist), vec![(55, 2)]);
    assert_eq!(buckets_of(&doc.signal_hist), vec![(-1040, 1), (-990, 1)]);
    assert_eq!(buckets_of(&doc.ingest_latency_hist), vec![(0, 1), (400, 1)]);
    let total: u64 = doc.snr_hist.buckets().iter().map(|b| b.count).sum();
    assert_eq!(total, doc.count);
}

#[test]
fn applying_a_report_fills_the_store() {
    let mut store = MemoryStore::new();
    let poc = report(1, 9, Some(CELL), vec![witness_report(2, Some(CELL_PARENT), 5, -100, 1_250), witness_report(3, None, 6, -110, 1_500)]);
    let answer = store.populate_collections(&poc, 77).unwrap();
    assert_eq!(answer.as_deref(), Some("AQEB"));
    assert!(store.beacon_exists(&"AQEB".to_string()));
    assert!(store.hotspot_exists(&vec![9u8; 33]));
    assert!(store.hotspot_exists(&vec![2u8; 33]));
    assert!(store.hotspot_exists(&vec![3u8; 33]));
    assert!(!store.hotspot_exists(&vec![4u8; 33]));
    let sender = store.hotspot(&vec![9u8; 33]).unwrap();
    assert_eq!(sender.poc_ids, vec!["AQEB".to_string()]);
    assert_eq!(sender.last_updated_at, Some(77));
    let hearer = store.hotspot(&vec![2u8; 33]).unwrap();
    assert!(hearer.poc_ids.is_empty());
    let key = format!("beacon_{}_witness_{}", CELL, CELL_PARENT);
    let edge = store.edge(&key).unwrap();
    assert_eq!(edge.count, 1);
    assert_eq!(buckets_of(&edge.snr_hist), vec![(5, 1)]);
    assert_eq!(buckets_of(&edge.signal_hist), vec![(-100, 1)]);
    assert_eq!(buckets_of(&edge.ingest_latency_hist), vec![(250, 1)]);
    assert!(store.edge(&format!("beacon_{}_witness_unknown", CELL)).is_some());
    assert!(store.edge(&"beacon_unknown_witness_unknown".to_string()).is_none());
}

#[test]
fn redelivery_is_harmless() {
    let mut store = MemoryStore::new();
    let poc = report(1, 9, Some(CELL), vec![witness_report(2, Some(CELL_PARENT), 5, -100, 1_250), witness_report(3, None, 6, -110, 1_500)]);
    store.populate_collections(&poc, 77).unwrap();
    let beacon_before = store.beacon(&"AQEB".to_string()).unwrap().ingest_time_unix;
    store.populate_collections(&poc, 99).unwrap();
    let beacon = store.beacon(&"AQEB".to_string()).unwrap();
    assert_eq!(beacon.ingest_time_unix, beacon_before);
    assert_eq!(beacon.witnesses.len(), 2);
    let sender = store.hotspot(&vec![9u8; 33]).unwrap();
    assert_eq!(sender.poc_ids, vec!["AQEB".to_string()]);
    assert_eq!(sender.gain, Some(9));
    assert_eq!(sender.last_updated_at, Some(99));
    let hearer = store.hotspot(&vec![3u8; 33]).unwrap();
    assert!(hearer.poc_ids.is_empty());
    assert_eq!(hearer.last_updated_at, Some(99));
    let key = format!("beacon_{}_witness_{}", CELL, CELL_PARENT);
    let edge = store.edge(&key).unwrap();
    assert_eq!(edge.count, 2);
    assert_eq!(buckets_of(&edge.snr_hist), vec![(5, 2)]);
    assert_eq!(buckets_of(&edge.signal_hist), vec![(-100, 2)]);
    assert_eq!(buckets_of(&edge.ingest_latency_hist), vec![(250, 2)]);
    let unknown = store.edge(&format!("beacon_{}_witness_unknown", CELL)).unwrap();
    assert_eq!(unknown.count, 2);
    assert_eq!(buckets_of(&unknown.snr_hist), vec![(6, 2)]);
}

#[test]
fn redelivery_at_an_earlier_time_keeps_the_later_one() {
    let mut store = MemoryStore::new();
    let poc = report(1, 9, None, vec![witness_report(2, None, 5, -100, 1_250)]);
    store.populate_collections(&poc, 500).unwrap();
    store.populate_collections(&poc, 100).unwrap();
    assert_eq!(store.hotspot(&vec![9u8; 33]).unwrap().last_updated_at, Some(500));
    assert_eq!(store.hotspot(&vec![2u8; 33]).unwrap().last_updated_at, Some(500));
}

#[test]
fn order_of_two_reports_does_not_matter() {
    let a = report(1, 9, Some(CELL), vec![witness_report(2, Some(CELL_PARENT), 5, -100, 1_250), witness_report(3, None, 6, -110, 1_500)]);
    let b = report(2, 9, Some(CELL), vec![witness_report(2, Some(CELL_PARENT), 7, -100, 1_100), witness_report(4, None, 6, -90, 1_700)]);
    let mut first = MemoryStore::new();
    first.populate_collections(&a, 10).unwrap();
    first.populate_collections(&b, 20).unwrap();
    let mut second = MemoryStore::new();
    second.populate_collections(&b, 20).unwrap();
    second.populate_collections(&a, 10).unwrap();
    for key in [9u8, 2, 3, 4] {
        let x = first.hotspot(&vec![key; 33]).unwrap();
        let y = second.hotspot(&vec![key; 33]).unwrap();
        assert_eq!(sorted(&x.poc_ids), sorted(&y.poc_ids));
        assert_eq!(x.last_updated_at, y.last_updated_at);
        assert_eq!(x.gain, y.gain);
        assert_eq!(x.elevation, y.elevation);
        assert_eq!(x.location, y.location);
        assert_eq!(x.name, y.name);
    }
    assert_eq!(
        sorted(&first.hotspot(&vec![9u8; 33]).unwrap().poc_ids),
        vec!["AQEB".to_string(), "AgIC".to_string()]
    );
    assert_eq!(first.hotspot(&vec![9u8; 33]).unwrap().last_updated_at, Some(20));
    for key in [
        format!("beacon_{}_witness_{}", CELL, CELL_PARENT),
        format!("beacon_{}_witness_unknown", CELL),
    ] {
        let x = first.edge(&key).unwrap();
        let y = second.edge(&key).unwrap();
        assert_eq!(x.count, 2);
        assert_eq!(x.count, y.count);
        assert_eq!(x.distance, y.distance);
        assert_eq!(buckets_of(&x.snr_hist), buckets_of(&y.snr_hist));
        assert_eq!(buckets_of(&x.signal_hist), buckets_of(&y.signal_hist));
        assert_eq!(buckets_of(&x.ingest_latency_hist), buckets_of(&y.ingest_latency_hist));
    }
    let shared = first.edge(&format!("beacon_{}_witness_{}", CELL, CELL_PARENT)).unwrap();
    assert_eq!(buckets_of(&shared.snr_hist), vec![(5, 1), (7, 1)]);
    assert_eq!(buckets_of(&shared.signal_hist), vec![(-100, 2)]);
    assert_eq!(buckets_of(&shared.ingest_latency_hist), vec![(100, 1), (250, 1)]);
}

#[test]
fn dropped_report_leaves_the_store_empty() {
    let mut store = MemoryStore::new();
    let answer = store.populate_collections(&report(1, 9, Some(CELL), vec![]), 1);
    assert!(matches!(answer, Ok(None)));
    assert!(!store.beacon_exists(&"AQEB".to_string()));
    assert!(!store.hotspot_exists(&vec![9u8; 33]));
    assert!(store.edge(&"beacon_unknown_witness_unknown".to_string()).is_none());
}

#[test]
fn invalid_report_leaves_the_store_as_it_was() {
    let mut store = MemoryStore::new();
    let answer = store.populate_collections(&report(1, 9, Some(3), vec![witness_report(2, None, 1, 1, 1)]), 1);
    assert!(matches!(answer, Err(PopulateError::Document(DocumentError::InvalidCellIndex(3)))));
    assert!(!store.beacon_exists(&"AQEB".to_string()));
    assert!(!store.hotspot_exists(&vec![9u8; 33]));
    assert!(!store.hotspot_exists(&vec![2u8; 33]));
}

#[test]
fn single_documents_can_be_written() {
    let mut store = MemoryStore::new();
    store.upsert_hotspot(hotspot(1, &["a"], 5, Some(1)));
    store.upsert_hotspot(hotspot(1, &["b"], 6, Some(3)));
    store.upsert_hotspot(hotspot(2, &[], 7, Some(2)));
    let one = store.hotspot(&vec![1u8; 33]).unwrap();
    assert_eq!(one.poc_ids, vec!["a".to_string(), "b".to_string()]);
    assert_eq!(one.gain, Some(6));
    assert_eq!(one.last_updated_at, Some(3));
    assert_eq!(store.hotspot(&vec![2u8; 33]).unwrap().gain, Some(7));
    store.upsert_edge(&edge("k", 1, 2, 3)).unwrap();
    store.upsert_edge(&edge("k", 1, 2, 4)).unwrap();
    store.upsert_edge(&edge("l", 1, 2, 3)).unwrap();
    assert_eq!(store.edge(&"k".to_string()).unwrap().count, 2);
    assert_eq!(store.edge(&"l".to_string()).unwrap().count, 1);
    let entities = build(&report(1, 9, None, vec![witness_report(2, None, 1, 1, 1)]), 0).unwrap().unwrap();
    let poc_id = entities.beacon.poc_id.clone();
    store.insert_beacon(entities.beacon);
    assert!(store.beacon_exists(&poc_id));
    let mut next = MemoryStore::new();
    let entities = build(&report(1, 9, None, vec![witness_report(2, None, 1, 1, 1)]), 0).unwrap().unwrap();
    assert!(next.apply(entities).is_ok());
    assert_eq!(next.edge(&"beacon_unknown_witness_unknown".to_string()).unwrap().count, 1);
}

#[test]
fn file_records_in_the_store() {
    let mut store = MemoryStore::new();
    let file = FileInfo { key: "f1".to_string(), timestamp: 10, size: 3 };
    assert!(!store.file_exists(&file.key));
    assert_eq!(store.get_file_retries(&file.key), 0);
    assert!(store.complete_file(&file.key).is_err());
    assert!(matches!(
        store.increment_file_retry(&file.key),
        Err(DBError::ArangoClientError { error_num: Some(1202) })
    ));
    store.init_file(&file);
    assert!(store.file_exists(&file.key));
    assert!(matches!(store.increment_file_retry(&file.key), Ok(1)));
    assert!(matches!(store.increment_file_retry(&file.key), Ok(2)));
    assert_eq!(store.get_file_retries(&file.key), 2);
    store.init_file(&FileInfo { key: "f1".to_string(), timestamp: 99, size: 99 });
    let record = store.file(&file.key).unwrap();
    assert_eq!(record.retries, 2);
    assert_eq!(record.timestamp, 10);
    assert!(!record.done);
    assert!(store.get_done_file_keys().is_empty());
    store.init_file(&FileInfo { key: "f2".to_string(), timestamp: 20, size: 1 });
    assert!(store.complete_file(&"f2".to_string()).is_ok());
    assert_eq!(store.get_done_file_keys(), vec!["f2".to_string()]);
    assert!(store.complete_file(&"f2".to_string()).is_ok());
    assert!(store.file(&"f2".to_string()).unwrap().done);
    assert!(matches!(store.increment_file_retry(&"f2".to_string()), Ok(1)));
    assert!(store.file(&"f2".to_string()).unwrap().done);
    assert!(!store.file(&"f1".to_string()).unwrap().done);
}

#[test]
fn retry_counter_stops_at_its_end() {
    let mut store = MemoryStore::new();
    let key = "f".to_string();
    store.init_file(&FileInfo { key: key.clone(), timestamp: 1, size: 1 });
    for n in 1..=255u8 {
        assert!(matches!(store.increment_file_retry(&key), Ok(m) if m == n));
    }
    assert_eq!(store.get_file_retries(&key), 255);
    assert!(matches!(store.increment_file_retry(&key), Err(DBError::Other)));
    assert_eq!(store.get_file_retries(&key), 255);
}

fn plain_unindent(s: &str) -> String {
    s.lines().map(|line| line.trim_start()).collect::<Vec<_>>().join("\n")
}

#[test]
fn statements_about_files() {
    assert_eq!(complete_file_query("f1"), "UPDATE 'f1' WITH { done: true } IN files");
    assert_eq!(
        increment_file_retry_query("f1"),
        "UPDATE 'f1' WITH { retries: OLD.retries + 1 } IN files RETURN NEW.retries"
    );
    assert!(matches!(new_count_from_rows(&vec![]), Err(DBError::Other)));
    assert!(matches!(new_count_from_rows(&vec![3]), Ok(3)));
    assert!(matches!(new_count_from_rows(&vec![5, 9]), Ok(5)));
    assert_eq!(done_file_keys_query(), "FOR f IN files FILTER f.done == true RETURN f._key");
    assert_eq!(file_retries_query("f1"), "FOR f in files FILTER f._key == 'f1' RETURN f.retries");
    assert_eq!(file_exists_query("f1"), "FOR f IN files FILTER f._key == \"f1\" RETURN f._key");
    assert_eq!(complete_file_query(""), format!("UPDATE '' WITH {{ done: true }} IN {FILES_COLLECTION}"));
    assert_eq!(retries_from_rows(&vec![]), 0);
    assert_eq!(retries_from_rows(&vec![4]), 4);
    assert_eq!(retries_from_rows(&vec![7, 9]), 7);
    assert!(!exists_from_rows(0));
    assert!(exists_from_rows(1));
    assert!(exists_from_rows(3));
}

#[test]
fn statements_about_documents() {
    assert_eq!(
        beacon_exists_query("AQEB"),
        "FOR b IN beacons FILTER b._key == \"AQEB\" RETURN b.poc_id"
    );
    assert_eq!(
        beacon_exists_query("AQEB"),
        format!(r#"FOR b IN {BEACON_COLLECTION} FILTER b._key == "AQEB" RETURN b.poc_id"#)
    );
    let key = vec![7u8; 33];
    let text = hotspot_key(&key);
    assert_eq!(
        hotspot_exists_query(&key),
        format!(r#"FOR h IN {HOTSPOT_COLLECTION} FILTER h._key == "{text}" RETURN h.pub_key"#)
    );
    assert_eq!(
        hotspot_upsert_query("{\"_key\":\"k\"}"),
        "LET doc = {\"_key\":\"k\"}\nUPSERT { _key: doc._key }\nINSERT doc\nUPDATE MERGE(doc, {\npoc_ids: UNION_DISTINCT(OLD.poc_ids, doc.poc_ids),\nlast_updated_at: MAX([OLD.last_updated_at, doc.last_updated_at])\n})\nIN hotspots"
    );
}

#[test]
fn statement_about_an_edge() {
    let edge = edge("beacon_1_witness_unknown", -5, -1040, 250);
    let witness_edge_key = &edge._key;
    let beacon_pub_key = hotspot_key(&edge.beacon_pub_key);
    let witness_pub_key = hotspot_key(&edge.witness_pub_key);
    let witness_snr = edge.witness_snr;
    let witness_signal = edge.witness_signal;
    let ingest_latency = edge.ingest_latency;
    let distance = 12.5f64;
    let expected = plain_unindent(&format!(
        r#"
             UPSERT {{ _key: "{witness_edge_key}" }}
             INSERT {{
                 _key: "{witness_edge_key}",
                 _from: "{HOTSPOT_COLLECTION}/{beacon_pub_key}",
                 _to: "{HOTSPOT_COLLECTION}/{witness_pub_key}",
                 count: 1,
                 distance: {distance},
                 snr_hist: {{"{witness_snr}": 1}},
                 signal_hist: {{"{witness_signal}": 1}},
                 ingest_latency_hist: {{"{ingest_latency}": 1}}
             }}
             UPDATE {{
                 count: OLD.count + 1,
                 snr_hist: MERGE(OLD.snr_hist, {{"{witness_snr}": OLD.snr_hist["{witness_snr}"] ? OLD.snr_hist["{witness_snr}"] + 1 : 1}}),
                 signal_hist: MERGE(OLD.signal_hist, {{"{witness_signal}": OLD.signal_hist["{witness_signal}"] ? OLD.signal_hist["{witness_signal}"] + 1 : 1}}),
                 ingest_latency_hist: MERGE(OLD.ingest_latency_hist, {{"{ingest_latency}": OLD.ingest_latency_hist["{ingest_latency}"] ? OLD.ingest_latency_hist["{ingest_latency}"] + 1 : 1}})
             }}
             IN {WITNESS_EDGE_COLLECTION}
             "#
    ));
    assert_eq!(edge_upsert_query(&edge, &distance.to_string()), expected);
    assert!(expected.contains("snr_hist: {\"-5\": 1}"));
    assert!(expected.contains("distance: 12.5,"));
}

#[test]
fn counters_can_be_read() {
    let mut hist = Histogram::new();
    assert_eq!(hist.observations(), 0);
    hist.record(1);
    hist.record(2);
    hist.record(1);
    assert_eq!(hist.observations(), 3);
    let mut store = MemoryStore::new();
    assert_eq!(store.witnessings(), 0);
    store.upsert_edge(&edge("k", 1, 2, 3)).unwrap();
    store.upsert_edge(&edge("l", 1, 2, 3)).unwrap();
    assert_eq!(store.witnessings(), 2);
    let poc = report(1, 9, None, vec![witness_report(2, None, 1, 1, 1), witness_report(3, None, 1, 1, 1)]);
    store.populate_collections(&poc, 1).unwrap();
    assert_eq!(store.witnessings(), 4);
}

#[test]
fn full_counter_refuses_a_report_and_changes_nothing() {
    let mut store = MemoryStore::with_witnessings(u64::MAX - 1);
    let poc = report(1, 9, None, vec![witness_report(2, None, 1, 1, 1), witness_report(3, None, 1, 1, 1)]);
    let answer = store.populate_collections(&poc, 1);
    assert!(matches!(answer, Err(PopulateError::Store(DBError::Other))));
    assert!(!store.beacon_exists(&"AQEB".to_string()));
    assert!(!store.hotspot_exists(&vec![9u8; 33]));
    assert!(store.edge(&"beacon_unknown_witness_unknown".to_string()).is_none());
    assert_eq!(store.witnessings(), u64::MAX - 1);
    let entities = build(&poc, 1).unwrap().unwrap();
    assert!(matches!(store.apply(entities), Err(DBError::Other)));
    let single = report(1, 9, None, vec![witness_report(2, None, 1, 1, 1)]);
    assert!(matches!(store.populate_collections(&single, 1), Ok(Some(_))));
    assert_eq!(store.witnessings(), u64::MAX);
    assert!(matches!(store.populate_collections(&single, 1), Err(PopulateError::Store(DBError::Other))));
    assert_eq!(store.edge(&"beacon_unknown_witness_unknown".to_string()).unwrap().count, 1);
}

#[test]
fn full_counter_refuses_a_witnessing_and_changes_nothing() {
    let mut store = MemoryStore::with_witnessings(u64::MAX - 1);
    assert!(store.upsert_edge(&edge("k", 1, 2, 3)).is_ok());
    assert_eq!(store.witnessings(), u64::MAX);
    assert!(matches!(store.upsert_edge(&edge("k", 1, 2, 3)), Err(DBError::Other)));
    assert!(matches!(store.upsert_edge(&edge("l", 1, 2, 3)), Err(DBError::Other)));
    assert_eq!(store.witnessings(), u64::MAX);
    assert_eq!(store.edge(&"k".to_string()).unwrap().count, 1);
    assert!(store.edge(&"l".to_string()).is_none());
}

#[test]
fn one_witnessing_changes_its_edge_only() {
    let mut store = MemoryStore::new();
    store.upsert_edge(&edge("k", 5, -100, 250)).unwrap();
    store.upsert_edge(&edge("l", 6, -110, 300)).unwrap();
    store.upsert_hotspot(hotspot(1, &["a"], 5, Some(1)));
    store.upsert_edge(&edge("k", 7, -100, 0)).unwrap();
    let k = store.edge(&"k".to_string()).unwrap();
    assert_eq!(k.count, 2);
    assert_eq!(buckets_of(&k.snr_hist), vec![(5, 1), (7, 1)]);
    assert_eq!(buckets_of(&k.signal_hist), vec![(-100, 2)]);
    assert_eq!(buckets_of(&k.ingest_latency_hist), vec![(0, 1), (250, 1)]);
    let l = store.edge(&"l".to_string()).unwrap();
    assert_eq!(l.count, 1);
    assert_eq!(buckets_of(&l.snr_hist), vec![(6, 1)]);
    assert_eq!(store.hotspot(&vec![1u8; 33]).unwrap().poc_ids, vec!["a".to_string()]);
}

#[test]
fn two_witnessings_count_the_same_in_either_order() {
    let mut first_edge = edge("k", 5, -100, 250);
    first_edge.beacon_pub_key = vec![8; 33];
    let second_edge = edge("k", 7, -90, 250);
    let mut one = MemoryStore::new();
    one.upsert_edge(&first_edge).unwrap();
    one.upsert_edge(&second_edge).unwrap();
    let mut other = MemoryStore::new();
    other.upsert_edge(&second_edge).unwrap();
    other.upsert_edge(&first_edge).unwrap();
    let x = one.edge(&"k".to_string()).unwrap();
    let y = other.edge(&"k".to_string()).unwrap();
    assert_eq!(x.count, 2);
    assert_eq!(y.count, 2);
    assert_eq!(buckets_of(&x.snr_hist), buckets_of(&y.snr_hist));
    assert_eq!(buckets_of(&x.signal_hist), buckets_of(&y.signal_hist));
    assert_eq!(buckets_of(&x.ingest_latency_hist), vec![(250, 2)]);
    assert_eq!(buckets_of(&y.ingest_latency_hist), vec![(250, 2)]);
    assert_eq!(x.beacon_pub_key, vec![8u8; 33]);
    assert_eq!(y.beacon_pub_key, vec![1u8; 33]);
}
