//! The statements that are sent to the store.
//!
//! Each statement is a text in the store's query language, put together
//! from fixed parts and the values that it is about. A write that has to
//! hold under concurrent writers is a single statement: it inserts the
//! document, or merges into the one that is there.

use crate::document::edge::{Edge, EdgeView};
use crate::document::{hotspot_key, spec_pub_key_text};
use crate::handler::arangodb::DBError;
use crate::text::{signed_decimal, signed_decimal_string};
use vstd::prelude::*;
use vstd::string::*;

verus! {

/// The statement that marks the file with the given key done.
pub open spec fn complete_file_text(key: Seq<char>) -> Seq<char> {
    "UPDATE '"@ + key + "' WITH { done: true } IN files"@
}

/// The statement that marks the file with the given key done.
pub fn complete_file_query(key: &str) -> (r: String)
    ensures
        r@ == complete_file_text(key@),
{
    let mut query = "UPDATE '".to_owned();
    query.append(key);
    query.append("' WITH { done: true } IN files");
    query
}

/// The statement that counts one more failed pass over the file with the
/// given key and asks for the new count.
pub open spec fn increment_file_retry_text(key: Seq<char>) -> Seq<char> {
    "UPDATE '"@ + key + "' WITH { retries: OLD.retries + 1 } IN files RETURN NEW.retries"@
}

/// The statement that counts one more failed pass over the file with the
/// given key and asks for the new count.
pub fn increment_file_retry_query(key: &str) -> (r: String)
    ensures
        r@ == increment_file_retry_text(key@),
{
    let mut query = "UPDATE '".to_owned();
    query.append(key);
    query.append("' WITH { retries: OLD.retries + 1 } IN files RETURN NEW.retries");
    query
}

/// The new retry count that the store's answer to an increment stands
/// for: the first row. An answer without a row is an error.
pub fn new_count_from_rows(rows: &Vec<u8>) -> (r: Result<u8, DBError>)
    ensures
        match r {
            Ok(n) => rows.len() > 0 && n == rows@[0],
            Err(e) => rows.len() == 0 && e is Other,
        },
{
    if rows.len() == 0 {
        Err(DBError::Other)
    } else {
        Ok(rows[0])
    }
}

/// The statement that asks for the keys of the files that are done.
pub fn done_file_keys_query() -> (r: String)
    ensures
        r@ == "FOR f IN files FILTER f.done == true RETURN f._key"@,
{
    "FOR f IN files FILTER f.done == true RETURN f._key".to_owned()
}

/// The statement that asks how often the file with the given key has
/// failed.
pub open spec fn file_retries_text(key: Seq<char>) -> Seq<char> {
    "FOR f in files FILTER f._key == '"@ + key + "' RETURN f.retries"@
}

/// The statement that asks how often the file with the given key has
/// failed.
pub fn file_retries_query(key: &str) -> (r: String)
    ensures
        r@ == file_retries_text(key@),
{
    let mut query = "FOR f in files FILTER f._key == '".to_owned();
    query.append(key);
    query.append("' RETURN f.retries");
    query
}

/// The retry count that the store's answer stands for: the first row, or
/// zero where the store holds no record of the file.
pub fn retries_from_rows(rows: &Vec<u8>) -> (r: u8)
    ensures
        r == if rows.len() == 0 {
            0
        } else {
            rows@[0]
        },
{
    if rows.len() == 0 {
        0
    } else {
        rows[0]
    }
}

/// The statement that asks whether there is a record of the file with the
/// given key.
pub open spec fn file_exists_text(key: Seq<char>) -> Seq<char> {
    "FOR f IN files FILTER f._key == \""@ + key + "\" RETURN f._key"@
}

/// The statement that asks whether there is a record of the file with the
/// given key.
pub fn file_exists_query(key: &str) -> (r: String)
    ensures
        r@ == file_exists_text(key@),
{
    let mut query = "FOR f IN files FILTER f._key == \"".to_owned();
    query.append(key);
    query.append("\" RETURN f._key");
    query
}

/// The statement that asks whether there is a hotspot of the device with
/// the given public key.
pub open spec fn hotspot_exists_text(pub_key: Seq<u8>) -> Seq<char> {
    "FOR h IN hotspots FILTER h._key == \""@ + spec_pub_key_text(pub_key) + "\" RETURN h.pub_key"@
}

/// The statement that asks whether there is a hotspot of the device with
/// the given public key.
pub fn hotspot_exists_query(pub_key: &Vec<u8>) -> (r: String)
    ensures
        r@ == hotspot_exists_text(pub_key@),
{
    let mut query = "FOR h IN hotspots FILTER h._key == \"".to_owned();
    let key = hotspot_key(pub_key);
    query.append(key.as_str());
    query.append("\" RETURN h.pub_key");
    query
}

/// The statement that asks whether there is a beacon with the given
/// identifier.
pub open spec fn beacon_exists_text(poc_id: Seq<char>) -> Seq<char> {
    "FOR b IN beacons FILTER b._key == \""@ + poc_id + "\" RETURN b.poc_id"@
}

/// The statement that asks whether there is a beacon with the given
/// identifier.
pub fn beacon_exists_query(poc_id: &str) -> (r: String)
    ensures
        r@ == beacon_exists_text(poc_id@),
{
    let mut query = "FOR b IN beacons FILTER b._key == \"".to_owned();
    query.append(poc_id);
    query.append("\" RETURN b.poc_id");
    query
}

/// Whether the store's answer to a question of existence says yes: it
/// does as soon as it has a row.
pub fn exists_from_rows(rows: usize) -> (r: bool)
    ensures
        r == (rows > 0),
{
    rows > 0
}

/// The statement that writes a hotspot. `doc` is the hotspot in the form
/// in which it is stored. A new hotspot is inserted as it comes; an
/// existing one takes over the incoming document, but lists the beacons
/// of both and keeps the later of the two update times.
pub open spec fn hotspot_upsert_text(doc: Seq<char>) -> Seq<char> {
    "LET doc = "@ + doc
        + "\nUPSERT { _key: doc._key }\nINSERT doc\nUPDATE MERGE(doc, {\npoc_ids: UNION_DISTINCT(OLD.poc_ids, doc.poc_ids),\nlast_updated_at: MAX([OLD.last_updated_at, doc.last_updated_at])\n})\nIN hotspots"@
}

/// The statement that writes a hotspot, given the hotspot in the form in
/// which it is stored.
pub fn hotspot_upsert_query(doc: &str) -> (r: String)
    ensures
        r@ == hotspot_upsert_text(doc@),
{
    let mut query = "LET doc = ".to_owned();
    query.append(doc);
    query.append(
        "\nUPSERT { _key: doc._key }\nINSERT doc\nUPDATE MERGE(doc, {\npoc_ids: UNION_DISTINCT(OLD.poc_ids, doc.poc_ids),\nlast_updated_at: MAX([OLD.last_updated_at, doc.last_updated_at])\n})\nIN hotspots",
    );
    query
}

/// The part of the edge statement that counts `value` once more in the
/// histogram `name`.
pub open spec fn bump_text(name: Seq<char>, value: Seq<char>) -> Seq<char> {
    name + ": MERGE(OLD."@ + name + ", {\""@ + value + "\": OLD."@ + name + "[\""@ + value
        + "\"] ? OLD."@ + name + "[\""@ + value + "\"] + 1 : 1})"@
}

fn bump_part(name: &str, value: &str) -> (r: String)
    ensures
        r@ == bump_text(name@, value@),
{
    let mut part = name.to_owned();
    part.append(": MERGE(OLD.");
    part.append(name);
    part.append(", {\"");
    part.append(value);
    part.append("\": OLD.");
    part.append(name);
    part.append("[\"");
    part.append(value);
    part.append("\"] ? OLD.");
    part.append(name);
    part.append("[\"");
    part.append(value);
    part.append("\"] + 1 : 1})");
    part
}

/// The statement that writes one witnessing to its edge. `distance` is
/// the distance between the two devices as the store takes it. A new edge
/// starts with a count of one and one observation in each histogram; an
/// existing one counts one more and bumps the bucket of each observed
/// value.
pub open spec fn edge_upsert_text(edge: EdgeView, distance: Seq<char>) -> Seq<char> {
    let snr = signed_decimal(edge.witness_snr as int);
    let signal = signed_decimal(edge.witness_signal as int);
    let latency = signed_decimal(edge.ingest_latency as int);
    "\nUPSERT { _key: \""@ + edge.key + "\" }\nINSERT {\n_key: \""@ + edge.key
        + "\",\n_from: \"hotspots/"@ + spec_pub_key_text(edge.beacon_pub_key)
        + "\",\n_to: \"hotspots/"@ + spec_pub_key_text(edge.witness_pub_key)
        + "\",\ncount: 1,\ndistance: "@ + distance + ",\nsnr_hist: {\""@ + snr
        + "\": 1},\nsignal_hist: {\""@ + signal + "\": 1},\ningest_latency_hist: {\""@ + latency
        + "\": 1}\n}\nUPDATE {\ncount: OLD.count + 1,\n"@ + bump_text("snr_hist"@, snr) + ",\n"@
        + bump_text("signal_hist"@, signal) + ",\n"@ + bump_text("ingest_latency_hist"@, latency)
        + "\n}\nIN witnesses\n"@
}

/// The statement that writes one witnessing to its edge, given the
/// distance between the two devices as the store takes it.
pub fn edge_upsert_query(edge: &Edge, distance: &str) -> (r: String)
    ensures
        r@ == edge_upsert_text(edge@, distance@),
{
    let snr = signed_decimal_string(edge.witness_snr as i64);
    let signal = signed_decimal_string(edge.witness_signal as i64);
    let latency = signed_decimal_string(edge.ingest_latency);
    let from = hotspot_key(&edge.beacon_pub_key);
    let to = hotspot_key(&edge.witness_pub_key);
    let snr_part = bump_part("snr_hist", snr.as_str());
    let signal_part = bump_part("signal_hist", signal.as_str());
    let latency_part = bump_part("ingest_latency_hist", latency.as_str());
    let mut query = "\nUPSERT { _key: \"".to_owned();
    query.append(edge._key.as_str());
    query.append("\" }\nINSERT {\n_key: \"");
    query.append(edge._key.as_str());
    query.append("\",\n_from: \"hotspots/");
    query.append(from.as_str());
    query.append("\",\n_to: \"hotspots/");
    query.append(to.as_str());
    query.append("\",\ncount: 1,\ndistance: ");
    query.append(distance);
    query.append(",\nsnr_hist: {\"");
    query.append(snr.as_str());
    query.append("\": 1},\nsignal_hist: {\"");
    query.append(signal.as_str());
    query.append("\": 1},\ningest_latency_hist: {\"");
    query.append(latency.as_str());
    query.append("\": 1}\n}\nUPDATE {\ncount: OLD.count + 1,\n");
    query.append(snr_part.as_str());
    query.append(",\n");
    query.append(signal_part.as_str());
    query.append(",\n");
    query.append(latency_part.as_str());
    query.append("\n}\nIN witnesses\n");
    query
}

} // verus!
