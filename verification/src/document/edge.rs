//! The pairing of a beacon with one of its witnesses.

use crate::document::beacon::{Beacon, BeaconView};
use crate::document::witness::{Distance, Witness, WitnessView};
use crate::document::{clone_bytes, DocumentError};
use crate::text::{
    decimal,
    decimal_string,
    is_decimal_digit,
    lemma_decimal,
    lemma_decimal_injective,
};
use vstd::prelude::*;
use vstd::string::*;

verus! {

/// The text that stands for a cell in an edge key: its index in decimal,
/// or `unknown` where there is none.
pub open spec fn cell_or_unknown(location: Option<u64>) -> Seq<char> {
    match location {
        Some(h3index) => decimal(h3index as nat),
        None => "unknown"@,
    }
}

/// The key of the edge between a beacon and a witness at the given
/// locations.
pub open spec fn edge_key(beacon_loc: Option<u64>, witness_loc: Option<u64>) -> Seq<char> {
    "beacon_"@ + cell_or_unknown(beacon_loc) + "_witness_"@ + cell_or_unknown(witness_loc)
}

/// `text` ends with `suffix`.
pub open spec fn ends_with(text: Seq<char>, suffix: Seq<char>) -> bool {
    text.len() >= suffix.len() && text.subrange(text.len() - suffix.len(), text.len() as int)
        == suffix
}

proof fn lemma_cell_text(location: Option<u64>)
    ensures
        cell_or_unknown(location).len() >= 1,
        forall|i: int|
            0 <= i < cell_or_unknown(location).len() ==> (#[trigger] cell_or_unknown(location)[i])
                != '_',
        location is Some ==> is_decimal_digit(cell_or_unknown(location)[0]),
        location is None ==> !is_decimal_digit(cell_or_unknown(location)[0]),
{
    reveal_strlit("unknown");
    match location {
        Some(h3index) => {
            lemma_decimal(h3index as nat);
            assert forall|i: int| 0 <= i < decimal(h3index as nat).len() implies (
            #[trigger] decimal(h3index as nat)[i]) != '_' by {
                assert(is_decimal_digit(decimal(h3index as nat)[i]));
            }
        },
        None => {},
    }
}

proof fn lemma_same_start(mark: Seq<char>, x: Seq<char>, u: Seq<char>, y: Seq<char>, v: Seq<char>)
    requires
        x + mark + u == y + mark + v,
        mark.len() >= 1,
        mark[0] == '_',
        forall|i: int| 0 <= i < x.len() ==> (#[trigger] x[i]) != '_',
        forall|i: int| 0 <= i < y.len() ==> (#[trigger] y[i]) != '_',
    ensures
        x == y,
        u == v,
{
    let left = x + mark + u;
    let right = y + mark + v;
    if x.len() < y.len() {
        assert(left[x.len() as int] == mark[0]);
        assert(right[x.len() as int] == y[x.len() as int]);
        assert(false);
    }
    if y.len() < x.len() {
        assert(right[y.len() as int] == mark[0]);
        assert(left[y.len() as int] == x[y.len() as int]);
        assert(false);
    }
    assert(x =~= y) by {
        assert forall|i: int| 0 <= i < x.len() implies x[i] == y[i] by {
            assert(left[i] == x[i]);
            assert(right[i] == y[i]);
        }
    }
    assert(u =~= v) by {
        let skip = x.len() + mark.len();
        assert(u.len() == left.len() - skip);
        assert(v.len() == right.len() - skip);
        assert forall|i: int| 0 <= i < u.len() implies u[i] == v[i] by {
            assert(left[skip + i] == u[i]);
            assert(right[skip + i] == v[i]);
        }
    }
}

/// Two pairs of locations with the same edge key are the same pair: no
/// two edges share a key.
pub proof fn lemma_edge_key_injective(
    beacon_a: Option<u64>,
    witness_a: Option<u64>,
    beacon_b: Option<u64>,
    witness_b: Option<u64>,
)
    requires
        edge_key(beacon_a, witness_a) == edge_key(beacon_b, witness_b),
    ensures
        beacon_a == beacon_b,
        witness_a == witness_b,
{
    reveal_strlit("beacon_");
    reveal_strlit("_witness_");
    let head = "beacon_"@;
    let mark = "_witness_"@;
    let xa = cell_or_unknown(beacon_a);
    let xb = cell_or_unknown(beacon_b);
    let ya = cell_or_unknown(witness_a);
    let yb = cell_or_unknown(witness_b);
    lemma_cell_text(beacon_a);
    lemma_cell_text(beacon_b);
    lemma_cell_text(witness_a);
    lemma_cell_text(witness_b);
    let left = head + xa + mark + ya;
    let right = head + xb + mark + yb;
    assert(xa + mark + ya =~= left.subrange(head.len() as int, left.len() as int));
    assert(xb + mark + yb =~= right.subrange(head.len() as int, right.len() as int));
    lemma_same_start(mark, xa, ya, xb, yb);
    lemma_cell_text_injective(beacon_a, beacon_b);
    lemma_cell_text_injective(witness_a, witness_b);
}

proof fn lemma_cell_text_injective(a: Option<u64>, b: Option<u64>)
    requires
        cell_or_unknown(a) == cell_or_unknown(b),
    ensures
        a == b,
{
    lemma_cell_text(a);
    lemma_cell_text(b);
    match (a, b) {
        (Some(x), Some(y)) => {
            lemma_decimal_injective(x as nat, y as nat);
        },
        _ => {},
    }
}

fn cell_text(location: Option<u64>) -> (r: String)
    ensures
        r@ == cell_or_unknown(location),
{
    match location {
        Some(h3index) => decimal_string(h3index),
        None => "unknown".to_owned(),
    }
}

/// Derives the key of the edge between a beacon and a witness from their
/// locations. A missing location is written as `unknown`.
pub fn witness_edge_key(beacon_loc: Option<u64>, witness_loc: Option<u64>) -> (r: String)
    ensures
        r@ == edge_key(beacon_loc, witness_loc),
        witness_loc is None ==> ends_with(r@, "witness_unknown"@),
        beacon_loc is None && witness_loc is None ==> r@ == "beacon_unknown_witness_unknown"@,
{
    let mut key = "beacon_".to_owned();
    let beacon = cell_text(beacon_loc);
    key.append(beacon.as_str());
    key.append("_witness_");
    let witness = cell_text(witness_loc);
    key.append(witness.as_str());
    proof {
        reveal_strlit("beacon_");
        reveal_strlit("_witness_");
        reveal_strlit("unknown");
        reveal_strlit("witness_unknown");
        reveal_strlit("beacon_unknown_witness_unknown");
        if witness_loc is None {
            assert(key@.subrange(key@.len() - 15, key@.len() as int) =~= "witness_unknown"@);
            if beacon_loc is None {
                assert(key@ =~= "beacon_unknown_witness_unknown"@);
            }
        }
    }
    key
}

/// What one witnessing of a beacon adds to the edge between the two
/// places.
#[derive(Debug)]
pub struct Edge {
    pub _key: String,
    pub beacon_pub_key: Vec<u8>,
    pub witness_pub_key: Vec<u8>,
    pub distance: Distance,
    pub witness_snr: i32,
    pub witness_signal: i32,
    pub ingest_latency: i64,
}

/// An edge candidate as contracts see it.
pub struct EdgeView {
    pub key: Seq<char>,
    pub beacon_pub_key: Seq<u8>,
    pub witness_pub_key: Seq<u8>,
    pub distance: Distance,
    pub witness_snr: i32,
    pub witness_signal: i32,
    pub ingest_latency: i64,
}

impl View for Edge {
    type V = EdgeView;

    open spec fn view(&self) -> EdgeView {
        EdgeView {
            key: self._key@,
            beacon_pub_key: self.beacon_pub_key@,
            witness_pub_key: self.witness_pub_key@,
            distance: self.distance,
            witness_snr: self.witness_snr,
            witness_signal: self.witness_signal,
            ingest_latency: self.ingest_latency,
        }
    }
}

/// How long after the beacon the witness report was ingested, in
/// milliseconds: the witness's ingest time minus the beacon's. It is zero
/// where the witness report was ingested before the beacon, and where the
/// difference does not fit.
pub open spec fn ingest_latency(witness_ingest: i64, beacon_ingest: i64) -> i64 {
    if witness_ingest < beacon_ingest {
        0
    } else if witness_ingest - beacon_ingest <= i64::MAX {
        (witness_ingest - beacon_ingest) as i64
    } else {
        0
    }
}

/// The latency is never negative, and it is the difference of the two
/// ingest times wherever that is not negative and fits.
pub proof fn lemma_ingest_latency(witness_ingest: i64, beacon_ingest: i64)
    ensures
        ingest_latency(witness_ingest, beacon_ingest) >= 0,
        0 <= witness_ingest - beacon_ingest <= i64::MAX ==> ingest_latency(
            witness_ingest,
            beacon_ingest,
        ) == witness_ingest - beacon_ingest,
        witness_ingest < beacon_ingest ==> ingest_latency(witness_ingest, beacon_ingest) == 0,
{
}

/// The edge candidate of a beacon and one of its witnesses.
pub open spec fn edge_of(beacon: BeaconView, witness: WitnessView) -> EdgeView {
    EdgeView {
        key: edge_key(beacon.location, witness.location),
        beacon_pub_key: beacon.pub_key,
        witness_pub_key: witness.pub_key,
        distance: witness.distance,
        witness_snr: witness.snr,
        witness_signal: witness.signal,
        ingest_latency: ingest_latency(witness.ingest_time_unix, beacon.ingest_time_unix),
    }
}

impl Edge {
    /// Builds the edge candidate of a beacon and one of its witnesses. It
    /// always succeeds, and its latency is never negative.
    pub fn new(beacon: &Beacon, witness: &Witness) -> (r: Result<Self, DocumentError>)
        ensures
            r matches Ok(edge) && edge@ == edge_of(beacon@, witness@) && edge.ingest_latency >= 0,
    {
        let _key = witness_edge_key(beacon.location, witness.location);
        let ingest_latency = if witness.ingest_time_unix < beacon.ingest_time_unix {
            0
        } else {
            match witness.ingest_time_unix.checked_sub(beacon.ingest_time_unix) {
                Some(latency) => latency,
                None => 0,
            }
        };
        Ok(
            Self {
                _key,
                beacon_pub_key: clone_bytes(&beacon.pub_key),
                witness_pub_key: clone_bytes(&witness.pub_key),
                witness_snr: witness.snr,
                witness_signal: witness.signal,
                distance: witness.distance,
                ingest_latency,
            },
        )
    }
}

} // verus!
