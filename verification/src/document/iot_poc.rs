//! A decoded proof-of-coverage report, as the documents are built from it.
//!
//! Times are in milliseconds since the Unix epoch, but for the time at
//! which a device says it sent or heard a packet, which is in nanoseconds.
//! A public key is the string of its bytes.

use vstd::prelude::*;

verus! {

/// A decimal number: `mantissa` divided by ten to the power of `scale`.
#[derive(Debug, Clone, Copy, PartialEq, Eq, Structural)]
pub struct DecimalValue {
    pub mantissa: i128,
    pub scale: u32,
}

/// What a beaconing device reports of its transmission.
#[derive(Debug)]
pub struct IotBeaconReport {
    pub pub_key: Vec<u8>,
    pub frequency: u64,
    pub channel: i32,
    pub tx_power: i32,
    /// When the device sent the beacon, in nanoseconds since the epoch.
    pub timestamp: i64,
    pub tmst: u32,
}

/// A beacon report that passed verification.
#[derive(Debug)]
pub struct IotValidBeaconReport {
    /// When the report was ingested.
    pub received_timestamp: i64,
    /// The cell that the device asserts as its location, if it has one.
    pub location: Option<u64>,
    pub gain: i32,
    pub elevation: i32,
    pub hex_scale: DecimalValue,
    pub reward_unit: DecimalValue,
    pub report: IotBeaconReport,
}

/// What a witnessing device reports of a beacon that it heard.
#[derive(Debug)]
pub struct IotWitnessReport {
    pub pub_key: Vec<u8>,
    /// When the device heard the beacon, in nanoseconds since the epoch.
    pub timestamp: i64,
    pub tmst: u32,
    pub signal: i32,
    pub snr: i32,
    pub frequency: u64,
}

/// A witness report with the verdict on it.
#[derive(Debug)]
pub struct IotVerifiedWitnessReport {
    /// When the report was ingested.
    pub received_timestamp: i64,
    /// Code of the verification status.
    pub status: i32,
    pub report: IotWitnessReport,
    /// The cell that the device asserts as its location, if it has one.
    pub location: Option<u64>,
    pub gain: i32,
    pub elevation: i32,
    pub hex_scale: DecimalValue,
    pub reward_unit: DecimalValue,
    /// Code of the reason for which the report is invalid, if it is.
    pub invalid_reason: i32,
    /// Code of the side that made the report invalid, if it is.
    pub participant_side: i32,
}

/// One proof of coverage: a beacon and the reports of those who heard it.
#[derive(Debug)]
pub struct IotPoc {
    /// Opaque identifier of the proof.
    pub poc_id: Vec<u8>,
    pub beacon_report: IotValidBeaconReport,
    /// The witnesses that were selected for reward.
    pub selected_witnesses: Vec<IotVerifiedWitnessReport>,
    /// The witnesses that were not.
    pub unselected_witnesses: Vec<IotVerifiedWitnessReport>,
}

impl IotPoc {
    /// How many witnesses the report carries.
    pub open spec fn witness_count(&self) -> nat {
        self.selected_witnesses@.len() + self.unselected_witnesses@.len()
    }
}

} // verus!
