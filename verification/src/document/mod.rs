//! The documents that a report turns into, and the file records.

pub mod beacon;
pub mod edge;
pub mod hotspot;
pub mod iot_poc;
pub mod iot_poc_file;
pub mod loc_data;
pub mod witness;

pub use beacon::Beacon;
pub use edge::Edge;
pub use hotspot::Hotspot;
pub use witness::{Witness, Witnesses};

use angry_purple_tiger::AnimalName;
use helium_crypto::PublicKeyBinary;
use vstd::prelude::*;

verus! {

/// The canonical text of a public key: what `PublicKeyBinary` displays for
/// the key's bytes.
pub uninterp spec fn spec_pub_key_text(pub_key: Seq<u8>) -> Seq<char>;

/// The three-word name that `AnimalName` derives from a text.
pub uninterp spec fn spec_animal_name(text: Seq<char>) -> Seq<char>;

/// The name under which the device with the given public key goes.
pub open spec fn hotspot_name(pub_key: Seq<u8>) -> Seq<char> {
    spec_animal_name(spec_pub_key_text(pub_key))
}

/// `PublicKeyBinary::from` on the bytes of a key, then `to_string`: the
/// key in its canonical text form. Every sequence of bytes has one, and
/// it depends on the bytes alone.
#[verifier::external_body]
pub(crate) fn pub_key_text(pub_key: &Vec<u8>) -> (r: String)
    ensures
        r@ == spec_pub_key_text(pub_key@),
{
    PublicKeyBinary::from(pub_key.clone()).to_string()
}

/// `str::parse::<AnimalName>`, then `to_string`: the name derived from a
/// text. Parsing cannot fail, and the name depends on the text alone.
#[verifier::external_body]
pub(crate) fn animal_name(text: &String) -> (r: String)
    ensures
        r@ == spec_animal_name(text@),
{
    match text.parse::<AnimalName>() {
        Ok(name) => name.to_string(),
        Err(never) => match never {},
    }
}

/// The key under which the hotspot of the device with the given public
/// key is stored: the public key in its canonical text form.
pub fn hotspot_key(pub_key: &Vec<u8>) -> (r: String)
    ensures
        r@ == spec_pub_key_text(pub_key@),
{
    pub_key_text(pub_key)
}

/// The name under which the device with the given public key goes. Every
/// key has a name.
pub fn get_name(pub_key: &Vec<u8>) -> (r: Result<String, DocumentError>)
    ensures
        r matches Ok(name) && name@ == hotspot_name(pub_key@),
{
    let text = pub_key_text(pub_key);
    Ok(animal_name(&text))
}

/// A copy of a byte string.
pub fn clone_bytes(bytes: &Vec<u8>) -> (r: Vec<u8>)
    ensures
        r@ == bytes@,
{
    let r = bytes.clone();
    assert(r@ =~= bytes@);
    r
}

/// Says whether two byte strings are the same.
pub fn bytes_eq(a: &Vec<u8>, b: &Vec<u8>) -> (r: bool)
    ensures
        r == (a@ == b@),
{
    if a.len() != b.len() {
        return false;
    }
    let mut i: usize = 0;
    while i < a.len()
        invariant
            i <= a.len(),
            a.len() == b.len(),
            forall|j: int| 0 <= j < i ==> a@[j] == b@[j],
        decreases a.len() - i,
    {
        if a[i] != b[i] {
            return false;
        }
        i += 1;
    }
    assert(a@ =~= b@);
    true
}

/// The view of an optional text.
pub open spec fn opt_text(text: Option<String>) -> Option<Seq<char>> {
    match text {
        Some(s) => Some(s@),
        None => None,
    }
}

/// A copy of an optional text.
pub fn clone_opt_text(text: &Option<String>) -> (r: Option<String>)
    ensures
        r == *text,
{
    match text {
        Some(s) => Some(s.clone()),
        None => None,
    }
}

/// Why a report cannot be turned into documents.
#[derive(Debug, Clone, Copy, PartialEq, Eq, Structural)]
pub enum DocumentError {
    /// A location of the report is no index of a cell.
    InvalidCellIndex(u64),
}

/// Collection of the beacon documents.
pub const BEACON_COLLECTION: &'static str = "beacons";

/// Collection of the hotspot documents.
pub const HOTSPOT_COLLECTION: &'static str = "hotspots";

/// Collection of the beacon-to-witness edges.
pub const WITNESS_EDGE_COLLECTION: &'static str = "witnesses";

/// Collection of the file records.
pub const FILES_COLLECTION: &'static str = "files";

} // verus!
