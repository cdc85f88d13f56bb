//! Location data derived from a hexagonal cell index.
//!
//! A location is an index into a hierarchical grid of hexagonal cells.
//! Only what can be said in integers and text is derived here: whether the
//! index names a cell, its canonical text, and the coarser cell around it.
//! Coordinates and outlines are a pure function of a cell and are left to
//! whoever needs them.

use crate::document::{opt_text, DocumentError};
use crate::text::{hex_string, lower_hex};
use h3o::{CellIndex, Resolution};
use vstd::prelude::*;

verus! {

/// Resolution of the coarser cells by which locations are grouped.
pub const PARENT_RESOLUTION: u8 = 5;

/// Whether `h3index` names a cell of the grid: what `CellIndex::try_from`
/// decides.
pub uninterp spec fn spec_is_cell_index(h3index: u64) -> bool;

/// The resolution that an index carries.
pub open spec fn cell_resolution(h3index: u64) -> u64 {
    (h3index & 0x00f0_0000_0000_0000u64) >> 52u64
}

/// The index of the cell of resolution `resolution` around the cell
/// `h3index`, if the cell is not coarser than that already: the same index
/// with its resolution set to `resolution` and every finer digit marked
/// unused.
pub open spec fn spec_parent_cell(h3index: u64, resolution: u8) -> Option<u64>
    recommends
        resolution <= 15,
{
    if resolution as u64 <= cell_resolution(h3index) {
        Some(
            ((h3index & !0x00f0_0000_0000_0000u64) | ((resolution as u64) << 52u64)) | ((1u64 << (((
            15 - resolution) * 3) as u64)) - 1) as u64,
        )
    } else {
        None
    }
}

/// `CellIndex::try_from` on a `u64`: says whether the value is the index
/// of a cell. Nothing but the value decides.
#[verifier::external_body]
fn is_cell_index(h3index: u64) -> (r: bool)
    ensures
        r == spec_is_cell_index(h3index),
{
    CellIndex::try_from(h3index).is_ok()
}

/// `CellIndex::parent`: the coarser cell of the given resolution around a
/// cell, as an index. There is none where the cell is coarser than the
/// resolution asked for; otherwise the resolution bits are replaced and
/// the digits below them are set to ones.
#[verifier::external_body]
fn parent_cell(h3index: u64, resolution: u8) -> (r: Option<u64>)
    requires
        spec_is_cell_index(h3index),
        resolution <= 15,
    ensures
        r == spec_parent_cell(h3index, resolution),
{
    match (CellIndex::try_from(h3index), Resolution::try_from(resolution)) {
        (Ok(cell), Ok(res)) => cell.parent(res).map(u64::from),
        _ => None,
    }
}

/// A location: the cell and its canonical text.
#[derive(Debug)]
pub struct LocData {
    /// The cell in lower-case hexadecimal.
    pub str_loc: Option<String>,
    /// The index of the cell.
    pub loc: Option<u64>,
}

/// A location as contracts see it.
pub struct LocDataView {
    pub str_loc: Option<Seq<char>>,
    pub loc: Option<u64>,
}

impl View for LocData {
    type V = LocDataView;

    open spec fn view(&self) -> LocDataView {
        LocDataView {
            str_loc: opt_text(self.str_loc),
            loc: self.loc,
        }
    }
}

/// The location data of a cell that is known to be one.
pub open spec fn located(h3index: u64) -> LocDataView {
    LocDataView { str_loc: Some(lower_hex(h3index as nat)), loc: Some(h3index) }
}

/// The location data of a device without a location.
pub open spec fn unlocated() -> LocDataView {
    LocDataView { str_loc: None, loc: None }
}

/// What `LocData::from_h3` answers.
pub open spec fn spec_loc_data(location: Option<u64>) -> Result<LocDataView, DocumentError> {
    match location {
        None => Ok(unlocated()),
        Some(h3index) => if spec_is_cell_index(h3index) {
            Ok(located(h3index))
        } else {
            Err(DocumentError::InvalidCellIndex(h3index))
        },
    }
}

/// What `ParentLocData::from_h3` answers.
pub open spec fn spec_parent_loc_data(location: Option<u64>) -> Result<
    LocDataView,
    DocumentError,
> {
    match location {
        None => Ok(unlocated()),
        Some(h3index) => if spec_is_cell_index(h3index) {
            match spec_parent_cell(h3index, PARENT_RESOLUTION) {
                Some(parent) => Ok(located(parent)),
                None => Ok(unlocated()),
            }
        } else {
            Err(DocumentError::InvalidCellIndex(h3index))
        },
    }
}

/// The view of an answer.
pub open spec fn loc_result_view(r: Result<LocData, DocumentError>) -> Result<
    LocDataView,
    DocumentError,
> {
    match r {
        Ok(data) => Ok(data@),
        Err(e) => Err(e),
    }
}

impl LocData {
    fn new(str_loc: Option<String>, loc: Option<u64>) -> (r: Self)
        ensures
            r.str_loc == str_loc,
            r.loc == loc,
    {
        Self { str_loc, loc }
    }

    /// The location data of a device without a location.
    pub fn none() -> (r: Self)
        ensures
            r@ == unlocated(),
    {
        LocData::new(None, None)
    }

    /// Derives the location data of an optional cell index. An absent
    /// index gives absent data; an index that names no cell is an error.
    pub fn from_h3(location: Option<u64>) -> (r: Result<Self, DocumentError>)
        ensures
            loc_result_view(r) == spec_loc_data(location),
    {
        match location {
            Some(h3index) => {
                if !is_cell_index(h3index) {
                    return Err(DocumentError::InvalidCellIndex(h3index));
                }
                Ok(LocData::new(Some(hex_string(h3index)), Some(h3index)))
            },
            None => Ok(LocData::none()),
        }
    }
}

/// The coarser cell around a location, with its canonical text.
#[derive(Debug)]
pub struct ParentLocData {
    /// The coarser cell in lower-case hexadecimal.
    pub str_loc: Option<String>,
    /// The index of the coarser cell.
    pub loc: Option<u64>,
}

impl View for ParentLocData {
    type V = LocDataView;

    open spec fn view(&self) -> LocDataView {
        LocDataView {
            str_loc: opt_text(self.str_loc),
            loc: self.loc,
        }
    }
}

/// The view of an answer.
pub open spec fn parent_loc_result_view(r: Result<ParentLocData, DocumentError>) -> Result<
    LocDataView,
    DocumentError,
> {
    match r {
        Ok(data) => Ok(data@),
        Err(e) => Err(e),
    }
}

impl ParentLocData {
    fn new(str_loc: Option<String>, loc: Option<u64>) -> (r: Self)
        ensures
            r.str_loc == str_loc,
            r.loc == loc,
    {
        Self { str_loc, loc }
    }

    /// The data of a location without a coarser cell.
    pub fn none() -> (r: Self)
        ensures
            r@ == unlocated(),
    {
        ParentLocData::new(None, None)
    }

    /// Derives the coarser cell around an optional cell index. An absent
    /// index gives absent data, and so does a cell that is coarser than the
    /// grouping resolution; an index that names no cell is an error.
    pub fn from_h3(location: Option<u64>) -> (r: Result<ParentLocData, DocumentError>)
        ensures
            parent_loc_result_view(r) == spec_parent_loc_data(location),
    {
        match location {
            Some(h3index) => {
                if !is_cell_index(h3index) {
                    return Err(DocumentError::InvalidCellIndex(h3index));
                }
                match parent_cell(h3index, PARENT_RESOLUTION) {
                    Some(parent) => Ok(
                        ParentLocData::new(Some(hex_string(parent)), Some(parent)),
                    ),
                    None => Ok(ParentLocData::none()),
                }
            },
            None => Ok(ParentLocData::none()),
        }
    }
}

} // verus!
