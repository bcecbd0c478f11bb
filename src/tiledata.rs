//! Identification of a tile within the catalog.
use vstd::prelude::*;

verus! {

/// Which pack, picture sheet, row and column a tile comes from.
#[derive(Clone)]
pub struct SerialNumber {
    pub packid: u8,
    pub picname: String,
    pub id: u8,
    pub sub_id: u8,
}

} // verus!
