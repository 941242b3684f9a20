//! Definition of a block type: its display name and color.

use vstd::prelude::*;
use crate::color::Color;

verus! {

/// One block type, as loaded from the block definition assets.
#[derive(Debug, Clone)]
pub struct BlockData {
    pub name: String,
    pub color: Color,
}

} // verus!
