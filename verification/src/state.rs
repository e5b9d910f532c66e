//! What the last export left behind.

use vstd::prelude::*;
use std::collections::HashMap;
use crate::store::Attribute;

verus! {

/// The state of the exporter.
pub struct ParquetState {
    /// The column of each attribute id.
    pub type_to_column: HashMap<usize, usize>,
    /// The clusters that the last export wrote, detected or configured.
    pub component_clusters: Vec<Vec<Attribute>>,
}

impl Default for ParquetState {
    /// The state before any export: no column and no cluster.
    fn default() -> (r: ParquetState)
        ensures
            r.type_to_column@ == Map::<usize, usize>::empty(),
            r.component_clusters@ == Seq::<Vec<Attribute>>::empty(),
    {
        ParquetState { type_to_column: HashMap::new(), component_clusters: Vec::new() }
    }
}

} // verus!
