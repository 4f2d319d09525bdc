//! Identifiers of kernel shapes.

use vstd::prelude::*;

use crate::text::{concat, decimal, decimal_string};

verus! {

#[derive(Debug, Clone, Copy, PartialEq, Eq, PartialOrd, Ord, Hash, Default, Structural)]
pub struct ShapeId(pub u64);

impl ShapeId {
    /// Text form of the id, `shape#<n>`.
    pub fn to_string(&self) -> (s: String)
        ensures
            s@ == "shape#"@ + decimal(self.0 as nat),
    {
        let digits = decimal_string(self.0);
        concat("shape#", digits.as_str())
    }
}

/// The id that no live shape ever carries.
pub fn invalid_shape_id() -> (id: ShapeId)
    ensures
        id.0 == u64::MAX,
{
    ShapeId(u64::MAX)
}

} // verus!
