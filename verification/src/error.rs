//! The pipeline's error taxonomy.

use vstd::prelude::*;

verus! {

/// A typed failure of a pipeline stage.
///
/// Every stage reports failure through this type; the chain propagates the
/// first failure verbatim. I/O and parsing failures belong to the collector
/// layer around the library and are not part of this taxonomy.
#[derive(Debug, Clone)]
pub enum Error {
    /// A ball-value construction attempt fell outside its domain's range;
    /// carries the offending value.
    InvalidBallValue(u8),
    /// A stage required a context attribute that is not present (or holds a
    /// value of another type); carries the attribute name.
    ContextAttrNotExist(String),
    /// Catch-all for invariant violations not otherwise classified.
    OtherFailure(String),
}

} // verus!
