use vstd::prelude::*;

verus! {

/// A button of a physical control surface.
pub type Pad = u8;

/// Marker for work that may be handed to a control-surface listener that lives
/// as long as the process.
pub trait Workload: std::marker::Send + std::marker::Sync + 'static {}

} // verus!
