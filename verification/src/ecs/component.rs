use vstd::prelude::*;

verus! {

/// Marker of the types that can be stored as components.
pub trait Component: 'static + Send + Sync {

}

} // verus!
