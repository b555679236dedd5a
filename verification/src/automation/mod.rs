pub mod anchor;
pub mod hit_response;

use vstd::prelude::*;

verus! {

/// The position that seeking through an automation last stopped at.
pub struct AutomationSeekCache {
    index: usize,
}

} // verus!
