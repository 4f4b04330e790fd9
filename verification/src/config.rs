//! Service configuration. Empty for now - fields land here once there is
//! something to configure (API keys, etc).
use vstd::prelude::*;

verus! {

#[derive(Clone, Copy, Debug)]
pub struct Config {}

} // verus!
