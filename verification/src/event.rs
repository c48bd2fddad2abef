use vstd::prelude::*;

verus! {

/// The event record the library ships with: who did what, and when (seconds
/// since the Unix epoch).
#[derive(Clone, Debug)]
pub struct Event {
    pub user_id: String,
    pub action: String,
    pub timestamp: u64,
}

} // verus!
