use vstd::prelude::*;

verus! {

/// Largest permitted gap between a chain key's current iteration and a
/// requested future iteration. Bounds the per-message cost of the forward
/// walk and defends against a peer claiming an enormous iteration.
pub const MAX_FORWARD_JUMPS: usize = 25000;

/// Capacity of the skipped-message-key cache. Inserting beyond it evicts
/// the oldest entry, so the cache cannot grow without bound.
pub const MAX_MESSAGE_KEYS: usize = 2000;

} // verus!
