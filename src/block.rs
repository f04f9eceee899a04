use vstd::prelude::*;

verus! {

/// The largest protocol id of a block state.
pub const MAX_STATE: u32 = 20341;

/// A representation of a state a block can be in.
///
/// For example, a stone block only has one state but each possible stair
/// rotation is a different state.
#[derive(Copy, Clone, PartialEq, Eq, Hash, Debug, Structural)]
pub struct BlockState {
    /// The protocol ID for the block state. IDs may change every
    /// version, so you shouldn't hard-code them or store them in databases.
    pub id: u32,
}

impl BlockState {
    /// The state of air, the state with id 0.
    pub fn air() -> (r: BlockState)
        ensures
            r.id == 0,
    {
        BlockState { id: 0 }
    }

    /// The largest valid state id.
    pub fn max_state() -> (r: u32)
        ensures
            r == MAX_STATE,
    {
        MAX_STATE
    }

    /// The block state with id `state_id`, which must be a valid state.
    pub fn from_u32_unchecked(state_id: u32) -> (r: BlockState)
        requires
            state_id <= MAX_STATE,
        ensures
            r.id == state_id,
    {
        BlockState { id: state_id }
    }

    pub fn is_valid_state(state_id: u32) -> (r: bool)
        ensures
            r == (state_id <= MAX_STATE),
    {
        state_id <= MAX_STATE
    }

    /// Safely converts a state id to a block state.
    pub fn try_from(state_id: u32) -> (r: Result<BlockState, ()>)
        ensures
            state_id <= MAX_STATE ==> r == Ok::<BlockState, ()>(BlockState { id: state_id }),
            state_id > MAX_STATE ==> r.is_err(),
    {
        if Self::is_valid_state(state_id) {
            Ok(Self::from_u32_unchecked(state_id))
        } else {
            Err(())
        }
    }
}

impl Default for BlockState {
    fn default() -> (r: BlockState)
        ensures
            r.id == 0,
    {
        BlockState::air()
    }
}

} // verus!
