//! The persisted entity kinds: tracked groups (guilds), tracked players
//! (summoners), finished matches (games), in-progress matches (active
//! games), and the append-only diagnostic log.

pub mod active_game_dto;
pub mod game_dto;
pub mod guild_dto;
pub mod log_dto;
pub mod summoner_dto;

use vstd::prelude::*;

verus! {

/// Clone an optional owned string, field for field.
pub(crate) fn clone_opt_string(o: &Option<String>) -> (r: Option<String>)
    ensures
        r == *o,
{
    match o {
        Some(s) => Some(s.clone()),
        None => None,
    }
}

} // verus!
