//! The transactional row store that backs the engine: one in-memory table
//! per entity kind, with unique dedup keys as its well-formedness invariant.
//! Every operation on it is a single atomic state transition; the engine
//! never needs a transaction spanning more than one of them.

use vstd::prelude::*;

use crate::dtos::active_game_dto::ActiveGameDto;
use crate::dtos::game_dto::GameDto;
use crate::dtos::guild_dto::{unique_guild_ids, GuildDto};
use crate::dtos::log_dto::LogDto;
use crate::dtos::summoner_dto::SummonerDto;
use crate::keyed::unique_keys;

verus! {

/// The five tables: guilds, summoners, games, active games, and the
/// append-only diagnostic log.
pub struct Store {
    pub guilds: Vec<GuildDto>,
    pub summoners: Vec<SummonerDto>,
    pub games: Vec<GameDto>,
    pub active_games: Vec<ActiveGameDto>,
    pub logs: Vec<LogDto>,
}

impl Store {
    /// Each table's dedup key is unique: guild ids, summoner ids, match ids,
    /// and live-match ids each occur at most once.
    pub open spec fn wf(&self) -> bool {
        &&& unique_guild_ids(self.guilds@)
        &&& unique_keys(self.summoners@)
        &&& unique_keys(self.games@)
        &&& unique_keys(self.active_games@)
    }

    /// An empty store, as a fresh deployment starts with.
    pub fn new() -> (r: Store)
        ensures
            r.wf(),
            r.guilds@ == Seq::<GuildDto>::empty(),
            r.summoners@ == Seq::<SummonerDto>::empty(),
            r.games@ == Seq::<GameDto>::empty(),
            r.active_games@ == Seq::<ActiveGameDto>::empty(),
            r.logs@ == Seq::<LogDto>::empty(),
    {
        Store {
            guilds: Vec::new(),
            summoners: Vec::new(),
            games: Vec::new(),
            active_games: Vec::new(),
            logs: Vec::new(),
        }
    }
}

} // verus!
