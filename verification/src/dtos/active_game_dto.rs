//! An in-progress match observation. Keyed by the provider's game id, not by
//! the player, so a re-fetch of a still-running match is a no-op.

use vstd::prelude::*;

use crate::keyed::{
    insert_if_absent, unique_keys, upsert_by_key, vec_insert_if_absent, vec_upsert_by_key,
    EventRecord, KeyedRecord,
};
use crate::seq_util::lemma_take_push;
use crate::store::Store;

verus! {

/// One live match, keyed by the provider's game id.
pub struct ActiveGameDto {
    pub id: String,
    pub summoner_id: String,
    pub created_at: Option<i64>,
    pub game_created_at: i64,
    pub champion: String,
    pub role: String,
    pub spectate_link: String,
    pub notified: bool,
    pub game_mode: String,
}

impl KeyedRecord for ActiveGameDto {
    open spec fn key(&self) -> Seq<char> {
        self.id@
    }

    fn key_eq(&self, other: &Self) -> (r: bool) {
        self.id == other.id
    }
}

impl EventRecord for ActiveGameDto {
    open spec fn is_notified(&self) -> bool {
        self.notified
    }
}

impl Clone for ActiveGameDto {
    fn clone(&self) -> (r: Self)
        ensures
            r == *self,
    {
        ActiveGameDto {
            id: self.id.clone(),
            summoner_id: self.summoner_id.clone(),
            created_at: self.created_at,
            game_created_at: self.game_created_at,
            champion: self.champion.clone(),
            role: self.role.clone(),
            spectate_link: self.spectate_link.clone(),
            notified: self.notified,
            game_mode: self.game_mode.clone(),
        }
    }
}

/// The same live match with its event marked as already delivered.
pub open spec fn mark_active(a: ActiveGameDto) -> ActiveGameDto {
    ActiveGameDto { notified: true, ..a }
}

/// The live matches whose events were not delivered yet, in storage order.
pub open spec fn unnotified_active(s: Seq<ActiveGameDto>) -> Seq<ActiveGameDto> {
    s.filter(|a: ActiveGameDto| !a.notified)
}

/// How the unnotified selection grows when one more live match is
/// considered.
pub proof fn lemma_unnotified_active_push(s: Seq<ActiveGameDto>, x: ActiveGameDto)
    ensures
        unnotified_active(s.push(x)) == if !x.notified {
            unnotified_active(s).push(x)
        } else {
            unnotified_active(s)
        },
{
    reveal(Seq::filter);
    assert(s.push(x).drop_last() =~= s);
}

impl ActiveGameDto {
    /// Store this observation, overwriting any stored row with the same game
    /// id.
    pub fn upsert(self, store: &mut Store)
        requires
            old(store).wf(),
        ensures
            final(store).wf(),
            final(store).active_games@ == upsert_by_key(old(store).active_games@, self),
            final(store).guilds@ == old(store).guilds@,
            final(store).summoners@ == old(store).summoners@,
            final(store).games@ == old(store).games@,
            final(store).logs@ == old(store).logs@,
    {
        vec_upsert_by_key(&mut store.active_games, self);
    }

    /// Record a discovered live match; a game id that is already stored is a
    /// silent no-op, so a still-running match never resets its notified
    /// flag.
    pub fn insert_or_ignore(self, store: &mut Store)
        requires
            old(store).wf(),
        ensures
            final(store).wf(),
            final(store).active_games@ == insert_if_absent(old(store).active_games@, self),
            final(store).guilds@ == old(store).guilds@,
            final(store).summoners@ == old(store).summoners@,
            final(store).games@ == old(store).games@,
            final(store).logs@ == old(store).logs@,
    {
        vec_insert_if_absent(&mut store.active_games, self);
    }

    /// The live matches whose events still await delivery.
    pub fn get_unnotified_active_games(store: &Store) -> (r: Vec<ActiveGameDto>)
        ensures
            r@ == unnotified_active(store.active_games@),
    {
        let n = store.active_games.len();
        let mut r: Vec<ActiveGameDto> = Vec::new();
        let mut i: usize = 0;
        while i < n
            invariant
                n == store.active_games@.len(),
                i <= n,
                r@ == unnotified_active(store.active_games@.take(i as int)),
            decreases n - i,
        {
            let a = &store.active_games[i];
            if !a.notified {
                r.push(a.clone());
            }
            proof {
                lemma_take_push(store.active_games@, i as int);
                lemma_unnotified_active_push(
                    store.active_games@.take(i as int),
                    store.active_games@[i as int],
                );
            }
            i += 1;
        }
        proof {
            assert(store.active_games@.take(n as int) =~= store.active_games@);
        }
        r
    }
}

} // verus!
