//! A finished match for one tracked player. The provider-stable match id is
//! the dedup key; once stored, the only field that ever changes is the
//! `notified` flag, and only from false to true.

use vstd::prelude::*;

use crate::dtos::clone_opt_string;
use crate::keyed::{
    insert_if_absent, unique_keys, upsert_by_key, vec_insert_if_absent, vec_upsert_by_key,
    EventRecord, KeyedRecord,
};
use crate::seq_util::lemma_take_push;
use crate::store::Store;

verus! {

/// One completed match, keyed by the provider's globally unique match id.
pub struct GameDto {
    pub id: String,
    pub summoner_id: String,
    pub created_at: Option<i64>,
    pub updated_at: Option<i64>,
    pub game_created_at: i64,
    pub assists: i64,
    pub deaths: i64,
    pub kills: i64,
    pub win: bool,
    pub notified: bool,
    pub champion_name: String,
    pub game_mode: String,
    pub lp_change: Option<i64>,
    pub promotion_text: Option<String>,
}

impl KeyedRecord for GameDto {
    open spec fn key(&self) -> Seq<char> {
        self.id@
    }

    fn key_eq(&self, other: &Self) -> (r: bool) {
        self.id == other.id
    }
}

impl EventRecord for GameDto {
    open spec fn is_notified(&self) -> bool {
        self.notified
    }
}

impl Clone for GameDto {
    fn clone(&self) -> (r: Self)
        ensures
            r == *self,
    {
        GameDto {
            id: self.id.clone(),
            summoner_id: self.summoner_id.clone(),
            created_at: self.created_at,
            updated_at: self.updated_at,
            game_created_at: self.game_created_at,
            assists: self.assists,
            deaths: self.deaths,
            kills: self.kills,
            win: self.win,
            notified: self.notified,
            champion_name: self.champion_name.clone(),
            game_mode: self.game_mode.clone(),
            lp_change: self.lp_change,
            promotion_text: clone_opt_string(&self.promotion_text),
        }
    }
}

/// The same match with its event marked as already delivered.
pub open spec fn mark_game(g: GameDto) -> GameDto {
    GameDto { notified: true, ..g }
}

/// Every match marked as already delivered.
pub open spec fn mark_all_games(s: Seq<GameDto>) -> Seq<GameDto> {
    s.map_values(|g: GameDto| mark_game(g))
}

/// The matches of the player `sid` whose events were not delivered yet, in
/// storage order.
pub open spec fn unnotified_for(s: Seq<GameDto>, sid: Seq<char>) -> Seq<GameDto> {
    s.filter(|g: GameDto| !g.notified && g.summoner_id@ == sid)
}

/// How the unnotified selection grows when one more stored match is
/// considered.
pub proof fn lemma_unnotified_for_push(s: Seq<GameDto>, x: GameDto, sid: Seq<char>)
    ensures
        unnotified_for(s.push(x), sid) == if !x.notified && x.summoner_id@ == sid {
            unnotified_for(s, sid).push(x)
        } else {
            unnotified_for(s, sid)
        },
{
    reveal(Seq::filter);
    assert(s.push(x).drop_last() =~= s);
}

impl GameDto {
    /// Record a freshly fetched match; a match id that is already stored is
    /// a silent no-op, so a re-fetch never resets the notified flag.
    pub fn insert_or_ignore(self, store: &mut Store)
        requires
            old(store).wf(),
        ensures
            final(store).wf(),
            final(store).games@ == insert_if_absent(old(store).games@, self),
            final(store).guilds@ == old(store).guilds@,
            final(store).summoners@ == old(store).summoners@,
            final(store).active_games@ == old(store).active_games@,
            final(store).logs@ == old(store).logs@,
    {
        vec_insert_if_absent(&mut store.games, self);
    }

    /// Store this match, overwriting any stored row with the same match id.
    pub fn upsert(self, store: &mut Store)
        requires
            old(store).wf(),
        ensures
            final(store).wf(),
            final(store).games@ == upsert_by_key(old(store).games@, self),
            final(store).guilds@ == old(store).guilds@,
            final(store).summoners@ == old(store).summoners@,
            final(store).active_games@ == old(store).active_games@,
            final(store).logs@ == old(store).logs@,
    {
        vec_upsert_by_key(&mut store.games, self);
    }

    /// Every stored match, in storage order.
    pub fn get_all(store: &Store) -> (r: Vec<GameDto>)
        ensures
            r@ == store.games@,
    {
        let n = store.games.len();
        let mut r: Vec<GameDto> = Vec::new();
        let mut i: usize = 0;
        while i < n
            invariant
                n == store.games@.len(),
                i <= n,
                r@ == store.games@.take(i as int),
            decreases n - i,
        {
            r.push(store.games[i].clone());
            proof {
                lemma_take_push(store.games@, i as int);
            }
            i += 1;
        }
        proof {
            assert(store.games@.take(n as int) =~= store.games@);
        }
        r
    }

    /// The matches of one player whose events still await delivery.
    pub fn get_unnotified_games_for_summoner(store: &Store, summoner_id: &String) -> (r: Vec<
        GameDto,
    >)
        ensures
            r@ == unnotified_for(store.games@, summoner_id@),
    {
        let n = store.games.len();
        let mut r: Vec<GameDto> = Vec::new();
        let mut i: usize = 0;
        while i < n
            invariant
                n == store.games@.len(),
                i <= n,
                r@ == unnotified_for(store.games@.take(i as int), summoner_id@),
            decreases n - i,
        {
            let g = &store.games[i];
            if !g.notified && g.summoner_id == *summoner_id {
                r.push(g.clone());
            }
            proof {
                lemma_take_push(store.games@, i as int);
                lemma_unnotified_for_push(
                    store.games@.take(i as int),
                    store.games@[i as int],
                    summoner_id@,
                );
            }
            i += 1;
        }
        proof {
            assert(store.games@.take(n as int) =~= store.games@);
        }
        r
    }

    /// Mark every stored match as already delivered; the defence-in-depth
    /// step of startup reconciliation.
    pub fn set_all_notified(store: &mut Store)
        requires
            old(store).wf(),
        ensures
            final(store).wf(),
            final(store).games@ == mark_all_games(old(store).games@),
            final(store).guilds@ == old(store).guilds@,
            final(store).summoners@ == old(store).summoners@,
            final(store).active_games@ == old(store).active_games@,
            final(store).logs@ == old(store).logs@,
    {
        let ghost orig = store.games@;
        let n = store.games.len();
        let mut i: usize = 0;
        while i < n
            invariant
                n == store.games@.len(),
                n == orig.len(),
                i <= n,
                store.guilds@ == old(store).guilds@,
                store.summoners@ == old(store).summoners@,
                store.active_games@ == old(store).active_games@,
                store.logs@ == old(store).logs@,
                forall|j: int| 0 <= j < i ==> store.games@[j] == mark_game(orig[j]),
                forall|j: int| i <= j < n ==> store.games@[j] == orig[j],
            decreases n - i,
        {
            store.games[i].notified = true;
            i += 1;
        }
        proof {
            assert(store.games@ =~= mark_all_games(orig));
            assert forall|a: int, b: int|
                0 <= a < b < store.games@.len() implies store.games@[a].key()
                != store.games@[b].key() by {
                assert(orig[a].key() != orig[b].key());
            }
        }
    }
}

} // verus!
