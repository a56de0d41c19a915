//! A tracked player: a roster entry owned by one guild, with the last-known
//! rank snapshot. Removing a player cascades to its stored matches.

use vstd::prelude::*;

use crate::dtos::clone_opt_string;
use crate::dtos::game_dto::GameDto;
use crate::dtos::guild_dto::{guild_at, guild_index, has_guild, unique_guild_ids, GuildDto};
use crate::keyed::{
    has_key, insert_if_absent, key_index, unique_keys, upsert_by_key, vec_insert_if_absent,
    vec_upsert_by_key, KeyedRecord,
};
use crate::seq_util::{from_prefix, lemma_take_push};
use crate::store::Store;

verus! {

/// One roster entry, keyed by the provider-stable player id.
pub struct SummonerDto {
    pub id: String,
    pub name: String,
    pub guild_id: i64,
    pub created_at: Option<i64>,
    pub updated_at: Option<i64>,
    pub queue_type: Option<String>,
    pub tier: Option<String>,
    pub lp: Option<i64>,
    pub division: Option<String>,
    pub icon_url: String,
}

impl KeyedRecord for SummonerDto {
    open spec fn key(&self) -> Seq<char> {
        self.id@
    }

    fn key_eq(&self, other: &Self) -> (r: bool) {
        self.id == other.id
    }
}

impl Clone for SummonerDto {
    fn clone(&self) -> (r: Self)
        ensures
            r == *self,
    {
        SummonerDto {
            id: self.id.clone(),
            name: self.name.clone(),
            guild_id: self.guild_id,
            created_at: self.created_at,
            updated_at: self.updated_at,
            queue_type: clone_opt_string(&self.queue_type),
            tier: clone_opt_string(&self.tier),
            lp: self.lp,
            division: clone_opt_string(&self.division),
            icon_url: self.icon_url.clone(),
        }
    }
}

/// True when some player in `s` both carries the display name `name` and the
/// player id `id`; deletion by name cascades through this relation.
pub open spec fn is_id_of_named(s: Seq<SummonerDto>, name: Seq<char>, id: Seq<char>) -> bool {
    exists|i: int| 0 <= i < s.len() && s[i].name@ == name && s[i].id@ == id
}

/// The roster without every player whose display name is `name`.
pub open spec fn summoners_removed(s: Seq<SummonerDto>, name: Seq<char>) -> Seq<SummonerDto> {
    s.filter(|x: SummonerDto| x.name@ != name)
}

/// The match table without every match owned by a player named `name`.
pub open spec fn games_removed(
    games: Seq<GameDto>,
    s: Seq<SummonerDto>,
    name: Seq<char>,
) -> Seq<GameDto> {
    games.filter(|g: GameDto| !is_id_of_named(s, name, g.summoner_id@))
}

/// How the surviving roster grows when one more player is considered.
pub proof fn lemma_summoners_removed_push(s: Seq<SummonerDto>, x: SummonerDto, name: Seq<char>)
    ensures
        summoners_removed(s.push(x), name) == if x.name@ != name {
            summoners_removed(s, name).push(x)
        } else {
            summoners_removed(s, name)
        },
{
    reveal(Seq::filter);
    assert(s.push(x).drop_last() =~= s);
}

/// How the surviving match table grows when one more match is considered.
pub proof fn lemma_games_removed_push(
    games: Seq<GameDto>,
    x: GameDto,
    s: Seq<SummonerDto>,
    name: Seq<char>,
)
    ensures
        games_removed(games.push(x), s, name) == if !is_id_of_named(s, name, x.summoner_id@) {
            games_removed(games, s, name).push(x)
        } else {
            games_removed(games, s, name)
        },
{
    reveal(Seq::filter);
    assert(games.push(x).drop_last() =~= games);
}

/// Decide whether some player in `s` carries both `name` and `id`.
fn scan_is_id_of_named(s: &Vec<SummonerDto>, name: &String, id: &String) -> (r: bool)
    ensures
        r == is_id_of_named(s@, name@, id@),
{
    let n = s.len();
    let mut i: usize = 0;
    while i < n
        invariant
            n == s@.len(),
            i <= n,
            forall|j: int| 0 <= j < i ==> !(s@[j].name@ == name@ && s@[j].id@ == id@),
        decreases n - i,
    {
        if s[i].name == *name && s[i].id == *id {
            return true;
        }
        i += 1;
    }
    false
}

impl SummonerDto {
    /// Record a newly added player; an already-known player id is left as it
    /// is.
    pub fn insert_or_ignore(self, store: &mut Store)
        requires
            old(store).wf(),
        ensures
            final(store).wf(),
            final(store).summoners@ == insert_if_absent(old(store).summoners@, self),
            final(store).guilds@ == old(store).guilds@,
            final(store).games@ == old(store).games@,
            final(store).active_games@ == old(store).active_games@,
            final(store).logs@ == old(store).logs@,
    {
        vec_insert_if_absent(&mut store.summoners, self);
    }

    /// Store this player's freshest profile snapshot, overwriting any stored
    /// row with the same player id; a profile refresh never fails when the
    /// row pre-exists.
    pub fn upsert(self, store: &mut Store)
        requires
            old(store).wf(),
        ensures
            final(store).wf(),
            final(store).summoners@ == upsert_by_key(old(store).summoners@, self),
            final(store).guilds@ == old(store).guilds@,
            final(store).games@ == old(store).games@,
            final(store).active_games@ == old(store).active_games@,
            final(store).logs@ == old(store).logs@,
    {
        vec_upsert_by_key(&mut store.summoners, self);
    }

    /// Every tracked player, in storage order.
    pub fn get_all(store: &Store) -> (r: Vec<SummonerDto>)
        ensures
            r@ == store.summoners@,
    {
        let n = store.summoners.len();
        let mut r: Vec<SummonerDto> = Vec::new();
        let mut i: usize = 0;
        while i < n
            invariant
                n == store.summoners@.len(),
                i <= n,
                r@ == store.summoners@.take(i as int),
            decreases n - i,
        {
            r.push(store.summoners[i].clone());
            proof {
                lemma_take_push(store.summoners@, i as int);
            }
            i += 1;
        }
        proof {
            assert(store.summoners@.take(n as int) =~= store.summoners@);
        }
        r
    }

    /// Look one player up by id.
    pub fn get(store: &Store, summoner_id: &String) -> (r: Option<SummonerDto>)
        requires
            store.wf(),
        ensures
            match r {
                Some(s) => has_key(store.summoners@, summoner_id@) && s == store.summoners@[
                    key_index(store.summoners@, summoner_id@)
                ],
                None => !has_key(store.summoners@, summoner_id@),
            },
    {
        let n = store.summoners.len();
        let mut i: usize = 0;
        while i < n
            invariant
                n == store.summoners@.len(),
                i <= n,
                unique_keys(store.summoners@),
                forall|j: int| 0 <= j < i ==> store.summoners@[j].id@ != summoner_id@,
            decreases n - i,
        {
            if store.summoners[i].id == *summoner_id {
                proof {
                    assert(store.summoners@[i as int].key() == summoner_id@);
                    assert(has_key(store.summoners@, summoner_id@));
                    let ki = key_index(store.summoners@, summoner_id@);
                    assert(0 <= ki < store.summoners@.len() && store.summoners@[ki].key()
                        == summoner_id@);
                    assert(ki == i as int);
                }
                return Some(store.summoners[i].clone());
            }
            i += 1;
        }
        proof {
            assert forall|j: int|
                0 <= j < store.summoners@.len() implies store.summoners@[j].key()
                != summoner_id@ by {}
        }
        None
    }

    /// Remove every player whose display name is `name` and cascade: no
    /// stored match of a removed player survives.
    pub fn delete(store: &mut Store, name: &String)
        requires
            old(store).wf(),
        ensures
            final(store).wf(),
            final(store).summoners@ == summoners_removed(old(store).summoners@, name@),
            final(store).games@ == games_removed(
                old(store).games@,
                old(store).summoners@,
                name@,
            ),
            final(store).guilds@ == old(store).guilds@,
            final(store).active_games@ == old(store).active_games@,
            final(store).logs@ == old(store).logs@,
    {
        let ghost orig_games = store.games@;
        let ghost orig_summoners = store.summoners@;

        let n = store.games.len();
        let mut kept_games: Vec<GameDto> = Vec::new();
        let mut i: usize = 0;
        while i < n
            invariant
                n == store.games@.len(),
                i <= n,
                store.games@ == orig_games,
                store.summoners@ == orig_summoners,
                unique_keys(orig_games),
                old(store).wf(),
                kept_games@ == games_removed(orig_games.take(i as int), orig_summoners, name@),
                from_prefix(kept_games@, orig_games, i as int),
                unique_keys(kept_games@),
            decreases n - i,
        {
            let g = &store.games[i];
            if !scan_is_id_of_named(&store.summoners, name, &g.summoner_id) {
                let ghost pre = kept_games@;
                kept_games.push(g.clone());
                proof {
                    assert(kept_games@[kept_games@.len() - 1] == orig_games[i as int]);
                    assert(from_prefix(kept_games@, orig_games, i as int + 1));
                    assert forall|a: int, b: int|
                        0 <= a < b < kept_games@.len() implies kept_games@[a].key()
                        != kept_games@[b].key() by {
                        if b == kept_games@.len() - 1 {
                            let l = choose|l: int|
                                0 <= l < i && #[trigger] orig_games[l] == kept_games@[a];
                            assert(orig_games[l].key() != orig_games[i as int].key());
                        } else {
                            assert(pre[a].key() != pre[b].key());
                        }
                    }
                }
            }
            proof {
                lemma_take_push(orig_games, i as int);
                lemma_games_removed_push(
                    orig_games.take(i as int),
                    orig_games[i as int],
                    orig_summoners,
                    name@,
                );
            }
            i += 1;
        }
        proof {
            assert(orig_games.take(n as int) =~= orig_games);
        }
        store.games = kept_games;

        let m = store.summoners.len();
        let mut kept_summoners: Vec<SummonerDto> = Vec::new();
        let mut k: usize = 0;
        while k < m
            invariant
                m == store.summoners@.len(),
                k <= m,
                store.summoners@ == orig_summoners,
                unique_keys(orig_summoners),
                kept_summoners@ == summoners_removed(orig_summoners.take(k as int), name@),
                from_prefix(kept_summoners@, orig_summoners, k as int),
                unique_keys(kept_summoners@),
            decreases m - k,
        {
            let s = &store.summoners[k];
            if !(s.name == *name) {
                let ghost pre = kept_summoners@;
                kept_summoners.push(s.clone());
                proof {
                    assert(kept_summoners@[kept_summoners@.len() - 1] == orig_summoners[k as int]);
                    assert(from_prefix(kept_summoners@, orig_summoners, k as int + 1));
                    assert forall|a: int, b: int|
                        0 <= a < b < kept_summoners@.len() implies kept_summoners@[a].key()
                        != kept_summoners@[b].key() by {
                        if b == kept_summoners@.len() - 1 {
                            let l = choose|l: int|
                                0 <= l < k && #[trigger] orig_summoners[l] == kept_summoners@[a];
                            assert(orig_summoners[l].key() != orig_summoners[k as int].key());
                        } else {
                            assert(pre[a].key() != pre[b].key());
                        }
                    }
                }
            }
            proof {
                lemma_take_push(orig_summoners, k as int);
                lemma_summoners_removed_push(
                    orig_summoners.take(k as int),
                    orig_summoners[k as int],
                    name@,
                );
            }
            k += 1;
        }
        proof {
            assert(orig_summoners.take(m as int) =~= orig_summoners);
        }
        store.summoners = kept_summoners;
    }

    /// The guild that owns this player, when it is recorded.
    pub fn get_guild(&self, store: &Store) -> (r: Option<GuildDto>)
        requires
            store.wf(),
        ensures
            match r {
                Some(g) => has_guild(store.guilds@, self.guild_id) && g == guild_at(
                    store.guilds@,
                    self.guild_id,
                ),
                None => !has_guild(store.guilds@, self.guild_id),
            },
    {
        let n = store.guilds.len();
        let mut i: usize = 0;
        while i < n
            invariant
                n == store.guilds@.len(),
                i <= n,
                unique_guild_ids(store.guilds@),
                forall|j: int| 0 <= j < i ==> store.guilds@[j].id != self.guild_id,
            decreases n - i,
        {
            if store.guilds[i].id == self.guild_id {
                proof {
                    assert(has_guild(store.guilds@, self.guild_id));
                    let gi = crate::dtos::guild_dto::guild_index(store.guilds@, self.guild_id);
                    assert(0 <= gi < store.guilds@.len() && store.guilds@[gi].id == self.guild_id);
                    assert(gi == i as int);
                }
                return Some(store.guilds[i].clone());
            }
            i += 1;
        }
        None
    }
}

} // verus!
