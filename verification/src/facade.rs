//! The synchronization engine. It owns the store and applies one atomic
//! rule set per operation: registration and removal of tracked players,
//! startup reconciliation, and the four worker cycles. Every fetch from the
//! external provider is handed in as plain values, and every delivery the
//! engine decides on is handed back out, so the whole rule set is verified
//! while the surrounding process does the I/O.

use vstd::prelude::*;

use crate::dtos::active_game_dto::ActiveGameDto;
use crate::dtos::game_dto::{mark_all_games, mark_game, unnotified_for, GameDto};
use crate::dtos::guild_dto::{
    guild_at, guild_insert_if_absent, guild_update, guild_upsert, has_guild, GuildDto,
};
use crate::dtos::log_dto::{ErrorType, LogDto};
use crate::dtos::summoner_dto::{games_removed, is_id_of_named, summoners_removed, SummonerDto};
use crate::keyed::{
    has_key, has_notified_key, insert_if_absent, key_index, notified_kept, upsert_by_key,
    EventRecord, KeyedRecord,
};
use crate::seq_util::lemma_take_push;
use crate::store::Store;

verus! {

/// The engine: the store, plus the upsert / dedup / notification rules
/// applied to it.
pub struct Facade {
    pub store: Store,
}

/// One player's fetched refresh data: the current profile snapshot and the
/// provider's recent-match window.
pub struct SummonerFetch {
    pub summoner: SummonerDto,
    pub games: Vec<GameDto>,
}

/// Apply one player's fetched matches in order, each stored pre-marked as
/// already notified.
pub open spec fn upsert_games_marked(s: Seq<GameDto>, gs: Seq<GameDto>) -> Seq<GameDto>
    decreases gs.len(),
{
    if gs.len() == 0 {
        s
    } else {
        upsert_games_marked(upsert_by_key(s, mark_game(gs[0])), gs.drop_first())
    }
}

/// Apply fetched matches in order by insert-if-absent: stored rows, and in
/// particular their notified flags, are never touched.
pub open spec fn insert_games(s: Seq<GameDto>, gs: Seq<GameDto>) -> Seq<GameDto>
    decreases gs.len(),
{
    if gs.len() == 0 {
        s
    } else {
        insert_games(insert_if_absent(s, gs[0]), gs.drop_first())
    }
}

/// Apply fetched profile snapshots in order by upsert.
pub open spec fn upsert_summoners(s: Seq<SummonerDto>, ps: Seq<SummonerDto>) -> Seq<SummonerDto>
    decreases ps.len(),
{
    if ps.len() == 0 {
        s
    } else {
        upsert_summoners(upsert_by_key(s, ps[0]), ps.drop_first())
    }
}

/// Apply fetched live-match observations in order by insert-if-absent; an
/// absent observation means the player is not in a match and stores nothing.
pub open spec fn insert_actives(
    s: Seq<ActiveGameDto>,
    xs: Seq<Option<ActiveGameDto>>,
) -> Seq<ActiveGameDto>
    decreases xs.len(),
{
    if xs.len() == 0 {
        s
    } else {
        let rest = xs.drop_first();
        match xs[0] {
            Some(a) => insert_actives(insert_if_absent(s, a), rest),
            None => insert_actives(s, rest),
        }
    }
}

/// The recent-match windows of a refresh batch, in batch order.
pub open spec fn flat_games(fs: Seq<SummonerFetch>) -> Seq<GameDto>
    decreases fs.len(),
{
    if fs.len() == 0 {
        Seq::empty()
    } else {
        fs[0].games@ + flat_games(fs.drop_first())
    }
}

/// The profile snapshots of a refresh batch, in batch order.
pub open spec fn batch_summoners(fs: Seq<SummonerFetch>) -> Seq<SummonerDto> {
    fs.map_values(|f: SummonerFetch| f.summoner)
}

/// A left fold grows from the back: applying one more match.
pub proof fn lemma_insert_games_push(s: Seq<GameDto>, gs: Seq<GameDto>, x: GameDto)
    ensures
        insert_games(s, gs.push(x)) == insert_if_absent(insert_games(s, gs), x),
    decreases gs.len(),
{
    if gs.len() == 0 {
        assert(gs.push(x).drop_first() =~= gs);
        assert(insert_games(insert_if_absent(s, x), gs) == insert_if_absent(s, x));
    } else {
        assert(gs.push(x).drop_first() =~= gs.drop_first().push(x));
        lemma_insert_games_push(insert_if_absent(s, gs[0]), gs.drop_first(), x);
    }
}

/// A left fold grows from the back: applying one more marked match.
pub proof fn lemma_upsert_games_marked_push(s: Seq<GameDto>, gs: Seq<GameDto>, x: GameDto)
    ensures
        upsert_games_marked(s, gs.push(x)) == upsert_by_key(
            upsert_games_marked(s, gs),
            mark_game(x),
        ),
    decreases gs.len(),
{
    if gs.len() == 0 {
        assert(gs.push(x).drop_first() =~= gs);
        assert(upsert_games_marked(upsert_by_key(s, mark_game(x)), gs) == upsert_by_key(
            s,
            mark_game(x),
        ));
    } else {
        assert(gs.push(x).drop_first() =~= gs.drop_first().push(x));
        lemma_upsert_games_marked_push(upsert_by_key(s, mark_game(gs[0])), gs.drop_first(), x);
    }
}

/// A left fold grows from the back: applying one more profile snapshot.
pub proof fn lemma_upsert_summoners_push(s: Seq<SummonerDto>, ps: Seq<SummonerDto>, x: SummonerDto)
    ensures
        upsert_summoners(s, ps.push(x)) == upsert_by_key(upsert_summoners(s, ps), x),
    decreases ps.len(),
{
    if ps.len() == 0 {
        assert(ps.push(x).drop_first() =~= ps);
        assert(upsert_summoners(upsert_by_key(s, x), ps) == upsert_by_key(s, x));
    } else {
        assert(ps.push(x).drop_first() =~= ps.drop_first().push(x));
        lemma_upsert_summoners_push(upsert_by_key(s, ps[0]), ps.drop_first(), x);
    }
}

/// A left fold grows from the back: applying one more observation.
pub proof fn lemma_insert_actives_push(
    s: Seq<ActiveGameDto>,
    xs: Seq<Option<ActiveGameDto>>,
    x: Option<ActiveGameDto>,
)
    ensures
        insert_actives(s, xs.push(x)) == match x {
            Some(a) => insert_if_absent(insert_actives(s, xs), a),
            None => insert_actives(s, xs),
        },
    decreases xs.len(),
{
    if xs.len() == 0 {
        assert(xs.push(x).drop_first() =~= xs);
        match x {
            Some(a) => {
                assert(insert_actives(insert_if_absent(s, a), xs) == insert_if_absent(s, a));
            },
            None => {
                assert(insert_actives(s, xs) == s);
            },
        }
    } else {
        assert(xs.push(x).drop_first() =~= xs.drop_first().push(x));
        match xs[0] {
            Some(a) => lemma_insert_actives_push(insert_if_absent(s, a), xs.drop_first(), x),
            None => lemma_insert_actives_push(s, xs.drop_first(), x),
        }
    }
}

/// Inserting matches by insert-if-absent never touches the rows that were
/// already stored: the old table is a prefix of the new one.
pub proof fn lemma_insert_games_prefix(s: Seq<GameDto>, gs: Seq<GameDto>)
    ensures
        insert_games(s, gs).len() >= s.len(),
        forall|i: int| 0 <= i < s.len() ==> insert_games(s, gs)[i] == s[i],
    decreases gs.len(),
{
    if gs.len() > 0 {
        let s1 = insert_if_absent(s, gs[0]);
        lemma_insert_games_prefix(s1, gs.drop_first());
        assert forall|i: int| 0 <= i < s.len() implies insert_games(s, gs)[i] == s[i] by {
            assert(insert_games(s1, gs.drop_first())[i] == s1[i]);
        }
    } else {
        assert(insert_games(s, gs) == s);
    }
}

/// Inserting live matches by insert-if-absent never touches the rows that
/// were already stored.
pub proof fn lemma_insert_actives_prefix(s: Seq<ActiveGameDto>, xs: Seq<Option<ActiveGameDto>>)
    ensures
        insert_actives(s, xs).len() >= s.len(),
        forall|i: int| 0 <= i < s.len() ==> insert_actives(s, xs)[i] == s[i],
    decreases xs.len(),
{
    if xs.len() > 0 {
        match xs[0] {
            Some(a) => {
                let s1 = insert_if_absent(s, a);
                lemma_insert_actives_prefix(s1, xs.drop_first());
                assert forall|i: int| 0 <= i < s.len() implies insert_actives(s, xs)[i] == s[i] by {
                    assert(insert_actives(s1, xs.drop_first())[i] == s1[i]);
                }
            },
            None => {
                lemma_insert_actives_prefix(s, xs.drop_first());
                assert forall|i: int| 0 <= i < s.len() implies insert_actives(s, xs)[i] == s[i] by {
                    assert(insert_actives(s, xs.drop_first())[i] == s[i]);
                }
            },
        }
    } else {
        assert(insert_actives(s, xs) == s);
    }
}

/// Upserting pre-marked matches keeps every stored row's key in place and
/// never lowers a notified flag.
pub proof fn lemma_upsert_marked_keeps(s: Seq<GameDto>, gs: Seq<GameDto>)
    ensures
        upsert_games_marked(s, gs).len() >= s.len(),
        forall|i: int|
            0 <= i < s.len() ==> (#[trigger] upsert_games_marked(s, gs)[i]).key() == s[i].key(),
        forall|i: int|
            0 <= i < s.len() && s[i].notified ==> (#[trigger] upsert_games_marked(
                s,
                gs,
            )[i]).notified,
    decreases gs.len(),
{
    if gs.len() > 0 {
        let s1 = upsert_by_key(s, mark_game(gs[0]));
        assert(s1.len() >= s.len());
        assert(forall|i: int| 0 <= i < s.len() ==> (#[trigger] s1[i]).key() == s[i].key());
        assert(forall|i: int| 0 <= i < s.len() && s[i].notified ==> (#[trigger] s1[i]).notified);
        lemma_upsert_marked_keeps(s1, gs.drop_first());
        assert forall|i: int| 0 <= i < s.len() implies (#[trigger] upsert_games_marked(s, gs)[i]).key()
            == s[i].key() by {
            assert(upsert_games_marked(s1, gs.drop_first())[i].key() == s1[i].key());
        }
        assert forall|i: int| 0 <= i < s.len() && s[i].notified implies (#[trigger] upsert_games_marked(
            s,
            gs,
        )[i]).notified by {
            assert(upsert_games_marked(s1, gs.drop_first())[i].notified);
        }
    } else {
        assert(upsert_games_marked(s, gs) == s);
    }
}

/// If every match of the player `sid` is notified, that stays true under
/// upserts of pre-marked matches.
pub proof fn lemma_upsert_marked_owner_notified(s: Seq<GameDto>, gs: Seq<GameDto>, sid: Seq<char>)
    requires
        forall|i: int|
            0 <= i < s.len() && (#[trigger] s[i]).summoner_id@ == sid ==> s[i].notified,
    ensures
        forall|i: int|
            0 <= i < upsert_games_marked(s, gs).len() && (#[trigger] upsert_games_marked(s, gs)[i]).summoner_id@
                == sid ==> upsert_games_marked(s, gs)[i].notified,
    decreases gs.len(),
{
    if gs.len() > 0 {
        let s1 = upsert_by_key(s, mark_game(gs[0]));
        assert(forall|i: int|
            0 <= i < s1.len() && (#[trigger] s1[i]).summoner_id@ == sid ==> s1[i].notified);
        lemma_upsert_marked_owner_notified(s1, gs.drop_first(), sid);
    }
}

/// A key that already has a notified row keeps one under upserts of
/// pre-marked matches.
pub proof fn lemma_upsert_marked_keeps_notified_key(
    s: Seq<GameDto>,
    gs: Seq<GameDto>,
    k: Seq<char>,
)
    requires
        has_notified_key(s, k),
    ensures
        has_notified_key(upsert_games_marked(s, gs), k),
    decreases gs.len(),
{
    if gs.len() > 0 {
        let s1 = upsert_by_key(s, mark_game(gs[0]));
        let j = choose|j: int| 0 <= j < s.len() && #[trigger] s[j].key() == k && s[j].is_notified();
        if has_key(s, mark_game(gs[0]).key()) {
            let ki = key_index(s, mark_game(gs[0]).key());
            if ki == j {
                assert(s1[j].key() == k && s1[j].is_notified());
            } else {
                assert(s1[j] == s[j]);
            }
        } else {
            assert(s1[j] == s[j]);
        }
        assert(has_notified_key(s1, k));
        lemma_upsert_marked_keeps_notified_key(s1, gs.drop_first(), k);
    }
}

/// After upserting a batch of pre-marked matches, every match of the batch
/// has a stored, notified row under its id.
pub proof fn lemma_upsert_marked_batch_notified(s: Seq<GameDto>, gs: Seq<GameDto>)
    ensures
        forall|i: int|
            0 <= i < gs.len() ==> has_notified_key(
                upsert_games_marked(s, gs),
                (#[trigger] gs[i]).key(),
            ),
    decreases gs.len(),
{
    if gs.len() > 0 {
        let s1 = upsert_by_key(s, mark_game(gs[0]));
        if has_key(s, mark_game(gs[0]).key()) {
            let ki = key_index(s, mark_game(gs[0]).key());
            assert(s1[ki].key() == gs[0].key() && s1[ki].is_notified());
        } else {
            assert(s1[s.len() as int] == mark_game(gs[0]));
            assert(s1[s.len() as int].key() == gs[0].key() && s1[s.len() as int].is_notified());
        }
        assert(has_notified_key(s1, gs[0].key()));
        lemma_upsert_marked_keeps_notified_key(s1, gs.drop_first(), gs[0].key());
        lemma_upsert_marked_batch_notified(s1, gs.drop_first());
        assert forall|i: int|
            0 <= i < gs.len() implies has_notified_key(
            upsert_games_marked(s, gs),
            (#[trigger] gs[i]).key(),
        ) by {
            if i > 0 {
                assert(gs.drop_first()[i - 1] == gs[i]);
                assert(has_notified_key(
                    upsert_games_marked(s1, gs.drop_first()),
                    gs.drop_first()[i - 1].key(),
                ));
            }
        }
    }
}

/// A table in which no match of the player `sid` awaits delivery selects an
/// empty unnotified set for `sid`.
pub proof fn lemma_unnotified_for_empty(s: Seq<GameDto>, sid: Seq<char>)
    requires
        forall|i: int|
            0 <= i < s.len() && (#[trigger] s[i]).summoner_id@ == sid ==> s[i].notified,
    ensures
        unnotified_for(s, sid) == Seq::<GameDto>::empty(),
    decreases s.len(),
{
    reveal(Seq::filter);
    if s.len() > 0 {
        lemma_unnotified_for_empty(s.drop_last(), sid);
    }
}

impl Facade {
    /// A fresh engine over an empty store.
    pub fn new() -> (r: Facade)
        ensures
            r.store.wf(),
            r.store.guilds@ == Seq::<GuildDto>::empty(),
            r.store.summoners@ == Seq::<SummonerDto>::empty(),
            r.store.games@ == Seq::<GameDto>::empty(),
            r.store.active_games@ == Seq::<ActiveGameDto>::empty(),
            r.store.logs@ == Seq::<LogDto>::empty(),
    {
        Facade { store: Store::new() }
    }

    /// Append an informational entry to the diagnostic log.
    pub fn log_info(&mut self, message: &str)
        requires
            old(self).store.wf(),
        ensures
            final(self).store.wf(),
            final(self).store.logs@.len() == old(self).store.logs@.len() + 1,
            forall|i: int|
                0 <= i < old(self).store.logs@.len()
                    ==> final(self).store.logs@[i] == old(self).store.logs@[i],
            final(self).store.logs@.last().message@ == message@,
            final(self).store.logs@.last().error_type == ErrorType::Info,
            final(self).store.logs@.last().id is None,
            final(self).store.logs@.last().created_at is None,
            final(self).store.guilds@ == old(self).store.guilds@,
            final(self).store.summoners@ == old(self).store.summoners@,
            final(self).store.games@ == old(self).store.games@,
            final(self).store.active_games@ == old(self).store.active_games@,
    {
        LogDto::info(&mut self.store, message);
    }

    /// Append an error entry to the diagnostic log.
    pub fn log_error(&mut self, message: &str)
        requires
            old(self).store.wf(),
        ensures
            final(self).store.wf(),
            final(self).store.logs@.len() == old(self).store.logs@.len() + 1,
            forall|i: int|
                0 <= i < old(self).store.logs@.len()
                    ==> final(self).store.logs@[i] == old(self).store.logs@[i],
            final(self).store.logs@.last().message@ == message@,
            final(self).store.logs@.last().error_type == ErrorType::Error,
            final(self).store.logs@.last().id is None,
            final(self).store.logs@.last().created_at is None,
            final(self).store.guilds@ == old(self).store.guilds@,
            final(self).store.summoners@ == old(self).store.summoners@,
            final(self).store.games@ == old(self).store.games@,
            final(self).store.active_games@ == old(self).store.active_games@,
    {
        LogDto::error(&mut self.store, message);
    }

    /// Record a guild on first contact; a known guild id is left as it is.
    pub fn init_guild(&mut self, guild_id: i64, chat_channel_id: Option<i64>, name: String)
        requires
            old(self).store.wf(),
        ensures
            final(self).store.wf(),
            final(self).store.guilds@ == guild_insert_if_absent(
                old(self).store.guilds@,
                (GuildDto {
                    id: guild_id,
                    chat_channel_id,
                    name,
                    created_at: None,
                    updated_at: None,
                }),
            ),
            final(self).store.summoners@ == old(self).store.summoners@,
            final(self).store.games@ == old(self).store.games@,
            final(self).store.active_games@ == old(self).store.active_games@,
            final(self).store.logs@ == old(self).store.logs@,
    {
        GuildDto::new(guild_id, chat_channel_id, name).insert_or_ignore(&mut self.store);
    }

    /// Update a known guild's destination channel and display name; an
    /// unknown guild id changes nothing. The reconcile operation that also
    /// creates the row when the guild is new is `init_guild_channel`.
    pub fn update_guild_channel(&mut self, guild_id: i64, chat_channel_id: Option<i64>, name: String)
        requires
            old(self).store.wf(),
        ensures
            final(self).store.wf(),
            final(self).store.guilds@ == guild_update(
                old(self).store.guilds@,
                (GuildDto {
                    id: guild_id,
                    chat_channel_id,
                    name,
                    created_at: None,
                    updated_at: None,
                }),
            ),
            final(self).store.summoners@ == old(self).store.summoners@,
            final(self).store.games@ == old(self).store.games@,
            final(self).store.active_games@ == old(self).store.active_games@,
            final(self).store.logs@ == old(self).store.logs@,
    {
        GuildDto::new(guild_id, chat_channel_id, name).update(&mut self.store);
    }

    /// Reconcile a guild's identity and destination: update the stored row,
    /// or create it when the guild is not recorded yet. Afterwards the row
    /// exists and carries the given destination channel and name.
    pub fn init_guild_channel(
        &mut self,
        guild_id: i64,
        chat_channel_id: Option<i64>,
        name: String,
    )
        requires
            old(self).store.wf(),
        ensures
            final(self).store.wf(),
            final(self).store.guilds@ == guild_upsert(
                old(self).store.guilds@,
                (GuildDto {
                    id: guild_id,
                    chat_channel_id,
                    name,
                    created_at: None,
                    updated_at: None,
                }),
            ),
            has_guild(final(self).store.guilds@, guild_id),
            guild_at(final(self).store.guilds@, guild_id).chat_channel_id == chat_channel_id,
            guild_at(final(self).store.guilds@, guild_id).name == name,
            final(self).store.summoners@ == old(self).store.summoners@,
            final(self).store.games@ == old(self).store.games@,
            final(self).store.active_games@ == old(self).store.active_games@,
            final(self).store.logs@ == old(self).store.logs@,
    {
        GuildDto::new(guild_id, chat_channel_id, name).upsert(&mut self.store);
    }

    /// Register a player: store the fetched profile, then store every match
    /// of the fetched history pre-marked as notified, so that adding a
    /// player never retroactively notifies on pre-existing history. When the
    /// player had no unnotified matches stored before the call, none awaits
    /// delivery after it.
    pub fn add_user(&mut self, summoner: SummonerDto, games: Vec<GameDto>)
        requires
            old(self).store.wf(),
        ensures
            final(self).store.wf(),
            final(self).store.summoners@ == insert_if_absent(old(self).store.summoners@, summoner),
            final(self).store.games@ == upsert_games_marked(old(self).store.games@, games@),
            notified_kept(old(self).store.games@, final(self).store.games@),
            forall|i: int|
                0 <= i < games@.len() ==> has_notified_key(
                    final(self).store.games@,
                    (#[trigger] games@[i]).key(),
                ),
            (forall|i: int|
                0 <= i < old(self).store.games@.len()
                    && (#[trigger] old(self).store.games@[i]).summoner_id@ == summoner.id@
                    ==> old(self).store.games@[i].notified) ==> unnotified_for(
                final(self).store.games@,
                summoner.id@,
            ) == Seq::<GameDto>::empty(),
            final(self).store.guilds@ == old(self).store.guilds@,
            final(self).store.active_games@ == old(self).store.active_games@,
            final(self).store.logs@ == old(self).store.logs@,
    {
        let ghost orig_games = self.store.games@;
        let ghost sid = summoner.id@;
        summoner.insert_or_ignore(&mut self.store);
        let n = games.len();
        let mut i: usize = 0;
        while i < n
            invariant
                n == games@.len(),
                i <= n,
                self.store.wf(),
                self.store.games@ == upsert_games_marked(orig_games, games@.take(i as int)),
                self.store.summoners@ == insert_if_absent(old(self).store.summoners@, summoner),
                self.store.guilds@ == old(self).store.guilds@,
                self.store.active_games@ == old(self).store.active_games@,
                self.store.logs@ == old(self).store.logs@,
            decreases n - i,
        {
            let mut g = games[i].clone();
            g.notified = true;
            proof {
                assert(g == mark_game(games@[i as int]));
                lemma_take_push(games@, i as int);
                lemma_upsert_games_marked_push(orig_games, games@.take(i as int), games@[i as int]);
            }
            g.upsert(&mut self.store);
            i += 1;
        }
        proof {
            assert(games@.take(n as int) =~= games@);
            lemma_upsert_marked_keeps(orig_games, games@);
            lemma_upsert_marked_batch_notified(orig_games, games@);
            assert forall|i: int|
                0 <= i < orig_games.len() && #[trigger] orig_games[i].is_notified()
                    implies exists|j: int|
                0 <= j < self.store.games@.len() && #[trigger] self.store.games@[j].key()
                    == orig_games[i].key() && self.store.games@[j].is_notified() by {
                assert(upsert_games_marked(orig_games, games@)[i].key() == orig_games[i].key());
                assert(upsert_games_marked(orig_games, games@)[i].notified);
                assert(self.store.games@[i].key() == orig_games[i].key());
                assert(self.store.games@[i].is_notified());
            }
            assert(notified_kept(orig_games, self.store.games@));
            if forall|i: int|
                0 <= i < orig_games.len() && (#[trigger] orig_games[i]).summoner_id@ == sid
                    ==> orig_games[i].notified {
                lemma_upsert_marked_owner_notified(orig_games, games@, sid);
                lemma_unnotified_for_empty(self.store.games@, sid);
            }
        }
    }

    /// Remove every player with the given display name and cascade the
    /// removal to their stored matches: afterwards no match row references a
    /// removed player's id.
    pub fn delete_user(&mut self, name: &String)
        requires
            old(self).store.wf(),
        ensures
            final(self).store.wf(),
            final(self).store.summoners@ == summoners_removed(old(self).store.summoners@, name@),
            final(self).store.games@ == games_removed(
                old(self).store.games@,
                old(self).store.summoners@,
                name@,
            ),
            forall|i: int|
                0 <= i < final(self).store.games@.len() ==> !is_id_of_named(
                    old(self).store.summoners@,
                    name@,
                    (#[trigger] final(self).store.games@[i]).summoner_id@,
                ),
            final(self).store.guilds@ == old(self).store.guilds@,
            final(self).store.active_games@ == old(self).store.active_games@,
            final(self).store.logs@ == old(self).store.logs@,
    {
        SummonerDto::delete(&mut self.store, name);
        proof {
            lemma_games_removed_pred(old(self).store.games@, old(self).store.summoners@, name@);
        }
    }

    /// Startup reconciliation: store every fetched match pre-marked as
    /// notified, then, for defence in depth, mark every stored match
    /// notified. Afterwards no match at all awaits delivery, so a process
    /// restart never re-floods notifications.
    pub fn startup_tasks(&mut self, fetched_games: Vec<GameDto>)
        requires
            old(self).store.wf(),
        ensures
            final(self).store.wf(),
            final(self).store.games@ == mark_all_games(
                upsert_games_marked(old(self).store.games@, fetched_games@),
            ),
            forall|i: int|
                0 <= i < final(self).store.games@.len()
                    ==> (#[trigger] final(self).store.games@[i]).notified,
            notified_kept(old(self).store.games@, final(self).store.games@),
            final(self).store.guilds@ == old(self).store.guilds@,
            final(self).store.summoners@ == old(self).store.summoners@,
            final(self).store.active_games@ == old(self).store.active_games@,
            final(self).store.logs@ == old(self).store.logs@,
    {
        let ghost orig_games = self.store.games@;
        let n = fetched_games.len();
        let mut i: usize = 0;
        while i < n
            invariant
                n == fetched_games@.len(),
                i <= n,
                self.store.wf(),
                self.store.games@ == upsert_games_marked(
                    orig_games,
                    fetched_games@.take(i as int),
                ),
                self.store.summoners@ == old(self).store.summoners@,
                self.store.guilds@ == old(self).store.guilds@,
                self.store.active_games@ == old(self).store.active_games@,
                self.store.logs@ == old(self).store.logs@,
            decreases n - i,
        {
            let mut g = fetched_games[i].clone();
            g.notified = true;
            proof {
                assert(g == mark_game(fetched_games@[i as int]));
                lemma_take_push(fetched_games@, i as int);
                lemma_upsert_games_marked_push(
                    orig_games,
                    fetched_games@.take(i as int),
                    fetched_games@[i as int],
                );
            }
            g.upsert(&mut self.store);
            i += 1;
        }
        proof {
            assert(fetched_games@.take(n as int) =~= fetched_games@);
        }
        let ghost mid = self.store.games@;
        GameDto::set_all_notified(&mut self.store);
        proof {
            lemma_upsert_marked_keeps(orig_games, fetched_games@);
            assert forall|i: int|
                0 <= i < orig_games.len() && #[trigger] orig_games[i].is_notified()
                    implies exists|j: int|
                0 <= j < self.store.games@.len() && #[trigger] self.store.games@[j].key()
                    == orig_games[i].key() && self.store.games@[j].is_notified() by {
                assert(self.store.games@[i] == mark_game(mid[i]));
                assert(self.store.games@[i].key() == orig_games[i].key());
                assert(self.store.games@[i].is_notified());
            }
        }
    }

    /// One profile-refresh cycle: store each player's fresh profile snapshot
    /// by upsert and each fetched match by insert-if-absent, so already
    /// stored matches, and in particular their notified flags, are never
    /// touched.
    pub fn summoner_api_worker(&mut self, fetched: &Vec<SummonerFetch>)
        requires
            old(self).store.wf(),
        ensures
            final(self).store.wf(),
            final(self).store.summoners@ == upsert_summoners(
                old(self).store.summoners@,
                batch_summoners(fetched@),
            ),
            final(self).store.games@ == insert_games(old(self).store.games@, flat_games(fetched@)),
            notified_kept(old(self).store.games@, final(self).store.games@),
            forall|i: int|
                0 <= i < old(self).store.games@.len()
                    ==> final(self).store.games@[i] == old(self).store.games@[i],
            final(self).store.guilds@ == old(self).store.guilds@,
            final(self).store.active_games@ == old(self).store.active_games@,
            final(self).store.logs@ == old(self).store.logs@,
    {
        let ghost orig_games = self.store.games@;
        let ghost orig_summoners = self.store.summoners@;
        let n = fetched.len();
        let mut k: usize = 0;
        while k < n
            invariant
                n == fetched@.len(),
                k <= n,
                self.store.wf(),
                self.store.summoners@ == upsert_summoners(
                    orig_summoners,
                    batch_summoners(fetched@.take(k as int)),
                ),
                self.store.games@ == insert_games(orig_games, flat_games(fetched@.take(k as int))),
                self.store.guilds@ == old(self).store.guilds@,
                self.store.active_games@ == old(self).store.active_games@,
                self.store.logs@ == old(self).store.logs@,
            decreases n - k,
        {
            let f = &fetched[k];
            proof {
                lemma_take_push(fetched@, k as int);
                lemma_batch_summoners_push(fetched@.take(k as int), fetched@[k as int]);
                lemma_upsert_summoners_push(
                    orig_summoners,
                    batch_summoners(fetched@.take(k as int)),
                    fetched@[k as int].summoner,
                );
            }
            f.summoner.clone().upsert(&mut self.store);
            let ghost games_base = self.store.games@;
            let m = f.games.len();
            let mut j: usize = 0;
            while j < m
                invariant
                    m == f.games@.len(),
                    j <= m,
                    self.store.wf(),
                    self.store.games@ == insert_games(games_base, f.games@.take(j as int)),
                    self.store.summoners@ == upsert_summoners(
                        orig_summoners,
                        batch_summoners(fetched@.take(k as int + 1)),
                    ),
                    self.store.guilds@ == old(self).store.guilds@,
                    self.store.active_games@ == old(self).store.active_games@,
                    self.store.logs@ == old(self).store.logs@,
                decreases m - j,
            {
                proof {
                    lemma_take_push(f.games@, j as int);
                    lemma_insert_games_push(games_base, f.games@.take(j as int), f.games@[j as int]);
                }
                f.games[j].clone().insert_or_ignore(&mut self.store);
                j += 1;
            }
            proof {
                assert(f.games@.take(m as int) =~= f.games@);
                lemma_flat_games_push(fetched@.take(k as int), fetched@[k as int]);
                lemma_insert_games_concat(
                    orig_games,
                    flat_games(fetched@.take(k as int)),
                    f.games@,
                );
            }
            k += 1;
        }
        proof {
            assert(fetched@.take(n as int) =~= fetched@);
            lemma_insert_games_prefix(orig_games, flat_games(fetched@));
            assert forall|i: int|
                0 <= i < orig_games.len() && #[trigger] orig_games[i].is_notified()
                    implies exists|j: int|
                0 <= j < self.store.games@.len() && #[trigger] self.store.games@[j].key()
                    == orig_games[i].key() && self.store.games@[j].is_notified() by {
                assert(self.store.games@[i] == orig_games[i]);
            }
        }
    }

    /// One live-match discovery cycle: store each present observation by
    /// insert-if-absent, so a still-running match that is already recorded
    /// is a no-op and keeps its notified flag.
    pub fn active_game_api_worker(&mut self, fetched: &Vec<Option<ActiveGameDto>>)
        requires
            old(self).store.wf(),
        ensures
            final(self).store.wf(),
            final(self).store.active_games@ == insert_actives(
                old(self).store.active_games@,
                fetched@,
            ),
            notified_kept(old(self).store.active_games@, final(self).store.active_games@),
            forall|i: int|
                0 <= i < old(self).store.active_games@.len()
                    ==> final(self).store.active_games@[i] == old(self).store.active_games@[i],
            final(self).store.guilds@ == old(self).store.guilds@,
            final(self).store.summoners@ == old(self).store.summoners@,
            final(self).store.games@ == old(self).store.games@,
            final(self).store.logs@ == old(self).store.logs@,
    {
        let ghost orig = self.store.active_games@;
        let n = fetched.len();
        let mut i: usize = 0;
        while i < n
            invariant
                n == fetched@.len(),
                i <= n,
                self.store.wf(),
                self.store.active_games@ == insert_actives(orig, fetched@.take(i as int)),
                self.store.guilds@ == old(self).store.guilds@,
                self.store.summoners@ == old(self).store.summoners@,
                self.store.games@ == old(self).store.games@,
                self.store.logs@ == old(self).store.logs@,
            decreases n - i,
        {
            proof {
                lemma_take_push(fetched@, i as int);
                lemma_insert_actives_push(orig, fetched@.take(i as int), fetched@[i as int]);
            }
            match &fetched[i] {
                Some(a) => {
                    a.clone().insert_or_ignore(&mut self.store);
                },
                None => {},
            }
            i += 1;
        }
        proof {
            assert(fetched@.take(n as int) =~= fetched@);
            lemma_insert_actives_prefix(orig, fetched@);
            assert forall|i: int|
                0 <= i < orig.len() && #[trigger] orig[i].is_notified() implies exists|j: int|
                0 <= j < self.store.active_games@.len() && #[trigger] self.store.active_games@[j].key()
                    == orig[i].key() && self.store.active_games@[j].is_notified() by {
                assert(insert_actives(orig, fetched@)[i] == orig[i]);
                assert(self.store.active_games@[i].key() == orig[i].key());
                assert(self.store.active_games@[i].is_notified());
            }
        }
    }
}

/// The snapshots of a refresh batch grow from the back.
pub proof fn lemma_batch_summoners_push(fs: Seq<SummonerFetch>, x: SummonerFetch)
    ensures
        batch_summoners(fs.push(x)) == batch_summoners(fs).push(x.summoner),
{
    assert(batch_summoners(fs.push(x)) =~= batch_summoners(fs).push(x.summoner));
}

/// The match windows of a refresh batch grow from the back.
pub proof fn lemma_flat_games_push(fs: Seq<SummonerFetch>, x: SummonerFetch)
    ensures
        flat_games(fs.push(x)) == flat_games(fs) + x.games@,
    decreases fs.len(),
{
    if fs.len() == 0 {
        assert(fs.push(x).drop_first() =~= fs);
        assert(flat_games(fs.push(x)) =~= flat_games(fs) + x.games@);
    } else {
        assert(fs.push(x).drop_first() =~= fs.drop_first().push(x));
        lemma_flat_games_push(fs.drop_first(), x);
        assert(flat_games(fs.push(x)) =~= flat_games(fs) + x.games@);
    }
}

/// Folding a concatenation folds its two halves in turn.
pub proof fn lemma_insert_games_concat(s: Seq<GameDto>, a: Seq<GameDto>, b: Seq<GameDto>)
    ensures
        insert_games(s, a + b) == insert_games(insert_games(s, a), b),
    decreases a.len(),
{
    if a.len() == 0 {
        assert(a + b =~= b);
    } else {
        assert((a + b)[0] == a[0]);
        assert((a + b).drop_first() =~= a.drop_first() + b);
        lemma_insert_games_concat(insert_if_absent(s, a[0]), a.drop_first(), b);
    }
}

/// Every surviving match row names a player that was not removed.
pub proof fn lemma_games_removed_pred(
    games: Seq<GameDto>,
    summoners: Seq<SummonerDto>,
    name: Seq<char>,
)
    ensures
        forall|i: int|
            0 <= i < games_removed(games, summoners, name).len() ==> !is_id_of_named(
                summoners,
                name,
                (#[trigger] games_removed(games, summoners, name)[i]).summoner_id@,
            ),
    decreases games.len(),
{
    reveal(Seq::filter);
    if games.len() > 0 {
        lemma_games_removed_pred(games.drop_last(), summoners, name);
    }
}

} // verus!
