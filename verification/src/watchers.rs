//! The two notifier cycles. Each reads the events that still await
//! delivery, decides for each one whether a destination exists, hands the
//! deliveries back to the caller, and marks every event with a resolvable
//! owner as notified — whether or not a destination exists, and before any
//! delivery is attempted, so a failed delivery is never retried.

use vstd::prelude::*;
use vstd::string::StringExecFns;

use crate::dtos::active_game_dto::{mark_active, ActiveGameDto};
use crate::dtos::game_dto::{mark_game, unnotified_for, GameDto};
use crate::dtos::guild_dto::{guild_at, has_guild, GuildDto};
use crate::dtos::log_dto::{ErrorType, LogDto};
use crate::dtos::summoner_dto::SummonerDto;
use crate::facade::Facade;
use crate::keyed::{has_key, key_index, notified_kept, EventRecord, KeyedRecord};
use crate::seq_util::lemma_take_push;
use crate::text::{i64_text, i64_to_string};

verus! {

/// One match-result event to deliver: the destination channel, the owning
/// player's snapshot, and the match as it was stored when the cycle read it.
pub struct MatchNotification {
    pub channel_id: i64,
    pub summoner: SummonerDto,
    pub game: GameDto,
}

/// One live-match event to deliver.
pub struct ActiveGameNotification {
    pub channel_id: i64,
    pub summoner: SummonerDto,
    pub active_game: ActiveGameDto,
}

/// The destination channel of the guild `gid`: present only when the guild
/// is recorded and has a channel set.
pub open spec fn guild_channel(guilds: Seq<GuildDto>, gid: i64) -> Option<i64> {
    if has_guild(guilds, gid) {
        guild_at(guilds, gid).chat_channel_id
    } else {
        None
    }
}

/// The roster entry carrying the player id `sid`.
pub open spec fn summoner_by_id(summoners: Seq<SummonerDto>, sid: Seq<char>) -> SummonerDto {
    summoners[key_index(summoners, sid)]
}

/// An event owned by `sid` may be marked notified: its player is on the
/// roster and that player's guild is recorded. Whether the guild has a
/// destination channel plays no role.
pub open spec fn owner_resolvable(
    summoners: Seq<SummonerDto>,
    guilds: Seq<GuildDto>,
    sid: Seq<char>,
) -> bool {
    exists|i: int|
        0 <= i < summoners.len() && (#[trigger] summoners[i]).id@ == sid && has_guild(
            guilds,
            summoners[i].guild_id,
        )
}

/// Every match whose owner is resolvable marked notified; every other row
/// untouched.
pub open spec fn mark_resolvable_games(
    games: Seq<GameDto>,
    summoners: Seq<SummonerDto>,
    guilds: Seq<GuildDto>,
) -> Seq<GameDto> {
    games.map_values(
        |g: GameDto|
            if !g.notified && owner_resolvable(summoners, guilds, g.summoner_id@) {
                mark_game(g)
            } else {
                g
            },
    )
}

/// Every live match whose owner is resolvable marked notified; every other
/// row untouched.
pub open spec fn mark_resolvable_actives(
    actives: Seq<ActiveGameDto>,
    summoners: Seq<SummonerDto>,
    guilds: Seq<GuildDto>,
) -> Seq<ActiveGameDto> {
    actives.map_values(
        |a: ActiveGameDto|
            if !a.notified && owner_resolvable(summoners, guilds, a.summoner_id@) {
                mark_active(a)
            } else {
                a
            },
    )
}

/// The deliveries one player contributes to a match-notifier cycle: one per
/// unnotified match, provided the player's guild has a destination channel.
pub open spec fn match_notifs_unit(
    s: SummonerDto,
    guilds: Seq<GuildDto>,
    games: Seq<GameDto>,
) -> Seq<MatchNotification> {
    match guild_channel(guilds, s.guild_id) {
        Some(ch) => unnotified_for(games, s.id@).map_values(
            |g: GameDto| MatchNotification { channel_id: ch, summoner: s, game: g },
        ),
        None => Seq::empty(),
    }
}

/// The deliveries of a whole match-notifier cycle, in roster order.
pub open spec fn expected_match_notifs(
    summoners: Seq<SummonerDto>,
    guilds: Seq<GuildDto>,
    games: Seq<GameDto>,
) -> Seq<MatchNotification>
    decreases summoners.len(),
{
    if summoners.len() == 0 {
        Seq::empty()
    } else {
        match_notifs_unit(summoners[0], guilds, games) + expected_match_notifs(
            summoners.drop_first(),
            guilds,
            games,
        )
    }
}

/// The diagnostic message written when a guild has no destination channel.
pub open spec fn no_channel_msg(gid: i64) -> Seq<char> {
    "No chat channel set for guild: "@ + i64_text(gid as int)
}

/// The diagnostic message written when a player's owning guild row is not
/// recorded: its pending events stay unnotified until the guild appears.
pub open spec fn no_guild_msg(gid: i64) -> Seq<char> {
    "No guild found: "@ + i64_text(gid as int)
}

/// The diagnostic message written when a pending live match's player is not
/// on the roster.
pub open spec fn no_summoner_msg(sid: Seq<char>) -> Seq<char> {
    "No summoner found: "@ + sid
}

/// The messages one player contributes to a match-notifier cycle: one when
/// the player's guild row is missing, else one per unnotified match when
/// the guild is recorded without a destination channel.
pub open spec fn match_msgs_unit(
    s: SummonerDto,
    guilds: Seq<GuildDto>,
    games: Seq<GameDto>,
) -> Seq<Seq<char>> {
    if !has_guild(guilds, s.guild_id) {
        seq![no_guild_msg(s.guild_id)]
    } else if guild_at(guilds, s.guild_id).chat_channel_id is None {
        Seq::new(unnotified_for(games, s.id@).len(), |l: int| no_channel_msg(s.guild_id))
    } else {
        Seq::empty()
    }
}

/// The messages of a whole match-notifier cycle, in roster order.
pub open spec fn expected_match_msgs(
    summoners: Seq<SummonerDto>,
    guilds: Seq<GuildDto>,
    games: Seq<GameDto>,
) -> Seq<Seq<char>>
    decreases summoners.len(),
{
    if summoners.len() == 0 {
        Seq::empty()
    } else {
        match_msgs_unit(summoners[0], guilds, games) + expected_match_msgs(
            summoners.drop_first(),
            guilds,
            games,
        )
    }
}

/// The delivery a single live match contributes: one, when it awaits
/// delivery, its player is on the roster, and the player's guild has a
/// destination channel.
pub open spec fn active_notif_unit(
    a: ActiveGameDto,
    summoners: Seq<SummonerDto>,
    guilds: Seq<GuildDto>,
) -> Seq<ActiveGameNotification> {
    if !a.notified && has_key(summoners, a.summoner_id@) {
        let s = summoner_by_id(summoners, a.summoner_id@);
        match guild_channel(guilds, s.guild_id) {
            Some(ch) => seq![
                ActiveGameNotification { channel_id: ch, summoner: s, active_game: a },
            ],
            None => Seq::empty(),
        }
    } else {
        Seq::empty()
    }
}

/// The deliveries of a whole live-match-notifier cycle, in storage order.
pub open spec fn expected_active_notifs(
    actives: Seq<ActiveGameDto>,
    summoners: Seq<SummonerDto>,
    guilds: Seq<GuildDto>,
) -> Seq<ActiveGameNotification>
    decreases actives.len(),
{
    if actives.len() == 0 {
        Seq::empty()
    } else {
        active_notif_unit(actives[0], summoners, guilds) + expected_active_notifs(
            actives.drop_first(),
            summoners,
            guilds,
        )
    }
}

/// The message a single pending live match contributes: one when its player
/// is off the roster, one when the player's guild row is missing, and one
/// when the guild is recorded without a destination channel.
pub open spec fn active_msgs_unit(
    a: ActiveGameDto,
    summoners: Seq<SummonerDto>,
    guilds: Seq<GuildDto>,
) -> Seq<Seq<char>> {
    if a.notified {
        Seq::empty()
    } else if !has_key(summoners, a.summoner_id@) {
        seq![no_summoner_msg(a.summoner_id@)]
    } else if !has_guild(guilds, summoner_by_id(summoners, a.summoner_id@).guild_id) {
        seq![no_guild_msg(summoner_by_id(summoners, a.summoner_id@).guild_id)]
    } else if guild_at(guilds, summoner_by_id(summoners, a.summoner_id@).guild_id).chat_channel_id
        is None {
        seq![no_channel_msg(summoner_by_id(summoners, a.summoner_id@).guild_id)]
    } else {
        Seq::empty()
    }
}

/// The messages of a whole live-match-notifier cycle, in storage order.
pub open spec fn expected_active_msgs(
    actives: Seq<ActiveGameDto>,
    summoners: Seq<SummonerDto>,
    guilds: Seq<GuildDto>,
) -> Seq<Seq<char>>
    decreases actives.len(),
{
    if actives.len() == 0 {
        Seq::empty()
    } else {
        active_msgs_unit(actives[0], summoners, guilds) + expected_active_msgs(
            actives.drop_first(),
            summoners,
            guilds,
        )
    }
}

/// A cycle only appends to the diagnostic log: the old entries stay in
/// place and the new ones carry exactly the expected messages, each with
/// error severity.
pub open spec fn error_logs_appended(
    pre: Seq<LogDto>,
    post: Seq<LogDto>,
    msgs: Seq<Seq<char>>,
) -> bool {
    &&& post.len() == pre.len() + msgs.len()
    &&& forall|i: int| 0 <= i < pre.len() ==> post[i] == pre[i]
    &&& forall|i: int|
        0 <= i < msgs.len() ==> (#[trigger] post[pre.len() + i]).message@ == msgs[i] && post[
            pre.len() + i
        ].error_type == ErrorType::Error
}

/// Appending one more error entry extends the appended-message record.
pub proof fn lemma_error_logs_appended_push(
    pre: Seq<LogDto>,
    post: Seq<LogDto>,
    msgs: Seq<Seq<char>>,
    e: LogDto,
    m: Seq<char>,
)
    requires
        error_logs_appended(pre, post, msgs),
        e.message@ == m,
        e.error_type == ErrorType::Error,
    ensures
        error_logs_appended(pre, post.push(e), msgs.push(m)),
{
    assert forall|i: int|
        0 <= i < msgs.push(m).len() implies (#[trigger] post.push(e)[pre.len() + i]).message@
        == msgs.push(m)[i] && post.push(e)[pre.len() + i].error_type == ErrorType::Error by {
        if i < msgs.len() {
            assert(post.push(e)[pre.len() + i] == post[pre.len() + i]);
        } else {
            assert(post.push(e)[pre.len() + i] == e);
        }
    }
}

impl Facade {
    /// One match-notifier cycle. Returns, in roster order, one delivery per
    /// match that awaited delivery and whose player's guild has a
    /// destination channel; writes one diagnostic entry per match whose
    /// player's guild is recorded without one; and marks every match with a
    /// resolvable owner notified — with or without a destination, so a
    /// missing channel suppresses delivery but never blocks the dedup state.
    pub fn game_watcher_worker(&mut self) -> (notifs: Vec<MatchNotification>)
        requires
            old(self).store.wf(),
        ensures
            final(self).store.wf(),
            notifs@ == expected_match_notifs(
                old(self).store.summoners@,
                old(self).store.guilds@,
                old(self).store.games@,
            ),
            final(self).store.games@ == mark_resolvable_games(
                old(self).store.games@,
                old(self).store.summoners@,
                old(self).store.guilds@,
            ),
            notified_kept(old(self).store.games@, final(self).store.games@),
            error_logs_appended(
                old(self).store.logs@,
                final(self).store.logs@,
                expected_match_msgs(
                    old(self).store.summoners@,
                    old(self).store.guilds@,
                    old(self).store.games@,
                ),
            ),
            final(self).store.guilds@ == old(self).store.guilds@,
            final(self).store.summoners@ == old(self).store.summoners@,
            final(self).store.active_games@ == old(self).store.active_games@,
    {
        let ghost g_sum = self.store.summoners@;
        let ghost g_gld = self.store.guilds@;
        let ghost g_gam = self.store.games@;
        let ghost g_log = self.store.logs@;

        let mut notifs: Vec<MatchNotification> = Vec::new();
        let nsum = self.store.summoners.len();
        let mut k: usize = 0;
        while k < nsum
            invariant
                nsum == g_sum.len(),
                k <= nsum,
                self.store.wf(),
                self.store.summoners@ == g_sum,
                self.store.guilds@ == g_gld,
                self.store.games@ == g_gam,
                self.store.active_games@ == old(self).store.active_games@,
                notifs@ == expected_match_notifs(g_sum.take(k as int), g_gld, g_gam),
                error_logs_appended(
                    g_log,
                    self.store.logs@,
                    expected_match_msgs(g_sum.take(k as int), g_gld, g_gam),
                ),
            decreases nsum - k,
        {
            let ghost m0 = expected_match_msgs(g_sum.take(k as int), g_gld, g_gam);
            proof {
                lemma_take_push(g_sum, k as int);
                lemma_expected_match_notifs_push(g_sum.take(k as int), g_sum[k as int], g_gld, g_gam);
                lemma_expected_match_msgs_push(g_sum.take(k as int), g_sum[k as int], g_gld, g_gam);
            }
            let s = self.store.summoners[k].clone();
            match s.get_guild(&self.store) {
                Some(guild) => {
                    proof {
                        assert(guild == guild_at(g_gld, s.guild_id));
                        assert(guild.id == s.guild_id);
                        assert(guild_channel(g_gld, s.guild_id) == guild.chat_channel_id);
                    }
                    match guild.chat_channel_id {
                        Some(ch) => {
                            let games = GameDto::get_unnotified_games_for_summoner(
                                &self.store,
                                &s.id,
                            );
                            let ghost base = notifs@;
                            let m = games.len();
                            let mut j: usize = 0;
                            while j < m
                                invariant
                                    m == games@.len(),
                                    j <= m,
                                    games@ == unnotified_for(g_gam, g_sum[k as int].id@),
                                    s == g_sum[k as int],
                                    notifs@.len() == base.len() + j,
                                    forall|l: int| 0 <= l < base.len() ==> notifs@[l] == base[l],
                                    forall|l: int|
                                        0 <= l < j ==> notifs@[base.len() + l]
                                            == (MatchNotification {
                                            channel_id: ch,
                                            summoner: g_sum[k as int],
                                            game: games@[l],
                                        }),
                                decreases m - j,
                            {
                                notifs.push(
                                    MatchNotification {
                                        channel_id: ch,
                                        summoner: s.clone(),
                                        game: games[j].clone(),
                                    },
                                );
                                j += 1;
                            }
                            proof {
                                assert(match_msgs_unit(g_sum[k as int], g_gld, g_gam)
                                    =~= Seq::<Seq<char>>::empty());
                                assert(expected_match_msgs(g_sum.take(k as int + 1), g_gld, g_gam)
                                    =~= m0);
                                assert(notifs@ =~= base + match_notifs_unit(
                                    g_sum[k as int],
                                    g_gld,
                                    g_gam,
                                ));
                            }
                        },
                        None => {
                            let games = GameDto::get_unnotified_games_for_summoner(
                                &self.store,
                                &s.id,
                            );
                            let num = i64_to_string(guild.id);
                            let mut msg = String::from_str("No chat channel set for guild: ");
                            msg.append(num.as_str());
                            proof {
                                assert(msg@ == no_channel_msg(g_sum[k as int].guild_id));
                            }
                            let m = games.len();
                            let mut j: usize = 0;
                            while j < m
                                invariant
                                    m == games@.len(),
                                    j <= m,
                                    games@ == unnotified_for(g_gam, g_sum[k as int].id@),
                                    s == g_sum[k as int],
                                    msg@ == no_channel_msg(g_sum[k as int].guild_id),
                                    self.store.wf(),
                                    self.store.summoners@ == g_sum,
                                    self.store.guilds@ == g_gld,
                                    self.store.games@ == g_gam,
                                    self.store.active_games@ == old(self).store.active_games@,
                                    error_logs_appended(
                                        g_log,
                                        self.store.logs@,
                                        m0 + Seq::new(
                                            j as nat,
                                            |l: int| no_channel_msg(g_sum[k as int].guild_id),
                                        ),
                                    ),
                                decreases m - j,
                            {
                                let ghost logs_pre = self.store.logs@;
                                let ghost msgs_pre = m0 + Seq::new(
                                    j as nat,
                                    |l: int| no_channel_msg(g_sum[k as int].guild_id),
                                );
                                LogDto::error(&mut self.store, msg.as_str());
                                proof {
                                    lemma_error_logs_appended_push(
                                        g_log,
                                        logs_pre,
                                        msgs_pre,
                                        self.store.logs@.last(),
                                        no_channel_msg(g_sum[k as int].guild_id),
                                    );
                                    assert(self.store.logs@ == logs_pre.push(
                                        self.store.logs@.last(),
                                    ));
                                    assert(msgs_pre.push(
                                        no_channel_msg(g_sum[k as int].guild_id),
                                    ) =~= m0 + Seq::new(
                                        (j + 1) as nat,
                                        |l: int| no_channel_msg(g_sum[k as int].guild_id),
                                    ));
                                }
                                j += 1;
                            }
                            proof {
                                assert(match_notifs_unit(g_sum[k as int], g_gld, g_gam)
                                    =~= Seq::<MatchNotification>::empty());
                                assert(notifs@ =~= expected_match_notifs(
                                    g_sum.take(k as int + 1),
                                    g_gld,
                                    g_gam,
                                ));
                                assert(match_msgs_unit(g_sum[k as int], g_gld, g_gam) =~= Seq::new(
                                    m as nat,
                                    |l: int| no_channel_msg(g_sum[k as int].guild_id),
                                ));
                                assert(m0 + Seq::new(
                                    m as nat,
                                    |l: int| no_channel_msg(g_sum[k as int].guild_id),
                                ) =~= expected_match_msgs(g_sum.take(k as int + 1), g_gld, g_gam));
                            }
                        },
                    }
                },
                None => {
                    let num = i64_to_string(s.guild_id);
                    let mut msg = String::from_str("No guild found: ");
                    msg.append(num.as_str());
                    let ghost logs_pre = self.store.logs@;
                    LogDto::error(&mut self.store, msg.as_str());
                    proof {
                        assert(msg@ == no_guild_msg(g_sum[k as int].guild_id));
                        lemma_error_logs_appended_push(
                            g_log,
                            logs_pre,
                            m0,
                            self.store.logs@.last(),
                            no_guild_msg(g_sum[k as int].guild_id),
                        );
                        assert(self.store.logs@ == logs_pre.push(self.store.logs@.last()));
                        assert(guild_channel(g_gld, g_sum[k as int].guild_id) is None);
                        assert(match_notifs_unit(g_sum[k as int], g_gld, g_gam)
                            =~= Seq::<MatchNotification>::empty());
                        assert(notifs@ =~= expected_match_notifs(
                            g_sum.take(k as int + 1),
                            g_gld,
                            g_gam,
                        ));
                        assert(match_msgs_unit(g_sum[k as int], g_gld, g_gam) =~= seq![
                            no_guild_msg(g_sum[k as int].guild_id),
                        ]);
                        assert(m0.push(no_guild_msg(g_sum[k as int].guild_id)) =~= m0
                            + match_msgs_unit(g_sum[k as int], g_gld, g_gam));
                    }
                },
            }
            k += 1;
        }
        proof {
            assert(g_sum.take(nsum as int) =~= g_sum);
        }

        let ngames = self.store.games.len();
        let mut i: usize = 0;
        while i < ngames
            invariant
                ngames == self.store.games@.len(),
                ngames == g_gam.len(),
                i <= ngames,
                self.store.wf(),
                self.store.summoners@ == g_sum,
                self.store.guilds@ == g_gld,
                self.store.active_games@ == old(self).store.active_games@,
                error_logs_appended(
                    g_log,
                    self.store.logs@,
                    expected_match_msgs(g_sum, g_gld, g_gam),
                ),
                forall|j: int|
                    0 <= j < i ==> self.store.games@[j] == (if !g_gam[j].notified
                        && owner_resolvable(g_sum, g_gld, g_gam[j].summoner_id@) {
                        mark_game(g_gam[j])
                    } else {
                        g_gam[j]
                    }),
                forall|j: int| i <= j < ngames ==> self.store.games@[j] == g_gam[j],
            decreases ngames - i,
        {
            let notified = self.store.games[i].notified;
            if !notified {
                let resolvable: bool = match SummonerDto::get(
                    &self.store,
                    &self.store.games[i].summoner_id,
                ) {
                    Some(owner) => owner.get_guild(&self.store).is_some(),
                    None => false,
                };
                proof {
                    let sid = g_gam[i as int].summoner_id@;
                    if resolvable {
                        assert(owner_resolvable(g_sum, g_gld, sid));
                    } else {
                        if owner_resolvable(g_sum, g_gld, sid) {
                            let l = choose|l: int|
                                0 <= l < g_sum.len() && (#[trigger] g_sum[l]).id@ == sid
                                    && has_guild(g_gld, g_sum[l].guild_id);
                            assert(has_key(g_sum, sid));
                            assert(g_sum[key_index(g_sum, sid)].id@ == sid);
                            assert(l == key_index(g_sum, sid));
                            assert(false);
                        }
                    }
                }
                if resolvable {
                    self.store.games[i].notified = true;
                    proof {
                        assert forall|a: int, b: int|
                            0 <= a < b < self.store.games@.len() implies self.store.games@[a].key()
                            != self.store.games@[b].key() by {
                            assert(g_gam[a].key() != g_gam[b].key());
                            assert(self.store.games@[a].key() == g_gam[a].key());
                            assert(self.store.games@[b].key() == g_gam[b].key());
                        }
                    }
                }
            }
            i += 1;
        }
        proof {
            assert(self.store.games@ =~= mark_resolvable_games(g_gam, g_sum, g_gld));
            assert forall|i: int|
                0 <= i < g_gam.len() && #[trigger] g_gam[i].is_notified() implies exists|j: int|
                0 <= j < self.store.games@.len() && #[trigger] self.store.games@[j].key()
                    == g_gam[i].key() && self.store.games@[j].is_notified() by {
                assert(self.store.games@[i].key() == g_gam[i].key());
                assert(self.store.games@[i].is_notified());
            }
        }
        notifs
    }
}

impl Facade {
    /// One live-match-notifier cycle. Returns, in storage order, one
    /// delivery per live match that awaited delivery and whose player's
    /// guild has a destination channel; writes one diagnostic entry per live
    /// match whose player's guild is recorded without one; and marks every
    /// live match with a resolvable owner notified, with or without a
    /// destination.
    pub fn active_game_watcher_worker(&mut self) -> (notifs: Vec<ActiveGameNotification>)
        requires
            old(self).store.wf(),
        ensures
            final(self).store.wf(),
            notifs@ == expected_active_notifs(
                old(self).store.active_games@,
                old(self).store.summoners@,
                old(self).store.guilds@,
            ),
            final(self).store.active_games@ == mark_resolvable_actives(
                old(self).store.active_games@,
                old(self).store.summoners@,
                old(self).store.guilds@,
            ),
            notified_kept(old(self).store.active_games@, final(self).store.active_games@),
            error_logs_appended(
                old(self).store.logs@,
                final(self).store.logs@,
                expected_active_msgs(
                    old(self).store.active_games@,
                    old(self).store.summoners@,
                    old(self).store.guilds@,
                ),
            ),
            final(self).store.guilds@ == old(self).store.guilds@,
            final(self).store.summoners@ == old(self).store.summoners@,
            final(self).store.games@ == old(self).store.games@,
    {
        let ghost g_act = self.store.active_games@;
        let ghost g_sum = self.store.summoners@;
        let ghost g_gld = self.store.guilds@;
        let ghost g_log = self.store.logs@;

        let mut notifs: Vec<ActiveGameNotification> = Vec::new();
        let n = self.store.active_games.len();
        let mut i: usize = 0;
        while i < n
            invariant
                n == g_act.len(),
                self.store.active_games@.len() == n,
                i <= n,
                self.store.wf(),
                self.store.summoners@ == g_sum,
                self.store.guilds@ == g_gld,
                self.store.games@ == old(self).store.games@,
                forall|j: int|
                    0 <= j < i ==> self.store.active_games@[j] == (if !g_act[j].notified
                        && owner_resolvable(g_sum, g_gld, g_act[j].summoner_id@) {
                        mark_active(g_act[j])
                    } else {
                        g_act[j]
                    }),
                forall|j: int| i <= j < n ==> self.store.active_games@[j] == g_act[j],
                notifs@ == expected_active_notifs(g_act.take(i as int), g_sum, g_gld),
                error_logs_appended(
                    g_log,
                    self.store.logs@,
                    expected_active_msgs(g_act.take(i as int), g_sum, g_gld),
                ),
            decreases n - i,
        {
            let ghost notifs0 = notifs@;
            let ghost m0 = expected_active_msgs(g_act.take(i as int), g_sum, g_gld);
            proof {
                lemma_take_push(g_act, i as int);
                lemma_expected_active_notifs_push(g_act.take(i as int), g_act[i as int], g_sum, g_gld);
                lemma_expected_active_msgs_push(g_act.take(i as int), g_act[i as int], g_sum, g_gld);
            }
            let a = self.store.active_games[i].clone();
            let ghost sid = g_act[i as int].summoner_id@;
            if !a.notified {
                match SummonerDto::get(&self.store, &a.summoner_id) {
                    Some(owner) => {
                        proof {
                            assert(owner == summoner_by_id(g_sum, sid));
                        }
                        match owner.get_guild(&self.store) {
                            Some(guild) => {
                                proof {
                                    assert(guild == guild_at(g_gld, owner.guild_id));
                                    assert(guild.id == owner.guild_id);
                                    assert(guild_channel(g_gld, owner.guild_id)
                                        == guild.chat_channel_id);
                                    assert(g_sum[key_index(g_sum, sid)].id@ == sid);
                                    assert(owner_resolvable(g_sum, g_gld, sid));
                                }
                                match guild.chat_channel_id {
                                    Some(ch) => {
                                        notifs.push(
                                            ActiveGameNotification {
                                                channel_id: ch,
                                                summoner: owner,
                                                active_game: a,
                                            },
                                        );
                                        proof {
                                            assert(notifs@ =~= notifs0 + active_notif_unit(
                                                g_act[i as int],
                                                g_sum,
                                                g_gld,
                                            ));
                                            assert(active_msgs_unit(g_act[i as int], g_sum, g_gld)
                                                =~= Seq::<Seq<char>>::empty());
                                            assert(m0 + active_msgs_unit(
                                                g_act[i as int],
                                                g_sum,
                                                g_gld,
                                            ) =~= m0);
                                        }
                                    },
                                    None => {
                                        let num = i64_to_string(guild.id);
                                        let mut msg = String::from_str(
                                            "No chat channel set for guild: ",
                                        );
                                        msg.append(num.as_str());
                                        let ghost logs_pre = self.store.logs@;
                                        LogDto::error(&mut self.store, msg.as_str());
                                        proof {
                                            assert(msg@ == no_channel_msg(owner.guild_id));
                                            lemma_error_logs_appended_push(
                                                g_log,
                                                logs_pre,
                                                m0,
                                                self.store.logs@.last(),
                                                no_channel_msg(owner.guild_id),
                                            );
                                            assert(self.store.logs@ == logs_pre.push(
                                                self.store.logs@.last(),
                                            ));
                                            assert(active_msgs_unit(g_act[i as int], g_sum, g_gld)
                                                =~= seq![no_channel_msg(owner.guild_id)]);
                                            assert(m0.push(no_channel_msg(owner.guild_id)) =~= m0
                                                + active_msgs_unit(g_act[i as int], g_sum, g_gld));
                                            assert(active_notif_unit(g_act[i as int], g_sum, g_gld)
                                                =~= Seq::<ActiveGameNotification>::empty());
                                            assert(notifs@ =~= notifs0 + active_notif_unit(
                                                g_act[i as int],
                                                g_sum,
                                                g_gld,
                                            ));
                                        }
                                    },
                                }
                                let ghost act_pre = self.store.active_games@;
                                self.store.active_games[i].notified = true;
                                proof {
                                    assert forall|x: int, y: int|
                                        0 <= x < y < self.store.active_games@.len()
                                            implies self.store.active_games@[x].key()
                                            != self.store.active_games@[y].key() by {
                                        assert(act_pre[x].key() != act_pre[y].key());
                                        assert(self.store.active_games@[x].key()
                                            == act_pre[x].key());
                                        assert(self.store.active_games@[y].key()
                                            == act_pre[y].key());
                                    }
                                }
                            },
                            None => {
                                let num = i64_to_string(owner.guild_id);
                                let mut msg = String::from_str("No guild found: ");
                                msg.append(num.as_str());
                                let ghost logs_pre = self.store.logs@;
                                LogDto::error(&mut self.store, msg.as_str());
                                proof {
                                    assert(!has_guild(g_gld, owner.guild_id));
                                    if owner_resolvable(g_sum, g_gld, sid) {
                                        let l = choose|l: int|
                                            0 <= l < g_sum.len() && (#[trigger] g_sum[l]).id@
                                                == sid && has_guild(g_gld, g_sum[l].guild_id);
                                        assert(g_sum[key_index(g_sum, sid)].id@ == sid);
                                        assert(l == key_index(g_sum, sid));
                                        assert(false);
                                    }
                                    assert(guild_channel(g_gld, owner.guild_id) is None);
                                    assert(active_notif_unit(g_act[i as int], g_sum, g_gld)
                                        =~= Seq::<ActiveGameNotification>::empty());
                                    assert(notifs@ =~= notifs0 + active_notif_unit(
                                        g_act[i as int],
                                        g_sum,
                                        g_gld,
                                    ));
                                    assert(msg@ == no_guild_msg(owner.guild_id));
                                    lemma_error_logs_appended_push(
                                        g_log,
                                        logs_pre,
                                        m0,
                                        self.store.logs@.last(),
                                        no_guild_msg(owner.guild_id),
                                    );
                                    assert(self.store.logs@ == logs_pre.push(
                                        self.store.logs@.last(),
                                    ));
                                    assert(active_msgs_unit(g_act[i as int], g_sum, g_gld) =~= seq![
                                        no_guild_msg(owner.guild_id),
                                    ]);
                                    assert(m0.push(no_guild_msg(owner.guild_id)) =~= m0
                                        + active_msgs_unit(g_act[i as int], g_sum, g_gld));
                                }
                            },
                        }
                    },
                    None => {
                        let mut msg = String::from_str("No summoner found: ");
                        msg.append(a.summoner_id.as_str());
                        let ghost logs_pre = self.store.logs@;
                        LogDto::error(&mut self.store, msg.as_str());
                        proof {
                            assert(!has_key(g_sum, sid));
                            assert(!owner_resolvable(g_sum, g_gld, sid));
                            assert(active_notif_unit(g_act[i as int], g_sum, g_gld)
                                =~= Seq::<ActiveGameNotification>::empty());
                            assert(notifs@ =~= notifs0 + active_notif_unit(
                                g_act[i as int],
                                g_sum,
                                g_gld,
                            ));
                            assert(msg@ == no_summoner_msg(sid));
                            lemma_error_logs_appended_push(
                                g_log,
                                logs_pre,
                                m0,
                                self.store.logs@.last(),
                                no_summoner_msg(sid),
                            );
                            assert(self.store.logs@ == logs_pre.push(self.store.logs@.last()));
                            assert(active_msgs_unit(g_act[i as int], g_sum, g_gld) =~= seq![
                                no_summoner_msg(sid),
                            ]);
                            assert(m0.push(no_summoner_msg(sid)) =~= m0 + active_msgs_unit(
                                g_act[i as int],
                                g_sum,
                                g_gld,
                            ));
                        }
                    },
                }
            } else {
                proof {
                    assert(active_notif_unit(g_act[i as int], g_sum, g_gld)
                        =~= Seq::<ActiveGameNotification>::empty());
                    assert(active_msgs_unit(g_act[i as int], g_sum, g_gld)
                        =~= Seq::<Seq<char>>::empty());
                    assert(notifs@ =~= notifs0 + active_notif_unit(g_act[i as int], g_sum, g_gld));
                    assert(m0 + active_msgs_unit(g_act[i as int], g_sum, g_gld) =~= m0);
                }
            }
            i += 1;
        }
        proof {
            assert(g_act.take(n as int) =~= g_act);
            assert(self.store.active_games@ =~= mark_resolvable_actives(g_act, g_sum, g_gld));
            assert forall|l: int|
                0 <= l < g_act.len() && #[trigger] g_act[l].is_notified() implies exists|j: int|
                0 <= j < self.store.active_games@.len()
                    && #[trigger] self.store.active_games@[j].key() == g_act[l].key()
                    && self.store.active_games@[j].is_notified() by {
                assert(self.store.active_games@[l].key() == g_act[l].key());
                assert(self.store.active_games@[l].is_notified());
            }
        }
        notifs
    }
}

/// The cycle's deliveries grow one roster entry at a time.
pub proof fn lemma_expected_match_notifs_push(
    summoners: Seq<SummonerDto>,
    x: SummonerDto,
    guilds: Seq<GuildDto>,
    games: Seq<GameDto>,
)
    ensures
        expected_match_notifs(summoners.push(x), guilds, games) == expected_match_notifs(
            summoners,
            guilds,
            games,
        ) + match_notifs_unit(x, guilds, games),
    decreases summoners.len(),
{
    if summoners.len() == 0 {
        assert(summoners.push(x).drop_first() =~= summoners);
        assert(expected_match_notifs(summoners, guilds, games) == Seq::<MatchNotification>::empty());
        assert(expected_match_notifs(summoners.push(x), guilds, games) =~= expected_match_notifs(
            summoners,
            guilds,
            games,
        ) + match_notifs_unit(x, guilds, games));
    } else {
        assert(summoners.push(x).drop_first() =~= summoners.drop_first().push(x));
        lemma_expected_match_notifs_push(summoners.drop_first(), x, guilds, games);
        assert(expected_match_notifs(summoners.push(x), guilds, games) =~= expected_match_notifs(
            summoners,
            guilds,
            games,
        ) + match_notifs_unit(x, guilds, games));
    }
}

/// The cycle's messages grow one roster entry at a time.
pub proof fn lemma_expected_match_msgs_push(
    summoners: Seq<SummonerDto>,
    x: SummonerDto,
    guilds: Seq<GuildDto>,
    games: Seq<GameDto>,
)
    ensures
        expected_match_msgs(summoners.push(x), guilds, games) == expected_match_msgs(
            summoners,
            guilds,
            games,
        ) + match_msgs_unit(x, guilds, games),
    decreases summoners.len(),
{
    if summoners.len() == 0 {
        assert(summoners.push(x).drop_first() =~= summoners);
        assert(expected_match_msgs(summoners, guilds, games) == Seq::<Seq<char>>::empty());
        assert(expected_match_msgs(summoners.push(x), guilds, games) =~= expected_match_msgs(
            summoners,
            guilds,
            games,
        ) + match_msgs_unit(x, guilds, games));
    } else {
        assert(summoners.push(x).drop_first() =~= summoners.drop_first().push(x));
        lemma_expected_match_msgs_push(summoners.drop_first(), x, guilds, games);
        assert(expected_match_msgs(summoners.push(x), guilds, games) =~= expected_match_msgs(
            summoners,
            guilds,
            games,
        ) + match_msgs_unit(x, guilds, games));
    }
}

/// The cycle's deliveries grow one live match at a time.
pub proof fn lemma_expected_active_notifs_push(
    actives: Seq<ActiveGameDto>,
    x: ActiveGameDto,
    summoners: Seq<SummonerDto>,
    guilds: Seq<GuildDto>,
)
    ensures
        expected_active_notifs(actives.push(x), summoners, guilds) == expected_active_notifs(
            actives,
            summoners,
            guilds,
        ) + active_notif_unit(x, summoners, guilds),
    decreases actives.len(),
{
    if actives.len() == 0 {
        assert(actives.push(x).drop_first() =~= actives);
        assert(expected_active_notifs(actives, summoners, guilds)
            == Seq::<ActiveGameNotification>::empty());
        assert(expected_active_notifs(actives.push(x), summoners, guilds)
            =~= expected_active_notifs(actives, summoners, guilds) + active_notif_unit(
            x,
            summoners,
            guilds,
        ));
    } else {
        assert(actives.push(x).drop_first() =~= actives.drop_first().push(x));
        lemma_expected_active_notifs_push(actives.drop_first(), x, summoners, guilds);
        assert(expected_active_notifs(actives.push(x), summoners, guilds)
            =~= expected_active_notifs(actives, summoners, guilds) + active_notif_unit(
            x,
            summoners,
            guilds,
        ));
    }
}

/// The cycle's messages grow one live match at a time.
pub proof fn lemma_expected_active_msgs_push(
    actives: Seq<ActiveGameDto>,
    x: ActiveGameDto,
    summoners: Seq<SummonerDto>,
    guilds: Seq<GuildDto>,
)
    ensures
        expected_active_msgs(actives.push(x), summoners, guilds) == expected_active_msgs(
            actives,
            summoners,
            guilds,
        ) + active_msgs_unit(x, summoners, guilds),
    decreases actives.len(),
{
    if actives.len() == 0 {
        assert(actives.push(x).drop_first() =~= actives);
        assert(expected_active_msgs(actives, summoners, guilds) == Seq::<Seq<char>>::empty());
        assert(expected_active_msgs(actives.push(x), summoners, guilds) =~= expected_active_msgs(
            actives,
            summoners,
            guilds,
        ) + active_msgs_unit(x, summoners, guilds));
    } else {
        assert(actives.push(x).drop_first() =~= actives.drop_first().push(x));
        lemma_expected_active_msgs_push(actives.drop_first(), x, summoners, guilds);
        assert(expected_active_msgs(actives.push(x), summoners, guilds) =~= expected_active_msgs(
            actives,
            summoners,
            guilds,
        ) + active_msgs_unit(x, summoners, guilds));
    }
}

} // verus!
