//! A tracked group: the destination scope that owns tracked players. Its
//! optional chat channel decides whether notifications are delivered;
//! its absence never blocks ingestion.

use vstd::prelude::*;

use crate::store::Store;

verus! {

/// One destination scope (a chat guild). Keyed by its stable external id.
pub struct GuildDto {
    pub id: i64,
    pub chat_channel_id: Option<i64>,
    pub name: String,
    pub created_at: Option<i64>,
    pub updated_at: Option<i64>,
}

impl Clone for GuildDto {
    fn clone(&self) -> (r: Self)
        ensures
            r == *self,
    {
        GuildDto {
            id: self.id,
            chat_channel_id: self.chat_channel_id,
            name: self.name.clone(),
            created_at: self.created_at,
            updated_at: self.updated_at,
        }
    }
}

/// True when some guild in `s` carries the id `id`.
pub open spec fn has_guild(s: Seq<GuildDto>, id: i64) -> bool {
    exists|i: int| 0 <= i < s.len() && s[i].id == id
}

/// The index of the guild carrying `id`; unique whenever `unique_guild_ids`
/// holds.
pub open spec fn guild_index(s: Seq<GuildDto>, id: i64) -> int {
    choose|i: int| 0 <= i < s.len() && s[i].id == id
}

/// The guild carrying `id`.
pub open spec fn guild_at(s: Seq<GuildDto>, id: i64) -> GuildDto {
    s[guild_index(s, id)]
}

/// Every guild id occurs at most once in `s`.
pub open spec fn unique_guild_ids(s: Seq<GuildDto>) -> bool {
    forall|i: int, j: int| 0 <= i < j < s.len() ==> s[i].id != s[j].id
}

/// Append `g` unless its id is already present; a duplicate id is a silent
/// no-op that never touches the stored row.
pub open spec fn guild_insert_if_absent(s: Seq<GuildDto>, g: GuildDto) -> Seq<GuildDto> {
    if has_guild(s, g.id) {
        s
    } else {
        s.push(g)
    }
}

/// Overwrite the destination channel and display name of the stored row with
/// `g`'s id, keeping its remaining fields; updating an absent id is a no-op.
pub open spec fn guild_update(s: Seq<GuildDto>, g: GuildDto) -> Seq<GuildDto> {
    if has_guild(s, g.id) {
        let i = guild_index(s, g.id);
        s.update(
            i,
            (GuildDto { chat_channel_id: g.chat_channel_id, name: g.name, ..s[i] }),
        )
    } else {
        s
    }
}

/// Reconcile a guild row: overwrite the destination channel and display
/// name of the stored row with `g`'s id, keeping its remaining fields, or
/// insert `g` whole when the id is new. Either way the row exists
/// afterwards.
pub open spec fn guild_upsert(s: Seq<GuildDto>, g: GuildDto) -> Seq<GuildDto> {
    if has_guild(s, g.id) {
        guild_update(s, g)
    } else {
        s.push(g)
    }
}

impl GuildDto {
    /// Build a guild row with the given identity and destination; creation
    /// and update stamps are left to the storage adapter.
    pub fn new(id: i64, chat_channel_id: Option<i64>, name: String) -> (r: Self)
        ensures
            r == (GuildDto { id, chat_channel_id, name, created_at: None, updated_at: None }),
    {
        Self { id, chat_channel_id, name, created_at: None, updated_at: None }
    }

    /// Record this guild on first contact; an already-known id is left as it
    /// is.
    pub fn insert_or_ignore(self, store: &mut Store)
        requires
            old(store).wf(),
        ensures
            final(store).wf(),
            final(store).guilds@ == guild_insert_if_absent(old(store).guilds@, self),
            final(store).summoners@ == old(store).summoners@,
            final(store).games@ == old(store).games@,
            final(store).active_games@ == old(store).active_games@,
            final(store).logs@ == old(store).logs@,
    {
        let n = store.guilds.len();
        let mut i: usize = 0;
        while i < n
            invariant
                n == store.guilds@.len(),
                i <= n,
                forall|j: int| 0 <= j < i ==> store.guilds@[j].id != self.id,
            decreases n - i,
        {
            if store.guilds[i].id == self.id {
                proof {
                    assert(has_guild(store.guilds@, self.id));
                }
                return ;
            }
            i += 1;
        }
        proof {
            assert(!has_guild(store.guilds@, self.id));
        }
        let ghost pre = store.guilds@;
        store.guilds.push(self);
        proof {
            assert forall|a: int, b: int|
                0 <= a < b < store.guilds@.len() implies store.guilds@[a].id
                != store.guilds@[b].id by {
                if b == store.guilds@.len() - 1 {
                    assert(!has_guild(pre, store.guilds@[b].id));
                }
            }
        }
    }

    /// Update the stored destination channel and display name for this
    /// guild's id; an unknown id changes nothing. The reconcile operation
    /// that also creates the row when the id is new is `upsert`.
    pub fn update(self, store: &mut Store)
        requires
            old(store).wf(),
        ensures
            final(store).wf(),
            final(store).guilds@ == guild_update(old(store).guilds@, self),
            final(store).summoners@ == old(store).summoners@,
            final(store).games@ == old(store).games@,
            final(store).active_games@ == old(store).active_games@,
            final(store).logs@ == old(store).logs@,
    {
        let n = store.guilds.len();
        let mut i: usize = 0;
        while i < n
            invariant
                n == store.guilds@.len(),
                i <= n,
                store.guilds@ == old(store).guilds@,
                store.summoners@ == old(store).summoners@,
                store.games@ == old(store).games@,
                store.active_games@ == old(store).active_games@,
                store.logs@ == old(store).logs@,
                forall|j: int| 0 <= j < i ==> store.guilds@[j].id != self.id,
            decreases n - i,
        {
            if store.guilds[i].id == self.id {
                proof {
                    assert(has_guild(store.guilds@, self.id));
                    let gi = guild_index(store.guilds@, self.id);
                    assert(0 <= gi < store.guilds@.len() && store.guilds@[gi].id == self.id);
                    assert(gi == i as int);
                }
                let ghost pre = store.guilds@;
                store.guilds[i].chat_channel_id = self.chat_channel_id;
                store.guilds[i].name = self.name;
                proof {
                    assert(store.guilds@ =~= guild_update(pre, self));
                    assert forall|a: int, b: int|
                        0 <= a < b < store.guilds@.len() implies store.guilds@[a].id
                        != store.guilds@[b].id by {
                        assert(pre[a].id != pre[b].id);
                    }
                }
                return ;
            }
            i += 1;
        }
        proof {
            assert(!has_guild(store.guilds@, self.id));
        }
    }

    /// Reconcile this guild's identity and destination: update the stored
    /// row with this id, or insert this row when the id is new. Afterwards
    /// the row exists and carries this destination channel and name.
    pub fn upsert(self, store: &mut Store)
        requires
            old(store).wf(),
        ensures
            final(store).wf(),
            final(store).guilds@ == guild_upsert(old(store).guilds@, self),
            has_guild(final(store).guilds@, self.id),
            guild_at(final(store).guilds@, self.id).chat_channel_id == self.chat_channel_id,
            guild_at(final(store).guilds@, self.id).name == self.name,
            final(store).summoners@ == old(store).summoners@,
            final(store).games@ == old(store).games@,
            final(store).active_games@ == old(store).active_games@,
            final(store).logs@ == old(store).logs@,
    {
        let n = store.guilds.len();
        let mut i: usize = 0;
        while i < n
            invariant
                n == store.guilds@.len(),
                i <= n,
                store.guilds@ == old(store).guilds@,
                store.summoners@ == old(store).summoners@,
                store.games@ == old(store).games@,
                store.active_games@ == old(store).active_games@,
                store.logs@ == old(store).logs@,
                forall|j: int| 0 <= j < i ==> store.guilds@[j].id != self.id,
            decreases n - i,
        {
            if store.guilds[i].id == self.id {
                proof {
                    assert(has_guild(store.guilds@, self.id));
                    let gi = guild_index(store.guilds@, self.id);
                    assert(0 <= gi < store.guilds@.len() && store.guilds@[gi].id == self.id);
                    assert(gi == i as int);
                }
                let ghost pre = store.guilds@;
                store.guilds[i].chat_channel_id = self.chat_channel_id;
                store.guilds[i].name = self.name;
                proof {
                    assert(store.guilds@ =~= guild_upsert(pre, self));
                    assert forall|a: int, b: int|
                        0 <= a < b < store.guilds@.len() implies store.guilds@[a].id
                        != store.guilds@[b].id by {
                        assert(pre[a].id != pre[b].id);
                    }
                    assert(store.guilds@[i as int].id == self.id);
                    assert(has_guild(store.guilds@, self.id));
                    let gi = guild_index(store.guilds@, self.id);
                    assert(0 <= gi < store.guilds@.len() && store.guilds@[gi].id == self.id);
                    assert(gi == i as int);
                }
                return ;
            }
            i += 1;
        }
        proof {
            assert(!has_guild(store.guilds@, self.id));
        }
        let ghost pre = store.guilds@;
        store.guilds.push(self);
        proof {
            assert forall|a: int, b: int|
                0 <= a < b < store.guilds@.len() implies store.guilds@[a].id
                != store.guilds@[b].id by {
                if b == store.guilds@.len() - 1 {
                    assert(!has_guild(pre, store.guilds@[b].id));
                }
            }
            assert(store.guilds@[pre.len() as int].id == self.id);
            assert(has_guild(store.guilds@, self.id));
            let gi = guild_index(store.guilds@, self.id);
            assert(0 <= gi < store.guilds@.len() && store.guilds@[gi].id == self.id);
            assert(gi == pre.len() as int);
        }
    }

    /// Every stored guild, in storage order.
    pub fn get_all(store: &Store) -> (r: Vec<GuildDto>)
        ensures
            r@ == store.guilds@,
    {
        let n = store.guilds.len();
        let mut r: Vec<GuildDto> = Vec::new();
        let mut i: usize = 0;
        while i < n
            invariant
                n == store.guilds@.len(),
                i <= n,
                r@ == store.guilds@.take(i as int),
            decreases n - i,
        {
            r.push(store.guilds[i].clone());
            proof {
                assert(store.guilds@.take(i as int + 1) =~= store.guilds@.take(i as int).push(
                    store.guilds@[i as int],
                ));
            }
            i += 1;
        }
        proof {
            assert(store.guilds@.take(n as int) =~= store.guilds@);
        }
        r
    }
}

} // verus!
