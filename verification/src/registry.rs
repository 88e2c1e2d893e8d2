use vstd::prelude::*;
use crate::errors::AppError;
use crate::table::{
    find_by, lemma_find_by, lemma_find_by_first, lemma_find_by_none, lemma_unique_by_push,
    lemma_unique_by_remove, lemma_unique_by_update, unique_by,
};

verus! {

/// One live push-capable connection: its opaque id, owning user, current
/// subscription set, and lease expiry. The backing store reaps expired
/// records passively; readers must tolerate stale entries.
#[derive(Debug)]
pub struct ConnectionRecord {
    pub connection_id: String,
    pub user_id: String,
    pub email: String,
    pub channels: Vec<String>,
    pub expires_at: i64,
}

/// The subscription list of a record, as character sequences.
pub open spec fn chans_of(r: ConnectionRecord) -> Seq<Seq<char>> {
    r.channels@.map_values(|s: String| s@)
}

/// The subscription set of a record.
pub open spec fn subs_of(r: ConnectionRecord) -> Set<Seq<char>> {
    chans_of(r).to_set()
}

pub open spec fn is_subscribed(r: ConnectionRecord, ch: Seq<char>) -> bool {
    chans_of(r).contains(ch)
}

/// A record never lists the same conversation twice.
pub open spec fn rec_wf(r: ConnectionRecord) -> bool {
    forall|i: int, j: int|
        0 <= i < j < r.channels@.len() ==> r.channels@[i]@ != r.channels@[j]@
}

/// The registry's key function: a record's connection id.
pub open spec fn conn_key() -> spec_fn(ConnectionRecord) -> Seq<char> {
    |r: ConnectionRecord| r.connection_id@
}

/// The lookup predicate for a given connection id.
pub open spec fn conn_key_is(id: Seq<char>) -> spec_fn(ConnectionRecord) -> bool {
    |r: ConnectionRecord| r.connection_id@ == id
}

/// Index of the record owning `id`, or -1 if none is registered.
pub open spec fn reg_idx(s: Seq<ConnectionRecord>, id: Seq<char>) -> int {
    find_by(s, conn_key_is(id))
}

pub open spec fn reg_has(s: Seq<ConnectionRecord>, id: Seq<char>) -> bool {
    reg_idx(s, id) >= 0
}

/// The record replacing or extending the registry on `connect`: the given
/// identity, an empty subscription set, and the given lease expiry.
pub open spec fn fresh_conn(
    r: ConnectionRecord,
    cid: Seq<char>,
    uid: Seq<char>,
    email: Seq<char>,
    expires: int,
) -> bool {
    &&& r.connection_id@ == cid
    &&& r.user_id@ == uid
    &&& r.email@ == email
    &&& r.channels@.len() == 0
    &&& r.expires_at == expires
}

/// How `connect` rewrites the registry: an upsert keyed by connection id.
pub open spec fn connect_post(
    pre: Seq<ConnectionRecord>,
    post: Seq<ConnectionRecord>,
    cid: Seq<char>,
    uid: Seq<char>,
    email: Seq<char>,
    expires: int,
) -> bool {
    let k = reg_idx(pre, cid);
    if k == -1 {
        &&& post.len() == pre.len() + 1
        &&& forall|i: int| 0 <= i < pre.len() ==> post[i] == pre[i]
        &&& fresh_conn(post[pre.len() as int], cid, uid, email, expires)
    } else {
        &&& post.len() == pre.len()
        &&& forall|i: int| 0 <= i < pre.len() && i != k ==> post[i] == pre[i]
        &&& fresh_conn(post[k], cid, uid, email, expires)
    }
}

/// How `disconnect` rewrites the registry: the record is removed if present.
pub open spec fn disconnect_post(
    pre: Seq<ConnectionRecord>,
    post: Seq<ConnectionRecord>,
    cid: Seq<char>,
) -> bool {
    let k = reg_idx(pre, cid);
    if k == -1 {
        post == pre
    } else {
        post == pre.remove(k)
    }
}

/// The connection ids interested in `ch`, in registry order.
pub open spec fn subscriber_ids(s: Seq<ConnectionRecord>, ch: Seq<char>) -> Seq<Seq<char>>
    decreases s.len(),
{
    if s.len() == 0 {
        Seq::empty()
    } else {
        let head = subscriber_ids(s.drop_last(), ch);
        if is_subscribed(s.last(), ch) {
            head.push(s.last().connection_id@)
        } else {
            head
        }
    }
}

/// The records still alive at `now`: what the store's passive TTL pass
/// leaves behind, in order.
pub open spec fn live_records(s: Seq<ConnectionRecord>, now: i64) -> Seq<ConnectionRecord>
    decreases s.len(),
{
    if s.len() == 0 {
        Seq::empty()
    } else {
        let head = live_records(s.drop_last(), now);
        if s.last().expires_at > now {
            head.push(s.last())
        } else {
            head
        }
    }
}

/// Everything the TTL pass keeps was already in the registry.
pub proof fn lemma_live_records_contains(s: Seq<ConnectionRecord>, now: i64, x: ConnectionRecord)
    requires
        live_records(s, now).contains(x),
    ensures
        s.contains(x),
    decreases s.len(),
{
    let t = s.drop_last();
    let live = live_records(s, now);
    let head = live_records(t, now);
    let j = choose|j: int| 0 <= j < live.len() && live[j] == x;
    if s.last().expires_at > now && j == head.len() {
        assert(s[s.len() - 1] == x);
    } else {
        assert(head[j] == x);
        assert(head.contains(x));
        lemma_live_records_contains(t, now, x);
        let i = choose|i: int| 0 <= i < t.len() && t[i] == x;
        assert(t[i] == s[i]);
        assert(s[i] == x);
    }
}

/// The TTL pass preserves the registry invariant: it only drops records.
pub proof fn lemma_live_records_wf(s: Seq<ConnectionRecord>, now: i64)
    requires
        unique_by(s, conn_key()),
        forall|i: int| 0 <= i < s.len() ==> rec_wf(#[trigger] s[i]),
    ensures
        unique_by(live_records(s, now), conn_key()),
        forall|i: int|
            0 <= i < live_records(s, now).len() ==> rec_wf(#[trigger] live_records(s, now)[i]),
    decreases s.len(),
{
    if s.len() == 0 {
    } else {
        let t = s.drop_last();
        assert(forall|i: int| 0 <= i < t.len() ==> t[i] == s[i]);
        assert(unique_by(t, conn_key()));
        lemma_live_records_wf(t, now);
        let head = live_records(t, now);
        if s.last().expires_at > now {
            assert forall|i: int|
                0 <= i < head.len() implies #[trigger] conn_key()(head[i]) != conn_key()(
                s.last(),
            ) by {
                assert(head.contains(head[i]));
                lemma_live_records_contains(t, now, head[i]);
                let j = choose|j: int| 0 <= j < t.len() && t[j] == head[i];
                assert(t[j] == s[j]);
                assert(s[j] == head[i]);
                assert(conn_key()(s[j]) != conn_key()(s[s.len() - 1]));
            }
            lemma_unique_by_push(head, conn_key(), s.last());
            assert(rec_wf(s[s.len() - 1]));
        }
    }
}

/// Durable registry of live connections. Models the connections table of
/// the backing store: one row per connection id.
pub struct ConnectionRegistry {
    pub records: Vec<ConnectionRecord>,
}

impl ConnectionRegistry {
    pub open spec fn wf(self) -> bool {
        &&& unique_by(self.records@, conn_key())
        &&& forall|i: int| 0 <= i < self.records@.len() ==> rec_wf(#[trigger] self.records@[i])
    }

    pub fn new() -> (r: ConnectionRegistry)
        ensures
            r.wf(),
            r.records@.len() == 0,
    {
        ConnectionRegistry { records: Vec::new() }
    }

    /// Position of the record for `connection_id`, if registered.
    pub fn index_of(&self, connection_id: &String) -> (r: Option<usize>)
        ensures
            match r {
                Some(k) => k < self.records@.len() && reg_idx(self.records@, connection_id@)
                    == k as int,
                None => reg_idx(self.records@, connection_id@) == -1,
            },
    {
        let n = self.records.len();
        let mut i: usize = 0;
        while i < n
            invariant
                i <= n,
                n == self.records@.len(),
                forall|j: int| 0 <= j < i ==> self.records@[j].connection_id@ != connection_id@,
            decreases n - i,
        {
            if self.records[i].connection_id == *connection_id {
                proof {
                    assert(conn_key_is(connection_id@)(self.records@[i as int]));
                    assert forall|j: int| 0 <= j < i implies !#[trigger] conn_key_is(
                        connection_id@,
                    )(self.records@[j]) by {}
                    lemma_find_by_first(self.records@, conn_key_is(connection_id@), i as int);
                }
                return Some(i);
            }
            i = i + 1;
        }
        proof {
            assert forall|j: int|
                0 <= j < self.records@.len() implies !#[trigger] conn_key_is(connection_id@)(
                self.records@[j],
            ) by {}
            lemma_find_by_none(self.records@, conn_key_is(connection_id@));
        }
        None
    }

    /// Registers a connection: a fresh record with an empty subscription set
    /// and a 24-hour lease, replacing any record under the same id.
    pub fn connect(&mut self, connection_id: String, user_id: String, email: String, now: i64)
        requires
            old(self).wf(),
            now + 86400 <= i64::MAX,
        ensures
            final(self).wf(),
            connect_post(
                old(self).records@,
                final(self).records@,
                connection_id@,
                user_id@,
                email@,
                now + 86400,
            ),
    {
        let rec = ConnectionRecord {
            connection_id,
            user_id,
            email,
            channels: Vec::new(),
            expires_at: now + 86400,
        };
        match self.index_of(&rec.connection_id) {
            Some(k) => {
                proof {
                    lemma_find_by(self.records@, conn_key_is(rec.connection_id@));
                    assert(conn_key()(rec) == conn_key()(self.records@[k as int]));
                    lemma_unique_by_update(self.records@, conn_key(), k as int, rec);
                }
                self.records.set(k, rec);
            }
            None => {
                proof {
                    lemma_find_by(self.records@, conn_key_is(rec.connection_id@));
                    assert forall|i: int| 0 <= i < self.records@.len() implies #[trigger] conn_key()(
                        self.records@[i],
                    ) != conn_key()(rec) by {
                        assert(!conn_key_is(rec.connection_id@)(self.records@[i]));
                    }
                    lemma_unique_by_push(self.records@, conn_key(), rec);
                }
                self.records.push(rec);
            }
        }
    }

    /// Deletes the record for `connection_id`, if any. Used both for the
    /// explicit disconnect route and for reactive cleanup on failed pushes.
    pub fn disconnect(&mut self, connection_id: &String)
        requires
            old(self).wf(),
        ensures
            final(self).wf(),
            disconnect_post(old(self).records@, final(self).records@, connection_id@),
    {
        match self.index_of(connection_id) {
            Some(k) => {
                proof {
                    lemma_unique_by_remove(self.records@, conn_key(), k as int);
                }
                self.records.remove(k);
                proof {
                    assert forall|i: int| 0 <= i < self.records@.len() implies rec_wf(
                        #[trigger] self.records@[i],
                    ) by {
                        if i < k {
                            assert(self.records@[i] == old(self).records@[i]);
                        } else {
                            assert(self.records@[i] == old(self).records@[i + 1]);
                        }
                    }
                }
            }
            None => {}
        }
    }

    /// Adds `channel_id` to the connection's subscription set. Idempotent:
    /// adding an already-present conversation is a no-op, not an error.
    /// Fails with `NotFound` if the connection is not registered.
    pub fn subscribe(&mut self, connection_id: &String, channel_id: &String) -> (r: Result<
        (),
        AppError,
    >)
        requires
            old(self).wf(),
        ensures
            final(self).wf(),
            r is Ok <==> reg_has(old(self).records@, connection_id@),
            r is Err ==> final(self).records@ == old(self).records@ && r matches Err(
                AppError::NotFound(_),
            ),
            r is Ok ==> subscribe_post(
                old(self).records@,
                final(self).records@,
                connection_id@,
                channel_id@,
            ),
    {
        match self.index_of(connection_id) {
            None => Err(AppError::NotFound(String::from_str("connection not registered"))),
            Some(k) => {
                let ghost pre = self.records@;
                let mut rec = self.records.remove(k);
                let ghost rec0 = rec;
                match crate::text::position_of_str(&rec.channels, channel_id) {
                    Some(p) => {
                        proof {
                            assert(chans_of(rec0)[p as int] == channel_id@);
                            assert(is_subscribed(rec0, channel_id@));
                        }
                    }
                    None => {
                        rec.channels.push(channel_id.clone());
                        proof {
                            assert(chans_of(rec) =~= chans_of(rec0).push(channel_id@));
                        }
                    }
                }
                self.records.insert(k, rec);
                proof {
                    assert(self.records@ =~= pre.update(k as int, rec));
                    assert(conn_key()(rec) == conn_key()(pre[k as int]));
                    lemma_unique_by_update(pre, conn_key(), k as int, rec);
                    assert forall|i: int| 0 <= i < self.records@.len() implies rec_wf(
                        #[trigger] self.records@[i],
                    ) by {
                        if i != k {
                            assert(self.records@[i] == pre[i]);
                        } else {
                            assert(rec_wf(rec0));
                            if !is_subscribed(rec0, channel_id@) {
                                assert forall|a: int, b: int|
                                    0 <= a < b < rec.channels@.len() implies rec.channels@[a]@
                                    != rec.channels@[b]@ by {
                                    if b < rec.channels@.len() - 1 {
                                        assert(rec.channels@[a]@ == rec0.channels@[a]@);
                                        assert(rec.channels@[b]@ == rec0.channels@[b]@);
                                    } else {
                                        assert(rec.channels@[a]@ == chans_of(rec0)[a]);
                                        assert(!chans_of(rec0).contains(channel_id@));
                                    }
                                }
                            }
                        }
                    }
                }
                Ok(())
            }
        }
    }

    /// Removes `channel_id` from the connection's subscription set.
    /// Idempotent: removing an absent conversation is a no-op, not an error.
    /// Fails with `NotFound` if the connection is not registered.
    pub fn unsubscribe(&mut self, connection_id: &String, channel_id: &String) -> (r: Result<
        (),
        AppError,
    >)
        requires
            old(self).wf(),
        ensures
            final(self).wf(),
            r is Ok <==> reg_has(old(self).records@, connection_id@),
            r is Err ==> final(self).records@ == old(self).records@ && r matches Err(
                AppError::NotFound(_),
            ),
            r is Ok ==> unsubscribe_post(
                old(self).records@,
                final(self).records@,
                connection_id@,
                channel_id@,
            ),
    {
        match self.index_of(connection_id) {
            None => Err(AppError::NotFound(String::from_str("connection not registered"))),
            Some(k) => {
                let ghost pre = self.records@;
                let mut rec = self.records.remove(k);
                let ghost rec0 = rec;
                match crate::text::position_of_str(&rec.channels, channel_id) {
                    Some(p) => {
                        rec.channels.remove(p);
                        proof {
                            assert(is_subscribed(rec0, channel_id@)) by {
                                assert(chans_of(rec0)[p as int] == channel_id@);
                            }
                            lemma_unique_by_remove(
                                rec0.channels@,
                                |s: String| s@,
                                p as int,
                            );
                            assert(chans_of(rec) =~= chans_of(rec0).remove(p as int));
                            lemma_remove_unique_element(chans_of(rec0), channel_id@, p as int);
                        }
                    }
                    None => {
                        proof {
                            assert(!is_subscribed(rec0, channel_id@));
                        }
                    }
                }
                self.records.insert(k, rec);
                proof {
                    assert(self.records@ =~= pre.update(k as int, rec));
                    assert(conn_key()(rec) == conn_key()(pre[k as int]));
                    lemma_unique_by_update(pre, conn_key(), k as int, rec);
                    assert forall|i: int| 0 <= i < self.records@.len() implies rec_wf(
                        #[trigger] self.records@[i],
                    ) by {
                        if i != k {
                            assert(self.records@[i] == pre[i]);
                        } else {
                            assert(rec_wf(rec0));
                            if is_subscribed(rec0, channel_id@) {
                                assert forall|a: int, b: int|
                                    0 <= a < b < rec.channels@.len() implies rec.channels@[a]@
                                    != rec.channels@[b]@ by {
                                    assert(chans_of(rec)[a] != chans_of(rec)[b]);
                                }
                            }
                        }
                    }
                }
                Ok(())
            }
        }
    }

    /// Resolves the connections interested in `conversation_id`, in registry
    /// order. May include stale (expired) entries: the caller must tolerate
    /// failed pushes and clean up reactively.
    pub fn find_subscribers(&self, conversation_id: &String) -> (r: Vec<String>)
        ensures
            r@.map_values(|s: String| s@) == subscriber_ids(self.records@, conversation_id@),
    {
        let mut out: Vec<String> = Vec::new();
        let n = self.records.len();
        let mut i: usize = 0;
        proof {
            assert(self.records@.subrange(0, 0) =~= Seq::<ConnectionRecord>::empty());
            assert(out@.map_values(|s: String| s@) =~= Seq::<Seq<char>>::empty());
        }
        while i < n
            invariant
                i <= n,
                n == self.records@.len(),
                out@.map_values(|s: String| s@) == subscriber_ids(
                    self.records@.subrange(0, i as int),
                    conversation_id@,
                ),
            decreases n - i,
        {
            let ghost out_pre = out@;
            let ghost s_pre = self.records@.subrange(0, i as int);
            let ghost s_post = self.records@.subrange(0, i + 1);
            let rec = &self.records[i];
            let subscribed = match crate::text::position_of_str(&rec.channels, conversation_id) {
                Some(p) => {
                    proof {
                        assert(chans_of(*rec)[p as int] == conversation_id@);
                    }
                    true
                }
                None => {
                    proof {
                        if is_subscribed(*rec, conversation_id@) {
                            let q = choose|q: int|
                                0 <= q < chans_of(*rec).len() && chans_of(*rec)[q]
                                    == conversation_id@;
                            assert(rec.channels@[q]@ == conversation_id@);
                        }
                    }
                    false
                }
            };
            if subscribed {
                out.push(rec.connection_id.clone());
            }
            proof {
                assert(s_post.drop_last() =~= s_pre);
                assert(s_post.last() == self.records@[i as int]);
                if subscribed {
                    assert(out@.map_values(|s: String| s@) =~= out_pre.map_values(
                        |s: String| s@,
                    ).push(self.records@[i as int].connection_id@));
                }
            }
            i = i + 1;
        }
        proof {
            assert(self.records@.subrange(0, n as int) =~= self.records@);
        }
        out
    }
    /// The store's passive lease expiry: drops every record whose lease
    /// has run out by `now`. Readers never rely on this having happened —
    /// a stale entry surfaces as a failed push and is reaped reactively.
    pub fn reap_expired(&mut self, now: i64)
        requires
            old(self).wf(),
        ensures
            final(self).wf(),
            final(self).records@ == live_records(old(self).records@, now),
    {
        let ghost s0 = self.records@;
        let mut i: usize = 0;
        let ghost mut processed: int = 0;
        proof {
            assert(s0.subrange(0, 0) =~= Seq::<ConnectionRecord>::empty());
            assert(self.records@ =~= live_records(s0.subrange(0, 0), now) + s0.subrange(
                0,
                s0.len() as int,
            ));
        }
        while i < self.records.len()
            invariant
                0 <= processed <= s0.len(),
                i == live_records(s0.subrange(0, processed), now).len(),
                self.records@ == live_records(s0.subrange(0, processed), now) + s0.subrange(
                    processed,
                    s0.len() as int,
                ),
            decreases s0.len() - processed,
        {
            proof {
                assert(self.records@[i as int] == s0[processed]);
                assert(s0.subrange(0, processed + 1).drop_last() =~= s0.subrange(0, processed));
                assert(s0.subrange(0, processed + 1).last() == s0[processed]);
            }
            if self.records[i].expires_at > now {
                i = i + 1;
            } else {
                self.records.remove(i);
            }
            proof {
                processed = processed + 1;
                assert(self.records@ =~= live_records(s0.subrange(0, processed), now)
                    + s0.subrange(processed, s0.len() as int));
            }
        }
        proof {
            assert(s0.subrange(processed, s0.len() as int).len() == 0);
            assert(s0.subrange(0, s0.len() as int) =~= s0);
            assert(self.records@ =~= live_records(s0, now));
            lemma_live_records_wf(s0, now);
        }
    }

}

/// How a successful `subscribe` rewrites the registry: everything but the
/// addressed record is untouched; the record keeps its identity and either
/// is unchanged (the conversation was already present) or gains exactly the
/// new conversation id.
pub open spec fn subscribe_post(
    pre: Seq<ConnectionRecord>,
    post: Seq<ConnectionRecord>,
    cid: Seq<char>,
    ch: Seq<char>,
) -> bool {
    let k = reg_idx(pre, cid);
    &&& post.len() == pre.len()
    &&& forall|i: int| 0 <= i < pre.len() && i != k ==> post[i] == pre[i]
    &&& if is_subscribed(pre[k], ch) {
        post[k] == pre[k]
    } else {
        &&& post[k].connection_id == pre[k].connection_id
        &&& post[k].user_id == pre[k].user_id
        &&& post[k].email == pre[k].email
        &&& post[k].expires_at == pre[k].expires_at
        &&& chans_of(post[k]) == chans_of(pre[k]).push(ch)
    }
}

/// How a successful `unsubscribe` rewrites the registry.
pub open spec fn unsubscribe_post(
    pre: Seq<ConnectionRecord>,
    post: Seq<ConnectionRecord>,
    cid: Seq<char>,
    ch: Seq<char>,
) -> bool {
    let k = reg_idx(pre, cid);
    &&& post.len() == pre.len()
    &&& forall|i: int| 0 <= i < pre.len() && i != k ==> post[i] == pre[i]
    &&& if !is_subscribed(pre[k], ch) {
        post[k] == pre[k]
    } else {
        &&& post[k].connection_id == pre[k].connection_id
        &&& post[k].user_id == pre[k].user_id
        &&& post[k].email == pre[k].email
        &&& post[k].expires_at == pre[k].expires_at
        &&& !is_subscribed(post[k], ch)
        &&& subs_of(post[k]) == subs_of(pre[k]).remove(ch)
        &&& chans_of(post[k]).len() == chans_of(pre[k]).len() - 1
    }
}

/// Pushing an element onto a sequence adds exactly it to the induced set.
pub proof fn lemma_push_to_set<A>(s: Seq<A>, x: A)
    ensures
        s.push(x).to_set() == s.to_set().insert(x),
{
    let t = s.push(x);
    assert forall|y: A| t.to_set().contains(y) implies s.to_set().insert(x).contains(y) by {
        let i = choose|i: int| 0 <= i < t.len() && t[i] == y;
        if i < s.len() {
            assert(s[i] == y);
        }
    }
    assert forall|y: A| s.to_set().insert(x).contains(y) implies t.to_set().contains(y) by {
        if y == x {
            assert(t[s.len() as int] == y);
        } else {
            let i = choose|i: int| 0 <= i < s.len() && s[i] == y;
            assert(t[i] == y);
        }
    }
    assert(t.to_set() =~= s.to_set().insert(x));
}

/// A connection id is resolved for a conversation exactly when a registered
/// record carries that id and lists that conversation.
pub proof fn lemma_subscriber_ids_member(s: Seq<ConnectionRecord>, ch: Seq<char>, id: Seq<char>)
    ensures
        subscriber_ids(s, ch).contains(id) <==> exists|i: int|
            0 <= i < s.len() && (#[trigger] s[i]).connection_id@ == id && is_subscribed(s[i], ch),
    decreases s.len(),
{
    if s.len() == 0 {
    } else {
        let t = s.drop_last();
        lemma_subscriber_ids_member(t, ch, id);
        let ids_t = subscriber_ids(t, ch);
        let ids_s = subscriber_ids(s, ch);
        assert(forall|i: int| 0 <= i < t.len() ==> t[i] == s[i]);
        if is_subscribed(s.last(), ch) {
            assert(ids_s == ids_t.push(s.last().connection_id@));
            if ids_s.contains(id) {
                let j = choose|j: int| 0 <= j < ids_s.len() && ids_s[j] == id;
                if j < ids_t.len() {
                    assert(ids_t[j] == id);
                    let i = choose|i: int|
                        0 <= i < t.len() && t[i].connection_id@ == id && is_subscribed(t[i], ch);
                    assert(s[i].connection_id@ == id && is_subscribed(s[i], ch));
                } else {
                    assert(id == s.last().connection_id@);
                    assert(s[s.len() - 1].connection_id@ == id && is_subscribed(
                        s[s.len() - 1],
                        ch,
                    ));
                }
            }
            if exists|i: int|
                0 <= i < s.len() && (#[trigger] s[i]).connection_id@ == id && is_subscribed(
                    s[i],
                    ch,
                ) {
                let i = choose|i: int|
                    0 <= i < s.len() && (#[trigger] s[i]).connection_id@ == id && is_subscribed(
                        s[i],
                        ch,
                    );
                if i < s.len() - 1 {
                    assert(t[i].connection_id@ == id && is_subscribed(t[i], ch));
                    assert(ids_t.contains(id));
                    let j = choose|j: int| 0 <= j < ids_t.len() && ids_t[j] == id;
                    assert(ids_s[j] == id);
                } else {
                    assert(ids_s[ids_s.len() - 1] == id);
                }
                assert(ids_s.contains(id));
            }
        } else {
            assert(ids_s == ids_t);
            if ids_s.contains(id) {
                let i = choose|i: int|
                    0 <= i < t.len() && (#[trigger] t[i]).connection_id@ == id && is_subscribed(
                        t[i],
                        ch,
                    );
                assert(s[i].connection_id@ == id && is_subscribed(s[i], ch));
            }
            if exists|i: int|
                0 <= i < s.len() && (#[trigger] s[i]).connection_id@ == id && is_subscribed(
                    s[i],
                    ch,
                ) {
                let i = choose|i: int|
                    0 <= i < s.len() && (#[trigger] s[i]).connection_id@ == id && is_subscribed(
                        s[i],
                        ch,
                    );
                assert(i < s.len() - 1);
                assert(t[i].connection_id@ == id && is_subscribed(t[i], ch));
                assert(ids_t.contains(id));
            }
        }
    }
}

/// Dead-connection self-healing: once a connection's record is removed,
/// resolving the subscribers of any conversation never returns it again.
pub proof fn lemma_disconnect_clears_subscriber(
    pre: Seq<ConnectionRecord>,
    post: Seq<ConnectionRecord>,
    cid: Seq<char>,
    ch: Seq<char>,
)
    requires
        unique_by(pre, conn_key()),
        disconnect_post(pre, post, cid),
    ensures
        !subscriber_ids(post, ch).contains(cid),
{
    lemma_find_by(pre, conn_key_is(cid));
    let k = reg_idx(pre, cid);
    lemma_subscriber_ids_member(post, ch, cid);
    if subscriber_ids(post, ch).contains(cid) {
        let i = choose|i: int|
            0 <= i < post.len() && (#[trigger] post[i]).connection_id@ == cid && is_subscribed(
                post[i],
                ch,
            );
        if k == -1 {
            assert(pre[i].connection_id@ == cid);
        } else {
            let i0 = if i < k {
                i
            } else {
                i + 1
            };
            assert(post.len() == pre.len() - 1);
            if i < k {
                assert(post[i] == pre.subrange(0, k)[i]);
                assert(post[i] == pre[i]);
            } else {
                assert(post[i] == pre.subrange(k + 1, pre.len() as int)[i - k]);
                assert(post[i] == pre[i + 1]);
            }
            assert(pre[i0].connection_id@ == cid);
            assert(pre[k].connection_id@ == cid);
            assert(i0 != k);
        }
    }
}

/// The addressed record keeps its position: rewriting it without touching
/// its id, or leaving the rest of the registry alone, does not change where
/// the id is found.
pub proof fn lemma_reg_idx_preserved(
    pre: Seq<ConnectionRecord>,
    post: Seq<ConnectionRecord>,
    cid: Seq<char>,
)
    requires
        reg_has(pre, cid),
        post.len() == pre.len(),
        forall|i: int| 0 <= i < pre.len() && i != reg_idx(pre, cid) ==> post[i] == pre[i],
        post[reg_idx(pre, cid)].connection_id@ == cid,
    ensures
        reg_idx(post, cid) == reg_idx(pre, cid),
{
    let k = reg_idx(pre, cid);
    lemma_find_by(pre, conn_key_is(cid));
    assert forall|j: int| 0 <= j < k implies post[j].connection_id@ != cid by {
        assert(post[j] == pre[j]);
    }
    assert(conn_key_is(cid)(post[k]));
    assert forall|j: int| 0 <= j < k implies !#[trigger] conn_key_is(cid)(post[j]) by {}
    lemma_find_by_first(post, conn_key_is(cid), k);
}

/// Idempotent subscription: subscribing a connection to the same
/// conversation twice changes nothing the second time, and the resulting
/// subscription set is the original with the conversation added once.
pub proof fn lemma_subscribe_idempotent(
    r0: Seq<ConnectionRecord>,
    r1: Seq<ConnectionRecord>,
    r2: Seq<ConnectionRecord>,
    cid: Seq<char>,
    ch: Seq<char>,
)
    requires
        reg_has(r0, cid),
        subscribe_post(r0, r1, cid, ch),
        subscribe_post(r1, r2, cid, ch),
    ensures
        r2 == r1,
        subs_of(r1[reg_idx(r0, cid)]) == subs_of(r0[reg_idx(r0, cid)]).insert(ch),
        is_subscribed(r1[reg_idx(r0, cid)], ch),
{
    let k = reg_idx(r0, cid);
    lemma_find_by(r0, conn_key_is(cid));
    assert(r1[k].connection_id@ == cid);
    lemma_reg_idx_preserved(r0, r1, cid);
    if is_subscribed(r0[k], ch) {
        assert(r1[k] == r0[k]);
        assert(subs_of(r0[k]).contains(ch));
        assert(subs_of(r0[k]).insert(ch) =~= subs_of(r0[k]));
    } else {
        assert(chans_of(r1[k]) == chans_of(r0[k]).push(ch));
        assert(chans_of(r1[k])[chans_of(r1[k]).len() - 1] == ch);
        assert(is_subscribed(r1[k], ch));
        lemma_push_to_set(chans_of(r0[k]), ch);
    }
    assert(is_subscribed(r1[k], ch));
    assert(r2[k] == r1[k]);
    assert(r2 =~= r1);
}

/// Idempotent unsubscription: removing the same conversation twice changes
/// nothing the second time, and the resulting subscription set is the
/// original with the conversation absent.
pub proof fn lemma_unsubscribe_idempotent(
    r0: Seq<ConnectionRecord>,
    r1: Seq<ConnectionRecord>,
    r2: Seq<ConnectionRecord>,
    cid: Seq<char>,
    ch: Seq<char>,
)
    requires
        reg_has(r0, cid),
        unsubscribe_post(r0, r1, cid, ch),
        unsubscribe_post(r1, r2, cid, ch),
    ensures
        r2 == r1,
        subs_of(r1[reg_idx(r0, cid)]) == subs_of(r0[reg_idx(r0, cid)]).remove(ch),
        !is_subscribed(r1[reg_idx(r0, cid)], ch),
{
    let k = reg_idx(r0, cid);
    lemma_find_by(r0, conn_key_is(cid));
    assert(r1[k].connection_id@ == cid);
    lemma_reg_idx_preserved(r0, r1, cid);
    if is_subscribed(r0[k], ch) {
        assert(!is_subscribed(r1[k], ch));
    } else {
        assert(r1[k] == r0[k]);
        assert(!subs_of(r0[k]).contains(ch));
        assert(subs_of(r0[k]).remove(ch) =~= subs_of(r0[k]));
    }
    assert(!is_subscribed(r1[k], ch));
    assert(r2[k] == r1[k]);
    assert(r2 =~= r1);
}

/// Removing the only occurrence of `x` from a duplicate-free sequence
/// removes exactly `x` from the induced set.
pub proof fn lemma_remove_unique_element(s: Seq<Seq<char>>, x: Seq<char>, p: int)
    requires
        0 <= p < s.len(),
        s[p] == x,
        forall|i: int, j: int| 0 <= i < j < s.len() ==> s[i] != s[j],
    ensures
        !s.remove(p).contains(x),
        s.remove(p).to_set() == s.to_set().remove(x),
{
    let t = s.remove(p);
    assert forall|i: int| 0 <= i < t.len() implies t[i] != x by {
        if i < p {
            assert(t[i] == s[i]);
        } else {
            assert(t[i] == s[i + 1]);
        }
    }
    assert forall|y: Seq<char>| t.to_set().contains(y) implies s.to_set().remove(x).contains(
        y,
    ) by {
        let i = choose|i: int| 0 <= i < t.len() && t[i] == y;
        let i0 = if i < p { i } else { i + 1 };
        assert(s[i0] == y);
        assert(y != x);
    }
    assert forall|y: Seq<char>| s.to_set().remove(x).contains(y) implies t.to_set().contains(
        y,
    ) by {
        let i = choose|i: int| 0 <= i < s.len() && s[i] == y;
        assert(i != p);
        let i1 = if i < p { i } else { i - 1 };
        assert(t[i1] == y);
    }
    assert(t.to_set() =~= s.to_set().remove(x));
}

} // verus!
