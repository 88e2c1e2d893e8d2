use vstd::prelude::*;
use crate::pagination::{
    clamp_limit, cut_index, cut_of, lemma_cut_index, lemma_page_chain, page_cursor,
    page_has_more, page_len, page_seq, sorted_by_key, strictly_sorted_by_key,
};
use crate::messages::{ins_pos, lemma_ins_pos};
use crate::text::{lemma_lex_lt_asymmetric, lemma_lex_lt_total, lex_lt, str_lt};

verus! {

/// One user's view of a direct-message pairing: who the other party is and
/// the denormalized inbox preview. A DM conversation has two such rows,
/// one per participant, each independently updatable.
#[derive(Debug)]
pub struct Conversation {
    pub id: String,
    pub other_user_id: String,
    pub other_username: String,
    pub updated_at: i64,
    pub last_message_preview: Option<String>,
    pub created_at: i64,
}

impl Conversation {
    /// A field-for-field copy with its contents pinned down.
    pub fn duplicate(&self) -> (r: Conversation)
        ensures
            r == *self,
    {
        Conversation {
            id: self.id.clone(),
            other_user_id: self.other_user_id.clone(),
            other_username: self.other_username.clone(),
            updated_at: self.updated_at,
            last_message_preview: match &self.last_message_preview {
                Some(p) => Some(p.clone()),
                None => None,
            },
            created_at: self.created_at,
        }
    }
}

/// A direct message. `created_at` (milliseconds) is the log's sort key.
#[derive(Debug)]
pub struct DirectMessage {
    pub id: String,
    pub conversation_id: String,
    pub author_id: String,
    pub author_username: String,
    pub content: String,
    pub created_at: i64,
}

impl DirectMessage {
    /// A field-for-field copy with its contents pinned down.
    pub fn duplicate(&self) -> (r: DirectMessage)
        ensures
            r == *self,
    {
        DirectMessage {
            id: self.id.clone(),
            conversation_id: self.conversation_id.clone(),
            author_id: self.author_id.clone(),
            author_username: self.author_username.clone(),
            content: self.content.clone(),
            created_at: self.created_at,
        }
    }
}

#[derive(Debug)]
pub struct DmMessagesResponse {
    pub messages: Vec<DirectMessage>,
    pub has_more: bool,
    pub next_cursor: Option<i64>,
}

#[derive(Debug)]
pub struct StartConversationRequest {
    pub recipient_id: String,
}

#[derive(Debug)]
pub struct SendDmRequest {
    pub content: String,
}

/// The pagination sort key of a direct message.
pub open spec fn dm_key() -> spec_fn(DirectMessage) -> i64 {
    |m: DirectMessage| m.created_at
}

/// The id of the conversation between two users: their ids joined by an
/// underscore, smaller id first, so both participants compute the same id
/// without a lookup.
pub open spec fn conversation_id_spec(u1: Seq<char>, u2: Seq<char>) -> Seq<char> {
    if lex_lt(u2, u1) {
        u2 + seq!['_'] + u1
    } else {
        u1 + seq!['_'] + u2
    }
}

/// Builds the deterministic conversation id for a pair of users.
pub fn make_conversation_id(user1: &str, user2: &str) -> (r: String)
    ensures
        r@ == conversation_id_spec(user1@, user2@),
{
    proof {
        reveal_strlit("_");
        assert("_"@ =~= seq!['_']);
    }
    let mut s = String::new();
    if str_lt(user2, user1) {
        s.append(user2);
        s.append("_");
        s.append(user1);
    } else {
        s.append(user1);
        s.append("_");
        s.append(user2);
    }
    s
}

/// Conversation-id determinism (law): the id does not depend on the order
/// in which the two participants are given.
pub proof fn lemma_conversation_id_symmetric(u1: Seq<char>, u2: Seq<char>)
    ensures
        conversation_id_spec(u1, u2) == conversation_id_spec(u2, u1),
{
    if u1 == u2 {
    } else {
        lemma_lex_lt_total(u1, u2);
        if lex_lt(u1, u2) {
            lemma_lex_lt_asymmetric(u1, u2);
        } else {
            lemma_lex_lt_asymmetric(u2, u1);
        }
    }
}

/// The message log of one DM conversation, kept ascending by timestamp.
/// Append-only, like the channel logs.
pub struct DmLog {
    pub conversation_id: String,
    pub entries: Vec<DirectMessage>,
}

impl DmLog {
    pub open spec fn wf(self) -> bool {
        &&& sorted_by_key(self.entries@, dm_key())
        &&& forall|i: int|
            0 <= i < self.entries@.len() ==> (#[trigger] self.entries@[i]).conversation_id@
                == self.conversation_id@
    }

    pub fn new(conversation_id: String) -> (r: DmLog)
        ensures
            r.wf(),
            r.entries@.len() == 0,
            r.conversation_id@ == conversation_id@,
    {
        DmLog { conversation_id, entries: Vec::new() }
    }

    /// Files a message at its timestamp, after any existing message with
    /// the same timestamp.
    pub fn append(&mut self, m: DirectMessage)
        requires
            old(self).wf(),
            m.conversation_id@ == old(self).conversation_id@,
        ensures
            final(self).wf(),
            final(self).conversation_id == old(self).conversation_id,
            final(self).entries@ == old(self).entries@.insert(
                ins_pos(old(self).entries@, dm_key(), m.created_at),
                m,
            ),
    {
        let ghost s0 = self.entries@;
        let t = m.created_at;
        let n = self.entries.len();
        let mut p: usize = n;
        proof {
            assert(s0.subrange(0, n as int) =~= s0);
        }
        while p > 0 && self.entries[p - 1].created_at > t
            invariant
                p <= n,
                n == s0.len(),
                self.entries@ == s0,
                ins_pos(s0, dm_key(), t) == ins_pos(s0.subrange(0, p as int), dm_key(), t),
                forall|i: int| p <= i < n ==> dm_key()(#[trigger] s0[i]) > t,
            decreases p,
        {
            proof {
                assert(s0.subrange(0, p as int).drop_last() =~= s0.subrange(0, p - 1));
                assert(s0.subrange(0, p as int).last() == s0[p - 1]);
            }
            p = p - 1;
        }
        proof {
            if p > 0 {
                assert(s0.subrange(0, p as int).last() == s0[p - 1]);
                assert(ins_pos(s0.subrange(0, p as int), dm_key(), t) == p);
            } else {
                assert(s0.subrange(0, 0) =~= Seq::<DirectMessage>::empty());
            }
            assert(ins_pos(s0, dm_key(), t) == p);
            lemma_ins_pos(s0, dm_key(), t);
        }
        self.entries.insert(p, m);
        proof {
            let s1 = self.entries@;
            assert forall|i: int, j: int| 0 <= i < j < s1.len() implies dm_key()(s1[i])
                <= dm_key()(s1[j]) by {
                if i == p {
                    assert(s1[j] == s0[j - 1]);
                } else if j == p {
                    assert(s1[i] == s0[i]);
                } else if j < p {
                    assert(s1[i] == s0[i] && s1[j] == s0[j]);
                } else if i > p {
                    assert(s1[i] == s0[i - 1] && s1[j] == s0[j - 1]);
                } else {
                    assert(s1[i] == s0[i] && s1[j] == s0[j - 1]);
                    if i == j - 1 {
                        assert(dm_key()(s0[i]) <= t);
                    }
                }
            }
        }
    }

    /// Serves one page of DM history, with the same cursor contract as the
    /// channel pagination: newest first, `limit` clamped to [1, 100],
    /// `before` exclusive, and `next_cursor` the timestamp of the oldest
    /// returned message when more remain.
    pub fn page(&self, limit: usize, before: Option<i64>) -> (r: DmMessagesResponse)
        requires
            self.wf(),
        ensures
            r.messages@ == page_seq(self.entries@, dm_key(), limit as int, before),
            r.has_more == page_has_more(self.entries@, dm_key(), limit as int, before),
            r.next_cursor == page_cursor(self.entries@, dm_key(), limit as int, before),
    {
        let ghost s = self.entries@;
        let k: usize = if limit < 1 {
            1
        } else if limit > 100 {
            100
        } else {
            limit
        };
        let n = self.entries.len();
        let mut cut: usize = n;
        match before {
            None => {},
            Some(b) => {
                proof {
                    assert(s.subrange(0, n as int) =~= s);
                }
                while cut > 0 && self.entries[cut - 1].created_at >= b
                    invariant
                        cut <= n,
                        n == s.len(),
                        self.entries@ == s,
                        cut_index(s, dm_key(), b) == cut_index(
                            s.subrange(0, cut as int),
                            dm_key(),
                            b,
                        ),
                    decreases cut,
                {
                    proof {
                        assert(s.subrange(0, cut as int).drop_last() =~= s.subrange(
                            0,
                            cut - 1,
                        ));
                        assert(s.subrange(0, cut as int).last() == s[cut - 1]);
                    }
                    cut = cut - 1;
                }
                proof {
                    if cut > 0 {
                        assert(s.subrange(0, cut as int).last() == s[cut - 1]);
                        assert(cut_index(s.subrange(0, cut as int), dm_key(), b) == cut);
                    } else {
                        assert(s.subrange(0, 0) =~= Seq::<DirectMessage>::empty());
                    }
                    assert(cut_index(s, dm_key(), b) == cut);
                }
            },
        }
        proof {
            assert(cut_of(s, dm_key(), before) == cut);
        }
        let take: usize = if k < cut {
            k
        } else {
            cut
        };
        let mut messages: Vec<DirectMessage> = Vec::new();
        let mut j: usize = 0;
        while j < take
            invariant
                j <= take,
                take <= cut <= n,
                n == s.len(),
                self.entries@ == s,
                messages@.len() == j,
                forall|i: int| 0 <= i < j ==> messages@[i] == s[cut - 1 - i],
            decreases take - j,
        {
            messages.push(self.entries[cut - 1 - j].duplicate());
            j = j + 1;
        }
        let has_more = cut > k;
        let next_cursor: Option<i64> = if has_more {
            Some(self.entries[cut - k].created_at)
        } else {
            None
        };
        proof {
            assert(messages@ =~= page_seq(s, dm_key(), limit as int, before));
        }
        DmMessagesResponse { messages, has_more, next_cursor }
    }
}

/// One stored row of the conversations table: a participant's view of a
/// conversation, keyed by (conversation id, owning user id).
#[derive(Debug)]
pub struct ConversationRow {
    pub user_id: String,
    pub conv: Conversation,
}

/// The conversation table's key function.
pub open spec fn conv_key() -> spec_fn(ConversationRow) -> (Seq<char>, Seq<char>) {
    |r: ConversationRow| (r.conv.id@, r.user_id@)
}

/// The lookup predicate for a (conversation, user) pair.
pub open spec fn conv_key_is(id: Seq<char>, uid: Seq<char>) -> spec_fn(ConversationRow) -> bool {
    |r: ConversationRow| r.conv.id@ == id && r.user_id@ == uid
}

pub open spec fn conv_idx(s: Seq<ConversationRow>, id: Seq<char>, uid: Seq<char>) -> int {
    crate::table::find_by(s, conv_key_is(id, uid))
}

/// How `upsert` rewrites the table: replace the row under the same key, or
/// append a new one.
pub open spec fn conv_upsert_post(
    pre: Seq<ConversationRow>,
    post: Seq<ConversationRow>,
    row: ConversationRow,
) -> bool {
    let k = conv_idx(pre, row.conv.id@, row.user_id@);
    if k == -1 {
        post == pre.push(row)
    } else {
        post == pre.update(k, row)
    }
}

/// How `touch` rewrites the table: if the addressed row exists, only its
/// `updated_at` and preview change; everything else is untouched.
pub open spec fn touch_post(
    pre: Seq<ConversationRow>,
    post: Seq<ConversationRow>,
    cid: Seq<char>,
    uid: Seq<char>,
    now: i64,
    pv: Seq<char>,
) -> bool {
    let k = conv_idx(pre, cid, uid);
    if k == -1 {
        post == pre
    } else {
        &&& post.len() == pre.len()
        &&& forall|j: int| 0 <= j < pre.len() && j != k ==> post[j] == pre[j]
        &&& post[k].user_id == pre[k].user_id
        &&& post[k].conv.id == pre[k].conv.id
        &&& post[k].conv.other_user_id == pre[k].conv.other_user_id
        &&& post[k].conv.other_username == pre[k].conv.other_username
        &&& post[k].conv.created_at == pre[k].conv.created_at
        &&& post[k].conv.updated_at == now
        &&& post[k].conv.last_message_preview matches Some(p) && p@ == pv
    }
}

/// The conversations of one user, in table order.
pub open spec fn convs_of_user(s: Seq<ConversationRow>, uid: Seq<char>) -> Seq<Conversation>
    decreases s.len(),
{
    if s.len() == 0 {
        Seq::empty()
    } else {
        let head = convs_of_user(s.drop_last(), uid);
        if s.last().user_id@ == uid {
            head.push(s.last().conv)
        } else {
            head
        }
    }
}

/// The conversations table: per-user projection rows of DM pairings, one
/// row per (conversation, participant).
#[derive(Debug)]
pub struct ConversationTable {
    pub rows: Vec<ConversationRow>,
}

impl ConversationTable {
    pub open spec fn wf(self) -> bool {
        crate::table::unique_by(self.rows@, conv_key())
    }

    pub fn new() -> (r: ConversationTable)
        ensures
            r.wf(),
            r.rows@.len() == 0,
    {
        ConversationTable { rows: Vec::new() }
    }

    /// Position of the row for (conversation, user), if present.
    pub fn index_of(&self, conversation_id: &String, user_id: &String) -> (r: Option<usize>)
        ensures
            match r {
                Some(k) => k < self.rows@.len() && conv_idx(
                    self.rows@,
                    conversation_id@,
                    user_id@,
                ) == k as int,
                None => conv_idx(self.rows@, conversation_id@, user_id@) == -1,
            },
    {
        let n = self.rows.len();
        let mut i: usize = 0;
        while i < n
            invariant
                i <= n,
                n == self.rows@.len(),
                forall|j: int|
                    0 <= j < i ==> !(self.rows@[j].conv.id@ == conversation_id@
                        && self.rows@[j].user_id@ == user_id@),
            decreases n - i,
        {
            if self.rows[i].conv.id == *conversation_id && self.rows[i].user_id == *user_id {
                proof {
                    assert(conv_key_is(conversation_id@, user_id@)(self.rows@[i as int]));
                    assert forall|j: int| 0 <= j < i implies !#[trigger] conv_key_is(
                        conversation_id@,
                        user_id@,
                    )(self.rows@[j]) by {}
                    crate::table::lemma_find_by_first(
                        self.rows@,
                        conv_key_is(conversation_id@, user_id@),
                        i as int,
                    );
                }
                return Some(i);
            }
            i = i + 1;
        }
        proof {
            assert forall|j: int|
                0 <= j < self.rows@.len() implies !#[trigger] conv_key_is(
                conversation_id@,
                user_id@,
            )(self.rows@[j]) by {}
            crate::table::lemma_find_by_none(
                self.rows@,
                conv_key_is(conversation_id@, user_id@),
            );
        }
        None
    }

    /// Hands back the caller's view of the conversation, or `Forbidden` if
    /// the caller is not a participant.
    pub fn verify_participant(&self, conversation_id: &String, user_id: &String) -> (r: Result<
        Conversation,
        (u16, String),
    >)
        ensures
            r is Ok <==> conv_idx(self.rows@, conversation_id@, user_id@) >= 0,
            r matches Ok(c) ==> c == self.rows@[conv_idx(
                self.rows@,
                conversation_id@,
                user_id@,
            )].conv,
            r matches Err(e) ==> e.0 == 403,
    {
        match self.index_of(conversation_id, user_id) {
            Some(k) => Ok(self.rows[k].conv.duplicate()),
            None => Err(
                (403, String::from_str("You are not a participant in this conversation")),
            ),
        }
    }

    /// Replaces the row under this key, or appends it.
    pub fn upsert(&mut self, row: ConversationRow)
        requires
            old(self).wf(),
        ensures
            final(self).wf(),
            conv_upsert_post(old(self).rows@, final(self).rows@, row),
    {
        let ghost pre = self.rows@;
        match self.index_of(&row.conv.id, &row.user_id) {
            Some(k) => {
                proof {
                    crate::table::lemma_find_by(pre, conv_key_is(row.conv.id@, row.user_id@));
                    assert(conv_key()(row) == conv_key()(pre[k as int]));
                    crate::table::lemma_unique_by_update(pre, conv_key(), k as int, row);
                }
                self.rows.set(k, row);
            },
            None => {
                proof {
                    crate::table::lemma_find_by(pre, conv_key_is(row.conv.id@, row.user_id@));
                    assert forall|i: int| 0 <= i < pre.len() implies #[trigger] conv_key()(
                        pre[i],
                    ) != conv_key()(row) by {
                        assert(!conv_key_is(row.conv.id@, row.user_id@)(pre[i]));
                    }
                    crate::table::lemma_unique_by_push(pre, conv_key(), row);
                }
                self.rows.push(row);
            },
        }
    }

    /// Best-effort inbox projection update: bumps `updated_at` and the
    /// preview of the addressed row if it exists, and does nothing
    /// otherwise. Failures here never fail the message write.
    pub fn touch(&mut self, conversation_id: &String, user_id: &String, now: i64, preview: &String)
        requires
            old(self).wf(),
        ensures
            final(self).wf(),
            touch_post(
                old(self).rows@,
                final(self).rows@,
                conversation_id@,
                user_id@,
                now,
                preview@,
            ),
    {
        let ghost pre = self.rows@;
        match self.index_of(conversation_id, user_id) {
            None => {},
            Some(k) => {
                let mut row = self.rows.remove(k);
                let ghost row0 = row;
                row.conv.updated_at = now;
                row.conv.last_message_preview = Some(preview.clone());
                self.rows.insert(k, row);
                proof {
                    assert(self.rows@ =~= pre.update(k as int, row));
                    assert(conv_key()(row) == conv_key()(pre[k as int]));
                    crate::table::lemma_unique_by_update(pre, conv_key(), k as int, row);
                }
            },
        }
    }
}

/// Pagination completeness for direct messages (law): over a DM log of
/// strictly increasing timestamps, chaining `page` through `next_cursor`
/// until `has_more` is false yields exactly the log's messages in
/// descending timestamp order, with no duplicates and no omissions,
/// whatever the page size asked for.
pub fn collect_dm_history(log: &DmLog, limit: usize) -> (r: Vec<DirectMessage>)
    requires
        log.wf(),
        strictly_sorted_by_key(log.entries@, dm_key()),
    ensures
        r@ == log.entries@.reverse(),
{
    let ghost s = log.entries@;
    let mut out: Vec<DirectMessage> = Vec::new();
    let mut cursor: Option<i64> = None;
    let mut done = false;
    while !done
        invariant
            log.wf(),
            strictly_sorted_by_key(s, dm_key()),
            s == log.entries@,
            0 <= cut_of(s, dm_key(), cursor) <= s.len(),
            !done ==> out@.len() == s.len() - cut_of(s, dm_key(), cursor),
            done ==> out@.len() == s.len(),
            forall|i: int| 0 <= i < out@.len() ==> out@[i] == s[s.len() - 1 - i],
        decreases (if done {
            0int
        } else {
            1int
        }), cut_of(s, dm_key(), cursor),
    {
        let ghost cut = cut_of(s, dm_key(), cursor);
        proof {
            match cursor {
                Some(b) => lemma_cut_index(s, dm_key(), b),
                None => {},
            }
        }
        let page = log.page(limit, cursor);
        let ghost take = page_len(s, dm_key(), limit as int, cursor);
        let mut j: usize = 0;
        let m = page.messages.len();
        proof {
            assert(m == take);
        }
        while j < m
            invariant
                j <= m,
                m == page.messages@.len(),
                page.messages@ == page_seq(s, dm_key(), limit as int, cursor),
                out@.len() == s.len() - cut + j,
                0 <= cut <= s.len(),
                cut == cut_of(s, dm_key(), cursor),
                forall|i: int| 0 <= i < out@.len() ==> out@[i] == s[s.len() - 1 - i],
            decreases m - j,
        {
            proof {
                assert(page.messages@[j as int] == s[cut - 1 - j]);
            }
            out.push(page.messages[j].duplicate());
            j = j + 1;
        }
        if page.has_more {
            proof {
                lemma_page_chain(s, dm_key(), limit as int, cursor);
            }
            cursor = page.next_cursor;
        } else {
            proof {
                assert(cut <= clamp_limit(limit as int));
                assert(take == cut);
                assert(out@.len() == s.len());
            }
            done = true;
        }
    }
    proof {
        assert(out@ =~= s.reverse());
    }
    out
}

/// The inbox preview of a message: the text itself, or its first 47
/// characters and an ellipsis when it runs past 50.
pub open spec fn preview_of(c: Seq<char>) -> Seq<char> {
    if c.len() > 50 {
        c.subrange(0, 47) + seq!['.', '.', '.']
    } else {
        c
    }
}

pub fn make_preview(content: &String) -> (r: String)
    ensures
        r@ == preview_of(content@),
{
    let len = content.as_str().unicode_len();
    if len > 50 {
        let mut p = String::from_str(content.as_str().substring_char(0, 47));
        p.append("...");
        proof {
            reveal_strlit("...");
            assert("..."@ =~= seq!['.', '.', '.']);
        }
        p
    } else {
        content.clone()
    }
}

/// A projection row freshly written when a conversation starts: no
/// preview yet, both timestamps at the creation instant.
pub open spec fn fresh_conv_row(
    r: ConversationRow,
    uid: Seq<char>,
    cid: Seq<char>,
    other: Seq<char>,
    other_name: Seq<char>,
    now: i64,
) -> bool {
    &&& r.user_id@ == uid
    &&& r.conv.id@ == cid
    &&& r.conv.other_user_id@ == other
    &&& r.conv.other_username@ == other_name
    &&& r.conv.updated_at == now
    &&& r.conv.last_message_preview is None
    &&& r.conv.created_at == now
}

/// What a successful create-path of `start_or_get_conversation` leaves
/// behind: one fresh row per participant, everything else untouched.
pub open spec fn started_post(
    pre: Seq<ConversationRow>,
    post: Seq<ConversationRow>,
    uid: Seq<char>,
    uname: Seq<char>,
    rid: Seq<char>,
    rname: Seq<char>,
    cid: Seq<char>,
    now: i64,
) -> bool {
    &&& post.len() >= pre.len()
    &&& forall|j: int|
        0 <= j < pre.len() && conv_key()(#[trigger] pre[j]) != (cid, uid) && conv_key()(pre[j])
            != (cid, rid) ==> post[j] == pre[j]
    &&& exists|a: int| 0 <= a < post.len() && fresh_conv_row(#[trigger] post[a], uid, cid, rid, rname, now)
    &&& exists|b: int| 0 <= b < post.len() && fresh_conv_row(#[trigger] post[b], rid, cid, uid, uname, now)
}

/// Starts the DM conversation with the requested recipient, or returns
/// the caller's existing view of it. Rejects a conversation with oneself
/// and an unknown recipient; otherwise writes one projection row per
/// participant at time `now`.
pub fn start_or_get_conversation_at(
    table: &mut ConversationTable,
    users: &crate::users::UserTable,
    user_id: &String,
    username: &String,
    req: &StartConversationRequest,
    now: i64,
) -> (r: Result<Conversation, (u16, String)>)
    requires
        old(table).wf(),
    ensures
        final(table).wf(),
        req.recipient_id@ == user_id@ ==> (r matches Err(e) && e.0 == 400 && final(table).rows@
            == old(table).rows@),
        req.recipient_id@ != user_id@ && crate::users::user_idx(users.users@, req.recipient_id@)
            == -1 ==> (r matches Err(e) && e.0 == 404 && final(table).rows@ == old(
            table,
        ).rows@),
        req.recipient_id@ != user_id@ && crate::users::user_idx(users.users@, req.recipient_id@)
            >= 0 ==> {
            let rname = users.users@[crate::users::user_idx(
                users.users@,
                req.recipient_id@,
            )].username@;
            let cid = conversation_id_spec(user_id@, req.recipient_id@);
            &&& r is Ok
            &&& if conv_idx(old(table).rows@, cid, user_id@) >= 0 {
                final(table).rows@ == old(table).rows@ && (r matches Ok(c) && c == old(
                    table,
                ).rows@[conv_idx(old(table).rows@, cid, user_id@)].conv)
            } else {
                &&& started_post(
                    old(table).rows@,
                    final(table).rows@,
                    user_id@,
                    username@,
                    req.recipient_id@,
                    rname,
                    cid,
                    now,
                )
                &&& r matches Ok(c) && c.id@ == cid && c.other_user_id@ == req.recipient_id@
                    && c.other_username@ == rname && c.updated_at == now
                    && c.last_message_preview is None && c.created_at == now
            }
        },
{
    if req.recipient_id == *user_id {
        return Err((400, String::from_str("Cannot start a conversation with yourself")));
    }
    let (recipient_id, recipient_username) = match users.get_user_by_id(&req.recipient_id) {
        Some(p) => p,
        None => {
            return Err((404, String::from_str("User not found")));
        },
    };
    let conversation_id = make_conversation_id(user_id.as_str(), recipient_id.as_str());
    match table.index_of(&conversation_id, user_id) {
        Some(k) => {
            return Ok(table.rows[k].conv.duplicate());
        },
        None => {},
    }
    let ghost pre = table.rows@;
    let row1 = ConversationRow {
        user_id: user_id.clone(),
        conv: Conversation {
            id: conversation_id.clone(),
            other_user_id: recipient_id.clone(),
            other_username: recipient_username.clone(),
            updated_at: now,
            last_message_preview: None,
            created_at: now,
        },
    };
    let row2 = ConversationRow {
        user_id: recipient_id.clone(),
        conv: Conversation {
            id: conversation_id.clone(),
            other_user_id: user_id.clone(),
            other_username: username.clone(),
            updated_at: now,
            last_message_preview: None,
            created_at: now,
        },
    };
    let result = row1.conv.duplicate();
    let ghost grow1 = row1;
    let ghost grow2 = row2;
    table.upsert(row1);
    let ghost mid = table.rows@;
    table.upsert(row2);
    proof {
        let cid = conversation_id_spec(user_id@, req.recipient_id@);
        let k1 = conv_idx(pre, cid, user_id@);
        let a1: int = if k1 == -1 {
            pre.len() as int
        } else {
            k1
        };
        if k1 != -1 {
            crate::table::lemma_find_by(pre, conv_key_is(cid, user_id@));
        }
        assert(mid[a1] == grow1);
        let k2 = conv_idx(mid, cid, recipient_id@);
        if k2 != -1 {
            crate::table::lemma_find_by(mid, conv_key_is(cid, recipient_id@));
            assert(k2 != a1);
        }
        let b1: int = if k2 == -1 {
            mid.len() as int
        } else {
            k2
        };
        assert(final(table).rows@[b1] == grow2);
        assert(final(table).rows@[a1] == grow1);
        assert(fresh_conv_row(final(table).rows@[a1], user_id@, cid, req.recipient_id@,
            users.users@[crate::users::user_idx(users.users@, req.recipient_id@)].username@,
            now));
        assert(fresh_conv_row(final(table).rows@[b1], req.recipient_id@, cid, user_id@,
            username@, now));
        assert forall|j: int|
            0 <= j < pre.len() && conv_key()(#[trigger] pre[j]) != (cid, user_id@) && conv_key()(
                pre[j],
            ) != (cid, req.recipient_id@) implies final(table).rows@[j] == pre[j] by {
            assert(j != k1);
            assert(mid[j] == pre[j]);
            assert(j != k2);
        }
    }
    Ok(result)
}

/// Starts or fetches the conversation at the current wall-clock time.
/// Whatever instant the clock reports, the result is exactly the
/// corresponding `start_or_get_conversation_at` outcome.
pub fn start_or_get_conversation(
    table: &mut ConversationTable,
    users: &crate::users::UserTable,
    user_id: &String,
    username: &String,
    req: &StartConversationRequest,
) -> (r: Result<Conversation, (u16, String)>)
    requires
        old(table).wf(),
    ensures
        final(table).wf(),
        req.recipient_id@ == user_id@ ==> (r matches Err(e) && e.0 == 400 && final(table).rows@
            == old(table).rows@),
        req.recipient_id@ != user_id@ && crate::users::user_idx(users.users@, req.recipient_id@)
            == -1 ==> (r matches Err(e) && e.0 == 404 && final(table).rows@ == old(
            table,
        ).rows@),
        req.recipient_id@ != user_id@ && crate::users::user_idx(users.users@, req.recipient_id@)
            >= 0 ==> {
            let rname = users.users@[crate::users::user_idx(
                users.users@,
                req.recipient_id@,
            )].username@;
            let cid = conversation_id_spec(user_id@, req.recipient_id@);
            &&& r is Ok
            &&& (r matches Ok(c) ==> c.id@ == cid)
            &&& if conv_idx(old(table).rows@, cid, user_id@) >= 0 {
                final(table).rows@ == old(table).rows@ && (r matches Ok(c) && c == old(
                    table,
                ).rows@[conv_idx(old(table).rows@, cid, user_id@)].conv)
            } else {
                exists|t: i64|
                    #![auto]
                    started_post(
                        old(table).rows@,
                        final(table).rows@,
                        user_id@,
                        username@,
                        req.recipient_id@,
                        rname,
                        cid,
                        t,
                    ) && (r matches Ok(c) && c.other_user_id@ == req.recipient_id@
                        && c.other_username@ == rname && c.updated_at == t && c.created_at == t
                        && c.last_message_preview is None)
            }
        },
{
    let now = crate::shims::now_millis();
    let r = start_or_get_conversation_at(table, users, user_id, username, req, now);
    proof {
        if req.recipient_id@ != user_id@ && crate::users::user_idx(
            users.users@,
            req.recipient_id@,
        ) >= 0 {
            let rname = users.users@[crate::users::user_idx(
                users.users@,
                req.recipient_id@,
            )].username@;
            let cid = conversation_id_spec(user_id@, req.recipient_id@);
            crate::table::lemma_find_by(old(table).rows@, conv_key_is(cid, user_id@));
            if conv_idx(old(table).rows@, cid, user_id@) >= 0 {
                assert(conv_key_is(cid, user_id@)(old(table).rows@[conv_idx(
                    old(table).rows@,
                    cid,
                    user_id@,
                )]));
            } else {
                assert(started_post(
                    old(table).rows@,
                    table.rows@,
                    user_id@,
                    username@,
                    req.recipient_id@,
                    rname,
                    cid,
                    now,
                ));
            }
        }
    }
    r
}

/// The caller's view of a conversation, or `Forbidden` when the caller is
/// not a participant.
pub fn get_conversation(
    table: &ConversationTable,
    conversation_id: &String,
    user_id: &String,
) -> (r: Result<Conversation, (u16, String)>)
    ensures
        r is Ok <==> conv_idx(table.rows@, conversation_id@, user_id@) >= 0,
        r matches Ok(c) ==> c == table.rows@[conv_idx(
            table.rows@,
            conversation_id@,
            user_id@,
        )].conv,
        r matches Err(e) ==> e.0 == 403,
{
    table.verify_participant(conversation_id, user_id)
}

/// One page of a DM conversation's history, for a participant only.
pub fn list_dm_messages(
    table: &ConversationTable,
    log: &DmLog,
    conversation_id: &String,
    user_id: &String,
    limit: usize,
    before: Option<i64>,
) -> (r: Result<DmMessagesResponse, (u16, String)>)
    requires
        log.wf(),
        log.conversation_id@ == conversation_id@,
    ensures
        r is Ok <==> conv_idx(table.rows@, conversation_id@, user_id@) >= 0,
        r matches Err(e) ==> e.0 == 403,
        r matches Ok(resp) ==> resp.messages@ == page_seq(
            log.entries@,
            dm_key(),
            limit as int,
            before,
        ) && resp.has_more == page_has_more(log.entries@, dm_key(), limit as int, before)
            && resp.next_cursor == page_cursor(log.entries@, dm_key(), limit as int, before),
{
    match table.verify_participant(conversation_id, user_id) {
        Err(e) => Err(e),
        Ok(_) => Ok(log.page(limit, before)),
    }
}

/// What a successful send leaves behind: the message filed in the log at
/// its timestamp, and both participants' inbox rows touched with the
/// preview.
pub open spec fn dm_sent_post(
    table_pre: Seq<ConversationRow>,
    table_post: Seq<ConversationRow>,
    log_pre: Seq<DirectMessage>,
    log_post: Seq<DirectMessage>,
    m: DirectMessage,
    uid: Seq<char>,
    now: i64,
) -> bool {
    let cid = m.conversation_id@;
    let other = table_pre[conv_idx(table_pre, cid, uid)].conv.other_user_id@;
    let pv = preview_of(m.content@);
    &&& log_post == log_pre.insert(ins_pos(log_pre, dm_key(), now), m)
    &&& exists|mid: Seq<ConversationRow>|
        #[trigger] touch_post(table_pre, mid, cid, uid, now, pv) && touch_post(
            mid,
            table_post,
            cid,
            other,
            now,
            pv,
        )
}

/// Sends a direct message at time `now` with the given fresh message id:
/// the sender must be a participant and the content must survive
/// validation; the message is then filed and both inbox rows are touched,
/// best-effort, with its preview.
pub fn send_dm_message_at(
    table: &mut ConversationTable,
    log: &mut DmLog,
    conversation_id: &String,
    user_id: &String,
    username: &String,
    req: &SendDmRequest,
    id: String,
    now: i64,
) -> (r: Result<DirectMessage, (u16, String)>)
    requires
        old(table).wf(),
        old(log).wf(),
        old(log).conversation_id@ == conversation_id@,
    ensures
        final(table).wf(),
        final(log).wf(),
        final(log).conversation_id == old(log).conversation_id,
        r is Ok <==> conv_idx(old(table).rows@, conversation_id@, user_id@) >= 0 && 1
            <= crate::shims::trim_of(req.content@).len() <= 2000,
        r is Err ==> final(table).rows@ == old(table).rows@ && final(log).entries@ == old(
            log,
        ).entries@,
        r matches Err(e) ==> e.0 == 403 || e.0 == 400,
        conv_idx(old(table).rows@, conversation_id@, user_id@) == -1 ==> (r matches Err(e)
            && e.0 == 403),
        conv_idx(old(table).rows@, conversation_id@, user_id@) >= 0 && !(1
            <= crate::shims::trim_of(req.content@).len() <= 2000) ==> (r matches Err(e) && e.0
            == 400),
        r matches Ok(m) ==> m.id@ == id@ && m.conversation_id@ == conversation_id@
            && m.author_id@ == user_id@ && m.author_username@ == username@ && m.content@
            == crate::shims::trim_of(req.content@) && m.created_at == now && dm_sent_post(
            old(table).rows@,
            final(table).rows@,
            old(log).entries@,
            final(log).entries@,
            m,
            user_id@,
            now,
        ),
{
    let other_user_id = match table.index_of(conversation_id, user_id) {
        None => {
            return Err(
                (403, String::from_str("You are not a participant in this conversation")),
            );
        },
        Some(k) => table.rows[k].conv.other_user_id.clone(),
    };
    let content = match crate::messages::validate_content(&req.content) {
        Err(e) => {
            return Err(e);
        },
        Ok(c) => c,
    };
    let message = DirectMessage {
        id,
        conversation_id: conversation_id.clone(),
        author_id: user_id.clone(),
        author_username: username.clone(),
        content,
        created_at: now,
    };
    let result = message.duplicate();
    log.append(message);
    let preview = make_preview(&result.content);
    let ghost table_pre = table.rows@;
    table.touch(conversation_id, user_id, now, &preview);
    let ghost table_mid = table.rows@;
    table.touch(conversation_id, &other_user_id, now, &preview);
    proof {
        assert(touch_post(
            table_pre,
            table_mid,
            conversation_id@,
            user_id@,
            now,
            preview_of(result.content@),
        ));
    }
    Ok(result)
}

/// Sends a direct message with a fresh random id at the current
/// wall-clock time. Whatever id and instant come back, the outcome is
/// exactly the corresponding `send_dm_message_at` outcome.
pub fn send_dm_message(
    table: &mut ConversationTable,
    log: &mut DmLog,
    conversation_id: &String,
    user_id: &String,
    username: &String,
    req: &SendDmRequest,
) -> (r: Result<DirectMessage, (u16, String)>)
    requires
        old(table).wf(),
        old(log).wf(),
        old(log).conversation_id@ == conversation_id@,
    ensures
        final(table).wf(),
        final(log).wf(),
        final(log).conversation_id == old(log).conversation_id,
        r is Ok <==> conv_idx(old(table).rows@, conversation_id@, user_id@) >= 0 && 1
            <= crate::shims::trim_of(req.content@).len() <= 2000,
        r is Err ==> final(table).rows@ == old(table).rows@ && final(log).entries@ == old(
            log,
        ).entries@,
        conv_idx(old(table).rows@, conversation_id@, user_id@) == -1 ==> (r matches Err(e)
            && e.0 == 403),
        conv_idx(old(table).rows@, conversation_id@, user_id@) >= 0 && !(1
            <= crate::shims::trim_of(req.content@).len() <= 2000) ==> (r matches Err(e) && e.0
            == 400),
        r matches Ok(m) ==> m.id@.len() == 36 && m.conversation_id@ == conversation_id@
            && m.author_id@ == user_id@ && m.author_username@ == username@ && m.content@
            == crate::shims::trim_of(req.content@) && dm_sent_post(
            old(table).rows@,
            final(table).rows@,
            old(log).entries@,
            final(log).entries@,
            m,
            user_id@,
            m.created_at,
        ),
{
    let id = crate::shims::new_uuid();
    let now = crate::shims::now_millis();
    send_dm_message_at(table, log, conversation_id, user_id, username, req, id, now)
}

/// The conversations of `user_id`, newest activity first, as the inbox
/// orders them. The order of conversations with equal `updated_at` is
/// unspecified.
pub fn list_conversations(table: &ConversationTable, user_id: &String) -> (r: Vec<Conversation>)
    ensures
        r@.to_multiset() == convs_of_user(table.rows@, user_id@).to_multiset(),
        forall|i: int, j: int| 0 <= i < j < r@.len() ==> r@[i].updated_at >= r@[j].updated_at,
{
    broadcast use vstd::seq_lib::group_to_multiset_ensures;

    let mut mine: Vec<Conversation> = Vec::new();
    let n = table.rows.len();
    let mut i: usize = 0;
    proof {
        assert(table.rows@.subrange(0, 0) =~= Seq::<ConversationRow>::empty());
    }
    while i < n
        invariant
            i <= n,
            n == table.rows@.len(),
            mine@ == convs_of_user(table.rows@.subrange(0, i as int), user_id@),
        decreases n - i,
    {
        let ghost s_pre = table.rows@.subrange(0, i as int);
        let ghost s_post = table.rows@.subrange(0, i + 1);
        let row = &table.rows[i];
        if row.user_id == *user_id {
            mine.push(row.conv.duplicate());
        }
        proof {
            assert(s_post.drop_last() =~= s_pre);
            assert(s_post.last() == table.rows@[i as int]);
        }
        i = i + 1;
    }
    proof {
        assert(table.rows@.subrange(0, n as int) =~= table.rows@);
    }
    let ghost all = mine@;
    let mut out: Vec<Conversation> = Vec::new();
    proof {
        assert(out@.to_multiset().add(mine@.to_multiset()) =~= all.to_multiset());
    }
    while mine.len() > 0
        invariant
            out@.to_multiset().add(mine@.to_multiset()) == all.to_multiset(),
            forall|a: int, b: int| 0 <= a < b < out@.len() ==> out@[a].updated_at
                >= out@[b].updated_at,
            forall|a: int, b: int|
                0 <= a < out@.len() && 0 <= b < mine@.len() ==> out@[a].updated_at
                    >= mine@[b].updated_at,
        decreases mine@.len(),
    {
        let mut im: usize = 0;
        let mut j: usize = 1;
        while j < mine.len()
            invariant
                im < j || (j == 1 && im == 0),
                im < mine@.len(),
                j <= mine@.len(),
                forall|a: int| 0 <= a < j ==> mine@[a].updated_at <= mine@[im as int].updated_at,
            decreases mine@.len() - j,
        {
            if mine[j].updated_at > mine[im].updated_at {
                im = j;
            }
            j = j + 1;
        }
        let ghost mine_pre = mine@;
        let ghost out_pre = out@;
        let m = mine.remove(im);
        out.push(m);
        proof {
            mine_pre.to_multiset_ensures();
            out_pre.to_multiset_ensures();
            assert(mine@ == mine_pre.remove(im as int));
            assert(mine_pre.remove(im as int).to_multiset() =~= mine_pre.to_multiset().remove(
                mine_pre[im as int],
            ));
            assert(mine_pre.to_multiset().contains(mine_pre[im as int]));
            assert(out@.to_multiset().add(mine@.to_multiset()) =~= all.to_multiset());
            assert forall|b: int| 0 <= b < mine@.len() implies m.updated_at
                >= mine@[b].updated_at by {
                if b < im {
                    assert(mine@[b] == mine_pre[b]);
                } else {
                    assert(mine@[b] == mine_pre[b + 1]);
                }
            }
        }
    }
    out
}

} // verus!
