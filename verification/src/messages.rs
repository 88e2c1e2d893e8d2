use vstd::prelude::*;
use crate::pagination::{
    clamp_limit, cut_index, cut_of, lemma_cut_index, lemma_page_chain, page_cursor, page_has_more,
    page_len, page_seq, sorted_by_key, strictly_sorted_by_key,
};

verus! {

/// A channel message, denormalized with its author's display name at write
/// time. `created_at` (milliseconds) is the sort key of the log; `id` is a
/// uniqueness tiebreaker and external reference only.
#[derive(Debug)]
pub struct Message {
    pub id: String,
    pub channel_id: String,
    pub author_id: String,
    pub author_username: String,
    pub content: String,
    pub created_at: i64,
}

impl Message {
    /// A field-for-field copy with its contents pinned down.
    pub fn duplicate(&self) -> (r: Message)
        ensures
            r == *self,
    {
        Message {
            id: self.id.clone(),
            channel_id: self.channel_id.clone(),
            author_id: self.author_id.clone(),
            author_username: self.author_username.clone(),
            content: self.content.clone(),
            created_at: self.created_at,
        }
    }
}

#[derive(Debug)]
pub struct CreateMessageRequest {
    pub content: String,
}

/// One page of history: newest first, with the cursor to hand back for the
/// next older page when one exists.
#[derive(Debug)]
pub struct MessagesResponse {
    pub messages: Vec<Message>,
    pub has_more: bool,
    pub next_cursor: Option<i64>,
}

/// The pagination sort key of a message.
pub open spec fn msg_key() -> spec_fn(Message) -> i64 {
    |m: Message| m.created_at
}

/// Position at which a new entry with sort key `t` is filed: after every
/// entry whose key is at most `t`, so ties keep arrival order.
pub open spec fn ins_pos<T>(s: Seq<T>, key: spec_fn(T) -> i64, t: i64) -> int
    decreases s.len(),
{
    if s.len() == 0 {
        0
    } else if key(s.last()) <= t {
        s.len() as int
    } else {
        ins_pos(s.drop_last(), key, t)
    }
}

pub proof fn lemma_ins_pos<T>(s: Seq<T>, key: spec_fn(T) -> i64, t: i64)
    requires
        sorted_by_key(s, key),
    ensures
        0 <= ins_pos(s, key, t) <= s.len(),
        forall|i: int| 0 <= i < ins_pos(s, key, t) ==> key(#[trigger] s[i]) <= t,
        forall|i: int| ins_pos(s, key, t) <= i < s.len() ==> key(#[trigger] s[i]) > t,
    decreases s.len(),
{
    if s.len() == 0 {
    } else if key(s.last()) <= t {
        assert forall|i: int| 0 <= i < s.len() implies key(#[trigger] s[i]) <= t by {
            if i < s.len() - 1 {
                assert(key(s[i]) <= key(s.last()));
            }
        }
    } else {
        let u = s.drop_last();
        assert(sorted_by_key(u, key)) by {
            assert(forall|i: int| 0 <= i < u.len() ==> u[i] == s[i]);
        }
        lemma_ins_pos(u, key, t);
        assert(forall|i: int| 0 <= i < u.len() ==> u[i] == s[i]);
    }
}

/// Validates message content as every write path does: the text is
/// trimmed, and the result must be 1 to 2000 characters.
pub fn validate_content(content: &String) -> (r: Result<String, (u16, String)>)
    ensures
        r matches Ok(c) ==> c@ == crate::shims::trim_of(content@),
        r is Ok <==> 1 <= crate::shims::trim_of(content@).len() <= 2000,
        r matches Err(e) ==> e.0 == 400,
{
    let t = String::from_str(crate::shims::trim(content));
    let len = t.as_str().unicode_len();
    if len == 0 {
        return Err((400, String::from_str("Message content cannot be empty")));
    }
    if len > 2000 {
        return Err((400, String::from_str("Message content cannot exceed 2000 characters")));
    }
    Ok(t)
}

/// The message log of one channel, kept ascending by timestamp, exactly as
/// the backing store keeps it under the (channel, timestamp) sort key.
/// Append-only: this core never edits or deletes a message.
pub struct ChannelLog {
    pub channel_id: String,
    pub entries: Vec<Message>,
}

impl ChannelLog {
    pub open spec fn wf(self) -> bool {
        &&& sorted_by_key(self.entries@, msg_key())
        &&& forall|i: int|
            0 <= i < self.entries@.len() ==> (#[trigger] self.entries@[i]).channel_id@
                == self.channel_id@
    }

    pub fn new(channel_id: String) -> (r: ChannelLog)
        ensures
            r.wf(),
            r.entries@.len() == 0,
            r.channel_id@ == channel_id@,
    {
        ChannelLog { channel_id, entries: Vec::new() }
    }

    /// Files a message at its timestamp, after any existing message with
    /// the same timestamp. Equal-timestamp order is unspecified for readers
    /// (the documented limitation); the log merely keeps them all.
    pub fn append(&mut self, m: Message)
        requires
            old(self).wf(),
            m.channel_id@ == old(self).channel_id@,
        ensures
            final(self).wf(),
            final(self).channel_id == old(self).channel_id,
            final(self).entries@ == old(self).entries@.insert(
                ins_pos(old(self).entries@, msg_key(), m.created_at),
                m,
            ),
    {
        let ghost s0 = self.entries@;
        let t = m.created_at;
        let n = self.entries.len();
        let mut p: usize = n;
        proof {
            assert(s0.subrange(0, n as int) =~= s0);
        }
        while p > 0 && self.entries[p - 1].created_at > t
            invariant
                p <= n,
                n == s0.len(),
                self.entries@ == s0,
                ins_pos(s0, msg_key(), t) == ins_pos(s0.subrange(0, p as int), msg_key(), t),
                forall|i: int| p <= i < n ==> msg_key()(#[trigger] s0[i]) > t,
            decreases p,
        {
            proof {
                assert(s0.subrange(0, p as int).drop_last() =~= s0.subrange(0, p - 1));
                assert(s0.subrange(0, p as int).last() == s0[p - 1]);
            }
            p = p - 1;
        }
        proof {
            if p > 0 {
                assert(s0.subrange(0, p as int).last() == s0[p - 1]);
                assert(ins_pos(s0.subrange(0, p as int), msg_key(), t) == p);
            } else {
                assert(s0.subrange(0, 0) =~= Seq::<Message>::empty());
            }
            assert(ins_pos(s0, msg_key(), t) == p);
            lemma_ins_pos(s0, msg_key(), t);
        }
        self.entries.insert(p, m);
        proof {
            let s1 = self.entries@;
            assert forall|i: int, j: int| 0 <= i < j < s1.len() implies msg_key()(s1[i])
                <= msg_key()(s1[j]) by {
                let i0 = if i < p { i } else { i - 1 };
                let j0 = if j <= p { j - 1 } else { j - 1 };
                if i == p {
                    assert(s1[j] == s0[j - 1]);
                } else if j == p {
                    assert(s1[i] == s0[i]);
                } else if j < p {
                    assert(s1[i] == s0[i] && s1[j] == s0[j]);
                } else if i > p {
                    assert(s1[i] == s0[i - 1] && s1[j] == s0[j - 1]);
                } else {
                    assert(s1[i] == s0[i] && s1[j] == s0[j - 1]);
                    if i <= j - 2 {
                    } else {
                        assert(i == j - 1 && i < p);
                        assert(msg_key()(s0[i]) <= t);
                        assert(msg_key()(s0[j - 1]) == msg_key()(s0[i]));
                    }
                }
            }
        }
    }

    /// Serves one page of history, newest first: up to `limit` (clamped to
    /// [1, 100]) messages strictly older than `before` when given, else
    /// counted from the newest. When older messages remain, `has_more` is
    /// set and `next_cursor` carries the timestamp of the oldest returned
    /// message, to be passed back as `before` for the following page.
    pub fn page(&self, limit: usize, before: Option<i64>) -> (r: MessagesResponse)
        requires
            self.wf(),
        ensures
            r.messages@ == page_seq(self.entries@, msg_key(), limit as int, before),
            r.has_more == page_has_more(self.entries@, msg_key(), limit as int, before),
            r.next_cursor == page_cursor(self.entries@, msg_key(), limit as int, before),
    {
        let ghost s = self.entries@;
        let k: usize = if limit < 1 {
            1
        } else if limit > 100 {
            100
        } else {
            limit
        };
        let n = self.entries.len();
        let mut cut: usize = n;
        match before {
            None => {},
            Some(b) => {
                proof {
                    assert(s.subrange(0, n as int) =~= s);
                }
                while cut > 0 && self.entries[cut - 1].created_at >= b
                    invariant
                        cut <= n,
                        n == s.len(),
                        self.entries@ == s,
                        cut_index(s, msg_key(), b) == cut_index(s.subrange(0, cut as int), msg_key(), b),
                    decreases cut,
                {
                    proof {
                        assert(s.subrange(0, cut as int).drop_last() =~= s.subrange(
                            0,
                            cut - 1,
                        ));
                        assert(s.subrange(0, cut as int).last() == s[cut - 1]);
                    }
                    cut = cut - 1;
                }
                proof {
                    if cut > 0 {
                        assert(s.subrange(0, cut as int).last() == s[cut - 1]);
                        assert(cut_index(s.subrange(0, cut as int), msg_key(), b) == cut);
                    } else {
                        assert(s.subrange(0, 0) =~= Seq::<Message>::empty());
                    }
                    assert(cut_index(s, msg_key(), b) == cut);
                }
            },
        }
        proof {
            assert(cut_of(s, msg_key(), before) == cut);
        }
        let take: usize = if k < cut {
            k
        } else {
            cut
        };
        let mut messages: Vec<Message> = Vec::new();
        let mut j: usize = 0;
        while j < take
            invariant
                j <= take,
                take <= cut <= n,
                n == s.len(),
                self.entries@ == s,
                messages@.len() == j,
                forall|i: int| 0 <= i < j ==> messages@[i] == s[cut - 1 - i],
            decreases take - j,
        {
            messages.push(self.entries[cut - 1 - j].duplicate());
            j = j + 1;
        }
        let has_more = cut > k;
        let next_cursor: Option<i64> = if has_more {
            Some(self.entries[cut - k].created_at)
        } else {
            None
        };
        proof {
            assert(messages@ =~= page_seq(s, msg_key(), limit as int, before));
        }
        MessagesResponse { messages, has_more, next_cursor }
    }
}

/// One page of a channel's history, for members of its server only, after
/// confirming the channel belongs to that server.
pub fn list_messages(
    members: &crate::servers::MemberTable,
    channels: &crate::servers::ChannelTable,
    log: &ChannelLog,
    server_id: &String,
    channel_id: &String,
    user_id: &String,
    limit: usize,
    before: Option<i64>,
) -> (r: Result<MessagesResponse, (u16, String)>)
    requires
        log.wf(),
        log.channel_id@ == channel_id@,
    ensures
        crate::servers::member_idx(members.members@, server_id@, user_id@) == -1 ==> (
        r matches Err(e) && e.0 == 403),
        crate::servers::member_idx(members.members@, server_id@, user_id@) >= 0
            && crate::servers::channel_idx(channels.channels@, server_id@, channel_id@) == -1
            ==> (r matches Err(e) && e.0 == 404),
        r is Ok <==> crate::servers::member_idx(members.members@, server_id@, user_id@) >= 0
            && crate::servers::channel_idx(channels.channels@, server_id@, channel_id@) >= 0,
        r matches Ok(resp) ==> resp.messages@ == page_seq(
            log.entries@,
            msg_key(),
            limit as int,
            before,
        ) && resp.has_more == page_has_more(log.entries@, msg_key(), limit as int, before)
            && resp.next_cursor == page_cursor(log.entries@, msg_key(), limit as int, before),
{
    members.check_membership(server_id, user_id)?;
    channels.verify_channel(server_id, channel_id)?;
    Ok(log.page(limit, before))
}

/// Creates a channel message at time `now` with the given fresh id: the
/// author must be a member of the server and the channel must belong to
/// it; the content must survive validation; the message is then filed in
/// the log at its timestamp.
pub fn create_message_at(
    members: &crate::servers::MemberTable,
    channels: &crate::servers::ChannelTable,
    log: &mut ChannelLog,
    server_id: &String,
    channel_id: &String,
    user_id: &String,
    username: &String,
    req: &CreateMessageRequest,
    id: String,
    now: i64,
) -> (r: Result<Message, (u16, String)>)
    requires
        old(log).wf(),
        old(log).channel_id@ == channel_id@,
    ensures
        final(log).wf(),
        final(log).channel_id == old(log).channel_id,
        r is Ok <==> crate::servers::member_idx(members.members@, server_id@, user_id@) >= 0
            && crate::servers::channel_idx(channels.channels@, server_id@, channel_id@) >= 0 && 1
            <= crate::shims::trim_of(req.content@).len() <= 2000,
        r is Err ==> final(log).entries@ == old(log).entries@,
        crate::servers::member_idx(members.members@, server_id@, user_id@) == -1 ==> (
        r matches Err(e) && e.0 == 403),
        crate::servers::member_idx(members.members@, server_id@, user_id@) >= 0
            && crate::servers::channel_idx(channels.channels@, server_id@, channel_id@) == -1
            ==> (r matches Err(e) && e.0 == 404),
        crate::servers::member_idx(members.members@, server_id@, user_id@) >= 0
            && crate::servers::channel_idx(channels.channels@, server_id@, channel_id@) >= 0
            && !(1 <= crate::shims::trim_of(req.content@).len() <= 2000) ==> (r matches Err(e)
            && e.0 == 400),
        r matches Ok(m) ==> m.id@ == id@ && m.channel_id@ == channel_id@ && m.author_id@
            == user_id@ && m.author_username@ == username@ && m.content@
            == crate::shims::trim_of(req.content@) && m.created_at == now && final(log).entries@
            == old(log).entries@.insert(ins_pos(old(log).entries@, msg_key(), now), m),
{
    members.check_membership(server_id, user_id)?;
    channels.verify_channel(server_id, channel_id)?;
    let content = match validate_content(&req.content) {
        Err(e) => {
            return Err(e);
        },
        Ok(c) => c,
    };
    let message = Message {
        id,
        channel_id: channel_id.clone(),
        author_id: user_id.clone(),
        author_username: username.clone(),
        content,
        created_at: now,
    };
    let result = message.duplicate();
    log.append(message);
    Ok(result)
}

/// Creates a channel message with a fresh random id at the current
/// wall-clock time. Whatever id and instant come back, the outcome is
/// exactly the corresponding `create_message_at` outcome.
pub fn create_message(
    members: &crate::servers::MemberTable,
    channels: &crate::servers::ChannelTable,
    log: &mut ChannelLog,
    server_id: &String,
    channel_id: &String,
    user_id: &String,
    username: &String,
    req: &CreateMessageRequest,
) -> (r: Result<Message, (u16, String)>)
    requires
        old(log).wf(),
        old(log).channel_id@ == channel_id@,
    ensures
        final(log).wf(),
        final(log).channel_id == old(log).channel_id,
        r is Ok <==> crate::servers::member_idx(members.members@, server_id@, user_id@) >= 0
            && crate::servers::channel_idx(channels.channels@, server_id@, channel_id@) >= 0 && 1
            <= crate::shims::trim_of(req.content@).len() <= 2000,
        r is Err ==> final(log).entries@ == old(log).entries@,
        crate::servers::member_idx(members.members@, server_id@, user_id@) == -1 ==> (
        r matches Err(e) && e.0 == 403),
        crate::servers::member_idx(members.members@, server_id@, user_id@) >= 0
            && crate::servers::channel_idx(channels.channels@, server_id@, channel_id@) == -1
            ==> (r matches Err(e) && e.0 == 404),
        crate::servers::member_idx(members.members@, server_id@, user_id@) >= 0
            && crate::servers::channel_idx(channels.channels@, server_id@, channel_id@) >= 0
            && !(1 <= crate::shims::trim_of(req.content@).len() <= 2000) ==> (r matches Err(e)
            && e.0 == 400),
        r matches Ok(m) ==> m.id@.len() == 36 && m.channel_id@ == channel_id@ && m.author_id@
            == user_id@ && m.author_username@ == username@ && m.content@
            == crate::shims::trim_of(req.content@) && final(log).entries@ == old(
            log,
        ).entries@.insert(ins_pos(old(log).entries@, msg_key(), m.created_at), m),
{
    let id = crate::shims::new_uuid();
    let now = crate::shims::now_millis();
    create_message_at(members, channels, log, server_id, channel_id, user_id, username, req, id, now)
}

/// Pagination completeness (law): over a log of strictly increasing
/// timestamps, chaining `page` through `next_cursor` until `has_more` is
/// false yields exactly the log's messages in descending timestamp order,
/// with no duplicates and no omissions, whatever the page size asked for.
pub fn collect_history(log: &ChannelLog, limit: usize) -> (r: Vec<Message>)
    requires
        log.wf(),
        strictly_sorted_by_key(log.entries@, msg_key()),
    ensures
        r@ == log.entries@.reverse(),
{
    let ghost s = log.entries@;
    let mut out: Vec<Message> = Vec::new();
    let mut cursor: Option<i64> = None;
    let mut done = false;
    while !done
        invariant
            log.wf(),
            strictly_sorted_by_key(s, msg_key()),
            s == log.entries@,
            0 <= cut_of(s, msg_key(), cursor) <= s.len(),
            !done ==> out@.len() == s.len() - cut_of(s, msg_key(), cursor),
            done ==> out@.len() == s.len(),
            forall|i: int| 0 <= i < out@.len() ==> out@[i] == s[s.len() - 1 - i],
        decreases (if done {
            0int
        } else {
            1int
        }), cut_of(s, msg_key(), cursor),
    {
        let ghost cut = cut_of(s, msg_key(), cursor);
        proof {
            match cursor {
                Some(b) => lemma_cut_index(s, msg_key(), b),
                None => {},
            }
        }
        let page = log.page(limit, cursor);
        let ghost take = page_len(s, msg_key(), limit as int, cursor);
        let mut j: usize = 0;
        let m = page.messages.len();
        proof {
            assert(m == take);
        }
        while j < m
            invariant
                j <= m,
                m == page.messages@.len(),
                page.messages@ == page_seq(s, msg_key(), limit as int, cursor),
                out@.len() == s.len() - cut + j,
                0 <= cut <= s.len(),
                cut == cut_of(s, msg_key(), cursor),
                forall|i: int| 0 <= i < out@.len() ==> out@[i] == s[s.len() - 1 - i],
            decreases m - j,
        {
            proof {
                assert(page.messages@[j as int] == s[cut - 1 - j]);
            }
            out.push(page.messages[j].duplicate());
            j = j + 1;
        }
        if page.has_more {
            proof {
                lemma_page_chain(s, msg_key(), limit as int, cursor);
            }
            cursor = page.next_cursor;
        } else {
            proof {
                assert(cut <= clamp_limit(limit as int));
                assert(take == cut);
                assert(out@.len() == s.len());
            }
            done = true;
        }
    }
    proof {
        assert(out@ =~= s.reverse());
    }
    out
}

} // verus!
