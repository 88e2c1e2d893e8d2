use vstd::prelude::*;
use crate::shims::{lower_of, to_lowercase, trim, trim_of};
use crate::text::{dash_spaces, replace_spaces};
use crate::table::{
    find_by, lemma_find_by, lemma_find_by_first, lemma_find_by_none, lemma_unique_by_push,
    lemma_unique_by_update, unique_by,
};

verus! {

/// A community, owned by its creator.
#[derive(Debug)]
pub struct Server {
    pub id: String,
    pub name: String,
    pub owner_id: String,
    pub icon_url: Option<String>,
    pub created_at: i64,
}

impl Server {
    /// A field-for-field copy with its contents pinned down.
    pub fn duplicate(&self) -> (r: Server)
        ensures
            r == *self,
    {
        Server {
            id: self.id.clone(),
            name: self.name.clone(),
            owner_id: self.owner_id.clone(),
            icon_url: match &self.icon_url {
                Some(u) => Some(u.clone()),
                None => None,
            },
            created_at: self.created_at,
        }
    }
}

/// A channel of a server. The type is the wire string, "text" or "voice".
#[derive(Debug)]
pub struct Channel {
    pub id: String,
    pub server_id: String,
    pub name: String,
    pub channel_type: String,
    pub created_at: i64,
}

impl Channel {
    /// A field-for-field copy with its contents pinned down.
    pub fn duplicate(&self) -> (r: Channel)
        ensures
            r == *self,
    {
        Channel {
            id: self.id.clone(),
            server_id: self.server_id.clone(),
            name: self.name.clone(),
            channel_type: self.channel_type.clone(),
            created_at: self.created_at,
        }
    }
}

/// One user's membership in one server, with their role.
#[derive(Debug)]
pub struct Member {
    pub server_id: String,
    pub user_id: String,
    pub username: String,
    pub role: String,
    pub joined_at: i64,
}

impl Member {
    /// A field-for-field copy with its contents pinned down.
    pub fn duplicate(&self) -> (r: Member)
        ensures
            r == *self,
    {
        Member {
            server_id: self.server_id.clone(),
            user_id: self.user_id.clone(),
            username: self.username.clone(),
            role: self.role.clone(),
            joined_at: self.joined_at,
        }
    }
}

#[derive(Debug)]
pub struct CreateServerRequest {
    pub name: String,
}

#[derive(Debug)]
pub struct CreateChannelRequest {
    pub name: String,
    pub channel_type: String,
}

/// The channel type used when a request does not name one.
pub fn default_channel_type() -> (r: String)
    ensures
        r@ == "text"@,
{
    String::from_str("text")
}

/// A server together with its channels and member count, as the read
/// endpoints hand it out.
#[derive(Debug)]
pub struct ServerWithChannels {
    pub server: Server,
    pub channels: Vec<Channel>,
    pub member_count: usize,
}

pub open spec fn server_key() -> spec_fn(Server) -> Seq<char> {
    |s: Server| s.id@
}

pub open spec fn server_key_is(id: Seq<char>) -> spec_fn(Server) -> bool {
    |s: Server| s.id@ == id
}

pub open spec fn server_idx(s: Seq<Server>, id: Seq<char>) -> int {
    find_by(s, server_key_is(id))
}

pub open spec fn server_name_is(name: Seq<char>) -> spec_fn(Server) -> bool {
    |s: Server| s.name@ == name
}

pub open spec fn channel_key() -> spec_fn(Channel) -> (Seq<char>, Seq<char>) {
    |c: Channel| (c.server_id@, c.id@)
}

pub open spec fn channel_key_is(sid: Seq<char>, id: Seq<char>) -> spec_fn(Channel) -> bool {
    |c: Channel| c.server_id@ == sid && c.id@ == id
}

pub open spec fn channel_idx(s: Seq<Channel>, sid: Seq<char>, id: Seq<char>) -> int {
    find_by(s, channel_key_is(sid, id))
}

pub open spec fn member_key() -> spec_fn(Member) -> (Seq<char>, Seq<char>) {
    |m: Member| (m.server_id@, m.user_id@)
}

pub open spec fn member_key_is(sid: Seq<char>, uid: Seq<char>) -> spec_fn(Member) -> bool {
    |m: Member| m.server_id@ == sid && m.user_id@ == uid
}

pub open spec fn member_idx(s: Seq<Member>, sid: Seq<char>, uid: Seq<char>) -> int {
    find_by(s, member_key_is(sid, uid))
}

/// The channels of one server, in table order.
pub open spec fn channels_of(s: Seq<Channel>, sid: Seq<char>) -> Seq<Channel>
    decreases s.len(),
{
    if s.len() == 0 {
        Seq::empty()
    } else {
        let head = channels_of(s.drop_last(), sid);
        if s.last().server_id@ == sid {
            head.push(s.last())
        } else {
            head
        }
    }
}

/// The members of one server, in table order.
pub open spec fn members_of(s: Seq<Member>, sid: Seq<char>) -> Seq<Member>
    decreases s.len(),
{
    if s.len() == 0 {
        Seq::empty()
    } else {
        let head = members_of(s.drop_last(), sid);
        if s.last().server_id@ == sid {
            head.push(s.last())
        } else {
            head
        }
    }
}

/// The servers table: one row per server, keyed by id.
#[derive(Debug)]
pub struct ServerTable {
    pub servers: Vec<Server>,
}

/// The channels table: one row per channel, keyed by (server, channel).
#[derive(Debug)]
pub struct ChannelTable {
    pub channels: Vec<Channel>,
}

/// The members table: one row per membership, keyed by (server, user).
#[derive(Debug)]
pub struct MemberTable {
    pub members: Vec<Member>,
}

/// How an upsert keyed by `k` rewrites a table of rows.
pub open spec fn upsert_at<T>(pre: Seq<T>, post: Seq<T>, k: int, row: T) -> bool {
    if k == -1 {
        post == pre.push(row)
    } else {
        post == pre.update(k, row)
    }
}

impl ServerTable {
    pub open spec fn wf(self) -> bool {
        unique_by(self.servers@, server_key())
    }

    pub fn new() -> (r: ServerTable)
        ensures
            r.wf(),
            r.servers@.len() == 0,
    {
        ServerTable { servers: Vec::new() }
    }

    pub fn index_of(&self, server_id: &String) -> (r: Option<usize>)
        ensures
            match r {
                Some(k) => k < self.servers@.len() && server_idx(self.servers@, server_id@)
                    == k as int,
                None => server_idx(self.servers@, server_id@) == -1,
            },
    {
        let n = self.servers.len();
        let mut i: usize = 0;
        while i < n
            invariant
                i <= n,
                n == self.servers@.len(),
                forall|j: int| 0 <= j < i ==> self.servers@[j].id@ != server_id@,
            decreases n - i,
        {
            if self.servers[i].id == *server_id {
                proof {
                    assert(server_key_is(server_id@)(self.servers@[i as int]));
                    assert forall|j: int| 0 <= j < i implies !#[trigger] server_key_is(
                        server_id@,
                    )(self.servers@[j]) by {}
                    lemma_find_by_first(self.servers@, server_key_is(server_id@), i as int);
                }
                return Some(i);
            }
            i = i + 1;
        }
        proof {
            assert forall|j: int|
                0 <= j < self.servers@.len() implies !#[trigger] server_key_is(server_id@)(
                self.servers@[j],
            ) by {}
            lemma_find_by_none(self.servers@, server_key_is(server_id@));
        }
        None
    }

    /// The name and owner of a server, or `NotFound`.
    pub fn get_server_by_id(&self, server_id: &String) -> (r: Result<(String, String), (
        u16,
        String,
    )>)
        ensures
            r is Ok <==> server_idx(self.servers@, server_id@) >= 0,
            r matches Ok(p) ==> p.0@ == self.servers@[server_idx(
                self.servers@,
                server_id@,
            )].name@ && p.1@ == self.servers@[server_idx(self.servers@, server_id@)].owner_id@,
            r matches Err(e) ==> e.0 == 404,
    {
        match self.index_of(server_id) {
            Some(k) => Ok((self.servers[k].name.clone(), self.servers[k].owner_id.clone())),
            None => Err((404, String::from_str("Server not found"))),
        }
    }

    /// The id and owner of the first server carrying `server_name`, if any.
    pub fn get_server_by_name(&self, server_name: &String) -> (r: Option<(String, String)>)
        ensures
            match r {
                Some(p) => find_by(self.servers@, server_name_is(server_name@)) >= 0 && p.0@
                    == self.servers@[find_by(self.servers@, server_name_is(server_name@))].id@
                    && p.1@ == self.servers@[find_by(
                    self.servers@,
                    server_name_is(server_name@),
                )].owner_id@,
                None => find_by(self.servers@, server_name_is(server_name@)) == -1,
            },
    {
        let n = self.servers.len();
        let mut i: usize = 0;
        while i < n
            invariant
                i <= n,
                n == self.servers@.len(),
                forall|j: int| 0 <= j < i ==> self.servers@[j].name@ != server_name@,
            decreases n - i,
        {
            if self.servers[i].name == *server_name {
                proof {
                    assert(server_name_is(server_name@)(self.servers@[i as int]));
                    assert forall|j: int| 0 <= j < i implies !#[trigger] server_name_is(
                        server_name@,
                    )(self.servers@[j]) by {}
                    lemma_find_by_first(self.servers@, server_name_is(server_name@), i as int);
                }
                return Some((self.servers[i].id.clone(), self.servers[i].owner_id.clone()));
            }
            i = i + 1;
        }
        proof {
            assert forall|j: int|
                0 <= j < self.servers@.len() implies !#[trigger] server_name_is(server_name@)(
                self.servers@[j],
            ) by {}
            lemma_find_by_none(self.servers@, server_name_is(server_name@));
        }
        None
    }

    /// Replaces the row under this id, or appends it.
    pub fn upsert(&mut self, row: Server)
        requires
            old(self).wf(),
        ensures
            final(self).wf(),
            upsert_at(
                old(self).servers@,
                final(self).servers@,
                server_idx(old(self).servers@, row.id@),
                row,
            ),
    {
        let ghost pre = self.servers@;
        match self.index_of(&row.id) {
            Some(k) => {
                proof {
                    lemma_find_by(pre, server_key_is(row.id@));
                    assert(server_key()(row) == server_key()(pre[k as int]));
                    lemma_unique_by_update(pre, server_key(), k as int, row);
                }
                self.servers.set(k, row);
            },
            None => {
                proof {
                    lemma_find_by(pre, server_key_is(row.id@));
                    assert forall|i: int| 0 <= i < pre.len() implies #[trigger] server_key()(
                        pre[i],
                    ) != server_key()(row) by {
                        assert(!server_key_is(row.id@)(pre[i]));
                    }
                    lemma_unique_by_push(pre, server_key(), row);
                }
                self.servers.push(row);
            },
        }
    }
}

impl ChannelTable {
    pub open spec fn wf(self) -> bool {
        unique_by(self.channels@, channel_key())
    }

    pub fn new() -> (r: ChannelTable)
        ensures
            r.wf(),
            r.channels@.len() == 0,
    {
        ChannelTable { channels: Vec::new() }
    }

    pub fn index_of(&self, server_id: &String, channel_id: &String) -> (r: Option<usize>)
        ensures
            match r {
                Some(k) => k < self.channels@.len() && channel_idx(
                    self.channels@,
                    server_id@,
                    channel_id@,
                ) == k as int,
                None => channel_idx(self.channels@, server_id@, channel_id@) == -1,
            },
    {
        let n = self.channels.len();
        let mut i: usize = 0;
        while i < n
            invariant
                i <= n,
                n == self.channels@.len(),
                forall|j: int|
                    0 <= j < i ==> !(self.channels@[j].server_id@ == server_id@
                        && self.channels@[j].id@ == channel_id@),
            decreases n - i,
        {
            if self.channels[i].server_id == *server_id && self.channels[i].id == *channel_id {
                proof {
                    assert(channel_key_is(server_id@, channel_id@)(self.channels@[i as int]));
                    assert forall|j: int| 0 <= j < i implies !#[trigger] channel_key_is(
                        server_id@,
                        channel_id@,
                    )(self.channels@[j]) by {}
                    lemma_find_by_first(
                        self.channels@,
                        channel_key_is(server_id@, channel_id@),
                        i as int,
                    );
                }
                return Some(i);
            }
            i = i + 1;
        }
        proof {
            assert forall|j: int|
                0 <= j < self.channels@.len() implies !#[trigger] channel_key_is(
                server_id@,
                channel_id@,
            )(self.channels@[j]) by {}
            lemma_find_by_none(self.channels@, channel_key_is(server_id@, channel_id@));
        }
        None
    }

    /// Confirms that the channel exists and belongs to the server.
    pub fn verify_channel(&self, server_id: &String, channel_id: &String) -> (r: Result<(), (
        u16,
        String,
    )>)
        ensures
            r is Ok <==> channel_idx(self.channels@, server_id@, channel_id@) >= 0,
            r matches Err(e) ==> e.0 == 404,
    {
        match self.index_of(server_id, channel_id) {
            Some(_) => Ok(()),
            None => Err((404, String::from_str("Channel not found"))),
        }
    }

    /// The channels of one server, in table order.
    pub fn list_channels(&self, server_id: &String) -> (r: Vec<Channel>)
        ensures
            r@ == channels_of(self.channels@, server_id@),
    {
        let mut out: Vec<Channel> = Vec::new();
        let n = self.channels.len();
        let mut i: usize = 0;
        proof {
            assert(self.channels@.subrange(0, 0) =~= Seq::<Channel>::empty());
        }
        while i < n
            invariant
                i <= n,
                n == self.channels@.len(),
                out@ == channels_of(self.channels@.subrange(0, i as int), server_id@),
            decreases n - i,
        {
            let ghost s_pre = self.channels@.subrange(0, i as int);
            let ghost s_post = self.channels@.subrange(0, i + 1);
            if self.channels[i].server_id == *server_id {
                out.push(self.channels[i].duplicate());
            }
            proof {
                assert(s_post.drop_last() =~= s_pre);
                assert(s_post.last() == self.channels@[i as int]);
            }
            i = i + 1;
        }
        proof {
            assert(self.channels@.subrange(0, n as int) =~= self.channels@);
        }
        out
    }

    /// Replaces the row under this key, or appends it.
    pub fn upsert(&mut self, row: Channel)
        requires
            old(self).wf(),
        ensures
            final(self).wf(),
            upsert_at(
                old(self).channels@,
                final(self).channels@,
                channel_idx(old(self).channels@, row.server_id@, row.id@),
                row,
            ),
    {
        let ghost pre = self.channels@;
        match self.index_of(&row.server_id, &row.id) {
            Some(k) => {
                proof {
                    lemma_find_by(pre, channel_key_is(row.server_id@, row.id@));
                    assert(channel_key()(row) == channel_key()(pre[k as int]));
                    lemma_unique_by_update(pre, channel_key(), k as int, row);
                }
                self.channels.set(k, row);
            },
            None => {
                proof {
                    lemma_find_by(pre, channel_key_is(row.server_id@, row.id@));
                    assert forall|i: int| 0 <= i < pre.len() implies #[trigger] channel_key()(
                        pre[i],
                    ) != channel_key()(row) by {
                        assert(!channel_key_is(row.server_id@, row.id@)(pre[i]));
                    }
                    lemma_unique_by_push(pre, channel_key(), row);
                }
                self.channels.push(row);
            },
        }
    }
}

impl MemberTable {
    pub open spec fn wf(self) -> bool {
        unique_by(self.members@, member_key())
    }

    pub fn new() -> (r: MemberTable)
        ensures
            r.wf(),
            r.members@.len() == 0,
    {
        MemberTable { members: Vec::new() }
    }

    pub fn index_of(&self, server_id: &String, user_id: &String) -> (r: Option<usize>)
        ensures
            match r {
                Some(k) => k < self.members@.len() && member_idx(
                    self.members@,
                    server_id@,
                    user_id@,
                ) == k as int,
                None => member_idx(self.members@, server_id@, user_id@) == -1,
            },
    {
        let n = self.members.len();
        let mut i: usize = 0;
        while i < n
            invariant
                i <= n,
                n == self.members@.len(),
                forall|j: int|
                    0 <= j < i ==> !(self.members@[j].server_id@ == server_id@
                        && self.members@[j].user_id@ == user_id@),
            decreases n - i,
        {
            if self.members[i].server_id == *server_id && self.members[i].user_id == *user_id {
                proof {
                    assert(member_key_is(server_id@, user_id@)(self.members@[i as int]));
                    assert forall|j: int| 0 <= j < i implies !#[trigger] member_key_is(
                        server_id@,
                        user_id@,
                    )(self.members@[j]) by {}
                    lemma_find_by_first(
                        self.members@,
                        member_key_is(server_id@, user_id@),
                        i as int,
                    );
                }
                return Some(i);
            }
            i = i + 1;
        }
        proof {
            assert forall|j: int|
                0 <= j < self.members@.len() implies !#[trigger] member_key_is(
                server_id@,
                user_id@,
            )(self.members@[j]) by {}
            lemma_find_by_none(self.members@, member_key_is(server_id@, user_id@));
        }
        None
    }

    /// Membership gate shared by the message and server read paths.
    pub fn check_membership(&self, server_id: &String, user_id: &String) -> (r: Result<(), (
        u16,
        String,
    )>)
        ensures
            r is Ok <==> member_idx(self.members@, server_id@, user_id@) >= 0,
            r matches Err(e) ==> e.0 == 403,
    {
        match self.index_of(server_id, user_id) {
            Some(_) => Ok(()),
            None => Err((403, String::from_str("You are not a member of this server"))),
        }
    }

    /// The caller's role in the server, if they are a member.
    pub fn get_member_role(&self, server_id: &String, user_id: &String) -> (r: Option<String>)
        ensures
            r is Some <==> member_idx(self.members@, server_id@, user_id@) >= 0,
            r matches Some(role) ==> role@ == self.members@[member_idx(
                self.members@,
                server_id@,
                user_id@,
            )].role@,
    {
        match self.index_of(server_id, user_id) {
            Some(k) => Some(self.members[k].role.clone()),
            None => None,
        }
    }

    /// How many members a server has.
    pub fn count_members(&self, server_id: &String) -> (r: usize)
        ensures
            r == members_of(self.members@, server_id@).len(),
    {
        let mut count: usize = 0;
        let n = self.members.len();
        let mut i: usize = 0;
        proof {
            assert(self.members@.subrange(0, 0) =~= Seq::<Member>::empty());
        }
        while i < n
            invariant
                i <= n,
                n == self.members@.len(),
                count == members_of(self.members@.subrange(0, i as int), server_id@).len(),
                count <= i,
            decreases n - i,
        {
            let ghost s_pre = self.members@.subrange(0, i as int);
            let ghost s_post = self.members@.subrange(0, i + 1);
            if self.members[i].server_id == *server_id {
                count = count + 1;
            }
            proof {
                assert(s_post.drop_last() =~= s_pre);
                assert(s_post.last() == self.members@[i as int]);
            }
            i = i + 1;
        }
        proof {
            assert(self.members@.subrange(0, n as int) =~= self.members@);
        }
        count
    }

    /// The members of one server, in table order.
    pub fn members_of_server(&self, server_id: &String) -> (r: Vec<Member>)
        ensures
            r@ == members_of(self.members@, server_id@),
    {
        let mut out: Vec<Member> = Vec::new();
        let n = self.members.len();
        let mut i: usize = 0;
        proof {
            assert(self.members@.subrange(0, 0) =~= Seq::<Member>::empty());
        }
        while i < n
            invariant
                i <= n,
                n == self.members@.len(),
                out@ == members_of(self.members@.subrange(0, i as int), server_id@),
            decreases n - i,
        {
            let ghost s_pre = self.members@.subrange(0, i as int);
            let ghost s_post = self.members@.subrange(0, i + 1);
            if self.members[i].server_id == *server_id {
                out.push(self.members[i].duplicate());
            }
            proof {
                assert(s_post.drop_last() =~= s_pre);
                assert(s_post.last() == self.members@[i as int]);
            }
            i = i + 1;
        }
        proof {
            assert(self.members@.subrange(0, n as int) =~= self.members@);
        }
        out
    }

    /// Replaces the row under this key, or appends it.
    pub fn upsert(&mut self, row: Member)
        requires
            old(self).wf(),
        ensures
            final(self).wf(),
            upsert_at(
                old(self).members@,
                final(self).members@,
                member_idx(old(self).members@, row.server_id@, row.user_id@),
                row,
            ),
    {
        let ghost pre = self.members@;
        match self.index_of(&row.server_id, &row.user_id) {
            Some(k) => {
                proof {
                    lemma_find_by(pre, member_key_is(row.server_id@, row.user_id@));
                    assert(member_key()(row) == member_key()(pre[k as int]));
                    lemma_unique_by_update(pre, member_key(), k as int, row);
                }
                self.members.set(k, row);
            },
            None => {
                proof {
                    lemma_find_by(pre, member_key_is(row.server_id@, row.user_id@));
                    assert forall|i: int| 0 <= i < pre.len() implies #[trigger] member_key()(
                        pre[i],
                    ) != member_key()(row) by {
                        assert(!member_key_is(row.server_id@, row.user_id@)(pre[i]));
                    }
                    lemma_unique_by_push(pre, member_key(), row);
                }
                self.members.push(row);
            },
        }
    }
}

/// Writes the membership row for (server, user) with the given role at
/// time `now`, and hands the written row back.
pub fn add_member(
    members: &mut MemberTable,
    server_id: &String,
    user_id: &String,
    username: &String,
    role: &String,
    now: i64,
) -> (r: Member)
    requires
        old(members).wf(),
    ensures
        final(members).wf(),
        r.server_id@ == server_id@ && r.user_id@ == user_id@ && r.username@ == username@
            && r.role@ == role@ && r.joined_at == now,
        upsert_at(
            old(members).members@,
            final(members).members@,
            member_idx(old(members).members@, server_id@, user_id@),
            r,
        ),
{
    let row = Member {
        server_id: server_id.clone(),
        user_id: user_id.clone(),
        username: username.clone(),
        role: role.clone(),
        joined_at: now,
    };
    let result = row.duplicate();
    members.upsert(row);
    result
}

/// A server as the read endpoints assemble it: for members only, `NotFound`
/// when the server row is missing.
pub fn get_server(
    servers: &ServerTable,
    channels: &ChannelTable,
    members: &MemberTable,
    server_id: &String,
    user_id: &String,
) -> (r: Result<ServerWithChannels, (u16, String)>)
    ensures
        member_idx(members.members@, server_id@, user_id@) == -1 ==> (r matches Err(e) && e.0
            == 403),
        member_idx(members.members@, server_id@, user_id@) >= 0 && server_idx(
            servers.servers@,
            server_id@,
        ) == -1 ==> (r matches Err(e) && e.0 == 404),
        member_idx(members.members@, server_id@, user_id@) >= 0 && server_idx(
            servers.servers@,
            server_id@,
        ) >= 0 ==> (r matches Ok(sw) && sw.server == servers.servers@[server_idx(
            servers.servers@,
            server_id@,
        )] && sw.channels@ == channels_of(channels.channels@, server_id@) && sw.member_count
            == members_of(members.members@, server_id@).len()),
{
    members.check_membership(server_id, user_id)?;
    let server = match servers.index_of(server_id) {
        Some(k) => servers.servers[k].duplicate(),
        None => {
            return Err((404, String::from_str("Server not found")));
        },
    };
    let chans = channels.list_channels(server_id);
    let member_count = members.count_members(server_id);
    Ok(ServerWithChannels { server, channels: chans, member_count })
}

/// Whether the member row at hand authorizes channel and invite
/// administration.
pub open spec fn is_admin_role(role: Seq<char>) -> bool {
    role == "owner"@ || role == "admin"@
}

/// The normalized channel name: trimmed, lowercased, spaces to dashes.
pub open spec fn normalized_channel_name(s: Seq<char>) -> Seq<char> {
    dash_spaces(lower_of(trim_of(s)))
}

/// Creates a server at time `now` under the given fresh ids: the caller
/// becomes its owner member and a "general" text channel is written.
pub fn create_server_at(
    servers: &mut ServerTable,
    channels: &mut ChannelTable,
    members: &mut MemberTable,
    user_id: &String,
    username: &String,
    req: &CreateServerRequest,
    server_id: String,
    channel_id: String,
    now: i64,
) -> (r: Result<ServerWithChannels, (u16, String)>)
    requires
        old(servers).wf(),
        old(channels).wf(),
        old(members).wf(),
    ensures
        final(servers).wf(),
        final(channels).wf(),
        final(members).wf(),
        r is Ok <==> (1 <= trim_of(req.name@).len() && req.name@.len() <= 100),
        r matches Err(e) ==> e.0 == 400 && final(servers).servers@ == old(servers).servers@
            && final(channels).channels@ == old(channels).channels@ && final(members).members@
            == old(members).members@,
        r matches Ok(sw) ==> {
            &&& sw.server.id@ == server_id@
            &&& sw.server.name@ == trim_of(req.name@)
            &&& sw.server.owner_id@ == user_id@
            &&& sw.server.icon_url is None
            &&& sw.server.created_at == now
            &&& sw.channels@.len() == 1
            &&& sw.channels@[0].id@ == channel_id@
            &&& sw.channels@[0].server_id@ == server_id@
            &&& sw.channels@[0].name@ == "general"@
            &&& sw.channels@[0].channel_type@ == "text"@
            &&& sw.channels@[0].created_at == now
            &&& sw.member_count == 1
            &&& upsert_at(
                old(servers).servers@,
                final(servers).servers@,
                server_idx(old(servers).servers@, server_id@),
                sw.server,
            )
            &&& upsert_at(
                old(channels).channels@,
                final(channels).channels@,
                channel_idx(old(channels).channels@, server_id@, channel_id@),
                sw.channels@[0],
            )
            &&& exists|m: Member|
                #![auto]
                m.server_id@ == server_id@ && m.user_id@ == user_id@ && m.username@ == username@
                    && m.role@ == "owner"@ && m.joined_at == now && upsert_at(
                    old(members).members@,
                    final(members).members@,
                    member_idx(old(members).members@, server_id@, user_id@),
                    m,
                )
        },
{
    let trimmed = String::from_str(trim(&req.name));
    if trimmed.as_str().unicode_len() == 0 || req.name.as_str().unicode_len() > 100 {
        return Err((400, String::from_str("Server name must be 1-100 characters")));
    }
    let server = Server {
        id: server_id,
        name: trimmed,
        owner_id: user_id.clone(),
        icon_url: None,
        created_at: now,
    };
    let server_copy = server.duplicate();
    servers.upsert(server);
    let owner_role = String::from_str("owner");
    let member = add_member(members, &server_copy.id, user_id, username, &owner_role, now);
    proof {
        assert(member.role@ == "owner"@);
    }
    let channel = Channel {
        id: channel_id,
        server_id: server_copy.id.clone(),
        name: String::from_str("general"),
        channel_type: String::from_str("text"),
        created_at: now,
    };
    let channel_copy = channel.duplicate();
    channels.upsert(channel);
    let mut chans: Vec<Channel> = Vec::new();
    chans.push(channel_copy);
    Ok(ServerWithChannels { server: server_copy, channels: chans, member_count: 1 })
}

/// Creates a server with fresh random ids at the current wall-clock time.
pub fn create_server(
    servers: &mut ServerTable,
    channels: &mut ChannelTable,
    members: &mut MemberTable,
    user_id: &String,
    username: &String,
    req: &CreateServerRequest,
) -> (r: Result<ServerWithChannels, (u16, String)>)
    requires
        old(servers).wf(),
        old(channels).wf(),
        old(members).wf(),
    ensures
        final(servers).wf(),
        final(channels).wf(),
        final(members).wf(),
        r is Ok <==> (1 <= trim_of(req.name@).len() && req.name@.len() <= 100),
        r matches Err(e) ==> e.0 == 400 && final(servers).servers@ == old(servers).servers@
            && final(channels).channels@ == old(channels).channels@ && final(members).members@
            == old(members).members@,
        r matches Ok(sw) ==> {
            &&& sw.server.id@.len() == 36
            &&& sw.server.name@ == trim_of(req.name@)
            &&& sw.server.owner_id@ == user_id@
            &&& sw.channels@.len() == 1
            &&& sw.channels@[0].name@ == "general"@
            &&& sw.channels@[0].channel_type@ == "text"@
            &&& sw.channels@[0].server_id@ == sw.server.id@
            &&& sw.member_count == 1
            &&& upsert_at(
                old(servers).servers@,
                final(servers).servers@,
                server_idx(old(servers).servers@, sw.server.id@),
                sw.server,
            )
            &&& upsert_at(
                old(channels).channels@,
                final(channels).channels@,
                channel_idx(old(channels).channels@, sw.server.id@, sw.channels@[0].id@),
                sw.channels@[0],
            )
            &&& exists|m: Member|
                #![auto]
                m.server_id@ == sw.server.id@ && m.user_id@ == user_id@ && m.role@ == "owner"@
                    && upsert_at(
                    old(members).members@,
                    final(members).members@,
                    member_idx(old(members).members@, sw.server.id@, user_id@),
                    m,
                )
        },
{
    let server_id = crate::shims::new_uuid();
    let channel_id = crate::shims::new_uuid();
    let now = crate::shims::now_seconds();
    create_server_at(servers, channels, members, user_id, username, req, server_id, channel_id, now)
}

/// Creates a channel at time `now` under the given fresh id. Owners and
/// admins only; the name is validated and then normalized (trimmed,
/// lowercased, spaces to dashes).
pub fn create_channel_at(
    channels: &mut ChannelTable,
    members: &MemberTable,
    server_id: &String,
    user_id: &String,
    req: &CreateChannelRequest,
    channel_id: String,
    now: i64,
) -> (r: Result<Channel, (u16, String)>)
    requires
        old(channels).wf(),
    ensures
        final(channels).wf(),
        member_idx(members.members@, server_id@, user_id@) == -1 ==> (r matches Err(e) && e.0
            == 403 && final(channels).channels@ == old(channels).channels@),
        member_idx(members.members@, server_id@, user_id@) >= 0 && !is_admin_role(
            members.members@[member_idx(members.members@, server_id@, user_id@)].role@,
        ) ==> (r matches Err(e) && e.0 == 403 && final(channels).channels@ == old(
            channels,
        ).channels@),
        member_idx(members.members@, server_id@, user_id@) >= 0 && is_admin_role(
            members.members@[member_idx(members.members@, server_id@, user_id@)].role@,
        ) ==> {
            &&& r is Ok <==> (1 <= trim_of(req.name@).len() && req.name@.len() <= 100)
            &&& (r matches Err(e) ==> e.0 == 400 && final(channels).channels@ == old(
                channels,
            ).channels@)
            &&& (r matches Ok(c) ==> c.id@ == channel_id@ && c.server_id@ == server_id@
                && c.name@ == normalized_channel_name(req.name@) && c.channel_type@
                == req.channel_type@ && c.created_at == now && upsert_at(
                old(channels).channels@,
                final(channels).channels@,
                channel_idx(old(channels).channels@, server_id@, channel_id@),
                c,
            ))
        },
{
    let role = match members.get_member_role(server_id, user_id) {
        Some(role) => role,
        None => {
            return Err((403, String::from_str("Only owners and admins can create channels")));
        },
    };
    if !(crate::text::str_eq(role.as_str(), "owner") || crate::text::str_eq(
        role.as_str(),
        "admin",
    )) {
        return Err((403, String::from_str("Only owners and admins can create channels")));
    }
    let trimmed = String::from_str(trim(&req.name));
    if trimmed.as_str().unicode_len() == 0 || req.name.as_str().unicode_len() > 100 {
        return Err((400, String::from_str("Channel name must be 1-100 characters")));
    }
    let lowered = to_lowercase(&trimmed);
    let name = replace_spaces(&lowered);
    let channel = Channel {
        id: channel_id,
        server_id: server_id.clone(),
        name,
        channel_type: req.channel_type.clone(),
        created_at: now,
    };
    let result = channel.duplicate();
    channels.upsert(channel);
    Ok(result)
}

/// Creates a channel with a fresh random id at the current wall-clock
/// time.
pub fn create_channel(
    channels: &mut ChannelTable,
    members: &MemberTable,
    server_id: &String,
    user_id: &String,
    req: &CreateChannelRequest,
) -> (r: Result<Channel, (u16, String)>)
    requires
        old(channels).wf(),
    ensures
        final(channels).wf(),
        member_idx(members.members@, server_id@, user_id@) == -1 ==> (r matches Err(e) && e.0
            == 403 && final(channels).channels@ == old(channels).channels@),
        member_idx(members.members@, server_id@, user_id@) >= 0 && !is_admin_role(
            members.members@[member_idx(members.members@, server_id@, user_id@)].role@,
        ) ==> (r matches Err(e) && e.0 == 403 && final(channels).channels@ == old(
            channels,
        ).channels@),
        member_idx(members.members@, server_id@, user_id@) >= 0 && is_admin_role(
            members.members@[member_idx(members.members@, server_id@, user_id@)].role@,
        ) ==> {
            &&& r is Ok <==> (1 <= trim_of(req.name@).len() && req.name@.len() <= 100)
            &&& (r matches Err(e) ==> e.0 == 400)
            &&& (r matches Ok(c) ==> c.id@.len() == 36 && c.server_id@ == server_id@ && c.name@
                == normalized_channel_name(req.name@) && c.channel_type@ == req.channel_type@
                && upsert_at(
                old(channels).channels@,
                final(channels).channels@,
                channel_idx(old(channels).channels@, server_id@, c.id@),
                c,
            ))
        },
        r is Err ==> final(channels).channels@ == old(channels).channels@,
{
    let channel_id = crate::shims::new_uuid();
    let now = crate::shims::now_seconds();
    let r = create_channel_at(channels, members, server_id, user_id, req, channel_id, now);
    proof {
        lemma_find_by(members.members@, member_key_is(server_id@, user_id@));
    }
    r
}

/// The servers a member can see in table order: one entry per membership
/// row whose server still exists.
pub open spec fn user_servers(ms: Seq<Member>, ss: Seq<Server>, uid: Seq<char>) -> Seq<Server>
    decreases ms.len(),
{
    if ms.len() == 0 {
        Seq::empty()
    } else {
        let head = user_servers(ms.drop_last(), ss, uid);
        if ms.last().user_id@ == uid && server_idx(ss, ms.last().server_id@) >= 0 {
            head.push(ss[server_idx(ss, ms.last().server_id@)])
        } else {
            head
        }
    }
}

/// The servers the user belongs to, one per membership row, skipping
/// memberships whose server row is missing.
pub fn list_user_servers(
    members: &MemberTable,
    servers: &ServerTable,
    user_id: &String,
) -> (r: Vec<Server>)
    ensures
        r@ == user_servers(members.members@, servers.servers@, user_id@),
{
    let mut out: Vec<Server> = Vec::new();
    let n = members.members.len();
    let mut i: usize = 0;
    proof {
        assert(members.members@.subrange(0, 0) =~= Seq::<Member>::empty());
    }
    while i < n
        invariant
            i <= n,
            n == members.members@.len(),
            out@ == user_servers(
                members.members@.subrange(0, i as int),
                servers.servers@,
                user_id@,
            ),
        decreases n - i,
    {
        let ghost s_pre = members.members@.subrange(0, i as int);
        let ghost s_post = members.members@.subrange(0, i + 1);
        let row = &members.members[i];
        if row.user_id == *user_id {
            match servers.index_of(&row.server_id) {
                Some(k) => {
                    out.push(servers.servers[k].duplicate());
                },
                None => {},
            }
        }
        proof {
            assert(s_post.drop_last() =~= s_pre);
            assert(s_post.last() == members.members@[i as int]);
        }
        i = i + 1;
    }
    proof {
        assert(members.members@.subrange(0, n as int) =~= members.members@);
    }
    out
}

/// The member list of a server, for members only.
pub fn list_members(
    members: &MemberTable,
    server_id: &String,
    user_id: &String,
) -> (r: Result<Vec<Member>, (u16, String)>)
    ensures
        r is Ok <==> member_idx(members.members@, server_id@, user_id@) >= 0,
        r matches Err(e) ==> e.0 == 403,
        r matches Ok(v) ==> v@ == members_of(members.members@, server_id@),
{
    members.check_membership(server_id, user_id)?;
    Ok(members.members_of_server(server_id))
}

} // verus!
