use vstd::prelude::*;
use crate::servers::{
    add_member, get_server, is_admin_role, member_idx, server_idx, upsert_at, ChannelTable,
    Member, MemberTable, ServerTable, ServerWithChannels,
};
use crate::shims::random_below;
use crate::table::{find_by, lemma_find_by, lemma_find_by_first, lemma_find_by_none, unique_by};

verus! {

/// An invite: a short random code that grants membership of a server,
/// with optional expiry and use cap. The code is globally unique across
/// all servers; the use counter never decreases.
#[derive(Debug)]
pub struct Invite {
    pub code: String,
    pub server_id: String,
    pub server_name: String,
    pub created_by: String,
    pub created_at: i64,
    pub expires_at: Option<i64>,
    pub max_uses: Option<i32>,
    pub use_count: i32,
}

impl Invite {
    /// A field-for-field copy with its contents pinned down.
    pub fn duplicate(&self) -> (r: Invite)
        ensures
            r == *self,
    {
        Invite {
            code: self.code.clone(),
            server_id: self.server_id.clone(),
            server_name: self.server_name.clone(),
            created_by: self.created_by.clone(),
            created_at: self.created_at,
            expires_at: self.expires_at,
            max_uses: self.max_uses,
            use_count: self.use_count,
        }
    }
}

/// What an invite lookup shows a prospective member.
#[derive(Debug)]
pub struct InviteInfo {
    pub code: String,
    pub server_name: String,
    pub server_id: String,
    pub member_count: usize,
}

#[derive(Debug)]
pub struct CreateInviteRequest {
    pub expires_in_hours: Option<i32>,
    pub max_uses: Option<i32>,
}

pub open spec fn invite_key() -> spec_fn(Invite) -> Seq<char> {
    |i: Invite| i.code@
}

pub open spec fn invite_key_is(code: Seq<char>) -> spec_fn(Invite) -> bool {
    |i: Invite| i.code@ == code
}

pub open spec fn invite_idx(s: Seq<Invite>, code: Seq<char>) -> int {
    find_by(s, invite_key_is(code))
}

/// An invite is usable iff it has not expired and has uses left.
pub open spec fn invite_usable(inv: Invite, now: i64) -> bool {
    &&& (inv.expires_at matches Some(e) ==> e >= now)
    &&& (inv.max_uses matches Some(m) ==> inv.use_count < m)
}

/// The code alphabet: unambiguous letters and digits (no 0/O, 1/l/I, i, o).
pub open spec fn code_alphabet_spec() -> Seq<char> {
    "ABCDEFGHJKLMNPQRSTUVWXYZabcdefghjkmnpqrstuvwxyz23456789"@
}

pub fn code_alphabet() -> (r: &'static str)
    ensures
        r@ == code_alphabet_spec(),
        r@.len() == 55,
{
    proof {
        reveal_strlit("ABCDEFGHJKLMNPQRSTUVWXYZabcdefghjkmnpqrstuvwxyz23456789");
    }
    "ABCDEFGHJKLMNPQRSTUVWXYZabcdefghjkmnpqrstuvwxyz23456789"
}

/// A well-formed invite code: 8 characters, all from the alphabet.
pub open spec fn code_wf(c: Seq<char>) -> bool {
    &&& c.len() == 8
    &&& forall|i: int| 0 <= i < c.len() ==> code_alphabet_spec().contains(#[trigger] c[i])
}

/// Draws a fresh 8-character code from the alphabet.
pub fn generate_invite_code() -> (r: String)
    ensures
        code_wf(r@),
{
    let alpha = code_alphabet();
    let mut s = String::new();
    let mut i: usize = 0;
    while i < 8
        invariant
            i <= 8,
            s@.len() == i,
            alpha@ == code_alphabet_spec(),
            alpha@.len() == 55,
            forall|j: int| 0 <= j < i ==> code_alphabet_spec().contains(#[trigger] s@[j]),
        decreases 8 - i,
    {
        let idx = random_below(55);
        let c = alpha.substring_char(idx, idx + 1);
        proof {
            assert(c@[0] == alpha@[idx as int]);
            assert(code_alphabet_spec().contains(alpha@[idx as int]));
        }
        s.append(c);
        i = i + 1;
    }
    s
}

/// The invites table: one row per code, across all servers.
#[derive(Debug)]
pub struct InviteTable {
    pub invites: Vec<Invite>,
}

impl InviteTable {
    pub open spec fn wf(self) -> bool {
        unique_by(self.invites@, invite_key())
    }

    pub fn new() -> (r: InviteTable)
        ensures
            r.wf(),
            r.invites@.len() == 0,
    {
        InviteTable { invites: Vec::new() }
    }

    pub fn index_of(&self, code: &String) -> (r: Option<usize>)
        ensures
            match r {
                Some(k) => k < self.invites@.len() && invite_idx(self.invites@, code@)
                    == k as int,
                None => invite_idx(self.invites@, code@) == -1,
            },
    {
        let n = self.invites.len();
        let mut i: usize = 0;
        while i < n
            invariant
                i <= n,
                n == self.invites@.len(),
                forall|j: int| 0 <= j < i ==> self.invites@[j].code@ != code@,
            decreases n - i,
        {
            if self.invites[i].code == *code {
                proof {
                    assert(invite_key_is(code@)(self.invites@[i as int]));
                    assert forall|j: int| 0 <= j < i implies !#[trigger] invite_key_is(code@)(
                        self.invites@[j],
                    ) by {}
                    lemma_find_by_first(self.invites@, invite_key_is(code@), i as int);
                }
                return Some(i);
            }
            i = i + 1;
        }
        proof {
            assert forall|j: int|
                0 <= j < self.invites@.len() implies !#[trigger] invite_key_is(code@)(
                self.invites@[j],
            ) by {}
            lemma_find_by_none(self.invites@, invite_key_is(code@));
        }
        None
    }

    /// The conditional insert at the heart of the allocation protocol: the
    /// row is written only if no invite already carries its code. This is
    /// the model of the store's insert-if-absent write; it is the only
    /// conditional write the core uses.
    pub fn try_insert(&mut self, invite: Invite) -> (ok: bool)
        requires
            old(self).wf(),
        ensures
            final(self).wf(),
            ok <==> invite_idx(old(self).invites@, invite.code@) == -1,
            ok ==> final(self).invites@ == old(self).invites@.push(invite),
            !ok ==> final(self).invites@ == old(self).invites@,
    {
        let ghost pre = self.invites@;
        match self.index_of(&invite.code) {
            Some(_) => false,
            None => {
                proof {
                    lemma_find_by(pre, invite_key_is(invite.code@));
                    assert forall|i: int| 0 <= i < pre.len() implies #[trigger] invite_key()(
                        pre[i],
                    ) != invite_key()(invite) by {
                        assert(!invite_key_is(invite.code@)(pre[i]));
                    }
                    crate::table::lemma_unique_by_push(pre, invite_key(), invite);
                }
                self.invites.push(invite);
                true
            },
        }
    }

    /// Bumps the use counter of the invite carrying `code`, if present.
    /// The counter never decreases; it saturates rather than wraps.
    pub fn increment_use(&mut self, code: &String)
        requires
            old(self).wf(),
        ensures
            final(self).wf(),
            invite_idx(old(self).invites@, code@) == -1 ==> final(self).invites@ == old(
                self,
            ).invites@,
            invite_idx(old(self).invites@, code@) >= 0 ==> {
                let k = invite_idx(old(self).invites@, code@);
                let pre = old(self).invites@;
                let post = final(self).invites@;
                &&& post.len() == pre.len()
                &&& forall|j: int| 0 <= j < pre.len() && j != k ==> post[j] == pre[j]
                &&& post[k].code == pre[k].code
                &&& post[k].server_id == pre[k].server_id
                &&& post[k].server_name == pre[k].server_name
                &&& post[k].created_by == pre[k].created_by
                &&& post[k].created_at == pre[k].created_at
                &&& post[k].expires_at == pre[k].expires_at
                &&& post[k].max_uses == pre[k].max_uses
                &&& post[k].use_count as int == (if pre[k].use_count < i32::MAX {
                    pre[k].use_count + 1
                } else {
                    pre[k].use_count as int
                })
            },
    {
        let ghost pre = self.invites@;
        match self.index_of(code) {
            None => {},
            Some(k) => {
                let mut row = self.invites.remove(k);
                if row.use_count < i32::MAX {
                    row.use_count = row.use_count + 1;
                }
                self.invites.insert(k, row);
                proof {
                    assert(self.invites@ =~= pre.update(k as int, row));
                    assert(invite_key()(row) == invite_key()(pre[k as int]));
                    crate::table::lemma_unique_by_update(pre, invite_key(), k as int, row);
                }
            },
        }
    }

    /// Deletes the invite at `k`.
    pub fn remove_at(&mut self, k: usize)
        requires
            old(self).wf(),
            k < old(self).invites@.len(),
        ensures
            final(self).wf(),
            final(self).invites@ == old(self).invites@.remove(k as int),
    {
        proof {
            crate::table::lemma_unique_by_remove(self.invites@, invite_key(), k as int);
        }
        self.invites.remove(k);
    }
}

/// Invite uniqueness (law): whatever interleaving of conditional inserts
/// built the table, the codes it admitted are pairwise distinct — so any
/// number of concurrent `create_invite` calls, for the same server or
/// different ones, yield pairwise distinct codes.
pub proof fn lemma_invite_codes_unique(t: InviteTable)
    requires
        t.wf(),
    ensures
        forall|i: int, j: int|
            0 <= i < j < t.invites@.len() ==> t.invites@[i].code@ != t.invites@[j].code@,
{
    assert forall|i: int, j: int|
        0 <= i < j < t.invites@.len() implies t.invites@[i].code@ != t.invites@[j].code@ by {
        assert(invite_key()(t.invites@[i]) != invite_key()(t.invites@[j]));
    }
}

/// The fields of a freshly allocated invite.
pub open spec fn fresh_invite(
    inv: Invite,
    sid: Seq<char>,
    sname: Seq<char>,
    uid: Seq<char>,
    req: CreateInviteRequest,
    now: i64,
) -> bool {
    &&& code_wf(inv.code@)
    &&& inv.server_id@ == sid
    &&& inv.server_name@ == sname
    &&& inv.created_by@ == uid
    &&& inv.created_at == now
    &&& inv.expires_at == (match req.expires_in_hours {
        Some(h) => Some((now + h as i64 * 3600) as i64),
        None => None,
    })
    &&& inv.max_uses == req.max_uses
    &&& inv.use_count == 0
}

/// Allocates an invite for the server at time `now`: owners and admins
/// only. A fresh random code is committed with a conditional insert;
/// on a code collision a new code is drawn, at most five more times.
/// Success is owed unless every one of the six draws collides — the
/// defensive ceiling, surfaced as an internal error with nothing written.
pub fn create_invite_at(
    invites: &mut InviteTable,
    members: &MemberTable,
    servers: &ServerTable,
    server_id: &String,
    user_id: &String,
    req: &CreateInviteRequest,
    now: i64,
) -> (r: Result<Invite, (u16, String)>)
    requires
        old(invites).wf(),
        0 <= now <= 8_000_000_000_000_000_000i64,
    ensures
        final(invites).wf(),
        member_idx(members.members@, server_id@, user_id@) == -1 ==> (r matches Err(e) && e.0
            == 403 && final(invites).invites@ == old(invites).invites@),
        member_idx(members.members@, server_id@, user_id@) >= 0 && !is_admin_role(
            members.members@[member_idx(members.members@, server_id@, user_id@)].role@,
        ) ==> (r matches Err(e) && e.0 == 403 && final(invites).invites@ == old(
            invites,
        ).invites@),
        member_idx(members.members@, server_id@, user_id@) >= 0 && is_admin_role(
            members.members@[member_idx(members.members@, server_id@, user_id@)].role@,
        ) && server_idx(servers.servers@, server_id@) == -1 ==> (r matches Err(e) && e.0 == 404
            && final(invites).invites@ == old(invites).invites@),
        member_idx(members.members@, server_id@, user_id@) >= 0 && is_admin_role(
            members.members@[member_idx(members.members@, server_id@, user_id@)].role@,
        ) && server_idx(servers.servers@, server_id@) >= 0 ==> {
            let sname = servers.servers@[server_idx(servers.servers@, server_id@)].name@;
            &&& (r matches Ok(inv) ==> fresh_invite(inv, server_id@, sname, user_id@, *req, now)
                && invite_idx(old(invites).invites@, inv.code@) == -1 && final(invites).invites@
                == old(invites).invites@.push(inv))
            &&& (r matches Err(e) ==> e.0 == 500 && final(invites).invites@ == old(
                invites,
            ).invites@)
        },
{
    let role = match members.get_member_role(server_id, user_id) {
        Some(role) => role,
        None => {
            return Err((403, String::from_str("You are not a member of this server")));
        },
    };
    if !(crate::text::str_eq(role.as_str(), "owner") || crate::text::str_eq(
        role.as_str(),
        "admin",
    )) {
        return Err((403, String::from_str("Only owners and admins can create invites")));
    }
    let server_name = match servers.get_server_by_id(server_id) {
        Ok(p) => p.0,
        Err(e) => {
            return Err(e);
        },
    };
    let expires_at: Option<i64> = match req.expires_in_hours {
        Some(h) => Some(now + (h as i64) * 3600),
        None => None,
    };
    let mut attempts: usize = 0;
    loop
        invariant
            invites.wf(),
            invites.invites@ == old(invites).invites@,
            attempts <= 6,
            member_idx(members.members@, server_id@, user_id@) >= 0,
            is_admin_role(
                members.members@[member_idx(members.members@, server_id@, user_id@)].role@,
            ),
            server_idx(servers.servers@, server_id@) >= 0,
            server_name@ == servers.servers@[server_idx(servers.servers@, server_id@)].name@,
            expires_at == (match req.expires_in_hours {
                Some(h) => Some((now + h as i64 * 3600) as i64),
                None => None,
            }),
        decreases 6 - attempts,
    {
        let code = generate_invite_code();
        let invite = Invite {
            code,
            server_id: server_id.clone(),
            server_name: server_name.clone(),
            created_by: user_id.clone(),
            created_at: now,
            expires_at,
            max_uses: req.max_uses,
            use_count: 0,
        };
        let result = invite.duplicate();
        if invites.try_insert(invite) {
            return Ok(result);
        }
        if attempts >= 5 {
            return Err((500, String::from_str("Failed to create invite: code collisions")));
        }
        attempts = attempts + 1;
    }
}

/// Allocates an invite at the current wall-clock time, clamped to the
/// representable range so expiry arithmetic cannot overflow.
pub fn create_invite(
    invites: &mut InviteTable,
    members: &MemberTable,
    servers: &ServerTable,
    server_id: &String,
    user_id: &String,
    req: &CreateInviteRequest,
) -> (r: Result<Invite, (u16, String)>)
    requires
        old(invites).wf(),
    ensures
        final(invites).wf(),
        member_idx(members.members@, server_id@, user_id@) == -1 ==> (r matches Err(e) && e.0
            == 403 && final(invites).invites@ == old(invites).invites@),
        member_idx(members.members@, server_id@, user_id@) >= 0 && !is_admin_role(
            members.members@[member_idx(members.members@, server_id@, user_id@)].role@,
        ) ==> (r matches Err(e) && e.0 == 403 && final(invites).invites@ == old(
            invites,
        ).invites@),
        member_idx(members.members@, server_id@, user_id@) >= 0 && is_admin_role(
            members.members@[member_idx(members.members@, server_id@, user_id@)].role@,
        ) && server_idx(servers.servers@, server_id@) == -1 ==> (r matches Err(e) && e.0 == 404
            && final(invites).invites@ == old(invites).invites@),
        r matches Err(e) ==> e.0 == 403 || e.0 == 404 || e.0 == 500,
        r matches Ok(inv) ==> invite_idx(old(invites).invites@, inv.code@) == -1
            && final(invites).invites@ == old(invites).invites@.push(inv) && exists|t: i64|
            0 <= t <= 8_000_000_000_000_000_000i64 && #[trigger] fresh_invite(
                inv,
                server_id@,
                servers.servers@[server_idx(servers.servers@, server_id@)].name@,
                user_id@,
                *req,
                t,
            ),
        r is Err ==> final(invites).invites@ == old(invites).invites@,
{
    let raw_now = crate::shims::now_seconds();
    let now: i64 = if raw_now < 0 {
        0
    } else if raw_now > 8_000_000_000_000_000_000i64 {
        8_000_000_000_000_000_000i64
    } else {
        raw_now
    };
    let r = create_invite_at(invites, members, servers, server_id, user_id, req, now);
    proof {
        lemma_find_by(members.members@, crate::servers::member_key_is(server_id@, user_id@));
        lemma_find_by(servers.servers@, crate::servers::server_key_is(server_id@));
        let mi = member_idx(members.members@, server_id@, user_id@);
        if mi >= 0 {
            let role = members.members@[mi].role@;
            if is_admin_role(role) {
                let si = server_idx(servers.servers@, server_id@);
                if si >= 0 {
                    assert(r matches Ok(inv) ==> fresh_invite(
                        inv,
                        server_id@,
                        servers.servers@[si].name@,
                        user_id@,
                        *req,
                        now,
                    ));
                } else {
                    assert(member_idx(members.members@, server_id@, user_id@) >= 0);
                    assert(is_admin_role(
                        members.members@[member_idx(
                            members.members@,
                            server_id@,
                            user_id@,
                        )].role@,
                    ));
                    assert(server_idx(servers.servers@, server_id@) == -1);
                    assert(r is Err);
                }
            } else {
                assert(r is Err);
            }
        } else {
            assert(member_idx(members.members@, server_id@, user_id@) == -1);
            assert(r is Err);
        }
    }
    r
}

/// Looks an invite up for a prospective member, re-validating expiry and
/// use count against `now`: a missing code is `NotFound`; an expired or
/// used-up invite is `Gone` (410).
pub fn get_invite_info(
    invites: &InviteTable,
    members: &MemberTable,
    code: &String,
    now: i64,
) -> (r: Result<InviteInfo, (u16, String)>)
    ensures
        r is Ok <==> invite_idx(invites.invites@, code@) >= 0 && invite_usable(
            invites.invites@[invite_idx(invites.invites@, code@)],
            now,
        ),
        invite_idx(invites.invites@, code@) == -1 ==> (r matches Err(e) && e.0 == 404),
        invite_idx(invites.invites@, code@) >= 0 && !invite_usable(
            invites.invites@[invite_idx(invites.invites@, code@)],
            now,
        ) ==> (r matches Err(e) && e.0 == 410),
        r matches Ok(info) ==> {
            let inv = invites.invites@[invite_idx(invites.invites@, code@)];
            &&& info.code@ == code@
            &&& info.server_name@ == inv.server_name@
            &&& info.server_id@ == inv.server_id@
            &&& info.member_count == crate::servers::members_of(
                members.members@,
                inv.server_id@,
            ).len()
        },
{
    let k = match invites.index_of(code) {
        None => {
            return Err((404, String::from_str("Invite not found or expired")));
        },
        Some(k) => k,
    };
    let inv = &invites.invites[k];
    match inv.expires_at {
        Some(exp) => {
            if exp < now {
                return Err((410, String::from_str("This invite has expired")));
            }
        },
        None => {},
    }
    match inv.max_uses {
        Some(max) => {
            if inv.use_count >= max {
                return Err((410, String::from_str("This invite has reached its usage limit")));
            }
        },
        None => {},
    }
    let member_count = members.count_members(&inv.server_id);
    Ok(
        InviteInfo {
            code: code.clone(),
            server_name: inv.server_name.clone(),
            server_id: inv.server_id.clone(),
            member_count,
        },
    )
}

/// The whole outcome of a redemption at time `now`, over the four tables'
/// before and after states: what `join_by_code_at` guarantees, and what
/// the wall-clock `join_by_code` guarantees at some instant.
pub open spec fn join_by_code_post(
    ipre: Seq<Invite>,
    ipost: Seq<Invite>,
    mpre: Seq<Member>,
    mpost: Seq<Member>,
    servers: Seq<crate::servers::Server>,
    code: Seq<char>,
    uid: Seq<char>,
    uname: Seq<char>,
    r: Result<ServerWithChannels, (u16, String)>,
    now: i64,
) -> bool {
    &&& invite_idx(ipre, code) == -1 ==> (r matches Err(e) && e.0 == 404 && ipost == ipre
        && mpost == mpre)
    &&& invite_idx(ipre, code) >= 0 && !invite_usable(ipre[invite_idx(ipre, code)], now) ==> (
    r matches Err(e) && e.0 == 410 && ipost == ipre && mpost == mpre)
    &&& invite_idx(ipre, code) >= 0 && invite_usable(ipre[invite_idx(ipre, code)], now) ==> {
        let inv = ipre[invite_idx(ipre, code)];
        if member_idx(mpre, inv.server_id@, uid) >= 0 {
            r matches Err(e) && e.0 == 409 && ipost == ipre && mpost == mpre
        } else {
            &&& ipost.len() == ipre.len()
            &&& forall|j: int|
                0 <= j < ipre.len() && j != invite_idx(ipre, code) ==> ipost[j] == ipre[j]
            &&& ipost[invite_idx(ipre, code)].code == inv.code
            &&& ipost[invite_idx(ipre, code)].use_count as int == (if inv.use_count
                < i32::MAX {
                inv.use_count + 1
            } else {
                inv.use_count as int
            })
            &&& exists|m: Member|
                #![auto]
                m.server_id@ == inv.server_id@ && m.user_id@ == uid && m.username@ == uname
                    && m.role@ == "member"@ && m.joined_at == now && upsert_at(
                    mpre,
                    mpost,
                    member_idx(mpre, inv.server_id@, uid),
                    m,
                )
            &&& (r is Ok <==> server_idx(servers, inv.server_id@) >= 0)
            &&& (r matches Err(e) ==> e.0 == 404)
            &&& (r matches Ok(sw) ==> sw.server == servers[server_idx(
                servers,
                inv.server_id@,
            )])
        }
    }
}

/// Redeems an invite at time `now`: the invite is re-validated at
/// redemption time, the caller must not already be a member, the use
/// counter is bumped, and the membership row is written. The counter bump
/// and the expiry check are deliberately not atomic with each other: a
/// concurrent redemption may benignly over-count, which is accepted.
pub fn join_by_code_at(
    invites: &mut InviteTable,
    members: &mut MemberTable,
    servers: &ServerTable,
    channels: &ChannelTable,
    code: &String,
    user_id: &String,
    username: &String,
    now: i64,
) -> (r: Result<ServerWithChannels, (u16, String)>)
    requires
        old(invites).wf(),
        old(members).wf(),
    ensures
        final(invites).wf(),
        final(members).wf(),
        join_by_code_post(
            old(invites).invites@,
            final(invites).invites@,
            old(members).members@,
            final(members).members@,
            servers.servers@,
            code@,
            user_id@,
            username@,
            r,
            now,
        ),
        invite_idx(old(invites).invites@, code@) == -1 ==> (r matches Err(e) && e.0 == 404
            && final(invites).invites@ == old(invites).invites@ && final(members).members@ == old(
            members,
        ).members@),
        invite_idx(old(invites).invites@, code@) >= 0 && !invite_usable(
            old(invites).invites@[invite_idx(old(invites).invites@, code@)],
            now,
        ) ==> (r matches Err(e) && e.0 == 410 && final(invites).invites@ == old(invites).invites@
            && final(members).members@ == old(members).members@),
        invite_idx(old(invites).invites@, code@) >= 0 && invite_usable(
            old(invites).invites@[invite_idx(old(invites).invites@, code@)],
            now,
        ) ==> {
            let inv = old(invites).invites@[invite_idx(old(invites).invites@, code@)];
            if member_idx(old(members).members@, inv.server_id@, user_id@) >= 0 {
                r matches Err(e) && e.0 == 409 && final(invites).invites@ == old(
                    invites,
                ).invites@ && final(members).members@ == old(members).members@
            } else {
                &&& final(invites).invites@.len() == old(invites).invites@.len()
                &&& forall|j: int|
                    0 <= j < old(invites).invites@.len() && j != invite_idx(
                        old(invites).invites@,
                        code@,
                    ) ==> final(invites).invites@[j] == old(invites).invites@[j]
                &&& final(invites).invites@[invite_idx(old(invites).invites@, code@)].code
                    == inv.code
                &&& final(invites).invites@[invite_idx(
                    old(invites).invites@,
                    code@,
                )].use_count as int == (if inv.use_count < i32::MAX {
                    inv.use_count + 1
                } else {
                    inv.use_count as int
                })
                &&& exists|m: Member|
                    #![auto]
                    m.server_id@ == inv.server_id@ && m.user_id@ == user_id@ && m.username@
                        == username@ && m.role@ == "member"@ && m.joined_at == now && upsert_at(
                        old(members).members@,
                        final(members).members@,
                        member_idx(old(members).members@, inv.server_id@, user_id@),
                        m,
                    )
                &&& (r is Ok <==> server_idx(servers.servers@, inv.server_id@) >= 0)
                &&& (r matches Err(e) ==> e.0 == 404)
                &&& (r matches Ok(sw) ==> sw.server == servers.servers@[server_idx(
                    servers.servers@,
                    inv.server_id@,
                )])
            }
        },
{
    let info = match get_invite_info(invites, members, code, now) {
        Err(e) => {
            return Err(e);
        },
        Ok(i) => i,
    };
    match members.index_of(&info.server_id, user_id) {
        Some(_) => {
            return Err((409, String::from_str("You are already a member of this server")));
        },
        None => {},
    }
    proof {
        lemma_find_by(invites.invites@, invite_key_is(code@));
    }
    invites.increment_use(code);
    let member_role = String::from_str("member");
    let added = add_member(members, &info.server_id, user_id, username, &member_role, now);
    proof {
        let pm = members.members@;
        assert(crate::servers::member_key_is(info.server_id@, user_id@)(added));
        lemma_find_by(pm, crate::servers::member_key_is(info.server_id@, user_id@));
        if member_idx(pm, info.server_id@, user_id@) == -1 {
            assert(pm[pm.len() - 1] == added);
            assert(!crate::servers::member_key_is(info.server_id@, user_id@)(
                pm[pm.len() - 1],
            ));
        }
        assert(member_idx(pm, info.server_id@, user_id@) >= 0);
        lemma_find_by(servers.servers@, crate::servers::server_key_is(info.server_id@));
    }
    get_server(servers, channels, members, &info.server_id, user_id)
}

/// Redeems an invite at the current wall-clock time.
pub fn join_by_code(
    invites: &mut InviteTable,
    members: &mut MemberTable,
    servers: &ServerTable,
    channels: &ChannelTable,
    code: &String,
    user_id: &String,
    username: &String,
) -> (r: Result<ServerWithChannels, (u16, String)>)
    requires
        old(invites).wf(),
        old(members).wf(),
    ensures
        final(invites).wf(),
        final(members).wf(),
        invite_idx(old(invites).invites@, code@) == -1 ==> (r matches Err(e) && e.0 == 404
            && final(invites).invites@ == old(invites).invites@ && final(members).members@ == old(
            members,
        ).members@),
        exists|t: i64|
            #[trigger] join_by_code_post(
                old(invites).invites@,
                final(invites).invites@,
                old(members).members@,
                final(members).members@,
                servers.servers@,
                code@,
                user_id@,
                username@,
                r,
                t,
            ),
        ({
            let k = invite_idx(old(invites).invites@, code@);
            &&& k >= 0
            &&& old(invites).invites@[k].expires_at is None
            &&& (old(invites).invites@[k].max_uses matches Some(mx) ==> old(
                invites,
            ).invites@[k].use_count < mx)
            &&& member_idx(
                old(members).members@,
                old(invites).invites@[k].server_id@,
                user_id@,
            ) == -1
            &&& server_idx(servers.servers@, old(invites).invites@[k].server_id@) >= 0
        }) ==> r is Ok,
        r matches Ok(sw) ==> server_idx(servers.servers@, sw.server.id@) >= 0,
{
    let now = crate::shims::now_seconds();
    let r = join_by_code_at(invites, members, servers, channels, code, user_id, username, now);
    proof {
        assert(join_by_code_post(
            old(invites).invites@,
            invites.invites@,
            old(members).members@,
            members.members@,
            servers.servers@,
            code@,
            user_id@,
            username@,
            r,
            now,
        ));
        lemma_find_by(old(invites).invites@, invite_key_is(code@));
        let k = invite_idx(old(invites).invites@, code@);
        if k >= 0 {
            let inv = old(invites).invites@[k];
            if inv.expires_at is None && (inv.max_uses matches Some(mx) ==> inv.use_count < mx)
                && member_idx(old(members).members@, inv.server_id@, user_id@) == -1
                && server_idx(servers.servers@, inv.server_id@) >= 0 {
                assert(invite_usable(inv, now));
                assert(r is Ok);
            }
        }
        if r is Ok {
            assert(k >= 0);
            let inv = old(invites).invites@[k];
            assert(invite_usable(inv, now));
            lemma_find_by(
                old(members).members@,
                crate::servers::member_key_is(inv.server_id@, user_id@),
            );
            assert(member_idx(old(members).members@, inv.server_id@, user_id@) == -1);
            let si = server_idx(servers.servers@, inv.server_id@);
            assert(si >= 0);
            lemma_find_by(servers.servers@, crate::servers::server_key_is(inv.server_id@));
            assert(servers.servers@[si].id@ == inv.server_id@);
        }
    }
    r
}

/// Deletes an invite: owners and admins only, and only through the server
/// the invite belongs to — an invite of another server is reported
/// `NotFound`, indistinguishable from an absent code.
pub fn delete_invite(
    invites: &mut InviteTable,
    members: &MemberTable,
    server_id: &String,
    code: &String,
    user_id: &String,
) -> (r: Result<(), (u16, String)>)
    requires
        old(invites).wf(),
    ensures
        final(invites).wf(),
        member_idx(members.members@, server_id@, user_id@) == -1 ==> (r matches Err(e) && e.0
            == 403 && final(invites).invites@ == old(invites).invites@),
        member_idx(members.members@, server_id@, user_id@) >= 0 && !is_admin_role(
            members.members@[member_idx(members.members@, server_id@, user_id@)].role@,
        ) ==> (r matches Err(e) && e.0 == 403 && final(invites).invites@ == old(
            invites,
        ).invites@),
        member_idx(members.members@, server_id@, user_id@) >= 0 && is_admin_role(
            members.members@[member_idx(members.members@, server_id@, user_id@)].role@,
        ) ==> {
            let k = invite_idx(old(invites).invites@, code@);
            if k == -1 || old(invites).invites@[k].server_id@ != server_id@ {
                r matches Err(e) && e.0 == 404 && final(invites).invites@ == old(
                    invites,
                ).invites@
            } else {
                r is Ok && final(invites).invites@ == old(invites).invites@.remove(k)
            }
        },
{
    let role = match members.get_member_role(server_id, user_id) {
        Some(role) => role,
        None => {
            return Err((403, String::from_str("You are not a member of this server")));
        },
    };
    if !(crate::text::str_eq(role.as_str(), "owner") || crate::text::str_eq(
        role.as_str(),
        "admin",
    )) {
        return Err((403, String::from_str("Only owners and admins can delete invites")));
    }
    let k = match invites.index_of(code) {
        None => {
            return Err((404, String::from_str("Invite not found")));
        },
        Some(k) => k,
    };
    if !(invites.invites[k].server_id == *server_id) {
        return Err((404, String::from_str("Invite not found")));
    }
    invites.remove_at(k);
    Ok(())
}

/// The invites of one server that have not expired by `now`, in table
/// order. Used-up invites are kept: only expiry filters the listing.
pub open spec fn live_invites(s: Seq<Invite>, sid: Seq<char>, now: i64) -> Seq<Invite>
    decreases s.len(),
{
    if s.len() == 0 {
        Seq::empty()
    } else {
        let head = live_invites(s.drop_last(), sid, now);
        if s.last().server_id@ == sid && (match s.last().expires_at {
            Some(e) => e >= now,
            None => true,
        }) {
            head.push(s.last())
        } else {
            head
        }
    }
}

/// The unexpired invites of a server, newest first: owners and admins
/// only. The order of invites created in the same second is unspecified.
pub fn list_invites(
    invites: &InviteTable,
    members: &MemberTable,
    server_id: &String,
    user_id: &String,
    now: i64,
) -> (r: Result<Vec<Invite>, (u16, String)>)
    ensures
        member_idx(members.members@, server_id@, user_id@) == -1 ==> (r matches Err(e) && e.0
            == 403),
        member_idx(members.members@, server_id@, user_id@) >= 0 && !is_admin_role(
            members.members@[member_idx(members.members@, server_id@, user_id@)].role@,
        ) ==> (r matches Err(e) && e.0 == 403),
        member_idx(members.members@, server_id@, user_id@) >= 0 && is_admin_role(
            members.members@[member_idx(members.members@, server_id@, user_id@)].role@,
        ) ==> (r matches Ok(v) && v@.to_multiset() == live_invites(
            invites.invites@,
            server_id@,
            now,
        ).to_multiset() && (forall|a: int, b: int|
            0 <= a < b < v@.len() ==> v@[a].created_at >= v@[b].created_at)),
{
    broadcast use vstd::seq_lib::group_to_multiset_ensures;

    let role = match members.get_member_role(server_id, user_id) {
        Some(role) => role,
        None => {
            return Err((403, String::from_str("You are not a member of this server")));
        },
    };
    if !(crate::text::str_eq(role.as_str(), "owner") || crate::text::str_eq(
        role.as_str(),
        "admin",
    )) {
        return Err((403, String::from_str("Only owners and admins can view invites")));
    }
    let mut live: Vec<Invite> = Vec::new();
    let n = invites.invites.len();
    let mut i: usize = 0;
    proof {
        assert(invites.invites@.subrange(0, 0) =~= Seq::<Invite>::empty());
    }
    while i < n
        invariant
            i <= n,
            n == invites.invites@.len(),
            live@ == live_invites(invites.invites@.subrange(0, i as int), server_id@, now),
        decreases n - i,
    {
        let ghost s_pre = invites.invites@.subrange(0, i as int);
        let ghost s_post = invites.invites@.subrange(0, i + 1);
        let inv = &invites.invites[i];
        let keep = inv.server_id == *server_id && (match inv.expires_at {
            Some(e) => e >= now,
            None => true,
        });
        if keep {
            live.push(inv.duplicate());
        }
        proof {
            assert(s_post.drop_last() =~= s_pre);
            assert(s_post.last() == invites.invites@[i as int]);
        }
        i = i + 1;
    }
    proof {
        assert(invites.invites@.subrange(0, n as int) =~= invites.invites@);
    }
    let ghost all = live@;
    let mut out: Vec<Invite> = Vec::new();
    proof {
        assert(out@.to_multiset().add(live@.to_multiset()) =~= all.to_multiset());
    }
    while live.len() > 0
        invariant
            out@.to_multiset().add(live@.to_multiset()) == all.to_multiset(),
            forall|a: int, b: int| 0 <= a < b < out@.len() ==> out@[a].created_at
                >= out@[b].created_at,
            forall|a: int, b: int|
                0 <= a < out@.len() && 0 <= b < live@.len() ==> out@[a].created_at
                    >= live@[b].created_at,
        decreases live@.len(),
    {
        let mut im: usize = 0;
        let mut j: usize = 1;
        while j < live.len()
            invariant
                im < j || (j == 1 && im == 0),
                im < live@.len(),
                j <= live@.len(),
                forall|a: int| 0 <= a < j ==> live@[a].created_at <= live@[im as int].created_at,
            decreases live@.len() - j,
        {
            if live[j].created_at > live[im].created_at {
                im = j;
            }
            j = j + 1;
        }
        let ghost live_pre = live@;
        let ghost out_pre = out@;
        let m = live.remove(im);
        out.push(m);
        proof {
            live_pre.to_multiset_ensures();
            out_pre.to_multiset_ensures();
            assert(live@ == live_pre.remove(im as int));
            assert(live_pre.remove(im as int).to_multiset() =~= live_pre.to_multiset().remove(
                live_pre[im as int],
            ));
            assert(live_pre.to_multiset().contains(live_pre[im as int]));
            assert(out@.to_multiset().add(live@.to_multiset()) =~= all.to_multiset());
            assert forall|b: int| 0 <= b < live@.len() implies m.created_at
                >= live@[b].created_at by {
                if b < im {
                    assert(live@[b] == live_pre[b]);
                } else {
                    assert(live@[b] == live_pre[b + 1]);
                }
            }
        }
    }
    Ok(out)
}


/// A join password of a server: only its argon2 hash is stored.
#[derive(Debug)]
pub struct ServerPassword {
    pub id: String,
    pub server_id: String,
    pub password_hash: String,
    pub created_by: String,
    pub created_at: i64,
    pub expires_at: Option<i64>,
}

impl ServerPassword {
    /// A field-for-field copy with its contents pinned down.
    pub fn duplicate(&self) -> (r: ServerPassword)
        ensures
            r == *self,
    {
        ServerPassword {
            id: self.id.clone(),
            server_id: self.server_id.clone(),
            password_hash: self.password_hash.clone(),
            created_by: self.created_by.clone(),
            created_at: self.created_at,
            expires_at: self.expires_at,
        }
    }
}

#[derive(Debug)]
pub struct CreatePasswordRequest {
    pub password: String,
    pub expires_in_hours: Option<i32>,
}

#[derive(Debug)]
pub struct JoinByNameRequest {
    pub server_name: String,
    pub password: String,
}

pub open spec fn password_key() -> spec_fn(ServerPassword) -> Seq<char> {
    |p: ServerPassword| p.id@
}

pub open spec fn password_key_is(id: Seq<char>) -> spec_fn(ServerPassword) -> bool {
    |p: ServerPassword| p.id@ == id
}

pub open spec fn password_idx(s: Seq<ServerPassword>, id: Seq<char>) -> int {
    find_by(s, password_key_is(id))
}

/// Whether a password row is still live at `now`.
pub open spec fn password_live(p: ServerPassword, now: i64) -> bool {
    match p.expires_at {
        Some(e) => e >= now,
        None => true,
    }
}

/// Whether some live password row of the server verifies `pw` under
/// argon2.
pub open spec fn some_password_matches(
    s: Seq<ServerPassword>,
    sid: Seq<char>,
    pw: Seq<char>,
    now: i64,
) -> bool {
    exists|i: int|
        0 <= i < s.len() && (#[trigger] s[i]).server_id@ == sid && password_live(s[i], now)
            && crate::auth::argon2_matches(pw, s[i].password_hash@)
}

/// The server-passwords table, keyed by row id.
pub struct PasswordTable {
    pub passwords: Vec<ServerPassword>,
}

impl PasswordTable {
    pub open spec fn wf(self) -> bool {
        unique_by(self.passwords@, password_key())
    }

    pub fn new() -> (r: PasswordTable)
        ensures
            r.wf(),
            r.passwords@.len() == 0,
    {
        PasswordTable { passwords: Vec::new() }
    }

    pub fn index_of(&self, id: &String) -> (r: Option<usize>)
        ensures
            match r {
                Some(k) => k < self.passwords@.len() && password_idx(self.passwords@, id@)
                    == k as int,
                None => password_idx(self.passwords@, id@) == -1,
            },
    {
        let n = self.passwords.len();
        let mut i: usize = 0;
        while i < n
            invariant
                i <= n,
                n == self.passwords@.len(),
                forall|j: int| 0 <= j < i ==> self.passwords@[j].id@ != id@,
            decreases n - i,
        {
            if self.passwords[i].id == *id {
                proof {
                    assert(password_key_is(id@)(self.passwords@[i as int]));
                    assert forall|j: int| 0 <= j < i implies !#[trigger] password_key_is(id@)(
                        self.passwords@[j],
                    ) by {}
                    lemma_find_by_first(self.passwords@, password_key_is(id@), i as int);
                }
                return Some(i);
            }
            i = i + 1;
        }
        proof {
            assert forall|j: int|
                0 <= j < self.passwords@.len() implies !#[trigger] password_key_is(id@)(
                self.passwords@[j],
            ) by {}
            lemma_find_by_none(self.passwords@, password_key_is(id@));
        }
        None
    }

    /// Replaces the row under this id, or appends it.
    pub fn upsert(&mut self, row: ServerPassword)
        requires
            old(self).wf(),
        ensures
            final(self).wf(),
            upsert_at(
                old(self).passwords@,
                final(self).passwords@,
                password_idx(old(self).passwords@, row.id@),
                row,
            ),
    {
        let ghost pre = self.passwords@;
        match self.index_of(&row.id) {
            Some(k) => {
                proof {
                    lemma_find_by(pre, password_key_is(row.id@));
                    assert(password_key()(row) == password_key()(pre[k as int]));
                    crate::table::lemma_unique_by_update(pre, password_key(), k as int, row);
                }
                self.passwords.set(k, row);
            },
            None => {
                proof {
                    lemma_find_by(pre, password_key_is(row.id@));
                    assert forall|i: int| 0 <= i < pre.len() implies #[trigger] password_key()(
                        pre[i],
                    ) != password_key()(row) by {
                        assert(!password_key_is(row.id@)(pre[i]));
                    }
                    crate::table::lemma_unique_by_push(pre, password_key(), row);
                }
                self.passwords.push(row);
            },
        }
    }

    /// Deletes the row at `k`.
    pub fn remove_at(&mut self, k: usize)
        requires
            old(self).wf(),
            k < old(self).passwords@.len(),
        ensures
            final(self).wf(),
            final(self).passwords@ == old(self).passwords@.remove(k as int),
    {
        proof {
            crate::table::lemma_unique_by_remove(self.passwords@, password_key(), k as int);
        }
        self.passwords.remove(k);
    }
}


/// The time-stamped fields of a freshly created password row.
pub open spec fn password_stamp(sp: ServerPassword, req: CreatePasswordRequest, now: i64) -> bool {
    &&& sp.created_at == now
    &&& sp.expires_at == (match req.expires_in_hours {
        Some(h) => Some((now + h as i64 * 3600) as i64),
        None => None,
    })
}

/// Creates a join password at time `now` under the given fresh id: server
/// owners only, at least four characters. The argon2 hash depends on a
/// random salt, so nothing is stated of the stored hash itself beyond
/// what later verification reports; hashing may also fail, surfaced as an
/// internal error with nothing written.
pub fn create_server_password_at(
    passwords: &mut PasswordTable,
    members: &MemberTable,
    server_id: &String,
    user_id: &String,
    req: &CreatePasswordRequest,
    id: String,
    now: i64,
) -> (r: Result<ServerPassword, (u16, String)>)
    requires
        old(passwords).wf(),
        0 <= now <= 8_000_000_000_000_000_000i64,
    ensures
        final(passwords).wf(),
        member_idx(members.members@, server_id@, user_id@) == -1 ==> (r matches Err(e) && e.0
            == 403 && final(passwords).passwords@ == old(passwords).passwords@),
        member_idx(members.members@, server_id@, user_id@) >= 0 && members.members@[member_idx(
            members.members@,
            server_id@,
            user_id@,
        )].role@ != "owner"@ ==> (r matches Err(e) && e.0 == 403 && final(passwords).passwords@
            == old(passwords).passwords@),
        req.password@.len() < 4 && member_idx(members.members@, server_id@, user_id@) >= 0
            && members.members@[member_idx(members.members@, server_id@, user_id@)].role@
            == "owner"@ ==> (r matches Err(e) && e.0 == 400 && final(passwords).passwords@ == old(
            passwords,
        ).passwords@),
        r matches Err(e) ==> final(passwords).passwords@ == old(passwords).passwords@ && (e.0
            == 403 || e.0 == 400 || e.0 == 500),
        r matches Ok(sp) ==> {
            &&& sp.id@ == id@
            &&& sp.server_id@ == server_id@
            &&& sp.created_by@ == user_id@
            &&& crate::auth::argon2_matches(req.password@, sp.password_hash@)
            &&& sp.created_at == now
            &&& sp.expires_at == (match req.expires_in_hours {
                Some(h) => Some((now + h as i64 * 3600) as i64),
                None => None,
            })
            &&& upsert_at(
                old(passwords).passwords@,
                final(passwords).passwords@,
                password_idx(old(passwords).passwords@, id@),
                sp,
            )
        },
{
    let role = match members.get_member_role(server_id, user_id) {
        Some(role) => role,
        None => {
            return Err((403, String::from_str("You are not a member of this server")));
        },
    };
    if !crate::text::str_eq(role.as_str(), "owner") {
        return Err((403, String::from_str("Only the server owner can create passwords")));
    }
    if req.password.as_str().unicode_len() < 4 {
        return Err((400, String::from_str("Password must be at least 4 characters")));
    }
    let password_hash = match crate::auth::hash_password(req.password.as_str()) {
        Ok(h) => h,
        Err(_) => {
            return Err((500, String::from_str("Failed to hash password")));
        },
    };
    let expires_at: Option<i64> = match req.expires_in_hours {
        Some(h) => Some(now + (h as i64) * 3600),
        None => None,
    };
    let row = ServerPassword {
        id,
        server_id: server_id.clone(),
        password_hash,
        created_by: user_id.clone(),
        created_at: now,
        expires_at,
    };
    let result = row.duplicate();
    passwords.upsert(row);
    Ok(result)
}

/// Creates a join password with a fresh random id at the current
/// wall-clock time, clamped to the representable range.
pub fn create_server_password(
    passwords: &mut PasswordTable,
    members: &MemberTable,
    server_id: &String,
    user_id: &String,
    req: &CreatePasswordRequest,
) -> (r: Result<ServerPassword, (u16, String)>)
    requires
        old(passwords).wf(),
    ensures
        final(passwords).wf(),
        member_idx(members.members@, server_id@, user_id@) == -1 ==> (r matches Err(e) && e.0
            == 403 && final(passwords).passwords@ == old(passwords).passwords@),
        member_idx(members.members@, server_id@, user_id@) >= 0 && members.members@[member_idx(
            members.members@,
            server_id@,
            user_id@,
        )].role@ != "owner"@ ==> (r matches Err(e) && e.0 == 403 && final(passwords).passwords@
            == old(passwords).passwords@),
        req.password@.len() < 4 && member_idx(members.members@, server_id@, user_id@) >= 0
            && members.members@[member_idx(members.members@, server_id@, user_id@)].role@
            == "owner"@ ==> (r matches Err(e) && e.0 == 400 && final(passwords).passwords@ == old(
            passwords,
        ).passwords@),
        r matches Err(e) ==> final(passwords).passwords@ == old(passwords).passwords@ && (e.0
            == 403 || e.0 == 400 || e.0 == 500),
        r matches Ok(sp) ==> sp.id@.len() == 36 && sp.server_id@ == server_id@
            && sp.created_by@ == user_id@ && crate::auth::argon2_matches(
            req.password@,
            sp.password_hash@,
        ) && upsert_at(
            old(passwords).passwords@,
            final(passwords).passwords@,
            password_idx(old(passwords).passwords@, sp.id@),
            sp,
        ) && exists|t: i64|
            0 <= t <= 8_000_000_000_000_000_000i64 && sp.created_at == t && (#[trigger] password_stamp(
                sp,
                *req,
                t,
            )),
{
    let id = crate::shims::new_uuid();
    let raw_now = crate::shims::now_seconds();
    let now: i64 = if raw_now < 0 {
        0
    } else if raw_now > 8_000_000_000_000_000_000i64 {
        8_000_000_000_000_000_000i64
    } else {
        raw_now
    };
    let r = create_server_password_at(passwords, members, server_id, user_id, req, id, now);
    proof {
        if r is Ok {
            assert(r matches Ok(sp) ==> password_stamp(sp, *req, now));
        }
    }
    r
}

/// The live password rows of one server, in table order.
pub open spec fn live_passwords(s: Seq<ServerPassword>, sid: Seq<char>, now: i64) -> Seq<
    ServerPassword,
>
    decreases s.len(),
{
    if s.len() == 0 {
        Seq::empty()
    } else {
        let head = live_passwords(s.drop_last(), sid, now);
        if s.last().server_id@ == sid && password_live(s.last(), now) {
            head.push(s.last())
        } else {
            head
        }
    }
}

/// The unexpired password rows of a server, newest first: owners only.
pub fn list_server_passwords(
    passwords: &PasswordTable,
    members: &MemberTable,
    server_id: &String,
    user_id: &String,
    now: i64,
) -> (r: Result<Vec<ServerPassword>, (u16, String)>)
    ensures
        member_idx(members.members@, server_id@, user_id@) == -1 ==> (r matches Err(e) && e.0
            == 403),
        member_idx(members.members@, server_id@, user_id@) >= 0 && members.members@[member_idx(
            members.members@,
            server_id@,
            user_id@,
        )].role@ != "owner"@ ==> (r matches Err(e) && e.0 == 403),
        member_idx(members.members@, server_id@, user_id@) >= 0 && members.members@[member_idx(
            members.members@,
            server_id@,
            user_id@,
        )].role@ == "owner"@ ==> (r matches Ok(v) && v@.to_multiset() == live_passwords(
            passwords.passwords@,
            server_id@,
            now,
        ).to_multiset() && (forall|a: int, b: int|
            0 <= a < b < v@.len() ==> v@[a].created_at >= v@[b].created_at)),
{
    broadcast use vstd::seq_lib::group_to_multiset_ensures;

    let role = match members.get_member_role(server_id, user_id) {
        Some(role) => role,
        None => {
            return Err((403, String::from_str("You are not a member of this server")));
        },
    };
    if !crate::text::str_eq(role.as_str(), "owner") {
        return Err((403, String::from_str("Only the server owner can view passwords")));
    }
    let mut live: Vec<ServerPassword> = Vec::new();
    let n = passwords.passwords.len();
    let mut i: usize = 0;
    proof {
        assert(passwords.passwords@.subrange(0, 0) =~= Seq::<ServerPassword>::empty());
    }
    while i < n
        invariant
            i <= n,
            n == passwords.passwords@.len(),
            live@ == live_passwords(
                passwords.passwords@.subrange(0, i as int),
                server_id@,
                now,
            ),
        decreases n - i,
    {
        let ghost s_pre = passwords.passwords@.subrange(0, i as int);
        let ghost s_post = passwords.passwords@.subrange(0, i + 1);
        let p = &passwords.passwords[i];
        let keep = p.server_id == *server_id && (match p.expires_at {
            Some(e) => e >= now,
            None => true,
        });
        if keep {
            live.push(p.duplicate());
        }
        proof {
            assert(s_post.drop_last() =~= s_pre);
            assert(s_post.last() == passwords.passwords@[i as int]);
        }
        i = i + 1;
    }
    proof {
        assert(passwords.passwords@.subrange(0, n as int) =~= passwords.passwords@);
    }
    let ghost all = live@;
    let mut out: Vec<ServerPassword> = Vec::new();
    proof {
        assert(out@.to_multiset().add(live@.to_multiset()) =~= all.to_multiset());
    }
    while live.len() > 0
        invariant
            out@.to_multiset().add(live@.to_multiset()) == all.to_multiset(),
            forall|a: int, b: int| 0 <= a < b < out@.len() ==> out@[a].created_at
                >= out@[b].created_at,
            forall|a: int, b: int|
                0 <= a < out@.len() && 0 <= b < live@.len() ==> out@[a].created_at
                    >= live@[b].created_at,
        decreases live@.len(),
    {
        let mut im: usize = 0;
        let mut j: usize = 1;
        while j < live.len()
            invariant
                im < j || (j == 1 && im == 0),
                im < live@.len(),
                j <= live@.len(),
                forall|a: int| 0 <= a < j ==> live@[a].created_at <= live@[im as int].created_at,
            decreases live@.len() - j,
        {
            if live[j].created_at > live[im].created_at {
                im = j;
            }
            j = j + 1;
        }
        let ghost live_pre = live@;
        let ghost out_pre = out@;
        let m = live.remove(im);
        out.push(m);
        proof {
            live_pre.to_multiset_ensures();
            out_pre.to_multiset_ensures();
            assert(live@ == live_pre.remove(im as int));
            assert(live_pre.remove(im as int).to_multiset() =~= live_pre.to_multiset().remove(
                live_pre[im as int],
            ));
            assert(live_pre.to_multiset().contains(live_pre[im as int]));
            assert(out@.to_multiset().add(live@.to_multiset()) =~= all.to_multiset());
            assert forall|b: int| 0 <= b < live@.len() implies m.created_at
                >= live@[b].created_at by {
                if b < im {
                    assert(live@[b] == live_pre[b]);
                } else {
                    assert(live@[b] == live_pre[b + 1]);
                }
            }
        }
    }
    Ok(out)
}

/// Deletes a join password: owners only, and only through the server the
/// password belongs to.
pub fn delete_server_password(
    passwords: &mut PasswordTable,
    members: &MemberTable,
    server_id: &String,
    password_id: &String,
    user_id: &String,
) -> (r: Result<(), (u16, String)>)
    requires
        old(passwords).wf(),
    ensures
        final(passwords).wf(),
        member_idx(members.members@, server_id@, user_id@) == -1 ==> (r matches Err(e) && e.0
            == 403 && final(passwords).passwords@ == old(passwords).passwords@),
        member_idx(members.members@, server_id@, user_id@) >= 0 && members.members@[member_idx(
            members.members@,
            server_id@,
            user_id@,
        )].role@ != "owner"@ ==> (r matches Err(e) && e.0 == 403 && final(passwords).passwords@
            == old(passwords).passwords@),
        member_idx(members.members@, server_id@, user_id@) >= 0 && members.members@[member_idx(
            members.members@,
            server_id@,
            user_id@,
        )].role@ == "owner"@ ==> {
            let k = password_idx(old(passwords).passwords@, password_id@);
            if k == -1 || old(passwords).passwords@[k].server_id@ != server_id@ {
                r matches Err(e) && e.0 == 404 && final(passwords).passwords@ == old(
                    passwords,
                ).passwords@
            } else {
                r is Ok && final(passwords).passwords@ == old(passwords).passwords@.remove(k)
            }
        },
{
    let role = match members.get_member_role(server_id, user_id) {
        Some(role) => role,
        None => {
            return Err((403, String::from_str("You are not a member of this server")));
        },
    };
    if !crate::text::str_eq(role.as_str(), "owner") {
        return Err((403, String::from_str("Only the server owner can delete passwords")));
    }
    let k = match passwords.index_of(password_id) {
        None => {
            return Err((404, String::from_str("Password not found")));
        },
        Some(k) => k,
    };
    if !(passwords.passwords[k].server_id == *server_id) {
        return Err((404, String::from_str("Password not found")));
    }
    passwords.remove_at(k);
    Ok(())
}

/// Whether some never-expiring password row of the server verifies `pw`:
/// a match that no clock reading can invalidate.
pub open spec fn some_permanent_password_matches(
    s: Seq<ServerPassword>,
    sid: Seq<char>,
    pw: Seq<char>,
) -> bool {
    exists|i: int|
        0 <= i < s.len() && (#[trigger] s[i]).server_id@ == sid && s[i].expires_at is None
            && crate::auth::argon2_matches(pw, s[i].password_hash@)
}

/// The whole outcome of a password join at time `now`: what
/// `join_by_name_at` guarantees, and what the wall-clock `join_by_name`
/// guarantees at some instant.
pub open spec fn join_by_name_post(
    servers: Seq<crate::servers::Server>,
    pws: Seq<ServerPassword>,
    mpre: Seq<Member>,
    mpost: Seq<Member>,
    req: JoinByNameRequest,
    uid: Seq<char>,
    uname: Seq<char>,
    r: Result<ServerWithChannels, (u16, String)>,
    now: i64,
) -> bool {
    &&& find_by(servers, crate::servers::server_name_is(req.server_name@)) == -1 ==> (
    r matches Err(e) && e.0 == 401 && mpost == mpre)
    &&& find_by(servers, crate::servers::server_name_is(req.server_name@)) >= 0 ==> {
        let srow = servers[find_by(servers, crate::servers::server_name_is(req.server_name@))];
        if member_idx(mpre, srow.id@, uid) >= 0 {
            r matches Err(e) && e.0 == 409 && mpost == mpre
        } else if !some_password_matches(pws, srow.id@, req.password@, now) {
            r matches Err(e) && e.0 == 401 && mpost == mpre
        } else {
            &&& exists|m: Member|
                #![auto]
                m.server_id@ == srow.id@ && m.user_id@ == uid && m.username@ == uname
                    && m.role@ == "member"@ && m.joined_at == now && upsert_at(
                    mpre,
                    mpost,
                    member_idx(mpre, srow.id@, uid),
                    m,
                )
            &&& r is Ok
            &&& (r matches Ok(sw) ==> sw.server.id@ == srow.id@)
        }
    }
}

/// Joins a server by name and password at time `now`: the server is
/// looked up by name, the caller must not already be a member, and the
/// password must verify under argon2 against some live password row of
/// the server. A wrong name and a wrong password are deliberately
/// indistinguishable.
pub fn join_by_name_at(
    servers: &ServerTable,
    passwords: &PasswordTable,
    members: &mut MemberTable,
    channels: &ChannelTable,
    req: &JoinByNameRequest,
    user_id: &String,
    username: &String,
    now: i64,
) -> (r: Result<ServerWithChannels, (u16, String)>)
    requires
        old(members).wf(),
    ensures
        final(members).wf(),
        join_by_name_post(
            servers.servers@,
            passwords.passwords@,
            old(members).members@,
            final(members).members@,
            *req,
            user_id@,
            username@,
            r,
            now,
        ),
        r matches Err(e) ==> (e.0 == 401 ==> e.1@ == "Invalid server name or password"@),
        find_by(servers.servers@, crate::servers::server_name_is(req.server_name@)) == -1 ==> (
        r matches Err(e) && e.0 == 401 && final(members).members@ == old(members).members@),
        find_by(servers.servers@, crate::servers::server_name_is(req.server_name@)) >= 0 ==> {
            let srow = servers.servers@[find_by(
                servers.servers@,
                crate::servers::server_name_is(req.server_name@),
            )];
            if member_idx(old(members).members@, srow.id@, user_id@) >= 0 {
                r matches Err(e) && e.0 == 409 && final(members).members@ == old(
                    members,
                ).members@
            } else if !some_password_matches(
                passwords.passwords@,
                srow.id@,
                req.password@,
                now,
            ) {
                r matches Err(e) && e.0 == 401 && final(members).members@ == old(
                    members,
                ).members@
            } else {
                &&& exists|m: Member|
                    #![auto]
                    m.server_id@ == srow.id@ && m.user_id@ == user_id@ && m.username@
                        == username@ && m.role@ == "member"@ && m.joined_at == now && upsert_at(
                        old(members).members@,
                        final(members).members@,
                        member_idx(old(members).members@, srow.id@, user_id@),
                        m,
                    )
                &&& r is Ok
                &&& (r matches Ok(sw) ==> sw.server.id@ == srow.id@)
            }
        },
{
    let (server_id, _owner) = match servers.get_server_by_name(&req.server_name) {
        Some(p) => p,
        None => {
            return Err((401, String::from_str("Invalid server name or password")));
        },
    };
    match members.index_of(&server_id, user_id) {
        Some(_) => {
            return Err((409, String::from_str("You are already a member of this server")));
        },
        None => {},
    }
    let n = passwords.passwords.len();
    let mut matched = false;
    let mut i: usize = 0;
    while i < n
        invariant
            i <= n,
            n == passwords.passwords@.len(),
            !matched ==> forall|j: int|
                0 <= j < i ==> !((#[trigger] passwords.passwords@[j]).server_id@ == server_id@
                    && password_live(passwords.passwords@[j], now)
                    && crate::auth::argon2_matches(
                    req.password@,
                    passwords.passwords@[j].password_hash@,
                )),
            matched ==> some_password_matches(
                passwords.passwords@,
                server_id@,
                req.password@,
                now,
            ),
        decreases n - i,
    {
        if !matched {
            let p = &passwords.passwords[i];
            let live = match p.expires_at {
                Some(e) => e >= now,
                None => true,
            };
            if p.server_id == server_id && live {
                if crate::auth::verify_password(req.password.as_str(), p.password_hash.as_str())
                {
                    matched = true;
                }
            }
        }
        i = i + 1;
    }
    if !matched {
        proof {
            if some_password_matches(passwords.passwords@, server_id@, req.password@, now) {
                let j = choose|j: int|
                    0 <= j < passwords.passwords@.len() && (#[trigger] passwords.passwords@[j]).server_id@
                        == server_id@ && password_live(passwords.passwords@[j], now)
                        && crate::auth::argon2_matches(
                        req.password@,
                        passwords.passwords@[j].password_hash@,
                    );
            }
        }
        return Err((401, String::from_str("Invalid server name or password")));
    }
    let member_role = String::from_str("member");
    let added = add_member(members, &server_id, user_id, username, &member_role, now);
    proof {
        let pm = members.members@;
        assert(crate::servers::member_key_is(server_id@, user_id@)(added));
        lemma_find_by(pm, crate::servers::member_key_is(server_id@, user_id@));
        if member_idx(pm, server_id@, user_id@) == -1 {
            assert(pm[pm.len() - 1] == added);
            assert(!crate::servers::member_key_is(server_id@, user_id@)(pm[pm.len() - 1]));
        }
        assert(member_idx(pm, server_id@, user_id@) >= 0);
        lemma_find_by(servers.servers@, crate::servers::server_name_is(req.server_name@));
        let nf = find_by(servers.servers@, crate::servers::server_name_is(req.server_name@));
        assert(crate::servers::server_key_is(server_id@)(servers.servers@[nf]));
        lemma_find_by(servers.servers@, crate::servers::server_key_is(server_id@));
        assert(server_idx(servers.servers@, server_id@) >= 0);
        let si = server_idx(servers.servers@, server_id@);
        assert(servers.servers@[si].id@ == server_id@);
    }
    let r = get_server(servers, channels, members, &server_id, user_id);
    match r {
        Ok(sw) => Ok(sw),
        Err(e) => Err(e),
    }
}

/// Joins a server by name and password at the current wall-clock time.
pub fn join_by_name(
    servers: &ServerTable,
    passwords: &PasswordTable,
    members: &mut MemberTable,
    channels: &ChannelTable,
    req: &JoinByNameRequest,
    user_id: &String,
    username: &String,
) -> (r: Result<ServerWithChannels, (u16, String)>)
    requires
        old(members).wf(),
    ensures
        final(members).wf(),
        find_by(servers.servers@, crate::servers::server_name_is(req.server_name@)) == -1 ==> (
        r matches Err(e) && e.0 == 401 && final(members).members@ == old(members).members@),
        find_by(servers.servers@, crate::servers::server_name_is(req.server_name@)) >= 0
            && member_idx(
            old(members).members@,
            servers.servers@[find_by(
                servers.servers@,
                crate::servers::server_name_is(req.server_name@),
            )].id@,
            user_id@,
        ) >= 0 ==> (r matches Err(e) && e.0 == 409 && final(members).members@ == old(
            members,
        ).members@),
        find_by(servers.servers@, crate::servers::server_name_is(req.server_name@)) >= 0
            && member_idx(
            old(members).members@,
            servers.servers@[find_by(
                servers.servers@,
                crate::servers::server_name_is(req.server_name@),
            )].id@,
            user_id@,
        ) == -1 && some_permanent_password_matches(
            passwords.passwords@,
            servers.servers@[find_by(
                servers.servers@,
                crate::servers::server_name_is(req.server_name@),
            )].id@,
            req.password@,
        ) ==> r is Ok,
        r matches Err(e) ==> (e.0 == 401 ==> e.1@ == "Invalid server name or password"@),
        exists|t: i64|
            #[trigger] join_by_name_post(
                servers.servers@,
                passwords.passwords@,
                old(members).members@,
                final(members).members@,
                *req,
                user_id@,
                username@,
                r,
                t,
            ),
        r is Err ==> final(members).members@ == old(members).members@,
{
    let now = crate::shims::now_seconds();
    let r = join_by_name_at(servers, passwords, members, channels, req, user_id, username, now);
    proof {
        assert(join_by_name_post(
            servers.servers@,
            passwords.passwords@,
            old(members).members@,
            members.members@,
            *req,
            user_id@,
            username@,
            r,
            now,
        ));
        lemma_find_by(servers.servers@, crate::servers::server_name_is(req.server_name@));
        let nf = find_by(servers.servers@, crate::servers::server_name_is(req.server_name@));
        if nf >= 0 {
            let srow = servers.servers@[nf];
            lemma_find_by(
                old(members).members@,
                crate::servers::member_key_is(srow.id@, user_id@),
            );
            if member_idx(old(members).members@, srow.id@, user_id@) == -1
                && some_permanent_password_matches(
                passwords.passwords@,
                srow.id@,
                req.password@,
            ) {
                let i = choose|i: int|
                    0 <= i < passwords.passwords@.len()
                        && (#[trigger] passwords.passwords@[i]).server_id@ == srow.id@
                        && passwords.passwords@[i].expires_at is None
                        && crate::auth::argon2_matches(
                        req.password@,
                        passwords.passwords@[i].password_hash@,
                    );
                assert(password_live(passwords.passwords@[i], now));
                assert(some_password_matches(
                    passwords.passwords@,
                    srow.id@,
                    req.password@,
                    now,
                ));
                assert(r is Ok);
            }
        }
    }
    r
}


} // verus!
