use vstd::prelude::*;
use crate::models::User;
use crate::shims::{lower_of, to_lowercase, trim, trim_of};
use crate::table::{find_by, lemma_find_by, lemma_find_by_first, lemma_find_by_none};
use crate::text::{is_prefix_of, starts_with};

verus! {

/// A user-search hit: just enough to start a conversation.
#[derive(Debug)]
pub struct UserSearchResult {
    pub id: String,
    pub username: String,
}

/// The view a search result exposes: its id and username.
pub open spec fn search_result_view() -> spec_fn(UserSearchResult) -> (Seq<char>, Seq<char>) {
    |u: UserSearchResult| (u.id@, u.username@)
}

/// The lookup predicate for a user id.
pub open spec fn user_key_is(id: Seq<char>) -> spec_fn(User) -> bool {
    |u: User| u.id@ == id
}

pub open spec fn user_idx(s: Seq<User>, id: Seq<char>) -> int {
    find_by(s, user_key_is(id))
}

/// Whether a user is a hit for the (already lowercased) query `q` issued
/// by user `me`: username prefix match, excluding the caller.
pub open spec fn user_matches(u: User, q: Seq<char>, me: Seq<char>) -> bool {
    is_prefix_of(q, u.username@) && u.id@ != me
}

/// The hits for `q`, in table order.
pub open spec fn matching_users(s: Seq<User>, q: Seq<char>, me: Seq<char>) -> Seq<User>
    decreases s.len(),
{
    if s.len() == 0 {
        Seq::empty()
    } else {
        let head = matching_users(s.drop_last(), q, me);
        if user_matches(s.last(), q, me) {
            head.push(s.last())
        } else {
            head
        }
    }
}

/// The users table: one row per account, keyed by id.
pub struct UserTable {
    pub users: Vec<User>,
}

impl UserTable {
    pub open spec fn wf(self) -> bool {
        crate::table::unique_by(self.users@, user_id_key())
    }

    pub fn new() -> (r: UserTable)
        ensures
            r.wf(),
            r.users@.len() == 0,
    {
        UserTable { users: Vec::new() }
    }

    /// Looks a user up by id, handing back its id and username.
    pub fn get_user_by_id(&self, user_id: &String) -> (r: Option<(String, String)>)
        ensures
            match r {
                Some(p) => user_idx(self.users@, user_id@) >= 0 && p.0@ == user_id@ && p.1@
                    == self.users@[user_idx(self.users@, user_id@)].username@,
                None => user_idx(self.users@, user_id@) == -1,
            },
    {
        let n = self.users.len();
        let mut i: usize = 0;
        while i < n
            invariant
                i <= n,
                n == self.users@.len(),
                forall|j: int| 0 <= j < i ==> self.users@[j].id@ != user_id@,
            decreases n - i,
        {
            if self.users[i].id == *user_id {
                proof {
                    assert(user_key_is(user_id@)(self.users@[i as int]));
                    assert forall|j: int| 0 <= j < i implies !#[trigger] user_key_is(user_id@)(
                        self.users@[j],
                    ) by {}
                    lemma_find_by_first(self.users@, user_key_is(user_id@), i as int);
                }
                return Some((self.users[i].id.clone(), self.users[i].username.clone()));
            }
            i = i + 1;
        }
        proof {
            assert forall|j: int|
                0 <= j < self.users@.len() implies !#[trigger] user_key_is(user_id@)(
                self.users@[j],
            ) by {}
            lemma_find_by_none(self.users@, user_key_is(user_id@));
        }
        None
    }

    /// Prefix search over usernames: the query is trimmed and lowercased,
    /// an empty query matches nobody, the caller is excluded, and at most
    /// the first 20 hits (in table order) are returned.
    pub fn search_users(&self, query: &String, current_user_id: &String) -> (r: Vec<
        UserSearchResult,
    >)
        ensures
            trim_of(query@).len() == 0 ==> r@.len() == 0,
            trim_of(query@).len() > 0 ==> r@.map_values(search_result_view()) == hits_view(
                matching_users(self.users@, lower_of(trim_of(query@)), current_user_id@),
            ).take(
                if hits_view(
                    matching_users(self.users@, lower_of(trim_of(query@)), current_user_id@),
                ).len() < 20 {
                    hits_view(
                        matching_users(
                            self.users@,
                            lower_of(trim_of(query@)),
                            current_user_id@,
                        ),
                    ).len() as int
                } else {
                    20
                },
            ),
    {
        let trimmed = String::from_str(trim(query));
        if trimmed.as_str().unicode_len() == 0 {
            return Vec::new();
        }
        let query_lower = to_lowercase(&trimmed);
        let ghost q = lower_of(trim_of(query@));
        let mut out: Vec<UserSearchResult> = Vec::new();
        let n = self.users.len();
        let mut i: usize = 0;
        proof {
            assert(self.users@.subrange(0, 0) =~= Seq::<User>::empty());
            assert(out@.map_values(search_result_view()) =~= Seq::<(
                Seq<char>,
                Seq<char>,
            )>::empty());
            assert(hits_view(matching_users(self.users@.subrange(0, 0), q, current_user_id@))
                =~= Seq::<(Seq<char>, Seq<char>)>::empty());
        }
        while i < n
            invariant
                i <= n,
                n == self.users@.len(),
                q == lower_of(trim_of(query@)),
                query_lower@ == q,
                out@.map_values(search_result_view()) == hits_view(
                    matching_users(self.users@.subrange(0, i as int), q, current_user_id@),
                ),
            decreases n - i,
        {
            let ghost s_pre = self.users@.subrange(0, i as int);
            let ghost s_post = self.users@.subrange(0, i + 1);
            let u = &self.users[i];
            let hit = starts_with(u.username.as_str(), query_lower.as_str()) && !(u.id
                == *current_user_id);
            if hit {
                out.push(UserSearchResult { id: u.id.clone(), username: u.username.clone() });
            }
            proof {
                assert(s_post.drop_last() =~= s_pre);
                assert(s_post.last() == self.users@[i as int]);
                if hit {
                    assert(out@.map_values(search_result_view()) =~= hits_view(
                        matching_users(s_pre, q, current_user_id@),
                    ).push((self.users@[i as int].id@, self.users@[i as int].username@)));
                    assert(hits_view(matching_users(s_post, q, current_user_id@)) =~= hits_view(
                        matching_users(s_pre, q, current_user_id@),
                    ).push((self.users@[i as int].id@, self.users@[i as int].username@)));
                } else {
                    assert(hits_view(matching_users(s_post, q, current_user_id@)) == hits_view(
                        matching_users(s_pre, q, current_user_id@),
                    ));
                }
            }
            i = i + 1;
        }
        out.truncate(20);
        proof {
            assert(self.users@.subrange(0, n as int) =~= self.users@);
            let hv = hits_view(matching_users(self.users@, q, current_user_id@));
            let cap: int = if hv.len() < 20 {
                hv.len() as int
            } else {
                20
            };
            assert(out@.map_values(search_result_view()) =~= hv.take(cap));
        }
        out
    }
}

/// The user table's key function: a row's id.
pub open spec fn user_id_key() -> spec_fn(User) -> Seq<char> {
    |u: User| u.id@
}

/// The (id, username) views of a run of user rows.
pub open spec fn hits_view(s: Seq<User>) -> Seq<(Seq<char>, Seq<char>)> {
    s.map_values(|u: User| (u.id@, u.username@))
}

} // verus!
