use vstd::prelude::*;

verus! {

/// A registered account as the store keeps it. The password hash never
/// leaves the backend.
#[derive(Debug)]
pub struct User {
    pub id: String,
    pub username: String,
    pub email: String,
    pub password_hash: String,
    pub avatar_url: Option<String>,
    pub created_at: i64,
}

/// A community, owned by the user who created it.
#[derive(Debug)]
pub struct Server {
    pub id: String,
    pub name: String,
    pub owner_id: String,
    pub icon_url: Option<String>,
    pub created_at: i64,
}

#[derive(PartialEq, Eq, Structural, Clone, Copy, Debug)]
pub enum ChannelType {
    Text,
    Voice,
}

/// A channel inside a server.
#[derive(Debug)]
pub struct Channel {
    pub id: String,
    pub server_id: String,
    pub name: String,
    pub channel_type: ChannelType,
    pub created_at: i64,
}

/// A channel message in its stored shape.
#[derive(Debug)]
pub struct Message {
    pub id: String,
    pub channel_id: String,
    pub author_id: String,
    pub content: String,
    pub created_at: i64,
    pub edited_at: Option<i64>,
}

/// One user's membership in one server.
#[derive(Debug)]
pub struct ServerMember {
    pub server_id: String,
    pub user_id: String,
    pub joined_at: i64,
    pub nickname: Option<String>,
}

} // verus!
