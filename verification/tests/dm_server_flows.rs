use agorusta::dms::{
    collect_dm_history, get_conversation, list_conversations, list_dm_messages,
    make_conversation_id, send_dm_message_at, start_or_get_conversation_at, ConversationTable,
    DirectMessage, DmLog, SendDmRequest, StartConversationRequest,
};
use agorusta::errors::AppError;
use agorusta::messages::{create_message_at, list_messages, validate_content, ChannelLog,
    CreateMessageRequest};
use agorusta::models::User;
use agorusta::servers::{
    create_channel_at, create_server_at, default_channel_type, get_server, list_members,
    list_user_servers, Channel, ChannelTable, CreateChannelRequest, CreateServerRequest, Member,
    MemberTable, ServerTable,
};
use agorusta::users::UserTable;

fn user(id: &str, name: &str) -> User {
    User {
        id: id.to_string(),
        username: name.to_string(),
        email: format!("{}@example.org", name),
        password_hash: "unused".to_string(),
        avatar_url: None,
        created_at: 1,
    }
}

fn users() -> UserTable {
    let mut t = UserTable::new();
    t.users.push(user("u1", "alice"));
    t.users.push(user("u2", "bob"));
    t.users.push(user("u3", "bobby"));
    t
}

#[test]
fn conversation_id_is_order_independent() {
    let a = make_conversation_id("u1", "u2");
    let b = make_conversation_id("u2", "u1");
    assert_eq!(a, b);
    assert_eq!(a, "u1_u2");
}

#[test]
fn start_conversation_writes_both_projections() {
    let mut table = ConversationTable::new();
    let users = users();
    let req = StartConversationRequest { recipient_id: "u2".to_string() };
    let conv = start_or_get_conversation_at(
        &mut table,
        &users,
        &"u1".to_string(),
        &"alice".to_string(),
        &req,
        1000,
    )
    .unwrap();
    assert_eq!(conv.id, "u1_u2");
    assert_eq!(conv.other_user_id, "u2");
    assert_eq!(conv.other_username, "bob");
    assert_eq!(conv.last_message_preview, None);
    assert_eq!(table.rows.len(), 2);
    // The recipient sees the mirror row.
    let mirror = get_conversation(&table, &"u1_u2".to_string(), &"u2".to_string()).unwrap();
    assert_eq!(mirror.other_user_id, "u1");
    assert_eq!(mirror.other_username, "alice");
    // Starting again returns the existing view without new rows.
    let again = start_or_get_conversation_at(
        &mut table,
        &users,
        &"u1".to_string(),
        &"alice".to_string(),
        &req,
        2000,
    )
    .unwrap();
    assert_eq!(again.created_at, 1000);
    assert_eq!(table.rows.len(), 2);
}

#[test]
fn start_conversation_rejects_self_and_unknown() {
    let mut table = ConversationTable::new();
    let users = users();
    let self_req = StartConversationRequest { recipient_id: "u1".to_string() };
    let err = start_or_get_conversation_at(
        &mut table,
        &users,
        &"u1".to_string(),
        &"alice".to_string(),
        &self_req,
        1000,
    )
    .unwrap_err();
    assert_eq!(err.0, 400);
    let ghost_req = StartConversationRequest { recipient_id: "nobody".to_string() };
    let err = start_or_get_conversation_at(
        &mut table,
        &users,
        &"u1".to_string(),
        &"alice".to_string(),
        &ghost_req,
        1000,
    )
    .unwrap_err();
    assert_eq!(err.0, 404);
}

#[test]
fn send_dm_updates_previews_and_log() {
    let mut table = ConversationTable::new();
    let users = users();
    let req = StartConversationRequest { recipient_id: "u2".to_string() };
    start_or_get_conversation_at(
        &mut table,
        &users,
        &"u1".to_string(),
        &"alice".to_string(),
        &req,
        1000,
    )
    .unwrap();
    let mut log = DmLog::new("u1_u2".to_string());
    let send = SendDmRequest { content: "  hello bob  ".to_string() };
    let msg = send_dm_message_at(
        &mut table,
        &mut log,
        &"u1_u2".to_string(),
        &"u1".to_string(),
        &"alice".to_string(),
        &send,
        "dm-1".to_string(),
        2000,
    )
    .unwrap();
    assert_eq!(msg.content, "hello bob");
    assert_eq!(msg.created_at, 2000);
    assert_eq!(log.entries.len(), 1);
    for uid in ["u1", "u2"] {
        let conv = get_conversation(&table, &"u1_u2".to_string(), &uid.to_string()).unwrap();
        assert_eq!(conv.updated_at, 2000);
        assert_eq!(conv.last_message_preview.as_deref(), Some("hello bob"));
    }
    // A non-participant can neither read nor send.
    let err =
        list_dm_messages(&table, &log, &"u1_u2".to_string(), &"u3".to_string(), 10, None)
            .unwrap_err();
    assert_eq!(err.0, 403);
}

#[test]
fn long_dm_gets_ellipsis_preview() {
    let mut table = ConversationTable::new();
    let users = users();
    let req = StartConversationRequest { recipient_id: "u2".to_string() };
    start_or_get_conversation_at(
        &mut table,
        &users,
        &"u1".to_string(),
        &"alice".to_string(),
        &req,
        1000,
    )
    .unwrap();
    let mut log = DmLog::new("u1_u2".to_string());
    let long_text: String = "x".repeat(60);
    let send = SendDmRequest { content: long_text.clone() };
    send_dm_message_at(
        &mut table,
        &mut log,
        &"u1_u2".to_string(),
        &"u1".to_string(),
        &"alice".to_string(),
        &send,
        "dm-1".to_string(),
        2000,
    )
    .unwrap();
    let conv = get_conversation(&table, &"u1_u2".to_string(), &"u1".to_string()).unwrap();
    let preview = conv.last_message_preview.unwrap();
    assert_eq!(preview.chars().count(), 50);
    assert!(preview.ends_with("..."));
    assert!(preview.starts_with(&"x".repeat(47)));
}

#[test]
fn inbox_lists_newest_activity_first() {
    let mut table = ConversationTable::new();
    let users = users();
    for (rid, t) in [("u2", 1000i64), ("u3", 3000)] {
        let req = StartConversationRequest { recipient_id: rid.to_string() };
        start_or_get_conversation_at(
            &mut table,
            &users,
            &"u1".to_string(),
            &"alice".to_string(),
            &req,
            t,
        )
        .unwrap();
    }
    let inbox = list_conversations(&table, &"u1".to_string());
    assert_eq!(inbox.len(), 2);
    assert_eq!(inbox[0].other_user_id, "u3");
    assert_eq!(inbox[1].other_user_id, "u2");
}

#[test]
fn content_validation_bounds() {
    assert_eq!(validate_content(&"   ".to_string()).unwrap_err().0, 400);
    assert_eq!(validate_content(&"x".repeat(2001)).unwrap_err().0, 400);
    assert_eq!(validate_content(&"x".repeat(2000)).unwrap(), "x".repeat(2000));
    assert_eq!(validate_content(&"  trimmed  ".to_string()).unwrap(), "trimmed");
}

#[test]
fn create_server_seeds_owner_and_general_channel() {
    let mut servers = ServerTable::new();
    let mut channels = ChannelTable::new();
    let mut members = MemberTable::new();
    let req = CreateServerRequest { name: "  My Server  ".to_string() };
    let sw = create_server_at(
        &mut servers,
        &mut channels,
        &mut members,
        &"u1".to_string(),
        &"alice".to_string(),
        &req,
        "srv-1".to_string(),
        "chan-1".to_string(),
        1000,
    )
    .unwrap();
    assert_eq!(sw.server.name, "My Server");
    assert_eq!(sw.server.owner_id, "u1");
    assert_eq!(sw.channels.len(), 1);
    assert_eq!(sw.channels[0].name, "general");
    assert_eq!(sw.channels[0].channel_type, "text");
    assert_eq!(sw.member_count, 1);
    let listed = list_members(&members, &"srv-1".to_string(), &"u1".to_string()).unwrap();
    assert_eq!(listed.len(), 1);
    assert_eq!(listed[0].role, "owner");
    let mine = list_user_servers(&members, &servers, &"u1".to_string());
    assert_eq!(mine.len(), 1);
    assert_eq!(mine[0].id, "srv-1");
    let fetched =
        get_server(&servers, &channels, &members, &"srv-1".to_string(), &"u1".to_string())
            .unwrap();
    assert_eq!(fetched.server.id, "srv-1");
    let err = get_server(&servers, &channels, &members, &"srv-1".to_string(), &"u9".to_string())
        .unwrap_err();
    assert_eq!(err.0, 403);
}

#[test]
fn server_name_must_be_1_to_100_chars() {
    let mut servers = ServerTable::new();
    let mut channels = ChannelTable::new();
    let mut members = MemberTable::new();
    let req = CreateServerRequest { name: "   ".to_string() };
    let err = create_server_at(
        &mut servers,
        &mut channels,
        &mut members,
        &"u1".to_string(),
        &"alice".to_string(),
        &req,
        "srv-1".to_string(),
        "chan-1".to_string(),
        1000,
    )
    .unwrap_err();
    assert_eq!(err.0, 400);
    let req = CreateServerRequest { name: "y".repeat(101) };
    let err = create_server_at(
        &mut servers,
        &mut channels,
        &mut members,
        &"u1".to_string(),
        &"alice".to_string(),
        &req,
        "srv-1".to_string(),
        "chan-1".to_string(),
        1000,
    )
    .unwrap_err();
    assert_eq!(err.0, 400);
}

#[test]
fn channel_names_are_normalized() {
    let mut channels = ChannelTable::new();
    let mut members = MemberTable::new();
    members.upsert(Member {
        server_id: "s1".to_string(),
        user_id: "u1".to_string(),
        username: "alice".to_string(),
        role: "owner".to_string(),
        joined_at: 1,
    });
    let req = CreateChannelRequest {
        name: "  My COOL Channel  ".to_string(),
        channel_type: default_channel_type(),
    };
    let c = create_channel_at(
        &mut channels,
        &members,
        &"s1".to_string(),
        &"u1".to_string(),
        &req,
        "chan-9".to_string(),
        1000,
    )
    .unwrap();
    assert_eq!(c.name, "my-cool-channel");
    assert_eq!(c.channel_type, "text");
    // Plain members may not create channels.
    members.upsert(Member {
        server_id: "s1".to_string(),
        user_id: "u2".to_string(),
        username: "bob".to_string(),
        role: "member".to_string(),
        joined_at: 1,
    });
    let err = create_channel_at(
        &mut channels,
        &members,
        &"s1".to_string(),
        &"u2".to_string(),
        &req,
        "chan-10".to_string(),
        1000,
    )
    .unwrap_err();
    assert_eq!(err.0, 403);
}

#[test]
fn channel_message_flow_with_checks() {
    let mut members = MemberTable::new();
    members.upsert(Member {
        server_id: "s1".to_string(),
        user_id: "u1".to_string(),
        username: "alice".to_string(),
        role: "owner".to_string(),
        joined_at: 1,
    });
    let mut channels = ChannelTable::new();
    channels.upsert(Channel {
        id: "c1".to_string(),
        server_id: "s1".to_string(),
        name: "general".to_string(),
        channel_type: "text".to_string(),
        created_at: 1,
    });
    let mut log = ChannelLog::new("c1".to_string());
    let req = CreateMessageRequest { content: "  hi there  ".to_string() };
    let msg = create_message_at(
        &members,
        &channels,
        &mut log,
        &"s1".to_string(),
        &"c1".to_string(),
        &"u1".to_string(),
        &"alice".to_string(),
        &req,
        "msg-1".to_string(),
        100,
    )
    .unwrap();
    assert_eq!(msg.content, "hi there");
    let resp = list_messages(
        &members,
        &channels,
        &log,
        &"s1".to_string(),
        &"c1".to_string(),
        &"u1".to_string(),
        50,
        None,
    )
    .unwrap();
    assert_eq!(resp.messages.len(), 1);
    // Outsiders are rejected, unknown channels are not found.
    let err = list_messages(
        &members,
        &channels,
        &log,
        &"s1".to_string(),
        &"c1".to_string(),
        &"u9".to_string(),
        50,
        None,
    )
    .unwrap_err();
    assert_eq!(err.0, 403);
    let mut other_log = ChannelLog::new("c9".to_string());
    let err = create_message_at(
        &members,
        &channels,
        &mut other_log,
        &"s1".to_string(),
        &"c9".to_string(),
        &"u1".to_string(),
        &"alice".to_string(),
        &req,
        "msg-2".to_string(),
        100,
    )
    .unwrap_err();
    assert_eq!(err.0, 404);
}

#[test]
fn user_search_is_prefix_lowercased_and_excludes_self() {
    let table = users();
    let hits = table.search_users(&"  BOB  ".to_string(), &"u1".to_string());
    assert_eq!(hits.len(), 2);
    assert_eq!(hits[0].username, "bob");
    assert_eq!(hits[1].username, "bobby");
    let hits = table.search_users(&"bob".to_string(), &"u2".to_string());
    assert_eq!(hits.len(), 1);
    assert_eq!(hits[0].username, "bobby");
    let none = table.search_users(&"   ".to_string(), &"u1".to_string());
    assert!(none.is_empty());
}

#[test]
fn wall_clock_write_path_assigns_uuid_ids() {
    let mut members = MemberTable::new();
    members.upsert(Member {
        server_id: "s1".to_string(),
        user_id: "u1".to_string(),
        username: "alice".to_string(),
        role: "owner".to_string(),
        joined_at: 1,
    });
    let mut channels = ChannelTable::new();
    channels.upsert(Channel {
        id: "c1".to_string(),
        server_id: "s1".to_string(),
        name: "general".to_string(),
        channel_type: "text".to_string(),
        created_at: 1,
    });
    let mut log = ChannelLog::new("c1".to_string());
    let req = CreateMessageRequest { content: "hello".to_string() };
    let msg = agorusta::messages::create_message(
        &members,
        &channels,
        &mut log,
        &"s1".to_string(),
        &"c1".to_string(),
        &"u1".to_string(),
        &"alice".to_string(),
        &req,
    )
    .unwrap();
    assert_eq!(msg.id.chars().count(), 36);
    assert!(msg.created_at > 1_600_000_000_000);
}

#[test]
fn dm_pagination_completeness_all_page_sizes() {
    let n = 6usize;
    let mut log = DmLog::new("u1_u2".to_string());
    for i in 0..n {
        log.append(DirectMessage {
            id: format!("dm{}", i),
            conversation_id: "u1_u2".to_string(),
            author_id: "u1".to_string(),
            author_username: "alice".to_string(),
            content: format!("message {}", i),
            created_at: (i as i64 + 1) * 100,
        });
    }
    for k in 1..=n + 5 {
        let all = collect_dm_history(&log, k);
        assert_eq!(all.len(), n);
        for (i, m) in all.iter().enumerate() {
            assert_eq!(m.created_at, ((n - i) as i64) * 100);
        }
    }
}

#[test]
fn app_error_status_codes() {
    assert_eq!(AppError::NotFound("x".to_string()).status_code(), 404);
    assert_eq!(AppError::Unauthorized.status_code(), 401);
    assert_eq!(AppError::Forbidden.status_code(), 403);
    assert_eq!(AppError::BadRequest("x".to_string()).status_code(), 400);
    assert_eq!(AppError::Internal("x".to_string()).status_code(), 500);
}
