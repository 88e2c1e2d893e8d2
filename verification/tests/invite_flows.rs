use agorusta::invites::{
    code_alphabet, create_invite_at, create_server_password_at, delete_invite,
    delete_server_password, generate_invite_code, get_invite_info, join_by_code_at,
    join_by_name_at, list_invites, list_server_passwords, CreateInviteRequest,
    CreatePasswordRequest, Invite, InviteTable, JoinByNameRequest, PasswordTable,
};
use agorusta::servers::{ChannelTable, Member, MemberTable, Server, ServerTable};

fn member(server: &str, user: &str, role: &str) -> Member {
    Member {
        server_id: server.to_string(),
        user_id: user.to_string(),
        username: format!("name-{}", user),
        role: role.to_string(),
        joined_at: 1,
    }
}

fn server(id: &str, name: &str, owner: &str) -> Server {
    Server {
        id: id.to_string(),
        name: name.to_string(),
        owner_id: owner.to_string(),
        icon_url: None,
        created_at: 1,
    }
}

fn world() -> (InviteTable, MemberTable, ServerTable, ChannelTable) {
    let invites = InviteTable::new();
    let mut members = MemberTable::new();
    members.upsert(member("s1", "owner1", "owner"));
    members.upsert(member("s1", "admin1", "admin"));
    members.upsert(member("s1", "pleb1", "member"));
    members.upsert(member("s2", "owner2", "owner"));
    let mut servers = ServerTable::new();
    servers.upsert(server("s1", "First", "owner1"));
    servers.upsert(server("s2", "Second", "owner2"));
    let channels = ChannelTable::new();
    (invites, members, servers, channels)
}

#[test]
fn generated_codes_are_8_chars_from_the_alphabet() {
    let alpha = code_alphabet();
    for _ in 0..50 {
        let code = generate_invite_code();
        assert_eq!(code.chars().count(), 8);
        for c in code.chars() {
            assert!(alpha.contains(c), "unexpected character {:?}", c);
        }
    }
}

#[test]
fn concurrent_creates_yield_pairwise_distinct_codes() {
    let (mut invites, members, servers, _channels) = world();
    let req = CreateInviteRequest { expires_in_hours: None, max_uses: None };
    let mut codes: Vec<String> = Vec::new();
    for i in 0..20 {
        let user = if i % 2 == 0 { "owner1" } else { "owner2" };
        let sid = if i % 2 == 0 { "s1" } else { "s2" };
        let inv = create_invite_at(
            &mut invites,
            &members,
            &servers,
            &sid.to_string(),
            &user.to_string(),
            &req,
            500,
        )
        .unwrap();
        codes.push(inv.code);
    }
    for a in 0..codes.len() {
        for b in a + 1..codes.len() {
            assert_ne!(codes[a], codes[b]);
        }
    }
}

#[test]
fn create_invite_requires_admin_or_owner() {
    let (mut invites, members, servers, _channels) = world();
    let req = CreateInviteRequest { expires_in_hours: None, max_uses: None };
    let err = create_invite_at(
        &mut invites,
        &members,
        &servers,
        &"s1".to_string(),
        &"pleb1".to_string(),
        &req,
        500,
    )
    .unwrap_err();
    assert_eq!(err.0, 403);
    let err = create_invite_at(
        &mut invites,
        &members,
        &servers,
        &"s1".to_string(),
        &"stranger".to_string(),
        &req,
        500,
    )
    .unwrap_err();
    assert_eq!(err.0, 403);
    let ok = create_invite_at(
        &mut invites,
        &members,
        &servers,
        &"s1".to_string(),
        &"admin1".to_string(),
        &req,
        500,
    );
    assert!(ok.is_ok());
}

#[test]
fn invite_expiry_is_hours_from_now() {
    let (mut invites, members, servers, _channels) = world();
    let req = CreateInviteRequest { expires_in_hours: Some(2), max_uses: Some(5) };
    let inv = create_invite_at(
        &mut invites,
        &members,
        &servers,
        &"s1".to_string(),
        &"owner1".to_string(),
        &req,
        1000,
    )
    .unwrap();
    assert_eq!(inv.created_at, 1000);
    assert_eq!(inv.expires_at, Some(1000 + 2 * 3600));
    assert_eq!(inv.max_uses, Some(5));
    assert_eq!(inv.use_count, 0);
    assert_eq!(inv.server_name, "First");
}

#[test]
fn expired_invite_is_gone() {
    let (mut invites, members, _servers, _channels) = world();
    invites.try_insert(Invite {
        code: "AAAAAAAA".to_string(),
        server_id: "s1".to_string(),
        server_name: "First".to_string(),
        created_by: "owner1".to_string(),
        created_at: 100,
        expires_at: Some(200),
        max_uses: None,
        use_count: 0,
    });
    let err = get_invite_info(&invites, &members, &"AAAAAAAA".to_string(), 300).unwrap_err();
    assert_eq!(err.0, 410);
    // At or before the expiry instant the invite is still usable.
    assert!(get_invite_info(&invites, &members, &"AAAAAAAA".to_string(), 200).is_ok());
}

#[test]
fn used_up_invite_is_gone() {
    let (mut invites, members, _servers, _channels) = world();
    invites.try_insert(Invite {
        code: "BBBBBBBB".to_string(),
        server_id: "s1".to_string(),
        server_name: "First".to_string(),
        created_by: "owner1".to_string(),
        created_at: 100,
        expires_at: None,
        max_uses: Some(1),
        use_count: 1,
    });
    let err = get_invite_info(&invites, &members, &"BBBBBBBB".to_string(), 300).unwrap_err();
    assert_eq!(err.0, 410);
}

#[test]
fn unknown_invite_is_not_found() {
    let (invites, members, _servers, _channels) = world();
    let err = get_invite_info(&invites, &members, &"CCCCCCCC".to_string(), 300).unwrap_err();
    assert_eq!(err.0, 404);
}

#[test]
fn join_by_code_adds_member_and_counts_use() {
    let (mut invites, mut members, servers, channels) = world();
    let req = CreateInviteRequest { expires_in_hours: None, max_uses: None };
    let inv = create_invite_at(
        &mut invites,
        &members,
        &servers,
        &"s1".to_string(),
        &"owner1".to_string(),
        &req,
        500,
    )
    .unwrap();
    let sw = join_by_code_at(
        &mut invites,
        &mut members,
        &servers,
        &channels,
        &inv.code,
        &"newbie".to_string(),
        &"newbie-name".to_string(),
        600,
    )
    .unwrap();
    assert_eq!(sw.server.id, "s1");
    assert_eq!(sw.member_count, 4);
    let stored = invites.invites.iter().find(|i| i.code == inv.code).unwrap();
    assert_eq!(stored.use_count, 1);
    // A second redemption by the same user is a conflict.
    let err = join_by_code_at(
        &mut invites,
        &mut members,
        &servers,
        &channels,
        &inv.code,
        &"newbie".to_string(),
        &"newbie-name".to_string(),
        700,
    )
    .unwrap_err();
    assert_eq!(err.0, 409);
}

#[test]
fn delete_invite_checks_server_and_role() {
    let (mut invites, members, servers, _channels) = world();
    let req = CreateInviteRequest { expires_in_hours: None, max_uses: None };
    let inv = create_invite_at(
        &mut invites,
        &members,
        &servers,
        &"s1".to_string(),
        &"owner1".to_string(),
        &req,
        500,
    )
    .unwrap();
    // Another server's admin cannot see it: collapsed to NotFound.
    let err = delete_invite(
        &mut invites,
        &members,
        &"s2".to_string(),
        &inv.code,
        &"owner2".to_string(),
    )
    .unwrap_err();
    assert_eq!(err.0, 404);
    let err = delete_invite(
        &mut invites,
        &members,
        &"s1".to_string(),
        &inv.code,
        &"pleb1".to_string(),
    )
    .unwrap_err();
    assert_eq!(err.0, 403);
    delete_invite(&mut invites, &members, &"s1".to_string(), &inv.code, &"owner1".to_string())
        .unwrap();
    assert!(invites.invites.is_empty());
}

#[test]
fn list_invites_filters_expired_and_sorts_newest_first() {
    let (mut invites, members, _servers, _channels) = world();
    invites.try_insert(Invite {
        code: "OLD11111".to_string(),
        server_id: "s1".to_string(),
        server_name: "First".to_string(),
        created_by: "owner1".to_string(),
        created_at: 10,
        expires_at: None,
        max_uses: None,
        use_count: 0,
    });
    invites.try_insert(Invite {
        code: "DEAD1111".to_string(),
        server_id: "s1".to_string(),
        server_name: "First".to_string(),
        created_by: "owner1".to_string(),
        created_at: 20,
        expires_at: Some(50),
        max_uses: None,
        use_count: 0,
    });
    invites.try_insert(Invite {
        code: "NEW11111".to_string(),
        server_id: "s1".to_string(),
        server_name: "First".to_string(),
        created_by: "owner1".to_string(),
        created_at: 30,
        expires_at: Some(5000),
        max_uses: None,
        use_count: 0,
    });
    let listed = list_invites(&invites, &members, &"s1".to_string(), &"owner1".to_string(), 100)
        .unwrap();
    assert_eq!(listed.len(), 2);
    assert_eq!(listed[0].code, "NEW11111");
    assert_eq!(listed[1].code, "OLD11111");
}

#[test]
fn password_join_round_trip() {
    let (_invites, mut members, servers, channels) = world();
    let mut passwords = PasswordTable::new();
    let req = CreatePasswordRequest { password: "hunter22".to_string(), expires_in_hours: None };
    let sp = create_server_password_at(
        &mut passwords,
        &members,
        &"s1".to_string(),
        &"owner1".to_string(),
        &req,
        "pw-row-1".to_string(),
        500,
    )
    .unwrap();
    assert_eq!(sp.server_id, "s1");
    // The wrong password is rejected, indistinguishably from a wrong name.
    let bad = JoinByNameRequest { server_name: "First".to_string(), password: "wrong".to_string() };
    let err = join_by_name_at(
        &servers,
        &passwords,
        &mut members,
        &channels,
        &bad,
        &"joiner".to_string(),
        &"joiner-name".to_string(),
        600,
    )
    .unwrap_err();
    assert_eq!(err.0, 401);
    let wrong_name =
        JoinByNameRequest { server_name: "Nowhere".to_string(), password: "hunter22".to_string() };
    let err = join_by_name_at(
        &servers,
        &passwords,
        &mut members,
        &channels,
        &wrong_name,
        &"joiner".to_string(),
        &"joiner-name".to_string(),
        600,
    )
    .unwrap_err();
    assert_eq!(err.0, 401);
    // The right pair works end to end through the real argon2 hash.
    let good =
        JoinByNameRequest { server_name: "First".to_string(), password: "hunter22".to_string() };
    let sw = join_by_name_at(
        &servers,
        &passwords,
        &mut members,
        &channels,
        &good,
        &"joiner".to_string(),
        &"joiner-name".to_string(),
        600,
    )
    .unwrap();
    assert_eq!(sw.server.id, "s1");
    assert_eq!(sw.member_count, 4);
}

#[test]
fn password_rules_and_listing() {
    let (_invites, members, _servers, _channels) = world();
    let mut passwords = PasswordTable::new();
    let short = CreatePasswordRequest { password: "abc".to_string(), expires_in_hours: None };
    let err = create_server_password_at(
        &mut passwords,
        &members,
        &"s1".to_string(),
        &"owner1".to_string(),
        &short,
        "pw-short".to_string(),
        500,
    )
    .unwrap_err();
    assert_eq!(err.0, 400);
    let req = CreatePasswordRequest { password: "goodpass".to_string(), expires_in_hours: None };
    let err = create_server_password_at(
        &mut passwords,
        &members,
        &"s1".to_string(),
        &"admin1".to_string(),
        &req,
        "pw-admin".to_string(),
        500,
    )
    .unwrap_err();
    assert_eq!(err.0, 403);
    create_server_password_at(
        &mut passwords,
        &members,
        &"s1".to_string(),
        &"owner1".to_string(),
        &req,
        "pw-1".to_string(),
        500,
    )
    .unwrap();
    let listed = list_server_passwords(
        &passwords,
        &members,
        &"s1".to_string(),
        &"owner1".to_string(),
        600,
    )
    .unwrap();
    assert_eq!(listed.len(), 1);
    assert_eq!(listed[0].id, "pw-1");
    delete_server_password(
        &mut passwords,
        &members,
        &"s1".to_string(),
        &"pw-1".to_string(),
        &"owner1".to_string(),
    )
    .unwrap();
    assert!(passwords.passwords.is_empty());
}
