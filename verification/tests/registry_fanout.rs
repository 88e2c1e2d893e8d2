use agorusta::auth::Claims;
use agorusta::fanout::{fanout_targets, note_delivery, DeliveryError};
use agorusta::protocol::{handle_connect_at, handle_control, handle_disconnect, ControlOutcome};
use agorusta::registry::ConnectionRegistry;

fn registry_with(conns: &[(&str, &str)]) -> ConnectionRegistry {
    let mut reg = ConnectionRegistry::new();
    for (cid, uid) in conns {
        reg.connect(cid.to_string(), uid.to_string(), format!("{}@example.org", uid), 1000);
    }
    reg
}

#[test]
fn connect_creates_empty_subscriptions_and_lease() {
    let reg = registry_with(&[("connA", "u1")]);
    assert_eq!(reg.records.len(), 1);
    assert_eq!(reg.records[0].connection_id, "connA");
    assert_eq!(reg.records[0].user_id, "u1");
    assert!(reg.records[0].channels.is_empty());
    assert_eq!(reg.records[0].expires_at, 1000 + 86400);
}

#[test]
fn connect_same_id_replaces_record() {
    let mut reg = registry_with(&[("connA", "u1")]);
    reg.subscribe(&"connA".to_string(), &"c1".to_string()).unwrap();
    reg.connect("connA".to_string(), "u2".to_string(), "u2@example.org".to_string(), 2000);
    assert_eq!(reg.records.len(), 1);
    assert_eq!(reg.records[0].user_id, "u2");
    assert!(reg.records[0].channels.is_empty());
}

#[test]
fn fanout_targets_only_subscribers() {
    let mut reg = registry_with(&[("connA", "u1"), ("connB", "u2")]);
    reg.subscribe(&"connA".to_string(), &"convX".to_string()).unwrap();
    reg.subscribe(&"connB".to_string(), &"convY".to_string()).unwrap();
    let targets = fanout_targets(&reg, &"convX".to_string());
    assert_eq!(targets, vec!["connA".to_string()]);
    let other = fanout_targets(&reg, &"convY".to_string());
    assert_eq!(other, vec!["connB".to_string()]);
    let none = fanout_targets(&reg, &"convZ".to_string());
    assert!(none.is_empty());
}

#[test]
fn gone_delivery_heals_registry() {
    let mut reg = registry_with(&[("connA", "u1"), ("connB", "u2")]);
    reg.subscribe(&"connA".to_string(), &"convX".to_string()).unwrap();
    reg.subscribe(&"connB".to_string(), &"convX".to_string()).unwrap();
    note_delivery(&mut reg, &"connA".to_string(), &Err(DeliveryError::Gone));
    let targets = fanout_targets(&reg, &"convX".to_string());
    assert_eq!(targets, vec!["connB".to_string()]);
    assert_eq!(reg.records.len(), 1);
}

#[test]
fn non_gone_delivery_changes_nothing() {
    let mut reg = registry_with(&[("connA", "u1")]);
    reg.subscribe(&"connA".to_string(), &"convX".to_string()).unwrap();
    note_delivery(&mut reg, &"connA".to_string(), &Ok(()));
    note_delivery(
        &mut reg,
        &"connA".to_string(),
        &Err(DeliveryError::Other("timeout".to_string())),
    );
    assert_eq!(fanout_targets(&reg, &"convX".to_string()).len(), 1);
}

#[test]
fn subscribe_is_idempotent() {
    let mut reg = registry_with(&[("connA", "u1")]);
    reg.subscribe(&"connA".to_string(), &"c1".to_string()).unwrap();
    reg.subscribe(&"connA".to_string(), &"c1".to_string()).unwrap();
    assert_eq!(reg.records[0].channels, vec!["c1".to_string()]);
}

#[test]
fn unsubscribe_is_idempotent() {
    let mut reg = registry_with(&[("connA", "u1")]);
    reg.subscribe(&"connA".to_string(), &"c1".to_string()).unwrap();
    reg.unsubscribe(&"connA".to_string(), &"c1".to_string()).unwrap();
    reg.unsubscribe(&"connA".to_string(), &"c1".to_string()).unwrap();
    assert!(reg.records[0].channels.is_empty());
}

#[test]
fn subscribe_requires_registration() {
    let mut reg = ConnectionRegistry::new();
    assert!(reg.subscribe(&"ghost".to_string(), &"c1".to_string()).is_err());
    assert!(reg.unsubscribe(&"ghost".to_string(), &"c1".to_string()).is_err());
}

#[test]
fn disconnect_removes_record() {
    let mut reg = registry_with(&[("connA", "u1"), ("connB", "u2")]);
    reg.disconnect(&"connA".to_string());
    assert_eq!(reg.records.len(), 1);
    assert_eq!(reg.records[0].connection_id, "connB");
    // Disconnecting an absent connection is a no-op.
    reg.disconnect(&"connA".to_string());
    assert_eq!(reg.records.len(), 1);
}

#[test]
fn control_subscribe_and_unsubscribe() {
    let mut reg = registry_with(&[("connA", "u1")]);
    let out = handle_control(
        &mut reg,
        &"connA".to_string(),
        &"subscribe".to_string(),
        &Some("c1".to_string()),
    );
    assert!(matches!(out, ControlOutcome::Subscribed(ref c) if c == "c1"));
    assert_eq!(out.status_code(), 200);
    assert_eq!(reg.records[0].channels, vec!["c1".to_string()]);
    let out = handle_control(
        &mut reg,
        &"connA".to_string(),
        &"unsubscribe".to_string(),
        &Some("c1".to_string()),
    );
    assert!(matches!(out, ControlOutcome::Unsubscribed(ref c) if c == "c1"));
    assert!(reg.records[0].channels.is_empty());
}

#[test]
fn control_rejects_unknown_action() {
    let mut reg = registry_with(&[("connA", "u1")]);
    let out = handle_control(
        &mut reg,
        &"connA".to_string(),
        &"shout".to_string(),
        &Some("c1".to_string()),
    );
    assert!(matches!(out, ControlOutcome::UnknownAction));
    assert_eq!(out.status_code(), 400);
}

#[test]
fn control_rejects_missing_channel_id() {
    let mut reg = registry_with(&[("connA", "u1")]);
    let out = handle_control(&mut reg, &"connA".to_string(), &"subscribe".to_string(), &None);
    assert!(matches!(out, ControlOutcome::MissingChannelId));
    assert_eq!(out.status_code(), 400);
}

#[test]
fn control_rejects_unregistered_connection() {
    let mut reg = ConnectionRegistry::new();
    let out = handle_control(
        &mut reg,
        &"ghost".to_string(),
        &"subscribe".to_string(),
        &Some("c1".to_string()),
    );
    assert!(matches!(out, ControlOutcome::NotConnected));
    assert_eq!(out.status_code(), 404);
}

#[test]
fn connect_lifecycle_requires_claims() {
    let mut reg = ConnectionRegistry::new();
    assert_eq!(handle_connect_at(&mut reg, &"conn-a".to_string(), None, 1000), 401);
    assert!(reg.records.is_empty());
    let claims = Claims {
        sub: "u1".to_string(),
        email: "u1@example.org".to_string(),
        username: "alice".to_string(),
        exp: 9999999,
    };
    assert_eq!(handle_connect_at(&mut reg, &"conn-a".to_string(), Some(&claims), 1000), 200);
    assert_eq!(reg.records.len(), 1);
    assert_eq!(reg.records[0].user_id, "u1");
    assert_eq!(handle_disconnect(&mut reg, &"conn-a".to_string()), 200);
    assert!(reg.records.is_empty());
}

#[test]
fn reaping_drops_only_expired_leases() {
    let mut reg = ConnectionRegistry::new();
    reg.connect("conn-old".to_string(), "u1".to_string(), "u1@example.org".to_string(), 1000);
    reg.connect("conn-new".to_string(), "u2".to_string(), "u2@example.org".to_string(), 90000);
    // conn-old's lease ends at 87400, conn-new's at 176400.
    reg.reap_expired(100_000);
    assert_eq!(reg.records.len(), 1);
    assert_eq!(reg.records[0].connection_id, "conn-new");
    // Reaping at the same instant again changes nothing.
    reg.reap_expired(100_000);
    assert_eq!(reg.records.len(), 1);
}
