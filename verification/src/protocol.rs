use vstd::prelude::*;
use crate::registry::{reg_has, subscribe_post, unsubscribe_post, ConnectionRegistry};
use crate::text::str_eq;

verus! {

/// The answer of one subscription-protocol step, ready for the transport
/// layer to turn into a status code and body.
#[derive(Debug)]
pub enum ControlOutcome {
    Subscribed(String),
    Unsubscribed(String),
    MissingChannelId,
    UnknownAction,
    NotConnected,
}

impl ControlOutcome {
    pub open spec fn spec_status_code(&self) -> u16 {
        match self {
            ControlOutcome::Subscribed(_) => 200,
            ControlOutcome::Unsubscribed(_) => 200,
            ControlOutcome::MissingChannelId => 400,
            ControlOutcome::UnknownAction => 400,
            ControlOutcome::NotConnected => 404,
        }
    }

    /// The HTTP-style status the transport reports for this outcome.
    pub fn status_code(&self) -> (code: u16)
        ensures
            code == self.spec_status_code(),
    {
        match self {
            ControlOutcome::Subscribed(_) => 200,
            ControlOutcome::Unsubscribed(_) => 200,
            ControlOutcome::MissingChannelId => 400,
            ControlOutcome::UnknownAction => 400,
            ControlOutcome::NotConnected => 404,
        }
    }
}

/// One step of the subscription protocol, on a control message already
/// parsed into its action and optional conversation id. "subscribe" and
/// "unsubscribe" mutate the connection's interest set atomically and
/// idempotently; an unknown action or a missing conversation id is
/// rejected without touching the registry.
pub fn handle_control(
    registry: &mut ConnectionRegistry,
    connection_id: &String,
    action: &String,
    channel_id: &Option<String>,
) -> (r: ControlOutcome)
    requires
        old(registry).wf(),
    ensures
        final(registry).wf(),
        action@ != "subscribe"@ && action@ != "unsubscribe"@ ==> final(registry).records@
            == old(registry).records@ && r is UnknownAction,
        (action@ == "subscribe"@ || action@ == "unsubscribe"@) && channel_id is None
            ==> final(registry).records@ == old(registry).records@ && r is MissingChannelId,
        action@ == "subscribe"@ && channel_id is Some ==> {
            let c = channel_id->0;
            if reg_has(old(registry).records@, connection_id@) {
                &&& subscribe_post(
                    old(registry).records@,
                    final(registry).records@,
                    connection_id@,
                    c@,
                )
                &&& r matches ControlOutcome::Subscribed(ch) && ch@ == c@
            } else {
                final(registry).records@ == old(registry).records@ && r is NotConnected
            }
        },
        action@ == "unsubscribe"@ && channel_id is Some ==> {
            let c = channel_id->0;
            if reg_has(old(registry).records@, connection_id@) {
                &&& unsubscribe_post(
                    old(registry).records@,
                    final(registry).records@,
                    connection_id@,
                    c@,
                )
                &&& r matches ControlOutcome::Unsubscribed(ch) && ch@ == c@
            } else {
                final(registry).records@ == old(registry).records@ && r is NotConnected
            }
        },
{
    proof {
        reveal_strlit("subscribe");
        reveal_strlit("unsubscribe");
        assert("subscribe"@.len() != "unsubscribe"@.len());
    }
    if str_eq(action.as_str(), "subscribe") {
        match channel_id {
            None => ControlOutcome::MissingChannelId,
            Some(c) => {
                match registry.subscribe(connection_id, c) {
                    Ok(()) => ControlOutcome::Subscribed(c.clone()),
                    Err(_) => ControlOutcome::NotConnected,
                }
            },
        }
    } else if str_eq(action.as_str(), "unsubscribe") {
        match channel_id {
            None => ControlOutcome::MissingChannelId,
            Some(c) => {
                match registry.unsubscribe(connection_id, c) {
                    Ok(()) => ControlOutcome::Unsubscribed(c.clone()),
                    Err(_) => ControlOutcome::NotConnected,
                }
            },
        }
    } else {
        ControlOutcome::UnknownAction
    }
}


/// The connect step of the lifecycle: a connection arriving without
/// validated claims is refused as unauthenticated; otherwise a fresh
/// registry record is written under a 24-hour lease, replacing any record
/// under the same id.
pub fn handle_connect_at(
    registry: &mut ConnectionRegistry,
    connection_id: &String,
    claims: Option<&crate::auth::Claims>,
    now: i64,
) -> (status: u16)
    requires
        old(registry).wf(),
        0 <= now,
        now + 86400 <= i64::MAX,
    ensures
        final(registry).wf(),
        claims is None ==> status == 401 && final(registry).records@ == old(registry).records@,
        claims matches Some(c) ==> status == 200 && crate::registry::connect_post(
            old(registry).records@,
            final(registry).records@,
            connection_id@,
            c.sub@,
            c.email@,
            now + 86400,
        ),
{
    match claims {
        None => 401,
        Some(c) => {
            registry.connect(connection_id.clone(), c.sub.clone(), c.email.clone(), now);
            200
        },
    }
}

/// The connect step at the current wall-clock time, clamped so the lease
/// arithmetic cannot overflow.
pub fn handle_connect(
    registry: &mut ConnectionRegistry,
    connection_id: &String,
    claims: Option<&crate::auth::Claims>,
) -> (status: u16)
    requires
        old(registry).wf(),
    ensures
        final(registry).wf(),
        claims is None ==> status == 401 && final(registry).records@ == old(registry).records@,
        claims matches Some(c) ==> status == 200 && exists|t: i64|
            0 <= t <= 8_000_000_000_000_000_000i64 && #[trigger] crate::registry::connect_post(
                old(registry).records@,
                final(registry).records@,
                connection_id@,
                c.sub@,
                c.email@,
                t + 86400,
            ),
{
    let raw_now = crate::shims::now_seconds();
    let now: i64 = if raw_now < 0 {
        0
    } else if raw_now > 8_000_000_000_000_000_000i64 {
        8_000_000_000_000_000_000i64
    } else {
        raw_now
    };
    let status = handle_connect_at(registry, connection_id, claims, now);
    proof {
        match claims {
            Some(c) => {
                assert(crate::registry::connect_post(
                    old(registry).records@,
                    registry.records@,
                    connection_id@,
                    c.sub@,
                    c.email@,
                    now + 86400,
                ));
            },
            None => {},
        }
    }
    status
}

/// The disconnect step of the lifecycle: the terminal transition, removing
/// the record if one exists. Always reported as success.
pub fn handle_disconnect(registry: &mut ConnectionRegistry, connection_id: &String) -> (status:
    u16)
    requires
        old(registry).wf(),
    ensures
        final(registry).wf(),
        status == 200,
        crate::registry::disconnect_post(
            old(registry).records@,
            final(registry).records@,
            connection_id@,
        ),
{
    registry.disconnect(connection_id);
    200
}

} // verus!
