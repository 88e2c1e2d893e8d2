use vstd::prelude::*;
use crate::registry::{
    ConnectionRegistry, disconnect_post, is_subscribed, lemma_disconnect_clears_subscriber,
    lemma_subscriber_ids_member, reg_has, subscriber_ids, ConnectionRecord,
};

verus! {

/// A push-delivery failure as the transport reports it. `Gone` is the
/// distinguished class meaning the remote endpoint no longer exists and
/// the connection's registry record should be deleted.
#[derive(Debug)]
pub enum DeliveryError {
    Gone,
    Other(String),
}

/// Resolves the recipients of a broadcast: the ids of every registered
/// connection subscribed to the conversation, in registry order. An empty
/// result is the expected no-subscriber case, not an error. The caller
/// serializes the envelope once, attempts each delivery, and feeds every
/// outcome back through `note_delivery`.
pub fn fanout_targets(registry: &ConnectionRegistry, conversation_id: &String) -> (r: Vec<
    String,
>)
    ensures
        r@.map_values(|s: String| s@) == subscriber_ids(registry.records@, conversation_id@),
{
    registry.find_subscribers(conversation_id)
}

/// Feeds one delivery outcome back into the registry: a `Gone` failure
/// synchronously deletes the connection's record (self-healing); success
/// or any other failure changes nothing — the failure is absorbed, never
/// retried, and never surfaced to the request that wrote the message.
pub fn note_delivery(
    registry: &mut ConnectionRegistry,
    connection_id: &String,
    outcome: &Result<(), DeliveryError>,
)
    requires
        old(registry).wf(),
    ensures
        final(registry).wf(),
        (outcome matches Err(DeliveryError::Gone)) ==> disconnect_post(
            old(registry).records@,
            final(registry).records@,
            connection_id@,
        ),
        !(outcome matches Err(DeliveryError::Gone)) ==> final(registry).records@ == old(
            registry,
        ).records@,
{
    match outcome {
        Err(DeliveryError::Gone) => {
            registry.disconnect(connection_id);
        },
        _ => {},
    }
}

/// Fan-out targeting (law): a broadcast to conversation `ch` addresses a
/// connection id exactly when a registered record carries that id and is
/// subscribed to `ch` — so a connection subscribed elsewhere receives
/// nothing.
pub proof fn lemma_fanout_targets_exact(s: Seq<ConnectionRecord>, ch: Seq<char>, id: Seq<char>)
    ensures
        subscriber_ids(s, ch).contains(id) <==> exists|i: int|
            0 <= i < s.len() && (#[trigger] s[i]).connection_id@ == id && is_subscribed(s[i], ch),
{
    lemma_subscriber_ids_member(s, ch, id);
}

/// Dead-connection self-healing (law): once a `Gone` outcome has been
/// noted for a connection, resolving the subscribers of any conversation
/// never returns that connection again.
pub proof fn lemma_gone_connection_cleared(
    pre: Seq<ConnectionRecord>,
    post: Seq<ConnectionRecord>,
    cid: Seq<char>,
    ch: Seq<char>,
)
    requires
        crate::table::unique_by(pre, crate::registry::conn_key()),
        disconnect_post(pre, post, cid),
    ensures
        !subscriber_ids(post, ch).contains(cid),
        !reg_has(post, cid),
{
    lemma_disconnect_clears_subscriber(pre, post, cid, ch);
    crate::table::lemma_find_by(pre, crate::registry::conn_key_is(cid));
    let k = crate::registry::reg_idx(pre, cid);
    if k == -1 {
        assert(post == pre);
    } else {
        crate::table::lemma_find_by(post, crate::registry::conn_key_is(cid));
        let k2 = crate::registry::reg_idx(post, cid);
        if k2 >= 0 {
            assert(post[k2].connection_id@ == cid);
            let i0 = if k2 < k {
                k2
            } else {
                k2 + 1
            };
            if k2 < k {
                assert(post[k2] == pre.subrange(0, k)[k2]);
                assert(post[k2] == pre[k2]);
            } else {
                assert(post[k2] == pre.subrange(k + 1, pre.len() as int)[k2 - k]);
                assert(post[k2] == pre[k2 + 1]);
            }
            assert(pre[i0].connection_id@ == cid);
            assert(pre[k].connection_id@ == cid);
            assert(i0 != k);
        }
    }
}

} // verus!
