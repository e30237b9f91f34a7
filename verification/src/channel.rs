//! The outbound side of one client's delivery queue: an unbounded channel
//! whose send half the registry owns and whose receive half an unverified
//! drain task forwards to the network. The queue's content is modelled by
//! `enqueued`, the sequence of message payloads pushed through the send
//! half so far, in order; the drain task hands them on in that order.
use vstd::prelude::*;

use crate::message::{Msg, MsgView};

verus! {

/// warp's websocket frame, carried opaquely; only the trusted sender below
/// builds one.
#[verifier::external_type_specification]
#[verifier::external_body]
pub struct ExMessage(warp::ws::Message);

/// warp's transport error, carried opaquely inside a queued frame.
#[verifier::external_type_specification]
#[verifier::external_body]
pub struct ExWarpError(warp::Error);

/// tokio's unbounded-channel send half, carried opaquely; its queue's
/// content is spoken of only through `enqueued`.
#[verifier::external_type_specification]
#[verifier::external_body]
#[verifier::reject_recursive_types(T)]
pub struct ExUnboundedSender<T>(tokio::sync::mpsc::UnboundedSender<T>);

/// The send half of one client's outbound queue. Each frame is a text or
/// binary payload on the way to that client's session endpoint.
pub type OutboundTx = tokio::sync::mpsc::UnboundedSender<Result<warp::ws::Message, warp::Error>>;

/// The payloads of the frames pushed through `tx` so far, oldest first.
pub uninterp spec fn enqueued(tx: OutboundTx) -> Seq<MsgView>;

/// Relies on tokio's `UnboundedSender::send`: it returns `Ok` exactly when
/// the frame was placed at the tail of the channel's queue, and `Err`,
/// enqueueing nothing, only when the receive half is gone. The frame is
/// built from the payload with warp's `Message::text` or `Message::binary`.
#[verifier::external_body]
pub(crate) fn send_msg(tx: &mut OutboundTx, m: &Msg) -> (ok: bool)
    ensures
        ok ==> enqueued(*final(tx)) == enqueued(*old(tx)).push(m@),
        !ok ==> enqueued(*final(tx)) == enqueued(*old(tx)),
{
    let frame = match m {
        Msg::Text(s) => warp::ws::Message::text(s.clone()),
        Msg::Binary(b) => warp::ws::Message::binary(b.clone()),
    };
    tx.send(Ok(frame)).is_ok()
}

} // verus!
