//! The server facade and the per-connection handler's state machine. A
//! join registers the client's outbound queue and replays the history into
//! it before any live traffic; a broadcast appends a text payload to the
//! history exactly once and fans the message out to every member, pruning
//! the dead ones; a leave removes the client by handle. The unverified
//! transport loop drives `on_event` with what it read from the session.
use vstd::prelude::*;

use crate::channel::{enqueued, send_msg, OutboundTx};
use crate::history::History;
use crate::message::{is_text_view, text_frames, text_of, Msg, MsgView};
use crate::registry::{delivered, has_id, remove_id, ClientView, Registry};

verus! {

/// The shared state of the chat server: membership and the text history.
pub struct ChatServer {
    pub registry: Registry,
    pub history: History,
}

/// Where one connection stands after its join: still relaying inbound
/// frames, or gone for good.
#[derive(Clone, Copy, PartialEq, Eq, Structural, Debug)]
pub enum HandlerState {
    Relaying,
    Disconnected,
}

/// What one turn of the receive loop handed the handler: an inbound frame,
/// or the end of the session (a receive error or a clean close).
pub enum SessionEvent {
    Frame(Msg),
    Closed,
}

/// Whether the handler is still relaying.
pub open spec fn relaying(s: HandlerState) -> bool {
    match s {
        HandlerState::Relaying => true,
        HandlerState::Disconnected => false,
    }
}

/// Whether the event carries an inbound frame.
pub open spec fn is_frame(ev: SessionEvent) -> bool {
    match ev {
        SessionEvent::Frame(_) => true,
        SessionEvent::Closed => false,
    }
}

/// The model of the event's frame; a placeholder for a closed session.
pub open spec fn frame_of(ev: SessionEvent) -> MsgView {
    match ev {
        SessionEvent::Frame(m) => m@,
        SessionEvent::Closed => MsgView::Binary(Seq::empty()),
    }
}

impl ChatServer {
    /// A server with no clients and an empty history.
    pub fn new() -> (s: ChatServer)
        ensures
            s.registry@ == Seq::<ClientView>::empty(),
            s.history@ == Seq::<Seq<char>>::empty(),
            s.registry.wf(),
            s.registry.can_register(),
    {
        ChatServer { registry: Registry::new(), history: History::new() }
    }

    /// A join: replays the history into the new client's queue, oldest
    /// first, then registers the queue under a fresh handle. The replay is
    /// prefix-exact: the queue receives the first `r.1` history entries in
    /// order, all of them unless the queue's receive half is already gone,
    /// and nothing else. Returns the handle and the replayed count.
    pub fn join(&mut self, tx: OutboundTx) -> (r: (u64, usize))
        requires
            old(self).registry.wf(),
            old(self).registry.can_register(),
        ensures
            final(self).registry.wf(),
            final(self).history@ == old(self).history@,
            r.1 <= old(self).history@.len(),
            !has_id(old(self).registry@, r.0),
            final(self).registry@ == old(self).registry@.push(
                (ClientView {
                    id: r.0,
                    sent: enqueued(tx) + text_frames(old(self).history@).take(r.1 as int),
                }),
            ),
    {
        let ghost enq0 = enqueued(tx);
        let ghost hist0 = self.history@;
        let snap = self.history.snapshot();
        let mut tx = tx;
        let mut k: usize = 0;
        let mut failed = false;
        proof {
            assert(enqueued(tx) =~= enq0 + text_frames(hist0).take(0));
        }
        while k < snap.len() && !failed
            invariant
                hist0 == old(self).history@,
                snap@.map(|i: int, s: String| s@) == hist0,
                k <= snap@.len(),
                enqueued(tx) == enq0 + text_frames(hist0).take(k as int),
            decreases snap@.len() - k + (if failed { 0int } else { 1int }),
        {
            let msg = Msg::Text(snap[k].clone());
            proof {
                assert(snap@.map(|i: int, s: String| s@)[k as int] == hist0[k as int]);
                assert(msg@ == MsgView::Text(hist0[k as int]));
                assert(text_frames(hist0)[k as int] == MsgView::Text(hist0[k as int]));
            }
            let ok = send_msg(&mut tx, &msg);
            if ok {
                k = k + 1;
                proof {
                    assert(text_frames(hist0).take(k as int) =~= text_frames(hist0).take(
                        k as int - 1,
                    ).push(text_frames(hist0)[k as int - 1]));
                    assert(enqueued(tx) =~= enq0 + text_frames(hist0).take(k as int));
                }
            } else {
                failed = true;
            }
        }
        let h = self.registry.register(tx);
        (h, k)
    }

    /// The broadcast engine: a text payload goes to the history exactly
    /// once, before the fan-out; then the message is pushed to every
    /// member's queue and the members whose queue no longer accepts frames
    /// are pruned. A binary message is fanned out the same way but never
    /// recorded.
    pub fn broadcast(&mut self, m: &Msg)
        requires
            old(self).registry.wf(),
        ensures
            final(self).registry.wf(),
            delivered(old(self).registry@, final(self).registry@, m@),
            is_text_view(m@) ==> final(self).history@ == old(self).history@.push(text_of(m@)),
            !is_text_view(m@) ==> final(self).history@ == old(self).history@,
    {
        match m {
            Msg::Text(s) => {
                self.history.append(s.clone());
            },
            Msg::Binary(_) => {},
        }
        self.registry.deliver(m);
    }

    /// An explicit leave: removes the client by handle; removing a handle
    /// that a failed delivery already pruned is a no-op.
    pub fn leave(&mut self, h: u64)
        requires
            old(self).registry.wf(),
        ensures
            final(self).registry.wf(),
            final(self).registry@ == remove_id(old(self).registry@, h),
            final(self).history@ == old(self).history@,
    {
        self.registry.deregister(h);
    }

    /// One step of the connection handler under handle `h`: while relaying,
    /// an inbound frame is broadcast and the handler keeps relaying, and
    /// the end of the session deregisters the client, terminally; a
    /// disconnected handler changes nothing.
    pub fn on_event(&mut self, h: u64, state: HandlerState, ev: SessionEvent) -> (next:
        HandlerState)
        requires
            old(self).registry.wf(),
        ensures
            final(self).registry.wf(),
            relaying(state) && is_frame(ev) ==> {
                &&& relaying(next)
                &&& delivered(old(self).registry@, final(self).registry@, frame_of(ev))
                &&& (is_text_view(frame_of(ev)) ==> final(self).history@ == old(
                    self,
                ).history@.push(text_of(frame_of(ev))))
                &&& (!is_text_view(frame_of(ev)) ==> final(self).history@ == old(self).history@)
            },
            relaying(state) && !is_frame(ev) ==> {
                &&& !relaying(next)
                &&& final(self).registry@ == remove_id(old(self).registry@, h)
                &&& final(self).history@ == old(self).history@
            },
            !relaying(state) ==> {
                &&& !relaying(next)
                &&& final(self).registry@ == old(self).registry@
                &&& final(self).history@ == old(self).history@
            },
    {
        match state {
            HandlerState::Relaying => match ev {
                SessionEvent::Frame(m) => {
                    self.broadcast(&m);
                    HandlerState::Relaying
                },
                SessionEvent::Closed => {
                    self.leave(h);
                    HandlerState::Disconnected
                },
            },
            HandlerState::Disconnected => HandlerState::Disconnected,
        }
    }
}

} // verus!
