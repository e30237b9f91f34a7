//! The guarantees the chat core gives across calls, stated over the models
//! that the contracts use and proved once and for all.
use vstd::prelude::*;

use crate::message::{is_text_view, text_frames, MsgView};
use crate::registry::{
    delivered, distinct_ids, has_id, lemma_delivered_props, lemma_remove_id_props, remove_id,
    ClientView,
};

verus! {

/// Everything replayed to a new joiner is a text message: the history
/// holds text payloads only, so a binary message can never appear in a
/// later joiner's replay.
pub proof fn lemma_replay_text_only(h: Seq<Seq<char>>)
    ensures
        forall|i: int| 0 <= i < text_frames(h).len() ==> is_text_view(#[trigger] text_frames(h)[i]),
{
    assert forall|i: int| 0 <= i < text_frames(h).len() implies is_text_view(
        #[trigger] text_frames(h)[i],
    ) by {
        assert(text_frames(h)[i] == MsgView::Text(h[i]));
    }
}

/// If one client broadcasts `m1` and then `m2` with nothing in between,
/// every client still registered after the second pass holds both on its
/// queue, `m1` directly before `m2`: it observes them in the sender's
/// order.
pub proof fn lemma_sender_order(
    v0: Seq<ClientView>,
    v1: Seq<ClientView>,
    v2: Seq<ClientView>,
    m1: MsgView,
    m2: MsgView,
)
    requires
        delivered(v0, v1, m1),
        delivered(v1, v2, m2),
    ensures
        forall|j: int| 0 <= j < v2.len() ==> {
            let s = (#[trigger] v2[j]).sent;
            s.len() >= 2 && s[s.len() - 2] == m1 && s[s.len() - 1] == m2
        },
{
    lemma_delivered_props(v0, v1, m1);
    lemma_delivered_props(v1, v2, m2);
    assert forall|j: int| 0 <= j < v2.len() implies {
        let s = (#[trigger] v2[j]).sent;
        s.len() >= 2 && s[s.len() - 2] == m1 && s[s.len() - 1] == m2
    } by {
        let i1 = choose|i: int|
            0 <= i < v1.len() && v1[i].id == v2[j].id && v2[j].sent == v1[i].sent.push(m2);
        let i0 = choose|i: int|
            0 <= i < v0.len() && v0[i].id == v1[i1].id && v1[i1].sent == v0[i].sent.push(m1);
        assert(v2[j].sent == v0[i0].sent.push(m1).push(m2));
    }
}

/// One dead client never gets in the way: every client that survives a
/// fan-out pass received exactly the broadcast payload, whichever other
/// members were pruned in that same pass.
pub proof fn lemma_failure_isolation(pre: Seq<ClientView>, post: Seq<ClientView>, m: MsgView)
    requires
        delivered(pre, post, m),
    ensures
        forall|j: int| 0 <= j < post.len() ==> exists|i: int|
            0 <= i < pre.len() && pre[i].id == (#[trigger] post[j]).id && post[j].sent
                == pre[i].sent.push(m),
{
    lemma_delivered_props(pre, post, m);
}

/// A pruned client stays pruned: once a handle is out of the membership,
/// no later fan-out pass delivers to it or brings it back.
pub proof fn lemma_pruned_stays_out(
    pre: Seq<ClientView>,
    post: Seq<ClientView>,
    m: MsgView,
    b: u64,
)
    requires
        delivered(pre, post, m),
        !has_id(pre, b),
    ensures
        !has_id(post, b),
{
    lemma_delivered_props(pre, post, m);
}

/// Removing a handle that is not registered changes nothing.
pub proof fn lemma_remove_absent(s: Seq<ClientView>, h: u64)
    requires
        !has_id(s, h),
    ensures
        remove_id(s, h) == s,
    decreases s.len(),
{
    if s.len() == 0 {
        assert(remove_id(s, h) =~= s);
    } else {
        assert(s.last().id != h) by {
            assert(s[s.len() - 1] == s.last());
        }
        assert(!has_id(s.drop_last(), h)) by {
            if has_id(s.drop_last(), h) {
                let i = choose|i: int| 0 <= i < s.drop_last().len() && s.drop_last()[i].id == h;
                assert(s[i].id == h);
            }
        }
        lemma_remove_absent(s.drop_last(), h);
        assert(remove_id(s, h) =~= s);
    }
}

/// Deregistering twice is a no-op the second time: the first removal
/// already left no entry under the handle, so the second leaves the
/// membership exactly as it was.
pub proof fn lemma_deregister_idempotent(s: Seq<ClientView>, h: u64)
    ensures
        remove_id(remove_id(s, h), h) == remove_id(s, h),
{
    lemma_remove_id_props(s, h);
    lemma_remove_absent(remove_id(s, h), h);
}

/// Joins never collide: a well-formed membership, which every operation
/// preserves and `register` grows by exactly one fresh handle, holds no
/// two entries with one handle.
pub proof fn lemma_membership_distinct(r: crate::registry::Registry)
    requires
        r.wf(),
    ensures
        distinct_ids(r@),
{
    r.lemma_wf_distinct();
}

} // verus!
