//! The connection registry: the set of currently connected clients, each a
//! stable handle paired with the send half of its outbound queue, and the
//! fan-out engine that pushes one message to every member and prunes the
//! members whose delivery failed. Removal is by handle, never by position,
//! so a concurrent join cannot shift which entry a removal hits.
use vstd::prelude::*;

use crate::channel::{enqueued, send_msg, OutboundTx};
use crate::message::{Msg, MsgView};

verus! {

/// What one registry entry looks like from the outside: its handle and the
/// payloads pushed to its outbound queue so far, oldest first.
pub struct ClientView {
    pub id: u64,
    pub sent: Seq<MsgView>,
}

/// One connected client: its handle and the send half of its queue.
struct Client {
    id: u64,
    tx: OutboundTx,
}

impl View for Client {
    type V = ClientView;

    closed spec fn view(&self) -> ClientView {
        ClientView { id: self.id, sent: enqueued(self.tx) }
    }
}

/// The entries `cs`, each seen through its view.
spec fn views(cs: Seq<Client>) -> Seq<ClientView> {
    cs.map(|i: int, c: Client| c@)
}

/// Whether some entry of `s` carries the handle `h`.
pub open spec fn has_id(s: Seq<ClientView>, h: u64) -> bool {
    exists|i: int| 0 <= i < s.len() && (#[trigger] s[i]).id == h
}

/// Whether no two entries of `s` share a handle.
pub open spec fn distinct_ids(s: Seq<ClientView>) -> bool {
    forall|i: int, j: int| 0 <= i < j < s.len() ==> s[i].id != s[j].id
}

/// Whether every handle in `s` is below `n`.
pub open spec fn id_bound(s: Seq<ClientView>, n: u64) -> bool {
    forall|i: int| 0 <= i < s.len() ==> (#[trigger] s[i]).id < n
}

/// `s` without every entry that carries the handle `h`, in order.
pub open spec fn remove_id(s: Seq<ClientView>, h: u64) -> Seq<ClientView>
    decreases s.len(),
{
    if s.len() == 0 {
        Seq::empty()
    } else if s.last().id != h {
        remove_id(s.drop_last(), h).push(s.last())
    } else {
        remove_id(s.drop_last(), h)
    }
}

/// How one fan-out pass changes the registry: each entry of `pre` is, in
/// order, either kept with the payload `m` pushed onto its queue or
/// dropped; `post` is what is left.
pub open spec fn delivered(pre: Seq<ClientView>, post: Seq<ClientView>, m: MsgView) -> bool
    decreases pre.len(),
{
    if pre.len() == 0 {
        post.len() == 0
    } else {
        ||| (post.len() > 0 && post.last().id == pre.last().id && post.last().sent
            == pre.last().sent.push(m) && delivered(pre.drop_last(), post.drop_last(), m))
        ||| delivered(pre.drop_last(), post, m)
    }
}

/// After removal by handle, no entry carries that handle, every entry was
/// an entry before, the other entries are untouched, and distinctness and
/// any handle bound carry over.
pub proof fn lemma_remove_id_props(s: Seq<ClientView>, h: u64)
    ensures
        remove_id(s, h).len() <= s.len(),
        !has_id(remove_id(s, h), h),
        forall|j: int| 0 <= j < remove_id(s, h).len() ==> exists|i: int|
            0 <= i < s.len() && s[i] == #[trigger] remove_id(s, h)[j],
        forall|b: u64| #[trigger] has_id(remove_id(s, h), b) ==> has_id(s, b),
        distinct_ids(s) ==> distinct_ids(remove_id(s, h)),
        forall|n: u64| id_bound(s, n) ==> #[trigger] id_bound(remove_id(s, h), n),
    decreases s.len(),
{
    if s.len() == 0 {
    } else {
        lemma_remove_id_props(s.drop_last(), h);
        let r = remove_id(s, h);
        let rd = remove_id(s.drop_last(), h);
        assert forall|j: int| 0 <= j < r.len() implies exists|i: int|
            0 <= i < s.len() && s[i] == #[trigger] r[j] by {
            if s.last().id != h && j == r.len() - 1 {
                assert(s[s.len() - 1] == r[j]);
            } else {
                let i0 = choose|i: int| 0 <= i < s.drop_last().len() && s.drop_last()[i] == rd[j];
                assert(s[i0] == r[j]);
            }
        }
        assert forall|b: u64| #[trigger] has_id(r, b) implies has_id(s, b) by {
            let j = choose|j: int| 0 <= j < r.len() && r[j].id == b;
            let i = choose|i: int| 0 <= i < s.len() && s[i] == r[j];
            assert(s[i].id == b);
        }
        if distinct_ids(s) {
            assert(distinct_ids(s.drop_last())) by {
                assert forall|i: int, j: int|
                    0 <= i < j < s.drop_last().len() implies s.drop_last()[i].id
                    != s.drop_last()[j].id by {
                    assert(s[i].id != s[j].id);
                }
            }
            if s.last().id != h {
                assert forall|i: int, j: int| 0 <= i < j < r.len() implies r[i].id != r[j].id by {
                    if j < r.len() - 1 {
                        assert(rd[i].id != rd[j].id);
                    } else {
                        let i0 = choose|i0: int|
                            0 <= i0 < s.drop_last().len() && s.drop_last()[i0] == rd[i];
                        assert(s[i0].id == r[i].id);
                        assert(s[i0].id != s[s.len() - 1].id);
                    }
                }
            }
        }
        assert forall|n: u64| id_bound(s, n) implies #[trigger] id_bound(r, n) by {
            assert(id_bound(s.drop_last(), n)) by {
                assert forall|i: int| 0 <= i < s.drop_last().len() implies (#[trigger] s.drop_last()[i]).id < n by {
                    assert(s[i].id < n);
                }
            }
            if s.last().id != h {
                assert forall|i: int| 0 <= i < r.len() implies (#[trigger] r[i]).id < n by {
                    if i < r.len() - 1 {
                        assert(rd[i].id < n);
                    } else {
                        assert(s[s.len() - 1].id < n);
                    }
                }
            }
        }
    }
}

/// After a fan-out pass, every surviving entry is a former entry with
/// exactly the broadcast payload pushed onto its queue, no handle appears
/// that was not there before, and distinctness and any handle bound carry
/// over.
pub proof fn lemma_delivered_props(pre: Seq<ClientView>, post: Seq<ClientView>, m: MsgView)
    requires
        delivered(pre, post, m),
    ensures
        post.len() <= pre.len(),
        forall|j: int| 0 <= j < post.len() ==> exists|i: int|
            0 <= i < pre.len() && pre[i].id == (#[trigger] post[j]).id && post[j].sent == pre[i].sent.push(
                m,
            ),
        forall|b: u64| #[trigger] has_id(post, b) ==> has_id(pre, b),
        distinct_ids(pre) ==> distinct_ids(post),
        forall|n: u64| id_bound(pre, n) ==> #[trigger] id_bound(post, n),
    decreases pre.len(),
{
    if pre.len() == 0 {
    } else {
        let kept = post.len() > 0 && post.last().id == pre.last().id && post.last().sent
            == pre.last().sent.push(m) && delivered(pre.drop_last(), post.drop_last(), m);
        if kept {
            lemma_delivered_props(pre.drop_last(), post.drop_last(), m);
            let pd = pre.drop_last();
            let qd = post.drop_last();
            assert forall|j: int| 0 <= j < post.len() implies exists|i: int|
                0 <= i < pre.len() && pre[i].id == (#[trigger] post[j]).id && post[j].sent == pre[i].sent.push(m) by {
                if j == post.len() - 1 {
                    assert(pre[pre.len() - 1].id == post[j].id && post[j].sent == pre[pre.len()
                        - 1].sent.push(m));
                } else {
                    let i0 = choose|i: int|
                        0 <= i < pd.len() && pd[i].id == qd[j].id && qd[j].sent == pd[i].sent.push(
                            m,
                        );
                    assert(pre[i0].id == post[j].id && post[j].sent == pre[i0].sent.push(m));
                }
            }
            assert forall|b: u64| #[trigger] has_id(post, b) implies has_id(pre, b) by {
                let j = choose|j: int| 0 <= j < post.len() && post[j].id == b;
                let i = choose|i: int|
                    0 <= i < pre.len() && pre[i].id == post[j].id && post[j].sent == pre[i].sent.push(m);
                assert(pre[i].id == b);
            }
            if distinct_ids(pre) {
                assert(distinct_ids(pd)) by {
                    assert forall|i: int, j: int| 0 <= i < j < pd.len() implies pd[i].id
                        != pd[j].id by {
                        assert(pre[i].id != pre[j].id);
                    }
                }
                assert forall|i: int, j: int| 0 <= i < j < post.len() implies post[i].id != post[j].id by {
                    if j < post.len() - 1 {
                        assert(qd[i].id != qd[j].id);
                    } else {
                        let i0 = choose|i0: int|
                            0 <= i0 < pd.len() && pd[i0].id == qd[i].id && qd[i].sent == pd[i0].sent.push(m);
                        assert(pre[i0].id == post[i].id);
                        assert(pre[i0].id != pre[pre.len() - 1].id);
                    }
                }
            }
            assert forall|n: u64| id_bound(pre, n) implies #[trigger] id_bound(post, n) by {
                assert(id_bound(pd, n)) by {
                    assert forall|i: int| 0 <= i < pd.len() implies (#[trigger] pd[i]).id < n by {
                        assert(pre[i].id < n);
                    }
                }
                assert forall|i: int| 0 <= i < post.len() implies (#[trigger] post[i]).id < n by {
                    if i < post.len() - 1 {
                        assert(qd[i].id < n);
                    } else {
                        assert(pre[pre.len() - 1].id < n);
                    }
                }
            }
        } else {
            assert(delivered(pre.drop_last(), post, m));
            lemma_delivered_props(pre.drop_last(), post, m);
            let pd = pre.drop_last();
            assert forall|j: int| 0 <= j < post.len() implies exists|i: int|
                0 <= i < pre.len() && pre[i].id == (#[trigger] post[j]).id && post[j].sent == pre[i].sent.push(m) by {
                let i0 = choose|i: int|
                    0 <= i < pd.len() && pd[i].id == post[j].id && post[j].sent == pd[i].sent.push(
                        m,
                    );
                assert(pre[i0].id == post[j].id && post[j].sent == pre[i0].sent.push(m));
            }
            assert forall|b: u64| #[trigger] has_id(post, b) implies has_id(pre, b) by {
                let j = choose|j: int| 0 <= j < post.len() && post[j].id == b;
                let i = choose|i: int|
                    0 <= i < pre.len() && pre[i].id == post[j].id && post[j].sent == pre[i].sent.push(m);
                assert(pre[i].id == b);
            }
            if distinct_ids(pre) {
                assert(distinct_ids(pd)) by {
                    assert forall|i: int, j: int| 0 <= i < j < pd.len() implies pd[i].id
                        != pd[j].id by {
                        assert(pre[i].id != pre[j].id);
                    }
                }
            }
            assert forall|n: u64| id_bound(pre, n) implies #[trigger] id_bound(post, n) by {
                assert(id_bound(pd, n)) by {
                    assert forall|i: int| 0 <= i < pd.len() implies (#[trigger] pd[i]).id < n by {
                        assert(pre[i].id < n);
                    }
                }
            }
        }
    }
}

/// The currently connected clients, each under a stable handle, with the
/// send half of each one's outbound queue. Handles are never reused.
pub struct Registry {
    clients: Vec<Client>,
    next_id: u64,
}

impl View for Registry {
    type V = Seq<ClientView>;

    closed spec fn view(&self) -> Seq<ClientView> {
        views(self.clients@)
    }
}

impl Registry {
    /// Every handle is distinct and below the handle counter.
    pub closed spec fn wf(self) -> bool {
        distinct_ids(self@) && id_bound(self@, self.next_id)
    }

    /// Whether a fresh handle is still available.
    pub closed spec fn can_register(self) -> bool {
        self.next_id < u64::MAX
    }

    /// A well-formed registry never holds two entries with one handle.
    pub proof fn lemma_wf_distinct(self)
        requires
            self.wf(),
        ensures
            distinct_ids(self@),
    {
    }

    /// An empty registry: the state at server start.
    pub fn new() -> (r: Registry)
        ensures
            r@ == Seq::<ClientView>::empty(),
            r.wf(),
            r.can_register(),
    {
        let r = Registry { clients: Vec::new(), next_id: 0 };
        proof {
            assert(r@ =~= Seq::<ClientView>::empty());
        }
        r
    }

    /// Number of connected clients.
    pub fn len(&self) -> (n: usize)
        ensures
            n == self@.len(),
    {
        self.clients.len()
    }

    /// Whether a fresh handle is still available; `register` asks for it.
    pub fn has_capacity(&self) -> (b: bool)
        ensures
            b == self.can_register(),
    {
        self.next_id < u64::MAX
    }

    /// Whether the handle `h` is currently registered.
    pub fn contains(&self, h: u64) -> (b: bool)
        ensures
            b == has_id(self@, h),
    {
        let mut k: usize = 0;
        while k < self.clients.len()
            invariant
                k <= self.clients@.len(),
                self@.len() == self.clients@.len(),
                forall|j: int| 0 <= j < k ==> (#[trigger] self@[j]).id != h,
            decreases self.clients@.len() - k,
        {
            if self.clients[k].id == h {
                proof {
                    assert(self@[k as int].id == h);
                }
                return true;
            }
            k = k + 1;
        }
        false
    }

    /// Adds a new client with its outbound queue at the end of the
    /// membership and hands back its fresh handle; always succeeds while a
    /// handle is available.
    pub fn register(&mut self, tx: OutboundTx) -> (h: u64)
        requires
            old(self).wf(),
            old(self).can_register(),
        ensures
            final(self).wf(),
            !has_id(old(self)@, h),
            final(self)@ == old(self)@.push((ClientView { id: h, sent: enqueued(tx) })),
    {
        let h = self.next_id;
        self.next_id = self.next_id + 1;
        self.clients.push(Client { id: h, tx });
        proof {
            assert(self@ =~= old(self)@.push((ClientView { id: h, sent: self@[self@.len() - 1].sent })));
            assert(self@[self@.len() - 1].sent == enqueued(self.clients@.last().tx));
            assert(self@ =~= old(self)@.push((ClientView { id: h, sent: enqueued(tx) })));
            assert(!has_id(old(self)@, h)) by {
                if has_id(old(self)@, h) {
                    let i = choose|i: int| 0 <= i < old(self)@.len() && old(self)@[i].id == h;
                    assert(old(self)@[i].id < h);
                }
            }
            assert forall|i: int, j: int| 0 <= i < j < self@.len() implies self@[i].id != self@[j].id by {
                if j < self@.len() - 1 {
                    assert(old(self)@[i].id != old(self)@[j].id);
                } else {
                    assert(old(self)@[i].id < h);
                }
            }
            assert forall|i: int| 0 <= i < self@.len() implies (#[trigger] self@[i]).id
                < self.next_id by {
                if i < self@.len() - 1 {
                    assert(old(self)@[i].id < old(self).next_id);
                }
            }
        }
        h
    }

    /// Removes the client under handle `h` if it is present; removing an
    /// absent handle changes nothing, and no other entry is touched.
    pub fn deregister(&mut self, h: u64)
        requires
            old(self).wf(),
        ensures
            final(self).wf(),
            final(self)@ == remove_id(old(self)@, h),
    {
        let ghost orig = self.clients@;
        let mut kept: Vec<Client> = Vec::new();
        proof {
            assert(views(orig.take(0)) =~= Seq::<ClientView>::empty());
            assert(views(kept@) =~= Seq::<ClientView>::empty());
        }
        while self.clients.len() > 0
            invariant
                orig == old(self).clients@,
                self.next_id == old(self).next_id,
                self.clients@.len() <= orig.len(),
                self.clients@ == orig.skip(orig.len() - self.clients@.len()),
                views(kept@) == remove_id(views(orig.take(orig.len() - self.clients@.len())), h),
            decreases self.clients@.len(),
        {
            let ghost k = orig.len() - self.clients@.len();
            let c = self.clients.remove(0);
            proof {
                assert(c == orig[k]);
                assert(self.clients@ =~= orig.skip(k + 1));
                let vt = views(orig.take(k + 1));
                assert(vt.drop_last() =~= views(orig.take(k)));
                assert(vt.last() == orig[k]@);
            }
            if c.id != h {
                proof {
                    let vt = views(orig.take(k + 1));
                    assert(vt.last().id != h);
                    assert(remove_id(vt, h) == remove_id(views(orig.take(k)), h).push(orig[k]@));
                }
                kept.push(c);
                proof {
                    assert(views(kept@) =~= remove_id(
                        views(orig.take(k)),
                        h,
                    ).push(orig[k]@));
                }
            } else {
                proof {
                    let vt = views(orig.take(k + 1));
                    assert(remove_id(vt, h) == remove_id(views(orig.take(k)), h));
                }
            }
        }
        proof {
            assert(orig.take(orig.len() - self.clients@.len()) =~= orig);
        }
        self.clients = kept;
        proof {
            assert(old(self)@ == views(orig));
            lemma_remove_id_props(views(orig), h);
        }
    }

    /// One fan-out pass: pushes a copy of `m` onto every member's outbound
    /// queue, in membership order, and drops exactly the members whose
    /// queue no longer accepts frames. One dead member never stops
    /// delivery to the rest.
    pub fn deliver(&mut self, m: &Msg)
        requires
            old(self).wf(),
        ensures
            final(self).wf(),
            delivered(old(self)@, final(self)@, m@),
    {
        let ghost orig = self.clients@;
        let mut kept: Vec<Client> = Vec::new();
        proof {
            assert(views(orig.take(0)) =~= Seq::<ClientView>::empty());
            assert(views(kept@) =~= Seq::<ClientView>::empty());
        }
        while self.clients.len() > 0
            invariant
                orig == old(self).clients@,
                self.next_id == old(self).next_id,
                self.clients@.len() <= orig.len(),
                self.clients@ == orig.skip(orig.len() - self.clients@.len()),
                delivered(views(orig.take(orig.len() - self.clients@.len())), views(kept@), m@),
            decreases self.clients@.len(),
        {
            let ghost k = orig.len() - self.clients@.len();
            let c = self.clients.remove(0);
            proof {
                assert(c == orig[k]);
                assert(self.clients@ =~= orig.skip(k + 1));
                let vt = views(orig.take(k + 1));
                assert(vt.drop_last() =~= views(orig.take(k)));
                assert(vt.last() == orig[k]@);
            }
            let Client { id, tx } = c;
            let mut tx = tx;
            let ghost pre_sent = enqueued(tx);
            proof {
                assert(pre_sent == orig[k]@.sent);
            }
            let ok = send_msg(&mut tx, m);
            if ok {
                let ghost kept0 = kept@;
                kept.push(Client { id, tx });
                proof {
                    let vt = views(orig.take(k + 1));
                    assert(vt.len() == k + 1);
                    assert(kept@.drop_last() =~= kept0);
                    assert(views(kept@).drop_last() =~= views(kept0));
                    assert(views(kept@).last() == (ClientView { id, sent: pre_sent.push(m@) }));
                    assert(views(kept@).last().id == vt.last().id);
                    assert(views(kept@).last().sent == vt.last().sent.push(m@));
                    assert(delivered(vt.drop_last(), views(kept@).drop_last(), m@));
                    assert(delivered(vt, views(kept@), m@));
                }
            } else {
                proof {
                    let vt = views(orig.take(k + 1));
                    assert(delivered(vt, views(kept@), m@));
                }
            }
        }
        proof {
            assert(orig.take(orig.len() - self.clients@.len()) =~= orig);
        }
        self.clients = kept;
        proof {
            assert(old(self)@ == views(orig));
            lemma_delivered_props(old(self)@, self@, m@);
        }
    }
}

} // verus!
