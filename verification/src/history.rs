//! The history log: the ordered sequence of all text payloads broadcast so
//! far. It only ever grows, one payload per text broadcast, and is replayed
//! in full to every new joiner.
use vstd::prelude::*;

verus! {

/// Append-only log of the text payloads broadcast so far, oldest first.
pub struct History {
    items: Vec<String>,
}

impl View for History {
    type V = Seq<Seq<char>>;

    closed spec fn view(&self) -> Seq<Seq<char>> {
        self.items@.map(|i: int, s: String| s@)
    }
}

impl History {
    /// An empty log: the state at server start.
    pub fn new() -> (h: History)
        ensures
            h@ == Seq::<Seq<char>>::empty(),
    {
        let h = History { items: Vec::new() };
        proof {
            assert(h@ =~= Seq::<Seq<char>>::empty());
        }
        h
    }

    /// Appends one text payload at the end; never fails.
    pub fn append(&mut self, text: String)
        ensures
            final(self)@ == old(self)@.push(text@),
    {
        self.items.push(text);
        proof {
            assert(self@ =~= old(self)@.push(text@));
        }
    }

    /// Number of payloads recorded so far.
    pub fn len(&self) -> (n: usize)
        ensures
            n == self@.len(),
    {
        self.items.len()
    }

    /// A point-in-time copy of the whole log, oldest first, suitable for
    /// replay to a newly joined client.
    pub fn snapshot(&self) -> (r: Vec<String>)
        ensures
            r@.map(|i: int, s: String| s@) == self@,
    {
        let mut out: Vec<String> = Vec::new();
        let mut k: usize = 0;
        while k < self.items.len()
            invariant
                k <= self.items.len(),
                out@.len() == k,
                forall|i: int| 0 <= i < k ==> out@[i] == self.items@[i],
            decreases self.items.len() - k,
        {
            out.push(self.items[k].clone());
            k = k + 1;
        }
        proof {
            let m = out@.map(|i: int, s: String| s@);
            assert forall|i: int| 0 <= i < m.len() implies m[i] == self@[i] by {
                assert(out@[i] == self.items@[i]);
            }
            assert(m =~= self@);
        }
        out
    }
}

} // verus!
