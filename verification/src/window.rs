//! Rolling Window: a fixed-capacity sequence of recent samples with FIFO
//! eviction.  The length is set once at construction and never changes:
//! every push drops the oldest sample at the front and appends the new
//! one at the back.

use vstd::prelude::*;

verus! {

/// One push: the oldest sample leaves at the front, `v` enters at the back.
pub open spec fn push_one(w: Seq<u64>, v: u64) -> Seq<u64>
    recommends
        w.len() > 0,
{
    w.drop_first().push(v)
}

/// All of `vs` pushed in order, oldest first.
pub open spec fn push_all(w: Seq<u64>, vs: Seq<u64>) -> Seq<u64>
    decreases vs.len(),
{
    if vs.len() == 0 {
        w
    } else {
        push_all(push_one(w, vs[0]), vs.drop_first())
    }
}

/// Fixed-length FIFO buffer of recent samples for one metric.
pub struct RollingWindow {
    buf: Vec<u64>,
}

impl View for RollingWindow {
    type V = Seq<u64>;

    closed spec fn view(&self) -> Seq<u64> {
        self.buf@
    }
}

impl RollingWindow {
    /// A window of `cap` samples, pre-filled with zeroes.
    pub fn new(cap: usize) -> (w: RollingWindow)
        requires
            cap >= 1,
        ensures
            w@.len() == cap,
            forall|i: int| 0 <= i < cap ==> w@[i] == 0u64,
    {
        RollingWindow { buf: vec![0u64; cap] }
    }

    pub fn len(&self) -> (n: usize)
        ensures
            n == self@.len(),
    {
        self.buf.len()
    }

    /// Evicts the oldest sample and appends `v`; the length is unchanged.
    pub fn push(&mut self, v: u64)
        requires
            old(self)@.len() > 0,
        ensures
            final(self)@ == push_one(old(self)@, v),
            final(self)@.len() == old(self)@.len(),
    {
        self.buf.remove(0);
        self.buf.push(v);
        proof {
            assert(self.buf@ =~= push_one(old(self)@, v));
        }
    }

    /// A copy of the samples, oldest first.
    pub fn snapshot(&self) -> (r: Vec<u64>)
        ensures
            r@ == self@,
    {
        let mut r: Vec<u64> = Vec::new();
        let mut i: usize = 0;
        while i < self.buf.len()
            invariant
                0 <= i <= self.buf@.len(),
                r@ == self.buf@.subrange(0, i as int),
            decreases self.buf@.len() - i,
        {
            r.push(self.buf[i]);
            assert(self.buf@.subrange(0, i + 1 as int) =~= self.buf@.subrange(0, i as int).push(
                self.buf@[i as int],
            ));
            i = i + 1;
        }
        proof {
            assert(r@ =~= self@);
        }
        r
    }
}

/// Pushing never changes the window's length.
pub proof fn lemma_push_all_len(w: Seq<u64>, vs: Seq<u64>)
    requires
        w.len() > 0,
    ensures
        push_all(w, vs).len() == w.len(),
    decreases vs.len(),
{
    if vs.len() > 0 {
        lemma_push_all_len(push_one(w, vs[0]), vs.drop_first());
    }
}

/// After any sequence of pushes the window holds the tail of its earlier
/// contents followed by the pushed values: the last `w.len()` entries of
/// `w + vs`, in order.
pub proof fn lemma_push_all_window(w: Seq<u64>, vs: Seq<u64>)
    requires
        w.len() > 0,
    ensures
        push_all(w, vs) == (w + vs).subrange(vs.len() as int, (w.len() + vs.len()) as int),
    decreases vs.len(),
{
    if vs.len() == 0 {
        assert(push_all(w, vs) =~= (w + vs).subrange(0, w.len() as int));
    } else {
        let w2 = push_one(w, vs[0]);
        lemma_push_all_window(w2, vs.drop_first());
        assert(w2 + vs.drop_first() =~= (w + vs).subrange(1, (w.len() + vs.len()) as int));
        assert(push_all(w, vs) =~= (w + vs).subrange(
            vs.len() as int,
            (w.len() + vs.len()) as int,
        ));
    }
}

/// Once at least `w.len()` values were pushed, the window holds exactly
/// the last `w.len()` of them, in order.
pub proof fn lemma_window_holds_last(w: Seq<u64>, vs: Seq<u64>)
    requires
        w.len() > 0,
        vs.len() >= w.len(),
    ensures
        push_all(w, vs) == vs.subrange(vs.len() - w.len(), vs.len() as int),
{
    lemma_push_all_window(w, vs);
    assert((w + vs).subrange(vs.len() as int, (w.len() + vs.len()) as int) =~= vs.subrange(
        vs.len() - w.len(),
        vs.len() as int,
    ));
}

} // verus!
