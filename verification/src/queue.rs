use vstd::prelude::*;

verus! {

/// The abstract state of the challenge queue: how many challengers hold a
/// slot, who waits for one (oldest first) and how many slots there are.
pub struct QueueView {
    pub working: nat,
    pub waiting: Seq<u64>,
    pub max_working: nat,
}

impl QueueView {
    /// A challenger asks for a slot. With a free slot it takes it (no position);
    /// otherwise it joins the end of the line and learns its 1-based position.
    pub open spec fn enqueue(self, waiter: u64) -> (QueueView, Option<nat>) {
        if self.working < self.max_working {
            (QueueView { working: self.working + 1, ..self }, None)
        } else {
            (QueueView { waiting: self.waiting.push(waiter), ..self }, Some(self.waiting.len() + 1))
        }
    }

    /// A challenger gives its slot back. With nobody waiting the slot becomes
    /// free; otherwise the oldest waiter takes it over.
    pub open spec fn dequeue(self) -> QueueView {
        if self.waiting.len() == 0 {
            QueueView { working: (self.working - 1) as nat, ..self }
        } else {
            QueueView { waiting: self.waiting.drop_first(), ..self }
        }
    }

    /// What the waiters are told when a slot is given back: the `j`-th oldest
    /// waiter is told `j`, so the oldest one hears 0 (its turn has come) and
    /// every other one hears how many are now ahead of it plus one.
    pub open spec fn dequeue_notices(self) -> Seq<(u64, nat)> {
        Seq::new(self.waiting.len(), |j: int| (self.waiting[j], j as nat))
    }

    /// A slot can be given back only when one is taken or somebody waits.
    pub open spec fn can_dequeue(self) -> bool {
        self.working > 0 || self.waiting.len() > 0
    }

    /// Never more slots taken than exist, and nobody waits while a slot is free.
    pub open spec fn wf(self) -> bool {
        &&& self.working <= self.max_working
        &&& self.waiting.len() > 0 ==> self.working == self.max_working
    }

    /// Challengers that hold a slot or wait for one.
    pub open spec fn occupancy(self) -> nat {
        self.working + self.waiting.len()
    }
}

/// The queue of challengers: a bounded number of them work at a time, the
/// others wait in arrival order. A waiter is named by an identifier that the
/// caller chooses (the connection it stands for).
pub struct ChallQueue {
    working: usize,
    waited: Vec<u64>,
    max_working: usize,
}

impl View for ChallQueue {
    type V = QueueView;

    closed spec fn view(&self) -> QueueView {
        QueueView { working: self.working as nat, waiting: self.waited@, max_working: self.max_working as nat }
    }
}

impl ChallQueue {
    /// An empty queue with `max` slots.
    pub fn new(max: usize) -> (q: ChallQueue)
        ensures
            q@ == (QueueView { working: 0, waiting: Seq::empty(), max_working: max as nat }),
    {
        ChallQueue { working: 0, waited: Vec::new(), max_working: max }
    }

    /// Asks for a slot on behalf of `waiter`. Returns `None` when a slot was
    /// free and is now taken, or the waiter's 1-based position in the line.
    pub fn queue_in(&mut self, waiter: u64) -> (position: Option<u64>)
        requires
            old(self)@.waiting.len() < u64::MAX,
        ensures
            final(self)@ == old(self)@.enqueue(waiter).0,
            position is None <==> old(self)@.enqueue(waiter).1 is None,
            position matches Some(p) ==> old(self)@.enqueue(waiter).1 == Some(p as nat),
    {
        if self.working < self.max_working {
            self.working = self.working + 1;
            None
        } else {
            let position = self.waited.len() as u64 + 1;
            self.waited.push(waiter);
            Some(position)
        }
    }

    /// Gives a slot back. Returns the notices to deliver, each a waiter and
    /// what it is told: 0 to the waiter that now takes the slot, and to each
    /// other waiter its new position in the line.
    pub fn queue_out(&mut self) -> (notices: Vec<(u64, u64)>)
        requires
            old(self)@.can_dequeue(),
        ensures
            final(self)@ == old(self)@.dequeue(),
            notices@.len() == old(self)@.dequeue_notices().len(),
            forall|j: int|
                0 <= j < notices@.len() ==> (#[trigger] notices@[j]).0 == old(self)@.dequeue_notices()[j].0
                    && notices@[j].1 == old(self)@.dequeue_notices()[j].1,
    {
        let mut notices: Vec<(u64, u64)> = Vec::new();
        if self.waited.len() == 0 {
            self.working = self.working - 1;
        } else {
            let ghost before = self.waited@;
            let first = self.waited.remove(0);
            notices.push((first, 0));
            let n = self.waited.len();
            let mut i: usize = 0;
            while i < n
                invariant
                    n == self.waited@.len(),
                    self.waited@ == before.drop_first(),
                    before.len() == n + 1,
                    0 <= i <= n,
                    notices@.len() == i + 1,
                    forall|j: int|
                        0 <= j <= i ==> (#[trigger] notices@[j]).0 == before[j] && notices@[j].1 == j,
                decreases n - i,
            {
                notices.push((self.waited[i], (i + 1) as u64));
                i = i + 1;
            }
        }
        notices
    }

    /// Slots taken.
    pub fn working(&self) -> (n: usize)
        ensures
            n == self@.working,
    {
        self.working
    }

    /// Challengers waiting for a slot.
    pub fn waiting(&self) -> (n: usize)
        ensures
            n == self@.waiting.len(),
    {
        self.waited.len()
    }

    /// Whether a slot can be given back (one is taken or somebody waits).
    pub fn can_queue_out(&self) -> (b: bool)
        ensures
            b == self@.can_dequeue(),
    {
        self.working > 0 || self.waited.len() > 0
    }
}

/// A new queue is well formed, and asking for and giving back slots keeps it so:
/// never more slots taken than exist, and nobody waits while a slot is free.
pub proof fn lemma_queue_stays_well_formed(q: QueueView, waiter: u64, max: nat)
    ensures
        (QueueView { working: 0, waiting: Seq::empty(), max_working: max }).wf(),
        q.wf() ==> q.enqueue(waiter).0.wf(),
        q.wf() && q.can_dequeue() ==> q.dequeue().wf(),
{
}

/// Asking for a slot adds one challenger; giving one back removes one.
pub proof fn lemma_queue_occupancy(q: QueueView, waiter: u64)
    ensures
        q.enqueue(waiter).0.occupancy() == q.occupancy() + 1,
        q.can_dequeue() ==> q.dequeue().occupancy() + 1 == q.occupancy(),
        q.enqueue(waiter).0.max_working == q.max_working,
        q.dequeue().max_working == q.max_working,
{
}

/// With nobody waiting, asking for a slot and then giving one back leaves the
/// queue as it was; when the challenger had to wait, it is the one told that
/// its turn has come.
pub proof fn lemma_queue_round_trip(q: QueueView, waiter: u64)
    requires
        q.wf(),
        q.waiting.len() == 0,
    ensures
        q.enqueue(waiter).0.dequeue() == q,
        q.enqueue(waiter).1 is Some ==> q.enqueue(waiter).0.dequeue_notices() == seq![(waiter, 0nat)],
{
    let after = q.enqueue(waiter).0;
    if q.working < q.max_working {
        assert(after.dequeue() =~= q);
    } else {
        assert(after.waiting =~= seq![waiter]);
        assert(after.dequeue().waiting =~= q.waiting);
        assert(after.dequeue_notices() =~= seq![(waiter, 0nat)]);
    }
}

/// Waiters are served in arrival order: a waiter that joins learns the
/// position it now holds, and when a slot is given back the oldest waiter is
/// told its turn has come while every other waiter is told its new position.
pub proof fn lemma_queue_first_in_first_out(q: QueueView, waiter: u64)
    ensures
        q.enqueue(waiter).1 matches Some(p) ==> q.enqueue(waiter).0.waiting[p - 1] == waiter
            && p == q.enqueue(waiter).0.waiting.len(),
        q.waiting.len() > 0 ==> q.dequeue_notices()[0] == (q.waiting[0], 0nat),
        forall|j: int|
            0 <= j < q.dequeue().waiting.len() && q.waiting.len() > 0 ==> q.dequeue_notices()[j + 1] == (
            #[trigger] q.dequeue().waiting[j], (j + 1) as nat),
{
}

/// A call on the queue, in a run of calls: a challenger asks for a slot on
/// behalf of a waiter, or a slot is given back.
pub enum QueueOp {
    In(u64),
    Out,
}

/// The queue after one call.
pub open spec fn queue_step(q: QueueView, op: QueueOp) -> QueueView {
    match op {
        QueueOp::In(w) => q.enqueue(w).0,
        QueueOp::Out => q.dequeue(),
    }
}

/// The queue after a run of calls, the first call first.
pub open spec fn queue_run(q: QueueView, ops: Seq<QueueOp>) -> QueueView
    decreases ops.len(),
{
    if ops.len() == 0 {
        q
    } else {
        queue_step(queue_run(q, ops.drop_last()), ops.last())
    }
}

/// How many requests for a slot a run holds.
pub open spec fn count_ins(ops: Seq<QueueOp>) -> nat
    decreases ops.len(),
{
    if ops.len() == 0 {
        0
    } else {
        count_ins(ops.drop_last()) + if ops.last() is In { 1nat } else { 0nat }
    }
}

/// How many slots a run gives back.
pub open spec fn count_outs(ops: Seq<QueueOp>) -> nat
    decreases ops.len(),
{
    if ops.len() == 0 {
        0
    } else {
        count_outs(ops.drop_last()) + if ops.last() is Out { 1nat } else { 0nat }
    }
}

/// Every slot given back in the run was preceded by more requests than
/// slots given back (each challenger leaves after it came).
pub open spec fn outs_covered(ops: Seq<QueueOp>) -> bool
    decreases ops.len(),
{
    if ops.len() == 0 {
        true
    } else {
        outs_covered(ops.drop_last()) && (ops.last() is Out ==> count_ins(ops.drop_last()) > count_outs(
            ops.drop_last(),
        ))
    }
}

/// The waiters that joined the line during a run, in the order they joined.
pub open spec fn joined_line(q: QueueView, ops: Seq<QueueOp>) -> Seq<u64>
    decreases ops.len(),
{
    if ops.len() == 0 {
        Seq::empty()
    } else {
        let before = queue_run(q, ops.drop_last());
        let earlier = joined_line(q, ops.drop_last());
        match ops.last() {
            QueueOp::In(w) => if before.working < before.max_working {
                earlier
            } else {
                earlier.push(w)
            },
            QueueOp::Out => earlier,
        }
    }
}

/// The waiters told during a run that their turn has come, in the order they
/// were told.
pub open spec fn served_from_line(q: QueueView, ops: Seq<QueueOp>) -> Seq<u64>
    decreases ops.len(),
{
    if ops.len() == 0 {
        Seq::empty()
    } else {
        let before = queue_run(q, ops.drop_last());
        let earlier = served_from_line(q, ops.drop_last());
        match ops.last() {
            QueueOp::In(_) => earlier,
            QueueOp::Out => if before.waiting.len() > 0 {
                earlier.push(before.waiting[0])
            } else {
                earlier
            },
        }
    }
}

/// The smaller of two numbers.
pub open spec fn min_nat(a: nat, b: nat) -> nat {
    if a <= b {
        a
    } else {
        b
    }
}

/// Over a whole run from a new queue with `m` slots, in which every slot given
/// back was taken before: with `a` requests and `b` slots given back,
/// `min(a - b, m)` slots are taken and `a - b - m` (if positive) wait.
pub proof fn lemma_queue_run_counts(m: nat, ops: Seq<QueueOp>)
    requires
        outs_covered(ops),
    ensures
        count_ins(ops) >= count_outs(ops),
        queue_run(QueueView { working: 0, waiting: Seq::empty(), max_working: m }, ops).wf(),
        queue_run(QueueView { working: 0, waiting: Seq::empty(), max_working: m }, ops).max_working == m,
        queue_run(QueueView { working: 0, waiting: Seq::empty(), max_working: m }, ops).working == min_nat(
            (count_ins(ops) - count_outs(ops)) as nat,
            m,
        ),
        queue_run(QueueView { working: 0, waiting: Seq::empty(), max_working: m }, ops).waiting.len() == if count_ins(
            ops,
        ) - count_outs(ops) > m {
            (count_ins(ops) - count_outs(ops) - m) as nat
        } else {
            0nat
        },
    decreases ops.len(),
{
    let q0 = QueueView { working: 0, waiting: Seq::empty(), max_working: m };
    if ops.len() > 0 {
        let prefix = ops.drop_last();
        lemma_queue_run_counts(m, prefix);
        let before = queue_run(q0, prefix);
        match ops.last() {
            QueueOp::In(w) => {
                lemma_queue_stays_well_formed(before, w, m);
                lemma_queue_occupancy(before, w);
            },
            QueueOp::Out => {
                lemma_queue_stays_well_formed(before, 0, m);
                lemma_queue_occupancy(before, 0);
            },
        }
    }
}

/// First come, first served over a whole run, and nobody is skipped: the
/// waiters that were in line or joined it, in order, are exactly those told
/// their turn has come, in the order they were told, followed by those still
/// waiting. So of two waiters, the one that joined first is told first.
pub proof fn lemma_queue_run_first_come_first_served(q: QueueView, ops: Seq<QueueOp>)
    ensures
        q.waiting + joined_line(q, ops) == served_from_line(q, ops) + queue_run(q, ops).waiting,
        forall|i: int|
            0 <= i < served_from_line(q, ops).len() ==> #[trigger] served_from_line(q, ops)[i] == (q.waiting
                + joined_line(q, ops))[i],
    decreases ops.len(),
{
    if ops.len() > 0 {
        let prefix = ops.drop_last();
        lemma_queue_run_first_come_first_served(q, prefix);
        let before = queue_run(q, prefix);
        let j = joined_line(q, prefix);
        let a = served_from_line(q, prefix);
        match ops.last() {
            QueueOp::In(w) => {
                if before.working >= before.max_working {
                    assert(q.waiting + j.push(w) =~= (q.waiting + j).push(w));
                    assert(a + before.waiting.push(w) =~= (a + before.waiting).push(w));
                }
            },
            QueueOp::Out => {
                if before.waiting.len() > 0 {
                    assert(a.push(before.waiting[0]) + before.waiting.drop_first() =~= a + before.waiting);
                }
            },
        }
    }
    let lhs = q.waiting + joined_line(q, ops);
    let served = served_from_line(q, ops);
    assert forall|i: int| 0 <= i < served.len() implies #[trigger] served[i] == lhs[i] by {
        assert(lhs[i] == (served + queue_run(q, ops).waiting)[i]);
    }
}

/// A challenger never waits while a slot is free: it takes a free slot at
/// once and leaves the line as it is; when every slot is taken it joins the
/// end of the line and the slots stay as they are. Giving a slot back with
/// nobody waiting frees it; with somebody waiting, the slots stay taken and
/// the oldest waiter leaves the line.
pub proof fn lemma_queue_slot_use(q: QueueView, waiter: u64)
    ensures
        (q.enqueue(waiter).1 is None) == (q.working < q.max_working),
        q.working < q.max_working ==> q.enqueue(waiter).0.working == q.working + 1 && q.enqueue(waiter).0.waiting
            == q.waiting,
        q.working >= q.max_working ==> q.enqueue(waiter).0.working == q.working && q.enqueue(waiter).0.waiting
            == q.waiting.push(waiter) && q.enqueue(waiter).1 == Some(q.waiting.len() + 1),
        q.waiting.len() == 0 && q.working > 0 ==> q.dequeue().working + 1 == q.working && q.dequeue().waiting
            == q.waiting,
        q.waiting.len() > 0 ==> q.dequeue().working == q.working && q.dequeue().waiting == q.waiting.subrange(
            1,
            q.waiting.len() as int,
        ),
{
}

} // verus!
