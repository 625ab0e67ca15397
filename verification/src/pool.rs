use vstd::prelude::*;

verus! {

/// Where a task stands in its life: created, being started, running, being
/// stopped, stopped.
#[allow(non_camel_case_types, clippy::upper_case_acronyms)]
#[derive(Copy, Clone, Debug, PartialEq, Eq, Structural)]
pub enum TaskStatus {
    PENDING,
    STARTING,
    RUNNING,
    STOPPING,
    TERMINAL,
}

/// The abstract state of a task pool: the started tasks that wait to be handed
/// out (the most recently started last), how many started tasks are alive,
/// whether a start has been asked of the spawner and not yet answered, and the
/// pool's two limits.
pub struct PoolView<T> {
    pub idle: Seq<T>,
    pub running: nat,
    pub spawner_running: bool,
    pub pool_size: nat,
    pub max_running: nat,
}

impl<T> PoolView<T> {
    /// Whether another start is to be asked of the spawner: the pool has room
    /// for an idle task, fewer than the limit are alive, and no start is in hand.
    pub open spec fn wants_spawn(self) -> bool {
        self.idle.len() < self.pool_size && self.running < self.max_running && !self.spawner_running
    }

    /// After each event the pool asks for a start when it wants one, and then
    /// counts the spawner as busy.
    pub open spec fn settle(self) -> (PoolView<T>, bool) {
        if self.wants_spawn() {
            (PoolView { spawner_running: true, ..self }, true)
        } else {
            (self, false)
        }
    }

    /// The spawner answered: with a started task, which joins the idle ones and
    /// counts as alive, or with nothing (it is gone). Either way it is idle again.
    pub open spec fn spawned(self, task: Option<T>) -> (PoolView<T>, bool) {
        let answered = match task {
            Some(t) => PoolView { idle: self.idle.push(t), running: self.running + 1, spawner_running: false, ..self },
            None => PoolView { spawner_running: false, ..self },
        };
        answered.settle()
    }

    /// A task is asked for: the most recently started idle task is handed out.
    pub open spec fn requested(self) -> (PoolView<T>, T, bool) {
        let after = PoolView { idle: self.idle.drop_last(), ..self };
        (after.settle().0, self.idle.last(), after.settle().1)
    }

    /// A task handed out earlier comes back: it no longer counts as alive.
    pub open spec fn dropped(self) -> (PoolView<T>, bool) {
        PoolView { running: (self.running - 1) as nat, ..self }.settle()
    }

    /// The pool's bounds, given whether a start is outstanding with the
    /// spawner: idle tasks are alive ones, the idle tasks and the alive ones,
    /// counting a start in hand, stay within their limits, a busy spawner has a
    /// start in hand, and a start in hand with the spawner counted idle happens
    /// only before anything was started (the start asked for when the pool opens).
    pub open spec fn bounded(self, outstanding: bool) -> bool {
        let o: nat = if outstanding { 1 } else { 0 };
        &&& self.idle.len() <= self.running
        &&& self.idle.len() + o <= self.pool_size
        &&& self.running + o <= self.max_running
        &&& self.spawner_running ==> outstanding
        &&& (outstanding && !self.spawner_running) ==> self.running == 0
    }
}

/// The bookkeeping of a task pool: it keeps idle started tasks up to
/// `pool_size`, lets at most `max_running` live at a time, and asks a spawner
/// for one start at a time. Each event method returns whether a start is now
/// to be asked of the spawner.
pub struct PoolWorker<T> {
    tasks: Vec<T>,
    running_task: usize,
    task_spawner_running: bool,
    pool_size: usize,
    max_running_task: usize,
}

impl<T> View for PoolWorker<T> {
    type V = PoolView<T>;

    closed spec fn view(&self) -> PoolView<T> {
        PoolView {
            idle: self.tasks@,
            running: self.running_task as nat,
            spawner_running: self.task_spawner_running,
            pool_size: self.pool_size as nat,
            max_running: self.max_running_task as nat,
        }
    }
}

impl<T> PoolWorker<T> {
    /// An empty pool. Its owner asks the spawner for a first start as it opens,
    /// without counting the spawner busy.
    pub fn new(pool_size: usize, max_running: usize) -> (w: PoolWorker<T>)
        ensures
            w@ == (PoolView::<T> {
                idle: Seq::empty(),
                running: 0,
                spawner_running: false,
                pool_size: pool_size as nat,
                max_running: max_running as nat,
            }),
    {
        PoolWorker {
            tasks: Vec::new(),
            running_task: 0,
            task_spawner_running: false,
            pool_size,
            max_running_task: max_running,
        }
    }

    /// Checks, after an event that changed nothing, whether a start is to be
    /// asked of the spawner.
    pub fn recheck(&mut self) -> (signal: bool)
        ensures
            (final(self)@, signal) == old(self)@.settle(),
    {
        if self.tasks.len() < self.pool_size && self.running_task < self.max_running_task
            && !self.task_spawner_running {
            self.task_spawner_running = true;
            true
        } else {
            false
        }
    }

    /// The spawner answered with a started task, or with nothing.
    pub fn on_spawned(&mut self, task: Option<T>) -> (signal: bool)
        requires
            old(self)@.running < usize::MAX,
        ensures
            (final(self)@, signal) == old(self)@.spawned(task),
    {
        match task {
            Some(t) => {
                self.tasks.push(t);
                self.running_task = self.running_task + 1;
            },
            None => {},
        }
        self.task_spawner_running = false;
        self.recheck()
    }

    /// Whether a request for a task can be served now (an idle task exists).
    pub fn accepts_requests(&self) -> (b: bool)
        ensures
            b == (self@.idle.len() > 0),
    {
        !self.tasks.is_empty()
    }

    /// A task is asked for; the most recently started idle task is handed out.
    pub fn on_request(&mut self) -> (res: (T, bool))
        requires
            old(self)@.idle.len() > 0,
        ensures
            (final(self)@, res.0, res.1) == old(self)@.requested(),
    {
        let task = self.tasks.pop().unwrap();
        let signal = self.recheck();
        (task, signal)
    }

    /// A task handed out earlier comes back.
    pub fn on_drop(&mut self) -> (signal: bool)
        requires
            old(self)@.running > 0,
        ensures
            (final(self)@, signal) == old(self)@.dropped(),
    {
        self.running_task = self.running_task - 1;
        self.recheck()
    }

    /// Idle tasks.
    pub fn idle_count(&self) -> (n: usize)
        ensures
            n == self@.idle.len(),
    {
        self.tasks.len()
    }

    /// Started tasks still alive.
    pub fn running_count(&self) -> (n: usize)
        ensures
            n == self@.running,
    {
        self.running_task
    }
}

/// The pool's bounds hold from the start (with the opening start in hand,
/// given limits of at least one) and are kept by every event, provided the
/// spawner answers only when asked and only tasks handed out come back: idle
/// tasks never exceed `pool_size` and alive tasks never exceed `max_running`.
pub proof fn lemma_pool_stays_bounded<T>(v: PoolView<T>, outstanding: bool, task: Option<T>, pool_size: nat, max_running: nat)
    ensures
        pool_size >= 1 && max_running >= 1 ==> (PoolView::<T> {
            idle: Seq::empty(),
            running: 0,
            spawner_running: false,
            pool_size,
            max_running,
        }).bounded(true),
        v.bounded(outstanding) && (task is Some ==> outstanding) ==> v.spawned(task).0.bounded(v.spawned(task).1),
        v.bounded(outstanding) && v.idle.len() > 0 ==> v.requested().0.bounded(outstanding || v.requested().2),
        v.bounded(outstanding) && v.running > v.idle.len() ==> v.dropped().0.bounded(outstanding || v.dropped().1),
        v.bounded(outstanding) ==> v.idle.len() <= v.pool_size && v.running <= v.max_running,
{
}

/// A request hands out the most recently started idle task and keeps the
/// others in order; a task the spawner started is the next one handed out.
pub proof fn lemma_pool_last_in_first_out<T>(v: PoolView<T>, t: T)
    ensures
        v.idle.len() > 0 ==> v.requested().0.idle == v.idle.drop_last() && v.requested().1 == v.idle.last(),
        v.spawned(Some(t)).0.requested().1 == t,
        v.spawned(Some(t)).0.requested().0.idle == v.idle,
        v.spawned(Some(t)).0.running == v.running + 1,
{
    assert(v.spawned(Some(t)).0.idle.drop_last() =~= v.idle);
}

/// A start is asked for exactly when the pool has room for an idle task, fewer
/// tasks than the limit are alive and the spawner is idle; asking makes the
/// spawner busy, so at most one start is in hand at a time.
pub proof fn lemma_pool_one_start_at_a_time<T>(v: PoolView<T>)
    ensures
        v.settle().1 == v.wants_spawn(),
        v.settle().1 ==> v.settle().0.spawner_running,
        v.spawner_running ==> !v.settle().1 && v.settle().0 == v,
{
}

/// What happens to a task pool, in a run: the spawner answers (with a task
/// or with nothing), a task is asked for, or a task handed out comes back.
pub enum PoolEvent<T> {
    Spawned(Option<T>),
    Request,
    Drop,
}

/// A pool and the record of a run of events on it: the tasks received from
/// the spawner and those handed out, in order; how many tasks came back, how
/// many answers the spawner gave and how many starts were asked of it
/// (counting the start asked for when the pool opens); and whether every event
/// came when it could (the spawner answers only starts asked of it, a task is
/// asked for only when one is idle, and only tasks handed out come back).
pub struct PoolRun<T> {
    pub view: PoolView<T>,
    pub received: Seq<T>,
    pub handed: Seq<T>,
    pub drops: nat,
    pub answers: nat,
    pub signals: nat,
    pub valid: bool,
}

/// A new pool with the given limits.
pub open spec fn new_pool_view<T>(pool_size: nat, max_running: nat) -> PoolView<T> {
    PoolView { idle: Seq::empty(), running: 0, spawner_running: false, pool_size, max_running }
}

/// One more start counted when `signal` holds.
pub open spec fn plus_signal(n: nat, signal: bool) -> nat {
    if signal {
        n + 1
    } else {
        n
    }
}

/// The pool and its record after a run of events from `v0`, the first event first.
pub open spec fn pool_run<T>(v0: PoolView<T>, events: Seq<PoolEvent<T>>) -> PoolRun<T>
    decreases events.len(),
{
    if events.len() == 0 {
        PoolRun { view: v0, received: Seq::empty(), handed: Seq::empty(), drops: 0, answers: 0, signals: 1, valid: true }
    } else {
        let r = pool_run(v0, events.drop_last());
        match events.last() {
            PoolEvent::Spawned(t) => PoolRun {
                view: r.view.spawned(t).0,
                received: match t {
                    Some(x) => r.received.push(x),
                    None => r.received,
                },
                answers: r.answers + 1,
                signals: plus_signal(r.signals, r.view.spawned(t).1),
                valid: r.valid && r.answers < r.signals,
                ..r
            },
            PoolEvent::Request => PoolRun {
                view: r.view.requested().0,
                handed: r.handed.push(r.view.requested().1),
                signals: plus_signal(r.signals, r.view.requested().2),
                valid: r.valid && r.view.idle.len() > 0,
                ..r
            },
            PoolEvent::Drop => PoolRun {
                view: r.view.dropped().0,
                drops: r.drops + 1,
                signals: plus_signal(r.signals, r.view.dropped().1),
                valid: r.valid && r.drops < r.handed.len(),
                ..r
            },
        }
    }
}

/// Over a whole run of a new pool with limits of at least one, in which every
/// event came when it could:
/// - alive tasks are those received less those that came back, and never more
///   than `max_running`;
/// - idle tasks are those received less those handed out, and never more than
///   `pool_size`;
/// - at most one start is in hand at a time (starts asked are the spawner's
///   answers or one more);
/// - every task received is either handed out or idle (a task that came back
///   is never idle again);
/// - a task comes back only while the count of alive tasks is at least one.
pub proof fn lemma_pool_run<T>(pool_size: nat, max_running: nat, events: Seq<PoolEvent<T>>)
    requires
        pool_size >= 1,
        max_running >= 1,
        pool_run(new_pool_view::<T>(pool_size, max_running), events).valid,
    ensures
        ({
            let r = pool_run(new_pool_view::<T>(pool_size, max_running), events);
            &&& r.view.pool_size == pool_size && r.view.max_running == max_running
            &&& r.view.running + r.drops == r.received.len()
            &&& r.view.idle.len() + r.handed.len() == r.received.len()
            &&& r.drops <= r.handed.len()
            &&& r.received.len() - r.drops <= max_running
            &&& r.received.len() - r.handed.len() <= pool_size
            &&& r.answers <= r.signals <= r.answers + 1
            &&& r.view.bounded(r.signals > r.answers)
            &&& r.received.to_multiset() == r.handed.to_multiset().add(r.view.idle.to_multiset())
        }),
        events.len() > 0 && events.last() is Drop ==> pool_run(
            new_pool_view::<T>(pool_size, max_running),
            events.drop_last(),
        ).view.running >= 1,
    decreases events.len(),
{
    broadcast use vstd::seq_lib::group_to_multiset_ensures;
    broadcast use vstd::multiset::group_multiset_axioms;

    let v0 = new_pool_view::<T>(pool_size, max_running);
    if events.len() == 0 {
        lemma_pool_stays_bounded(v0, true, None, pool_size, max_running);
        assert(Seq::<T>::empty().to_multiset() =~= Seq::<T>::empty().to_multiset().add(
            Seq::<T>::empty().to_multiset(),
        ));
    } else {
        let prefix = events.drop_last();
        lemma_pool_run(pool_size, max_running, prefix);
        let r = pool_run(v0, prefix);
        let o = r.signals > r.answers;
        match events.last() {
            PoolEvent::Spawned(t) => {
                lemma_pool_stays_bounded(r.view, o, t, pool_size, max_running);
                let after = pool_run(v0, events);
                if let Some(x) = t {
                    assert(r.view.spawned(t).0.idle == r.view.idle.push(x));
                    assert(after.received.to_multiset() =~= after.handed.to_multiset().add(
                        after.view.idle.to_multiset(),
                    ));
                }
            },
            PoolEvent::Request => {
                lemma_pool_stays_bounded(r.view, o, None, pool_size, max_running);
                let after = pool_run(v0, events);
                let idle = r.view.idle;
                assert(idle.drop_last().push(idle.last()) =~= idle);
                assert(after.view.idle == idle.drop_last());
                assert(after.received.to_multiset() =~= after.handed.to_multiset().add(
                    after.view.idle.to_multiset(),
                ));
            },
            PoolEvent::Drop => {
                lemma_pool_stays_bounded(r.view, o, None, pool_size, max_running);
            },
        }
    }
}

/// In such a run, when the spawner never hands over the same task twice, no
/// task is handed out twice, and no task handed out is idle as well.
pub proof fn lemma_pool_run_hands_out_once<T>(pool_size: nat, max_running: nat, events: Seq<PoolEvent<T>>)
    requires
        pool_size >= 1,
        max_running >= 1,
        pool_run(new_pool_view::<T>(pool_size, max_running), events).valid,
        pool_run(new_pool_view::<T>(pool_size, max_running), events).received.no_duplicates(),
    ensures
        pool_run(new_pool_view::<T>(pool_size, max_running), events).handed.no_duplicates(),
        forall|t: T|
            pool_run(new_pool_view::<T>(pool_size, max_running), events).handed.contains(t) ==> !pool_run(
                new_pool_view::<T>(pool_size, max_running),
                events,
            ).view.idle.contains(t),
{
    broadcast use vstd::seq_lib::group_to_multiset_ensures;
    broadcast use vstd::multiset::group_multiset_axioms;

    lemma_pool_run(pool_size, max_running, events);
    let r = pool_run(new_pool_view::<T>(pool_size, max_running), events);
    r.received.lemma_multiset_has_no_duplicates();
    assert forall|x: T| r.handed.to_multiset().contains(x) implies r.handed.to_multiset().count(x) == 1 by {
        assert(r.received.to_multiset().count(x) == r.handed.to_multiset().count(x) + r.view.idle.to_multiset().count(
            x,
        ));
    }
    r.handed.lemma_multiset_has_no_duplicates_conv();
    assert forall|t: T| r.handed.contains(t) implies !r.view.idle.contains(t) by {
        assert(r.received.to_multiset().count(t) == r.handed.to_multiset().count(t) + r.view.idle.to_multiset().count(
            t,
        ));
    }
}

/// The pool keeps started instances ready: a start is asked for exactly when
/// fewer than `pool_size` are idle, fewer than `max_running` are alive and the
/// spawner is idle; in particular, after the spawner delivers a task, another
/// start is asked for exactly when, counting that task, the pool still has
/// room for an idle one and fewer than the limit are alive.
pub proof fn lemma_pool_keeps_instances_ready<T>(v: PoolView<T>, t: T)
    ensures
        v.settle().1 == (v.idle.len() < v.pool_size && v.running < v.max_running && !v.spawner_running),
        v.settle().1 ==> v.settle().0 == (PoolView { spawner_running: true, ..v }),
        !v.settle().1 ==> v.settle().0 == v,
        v.spawned(Some(t)).1 == (v.idle.len() + 1 < v.pool_size && v.running + 1 < v.max_running),
        v.spawned(Some(t)).0.idle == v.idle.push(t) && v.spawned(Some(t)).0.running == v.running + 1,
        v.spawned(Some(t)).0.spawner_running == v.spawned(Some(t)).1,
{
}

} // verus!
