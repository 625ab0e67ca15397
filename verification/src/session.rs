use vstd::prelude::*;
use crate::forward::forward_target;
use crate::queue::{ChallQueue, QueueView};
use crate::registry::TeamRegistry;
use crate::text::{decimal, push_decimal, leading_digits, read_number};
use crate::token::{decode_team_token, trimmed, utf8_lossy};

verus! {

/// The port the gateway listens on.
pub const LISTEN_PORT: u16 = 9999;

/// The address the gateway listens on.
pub const LISTEN_IP: &'static str = "0.0.0.0";

/// How long, in seconds, a team keeps its instance.
pub const TIMEOUT: u64 = 300;

/// How many started instances the pool keeps ready.
pub const POOL_SIZE: usize = 12;

/// How many instances may run at a time, and how many teams may work at a time.
pub const MAX_TASK: usize = 24;

/// The line feed that ends a typed token.
pub const LINE_FEED: u8 = 10;

/// A message the gateway sends to a challenger.
#[derive(Copy, Clone, Debug, PartialEq, Eq, Structural)]
pub enum Notice {
    Greeting,
    TokenRejected,
    DuplicateTeam,
    /// How many challengers are ahead in the line.
    QueueAhead(u64),
    QueueDone,
    Starting,
    /// The instance is reachable at this port.
    Ready(u16),
    Idle,
    Timeout,
}

/// The text of a notice.
pub open spec fn notice_text(n: Notice) -> Seq<char> {
    match n {
        Notice::Greeting => "1. tcp port 8000 will be forwarded to another port\n2. Only one instance is allowd for each team at a time\n3. Please input your team token now:\n"@,
        Notice::TokenRejected => "team token error\n"@,
        Notice::DuplicateTeam => "every team can only have one instance\n"@,
        Notice::QueueAhead(k) => "There are "@ + decimal(k as nat)
            + " challengers are waitting for do challenge, plz wait\n"@,
        Notice::QueueDone => "thx for wait, not you can do challenge\n"@,
        Notice::Starting => "starting challenge server\nThis should take some times\n"@,
        Notice::Ready(port) => "you have "@ + decimal(TIMEOUT as nat) + "sec, And you server is at 47.90.215.212:"@
            + decimal(port as nat)
            + "\nchange you host apps.example.com to this ip and access http://apps.example.com:"@ + decimal(
            port as nat,
        )
            + "/OA_HTML/AppsLocalLogin.jsp\nplz do not close this connection unless you want to release all resource and quit"@,
        Notice::Idle => "talk to this port is use less.\n"@,
        Notice::Timeout => "timeout!! bye\n"@,
    }
}

impl Notice {
    /// The text of the notice.
    pub fn text(&self) -> (s: String)
        ensures
            s@ == notice_text(*self),
    {
        match self {
            Notice::Greeting => String::from_str(
                "1. tcp port 8000 will be forwarded to another port\n2. Only one instance is allowd for each team at a time\n3. Please input your team token now:\n",
            ),
            Notice::TokenRejected => String::from_str("team token error\n"),
            Notice::DuplicateTeam => String::from_str("every team can only have one instance\n"),
            Notice::QueueAhead(k) => {
                let mut s = String::from_str("There are ");
                push_decimal(&mut s, *k);
                s.append(" challengers are waitting for do challenge, plz wait\n");
                s
            },
            Notice::QueueDone => String::from_str("thx for wait, not you can do challenge\n"),
            Notice::Starting => String::from_str("starting challenge server\nThis should take some times\n"),
            Notice::Ready(port) => {
                let mut s = String::from_str("you have ");
                push_decimal(&mut s, TIMEOUT);
                s.append("sec, And you server is at 47.90.215.212:");
                push_decimal(&mut s, *port as u64);
                s.append(
                    "\nchange you host apps.example.com to this ip and access http://apps.example.com:",
                );
                push_decimal(&mut s, *port as u64);
                s.append(
                    "/OA_HTML/AppsLocalLogin.jsp\nplz do not close this connection unless you want to release all resource and quit",
                );
                s
            },
            Notice::Idle => String::from_str("talk to this port is use less.\n"),
            Notice::Timeout => String::from_str("timeout!! bye\n"),
        }
    }
}

/// What came of asking to register a team and give it a slot.
#[derive(Copy, Clone, Debug, PartialEq, Eq, Structural)]
pub enum Entry {
    /// The team holds an instance or waits for one already.
    Duplicate,
    /// The team got a slot at once.
    Admitted,
    /// The team waits at this 1-based position.
    Queued(u64),
}

/// The registry and the queue agree: no team is registered twice, the queue
/// is well formed, and each registered team holds or waits for exactly one
/// slot.
pub open spec fn gate_wf(teams: Seq<Seq<char>>, q: QueueView) -> bool {
    &&& teams.no_duplicates()
    &&& q.wf()
    &&& q.occupancy() == teams.len()
}

/// Registers the team with `token` and asks for a slot for it on behalf of
/// `waiter`, unless the team is registered already (then nothing changes).
pub fn enter(teams: &mut TeamRegistry, queue: &mut ChallQueue, token: &String, waiter: u64) -> (entry: Entry)
    requires
        old(queue)@.waiting.len() < u64::MAX,
    ensures
        old(teams)@.contains(token@) ==> entry == Entry::Duplicate && final(teams)@ == old(teams)@
            && final(queue)@ == old(queue)@,
        !old(teams)@.contains(token@) ==> final(teams)@ == old(teams)@.push(token@)
            && final(queue)@ == old(queue)@.enqueue(waiter).0 && match old(queue)@.enqueue(waiter).1 {
            None => entry == Entry::Admitted,
            Some(p) => entry matches Entry::Queued(q) && q == p,
        },
        gate_wf(old(teams)@, old(queue)@) ==> gate_wf(final(teams)@, final(queue)@),
{
    proof {
        lemma_gate_wf(old(teams)@, old(queue)@, token@, waiter);
    }
    if !teams.try_register(token) {
        return Entry::Duplicate;
    }
    match queue.queue_in(waiter) {
        None => Entry::Admitted,
        Some(p) => Entry::Queued(p),
    }
}

/// Gives the slot of the team with `token` back and unregisters the team.
/// Returns the notices for the waiters, as `ChallQueue::queue_out` does.
pub fn leave(teams: &mut TeamRegistry, queue: &mut ChallQueue, token: &String) -> (notices: Vec<(u64, u64)>)
    requires
        old(queue)@.can_dequeue(),
    ensures
        final(queue)@ == old(queue)@.dequeue(),
        final(teams)@ == old(teams)@.remove_value(token@),
        notices@.len() == old(queue)@.dequeue_notices().len(),
        forall|j: int|
            0 <= j < notices@.len() ==> (#[trigger] notices@[j]).0 == old(queue)@.dequeue_notices()[j].0
                && notices@[j].1 == old(queue)@.dequeue_notices()[j].1,
        gate_wf(old(teams)@, old(queue)@) && old(teams)@.contains(token@) ==> gate_wf(final(teams)@, final(queue)@),
{
    proof {
        lemma_gate_wf(old(teams)@, old(queue)@, token@, 0);
    }
    let notices = queue.queue_out();
    teams.release(token);
    notices
}

/// The registry and the queue agree from the start, and entering and leaving
/// keep them agreeing; so a registered team can always leave (a slot is taken
/// or somebody waits), and the number of teams working or waiting is the
/// number registered.
pub proof fn lemma_gate_wf(teams: Seq<Seq<char>>, q: QueueView, token: Seq<char>, waiter: u64)
    ensures
        gate_wf(Seq::empty(), QueueView { working: 0, waiting: Seq::empty(), max_working: q.max_working }),
        gate_wf(teams, q) && !teams.contains(token) ==> gate_wf(teams.push(token), q.enqueue(waiter).0),
        gate_wf(teams, q) && teams.contains(token) ==> q.can_dequeue(),
        gate_wf(teams, q) && teams.contains(token) ==> gate_wf(teams.remove_value(token), q.dequeue()),
{
    crate::queue::lemma_queue_stays_well_formed(q, waiter, q.max_working);
    crate::queue::lemma_queue_occupancy(q, waiter);
    if gate_wf(teams, q) {
        crate::registry::lemma_registry_no_duplicates(teams, token);
        teams.index_of_first_ensures(token);
        if teams.contains(token) {
            assert(teams.len() > 0);
            assert(q.can_dequeue());
            assert(teams.remove_value(token).len() == teams.len() - 1);
        }
    }
    assert(Seq::<Seq<char>>::empty().no_duplicates());
}

/// A team that enters while nobody waits and then leaves leaves the registry
/// and the queue as they were.
pub proof fn lemma_enter_leave_round_trip(teams: Seq<Seq<char>>, q: QueueView, token: Seq<char>, waiter: u64)
    requires
        !teams.contains(token),
        q.wf(),
        q.waiting.len() == 0,
    ensures
        teams.push(token).remove_value(token) == teams,
        q.enqueue(waiter).0.can_dequeue(),
        q.enqueue(waiter).0.dequeue() == q,
{
    crate::registry::lemma_registry_round_trip(teams, token);
    crate::queue::lemma_queue_round_trip(q, waiter);
}

/// Where a connection stands.
#[derive(Copy, Clone, Debug, PartialEq, Eq, Structural)]
pub enum Phase {
    /// Just accepted.
    Connected,
    /// The greeting is being sent.
    Greeting,
    /// The token is being typed.
    ReadingToken,
    /// The token is being checked.
    CheckingToken,
    /// A refusal is being sent.
    Rejecting,
    /// The team is being registered and queued.
    Entering,
    /// The team waits for its turn.
    Queued,
    /// The team is being told how many are ahead.
    QueueAheadSent,
    /// The team is being told its turn has come.
    QueueDoneSent,
    /// The team is being told its instance starts.
    Starting,
    /// An instance is being taken from the pool.
    AwaitingTask,
    /// The forward to the instance is being opened.
    OpeningForward,
    /// The team is being told where its instance is.
    ReadySent,
    /// The connection is watched until the team leaves or time is up.
    Watching,
    /// The team, having written to the connection, is being told it is of no use.
    IdleSent,
    /// The team is being told again where its instance is.
    ReadyResent,
    /// The team is being told its time is up.
    TimeoutSent,
    /// The connection is being shut down.
    ShuttingDown,
    /// The forward is stopped and the instance given back.
    DroppingTask,
    /// Nothing more happens on this connection.
    Finished,
}

/// What happened, as reported to a session.
#[derive(Debug)]
pub enum Event {
    /// The connection was accepted.
    Opened,
    /// The notice asked for was written (or writing it failed).
    Sent(bool),
    /// A byte of the token was read.
    Byte(u8),
    /// Reading the token failed.
    ReadFailed,
    /// The token was checked: whether it is valid.
    TokenChecked(bool),
    /// The token could not be checked.
    CheckFailed,
    /// The team was registered and queued, or refused.
    Entered(Entry),
    /// The queue told the team this (0: its turn has come; else its position).
    QueueNotice(u64),
    /// An instance was taken from the pool; this is its address.
    TaskReady(String),
    /// No instance could be taken from the pool.
    TaskFailed,
    /// The forward listens on this port.
    ForwardOpened(u16),
    /// This many bytes were read from the team (0: it left).
    PeerData(usize),
    /// Reading from the team failed.
    PeerError,
    /// The team's time is up.
    TimedOut,
    /// The connection was shut down (or shutting it down failed).
    ShutDown(bool),
    /// The instance was given back to the pool (or giving it back failed).
    TaskDropped(bool),
}

/// An event as the library sees it.
pub enum EventView {
    Opened,
    Sent(bool),
    Byte(u8),
    ReadFailed,
    TokenChecked(bool),
    CheckFailed,
    Entered(Entry),
    QueueNotice(u64),
    TaskReady(Seq<char>),
    TaskFailed,
    ForwardOpened(u16),
    PeerData(usize),
    PeerError,
    TimedOut,
    ShutDown(bool),
    TaskDropped(bool),
}

impl View for Event {
    type V = EventView;

    open spec fn view(&self) -> EventView {
        match self {
            Event::Opened => EventView::Opened,
            Event::Sent(b) => EventView::Sent(*b),
            Event::Byte(c) => EventView::Byte(*c),
            Event::ReadFailed => EventView::ReadFailed,
            Event::TokenChecked(b) => EventView::TokenChecked(*b),
            Event::CheckFailed => EventView::CheckFailed,
            Event::Entered(e) => EventView::Entered(*e),
            Event::QueueNotice(k) => EventView::QueueNotice(*k),
            Event::TaskReady(ip) => EventView::TaskReady(ip@),
            Event::TaskFailed => EventView::TaskFailed,
            Event::ForwardOpened(p) => EventView::ForwardOpened(*p),
            Event::PeerData(n) => EventView::PeerData(*n),
            Event::PeerError => EventView::PeerError,
            Event::TimedOut => EventView::TimedOut,
            Event::ShutDown(b) => EventView::ShutDown(*b),
            Event::TaskDropped(b) => EventView::TaskDropped(*b),
        }
    }
}

/// What the session asks its owner to do next.
#[derive(Debug)]
pub enum Action {
    /// Write this notice, then report `Sent`.
    Send(Notice),
    /// Read one byte, then report `Byte` or `ReadFailed`.
    ReadByte,
    /// Check this token, then report `TokenChecked` or `CheckFailed`.
    CheckToken(String),
    /// Register the team with this token and queue it (see `enter`), then report `Entered`.
    Enter(String),
    /// Wait for the next word from the queue, then report `QueueNotice`.
    AwaitQueue,
    /// Take an instance from the pool, then report `TaskReady` or `TaskFailed`.
    GetTask,
    /// Open a forward to this address, then report `ForwardOpened`.
    OpenForward(String),
    /// Read from the team (the time limit running), then report `PeerData`, `PeerError` or `TimedOut`.
    WatchPeer,
    /// Shut the connection down, then report `ShutDown`.
    Shutdown,
    /// Stop the forward and give the instance back, then report `TaskDropped`.
    StopAndDropTask,
    /// Unregister the team with this token and give its slot back (see `leave`); the session is over.
    Release(String),
    /// Shut the connection down; the session is over.
    Close,
    /// Drop the connection as it is; the session is over.
    Abort,
    /// The event was not expected now; nothing to do.
    Nothing,
}

/// An action as the library sees it.
pub enum ActionView {
    Send(Notice),
    ReadByte,
    CheckToken(Seq<char>),
    Enter(Seq<char>),
    AwaitQueue,
    GetTask,
    OpenForward(Seq<char>),
    WatchPeer,
    Shutdown,
    StopAndDropTask,
    Release(Seq<char>),
    Close,
    Abort,
    Nothing,
}

impl View for Action {
    type V = ActionView;

    open spec fn view(&self) -> ActionView {
        match self {
            Action::Send(n) => ActionView::Send(*n),
            Action::ReadByte => ActionView::ReadByte,
            Action::CheckToken(t) => ActionView::CheckToken(t@),
            Action::Enter(t) => ActionView::Enter(t@),
            Action::AwaitQueue => ActionView::AwaitQueue,
            Action::GetTask => ActionView::GetTask,
            Action::OpenForward(a) => ActionView::OpenForward(a@),
            Action::WatchPeer => ActionView::WatchPeer,
            Action::Shutdown => ActionView::Shutdown,
            Action::StopAndDropTask => ActionView::StopAndDropTask,
            Action::Release(t) => ActionView::Release(t@),
            Action::Close => ActionView::Close,
            Action::Abort => ActionView::Abort,
            Action::Nothing => ActionView::Nothing,
        }
    }
}

/// A session as the library sees it: where it stands, the token bytes typed
/// so far, the team's token, and the port of its forward.
pub struct SessionView {
    pub phase: Phase,
    pub typed: Seq<u8>,
    pub token: Seq<char>,
    pub port: u16,
}

impl SessionView {
    /// The session moves to `phase`.
    pub open spec fn to(self, phase: Phase) -> SessionView {
        SessionView { phase, ..self }
    }

    /// The session is over without cleaning up.
    pub open spec fn abort(self) -> (SessionView, ActionView) {
        (self.to(Phase::Finished), ActionView::Abort)
    }

    /// The event is not expected now.
    pub open spec fn ignore(self) -> (SessionView, ActionView) {
        (self, ActionView::Nothing)
    }

    /// The team is told its time is up.
    pub open spec fn time_up(self) -> (SessionView, ActionView) {
        (self.to(Phase::TimeoutSent), ActionView::Send(Notice::Timeout))
    }

    /// How a connection proceeds: its next state and what is to be done, given
    /// what happened.
    pub open spec fn next(self, e: EventView) -> (SessionView, ActionView) {
        match self.phase {
            Phase::Connected => match e {
                EventView::Opened => (self.to(Phase::Greeting), ActionView::Send(Notice::Greeting)),
                _ => self.ignore(),
            },
            Phase::Greeting => match e {
                EventView::Sent(ok) => if ok {
                    (self.to(Phase::ReadingToken), ActionView::ReadByte)
                } else {
                    self.abort()
                },
                _ => self.ignore(),
            },
            Phase::ReadingToken => match e {
                EventView::Byte(c) => if c == LINE_FEED {
                    let token = trimmed(utf8_lossy(self.typed));
                    (SessionView { phase: Phase::CheckingToken, token, ..self }, ActionView::CheckToken(token))
                } else {
                    (SessionView { typed: self.typed.push(c), ..self }, ActionView::ReadByte)
                },
                EventView::ReadFailed => self.abort(),
                _ => self.ignore(),
            },
            Phase::CheckingToken => match e {
                EventView::TokenChecked(valid) => if valid {
                    (self.to(Phase::Entering), ActionView::Enter(self.token))
                } else {
                    (self.to(Phase::Rejecting), ActionView::Send(Notice::TokenRejected))
                },
                EventView::CheckFailed => self.abort(),
                _ => self.ignore(),
            },
            Phase::Rejecting => match e {
                EventView::Sent(ok) => if ok {
                    (self.to(Phase::Finished), ActionView::Close)
                } else {
                    self.abort()
                },
                _ => self.ignore(),
            },
            Phase::Entering => match e {
                EventView::Entered(entry) => match entry {
                    Entry::Duplicate => (self.to(Phase::Rejecting), ActionView::Send(Notice::DuplicateTeam)),
                    Entry::Admitted => (self.to(Phase::Starting), ActionView::Send(Notice::Starting)),
                    Entry::Queued(_) => (self.to(Phase::Queued), ActionView::AwaitQueue),
                },
                _ => self.ignore(),
            },
            Phase::Queued => match e {
                EventView::QueueNotice(k) => if k == 0 {
                    (self.to(Phase::QueueDoneSent), ActionView::Send(Notice::QueueDone))
                } else {
                    (self.to(Phase::QueueAheadSent), ActionView::Send(Notice::QueueAhead((k - 1) as u64)))
                },
                _ => self.ignore(),
            },
            Phase::QueueAheadSent => match e {
                EventView::Sent(_) => (self.to(Phase::Queued), ActionView::AwaitQueue),
                _ => self.ignore(),
            },
            Phase::QueueDoneSent => match e {
                EventView::Sent(_) => (self.to(Phase::Starting), ActionView::Send(Notice::Starting)),
                _ => self.ignore(),
            },
            Phase::Starting => match e {
                EventView::Sent(ok) => if ok {
                    (self.to(Phase::AwaitingTask), ActionView::GetTask)
                } else {
                    (self.to(Phase::Finished), ActionView::Release(self.token))
                },
                _ => self.ignore(),
            },
            Phase::AwaitingTask => match e {
                EventView::TaskReady(ip) => (self.to(Phase::OpeningForward), ActionView::OpenForward(ip + ":8000"@)),
                EventView::TaskFailed => self.abort(),
                _ => self.ignore(),
            },
            Phase::OpeningForward => match e {
                EventView::ForwardOpened(port) => (
                    SessionView { phase: Phase::ReadySent, port, ..self },
                    ActionView::Send(Notice::Ready(port)),
                ),
                _ => self.ignore(),
            },
            Phase::ReadySent => match e {
                EventView::Sent(_) => (self.to(Phase::Watching), ActionView::WatchPeer),
                _ => self.ignore(),
            },
            Phase::Watching => match e {
                EventView::PeerData(n) => if n == 0 {
                    (self.to(Phase::ShuttingDown), ActionView::Shutdown)
                } else {
                    (self.to(Phase::IdleSent), ActionView::Send(Notice::Idle))
                },
                EventView::PeerError => (self.to(Phase::ShuttingDown), ActionView::Shutdown),
                EventView::TimedOut => self.time_up(),
                _ => self.ignore(),
            },
            Phase::IdleSent => match e {
                EventView::Sent(_) => (self.to(Phase::ReadyResent), ActionView::Send(Notice::Ready(self.port))),
                EventView::TimedOut => self.time_up(),
                _ => self.ignore(),
            },
            Phase::ReadyResent => match e {
                EventView::Sent(_) => (self.to(Phase::Watching), ActionView::WatchPeer),
                EventView::TimedOut => self.time_up(),
                _ => self.ignore(),
            },
            Phase::TimeoutSent => match e {
                EventView::Sent(ok) => if ok {
                    (self.to(Phase::ShuttingDown), ActionView::Shutdown)
                } else {
                    self.abort()
                },
                _ => self.ignore(),
            },
            Phase::ShuttingDown => match e {
                EventView::ShutDown(ok) => if ok {
                    (self.to(Phase::DroppingTask), ActionView::StopAndDropTask)
                } else {
                    self.abort()
                },
                _ => self.ignore(),
            },
            Phase::DroppingTask => match e {
                EventView::TaskDropped(ok) => if ok {
                    (self.to(Phase::Finished), ActionView::Release(self.token))
                } else {
                    self.abort()
                },
                _ => self.ignore(),
            },
            Phase::Finished => self.ignore(),
        }
    }

    /// Whether the team is registered and holds or waits for a slot while the
    /// session stands in `phase`.
    pub open spec fn holds_registration(phase: Phase) -> bool {
        match phase {
            Phase::Queued | Phase::QueueAheadSent | Phase::QueueDoneSent | Phase::Starting | Phase::AwaitingTask
            | Phase::OpeningForward | Phase::ReadySent | Phase::Watching | Phase::IdleSent | Phase::ReadyResent
            | Phase::TimeoutSent | Phase::ShuttingDown | Phase::DroppingTask => true,
            _ => false,
        }
    }
}

/// One challenger's connection: the decisions of the gateway's conversation
/// with it. Its owner performs each action and reports what happened.
pub struct Session {
    phase: Phase,
    typed: Vec<u8>,
    token: String,
    port: u16,
}

impl View for Session {
    type V = SessionView;

    closed spec fn view(&self) -> SessionView {
        SessionView { phase: self.phase, typed: self.typed@, token: self.token@, port: self.port }
    }
}

impl Session {
    /// A freshly accepted connection.
    pub fn new() -> (s: Session)
        ensures
            s@ == (SessionView { phase: Phase::Connected, typed: Seq::empty(), token: Seq::empty(), port: 0 }),
    {
        Session { phase: Phase::Connected, typed: Vec::new(), token: String::new(), port: 0 }
    }

    /// Where the session stands.
    pub fn phase(&self) -> (p: Phase)
        ensures
            p == self@.phase,
    {
        self.phase
    }

    /// The team's token (empty until it has been typed).
    pub fn token(&self) -> (t: String)
        ensures
            t@ == self@.token,
    {
        self.token.clone()
    }

    fn abort(&mut self) -> (a: Action)
        ensures
            (final(self)@, a@) == old(self)@.abort(),
    {
        self.phase = Phase::Finished;
        Action::Abort
    }

    fn go(&mut self, phase: Phase, a: Action) -> (r: Action)
        ensures
            final(self)@ == old(self)@.to(phase),
            r == a,
    {
        self.phase = phase;
        a
    }

    /// Reports `event` and returns what is to be done next.
    pub fn step(&mut self, event: Event) -> (action: Action)
        ensures
            (final(self)@, action@) == old(self)@.next(event@),
    {
        match self.phase {
            Phase::Connected => match event {
                Event::Opened => self.go(Phase::Greeting, Action::Send(Notice::Greeting)),
                _ => Action::Nothing,
            },
            Phase::Greeting => match event {
                Event::Sent(ok) => if ok {
                    self.go(Phase::ReadingToken, Action::ReadByte)
                } else {
                    self.abort()
                },
                _ => Action::Nothing,
            },
            Phase::ReadingToken => match event {
                Event::Byte(c) => if c == LINE_FEED {
                    let token = decode_team_token(&self.typed);
                    self.token = token.clone();
                    self.go(Phase::CheckingToken, Action::CheckToken(token))
                } else {
                    self.typed.push(c);
                    Action::ReadByte
                },
                Event::ReadFailed => self.abort(),
                _ => Action::Nothing,
            },
            Phase::CheckingToken => match event {
                Event::TokenChecked(valid) => if valid {
                    let t = self.token.clone();
                    self.go(Phase::Entering, Action::Enter(t))
                } else {
                    self.go(Phase::Rejecting, Action::Send(Notice::TokenRejected))
                },
                Event::CheckFailed => self.abort(),
                _ => Action::Nothing,
            },
            Phase::Rejecting => match event {
                Event::Sent(ok) => if ok {
                    self.go(Phase::Finished, Action::Close)
                } else {
                    self.abort()
                },
                _ => Action::Nothing,
            },
            Phase::Entering => match event {
                Event::Entered(entry) => match entry {
                    Entry::Duplicate => self.go(Phase::Rejecting, Action::Send(Notice::DuplicateTeam)),
                    Entry::Admitted => self.go(Phase::Starting, Action::Send(Notice::Starting)),
                    Entry::Queued(_) => self.go(Phase::Queued, Action::AwaitQueue),
                },
                _ => Action::Nothing,
            },
            Phase::Queued => match event {
                Event::QueueNotice(k) => if k == 0 {
                    self.go(Phase::QueueDoneSent, Action::Send(Notice::QueueDone))
                } else {
                    self.go(Phase::QueueAheadSent, Action::Send(Notice::QueueAhead(k - 1)))
                },
                _ => Action::Nothing,
            },
            Phase::QueueAheadSent => match event {
                Event::Sent(_) => self.go(Phase::Queued, Action::AwaitQueue),
                _ => Action::Nothing,
            },
            Phase::QueueDoneSent => match event {
                Event::Sent(_) => self.go(Phase::Starting, Action::Send(Notice::Starting)),
                _ => Action::Nothing,
            },
            Phase::Starting => match event {
                Event::Sent(ok) => if ok {
                    self.go(Phase::AwaitingTask, Action::GetTask)
                } else {
                    let t = self.token.clone();
                    self.go(Phase::Finished, Action::Release(t))
                },
                _ => Action::Nothing,
            },
            Phase::AwaitingTask => match event {
                Event::TaskReady(ip) => {
                    let target = forward_target(&ip);
                    self.go(Phase::OpeningForward, Action::OpenForward(target))
                },
                Event::TaskFailed => self.abort(),
                _ => Action::Nothing,
            },
            Phase::OpeningForward => match event {
                Event::ForwardOpened(port) => {
                    self.port = port;
                    self.go(Phase::ReadySent, Action::Send(Notice::Ready(port)))
                },
                _ => Action::Nothing,
            },
            Phase::ReadySent => match event {
                Event::Sent(_) => self.go(Phase::Watching, Action::WatchPeer),
                _ => Action::Nothing,
            },
            Phase::Watching => match event {
                Event::PeerData(n) => if n == 0 {
                    self.go(Phase::ShuttingDown, Action::Shutdown)
                } else {
                    self.go(Phase::IdleSent, Action::Send(Notice::Idle))
                },
                Event::PeerError => self.go(Phase::ShuttingDown, Action::Shutdown),
                Event::TimedOut => self.go(Phase::TimeoutSent, Action::Send(Notice::Timeout)),
                _ => Action::Nothing,
            },
            Phase::IdleSent => match event {
                Event::Sent(_) => {
                    let port = self.port;
                    self.go(Phase::ReadyResent, Action::Send(Notice::Ready(port)))
                },
                Event::TimedOut => self.go(Phase::TimeoutSent, Action::Send(Notice::Timeout)),
                _ => Action::Nothing,
            },
            Phase::ReadyResent => match event {
                Event::Sent(_) => self.go(Phase::Watching, Action::WatchPeer),
                Event::TimedOut => self.go(Phase::TimeoutSent, Action::Send(Notice::Timeout)),
                _ => Action::Nothing,
            },
            Phase::TimeoutSent => match event {
                Event::Sent(ok) => if ok {
                    self.go(Phase::ShuttingDown, Action::Shutdown)
                } else {
                    self.abort()
                },
                _ => Action::Nothing,
            },
            Phase::ShuttingDown => match event {
                Event::ShutDown(ok) => if ok {
                    self.go(Phase::DroppingTask, Action::StopAndDropTask)
                } else {
                    self.abort()
                },
                _ => Action::Nothing,
            },
            Phase::DroppingTask => match event {
                Event::TaskDropped(ok) => if ok {
                    let t = self.token.clone();
                    self.go(Phase::Finished, Action::Release(t))
                } else {
                    self.abort()
                },
                _ => Action::Nothing,
            },
            Phase::Finished => Action::Nothing,
        }
    }
}

/// A finished session stays finished and asks for nothing more.
pub proof fn lemma_session_finished_is_final(s: SessionView, e: EventView)
    requires
        s.phase == Phase::Finished,
    ensures
        s.next(e) == (s, ActionView::Nothing),
{
}

/// The team's token is fixed once it has been typed: only reading the token
/// changes it, and the token checked is the typed line, decoded and trimmed,
/// which never holds the line feed.
pub proof fn lemma_session_token_fixed(s: SessionView, e: EventView)
    ensures
        s.phase != Phase::ReadingToken ==> s.next(e).0.token == s.token && s.next(e).0.typed == s.typed,
        !s.typed.contains(LINE_FEED) ==> !s.next(e).0.typed.contains(LINE_FEED),
        s.next(e).1 matches ActionView::CheckToken(t) ==> t == trimmed(utf8_lossy(s.typed)) && t == s.next(e).0.token,
{
    if s.phase == Phase::ReadingToken {
        if let EventView::Byte(c) = e {
            if c != LINE_FEED && !s.typed.contains(LINE_FEED) {
                let after = s.typed.push(c);
                assert forall|i: int| 0 <= i < after.len() implies after[i] != LINE_FEED by {
                    if i < s.typed.len() {
                        assert(after[i] == s.typed[i]);
                    }
                }
            }
        }
    }
}

/// A team is registered only by a successful entry, and a registered team
/// leaves only by a release of its own token or by the connection being
/// dropped; either way the session is then over. A release happens only for a
/// registered team and names that team's token.
pub proof fn lemma_session_registration_bracket(s: SessionView, e: EventView)
    ensures
        SessionView::holds_registration(s.next(e).0.phase) && !SessionView::holds_registration(s.phase) ==> s.phase
            == Phase::Entering && (e == EventView::Entered(Entry::Admitted) || e matches EventView::Entered(
            Entry::Queued(_),
        )),
        SessionView::holds_registration(s.phase) && !SessionView::holds_registration(s.next(e).0.phase) ==> s.next(
            e,
        ).0.phase == Phase::Finished && (s.next(e).1 == ActionView::Release(s.token) || s.next(e).1
            == ActionView::Abort),
        s.next(e).1 matches ActionView::Release(t) ==> SessionView::holds_registration(s.phase) && t == s.token
            && s.next(e).0.phase == Phase::Finished,
{
}

/// A refusal is sent only to a team that is not registered, and the session
/// then closes without registering it.
pub proof fn lemma_session_refusal_unregistered(s: SessionView, e: EventView)
    ensures
        (s.next(e).1 == ActionView::Send(Notice::TokenRejected) || s.next(e).1 == ActionView::Send(
            Notice::DuplicateTeam,
        )) ==> !SessionView::holds_registration(s.phase) && s.next(e).0.phase == Phase::Rejecting,
        s.phase == Phase::Rejecting ==> !SessionView::holds_registration(s.next(e).0.phase),
{
}

/// Every announcement of the instance names the port its forward listens on.
pub proof fn lemma_session_announces_forward_port(s: SessionView, e: EventView)
    ensures
        s.next(e).1 matches ActionView::Send(Notice::Ready(p)) ==> p == s.next(e).0.port,
        s.phase == Phase::OpeningForward ==> (e matches EventView::ForwardOpened(p) ==> s.next(e).0.port == p),
{
}

/// The announcement of an instance tells the team its port twice, and a
/// reader of the text finds it: the digits right after the server address
/// `47.90.215.212:` and those right after `http://apps.example.com:` both read
/// back as the port. Different ports are announced by different texts.
pub proof fn lemma_ready_notice_names_port(p: u16, q: u16)
    ensures
        ({
            let t = notice_text(Notice::Ready(p));
            let head = "you have 300sec, And you server is at 47.90.215.212:"@;
            let mid = "\nchange you host apps.example.com to this ip and access http://apps.example.com:"@;
            let k = head.len() + leading_digits(t.skip(head.len() as int)) + mid.len();
            &&& t.take(head.len() as int) == head
            &&& read_number(t.skip(head.len() as int)) == p
            &&& t.subrange(k - mid.len(), k as int) == mid
            &&& read_number(t.skip(k as int)) == p
        }),
        notice_text(Notice::Ready(p)) == notice_text(Notice::Ready(q)) ==> p == q,
{
    lemma_ready_text_reads(p);
    lemma_ready_text_reads(q);
    let head = "you have 300sec, And you server is at 47.90.215.212:"@;
    if notice_text(Notice::Ready(p)) == notice_text(Notice::Ready(q)) {
        assert(notice_text(Notice::Ready(p)).skip(head.len() as int) == notice_text(Notice::Ready(q)).skip(
            head.len() as int,
        ));
    }
}

proof fn lemma_ready_text_reads(p: u16)
    ensures
        ({
            let t = notice_text(Notice::Ready(p));
            let head = "you have 300sec, And you server is at 47.90.215.212:"@;
            let mid = "\nchange you host apps.example.com to this ip and access http://apps.example.com:"@;
            let k = head.len() + leading_digits(t.skip(head.len() as int)) + mid.len();
            &&& t.take(head.len() as int) == head
            &&& read_number(t.skip(head.len() as int)) == p
            &&& t.subrange(k - mid.len(), k as int) == mid
            &&& read_number(t.skip(k as int)) == p
        }),
{
    reveal_strlit("you have ");
    reveal_strlit("300");
    reveal_strlit("sec, And you server is at 47.90.215.212:");
    reveal_strlit("you have 300sec, And you server is at 47.90.215.212:");
    reveal_strlit("\nchange you host apps.example.com to this ip and access http://apps.example.com:");
    reveal_strlit(
        "/OA_HTML/AppsLocalLogin.jsp\nplz do not close this connection unless you want to release all resource and quit",
    );
    reveal_with_fuel(decimal, 4);
    assert(decimal(300) =~= "300"@);
    let t = notice_text(Notice::Ready(p));
    let head = "you have 300sec, And you server is at 47.90.215.212:"@;
    let mid = "\nchange you host apps.example.com to this ip and access http://apps.example.com:"@;
    let tail = "/OA_HTML/AppsLocalLogin.jsp\nplz do not close this connection unless you want to release all resource and quit"@;
    let d = decimal(p as nat);
    assert("you have "@ + decimal(TIMEOUT as nat) + "sec, And you server is at 47.90.215.212:"@ =~= head);
    assert(t =~= head + d + mid + d + tail);
    crate::text::lemma_decimal_reads_back(p as nat);
    let after_head = d + (mid + d + tail);
    assert(t.skip(head.len() as int) =~= after_head);
    assert(t.take(head.len() as int) =~= head);
    assert(!crate::text::is_digit(mid[0]));
    crate::text::lemma_read_number_of_digits(d, mid + d + tail);
    let k = head.len() + d.len() + mid.len();
    assert(t.subrange(k - mid.len(), k as int) =~= mid);
    assert(t.skip(k as int) =~= d + tail);
    assert(!crate::text::is_digit(tail[0]));
    crate::text::lemma_read_number_of_digits(d, tail);
}

/// The session after a run of events, the first event first, and the action
/// asked for by the last one.
pub open spec fn session_run(s: SessionView, events: Seq<EventView>) -> (SessionView, ActionView)
    decreases events.len(),
{
    if events.len() == 0 {
        (s, ActionView::Nothing)
    } else {
        session_run(s, events.drop_last()).0.next(events.last())
    }
}

/// While the token is typed, every byte other than the line feed is kept and
/// the next one is read; so after typing bytes `b` (no line feed) and then a
/// line feed, the token checked is the whole typed line `b`, decoded and
/// trimmed, and nothing else of the session has changed.
pub proof fn lemma_session_whole_line_is_token(s: SessionView, c: u8, b: Seq<u8>)
    requires
        s.phase == Phase::ReadingToken,
    ensures
        c != LINE_FEED ==> s.next(EventView::Byte(c)) == (SessionView { typed: s.typed.push(c), ..s }, ActionView::ReadByte),
        !b.contains(LINE_FEED) ==> session_run(s, b.map_values(|x: u8| EventView::Byte(x))).0 == (SessionView {
            typed: s.typed + b,
            ..s
        }),
        !b.contains(LINE_FEED) ==> session_run(s, b.push(LINE_FEED).map_values(|x: u8| EventView::Byte(x))) == (
        SessionView { phase: Phase::CheckingToken, typed: s.typed + b, token: trimmed(utf8_lossy(s.typed + b)), ..s },
        ActionView::CheckToken(trimmed(utf8_lossy(s.typed + b)))),
    decreases b.len(),
{
    if !b.contains(LINE_FEED) {
        let evs = b.map_values(|x: u8| EventView::Byte(x));
        if b.len() == 0 {
            assert(s.typed + b =~= s.typed);
        } else {
            let pre = b.drop_last();
            assert(!pre.contains(LINE_FEED)) by {
                if pre.contains(LINE_FEED) {
                    let i = choose|i: int| 0 <= i < pre.len() && pre[i] == LINE_FEED;
                    assert(b[i] == LINE_FEED);
                }
            }
            lemma_session_whole_line_is_token(s, c, pre);
            assert(evs.drop_last() =~= pre.map_values(|x: u8| EventView::Byte(x)));
            assert(b.last() != LINE_FEED) by {
                assert(b[b.len() - 1] == b.last());
            }
            assert(evs.last() == EventView::Byte(b.last()));
            assert((s.typed + pre).push(b.last()) =~= s.typed + b);
        }
        let all = b.push(LINE_FEED).map_values(|x: u8| EventView::Byte(x));
        assert(all.drop_last() =~= evs);
        assert(all.last() == EventView::Byte(LINE_FEED));
    }
}

/// A team that has to wait stays in line: whatever position it is given, the
/// session waits for the queue. It goes on to start its instance only when it
/// got a slot at once, or after the queue told it its turn has come.
pub proof fn lemma_session_waits_its_turn(s: SessionView, e: EventView, p: u64)
    ensures
        s.phase == Phase::Entering ==> s.next(EventView::Entered(Entry::Queued(p))) == (s.to(Phase::Queued), ActionView::AwaitQueue),
        s.phase != Phase::Starting && s.next(e).0.phase == Phase::Starting ==> (s.phase == Phase::Entering && e
            == EventView::Entered(Entry::Admitted)) || (s.phase == Phase::QueueDoneSent && e is Sent),
        s.phase != Phase::QueueDoneSent && s.next(e).0.phase == Phase::QueueDoneSent ==> s.phase == Phase::Queued && e
            == EventView::QueueNotice(0),
        s.phase == Phase::Queued && s.next(e).0.phase != Phase::Queued ==> e is QueueNotice,
        s.phase == Phase::Queued ==> (e matches EventView::QueueNotice(k) ==> (k > 0 ==> s.next(e).0.phase
            == Phase::QueueAheadSent && s.next(e).1 == ActionView::Send(Notice::QueueAhead((k - 1) as u64)))),
{
}

/// When the team leaves or its connection breaks while its instance runs, the
/// connection is shut down (and then the instance and the slot are given
/// back), exactly as when it closes the connection. A registered team is
/// dropped without cleaning up only after a write, a shutdown or the return of
/// its instance failed, or no instance could be had.
pub proof fn lemma_session_departure_cleans_up(s: SessionView, e: EventView)
    ensures
        s.phase == Phase::Watching ==> s.next(EventView::PeerError) == (s.to(Phase::ShuttingDown), ActionView::Shutdown),
        s.phase == Phase::Watching ==> s.next(EventView::PeerData(0)) == (s.to(Phase::ShuttingDown), ActionView::Shutdown),
        SessionView::holds_registration(s.phase) && s.next(e).1 == ActionView::Abort ==> e == EventView::Sent(false)
            || e == EventView::ShutDown(false) || e == EventView::TaskDropped(false) || e == EventView::TaskFailed,
        s.phase == Phase::ShuttingDown ==> s.next(EventView::ShutDown(true)) == (s.to(Phase::DroppingTask), ActionView::StopAndDropTask),
        s.phase == Phase::DroppingTask ==> s.next(EventView::TaskDropped(true)) == (s.to(Phase::Finished), ActionView::Release(s.token)),
{
}

/// A waiting team is told how many are ahead of it: the digits right after
/// `There are ` read back as that number.
pub proof fn lemma_queue_notice_names_count(k: u64)
    ensures
        notice_text(Notice::QueueAhead(k)).take("There are "@.len() as int) == "There are "@,
        read_number(notice_text(Notice::QueueAhead(k)).skip("There are "@.len() as int)) == k,
{
    reveal_strlit("There are ");
    reveal_strlit(" challengers are waitting for do challenge, plz wait\n");
    let head = "There are "@;
    let d = decimal(k as nat);
    let tail = " challengers are waitting for do challenge, plz wait\n"@;
    let t = notice_text(Notice::QueueAhead(k));
    assert(t =~= head + d + tail);
    assert(t.take(head.len() as int) =~= head);
    assert(t.skip(head.len() as int) =~= d + tail);
    crate::text::lemma_decimal_reads_back(k as nat);
    assert(!crate::text::is_digit(tail[0]));
    crate::text::lemma_read_number_of_digits(d, tail);
}

/// The typed token decides: a valid one is registered under that very token,
/// an invalid one is refused, and a check that could not be made drops the
/// connection.
pub proof fn lemma_session_token_decides(s: SessionView)
    requires
        s.phase == Phase::CheckingToken,
    ensures
        s.next(EventView::TokenChecked(true)) == (s.to(Phase::Entering), ActionView::Enter(s.token)),
        s.next(EventView::TokenChecked(false)) == (s.to(Phase::Rejecting), ActionView::Send(Notice::TokenRejected)),
        s.next(EventView::CheckFailed) == (s.to(Phase::Finished), ActionView::Abort),
{
}

} // verus!
