use chall_gate::queue::ChallQueue;
use chall_gate::registry::TeamRegistry;
use chall_gate::session::{enter, leave, Action, Entry, Event, Notice, Phase, Session, TIMEOUT};

fn send_notice(a: &Action) -> Notice {
    match a {
        Action::Send(n) => *n,
        other => panic!("expected a notice, got {:?}", other),
    }
}

fn typed(s: &mut Session, text: &str) -> Action {
    let mut last = Action::Nothing;
    for b in text.bytes() {
        last = s.step(Event::Byte(b));
    }
    last
}

#[test]
fn session_notice_texts() {
    assert_eq!(
        Notice::Greeting.text(),
        "1. tcp port 8000 will be forwarded to another port\n2. Only one instance is allowd for each team at a time\n3. Please input your team token now:\n"
    );
    assert_eq!(Notice::TokenRejected.text(), "team token error\n");
    assert_eq!(Notice::DuplicateTeam.text(), "every team can only have one instance\n");
    assert_eq!(
        Notice::QueueAhead(3).text(),
        "There are 3 challengers are waitting for do challenge, plz wait\n"
    );
    assert_eq!(Notice::QueueDone.text(), "thx for wait, not you can do challenge\n");
    assert_eq!(Notice::Starting.text(), "starting challenge server\nThis should take some times\n");
    assert_eq!(Notice::Idle.text(), "talk to this port is use less.\n");
    assert_eq!(Notice::Timeout.text(), "timeout!! bye\n");
    let expected = format!("you have {}sec, And you server is at 47.90.215.212:{}\nchange you host apps.example.com to this ip and access http://apps.example.com:{}/OA_HTML/AppsLocalLogin.jsp\nplz do not close this connection unless you want to release all resource and quit", TIMEOUT, 31337, 31337);
    assert_eq!(Notice::Ready(31337).text(), expected);
}

#[test]
fn session_full_admitted_run() {
    let mut s = Session::new();
    assert_eq!(s.phase(), Phase::Connected);
    assert_eq!(send_notice(&s.step(Event::Opened)), Notice::Greeting);
    assert!(matches!(s.step(Event::Sent(true)), Action::ReadByte));
    assert!(matches!(typed(&mut s, " team-1 \r"), Action::ReadByte));
    match s.step(Event::Byte(10)) {
        Action::CheckToken(t) => assert_eq!(t, "team-1"),
        other => panic!("{:?}", other),
    }
    match s.step(Event::TokenChecked(true)) {
        Action::Enter(t) => assert_eq!(t, "team-1"),
        other => panic!("{:?}", other),
    }
    assert_eq!(send_notice(&s.step(Event::Entered(Entry::Admitted))), Notice::Starting);
    assert!(matches!(s.step(Event::Sent(true)), Action::GetTask));
    match s.step(Event::TaskReady(String::from("192.168.145.130"))) {
        Action::OpenForward(a) => assert_eq!(a, "192.168.145.130:8000"),
        other => panic!("{:?}", other),
    }
    assert_eq!(send_notice(&s.step(Event::ForwardOpened(35000))), Notice::Ready(35000));
    assert!(matches!(s.step(Event::Sent(true)), Action::WatchPeer));
    // the team writes something: it is told off and reminded
    assert_eq!(send_notice(&s.step(Event::PeerData(5))), Notice::Idle);
    assert_eq!(send_notice(&s.step(Event::Sent(true))), Notice::Ready(35000));
    assert!(matches!(s.step(Event::Sent(true)), Action::WatchPeer));
    // the team leaves
    assert!(matches!(s.step(Event::PeerData(0)), Action::Shutdown));
    assert!(matches!(s.step(Event::ShutDown(true)), Action::StopAndDropTask));
    match s.step(Event::TaskDropped(true)) {
        Action::Release(t) => assert_eq!(t, "team-1"),
        other => panic!("{:?}", other),
    }
    assert_eq!(s.phase(), Phase::Finished);
    assert!(matches!(s.step(Event::Opened), Action::Nothing));
}

fn to_entering(s: &mut Session, token: &str) {
    s.step(Event::Opened);
    s.step(Event::Sent(true));
    typed(s, token);
    s.step(Event::Byte(10));
    s.step(Event::TokenChecked(true));
}

#[test]
fn session_queued_run() {
    let mut s = Session::new();
    to_entering(&mut s, "t");
    assert!(matches!(s.step(Event::Entered(Entry::Queued(2))), Action::AwaitQueue));
    assert_eq!(send_notice(&s.step(Event::QueueNotice(2))), Notice::QueueAhead(1));
    assert!(matches!(s.step(Event::Sent(false)), Action::AwaitQueue));
    assert_eq!(send_notice(&s.step(Event::QueueNotice(1))), Notice::QueueAhead(0));
    assert!(matches!(s.step(Event::Sent(true)), Action::AwaitQueue));
    assert_eq!(send_notice(&s.step(Event::QueueNotice(0))), Notice::QueueDone);
    assert_eq!(send_notice(&s.step(Event::Sent(true))), Notice::Starting);
    // the team is gone before the instance starts: it is released
    match s.step(Event::Sent(false)) {
        Action::Release(t) => assert_eq!(t, "t"),
        other => panic!("{:?}", other),
    }
    assert_eq!(s.phase(), Phase::Finished);
}

#[test]
fn session_rejects_bad_token() {
    let mut s = Session::new();
    s.step(Event::Opened);
    s.step(Event::Sent(true));
    typed(&mut s, "nope\n");
    assert_eq!(send_notice(&s.step(Event::TokenChecked(false))), Notice::TokenRejected);
    assert!(matches!(s.step(Event::Sent(true)), Action::Close));
    assert_eq!(s.phase(), Phase::Finished);
}

#[test]
fn session_rejects_duplicate_team() {
    let mut s = Session::new();
    to_entering(&mut s, "t");
    assert_eq!(send_notice(&s.step(Event::Entered(Entry::Duplicate))), Notice::DuplicateTeam);
    assert!(matches!(s.step(Event::Sent(false)), Action::Abort));
    assert_eq!(s.phase(), Phase::Finished);
}

#[test]
fn session_timeout_run() {
    let mut s = Session::new();
    to_entering(&mut s, "t");
    s.step(Event::Entered(Entry::Admitted));
    s.step(Event::Sent(true));
    s.step(Event::TaskReady(String::from("10.0.0.1")));
    s.step(Event::ForwardOpened(30001));
    s.step(Event::Sent(true));
    assert_eq!(send_notice(&s.step(Event::TimedOut)), Notice::Timeout);
    assert!(matches!(s.step(Event::Sent(true)), Action::Shutdown));
    assert!(matches!(s.step(Event::ShutDown(false)), Action::Abort));
}

#[test]
fn session_aborts_on_failures() {
    let mut s = Session::new();
    s.step(Event::Opened);
    assert!(matches!(s.step(Event::Sent(false)), Action::Abort));
    let mut s = Session::new();
    s.step(Event::Opened);
    s.step(Event::Sent(true));
    assert!(matches!(s.step(Event::ReadFailed), Action::Abort));
    let mut s = Session::new();
    to_entering(&mut s, "t");
    s.step(Event::Entered(Entry::Admitted));
    s.step(Event::Sent(true));
    assert!(matches!(s.step(Event::TaskFailed), Action::Abort));
}

#[test]
fn session_ignores_unexpected_events() {
    let mut s = Session::new();
    assert!(matches!(s.step(Event::Byte(65)), Action::Nothing));
    assert_eq!(s.phase(), Phase::Connected);
    assert_eq!(s.token(), "");
}

#[test]
fn session_enter_and_leave() {
    let mut teams = TeamRegistry::new();
    let mut queue = ChallQueue::new(1);
    let a = String::from("a");
    let b = String::from("b");
    assert_eq!(enter(&mut teams, &mut queue, &a, 1), Entry::Admitted);
    assert_eq!(enter(&mut teams, &mut queue, &a, 2), Entry::Duplicate);
    assert_eq!(enter(&mut teams, &mut queue, &b, 3), Entry::Queued(1));
    assert_eq!(teams.len(), 2);
    let notices = leave(&mut teams, &mut queue, &a);
    assert_eq!(notices, vec![(3, 0)]);
    assert!(!teams.contains(&a));
    assert_eq!((queue.working(), queue.waiting()), (1, 0));
    let notices = leave(&mut teams, &mut queue, &b);
    assert!(notices.is_empty());
    assert_eq!((teams.len(), queue.working()), (0, 0));
}

#[test]
fn session_registry_and_queue_agree() {
    let mut teams = TeamRegistry::new();
    let mut queue = ChallQueue::new(2);
    let names: Vec<String> = (0..5).map(|i| format!("team{}", i)).collect();
    for (i, n) in names.iter().enumerate() {
        enter(&mut teams, &mut queue, n, i as u64);
        enter(&mut teams, &mut queue, n, 100 + i as u64);
        assert_eq!(teams.len(), queue.working() + queue.waiting());
    }
    for n in names.iter() {
        assert!(queue.can_queue_out());
        leave(&mut teams, &mut queue, n);
        assert_eq!(teams.len(), queue.working() + queue.waiting());
    }
    assert!(!queue.can_queue_out());
}
