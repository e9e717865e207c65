use derive_aktor::kv_store::{KeyValueStore, KeyValueStoreMessage, KeyValueStoreReply};
use derive_aktor::logger::{PrintLogger, PrintLoggerMessage};
use derive_aktor::runtime::{complete_call, Actor, Handle, Handler, RouterState, SendError, StepOutcome};

/// Adds numbers; a negative one is a fault.
#[derive(Default)]
struct Adder {
    total: i64,
    seen: Vec<i64>,
    faults: Vec<String>,
    idles: usize,
    own: Option<Handle>,
}

#[derive(Debug)]
enum AddMsg {
    Add(i64),
}

impl Handler for Adder {
    type Msg = AddMsg;
    type Reply = i64;
    type Fault = String;

    fn handle(&mut self, msg: &AddMsg) -> Result<i64, String> {
        let AddMsg::Add(n) = msg;
        if *n < 0 {
            return Err(format!("negative {}", n));
        }
        self.seen.push(*n);
        self.total += *n;
        Ok(self.total)
    }

    fn on_error(&mut self, fault: String, msg: &AddMsg) {
        self.faults.push(format!("{} in {:?}", fault, msg));
    }

    fn on_idle(&mut self) {
        self.idles += 1;
    }

    fn set_self_handle(&mut self, handle: Handle) {
        self.own = Some(handle);
    }

    fn retire(&mut self, _msg: AddMsg) -> Vec<Handle> {
        Vec::new()
    }

    fn close(&mut self) -> Vec<Handle> {
        self.own.take().into_iter().collect()
    }
}

/// An actor whose one method takes a handle to another actor and lets it go.
#[derive(Default)]
struct Peer {
    own: Option<Handle>,
    calls: usize,
}

enum PeerMsg {
    Meet { other: Handle },
}

impl Handler for Peer {
    type Msg = PeerMsg;
    type Reply = ();
    type Fault = String;

    fn handle(&mut self, _msg: &PeerMsg) -> Result<(), String> {
        self.calls += 1;
        Ok(())
    }

    fn on_error(&mut self, _fault: String, _msg: &PeerMsg) {}

    fn on_idle(&mut self) {}

    fn set_self_handle(&mut self, handle: Handle) {
        self.own = Some(handle);
    }

    fn retire(&mut self, msg: PeerMsg) -> Vec<Handle> {
        let PeerMsg::Meet { other } = msg;
        vec![other]
    }

    fn close(&mut self) -> Vec<Handle> {
        self.own.take().into_iter().collect()
    }
}

/// Releases each handle to the actor it reaches.
fn release_all(handles: Vec<Handle>, a: &mut Actor<Peer>, b: &mut Actor<Peer>) {
    for h in handles {
        if h.actor_id() == a.id() {
            a.release(h);
        } else if h.actor_id() == b.id() {
            b.release(h);
        }
    }
}

fn str_of(s: &str) -> String {
    s.to_string()
}

#[test]
fn test_termination() {
    let (mut ping, handle) = Actor::new(Peer::default());
    ping.release(handle);
    ping.run();
    assert_eq!(ping.state(), RouterState::Terminated);
    assert!(!ping.is_alive());
}

#[test]
fn test_cycle_termination() {
    let (mut a, ha) = Actor::new(Peer::default());
    let (mut b, hb) = Actor::new(Peer::default());
    // Each actor gets a fresh handle to the other.
    let a_for_b = a.clone_handle(&ha);
    let b_for_a = b.clone_handle(&hb);
    assert!(a.tell(&ha, PeerMsg::Meet { other: b_for_a }).is_ok());
    assert!(b.tell(&hb, PeerMsg::Meet { other: a_for_b }).is_ok());
    a.release(ha);
    b.release(hb);
    for _ in 0..10 {
        let (_, from_a) = a.step();
        release_all(from_a, &mut a, &mut b);
        let (_, from_b) = b.step();
        release_all(from_b, &mut a, &mut b);
    }
    assert_eq!(a.state(), RouterState::Terminated);
    assert_eq!(b.state(), RouterState::Terminated);
}

#[test]
fn store_set_then_query() {
    let (mut store, h) = Actor::new(KeyValueStore::new());
    let set = KeyValueStoreMessage::SetValue { key: str_of("foo"), value: str_of("bar") };
    assert!(store.tell(&h, set).is_ok());
    let found = store.ask(&h, KeyValueStoreMessage::Query { key: str_of("foo") }).unwrap();
    let missing = store.ask(&h, KeyValueStoreMessage::Query { key: str_of("missing") }).unwrap();
    store.run();
    match store.take_reply(&found) {
        Some(KeyValueStoreReply::Value(v)) => assert_eq!(v, Some(str_of("bar"))),
        other => panic!("unexpected reply {:?}", other),
    }
    match store.take_reply(&missing) {
        Some(KeyValueStoreReply::Value(v)) => assert_eq!(v, None),
        other => panic!("unexpected reply {:?}", other),
    }
    assert!(store.is_alive());
}

#[test]
fn fault_does_not_stop_the_actor() {
    let (mut adder, h) = Actor::new(Adder::default());
    let first = adder.ask(&h, AddMsg::Add(5)).unwrap();
    let bad = adder.ask(&h, AddMsg::Add(-1)).unwrap();
    let after = adder.ask(&h, AddMsg::Add(7)).unwrap();
    assert_eq!(adder.step().0, StepOutcome::Handled);
    assert_eq!(adder.step().0, StepOutcome::Faulted);
    assert_eq!(adder.state(), RouterState::Running);
    assert_eq!(adder.pending(), 1);
    assert_eq!(adder.step().0, StepOutcome::Handled);
    assert_eq!(adder.take_reply(&first), Some(5));
    assert!(!adder.reply_ready(&bad));
    assert_eq!(adder.take_reply(&bad), None);
    assert_eq!(adder.take_reply(&after), Some(12));
    let later = adder.ask(&h, AddMsg::Add(1)).unwrap();
    adder.run();
    assert_eq!(adder.take_reply(&later), Some(13));
}

#[test]
fn each_ask_gets_its_own_reply_once() {
    let (mut adder, h) = Actor::new(Adder::default());
    let h2 = adder.clone_handle(&h);
    let t1 = adder.ask(&h, AddMsg::Add(1)).unwrap();
    let t2 = adder.ask(&h2, AddMsg::Add(2)).unwrap();
    let t3 = adder.ask(&h, AddMsg::Add(3)).unwrap();
    assert!(!adder.reply_ready(&t1));
    adder.run();
    assert!(adder.reply_ready(&t2));
    assert_eq!(adder.take_reply(&t3), Some(6));
    assert_eq!(adder.take_reply(&t1), Some(1));
    assert_eq!(adder.take_reply(&t2), Some(3));
    assert_eq!(adder.take_reply(&t1), None);
    assert!(!adder.reply_ready(&t2));
}

#[test]
fn calls_run_in_send_order() {
    let (mut adder, h) = Actor::new(Adder::default());
    let h2 = adder.clone_handle(&h);
    let mut tickets = Vec::new();
    for n in [4, 1, 3] {
        tickets.push(adder.ask(&h, AddMsg::Add(n)).unwrap());
    }
    tickets.push(adder.ask(&h2, AddMsg::Add(9)).unwrap());
    tickets.push(adder.ask(&h, AddMsg::Add(2)).unwrap());
    adder.run();
    let totals: Vec<Option<i64>> = tickets.iter().map(|t| adder.take_reply(t)).collect();
    assert_eq!(totals, vec![Some(4), Some(5), Some(8), Some(17), Some(19)]);
}

#[test]
fn live_handle_keeps_router_running() {
    let (mut adder, h) = Actor::new(Adder::default());
    assert_eq!(adder.live_handles(), 2);
    let h2 = adder.clone_handle(&h);
    assert_eq!(adder.live_handles(), 3);
    adder.release(h);
    assert_eq!(adder.pending(), 0);
    adder.run();
    assert_eq!(adder.step().0, StepOutcome::Idle);
    assert_eq!(adder.state(), RouterState::Running);
    assert!(adder.tell(&h2, AddMsg::Add(1)).is_ok());
    assert!(adder.tell(&h2, AddMsg::Add(2)).is_ok());
    adder.release(h2);
    assert_eq!(adder.live_handles(), 1);
    // Two calls, then the kill request.
    assert_eq!(adder.pending(), 3);
    assert_eq!(adder.step().0, StepOutcome::Handled);
    assert_eq!(adder.step().0, StepOutcome::Handled);
    let (outcome, held) = adder.step();
    assert_eq!(outcome, StepOutcome::Terminated);
    assert_eq!(held.len(), 1);
    assert_eq!(adder.step().0, StepOutcome::Stopped);
}

#[test]
fn hard_kill_ignores_mailbox_and_handles() {
    let (mut adder, h) = Actor::new(Adder::default());
    let h2 = adder.clone_handle(&h);
    for n in 1..5 {
        assert!(adder.tell(&h, AddMsg::Add(n)).is_ok());
    }
    let pending = adder.ask(&h2, AddMsg::Add(1)).unwrap();
    let held = adder.hard_kill();
    assert_eq!(held.len(), 1);
    assert_eq!(adder.state(), RouterState::Terminated);
    assert_eq!(adder.pending(), 0);
    assert_eq!(adder.live_handles(), 3);
    assert_eq!(adder.take_reply(&pending), None);
    assert_eq!(adder.tell(&h, AddMsg::Add(1)), Err(SendError::MailboxClosed));
    assert!(adder.ask(&h2, AddMsg::Add(1)).is_err());
    assert_eq!(adder.step().0, StepOutcome::Stopped);
}

#[test]
fn idle_step_keeps_running() {
    let (mut adder, h) = Actor::new(Adder::default());
    assert_eq!(adder.step().0, StepOutcome::Idle);
    assert_eq!(adder.step().0, StepOutcome::Idle);
    assert_eq!(adder.state(), RouterState::Running);
    assert_eq!(h.actor_id(), adder.id());
}

#[test]
fn actor_ids_are_version_four_uuids() {
    let (a, ha) = Actor::new(Adder::default());
    let (b, _hb) = Actor::new(Adder::default());
    for id in [a.id(), b.id()] {
        assert_eq!((id >> 76) & 0xf, 4);
        assert_eq!((id >> 62) & 0x3, 2);
    }
    assert_ne!(a.id(), b.id());
    assert_eq!(ha.actor_id(), a.id());
    assert_eq!(ha.index(), 1);
}

#[test]
fn handle_indexes_increase() {
    let (mut a, h) = Actor::new(Adder::default());
    let c1 = a.clone_handle(&h);
    let c2 = a.clone_handle(&c1);
    assert!(c2.index() > c1.index());
    assert!(c1.index() > h.index());
}

#[test]
fn complete_call_files_reply_or_returns_fault() {
    let mut slots: Vec<Option<i64>> = vec![None, None];
    let (outcome, fault) = complete_call::<i64, String>(&mut slots, Some(1), Ok(7));
    assert_eq!(outcome, StepOutcome::Handled);
    assert_eq!(fault, None);
    assert_eq!(slots, vec![None, Some(7)]);
    let (outcome, fault) = complete_call::<i64, String>(&mut slots, Some(0), Err(str_of("boom")));
    assert_eq!(outcome, StepOutcome::Faulted);
    assert_eq!(fault, Some(str_of("boom")));
    assert_eq!(slots, vec![None, Some(7)]);
    let (outcome, _) = complete_call::<i64, String>(&mut slots, None, Ok(3));
    assert_eq!(outcome, StepOutcome::Handled);
    assert_eq!(slots, vec![None, Some(7)]);
}

#[test]
fn logger_asks_get_their_own_codes() {
    let (mut logger, h) = Actor::new(PrintLogger::new());
    let zero = logger.ask(&h, PrintLoggerMessage::Info { data: str_of("\"info log\"") }).unwrap();
    let minus_one = logger.ask(&h, PrintLoggerMessage::Error { data: str_of("\"error!!\"") }).unwrap();
    logger.run();
    assert_eq!(logger.take_reply(&minus_one), Some(-1));
    assert_eq!(logger.take_reply(&zero), Some(0));
    let lines = logger.object().unwrap().lines().clone();
    assert_eq!(lines, vec![str_of("\"info log\""), str_of("\"error!!\"")]);
}

#[test]
fn store_handler_and_error_hook() {
    let mut store = KeyValueStore::new();
    let set = KeyValueStoreMessage::SetValue { key: str_of("foo"), value: str_of("bar") };
    assert!(matches!(store.handle(&set), Ok(KeyValueStoreReply::Stored)));
    let query = KeyValueStoreMessage::Query { key: str_of("foo") };
    match store.handle(&query) {
        Ok(KeyValueStoreReply::Value(v)) => assert_eq!(v, Some(str_of("bar"))),
        other => panic!("unexpected reply {:?}", other),
    }
    store.on_error(str_of("bad call"), &set);
    assert_eq!(store.error_log(), &vec![str_of("bad call")]);
    assert_eq!(store.query(&str_of("foo")), Some(str_of("bar")));
}
