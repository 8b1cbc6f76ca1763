use sincere::server::connection::{Connection, Interest, ReadEnd, Session, State, WriteEnd};
use sincere::server::dispense::{Dispenser, Policy};
use sincere::server::fault::{react, Fault, Reaction};
use sincere::server::tls::{single_key, TlsConfig};
use sincere::server::worker::{Order, Worker, DEFAULT_SLOTS};
use sincere::util::pool::{Pool, TaskPool, Wait};

#[test]
fn plain_connection_cycle() {
    let mut c = Connection::new(false);
    assert_eq!((c.state(), c.interest(), c.handshaking()), (State::Idle, Interest::Read, false));
    c.receive(b"GET / HT", ReadEnd::WouldBlock);
    assert_eq!((c.state(), c.interest()), (State::Reading, Interest::Read));
    assert_eq!(c.parse(false), None);
    c.receive(b"TP/1.1\r\n\r\n", ReadEnd::WouldBlock);
    assert_eq!(c.parse(true), Some(b"GET / HTTP/1.1\r\n\r\n".to_vec()));
    assert_eq!((c.state(), c.interest()), (State::Handling, Interest::Nothing));
    assert!(c.read_buf().is_empty());
    c.respond(b"HTTP/1.1 200 OK\r\n\r\n");
    assert_eq!((c.state(), c.interest()), (State::Writing, Interest::Write));
    c.wrote(WriteEnd::Wrote(4));
    assert_eq!(c.state(), State::Writing);
    assert_eq!(c.write_buf(), b"/1.1 200 OK\r\n\r\n");
    c.wrote(WriteEnd::Wrote(15));
    assert_eq!((c.state(), c.interest()), (State::Idle, Interest::Read));
    assert!(c.write_buf().is_empty());
    assert!(!c.closing());
}

#[test]
fn connection_closes_on_eof_and_errors() {
    let mut c = Connection::new(false);
    c.receive(b"abc", ReadEnd::Eof);
    assert!(c.closing());
    assert_eq!(c.interest(), Interest::Nothing);
    assert!(c.read_buf().is_empty());

    let mut c = Connection::new(false);
    c.receive(b"", ReadEnd::Failed);
    assert!(c.closing());

    let mut c = Connection::new(false);
    c.receive(b"x", ReadEnd::WouldBlock);
    c.parse(true);
    c.respond(b"resp");
    c.wrote(WriteEnd::Failed);
    assert!(c.closing());

    let mut c = Connection::new(false);
    c.receive(b"x", ReadEnd::WouldBlock);
    c.parse(true);
    c.respond(b"resp");
    c.wrote(WriteEnd::Wrote(0));
    assert!(c.closing());
}

#[test]
fn tls_connection_follows_the_session() {
    let mut c = Connection::new(true);
    assert!(c.handshaking());
    let hello = Session { ok: true, wants_read: false, wants_write: true };
    c.progress(ReadEnd::WouldBlock, hello, b"");
    assert_eq!((c.state(), c.interest(), c.handshaking()), (State::Idle, Interest::Write, true));
    let both = Session { ok: true, wants_read: true, wants_write: true };
    c.progress(ReadEnd::WouldBlock, both, b"");
    assert_eq!(c.interest(), Interest::ReadWrite);
    let quiet = Session { ok: true, wants_read: false, wants_write: false };
    c.progress(ReadEnd::WouldBlock, quiet, b"GET /");
    assert_eq!((c.state(), c.interest(), c.handshaking()), (State::Reading, Interest::Read, false));
    assert_eq!(c.read_buf(), b"GET /");
    let broken = Session { ok: false, wants_read: true, wants_write: false };
    c.progress(ReadEnd::WouldBlock, broken, b"");
    assert!(c.closing());
}

#[test]
fn worker_slots_and_backpressure() {
    assert_eq!(DEFAULT_SLOTS, 1024);
    let mut worker = Worker::new(2, false);
    assert_eq!((worker.capacity(), worker.active()), (2, 0));
    assert_eq!(worker.accept(), Order::Register { slot: 0, interest: Interest::Read });
    assert_eq!(worker.accept(), Order::Register { slot: 1, interest: Interest::Read });
    assert_eq!(worker.active(), 2);
    assert_eq!(worker.accept(), Order::Defer);
    assert_eq!(worker.active(), 2);

    assert_eq!(worker.readable(0, b"req", ReadEnd::WouldBlock), Order::Parse { slot: 0 });
    assert_eq!(worker.parsed(0, false), Order::Reregister { slot: 0, interest: Interest::Read });
    assert_eq!(worker.parsed(0, true), Order::Handle { slot: 0, request: b"req".to_vec() });
    assert_eq!(worker.responded(0, b"resp"), Order::Reregister { slot: 0, interest: Interest::Write });
    assert_eq!(worker.writable(0, WriteEnd::Wrote(4)), Order::Reregister { slot: 0, interest: Interest::Read });

    assert_eq!(worker.readable(1, b"", ReadEnd::Eof), Order::Close { slot: 1 });
    assert_eq!(worker.active(), 1);
    assert!(worker.connection(1).is_none());
    assert_eq!(worker.readable(1, b"late", ReadEnd::WouldBlock), Order::Nothing);
    assert_eq!(worker.readable(7, b"late", ReadEnd::WouldBlock), Order::Nothing);
    assert_eq!(worker.accept(), Order::Register { slot: 1, interest: Interest::Read });
    assert_eq!(worker.failed(0), Order::Close { slot: 0 });
    assert_eq!(worker.failed(0), Order::Nothing);
    assert_eq!(worker.active(), 1);
}

#[test]
fn tls_worker_parses_once_plain_text_arrives() {
    let mut worker = Worker::new(1, true);
    assert_eq!(worker.accept(), Order::Register { slot: 0, interest: Interest::Read });
    let shake = Session { ok: true, wants_read: true, wants_write: true };
    assert_eq!(
        worker.session(0, ReadEnd::WouldBlock, shake, b""),
        Order::Reregister { slot: 0, interest: Interest::ReadWrite }
    );
    let quiet = Session { ok: true, wants_read: true, wants_write: false };
    assert_eq!(worker.session(0, ReadEnd::WouldBlock, quiet, b"GET"), Order::Parse { slot: 0 });
    assert_eq!(worker.session(0, ReadEnd::Eof, quiet, b""), Order::Close { slot: 0 });
    assert_eq!(worker.active(), 0);
}

#[test]
fn round_robin_gives_each_worker_its_share() {
    let mut dispenser = Dispenser::new(Policy::RoundRobin);
    let mut loads = [0usize; 4];
    for _ in 0..1000 {
        let worker = dispenser.pick(&loads, 1024).unwrap();
        loads[worker] += 1;
    }
    assert_eq!(loads, [250, 250, 250, 250]);
}

#[test]
fn round_robin_passes_over_full_workers() {
    let mut dispenser = Dispenser::new(Policy::RoundRobin);
    let loads = [2usize, 0, 2, 1];
    assert_eq!(dispenser.pick(&loads, 2), Some(1));
    assert_eq!(dispenser.pick(&loads, 2), Some(3));
    assert_eq!(dispenser.pick(&loads, 2), Some(1));
    assert_eq!(dispenser.pick(&[2, 2, 2, 2], 2), None);
    assert_eq!(dispenser.pick(&[], 2), None);
}

#[test]
fn least_active_picks_the_first_minimum() {
    let mut dispenser = Dispenser::new(Policy::LeastActive);
    assert_eq!(dispenser.pick(&[3, 1, 4, 1], 10), Some(1));
    assert_eq!(dispenser.pick(&[0, 1, 0], 10), Some(0));
    assert_eq!(dispenser.pick(&[5, 5], 5), None);
}

#[test]
fn pool_sizing() {
    let pool = Pool::with_capacity(1, 8);
    assert!(pool.should_grow(0, 8));
    assert!(!pool.should_grow(0, 9));
    assert!(!pool.should_grow(1, 2));
    assert_eq!(pool.idle_wait(1), Wait::Forever);
    assert_eq!(pool.idle_wait(2), Wait::Seconds(60));
    assert!(pool.should_retire(true, true, 2));
    assert!(!pool.should_retire(true, true, 1));
    assert!(!pool.should_retire(false, true, 2));
    let tasks = TaskPool::with_capacity(4);
    assert!(tasks.should_grow(0));
    assert!(!tasks.should_grow(3));
    assert_eq!(tasks.idle_wait(5), Wait::Seconds(10));
    assert!(tasks.should_retire(true, true));
    assert!(!tasks.should_retire(true, false));
}

#[test]
fn tls_config_keeps_its_paths() {
    let config = TlsConfig::new("cert.pem", "key.pem");
    assert_eq!(config.cert_path(), "cert.pem");
    assert_eq!(config.privkey_path(), "key.pem");
    assert!(single_key(1));
    assert!(!single_key(0));
    assert!(!single_key(2));
}

#[test]
fn each_kind_of_failure_has_its_answer() {
    assert_eq!(react(Fault::Registration), Reaction::Fatal);
    assert_eq!(react(Fault::Transport), Reaction::Close);
    assert_eq!(react(Fault::Oversized), Reaction::Close);
    assert_eq!(react(Fault::Protocol), Reaction::Respond(501));
    assert_eq!(react(Fault::Application), Reaction::Respond(500));
    assert_eq!(react(Fault::NoRoute), Reaction::Respond(404));
    assert_eq!(react(Fault::Body), Reaction::Surface);
}

#[test]
fn tls_write_follows_the_session() {
    let wants_more = Session { ok: true, wants_read: false, wants_write: true };
    let done = Session { ok: true, wants_read: false, wants_write: false };
    let both = Session { ok: true, wants_read: true, wants_write: true };

    let mut c = Connection::new(true);
    c.progress(ReadEnd::WouldBlock, done, b"GET /");
    c.parse(true);
    c.respond(b"response");
    assert_eq!((c.state(), c.interest()), (State::Writing, Interest::Write));
    c.flushed(WriteEnd::Wrote(100), wants_more);
    assert_eq!((c.state(), c.interest()), (State::Writing, Interest::Write));
    assert_eq!(c.write_buf(), b"response");
    c.flushed(WriteEnd::Wrote(100), both);
    assert_eq!((c.state(), c.interest()), (State::Writing, Interest::ReadWrite));
    c.flushed(WriteEnd::Wrote(40), done);
    assert_eq!((c.state(), c.interest()), (State::Idle, Interest::Read));
    assert!(c.write_buf().is_empty());

    let mut c = Connection::new(true);
    c.flushed(WriteEnd::Wrote(7), both);
    assert_eq!((c.state(), c.interest(), c.handshaking()), (State::Idle, Interest::ReadWrite, true));
    c.flushed(WriteEnd::Wrote(0), both);
    assert!(c.closing());
    let mut c = Connection::new(true);
    c.flushed(WriteEnd::Failed, done);
    assert!(c.closing());

    let mut worker = Worker::new(1, true);
    worker.accept();
    assert_eq!(worker.flushed(0, WriteEnd::Wrote(5), wants_more), Order::Reregister { slot: 0, interest: Interest::Write });
    assert_eq!(worker.flushed(0, WriteEnd::Failed, wants_more), Order::Close { slot: 0 });
    assert_eq!(worker.flushed(0, WriteEnd::Wrote(5), wants_more), Order::Nothing);
    assert_eq!(worker.active(), 0);
}
