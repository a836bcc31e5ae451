use load_balancer::addr::SocketAddress;
use load_balancer::expiry::{is_stale, NANOS_PER_SEC, SWEEP_INTERVAL, TIMEOUT};
use load_balancer::heartbeat::Outcome;
use load_balancer::registry::{Registry, Server};

fn addr(s: &str) -> SocketAddress {
    SocketAddress::parse_str(s).unwrap()
}

fn three_slots() -> Registry {
    let raw: Vec<String> = ["1.1.1.1:1 1.1.1.1:2", "2.2.2.2:1 2.2.2.2:2", "3.3.3.3:1 3.3.3.3:2"]
        .iter()
        .map(|l| l.to_string())
        .collect();
    Registry::parse_addr_pairs(&raw).unwrap()
}

fn server(last_heartbeat: Option<u64>, is_up: bool) -> Server {
    Server {
        addr_identifier: None,
        udp_addr: addr("1.1.1.1:2"),
        tcp_addr: addr("1.1.1.1:1"),
        last_heartbeat,
        is_up,
    }
}

#[test]
fn timeout_is_two_seconds() {
    assert_eq!(TIMEOUT, 2);
    assert_eq!(SWEEP_INTERVAL, 1);
    assert_eq!(NANOS_PER_SEC, 1_000_000_000);
}

#[test]
fn stale_is_strictly_older_than_the_timeout() {
    let s = server(Some(1_000), true);
    assert!(!is_stale(&s, 1_000));
    assert!(!is_stale(&s, 1_000 + 2_000_000_000));
    assert!(is_stale(&s, 1_000 + 2_000_000_001));
    assert!(is_stale(&s, u64::MAX));
}

#[test]
fn stale_takes_an_earlier_now_for_no_time_at_all() {
    let s = server(Some(5_000_000_000), true);
    assert!(!is_stale(&s, 0));
    assert!(!is_stale(&s, 4_999_999_999));
}

#[test]
fn never_heard_is_never_stale() {
    assert!(!is_stale(&server(None, false), u64::MAX));
}

#[test]
fn sweep_demotes_stale_slots_only() {
    let mut r = three_slots();
    r.handle_datagram(b"1.1.1.1:1 1.1.1.1:2", addr("10.0.0.1:1"), 0);
    r.handle_datagram(b"2.2.2.2:1 2.2.2.2:2", addr("10.0.0.2:1"), 1_000_000_000);
    assert_eq!(r.expire(2_000_000_000), Vec::<usize>::new());
    assert!(r.servers()[0].is_up && r.servers()[1].is_up);
    assert_eq!(r.expire(2_000_000_001), vec![0]);
    assert!(!r.servers()[0].is_up);
    assert!(r.servers()[1].is_up);
    assert!(!r.servers()[2].is_up);
    assert_eq!(r.servers()[0].last_heartbeat, Some(0));
    assert_eq!(r.servers()[0].addr_identifier, Some(addr("10.0.0.1:1")));
    assert_eq!(r.len(), 3);
}

#[test]
fn sweep_reports_each_edge_once() {
    let mut r = three_slots();
    r.handle_datagram(b"1.1.1.1:1 1.1.1.1:2", addr("10.0.0.1:1"), 0);
    r.handle_datagram(b"3.3.3.3:1 3.3.3.3:2", addr("10.0.0.3:1"), 0);
    assert_eq!(r.expire(3_000_000_000), vec![0, 2]);
    assert_eq!(r.expire(4_000_000_000), Vec::<usize>::new());
    assert_eq!(r.expire(5_000_000_000), Vec::<usize>::new());
    assert_eq!(
        r.handle_datagram(b"OK", addr("10.0.0.3:1"), 5_500_000_000),
        Outcome::Alive { slot: 2, back_online: true }
    );
    assert_eq!(r.expire(6_000_000_000), Vec::<usize>::new());
    assert_eq!(r.expire(7_500_000_001), vec![2]);
    assert_eq!(r.expire(8_500_000_001), Vec::<usize>::new());
}

#[test]
fn heartbeats_in_time_keep_slot_up() {
    let mut r = three_slots();
    let a = addr("10.0.0.1:1");
    r.handle_datagram(b"1.1.1.1:1 1.1.1.1:2", a, 0);
    let mut now: u64 = 0;
    for _ in 0..50 {
        now += 1_000_000_000;
        assert_eq!(r.expire(now), Vec::<usize>::new());
        assert!(r.servers()[0].is_up);
        now += 900_000_000;
        assert_eq!(r.handle_datagram(b"OK", a, now), Outcome::Alive { slot: 0, back_online: false });
        now += 100_000_000;
        assert_eq!(r.expire(now), Vec::<usize>::new());
        assert!(r.servers()[0].is_up);
    }
    assert_eq!(r.expire(now + 1_900_000_001), vec![0]);
    assert!(!r.servers()[0].is_up);
}

#[test]
fn identified_but_silent_slot_times_out() {
    let mut r = three_slots();
    r.handle_datagram(b"2.2.2.2:1 2.2.2.2:2", addr("10.0.0.2:1"), 500);
    assert_eq!(r.expire(500 + 2 * NANOS_PER_SEC), Vec::<usize>::new());
    assert_eq!(r.expire(501 + 2 * NANOS_PER_SEC), vec![1]);
}
