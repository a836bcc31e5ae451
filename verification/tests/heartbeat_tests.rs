use load_balancer::addr::SocketAddress;
use load_balancer::heartbeat::{read_message, Message, Outcome, Reply};
use load_balancer::registry::{BadLine, Registry, Server};

fn cs(s: &str) -> Vec<char> {
    s.chars().collect()
}

fn addr(s: &str) -> SocketAddress {
    SocketAddress::parse_str(s).unwrap()
}

fn registry(lines: &[&str]) -> Registry {
    let raw: Vec<String> = lines.iter().map(|l| l.to_string()).collect();
    Registry::parse_addr_pairs(&raw).unwrap()
}

fn bad_line(lines: &[&str]) -> Option<BadLine> {
    let raw: Vec<String> = lines.iter().map(|l| l.to_string()).collect();
    Registry::parse_addr_pairs(&raw).err()
}

fn two_slots() -> Registry {
    registry(&["127.0.0.1:9001 127.0.0.1:9101", "127.0.0.1:9002 127.0.0.1:9102"])
}

#[test]
fn parse_addr_pairs_makes_fresh_slots() {
    let r = two_slots();
    assert_eq!(r.len(), 2);
    assert_eq!(
        r.servers()[0],
        Server {
            addr_identifier: None,
            udp_addr: addr("127.0.0.1:9101"),
            tcp_addr: addr("127.0.0.1:9001"),
            last_heartbeat: None,
            is_up: false,
        }
    );
    assert_eq!(r.servers()[1].tcp_addr, addr("127.0.0.1:9002"));
    assert_eq!(r.servers()[1].udp_addr, addr("127.0.0.1:9102"));
    assert_eq!(r.snapshot(), r.servers().clone());
}

#[test]
fn parse_addr_pairs_refuses_lines_that_name_no_slot() {
    assert_eq!(bad_line(&["127.0.0.1:9001"]), Some(BadLine { line: 0 }));
    assert_eq!(bad_line(&[""]), Some(BadLine { line: 0 }));
    assert_eq!(bad_line(&["   "]), Some(BadLine { line: 0 }));
    assert_eq!(bad_line(&["127.0.0.1:9001 nonsense"]), Some(BadLine { line: 0 }));
    assert_eq!(bad_line(&["nonsense 127.0.0.1:9101"]), Some(BadLine { line: 0 }));
    assert_eq!(bad_line(&["127.0.0.1:9001,127.0.0.1:9101"]), Some(BadLine { line: 0 }));
    assert_eq!(
        bad_line(&["127.0.0.1:9001 127.0.0.1:9101", "127.0.0.1:9002"]),
        Some(BadLine { line: 1 })
    );
    assert_eq!(
        bad_line(&["1.1.1.1:1 1.1.1.1:2", "bad", "2.2.2.2:1 2.2.2.2:2", "worse"]),
        Some(BadLine { line: 1 })
    );
    assert_eq!(bad_line(&["127.0.0.1:9001 127.0.0.1:9101"]), None);
    assert_eq!(bad_line(&[]), None);
}

#[test]
fn parse_addr_pairs_reads_the_first_two_tokens_of_each_line() {
    let r = registry(&[
        "  10.0.0.1:1\t10.0.0.1:2  ",
        "10.0.0.2:1 10.0.0.2:2 and more",
        "[::1]:7 [::1]:8",
    ]);
    assert_eq!(r.len(), 3);
    assert_eq!(r.servers()[0].tcp_addr, addr("10.0.0.1:1"));
    assert_eq!(r.servers()[0].udp_addr, addr("10.0.0.1:2"));
    assert_eq!(r.servers()[1].tcp_addr, addr("10.0.0.2:1"));
    assert_eq!(r.servers()[2].udp_addr, addr("[::1]:8"));
    assert!(r.servers().iter().all(|s| !s.is_up && s.addr_identifier.is_none() && s.last_heartbeat.is_none()));
}

#[test]
fn read_message_tells_the_kinds_apart() {
    assert_eq!(read_message(&cs("OK")), Message::Liveness);
    assert_eq!(read_message(&cs("  OK\r\n")), Message::Liveness);
    assert_eq!(read_message(&cs("\u{a0}OK\u{3000}")), Message::Liveness);
    assert_eq!(
        read_message(&cs("127.0.0.1:9001 127.0.0.1:9101")),
        Message::Identify { tcp_addr: addr("127.0.0.1:9001"), udp_addr: addr("127.0.0.1:9101") }
    );
    assert_eq!(
        read_message(&cs("\t127.0.0.1:9001  \t 127.0.0.1:9101\n")),
        Message::Identify { tcp_addr: addr("127.0.0.1:9001"), udp_addr: addr("127.0.0.1:9101") }
    );
    assert_eq!(read_message(&cs("127.0.0.1:9001 nonsense")), Message::Unparseable);
    assert_eq!(read_message(&cs("nonsense 127.0.0.1:9101")), Message::Unparseable);
    assert_eq!(read_message(&cs("O K")), Message::Unparseable);
    assert_eq!(read_message(&cs("a b c")), Message::Malformed);
    assert_eq!(read_message(&cs("127.0.0.1:1 127.0.0.1:2 127.0.0.1:3")), Message::Malformed);
    assert_eq!(read_message(&cs("a \u{a0}")), Message::Unexpected);
    assert_eq!(read_message(&cs("a \u{a0}\u{a0} ")), Message::Unexpected);
    assert_eq!(read_message(&cs("a\u{a0} \u{a0}")), Message::Unexpected);
    assert_eq!(read_message(&cs("")), Message::Unexpected);
    assert_eq!(read_message(&cs("   ")), Message::Unexpected);
    assert_eq!(read_message(&cs("ok")), Message::Unexpected);
    assert_eq!(read_message(&cs("OKAY")), Message::Unexpected);
    assert_eq!(read_message(&cs("AUTH")), Message::Unexpected);
    assert_eq!(read_message(&cs("127.0.0.1:9001\t127.0.0.1:9101")), Message::Unexpected);
    assert_eq!(read_message(&cs("127.0.0.1:9001")), Message::Unexpected);
}

#[test]
fn space_between_other_white_space_is_malformed() {
    assert_eq!(read_message(&cs("a\u{a0} \u{a0}b c")), Message::Malformed);
    assert_eq!(read_message(&cs("a\t \tb")), Message::Unparseable);
}

#[test]
fn identify_binds_observed_address() {
    let mut r = registry(&["127.0.0.1:9001 127.0.0.1:9101"]);
    let from = addr("10.0.0.5:40000");
    let o = r.handle_datagram(b"127.0.0.1:9001 127.0.0.1:9101", from, 1_000);
    assert_eq!(o, Outcome::Identified { slot: 0 });
    assert_eq!(o.reply(), Some(Reply::Ack));
    assert_eq!(o.reply().unwrap().text(), "OK");
    assert_eq!(r.servers()[0].addr_identifier, Some(from));
    assert!(r.servers()[0].is_up);
    assert_eq!(r.servers()[0].last_heartbeat, Some(1_000));
    assert_eq!(r.servers()[0].tcp_addr, addr("127.0.0.1:9001"));
    assert_eq!(r.servers()[0].udp_addr, addr("127.0.0.1:9101"));
}

#[test]
fn identify_takes_the_first_slot_with_the_pair() {
    let mut r = registry(&["1.1.1.1:1 1.1.1.1:2", "2.2.2.2:1 2.2.2.2:2", "2.2.2.2:1 2.2.2.2:2"]);
    let o = r.handle_message(&cs("2.2.2.2:1 2.2.2.2:2"), addr("9.9.9.9:9"), 5);
    assert_eq!(o, Outcome::Identified { slot: 1 });
    assert!(r.servers()[1].is_up);
    assert!(!r.servers()[0].is_up);
    assert!(!r.servers()[2].is_up);
    assert_eq!(r.servers()[2].addr_identifier, None);
}

#[test]
fn identify_with_swapped_pair_is_not_recognized() {
    let mut r = two_slots();
    let before = r.snapshot();
    let o = r.handle_message(&cs("127.0.0.1:9101 127.0.0.1:9001"), addr("10.0.0.5:40000"), 5);
    assert_eq!(
        o,
        Outcome::UnknownPair { tcp_addr: addr("127.0.0.1:9101"), udp_addr: addr("127.0.0.1:9001") }
    );
    assert_eq!(o.reply(), None);
    assert_eq!(r.snapshot(), before);
}

#[test]
fn liveness_from_unbound_source_is_challenged() {
    let mut r = two_slots();
    let before = r.snapshot();
    let o = r.handle_datagram(b"OK", addr("10.0.0.5:40000"), 7);
    assert_eq!(o, Outcome::UnknownSender);
    assert_eq!(o.reply(), Some(Reply::Challenge));
    assert_eq!(o.reply().unwrap().text(), "AUTH");
    assert_eq!(r.snapshot(), before);
    assert!(r.servers().iter().all(|s| !s.is_up));
}

#[test]
fn liveness_from_configured_but_unobserved_address_is_challenged() {
    let mut r = two_slots();
    let o = r.handle_datagram(b"OK", addr("127.0.0.1:9101"), 7);
    assert_eq!(o, Outcome::UnknownSender);
    assert!(!r.servers()[0].is_up);
}

#[test]
fn liveness_refreshes_bound_slot() {
    let mut r = two_slots();
    let a = addr("10.0.0.5:40000");
    r.handle_datagram(b"127.0.0.1:9002 127.0.0.1:9102", a, 10);
    let o = r.handle_datagram(b"OK\n", a, 20);
    assert_eq!(o, Outcome::Alive { slot: 1, back_online: false });
    assert_eq!(o.reply(), None);
    assert_eq!(r.servers()[1].last_heartbeat, Some(20));
    assert!(r.servers()[1].is_up);
    assert!(!r.servers()[0].is_up);
    assert_eq!(r.servers()[0].last_heartbeat, None);
}

#[test]
fn liveness_after_timeout_brings_slot_back_online() {
    let mut r = two_slots();
    let a = addr("10.0.0.5:40000");
    r.handle_datagram(b"127.0.0.1:9001 127.0.0.1:9101", a, 0);
    assert_eq!(r.expire(2_000_000_001), vec![0]);
    assert!(!r.servers()[0].is_up);
    let o = r.handle_datagram(b"OK", a, 2_000_000_002);
    assert_eq!(o, Outcome::Alive { slot: 0, back_online: true });
    assert!(r.servers()[0].is_up);
    let o = r.handle_datagram(b"OK", a, 2_000_000_003);
    assert_eq!(o, Outcome::Alive { slot: 0, back_online: false });
}

#[test]
fn other_datagrams_change_nothing_and_get_no_reply() {
    let mut r = two_slots();
    r.handle_datagram(b"127.0.0.1:9001 127.0.0.1:9101", addr("10.0.0.5:40000"), 0);
    let before = r.snapshot();
    let from = addr("10.0.0.6:1");
    let cases: [(&[u8], Outcome); 6] = [
        (b"hello", Outcome::Unexpected),
        (b"", Outcome::Unexpected),
        (b"a b c", Outcome::Malformed),
        (b"foo bar", Outcome::Unparseable),
        (b"\xffOK", Outcome::Unexpected),
        (b"O\xc3K", Outcome::Unexpected),
    ];
    for (datagram, want) in cases {
        let o = r.handle_datagram(datagram, from, 1);
        assert_eq!(o, want);
        assert_eq!(o.reply(), None);
        assert_eq!(r.snapshot(), before);
    }
}

#[test]
fn datagram_is_decoded_before_it_is_read() {
    let mut r = two_slots();
    let a = addr("10.0.0.5:40000");
    r.handle_datagram("127.0.0.1:9001\u{2003} 127.0.0.1:9101".as_bytes(), a, 0);
    assert_eq!(r.servers()[0].addr_identifier, Some(a));
    let o = r.handle_datagram("\u{a0}OK\u{a0}".as_bytes(), a, 1);
    assert_eq!(o, Outcome::Alive { slot: 0, back_online: false });
    let o = r.handle_datagram(b"127.0.0.1:9001 127.0.0.1:9101\xff", a, 2);
    assert_eq!(o, Outcome::Unparseable);
}

#[test]
fn last_identification_of_a_slot_wins() {
    let mut r = two_slots();
    let a = addr("10.0.0.5:40000");
    let b = addr("10.0.0.6:40000");
    r.handle_datagram(b"127.0.0.1:9001 127.0.0.1:9101", a, 0);
    r.handle_datagram(b"127.0.0.1:9001 127.0.0.1:9101", b, 1);
    assert_eq!(r.servers()[0].addr_identifier, Some(b));
    assert_eq!(r.handle_datagram(b"OK", a, 2), Outcome::UnknownSender);
    assert_eq!(r.handle_datagram(b"OK", b, 3), Outcome::Alive { slot: 0, back_online: false });
}

#[test]
fn observed_address_is_bound_to_one_slot_only() {
    let mut r = two_slots();
    let a = addr("10.0.0.5:40000");
    r.handle_datagram(b"127.0.0.1:9001 127.0.0.1:9101", a, 0);
    r.handle_datagram(b"127.0.0.1:9002 127.0.0.1:9102", a, 1);
    assert_eq!(r.servers()[1].addr_identifier, Some(a));
    assert_eq!(r.servers()[0].addr_identifier, None);
    assert!(r.servers()[0].is_up);
    assert_eq!(r.servers()[0].last_heartbeat, Some(0));
    assert!(r.servers()[1].is_up);
    assert_eq!(r.handle_datagram(b"OK", a, 2), Outcome::Alive { slot: 1, back_online: false });
    assert_eq!(r.find_by_identifier(a), Some(1));
}

#[test]
fn lookups_find_the_first_match() {
    let mut r = registry(&["1.1.1.1:1 1.1.1.1:2", "1.1.1.1:1 1.1.1.1:2", "3.3.3.3:1 3.3.3.3:2"]);
    assert_eq!(r.find_by_pair(addr("1.1.1.1:1"), addr("1.1.1.1:2")), Some(0));
    assert_eq!(r.find_by_pair(addr("3.3.3.3:1"), addr("3.3.3.3:2")), Some(2));
    assert_eq!(r.find_by_pair(addr("1.1.1.1:1"), addr("3.3.3.3:2")), None);
    assert_eq!(r.find_by_identifier(addr("8.8.8.8:8")), None);
    r.bind(2, addr("8.8.8.8:8"), 4);
    assert_eq!(r.find_by_identifier(addr("8.8.8.8:8")), Some(2));
    assert_eq!(r.refresh(2, 9), false);
    assert_eq!(r.servers()[2].last_heartbeat, Some(9));
}

#[test]
fn never_heard_slot_is_down_throughout() {
    let mut r = two_slots();
    let a = addr("10.0.0.5:40000");
    assert!(!r.servers()[1].is_up);
    r.handle_datagram(b"127.0.0.1:9001 127.0.0.1:9101", a, 0);
    assert!(!r.servers()[1].is_up);
    r.handle_datagram(b"OK", a, 1);
    assert!(!r.servers()[1].is_up);
    r.handle_datagram(b"OK", addr("10.0.0.7:1"), 1);
    assert!(!r.servers()[1].is_up);
    r.expire(10_000_000_000);
    assert!(!r.servers()[1].is_up);
    assert_eq!(r.servers()[1].last_heartbeat, None);
}
