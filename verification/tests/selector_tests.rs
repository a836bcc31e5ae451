use load_balancer::addr::SocketAddress;
use load_balancer::cursor::Selector;
use load_balancer::registry::Registry;
use load_balancer::selector::{address_at_turn, live_addrs, pick_live};

fn addr(s: &str) -> SocketAddress {
    SocketAddress::parse_str(s).unwrap()
}

fn four_slots() -> Registry {
    let raw: Vec<String> = [
        "1.1.1.1:1 1.1.1.1:2",
        "2.2.2.2:1 2.2.2.2:2",
        "3.3.3.3:1 3.3.3.3:2",
        "4.4.4.4:1 4.4.4.4:2",
    ]
    .iter()
    .map(|l| l.to_string())
    .collect();
    Registry::parse_addr_pairs(&raw).unwrap()
}

fn up(r: &mut Registry, slot: usize) {
    r.bind(slot, addr(&format!("10.0.0.{}:1", slot)), 0);
}

#[test]
fn empty_live_set_is_unavailable_on_every_call() {
    let r = four_slots();
    let s = Selector::new();
    for cursor in [0usize, 1, 2, 7, usize::MAX] {
        assert_eq!(pick_live(r.servers(), cursor), None);
    }
    for _ in 0..10 {
        assert_eq!(s.select(&r), None);
    }
    let none = Registry::parse_addr_pairs(&Vec::new()).unwrap();
    assert_eq!(s.select(&none), None);
    assert_eq!(pick_live(none.servers(), 3), None);
}

#[test]
fn live_addrs_are_those_of_the_up_slots_in_order() {
    let mut r = four_slots();
    assert_eq!(live_addrs(r.servers()), Vec::<SocketAddress>::new());
    up(&mut r, 3);
    up(&mut r, 1);
    assert_eq!(live_addrs(r.servers()), vec![addr("2.2.2.2:1"), addr("4.4.4.4:1")]);
}

#[test]
fn pick_is_cursor_modulo_live_count() {
    let mut r = four_slots();
    up(&mut r, 0);
    up(&mut r, 2);
    up(&mut r, 3);
    assert_eq!(pick_live(r.servers(), 0), Some(addr("1.1.1.1:1")));
    assert_eq!(pick_live(r.servers(), 1), Some(addr("3.3.3.3:1")));
    assert_eq!(pick_live(r.servers(), 2), Some(addr("4.4.4.4:1")));
    assert_eq!(pick_live(r.servers(), 3), Some(addr("1.1.1.1:1")));
    assert_eq!(pick_live(r.servers(), 100), Some(addr("3.3.3.3:1")));
    assert_eq!(pick_live(r.servers(), usize::MAX), Some(live_addrs(r.servers())[usize::MAX % 3]));
}

#[test]
fn address_at_turn_on_a_list() {
    let list = vec![addr("1.1.1.1:1"), addr("2.2.2.2:1")];
    assert_eq!(address_at_turn(&list, 0), Some(addr("1.1.1.1:1")));
    assert_eq!(address_at_turn(&list, 5), Some(addr("2.2.2.2:1")));
    assert_eq!(address_at_turn(&Vec::new(), 5), None);
}

#[test]
fn selector_never_returns_a_down_slot() {
    let mut r = four_slots();
    up(&mut r, 1);
    up(&mut r, 2);
    r.handle_datagram(b"OK", addr("10.0.0.2:1"), 3_000_000_000);
    assert_eq!(r.expire(3_000_000_000), vec![1]);
    let s = Selector::new();
    for cursor in 0..20usize {
        assert_eq!(pick_live(r.servers(), cursor), Some(addr("3.3.3.3:1")));
        assert_eq!(s.select(&r), Some(addr("3.3.3.3:1")));
    }
}

#[test]
fn selector_covers_the_live_set_in_n_calls() {
    let mut r = four_slots();
    up(&mut r, 0);
    up(&mut r, 1);
    up(&mut r, 3);
    let s = Selector::new();
    for _ in 0..5 {
        let mut got = vec![s.select(&r).unwrap(), s.select(&r).unwrap(), s.select(&r).unwrap()];
        got.sort_by_key(|a| match a {
            SocketAddress::V4 { ip, .. } => *ip,
            SocketAddress::V6 { .. } => 0,
        });
        assert_eq!(got, vec![addr("1.1.1.1:1"), addr("2.2.2.2:1"), addr("4.4.4.4:1")]);
    }
}

#[test]
fn selector_starts_at_the_first_live_slot_and_rotates() {
    let mut r = four_slots();
    up(&mut r, 2);
    up(&mut r, 1);
    let s = Selector::new();
    assert_eq!(s.select(&r), Some(addr("2.2.2.2:1")));
    assert_eq!(s.select(&r), Some(addr("3.3.3.3:1")));
    assert_eq!(s.select(&r), Some(addr("2.2.2.2:1")));
}

#[test]
fn cursor_rests_while_nothing_is_up() {
    let mut r = four_slots();
    let s = Selector::new();
    assert_eq!(s.select(&r), None);
    assert_eq!(s.select(&r), None);
    up(&mut r, 0);
    up(&mut r, 1);
    assert_eq!(s.select(&r), Some(addr("1.1.1.1:1")));
    assert_eq!(s.select(&r), Some(addr("2.2.2.2:1")));
}

#[test]
fn live_count_is_taken_anew_on_every_selection() {
    let mut r = four_slots();
    up(&mut r, 0);
    up(&mut r, 1);
    let s = Selector::new();
    assert_eq!(s.select(&r), Some(addr("1.1.1.1:1")));
    up(&mut r, 2);
    assert_eq!(s.select(&r), Some(addr("2.2.2.2:1")));
    assert_eq!(s.select(&r), Some(addr("3.3.3.3:1")));
    assert_eq!(s.select(&r), Some(addr("1.1.1.1:1")));
}

#[test]
fn two_connections_with_one_slot_up_get_that_slot() {
    let mut r = four_slots();
    r.handle_datagram(b"3.3.3.3:1 3.3.3.3:2", addr("10.0.0.5:40000"), 0);
    let s = Selector::new();
    let first = s.select(&r);
    let second = s.select(&r);
    assert_eq!(first, Some(addr("3.3.3.3:1")));
    assert_eq!(second, Some(addr("3.3.3.3:1")));
}
