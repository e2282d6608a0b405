use phantom_rust::addr::{any_local, IpVersion, SockAddr};
use phantom_rust::clientmap::{Client, ClientMap, ClientStore, Lookup};

fn client(address: &str) -> Client {
    Client {
        address: address.to_string(),
        version: IpVersion::V4,
    }
}

fn server(port: u16) -> SockAddr {
    SockAddr::V4 { ip4: 0x0a0000fe, port }
}

struct Fixture {
    store: ClientStore<u32>,
    map: ClientMap,
}

fn fixture(timeout: u128) -> Fixture {
    let mut store = ClientStore::new();
    let map = ClientMap::new(&mut store, timeout);
    Fixture { store, map }
}

impl Fixture {
    fn socket(&mut self, address: &str, now: u128) -> Option<u32> {
        match self.map.get(&mut self.store, &client(address), server(1), now) {
            Lookup::Existing(s) => Some(*s),
            Lookup::Connect { .. } => None,
        }
    }

    fn put(&mut self, address: &str, value: u32, now: u128) {
        let done: Result<(), String> =
            self.map.opened(&mut self.store, &client(address), Ok(value), now);
        assert_eq!(done, Ok(()));
    }

    fn cleanup(&mut self, now: u128) {
        self.map.cleanup(&mut self.store, now);
    }
}

#[test]
fn a_new_client_is_to_be_connected() {
    let mut f = fixture(10);
    match f.map.get(&mut f.store, &client("10.0.0.1:5000"), server(7), 0) {
        Lookup::Connect { bind, remote } => {
            assert_eq!(bind, "0.0.0.0:0");
            assert_eq!(remote, server(7));
        }
        Lookup::Existing(_) => panic!("there is no socket yet"),
    }
    let six = Client {
        address: "[::1]:5000".to_string(),
        version: IpVersion::V6,
    };
    match f.map.get(&mut f.store, &six, server(8), 0) {
        Lookup::Connect { bind, remote } => {
            assert_eq!(bind, "[::]:0");
            assert_eq!(remote, server(8));
        }
        Lookup::Existing(_) => panic!("there is no socket yet"),
    }
}

#[test]
fn a_known_client_keeps_its_socket() {
    let mut f = fixture(10);
    f.put("10.0.0.1:5000", 7, 0);
    f.put("10.0.0.2:5000", 8, 0);
    assert_eq!(f.socket("10.0.0.1:5000", 3), Some(7));
    assert_eq!(f.socket("10.0.0.2:5000", 4), Some(8));
    assert_eq!(f.socket("10.0.0.1:5001", 5), None);
    match f.map.get(&mut f.store, &client("10.0.0.1:5000"), server(99), 1000) {
        Lookup::Existing(s) => assert_eq!(*s, 7),
        Lookup::Connect { .. } => panic!("another server makes no difference"),
    }
}

#[test]
fn clones_share_their_entries() {
    let mut f = fixture(10);
    let clone = f.map.clone();
    f.put("a", 1, 0);
    match clone.get(&mut f.store, &client("a"), server(2), 5) {
        Lookup::Existing(s) => assert_eq!(*s, 1),
        Lookup::Connect { .. } => panic!("the clone is the same map"),
    }
    let done: Result<(), String> = clone.opened(&mut f.store, &client("b"), Ok(2), 0);
    assert_eq!(done, Ok(()));
    assert_eq!(f.socket("b", 0), Some(2));
    clone.cleanup(&mut f.store, 11);
    assert_eq!(f.socket("a", 11), Some(1));
    assert_eq!(f.socket("b", 11), None);
}

#[test]
fn maps_do_not_share_their_entries() {
    let mut f = fixture(10);
    let other = ClientMap::new(&mut f.store, 0);
    f.put("a", 1, 0);
    other.cleanup(&mut f.store, 1000);
    assert!(matches!(
        other.get(&mut f.store, &client("a"), server(1), 0),
        Lookup::Connect { .. }
    ));
    assert_eq!(f.socket("a", 0), Some(1));
}

#[test]
fn a_socket_opened_twice_is_replaced() {
    let mut f = fixture(10);
    f.put("10.0.0.1:5000", 7, 0);
    f.put("10.0.0.1:5000", 9, 1);
    assert_eq!(f.socket("10.0.0.1:5000", 2), Some(9));
}

#[test]
fn a_failure_to_open_changes_nothing() {
    let mut f = fixture(10);
    f.put("10.0.0.2:5000", 8, 0);
    let failed: Result<(), String> = f.map.opened(
        &mut f.store,
        &client("10.0.0.1:5000"),
        Err("no ports".to_string()),
        1,
    );
    assert_eq!(failed, Err("no ports".to_string()));
    assert_eq!(f.socket("10.0.0.1:5000", 2), None);
    assert_eq!(f.socket("10.0.0.2:5000", 2), Some(8));
}

#[test]
fn silent_clients_are_dropped() {
    let mut f = fixture(10);
    f.put("a", 1, 0);
    f.put("b", 2, 0);
    f.put("c", 3, 5);
    assert_eq!(f.socket("b", 1), Some(2));
    f.cleanup(10);
    assert_eq!(f.socket("c", 5), Some(3));
    f.cleanup(11);
    assert_eq!(f.socket("a", 11), None);
    assert_eq!(f.socket("b", 1), Some(2));
    f.cleanup(12);
    assert_eq!(f.socket("b", 12), None);
    assert_eq!(f.socket("c", 12), Some(3));
}

#[test]
fn a_cleanup_may_drop_all() {
    let mut f = fixture(0);
    for i in 0..20u32 {
        f.put(&i.to_string(), i, i as u128);
    }
    f.cleanup(19);
    for i in 0..19u32 {
        assert_eq!(f.socket(&i.to_string(), 19), None);
    }
    assert_eq!(f.socket("19", 19), Some(19));
}

#[test]
fn a_great_timeout_does_not_overflow() {
    let mut f = fixture(u128::MAX);
    f.put("a", 1, 5);
    f.cleanup(u128::MAX);
    assert_eq!(f.socket("a", 0), Some(1));
    f.cleanup(0);
    assert_eq!(f.socket("a", 0), Some(1));
}

#[test]
fn local_addresses_by_version() {
    assert_eq!(any_local(IpVersion::V4), "0.0.0.0:0");
    assert_eq!(any_local(IpVersion::V6), "[::]:0");
    let four = SockAddr::V4 { ip4: 0x7f000001, port: 1 };
    let six = SockAddr::V6 { ip6: 1, port: 1, flowinfo: 0, scope_id: 0 };
    assert_eq!(four.ip_version(), IpVersion::V4);
    assert_eq!(six.ip_version(), IpVersion::V6);
}
