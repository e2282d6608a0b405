use phantom_rust::addr::SockAddr;
use phantom_rust::config::{Args, DEFAULT_TIMEOUT, MAX_MTU};
use phantom_rust::proxy::{
    configure, listen_addresses, prepare, supervise, ProxyAction, ProxyConfig, ProxyEvent,
    uses_kernel, StartError,
};
use phantom_rust::table::is_idle;
use phantom_rust::text::{join, split};

fn args() -> Args {
    Args {
        server: "play.example.org:19132".to_string(),
        timeout: DEFAULT_TIMEOUT,
        remove_ports: true,
        disable_kernel_proxy: false,
    }
}

fn at(port: u16) -> SockAddr {
    SockAddr::V4 { ip4: 0x0a000001, port }
}

#[test]
fn the_first_address_is_the_server() {
    assert_eq!(
        configure(&args(), &vec![at(1), at(2)], 42),
        Ok(ProxyConfig {
            remote: at(1),
            timeout: 60_000_000_000,
            server_id: 42,
            remove_ports: true,
        })
    );
    let mut long = args();
    long.timeout = u64::MAX;
    assert_eq!(
        configure(&long, &vec![at(1)], 0).unwrap().timeout,
        18_446_744_073_709_551_615_000_000_000
    );
}

#[test]
fn a_name_without_addresses_is_an_error() {
    let e = configure(&args(), &vec![], 42).unwrap_err();
    assert_eq!(e, StartError::NoServerAddress);
    assert_eq!(e.message(), "Failed to resolve server address");
    assert_eq!(prepare(&args(), &vec![]), Err(StartError::NoServerAddress));
}

#[test]
fn ids_are_drawn_at_random() {
    let first = prepare(&args(), &vec![at(1)]).unwrap();
    assert_eq!(first.remote, at(1));
    let differs = (0..8).any(|_| prepare(&args(), &vec![at(1)]).unwrap().server_id != first.server_id);
    assert!(differs);
}

#[test]
fn which_proxy_is_used() {
    let mut disabled = args();
    disabled.disable_kernel_proxy = true;
    assert!(uses_kernel(&args(), true));
    assert!(!uses_kernel(&args(), false));
    assert!(!uses_kernel(&disabled, true));
    assert!(!uses_kernel(&disabled, false));
}

#[test]
fn where_to_listen() {
    assert_eq!(listen_addresses(), vec!["[::]:19132", "[::]:19133"]);
    assert_eq!(MAX_MTU, 1472);
}

#[test]
fn when_to_stop() {
    assert_eq!(supervise(ProxyEvent::CleanupDue), ProxyAction::Cleanup);
    assert_eq!(supervise(ProxyEvent::ReadLoopEnded), ProxyAction::Stop);
    assert_eq!(supervise(ProxyEvent::Interrupted), ProxyAction::Stop);
}

#[test]
fn idle_means_longer_than_the_timeout() {
    assert!(!is_idle(5, 10, 15));
    assert!(is_idle(5, 10, 16));
    assert!(!is_idle(20, 0, 10));
    assert!(!is_idle(u128::MAX, u128::MAX, u128::MAX));
}

#[test]
fn split_and_join() {
    assert_eq!(split("", ';'), vec![""]);
    assert_eq!(split("a;b;", ';'), vec!["a", "b", ""]);
    assert_eq!(split(";\u{a7};", ';'), vec!["", "\u{a7}", ""]);
    for s in ["", "a", ";", "a;b", ";;x;;"] {
        assert_eq!(join(&split(s, ';'), ';'), s);
    }
    assert_eq!(join(&vec![], ';'), "");
}
