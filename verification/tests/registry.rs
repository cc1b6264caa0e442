use quote_stream::addr::{IpAddress, SocketAddress};
use quote_stream::client_handler::{
    count_millis, ClientInfo, ClientManager, ClientStreamer, QuotePoll, StopPoll, StreamerAction,
    StreamerState,
};
use quote_stream::decimal::Decimal;
use quote_stream::quote::StockQuote;
use quote_stream::target::UdpAddr;
use quote_stream::tickers::Tickers;

fn target(port: u16) -> UdpAddr {
    UdpAddr(SocketAddress::V4 { octets: 0x7F00_0001, port })
}

fn tickers() -> Tickers {
    "AAPL,TSLA".parse().unwrap()
}

fn source_ip() -> IpAddress {
    IpAddress::V4(0x7F00_0001)
}

fn quote(ticker: &str) -> StockQuote {
    StockQuote { ticker: ticker.to_string(), price: Decimal::new(15050, 2), volume: 10, timestamp: 99 }
}

#[test]
fn new_is_not_expired() {
    let info = ClientInfo::new(target(8080), tickers(), source_ip(), 1000);
    assert!(!info.is_expired(5000, 1000));
    assert!(!info.is_expired(5000, 6000));
    assert!(info.is_expired(5000, 6001));
    assert!(!info.is_expired(5000, 0));
}

#[test]
fn touch_resets_timeout() {
    let mut info = ClientInfo::new(target(8080), tickers(), source_ip(), 0);
    assert!(info.is_expired(100, 150));
    info.touch(50);
    assert_eq!(info.last_ping, 50);
    assert!(!info.is_expired(100, 150));
}

#[test]
fn is_subscribed_checks_tickers() {
    let info = ClientInfo::new(target(8080), tickers(), source_ip(), 0);
    assert!(info.is_subscribed("AAPL"));
    assert!(info.is_subscribed("TSLA"));
    assert!(!info.is_subscribed("GOOGL"));
    assert!(!info.is_subscribed("aapl"));
}

#[test]
fn register_and_contains() {
    let mut manager = ClientManager::default();
    assert_eq!(manager.ping_timeout(), 5000);
    assert!(!manager.contains(&target(8080)));
    manager.register(target(8080), &tickers(), source_ip());
    assert!(manager.contains(&target(8080)));
    assert_eq!(manager.count(), 1);
}

#[test]
fn register_again_replaces() {
    let mut manager = ClientManager::new(100);
    manager.register_at(target(1), &tickers(), source_ip(), 10);
    manager.register_at(target(2), &tickers(), source_ip(), 20);
    manager.register_at(target(1), &Tickers::one("META"), IpAddress::V6(1), 30);
    assert_eq!(manager.count(), 2);
    let snapshot = manager.snapshot();
    assert_eq!(snapshot[0].target, target(1));
    assert_eq!(snapshot[0].last_ping, 30);
    assert_eq!(snapshot[0].source_ip, IpAddress::V6(1));
    assert_eq!(snapshot[0].tickers, Tickers::one("META"));
    assert_eq!(snapshot[1].target, target(2));
    assert_eq!(snapshot[1].last_ping, 20);
}

#[test]
fn remove_client() {
    let mut manager = ClientManager::default();
    manager.register(target(8080), &tickers(), source_ip());
    manager.register(target(8081), &tickers(), source_ip());
    manager.remove(&target(8080));
    assert!(!manager.contains(&target(8080)));
    assert!(manager.contains(&target(8081)));
    manager.remove(&target(8080));
    assert_eq!(manager.count(), 1);
}

#[test]
fn update_ping_returns_false_for_unknown() {
    let mut manager = ClientManager::default();
    manager.register(target(8080), &tickers(), source_ip());
    assert!(!manager.update_ping(&target(9999)));
    assert_eq!(manager.count(), 1);
}

#[test]
fn update_ping_returns_true_for_known() {
    let mut manager = ClientManager::new(100);
    manager.register_at(target(8080), &tickers(), source_ip(), 10);
    assert!(manager.update_ping(&target(8080)));
    assert!(manager.update_ping_at(&target(8080), 77));
    assert_eq!(manager.snapshot()[0].last_ping, 77);
}

#[test]
fn remove_expired_cleans_old_clients() {
    let mut manager = ClientManager::new(10);
    manager.register_at(target(8080), &tickers(), source_ip(), 0);

    let removed = manager.remove_expired_at(50);

    assert_eq!(removed.len(), 1);
    assert_eq!(removed[0], target(8080));
    assert!(!manager.contains(&target(8080)));
}

#[test]
fn remove_expired_keeps_active_clients() {
    let mut manager = ClientManager::new(10_000);
    manager.register(target(8080), &tickers(), source_ip());

    let removed = manager.remove_expired();

    assert!(removed.is_empty());
    assert!(manager.contains(&target(8080)));
}

#[test]
fn sweep_judges_all_by_one_reading() {
    let mut manager = ClientManager::new(10);
    manager.register_at(target(1), &tickers(), source_ip(), 0);
    manager.register_at(target(2), &tickers(), source_ip(), 5);
    manager.register_at(target(3), &tickers(), source_ip(), 1);
    manager.register_at(target(4), &tickers(), source_ip(), 90);
    // silence of exactly the timeout is not yet too long
    assert!(manager.remove_expired_at(10).is_empty());
    assert_eq!(manager.remove_expired_at(12), vec![target(1), target(3)]);
    assert_eq!(manager.count(), 2);
    assert_eq!(manager.snapshot()[0].target, target(2));
    assert_eq!(manager.remove_expired_at(16), vec![target(2)]);
    assert!(manager.contains(&target(4)));
}

#[test]
fn snapshot_returns_copy() {
    let mut manager = ClientManager::default();
    manager.register(target(8080), &tickers(), source_ip());
    manager.register(target(8081), &tickers(), source_ip());

    let snapshot = manager.snapshot();
    assert_eq!(snapshot.len(), 2);
    manager.remove(&target(8080));
    assert_eq!(snapshot.len(), 2);
    assert_eq!(manager.count(), 1);
}

#[test]
fn update_ping_by_source_works() {
    let mut manager = ClientManager::new(100);
    manager.register_at(target(8080), &tickers(), IpAddress::V4(9), 1);
    manager.register_at(target(8081), &tickers(), source_ip(), 2);
    manager.register_at(target(8082), &tickers(), source_ip(), 3);
    let source_addr = SocketAddress::V4 { octets: 0x7F00_0001, port: 12345 };
    assert!(manager.update_ping_by_source_at(&source_addr, 50));
    let snapshot = manager.snapshot();
    assert_eq!(snapshot[0].last_ping, 1);
    assert_eq!(snapshot[1].last_ping, 50);
    assert_eq!(snapshot[2].last_ping, 3);
    assert!(manager.update_ping_by_source(&source_addr));
    let stranger = SocketAddress::V4 { octets: 0x0A00_0001, port: 12345 };
    assert!(!manager.update_ping_by_source_at(&stranger, 60));
    assert!(!manager.update_ping_by_source(&stranger));
    assert_eq!(manager.count(), 3);
}

#[test]
fn registry_clock_goes_forward() {
    let manager = ClientManager::new(1);
    let first = manager.now();
    let second = manager.now();
    assert!(first <= second);
    assert!(second < 60_000);
}

#[test]
fn streamer_sends_only_subscribed_tickers() {
    let mut streamer = ClientStreamer::new(target(9001), tickers());
    assert_eq!(streamer.state(), StreamerState::Running);
    assert_eq!(streamer.addr(), target(9001));
    assert_eq!(streamer.tickers(), &tickers());
    assert!(streamer.on_stop_poll(StopPoll::Empty));
    assert_eq!(
        streamer.on_quote_poll(&QuotePoll::Quote(quote("AAPL"))),
        StreamerAction::Send(b"AAPL|150.50|10|99".to_vec())
    );
    assert_eq!(streamer.on_quote_poll(&QuotePoll::Quote(quote("GOOGL"))), StreamerAction::Continue);
    assert_eq!(streamer.on_quote_poll(&QuotePoll::Timeout), StreamerAction::Continue);
    assert_eq!(streamer.maybe_send_quote(&quote("TSLA")), Some(b"TSLA|150.50|10|99".to_vec()));
    assert_eq!(streamer.maybe_send_quote(&quote("META")), None);
    assert_eq!(streamer.state(), StreamerState::Running);
}

#[test]
fn streamer_stops_on_signal() {
    for poll in [StopPoll::Signalled, StopPoll::Disconnected] {
        let mut streamer = ClientStreamer::new(target(9001), tickers());
        assert!(!streamer.on_stop_poll(poll));
        assert_eq!(streamer.state(), StreamerState::Stopped);
        assert!(!streamer.on_stop_poll(StopPoll::Empty));
        assert_eq!(streamer.on_quote_poll(&QuotePoll::Quote(quote("AAPL"))), StreamerAction::Exit);
        assert_eq!(streamer.state(), StreamerState::Stopped);
    }
}

#[test]
fn streamer_stops_when_quotes_end() {
    let mut streamer = ClientStreamer::new(target(9001), tickers());
    assert_eq!(streamer.on_quote_poll(&QuotePoll::Disconnected), StreamerAction::Exit);
    assert_eq!(streamer.state(), StreamerState::Stopped);
    assert_eq!(streamer.on_quote_poll(&QuotePoll::Timeout), StreamerAction::Exit);
    assert!(!streamer.on_stop_poll(StopPoll::Empty));
}

#[test]
fn milliseconds_are_counted_up_to_the_largest_count() {
    assert_eq!(count_millis(0), 0);
    assert_eq!(count_millis(5_000), 5_000);
    assert_eq!(count_millis(u64::MAX as u128), u64::MAX);
    assert_eq!(count_millis(u64::MAX as u128 + 1), u64::MAX);
    assert_eq!(count_millis(u128::MAX), u64::MAX);
}
