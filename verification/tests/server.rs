use quote_stream::addr::{IpAddress, SocketAddress};
use quote_stream::client::{read_tickers, Args, Client, ClientConfig, Received};
use quote_stream::command::Command;
use quote_stream::decimal::Decimal;
use quote_stream::error::{ParseError, QuoteError};
use quote_stream::generator::QuoteGenerator;
use quote_stream::response::Response;
use quote_stream::server::{Effect, Server, ServerConfig};
use quote_stream::target::UdpAddr;
use quote_stream::tickers::Tickers;

fn target(port: u16) -> UdpAddr {
    UdpAddr(SocketAddress::V4 { octets: 0x7F00_0001, port })
}

fn peer() -> IpAddress {
    IpAddress::V4(0x7F00_0001)
}

#[test]
fn default_server_settings() {
    let config = ServerConfig::default();
    assert_eq!(config.tcp_port, 5000);
    assert_eq!(config.udp_ping_port, 5001);
    assert_eq!(config.ping_timeout, 5000);
    assert_eq!(config.quote_interval, 100);
    assert_eq!(config.cleanup_interval, 1000);
    let server = Server::new(ServerConfig { ping_timeout: 7, ..config });
    assert_eq!(server.config().ping_timeout, 7);
    assert_eq!(server.config().tcp_port, 5000);
    assert_eq!(server.client_manager().count(), 0);
}

#[test]
fn tick_makes_a_quote_for_every_ticker() {
    let names = Server::all_tickers();
    assert_eq!(names, vec!["AAPL", "GOOGL", "TSLA", "MSFT", "AMZN", "NVDA", "META", "JPM", "JNJ", "V"]);
    let mut generator = QuoteGenerator::new();
    let quotes = Server::generate_tick(&mut generator);
    let made: Vec<&str> = quotes.iter().map(|q| q.ticker.as_str()).collect();
    assert_eq!(made, names);
    let floor = Decimal::new(100, 2);
    for quote in &quotes {
        assert!(!quote.price.less_than(&floor));
        assert_eq!(generator.current_price(&quote.ticker), Some(quote.price));
    }
}

#[test]
fn heartbeat_is_ping_in_any_case() {
    for text in ["PING", "ping", "Ping", " PING\n", "\tpInG \r\n"] {
        assert!(Server::is_heartbeat(text));
    }
    for text in ["", "PONG", "PING 1", "P ING", "PINGS", "\u{17f}ping", "P\u{130}NG"] {
        assert!(!Server::is_heartbeat(text));
    }
}

#[test]
fn heartbeat_touches_and_is_answered() {
    let mut server = Server::new(ServerConfig { ping_timeout: 10, ..ServerConfig::default() });
    let tickers = Tickers::one("AAPL");
    server.respond_at(Ok(Command::stream(target(9001), tickers)), peer(), 0);
    let from = SocketAddress::V4 { octets: 0x7F00_0001, port: 40000 };
    assert_eq!(server.handle_datagram_at("ping\n", &from, 8), Some("PONG".to_string()));
    assert_eq!(server.client_manager().snapshot()[0].last_ping, 8);
    assert_eq!(server.handle_datagram_at("hello", &from, 9), None);
    assert_eq!(server.client_manager().snapshot()[0].last_ping, 8);
    let stranger = SocketAddress::V4 { octets: 1, port: 40000 };
    assert_eq!(server.handle_datagram_at("PING", &stranger, 9), Some("PONG".to_string()));
    assert_eq!(server.client_manager().snapshot()[0].last_ping, 8);
    assert_eq!(server.handle_datagram("PING", &from), Some("PONG".to_string()));
    assert_eq!(server.handle_datagram("nothing", &from), None);
}

#[test]
fn stream_command_registers_and_starts() {
    let mut server = Server::new(ServerConfig::default());
    let tickers: Tickers = "AAPL,TSLA".parse().unwrap();
    let (response, effect) = server.respond(Ok(Command::stream(target(9001), tickers.clone())), peer());
    assert_eq!(response, Response::Okay);
    match effect {
        Effect::StartStream { udp_addr, tickers: topics } => {
            assert_eq!(udp_addr, target(9001));
            assert_eq!(topics, tickers);
        }
        Effect::Nothing => panic!("a stream is to be started"),
    }
    assert!(server.client_manager().contains(&target(9001)));
    let record = &server.client_manager().snapshot()[0];
    assert_eq!(record.source_ip, peer());
    assert_eq!(record.tickers, tickers);
    assert_eq!(
        server.handle_stream_command_at(target(9002), &tickers, peer(), 5),
        Response::Okay
    );
    assert_eq!(server.client_manager().count(), 2);
}

#[test]
fn ping_and_errors_change_nothing() {
    let mut server = Server::new(ServerConfig::default());
    let (response, effect) = server.respond(Ok(Command::Ping), peer());
    assert_eq!(response, Response::Okay);
    assert!(matches!(effect, Effect::Nothing));
    let (response, effect) = server.respond(Err(ParseError::MissingTickers), peer());
    assert_eq!(response, Response::Error("STREAM: missing tickers".to_string()));
    assert_eq!(response.to_string(), "ERR STREAM: missing tickers");
    assert!(matches!(effect, Effect::Nothing));
    assert_eq!(server.client_manager().count(), 0);
}

#[test]
fn silent_subscriber_is_swept() {
    let mut server = Server::new(ServerConfig { ping_timeout: 10, ..ServerConfig::default() });
    server.respond_at(Ok(Command::stream(target(9001), Tickers::one("AAPL"))), peer(), 0);
    server.respond_at(Ok(Command::stream(target(9002), Tickers::one("TSLA"))), peer(), 5);
    assert!(server.cleanup_at(10).is_empty());
    assert_eq!(server.cleanup_at(11), vec![target(9001)]);
    assert!(!server.client_manager().contains(&target(9001)));
    assert!(server.client_manager().contains(&target(9002)));
    assert!(server.cleanup_at(11).is_empty());
    assert!(Server::new(ServerConfig::default()).cleanup().is_empty());
}

#[test]
fn default_client_arguments() {
    let args = Args::default();
    assert_eq!(args.server_addr, "127.0.0.1:5000");
    assert_eq!(args.ping_port, 5001);
    assert_eq!(args.udp_port, 34254);
    assert_eq!(args.tickers_file, "tickers.txt");
}

#[test]
fn client_settings_from_arguments() {
    let args = Args { udp_port: 4000, ping_port: 6001, ..Args::default() };
    let server_addr = SocketAddress::V4 { octets: 0x0A00_0002, port: 6000 };
    let config = ClientConfig::from_args(&args, server_addr, Tickers::one("AAPL"));
    assert_eq!(config.server_addr, server_addr);
    assert_eq!(config.ping_addr, SocketAddress::V4 { octets: 0x0A00_0002, port: 6001 });
    assert_eq!(config.udp_port, 4000);
    assert_eq!(config.ping_interval, 2000);
    assert_eq!(config.udp_bind_addr(), SocketAddress::V4 { octets: 0, port: 4000 });
    assert_eq!(config.udp_bind_addr().to_string(), "0.0.0.0:4000");
    let client = Client::new(config);
    assert_eq!(client.config().udp_port, 4000);
    assert_eq!(client.stream_command(), "STREAM udp://0.0.0.0:4000 AAPL\n");
}

#[test]
fn tickers_are_read_from_lines() {
    let lines: Vec<String> =
        ["# my tickers", "", "  aapl ", "TSLA", "   ", "#META", "googl", "tsla"]
            .iter()
            .map(|l| l.to_string())
            .collect();
    let tickers = read_tickers(&lines).unwrap();
    assert_eq!(tickers.iter(), vec!["AAPL", "TSLA", "GOOGL"]);
    let none: Vec<String> = vec!["# nothing".to_string(), "".to_string()];
    assert_eq!(read_tickers(&none), Err(ParseError::NoTickersFound));
    assert_eq!(read_tickers(&Vec::new()), Err(ParseError::NoTickersFound));
    let commas: Vec<String> = vec![",".to_string()];
    assert_eq!(read_tickers(&commas), Err(ParseError::NoValidTickers));
    assert_eq!(ParseError::NoTickersFound.message(), "No tickers found in file");
}

#[test]
fn client_reads_the_answer() {
    assert_eq!(Client::check_stream_response("OK\n"), Ok(()));
    assert_eq!(
        Client::check_stream_response("ERR No valid tickers provided"),
        Err(ParseError::ServerError("No valid tickers provided".to_string()))
    );
    assert_eq!(
        ParseError::ServerError("no".to_string()).message(),
        "Server error: no"
    );
    assert_eq!(
        Client::check_stream_response("WHAT"),
        Err(ParseError::InvalidResponse("WHAT".to_string()))
    );
}

#[test]
fn client_sorts_datagrams() {
    assert!(matches!(Client::handle_received_data("PONG"), Received::Pong));
    assert!(matches!(Client::handle_received_data(" PONG\n"), Received::Pong));
    match Client::handle_received_data("AAPL|150.50|1000|1234567890\n") {
        Received::Quote(quote) => {
            assert_eq!(quote.ticker, "AAPL");
            assert_eq!(quote.price, Decimal::new(15050, 2));
            assert_eq!(quote.volume, 1000);
            assert_eq!(quote.timestamp, 1234567890);
        }
        _ => panic!("a quote arrived"),
    }
    assert!(matches!(
        Client::handle_received_data("pong"),
        Received::Invalid(QuoteError::MissingPrice)
    ));
    assert!(matches!(
        Client::handle_received_data("AAPL|1|2|3|4"),
        Received::Invalid(QuoteError::TooManyFields)
    ));
}
