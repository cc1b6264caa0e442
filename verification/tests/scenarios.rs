use quote_stream::addr::{IpAddress, SocketAddress};
use quote_stream::client_handler::{ClientStreamer, QuotePoll, StopPoll, StreamerAction};
use quote_stream::command::{Command, Parsing};
use quote_stream::error::ParseError;
use quote_stream::generator::QuoteGenerator;
use quote_stream::quote::StockQuote;
use quote_stream::response::Response;
use quote_stream::server::{Effect, Server, ServerConfig};
use quote_stream::target::{Resolution, UdpAddr};
use quote_stream::tickers::Tickers;

/// Stands in for the system resolver: it knows `a.b.c.d:port` only.
fn resolve_literal(asked: &str) -> Resolution {
    let failed = Resolution::Failed("invalid socket address".to_string());
    let Some((host, port)) = asked.rsplit_once(':') else {
        return failed;
    };
    let Ok(port) = port.parse::<u16>() else {
        return failed;
    };
    let octets: Vec<u8> = host.split('.').filter_map(|o| o.parse().ok()).collect();
    if octets.len() != 4 || host.split('.').count() != 4 {
        return failed;
    }
    let bits = octets.iter().fold(0u32, |bits, o| bits * 256 + *o as u32);
    Resolution::Found(vec![SocketAddress::V4 { octets: bits, port }])
}

fn read_line(line: &str) -> Result<Command, ParseError> {
    match Command::parse(line)? {
        Parsing::Done(command) => Ok(command),
        Parsing::NeedsLookup(pending) => {
            let outcome = resolve_literal(pending.lookup_text());
            pending.finish(outcome)
        }
    }
}

fn peer() -> IpAddress {
    IpAddress::V4(0x7F00_0001)
}

#[test]
fn subscriber_gets_only_its_topics() {
    let mut server = Server::new(ServerConfig::default());
    let (response, effect) =
        server.respond(read_line("STREAM udp://127.0.0.1:9001 AAPL,TSLA"), peer());
    assert_eq!(response.to_string(), "OK");
    let Effect::StartStream { udp_addr, tickers } = effect else {
        panic!("a stream is to be started");
    };
    assert_eq!(udp_addr.socket_addr().port(), 9001);
    assert_eq!(udp_addr.to_string(), "udp://127.0.0.1:9001");
    let mut streamer = ClientStreamer::new(udp_addr, tickers);
    let mut generator = QuoteGenerator::new();
    let mut sent: Vec<String> = Vec::new();
    for quote in Server::generate_tick(&mut generator) {
        assert!(streamer.on_stop_poll(StopPoll::Empty));
        match streamer.on_quote_poll(&QuotePoll::Quote(quote)) {
            StreamerAction::Send(bytes) => sent.push(String::from_utf8(bytes).unwrap()),
            StreamerAction::Continue => {}
            StreamerAction::Exit => panic!("the unit runs"),
        }
    }
    assert_eq!(sent.len(), 2);
    for datagram in &sent {
        let quote: StockQuote = datagram.parse().unwrap();
        assert!(quote.ticker == "AAPL" || quote.ticker == "TSLA");
        let fields: Vec<&str> = datagram.split('|').collect();
        assert_eq!(fields.len(), 4);
        assert_eq!(quote.to_string(), *datagram);
    }
    assert!(sent[0].starts_with("AAPL|"));
    assert!(sent[1].starts_with("TSLA|"));
}

#[test]
fn silent_subscriber_is_reaped() {
    let mut server = Server::new(ServerConfig { ping_timeout: 5000, ..ServerConfig::default() });
    let (_, effect) =
        server.respond_at(read_line("STREAM udp://127.0.0.1:9001 AAPL"), peer(), 1_000);
    let Effect::StartStream { udp_addr, tickers } = effect else {
        panic!("a stream is to be started");
    };
    let mut streamer = ClientStreamer::new(udp_addr, tickers);
    assert!(server.cleanup_at(6_000).is_empty());
    assert_eq!(server.client_manager().snapshot().len(), 1);
    let removed = server.cleanup_at(6_001);
    assert_eq!(removed, vec![udp_addr]);
    assert!(server.client_manager().snapshot().is_empty());
    // the caller signals the unit of each removed target
    assert!(!streamer.on_stop_poll(StopPoll::Signalled));
    let mut generator = QuoteGenerator::new();
    for quote in Server::generate_tick(&mut generator) {
        assert_eq!(streamer.on_quote_poll(&QuotePoll::Quote(quote)), StreamerAction::Exit);
    }
}

#[test]
fn heartbeat_keeps_a_subscriber() {
    let mut server = Server::new(ServerConfig { ping_timeout: 5000, ..ServerConfig::default() });
    server.respond_at(read_line("STREAM udp://127.0.0.1:9001 AAPL"), peer(), 1_000);
    let from = SocketAddress::V4 { octets: 0x7F00_0001, port: 50_000 };
    assert_eq!(server.handle_datagram_at("PING", &from, 5_500), Some("PONG".to_string()));
    assert!(server.cleanup_at(6_001).is_empty());
    assert_eq!(server.cleanup_at(10_501).len(), 1);
}

#[test]
fn bad_target_is_refused_and_the_line_goes_on() {
    let mut server = Server::new(ServerConfig::default());
    let (response, effect) = server.respond(read_line("STREAM bad-target AAPL"), peer());
    assert!(matches!(effect, Effect::Nothing));
    let line = response.to_string();
    assert!(line.starts_with("ERR "));
    assert!(line.len() > "ERR ".len());
    assert_eq!(server.client_manager().count(), 0);
    let (response, _) = server.respond(read_line("PING"), peer());
    assert_eq!(response.to_string(), "OK");
}

#[test]
fn commands_are_read_without_regard_to_case() {
    assert_eq!(read_line("PING"), Ok(Command::Ping));
    assert_eq!(read_line("ping"), Ok(Command::Ping));
    assert_eq!(read_line("  Ping  "), Ok(Command::Ping));
    assert_eq!(read_line("ping and more"), Err(ParseError::PingWithArguments));
    assert_eq!(read_line("PING extra"), Err(ParseError::PingWithArguments));
    assert_eq!(read_line("PING\t\n"), Ok(Command::Ping));
    let expected = Command::stream(
        UdpAddr(SocketAddress::V4 { octets: 0x7F00_0001, port: 8080 }),
        "AAPL,TSLA".parse::<Tickers>().unwrap(),
    );
    assert_eq!(read_line("STREAM udp://127.0.0.1:8080 AAPL,TSLA"), Ok(expected.clone()));
    assert_eq!(read_line("stream udp://127.0.0.1:8080 aapl,tsla"), Ok(expected.clone()));
    assert_eq!(read_line("\tStReAm   127.0.0.1:8080\tAAPL,TSLA \n"), Ok(expected.clone()));
    assert_eq!(expected.to_string(), "STREAM udp://127.0.0.1:8080 AAPL,TSLA");
    assert_eq!(read_line(&expected.to_string().to_lowercase()), Ok(expected));
}

#[test]
fn commands_are_refused_by_cause() {
    let s = |t: &str| t.to_string();
    assert_eq!(read_line(""), Err(ParseError::EmptyCommand));
    assert_eq!(read_line("   "), Err(ParseError::EmptyCommand));
    assert_eq!(
        read_line("SUBSCRIBE udp://127.0.0.1:8080 AAPL"),
        Err(ParseError::UnknownCommand(s("SUBSCRIBE")))
    );
    assert_eq!(read_line("stop"), Err(ParseError::UnknownCommand(s("STOP"))));
    assert_eq!(read_line("STREAM"), Err(ParseError::MissingAddress));
    assert_eq!(read_line("STREAM udp://127.0.0.1:8080"), Err(ParseError::MissingTickers));
    assert_eq!(
        read_line("STREAM udp://127.0.0.1:8080 AAPL extra"),
        Err(ParseError::TooManyArguments)
    );
    assert_eq!(read_line("STREAM udp://127.0.0.1:8080 ,,"), Err(ParseError::NoValidTickers));
    assert_eq!(read_line("STREAM udp://127.0.0.1:8080 ,, extra"), Err(ParseError::NoValidTickers));
    assert_eq!(
        read_line("STREAM tcp://127.0.0.1:8080 AAPL"),
        Err(ParseError::WrongScheme(s("tcp")))
    );
    assert_eq!(read_line("STREAM udp://127.0.0.1 AAPL"), Err(ParseError::MissingPort));
    assert_eq!(
        read_line("STREAM nowhere:1"),
        Err(ParseError::WrongScheme(s("nowhere")))
    );
    assert_eq!(
        read_line("STREAM 1.2.3:1"),
        Err(ParseError::Lookup(s("invalid socket address")))
    );
}

#[test]
fn responses_are_read_leniently() {
    let s = |t: &str| t.to_string();
    assert_eq!(Response::parse("OK"), Ok(Response::Okay));
    assert_eq!(Response::parse("  OK \n"), Ok(Response::Okay));
    assert_eq!(Response::parse("ERR\n"), Ok(Response::Error(s(""))));
    assert_eq!(Response::parse(" ERR  spaced \n"), Ok(Response::Error(s(" spaced \n"))));
    assert_eq!(Response::parse("ERR Something failed"), Ok(Response::Error(s("Something failed"))));
    assert_eq!(Response::Error(s("")).to_string(), "ERR");
    assert_eq!(Response::parse(""), Err(ParseError::InvalidResponse(s(""))));
    assert_eq!(Response::parse(" OKAY "), Err(ParseError::InvalidResponse(s("OKAY "))));
    assert_eq!(Response::parse("ERROR message"), Err(ParseError::InvalidResponse(s("ERROR message"))));
    assert_eq!(Response::parse("ok"), Err(ParseError::InvalidResponse(s("ok"))));
    for response in [Response::Okay, Response::Error(s("")), Response::Error(s("a b  c "))] {
        assert_eq!(Response::parse(&response.to_string()), Ok(response.clone()));
    }
}
