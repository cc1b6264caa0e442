//! What the client decides: its settings, the topics it reads from the lines
//! of a file, the command it sends, and what it makes of a response and of
//! an arriving datagram.

use crate::addr::{IpAddress, SocketAddress};
use crate::command::{command_text, Command, CommandView};
use crate::error::{ParseError, ParseFault, QuoteError};
use crate::quote::{parse_quote, QuoteView, StockQuote};
use crate::response::{parse_response, Response, ResponseView};
use crate::target::UdpAddr;
use crate::text::{
    chars_of, join, join_chars, push_all, same_chars, string_of, texts, trim, trim_chars, upper,
    upper_chars, views,
};
use crate::tickers::{parse_topics, Tickers, TICKER_SEPARATOR};
use vstd::prelude::*;

verus! {

/// The arguments of the client's command line.
#[derive(Debug)]
pub struct Args {
    /// The address of the server's control channel.
    pub server_addr: String,
    /// The port at which the server takes heartbeats.
    pub ping_port: u16,
    /// The port at which the client takes updates.
    pub udp_port: u16,
    /// The file that lists the tickers.
    pub tickers_file: String,
}

impl Default for Args {
    fn default() -> (r: Args)
        ensures
            r.server_addr@ == "127.0.0.1:5000"@,
            r.ping_port == 5001,
            r.udp_port == 34254,
            r.tickers_file@ == "tickers.txt"@,
    {
        Args {
            server_addr: String::from_str("127.0.0.1:5000"),
            ping_port: 5001,
            udp_port: 34254,
            tickers_file: String::from_str("tickers.txt"),
        }
    }
}

/// The settings of the client.
#[derive(Debug)]
pub struct ClientConfig {
    pub server_addr: SocketAddress,
    pub ping_addr: SocketAddress,
    pub udp_port: u16,
    pub tickers: Tickers,
    /// The time between two heartbeats, in milliseconds.
    pub ping_interval: u64,
}

/// The time between two heartbeats, in milliseconds.
pub const PING_INTERVAL: u64 = 2000;

/// The address `0.0.0.0` with the given port.
pub open spec fn any_address(port: u16) -> SocketAddress {
    SocketAddress::V4 { octets: 0, port }
}

impl ClientConfig {
    /// The settings for the given arguments, with the server's address as
    /// it was read from them and the tickers as they were read from the
    /// file. Heartbeats go to the server's IP address, at the ping port.
    pub fn from_args(args: &Args, server_addr: SocketAddress, tickers: Tickers) -> (r:
        ClientConfig)
        ensures
            r.server_addr == server_addr,
            r.ping_addr == SocketAddress::new(server_addr.spec_ip(), args.ping_port),
            r.udp_port == args.udp_port,
            r.tickers@ == tickers@,
            r.ping_interval == PING_INTERVAL,
    {
        ClientConfig {
            server_addr,
            ping_addr: SocketAddress::new(server_addr.ip(), args.ping_port),
            udp_port: args.udp_port,
            tickers,
            ping_interval: PING_INTERVAL,
        }
    }

    /// The address at which the client takes updates: every address of the
    /// machine, at the port of the settings.
    pub fn udp_bind_addr(&self) -> (r: SocketAddress)
        ensures
            r == any_address(self.udp_port),
    {
        SocketAddress::new(IpAddress::V4(0), self.udp_port)
    }
}

/// Whether a line of the tickers file names a ticker: it is not blank and
/// no comment, which starts with `#`.
pub open spec fn names_ticker(line: Seq<char>) -> bool {
    trim(line).len() > 0 && trim(line)[0] != '#'
}

/// The tickers that the lines of a file name, each trimmed and in
/// uppercase, in the order of the lines.
pub open spec fn listed_tickers(lines: Seq<Seq<char>>) -> Seq<Seq<char>> {
    lines.filter(|line: Seq<char>| names_ticker(line)).map_values(
        |line: Seq<char>| upper(trim(line)),
    )
}

/// The topics that the lines of a file give: those of the listed tickers,
/// joined by commas and read as a topic list.
pub open spec fn topics_of_lines(lines: Seq<Seq<char>>) -> Result<Seq<Seq<char>>, ParseFault> {
    if listed_tickers(lines).len() == 0 {
        Err(ParseFault::NoTickersFound)
    } else {
        parse_topics(join(listed_tickers(lines), TICKER_SEPARATOR))
    }
}

/// Reads the topics from the lines of a tickers file.
pub fn read_tickers(lines: &Vec<String>) -> (r: Result<Tickers, ParseError>)
    ensures
        match r {
            Ok(t) => topics_of_lines(texts(lines@)) == Ok::<Seq<Seq<char>>, ParseFault>(t@),
            Err(e) => topics_of_lines(texts(lines@)) == Err::<Seq<Seq<char>>, ParseFault>(e@),
        },
{
    let ghost all = texts(lines@);
    let ghost named = |line: Seq<char>| names_ticker(line);
    let ghost shout = |line: Seq<char>| upper(trim(line));
    let mut found: Vec<Vec<char>> = Vec::new();
    let mut i: usize = 0;
    assert(all.take(0).filter(named).map_values(shout) == Seq::<Seq<char>>::empty());
    while i < lines.len()
        invariant
            i <= lines.len(),
            all == texts(lines@),
            named == (|line: Seq<char>| names_ticker(line)),
            shout == (|line: Seq<char>| upper(trim(line))),
            views(found@) == all.take(i as int).filter(named).map_values(shout),
        decreases lines.len() - i,
    {
        proof {
            assert(all.take(i + 1) == all.take(i as int).push(all[i as int]));
            Seq::lemma_filter_push(all.take(i as int), all[i as int], named);
            assert(all[i as int] == lines@[i as int]@);
        }
        let ghost so_far = views(found@);
        let ghost kept = all.take(i as int).filter(named);
        let chars = chars_of(lines[i].as_str());
        let bare = trim_chars(chars.as_slice());
        if bare.len() > 0 && bare[0] != '#' {
            found.push(upper_chars(bare.as_slice()));
            assert(views(found@) == so_far.push(upper(trim(all[i as int]))));
            assert(kept.push(all[i as int]).map_values(shout) == kept.map_values(shout).push(
                upper(trim(all[i as int])),
            ));
        }
        i += 1;
    }
    assert(all.take(lines.len() as int) == all);
    if found.len() == 0 {
        return Err(ParseError::NoTickersFound);
    }
    let joined = join_chars(&found, TICKER_SEPARATOR);
    let text = string_of(joined.as_slice());
    Tickers::parse(text.as_str())
}

/// What the client makes of the server's answer to `STREAM`.
pub open spec fn stream_answer(line: Seq<char>) -> Result<(), ParseFault> {
    match parse_response(line) {
        Ok(ResponseView::Okay) => Ok(()),
        Ok(ResponseView::Error(reason)) => Err(ParseFault::ServerError(reason)),
        Err(e) => Err(e),
    }
}

/// What arrived in a datagram.
#[derive(Debug)]
pub enum Received {
    /// The answer to a heartbeat.
    Pong,
    Quote(StockQuote),
    /// Neither; holds why the text is no quote.
    Invalid(QuoteError),
}

/// What a [`Received`] holds.
pub enum ReceivedView {
    Pong,
    Quote(QuoteView),
    Invalid(QuoteError),
}

impl View for Received {
    type V = ReceivedView;

    open spec fn view(&self) -> ReceivedView {
        match self {
            Received::Pong => ReceivedView::Pong,
            Received::Quote(quote) => ReceivedView::Quote(quote@),
            Received::Invalid(e) => ReceivedView::Invalid(*e),
        }
    }
}

/// What the text of a datagram stands for, with the whitespace around it
/// passed over.
pub open spec fn received_of(data: Seq<char>) -> ReceivedView {
    if trim(data) == "PONG"@ {
        ReceivedView::Pong
    } else {
        match parse_quote(trim(data)) {
            Ok(quote) => ReceivedView::Quote(quote),
            Err(e) => ReceivedView::Invalid(e),
        }
    }
}

/// The line that opens the subscription of `config`, with its line feed.
pub open spec fn stream_request(config: ClientConfig) -> Seq<char> {
    command_text(
        CommandView::Stream {
            udp_addr: UdpAddr(any_address(config.udp_port)),
            tickers: config.tickers@,
        },
    ).push('\n')
}

/// The client.
pub struct Client {
    config: ClientConfig,
}

impl Client {
    pub closed spec fn settings(self) -> ClientConfig {
        self.config
    }

    pub fn new(config: ClientConfig) -> (r: Client)
        ensures
            r.settings() == config,
    {
        Client { config }
    }

    pub fn config(&self) -> (r: &ClientConfig)
        ensures
            *r == self.settings(),
    {
        &self.config
    }

    /// The line that opens the subscription: `STREAM`, the client's own
    /// address for updates and its topics, and a line feed.
    pub fn stream_command(&self) -> (r: String)
        ensures
            r@ == stream_request(self.settings()),
    {
        let command = Command::stream(
            UdpAddr(self.config.udp_bind_addr()),
            self.config.tickers.clone(),
        );
        let line = command.to_string();
        let mut out = chars_of(line.as_str());
        out.push('\n');
        string_of(out.as_slice())
    }

    /// Reads the server's answer to `STREAM`: `OK` lets the client go on,
    /// `ERR` is the server's refusal, anything else is no answer.
    pub fn check_stream_response(line: &str) -> (r: Result<(), ParseError>)
        ensures
            match r {
                Ok(()) => stream_answer(line@) == Ok::<(), ParseFault>(()),
                Err(e) => stream_answer(line@) == Err::<(), ParseFault>(e@),
            },
    {
        match Response::parse(line) {
            Ok(Response::Okay) => Ok(()),
            Ok(Response::Error(reason)) => Err(ParseError::ServerError(reason)),
            Err(e) => Err(e),
        }
    }

    /// Says what arrived in a datagram.
    pub fn handle_received_data(data: &str) -> (r: Received)
        ensures
            r@ == received_of(data@),
    {
        let chars = chars_of(data);
        let bare = trim_chars(chars.as_slice());
        let pong = chars_of("PONG");
        if same_chars(bare.as_slice(), pong.as_slice()) {
            return Received::Pong;
        }
        let text = string_of(bare.as_slice());
        match StockQuote::parse(text.as_str()) {
            Ok(quote) => Received::Quote(quote),
            Err(e) => Received::Invalid(e),
        }
    }
}

} // verus!
