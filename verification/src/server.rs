//! What the server decides: how a command is answered, what counts as a
//! heartbeat, who is swept, and which quotes a tick brings. Sockets, threads
//! and channels are the caller's; it hands in what arrived and carries out
//! what is returned.

use crate::addr::{IpAddress, SocketAddress};
use crate::client_handler::{
    alive, expired, place_from, registered, targets_of, touched_at, ClientManager, ClientRecord,
};
use crate::command::Command;
use crate::error::ParseError;
use crate::generator::{batch, fit_draws, quotes_of, Draw, QuoteGenerator};
use crate::quote::StockQuote;
use crate::response::{Response, ResponseView};
use crate::target::UdpAddr;
use crate::text::{
    ascii_upper, chars_of, same_chars, string_of, texts, trim, trim_chars, upper_ascii_chars,
};
use crate::tickers::Tickers;
use vstd::prelude::*;

verus! {

/// The settings of the server. Times are in milliseconds.
#[derive(Clone, Copy, Debug, PartialEq, Eq, Structural)]
pub struct ServerConfig {
    /// The port of the control channel.
    pub tcp_port: u16,
    /// The port on which heartbeats arrive.
    pub udp_ping_port: u16,
    /// The silence after which a subscriber is removed.
    pub ping_timeout: u64,
    /// The time between two ticks of the generator.
    pub quote_interval: u64,
    /// The time between two sweeps.
    pub cleanup_interval: u64,
}

impl Default for ServerConfig {
    fn default() -> (r: ServerConfig)
        ensures
            r == (ServerConfig {
                tcp_port: 5000,
                udp_ping_port: 5001,
                ping_timeout: 5000,
                quote_interval: 100,
                cleanup_interval: 1000,
            }),
    {
        ServerConfig {
            tcp_port: 5000,
            udp_ping_port: 5001,
            ping_timeout: 5000,
            quote_interval: 100,
            cleanup_interval: 1000,
        }
    }
}

/// The size of the buffer into which a heartbeat is received.
pub const PING_BUFFER_SIZE: usize = 1024;

/// The seconds after which a wait for a heartbeat is given up.
pub const UDP_READ_TIMEOUT_SECS: u64 = 1;

/// The tickers for which every tick makes a quote, in this order.
pub open spec fn all_tickers() -> Seq<Seq<char>> {
    seq![
        "AAPL"@,
        "GOOGL"@,
        "TSLA"@,
        "MSFT"@,
        "AMZN"@,
        "NVDA"@,
        "META"@,
        "JPM"@,
        "JNJ"@,
        "V"@,
    ]
}

/// Whether a datagram's text is a heartbeat: `PING`, in any case, with
/// whitespace around it or none.
pub open spec fn is_heartbeat(text: Seq<char>) -> bool {
    trim(text).map_values(|c: char| ascii_upper(c)) == "PING"@
}

/// What the answer to a heartbeat holds.
pub open spec fn heartbeat_reply() -> Seq<char> {
    "PONG"@
}

/// What is to be set up after a command was answered.
#[derive(Debug)]
pub enum Effect {
    /// Nothing.
    Nothing,
    /// Open a channel and start a streaming unit for this subscriber,
    /// in place of any that the target had before.
    StartStream { udp_addr: UdpAddr, tickers: Tickers },
}

/// What an [`Effect`] holds.
pub enum EffectView {
    Nothing,
    StartStream { udp_addr: UdpAddr, tickers: Seq<Seq<char>> },
}

impl View for Effect {
    type V = EffectView;

    open spec fn view(&self) -> EffectView {
        match self {
            Effect::Nothing => EffectView::Nothing,
            Effect::StartStream { udp_addr, tickers } => EffectView::StartStream {
                udp_addr: *udp_addr,
                tickers: tickers@,
            },
        }
    }
}

/// The state that the activities of the server share.
pub struct Server {
    config: ServerConfig,
    client_manager: ClientManager,
}

impl Server {
    /// The settings. The timeout is the one that the registry works with.
    pub closed spec fn settings(self) -> ServerConfig {
        ServerConfig { ping_timeout: self.client_manager.timeout(), ..self.config }
    }

    /// The records of the registry.
    pub closed spec fn clients(self) -> Seq<ClientRecord> {
        self.client_manager@
    }

    /// A server without subscribers.
    pub fn new(config: ServerConfig) -> (r: Server)
        ensures
            r.settings() == config,
            r.clients() == Seq::<ClientRecord>::empty(),
    {
        Server { config, client_manager: ClientManager::new(config.ping_timeout) }
    }

    pub fn config(&self) -> (r: ServerConfig)
        ensures
            r == self.settings(),
    {
        ServerConfig { ping_timeout: self.client_manager.ping_timeout(), ..self.config }
    }

    pub fn client_manager(&self) -> (r: &ClientManager)
        ensures
            r@ == self.clients(),
    {
        &self.client_manager
    }

    /// The tickers for which every tick makes a quote.
    pub fn all_tickers() -> (r: Vec<String>)
        ensures
            texts(r@) == all_tickers(),
    {
        let mut out: Vec<String> = Vec::new();
        out.push(String::from_str("AAPL"));
        out.push(String::from_str("GOOGL"));
        out.push(String::from_str("TSLA"));
        out.push(String::from_str("MSFT"));
        out.push(String::from_str("AMZN"));
        out.push(String::from_str("NVDA"));
        out.push(String::from_str("META"));
        out.push(String::from_str("JPM"));
        out.push(String::from_str("JNJ"));
        out.push(String::from_str("V"));
        assert(texts(out@) == all_tickers());
        out
    }

    /// One tick of the generator: a quote for each of the tickers, in their
    /// order. A ticker for which no quote can be made is passed over.
    pub fn generate_tick(generator: &mut QuoteGenerator) -> (r: Vec<StockQuote>)
        ensures
            exists|draws: Seq<Draw>|
                fit_draws(all_tickers(), draws) && (quotes_of(r@), final(generator)@) == batch(
                    old(generator)@,
                    all_tickers(),
                    draws,
                ),
    {
        let names = Server::all_tickers();
        generator.generate_each(&names)
    }

    /// Whether the text of a datagram is a heartbeat.
    pub fn is_heartbeat(text: &str) -> (r: bool)
        ensures
            r == is_heartbeat(text@),
    {
        let chars = chars_of(text);
        let bare = trim_chars(chars.as_slice());
        let shout = upper_ascii_chars(bare.as_slice());
        let ping = chars_of("PING");
        same_chars(shout.as_slice(), ping.as_slice())
    }

    /// Takes the text of a datagram that came from `from` at `now`. A
    /// heartbeat is noted for the first subscriber from the same IP address,
    /// and is to be answered with `PONG`, whether or not there is such a
    /// subscriber; anything else is passed over.
    pub fn handle_datagram_at(&mut self, text: &str, from: &SocketAddress, now: u64) -> (reply:
        Option<String>)
        ensures
            final(self).settings() == old(self).settings(),
            match reply {
                Some(answer) => is_heartbeat(text@) && answer@ == heartbeat_reply(),
                None => !is_heartbeat(text@),
            },
            final(self).clients() == (if is_heartbeat(text@) {
                touched_at(old(self).clients(), place_from(old(self).clients(), from.spec_ip()), now)
            } else {
                old(self).clients()
            }),
    {
        if Server::is_heartbeat(text) {
            let _ = self.client_manager.update_ping_by_source_at(from, now);
            Some(String::from_str("PONG"))
        } else {
            None
        }
    }

    /// Takes the text of a datagram that came from `from` just now.
    pub fn handle_datagram(&mut self, text: &str, from: &SocketAddress) -> (reply: Option<String>)
        ensures
            final(self).settings() == old(self).settings(),
            match reply {
                Some(answer) => is_heartbeat(text@) && answer@ == heartbeat_reply(),
                None => !is_heartbeat(text@),
            },
            !is_heartbeat(text@) ==> final(self).clients() == old(self).clients(),
            is_heartbeat(text@) ==> exists|now: u64|
                final(self).clients() == touched_at(
                    old(self).clients(),
                    place_from(old(self).clients(), from.spec_ip()),
                    now,
                ),
            final(self).clients().len() == old(self).clients().len(),
    {
        let now = self.client_manager.now();
        let reply = self.handle_datagram_at(text, from, now);
        assert(is_heartbeat(text@) ==> self.clients() == touched_at(
            old(self).clients(),
            place_from(old(self).clients(), from.spec_ip()),
            now,
        ));
        reply
    }

    /// Registers at `now` a subscriber whose command came from `peer`, and
    /// answers `OK`.
    pub fn handle_stream_command_at(
        &mut self,
        udp_addr: UdpAddr,
        tickers: &Tickers,
        peer: IpAddress,
        now: u64,
    ) -> (r: Response)
        ensures
            r@ == ResponseView::Okay,
            final(self).settings() == old(self).settings(),
            final(self).clients() == registered(
                old(self).clients(),
                ClientRecord { target: udp_addr, tickers: tickers@, last_ping: now, source_ip: peer },
            ),
    {
        self.client_manager.register_at(udp_addr, tickers, peer, now);
        Response::Okay
    }

    /// Answers at `now` what was read from one line of the control channel,
    /// which came from `peer`. `STREAM` registers the subscriber, is answered
    /// with `OK` and asks for a stream to be started; `PING` is answered with
    /// `OK`; a line that could not be read is answered with `ERR` and the
    /// error's message.
    pub fn respond_at(&mut self, read: Result<Command, ParseError>, peer: IpAddress, now: u64) -> (r:
        (Response, Effect))
        ensures
            final(self).settings() == old(self).settings(),
            match read {
                Ok(Command::Stream { udp_addr, tickers }) => {
                    &&& r.0@ == ResponseView::Okay
                    &&& r.1@ == (EffectView::StartStream { udp_addr, tickers: tickers@ })
                    &&& final(self).clients() == registered(
                        old(self).clients(),
                        ClientRecord {
                            target: udp_addr,
                            tickers: tickers@,
                            last_ping: now,
                            source_ip: peer,
                        },
                    )
                },
                Ok(Command::Ping) => {
                    &&& r.0@ == ResponseView::Okay
                    &&& r.1@ == EffectView::Nothing
                    &&& final(self).clients() == old(self).clients()
                },
                Err(e) => {
                    &&& r.0@ == ResponseView::Error(e@.text())
                    &&& r.1@ == EffectView::Nothing
                    &&& final(self).clients() == old(self).clients()
                },
            },
    {
        match read {
            Ok(Command::Stream { udp_addr, tickers }) => {
                let response = self.handle_stream_command_at(udp_addr, &tickers, peer, now);
                (response, Effect::StartStream { udp_addr, tickers })
            },
            Ok(Command::Ping) => (Response::Okay, Effect::Nothing),
            Err(e) => (Response::Error(e.message()), Effect::Nothing),
        }
    }

    /// Answers what was read from one line of the control channel just now.
    pub fn respond(&mut self, read: Result<Command, ParseError>, peer: IpAddress) -> (r: (
        Response,
        Effect,
    ))
        ensures
            final(self).settings() == old(self).settings(),
            match read {
                Ok(Command::Stream { udp_addr, tickers }) => {
                    &&& r.0@ == ResponseView::Okay
                    &&& r.1@ == (EffectView::StartStream { udp_addr, tickers: tickers@ })
                    &&& exists|now: u64|
                        final(self).clients() == registered(
                            old(self).clients(),
                            ClientRecord {
                                target: udp_addr,
                                tickers: tickers@,
                                last_ping: now,
                                source_ip: peer,
                            },
                        )
                },
                Ok(Command::Ping) => {
                    &&& r.0@ == ResponseView::Okay
                    &&& r.1@ == EffectView::Nothing
                    &&& final(self).clients() == old(self).clients()
                },
                Err(e) => {
                    &&& r.0@ == ResponseView::Error(e@.text())
                    &&& r.1@ == EffectView::Nothing
                    &&& final(self).clients() == old(self).clients()
                },
            },
    {
        let now = self.client_manager.now();
        self.respond_at(read, peer, now)
    }

    /// One sweep at `now`: removes the subscribers that have been silent for
    /// longer than the timeout of the settings, and returns their targets,
    /// whose channels and streaming units are to be taken down.
    pub fn cleanup_at(&mut self, now: u64) -> (removed: Vec<UdpAddr>)
        ensures
            final(self).settings() == old(self).settings(),
            final(self).clients() == alive(
                old(self).clients(),
                old(self).settings().ping_timeout,
                now,
            ),
            removed@ == targets_of(
                expired(old(self).clients(), old(self).settings().ping_timeout, now),
            ),
    {
        self.client_manager.remove_expired_at(now)
    }

    /// One sweep, judged by one reading of the clock.
    pub fn cleanup(&mut self) -> (removed: Vec<UdpAddr>)
        ensures
            final(self).settings() == old(self).settings(),
            exists|now: u64|
                final(self).clients() == alive(
                    old(self).clients(),
                    old(self).settings().ping_timeout,
                    now,
                ) && removed@ == targets_of(
                    expired(old(self).clients(), old(self).settings().ping_timeout, now),
                ),
    {
        let now = self.client_manager.now();
        let removed = self.cleanup_at(now);
        assert(self.clients() == alive(old(self).clients(), old(self).settings().ping_timeout, now)
            && removed@ == targets_of(
            expired(old(self).clients(), old(self).settings().ping_timeout, now),
        ));
        removed
    }
}

} // verus!
