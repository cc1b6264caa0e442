//! The errors that parsing and quote construction report, each with the
//! message that is shown to a peer.

use vstd::prelude::*;
use vstd::string::StringExecFns;

verus! {

/// Why a command, a delivery target, a topic list or a response was refused.
#[derive(Debug, PartialEq, Eq)]
pub enum ParseError {
    /// A topic list without a single topic.
    NoValidTickers,
    /// A delivery target with another scheme than `udp`; holds that scheme.
    WrongScheme(String),
    /// A delivery target in URL form without a host.
    MissingHost,
    /// A delivery target in URL form without a port.
    MissingPort,
    /// The resolver failed; holds its own message.
    Lookup(String),
    /// The resolver found no address; holds the text it was asked for.
    Unresolved(String),
    /// A line without a single word.
    EmptyCommand,
    /// `STREAM` without a delivery target.
    MissingAddress,
    /// `STREAM` without a topic list.
    MissingTickers,
    /// `STREAM` with more than two arguments.
    TooManyArguments,
    /// `PING` with an argument.
    PingWithArguments,
    /// A verb that is neither `STREAM` nor `PING`; holds the verb in uppercase.
    UnknownCommand(String),
    /// A response line that is neither `OK` nor `ERR`; holds the line.
    InvalidResponse(String),
    /// A list of lines without a single ticker.
    NoTickersFound,
    /// The server refused the subscription; holds its reason.
    ServerError(String),
}

/// What a [`ParseError`] holds: the same cases, with texts for strings.
pub enum ParseFault {
    NoValidTickers,
    WrongScheme(Seq<char>),
    MissingHost,
    MissingPort,
    Lookup(Seq<char>),
    Unresolved(Seq<char>),
    EmptyCommand,
    MissingAddress,
    MissingTickers,
    TooManyArguments,
    PingWithArguments,
    UnknownCommand(Seq<char>),
    InvalidResponse(Seq<char>),
    NoTickersFound,
    ServerError(Seq<char>),
}

impl ParseFault {
    /// The message of this error.
    pub open spec fn text(self) -> Seq<char> {
        match self {
            ParseFault::NoValidTickers => "No valid tickers provided"@,
            ParseFault::WrongScheme(found) => "Expected 'udp' scheme, got '"@ + found + "'"@,
            ParseFault::MissingHost => "Missing host in URL"@,
            ParseFault::MissingPort => "Missing port in URL"@,
            ParseFault::Lookup(reason) => reason,
            ParseFault::Unresolved(asked) => "Could not resolve address: "@ + asked,
            ParseFault::EmptyCommand => "Empty command"@,
            ParseFault::MissingAddress => "STREAM: missing UDP address"@,
            ParseFault::MissingTickers => "STREAM: missing tickers"@,
            ParseFault::TooManyArguments => "STREAM: too many arguments"@,
            ParseFault::PingWithArguments => "PING: too many arguments"@,
            ParseFault::UnknownCommand(verb) => "Unknown command: "@ + verb,
            ParseFault::InvalidResponse(line) => "Invalid response: "@ + line,
            ParseFault::NoTickersFound => "No tickers found in file"@,
            ParseFault::ServerError(reason) => "Server error: "@ + reason,
        }
    }
}

impl View for ParseError {
    type V = ParseFault;

    open spec fn view(&self) -> ParseFault {
        match self {
            ParseError::NoValidTickers => ParseFault::NoValidTickers,
            ParseError::WrongScheme(found) => ParseFault::WrongScheme(found@),
            ParseError::MissingHost => ParseFault::MissingHost,
            ParseError::MissingPort => ParseFault::MissingPort,
            ParseError::Lookup(reason) => ParseFault::Lookup(reason@),
            ParseError::Unresolved(asked) => ParseFault::Unresolved(asked@),
            ParseError::EmptyCommand => ParseFault::EmptyCommand,
            ParseError::MissingAddress => ParseFault::MissingAddress,
            ParseError::MissingTickers => ParseFault::MissingTickers,
            ParseError::TooManyArguments => ParseFault::TooManyArguments,
            ParseError::PingWithArguments => ParseFault::PingWithArguments,
            ParseError::UnknownCommand(verb) => ParseFault::UnknownCommand(verb@),
            ParseError::InvalidResponse(line) => ParseFault::InvalidResponse(line@),
            ParseError::NoTickersFound => ParseFault::NoTickersFound,
            ParseError::ServerError(reason) => ParseFault::ServerError(reason@),
        }
    }
}

impl ParseError {
    /// The message of this error, as a peer is shown it.
    pub fn message(&self) -> (r: String)
        ensures
            r@ == self@.text(),
    {
        match self {
            ParseError::NoValidTickers => String::from_str("No valid tickers provided"),
            ParseError::WrongScheme(found) => {
                String::from_str("Expected 'udp' scheme, got '").concat(found.as_str()).concat("'")
            },
            ParseError::MissingHost => String::from_str("Missing host in URL"),
            ParseError::MissingPort => String::from_str("Missing port in URL"),
            ParseError::Lookup(reason) => reason.clone(),
            ParseError::Unresolved(asked) => {
                String::from_str("Could not resolve address: ").concat(asked.as_str())
            },
            ParseError::EmptyCommand => String::from_str("Empty command"),
            ParseError::MissingAddress => String::from_str("STREAM: missing UDP address"),
            ParseError::MissingTickers => String::from_str("STREAM: missing tickers"),
            ParseError::TooManyArguments => String::from_str("STREAM: too many arguments"),
            ParseError::PingWithArguments => String::from_str("PING: too many arguments"),
            ParseError::UnknownCommand(verb) => {
                String::from_str("Unknown command: ").concat(verb.as_str())
            },
            ParseError::InvalidResponse(line) => {
                String::from_str("Invalid response: ").concat(line.as_str())
            },
            ParseError::NoTickersFound => String::from_str("No tickers found in file"),
            ParseError::ServerError(reason) => {
                String::from_str("Server error: ").concat(reason.as_str())
            },
        }
    }
}

/// Why a quote could not be made or read.
#[derive(Clone, Copy, Debug, PartialEq, Eq)]
pub enum QuoteError {
    /// The ticker is empty.
    EmptyTicker,
    /// The ticker holds the field separator `|`.
    TickerHasSeparator,
    /// The system clock is before the Unix epoch, or too far behind it.
    ClockBeforeEpoch,
    /// The text ends after the ticker.
    MissingPrice,
    /// The price is no decimal number.
    InvalidPrice,
    /// The text ends after the price.
    MissingVolume,
    /// The volume is no 32-bit unsigned number.
    InvalidVolume,
    /// The text ends after the volume.
    MissingTimestamp,
    /// The timestamp is no 64-bit unsigned number.
    InvalidTimestamp,
    /// The text has more than four fields.
    TooManyFields,
}

impl QuoteError {
    /// The message of this error.
    pub open spec fn text(self) -> Seq<char> {
        match self {
            QuoteError::EmptyTicker => "Ticker cannot be empty"@,
            QuoteError::TickerHasSeparator => "Ticker cannot contain '|'"@,
            QuoteError::ClockBeforeEpoch => "System time before UNIX epoch"@,
            QuoteError::MissingPrice => "Missing price"@,
            QuoteError::InvalidPrice => "Invalid price"@,
            QuoteError::MissingVolume => "Missing volume"@,
            QuoteError::InvalidVolume => "Invalid volume"@,
            QuoteError::MissingTimestamp => "Missing timestamp"@,
            QuoteError::InvalidTimestamp => "Invalid timestamp"@,
            QuoteError::TooManyFields => "Too many fields in quote"@,
        }
    }

    pub fn message(&self) -> (r: String)
        ensures
            r@ == self.text(),
    {
        match self {
            QuoteError::EmptyTicker => String::from_str("Ticker cannot be empty"),
            QuoteError::TickerHasSeparator => String::from_str("Ticker cannot contain '|'"),
            QuoteError::ClockBeforeEpoch => String::from_str("System time before UNIX epoch"),
            QuoteError::MissingPrice => String::from_str("Missing price"),
            QuoteError::InvalidPrice => String::from_str("Invalid price"),
            QuoteError::MissingVolume => String::from_str("Missing volume"),
            QuoteError::InvalidVolume => String::from_str("Invalid volume"),
            QuoteError::MissingTimestamp => String::from_str("Missing timestamp"),
            QuoteError::InvalidTimestamp => String::from_str("Invalid timestamp"),
            QuoteError::TooManyFields => String::from_str("Too many fields in quote"),
        }
    }
}

} // verus!
