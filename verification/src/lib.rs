//! A quote distribution service: subscribers ask over a control channel for
//! the price updates of some tickers, and get them in datagrams for as long
//! as their heartbeats arrive.
//!
//! This library holds what the service decides, with contracts that say what
//! each decision is:
//!
//! - [`command`], [`response`], [`target`] and [`tickers`]: the text forms
//!   of the control channel, read and written;
//! - [`quote`]: one price update and its text form;
//! - [`client_handler`]: the registry of subscribers with their heartbeats,
//!   and the unit that filters the updates of one subscriber;
//! - [`generator`] and [`step`]: the random walk of the prices, and the
//!   bounds that every step is held to;
//! - [`server`] and [`client`]: what either side does with what arrives.
//!
//! Sockets, threads, channels and files are the caller's. Where a decision
//! depends on the time or on chance, one function takes the reading or the
//! draw as an argument and a second one makes it.

pub mod addr;
pub mod client;
pub mod client_handler;
pub mod clock;
pub mod command;
pub mod decimal;
pub mod error;
pub mod generator;
pub mod numeral;
pub mod quote;
pub mod response;
pub mod server;
pub mod step;
pub mod target;
pub mod text;
pub mod tickers;
