//! The delivery target of a subscription: the address that updates are sent
//! to, written as `udp://ip:port`.
//!
//! Reading a target from text takes three steps. The text is first tried as
//! a URL, which must then have the scheme `udp`, a host and a port; any other
//! text is taken as `host:port` as it stands. The `host:port` text is then
//! handed to a resolver, which this library does not hold, and the first
//! address that the resolver found becomes the target.

use crate::addr::{socket_text, SocketAddress};
use crate::error::{ParseError, ParseFault};
use crate::numeral::{decimal_digits, push_decimal};
use crate::text::{chars_of, push_all, same_chars, string_of};
use vstd::prelude::*;
use vstd::std_specs::convert::FromSpecImpl;

verus! {

/// The scheme and, where it has them, the host and the port of a URL.
pub struct UrlParts {
    pub scheme: String,
    pub host: Option<String>,
    pub port: Option<u16>,
}

/// What [`UrlParts`] holds.
pub struct UrlPartsView {
    pub scheme: Seq<char>,
    pub host: Option<Seq<char>>,
    pub port: Option<u16>,
}

impl View for UrlParts {
    type V = UrlPartsView;

    open spec fn view(&self) -> UrlPartsView {
        UrlPartsView {
            scheme: self.scheme@,
            host: match self.host {
                Some(h) => Some(h@),
                None => None,
            },
            port: self.port,
        }
    }
}

/// What `Url::parse` of the `url` crate makes of a text: the scheme, the
/// host and the port of the URL that it reads, or nothing where the text is
/// no URL.
pub uninterp spec fn url_parts(s: Seq<char>) -> Option<UrlPartsView>;

/// Calls `Url::parse` and takes from the URL what `scheme`, `host_str` and
/// `port` return.
#[verifier::external_body]
fn parse_url(s: &str) -> (r: Option<UrlParts>)
    ensures
        match r {
            Some(parts) => url_parts(s@) == Some(parts@),
            None => url_parts(s@).is_none(),
        },
{
    match url::Url::parse(s) {
        Ok(u) => Some(
            UrlParts {
                scheme: u.scheme().to_string(),
                host: u.host_str().map(|h| h.to_string()),
                port: u.port(),
            },
        ),
        Err(_) => None,
    }
}

/// What a resolver made of a `host:port` text.
pub enum Resolution {
    /// The resolver failed; holds its message.
    Failed(String),
    /// The addresses that the resolver found, in its order.
    Found(Vec<SocketAddress>),
}

/// What a [`Resolution`] holds.
pub enum ResolutionView {
    Failed(Seq<char>),
    Found(Seq<SocketAddress>),
}

impl View for Resolution {
    type V = ResolutionView;

    open spec fn view(&self) -> ResolutionView {
        match self {
            Resolution::Failed(reason) => ResolutionView::Failed(reason@),
            Resolution::Found(found) => ResolutionView::Found(found@),
        }
    }
}

/// The `host:port` text that a URL asks to resolve.
pub open spec fn host_port_of_url(parts: UrlPartsView) -> Result<Seq<char>, ParseFault> {
    if parts.scheme != "udp"@ {
        Err(ParseFault::WrongScheme(parts.scheme))
    } else if parts.host.is_none() {
        Err(ParseFault::MissingHost)
    } else if parts.port.is_none() {
        Err(ParseFault::MissingPort)
    } else {
        Ok(parts.host.unwrap().push(':') + decimal_digits(parts.port.unwrap() as nat))
    }
}

/// The `host:port` text that a target text asks to resolve.
pub open spec fn lookup_of(s: Seq<char>) -> Result<Seq<char>, ParseFault> {
    match url_parts(s) {
        Some(parts) => host_port_of_url(parts),
        None => Ok(s),
    }
}

/// The target that a resolution of the text `asked` gives.
pub open spec fn resolved_target(asked: Seq<char>, outcome: ResolutionView) -> Result<
    UdpAddr,
    ParseFault,
> {
    match outcome {
        ResolutionView::Failed(reason) => Err(ParseFault::Lookup(reason)),
        ResolutionView::Found(found) => if found.len() == 0 {
            Err(ParseFault::Unresolved(asked))
        } else {
            Ok(UdpAddr(found[0]))
        },
    }
}

/// What reading a target from text gives, where the resolver, if it is
/// asked, answers with `outcome`.
pub open spec fn target_of(s: Seq<char>, outcome: ResolutionView) -> Result<UdpAddr, ParseFault> {
    match lookup_of(s) {
        Ok(asked) => resolved_target(asked, outcome),
        Err(e) => Err(e),
    }
}

/// Whether the outside steps of reading a target lead back to `target`:
/// the URL reading of its text names a `host:port` text, and the resolver's
/// outcome for that text has `target` first.
pub open spec fn leads_back(target: UdpAddr, outcome: ResolutionView) -> bool {
    match lookup_of(target_text(target)) {
        Ok(asked) => resolved_target(asked, outcome) == Ok::<UdpAddr, ParseFault>(target),
        Err(_) => false,
    }
}

/// A target reads back from its text as itself, as far as the library has
/// a say: wherever the URL reading and the resolver lead from the text back
/// to the target, reading gives the target.
pub proof fn law_target_round_trip(target: UdpAddr, outcome: ResolutionView)
    requires
        leads_back(target, outcome),
    ensures
        target_of(target_text(target), outcome) == Ok::<UdpAddr, ParseFault>(target),
{
}

/// The text of a target: `udp://` and the socket address.
pub open spec fn target_text(target: UdpAddr) -> Seq<char> {
    "udp://"@ + socket_text(target.0)
}

/// The address that the updates of a subscription are sent to.
#[derive(Clone, Copy, Debug, PartialEq, Eq, Hash, Structural)]
pub struct UdpAddr(pub SocketAddress);

impl UdpAddr {
    /// The only scheme of a target in URL form.
    pub const UDP_SCHEME: &'static str = "udp";

    pub fn socket_addr(&self) -> (r: SocketAddress)
        ensures
            r == self.0,
    {
        self.0
    }

    /// The `host:port` text of a URL, which must have the scheme `udp`, a
    /// host and a port.
    pub fn from_url(parts: &UrlParts) -> (r: Result<String, ParseError>)
        ensures
            match r {
                Ok(asked) => host_port_of_url(parts@) == Ok::<Seq<char>, ParseFault>(asked@),
                Err(e) => host_port_of_url(parts@) == Err::<Seq<char>, ParseFault>(e@),
            },
    {
        let scheme = chars_of(parts.scheme.as_str());
        let wanted = chars_of("udp");
        if !same_chars(scheme.as_slice(), wanted.as_slice()) {
            return Err(ParseError::WrongScheme(parts.scheme.clone()));
        }
        let host = match &parts.host {
            Some(h) => h,
            None => {
                return Err(ParseError::MissingHost);
            },
        };
        let port = match parts.port {
            Some(p) => p,
            None => {
                return Err(ParseError::MissingPort);
            },
        };
        let mut out = chars_of(host.as_str());
        out.push(':');
        push_decimal(&mut out, port as u64);
        Ok(string_of(out.as_slice()))
    }

    /// The `host:port` text that the target text `s` asks to resolve.
    pub fn lookup_text(s: &str) -> (r: Result<String, ParseError>)
        ensures
            match r {
                Ok(asked) => lookup_of(s@) == Ok::<Seq<char>, ParseFault>(asked@),
                Err(e) => lookup_of(s@) == Err::<Seq<char>, ParseFault>(e@),
            },
    {
        match parse_url(s) {
            Some(parts) => UdpAddr::from_url(&parts),
            None => {
                let chars = chars_of(s);
                Ok(string_of(chars.as_slice()))
            },
        }
    }

    /// The target that the resolution of the text `asked` gives: the first
    /// address found.
    pub fn from_host_port(asked: &str, outcome: Resolution) -> (r: Result<UdpAddr, ParseError>)
        ensures
            match r {
                Ok(target) => resolved_target(asked@, outcome@) == Ok::<UdpAddr, ParseFault>(
                    target,
                ),
                Err(e) => resolved_target(asked@, outcome@) == Err::<UdpAddr, ParseFault>(e@),
            },
    {
        match outcome {
            Resolution::Failed(reason) => Err(ParseError::Lookup(reason)),
            Resolution::Found(found) => {
                if found.len() == 0 {
                    let chars = chars_of(asked);
                    Err(ParseError::Unresolved(string_of(chars.as_slice())))
                } else {
                    Ok(UdpAddr(found[0]))
                }
            },
        }
    }

    /// Reads a target from text, asking `resolve` for the addresses of the
    /// `host:port` text that the target names. The resolver is asked only
    /// where the text passes for a target, and then once.
    pub fn parse_with<F: Fn(&str) -> Resolution>(s: &str, resolve: F) -> (r: Result<
        UdpAddr,
        ParseError,
    >)
        requires
            forall|asked: &str| resolve.requires((asked,)),
        ensures
            match lookup_of(s@) {
                Err(e) => r is Err && r->Err_0@ == e,
                Ok(asked) => exists|text: &str, outcome: Resolution|
                    text@ == asked && resolve.ensures((text,), outcome) && (match r {
                        Ok(target) => resolved_target(asked, outcome@) == Ok::<
                            UdpAddr,
                            ParseFault,
                        >(target),
                        Err(e) => resolved_target(asked, outcome@) == Err::<UdpAddr, ParseFault>(
                            e@,
                        ),
                    }),
            },
    {
        match UdpAddr::lookup_text(s) {
            Err(e) => Err(e),
            Ok(asked) => {
                let text = asked.as_str();
                let outcome = resolve(text);
                let ghost found = outcome;
                let r = UdpAddr::from_host_port(text, outcome);
                assert(text@ == asked@ && resolve.ensures((text,), found) && (match r {
                    Ok(target) => resolved_target(asked@, found@) == Ok::<UdpAddr, ParseFault>(
                        target,
                    ),
                    Err(e) => resolved_target(asked@, found@) == Err::<UdpAddr, ParseFault>(e@),
                }));
                r
            },
        }
    }

    /// Appends the text of this target to `out`.
    pub fn push_text(&self, out: &mut Vec<char>)
        ensures
            final(out)@ == old(out)@ + target_text(*self),
    {
        let scheme = chars_of("udp://");
        push_all(out, scheme.as_slice());
        self.0.push_text(out);
    }

    /// This target in text: `udp://ip:port`.
    pub fn to_string(&self) -> (r: String)
        ensures
            r@ == target_text(*self),
    {
        let mut out: Vec<char> = Vec::new();
        self.push_text(&mut out);
        string_of(out.as_slice())
    }
}

impl From<SocketAddress> for UdpAddr {
    fn from(addr: SocketAddress) -> (r: UdpAddr) {
        UdpAddr(addr)
    }
}

impl FromSpecImpl<SocketAddress> for UdpAddr {
    open spec fn obeys_from_spec() -> bool {
        true
    }

    open spec fn from_spec(addr: SocketAddress) -> UdpAddr {
        UdpAddr(addr)
    }
}

impl From<UdpAddr> for SocketAddress {
    fn from(target: UdpAddr) -> (r: SocketAddress) {
        target.0
    }
}

impl FromSpecImpl<UdpAddr> for SocketAddress {
    open spec fn obeys_from_spec() -> bool {
        true
    }

    open spec fn from_spec(target: UdpAddr) -> SocketAddress {
        target.0
    }
}

} // verus!
