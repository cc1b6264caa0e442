use quote_stream::addr::{IpAddress, SocketAddress};
use quote_stream::error::ParseError;
use quote_stream::numeral::{parse_numeral, push_decimal};
use quote_stream::target::{Resolution, UdpAddr, UrlParts};
use quote_stream::text::{
    chars_of, is_whitespace, join_chars, split_chars, string_of, trim_chars, trim_end_chars,
    trim_start_chars, upper_chars, words_of, Separator,
};
use quote_stream::tickers::Tickers;

fn text(chars: &[char]) -> String {
    chars.iter().collect()
}

fn texts(list: &[Vec<char>]) -> Vec<String> {
    list.iter().map(|c| text(c)).collect()
}

fn v6(groups: [u16; 8], port: u16, scope_id: u32) -> SocketAddress {
    let bits = groups.iter().fold(0u128, |bits, g| bits * 0x1_0000 + *g as u128);
    SocketAddress::V6 { groups: bits, port, flowinfo: 0, scope_id }
}

#[test]
fn whitespace_is_that_of_the_standard_library() {
    for code in 0..=0x10FFFFu32 {
        if let Some(c) = char::from_u32(code) {
            assert_eq!(is_whitespace(c), c.is_whitespace(), "U+{code:04X}");
        }
    }
}

#[test]
fn uppercase_is_that_of_the_standard_library() {
    for code in 0..=0x10FFFFu32 {
        if let Some(c) = char::from_u32(code) {
            let expected: Vec<char> = c.to_string().to_uppercase().chars().collect();
            assert_eq!(upper_chars(&[c]), expected, "U+{code:04X}");
        }
    }
    for word in ["aapl", "Straße", "ǆemal", "ﬁx", "ΌΣΟΣ", "tsla.b", "", "i̇", "ŉ"] {
        let chars: Vec<char> = word.chars().collect();
        assert_eq!(text(&upper_chars(&chars)), word.to_uppercase());
    }
}

#[test]
fn chars_and_strings() {
    assert_eq!(chars_of("aé😀"), vec!['a', 'é', '😀']);
    assert_eq!(string_of(&['a', 'é', '😀']), "aé😀");
    assert_eq!(chars_of(""), Vec::<char>::new());
}

#[test]
fn trimming() {
    for word in ["", "  ", " a b \n", "\u{a0}x\u{3000}", "x", "\t\r\n", "\u{200b}x "] {
        let chars: Vec<char> = word.chars().collect();
        assert_eq!(text(&trim_chars(&chars)), word.trim());
        assert_eq!(text(&trim_start_chars(&chars)), word.trim_start());
        assert_eq!(text(&trim_end_chars(&chars)), word.trim_end());
    }
}

#[test]
fn splitting() {
    for line in ["", ",", "a,b", ",a,,b,", "abc", " a , b "] {
        let chars: Vec<char> = line.chars().collect();
        let expected: Vec<String> = line.split(',').map(|s| s.to_string()).collect();
        assert_eq!(texts(&split_chars(&chars, Separator::Char(','))), expected);
    }
    for line in ["", "  ", "STREAM a b", "  x\t\ty \n", "one", "a\u{2003}b"] {
        let chars: Vec<char> = line.chars().collect();
        let expected: Vec<String> = line.split_whitespace().map(|s| s.to_string()).collect();
        assert_eq!(texts(&words_of(&chars)), expected);
    }
    let parts = vec![vec!['a'], vec![], vec!['b', 'c']];
    assert_eq!(text(&join_chars(&parts, ',')), "a,,bc");
    assert_eq!(text(&join_chars(&Vec::new(), ',')), "");
}

#[test]
fn numerals() {
    for n in [0u64, 7, 10, 99, 100, 65535, 4294967295, u64::MAX] {
        let mut out = Vec::new();
        push_decimal(&mut out, n);
        assert_eq!(text(&out), n.to_string());
        assert_eq!(parse_numeral(&out, u64::MAX), Some(n));
    }
    let read = |s: &str, max: u64| parse_numeral(&s.chars().collect::<Vec<char>>(), max);
    assert_eq!(read("+5", 10), Some(5));
    assert_eq!(read("007", 10), Some(7));
    assert_eq!(read("10", 10), Some(10));
    assert_eq!(read("11", 10), None);
    assert_eq!(read("", 10), None);
    assert_eq!(read("+", 10), None);
    assert_eq!(read("-5", 10), None);
    assert_eq!(read("5 ", 10), None);
    assert_eq!(read("++5", 10), None);
    assert_eq!(read("٣", 10), None);
    assert_eq!(read("18446744073709551615", u64::MAX), Some(u64::MAX));
    assert_eq!(read("18446744073709551616", u64::MAX), None);
    assert_eq!(read("99999999999999999999999", u64::MAX), None);
    for s in ["4294967295", "4294967296", "0", "+0", "00", "x1", "1x"] {
        assert_eq!(read(s, u32::MAX as u64), s.parse::<u32>().ok().map(|n| n as u64));
    }
}

#[test]
fn socket_address_text() {
    let cases = [
        (SocketAddress::V4 { octets: 0x7F00_0001, port: 8080 }, "127.0.0.1:8080"),
        (SocketAddress::V4 { octets: 0, port: 0 }, "0.0.0.0:0"),
        (SocketAddress::V4 { octets: u32::MAX, port: 65535 }, "255.255.255.255:65535"),
        (SocketAddress::V4 { octets: 0xC0A8_010A, port: 5000 }, "192.168.1.10:5000"),
        (v6([0, 0, 0, 0, 0, 0, 0, 1], 8080, 0), "[::1]:8080"),
        (v6([0, 0, 0, 0, 0, 0, 0, 0], 80, 0), "[::]:80"),
        (v6([0x2001, 0xdb8, 0, 0, 0, 0, 0, 1], 443, 0), "[2001:db8::1]:443"),
        (v6([1, 0, 0, 2, 0, 0, 0, 3], 1, 0), "[1:0:0:2::3]:1"),
        (v6([1, 0, 0, 2, 3, 0, 0, 4], 1, 0), "[1::2:3:0:0:4]:1"),
        (v6([0, 0, 1, 0, 0, 0, 0, 0], 1, 0), "[0:0:1::]:1"),
        (v6([1, 0, 2, 3, 4, 5, 6, 7], 1, 0), "[1:0:2:3:4:5:6:7]:1"),
        (v6([1, 2, 3, 4, 5, 6, 7, 8], 1, 0), "[1:2:3:4:5:6:7:8]:1"),
        (v6([0xffff, 0xabcd, 0x10, 0xf, 0, 0x100, 0x9a0, 0xa], 9, 0), "[ffff:abcd:10:f:0:100:9a0:a]:9"),
        (v6([0, 0, 0, 0, 0, 0xffff, 0xc000, 0x0201], 1, 0), "[::ffff:192.0.2.1]:1"),
        (v6([0, 0, 0, 0, 0, 0, 0xc000, 0x0201], 1, 0), "[::c000:201]:1"),
        (v6([0xfe80, 0, 0, 0, 0, 0, 0, 1], 9, 3), "[fe80::1%3]:9"),
    ];
    for (addr, expected) in cases {
        assert_eq!(addr.to_string(), expected);
        assert_eq!(UdpAddr(addr).to_string(), format!("udp://{expected}"));
    }
}

#[test]
fn socket_address_parts() {
    let four = SocketAddress::new(IpAddress::V4(7), 80);
    assert_eq!(four, SocketAddress::V4 { octets: 7, port: 80 });
    assert!(four.is_ipv4());
    assert!(!four.is_ipv6());
    assert_eq!(four.ip(), IpAddress::V4(7));
    assert_eq!(four.port(), 80);
    let six = SocketAddress::new(IpAddress::V6(7), 81);
    assert_eq!(six, SocketAddress::V6 { groups: 7, port: 81, flowinfo: 0, scope_id: 0 });
    assert!(six.is_ipv6());
    assert_eq!(six.ip(), IpAddress::V6(7));
    assert_eq!(six.port(), 81);
    let target = UdpAddr::from(four);
    assert_eq!(target.socket_addr(), four);
    assert_eq!(SocketAddress::from(target), four);
    assert_eq!(UdpAddr::UDP_SCHEME, "udp");
}

#[test]
fn target_lookup_text() {
    assert_eq!(UdpAddr::lookup_text("udp://127.0.0.1:9001"), Ok("127.0.0.1:9001".to_string()));
    assert_eq!(UdpAddr::lookup_text("udp://[::1]:8080"), Ok("[::1]:8080".to_string()));
    assert_eq!(UdpAddr::lookup_text("udp://localhost:80/path"), Ok("localhost:80".to_string()));
    assert_eq!(UdpAddr::lookup_text("127.0.0.1:9000"), Ok("127.0.0.1:9000".to_string()));
    assert_eq!(UdpAddr::lookup_text("bad-target"), Ok("bad-target".to_string()));
    assert_eq!(
        UdpAddr::lookup_text("tcp://127.0.0.1:8080"),
        Err(ParseError::WrongScheme("tcp".to_string()))
    );
    assert_eq!(
        UdpAddr::lookup_text("localhost:9000"),
        Err(ParseError::WrongScheme("localhost".to_string()))
    );
    assert_eq!(UdpAddr::lookup_text("udp://127.0.0.1"), Err(ParseError::MissingPort));
    assert_eq!(UdpAddr::lookup_text("udp:/path"), Err(ParseError::MissingHost));
    assert_eq!(UdpAddr::lookup_text("udp://not a host:8080"), Ok("udp://not a host:8080".to_string()));
}

#[test]
fn target_from_url_parts() {
    let parts = |scheme: &str, host: Option<&str>, port: Option<u16>| UrlParts {
        scheme: scheme.to_string(),
        host: host.map(|h| h.to_string()),
        port,
    };
    assert_eq!(UdpAddr::from_url(&parts("udp", Some("h"), Some(0))), Ok("h:0".to_string()));
    assert_eq!(
        UdpAddr::from_url(&parts("udp", Some("[::1]"), Some(65535))),
        Ok("[::1]:65535".to_string())
    );
    assert_eq!(
        UdpAddr::from_url(&parts("http", None, None)),
        Err(ParseError::WrongScheme("http".to_string()))
    );
    assert_eq!(UdpAddr::from_url(&parts("udp", None, None)), Err(ParseError::MissingHost));
    assert_eq!(UdpAddr::from_url(&parts("udp", Some("h"), None)), Err(ParseError::MissingPort));
}

#[test]
fn target_from_resolution() {
    let first = SocketAddress::V4 { octets: 1, port: 2 };
    let second = SocketAddress::V4 { octets: 3, port: 4 };
    assert_eq!(
        UdpAddr::from_host_port("h:2", Resolution::Found(vec![first, second])),
        Ok(UdpAddr(first))
    );
    assert_eq!(
        UdpAddr::from_host_port("h:2", Resolution::Found(Vec::new())),
        Err(ParseError::Unresolved("h:2".to_string()))
    );
    assert_eq!(
        UdpAddr::from_host_port("h:2", Resolution::Failed("no such host".to_string())),
        Err(ParseError::Lookup("no such host".to_string()))
    );
}

#[test]
fn parse_error_messages() {
    let s = |t: &str| t.to_string();
    assert_eq!(ParseError::NoValidTickers.message(), "No valid tickers provided");
    assert_eq!(ParseError::WrongScheme(s("tcp")).message(), "Expected 'udp' scheme, got 'tcp'");
    assert_eq!(ParseError::MissingHost.message(), "Missing host in URL");
    assert_eq!(ParseError::MissingPort.message(), "Missing port in URL");
    assert_eq!(ParseError::Lookup(s("no such host")).message(), "no such host");
    assert_eq!(ParseError::Unresolved(s("h:1")).message(), "Could not resolve address: h:1");
    assert_eq!(ParseError::EmptyCommand.message(), "Empty command");
    assert_eq!(ParseError::MissingAddress.message(), "STREAM: missing UDP address");
    assert_eq!(ParseError::MissingTickers.message(), "STREAM: missing tickers");
    assert_eq!(ParseError::TooManyArguments.message(), "STREAM: too many arguments");
    assert_eq!(ParseError::PingWithArguments.message(), "PING: too many arguments");
    assert_eq!(ParseError::UnknownCommand(s("STOP")).message(), "Unknown command: STOP");
    assert_eq!(ParseError::InvalidResponse(s("x")).message(), "Invalid response: x");
}

#[test]
fn topics_are_normalized() {
    let tickers: Tickers = " aapl ,TSLA,, aapl,tsla ,Googl".parse().unwrap();
    assert_eq!(tickers.iter(), vec!["AAPL", "TSLA", "GOOGL"]);
    assert_eq!(tickers.len(), 3);
    assert!(!tickers.is_empty());
    assert_eq!(tickers.to_string(), "AAPL,TSLA,GOOGL");
    assert_eq!(tickers.to_string().parse::<Tickers>().unwrap(), tickers);
    assert_eq!(tickers.clone(), tickers);
    assert_eq!("straße".parse::<Tickers>().unwrap().iter(), vec!["STRASSE"]);
    assert_eq!(Tickers::one("brk.b").iter(), vec!["BRK.B"]);
    assert_eq!(Tickers::one(" a,b ").iter(), vec![" A,B "]);
    assert_eq!(Tickers::one("").len(), 1);
    for blank in ["", "   ", ",,,", " , , , "] {
        assert_eq!(Tickers::parse(blank), Err(ParseError::NoValidTickers));
    }
    assert!(tickers.contains("GOOGL"));
    assert!(!tickers.contains("Googl"));
    assert!(!tickers.contains(""));
}
