use quote_stream::decimal::Decimal;
use quote_stream::error::QuoteError;
use quote_stream::quote::StockQuote;

#[test]
fn roundtrip_serialization() {
    let quote = StockQuote {
        ticker: "AAPL".to_string(),
        price: Decimal::new(15050, 2), // 150.50
        volume: 1000,
        timestamp: 1234567890,
    };

    let serialized = quote.to_string();
    let parsed: StockQuote = serialized.parse().unwrap();

    assert_eq!(quote, parsed);
}

#[test]
fn rejects_empty_ticker() {
    let result = StockQuote::new("", Decimal::new(1, 0), 100);
    assert!(result.is_err());
}

#[test]
fn rejects_ticker_with_separator() {
    let result = StockQuote::new("AA|PL", Decimal::new(1, 0), 100);
    assert!(result.is_err());
}

#[test]
fn quote_text_is_pipe_delimited() {
    let quote = StockQuote {
        ticker: "AAPL".to_string(),
        price: Decimal::new(15050, 2),
        volume: 1000,
        timestamp: 1234567890,
    };
    assert_eq!(quote.to_string(), "AAPL|150.50|1000|1234567890");
    assert_eq!(quote.to_bytes(), b"AAPL|150.50|1000|1234567890".to_vec());
}

#[test]
fn quote_text_keeps_extremes() {
    let quote = StockQuote {
        ticker: "V".to_string(),
        price: Decimal::new(-5, 3),
        volume: u32::MAX,
        timestamp: u64::MAX,
    };
    assert_eq!(quote.to_string(), "V|-0.005|4294967295|18446744073709551615");
    assert_eq!(quote.to_string().parse::<StockQuote>().unwrap(), quote);
    let zero = StockQuote { ticker: "Z".to_string(), price: Decimal::new(0, 0), volume: 0, timestamp: 0 };
    assert_eq!(zero.to_string(), "Z|0|0|0");
    assert_eq!(zero.to_string().parse::<StockQuote>().unwrap(), zero);
}

#[test]
fn parse_reads_each_field() {
    let quote: StockQuote = "TSLA|420.5|+17|0042".parse().unwrap();
    assert_eq!(quote.ticker, "TSLA");
    assert_eq!(quote.price, Decimal::new(4205, 1));
    assert_eq!(quote.volume, 17);
    assert_eq!(quote.timestamp, 42);
}

#[test]
fn parse_reports_the_first_defect() {
    assert_eq!(StockQuote::parse("AAPL"), Err(QuoteError::MissingPrice));
    assert_eq!(StockQuote::parse(""), Err(QuoteError::MissingPrice));
    assert_eq!(StockQuote::parse("AAPL|abc"), Err(QuoteError::InvalidPrice));
    assert_eq!(StockQuote::parse("AAPL|150"), Err(QuoteError::MissingVolume));
    assert_eq!(StockQuote::parse("AAPL|150|-1|5"), Err(QuoteError::InvalidVolume));
    assert_eq!(StockQuote::parse("AAPL|150|4294967296|5"), Err(QuoteError::InvalidVolume));
    assert_eq!(StockQuote::parse("AAPL|150|1 |5"), Err(QuoteError::InvalidVolume));
    assert_eq!(StockQuote::parse("AAPL|150|1"), Err(QuoteError::MissingTimestamp));
    assert_eq!(StockQuote::parse("AAPL|150|1|"), Err(QuoteError::InvalidTimestamp));
    assert_eq!(
        StockQuote::parse("AAPL|150|1|18446744073709551616"),
        Err(QuoteError::InvalidTimestamp)
    );
    assert_eq!(StockQuote::parse("AAPL|100|50|123|extra"), Err(QuoteError::TooManyFields));
    assert_eq!(StockQuote::parse("AAPL|x|50|123|extra"), Err(QuoteError::InvalidPrice));
}

#[test]
fn quote_at_a_given_time() {
    let quote = StockQuote::at("AAPL", Decimal::new(100, 2), 7, Some(1_700_000_000_123)).unwrap();
    assert_eq!(quote.ticker, "AAPL");
    assert_eq!(quote.price, Decimal::new(100, 2));
    assert_eq!(quote.volume, 7);
    assert_eq!(quote.timestamp, 1_700_000_000_123);
}

#[test]
fn quote_errors_by_cause() {
    let price = Decimal::new(100, 2);
    assert_eq!(StockQuote::at("", price, 7, Some(1)), Err(QuoteError::EmptyTicker));
    assert_eq!(StockQuote::at("A|B", price, 7, Some(1)), Err(QuoteError::TickerHasSeparator));
    assert_eq!(StockQuote::at("AAPL", price, 7, None), Err(QuoteError::ClockBeforeEpoch));
    assert_eq!(
        StockQuote::at("AAPL", price, 7, Some(u64::MAX as u128 + 1)),
        Err(QuoteError::ClockBeforeEpoch)
    );
    assert_eq!(StockQuote::at("", price, 7, None), Err(QuoteError::EmptyTicker));
}

#[test]
fn new_quote_is_stamped_after_2020() {
    let quote = StockQuote::new("AAPL", Decimal::new(100, 2), 7).unwrap();
    assert!(quote.timestamp > 1_577_836_800_000);
    assert_eq!(quote.ticker, "AAPL");
    assert_eq!(quote.volume, 7);
}

#[test]
fn quote_error_messages() {
    assert_eq!(QuoteError::EmptyTicker.message(), "Ticker cannot be empty");
    assert_eq!(QuoteError::TickerHasSeparator.message(), "Ticker cannot contain '|'");
    assert_eq!(QuoteError::ClockBeforeEpoch.message(), "System time before UNIX epoch");
    assert_eq!(QuoteError::MissingPrice.message(), "Missing price");
    assert_eq!(QuoteError::InvalidPrice.message(), "Invalid price");
    assert_eq!(QuoteError::MissingVolume.message(), "Missing volume");
    assert_eq!(QuoteError::InvalidVolume.message(), "Invalid volume");
    assert_eq!(QuoteError::MissingTimestamp.message(), "Missing timestamp");
    assert_eq!(QuoteError::InvalidTimestamp.message(), "Invalid timestamp");
    assert_eq!(QuoteError::TooManyFields.message(), "Too many fields in quote");
}

#[test]
fn decimal_text_and_back() {
    assert_eq!(Decimal::new(15050, 2).to_string(), "150.50");
    assert_eq!(Decimal::new(3141, 3).to_string(), "3.141");
    assert_eq!(Decimal::new(-1, 2).to_string(), "-0.01");
    assert_eq!(Decimal::new(7, 0).to_string(), "7");
    assert_eq!(Decimal::parse("150.50"), Some(Decimal::new(15050, 2)));
    assert_eq!(Decimal::parse("-0.01"), Some(Decimal::new(-1, 2)));
    assert_eq!(Decimal::parse("7"), Some(Decimal::new(7, 0)));
    assert_eq!(Decimal::parse("seven"), None);
    assert_eq!(Decimal::parse(""), None);
}

#[test]
fn decimal_parts() {
    let d = Decimal::new(-15050, 2);
    assert_eq!(d.mantissa(), -15050);
    assert_eq!(d.scale(), 2);
    assert_eq!(Decimal::from_parts(15050, 2), Some(Decimal::new(15050, 2)));
    assert_eq!(Decimal::from_parts(1, 29), None);
    assert_eq!(Decimal::from_parts(1i128 << 96, 0), None);
    assert_eq!(Decimal::from_parts(-(1i128 << 96), 0), None);
    assert!(Decimal::from_parts((1i128 << 96) - 1, 28).is_some());
    assert!(Decimal::from_parts(-((1i128 << 96) - 1), 0).is_some());
}

#[test]
fn decimal_order_is_by_number() {
    let one = Decimal::new(100, 2);
    let also_one = Decimal::new(1, 0);
    let less = Decimal::new(999, 3);
    assert!(less.less_than(&one));
    assert!(!one.less_than(&less));
    assert!(!one.less_than(&also_one));
    assert!(!also_one.less_than(&one));
    assert!(Decimal::new(-5, 0).less_than(&Decimal::new(1, 5)));
    assert_eq!(less.max(one), one);
    assert_eq!(one.max(less), one);
    assert_eq!(one.max(also_one), one);
    assert_eq!(also_one.max(one), also_one);
}

#[test]
fn line_is_composed_from_its_parts() {
    assert_eq!(StockQuote::compose("AAPL", "150.50", 1000, 1234567890), "AAPL|150.50|1000|1234567890");
    assert_eq!(StockQuote::compose("", "", 0, 0), "||0|0");
}

#[test]
fn quote_from_fields_and_price() {
    let fields = |line: &str| -> Vec<Vec<char>> {
        line.split('|').map(|f| f.chars().collect()).collect()
    };
    let price = Decimal::new(15050, 2);
    let quote = StockQuote::from_fields(&fields("AAPL|anything|7|9"), Some(price)).unwrap();
    assert_eq!(quote, StockQuote { ticker: "AAPL".to_string(), price, volume: 7, timestamp: 9 });
    assert_eq!(StockQuote::from_fields(&fields("AAPL"), Some(price)), Err(QuoteError::MissingPrice));
    assert_eq!(StockQuote::from_fields(&fields("AAPL|1|7|9"), None), Err(QuoteError::InvalidPrice));
    assert_eq!(StockQuote::from_fields(&fields("AAPL|1"), Some(price)), Err(QuoteError::MissingVolume));
    assert_eq!(StockQuote::from_fields(&fields("AAPL|1|x"), Some(price)), Err(QuoteError::InvalidVolume));
    assert_eq!(
        StockQuote::from_fields(&fields("AAPL|1|7"), Some(price)),
        Err(QuoteError::MissingTimestamp)
    );
    assert_eq!(
        StockQuote::from_fields(&fields("AAPL|1|7|x"), Some(price)),
        Err(QuoteError::InvalidTimestamp)
    );
    assert_eq!(
        StockQuote::from_fields(&fields("AAPL|1|7|9|"), Some(price)),
        Err(QuoteError::TooManyFields)
    );
}

/// The digits of the mantissa, with zeros before them up to one digit more
/// than the scale, the point before the last `scale` digits, and the sign.
fn written(mantissa: i128, scale: u32) -> String {
    let mut digits = mantissa.unsigned_abs().to_string();
    while digits.len() < scale as usize + 1 {
        digits.insert(0, '0');
    }
    if scale > 0 {
        digits.insert(digits.len() - scale as usize, '.');
    }
    if mantissa < 0 {
        digits.insert(0, '-');
    }
    digits
}

#[test]
fn decimal_text_is_sign_digits_and_point() {
    let largest = (1i128 << 96) - 1;
    let mantissas =
        [0, 1, -1, 5, 9, 10, -10, 99, 100, 15050, -15050, 123456789, 1 << 64, largest, -largest];
    for mantissa in mantissas {
        for scale in 0..=28u32 {
            let decimal = Decimal::from_parts(mantissa, scale).unwrap();
            assert_eq!(decimal.to_string(), written(mantissa, scale));
        }
    }
    assert_eq!(written(0, 2), "0.00");
    assert_eq!(written(-5, 3), "-0.005");
    assert_eq!(written(15050, 2), "150.50");
}

#[test]
fn decimal_text_reads_back() {
    for mantissa in [0i128, 1, -1, 15050, -15050, (1i128 << 96) - 1] {
        for scale in [0u32, 1, 2, 7, 28] {
            let decimal = Decimal::from_parts(mantissa, scale).unwrap();
            assert_eq!(Decimal::parse(&decimal.to_string()), Some(decimal));
        }
    }
}
