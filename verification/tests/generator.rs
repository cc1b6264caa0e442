use quote_stream::decimal::Decimal;
use quote_stream::error::QuoteError;
use quote_stream::generator::{
    is_high_volume_ticker, random_change_factor, random_decimal, random_price, Draw,
    QuoteGenerator,
};
use quote_stream::step::{is_within_change, settle};
use quote_stream::tickers::Tickers;

#[test]
fn high_volume_tickers_have_more_volume() {
    let mut gen = QuoteGenerator::default();
    let mut high_volumes = Vec::new();
    let mut normal_volumes = Vec::new();

    for _ in 0..100 {
        high_volumes.push(gen.generate("AAPL").unwrap().volume);
        normal_volumes.push(gen.generate("UNKNOWN").unwrap().volume);
    }

    let high_avg: u32 = high_volumes.iter().sum::<u32>() / 100;
    let normal_avg: u32 = normal_volumes.iter().sum::<u32>() / 100;

    assert!(high_avg > normal_avg);
}

#[test]
fn high_volume_list() {
    for ticker in ["AAPL", "MSFT", "TSLA", "NVDA", "GOOGL", "AMZN", "META"] {
        assert!(is_high_volume_ticker(ticker));
    }
    for ticker in ["JPM", "JNJ", "V", "", "aapl", "AAPL ", "UNKNOWN"] {
        assert!(!is_high_volume_ticker(ticker));
    }
}

#[test]
fn default_has_standard_tickers() {
    let gen = QuoteGenerator::default();
    assert_eq!(gen.current_price("AAPL"), Some(Decimal::new(28500, 2)));
    assert_eq!(gen.current_price("GOOGL"), Some(Decimal::new(31500, 2)));
    assert_eq!(gen.current_price("TSLA"), Some(Decimal::new(42500, 2)));
    assert_eq!(gen.current_price("MSFT"), Some(Decimal::new(49000, 2)));
    assert_eq!(gen.current_price("AMZN"), Some(Decimal::new(23500, 2)));
    assert_eq!(gen.current_price("NVDA"), Some(Decimal::new(18000, 2)));
    assert_eq!(gen.current_price("META"), Some(Decimal::new(64000, 2)));
    assert_eq!(gen.current_price("UNKNOWN"), None);
    let mut known = gen.known_tickers();
    known.sort();
    assert_eq!(known, vec!["AAPL", "AMZN", "GOOGL", "META", "MSFT", "NVDA", "TSLA"]);
    assert_eq!(QuoteGenerator::new().current_price("META"), Some(Decimal::new(64000, 2)));
}

#[test]
fn with_prices_later_wins() {
    let gen = QuoteGenerator::with_prices(vec![
        ("X".to_string(), Decimal::new(100, 2)),
        ("Y".to_string(), Decimal::new(200, 2)),
        ("X".to_string(), Decimal::new(300, 2)),
    ]);
    assert_eq!(gen.current_price("X"), Some(Decimal::new(300, 2)));
    assert_eq!(gen.current_price("Y"), Some(Decimal::new(200, 2)));
    assert_eq!(gen.known_tickers().len(), 2);
}

#[test]
fn with_tickers_initializes_all() {
    let tickers: Tickers = "AAA,BBB,CCC".parse().unwrap();
    let gen = QuoteGenerator::with_tickers(&tickers);
    let low = Decimal::new(5000, 2);
    let high = Decimal::new(50000, 2);
    for ticker in ["AAA", "BBB", "CCC"] {
        let price = gen.current_price(ticker).unwrap();
        assert!(!price.less_than(&low));
        assert!(price.less_than(&high));
        assert_eq!(price.scale(), 2);
    }
    assert_eq!(gen.current_price("DDD"), None);
}

#[test]
fn change_factor_by_draw() {
    assert_eq!(random_change_factor(0), Decimal::new(99, 2));
    assert_eq!(random_change_factor(1), Decimal::new(990_002, 6));
    assert_eq!(random_change_factor(5000), Decimal::new(1, 0));
    assert_eq!(random_change_factor(7500), Decimal::new(10_050, 4));
    assert_eq!(random_change_factor(9999), Decimal::new(1_009_998, 6));
}

#[test]
fn seed_price_by_draw() {
    assert_eq!(random_price(0), Decimal::new(5000, 2));
    assert_eq!(random_price(2000), Decimal::new(14000, 2));
    // 50.045 and 50.135 lie half way: the even cent is taken.
    assert_eq!(random_price(1), Decimal::new(5004, 2));
    assert_eq!(random_price(3), Decimal::new(5014, 2));
    assert_eq!(random_price(9999), Decimal::new(49996, 2));
}

#[test]
fn next_price_from_a_draw() {
    let mut gen = QuoteGenerator::default();
    // 285.00 * 1
    assert_eq!(gen.next_price_from("AAPL", 5000), Decimal::new(28_500, 2));
    assert_eq!(gen.current_price("AAPL"), Some(Decimal::new(28_500, 2)));
    // 100.00 * 0.99 for a ticker without a price
    assert_eq!(gen.next_price_from("NEW", 0), Decimal::new(990_000, 4));
    assert_eq!(gen.current_price("NEW"), Some(Decimal::new(990_000, 4)));
    // 315.00 * 1.009998
    assert_eq!(gen.next_price_from("GOOGL", 9999), Decimal::new(31_814_937_000, 8));
}

#[test]
fn price_is_held_at_the_floor() {
    let mut gen = QuoteGenerator::with_prices(vec![("LOW".to_string(), Decimal::new(100, 2))]);
    assert_eq!(gen.next_price_from("LOW", 0), Decimal::new(100, 2));
    let mut gen = QuoteGenerator::with_prices(vec![("LOW".to_string(), Decimal::new(5, 1))]);
    assert_eq!(gen.next_price_from("LOW", 9999), Decimal::new(100, 2));
}

#[test]
fn price_stays_where_the_product_is_too_large() {
    let huge = Decimal::from_parts((1i128 << 96) - 1, 0).unwrap();
    let mut gen = QuoteGenerator::with_prices(vec![("BIG".to_string(), huge)]);
    assert_eq!(gen.next_price_from("BIG", 9999), huge);
    assert_eq!(gen.current_price("BIG"), Some(huge));
}

#[test]
fn price_never_below_minimum() {
    let floor = Decimal::new(100, 2);
    for ticker in ["AAPL", "ZZZ", "Q"] {
        let mut gen = QuoteGenerator::with_prices(vec![(ticker.to_string(), Decimal::new(101, 2))]);
        for _ in 0..1000 {
            let quote = gen.generate(ticker).unwrap();
            assert!(!quote.price.less_than(&floor));
        }
    }
}

#[test]
fn price_changes_bounded() {
    let mut gen = QuoteGenerator::default();
    for draw in [0u32, 1, 4999, 5000, 9999] {
        let first = gen.current_price("TSLA").unwrap();
        let second = gen.next_price_from("TSLA", draw);
        // |second - first| <= first / 100, as integers at scale 40
        let a = first.mantissa() * 10i128.pow(14 - first.scale());
        let b = second.mantissa() * 10i128.pow(14 - second.scale());
        assert!((b - a).abs() * 100 <= a);
        gen = QuoteGenerator::default();
    }
}

#[test]
fn volume_by_draw() {
    assert_eq!(QuoteGenerator::volume_from("AAPL", 0), 1000);
    assert_eq!(QuoteGenerator::volume_from("AAPL", 4999), 5999);
    assert_eq!(QuoteGenerator::volume_from("JPM", 0), 100);
    assert_eq!(QuoteGenerator::volume_from("JPM", 999), 1099);
    let mut gen = QuoteGenerator::default();
    for _ in 0..200 {
        let high = gen.random_volume("MSFT");
        assert!((1000..6000).contains(&high));
        let normal = gen.random_volume("JNJ");
        assert!((100..1100).contains(&normal));
    }
}

#[test]
fn generate_from_draws() {
    let mut gen = QuoteGenerator::default();
    let quote = gen.generate_from("AAPL", 5000, 12, Some(1_700_000_000_000)).unwrap();
    assert_eq!(quote.ticker, "AAPL");
    assert_eq!(quote.price, Decimal::new(28_500, 2));
    assert_eq!(quote.volume, 1012);
    assert_eq!(quote.timestamp, 1_700_000_000_000);
    assert_eq!(quote.to_string(), "AAPL|285.00|1012|1700000000000");
    let quote = gen.generate_from("AAPL", 9999, 0, Some(5)).unwrap();
    assert_eq!(quote.to_string(), "AAPL|287.84943000|1000|5");
}

#[test]
fn generate_steps_even_without_a_quote() {
    let mut gen = QuoteGenerator::default();
    assert_eq!(gen.generate_from("A|B", 5000, 0, Some(1)), Err(QuoteError::TickerHasSeparator));
    assert_eq!(gen.current_price("A|B"), Some(Decimal::new(10_000, 2)));
    assert_eq!(gen.generate_from("JPM", 0, 0, None), Err(QuoteError::ClockBeforeEpoch));
    assert_eq!(gen.current_price("JPM"), Some(Decimal::new(990_000, 4)));
    assert_eq!(gen.generate(""), Err(QuoteError::EmptyTicker));
}

#[test]
fn generates_valid_quotes() {
    let mut gen = QuoteGenerator::default();
    for ticker in ["AAPL", "ABCDE", "X"] {
        let quote = gen.generate(ticker).unwrap();
        assert_eq!(quote.ticker, ticker);
        assert!(quote.volume > 0);
        assert_eq!(gen.current_price(ticker), Some(quote.price));
    }
}

#[test]
fn generate_batch_returns_all() {
    let mut gen = QuoteGenerator::default();
    let tickers: Tickers = "AAPL,TSLA,META".parse().unwrap();
    let quotes = gen.generate_batch(&tickers);
    assert_eq!(quotes.len(), 3);
    let names: Vec<&str> = quotes.iter().map(|q| q.ticker.as_str()).collect();
    assert_eq!(names, vec!["AAPL", "TSLA", "META"]);
}

#[test]
fn generate_batch_passes_over_failures() {
    let mut gen = QuoteGenerator::default();
    let tickers: Tickers = "AAPL,A|B,JPM".parse().unwrap();
    let draws = vec![
        Draw { price: 5000, volume: 1, clock: Some(10) },
        Draw { price: 5000, volume: 2, clock: Some(20) },
        Draw { price: 0, volume: 3, clock: Some(30) },
    ];
    let quotes = gen.generate_batch_from(&tickers, &draws);
    assert_eq!(quotes.len(), 2);
    assert_eq!(quotes[0].to_string(), "AAPL|285.00|1001|10");
    assert_eq!(quotes[1].to_string(), "JPM|99.0000|103|30");
    assert_eq!(gen.current_price("A|B"), Some(Decimal::new(10_000, 2)));
    let quotes = gen.generate_batch(&tickers);
    assert_eq!(quotes.len(), 2);
    assert_eq!(quotes[1].ticker, "JPM");
}

#[test]
fn settle_keeps_the_floor_and_the_bounds() {
    let prev = Decimal::new(28500, 2);
    let floor = Decimal::new(100, 2);
    // within one hundredth: taken
    assert_eq!(settle(prev, Some(Decimal::new(2821500, 4))), Decimal::new(2821500, 4));
    assert_eq!(settle(prev, Some(Decimal::new(28786, 2))), Decimal::new(28786, 2));
    // farther away: the price stays
    assert_eq!(settle(prev, Some(Decimal::new(28787, 2))), prev);
    assert_eq!(settle(prev, Some(Decimal::new(99, 2))), prev);
    assert_eq!(settle(prev, Some(Decimal::new(-5, 0))), prev);
    assert_eq!(settle(prev, None), prev);
    // at the floor
    assert_eq!(settle(floor, Some(Decimal::new(995, 3))), floor);
    assert_eq!(settle(floor, Some(Decimal::new(1011, 3))), Decimal::new(1011, 3));
    assert_eq!(settle(floor, Some(Decimal::new(1021, 3))), floor);
    assert_eq!(settle(Decimal::new(5, 1), None), floor);
    assert_eq!(settle(Decimal::new(5, 1), Some(Decimal::new(504, 3))), floor);
}

#[test]
fn bounds_of_a_step() {
    let hundred = Decimal::new(10000, 2);
    // |next - 100| <= 1.00 + 0.01
    assert!(is_within_change(&hundred, &hundred));
    assert!(is_within_change(&hundred, &Decimal::new(10101, 2)));
    assert!(!is_within_change(&hundred, &Decimal::new(10102, 2)));
    assert!(is_within_change(&hundred, &Decimal::new(9899, 2)));
    assert!(!is_within_change(&hundred, &Decimal::new(9898, 2)));
    assert!(is_within_change(&hundred, &Decimal::new(101, 0)));
    assert!(!is_within_change(&hundred, &Decimal::new(102, 0)));
    assert!(is_within_change(&Decimal::new(0, 0), &Decimal::new(1, 2)));
    assert!(!is_within_change(&Decimal::new(0, 0), &Decimal::new(2, 2)));
    assert!(!is_within_change(&Decimal::new(-5, 0), &Decimal::new(-5, 0)));
    // the largest decimals, at the finest and the coarsest scale
    let huge = Decimal::from_parts((1i128 << 96) - 1, 0).unwrap();
    let fine = Decimal::from_parts((1i128 << 96) - 1, 28).unwrap();
    assert!(is_within_change(&huge, &huge));
    assert!(is_within_change(&fine, &fine));
    assert!(!is_within_change(&huge, &fine));
    assert!(!is_within_change(&fine, &huge));
    assert!(is_within_change(&fine, &Decimal::new(8, 0)));
}

#[test]
fn random_decimal_in_range() {
    let ranges = [
        (Decimal::new(10, 0), Decimal::new(20, 0)),
        (Decimal::new(0, 0), Decimal::new(100, 0)),
        (Decimal::new(-50, 0), Decimal::new(50, 0)),
    ];
    for (min, max) in ranges {
        for draw in [0u32, 1, 2500, 5000, 9999] {
            let val = random_decimal(&min, &max, draw).unwrap();
            assert!(!val.less_than(&min));
            assert!(val.less_than(&max));
        }
    }
    // 10 + 10 * 0.25
    assert_eq!(
        random_decimal(&Decimal::new(10, 0), &Decimal::new(20, 0), 2500),
        Some(Decimal::new(1250, 2))
    );
    let largest = Decimal::from_parts((1i128 << 96) - 1, 0).unwrap();
    assert_eq!(random_decimal(&Decimal::new(-1, 0), &largest, 1), None);
}

#[test]
fn decimal_arithmetic() {
    let a = Decimal::new(150, 2);
    let b = Decimal::new(25, 1);
    assert_eq!(a.checked_add(&b), Some(Decimal::new(400, 2)));
    assert_eq!(a.checked_sub(&b), Some(Decimal::new(-100, 2)));
    assert_eq!(a.checked_mul(&b), Some(Decimal::new(3750, 3)));
    assert_eq!(a.checked_div(&b), Some(Decimal::new(6, 1)));
    assert_eq!(a.checked_div(&Decimal::new(0, 0)), None);
    assert_eq!(Decimal::new(12345, 3).round_dp(2), Decimal::new(1234, 2));
    let largest = Decimal::from_parts((1i128 << 96) - 1, 0).unwrap();
    assert_eq!(largest.checked_add(&largest), None);
    assert_eq!(largest.checked_mul(&b), None);
}

#[test]
fn known_tickers_has_each_once() {
    let mut gen = QuoteGenerator::with_prices(vec![
        ("X".to_string(), Decimal::new(100, 2)),
        ("X".to_string(), Decimal::new(200, 2)),
    ]);
    gen.generate("X").unwrap();
    gen.generate("Y").unwrap();
    gen.generate("Y").unwrap();
    let mut known = gen.known_tickers();
    known.sort();
    assert_eq!(known, vec!["X", "Y"]);
}

#[test]
fn steps_obey_the_bounds() {
    let floor = Decimal::new(100, 2);
    for start in [Decimal::new(100, 2), Decimal::new(28500, 2), Decimal::new(7, 0)] {
        let mut gen = QuoteGenerator::with_prices(vec![("T".to_string(), start)]);
        let mut prev = start;
        let mut moves = 0;
        for round in 0..300 {
            let quote = gen.generate("T").unwrap();
            assert!(!quote.price.less_than(&floor));
            assert!(is_within_change(&prev, &quote.price));
            assert_eq!(gen.current_price("T"), Some(quote.price));
            if round >= 200 && (quote.price.less_than(&prev) || prev.less_than(&quote.price)) {
                moves += 1;
            }
            prev = quote.price;
        }
        // the walk goes on after the decimals have reached their finest scale
        assert!(moves > 10);
    }
}
