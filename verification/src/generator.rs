//! The price model: a random walk for each ticker, with a floor under the
//! price and a volume that depends on how much the ticker is traded.
//!
//! Every step takes two random draws. The functions whose names end in
//! `_from` take the draws, and the clock's reading, as arguments, and say
//! exactly what they return; the others make the draws and read the clock.
//!
//! The factor of a step and the price after it are computed by the decimal
//! arithmetic of `rust_decimal`, so that a price has the digits that this
//! arithmetic gives it. What the arithmetic returns is then held to the
//! bounds of a step by the library's own check.

use crate::decimal::{
    decimal_difference, decimal_product, decimal_quotient, decimal_rounded, decimal_sum, value_lt,
    view_of, Decimal,
};
use crate::step::{
    law_price_change, law_price_floor, max_price_change, min_price, settle, settled,
    within_change,
};
use crate::error::QuoteError;
use crate::quote::{is_quotable, quote_at, system_clock, QuoteView, StockQuote};
use crate::text::{chars_of, same_chars, string_of, texts};
use crate::tickers::Tickers;
use rand::rngs::ThreadRng;
use vstd::prelude::*;

verus! {

#[verifier::external_type_specification]
#[verifier::external_body]
pub struct ExThreadRng(ThreadRng);

/// `rand::thread_rng` hands out the random number generator of this thread.
#[verifier::external_body]
fn thread_rng() -> ThreadRng {
    rand::thread_rng()
}

/// `Rng::gen_range` on the range from zero up to, and without, `bound`: the
/// number drawn lies in that range.
#[verifier::external_body]
fn random_below(rng: &mut ThreadRng, bound: u32) -> (r: u32)
    requires
        bound > 0,
    ensures
        r < bound,
{
    rand::Rng::gen_range(rng, 0..bound)
}

/// The number of steps into which the range of a random decimal is cut.
pub const RANDOM_STEPS: u32 = 10000;

/// The base and the range of the volume of a much traded ticker.
pub const HIGH_VOLUME_BASE: u32 = 1000;

pub const HIGH_VOLUME_RANGE: u32 = 5000;

/// The base and the range of the volume of any other ticker.
pub const NORMAL_VOLUME_BASE: u32 = 100;

pub const NORMAL_VOLUME_RANGE: u32 = 1000;

/// The price from which a ticker without a price starts: 100.00.
pub open spec fn default_price() -> (int, nat) {
    (10000, 2)
}

/// The lowest and the highest first price of a ticker: 50.00 and 500.00.
pub open spec fn seed_range() -> ((int, nat), (int, nat)) {
    ((5000, 2), (50000, 2))
}

/// The decimal that lies the part `draw / 10000` of the way from `min` to
/// `max`, as the decimal arithmetic gives it: the range is `max` less
/// `min`, the part is the draw divided by ten thousand, and the result is
/// `min` and the product of the two. Nothing, where one of the four
/// operations gives nothing.
pub open spec fn random_decimal_of(min: (int, nat), max: (int, nat), draw: u32) -> Option<
    (int, nat),
> {
    match decimal_difference(max, min) {
        None => None,
        Some(range) => match decimal_quotient((draw as int, 0), (RANDOM_STEPS as int, 0)) {
            None => None,
            Some(part) => match decimal_product(range, part) {
                None => None,
                Some(offset) => decimal_sum(min, offset),
            },
        },
    }
}

/// The factor of a step for the draw `draw`: one and a random decimal
/// between the largest change downwards and the largest change upwards.
/// Where the arithmetic gives nothing, the factor is one.
pub open spec fn change_factor(draw: u32) -> (int, nat) {
    let up = max_price_change();
    match random_decimal_of((-up.0, up.1), up, draw) {
        Some(change) => match decimal_sum((1, 0), change) {
            Some(factor) => factor,
            None => (1, 0),
        },
        None => (1, 0),
    }
}

/// The first price of a ticker for the draw `draw`: a random decimal in the
/// range of first prices, rounded to two places. Where the arithmetic gives
/// nothing, it is the lowest first price.
pub open spec fn seed_price(draw: u32) -> (int, nat) {
    match random_decimal_of(seed_range().0, seed_range().1, draw) {
        Some(price) => decimal_rounded(price, 2),
        None => seed_range().0,
    }
}

/// The price after one step from `prev` with the draw `draw`: what follows
/// `prev`, given the product of the price and the step's factor as the
/// decimal arithmetic gives it.
pub open spec fn stepped(prev: (int, nat), draw: u32) -> (int, nat) {
    settled(prev, decimal_product(prev, change_factor(draw)))
}

/// The much traded tickers.
pub open spec fn is_high_volume(ticker: Seq<char>) -> bool {
    ticker == "AAPL"@ || ticker == "MSFT"@ || ticker == "TSLA"@ || ticker == "NVDA"@ || ticker
        == "GOOGL"@ || ticker == "AMZN"@ || ticker == "META"@
}

/// The volume of a ticker for the draw `draw`.
pub open spec fn volume_of(ticker: Seq<char>, draw: u32) -> int {
    if is_high_volume(ticker) {
        HIGH_VOLUME_BASE + draw
    } else {
        NORMAL_VOLUME_BASE + draw
    }
}

/// The range from which the volume draw of a ticker is taken.
pub open spec fn volume_range(ticker: Seq<char>) -> u32 {
    if is_high_volume(ticker) {
        HIGH_VOLUME_RANGE
    } else {
        NORMAL_VOLUME_RANGE
    }
}

/// Whether `ticker` is one of the much traded tickers.
pub fn is_high_volume_ticker(ticker: &str) -> (r: bool)
    ensures
        r == is_high_volume(ticker@),
{
    let t = chars_of(ticker);
    same_text(&t, "AAPL") || same_text(&t, "MSFT") || same_text(&t, "TSLA") || same_text(
        &t,
        "NVDA",
    ) || same_text(&t, "GOOGL") || same_text(&t, "AMZN") || same_text(&t, "META")
}

fn same_text(chars: &Vec<char>, word: &str) -> (r: bool)
    ensures
        r == (chars@ == word@),
{
    let other = chars_of(word);
    same_chars(chars.as_slice(), other.as_slice())
}

/// The decimal that lies the part `draw / 10000` of the way from `min` to
/// `max`, as the decimal arithmetic gives it.
pub fn random_decimal(min: &Decimal, max: &Decimal, draw: u32) -> (r: Option<Decimal>)
    ensures
        view_of(r) == random_decimal_of(min@, max@, draw),
{
    let range = match max.checked_sub(min) {
        Some(range) => range,
        None => {
            return None;
        },
    };
    let part = match Decimal::new(draw as i64, 0).checked_div(&Decimal::new(10000, 0)) {
        Some(part) => part,
        None => {
            return None;
        },
    };
    let offset = match range.checked_mul(&part) {
        Some(offset) => offset,
        None => {
            return None;
        },
    };
    min.checked_add(&offset)
}

/// The factor of a step for the draw `draw`.
pub fn random_change_factor(draw: u32) -> (r: Decimal)
    ensures
        r@ == change_factor(draw),
{
    let one = Decimal::new(1, 0);
    match random_decimal(&Decimal::new(-1, 2), &Decimal::new(1, 2), draw) {
        Some(change) => match one.checked_add(&change) {
            Some(factor) => factor,
            None => one,
        },
        None => one,
    }
}

/// The first price of a ticker for the draw `draw`.
pub fn random_price(draw: u32) -> (r: Decimal)
    ensures
        r@ == seed_price(draw),
{
    let lowest = Decimal::new(5000, 2);
    match random_decimal(&lowest, &Decimal::new(50000, 2), draw) {
        Some(price) => price.round_dp(2),
        None => lowest,
    }
}

/// A ticker and its last price.
pub struct PriceEntry {
    ticker: String,
    price: Decimal,
}

/// The price that a list of entries gives for `ticker`: that of the first
/// entry for it.
pub open spec fn lookup(entries: Seq<(Seq<char>, Decimal)>, ticker: Seq<char>) -> Option<Decimal>
    decreases entries.len(),
{
    if entries.len() == 0 {
        None
    } else if entries[0].0 == ticker {
        Some(entries[0].1)
    } else {
        lookup(entries.drop_first(), ticker)
    }
}

/// The prices that a list of entries gives, as a map from tickers.
pub open spec fn prices_of(entries: Seq<(Seq<char>, Decimal)>) -> Map<Seq<char>, Decimal> {
    Map::new(
        |ticker: Seq<char>| lookup(entries, ticker) is Some,
        |ticker: Seq<char>| lookup(entries, ticker).unwrap(),
    )
}

/// The prices after the given ones were set one after the other.
pub open spec fn with_all(
    prices: Map<Seq<char>, Decimal>,
    given: Seq<(Seq<char>, Decimal)>,
) -> Map<Seq<char>, Decimal>
    decreases given.len(),
{
    if given.len() == 0 {
        prices
    } else {
        with_all(prices, given.drop_last()).insert(given.last().0, given.last().1)
    }
}

proof fn lemma_lookup_finds(entries: Seq<(Seq<char>, Decimal)>, ticker: Seq<char>, at: int)
    requires
        0 <= at <= entries.len(),
        forall|j: int| 0 <= j < at ==> (#[trigger] entries[j]).0 != ticker,
        at < entries.len() ==> entries[at].0 == ticker,
    ensures
        lookup(entries, ticker) == (if at < entries.len() {
            Some(entries[at].1)
        } else {
            None
        }),
    decreases entries.len(),
{
    if entries.len() > 0 && at > 0 {
        let rest = entries.drop_first();
        assert(entries[0].0 != ticker);
        assert forall|j: int| 0 <= j < at - 1 implies (#[trigger] rest[j]).0 != ticker by {
            assert(rest[j] == entries[j + 1]);
        }
        lemma_lookup_finds(rest, ticker, at - 1);
    }
}

proof fn lemma_lookup_after_set(
    entries: Seq<(Seq<char>, Decimal)>,
    at: int,
    ticker: Seq<char>,
    price: Decimal,
    other: Seq<char>,
)
    requires
        0 <= at < entries.len(),
        entries[at].0 == ticker,
        forall|j: int| 0 <= j < at ==> (#[trigger] entries[j]).0 != ticker,
    ensures
        lookup(entries.update(at, (ticker, price)), other) == (if other == ticker {
            Some(price)
        } else {
            lookup(entries, other)
        }),
    decreases entries.len(),
{
    let after = entries.update(at, (ticker, price));
    if at == 0 {
        assert(after.drop_first() == entries.drop_first());
    } else {
        let rest = entries.drop_first();
        assert(entries[0].0 != ticker);
        assert(after.drop_first() == rest.update(at - 1, (ticker, price)));
        assert forall|j: int| 0 <= j < at - 1 implies (#[trigger] rest[j]).0 != ticker by {
            assert(rest[j] == entries[j + 1]);
        }
        lemma_lookup_after_set(rest, at - 1, ticker, price, other);
    }
}

proof fn lemma_lookup_after_push(
    entries: Seq<(Seq<char>, Decimal)>,
    ticker: Seq<char>,
    price: Decimal,
    other: Seq<char>,
)
    requires
        lookup(entries, ticker) is None,
    ensures
        lookup(entries.push((ticker, price)), other) == (if other == ticker {
            Some(price)
        } else {
            lookup(entries, other)
        }),
    decreases entries.len(),
{
    let after = entries.push((ticker, price));
    if entries.len() == 0 {
        assert(after.drop_first().len() == 0);
    } else {
        assert(after.drop_first() == entries.drop_first().push((ticker, price)));
        lemma_lookup_after_push(entries.drop_first(), ticker, price, other);
    }
}

/// The price model.
pub struct QuoteGenerator {
    prices: Vec<PriceEntry>,
    rng: ThreadRng,
}

impl View for QuoteGenerator {
    type V = Map<Seq<char>, Decimal>;

    closed spec fn view(&self) -> Map<Seq<char>, Decimal> {
        prices_of(self.entries())
    }
}

/// What making a quote for `ticker` does to the prices, and what it gives:
/// the price takes its step whatever comes of the quote.
pub open spec fn generated(
    prices: Map<Seq<char>, Decimal>,
    ticker: Seq<char>,
    price_draw: u32,
    volume_draw: u32,
    clock: Option<u128>,
) -> Result<QuoteView, QuoteError> {
    quote_at(
        ticker,
        next_price_of(prices, ticker, price_draw),
        volume_of(ticker, volume_draw) as u32,
        clock,
    )
}

/// The price from which the next step of `ticker` starts: its last price,
/// or the default price where it has none.
pub open spec fn price_before(prices: Map<Seq<char>, Decimal>, ticker: Seq<char>) -> (int, nat) {
    if prices.dom().contains(ticker) {
        prices[ticker]@
    } else {
        default_price()
    }
}

/// The price of `ticker` after its next step.
pub open spec fn next_price_of(
    prices: Map<Seq<char>, Decimal>,
    ticker: Seq<char>,
    price_draw: u32,
) -> (int, nat) {
    stepped(price_before(prices, ticker), price_draw)
}

/// Whether a price obeys the rules of a step from `prev`: it is not below
/// the floor, and where `prev` was not below the floor either, it lies
/// within one hundredth of `prev`, give or take one hundredth.
pub open spec fn obeys_step(prev: (int, nat), next: (int, nat)) -> bool {
    &&& !value_lt(next, min_price())
    &&& !value_lt(prev, min_price()) ==> within_change(prev, next)
}

/// Every step obeys the rules, whatever the draw.
pub proof fn law_step_obeys(prev: (int, nat), draw: u32)
    ensures
        obeys_step(prev, stepped(prev, draw)),
{
    let product = decimal_product(prev, change_factor(draw));
    law_price_floor(prev, product);
    if !value_lt(prev, min_price()) {
        law_price_change(prev, product);
    }
}

/// What one quote is made with: the draw for the price, the draw for the
/// volume, and what the clock read.
#[derive(Clone, Copy, Debug)]
pub struct Draw {
    pub price: u32,
    pub volume: u32,
    pub clock: Option<u128>,
}

/// Whether the draws of `draw` lie in the ranges for `ticker`.
pub open spec fn fits_draw(ticker: Seq<char>, draw: Draw) -> bool {
    draw.price < RANDOM_STEPS && draw.volume < volume_range(ticker)
}

/// Whether there is one draw for each ticker, in the ranges for it.
pub open spec fn fit_draws(tickers: Seq<Seq<char>>, draws: Seq<Draw>) -> bool {
    &&& draws.len() == tickers.len()
    &&& forall|i: int| 0 <= i < tickers.len() ==> fits_draw(#[trigger] tickers[i], draws[i])
}

/// What a list of quotes holds.
pub open spec fn quotes_of(quotes: Seq<StockQuote>) -> Seq<QuoteView> {
    quotes.map_values(|q: StockQuote| q@)
}

/// The prices after `ticker` took its step.
pub open spec fn prices_after(
    prices: Map<Seq<char>, Decimal>,
    ticker: Seq<char>,
    price_draw: u32,
) -> Map<Seq<char>, Decimal> {
    prices.insert(ticker, Decimal::of(next_price_of(prices, ticker, price_draw)))
}

/// What making a quote for each of `tickers` gives, one after the other:
/// the quotes that could be made, in the order of the tickers, and the prices
/// afterwards.
pub open spec fn batch(
    prices: Map<Seq<char>, Decimal>,
    tickers: Seq<Seq<char>>,
    draws: Seq<Draw>,
) -> (Seq<QuoteView>, Map<Seq<char>, Decimal>)
    decreases tickers.len(),
{
    if tickers.len() == 0 {
        (Seq::empty(), prices)
    } else {
        let (quotes, before) = batch(prices, tickers.drop_last(), draws.drop_last());
        let ticker = tickers.last();
        let draw = draws.last();
        let after = prices_after(before, ticker, draw.price);
        match generated(before, ticker, draw.price, draw.volume, draw.clock) {
            Ok(quote) => (quotes.push(quote), after),
            Err(_) => (quotes, after),
        }
    }
}

/// What a list of entries holds.
pub closed spec fn entries_of(prices: Seq<PriceEntry>) -> Seq<(Seq<char>, Decimal)> {
    prices.map_values(|e: PriceEntry| (e.ticker@, e.price))
}

/// The tickers of a list of entries, in their order.
pub open spec fn names_of(entries: Seq<(Seq<char>, Decimal)>) -> Seq<Seq<char>> {
    entries.map_values(|e: (Seq<char>, Decimal)| e.0)
}

impl QuoteGenerator {
    closed spec fn entries(self) -> Seq<(Seq<char>, Decimal)> {
        entries_of(self.prices@)
    }

    /// No ticker has two entries.
    #[verifier::type_invariant]
    closed spec fn distinct_tickers(self) -> bool {
        names_of(self.entries()).no_duplicates()
    }

    /// An empty generator.
    fn empty() -> (r: QuoteGenerator)
        ensures
            r@ == Map::<Seq<char>, Decimal>::empty(),
    {
        let prices: Vec<PriceEntry> = Vec::new();
        assert(entries_of(prices@) == Seq::<(Seq<char>, Decimal)>::empty());
        let r = QuoteGenerator { prices, rng: thread_rng() };
        assert(r@ == Map::<Seq<char>, Decimal>::empty());
        r
    }

    /// A number drawn from zero up to, and without, `bound`.
    fn draw_below(&mut self, bound: u32) -> (r: u32)
        requires
            bound > 0,
        ensures
            r < bound,
            final(self)@ == old(self)@,
    {
        proof {
            use_type_invariant(&*self);
        }
        let mut rng = thread_rng();
        std::mem::swap(&mut self.rng, &mut rng);
        let r = random_below(&mut rng, bound);
        self.rng = rng;
        r
    }

    /// The generator with the prices of the seven much traded tickers.
    pub fn new() -> (r: QuoteGenerator)
        ensures
            r@ == default_prices(),
    {
        let mut r = QuoteGenerator::empty();
        r.set_cents("AAPL", 28500);
        r.set_cents("GOOGL", 31500);
        r.set_cents("TSLA", 42500);
        r.set_cents("MSFT", 49000);
        r.set_cents("AMZN", 23500);
        r.set_cents("NVDA", 18000);
        r.set_cents("META", 64000);
        r
    }

    /// The generator with the given prices. Of two prices for one ticker the
    /// later one counts.
    pub fn with_prices(prices: Vec<(String, Decimal)>) -> (r: QuoteGenerator)
        ensures
            r@ == with_all(
                Map::empty(),
                prices@.map_values(|p: (String, Decimal)| (p.0@, p.1)),
            ),
    {
        let mut r = QuoteGenerator::empty();
        let ghost given = prices@.map_values(|p: (String, Decimal)| (p.0@, p.1));
        let mut i: usize = 0;
        while i < prices.len()
            invariant
                i <= prices.len(),
                given == prices@.map_values(|p: (String, Decimal)| (p.0@, p.1)),
                r@ == with_all(Map::empty(), given.take(i as int)),
            decreases prices.len() - i,
        {
            proof {
                assert(given.take(i + 1).drop_last() == given.take(i as int));
                assert(given.take(i + 1).last() == (prices@[i as int].0@, prices@[i as int].1));
            }
            r.set_price(prices[i].0.as_str(), prices[i].1);
            i += 1;
        }
        assert(given.take(prices.len() as int) == given);
        r
    }

    /// The generator with a random first price for each of `tickers`.
    pub fn with_tickers(tickers: &Tickers) -> (r: QuoteGenerator)
        ensures
            forall|t: Seq<char>| r@.dom().contains(t) <==> tickers@.contains(t),
            forall|t: Seq<char>| #[trigger]
                r@.dom().contains(t) ==> exists|draw: u32|
                    draw < RANDOM_STEPS && r@[t]@ == seed_price(draw),
    {
        let mut r = QuoteGenerator::empty();
        let names = tickers.iter();
        let mut i: usize = 0;
        while i < names.len()
            invariant
                i <= names.len(),
                texts(names@) == tickers@,
                forall|t: Seq<char>|
                    r@.dom().contains(t) <==> tickers@.take(i as int).contains(t),
                forall|t: Seq<char>| #[trigger]
                    r@.dom().contains(t) ==> exists|draw: u32|
                        draw < RANDOM_STEPS && r@[t]@ == seed_price(draw),
            decreases names.len() - i,
        {
            let ghost before = r@;
            let ghost name = names@[i as int]@;
            let draw = r.draw_below(RANDOM_STEPS);
            let price = random_price(draw);
            assert(r@ == before);
            r.set_price(names[i].as_str(), price);
            proof {
                let seen = tickers@.take(i as int);
                let next = tickers@.take(i + 1);
                assert(tickers@[i as int] == name);
                assert(next == seen.push(name));
                assert(r@ == before.insert(name, price));
                assert forall|t: Seq<char>| r@.dom().contains(t) <==> next.contains(t) by {
                    assert(before.dom().contains(t) <==> seen.contains(t));
                    if next.contains(t) {
                        let k = choose|k: int| 0 <= k < next.len() && #[trigger] next[k] == t;
                        if k < i {
                            assert(seen[k] == t);
                        }
                    }
                    if seen.contains(t) {
                        let k = choose|k: int| 0 <= k < seen.len() && #[trigger] seen[k] == t;
                        assert(next[k] == t);
                    }
                    assert(next[i as int] == name);
                }
                assert forall|t: Seq<char>| #[trigger] r@.dom().contains(t) implies exists|
                    draw: u32,
                | draw < RANDOM_STEPS && r@[t]@ == seed_price(draw) by {
                    if t == name {
                        assert(draw < RANDOM_STEPS && r@[t]@ == seed_price(draw));
                    } else {
                        assert(before.dom().contains(t));
                        assert(r@[t] == before[t]);
                    }
                }
            }
            i += 1;
        }
        assert(tickers@.take(names.len() as int) == tickers@);
        r
    }

    /// The place of the first entry for `ticker`, or the length where there
    /// is none.
    fn find(&self, ticker: &Vec<char>) -> (at: usize)
        ensures
            at <= self.prices.len(),
            lookup(self.entries(), ticker@) == (if at < self.prices.len() {
                Some(self.prices@[at as int].price)
            } else {
                None
            }),
            at < self.prices.len() ==> self.entries()[at as int].0 == ticker@,
            forall|j: int| 0 <= j < at ==> (#[trigger] self.entries()[j]).0 != ticker@,
    {
        let mut i: usize = 0;
        while i < self.prices.len()
            invariant
                i <= self.prices.len(),
                forall|j: int| 0 <= j < i ==> (#[trigger] self.entries()[j]).0 != ticker@,
            decreases self.prices.len() - i,
        {
            let name = chars_of(self.prices[i].ticker.as_str());
            if same_chars(name.as_slice(), ticker.as_slice()) {
                proof {
                    assert(self.entries()[i as int].0 == ticker@);
                    lemma_lookup_finds(self.entries(), ticker@, i as int);
                }
                return i;
            }
            assert(self.entries()[i as int].0 != ticker@);
            i += 1;
        }
        proof {
            lemma_lookup_finds(self.entries(), ticker@, i as int);
        }
        i
    }

    /// Sets the price of `ticker`, given in hundredths.
    fn set_cents(&mut self, ticker: &str, cents: i64)
        ensures
            final(self)@ == old(self)@.insert(ticker@, decimal(cents as int, 2)),
    {
        let price = Decimal::new(cents, 2);
        proof {
            price.lemma_of_view();
        }
        self.set_price(ticker, price);
    }

    /// Sets the price of `ticker`.
    fn set_price(&mut self, ticker: &str, price: Decimal)
        ensures
            final(self)@ == old(self)@.insert(ticker@, price),
    {
        proof {
            use_type_invariant(&*self);
        }
        let name = chars_of(ticker);
        let at = self.find(&name);
        let ghost before = self.entries();
        let entry = PriceEntry { ticker: string_of(name.as_slice()), price };
        let mut prices: Vec<PriceEntry> = Vec::new();
        proof {
            assert(names_of(entries_of(prices@)) == Seq::<Seq<char>>::empty());
        }
        std::mem::swap(&mut self.prices, &mut prices);
        if at < prices.len() {
            prices.set(at, entry);
            proof {
                let after = entries_of(prices@);
                assert(after == before.update(at as int, (ticker@, price)));
                assert(names_of(after) == names_of(before));
                assert forall|other: Seq<char>|
                    lookup(after, other) == (if other == ticker@ {
                        Some(price)
                    } else {
                        lookup(before, other)
                    }) by {
                    lemma_lookup_after_set(before, at as int, ticker@, price, other);
                }
            }
        } else {
            prices.push(entry);
            proof {
                let after = entries_of(prices@);
                assert(after == before.push((ticker@, price)));
                assert(names_of(after) == names_of(before).push(ticker@));
                assert forall|i: int, j: int|
                    0 <= i < names_of(after).len() && 0 <= j < names_of(after).len() && i
                        != j implies names_of(after)[i] != names_of(after)[j] by {
                    if i < before.len() && j < before.len() {
                        assert(names_of(before)[i] != names_of(before)[j]);
                    } else if i < before.len() {
                        assert(before[i].0 != ticker@);
                    } else {
                        assert(before[j].0 != ticker@);
                    }
                }
                assert forall|other: Seq<char>|
                    lookup(after, other) == (if other == ticker@ {
                        Some(price)
                    } else {
                        lookup(before, other)
                    }) by {
                    lemma_lookup_after_push(before, ticker@, price, other);
                }
            }
        }
        self.prices = prices;
        assert(self@ =~= prices_of(before).insert(ticker@, price));
    }

    /// The last price of `ticker`, if it has one.
    pub fn current_price(&self, ticker: &str) -> (r: Option<Decimal>)
        ensures
            r == (if self@.dom().contains(ticker@) {
                Some(self@[ticker@])
            } else {
                None
            }),
    {
        let name = chars_of(ticker);
        let at = self.find(&name);
        if at < self.prices.len() {
            Some(self.prices[at].price)
        } else {
            None
        }
    }

    /// The tickers that have a price, each once.
    pub fn known_tickers(&self) -> (r: Vec<String>)
        ensures
            forall|t: Seq<char>| texts(r@).contains(t) <==> self@.dom().contains(t),
            texts(r@).no_duplicates(),
    {
        proof {
            use_type_invariant(self);
        }
        let mut out: Vec<String> = Vec::new();
        let mut i: usize = 0;
        while i < self.prices.len()
            invariant
                i <= self.prices.len(),
                texts(out@) == self.entries().take(i as int).map_values(
                    |e: (Seq<char>, Decimal)| e.0,
                ),
            decreases self.prices.len() - i,
        {
            let ghost so_far = texts(out@);
            out.push(self.prices[i].ticker.clone());
            proof {
                let name = |e: (Seq<char>, Decimal)| e.0;
                assert(self.entries().take(i + 1) == self.entries().take(i as int).push(
                    self.entries()[i as int],
                ));
                assert(texts(out@) == so_far.push(self.entries()[i as int].0));
            }
            i += 1;
        }
        proof {
            let entries = self.entries();
            assert(entries.take(entries.len() as int) == entries);
            assert(texts(out@) == names_of(entries));
            assert forall|t: Seq<char>| texts(out@).contains(t) <==> self@.dom().contains(t) by {
                lemma_lookup_is_some(entries, t);
                if texts(out@).contains(t) {
                    let k = choose|k: int| 0 <= k < texts(out@).len() && texts(out@)[k] == t;
                    assert(entries[k].0 == t);
                }
                if exists|k: int| 0 <= k < entries.len() && (#[trigger] entries[k]).0 == t {
                    let k = choose|k: int| 0 <= k < entries.len() && (#[trigger] entries[k]).0 == t;
                    assert(texts(out@)[k] == t);
                }
            }
        }
        out
    }

    /// Makes the next step of the price of `ticker` with the draw
    /// `price_draw`, and returns the new price. A ticker without a price
    /// starts from the default price.
    pub fn next_price_from(&mut self, ticker: &str, price_draw: u32) -> (r: Decimal)
        requires
            price_draw < RANDOM_STEPS,
        ensures
            r@ == next_price_of(old(self)@, ticker@, price_draw),
            final(self)@ == old(self)@.insert(ticker@, r),
            obeys_step(price_before(old(self)@, ticker@), r@),
    {
        proof {
            law_step_obeys(price_before(old(self)@, ticker@), price_draw);
        }
        let prev = match self.current_price(ticker) {
            Some(price) => price,
            None => Decimal::new(10000, 2),
        };
        let factor = random_change_factor(price_draw);
        let next = settle(prev, prev.checked_mul(&factor));
        self.set_price(ticker, next);
        next
    }

    /// Makes the next step of the price of `ticker`, with a random draw.
    pub fn next_price(&mut self, ticker: &str) -> (r: Decimal)
        ensures
            exists|draw: u32|
                draw < RANDOM_STEPS && r@ == next_price_of(old(self)@, ticker@, draw),
            final(self)@ == old(self)@.insert(ticker@, r),
            obeys_step(price_before(old(self)@, ticker@), r@),
    {
        let draw = self.draw_below(RANDOM_STEPS);
        let r = self.next_price_from(ticker, draw);
        assert(draw < RANDOM_STEPS && r@ == next_price_of(old(self)@, ticker@, draw));
        r
    }

    /// The volume of `ticker` for the draw `draw`.
    pub fn volume_from(ticker: &str, draw: u32) -> (r: u32)
        requires
            draw < volume_range(ticker@),
        ensures
            r == volume_of(ticker@, draw),
    {
        if is_high_volume_ticker(ticker) {
            HIGH_VOLUME_BASE + draw
        } else {
            NORMAL_VOLUME_BASE + draw
        }
    }

    /// A random volume for `ticker`.
    pub fn random_volume(&mut self, ticker: &str) -> (r: u32)
        ensures
            exists|draw: u32| draw < volume_range(ticker@) && r == volume_of(ticker@, draw),
            final(self)@ == old(self)@,
    {
        let range = if is_high_volume_ticker(ticker) {
            HIGH_VOLUME_RANGE
        } else {
            NORMAL_VOLUME_RANGE
        };
        let draw = self.draw_below(range);
        let r = QuoteGenerator::volume_from(ticker, draw);
        assert(draw < volume_range(ticker@) && r == volume_of(ticker@, draw));
        r
    }

    /// Makes a quote for `ticker` from the two draws and the clock's
    /// reading. The price of the ticker takes its step even where no quote
    /// can be made.
    pub fn generate_from(
        &mut self,
        ticker: &str,
        price_draw: u32,
        volume_draw: u32,
        clock: Option<u128>,
    ) -> (r: Result<StockQuote, QuoteError>)
        requires
            price_draw < RANDOM_STEPS,
            volume_draw < volume_range(ticker@),
        ensures
            match r {
                Ok(q) => generated(old(self)@, ticker@, price_draw, volume_draw, clock) == Ok::<
                    QuoteView,
                    QuoteError,
                >(q@),
                Err(e) => generated(old(self)@, ticker@, price_draw, volume_draw, clock) == Err::<
                    QuoteView,
                    QuoteError,
                >(e),
            },
            final(self)@ == prices_after(old(self)@, ticker@, price_draw),
            match r {
                Ok(q) => {
                    &&& obeys_step(price_before(old(self)@, ticker@), q@.price)
                    &&& final(self)@.dom().contains(ticker@)
                    &&& final(self)@[ticker@]@ == q@.price
                },
                Err(_) => true,
            },
            r is Ok <==> is_quotable(ticker@) && clock is Some && clock->0 <= u64::MAX,
    {
        let price = self.next_price_from(ticker, price_draw);
        proof {
            price.lemma_of_view();
        }
        let volume = QuoteGenerator::volume_from(ticker, volume_draw);
        StockQuote::at(ticker, price, volume, clock)
    }

    /// Makes a quote for `ticker`, stamped with the current time. It fails
    /// for a ticker that no quote can carry, and where the clock stands
    /// before the Unix epoch.
    pub fn generate(&mut self, ticker: &str) -> (r: Result<StockQuote, QuoteError>)
        ensures
            exists|price_draw: u32, volume_draw: u32, clock: Option<u128>|
                price_draw < RANDOM_STEPS && volume_draw < volume_range(ticker@) && (match r {
                    Ok(q) => #[trigger] generated(
                        old(self)@,
                        ticker@,
                        price_draw,
                        volume_draw,
                        clock,
                    ) == Ok::<QuoteView, QuoteError>(q@),
                    Err(e) => generated(old(self)@, ticker@, price_draw, volume_draw, clock)
                        == Err::<QuoteView, QuoteError>(e),
                }) && final(self)@ == prices_after(old(self)@, ticker@, price_draw),
            match r {
                Ok(q) => {
                    &&& obeys_step(price_before(old(self)@, ticker@), q@.price)
                    &&& final(self)@.dom().contains(ticker@)
                    &&& final(self)@[ticker@]@ == q@.price
                },
                Err(_) => true,
            },
            !is_quotable(ticker@) ==> r is Err,
    {
        let price_draw = self.draw_below(RANDOM_STEPS);
        let range = if is_high_volume_ticker(ticker) {
            HIGH_VOLUME_RANGE
        } else {
            NORMAL_VOLUME_RANGE
        };
        let volume_draw = self.draw_below(range);
        let clock = system_clock();
        let r = self.generate_from(ticker, price_draw, volume_draw, clock);
        proof {
            let want = generated(old(self)@, ticker@, price_draw, volume_draw, clock);
            assert(price_draw < RANDOM_STEPS && volume_draw < volume_range(ticker@) && (match r {
                Ok(q) => want == Ok::<QuoteView, QuoteError>(q@),
                Err(e) => want == Err::<QuoteView, QuoteError>(e),
            }) && self@ == prices_after(old(self)@, ticker@, price_draw));
        }
        r
    }

    /// Makes a quote for each of `tickers`, in their order, from the draws
    /// and clock readings given for them. A ticker for which no quote can be
    /// made is passed over; the others still get theirs, and every ticker's
    /// price takes its step.
    pub fn generate_batch_from(&mut self, tickers: &Tickers, draws: &Vec<Draw>) -> (r: Vec<
        StockQuote,
    >)
        requires
            fit_draws(tickers@, draws@),
        ensures
            (quotes_of(r@), final(self)@) == batch(old(self)@, tickers@, draws@),
    {
        let names = tickers.iter();
        self.generate_each_from(&names, draws)
    }

    /// Makes a quote for each of `tickers`, in their order, with random
    /// draws and the current time. A ticker for which no quote can be made
    /// is passed over; the others still get theirs.
    pub fn generate_batch(&mut self, tickers: &Tickers) -> (r: Vec<StockQuote>)
        ensures
            exists|draws: Seq<Draw>|
                fit_draws(tickers@, draws) && (quotes_of(r@), final(self)@) == batch(
                    old(self)@,
                    tickers@,
                    draws,
                ),
    {
        let names = tickers.iter();
        self.generate_each(&names)
    }

    /// Makes a quote for each of `names`, in their order, from the given
    /// draws and clock readings.
    pub fn generate_each_from(&mut self, names: &Vec<String>, draws: &Vec<Draw>) -> (r: Vec<
        StockQuote,
    >)
        requires
            fit_draws(texts(names@), draws@),
        ensures
            (quotes_of(r@), final(self)@) == batch(old(self)@, texts(names@), draws@),
    {
        let ghost all = texts(names@);
        let mut out: Vec<StockQuote> = Vec::new();
        let mut i: usize = 0;
        assert(quotes_of(out@) == Seq::<QuoteView>::empty());
        while i < names.len()
            invariant
                i <= names.len(),
                all == texts(names@),
                fit_draws(all, draws@),
                (quotes_of(out@), self@) == batch(
                    old(self)@,
                    all.take(i as int),
                    draws@.take(i as int),
                ),
            decreases names.len() - i,
        {
            let ghost before = self@;
            let ghost so_far = quotes_of(out@);
            let draw = draws[i];
            proof {
                assert(all[i as int] == names@[i as int]@);
                assert(fits_draw(all[i as int], draws@[i as int]));
                assert(all.take(i + 1).drop_last() == all.take(i as int));
                assert(draws@.take(i + 1).drop_last() == draws@.take(i as int));
                assert(all.take(i + 1).last() == all[i as int]);
                assert(draws@.take(i + 1).last() == draws@[i as int]);
            }
            let made = self.generate_from(names[i].as_str(), draw.price, draw.volume, draw.clock);
            proof {
                self@[all[i as int]].lemma_of_view();
            }
            match made {
                Ok(quote) => {
                    out.push(quote);
                    assert(quotes_of(out@) == so_far.push(quote@));
                },
                Err(_) => {},
            }
            i += 1;
        }
        assert(all.take(names.len() as int) == all);
        assert(draws@.take(names.len() as int) == draws@);
        out
    }

    /// Makes a quote for each of `names`, in their order, with random draws
    /// and the current time.
    pub fn generate_each(&mut self, names: &Vec<String>) -> (r: Vec<StockQuote>)
        ensures
            exists|draws: Seq<Draw>|
                fit_draws(texts(names@), draws) && (quotes_of(r@), final(self)@) == batch(
                    old(self)@,
                    texts(names@),
                    draws,
                ),
    {
        let mut draws: Vec<Draw> = Vec::new();
        let mut i: usize = 0;
        let ghost all = texts(names@);
        while i < names.len()
            invariant
                i <= names.len(),
                all == texts(names@),
                fit_draws(all.take(i as int), draws@),
                self@ == old(self)@,
            decreases names.len() - i,
        {
            let ghost so_far = draws@;
            let price = self.draw_below(RANDOM_STEPS);
            let range = if is_high_volume_ticker(names[i].as_str()) {
                HIGH_VOLUME_RANGE
            } else {
                NORMAL_VOLUME_RANGE
            };
            let volume = self.draw_below(range);
            let clock = system_clock();
            draws.push(Draw { price, volume, clock });
            proof {
                assert(all[i as int] == names@[i as int]@);
                assert forall|k: int| 0 <= k < i + 1 implies fits_draw(
                    #[trigger] all.take(i + 1)[k],
                    draws@[k],
                ) by {
                    if k < i {
                        assert(all.take(i as int)[k] == all.take(i + 1)[k]);
                        assert(draws@[k] == so_far[k]);
                        assert(fits_draw(all.take(i as int)[k], so_far[k]));
                    }
                }
            }
            i += 1;
        }
        assert(all.take(names.len() as int) == all);
        let r = self.generate_each_from(names, &draws);
        assert(fit_draws(texts(names@), draws@) && (quotes_of(r@), self@) == batch(
            old(self)@,
            texts(names@),
            draws@,
        ));
        r
    }
}

impl Default for QuoteGenerator {
    fn default() -> (r: QuoteGenerator)
        ensures
            r@ == default_prices(),
    {
        QuoteGenerator::new()
    }
}

/// The prices with which a generator starts by default.
pub open spec fn default_prices() -> Map<Seq<char>, Decimal> {
    Map::<Seq<char>, Decimal>::empty().insert("AAPL"@, decimal(28500, 2)).insert(
        "GOOGL"@,
        decimal(31500, 2),
    ).insert("TSLA"@, decimal(42500, 2)).insert("MSFT"@, decimal(49000, 2)).insert(
        "AMZN"@,
        decimal(23500, 2),
    ).insert("NVDA"@, decimal(18000, 2)).insert("META"@, decimal(64000, 2))
}

/// The decimal with the given mantissa and scale.
pub open spec fn decimal(mantissa: int, scale: nat) -> Decimal {
    Decimal::of((mantissa, scale))
}

proof fn lemma_lookup_is_some(entries: Seq<(Seq<char>, Decimal)>, ticker: Seq<char>)
    ensures
        lookup(entries, ticker) is Some <==> exists|k: int|
            0 <= k < entries.len() && (#[trigger] entries[k]).0 == ticker,
    decreases entries.len(),
{
    if entries.len() > 0 {
        let rest = entries.drop_first();
        lemma_lookup_is_some(rest, ticker);
        if entries[0].0 != ticker {
            if exists|k: int| 0 <= k < entries.len() && (#[trigger] entries[k]).0 == ticker {
                let k = choose|k: int| 0 <= k < entries.len() && (#[trigger] entries[k]).0 == ticker;
                assert(rest[k - 1].0 == ticker);
            }
            if exists|k: int| 0 <= k < rest.len() && (#[trigger] rest[k]).0 == ticker {
                let k = choose|k: int| 0 <= k < rest.len() && (#[trigger] rest[k]).0 == ticker;
                assert(entries[k + 1].0 == ticker);
            }
        }
    }
}

} // verus!
