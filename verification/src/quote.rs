//! One price update: a ticker, its price, the traded volume and the time it
//! was made, with the line `ticker|price|volume|timestamp` as its text form.

use crate::clock::{since_epoch, system_now, whole_millis};
use crate::decimal::{
    decimal_parsed, decimal_text, is_decimal_char, lemma_decimal_text_chars, view_of, Decimal,
};
use crate::error::QuoteError;
use crate::numeral::{
    bounded_numeral, decimal_digits, lemma_decimal_digits_shape, lemma_numeral_round_trip,
    parse_numeral, push_decimal,
};
use crate::text::{
    chars_of, is_free_of, lemma_split_append_piece, lemma_split_single, push_all, split,
    split_chars, string_of, views, Separator,
};
use vstd::prelude::*;
use vstd::string::StrSliceExecFns;

verus! {

/// What the system clock reads: the milliseconds since the Unix epoch, or
/// nothing where the clock stands before the epoch.
pub fn system_clock() -> Option<u128> {
    let now = system_now();
    match since_epoch(&now) {
        Some(span) => Some(whole_millis(&span)),
        None => None,
    }
}

/// The character between the fields of a quote's text form.
pub const FIELD_SEPARATOR: char = '|';

/// A price update for one ticker.
#[derive(Debug, PartialEq, Eq)]
pub struct StockQuote {
    pub ticker: String,
    pub price: Decimal,
    pub volume: u32,
    /// Milliseconds since the Unix epoch.
    pub timestamp: u64,
}

/// What a quote holds.
pub struct QuoteView {
    pub ticker: Seq<char>,
    pub price: (int, nat),
    pub volume: u32,
    pub timestamp: u64,
}

impl View for StockQuote {
    type V = QuoteView;

    open spec fn view(&self) -> QuoteView {
        QuoteView {
            ticker: self.ticker@,
            price: self.price@,
            volume: self.volume,
            timestamp: self.timestamp,
        }
    }
}

impl Clone for StockQuote {
    fn clone(&self) -> (r: Self)
        ensures
            r == *self,
    {
        StockQuote {
            ticker: self.ticker.clone(),
            price: self.price,
            volume: self.volume,
            timestamp: self.timestamp,
        }
    }
}

/// A ticker that a quote can carry: not empty, and without `|`.
pub open spec fn is_quotable(ticker: Seq<char>) -> bool {
    ticker.len() > 0 && !ticker.contains(FIELD_SEPARATOR)
}

/// What making a quote gives, for a clock that reads `clock` milliseconds
/// since the epoch, or nothing where it stands before the epoch.
pub open spec fn quote_at(
    ticker: Seq<char>,
    price: (int, nat),
    volume: u32,
    clock: Option<u128>,
) -> Result<QuoteView, QuoteError> {
    if ticker.len() == 0 {
        Err(QuoteError::EmptyTicker)
    } else if ticker.contains(FIELD_SEPARATOR) {
        Err(QuoteError::TickerHasSeparator)
    } else {
        match clock {
            Some(millis) => if millis <= u64::MAX {
                Ok(QuoteView { ticker, price, volume, timestamp: millis as u64 })
            } else {
                Err(QuoteError::ClockBeforeEpoch)
            },
            None => Err(QuoteError::ClockBeforeEpoch),
        }
    }
}

/// The line of a ticker, the text of a price, a volume and a timestamp.
pub open spec fn line_of(ticker: Seq<char>, price: Seq<char>, volume: u32, timestamp: u64) -> Seq<
    char,
> {
    ticker.push(FIELD_SEPARATOR) + price.push(FIELD_SEPARATOR) + decimal_digits(
        volume as nat,
    ).push(FIELD_SEPARATOR) + decimal_digits(timestamp as nat)
}

/// The text form of a quote.
pub open spec fn quote_text(q: QuoteView) -> Seq<char> {
    line_of(q.ticker, decimal_text(q.price), q.volume, q.timestamp)
}

/// What reading a quote from the fields of a line gives, where the second
/// field was read as the price `price`, or could not be read as a price.
/// The fields are looked at in their order, and the first fault is
/// reported.
pub open spec fn quote_of_fields(fields: Seq<Seq<char>>, price: Option<(int, nat)>) -> Result<
    QuoteView,
    QuoteError,
> {
    if fields.len() < 2 {
        Err(QuoteError::MissingPrice)
    } else if price.is_none() {
        Err(QuoteError::InvalidPrice)
    } else if fields.len() < 3 {
        Err(QuoteError::MissingVolume)
    } else if bounded_numeral(fields[2], u32::MAX as nat).is_none() {
        Err(QuoteError::InvalidVolume)
    } else if fields.len() < 4 {
        Err(QuoteError::MissingTimestamp)
    } else if bounded_numeral(fields[3], u64::MAX as nat).is_none() {
        Err(QuoteError::InvalidTimestamp)
    } else if fields.len() > 4 {
        Err(QuoteError::TooManyFields)
    } else {
        Ok(
            QuoteView {
                ticker: fields[0],
                price: price.unwrap(),
                volume: bounded_numeral(fields[2], u32::MAX as nat).unwrap() as u32,
                timestamp: bounded_numeral(fields[3], u64::MAX as nat).unwrap() as u64,
            },
        )
    }
}

/// What reading a quote from a line gives.
pub open spec fn parse_quote(s: Seq<char>) -> Result<QuoteView, QuoteError> {
    let fields = split(s, Separator::Char(FIELD_SEPARATOR));
    quote_of_fields(
        fields,
        if fields.len() < 2 {
            None
        } else {
            decimal_parsed(fields[1])
        },
    )
}

impl StockQuote {
    /// A quote for `ticker`, stamped with the current time.
    ///
    /// Fails for a ticker that is empty or holds `|`, and where the system
    /// clock stands before the Unix epoch.
    pub fn new(ticker: &str, price: Decimal, volume: u32) -> (r: Result<StockQuote, QuoteError>)
        ensures
            match r {
                Ok(q) => exists|clock: Option<u128>|
                    quote_at(ticker@, price@, volume, clock) == Ok::<QuoteView, QuoteError>(q@),
                Err(e) => exists|clock: Option<u128>|
                    quote_at(ticker@, price@, volume, clock) == Err::<QuoteView, QuoteError>(e),
            },
            !is_quotable(ticker@) ==> r.is_err(),
    {
        let clock = system_clock();
        StockQuote::at(ticker, price, volume, clock)
    }

    /// A quote for `ticker`, stamped with what the clock reads: `clock`
    /// milliseconds since the Unix epoch, or nothing where the clock stands
    /// before it.
    pub fn at(ticker: &str, price: Decimal, volume: u32, clock: Option<u128>) -> (r: Result<
        StockQuote,
        QuoteError,
    >)
        ensures
            match r {
                Ok(q) => quote_at(ticker@, price@, volume, clock) == Ok::<QuoteView, QuoteError>(
                    q@,
                ),
                Err(e) => quote_at(ticker@, price@, volume, clock) == Err::<
                    QuoteView,
                    QuoteError,
                >(e),
            },
    {
        let chars = chars_of(ticker);
        if chars.len() == 0 {
            return Err(QuoteError::EmptyTicker);
        }
        let mut i: usize = 0;
        while i < chars.len()
            invariant
                i <= chars.len(),
                chars@ == ticker@,
                forall|j: int| 0 <= j < i ==> chars@[j] != FIELD_SEPARATOR,
            decreases chars.len() - i,
        {
            if chars[i] == FIELD_SEPARATOR {
                assert(ticker@[i as int] == FIELD_SEPARATOR);
                return Err(QuoteError::TickerHasSeparator);
            }
            i += 1;
        }
        match clock {
            Some(millis) => {
                if millis <= u64::MAX as u128 {
                    Ok(
                        StockQuote {
                            ticker: string_of(chars.as_slice()),
                            price,
                            volume,
                            timestamp: millis as u64,
                        },
                    )
                } else {
                    Err(QuoteError::ClockBeforeEpoch)
                }
            },
            None => Err(QuoteError::ClockBeforeEpoch),
        }
    }

    /// The line `ticker|price|volume|timestamp`, with the price given in
    /// text.
    pub fn compose(ticker: &str, price: &str, volume: u32, timestamp: u64) -> (r: String)
        ensures
            r@ == line_of(ticker@, price@, volume, timestamp),
    {
        let mut out = chars_of(ticker);
        out.push(FIELD_SEPARATOR);
        let price_chars = chars_of(price);
        push_all(&mut out, price_chars.as_slice());
        out.push(FIELD_SEPARATOR);
        push_decimal(&mut out, volume as u64);
        out.push(FIELD_SEPARATOR);
        push_decimal(&mut out, timestamp);
        assert(out@ == line_of(ticker@, price@, volume, timestamp));
        string_of(out.as_slice())
    }

    /// The text form: `ticker|price|volume|timestamp`.
    pub fn to_string(&self) -> (r: String)
        ensures
            r@ == quote_text(self@),
    {
        let price = self.price.to_string();
        StockQuote::compose(self.ticker.as_str(), price.as_str(), self.volume, self.timestamp)
    }

    /// The text form in UTF-8, as it is put into a datagram.
    pub fn to_bytes(&self) -> (r: Vec<u8>)
        ensures
            r@ == vstd::utf8::encode_utf8(quote_text(self@)),
    {
        let text = self.to_string();
        text.as_str().as_bytes_vec()
    }

    /// Reads a quote from the fields of a line, where the second field was
    /// read as the price `price`, or could not be read as a price.
    pub fn from_fields(fields: &Vec<Vec<char>>, price: Option<Decimal>) -> (r: Result<
        StockQuote,
        QuoteError,
    >)
        ensures
            match r {
                Ok(q) => quote_of_fields(views(fields@), view_of(price)) == Ok::<
                    QuoteView,
                    QuoteError,
                >(q@),
                Err(e) => quote_of_fields(views(fields@), view_of(price)) == Err::<
                    QuoteView,
                    QuoteError,
                >(e),
            },
    {
        let ghost all = views(fields@);
        if fields.len() < 2 {
            return Err(QuoteError::MissingPrice);
        }
        let price = match price {
            Some(p) => p,
            None => {
                return Err(QuoteError::InvalidPrice);
            },
        };
        if fields.len() < 3 {
            return Err(QuoteError::MissingVolume);
        }
        assert(all[2] == fields@[2]@);
        let volume = match parse_numeral(fields[2].as_slice(), u32::MAX as u64) {
            Some(v) => v as u32,
            None => {
                return Err(QuoteError::InvalidVolume);
            },
        };
        if fields.len() < 4 {
            return Err(QuoteError::MissingTimestamp);
        }
        assert(all[3] == fields@[3]@);
        let timestamp = match parse_numeral(fields[3].as_slice(), u64::MAX) {
            Some(t) => t,
            None => {
                return Err(QuoteError::InvalidTimestamp);
            },
        };
        if fields.len() > 4 {
            return Err(QuoteError::TooManyFields);
        }
        assert(all[0] == fields@[0]@);
        Ok(StockQuote { ticker: string_of(fields[0].as_slice()), price, volume, timestamp })
    }

    /// Reads a quote from its text form.
    pub fn parse(s: &str) -> (r: Result<StockQuote, QuoteError>)
        ensures
            match r {
                Ok(q) => parse_quote(s@) == Ok::<QuoteView, QuoteError>(q@),
                Err(e) => parse_quote(s@) == Err::<QuoteView, QuoteError>(e),
            },
    {
        let chars = chars_of(s);
        let fields = split_chars(chars.as_slice(), Separator::Char(FIELD_SEPARATOR));
        let price = if fields.len() < 2 {
            None
        } else {
            assert(views(fields@)[1] == fields@[1]@);
            let price_text = string_of(fields[1].as_slice());
            Decimal::parse(price_text.as_str())
        };
        StockQuote::from_fields(&fields, price)
    }
}

impl std::str::FromStr for StockQuote {
    type Err = QuoteError;

    fn from_str(s: &str) -> (r: Result<Self, QuoteError>)
        ensures
            match r {
                Ok(q) => parse_quote(s@) == Ok::<QuoteView, QuoteError>(q@),
                Err(e) => parse_quote(s@) == Err::<QuoteView, QuoteError>(e),
            },
    {
        StockQuote::parse(s)
    }
}

/// The text form of a quote has the quote's four fields, in their order.
pub proof fn lemma_quote_fields(q: QuoteView)
    requires
        !q.ticker.contains(FIELD_SEPARATOR),
    ensures
        split(quote_text(q), Separator::Char(FIELD_SEPARATOR)) == seq![
            q.ticker,
            decimal_text(q.price),
            decimal_digits(q.volume as nat),
            decimal_digits(q.timestamp as nat),
        ],
{
    let sep = Separator::Char(FIELD_SEPARATOR);
    let price = decimal_text(q.price);
    let volume = decimal_digits(q.volume as nat);
    let stamp = decimal_digits(q.timestamp as nat);
    lemma_decimal_digits_shape(q.volume as nat);
    lemma_decimal_digits_shape(q.timestamp as nat);
    assert(is_free_of(q.ticker, sep)) by {
        assert forall|i: int| 0 <= i < q.ticker.len() implies !sep.matches(
            #[trigger] q.ticker[i],
        ) by {
            if q.ticker[i] == FIELD_SEPARATOR {
                assert(q.ticker.contains(FIELD_SEPARATOR));
            }
        }
    }
    assert(is_free_of(price, sep)) by {
        lemma_decimal_text_chars(q.price);
        assert forall|i: int| 0 <= i < price.len() implies !sep.matches(#[trigger] price[i]) by {
            assert(is_decimal_char(price[i]));
        }
    }
    assert(is_free_of(volume, sep));
    assert(is_free_of(stamp, sep));
    let a = q.ticker;
    let b = a.push(FIELD_SEPARATOR) + price;
    let c = b.push(FIELD_SEPARATOR) + volume;
    let d = c.push(FIELD_SEPARATOR) + stamp;
    lemma_split_single(a, sep);
    lemma_split_append_piece(a, FIELD_SEPARATOR, price, sep);
    lemma_split_append_piece(b, FIELD_SEPARATOR, volume, sep);
    lemma_split_append_piece(c, FIELD_SEPARATOR, stamp, sep);
    assert(d == quote_text(q));
    assert(split(d, sep) == seq![a, price, volume, stamp]);
}

/// A quote reads back from its text form as itself, provided the ticker
/// holds no `|` and the price reads back from its text as the same decimal.
pub proof fn law_quote_round_trip(q: QuoteView)
    requires
        !q.ticker.contains(FIELD_SEPARATOR),
        decimal_parsed(decimal_text(q.price)) == Some(q.price),
    ensures
        parse_quote(quote_text(q)) == Ok::<QuoteView, QuoteError>(q),
{
    lemma_quote_fields(q);
    lemma_numeral_round_trip(q.volume as nat);
    lemma_numeral_round_trip(q.timestamp as nat);
}

} // verus!
