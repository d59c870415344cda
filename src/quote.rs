//! Quote records: a timestamped pair of conversion factors at one venue.
use vstd::prelude::*;

verus! {

/// An instant: whole seconds since the Unix epoch and the nanoseconds past
/// that second (more than 999_999_999 of them during a leap second).
#[derive(Debug, Clone, Copy, PartialEq, Eq, Structural, Hash)]
pub struct Timestamp {
    pub secs: i64,
    pub nanos: u32,
}

impl Timestamp {
    pub fn new(secs: i64, nanos: u32) -> (r: Timestamp)
        ensures
            r == (Timestamp { secs, nanos }),
    {
        Timestamp { secs, nanos }
    }

    /// `self` is the same instant as `other` or a later one.
    pub open spec fn not_older_than(self, other: Timestamp) -> bool {
        self.secs > other.secs || (self.secs == other.secs && self.nanos >= other.nanos)
    }

    pub fn is_not_older_than(&self, other: &Timestamp) -> (r: bool)
        ensures
            r == self.not_older_than(*other),
    {
        self.secs > other.secs || (self.secs == other.secs && self.nanos >= other.nanos)
    }
}

/// A trading venue, by name.
#[derive(Debug, PartialEq, Eq, Hash)]
pub struct Exchange {
    name: String,
}

impl View for Exchange {
    type V = Seq<char>;

    closed spec fn view(&self) -> Seq<char> {
        self.name@
    }
}

impl Exchange {
    pub fn new(exchange: String) -> (r: Exchange)
        ensures
            r@ == exchange@,
    {
        Exchange { name: exchange }
    }
}

/// A currency, by name.
#[derive(Debug, PartialEq, Eq, Hash)]
pub struct Currency {
    pub name: String,
}

impl Currency {
    pub fn new(currency: String) -> (r: Currency)
        ensures
            r.name@ == currency@,
    {
        Currency { name: currency }
    }
}

/// A quote as plain values.
pub struct QuoteView {
    pub timestamp: Timestamp,
    pub exchange: Seq<char>,
    pub source: Seq<char>,
    pub destination: Seq<char>,
    pub forward: u64,
    pub backward: u64,
}

impl QuoteView {
    /// What identifies a quote: its venue and its two currencies.
    pub open spec fn identity(self) -> (Seq<char>, Seq<char>, Seq<char>) {
        (self.exchange, self.source, self.destination)
    }
}

/// A quote: at `exchange`, one unit of `source_currency` buys
/// `forward_factor` units of `destination_currency`, and one unit of
/// `destination_currency` buys `backward_factor` units of `source_currency`.
/// Factors are IEEE-754 binary64 values held by their bit pattern
/// (`f64::to_bits`); the library stores and moves them but does no
/// arithmetic on them.
#[derive(Debug)]
pub struct PriceUpdate {
    pub timestamp: Timestamp,
    pub exchange: String,
    pub source_currency: String,
    pub destination_currency: String,
    pub forward_factor: u64,
    pub backward_factor: u64,
}

impl View for PriceUpdate {
    type V = QuoteView;

    open spec fn view(&self) -> QuoteView {
        QuoteView {
            timestamp: self.timestamp,
            exchange: self.exchange@,
            source: self.source_currency@,
            destination: self.destination_currency@,
            forward: self.forward_factor,
            backward: self.backward_factor,
        }
    }
}

impl PriceUpdate {
    pub fn new(
        timestamp: Timestamp,
        exchange: &str,
        source_currency: &str,
        destination_currency: &str,
        forward_factor: u64,
        backward_factor: u64,
    ) -> (r: PriceUpdate)
        ensures
            r@ == (QuoteView {
                timestamp,
                exchange: exchange@,
                source: source_currency@,
                destination: destination_currency@,
                forward: forward_factor,
                backward: backward_factor,
            }),
    {
        PriceUpdate {
            timestamp,
            exchange: exchange.to_owned(),
            source_currency: source_currency.to_owned(),
            destination_currency: destination_currency.to_owned(),
            forward_factor,
            backward_factor,
        }
    }
}

/// Two quotes are equal when their timestamps, venues and currencies are;
/// the factors are not compared.
impl PartialEq for PriceUpdate {
    fn eq(&self, other: &PriceUpdate) -> (r: bool) {
        self.timestamp == other.timestamp && <String as PartialEq>::eq(&self.exchange, &other.exchange)
            && <String as PartialEq>::eq(&self.source_currency, &other.source_currency)
            && <String as PartialEq>::eq(&self.destination_currency, &other.destination_currency)
    }
}

impl Eq for PriceUpdate {}

impl vstd::std_specs::cmp::PartialEqSpecImpl for PriceUpdate {
    open spec fn obeys_eq_spec() -> bool {
        true
    }

    open spec fn eq_spec(&self, other: &PriceUpdate) -> bool {
        &&& self.timestamp == other.timestamp
        &&& self.exchange@ == other.exchange@
        &&& self.source_currency@ == other.source_currency@
        &&& self.destination_currency@ == other.destination_currency@
    }
}

} // verus!
