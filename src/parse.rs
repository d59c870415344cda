//! The parts of reading a command line that need no floating point: the
//! fields of the line, which command it is, exchange rate requests, and
//! timestamps.
use crate::quote::{PriceUpdate, QuoteView, Timestamp};
use vstd::prelude::*;
use vstd::string::StringSliceAdditionalSpecFns;

verus! {

broadcast use vstd::utf8::encode_utf8_decode_utf8;

/// Which command a line holds, by its first field.
#[derive(Debug, PartialEq, Eq, Structural)]
pub enum TryParseCommand {
    PriceUpdate,
    ExchangeRequest,
}

#[derive(Debug, Clone, Copy, PartialEq, Eq, Structural)]
pub enum ParseErrorKind {
    NoInput,
    RequiredArgumentsCount,
    TimestampParsing,
    FloatParsing,
    StringParsing,
}

#[derive(Debug, Clone, Copy, PartialEq, Eq, Structural)]
pub struct ParseCommandError(pub ParseErrorKind);

impl ParseCommandError {
    /// A short description of the error, for people.
    pub fn message(&self) -> (r: &'static str)
        ensures
            r@ == match self.0 {
                ParseErrorKind::NoInput => "No input for the command"@,
                ParseErrorKind::RequiredArgumentsCount => "Invalid number of arguments provided"@,
                ParseErrorKind::TimestampParsing => "Timestamp format"@,
                ParseErrorKind::FloatParsing => "Invalid float"@,
                ParseErrorKind::StringParsing => "Parsing argument failed"@,
            },
    {
        match self.0 {
            ParseErrorKind::NoInput => "No input for the command",
            ParseErrorKind::RequiredArgumentsCount => "Invalid number of arguments provided",
            ParseErrorKind::TimestampParsing => "Timestamp format",
            ParseErrorKind::FloatParsing => "Invalid float",
            ParseErrorKind::StringParsing => "Parsing argument failed",
        }
    }
}

/// A request for the best rate from one venue and currency to another.
#[derive(Debug)]
pub struct ExchangeRequest {
    pub source_exchange: String,
    pub source_currency: String,
    pub destination_exchange: String,
    pub destination_currency: String,
}

/// A request as plain values: source venue and currency, destination
/// venue and currency.
pub struct RequestView {
    pub source_exchange: Seq<char>,
    pub source_currency: Seq<char>,
    pub destination_exchange: Seq<char>,
    pub destination_currency: Seq<char>,
}

impl View for ExchangeRequest {
    type V = RequestView;

    open spec fn view(&self) -> RequestView {
        RequestView {
            source_exchange: self.source_exchange@,
            source_currency: self.source_currency@,
            destination_exchange: self.destination_exchange@,
            destination_currency: self.destination_currency@,
        }
    }
}

/// The texts of a list of fields.
pub open spec fn field_views(fields: Seq<&str>) -> Seq<Seq<char>> {
    fields.map_values(|f: &str| f@)
}

/// A request read from the fields of its line.
pub open spec fn request_from_fields(fields: Seq<Seq<char>>) -> Result<RequestView, ParseCommandError> {
    if fields.len() != 5 {
        Err(ParseCommandError(ParseErrorKind::RequiredArgumentsCount))
    } else {
        Ok(
            RequestView {
                source_exchange: fields[1],
                source_currency: fields[2],
                destination_exchange: fields[3],
                destination_currency: fields[4],
            },
        )
    }
}

impl PartialEq for ExchangeRequest {
    fn eq(&self, other: &ExchangeRequest) -> (r: bool) {
        <String as PartialEq>::eq(&self.source_exchange, &other.source_exchange)
            && <String as PartialEq>::eq(&self.source_currency, &other.source_currency)
            && <String as PartialEq>::eq(&self.destination_exchange, &other.destination_exchange)
            && <String as PartialEq>::eq(&self.destination_currency, &other.destination_currency)
    }
}

impl vstd::std_specs::cmp::PartialEqSpecImpl for ExchangeRequest {
    open spec fn obeys_eq_spec() -> bool {
        true
    }

    open spec fn eq_spec(&self, other: &ExchangeRequest) -> bool {
        &&& self.source_exchange@ == other.source_exchange@
        &&& self.source_currency@ == other.source_currency@
        &&& self.destination_exchange@ == other.destination_exchange@
        &&& self.destination_currency@ == other.destination_currency@
    }
}

impl ExchangeRequest {
    /// The first field of a request line.
    pub const COMMAND_PREFIX: &'static str = "EXCHANGE_RATE_REQUEST";

    /// A request from the five fields of its line: the command word, then
    /// source venue, source currency, destination venue and destination
    /// currency.
    pub fn from_input(input_slice: &[&str]) -> (r: Result<ExchangeRequest, ParseCommandError>)
        ensures
            match r {
                Ok(request) => request_from_fields(field_views(input_slice@)) == Ok::<
                    RequestView,
                    ParseCommandError,
                >(request@),
                Err(e) => request_from_fields(field_views(input_slice@)) == Err::<RequestView, ParseCommandError>(e),
            },
    {
        if input_slice.len() != 5 {
            return Err(ParseCommandError(ParseErrorKind::RequiredArgumentsCount));
        }
        let source_exchange = input_slice[1].to_owned();
        let source_currency = input_slice[2].to_owned();
        let destination_exchange = input_slice[3].to_owned();
        let destination_currency = input_slice[4].to_owned();
        Ok(ExchangeRequest { source_exchange, source_currency, destination_exchange, destination_currency })
    }
}

/// Whether two texts are the same, compared byte by byte.
fn same_text(a: &str, b: &str) -> (r: bool)
    ensures
        r == (a@ == b@),
{
    let x = a.as_bytes();
    let y = b.as_bytes();
    if x.len() != y.len() {
        return false;
    }
    let mut i: usize = 0;
    while i < x.len()
        invariant
            x@ == a.spec_bytes(),
            y@ == b.spec_bytes(),
            x@.len() == y@.len(),
            i <= x@.len(),
            forall|t: int| 0 <= t < i ==> x@[t] == y@[t],
        decreases x@.len() - i,
    {
        if x[i] != y[i] {
            return false;
        }
        i += 1;
    }
    assert(x@ =~= y@);
    assert(vstd::utf8::decode_utf8(x@) == a@);
    true
}

/// A line whose first field is the request word holds an exchange rate
/// request; any other holds a quote.
pub fn which_try_to_parse_command(candidate: &str) -> (r: TryParseCommand)
    ensures
        r == (if candidate@ == ExchangeRequest::COMMAND_PREFIX@ {
            TryParseCommand::ExchangeRequest
        } else {
            TryParseCommand::PriceUpdate
        }),
{
    if same_text(candidate, ExchangeRequest::COMMAND_PREFIX) {
        TryParseCommand::ExchangeRequest
    } else {
        TryParseCommand::PriceUpdate
    }
}

/// The instant that a text names as chrono reads a UTC date and time
/// (a relaxed RFC 3339 form), if it names one.
pub uninterp spec fn instant_of_text(s: Seq<char>) -> Option<Timestamp>;

/// Relies on chrono's `FromStr` for `DateTime<Utc>`, and on its `timestamp`
/// and `timestamp_subsec_nanos` to give the instant as plain values.
#[verifier::external_body]
fn parse_instant(s: &str) -> (r: Option<Timestamp>)
    ensures
        r == instant_of_text(s@),
{
    match s.parse::<chrono::DateTime<chrono::Utc>>() {
        Ok(t) => Some(Timestamp { secs: t.timestamp(), nanos: t.timestamp_subsec_nanos() }),
        Err(_) => None,
    }
}

/// The timestamp field of a quote line.
pub fn parse_timestamp(input: &str) -> (r: Result<Timestamp, ParseCommandError>)
    ensures
        r == match instant_of_text(input@) {
            Some(t) => Ok::<Timestamp, ParseCommandError>(t),
            None => Err(ParseCommandError(ParseErrorKind::TimestampParsing)),
        },
{
    match parse_instant(input) {
        Some(t) => Ok(t),
        None => Err(ParseCommandError(ParseErrorKind::TimestampParsing)),
    }
}

/// `read` accepts every text and gives one result for each view of a text.
pub open spec fn reads_by_view<F: Fn(&str) -> Option<u64>>(read: F) -> bool {
    &&& forall|s: &str| #[trigger] call_requires(read, (s,))
    &&& forall|s1: &str, s2: &str, r1: Option<u64>, r2: Option<u64>|
        #![trigger call_ensures(read, (s1,), r1), call_ensures(read, (s2,), r2)]
        s1@ == s2@ && call_ensures(read, (s1,), r1) && call_ensures(read, (s2,), r2) ==> r1 == r2
}

/// `read` may give `r` for some text with view `t`.
pub open spec fn reads_to<F: Fn(&str) -> Option<u64>>(read: F, t: Seq<char>, r: Option<u64>) -> bool {
    exists|s: &str| s@ == t && #[trigger] call_ensures(read, (s,), r)
}

/// What `read` gives for a text with this view.
pub open spec fn read_text<F: Fn(&str) -> Option<u64>>(read: F, t: Seq<char>) -> Option<u64> {
    choose|r: Option<u64>| #[trigger] reads_to(read, t, r)
}

proof fn lemma_read_text<F: Fn(&str) -> Option<u64>>(read: F, s: &str, r: Option<u64>)
    requires
        reads_by_view(read),
        call_ensures(read, (s,), r),
    ensures
        read_text(read, s@) == r,
{
    assert(reads_to(read, s@, r));
    let c = read_text(read, s@);
    assert(reads_to(read, s@, c));
    let w = choose|x: &str| x@ == s@ && #[trigger] call_ensures(read, (x,), c);
    assert(call_ensures(read, (w,), c));
}

fn read_field<F: Fn(&str) -> Option<u64>>(read: &F, s: &str) -> (r: Option<u64>)
    requires
        reads_by_view(*read),
    ensures
        r == read_text(*read, s@),
{
    let r = read(s);
    proof {
        lemma_read_text(*read, s, r);
    }
    r
}

/// A quote read from the six fields of its line: timestamp, venue, source
/// currency, destination currency, forward factor and backward factor. The
/// first failure decides the error: the number of fields, the timestamp,
/// then the factors.
pub open spec fn quote_from_fields<F: Fn(&str) -> Option<u64>>(fields: Seq<Seq<char>>, read: F) -> Result<
    QuoteView,
    ParseCommandError,
> {
    if fields.len() != 6 {
        Err(ParseCommandError(ParseErrorKind::RequiredArgumentsCount))
    } else {
        match instant_of_text(fields[0]) {
            None => Err(ParseCommandError(ParseErrorKind::TimestampParsing)),
            Some(timestamp) => match (read_text(read, fields[4]), read_text(read, fields[5])) {
                (Some(forward), Some(backward)) => Ok(
                    QuoteView {
                        timestamp,
                        exchange: fields[1],
                        source: fields[2],
                        destination: fields[3],
                        forward,
                        backward,
                    },
                ),
                _ => Err(ParseCommandError(ParseErrorKind::FloatParsing)),
            },
        }
    }
}

impl PriceUpdate {
    /// A quote from the six fields of its line. `read_factor` reads a
    /// factor's text into the bit pattern of a binary64 value, or gives
    /// `None` when the text is no number (`str::parse::<f64>` then
    /// `f64::to_bits`).
    pub fn from_input<F: Fn(&str) -> Option<u64>>(input_slice: &[&str], read_factor: F) -> (r: Result<
        PriceUpdate,
        ParseCommandError,
    >)
        requires
            reads_by_view(read_factor),
        ensures
            match r {
                Ok(q) => quote_from_fields(field_views(input_slice@), read_factor) == Ok::<
                    QuoteView,
                    ParseCommandError,
                >(q@),
                Err(e) => quote_from_fields(field_views(input_slice@), read_factor) == Err::<
                    QuoteView,
                    ParseCommandError,
                >(e),
            },
    {
        let ghost fields = field_views(input_slice@);
        if input_slice.len() != 6 {
            return Err(ParseCommandError(ParseErrorKind::RequiredArgumentsCount));
        }
        assert(fields[0] == input_slice@[0]@ && fields[1] == input_slice@[1]@ && fields[2] == input_slice@[2]@);
        assert(fields[3] == input_slice@[3]@ && fields[4] == input_slice@[4]@ && fields[5] == input_slice@[5]@);
        let timestamp = match parse_timestamp(input_slice[0]) {
            Ok(t) => t,
            Err(e) => return Err(e),
        };
        let forward_factor = match read_field(&read_factor, input_slice[4]) {
            Some(f) => f,
            None => return Err(ParseCommandError(ParseErrorKind::FloatParsing)),
        };
        let backward_factor = match read_field(&read_factor, input_slice[5]) {
            Some(b) => b,
            None => return Err(ParseCommandError(ParseErrorKind::FloatParsing)),
        };
        Ok(
            PriceUpdate::new(
                timestamp,
                input_slice[1],
                input_slice[2],
                input_slice[3],
                forward_factor,
                backward_factor,
            ),
        )
    }
}

/// The first line of a text, as std's `str::lines` gives it.
pub uninterp spec fn first_line(s: Seq<char>) -> Option<Seq<char>>;

/// Relies on std's `str::lines`: its first item, if any.
#[verifier::external_body]
fn first_line_of(s: &str) -> (r: Option<&str>)
    ensures
        match r {
            Some(line) => first_line(s@) == Some(line@),
            None => first_line(s@) is None,
        },
{
    s.lines().next()
}

/// The fields of a text between runs of whitespace, as std's
/// `str::split_whitespace` gives them.
pub uninterp spec fn whitespace_fields(s: Seq<char>) -> Seq<Seq<char>>;

/// Relies on std's `str::split_whitespace`: all its items, in order.
#[verifier::external_body]
fn fields_of(s: &str) -> (r: Vec<&str>)
    ensures
        r@.len() == whitespace_fields(s@).len(),
        forall|i: int| 0 <= i < r@.len() ==> (#[trigger] r@[i])@ == whitespace_fields(s@)[i],
{
    s.split_whitespace().collect()
}

/// The fields of a command text: those of its first line, when it has a
/// line with at least one field.
pub open spec fn line_fields(input: Seq<char>) -> Option<Seq<Seq<char>>> {
    match first_line(input) {
        None => None,
        Some(line) => if whitespace_fields(line).len() == 0 {
            None
        } else {
            Some(whitespace_fields(line))
        },
    }
}

/// The fields of the first line of a command text; `NoInput` when there is
/// no line or the line holds no field.
pub fn command_fields(input_str: &str) -> (r: Result<Vec<&str>, ParseCommandError>)
    ensures
        match r {
            Ok(fields) => line_fields(input_str@) == Some(field_views(fields@)),
            Err(e) => line_fields(input_str@) is None && e == ParseCommandError(ParseErrorKind::NoInput),
        },
{
    match first_line_of(input_str) {
        None => Err(ParseCommandError(ParseErrorKind::NoInput)),
        Some(line) => {
            let fields = fields_of(line);
            if fields.len() == 0 {
                Err(ParseCommandError(ParseErrorKind::NoInput))
            } else {
                assert(field_views(fields@) =~= whitespace_fields(line@));
                Ok(fields)
            }
        },
    }
}

/// A command line, read.
#[derive(Debug, PartialEq)]
pub enum ParsedLine {
    PriceUpdate(PriceUpdate),
    ExchangeRequest(ExchangeRequest),
}

/// A command line as plain values.
pub enum ParsedLineView {
    PriceUpdate(QuoteView),
    ExchangeRequest(RequestView),
}

impl View for ParsedLine {
    type V = ParsedLineView;

    open spec fn view(&self) -> ParsedLineView {
        match self {
            ParsedLine::PriceUpdate(q) => ParsedLineView::PriceUpdate(q@),
            ParsedLine::ExchangeRequest(request) => ParsedLineView::ExchangeRequest(request@),
        }
    }
}

/// What a command text holds: by its first line's first field, a request
/// or a quote.
pub open spec fn parsed_line<F: Fn(&str) -> Option<u64>>(input: Seq<char>, read: F) -> Result<
    ParsedLineView,
    ParseCommandError,
> {
    match line_fields(input) {
        None => Err(ParseCommandError(ParseErrorKind::NoInput)),
        Some(fields) => if fields[0] == ExchangeRequest::COMMAND_PREFIX@ {
            match request_from_fields(fields) {
                Ok(request) => Ok(ParsedLineView::ExchangeRequest(request)),
                Err(e) => Err(e),
            }
        } else {
            match quote_from_fields(fields, read) {
                Ok(q) => Ok(ParsedLineView::PriceUpdate(q)),
                Err(e) => Err(e),
            }
        },
    }
}

/// Reads the first line of a command text; `read_factor` reads a quote's
/// factors as `PriceUpdate::from_input` says.
pub fn parse_line<F: Fn(&str) -> Option<u64>>(input_str: &str, read_factor: F) -> (r: Result<
    ParsedLine,
    ParseCommandError,
>)
    requires
        reads_by_view(read_factor),
    ensures
        match r {
            Ok(line) => parsed_line(input_str@, read_factor) == Ok::<ParsedLineView, ParseCommandError>(line@),
            Err(e) => parsed_line(input_str@, read_factor) == Err::<ParsedLineView, ParseCommandError>(e),
        },
{
    let input = command_fields(input_str)?;
    assert(field_views(input@)[0] == input@[0]@);
    match which_try_to_parse_command(input[0]) {
        TryParseCommand::PriceUpdate => {
            let price_update = PriceUpdate::from_input(&input, read_factor)?;
            Ok(ParsedLine::PriceUpdate(price_update))
        },
        TryParseCommand::ExchangeRequest => {
            let exchange_request = ExchangeRequest::from_input(&input)?;
            Ok(ParsedLine::ExchangeRequest(exchange_request))
        },
    }
}

} // verus!
