use exchange_rate_path::parse::{
    command_fields, parse_line, parse_timestamp, which_try_to_parse_command, ExchangeRequest, ParseCommandError,
    ParseErrorKind, ParsedLine, TryParseCommand,
};
use exchange_rate_path::quote::{Currency, Exchange, PriceUpdate, Timestamp};

#[test]
fn exchange_request_valid_input() {
    assert_eq!(
        Ok(ExchangeRequest {
            source_exchange: "LACHO".to_owned(),
            source_currency: "BTC".to_owned(),
            destination_exchange: "KRAKEN".to_owned(),
            destination_currency: "USD".to_owned(),
        }),
        ExchangeRequest::from_input(&vec![ExchangeRequest::COMMAND_PREFIX, "LACHO", "BTC", "KRAKEN", "USD",])
    );
}

#[test]
fn which_try_to_command_handles_both_commands() {
    // only the &str literal "EXCHANGE_RATE_REQUEST" should end up in ExchangeRequest Enum
    assert_eq!(TryParseCommand::ExchangeRequest, which_try_to_parse_command(ExchangeRequest::COMMAND_PREFIX));
    assert_eq!(TryParseCommand::PriceUpdate, which_try_to_parse_command("does not matter"));
}

#[test]
fn price_update_equality() {
    let timestamp = Timestamp::new(1_509_529_343, 0);
    let comparison_update = PriceUpdate::new(timestamp.clone(), "EX1", "C1", "C2", 1.0f64.to_bits(), 2.0f64.to_bits());
    // it should be affected by the forward and backward factors
    let equal_update = PriceUpdate::new(timestamp, "EX1", "C1", "C2", 5.0f64.to_bits(), 6.0f64.to_bits());

    assert_eq!(equal_update, comparison_update);

    let other_time = Timestamp::new(1_509_529_344, 0);
    // different time
    assert_ne!(PriceUpdate::new(other_time, "EX1", "C1", "C2", 5.0f64.to_bits(), 6.0f64.to_bits()), comparison_update);

    // different exchange
    assert_ne!(PriceUpdate::new(other_time, "DIFF", "C1", "C2", 5.0f64.to_bits(), 6.0f64.to_bits()), comparison_update);

    // different source currency
    assert_ne!(
        PriceUpdate::new(other_time, "EX1", "SOURCE", "C2", 5.0f64.to_bits(), 6.0f64.to_bits()),
        comparison_update
    );

    // different destination currency
    assert_ne!(PriceUpdate::new(other_time, "EX1", "C1", "DEST", 5.0f64.to_bits(), 6.0f64.to_bits()), comparison_update);
}

#[test]
fn exchange_request_wrong_arguments_count() {
    let error = Err(ParseCommandError(ParseErrorKind::RequiredArgumentsCount));
    assert_eq!(error, ExchangeRequest::from_input(&[]));
    assert_eq!(error, ExchangeRequest::from_input(&["EXCHANGE_RATE_REQUEST", "A", "B", "C"]));
    assert_eq!(error, ExchangeRequest::from_input(&["EXCHANGE_RATE_REQUEST", "A", "B", "C", "D", "E"]));
}

#[test]
fn request_word_must_match_exactly() {
    assert_eq!(TryParseCommand::PriceUpdate, which_try_to_parse_command("EXCHANGE_RATE_REQUES"));
    assert_eq!(TryParseCommand::PriceUpdate, which_try_to_parse_command("exchange_rate_request"));
    assert_eq!(TryParseCommand::PriceUpdate, which_try_to_parse_command(""));
    assert_eq!(TryParseCommand::PriceUpdate, which_try_to_parse_command("2017-11-01T09:42:23+00:00"));
}

#[test]
fn timestamp_is_read_as_utc_instant() {
    assert_eq!(Ok(Timestamp::new(1_509_529_343, 0)), parse_timestamp("2017-11-01T09:42:23+00:00"));
    assert_eq!(Ok(Timestamp::new(1_509_529_343, 0)), parse_timestamp("2017-11-01T11:42:23+02:00"));
    assert_eq!(Ok(Timestamp::new(1_509_529_343, 250_000_000)), parse_timestamp("2017-11-01T09:42:23.25Z"));
    assert_eq!(Err(ParseCommandError(ParseErrorKind::TimestampParsing)), parse_timestamp("1"));
}

#[test]
fn timestamps_order_by_seconds_then_nanoseconds() {
    let a = Timestamp::new(10, 5);
    assert!(a.is_not_older_than(&Timestamp::new(10, 5)));
    assert!(a.is_not_older_than(&Timestamp::new(10, 4)));
    assert!(a.is_not_older_than(&Timestamp::new(9, 999_999_999)));
    assert!(!a.is_not_older_than(&Timestamp::new(10, 6)));
    assert!(!a.is_not_older_than(&Timestamp::new(11, 0)));
}

#[test]
fn command_fields_split_the_first_line_only() {
    let line = "  2017-11-01T09:42:23+00:00 KRAKEN BTC USD 1000.0 0.0009  \nanother line";
    assert_eq!(
        Ok(vec!["2017-11-01T09:42:23+00:00", "KRAKEN", "BTC", "USD", "1000.0", "0.0009"]),
        command_fields(line)
    );
    assert_eq!(Ok(vec!["EXCHANGE_RATE_REQUEST", "LACHO", "BTC", "KRAKEN", "USD"]), command_fields("EXCHANGE_RATE_REQUEST LACHO BTC KRAKEN USD"));
}

#[test]
fn command_fields_of_empty_input_is_no_input() {
    assert_eq!(Err(ParseCommandError(ParseErrorKind::NoInput)), command_fields(""));
    assert_eq!(Err(ParseCommandError(ParseErrorKind::NoInput)), command_fields(" "));
    assert_eq!(Err(ParseCommandError(ParseErrorKind::NoInput)), command_fields("\nKRAKEN"));
}

#[test]
fn error_messages() {
    assert_eq!("No input for the command", ParseCommandError(ParseErrorKind::NoInput).message());
    assert_eq!("Invalid number of arguments provided", ParseCommandError(ParseErrorKind::RequiredArgumentsCount).message());
    assert_eq!("Timestamp format", ParseCommandError(ParseErrorKind::TimestampParsing).message());
    assert_eq!("Invalid float", ParseCommandError(ParseErrorKind::FloatParsing).message());
    assert_eq!("Parsing argument failed", ParseCommandError(ParseErrorKind::StringParsing).message());
}

#[test]
fn venue_and_currency_names() {
    assert_eq!(Exchange::new("KRAKEN".to_string()), Exchange::new("KRAKEN".to_string()));
    assert_ne!(Exchange::new("KRAKEN".to_string()), Exchange::new("GDAX".to_string()));
    assert_eq!("BTC", Currency::new("BTC".to_string()).name);
}

fn read_factor(text: &str) -> Option<u64> {
    text.parse::<f64>().ok().map(f64::to_bits)
}

#[test]
fn price_update_valid_input() {
    let timestamp_str = "2017-11-01T09:42:23+00:00";
    let timestamp = parse_timestamp(timestamp_str).unwrap();

    assert_eq!(
        Ok(PriceUpdate {
            timestamp,
            exchange: "KRAKEN".to_owned(),
            source_currency: "BTC".to_owned(),
            destination_currency: "USD".to_owned(),
            forward_factor: 1000.0f64.to_bits(),
            backward_factor: 0.0009f64.to_bits(),
        }),
        PriceUpdate::from_input(&vec![timestamp_str, "KRAKEN", "BTC", "USD", "1000.0", "0.0009"], read_factor)
    );
    let q = PriceUpdate::from_input(&[timestamp_str, "KRAKEN", "BTC", "USD", "1000.0", "0.0009"], read_factor).unwrap();
    assert_eq!(1000.0f64.to_bits(), q.forward_factor);
    assert_eq!(0.0009f64.to_bits(), q.backward_factor);
    assert_eq!("USD", q.destination_currency);
}

#[test]
fn price_update_wrong_arguments_count() {
    let error_arguments_count = Err(ParseCommandError(ParseErrorKind::RequiredArgumentsCount));

    assert_eq!(error_arguments_count, PriceUpdate::from_input(&[], read_factor));
    assert_eq!(error_arguments_count, PriceUpdate::from_input(&["1", "2", "3", "4", "5"], read_factor));
    assert_eq!(error_arguments_count, PriceUpdate::from_input(&["1", "2", "3", "4", "5", "6", "7"], read_factor));
}

#[test]
fn price_update_wrong_timestamp() {
    assert_eq!(
        Err(ParseCommandError(ParseErrorKind::TimestampParsing)),
        PriceUpdate::from_input(&["1", "Exchange", "ETH", "EUR", "5.0", "6.0"], read_factor)
    );
}

#[test]
fn price_update_wrong_floats() {
    let float_error = Err(ParseCommandError(ParseErrorKind::FloatParsing));
    let forward_factor_wrong = ["2017-11-01T09:42:23+00:00", "Exchange", "ETH", "EUR", "not a float", "6.0"];
    assert_eq!(float_error, PriceUpdate::from_input(&forward_factor_wrong, read_factor));

    let backward_factor_wrong = ["2017-11-01T09:42:23+00:00", "Exchange", "ETH", "EUR", "5.0", "not a float"];

    assert_eq!(float_error, PriceUpdate::from_input(&backward_factor_wrong, read_factor));
}

#[test]
fn parse_line_empty_input() {
    // for both an empty string and a space, should return an error with NoInput
    // the rest us handle by the specific Command Parsing part
    assert_eq!(Err(ParseCommandError(ParseErrorKind::NoInput)), parse_line("", read_factor));
    assert_eq!(Err(ParseCommandError(ParseErrorKind::NoInput)), parse_line(" ", read_factor));
}

#[test]
fn parse_line_parses_single_line_only() {
    let line = "  2017-11-01T09:42:23+00:00 KRAKEN BTC USD 1000.0 0.0009  \nanother line";

    assert_eq!(true, parse_line(line, read_factor).is_ok());
}

#[test]
fn parse_line_parses_price_update_line() {
    let line = "2017-11-01T09:42:23+00:00 KRAKEN BTC USD 1000.0 0.0009 \nanother line";

    let price_update_expected = PriceUpdate {
        timestamp: parse_timestamp("2017-11-01T09:42:23+00:00").unwrap(),
        exchange: "KRAKEN".to_owned(),
        source_currency: "BTC".to_owned(),
        destination_currency: "USD".to_owned(),
        forward_factor: 1000.0f64.to_bits(),
        backward_factor: 0.0009f64.to_bits(),
    };
    let parsed_line_expected = ParsedLine::PriceUpdate(price_update_expected);

    assert_eq!(Ok(parsed_line_expected), parse_line(line, read_factor));
}

#[test]
fn parse_line_parses_exchange_rate_request_line() {
    let line = "EXCHANGE_RATE_REQUEST LACHO BTC KRAKEN USD";

    let exchange_request_expected = ExchangeRequest {
        source_exchange: "LACHO".to_owned(),
        source_currency: "BTC".to_owned(),
        destination_exchange: "KRAKEN".to_owned(),
        destination_currency: "USD".to_owned(),
    };
    let parsed_line_expected = ParsedLine::ExchangeRequest(exchange_request_expected);

    assert_eq!(Ok(parsed_line_expected), parse_line(line, read_factor));
}

#[test]
fn parse_line_reports_request_argument_count() {
    assert_eq!(
        Err(ParseCommandError(ParseErrorKind::RequiredArgumentsCount)),
        parse_line("EXCHANGE_RATE_REQUEST LACHO BTC KRAKEN", read_factor)
    );
    assert_eq!(
        Err(ParseCommandError(ParseErrorKind::RequiredArgumentsCount)),
        parse_line("2017-11-01T09:42:23+00:00 KRAKEN BTC USD 1000.0", read_factor)
    );
}
