use whim::decimal::{Decimal, ParseDecimalError, SCALING_EXPONENT, SCALING_FACTOR};

fn from_digits_places(digits: u64, decimal_places: u32) -> Decimal {
    let units = (digits as u128) * 10u128.pow(SCALING_EXPONENT - decimal_places);
    Decimal::from_units(units)
}

fn test_format(digits: u64, decimal_places: u32, expected: &str) -> String {
    let input = from_digits_places(digits, decimal_places);
    let formatted = input.to_string();
    assert_eq!(formatted, expected, "formatting {:?} failed: {} != {}", input, formatted, expected);
    formatted
}

fn test_parse(input: &str, digits: u64, decimal_places: u32) -> Decimal {
    let parsed: Decimal = input.parse().unwrap();
    let expected = from_digits_places(digits, decimal_places);
    assert_eq!(parsed, expected, "deserializing {} failed: {:?} != {:?}", input, parsed, expected);
    parsed
}

fn test_round_trip(digits: u64, decimal_places: u32) {
    let input = from_digits_places(digits, decimal_places);
    let output: Decimal = input.to_string().parse().unwrap();
    assert_eq!(output, input, "round-trip failed, input {:?} != output {:?}", input, output);
}

fn test_error(raw: &str, character: char, position: usize) {
    let actual_result: Result<Decimal, _> = raw.parse();
    let expected_result = Err(ParseDecimalError::InvalidCharacter(character, position));
    assert_eq!(actual_result, expected_result, "unexpected result: actual {:?} != expected {:?}", actual_result, expected_result);
}

fn test(raw: &str, digits: u64, decimal_places: u32, formatted: &str) {
    test_parse(raw, digits, decimal_places);
    test_format(digits, decimal_places, formatted);
    test_round_trip(digits, decimal_places);
}

#[test]
fn zero() {
    test("0.0", 0, 0, "0.0");
    test("000000.00000000000", 0, 0, "0.0");
    test("0.", 0, 0, "0.0");
    test(".0", 0, 0, "0.0");
    test(".", 0, 0, "0.0");
}

#[test]
fn one() {
    test("1.0", 1, 0, "1.0");
}

#[test]
fn mixed() {
    test("1.5", 15, 1, "1.5");
    test("10000.50", 100005, 1, "10000.5");
}

#[test]
fn fraction() {
    test("0.50", 5, 1, "0.5");
    test("0.050", 5, 2, "0.05");
    test("0.0050", 5, 3, "0.005");
    test("0.00050", 5, 4, "0.0005");
    test("0.000050", 5, 5, "0.00005");
}

#[test]
fn big() {
    test("123456789.987654321", 123456789987654321, 9, "123456789.987654321");
    test("0000000000000000000000000000000.00000000000000000000000", 0, 0, "0.0");
}

#[test]
fn errors() {
    test_error("x", 'x', 0);
    test_error("0.0.0", '.', 3);
    test_error("123.ayz", 'a', 4);
    test_error(" 1", ' ', 0);
    test_error("1 ", ' ', 1);
}

#[test]
fn limits() {
    let max = SCALING_FACTOR * SCALING_FACTOR;
    assert!(max < u128::MAX);
}

#[test]
fn empty_text_is_zero() {
    assert_eq!(Decimal::parse(""), Ok(Decimal::from_units(0)));
}

#[test]
fn normalization_keeps_one_fraction_digit() {
    assert_eq!(Decimal::parse("0.050").unwrap().to_string(), "0.05");
    assert_eq!(Decimal::parse("0.0").unwrap().to_string(), "0.0");
    assert_eq!(Decimal::parse("10.0").unwrap().to_string(), "10.0");
    assert_eq!(Decimal::parse("100.").unwrap().units(), 100 * SCALING_FACTOR);
}

#[test]
fn trailing_zeros_are_trimmed_before_reading() {
    // Trimming happens on the text as given, so whole numbers need a point.
    assert_eq!(Decimal::parse("100").unwrap().units(), SCALING_FACTOR);
    assert_eq!(Decimal::parse("100.").unwrap().units(), 100 * SCALING_FACTOR);
}

#[test]
fn magnitude_round_trip() {
    let d = Decimal::parse("123456789.987654321").unwrap();
    assert_eq!(d.units(), 123456789987654321000000000);
    assert_eq!(d.to_string(), "123456789.987654321");
}

#[test]
fn smallest_unit() {
    let d = Decimal::from_units(1);
    assert_eq!(d.to_string(), "0.000000000000000001");
    assert_eq!(Decimal::parse("0.000000000000000001"), Ok(d));
}

#[test]
fn largest_value_round_trips() {
    let d = Decimal::from_units(u128::MAX);
    let text = d.to_string();
    assert_eq!(text, "340282366920938463463.374607431768211455");
    assert_eq!(Decimal::parse(&text), Ok(d));
}

#[test]
fn out_of_range() {
    assert_eq!(Decimal::parse("0.0000000000000000001"), Err(ParseDecimalError::OutOfRange));
    assert_eq!(Decimal::parse("340282366920938463463.374607431768211456"), Err(ParseDecimalError::OutOfRange));
    assert_eq!(Decimal::parse("1000000000000000000000000000000000000000000.5"), Err(ParseDecimalError::OutOfRange));
}

#[test]
fn bad_character_wins_over_range() {
    assert_eq!(
        Decimal::parse("1000000000000000000000000000000000000000000.5x"),
        Err(ParseDecimalError::InvalidCharacter('x', 45))
    );
}

#[test]
fn ordering_is_by_units() {
    let a = Decimal::parse("1.50").unwrap();
    let b = Decimal::parse("1.5").unwrap();
    let c = Decimal::parse("1.05").unwrap();
    assert_eq!(a, b);
    assert!(c < a);
}
