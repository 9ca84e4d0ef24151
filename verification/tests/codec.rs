use rust_parser::ast::Value;
use rust_parser::error::InvalidDigit;

const ALPHABET: &str = "abcdefghijklmnopqrstuvwxyzABCDEFGHIJKLMNOPQRSTUVWXYZ0123456789!\"#$%&'()*+,-./:;<=>?@[\\]^_`|~ \n";

fn wire_characters() -> String {
    (33u8..127).map(|b| b as char).collect()
}

#[test]
fn ast_string() {
    assert_eq!(
        Value::Str("get index".to_string()),
        Value::decode_string("'%4}).$%8")
    );
}

#[test]
fn ast_integer() {
    assert_eq!(Ok(1337_i64), Value::decode_integer_body("/6"));
}

#[test]
fn lib_string() {
    assert_eq!(
        Value::Str("get index".to_string()),
        Value::decode_string("'%4}).$%8")
    );
}

#[test]
fn lib_integer() {
    assert_eq!(Ok(1337_i64), Value::decode_integer_body("/6"));
}

#[test]
fn decode_string_maps_every_wire_character_to_its_alphabet_symbol() {
    assert_eq!(
        Value::Str(ALPHABET.to_string()),
        Value::decode_string(&wire_characters())
    );
}

#[test]
fn encode_string_maps_every_alphabet_symbol_to_its_wire_character() {
    assert_eq!(wire_characters(), Value::encode_string(ALPHABET));
}

#[test]
fn decode_string_leaves_other_characters_alone() {
    assert_eq!(
        Value::Str(" \n\t\u{e9}".to_string()),
        Value::decode_string(" \n\t\u{e9}")
    );
}

#[test]
fn encode_string_leaves_other_characters_alone() {
    assert_eq!("{}\t\u{e9}", Value::encode_string("{}\t\u{e9}"));
}

#[test]
fn decode_string_of_empty_is_empty() {
    assert_eq!(Value::Str(String::new()), Value::decode_string(""));
}

#[test]
fn string_round_trip_on_alphabet_text() {
    let text = "Hello World!\nsecond line: [a|b] ~ `c`";
    let wire = Value::encode_string(text);
    assert_ne!(text, wire);
    assert_eq!(Value::Str(text.to_string()), Value::decode_string(&wire));
}

#[test]
fn string_round_trip_on_wire_text() {
    let wire = wire_characters();
    match Value::decode_string(&wire) {
        Value::Str(plain) => assert_eq!(wire, Value::encode_string(&plain)),
        other => panic!("not a string: {:?}", other),
    }
}

#[test]
fn encode_hello_world() {
    assert_eq!("B%,,/}Q/2,$_", Value::encode_string("Hello World!"));
}

#[test]
fn encode_integer_zero_is_single_first_digit() {
    assert_eq!("!", Value::encode_integer_body(0));
}

#[test]
fn encode_integer_exact_values() {
    assert_eq!("\"", Value::encode_integer_body(1));
    assert_eq!("~", Value::encode_integer_body(93));
    assert_eq!("\"!", Value::encode_integer_body(94));
    assert_eq!("/6", Value::encode_integer_body(1337));
    assert_eq!("4%34", Value::encode_integer_body(15818151));
}

#[test]
fn encode_integer_of_negative_has_no_digits() {
    assert_eq!("", Value::encode_integer_body(-1));
    assert_eq!("", Value::encode_integer_body(i64::MIN));
}

#[test]
fn decode_integer_exact_values() {
    assert_eq!(Ok(0), Value::decode_integer_body(""));
    assert_eq!(Ok(0), Value::decode_integer_body("!"));
    assert_eq!(Ok(0), Value::decode_integer_body("!!!"));
    assert_eq!(Ok(93), Value::decode_integer_body("~"));
    assert_eq!(Ok(94), Value::decode_integer_body("\"!"));
    assert_eq!(Ok(15818151), Value::decode_integer_body("4%34"));
}

#[test]
fn decode_integer_rejects_characters_outside_the_digit_range() {
    assert_eq!(Err(InvalidDigit(' ')), Value::decode_integer_body(" "));
    assert_eq!(Err(InvalidDigit(' ')), Value::decode_integer_body("/ 6"));
    assert_eq!(Err(InvalidDigit('\u{7f}')), Value::decode_integer_body("6\u{7f}"));
    assert_eq!(Err(InvalidDigit('\u{e9}')), Value::decode_integer_body("\u{e9}"));
    assert_eq!(Err(InvalidDigit(' ')), Value::decode_integer("a b"));
}

#[test]
fn decode_integer_reports_the_first_character_that_is_not_a_digit() {
    assert_eq!(Err(InvalidDigit('\t')), Value::decode_integer_body("ab\tc d\n"));
    assert_eq!(Err(InvalidDigit('\n')), Value::decode_integer_body("\nab\tc d"));
}

#[test]
fn decode_integer_wraps_the_value_into_a_value() {
    assert_eq!(Ok(Value::Int(1337)), Value::decode_integer("/6"));
}

#[test]
fn integer_round_trip() {
    for n in [0_i64, 1, 93, 94, 95, 8835, 8836, 1337, 1_000_000_007, i64::MAX - 1, i64::MAX] {
        let wire = Value::encode_integer_body(n);
        assert_eq!(Ok(n), Value::decode_integer_body(&wire), "n = {}", n);
    }
}

#[test]
fn decode_integer_reduces_large_numerals_modulo_two_to_the_64() {
    // 94^10 = 53861511409489970176 = 2 * 2^64 + 16968023262070866944,
    // which as a signed 64-bit integer is -1478720811638684672.
    assert_eq!(
        Ok(-1478720811638684672_i64),
        Value::decode_integer_body("\"!!!!!!!!!!")
    );
    // i64::MAX + 1 wraps to i64::MIN.
    let max = Value::encode_integer_body(i64::MAX);
    let mut digits: Vec<char> = max.chars().collect();
    let last = digits.pop().unwrap();
    assert!(last < '~');
    digits.push(((last as u8) + 1) as char);
    let above: String = digits.into_iter().collect();
    assert_eq!(Ok(i64::MIN), Value::decode_integer_body(&above));
}
