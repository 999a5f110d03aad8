use k9_console::numeric::{is_float_literal, parse_bounded};
use k9_console::value::{
    parse_bool, parse_value_via_definition, CallbackArgumentDefinition, CallbackArgumentType,
    CallbackArgumentValue,
};

fn def(kind: CallbackArgumentType) -> CallbackArgumentDefinition {
    CallbackArgumentDefinition { name: "x".to_string(), cba_type: kind, optional: false }
}

fn read(raw: &str, kind: CallbackArgumentType) -> Option<CallbackArgumentValue> {
    parse_value_via_definition(&raw.to_string(), &def(kind))
}

const INTEGER_TEXTS: &[&str] = &[
    "0",
    "42",
    "-7",
    "+7",
    "007",
    "-0",
    "+0",
    "2147483647",
    "2147483648",
    "-2147483648",
    "-2147483649",
    "9223372036854775807",
    "9223372036854775808",
    "-9223372036854775808",
    "-9223372036854775809",
    "99999999999999999999999999",
    "000000000000000000000000000001",
    "",
    "-",
    "+",
    "--1",
    "+-1",
    "1 ",
    " 1",
    "1_000",
    "0x10",
    "1.0",
    "1e3",
    "\u{0663}",
    "12a",
];

#[test]
fn thirty_two_bit_integers_are_read_as_the_standard_library_reads_them() {
    for &text in INTEGER_TEXTS {
        let expected = text.parse::<i32>().ok().map(CallbackArgumentValue::Int32);
        assert_eq!(read(text, CallbackArgumentType::Int32), expected, "{:?}", text);
    }
}

#[test]
fn sixty_four_bit_integers_are_read_as_the_standard_library_reads_them() {
    for &text in INTEGER_TEXTS {
        let expected = text.parse::<i64>().ok().map(CallbackArgumentValue::Int64);
        assert_eq!(read(text, CallbackArgumentType::Int64), expected, "{:?}", text);
    }
}

#[test]
fn integers_have_their_exact_value() {
    assert_eq!(read("42", CallbackArgumentType::Int32), Some(CallbackArgumentValue::Int32(42)));
    assert_eq!(read("-2147483648", CallbackArgumentType::Int32), Some(CallbackArgumentValue::Int32(i32::MIN)));
    assert_eq!(read("2147483648", CallbackArgumentType::Int32), None);
    assert_eq!(
        read("2147483648", CallbackArgumentType::Int64),
        Some(CallbackArgumentValue::Int64(2147483648))
    );
    assert_eq!(
        read("-9223372036854775808", CallbackArgumentType::Int64),
        Some(CallbackArgumentValue::Int64(i64::MIN))
    );
}

#[test]
fn bounded_integers_respect_their_bounds() {
    assert_eq!(parse_bounded("10", -10, 10), Some(10));
    assert_eq!(parse_bounded("11", -10, 10), None);
    assert_eq!(parse_bounded("-10", -10, 10), Some(-10));
    assert_eq!(parse_bounded("-11", -10, 10), None);
    assert_eq!(parse_bounded("+3", 0, 0), None);
    assert_eq!(parse_bounded("-0", 0, 0), Some(0));
}

const FLOAT_TEXTS: &[&str] = &[
    "1",
    "1.5",
    "-2.5",
    "+2.5",
    "+.5",
    ".5",
    "5.",
    "-5.",
    ".",
    "+.",
    "",
    "+",
    "-",
    "e5",
    ".e5",
    "1e5",
    "1E5",
    "1e+5",
    "1e-5",
    "1e",
    "1e+",
    "1e-",
    "1.e5",
    "1.5e10",
    "1e5.5",
    "1e5e5",
    "1..2",
    "1.2.3",
    "--1",
    "+-1",
    "1e999",
    "1e-999",
    "00.00",
    "-0",
    "inf",
    "-inf",
    "+inf",
    "infinity",
    "-infinity",
    "INF",
    "Infinity",
    "iNfInItY",
    "infinit",
    "infinityy",
    "in",
    "nan",
    "NaN",
    "-nan",
    "+NaN",
    "nanx",
    "na",
    "1f",
    "0x1p3",
    "1_0",
    " 1",
    "1 ",
    "\u{0661}",
    "\u{0130}nf",
];

#[test]
fn float_literals_are_those_that_the_standard_library_reads() {
    for &text in FLOAT_TEXTS {
        assert_eq!(is_float_literal(text), text.parse::<f64>().is_ok(), "{:?} as f64", text);
        assert_eq!(is_float_literal(text), text.parse::<f32>().is_ok(), "{:?} as f32", text);
    }
}

#[test]
fn floats_keep_the_literal_that_was_typed() {
    assert_eq!(
        read("1.5", CallbackArgumentType::Float32),
        Some(CallbackArgumentValue::Float32("1.5".to_string()))
    );
    assert_eq!(
        read("-2e3", CallbackArgumentType::Float64),
        Some(CallbackArgumentValue::Float64("-2e3".to_string()))
    );
    assert_eq!(read("one", CallbackArgumentType::Float32), None);
    assert_eq!(read("1,5", CallbackArgumentType::Float64), None);
    match read("0.25", CallbackArgumentType::Float64) {
        Some(CallbackArgumentValue::Float64(text)) => assert_eq!(text.parse::<f64>(), Ok(0.25)),
        other => panic!("{:?}", other),
    }
}

#[test]
fn bools_are_the_two_words_or_one_digit() {
    assert_eq!(parse_bool("true"), Some(true));
    assert_eq!(parse_bool("false"), Some(false));
    assert_eq!(parse_bool("1"), Some(true));
    assert_eq!(parse_bool("0"), Some(false));
    for text in ["True", "TRUE", "False", "yes", "no", "2", "", "01", "10", "11", " 1", "1 ", "t", "truee"] {
        assert_eq!(parse_bool(text), None, "{:?}", text);
    }
    assert_eq!(read("1", CallbackArgumentType::Bool), Some(CallbackArgumentValue::Bool(true)));
    assert_eq!(read("false", CallbackArgumentType::Bool), Some(CallbackArgumentValue::Bool(false)));
    assert_eq!(read("maybe", CallbackArgumentType::Bool), None);
}

#[test]
fn strings_are_taken_verbatim() {
    for text in ["", "hello", " spaced out ", "12", "true", "a\"b\nc", "\u{00e9}t\u{00e9}"] {
        assert_eq!(
            read(text, CallbackArgumentType::String),
            Some(CallbackArgumentValue::String(text.to_string()))
        );
    }
}

#[test]
fn a_flag_with_any_value_is_set() {
    for text in ["true", "false", "", "0", "whatever"] {
        assert_eq!(read(text, CallbackArgumentType::Flag), Some(CallbackArgumentValue::Flag(true)));
    }
}
