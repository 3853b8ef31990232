use text_transformer::ast::index_value;
use text_transformer::ast_v2::model::Value;
use text_transformer::ast_v2::value::parse_integer;
use text_transformer::decimal::push_decimal;
use text_transformer::tokens::Token;

fn integer(text: &str) -> Option<i64> {
    let tokens = [Token::Alphanum(text.to_string())];
    match parse_integer(&tokens) {
        Some((Value::LiteralInteger(i), rest)) => {
            assert!(rest.is_empty());
            Some(i)
        }
        Some(other) => panic!("not an integer: {:?}", other),
        None => None,
    }
}

#[test]
fn integers_read_digits_and_signs() {
    assert_eq!(integer("0"), Some(0));
    assert_eq!(integer("42"), Some(42));
    assert_eq!(integer("007"), Some(7));
    assert_eq!(integer("+5"), Some(5));
    assert_eq!(integer("-5"), Some(-5));
    assert_eq!(integer("-0"), Some(0));
}

#[test]
fn integers_keep_to_64_bits() {
    assert_eq!(integer("9223372036854775807"), Some(i64::MAX));
    assert_eq!(integer("-9223372036854775808"), Some(i64::MIN));
    assert_eq!(integer("9223372036854775808"), None);
    assert_eq!(integer("-9223372036854775809"), None);
}

#[test]
fn what_is_no_number_is_no_integer() {
    for text in ["", "+", "-", "12a", "a12", "1 2", "+-1", "--1", "1-", " 1", "1_000", "\u{663}"] {
        assert_eq!(integer(text), None, "{:?}", text);
    }
}

#[test]
fn indices_keep_to_32_bits() {
    assert_eq!(index_value("0"), Ok(0));
    assert_eq!(index_value("2147483647"), Ok(i32::MAX));
    assert!(index_value("2147483648").is_err());
}

#[test]
fn push_decimal_appends_the_digits() {
    let mut s = String::from("n=");
    push_decimal(&mut s, 0);
    assert_eq!(s, "n=0");
    push_decimal(&mut s, 9);
    push_decimal(&mut s, 10);
    push_decimal(&mut s, 12345);
    assert_eq!(s, "n=091012345");
    let mut s = String::new();
    push_decimal(&mut s, usize::MAX);
    assert_eq!(s, usize::MAX.to_string());
}

#[test]
fn reading_undoes_writing() {
    for n in [0usize, 1, 9, 10, 99, 100, 2147483647] {
        let mut text = String::new();
        push_decimal(&mut text, n);
        assert_eq!(index_value(&text), Ok(n as i32));
        assert_eq!(integer(&text), Some(n as i64));
    }
}
