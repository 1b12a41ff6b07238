use tinhir::parser::parse_literal;
use tinhir::{Expected, Literal};

fn literal(src: &str) -> Literal<'_> {
    let (value, next) = parse_literal(src, 0).expect("a literal");
    assert_eq!(next, src.len());
    value
}

#[test]
fn array_of_three_integers() {
    match literal("#[1, 2, 3]") {
        Literal::Array(array) => {
            assert_eq!(array.0.len(), 3);
            for (item, (value, text)) in array.0.iter().zip([(1, "1"), (2, "2"), (3, "3")]) {
                match item {
                    Literal::Int(int) => {
                        assert_eq!(int.0, value);
                        assert_eq!(int.1, text);
                    }
                    other => panic!("not an integer: {:?}", other),
                }
            }
        }
        other => panic!("not an array: {:?}", other),
    }
}

#[test]
fn tuple_of_three_kinds() {
    match literal("#(1, 'a', b\"hi\")") {
        Literal::Tuple(tuple) => {
            assert_eq!(tuple.0.len(), 3);
            assert!(matches!(&tuple.0[0], Literal::Int(int) if int.0 == 1 && int.1 == "1"));
            assert!(matches!(&tuple.0[1], Literal::Char(c) if c.0 == 'a' && c.1 == "'a'"));
            assert!(
                matches!(&tuple.0[2], Literal::BStr(b) if b.0 == [104u8, 105u8] && b.1 == "b\"hi\"")
            );
        }
        other => panic!("not a tuple: {:?}", other),
    }
}

#[test]
fn empty_array_and_tuple() {
    assert!(matches!(literal("#[]"), Literal::Array(a) if a.0.is_empty()));
    assert!(matches!(literal("#( )"), Literal::Tuple(t) if t.0.is_empty()));
    assert!(matches!(literal("#{}"), Literal::MapLit(m) if m.0.is_empty()));
}

#[test]
fn integers_keep_their_text() {
    assert!(matches!(literal("645"), Literal::Int(i) if i.0 == 645 && i.1 == "645"));
    assert!(matches!(literal("-12"), Literal::Int(i) if i.0 == -12 && i.1 == "-12"));
    assert!(matches!(literal("+7"), Literal::Int(i) if i.0 == 7 && i.1 == "+7"));
    assert!(matches!(literal("007"), Literal::Int(i) if i.0 == 7 && i.1 == "007"));
}

#[test]
fn integer_limits() {
    assert!(matches!(
        literal("9223372036854775807"),
        Literal::Int(i) if i.0 == i64::MAX
    ));
    assert!(matches!(
        literal("-9223372036854775808"),
        Literal::Int(i) if i.0 == i64::MIN
    ));
    let over = parse_literal("9223372036854775808", 0).unwrap_err();
    assert_eq!(over.offset, 0);
    assert_eq!(over.expected, Expected::IntegerInRange);
    let under = parse_literal("-9223372036854775809", 0).unwrap_err();
    assert_eq!(under.expected, Expected::IntegerInRange);
    let long = parse_literal("123456789012345678901234567890", 0).unwrap_err();
    assert_eq!(long.expected, Expected::IntegerInRange);
}

#[test]
fn floats_are_kept_as_written() {
    for text in ["5.36", "-0.5", "1e9", "2.5E-3", "7e+2"] {
        match literal(text) {
            Literal::Float(float) => {
                assert_eq!(float.0, text);
                assert!(float.0.parse::<f64>().is_ok());
            }
            other => panic!("not a float: {:?}", other),
        }
    }
}

#[test]
fn a_point_without_digits_is_no_fraction() {
    let (value, next) = parse_literal("1.x", 0).unwrap();
    assert_eq!(next, 1);
    assert!(matches!(value, Literal::Int(i) if i.0 == 1));
}

#[test]
fn strings_hold_the_text_between_the_quotes() {
    assert!(matches!(literal("\"hello\""), Literal::UStr(s) if s.0 == "hello"));
    assert!(matches!(literal("\"\""), Literal::UStr(s) if s.0.is_empty()));
    assert!(matches!(literal("\"héllo wörld ✓\""), Literal::UStr(s) if s.0 == "héllo wörld ✓"));
}

#[test]
fn unterminated_string_fails_at_its_opening_quote() {
    let failure = parse_literal("  \"abc", 2).unwrap_err();
    assert_eq!(failure.offset, 2);
    assert_eq!(failure.expected, Expected::ClosingQuote);
    let failure = parse_literal("\"abc\ndef\"", 0).unwrap_err();
    assert_eq!(failure.offset, 0);
    assert_eq!(failure.expected, Expected::ClosingQuote);
}

#[test]
fn byte_strings_hold_ascii_only() {
    assert!(matches!(
        literal("b\"hello\""),
        Literal::BStr(b) if b.0 == "hello".as_bytes() && b.1 == "b\"hello\""
    ));
    let failure = parse_literal("b\"hé\"", 0).unwrap_err();
    assert_eq!(failure.offset, 3);
    assert_eq!(failure.expected, Expected::Ascii);
}

#[test]
fn chars_hold_one_scalar_value() {
    assert!(matches!(literal("'c'"), Literal::Char(c) if c.0 == 'c' && c.1 == "'c'"));
    assert!(matches!(literal("'é'"), Literal::Char(c) if c.0 == 'é' && c.1 == "'é'"));
    assert!(matches!(literal("'✓'"), Literal::Char(c) if c.0 == '✓'));
    assert!(matches!(literal("'𝄞'"), Literal::Char(c) if c.0 == '𝄞' && c.1 == "'𝄞'"));
    assert!(matches!(literal("'''"), Literal::Char(c) if c.0 == '\''));
    for bad in ["''", "'ab'", "'a", "'"] {
        let failure = parse_literal(bad, 0).unwrap_err();
        assert_eq!(failure.offset, 1);
        assert_eq!(failure.expected, Expected::Character);
    }
}

#[test]
fn symbols_hold_the_text_after_the_colon() {
    assert!(matches!(literal(":hello"), Literal::Symbol(s) if s.0 == "hello"));
    assert!(matches!(literal(":if"), Literal::Symbol(s) if s.0 == "if"));
    let failure = parse_literal(":1", 0).unwrap_err();
    assert_eq!(failure.offset, 1);
    assert_eq!(failure.expected, Expected::Identifier);
}

#[test]
fn booleans_and_identifiers() {
    assert!(matches!(literal("true"), Literal::Bool(b) if b.0 && b.1 == "true"));
    assert!(matches!(literal("false"), Literal::Bool(b) if !b.0 && b.1 == "false"));
    assert!(matches!(literal("some-name"), Literal::Ident(i) if i.0 == "some-name"));
    assert!(matches!(literal("truex"), Literal::Ident(i) if i.0 == "truex"));
    assert!(matches!(literal("a_b+c>d<e*9"), Literal::Ident(i) if i.0 == "a_b+c>d<e*9"));
    let failure = parse_literal("while", 0).unwrap_err();
    assert_eq!(failure.expected, Expected::Identifier);
}

#[test]
fn map_entries_keep_their_order_and_duplicates() {
    match literal("#{ x: 2 + 3, y: -1, x: 0 }") {
        Literal::MapLit(map) => {
            let keys: Vec<&str> = map.0.iter().map(|(key, _)| key.0).collect();
            assert_eq!(keys, vec!["x", "y", "x"]);
        }
        other => panic!("not a map: {:?}", other),
    }
}

#[test]
fn nested_literals_may_span_lines() {
    match literal("#[\n  #(1, 2),\n  #[],\n  :a\n]") {
        Literal::Array(array) => {
            assert_eq!(array.0.len(), 3);
            assert!(matches!(&array.0[0], Literal::Tuple(t) if t.0.len() == 2));
            assert!(matches!(&array.0[1], Literal::Array(a) if a.0.is_empty()));
            assert!(matches!(&array.0[2], Literal::Symbol(s) if s.0 == "a"));
        }
        other => panic!("not an array: {:?}", other),
    }
}

#[test]
fn a_list_needs_its_closing_bracket() {
    let failure = parse_literal("#[1, 2", 0).unwrap_err();
    assert_eq!(failure.offset, 6);
    assert_eq!(failure.expected, Expected::Byte(b']'));
    let failure = parse_literal("#[1 2]", 0).unwrap_err();
    assert_eq!(failure.offset, 4);
    assert_eq!(failure.expected, Expected::Byte(b']'));
    let failure = parse_literal("#[,]", 0).unwrap_err();
    assert_eq!(failure.offset, 2);
    assert_eq!(failure.expected, Expected::Literal);
}
