use tinhir::lexical::{
    parse_bstr, parse_char, parse_comment, parse_ident, parse_number, parse_symbol, parse_ty,
    parse_ustr,
};
use tinhir::text::{at, bytes_eq, scan_class, slice, ByteClass};
use tinhir::words::{reserved, scan_word, word_eq};
use tinhir::{Expected, Literal};

#[test]
fn identifiers_begin_with_a_letter() {
    for (src, end) in [
        ("x", 1),
        ("some-name rest", 9),
        ("a1_b-c+d>e<f*g(", 14),
        ("Z9", 2),
        ("if0", 3),
        ("x.y", 1),
        ("xé", 1),
    ] {
        let (name, next) = parse_ident(src, 0).unwrap();
        assert_eq!(next, end, "{:?}", src);
        assert_eq!(name.0, &src[..end]);
    }
    for src in ["", "1x", "_x", "-x", "+x", "é", " x", "*"] {
        let failure = parse_ident(src, 0).unwrap_err();
        assert_eq!(failure.offset, 0, "{:?}", src);
        assert_eq!(failure.expected, Expected::Identifier, "{:?}", src);
    }
}

#[test]
fn reserved_words_name_nothing() {
    for word in [
        "use", "fn", "return", "and", "or", "xor", "not", "if", "else", "unless", "loop", "while",
        "until", "for", "in", "true", "false", "break", "continue", "type",
    ] {
        assert!(reserved(word.as_bytes()), "{}", word);
        assert!(parse_ident(word, 0).is_err(), "{}", word);
        assert!(parse_ty(word, 0).is_err(), "{}", word);
        let longer = format!("{}s", word);
        assert!(!reserved(longer.as_bytes()), "{}", longer);
        assert!(parse_ident(&longer, 0).is_ok(), "{}", longer);
    }
    assert!(!reserved(b"main"));
    assert!(!reserved(b""));
}

#[test]
fn types_are_written_as_identifiers() {
    let (ty, next) = parse_ty("Vec<i64> x", 0).unwrap();
    assert_eq!(ty.0, "Vec<i64>");
    assert_eq!(next, 8);
}

#[test]
fn numbers_need_digits() {
    for (src, offset) in [("", 0), ("x", 0), ("-", 1), ("+x", 1), (".5", 0), ("e5", 0)] {
        let failure = parse_number(src, 0).unwrap_err();
        assert_eq!(failure.offset, offset, "{:?}", src);
        assert_eq!(failure.expected, Expected::Digits, "{:?}", src);
    }
}

#[test]
fn where_a_number_ends() {
    for (src, end, float) in [
        ("12", 2, false),
        ("12.5", 4, true),
        ("12.", 2, false),
        ("12.e5", 2, false),
        ("12e5", 4, true),
        ("12e", 2, false),
        ("12e+", 2, false),
        ("12e-7x", 5, true),
        ("12E+7", 5, true),
        ("1.5e3.2", 5, true),
        ("1.5.2", 3, true),
        ("0x10", 1, false),
        ("7)", 1, false),
    ] {
        let (value, next) = parse_number(src, 0).unwrap();
        assert_eq!(next, end, "{:?}", src);
        match value {
            Literal::Float(text) => {
                assert!(float, "{:?}", src);
                assert_eq!(text.0, &src[..end]);
            }
            Literal::Int(int) => {
                assert!(!float, "{:?}", src);
                assert_eq!(int.1, &src[..end]);
                assert_eq!(int.0, src[..end].parse::<i64>().unwrap());
            }
            other => panic!("no number: {:?}", other),
        }
    }
}

#[test]
fn strings_end_at_the_next_quote() {
    let (text, next) = parse_ustr("\"a\"b\"", 0).unwrap();
    assert_eq!(text.0, "a");
    assert_eq!(next, 3);
    let failure = parse_ustr("a\"", 0).unwrap_err();
    assert_eq!((failure.offset, failure.expected), (0, Expected::Byte(b'"')));
    let failure = parse_ustr("\"a", 0).unwrap_err();
    assert_eq!((failure.offset, failure.expected), (0, Expected::ClosingQuote));
    let (text, _) = parse_ustr("\"tab\there \\ \r\"", 0).unwrap();
    assert_eq!(text.0, "tab\there \\ \r");
}

#[test]
fn byte_strings_begin_with_b() {
    let (text, next) = parse_bstr("b\"\"x", 0).unwrap();
    assert!(text.0.is_empty());
    assert_eq!(text.1, "b\"\"");
    assert_eq!(next, 3);
    for (src, offset, expected) in [
        ("\"a\"", 0, Expected::Byte(b'b')),
        ("b", 1, Expected::Byte(b'"')),
        ("ba\"", 1, Expected::Byte(b'"')),
        ("b\"a", 1, Expected::ClosingQuote),
        ("b\"é", 1, Expected::ClosingQuote),
        ("b\"aé\"", 3, Expected::Ascii),
        ("b\"a\n\"", 1, Expected::ClosingQuote),
    ] {
        let failure = parse_bstr(src, 0).unwrap_err();
        assert_eq!((failure.offset, failure.expected), (offset, expected), "{:?}", src);
    }
}

#[test]
fn chars_of_every_width() {
    for c in ['a', '\u{7f}', '\u{80}', 'ß', '\u{7ff}', '\u{800}', '€', '\u{ffff}', '\u{10000}', '😀', '\u{10ffff}'] {
        let src = format!("'{}' ", c);
        let (value, next) = parse_char(&src, 0).unwrap();
        assert_eq!(value.0, c);
        assert_eq!(value.1, &src[..src.len() - 1]);
        assert_eq!(next, src.len() - 1);
    }
    let failure = parse_char("x", 0).unwrap_err();
    assert_eq!((failure.offset, failure.expected), (0, Expected::Byte(b'\'')));
    let failure = parse_char("'é", 0).unwrap_err();
    assert_eq!((failure.offset, failure.expected), (1, Expected::Character));
}

#[test]
fn symbols_need_a_word() {
    let (symbol, next) = parse_symbol(":a-b c", 0).unwrap();
    assert_eq!(symbol.0, "a-b");
    assert_eq!(next, 4);
    let failure = parse_symbol("a", 0).unwrap_err();
    assert_eq!((failure.offset, failure.expected), (0, Expected::Byte(b':')));
    let failure = parse_symbol(": a", 0).unwrap_err();
    assert_eq!((failure.offset, failure.expected), (1, Expected::Identifier));
}

#[test]
fn comments_need_their_marker() {
    for src in ["", "/", "/ /", "x", "#", "/*"] {
        let failure = parse_comment(src, 0).unwrap_err();
        assert_eq!((failure.offset, failure.expected), (0, Expected::Comment), "{:?}", src);
    }
    let (_, next) = parse_comment("// a\r\n// b\r\nx", 0).unwrap();
    assert_eq!(next, 10);
}

#[test]
fn byte_classes() {
    let classes = [
        (ByteClass::Inline, " \t\r", "\na/"),
        (ByteClass::Blank, " \t\r\n", "a/"),
        (ByteClass::IdentTail, "azAZ09-_+><*", " /.=(\n"),
        (ByteClass::Digit, "0123456789", "a-+. "),
        (ByteClass::StringBody, "a \t\r'\\", "\"\n"),
        (ByteClass::AsciiBody, "a \t\r'\\", "\"\n"),
        (ByteClass::LineBody, "a \t\"/", "\n\r"),
        (ByteClass::PathChar, "azAZ09-_+><*/.", " =(\n\""),
    ];
    for (class, inside, outside) in classes {
        for b in inside.bytes() {
            assert!(class.contains(b), "{:?} {:?}", class, b as char);
        }
        for b in outside.bytes() {
            assert!(!class.contains(b), "{:?} {:?}", class, b as char);
        }
    }
    assert!(ByteClass::StringBody.contains(0xc3));
    assert!(ByteClass::LineBody.contains(0xc3));
    assert!(!ByteClass::AsciiBody.contains(0xc3));
    assert!(!ByteClass::IdentTail.contains(0xc3));
}

#[test]
fn scanning_and_slicing() {
    let src = "  abc  é";
    assert_eq!(scan_class(src, 0, ByteClass::Inline), 2);
    assert_eq!(scan_class(src, 2, ByteClass::Inline), 2);
    assert_eq!(scan_class(src, 2, ByteClass::IdentTail), 5);
    assert_eq!(scan_class(src, 5, ByteClass::LineBody), src.len());
    assert_eq!(scan_class(src, src.len(), ByteClass::Blank), src.len());
    assert_eq!(scan_word(src, 2), 5);
    assert_eq!(scan_word(src, 0), 0);
    assert!(word_eq(src, 2, 5, "abc"));
    assert!(!word_eq(src, 2, 5, "ab"));
    assert!(!word_eq(src, 0, 0, ""));
    assert_eq!(slice(src, 2, 5), "abc");
    assert_eq!(slice(src, 5, src.len()), "  é");
    assert_eq!(slice(src, 7, 7), "");
    assert!(at(src, 2, b'a'));
    assert!(!at(src, 2, b'b'));
    assert!(!at(src, src.len(), b'a'));
    assert!(bytes_eq(b"ab", b"ab"));
    assert!(!bytes_eq(b"ab", b"ac"));
    assert!(!bytes_eq(b"ab", b"abc"));
    assert!(bytes_eq(b"", b""));
}
