use tinhir::{
    handle_error, parse, parse_with_errors, trace, Comment, Error, Expected, Failure, Keyword,
    Operator, Place, Program, TopStmt,
};

#[test]
fn unterminated_string_is_reported_on_its_line() {
    let src = "fn main() {\n  x = 1\n  name = \"abc\n  y = 2\n}\n";
    assert!(matches!(parse(src), Err(Error::ParseFailed)));
    let failure = parse_with_errors(src).unwrap_err();
    assert_eq!(failure.expected, Expected::ClosingQuote);
    assert_eq!(failure.offset, 29);
    assert_eq!(failure.locate(src), Place { line: 3, column: 10 });
    let (kind, text) = handle_error(src, &failure);
    assert_eq!(kind, Error::ParseFailed);
    let text = text.expect("a trace");
    assert!(text.contains("at line 3"), "{}", text);
    assert!(text.contains("name = \"abc"), "{}", text);
    assert!(text.contains("a string literal, which is never closed"), "{}", text);
    assert!(text.contains("\n         ^"), "{}", text);
}

#[test]
fn places_are_counted_from_one() {
    let src = "ab\ncd\n\nef";
    let at = |offset| Failure { offset, expected: Expected::LineEnd }.locate(src);
    assert_eq!(at(0), Place { line: 1, column: 1 });
    assert_eq!(at(2), Place { line: 1, column: 3 });
    assert_eq!(at(3), Place { line: 2, column: 1 });
    assert_eq!(at(6), Place { line: 3, column: 1 });
    assert_eq!(at(7), Place { line: 4, column: 1 });
    assert_eq!(at(9), Place { line: 4, column: 3 });
}

#[test]
fn a_trace_names_what_was_needed() {
    let src = "fn main() {\n  f(1 2)\n}\n";
    let failure = parse_with_errors(src).unwrap_err();
    assert_eq!(failure.offset, 18);
    let text = trace(src, &failure).expect("a trace");
    assert!(text.contains("at line 2"), "{}", text);
    assert!(text.contains("punctuation"), "{}", text);
}

#[test]
fn no_trace_inside_a_character() {
    let src = "é";
    assert!(trace(src, &Failure { offset: 1, expected: Expected::Literal }).is_none());
    assert!(trace(src, &Failure { offset: 3, expected: Expected::Literal }).is_none());
    assert!(trace(src, &Failure { offset: 2, expected: Expected::Literal }).is_some());
    assert!(trace("", &Failure { offset: 0, expected: Expected::Main }).is_some());
}

#[test]
fn failures_are_told_apart_by_kind() {
    assert_eq!(Error::ParseFailed.message(), "parse failed");
    assert_eq!(Error::NoFile.message(), "no input file");
    assert_ne!(Error::ParseFailed, Error::NoFile);
    let first = parse_with_errors("fn main() {\n  \"a\n}").unwrap_err();
    let second = parse_with_errors("fn main() {").unwrap_err();
    assert_ne!(first, second);
    assert!(matches!(parse("fn main() {\n  \"a\n}"), Err(Error::ParseFailed)));
    assert!(matches!(parse("fn main() {"), Err(Error::ParseFailed)));
}

#[test]
fn every_expectation_has_a_description() {
    for expected in [
        Expected::Identifier,
        Expected::Literal,
        Expected::Expression,
        Expected::Byte(b')'),
        Expected::In,
        Expected::Digits,
        Expected::IntegerInRange,
        Expected::ClosingQuote,
        Expected::Ascii,
        Expected::Character,
        Expected::Comment,
        Expected::PathGlob,
        Expected::LineEnd,
        Expected::Declaration,
        Expected::VariantName,
        Expected::UniformFields,
        Expected::Main,
    ] {
        assert!(!expected.describe().is_empty());
    }
}

#[test]
fn parsing_twice_yields_the_same_tree() {
    let src = "// twice\nuse a/*\ntype A(x: i64) | B\nfn main() {\n  x = #{ a: 1.5, b: f(:s) }\n}\n";
    let first = parse(src).unwrap();
    let second = parse(src).unwrap();
    assert_eq!(format!("{:?}", first), format!("{:?}", second));
    let bad = "fn main() {\n  x = \n}\n";
    assert_eq!(parse_with_errors(bad).unwrap_err(), parse_with_errors(bad).unwrap_err());
}

#[test]
fn single_line_comment_renders_as_written() {
    for text in [" text", "text", "", " a // b", " \"quoted\" ünïcode"] {
        let src = format!("//{}\nfn main() {{}}\n", text);
        let program = parse(&src).unwrap();
        match &program.statements()[0] {
            TopStmt::Comment(comment) => {
                assert!(matches!(comment, Comment::SingleLine(_)));
                assert_eq!(comment.render(), text);
            }
            other => panic!("not a comment: {:?}", other),
        }
    }
}

#[test]
fn multi_line_comment_renders_all_its_lines() {
    let src = "// one\n//two\n   // three\n\n// alone\nfn main() {}\n";
    let program = parse(src).unwrap();
    let statements = program.statements();
    assert_eq!(statements.len(), 3);
    match &statements[0] {
        TopStmt::Comment(Comment::MultiLine(lines)) => {
            assert_eq!(lines, &vec![" one", "two", " three"]);
        }
        other => panic!("not a comment of three lines: {:?}", other),
    }
    match &statements[0] {
        TopStmt::Comment(comment) => assert_eq!(comment.render(), " onetwo three"),
        other => panic!("not a comment: {:?}", other),
    }
    assert!(matches!(&statements[1], TopStmt::Comment(Comment::SingleLine(line)) if *line == " alone"));
}

#[test]
fn programs_are_built_statement_by_statement() {
    let mut program = Program::empty();
    assert!(program.statements().is_empty());
    assert!(!program.is_complete());
    let src = "fn main() {}";
    let parsed = parse(src).unwrap();
    for statement in parsed.0 {
        program.add_statement(statement).add_statement(TopStmt::Comment(Comment::SingleLine("x")));
    }
    assert_eq!(program.statements().len(), 2);
    assert_eq!(program.count_main(), 1);
    assert!(program.is_complete());
    program.statements_mut().swap(0, 1);
    assert!(matches!(&program.statements()[0], TopStmt::Comment(_)));
    assert!(matches!(&program.statements()[1], TopStmt::FnDecl(decl) if decl.name.0 == "main"));
}

#[test]
fn keywords_have_one_spelling_each() {
    let all = [
        (Keyword::Use, "use"),
        (Keyword::Fn, "fn"),
        (Keyword::Return, "return"),
        (Keyword::And, "and"),
        (Keyword::Or, "or"),
        (Keyword::Xor, "xor"),
        (Keyword::Not, "not"),
        (Keyword::If, "if"),
        (Keyword::Else, "else"),
        (Keyword::ElseIf, "else if"),
        (Keyword::Unless, "unless"),
        (Keyword::ElseUnless, "else unless"),
        (Keyword::Loop, "loop"),
        (Keyword::While, "while"),
        (Keyword::Until, "until"),
        (Keyword::For, "for"),
        (Keyword::In, "in"),
    ];
    for (keyword, spelling) in all {
        assert_eq!(keyword.spelling(), spelling);
        if spelling.contains(' ') {
            assert_eq!(Keyword::from_word(spelling.as_bytes()), None);
        } else {
            assert_eq!(Keyword::from_word(spelling.as_bytes()), Some(keyword));
        }
    }
    assert_eq!(Keyword::from_word(b"iff"), None);
    assert_eq!(Keyword::from_word(b""), None);
    assert_eq!(Keyword::from_word(b"If"), None);
}

#[test]
fn operators_are_read_longest_first() {
    let all = [
        (Operator::Assign, "="),
        (Operator::Add, "+"),
        (Operator::Sub, "-"),
        (Operator::Mul, "*"),
        (Operator::Div, "/"),
        (Operator::Rem, "%"),
        (Operator::Exp, "^"),
        (Operator::AddAssign, "+="),
        (Operator::SubAssign, "-="),
        (Operator::MulAssign, "*="),
        (Operator::DivAssign, "/="),
        (Operator::RemAssign, "%="),
        (Operator::ExpAssign, "^="),
        (Operator::Eq, "=="),
        (Operator::Id, "@"),
        (Operator::Greater, ">"),
        (Operator::Less, "<"),
        (Operator::GreaterEq, ">="),
        (Operator::LessEq, "<="),
        (Operator::NotEq, "!="),
    ];
    for (operator, spelling) in all {
        assert_eq!(operator.spelling(), spelling);
        assert_eq!(Operator::lex(spelling, 0), Some((operator, spelling.len())));
        let padded = format!(" {} x", spelling);
        assert_eq!(Operator::lex(&padded, 1), Some((operator, 1 + spelling.len())));
    }
    assert_eq!(Operator::lex("!", 0), None);
    assert_eq!(Operator::lex("@=", 0), Some((Operator::Id, 1)));
    assert_eq!(Operator::lex("", 0), None);
    assert_eq!(Operator::lex("a", 0), None);
    assert_eq!(Operator::lex("+", 1), None);
    assert_eq!(Operator::Add.level(), Some(3));
    assert_eq!(Operator::Exp.level(), Some(5));
    assert_eq!(Operator::Eq.level(), Some(2));
    assert_eq!(Operator::Rem.level(), Some(4));
    assert_eq!(Operator::Assign.level(), None);
    assert!(Operator::AddAssign.is_compound());
    assert!(!Operator::Eq.is_compound());
}
