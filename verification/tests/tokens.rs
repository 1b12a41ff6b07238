use tinhir::words::parse_keyword;
use tinhir::{
    next_token, parse_with_errors, trace, Comment, Expected, Keyword, Literal, Operator, Token,
};

fn tokens(src: &str) -> Vec<String> {
    let mut found = Vec::new();
    let mut pos = 0;
    loop {
        while pos < src.len() && src.as_bytes()[pos].is_ascii_whitespace() {
            pos += 1;
        }
        if pos >= src.len() {
            return found;
        }
        let (token, next) = next_token(src, pos).expect("a token");
        assert!(next > pos);
        found.push(match token {
            Token::Comment(comment) => format!("comment({})", comment.render()),
            Token::Keyword(keyword, text) => format!("{:?}({})", keyword, text),
            Token::Operator(operator, text) => format!("{:?}({})", operator, text),
            Token::Literal(Literal::Ident(name)) => format!("ident({})", name.0),
            Token::Literal(Literal::Int(int)) => format!("int({})", int.0),
            Token::Literal(Literal::Float(float)) => format!("float({})", float.0),
            Token::Literal(Literal::Bool(b)) => format!("bool({})", b.0),
            Token::Literal(Literal::UStr(s)) => format!("str({})", s.0),
            Token::Literal(Literal::BStr(s)) => format!("bytes({})", s.1),
            Token::Literal(Literal::Char(c)) => format!("char({})", c.0),
            Token::Literal(Literal::Symbol(s)) => format!("symbol({})", s.0),
            Token::Literal(other) => panic!("no atomic literal: {:?}", other),
        });
        pos = next;
    }
}

#[test]
fn every_kind_of_token() {
    assert_eq!(
        tokens("while x1 <= -3 and name != \"a b\" // rest\n"),
        vec![
            "While(while)",
            "ident(x1)",
            "LessEq(<=)",
            "int(-3)",
            "And(and)",
            "ident(name)",
            "NotEq(!=)",
            "str(a b)",
            "comment( rest)",
        ]
    );
    assert_eq!(
        tokens("1.5 'c' b\"x\" :sym true @ ^="),
        vec![
            "float(1.5)",
            "char(c)",
            "bytes(b\"x\")",
            "symbol(sym)",
            "bool(true)",
            "Id(@)",
            "ExpAssign(^=)",
        ]
    );
}

#[test]
fn two_word_keywords_are_one_token() {
    assert_eq!(tokens("else if"), vec!["ElseIf(else if)"]);
    assert_eq!(tokens("else \t unless x"), vec!["ElseUnless(else \t unless)", "ident(x)"]);
    assert_eq!(tokens("else\nif"), vec!["Else(else)", "If(if)"]);
    assert_eq!(tokens("else iff"), vec!["Else(else)", "ident(iff)"]);
    assert_eq!(parse_keyword("else if", 0), Some((Keyword::ElseIf, 7)));
    assert_eq!(parse_keyword("else  unless", 0), Some((Keyword::ElseUnless, 12)));
    assert_eq!(parse_keyword("else", 0), Some((Keyword::Else, 4)));
    assert_eq!(parse_keyword("elsewhere", 0), None);
    assert_eq!(parse_keyword(" if", 0), None);
    assert_eq!(parse_keyword("if", 2), None);
}

#[test]
fn what_is_no_token_consumes_nothing() {
    for src in ["(", "}", ",", "#[1]", "", " x", "!", "é"] {
        let failure = next_token(src, 0).unwrap_err();
        assert_eq!(failure.offset, 0, "{:?}", src);
        assert_eq!(failure.expected, Expected::Token, "{:?}", src);
    }
    let failure = next_token("break", 0).unwrap_err();
    assert_eq!(failure.expected, Expected::Identifier);
    let failure = next_token("\"open", 0).unwrap_err();
    assert_eq!(failure.expected, Expected::ClosingQuote);
}

#[test]
fn comments_collapse_into_one_token() {
    match next_token("// a\n// b\nx", 0).unwrap() {
        (Token::Comment(Comment::MultiLine(lines)), next) => {
            assert_eq!(lines, vec![" a", " b"]);
            assert_eq!(next, 9);
        }
        other => panic!("not a comment of two lines: {:?}", other),
    }
    assert!(matches!(
        next_token("//x", 0).unwrap(),
        (Token::Comment(Comment::SingleLine("x")), 3)
    ));
}

#[test]
fn operators_next_to_names() {
    assert_eq!(tokens("a+b"), vec!["ident(a+b)"]);
    assert_eq!(tokens("a + b"), vec!["ident(a)", "Add(+)", "ident(b)"]);
    assert_eq!(tokens("a == b"), vec!["ident(a)", "Eq(==)", "ident(b)"]);
    assert_eq!(tokens("= =="), vec!["Assign(=)", "Eq(==)"]);
    assert_eq!(tokens("- 1 -1 -x"), vec!["Sub(-)", "int(1)", "int(-1)", "Sub(-)", "ident(x)"]);
    assert_eq!(tokens("9 % 2"), vec!["int(9)", "Rem(%)", "int(2)"]);
    assert_eq!(format!("{:?}", Operator::lex(">=", 0)), "Some((GreaterEq, 2))");
}

#[test]
fn every_failure_of_a_parse_has_a_trace() {
    for src in [
        "",
        "é",
        "fn main() { x = \"é",
        "fn main() {\n  'é\n}",
        "fn main() {\n  x = \"ü\" é\n}",
        "fn main() {\n  b\"é\"\n}",
        "fn main() {\n  // ünï\n  f(é)\n}",
        "use é",
        "type A(é)",
        "fn main() {}\n// é\nx",
        "fn é() {}",
        "fn main(é: T) {}",
        "fn main() { #{ é: 1 } }",
        "fn main() { 'é' é }",
    ] {
        let failure = parse_with_errors(src).unwrap_err();
        assert!(src.is_char_boundary(failure.offset), "{:?}", src);
        assert!(trace(src, &failure).is_some(), "{:?}", src);
    }
}
