use tinhir::parser::{parse_block, parse_expr, parse_stmt};
use tinhir::{Block, Comment, Expected, Expr, Literal, Stmt};

fn show_literal(literal: &Literal<'_>) -> String {
    match literal {
        Literal::Ident(x) => x.0.to_string(),
        Literal::Bool(x) => format!("{}", x.0),
        Literal::Int(x) => format!("{}", x.0),
        Literal::Float(x) => format!("float:{}", x.0),
        Literal::UStr(x) => format!("{:?}", x.0),
        Literal::BStr(x) => format!("b{:?}", x.0),
        Literal::Char(x) => format!("{:?}", x.0),
        Literal::Symbol(x) => format!(":{}", x.0),
        Literal::Array(x) => format!(
            "#[{}]",
            x.0.iter().map(show_literal).collect::<Vec<_>>().join(" ")
        ),
        Literal::Tuple(x) => format!(
            "#({})",
            x.0.iter().map(show_literal).collect::<Vec<_>>().join(" ")
        ),
        Literal::MapLit(x) => format!(
            "#{{{}}}",
            x.0.iter()
                .map(|(key, value)| format!("{}={}", key.0, show(value)))
                .collect::<Vec<_>>()
                .join(" ")
        ),
    }
}

fn show_block(block: &Block<'_>) -> String {
    format!(
        "{{{}}}",
        block.0.iter().map(show_stmt).collect::<Vec<_>>().join("; ")
    )
}

fn show_stmt(stmt: &Stmt<'_>) -> String {
    match stmt {
        Stmt::Comment(comment) => format!("//{}", comment.render()),
        Stmt::VarAssign(assign) => match &assign.ty {
            Some(ty) => format!("{}: {} = {}", assign.name.0, ty.0, show(&assign.rhs)),
            None => format!("{} = {}", assign.name.0, show(&assign.rhs)),
        },
        Stmt::Expr(expr) => show(expr),
    }
}

fn show(expr: &Expr<'_>) -> String {
    match expr {
        Expr::If(c, b, None) => format!("(if {} {})", show(c), show_block(b)),
        Expr::If(c, b, Some(e)) => {
            format!("(if {} {} else {})", show(c), show_block(b), show_block(e))
        }
        Expr::Unless(c, b, None) => format!("(unless {} {})", show(c), show_block(b)),
        Expr::Unless(c, b, Some(e)) => {
            format!("(unless {} {} else {})", show(c), show_block(b), show_block(e))
        }
        Expr::Loop(b) => format!("(loop {})", show_block(b)),
        Expr::While(c, b) => format!("(while {} {})", show(c), show_block(b)),
        Expr::Until(c, b) => format!("(until {} {})", show(c), show_block(b)),
        Expr::For(x, c, b) => format!("(for {} in {} {})", show(x), show(c), show_block(b)),
        Expr::Continue(label) => format!("(continue '{}')", label),
        Expr::Break(None, label) => format!("(break '{}')", label),
        Expr::Break(Some(value), label) => format!("(break {} '{}')", show(value), label),
        Expr::FnCall(call) => {
            let mut out = format!("({}", call.name.0);
            for arg in &call.args {
                out.push(' ');
                out.push_str(&show(arg));
            }
            out.push(')');
            out
        }
        Expr::Ident(x) => x.0.to_string(),
        Expr::Dot(a, b) => format!("(. {} {})", show(a), show(b)),
        Expr::Literal(x) => show_literal(x),
    }
}

fn expr(src: &str) -> String {
    let (value, next) = parse_expr(src, 0).expect("an expression");
    assert_eq!(next, src.len(), "all of {:?} is read", src);
    show(&value)
}

fn stmt(src: &str) -> String {
    let (value, next) = parse_stmt(src, 0).expect("a statement");
    assert_eq!(next, src.len(), "all of {:?} is read", src);
    show_stmt(&value)
}

#[test]
fn operators_are_calls() {
    assert_eq!(expr("a + b"), "(+ a b)");
    assert_eq!(expr("a and b"), "(and a b)");
    assert_eq!(expr("not a"), "(not a)");
    assert_eq!(expr("- a"), "(- a)");
    assert_eq!(expr("-a"), "(- a)");
    assert_eq!(expr("@a"), "(@ a)");
    assert_eq!(expr("a != b"), "(!= a b)");
}

#[test]
fn precedence_from_tightest_to_loosest() {
    assert_eq!(expr("a + b * c"), "(+ a (* b c))");
    assert_eq!(expr("a * b + c"), "(+ (* a b) c)");
    assert_eq!(expr("a * b ^ c"), "(* a (^ b c))");
    assert_eq!(expr("a + b > c - d"), "(> (+ a b) (- c d))");
    assert_eq!(expr("a > b and c < d"), "(and (> a b) (< c d))");
    assert_eq!(expr("a and b or c xor d"), "(or (and a b) (xor c d))");
    assert_eq!(expr("a or b and c"), "(or a (and b c))");
    assert_eq!(
        expr("a or b and c == d + e * f ^ g"),
        "(or a (and b (== c (+ d (* e (^ f g))))))"
    );
}

#[test]
fn binary_operators_group_from_the_left() {
    assert_eq!(expr("a - b - c"), "(- (- a b) c)");
    assert_eq!(expr("a / b * c % d"), "(% (* (/ a b) c) d)");
    assert_eq!(expr("a or b or c"), "(or (or a b) c)");
    assert_eq!(expr("a and b xor c"), "(xor (and a b) c)");
    assert_eq!(expr("a < b <= c"), "(<= (< a b) c)");
}

#[test]
fn exponent_groups_from_the_right() {
    assert_eq!(expr("a ^ b ^ c"), "(^ a (^ b c))");
    assert_eq!(expr("2 ^ 3 ^ 2"), "(^ 2 (^ 3 2))");
}

#[test]
fn prefix_operators_bind_tightest() {
    assert_eq!(expr("not a and b"), "(and (not a) b)");
    assert_eq!(expr("not a == b"), "(== (not a) b)");
    assert_eq!(expr("- a ^ b"), "(^ (- a) b)");
    assert_eq!(expr("@a.b"), "(@ (. a b))");
    assert_eq!(expr("not not a"), "(not (not a))");
}

#[test]
fn a_sign_before_a_digit_belongs_to_the_number() {
    assert_eq!(expr("-1"), "-1");
    assert_eq!(expr("a - 1"), "(- a 1)");
    assert_eq!(expr("a - -1"), "(- a -1)");
    assert_eq!(expr("1+2"), "(+ 1 2)");
    assert_eq!(expr("- 1"), "(- 1)");
}

#[test]
fn operator_characters_inside_a_name_belong_to_it() {
    assert_eq!(expr("a+b"), "a+b");
    assert_eq!(expr("a-b * c"), "(* a-b c)");
    assert_eq!(expr("x>y"), "x>y");
    assert_eq!(expr("a +b"), "(+ a b)");
}

#[test]
fn parentheses_group() {
    assert_eq!(expr("(a + b) * c"), "(* (+ a b) c)");
    assert_eq!(expr("( a )"), "a");
    assert_eq!(expr("(\n  a + b\n)"), "(+ a b)");
    let failure = parse_expr("(a + b", 0).unwrap_err();
    assert_eq!(failure.offset, 6);
    assert_eq!(failure.expected, Expected::Byte(b')'));
}

#[test]
fn field_access_groups_from_the_left_and_binds_tightest() {
    assert_eq!(expr("a.b.c"), "(. (. a b) c)");
    assert_eq!(expr("a.b + c.d"), "(+ (. a b) (. c d))");
    assert_eq!(expr("a.f(x).g"), "(. (. a (f x)) g)");
    assert_eq!(expr("(a + b).c"), "(. (+ a b) c)");
    assert_eq!(expr("1.x"), "(. 1 x)");
    let failure = parse_expr("a.1", 0).unwrap_err();
    assert_eq!(failure.offset, 2);
    assert_eq!(failure.expected, Expected::Identifier);
}

#[test]
fn calls_take_arguments() {
    assert_eq!(expr("f()"), "(f)");
    assert_eq!(expr("f(x)"), "(f x)");
    assert_eq!(expr("f(x, y + 1, g(z))"), "(f x (+ y 1) (g z))");
    assert_eq!(expr("f(\n  x,\n  y\n)"), "(f x y)");
    let (value, next) = parse_expr("f (x)", 0).unwrap();
    assert_eq!(show(&value), "f");
    assert_eq!(next, 1);
    let failure = parse_expr("f(x y)", 0).unwrap_err();
    assert_eq!(failure.offset, 4);
    assert_eq!(failure.expected, Expected::Byte(b')'));
}

#[test]
fn literals_are_operands() {
    assert_eq!(expr("\"a\" + 'b'"), "(+ \"a\" 'b')");
    assert_eq!(expr(":key == #[1, 2]"), "(== :key #[1 2])");
    assert_eq!(expr("true and false"), "(and true false)");
    assert_eq!(expr("b\"x\""), "b[120]");
    assert_eq!(expr("1.5 * 2"), "(* float:1.5 2)");
    assert_eq!(expr("#{ x: 2 + 3, y: -1 }"), "#{x=(+ 2 3) y=-1}");
    assert_eq!(expr("b"), "b");
}

#[test]
fn reserved_words_are_no_operands() {
    for word in ["else", "in", "fn", "use", "and", "or", "xor"] {
        let failure = parse_expr(word, 0).unwrap_err();
        assert_eq!(failure.offset, 0);
        assert_eq!(failure.expected, Expected::Expression);
    }
    let failure = parse_expr("type", 0).unwrap_err();
    assert_eq!(failure.expected, Expected::Identifier);
    let failure = parse_expr("a + ", 0).unwrap_err();
    assert_eq!(failure.offset, 4);
    assert_eq!(failure.expected, Expected::Literal);
}

#[test]
fn if_and_unless() {
    assert_eq!(expr("if a { b }"), "(if a {b})");
    assert_eq!(expr("unless a { b }"), "(unless a {b})");
    assert_eq!(expr("if a { b } else { c }"), "(if a {b} else {c})");
    assert_eq!(expr("if a {\n  b\n}\nelse {\n  c\n}"), "(if a {b} else {c})");
    assert_eq!(
        expr("if a { b } else if c { d } else { e }"),
        "(if a {b} else {(if c {d} else {e})})"
    );
    assert_eq!(
        expr("unless a { b } else unless c { d }"),
        "(unless a {b} else {(unless c {d})})"
    );
    assert_eq!(
        expr("if a { b } else unless c { d }"),
        "(if a {b} else {(unless c {d})})"
    );
    assert_eq!(expr("if a > b and c {}"), "(if (and (> a b) c) {})");
}

#[test]
fn an_if_without_else_ends_at_its_block() {
    let src = "if a { b }\n\nother";
    let (value, next) = parse_expr(src, 0).unwrap();
    assert_eq!(show(&value), "(if a {b})");
    assert_eq!(next, 10);
}

#[test]
fn after_else_a_block_must_follow() {
    let failure = parse_expr("if a { } else b", 0).unwrap_err();
    assert_eq!(failure.offset, 14);
    assert_eq!(failure.expected, Expected::Byte(b'{'));
    let failure = parse_expr("if a b", 0).unwrap_err();
    assert_eq!(failure.offset, 5);
    assert_eq!(failure.expected, Expected::Byte(b'{'));
}

#[test]
fn loops() {
    assert_eq!(expr("loop { a }"), "(loop {a})");
    assert_eq!(expr("while a < b { c }"), "(while (< a b) {c})");
    assert_eq!(expr("until done { step() }"), "(until done {(step)})");
    assert_eq!(expr("for x in xs { f(x) }"), "(for x in xs {(f x)})");
    assert_eq!(expr("for i in range(0, n) {}"), "(for i in (range 0 n) {})");
    let failure = parse_expr("for x of xs {}", 0).unwrap_err();
    assert_eq!(failure.offset, 6);
    assert_eq!(failure.expected, Expected::In);
}

#[test]
fn continue_takes_a_label_or_none() {
    assert_eq!(expr("continue"), "(continue '')");
    assert_eq!(expr("continue outer"), "(continue 'outer')");
    let (value, next) = parse_expr("continue\nouter", 0).unwrap();
    assert_eq!(show(&value), "(continue '')");
    assert_eq!(next, 8);
}

#[test]
fn break_takes_a_value_and_a_label_or_neither() {
    assert_eq!(expr("break"), "(break '')");
    assert_eq!(expr("break outer"), "(break 'outer')");
    assert_eq!(expr("break 5"), "(break 5 '')");
    assert_eq!(expr("break x + 1"), "(break (+ x 1) '')");
    assert_eq!(expr("break 5 outer"), "(break 5 'outer')");
    assert_eq!(expr("break x outer"), "(break x 'outer')");
    assert_eq!(expr("break (x)"), "(break 'x')");
    assert_eq!(expr("break f(x)"), "(break (f x) '')");
    let (value, next) = parse_expr("break }", 0).unwrap();
    assert_eq!(show(&value), "(break '')");
    assert_eq!(next, 5);
}

#[test]
fn an_empty_label_lies_in_the_source() {
    let src = String::from("loop { break }");
    let (value, _) = parse_expr(&src, 0).unwrap();
    match value {
        Expr::Loop(body) => match &body.0[0] {
            Stmt::Expr(inner) => match &**inner {
                Expr::Break(None, label) => {
                    assert!(label.is_empty());
                    let start = src.as_ptr() as usize;
                    let at = label.as_ptr() as usize;
                    assert_eq!(at - start, 12);
                }
                other => panic!("not a break: {:?}", other),
            },
            other => panic!("not an expression: {:?}", other),
        },
        other => panic!("not a loop: {:?}", other),
    }
}

#[test]
fn return_is_a_call() {
    assert_eq!(expr("return"), "(return)");
    assert_eq!(expr("return a + b"), "(return (+ a b))");
    let (value, next) = parse_expr("return // done", 0).unwrap();
    assert_eq!(show(&value), "(return)");
    assert_eq!(next, 6);
}

#[test]
fn assignments() {
    assert_eq!(stmt("x = 1"), "x = 1");
    assert_eq!(stmt("x: i64 = 1 + 2"), "x: i64 = (+ 1 2)");
    assert_eq!(stmt("x=1"), "x = 1");
    assert_eq!(stmt("x:i64=1"), "x: i64 = 1");
    assert_eq!(stmt("xs: Vec<i64> = #[]"), "xs: Vec<i64> = #[]");
    assert_eq!(stmt("x = if a { 1 } else { 2 }"), "x = (if a {1} else {2})");
    let failure = parse_stmt("x: i64 1", 0).unwrap_err();
    assert_eq!(failure.offset, 7);
    assert_eq!(failure.expected, Expected::Byte(b'='));
    let failure = parse_stmt("x = ", 0).unwrap_err();
    assert_eq!(failure.offset, 4);
}

#[test]
fn expression_statements() {
    assert_eq!(stmt("f(x)"), "(f x)");
    assert_eq!(stmt("x == 1"), "(== x 1)");
    assert_eq!(stmt("x += 1"), "(+= x 1)");
    assert_eq!(stmt("a.b *= c + d"), "(*= (. a b) (+ c d))");
    assert_eq!(stmt("x ^= 2"), "(^= x 2)");
    assert_eq!(stmt("x -= 1"), "(-= x 1)");
    assert_eq!(stmt("x /= 2"), "(/= x 2)");
    assert_eq!(stmt("x %= 2"), "(%= x 2)");
}

#[test]
fn comments_are_statements() {
    assert_eq!(stmt("// hello"), "// hello");
    assert_eq!(stmt("//"), "//");
    assert_eq!(stmt("// one\n// two\n  //three"), "// one twothree");
    match parse_stmt("// one\n// two", 0).unwrap().0 {
        Stmt::Comment(Comment::MultiLine(lines)) => assert_eq!(lines, vec![" one", " two"]),
        other => panic!("not a comment of two lines: {:?}", other),
    }
    match parse_stmt("// one\r\n\r\n// two", 0).unwrap() {
        (Stmt::Comment(Comment::SingleLine(line)), next) => {
            assert_eq!(line, " one");
            assert_eq!(next, 6);
        }
        other => panic!("not a comment of one line: {:?}", other),
    }
}

#[test]
fn blocks_hold_statements_line_by_line() {
    let (block, next) = parse_block("{}", 0).unwrap();
    assert!(block.0.is_empty());
    assert_eq!(next, 2);
    let src = "{\n  x = 1 // one\n\n  // two\n  f(x)\n}";
    let (block, next) = parse_block(src, 0).unwrap();
    assert_eq!(next, src.len());
    assert_eq!(show_block(&block), "{x = 1; // one; // two; (f x)}");
    let (block, _) = parse_block("{ a }", 0).unwrap();
    assert_eq!(show_block(&block), "{a}");
}

#[test]
fn two_statements_do_not_share_a_line() {
    let failure = parse_block("{ a b }", 0).unwrap_err();
    assert_eq!(failure.offset, 4);
    assert_eq!(failure.expected, Expected::LineEnd);
    let failure = parse_block("{ a", 0).unwrap_err();
    assert_eq!(failure.offset, 3);
    let failure = parse_block("a", 0).unwrap_err();
    assert_eq!(failure.offset, 0);
    assert_eq!(failure.expected, Expected::Byte(b'{'));
}

#[test]
fn parsing_starts_where_it_is_told() {
    let src = "é + b";
    let (value, next) = parse_expr(src, 5).unwrap();
    assert_eq!(show(&value), "b");
    assert_eq!(next, 6);
}
