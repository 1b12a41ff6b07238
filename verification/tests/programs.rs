use tinhir::{parse, parse_with_errors, Error, Expected, Expr, Stmt, TopStmt};

#[test]
fn smallest_program() {
    let program = parse("fn main() {}").expect("a program");
    let statements = program.statements();
    assert_eq!(statements.len(), 1);
    match &statements[0] {
        TopStmt::FnDecl(decl) => {
            assert_eq!(decl.name.0, "main");
            assert!(decl.args.is_empty());
            assert!(decl.ret_ty.is_none());
            assert!(decl.body.0.is_empty());
        }
        other => panic!("not a function: {:?}", other),
    }
}

#[test]
fn a_program_needs_main() {
    assert!(matches!(parse(""), Err(Error::ParseFailed)));
    let failure = parse_with_errors("fn other() {}\n").unwrap_err();
    assert_eq!(failure.expected, Expected::Main);
    assert_eq!(failure.offset, 14);
    let failure = parse_with_errors("fn main() {}\nfn main() {}\n").unwrap_err();
    assert_eq!(failure.expected, Expected::Main);
}

#[test]
fn a_whole_program() {
    let src = "\
// A small program.
// It adds numbers.
use std/io
use math.*

type Point(x: i64, y: i64)
type Some(i64) | None

fn add(a: i64, b: i64) -> i64 {
    return a + b
}

fn main() {
    total: i64 = 0
    for i in range(1, 10) {
        total += add(i, 2 * i ^ 2)
    }
    if total > 100 and not done {
        print(\"big\")
    } else unless total == 0 {
        print(:small)
    } else {
        break
    }
}
";
    let program = parse(src).expect("a program");
    let statements = program.statements();
    assert_eq!(statements.len(), 7);
    assert!(matches!(&statements[0], TopStmt::Comment(_)));
    assert!(matches!(&statements[1], TopStmt::Use(glob) if glob.0 == "std/io"));
    assert!(matches!(&statements[2], TopStmt::Use(glob) if glob.0 == "math.*"));
    assert!(matches!(&statements[3], TopStmt::TyDecl(decl) if decl.0.len() == 1));
    assert!(matches!(&statements[4], TopStmt::TyDecl(decl) if decl.0.len() == 2));
    match &statements[6] {
        TopStmt::FnDecl(decl) => {
            assert_eq!(decl.name.0, "main");
            assert_eq!(decl.body.0.len(), 3);
            assert!(matches!(&decl.body.0[0], Stmt::VarAssign(a) if a.name.0 == "total"));
            assert!(matches!(&decl.body.0[1], Stmt::Expr(e) if matches!(**e, Expr::For(..))));
            assert!(matches!(&decl.body.0[2], Stmt::Expr(e) if matches!(**e, Expr::If(..))));
        }
        other => panic!("not a function: {:?}", other),
    }
}
