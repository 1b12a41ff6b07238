use tinhir::decl::{parse_fn_decl, parse_params, parse_top, parse_ty_decl, parse_variant};
use tinhir::{
    parse_with_errors, Expected, Fields, Ident, TopStmt, Ty, TyDecl, TyIdent, TyVariant,
};

fn named<'a>(fields: &'a Fields<'a>) -> Vec<(&'a str, &'a str)> {
    match fields {
        Fields::Named(fields) => fields.iter().map(|f| (f.ident.0, f.ty.0)).collect(),
        other => panic!("not named: {:?}", other),
    }
}

fn anonymous<'a>(fields: &'a Fields<'a>) -> Vec<&'a str> {
    match fields {
        Fields::Anonymous(types) => types.iter().map(|t| t.0).collect(),
        other => panic!("not anonymous: {:?}", other),
    }
}

#[test]
fn function_arguments_in_source_order() {
    let src = " add(a: i64, b: f64, c: Vec<u8>) -> i64 {}";
    let (decl, next) = parse_fn_decl(src, 0).unwrap();
    assert_eq!(next, src.len());
    assert_eq!(decl.name.0, "add");
    let args: Vec<(&str, &str)> = decl.args.iter().map(|a| (a.ident.0, a.ty.0)).collect();
    assert_eq!(args, vec![("a", "i64"), ("b", "f64"), ("c", "Vec<u8>")]);
    assert_eq!(decl.ret_ty.map(|t| t.0), Some("i64"));
    assert!(decl.body.0.is_empty());
}

#[test]
fn as_many_arguments_as_were_written() {
    for n in 0..6usize {
        let params: Vec<String> = (0..n).map(|k| format!("a{}: T{}", k, k)).collect();
        let src = format!("{})", params.join(", "));
        let (args, next) = parse_params(&src, 0).unwrap();
        assert_eq!(next, src.len());
        assert_eq!(args.len(), n);
        for (k, arg) in args.iter().enumerate() {
            assert_eq!(arg.ident.0, format!("a{}", k));
            assert_eq!(arg.ty.0, format!("T{}", k));
        }
    }
}

#[test]
fn function_without_arguments_or_return_type() {
    let (decl, _) = parse_fn_decl(" main() {\n  f()\n}", 0).unwrap();
    assert_eq!(decl.name.0, "main");
    assert!(decl.args.is_empty());
    assert!(decl.ret_ty.is_none());
    assert_eq!(decl.body.0.len(), 1);
    let (decl, _) = parse_fn_decl(" f(\n  a : i64 ,\n  b:i64\n)->i64{}", 0).unwrap();
    assert_eq!(decl.args.len(), 2);
    assert_eq!(decl.ret_ty.map(|t| t.0), Some("i64"));
}

#[test]
fn malformed_functions() {
    for (src, offset, expected) in [
        (" (a: i64) {}", 1, Expected::Identifier),
        (" f {}", 2, Expected::Byte(b'(')),
        (" f(a) {}", 4, Expected::Byte(b':')),
        (" f(a: ) {}", 6, Expected::Identifier),
        (" f(a: i64 b: i64) {}", 10, Expected::Byte(b')')),
        (" f(a: i64,) {}", 10, Expected::Identifier),
        (" f() -> {}", 8, Expected::Identifier),
        (" f() -> i64", 11, Expected::Byte(b'{')),
        (" f()", 4, Expected::Byte(b'{')),
        (" if() {}", 1, Expected::Identifier),
    ] {
        let failure = parse_fn_decl(src, 0).unwrap_err();
        assert_eq!((failure.offset, failure.expected), (offset, expected), "{:?}", src);
    }
}

#[test]
fn one_unnamed_variant_parses() {
    let (decl, next) = parse_ty_decl(" (i64, f64)", 0).unwrap();
    assert_eq!(next, 11);
    assert_eq!(decl.0.len(), 1);
    assert!(decl.0[0].name.is_none());
    assert_eq!(anonymous(&decl.0[0].fields), vec!["i64", "f64"]);
    let (decl, _) = parse_ty_decl(" (x: i64, y: i64)", 0).unwrap();
    assert!(decl.0[0].name.is_none());
    assert_eq!(named(&decl.0[0].fields), vec![("x", "i64"), ("y", "i64")]);
    let (decl, _) = parse_ty_decl(" ()", 0).unwrap();
    assert!(anonymous(&decl.0[0].fields).is_empty());
}

#[test]
fn one_named_variant_parses() {
    let (decl, _) = parse_ty_decl(" Point(x: i64, y: i64)", 0).unwrap();
    assert_eq!(decl.0.len(), 1);
    assert_eq!(decl.0[0].name.map(|n| n.0), Some("Point"));
    let (decl, _) = parse_ty_decl(" Unit", 0).unwrap();
    assert_eq!(decl.0[0].name.map(|n| n.0), Some("Unit"));
    assert!(anonymous(&decl.0[0].fields).is_empty());
}

#[test]
fn several_variants_need_names() {
    let (decl, _) = parse_ty_decl(" Some(T) | None", 0).unwrap();
    assert_eq!(decl.0.len(), 2);
    let (decl, _) = parse_ty_decl(" A(a: X)\n  | B(Y, Z)\n  | C", 0).unwrap();
    assert_eq!(decl.0.len(), 3);
    assert_eq!(named(&decl.0[0].fields), vec![("a", "X")]);
    assert_eq!(anonymous(&decl.0[1].fields), vec!["Y", "Z"]);
    for src in [" (i64) | None", " Some(T) | ()", " A | (x: T) | C", " () | ()"] {
        let failure = parse_ty_decl(src, 0).unwrap_err();
        assert_eq!(failure.offset, 0, "{:?}", src);
        assert_eq!(failure.expected, Expected::VariantName, "{:?}", src);
    }
}

#[test]
fn mixed_fields_fail() {
    for (src, offset) in [
        ("(x: i64, f64)", 0),
        ("(i64, y: f64)", 0),
        ("P(a: A, b: B, C)", 1),
    ] {
        let failure = parse_variant(src, 0).unwrap_err();
        assert_eq!(failure.offset, offset, "{:?}", src);
        assert_eq!(failure.expected, Expected::UniformFields, "{:?}", src);
    }
    let failure = parse_ty_decl(" A(x: i64, f64) | B", 0).unwrap_err();
    assert_eq!(failure.expected, Expected::UniformFields);
    assert!(parse_with_errors("type (x: i64, f64)\nfn main() {}\n").is_err());
}

#[test]
fn fields_are_made_from_their_parts() {
    let x = TyIdent { ident: Ident("x"), ty: Ty("i64") };
    assert!(matches!(Fields::from_parts(vec![x], vec![]), Some(Fields::Named(f)) if f.len() == 1));
    assert!(matches!(
        Fields::from_parts(vec![], vec![Ty("i64")]),
        Some(Fields::Anonymous(t)) if t.len() == 1
    ));
    assert!(matches!(Fields::from_parts(vec![], vec![]), Some(Fields::Anonymous(t)) if t.is_empty()));
    assert!(Fields::from_parts(vec![x], vec![Ty("f64")]).is_none());
}

#[test]
fn type_declarations_are_made_of_well_named_variants() {
    let unnamed = || TyVariant { name: None, fields: Fields::Anonymous(vec![]) };
    let with_name = |name| TyVariant { name: Some(Ident(name)), fields: Fields::Anonymous(vec![]) };
    assert!(TyDecl::new(vec![]).is_none());
    assert!(TyDecl::new(vec![unnamed()]).is_some());
    assert!(TyDecl::new(vec![with_name("A")]).is_some());
    assert!(TyDecl::new(vec![with_name("A"), with_name("B")]).is_some());
    assert!(TyDecl::new(vec![with_name("A"), unnamed()]).is_none());
    assert!(TyDecl::new(vec![unnamed(), with_name("B"), with_name("C")]).is_none());
}

#[test]
fn top_level_statements() {
    assert!(matches!(parse_top("use a/b/*", 0), Ok((TopStmt::Use(g), 9)) if g.0 == "a/b/*"));
    assert!(matches!(parse_top("use   a.b", 0), Ok((TopStmt::Use(g), _)) if g.0 == "a.b"));
    assert!(matches!(parse_top("// note", 0), Ok((TopStmt::Comment(_), 7))));
    assert!(matches!(parse_top("fn f() {}", 0), Ok((TopStmt::FnDecl(_), 9))));
    assert!(matches!(parse_top("type A | B", 0), Ok((TopStmt::TyDecl(_), 10))));
    for (src, offset, expected) in [
        ("x = 1", 0, Expected::Declaration),
        ("f()", 0, Expected::Declaration),
        ("use", 3, Expected::PathGlob),
        ("use \"a\"", 4, Expected::PathGlob),
        ("fnf() {}", 0, Expected::Declaration),
        ("types A", 0, Expected::Declaration),
    ] {
        let failure = parse_top(src, 0).unwrap_err();
        assert_eq!((failure.offset, failure.expected), (offset, expected), "{:?}", src);
    }
}

#[test]
fn declarations_do_not_share_a_line() {
    let failure = parse_with_errors("fn main() {} fn f() {}").unwrap_err();
    assert_eq!(failure.offset, 13);
    assert_eq!(failure.expected, Expected::LineEnd);
    assert!(parse_with_errors("fn main() {} // the entry\n").is_ok());
    assert!(parse_with_errors("\n\n  fn main() {}\r\n\r\n").is_ok());
}
