use ub_parser::ast::{
    BinOpKind, ElsePart, Expr, ExprKind, File, Item, List, Literal, NodeId, ParserState, Stmt,
    TyKind, UnaryOpKind,
};
use ub_parser::token::{Span, SpannedToken, Token};
use ub_parser::grammar::EXPR_START;
use ub_parser::token::{BRACE_C, COLON, COMMA, EQ, IDENT, SEMI};
use ub_parser::literal::{parse_integer, string_contents};
use ub_parser::ast::MAX_NESTING;
use ub_parser::token::{INTEGER_IN_RANGE, SHALLOWER_NESTING};
use ub_parser::{parse, parse_with, Error};

fn lex(src: &str) -> Vec<SpannedToken> {
    let b = src.as_bytes();
    let mut out = Vec::new();
    let mut i = 0;
    while i < b.len() {
        let c = b[i];
        let start = i;
        if c.is_ascii_whitespace() {
            i += 1;
            continue;
        }
        if c == b'/' && i + 1 < b.len() && b[i + 1] == b'/' {
            while i < b.len() && b[i] != b'\n' {
                i += 1;
            }
            continue;
        }
        let token = if c.is_ascii_alphabetic() || c == b'_' {
            while i < b.len() && (b[i].is_ascii_alphanumeric() || b[i] == b'_') {
                i += 1;
            }
            match &src[start..i] {
                "fn" => Token::Fn,
                "struct" => Token::Struct,
                "if" => Token::If,
                "else" => Token::Else,
                "while" => Token::While,
                "let" => Token::Let,
                "ptr" => Token::Ptr,
                s => Token::Ident(s.to_string()),
            }
        } else if c.is_ascii_digit() {
            while i < b.len() && b[i].is_ascii_digit() {
                i += 1;
            }
            Token::Integer(src[start..i].to_string())
        } else if c == b'"' {
            i += 1;
            while i < b.len() && b[i] != b'"' {
                i += 1;
            }
            i += 1;
            Token::Str(src[start..i].to_string())
        } else {
            let two = if i + 1 < b.len() { &src[i..i + 2] } else { "" };
            let (tok, n) = match two {
                "==" => (Token::EqEq, 2),
                "!=" => (Token::BangEq, 2),
                "->" => (Token::Arrow, 2),
                _ => (
                    match c {
                        b'+' => Token::Plus,
                        b'-' => Token::Minus,
                        b'*' => Token::Asterisk,
                        b'/' => Token::Slash,
                        b'!' => Token::Bang,
                        b'&' => Token::Ampersand,
                        b'=' => Token::Eq,
                        b',' => Token::Comma,
                        b':' => Token::Colon,
                        b';' => Token::Semi,
                        b'(' => Token::ParenO,
                        b')' => Token::ParenC,
                        b'{' => Token::BraceO,
                        b'}' => Token::BraceC,
                        b'[' => Token::BracketO,
                        b']' => Token::BracketC,
                        _ => Token::Unknown,
                    },
                    1,
                ),
            };
            i += n;
            tok
        };
        out.push(SpannedToken { token, span: Span { start, end: i } });
    }
    out
}

fn run(src: &str) -> (Option<File>, Vec<Error>) {
    parse(&lex(src), src.len(), "uwu.ub".to_string())
}

fn run_nested(src: &str) -> (Option<File>, Vec<Error>) {
    parse_with(&lex(src), src.len(), "uwu.ub".to_string(), true)
}

fn to_vec<T>(l: &List<T>) -> Vec<&T> {
    let mut v = Vec::new();
    let mut cur = l;
    while let List::Cons(x, rest) = cur {
        v.push(&**x);
        cur = rest;
    }
    v
}

fn items(f: &File) -> Vec<&Item> {
    to_vec(&f.items)
}

/// The body of the only function of a file that parsed without errors.
fn body(src: &str) -> Vec<&'static Stmt> {
    let (file, errs) = run(src);
    assert!(errs.is_empty(), "{:?}", errs);
    let file: &'static File = Box::leak(Box::new(file.unwrap()));
    let its = items(file);
    assert_eq!(its.len(), 1);
    match its[0] {
        Item::FnDecl(f) => to_vec(&f.body),
        other => panic!("not a function: {:?}", other),
    }
}

fn expr_stmt(s: &Stmt) -> &Expr {
    match s {
        Stmt::Expr(e) => e,
        other => panic!("not an expression statement: {:?}", other),
    }
}

fn binop(e: &Expr) -> (BinOpKind, &Expr, &Expr) {
    match &e.kind {
        ExprKind::BinOp { kind, lhs, rhs } => (*kind, lhs, rhs),
        other => panic!("not a binary operation: {:?}", other),
    }
}

fn unop(e: &Expr) -> (UnaryOpKind, &Expr) {
    match &e.kind {
        ExprKind::UnaryOp { kind, expr } => (*kind, expr),
        other => panic!("not a unary operation: {:?}", other),
    }
}

fn int_of(e: &Expr) -> u64 {
    match &e.kind {
        ExprKind::Literal(Literal::Integer(n)) => *n,
        other => panic!("not an integer: {:?}", other),
    }
}

fn name(e: &Expr) -> &str {
    match &e.kind {
        ExprKind::Name(n) => n,
        other => panic!("not a name: {:?}", other),
    }
}

fn str_of(e: &Expr) -> String {
    match &e.kind {
        ExprKind::Literal(Literal::Str(l)) => to_vec(l).into_iter().collect(),
        other => panic!("not a string: {:?}", other),
    }
}

fn slice(src: &str, s: Span) -> &str {
    &src[s.start..s.end]
}

#[test]
fn addition() {
    let src = "fn main() { 1 + 4; }";
    let b = body(src);
    assert_eq!(b.len(), 1);
    let e = expr_stmt(b[0]);
    let (k, l, r) = binop(e);
    assert_eq!(k, BinOpKind::Add);
    assert_eq!((int_of(l), int_of(r)), (1, 4));
    assert_eq!((l.id, r.id, e.id), (NodeId(0), NodeId(1), NodeId(2)));
    assert_eq!(slice(src, e.span), "1 + 4");
    let (file, _) = run(src);
    match items(file.as_ref().unwrap())[0] {
        Item::FnDecl(f) => {
            assert_eq!(f.name, "main");
            assert_eq!(f.id, NodeId(3));
            assert_eq!(slice(src, f.span), src);
            assert!(f.ret_ty.is_none());
            assert_eq!(f.params, List::Nil);
        }
        _ => panic!(),
    }
}

#[test]
fn expression() {
    let b = body("fn main() { (4 / hallo()) + 5; }");
    let (k, l, r) = binop(expr_stmt(b[0]));
    assert_eq!(k, BinOpKind::Add);
    assert_eq!(int_of(r), 5);
    let (k2, l2, r2) = binop(l);
    assert_eq!(k2, BinOpKind::Div);
    assert_eq!(int_of(l2), 4);
    match &r2.kind {
        ExprKind::Call { callee, args } => {
            assert_eq!(name(callee), "hallo");
            assert_eq!(*args, List::Nil);
        }
        other => panic!("{:?}", other),
    }
}

#[test]
fn unary() {
    let b = body("fn main() {\n    -(*5);\n    &5;\n    2 + &8;\n    *6 * *8; // :)\n}");
    assert_eq!(b.len(), 4);
    let (k, inner) = unop(expr_stmt(b[0]));
    assert_eq!(k, UnaryOpKind::Neg);
    let (k, five) = unop(inner);
    assert_eq!(k, UnaryOpKind::Deref);
    assert_eq!(int_of(five), 5);
    let (k, five) = unop(expr_stmt(b[1]));
    assert_eq!((k, int_of(five)), (UnaryOpKind::AddrOf, 5));
    let (k, two, addr) = binop(expr_stmt(b[2]));
    assert_eq!((k, int_of(two)), (BinOpKind::Add, 2));
    let (k, eight) = unop(addr);
    assert_eq!((k, int_of(eight)), (UnaryOpKind::AddrOf, 8));
    let (k, l, r) = binop(expr_stmt(b[3]));
    assert_eq!(k, BinOpKind::Mul);
    assert_eq!(unop(l).0, UnaryOpKind::Deref);
    assert_eq!(unop(r).0, UnaryOpKind::Deref);
}

#[test]
fn function() {
    let src = "fn foo() -> u64 { 1 + 5; }";
    let (file, errs) = run(src);
    assert!(errs.is_empty());
    match items(file.as_ref().unwrap())[0] {
        Item::FnDecl(f) => {
            assert_eq!(f.name, "foo");
            let ret = f.ret_ty.as_ref().unwrap();
            assert_eq!(ret.kind, TyKind::Name("u64".to_string()));
            assert_eq!(slice(src, ret.span), "u64");
            assert_eq!(to_vec(&f.body).len(), 1);
        }
        _ => panic!(),
    }
}

#[test]
fn if_no_else() {
    let b = body("fn foo() -> u64 { if false {} }");
    match b[0] {
        Stmt::IfStmt(i) => {
            assert_eq!(name(&i.cond), "false");
            assert_eq!(i.body, List::Nil);
            assert!(i.else_part.is_none());
        }
        other => panic!("{:?}", other),
    }
}

#[test]
fn if_else() {
    let src = "fn foo() -> u64 { if false {} else {} }";
    let b = body(src);
    match b[0] {
        Stmt::IfStmt(i) => {
            assert_eq!(slice(src, i.span), "if false {} else {}");
            match &i.else_part {
                Some(ElsePart::Else(body, span)) => {
                    assert_eq!(*body, List::Nil);
                    assert_eq!(slice(src, *span), "{}");
                }
                other => panic!("{:?}", other),
            }
        }
        other => panic!("{:?}", other),
    }
}

#[test]
fn while_loop() {
    let src = "fn foo() -> u64 { while false {} }";
    match body(src)[0] {
        Stmt::WhileStmt(w) => {
            assert_eq!(name(&w.cond), "false");
            assert_eq!(w.body, List::Nil);
            assert_eq!(slice(src, w.span), "while false {}");
        }
        other => panic!("{:?}", other),
    }
}

#[test]
fn var_decl() {
    let src = "fn foo() -> u64 { let hello: u64 = 5; let owo = 0; let nice: u64; let nothing; }";
    let b = body(src);
    assert_eq!(b.len(), 4);
    let decls: Vec<_> = b
        .iter()
        .map(|s| match s {
            Stmt::VarDecl(d) => d,
            other => panic!("{:?}", other),
        })
        .collect();
    assert_eq!(decls[0].name, "hello");
    assert_eq!(decls[0].ty.as_ref().unwrap().kind, TyKind::Name("u64".to_string()));
    assert_eq!(int_of(decls[0].rhs.as_ref().unwrap()), 5);
    assert_eq!(slice(src, decls[0].span), "let hello: u64 = 5;");
    assert_eq!(decls[1].name, "owo");
    assert!(decls[1].ty.is_none());
    assert_eq!(int_of(decls[1].rhs.as_ref().unwrap()), 0);
    assert_eq!(decls[2].name, "nice");
    assert!(decls[2].ty.is_some() && decls[2].rhs.is_none());
    assert_eq!(decls[3].name, "nothing");
    assert!(decls[3].ty.is_none() && decls[3].rhs.is_none());
}

#[test]
fn struct_() {
    let src = "struct X { y: u64, x: u64 }";
    let (file, errs) = run(src);
    assert!(errs.is_empty());
    match items(file.as_ref().unwrap())[0] {
        Item::StructDecl(s) => {
            assert_eq!(s.name, "X");
            let fields = to_vec(&s.fields);
            assert_eq!(fields.len(), 2);
            assert_eq!(fields[0].name, "y");
            assert_eq!(fields[1].name, "x");
            assert_eq!(slice(src, fields[0].span), "y: u64");
            assert_eq!((fields[0].id, fields[1].id, s.id), (NodeId(0), NodeId(1), NodeId(2)));
            assert_eq!(slice(src, s.span), src);
        }
        _ => panic!(),
    }
}

#[test]
fn types() {
    let src = "fn types() -> ptr u64 { let test: Test = 2; let int: ptr u64 = 25; }";
    let (file, errs) = run(src);
    assert!(errs.is_empty());
    match items(file.as_ref().unwrap())[0] {
        Item::FnDecl(f) => {
            let ret = f.ret_ty.as_ref().unwrap();
            assert_eq!(slice(src, ret.span), "ptr u64");
            match &ret.kind {
                TyKind::Ptr(inner) => assert_eq!(inner.kind, TyKind::Name("u64".to_string())),
                other => panic!("{:?}", other),
            }
            let b = to_vec(&f.body);
            match b[1] {
                Stmt::VarDecl(d) => {
                    assert_eq!(d.name, "int");
                    assert!(matches!(d.ty.as_ref().unwrap().kind, TyKind::Ptr(_)));
                    assert_eq!(int_of(d.rhs.as_ref().unwrap()), 25);
                }
                other => panic!("{:?}", other),
            }
        }
        _ => panic!(),
    }
}

#[test]
fn parser_var_decl() {
    // The type-first declaration form is not part of this grammar.
    let src = "fn foo() -> u64 { u64 hello = 5; }";
    let (file, errs) = run(src);
    assert!(file.is_none());
    assert_eq!(errs.len(), 1);
    assert_eq!(slice(src, errs[0].span), "hello");
    assert_eq!(errs[0].expected, SEMI | EQ);
}

#[test]
fn parser_types() {
    let src = "fn types() -> ptr u64 { Test test = 2; ptr u64 int = 25; }";
    let (file, errs) = run(src);
    assert!(file.is_none());
    assert_eq!(errs.len(), 1);
    assert_eq!(errs[0].found, Some(Token::Ident("test".to_string())));
}

#[test]
fn nested_function() {
    let src = "fn foo() { fn foo2() {} fn foo3() {} }";
    let (file, errs) = run_nested(src);
    assert!(errs.is_empty());
    match items(file.as_ref().unwrap())[0] {
        Item::FnDecl(f) => {
            let b = to_vec(&f.body);
            assert_eq!(b.len(), 2);
            match b[1] {
                Stmt::Item(i) => match &**i {
                    Item::FnDecl(g) => assert_eq!(g.name, "foo3"),
                    _ => panic!(),
                },
                other => panic!("{:?}", other),
            }
        }
        _ => panic!(),
    }
    // Without local functions, the inner `fn` is no statement.
    let (_, errs) = run(src);
    assert!(!errs.is_empty());
}

#[test]
fn nested_function2() {
    let (file, errs) = run_nested("fn foo() { fn foo2() {} 1 + 5; }");
    assert!(errs.is_empty());
    match items(file.as_ref().unwrap())[0] {
        Item::FnDecl(f) => {
            let b = to_vec(&f.body);
            assert!(matches!(b[0], Stmt::Item(_)));
            assert_eq!(binop(expr_stmt(b[1])).0, BinOpKind::Add);
        }
        _ => panic!(),
    }
}

#[test]
fn product_binds_tighter_than_sum() {
    let b = body("fn m() { a + b * c; a == b + c; a - b - c; }");
    let (k, a, bc) = binop(expr_stmt(b[0]));
    assert_eq!((k, name(a)), (BinOpKind::Add, "a"));
    let (k, x, y) = binop(bc);
    assert_eq!((k, name(x), name(y)), (BinOpKind::Mul, "b", "c"));
    let (k, a, bc) = binop(expr_stmt(b[1]));
    assert_eq!((k, name(a)), (BinOpKind::Eq, "a"));
    assert_eq!(binop(bc).0, BinOpKind::Add);
    let (k, ab, c) = binop(expr_stmt(b[2]));
    assert_eq!((k, name(c)), (BinOpKind::Sub, "c"));
    let (k, x, y) = binop(ab);
    assert_eq!((k, name(x), name(y)), (BinOpKind::Sub, "a", "b"));
}

#[test]
fn nested_calls() {
    let src = "fn m() { f()(); g(1, 2); }";
    let b = body(src);
    let outer = expr_stmt(b[0]);
    match &outer.kind {
        ExprKind::Call { callee, args } => {
            assert_eq!(*args, List::Nil);
            match &callee.kind {
                ExprKind::Call { callee: f, args } => {
                    assert_eq!(name(f), "f");
                    assert_eq!(*args, List::Nil);
                }
                other => panic!("{:?}", other),
            }
            assert_eq!(slice(src, callee.span), "f");
        }
        other => panic!("{:?}", other),
    }
    assert_eq!(slice(src, outer.span), "f");
    assert_eq!(slice(src, expr_stmt(b[1]).span), "g(1, 2");
}

#[test]
fn unary_binds_tighter_than_product() {
    let b = body("fn m() { *a * *b; -2 * 3; }");
    let (k, l, r) = binop(expr_stmt(b[0]));
    assert_eq!(k, BinOpKind::Mul);
    assert_eq!((unop(l).0, name(unop(l).1)), (UnaryOpKind::Deref, "a"));
    assert_eq!((unop(r).0, name(unop(r).1)), (UnaryOpKind::Deref, "b"));
    let (k, l, _) = binop(expr_stmt(b[1]));
    assert_eq!(k, BinOpKind::Mul);
    assert_eq!(unop(l).0, UnaryOpKind::Neg);
}

#[test]
fn else_if_chain() {
    let b = body("fn m() { if a {} else if b {} else {} }");
    match b[0] {
        Stmt::IfStmt(i) => match &i.else_part {
            Some(ElsePart::ElseIf(j)) => {
                assert_eq!(name(&j.cond), "b");
                assert!(matches!(j.else_part, Some(ElsePart::Else(List::Nil, _))));
            }
            other => panic!("{:?}", other),
        },
        other => panic!("{:?}", other),
    }
}

#[test]
fn missing_semicolon_recovers_at_next_item() {
    let src = "fn a() { 1 + 2 } fn b() {}";
    let (file, errs) = run(src);
    assert_eq!(errs.len(), 1);
    assert_eq!(errs[0].span, Span { start: 15, end: 16 });
    assert_eq!(errs[0].found, Some(Token::BraceC));
    assert_eq!(errs[0].expected, SEMI | EQ);
    let file = file.unwrap();
    let its = items(&file);
    assert_eq!(its.len(), 1);
    match its[0] {
        Item::FnDecl(f) => assert_eq!(f.name, "b"),
        _ => panic!(),
    }
}

#[test]
fn array_literals() {
    let b = body("fn m() { [1, 2, 3,]; []; [4]; }");
    match &expr_stmt(b[0]).kind {
        ExprKind::Array(l) => {
            let v: Vec<u64> = to_vec(l).into_iter().map(int_of).collect();
            assert_eq!(v, vec![1, 2, 3]);
        }
        other => panic!("{:?}", other),
    }
    assert_eq!(expr_stmt(b[1]).kind, ExprKind::Array(List::Nil));
    match &expr_stmt(b[2]).kind {
        ExprKind::Array(l) => assert_eq!(to_vec(l).len(), 1),
        other => panic!("{:?}", other),
    }
}

#[test]
fn struct_fields_keep_order() {
    let (file, _) = run("struct X { y: u64, x: u64 } struct E {}");
    let file = file.unwrap();
    let its = items(&file);
    match its[0] {
        Item::StructDecl(s) => {
            let names: Vec<&str> = to_vec(&s.fields).iter().map(|f| f.name.as_str()).collect();
            assert_eq!(names, vec!["y", "x"]);
        }
        _ => panic!(),
    }
    match its[1] {
        Item::StructDecl(s) => assert_eq!(s.fields, List::Nil),
        _ => panic!(),
    }
}

#[test]
fn struct_rejects_trailing_comma() {
    let src = "struct X { y: u64, }";
    let (file, errs) = run(src);
    assert!(file.is_none());
    assert_eq!(errs.len(), 1);
    assert_eq!(errs[0].expected, IDENT);
    assert_eq!(errs[0].found, Some(Token::BraceC));
}

#[test]
fn spans_reproduce_source() {
    let src = "fn f(a: u64, b: ptr X,) -> u64 { let x: ptr u64 = [a, b]; x = \"hi\"; }";
    let (file, errs) = run(src);
    assert!(errs.is_empty());
    match items(file.as_ref().unwrap())[0] {
        Item::FnDecl(f) => {
            assert_eq!(slice(src, f.span), src);
            let params = to_vec(&f.params);
            assert_eq!(slice(src, params[1].span), "b: ptr X");
            let b = to_vec(&f.body);
            match b[0] {
                Stmt::VarDecl(d) => {
                    assert_eq!(slice(src, d.span), "let x: ptr u64 = [a, b];");
                    assert_eq!(slice(src, d.rhs.as_ref().unwrap().span), "[a, b]");
                }
                other => panic!("{:?}", other),
            }
            match b[1] {
                Stmt::Assignment(a) => {
                    assert_eq!(slice(src, a.span), "x = \"hi\";");
                    assert_eq!(str_of(&a.rhs), "h");
                }
                other => panic!("{:?}", other),
            }
        }
        _ => panic!(),
    }
}

#[test]
fn parsing_twice_gives_the_same_result() {
    let src = "fn main() { let a = f(1, [2]) == -x; if a { a = 1; } else { } } struct S { s: S }";
    let first = run(src);
    let second = run(src);
    assert_eq!(first, second);
    let bad = "fn main() { 1 } struct";
    assert_eq!(run(bad), run(bad));
}

#[test]
fn empty_input_is_an_empty_file() {
    let (file, errs) = run("");
    assert!(errs.is_empty());
    let file = file.unwrap();
    assert_eq!(file.name, "uwu.ub");
    assert_eq!(file.items, List::Nil);
}

#[test]
fn nothing_parsable_gives_no_file() {
    let src = "1 + 2;";
    let (file, errs) = run(src);
    assert!(file.is_none());
    assert_eq!(errs.len(), 1);
    assert_eq!(errs[0].span, Span { start: 0, end: 1 });
    assert_eq!(errs[0].found, Some(Token::Integer("1".to_string())));
}

#[test]
fn failure_at_end_of_input() {
    let src = "fn main() { x";
    let (file, errs) = run(src);
    assert!(file.is_none());
    assert_eq!(errs.len(), 1);
    assert_eq!(errs[0].span, Span { start: src.len(), end: src.len() });
    assert_eq!(errs[0].found, None);
    assert_eq!(errs[0].expected, SEMI | EQ);
}

#[test]
fn missing_block_close_expects_statement_or_brace() {
    let src = "fn main() { let x = 1;";
    let (_, errs) = run(src);
    assert_eq!(errs.len(), 1);
    assert_eq!(errs[0].expected & BRACE_C, BRACE_C);
    assert_eq!(errs[0].expected & EXPR_START, EXPR_START);
}

#[test]
fn missing_colon_in_field() {
    let (_, errs) = run("struct X { y u64 }");
    assert_eq!(errs.len(), 1);
    assert_eq!(errs[0].expected, COLON);
    let (_, errs) = run("fn f(a: u64 b: u64) {}");
    assert_eq!(errs[0].expected, COMMA | ub_parser::token::PAREN_C);
}

#[test]
fn node_ids_run_out() {
    let mut st = ParserState { next: u64::MAX - 1, depth: 0 };
    assert_eq!(st.next_id(), Some(NodeId(u64::MAX - 1)));
    assert_eq!(st.next_id(), None);
    let mut st = ParserState::new();
    assert_eq!(st.next_id(), Some(NodeId(0)));
    assert_eq!(st.next_id(), Some(NodeId(1)));
}

#[test]
fn integer_literal_values() {
    assert_eq!(parse_integer("0"), Some(0));
    assert_eq!(parse_integer("25"), Some(25));
    assert_eq!(parse_integer("007"), Some(7));
    assert_eq!(parse_integer("18446744073709551615"), Some(u64::MAX));
    assert_eq!(parse_integer("18446744073709551616"), None);
    assert_eq!(parse_integer("99999999999999999999"), None);
    assert_eq!(parse_integer(""), None);
    assert_eq!(parse_integer("12a"), None);
}

#[test]
fn out_of_range_literal_is_reported() {
    let src = "fn a() { 99999999999999999999; } fn b() { 18446744073709551615; }";
    let (file, errs) = run(src);
    assert_eq!(errs.len(), 1);
    assert_eq!(errs[0].expected & INTEGER_IN_RANGE, INTEGER_IN_RANGE);
    assert_eq!(errs[0].found, Some(Token::Integer("99999999999999999999".to_string())));
    assert_eq!(slice(src, errs[0].span), "99999999999999999999");
    let file = file.unwrap();
    match items(&file)[0] {
        Item::FnDecl(f) => {
            assert_eq!(f.name, "b");
            assert_eq!(int_of(expr_stmt(to_vec(&f.body)[0])), u64::MAX);
        }
        _ => panic!(),
    }
}

#[test]
fn string_literal_contents() {
    assert_eq!(string_contents("\"hello\""), "hell");
    assert_eq!(string_contents("'ab;;"), "ab");
    assert_eq!(string_contents("\"\""), "");
    assert_eq!(string_contents("\"é\u{e9}\""), "é");
}

fn expr_ids(e: &Expr, out: &mut Vec<u64>) {
    match &e.kind {
        ExprKind::Literal(_) | ExprKind::Name(_) => {}
        ExprKind::Array(l) => to_vec(l).into_iter().for_each(|x| expr_ids(x, out)),
        ExprKind::Call { callee, args } => {
            expr_ids(callee, out);
            to_vec(args).into_iter().for_each(|x| expr_ids(x, out));
        }
        ExprKind::UnaryOp { expr, .. } => expr_ids(expr, out),
        ExprKind::BinOp { lhs, rhs, .. } => {
            expr_ids(lhs, out);
            expr_ids(rhs, out);
        }
    }
    out.push(e.id.0);
}

#[test]
fn node_ids_count_up_in_build_order() {
    let src = "fn main(a: u64) { let x = f(1, [2]) == -y; x = *a * b; } struct S { s: S, t: T }";
    let (file, errs) = run(src);
    assert!(errs.is_empty());
    let file = file.unwrap();
    let mut ids = Vec::new();
    for it in items(&file) {
        match it {
            Item::FnDecl(f) => {
                to_vec(&f.params).iter().for_each(|p| ids.push(p.id.0));
                for s in to_vec(&f.body) {
                    match s {
                        Stmt::VarDecl(d) => expr_ids(d.rhs.as_ref().unwrap(), &mut ids),
                        Stmt::Assignment(a) => {
                            expr_ids(&a.place, &mut ids);
                            expr_ids(&a.rhs, &mut ids);
                        }
                        other => panic!("{:?}", other),
                    }
                }
                ids.push(f.id.0);
            }
            Item::StructDecl(s) => {
                to_vec(&s.fields).iter().for_each(|p| ids.push(p.id.0));
                ids.push(s.id.0);
            }
        }
    }
    assert_eq!(ids, (0..ids.len() as u64).collect::<Vec<_>>());
    assert_eq!(ids.len(), 18);
}

#[test]
fn long_flat_input() {
    let mut src = String::from("fn main() { ");
    for i in 0..3000 {
        src.push_str(&format!("x{} = a + b + c + f({}, 2, 3); ", i, i));
    }
    src.push_str("} ");
    for i in 0..500 {
        src.push_str(&format!("struct S{} {{ a: u64 }} ", i));
    }
    let (file, errs) = run(&src);
    assert!(errs.is_empty());
    let file = file.unwrap();
    assert_eq!(items(&file).len(), 501);
    match items(&file)[0] {
        Item::FnDecl(f) => assert_eq!(to_vec(&f.body).len(), 3000),
        _ => panic!(),
    }
}

#[test]
fn deep_nesting() {
    // The function body is one level; the parentheses fill the rest.
    let depth = MAX_NESTING as usize - 1;
    let src = format!("fn main() {{ {}1{}; }}", "(".repeat(depth), ")".repeat(depth));
    let b = body(Box::leak(src.into_boxed_str()));
    assert_eq!(int_of(expr_stmt(b[0])), 1);
}

#[test]
fn too_deep_nesting_is_reported() {
    let depth = MAX_NESTING as usize;
    let src = format!("fn main() {{ {}1{}; }} struct S {{}}", "(".repeat(depth), ")".repeat(depth));
    let (file, errs) = run(&src);
    assert_eq!(errs.len(), 1);
    assert_eq!(errs[0].expected, SHALLOWER_NESTING);
    assert_eq!(errs[0].span, Span { start: 12 + depth - 1, end: 12 + depth });
    assert_eq!(items(file.as_ref().unwrap()).len(), 1);
    let src = format!("fn main() -> {}u64 {{}}", "ptr ".repeat(depth + 1));
    let (file, errs) = run(&src);
    assert!(file.is_none());
    assert_eq!(errs[0].expected, SHALLOWER_NESTING);
    let src = format!("fn main() {{ {}x; }}", "-".repeat(depth));
    let (_, errs) = run(&src);
    assert_eq!(errs[0].expected, SHALLOWER_NESTING);
    let src = format!("fn main() {{ {}x; }}", "-".repeat(depth - 1));
    let (_, errs) = run(&src);
    assert!(errs.is_empty());
}

#[test]
fn expression_start_set() {
    let (_, errs) = run("fn main() { 1 + ; }");
    assert_eq!(errs.len(), 1);
    assert_eq!(errs[0].found, Some(Token::Semi));
    for k in [IDENT, ub_parser::token::INTEGER, ub_parser::token::STRING, ub_parser::token::MINUS, ub_parser::token::PAREN_O, ub_parser::token::BRACKET_O] {
        assert_eq!(errs[0].expected & k, k);
    }
    assert_eq!(errs[0].expected & SEMI, 0);
}

#[test]
fn string_literal_in_tree_is_trimmed() {
    let b = body("fn m() { \"hi\"; \"hello\"; \"\"; }");
    assert_eq!(str_of(expr_stmt(b[0])), "h");
    assert_eq!(str_of(expr_stmt(b[1])), "hell");
    assert_eq!(str_of(expr_stmt(b[2])), "");
    let toks = vec![SpannedToken { token: Token::Str("\"hi\"".to_string()), span: Span { start: 0, end: 4 } }];
    match ub_parser::parser::expr(&toks, 0, ParserState::new()) {
        Ok(p) => assert_eq!(str_of(&p.node), "h"),
        Err(f) => panic!("{:?}", f),
    }
}

#[test]
fn unknown_text_is_reported_and_skipped() {
    let src = "fn a() { x = 1 # 2; } fn b() {}";
    let (file, errs) = run(src);
    assert_eq!(errs.len(), 1);
    assert_eq!(errs[0].found, Some(Token::Unknown));
    assert_eq!(slice(src, errs[0].span), "#");
    match items(file.as_ref().unwrap())[0] {
        Item::FnDecl(f) => assert_eq!(f.name, "b"),
        _ => panic!(),
    }
}

#[test]
fn long_else_if_chain_is_limited() {
    let chain = |n: usize| {
        let mut s = String::from("fn m() { if a {}");
        for _ in 0..n {
            s.push_str(" else if a {}");
        }
        s.push_str(" }");
        s
    };
    // The body takes one level, each link one more, and the last link's block one more.
    let (_, errs) = run(&chain(MAX_NESTING as usize - 2));
    assert!(errs.is_empty());
    let (file, errs) = run(&chain(MAX_NESTING as usize - 1));
    assert!(file.is_none());
    assert_eq!(errs.len(), 1);
    assert_eq!(errs[0].expected, SHALLOWER_NESTING);
}
