//! The executable parser: each rule is proved to return exactly what the rule of
//! the same name in `grammar` gives.
use vstd::prelude::*;

use crate::ast::{
    fresh, lemma_prepend_elems, lemma_prepend_push, prepend, prepend_vec, Assignment, BinOpKind,
    ElsePart, Expr, ExprKind, File, FnDecl, IfStmt, Item, List, Literal, NameTyPair, NodeId,
    ParserState, MAX_NESTING, Stmt, StructDecl, Ty, TyKind, UnaryOpKind, VarDecl, WhileStmt,
};
use crate::grammar;
use crate::grammar::{
    Error, Failure, Outcome, Parsed, EXPR_START, ITEM_START, STMT_KEYWORDS, TY_START,
};
use crate::literal::{parse_integer, string_chars};
use crate::token::{
    Span, SpannedToken, Token, AMPERSAND, ARROW, ASTERISK, BANG, BANG_EQ, BRACE_C, BRACE_O,
    BRACKET_C, COLON, COMMA, ELSE, EQ, EQ_EQ, FN, IDENT, IF, INTEGER_IN_RANGE, LET, MINUS,
    PAREN_C, PAREN_O, PLUS, SEMI, SHALLOWER_NESTING, SLASH, STRUCT, WHILE,
};

verus! {

fn kind_at(t: &Vec<SpannedToken>, pos: usize) -> (r: u64)
    ensures
        r == grammar::kind_at(t@, pos),
{
    if pos < t.len() {
        t[pos].token.kind()
    } else {
        0
    }
}

fn expect(t: &Vec<SpannedToken>, pos: usize, k: u64) -> (r: Result<usize, Failure>)
    ensures
        r == grammar::expect(t@, pos, k),
{
    if pos < t.len() && t[pos].token.kind() == k {
        Ok(pos + 1)
    } else {
        Err(Failure { pos, expected: k })
    }
}

fn fresh_id(st: ParserState) -> (r: Option<(NodeId, ParserState)>)
    ensures
        r == fresh(st),
{
    let mut s = st;
    match s.next_id() {
        Some(id) => Some((id, s)),
        None => None,
    }
}

fn enter(st: ParserState) -> (r: Option<ParserState>)
    ensures
        r == crate::ast::deeper(st),
{
    if st.depth < MAX_NESTING {
        Some(ParserState { next: st.next, depth: st.depth + 1 })
    } else {
        None
    }
}

fn leave(inner: ParserState, outer: ParserState) -> (r: ParserState)
    ensures
        r == crate::ast::restored(inner, outer),
{
    ParserState { next: inner.next, depth: outer.depth }
}

fn merge(a: Failure, b: Failure) -> (r: Failure)
    ensures
        r == grammar::merge(a, b),
{
    if a.pos > b.pos {
        a
    } else if b.pos > a.pos {
        b
    } else {
        Failure { pos: a.pos, expected: a.expected | b.expected }
    }
}

fn span_of(t: &Vec<SpannedToken>, from: usize, to: usize) -> (r: Span)
    requires
        from < t@.len(),
        0 < to <= t@.len(),
    ensures
        r == grammar::span_of(t@, from, to),
{
    Span { start: t[from].span.start, end: t[to - 1].span.end }
}

fn expr_node(t: &Vec<SpannedToken>, from: usize, to: usize, st: ParserState, kind: ExprKind) -> (r: Outcome<Expr>)
    requires
        from < t@.len(),
        0 < to <= t@.len(),
    ensures
        r == grammar::expr_node(t@, from, to, st, kind),
{
    match fresh_id(st) {
        None => Err(Failure { pos: from, expected: 0 }),
        Some((id, st2)) => Ok(Parsed { node: Expr { kind, id, span: span_of(t, from, to) }, next: to, state: st2 }),
    }
}

fn unary_kind(k: u64) -> (r: UnaryOpKind)
    ensures
        r == grammar::unary_kind(k),
{
    if k == MINUS {
        UnaryOpKind::Neg
    } else if k == BANG {
        UnaryOpKind::Not
    } else if k == AMPERSAND {
        UnaryOpKind::AddrOf
    } else {
        UnaryOpKind::Deref
    }
}

fn binop_kind(level: u8, k: u64) -> (r: Option<BinOpKind>)
    ensures
        r == grammar::binop_kind(level, k),
{
    if level == 0 && k == ASTERISK {
        Some(BinOpKind::Mul)
    } else if level == 0 && k == SLASH {
        Some(BinOpKind::Div)
    } else if level == 1 && k == PLUS {
        Some(BinOpKind::Add)
    } else if level == 1 && k == MINUS {
        Some(BinOpKind::Sub)
    } else if level == 2 && k == EQ_EQ {
        Some(BinOpKind::Eq)
    } else if level == 2 && k == BANG_EQ {
        Some(BinOpKind::Neq)
    } else {
        None
    }
}

fn last_end(l: &List<Expr>, d: usize) -> (r: usize)
    ensures
        r == grammar::last_end(*l, d),
{
    let mut cur = l;
    let mut end = d;
    loop
        invariant
            grammar::last_end(*l, d) == grammar::last_end(*cur, end),
        decreases *cur,
    {
        match cur {
            List::Nil => return end,
            List::Cons(e, rest) => {
                end = e.span.end;
                cur = rest;
            },
        }
    }
}

pub fn atom(t: &Vec<SpannedToken>, pos: usize, st: ParserState) -> (r: Outcome<Expr>)
    ensures
        r == grammar::atom(t@, pos, st),
    decreases t@.len() - pos, 0nat,
{
    if pos >= t.len() {
        return Err(Failure { pos, expected: EXPR_START });
    }
    match &t[pos].token {
        Token::Integer(s) => match parse_integer(s.as_str()) {
            Some(n) => expr_node(t, pos, pos + 1, st, ExprKind::Literal(Literal::Integer(n))),
            None => Err(Failure { pos, expected: INTEGER_IN_RANGE }),
        },
        Token::Str(s) => {
            let contents = prepend_vec(string_chars(s.as_str()), List::Nil);
            expr_node(t, pos, pos + 1, st, ExprKind::Literal(Literal::Str(contents)))
        },
        Token::Ident(s) => expr_node(t, pos, pos + 1, st, ExprKind::Name(s.clone())),
        Token::BracketO => match enter(st) {
            None => Err(Failure { pos, expected: SHALLOWER_NESTING }),
            Some(inner) => match expr_list(t, pos + 1, inner, BRACKET_C) {
                Err(f) => Err(f),
                Ok(l) => match expect(t, l.next, BRACKET_C) {
                    Err(f) => Err(f),
                    Ok(p) => expr_node(t, pos, p, leave(l.state, st), ExprKind::Array(l.node)),
                },
            },
        },
        Token::ParenO => match enter(st) {
            None => Err(Failure { pos, expected: SHALLOWER_NESTING }),
            Some(inner) => match expr(t, pos + 1, inner) {
                Err(f) => Err(f),
                Ok(e) => match expect(t, e.next, PAREN_C) {
                    Err(f) => Err(f),
                    Ok(p) => Ok(Parsed { node: e.node, next: p, state: leave(e.state, st) }),
                },
            },
        },
        _ => Err(Failure { pos, expected: EXPR_START }),
    }
}

pub fn expr_list(t: &Vec<SpannedToken>, pos: usize, st: ParserState, close: u64) -> (r: Outcome<List<Expr>>)
    ensures
        r == grammar::expr_list(t@, pos, st, close),
    decreases t@.len() - pos, 10nat,
{
    let mut acc: Vec<Expr> = Vec::new();
    let mut p = pos;
    let mut s = st;
    loop
        invariant
            pos <= p,
            p == pos || p <= t@.len(),
            grammar::expr_list(t@, pos, st, close) == grammar::lift(acc@, grammar::expr_list(t@, p, s, close)),
        decreases t@.len() - p,
    {
        if kind_at(t, p) == close {
            return Ok(Parsed { node: prepend_vec(acc, List::Nil), next: p, state: s });
        }
        let e = match expr(t, p, s) {
            Err(f) => return Err(merge(Failure { pos: p, expected: close }, f)),
            Ok(e) => e,
        };
        if !(p < e.next && e.next <= t.len()) {
            return Err(Failure { pos: p, expected: 0 });
        }
        let ghost before = acc@;
        if kind_at(t, e.next) == COMMA {
            proof {
                if let Ok(r) = grammar::expr_list(t@, (e.next + 1) as usize, e.state, close) {
                    lemma_prepend_push(before, e.node, r.node);
                }
            }
            acc.push(e.node);
            p = e.next + 1;
            s = e.state;
        } else {
            proof {
                lemma_prepend_push(before, e.node, List::Nil);
            }
            acc.push(e.node);
            return Ok(Parsed { node: prepend_vec(acc, List::Nil), next: e.next, state: e.state });
        }
    }
}

pub fn call(t: &Vec<SpannedToken>, pos: usize, st: ParserState) -> (r: Outcome<Expr>)
    ensures
        r == grammar::call(t@, pos, st),
    decreases t@.len() - pos, 1nat,
{
    match atom(t, pos, st) {
        Err(f) => Err(f),
        Ok(a) => if !(pos < a.next && a.next <= t.len()) {
            Err(Failure { pos, expected: 0 })
        } else {
            call_rest(t, a.next, a.node, a.state)
        },
    }
}

fn call_rest(t: &Vec<SpannedToken>, pos: usize, callee: Expr, st: ParserState) -> (r: Outcome<Expr>)
    ensures
        r == grammar::call_rest(t@, pos, callee, st),
    decreases t@.len() - pos, 1nat,
{
    let mut cur = callee;
    let mut p = pos;
    let mut s = st;
    loop
        invariant
            pos <= p,
            p == pos || p <= t@.len(),
            grammar::call_rest(t@, pos, callee, st) == grammar::call_rest(t@, p, cur, s),
        decreases t@.len() - p,
    {
        if kind_at(t, p) != PAREN_O {
            return Ok(Parsed { node: cur, next: p, state: s });
        }
        let inner = match enter(s) {
            None => return Err(Failure { pos: p, expected: SHALLOWER_NESTING }),
            Some(inner) => inner,
        };
        let l = match expr_list(t, p + 1, inner, PAREN_C) {
            Err(f) => return Err(f),
            Ok(l) => l,
        };
        let q = match expect(t, l.next, PAREN_C) {
            Err(f) => return Err(f),
            Ok(q) => q,
        };
        let (id, st2) = match fresh_id(leave(l.state, s)) {
            None => return Err(Failure { pos: p, expected: 0 }),
            Some(x) => x,
        };
        if !(p < q && q <= t.len()) {
            return Err(Failure { pos: p, expected: 0 });
        }
        let start = cur.span.start;
        let end = last_end(&l.node, cur.span.end);
        cur = Expr { kind: ExprKind::Call { callee: Box::new(cur), args: l.node }, id, span: Span { start, end } };
        p = q;
        s = st2;
    }
}

pub fn unary(t: &Vec<SpannedToken>, pos: usize, st: ParserState) -> (r: Outcome<Expr>)
    ensures
        r == grammar::unary(t@, pos, st),
    decreases t@.len() - pos, 2nat,
{
    let k = kind_at(t, pos);
    if k == MINUS || k == BANG || k == AMPERSAND || k == ASTERISK {
        let inner = match enter(st) {
            None => return Err(Failure { pos, expected: SHALLOWER_NESTING }),
            Some(inner) => inner,
        };
        match unary(t, pos + 1, inner) {
            Err(f) => Err(f),
            Ok(u) => match fresh_id(leave(u.state, st)) {
                None => Err(Failure { pos, expected: 0 }),
                Some((id, st2)) => {
                    let span = u.node.span;
                    Ok(Parsed {
                        node: Expr { kind: ExprKind::UnaryOp { kind: unary_kind(k), expr: Box::new(u.node) }, id, span },
                        next: u.next,
                        state: st2,
                    })
                },
            },
        }
    } else {
        call(t, pos, st)
    }
}

fn operand(t: &Vec<SpannedToken>, pos: usize, st: ParserState, level: u8) -> (r: Outcome<Expr>)
    ensures
        r == grammar::operand(t@, pos, st, level),
    decreases t@.len() - pos, 2 * level + 3,
{
    if level == 0 {
        unary(t, pos, st)
    } else {
        binary(t, pos, st, level - 1)
    }
}

fn binary(t: &Vec<SpannedToken>, pos: usize, st: ParserState, level: u8) -> (r: Outcome<Expr>)
    ensures
        r == grammar::binary(t@, pos, st, level),
    decreases t@.len() - pos, 2 * level + 4,
{
    match operand(t, pos, st, level) {
        Err(f) => Err(f),
        Ok(a) => if !(pos < a.next && a.next <= t.len()) {
            Err(Failure { pos, expected: 0 })
        } else {
            binary_rest(t, a.next, a.node, a.state, level)
        },
    }
}

fn binary_rest(t: &Vec<SpannedToken>, pos: usize, lhs: Expr, st: ParserState, level: u8) -> (r: Outcome<Expr>)
    ensures
        r == grammar::binary_rest(t@, pos, lhs, st, level),
    decreases t@.len() - pos, 2 * level + 4,
{
    let mut cur = lhs;
    let mut p = pos;
    let mut s = st;
    loop
        invariant
            pos <= p,
            p == pos || p <= t@.len(),
            grammar::binary_rest(t@, pos, lhs, st, level) == grammar::binary_rest(t@, p, cur, s, level),
        decreases t@.len() - p,
    {
        let op = match binop_kind(level, kind_at(t, p)) {
            None => return Ok(Parsed { node: cur, next: p, state: s }),
            Some(op) => op,
        };
        let b = match operand(t, p + 1, s, level) {
            Err(f) => return Err(f),
            Ok(b) => b,
        };
        let (id, st2) = match fresh_id(b.state) {
            None => return Err(Failure { pos: p, expected: 0 }),
            Some(x) => x,
        };
        if !(p < b.next && b.next <= t.len()) {
            return Err(Failure { pos: p, expected: 0 });
        }
        let span = Span { start: cur.span.start, end: b.node.span.end };
        cur = Expr { kind: ExprKind::BinOp { kind: op, lhs: Box::new(cur), rhs: Box::new(b.node) }, id, span };
        p = b.next;
        s = st2;
    }
}

/// Parses one expression starting at token `pos`.
pub fn expr(t: &Vec<SpannedToken>, pos: usize, st: ParserState) -> (r: Outcome<Expr>)
    ensures
        r == grammar::expr(t@, pos, st),
    decreases t@.len() - pos, 9nat,
{
    binary(t, pos, st, 2)
}

fn ident(t: &Vec<SpannedToken>, pos: usize) -> (r: Result<String, Failure>)
    ensures
        r == grammar::ident(t@, pos),
{
    if pos < t.len() {
        match &t[pos].token {
            Token::Ident(s) => Ok(s.clone()),
            _ => Err(Failure { pos, expected: IDENT }),
        }
    } else {
        Err(Failure { pos, expected: IDENT })
    }
}

/// Parses a type starting at token `pos`.
pub fn ty(t: &Vec<SpannedToken>, pos: usize, st: ParserState) -> (r: Outcome<Ty>)
    ensures
        r == grammar::ty(t@, pos, st),
    decreases t@.len() - pos,
{
    if pos >= t.len() {
        return Err(Failure { pos, expected: TY_START });
    }
    match &t[pos].token {
        Token::Ident(s) => Ok(Parsed { node: Ty { kind: TyKind::Name(s.clone()), span: t[pos].span }, next: pos + 1, state: st }),
        Token::Ptr => match enter(st) {
            None => Err(Failure { pos, expected: SHALLOWER_NESTING }),
            Some(inner) => match ty(t, pos + 1, inner) {
                Err(f) => Err(f),
                Ok(i) => if !(pos < i.next && i.next <= t.len()) {
                    Err(Failure { pos, expected: 0 })
                } else {
                    let span = span_of(t, pos, i.next);
                    Ok(Parsed { node: Ty { kind: TyKind::Ptr(Box::new(i.node)), span }, next: i.next, state: leave(i.state, st) })
                },
            },
        },
        _ => Err(Failure { pos, expected: TY_START }),
    }
}

fn opt_ty(t: &Vec<SpannedToken>, pos: usize, st: ParserState, marker: u64) -> (r: Outcome<Option<Ty>>)
    requires
        marker != 0,
    ensures
        r == grammar::opt_ty(t@, pos, st, marker),
{
    if kind_at(t, pos) == marker {
        match ty(t, pos + 1, st) {
            Err(f) => Err(f),
            Ok(y) => Ok(Parsed { node: Some(y.node), next: y.next, state: y.state }),
        }
    } else {
        Ok(Parsed { node: None, next: pos, state: st })
    }
}

fn pair(t: &Vec<SpannedToken>, pos: usize, st: ParserState) -> (r: Outcome<NameTyPair>)
    ensures
        r == grammar::pair(t@, pos, st),
{
    match ident(t, pos) {
        Err(f) => Err(f),
        Ok(name) => match expect(t, pos + 1, COLON) {
            Err(f) => Err(f),
            Ok(p) => match ty(t, p, st) {
                Err(f) => Err(f),
                Ok(y) => match fresh_id(y.state) {
                    None => Err(Failure { pos, expected: 0 }),
                    Some((id, st2)) => if !(pos < y.next && y.next <= t.len()) {
                        Err(Failure { pos, expected: 0 })
                    } else {
                        let span = span_of(t, pos, y.next);
                        Ok(Parsed { node: NameTyPair { name, ty: y.node, id, span }, next: y.next, state: st2 })
                    },
                },
            },
        },
    }
}

fn pairs(t: &Vec<SpannedToken>, pos: usize, st: ParserState, close: u64, trailing: bool, first: bool) -> (r: Outcome<List<NameTyPair>>)
    ensures
        r == grammar::pairs(t@, pos, st, close, trailing, first),
{
    let mut acc: Vec<NameTyPair> = Vec::new();
    let mut p = pos;
    let mut s = st;
    let mut fst = first;
    loop
        invariant
            grammar::pairs(t@, pos, st, close, trailing, first) == grammar::lift(acc@, grammar::pairs(t@, p, s, close, trailing, fst)),
        decreases t@.len() - p,
    {
        if kind_at(t, p) == close && (fst || trailing) {
            return Ok(Parsed { node: prepend_vec(acc, List::Nil), next: p, state: s });
        }
        let e = match pair(t, p, s) {
            Err(f) => return Err(if fst || trailing { merge(Failure { pos: p, expected: close }, f) } else { f }),
            Ok(e) => e,
        };
        if !(p < e.next && e.next <= t.len()) {
            return Err(Failure { pos: p, expected: 0 });
        }
        let ghost before = acc@;
        if kind_at(t, e.next) == COMMA {
            proof {
                if let Ok(r) = grammar::pairs(t@, (e.next + 1) as usize, e.state, close, trailing, false) {
                    lemma_prepend_push(before, e.node, r.node);
                }
            }
            acc.push(e.node);
            p = e.next + 1;
            s = e.state;
            fst = false;
        } else {
            proof {
                lemma_prepend_push(before, e.node, List::Nil);
            }
            acc.push(e.node);
            return Ok(Parsed { node: prepend_vec(acc, List::Nil), next: e.next, state: e.state });
        }
    }
}

fn opt_init(t: &Vec<SpannedToken>, pos: usize, st: ParserState) -> (r: Outcome<Option<Expr>>)
    ensures
        r == grammar::opt_init(t@, pos, st),
{
    if kind_at(t, pos) == EQ {
        match expr(t, pos + 1, st) {
            Err(f) => Err(f),
            Ok(e) => Ok(Parsed { node: Some(e.node), next: e.next, state: e.state }),
        }
    } else {
        Ok(Parsed { node: None, next: pos, state: st })
    }
}

fn var_decl(t: &Vec<SpannedToken>, pos: usize, st: ParserState) -> (r: Outcome<Stmt>)
    ensures
        r == grammar::var_decl(t@, pos, st),
{
    match expect(t, pos, LET) {
        Err(f) => Err(f),
        Ok(p0) => match ident(t, p0) {
            Err(f) => Err(f),
            Ok(name) => match opt_ty(t, p0 + 1, st, COLON) {
                Err(f) => Err(f),
                Ok(y) => match opt_init(t, y.next, y.state) {
                    Err(f) => Err(f),
                    Ok(i) => match expect(t, i.next, SEMI) {
                        Err(f) => Err(f),
                        Ok(p) => {
                            let span = span_of(t, pos, p);
                            Ok(Parsed { node: Stmt::VarDecl(VarDecl { name, ty: y.node, rhs: i.node, span }), next: p, state: i.state })
                        },
                    },
                },
            },
        },
    }
}

fn simple_stmt(t: &Vec<SpannedToken>, pos: usize, st: ParserState) -> (r: Outcome<Stmt>)
    ensures
        r == grammar::simple_stmt(t@, pos, st),
{
    match expr(t, pos, st) {
        Err(f) => Err(merge(Failure { pos, expected: STMT_KEYWORDS }, f)),
        Ok(e) => {
            let k = kind_at(t, e.next);
            if k == SEMI {
                Ok(Parsed { node: Stmt::Expr(e.node), next: e.next + 1, state: e.state })
            } else if k == EQ {
                match expr(t, e.next + 1, e.state) {
                    Err(f) => Err(f),
                    Ok(v) => match expect(t, v.next, SEMI) {
                        Err(f) => Err(f),
                        Ok(p) => if !(pos < p && p <= t.len()) {
                            Err(Failure { pos, expected: 0 })
                        } else {
                            let span = span_of(t, pos, p);
                            Ok(Parsed { node: Stmt::Assignment(Assignment { place: e.node, rhs: v.node, span }), next: p, state: v.state })
                        },
                    },
                }
            } else {
                Err(Failure { pos: e.next, expected: SEMI | EQ })
            }
        },
    }
}

fn block(t: &Vec<SpannedToken>, pos: usize, st: ParserState, nested: bool) -> (r: Outcome<List<Stmt>>)
    ensures
        r == grammar::block(t@, pos, st, nested),
    decreases t@.len() - pos, 0nat,
{
    match expect(t, pos, BRACE_O) {
        Err(f) => Err(f),
        Ok(p) => match enter(st) {
            None => Err(Failure { pos, expected: SHALLOWER_NESTING }),
            Some(inner) => match stmts(t, p, inner, nested) {
                Err(f) => Err(f),
                Ok(r) => Ok(Parsed { node: r.node, next: r.next, state: leave(r.state, st) }),
            },
        },
    }
}

fn stmts(t: &Vec<SpannedToken>, pos: usize, st: ParserState, nested: bool) -> (r: Outcome<List<Stmt>>)
    ensures
        r == grammar::stmts(t@, pos, st, nested),
    decreases t@.len() - pos, 3nat,
{
    let mut acc: Vec<Stmt> = Vec::new();
    let mut p = pos;
    let mut s = st;
    loop
        invariant
            pos <= p,
            p == pos || p <= t@.len(),
            grammar::stmts(t@, pos, st, nested) == grammar::lift(acc@, grammar::stmts(t@, p, s, nested)),
        decreases t@.len() - p,
    {
        if kind_at(t, p) == BRACE_C {
            return Ok(Parsed { node: prepend_vec(acc, List::Nil), next: p + 1, state: s });
        }
        match stmt(t, p, s, nested) {
            Err(f) => return Err(merge(Failure { pos: p, expected: BRACE_C }, f)),
            Ok(x) => {
                if !(p < x.next && x.next <= t.len()) {
                    return Err(Failure { pos: p, expected: 0 });
                }
                let ghost before = acc@;
                proof {
                    if let Ok(r) = grammar::stmts(t@, x.next, x.state, nested) {
                        lemma_prepend_push(before, x.node, r.node);
                    }
                }
                acc.push(x.node);
                p = x.next;
                s = x.state;
            },
        }
    }
}

/// Parses one statement starting at token `pos`; local functions only where
/// `nested` holds.
pub fn stmt(t: &Vec<SpannedToken>, pos: usize, st: ParserState, nested: bool) -> (r: Outcome<Stmt>)
    ensures
        r == grammar::stmt(t@, pos, st, nested),
    decreases t@.len() - pos, 2nat,
{
    let k = kind_at(t, pos);
    if k == LET {
        var_decl(t, pos, st)
    } else if k == IF {
        match if_stmt(t, pos, st, nested) {
            Err(f) => Err(f),
            Ok(i) => Ok(Parsed { node: Stmt::IfStmt(i.node), next: i.next, state: i.state }),
        }
    } else if k == WHILE {
        while_stmt(t, pos, st, nested)
    } else if nested && k == FN {
        match function(t, pos, st, nested) {
            Err(f) => Err(f),
            Ok(d) => Ok(Parsed { node: Stmt::Item(Box::new(Item::FnDecl(d.node))), next: d.next, state: d.state }),
        }
    } else {
        simple_stmt(t, pos, st)
    }
}

fn if_stmt(t: &Vec<SpannedToken>, pos: usize, st: ParserState, nested: bool) -> (r: Outcome<IfStmt>)
    ensures
        r == grammar::if_stmt(t@, pos, st, nested),
    decreases t@.len() - pos, 1nat,
{
    let p0 = match expect(t, pos, IF) {
        Err(f) => return Err(f),
        Ok(p0) => p0,
    };
    let c = match expr(t, p0, st) {
        Err(f) => return Err(f),
        Ok(c) => c,
    };
    if !(pos < c.next && c.next <= t.len()) {
        return Err(Failure { pos, expected: 0 });
    }
    let b = match block(t, c.next, c.state, nested) {
        Err(f) => return Err(f),
        Ok(b) => b,
    };
    if !(pos < b.next && b.next <= t.len()) {
        return Err(Failure { pos, expected: 0 });
    }
    if kind_at(t, b.next) != ELSE {
        let span = span_of(t, pos, b.next);
        return Ok(Parsed { node: IfStmt { cond: c.node, body: b.node, else_part: None, span }, next: b.next, state: b.state });
    }
    let p = b.next + 1;
    if kind_at(t, p) == IF {
        let inner = match enter(b.state) {
            None => return Err(Failure { pos: p, expected: SHALLOWER_NESTING }),
            Some(inner) => inner,
        };
        match if_stmt(t, p, inner, nested) {
            Err(f) => Err(f),
            Ok(e) => if !(pos < e.next && e.next <= t.len()) {
                Err(Failure { pos, expected: 0 })
            } else {
                let span = span_of(t, pos, e.next);
                Ok(Parsed {
                    node: IfStmt { cond: c.node, body: b.node, else_part: Some(ElsePart::ElseIf(Box::new(e.node))), span },
                    next: e.next,
                    state: leave(e.state, b.state),
                })
            },
        }
    } else {
        match block(t, p, b.state, nested) {
            Err(f) => Err(merge(Failure { pos: p, expected: IF }, f)),
            Ok(e) => if !(p < e.next && e.next <= t.len()) {
                Err(Failure { pos, expected: 0 })
            } else {
                let else_span = span_of(t, p, e.next);
                let span = span_of(t, pos, e.next);
                Ok(Parsed {
                    node: IfStmt { cond: c.node, body: b.node, else_part: Some(ElsePart::Else(e.node, else_span)), span },
                    next: e.next,
                    state: e.state,
                })
            },
        }
    }
}

fn while_stmt(t: &Vec<SpannedToken>, pos: usize, st: ParserState, nested: bool) -> (r: Outcome<Stmt>)
    ensures
        r == grammar::while_stmt(t@, pos, st, nested),
    decreases t@.len() - pos, 1nat,
{
    let p0 = match expect(t, pos, WHILE) {
        Err(f) => return Err(f),
        Ok(p0) => p0,
    };
    let c = match expr(t, p0, st) {
        Err(f) => return Err(f),
        Ok(c) => c,
    };
    if !(pos < c.next && c.next <= t.len()) {
        return Err(Failure { pos, expected: 0 });
    }
    match block(t, c.next, c.state, nested) {
        Err(f) => Err(f),
        Ok(b) => if !(pos < b.next && b.next <= t.len()) {
            Err(Failure { pos, expected: 0 })
        } else {
            let span = span_of(t, pos, b.next);
            Ok(Parsed { node: Stmt::WhileStmt(WhileStmt { cond: c.node, body: b.node, span }), next: b.next, state: b.state })
        },
    }
}

fn function(t: &Vec<SpannedToken>, pos: usize, st: ParserState, nested: bool) -> (r: Outcome<FnDecl>)
    ensures
        r == grammar::function(t@, pos, st, nested),
    decreases t@.len() - pos, 1nat,
{
    let p0 = match expect(t, pos, FN) {
        Err(f) => return Err(f),
        Ok(p0) => p0,
    };
    let name = match ident(t, p0) {
        Err(f) => return Err(f),
        Ok(name) => name,
    };
    let p1 = match expect(t, p0 + 1, PAREN_O) {
        Err(f) => return Err(f),
        Ok(p1) => p1,
    };
    let ps = match pairs(t, p1, st, PAREN_C, true, true) {
        Err(f) => return Err(f),
        Ok(ps) => ps,
    };
    let some_params = match &ps.node {
        List::Cons(..) => true,
        List::Nil => false,
    };
    let p2 = match expect(t, ps.next, PAREN_C) {
        Err(f) => return Err(if some_params { merge(Failure { pos: ps.next, expected: COMMA }, f) } else { f }),
        Ok(p2) => p2,
    };
    let r = match opt_ty(t, p2, ps.state, ARROW) {
        Err(f) => return Err(f),
        Ok(r) => r,
    };
    if !(pos < r.next && r.next <= t.len()) {
        return Err(Failure { pos, expected: 0 });
    }
    let no_ret = r.node.is_none();
    match block(t, r.next, r.state, nested) {
        Err(f) => Err(if no_ret { merge(Failure { pos: r.next, expected: ARROW }, f) } else { f }),
        Ok(b) => match fresh_id(b.state) {
            None => Err(Failure { pos, expected: 0 }),
            Some((id, st2)) => if !(pos < b.next && b.next <= t.len()) {
                Err(Failure { pos, expected: 0 })
            } else {
                let span = span_of(t, pos, b.next);
                Ok(Parsed {
                    node: FnDecl { name, params: ps.node, ret_ty: r.node, body: b.node, id, span },
                    next: b.next,
                    state: st2,
                })
            },
        },
    }
}

fn struct_decl(t: &Vec<SpannedToken>, pos: usize, st: ParserState) -> (r: Outcome<StructDecl>)
    ensures
        r == grammar::struct_decl(t@, pos, st),
{
    let p0 = match expect(t, pos, STRUCT) {
        Err(f) => return Err(f),
        Ok(p0) => p0,
    };
    let name = match ident(t, p0) {
        Err(f) => return Err(f),
        Ok(name) => name,
    };
    let p1 = match expect(t, p0 + 1, BRACE_O) {
        Err(f) => return Err(f),
        Ok(p1) => p1,
    };
    let fs = match pairs(t, p1, st, BRACE_C, false, true) {
        Err(f) => return Err(f),
        Ok(fs) => fs,
    };
    let some_fields = match &fs.node {
        List::Cons(..) => true,
        List::Nil => false,
    };
    match expect(t, fs.next, BRACE_C) {
        Err(f) => Err(if some_fields { merge(Failure { pos: fs.next, expected: COMMA }, f) } else { f }),
        Ok(p) => match fresh_id(fs.state) {
            None => Err(Failure { pos, expected: 0 }),
            Some((id, st2)) => {
                let span = span_of(t, pos, p);
                Ok(Parsed { node: StructDecl { name, fields: fs.node, id, span }, next: p, state: st2 })
            },
        },
    }
}

/// Parses one item (a function or a struct) starting at token `pos`.
pub fn item(t: &Vec<SpannedToken>, pos: usize, st: ParserState, nested: bool) -> (r: Outcome<Item>)
    ensures
        r == grammar::item(t@, pos, st, nested),
{
    let k = kind_at(t, pos);
    if k == FN {
        match function(t, pos, st, nested) {
            Err(f) => Err(f),
            Ok(d) => Ok(Parsed { node: Item::FnDecl(d.node), next: d.next, state: d.state }),
        }
    } else if k == STRUCT {
        match struct_decl(t, pos, st) {
            Err(f) => Err(f),
            Ok(d) => Ok(Parsed { node: Item::StructDecl(d.node), next: d.next, state: d.state }),
        }
    } else {
        Err(Failure { pos, expected: ITEM_START })
    }
}

fn resync(t: &Vec<SpannedToken>, p: usize) -> (r: usize)
    ensures
        r == grammar::resync(t@, p),
{
    let mut q = p;
    while q < t.len() && !(kind_at(t, q) == FN || kind_at(t, q) == STRUCT)
        invariant
            p <= q,
            grammar::resync(t@, p) == grammar::resync(t@, q),
        decreases t@.len() - q,
    {
        q = q + 1;
    }
    q
}

/// The items from `pos` on, and the failures met, in order.
fn file_items(t: &Vec<SpannedToken>, pos: usize, st: ParserState, nested: bool) -> (r: (List<Item>, Vec<Failure>))
    ensures
        r.0 == grammar::file_items(t@, pos, st, nested).0,
        r.1@ == grammar::file_items(t@, pos, st, nested).1.elems(),
{
    let mut items: Vec<Item> = Vec::new();
    let mut fails: Vec<Failure> = Vec::new();
    let mut p = pos;
    let mut s = st;
    loop
        invariant
            grammar::file_items(t@, pos, st, nested).0 == prepend(items@, grammar::file_items(t@, p, s, nested).0),
            grammar::file_items(t@, pos, st, nested).1 == prepend(fails@, grammar::file_items(t@, p, s, nested).1),
        decreases t@.len() - p,
    {
        if p >= t.len() {
            proof {
                lemma_prepend_elems(fails@);
            }
            return (prepend_vec(items, List::Nil), fails);
        }
        match item(t, p, s, nested) {
            Ok(i) => {
                if !(p < i.next && i.next <= t.len()) {
                    let ghost before = fails@;
                    let stall = Failure { pos: p, expected: 0 };
                    proof {
                        lemma_prepend_push(before, stall, List::Nil);
                    }
                    fails.push(stall);
                    proof {
                        lemma_prepend_elems(fails@);
                    }
                    return (prepend_vec(items, List::Nil), fails);
                }
                let ghost before = items@;
                proof {
                    lemma_prepend_push(before, i.node, grammar::file_items(t@, i.next, i.state, nested).0);
                }
                items.push(i.node);
                p = i.next;
                s = i.state;
            },
            Err(f) => {
                let q = resync(t, p + 1);
                let ghost before = fails@;
                if !(p < q && q <= t.len()) {
                    proof {
                        lemma_prepend_push(before, f, List::Nil);
                    }
                    fails.push(f);
                    proof {
                        lemma_prepend_elems(fails@);
                    }
                    return (prepend_vec(items, List::Nil), fails);
                }
                proof {
                    lemma_prepend_push(before, f, grammar::file_items(t@, q, s, nested).1);
                }
                fails.push(f);
                p = q;
            },
        }
    }
}

fn copy_token(tok: &Token) -> (r: Token)
    ensures
        r == *tok,
{
    match tok {
        Token::Ident(s) => Token::Ident(s.clone()),
        Token::Integer(s) => Token::Integer(s.clone()),
        Token::Str(s) => Token::Str(s.clone()),
        Token::Plus => Token::Plus,
        Token::Minus => Token::Minus,
        Token::Asterisk => Token::Asterisk,
        Token::Slash => Token::Slash,
        Token::Bang => Token::Bang,
        Token::Ampersand => Token::Ampersand,
        Token::EqEq => Token::EqEq,
        Token::BangEq => Token::BangEq,
        Token::Eq => Token::Eq,
        Token::Comma => Token::Comma,
        Token::Colon => Token::Colon,
        Token::Semi => Token::Semi,
        Token::Arrow => Token::Arrow,
        Token::ParenO => Token::ParenO,
        Token::ParenC => Token::ParenC,
        Token::BraceO => Token::BraceO,
        Token::BraceC => Token::BraceC,
        Token::BracketO => Token::BracketO,
        Token::BracketC => Token::BracketC,
        Token::Fn => Token::Fn,
        Token::Struct => Token::Struct,
        Token::If => Token::If,
        Token::Else => Token::Else,
        Token::While => Token::While,
        Token::Let => Token::Let,
        Token::Ptr => Token::Ptr,
        Token::Unknown => Token::Unknown,
    }
}

fn diagnostic(t: &Vec<SpannedToken>, source_len: usize, f: Failure) -> (r: Error)
    ensures
        r == grammar::diagnostic(t@, source_len, f),
{
    if f.pos < t.len() {
        Error { span: t[f.pos].span, expected: f.expected, found: Some(copy_token(&t[f.pos].token)) }
    } else {
        Error { span: Span { start: source_len, end: source_len }, expected: f.expected, found: None }
    }
}

/// Parses a whole token stream, with local functions admitted inside bodies
/// where `nested_items` holds. `source_len` is the length of the source text;
/// a failure at the end of input is reported there.
///
/// Every token must be consumed: what no item can start is reported and
/// skipped up to the next `fn` or `struct`. The file is absent only where no
/// item parsed and some failure was met.
///
/// Sequences (items, statements, arguments, operator chains) are parsed by
/// loops. Nesting (parentheses, brackets, argument lists, prefix operators,
/// pointer types, blocks, `else if`) is parsed by recursion and limited to `MAX_NESTING`
/// levels, each link of an `else if` chain counting as one: deeper input is
/// reported with the `SHALLOWER_NESTING` description and skipped like any
/// other failure.
pub fn parse_with(tokens: &Vec<SpannedToken>, source_len: usize, file_name: String, nested_items: bool) -> (r: (Option<File>, Vec<Error>))
    ensures
        r.0 == grammar::parse_tokens(tokens@, source_len, file_name, nested_items).0,
        r.1@ == grammar::parse_tokens(tokens@, source_len, file_name, nested_items).1,
{
    let (items, failures) = file_items(tokens, 0, ParserState::new(), nested_items);
    let ghost fs = grammar::file_items(tokens@, 0, ParserState { next: 0, depth: 0 }, nested_items).1;
    let mut diags: Vec<Error> = Vec::new();
    let mut i: usize = 0;
    while i < failures.len()
        invariant
            0 <= i <= failures@.len(),
            diags@ == failures@.subrange(0, i as int).map_values(|f: Failure| grammar::diagnostic(tokens@, source_len, f)),
        decreases failures.len() - i,
    {
        diags.push(diagnostic(tokens, source_len, failures[i]));
        i = i + 1;
        assert(failures@.subrange(0, i as int).map_values(|f: Failure| grammar::diagnostic(tokens@, source_len, f))
            =~= diags@);
    }
    assert(failures@.subrange(0, i as int) =~= fs.elems());
    assert(diags@ =~= grammar::parse_tokens(tokens@, source_len, file_name, nested_items).1);
    let no_items = match &items {
        List::Nil => true,
        List::Cons(..) => false,
    };
    let failed = failures.len() > 0;
    assert(failed == fs is Cons) by {
        if fs is Cons {
            assert(fs.elems().len() > 0);
        } else {
            assert(fs.elems().len() == 0);
        }
    }
    if no_items && failed {
        (None, diags)
    } else {
        (Some(File { name: file_name, items }), diags)
    }
}

/// Parses a whole token stream; function declarations stand at file level only.
pub fn parse(tokens: &Vec<SpannedToken>, source_len: usize, file_name: String) -> (r: (Option<File>, Vec<Error>))
    ensures
        r.0 == grammar::parse_tokens(tokens@, source_len, file_name, false).0,
        r.1@ == grammar::parse_tokens(tokens@, source_len, file_name, false).1,
{
    parse_with(tokens, source_len, file_name, false)
}

} // verus!
