//! Node identities: a parse hands them out in the order it builds nodes, one
//! per node, with none skipped.
use vstd::prelude::*;

use crate::ast::{
    deeper, fresh, restored, ElsePart, Expr, ExprKind, FnDecl, IfStmt, Item, List, NameTyPair, ParserState, Stmt,
    StructDecl,
};
use crate::grammar::{
    advanced, atom, binary, binary_rest, binop_kind, block, call, call_rest, expect, expr,
    expr_list, file_items, function, has_token, ident, if_stmt, item, kind_at, last_end, operand,
    opt_init, opt_ty, pair, pairs, parse_tokens, resync, simple_stmt, stmt, stmts, struct_decl,
    ty, unary, var_decl, while_stmt, Outcome,
};
use crate::token::{
    Span, SpannedToken, Token, AMPERSAND, ARROW, ASTERISK, BANG, BRACE_C, BRACE_O, BRACKET_C,
    COLON, COMMA, ELSE, EQ, FN, IF, LET, MINUS, PAREN_C, PAREN_O, STRUCT, WHILE,
};

verus! {

/// The identities `lo, lo + 1, .., hi - 1`.
pub open spec fn id_range(lo: u64, hi: u64) -> Seq<u64> {
    Seq::new((hi - lo) as nat, |i: int| (lo + i) as u64)
}

/// The identities of an expression's nodes, children before their parent,
/// left to right.
pub open spec fn expr_ids(e: Expr) -> Seq<u64>
    decreases e,
{
    match e.kind {
        ExprKind::Literal(_) => seq![e.id.0],
        ExprKind::Name(_) => seq![e.id.0],
        ExprKind::Array(l) => list_ids(l) + seq![e.id.0],
        ExprKind::Call { callee, args } => expr_ids(*callee) + list_ids(args) + seq![e.id.0],
        ExprKind::UnaryOp { kind: _, expr } => expr_ids(*expr) + seq![e.id.0],
        ExprKind::BinOp { kind: _, lhs, rhs } => expr_ids(*lhs) + expr_ids(*rhs) + seq![e.id.0],
    }
}

pub open spec fn list_ids(l: List<Expr>) -> Seq<u64>
    decreases l,
{
    match l {
        List::Nil => Seq::empty(),
        List::Cons(x, rest) => expr_ids(*x) + list_ids(*rest),
    }
}

/// A parsed expression consumed at least one token and stayed within the input,
/// and its nodes carry exactly the identities handed out meanwhile, in order.
pub open spec fn expr_ok(t: Seq<SpannedToken>, pos: usize, st: ParserState, r: Outcome<Expr>) -> bool {
    r matches Ok(p) ==> pos < p.next <= t.len() && st.next <= p.state.next && expr_ids(p.node) == id_range(st.next, p.state.next)
}

/// The continuation of an operator chain stayed within the input and added to
/// its left operand's nodes the identities it handed out, in order.
pub open spec fn rest_ok(t: Seq<SpannedToken>, pos: usize, lhs: Expr, st: ParserState, r: Outcome<Expr>) -> bool {
    r matches Ok(p) ==> pos <= p.next <= t.len() && st.next <= p.state.next && expr_ids(p.node) == expr_ids(lhs) + id_range(st.next, p.state.next)
}

pub open spec fn list_ok(t: Seq<SpannedToken>, pos: usize, st: ParserState, r: Outcome<List<Expr>>) -> bool {
    r matches Ok(p) ==> pos <= p.next <= t.len() && st.next <= p.state.next && list_ids(p.node) == id_range(st.next, p.state.next)
}

proof fn lemma_range_concat(a: u64, b: u64, c: u64)
    requires
        a <= b <= c,
    ensures
        id_range(a, b) + id_range(b, c) == id_range(a, c),
{
    assert(id_range(a, b) + id_range(b, c) =~= id_range(a, c));
}

proof fn lemma_range_one(a: u64)
    requires
        a < u64::MAX,
    ensures
        id_range(a, (a + 1) as u64) == seq![a],
{
    assert(id_range(a, (a + 1) as u64) =~= seq![a]);
}

proof fn lemma_atom(t: Seq<SpannedToken>, pos: usize, st: ParserState)
    ensures
        expr_ok(t, pos, st, atom(t, pos, st)),
    decreases t.len() - pos, 0nat,
{
    if has_token(t, pos) {
        match t[pos as int].token {
            Token::BracketO => {
                if let Some(inner) = deeper(st) {
                    lemma_expr_list(t, (pos + 1) as usize, inner, BRACKET_C);
                    if let Ok(l) = expr_list(t, (pos + 1) as usize, inner, BRACKET_C) {
                        if let Some((id, st2)) = fresh(restored(l.state, st)) {
                            lemma_range_one(l.state.next);
                            lemma_range_concat(st.next, l.state.next, st2.next);
                        }
                    }
                }
            },
            Token::ParenO => {
                if let Some(inner) = deeper(st) {
                    lemma_expr(t, (pos + 1) as usize, inner);
                }
            },
            _ => {
                if st.next < u64::MAX {
                    lemma_range_one(st.next);
                }
            },
        }
    }
}

proof fn lemma_expr_list(t: Seq<SpannedToken>, pos: usize, st: ParserState, close: u64)
    requires
        pos <= t.len(),
    ensures
        list_ok(t, pos, st, expr_list(t, pos, st, close)),
    decreases t.len() - pos, 10nat,
{
    if kind_at(t, pos) != close {
        lemma_expr(t, pos, st);
        if let Ok(e) = expr(t, pos, st) {
            if advanced(t, pos, e.next) {
                if kind_at(t, e.next) == COMMA {
                    lemma_expr_list(t, (e.next + 1) as usize, e.state, close);
                    if let Ok(r) = expr_list(t, (e.next + 1) as usize, e.state, close) {
                        lemma_range_concat(st.next, e.state.next, r.state.next);
                    }
                } else {
                    assert(expr_ids(e.node) + list_ids(List::Nil) =~= expr_ids(e.node));
                }
            }
        }
    } else {
        assert(id_range(st.next, st.next) =~= Seq::empty());
    }
}

proof fn lemma_call(t: Seq<SpannedToken>, pos: usize, st: ParserState)
    ensures
        expr_ok(t, pos, st, call(t, pos, st)),
    decreases t.len() - pos, 1nat,
{
    lemma_atom(t, pos, st);
    if let Ok(a) = atom(t, pos, st) {
        if advanced(t, pos, a.next) {
            lemma_call_rest(t, a.next, a.node, a.state);
            if let Ok(r) = call_rest(t, a.next, a.node, a.state) {
                lemma_range_concat(st.next, a.state.next, r.state.next);
            }
        }
    }
}

proof fn lemma_call_rest(t: Seq<SpannedToken>, pos: usize, callee: Expr, st: ParserState)
    requires
        pos <= t.len(),
    ensures
        rest_ok(t, pos, callee, st, call_rest(t, pos, callee, st)),
    decreases t.len() - pos, 1nat,
{
    if kind_at(t, pos) == PAREN_O && deeper(st) is Some {
        let inner = deeper(st).unwrap();
        lemma_expr_list(t, (pos + 1) as usize, inner, PAREN_C);
        if let Ok(l) = expr_list(t, (pos + 1) as usize, inner, PAREN_C) {
            if let Ok(p) = expect(t, l.next, PAREN_C) {
                if let Some((id, st2)) = fresh(restored(l.state, st)) {
                    if advanced(t, pos, p) {
                        let c = Expr {
                            kind: ExprKind::Call { callee: Box::new(callee), args: l.node },
                            id,
                            span: Span { start: callee.span.start, end: last_end(l.node, callee.span.end) },
                        };
                        lemma_call_rest(t, p, c, st2);
                        lemma_range_one(l.state.next);
                        lemma_range_concat(st.next, l.state.next, st2.next);
                        assert(expr_ids(c) =~= expr_ids(callee) + id_range(st.next, st2.next));
                        if let Ok(r) = call_rest(t, p, c, st2) {
                            lemma_range_concat(st.next, st2.next, r.state.next);
                            assert(expr_ids(r.node) =~= expr_ids(callee) + id_range(st.next, r.state.next));
                        }
                    }
                }
            }
        }
    } else if kind_at(t, pos) != PAREN_O {
        assert(expr_ids(callee) + id_range(st.next, st.next) =~= expr_ids(callee));
    }
}

proof fn lemma_unary(t: Seq<SpannedToken>, pos: usize, st: ParserState)
    ensures
        expr_ok(t, pos, st, unary(t, pos, st)),
    decreases t.len() - pos, 2nat,
{
    let k = kind_at(t, pos);
    if k == MINUS || k == BANG || k == AMPERSAND || k == ASTERISK {
        if let Some(inner) = deeper(st) {
            lemma_unary(t, (pos + 1) as usize, inner);
            if let Ok(u) = unary(t, (pos + 1) as usize, inner) {
                if let Some((id, st2)) = fresh(restored(u.state, st)) {
                    lemma_range_one(u.state.next);
                    lemma_range_concat(st.next, u.state.next, st2.next);
                }
            }
        }
    } else {
        lemma_call(t, pos, st);
    }
}

proof fn lemma_operand(t: Seq<SpannedToken>, pos: usize, st: ParserState, level: u8)
    ensures
        expr_ok(t, pos, st, operand(t, pos, st, level)),
    decreases t.len() - pos, 2 * level + 3,
{
    if level == 0 {
        lemma_unary(t, pos, st);
    } else {
        lemma_binary(t, pos, st, (level - 1) as u8);
    }
}

proof fn lemma_binary(t: Seq<SpannedToken>, pos: usize, st: ParserState, level: u8)
    ensures
        expr_ok(t, pos, st, binary(t, pos, st, level)),
    decreases t.len() - pos, 2 * level + 4,
{
    lemma_operand(t, pos, st, level);
    if let Ok(a) = operand(t, pos, st, level) {
        if advanced(t, pos, a.next) {
            lemma_binary_rest(t, a.next, a.node, a.state, level);
            if let Ok(r) = binary_rest(t, a.next, a.node, a.state, level) {
                lemma_range_concat(st.next, a.state.next, r.state.next);
            }
        }
    }
}

proof fn lemma_binary_rest(t: Seq<SpannedToken>, pos: usize, lhs: Expr, st: ParserState, level: u8)
    requires
        pos <= t.len(),
    ensures
        rest_ok(t, pos, lhs, st, binary_rest(t, pos, lhs, st, level)),
    decreases t.len() - pos, 2 * level + 4,
{
    if let Some(op) = binop_kind(level, kind_at(t, pos)) {
        lemma_operand(t, (pos + 1) as usize, st, level);
        if let Ok(b) = operand(t, (pos + 1) as usize, st, level) {
            if let Some((id, st2)) = fresh(b.state) {
                if advanced(t, pos, b.next) {
                    let c = Expr {
                        kind: ExprKind::BinOp { kind: op, lhs: Box::new(lhs), rhs: Box::new(b.node) },
                        id,
                        span: Span { start: lhs.span.start, end: b.node.span.end },
                    };
                    lemma_binary_rest(t, b.next, c, st2, level);
                    lemma_range_one(b.state.next);
                    lemma_range_concat(st.next, b.state.next, st2.next);
                    assert(expr_ids(c) =~= expr_ids(lhs) + id_range(st.next, st2.next));
                    if let Ok(r) = binary_rest(t, b.next, c, st2, level) {
                        lemma_range_concat(st.next, st2.next, r.state.next);
                        assert(expr_ids(r.node) =~= expr_ids(lhs) + id_range(st.next, r.state.next));
                    }
                }
            }
        }
    } else {
        assert(expr_ids(lhs) + id_range(st.next, st.next) =~= expr_ids(lhs));
    }
}

/// Every expression that parses consumes at least one token and stays within
/// the input, and the identities of its nodes, children before parents and
/// left to right, are exactly the consecutive identities the allocator handed
/// out while parsing it: each node has its own, none is skipped, and they
/// follow the order in which the nodes were built.
pub proof fn lemma_expr(t: Seq<SpannedToken>, pos: usize, st: ParserState)
    ensures
        expr_ok(t, pos, st, expr(t, pos, st)),
    decreases t.len() - pos, 9nat,
{
    lemma_binary(t, pos, st, 2);
}

pub open spec fn opt_expr_ids(e: Option<Expr>) -> Seq<u64> {
    match e {
        Some(e) => expr_ids(e),
        None => Seq::empty(),
    }
}

pub open spec fn pairs_ids(l: List<NameTyPair>) -> Seq<u64>
    decreases l,
{
    match l {
        List::Nil => Seq::empty(),
        List::Cons(x, rest) => seq![x.id.0] + pairs_ids(*rest),
    }
}

/// The identities of a statement's nodes, children before parents, left to right.
pub open spec fn stmt_ids(s: Stmt) -> Seq<u64>
    decreases s,
{
    match s {
        Stmt::VarDecl(d) => opt_expr_ids(d.rhs),
        Stmt::Assignment(a) => expr_ids(a.place) + expr_ids(a.rhs),
        Stmt::Expr(e) => expr_ids(e),
        Stmt::IfStmt(i) => if_ids(i),
        Stmt::WhileStmt(w) => expr_ids(w.cond) + stmts_ids(w.body),
        Stmt::Item(i) => item_ids(*i),
    }
}

pub open spec fn if_ids(i: IfStmt) -> Seq<u64>
    decreases i,
{
    expr_ids(i.cond) + stmts_ids(i.body) + match i.else_part {
        None => Seq::empty(),
        Some(ElsePart::ElseIf(j)) => if_ids(*j),
        Some(ElsePart::Else(b, _)) => stmts_ids(b),
    }
}

pub open spec fn stmts_ids(l: List<Stmt>) -> Seq<u64>
    decreases l,
{
    match l {
        List::Nil => Seq::empty(),
        List::Cons(x, rest) => stmt_ids(*x) + stmts_ids(*rest),
    }
}

pub open spec fn item_ids(i: Item) -> Seq<u64>
    decreases i,
{
    match i {
        Item::FnDecl(f) => pairs_ids(f.params) + stmts_ids(f.body) + seq![f.id.0],
        Item::StructDecl(s) => pairs_ids(s.fields) + seq![s.id.0],
    }
}

/// The identities of a file's nodes, item by item.
pub open spec fn items_ids(l: List<Item>) -> Seq<u64>
    decreases l,
{
    match l {
        List::Nil => Seq::empty(),
        List::Cons(x, rest) => item_ids(*x) + items_ids(*rest),
    }
}

/// A rule consumed at least one token, stayed within the input, and its node
/// carries exactly the identities handed out meanwhile, in order.
pub open spec fn consumed<T>(t: Seq<SpannedToken>, pos: usize, st: ParserState, r: Outcome<T>, ids: spec_fn(T) -> Seq<u64>) -> bool {
    r matches Ok(p) ==> pos < p.next <= t.len() && st.next <= p.state.next && ids(p.node) == id_range(st.next, p.state.next)
}

/// As `consumed`, for a list that may be empty.
pub open spec fn listed<T>(t: Seq<SpannedToken>, pos: usize, st: ParserState, r: Outcome<T>, ids: spec_fn(T) -> Seq<u64>) -> bool {
    r matches Ok(p) ==> pos <= p.next <= t.len() && st.next <= p.state.next && ids(p.node) == id_range(st.next, p.state.next)
}

proof fn lemma_ty(t: Seq<SpannedToken>, pos: usize, st: ParserState)
    ensures
        ty(t, pos, st) matches Ok(p) ==> pos < p.next <= t.len() && p.state == st,
    decreases t.len() - pos,
{
    if has_token(t, pos) && t[pos as int].token is Ptr {
        if let Some(inner) = deeper(st) {
            lemma_ty(t, (pos + 1) as usize, inner);
        }
    }
}

proof fn lemma_opt_ty(t: Seq<SpannedToken>, pos: usize, st: ParserState, marker: u64)
    requires
        pos <= t.len(),
        marker != 0,
    ensures
        opt_ty(t, pos, st, marker) matches Ok(p) ==> pos <= p.next <= t.len() && p.state == st,
{
    if kind_at(t, pos) == marker {
        lemma_ty(t, (pos + 1) as usize, st);
    }
}

proof fn lemma_pair(t: Seq<SpannedToken>, pos: usize, st: ParserState)
    ensures
        consumed(t, pos, st, pair(t, pos, st), |p: NameTyPair| seq![p.id.0]),
{
    if let Ok(_) = ident(t, pos) {
        if let Ok(p) = expect(t, (pos + 1) as usize, COLON) {
            lemma_ty(t, p, st);
            if st.next < u64::MAX {
                lemma_range_one(st.next);
            }
        }
    }
}

proof fn lemma_pairs(t: Seq<SpannedToken>, pos: usize, st: ParserState, close: u64, trailing: bool, first: bool)
    requires
        pos <= t.len(),
    ensures
        listed(t, pos, st, pairs(t, pos, st, close, trailing, first), |l: List<NameTyPair>| pairs_ids(l)),
    decreases t.len() - pos,
{
    assert(id_range(st.next, st.next) =~= Seq::<u64>::empty());
    if !(kind_at(t, pos) == close && (first || trailing)) {
        lemma_pair(t, pos, st);
        if let Ok(e) = pair(t, pos, st) {
            if advanced(t, pos, e.next) {
                if kind_at(t, e.next) == COMMA {
                    lemma_pairs(t, (e.next + 1) as usize, e.state, close, trailing, false);
                    if let Ok(r) = pairs(t, (e.next + 1) as usize, e.state, close, trailing, false) {
                        lemma_range_concat(st.next, e.state.next, r.state.next);
                    }
                } else {
                    assert(seq![e.node.id.0] + pairs_ids(List::Nil) =~= seq![e.node.id.0]);
                }
            }
        }
    }
}

proof fn lemma_opt_init(t: Seq<SpannedToken>, pos: usize, st: ParserState)
    requires
        pos <= t.len(),
    ensures
        listed(t, pos, st, opt_init(t, pos, st), |e: Option<Expr>| opt_expr_ids(e)),
{
    assert(id_range(st.next, st.next) =~= Seq::<u64>::empty());
    if kind_at(t, pos) == EQ {
        lemma_expr(t, (pos + 1) as usize, st);
    }
}

proof fn lemma_var_decl(t: Seq<SpannedToken>, pos: usize, st: ParserState)
    ensures
        consumed(t, pos, st, var_decl(t, pos, st), |s: Stmt| stmt_ids(s)),
{
    if let Ok(p0) = expect(t, pos, LET) {
        if let Ok(_) = ident(t, p0) {
            lemma_opt_ty(t, (p0 + 1) as usize, st, COLON);
            if let Ok(y) = opt_ty(t, (p0 + 1) as usize, st, COLON) {
                lemma_opt_init(t, y.next, y.state);
            }
        }
    }
}

proof fn lemma_simple_stmt(t: Seq<SpannedToken>, pos: usize, st: ParserState)
    ensures
        consumed(t, pos, st, simple_stmt(t, pos, st), |s: Stmt| stmt_ids(s)),
{
    lemma_expr(t, pos, st);
    if let Ok(e) = expr(t, pos, st) {
        if kind_at(t, e.next) == EQ {
            lemma_expr(t, (e.next + 1) as usize, e.state);
            if let Ok(v) = expr(t, (e.next + 1) as usize, e.state) {
                lemma_range_concat(st.next, e.state.next, v.state.next);
            }
        }
    }
}

proof fn lemma_block(t: Seq<SpannedToken>, pos: usize, st: ParserState, nested: bool)
    ensures
        consumed(t, pos, st, block(t, pos, st, nested), |l: List<Stmt>| stmts_ids(l)),
    decreases t.len() - pos, 0nat,
{
    if let Ok(p) = expect(t, pos, BRACE_O) {
        if let Some(inner) = deeper(st) {
            lemma_stmts(t, p, inner, nested);
        }
    }
}

proof fn lemma_stmts(t: Seq<SpannedToken>, pos: usize, st: ParserState, nested: bool)
    ensures
        consumed(t, pos, st, stmts(t, pos, st, nested), |l: List<Stmt>| stmts_ids(l)),
    decreases t.len() - pos, 3nat,
{
    assert(id_range(st.next, st.next) =~= Seq::<u64>::empty());
    if kind_at(t, pos) != BRACE_C {
        lemma_stmt(t, pos, st, nested);
        if let Ok(s) = stmt(t, pos, st, nested) {
            if advanced(t, pos, s.next) {
                lemma_stmts(t, s.next, s.state, nested);
                if let Ok(r) = stmts(t, s.next, s.state, nested) {
                    lemma_range_concat(st.next, s.state.next, r.state.next);
                }
            }
        }
    }
}

proof fn lemma_stmt(t: Seq<SpannedToken>, pos: usize, st: ParserState, nested: bool)
    ensures
        consumed(t, pos, st, stmt(t, pos, st, nested), |s: Stmt| stmt_ids(s)),
    decreases t.len() - pos, 2nat,
{
    let k = kind_at(t, pos);
    if k == LET {
        lemma_var_decl(t, pos, st);
    } else if k == IF {
        lemma_if_stmt(t, pos, st, nested);
    } else if k == WHILE {
        lemma_while_stmt(t, pos, st, nested);
    } else if nested && k == FN {
        lemma_function(t, pos, st, nested);
    } else {
        lemma_simple_stmt(t, pos, st);
    }
}

proof fn lemma_if_stmt(t: Seq<SpannedToken>, pos: usize, st: ParserState, nested: bool)
    ensures
        consumed(t, pos, st, if_stmt(t, pos, st, nested), |i: IfStmt| if_ids(i)),
    decreases t.len() - pos, 1nat,
{
    if let Ok(p0) = expect(t, pos, IF) {
        lemma_expr(t, p0, st);
        if let Ok(c) = expr(t, p0, st) {
            if advanced(t, pos, c.next) {
                lemma_block(t, c.next, c.state, nested);
                if let Ok(b) = block(t, c.next, c.state, nested) {
                    if advanced(t, pos, b.next) {
                        lemma_range_concat(st.next, c.state.next, b.state.next);
                        assert(id_range(st.next, b.state.next) + Seq::<u64>::empty() =~= id_range(st.next, b.state.next));
                        if kind_at(t, b.next) == ELSE {
                            let p = (b.next + 1) as usize;
                            if kind_at(t, p) == IF {
                                if let Some(inner) = deeper(b.state) {
                                    lemma_if_stmt(t, p, inner, nested);
                                    if let Ok(e) = if_stmt(t, p, inner, nested) {
                                        lemma_range_concat(st.next, b.state.next, e.state.next);
                                    }
                                }
                            } else {
                                lemma_block(t, p, b.state, nested);
                                if let Ok(e) = block(t, p, b.state, nested) {
                                    lemma_range_concat(st.next, b.state.next, e.state.next);
                                }
                            }
                        }
                    }
                }
            }
        }
    }
}

proof fn lemma_while_stmt(t: Seq<SpannedToken>, pos: usize, st: ParserState, nested: bool)
    ensures
        consumed(t, pos, st, while_stmt(t, pos, st, nested), |s: Stmt| stmt_ids(s)),
    decreases t.len() - pos, 1nat,
{
    if let Ok(p0) = expect(t, pos, WHILE) {
        lemma_expr(t, p0, st);
        if let Ok(c) = expr(t, p0, st) {
            if advanced(t, pos, c.next) {
                lemma_block(t, c.next, c.state, nested);
                if let Ok(b) = block(t, c.next, c.state, nested) {
                    lemma_range_concat(st.next, c.state.next, b.state.next);
                }
            }
        }
    }
}

proof fn lemma_function(t: Seq<SpannedToken>, pos: usize, st: ParserState, nested: bool)
    ensures
        consumed(t, pos, st, function(t, pos, st, nested), |f: FnDecl| item_ids(Item::FnDecl(f))),
    decreases t.len() - pos, 1nat,
{
    if let Ok(p0) = expect(t, pos, FN) {
        if let Ok(_) = ident(t, p0) {
            if let Ok(p1) = expect(t, (p0 + 1) as usize, PAREN_O) {
                lemma_pairs(t, p1, st, PAREN_C, true, true);
                if let Ok(ps) = pairs(t, p1, st, PAREN_C, true, true) {
                    if let Ok(p2) = expect(t, ps.next, PAREN_C) {
                        lemma_opt_ty(t, p2, ps.state, ARROW);
                        if let Ok(r) = opt_ty(t, p2, ps.state, ARROW) {
                            if advanced(t, pos, r.next) {
                                lemma_block(t, r.next, r.state, nested);
                                if let Ok(b) = block(t, r.next, r.state, nested) {
                                    if let Some((_, st2)) = fresh(b.state) {
                                        lemma_range_one(b.state.next);
                                        lemma_range_concat(st.next, ps.state.next, b.state.next);
                                        lemma_range_concat(st.next, b.state.next, st2.next);
                                    }
                                }
                            }
                        }
                    }
                }
            }
        }
    }
}

proof fn lemma_struct_decl(t: Seq<SpannedToken>, pos: usize, st: ParserState)
    ensures
        consumed(t, pos, st, struct_decl(t, pos, st), |s: StructDecl| item_ids(Item::StructDecl(s))),
{
    if let Ok(p0) = expect(t, pos, STRUCT) {
        if let Ok(_) = ident(t, p0) {
            if let Ok(p1) = expect(t, (p0 + 1) as usize, BRACE_O) {
                lemma_pairs(t, p1, st, BRACE_C, false, true);
                if let Ok(fs) = pairs(t, p1, st, BRACE_C, false, true) {
                    if let Some((_, st2)) = fresh(fs.state) {
                        lemma_range_one(fs.state.next);
                        lemma_range_concat(st.next, fs.state.next, st2.next);
                    }
                }
            }
        }
    }
}

proof fn lemma_item(t: Seq<SpannedToken>, pos: usize, st: ParserState, nested: bool)
    ensures
        consumed(t, pos, st, item(t, pos, st, nested), |i: Item| item_ids(i)),
{
    let k = kind_at(t, pos);
    if k == FN {
        lemma_function(t, pos, st, nested);
    } else if k == STRUCT {
        lemma_struct_decl(t, pos, st);
    }
}

proof fn lemma_resync(t: Seq<SpannedToken>, p: usize)
    ensures
        p <= resync(t, p),
        p <= t.len() ==> resync(t, p) <= t.len(),
    decreases t.len() - p,
{
    if has_token(t, p) && !(kind_at(t, p) == FN || kind_at(t, p) == STRUCT) {
        lemma_resync(t, (p + 1) as usize);
    }
}

proof fn lemma_file_items(t: Seq<SpannedToken>, pos: usize, st: ParserState, nested: bool)
    ensures
        st.next + items_ids(file_items(t, pos, st, nested).0).len() <= u64::MAX,
        items_ids(file_items(t, pos, st, nested).0) == id_range(st.next, (st.next + items_ids(file_items(t, pos, st, nested).0).len()) as u64),
    decreases t.len() - pos,
{
    assert(id_range(st.next, st.next) =~= Seq::<u64>::empty());
    if has_token(t, pos) {
        lemma_item(t, pos, st, nested);
        match item(t, pos, st, nested) {
            Ok(i) => if advanced(t, pos, i.next) {
                lemma_file_items(t, i.next, i.state, nested);
                let rest = items_ids(file_items(t, i.next, i.state, nested).0);
                lemma_range_concat(st.next, i.state.next, (i.state.next + rest.len()) as u64);
            },
            Err(_) => {
                lemma_resync(t, (pos + 1) as usize);
                let p = resync(t, (pos + 1) as usize);
                if advanced(t, pos, p) {
                    lemma_file_items(t, p, st, nested);
                }
            },
        }
    }
}

/// In a parsed file, the identities of all nodes, item by item and children
/// before parents, are 0, 1, 2, .. in the order the nodes were built: every
/// node has an identity of its own and none is skipped.
pub proof fn lemma_file_ids(t: Seq<SpannedToken>, source_len: usize, name: String, nested: bool)
    ensures
        parse_tokens(t, source_len, name, nested).0 matches Some(f) ==> items_ids(f.items) == id_range(0, items_ids(f.items).len() as u64),
{
    lemma_file_items(t, 0, ParserState { next: 0, depth: 0 }, nested);
}

} // verus!
