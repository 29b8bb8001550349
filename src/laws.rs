//! Properties of the grammar that hold of every input.
use vstd::prelude::*;

use crate::ast::{
    deeper, fresh, restored, BinOpKind, ElsePart, Expr, ExprKind, IfStmt, Item, List, NameTyPair,
    NodeId, ParserState, Stmt, TyKind, MAX_NESTING,
};
use crate::grammar::{
    advanced, atom, binary, binary_rest, binop_kind, block, call, call_rest, expect, expr,
    expr_list, file_items, function, has_token, ident, if_stmt, item, kind_at, last_end, operand,
    opt_ty, pair, pairs, parse_tokens, span_of, stmt, stmts, struct_decl, ty, unary, while_stmt,
    Failure, Outcome, Parsed,
};
use crate::token::{
    spec_kind, Span, SpannedToken, Token, AMPERSAND, ARROW, ASTERISK, BANG, BANG_EQ, BRACE_C,
    BRACE_O, BRACKET_C, COLON, COMMA, ELSE, EQ_EQ, FN, IF, MINUS, PAREN_C, PAREN_O, PLUS, SLASH,
    STRUCT, WHILE,
};

verus! {

/// The span a statement records, where it records one.
pub open spec fn stmt_span(s: Stmt) -> Option<Span> {
    match s {
        Stmt::VarDecl(d) => Some(d.span),
        Stmt::Assignment(a) => Some(a.span),
        Stmt::Expr(_) => None,
        Stmt::IfStmt(i) => Some(i.span),
        Stmt::WhileStmt(w) => Some(w.span),
        Stmt::Item(i) => Some(item_span(*i)),
    }
}

pub open spec fn item_span(i: Item) -> Span {
    match i {
        Item::FnDecl(f) => f.span,
        Item::StructDecl(s) => s.span,
    }
}

/// Parsing is a function of its inputs: the same tokens, source length, file
/// name and grammar choice give the same tree, the same node identities and the
/// same diagnostics, in the same order.
pub proof fn lemma_parse_deterministic(
    t1: Seq<SpannedToken>,
    t2: Seq<SpannedToken>,
    source_len: usize,
    name: String,
    nested: bool,
)
    requires
        t1 == t2,
    ensures
        parse_tokens(t1, source_len, name, nested) == parse_tokens(t2, source_len, name, nested),
{
}

/// A parse that yields no file reports at least one diagnostic: failure is
/// never silent.
pub proof fn lemma_no_file_has_diagnostics(t: Seq<SpannedToken>, source_len: usize, name: String, nested: bool)
    ensures
        parse_tokens(t, source_len, name, nested).0 is None ==> parse_tokens(t, source_len, name, nested).1.len() > 0,
{
    let fs = file_items(t, 0, ParserState { next: 0, depth: 0 }, nested).1;
    if let List::Cons(f, rest) = fs {
        assert(fs.elems().len() == 1 + rest.elems().len());
    }
}

/// An item's span runs from the start of its first token to the end of its last.
pub proof fn lemma_item_span_covers_tokens(t: Seq<SpannedToken>, pos: usize, st: ParserState, nested: bool)
    ensures
        item(t, pos, st, nested) matches Ok(p) ==> item_span(p.node) == span_of(t, pos, p.next),
{
}

/// A statement other than an expression statement spans exactly its tokens, and
/// a final `else` block ends where its `if` statement ends.
pub proof fn lemma_stmt_span_covers_tokens(t: Seq<SpannedToken>, pos: usize, st: ParserState, nested: bool)
    ensures
        stmt(t, pos, st, nested) matches Ok(p) ==> (stmt_span(p.node) matches Some(s) ==> s == span_of(t, pos, p.next)),
        if_stmt(t, pos, st, nested) matches Ok(p) ==> (p.node.else_part matches Some(ElsePart::Else(_, s)) ==> s.end == span_of(t, pos, p.next).end),
{
}

/// A type, and a `name: type` pair, span exactly their tokens.
pub proof fn lemma_ty_span_covers_tokens(t: Seq<SpannedToken>, pos: usize, st: ParserState)
    ensures
        ty(t, pos, st) matches Ok(p) ==> p.node.span == span_of(t, pos, p.next),
        pair(t, pos, st) matches Ok(p) ==> p.node.span == span_of(t, pos, p.next),
{
}

/// Literals, names and array literals span exactly their tokens; a
/// parenthesized expression keeps the span of what the parentheses enclose.
pub proof fn lemma_atom_span_covers_tokens(t: Seq<SpannedToken>, pos: usize, st: ParserState)
    ensures
        atom(t, pos, st) matches Ok(p) ==> if kind_at(t, pos) == PAREN_O {
            deeper(st) matches Some(inner) && expr(t, (pos + 1) as usize, inner) matches Ok(e) && p.node == e.node && p.next == e.next + 1
        } else {
            p.node.span == span_of(t, pos, p.next)
        },
{
}


/// Every node of an expression follows the span rules: a binary operation spans
/// from the start of its left operand to the end of its right one, a call from
/// the start of its callee to the end of its last argument (the callee's end
/// without arguments), and a prefix operation takes its operand's span.
pub open spec fn expr_spans_ok(e: Expr) -> bool
    decreases e,
{
    match e.kind {
        ExprKind::Literal(_) => true,
        ExprKind::Name(_) => true,
        ExprKind::Array(l) => list_spans_ok(l),
        ExprKind::Call { callee, args } => e.span == Span { start: callee.span.start, end: last_end(args, callee.span.end) }
            && expr_spans_ok(*callee) && list_spans_ok(args),
        ExprKind::UnaryOp { kind: _, expr } => e.span == expr.span && expr_spans_ok(*expr),
        ExprKind::BinOp { kind: _, lhs, rhs } => e.span == Span { start: lhs.span.start, end: rhs.span.end }
            && expr_spans_ok(*lhs) && expr_spans_ok(*rhs),
    }
}

pub open spec fn list_spans_ok(l: List<Expr>) -> bool
    decreases l,
{
    match l {
        List::Nil => true,
        List::Cons(x, rest) => expr_spans_ok(*x) && list_spans_ok(*rest),
    }
}

proof fn lemma_atom_spans(t: Seq<SpannedToken>, pos: usize, st: ParserState)
    ensures
        atom(t, pos, st) matches Ok(p) ==> expr_spans_ok(p.node),
    decreases t.len() - pos, 0nat,
{
    if has_token(t, pos) {
        match t[pos as int].token {
            Token::BracketO => {
                if let Some(inner) = deeper(st) {
                    lemma_expr_list_spans(t, (pos + 1) as usize, inner, BRACKET_C);
                }
            },
            Token::ParenO => {
                if let Some(inner) = deeper(st) {
                    lemma_expr_spans(t, (pos + 1) as usize, inner);
                }
            },
            _ => {},
        }
    }
}

proof fn lemma_expr_list_spans(t: Seq<SpannedToken>, pos: usize, st: ParserState, close: u64)
    ensures
        expr_list(t, pos, st, close) matches Ok(p) ==> list_spans_ok(p.node),
    decreases t.len() - pos, 10nat,
{
    assert(list_spans_ok(List::Nil));
    if kind_at(t, pos) != close {
        lemma_expr_spans(t, pos, st);
        if let Ok(e) = expr(t, pos, st) {
            if advanced(t, pos, e.next) && kind_at(t, e.next) == COMMA {
                lemma_expr_list_spans(t, (e.next + 1) as usize, e.state, close);
            }
        }
    }
}

proof fn lemma_call_spans(t: Seq<SpannedToken>, pos: usize, st: ParserState)
    ensures
        call(t, pos, st) matches Ok(p) ==> expr_spans_ok(p.node),
    decreases t.len() - pos, 1nat,
{
    lemma_atom_spans(t, pos, st);
    if let Ok(a) = atom(t, pos, st) {
        if advanced(t, pos, a.next) {
            lemma_call_rest_spans(t, a.next, a.node, a.state);
        }
    }
}

proof fn lemma_call_rest_spans(t: Seq<SpannedToken>, pos: usize, callee: Expr, st: ParserState)
    requires
        expr_spans_ok(callee),
    ensures
        call_rest(t, pos, callee, st) matches Ok(p) ==> expr_spans_ok(p.node),
    decreases t.len() - pos, 1nat,
{
    if kind_at(t, pos) == PAREN_O && deeper(st) is Some {
        let inner = deeper(st).unwrap();
        lemma_expr_list_spans(t, (pos + 1) as usize, inner, PAREN_C);
        if let Ok(l) = expr_list(t, (pos + 1) as usize, inner, PAREN_C) {
            if let Ok(p) = expect(t, l.next, PAREN_C) {
                if let Some((id, st2)) = fresh(restored(l.state, st)) {
                    if advanced(t, pos, p) {
                        lemma_call_rest_spans(t, p, Expr {
                            kind: ExprKind::Call { callee: Box::new(callee), args: l.node },
                            id,
                            span: Span { start: callee.span.start, end: last_end(l.node, callee.span.end) },
                        }, st2);
                    }
                }
            }
        }
    }
}

proof fn lemma_unary_spans(t: Seq<SpannedToken>, pos: usize, st: ParserState)
    ensures
        unary(t, pos, st) matches Ok(p) ==> expr_spans_ok(p.node),
    decreases t.len() - pos, 2nat,
{
    let k = kind_at(t, pos);
    if k == MINUS || k == BANG || k == AMPERSAND || k == ASTERISK {
        if let Some(inner) = deeper(st) {
            lemma_unary_spans(t, (pos + 1) as usize, inner);
        }
    } else {
        lemma_call_spans(t, pos, st);
    }
}

proof fn lemma_operand_spans(t: Seq<SpannedToken>, pos: usize, st: ParserState, level: u8)
    ensures
        operand(t, pos, st, level) matches Ok(p) ==> expr_spans_ok(p.node),
    decreases t.len() - pos, 2 * level + 3,
{
    if level == 0 {
        lemma_unary_spans(t, pos, st);
    } else {
        lemma_binary_spans(t, pos, st, (level - 1) as u8);
    }
}

proof fn lemma_binary_spans(t: Seq<SpannedToken>, pos: usize, st: ParserState, level: u8)
    ensures
        binary(t, pos, st, level) matches Ok(p) ==> expr_spans_ok(p.node),
    decreases t.len() - pos, 2 * level + 4,
{
    lemma_operand_spans(t, pos, st, level);
    if let Ok(a) = operand(t, pos, st, level) {
        if advanced(t, pos, a.next) {
            lemma_binary_rest_spans(t, a.next, a.node, a.state, level);
        }
    }
}

proof fn lemma_binary_rest_spans(t: Seq<SpannedToken>, pos: usize, lhs: Expr, st: ParserState, level: u8)
    requires
        expr_spans_ok(lhs),
    ensures
        binary_rest(t, pos, lhs, st, level) matches Ok(p) ==> expr_spans_ok(p.node),
    decreases t.len() - pos, 2 * level + 4,
{
    if let Some(op) = binop_kind(level, kind_at(t, pos)) {
        lemma_operand_spans(t, (pos + 1) as usize, st, level);
        if let Ok(b) = operand(t, (pos + 1) as usize, st, level) {
            if let Some((id, st2)) = fresh(b.state) {
                if advanced(t, pos, b.next) {
                    lemma_binary_rest_spans(t, b.next, Expr {
                        kind: ExprKind::BinOp { kind: op, lhs: Box::new(lhs), rhs: Box::new(b.node) },
                        id,
                        span: Span { start: lhs.span.start, end: b.node.span.end },
                    }, st2, level);
                }
            }
        }
    }
}

/// Every node of every expression that parses follows the span rules of
/// `expr_spans_ok`, at any depth.
pub proof fn lemma_expr_spans(t: Seq<SpannedToken>, pos: usize, st: ParserState)
    ensures
        expr(t, pos, st) matches Ok(p) ==> expr_spans_ok(p.node),
    decreases t.len() - pos, 9nat,
{
    lemma_binary_spans(t, pos, st, 2);
}

proof fn lemma_stmts_close(t: Seq<SpannedToken>, pos: usize, st: ParserState, nested: bool)
    ensures
        stmts(t, pos, st, nested) matches Ok(p) ==> p.next > 0 && kind_at(t, (p.next - 1) as usize) == BRACE_C,
    decreases t.len() - pos,
{
    if kind_at(t, pos) != BRACE_C {
        if let Ok(s) = stmt(t, pos, st, nested) {
            if advanced(t, pos, s.next) {
                lemma_stmts_close(t, s.next, s.state, nested);
            }
        }
    }
}

proof fn lemma_block_close(t: Seq<SpannedToken>, pos: usize, st: ParserState, nested: bool)
    ensures
        block(t, pos, st, nested) matches Ok(p) ==> p.next > 0 && kind_at(t, (p.next - 1) as usize) == BRACE_C,
{
    if let Ok(p) = expect(t, pos, BRACE_O) {
        if let Some(inner) = deeper(st) {
            lemma_stmts_close(t, p, inner, nested);
        }
    }
}

proof fn lemma_if_close(t: Seq<SpannedToken>, pos: usize, st: ParserState, nested: bool)
    ensures
        if_stmt(t, pos, st, nested) matches Ok(p) ==> p.next > 0 && kind_at(t, (p.next - 1) as usize) == BRACE_C,
    decreases t.len() - pos,
{
    if let Ok(p0) = expect(t, pos, IF) {
        if let Ok(c) = expr(t, p0, st) {
            if advanced(t, pos, c.next) {
                lemma_block_close(t, c.next, c.state, nested);
                if let Ok(b) = block(t, c.next, c.state, nested) {
                    if advanced(t, pos, b.next) && kind_at(t, b.next) == ELSE {
                        let p = (b.next + 1) as usize;
                        if kind_at(t, p) == IF {
                            if let Some(inner) = deeper(b.state) {
                                lemma_if_close(t, p, inner, nested);
                            }
                        } else {
                            lemma_block_close(t, p, b.state, nested);
                        }
                    }
                }
            }
        }
    }
}

/// Every `if` (with its whole `else` chain), `while`, function and struct
/// declaration begins with its keyword and ends with the `}` that closes it;
/// with the span laws above, its span runs from the keyword to that brace.
pub proof fn lemma_braced_ends(t: Seq<SpannedToken>, pos: usize, st: ParserState, nested: bool)
    ensures
        if_stmt(t, pos, st, nested) matches Ok(p) ==> kind_at(t, pos) == IF && kind_at(t, (p.next - 1) as usize) == BRACE_C,
        while_stmt(t, pos, st, nested) matches Ok(p) ==> kind_at(t, pos) == WHILE && kind_at(t, (p.next - 1) as usize) == BRACE_C,
        function(t, pos, st, nested) matches Ok(p) ==> kind_at(t, pos) == FN && kind_at(t, (p.next - 1) as usize) == BRACE_C,
        struct_decl(t, pos, st) matches Ok(p) ==> kind_at(t, pos) == STRUCT && kind_at(t, (p.next - 1) as usize) == BRACE_C,
{
    lemma_if_close(t, pos, st, nested);
    if let Ok(p0) = expect(t, pos, WHILE) {
        if let Ok(c) = expr(t, p0, st) {
            lemma_block_close(t, c.next, c.state, nested);
        }
    }
    if let Ok(p0) = expect(t, pos, FN) {
        if let Ok(_) = ident(t, p0) {
            if let Ok(p1) = expect(t, (p0 + 1) as usize, PAREN_O) {
                if let Ok(ps) = pairs(t, p1, st, PAREN_C, true, true) {
                    if let Ok(p2) = expect(t, ps.next, PAREN_C) {
                        if let Ok(r) = opt_ty(t, p2, ps.state, ARROW) {
                            lemma_block_close(t, r.next, r.state, nested);
                        }
                    }
                }
            }
        }
    }
}

/// The token at `q` is the identifier `s`.
pub open spec fn ident_at(t: Seq<SpannedToken>, q: int, s: String) -> bool {
    0 <= q < t.len() && t[q].token == Token::Ident(s)
}

pub open spec fn kind_is(t: Seq<SpannedToken>, q: int, k: u64) -> bool {
    0 <= q < t.len() && spec_kind(t[q].token) == k
}

/// From `q` on, `t` holds the fields `names[0]: tys[0], .., names[k-1]: tys[k-1]`,
/// comma-separated, each type a plain name, followed by `}`.
pub open spec fn fields_at(t: Seq<SpannedToken>, q: int, names: Seq<String>, tys: Seq<String>) -> bool
    decreases names.len(),
{
    names.len() == tys.len() && if names.len() == 0 {
        kind_is(t, q, BRACE_C)
    } else {
        ident_at(t, q, names[0]) && kind_is(t, q + 1, COLON) && ident_at(t, q + 2, tys[0]) && if names.len() == 1 {
            kind_is(t, q + 3, BRACE_C)
        } else {
            kind_is(t, q + 3, COMMA) && fields_at(t, q + 4, names.drop_first(), tys.drop_first())
        }
    }
}

/// The names and types of a field list, in order.
pub open spec fn fields_are(l: List<NameTyPair>, names: Seq<String>, tys: Seq<String>) -> bool {
    l.elems().len() == names.len() && forall|i: int| 0 <= i < names.len() ==> (#[trigger] l.elems()[i]).name == names[i] && l.elems()[i].ty.kind == TyKind::Name(tys[i])
}

proof fn lemma_pairs_in_order(t: Seq<SpannedToken>, q: usize, st: ParserState, names: Seq<String>, tys: Seq<String>, first: bool)
    requires
        t.len() < usize::MAX,
        fields_at(t, q as int, names, tys),
        first || names.len() > 0,
        st.next + names.len() < u64::MAX,
    ensures
        pairs(t, q, st, BRACE_C, false, first) matches Ok(p) && fields_are(p.node, names, tys) && kind_at(t, p.next) == BRACE_C
            && p.state.next == st.next + names.len(),
    decreases names.len(),
{
    if names.len() > 0 {
        let rn = names.drop_first();
        let rt = tys.drop_first();
        let st2 = ParserState { next: (st.next + 1) as u64, depth: st.depth };
        if names.len() > 1 {
            lemma_pairs_in_order(t, (q + 4) as usize, st2, rn, rt, false);
            let r = pairs(t, (q + 4) as usize, st2, BRACE_C, false, false)->Ok_0;
            let p = pairs(t, q, st, BRACE_C, false, first)->Ok_0;
            assert(p.node.elems() =~= seq![p.node.elems()[0]] + r.node.elems());
            assert forall|i: int| 0 <= i < names.len() implies (#[trigger] p.node.elems()[i]).name == names[i] && p.node.elems()[i].ty.kind == TyKind::Name(tys[i]) by {
                if i > 0 {
                    assert(p.node.elems()[i] == r.node.elems()[i - 1]);
                    assert(rn[i - 1] == names[i] && rt[i - 1] == tys[i]);
                }
            }
        } else {
            let p = pairs(t, q, st, BRACE_C, false, first)->Ok_0;
            assert(List::<NameTyPair>::Nil.elems() =~= Seq::empty());
            assert(p.node.elems() =~= seq![p.node.elems()[0]]);
        }
    }
}

/// A struct declaration keeps its fields in the order they are written: for
/// `struct N { n1: T1, .., nk: Tk }` with plain type names, the fields are
/// exactly `n1: T1` to `nk: Tk`, in that order, none merged, dropped or sorted.
pub proof fn lemma_struct_fields_in_order(t: Seq<SpannedToken>, pos: usize, st: ParserState, name: String, names: Seq<String>, tys: Seq<String>)
    requires
        t.len() < usize::MAX,
        kind_is(t, pos as int, STRUCT),
        ident_at(t, pos + 1, name),
        kind_is(t, pos + 2, BRACE_O),
        fields_at(t, pos + 3, names, tys),
        st.next + names.len() < u64::MAX,
    ensures
        struct_decl(t, pos, st) matches Ok(p) && p.node.name == name && fields_are(p.node.fields, names, tys),
{
    lemma_pairs_in_order(t, (pos + 3) as usize, st, names, tys, true);
}

/// A token kind that continues no expression: no argument list, no binary operator.
pub open spec fn ends_expr(k: u64) -> bool {
    k != PAREN_O && binop_kind(0, k) is None && binop_kind(1, k) is None && binop_kind(2, k) is None
}

/// A name followed by a token that continues no expression is parsed as that name.
pub proof fn lemma_name_expr(t: Seq<SpannedToken>, q: usize, st: ParserState, s: String)
    requires
        t.len() < usize::MAX,
        ident_at(t, q as int, s),
        ends_expr(kind_at(t, (q + 1) as usize)),
        st.next < u64::MAX,
    ensures
        expr(t, q, st) == Ok::<Parsed<Expr>, Failure>(Parsed {
            node: Expr { kind: ExprKind::Name(s), id: NodeId(st.next), span: t[q as int].span },
            next: (q + 1) as usize,
            state: ParserState { next: (st.next + 1) as u64, depth: st.depth },
        }),
{
    let e = Expr { kind: ExprKind::Name(s), id: NodeId(st.next), span: t[q as int].span };
    let st2 = ParserState { next: (st.next + 1) as u64, depth: st.depth };
    let n = (q + 1) as usize;
    let r = Ok::<Parsed<Expr>, Failure>(Parsed { node: e, next: n, state: st2 });
    assert(span_of(t, q, n) == t[q as int].span);
    assert(atom(t, q, st) == r);
    assert(call_rest(t, n, e, st2) == r);
    assert(call(t, q, st) == r);
    assert(unary(t, q, st) == r);
    assert(operand(t, q, st, 0) == r);
    assert(binary_rest(t, n, e, st2, 0) == r);
    assert(binary(t, q, st, 0) == r);
    assert(operand(t, q, st, 1) == r);
    assert(binary_rest(t, n, e, st2, 1) == r);
    assert(binary(t, q, st, 1) == r);
    assert(operand(t, q, st, 2) == r);
    assert(binary_rest(t, n, e, st2, 2) == r);
    assert(binary(t, q, st, 2) == r);
}

/// From `q` on, `t` holds `if c1 {} else if c2 {} .. else if ck {}`, each
/// condition a name, optionally closed by `else {}`; without that final `else`,
/// no `else` follows the chain.
pub open spec fn if_chain_at(t: Seq<SpannedToken>, q: int, conds: Seq<String>, final_else: bool) -> bool
    decreases conds.len(),
{
    conds.len() > 0 && kind_is(t, q, IF) && ident_at(t, q + 1, conds[0]) && kind_is(t, q + 2, BRACE_O)
        && kind_is(t, q + 3, BRACE_C) && if conds.len() == 1 {
        if final_else {
            kind_is(t, q + 4, ELSE) && kind_is(t, q + 5, BRACE_O) && kind_is(t, q + 6, BRACE_C)
        } else {
            !kind_is(t, q + 4, ELSE)
        }
    } else {
        kind_is(t, q + 4, ELSE) && if_chain_at(t, q + 5, conds.drop_first(), final_else)
    }
}

/// An `if` statement that is a chain of as many levels as there are conditions:
/// level i tests `conds[i]`, each level but the last has the next as its
/// `else if`, and the last has an empty `else` block exactly when `final_else`.
pub open spec fn chain_shape(i: IfStmt, conds: Seq<String>, final_else: bool) -> bool
    decreases conds.len(),
{
    conds.len() > 0 && i.cond.kind == ExprKind::Name(conds[0]) && i.body == List::<Stmt>::Nil && if conds.len() == 1 {
        if final_else {
            i.else_part matches Some(ElsePart::Else(b, _)) && b == List::<Stmt>::Nil
        } else {
            i.else_part is None
        }
    } else {
        i.else_part matches Some(ElsePart::ElseIf(j)) && chain_shape(*j, conds.drop_first(), final_else)
    }
}

proof fn lemma_empty_block(t: Seq<SpannedToken>, q: usize, st: ParserState, nested: bool)
    requires
        t.len() < usize::MAX,
        kind_is(t, q as int, BRACE_O),
        kind_is(t, q + 1, BRACE_C),
        st.depth < MAX_NESTING,
    ensures
        block(t, q, st, nested) == Ok::<Parsed<List<Stmt>>, Failure>(Parsed { node: List::Nil, next: (q + 2) as usize, state: st }),
{
    let inner = ParserState { next: st.next, depth: (st.depth + 1) as u32 };
    assert(stmts(t, (q + 1) as usize, inner, nested) == Ok::<Parsed<List<Stmt>>, Failure>(Parsed { node: List::Nil, next: (q + 2) as usize, state: inner }));
}

/// An `else if` chain of k links parses to k nested levels, each `else`
/// binding to the nearest `if`, ending in the final `else` block if there is one.
pub proof fn lemma_else_if_chain(t: Seq<SpannedToken>, q: usize, st: ParserState, conds: Seq<String>, final_else: bool, nested: bool)
    requires
        t.len() < usize::MAX,
        if_chain_at(t, q as int, conds, final_else),
        st.next + conds.len() < u64::MAX,
        st.depth + conds.len() <= MAX_NESTING,
    ensures
        if_stmt(t, q, st, nested) matches Ok(p) && chain_shape(p.node, conds, final_else)
            && p.state.next == st.next + conds.len() && p.state.depth == st.depth,
    decreases conds.len(),
{
    lemma_name_expr(t, (q + 1) as usize, st, conds[0]);
    let st2 = ParserState { next: (st.next + 1) as u64, depth: st.depth };
    lemma_empty_block(t, (q + 2) as usize, st2, nested);
    if conds.len() > 1 {
        let inner = ParserState { next: st2.next, depth: (st.depth + 1) as u32 };
        lemma_else_if_chain(t, (q + 5) as usize, inner, conds.drop_first(), final_else, nested);
    } else if final_else {
        lemma_empty_block(t, (q + 5) as usize, st2, nested);
    }
}

/// The binary operators of the ladder.
pub open spec fn is_binop(k: u64) -> bool {
    k == ASTERISK || k == SLASH || k == PLUS || k == MINUS || k == EQ_EQ || k == BANG_EQ
}

/// The level of a binary operator: 0 products, 1 sums, 2 comparisons.
pub open spec fn level_of(k: u64) -> u8 {
    if k == ASTERISK || k == SLASH {
        0
    } else if k == PLUS || k == MINUS {
        1
    } else {
        2
    }
}

/// The parts of a binary operation.
pub open spec fn bin(e: Expr) -> Option<(BinOpKind, Expr, Expr)> {
    match e.kind {
        ExprKind::BinOp { kind, lhs, rhs } => Some((kind, *lhs, *rhs)),
        _ => None,
    }
}

pub open spec fn name_node(t: Seq<SpannedToken>, q: usize, s: String, st: ParserState) -> Outcome<Expr> {
    Ok(Parsed {
        node: Expr { kind: ExprKind::Name(s), id: NodeId(st.next), span: t[q as int].span },
        next: (q + 1) as usize,
        state: ParserState { next: (st.next + 1) as u64, depth: st.depth },
    })
}

proof fn lemma_operand_name(t: Seq<SpannedToken>, q: usize, st: ParserState, s: String, level: u8)
    requires
        t.len() < usize::MAX,
        ident_at(t, q as int, s),
        kind_at(t, (q + 1) as usize) != PAREN_O,
        !(is_binop(kind_at(t, (q + 1) as usize)) && level_of(kind_at(t, (q + 1) as usize)) < level),
        st.next < u64::MAX,
        level <= 3,
    ensures
        operand(t, q, st, level) == name_node(t, q, s, st),
    decreases level,
{
    let r = name_node(t, q, s, st);
    let p = r->Ok_0;
    assert(span_of(t, q, p.next) == t[q as int].span);
    if level == 0 {
        assert(atom(t, q, st) == r);
        assert(call_rest(t, p.next, p.node, p.state) == r);
        assert(call(t, q, st) == r);
        assert(unary(t, q, st) == r);
    } else {
        lemma_operand_name(t, q, st, s, (level - 1) as u8);
        assert(binop_kind((level - 1) as u8, kind_at(t, (q + 1) as usize)) is None);
        assert(binary_rest(t, p.next, p.node, p.state, (level - 1) as u8) == r);
        assert(binary(t, q, st, (level - 1) as u8) == r);
    }
}

proof fn lemma_lift(t: Seq<SpannedToken>, q: usize, st: ParserState, level: u8)
    requires
        level < 2,
        binary(t, q, st, level) matches Ok(p) && q < p.next <= t.len() && binop_kind((level + 1) as u8, kind_at(t, p.next)) is None,
    ensures
        binary(t, q, st, (level + 1) as u8) == binary(t, q, st, level),
{
    let p = binary(t, q, st, level)->Ok_0;
    assert(operand(t, q, st, (level + 1) as u8) == binary(t, q, st, level));
    assert(binary_rest(t, p.next, p.node, p.state, (level + 1) as u8) == binary(t, q, st, level));
}

/// `x op1 (y op2 z)`.
pub open spec fn grouped_right(e: Expr, x: String, op1: u64, y: String, op2: u64, z: String) -> bool {
    bin(e) matches Some((k1, a, b)) && Some(k1) == binop_kind(level_of(op1), op1) && a.kind == ExprKind::Name(x)
        && (bin(b) matches Some((k2, c, d)) && Some(k2) == binop_kind(level_of(op2), op2)
        && c.kind == ExprKind::Name(y) && d.kind == ExprKind::Name(z))
}

/// `(x op1 y) op2 z`.
pub open spec fn grouped_left(e: Expr, x: String, op1: u64, y: String, op2: u64, z: String) -> bool {
    bin(e) matches Some((k2, a, d)) && Some(k2) == binop_kind(level_of(op2), op2) && d.kind == ExprKind::Name(z)
        && (bin(a) matches Some((k1, b, c)) && Some(k1) == binop_kind(level_of(op1), op1)
        && b.kind == ExprKind::Name(x) && c.kind == ExprKind::Name(y))
}

/// Operator precedence and associativity: `x op1 y op2 z`, with names and
/// binary operators, groups as `x op1 (y op2 z)` when `op2` binds tighter
/// than `op1`, and as `(x op1 y) op2 z` otherwise, so operators of one level
/// fold to the left.
pub proof fn lemma_precedence(t: Seq<SpannedToken>, q: usize, st: ParserState, x: String, op1: u64, y: String, op2: u64, z: String)
    requires
        t.len() < usize::MAX,
        ident_at(t, q as int, x),
        kind_is(t, q + 1, op1),
        ident_at(t, q + 2, y),
        kind_is(t, q + 3, op2),
        ident_at(t, q + 4, z),
        ends_expr(kind_at(t, (q + 5) as usize)),
        is_binop(op1),
        is_binop(op2),
        st.next + 5 < u64::MAX,
    ensures
        expr(t, q, st) matches Ok(p) && p.next == q + 5 && (if level_of(op2) < level_of(op1) {
            grouped_right(p.node, x, op1, y, op2, z)
        } else {
            grouped_left(p.node, x, op1, y, op2, z)
        }),
{
    let l1 = level_of(op1);
    let l2 = level_of(op2);
    let q1 = (q + 1) as usize;
    let q2 = (q + 2) as usize;
    let q3 = (q + 3) as usize;
    let q4 = (q + 4) as usize;
    let q5 = (q + 5) as usize;
    let k5 = kind_at(t, q5);
    assert(kind_at(t, q1) == op1 && kind_at(t, q3) == op2);
    let s1 = ParserState { next: (st.next + 1) as u64, depth: st.depth };
    let s2 = ParserState { next: (st.next + 2) as u64, depth: st.depth };
    let s3 = ParserState { next: (st.next + 3) as u64, depth: st.depth };
    let s4 = ParserState { next: (st.next + 4) as u64, depth: st.depth };
    let xn = name_node(t, q, x, st)->Ok_0.node;
    if l2 < l1 {
        let yn = name_node(t, q2, y, s1)->Ok_0.node;
        let zn = name_node(t, q4, z, s2)->Ok_0.node;
        lemma_operand_name(t, q2, s1, y, l2);
        lemma_operand_name(t, q4, s2, z, l2);
        let yz = Expr {
            kind: ExprKind::BinOp { kind: binop_kind(l2, op2)->0, lhs: Box::new(yn), rhs: Box::new(zn) },
            id: NodeId(s3.next),
            span: Span { start: yn.span.start, end: zn.span.end },
        };
        let ryz = Ok::<Parsed<Expr>, Failure>(Parsed { node: yz, next: q5, state: s4 });
        assert(binary_rest(t, q5, yz, s4, l2) == ryz);
        assert(binary_rest(t, q3, yn, s2, l2) == ryz);
        assert(binary(t, q2, s1, l2) == ryz);
        if l2 + 1 < l1 {
            lemma_lift(t, q2, s1, l2);
        }
        assert(operand(t, q2, s1, l1) == ryz);
        lemma_operand_name(t, q, st, x, l1);
        let xyz = Expr {
            kind: ExprKind::BinOp { kind: binop_kind(l1, op1)->0, lhs: Box::new(xn), rhs: Box::new(yz) },
            id: NodeId(s4.next),
            span: Span { start: xn.span.start, end: yz.span.end },
        };
        let s5 = ParserState { next: (st.next + 5) as u64, depth: st.depth };
        let r = Ok::<Parsed<Expr>, Failure>(Parsed { node: xyz, next: q5, state: s5 });
        assert(binary_rest(t, q5, xyz, s5, l1) == r);
        assert(binary_rest(t, q1, xn, s1, l1) == r);
        assert(binary(t, q, st, l1) == r);
        if l1 < 2 {
            lemma_lift(t, q, st, l1);
            if l1 < 1 {
                lemma_lift(t, q, st, 1);
            }
        }
        assert(binary(t, q, st, 2) == r);
    } else {
        let yn = name_node(t, q2, y, s1)->Ok_0.node;
        lemma_operand_name(t, q, st, x, l1);
        lemma_operand_name(t, q2, s1, y, l1);
        let xy = Expr {
            kind: ExprKind::BinOp { kind: binop_kind(l1, op1)->0, lhs: Box::new(xn), rhs: Box::new(yn) },
            id: NodeId(s2.next),
            span: Span { start: xn.span.start, end: yn.span.end },
        };
        let zn = name_node(t, q4, z, s3)->Ok_0.node;
        lemma_operand_name(t, q4, s3, z, l2);
        let xyz = Expr {
            kind: ExprKind::BinOp { kind: binop_kind(l2, op2)->0, lhs: Box::new(xy), rhs: Box::new(zn) },
            id: NodeId(s4.next),
            span: Span { start: xy.span.start, end: zn.span.end },
        };
        let s5 = ParserState { next: (st.next + 5) as u64, depth: st.depth };
        let r = Ok::<Parsed<Expr>, Failure>(Parsed { node: xyz, next: q5, state: s5 });
        assert(binary_rest(t, q5, xyz, s5, l2) == r);
        assert(binary_rest(t, q3, xy, s3, l2) == r);
        if l2 == l1 {
            assert(binary_rest(t, q1, xn, s1, l1) == r);
            assert(binary(t, q, st, l1) == r);
        } else {
            let rxy = Ok::<Parsed<Expr>, Failure>(Parsed { node: xy, next: q3, state: s3 });
            assert(binary_rest(t, q3, xy, s3, l1) == rxy);
            assert(binary_rest(t, q1, xn, s1, l1) == rxy);
            assert(binary(t, q, st, l1) == rxy);
            if l1 + 1 < l2 {
                lemma_lift(t, q, st, l1);
            }
            assert(operand(t, q, st, l2) == rxy);
            assert(binary(t, q, st, l2) == r);
        }
        if l2 < 2 {
            lemma_lift(t, q, st, l2);
            if l2 < 1 {
                lemma_lift(t, q, st, 1);
            }
        }
        assert(binary(t, q, st, 2) == r);
    }
}

} // verus!
