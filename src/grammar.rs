//! The grammar as spec functions: each rule maps a token sequence, a position
//! and an identity allocator to the node it parses, the position after it and
//! the allocator after it, or to the failure it meets.
use vstd::prelude::*;

use crate::ast::{
    deeper, fresh, prepend, restored, Assignment, BinOpKind, ElsePart, Expr, ExprKind, File, FnDecl, IfStmt, Item,
    List, Literal, NameTyPair, ParserState, Stmt, StructDecl, Ty, TyKind, UnaryOpKind, VarDecl,
    WhileStmt,
};
use crate::literal::{integer_value, string_value};
use crate::token::{
    spec_kind, Span, SpannedToken, Token, AMPERSAND, ARROW, ASTERISK, BANG, BANG_EQ, BRACE_C,
    BRACE_O, BRACKET_C, BRACKET_O, COLON, COMMA, ELSE, EQ, EQ_EQ, FN, IDENT, IF, INTEGER, INTEGER_IN_RANGE, LET,
    MINUS, PAREN_C, PAREN_O, PLUS, PTR, SEMI, SHALLOWER_NESTING, SLASH, STRING, STRUCT, WHILE,
};

verus! {

/// A parsed node, the position of the first token after it, and the allocator
/// after its identities were handed out.
#[derive(Debug, PartialEq, Eq)]
pub struct Parsed<T> {
    pub node: T,
    pub next: usize,
    pub state: ParserState,
}

/// Where parsing failed (a token position; the token count stands for the end
/// of input) and the kinds of token that would have been accepted there.
#[derive(Debug, Clone, Copy, PartialEq, Eq, Structural)]
pub struct Failure {
    pub pos: usize,
    pub expected: u64,
}

pub type Outcome<T> = Result<Parsed<T>, Failure>;

/// Kinds of token that can start an expression.
pub const EXPR_START: u64 = IDENT | INTEGER | STRING | MINUS | ASTERISK | BANG | AMPERSAND | PAREN_O | BRACKET_O;

/// A token stands at `pos` (and a position follows it).
pub open spec fn has_token(t: Seq<SpannedToken>, pos: usize) -> bool {
    pos < t.len() && pos < usize::MAX
}

pub open spec fn kind_at(t: Seq<SpannedToken>, pos: usize) -> u64 {
    if has_token(t, pos) {
        spec_kind(t[pos as int].token)
    } else {
        0
    }
}

/// The span from the start of token `from` to the end of token `to - 1`.
pub open spec fn span_of(t: Seq<SpannedToken>, from: usize, to: usize) -> Span {
    Span { start: t[from as int].span.start, end: t[to - 1].span.end }
}

/// A sub-rule that succeeded moved forward and stayed within the input.
pub open spec fn advanced(t: Seq<SpannedToken>, pos: usize, p: usize) -> bool {
    pos < p && p <= t.len()
}

/// A failure with nothing to expect: the identity space is used up.
pub open spec fn stall(pos: usize) -> Failure {
    Failure { pos, expected: 0 }
}

/// Of two failures the one further on; at one position, both expected sets.
pub open spec fn merge(a: Failure, b: Failure) -> Failure {
    if a.pos > b.pos {
        a
    } else if b.pos > a.pos {
        b
    } else {
        Failure { pos: a.pos, expected: a.expected | b.expected }
    }
}

/// A token of kind `k` at `pos`: the position after it.
pub open spec fn expect(t: Seq<SpannedToken>, pos: usize, k: u64) -> Result<usize, Failure> {
    if has_token(t, pos) && spec_kind(t[pos as int].token) == k {
        Ok((pos + 1) as usize)
    } else {
        Err(Failure { pos, expected: k })
    }
}

/// An expression node over tokens `from .. to`, with a fresh identity.
pub open spec fn expr_node(
    t: Seq<SpannedToken>,
    from: usize,
    to: usize,
    st: ParserState,
    kind: ExprKind,
) -> Outcome<Expr> {
    match fresh(st) {
        None => Err(stall(from)),
        Some((id, st2)) => Ok(Parsed { node: Expr { kind, id, span: span_of(t, from, to) }, next: to, state: st2 }),
    }
}

pub open spec fn unary_kind(k: u64) -> UnaryOpKind {
    if k == MINUS {
        UnaryOpKind::Neg
    } else if k == BANG {
        UnaryOpKind::Not
    } else if k == AMPERSAND {
        UnaryOpKind::AddrOf
    } else {
        UnaryOpKind::Deref
    }
}

/// The binary operator of token kind `k` at a level of the ladder:
/// 0 products, 1 sums, 2 comparisons.
pub open spec fn binop_kind(level: u8, k: u64) -> Option<BinOpKind> {
    if level == 0 && k == ASTERISK {
        Some(BinOpKind::Mul)
    } else if level == 0 && k == SLASH {
        Some(BinOpKind::Div)
    } else if level == 1 && k == PLUS {
        Some(BinOpKind::Add)
    } else if level == 1 && k == MINUS {
        Some(BinOpKind::Sub)
    } else if level == 2 && k == EQ_EQ {
        Some(BinOpKind::Eq)
    } else if level == 2 && k == BANG_EQ {
        Some(BinOpKind::Neq)
    } else {
        None
    }
}

/// End of the last element's span, or `d` for an empty list.
pub open spec fn last_end(l: List<Expr>, d: usize) -> usize
    decreases l,
{
    match l {
        List::Nil => d,
        List::Cons(e, rest) => last_end(*rest, e.span.end),
    }
}

/// Literal, name, array literal or parenthesized expression.
pub open spec fn atom(t: Seq<SpannedToken>, pos: usize, st: ParserState) -> Outcome<Expr>
    decreases t.len() - pos, 0nat,
{
    if !has_token(t, pos) {
        Err(Failure { pos, expected: EXPR_START })
    } else {
        match t[pos as int].token {
            Token::Integer(s) => match integer_value(s@) {
                Some(n) => expr_node(t, pos, (pos + 1) as usize, st, ExprKind::Literal(Literal::Integer(n))),
                None => Err(Failure { pos, expected: INTEGER_IN_RANGE }),
            },
            Token::Str(s) => expr_node(t, pos, (pos + 1) as usize, st, ExprKind::Literal(Literal::Str(prepend(string_value(s@), List::Nil)))),
            Token::Ident(s) => expr_node(t, pos, (pos + 1) as usize, st, ExprKind::Name(s)),
            Token::BracketO => match deeper(st) {
                None => Err(Failure { pos, expected: SHALLOWER_NESTING }),
                Some(inner) => match expr_list(t, (pos + 1) as usize, inner, BRACKET_C) {
                    Err(f) => Err(f),
                    Ok(l) => match expect(t, l.next, BRACKET_C) {
                        Err(f) => Err(f),
                        Ok(p) => expr_node(t, pos, p, restored(l.state, st), ExprKind::Array(l.node)),
                    },
                },
            },
            Token::ParenO => match deeper(st) {
                None => Err(Failure { pos, expected: SHALLOWER_NESTING }),
                Some(inner) => match expr(t, (pos + 1) as usize, inner) {
                    Err(f) => Err(f),
                    Ok(e) => match expect(t, e.next, PAREN_C) {
                        Err(f) => Err(f),
                        Ok(p) => Ok(Parsed { node: e.node, next: p, state: restored(e.state, st) }),
                    },
                },
            },
            _ => Err(Failure { pos, expected: EXPR_START }),
        }
    }
}

/// A list outcome with the elements of `c` in front of its list.
pub open spec fn lift<T>(c: Seq<T>, r: Outcome<List<T>>) -> Outcome<List<T>> {
    match r {
        Err(f) => Err(f),
        Ok(p) => Ok(Parsed { node: prepend(c, p.node), next: p.next, state: p.state }),
    }
}

/// Comma-separated expressions, trailing comma allowed, up to (not including)
/// a token of kind `close`.
pub open spec fn expr_list(t: Seq<SpannedToken>, pos: usize, st: ParserState, close: u64) -> Outcome<List<Expr>>
    decreases t.len() - pos, 10nat,
{
    if kind_at(t, pos) == close {
        Ok(Parsed { node: List::Nil, next: pos, state: st })
    } else {
        match expr(t, pos, st) {
            Err(f) => Err(merge(Failure { pos, expected: close }, f)),
            Ok(e) => if !advanced(t, pos, e.next) {
                Err(stall(pos))
            } else if kind_at(t, e.next) == COMMA {
                match expr_list(t, (e.next + 1) as usize, e.state, close) {
                    Err(f) => Err(f),
                    Ok(r) => Ok(Parsed { node: List::Cons(Box::new(e.node), Box::new(r.node)), next: r.next, state: r.state }),
                }
            } else {
                Ok(Parsed { node: List::Cons(Box::new(e.node), Box::new(List::Nil)), next: e.next, state: e.state })
            },
        }
    }
}

/// An atom followed by any number of argument lists, folded to the left.
pub open spec fn call(t: Seq<SpannedToken>, pos: usize, st: ParserState) -> Outcome<Expr>
    decreases t.len() - pos, 1nat,
{
    match atom(t, pos, st) {
        Err(f) => Err(f),
        Ok(a) => if !advanced(t, pos, a.next) {
            Err(stall(pos))
        } else {
            call_rest(t, a.next, a.node, a.state)
        },
    }
}

pub open spec fn call_rest(t: Seq<SpannedToken>, pos: usize, callee: Expr, st: ParserState) -> Outcome<Expr>
    decreases t.len() - pos, 1nat,
{
    if kind_at(t, pos) != PAREN_O {
        Ok(Parsed { node: callee, next: pos, state: st })
    } else if deeper(st) is None {
        Err(Failure { pos, expected: SHALLOWER_NESTING })
    } else {
        match expr_list(t, (pos + 1) as usize, deeper(st).unwrap(), PAREN_C) {
            Err(f) => Err(f),
            Ok(l) => match expect(t, l.next, PAREN_C) {
                Err(f) => Err(f),
                Ok(p) => match fresh(restored(l.state, st)) {
                    None => Err(stall(pos)),
                    Some((id, st2)) => if !advanced(t, pos, p) {
                        Err(stall(pos))
                    } else {
                        call_rest(t, p, Expr {
                            kind: ExprKind::Call { callee: Box::new(callee), args: l.node },
                            id,
                            span: Span { start: callee.span.start, end: last_end(l.node, callee.span.end) },
                        }, st2)
                    },
                },
            },
        }
    }
}

/// Prefix operators over a call; each takes the span of its operand.
pub open spec fn unary(t: Seq<SpannedToken>, pos: usize, st: ParserState) -> Outcome<Expr>
    decreases t.len() - pos, 2nat,
{
    let k = kind_at(t, pos);
    if k == MINUS || k == BANG || k == AMPERSAND || k == ASTERISK {
        match deeper(st) {
            None => Err(Failure { pos, expected: SHALLOWER_NESTING }),
            Some(inner) => match unary(t, (pos + 1) as usize, inner) {
            Err(f) => Err(f),
            Ok(u) => match fresh(restored(u.state, st)) {
                None => Err(stall(pos)),
                Some((id, st2)) => Ok(Parsed {
                    node: Expr {
                        kind: ExprKind::UnaryOp { kind: unary_kind(k), expr: Box::new(u.node) },
                        id,
                        span: u.node.span,
                    },
                    next: u.next,
                    state: st2,
                }),
            },
            },
        }
    } else {
        call(t, pos, st)
    }
}

/// The operand of a binary level: unary expressions under products, the
/// level below otherwise.
pub open spec fn operand(t: Seq<SpannedToken>, pos: usize, st: ParserState, level: u8) -> Outcome<Expr>
    decreases t.len() - pos, 2 * level + 3,
{
    if level == 0 {
        unary(t, pos, st)
    } else {
        binary(t, pos, st, (level - 1) as u8)
    }
}

/// Left-associative chain of the operators of `level`.
pub open spec fn binary(t: Seq<SpannedToken>, pos: usize, st: ParserState, level: u8) -> Outcome<Expr>
    decreases t.len() - pos, 2 * level + 4,
{
    match operand(t, pos, st, level) {
        Err(f) => Err(f),
        Ok(a) => if !advanced(t, pos, a.next) {
            Err(stall(pos))
        } else {
            binary_rest(t, a.next, a.node, a.state, level)
        },
    }
}

pub open spec fn binary_rest(t: Seq<SpannedToken>, pos: usize, lhs: Expr, st: ParserState, level: u8) -> Outcome<Expr>
    decreases t.len() - pos, 2 * level + 4,
{
    match binop_kind(level, kind_at(t, pos)) {
        None => Ok(Parsed { node: lhs, next: pos, state: st }),
        Some(op) => match operand(t, (pos + 1) as usize, st, level) {
            Err(f) => Err(f),
            Ok(b) => match fresh(b.state) {
                None => Err(stall(pos)),
                Some((id, st2)) => if !advanced(t, pos, b.next) {
                    Err(stall(pos))
                } else {
                    binary_rest(t, b.next, Expr {
                        kind: ExprKind::BinOp { kind: op, lhs: Box::new(lhs), rhs: Box::new(b.node) },
                        id,
                        span: Span { start: lhs.span.start, end: b.node.span.end },
                    }, st2, level)
                },
            },
        },
    }
}

/// A full expression: a chain of comparisons, the loosest level.
pub open spec fn expr(t: Seq<SpannedToken>, pos: usize, st: ParserState) -> Outcome<Expr>
    decreases t.len() - pos, 9nat,
{
    binary(t, pos, st, 2)
}

/// Kinds of token that can start a type.
pub const TY_START: u64 = IDENT | PTR;

/// Keywords that start a statement other than an expression.
pub const STMT_KEYWORDS: u64 = LET | IF | WHILE;

/// Kinds of token that can start an item.
pub const ITEM_START: u64 = FN | STRUCT;

/// The identifier at `pos`.
pub open spec fn ident(t: Seq<SpannedToken>, pos: usize) -> Result<String, Failure> {
    if has_token(t, pos) {
        match t[pos as int].token {
            Token::Ident(s) => Ok(s),
            _ => Err(Failure { pos, expected: IDENT }),
        }
    } else {
        Err(Failure { pos, expected: IDENT })
    }
}

/// `name` or `ptr <type>`.
pub open spec fn ty(t: Seq<SpannedToken>, pos: usize, st: ParserState) -> Outcome<Ty>
    decreases t.len() - pos,
{
    if !has_token(t, pos) {
        Err(Failure { pos, expected: TY_START })
    } else {
        match t[pos as int].token {
            Token::Ident(s) => Ok(Parsed { node: Ty { kind: TyKind::Name(s), span: t[pos as int].span }, next: (pos + 1) as usize, state: st }),
            Token::Ptr => match deeper(st) {
                None => Err(Failure { pos, expected: SHALLOWER_NESTING }),
                Some(inner) => match ty(t, (pos + 1) as usize, inner) {
                    Err(f) => Err(f),
                    Ok(i) => if !advanced(t, pos, i.next) {
                        Err(stall(pos))
                    } else {
                        Ok(Parsed { node: Ty { kind: TyKind::Ptr(Box::new(i.node)), span: span_of(t, pos, i.next) }, next: i.next, state: restored(i.state, st) })
                    },
                },
            },
            _ => Err(Failure { pos, expected: TY_START }),
        }
    }
}

/// A type after a token of kind `marker`, if that token is there.
pub open spec fn opt_ty(t: Seq<SpannedToken>, pos: usize, st: ParserState, marker: u64) -> Outcome<Option<Ty>> {
    if kind_at(t, pos) == marker {
        match ty(t, (pos + 1) as usize, st) {
            Err(f) => Err(f),
            Ok(y) => Ok(Parsed { node: Some(y.node), next: y.next, state: y.state }),
        }
    } else {
        Ok(Parsed { node: None, next: pos, state: st })
    }
}

/// `name: type`
pub open spec fn pair(t: Seq<SpannedToken>, pos: usize, st: ParserState) -> Outcome<NameTyPair> {
    match ident(t, pos) {
        Err(f) => Err(f),
        Ok(name) => match expect(t, (pos + 1) as usize, COLON) {
            Err(f) => Err(f),
            Ok(p) => match ty(t, p, st) {
                Err(f) => Err(f),
                Ok(y) => match fresh(y.state) {
                    None => Err(stall(pos)),
                    Some((id, st2)) => if !advanced(t, pos, y.next) {
                        Err(stall(pos))
                    } else {
                        Ok(Parsed { node: NameTyPair { name, ty: y.node, id, span: span_of(t, pos, y.next) }, next: y.next, state: st2 })
                    },
                },
            },
        },
    }
}

/// Comma-separated pairs up to (not including) a token of kind `close`; a
/// trailing comma only where `trailing` holds. `first` marks the start of the list.
pub open spec fn pairs(t: Seq<SpannedToken>, pos: usize, st: ParserState, close: u64, trailing: bool, first: bool) -> Outcome<List<NameTyPair>>
    decreases t.len() - pos,
{
    if kind_at(t, pos) == close && (first || trailing) {
        Ok(Parsed { node: List::Nil, next: pos, state: st })
    } else {
        match pair(t, pos, st) {
            Err(f) => Err(if first || trailing { merge(Failure { pos, expected: close }, f) } else { f }),
            Ok(e) => if !advanced(t, pos, e.next) {
                Err(stall(pos))
            } else if kind_at(t, e.next) == COMMA {
                match pairs(t, (e.next + 1) as usize, e.state, close, trailing, false) {
                    Err(f) => Err(f),
                    Ok(r) => Ok(Parsed { node: List::Cons(Box::new(e.node), Box::new(r.node)), next: r.next, state: r.state }),
                }
            } else {
                Ok(Parsed { node: List::Cons(Box::new(e.node), Box::new(List::Nil)), next: e.next, state: e.state })
            },
        }
    }
}

/// An initializer `= expr`, if the `=` is there.
pub open spec fn opt_init(t: Seq<SpannedToken>, pos: usize, st: ParserState) -> Outcome<Option<Expr>> {
    if kind_at(t, pos) == EQ {
        match expr(t, (pos + 1) as usize, st) {
            Err(f) => Err(f),
            Ok(e) => Ok(Parsed { node: Some(e.node), next: e.next, state: e.state }),
        }
    } else {
        Ok(Parsed { node: None, next: pos, state: st })
    }
}

/// `let name [: type] [= expr];`
pub open spec fn var_decl(t: Seq<SpannedToken>, pos: usize, st: ParserState) -> Outcome<Stmt> {
    match expect(t, pos, LET) {
        Err(f) => Err(f),
        Ok(p0) => match ident(t, p0) {
            Err(f) => Err(f),
            Ok(name) => match opt_ty(t, (p0 + 1) as usize, st, COLON) {
                Err(f) => Err(f),
                Ok(y) => match opt_init(t, y.next, y.state) {
                    Err(f) => Err(f),
                    Ok(i) => match expect(t, i.next, SEMI) {
                        Err(f) => Err(f),
                        Ok(p) => Ok(Parsed {
                            node: Stmt::VarDecl(VarDecl { name, ty: y.node, rhs: i.node, span: span_of(t, pos, p) }),
                            next: p,
                            state: i.state,
                        }),
                    },
                },
            },
        },
    }
}

/// `place = value;` or `expr;`
pub open spec fn simple_stmt(t: Seq<SpannedToken>, pos: usize, st: ParserState) -> Outcome<Stmt> {
    match expr(t, pos, st) {
        Err(f) => Err(merge(Failure { pos, expected: STMT_KEYWORDS }, f)),
        Ok(e) => {
            let k = kind_at(t, e.next);
            if k == SEMI {
                Ok(Parsed { node: Stmt::Expr(e.node), next: (e.next + 1) as usize, state: e.state })
            } else if k == EQ {
                match expr(t, (e.next + 1) as usize, e.state) {
                    Err(f) => Err(f),
                    Ok(v) => match expect(t, v.next, SEMI) {
                        Err(f) => Err(f),
                        Ok(p) => if !advanced(t, pos, p) {
                            Err(stall(pos))
                        } else {
                            Ok(Parsed {
                                node: Stmt::Assignment(Assignment { place: e.node, rhs: v.node, span: span_of(t, pos, p) }),
                                next: p,
                                state: v.state,
                            })
                        },
                    },
                }
            } else {
                Err(Failure { pos: e.next, expected: SEMI | EQ })
            }
        },
    }
}

/// `{ statements }`: the statements and the position after the `}`.
pub open spec fn block(t: Seq<SpannedToken>, pos: usize, st: ParserState, nested: bool) -> Outcome<List<Stmt>>
    decreases t.len() - pos, 0nat,
{
    match expect(t, pos, BRACE_O) {
        Err(f) => Err(f),
        Ok(p) => match deeper(st) {
            None => Err(Failure { pos, expected: SHALLOWER_NESTING }),
            Some(inner) => match stmts(t, p, inner, nested) {
                Err(f) => Err(f),
                Ok(r) => Ok(Parsed { node: r.node, next: r.next, state: restored(r.state, st) }),
            },
        },
    }
}

/// Statements up to and including the closing `}`.
pub open spec fn stmts(t: Seq<SpannedToken>, pos: usize, st: ParserState, nested: bool) -> Outcome<List<Stmt>>
    decreases t.len() - pos, 3nat,
{
    if kind_at(t, pos) == BRACE_C {
        Ok(Parsed { node: List::Nil, next: (pos + 1) as usize, state: st })
    } else {
        match stmt(t, pos, st, nested) {
            Err(f) => Err(merge(Failure { pos, expected: BRACE_C }, f)),
            Ok(s) => if !advanced(t, pos, s.next) {
                Err(stall(pos))
            } else {
                match stmts(t, s.next, s.state, nested) {
                    Err(f) => Err(f),
                    Ok(r) => Ok(Parsed { node: List::Cons(Box::new(s.node), Box::new(r.node)), next: r.next, state: r.state }),
                }
            },
        }
    }
}

/// One statement; local functions only where `nested` holds.
pub open spec fn stmt(t: Seq<SpannedToken>, pos: usize, st: ParserState, nested: bool) -> Outcome<Stmt>
    decreases t.len() - pos, 2nat,
{
    let k = kind_at(t, pos);
    if k == LET {
        var_decl(t, pos, st)
    } else if k == IF {
        match if_stmt(t, pos, st, nested) {
            Err(f) => Err(f),
            Ok(i) => Ok(Parsed { node: Stmt::IfStmt(i.node), next: i.next, state: i.state }),
        }
    } else if k == WHILE {
        while_stmt(t, pos, st, nested)
    } else if nested && k == FN {
        match function(t, pos, st, nested) {
            Err(f) => Err(f),
            Ok(d) => Ok(Parsed { node: Stmt::Item(Box::new(Item::FnDecl(d.node))), next: d.next, state: d.state }),
        }
    } else {
        simple_stmt(t, pos, st)
    }
}

/// `if cond { .. }`, optionally followed by `else if ..` or `else { .. }`.
pub open spec fn if_stmt(t: Seq<SpannedToken>, pos: usize, st: ParserState, nested: bool) -> Outcome<IfStmt>
    decreases t.len() - pos, 1nat,
{
    match expect(t, pos, IF) {
        Err(f) => Err(f),
        Ok(p0) => match expr(t, p0, st) {
            Err(f) => Err(f),
            Ok(c) => if !advanced(t, pos, c.next) {
                Err(stall(pos))
            } else {
                match block(t, c.next, c.state, nested) {
                    Err(f) => Err(f),
                    Ok(b) => if !advanced(t, pos, b.next) {
                        Err(stall(pos))
                    } else if kind_at(t, b.next) != ELSE {
                        Ok(Parsed {
                            node: IfStmt { cond: c.node, body: b.node, else_part: None, span: span_of(t, pos, b.next) },
                            next: b.next,
                            state: b.state,
                        })
                    } else {
                        let p = (b.next + 1) as usize;
                        if kind_at(t, p) == IF && deeper(b.state) is None {
                            Err(Failure { pos: p, expected: SHALLOWER_NESTING })
                        } else if kind_at(t, p) == IF {
                            match if_stmt(t, p, deeper(b.state).unwrap(), nested) {
                                Err(f) => Err(f),
                                Ok(e) => if !advanced(t, pos, e.next) {
                                    Err(stall(pos))
                                } else {
                                    Ok(Parsed {
                                        node: IfStmt {
                                            cond: c.node,
                                            body: b.node,
                                            else_part: Some(ElsePart::ElseIf(Box::new(e.node))),
                                            span: span_of(t, pos, e.next),
                                        },
                                        next: e.next,
                                        state: restored(e.state, b.state),
                                    })
                                },
                            }
                        } else {
                            match block(t, p, b.state, nested) {
                                Err(f) => Err(merge(Failure { pos: p, expected: IF }, f)),
                                Ok(e) => if !advanced(t, p, e.next) {
                                    Err(stall(pos))
                                } else {
                                    Ok(Parsed {
                                        node: IfStmt {
                                            cond: c.node,
                                            body: b.node,
                                            else_part: Some(ElsePart::Else(e.node, span_of(t, p, e.next))),
                                            span: span_of(t, pos, e.next),
                                        },
                                        next: e.next,
                                        state: e.state,
                                    })
                                },
                            }
                        }
                    },
                }
            },
        },
    }
}

/// `while cond { .. }`
pub open spec fn while_stmt(t: Seq<SpannedToken>, pos: usize, st: ParserState, nested: bool) -> Outcome<Stmt>
    decreases t.len() - pos, 1nat,
{
    match expect(t, pos, WHILE) {
        Err(f) => Err(f),
        Ok(p0) => match expr(t, p0, st) {
            Err(f) => Err(f),
            Ok(c) => if !advanced(t, pos, c.next) {
                Err(stall(pos))
            } else {
                match block(t, c.next, c.state, nested) {
                    Err(f) => Err(f),
                    Ok(b) => if !advanced(t, pos, b.next) {
                        Err(stall(pos))
                    } else {
                        Ok(Parsed {
                            node: Stmt::WhileStmt(WhileStmt { cond: c.node, body: b.node, span: span_of(t, pos, b.next) }),
                            next: b.next,
                            state: b.state,
                        })
                    },
                }
            },
        },
    }
}

/// `fn name(params) [-> type] { body }`
pub open spec fn function(t: Seq<SpannedToken>, pos: usize, st: ParserState, nested: bool) -> Outcome<FnDecl>
    decreases t.len() - pos, 1nat,
{
    match expect(t, pos, FN) {
        Err(f) => Err(f),
        Ok(p0) => match ident(t, p0) {
            Err(f) => Err(f),
            Ok(name) => match expect(t, (p0 + 1) as usize, PAREN_O) {
                Err(f) => Err(f),
                Ok(p1) => match pairs(t, p1, st, PAREN_C, true, true) {
                    Err(f) => Err(f),
                    Ok(ps) => match expect(t, ps.next, PAREN_C) {
                        Err(f) => Err(if ps.node is Cons { merge(Failure { pos: ps.next, expected: COMMA }, f) } else { f }),
                        Ok(p2) => match opt_ty(t, p2, ps.state, ARROW) {
                            Err(f) => Err(f),
                            Ok(r) => if !advanced(t, pos, r.next) {
                                Err(stall(pos))
                            } else {
                                match block(t, r.next, r.state, nested) {
                                    Err(f) => Err(if r.node is None { merge(Failure { pos: r.next, expected: ARROW }, f) } else { f }),
                                    Ok(b) => match fresh(b.state) {
                                        None => Err(stall(pos)),
                                        Some((id, st2)) => if !advanced(t, pos, b.next) {
                                            Err(stall(pos))
                                        } else {
                                            Ok(Parsed {
                                                node: FnDecl { name, params: ps.node, ret_ty: r.node, body: b.node, id, span: span_of(t, pos, b.next) },
                                                next: b.next,
                                                state: st2,
                                            })
                                        },
                                    },
                                }
                            },
                        },
                    },
                },
            },
        },
    }
}

/// `struct name { fields }`, fields without a trailing comma.
pub open spec fn struct_decl(t: Seq<SpannedToken>, pos: usize, st: ParserState) -> Outcome<StructDecl> {
    match expect(t, pos, STRUCT) {
        Err(f) => Err(f),
        Ok(p0) => match ident(t, p0) {
            Err(f) => Err(f),
            Ok(name) => match expect(t, (p0 + 1) as usize, BRACE_O) {
                Err(f) => Err(f),
                Ok(p1) => match pairs(t, p1, st, BRACE_C, false, true) {
                    Err(f) => Err(f),
                    Ok(fs) => match expect(t, fs.next, BRACE_C) {
                        Err(f) => Err(if fs.node is Cons { merge(Failure { pos: fs.next, expected: COMMA }, f) } else { f }),
                        Ok(p) => match fresh(fs.state) {
                            None => Err(stall(pos)),
                            Some((id, st2)) => Ok(Parsed {
                                node: StructDecl { name, fields: fs.node, id, span: span_of(t, pos, p) },
                                next: p,
                                state: st2,
                            }),
                        },
                    },
                },
            },
        },
    }
}

/// A function or a struct declaration.
pub open spec fn item(t: Seq<SpannedToken>, pos: usize, st: ParserState, nested: bool) -> Outcome<Item> {
    let k = kind_at(t, pos);
    if k == FN {
        match function(t, pos, st, nested) {
            Err(f) => Err(f),
            Ok(d) => Ok(Parsed { node: Item::FnDecl(d.node), next: d.next, state: d.state }),
        }
    } else if k == STRUCT {
        match struct_decl(t, pos, st) {
            Err(f) => Err(f),
            Ok(d) => Ok(Parsed { node: Item::StructDecl(d.node), next: d.next, state: d.state }),
        }
    } else {
        Err(Failure { pos, expected: ITEM_START })
    }
}

/// One reported syntax error: where, what would have been accepted there (a set
/// of kind bits, see `Token::kind`), and the token found (none at end of input).
#[derive(Debug, PartialEq, Eq)]
pub struct Error {
    pub span: Span,
    pub expected: u64,
    pub found: Option<Token>,
}

/// The first position from `p` on that holds `fn` or `struct`, or the end of input.
pub open spec fn resync(t: Seq<SpannedToken>, p: usize) -> usize
    decreases t.len() - p,
{
    if !has_token(t, p) {
        p
    } else if kind_at(t, p) == FN || kind_at(t, p) == STRUCT {
        p
    } else {
        resync(t, (p + 1) as usize)
    }
}

/// The items from `pos` to the end of input, and the failures met on the way.
/// After a failure, parsing resumes at the next `fn` or `struct` token.
pub open spec fn file_items(t: Seq<SpannedToken>, pos: usize, st: ParserState, nested: bool) -> (List<Item>, List<Failure>)
    decreases t.len() - pos,
{
    if !has_token(t, pos) {
        (List::Nil, List::Nil)
    } else {
        match item(t, pos, st, nested) {
            Ok(i) => if !advanced(t, pos, i.next) {
                (List::Nil, List::Cons(Box::new(stall(pos)), Box::new(List::Nil)))
            } else {
                let r = file_items(t, i.next, i.state, nested);
                (List::Cons(Box::new(i.node), Box::new(r.0)), r.1)
            },
            Err(f) => {
                let p = resync(t, (pos + 1) as usize);
                if !advanced(t, pos, p) {
                    (List::Nil, List::Cons(Box::new(f), Box::new(List::Nil)))
                } else {
                    let r = file_items(t, p, st, nested);
                    (r.0, List::Cons(Box::new(f), Box::new(r.1)))
                }
            },
        }
    }
}

/// The diagnostic of a failure; at end of input its span is empty and sits at
/// `source_len`.
pub open spec fn diagnostic(t: Seq<SpannedToken>, source_len: usize, f: Failure) -> Error {
    if f.pos < t.len() {
        Error { span: t[f.pos as int].span, expected: f.expected, found: Some(t[f.pos as int].token) }
    } else {
        Error { span: Span { start: source_len, end: source_len }, expected: f.expected, found: None }
    }
}

/// A whole token stream: the file, absent only where no item parsed and some
/// failure was met, and one diagnostic per failure, in order.
pub open spec fn parse_tokens(t: Seq<SpannedToken>, source_len: usize, name: String, nested: bool) -> (Option<File>, Seq<Error>) {
    let r = file_items(t, 0, ParserState { next: 0, depth: 0 }, nested);
    let diags = r.1.elems().map_values(|f: Failure| diagnostic(t, source_len, f));
    if r.0 is Nil && r.1 is Cons {
        (None, diags)
    } else {
        (Some(File { name, items: r.0 }), diags)
    }
}

} // verus!
