use vstd::prelude::*;

use crate::token::Span;

verus! {

/// Identity of a syntax node, unique within one parse.
#[derive(Debug, Clone, Copy, PartialEq, Eq, Structural)]
pub struct NodeId(pub u64);

/// Allocator of node identities, threaded through the grammar by value, with
/// the depth of nesting at the current position.
#[derive(Debug, Clone, Copy, PartialEq, Eq, Structural)]
pub struct ParserState {
    pub next: u64,
    pub depth: u32,
}

/// How deeply parentheses, brackets, argument lists, prefix operators, pointer
/// types, blocks and `else if` links may nest; deeper input fails with a
/// diagnostic instead of exhausting the stack.
pub const MAX_NESTING: u32 = 100;

/// The state one nesting level further in, if the limit allows.
pub open spec fn deeper(st: ParserState) -> Option<ParserState> {
    if st.depth < MAX_NESTING {
        Some(ParserState { next: st.next, depth: (st.depth + 1) as u32 })
    } else {
        None
    }
}

/// The state after a nested construct: its identities, the outer depth.
pub open spec fn restored(inner: ParserState, outer: ParserState) -> ParserState {
    ParserState { next: inner.next, depth: outer.depth }
}

/// The identity handed out next and the allocator after it, or `None` once the
/// identity space is used up.
pub open spec fn fresh(st: ParserState) -> Option<(NodeId, ParserState)> {
    if st.next < u64::MAX {
        Some((NodeId(st.next), ParserState { next: (st.next + 1) as u64, depth: st.depth }))
    } else {
        None
    }
}

impl ParserState {
    /// An allocator whose first identity is 0.
    pub fn new() -> (r: ParserState)
        ensures
            r.next == 0,
            r.depth == 0,
    {
        ParserState { next: 0, depth: 0 }
    }

    /// Hands out the next identity; identities are handed out in increasing order.
    pub fn next_id(&mut self) -> (r: Option<NodeId>)
        ensures
            match fresh(*old(self)) {
                Some((id, st)) => r == Some(id) && *final(self) == st,
                None => r.is_none() && *final(self) == *old(self),
            },
    {
        if self.next < u64::MAX {
            let id = NodeId(self.next);
            self.next = self.next + 1;
            Some(id)
        } else {
            None
        }
    }
}

/// An immutable sequence of owned nodes.
#[derive(Debug, PartialEq, Eq)]
pub enum List<T> {
    Nil,
    Cons(Box<T>, Box<List<T>>),
}

impl<T> List<T> {
    /// The elements, first to last.
    pub open spec fn elems(self) -> Seq<T>
        decreases self,
    {
        match self {
            List::Nil => Seq::empty(),
            List::Cons(x, rest) => seq![*x].add(rest.elems()),
        }
    }
}

/// The list of the elements of `c`, first to last, followed by `tail`.
pub open spec fn prepend<T>(c: Seq<T>, tail: List<T>) -> List<T>
    decreases c.len(),
{
    if c.len() == 0 {
        tail
    } else {
        List::Cons(Box::new(c[0]), Box::new(prepend(c.drop_first(), tail)))
    }
}

pub proof fn lemma_prepend_push<T>(c: Seq<T>, x: T, tail: List<T>)
    ensures
        prepend(c.push(x), tail) == prepend(c, List::Cons(Box::new(x), Box::new(tail))),
    decreases c.len(),
{
    if c.len() > 0 {
        assert(c.push(x).drop_first() =~= c.drop_first().push(x));
        lemma_prepend_push(c.drop_first(), x, tail);
    } else {
        assert(c.push(x).drop_first() =~= Seq::<T>::empty());
        assert(prepend(Seq::<T>::empty(), tail) == tail);
    }
}

pub proof fn lemma_prepend_elems<T>(c: Seq<T>)
    ensures
        prepend(c, List::Nil).elems() == c,
    decreases c.len(),
{
    if c.len() > 0 {
        lemma_prepend_elems(c.drop_first());
        assert(seq![c[0]].add(c.drop_first()) =~= c);
    } else {
        assert(prepend(c, List::<T>::Nil).elems() =~= c);
    }
}

/// Moves the elements of `v` in front of `tail`.
pub fn prepend_vec<T>(v: Vec<T>, tail: List<T>) -> (r: List<T>)
    ensures
        r == prepend(v@, tail),
{
    let mut v = v;
    let mut l = tail;
    let ghost v0 = v@;
    while v.len() > 0
        invariant
            prepend(v@, l) == prepend(v0, tail),
        decreases v.len(),
    {
        let ghost before = v@;
        let x = v.pop().unwrap();
        proof {
            assert(before =~= v@.push(x));
            lemma_prepend_push(v@, x, l);
        }
        l = List::Cons(Box::new(x), Box::new(l));
    }
    l
}

#[derive(Debug, PartialEq, Eq)]
pub enum Literal {
    Integer(u64),
    /// The contents of a string literal, read by `literal::string_value`:
    /// one character dropped from the front and two from the back of the
    /// token's text (a rule kept until a symmetric one is confirmed).
    Str(List<char>),
}

#[derive(Debug, Clone, Copy, PartialEq, Eq, Structural)]
pub enum UnaryOpKind {
    Neg,
    Not,
    AddrOf,
    Deref,
}

#[derive(Debug, Clone, Copy, PartialEq, Eq, Structural)]
pub enum BinOpKind {
    Mul,
    Div,
    Add,
    Sub,
    Eq,
    Neq,
}

#[derive(Debug, PartialEq, Eq)]
pub enum ExprKind {
    Literal(Literal),
    Name(String),
    Array(List<Expr>),
    Call { callee: Box<Expr>, args: List<Expr> },
    UnaryOp { kind: UnaryOpKind, expr: Box<Expr> },
    BinOp { kind: BinOpKind, lhs: Box<Expr>, rhs: Box<Expr> },
}

#[derive(Debug, PartialEq, Eq)]
pub struct Expr {
    pub kind: ExprKind,
    pub id: NodeId,
    pub span: Span,
}

#[derive(Debug, PartialEq, Eq)]
pub enum TyKind {
    Name(String),
    Ptr(Box<Ty>),
}

#[derive(Debug, PartialEq, Eq)]
pub struct Ty {
    pub kind: TyKind,
    pub span: Span,
}

/// A name with a type: a struct field or a function parameter.
#[derive(Debug, PartialEq, Eq)]
pub struct NameTyPair {
    pub name: String,
    pub ty: Ty,
    pub id: NodeId,
    pub span: Span,
}

/// `let name [: ty] [= rhs];`
#[derive(Debug, PartialEq, Eq)]
pub struct VarDecl {
    pub name: String,
    pub ty: Option<Ty>,
    pub rhs: Option<Expr>,
    pub span: Span,
}

#[derive(Debug, PartialEq, Eq)]
pub struct Assignment {
    pub place: Expr,
    pub rhs: Expr,
    pub span: Span,
}

#[derive(Debug, PartialEq, Eq)]
pub struct IfStmt {
    pub cond: Expr,
    pub body: List<Stmt>,
    pub else_part: Option<ElsePart>,
    pub span: Span,
}

#[derive(Debug, PartialEq, Eq)]
pub enum ElsePart {
    ElseIf(Box<IfStmt>),
    Else(List<Stmt>, Span),
}

#[derive(Debug, PartialEq, Eq)]
pub struct WhileStmt {
    pub cond: Expr,
    pub body: List<Stmt>,
    pub span: Span,
}

#[derive(Debug, PartialEq, Eq)]
pub enum Stmt {
    VarDecl(VarDecl),
    Assignment(Assignment),
    Expr(Expr),
    IfStmt(IfStmt),
    WhileStmt(WhileStmt),
    /// A local function declaration, where the grammar admits them.
    Item(Box<Item>),
}

#[derive(Debug, PartialEq, Eq)]
pub struct FnDecl {
    pub name: String,
    pub params: List<NameTyPair>,
    pub ret_ty: Option<Ty>,
    pub body: List<Stmt>,
    pub id: NodeId,
    pub span: Span,
}

#[derive(Debug, PartialEq, Eq)]
pub struct StructDecl {
    pub name: String,
    pub fields: List<NameTyPair>,
    pub id: NodeId,
    pub span: Span,
}

#[derive(Debug, PartialEq, Eq)]
pub enum Item {
    FnDecl(FnDecl),
    StructDecl(StructDecl),
}

/// The parse root.
#[derive(Debug, PartialEq, Eq)]
pub struct File {
    pub name: String,
    pub items: List<Item>,
}

} // verus!
