//! The source language as the lowering and the interpreter read it: types,
//! expressions, statements and function definitions, each with its
//! mathematical view.

use vstd::prelude::*;

verus! {

/// A type annotation as it is written in source.
#[derive(Clone, Copy, Debug, PartialEq, Eq, Structural)]
pub enum Type {
    Field,
    Boolean,
    U8,
    U16,
    U32,
    U64,
    Array,
    Struct,
}

/// The type of a value: a field element, an unsigned integer of a given
/// width in bits, or a boolean.
#[derive(Clone, Copy, Debug, PartialEq, Eq, Structural)]
pub enum Ty {
    Field,
    Uint(usize),
    Bool,
}

impl DeepView for Ty {
    type V = Ty;

    open spec fn deep_view(&self) -> Ty {
        *self
    }
}

/// The suffix that fixes the type of a decimal literal.
#[derive(Clone, Copy, Debug, PartialEq, Eq, Structural)]
pub enum DecimalSuffix {
    Field,
    U8,
    U16,
    U32,
    U64,
}

/// A literal: a decimal number with an optional suffix, or a boolean.
#[derive(Clone, Copy, Debug, PartialEq, Eq, Structural)]
pub enum LiteralExpression {
    DecimalLiteral(u64, Option<DecimalSuffix>),
    BooleanLiteral(bool),
}

/// A binary operator of the source language.
#[derive(Clone, Copy, Debug, PartialEq, Eq, Structural)]
pub enum BinaryOperator {
    BitXor,
    BitAnd,
    BitOr,
    RightShift,
    LeftShift,
    Or,
    And,
    Add,
    Sub,
    Mul,
    Div,
    Rem,
    Eq,
    NotEq,
    Lt,
    Gt,
    Lte,
    Gte,
    Pow,
}

/// A unary operator of the source language.
#[derive(Clone, Copy, Debug, PartialEq, Eq, Structural)]
pub enum UnaryOperator {
    Pos,
    Neg,
    Not,
    Strict,
}

/// An expression. `Call` is an identifier followed by a call access;
/// `Access` is an identifier followed by any other access.
#[derive(Debug, PartialEq, Eq)]
pub enum Expression {
    Ternary(Box<Expression>, Box<Expression>, Box<Expression>),
    Binary(BinaryOperator, Box<Expression>, Box<Expression>),
    Unary(UnaryOperator, Box<Expression>),
    Call(String, Vec<Expression>),
    Identifier(String),
    Literal(LiteralExpression),
    Access(String),
    ArrayInitializer,
    InlineStruct,
    InlineArray,
}

/// The view of an [`Expression`].
pub enum ExprV {
    Ternary(Box<ExprV>, Box<ExprV>, Box<ExprV>),
    Binary(BinaryOperator, Box<ExprV>, Box<ExprV>),
    Unary(UnaryOperator, Box<ExprV>),
    Call(Seq<char>, Seq<ExprV>),
    Identifier(Seq<char>),
    Literal(LiteralExpression),
    Access(Seq<char>),
    ArrayInitializer,
    InlineStruct,
    InlineArray,
}

/// The view of an expression.
pub open spec fn expr_view(e: Expression) -> ExprV
    decreases e,
{
    match e {
        Expression::Ternary(a, b, c) => ExprV::Ternary(
            Box::new(expr_view(*a)),
            Box::new(expr_view(*b)),
            Box::new(expr_view(*c)),
        ),
        Expression::Binary(op, l, r) => ExprV::Binary(
            op,
            Box::new(expr_view(*l)),
            Box::new(expr_view(*r)),
        ),
        Expression::Unary(op, x) => ExprV::Unary(op, Box::new(expr_view(*x))),
        Expression::Call(f, args) => ExprV::Call(f@, exprs_view(args@)),
        Expression::Identifier(s) => ExprV::Identifier(s@),
        Expression::Literal(l) => ExprV::Literal(l),
        Expression::Access(s) => ExprV::Access(s@),
        Expression::ArrayInitializer => ExprV::ArrayInitializer,
        Expression::InlineStruct => ExprV::InlineStruct,
        Expression::InlineArray => ExprV::InlineArray,
    }
}

/// The views of a list of expressions.
pub open spec fn exprs_view(es: Seq<Expression>) -> Seq<ExprV>
    decreases es,
{
    Seq::new(
        es.len(),
        |i: int|
            if 0 <= i < es.len() {
                expr_view(es[i])
            } else {
                ExprV::InlineArray
            },
    )
}

impl View for Expression {
    type V = ExprV;

    open spec fn view(&self) -> ExprV {
        expr_view(*self)
    }
}

impl Expression {
    /// A deep copy.
    pub fn dup(&self) -> (r: Expression)
        ensures
            r@ == self@,
        decreases self,
    {
        match self {
            Expression::Ternary(a, b, c) => Expression::Ternary(
                Box::new(a.dup()),
                Box::new(b.dup()),
                Box::new(c.dup()),
            ),
            Expression::Binary(op, l, r) => Expression::Binary(
                *op,
                Box::new(l.dup()),
                Box::new(r.dup()),
            ),
            Expression::Unary(op, x) => Expression::Unary(*op, Box::new(x.dup())),
            Expression::Call(f, args) => Expression::Call(f.clone(), dup_exprs(args)),
            Expression::Identifier(s) => Expression::Identifier(s.clone()),
            Expression::Literal(l) => Expression::Literal(*l),
            Expression::Access(s) => Expression::Access(s.clone()),
            Expression::ArrayInitializer => Expression::ArrayInitializer,
            Expression::InlineStruct => Expression::InlineStruct,
            Expression::InlineArray => Expression::InlineArray,
        }
    }
}

impl Expression {
    /// The identifier `name`.
    pub fn ident(name: String) -> (r: Expression)
        ensures
            r@ == ExprV::Identifier(name@),
    {
        Expression::Identifier(name)
    }

    /// The literal `l`.
    pub fn literal(l: LiteralExpression) -> (r: Expression)
        ensures
            r@ == ExprV::Literal(l),
    {
        Expression::Literal(l)
    }

    /// `op x`.
    pub fn unary(op: UnaryOperator, x: Expression) -> (r: Expression)
        ensures
            r@ == ExprV::Unary(op, Box::new(x@)),
    {
        Expression::Unary(op, Box::new(x))
    }

    /// `l op r`.
    pub fn binary(op: BinaryOperator, l: Expression, r: Expression) -> (e: Expression)
        ensures
            e@ == ExprV::Binary(op, Box::new(l@), Box::new(r@)),
    {
        Expression::Binary(op, Box::new(l), Box::new(r))
    }

    /// `a ? b : c`.
    pub fn ternary(a: Expression, b: Expression, c: Expression) -> (e: Expression)
        ensures
            e@ == ExprV::Ternary(Box::new(a@), Box::new(b@), Box::new(c@)),
    {
        Expression::Ternary(Box::new(a), Box::new(b), Box::new(c))
    }

    /// The call `f(args)`.
    pub fn call(f: String, args: Vec<Expression>) -> (e: Expression)
        ensures
            e@ == ExprV::Call(f@, exprs_view(args@)),
    {
        Expression::Call(f, args)
    }
}

/// A deep copy of a list of expressions.
pub fn dup_exprs(es: &Vec<Expression>) -> (out: Vec<Expression>)
    ensures
        exprs_view(out@) == exprs_view(es@),
    decreases es,
{
    let mut out: Vec<Expression> = Vec::new();
    let mut i: usize = 0;
    while i < es.len()
        invariant
            i <= es.len(),
            out.len() == i,
            forall|j: int| 0 <= j < i ==> out@[j]@ == es@[j]@,
        decreases es.len() - i,
    {
        proof {
            broadcast use vstd::std_specs::vec::axiom_vec_index_decreases;

            assert(decreases_to!(es => es[i as int]));
        }
        out.push(es[i].dup());
        i += 1;
    }
    assert(exprs_view(out@) =~= exprs_view(es@));
    out
}

/// The left side of a definition: a declaration with its type, a plain
/// assignment target, or an assignment target followed by an index or a
/// member access.
#[derive(Debug, PartialEq, Eq)]
pub enum TypedIdentifierOrAssignee {
    TypedIdentifier(Type, String),
    Assignee(String),
    IndexedAssignee(String),
}

/// The view of a [`TypedIdentifierOrAssignee`].
pub enum LhsV {
    TypedIdentifier(Type, Seq<char>),
    Assignee(Seq<char>),
    IndexedAssignee(Seq<char>),
}

impl View for TypedIdentifierOrAssignee {
    type V = LhsV;

    open spec fn view(&self) -> LhsV {
        match self {
            TypedIdentifierOrAssignee::TypedIdentifier(t, s) => LhsV::TypedIdentifier(*t, s@),
            TypedIdentifierOrAssignee::Assignee(s) => LhsV::Assignee(s@),
            TypedIdentifierOrAssignee::IndexedAssignee(s) => LhsV::IndexedAssignee(s@),
        }
    }
}

impl TypedIdentifierOrAssignee {
    /// A deep copy.
    pub fn dup(&self) -> (r: TypedIdentifierOrAssignee)
        ensures
            r@ == self@,
    {
        match self {
            TypedIdentifierOrAssignee::TypedIdentifier(t, s) => {
                TypedIdentifierOrAssignee::TypedIdentifier(*t, s.clone())
            },
            TypedIdentifierOrAssignee::Assignee(s) => TypedIdentifierOrAssignee::Assignee(
                s.clone(),
            ),
            TypedIdentifierOrAssignee::IndexedAssignee(s) => {
                TypedIdentifierOrAssignee::IndexedAssignee(s.clone())
            },
        }
    }
}

/// The view of the left side of a definition.
pub open spec fn lhs_view(l: Seq<TypedIdentifierOrAssignee>) -> Seq<LhsV> {
    Seq::new(l.len(), |i: int| l[i]@)
}

/// A deep copy of the left side of a definition.
pub fn dup_lhs(l: &Vec<TypedIdentifierOrAssignee>) -> (out: Vec<TypedIdentifierOrAssignee>)
    ensures
        lhs_view(out@) == lhs_view(l@),
{
    let mut out: Vec<TypedIdentifierOrAssignee> = Vec::new();
    let mut i: usize = 0;
    while i < l.len()
        invariant
            i <= l.len(),
            out.len() == i,
            forall|j: int| 0 <= j < i ==> out@[j]@ == l@[j]@,
        decreases l.len() - i,
    {
        out.push(l[i].dup());
        i += 1;
    }
    assert(lhs_view(out@) =~= lhs_view(l@));
    out
}

/// A statement.
#[derive(Debug, PartialEq, Eq)]
pub enum Statement {
    Return(Vec<Expression>),
    Assertion(Expression),
    Iteration { ty: Type, index: String, from: Expression, to: Expression, statements: Vec<Statement> },
    Conditional { condition: Expression, ifbranch: Vec<Statement>, elsebranch: Vec<Statement> },
    Definition { lhs: Vec<TypedIdentifierOrAssignee>, expression: Expression },
}

/// The view of a [`Statement`].
pub enum StmtV {
    Return(Seq<ExprV>),
    Assertion(ExprV),
    Iteration { ty: Type, index: Seq<char>, from: ExprV, to: ExprV, statements: Seq<StmtV> },
    Conditional { condition: ExprV, ifbranch: Seq<StmtV>, elsebranch: Seq<StmtV> },
    Definition { lhs: Seq<LhsV>, expression: ExprV },
}

/// The view of a statement.
pub open spec fn stmt_view(s: Statement) -> StmtV
    decreases s,
{
    match s {
        Statement::Return(es) => StmtV::Return(exprs_view(es@)),
        Statement::Assertion(e) => StmtV::Assertion(e@),
        Statement::Iteration { ty, index, from, to, statements } => StmtV::Iteration {
            ty,
            index: index@,
            from: from@,
            to: to@,
            statements: stmts_view(statements@),
        },
        Statement::Conditional { condition, ifbranch, elsebranch } => StmtV::Conditional {
            condition: condition@,
            ifbranch: stmts_view(ifbranch@),
            elsebranch: stmts_view(elsebranch@),
        },
        Statement::Definition { lhs, expression } => StmtV::Definition {
            lhs: lhs_view(lhs@),
            expression: expression@,
        },
    }
}

/// The views of a list of statements.
pub open spec fn stmts_view(ss: Seq<Statement>) -> Seq<StmtV>
    decreases ss,
{
    Seq::new(
        ss.len(),
        |i: int|
            if 0 <= i < ss.len() {
                stmt_view(ss[i])
            } else {
                StmtV::Return(Seq::empty())
            },
    )
}

impl View for Statement {
    type V = StmtV;

    open spec fn view(&self) -> StmtV {
        stmt_view(*self)
    }
}

impl Statement {
    /// A deep copy.
    pub fn dup(&self) -> (r: Statement)
        ensures
            r@ == self@,
        decreases self,
    {
        match self {
            Statement::Return(es) => Statement::Return(dup_exprs(es)),
            Statement::Assertion(e) => Statement::Assertion(e.dup()),
            Statement::Iteration { ty, index, from, to, statements } => Statement::Iteration {
                ty: *ty,
                index: index.clone(),
                from: from.dup(),
                to: to.dup(),
                statements: dup_stmts(statements),
            },
            Statement::Conditional { condition, ifbranch, elsebranch } => Statement::Conditional {
                condition: condition.dup(),
                ifbranch: dup_stmts(ifbranch),
                elsebranch: dup_stmts(elsebranch),
            },
            Statement::Definition { lhs, expression } => Statement::Definition {
                lhs: dup_lhs(lhs),
                expression: expression.dup(),
            },
        }
    }
}

/// The left side that declares `name` with type `ty`.
pub open spec fn decl_lhs(ty: Type, name: Seq<char>) -> Seq<LhsV> {
    seq![LhsV::TypedIdentifier(ty, name)]
}

/// The left side that assigns to `name`.
pub open spec fn assign_lhs(name: Seq<char>) -> Seq<LhsV> {
    seq![LhsV::Assignee(name)]
}

impl Statement {
    /// The definition `lhs = expression`.
    pub fn definition(lhs: Vec<TypedIdentifierOrAssignee>, expression: Expression) -> (r: Statement)
        ensures
            r@ == (StmtV::Definition { lhs: lhs_view(lhs@), expression: expression@ }),
    {
        Statement::Definition { lhs, expression }
    }

    /// The declaration `ty name = expression`.
    pub fn declare(ty: Type, name: String, expression: Expression) -> (r: Statement)
        ensures
            r@ == (StmtV::Definition { lhs: decl_lhs(ty, name@), expression: expression@ }),
    {
        let mut lhs: Vec<TypedIdentifierOrAssignee> = Vec::new();
        lhs.push(TypedIdentifierOrAssignee::TypedIdentifier(ty, name));
        assert(lhs_view(lhs@) =~= decl_lhs(ty, name@));
        Statement::Definition { lhs, expression }
    }

    /// The assignment `name = expression`.
    pub fn assign(name: String, expression: Expression) -> (r: Statement)
        ensures
            r@ == (StmtV::Definition { lhs: assign_lhs(name@), expression: expression@ }),
    {
        let mut lhs: Vec<TypedIdentifierOrAssignee> = Vec::new();
        lhs.push(TypedIdentifierOrAssignee::Assignee(name));
        assert(lhs_view(lhs@) =~= assign_lhs(name@));
        Statement::Definition { lhs, expression }
    }

    /// The assertion of `expression`.
    pub fn assertion(expression: Expression) -> (r: Statement)
        ensures
            r@ == StmtV::Assertion(expression@),
    {
        Statement::Assertion(expression)
    }
}

/// A deep copy of a list of statements.
pub fn dup_stmts(ss: &Vec<Statement>) -> (out: Vec<Statement>)
    ensures
        stmts_view(out@) == stmts_view(ss@),
    decreases ss,
{
    let mut out: Vec<Statement> = Vec::new();
    let mut i: usize = 0;
    while i < ss.len()
        invariant
            i <= ss.len(),
            out.len() == i,
            forall|j: int| 0 <= j < i ==> out@[j]@ == ss@[j]@,
        decreases ss.len() - i,
    {
        proof {
            broadcast use vstd::std_specs::vec::axiom_vec_index_decreases;

            assert(decreases_to!(ss => ss[i as int]));
        }
        out.push(ss[i].dup());
        i += 1;
    }
    assert(stmts_view(out@) =~= stmts_view(ss@));
    out
}

/// A formal parameter of a function.
#[derive(Debug, PartialEq, Eq)]
pub struct Parameter {
    pub ty: Type,
    pub id: String,
}

/// The view of a [`Parameter`].
pub struct ParamV {
    pub ty: Type,
    pub id: Seq<char>,
}

impl View for Parameter {
    type V = ParamV;

    open spec fn view(&self) -> ParamV {
        ParamV { ty: self.ty, id: self.id@ }
    }
}

/// A function definition: its name, the names of its generic parameters,
/// its formal parameters, its return types and its body.
#[derive(Debug, PartialEq, Eq)]
pub struct FunctionDefinition {
    pub id: String,
    pub generics: Vec<String>,
    pub parameters: Vec<Parameter>,
    pub returns: Vec<Type>,
    pub statements: Vec<Statement>,
}

/// The view of a [`FunctionDefinition`]. Of the generic parameters it
/// keeps their number.
pub struct FuncV {
    pub id: Seq<char>,
    pub generics: nat,
    pub parameters: Seq<ParamV>,
    pub returns: Seq<Type>,
    pub statements: Seq<StmtV>,
}

impl View for FunctionDefinition {
    type V = FuncV;

    open spec fn view(&self) -> FuncV {
        FuncV {
            id: self.id@,
            generics: self.generics@.len(),
            parameters: Seq::new(self.parameters@.len(), |i: int| self.parameters@[i]@),
            returns: self.returns@,
            statements: stmts_view(self.statements@),
        }
    }
}

} // verus!
