//! The type of a source expression under the declarations in scope.

use crate::ast::{
    BinaryOperator, DecimalSuffix, ExprV, Expression, LiteralExpression, ParamV, Parameter, Ty,
    UnaryOperator,
};
use crate::blocks::{ty_of_type, type_impl_, Error};
use crate::scope::{cvar_lookup, cvar_lookup_spec, ScopeV};
use crate::zgen::{ProgV, ZGen};
use vstd::prelude::*;

verus! {

/// The type that a literal suffix names.
pub open spec fn suffix_ty(s: DecimalSuffix) -> Ty {
    match s {
        DecimalSuffix::Field => Ty::Field,
        DecimalSuffix::U8 => Ty::Uint(8),
        DecimalSuffix::U16 => Ty::Uint(16),
        DecimalSuffix::U32 => Ty::Uint(32),
        DecimalSuffix::U64 => Ty::Uint(64),
    }
}

/// The type of a literal. A decimal literal without a suffix has none.
pub open spec fn literal_type(l: LiteralExpression) -> Result<Ty, Error> {
    match l {
        LiteralExpression::DecimalLiteral(_, Some(s)) => Ok(suffix_ty(s)),
        LiteralExpression::DecimalLiteral(_, None) => Err(Error::TypeMismatch),
        LiteralExpression::BooleanLiteral(_) => Ok(Ty::Bool),
    }
}

/// Whether values of type `t` are numbers.
pub open spec fn is_number(t: Ty) -> bool {
    t is Field || t is Uint
}

/// The type of `a op b` for operands of the types `a` and `b`.
pub open spec fn binary_type(op: BinaryOperator, a: Ty, b: Ty) -> Result<Ty, Error> {
    match op {
        BinaryOperator::Add
        | BinaryOperator::Sub
        | BinaryOperator::Mul
        | BinaryOperator::Div
        | BinaryOperator::Rem => if a == b && is_number(a) {
            Ok(a)
        } else {
            Err(Error::TypeMismatch)
        },
        BinaryOperator::Pow => if is_number(a) && b == Ty::Uint(32) {
            Ok(a)
        } else {
            Err(Error::TypeMismatch)
        },
        BinaryOperator::BitXor | BinaryOperator::BitAnd | BinaryOperator::BitOr => if a == b && (a is Uint
            || a is Bool) {
            Ok(a)
        } else {
            Err(Error::TypeMismatch)
        },
        BinaryOperator::LeftShift | BinaryOperator::RightShift => if a is Uint && b == Ty::Uint(32) {
            Ok(a)
        } else {
            Err(Error::TypeMismatch)
        },
        BinaryOperator::Or | BinaryOperator::And => if a is Bool && b is Bool {
            Ok(Ty::Bool)
        } else {
            Err(Error::TypeMismatch)
        },
        BinaryOperator::Eq | BinaryOperator::NotEq => if a == b {
            Ok(Ty::Bool)
        } else {
            Err(Error::TypeMismatch)
        },
        BinaryOperator::Lt | BinaryOperator::Gt | BinaryOperator::Lte | BinaryOperator::Gte => if a
            == b && is_number(a) {
            Ok(Ty::Bool)
        } else {
            Err(Error::TypeMismatch)
        },
    }
}

/// The type of `op a` for an operand of type `a`.
pub open spec fn unary_type(op: UnaryOperator, a: Ty) -> Result<Ty, Error> {
    match op {
        UnaryOperator::Pos | UnaryOperator::Neg => if is_number(a) {
            Ok(a)
        } else {
            Err(Error::TypeMismatch)
        },
        UnaryOperator::Not => if a is Bool || a is Uint {
            Ok(a)
        } else {
            Err(Error::TypeMismatch)
        },
        UnaryOperator::Strict => Ok(a),
    }
}

/// The type of `e` under the declarations `cvars`.
///
/// An identifier has the type of its innermost declaration. A call has the
/// declared return type of the function, provided that the arguments are
/// as many as the parameters and have their types.
pub open spec fn type_of(prog: ProgV, cvars: Seq<ScopeV>, e: ExprV) -> Result<Ty, Error>
    decreases e,
{
    match e {
        ExprV::Ternary(c, a, b) => match type_of(prog, cvars, *c) {
            Err(err) => Err(err),
            Ok(tc) => match type_of(prog, cvars, *a) {
                Err(err) => Err(err),
                Ok(ta) => match type_of(prog, cvars, *b) {
                    Err(err) => Err(err),
                    Ok(tb) => if tc is Bool && ta == tb {
                        Ok(ta)
                    } else {
                        Err(Error::TypeMismatch)
                    },
                },
            },
        },
        ExprV::Binary(op, l, r) => match type_of(prog, cvars, *l) {
            Err(err) => Err(err),
            Ok(tl) => match type_of(prog, cvars, *r) {
                Err(err) => Err(err),
                Ok(tr) => binary_type(op, tl, tr),
            },
        },
        ExprV::Unary(op, x) => match type_of(prog, cvars, *x) {
            Err(err) => Err(err),
            Ok(tx) => unary_type(op, tx),
        },
        ExprV::Call(f, args) => match prog.find_function(f) {
            None => Err(Error::UndefinedBeforeUse),
            Some(k) => {
                let func = prog.functions[k];
                if func.generics != 0 || func.returns.len() != 1 {
                    Err(Error::Unsupported)
                } else if func.parameters.len() != args.len() {
                    Err(Error::TypeMismatch)
                } else {
                    match args_typed(prog, cvars, args, func.parameters, 0) {
                        Err(err) => Err(err),
                        Ok(_) => ty_of_type(func.returns[0]),
                    }
                }
            },
        },
        ExprV::Identifier(name) => match cvar_lookup_spec(cvars, name) {
            Some(t) => Ok(t),
            None => Err(Error::UndefinedBeforeUse),
        },
        ExprV::Literal(l) => literal_type(l),
        ExprV::Access(_) => Err(Error::Unsupported),
        ExprV::ArrayInitializer => Err(Error::Unsupported),
        ExprV::InlineStruct => Err(Error::Unsupported),
        ExprV::InlineArray => Err(Error::Unsupported),
    }
}

/// Whether each argument from the `i`-th on has the type of its parameter.
pub open spec fn args_typed(
    prog: ProgV,
    cvars: Seq<ScopeV>,
    args: Seq<ExprV>,
    params: Seq<ParamV>,
    i: int,
) -> Result<(), Error>
    decreases args, args.len() - i,
{
    if i < 0 || i >= args.len() || i >= params.len() {
        Ok(())
    } else {
        match type_of(prog, cvars, args[i]) {
            Err(err) => Err(err),
            Ok(ta) => match ty_of_type(params[i].ty) {
                Err(err) => Err(err),
                Ok(tp) => if ta == tp {
                    args_typed(prog, cvars, args, params, i + 1)
                } else {
                    Err(Error::TypeMismatch)
                },
            },
        }
    }
}

/// The type that a literal suffix names.
pub fn suffix_type(s: DecimalSuffix) -> (t: Ty)
    ensures
        t == suffix_ty(s),
{
    match s {
        DecimalSuffix::Field => Ty::Field,
        DecimalSuffix::U8 => Ty::Uint(8),
        DecimalSuffix::U16 => Ty::Uint(16),
        DecimalSuffix::U32 => Ty::Uint(32),
        DecimalSuffix::U64 => Ty::Uint(64),
    }
}

/// The type of a literal.
pub fn type_of_literal(l: &LiteralExpression) -> (r: Result<Ty, Error>)
    ensures
        r == literal_type(*l),
{
    match l {
        LiteralExpression::DecimalLiteral(_, Some(s)) => Ok(suffix_type(*s)),
        LiteralExpression::DecimalLiteral(_, None) => Err(Error::TypeMismatch),
        LiteralExpression::BooleanLiteral(_) => Ok(Ty::Bool),
    }
}

fn ty_is_number(t: Ty) -> (b: bool)
    ensures
        b == is_number(t),
{
    match t {
        Ty::Field => true,
        Ty::Uint(_) => true,
        Ty::Bool => false,
    }
}

fn ty_is_uint(t: Ty) -> (b: bool)
    ensures
        b == (t is Uint),
{
    match t {
        Ty::Uint(_) => true,
        _ => false,
    }
}

fn ty_is_bool(t: Ty) -> (b: bool)
    ensures
        b == (t is Bool),
{
    match t {
        Ty::Bool => true,
        _ => false,
    }
}

/// The type of `a op b`.
pub fn type_of_binary(op: BinaryOperator, a: Ty, b: Ty) -> (r: Result<Ty, Error>)
    ensures
        r == binary_type(op, a, b),
{
    let ok = match op {
        BinaryOperator::Add
        | BinaryOperator::Sub
        | BinaryOperator::Mul
        | BinaryOperator::Div
        | BinaryOperator::Rem => a == b && ty_is_number(a),
        BinaryOperator::Pow => ty_is_number(a) && b == Ty::Uint(32),
        BinaryOperator::BitXor | BinaryOperator::BitAnd | BinaryOperator::BitOr => a == b && (
        ty_is_uint(a) || ty_is_bool(a)),
        BinaryOperator::LeftShift | BinaryOperator::RightShift => ty_is_uint(a) && b == Ty::Uint(
            32,
        ),
        BinaryOperator::Or | BinaryOperator::And => ty_is_bool(a) && ty_is_bool(b),
        BinaryOperator::Eq | BinaryOperator::NotEq => a == b,
        BinaryOperator::Lt | BinaryOperator::Gt | BinaryOperator::Lte | BinaryOperator::Gte => a
            == b && ty_is_number(a),
    };
    if !ok {
        return Err(Error::TypeMismatch);
    }
    match op {
        BinaryOperator::Or
        | BinaryOperator::And
        | BinaryOperator::Eq
        | BinaryOperator::NotEq
        | BinaryOperator::Lt
        | BinaryOperator::Gt
        | BinaryOperator::Lte
        | BinaryOperator::Gte => Ok(Ty::Bool),
        _ => Ok(a),
    }
}

/// The type of `op a`.
pub fn type_of_unary(op: UnaryOperator, a: Ty) -> (r: Result<Ty, Error>)
    ensures
        r == unary_type(op, a),
{
    let ok = match op {
        UnaryOperator::Pos | UnaryOperator::Neg => ty_is_number(a),
        UnaryOperator::Not => ty_is_bool(a) || ty_is_uint(a),
        UnaryOperator::Strict => true,
    };
    if ok {
        Ok(a)
    } else {
        Err(Error::TypeMismatch)
    }
}

impl ZGen {
    /// The type of `e` under the declarations `cvars`.
    pub fn expr_type(&self, cvars: &Vec<Vec<(String, Ty)>>, e: &Expression) -> (r: Result<
        Ty,
        Error,
    >)
        ensures
            r == type_of(self@, cvars.deep_view(), e@),
        decreases e,
    {
        match e {
            Expression::Ternary(c, a, b) => {
                let tc = self.expr_type(cvars, c)?;
                let ta = self.expr_type(cvars, a)?;
                let tb = self.expr_type(cvars, b)?;
                if ty_is_bool(tc) && ta == tb {
                    Ok(ta)
                } else {
                    Err(Error::TypeMismatch)
                }
            },
            Expression::Binary(op, l, r) => {
                let tl = self.expr_type(cvars, l)?;
                let tr = self.expr_type(cvars, r)?;
                type_of_binary(*op, tl, tr)
            },
            Expression::Unary(op, x) => {
                let tx = self.expr_type(cvars, x)?;
                type_of_unary(*op, tx)
            },
            Expression::Call(f, args) => {
                match self.find_function(f) {
                    None => Err(Error::UndefinedBeforeUse),
                    Some(k) => {
                        let func = &self.functions[k];
                        if func.generics.len() != 0 || func.returns.len() != 1 {
                            Err(Error::Unsupported)
                        } else if func.parameters.len() != args.len() {
                            Err(Error::TypeMismatch)
                        } else {
                            self.args_type(cvars, args, &func.parameters)?;
                            type_impl_(func.returns[0])
                        }
                    },
                }
            },
            Expression::Identifier(name) => match cvar_lookup(cvars, name) {
                Some(t) => Ok(t),
                None => Err(Error::UndefinedBeforeUse),
            },
            Expression::Literal(l) => type_of_literal(l),
            Expression::Access(_) => Err(Error::Unsupported),
            Expression::ArrayInitializer => Err(Error::Unsupported),
            Expression::InlineStruct => Err(Error::Unsupported),
            Expression::InlineArray => Err(Error::Unsupported),
        }
    }

    /// Whether each argument has the type of its parameter.
    pub fn args_type(
        &self,
        cvars: &Vec<Vec<(String, Ty)>>,
        args: &Vec<Expression>,
        params: &Vec<Parameter>,
    ) -> (r: Result<(), Error>)
        ensures
            r == args_typed(
                self@,
                cvars.deep_view(),
                crate::ast::exprs_view(args@),
                Seq::new(params@.len(), |i: int| params@[i]@),
                0,
            ),
        decreases args,
    {
        let ghost pv = Seq::new(params@.len(), |i: int| params@[i]@);
        let ghost av = crate::ast::exprs_view(args@);
        let mut i: usize = 0;
        while i < args.len() && i < params.len()
            invariant
                i <= args.len(),
                pv == Seq::new(params@.len(), |i: int| params@[i]@),
                av == crate::ast::exprs_view(args@),
                args_typed(self@, cvars.deep_view(), av, pv, 0) == args_typed(
                    self@,
                    cvars.deep_view(),
                    av,
                    pv,
                    i as int,
                ),
            decreases args.len() - i,
        {
            proof {
                broadcast use vstd::std_specs::vec::axiom_vec_index_decreases;

                assert(decreases_to!(args => args[i as int]));
            }
            let ta = self.expr_type(cvars, &args[i])?;
            let tp = type_impl_(params[i].ty)?;
            if ta != tp {
                return Err(Error::TypeMismatch);
            }
            i += 1;
        }
        Ok(())
    }
}

} // verus!
