//! Values and the operations on them: field elements modulo the field's
//! modulus, unsigned integers modulo two to their width, and booleans.

use crate::ast::{BinaryOperator, DecimalSuffix, LiteralExpression, Ty, UnaryOperator};
use crate::blocks::Error;
use vstd::prelude::*;

verus! {

/// A value with its type.
#[derive(Clone, Copy, Debug, PartialEq, Eq, Structural)]
pub enum Value {
    /// A field element.
    Field(u64),
    /// An unsigned integer of the given width in bits.
    Uint(usize, u64),
    Bool(bool),
}

impl Value {
    /// The type of the value.
    pub open spec fn ty_spec(self) -> Ty {
        match self {
            Value::Field(_) => Ty::Field,
            Value::Uint(w, _) => Ty::Uint(w),
            Value::Bool(_) => Ty::Bool,
        }
    }

    /// The type of the value.
    #[verifier::when_used_as_spec(ty_spec)]
    pub fn ty(self) -> (t: Ty)
        ensures
            t == self.ty_spec(),
    {
        match self {
            Value::Field(_) => Ty::Field,
            Value::Uint(w, _) => Ty::Uint(w),
            Value::Bool(_) => Ty::Bool,
        }
    }
}

/// The number of values of a numeric type: the modulus `p` for the field,
/// two to the width for an integer of a width that the language has.
pub open spec fn modulus_of(t: Ty, p: u64) -> Option<int> {
    match t {
        Ty::Field => if p > 0 {
            Some(p as int)
        } else {
            None
        },
        Ty::Uint(w) => if w == 8 {
            Some(0x100)
        } else if w == 16 {
            Some(0x1_0000)
        } else if w == 32 {
            Some(0x1_0000_0000)
        } else if w == 64 {
            Some(0x1_0000_0000_0000_0000)
        } else {
            None
        },
        Ty::Bool => None,
    }
}

/// The value of the numeric type `t` that stands for the number `x`.
pub open spec fn number(t: Ty, x: int) -> Value {
    match t {
        Ty::Uint(w) => Value::Uint(w, x as u64),
        _ => Value::Field(x as u64),
    }
}

/// The number that a numeric value holds.
pub open spec fn number_of(v: Value) -> int {
    match v {
        Value::Field(x) => x as int,
        Value::Uint(_, x) => x as int,
        Value::Bool(b) => if b {
            1
        } else {
            0
        },
    }
}

/// The zero of a type.
pub open spec fn zero_of(t: Ty) -> Value {
    match t {
        Ty::Field => Value::Field(0),
        Ty::Uint(w) => Value::Uint(w, 0),
        Ty::Bool => Value::Bool(false),
    }
}

/// The type of a literal suffix.
pub open spec fn suffix_type_of(s: DecimalSuffix) -> Ty {
    crate::typing::suffix_ty(s)
}

/// The value of a literal. A decimal literal needs a suffix; a field
/// literal is reduced modulo `p`; an integer literal must fit its width.
pub open spec fn literal_value(l: LiteralExpression, p: u64) -> Result<Value, Error> {
    match l {
        LiteralExpression::BooleanLiteral(b) => Ok(Value::Bool(b)),
        LiteralExpression::DecimalLiteral(_, None) => Err(Error::TypeMismatch),
        LiteralExpression::DecimalLiteral(v, Some(s)) => match modulus_of(suffix_type_of(s), p) {
            None => Err(Error::TypeMismatch),
            Some(m) => if suffix_type_of(s) is Field {
                Ok(Value::Field((v % (p as u64)) as u64))
            } else if v < m {
                Ok(number(suffix_type_of(s), v as int))
            } else {
                Err(Error::TypeMismatch)
            },
        },
    }
}

/// The result of an arithmetic operator on the numbers `x` and `y` modulo
/// `m`.
pub open spec fn arith(op: BinaryOperator, x: int, y: int, m: int) -> Result<int, Error> {
    match op {
        BinaryOperator::Add => Ok((x + y) % m),
        BinaryOperator::Sub => Ok((x + (m - y % m)) % m),
        BinaryOperator::Mul => Ok((x * y) % m),
        BinaryOperator::Div => if y == 0 {
            Err(Error::ConstFoldFailure)
        } else {
            Ok((x / y) % m)
        },
        BinaryOperator::Rem => if y == 0 {
            Err(Error::ConstFoldFailure)
        } else {
            Ok((x % y) % m)
        },
        _ => Err(Error::Unsupported),
    }
}

/// The result of a comparison of the numbers `x` and `y`.
pub open spec fn compare(op: BinaryOperator, x: int, y: int) -> Result<bool, Error> {
    match op {
        BinaryOperator::Eq => Ok(x == y),
        BinaryOperator::NotEq => Ok(x != y),
        BinaryOperator::Lt => Ok(x < y),
        BinaryOperator::Gt => Ok(x > y),
        BinaryOperator::Lte => Ok(x <= y),
        BinaryOperator::Gte => Ok(x >= y),
        _ => Err(Error::Unsupported),
    }
}

/// Whether `op` compares.
pub open spec fn is_comparison(op: BinaryOperator) -> bool {
    op is Eq || op is NotEq || op is Lt || op is Gt || op is Lte || op is Gte
}

/// Whether `op` is an arithmetic operator that values can be computed
/// with.
pub open spec fn is_arith(op: BinaryOperator) -> bool {
    op is Add || op is Sub || op is Mul || op is Div || op is Rem
}

/// The value of `a op b`.
///
/// Both operands have the same type. Field elements are added, subtracted
/// and multiplied modulo `p` and compared as numbers. Integers are added,
/// subtracted and multiplied modulo two to their width, divided, combined
/// bit by bit, and compared. Booleans are combined and compared for
/// equality. Division by zero does not fold to a constant. Powers, shifts
/// and the division of field elements are not supported.
pub open spec fn binary_value(op: BinaryOperator, a: Value, b: Value, p: u64) -> Result<
    Value,
    Error,
> {
    match (a, b) {
        (Value::Bool(x), Value::Bool(y)) => match op {
            BinaryOperator::And => Ok(Value::Bool(x && y)),
            BinaryOperator::Or => Ok(Value::Bool(x || y)),
            BinaryOperator::BitXor => Ok(Value::Bool(x != y)),
            BinaryOperator::BitAnd => Ok(Value::Bool(x && y)),
            BinaryOperator::BitOr => Ok(Value::Bool(x || y)),
            BinaryOperator::Eq => Ok(Value::Bool(x == y)),
            BinaryOperator::NotEq => Ok(Value::Bool(x != y)),
            BinaryOperator::Pow | BinaryOperator::LeftShift | BinaryOperator::RightShift => Err(
                Error::Unsupported,
            ),
            _ => Err(Error::TypeMismatch),
        },
        (Value::Field(x), Value::Field(y)) => if is_comparison(op) {
            match compare(op, x as int, y as int) {
                Ok(r) => Ok(Value::Bool(r)),
                Err(e) => Err(e),
            }
        } else if op is Add || op is Sub || op is Mul {
            if p == 0 {
                Err(Error::TypeMismatch)
            } else {
                match arith(op, x as int, y as int, p as int) {
                    Ok(r) => Ok(Value::Field(r as u64)),
                    Err(e) => Err(e),
                }
            }
        } else if op is Div || op is Rem || op is Pow || op is LeftShift || op is RightShift {
            Err(Error::Unsupported)
        } else {
            Err(Error::TypeMismatch)
        },
        (Value::Uint(w, x), Value::Uint(v, y)) => if op is Pow || op is LeftShift
            || op is RightShift {
            Err(Error::Unsupported)
        } else if w != v {
            Err(Error::TypeMismatch)
        } else {
            match modulus_of(Ty::Uint(w), p) {
                None => Err(Error::TypeMismatch),
                Some(m) => if is_comparison(op) {
                    match compare(op, x as int, y as int) {
                        Ok(r) => Ok(Value::Bool(r)),
                        Err(e) => Err(e),
                    }
                } else if is_arith(op) {
                    match arith(op, x as int, y as int, m) {
                        Ok(r) => Ok(Value::Uint(w, r as u64)),
                        Err(e) => Err(e),
                    }
                } else if op is BitAnd {
                    Ok(Value::Uint(w, x & y))
                } else if op is BitOr {
                    Ok(Value::Uint(w, x | y))
                } else if op is BitXor {
                    Ok(Value::Uint(w, x ^ y))
                } else {
                    Err(Error::TypeMismatch)
                },
            }
        },
        _ => if op is Pow || op is LeftShift || op is RightShift {
            Err(Error::Unsupported)
        } else {
            Err(Error::TypeMismatch)
        },
    }
}

/// The value of `op a`.
///
/// `+` and the strictness mark leave the value as it is; `-` gives the
/// additive inverse of a number; `!` negates a boolean and flips the bits
/// of an integer.
pub open spec fn unary_value(op: UnaryOperator, a: Value, p: u64) -> Result<Value, Error> {
    match op {
        UnaryOperator::Strict => Ok(a),
        UnaryOperator::Pos => if a is Bool {
            Err(Error::TypeMismatch)
        } else {
            Ok(a)
        },
        UnaryOperator::Neg => match modulus_of(a.ty_spec(), p) {
            None => Err(Error::TypeMismatch),
            Some(m) => Ok(number(a.ty_spec(), (m - number_of(a) % m) % m)),
        },
        UnaryOperator::Not => match a {
            Value::Bool(b) => Ok(Value::Bool(!b)),
            Value::Uint(w, x) => match modulus_of(Ty::Uint(w), p) {
                None => Err(Error::TypeMismatch),
                Some(m) => Ok(Value::Uint(w, (m - 1 - x as int % m) as u64)),
            },
            Value::Field(_) => Err(Error::TypeMismatch),
        },
    }
}

/// The sum of two field elements, as `typed addition` of two values.
pub open spec fn field_add(a: Value, b: Value, p: u64) -> Result<Value, Error> {
    match (a, b) {
        (Value::Field(_), Value::Field(_)) => binary_value(BinaryOperator::Add, a, b, p),
        _ => Err(Error::TypeMismatch),
    }
}

/// The number that the field element `v` holds, where it fits a `usize`.
pub open spec fn to_usize(v: Value) -> Result<usize, Error> {
    match v {
        Value::Field(x) => if x <= usize::MAX {
            Ok(x as usize)
        } else {
            Err(Error::StackInvariant)
        },
        _ => Err(Error::TypeMismatch),
    }
}

/// The field element that stands for `val`.
pub open spec fn to_field(val: usize, p: u64) -> Value {
    Value::Field((val as u64 % p) as u64)
}

/// The number of values of the numeric type `t`.
pub fn ty_modulus(t: Ty, p: u64) -> (r: Option<u128>)
    ensures
        match r {
            Some(m) => modulus_of(t, p) == Some(m as int) && m > 0,
            None => modulus_of(t, p) is None,
        },
{
    match t {
        Ty::Field => if p > 0 {
            Some(p as u128)
        } else {
            None
        },
        Ty::Uint(w) => if w == 8 {
            Some(0x100)
        } else if w == 16 {
            Some(0x1_0000)
        } else if w == 32 {
            Some(0x1_0000_0000)
        } else if w == 64 {
            Some(0x1_0000_0000_0000_0000)
        } else {
            None
        },
        Ty::Bool => None,
    }
}

/// The zero of a type.
pub fn zero_value(t: Ty) -> (v: Value)
    ensures
        v == zero_of(t),
{
    match t {
        Ty::Field => Value::Field(0),
        Ty::Uint(w) => Value::Uint(w, 0),
        Ty::Bool => Value::Bool(false),
    }
}

/// The value of a literal.
pub fn literal_(l: &LiteralExpression, p: u64) -> (r: Result<Value, Error>)
    ensures
        r == literal_value(*l, p),
{
    match l {
        LiteralExpression::BooleanLiteral(b) => Ok(Value::Bool(*b)),
        LiteralExpression::DecimalLiteral(_, None) => Err(Error::TypeMismatch),
        LiteralExpression::DecimalLiteral(v, Some(s)) => {
            let t = crate::typing::suffix_type(*s);
            match ty_modulus(t, p) {
                None => Err(Error::TypeMismatch),
                Some(m) => match t {
                    Ty::Field => Ok(Value::Field(*v % p)),
                    Ty::Uint(w) => if (*v as u128) < m {
                        Ok(Value::Uint(w, *v))
                    } else {
                        Err(Error::TypeMismatch)
                    },
                    Ty::Bool => Err(Error::TypeMismatch),
                },
            }
        },
    }
}

fn op_is_comparison(op: BinaryOperator) -> (b: bool)
    ensures
        b == is_comparison(op),
{
    match op {
        BinaryOperator::Eq
        | BinaryOperator::NotEq
        | BinaryOperator::Lt
        | BinaryOperator::Gt
        | BinaryOperator::Lte
        | BinaryOperator::Gte => true,
        _ => false,
    }
}

fn op_is_unsupported(op: BinaryOperator) -> (b: bool)
    ensures
        b == (op is Pow || op is LeftShift || op is RightShift),
{
    match op {
        BinaryOperator::Pow | BinaryOperator::LeftShift | BinaryOperator::RightShift => true,
        _ => false,
    }
}

/// The result of an arithmetic operator on `x` and `y` modulo `m`.
fn arith_(op: BinaryOperator, x: u64, y: u64, m: u128) -> (r: Result<u64, Error>)
    requires
        0 < m <= 0x1_0000_0000_0000_0000,
    ensures
        match r {
            Ok(v) => arith(op, x as int, y as int, m as int) == Ok::<int, Error>(v as int),
            Err(e) => arith(op, x as int, y as int, m as int) == Err::<int, Error>(e),
        },
{
    let xx = x as u128;
    let yy = y as u128;
    match op {
        BinaryOperator::Add => Ok(((xx + yy) % m) as u64),
        BinaryOperator::Sub => Ok(((xx + (m - yy % m)) % m) as u64),
        BinaryOperator::Mul => {
            assert(xx * yy <= 0xffff_ffff_ffff_ffff * 0xffff_ffff_ffff_ffff) by (nonlinear_arith)
                requires
                    xx <= 0xffff_ffff_ffff_ffff,
                    yy <= 0xffff_ffff_ffff_ffff,
            ;
            Ok(((xx * yy) % m) as u64)
        },
        BinaryOperator::Div => if y == 0 {
            Err(Error::ConstFoldFailure)
        } else {
            Ok(((xx / yy) % m) as u64)
        },
        BinaryOperator::Rem => if y == 0 {
            Err(Error::ConstFoldFailure)
        } else {
            Ok(((xx % yy) % m) as u64)
        },
        _ => Err(Error::Unsupported),
    }
}

/// The result of a comparison.
fn compare_(op: BinaryOperator, x: u64, y: u64) -> (r: Result<bool, Error>)
    ensures
        r == compare(op, x as int, y as int),
{
    match op {
        BinaryOperator::Eq => Ok(x == y),
        BinaryOperator::NotEq => Ok(x != y),
        BinaryOperator::Lt => Ok(x < y),
        BinaryOperator::Gt => Ok(x > y),
        BinaryOperator::Lte => Ok(x <= y),
        BinaryOperator::Gte => Ok(x >= y),
        _ => Err(Error::Unsupported),
    }
}

/// The value of `a op b`.
pub fn binary_op(op: BinaryOperator, a: Value, b: Value, p: u64) -> (r: Result<Value, Error>)
    ensures
        r == binary_value(op, a, b, p),
{
    match (a, b) {
        (Value::Bool(x), Value::Bool(y)) => match op {
            BinaryOperator::And => Ok(Value::Bool(x && y)),
            BinaryOperator::Or => Ok(Value::Bool(x || y)),
            BinaryOperator::BitXor => Ok(Value::Bool(x != y)),
            BinaryOperator::BitAnd => Ok(Value::Bool(x && y)),
            BinaryOperator::BitOr => Ok(Value::Bool(x || y)),
            BinaryOperator::Eq => Ok(Value::Bool(x == y)),
            BinaryOperator::NotEq => Ok(Value::Bool(x != y)),
            BinaryOperator::Pow | BinaryOperator::LeftShift | BinaryOperator::RightShift => Err(
                Error::Unsupported,
            ),
            _ => Err(Error::TypeMismatch),
        },
        (Value::Field(x), Value::Field(y)) => {
            if op_is_comparison(op) {
                match compare_(op, x, y) {
                    Ok(r) => Ok(Value::Bool(r)),
                    Err(e) => Err(e),
                }
            } else {
                match op {
                    BinaryOperator::Add | BinaryOperator::Sub | BinaryOperator::Mul => {
                        if p == 0 {
                            Err(Error::TypeMismatch)
                        } else {
                            match arith_(op, x, y, p as u128) {
                                Ok(r) => Ok(Value::Field(r)),
                                Err(e) => Err(e),
                            }
                        }
                    },
                    BinaryOperator::Div
                    | BinaryOperator::Rem
                    | BinaryOperator::Pow
                    | BinaryOperator::LeftShift
                    | BinaryOperator::RightShift => Err(Error::Unsupported),
                    _ => Err(Error::TypeMismatch),
                }
            }
        },
        (Value::Uint(w, x), Value::Uint(v, y)) => {
            if op_is_unsupported(op) {
                return Err(Error::Unsupported);
            }
            if w != v {
                return Err(Error::TypeMismatch);
            }
            let m = match ty_modulus(Ty::Uint(w), p) {
                None => {
                    return Err(Error::TypeMismatch);
                },
                Some(m) => m,
            };
            if op_is_comparison(op) {
                match compare_(op, x, y) {
                    Ok(r) => Ok(Value::Bool(r)),
                    Err(e) => Err(e),
                }
            } else {
                match op {
                    BinaryOperator::Add
                    | BinaryOperator::Sub
                    | BinaryOperator::Mul
                    | BinaryOperator::Div
                    | BinaryOperator::Rem => match arith_(op, x, y, m) {
                        Ok(r) => Ok(Value::Uint(w, r)),
                        Err(e) => Err(e),
                    },
                    BinaryOperator::BitAnd => Ok(Value::Uint(w, x & y)),
                    BinaryOperator::BitOr => Ok(Value::Uint(w, x | y)),
                    BinaryOperator::BitXor => Ok(Value::Uint(w, x ^ y)),
                    _ => Err(Error::TypeMismatch),
                }
            }
        },
        _ => if op_is_unsupported(op) {
            Err(Error::Unsupported)
        } else {
            Err(Error::TypeMismatch)
        },
    }
}

/// The value of `op a`.
pub fn unary_op(op: UnaryOperator, a: Value, p: u64) -> (r: Result<Value, Error>)
    ensures
        r == unary_value(op, a, p),
{
    match op {
        UnaryOperator::Strict => Ok(a),
        UnaryOperator::Pos => match a {
            Value::Bool(_) => Err(Error::TypeMismatch),
            _ => Ok(a),
        },
        UnaryOperator::Neg => match ty_modulus(a.ty(), p) {
            None => Err(Error::TypeMismatch),
            Some(m) => match a {
                Value::Field(x) => Ok(Value::Field(((m - (x as u128) % m) % m) as u64)),
                Value::Uint(w, x) => Ok(Value::Uint(w, ((m - (x as u128) % m) % m) as u64)),
                Value::Bool(_) => Err(Error::TypeMismatch),
            },
        },
        UnaryOperator::Not => match a {
            Value::Bool(b) => Ok(Value::Bool(!b)),
            Value::Uint(w, x) => match ty_modulus(Ty::Uint(w), p) {
                None => Err(Error::TypeMismatch),
                Some(m) => Ok(Value::Uint(w, (m - 1 - (x as u128) % m) as u64)),
            },
            Value::Field(_) => Err(Error::TypeMismatch),
        },
    }
}

/// The sum of two field elements.
pub fn add_fields(a: Value, b: Value, p: u64) -> (r: Result<Value, Error>)
    ensures
        r == field_add(a, b, p),
{
    match (a, b) {
        (Value::Field(_), Value::Field(_)) => binary_op(BinaryOperator::Add, a, b, p),
        _ => Err(Error::TypeMismatch),
    }
}

/// The number that the field element `a` holds, where it fits a `usize`.
pub fn t_to_usize(a: Value) -> (r: Result<usize, Error>)
    ensures
        r == to_usize(a),
{
    match a {
        Value::Field(x) => if x <= usize::MAX as u64 {
            Ok(x as usize)
        } else {
            Err(Error::StackInvariant)
        },
        _ => Err(Error::TypeMismatch),
    }
}

/// The field element that stands for `val`.
pub fn usize_to_field(val: usize, p: u64) -> (r: Value)
    requires
        p > 0,
    ensures
        r == to_field(val, p),
{
    Value::Field(val as u64 % p)
}

} // verus!
