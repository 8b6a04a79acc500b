use circ_blocks::ast::{
    BinaryOperator, DecimalSuffix, Expression, LiteralExpression, Statement, Ty, Type,
    TypedIdentifierOrAssignee, UnaryOperator,
};
use circ_blocks::blocks::{Block, BlockContent, BlockTerminator, Error};
use circ_blocks::machine::{cvar_assign, Machine, MemOp, LOAD, STORE};
use circ_blocks::prover::{make_output_name, mem_op_le, sort_by_mem, sort_ops, ExecState};
use circ_blocks::value::{
    add_fields, binary_op, literal_, t_to_usize, unary_op, usize_to_field, zero_value, Value,
};
use circ_blocks::zgen::ZGen;

const P: u64 = 18446744069414584321;

fn in_gen(p: u64) -> ZGen {
    ZGen::new(vec![], vec![], p)
}

fn in_field(v: u64) -> Expression {
    Expression::Literal(LiteralExpression::DecimalLiteral(v, Some(DecimalSuffix::Field)))
}

fn in_bool(b: bool) -> Expression {
    Expression::Literal(LiteralExpression::BooleanLiteral(b))
}

fn in_var(name: &str) -> Expression {
    Expression::Identifier(name.to_string())
}

fn in_bin(op: BinaryOperator, l: Expression, r: Expression) -> Expression {
    Expression::Binary(op, Box::new(l), Box::new(r))
}

fn in_declare(ty: Type, name: &str, e: Expression) -> BlockContent {
    BlockContent::Stmt(Statement::Definition {
        lhs: vec![TypedIdentifierOrAssignee::TypedIdentifier(ty, name.to_string())],
        expression: e,
    })
}

fn in_assign(name: &str, e: Expression) -> BlockContent {
    BlockContent::Stmt(Statement::Definition {
        lhs: vec![TypedIdentifierOrAssignee::Assignee(name.to_string())],
        expression: e,
    })
}

fn in_block(name: usize, instructions: Vec<BlockContent>, terminator: BlockTerminator) -> Block {
    Block { name, inputs: vec![], instructions, terminator }
}

fn in_machine(regs: &[(&str, Value)]) -> Machine {
    let mut m = Machine::new();
    for (n, v) in regs {
        m.set(n, *v);
    }
    m
}

fn in_run(m: &mut Machine, instructions: Vec<BlockContent>) -> Result<Option<usize>, Error> {
    in_gen(P).bl_eval_impl_(&in_block(0, instructions, BlockTerminator::ProgTerm()), m, 1)
}

fn in_store(val: Expression, arr: &str, idx: Expression, init: bool) -> BlockContent {
    BlockContent::Store((val, arr.to_string(), idx, init))
}

fn in_load(var: &str, ty: Ty, arr: &str, idx: Expression) -> BlockContent {
    BlockContent::Load((var.to_string(), ty, arr.to_string(), idx))
}

fn in_phy(addr: usize) -> MemOp {
    MemOp::new(addr, Value::Field(addr as u64), Value::Field(0))
}

fn in_vir(addr: usize, ts: usize, data: u64) -> MemOp {
    MemOp::new_vir(addr, Value::Field(addr as u64), Value::Field(data), STORE, ts, Value::Field(ts as u64))
}

#[test]
fn field_arithmetic_is_modular() {
    let (a, b) = (Value::Field(5), Value::Field(4));
    assert_eq!(binary_op(BinaryOperator::Add, a, b, 7), Ok(Value::Field(2)));
    assert_eq!(binary_op(BinaryOperator::Sub, b, a, 7), Ok(Value::Field(6)));
    assert_eq!(binary_op(BinaryOperator::Sub, a, b, 7), Ok(Value::Field(1)));
    assert_eq!(binary_op(BinaryOperator::Mul, a, b, 7), Ok(Value::Field(6)));
    assert_eq!(
        binary_op(BinaryOperator::Mul, Value::Field(P - 1), Value::Field(P - 1), P),
        Ok(Value::Field(1))
    );
    assert_eq!(
        binary_op(BinaryOperator::Add, Value::Field(P - 1), Value::Field(2), P),
        Ok(Value::Field(1))
    );
    assert_eq!(add_fields(a, b, 7), Ok(Value::Field(2)));
    assert_eq!(add_fields(a, Value::Bool(true), 7), Err(Error::TypeMismatch));
    assert_eq!(add_fields(Value::Uint(8, 1), Value::Uint(8, 1), 7), Err(Error::TypeMismatch));
    assert_eq!(binary_op(BinaryOperator::Add, a, b, 0), Err(Error::TypeMismatch));
}

#[test]
fn field_comparisons_give_booleans() {
    let (a, b) = (Value::Field(5), Value::Field(4));
    assert_eq!(binary_op(BinaryOperator::Lt, a, b, 7), Ok(Value::Bool(false)));
    assert_eq!(binary_op(BinaryOperator::Gt, a, b, 7), Ok(Value::Bool(true)));
    assert_eq!(binary_op(BinaryOperator::Lte, a, a, 7), Ok(Value::Bool(true)));
    assert_eq!(binary_op(BinaryOperator::Gte, b, a, 7), Ok(Value::Bool(false)));
    assert_eq!(binary_op(BinaryOperator::Eq, a, a, 7), Ok(Value::Bool(true)));
    assert_eq!(binary_op(BinaryOperator::NotEq, a, a, 7), Ok(Value::Bool(false)));
}

#[test]
fn integer_arithmetic_wraps_at_the_width() {
    let u8_ = |v| Value::Uint(8, v);
    assert_eq!(binary_op(BinaryOperator::Add, u8_(200), u8_(100), P), Ok(u8_(44)));
    assert_eq!(binary_op(BinaryOperator::Sub, u8_(1), u8_(2), P), Ok(u8_(255)));
    assert_eq!(binary_op(BinaryOperator::Mul, u8_(16), u8_(17), P), Ok(u8_(16)));
    assert_eq!(binary_op(BinaryOperator::Div, u8_(200), u8_(7), P), Ok(u8_(28)));
    assert_eq!(binary_op(BinaryOperator::Rem, u8_(200), u8_(7), P), Ok(u8_(4)));
    assert_eq!(binary_op(BinaryOperator::Div, u8_(1), u8_(0), P), Err(Error::ConstFoldFailure));
    assert_eq!(binary_op(BinaryOperator::Rem, u8_(1), u8_(0), P), Err(Error::ConstFoldFailure));
    assert_eq!(binary_op(BinaryOperator::BitAnd, u8_(0b1100), u8_(0b1010), P), Ok(u8_(0b1000)));
    assert_eq!(binary_op(BinaryOperator::BitOr, u8_(0b1100), u8_(0b1010), P), Ok(u8_(0b1110)));
    assert_eq!(binary_op(BinaryOperator::BitXor, u8_(0b1100), u8_(0b1010), P), Ok(u8_(0b0110)));
    assert_eq!(binary_op(BinaryOperator::Lt, u8_(3), u8_(4), P), Ok(Value::Bool(true)));
    assert_eq!(
        binary_op(BinaryOperator::Add, Value::Uint(64, u64::MAX), Value::Uint(64, 2), P),
        Ok(Value::Uint(64, 1))
    );
    assert_eq!(
        binary_op(BinaryOperator::Mul, Value::Uint(64, u64::MAX), Value::Uint(64, u64::MAX), P),
        Ok(Value::Uint(64, 1))
    );
    assert_eq!(
        binary_op(BinaryOperator::Add, Value::Uint(16, 65535), Value::Uint(16, 1), P),
        Ok(Value::Uint(16, 0))
    );
    assert_eq!(
        binary_op(BinaryOperator::Add, Value::Uint(32, u32::MAX as u64), Value::Uint(32, 1), P),
        Ok(Value::Uint(32, 0))
    );
}

#[test]
fn operations_reject_what_does_not_fit() {
    let (f, u, b) = (Value::Field(1), Value::Uint(8, 1), Value::Bool(true));
    assert_eq!(binary_op(BinaryOperator::Add, f, u, P), Err(Error::TypeMismatch));
    assert_eq!(binary_op(BinaryOperator::Add, b, b, P), Err(Error::TypeMismatch));
    assert_eq!(binary_op(BinaryOperator::And, f, f, P), Err(Error::TypeMismatch));
    assert_eq!(binary_op(BinaryOperator::BitAnd, f, f, P), Err(Error::TypeMismatch));
    assert_eq!(binary_op(BinaryOperator::Lt, b, b, P), Err(Error::TypeMismatch));
    assert_eq!(
        binary_op(BinaryOperator::Add, u, Value::Uint(16, 1), P),
        Err(Error::TypeMismatch)
    );
    assert_eq!(binary_op(BinaryOperator::Add, Value::Uint(7, 1), Value::Uint(7, 1), P), Err(Error::TypeMismatch));
    assert_eq!(binary_op(BinaryOperator::Div, f, f, P), Err(Error::Unsupported));
    assert_eq!(binary_op(BinaryOperator::Rem, f, f, P), Err(Error::Unsupported));
    for op in [BinaryOperator::Pow, BinaryOperator::LeftShift, BinaryOperator::RightShift] {
        assert_eq!(binary_op(op, f, f, P), Err(Error::Unsupported));
        assert_eq!(binary_op(op, u, u, P), Err(Error::Unsupported));
        assert_eq!(binary_op(op, b, b, P), Err(Error::Unsupported));
        assert_eq!(binary_op(op, f, b, P), Err(Error::Unsupported));
    }
}

#[test]
fn booleans_combine() {
    let (t, f) = (Value::Bool(true), Value::Bool(false));
    assert_eq!(binary_op(BinaryOperator::And, t, f, P), Ok(f));
    assert_eq!(binary_op(BinaryOperator::Or, t, f, P), Ok(t));
    assert_eq!(binary_op(BinaryOperator::BitXor, t, t, P), Ok(f));
    assert_eq!(binary_op(BinaryOperator::BitAnd, t, t, P), Ok(t));
    assert_eq!(binary_op(BinaryOperator::BitOr, f, f, P), Ok(f));
    assert_eq!(binary_op(BinaryOperator::Eq, f, f, P), Ok(t));
    assert_eq!(binary_op(BinaryOperator::NotEq, f, f, P), Ok(f));
}

#[test]
fn unary_operations() {
    assert_eq!(unary_op(UnaryOperator::Neg, Value::Field(3), 7), Ok(Value::Field(4)));
    assert_eq!(unary_op(UnaryOperator::Neg, Value::Field(0), 7), Ok(Value::Field(0)));
    assert_eq!(unary_op(UnaryOperator::Neg, Value::Uint(8, 1), 7), Ok(Value::Uint(8, 255)));
    assert_eq!(unary_op(UnaryOperator::Neg, Value::Bool(true), 7), Err(Error::TypeMismatch));
    assert_eq!(unary_op(UnaryOperator::Not, Value::Bool(true), 7), Ok(Value::Bool(false)));
    assert_eq!(unary_op(UnaryOperator::Not, Value::Uint(8, 0b1010), 7), Ok(Value::Uint(8, 0b1111_0101)));
    assert_eq!(unary_op(UnaryOperator::Not, Value::Field(1), 7), Err(Error::TypeMismatch));
    assert_eq!(unary_op(UnaryOperator::Pos, Value::Field(3), 7), Ok(Value::Field(3)));
    assert_eq!(unary_op(UnaryOperator::Pos, Value::Bool(true), 7), Err(Error::TypeMismatch));
    assert_eq!(unary_op(UnaryOperator::Strict, Value::Bool(true), 7), Ok(Value::Bool(true)));
}

#[test]
fn literals_have_the_value_of_their_suffix() {
    let lit = |v, s| LiteralExpression::DecimalLiteral(v, s);
    assert_eq!(literal_(&lit(9, Some(DecimalSuffix::Field)), 7), Ok(Value::Field(2)));
    assert_eq!(literal_(&lit(255, Some(DecimalSuffix::U8)), 7), Ok(Value::Uint(8, 255)));
    assert_eq!(literal_(&lit(256, Some(DecimalSuffix::U8)), 7), Err(Error::TypeMismatch));
    assert_eq!(literal_(&lit(65536, Some(DecimalSuffix::U16)), 7), Err(Error::TypeMismatch));
    assert_eq!(literal_(&lit(65536, Some(DecimalSuffix::U32)), 7), Ok(Value::Uint(32, 65536)));
    assert_eq!(literal_(&lit(u64::MAX, Some(DecimalSuffix::U64)), 7), Ok(Value::Uint(64, u64::MAX)));
    assert_eq!(literal_(&lit(1, None), 7), Err(Error::TypeMismatch));
    assert_eq!(literal_(&lit(1, Some(DecimalSuffix::Field)), 0), Err(Error::TypeMismatch));
    assert_eq!(literal_(&LiteralExpression::BooleanLiteral(true), 7), Ok(Value::Bool(true)));
}

#[test]
fn values_convert_to_addresses_and_back() {
    assert_eq!(t_to_usize(Value::Field(5)), Ok(5));
    assert_eq!(t_to_usize(Value::Bool(true)), Err(Error::TypeMismatch));
    assert_eq!(t_to_usize(Value::Uint(8, 5)), Err(Error::TypeMismatch));
    assert_eq!(usize_to_field(9, 7), Value::Field(2));
    assert_eq!(usize_to_field(3, 7), Value::Field(3));
    assert_eq!(zero_value(Ty::Field), Value::Field(0));
    assert_eq!(zero_value(Ty::Uint(16)), Value::Uint(16, 0));
    assert_eq!(zero_value(Ty::Bool), Value::Bool(false));
    assert_eq!(Value::Uint(16, 3).ty(), Ty::Uint(16));
    assert_eq!(Value::Field(3).ty(), Ty::Field);
    assert_eq!(Value::Bool(true).ty(), Ty::Bool);
}

#[test]
fn expressions_evaluate_under_the_registers() {
    let z = in_gen(7);
    let m = in_machine(&[("x", Value::Field(5)), ("c", Value::Bool(false))]);
    let sum = in_bin(BinaryOperator::Add, in_var("x"), in_field(4));
    assert_eq!(z.expr_impl_(&m.regs, &sum), Ok(Value::Field(2)));
    let pick = Expression::Ternary(Box::new(in_var("c")), Box::new(in_var("nowhere")), Box::new(in_field(3)));
    assert_eq!(z.expr_impl_(&m.regs, &pick), Ok(Value::Field(3)));
    let pick = Expression::Ternary(Box::new(in_var("x")), Box::new(in_field(1)), Box::new(in_field(3)));
    assert_eq!(z.expr_impl_(&m.regs, &pick), Err(Error::TypeMismatch));
    assert_eq!(z.expr_impl_(&m.regs, &in_var("y")), Err(Error::UndefinedBeforeUse));
    let neg = Expression::Unary(UnaryOperator::Neg, Box::new(in_var("x")));
    assert_eq!(z.expr_impl_(&m.regs, &neg), Ok(Value::Field(2)));
    let call = Expression::Call("f".to_string(), vec![]);
    assert_eq!(z.expr_impl_(&m.regs, &call), Err(Error::Unsupported));
    assert_eq!(z.expr_impl_(&m.regs, &Expression::InlineArray), Err(Error::Unsupported));
}

#[test]
fn assignment_needs_a_register_of_the_same_type() {
    let mut m = in_machine(&[("x", Value::Field(5))]);
    assert_eq!(cvar_assign(&mut m.regs, &"x".to_string(), Value::Field(6)), Ok(()));
    assert_eq!(m.get("x"), Some(Value::Field(6)));
    assert_eq!(
        cvar_assign(&mut m.regs, &"x".to_string(), Value::Bool(true)),
        Err(Error::TypeMismatch)
    );
    assert_eq!(
        cvar_assign(&mut m.regs, &"y".to_string(), Value::Field(6)),
        Err(Error::UndefinedBeforeUse)
    );
    assert_eq!(m.get("x"), Some(Value::Field(6)));
    assert_eq!(m.get("y"), None);
}

#[test]
fn definitions_declare_and_assign() {
    let mut m = Machine::new();
    assert_eq!(
        in_run(
            &mut m,
            vec![
                in_declare(Type::Field, "x", in_field(1)),
                in_assign("x", in_bin(BinaryOperator::Add, in_var("x"), in_field(1))),
                in_declare(Type::Boolean, "x", in_bool(true)),
                BlockContent::Stmt(Statement::Definition { lhs: vec![], expression: in_field(1) }),
            ]
        ),
        Ok(None)
    );
    assert_eq!(m.get("x"), Some(Value::Bool(true)));
    assert_eq!(in_run(&mut m, vec![in_declare(Type::Field, "y", in_bool(true))]), Err(Error::TypeMismatch));
    assert_eq!(in_run(&mut m, vec![in_assign("x", in_field(1))]), Err(Error::TypeMismatch));
    assert_eq!(in_run(&mut m, vec![in_assign("z", in_field(1))]), Err(Error::UndefinedBeforeUse));
    assert_eq!(in_run(&mut m, vec![in_declare(Type::Array, "a", in_field(1))]), Err(Error::Unsupported));
    let indexed = BlockContent::Stmt(Statement::Definition {
        lhs: vec![TypedIdentifierOrAssignee::IndexedAssignee("a".to_string())],
        expression: in_field(1),
    });
    assert_eq!(in_run(&mut m, vec![indexed]), Err(Error::Unsupported));
    let two = BlockContent::Stmt(Statement::Definition {
        lhs: vec![
            TypedIdentifierOrAssignee::Assignee("x".to_string()),
            TypedIdentifierOrAssignee::Assignee("x".to_string()),
        ],
        expression: in_field(1),
    });
    assert_eq!(in_run(&mut m, vec![two]), Err(Error::Unsupported));
}

#[test]
fn statements_that_have_no_place_in_a_block() {
    let mut m = Machine::new();
    assert_eq!(
        in_run(&mut m, vec![BlockContent::Stmt(Statement::Return(vec![in_field(0)]))]),
        Err(Error::Unsupported)
    );
    let cond = Statement::Conditional { condition: in_bool(true), ifbranch: vec![], elsebranch: vec![] };
    assert_eq!(in_run(&mut m, vec![BlockContent::Stmt(cond)]), Err(Error::Unsupported));
    let iter = Statement::Iteration {
        ty: Type::Field,
        index: "i".to_string(),
        from: in_field(0),
        to: in_field(0),
        statements: vec![],
    };
    assert_eq!(in_run(&mut m, vec![BlockContent::Stmt(iter)]), Err(Error::Unsupported));
}

#[test]
fn assertions_must_be_true() {
    let mut m = in_machine(&[("x", Value::Field(5))]);
    let holds = in_bin(BinaryOperator::Eq, in_var("x"), in_field(5));
    let fails = in_bin(BinaryOperator::Eq, in_var("x"), in_field(6));
    assert_eq!(in_run(&mut m, vec![BlockContent::Stmt(Statement::Assertion(holds))]), Ok(None));
    assert_eq!(
        in_run(&mut m, vec![BlockContent::Stmt(Statement::Assertion(fails))]),
        Err(Error::ConstFoldFailure)
    );
    assert_eq!(
        in_run(&mut m, vec![BlockContent::Stmt(Statement::Assertion(in_var("x")))]),
        Err(Error::ConstFoldFailure)
    );
    assert_eq!(
        in_run(&mut m, vec![BlockContent::Stmt(Statement::Assertion(in_var("nowhere")))]),
        Err(Error::ConstFoldFailure)
    );
}

#[test]
fn a_push_must_append_and_a_pop_must_be_in_bounds() {
    let mut m = in_machine(&[
        ("%SP", Value::Field(0)),
        ("%BP", Value::Field(0)),
        ("x", Value::Field(9)),
        ("y", Value::Field(0)),
    ]);
    let push = |off| BlockContent::MemPush(("x".to_string(), off));
    let pop = |off| BlockContent::MemPop(("y".to_string(), off));
    assert_eq!(in_run(&mut m, vec![push(1)]), Err(Error::StackInvariant));
    assert_eq!(in_run(&mut m, vec![pop(0)]), Err(Error::StackInvariant));
    assert_eq!(in_run(&mut m, vec![push(0), push(1), pop(1)]), Ok(None));
    assert_eq!(m.phy_mem, vec![Value::Field(9), Value::Field(9)]);
    assert_eq!(m.get("y"), Some(Value::Field(9)));
    assert_eq!(
        m.phy_ops,
        vec![
            MemOp::new(0, Value::Field(0), Value::Field(9)),
            MemOp::new(1, Value::Field(1), Value::Field(9)),
            MemOp::new(1, Value::Field(1), Value::Field(9)),
        ]
    );
    assert_eq!(in_run(&mut m, vec![push(1)]), Err(Error::StackInvariant));
    assert_eq!(in_run(&mut m, vec![push(usize::MAX)]), Err(Error::StackInvariant));
    assert_eq!(in_run(&mut m, vec![pop(2)]), Err(Error::StackInvariant));
    assert_eq!(in_run(&mut m, vec![pop(usize::MAX)]), Err(Error::StackInvariant));
    assert_eq!(
        in_run(&mut m, vec![BlockContent::MemPush(("nowhere".to_string(), 2))]),
        Err(Error::UndefinedBeforeUse)
    );
    assert_eq!(
        in_run(&mut m, vec![BlockContent::MemPop(("nowhere".to_string(), 0))]),
        Err(Error::UndefinedBeforeUse)
    );
    m.set("b", Value::Bool(true));
    assert_eq!(
        in_run(&mut m, vec![BlockContent::MemPop(("b".to_string(), 0))]),
        Err(Error::TypeMismatch)
    );
    m.set("%SP", Value::Bool(true));
    assert_eq!(in_run(&mut m, vec![push(0)]), Err(Error::TypeMismatch));
    let mut bare = Machine::new();
    assert_eq!(in_run(&mut bare, vec![push(0)]), Err(Error::UndefinedBeforeUse));
    assert_eq!(in_run(&mut bare, vec![pop(0)]), Err(Error::UndefinedBeforeUse));
}

#[test]
fn stores_stamp_and_loads_read() {
    let mut m = in_machine(&[("%TS", Value::Field(0)), ("a", Value::Field(2))]);
    assert_eq!(
        in_run(
            &mut m,
            vec![
                in_store(in_field(10), "a", in_field(1), true),
                in_store(in_field(11), "a", in_field(0), false),
                in_load("x", Ty::Field, "a", in_field(1)),
                in_store(in_field(12), "a", in_field(1), false),
                in_load("y", Ty::Field, "a", in_field(1)),
            ]
        ),
        Ok(None)
    );
    assert_eq!(m.get("x"), Some(Value::Field(10)));
    assert_eq!(m.get("y"), Some(Value::Field(12)));
    assert_eq!(m.get("%TS"), Some(Value::Field(2)));
    assert_eq!(
        m.vir_mem,
        vec![None, None, Some(Value::Field(11)), Some(Value::Field(12))]
    );
    let op = |addr: usize, data, ls, ts: usize| {
        MemOp::new_vir(addr, Value::Field(addr as u64), Value::Field(data), ls, ts, Value::Field(ts as u64))
    };
    assert_eq!(
        m.vir_ops,
        vec![
            op(3, 10, STORE, 0),
            op(2, 11, STORE, 1),
            op(3, 10, LOAD, 1),
            op(3, 12, STORE, 2),
            op(3, 12, LOAD, 2),
        ]
    );
    assert!(m.phy_ops.is_empty());
    assert_eq!(STORE, 0);
    assert_eq!(LOAD, 1);
}

#[test]
fn loads_fail_on_memory_that_was_not_stored_to() {
    let mut m = in_machine(&[("%TS", Value::Field(0)), ("a", Value::Field(2))]);
    assert_eq!(
        in_run(&mut m, vec![in_load("x", Ty::Field, "a", in_field(0))]),
        Err(Error::UninitializedMemory)
    );
    assert_eq!(in_run(&mut m, vec![BlockContent::DummyLoad()]), Err(Error::UninitializedMemory));
    assert_eq!(in_run(&mut m, vec![in_store(in_bool(true), "a", in_field(1), true)]), Ok(None));
    assert_eq!(
        in_run(&mut m, vec![in_load("x", Ty::Field, "a", in_field(0))]),
        Err(Error::UninitializedMemory)
    );
    assert_eq!(
        in_run(&mut m, vec![in_load("x", Ty::Field, "a", in_field(1))]),
        Err(Error::TypeMismatch)
    );
    assert_eq!(in_run(&mut m, vec![in_load("x", Ty::Bool, "a", in_field(1))]), Ok(None));
    assert_eq!(m.get("x"), Some(Value::Bool(true)));
    assert_eq!(
        in_run(&mut m, vec![in_load("x", Ty::Bool, "nowhere", in_field(1))]),
        Err(Error::UndefinedBeforeUse)
    );
    assert_eq!(
        in_run(&mut m, vec![in_load("x", Ty::Bool, "a", in_bool(true))]),
        Err(Error::TypeMismatch)
    );
    let mut no_ts = in_machine(&[("a", Value::Field(0))]);
    assert_eq!(
        in_run(&mut no_ts, vec![in_store(in_field(1), "a", in_field(0), true)]),
        Err(Error::UndefinedBeforeUse)
    );
}

#[test]
fn a_dummy_load_reads_address_zero() {
    let mut m = in_machine(&[("%TS", Value::Field(4)), ("a", Value::Field(0))]);
    assert_eq!(
        in_run(
            &mut m,
            vec![in_store(in_field(8), "a", in_field(0), true), BlockContent::DummyLoad()]
        ),
        Ok(None)
    );
    assert_eq!(
        m.vir_ops[1],
        MemOp::new_vir(0, Value::Field(0), Value::Field(8), LOAD, 4, Value::Field(4))
    );
    assert_eq!(m.regs.len(), 2);
}

#[test]
fn array_init_takes_the_cursor_and_moves_it() {
    let mut m = in_machine(&[("%AS", Value::Field(3))]);
    assert_eq!(
        in_run(
            &mut m,
            vec![
                BlockContent::ArrayInit(("a".to_string(), in_field(4))),
                BlockContent::ArrayInit(("b".to_string(), in_field(1))),
            ]
        ),
        Ok(None)
    );
    assert_eq!(m.get("a"), Some(Value::Field(3)));
    assert_eq!(m.get("b"), Some(Value::Field(7)));
    assert_eq!(m.get("%AS"), Some(Value::Field(8)));
    assert_eq!(
        in_run(&mut m, vec![BlockContent::ArrayInit(("c".to_string(), in_bool(true)))]),
        Err(Error::TypeMismatch)
    );
    let mut bare = Machine::new();
    assert_eq!(
        in_run(&mut bare, vec![BlockContent::ArrayInit(("a".to_string(), in_field(4)))]),
        Err(Error::UndefinedBeforeUse)
    );
}

#[test]
fn a_branch_runs_the_side_that_its_guard_selects() {
    let mut m = in_machine(&[("x", Value::Field(1))]);
    let branch = |cond| {
        BlockContent::Branch((
            cond,
            vec![in_assign("x", in_field(2))],
            vec![in_assign("x", in_field(3)), in_declare(Type::Field, "y", in_field(4))],
        ))
    };
    assert_eq!(in_run(&mut m, vec![branch(in_bool(true))]), Ok(None));
    assert_eq!(m.get("x"), Some(Value::Field(2)));
    assert_eq!(m.get("y"), None);
    assert_eq!(
        in_run(&mut m, vec![branch(in_bin(BinaryOperator::Eq, in_var("x"), in_field(1)))]),
        Ok(None)
    );
    assert_eq!(m.get("x"), Some(Value::Field(3)));
    assert_eq!(m.get("y"), Some(Value::Field(4)));
    assert_eq!(in_run(&mut m, vec![branch(in_var("x"))]), Err(Error::ConstFoldFailure));
    assert_eq!(in_run(&mut m, vec![branch(in_var("nowhere"))]), Err(Error::ConstFoldFailure));
}

#[test]
fn terminators_name_a_block_or_halt() {
    let z = in_gen(P);
    let mut m = in_machine(&[("%RP", Value::Field(2)), ("c", Value::Bool(false))]);
    let go = |t| in_block(0, vec![], t);
    assert_eq!(z.bl_eval_impl_(&go(BlockTerminator::ProgTerm()), &mut m, 3), Ok(None));
    assert_eq!(z.bl_eval_impl_(&go(BlockTerminator::Transition(in_field(1))), &mut m, 3), Ok(Some(1)));
    assert_eq!(z.bl_eval_impl_(&go(BlockTerminator::Transition(in_var("%RP"))), &mut m, 3), Ok(Some(2)));
    let pick = Expression::Ternary(Box::new(in_var("c")), Box::new(in_field(0)), Box::new(in_var("%RP")));
    assert_eq!(z.bl_eval_impl_(&go(BlockTerminator::Transition(pick)), &mut m, 3), Ok(Some(2)));
    assert_eq!(
        z.bl_eval_impl_(&go(BlockTerminator::Transition(in_field(3))), &mut m, 3),
        Err(Error::InvalidTerminator)
    );
    assert_eq!(
        z.bl_eval_impl_(&go(BlockTerminator::Transition(in_bool(true))), &mut m, 3),
        Err(Error::InvalidTerminator)
    );
    assert_eq!(
        z.bl_eval_impl_(&go(BlockTerminator::FuncCall("f".to_string())), &mut m, 3),
        Err(Error::InvalidTerminator)
    );
    assert_eq!(
        z.bl_eval_impl_(&go(BlockTerminator::Transition(in_var("nowhere"))), &mut m, 3),
        Err(Error::UndefinedBeforeUse)
    );
}

#[test]
fn a_block_starts_with_an_empty_log() {
    let mut m = in_machine(&[("%SP", Value::Field(0)), ("x", Value::Field(9))]);
    assert_eq!(in_run(&mut m, vec![BlockContent::MemPush(("x".to_string(), 0))]), Ok(None));
    assert_eq!(m.phy_ops.len(), 1);
    assert_eq!(in_run(&mut m, vec![]), Ok(None));
    assert!(m.phy_ops.is_empty());
    assert_eq!(m.phy_mem.len(), 1);
}

#[test]
fn exec_state_starts_empty() {
    let st = ExecState::new(4, 3);
    assert_eq!(st.blk_id, 4);
    assert_eq!(st.reg_out, vec![None, None, None]);
    assert_eq!(st.succ_id, 0);
    assert!(st.phy_mem_op.is_empty());
    assert!(st.vir_mem_op.is_empty());
    assert!(ExecState::new(0, 0).reg_out.is_empty());
}

#[test]
fn mem_ops_are_built_from_their_parts() {
    let phy = MemOp::new(3, Value::Field(3), Value::Bool(true));
    assert_eq!(phy.addr, 3);
    assert_eq!(phy.addr_t, Value::Field(3));
    assert_eq!(phy.data_t, Value::Bool(true));
    assert_eq!((phy.ls_t, phy.ts, phy.ts_t), (None, None, None));
    let vir = MemOp::new_vir(3, Value::Field(3), Value::Bool(true), LOAD, 9, Value::Field(9));
    assert_eq!(vir.ls_t, Some(Value::Field(LOAD)));
    assert_eq!(vir.ts, Some(9));
    assert_eq!(vir.ts_t, Some(Value::Field(9)));
}

#[test]
fn mem_ops_are_ordered_by_address_then_timestamp() {
    assert!(mem_op_le(&in_phy(1), &in_phy(2)));
    assert!(!mem_op_le(&in_phy(2), &in_phy(1)));
    assert!(mem_op_le(&in_phy(1), &in_phy(1)));
    assert!(mem_op_le(&in_vir(1, 5, 0), &in_vir(2, 0, 0)));
    assert!(mem_op_le(&in_vir(1, 5, 0), &in_vir(1, 5, 1)));
    assert!(mem_op_le(&in_vir(1, 4, 0), &in_vir(1, 5, 0)));
    assert!(!mem_op_le(&in_vir(1, 5, 0), &in_vir(1, 4, 0)));
    assert!(mem_op_le(&in_phy(1), &in_vir(1, 0, 0)));
    assert!(!mem_op_le(&in_vir(1, 0, 0), &in_phy(1)));
}

#[test]
fn sorting_is_stable() {
    let ops = vec![
        in_vir(2, 1, 0),
        in_vir(1, 3, 1),
        in_vir(2, 1, 2),
        in_vir(1, 1, 3),
        in_vir(2, 0, 4),
        in_vir(1, 3, 5),
        in_vir(2, 1, 6),
    ];
    let sorted = sort_ops(&ops);
    let data: Vec<Value> = sorted.iter().map(|o| o.data_t).collect();
    assert_eq!(
        data,
        vec![
            Value::Field(3),
            Value::Field(1),
            Value::Field(5),
            Value::Field(4),
            Value::Field(0),
            Value::Field(2),
            Value::Field(6),
        ]
    );
    assert!(sort_ops(&vec![]).is_empty());
}

#[test]
fn sort_by_mem_joins_the_blocks_in_execution_order() {
    let mut a = ExecState::new(0, 1);
    a.phy_mem_op = vec![in_phy(1), in_phy(0)];
    a.vir_mem_op = vec![in_vir(5, 2, 0)];
    let mut b = ExecState::new(1, 1);
    b.phy_mem_op = vec![in_phy(0)];
    b.vir_mem_op = vec![in_vir(5, 1, 1), in_vir(4, 9, 2)];
    let (phy, vir) = sort_by_mem(&vec![a, b]);
    assert_eq!(phy.iter().map(|o| o.addr).collect::<Vec<_>>(), vec![0, 0, 1]);
    assert_eq!(
        vir.iter().map(|o| o.data_t).collect::<Vec<_>>(),
        vec![Value::Field(2), Value::Field(1), Value::Field(0)]
    );
    let (phy, vir) = sort_by_mem(&vec![]);
    assert!(phy.is_empty() && vir.is_empty());
}

#[test]
fn output_names_put_o_for_i() {
    assert_eq!(make_output_name("%i000001"), "%o000001");
    assert_eq!(make_output_name("%i1i"), "%o1o");
    assert_eq!(make_output_name("%w3"), "%w3");
    assert_eq!(make_output_name(""), "");
}

#[test]
fn inputs_are_declared_and_bound_from_outputs() {
    let mut first = in_block(
        0,
        vec![
            in_declare(Type::Field, "%o1", in_bin(BinaryOperator::Add, in_var("%i1"), in_var("%i2"))),
            in_declare(Type::Field, "%RET", in_var("%i0")),
        ],
        BlockTerminator::Transition(in_field(1)),
    );
    first.inputs = vec![
        ("%i0".to_string(), Some(Ty::Field)),
        ("%w9".to_string(), None),
        ("%i1".to_string(), Some(Ty::Field)),
        ("%i2".to_string(), Some(Ty::Field)),
    ];
    let mut second = in_block(
        1,
        vec![in_declare(
            Type::Field,
            "%RET",
            in_bin(BinaryOperator::Add, in_var("%i1"), in_var("%i2")),
        )],
        BlockTerminator::ProgTerm(),
    );
    second.inputs = vec![
        ("%i1".to_string(), Some(Ty::Field)),
        ("%i2".to_string(), Some(Ty::Field)),
        ("%i3".to_string(), None),
    ];
    let z = in_gen(P);
    let (ret, counts, reg_in, states, phy, vir) =
        z.bl_eval_entry_fn(0, &vec![2, 5], &vec![first, second], 4).unwrap();
    assert_eq!(ret, Value::Field(7));
    assert_eq!(counts, vec![1, 1]);
    assert_eq!(reg_in, vec![None, Some(Value::Field(2)), Some(Value::Field(5)), None]);
    assert_eq!(states.len(), 2);
    assert_eq!(states[0].blk_id, 0);
    assert_eq!(states[0].succ_id, 1);
    assert_eq!(states[0].reg_out, vec![None, Some(Value::Field(7)), None, None]);
    assert_eq!(states[1].blk_id, 1);
    assert_eq!(states[1].succ_id, 0);
    assert_eq!(states[1].reg_out, vec![None, Some(Value::Field(7)), None, None]);
    assert!(phy.is_empty() && vir.is_empty());
}

#[test]
fn register_numbers_are_padded_to_the_width_of_the_io_size() {
    let b = in_block(
        0,
        vec![
            in_declare(Type::Field, "%o01", in_field(1)),
            in_declare(Type::Field, "%o1", in_field(2)),
            in_declare(Type::Field, "%o11", in_field(3)),
            in_declare(Type::Field, "%RET", in_field(0)),
        ],
        BlockTerminator::ProgTerm(),
    );
    let (_, _, _, states, _, _) = in_gen(P).bl_eval_entry_fn(0, &vec![], &vec![b], 12).unwrap();
    let out = &states[0].reg_out;
    assert_eq!(out.len(), 12);
    assert_eq!(out[0], None);
    assert_eq!(out[1], Some(Value::Field(1)));
    assert_eq!(out[2], None);
    assert_eq!(out[11], Some(Value::Field(3)));
}

#[test]
fn inputs_must_be_there_and_fit_their_type() {
    let with_inputs = |inputs: Vec<(&str, Option<Ty>)>| {
        let mut b = in_block(
            0,
            vec![in_declare(Type::Field, "%RET", in_field(0))],
            BlockTerminator::ProgTerm(),
        );
        b.inputs = inputs.into_iter().map(|(n, t)| (n.to_string(), t)).collect();
        vec![b]
    };
    let z = in_gen(7);
    let two = with_inputs(vec![("%i0", Some(Ty::Field)), ("%i1", Some(Ty::Field))]);
    assert_eq!(z.bl_eval_entry_fn(0, &vec![], &two, 2).unwrap_err(), Error::UndefinedBeforeUse);
    let (_, _, reg_in, _, _, _) = z.bl_eval_entry_fn(0, &vec![9], &two, 2).unwrap();
    assert_eq!(reg_in, vec![None, Some(Value::Field(2))]);
    let small = with_inputs(vec![("%i0", Some(Ty::Field)), ("%i1", Some(Ty::Uint(8)))]);
    assert_eq!(z.bl_eval_entry_fn(0, &vec![256], &small, 2).unwrap_err(), Error::TypeMismatch);
    let (_, _, reg_in, _, _, _) = z.bl_eval_entry_fn(0, &vec![255], &small, 2).unwrap();
    assert_eq!(reg_in, vec![None, Some(Value::Uint(8, 255))]);
    let boolean = with_inputs(vec![("%i0", Some(Ty::Bool))]);
    assert_eq!(z.bl_eval_entry_fn(0, &vec![], &boolean, 2).unwrap_err(), Error::TypeMismatch);
}

#[test]
fn interpretation_fails_without_a_program_to_run() {
    let halt = vec![in_block(0, vec![], BlockTerminator::ProgTerm())];
    assert_eq!(
        in_gen(P).bl_eval_entry_fn(0, &vec![], &halt, 2).unwrap_err(),
        Error::UndefinedBeforeUse
    );
    assert_eq!(in_gen(P).bl_eval_entry_fn(1, &vec![], &halt, 2).unwrap_err(), Error::InvalidTerminator);
    assert_eq!(in_gen(P).bl_eval_entry_fn(0, &vec![], &vec![], 2).unwrap_err(), Error::InvalidTerminator);
    assert_eq!(in_gen(0).bl_eval_entry_fn(0, &vec![], &halt, 2).unwrap_err(), Error::Unsupported);
    let call = vec![in_block(0, vec![], BlockTerminator::FuncCall("f".to_string()))];
    assert_eq!(in_gen(P).bl_eval_entry_fn(0, &vec![], &call, 2).unwrap_err(), Error::InvalidTerminator);
}

#[test]
fn blocks_are_counted_each_time_they_run() {
    let blocks = vec![
        in_block(
            0,
            vec![in_declare(Type::Field, "i", in_field(0)), in_declare(Type::Field, "%RET", in_field(0))],
            BlockTerminator::Transition(in_field(1)),
        ),
        in_block(
            1,
            vec![
                in_assign("i", in_bin(BinaryOperator::Add, in_var("i"), in_field(1))),
                in_assign("%RET", in_bin(BinaryOperator::Add, in_var("%RET"), in_var("i"))),
            ],
            BlockTerminator::Transition(Expression::Ternary(
                Box::new(in_bin(BinaryOperator::Lt, in_var("i"), in_field(5))),
                Box::new(in_field(1)),
                Box::new(in_field(2)),
            )),
        ),
        in_block(2, vec![], BlockTerminator::ProgTerm()),
        in_block(3, vec![], BlockTerminator::ProgTerm()),
    ];
    let (ret, counts, _, states, _, _) = in_gen(P).bl_eval_entry_fn(0, &vec![], &blocks, 1).unwrap();
    assert_eq!(ret, Value::Field(15));
    assert_eq!(counts, vec![1, 5, 1, 0]);
    assert_eq!(
        states.iter().map(|s| (s.blk_id, s.succ_id)).collect::<Vec<_>>(),
        vec![(0, 1), (1, 1), (1, 1), (1, 1), (1, 1), (1, 2), (2, 0)]
    );
}

#[test]
fn timestamp_and_cursor_start_at_zero() {
    let blocks = vec![
        in_block(
            0,
            vec![
                BlockContent::ArrayInit(("a".to_string(), in_field(2))),
                in_store(in_field(7), "a", in_field(1), true),
                in_store(in_field(8), "a", in_field(0), false),
            ],
            BlockTerminator::Transition(in_field(1)),
        ),
        in_block(
            1,
            vec![
                BlockContent::ArrayInit(("b".to_string(), in_field(1))),
                in_store(in_field(9), "b", in_field(0), false),
                in_load("%RET", Ty::Field, "a", in_field(1)),
                BlockContent::DummyLoad(),
            ],
            BlockTerminator::ProgTerm(),
        ),
    ];
    let (ret, _, _, states, phy, vir) = in_gen(P).bl_eval_entry_fn(0, &vec![], &blocks, 1).unwrap();
    assert_eq!(ret, Value::Field(7));
    assert!(phy.is_empty());
    assert_eq!(states[0].vir_mem_op.len(), 2);
    assert_eq!(states[1].vir_mem_op.len(), 3);
    let seen: Vec<(usize, Value, Option<Value>, Option<usize>)> =
        vir.iter().map(|o| (o.addr, o.data_t, o.ls_t, o.ts)).collect();
    let store = Some(Value::Field(STORE));
    let load = Some(Value::Field(LOAD));
    assert_eq!(
        seen,
        vec![
            (0, Value::Field(8), store, Some(1)),
            (0, Value::Field(8), load, Some(2)),
            (1, Value::Field(7), store, Some(0)),
            (1, Value::Field(7), load, Some(2)),
            (2, Value::Field(9), store, Some(2)),
        ]
    );
}

#[test]
fn a_program_may_set_the_timestamp_itself() {
    let blocks = vec![in_block(
        0,
        vec![
            in_declare(Type::Field, "%TS", in_field(5)),
            in_declare(Type::Field, "a", in_field(0)),
            in_store(in_field(1), "a", in_field(0), false),
            in_assign("%TS", in_field(2)),
            in_store(in_field(2), "a", in_field(0), false),
            in_load("%RET", Ty::Field, "a", in_field(0)),
        ],
        BlockTerminator::ProgTerm(),
    )];
    let (ret, _, _, states, _, vir) = in_gen(P).bl_eval_entry_fn(0, &vec![], &blocks, 1).unwrap();
    assert_eq!(ret, Value::Field(2));
    assert_eq!(
        states[0].vir_mem_op.iter().map(|o| o.ts).collect::<Vec<_>>(),
        vec![Some(6), Some(3), Some(3)]
    );
    assert_eq!(
        vir.iter().map(|o| (o.ts, o.data_t)).collect::<Vec<_>>(),
        vec![
            (Some(3), Value::Field(2)),
            (Some(3), Value::Field(2)),
            (Some(6), Value::Field(1)),
        ]
    );
}

#[test]
fn the_timestamp_wraps_at_the_modulus() {
    let blocks = vec![in_block(
        0,
        vec![
            in_declare(Type::Field, "a", in_field(0)),
            in_store(in_field(1), "a", in_field(0), false),
            in_store(in_field(2), "a", in_field(0), false),
            in_store(in_field(0), "a", in_field(0), false),
            in_load("%RET", Ty::Field, "a", in_field(0)),
        ],
        BlockTerminator::ProgTerm(),
    )];
    let (_, _, _, states, _, _) = in_gen(3).bl_eval_entry_fn(0, &vec![], &blocks, 1).unwrap();
    assert_eq!(
        states[0].vir_mem_op.iter().map(|o| o.ts).collect::<Vec<_>>(),
        vec![Some(1), Some(2), Some(0), Some(0)]
    );
}
