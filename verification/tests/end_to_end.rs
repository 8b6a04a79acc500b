use circ_blocks::ast::{
    BinaryOperator, DecimalSuffix, Expression, FunctionDefinition, LiteralExpression, Parameter,
    Statement, Type, TypedIdentifierOrAssignee,
};
use circ_blocks::blocks::{Block, BlockContent, BlockTerminator};
use circ_blocks::blocks_optimization::optimize_block;
use circ_blocks::machine::MemOp;
use circ_blocks::prover::ExecState;
use circ_blocks::value::Value;
use circ_blocks::zgen::ZGen;

const MODULUS: u64 = 18446744069414584321;
const IO_SIZE: usize = 8;

fn field(v: u64) -> Expression {
    Expression::Literal(LiteralExpression::DecimalLiteral(v, Some(DecimalSuffix::Field)))
}

fn var(name: &str) -> Expression {
    Expression::Identifier(name.to_string())
}

fn binary(op: BinaryOperator, l: Expression, r: Expression) -> Expression {
    Expression::Binary(op, Box::new(l), Box::new(r))
}

fn call(f: &str, args: Vec<Expression>) -> Expression {
    Expression::Call(f.to_string(), args)
}

fn ret(e: Expression) -> Statement {
    Statement::Return(vec![e])
}

fn declare(name: &str, e: Expression) -> Statement {
    Statement::Definition {
        lhs: vec![TypedIdentifierOrAssignee::TypedIdentifier(Type::Field, name.to_string())],
        expression: e,
    }
}

fn assign(name: &str, e: Expression) -> Statement {
    Statement::Definition {
        lhs: vec![TypedIdentifierOrAssignee::Assignee(name.to_string())],
        expression: e,
    }
}

fn function(name: &str, params: Vec<&str>, statements: Vec<Statement>) -> FunctionDefinition {
    FunctionDefinition {
        id: name.to_string(),
        generics: vec![],
        parameters: params
            .into_iter()
            .map(|p| Parameter { ty: Type::Field, id: p.to_string() })
            .collect(),
        returns: vec![Type::Field],
        statements,
    }
}

struct Run {
    lowered: Vec<Block>,
    blocks: Vec<Block>,
    ret: Value,
    counts: Vec<usize>,
    states: Vec<ExecState>,
    phy: Vec<MemOp>,
    vir: Vec<MemOp>,
}

fn run(functions: Vec<FunctionDefinition>) -> Run {
    let z = ZGen::new(functions, vec![], MODULUS);
    let (lowered, entry) = z.bl_gen_const_entry_fn("main").unwrap();
    assert_eq!(entry, 0);
    let mut copy = Vec::new();
    for b in &lowered {
        copy.push(b.dup());
    }
    let (blocks, entry) = optimize_block(copy, entry).unwrap();
    assert_eq!(entry, 0);
    let (ret, counts, _, states, phy, vir) =
        z.bl_eval_entry_fn(entry, &vec![], &blocks, IO_SIZE).unwrap();
    Run { lowered, blocks, ret, counts, states, phy, vir }
}

fn pushes(blocks: &Vec<Block>) -> Vec<(usize, String, usize)> {
    let mut out = Vec::new();
    for b in blocks {
        for c in &b.instructions {
            if let BlockContent::MemPush((id, off)) = c {
                out.push((b.name, id.clone(), *off));
            }
        }
    }
    out
}

fn pops(blocks: &Vec<Block>) -> Vec<(usize, String, usize)> {
    let mut out = Vec::new();
    for b in blocks {
        for c in &b.instructions {
            if let BlockContent::MemPop((id, off)) = c {
                out.push((b.name, id.clone(), *off));
            }
        }
    }
    out
}

fn declared_names(blocks: &Vec<Block>) -> Vec<String> {
    let mut out = Vec::new();
    for b in blocks {
        for c in &b.instructions {
            if let BlockContent::Stmt(Statement::Definition { lhs, .. }) = c {
                for l in lhs {
                    if let TypedIdentifierOrAssignee::TypedIdentifier(_, name) = l {
                        if !out.contains(name) {
                            out.push(name.clone());
                        }
                    }
                }
            }
        }
    }
    out
}

fn check_program(blocks: &Vec<Block>) {
    for (i, b) in blocks.iter().enumerate() {
        assert_eq!(b.name, i);
        assert!(!matches!(b.terminator, BlockTerminator::FuncCall(_)));
    }
}

fn sorted_by_address_and_time(ops: &Vec<MemOp>) -> bool {
    ops.windows(2).all(|w| (w[0].addr, w[0].ts) <= (w[1].addr, w[1].ts))
}

#[test]
fn trivial_main() {
    let r = run(vec![function("main", vec![], vec![ret(field(0))])]);
    assert_eq!(r.ret, Value::Field(0));
    assert_eq!(r.states.len(), 1);
    assert_eq!(r.states[0].blk_id, 0);
    assert_eq!(r.counts, vec![1]);
    assert!(r.phy.is_empty());
    assert!(r.vir.is_empty());
    check_program(&r.blocks);
}

#[test]
fn two_argument_add() {
    let foo = function(
        "foo",
        vec!["a", "b"],
        vec![ret(binary(BinaryOperator::Add, var("a"), var("b")))],
    );
    let main = function("main", vec![], vec![ret(call("foo", vec![field(2), field(5)]))]);
    let r = run(vec![foo, main]);
    assert_eq!(r.ret, Value::Field(7));
    check_program(&r.blocks);
    let pushed: Vec<_> = pushes(&r.blocks).into_iter().filter(|p| p.1 == "%RP").collect();
    let popped: Vec<_> = pops(&r.blocks).into_iter().filter(|p| p.1 == "%RP").collect();
    assert_eq!(pushed.len(), 1);
    assert_eq!(popped.len(), 1);
    assert_eq!(pushed[0].2, popped[0].2);
    assert!(sorted_by_address_and_time(&r.phy));
    assert_eq!(r.phy.len(), 4);
    assert_eq!(r.phy[0].addr, 0);
    assert_eq!(r.phy[1].addr, 0);
    assert_eq!(r.phy[2].addr, 1);
    assert_eq!(r.phy[3].addr, 1);
    assert_eq!(r.phy[0].data_t, r.phy[1].data_t);
    assert_eq!(r.phy[2].data_t, r.phy[3].data_t);
}

#[test]
fn iterator_sum() {
    let body = vec![assign("s", binary(BinaryOperator::Add, var("s"), var("i")))];
    let main = function(
        "main",
        vec![],
        vec![
            declare("s", field(0)),
            Statement::Iteration {
                ty: Type::Field,
                index: "i".to_string(),
                from: field(0),
                to: field(4),
                statements: body,
            },
            ret(var("s")),
        ],
    );
    let r = run(vec![main]);
    assert_eq!(r.ret, Value::Field(6));
    check_program(&r.blocks);
    assert_eq!(r.counts[1], 4);
    let names = declared_names(&r.blocks);
    assert!(names.contains(&"i@0".to_string()));
    assert!(names.contains(&"s@0".to_string()));
}

#[test]
fn conditional_shadowing() {
    let main = function(
        "main",
        vec![],
        vec![
            declare("x", field(1)),
            Statement::Conditional {
                condition: Expression::Literal(LiteralExpression::BooleanLiteral(true)),
                ifbranch: vec![declare("x", field(2))],
                elsebranch: vec![],
            },
            ret(var("x")),
        ],
    );
    let r = run(vec![main]);
    assert_eq!(r.ret, Value::Field(1));
    check_program(&r.blocks);
    let pushed: Vec<_> = pushes(&r.blocks).into_iter().filter(|p| p.1 == "x@0").collect();
    let popped: Vec<_> = pops(&r.blocks).into_iter().filter(|p| p.1 == "x@0").collect();
    assert_eq!(pushed, vec![(1, "x@0".to_string(), 1)]);
    assert_eq!(popped, vec![(1, "x@0".to_string(), 1)]);
    assert!(declared_names(&r.blocks).contains(&"x@1".to_string()));
}

#[test]
fn call_inside_expression() {
    let f = function("f", vec!["a"], vec![ret(binary(BinaryOperator::Mul, var("a"), var("a")))]);
    let main = function(
        "main",
        vec![],
        vec![ret(binary(
            BinaryOperator::Add,
            call("f", vec![field(3)]),
            call("f", vec![field(4)]),
        ))],
    );
    let r = run(vec![f, main]);
    assert_eq!(r.ret, Value::Field(25));
    check_program(&r.blocks);
    let names = declared_names(&r.blocks);
    assert!(names.contains(&"%RET0".to_string()));
    assert!(names.contains(&"%RET1".to_string()));
    let pushed = pushes(&r.blocks);
    let popped = pops(&r.blocks);
    assert_eq!(pushed.len(), popped.len());
    assert_eq!(pushed.iter().filter(|p| p.1 == "%BP").count(), 2);
    assert_eq!(pushed.iter().filter(|p| p.1 == "%RP").count(), 2);
    assert_eq!(pushed.iter().filter(|p| p.1 == "%RET0").count(), 1);
    assert_eq!(r.phy.len(), 2 * pushed.len());
    assert!(sorted_by_address_and_time(&r.phy));
}

#[test]
fn unreachable_after_return() {
    let g = function("g", vec![], vec![ret(field(1)), ret(field(2))]);
    let main = function("main", vec![], vec![ret(call("g", vec![]))]);
    let r = run(vec![g, main]);
    assert_eq!(r.ret, Value::Field(1));
    check_program(&r.blocks);
    assert!(r.blocks.len() < r.lowered.len());
    assert_eq!(r.lowered.len(), 6);
    assert_eq!(r.blocks.len(), 3);
}

#[test]
fn a_return_inside_a_shadowing_scope_leaves_a_push_without_a_pop() {
    let f = FunctionDefinition {
        id: "f".to_string(),
        generics: vec![],
        parameters: vec![Parameter { ty: Type::Field, id: "a".to_string() }],
        returns: vec![Type::Field],
        statements: vec![
            Statement::Conditional {
                condition: Expression::Literal(LiteralExpression::BooleanLiteral(true)),
                ifbranch: vec![declare("a", field(2)), ret(var("a"))],
                elsebranch: vec![],
            },
            ret(field(0)),
        ],
    };
    let main = function("main", vec![], vec![ret(call("f", vec![field(1)]))]);
    let r = run(vec![main, f]);
    assert_eq!(r.ret, Value::Field(2));
    check_program(&r.blocks);
    let pushed = pushes(&r.blocks).len();
    let popped = pops(&r.blocks).len();
    assert_eq!((pushed, popped), (4, 3));
    assert_eq!(r.phy.len(), 7);
    assert!(sorted_by_address_and_time(&r.phy));
    assert!(r.vir.is_empty());
}

#[test]
fn nested_calls_restore_the_return_pointer() {
    let inner = function("inner", vec!["x"], vec![ret(binary(BinaryOperator::Add, var("x"), field(1)))]);
    let outer = function(
        "outer",
        vec!["x"],
        vec![
            declare("y", call("inner", vec![var("x")])),
            ret(binary(BinaryOperator::Mul, var("y"), var("x"))),
        ],
    );
    let main = function(
        "main",
        vec![],
        vec![
            declare("x", field(10)),
            declare("z", call("outer", vec![field(4)])),
            ret(binary(BinaryOperator::Add, var("z"), var("x"))),
        ],
    );
    let r = run(vec![main, outer, inner]);
    assert_eq!(r.ret, Value::Field(30));
    check_program(&r.blocks);
    assert_eq!(pushes(&r.blocks).len(), pops(&r.blocks).len());
    assert!(sorted_by_address_and_time(&r.phy));
    let executed: Vec<usize> = r.states.iter().map(|s| s.blk_id).collect();
    assert_eq!(r.counts.iter().sum::<usize>(), executed.len());
    for (s, next) in r.states.iter().zip(r.states.iter().skip(1)) {
        assert_eq!(s.succ_id, next.blk_id);
    }
}

#[test]
fn a_loop_inside_a_called_function() {
    let sum = function(
        "sum",
        vec!["n"],
        vec![
            declare("s", field(0)),
            Statement::Iteration {
                ty: Type::Field,
                index: "i".to_string(),
                from: field(0),
                to: var("n"),
                statements: vec![
                    declare("t", binary(BinaryOperator::Mul, var("i"), var("i"))),
                    assign("s", binary(BinaryOperator::Add, var("s"), var("t"))),
                ],
            },
            ret(var("s")),
        ],
    );
    let main = function("main", vec![], vec![ret(call("sum", vec![field(5)]))]);
    let r = run(vec![main, sum]);
    assert_eq!(r.ret, Value::Field(30));
    check_program(&r.blocks);
}

#[test]
fn shadowing_in_both_branches_uses_the_same_incarnation() {
    let branch = |c: bool, v: u64| Statement::Conditional {
        condition: Expression::Literal(LiteralExpression::BooleanLiteral(c)),
        ifbranch: vec![declare("x", field(v)), assign("y", binary(BinaryOperator::Add, var("y"), var("x")))],
        elsebranch: vec![assign("y", binary(BinaryOperator::Add, var("y"), field(100)))],
    };
    let main = function(
        "main",
        vec![],
        vec![
            declare("x", field(1)),
            declare("y", field(0)),
            branch(true, 2),
            branch(false, 3),
            branch(true, 4),
            ret(binary(BinaryOperator::Add, var("y"), var("x"))),
        ],
    );
    let r = run(vec![main]);
    assert_eq!(r.ret, Value::Field(107));
    let mut names: Vec<String> = declared_names(&r.blocks).into_iter().filter(|n| n.starts_with("x@")).collect();
    names.sort();
    assert_eq!(names, vec!["x@0", "x@1"]);
}

#[test]
fn every_step_is_an_edge_of_the_flow_graph() {
    let inner = function("inner", vec!["x"], vec![ret(binary(BinaryOperator::Add, var("x"), field(1)))]);
    let outer = function(
        "outer",
        vec!["x"],
        vec![ret(binary(
            BinaryOperator::Add,
            call("inner", vec![var("x")]),
            call("inner", vec![field(7)]),
        ))],
    );
    let main = function(
        "main",
        vec![],
        vec![
            declare("s", field(0)),
            Statement::Iteration {
                ty: Type::Field,
                index: "i".to_string(),
                from: field(0),
                to: field(3),
                statements: vec![assign(
                    "s",
                    binary(BinaryOperator::Add, var("s"), call("outer", vec![var("i")])),
                )],
            },
            ret(var("s")),
        ],
    );
    let r = run(vec![main, outer, inner]);
    assert_eq!(r.ret, Value::Field(30));
    let (successor, predecessor, exits) =
        circ_blocks::flow_graph::construct_flow_graph(&r.blocks, 0).unwrap();
    assert!(r.states.len() > 10);
    for (i, s) in r.states.iter().enumerate() {
        if i + 1 < r.states.len() {
            assert!(successor[s.blk_id].contains(&s.succ_id));
            assert!(predecessor[s.succ_id].contains(&s.blk_id));
        } else {
            assert!(exits.contains(&s.blk_id));
        }
    }
}
