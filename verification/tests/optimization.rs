use circ_blocks::ast::{
    BinaryOperator, DecimalSuffix, Expression, FunctionDefinition, LiteralExpression, Parameter,
    Statement, Type, TypedIdentifierOrAssignee,
};
use circ_blocks::blocks::{Block, BlockContent, BlockTerminator, Error};
use circ_blocks::blocks_optimization::{
    dead_block_elimination, optimize_block, reachable_blocks, relabel_expression, rp_find_val,
    rp_replacement_stmt,
};
use circ_blocks::flow_graph::{analyse_flow, construct_flow_graph};
use circ_blocks::zgen::ZGen;
use std::collections::HashSet;

fn op_field(v: u64) -> Expression {
    Expression::Literal(LiteralExpression::DecimalLiteral(v, Some(DecimalSuffix::Field)))
}

fn op_var(name: &str) -> Expression {
    Expression::Identifier(name.to_string())
}

fn op_assign(name: &str, e: Expression) -> BlockContent {
    BlockContent::Stmt(Statement::Definition {
        lhs: vec![TypedIdentifierOrAssignee::Assignee(name.to_string())],
        expression: e,
    })
}

fn op_declare(name: &str, e: Expression) -> BlockContent {
    BlockContent::Stmt(Statement::Definition {
        lhs: vec![TypedIdentifierOrAssignee::TypedIdentifier(Type::Field, name.to_string())],
        expression: e,
    })
}

fn op_block(name: usize, instructions: Vec<BlockContent>, terminator: BlockTerminator) -> Block {
    Block { name, inputs: vec![], instructions, terminator }
}

fn op_goto(l: u64) -> BlockTerminator {
    BlockTerminator::Transition(op_field(l))
}

fn op_branch(c: &str, t: u64, f: u64) -> BlockTerminator {
    BlockTerminator::Transition(Expression::Ternary(
        Box::new(op_var(c)),
        Box::new(op_field(t)),
        Box::new(op_field(f)),
    ))
}

fn op_return() -> BlockTerminator {
    BlockTerminator::Transition(op_var("%RP"))
}

fn op_set(items: &[usize]) -> HashSet<usize> {
    items.iter().copied().collect()
}

fn op_function(name: &str, params: Vec<&str>, statements: Vec<Statement>) -> FunctionDefinition {
    FunctionDefinition {
        id: name.to_string(),
        generics: vec![],
        parameters: params
            .into_iter()
            .map(|p| Parameter { ty: Type::Field, id: p.to_string() })
            .collect(),
        returns: vec![Type::Field],
        statements,
    }
}

/// 0 calls 3 and comes back to 1; 1 halts; 2 is dead; 3 returns; 4 is dead
/// and points to 2.
fn op_program() -> Vec<Block> {
    vec![
        op_block(0, vec![op_declare("%RP", op_field(0)), op_assign("%RP", op_field(1))], op_goto(3)),
        op_block(1, vec![], BlockTerminator::ProgTerm()),
        op_block(2, vec![], op_goto(1)),
        op_block(3, vec![op_declare("x", op_field(7))], op_return()),
        op_block(4, vec![], op_goto(2)),
    ]
}

#[test]
fn rp_value_is_found_in_an_assignment_of_a_literal() {
    assert_eq!(rp_find_val(&op_assign("%RP", op_field(12))), Ok(Some(12)));
    assert_eq!(rp_find_val(&op_assign("%SP", op_field(12))), Ok(None));
    assert_eq!(rp_find_val(&op_declare("%RP", op_field(12))), Ok(None));
    assert_eq!(rp_find_val(&BlockContent::MemPush(("%RP".to_string(), 0))), Ok(None));
    assert_eq!(rp_find_val(&BlockContent::DummyLoad()), Ok(None));
    assert_eq!(rp_find_val(&op_assign("%RP", op_var("x"))), Err(Error::InvalidTerminator));
    let no_target = BlockContent::Stmt(Statement::Definition { lhs: vec![], expression: op_field(1) });
    assert_eq!(rp_find_val(&no_target), Ok(None));
    assert_eq!(
        rp_find_val(&BlockContent::Stmt(Statement::Assertion(op_var("%RP")))),
        Ok(None)
    );
}

#[test]
fn rp_replacement_takes_the_label_through_the_map() {
    let map = vec![0, 1, 1, 2];
    assert_eq!(
        rp_replacement_stmt(&op_assign("%RP", op_field(3)), &map),
        Some(op_assign("%RP", op_field(2)))
    );
    let u8_three = Expression::Literal(LiteralExpression::DecimalLiteral(3, Some(DecimalSuffix::U8)));
    assert_eq!(
        rp_replacement_stmt(&op_assign("%RP", u8_three), &map),
        Some(op_assign("%RP", op_field(2)))
    );
    assert_eq!(rp_replacement_stmt(&op_assign("%RP", op_field(4)), &map), None);
    assert_eq!(rp_replacement_stmt(&op_assign("%SP", op_field(3)), &map), None);
    assert_eq!(rp_replacement_stmt(&op_assign("%RP", op_var("x")), &map), None);
}

#[test]
fn relabelling_keeps_guards_and_registers() {
    let map = vec![0, 1, 1, 2];
    let e = Expression::Ternary(
        Box::new(Expression::Binary(
            BinaryOperator::Lt,
            Box::new(op_var("i")),
            Box::new(op_field(3)),
        )),
        Box::new(op_field(3)),
        Box::new(Expression::Ternary(
            Box::new(op_var("c")),
            Box::new(op_var("%RP")),
            Box::new(op_field(9)),
        )),
    );
    let expected = Expression::Ternary(
        Box::new(Expression::Binary(
            BinaryOperator::Lt,
            Box::new(op_var("i")),
            Box::new(op_field(3)),
        )),
        Box::new(op_field(2)),
        Box::new(Expression::Ternary(
            Box::new(op_var("c")),
            Box::new(op_var("%RP")),
            Box::new(op_field(9)),
        )),
    );
    assert_eq!(relabel_expression(&e, &map), expected);
}

#[test]
fn reachable_blocks_follow_terminators_and_return_labels() {
    assert_eq!(reachable_blocks(&op_program(), 0), Ok(vec![true, true, false, true, false]));
    assert_eq!(reachable_blocks(&op_program(), 4), Ok(vec![false, true, true, false, true]));
    assert_eq!(reachable_blocks(&op_program(), 5), Err(Error::InvalidTerminator));
}

#[test]
fn dead_blocks_go_and_labels_become_dense() {
    let (blks, entry) = dead_block_elimination(op_program(), 0).unwrap();
    assert_eq!(entry, 0);
    let expected = vec![
        op_block(0, vec![op_declare("%RP", op_field(0)), op_assign("%RP", op_field(1))], op_goto(2)),
        op_block(1, vec![], BlockTerminator::ProgTerm()),
        op_block(2, vec![op_declare("x", op_field(7))], op_return()),
    ];
    assert_eq!(blks, expected);
}

#[test]
fn elimination_keeps_a_program_without_dead_blocks() {
    let program = vec![
        op_block(0, vec![], op_branch("c", 1, 2)),
        op_block(1, vec![], op_goto(2)),
        op_block(2, vec![], BlockTerminator::ProgTerm()),
    ];
    let mut copy = Vec::new();
    for b in &program {
        copy.push(b.dup());
    }
    assert_eq!(optimize_block(copy, 0), Ok((program, 0)));
}

#[test]
fn an_entry_label_other_than_zero_may_stay_other_than_zero() {
    let program = vec![
        op_block(0, vec![], BlockTerminator::ProgTerm()),
        op_block(1, vec![], op_goto(0)),
    ];
    let (blks, entry) = optimize_block(program, 1).unwrap();
    assert_eq!(entry, 1);
    assert_eq!(blks.len(), 2);
    let (blks, entry) = optimize_block(op_program(), 4).unwrap();
    assert_eq!(entry, 2);
    assert_eq!(blks.len(), 3);
    assert_eq!(blks[2].terminator, op_goto(1));
    assert_eq!(blks[1].terminator, op_goto(0));
}

#[test]
fn elimination_fails_on_blocks_that_are_reached_and_not_valid() {
    assert_eq!(optimize_block(op_program(), 5), Err(Error::InvalidTerminator));
    assert_eq!(optimize_block(vec![], 0), Err(Error::InvalidTerminator));
    let call = vec![op_block(0, vec![], BlockTerminator::FuncCall("f".to_string()))];
    assert_eq!(optimize_block(call, 0), Err(Error::InvalidTerminator));
    let beyond = vec![op_block(0, vec![], op_goto(1))];
    assert_eq!(optimize_block(beyond, 0), Err(Error::InvalidTerminator));
    let computed = vec![op_block(
        0,
        vec![],
        BlockTerminator::Transition(Expression::Binary(
            BinaryOperator::Add,
            Box::new(op_field(0)),
            Box::new(op_field(0)),
        )),
    )];
    assert_eq!(optimize_block(computed, 0), Err(Error::InvalidTerminator));
    let rp_beyond = vec![op_block(0, vec![op_assign("%RP", op_field(3))], BlockTerminator::ProgTerm())];
    assert_eq!(optimize_block(rp_beyond, 0), Err(Error::InvalidTerminator));
    let rp_computed =
        vec![op_block(0, vec![op_assign("%RP", op_var("x"))], BlockTerminator::ProgTerm())];
    assert_eq!(optimize_block(rp_computed, 0), Err(Error::InvalidTerminator));
    let dead_is_not_valid = vec![
        op_block(0, vec![], BlockTerminator::ProgTerm()),
        op_block(1, vec![], BlockTerminator::FuncCall("f".to_string())),
    ];
    assert_eq!(
        optimize_block(dead_is_not_valid, 0),
        Ok((vec![op_block(0, vec![], BlockTerminator::ProgTerm())], 0))
    );
}

#[test]
fn flow_graph_sends_a_return_to_the_label_in_the_return_pointer() {
    let (successor, predecessor, exits) = construct_flow_graph(&op_program(), 0).unwrap();
    assert_eq!(
        successor,
        vec![op_set(&[3]), op_set(&[]), op_set(&[]), op_set(&[1]), op_set(&[])]
    );
    assert_eq!(
        predecessor,
        vec![op_set(&[]), op_set(&[3]), op_set(&[]), op_set(&[0]), op_set(&[])]
    );
    assert_eq!(exits, vec![1]);
    let (visited, rp) = analyse_flow(&op_program(), 0).unwrap();
    assert_eq!(visited, vec![true, true, false, true, false]);
    assert_eq!(rp[3], vec![false, true, false, false, false]);
    assert_eq!(rp[1], vec![false; 5]);
    assert_eq!(rp[0], vec![false; 5]);
}

#[test]
fn flow_graph_passes_return_labels_along_and_back() {
    // 0 calls 2 (return to 1); 2 goes on to 3; 3 calls 5 (return to 4);
    // 5 returns; 4 returns; 1 halts.
    let program = vec![
        op_block(0, vec![op_assign("%RP", op_field(1))], op_goto(2)),
        op_block(1, vec![], BlockTerminator::ProgTerm()),
        op_block(2, vec![], op_goto(3)),
        op_block(3, vec![op_assign("%RP", op_field(4))], op_goto(5)),
        op_block(4, vec![], op_return()),
        op_block(5, vec![], op_return()),
    ];
    let (successor, predecessor, exits) = construct_flow_graph(&program, 0).unwrap();
    assert_eq!(
        successor,
        vec![op_set(&[2]), op_set(&[]), op_set(&[3]), op_set(&[5]), op_set(&[1]), op_set(&[4])]
    );
    assert_eq!(
        predecessor,
        vec![op_set(&[]), op_set(&[4]), op_set(&[0]), op_set(&[2]), op_set(&[5]), op_set(&[3])]
    );
    assert_eq!(exits, vec![1]);
}

#[test]
fn flow_graph_of_a_function_called_twice() {
    // 0 calls 3 (return to 1); 1 calls 3 (return to 2); 2 halts; 3 returns.
    let program = vec![
        op_block(0, vec![op_assign("%RP", op_field(1))], op_goto(3)),
        op_block(1, vec![op_assign("%RP", op_field(2))], op_goto(3)),
        op_block(2, vec![], BlockTerminator::ProgTerm()),
        op_block(3, vec![], op_return()),
    ];
    let (successor, _, exits) = construct_flow_graph(&program, 0).unwrap();
    assert_eq!(successor, vec![op_set(&[3]), op_set(&[3]), op_set(&[]), op_set(&[1, 2])]);
    assert_eq!(exits, vec![2]);
}

#[test]
fn flow_graph_takes_the_last_return_label_of_a_block() {
    let program = vec![
        op_block(
            0,
            vec![op_assign("%RP", op_field(2)), op_assign("%RP", op_field(1))],
            op_goto(3),
        ),
        op_block(1, vec![], BlockTerminator::ProgTerm()),
        op_block(2, vec![], BlockTerminator::ProgTerm()),
        op_block(3, vec![], op_return()),
    ];
    let (successor, _, exits) = construct_flow_graph(&program, 0).unwrap();
    assert_eq!(successor[3], op_set(&[1]));
    assert_eq!(exits, vec![1]);
    assert_eq!(reachable_blocks(&program, 0), Ok(vec![true, true, true, true]));
}

#[test]
fn flow_graph_fails_where_elimination_fails() {
    assert_eq!(construct_flow_graph(&op_program(), 5).unwrap_err(), Error::InvalidTerminator);
    let call = vec![op_block(0, vec![], BlockTerminator::FuncCall("f".to_string()))];
    assert_eq!(construct_flow_graph(&call, 0).unwrap_err(), Error::InvalidTerminator);
    let beyond = vec![op_block(0, vec![], op_goto(1))];
    assert_eq!(construct_flow_graph(&beyond, 0).unwrap_err(), Error::InvalidTerminator);
}

#[test]
fn flow_graph_of_a_lowered_loop() {
    let body = vec![Statement::Definition {
        lhs: vec![TypedIdentifierOrAssignee::Assignee("s".to_string())],
        expression: Expression::Binary(
            BinaryOperator::Add,
            Box::new(op_var("s")),
            Box::new(op_var("i")),
        ),
    }];
    let main = op_function(
        "main",
        vec![],
        vec![
            Statement::Definition {
                lhs: vec![TypedIdentifierOrAssignee::TypedIdentifier(Type::Field, "s".to_string())],
                expression: op_field(0),
            },
            Statement::Iteration {
                ty: Type::Field,
                index: "i".to_string(),
                from: op_field(0),
                to: op_field(4),
                statements: body,
            },
            Statement::Return(vec![op_var("s")]),
        ],
    );
    let z = ZGen::new(vec![main], vec![], 18446744069414584321);
    let (blks, entry) = z.bl_gen_const_entry_fn("main").unwrap();
    let (blks, entry) = optimize_block(blks, entry).unwrap();
    assert_eq!(blks.len(), 3);
    let (successor, predecessor, exits) = construct_flow_graph(&blks, entry).unwrap();
    assert_eq!(successor, vec![op_set(&[1, 2]), op_set(&[1, 2]), op_set(&[])]);
    assert_eq!(predecessor, vec![op_set(&[]), op_set(&[0, 1]), op_set(&[0, 1])]);
    assert_eq!(exits, vec![2]);
}

#[test]
fn a_jump_through_a_return_pointer_set_in_the_same_block_is_no_edge() {
    let program = vec![
        op_block(
            0,
            vec![
                op_declare("%RP", op_field(0)),
                op_assign("%RP", op_field(1)),
                op_declare("%RET", op_field(0)),
            ],
            op_return(),
        ),
        op_block(1, vec![], BlockTerminator::ProgTerm()),
    ];
    let (successor, _, exits) = construct_flow_graph(&program, 0).unwrap();
    assert_eq!(successor, vec![op_set(&[]), op_set(&[])]);
    assert_eq!(exits, vec![1]);
    let z = ZGen::new(vec![], vec![], 18446744069414584321);
    let (_, counts, _, states, _, _) = z.bl_eval_entry_fn(0, &vec![], &program, 1).unwrap();
    assert_eq!(counts, vec![1, 1]);
    assert_eq!(states[0].succ_id, 1);
}
