use circ_blocks::ast::{
    BinaryOperator, DecimalSuffix, Expression, FunctionDefinition, LiteralExpression, Parameter,
    Statement, Ty, Type, TypedIdentifierOrAssignee,
};
use circ_blocks::blocks::{
    bl_coda, bl_trans, cond_expr, generate_runtime_data, next_blocks, ty_to_dec_suffix, ty_to_type,
    type_impl_, Block, BlockContent, BlockTerminator, Error, NextBlock,
};
use circ_blocks::names::{decimal_width, is_reserved_name, numbered, padded, push_decimal, scoped};
use circ_blocks::scope::{
    bl_gen_unroll_scope, collect_live_names, cvar_cur_scope_find, cvar_declare, cvar_lookup,
    insert_name, name_before,
};
use circ_blocks::state::LowerState;
use circ_blocks::zgen::ZGen;

const MODULUS: u64 = 18446744069414584321;

fn lo_field(v: u64) -> Expression {
    Expression::Literal(LiteralExpression::DecimalLiteral(v, Some(DecimalSuffix::Field)))
}

fn lo_var(name: &str) -> Expression {
    Expression::Identifier(name.to_string())
}

fn lo_call(f: &str, args: Vec<Expression>) -> Expression {
    Expression::Call(f.to_string(), args)
}

fn lo_ret(e: Expression) -> Statement {
    Statement::Return(vec![e])
}

fn lo_declare(ty: Type, name: &str, e: Expression) -> Statement {
    Statement::Definition {
        lhs: vec![TypedIdentifierOrAssignee::TypedIdentifier(ty, name.to_string())],
        expression: e,
    }
}

fn lo_assign(name: &str, e: Expression) -> Statement {
    Statement::Definition {
        lhs: vec![TypedIdentifierOrAssignee::Assignee(name.to_string())],
        expression: e,
    }
}

fn lo_function(name: &str, params: Vec<&str>, statements: Vec<Statement>) -> FunctionDefinition {
    FunctionDefinition {
        id: name.to_string(),
        generics: vec![],
        parameters: params
            .into_iter()
            .map(|p| Parameter { ty: Type::Field, id: p.to_string() })
            .collect(),
        returns: vec![Type::Field],
        statements,
    }
}

fn lo_lower(functions: Vec<FunctionDefinition>) -> Result<(Vec<Block>, usize), Error> {
    ZGen::new(functions, vec![], MODULUS).bl_gen_const_entry_fn("main")
}

fn lo_main(statements: Vec<Statement>) -> Result<(Vec<Block>, usize), Error> {
    lo_lower(vec![lo_function("main", vec![], statements)])
}

fn lo_init(reg: &str) -> BlockContent {
    BlockContent::Stmt(lo_declare(Type::Field, reg, lo_field(0)))
}

fn lo_pushes(b: &Block) -> Vec<(String, usize)> {
    let mut out = Vec::new();
    for c in &b.instructions {
        if let BlockContent::MemPush((id, off)) = c {
            out.push((id.clone(), *off));
        }
    }
    out
}

fn lo_pops(b: &Block) -> Vec<(String, usize)> {
    let mut out = Vec::new();
    for c in &b.instructions {
        if let BlockContent::MemPop((id, off)) = c {
            out.push((id.clone(), *off));
        }
    }
    out
}

#[test]
fn coda_of_a_label_is_a_field_literal() {
    assert_eq!(bl_coda(NextBlock::Label(3)), lo_field(3));
    assert_eq!(bl_coda(NextBlock::Rp()), lo_var("%RP"));
}

#[test]
fn trans_is_a_ternary_over_codas() {
    let e = bl_trans(lo_var("c"), NextBlock::Label(1), NextBlock::Rp());
    assert_eq!(
        e,
        Expression::Ternary(Box::new(lo_var("c")), Box::new(lo_field(1)), Box::new(lo_var("%RP")))
    );
    assert_eq!(next_blocks(&e), Some(vec![NextBlock::Label(1), NextBlock::Rp()]));
}

#[test]
fn next_blocks_of_other_expressions() {
    assert_eq!(next_blocks(&lo_var("x")), None);
    assert_eq!(
        next_blocks(&Expression::Binary(
            BinaryOperator::Add,
            Box::new(lo_field(1)),
            Box::new(lo_field(2))
        )),
        None
    );
    assert_eq!(next_blocks(&lo_field(9)), Some(vec![NextBlock::Label(9)]));
}

#[test]
fn loop_guard_compares_iterator_and_bound() {
    assert_eq!(
        cond_expr("i@0", lo_field(4)),
        Expression::Binary(BinaryOperator::Lt, Box::new(lo_var("i@0")), Box::new(lo_field(4)))
    );
}

#[test]
fn new_block_falls_through_to_the_next_label() {
    let b = Block::new(4);
    assert_eq!(b.name, 4);
    assert!(b.instructions.is_empty());
    assert!(b.inputs.is_empty());
    assert_eq!(b.terminator, BlockTerminator::Transition(lo_field(5)));
    assert_eq!(b.dup(), b);
}

#[test]
fn types_convert_both_ways() {
    assert_eq!(ty_to_type(Ty::Field), Ok(Type::Field));
    assert_eq!(ty_to_type(Ty::Bool), Ok(Type::Boolean));
    assert_eq!(ty_to_type(Ty::Uint(8)), Ok(Type::U8));
    assert_eq!(ty_to_type(Ty::Uint(16)), Ok(Type::U16));
    assert_eq!(ty_to_type(Ty::Uint(32)), Ok(Type::U32));
    assert_eq!(ty_to_type(Ty::Uint(64)), Ok(Type::U64));
    assert_eq!(ty_to_type(Ty::Uint(7)), Err(Error::Unsupported));
    assert_eq!(type_impl_(Type::Field), Ok(Ty::Field));
    assert_eq!(type_impl_(Type::Boolean), Ok(Ty::Bool));
    assert_eq!(type_impl_(Type::U32), Ok(Ty::Uint(32)));
    assert_eq!(type_impl_(Type::Array), Err(Error::Unsupported));
    assert_eq!(type_impl_(Type::Struct), Err(Error::Unsupported));
    assert_eq!(ty_to_dec_suffix(Type::Field), DecimalSuffix::Field);
    assert_eq!(ty_to_dec_suffix(Type::U8), DecimalSuffix::U8);
    assert_eq!(ty_to_dec_suffix(Type::U64), DecimalSuffix::U64);
}

#[test]
fn names_are_formatted_in_decimal() {
    assert_eq!(scoped("x", 0), "x@0");
    assert_eq!(scoped("x", 10), "x@10");
    assert_eq!(scoped("long_name", 123456), "long_name@123456");
    assert_eq!(numbered("%RET", 0), "%RET0");
    assert_eq!(numbered("%ARG", 12), "%ARG12");
    assert_eq!(padded("%i", 7, 3), "%i007");
    assert_eq!(padded("%o", 12, 1), "%o12");
    assert_eq!(padded("%o", 0, 2), "%o00");
    assert_eq!(decimal_width(0), 1);
    assert_eq!(decimal_width(9), 1);
    assert_eq!(decimal_width(10), 2);
    assert_eq!(decimal_width(usize::MAX), usize::MAX.to_string().len());
    let mut s = String::from("n=");
    push_decimal(&mut s, 9081);
    assert_eq!(s, "n=9081");
}

#[test]
fn reserved_names_start_with_the_sigil() {
    assert!(is_reserved_name("%RP"));
    assert!(is_reserved_name("%"));
    assert!(!is_reserved_name("x"));
    assert!(!is_reserved_name("x%"));
    assert!(!is_reserved_name(""));
}

#[test]
fn unroll_leaves_reserved_names_alone() {
    let mut st = LowerState::new();
    assert_eq!(bl_gen_unroll_scope(true, "%RET", &mut st.var_scope_info), Ok("%RET".to_string()));
    assert_eq!(bl_gen_unroll_scope(false, "%SP", &mut st.var_scope_info), Ok("%SP".to_string()));
    assert!(st.var_scope_info.get("%RET").is_none());
    assert!(st.var_scope_info.get("%SP").is_none());
}

#[test]
fn unroll_reference_to_unknown_name_fails() {
    let mut st = LowerState::new();
    assert_eq!(
        bl_gen_unroll_scope(false, "x", &mut st.var_scope_info),
        Err(Error::UndefinedBeforeUse)
    );
    assert!(st.var_scope_info.get("x").is_none());
}

#[test]
fn unroll_declaration_starts_at_index_zero() {
    let mut st = LowerState::new();
    assert_eq!(bl_gen_unroll_scope(true, "x", &mut st.var_scope_info), Ok("x@0".to_string()));
    assert_eq!(st.var_scope_info.get("x"), Some(&(0, false)));
    assert_eq!(bl_gen_unroll_scope(false, "x", &mut st.var_scope_info), Ok("x@0".to_string()));
    assert_eq!(st.var_scope_info.get("x"), Some(&(0, false)));
}

#[test]
fn unroll_declaration_in_the_same_scope_keeps_the_index() {
    let mut st = LowerState::new();
    st.var_scope_info.insert("x".to_string(), (3, false));
    assert_eq!(bl_gen_unroll_scope(true, "x", &mut st.var_scope_info), Ok("x@3".to_string()));
    assert_eq!(st.var_scope_info.get("x"), Some(&(3, false)));
}

#[test]
fn unroll_declaration_of_a_pending_name_moves_on() {
    let mut st = LowerState::new();
    st.var_scope_info.insert("x".to_string(), (3, true));
    assert_eq!(bl_gen_unroll_scope(false, "x", &mut st.var_scope_info), Ok("x@3".to_string()));
    assert_eq!(st.var_scope_info.get("x"), Some(&(3, true)));
    assert_eq!(bl_gen_unroll_scope(true, "x", &mut st.var_scope_info), Ok("x@4".to_string()));
    assert_eq!(st.var_scope_info.get("x"), Some(&(4, false)));
    assert_eq!(bl_gen_unroll_scope(false, "x", &mut st.var_scope_info), Ok("x@4".to_string()));
}

#[test]
fn unroll_declaration_at_the_last_index_is_not_supported() {
    let mut st = LowerState::new();
    st.var_scope_info.insert("x".to_string(), (usize::MAX, true));
    assert_eq!(bl_gen_unroll_scope(true, "x", &mut st.var_scope_info), Err(Error::Unsupported));
}

#[test]
fn scopes_find_the_innermost_declaration() {
    let mut cvars: Vec<Vec<(String, Ty)>> = vec![vec![]];
    let x = "x".to_string();
    assert_eq!(cvar_lookup(&cvars, &x), None);
    cvar_declare(&mut cvars, x.clone(), Ty::Field);
    assert_eq!(cvar_lookup(&cvars, &x), Some(Ty::Field));
    assert!(cvar_cur_scope_find(&cvars, &x));
    cvars.push(vec![]);
    assert!(!cvar_cur_scope_find(&cvars, &x));
    assert_eq!(cvar_lookup(&cvars, &x), Some(Ty::Field));
    cvar_declare(&mut cvars, x.clone(), Ty::Bool);
    assert_eq!(cvar_lookup(&cvars, &x), Some(Ty::Bool));
    cvar_declare(&mut cvars, x.clone(), Ty::Uint(8));
    assert_eq!(cvar_lookup(&cvars, &x), Some(Ty::Uint(8)));
    cvars.pop();
    assert_eq!(cvar_lookup(&cvars, &x), Some(Ty::Field));
}

#[test]
fn names_are_ordered_by_their_characters() {
    assert!(name_before("a", "b"));
    assert!(!name_before("b", "a"));
    assert!(!name_before("a", "a"));
    assert!(name_before("", "a"));
    assert!(!name_before("a", ""));
    assert!(name_before("a", "ab"));
    assert!(name_before("%RET10", "%RET2"));
    assert!(name_before("%RET0", "a"));
    assert!(name_before("Z", "a"));
    assert!(name_before("z", "é"));
}

#[test]
fn live_names_are_sorted_and_unique() {
    let mut names: Vec<String> = vec![];
    for n in ["m", "b", "z", "b", "a", "m"] {
        insert_name(&mut names, n.to_string());
    }
    assert_eq!(names, vec!["a", "b", "m", "z"]);
    let cvars: Vec<Vec<(String, Ty)>> = vec![
        vec![("y".to_string(), Ty::Field), ("x".to_string(), Ty::Field)],
        vec![("x".to_string(), Ty::Bool), ("a".to_string(), Ty::Field)],
    ];
    assert_eq!(collect_live_names(&cvars), vec!["a", "x", "y"]);
}

#[test]
fn entering_a_scope_advances_the_stack_pointer_past_what_was_pushed() {
    let mut st = LowerState::new();
    st.declare("x".to_string(), Ty::Field);
    assert_eq!(bl_gen_unroll_scope(true, "x", &mut st.var_scope_info), Ok("x@0".to_string()));
    st.bl_gen_enter_scope_();
    assert!(st.blks[0].instructions.is_empty());
    assert_eq!(st.func_phy_assign, vec![vec![]]);
    assert_eq!(st.bl_gen_scoping_(&"x".to_string(), false), Ok(()));
    assert_eq!(st.sp_offset, 2);
    assert_eq!(
        st.func_phy_assign,
        vec![vec![(0, "%BP".to_string()), (1, "x".to_string())]]
    );
    assert_eq!(st.var_scope_info.get("x"), Some(&(0, true)));
    st.bl_gen_enter_scope_();
    assert_eq!(st.sp_offset, 0);
    assert_eq!(st.func_phy_assign.len(), 2);
    assert_eq!(st.cvars.len(), 3);
    let expected = vec![
        BlockContent::MemPush(("%BP".to_string(), 0)),
        BlockContent::Stmt(lo_declare(Type::Field, "%BP", lo_var("%SP"))),
        BlockContent::MemPush(("x@0".to_string(), 1)),
        BlockContent::Stmt(lo_assign(
            "%SP",
            Expression::Binary(
                BinaryOperator::Add,
                Box::new(lo_var("%SP")),
                Box::new(lo_field(2)),
            ),
        )),
    ];
    assert_eq!(st.blks[0].instructions, expected);
}

#[test]
fn a_name_of_the_scope_in_hand_is_not_spilled() {
    let mut st = LowerState::new();
    st.bl_gen_enter_scope_();
    st.declare("x".to_string(), Ty::Field);
    assert_eq!(bl_gen_unroll_scope(true, "x", &mut st.var_scope_info), Ok("x@0".to_string()));
    assert_eq!(st.bl_gen_scoping_(&"x".to_string(), false), Ok(()));
    assert_eq!(st.bl_gen_scoping_(&"unknown".to_string(), false), Ok(()));
    assert!(st.blks[0].instructions.is_empty());
    assert_eq!(st.sp_offset, 0);
    assert_eq!(st.bl_gen_scoping_(&"x".to_string(), true), Ok(()));
    assert_eq!(
        lo_pushes(&st.blks[0]),
        vec![("%BP".to_string(), 0), ("x@0".to_string(), 1)]
    );
}

#[test]
fn leaving_a_scope_undoes_its_spills_in_reverse() {
    let mut st = LowerState::new();
    st.declare("x".to_string(), Ty::Field);
    assert_eq!(bl_gen_unroll_scope(true, "x", &mut st.var_scope_info), Ok("x@0".to_string()));
    st.bl_gen_enter_scope_();
    assert_eq!(st.bl_gen_scoping_(&"x".to_string(), false), Ok(()));
    st.declare("x".to_string(), Ty::Field);
    assert_eq!(bl_gen_unroll_scope(true, "x", &mut st.var_scope_info), Ok("x@1".to_string()));
    assert_eq!(st.bl_gen_exit_scope_(), Ok(()));
    assert_eq!(
        lo_pops(&st.blks[0]),
        vec![("x@0".to_string(), 1), ("%BP".to_string(), 0)]
    );
    assert_eq!(st.var_scope_info.get("x"), Some(&(0, false)));
    assert_eq!(st.sp_offset, 0);
    assert!(st.func_phy_assign.is_empty());
    assert_eq!(st.cvars.len(), 1);
    assert_eq!(bl_gen_unroll_scope(false, "x", &mut st.var_scope_info), Ok("x@0".to_string()));
}

#[test]
fn leaving_a_scope_clears_a_pending_entry() {
    let mut st = LowerState::new();
    st.declare("x".to_string(), Ty::Field);
    assert_eq!(bl_gen_unroll_scope(true, "x", &mut st.var_scope_info), Ok("x@0".to_string()));
    st.bl_gen_enter_scope_();
    assert_eq!(st.bl_gen_scoping_(&"x".to_string(), true), Ok(()));
    assert_eq!(st.var_scope_info.get("x"), Some(&(0, true)));
    assert_eq!(st.bl_gen_exit_scope_(), Ok(()));
    assert_eq!(st.var_scope_info.get("x"), Some(&(0, false)));
    assert_eq!(
        lo_pops(&st.blks[0]),
        vec![("x@0".to_string(), 1), ("%BP".to_string(), 0)]
    );
}

#[test]
fn a_return_unwinds_only_the_base_pointer() {
    let mut st = LowerState::new();
    st.declare("x".to_string(), Ty::Field);
    assert_eq!(bl_gen_unroll_scope(true, "x", &mut st.var_scope_info), Ok("x@0".to_string()));
    st.bl_gen_enter_scope_();
    assert_eq!(st.bl_gen_scoping_(&"x".to_string(), false), Ok(()));
    st.bl_gen_return_scope_();
    assert_eq!(lo_pops(&st.blks[0]), vec![("%BP".to_string(), 0)]);
    assert_eq!(st.sp_offset, 0);
    assert_eq!(st.func_phy_assign.len(), 1);
    assert_eq!(st.var_scope_info.get("x"), Some(&(0, true)));
}

#[test]
fn trivial_main_is_lowered_to_one_live_block() {
    let (blks, entry) = lo_main(vec![lo_ret(lo_field(0))]).unwrap();
    assert_eq!(entry, 0);
    assert_eq!(blks.len(), 2);
    assert_eq!(
        blks[0].instructions,
        vec![
            lo_init("%RP"),
            lo_init("%SP"),
            lo_init("%BP"),
            BlockContent::Stmt(lo_declare(Type::Field, "%RET", lo_field(0))),
        ]
    );
    assert_eq!(blks[0].terminator, BlockTerminator::ProgTerm());
    assert!(blks[1].instructions.is_empty());
    assert_eq!(blks[1].terminator, BlockTerminator::ProgTerm());
    assert_eq!(blks[1].name, 1);
}

#[test]
fn a_call_hands_over_arguments_in_two_phases() {
    let foo = lo_function(
        "foo",
        vec!["a", "b"],
        vec![lo_ret(Expression::Binary(
            BinaryOperator::Add,
            Box::new(lo_var("a")),
            Box::new(lo_var("b")),
        ))],
    );
    let main = lo_function("main", vec![], vec![lo_ret(lo_call("foo", vec![lo_field(2), lo_field(5)]))]);
    let (blks, _) = lo_lower(vec![main, foo]).unwrap();
    assert_eq!(blks.len(), 5);
    let sp_update = BlockContent::Stmt(lo_assign(
        "%SP",
        Expression::Binary(BinaryOperator::Add, Box::new(lo_var("%SP")), Box::new(lo_field(2))),
    ));
    assert_eq!(
        blks[0].instructions,
        vec![
            lo_init("%RP"),
            lo_init("%SP"),
            lo_init("%BP"),
            BlockContent::MemPush(("%BP".to_string(), 0)),
            BlockContent::Stmt(lo_declare(Type::Field, "%BP", lo_var("%SP"))),
            BlockContent::MemPush(("%RP".to_string(), 1)),
            sp_update,
            BlockContent::Stmt(lo_declare(Type::Field, "%ARG0", lo_field(2))),
            BlockContent::Stmt(lo_declare(Type::Field, "%ARG1", lo_field(5))),
            BlockContent::Stmt(lo_declare(Type::Field, "a@0", lo_var("%ARG0"))),
            BlockContent::Stmt(lo_declare(Type::Field, "b@0", lo_var("%ARG1"))),
            BlockContent::Stmt(lo_assign("%RP", lo_field(1))),
        ]
    );
    assert_eq!(blks[0].terminator, BlockTerminator::Transition(lo_field(3)));
    assert_eq!(
        blks[1].instructions,
        vec![
            BlockContent::Stmt(lo_declare(Type::Field, "%RET0", lo_var("%RET"))),
            BlockContent::MemPop(("%RP".to_string(), 1)),
            BlockContent::MemPop(("%BP".to_string(), 0)),
            BlockContent::Stmt(lo_declare(Type::Field, "%RET", lo_var("%RET0"))),
        ]
    );
    assert_eq!(blks[1].terminator, BlockTerminator::ProgTerm());
    assert_eq!(
        blks[3].instructions,
        vec![BlockContent::Stmt(lo_declare(
            Type::Field,
            "%RET",
            Expression::Binary(
                BinaryOperator::Add,
                Box::new(lo_var("a@0")),
                Box::new(lo_var("b@0")),
            ),
        ))]
    );
    assert_eq!(blks[3].terminator, BlockTerminator::Transition(lo_var("%RP")));
    for (i, b) in blks.iter().enumerate() {
        assert_eq!(b.name, i);
    }
}

#[test]
fn a_call_spills_live_names_in_sorted_order() {
    let f = lo_function("f", vec!["p"], vec![lo_ret(lo_var("p"))]);
    let main = lo_function(
        "main",
        vec![],
        vec![
            lo_declare(Type::Field, "b", lo_field(1)),
            lo_declare(Type::Field, "a", lo_field(2)),
            lo_ret(Expression::Binary(
                BinaryOperator::Add,
                Box::new(lo_call("f", vec![lo_var("a")])),
                Box::new(lo_call("f", vec![lo_var("b")])),
            )),
        ],
    );
    let (blks, _) = lo_lower(vec![main, f]).unwrap();
    assert_eq!(
        lo_pushes(&blks[0]),
        vec![
            ("%BP".to_string(), 0),
            ("a@0".to_string(), 1),
            ("b@0".to_string(), 2),
            ("%RP".to_string(), 3),
        ]
    );
    assert_eq!(
        lo_pushes(&blks[1]),
        vec![
            ("%BP".to_string(), 0),
            ("%RET0".to_string(), 1),
            ("a@0".to_string(), 2),
            ("b@0".to_string(), 3),
            ("%RP".to_string(), 4),
        ]
    );
    assert_eq!(
        lo_pops(&blks[1]),
        vec![
            ("%RP".to_string(), 3),
            ("b@0".to_string(), 2),
            ("a@0".to_string(), 1),
            ("%BP".to_string(), 0),
        ]
    );
    assert_eq!(
        lo_pops(&blks[2]),
        vec![
            ("%RP".to_string(), 4),
            ("b@0".to_string(), 3),
            ("a@0".to_string(), 2),
            ("%RET0".to_string(), 1),
            ("%BP".to_string(), 0),
        ]
    );
}

#[test]
fn a_call_to_an_embedded_function_is_left_as_it_is() {
    let hash = lo_function("hash", vec!["x"], vec![lo_ret(lo_var("x"))]);
    let main = lo_function(
        "main",
        vec![],
        vec![
            lo_declare(Type::Field, "y", lo_call("hash", vec![lo_field(1)])),
            lo_ret(lo_var("y")),
        ],
    );
    let z = ZGen::new(vec![main, hash], vec!["hash".to_string()], MODULUS);
    let (blks, _) = z.bl_gen_const_entry_fn("main").unwrap();
    assert_eq!(blks.len(), 2);
    assert_eq!(
        blks[0].instructions[3],
        BlockContent::Stmt(lo_declare(Type::Field, "y@0", lo_call("hash", vec![lo_field(1)])))
    );
    assert!(lo_pushes(&blks[0]).is_empty());
}

#[test]
fn lowering_fails_on_what_is_not_supported() {
    let mut generic = lo_function("main", vec![], vec![lo_ret(lo_field(0))]);
    generic.generics = vec!["N".to_string()];
    assert_eq!(lo_lower(vec![generic]).unwrap_err(), Error::Unsupported);

    let with_params = lo_function("main", vec!["a"], vec![lo_ret(lo_var("a"))]);
    assert_eq!(lo_lower(vec![with_params]).unwrap_err(), Error::Unsupported);

    let mut two_returns = lo_function("main", vec![], vec![lo_ret(lo_field(0))]);
    two_returns.returns = vec![Type::Field, Type::Field];
    assert_eq!(lo_lower(vec![two_returns]).unwrap_err(), Error::Unsupported);

    let mut no_return = lo_function("main", vec![], vec![lo_ret(lo_field(0))]);
    no_return.returns = vec![];
    assert_eq!(lo_lower(vec![no_return]).unwrap_err(), Error::Unsupported);

    assert_eq!(
        lo_main(vec![Statement::Return(vec![lo_field(0), lo_field(1)])]).unwrap_err(),
        Error::Unsupported
    );
    assert_eq!(lo_main(vec![Statement::Return(vec![])]).unwrap_err(), Error::Unsupported);
    for e in [
        Expression::ArrayInitializer,
        Expression::InlineStruct,
        Expression::InlineArray,
        Expression::Access("a".to_string()),
    ] {
        assert_eq!(lo_main(vec![lo_ret(e)]).unwrap_err(), Error::Unsupported);
    }
    let multi = Statement::Definition {
        lhs: vec![
            TypedIdentifierOrAssignee::TypedIdentifier(Type::Field, "a".to_string()),
            TypedIdentifierOrAssignee::TypedIdentifier(Type::Field, "b".to_string()),
        ],
        expression: lo_field(0),
    };
    assert_eq!(lo_main(vec![multi]).unwrap_err(), Error::Unsupported);
    let indexed = Statement::Definition {
        lhs: vec![TypedIdentifierOrAssignee::IndexedAssignee("a".to_string())],
        expression: lo_field(0),
    };
    assert_eq!(lo_main(vec![indexed]).unwrap_err(), Error::Unsupported);
    assert_eq!(
        lo_main(vec![lo_declare(Type::Array, "a", lo_field(0))]).unwrap_err(),
        Error::Unsupported
    );
    let bool_loop = Statement::Iteration {
        ty: Type::Boolean,
        index: "i".to_string(),
        from: lo_field(0),
        to: lo_field(1),
        statements: vec![],
    };
    assert_eq!(lo_main(vec![bool_loop]).unwrap_err(), Error::Unsupported);
    let entry_is_embedded = ZGen::new(
        vec![lo_function("main", vec![], vec![lo_ret(lo_field(0))])],
        vec!["main".to_string()],
        MODULUS,
    );
    assert_eq!(entry_is_embedded.bl_gen_const_entry_fn("main").unwrap_err(), Error::Unsupported);
}

#[test]
fn lowering_fails_on_names_that_are_not_defined() {
    assert_eq!(lo_main(vec![lo_ret(lo_var("x"))]).unwrap_err(), Error::UndefinedBeforeUse);
    assert_eq!(
        lo_main(vec![lo_assign("x", lo_field(1))]).unwrap_err(),
        Error::UndefinedBeforeUse
    );
    assert_eq!(
        lo_main(vec![lo_ret(lo_call("nowhere", vec![]))]).unwrap_err(),
        Error::UndefinedBeforeUse
    );
    assert_eq!(
        ZGen::new(vec![], vec![], MODULUS).bl_gen_const_entry_fn("main").unwrap_err(),
        Error::UndefinedBeforeUse
    );
}

#[test]
fn lowering_fails_on_types_that_do_not_match() {
    let truth = Expression::Literal(LiteralExpression::BooleanLiteral(true));
    assert_eq!(
        lo_main(vec![lo_declare(Type::Field, "x", truth)]).unwrap_err(),
        Error::TypeMismatch
    );
    let bare = Expression::Literal(LiteralExpression::DecimalLiteral(1, None));
    assert_eq!(
        lo_main(vec![lo_declare(Type::Field, "x", bare)]).unwrap_err(),
        Error::TypeMismatch
    );
    let f = lo_function("f", vec!["a"], vec![lo_ret(lo_var("a"))]);
    let main = lo_function("main", vec![], vec![lo_ret(lo_call("f", vec![]))]);
    assert_eq!(lo_lower(vec![main, f]).unwrap_err(), Error::TypeMismatch);
}

#[test]
fn an_assignment_is_emitted_as_a_declaration_of_the_current_name() {
    let (blks, _) = lo_main(vec![
        lo_declare(Type::U8, "x", Expression::Literal(LiteralExpression::DecimalLiteral(1, Some(DecimalSuffix::U8)))),
        lo_assign("x", Expression::Literal(LiteralExpression::DecimalLiteral(2, Some(DecimalSuffix::U8)))),
        lo_ret(lo_field(0)),
    ])
    .unwrap();
    assert_eq!(
        blks[0].instructions[4],
        BlockContent::Stmt(lo_declare(
            Type::U8,
            "x@0",
            Expression::Literal(LiteralExpression::DecimalLiteral(2, Some(DecimalSuffix::U8)))
        ))
    );
}

#[test]
fn a_loop_steps_in_the_type_of_its_iterator() {
    let looped = Statement::Iteration {
        ty: Type::U32,
        index: "i".to_string(),
        from: Expression::Literal(LiteralExpression::DecimalLiteral(0, Some(DecimalSuffix::U32))),
        to: Expression::Literal(LiteralExpression::DecimalLiteral(3, Some(DecimalSuffix::U32))),
        statements: vec![],
    };
    let (blks, _) = lo_main(vec![looped, lo_ret(lo_field(0))]).unwrap();
    assert_eq!(blks.len(), 4);
    let step = BlockContent::Stmt(lo_assign(
        "i@0",
        Expression::Binary(
            BinaryOperator::Add,
            Box::new(lo_var("i@0")),
            Box::new(Expression::Literal(LiteralExpression::DecimalLiteral(
                1,
                Some(DecimalSuffix::U32),
            ))),
        ),
    ));
    assert_eq!(blks[1].instructions, vec![step]);
    let guard = Expression::Ternary(
        Box::new(Expression::Binary(
            BinaryOperator::Lt,
            Box::new(lo_var("i@0")),
            Box::new(Expression::Literal(LiteralExpression::DecimalLiteral(
                3,
                Some(DecimalSuffix::U32),
            ))),
        )),
        Box::new(lo_field(1)),
        Box::new(lo_field(2)),
    );
    assert_eq!(blks[0].terminator, BlockTerminator::Transition(guard.dup()));
    assert_eq!(blks[1].terminator, BlockTerminator::Transition(guard));
}

#[test]
fn runtime_totals_are_sums() {
    assert_eq!(generate_runtime_data(3, &vec![1, 4, 2, 9], &vec![3, 0, 5, 9]), Some((7, 8)));
    assert_eq!(generate_runtime_data(0, &vec![], &vec![]), Some((0, 0)));
    assert_eq!(generate_runtime_data(2, &vec![usize::MAX, 1], &vec![0, 0]), None);
    assert_eq!(generate_runtime_data(2, &vec![0, 0], &vec![1, usize::MAX]), None);
}
