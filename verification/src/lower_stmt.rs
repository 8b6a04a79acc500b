//! Lowering of statements, of functions, and of the whole program.

use crate::ast::{
    assign_lhs, decl_lhs, lhs_view, stmts_view, BinaryOperator, ExprV, Expression, LhsV,
    LiteralExpression, ParamV, Statement, StmtV, Type, TypedIdentifierOrAssignee,
};
use crate::blocks::{
    bl_coda, bl_trans, blocks_view, coda_expr, cond_expr, dec_suffix_of, field_lit, field_literal,
    is_numeric, lemma_coda_leaves, lemma_trans_leaves, loop_guard,
    terminator_resolved, trans_expr, ty_of_type, ty_to_dec_suffix, ty_to_type, type_impl_,
    type_of_ty, Block, BlockTerminator, BlockV, ContentV, Error, NextBlock, TermV,
};
use crate::blocks::{fails, yields};
use crate::lower_expr::lower_expr;
use crate::names::{reg_bp, reg_ret, reg_rp, reg_sp};
use crate::scope::{bl_gen_unroll_scope, cvar_declare_spec, cvar_lookup, cvar_lookup_spec, unroll_scope};
use crate::state::{LowerState, LowerStateV};
use crate::typing::type_of;
use crate::zgen::{ProgV, ZGen};
use vstd::hash_map::StringHashMap;
use vstd::prelude::*;
use vstd::string::*;

verus! {

/// `ret_ty %RET = e`.
pub open spec fn ret_stmt(ret_ty: Type, e: ExprV) -> StmtV {
    StmtV::Definition { lhs: decl_lhs(ret_ty, reg_ret()), expression: e }
}

/// How a function ends: the program halts in `main`; any other function
/// goes where `%RP` points.
pub open spec fn exit_term(is_main: bool) -> TermV {
    if is_main {
        TermV::ProgTerm
    } else {
        TermV::Transition(coda_expr(NextBlock::Rp()))
    }
}

/// `v = v + 1`, the one in the type `ty` of the loop.
pub open spec fn step_stmt(v: Seq<char>, ty: Type) -> StmtV {
    StmtV::Definition {
        lhs: assign_lhs(v),
        expression: ExprV::Binary(
            BinaryOperator::Add,
            Box::new(ExprV::Identifier(v)),
            Box::new(
                ExprV::Literal(LiteralExpression::DecimalLiteral(1, Some(dec_suffix_of(ty)))),
            ),
        ),
    }
}

/// The lowering of `return es`.
///
/// The value goes to `%RET`. Outside `main` the frames of the function are
/// unwound. The block ends the function, and a fresh block is opened for
/// whatever follows.
pub open spec fn lower_return(
    prog: ProgV,
    s: LowerStateV,
    es: Seq<ExprV>,
    ret_ty: Type,
    is_main: bool,
) -> Result<LowerStateV, Error> {
    if es.len() != 1 {
        Err(Error::Unsupported)
    } else {
        match lower_expr(prog, s, es[0], 0) {
            Err(e) => Err(e),
            Ok((s1, e1, _)) => {
                let s2 = s1.push_instr(ContentV::Stmt(ret_stmt(ret_ty, e1)));
                let s3 = if is_main {
                    s2
                } else {
                    s2.return_scope()
                };
                Ok(s3.set_terminator(s3.blks.len() - 1, exit_term(is_main)).new_block())
            },
        }
    }
}

/// The lowering of `assert(e)`.
pub open spec fn lower_assertion(prog: ProgV, s: LowerStateV, e: ExprV) -> Result<
    LowerStateV,
    Error,
> {
    match lower_expr(prog, s, e, 0) {
        Err(err) => Err(err),
        Ok((s1, e1, _)) => Ok(s1.push_instr(ContentV::Stmt(StmtV::Assertion(e1)))),
    }
}

/// The head of a loop, up to the first block of its body: a scope for the
/// iterator, the iterator's declaration and first value, a scope for the
/// body, and the body's first block. Comes with the iterator's
/// scope-qualified name.
pub open spec fn loop_enter(prog: ProgV, s: LowerStateV, ty: Type, index: Seq<char>, from: ExprV) -> Result<
    (LowerStateV, Seq<char>),
    Error,
> {
    match s.enter_scope().spill(index, false) {
        Err(e) => Err(e),
        Ok(s2) => match ty_of_type(ty) {
            Err(e) => Err(e),
            Ok(t) => if !is_numeric(ty) {
                Err(Error::Unsupported)
            } else {
                match lower_expr(
                    prog,
                    s2.with_cvars(cvar_declare_spec(s2.cvars, index, t)),
                    from,
                    0,
                ) {
                    Err(e) => Err(e),
                    Ok((s4, from1, _)) => match unroll_scope(true, index, s4.scope) {
                        Err(e) => Err(e),
                        Ok((new_v, table)) => Ok(
                            (
                                s4.with_scope(table).push_instr(
                                    ContentV::Stmt(
                                        StmtV::Definition {
                                            lhs: decl_lhs(ty, new_v),
                                            expression: from1,
                                        },
                                    ),
                                ).enter_scope().new_block(),
                                new_v,
                            ),
                        ),
                    },
                }
            },
        },
    }
}

/// The tail of a loop, after its body: the body's scope is left, the
/// iterator is stepped, the block before the loop and the last block of
/// the body both go to the body's first block while the iterator is below
/// the bound and to the block after the loop else, that block is opened,
/// and the iterator's scope is left.
pub open spec fn loop_exit(
    prog: ProgV,
    s: LowerStateV,
    new_v: Seq<char>,
    ty: Type,
    to: ExprV,
    old_state: int,
) -> Result<LowerStateV, Error> {
    match s.exit_scope() {
        Err(e) => Err(e),
        Ok(s9) => match lower_expr(
            prog,
            s9.push_instr(ContentV::Stmt(step_stmt(new_v, ty))),
            to,
            0,
        ) {
            Err(e) => Err(e),
            Ok((s11, to1, _)) => {
                let new_state = s11.blks.len() - 1;
                let term = TermV::Transition(
                    trans_expr(
                        loop_guard(new_v, to1),
                        NextBlock::Label((old_state + 1) as usize),
                        NextBlock::Label((new_state + 1) as usize),
                    ),
                );
                s11.set_terminator(new_state, term).set_terminator(
                    old_state,
                    term,
                ).new_block().exit_scope()
            },
        },
    }
}

/// The state in which a branch of a conditional starts: a scope is
/// entered and a block opened.
pub open spec fn open_branch(s: LowerStateV) -> LowerStateV {
    s.enter_scope().new_block()
}

/// The state in which a branch of a conditional ends: where its body was
/// lowered, its scope is left.
pub open spec fn close_branch(r: Result<LowerStateV, Error>) -> Result<LowerStateV, Error> {
    match r {
        Err(e) => Err(e),
        Ok(s) => s.exit_scope(),
    }
}

/// The end of a conditional, after both branches: the head block goes to
/// the first block of either branch, the last block of the first branch
/// goes to the block after the conditional, and that block is opened.
pub open spec fn cond_close(s: LowerStateV, cond: ExprV, head: int, if_tail: int) -> LowerStateV {
    s.set_terminator(
        head,
        TermV::Transition(
            trans_expr(
                cond,
                NextBlock::Label((head + 1) as usize),
                NextBlock::Label((if_tail + 1) as usize),
            ),
        ),
    ).set_terminator(
        if_tail,
        TermV::Transition(coda_expr(NextBlock::Label(s.blks.len() as usize))),
    ).new_block()
}

/// The lowering of the definition `lhs = expression`.
///
/// An assignment needs its target declared; it is emitted as a declaration
/// of the target's current name with the type of the right side. A
/// declaration needs the declared type to be the type of the right side;
/// an outer binding of the name is spilled first, and the name moves to
/// its next incarnation.
pub open spec fn lower_definition(prog: ProgV, s: LowerStateV, lhs: Seq<LhsV>, expression: ExprV) -> Result<
    LowerStateV,
    Error,
> {
    if lhs.len() > 1 {
        Err(Error::Unsupported)
    } else {
        match lower_expr(prog, s, expression, 0) {
            Err(e) => Err(e),
            Ok((s1, rhs, _)) => match type_of(prog, s1.cvars, expression) {
                Err(e) => Err(e),
                Ok(e_ty) => if lhs.len() == 0 {
                    Ok(
                        s1.push_instr(
                            ContentV::Stmt(
                                StmtV::Definition { lhs: Seq::empty(), expression: rhs },
                            ),
                        ),
                    )
                } else {
                    match lhs[0] {
                        LhsV::Assignee(name) => match cvar_lookup_spec(s1.cvars, name) {
                            None => Err(Error::UndefinedBeforeUse),
                            Some(_) => match unroll_scope(false, name, s1.scope) {
                                Err(e) => Err(e),
                                Ok((new_l, table)) => match type_of_ty(e_ty) {
                                    Err(e) => Err(e),
                                    Ok(t) => Ok(
                                        s1.with_scope(table).push_instr(
                                            ContentV::Stmt(
                                                StmtV::Definition {
                                                    lhs: decl_lhs(t, new_l),
                                                    expression: rhs,
                                                },
                                            ),
                                        ),
                                    ),
                                },
                            },
                        },
                        LhsV::TypedIdentifier(ty, name) => match ty_of_type(ty) {
                            Err(e) => Err(e),
                            Ok(decl_ty) => if decl_ty != e_ty {
                                Err(Error::TypeMismatch)
                            } else {
                                match s1.spill(name, false) {
                                    Err(e) => Err(e),
                                    Ok(s2) => {
                                        let s3 = s2.with_cvars(
                                            cvar_declare_spec(s2.cvars, name, decl_ty),
                                        );
                                        match unroll_scope(true, name, s3.scope) {
                                            Err(e) => Err(e),
                                            Ok((new_l, table)) => Ok(
                                                s3.with_scope(table).push_instr(
                                                    ContentV::Stmt(
                                                        StmtV::Definition {
                                                            lhs: decl_lhs(ty, new_l),
                                                            expression: rhs,
                                                        },
                                                    ),
                                                ),
                                            ),
                                        }
                                    },
                                }
                            },
                        },
                        LhsV::IndexedAssignee(_) => Err(Error::Unsupported),
                    }
                },
            },
        }
    }
}

/// The lowering of the statement `st` of a function that returns `ret_ty`.
pub open spec fn lower_stmt(prog: ProgV, s: LowerStateV, st: StmtV, ret_ty: Type, is_main: bool) -> Result<
    LowerStateV,
    Error,
>
    decreases st,
{
    match st {
        StmtV::Return(es) => lower_return(prog, s, es, ret_ty, is_main),
        StmtV::Assertion(e) => lower_assertion(prog, s, e),
        StmtV::Iteration { ty, index, from, to, statements } => match loop_enter(
            prog,
            s,
            ty,
            index,
            from,
        ) {
            Err(e) => Err(e),
            Ok((s7, new_v)) => match lower_stmts(prog, s7, statements, 0, ret_ty, is_main) {
                Err(e) => Err(e),
                Ok(s8) => loop_exit(prog, s8, new_v, ty, to, s7.blks.len() - 2),
            },
        },
        StmtV::Conditional { condition, ifbranch, elsebranch } => match lower_expr(
            prog,
            s,
            condition,
            0,
        ) {
            Err(e) => Err(e),
            Ok((s1, c1, _)) => match close_branch(
                lower_stmts(prog, open_branch(s1), ifbranch, 0, ret_ty, is_main),
            ) {
                Err(e) => Err(e),
                Ok(s4) => match close_branch(
                    lower_stmts(prog, open_branch(s4), elsebranch, 0, ret_ty, is_main),
                ) {
                    Err(e) => Err(e),
                    Ok(s7) => Ok(cond_close(s7, c1, s1.blks.len() - 1, s4.blks.len() - 1)),
                },
            },
        },
        StmtV::Definition { lhs, expression } => lower_definition(prog, s, lhs, expression),
    }
}

/// The lowering of the statements from the `i`-th on, in order.
pub open spec fn lower_stmts(
    prog: ProgV,
    s: LowerStateV,
    sts: Seq<StmtV>,
    i: int,
    ret_ty: Type,
    is_main: bool,
) -> Result<LowerStateV, Error>
    decreases sts, sts.len() - i,
{
    if i < 0 || i >= sts.len() {
        Ok(s)
    } else {
        match lower_stmt(prog, s, sts[i], ret_ty, is_main) {
            Err(e) => Err(e),
            Ok(s1) => lower_stmts(prog, s1, sts, i + 1, ret_ty, is_main),
        }
    }
}

/// The state after the parameters from the `i`-th on are declared: each
/// has its type in the function's scope and index 0 in the scope table.
pub open spec fn declare_params(s: LowerStateV, params: Seq<ParamV>, i: int) -> Result<
    LowerStateV,
    Error,
>
    decreases params.len() - i,
{
    if i < 0 || i >= params.len() {
        Ok(s)
    } else {
        match ty_of_type(params[i].ty) {
            Err(e) => Err(e),
            Ok(t) => declare_params(
                s.with_cvars(cvar_declare_spec(s.cvars, params[i].id, t)).with_scope(
                    s.scope.insert(params[i].id, (0usize, false)),
                ),
                params,
                i + 1,
            ),
        }
    }
}

/// The state in which the lowering of a function starts: the blocks so
/// far and the function's first block, no pending offset, an empty ledger
/// and scope table, and one empty scope.
pub open spec fn function_start(s: LowerStateV) -> LowerStateV {
    LowerStateV {
        blks: s.blks,
        sp_offset: 0,
        ledger: Seq::empty(),
        scope: Map::empty(),
        cvars: seq![Seq::empty()],
    }.new_block()
}

/// The lowering of the `k`-th function of the program. An embedded
/// intrinsic gives no blocks.
pub open spec fn lower_function(prog: ProgV, s: LowerStateV, k: int, is_main: bool) -> Result<
    LowerStateV,
    Error,
> {
    let f = prog.functions[k];
    if prog.is_embed(f.id) {
        Ok(s)
    } else if f.generics != 0 || f.returns.len() != 1 {
        Err(Error::Unsupported)
    } else {
        match declare_params(function_prologue(function_start(s), is_main), f.parameters, 0) {
            Err(e) => Err(e),
            Ok(s2) => match lower_stmts(prog, s2, f.statements, 0, f.returns[0], is_main) {
                Err(e) => Err(e),
                Ok(s3) => Ok(s3.set_terminator(s3.blks.len() - 1, exit_term(is_main))),
            },
        }
    }
}

/// `field reg = 0`.
pub open spec fn init_stmt(reg: Seq<char>) -> StmtV {
    StmtV::Definition { lhs: decl_lhs(Type::Field, reg), expression: field_lit(0) }
}

/// The state after the first block of `main` has set `%RP`, `%SP` and
/// `%BP` to 0; the state itself for any other function.
pub open spec fn function_prologue(s: LowerStateV, is_main: bool) -> LowerStateV {
    if is_main {
        s.push_instr(ContentV::Stmt(init_stmt(reg_rp()))).push_instr(
            ContentV::Stmt(init_stmt(reg_sp())),
        ).push_instr(ContentV::Stmt(init_stmt(reg_bp())))
    } else {
        s
    }
}

/// The state in which the lowering of a program starts: no blocks yet.
pub open spec fn entry_state() -> LowerStateV {
    LowerStateV {
        blks: Seq::empty(),
        sp_offset: 0,
        ledger: Seq::empty(),
        scope: Map::empty(),
        cvars: seq![Seq::empty()],
    }
}

/// The lowering of the functions from the `i`-th on, but for the entry
/// function `n`, together with the label of the first block of each.
pub open spec fn lower_rest(
    prog: ProgV,
    s: LowerStateV,
    n: Seq<char>,
    i: int,
    entries: Map<Seq<char>, usize>,
) -> Result<(LowerStateV, Map<Seq<char>, usize>), Error>
    decreases prog.functions.len() - i,
{
    if i < 0 || i >= prog.functions.len() {
        Ok((s, entries))
    } else if prog.functions[i].id == n {
        lower_rest(prog, s, n, i + 1, entries)
    } else {
        match lower_function(prog, s, i, false) {
            Err(e) => Err(e),
            Ok(s1) => lower_rest(
                prog,
                s1,
                n,
                i + 1,
                entries.insert(prog.functions[i].id, s.blks.len() as usize),
            ),
        }
    }
}

/// The terminator `t` with a call by name turned into a transition to the
/// callee's first block.
pub open spec fn resolved_term(t: TermV, entries: Map<Seq<char>, usize>, n: int) -> Result<
    TermV,
    Error,
> {
    match t {
        TermV::FuncCall(name) => if entries.contains_key(name) && entries[name] < n {
            Ok(TermV::Transition(coda_expr(NextBlock::Label(entries[name]))))
        } else {
            Err(Error::UndefinedBeforeUse)
        },
        _ => Ok(t),
    }
}

/// The block `b` with its terminator resolved.
pub open spec fn resolved_block(b: BlockV, entries: Map<Seq<char>, usize>, n: int) -> BlockV {
    BlockV {
        name: b.name,
        inputs: b.inputs,
        instructions: b.instructions,
        terminator: match resolved_term(b.terminator, entries, n) {
            Ok(t) => t,
            Err(_) => b.terminator,
        },
    }
}

/// The blocks with every call by name resolved, where each callee has an
/// entry.
pub open spec fn resolve_calls(blks: Seq<BlockV>, entries: Map<Seq<char>, usize>) -> Result<
    Seq<BlockV>,
    Error,
> {
    if forall|i: int|
        0 <= i < blks.len() ==> resolved_term(
            (#[trigger] blks[i]).terminator,
            entries,
            blks.len() as int,
        ) is Ok {
        Ok(Seq::new(blks.len(), |i: int| resolved_block(blks[i], entries, blks.len() as int)))
    } else {
        Err(Error::UndefinedBeforeUse)
    }
}

/// The program once every function is lowered: its blocks with their
/// calls resolved, and the entry label 0.
pub open spec fn finish_program(r: Result<(LowerStateV, Map<Seq<char>, usize>), Error>) -> Result<
    (Seq<BlockV>, usize),
    Error,
> {
    match r {
        Err(e) => Err(e),
        Ok((s, entries)) => match resolve_calls(s.blks, entries) {
            Err(e) => Err(e),
            Ok(blks) => Ok((blks, 0usize)),
        },
    }
}

/// The block program of the source program whose entry function is `n`,
/// with its entry label.
///
/// Block 0 sets up the registers. The entry function, which takes no
/// parameters, is lowered as `main`; the other functions follow in
/// declaration order; and every call is resolved to the first block of its
/// callee.
pub open spec fn lower_program(prog: ProgV, n: Seq<char>) -> Result<(Seq<BlockV>, usize), Error> {
    match prog.find_function(n) {
        None => Err(Error::UndefinedBeforeUse),
        Some(k) => {
            let f = prog.functions[k];
            if f.generics != 0 || f.parameters.len() != 0 || prog.is_embed(n) {
                Err(Error::Unsupported)
            } else {
                match lower_function(prog, entry_state(), k, true) {
                    Err(e) => Err(e),
                    Ok(s1) => finish_program(
                        lower_rest(prog, s1, n, 0, Map::empty().insert(n, 0usize)),
                    ),
                }
            }
        },
    }
}

/// Every block is named by its place, no block ends in a call by name,
/// and every literal label of a terminator is the label of a block.
pub open spec fn program_ok(blks: Seq<BlockV>) -> bool {
    forall|i: int|
        0 <= i < blks.len() ==> (#[trigger] blks[i]).name == i && terminator_resolved(
            blks[i].terminator,
            blks.len() as int,
        )
}

/// `ret_ty %RET = e`.
fn make_ret_stmt(ret_ty: Type, e: Expression) -> (r: Statement)
    ensures
        r@ == ret_stmt(ret_ty, e@),
{
    Statement::declare(ret_ty, String::from_str("%RET"), e)
}

/// How a function ends.
fn make_exit_term(is_main: bool) -> (r: BlockTerminator)
    ensures
        r@ == exit_term(is_main),
{
    if is_main {
        BlockTerminator::ProgTerm()
    } else {
        BlockTerminator::Transition(bl_coda(NextBlock::Rp()))
    }
}

/// `v = v + 1`.
fn make_step_stmt(v: &String, ty: Type) -> (r: Statement)
    requires
        is_numeric(ty),
    ensures
        r@ == step_stmt(v@, ty),
{
    Statement::assign(
        v.clone(),
        Expression::binary(
            BinaryOperator::Add,
            Expression::ident(v.clone()),
            Expression::literal(LiteralExpression::DecimalLiteral(1, Some(ty_to_dec_suffix(ty)))),
        ),
    )
}

/// `field reg = 0`.
fn make_init_stmt(reg: &str) -> (r: Statement)
    ensures
        r@ == init_stmt(reg@),
{
    Statement::declare(Type::Field, String::from_str(reg), field_literal(0))
}

impl ZGen {
    /// Lowers `return es`.
    pub fn bl_gen_return_(
        &self,
        st: &mut LowerState,
        es: &Vec<Expression>,
        ret_ty: Type,
        is_main: bool,
    ) -> (r: Result<(), Error>)
        requires
            old(st)@.wf(),
        ensures
            match r {
                Ok(_) => yields(
                    lower_return(self@, old(st)@, crate::ast::exprs_view(es@), ret_ty, is_main),
                    final(st)@,
                ) && final(st)@.wf() && final(st)@.follows(old(st)@),
                Err(e) => fails(
                    lower_return(self@, old(st)@, crate::ast::exprs_view(es@), ret_ty, is_main),
                    e,
                ),
            },
    {
        if es.len() != 1 {
            return Err(Error::Unsupported);
        }
        let (e1, _) = self.bl_gen_expr_(st, &es[0], 0)?;
        st.push_stmt(make_ret_stmt(ret_ty, e1));
        if !is_main {
            st.bl_gen_return_scope_();
        }
        proof {
            lemma_coda_leaves(NextBlock::Rp());
        }
        let last = st.blks.len() - 1;
        st.set_terminator(last, make_exit_term(is_main));
        st.new_block();
        Ok(())
    }

    /// The head of a loop.
    pub fn bl_gen_loop_enter_(
        &self,
        st: &mut LowerState,
        ty: Type,
        index: &String,
        from: &Expression,
    ) -> (r: Result<String, Error>)
        requires
            old(st)@.wf(),
        ensures
            match r {
                Ok(new_v) => yields(
                    loop_enter(self@, old(st)@, ty, index@, from@),
                    (final(st)@, new_v@),
                ) && final(st)@.wf() && final(st)@.blks.len() > old(st)@.blks.len()
                    && final(st)@.ledger.len() == old(st)@.ledger.len() + 2 && is_numeric(ty),
                Err(e) => fails(loop_enter(self@, old(st)@, ty, index@, from@), e),
            },
    {
        st.bl_gen_enter_scope_();
        st.bl_gen_scoping_(index, false)?;
        let t = type_impl_(ty)?;
        let numeric = match ty {
            Type::Field | Type::U8 | Type::U16 | Type::U32 | Type::U64 => true,
            _ => false,
        };
        if !numeric {
            return Err(Error::Unsupported);
        }
        st.declare(index.clone(), t);
        let (from1, _) = self.bl_gen_expr_(st, from, 0)?;
        let new_v = bl_gen_unroll_scope(true, index.as_str(), &mut st.var_scope_info)?;
        st.push_stmt(Statement::declare(ty, new_v.clone(), from1));
        st.bl_gen_enter_scope_();
        st.new_block();
        Ok(new_v)
    }

    /// The tail of a loop.
    pub fn bl_gen_loop_exit_(
        &self,
        st: &mut LowerState,
        new_v: &String,
        ty: Type,
        to: &Expression,
        old_state: usize,
    ) -> (r: Result<(), Error>)
        requires
            old(st)@.wf(),
            old(st)@.ledger.len() >= 2,
            old_state + 1 < old(st)@.blks.len(),
            is_numeric(ty),
        ensures
            match r {
                Ok(_) => yields(
                    loop_exit(self@, old(st)@, new_v@, ty, to@, old_state as int),
                    final(st)@,
                ) && final(st)@.wf() && final(st)@.blks.len() >= old(st)@.blks.len()
                    && final(st)@.ledger.len() == old(st)@.ledger.len() - 2,
                Err(e) => fails(loop_exit(self@, old(st)@, new_v@, ty, to@, old_state as int), e),
            },
    {
        st.bl_gen_exit_scope_()?;
        st.push_stmt(make_step_stmt(new_v, ty));
        let (to1, _) = self.bl_gen_expr_(st, to, 0)?;
        let new_state = st.blks.len() - 1;
        let ghost guard = loop_guard(new_v@, to1@);
        let ghost tval = NextBlock::Label((old_state + 1) as usize);
        let ghost fval = NextBlock::Label((new_state + 1) as usize);
        proof {
            lemma_trans_leaves(guard, tval, fval);
        }
        let term1 = BlockTerminator::Transition(
            bl_trans(
                cond_expr(new_v.as_str(), to1.dup()),
                NextBlock::Label(old_state + 1),
                NextBlock::Label(new_state + 1),
            ),
        );
        let term2 = BlockTerminator::Transition(
            bl_trans(
                cond_expr(new_v.as_str(), to1),
                NextBlock::Label(old_state + 1),
                NextBlock::Label(new_state + 1),
            ),
        );
        st.set_terminator(new_state, term1);
        st.set_terminator(old_state, term2);
        st.new_block();
        st.bl_gen_exit_scope_()
    }

    /// The end of a conditional.
    pub fn bl_gen_cond_close_(
        &self,
        st: &mut LowerState,
        cond: Expression,
        head: usize,
        if_tail: usize,
    )
        requires
            old(st)@.wf(),
            head < if_tail < old(st)@.blks.len(),
        ensures
            final(st)@ == cond_close(old(st)@, cond@, head as int, if_tail as int),
            final(st)@.wf(),
            final(st)@.follows(old(st)@),
    {
        let len = st.blks.len();
        proof {
            lemma_trans_leaves(
                cond@,
                NextBlock::Label((head + 1) as usize),
                NextBlock::Label((if_tail + 1) as usize),
            );
            lemma_coda_leaves(NextBlock::Label(len));
        }
        st.set_terminator(
            head,
            BlockTerminator::Transition(
                bl_trans(cond, NextBlock::Label(head + 1), NextBlock::Label(if_tail + 1)),
            ),
        );
        st.set_terminator(if_tail, BlockTerminator::Transition(bl_coda(NextBlock::Label(len))));
        st.new_block();
    }

    /// Lowers the definition `lhs = expression`.
    pub fn bl_gen_definition_(
        &self,
        st: &mut LowerState,
        lhs: &Vec<TypedIdentifierOrAssignee>,
        expression: &Expression,
    ) -> (r: Result<(), Error>)
        requires
            old(st)@.wf(),
        ensures
            match r {
                Ok(_) => yields(
                    lower_definition(self@, old(st)@, lhs_view(lhs@), expression@),
                    final(st)@,
                ) && final(st)@.wf() && final(st)@.follows(old(st)@),
                Err(e) => fails(
                    lower_definition(self@, old(st)@, lhs_view(lhs@), expression@),
                    e,
                ),
            },
    {
        if lhs.len() > 1 {
            return Err(Error::Unsupported);
        }
        let (rhs, _) = self.bl_gen_expr_(st, expression, 0)?;
        let e_ty = self.expr_type(&st.cvars, expression)?;
        if lhs.len() == 0 {
            let none: Vec<TypedIdentifierOrAssignee> = Vec::new();
            assert(lhs_view(none@) =~= Seq::empty());
            st.push_stmt(Statement::definition(none, rhs));
            return Ok(());
        }
        match &lhs[0] {
            TypedIdentifierOrAssignee::Assignee(name) => {
                if cvar_lookup(&st.cvars, name).is_none() {
                    return Err(Error::UndefinedBeforeUse);
                }
                let new_l = bl_gen_unroll_scope(false, name.as_str(), &mut st.var_scope_info)?;
                let t = ty_to_type(e_ty)?;
                st.push_stmt(Statement::declare(t, new_l, rhs));
                Ok(())
            },
            TypedIdentifierOrAssignee::TypedIdentifier(ty, name) => {
                let decl_ty = type_impl_(*ty)?;
                if decl_ty != e_ty {
                    return Err(Error::TypeMismatch);
                }
                st.bl_gen_scoping_(name, false)?;
                st.declare(name.clone(), decl_ty);
                let new_l = bl_gen_unroll_scope(true, name.as_str(), &mut st.var_scope_info)?;
                st.push_stmt(Statement::declare(*ty, new_l, rhs));
                Ok(())
            },
            TypedIdentifierOrAssignee::IndexedAssignee(_) => Err(Error::Unsupported),
        }
    }

    /// Lowers the statement `s` of a function that returns `ret_ty`.
    pub fn bl_gen_stmt_(&self, st: &mut LowerState, s: &Statement, ret_ty: Type, is_main: bool) -> (r:
        Result<(), Error>)
        requires
            old(st)@.wf(),
        ensures
            match r {
                Ok(_) => yields(lower_stmt(self@, old(st)@, s@, ret_ty, is_main), final(st)@)
                    && final(st)@.wf() && final(st)@.follows(old(st)@),
                Err(e) => fails(lower_stmt(self@, old(st)@, s@, ret_ty, is_main), e),
            },
        decreases s, 0nat,
    {
        match s {
            Statement::Return(es) => self.bl_gen_return_(st, es, ret_ty, is_main),
            Statement::Assertion(e) => {
                let (e1, _) = self.bl_gen_expr_(st, e, 0)?;
                st.push_stmt(Statement::assertion(e1));
                Ok(())
            },
            Statement::Iteration { ty, index, from, to, statements } => {
                let new_v = self.bl_gen_loop_enter_(st, *ty, index, from)?;
                let old_state = st.blks.len() - 2;
                self.bl_gen_stmts_(st, statements, ret_ty, is_main)?;
                self.bl_gen_loop_exit_(st, &new_v, *ty, to, old_state)
            },
            Statement::Conditional { condition, ifbranch, elsebranch } => {
                let (c1, _) = self.bl_gen_expr_(st, condition, 0)?;
                let head = st.blks.len() - 1;
                self.bl_gen_branch_(st, ifbranch, ret_ty, is_main)?;
                let if_tail = st.blks.len() - 1;
                self.bl_gen_branch_(st, elsebranch, ret_ty, is_main)?;
                self.bl_gen_cond_close_(st, c1, head, if_tail);
                Ok(())
            },
            Statement::Definition { lhs, expression } => self.bl_gen_definition_(
                st,
                lhs,
                expression,
            ),
        }
    }

    /// Lowers one branch of a conditional: its scope, its first block and
    /// its statements.
    pub fn bl_gen_branch_(
        &self,
        st: &mut LowerState,
        stmts: &Vec<Statement>,
        ret_ty: Type,
        is_main: bool,
    ) -> (r: Result<(), Error>)
        requires
            old(st)@.wf(),
        ensures
            match r {
                Ok(_) => yields(
                    close_branch(
                        lower_stmts(
                            self@,
                            open_branch(old(st)@),
                            stmts_view(stmts@),
                            0,
                            ret_ty,
                            is_main,
                        ),
                    ),
                    final(st)@,
                ) && final(st)@.wf() && final(st)@.ledger.len() == old(st)@.ledger.len()
                    && final(st)@.blks.len() > old(st)@.blks.len(),
                Err(e) => fails(
                    close_branch(
                        lower_stmts(
                            self@,
                            open_branch(old(st)@),
                            stmts_view(stmts@),
                            0,
                            ret_ty,
                            is_main,
                        ),
                    ),
                    e,
                ),
            },
        decreases stmts, 1nat,
    {
        st.bl_gen_enter_scope_();
        st.new_block();
        self.bl_gen_stmts_(st, stmts, ret_ty, is_main)?;
        st.bl_gen_exit_scope_()
    }

    /// Lowers the statements `stmts` in order.
    pub fn bl_gen_stmts_(
        &self,
        st: &mut LowerState,
        stmts: &Vec<Statement>,
        ret_ty: Type,
        is_main: bool,
    ) -> (r: Result<(), Error>)
        requires
            old(st)@.wf(),
        ensures
            match r {
                Ok(_) => yields(
                    lower_stmts(self@, old(st)@, stmts_view(stmts@), 0, ret_ty, is_main),
                    final(st)@,
                ) && final(st)@.wf() && final(st)@.follows(old(st)@),
                Err(e) => fails(
                    lower_stmts(self@, old(st)@, stmts_view(stmts@), 0, ret_ty, is_main),
                    e,
                ),
            },
        decreases stmts, 0nat,
    {
        let ghost sv = stmts_view(stmts@);
        let mut i: usize = 0;
        while i < stmts.len()
            invariant
                i <= stmts.len(),
                sv == stmts_view(stmts@),
                st@.wf(),
                st@.follows(old(st)@),
                lower_stmts(self@, old(st)@, sv, 0, ret_ty, is_main) == lower_stmts(
                    self@,
                    st@,
                    sv,
                    i as int,
                    ret_ty,
                    is_main,
                ),
            decreases stmts.len() - i,
        {
            proof {
                broadcast use vstd::std_specs::vec::axiom_vec_index_decreases;

                assert(decreases_to!(stmts => stmts[i as int]));
            }
            match self.bl_gen_stmt_(st, &stmts[i], ret_ty, is_main) {
                Err(e) => {
                    return Err(e);
                },
                Ok(_) => {},
            }
            i += 1;
        }
        Ok(())
    }

    /// Lowers the `k`-th function of the program: as `main` when
    /// `is_main`, else as a function that returns to its caller.
    pub fn bl_gen_function_init_(&self, st: &mut LowerState, k: usize, is_main: bool) -> (r: Result<
        (),
        Error,
    >)
        requires
            k < self.functions.len(),
            old(st)@.labels_loose(),
        ensures
            match r {
                Ok(_) => yields(lower_function(self@, old(st)@, k as int, is_main), final(st)@)
                    && final(st)@.blks.len() >= old(st)@.blks.len() && (old(st)@.labels_closed()
                    || !self@.is_embed(self@.functions[k as int].id) ==> final(
                    st)@.labels_closed()) && (!self@.is_embed(self@.functions[k as int].id)
                    ==> final(st)@.blks.len() > old(st)@.blks.len()),
                Err(e) => fails(lower_function(self@, old(st)@, k as int, is_main), e),
            },
    {
        let f = &self.functions[k];
        if self.is_embed(&f.id) {
            return Ok(());
        }
        if f.generics.len() != 0 || f.returns.len() != 1 {
            return Err(Error::Unsupported);
        }
        st.sp_offset = 0;
        st.func_phy_assign = Vec::new();
        st.var_scope_info = StringHashMap::new();
        st.cvars = Vec::new();
        st.cvars.push(Vec::new());
        assert(st@.ledger =~~= Seq::empty());
        assert(st@.cvars =~~= seq![Seq::empty()]);
        st.new_block();
        if is_main {
            st.push_stmt(make_init_stmt("%RP"));
            st.push_stmt(make_init_stmt("%SP"));
            st.push_stmt(make_init_stmt("%BP"));
        }
        let ghost s1 = st@;
        let ghost pv = self@.functions[k as int].parameters;
        let mut i: usize = 0;
        while i < f.parameters.len()
            invariant
                i <= f.parameters.len(),
                *f == self.functions@[k as int],
                k < self.functions@.len(),
                pv == self@.functions[k as int].parameters,
                st@.wf(),
                st@.blks == s1.blks,
                st@.ledger == s1.ledger,
                s1 == function_prologue(function_start(old(st)@), is_main),
                !self@.is_embed(self@.functions[k as int].id),
                self@.functions[k as int].generics == 0,
                self@.functions[k as int].returns.len() == 1,
                declare_params(s1, pv, 0) == declare_params(st@, pv, i as int),
            decreases f.parameters.len() - i,
        {
            let t = type_impl_(f.parameters[i].ty)?;
            st.declare(f.parameters[i].id.clone(), t);
            st.var_scope_info.insert(f.parameters[i].id.clone(), (0, false));
            i += 1;
        }
        self.bl_gen_stmts_(st, &f.statements, f.returns[0], is_main)?;
        proof {
            lemma_coda_leaves(NextBlock::Rp());
        }
        let last = st.blks.len() - 1;
        st.set_terminator(last, make_exit_term(is_main));
        Ok(())
    }

    /// Lowers the program whose entry function is `n` to blocks, and gives
    /// the label of the entry block.
    pub fn bl_gen_const_entry_fn(&self, n: &str) -> (r: Result<(Vec<Block>, usize), Error>)
        ensures
            match r {
                Ok((blks, entry)) => yields(
                    lower_program(self@, n@),
                    (blocks_view(blks@), entry),
                ) && program_ok(blocks_view(blks@)) && entry == 0 && blks.len() > 0,
                Err(e) => fails(lower_program(self@, n@), e),
            },
    {
        let name = String::from_str(n);
        let k = match self.find_function(&name) {
            None => {
                return Err(Error::UndefinedBeforeUse);
            },
            Some(k) => k,
        };
        let f = &self.functions[k];
        if f.generics.len() != 0 || f.parameters.len() != 0 || self.is_embed(&name) {
            return Err(Error::Unsupported);
        }
        let mut cvars: Vec<Vec<(String, crate::ast::Ty)>> = Vec::new();
        cvars.push(Vec::new());
        let mut st = LowerState {
            blks: Vec::new(),
            sp_offset: 0,
            func_phy_assign: Vec::new(),
            var_scope_info: StringHashMap::new(),
            cvars,
        };
        proof {
            assert(st@.blks =~= Seq::empty());
            assert(st@.ledger =~~= Seq::empty());
            assert(st@.cvars =~~= seq![Seq::empty()]);
        }
        assert(st@ == entry_state());
        proof {
            crate::zgen::lemma_find_function_from(self@.functions, n@, 0);
        }
        self.bl_gen_function_init_(&mut st, k, true)?;
        let ghost s1 = st@;
        let mut entries: StringHashMap<usize> = StringHashMap::new();
        entries.insert(name.clone(), 0);
        let mut i: usize = 0;
        while i < self.functions.len()
            invariant
                i <= self.functions.len(),
                name@ == n@,
                st@.blks.len() > 0,
                st@.labels_closed(),
                lower_program(self@, n@) == finish_program(
                    lower_rest(self@, s1, n@, 0, Map::empty().insert(n@, 0usize)),
                ),
                lower_rest(self@, s1, n@, 0, Map::empty().insert(n@, 0usize)) == lower_rest(
                    self@,
                    st@,
                    n@,
                    i as int,
                    entries@,
                ),
            decreases self.functions.len() - i,
        {
            if self.functions[i].id != name {
                let label = st.blks.len();
                match self.bl_gen_function_init_(&mut st, i, false) {
                    Err(e) => {
                        return Err(e);
                    },
                    Ok(_) => {},
                }
                entries.insert(self.functions[i].id.clone(), label);
            }
            i += 1;
        }
        let ghost s2 = st@;
        let LowerState { blks, sp_offset: _, func_phy_assign: _, var_scope_info: _, cvars: _ } = st;
        let mut blks = blks;
        let len = blks.len();
        let mut j: usize = 0;
        while j < len
            invariant
                j <= len,
                len == blks.len(),
                len == s2.blks.len(),
                s2.labels_closed(),
                lower_program(self@, n@) == finish_program(
                    Ok::<(LowerStateV, Map<Seq<char>, usize>), Error>((s2, entries@)),
                ),
                forall|i: int|
                    0 <= i < j ==> resolved_term(
                        (#[trigger] s2.blks[i]).terminator,
                        entries@,
                        len as int,
                    ) is Ok,
                forall|i: int|
                    0 <= i < j ==> (#[trigger] blks@[i])@ == resolved_block(
                        s2.blks[i],
                        entries@,
                        len as int,
                    ),
                forall|i: int| j <= i < len ==> (#[trigger] blks@[i])@ == s2.blks[i],
            decreases len - j,
        {
            let target: Option<Option<usize>> = match &blks[j].terminator {
                BlockTerminator::FuncCall(f_name) => match entries.get(f_name.as_str()) {
                    Some(l) => Some(Some(*l)),
                    None => Some(None),
                },
                _ => None,
            };
            match target {
                Some(Some(l)) => {
                    if l < len {
                        blks[j].terminator = BlockTerminator::Transition(
                            bl_coda(NextBlock::Label(l)),
                        );
                    } else {
                        assert(!(resolved_term(s2.blks[j as int].terminator, entries@, len as int) is Ok));
                        return Err(Error::UndefinedBeforeUse);
                    }
                },
                Some(None) => {
                    assert(!(resolved_term(s2.blks[j as int].terminator, entries@, len as int) is Ok));
                    return Err(Error::UndefinedBeforeUse);
                },
                None => {},
            }
            j += 1;
        }
        proof {
            let out = blocks_view(blks@);
            assert(out =~= resolve_calls(s2.blks, entries@)->Ok_0);
            assert forall|i: int| 0 <= i < out.len() implies (#[trigger] out[i]).name == i
                && terminator_resolved(out[i].terminator, out.len() as int) by {
                let b = s2.blks[i];
                assert(out[i] == resolved_block(b, entries@, len as int));
                assert(targets_ok_at(s2, i));
                match b.terminator {
                    TermV::FuncCall(name) => {
                        lemma_coda_leaves(NextBlock::Label(entries@[name]));
                    },
                    _ => {},
                }
            }
        }
        Ok((blks, 0))
    }
}

/// Block `i` of a state with closed labels is named `i`, and its
/// terminator yields labels of blocks that exist.
pub open spec fn targets_ok_at(s: LowerStateV, i: int) -> bool {
    s.blks[i].name == i && crate::blocks::targets_below(s.blks[i].terminator, s.blks.len() as int)
}

} // verus!
