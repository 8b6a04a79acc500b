//! Lowering of expressions: every identifier gets its scope-qualified name,
//! and every call is hoisted into the blocks, its result left in a scratch
//! register `%RET<k>`.

use crate::ast::{
    assign_lhs, decl_lhs, exprs_view, ExprV, Expression, ParamV, Parameter, Statement, StmtV, Type,
};
use crate::blocks::{
    fails, field_lit, field_literal, yields, BlockTerminator, ContentV, Error, TermV,
};
use crate::names::{numbered, numbered_name, reg_arg, reg_ret, reg_rp, scoped, scoped_name};
use crate::scope::{
    bl_gen_unroll_scope, collect_live_names, insert_name, live_names, sorted_insert, unroll_scope,
    ScopeV,
};
use crate::state::{LowerState, LowerStateV};
use crate::zgen::{ProgV, ZGen};
use vstd::prelude::*;
use vstd::string::*;

verus! {

/// The state after each name from the `i`-th on is spilled for a call.
pub open spec fn spill_all(s: LowerStateV, names: Seq<Seq<char>>, i: int) -> Result<
    LowerStateV,
    Error,
>
    decreases names.len() - i,
{
    if i < 0 || i >= names.len() {
        Ok(s)
    } else {
        match s.spill(names[i], true) {
            Err(e) => Err(e),
            Ok(s1) => spill_all(s1, names, i + 1),
        }
    }
}

/// `acc` with the scratch registers `%RET0` to `%RET<k-1>` put in.
pub open spec fn with_ret_names(acc: Seq<Seq<char>>, k: int) -> Seq<Seq<char>>
    decreases k,
{
    if k <= 0 {
        acc
    } else {
        sorted_insert(with_ret_names(acc, k - 1), numbered_name(reg_ret(), (k - 1) as nat))
    }
}

/// What a call spills: every name declared in the function and every
/// scratch register that the statement has made so far, sorted, each once.
pub open spec fn call_spill_names(cvars: Seq<ScopeV>, func_count: usize) -> Seq<Seq<char>> {
    with_ret_names(live_names(cvars), func_count as int)
}

/// `ty %ARG<i> = a`: the `i`-th argument goes to its argument register.
pub open spec fn arg_stmt(p: ParamV, i: int, a: ExprV) -> StmtV {
    StmtV::Definition { lhs: decl_lhs(p.ty, numbered_name(reg_arg(), i as nat)), expression: a }
}

/// `ty p@0 = %ARG<i>`: the `i`-th parameter takes its argument register.
pub open spec fn param_stmt(p: ParamV, i: int) -> StmtV {
    StmtV::Definition {
        lhs: decl_lhs(p.ty, scoped_name(p.id, 0)),
        expression: ExprV::Identifier(numbered_name(reg_arg(), i as nat)),
    }
}

/// `%RP = label`.
pub open spec fn rp_update_stmt(label: usize) -> StmtV {
    StmtV::Definition { lhs: assign_lhs(reg_rp()), expression: field_lit(label as u64) }
}

/// `ty %RET<k> = %RET`: the result of a call goes to its scratch register.
pub open spec fn ret_save_stmt(ty: Type, k: usize) -> StmtV {
    StmtV::Definition {
        lhs: decl_lhs(ty, numbered_name(reg_ret(), k as nat)),
        expression: ExprV::Identifier(reg_ret()),
    }
}

/// The state after the arguments from the `i`-th on went to their argument
/// registers.
pub open spec fn pass_args(s: LowerStateV, params: Seq<ParamV>, args: Seq<ExprV>, i: int) -> LowerStateV
    decreases params.len() - i,
{
    if i < 0 || i >= params.len() || i >= args.len() {
        s
    } else {
        pass_args(
            s.push_instr(ContentV::Stmt(arg_stmt(params[i], i, args[i]))),
            params,
            args,
            i + 1,
        )
    }
}

/// The state after the parameters from the `i`-th on took their argument
/// registers.
pub open spec fn bind_params(s: LowerStateV, params: Seq<ParamV>, i: int) -> LowerStateV
    decreases params.len() - i,
{
    if i < 0 || i >= params.len() {
        s
    } else {
        bind_params(s.push_instr(ContentV::Stmt(param_stmt(params[i], i))), params, i + 1)
    }
}

/// The state after the call of `f_name` with the lowered arguments `args`
/// is emitted: the arguments are handed over in two phases, `%RP` is set to
/// the label of the block that follows, the block ends in the call, and
/// the block that follows is opened.
pub open spec fn function_call(prog: ProgV, s: LowerStateV, args: Seq<ExprV>, f_name: Seq<char>) -> Result<
    LowerStateV,
    Error,
> {
    match prog.find_function(f_name) {
        None => Err(Error::UndefinedBeforeUse),
        Some(k) => {
            let f = prog.functions[k];
            if prog.is_embed(f_name) {
                Ok(s)
            } else if f.returns.len() > 1 || f.generics != 0 {
                Err(Error::Unsupported)
            } else if f.parameters.len() != args.len() {
                Err(Error::TypeMismatch)
            } else {
                let s1 = bind_params(pass_args(s, f.parameters, args, 0), f.parameters, 0);
                Ok(
                    s1.push_instr(
                        ContentV::Stmt(rp_update_stmt(s1.blks.len() as usize)),
                    ).set_terminator(s1.blks.len() - 1, TermV::FuncCall(f_name)).new_block(),
                )
            }
        },
    }
}

/// The lowering of the call `f(args)`, whose arguments are lowered
/// already, as the `func_count`-th call of its statement.
///
/// A scope is entered; every live name, every scratch register made so
/// far and `%RP` are spilled; the call is emitted; its result goes to
/// `%RET<func_count>`, which stands for the call from then on; and the
/// scope is left, which restores what was spilled.
pub open spec fn lower_call(
    prog: ProgV,
    s: LowerStateV,
    f: Seq<char>,
    args: Seq<ExprV>,
    func_count: usize,
) -> Result<(LowerStateV, ExprV, usize), Error> {
    if func_count == usize::MAX {
        Err(Error::Unsupported)
    } else {
        let s2 = s.enter_scope();
        match spill_all(s2, call_spill_names(s2.cvars, func_count), 0) {
            Err(e) => Err(e),
            Ok(s3) => match s3.spill(reg_rp(), true) {
                Err(e) => Err(e),
                Ok(s4) => match function_call(prog, s4.flush_sp(), args, f) {
                    Err(e) => Err(e),
                    Ok(s6) => {
                        let func = prog.functions[prog.find_function(f)->Some_0];
                        if func.returns.len() == 0 {
                            Err(Error::Unsupported)
                        } else {
                            match s6.push_instr(
                                ContentV::Stmt(ret_save_stmt(func.returns[0], func_count)),
                            ).exit_scope() {
                                Err(e) => Err(e),
                                Ok(s8) => Ok(
                                    (
                                        s8,
                                        ExprV::Identifier(
                                            numbered_name(reg_ret(), func_count as nat),
                                        ),
                                        (func_count + 1) as usize,
                                    ),
                                ),
                            }
                        }
                    },
                },
            },
        }
    }
}

/// The lowering of the expression `e`: the state afterwards, the
/// expression that stands for `e` from then on, and the number of calls
/// that the statement has made.
///
/// A call to an embedded intrinsic is left as it is. Arrays and structs
/// are not supported.
pub open spec fn lower_expr(prog: ProgV, s: LowerStateV, e: ExprV, func_count: usize) -> Result<
    (LowerStateV, ExprV, usize),
    Error,
>
    decreases e,
{
    match e {
        ExprV::Ternary(a, b, c) => match lower_expr(prog, s, *a, func_count) {
            Err(err) => Err(err),
            Ok((s1, a1, f1)) => match lower_expr(prog, s1, *b, f1) {
                Err(err) => Err(err),
                Ok((s2, b1, f2)) => match lower_expr(prog, s2, *c, f2) {
                    Err(err) => Err(err),
                    Ok((s3, c1, f3)) => Ok(
                        (s3, ExprV::Ternary(Box::new(a1), Box::new(b1), Box::new(c1)), f3),
                    ),
                },
            },
        },
        ExprV::Binary(op, l, r) => match lower_expr(prog, s, *l, func_count) {
            Err(err) => Err(err),
            Ok((s1, l1, f1)) => match lower_expr(prog, s1, *r, f1) {
                Err(err) => Err(err),
                Ok((s2, r1, f2)) => Ok((s2, ExprV::Binary(op, Box::new(l1), Box::new(r1)), f2)),
            },
        },
        ExprV::Unary(op, x) => match lower_expr(prog, s, *x, func_count) {
            Err(err) => Err(err),
            Ok((s1, x1, f1)) => Ok((s1, ExprV::Unary(op, Box::new(x1)), f1)),
        },
        ExprV::Call(f, args) => if prog.is_embed(f) {
            Ok((s, e, func_count))
        } else {
            match lower_args(prog, s, args, 0, func_count, Seq::empty()) {
                Err(err) => Err(err),
                Ok((s1, args1, f1)) => lower_call(prog, s1, f, args1, f1),
            }
        },
        ExprV::Identifier(name) => match unroll_scope(false, name, s.scope) {
            Err(err) => Err(err),
            Ok((n, t)) => Ok((s.with_scope(t), ExprV::Identifier(n), func_count)),
        },
        ExprV::Literal(_) => Ok((s, e, func_count)),
        ExprV::Access(_) => Err(Error::Unsupported),
        ExprV::ArrayInitializer => Err(Error::Unsupported),
        ExprV::InlineStruct => Err(Error::Unsupported),
        ExprV::InlineArray => Err(Error::Unsupported),
    }
}

/// The lowering of the arguments from the `i`-th on, after `acc`.
pub open spec fn lower_args(
    prog: ProgV,
    s: LowerStateV,
    args: Seq<ExprV>,
    i: int,
    func_count: usize,
    acc: Seq<ExprV>,
) -> Result<(LowerStateV, Seq<ExprV>, usize), Error>
    decreases args, args.len() - i,
{
    if i < 0 || i >= args.len() {
        Ok((s, acc, func_count))
    } else {
        match lower_expr(prog, s, args[i], func_count) {
            Err(err) => Err(err),
            Ok((s1, a1, f1)) => lower_args(prog, s1, args, i + 1, f1, acc.push(a1)),
        }
    }
}

/// `ty %ARG<i> = a`.
fn make_arg_stmt(p: &Parameter, i: usize, a: Expression) -> (r: Statement)
    ensures
        r@ == arg_stmt(p@, i as int, a@),
{
    Statement::declare(p.ty, numbered("%ARG", i), a)
}

/// `ty p@0 = %ARG<i>`.
fn make_param_stmt(p: &Parameter, i: usize) -> (r: Statement)
    ensures
        r@ == param_stmt(p@, i as int),
{
    Statement::declare(p.ty, scoped(p.id.as_str(), 0), Expression::ident(numbered("%ARG", i)))
}

/// `%RP = label`.
fn make_rp_update(label: usize) -> (r: Statement)
    ensures
        r@ == rp_update_stmt(label),
{
    Statement::assign(String::from_str("%RP"), field_literal(label as u64))
}

/// `ty %RET<k> = %RET`.
fn make_ret_save(ty: Type, k: usize) -> (r: Statement)
    ensures
        r@ == ret_save_stmt(ty, k),
{
    Statement::declare(ty, numbered("%RET", k), Expression::ident(String::from_str("%RET")))
}

/// The names that a call spills.
fn collect_spill_names(st: &LowerState, func_count: usize) -> (names: Vec<String>)
    ensures
        names.deep_view() == call_spill_names(st@.cvars, func_count),
{
    let mut names = collect_live_names(&st.cvars);
    let mut k: usize = 0;
    while k < func_count
        invariant
            k <= func_count,
            names.deep_view() == with_ret_names(live_names(st@.cvars), k as int),
        decreases func_count - k,
    {
        insert_name(&mut names, numbered("%RET", k));
        k += 1;
    }
    names
}

impl ZGen {
    /// Emits the call of `f_name` with the lowered arguments `args`.
    pub fn bl_gen_function_call_(
        &self,
        st: &mut LowerState,
        args: &Vec<Expression>,
        f_name: &String,
    ) -> (r: Result<(), Error>)
        requires
            old(st)@.wf(),
        ensures
            match r {
                Ok(_) => yields(
                    function_call(self@, old(st)@, exprs_view(args@), f_name@),
                    final(st)@,
                ) && final(st)@.wf() && final(st)@.follows(old(st)@),
                Err(e) => fails(function_call(self@, old(st)@, exprs_view(args@), f_name@), e),
            },
    {
        let k = match self.find_function(f_name) {
            None => {
                return Err(Error::UndefinedBeforeUse);
            },
            Some(k) => k,
        };
        let f = &self.functions[k];
        if self.is_embed(f_name) {
            return Ok(());
        }
        if f.returns.len() > 1 || f.generics.len() != 0 {
            return Err(Error::Unsupported);
        }
        if f.parameters.len() != args.len() {
            return Err(Error::TypeMismatch);
        }
        let ghost pv = self@.functions[k as int].parameters;
        let ghost av = exprs_view(args@);
        let ghost s0 = st@;
        let mut i: usize = 0;
        while i < f.parameters.len()
            invariant
                i <= f.parameters.len(),
                f.parameters.len() == args.len(),
                *f == self.functions@[k as int],
                k < self.functions@.len(),
                pv == self@.functions[k as int].parameters,
                av == exprs_view(args@),
                st@.wf(),
                st@.same_frames(s0),
                pass_args(s0, pv, av, 0) == pass_args(st@, pv, av, i as int),
            decreases f.parameters.len() - i,
        {
            st.push_stmt(make_arg_stmt(&f.parameters[i], i, args[i].dup()));
            i += 1;
        }
        let ghost s1 = st@;
        let mut i: usize = 0;
        while i < f.parameters.len()
            invariant
                i <= f.parameters.len(),
                *f == self.functions@[k as int],
                k < self.functions@.len(),
                pv == self@.functions[k as int].parameters,
                st@.wf(),
                st@.same_frames(s0),
                bind_params(s1, pv, 0) == bind_params(st@, pv, i as int),
            decreases f.parameters.len() - i,
        {
            st.push_stmt(make_param_stmt(&f.parameters[i], i));
            i += 1;
        }
        let label = st.blks.len();
        st.push_stmt(make_rp_update(label));
        st.set_terminator(label - 1, BlockTerminator::FuncCall(f_name.clone()));
        st.new_block();
        Ok(())
    }

    /// Lowers the call `f(args)` whose arguments are lowered already.
    pub fn bl_gen_call_(
        &self,
        st: &mut LowerState,
        f: &String,
        args: &Vec<Expression>,
        func_count: usize,
    ) -> (r: Result<(Expression, usize), Error>)
        requires
            old(st)@.wf(),
        ensures
            match r {
                Ok((e1, fc1)) => yields(
                    lower_call(self@, old(st)@, f@, exprs_view(args@), func_count),
                    (final(st)@, e1@, fc1),
                ) && final(st)@.wf() && final(st)@.follows(old(st)@),
                Err(e) => fails(
                    lower_call(self@, old(st)@, f@, exprs_view(args@), func_count),
                    e,
                ),
            },
    {
        if func_count == usize::MAX {
            return Err(Error::Unsupported);
        }
        st.bl_gen_enter_scope_();
        let ghost s2 = st@;
        let names = collect_spill_names(st, func_count);
        let mut i: usize = 0;
        while i < names.len()
            invariant
                i <= names.len(),
                st@.wf(),
                st@.follows(s2),
                func_count != usize::MAX,
                s2 == old(st)@.enter_scope(),
                names.deep_view() == call_spill_names(s2.cvars, func_count),
                spill_all(s2, names.deep_view(), 0) == spill_all(st@, names.deep_view(), i as int),
            decreases names.len() - i,
        {
            match st.bl_gen_scoping_(&names[i], true) {
                Err(e) => {
                    return Err(e);
                },
                Ok(_) => {},
            }
            i += 1;
        }
        let rp = String::from_str("%RP");
        st.bl_gen_scoping_(&rp, true)?;
        st.flush_sp();
        self.bl_gen_function_call_(st, args, f)?;
        let k = match self.find_function(f) {
            None => {
                return Err(Error::UndefinedBeforeUse);
            },
            Some(k) => k,
        };
        let func = &self.functions[k];
        if func.returns.len() == 0 {
            return Err(Error::Unsupported);
        }
        st.push_stmt(make_ret_save(func.returns[0], func_count));
        st.bl_gen_exit_scope_()?;
        Ok((Expression::ident(numbered("%RET", func_count)), func_count + 1))
    }

    /// Lowers the expression `e`, as part of a statement that has made
    /// `func_count` calls so far.
    pub fn bl_gen_expr_(&self, st: &mut LowerState, e: &Expression, func_count: usize) -> (r:
        Result<(Expression, usize), Error>)
        requires
            old(st)@.wf(),
        ensures
            match r {
                Ok((e1, fc1)) => yields(
                    lower_expr(self@, old(st)@, e@, func_count),
                    (final(st)@, e1@, fc1),
                ) && final(st)@.wf() && final(st)@.follows(old(st)@),
                Err(err) => fails(lower_expr(self@, old(st)@, e@, func_count), err),
            },
        decreases e,
    {
        match e {
            Expression::Ternary(a, b, c) => {
                let (a1, f1) = self.bl_gen_expr_(st, a, func_count)?;
                let (b1, f2) = self.bl_gen_expr_(st, b, f1)?;
                let (c1, f3) = self.bl_gen_expr_(st, c, f2)?;
                Ok((Expression::ternary(a1, b1, c1), f3))
            },
            Expression::Binary(op, l, r) => {
                let (l1, f1) = self.bl_gen_expr_(st, l, func_count)?;
                let (r1, f2) = self.bl_gen_expr_(st, r, f1)?;
                Ok((Expression::binary(*op, l1, r1), f2))
            },
            Expression::Unary(op, x) => {
                let (x1, f1) = self.bl_gen_expr_(st, x, func_count)?;
                Ok((Expression::unary(*op, x1), f1))
            },
            Expression::Call(f, args) => {
                if self.is_embed(f) {
                    return Ok((e.dup(), func_count));
                }
                let (args1, f1) = self.bl_gen_args_(st, args, func_count)?;
                self.bl_gen_call_(st, f, &args1, f1)
            },
            Expression::Identifier(name) => {
                let n = bl_gen_unroll_scope(false, name.as_str(), &mut st.var_scope_info)?;
                Ok((Expression::ident(n), func_count))
            },
            Expression::Literal(_) => Ok((e.dup(), func_count)),
            Expression::Access(_) => Err(Error::Unsupported),
            Expression::ArrayInitializer => Err(Error::Unsupported),
            Expression::InlineStruct => Err(Error::Unsupported),
            Expression::InlineArray => Err(Error::Unsupported),
        }
    }

    /// Lowers the arguments of a call, first to last.
    pub fn bl_gen_args_(&self, st: &mut LowerState, args: &Vec<Expression>, func_count: usize) -> (r:
        Result<(Vec<Expression>, usize), Error>)
        requires
            old(st)@.wf(),
        ensures
            match r {
                Ok((out, fc1)) => yields(
                    lower_args(self@, old(st)@, exprs_view(args@), 0, func_count, Seq::empty()),
                    (final(st)@, exprs_view(out@), fc1),
                ) && final(st)@.wf() && final(st)@.follows(old(st)@),
                Err(err) => fails(
                    lower_args(self@, old(st)@, exprs_view(args@), 0, func_count, Seq::empty()),
                    err,
                ),
            },
        decreases args,
    {
        let ghost av = exprs_view(args@);
        let mut out: Vec<Expression> = Vec::new();
        let mut fc: usize = func_count;
        let mut i: usize = 0;
        assert(exprs_view(out@) =~= Seq::empty());
        while i < args.len()
            invariant
                i <= args.len(),
                av == exprs_view(args@),
                st@.wf(),
                st@.follows(old(st)@),
                lower_args(self@, old(st)@, av, 0, func_count, Seq::empty()) == lower_args(
                    self@,
                    st@,
                    av,
                    i as int,
                    fc,
                    exprs_view(out@),
                ),
            decreases args.len() - i,
        {
            proof {
                broadcast use vstd::std_specs::vec::axiom_vec_index_decreases;

                assert(decreases_to!(args => args[i as int]));
            }
            let ghost acc = exprs_view(out@);
            match self.bl_gen_expr_(st, &args[i], fc) {
                Err(e) => {
                    return Err(e);
                },
                Ok((a1, f1)) => {
                    out.push(a1);
                    fc = f1;
                    assert(exprs_view(out@) =~= acc.push(a1@));
                },
            }
            i += 1;
        }
        Ok((out, fc))
    }
}

} // verus!
