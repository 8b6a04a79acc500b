//! What holds of lowering and interpretation beyond the contract of any
//! one function.

use crate::ast::{DecimalSuffix, ExprV, LiteralExpression};
use crate::blocks::{label_leaves, BlockV, ContentV, Error, NextBlock, TermV};
use crate::flow_graph::{follows, has_rp_leaf, holds, leaf_label, Fact};
use crate::machine::{
    eval, exec_load, exec_push, exec_store, reg, timestamp, MachineV, MemOp, RegsV, LOAD, STORE,
};
use crate::names::{is_reserved, reg_rp, reg_sp, scoped_name};
use crate::prover::exec_term;
use crate::scope::unroll_scope;
use crate::state::LowerStateV;
use crate::value::{to_field, to_usize, Value};
use vstd::prelude::*;

verus! {

/// A declaration that shadows an outer binding leaves the scope table, once
/// its scope is left, as it found it: the outer incarnation `var@k` is
/// pushed, the declaration names `var@k+1`, and leaving the scope pops
/// `var@k` again and puts the table back.
pub proof fn lemma_shadow_round_trip(s: LowerStateV, var: Seq<char>, addr: usize)
    requires
        !is_reserved(var),
        s.blks.len() > 0,
        s.ledger.len() > 0,
        s.must_spill(var, false),
        s.scope.contains_key(var),
        !s.scope[var].1,
        s.scope[var].0 < usize::MAX,
    ensures
        s.spill(var, false) is Ok,
        unroll_scope(true, var, s.spill(var, false)->Ok_0.scope) is Ok,
        ({
            let k = s.scope[var].0;
            let s1 = s.spill(var, false)->Ok_0;
            let (name, table) = unroll_scope(true, var, s1.scope)->Ok_0;
            let s2 = s1.with_scope(table);
            &&& s1.blks.last().instructions.last() == ContentV::MemPush(
                scoped_name(var, k as nat),
                s.open_frame().sp_offset,
            )
            &&& name == scoped_name(var, (k + 1) as nat)
            &&& s2.pop_one(addr, var) is Ok
            &&& s2.pop_one(addr, var)->Ok_0.scope == s.scope
            &&& s2.pop_one(addr, var)->Ok_0.blks.last().instructions.last() == ContentV::MemPop(
                scoped_name(var, k as nat),
                addr,
            )
        }),
{
    let k = s.scope[var].0;
    let s1 = s.spill(var, false)->Ok_0;
    let (name, table) = unroll_scope(true, var, s1.scope)->Ok_0;
    let s2 = s1.with_scope(table);
    assert(s1.scope[var] == (k, true));
    assert(table[var] == ((k + 1) as usize, false));
    assert(s2.pop_one(addr, var)->Ok_0.scope =~= s.scope);
}

/// A decimal numeral holds digits only, and at least one.
pub proof fn lemma_numeral_has_digits(n: nat)
    ensures
        crate::names::dec_digits(n).len() >= 1,
        n >= 10 ==> crate::names::dec_digits(n).len() >= 2,
        forall|i: int|
            0 <= i < crate::names::dec_digits(n).len() ==> (#[trigger] crate::names::dec_digits(
                n,
            )[i]) != '@',
    decreases n,
{
    if n >= 10 {
        lemma_numeral_has_digits(n / 10);
    }
}

/// Different numbers have different decimal numerals.
pub proof fn lemma_numerals_differ(a: nat, b: nat)
    requires
        crate::names::dec_digits(a) == crate::names::dec_digits(b),
    ensures
        a == b,
    decreases a,
{
    let da = crate::names::dec_digits(a);
    let db = crate::names::dec_digits(b);
    lemma_numeral_has_digits(a);
    lemma_numeral_has_digits(b);
    if a < 10 || b < 10 {
        assert(da.len() == 1 && db.len() == 1);
        assert(da[0] == db[0]);
    } else {
        let ha = crate::names::dec_digits(a / 10);
        let hb = crate::names::dec_digits(b / 10);
        assert(da.drop_last() =~= ha);
        assert(db.drop_last() =~= hb);
        assert(da.last() == db.last());
        lemma_numerals_differ(a / 10, b / 10);
    }
}

/// Different incarnations have different scope-qualified names: `b@k`
/// names one base name and one index.
pub proof fn lemma_scoped_names_differ(b1: Seq<char>, k1: nat, b2: Seq<char>, k2: nat)
    requires
        scoped_name(b1, k1) == scoped_name(b2, k2),
    ensures
        b1 == b2,
        k1 == k2,
{
    let d1 = crate::names::dec_digits(k1);
    let d2 = crate::names::dec_digits(k2);
    let s1 = scoped_name(b1, k1);
    let s2 = scoped_name(b2, k2);
    lemma_numeral_has_digits(k1);
    lemma_numeral_has_digits(k2);
    assert(s1.len() == b1.len() + 1 + d1.len());
    assert(s2.len() == b2.len() + 1 + d2.len());
    if b1.len() < b2.len() {
        let i = b2.len() as int;
        assert(s2[i] == '@');
        assert(s1[i] == d1[i - b1.len() - 1]);
    } else if b2.len() < b1.len() {
        let i = b1.len() as int;
        assert(s1[i] == '@');
        assert(s2[i] == d2[i - b2.len() - 1]);
    } else {
        assert forall|i: int| 0 <= i < b1.len() implies b1[i] == b2[i] by {
            assert(s1[i] == b1[i]);
            assert(s2[i] == b2[i]);
        }
        assert(b1 =~= b2);
        assert forall|i: int| 0 <= i < d1.len() implies d1[i] == d2[i] by {
            assert(s1[b1.len() + 1 + i] == d1[i]);
            assert(s2[b2.len() + 1 + i] == d2[i]);
        }
        assert(d1 =~= d2);
        lemma_numerals_differ(k1, k2);
    }
}

/// A push appends: where `MemPush((id, off))` runs, `%SP + off` is the
/// length of the stack, the value of `id` becomes the top of the stack,
/// and the push is logged at that address.
pub proof fn lemma_push_appends(m: MachineV, id: Seq<char>, off: usize, p: u64)
    requires
        exec_push(m, id, off, p) is Ok,
    ensures
        reg(m.regs, reg_sp()) is Ok,
        to_usize(m.regs[reg_sp()]) is Ok,
        to_usize(m.regs[reg_sp()])->Ok_0 + off == m.phy_mem.len(),
        exec_push(m, id, off, p)->Ok_0.phy_mem == m.phy_mem.push(m.regs[id]),
        exec_push(m, id, off, p)->Ok_0.phy_ops == m.phy_ops.push(
            MemOp::phy(
                m.phy_mem.len() as usize,
                to_field(m.phy_mem.len() as usize, p),
                m.regs[id],
            ),
        ),
{
}

/// A store that does not initialise moves the timestamp on by one and is
/// logged under the new timestamp; a store that initialises is logged
/// under the timestamp as it is. This holds as long as the timestamp
/// stays below the modulus of the field.
pub proof fn lemma_store_stamps(
    m: MachineV,
    val: ExprV,
    arr: Seq<char>,
    idx: ExprV,
    init: bool,
    p: u64,
)
    requires
        exec_store(m, val, arr, idx, init, p) is Ok,
        timestamp(m.regs) is Ok,
        timestamp(m.regs)->Ok_0.0 + 1 < p,
    ensures
        ({
            let before = timestamp(m.regs)->Ok_0.0;
            let after = exec_store(m, val, arr, idx, init, p)->Ok_0;
            let now = if init {
                before as int
            } else {
                before + 1
            };
            &&& timestamp(after.regs) is Ok
            &&& timestamp(after.regs)->Ok_0.0 == now
            &&& after.vir_ops.len() == m.vir_ops.len() + 1
            &&& after.vir_ops.last().ts == Some(now as usize)
            &&& after.vir_ops.last().ls_t == Some(Value::Field(STORE))
            &&& forall|i: int| 0 <= i < m.vir_ops.len() ==> after.vir_ops[i] == m.vir_ops[i]
        }),
{
    let before = timestamp(m.regs)->Ok_0.0;
    if !init {
        assert((before + 1) % (p as int) == before + 1) by (nonlinear_arith)
            requires
                0 <= before,
                before + 1 < p,
        ;
    }
}

/// A load that follows a store to the same address reads what was stored,
/// and is logged under the timestamp of the store.
pub proof fn lemma_load_after_store(
    m: MachineV,
    val: ExprV,
    arr: Seq<char>,
    idx: ExprV,
    init: bool,
    var: Seq<char>,
    ty: crate::ast::Ty,
    arr2: Seq<char>,
    idx2: ExprV,
    p: u64,
)
    requires
        exec_store(m, val, arr, idx, init, p) is Ok,
        exec_load(exec_store(m, val, arr, idx, init, p)->Ok_0, var, ty, arr2, idx2, p) is Ok,
        exec_load(
            exec_store(m, val, arr, idx, init, p)->Ok_0,
            var,
            ty,
            arr2,
            idx2,
            p,
        )->Ok_0.vir_ops.last().addr == exec_store(m, val, arr, idx, init, p)->Ok_0.vir_ops.last().addr,
    ensures
        ({
            let m1 = exec_store(m, val, arr, idx, init, p)->Ok_0;
            let m2 = exec_load(m1, var, ty, arr2, idx2, p)->Ok_0;
            let store = m1.vir_ops.last();
            let load = m2.vir_ops.last();
            &&& eval(m.regs, val, p) == Ok::<Value, Error>(store.data_t)
            &&& m2.regs[var] == store.data_t
            &&& load.data_t == store.data_t
            &&& load.ls_t == Some(Value::Field(LOAD))
            &&& load.ts == store.ts
        }),
{
}

/// Whether every literal label among `ls` is below the modulus `p`, so
/// that it stands for itself as a field element.
pub open spec fn labels_fit(ls: Seq<NextBlock>, p: u64) -> bool {
    forall|j: int| 0 <= j < ls.len() ==> match #[trigger] ls[j] {
        NextBlock::Label(l) => l < p,
        NextBlock::Rp() => true,
    }
}

/// Whether the value `l` is one that the leaves `ls` yield under the
/// registers `regs`: a literal label among them, or the label in `%RP`
/// where `%RP` is among them.
pub open spec fn yielded(regs: RegsV, ls: Seq<NextBlock>, l: usize) -> bool {
    ||| exists|j: int| 0 <= j < ls.len() && #[trigger] ls[j] == NextBlock::Label(l)
    ||| (exists|j: int| 0 <= j < ls.len() && #[trigger] ls[j] == NextBlock::Rp()) && reg(
        regs,
        reg_rp(),
    ) is Ok && to_usize(regs[reg_rp()]) == Ok::<usize, Error>(l)
}

/// The value of a terminator expression is what one of its leaves yields.
pub proof fn lemma_label_expr_value(regs: RegsV, e: ExprV, p: u64, l: usize)
    requires
        label_leaves(e) is Some,
        labels_fit(label_leaves(e)->Some_0, p),
        eval(regs, e, p) is Ok,
        to_usize(eval(regs, e, p)->Ok_0) == Ok::<usize, Error>(l),
    ensures
        yielded(regs, label_leaves(e)->Some_0, l),
    decreases e,
{
    let ls = label_leaves(e)->Some_0;
    match e {
        ExprV::Ternary(c, a, b) => {
            let la = label_leaves(*a)->Some_0;
            let lb = label_leaves(*b)->Some_0;
            assert(ls == la + lb);
            assert forall|j: int| 0 <= j < la.len() implies match #[trigger] la[j] {
                NextBlock::Label(x) => x < p,
                NextBlock::Rp() => true,
            } by {
                assert(ls[j] == la[j]);
            }
            assert forall|j: int| 0 <= j < lb.len() implies match #[trigger] lb[j] {
                NextBlock::Label(x) => x < p,
                NextBlock::Rp() => true,
            } by {
                assert(ls[la.len() + j] == lb[j]);
            }
            let t = eval(regs, *c, p)->Ok_0->Bool_0;
            if t {
                lemma_label_expr_value(regs, *a, p, l);
                if exists|j: int| 0 <= j < la.len() && #[trigger] la[j] == NextBlock::Label(l) {
                    let j = choose|j: int| 0 <= j < la.len() && #[trigger] la[j] == NextBlock::Label(l);
                    assert(ls[j] == NextBlock::Label(l));
                } else {
                    let j = choose|j: int| 0 <= j < la.len() && #[trigger] la[j] == NextBlock::Rp();
                    assert(ls[j] == NextBlock::Rp());
                }
            } else {
                lemma_label_expr_value(regs, *b, p, l);
                if exists|j: int| 0 <= j < lb.len() && #[trigger] lb[j] == NextBlock::Label(l) {
                    let j = choose|j: int| 0 <= j < lb.len() && #[trigger] lb[j] == NextBlock::Label(l);
                    assert(ls[la.len() + j] == NextBlock::Label(l));
                } else {
                    let j = choose|j: int| 0 <= j < lb.len() && #[trigger] lb[j] == NextBlock::Rp();
                    assert(ls[la.len() + j] == NextBlock::Rp());
                }
            }
        },
        ExprV::Literal(LiteralExpression::DecimalLiteral(v, s)) => {
            assert(ls[0] == NextBlock::Label(v as usize));
            assert(s == Some(DecimalSuffix::Field));
            assert((v as usize) < p);
            assert((v as int) % (p as int) == v as int) by (nonlinear_arith)
                requires
                    0 <= v as int,
                    (v as int) < p as int,
            ;
        },
        ExprV::Identifier(name) => {
            assert(ls[0] == NextBlock::Rp());
        },
        _ => {},
    }
}

/// A transition goes where one of the leaves of its expression points.
pub proof fn lemma_terminator_takes_leaf(regs: RegsV, e: ExprV, n: int, p: u64, l: usize)
    requires
        label_leaves(e) is Some,
        labels_fit(label_leaves(e)->Some_0, p),
        exec_term(regs, TermV::Transition(e), n, p) == Ok::<Option<usize>, Error>(Some(l)),
    ensures
        yielded(regs, label_leaves(e)->Some_0, l),
        l < n,
{
    lemma_label_expr_value(regs, e, p, l);
}

/// A step of the interpreter from a block that is reached, along a
/// terminator that does not go through `%RP`, is an edge of the
/// control-flow graph.
pub proof fn lemma_literal_step_follows(
    bls: Seq<BlockV>,
    entry: usize,
    b: usize,
    regs: RegsV,
    p: u64,
    l: usize,
)
    requires
        b < bls.len(),
        holds(bls, entry, Fact::Visit(b)),
        bls[b as int].terminator is Transition,
        label_leaves(bls[b as int].terminator->Transition_0) is Some,
        labels_fit(label_leaves(bls[b as int].terminator->Transition_0)->Some_0, p),
        !has_rp_leaf(bls[b as int]),
        exec_term(regs, bls[b as int].terminator, bls.len() as int, p) == Ok::<
            Option<usize>,
            Error,
        >(Some(l)),
    ensures
        follows(bls, entry, b, l),
        holds(bls, entry, Fact::Visit(l)),
{
    let e = bls[b as int].terminator->Transition_0;
    lemma_terminator_takes_leaf(regs, e, bls.len() as int, p, l);
    assert(leaf_label(bls[b as int], l));
    crate::flow_graph::lemma_holds_target(bls, entry, b, l);
}

/// How many of the first `n` instructions are pushes.
pub open spec fn count_pushes(cs: Seq<ContentV>, n: int) -> nat
    decreases n,
{
    if n <= 0 {
        0
    } else if cs[n - 1] is MemPush {
        count_pushes(cs, n - 1) + 1
    } else {
        count_pushes(cs, n - 1)
    }
}

/// How many of the first `n` instructions are pops.
pub open spec fn count_pops(cs: Seq<ContentV>, n: int) -> nat
    decreases n,
{
    if n <= 0 {
        0
    } else if cs[n - 1] is MemPop {
        count_pops(cs, n - 1) + 1
    } else {
        count_pops(cs, n - 1)
    }
}

/// The pushes among the instructions of the block that lowering writes to.
pub open spec fn pushes_of(s: LowerStateV) -> nat {
    count_pushes(s.blks.last().instructions, s.blks.last().instructions.len() as int)
}

/// The pops among the instructions of the block that lowering writes to.
pub open spec fn pops_of(s: LowerStateV) -> nat {
    count_pops(s.blks.last().instructions, s.blks.last().instructions.len() as int)
}

proof fn lemma_counts_after_push(cs: Seq<ContentV>, c: ContentV, n: int)
    requires
        0 <= n <= cs.len(),
    ensures
        count_pushes(cs.push(c), n) == count_pushes(cs, n),
        count_pops(cs.push(c), n) == count_pops(cs, n),
    decreases n,
{
    if n > 0 {
        lemma_counts_after_push(cs, c, n - 1);
    }
}

/// One more instruction in the block that lowering writes to counts as a
/// push, as a pop, or as neither.
proof fn lemma_counts_of_push_instr(s: LowerStateV, c: ContentV)
    requires
        s.blks.len() > 0,
    ensures
        pushes_of(s.push_instr(c)) == pushes_of(s) + if c is MemPush {
            1nat
        } else {
            0nat
        },
        pops_of(s.push_instr(c)) == pops_of(s) + if c is MemPop {
            1nat
        } else {
            0nat
        },
{
    let cs = s.blks.last().instructions;
    lemma_counts_after_push(cs, c, cs.len() as int);
    assert(s.push_instr(c).blks.last().instructions == cs.push(c));
}

/// A spill pushes as many registers as it records in the ledger.
pub proof fn lemma_spill_records_its_pushes(s: LowerStateV, id: Seq<char>, is_call: bool)
    requires
        s.blks.len() > 0,
        s.ledger.len() > 0,
        s.spill(id, is_call) is Ok,
    ensures
        s.spill(id, is_call)->Ok_0.ledger.len() == s.ledger.len(),
        pushes_of(s.spill(id, is_call)->Ok_0) - pushes_of(s) == s.spill(
            id,
            is_call,
        )->Ok_0.ledger.last().len() - s.ledger.last().len(),
        pops_of(s.spill(id, is_call)->Ok_0) == pops_of(s),
{
    if s.must_spill(id, is_call) {
        let s0 = s.open_frame();
        if s.sp_offset == 0 {
            let a = s.push_instr(ContentV::MemPush(crate::names::reg_bp(), s.sp_offset));
            lemma_counts_of_push_instr(s, ContentV::MemPush(crate::names::reg_bp(), s.sp_offset));
            let b = s.record_spill(crate::names::reg_bp(), crate::names::reg_bp());
            assert(b.blks == a.blks);
            lemma_counts_of_push_instr(b, ContentV::Stmt(crate::state::bp_update_stmt()));
        }
        let name = if is_reserved(id) {
            id
        } else {
            scoped_name(id, s.scope[id].0 as nat)
        };
        let s1 = if is_reserved(id) {
            s0
        } else {
            s0.with_scope(s.scope.insert(id, (s.scope[id].0, true)))
        };
        assert(s1.blks == s0.blks);
        lemma_counts_of_push_instr(s1, ContentV::MemPush(name, s1.sp_offset));
        assert(s1.record_spill(name, id).blks == s1.push_instr(
            ContentV::MemPush(name, s1.sp_offset),
        ).blks);
    }
}

proof fn lemma_pop_frame_counts(s: LowerStateV, frame: crate::state::FrameV, n: int)
    requires
        s.blks.len() > 0,
        0 <= n <= frame.len(),
        s.pop_frame(frame, n) is Ok,
    ensures
        s.pop_frame(frame, n)->Ok_0.blks.len() == s.blks.len(),
        s.pop_frame(frame, n)->Ok_0.ledger == s.ledger,
        pops_of(s.pop_frame(frame, n)->Ok_0) == pops_of(s) + n,
        pushes_of(s.pop_frame(frame, n)->Ok_0) == pushes_of(s),
    decreases n,
{
    if n > 0 {
        let addr = frame[n - 1].0;
        let var = frame[n - 1].1;
        let s1 = s.pop_one(addr, var)->Ok_0;
        if is_reserved(var) {
            lemma_counts_of_push_instr(s, ContentV::MemPop(var, addr));
        } else {
            let (idx, pending) = s.scope[var];
            if pending {
                let t = s.with_scope(s.scope.insert(var, (idx, false)));
                assert(t.blks == s.blks);
                lemma_counts_of_push_instr(t, ContentV::MemPop(scoped_name(var, idx as nat), addr));
            } else if idx == 0 {
                let t = s.with_scope(s.scope.remove(var));
                assert(t.blks == s.blks);
                lemma_counts_of_push_instr(t, ContentV::MemPop(scoped_name(var, 0), addr));
            } else {
                let t = s.with_scope(s.scope.insert(var, ((idx - 1) as usize, false)));
                assert(t.blks == s.blks);
                lemma_counts_of_push_instr(
                    t,
                    ContentV::MemPop(scoped_name(var, (idx - 1) as nat), addr),
                );
            }
        }
        lemma_pop_frame_counts(s1, frame, n - 1);
    }
}

/// Leaving a scope pops as many registers as the ledger has recorded for
/// it, and pushes none: what a scope spills, it restores.
pub proof fn lemma_exit_pops_what_was_recorded(s: LowerStateV)
    requires
        s.blks.len() > 0,
        s.ledger.len() > 0,
        s.exit_scope() is Ok,
    ensures
        pops_of(s.exit_scope()->Ok_0) == pops_of(s) + s.ledger.last().len(),
        pushes_of(s.exit_scope()->Ok_0) == pushes_of(s),
        s.exit_scope()->Ok_0.ledger == s.ledger.drop_last(),
{
    let s0 = s.flush_sp();
    if s.sp_offset > 0 {
        lemma_counts_of_push_instr(s, ContentV::Stmt(crate::state::sp_update_stmt(s.sp_offset)));
        let a = s.push_instr(ContentV::Stmt(crate::state::sp_update_stmt(s.sp_offset)));
        assert(s0.blks == a.blks);
    }
    let frame = s0.ledger.last();
    let s1 = s0.with_cvars(s0.cvars.drop_last()).with_ledger(s0.ledger.drop_last());
    assert(s1.blks == s0.blks);
    lemma_pop_frame_counts(s1, frame, frame.len() as int);
}

} // verus!
