//! What holds of the log of virtual memory operations over a whole run:
//! its timestamps are in order, and every load reads what a store wrote.

use crate::ast::{ExprV, LhsV, StmtV};
use crate::blocks::{BlockV, ContentV};
use crate::machine::{
    eval, exec_instr, exec_instrs, reg, timestamp, MachineV, MemOp, RegsV, LOAD,
    STORE,
};
use crate::names::{reg_as, reg_ts};
use crate::prover::{
    all_vir, bind_inputs, fresh_log, run, step, ts_rank, ExecStateV, RunV,
};
use crate::value::Value;
use vstd::prelude::*;

verus! {

/// The name that the left side of a definition binds or assigns.
pub open spec fn lhs_name(l: LhsV) -> Seq<char> {
    match l {
        LhsV::TypedIdentifier(_, name) => name,
        LhsV::Assignee(name) => name,
        LhsV::IndexedAssignee(name) => name,
    }
}

/// Whether the instruction `c` names `name` as a register that it binds or
/// assigns. A store is not said to set `%TS`, though it moves it on.
pub open spec fn sets(c: ContentV, name: Seq<char>) -> bool
    decreases c,
{
    match c {
        ContentV::MemPop(id, _) => id == name,
        ContentV::ArrayInit(arr, _) => arr == name || name == reg_as(),
        ContentV::Load(var, _, _, _) => var == name,
        ContentV::Branch(_, t, f) => sets_any(t, name, 0) || sets_any(f, name, 0),
        ContentV::Stmt(StmtV::Definition { lhs, expression }) => lhs.len() > 0 && lhs_name(lhs[0])
            == name,
        _ => false,
    }
}

/// Whether one of the instructions from the `i`-th on sets `name`.
pub open spec fn sets_any(cs: Seq<ContentV>, name: Seq<char>, i: int) -> bool
    decreases cs, cs.len() - i,
{
    if i < 0 || i >= cs.len() {
        false
    } else {
        sets(cs[i], name) || sets_any(cs, name, i + 1)
    }
}

/// How many stores the instruction `c` holds, both sides of a branch
/// counted.
pub open spec fn weight(c: ContentV) -> nat
    decreases c,
{
    match c {
        ContentV::Store(_, _, _, _) => 1,
        ContentV::Branch(_, t, f) => weight_all(t, 0) + weight_all(f, 0),
        _ => 0,
    }
}

/// How many stores the instructions from the `i`-th on hold.
pub open spec fn weight_all(cs: Seq<ContentV>, i: int) -> nat
    decreases cs, cs.len() - i,
{
    if i < 0 || i >= cs.len() {
        0
    } else {
        weight(cs[i]) + weight_all(cs, i + 1)
    }
}

/// The timestamp in `%TS` as a number, where there is one.
pub open spec fn ts_now(regs: RegsV) -> Option<int> {
    match timestamp(regs) {
        Ok((t, _)) => Some(t as int),
        Err(_) => None,
    }
}

/// Whether the timestamps of `ops` never go down.
pub open spec fn stamps_ordered(ops: Seq<MemOp>) -> bool {
    forall|i: int, j: int| 0 <= i <= j < ops.len() ==> ts_rank(ops[i].ts) <= ts_rank(ops[j].ts)
}

/// Whether the timestamps of `ops` lie between `lo` and `hi`.
pub open spec fn stamped(ops: Seq<MemOp>, lo: int, hi: int) -> bool {
    forall|i: int| 0 <= i < ops.len() ==> lo <= ts_rank((#[trigger] ops[i]).ts) <= hi
}

/// Whether `op` is a load.
pub open spec fn is_load(op: MemOp) -> bool {
    op.ls_t == Some(Value::Field(LOAD))
}

/// Whether `op` is a store.
pub open spec fn is_store(op: MemOp) -> bool {
    op.ls_t == Some(Value::Field(STORE))
}

/// Whether the store `s` backs the load `l`: it wrote the value that `l`
/// read to the address of `l`, at a timestamp that is not after that of
/// `l`.
pub open spec fn backs(s: MemOp, l: MemOp) -> bool {
    is_store(s) && s.addr == l.addr && s.data_t == l.data_t && ts_rank(s.ts) <= ts_rank(l.ts)
}

/// Whether every load among `ops` has a store before it that backs it.
pub open spec fn loads_backed(ops: Seq<MemOp>) -> bool {
    forall|j: int|
        0 <= j < ops.len() && is_load(#[trigger] ops[j]) ==> exists|i: int|
            0 <= i < j && backs(#[trigger] ops[i], ops[j])
}

/// Whether every value in `mem` was written there by a store among `ops`,
/// at a timestamp of at most `t`.
pub open spec fn mem_backed(ops: Seq<MemOp>, mem: Seq<Option<Value>>, t: int) -> bool {
    forall|a: int|
        0 <= a < mem.len() && (#[trigger] mem[a]) is Some ==> exists|i: int|
            0 <= i < ops.len() && is_store(#[trigger] ops[i]) && ops[i].addr == a && ops[i].data_t
                == mem[a]->Some_0 && ts_rank(ops[i].ts) <= t
}

/// The state of a run as the laws see it: the log so far, which is the log
/// `hist` of the blocks before followed by the log of the block in hand,
/// has its timestamps in order between `lo` and the timestamp in `%TS`,
/// backs its loads, and backs the memory.
pub open spec fn log_ok(hist: Seq<MemOp>, m: MachineV, lo: int) -> bool {
    let log = hist + m.vir_ops;
    &&& ts_now(m.regs) is Some
    &&& lo <= ts_now(m.regs)->Some_0
    &&& stamps_ordered(log)
    &&& stamped(log, lo, ts_now(m.regs)->Some_0)
    &&& loads_backed(log)
    &&& mem_backed(log, m.vir_mem, ts_now(m.regs)->Some_0)
}

/// `%TS` and `%AS` are different registers.
pub proof fn lemma_ts_is_not_as()
    ensures
        reg_ts() != reg_as(),
{
    reveal_strlit("%TS");
    reveal_strlit("%AS");
    assert(reg_ts()[1] == 'T');
    assert(reg_as()[1] == 'A');
}

/// An instruction that does not set `%TS` keeps the log in order: the
/// timestamp moves on by at most the number of its stores, every new
/// operation is stamped in order, every new load is backed by a store, and
/// the memory stays backed. This holds as long as the timestamp stays
/// below the modulus of the field.
pub proof fn lemma_instr_keeps_log(hist: Seq<MemOp>, m: MachineV, c: ContentV, p: u64, lo: int)
    requires
        exec_instr(m, c, p) is Ok,
        !sets(c, reg_ts()),
        log_ok(hist, m, lo),
        ts_now(m.regs)->Some_0 + weight(c) < p,
    ensures
        log_ok(hist, exec_instr(m, c, p)->Ok_0, lo),
        ts_now(m.regs)->Some_0 <= ts_now(exec_instr(m, c, p)->Ok_0.regs)->Some_0 <= ts_now(
            m.regs,
        )->Some_0 + weight(c),
        m.vir_ops.len() <= exec_instr(m, c, p)->Ok_0.vir_ops.len(),
        exec_instr(m, c, p)->Ok_0.vir_ops.subrange(0, m.vir_ops.len() as int) == m.vir_ops,
    decreases c, 0nat,
{
    let m1 = exec_instr(m, c, p)->Ok_0;
    let t = ts_now(m.regs)->Some_0;
    let log = hist + m.vir_ops;
    lemma_ts_is_not_as();
    match c {
        ContentV::MemPush(id, off) => {
            assert(m1.vir_ops.subrange(0, m.vir_ops.len() as int) =~= m.vir_ops);
        },
        ContentV::MemPop(id, off) => {
            assert(m1.vir_ops.subrange(0, m.vir_ops.len() as int) =~= m.vir_ops);
        },
        ContentV::ArrayInit(arr, len) => {
            assert(m1.vir_ops.subrange(0, m.vir_ops.len() as int) =~= m.vir_ops);
        },
        ContentV::Store(val, arr, idx, init) => {
            let op = m1.vir_ops.last();
            let t1 = ts_now(m1.regs)->Some_0;
            if !init {
                assert((t + 1) % (p as int) == t + 1) by (nonlinear_arith)
                    requires
                        0 <= t,
                        t + 1 < p,
                ;
            }
            assert(m1.vir_ops == m.vir_ops.push(op));
            assert(hist + m1.vir_ops =~= log.push(op));
            assert(m1.vir_ops.subrange(0, m.vir_ops.len() as int) =~= m.vir_ops);
            lemma_push_keeps_log(log, op, m.vir_mem, m1.vir_mem, lo, t, t1);
        },
        ContentV::Load(var, ty, arr, idx) => {
            let op = m1.vir_ops.last();
            assert(m1.vir_ops == m.vir_ops.push(op));
            assert(hist + m1.vir_ops =~= log.push(op));
            assert(m1.vir_ops.subrange(0, m.vir_ops.len() as int) =~= m.vir_ops);
            assert(m.vir_mem[op.addr as int] == Some(op.data_t));
            lemma_push_keeps_log(log, op, m.vir_mem, m1.vir_mem, lo, t, t);
        },
        ContentV::DummyLoad => {
            let op = m1.vir_ops.last();
            assert(m1.vir_ops == m.vir_ops.push(op));
            assert(hist + m1.vir_ops =~= log.push(op));
            assert(m1.vir_ops.subrange(0, m.vir_ops.len() as int) =~= m.vir_ops);
            assert(m.vir_mem[0] == Some(op.data_t));
            lemma_push_keeps_log(log, op, m.vir_mem, m1.vir_mem, lo, t, t);
        },
        ContentV::Branch(cond, tb, fb) => {
            let taken = eval(m.regs, cond, p)->Ok_0->Bool_0;
            if taken {
                lemma_instrs_keep_log(hist, m, tb, 0, p, lo);
            } else {
                lemma_instrs_keep_log(hist, m, fb, 0, p, lo);
            }
        },
        ContentV::Stmt(s) => {
            assert(m1.vir_ops.subrange(0, m.vir_ops.len() as int) =~= m.vir_ops);
        },
    }
}

/// After an operation is logged, the log is still in order, its loads are
/// backed, and the memory is backed: a load reads what the memory holds,
/// and a store puts what it writes into the memory.
proof fn lemma_push_keeps_log(
    log: Seq<MemOp>,
    op: MemOp,
    mem: Seq<Option<Value>>,
    mem1: Seq<Option<Value>>,
    lo: int,
    t: int,
    t1: int,
)
    requires
        lo <= t <= t1,
        stamps_ordered(log),
        stamped(log, lo, t),
        loads_backed(log),
        mem_backed(log, mem, t),
        ts_rank(op.ts) == t1,
        is_load(op) || is_store(op),
        is_load(op) ==> op.addr < mem.len() && mem[op.addr as int] == Some(op.data_t) && mem1
            == mem,
        is_store(op) ==> mem1 == crate::machine::grown(mem, op.addr + 1).update(
            op.addr as int,
            Some(op.data_t),
        ),
    ensures
        stamps_ordered(log.push(op)),
        stamped(log.push(op), lo, t1),
        loads_backed(log.push(op)),
        mem_backed(log.push(op), mem1, t1),
{
    let log1 = log.push(op);
    let n = log.len() as int;
    assert forall|i: int, j: int| 0 <= i <= j < log1.len() implies ts_rank(log1[i].ts) <= ts_rank(
        log1[j].ts,
    ) by {
        if j < n {
            assert(log1[i] == log[i] && log1[j] == log[j]);
        } else if i < n {
            assert(log1[i] == log[i]);
        }
    }
    assert forall|i: int| 0 <= i < log1.len() implies lo <= ts_rank((#[trigger] log1[i]).ts)
        <= t1 by {
        if i < n {
            assert(log1[i] == log[i]);
        }
    }
    assert(STORE != LOAD);
    assert forall|j: int| 0 <= j < log1.len() && is_load(#[trigger] log1[j]) implies exists|i: int|
        0 <= i < j && backs(#[trigger] log1[i], log1[j]) by {
        if j < n {
            assert(log1[j] == log[j]);
            let i = choose|i: int| 0 <= i < j && backs(#[trigger] log[i], log[j]);
            assert(log1[i] == log[i]);
        } else {
            let a = op.addr as int;
            assert(mem[a] is Some);
            let i = choose|i: int|
                0 <= i < log.len() && is_store(#[trigger] log[i]) && log[i].addr == a
                    && log[i].data_t == mem[a]->Some_0 && ts_rank(log[i].ts) <= t;
            assert(log1[i] == log[i]);
            assert(backs(log1[i], log1[j]));
        }
    }
    assert forall|a: int| 0 <= a < mem1.len() && (#[trigger] mem1[a]) is Some implies exists|i: int|
        0 <= i < log1.len() && is_store(#[trigger] log1[i]) && log1[i].addr == a && log1[i].data_t
            == mem1[a]->Some_0 && ts_rank(log1[i].ts) <= t1 by {
        if is_store(op) && a == op.addr {
            assert(log1[n] == op);
        } else {
            assert(a < mem.len() && mem[a] == mem1[a]);
            let i = choose|i: int|
                0 <= i < log.len() && is_store(#[trigger] log[i]) && log[i].addr == a
                    && log[i].data_t == mem[a]->Some_0 && ts_rank(log[i].ts) <= t;
            assert(log1[i] == log[i]);
        }
    }
}

/// Instructions that do not set `%TS` keep the log in order.
pub proof fn lemma_instrs_keep_log(
    hist: Seq<MemOp>,
    m: MachineV,
    cs: Seq<ContentV>,
    i: int,
    p: u64,
    lo: int,
)
    requires
        0 <= i,
        exec_instrs(m, cs, i, p) is Ok,
        !sets_any(cs, reg_ts(), i),
        log_ok(hist, m, lo),
        ts_now(m.regs)->Some_0 + weight_all(cs, i) < p,
    ensures
        log_ok(hist, exec_instrs(m, cs, i, p)->Ok_0, lo),
        ts_now(m.regs)->Some_0 <= ts_now(exec_instrs(m, cs, i, p)->Ok_0.regs)->Some_0 <= ts_now(
            m.regs,
        )->Some_0 + weight_all(cs, i),
        m.vir_ops.len() <= exec_instrs(m, cs, i, p)->Ok_0.vir_ops.len(),
        exec_instrs(m, cs, i, p)->Ok_0.vir_ops.subrange(0, m.vir_ops.len() as int) == m.vir_ops,
    decreases cs, cs.len() - i,
{
    if i >= cs.len() {
        assert(m.vir_ops.subrange(0, m.vir_ops.len() as int) =~= m.vir_ops);
    } else {
        lemma_instr_keeps_log(hist, m, cs[i], p, lo);
        let m1 = exec_instr(m, cs[i], p)->Ok_0;
        lemma_instrs_keep_log(hist, m1, cs, i + 1, p, lo);
        let m2 = exec_instrs(m1, cs, i + 1, p)->Ok_0;
        assert(m2.vir_ops.subrange(0, m.vir_ops.len() as int) =~= m1.vir_ops.subrange(
            0,
            m.vir_ops.len() as int,
        )) by {
            assert(m2.vir_ops.subrange(0, m1.vir_ops.len() as int) == m1.vir_ops);
            assert forall|k: int| 0 <= k < m.vir_ops.len() implies m2.vir_ops[k] == m1.vir_ops[k] by {
                assert(m2.vir_ops.subrange(0, m1.vir_ops.len() as int)[k] == m2.vir_ops[k]);
            }
        }
    }
}

/// A store that does not initialise is stamped strictly above every
/// operation that was logged before it, in its block or in a block before.
pub proof fn lemma_fresh_store_is_newest(
    hist: Seq<MemOp>,
    m: MachineV,
    val: ExprV,
    arr: Seq<char>,
    idx: ExprV,
    p: u64,
    lo: int,
)
    requires
        crate::machine::exec_store(m, val, arr, idx, false, p) is Ok,
        log_ok(hist, m, lo),
        ts_now(m.regs)->Some_0 + 1 < p,
    ensures
        forall|i: int|
            0 <= i < (hist + m.vir_ops).len() ==> ts_rank((#[trigger] (hist + m.vir_ops)[i]).ts)
                < ts_rank(
                crate::machine::exec_store(m, val, arr, idx, false, p)->Ok_0.vir_ops.last().ts,
            ),
{
    let t = ts_now(m.regs)->Some_0;
    assert((t + 1) % (p as int) == t + 1) by (nonlinear_arith)
        requires
            0 <= t,
            t + 1 < p,
    ;
}

/// Binding the declared inputs of a block leaves a register alone that is
/// not among them.
pub proof fn lemma_bind_inputs_keeps(
    regs: RegsV,
    inputs: Seq<(Seq<char>, Option<crate::ast::Ty>)>,
    i: int,
    name: Seq<char>,
)
    requires
        0 <= i,
        forall|j: int| i <= j < inputs.len() ==> (#[trigger] inputs[j]).0 != name,
    ensures
        reg(bind_inputs(regs, inputs, i), name) == reg(regs, name),
    decreases inputs.len() - i,
{
    if i < inputs.len() {
        match inputs[i].1 {
            None => {
                lemma_bind_inputs_keeps(regs, inputs, i + 1, name);
            },
            Some(ty) => {
                let from = crate::prover::output_name(inputs[i].0);
                let v = if regs.contains_key(from) {
                    regs[from]
                } else {
                    crate::value::zero_of(ty)
                };
                lemma_bind_inputs_keeps(regs.insert(inputs[i].0, v), inputs, i + 1, name);
            },
        }
    }
}

/// Whether the block `b` leaves `%TS` to the stores: no instruction sets
/// it, and it is not among the declared inputs.
pub open spec fn ts_safe(b: BlockV) -> bool {
    &&& !sets_any(b.instructions, reg_ts(), 0)
    &&& forall|j: int| 0 <= j < b.inputs.len() ==> (#[trigger] b.inputs[j]).0 != reg_ts()
}

/// Whether every block of the program leaves `%TS` to the stores and holds
/// at most `w` stores.
pub open spec fn program_ts_safe(bls: Seq<BlockV>, w: nat) -> bool {
    forall|b: int|
        0 <= b < bls.len() ==> ts_safe(#[trigger] bls[b]) && weight_all(bls[b].instructions, 0)
            <= w
}

/// The log of all blocks that ran.
pub open spec fn whole_log(r: RunV) -> Seq<MemOp> {
    all_vir(r.states, r.states.len() as int)
}

/// Whether the run is in order: the log of all blocks that ran has its
/// timestamps in order between `lo` and the timestamp in `%TS`, backs its
/// loads, and backs the memory; and the block to run next is a block.
pub open spec fn run_ok(bls: Seq<BlockV>, r: RunV, lo: int) -> bool {
    &&& log_ok(whole_log(r), fresh_log(r.m), lo)
    &&& !r.done ==> r.nb < bls.len()
}

proof fn lemma_all_vir_push(states: Seq<ExecStateV>, st: ExecStateV, n: int)
    requires
        0 <= n <= states.len(),
    ensures
        all_vir(states.push(st), n) == all_vir(states, n),
    decreases n,
{
    if n > 0 {
        lemma_all_vir_push(states, st, n - 1);
    }
}

/// A step of a run that is in order leaves the run in order, and moves
/// the timestamp on by at most the number of stores of the block.
pub proof fn lemma_step_keeps_log(bls: Seq<BlockV>, io_size: usize, r: RunV, p: u64, lo: int)
    requires
        step(bls, io_size, r, p) is Ok,
        !r.done,
        run_ok(bls, r, lo),
        ts_safe(bls[r.nb as int]),
        ts_now(r.m.regs)->Some_0 + weight_all(bls[r.nb as int].instructions, 0) < p,
    ensures
        run_ok(bls, step(bls, io_size, r, p)->Ok_0, lo),
        ts_now(r.m.regs)->Some_0 <= ts_now(step(bls, io_size, r, p)->Ok_0.m.regs)->Some_0
            <= ts_now(r.m.regs)->Some_0 + weight_all(bls[r.nb as int].instructions, 0),
{
    let b = bls[r.nb as int];
    let regs = if r.states.len() == 0 {
        r.m.regs
    } else {
        bind_inputs(r.m.regs, b.inputs, 0)
    };
    if r.states.len() != 0 {
        lemma_bind_inputs_keeps(r.m.regs, b.inputs, 0, reg_ts());
    }
    let m0 = fresh_log(r.m.with_regs(regs));
    let hist = whole_log(r);
    assert(hist + m0.vir_ops =~= hist + fresh_log(r.m).vir_ops);
    assert(log_ok(hist, m0, lo));
    lemma_instrs_keep_log(hist, m0, b.instructions, 0, p, lo);
    let m1 = exec_instrs(m0, b.instructions, 0, p)->Ok_0;
    let r1 = step(bls, io_size, r, p)->Ok_0;
    assert(r1.m == m1);
    let st = r1.states.last();
    assert(r1.states == r.states.push(st));
    lemma_all_vir_push(r.states, st, r.states.len() as int);
    assert(whole_log(r1) == hist + m1.vir_ops);
    assert(whole_log(r1) + fresh_log(m1).vir_ops =~= hist + m1.vir_ops);
}

/// A run of a program whose blocks leave `%TS` to the stores is in order
/// after any number of blocks, as long as the timestamp stays below the
/// modulus of the field.
pub proof fn lemma_run_keeps_log(
    bls: Seq<BlockV>,
    io_size: usize,
    start: RunV,
    k: nat,
    p: u64,
    w: nat,
)
    requires
        run(bls, io_size, start, k, p) is Ok,
        program_ts_safe(bls, w),
        !start.done,
        start.nb < bls.len(),
        start.states.len() == 0,
        start.m.vir_mem.len() == 0,
        ts_now(start.m.regs) is Some,
        ts_now(start.m.regs)->Some_0 + k * w < p,
    ensures
        run_ok(bls, run(bls, io_size, start, k, p)->Ok_0, ts_now(start.m.regs)->Some_0),
        ts_now(run(bls, io_size, start, k, p)->Ok_0.m.regs)->Some_0 <= ts_now(
            start.m.regs,
        )->Some_0 + k * w,
    decreases k,
{
    let t0 = ts_now(start.m.regs)->Some_0;
    if k == 0 {
        assert(whole_log(start) =~= Seq::empty());
        assert(whole_log(start) + fresh_log(start.m).vir_ops =~= Seq::empty());
    } else {
        let k1 = (k - 1) as nat;
        assert(k1 * w + w == k * w) by (nonlinear_arith)
            requires
                k1 + 1 == k,
        ;
        assert(k1 * w >= 0) by (nonlinear_arith)
            requires
                k1 >= 0,
                w >= 0,
        ;
        lemma_run_keeps_log(bls, io_size, start, k1, p, w);
        let r = run(bls, io_size, start, k1, p)->Ok_0;
        if !r.done {
            assert(ts_safe(bls[r.nb as int]));
            lemma_step_keeps_log(bls, io_size, r, p, t0);
        }
    }
}

/// Declaring the program inputs leaves a register alone that is not among
/// the declared inputs.
pub proof fn lemma_declare_inputs_keeps(
    regs: RegsV,
    inputs: Seq<(Seq<char>, Option<crate::ast::Ty>)>,
    vals: Seq<u64>,
    i: int,
    k: int,
    p: u64,
    name: Seq<char>,
)
    requires
        0 <= i,
        forall|j: int| i <= j < inputs.len() ==> (#[trigger] inputs[j]).0 != name,
        crate::prover::declare_inputs(regs, inputs, vals, i, k, p) is Ok,
    ensures
        reg(crate::prover::declare_inputs(regs, inputs, vals, i, k, p)->Ok_0, name) == reg(
            regs,
            name,
        ),
    decreases inputs.len() - i,
{
    if i < inputs.len() {
        match inputs[i].1 {
            None => {
                lemma_declare_inputs_keeps(regs, inputs, vals, i + 1, k, p, name);
            },
            Some(ty) => {
                let v = crate::prover::input_value(ty, crate::prover::input_at(vals, k), p)->Ok_0;
                lemma_declare_inputs_keeps(
                    regs.insert(inputs[i].0, v),
                    inputs,
                    vals,
                    i + 1,
                    k + 1,
                    p,
                    name,
                );
            },
        }
    }
}

/// In an interpretation of a program whose blocks leave `%TS` to the
/// stores, the timestamps of the virtual memory operations never go down
/// in execution order, and every load has a store before it that wrote the
/// value that it reads to its address, at a timestamp that is not after
/// its own. This holds of the first `k` blocks that run, as long as they
/// hold fewer stores than the modulus of the field.
pub proof fn lemma_interpreted_log_in_order_and_backed(
    bls: Seq<BlockV>,
    entry: usize,
    vals: Seq<u64>,
    io_size: usize,
    k: nat,
    p: u64,
    w: nat,
)
    requires
        entry < bls.len(),
        crate::prover::declare_inputs(
            crate::prover::initial_regs(),
            bls[entry as int].inputs,
            vals,
            0,
            0,
            p,
        ) is Ok,
        run(
            bls,
            io_size,
            crate::prover::start_of(
                crate::prover::declare_inputs(
                    crate::prover::initial_regs(),
                    bls[entry as int].inputs,
                    vals,
                    0,
                    0,
                    p,
                )->Ok_0,
                entry,
            ),
            k,
            p,
        ) is Ok,
        program_ts_safe(bls, w),
        k * w < p,
    ensures
        stamps_ordered(
            whole_log(
                run(
                    bls,
                    io_size,
                    crate::prover::start_of(
                        crate::prover::declare_inputs(
                            crate::prover::initial_regs(),
                            bls[entry as int].inputs,
                            vals,
                            0,
                            0,
                            p,
                        )->Ok_0,
                        entry,
                    ),
                    k,
                    p,
                )->Ok_0,
            ),
        ),
        loads_backed(
            whole_log(
                run(
                    bls,
                    io_size,
                    crate::prover::start_of(
                        crate::prover::declare_inputs(
                            crate::prover::initial_regs(),
                            bls[entry as int].inputs,
                            vals,
                            0,
                            0,
                            p,
                        )->Ok_0,
                        entry,
                    ),
                    k,
                    p,
                )->Ok_0,
            ),
        ),
{
    let init = crate::prover::initial_regs();
    let regs = crate::prover::declare_inputs(init, bls[entry as int].inputs, vals, 0, 0, p)->Ok_0;
    lemma_ts_is_not_as();
    assert(ts_safe(bls[entry as int]));
    lemma_declare_inputs_keeps(init, bls[entry as int].inputs, vals, 0, 0, p, reg_ts());
    assert(reg(init, reg_ts()) == Ok::<Value, crate::blocks::Error>(Value::Field(0)));
    assert(ts_now(regs) == Some(0int));
    lemma_log_in_order_and_backed(bls, io_size, regs, entry, k, p, w);
}

/// In a run of a program whose blocks leave `%TS` to the stores, the
/// timestamps of the virtual memory operations never go down in execution
/// order, and every load has a store before it that wrote the value that
/// it reads to its address, at a timestamp that is not after its own.
pub proof fn lemma_log_in_order_and_backed(
    bls: Seq<BlockV>,
    io_size: usize,
    regs: RegsV,
    entry: usize,
    k: nat,
    p: u64,
    w: nat,
)
    requires
        entry < bls.len(),
        run(bls, io_size, crate::prover::start_of(regs, entry), k, p) is Ok,
        program_ts_safe(bls, w),
        ts_now(regs) is Some,
        ts_now(regs)->Some_0 + k * w < p,
    ensures
        stamps_ordered(
            whole_log(run(bls, io_size, crate::prover::start_of(regs, entry), k, p)->Ok_0),
        ),
        loads_backed(
            whole_log(run(bls, io_size, crate::prover::start_of(regs, entry), k, p)->Ok_0),
        ),
{
    let start = crate::prover::start_of(regs, entry);
    lemma_run_keeps_log(bls, io_size, start, k, p, w);
    let r = run(bls, io_size, start, k, p)->Ok_0;
    assert(whole_log(r) + fresh_log(r.m).vir_ops =~= whole_log(r));
}

} // verus!
