//! The interpreter of block programs: it runs the blocks from the entry
//! block until the program halts, and gives the value returned, how often
//! each block ran, the state after each block, and the memory operations
//! sorted by address and timestamp.

use crate::ast::{Expression, Statement, Ty};
use crate::blocks::{blocks_view, Block, BlockContent, BlockTerminator, BlockV, Error, TermV};
use crate::blocks::{fails, yields};
use crate::machine::{
    cvar_assign, cvar_lookup, eval, exec_array_init, exec_dummy_load, exec_instr, exec_instrs,
    exec_load, exec_pop, exec_push, exec_stmt, exec_store, read_reg, reg, Machine, MachineV,
    MemOp, RegsV, LOAD, STORE,
};
use crate::names::{
    dec_digits, decimal_width, padded, padded_name, reg_as, reg_in, reg_out, reg_ret, reg_ts,
};
use crate::value::{
    add_fields, modulus_of, t_to_usize, to_usize, ty_modulus, usize_to_field, zero_of, zero_value,
    Value,
};
use crate::zgen::ZGen;
use vstd::hash_map::StringHashMap;
use vstd::prelude::*;
use vstd::string::*;

verus! {

/// What running one block left behind.
#[derive(Clone, Debug, PartialEq, Eq)]
pub struct ExecState {
    /// The label of the block.
    pub blk_id: usize,
    /// The output registers `%o1`, `%o2`, ... after the block; place 0 is
    /// never filled.
    pub reg_out: Vec<Option<Value>>,
    /// The label of the block that ran next; 0 where the program halted.
    pub succ_id: usize,
    /// The stack operations of the block, in execution order.
    pub phy_mem_op: Vec<MemOp>,
    /// The virtual memory operations of the block, in execution order.
    pub vir_mem_op: Vec<MemOp>,
}

/// The view of an [`ExecState`].
pub struct ExecStateV {
    pub blk_id: usize,
    pub reg_out: Seq<Option<Value>>,
    pub succ_id: usize,
    pub phy_mem_op: Seq<MemOp>,
    pub vir_mem_op: Seq<MemOp>,
}

impl View for ExecState {
    type V = ExecStateV;

    open spec fn view(&self) -> ExecStateV {
        ExecStateV {
            blk_id: self.blk_id,
            reg_out: self.reg_out@,
            succ_id: self.succ_id,
            phy_mem_op: self.phy_mem_op@,
            vir_mem_op: self.vir_mem_op@,
        }
    }
}

/// The views of a list of states.
pub open spec fn states_view(s: Seq<ExecState>) -> Seq<ExecStateV> {
    Seq::new(s.len(), |i: int| s[i]@)
}

/// `n` registers, none of them filled.
pub open spec fn no_regs(n: usize) -> Seq<Option<Value>> {
    Seq::new(n as nat, |i: int| None::<Value>)
}

/// `n` registers, none of them filled.
fn empty_regs(n: usize) -> (r: Vec<Option<Value>>)
    ensures
        r@ == no_regs(n),
{
    let mut r: Vec<Option<Value>> = Vec::new();
    let mut i: usize = 0;
    while i < n
        invariant
            i <= n,
            r@ == no_regs(i),
        decreases n - i,
    {
        r.push(None);
        i += 1;
        assert(r@ =~= no_regs(i));
    }
    r
}

impl ExecState {
    /// The state of the block `blk_id` before it runs.
    pub fn new(blk_id: usize, io_size: usize) -> (r: ExecState)
        ensures
            r@ == (ExecStateV {
                blk_id,
                reg_out: no_regs(io_size),
                succ_id: 0,
                phy_mem_op: Seq::empty(),
                vir_mem_op: Seq::empty(),
            }),
    {
        ExecState {
            blk_id,
            reg_out: empty_regs(io_size),
            succ_id: 0,
            phy_mem_op: Vec::new(),
            vir_mem_op: Vec::new(),
        }
    }
}

/// The registers `prefix<1>` to `prefix<io_size - 1>`, their numbers
/// filled up with zeros to the width of `io_size`; place 0 is not filled.
pub open spec fn snapshot(regs: RegsV, prefix: Seq<char>, io_size: usize) -> Seq<Option<Value>> {
    Seq::new(
        io_size as nat,
        |i: int|
            if i == 0 {
                None
            } else {
                let name = padded_name(prefix, i as nat, dec_digits(io_size as nat).len());
                if regs.contains_key(name) {
                    Some(regs[name])
                } else {
                    None
                }
            },
    )
}

/// The registers `prefix<1>` to `prefix<io_size - 1>`.
fn take_snapshot(regs: &StringHashMap<Value>, prefix: &str, io_size: usize) -> (r: Vec<
    Option<Value>,
>)
    ensures
        r@ == snapshot(regs@, prefix@, io_size),
{
    let width = decimal_width(io_size);
    let mut r: Vec<Option<Value>> = Vec::new();
    let mut i: usize = 0;
    while i < io_size
        invariant
            i <= io_size,
            width == dec_digits(io_size as nat).len(),
            r.len() == i,
            forall|j: int| 0 <= j < i ==> r@[j] == snapshot(regs@, prefix@, io_size)[j],
        decreases io_size - i,
    {
        if i == 0 {
            r.push(None);
        } else {
            let name = padded(prefix, i, width);
            r.push(cvar_lookup(regs, name.as_str()));
        }
        i += 1;
    }
    assert(r@ =~= snapshot(regs@, prefix@, io_size));
    r
}

/// The name of the output register that feeds the input register `name`:
/// every `i` becomes an `o`.
pub open spec fn output_name(name: Seq<char>) -> Seq<char> {
    Seq::new(
        name.len(),
        |i: int|
            if name[i] == 'i' {
                'o'
            } else {
                name[i]
            },
    )
}

/// The name of the output register that feeds the input register `name`.
pub fn make_output_name(name: &str) -> (r: String)
    ensures
        r@ == output_name(name@),
{
    let n = name.unicode_len();
    let mut r = String::new();
    let mut i: usize = 0;
    assert(r@ =~= output_name(name@).subrange(0, 0));
    while i < n
        invariant
            i <= n,
            n == name@.len(),
            r@ == output_name(name@).subrange(0, i as int),
        decreases n - i,
    {
        proof {
            reveal_strlit("o");
        }
        let c = name.get_char(i);
        if c == 'i' {
            r.append("o");
        } else {
            r.append(name.substring_char(i, i + 1));
        }
        i += 1;
        assert(r@ =~= output_name(name@).subrange(0, i as int));
    }
    assert(output_name(name@).subrange(0, n as int) =~= output_name(name@));
    r
}

/// The registers after each declared input from the `i`-th on is bound to
/// the output register of the same number, or to the zero of its type
/// where that register is not defined.
pub open spec fn bind_inputs(regs: RegsV, inputs: Seq<(Seq<char>, Option<Ty>)>, i: int) -> RegsV
    decreases inputs.len() - i,
{
    if i < 0 || i >= inputs.len() {
        regs
    } else {
        match inputs[i].1 {
            None => bind_inputs(regs, inputs, i + 1),
            Some(ty) => {
                let from = output_name(inputs[i].0);
                let v = if regs.contains_key(from) {
                    regs[from]
                } else {
                    zero_of(ty)
                };
                bind_inputs(regs.insert(inputs[i].0, v), inputs, i + 1)
            },
        }
    }
}

/// The registers that are there before the program inputs: the timestamp
/// `%TS` and the allocation cursor `%AS`, both 0.
pub open spec fn initial_regs() -> RegsV {
    Map::<Seq<char>, Value>::empty().insert(reg_ts(), Value::Field(0)).insert(
        reg_as(),
        Value::Field(0),
    )
}

/// The value of type `ty` that the program input `v` stands for.
pub open spec fn input_value(ty: Ty, v: u64, p: u64) -> Result<Value, Error> {
    match ty {
        Ty::Bool => Err(Error::TypeMismatch),
        Ty::Field => if p > 0 {
            Ok(Value::Field((v % p) as u64))
        } else {
            Err(Error::TypeMismatch)
        },
        Ty::Uint(w) => match modulus_of(ty, p) {
            Some(m) => if v < m {
                Ok(Value::Uint(w, v))
            } else {
                Err(Error::TypeMismatch)
            },
            None => Err(Error::TypeMismatch),
        },
    }
}

/// The `k`-th program input, after a 0 that is put in front of `vals`.
pub open spec fn input_at(vals: Seq<u64>, k: int) -> u64 {
    if k == 0 {
        0
    } else {
        vals[k - 1]
    }
}

/// The registers after each declared input from the `i`-th on got its
/// program input, the `k`-th input first.
pub open spec fn declare_inputs(
    regs: RegsV,
    inputs: Seq<(Seq<char>, Option<Ty>)>,
    vals: Seq<u64>,
    i: int,
    k: int,
    p: u64,
) -> Result<RegsV, Error>
    decreases inputs.len() - i,
{
    if i < 0 || i >= inputs.len() {
        Ok(regs)
    } else {
        match inputs[i].1 {
            None => declare_inputs(regs, inputs, vals, i + 1, k, p),
            Some(ty) => if k > vals.len() {
                Err(Error::UndefinedBeforeUse)
            } else {
                match input_value(ty, input_at(vals, k), p) {
                    Err(e) => Err(e),
                    Ok(v) => declare_inputs(
                        regs.insert(inputs[i].0, v),
                        inputs,
                        vals,
                        i + 1,
                        k + 1,
                        p,
                    ),
                }
            },
        }
    }
}

/// Where the terminator `t` leads in a program of `n` blocks: to a block,
/// or, with `None`, to the end of the program.
pub open spec fn exec_term(regs: RegsV, t: TermV, n: int, p: u64) -> Result<Option<usize>, Error> {
    match t {
        TermV::Transition(e) => match eval(regs, e, p) {
            Err(x) => Err(x),
            Ok(v) => match to_usize(v) {
                Err(_) => Err(Error::InvalidTerminator),
                Ok(l) => if l < n {
                    Ok(Some(l))
                } else {
                    Err(Error::InvalidTerminator)
                },
            },
        },
        TermV::FuncCall(_) => Err(Error::InvalidTerminator),
        TermV::ProgTerm => Ok(None),
    }
}

/// The machine with an empty log.
pub open spec fn fresh_log(m: MachineV) -> MachineV {
    MachineV {
        regs: m.regs,
        phy_mem: m.phy_mem,
        vir_mem: m.vir_mem,
        phy_ops: Seq::empty(),
        vir_ops: Seq::empty(),
    }
}

/// The state after the block `b`, whose log holds the memory operations of
/// the block, and where the block leads.
pub open spec fn exec_block(m: MachineV, b: BlockV, n: int, p: u64) -> Result<
    (MachineV, Option<usize>),
    Error,
> {
    match exec_instrs(fresh_log(m), b.instructions, 0, p) {
        Err(e) => Err(e),
        Ok(m1) => match exec_term(m1.regs, b.terminator, n, p) {
            Err(e) => Err(e),
            Ok(next) => Ok((m1, next)),
        },
    }
}

/// A run in progress: the machine, the states of the blocks that ran, the
/// block to run next, and whether the program has halted.
pub struct RunV {
    pub m: MachineV,
    pub states: Seq<ExecStateV>,
    pub nb: usize,
    pub done: bool,
}

/// One step of a run: the block `r.nb` runs. Every block but the first
/// binds its declared inputs before it runs.
pub open spec fn step(bls: Seq<BlockV>, io_size: usize, r: RunV, p: u64) -> Result<RunV, Error> {
    let b = bls[r.nb as int];
    let regs = if r.states.len() == 0 {
        r.m.regs
    } else {
        bind_inputs(r.m.regs, b.inputs, 0)
    };
    match exec_block(r.m.with_regs(regs), b, bls.len() as int, p) {
        Err(e) => Err(e),
        Ok((m1, next)) => Ok(
            RunV {
                m: m1,
                states: r.states.push(
                    ExecStateV {
                        blk_id: r.nb,
                        reg_out: snapshot(m1.regs, reg_out(), io_size),
                        succ_id: match next {
                            Some(l) => l,
                            None => 0,
                        },
                        phy_mem_op: m1.phy_ops,
                        vir_mem_op: m1.vir_ops,
                    },
                ),
                nb: match next {
                    Some(l) => l,
                    None => 0,
                },
                done: next is None,
            },
        ),
    }
}

/// The run of the program from `start` after at most `k` blocks.
pub open spec fn run(bls: Seq<BlockV>, io_size: usize, start: RunV, k: nat, p: u64) -> Result<
    RunV,
    Error,
>
    decreases k,
{
    if k == 0 {
        Ok(start)
    } else {
        match run(bls, io_size, start, (k - 1) as nat, p) {
            Err(e) => Err(e),
            Ok(r) => if r.done {
                Ok(r)
            } else {
                step(bls, io_size, r, p)
            },
        }
    }
}

/// The state in which a run starts: the registers of the program inputs,
/// an empty stack and an empty memory.
pub open spec fn start_of(regs: RegsV, entry: usize) -> RunV {
    RunV {
        m: MachineV {
            regs,
            phy_mem: Seq::empty(),
            vir_mem: Seq::empty(),
            phy_ops: Seq::empty(),
            vir_ops: Seq::empty(),
        },
        states: Seq::empty(),
        nb: entry,
        done: false,
    }
}

/// How many of the first `k` states are states of the block `b`.
pub open spec fn count_block(states: Seq<ExecStateV>, b: usize, k: int) -> nat
    decreases k,
{
    if k <= 0 {
        0
    } else if states[k - 1].blk_id == b {
        count_block(states, b, k - 1) + 1
    } else {
        count_block(states, b, k - 1)
    }
}

/// The place of a timestamp in the order of memory operations: an
/// operation without a timestamp comes first.
pub open spec fn ts_rank(ts: Option<usize>) -> int {
    match ts {
        None => -1,
        Some(t) => t as int,
    }
}

/// Whether `a` may stand before `b`: by address, then by timestamp.
pub open spec fn key_le(a: MemOp, b: MemOp) -> bool {
    a.addr < b.addr || (a.addr == b.addr && ts_rank(a.ts) <= ts_rank(b.ts))
}

/// Where `x` goes into the first `i` operations of the sorted list `out`:
/// behind the last operation that may stand before it.
pub open spec fn ins_pos(out: Seq<MemOp>, x: MemOp, i: int) -> int
    decreases i,
{
    if i <= 0 {
        0
    } else if key_le(out[i - 1], x) {
        i
    } else {
        ins_pos(out, x, i - 1)
    }
}

/// The first `n` operations of `s`, sorted by address and timestamp;
/// operations of the same address and timestamp keep their order.
pub open spec fn stable_sort(s: Seq<MemOp>, n: int) -> Seq<MemOp>
    decreases n,
{
    if n <= 0 {
        Seq::empty()
    } else {
        let out = stable_sort(s, n - 1);
        out.insert(ins_pos(out, s[n - 1], out.len() as int), s[n - 1])
    }
}

/// Whether `s` is in order.
pub open spec fn sorted(s: Seq<MemOp>) -> bool {
    forall|i: int, j: int| 0 <= i < j < s.len() ==> key_le(s[i], s[j])
}

/// The stack operations of the first `n` states, in execution order.
pub open spec fn all_phy(states: Seq<ExecStateV>, n: int) -> Seq<MemOp>
    decreases n,
{
    if n <= 0 {
        Seq::empty()
    } else {
        all_phy(states, n - 1) + states[n - 1].phy_mem_op
    }
}

/// The virtual memory operations of the first `n` states, in execution
/// order.
pub open spec fn all_vir(states: Seq<ExecStateV>, n: int) -> Seq<MemOp>
    decreases n,
{
    if n <= 0 {
        Seq::empty()
    } else {
        all_vir(states, n - 1) + states[n - 1].vir_mem_op
    }
}

proof fn lemma_ins_pos_bounds(out: Seq<MemOp>, x: MemOp, i: int)
    requires
        0 <= i <= out.len(),
    ensures
        0 <= ins_pos(out, x, i) <= i,
        ins_pos(out, x, i) > 0 ==> key_le(out[ins_pos(out, x, i) - 1], x),
        forall|j: int| ins_pos(out, x, i) <= j < i ==> !key_le(#[trigger] out[j], x),
    decreases i,
{
    if i > 0 && !key_le(out[i - 1], x) {
        lemma_ins_pos_bounds(out, x, i - 1);
    }
}

/// Sorting keeps the operations, each as often as it is there, and puts
/// them in order.
pub proof fn lemma_stable_sort_sorted(s: Seq<MemOp>, n: int)
    requires
        0 <= n <= s.len(),
    ensures
        stable_sort(s, n).len() == n,
        sorted(stable_sort(s, n)),
        stable_sort(s, n).to_multiset() == s.subrange(0, n).to_multiset(),
    decreases n,
{
    if n <= 0 {
        assert(stable_sort(s, n) =~= s.subrange(0, n));
    } else {
        lemma_stable_sort_sorted(s, n - 1);
        assert(s.subrange(0, n) =~= s.subrange(0, n - 1).push(s[n - 1]));
        vstd::seq_lib::to_multiset_build(s.subrange(0, n - 1), s[n - 1]);
        lemma_ins_pos_bounds(stable_sort(s, n - 1), s[n - 1], stable_sort(s, n - 1).len() as int);
        vstd::seq_lib::to_multiset_insert(
            stable_sort(s, n - 1),
            ins_pos(stable_sort(s, n - 1), s[n - 1], stable_sort(s, n - 1).len() as int),
            s[n - 1],
        );
        let out = stable_sort(s, n - 1);
        let x = s[n - 1];
        let pos = ins_pos(out, x, out.len() as int);
        lemma_ins_pos_bounds(out, x, out.len() as int);
        let res = out.insert(pos, x);
        assert forall|i: int, j: int| 0 <= i < j < res.len() implies key_le(res[i], res[j]) by {
            if j < pos {
                assert(res[i] == out[i] && res[j] == out[j]);
            } else if j == pos {
                assert(res[i] == out[i]);
                if i < pos - 1 {
                    assert(key_le(out[i], out[pos - 1]));
                }
            } else if i < pos {
                assert(res[i] == out[i] && res[j] == out[j - 1]);
            } else if i == pos {
                assert(res[j] == out[j - 1]);
                assert(!key_le(out[j - 1], x));
            } else {
                assert(res[i] == out[i - 1] && res[j] == out[j - 1]);
            }
        }
    }
}

/// Whether `a` may stand before `b`.
pub fn mem_op_le(a: &MemOp, b: &MemOp) -> (r: bool)
    ensures
        r == key_le(*a, *b),
{
    if a.addr != b.addr {
        a.addr < b.addr
    } else {
        match (a.ts, b.ts) {
            (None, _) => true,
            (Some(_), None) => false,
            (Some(x), Some(y)) => x <= y,
        }
    }
}

/// Sorts the operations by address and timestamp; operations of the same
/// address and timestamp keep their order.
pub fn sort_ops(ops: &Vec<MemOp>) -> (out: Vec<MemOp>)
    ensures
        out@ == stable_sort(ops@, ops.len() as int),
        out.len() == ops.len(),
        sorted(out@),
        out@.to_multiset() == ops@.to_multiset(),
{
    let mut out: Vec<MemOp> = Vec::new();
    let mut n: usize = 0;
    while n < ops.len()
        invariant
            n <= ops.len(),
            out@ == stable_sort(ops@, n as int),
            out.len() == n,
        decreases ops.len() - n,
    {
        let x = ops[n];
        let mut i: usize = out.len();
        while i > 0 && !mem_op_le(&out[i - 1], &x)
            invariant
                i <= out.len(),
                ins_pos(out@, x, out.len() as int) == ins_pos(out@, x, i as int),
            decreases i,
        {
            i -= 1;
        }
        out.insert(i, x);
        n += 1;
    }
    proof {
        lemma_stable_sort_sorted(ops@, ops.len() as int);
        assert(ops@.subrange(0, ops.len() as int) =~= ops@);
    }
    out
}

/// The memory operations of all states, the stack operations and the
/// virtual memory operations each sorted by address and timestamp.
pub fn sort_by_mem(bl_exec_state: &Vec<ExecState>) -> (r: (Vec<MemOp>, Vec<MemOp>))
    ensures
        r.0@ == stable_sort(
            all_phy(states_view(bl_exec_state@), bl_exec_state.len() as int),
            all_phy(states_view(bl_exec_state@), bl_exec_state.len() as int).len() as int,
        ),
        r.1@ == stable_sort(
            all_vir(states_view(bl_exec_state@), bl_exec_state.len() as int),
            all_vir(states_view(bl_exec_state@), bl_exec_state.len() as int).len() as int,
        ),
        sorted(r.0@),
        sorted(r.1@),
        r.0@.to_multiset() == all_phy(
            states_view(bl_exec_state@),
            bl_exec_state.len() as int,
        ).to_multiset(),
        r.1@.to_multiset() == all_vir(
            states_view(bl_exec_state@),
            bl_exec_state.len() as int,
        ).to_multiset(),
{
    let ghost sv = states_view(bl_exec_state@);
    let mut phy: Vec<MemOp> = Vec::new();
    let mut vir: Vec<MemOp> = Vec::new();
    let mut n: usize = 0;
    while n < bl_exec_state.len()
        invariant
            n <= bl_exec_state.len(),
            sv == states_view(bl_exec_state@),
            phy@ == all_phy(sv, n as int),
            vir@ == all_vir(sv, n as int),
        decreases bl_exec_state.len() - n,
    {
        let st = &bl_exec_state[n];
        let ghost phy0 = phy@;
        let ghost vir0 = vir@;
        let mut i: usize = 0;
        while i < st.phy_mem_op.len()
            invariant
                i <= st.phy_mem_op.len(),
                phy@ == phy0 + st.phy_mem_op@.subrange(0, i as int),
            decreases st.phy_mem_op.len() - i,
        {
            phy.push(st.phy_mem_op[i]);
            i += 1;
            assert(phy@ =~= phy0 + st.phy_mem_op@.subrange(0, i as int));
        }
        let mut i: usize = 0;
        while i < st.vir_mem_op.len()
            invariant
                i <= st.vir_mem_op.len(),
                vir@ == vir0 + st.vir_mem_op@.subrange(0, i as int),
            decreases st.vir_mem_op.len() - i,
        {
            vir.push(st.vir_mem_op[i]);
            i += 1;
            assert(vir@ =~= vir0 + st.vir_mem_op@.subrange(0, i as int));
        }
        assert(st.phy_mem_op@.subrange(0, st.phy_mem_op.len() as int) =~= st.phy_mem_op@);
        assert(st.vir_mem_op@.subrange(0, st.vir_mem_op.len() as int) =~= st.vir_mem_op@);
        assert(sv[n as int] == st@);
        n += 1;
    }
    (sort_ops(&phy), sort_ops(&vir))
}

impl ZGen {
    /// `MemPush((id, off))`.
    fn eval_push_(&self, m: &mut Machine, id: &String, off: usize) -> (r: Result<(), Error>)
        requires
            self.modulus > 0,
        ensures
            match r {
                Ok(_) => yields(exec_push(old(m)@, id@, off, self.modulus), final(m)@),
                Err(e) => fails(exec_push(old(m)@, id@, off, self.modulus), e),
            },
    {
        let sp_t = read_reg(&m.regs, "%SP")?;
        let sp = t_to_usize(sp_t)?;
        let len = m.phy_mem.len();
        if off > usize::MAX - sp || sp + off != len {
            return Err(Error::StackInvariant);
        }
        let v = read_reg(&m.regs, id.as_str())?;
        m.phy_mem.push(v);
        m.phy_ops.push(MemOp::new(sp + off, usize_to_field(sp + off, self.modulus), v));
        Ok(())
    }

    /// `MemPop((id, off))`.
    fn eval_pop_(&self, m: &mut Machine, id: &String, off: usize) -> (r: Result<(), Error>)
        requires
            self.modulus > 0,
        ensures
            match r {
                Ok(_) => yields(exec_pop(old(m)@, id@, off, self.modulus), final(m)@),
                Err(e) => fails(exec_pop(old(m)@, id@, off, self.modulus), e),
            },
    {
        let bp_t = read_reg(&m.regs, "%BP")?;
        let bp = t_to_usize(bp_t)?;
        let len = m.phy_mem.len();
        if off > usize::MAX - bp || bp + off >= len {
            return Err(Error::StackInvariant);
        }
        let t = m.phy_mem[bp + off];
        cvar_assign(&mut m.regs, id, t)?;
        m.phy_ops.push(MemOp::new(bp + off, usize_to_field(bp + off, self.modulus), t));
        Ok(())
    }

    /// `ArrayInit((arr, len))`.
    fn eval_array_init_(&self, m: &mut Machine, arr: &String, len: &Expression) -> (r: Result<
        (),
        Error,
    >)
        ensures
            match r {
                Ok(_) => yields(exec_array_init(old(m)@, arr@, len@, self.modulus), final(m)@),
                Err(e) => fails(exec_array_init(old(m)@, arr@, len@, self.modulus), e),
            },
    {
        let cursor = read_reg(&m.regs, "%AS")?;
        let l = self.expr_impl_(&m.regs, len)?;
        let next = add_fields(cursor, l, self.modulus)?;
        m.regs.insert(arr.clone(), cursor);
        m.regs.insert(String::from_str("%AS"), next);
        Ok(())
    }

    /// The virtual address `arr + idx`.
    fn eval_vir_addr_(&self, regs: &StringHashMap<Value>, arr: &String, idx: Value) -> (r: Result<
        (usize, Value),
        Error,
    >)
        ensures
            r == crate::machine::vir_addr(regs@, arr@, idx, self.modulus),
    {
        let a = read_reg(regs, arr.as_str())?;
        let addr_t = add_fields(a, idx, self.modulus)?;
        let addr = t_to_usize(addr_t)?;
        Ok((addr, addr_t))
    }

    /// The timestamp in `%TS`.
    fn eval_timestamp_(&self, regs: &StringHashMap<Value>) -> (r: Result<(usize, Value), Error>)
        ensures
            r == crate::machine::timestamp(regs@),
    {
        let ts_t = read_reg(regs, "%TS")?;
        let ts = t_to_usize(ts_t)?;
        Ok((ts, ts_t))
    }

    /// `Store((val, arr, idx, init))`.
    fn eval_store_(
        &self,
        m: &mut Machine,
        val: &Expression,
        arr: &String,
        idx: &Expression,
        init: bool,
    ) -> (r: Result<(), Error>)
        ensures
            match r {
                Ok(_) => yields(
                    exec_store(old(m)@, val@, arr@, idx@, init, self.modulus),
                    final(m)@,
                ),
                Err(e) => fails(exec_store(old(m)@, val@, arr@, idx@, init, self.modulus), e),
            },
    {
        let v = self.expr_impl_(&m.regs, val)?;
        let iv = self.expr_impl_(&m.regs, idx)?;
        let (addr, addr_t) = self.eval_vir_addr_(&m.regs, arr, iv)?;
        if !init {
            let t = read_reg(&m.regs, "%TS")?;
            let t1 = add_fields(t, Value::Field(1), self.modulus)?;
            m.regs.insert(String::from_str("%TS"), t1);
        }
        let (ts, ts_t) = self.eval_timestamp_(&m.regs)?;
        let ghost mem0 = m.vir_mem@;
        let ghost regs1 = m.regs@;
        while m.vir_mem.len() <= addr
            invariant
                m.vir_mem@ == crate::machine::grown(mem0, m.vir_mem.len() as int),
                m.vir_mem.len() >= mem0.len(),
                m.vir_mem.len() <= addr + 1 || m.vir_mem.len() == mem0.len(),
                m.regs@ == regs1,
                m.phy_mem == old(m).phy_mem,
                m.phy_ops == old(m).phy_ops,
                m.vir_ops == old(m).vir_ops,
            decreases addr + 1 - m.vir_mem.len(),
        {
            let ghost before = m.vir_mem@;
            m.vir_mem.push(None);
            assert(m.vir_mem@ =~= crate::machine::grown(mem0, m.vir_mem.len() as int));
        }
        assert(m.vir_mem@ =~= crate::machine::grown(mem0, addr + 1));
        m.vir_mem[addr] = Some(v);
        m.vir_ops.push(MemOp::new_vir(addr, addr_t, v, STORE, ts, ts_t));
        Ok(())
    }

    /// The value that virtual memory holds at `addr`.
    fn eval_vir_read_(&self, mem: &Vec<Option<Value>>, addr: usize) -> (r: Result<Value, Error>)
        ensures
            r == crate::machine::vir_read(mem@, addr),
    {
        if addr < mem.len() {
            match mem[addr] {
                Some(v) => Ok(v),
                None => Err(Error::UninitializedMemory),
            }
        } else {
            Err(Error::UninitializedMemory)
        }
    }

    /// `Load((var, ty, arr, idx))`.
    fn eval_load_(&self, m: &mut Machine, var: &String, ty: Ty, arr: &String, idx: &Expression) -> (r:
        Result<(), Error>)
        ensures
            match r {
                Ok(_) => yields(exec_load(old(m)@, var@, ty, arr@, idx@, self.modulus), final(m)@),
                Err(e) => fails(exec_load(old(m)@, var@, ty, arr@, idx@, self.modulus), e),
            },
    {
        let iv = self.expr_impl_(&m.regs, idx)?;
        let (addr, addr_t) = self.eval_vir_addr_(&m.regs, arr, iv)?;
        let v = self.eval_vir_read_(&m.vir_mem, addr)?;
        if v.ty() != ty {
            return Err(Error::TypeMismatch);
        }
        let (ts, ts_t) = self.eval_timestamp_(&m.regs)?;
        m.regs.insert(var.clone(), v);
        m.vir_ops.push(MemOp::new_vir(addr, addr_t, v, LOAD, ts, ts_t));
        Ok(())
    }

    /// `DummyLoad`.
    fn eval_dummy_load_(&self, m: &mut Machine) -> (r: Result<(), Error>)
        requires
            self.modulus > 0,
        ensures
            match r {
                Ok(_) => yields(exec_dummy_load(old(m)@, self.modulus), final(m)@),
                Err(e) => fails(exec_dummy_load(old(m)@, self.modulus), e),
            },
    {
        let v = self.eval_vir_read_(&m.vir_mem, 0)?;
        let (ts, ts_t) = self.eval_timestamp_(&m.regs)?;
        m.vir_ops.push(MemOp::new_vir(0, usize_to_field(0, self.modulus), v, LOAD, ts, ts_t));
        Ok(())
    }

    /// A statement inside a block.
    fn eval_stmt_(&self, m: &mut Machine, s: &Statement) -> (r: Result<(), Error>)
        ensures
            match r {
                Ok(_) => yields(exec_stmt(old(m)@, s@, self.modulus), final(m)@),
                Err(e) => fails(exec_stmt(old(m)@, s@, self.modulus), e),
            },
    {
        match s {
            Statement::Assertion(e) => match self.expr_impl_(&m.regs, e) {
                Ok(Value::Bool(true)) => Ok(()),
                _ => Err(Error::ConstFoldFailure),
            },
            Statement::Definition { lhs, expression } => self.eval_definition_(
                &mut m.regs,
                lhs,
                expression,
            ),
            _ => Err(Error::Unsupported),
        }
    }

    /// Runs the instruction `c`.
    pub fn bl_eval_instr_(&self, m: &mut Machine, c: &BlockContent) -> (r: Result<(), Error>)
        requires
            self.modulus > 0,
        ensures
            match r {
                Ok(_) => yields(exec_instr(old(m)@, c@, self.modulus), final(m)@),
                Err(e) => fails(exec_instr(old(m)@, c@, self.modulus), e),
            },
        decreases c,
    {
        match c {
            BlockContent::MemPush((id, off)) => self.eval_push_(m, id, *off),
            BlockContent::MemPop((id, off)) => self.eval_pop_(m, id, *off),
            BlockContent::ArrayInit((arr, len)) => self.eval_array_init_(m, arr, len),
            BlockContent::Store((val, arr, idx, init)) => self.eval_store_(
                m,
                val,
                arr,
                idx,
                *init,
            ),
            BlockContent::Load((var, ty, arr, idx)) => self.eval_load_(m, var, *ty, arr, idx),
            BlockContent::DummyLoad() => self.eval_dummy_load_(m),
            BlockContent::Branch((cond, t, f)) => match self.expr_impl_(&m.regs, cond) {
                Ok(Value::Bool(b)) => if b {
                    self.bl_eval_instrs_(m, t)
                } else {
                    self.bl_eval_instrs_(m, f)
                },
                _ => Err(Error::ConstFoldFailure),
            },
            BlockContent::Stmt(s) => self.eval_stmt_(m, s),
        }
    }

    /// Runs the instructions `cs` in order.
    pub fn bl_eval_instrs_(&self, m: &mut Machine, cs: &Vec<BlockContent>) -> (r: Result<
        (),
        Error,
    >)
        requires
            self.modulus > 0,
        ensures
            match r {
                Ok(_) => yields(
                    exec_instrs(old(m)@, crate::blocks::contents_view(cs@), 0, self.modulus),
                    final(m)@,
                ),
                Err(e) => fails(
                    exec_instrs(old(m)@, crate::blocks::contents_view(cs@), 0, self.modulus),
                    e,
                ),
            },
        decreases cs,
    {
        let ghost cv = crate::blocks::contents_view(cs@);
        let mut i: usize = 0;
        while i < cs.len()
            invariant
                i <= cs.len(),
                self.modulus > 0,
                cv == crate::blocks::contents_view(cs@),
                exec_instrs(old(m)@, cv, 0, self.modulus) == exec_instrs(
                    m@,
                    cv,
                    i as int,
                    self.modulus,
                ),
            decreases cs.len() - i,
        {
            proof {
                broadcast use vstd::std_specs::vec::axiom_vec_index_decreases;

                assert(decreases_to!(cs => cs[i as int]));
            }
            match self.bl_eval_instr_(m, &cs[i]) {
                Err(e) => {
                    return Err(e);
                },
                Ok(_) => {},
            }
            i += 1;
        }
        Ok(())
    }

    /// Where the terminator `t` leads in a program of `n` blocks.
    pub fn eval_terminator_(&self, regs: &StringHashMap<Value>, t: &BlockTerminator, n: usize) -> (r:
        Result<Option<usize>, Error>)
        ensures
            r == exec_term(regs@, t@, n as int, self.modulus),
    {
        match t {
            BlockTerminator::Transition(e) => {
                let v = self.expr_impl_(regs, e)?;
                match t_to_usize(v) {
                    Err(_) => Err(Error::InvalidTerminator),
                    Ok(l) => if l < n {
                        Ok(Some(l))
                    } else {
                        Err(Error::InvalidTerminator)
                    },
                }
            },
            BlockTerminator::FuncCall(_) => Err(Error::InvalidTerminator),
            BlockTerminator::ProgTerm() => Ok(None),
        }
    }

    /// Runs the block `bl` of a program of `n` blocks. Afterwards the log
    /// of the machine holds the memory operations of the block. Gives the
    /// label of the next block, or `None` where the program halts.
    pub fn bl_eval_impl_(&self, bl: &Block, m: &mut Machine, n: usize) -> (r: Result<
        Option<usize>,
        Error,
    >)
        requires
            self.modulus > 0,
        ensures
            match r {
                Ok(next) => yields(
                    exec_block(old(m)@, bl@, n as int, self.modulus),
                    (final(m)@, next),
                ),
                Err(e) => fails(exec_block(old(m)@, bl@, n as int, self.modulus), e),
            },
    {
        m.phy_ops = Vec::new();
        m.vir_ops = Vec::new();
        assert(m@ == fresh_log(old(m)@));
        self.bl_eval_instrs_(m, &bl.instructions)?;
        self.eval_terminator_(&m.regs, &bl.terminator, n)
    }
}

/// Whether the run of at most `k` blocks shows the failure `e`: it stops
/// with `e`, or it halts without a value in `%RET`.
pub open spec fn run_fails(bls: Seq<BlockV>, io_size: usize, start: RunV, k: nat, p: u64, e: Error) -> bool {
    match run(bls, io_size, start, k, p) {
        Err(x) => x == e,
        Ok(r) => r.done && !r.m.regs.contains_key(reg_ret()) && e == Error::UndefinedBeforeUse,
    }
}

/// Whether interpretation fails with `e`: there is no field, the entry
/// label is no block, a program input is missing or does not fit its
/// type, or the run fails.
pub open spec fn eval_fails(
    bls: Seq<BlockV>,
    entry: usize,
    vals: Seq<u64>,
    io_size: usize,
    p: u64,
    e: Error,
) -> bool {
    if p == 0 {
        e == Error::Unsupported
    } else if entry >= bls.len() {
        e == Error::InvalidTerminator
    } else {
        match declare_inputs(initial_regs(), bls[entry as int].inputs, vals, 0, 0, p) {
            Err(x) => e == x,
            Ok(regs) => exists|k: nat|
                #[trigger] run_fails(bls, io_size, start_of(regs, entry), k, p, e),
        }
    }
}

/// What interpretation gives when the program halts.
pub struct Outcome {
    /// The value of `%RET` at the end.
    pub ret: Value,
    /// How often each block ran.
    pub bl_exec_count: Seq<usize>,
    /// The input registers before the first block.
    pub prog_reg_in: Seq<Option<Value>>,
    /// The states of the blocks that ran, in execution order.
    pub bl_exec_state: Seq<ExecStateV>,
}

/// Whether `out` is what the program gives: the run halts after exactly
/// the blocks of `out.bl_exec_state`, with `out.ret` in `%RET`.
pub open spec fn eval_gives(
    bls: Seq<BlockV>,
    entry: usize,
    vals: Seq<u64>,
    io_size: usize,
    p: u64,
    out: Outcome,
) -> bool {
    &&& p > 0
    &&& entry < bls.len()
    &&& declare_inputs(initial_regs(), bls[entry as int].inputs, vals, 0, 0, p) is Ok
    &&& {
        let regs = declare_inputs(initial_regs(), bls[entry as int].inputs, vals, 0, 0, p)->Ok_0;
        let r = run(bls, io_size, start_of(regs, entry), out.bl_exec_state.len(), p);
        &&& r is Ok
        &&& r->Ok_0.done
        &&& r->Ok_0.states == out.bl_exec_state
        &&& reg(r->Ok_0.m.regs, reg_ret()) == Ok::<Value, Error>(out.ret)
        &&& out.prog_reg_in == snapshot(regs, reg_in(), io_size)
        &&& out.bl_exec_count.len() == bls.len()
        &&& forall|b: int|
            0 <= b < bls.len() ==> #[trigger] out.bl_exec_count[b] == count_block(
                out.bl_exec_state,
                b as usize,
                out.bl_exec_state.len() as int,
            )
    }
}

/// A run that fails makes interpretation fail.
proof fn lemma_eval_fails(
    bls: Seq<BlockV>,
    entry: usize,
    vals: Seq<u64>,
    io_size: usize,
    p: u64,
    e: Error,
    regs: RegsV,
    k: nat,
)
    requires
        p > 0,
        entry < bls.len(),
        declare_inputs(initial_regs(), bls[entry as int].inputs, vals, 0, 0, p) == Ok::<RegsV, Error>(
            regs,
        ),
        run_fails(bls, io_size, start_of(regs, entry), k, p, e),
    ensures
        eval_fails(bls, entry, vals, io_size, p, e),
{
    let d = declare_inputs(initial_regs(), bls[entry as int].inputs, vals, 0, 0, p);
    assert(d is Ok);
    assert(d->Ok_0 == regs);
    assert(run_fails(bls, io_size, start_of(d->Ok_0, entry), k, p, e));
    assert(exists|k2: nat| #[trigger] run_fails(bls, io_size, start_of(d->Ok_0, entry), k2, p, e));
    assert(match d {
        Err(x) => e == x,
        Ok(regs) => exists|k2: nat|
            #[trigger] run_fails(bls, io_size, start_of(regs, entry), k2, p, e),
    });
}

/// A copy of `ops`.
fn copy_ops(ops: &Vec<MemOp>) -> (r: Vec<MemOp>)
    ensures
        r@ == ops@,
{
    let mut r: Vec<MemOp> = Vec::new();
    let mut i: usize = 0;
    while i < ops.len()
        invariant
            i <= ops.len(),
            r@ == ops@.subrange(0, i as int),
        decreases ops.len() - i,
    {
        r.push(ops[i]);
        i += 1;
        assert(r@ =~= ops@.subrange(0, i as int));
    }
    assert(ops@.subrange(0, ops.len() as int) =~= ops@);
    r
}

/// The value of type `ty` that the program input `v` stands for.
fn make_input_value(ty: Ty, v: u64, p: u64) -> (r: Result<Value, Error>)
    ensures
        r == input_value(ty, v, p),
{
    match ty {
        Ty::Bool => Err(Error::TypeMismatch),
        Ty::Field => if p > 0 {
            Ok(Value::Field(v % p))
        } else {
            Err(Error::TypeMismatch)
        },
        Ty::Uint(w) => match ty_modulus(ty, p) {
            Some(m) => if (v as u128) < m {
                Ok(Value::Uint(w, v))
            } else {
                Err(Error::TypeMismatch)
            },
            None => Err(Error::TypeMismatch),
        },
    }
}

/// Gives each declared input of `bl` its program input.
fn declare_block_inputs(bl: &Block, entry_regs: &Vec<u64>, p: u64) -> (r: Result<
    StringHashMap<Value>,
    Error,
>)
    ensures
        match r {
            Ok(regs) => yields(
                declare_inputs(initial_regs(), bl@.inputs, entry_regs@, 0, 0, p),
                regs@,
            ),
            Err(e) => fails(declare_inputs(initial_regs(), bl@.inputs, entry_regs@, 0, 0, p), e),
        },
{
    let ghost iv = bl@.inputs;
    let mut regs: StringHashMap<Value> = StringHashMap::new();
    regs.insert(String::from_str("%TS"), Value::Field(0));
    regs.insert(String::from_str("%AS"), Value::Field(0));
    let mut i: usize = 0;
    let mut k: usize = 0;
    while i < bl.inputs.len()
        invariant
            i <= bl.inputs.len(),
            k <= i,
            iv == bl@.inputs,
            iv.len() == bl.inputs.len(),
            declare_inputs(initial_regs(), iv, entry_regs@, 0, 0, p) == declare_inputs(
                regs@,
                iv,
                entry_regs@,
                i as int,
                k as int,
                p,
            ),
        decreases bl.inputs.len() - i,
    {
        assert(iv[i as int] == (bl.inputs@[i as int].0@, bl.inputs@[i as int].1));
        match bl.inputs[i].1 {
            None => {},
            Some(ty) => {
                if k > entry_regs.len() {
                    return Err(Error::UndefinedBeforeUse);
                }
                let raw = if k == 0 {
                    0
                } else {
                    entry_regs[k - 1]
                };
                let v = make_input_value(ty, raw, p)?;
                regs.insert(bl.inputs[i].0.clone(), v);
                k += 1;
            },
        }
        i += 1;
    }
    Ok(regs)
}

/// Binds each declared input of `bl` to the output register of the same
/// number.
fn bind_block_inputs(bl: &Block, regs: &mut StringHashMap<Value>)
    ensures
        final(regs)@ == bind_inputs(old(regs)@, bl@.inputs, 0),
{
    let ghost iv = bl@.inputs;
    let mut i: usize = 0;
    while i < bl.inputs.len()
        invariant
            i <= bl.inputs.len(),
            iv == bl@.inputs,
            iv.len() == bl.inputs.len(),
            bind_inputs(old(regs)@, iv, 0) == bind_inputs(regs@, iv, i as int),
        decreases bl.inputs.len() - i,
    {
        assert(iv[i as int] == (bl.inputs@[i as int].0@, bl.inputs@[i as int].1));
        match bl.inputs[i].1 {
            None => {},
            Some(ty) => {
                let from = make_output_name(bl.inputs[i].0.as_str());
                let v = match cvar_lookup(regs, from.as_str()) {
                    Some(v) => v,
                    None => zero_value(ty),
                };
                regs.insert(bl.inputs[i].0.clone(), v);
            },
        }
        i += 1;
    }
}

proof fn lemma_count_block_bound(states: Seq<ExecStateV>, b: usize, k: int)
    requires
        0 <= k <= states.len(),
    ensures
        count_block(states, b, k) <= k,
    decreases k,
{
    if k > 0 {
        lemma_count_block_bound(states, b, k - 1);
    }
}

proof fn lemma_count_block_push(states: Seq<ExecStateV>, st: ExecStateV, b: usize, k: int)
    requires
        0 <= k <= states.len(),
    ensures
        count_block(states.push(st), b, k) == count_block(states, b, k),
    decreases k,
{
    if k > 0 {
        lemma_count_block_push(states, st, b, k - 1);
    }
}

impl ZGen {
    /// Interprets the block program `bls` from the block `entry_bl` with
    /// the program inputs `entry_regs`, until the program halts.
    ///
    /// Gives the value returned, how often each block ran, the input
    /// registers before the first block, the state after each block, and
    /// the stack operations and the virtual memory operations, each
    /// sorted by address and timestamp.
    pub fn bl_eval_entry_fn(
        &self,
        entry_bl: usize,
        entry_regs: &Vec<u64>,
        bls: &Vec<Block>,
        io_size: usize,
    ) -> (r: Result<
        (Value, Vec<usize>, Vec<Option<Value>>, Vec<ExecState>, Vec<MemOp>, Vec<MemOp>),
        Error,
    >)
        ensures
            match r {
                Ok((ret, bl_exec_count, prog_reg_in, bl_exec_state, phy, vir)) => {
                    &&& eval_gives(
                        blocks_view(bls@),
                        entry_bl,
                        entry_regs@,
                        io_size,
                        self.modulus,
                        Outcome {
                            ret,
                            bl_exec_count: bl_exec_count@,
                            prog_reg_in: prog_reg_in@,
                            bl_exec_state: states_view(bl_exec_state@),
                        },
                    )
                    &&& phy@ == stable_sort(
                        all_phy(states_view(bl_exec_state@), bl_exec_state.len() as int),
                        all_phy(states_view(bl_exec_state@), bl_exec_state.len() as int).len() as int,
                    )
                    &&& vir@ == stable_sort(
                        all_vir(states_view(bl_exec_state@), bl_exec_state.len() as int),
                        all_vir(states_view(bl_exec_state@), bl_exec_state.len() as int).len() as int,
                    )
                    &&& sorted(phy@)
                    &&& sorted(vir@)
                },
                Err(e) => eval_fails(
                    blocks_view(bls@),
                    entry_bl,
                    entry_regs@,
                    io_size,
                    self.modulus,
                    e,
                ),
            },
    {
        let p = self.modulus;
        if p == 0 {
            return Err(Error::Unsupported);
        }
        let n = bls.len();
        if entry_bl >= n {
            return Err(Error::InvalidTerminator);
        }
        let ghost bv = blocks_view(bls@);
        let regs = declare_block_inputs(&bls[entry_bl], entry_regs, p)?;
        let ghost regs0 = regs@;
        let ghost start = start_of(regs0, entry_bl);
        let prog_reg_in = take_snapshot(&regs, "%i", io_size);
        let mut m = Machine {
            regs,
            phy_mem: Vec::new(),
            vir_mem: Vec::new(),
            phy_ops: Vec::new(),
            vir_ops: Vec::new(),
        };
        let mut bl_exec_count: Vec<usize> = Vec::new();
        let mut b: usize = 0;
        while b < n
            invariant
                b <= n,
                bl_exec_count.len() == b,
                forall|j: int| 0 <= j < b ==> #[trigger] bl_exec_count@[j] == 0,
            decreases n - b,
        {
            bl_exec_count.push(0);
            b += 1;
        }
        let mut bl_exec_state: Vec<ExecState> = Vec::new();
        let mut nb: usize = entry_bl;
        assert(states_view(bl_exec_state@) =~= Seq::empty());
        loop
            invariant
                p == self.modulus,
                p > 0,
                n == bls.len(),
                nb < n,
                entry_bl < n,
                bv == blocks_view(bls@),
                start == start_of(regs0, entry_bl),
                declare_inputs(initial_regs(), bv[entry_bl as int].inputs, entry_regs@, 0, 0, p)
                    == Ok::<RegsV, Error>(regs0),
                prog_reg_in@ == snapshot(regs0, reg_in(), io_size),
                run(bv, io_size, start, bl_exec_state.len() as nat, p) == Ok::<RunV, Error>(
                    RunV { m: m@, states: states_view(bl_exec_state@), nb, done: false },
                ),
                bl_exec_count.len() == n,
                forall|j: int|
                    0 <= j < n ==> #[trigger] bl_exec_count@[j] == count_block(
                        states_view(bl_exec_state@),
                        j as usize,
                        bl_exec_state.len() as int,
                    ),
            decreases usize::MAX - bl_exec_state.len(),
        {
            let ghost r0 = RunV { m: m@, states: states_view(bl_exec_state@), nb, done: false };
            let ghost k0 = bl_exec_state.len() as nat;
            let ghost sv0 = states_view(bl_exec_state@);
            let mut st = ExecState::new(nb, io_size);
            if bl_exec_state.len() > 0 {
                bind_block_inputs(&bls[nb], &mut m.regs);
            }
            assert(bv[nb as int] == bls@[nb as int]@);
            let next = match self.bl_eval_impl_(&bls[nb], &mut m, n) {
                Err(e) => {
                    proof {
                        let k1 = (k0 + 1) as nat;
                        assert(run(bv, io_size, start, (k1 - 1) as nat, p) == Ok::<RunV, Error>(r0));
                        assert(step(bv, io_size, r0, p) == Err::<RunV, Error>(e));
                        assert(run(bv, io_size, start, k1, p) == Err::<RunV, Error>(e));
                        assert(run_fails(bv, io_size, start_of(regs0, entry_bl), k1, p, e));
                        lemma_eval_fails(bv, entry_bl, entry_regs@, io_size, p, e, regs0, k1);
                    }
                    return Err(e);
                },
                Ok(next) => next,
            };
            st.reg_out = take_snapshot(&m.regs, "%o", io_size);
            st.succ_id = match next {
                Some(l) => l,
                None => 0,
            };
            st.phy_mem_op = copy_ops(&m.phy_ops);
            st.vir_mem_op = copy_ops(&m.vir_ops);
            let ghost stv = st@;
            bl_exec_state.push(st);
            proof {
                assert(states_view(bl_exec_state@) =~= sv0.push(stv));
                assert(step(bv, io_size, r0, p) is Ok);
                assert(run(bv, io_size, start, k0 + 1, p) == step(bv, io_size, r0, p));
                assert forall|j: usize| j < n implies #[trigger] count_block(
                    sv0.push(stv),
                    j,
                    k0 as int + 1,
                ) == count_block(sv0, j, k0 as int) + if j == nb {
                    1nat
                } else {
                    0nat
                } by {
                    lemma_count_block_push(sv0, stv, j, k0 as int);
                }
                lemma_count_block_bound(sv0, nb, k0 as int);
            }
            let c = bl_exec_count[nb];
            bl_exec_count[nb] = c + 1;
            match next {
                Some(l) => {
                    nb = l;
                },
                None => {
                    let ret = match cvar_lookup(&m.regs, "%RET") {
                        Some(v) => v,
                        None => {
                            proof {
                                let k1 = (k0 + 1) as nat;
                                assert(run_fails(
                                    bv,
                                    io_size,
                                    start_of(regs0, entry_bl),
                                    k1,
                                    p,
                                    Error::UndefinedBeforeUse,
                                ));
                                lemma_eval_fails(
                                    bv,
                                    entry_bl,
                                    entry_regs@,
                                    io_size,
                                    p,
                                    Error::UndefinedBeforeUse,
                                    regs0,
                                    k1,
                                );
                            }
                            return Err(Error::UndefinedBeforeUse);
                        },
                    };
                    let (phy, vir) = sort_by_mem(&bl_exec_state);
                    return Ok((ret, bl_exec_count, prog_reg_in, bl_exec_state, phy, vir));
                },
            }
        }
    }
}

} // verus!
