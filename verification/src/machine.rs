//! The state of the interpreter and the meaning of one instruction: the
//! register file, the physical stack, the virtual memory, and the log of
//! memory operations of the block in hand.

use crate::ast::{
    lhs_view, ExprV, Expression, LhsV, StmtV, Ty,
    TypedIdentifierOrAssignee,
};
use crate::blocks::{ty_of_type, type_impl_, ContentV, Error};
use crate::blocks::{fails, yields};
use crate::names::{reg_as, reg_bp, reg_sp, reg_ts};
use crate::value::{
    binary_op, binary_value, field_add, literal_, literal_value, to_field,
    to_usize, unary_op, unary_value, Value,
};
use crate::zgen::ZGen;
use vstd::hash_map::StringHashMap;
use vstd::prelude::*;
use vstd::string::*;

verus! {

/// The tag of a store in the log of virtual memory operations.
pub const STORE: u64 = 0;

/// The tag of a load in the log of virtual memory operations.
pub const LOAD: u64 = 1;

/// One memory operation. An operation on the physical stack has an
/// address and the data; one on virtual memory also says whether it loads
/// or stores, and carries the timestamp.
#[derive(Clone, Copy, Debug, PartialEq, Eq, Structural)]
pub struct MemOp {
    /// The address as a number, by which operations are ordered.
    pub addr: usize,
    /// The address as a field element.
    pub addr_t: Value,
    /// The data read or written.
    pub data_t: Value,
    /// `LOAD` or `STORE`, for virtual memory.
    pub ls_t: Option<Value>,
    /// The timestamp as a number, for virtual memory.
    pub ts: Option<usize>,
    /// The timestamp as a field element, for virtual memory.
    pub ts_t: Option<Value>,
}

impl MemOp {
    /// An operation on the physical stack.
    pub open spec fn phy(addr: usize, addr_t: Value, data_t: Value) -> MemOp {
        MemOp { addr, addr_t, data_t, ls_t: None, ts: None, ts_t: None }
    }

    /// An operation on virtual memory.
    pub open spec fn vir(
        addr: usize,
        addr_t: Value,
        data_t: Value,
        ls: u64,
        ts: usize,
        ts_t: Value,
    ) -> MemOp {
        MemOp {
            addr,
            addr_t,
            data_t,
            ls_t: Some(Value::Field(ls)),
            ts: Some(ts),
            ts_t: Some(ts_t),
        }
    }

    /// An operation on the physical stack.
    pub fn new(addr: usize, addr_t: Value, data_t: Value) -> (r: MemOp)
        ensures
            r == MemOp::phy(addr, addr_t, data_t),
    {
        MemOp { addr, addr_t, data_t, ls_t: None, ts: None, ts_t: None }
    }

    /// An operation on virtual memory.
    pub fn new_vir(addr: usize, addr_t: Value, data_t: Value, ls: u64, ts: usize, ts_t: Value) -> (r:
        MemOp)
        ensures
            r == MemOp::vir(addr, addr_t, data_t, ls, ts, ts_t),
    {
        MemOp {
            addr,
            addr_t,
            data_t,
            ls_t: Some(Value::Field(ls)),
            ts: Some(ts),
            ts_t: Some(ts_t),
        }
    }
}

/// The register file.
pub type RegsV = Map<Seq<char>, Value>;

/// The state of the interpreter.
pub struct Machine {
    /// The register file.
    pub regs: StringHashMap<Value>,
    /// The physical stack.
    pub phy_mem: Vec<Value>,
    /// The virtual memory. An address that nothing was stored to holds
    /// `None`.
    pub vir_mem: Vec<Option<Value>>,
    /// The stack operations of the block in hand, in execution order.
    pub phy_ops: Vec<MemOp>,
    /// The virtual memory operations of the block in hand, in execution
    /// order.
    pub vir_ops: Vec<MemOp>,
}

/// The view of a [`Machine`].
pub struct MachineV {
    pub regs: RegsV,
    pub phy_mem: Seq<Value>,
    pub vir_mem: Seq<Option<Value>>,
    pub phy_ops: Seq<MemOp>,
    pub vir_ops: Seq<MemOp>,
}

impl View for Machine {
    type V = MachineV;

    open spec fn view(&self) -> MachineV {
        MachineV {
            regs: self.regs@,
            phy_mem: self.phy_mem@,
            vir_mem: self.vir_mem@,
            phy_ops: self.phy_ops@,
            vir_ops: self.vir_ops@,
        }
    }
}

impl MachineV {
    /// The state with the registers `regs`.
    pub open spec fn with_regs(self, regs: RegsV) -> MachineV {
        MachineV {
            regs,
            phy_mem: self.phy_mem,
            vir_mem: self.vir_mem,
            phy_ops: self.phy_ops,
            vir_ops: self.vir_ops,
        }
    }

    /// The state after `v` is pushed onto the stack at `addr`.
    pub open spec fn pushed(self, addr: usize, v: Value, p: u64) -> MachineV {
        MachineV {
            regs: self.regs,
            phy_mem: self.phy_mem.push(v),
            vir_mem: self.vir_mem,
            phy_ops: self.phy_ops.push(MemOp::phy(addr, to_field(addr, p), v)),
            vir_ops: self.vir_ops,
        }
    }

    /// The state after the stack value at `addr` went to register `id`.
    pub open spec fn popped(self, regs: RegsV, addr: usize, p: u64) -> MachineV {
        MachineV {
            regs,
            phy_mem: self.phy_mem,
            vir_mem: self.vir_mem,
            phy_ops: self.phy_ops.push(
                MemOp::phy(addr, to_field(addr, p), self.phy_mem[addr as int]),
            ),
            vir_ops: self.vir_ops,
        }
    }

    /// The state after `v` is stored at `addr` under the registers `regs`
    /// and the timestamp `ts_t`.
    pub open spec fn stored(
        self,
        regs: RegsV,
        addr: usize,
        addr_t: Value,
        v: Value,
        ts: usize,
        ts_t: Value,
    ) -> MachineV {
        MachineV {
            regs,
            phy_mem: self.phy_mem,
            vir_mem: grown(self.vir_mem, addr + 1).update(addr as int, Some(v)),
            phy_ops: self.phy_ops,
            vir_ops: self.vir_ops.push(MemOp::vir(addr, addr_t, v, STORE, ts, ts_t)),
        }
    }

    /// The state after `v` is loaded from `addr` under the registers
    /// `regs` and the timestamp `ts_t`.
    pub open spec fn loaded(
        self,
        regs: RegsV,
        addr: usize,
        addr_t: Value,
        v: Value,
        ts: usize,
        ts_t: Value,
    ) -> MachineV {
        MachineV {
            regs,
            phy_mem: self.phy_mem,
            vir_mem: self.vir_mem,
            phy_ops: self.phy_ops,
            vir_ops: self.vir_ops.push(MemOp::vir(addr, addr_t, v, LOAD, ts, ts_t)),
        }
    }
}

/// The memory `mem`, filled up to `n` cells with cells that nothing was
/// stored to.
pub open spec fn grown(mem: Seq<Option<Value>>, n: int) -> Seq<Option<Value>> {
    if mem.len() >= n {
        mem
    } else {
        mem + Seq::new((n - mem.len()) as nat, |i: int| None::<Value>)
    }
}

/// The value of register `name`.
pub open spec fn reg(regs: RegsV, name: Seq<char>) -> Result<Value, Error> {
    if regs.contains_key(name) {
        Ok(regs[name])
    } else {
        Err(Error::UndefinedBeforeUse)
    }
}

/// The registers after `v` is assigned to the register `name`, which must
/// hold a value of the type of `v`.
pub open spec fn assign(regs: RegsV, name: Seq<char>, v: Value) -> Result<RegsV, Error> {
    if !regs.contains_key(name) {
        Err(Error::UndefinedBeforeUse)
    } else if regs[name].ty_spec() != v.ty_spec() {
        Err(Error::TypeMismatch)
    } else {
        Ok(regs.insert(name, v))
    }
}

/// The value of the expression `e` under the registers `regs`, in the
/// field of modulus `p`.
///
/// A ternary evaluates its guard, which must be a boolean, and then the
/// branch that the guard selects. Calls, arrays and structs have no value.
pub open spec fn eval(regs: RegsV, e: ExprV, p: u64) -> Result<Value, Error>
    decreases e,
{
    match e {
        ExprV::Ternary(c, a, b) => match eval(regs, *c, p) {
            Err(x) => Err(x),
            Ok(Value::Bool(t)) => if t {
                eval(regs, *a, p)
            } else {
                eval(regs, *b, p)
            },
            Ok(_) => Err(Error::TypeMismatch),
        },
        ExprV::Binary(op, l, r) => match eval(regs, *l, p) {
            Err(x) => Err(x),
            Ok(a) => match eval(regs, *r, p) {
                Err(x) => Err(x),
                Ok(b) => binary_value(op, a, b, p),
            },
        },
        ExprV::Unary(op, x) => match eval(regs, *x, p) {
            Err(x) => Err(x),
            Ok(a) => unary_value(op, a, p),
        },
        ExprV::Identifier(name) => reg(regs, name),
        ExprV::Literal(l) => literal_value(l, p),
        _ => Err(Error::Unsupported),
    }
}

/// The registers after the definition `lhs = expression`.
///
/// A declaration needs the declared type to be the type of the value, and
/// binds the name. An assignment needs the name bound to a value of the
/// same type.
pub open spec fn exec_definition(regs: RegsV, lhs: Seq<LhsV>, expression: ExprV, p: u64) -> Result<
    RegsV,
    Error,
> {
    if lhs.len() > 1 {
        Err(Error::Unsupported)
    } else {
        match eval(regs, expression, p) {
            Err(e) => Err(e),
            Ok(v) => if lhs.len() == 0 {
                Ok(regs)
            } else {
                match lhs[0] {
                    LhsV::TypedIdentifier(ty, name) => match ty_of_type(ty) {
                        Err(e) => Err(e),
                        Ok(decl_ty) => if decl_ty != v.ty_spec() {
                            Err(Error::TypeMismatch)
                        } else {
                            Ok(regs.insert(name, v))
                        },
                    },
                    LhsV::Assignee(name) => assign(regs, name, v),
                    LhsV::IndexedAssignee(_) => Err(Error::Unsupported),
                }
            },
        }
    }
}

/// The stack address `base + off`, where register `base` holds a field
/// element that fits a `usize`.
pub open spec fn stack_addr(regs: RegsV, base: Seq<char>, off: usize) -> Result<int, Error> {
    match reg(regs, base) {
        Err(e) => Err(e),
        Ok(v) => match to_usize(v) {
            Err(e) => Err(e),
            Ok(b) => Ok(b + off),
        },
    }
}

/// The virtual address `arr + idx`, as a number and as a field element.
pub open spec fn vir_addr(regs: RegsV, arr: Seq<char>, idx: Value, p: u64) -> Result<
    (usize, Value),
    Error,
> {
    match reg(regs, arr) {
        Err(e) => Err(e),
        Ok(a) => match field_add(a, idx, p) {
            Err(e) => Err(e),
            Ok(addr_t) => match to_usize(addr_t) {
                Err(e) => Err(e),
                Ok(addr) => Ok((addr, addr_t)),
            },
        },
    }
}

/// The timestamp in `%TS`, as a number and as a field element.
pub open spec fn timestamp(regs: RegsV) -> Result<(usize, Value), Error> {
    match reg(regs, reg_ts()) {
        Err(e) => Err(e),
        Ok(ts_t) => match to_usize(ts_t) {
            Err(e) => Err(e),
            Ok(ts) => Ok((ts, ts_t)),
        },
    }
}

/// The registers after `%TS` went up by one; the registers themselves for
/// a store that initialises.
pub open spec fn bump_ts(regs: RegsV, init: bool, p: u64) -> Result<RegsV, Error> {
    if init {
        Ok(regs)
    } else {
        match reg(regs, reg_ts()) {
            Err(e) => Err(e),
            Ok(t) => match field_add(t, Value::Field(1), p) {
                Err(e) => Err(e),
                Ok(t1) => Ok(regs.insert(reg_ts(), t1)),
            },
        }
    }
}

/// `MemPush((id, off))`: `%SP + off` must be the length of the stack; the
/// value of `id` is appended to the stack, and the push is logged.
pub open spec fn exec_push(m: MachineV, id: Seq<char>, off: usize, p: u64) -> Result<
    MachineV,
    Error,
> {
    match stack_addr(m.regs, reg_sp(), off) {
        Err(e) => Err(e),
        Ok(a) => if a != m.phy_mem.len() {
            Err(Error::StackInvariant)
        } else {
            match reg(m.regs, id) {
                Err(e) => Err(e),
                Ok(v) => Ok(m.pushed(a as usize, v, p)),
            }
        },
    }
}

/// `MemPop((id, off))`: `%BP + off` must be below the length of the stack;
/// the stack value there is assigned to `id`, and the pop is logged.
pub open spec fn exec_pop(m: MachineV, id: Seq<char>, off: usize, p: u64) -> Result<
    MachineV,
    Error,
> {
    match stack_addr(m.regs, reg_bp(), off) {
        Err(e) => Err(e),
        Ok(a) => if a >= m.phy_mem.len() {
            Err(Error::StackInvariant)
        } else {
            match assign(m.regs, id, m.phy_mem[a]) {
                Err(e) => Err(e),
                Ok(regs) => Ok(m.popped(regs, a as usize, p)),
            }
        },
    }
}

/// `ArrayInit((arr, len))`: `arr` is bound to the allocation cursor `%AS`,
/// and the cursor goes up by the value of `len`.
pub open spec fn exec_array_init(m: MachineV, arr: Seq<char>, len: ExprV, p: u64) -> Result<
    MachineV,
    Error,
> {
    match reg(m.regs, reg_as()) {
        Err(e) => Err(e),
        Ok(cursor) => match eval(m.regs, len, p) {
            Err(e) => Err(e),
            Ok(l) => match field_add(cursor, l, p) {
                Err(e) => Err(e),
                Ok(next) => Ok(m.with_regs(m.regs.insert(arr, cursor).insert(reg_as(), next))),
            },
        },
    }
}

/// `Store((val, arr, idx, init))`: the value of `val` is written to the
/// address `arr + idx`, the memory growing as far as needed; unless the
/// store initialises, `%TS` goes up by one first; and the store is logged
/// with the timestamp.
pub open spec fn exec_store(
    m: MachineV,
    val: ExprV,
    arr: Seq<char>,
    idx: ExprV,
    init: bool,
    p: u64,
) -> Result<
    MachineV,
    Error,
> {
    match eval(m.regs, val, p) {
        Err(e) => Err(e),
        Ok(v) => match eval(m.regs, idx, p) {
            Err(e) => Err(e),
            Ok(iv) => match vir_addr(m.regs, arr, iv, p) {
                Err(e) => Err(e),
                Ok((addr, addr_t)) => match bump_ts(m.regs, init, p) {
                    Err(e) => Err(e),
                    Ok(regs) => match timestamp(regs) {
                        Err(e) => Err(e),
                        Ok((ts, ts_t)) => Ok(m.stored(regs, addr, addr_t, v, ts, ts_t)),
                    },
                },
            },
        },
    }
}

/// The value that virtual memory holds at `addr`.
pub open spec fn vir_read(mem: Seq<Option<Value>>, addr: usize) -> Result<Value, Error> {
    if addr < mem.len() && mem[addr as int] is Some {
        Ok(mem[addr as int]->Some_0)
    } else {
        Err(Error::UninitializedMemory)
    }
}

/// `Load((var, ty, arr, idx))`: the value at the address `arr + idx`, which
/// must have been stored and have the type `ty`, is bound to `var`; the
/// load is logged with the timestamp, which stays.
pub open spec fn exec_load(m: MachineV, var: Seq<char>, ty: Ty, arr: Seq<char>, idx: ExprV, p: u64) -> Result<
    MachineV,
    Error,
> {
    match eval(m.regs, idx, p) {
        Err(e) => Err(e),
        Ok(iv) => match vir_addr(m.regs, arr, iv, p) {
            Err(e) => Err(e),
            Ok((addr, addr_t)) => match vir_read(m.vir_mem, addr) {
                Err(e) => Err(e),
                Ok(v) => if v.ty_spec() != ty {
                    Err(Error::TypeMismatch)
                } else {
                    match timestamp(m.regs) {
                        Err(e) => Err(e),
                        Ok((ts, ts_t)) => Ok(
                            m.loaded(m.regs.insert(var, v), addr, addr_t, v, ts, ts_t),
                        ),
                    }
                },
            },
        },
    }
}

/// `DummyLoad`: a load from address 0 that binds no register.
pub open spec fn exec_dummy_load(m: MachineV, p: u64) -> Result<MachineV, Error> {
    match vir_read(m.vir_mem, 0) {
        Err(e) => Err(e),
        Ok(v) => match timestamp(m.regs) {
            Err(e) => Err(e),
            Ok((ts, ts_t)) => Ok(m.loaded(m.regs, 0, to_field(0, p), v, ts, ts_t)),
        },
    }
}

/// A statement inside a block: an assertion must evaluate to `true`; a
/// definition binds or assigns; any other statement has no place in a
/// block.
pub open spec fn exec_stmt(m: MachineV, s: StmtV, p: u64) -> Result<MachineV, Error> {
    match s {
        StmtV::Assertion(e) => match eval(m.regs, e, p) {
            Ok(Value::Bool(true)) => Ok(m),
            _ => Err(Error::ConstFoldFailure),
        },
        StmtV::Definition { lhs, expression } => match exec_definition(
            m.regs,
            lhs,
            expression,
            p,
        ) {
            Err(e) => Err(e),
            Ok(regs) => Ok(m.with_regs(regs)),
        },
        _ => Err(Error::Unsupported),
    }
}

/// The state after the instruction `c`.
pub open spec fn exec_instr(m: MachineV, c: ContentV, p: u64) -> Result<MachineV, Error>
    decreases c,
{
    match c {
        ContentV::MemPush(id, off) => exec_push(m, id, off, p),
        ContentV::MemPop(id, off) => exec_pop(m, id, off, p),
        ContentV::ArrayInit(arr, len) => exec_array_init(m, arr, len, p),
        ContentV::Store(val, arr, idx, init) => exec_store(m, val, arr, idx, init, p),
        ContentV::Load(var, ty, arr, idx) => exec_load(m, var, ty, arr, idx, p),
        ContentV::DummyLoad => exec_dummy_load(m, p),
        ContentV::Branch(cond, t, f) => match eval(m.regs, cond, p) {
            Ok(Value::Bool(c)) => if c {
                exec_instrs(m, t, 0, p)
            } else {
                exec_instrs(m, f, 0, p)
            },
            _ => Err(Error::ConstFoldFailure),
        },
        ContentV::Stmt(s) => exec_stmt(m, s, p),
    }
}

/// The state after the instructions from the `i`-th on, in order.
pub open spec fn exec_instrs(m: MachineV, cs: Seq<ContentV>, i: int, p: u64) -> Result<
    MachineV,
    Error,
>
    decreases cs, cs.len() - i,
{
    if i < 0 || i >= cs.len() {
        Ok(m)
    } else {
        match exec_instr(m, cs[i], p) {
            Err(e) => Err(e),
            Ok(m1) => exec_instrs(m1, cs, i + 1, p),
        }
    }
}

impl Machine {
    /// A machine with no registers, an empty stack and an empty memory.
    pub fn new() -> (r: Machine)
        ensures
            r@.regs == Map::<Seq<char>, Value>::empty(),
            r@.phy_mem == Seq::<Value>::empty(),
            r@.vir_mem == Seq::<Option<Value>>::empty(),
            r@.phy_ops == Seq::<MemOp>::empty(),
            r@.vir_ops == Seq::<MemOp>::empty(),
    {
        Machine {
            regs: StringHashMap::new(),
            phy_mem: Vec::new(),
            vir_mem: Vec::new(),
            phy_ops: Vec::new(),
            vir_ops: Vec::new(),
        }
    }

    /// Binds register `name` to `v`.
    pub fn set(&mut self, name: &str, v: Value)
        ensures
            final(self)@ == old(self)@.with_regs(old(self)@.regs.insert(name@, v)),
    {
        self.regs.insert(String::from_str(name), v);
    }

    /// The value of register `name`.
    pub fn get(&self, name: &str) -> (r: Option<Value>)
        ensures
            match r {
                Some(v) => reg(self@.regs, name@) == Ok::<Value, Error>(v),
                None => reg(self@.regs, name@) == Err::<Value, Error>(Error::UndefinedBeforeUse),
            },
    {
        cvar_lookup(&self.regs, name)
    }
}

/// The value of register `name`.
pub fn cvar_lookup(regs: &StringHashMap<Value>, name: &str) -> (r: Option<Value>)
    ensures
        match r {
            Some(v) => reg(regs@, name@) == Ok::<Value, Error>(v),
            None => reg(regs@, name@) == Err::<Value, Error>(Error::UndefinedBeforeUse),
        },
{
    match regs.get(name) {
        Some(v) => Some(*v),
        None => None,
    }
}

/// The value of register `name`, which must be there.
pub fn read_reg(regs: &StringHashMap<Value>, name: &str) -> (r: Result<Value, Error>)
    ensures
        r == reg(regs@, name@),
{
    match regs.get(name) {
        Some(v) => Ok(*v),
        None => Err(Error::UndefinedBeforeUse),
    }
}

/// Assigns `v` to register `name`.
pub fn cvar_assign(regs: &mut StringHashMap<Value>, name: &String, v: Value) -> (r: Result<
    (),
    Error,
>)
    ensures
        match r {
            Ok(_) => yields(assign(old(regs)@, name@, v), final(regs)@),
            Err(e) => fails(assign(old(regs)@, name@, v), e) && final(regs)@ == old(regs)@,
        },
{
    let cur: Option<Value> = cvar_lookup(regs, name.as_str());
    match cur {
        None => Err(Error::UndefinedBeforeUse),
        Some(old_v) => {
            if old_v.ty() != v.ty() {
                Err(Error::TypeMismatch)
            } else {
                regs.insert(name.clone(), v);
                Ok(())
            }
        },
    }
}

impl ZGen {
    /// The value of the expression `e` under the registers `regs`.
    pub fn expr_impl_(&self, regs: &StringHashMap<Value>, e: &Expression) -> (r: Result<
        Value,
        Error,
    >)
        ensures
            r == eval(regs@, e@, self.modulus),
        decreases e,
    {
        match e {
            Expression::Ternary(c, a, b) => {
                match self.expr_impl_(regs, c)? {
                    Value::Bool(t) => if t {
                        self.expr_impl_(regs, a)
                    } else {
                        self.expr_impl_(regs, b)
                    },
                    _ => Err(Error::TypeMismatch),
                }
            },
            Expression::Binary(op, l, r) => {
                let a = self.expr_impl_(regs, l)?;
                let b = self.expr_impl_(regs, r)?;
                binary_op(*op, a, b, self.modulus)
            },
            Expression::Unary(op, x) => {
                let a = self.expr_impl_(regs, x)?;
                unary_op(*op, a, self.modulus)
            },
            Expression::Identifier(name) => read_reg(regs, name.as_str()),
            Expression::Literal(l) => literal_(l, self.modulus),
            _ => Err(Error::Unsupported),
        }
    }

    /// Runs the definition `lhs = expression`.
    pub fn eval_definition_(
        &self,
        regs: &mut StringHashMap<Value>,
        lhs: &Vec<TypedIdentifierOrAssignee>,
        expression: &Expression,
    ) -> (r: Result<(), Error>)
        ensures
            match r {
                Ok(_) => yields(
                    exec_definition(old(regs)@, lhs_view(lhs@), expression@, self.modulus),
                    final(regs)@,
                ),
                Err(e) => fails(
                    exec_definition(old(regs)@, lhs_view(lhs@), expression@, self.modulus),
                    e,
                ),
            },
    {
        if lhs.len() > 1 {
            return Err(Error::Unsupported);
        }
        let v = self.expr_impl_(regs, expression)?;
        if lhs.len() == 0 {
            return Ok(());
        }
        match &lhs[0] {
            TypedIdentifierOrAssignee::TypedIdentifier(ty, name) => {
                let decl_ty = type_impl_(*ty)?;
                if decl_ty != v.ty() {
                    return Err(Error::TypeMismatch);
                }
                regs.insert(name.clone(), v);
                Ok(())
            },
            TypedIdentifierOrAssignee::Assignee(name) => cvar_assign(regs, name, v),
            TypedIdentifierOrAssignee::IndexedAssignee(_) => Err(Error::Unsupported),
        }
    }
}

} // verus!
