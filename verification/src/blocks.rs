//! The block program: blocks, their instructions and terminators, and the
//! expressions that the lowering builds for them.

use crate::ast::{
    BinaryOperator, DecimalSuffix, ExprV, Expression,
    LiteralExpression, Statement, StmtV, Ty, Type,
};
use crate::names::reg_rp;
use vstd::prelude::*;
use vstd::string::*;

verus! {

/// Why lowering, control-flow analysis or interpretation stopped.
#[derive(Clone, Copy, Debug, PartialEq, Eq, Structural)]
pub enum Error {
    /// Generics, several return values or assignment targets, arrays and
    /// structs in expressions, a statement that has no place in a block.
    Unsupported,
    /// A name is used where nothing of that name is defined.
    UndefinedBeforeUse,
    /// A declared type differs from the computed one.
    TypeMismatch,
    /// A push that does not append to the stack, or a pop beyond it.
    StackInvariant,
    /// A load from an address that nothing was stored to.
    UninitializedMemory,
    /// A terminator that names no block.
    InvalidTerminator,
    /// An assertion or a guard that does not evaluate to a constant `true`
    /// or `false`.
    ConstFoldFailure,
}

/// `r` is the success `v`.
pub open spec fn yields<T>(r: Result<T, Error>, v: T) -> bool {
    r == Ok::<T, Error>(v)
}

/// `r` is the failure `e`.
pub open spec fn fails<T>(r: Result<T, Error>, e: Error) -> bool {
    r == Err::<T, Error>(e)
}

/// Where control goes when a block ends: a literal block label, or the
/// label held in the return-pointer register.
#[derive(Clone, Copy, Debug, PartialEq, Eq, Structural)]
pub enum NextBlock {
    Label(usize),
    Rp(),
}

/// The single control transfer at the end of a block.
#[derive(Debug, PartialEq, Eq)]
pub enum BlockTerminator {
    /// An expression that evaluates to a block label: a literal label, the
    /// return-pointer register, or a ternary over such.
    Transition(Expression),
    /// A call by name, before the callee's entry block is known.
    FuncCall(String),
    /// The program halts.
    ProgTerm(),
}

/// The view of a [`BlockTerminator`].
pub enum TermV {
    Transition(ExprV),
    FuncCall(Seq<char>),
    ProgTerm,
}

impl View for BlockTerminator {
    type V = TermV;

    open spec fn view(&self) -> TermV {
        match self {
            BlockTerminator::Transition(e) => TermV::Transition(e@),
            BlockTerminator::FuncCall(f) => TermV::FuncCall(f@),
            BlockTerminator::ProgTerm() => TermV::ProgTerm,
        }
    }
}

impl BlockTerminator {
    /// A deep copy.
    pub fn dup(&self) -> (r: BlockTerminator)
        ensures
            r@ == self@,
    {
        match self {
            BlockTerminator::Transition(e) => BlockTerminator::Transition(e.dup()),
            BlockTerminator::FuncCall(f) => BlockTerminator::FuncCall(f.clone()),
            BlockTerminator::ProgTerm() => BlockTerminator::ProgTerm(),
        }
    }
}

/// One instruction of a block. None transfers control.
#[derive(Debug, PartialEq, Eq)]
pub enum BlockContent {
    /// `MemPush((id, offset))`: spill register `id` to the stack at `%SP + offset`.
    MemPush((String, usize)),
    /// `MemPop((id, offset))`: restore register `id` from the stack at `%BP + offset`.
    MemPop((String, usize)),
    /// `ArrayInit((arr, len))`: bind `arr` to the allocation cursor and
    /// advance the cursor by `len`.
    ArrayInit((String, Expression)),
    /// `Store((val, arr, idx, init))`: write `val` to the address `arr + idx`.
    Store((Expression, String, Expression, bool)),
    /// `Load((var, ty, arr, idx))`: read the address `arr + idx` into `var`.
    Load((String, Ty, String, Expression)),
    /// A load from address 0 that binds no register.
    DummyLoad(),
    /// `Branch((cond, then, else))`: a conditional inside the block.
    Branch((Expression, Vec<BlockContent>, Vec<BlockContent>)),
    /// An assertion or a definition of the source language.
    Stmt(Statement),
}

/// The view of a [`BlockContent`].
pub enum ContentV {
    MemPush(Seq<char>, usize),
    MemPop(Seq<char>, usize),
    ArrayInit(Seq<char>, ExprV),
    Store(ExprV, Seq<char>, ExprV, bool),
    Load(Seq<char>, Ty, Seq<char>, ExprV),
    DummyLoad,
    Branch(ExprV, Seq<ContentV>, Seq<ContentV>),
    Stmt(StmtV),
}

/// The view of an instruction.
pub open spec fn content_view(c: BlockContent) -> ContentV
    decreases c,
{
    match c {
        BlockContent::MemPush((id, off)) => ContentV::MemPush(id@, off),
        BlockContent::MemPop((id, off)) => ContentV::MemPop(id@, off),
        BlockContent::ArrayInit((arr, len)) => ContentV::ArrayInit(arr@, len@),
        BlockContent::Store((val, arr, idx, init)) => ContentV::Store(val@, arr@, idx@, init),
        BlockContent::Load((var, ty, arr, idx)) => ContentV::Load(var@, ty, arr@, idx@),
        BlockContent::DummyLoad() => ContentV::DummyLoad,
        BlockContent::Branch((cond, t, f)) => ContentV::Branch(
            cond@,
            contents_view(t@),
            contents_view(f@),
        ),
        BlockContent::Stmt(s) => ContentV::Stmt(s@),
    }
}

/// The views of a list of instructions.
pub open spec fn contents_view(cs: Seq<BlockContent>) -> Seq<ContentV>
    decreases cs,
{
    Seq::new(
        cs.len(),
        |i: int|
            if 0 <= i < cs.len() {
                content_view(cs[i])
            } else {
                ContentV::DummyLoad
            },
    )
}

impl View for BlockContent {
    type V = ContentV;

    open spec fn view(&self) -> ContentV {
        content_view(*self)
    }
}

impl BlockContent {
    /// A deep copy.
    pub fn dup(&self) -> (r: BlockContent)
        ensures
            r@ == self@,
        decreases self,
    {
        match self {
            BlockContent::MemPush((id, off)) => BlockContent::MemPush((id.clone(), *off)),
            BlockContent::MemPop((id, off)) => BlockContent::MemPop((id.clone(), *off)),
            BlockContent::ArrayInit((arr, len)) => BlockContent::ArrayInit(
                (arr.clone(), len.dup()),
            ),
            BlockContent::Store((val, arr, idx, init)) => BlockContent::Store(
                (val.dup(), arr.clone(), idx.dup(), *init),
            ),
            BlockContent::Load((var, ty, arr, idx)) => BlockContent::Load(
                (var.clone(), *ty, arr.clone(), idx.dup()),
            ),
            BlockContent::DummyLoad() => BlockContent::DummyLoad(),
            BlockContent::Branch((cond, t, f)) => BlockContent::Branch(
                (cond.dup(), dup_contents(t), dup_contents(f)),
            ),
            BlockContent::Stmt(s) => BlockContent::Stmt(s.dup()),
        }
    }
}

/// A deep copy of a list of instructions.
pub fn dup_contents(cs: &Vec<BlockContent>) -> (out: Vec<BlockContent>)
    ensures
        contents_view(out@) == contents_view(cs@),
    decreases cs,
{
    let mut out: Vec<BlockContent> = Vec::new();
    let mut i: usize = 0;
    while i < cs.len()
        invariant
            i <= cs.len(),
            out.len() == i,
            forall|j: int| 0 <= j < i ==> out@[j]@ == cs@[j]@,
        decreases cs.len() - i,
    {
        proof {
            broadcast use vstd::std_specs::vec::axiom_vec_index_decreases;

            assert(decreases_to!(cs => cs[i as int]));
        }
        out.push(cs[i].dup());
        i += 1;
    }
    assert(contents_view(out@) =~= contents_view(cs@));
    out
}

/// A declared input of a block: the register's name and, where the block
/// reads it, its type.
pub open spec fn inputs_view(inputs: Seq<(String, Option<Ty>)>) -> Seq<(Seq<char>, Option<Ty>)> {
    Seq::new(inputs.len(), |i: int| (inputs[i].0@, inputs[i].1))
}

/// A basic block: a label, the input registers it declares, straight-line
/// instructions, and one terminator.
#[derive(Debug, PartialEq, Eq)]
pub struct Block {
    pub name: usize,
    pub inputs: Vec<(String, Option<Ty>)>,
    pub instructions: Vec<BlockContent>,
    pub terminator: BlockTerminator,
}

/// The view of a [`Block`].
pub struct BlockV {
    pub name: usize,
    pub inputs: Seq<(Seq<char>, Option<Ty>)>,
    pub instructions: Seq<ContentV>,
    pub terminator: TermV,
}

impl View for Block {
    type V = BlockV;

    open spec fn view(&self) -> BlockV {
        BlockV {
            name: self.name,
            inputs: inputs_view(self.inputs@),
            instructions: contents_view(self.instructions@),
            terminator: self.terminator@,
        }
    }
}

/// The view of a list of blocks.
pub open spec fn blocks_view(bs: Seq<Block>) -> Seq<BlockV> {
    Seq::new(bs.len(), |i: int| bs[i]@)
}

/// A literal of field type.
pub open spec fn field_lit(v: u64) -> ExprV {
    ExprV::Literal(LiteralExpression::DecimalLiteral(v, Some(DecimalSuffix::Field)))
}

/// The expression that a terminator holds for `nb`: the label as a field
/// literal, or the return-pointer register.
pub open spec fn coda_expr(nb: NextBlock) -> ExprV {
    match nb {
        NextBlock::Label(l) => field_lit(l as u64),
        NextBlock::Rp() => ExprV::Identifier(reg_rp()),
    }
}

/// The expression of a two-way transition: `cond ? tval : fval`.
pub open spec fn trans_expr(cond: ExprV, tval: NextBlock, fval: NextBlock) -> ExprV {
    ExprV::Ternary(Box::new(cond), Box::new(coda_expr(tval)), Box::new(coda_expr(fval)))
}

/// The guard of a loop: `ident < bound`.
pub open spec fn loop_guard(ident: Seq<char>, bound: ExprV) -> ExprV {
    ExprV::Binary(BinaryOperator::Lt, Box::new(ExprV::Identifier(ident)), Box::new(bound))
}

/// The block that lowering opens under the label `name`: no instructions,
/// and a terminator that falls through to the next label.
pub open spec fn fresh_block(name: usize) -> BlockV {
    BlockV {
        name,
        inputs: Seq::empty(),
        instructions: Seq::empty(),
        terminator: TermV::Transition(coda_expr(NextBlock::Label((name + 1) as usize))),
    }
}

/// Whether a loop can count in `ty`.
pub open spec fn is_numeric(ty: Type) -> bool {
    ty is Field || ty is U8 || ty is U16 || ty is U32 || ty is U64
}

/// The literal suffix of a numeric type.
pub open spec fn dec_suffix_of(ty: Type) -> DecimalSuffix {
    match ty {
        Type::U8 => DecimalSuffix::U8,
        Type::U16 => DecimalSuffix::U16,
        Type::U32 => DecimalSuffix::U32,
        Type::U64 => DecimalSuffix::U64,
        _ => DecimalSuffix::Field,
    }
}

/// The source type that writes the value type `ty`, where there is one.
pub open spec fn type_of_ty(ty: Ty) -> Result<Type, Error> {
    match ty {
        Ty::Field => Ok(Type::Field),
        Ty::Bool => Ok(Type::Boolean),
        Ty::Uint(w) => if w == 8 {
            Ok(Type::U8)
        } else if w == 16 {
            Ok(Type::U16)
        } else if w == 32 {
            Ok(Type::U32)
        } else if w == 64 {
            Ok(Type::U64)
        } else {
            Err(Error::Unsupported)
        },
    }
}

/// The value type that the source type `ty` stands for, where it is a
/// basic type.
pub open spec fn ty_of_type(ty: Type) -> Result<Ty, Error> {
    match ty {
        Type::Field => Ok(Ty::Field),
        Type::Boolean => Ok(Ty::Bool),
        Type::U8 => Ok(Ty::Uint(8)),
        Type::U16 => Ok(Ty::Uint(16)),
        Type::U32 => Ok(Ty::Uint(32)),
        Type::U64 => Ok(Ty::Uint(64)),
        Type::Array => Err(Error::Unsupported),
        Type::Struct => Err(Error::Unsupported),
    }
}

/// The guard `ident < condition` of a loop.
pub fn cond_expr(ident: &str, condition: Expression) -> (r: Expression)
    ensures
        r@ == loop_guard(ident@, condition@),
{
    Expression::binary(
        BinaryOperator::Lt,
        Expression::ident(String::from_str(ident)),
        condition,
    )
}

/// The literal suffix of a numeric type.
pub fn ty_to_dec_suffix(ty: Type) -> (r: DecimalSuffix)
    requires
        is_numeric(ty),
    ensures
        r == dec_suffix_of(ty),
{
    match ty {
        Type::U8 => DecimalSuffix::U8,
        Type::U16 => DecimalSuffix::U16,
        Type::U32 => DecimalSuffix::U32,
        Type::U64 => DecimalSuffix::U64,
        _ => DecimalSuffix::Field,
    }
}

/// The source type that writes a value type; `Unsupported` for an integer
/// width that the source language does not have.
pub fn ty_to_type(ty: Ty) -> (r: Result<Type, Error>)
    ensures
        r == type_of_ty(ty),
{
    match ty {
        Ty::Field => Ok(Type::Field),
        Ty::Bool => Ok(Type::Boolean),
        Ty::Uint(w) => if w == 8 {
            Ok(Type::U8)
        } else if w == 16 {
            Ok(Type::U16)
        } else if w == 32 {
            Ok(Type::U32)
        } else if w == 64 {
            Ok(Type::U64)
        } else {
            Err(Error::Unsupported)
        },
    }
}

/// The value type of a source type; `Unsupported` for arrays and structs.
pub fn type_impl_(ty: Type) -> (r: Result<Ty, Error>)
    ensures
        r == ty_of_type(ty),
{
    match ty {
        Type::Field => Ok(Ty::Field),
        Type::Boolean => Ok(Ty::Bool),
        Type::U8 => Ok(Ty::Uint(8)),
        Type::U16 => Ok(Ty::Uint(16)),
        Type::U32 => Ok(Ty::Uint(32)),
        Type::U64 => Ok(Ty::Uint(64)),
        Type::Array => Err(Error::Unsupported),
        Type::Struct => Err(Error::Unsupported),
    }
}

/// A field literal.
pub fn field_literal(v: u64) -> (r: Expression)
    ensures
        r@ == field_lit(v),
{
    Expression::literal(LiteralExpression::DecimalLiteral(v, Some(DecimalSuffix::Field)))
}

/// The expression that a terminator holds for `nb`.
pub fn bl_coda(nb: NextBlock) -> (r: Expression)
    ensures
        r@ == coda_expr(nb),
{
    match nb {
        NextBlock::Label(val) => field_literal(val as u64),
        NextBlock::Rp() => Expression::ident(String::from_str("%RP")),
    }
}

/// The expression of the transition `cond ? tval : fval`.
pub fn bl_trans(cond: Expression, tval: NextBlock, fval: NextBlock) -> (r: Expression)
    ensures
        r@ == trans_expr(cond@, tval, fval),
{
    Expression::ternary(cond, bl_coda(tval), bl_coda(fval))
}

impl Block {
    /// The block that lowering opens under the label `name`.
    pub fn new(name: usize) -> (r: Block)
        requires
            name < usize::MAX,
        ensures
            r@ == fresh_block(name),
    {
        let r = Block {
            name,
            inputs: Vec::new(),
            instructions: Vec::new(),
            terminator: BlockTerminator::Transition(bl_coda(NextBlock::Label(name + 1))),
        };
        assert(r@.inputs =~= Seq::empty());
        assert(r@.instructions =~= Seq::empty());
        r
    }

    /// A deep copy.
    pub fn dup(&self) -> (r: Block)
        ensures
            r@ == self@,
    {
        let mut inputs: Vec<(String, Option<Ty>)> = Vec::new();
        let mut i: usize = 0;
        while i < self.inputs.len()
            invariant
                i <= self.inputs.len(),
                inputs.len() == i,
                forall|j: int|
                    0 <= j < i ==> inputs@[j].0@ == self.inputs@[j].0@ && inputs@[j].1
                        == self.inputs@[j].1,
            decreases self.inputs.len() - i,
        {
            inputs.push((self.inputs[i].0.clone(), self.inputs[i].1));
            i += 1;
        }
        assert(inputs_view(inputs@) =~= inputs_view(self.inputs@));
        Block {
            name: self.name,
            inputs,
            instructions: dup_contents(&self.instructions),
            terminator: self.terminator.dup(),
        }
    }
}


/// The labels that the terminator expression `e` can yield, where `e` is a
/// literal label, the return-pointer register, or a ternary over such.
pub open spec fn label_leaves(e: ExprV) -> Option<Seq<NextBlock>>
    decreases e,
{
    match e {
        ExprV::Ternary(_, a, b) => match (label_leaves(*a), label_leaves(*b)) {
            (Some(x), Some(y)) => Some(x + y),
            _ => None,
        },
        ExprV::Literal(LiteralExpression::DecimalLiteral(v, _)) => if v <= usize::MAX {
            Some(seq![NextBlock::Label(v as usize)])
        } else {
            None
        },
        ExprV::Identifier(name) => if name == reg_rp() {
            Some(seq![NextBlock::Rp()])
        } else {
            None
        },
        _ => None,
    }
}

/// Whether every literal label among `ls` is below `n`.
pub open spec fn leaves_below(ls: Seq<NextBlock>, n: int) -> bool {
    forall|i: int| 0 <= i < ls.len() ==> match #[trigger] ls[i] {
        NextBlock::Label(l) => l < n,
        NextBlock::Rp() => true,
    }
}

/// Whether the terminator `t`, if it is a transition, yields labels, all
/// of them below `n`.
pub open spec fn targets_below(t: TermV, n: int) -> bool {
    match t {
        TermV::Transition(e) => match label_leaves(e) {
            Some(ls) => leaves_below(ls, n),
            None => false,
        },
        _ => true,
    }
}

/// Whether the terminator `t` is resolved: no call by name, and every
/// literal label below `n`.
pub open spec fn terminator_resolved(t: TermV, n: int) -> bool {
    !(t is FuncCall) && targets_below(t, n)
}

/// The terminator expression of a label or of the return pointer yields
/// just that.
pub proof fn lemma_coda_leaves(nb: NextBlock)
    ensures
        label_leaves(coda_expr(nb)) == Some(seq![nb]),
{
    match nb {
        NextBlock::Label(l) => {
            assert((l as u64) as usize == l);
        },
        NextBlock::Rp() => {},
    }
}

/// A two-way transition yields its two targets.
pub proof fn lemma_trans_leaves(cond: ExprV, tval: NextBlock, fval: NextBlock)
    ensures
        label_leaves(trans_expr(cond, tval, fval)) == Some(seq![tval, fval]),
{
    lemma_coda_leaves(tval);
    lemma_coda_leaves(fval);
    assert(seq![tval] + seq![fval] =~= seq![tval, fval]);
}

/// The sum of the first `n` numbers of `s`.
pub open spec fn sum_upto(s: Seq<usize>, n: int) -> int
    decreases n,
{
    if n <= 0 {
        0
    } else {
        sum_upto(s, n - 1) + s[n - 1]
    }
}

/// The totals of the run-time table of the first `len` blocks: how often
/// blocks ran in all, and how many variables they have in all. `None`
/// where a total does not fit a `usize`.
pub fn generate_runtime_data(len: usize, bl_exec_count: &Vec<usize>, bl_var_count: &Vec<usize>) -> (r:
    Option<(usize, usize)>)
    requires
        len <= bl_exec_count.len(),
        len <= bl_var_count.len(),
    ensures
        match r {
            Some((execs, vars)) => execs == sum_upto(bl_exec_count@, len as int) && vars
                == sum_upto(bl_var_count@, len as int),
            None => sum_upto(bl_exec_count@, len as int) > usize::MAX || sum_upto(
                bl_var_count@,
                len as int,
            ) > usize::MAX,
        },
{
    let mut t_exec_count: usize = 0;
    let mut t_var_count: usize = 0;
    let mut i: usize = 0;
    while i < len
        invariant
            i <= len,
            len <= bl_exec_count.len(),
            len <= bl_var_count.len(),
            t_exec_count == sum_upto(bl_exec_count@, i as int),
            t_var_count == sum_upto(bl_var_count@, i as int),
        decreases len - i,
    {
        if bl_exec_count[i] > usize::MAX - t_exec_count || bl_var_count[i] > usize::MAX
            - t_var_count {
            proof {
                lemma_sum_grows(bl_exec_count@, i as int + 1, len as int);
                lemma_sum_grows(bl_var_count@, i as int + 1, len as int);
            }
            return None;
        }
        t_exec_count += bl_exec_count[i];
        t_var_count += bl_var_count[i];
        i += 1;
    }
    Some((t_exec_count, t_var_count))
}

proof fn lemma_sum_grows(s: Seq<usize>, a: int, b: int)
    requires
        0 <= a <= b,
    ensures
        sum_upto(s, a) <= sum_upto(s, b),
    decreases b - a,
{
    if a < b {
        lemma_sum_grows(s, a, b - 1);
    }
}

/// The labels that the terminator expression `e` can yield.
pub fn next_blocks(e: &Expression) -> (r: Option<Vec<NextBlock>>)
    ensures
        match r {
            Some(v) => label_leaves(e@) == Some(v@),
            None => label_leaves(e@) is None,
        },
    decreases e,
{
    match e {
        Expression::Ternary(_, a, b) => {
            let x = next_blocks(a);
            let y = next_blocks(b);
            match (x, y) {
                (Some(mut xs), Some(mut ys)) => {
                    xs.append(&mut ys);
                    Some(xs)
                },
                _ => None,
            }
        },
        Expression::Literal(LiteralExpression::DecimalLiteral(v, _)) => {
            if *v <= usize::MAX as u64 {
                let mut out: Vec<NextBlock> = Vec::new();
                out.push(NextBlock::Label(*v as usize));
                assert(out@ =~= seq![NextBlock::Label(*v as usize)]);
                Some(out)
            } else {
                None
            }
        },
        Expression::Identifier(name) => {
            let rp = String::from_str("%RP");
            if *name == rp {
                let mut out: Vec<NextBlock> = Vec::new();
                out.push(NextBlock::Rp());
                assert(out@ =~= seq![NextBlock::Rp()]);
                Some(out)
            } else {
                None
            }
        },
        _ => None,
    }
}

} // verus!
