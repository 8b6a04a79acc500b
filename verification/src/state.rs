//! The state that lowering threads through a function: the blocks made so
//! far, the stack offset not yet added to `%SP`, the spill ledger, the
//! scope table and the lexical scopes.

use crate::ast::{assign_lhs, decl_lhs, BinaryOperator, ExprV, Expression, Statement, StmtV, Ty, Type};
use crate::blocks::{
    blocks_view, field_lit, field_literal, fresh_block, Block, BlockContent, BlockTerminator,
    targets_below, BlockV, ContentV, Error, TermV,
};
use crate::names::{is_reserved, is_reserved_name, reg_bp, reg_sp, scoped, scoped_name};
use crate::scope::{
    cur_scope_has, cvar_cur_scope_find, cvar_lookup, cvar_lookup_spec, ScopeV, TableV,
};
use vstd::hash_map::StringHashMap;
use vstd::prelude::*;
use vstd::string::*;

verus! {

/// One frame of the spill ledger: the offsets pushed since the scope was
/// entered, each with the base name that was spilled there.
pub type FrameV = Seq<(usize, Seq<char>)>;

/// The state of lowering.
pub struct LowerState {
    /// The blocks made so far. Instructions go to the last one.
    pub blks: Vec<Block>,
    /// How many stack slots were pushed since `%SP` was last advanced.
    pub sp_offset: usize,
    /// The spill ledger, one frame for each scope that is open.
    pub func_phy_assign: Vec<Vec<(usize, String)>>,
    /// The scope table.
    pub var_scope_info: StringHashMap<(usize, bool)>,
    /// The lexical scopes of the function, outermost first.
    pub cvars: Vec<Vec<(String, Ty)>>,
}

/// The view of a [`LowerState`].
pub struct LowerStateV {
    pub blks: Seq<BlockV>,
    pub sp_offset: usize,
    pub ledger: Seq<FrameV>,
    pub scope: TableV,
    pub cvars: Seq<ScopeV>,
}

impl View for LowerState {
    type V = LowerStateV;

    open spec fn view(&self) -> LowerStateV {
        LowerStateV {
            blks: blocks_view(self.blks@),
            sp_offset: self.sp_offset,
            ledger: self.func_phy_assign.deep_view(),
            scope: self.var_scope_info@,
            cvars: self.cvars.deep_view(),
        }
    }
}

/// `%SP = %SP + k`.
pub open spec fn sp_update_stmt(k: usize) -> StmtV {
    StmtV::Definition {
        lhs: assign_lhs(reg_sp()),
        expression: ExprV::Binary(
            BinaryOperator::Add,
            Box::new(ExprV::Identifier(reg_sp())),
            Box::new(field_lit(k as u64)),
        ),
    }
}

/// `field %BP = %SP`.
pub open spec fn bp_update_stmt() -> StmtV {
    StmtV::Definition {
        lhs: decl_lhs(Type::Field, reg_bp()),
        expression: ExprV::Identifier(reg_sp()),
    }
}

impl LowerStateV {
    /// There is a block to write to; every open scope has its ledger
    /// frame; and the pending stack offset counts entries of the innermost
    /// frame.
    pub open spec fn shape_ok(self) -> bool {
        &&& self.blks.len() > 0
        &&& self.cvars.len() == self.ledger.len() + 1
        &&& self.ledger.len() == 0 ==> self.sp_offset == 0
        &&& self.ledger.len() > 0 ==> self.sp_offset <= self.ledger.last().len()
    }

    /// Each block is named by its place, and every terminator yields
    /// labels of blocks that exist or of the one to be opened next.
    pub open spec fn labels_loose(self) -> bool {
        &&& forall|i: int| 0 <= i < self.blks.len() ==> (#[trigger] self.blks[i]).name == i
        &&& forall|i: int|
            0 <= i < self.blks.len() ==> targets_below(
                (#[trigger] self.blks[i]).terminator,
                (self.blks.len() + 1) as int,
            )
    }

    /// Each block is named by its place; the terminators of all blocks but
    /// the last yield labels of blocks that exist; the last block may also
    /// go on to the block that will be opened next.
    pub open spec fn labels_ok(self) -> bool {
        &&& self.labels_loose()
        &&& forall|i: int|
            0 <= i < self.blks.len() - 1 ==> targets_below(
                (#[trigger] self.blks[i]).terminator,
                self.blks.len() as int,
            )
    }

    /// Each block is named by its place, and every terminator yields
    /// labels of blocks that exist.
    pub open spec fn labels_closed(self) -> bool {
        &&& forall|i: int| 0 <= i < self.blks.len() ==> (#[trigger] self.blks[i]).name == i
        &&& forall|i: int|
            0 <= i < self.blks.len() ==> targets_below(
                (#[trigger] self.blks[i]).terminator,
                self.blks.len() as int,
            )
    }

    /// The state is well formed: its shape and its labels are in order.
    pub open spec fn wf(self) -> bool {
        self.shape_ok() && self.labels_ok()
    }

    /// The state has at least the blocks of `o`, and as many scopes open.
    pub open spec fn follows(self, o: LowerStateV) -> bool {
        self.blks.len() >= o.blks.len() && self.ledger.len() == o.ledger.len()
    }

    /// The state has the blocks of `o`, only with more instructions, and
    /// the ledger and scopes of `o`.
    pub open spec fn same_frames(self, o: LowerStateV) -> bool {
        self.blks.len() == o.blks.len() && self.ledger == o.ledger && self.cvars == o.cvars
    }

    /// The state after `c` is appended to the last block.
    pub open spec fn push_instr(self, c: ContentV) -> LowerStateV {
        let k = self.blks.len() - 1;
        let b = self.blks[k];
        LowerStateV {
            blks: self.blks.update(
                k,
                BlockV {
                    name: b.name,
                    inputs: b.inputs,
                    instructions: b.instructions.push(c),
                    terminator: b.terminator,
                },
            ),
            sp_offset: self.sp_offset,
            ledger: self.ledger,
            scope: self.scope,
            cvars: self.cvars,
        }
    }

    /// The state after block `k` gets the terminator `t`.
    pub open spec fn set_terminator(self, k: int, t: TermV) -> LowerStateV {
        let b = self.blks[k];
        LowerStateV {
            blks: self.blks.update(
                k,
                BlockV {
                    name: b.name,
                    inputs: b.inputs,
                    instructions: b.instructions,
                    terminator: t,
                },
            ),
            sp_offset: self.sp_offset,
            ledger: self.ledger,
            scope: self.scope,
            cvars: self.cvars,
        }
    }

    /// The state after a fresh block is opened.
    pub open spec fn new_block(self) -> LowerStateV {
        LowerStateV {
            blks: self.blks.push(fresh_block(self.blks.len() as usize)),
            sp_offset: self.sp_offset,
            ledger: self.ledger,
            scope: self.scope,
            cvars: self.cvars,
        }
    }

    /// The state with the pending stack offset `k`.
    pub open spec fn with_sp_offset(self, k: usize) -> LowerStateV {
        LowerStateV {
            blks: self.blks,
            sp_offset: k,
            ledger: self.ledger,
            scope: self.scope,
            cvars: self.cvars,
        }
    }

    /// The state with the scope table `scope`.
    pub open spec fn with_scope(self, scope: TableV) -> LowerStateV {
        LowerStateV {
            blks: self.blks,
            sp_offset: self.sp_offset,
            ledger: self.ledger,
            scope,
            cvars: self.cvars,
        }
    }

    /// The state with the spill ledger `ledger`.
    pub open spec fn with_ledger(self, ledger: Seq<FrameV>) -> LowerStateV {
        LowerStateV {
            blks: self.blks,
            sp_offset: self.sp_offset,
            ledger,
            scope: self.scope,
            cvars: self.cvars,
        }
    }

    /// The state with the lexical scopes `cvars`.
    pub open spec fn with_cvars(self, cvars: Seq<ScopeV>) -> LowerStateV {
        LowerStateV {
            blks: self.blks,
            sp_offset: self.sp_offset,
            ledger: self.ledger,
            scope: self.scope,
            cvars,
        }
    }

    /// The state after the pending stack offset, if there is one, is added
    /// to `%SP`.
    pub open spec fn flush_sp(self) -> LowerStateV {
        if self.sp_offset > 0 {
            self.push_instr(ContentV::Stmt(sp_update_stmt(self.sp_offset))).with_sp_offset(0)
        } else {
            self
        }
    }

    /// The state after a scope is entered: `%SP` is advanced past what was
    /// pushed, and an empty scope and an empty ledger frame are opened.
    pub open spec fn enter_scope(self) -> LowerStateV {
        let s = self.flush_sp();
        s.with_cvars(s.cvars.push(Seq::empty())).with_ledger(s.ledger.push(Seq::empty()))
    }

    /// The state after register `name` is pushed for the base name `var`:
    /// the push is emitted at the pending offset, the ledger records the
    /// offset with `var`, and the offset goes up by one.
    pub open spec fn record_spill(self, name: Seq<char>, var: Seq<char>) -> LowerStateV {
        let s = self.push_instr(ContentV::MemPush(name, self.sp_offset));
        s.with_ledger(
            s.ledger.update(s.ledger.len() - 1, s.ledger.last().push((self.sp_offset, var))),
        ).with_sp_offset((self.sp_offset + 1) as usize)
    }

    /// The state after the first spill of a frame has saved `%BP` and set
    /// it to `%SP`; the state itself where the frame has spills already.
    pub open spec fn open_frame(self) -> LowerStateV {
        if self.sp_offset == 0 {
            self.record_spill(reg_bp(), reg_bp()).push_instr(ContentV::Stmt(bp_update_stmt()))
        } else {
            self
        }
    }

    /// Whether `id` is spilled: it is declared in the function, or
    /// reserved, and, unless a call is being made, the scope in hand does
    /// not declare it.
    pub open spec fn must_spill(self, id: Seq<char>, is_call: bool) -> bool {
        (!cur_scope_has(self.cvars, id) || is_call) && (cvar_lookup_spec(self.cvars, id) is Some
            || is_reserved(id))
    }

    /// The state after `id` is spilled, where it must be.
    ///
    /// A reserved name is pushed as it is. Any other name is pushed under
    /// its current index, and its entry in the scope table becomes pending.
    pub open spec fn spill(self, id: Seq<char>, is_call: bool) -> Result<LowerStateV, Error> {
        if !self.must_spill(id, is_call) {
            Ok(self)
        } else if self.ledger.len() == 0 {
            Err(Error::Unsupported)
        } else if is_reserved(id) {
            Ok(self.open_frame().record_spill(id, id))
        } else if !self.scope.contains_key(id) {
            Err(Error::UndefinedBeforeUse)
        } else {
            let idx = self.scope[id].0;
            Ok(
                self.open_frame().with_scope(self.scope.insert(id, (idx, true))).record_spill(
                    scoped_name(id, idx as nat),
                    id,
                ),
            )
        }
    }

    /// The state after the ledger entry `(addr, var)` is undone: the pop is
    /// emitted, and the scope table entry of `var` goes back to what it was
    /// before the spill.
    pub open spec fn pop_one(self, addr: usize, var: Seq<char>) -> Result<LowerStateV, Error> {
        if is_reserved(var) {
            Ok(self.push_instr(ContentV::MemPop(var, addr)))
        } else if !self.scope.contains_key(var) {
            Err(Error::UndefinedBeforeUse)
        } else {
            let (idx, pending) = self.scope[var];
            if pending {
                Ok(
                    self.with_scope(self.scope.insert(var, (idx, false))).push_instr(
                        ContentV::MemPop(scoped_name(var, idx as nat), addr),
                    ),
                )
            } else if idx == 0 {
                Ok(
                    self.with_scope(self.scope.remove(var)).push_instr(
                        ContentV::MemPop(scoped_name(var, 0), addr),
                    ),
                )
            } else {
                Ok(
                    self.with_scope(self.scope.insert(var, ((idx - 1) as usize, false))).push_instr(
                        ContentV::MemPop(scoped_name(var, (idx - 1) as nat), addr),
                    ),
                )
            }
        }
    }

    /// The state after the first `n` entries of `frame` are undone, the
    /// last of them first.
    pub open spec fn pop_frame(self, frame: FrameV, n: int) -> Result<LowerStateV, Error>
        decreases n,
    {
        if n <= 0 {
            Ok(self)
        } else {
            match self.pop_one(frame[n - 1].0, frame[n - 1].1) {
                Err(e) => Err(e),
                Ok(s) => s.pop_frame(frame, n - 1),
            }
        }
    }

    /// The state after the innermost scope is left: `%SP` is advanced past
    /// what was pushed, the scope and its ledger frame are closed, and the
    /// frame's spills are undone in reverse.
    pub open spec fn exit_scope(self) -> Result<LowerStateV, Error> {
        let s = self.flush_sp();
        let frame = s.ledger.last();
        s.with_cvars(s.cvars.drop_last()).with_ledger(s.ledger.drop_last()).pop_frame(
            frame,
            frame.len() as int,
        )
    }

    /// The state after `%BP` is popped for each of the first `n` entries of
    /// `frame` that saved it, the last of them first.
    pub open spec fn pop_bp_frame(self, frame: FrameV, n: int) -> LowerStateV
        decreases n,
    {
        if n <= 0 {
            self
        } else if frame[n - 1].1 == reg_bp() {
            self.push_instr(ContentV::MemPop(reg_bp(), frame[n - 1].0)).pop_bp_frame(frame, n - 1)
        } else {
            self.pop_bp_frame(frame, n - 1)
        }
    }

    /// `pop_bp_frame` for each of the first `m` frames of `ledger`, the
    /// last of them first.
    pub open spec fn pop_bp_frames(self, ledger: Seq<FrameV>, m: int) -> LowerStateV
        decreases m,
    {
        if m <= 0 {
            self
        } else {
            self.pop_bp_frame(ledger[m - 1], ledger[m - 1].len() as int).pop_bp_frames(
                ledger,
                m - 1,
            )
        }
    }

    /// The state after a `return` has unwound the function's frames:
    /// `%SP` is advanced, and `%BP` is popped wherever a frame saved it.
    /// The ledger and the scopes stay, for what follows the `return`.
    pub open spec fn return_scope(self) -> LowerStateV {
        self.flush_sp().pop_bp_frames(self.ledger, self.ledger.len() as int)
    }
}

/// `%SP = %SP + k`.
pub fn make_sp_update(k: usize) -> (r: Statement)
    ensures
        r@ == sp_update_stmt(k),
{
    Statement::assign(
        String::from_str("%SP"),
        Expression::binary(
            BinaryOperator::Add,
            Expression::ident(String::from_str("%SP")),
            field_literal(k as u64),
        ),
    )
}

/// `field %BP = %SP`.
pub fn make_bp_update() -> (r: Statement)
    ensures
        r@ == bp_update_stmt(),
{
    Statement::declare(
        Type::Field,
        String::from_str("%BP"),
        Expression::ident(String::from_str("%SP")),
    )
}

impl LowerState {
    /// The state in which the lowering of a function starts: one empty
    /// block, one empty scope, and nothing pushed.
    pub fn new() -> (r: LowerState)
        ensures
            r@.wf(),
            r@.blks == seq![fresh_block(0)],
            r@.sp_offset == 0,
            r@.ledger == Seq::<FrameV>::empty(),
            r@.scope == Map::<Seq<char>, (usize, bool)>::empty(),
            r@.cvars == seq![Seq::<(Seq<char>, Ty)>::empty()],
    {
        let mut blks: Vec<Block> = Vec::new();
        blks.push(Block::new(0));
        let mut cvars: Vec<Vec<(String, Ty)>> = Vec::new();
        cvars.push(Vec::new());
        let r = LowerState {
            blks,
            sp_offset: 0,
            func_phy_assign: Vec::new(),
            var_scope_info: StringHashMap::new(),
            cvars,
        };
        proof {
            crate::blocks::lemma_coda_leaves(crate::blocks::NextBlock::Label(1));
            assert(r@.blks =~= seq![fresh_block(0)]);
            assert(r@.ledger =~~= Seq::<FrameV>::empty());
            assert(r@.cvars =~~= seq![Seq::<(Seq<char>, Ty)>::empty()]);
        }
        r
    }

    /// Appends `c` to the last block.
    pub fn push_instr(&mut self, c: BlockContent)
        requires
            old(self).blks.len() > 0,
        ensures
            final(self)@ == old(self)@.push_instr(c@),
            old(self)@.wf() ==> final(self)@.wf(),
            final(self)@.same_frames(old(self)@),
    {
        let k = self.blks.len() - 1;
        self.blks[k].instructions.push(c);
        assert(self.blks@[k as int]@.instructions =~= old(self).blks@[k as int]@.instructions.push(
            c@,
        ));
        assert(self@.blks =~= old(self)@.push_instr(c@).blks);
    }

    /// Appends the statement `s` to the last block.
    pub fn push_stmt(&mut self, s: Statement)
        requires
            old(self).blks.len() > 0,
        ensures
            final(self)@ == old(self)@.push_instr(ContentV::Stmt(s@)),
            old(self)@.wf() ==> final(self)@.wf(),
            final(self)@.same_frames(old(self)@),
    {
        self.push_instr(BlockContent::Stmt(s));
    }

    /// Gives block `k` the terminator `t`.
    pub fn set_terminator(&mut self, k: usize, t: BlockTerminator)
        requires
            k < old(self).blks.len(),
        ensures
            final(self)@ == old(self)@.set_terminator(k as int, t@),
            old(self)@.shape_ok() ==> final(self)@.shape_ok(),
            old(self)@.labels_loose() && targets_below(t@, (old(self)@.blks.len() + 1) as int)
                ==> final(self)@.labels_loose(),
            old(self)@.labels_ok() && k == old(self).blks.len() - 1 && targets_below(
                t@,
                (old(self)@.blks.len() + 1) as int,
            ) ==> final(self)@.labels_ok(),
            old(self)@.labels_ok() && k == old(self).blks.len() - 1 && targets_below(
                t@,
                old(self)@.blks.len() as int,
            ) ==> final(self)@.labels_closed(),
            final(self)@.same_frames(old(self)@),
    {
        self.blks[k].terminator = t;
        assert(self@.blks =~= old(self)@.set_terminator(k as int, t@).blks);
    }

    /// Opens a fresh block.
    pub fn new_block(&mut self)
        ensures
            final(self)@ == old(self)@.new_block(),
            old(self)@.shape_ok() ==> final(self)@.shape_ok(),
            old(self)@.labels_loose() ==> final(self)@.labels_ok(),
            final(self)@.blks.len() == old(self)@.blks.len() + 1,
            final(self)@.ledger == old(self)@.ledger,
            final(self)@.cvars == old(self)@.cvars,
    {
        let name = self.blks.len();
        self.blks.push(
            Block {
                name,
                inputs: Vec::new(),
                instructions: Vec::new(),
                terminator: BlockTerminator::ProgTerm(),
            },
        );
        let next = self.blks.len();
        self.blks[name].terminator = BlockTerminator::Transition(
            crate::blocks::bl_coda(crate::blocks::NextBlock::Label(next)),
        );
        assert(self.blks@[name as int]@.inputs =~= Seq::empty());
        assert(self.blks@[name as int]@.instructions =~= Seq::empty());
        assert(self@.blks =~= old(self)@.new_block().blks);
    }

    /// Adds the pending stack offset, if there is one, to `%SP`.
    pub fn flush_sp(&mut self)
        requires
            old(self).blks.len() > 0,
        ensures
            final(self)@ == old(self)@.flush_sp(),
            old(self)@.wf() ==> final(self)@.wf(),
            final(self)@.same_frames(old(self)@),
    {
        if self.sp_offset > 0 {
            self.push_stmt(make_sp_update(self.sp_offset));
            self.sp_offset = 0;
        }
    }

    /// Enters a scope.
    pub fn bl_gen_enter_scope_(&mut self)
        requires
            old(self)@.wf(),
        ensures
            final(self)@ == old(self)@.enter_scope(),
            final(self)@.wf(),
            final(self)@.blks.len() == old(self)@.blks.len(),
            final(self)@.ledger.len() == old(self)@.ledger.len() + 1,
    {
        self.flush_sp();
        self.cvars.push(Vec::new());
        self.func_phy_assign.push(Vec::new());
        assert(self@.cvars =~~= old(self)@.enter_scope().cvars);
        assert(self@.ledger =~~= old(self)@.enter_scope().ledger);
    }

    /// Pushes register `name` for the base name `var` and records it.
    fn record_spill(&mut self, name: String, var: String)
        requires
            old(self)@.wf(),
            old(self)@.ledger.len() > 0,
        ensures
            final(self)@ == old(self)@.record_spill(name@, var@),
            final(self)@.wf(),
            final(self)@.follows(old(self)@),
            final(self)@.blks.len() == old(self)@.blks.len(),
            final(self)@.cvars == old(self)@.cvars,
    {
        let off = self.sp_offset;
        self.push_instr(BlockContent::MemPush((name, off)));
        let k = self.func_phy_assign.len() - 1;
        self.func_phy_assign[k].push((off, var));
        let pushed = self.func_phy_assign[k].len();
        assert(off < pushed);
        self.sp_offset = off + 1;
        assert(self@.ledger =~~= old(self)@.record_spill(name@, var@).ledger);
    }

    /// Handles a scope change for `id` by pushing its old value onto the
    /// stack. With `is_call`, shadowing plays no part: whatever is declared
    /// is pushed.
    pub fn bl_gen_scoping_(&mut self, id: &String, is_call: bool) -> (r: Result<(), Error>)
        requires
            old(self)@.wf(),
        ensures
            match r {
                Ok(_) => old(self)@.spill(id@, is_call) == Ok::<LowerStateV, Error>(final(self)@)
                    && final(self)@.wf() && final(self)@.follows(old(self)@)
                    && final(self)@.blks.len() == old(self)@.blks.len()
                    && final(self)@.cvars == old(self)@.cvars,
                Err(e) => old(self)@.spill(id@, is_call) == Err::<LowerStateV, Error>(e),
            },
    {
        let reserved = is_reserved_name(id.as_str());
        if !(!cvar_cur_scope_find(&self.cvars, id) || is_call) {
            return Ok(());
        }
        if !(cvar_lookup(&self.cvars, id).is_some() || reserved) {
            return Ok(());
        }
        if self.func_phy_assign.len() == 0 {
            return Err(Error::Unsupported);
        }
        let entry: Option<(usize, bool)> = match self.var_scope_info.get(id.as_str()) {
            Some(p) => Some(*p),
            None => None,
        };
        if !reserved && entry.is_none() {
            return Err(Error::UndefinedBeforeUse);
        }
        if self.sp_offset == 0 {
            self.record_spill(String::from_str("%BP"), String::from_str("%BP"));
            self.push_stmt(make_bp_update());
        }
        if reserved {
            self.record_spill(id.clone(), id.clone());
        } else {
            let idx = entry.unwrap().0;
            self.var_scope_info.insert(id.clone(), (idx, true));
            self.record_spill(scoped(id.as_str(), idx), id.clone());
        }
        Ok(())
    }

    /// Undoes the ledger entry `(addr, var)`.
    fn pop_one(&mut self, addr: usize, var: &String) -> (r: Result<(), Error>)
        requires
            old(self)@.wf(),
        ensures
            match r {
                Ok(_) => old(self)@.pop_one(addr, var@) == Ok::<LowerStateV, Error>(final(self)@)
                    && final(self)@.wf() && final(self)@.same_frames(old(self)@),
                Err(e) => old(self)@.pop_one(addr, var@) == Err::<LowerStateV, Error>(e),
            },
    {
        if is_reserved_name(var.as_str()) {
            self.push_instr(BlockContent::MemPop((var.clone(), addr)));
            return Ok(());
        }
        let entry: Option<(usize, bool)> = match self.var_scope_info.get(var.as_str()) {
            Some(p) => Some(*p),
            None => None,
        };
        match entry {
            None => Err(Error::UndefinedBeforeUse),
            Some((idx, pending)) => {
                if pending {
                    self.var_scope_info.insert(var.clone(), (idx, false));
                    self.push_instr(BlockContent::MemPop((scoped(var.as_str(), idx), addr)));
                } else if idx == 0 {
                    self.var_scope_info.remove(var.as_str());
                    self.push_instr(BlockContent::MemPop((scoped(var.as_str(), 0), addr)));
                } else {
                    self.var_scope_info.insert(var.clone(), (idx - 1, false));
                    self.push_instr(BlockContent::MemPop((scoped(var.as_str(), idx - 1), addr)));
                }
                Ok(())
            },
        }
    }

    /// Leaves the innermost scope.
    pub fn bl_gen_exit_scope_(&mut self) -> (r: Result<(), Error>)
        requires
            old(self)@.wf(),
            old(self)@.ledger.len() > 0,
        ensures
            match r {
                Ok(_) => old(self)@.exit_scope() == Ok::<LowerStateV, Error>(final(self)@)
                    && final(self)@.wf() && final(self)@.blks.len() == old(self)@.blks.len()
                    && final(self)@.ledger.len() == old(self)@.ledger.len() - 1,
                Err(e) => old(self)@.exit_scope() == Err::<LowerStateV, Error>(e),
            },
    {
        self.flush_sp();
        let ghost s0 = self@;
        let frame = self.func_phy_assign.pop().unwrap();
        self.cvars.pop();
        let ghost s1 = self@;
        assert(s1.ledger =~~= s0.ledger.drop_last());
        assert(s1.cvars =~~= s0.cvars.drop_last());
        assert(frame.deep_view() == s0.ledger.last());
        assert(s1 == s0.with_cvars(s0.cvars.drop_last()).with_ledger(s0.ledger.drop_last()));
        let mut n: usize = frame.len();
        while n > 0
            invariant
                n <= frame.len(),
                self@.wf(),
                self@.same_frames(s1),
                old(self)@.exit_scope() == s1.pop_frame(frame.deep_view(), frame.len() as int),
                s1.pop_frame(frame.deep_view(), frame.len() as int) == self@.pop_frame(
                    frame.deep_view(),
                    n as int,
                ),
            decreases n,
        {
            n -= 1;
            let ghost before = self@;
            assert(frame.deep_view()[n as int] == (frame@[n as int].0, frame@[n as int].1@));
            match self.pop_one(frame[n].0, &frame[n].1) {
                Err(e) => {
                    assert(before.pop_frame(frame.deep_view(), n + 1) == Err::<LowerStateV, Error>(
                        e,
                    ));
                    return Err(e);
                },
                Ok(_) => {
                    assert(before.pop_frame(frame.deep_view(), n + 1) == self@.pop_frame(
                        frame.deep_view(),
                        n as int,
                    ));
                },
            }
        }
        Ok(())
    }

    /// Unwinds the frames of the function for a `return`: only `%BP` is
    /// popped, and the scopes stay as they are.
    pub fn bl_gen_return_scope_(&mut self)
        requires
            old(self)@.wf(),
        ensures
            final(self)@ == old(self)@.return_scope(),
            final(self)@.wf(),
            final(self)@.same_frames(old(self)@),
    {
        self.flush_sp();
        let ghost s0 = self@;
        let bp = String::from_str("%BP");
        let mut m: usize = self.func_phy_assign.len();
        while m > 0
            invariant
                m <= self.func_phy_assign.len(),
                bp@ == reg_bp(),
                self@.wf(),
                self@.same_frames(s0),
                self@.scope == s0.scope,
                self@.sp_offset == s0.sp_offset,
                s0.pop_bp_frames(s0.ledger, s0.ledger.len() as int) == self@.pop_bp_frames(
                    s0.ledger,
                    m as int,
                ),
            decreases m,
        {
            m -= 1;
            let ghost sm = self@;
            let mut n: usize = self.func_phy_assign[m].len();
            while n > 0
                invariant
                    m < self.func_phy_assign.len(),
                    n <= self.func_phy_assign[m as int].len(),
                    bp@ == reg_bp(),
                    self@.wf(),
                    self@.same_frames(s0),
                    self@.scope == s0.scope,
                    self@.sp_offset == s0.sp_offset,
                    sm.pop_bp_frame(s0.ledger[m as int], s0.ledger[m as int].len() as int)
                        == self@.pop_bp_frame(s0.ledger[m as int], n as int),
                decreases n,
            {
                n -= 1;
                if self.func_phy_assign[m][n].1 == bp {
                    let addr = self.func_phy_assign[m][n].0;
                    self.push_instr(BlockContent::MemPop((bp.clone(), addr)));
                }
            }
        }
    }

    /// Declares `name` with type `ty` in the innermost scope.
    pub fn declare(&mut self, name: String, ty: Ty)
        requires
            old(self)@.wf(),
        ensures
            final(self)@ == old(self)@.with_cvars(
                crate::scope::cvar_declare_spec(old(self)@.cvars, name@, ty),
            ),
            final(self)@.wf(),
            final(self)@.blks == old(self)@.blks,
            final(self)@.ledger == old(self)@.ledger,
    {
        crate::scope::cvar_declare(&mut self.cvars, name, ty);
    }
}

} // verus!
