//! The control-flow graph of a block program: which blocks may follow
//! which, given that a block that ends in `%RP` goes to whatever label may
//! be in `%RP` when the block is entered.

use crate::blocks::{
    blocks_view, label_leaves, leaves_below, next_blocks, Block, BlockTerminator, BlockV, ContentV,
    Error, NextBlock, TermV,
};
use crate::blocks_optimization::{
    block_valid, count_unset, lemma_count_bound, lemma_count_set, rp_find_val, rp_ok,
    rp_value,
};
use crate::blocks::{fails, yields};
use std::collections::HashSet;
use std::collections::VecDeque;
use vstd::prelude::*;

verus! {

/// What the analysis finds out: that a block is reached, or that a label
/// may be in `%RP` when a block is entered.
pub enum Fact {
    Visit(usize),
    Rp(usize, usize),
}

/// The last label that one of the first `i` instructions writes to `%RP`;
/// 0 where none does.
pub open spec fn rp_slot_upto(instrs: Seq<ContentV>, i: int) -> usize
    decreases i,
{
    if i <= 0 {
        0
    } else {
        match rp_value(instrs[i - 1]) {
            Ok(Some(l)) => l,
            _ => rp_slot_upto(instrs, i - 1),
        }
    }
}

/// The label that the block leaves in `%RP`: the last that it writes
/// there, or 0 where it writes none. A block that writes one makes a call.
pub open spec fn rp_slot(b: BlockV) -> usize {
    rp_slot_upto(b.instructions, b.instructions.len() as int)
}

/// Whether the terminator of `b` yields the literal label `l`.
pub open spec fn leaf_label(b: BlockV, l: usize) -> bool {
    match b.terminator {
        TermV::Transition(e) => match label_leaves(e) {
            Some(ls) => exists|j: int| 0 <= j < ls.len() && #[trigger] ls[j] == NextBlock::Label(l),
            None => false,
        },
        _ => false,
    }
}

/// Whether the terminator of `b` may go where `%RP` points.
pub open spec fn has_rp_leaf(b: BlockV) -> bool {
    match b.terminator {
        TermV::Transition(e) => match label_leaves(e) {
            Some(ls) => exists|j: int| 0 <= j < ls.len() && #[trigger] ls[j] == NextBlock::Rp(),
            None => false,
        },
        _ => false,
    }
}

/// Whether `s` holds what follows from block `b` being reached.
///
/// Where `b` makes a call, the block that the call returns to is reached
/// and may hold in `%RP` whatever `b` may; each literal target of `b` is
/// reached, with the return label of `b` in `%RP`. Where `b` makes no
/// call, each literal target of `b` is reached and may hold in `%RP`
/// whatever `b` may.
pub open spec fn closed_at(bls: Seq<BlockV>, s: Set<Fact>, b: usize) -> bool {
    let blk = bls[b as int];
    let r = rp_slot(blk);
    s.contains(Fact::Visit(b)) ==> {
        &&& r != 0 ==> s.contains(Fact::Visit(r))
        &&& r != 0 ==> forall|x: usize| #[trigger]
            s.contains(Fact::Rp(b, x)) ==> s.contains(Fact::Rp(r, x))
        &&& forall|l: usize| #[trigger] leaf_label(blk, l) ==> s.contains(Fact::Visit(l))
        &&& r != 0 ==> forall|l: usize| #[trigger] leaf_label(blk, l) ==> s.contains(Fact::Rp(l, r))
        &&& r == 0 ==> forall|l: usize, x: usize|
            #[trigger] leaf_label(blk, l) && #[trigger] s.contains(Fact::Rp(b, x)) ==> s.contains(
                Fact::Rp(l, x),
            )
    }
}

/// Whether `s` holds the entry block and what follows from each of its
/// blocks.
pub open spec fn closed(bls: Seq<BlockV>, entry: usize, s: Set<Fact>) -> bool {
    &&& s.contains(Fact::Visit(entry))
    &&& forall|b: usize| b < bls.len() ==> #[trigger] closed_at(bls, s, b)
}

/// Whether `f` holds of the program: it is in every closed set of facts.
pub open spec fn holds(bls: Seq<BlockV>, entry: usize, f: Fact) -> bool {
    forall|s: Set<Fact>| #[trigger] closed(bls, entry, s) ==> s.contains(f)
}

/// Whether `l` may follow `b`: `b` is reached, and its terminator yields
/// `l`, or goes where `%RP` points while `l` may be in `%RP`.
pub open spec fn follows(bls: Seq<BlockV>, entry: usize, b: usize, l: usize) -> bool {
    &&& b < bls.len()
    &&& holds(bls, entry, Fact::Visit(b))
    &&& leaf_label(bls[b as int], l) || (has_rp_leaf(bls[b as int]) && holds(
        bls,
        entry,
        Fact::Rp(b, l),
    ))
}

/// The entry block is reached.
pub proof fn lemma_holds_entry(bls: Seq<BlockV>, entry: usize)
    ensures
        holds(bls, entry, Fact::Visit(entry)),
{
}

/// The block that a call returns to is reached.
pub proof fn lemma_holds_return_block(bls: Seq<BlockV>, entry: usize, b: usize)
    requires
        b < bls.len(),
        holds(bls, entry, Fact::Visit(b)),
        rp_slot(bls[b as int]) != 0,
    ensures
        holds(bls, entry, Fact::Visit(rp_slot(bls[b as int]))),
{
    assert forall|s: Set<Fact>| #[trigger] closed(bls, entry, s) implies s.contains(
        Fact::Visit(rp_slot(bls[b as int])),
    ) by {
        assert(closed_at(bls, s, b));
    }
}

/// The block that a call returns to may hold in `%RP` what the calling
/// block may.
pub proof fn lemma_holds_return_rp(bls: Seq<BlockV>, entry: usize, b: usize, x: usize)
    requires
        b < bls.len(),
        holds(bls, entry, Fact::Visit(b)),
        holds(bls, entry, Fact::Rp(b, x)),
        rp_slot(bls[b as int]) != 0,
    ensures
        holds(bls, entry, Fact::Rp(rp_slot(bls[b as int]), x)),
{
    assert forall|s: Set<Fact>| #[trigger] closed(bls, entry, s) implies s.contains(
        Fact::Rp(rp_slot(bls[b as int]), x),
    ) by {
        assert(closed_at(bls, s, b));
        assert(s.contains(Fact::Rp(b, x)));
    }
}

/// A literal target of a block that is reached is reached.
pub proof fn lemma_holds_target(bls: Seq<BlockV>, entry: usize, b: usize, l: usize)
    requires
        b < bls.len(),
        holds(bls, entry, Fact::Visit(b)),
        leaf_label(bls[b as int], l),
    ensures
        holds(bls, entry, Fact::Visit(l)),
{
    assert forall|s: Set<Fact>| #[trigger] closed(bls, entry, s) implies s.contains(
        Fact::Visit(l),
    ) by {
        assert(closed_at(bls, s, b));
    }
}

/// The target of a call may hold the return label of the call in `%RP`.
pub proof fn lemma_holds_call(bls: Seq<BlockV>, entry: usize, b: usize, l: usize)
    requires
        b < bls.len(),
        holds(bls, entry, Fact::Visit(b)),
        leaf_label(bls[b as int], l),
        rp_slot(bls[b as int]) != 0,
    ensures
        holds(bls, entry, Fact::Rp(l, rp_slot(bls[b as int]))),
{
    assert forall|s: Set<Fact>| #[trigger] closed(bls, entry, s) implies s.contains(
        Fact::Rp(l, rp_slot(bls[b as int])),
    ) by {
        assert(closed_at(bls, s, b));
    }
}

/// A literal target of a block that makes no call may hold in `%RP` what
/// the block may.
pub proof fn lemma_holds_flow(bls: Seq<BlockV>, entry: usize, b: usize, l: usize, x: usize)
    requires
        b < bls.len(),
        holds(bls, entry, Fact::Visit(b)),
        holds(bls, entry, Fact::Rp(b, x)),
        leaf_label(bls[b as int], l),
        rp_slot(bls[b as int]) == 0,
    ensures
        holds(bls, entry, Fact::Rp(l, x)),
{
    assert forall|s: Set<Fact>| #[trigger] closed(bls, entry, s) implies s.contains(
        Fact::Rp(l, x),
    ) by {
        assert(closed_at(bls, s, b));
        assert(s.contains(Fact::Rp(b, x)));
    }
}

/// The facts that the analysis has found: `vis` marks the blocks that are
/// reached, and row `b` of `rp` marks the labels that may be in `%RP` when
/// `b` is entered.
pub open spec fn state_set(vis: Seq<bool>, rp: Seq<Seq<bool>>) -> Set<Fact> {
    Set::new(
        |f: Fact|
            match f {
                Fact::Visit(b) => b < vis.len() && vis[b as int],
                Fact::Rp(b, x) => b < rp.len() && x < rp[b as int].len() && rp[b as int][x as int],
            },
    )
}

/// How many marks of the first `i` rows of `g` are not set.
pub open spec fn grid_unset(g: Seq<Seq<bool>>, i: int) -> nat
    decreases i,
{
    if i <= 0 {
        0
    } else {
        grid_unset(g, i - 1) + count_unset(g[i - 1])
    }
}

proof fn lemma_grid_update(g: Seq<Seq<bool>>, b: int, row: Seq<bool>, i: int)
    requires
        0 <= b < g.len(),
        0 <= i <= g.len(),
    ensures
        grid_unset(g.update(b, row), i) + (if b < i {
            count_unset(g[b])
        } else {
            0
        }) == grid_unset(g, i) + (if b < i {
            count_unset(row)
        } else {
            0
        }),
    decreases i,
{
    if i > 0 {
        lemma_grid_update(g, b, row, i - 1);
    }
}

/// The rows of marks as sequences.
pub open spec fn grid(rp: Seq<Vec<bool>>) -> Seq<Seq<bool>> {
    Seq::new(rp.len(), |b: int| rp[b]@)
}

/// Whether every row of the `n` rows of `g` has `n` marks.
pub open spec fn square(g: Seq<Seq<bool>>, n: int) -> bool {
    g.len() == n && forall|b: int| 0 <= b < n ==> (#[trigger] g[b]).len() == n
}

/// The row `dst` with the marks of `src` added.
pub open spec fn merged(dst: Seq<bool>, src: Seq<bool>) -> Seq<bool> {
    Seq::new(dst.len(), |x: int| dst[x] || src[x])
}

/// Sets the marks of `src` in `dst`, and says whether `dst` changed.
fn merge_row(dst: &mut Vec<bool>, src: &Vec<bool>) -> (changed: bool)
    requires
        old(dst).len() == src.len(),
    ensures
        final(dst)@ == merged(old(dst)@, src@),
        changed == (final(dst)@ != old(dst)@),
        count_unset(final(dst)@) <= count_unset(old(dst)@),
        changed ==> count_unset(final(dst)@) < count_unset(old(dst)@),
{
    let n = dst.len();
    let mut changed = false;
    let mut x: usize = 0;
    while x < n
        invariant
            x <= n,
            n == src.len(),
            dst.len() == n,
            forall|y: int| 0 <= y < x ==> #[trigger] dst@[y] == (old(dst)@[y] || src@[y]),
            forall|y: int| x <= y < n ==> #[trigger] dst@[y] == old(dst)@[y],
            changed == (dst@ != old(dst)@),
            count_unset(dst@) <= count_unset(old(dst)@),
            changed ==> count_unset(dst@) < count_unset(old(dst)@),
        decreases n - x,
    {
        if src[x] && !dst[x] {
            proof {
                lemma_count_set(dst@, x as int, n as int);
                lemma_count_bound(dst@.update(x as int, true), n as int);
            }
            dst[x] = true;
            changed = true;
            assert(dst@[x as int] != old(dst)@[x as int]);
        } else {
            assert(changed == (dst@ != old(dst)@)) by {
                if !changed {
                    assert(dst@ =~= old(dst)@);
                }
            }
        }
        x += 1;
    }
    assert(dst@ =~= merged(old(dst)@, src@));
    changed
}

/// A copy of `row`.
fn copy_row(row: &Vec<bool>) -> (r: Vec<bool>)
    ensures
        r@ == row@,
{
    let mut r: Vec<bool> = Vec::new();
    let mut i: usize = 0;
    while i < row.len()
        invariant
            i <= row.len(),
            r@ == row@.subrange(0, i as int),
        decreases row.len() - i,
    {
        r.push(row[i]);
        i += 1;
        assert(r@ =~= row@.subrange(0, i as int));
    }
    assert(row@.subrange(0, row.len() as int) =~= row@);
    r
}

/// The row that block `l` has after control may go there from `cur`: with
/// the return label `rp_slot` where `cur` makes a call and `l` is a
/// literal target; with the marks of `cur` else.
pub open spec fn row_after(rp: Seq<Seq<bool>>, is_rp: bool, cur: usize, l: usize, rp_slot: usize) -> Seq<
    bool,
> {
    if rp_slot != 0 && !is_rp {
        rp[l as int].update(rp_slot as int, true)
    } else {
        merged(rp[l as int], rp[cur as int])
    }
}

/// What is left to find: the blocks not reached, and the labels not yet
/// known to be in `%RP` anywhere.
pub open spec fn unset_total(vis: Seq<bool>, rp: Seq<Seq<bool>>) -> nat {
    count_unset(vis) + grid_unset(rp, rp.len() as int)
}

/// Takes note that control may go from `cur_bl` to the block `next_bl`:
/// the block is reached, it may hold in `%RP` the return label `rp_slot`
/// or what `cur_bl` may, and it is queued if any of this is new. With
/// `is_rp`, `next_bl` is the block that a call in `cur_bl` returns to.
/// Nothing is noted where `next_bl` is `%RP` itself.
pub fn flow_graph_transition(
    is_rp: bool,
    cur_bl: usize,
    next_bl: NextBlock,
    rp_slot: usize,
    rp_successor: &mut Vec<Vec<bool>>,
    visited: &mut Vec<bool>,
    next_bls: &mut VecDeque<usize>,
)
    requires
        square(grid(old(rp_successor)@), old(visited).len() as int),
        cur_bl < old(visited).len(),
        rp_slot < old(visited).len(),
        next_bl matches NextBlock::Label(l) ==> l < old(visited).len(),
    ensures
        square(grid(final(rp_successor)@), final(visited).len() as int),
        final(visited).len() == old(visited).len(),
        match next_bl {
            NextBlock::Rp() => grid(final(rp_successor)@) == grid(old(rp_successor)@)
                && final(visited)@ == old(visited)@ && final(next_bls)@ == old(next_bls)@,
            NextBlock::Label(l) => {
                let row = row_after(grid(old(rp_successor)@), is_rp, cur_bl, l, rp_slot);
                &&& grid(final(rp_successor)@) == grid(old(rp_successor)@).update(
                    l as int,
                    row,
                )
                &&& final(visited)@ == old(visited)@.update(l as int, true)
                &&& final(next_bls)@ == if !old(visited)@[l as int]
                    || row != grid(old(rp_successor)@)[l as int] {
                    old(next_bls)@.push(l)
                } else {
                    old(next_bls)@
                }
                &&& unset_total(final(visited)@, grid(final(rp_successor)@))
                    + final(next_bls)@.len() <= unset_total(
                    old(visited)@,
                    grid(old(rp_successor)@),
                ) + old(next_bls)@.len()
            },
        },
{
    match next_bl {
        NextBlock::Rp() => {},
        NextBlock::Label(l) => {
            let n = visited.len();
            let ghost rp0 = grid(rp_successor@);
            let ghost vis0 = visited@;
            assert(rp0[l as int] == rp_successor@[l as int]@);
            assert(rp0[cur_bl as int] == rp_successor@[cur_bl as int]@);
            let changed = if rp_slot != 0 && !is_rp {
                let was = rp_successor[l][rp_slot];
                if !was {
                    proof {
                        lemma_count_set(rp0[l as int], rp_slot as int, n as int);
                        lemma_count_bound(rp0[l as int].update(rp_slot as int, true), n as int);
                    }
                    rp_successor[l][rp_slot] = true;
                    assert(grid(rp_successor@)[l as int] =~= rp0[l as int].update(
                        rp_slot as int,
                        true,
                    ));
                    assert(grid(rp_successor@)[l as int][rp_slot as int] != rp0[l as int][rp_slot as int]);
                } else {
                    assert(rp0[l as int].update(rp_slot as int, true) =~= rp0[l as int]);
                }
                !was
            } else {
                let src = copy_row(&rp_successor[cur_bl]);
                assert(src@ == rp0[cur_bl as int]);
                let c = merge_row(&mut rp_successor[l], &src);
                assert(grid(rp_successor@)[l as int] =~= merged(
                    rp0[l as int],
                    rp0[cur_bl as int],
                ));
                c
            };
            let ghost row = row_after(rp0, is_rp, cur_bl, l, rp_slot);
            assert(grid(rp_successor@) =~~= rp0.update(l as int, row));
            proof {
                lemma_grid_update(rp0, l as int, row, n as int);
                lemma_count_bound(vis0, n as int);
                if !vis0[l as int] {
                    lemma_count_set(vis0, l as int, n as int);
                    lemma_count_bound(vis0.update(l as int, true), n as int);
                } else {
                    assert(vis0.update(l as int, true) =~= vis0);
                }
            }
            if !visited[l] || changed {
                visited[l] = true;
                next_bls.push_back(l);
            }
            assert(visited@ =~= vis0.update(l as int, true));
        },
    }
}

/// The label that `blk` leaves in `%RP`, where everything that `blk`
/// writes to `%RP` is the label of a block.
fn block_rp_slot(blk: &Block, n: usize) -> (r: Result<usize, Error>)
    requires
        n > 0,
    ensures
        match r {
            Ok(slot) => rp_ok(blk@.instructions, n as int) && slot == rp_slot(blk@) && slot < n,
            Err(e) => e == Error::InvalidTerminator && !rp_ok(blk@.instructions, n as int),
        },
{
    let ghost instrs = blk@.instructions;
    let mut slot: usize = 0;
    let mut i: usize = 0;
    while i < blk.instructions.len()
        invariant
            i <= blk.instructions.len(),
            n > 0,
            instrs == blk@.instructions,
            instrs.len() == blk.instructions.len(),
            slot == rp_slot_upto(instrs, i as int),
            slot < n,
            forall|j: int|
                0 <= j < i ==> match rp_value(#[trigger] instrs[j]) {
                    Ok(Some(l)) => l < n,
                    Ok(None) => true,
                    Err(_) => false,
                },
        decreases blk.instructions.len() - i,
    {
        assert(instrs[i as int] == blk.instructions@[i as int]@);
        match rp_find_val(&blk.instructions[i]) {
            Err(_) => {
                return Err(Error::InvalidTerminator);
            },
            Ok(None) => {},
            Ok(Some(l)) => {
                if l >= n {
                    return Err(Error::InvalidTerminator);
                }
                slot = l;
            },
        }
        i += 1;
    }
    Ok(slot)
}

/// What the terminator `t` yields, as far as the program knows it: the
/// leaves of a transition, nothing where the program halts.
pub open spec fn leaves_of(t: TermV) -> Option<Seq<NextBlock>> {
    match t {
        TermV::Transition(e) => label_leaves(e),
        TermV::ProgTerm => Some(Seq::empty()),
        TermV::FuncCall(_) => None,
    }
}

/// What the terminator of `blk` yields, where that is labels of blocks.
fn block_leaves(blk: &Block, n: usize) -> (r: Result<Vec<NextBlock>, Error>)
    ensures
        match r {
            Ok(ls) => crate::blocks::terminator_resolved(blk@.terminator, n as int) && leaves_of(
                blk@.terminator,
            ) == Some(ls@) && leaves_below(ls@, n as int),
            Err(e) => e == Error::InvalidTerminator && !crate::blocks::terminator_resolved(
                blk@.terminator,
                n as int,
            ),
        },
{
    let leaves: Vec<NextBlock> = match &blk.terminator {
        BlockTerminator::FuncCall(_) => {
            return Err(Error::InvalidTerminator);
        },
        BlockTerminator::ProgTerm() => Vec::new(),
        BlockTerminator::Transition(e) => match next_blocks(e) {
            None => {
                return Err(Error::InvalidTerminator);
            },
            Some(ls) => ls,
        },
    };
    assert(leaves@ =~= Seq::empty() || blk@.terminator is Transition);
    let mut j: usize = 0;
    while j < leaves.len()
        invariant
            j <= leaves.len(),
            leaves_of(blk@.terminator) == Some(leaves@),
            forall|k: int|
                0 <= k < j ==> match #[trigger] leaves@[k] {
                    NextBlock::Label(l) => l < n,
                    NextBlock::Rp() => true,
                },
        decreases leaves.len() - j,
    {
        match leaves[j] {
            NextBlock::Rp() => {},
            NextBlock::Label(l) => {
                if l >= n {
                    assert(!leaves_below(leaves@, n as int));
                    return Err(Error::InvalidTerminator);
                }
            },
        }
        j += 1;
    }
    Ok(leaves)
}

/// Whether everything that `vis` and `rp` hold is a fact of the program.
pub open spec fn sound(bls: Seq<BlockV>, entry: usize, vis: Seq<bool>, rp: Seq<Seq<bool>>) -> bool {
    &&& forall|b: usize|
        b < vis.len() && #[trigger] vis[b as int] ==> holds(bls, entry, Fact::Visit(b))
    &&& forall|b: usize, x: usize|
        b < rp.len() && x < rp[b as int].len() && #[trigger] rp[b as int][x as int] ==> holds(
            bls,
            entry,
            Fact::Rp(b, x),
        )
}

/// Whether everything queued is a block that is visited.
pub open spec fn queue_ok(vis: Seq<bool>, queue: Seq<usize>) -> bool {
    forall|i: int| 0 <= i < queue.len() ==> #[trigger] queue[i] < vis.len() && vis[queue[i] as int]
}

/// How the analysis has moved on from `vis0`, `rp0`, `q0`: nothing was
/// taken back, whatever is new of a block has queued the block, and there
/// is less left to find for each block that was queued.
pub open spec fn moved_on(
    vis0: Seq<bool>,
    rp0: Seq<Seq<bool>>,
    q0: Seq<usize>,
    vis: Seq<bool>,
    rp: Seq<Seq<bool>>,
    q: Seq<usize>,
) -> bool {
    let n = vis0.len();
    &&& vis.len() == n
    &&& square(rp, n as int)
    &&& forall|b: int| 0 <= b < n && vis0[b] ==> #[trigger] vis[b]
    &&& forall|b: int, x: int|
        0 <= b < n && 0 <= x < n && rp0[b][x] ==> #[trigger] rp[b][x]
    &&& forall|x: usize| q0.contains(x) ==> #[trigger] q.contains(x)
    &&& forall|b: usize| b < n && #[trigger] touched(vis0, rp0, vis, rp, b) ==> q.contains(b)
    &&& unset_total(vis, rp) + q.len() <= unset_total(vis0, rp0) + q0.len()
    &&& q.len() >= q0.len()
}

/// Whether something is new of block `b`: it was not reached before, or
/// `%RP` may hold more when it is entered.
pub open spec fn touched(
    vis0: Seq<bool>,
    rp0: Seq<Seq<bool>>,
    vis: Seq<bool>,
    rp: Seq<Seq<bool>>,
    b: usize,
) -> bool {
    (vis[b as int] && !vis0[b as int]) || rp[b as int] != rp0[b as int]
}

/// Whether block `l` has taken note of control coming from a block with
/// the marks `row0` and the return label `r`.
pub open spec fn noted(vis: Seq<bool>, rp: Seq<Seq<bool>>, row0: Seq<bool>, l: usize, r: usize, is_rp: bool) -> bool {
    &&& l < vis.len()
    &&& vis[l as int]
    &&& r != 0 && !is_rp ==> rp[l as int][r as int]
    &&& r == 0 || is_rp ==> forall|x: int| 0 <= x < row0.len() && row0[x] ==> #[trigger] rp[l as int][x]
}

/// One step of the analysis from `cur_bl` towards the block `l`, with the
/// proof that the analysis stays sound and moves on.
fn note_transition(
    bls: &Vec<Block>,
    entry: usize,
    is_rp: bool,
    cur_bl: usize,
    l: usize,
    rp_slot_: usize,
    rp_successor: &mut Vec<Vec<bool>>,
    visited: &mut Vec<bool>,
    next_bls: &mut VecDeque<usize>,
    Ghost(vis0): Ghost<Seq<bool>>,
    Ghost(rp0): Ghost<Seq<Seq<bool>>>,
    Ghost(q0): Ghost<Seq<usize>>,
)
    requires
        old(visited).len() == bls.len(),
        square(grid(old(rp_successor)@), bls.len() as int),
        vis0.len() == bls.len(),
        square(rp0, bls.len() as int),
        cur_bl < bls.len(),
        l < bls.len(),
        rp_slot_ == rp_slot(blocks_view(bls@)[cur_bl as int]),
        rp_slot_ < bls.len(),
        old(visited)@[cur_bl as int],
        is_rp ==> rp_slot_ != 0 && l == rp_slot_,
        !is_rp ==> leaf_label(blocks_view(bls@)[cur_bl as int], l),
        sound(blocks_view(bls@), entry, old(visited)@, grid(old(rp_successor)@)),
        queue_ok(old(visited)@, old(next_bls)@),
        moved_on(vis0, rp0, q0, old(visited)@, grid(old(rp_successor)@), old(next_bls)@),
    ensures
        final(visited).len() == bls.len(),
        square(grid(final(rp_successor)@), bls.len() as int),
        sound(blocks_view(bls@), entry, final(visited)@, grid(final(rp_successor)@)),
        queue_ok(final(visited)@, final(next_bls)@),
        moved_on(vis0, rp0, q0, final(visited)@, grid(final(rp_successor)@), final(next_bls)@),
        moved_on(
            old(visited)@,
            grid(old(rp_successor)@),
            old(next_bls)@,
            final(visited)@,
            grid(final(rp_successor)@),
            final(next_bls)@,
        ),
        noted(
            final(visited)@,
            grid(final(rp_successor)@),
            grid(old(rp_successor)@)[cur_bl as int],
            l,
            rp_slot_,
            is_rp,
        ),
{
    let ghost bv = blocks_view(bls@);
    let ghost n = bls.len();
    let ghost vis1 = visited@;
    let ghost rp1 = grid(rp_successor@);
    let ghost q1 = next_bls@;
    proof {
        if is_rp {
            lemma_holds_return_block(bv, entry, cur_bl);
        } else {
            lemma_holds_target(bv, entry, cur_bl, l);
        }
        if rp_slot_ != 0 && !is_rp {
            lemma_holds_call(bv, entry, cur_bl, l);
        } else {
            assert forall|x: usize| x < n && rp1[cur_bl as int][x as int] implies holds(
                bv,
                entry,
                Fact::Rp(l, x),
            ) by {
                if is_rp {
                    lemma_holds_return_rp(bv, entry, cur_bl, x);
                } else {
                    lemma_holds_flow(bv, entry, cur_bl, l, x);
                }
            }
        }
    }
    flow_graph_transition(
        is_rp,
        cur_bl,
        NextBlock::Label(l),
        rp_slot_,
        rp_successor,
        visited,
        next_bls,
    );
    proof {
        let vis2 = visited@;
        let rp2 = grid(rp_successor@);
        let q2 = next_bls@;
        let row = row_after(rp1, is_rp, cur_bl, l, rp_slot_);
        assert(rp2 == rp1.update(l as int, row));
        assert forall|b: int, x: int| 0 <= b < n && 0 <= x < n && rp1[b][x] implies #[trigger] rp2[b][x] by {
            if b == l {
                assert(rp2[b] == row);
            } else {
                assert(rp2[b] == rp1[b]);
            }
        }
        assert forall|b: usize, x: usize|
            b < rp2.len() && x < rp2[b as int].len() && #[trigger] rp2[b as int][x as int] implies holds(
            bv,
            entry,
            Fact::Rp(b, x),
        ) by {
            if b == l {
                assert(rp2[b as int] == row);
                if !rp1[b as int][x as int] {
                    if rp_slot_ != 0 && !is_rp {
                        assert(x == rp_slot_);
                    } else {
                        assert(rp1[cur_bl as int][x as int]);
                    }
                }
            } else {
                assert(rp2[b as int] == rp1[b as int]);
            }
        }
        assert forall|x: usize| q1.contains(x) implies #[trigger] q2.contains(x) by {
            let i = choose|i: int| 0 <= i < q1.len() && q1[i] == x;
            assert(q2[i] == x);
        }
        assert forall|b: usize| b < n && #[trigger] touched(vis1, rp1, vis2, rp2, b) implies q2.contains(
            b,
        ) by {
            if b == l {
                assert(q2[q1.len() as int] == l);
            } else {
                assert(rp2[b as int] == rp1[b as int]);
            }
        }
        assert forall|x: usize| q0.contains(x) implies #[trigger] q2.contains(x) by {
            assert(q1.contains(x));
        }
        assert forall|b: usize| b < n && #[trigger] touched(vis0, rp0, vis2, rp2, b) implies q2.contains(
            b,
        ) by {
            if touched(vis0, rp0, vis1, rp1, b) {
                assert(q1.contains(b));
            } else {
                assert(touched(vis1, rp1, vis2, rp2, b));
            }
        }
        assert forall|i: int| 0 <= i < q2.len() implies #[trigger] q2[i] < vis2.len() && vis2[q2[i] as int] by {
            if i < q1.len() {
                assert(q2[i] == q1[i]);
            }
        }
        assert(rp2[l as int] == row);
    }
}

/// Looks at the block `cur`: whatever follows from its being reached is
/// taken note of.
fn analyse_block(
    bls: &Vec<Block>,
    entry: usize,
    cur: usize,
    rp_successor: &mut Vec<Vec<bool>>,
    visited: &mut Vec<bool>,
    next_bls: &mut VecDeque<usize>,
) -> (r: Result<(), Error>)
    requires
        old(visited).len() == bls.len(),
        square(grid(old(rp_successor)@), bls.len() as int),
        cur < bls.len(),
        old(visited)@[cur as int],
        sound(blocks_view(bls@), entry, old(visited)@, grid(old(rp_successor)@)),
        queue_ok(old(visited)@, old(next_bls)@),
    ensures
        final(visited).len() == bls.len(),
        match r {
            Ok(_) => {
                &&& sound(blocks_view(bls@), entry, final(visited)@, grid(final(rp_successor)@))
                &&& queue_ok(final(visited)@, final(next_bls)@)
                &&& moved_on(
                    old(visited)@,
                    grid(old(rp_successor)@),
                    old(next_bls)@,
                    final(visited)@,
                    grid(final(rp_successor)@),
                    final(next_bls)@,
                )
                &&& block_valid(blocks_view(bls@)[cur as int], bls.len() as int)
                &&& grid(final(rp_successor)@)[cur as int] == grid(old(rp_successor)@)[cur as int]
                    ==> closed_at(
                    blocks_view(bls@),
                    state_set(final(visited)@, grid(final(rp_successor)@)),
                    cur,
                )
            },
            Err(e) => e == Error::InvalidTerminator && !block_valid(
                blocks_view(bls@)[cur as int],
                bls.len() as int,
            ),
        },
{
    let ghost bv = blocks_view(bls@);
    let n = bls.len();
    let ghost vis0 = visited@;
    let ghost rp0 = grid(rp_successor@);
    let ghost q0 = next_bls@;
    let ghost row0 = rp0[cur as int];
    let blk = &bls[cur];
    assert(bv[cur as int] == blk@);
    let r = block_rp_slot(blk, n)?;
    let leaves = block_leaves(blk, n)?;
    let ghost ls = leaves@;
    if r != 0 {
        note_transition(
            bls,
            entry,
            true,
            cur,
            r,
            r,
            rp_successor,
            visited,
            next_bls,
            Ghost(vis0),
            Ghost(rp0),
            Ghost(q0),
        );
    }
    let mut j: usize = 0;
    while j < leaves.len()
        invariant
            j <= leaves.len(),
            ls == leaves@,
            n == bls.len(),
            cur < n,
            bv == blocks_view(bls@),
            vis0.len() == n,
            square(rp0, n as int),
            row0 == rp0[cur as int],
            r == rp_slot(bv[cur as int]),
            r < n,
            leaves_of(bv[cur as int].terminator) == Some(ls),
            leaves_below(ls, n as int),
            visited.len() == n,
            square(grid(rp_successor@), n as int),
            visited@[cur as int],
            sound(bv, entry, visited@, grid(rp_successor@)),
            queue_ok(visited@, next_bls@),
            moved_on(vis0, rp0, q0, visited@, grid(rp_successor@), next_bls@),
            r != 0 ==> noted(visited@, grid(rp_successor@), row0, r, r, true),
            forall|k: int|
                0 <= k < j ==> match #[trigger] ls[k] {
                    NextBlock::Label(l) => noted(visited@, grid(rp_successor@), row0, l, r, false),
                    NextBlock::Rp() => true,
                },
        decreases leaves.len() - j,
    {
        match leaves[j] {
            NextBlock::Rp() => {},
            NextBlock::Label(l) => {
                let ghost vis1 = visited@;
                let ghost rp1 = grid(rp_successor@);
                proof {
                    assert(ls[j as int] == NextBlock::Label(l));
                    assert(leaf_label(bv[cur as int], l));
                }
                note_transition(
                    bls,
                    entry,
                    false,
                    cur,
                    l,
                    r,
                    rp_successor,
                    visited,
                    next_bls,
                    Ghost(vis0),
                    Ghost(rp0),
                    Ghost(q0),
                );
                proof {
                    let rp2 = grid(rp_successor@);
                    assert forall|x: int| 0 <= x < row0.len() && row0[x] implies #[trigger] rp1[cur as int][x] by {
                        assert(rp0[cur as int][x]);
                    }
                    assert forall|k: int| 0 <= k < j implies match #[trigger] ls[k] {
                        NextBlock::Label(l2) => noted(visited@, rp2, row0, l2, r, false),
                        NextBlock::Rp() => true,
                    } by {
                        match ls[k] {
                            NextBlock::Label(l2) => {
                                assert(noted(vis1, rp1, row0, l2, r, false));
                            },
                            NextBlock::Rp() => {},
                        }
                    }
                    if r != 0 {
                        assert(noted(vis1, rp1, row0, r, r, true));
                    }
                }
            },
        }
        j += 1;
    }
    proof {
        let vis = visited@;
        let rp = grid(rp_successor@);
        let s = state_set(vis, rp);
        if rp[cur as int] == row0 {
            assert(closed_at(bv, s, cur)) by {
                let blk = bv[cur as int];
                assert forall|l: usize| #[trigger] leaf_label(blk, l) implies s.contains(
                    Fact::Visit(l),
                ) && (r != 0 ==> s.contains(Fact::Rp(l, r))) && (r == 0 ==> forall|x: usize|
                    #[trigger] s.contains(Fact::Rp(cur, x)) ==> s.contains(Fact::Rp(l, x))) by {
                    let k = choose|k: int| 0 <= k < ls.len() && #[trigger] ls[k] == NextBlock::Label(l);
                    assert(noted(vis, rp, row0, l, r, false));
                }
                if r != 0 {
                    assert(noted(vis, rp, row0, r, r, true));
                }
            }
        }
    }
    Ok(())
}

/// The state of the analysis: what was found is sound, what is queued is
/// visited, and each block that is visited and not queued is valid and has
/// had everything taken note of that follows from it.
pub open spec fn flow_inv(
    bls: Seq<BlockV>,
    entry: usize,
    vis: Seq<bool>,
    rp: Seq<Seq<bool>>,
    queue: Seq<usize>,
) -> bool {
    &&& vis.len() == bls.len()
    &&& square(rp, bls.len() as int)
    &&& entry < bls.len()
    &&& vis[entry as int]
    &&& sound(bls, entry, vis, rp)
    &&& queue_ok(vis, queue)
    &&& forall|b: usize|
        b < bls.len() && #[trigger] vis[b as int] && !queue.contains(b) ==> block_valid(
            bls[b as int],
            bls.len() as int,
        ) && closed_at(bls, state_set(vis, rp), b)
}

/// What follows from a block stays taken note of while more is found
/// elsewhere.
proof fn lemma_closed_at_stays(
    bls: Seq<BlockV>,
    vis0: Seq<bool>,
    rp0: Seq<Seq<bool>>,
    vis: Seq<bool>,
    rp: Seq<Seq<bool>>,
    b: usize,
)
    requires
        vis0.len() == bls.len(),
        vis.len() == bls.len(),
        square(rp0, bls.len() as int),
        square(rp, bls.len() as int),
        b < bls.len(),
        forall|c: int| 0 <= c < bls.len() && vis0[c] ==> #[trigger] vis[c],
        forall|c: int, x: int|
            0 <= c < bls.len() && 0 <= x < bls.len() && rp0[c][x] ==> #[trigger] rp[c][x],
        vis0[b as int],
        rp[b as int] == rp0[b as int],
        closed_at(bls, state_set(vis0, rp0), b),
    ensures
        closed_at(bls, state_set(vis, rp), b),
{
    let s0 = state_set(vis0, rp0);
    let s = state_set(vis, rp);
    let blk = bls[b as int];
    let r = rp_slot(blk);
    assert(s0.contains(Fact::Visit(b)));
    assert forall|f: Fact| s0.contains(f) implies s.contains(f) by {
        match f {
            Fact::Visit(c) => {
                assert(vis[c as int]);
            },
            Fact::Rp(c, x) => {
                assert(rp[c as int][x as int]);
            },
        }
    }
    assert forall|x: usize| #[trigger] s.contains(Fact::Rp(b, x)) implies s0.contains(
        Fact::Rp(b, x),
    ) by {}
    if r != 0 {
        assert forall|x: usize| #[trigger] s.contains(Fact::Rp(b, x)) implies s.contains(
            Fact::Rp(r, x),
        ) by {
            assert(s0.contains(Fact::Rp(b, x)));
            assert(s0.contains(Fact::Rp(r, x)));
        }
        assert forall|l: usize| #[trigger] leaf_label(blk, l) implies s.contains(Fact::Rp(l, r)) by {
            assert(s0.contains(Fact::Rp(l, r)));
        }
    } else {
        assert forall|l: usize, x: usize|
            #[trigger] leaf_label(blk, l) && #[trigger] s.contains(Fact::Rp(b, x)) implies s.contains(
            Fact::Rp(l, x),
        ) by {
            assert(s0.contains(Fact::Rp(b, x)));
            assert(s0.contains(Fact::Rp(l, x)));
        }
    }
    assert forall|l: usize| #[trigger] leaf_label(blk, l) implies s.contains(Fact::Visit(l)) by {
        assert(s0.contains(Fact::Visit(l)));
    }
}

/// Whether the analysis fails: the entry label is no block, or a block
/// that is reached is not valid.
pub open spec fn flow_fails(bls: Seq<BlockV>, entry: usize) -> bool {
    entry >= bls.len() || exists|b: usize|
        b < bls.len() && #[trigger] holds(bls, entry, Fact::Visit(b)) && !block_valid(
            bls[b as int],
            bls.len() as int,
        )
}

/// Whether `vis` and `rp` hold just the facts of the program.
pub open spec fn exact(bls: Seq<BlockV>, entry: usize, vis: Seq<bool>, rp: Seq<Seq<bool>>) -> bool {
    &&& vis.len() == bls.len()
    &&& square(rp, bls.len() as int)
    &&& forall|b: usize|
        #[trigger] holds(bls, entry, Fact::Visit(b)) <==> b < bls.len() && vis[b as int]
    &&& forall|b: usize, x: usize|
        #[trigger] holds(bls, entry, Fact::Rp(b, x)) <==> b < bls.len() && x < bls.len()
            && rp[b as int][x as int]
    &&& forall|b: usize|
        b < bls.len() && #[trigger] vis[b as int] ==> block_valid(bls[b as int], bls.len() as int)
}

/// Finds the blocks that are reached from `entry_bl` and, for each, the
/// labels that may be in `%RP` when it is entered.
pub fn analyse_flow(bls: &Vec<Block>, entry_bl: usize) -> (r: Result<
    (Vec<bool>, Vec<Vec<bool>>),
    Error,
>)
    ensures
        match r {
            Ok((visited, rp_successor)) => entry_bl < bls.len() && exact(
                blocks_view(bls@),
                entry_bl,
                visited@,
                grid(rp_successor@),
            ),
            Err(e) => e == Error::InvalidTerminator && flow_fails(blocks_view(bls@), entry_bl),
        },
{
    let n = bls.len();
    if entry_bl >= n {
        return Err(Error::InvalidTerminator);
    }
    let ghost bv = blocks_view(bls@);
    let mut visited: Vec<bool> = Vec::new();
    let mut rp_successor: Vec<Vec<bool>> = Vec::new();
    let mut k: usize = 0;
    while k < n
        invariant
            k <= n,
            visited.len() == k,
            rp_successor.len() == k,
            forall|b: int| 0 <= b < k ==> !#[trigger] visited@[b],
            forall|b: int| 0 <= b < k ==> (#[trigger] rp_successor@[b]).len() == n,
            forall|b: int, x: int| 0 <= b < k && 0 <= x < n ==> !#[trigger] rp_successor@[b]@[x],
        decreases n - k,
    {
        let mut row: Vec<bool> = Vec::new();
        let mut x: usize = 0;
        while x < n
            invariant
                x <= n,
                row.len() == x,
                forall|y: int| 0 <= y < x ==> !#[trigger] row@[y],
            decreases n - x,
        {
            row.push(false);
            x += 1;
        }
        visited.push(false);
        rp_successor.push(row);
        k += 1;
    }
    let mut next_bls: VecDeque<usize> = VecDeque::new();
    visited[entry_bl] = true;
    next_bls.push_back(entry_bl);
    proof {
        lemma_holds_entry(bv, entry_bl);
        assert(next_bls@.contains(entry_bl)) by {
            assert(next_bls@[0] == entry_bl);
        }
        assert(square(grid(rp_successor@), n as int));
    }
    while next_bls.len() > 0
        invariant
            n == bls.len(),
            bv == blocks_view(bls@),
            flow_inv(bv, entry_bl, visited@, grid(rp_successor@), next_bls@),
        decreases unset_total(visited@, grid(rp_successor@)), next_bls@.len(),
    {
        let ghost vis_a = visited@;
        let ghost rp_a = grid(rp_successor@);
        let ghost q_a = next_bls@;
        let cur = next_bls.pop_front().unwrap();
        let ghost q_b = next_bls@;
        assert(q_a[0] == cur);
        assert forall|i: int| 0 <= i < q_b.len() implies #[trigger] q_b[i] < n && visited@[q_b[i] as int] by {
            assert(q_b[i] == q_a[i + 1]);
        }
        match analyse_block(bls, entry_bl, cur, &mut rp_successor, &mut visited, &mut next_bls) {
            Err(e) => {
                return Err(e);
            },
            Ok(_) => {},
        }
        proof {
            let vis = visited@;
            let rp = grid(rp_successor@);
            assert forall|b: usize|
                b < n && #[trigger] vis[b as int] && !next_bls@.contains(b) implies block_valid(
                bv[b as int],
                n as int,
            ) && closed_at(bv, state_set(vis, rp), b) by {
                assert(!touched(vis_a, rp_a, vis, rp, b));
                if b != cur {
                    if q_a.contains(b) {
                        let i = choose|i: int| 0 <= i < q_a.len() && q_a[i] == b;
                        assert(q_b[i - 1] == b);
                        assert(q_b.contains(b));
                    }
                    assert(vis_a[b as int]);
                    lemma_closed_at_stays(bv, vis_a, rp_a, vis, rp, b);
                }
            }
        }
    }
    proof {
        let vis = visited@;
        let rp = grid(rp_successor@);
        let s = state_set(vis, rp);
        assert forall|b: usize| b < bv.len() implies #[trigger] closed_at(bv, s, b) by {
            if vis[b as int] {
                assert(!next_bls@.contains(b));
            }
        }
        assert(closed(bv, entry_bl, s));
        assert forall|b: usize| #[trigger] holds(bv, entry_bl, Fact::Visit(b)) implies b < n
            && vis[b as int] by {
            assert(s.contains(Fact::Visit(b)));
        }
        assert forall|b: usize, x: usize| #[trigger]
            holds(bv, entry_bl, Fact::Rp(b, x)) implies b < n && x < n && rp[b as int][x as int] by {
            assert(s.contains(Fact::Rp(b, x)));
        }
        assert forall|b: usize| b < n && #[trigger] vis[b as int] implies block_valid(
            bv[b as int],
            n as int,
        ) by {
            assert(!next_bls@.contains(b));
        }
    }
    Ok((visited, rp_successor))
}

/// The labels that may follow block `b`.
pub open spec fn succ_set(bls: Seq<BlockV>, entry: usize, b: usize) -> Set<usize> {
    Set::new(|l: usize| follows(bls, entry, b, l))
}

/// The blocks that block `l` may follow.
pub open spec fn pred_set(bls: Seq<BlockV>, entry: usize, l: usize) -> Set<usize> {
    Set::new(|b: usize| follows(bls, entry, b, l))
}

/// The blocks among the first `i` that are reached and halt the program,
/// in ascending order.
pub open spec fn exits_upto(bls: Seq<BlockV>, entry: usize, i: int) -> Seq<usize>
    decreases i,
{
    if i <= 0 {
        Seq::empty()
    } else {
        let rest = exits_upto(bls, entry, i - 1);
        if holds(bls, entry, Fact::Visit((i - 1) as usize)) && bls[i - 1].terminator is ProgTerm {
            rest.push((i - 1) as usize)
        } else {
            rest
        }
    }
}

/// The labels that may follow block `b`, which is reached.
fn successors_of(
    bls: &Vec<Block>,
    entry: usize,
    b: usize,
    visited: &Vec<bool>,
    rp_successor: &Vec<Vec<bool>>,
) -> (s: HashSet<usize>)
    requires
        b < bls.len(),
        exact(blocks_view(bls@), entry, visited@, grid(rp_successor@)),
    ensures
        s@ == succ_set(blocks_view(bls@), entry, b),
{
    broadcast use vstd::std_specs::hash::group_hash_axioms;

    let ghost bv = blocks_view(bls@);
    let n = bls.len();
    let mut s: HashSet<usize> = HashSet::new();
    if !visited[b] {
        assert(s@ =~= succ_set(bv, entry, b));
        return s;
    }
    assert(bv[b as int] == bls@[b as int]@);
    let leaves = match block_leaves(&bls[b], n) {
        Ok(ls) => ls,
        Err(_) => {
            assert(false);
            return s;
        },
    };
    let ghost ls = leaves@;
    let mut has_rp = false;
    let mut j: usize = 0;
    while j < leaves.len()
        invariant
            j <= leaves.len(),
            ls == leaves@,
            has_rp == (exists|k: int| 0 <= k < j && #[trigger] ls[k] == NextBlock::Rp()),
            forall|l: usize|
                #[trigger] s@.contains(l) <==> exists|k: int|
                    0 <= k < j && #[trigger] ls[k] == NextBlock::Label(l),
        decreases leaves.len() - j,
    {
        let ghost s0 = s@;
        match leaves[j] {
            NextBlock::Rp() => {
                has_rp = true;
            },
            NextBlock::Label(l) => {
                s.insert(l);
            },
        }
        j += 1;
        proof {
            assert forall|l: usize| #[trigger] s@.contains(l) implies exists|k: int|
                0 <= k < j && #[trigger] ls[k] == NextBlock::Label(l) by {
                if s0.contains(l) {
                    let k = choose|k: int| 0 <= k < j - 1 && #[trigger] ls[k] == NextBlock::Label(l);
                    assert(ls[k] == NextBlock::Label(l));
                } else {
                    assert(ls[j - 1] == NextBlock::Label(l));
                }
            }
            assert forall|l: usize|
                (exists|k: int| 0 <= k < j && #[trigger] ls[k] == NextBlock::Label(l)) implies #[trigger] s@.contains(
                l,
            ) by {
                let k = choose|k: int| 0 <= k < j && #[trigger] ls[k] == NextBlock::Label(l);
                if k < j - 1 {
                    assert(s0.contains(l));
                }
            }
            if has_rp {
                if exists|k: int| 0 <= k < j - 1 && #[trigger] ls[k] == NextBlock::Rp() {
                    let k = choose|k: int| 0 <= k < j - 1 && #[trigger] ls[k] == NextBlock::Rp();
                    assert(ls[k] == NextBlock::Rp());
                } else {
                    assert(ls[j - 1] == NextBlock::Rp());
                }
            } else {
                assert forall|k: int| 0 <= k < j implies #[trigger] ls[k] != NextBlock::Rp() by {
                    if k < j - 1 {
                    }
                }
            }
        }
    }
    let ghost s1 = s@;
    if has_rp {
        let mut x: usize = 0;
        while x < n
            invariant
                x <= n,
                n == bls.len(),
                b < n,
                square(grid(rp_successor@), n as int),
                forall|l: usize|
                    #[trigger] s@.contains(l) <==> s1.contains(l) || (l < x && grid(
                        rp_successor@,
                    )[b as int][l as int]),
            decreases n - x,
        {
            assert(grid(rp_successor@)[b as int] == rp_successor@[b as int]@);
            if rp_successor[b][x] {
                s.insert(x);
            }
            x += 1;
        }
    }
    proof {
        let rp = grid(rp_successor@);
        let blk = bv[b as int];
        assert(leaves_of(blk.terminator) == Some(ls));
        assert(has_rp == has_rp_leaf(blk)) by {
            if has_rp {
                let k = choose|k: int| 0 <= k < ls.len() && #[trigger] ls[k] == NextBlock::Rp();
                assert(ls[k] == NextBlock::Rp());
            }
        }
        assert forall|l: usize| #[trigger] s1.contains(l) <==> leaf_label(blk, l) by {
            if s1.contains(l) {
                let k = choose|k: int| 0 <= k < ls.len() && #[trigger] ls[k] == NextBlock::Label(l);
                assert(ls[k] == NextBlock::Label(l));
            }
        }
        assert forall|l: usize| s@.contains(l) <==> follows(bv, entry, b, l) by {
            assert(holds(bv, entry, Fact::Visit(b)));
            if s1.contains(l) {
                assert(leaf_label(blk, l));
            }
            if holds(bv, entry, Fact::Rp(b, l)) {
                assert(l < n && rp[b as int][l as int]);
            }
            if l < n && rp[b as int][l as int] {
                assert(holds(bv, entry, Fact::Rp(b, l)));
            }
        }
        assert(s@ =~= succ_set(bv, entry, b));
    }
    s
}

/// The control-flow graph of the program from `entry_bl`: for each block
/// the labels that may follow it, for each block the blocks that it may
/// follow, and the blocks that halt the program.
pub fn construct_flow_graph(bls: &Vec<Block>, entry_bl: usize) -> (r: Result<
    (Vec<HashSet<usize>>, Vec<HashSet<usize>>, Vec<usize>),
    Error,
>)
    ensures
        match r {
            Ok((successor, predecessor, exit_bls)) => {
                &&& entry_bl < bls.len()
                &&& successor.len() == bls.len()
                &&& predecessor.len() == bls.len()
                &&& forall|b: usize|
                    b < bls.len() ==> (#[trigger] successor@[b as int])@ == succ_set(
                        blocks_view(bls@),
                        entry_bl,
                        b,
                    )
                &&& forall|l: usize|
                    l < bls.len() ==> (#[trigger] predecessor@[l as int])@ == pred_set(
                        blocks_view(bls@),
                        entry_bl,
                        l,
                    )
                &&& exit_bls@ == exits_upto(blocks_view(bls@), entry_bl, bls.len() as int)
            },
            Err(e) => e == Error::InvalidTerminator && flow_fails(blocks_view(bls@), entry_bl),
        },
{
    broadcast use vstd::std_specs::hash::group_hash_axioms;

    let (visited, rp_successor) = analyse_flow(bls, entry_bl)?;
    let ghost bv = blocks_view(bls@);
    let n = bls.len();
    let mut successor: Vec<HashSet<usize>> = Vec::new();
    let mut predecessor: Vec<HashSet<usize>> = Vec::new();
    let mut exit_bls: Vec<usize> = Vec::new();
    let mut b: usize = 0;
    while b < n
        invariant
            b <= n,
            n == bls.len(),
            bv == blocks_view(bls@),
            exact(bv, entry_bl, visited@, grid(rp_successor@)),
            successor.len() == b,
            predecessor.len() == b,
            forall|c: usize| c < b ==> (#[trigger] successor@[c as int])@ == succ_set(bv, entry_bl, c),
            forall|c: usize|
                c < b ==> (#[trigger] predecessor@[c as int])@ =~= Set::<usize>::empty(),
            exit_bls@ == exits_upto(bv, entry_bl, b as int),
        decreases n - b,
    {
        let s = successors_of(bls, entry_bl, b, &visited, &rp_successor);
        successor.push(s);
        predecessor.push(HashSet::new());
        assert(bv[b as int] == bls@[b as int]@);
        let halts = match &bls[b].terminator {
            BlockTerminator::ProgTerm() => true,
            _ => false,
        };
        if visited[b] && halts {
            exit_bls.push(b);
        }
        b += 1;
    }
    let mut b: usize = 0;
    while b < n
        invariant
            b <= n,
            n == bls.len(),
            bv == blocks_view(bls@),
            exact(bv, entry_bl, visited@, grid(rp_successor@)),
            successor.len() == n,
            predecessor.len() == n,
            forall|c: usize| c < n ==> (#[trigger] successor@[c as int])@ == succ_set(bv, entry_bl, c),
            forall|x: usize|
                x < n ==> (#[trigger] predecessor@[x as int])@ == pred_partial(
                    bv,
                    entry_bl,
                    x,
                    b,
                    0,
                ),
        decreases n - b,
    {
        let mut l: usize = 0;
        while l < n
            invariant
                l <= n,
                b < n,
                n == bls.len(),
                bv == blocks_view(bls@),
                successor.len() == n,
                predecessor.len() == n,
                forall|c: usize|
                    c < n ==> (#[trigger] successor@[c as int])@ == succ_set(bv, entry_bl, c),
                forall|x: usize|
                    x < n ==> (#[trigger] predecessor@[x as int])@ == pred_partial(
                        bv,
                        entry_bl,
                        x,
                        b,
                        l,
                    ),
            decreases n - l,
        {
            let ghost pred0 = predecessor@;
            assert(successor@[b as int]@ == succ_set(bv, entry_bl, b));
            if successor[b].contains(&l) {
                predecessor[l].insert(b);
            }
            proof {
                assert forall|x: usize| x < n implies (#[trigger] predecessor@[x as int])@
                    == pred_partial(bv, entry_bl, x, b, (l + 1) as usize) by {
                    assert(pred0[x as int]@ == pred_partial(bv, entry_bl, x, b, l));
                    assert(predecessor@[x as int]@ =~= pred_partial(
                        bv,
                        entry_bl,
                        x,
                        b,
                        (l + 1) as usize,
                    ));
                }
            }
            l += 1;
        }
        proof {
            assert forall|x: usize| x < n implies (#[trigger] predecessor@[x as int])@
                == pred_partial(bv, entry_bl, x, (b + 1) as usize, 0) by {
                assert(predecessor@[x as int]@ =~= pred_partial(
                    bv,
                    entry_bl,
                    x,
                    (b + 1) as usize,
                    0,
                ));
            }
        }
        b += 1;
    }
    proof {
        assert forall|l: usize| l < n implies (#[trigger] predecessor@[l as int])@ == pred_set(
            bv,
            entry_bl,
            l,
        ) by {
            assert(predecessor@[l as int]@ =~= pred_set(bv, entry_bl, l));
        }
    }
    Ok((successor, predecessor, exit_bls))
}

/// The blocks that block `l` may follow, as far as the blocks before `b`
/// go, and `b` itself where `l` is below `m`.
pub open spec fn pred_partial(bls: Seq<BlockV>, entry: usize, l: usize, b: usize, m: usize) -> Set<
    usize,
> {
    Set::new(|c: usize| follows(bls, entry, c, l) && (c < b || (c == b && l < m)))
}

} // verus!
