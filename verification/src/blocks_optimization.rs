//! Dead-block elimination: which blocks can be reached from the entry
//! block, and the program that is left when the others are taken out and
//! the labels are made dense again.

use crate::ast::{ExprV, Expression, LhsV, LiteralExpression, Statement, StmtV, TypedIdentifierOrAssignee};
use crate::blocks::{
    blocks_view, label_leaves, leaves_below, next_blocks, terminator_resolved, Block,
    BlockContent, BlockTerminator, BlockV, ContentV, Error, NextBlock,
    TermV,
};
use crate::blocks::{fails, yields};
use crate::lower_expr::rp_update_stmt;
use crate::lower_stmt::program_ok;
use crate::names::reg_rp;
use std::collections::VecDeque;
use vstd::prelude::*;
use vstd::string::*;

verus! {

/// The label that the instruction `c` writes to `%RP`, where `c` is an
/// assignment to `%RP`. Such an assignment needs a literal label on its
/// right side.
pub open spec fn rp_value(c: ContentV) -> Result<Option<usize>, Error> {
    match c {
        ContentV::Stmt(StmtV::Definition { lhs, expression }) => if lhs.len() > 0 && lhs[0]
            == LhsV::Assignee(reg_rp()) {
            match expression {
                ExprV::Literal(LiteralExpression::DecimalLiteral(v, _)) => if v <= usize::MAX {
                    Ok(Some(v as usize))
                } else {
                    Err(Error::InvalidTerminator)
                },
                _ => Err(Error::InvalidTerminator),
            }
        } else {
            Ok(None)
        },
        _ => Ok(None),
    }
}

/// Whether every assignment to `%RP` among `instrs` writes the label of a
/// block.
pub open spec fn rp_ok(instrs: Seq<ContentV>, n: int) -> bool {
    forall|i: int|
        0 <= i < instrs.len() ==> match rp_value(#[trigger] instrs[i]) {
            Ok(Some(l)) => l < n,
            Ok(None) => true,
            Err(_) => false,
        }
}

/// Whether the block `b` can stand in a program of `n` blocks: what it
/// writes to `%RP` and what its terminator yields are labels of blocks,
/// and it does not end in a call by name.
pub open spec fn block_valid(b: BlockV, n: int) -> bool {
    rp_ok(b.instructions, n) && terminator_resolved(b.terminator, n)
}

/// Whether control may go from the block `b` to the label `q`: `b` writes
/// `q` to `%RP`, or the terminator of `b` yields `q`.
pub open spec fn edge(b: BlockV, q: usize) -> bool {
    ||| exists|i: int|
        0 <= i < b.instructions.len() && rp_value(#[trigger] b.instructions[i]) == Ok::<
            Option<usize>,
            Error,
        >(Some(q))
    ||| match b.terminator {
        TermV::Transition(e) => match label_leaves(e) {
            Some(ls) => exists|j: int| 0 <= j < ls.len() && #[trigger] ls[j] == NextBlock::Label(q),
            None => false,
        },
        _ => false,
    }
}

/// Whether `path` leads from `entry` along edges of the program.
pub open spec fn is_path(bls: Seq<BlockV>, entry: usize, path: Seq<usize>) -> bool {
    &&& path.len() > 0
    &&& path[0] == entry
    &&& forall|i: int|
        0 <= i < path.len() - 1 ==> (#[trigger] path[i]) < bls.len() && edge(
            bls[path[i] as int],
            path[i + 1],
        )
}

/// Whether `b` is reached from `entry`: a path leads from `entry` to `b`.
pub open spec fn reachable(bls: Seq<BlockV>, entry: usize, b: usize) -> bool {
    exists|path: Seq<usize>| #[trigger] is_path(bls, entry, path) && path.last() == b
}

/// The entry block is reached.
pub proof fn lemma_reach_entry(bls: Seq<BlockV>, entry: usize)
    ensures
        reachable(bls, entry, entry),
{
    let path = seq![entry];
    assert(is_path(bls, entry, path) && path.last() == entry);
}

/// What a block reaches is reached.
pub proof fn lemma_reach_step(bls: Seq<BlockV>, entry: usize, p: usize, q: usize)
    requires
        p < bls.len(),
        reachable(bls, entry, p),
        edge(bls[p as int], q),
    ensures
        reachable(bls, entry, q),
{
    let path = choose|path: Seq<usize>| #[trigger] is_path(bls, entry, path) && path.last() == p;
    let longer = path.push(q);
    assert forall|i: int| 0 <= i < longer.len() - 1 implies (#[trigger] longer[i]) < bls.len()
        && edge(bls[longer[i] as int], longer[i + 1]) by {
        if i < path.len() - 1 {
            assert(path[i] < bls.len());
            assert(longer[i] == path[i]);
            assert(longer[i + 1] == path[i + 1]);
        } else {
            assert(longer[i] == p);
        }
    }
    assert(is_path(bls, entry, longer) && longer.last() == q);
}

/// A set of blocks that holds the entry block and, with each of its blocks,
/// whatever that block reaches, holds every block on a path from the entry
/// block.
pub proof fn lemma_closed_holds_path(
    bls: Seq<BlockV>,
    entry: usize,
    vis: Seq<bool>,
    path: Seq<usize>,
    i: int,
)
    requires
        vis.len() == bls.len(),
        entry < bls.len(),
        vis[entry as int],
        forall|p: usize, q: usize|
            p < bls.len() && vis[p as int] && #[trigger] edge(bls[p as int], q) ==> q < bls.len()
                && vis[q as int],
        is_path(bls, entry, path),
        0 <= i < path.len(),
    ensures
        path[i] < bls.len(),
        vis[path[i] as int],
    decreases i,
{
    if i > 0 {
        lemma_closed_holds_path(bls, entry, vis, path, i - 1);
        let p = path[i - 1];
        assert(p < bls.len() && edge(bls[p as int], path[i]));
    }
}

/// How many of the first `l` entries of `vis` are set.
pub open spec fn count_upto(vis: Seq<bool>, l: int) -> nat
    decreases l,
{
    if l <= 0 {
        0
    } else if vis[l - 1] {
        count_upto(vis, l - 1) + 1
    } else {
        count_upto(vis, l - 1)
    }
}

/// The new label of each old label: the number of kept blocks before it.
pub open spec fn label_map_of(vis: Seq<bool>) -> Seq<usize> {
    Seq::new(vis.len(), |l: int| count_upto(vis, l) as usize)
}

/// The terminator expression `e` with each literal label taken through
/// `map`.
pub open spec fn relabel_expr(e: ExprV, map: Seq<usize>) -> ExprV
    decreases e,
{
    match e {
        ExprV::Ternary(c, a, b) => ExprV::Ternary(
            c,
            Box::new(relabel_expr(*a, map)),
            Box::new(relabel_expr(*b, map)),
        ),
        ExprV::Literal(LiteralExpression::DecimalLiteral(v, s)) => if v < map.len() {
            ExprV::Literal(LiteralExpression::DecimalLiteral(map[v as int] as u64, s))
        } else {
            e
        },
        _ => e,
    }
}

/// The terminator `t` with each literal label taken through `map`.
pub open spec fn relabel_term(t: TermV, map: Seq<usize>) -> TermV {
    match t {
        TermV::Transition(e) => TermV::Transition(relabel_expr(e, map)),
        _ => t,
    }
}

/// The instruction `c`, or, where `c` writes a label to `%RP`, the
/// assignment of the new label.
pub open spec fn relabel_content(c: ContentV, map: Seq<usize>) -> ContentV {
    match rp_value(c) {
        Ok(Some(l)) => if l < map.len() {
            ContentV::Stmt(rp_update_stmt(map[l as int]))
        } else {
            c
        },
        _ => c,
    }
}

/// The block `b` under the new label `name`, with the labels that it
/// writes to `%RP` and that its terminator yields taken through `map`.
pub open spec fn relabel_block(b: BlockV, name: usize, map: Seq<usize>) -> BlockV {
    BlockV {
        name,
        inputs: b.inputs,
        instructions: Seq::new(
            b.instructions.len(),
            |i: int| relabel_content(b.instructions[i], map),
        ),
        terminator: relabel_term(b.terminator, map),
    }
}

/// The kept ones among the first `i` blocks, each relabelled.
pub open spec fn kept_blocks(bls: Seq<BlockV>, vis: Seq<bool>, map: Seq<usize>, i: int) -> Seq<
    BlockV,
>
    decreases i,
{
    if i <= 0 {
        Seq::empty()
    } else {
        let rest = kept_blocks(bls, vis, map, i - 1);
        if vis[i - 1] {
            rest.push(relabel_block(bls[i - 1], rest.len() as usize, map))
        } else {
            rest
        }
    }
}

/// Which blocks are reached from `entry`.
pub open spec fn reach_seq(bls: Seq<BlockV>, entry: usize) -> Seq<bool> {
    Seq::new(bls.len(), |b: int| reachable(bls, entry, b as usize))
}

/// The program without its dead blocks, and the new label of the entry
/// block.
///
/// The blocks that are reached from `entry` stay, in their order, under
/// the labels 0, 1, ...; every label that they write to `%RP` or that
/// their terminators yield is replaced by the new label of its block.
/// There is no such program where `entry` is no block, or where a block
/// that is reached is not valid.
pub open spec fn dbe_spec(bls: Seq<BlockV>, entry: usize) -> Result<(Seq<BlockV>, usize), Error> {
    if entry >= bls.len() || exists|b: usize|
        b < bls.len() && #[trigger] reachable(bls, entry, b) && !block_valid(
            bls[b as int],
            bls.len() as int,
        ) {
        Err(Error::InvalidTerminator)
    } else {
        let vis = reach_seq(bls, entry);
        let map = label_map_of(vis);
        Ok((kept_blocks(bls, vis, map, bls.len() as int), map[entry as int]))
    }
}

/// How many entries of `vis` are not set.
pub open spec fn count_unset(vis: Seq<bool>) -> nat {
    (vis.len() - count_upto(vis, vis.len() as int)) as nat
}

/// No more entries are set than there are.
pub proof fn lemma_count_bound(vis: Seq<bool>, l: int)
    requires
        0 <= l <= vis.len(),
    ensures
        count_upto(vis, l) <= l,
    decreases l,
{
    if l > 0 {
        lemma_count_bound(vis, l - 1);
    }
}

proof fn lemma_count_mono(vis: Seq<bool>, a: int, b: int)
    requires
        0 <= a <= b <= vis.len(),
    ensures
        count_upto(vis, a) <= count_upto(vis, b),
    decreases b - a,
{
    if a < b {
        lemma_count_mono(vis, a, b - 1);
    }
}

/// Setting an entry that was not set adds one to the count of what lies
/// beyond it.
pub proof fn lemma_count_set(vis: Seq<bool>, i: int, l: int)
    requires
        0 <= i < vis.len(),
        0 <= l <= vis.len(),
        !vis[i],
    ensures
        count_upto(vis.update(i, true), l) == count_upto(vis, l) + if i < l {
            1nat
        } else {
            0nat
        },
    decreases l,
{
    if l > 0 {
        lemma_count_set(vis, i, l - 1);
    }
}

/// A kept block has a new label below the number of kept blocks.
proof fn lemma_kept_label(vis: Seq<bool>, l: int)
    requires
        0 <= l < vis.len(),
        vis[l],
    ensures
        count_upto(vis, l) < count_upto(vis, vis.len() as int),
{
    lemma_count_mono(vis, l + 1, vis.len() as int);
}

proof fn lemma_kept_len(bls: Seq<BlockV>, vis: Seq<bool>, map: Seq<usize>, i: int)
    requires
        0 <= i <= vis.len(),
    ensures
        kept_blocks(bls, vis, map, i).len() == count_upto(vis, i),
    decreases i,
{
    if i > 0 {
        lemma_kept_len(bls, vis, map, i - 1);
    }
}

/// The label that `bc` writes to `%RP`, where `bc` is an assignment to
/// `%RP`.
pub fn rp_find_val(bc: &BlockContent) -> (r: Result<Option<usize>, Error>)
    ensures
        r == rp_value(bc@),
{
    match bc {
        BlockContent::Stmt(Statement::Definition { lhs, expression }) => {
            assert(bc@ == ContentV::Stmt(
                StmtV::Definition { lhs: crate::ast::lhs_view(lhs@), expression: expression@ },
            ));
            if lhs.len() == 0 {
                return Ok(None);
            }
            match &lhs[0] {
                TypedIdentifierOrAssignee::Assignee(name) => {
                    let rp = String::from_str("%RP");
                    if *name == rp {
                        match expression {
                            Expression::Literal(LiteralExpression::DecimalLiteral(v, _)) => {
                                if *v <= usize::MAX as u64 {
                                    Ok(Some(*v as usize))
                                } else {
                                    Err(Error::InvalidTerminator)
                                }
                            },
                            _ => Err(Error::InvalidTerminator),
                        }
                    } else {
                        Ok(None)
                    }
                },
                _ => Ok(None),
            }
        },
        _ => Ok(None),
    }
}

/// The assignment of the new label to `%RP`, where `bc` assigns a label
/// that `val_map` knows.
pub fn rp_replacement_stmt(bc: &BlockContent, val_map: &Vec<usize>) -> (r: Option<BlockContent>)
    ensures
        match r {
            Some(c) => c@ == relabel_content(bc@, val_map@) && rp_value(bc@) is Ok,
            None => relabel_content(bc@, val_map@) == bc@,
        },
{
    match rp_find_val(bc) {
        Ok(Some(l)) => {
            if l < val_map.len() {
                Some(
                    BlockContent::Stmt(
                        Statement::assign(
                            String::from_str("%RP"),
                            crate::blocks::field_literal(val_map[l] as u64),
                        ),
                    ),
                )
            } else {
                None
            }
        },
        _ => None,
    }
}

/// The terminator expression `e` with each literal label taken through
/// `map`.
pub fn relabel_expression(e: &Expression, map: &Vec<usize>) -> (r: Expression)
    ensures
        r@ == relabel_expr(e@, map@),
    decreases e,
{
    match e {
        Expression::Ternary(c, a, b) => Expression::ternary(
            c.dup(),
            relabel_expression(a, map),
            relabel_expression(b, map),
        ),
        Expression::Literal(LiteralExpression::DecimalLiteral(v, s)) => {
            if *v < map.len() as u64 {
                Expression::literal(
                    LiteralExpression::DecimalLiteral(map[*v as usize] as u64, *s),
                )
            } else {
                e.dup()
            }
        },
        _ => e.dup(),
    }
}

/// The terminator `t` with each literal label taken through `map`.
pub fn relabel_terminator(t: &BlockTerminator, map: &Vec<usize>) -> (r: BlockTerminator)
    ensures
        r@ == relabel_term(t@, map@),
{
    match t {
        BlockTerminator::Transition(e) => BlockTerminator::Transition(relabel_expression(e, map)),
        _ => t.dup(),
    }
}

/// The block `b` under the new label `name`, its labels taken through
/// `map`.
pub fn relabel(b: &Block, name: usize, map: &Vec<usize>) -> (r: Block)
    ensures
        r@ == relabel_block(b@, name, map@),
{
    let copy = b.dup();
    let mut instructions: Vec<BlockContent> = Vec::new();
    let mut i: usize = 0;
    while i < b.instructions.len()
        invariant
            i <= b.instructions.len(),
            instructions.len() == i,
            forall|j: int|
                0 <= j < i ==> (#[trigger] instructions@[j])@ == relabel_content(
                    b.instructions@[j]@,
                    map@,
                ),
        decreases b.instructions.len() - i,
    {
        match rp_replacement_stmt(&b.instructions[i], map) {
            Some(c) => instructions.push(c),
            None => instructions.push(b.instructions[i].dup()),
        }
        i += 1;
    }
    let r = Block {
        name,
        inputs: copy.inputs,
        instructions,
        terminator: relabel_terminator(&b.terminator, map),
    };
    assert(r@.instructions =~= relabel_block(b@, name, map@).instructions);
    r
}

/// Marks `label` as visited, and queues it if it was not.
fn visit(label: usize, visited: &mut Vec<bool>, next_bls: &mut VecDeque<usize>)
    requires
        label < old(visited).len(),
    ensures
        final(visited)@ == old(visited)@.update(label as int, true),
        final(next_bls)@ == if old(visited)@[label as int] {
            old(next_bls)@
        } else {
            old(next_bls)@.push(label)
        },
        count_unset(final(visited)@) + final(next_bls)@.len() == count_unset(old(visited)@) + old(
            next_bls,
        )@.len(),
{
    if !visited[label] {
        proof {
            lemma_count_set(visited@, label as int, visited@.len() as int);
            lemma_count_bound(visited@.update(label as int, true), visited@.len() as int);
        }
        visited[label] = true;
        next_bls.push_back(label);
    } else {
        assert(visited@.update(label as int, true) =~= visited@);
    }
}

/// Whether block `b` has been looked at: it is valid, and what it reaches
/// is visited.
pub open spec fn processed(bls: Seq<BlockV>, vis: Seq<bool>, b: usize) -> bool {
    &&& block_valid(bls[b as int], bls.len() as int)
    &&& forall|q: usize| #[trigger] edge(bls[b as int], q) ==> q < bls.len() && vis[q as int]
}

/// The state of the search: what is visited is reached, what is queued is
/// visited, and what is visited and not queued has been looked at.
pub open spec fn search_inv(bls: Seq<BlockV>, entry: usize, vis: Seq<bool>, queue: Seq<usize>) -> bool {
    &&& vis.len() == bls.len()
    &&& entry < bls.len()
    &&& vis[entry as int]
    &&& forall|b: usize| b < bls.len() && #[trigger] vis[b as int] ==> reachable(bls, entry, b)
    &&& forall|i: int| 0 <= i < queue.len() ==> #[trigger] queue[i] < bls.len() && vis[queue[i] as int]
    &&& forall|b: usize|
        b < bls.len() && #[trigger] vis[b as int] && !queue.contains(b) ==> processed(bls, vis, b)
}

/// Looks at the block `cur`: everything that it reaches is visited.
fn search_block(
    bls: &Vec<Block>,
    entry: usize,
    cur: usize,
    visited: &mut Vec<bool>,
    next_bls: &mut VecDeque<usize>,
) -> (r: Result<(), Error>)
    requires
        cur < bls.len(),
        old(visited).len() == bls.len(),
        entry < bls.len(),
        old(visited)@[cur as int],
        forall|b: usize|
            b < bls.len() && #[trigger] old(visited)@[b as int] ==> reachable(
                blocks_view(bls@),
                entry,
                b,
            ),
        forall|i: int|
            0 <= i < old(next_bls)@.len() ==> #[trigger] old(next_bls)@[i] < bls.len() && old(
                visited,
            )@[old(next_bls)@[i] as int],
    ensures
        final(visited).len() == bls.len(),
        match r {
            Ok(_) => {
                &&& processed(blocks_view(bls@), final(visited)@, cur)
                &&& forall|b: usize|
                    b < bls.len() && #[trigger] final(visited)@[b as int] ==> reachable(
                        blocks_view(bls@),
                        entry,
                        b,
                    )
                &&& forall|b: int|
                    0 <= b < bls.len() && old(visited)@[b] ==> #[trigger] final(visited)@[b]
                &&& forall|i: int|
                    0 <= i < final(next_bls)@.len() ==> #[trigger] final(next_bls)@[i] < bls.len()
                        && final(visited)@[final(next_bls)@[i] as int]
                &&& forall|x: usize|
                    old(next_bls)@.contains(x) ==> #[trigger] final(next_bls)@.contains(x)
                &&& forall|b: usize|
                    b < bls.len() && #[trigger] final(visited)@[b as int] && !old(visited)@[b as int]
                        ==> final(next_bls)@.contains(b)
                &&& count_unset(final(visited)@) + final(next_bls)@.len() == count_unset(
                    old(visited)@,
                ) + old(next_bls)@.len()
                &&& final(next_bls)@.len() >= old(next_bls)@.len()
            },
            Err(e) => e == Error::InvalidTerminator && !block_valid(
                blocks_view(bls@)[cur as int],
                bls.len() as int,
            ),
        },
{
    let ghost bv = blocks_view(bls@);
    let ghost vis0 = visited@;
    let ghost q0 = next_bls@;
    let n = bls.len();
    let blk = &bls[cur];
    let ghost instrs = bv[cur as int].instructions;
    let mut i: usize = 0;
    while i < blk.instructions.len()
        invariant
            i <= blk.instructions.len(),
            n == bls.len(),
            cur < n,
            entry < n,
            *blk == bls@[cur as int],
            bv == blocks_view(bls@),
            instrs == bv[cur as int].instructions,
            instrs.len() == blk.instructions.len(),
            visited.len() == n,
            visited@[cur as int],
            forall|b: usize| b < n && #[trigger] visited@[b as int] ==> reachable(bv, entry, b),
            forall|b: int| 0 <= b < n && vis0[b] ==> #[trigger] visited@[b],
            forall|j: int|
                0 <= j < next_bls@.len() ==> #[trigger] next_bls@[j] < n && visited@[next_bls@[j] as int],
            forall|x: usize| q0.contains(x) ==> #[trigger] next_bls@.contains(x),
            forall|b: usize|
                b < n && #[trigger] visited@[b as int] && !vis0[b as int] ==> next_bls@.contains(b),
            count_unset(visited@) + next_bls@.len() == count_unset(vis0) + q0.len(),
            next_bls@.len() >= q0.len(),
            forall|j: int|
                0 <= j < i ==> match rp_value(#[trigger] instrs[j]) {
                    Ok(Some(l)) => l < n && visited@[l as int],
                    Ok(None) => true,
                    Err(_) => false,
                },
        decreases blk.instructions.len() - i,
    {
        assert(instrs[i as int] == blk.instructions@[i as int]@);
        match rp_find_val(&blk.instructions[i]) {
            Err(_) => {
                return Err(Error::InvalidTerminator);
            },
            Ok(None) => {},
            Ok(Some(l)) => {
                if l >= n {
                    return Err(Error::InvalidTerminator);
                }
                proof {
                    assert(edge(bv[cur as int], l));
                    lemma_reach_step(bv, entry, cur, l);
                }
                let ghost qb = next_bls@;
                visit(l, visited, next_bls);
                proof {
                    assert forall|x: usize| q0.contains(x) implies #[trigger] next_bls@.contains(
                        x,
                    ) by {
                        assert(qb.contains(x));
                        let j = choose|j: int| 0 <= j < qb.len() && qb[j] == x;
                        assert(next_bls@[j] == x);
                    }
                    assert forall|b: usize|
                        b < n && #[trigger] visited@[b as int] && !vis0[b as int] implies next_bls@.contains(
                        b,
                    ) by {
                        if qb.contains(b) {
                            let j = choose|j: int| 0 <= j < qb.len() && qb[j] == b;
                            assert(next_bls@[j] == b);
                        } else {
                            assert(b == l);
                            assert(next_bls@[qb.len() as int] == l);
                        }
                    }
                }
            },
        }
        i += 1;
    }
    assert(rp_ok(instrs, n as int));
    let leaves: Vec<NextBlock> = match &blk.terminator {
        BlockTerminator::FuncCall(_) => {
            return Err(Error::InvalidTerminator);
        },
        BlockTerminator::ProgTerm() => Vec::new(),
        BlockTerminator::Transition(e) => match next_blocks(e) {
            None => {
                return Err(Error::InvalidTerminator);
            },
            Some(ls) => ls,
        },
    };
    let ghost ls = leaves@;
    assert(match bv[cur as int].terminator {
        TermV::Transition(e) => label_leaves(e) == Some(ls),
        TermV::ProgTerm => ls.len() == 0,
        TermV::FuncCall(_) => false,
    });
    let mut j: usize = 0;
    while j < leaves.len()
        invariant
            j <= leaves.len(),
            ls == leaves@,
            n == bls.len(),
            cur < n,
            entry < n,
            bv == blocks_view(bls@),
            instrs == bv[cur as int].instructions,
            match bv[cur as int].terminator {
                TermV::Transition(e) => label_leaves(e) == Some(ls),
                TermV::ProgTerm => ls.len() == 0,
                TermV::FuncCall(_) => false,
            },
            visited.len() == n,
            visited@[cur as int],
            forall|b: usize| b < n && #[trigger] visited@[b as int] ==> reachable(bv, entry, b),
            forall|b: int| 0 <= b < n && vis0[b] ==> #[trigger] visited@[b],
            forall|k: int|
                0 <= k < next_bls@.len() ==> #[trigger] next_bls@[k] < n && visited@[next_bls@[k] as int],
            forall|x: usize| q0.contains(x) ==> #[trigger] next_bls@.contains(x),
            forall|b: usize|
                b < n && #[trigger] visited@[b as int] && !vis0[b as int] ==> next_bls@.contains(b),
            count_unset(visited@) + next_bls@.len() == count_unset(vis0) + q0.len(),
            next_bls@.len() >= q0.len(),
            rp_ok(instrs, n as int),
            forall|k: int|
                0 <= k < instrs.len() ==> match rp_value(#[trigger] instrs[k]) {
                    Ok(Some(l)) => l < n && visited@[l as int],
                    Ok(None) => true,
                    Err(_) => false,
                },
            forall|k: int|
                0 <= k < j ==> match #[trigger] ls[k] {
                    NextBlock::Label(l) => l < n && visited@[l as int],
                    NextBlock::Rp() => true,
                },
        decreases leaves.len() - j,
    {
        match leaves[j] {
            NextBlock::Rp() => {},
            NextBlock::Label(l) => {
                if l >= n {
                    assert(!leaves_below(ls, n as int));
                    return Err(Error::InvalidTerminator);
                }
                proof {
                    assert(ls[j as int] == NextBlock::Label(l));
                    assert(edge(bv[cur as int], l));
                    lemma_reach_step(bv, entry, cur, l);
                }
                let ghost qb = next_bls@;
                visit(l, visited, next_bls);
                proof {
                    assert forall|x: usize| q0.contains(x) implies #[trigger] next_bls@.contains(
                        x,
                    ) by {
                        assert(qb.contains(x));
                        let k = choose|k: int| 0 <= k < qb.len() && qb[k] == x;
                        assert(next_bls@[k] == x);
                    }
                    assert forall|b: usize|
                        b < n && #[trigger] visited@[b as int] && !vis0[b as int] implies next_bls@.contains(
                        b,
                    ) by {
                        if qb.contains(b) {
                            let k = choose|k: int| 0 <= k < qb.len() && qb[k] == b;
                            assert(next_bls@[k] == b);
                        } else {
                            assert(b == l);
                            assert(next_bls@[qb.len() as int] == l);
                        }
                    }
                }
            },
        }
        j += 1;
    }
    assert(leaves_below(ls, n as int));
    assert(processed(bv, visited@, cur)) by {
        assert forall|q: usize| #[trigger] edge(bv[cur as int], q) implies q < n && visited@[q as int] by {
            if exists|i: int|
                0 <= i < instrs.len() && rp_value(#[trigger] instrs[i]) == Ok::<Option<usize>, Error>(
                    Some(q),
                ) {
                let i = choose|i: int|
                    0 <= i < instrs.len() && rp_value(#[trigger] instrs[i]) == Ok::<
                        Option<usize>,
                        Error,
                    >(Some(q));
                assert(q < n && visited@[q as int]);
            } else {
                let k = choose|k: int| 0 <= k < ls.len() && #[trigger] ls[k] == NextBlock::Label(q);
                assert(q < n && visited@[q as int]);
            }
        }
    }
    Ok(())
}

/// Which blocks are reached from `entry_bl`.
pub fn reachable_blocks(bls: &Vec<Block>, entry_bl: usize) -> (r: Result<Vec<bool>, Error>)
    ensures
        match r {
            Ok(visited) => {
                &&& entry_bl < bls.len()
                &&& visited@ == reach_seq(blocks_view(bls@), entry_bl)
                &&& forall|b: usize|
                    b < bls.len() && #[trigger] reachable(blocks_view(bls@), entry_bl, b)
                        ==> processed(blocks_view(bls@), visited@, b)
                &&& forall|b: usize|
                    #[trigger] reachable(blocks_view(bls@), entry_bl, b) ==> b < bls.len()
            },
            Err(e) => e == Error::InvalidTerminator && (entry_bl >= bls.len() || exists|b: usize|
                b < bls.len() && #[trigger] reachable(blocks_view(bls@), entry_bl, b)
                    && !block_valid(blocks_view(bls@)[b as int], bls.len() as int)),
        },
{
    let n = bls.len();
    if entry_bl >= n {
        return Err(Error::InvalidTerminator);
    }
    let ghost bv = blocks_view(bls@);
    let mut visited: Vec<bool> = Vec::new();
    let mut k: usize = 0;
    while k < n
        invariant
            k <= n,
            visited.len() == k,
            forall|b: int| 0 <= b < k ==> !#[trigger] visited@[b],
        decreases n - k,
    {
        visited.push(false);
        k += 1;
    }
    let mut next_bls: VecDeque<usize> = VecDeque::new();
    visited[entry_bl] = true;
    next_bls.push_back(entry_bl);
    proof {
        lemma_reach_entry(bv, entry_bl);
        assert(next_bls@.contains(entry_bl)) by {
            assert(next_bls@[0] == entry_bl);
        }
        lemma_count_bound(visited@, n as int);
    }
    while next_bls.len() > 0
        invariant
            n == bls.len(),
            bv == blocks_view(bls@),
            search_inv(bv, entry_bl, visited@, next_bls@),
        decreases count_unset(visited@), next_bls@.len(),
    {
        let ghost vis_a = visited@;
        let ghost q_a = next_bls@;
        let cur = next_bls.pop_front().unwrap();
        let ghost q_b = next_bls@;
        assert(q_a[0] == cur);
        assert forall|i: int| 0 <= i < q_b.len() implies #[trigger] q_b[i] < n && visited@[q_b[i] as int] by {
            assert(q_b[i] == q_a[i + 1]);
        }
        match search_block(bls, entry_bl, cur, &mut visited, &mut next_bls) {
            Err(e) => {
                return Err(e);
            },
            Ok(_) => {},
        }
        proof {
            lemma_count_bound(visited@, n as int);
            lemma_count_bound(vis_a, n as int);
            assert forall|b: usize|
                b < n && #[trigger] visited@[b as int] && !next_bls@.contains(b) implies processed(
                bv,
                visited@,
                b,
            ) by {
                if b != cur {
                    assert(vis_a[b as int]);
                    if q_a.contains(b) {
                        let i = choose|i: int| 0 <= i < q_a.len() && q_a[i] == b;
                        assert(q_b[i - 1] == b);
                        assert(q_b.contains(b));
                    }
                    assert(processed(bv, vis_a, b));
                }
            }
        }
    }
    proof {
        assert forall|p: usize, q: usize|
            p < n && visited@[p as int] && #[trigger] edge(bv[p as int], q) implies q < n
            && visited@[q as int] by {
            assert(!next_bls@.contains(p));
            assert(processed(bv, visited@, p));
        }
        assert forall|b: usize| #[trigger] reachable(bv, entry_bl, b) implies b < n && visited@[b as int] by {
            let path = choose|path: Seq<usize>|
                #[trigger] is_path(bv, entry_bl, path) && path.last() == b;
            lemma_closed_holds_path(bv, entry_bl, visited@, path, path.len() - 1);
        }
        assert(visited@ =~= reach_seq(bv, entry_bl));
    }
    Ok(visited)
}

/// Removes the blocks that cannot be reached from `entry_bl` and renames
/// the labels so that they are consecutive again.
pub fn dead_block_elimination(bls: Vec<Block>, entry_bl: usize) -> (r: Result<
    (Vec<Block>, usize),
    Error,
>)
    ensures
        match r {
            Ok((new_bls, new_entry)) => {
                &&& yields(dbe_spec(blocks_view(bls@), entry_bl), (blocks_view(new_bls@), new_entry))
                &&& program_ok(blocks_view(new_bls@))
                &&& new_entry < new_bls.len()
                &&& entry_bl == 0 ==> new_entry == 0
            },
            Err(e) => fails(dbe_spec(blocks_view(bls@), entry_bl), e),
        },
{
    let ghost bv = blocks_view(bls@);
    let visited = match reachable_blocks(&bls, entry_bl) {
        Err(e) => {
            return Err(e);
        },
        Ok(v) => v,
    };
    let n = bls.len();
    let ghost vis = visited@;
    let mut label_map: Vec<usize> = Vec::new();
    let mut new_label: usize = 0;
    let mut l: usize = 0;
    while l < n
        invariant
            l <= n,
            n == visited.len(),
            vis == visited@,
            label_map.len() == l,
            new_label == count_upto(vis, l as int),
            forall|j: int| 0 <= j < l ==> #[trigger] label_map@[j] == count_upto(vis, j) as usize,
        decreases n - l,
    {
        proof {
            lemma_count_bound(vis, l as int + 1);
        }
        label_map.push(new_label);
        if visited[l] {
            new_label += 1;
        }
        l += 1;
    }
    assert(label_map@ =~= label_map_of(vis));
    let ghost map = label_map@;
    let mut new_bls: Vec<Block> = Vec::new();
    let mut i: usize = 0;
    assert(blocks_view(new_bls@) =~= kept_blocks(bv, vis, map, 0));
    while i < n
        invariant
            i <= n,
            n == bls.len(),
            n == visited.len(),
            vis == visited@,
            map == label_map@,
            bv == blocks_view(bls@),
            blocks_view(new_bls@) == kept_blocks(bv, vis, map, i as int),
        decreases n - i,
    {
        if visited[i] {
            let ghost before = blocks_view(new_bls@);
            let name = new_bls.len();
            new_bls.push(relabel(&bls[i], name, &label_map));
            assert(blocks_view(new_bls@) =~= before.push(relabel_block(bv[i as int], name, map)));
        }
        i += 1;
    }
    proof {
        let out = blocks_view(new_bls@);
        lemma_kept_len(bv, vis, map, n as int);
        lemma_reach_entry(bv, entry_bl);
        assert(vis[entry_bl as int]);
        lemma_kept_label(vis, entry_bl as int);
        lemma_kept_program_ok(bv, entry_bl, vis, n as int);
    }
    Ok((new_bls, label_map[entry_bl]))
}

/// The terminator expression `e`, relabelled, yields the new labels of
/// what `e` yields.
proof fn lemma_relabel_leaves(e: ExprV, vis: Seq<bool>, n: int)
    requires
        n == vis.len(),
        label_leaves(e) is Some,
        forall|k: int|
            0 <= k < label_leaves(e)->Some_0.len() ==> match #[trigger] label_leaves(e)->Some_0[k] {
                NextBlock::Label(l) => l < n && vis[l as int],
                NextBlock::Rp() => true,
            },
    ensures
        label_leaves(relabel_expr(e, label_map_of(vis))) is Some,
        leaves_below(
            label_leaves(relabel_expr(e, label_map_of(vis)))->Some_0,
            count_upto(vis, n) as int,
        ),
    decreases e,
{
    let map = label_map_of(vis);
    match e {
        ExprV::Ternary(c, a, b) => {
            let la = label_leaves(*a)->Some_0;
            let lb = label_leaves(*b)->Some_0;
            let ls = label_leaves(e)->Some_0;
            assert(ls == la + lb);
            assert forall|k: int| 0 <= k < la.len() implies match #[trigger] la[k] {
                NextBlock::Label(l) => l < n && vis[l as int],
                NextBlock::Rp() => true,
            } by {
                assert(ls[k] == la[k]);
            }
            assert forall|k: int| 0 <= k < lb.len() implies match #[trigger] lb[k] {
                NextBlock::Label(l) => l < n && vis[l as int],
                NextBlock::Rp() => true,
            } by {
                assert(ls[la.len() + k] == lb[k]);
            }
            lemma_relabel_leaves(*a, vis, n);
            lemma_relabel_leaves(*b, vis, n);
        },
        ExprV::Literal(LiteralExpression::DecimalLiteral(v, s)) => {
            let ls = label_leaves(e)->Some_0;
            assert(ls[0] == NextBlock::Label(v as usize));
            lemma_kept_label(vis, v as int);
            lemma_count_bound(vis, n);
            lemma_count_bound(vis, v as int);
        },
        _ => {},
    }
}

/// The kept blocks form a program whose labels are in order.
proof fn lemma_kept_program_ok(bls: Seq<BlockV>, entry: usize, vis: Seq<bool>, i: int)
    requires
        vis.len() == bls.len(),
        bls.len() <= usize::MAX,
        0 <= i <= bls.len(),
        forall|b: usize| b < bls.len() && #[trigger] vis[b as int] ==> processed(bls, vis, b),
    ensures
        forall|j: int|
            0 <= j < kept_blocks(bls, vis, label_map_of(vis), i).len() ==> (#[trigger] kept_blocks(
                bls,
                vis,
                label_map_of(vis),
                i,
            )[j]).name == j && terminator_resolved(
                kept_blocks(bls, vis, label_map_of(vis), i)[j].terminator,
                count_upto(vis, bls.len() as int) as int,
            ),
    decreases i,
{
    let map = label_map_of(vis);
    let n = bls.len() as int;
    let total = count_upto(vis, n) as int;
    let kept = kept_blocks(bls, vis, map, i);
    if i > 0 {
        lemma_kept_program_ok(bls, entry, vis, i - 1);
        let rest = kept_blocks(bls, vis, map, i - 1);
        if vis[i - 1] {
            let b = bls[i - 1];
            let b0 = (i - 1) as usize;
            assert(vis[b0 as int]);
            assert(processed(bls, vis, b0));
            let nb = relabel_block(b, rest.len() as usize, map);
            assert(kept == rest.push(nb));
            lemma_kept_len(bls, vis, map, i - 1);
            lemma_count_bound(vis, i - 1);
            assert(terminator_resolved(nb.terminator, total)) by {
                match b.terminator {
                    TermV::Transition(e) => {
                        let ls = label_leaves(e)->Some_0;
                        assert(label_leaves(e) == Some(ls));
                        assert forall|k: int| 0 <= k < ls.len() implies match #[trigger] ls[k] {
                            NextBlock::Label(l) => l < n && vis[l as int],
                            NextBlock::Rp() => true,
                        } by {
                            match ls[k] {
                                NextBlock::Label(l) => {
                                    assert(edge(b, l));
                                },
                                NextBlock::Rp() => {},
                            }
                        }
                        lemma_relabel_leaves(e, vis, n);
                    },
                    _ => {},
                }
            }
            assert forall|j: int| 0 <= j < kept.len() implies (#[trigger] kept[j]).name == j
                && terminator_resolved(kept[j].terminator, total) by {
                if j < rest.len() {
                    assert(kept[j] == rest[j]);
                } else {
                    assert(kept[j] == nb);
                }
            }
        }
    }
}

/// Takes the dead blocks out of the program.
pub fn optimize_block(bls: Vec<Block>, entry_bl: usize) -> (r: Result<(Vec<Block>, usize), Error>)
    ensures
        match r {
            Ok((new_bls, new_entry)) => {
                &&& yields(dbe_spec(blocks_view(bls@), entry_bl), (blocks_view(new_bls@), new_entry))
                &&& program_ok(blocks_view(new_bls@))
                &&& new_entry < new_bls.len()
                &&& entry_bl == 0 ==> new_entry == 0
            },
            Err(e) => fails(dbe_spec(blocks_view(bls@), entry_bl), e),
        },
{
    dead_block_elimination(bls, entry_bl)
}

} // verus!
