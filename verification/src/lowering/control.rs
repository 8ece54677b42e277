//! Where control goes in lowered code: what a condition, a loop, a `switch` or a postfix `?` of the source becomes.
//!
//! Each law speaks of the blocks of a function as they are in the end, whatever is lowered behind the part that it is
//! about; and the blocks of each function of a lowered program are those that its body was lowered to.

use crate::analysis::{
    AlternativeView, Analysis, FunctionSignature, ParameterSignature, TypeId as SourceType, TypeState,
    UnionAlternative, payload_of,
};
use crate::ast::{
    BinaryOperator as SourceOperator, ConditionalExpressionBranch, ConditionalStatementBranch, Expression,
    ExpressionBody, ExpressionKind, Statement, StatementBody, StatementKind, SwitchArm,
};
use crate::ir::{
    AlternativeId, BlockId, FailureOperation, FailureSiteId, LocalId, LocalOrigin, OperandView, Program, TypeId,
};
use crate::lowering::{LoweringError, lowered};
use crate::lowering::assembly::{
    ProgramView, Table, assembled, bodies_from, body_context, body_rule, completed, component, definitions_from,
    filled_function, fresh, no_types, parameters_from, program_view, shell, shells_from, start_rule, types_from,
    with_nominals,
};
use crate::lowering::frame::{
    alive, at, beside, circuit_laid, clear, ends_in, ends_with, fits, flat, flat_arm_narrowed, flat_cleaned,
    flat_completed, flat_inject, flat_succeeded, for_laid, forked, go_arm, go_arms, go_attempts, go_block,
    go_branches, go_choice, go_choices, go_condition, go_else, go_expression, go_expression_body, go_operand,
    go_rest, go_result, go_statement, go_statement_body, go_statements, go_while, goes, goes_errored,
    lemma_alike, lemma_branched, lemma_dispatched, lemma_emit, lemma_finish, lemma_flat_goes, lemma_for,
    lemma_fork_done, lemma_joined, lemma_leaves, lemma_merged, lemma_open, lemma_open_blocks, lemma_parked,
    lemma_pushed, lemma_short_circuit, lemma_steps, lemma_way, longer, parked, unfinished, waiting, while_laid,
};
use crate::lowering::model::{
    BlockView, Context, FunctionView, LoopView, Narrowing, OperationView, State, TerminatorView, block_views,
    declare, emit, entered, fail, finish, function_view, left, mapped, open_block, temporary, value_of, whole,
};
use crate::lowering::rules::{
    alternative_id, alternatives_of, arm_block, arm_from, arm_narrowed, attempted, attempted_from, bind,
    cleaned, errored, exits_from, inject, merged, only, open_blocks, raw_type, restored, succeeded,
    successes_count, targets_from, text_at, try_type, with_path,
};
use crate::lowering::translation::{
    Iteration, always, arm_rule, arms_from, block_rule, branched, branches_from, choice_rule, choices_from,
    condition_rule, control_rule, dispatched, else_rule, expression_body_rule, expression_rule, for_rule,
    if_expression_rule, if_rule, loop_before, operand_rule, rest_rule, result_rule, short_circuit_rule,
    statement_body_rule, statement_rule, statements_from, stripped, switch_rule, while_rule,
};
use crate::semantic::{SemanticResult, SwitchResolution, TryAction, TryResolution};
use crate::source::Span;
use vstd::prelude::*;

verus! {

/// Whether blocks are what those of a state have become: nothing is lost, and a block that had an end is as it was.
pub open spec fn stays(s: State, blocks: Seq<BlockView>) -> bool {
    &&& s.blocks.len() <= blocks.len()
    &&& forall|b: int|
        0 <= b < s.blocks.len() ==> longer(s.blocks[b].operations, (#[trigger] blocks[b]).operations) && (
        s.blocks[b].terminator is Some ==> blocks[b] == s.blocks[b])
}

/// Whether the code of a state that has come to its end goes on where control then is.
pub open spec fn joins(end: State, after: State, blocks: Seq<BlockView>) -> bool {
    end.block matches Some(last) ==> after.block is Some && ends_with(
        blocks,
        last,
        TerminatorView::Jump(after.block->0),
    )
}

pub proof fn lemma_stays(s: State, after: State, blocks: Seq<BlockView>)
    requires
        goes(s, after),
        alive(s),
        fits(after),
        stays(after, blocks),
    ensures
        stays(s, blocks),
        alive(after),
        s.blocks.len() <= after.blocks.len(),
{
    reveal(goes);
    assert forall|b: int| 0 <= b < s.blocks.len() implies longer(
        s.blocks[b].operations,
        (#[trigger] blocks[b]).operations,
    ) && (s.blocks[b].terminator is Some ==> blocks[b] == s.blocks[b]) by {
        assert(longer(s.blocks[b].operations, after.blocks[b].operations));
        assert(longer(after.blocks[b].operations, blocks[b].operations));
    }
}

pub proof fn lemma_merged_stays(base: State, s: State, paths: Seq<(BlockId, Span)>, blocks: Seq<BlockView>)
    requires
        goes(base, s),
        alive(base),
        parked(base, s, paths),
        fits(merged(s, paths).0),
        stays(merged(s, paths).0, blocks),
        s.blocks.len() <= merged(s, paths).0.blocks.len(),
    ensures
        stays(s, blocks),
        forall|i: int|
            0 <= i < paths.len() ==> merged(s, paths).0.block is Some && ends_with(
                blocks,
                (#[trigger] paths[i]).0,
                TerminatorView::Jump(merged(s, paths).0.block->0),
            ),
{
    lemma_merged(base, s, paths);
    let after = merged(s, paths).0;
    assert forall|b: int| 0 <= b < s.blocks.len() implies longer(
        s.blocks[b].operations,
        (#[trigger] blocks[b]).operations,
    ) && (s.blocks[b].terminator is Some ==> blocks[b] == s.blocks[b]) by {
        assert(after.blocks[b].operations == s.blocks[b].operations);
        assert(longer(after.blocks[b].operations, blocks[b].operations));
        if s.blocks[b].terminator is Some {
            if ends_in(paths, 0, b) {
                let i = choose|i: int| 0 <= i < paths.len() && (#[trigger] paths[i]).0.0 == b;
                assert(unfinished(s, paths[i].0));
            }
            assert(after.blocks[b] == s.blocks[b]);
        }
    }
    assert forall|i: int| 0 <= i < paths.len() implies after.block is Some && ends_with(
        blocks,
        (#[trigger] paths[i]).0,
        TerminatorView::Jump(after.block->0),
    ) by {
        assert(ends_with(after.blocks, paths[i].0, TerminatorView::Jump(after.block->0)));
        assert(blocks[paths[i].0.0 as int] == after.blocks[paths[i].0.0 as int]);
    }
}

/// What a statement has become stays in the code: no later part of the function changes a block that control has left.
pub proof fn law_lowered_statements_stay(c: Context, s: State, statement: &Statement, blocks: Seq<BlockView>)
    requires
        alive(s),
        blocks.len() <= usize::MAX,
        statement_rule(c, s, statement) matches Ok((after, _)) && stays(after, blocks),
    ensures
        stays(s, blocks),
        statement_rule(c, s, statement) matches Ok((after, _)) && alive(after) && after.loops == s.loops,
{
    go_statement(c, s, statement);
    let after = statement_rule(c, s, statement)->Ok_0.0;
    lemma_stays(s, after, blocks);
    reveal(goes);
}

/// What an expression has become stays in the code.
pub proof fn law_lowered_expressions_stay(c: Context, s: State, e: &Expression, blocks: Seq<BlockView>)
    requires
        alive(s),
        blocks.len() <= usize::MAX,
        expression_rule(c, s, e) matches Ok((after, _)) && stays(after, blocks),
    ensures
        stays(s, blocks),
        expression_rule(c, s, e) matches Ok((after, value)) && alive(after) && after.loops == s.loops && value is Some
            == after.block is Some,
{
    go_expression(c, s, e);
    let after = expression_rule(c, s, e)->Ok_0.0;
    lemma_stays(s, after, blocks);
    reveal(goes);
}

/// One branch of a conditional: its condition is lowered from `start` to `tested`, its body from `body` to `end`.
pub struct Limb {
    pub start: State,
    pub tested: State,
    pub condition: OperandView,
    pub body: State,
    pub end: State,
}

/// Whether the code of a branch decides as its condition says: where the condition has come to its value, control goes
/// to the body if it holds, and else to `other`, and the body is all that comes of the one and nothing of the other.
#[verifier::opaque]
pub open spec fn limb_laid(
    c: Context,
    condition: &Expression,
    limb: Limb,
    other: Option<BlockId>,
    blocks: Seq<BlockView>,
) -> bool {
    &&& expression_rule(c, limb.start, condition) == Ok::<(State, Option<OperandView>), &'static str>(
        (limb.tested, Some(limb.condition)),
    )
    &&& limb.tested.block is Some
    &&& limb.body.block is Some
    &&& other is Some
    &&& limb.body.block != other
    &&& (limb.body.block->0).0 >= limb.tested.blocks.len()
    &&& (other->0).0 >= limb.tested.blocks.len()
    &&& ends_with(
        blocks,
        limb.tested.block->0,
        TerminatorView::Branch {
            condition: limb.condition,
            then_block: limb.body.block->0,
            else_block: other->0,
        },
    )
    &&& alive(limb.start)
    &&& alive(limb.tested)
    &&& alive(limb.body)
    &&& alive(limb.end)
    &&& stays(limb.tested, blocks)
    &&& stays(limb.body, blocks)
    &&& stays(limb.end, blocks)
}

/// Whether the body of a branch is what is lowered between its last two states.
#[verifier::opaque]
pub open spec fn bodied(c: Context, limb: Limb, body: &StatementBody) -> bool {
    statement_body_rule(c, limb.body, body) == Ok::<(State, ()), &'static str>((limb.end, ()))
}

/// Whether a condition never comes to a value.
#[verifier::opaque]
pub open spec fn stuck(c: Context, s: State, condition: &Expression, after: State) -> bool {
    &&& expression_rule(c, s, condition) == Ok::<(State, Option<OperandView>), &'static str>((after, None))
    &&& after.block is None
}

/// Where control goes from a branch whose condition does not hold: to the next one, or to the rest.
pub open spec fn behind_limb(limbs: Seq<Limb>, rest: State, index: int) -> Option<BlockId> {
    if index + 1 < limbs.len() {
        limbs[index + 1].start.block
    } else {
        rest.block
    }
}

/// Where control is first in branches: in the condition of the first, or in the rest if there is none.
pub open spec fn before_limbs(limbs: Seq<Limb>, rest: State) -> Option<BlockId> {
    behind_limb(limbs, rest, -1)
}

/// Whether a path ends where a state is, if it is anywhere.
pub open spec fn among(end: State, paths: Seq<(BlockId, Span)>) -> bool {
    end.block matches Some(last) ==> exists|i: int| 0 <= i < paths.len() && (#[trigger] paths[i]).0 == last
}

pub proof fn lemma_among(end: State, paths: Seq<(BlockId, Span)>, more: Seq<(BlockId, Span)>)
    requires
        among(end, paths),
        longer(paths, more),
    ensures
        among(end, more),
{
    if let Some(last) = end.block {
        let i = choose|i: int| 0 <= i < paths.len() && (#[trigger] paths[i]).0 == last;
        assert(more[i].0 == last);
    }
}

pub proof fn lemma_with_path(paths: Seq<(BlockId, Span)>, s: State, span: Span)
    ensures
        longer(paths, with_path(paths, s, span)),
        among(s, with_path(paths, s, span)),
{
    if let Some(block) = s.block {
        assert(with_path(paths, s, span)[paths.len() as int].0 == block);
    }
}

pub proof fn lemma_joins(end: State, after: State, paths: Seq<(BlockId, Span)>, blocks: Seq<BlockView>)
    requires
        among(end, paths),
        forall|i: int|
            0 <= i < paths.len() ==> after.block is Some && ends_with(
                blocks,
                (#[trigger] paths[i]).0,
                TerminatorView::Jump(after.block->0),
            ),
    ensures
        joins(end, after, blocks),
{
}

/// Whether branches of an `if` statement from one on are laid out, and the paths that fall out of them are listed.
pub open spec fn limbs_laid(
    c: Context,
    branches: Seq<ConditionalStatementBranch>,
    from: int,
    limbs: Seq<Limb>,
    rest: State,
    blocks: Seq<BlockView>,
) -> bool {
    forall|k: int|
        0 <= k < limbs.len() ==> limb_laid(
            c,
            &branches[from + k].condition,
            #[trigger] limbs[k],
            behind_limb(limbs, rest, k),
            blocks,
        ) && bodied(c, limbs[k], &branches[from + k].body)
}

proof fn lemma_stuck(c: Context, s: State, branch: &ConditionalStatementBranch)
    ensures
        condition_rule(c, s, branch) matches Ok((after, None)) ==> stuck(c, s, &branch.condition, after),
{
    reveal(stuck);
    go_expression(c, s, &branch.condition);
}

#[verifier::rlimit(40)]
proof fn lemma_branch(
    c: Context,
    s: State,
    branch: &ConditionalStatementBranch,
    end: State,
    other: BlockId,
    blocks: Seq<BlockView>,
) -> (limb: Limb)
    requires
        alive(s),
        condition_rule(c, s, branch) == Ok::<(State, Option<BlockId>), &'static str>((end, Some(other))),
        alive(end),
        fits(end),
        stays(end, blocks),
    ensures
        limb.start == s,
        limb.end == end,
        limb_laid(c, &branch.condition, limb, Some(other), blocks),
        bodied(c, limb, &branch.body),
{
    go_expression(c, s, &branch.condition);
    let (tested, value) = expression_rule(c, s, &branch.condition)->Ok_0;
    let condition = value->0;
    let decision = tested.block->0;
    let inside = stripped(&branch.condition);
    lemma_branched(c, tested, decision, condition, inside, branch.condition.span, branch.body.span);
    let (body, found) = branched(
        c,
        tested,
        decision,
        condition,
        inside,
        branch.condition.span,
        branch.body.span,
    )->Ok_0;
    go_statement_body(c, body, &branch.body);
    let limb = Limb { start: s, tested, condition, body, end };
    reveal(bodied);
    lemma_limb(c, &branch.condition, limb, other, blocks);
    limb
}

#[verifier::rlimit(40)]
proof fn lemma_limbs(
    c: Context,
    base: State,
    s: State,
    branches: Seq<ConditionalStatementBranch>,
    from: int,
    paths: Seq<(BlockId, Span)>,
    blocks: Seq<BlockView>,
) -> (laid: (Seq<Limb>, State))
    requires
        0 <= from <= branches.len(),
        goes(base, s),
        alive(base),
        alive(s),
        blocks.len() <= usize::MAX,
        parked(base, s, paths),
        beside(s, paths),
        branches_from(c, s, branches, from, paths) matches Ok((after, _)) && stays(after, blocks),
    ensures
        ({
            let (after, (ends, through)) = branches_from(c, s, branches, from, paths)->Ok_0;
            &&& laid.0.len() <= branches.len() - from
            &&& limbs_laid(c, branches, from, laid.0, laid.1, blocks)
            &&& before_limbs(laid.0, laid.1) == s.block
            &&& longer(paths, ends)
            &&& forall|k: int| 0 <= k < laid.0.len() ==> among((#[trigger] laid.0[k]).end, ends)
            &&& through ==> laid.0.len() == branches.len() - from && laid.1 == after
            &&& !through ==> laid.0.len() < branches.len() - from && stuck(
                c,
                laid.1,
                &branches[from + laid.0.len()].condition,
                after,
            )
        }),
    decreases branches.len() - from,
{
    let mut laid: (Seq<Limb>, State) = (seq![], s);
    if from < branches.len() {
        let branch = &branches[from];
        let (after, (ends, through)) = branches_from(c, s, branches, from, paths)->Ok_0;
        go_condition(c, s, branch);
        let (end, found) = condition_rule(c, s, branch)->Ok_0;
        match found {
            None => lemma_stuck(c, s, branch),
            Some(other) => {
                let more = with_path(paths, end, branch.body.span);
                let next = entered(restored(end, s.narrowings), other);
                assert(branches_from(c, s, branches, from, paths) == branches_from(c, next, branches, from + 1, more));
                lemma_alike(entered(end, other), next);
                lemma_flat_goes(entered(end, other), next);
                lemma_through(s, entered(end, other), next);
                lemma_next(base, s, end, other, next, paths, branch.body.span, after, blocks);
                go_branches(c, base, next, branches, from + 1, more);
                lemma_next(base, s, end, other, next, paths, branch.body.span, after, blocks);
                let inner = lemma_limbs(c, base, next, branches, from + 1, more, blocks);
                let limb = lemma_branch(c, s, branch, end, other, blocks);
                lemma_with_path(paths, end, branch.body.span);
                lemma_among(end, more, ends);
                let limbs = seq![limb] + inner.0;
                assert forall|k: int| 0 <= k < limbs.len() implies among((#[trigger] limbs[k]).end, ends) by {
                    if k > 0 {
                        assert(limbs[k] == inner.0[k - 1]);
                    }
                }
                assert forall|k: int| 0 <= k < limbs.len() implies limb_laid(
                    c,
                    &branches[from + k].condition,
                    #[trigger] limbs[k],
                    behind_limb(limbs, inner.1, k),
                    blocks,
                ) && bodied(c, limbs[k], &branches[from + k].body) by {
                    if k == 0 {
                        assert(behind_limb(limbs, inner.1, 0) == before_limbs(inner.0, inner.1));
                    } else {
                        assert(limbs[k] == inner.0[k - 1]);
                        assert(behind_limb(limbs, inner.1, k) == behind_limb(inner.0, inner.1, k - 1));
                        assert(branches[from + k] == branches[from + 1 + (k - 1)]);
                    }
                }
                laid = (limbs, inner.1);
            },
        }
    }
    laid
}

proof fn lemma_through(a: State, b: State, c: State)
    requires
        goes(a, b),
        goes(b, c),
    ensures
        goes(a, c),
{
    lemma_steps();
}

/// What holds of a state from which the following branch is lowered.
proof fn lemma_next(
    base: State,
    s: State,
    end: State,
    other: BlockId,
    next: State,
    paths: Seq<(BlockId, Span)>,
    span: Span,
    after: State,
    blocks: Seq<BlockView>,
)
    requires
        goes(base, s),
        alive(base),
        alive(s),
        blocks.len() <= usize::MAX,
        parked(base, s, paths),
        beside(s, paths),
        goes(s, end),
        goes(s, next),
        next.blocks == end.blocks,
        next.block == Some(other),
        stays(after, blocks),
        fits(end) && alive(s) ==> other.0 >= s.blocks.len() && !at(end.block, other.0 as int),
        fits(after),
    ensures
        goes(base, next),
        fits(next) ==> alive(next) && alive(end),
        fits(next) ==> parked(base, next, with_path(paths, end, span)) && beside(next, with_path(paths, end, span)),
        goes(next, after) ==> stays(end, blocks) && fits(end),
{
    lemma_steps();
    if fits(next) {
        assert(alive(next) && alive(end)) by {
            reveal(goes);
        }
        lemma_parked(base, s, end, paths);
        lemma_pushed(base, end, paths, span);
        let more = with_path(paths, end, span);
        assert forall|i: int| 0 <= i < more.len() implies !at(next.block, (#[trigger] more[i]).0.0 as int) by {
            if i < paths.len() {
                assert(more[i] == paths[i]);
                assert(unfinished(s, paths[i].0));
            }
        }
    }
    if goes(next, after) {
        assert(next.blocks.len() <= after.blocks.len()) by {
            reveal(goes);
        }
        lemma_stays(next, after, blocks);
    }
}

/// A branch whose parts are known is laid out.
proof fn lemma_limb(c: Context, condition: &Expression, limb: Limb, other: BlockId, blocks: Seq<BlockView>)
    requires
        alive(limb.start),
        alive(limb.end),
        fits(limb.end),
        goes(limb.start, limb.tested),
        limb.tested.block is Some,
        expression_rule(c, limb.start, condition) == Ok::<(State, Option<OperandView>), &'static str>(
            (limb.tested, Some(limb.condition)),
        ),
        limb.body.blocks.len() == limb.tested.blocks.len() + 2,
        fits(limb.body) && unfinished(limb.tested, limb.tested.block->0) ==> forked(
            limb.tested,
            limb.body,
            limb.tested.block->0,
            limb.condition,
            other,
        ),
        goes(limb.body, limb.end),
        stays(limb.end, blocks),
    ensures
        limb_laid(c, condition, limb, Some(other), blocks),
{
    reveal(limb_laid);
    let Limb { start: s, tested, condition: value, body, end } = limb;
    lemma_fork_done(s, tested, value, body, other, end);
    assert(body.blocks.len() <= end.blocks.len()) by {
        reveal(goes);
    }
    assert(alive(tested)) by {
        reveal(goes);
    }
    lemma_stays(body, end, blocks);
    let d = tested.block->0;
    assert(blocks[d.0 as int] == end.blocks[d.0 as int]);
    assert forall|b: int| 0 <= b < tested.blocks.len() implies longer(
        tested.blocks[b].operations,
        (#[trigger] blocks[b]).operations,
    ) && (tested.blocks[b].terminator is Some ==> blocks[b] == tested.blocks[b]) by {
        assert(longer(body.blocks[b].operations, blocks[b].operations));
        if b != d.0 {
            assert(body.blocks[b] == tested.blocks[b]);
        }
    }
}

/// An `if` statement in the code that it becomes. The condition of each branch decides between the body of the branch
/// and what follows: the next branch, then the `else`, or what stands behind the statement. Every body that control
/// gets to the end of goes on behind the statement. Where a condition never comes to a value, nothing follows it.
#[verifier::rlimit(60)]
pub proof fn law_if_statements_decide(c: Context, s: State, statement: &Statement, blocks: Seq<BlockView>) -> (laid: (
    Seq<Limb>,
    State,
))
    requires
        alive(s),
        blocks.len() <= usize::MAX,
        statement.kind is If,
        if_rule(c, s, statement) matches Ok((after, _)) && stays(after, blocks),
    ensures
        statement.kind matches StatementKind::If { branches, else_body } && (if_rule(c, s, statement) matches Ok(
            (after, _),
        ) && {
            let (limbs, rest) = laid;
            &&& before_limbs(limbs, rest) == s.block
            &&& limbs.len() <= branches@.len()
            &&& limbs_laid(c, branches@, 0, limbs, rest, blocks)
            &&& forall|k: int| 0 <= k < limbs.len() ==> joins((#[trigger] limbs[k]).end, after, blocks)
            &&& if limbs.len() == branches@.len() {
                else_rule(c, rest, &else_body) matches Ok((last, _)) && joins(last, after, blocks) && stays(
                    last,
                    blocks,
                )
            } else {
                exists|last: State| stuck(c, rest, &branches@[limbs.len() as int].condition, last)
            }
        }),
{
    let mut laid: (Seq<Limb>, State) = (seq![], s);
    if let StatementKind::If { branches, else_body: other } = &statement.kind {
        let (after, _) = if_rule(c, s, statement)->Ok_0;
        lemma_steps();
        go_branches(c, s, s, branches@, 0, seq![]);
        let (s1, (paths, through)) = branches_from(c, s, branches@, 0, seq![])->Ok_0;
        let span = match other {
            Some(body) => body.span,
            None => statement.span,
        };
        let (s2, more) = if through {
            let s2 = else_rule(c, s1, other)->Ok_0.0;
            (s2, with_path(paths, s2, span))
        } else {
            (s1, paths)
        };
        go_else(c, s1, other);
        let s3 = merged(s2, more).0;
        assert(after == restored(s3, s.narrowings));
        assert(s1.blocks.len() <= s2.blocks.len()) by {
            reveal(goes);
        }
        assert(s2.blocks.len() <= s3.blocks.len()) by {
            reveal(merged);
            lemma_open(s2);
            lemma_joined(open_block(s2).0, more, open_block(s2).1, 0);
        }
        lemma_parked(s, s1, s2, paths);
        if through {
            lemma_pushed(s, s2, paths, span);
            lemma_with_path(paths, s2, span);
        }
        lemma_merged(s, s2, more);
        lemma_merged_stays(s, s2, more, blocks);
        assert(after.block == s3.block);
        assert forall|i: int| 0 <= i < more.len() implies after.block is Some && ends_with(
            blocks,
            (#[trigger] more[i]).0,
            TerminatorView::Jump(after.block->0),
        ) by {
            assert(ends_with(blocks, more[i].0, TerminatorView::Jump(s3.block->0)));
        }
        assert(alive(s1)) by {
            reveal(goes);
        }
        lemma_stays(s1, s2, blocks);
        laid = lemma_limbs(c, s, s, branches@, 0, seq![], blocks);
        let limbs = laid.0;
        assert forall|k: int| 0 <= k < limbs.len() implies joins((#[trigger] limbs[k]).end, after, blocks) by {
            lemma_among(limbs[k].end, paths, more);
            lemma_joins(limbs[k].end, after, more, blocks);
        }
        if through {
            lemma_joins(s2, after, more, blocks);
        }
    }
    laid
}

/// Whether branches of an `if` expression from one on are laid out: each body puts its value into the local of the
/// result.
pub open spec fn choices_laid(
    c: Context,
    branches: Seq<ConditionalExpressionBranch>,
    result: LocalId,
    from: int,
    limbs: Seq<Limb>,
    rest: State,
    blocks: Seq<BlockView>,
) -> bool {
    forall|k: int|
        0 <= k < limbs.len() ==> limb_laid(
            c,
            &branches[from + k].condition,
            #[trigger] limbs[k],
            behind_limb(limbs, rest, k),
            blocks,
        ) && yields(c, limbs[k].body, &branches[from + k].body, result, limbs[k].end)
}

/// Whether a body is lowered between two states, and its value, if control gets to it, is put into a local last.
#[verifier::opaque]
pub open spec fn yields(c: Context, start: State, body: &ExpressionBody, result: LocalId, end: State) -> bool {
    expression_body_rule(c, start, body) matches Ok((valued, value)) && match value {
        Some(value) => {
            &&& valued.block is Some
            &&& end.block == valued.block
            &&& emit(valued, OperationView::Assign { destination: whole(result), value }, body.span) == Ok::<
                (State, ()),
                &'static str,
            >((end, ()))
        },
        None => end == valued && end.block is None,
    }
}

proof fn lemma_yields(c: Context, s: State, body: &ExpressionBody, result: LocalId)
    ensures
        result_rule(c, s, body, result) matches Ok((end, _)) ==> yields(c, s, body, result, end),
{
    go_expression_body(c, s, body);
    match expression_body_rule(c, s, body) {
        Ok((valued, Some(value))) => {
            let last = OperationView::Assign { destination: whole(result), value };
            lemma_emit(valued, last, body.span);
            if let Ok((end, unit)) = emit(valued, last, body.span) {
                assert(end.block == valued.block) by {
                    reveal(flat);
                }
                assert(result_rule(c, s, body, result) == Ok::<(State, bool), &'static str>((end, true)));
                assert(unit == ());
                assert(yields(c, s, body, result, end)) by {
                    reveal(yields);
                }
            } else {
                assert(result_rule(c, s, body, result) is Err);
            }
        },
        Ok((valued, None)) => {
            assert(result_rule(c, s, body, result) == Ok::<(State, bool), &'static str>((valued, false)));
            assert(yields(c, s, body, result, valued)) by {
                reveal(yields);
            }
        },
        Err(_) => {},
    }
}

proof fn lemma_stuck_choice(c: Context, s: State, branch: &ConditionalExpressionBranch, result: LocalId)
    ensures
        choice_rule(c, s, branch, result) matches Ok((after, None)) ==> stuck(c, s, &branch.condition, after),
{
    reveal(stuck);
    go_expression(c, s, &branch.condition);
}

#[verifier::rlimit(40)]
proof fn lemma_choice(
    c: Context,
    s: State,
    branch: &ConditionalExpressionBranch,
    result: LocalId,
    end: State,
    other: BlockId,
    valued: bool,
    blocks: Seq<BlockView>,
) -> (limb: Limb)
    requires
        alive(s),
        choice_rule(c, s, branch, result) == Ok::<(State, Option<(BlockId, bool)>), &'static str>(
            (end, Some((other, valued))),
        ),
        alive(end),
        fits(end),
        stays(end, blocks),
    ensures
        limb.start == s,
        limb.end == end,
        limb_laid(c, &branch.condition, limb, Some(other), blocks),
        yields(c, limb.body, &branch.body, result, end),
{
    go_expression(c, s, &branch.condition);
    let (tested, value) = expression_rule(c, s, &branch.condition)->Ok_0;
    let condition = value->0;
    let decision = tested.block->0;
    let inside = stripped(&branch.condition);
    lemma_branched(c, tested, decision, condition, inside, branch.condition.span, branch.body.span);
    let (body, found) = branched(
        c,
        tested,
        decision,
        condition,
        inside,
        branch.condition.span,
        branch.body.span,
    )->Ok_0;
    go_result(c, body, &branch.body, result);
    lemma_yields(c, body, &branch.body, result);
    let limb = Limb { start: s, tested, condition, body, end };
    lemma_limb(c, &branch.condition, limb, other, blocks);
    limb
}

#[verifier::rlimit(40)]
proof fn lemma_choices(
    c: Context,
    base: State,
    s: State,
    branches: Seq<ConditionalExpressionBranch>,
    result: LocalId,
    from: int,
    paths: Seq<(BlockId, Span)>,
    blocks: Seq<BlockView>,
) -> (laid: (Seq<Limb>, State))
    requires
        0 <= from <= branches.len(),
        goes(base, s),
        alive(base),
        alive(s),
        blocks.len() <= usize::MAX,
        parked(base, s, paths),
        beside(s, paths),
        choices_from(c, s, branches, result, from, paths) matches Ok((after, _)) && stays(after, blocks),
    ensures
        ({
            let (after, (ends, through)) = choices_from(c, s, branches, result, from, paths)->Ok_0;
            &&& laid.0.len() <= branches.len() - from
            &&& choices_laid(c, branches, result, from, laid.0, laid.1, blocks)
            &&& before_limbs(laid.0, laid.1) == s.block
            &&& longer(paths, ends)
            &&& forall|k: int| 0 <= k < laid.0.len() ==> among((#[trigger] laid.0[k]).end, ends)
            &&& through ==> laid.0.len() == branches.len() - from && laid.1 == after
            &&& !through ==> laid.0.len() < branches.len() - from && stuck(
                c,
                laid.1,
                &branches[from + laid.0.len()].condition,
                after,
            )
        }),
    decreases branches.len() - from,
{
    let mut laid: (Seq<Limb>, State) = (seq![], s);
    if from < branches.len() {
        let branch = &branches[from];
        let (after, (ends, through)) = choices_from(c, s, branches, result, from, paths)->Ok_0;
        go_choice(c, s, branch, result);
        let (end, found) = choice_rule(c, s, branch, result)->Ok_0;
        match found {
            None => lemma_stuck_choice(c, s, branch, result),
            Some((other, valued)) => {
                let more = with_path(paths, end, branch.body.span);
                let next = entered(restored(end, s.narrowings), other);
                assert(choices_from(c, s, branches, result, from, paths) == choices_from(
                    c,
                    next,
                    branches,
                    result,
                    from + 1,
                    more,
                ));
                lemma_alike(entered(end, other), next);
                lemma_flat_goes(entered(end, other), next);
                lemma_through(s, entered(end, other), next);
                lemma_next(base, s, end, other, next, paths, branch.body.span, after, blocks);
                go_choices(c, base, next, branches, result, from + 1, more);
                lemma_next(base, s, end, other, next, paths, branch.body.span, after, blocks);
                let inner = lemma_choices(c, base, next, branches, result, from + 1, more, blocks);
                let limb = lemma_choice(c, s, branch, result, end, other, valued, blocks);
                lemma_with_path(paths, end, branch.body.span);
                lemma_among(end, more, ends);
                let limbs = seq![limb] + inner.0;
                assert forall|k: int| 0 <= k < limbs.len() implies among((#[trigger] limbs[k]).end, ends) by {
                    if k > 0 {
                        assert(limbs[k] == inner.0[k - 1]);
                    }
                }
                assert forall|k: int| 0 <= k < limbs.len() implies limb_laid(
                    c,
                    &branches[from + k].condition,
                    #[trigger] limbs[k],
                    behind_limb(limbs, inner.1, k),
                    blocks,
                ) && yields(c, limbs[k].body, &branches[from + k].body, result, limbs[k].end) by {
                    if k == 0 {
                        assert(behind_limb(limbs, inner.1, 0) == before_limbs(inner.0, inner.1));
                    } else {
                        assert(limbs[k] == inner.0[k - 1]);
                        assert(behind_limb(limbs, inner.1, k) == behind_limb(inner.0, inner.1, k - 1));
                        assert(branches[from + k] == branches[from + 1 + (k - 1)]);
                    }
                }
                laid = (limbs, inner.1);
            },
        }
    }
    laid
}

/// An `if` expression in the code that it becomes: it decides as an `if` statement does, and every branch that comes to
/// a value leaves it in the local that is the value of the whole.
#[verifier::rlimit(60)]
pub proof fn law_if_expressions_decide(c: Context, s: State, e: &Expression, blocks: Seq<BlockView>) -> (laid: (
    Seq<Limb>,
    State,
    LocalId,
    State,
))
    requires
        alive(s),
        blocks.len() <= usize::MAX,
        e.kind is If,
        if_expression_rule(c, s, e) matches Ok((after, _)) && stays(after, blocks),
    ensures
        e.kind matches ExpressionKind::If { branches, else_branch } && (if_expression_rule(c, s, e) matches Ok(
            (after, value),
        ) && {
            let (limbs, rest, result, last) = laid;
            &&& before_limbs(limbs, rest) == s.block
            &&& limbs.len() <= branches@.len()
            &&& choices_laid(c, branches@, result, 0, limbs, rest, blocks)
            &&& forall|k: int| 0 <= k < limbs.len() ==> joins((#[trigger] limbs[k]).end, after, blocks)
            &&& value == if after.block is Some {
                Some(value_of(result))
            } else {
                None
            }
            &&& if limbs.len() == branches@.len() {
                yields(c, rest, &else_branch, result, last) && joins(last, after, blocks) && stays(last, blocks)
            } else {
                exists|last: State| stuck(c, rest, &branches@[limbs.len() as int].condition, last)
            }
        }),
{
    let mut laid: (Seq<Limb>, State, LocalId, State) = (seq![], s, arbitrary(), s);
    if let ExpressionKind::If { branches, else_branch: other } = &e.kind {
        let (after, value) = if_expression_rule(c, s, e)->Ok_0;
        let ty = raw_type(c, e.span)->Ok_0;
        let (s0, result) = temporary(c, s, ty)->Ok_0;
        lemma_steps();
        lemma_leaves(c);
        assert(flat(s, s0));
        assert(s0.block == s.block && alive(s0)) by {
            reveal(flat);
        }
        go_choices(c, s, s0, branches@, result, 0, seq![]);
        let (s1, (paths, through)) = choices_from(c, s0, branches@, result, 0, seq![])->Ok_0;
        let (s2, more) = if through {
            let s2 = result_rule(c, s1, other, result)->Ok_0.0;
            (s2, with_path(paths, s2, other.span))
        } else {
            (s1, paths)
        };
        go_result(c, s1, other, result);
        lemma_yields(c, s1, other, result);
        let s3 = merged(s2, more).0;
        assert(s1.blocks.len() <= s2.blocks.len()) by {
            reveal(goes);
        }
        assert(s2.blocks.len() <= s3.blocks.len()) by {
            reveal(merged);
            lemma_open(s2);
            lemma_joined(open_block(s2).0, more, open_block(s2).1, 0);
        }
        assert(after == restored(s3, s.narrowings));
        lemma_parked(s, s1, s2, paths);
        if through {
            lemma_pushed(s, s2, paths, other.span);
            lemma_with_path(paths, s2, other.span);
        }
        lemma_merged(s, s2, more);
        lemma_merged_stays(s, s2, more, blocks);
        assert(alive(s1)) by {
            reveal(goes);
        }
        lemma_stays(s1, s2, blocks);
        let inner = lemma_choices(c, s, s0, branches@, result, 0, seq![], blocks);
        let limbs = inner.0;
        assert forall|k: int| 0 <= k < limbs.len() implies joins((#[trigger] limbs[k]).end, after, blocks) by {
            lemma_among(limbs[k].end, paths, more);
            lemma_joins(limbs[k].end, after, more, blocks);
        }
        if through {
            lemma_joins(s2, after, more, blocks);
        }
        laid = (limbs, inner.1, result, s2);
    }
    laid
}

/// `and` and `or` in the code that they become. The left side decides between the right side, which is lowered between
/// the two states, and what follows: an `and` goes to the right side if the left one holds, an `or` if it does not. The
/// value is that of the right side where control got there, and else that of the left one.
pub proof fn law_right_sides_wait_for_left_ones(c: Context, s: State, e: &Expression, blocks: Seq<BlockView>) -> (laid: (
    State,
    State,
))
    requires
        alive(s),
        blocks.len() <= usize::MAX,
        e.kind matches ExpressionKind::Binary { left, .. } && (operand_rule(c, s, &left) matches Ok((_, Some(_)))),
        short_circuit_rule(c, s, e) matches Ok((after, _)) && stays(after, blocks),
    ensures
        e.kind matches ExpressionKind::Binary { left, operator, right, .. } && (operand_rule(c, s, &left) matches Ok(
            (tested, Some(condition)),
        ) && (short_circuit_rule(c, s, e) matches Ok((after, Some(OperandView::Copy(place)))) && {
            let (start, end) = laid;
            let both = operator == SourceOperator::LogicalAnd;
            &&& place == whole(place.local)
            &&& expression_rule(c, start, &right) matches Ok((last, value))
            &&& last == end
            &&& circuit_laid(both, tested, condition, place.local, start, end, value, after)
            &&& ends_with(
                blocks,
                tested.block->0,
                if both {
                    TerminatorView::Branch { condition, then_block: start.block->0, else_block: after.block->0 }
                } else {
                    TerminatorView::Branch { condition, then_block: after.block->0, else_block: start.block->0 }
                },
            )
            &&& joins(end, after, blocks)
        })),
{
    let laid = lemma_short_circuit(c, s, e);
    if let ExpressionKind::Binary { left, operator, right, .. } = &e.kind {
        go_operand(c, s, left);
        go_expression(c, laid.0, right);
    }
    laid
}

/// A `while` loop in the code that it becomes. Control goes to the condition, and from there to the body if it holds and
/// behind the loop if it does not; from the end of the body it goes to the condition again, and so does `continue`,
/// while `break` goes behind the loop.
pub proof fn law_while_loops_repeat(c: Context, s: State, statement: &Statement, blocks: Seq<BlockView>) -> (laid: (
    State,
    State,
    State,
))
    requires
        alive(s),
        blocks.len() <= usize::MAX,
        statement.kind is While,
        while_rule(c, s, statement) matches Ok((after, _)) && stays(after, blocks),
    ensures
        statement.kind matches StatementKind::While { condition, body } && (while_rule(c, s, statement) matches Ok(
            (after, _),
        ) && {
            let (start, first, last) = laid;
            match expression_rule(c, start, &condition) {
                Ok((tested, Some(value))) => {
                    &&& statement_body_rule(c, first, &body) == Ok::<(State, ()), &'static str>((last, ()))
                    &&& while_laid(s, statement.span, start, tested, value, first, last, after)
                    &&& ends_with(blocks, s.block->0, TerminatorView::Jump(start.block->0))
                    &&& ends_with(
                        blocks,
                        tested.block->0,
                        TerminatorView::Branch {
                            condition: value,
                            then_block: first.block->0,
                            else_block: after.block->0,
                        },
                    )
                    &&& last.block matches Some(end) ==> ends_with(blocks, end, TerminatorView::Jump(start.block->0))
                },
                Ok((tested, None)) => after == tested,
                Err(_) => false,
            }
        }),
{
    let laid = go_while(c, s, statement);
    laid
}

/// A `for` loop in the code that it becomes. The header goes to the body while elements are left, and else to where the
/// iteration ends; the end of the body and `continue` go to the step to the next element and from there to the header,
/// and `break` goes to where the iteration ends.
pub proof fn law_for_loops_visit(c: Context, s: State, statement: &Statement, blocks: Seq<BlockView>) -> (laid: (
    State,
    State,
    Iteration,
    State,
    State,
))
    requires
        alive(s),
        blocks.len() <= usize::MAX,
        statement.kind is For,
        for_rule(c, s, statement) matches Ok((after, _)) && stays(after, blocks),
    ensures
        statement.kind matches StatementKind::For { iterable, body, .. } && (for_rule(c, s, statement) matches Ok(
            (after, _),
        ) && {
            let (declared, begun, it, first, last) = laid;
            &&& declared.block == s.block
            &&& match operand_rule(c, declared, &iterable) {
                Ok((tested, Some(operand))) => {
                    &&& tested == begun
                    &&& it.iterable == operand
                    &&& statement_body_rule(c, first, &body) == Ok::<(State, ()), &'static str>((last, ()))
                    &&& for_laid(begun, statement.span, it, first, last, after)
                    &&& ends_with(blocks, begun.block->0, TerminatorView::Jump(it.header))
                    &&& blocks[it.header.0 as int] == after.blocks[it.header.0 as int]
                    &&& blocks[it.advance.0 as int] == after.blocks[it.advance.0 as int]
                    &&& blocks[it.cleanup.0 as int] == after.blocks[it.cleanup.0 as int]
                    &&& last.block matches Some(end) ==> ends_with(blocks, end, TerminatorView::Jump(it.advance))
                },
                Ok((tested, None)) => after == tested,
                Err(_) => false,
            }
        }),
{
    let laid = lemma_for(c, s, statement);
    if let StatementKind::For { iterable, body, .. } = &statement.kind {
        assert(laid.0.block == s.block && alive(laid.0)) by {
            reveal(flat);
        }
        go_operand(c, laid.0, iterable);
        go_statement_body(c, laid.3, body);
        if let Ok((begun, Some(_))) = operand_rule(c, laid.0, iterable) {
            let after = for_rule(c, s, statement)->Ok_0.0;
            assert(begun.blocks.len() <= after.blocks.len()) by {
                reveal(goes);
            }
            assert(alive(begun)) by {
                reveal(goes);
            }
        }
    }
    laid
}

proof fn lemma_loop_before(loops: Seq<LoopView>, source: Span, count: int)
    requires
        0 <= count <= loops.len(),
    ensures
        match loop_before(loops, source, count) {
            Some(found) => 0 <= found < count && loops[found].source == source && forall|i: int|
                found < i < count ==> (#[trigger] loops[i]).source != source,
            None => forall|i: int| 0 <= i < count ==> (#[trigger] loops[i]).source != source,
        },
    decreases count,
{
    if count > 0 && loops[count - 1].source != source {
        lemma_loop_before(loops, source, count - 1);
    }
}

/// A `break` goes where the loop that it leaves ends, a `continue` where that loop goes on, and control goes nowhere
/// else.
pub proof fn law_jumps_reach_their_loop(c: Context, s: State, breaks: bool, span: Span, blocks: Seq<BlockView>)
    requires
        alive(s),
        blocks.len() <= usize::MAX,
        control_rule(c, s, breaks, span) matches Ok((after, _)) && stays(after, blocks),
    ensures
        control_rule(c, s, breaks, span) matches Ok((after, _)) && after.block is None,
        s.block is Some,
        only(c.semantic.flow.loop_controls@, span) matches Some(i) && exists|k: int|
            0 <= k < s.loops.len() && (#[trigger] s.loops[k]).source == c.semantic.flow.loop_controls@[i].target && (
            forall|j: int|
                k < j < s.loops.len() ==> (#[trigger] s.loops[j]).source
                    != c.semantic.flow.loop_controls@[i].target) && ends_with(
                blocks,
                s.block->0,
                TerminatorView::Jump(
                    if breaks {
                        s.loops[k].break_target
                    } else {
                        s.loops[k].continue_target
                    },
                ),
            ),
{
    reveal(control_rule);
    let i = only(c.semantic.flow.loop_controls@, span)->0;
    let target = c.semantic.flow.loop_controls@[i].target;
    lemma_loop_before(s.loops, target, s.loops.len() as int);
    let k = loop_before(s.loops, target, s.loops.len() as int)->0;
    let end = TerminatorView::Jump(
        if breaks {
            s.loops[k].break_target
        } else {
            s.loops[k].continue_target
        },
    );
    lemma_finish(s, end, span);
    let after = control_rule(c, s, breaks, span)->Ok_0.0;
    let d = (s.block->0).0 as int;
    assert(after.blocks[d].terminator is Some);
    assert(blocks[d] == after.blocks[d]);
    assert(s.loops[k].source == target);
}

/// Whether a body is what is lowered between two states.
#[verifier::opaque]
pub open spec fn between(c: Context, start: State, body: &StatementBody, end: State) -> bool {
    statement_body_rule(c, start, body) == Ok::<(State, ()), &'static str>((end, ()))
}

/// Whether an arm is the first that stands for an alternative.
pub open spec fn takes(switch: SwitchResolution, alternative: AlternativeView, arm: int) -> bool {
    &&& 0 <= arm < switch.arms@.len()
    &&& switch.arms@[arm].alternative@ == alternative
    &&& forall|k: int| 0 <= k < arm ==> (#[trigger] switch.arms@[k]).alternative@ != alternative
}

proof fn lemma_arm_from(switch: SwitchResolution, alternative: AlternativeView, from: int)
    requires
        0 <= from <= switch.arms@.len(),
        forall|k: int| 0 <= k < from ==> (#[trigger] switch.arms@[k]).alternative@ != alternative,
    ensures
        match arm_from(switch, alternative, from) {
            Some(found) => takes(switch, alternative, found),
            None => forall|k: int|
                0 <= k < switch.arms@.len() ==> (#[trigger] switch.arms@[k]).alternative@ != alternative,
        },
    decreases switch.arms@.len() - from,
{
    if from < switch.arms@.len() && switch.arms@[from].alternative@ != alternative {
        lemma_arm_from(switch, alternative, from + 1);
    }
}

proof fn lemma_targets(
    c: Context,
    switch: SwitchResolution,
    alternatives: Seq<UnionAlternative>,
    starts: Seq<BlockId>,
    other: Option<BlockId>,
    from: int,
    targets: Seq<(AlternativeId, BlockId)>,
)
    requires
        0 <= from <= alternatives.len(),
        targets.len() == from,
        forall|a: int|
            0 <= a < from ==> alternative_id(c, switch.operand_union, alternatives[a]@) == Ok::<
                AlternativeId,
                &'static str,
            >((#[trigger] targets[a]).0) && arm_block(switch, alternatives[a]@, starts, other) == Some(targets[a].1),
    ensures
        targets_from(c, switch, alternatives, starts, other, from, targets) matches Ok(all) ==> {
            &&& all.len() == alternatives.len()
            &&& forall|a: int|
                0 <= a < all.len() ==> alternative_id(c, switch.operand_union, alternatives[a]@) == Ok::<
                    AlternativeId,
                    &'static str,
                >((#[trigger] all[a]).0) && arm_block(switch, alternatives[a]@, starts, other) == Some(all[a].1)
        },
    decreases alternatives.len() - from,
{
    if from < alternatives.len() {
        if let Ok(id) = alternative_id(c, switch.operand_union, alternatives[from]@) {
            if let Some(block) = arm_block(switch, alternatives[from]@, starts, other) {
                lemma_targets(c, switch, alternatives, starts, other, from + 1, targets.push((id, block)));
            }
        }
    }
}

/// What the arms from one on are lowered between, where each begins in a block of its own.
pub open spec fn arms_laid(
    c: Context,
    arms: Seq<SwitchArm>,
    starts: Seq<BlockId>,
    from: int,
    laid: Seq<(State, State)>,
) -> bool {
    forall|k: int|
        0 <= k < laid.len() ==> (#[trigger] laid[k]).0.block == Some(starts[from + k]) && between(
            c,
            laid[k].0,
            &arms[from + k].body,
            laid[k].1,
        )
}

#[verifier::rlimit(40)]
proof fn lemma_arms(
    c: Context,
    base: State,
    s: State,
    arms: Seq<SwitchArm>,
    switch: SwitchResolution,
    union: OperandView,
    starts: Seq<BlockId>,
    outer: Seq<Narrowing>,
    from: int,
    paths: Seq<(BlockId, Span)>,
    all: Seq<BlockId>,
    blocks: Seq<BlockView>,
) -> (laid: Seq<(State, State)>)
    requires
        0 <= from <= arms.len(),
        arms.len() <= all.len(),
        forall|j: int| 0 <= j < arms.len() ==> #[trigger] all[j] == starts[j],
        goes(base, s),
        s.block is None,
        alive(base),
        blocks.len() <= usize::MAX,
        fits(s),
        parked(base, s, paths),
        waiting(base, s, all, from),
        clear(paths, all, from),
        arms_from(c, s, arms, switch, union, starts, outer, from, paths) matches Ok((after, _)) && stays(after, blocks),
    ensures
        ({
            let (after, ends) = arms_from(c, s, arms, switch, union, starts, outer, from, paths)->Ok_0;
            &&& laid.len() == arms.len() - from
            &&& arms_laid(c, arms, starts, from, laid)
            &&& forall|k: int| 0 <= k < laid.len() ==> among((#[trigger] laid[k]).1, ends)
            &&& longer(paths, ends)
            &&& stays(s, blocks)
        }),
    decreases arms.len() - from,
{
    let mut laid: Seq<(State, State)> = seq![];
    if from < arms.len() {
        let (after, ends) = arms_from(c, s, arms, switch, union, starts, outer, from, paths)->Ok_0;
        let start = entered(restored(s, outer), starts[from]);
        let label = arms[from].label.span;
        flat_arm_narrowed(c, start, switch, union, from, label);
        let first = arm_narrowed(c, start, switch, union, from, label)->Ok_0.0;
        go_arm(c, first, &arms[from]);
        let end = arm_rule(c, first, &arms[from])->Ok_0.0;
        assert(all[from] == starts[from]);
        lemma_flat_goes(start, first);
        lemma_through(start, first, end);
        lemma_way(base, s, all, from, start, end, paths, arms[from].body.span);
        let more = with_path(paths, end, arms[from].body.span);
        go_arms(c, base, left(end), arms, switch, union, starts, outer, from + 1, more, all);
        assert(fits(end) && alive(start)) by {
            reveal(goes);
        }
        let inner = lemma_arms(c, base, left(end), arms, switch, union, starts, outer, from + 1, more, all, blocks);
        lemma_stays(start, end, blocks);
        lemma_with_path(paths, end, arms[from].body.span);
        lemma_among(end, more, ends);
        assert(first.block == start.block) by {
            reveal(flat);
        }
        assert(between(c, first, &arms[from].body, end)) by {
            reveal(between);
        }
        laid = seq![(first, end)] + inner;
        assert forall|k: int| 0 <= k < laid.len() implies among((#[trigger] laid[k]).1, ends) && laid[k].0.block
            == Some(starts[from + k]) && between(c, laid[k].0, &arms[from + k].body, laid[k].1) by {
            if k > 0 {
                assert(laid[k] == inner[k - 1]);
                assert(starts[from + k] == starts[from + 1 + (k - 1)]);
                assert(arms[from + k] == arms[from + 1 + (k - 1)]);
            }
        }
    }
    laid
}

/// A `switch` in the code that it becomes. Where the operand has come to its value, control goes by the alternative that
/// the value is: to the body of the first arm that stands for it, and to that of `else` if none does. Every body that
/// control gets to the end of goes on behind the statement.
#[verifier::rlimit(60)]
pub proof fn law_switches_select(c: Context, s: State, statement: &Statement, blocks: Seq<BlockView>) -> (laid: (
    Seq<(State, State)>,
    State,
    State,
))
    requires
        alive(s),
        blocks.len() <= usize::MAX,
        statement.kind is Switch,
        switch_rule(c, s, statement) matches Ok((after, _)) && stays(after, blocks),
    ensures
        statement.kind matches StatementKind::Switch { value, arms, else_body } && (switch_rule(c, s, statement) matches Ok(
            (after, _),
        ) && (only(c.semantic.switches@, statement.span) matches Some(i) && {
            let switch = c.semantic.switches@[i];
            let (bodies, rest, last) = laid;
            match operand_rule(c, s, &value) {
                Ok((tested, Some(union))) => {
                    &&& tested.block is Some
                    &&& bodies.len() == arms@.len()
                    &&& switch.arms@.len() == arms@.len()
                    &&& forall|k: int|
                        0 <= k < bodies.len() ==> (#[trigger] bodies[k]).0.block is Some && between(
                            c,
                            bodies[k].0,
                            &arms@[k].body,
                            bodies[k].1,
                        ) && joins(bodies[k].1, after, blocks)
                    &&& alternatives_of(
                        c,
                        switch.operand_union,
                        "union identity names a non-union nominal",
                        "union identity names a non-union type",
                    ) matches Ok(alternatives)
                    &&& blocks[(tested.block->0).0 as int].terminator matches Some(
                        (TerminatorView::Switch { union: tried, targets }, _),
                    )
                    &&& tried == union
                    &&& targets.len() == alternatives.len()
                    &&& forall|a: int|
                        0 <= a < targets.len() ==> alternative_id(c, switch.operand_union, alternatives[a]@) == Ok::<
                            AlternativeId,
                            &'static str,
                        >((#[trigger] targets[a]).0) && selects(
                            c,
                            switch,
                            alternatives[a]@,
                            bodies,
                            else_body,
                            rest,
                            last,
                            targets[a].1,
                        )
                    &&& joins(last, after, blocks)
                },
                Ok((tested, None)) => after == tested,
                Err(_) => false,
            }
        })),
{
    let mut laid: (Seq<(State, State)>, State, State) = (seq![], left(s), left(s));
    if let StatementKind::Switch { value, arms, else_body: other } = &statement.kind {
        let i = only(c.semantic.switches@, statement.span)->0;
        let switch = c.semantic.switches@[i];
        go_operand(c, s, value);
        let after = switch_rule(c, s, statement)->Ok_0.0;
        if let Ok((tested, Some(union))) = operand_rule(c, s, value) {
            lemma_dispatched(c, tested, switch, union, arms@.len(), value.span);
            let (s2, (starts, rest)) = dispatched(c, tested, switch, union, arms@.len(), value.span)->Ok_0;
            let outer = s2.narrowings;
            let all = match rest {
                Some(block) => starts.push(block),
                None => starts,
            };
            let alternatives = alternatives_of(
                c,
                switch.operand_union,
                "union identity names a non-union nominal",
                "union identity names a non-union type",
            )->Ok_0;
            lemma_targets(c, switch, alternatives, starts, rest, 0, seq![]);
            let targets = targets_from(c, switch, alternatives, starts, rest, 0, seq![])->Ok_0;
            go_arms(c, tested, s2, arms@, switch, union, starts, outer, 0, seq![], all);
            let (s3, paths) = arms_from(c, s2, arms@, switch, union, starts, outer, 0, seq![])->Ok_0;
            go_rest(c, tested, s3, rest, other, outer, paths, all, arms@.len() as int);
            let (s4, ends) = rest_rule(c, s3, rest, other, outer, paths)->Ok_0;
            let s5 = restored(s4, outer);
            assert(after == merged(s5, ends).0);
            lemma_alike(s4, s5);
            lemma_flat_goes(s4, s5);
            lemma_through(tested, s4, s5);
            assert(s5.blocks.len() <= after.blocks.len()) by {
                reveal(merged);
                lemma_open(s5);
                lemma_joined(open_block(s5).0, ends, open_block(s5).1, 0);
            }
            assert(tested.blocks.len() <= s2.blocks.len() && s2.blocks.len() <= s3.blocks.len()) by {
                reveal(goes);
            }
            assert(alive(tested)) by {
                reveal(goes);
            }
            lemma_merged(tested, s5, ends);
            lemma_merged_stays(tested, s5, ends, blocks);
            let ends_laid = lemma_rest(c, tested, s3, rest, other, outer, paths, all, arms@.len() as int, blocks);
            let bodies = lemma_arms(c, tested, s2, arms@, switch, union, starts, outer, 0, seq![], all, blocks);
            assert(blocks[(tested.block->0).0 as int] == s2.blocks[(tested.block->0).0 as int]);
            assert forall|k: int| 0 <= k < bodies.len() implies (#[trigger] bodies[k]).0.block is Some && between(
                c,
                bodies[k].0,
                &arms@[k].body,
                bodies[k].1,
            ) && joins(bodies[k].1, after, blocks) by {
                lemma_among(bodies[k].1, paths, ends);
                lemma_joins(bodies[k].1, after, ends, blocks);
            }
            lemma_joins(ends_laid.1, after, ends, blocks);
            assert forall|a: int| 0 <= a < targets.len() implies selects(
                c,
                switch,
                alternatives[a]@,
                bodies,
                *other,
                ends_laid.0,
                ends_laid.1,
                (#[trigger] targets[a]).1,
            ) by {
                lemma_arm_from(switch, alternatives[a]@, 0);
                if let Some(arm) = arm_from(switch, alternatives[a]@, 0) {
                    assert(bodies[arm].0.block == Some(starts[0 + arm]));
                }
            }
            laid = (bodies, ends_laid.0, ends_laid.1);
        }
    }
    laid
}

/// Whether a block is where an alternative belongs: where the body of the first arm for it begins, or else that of
/// `else`.
pub open spec fn selects(
    c: Context,
    switch: SwitchResolution,
    alternative: AlternativeView,
    bodies: Seq<(State, State)>,
    other: Option<StatementBody>,
    rest: State,
    last: State,
    block: BlockId,
) -> bool {
    ||| exists|arm: int|
        takes(switch, alternative, arm) && arm < bodies.len() && (#[trigger] bodies[arm]).0.block == Some(block)
    ||| (forall|k: int| 0 <= k < switch.arms@.len() ==> (#[trigger] switch.arms@[k]).alternative@ != alternative)
        && rest.block == Some(block) && (other matches Some(body) && between(c, rest, &body, last))
}

#[verifier::rlimit(40)]
proof fn lemma_rest(
    c: Context,
    base: State,
    s: State,
    other: Option<BlockId>,
    body: &Option<StatementBody>,
    outer: Seq<Narrowing>,
    paths: Seq<(BlockId, Span)>,
    all: Seq<BlockId>,
    arms: int,
    blocks: Seq<BlockView>,
) -> (laid: (State, State))
    requires
        0 <= arms <= all.len(),
        other matches Some(block) ==> arms < all.len() && all[arms] == block,
        goes(base, s),
        s.block is None,
        alive(base),
        fits(s),
        blocks.len() <= usize::MAX,
        parked(base, s, paths),
        waiting(base, s, all, arms),
        clear(paths, all, arms),
        rest_rule(c, s, other, body, outer, paths) matches Ok((after, _)) && stays(after, blocks),
    ensures
        ({
            let (after, ends) = rest_rule(c, s, other, body, outer, paths)->Ok_0;
            &&& longer(paths, ends)
            &&& among(laid.1, ends)
            &&& stays(s, blocks)
            &&& other matches Some(block) ==> laid.0.block == Some(block) && (body matches Some(it) && between(
                c,
                laid.0,
                &it,
                laid.1,
            ))
        }),
{
    let mut laid = (s, s);
    if let Some(block) = other {
        if let Some(body) = body {
            let start = entered(restored(s, outer), block);
            go_statement_body(c, start, body);
            let end = statement_body_rule(c, start, body)->Ok_0.0;
            lemma_way(base, s, all, arms, start, end, paths, body.span);
            assert(alive(start));
            lemma_stays(start, end, blocks);
            lemma_with_path(paths, end, body.span);
            assert(between(c, start, body, end)) by {
                reveal(between);
            }
            laid = (start, end);
        }
    }
    laid
}

/// What one alternative of the operand of a postfix `?` is lowered to: control comes to `start`, takes the payload out,
/// and is done in `end`.
pub struct Exit {
    pub start: State,
    pub paid: State,
    pub payload: LocalId,
    pub end: State,
}

/// Whether the code for an alternative of a postfix `?` does what it should: an error leaves the function with its
/// payload, or the program, and anything else becomes the value of the whole.
#[verifier::opaque]
pub open spec fn exit_laid(
    c: Context,
    r: TryResolution,
    alternative: UnionAlternative,
    operand: OperandView,
    result: LocalId,
    exit: Exit,
    blocks: Seq<BlockView>,
) -> bool {
    &&& exit.start.block is Some
    &&& exit.paid.block == exit.start.block
    &&& alternative_id(c, r.operand_union, alternative@) matches Ok(id)
    &&& exit.paid.blocks[(exit.start.block->0).0 as int].operations.last().0 == (OperationView::UnionPayload {
        destination: exit.payload,
        union: operand,
        alternative: id,
    })
    &&& if alternative is Error {
        &&& exit.end.block is None
        &&& alternative@ == r.source_error@
        &&& match r.action {
            TryAction::Propagate { destination_union, destination_error, .. } => inject(
                c,
                exit.paid,
                value_of(exit.payload),
                destination_union,
                destination_error@,
                r.operator_span,
            ) matches Ok((_, returned)) && ends_with(blocks, exit.start.block->0, TerminatorView::Return(returned)),
            TryAction::Panic { .. } => exists|failure: FailureSiteId| #[trigger]
                ends_with(
                    blocks,
                    exit.start.block->0,
                    TerminatorView::ErrorPanic { payload: value_of(exit.payload), failure },
                ),
        }
    } else {
        &&& exit.end.block == exit.start.block
        &&& exit.end.blocks[(exit.start.block->0).0 as int].operations.last().0 matches OperationView::Assign {
            destination,
            ..
        }
        &&& destination == whole(result)
    }
}

#[verifier::rlimit(40)]
proof fn lemma_error_exit(
    c: Context,
    s: State,
    r: TryResolution,
    alternative: UnionAlternative,
    operand: OperandView,
    result: LocalId,
    exit: Exit,
    blocks: Seq<BlockView>,
)
    requires
        alternative is Error,
        exit.start.block is Some,
        exit.paid.block == exit.start.block,
        alternative_id(c, r.operand_union, alternative@) is Ok,
        exit.paid.blocks[(exit.start.block->0).0 as int].operations.last().0 == (OperationView::UnionPayload {
            destination: exit.payload,
            union: operand,
            alternative: alternative_id(c, r.operand_union, alternative@)->Ok_0,
        }),
        errored(c, exit.paid, r, alternative@, value_of(exit.payload)) matches Ok((end, _)) && end == exit.end,
        stays(exit.end, blocks),
    ensures
        exit_laid(c, r, alternative, operand, result, exit, blocks),
{
    reveal(exit_laid);
    reveal(errored);
    lemma_steps();
    lemma_leaves(c);
    let payload = value_of(exit.payload);
    let d = exit.start.block->0;
    match r.action {
        TryAction::Propagate { destination_union, destination_error, .. } => {
            flat_inject(c, exit.paid, payload, destination_union, destination_error@, r.operator_span);
            let (s1, returned) = inject(
                c,
                exit.paid,
                payload,
                destination_union,
                destination_error@,
                r.operator_span,
            )->Ok_0;
            flat_cleaned(c, s1, s1.loops, s1.loops.len() as int, r.operator_span);
            let s2 = cleaned(s1, s1.loops, s1.loops.len() as int, r.operator_span)->Ok_0.0;
            lemma_finish(s2, TerminatorView::Return(returned), r.operator_span);
            assert(s2.block == exit.paid.block) by {
                reveal(flat);
            }
            assert(exit.end.blocks[d.0 as int].terminator is Some);
            assert(ends_with(blocks, d, TerminatorView::Return(returned)));
        },
        TryAction::Panic { .. } => {
            let (s1, failure) = fail(c, exit.paid, r.operator_span, FailureOperation::UnhandledError)->Ok_0;
            lemma_finish(s1, TerminatorView::ErrorPanic { payload, failure }, r.operator_span);
            assert(s1.block == exit.paid.block) by {
                reveal(flat);
            }
            assert(exit.end.blocks[d.0 as int].terminator is Some);
            assert(ends_with(blocks, d, TerminatorView::ErrorPanic { payload, failure }));
        },
    }
}

#[verifier::rlimit(40)]
proof fn lemma_success_exit(
    c: Context,
    r: TryResolution,
    alternative: UnionAlternative,
    operand: OperandView,
    result: LocalId,
    single: bool,
    exit: Exit,
    blocks: Seq<BlockView>,
)
    requires
        !(alternative is Error),
        exit.start.block is Some,
        exit.paid.block == exit.start.block,
        alternative_id(c, r.operand_union, alternative@) is Ok,
        exit.paid.blocks[(exit.start.block->0).0 as int].operations.last().0 == (OperationView::UnionPayload {
            destination: exit.payload,
            union: operand,
            alternative: alternative_id(c, r.operand_union, alternative@)->Ok_0,
        }),
        succeeded(c, exit.paid, r, alternative@, value_of(exit.payload), result, single) matches Ok((end, _)) && end
            == exit.end,
    ensures
        exit_laid(c, r, alternative, operand, result, exit, blocks),
{
    reveal(exit_laid);
    reveal(succeeded);
    let payload = value_of(exit.payload);
    flat_inject(c, exit.paid, payload, try_type(r), alternative@, r.operator_span);
    let (s1, value) = if single && r.widening is None {
        (exit.paid, payload)
    } else {
        inject(c, exit.paid, payload, try_type(r), alternative@, r.operator_span)->Ok_0
    };
    lemma_emit(s1, OperationView::Assign { destination: whole(result), value }, r.operator_span);
    reveal(flat);
}

/// Whether the alternatives of a postfix `?` from one on are laid out, each in a block of its own.
pub open spec fn exits_laid(
    c: Context,
    r: TryResolution,
    alternatives: Seq<UnionAlternative>,
    operand: OperandView,
    result: LocalId,
    starts: Seq<BlockId>,
    from: int,
    exits: Seq<Exit>,
    blocks: Seq<BlockView>,
) -> bool {
    forall|k: int|
        0 <= k < exits.len() ==> (#[trigger] exits[k]).start.block == Some(starts[from + k]) && exit_laid(
            c,
            r,
            alternatives[from + k],
            operand,
            result,
            exits[k],
            blocks,
        )
}

#[verifier::rlimit(60)]
proof fn lemma_exits(
    c: Context,
    base: State,
    s: State,
    r: TryResolution,
    alternatives: Seq<UnionAlternative>,
    operand: OperandView,
    result: LocalId,
    single: bool,
    starts: Seq<BlockId>,
    from: int,
    paths: Seq<(BlockId, Span)>,
    blocks: Seq<BlockView>,
) -> (laid: Seq<Exit>)
    requires
        0 <= from <= alternatives.len(),
        alternatives.len() == starts.len(),
        goes(base, s),
        s.block is None,
        alive(base),
        fits(s),
        blocks.len() <= usize::MAX,
        parked(base, s, paths),
        waiting(base, s, starts, from),
        clear(paths, starts, from),
        attempted_from(c, s, r, alternatives, operand, result, single, starts, from, paths) matches Ok((after, _))
            && stays(after, blocks),
    ensures
        ({
            let (after, ends) = attempted_from(
                c,
                s,
                r,
                alternatives,
                operand,
                result,
                single,
                starts,
                from,
                paths,
            )->Ok_0;
            &&& laid.len() == alternatives.len() - from
            &&& exits_laid(c, r, alternatives, operand, result, starts, from, laid, blocks)
            &&& forall|k: int| 0 <= k < laid.len() ==> among((#[trigger] laid[k]).end, ends)
            &&& longer(paths, ends)
            &&& stays(s, blocks)
        }),
    decreases alternatives.len() - from,
{
    let mut laid: Seq<Exit> = seq![];
    if from < alternatives.len() {
        let (after, ends) = attempted_from(
            c,
            s,
            r,
            alternatives,
            operand,
            result,
            single,
            starts,
            from,
            paths,
        )->Ok_0;
        let alternative = alternatives[from]@;
        let start = entered(s, starts[from]);
        let id = alternative_id(c, r.operand_union, alternative)->Ok_0;
        let (s1, local) = temporary(c, start, payload_of(alternative))->Ok_0;
        let first = OperationView::UnionPayload { destination: local, union: operand, alternative: id };
        lemma_leaves(c);
        lemma_emit(s1, first, r.operator_span);
        let paid = emit(s1, first, r.operator_span)->Ok_0.0;
        assert(flat(start, s1) && flat(s1, paid));
        lemma_flat_goes(start, s1);
        lemma_flat_goes(s1, paid);
        lemma_through(start, s1, paid);
        assert(paid.block == start.block && s1.block == start.block) by {
            reveal(flat);
        }
        let error = alternatives[from] is Error;
        let end = if error {
            errored(c, paid, r, alternative, value_of(local))->Ok_0.0
        } else {
            succeeded(c, paid, r, alternative, value_of(local), result, single)->Ok_0.0
        };
        let exit = Exit { start, paid, payload: local, end };
        if error {
            goes_errored(c, paid, r, alternative, value_of(local));
        } else {
            flat_succeeded(c, paid, r, alternative, value_of(local), result, single);
            lemma_flat_goes(paid, end);
        }
        lemma_through(start, paid, end);
        lemma_way(base, s, starts, from, start, end, paths, r.operator_span);
        let more = with_path(paths, end, r.operator_span);
        assert(error ==> more == paths && left(end) == end);
        assert(attempted_from(c, s, r, alternatives, operand, result, single, starts, from, paths) == attempted_from(
            c,
            left(end),
            r,
            alternatives,
            operand,
            result,
            single,
            starts,
            from + 1,
            more,
        ));
        go_attempts(c, base, left(end), r, alternatives, operand, result, single, starts, from + 1, more);
        assert(fits(end) && alive(start)) by {
            reveal(goes);
        }
        let inner = lemma_exits(
            c,
            base,
            left(end),
            r,
            alternatives,
            operand,
            result,
            single,
            starts,
            from + 1,
            more,
            blocks,
        );
        lemma_stays(start, end, blocks);
        lemma_with_path(paths, end, r.operator_span);
        lemma_among(end, more, ends);
        if error {
            lemma_error_exit(c, s, r, alternatives[from], operand, result, exit, blocks);
        } else {
            lemma_success_exit(c, r, alternatives[from], operand, result, single, exit, blocks);
        }
        laid = seq![exit] + inner;
        assert forall|k: int| 0 <= k < laid.len() implies among((#[trigger] laid[k]).end, ends) && laid[k].start.block
            == Some(starts[from + k]) && exit_laid(
            c,
            r,
            alternatives[from + k],
            operand,
            result,
            laid[k],
            blocks,
        ) by {
            if k > 0 {
                assert(laid[k] == inner[k - 1]);
                assert(starts[from + k] == starts[from + 1 + (k - 1)]);
                assert(alternatives[from + k] == alternatives[from + 1 + (k - 1)]);
            }
        }
    }
    laid
}

proof fn lemma_exit_targets(
    c: Context,
    union: SourceType,
    alternatives: Seq<UnionAlternative>,
    starts: Seq<BlockId>,
    from: int,
    targets: Seq<(AlternativeId, BlockId)>,
)
    requires
        0 <= from <= alternatives.len(),
        targets.len() == from,
        forall|a: int|
            0 <= a < from ==> alternative_id(c, union, alternatives[a]@) == Ok::<AlternativeId, &'static str>(
                (#[trigger] targets[a]).0,
            ) && targets[a].1 == starts[a],
    ensures
        exits_from(c, union, alternatives, starts, from, targets) matches Ok(all) ==> {
            &&& all.len() == alternatives.len()
            &&& forall|a: int|
                0 <= a < all.len() ==> alternative_id(c, union, alternatives[a]@) == Ok::<AlternativeId, &'static str>(
                    (#[trigger] all[a]).0,
                ) && all[a].1 == starts[a]
        },
    decreases alternatives.len() - from,
{
    if from < alternatives.len() {
        if let Ok(id) = alternative_id(c, union, alternatives[from]@) {
            lemma_exit_targets(c, union, alternatives, starts, from + 1, targets.push((id, starts[from])));
        }
    }
}

/// A postfix `?` in the code that it becomes. Control goes by the alternative that the operand is: for an error, it
/// leaves the function with the same payload in the error of the result, or ends the program; for any other, the
/// payload becomes the value, and control goes on behind the `?`.
#[verifier::rlimit(60)]
pub proof fn law_tries_let_errors_out(
    c: Context,
    s: State,
    expression: Span,
    value: Span,
    operand: OperandView,
    blocks: Seq<BlockView>,
) -> (laid: (Seq<Exit>, LocalId))
    requires
        alive(s),
        blocks.len() <= usize::MAX,
        attempted(c, s, expression, value, operand) matches Ok((after, _)) && stays(after, blocks),
    ensures
        attempted(c, s, expression, value, operand) matches Ok((after, given)) && (only(
            c.semantic.tries@,
            expression,
        ) matches Some(i) && {
            let r = c.semantic.tries@[i];
            let (exits, result) = laid;
            &&& given == value_of(result)
            &&& s.block is Some
            &&& alternatives_of(
                c,
                r.operand_union,
                "union identity names a non-union nominal",
                "union identity names a non-union type",
            ) matches Ok(alternatives)
            &&& exits.len() == alternatives.len()
            &&& blocks[(s.block->0).0 as int].terminator matches Some(
                (TerminatorView::Switch { union: tried, targets }, _),
            )
            &&& tried == operand
            &&& targets.len() == alternatives.len()
            &&& forall|a: int|
                0 <= a < targets.len() ==> alternative_id(c, r.operand_union, alternatives[a]@) == Ok::<
                    AlternativeId,
                    &'static str,
                >((#[trigger] targets[a]).0) && exits[a].start.block == Some(targets[a].1)
            &&& forall|a: int|
                0 <= a < exits.len() ==> exit_laid(
                    c,
                    r,
                    alternatives[a],
                    operand,
                    result,
                    #[trigger] exits[a],
                    blocks,
                ) && joins(exits[a].end, after, blocks)
        }),
{
    reveal(attempted);
    lemma_leaves(c);
    let i = only(c.semantic.tries@, expression)->0;
    let r = c.semantic.tries@[i];
    let after = attempted(c, s, expression, value, operand)->Ok_0.0;
    let alternatives = alternatives_of(
        c,
        r.operand_union,
        "union identity names a non-union nominal",
        "union identity names a non-union type",
    )->Ok_0;
    let (s1, result) = temporary(c, s, try_type(r))->Ok_0;
    assert(flat(s, s1));
    lemma_flat_goes(s, s1);
    let count = alternatives.len() as int;
    lemma_open_blocks(s1, count);
    let (s2, starts) = open_blocks(s1, count);
    assert(goes(s1, s2)) by {
        reveal(goes);
    }
    lemma_exit_targets(c, r.operand_union, alternatives, starts, 0, seq![]);
    let targets = exits_from(c, r.operand_union, alternatives, starts, 0, seq![])->Ok_0;
    let end = TerminatorView::Switch { union: operand, targets };
    lemma_finish(s2, end, r.operator_span);
    let s3 = finish(s2, end, r.operator_span)->Ok_0.0;
    lemma_through(s, s1, s2);
    lemma_through(s, s2, s3);
    let single = successes_count(alternatives, count) == 1;
    assert(s1.block == s.block && alive(s1) && s1.blocks.len() == s.blocks.len()) by {
        reveal(flat);
    }
    assert(fits(s3) ==> waiting(s, s3, starts, 0)) by {
        if fits(s3) {
            assert forall|j: int| 0 <= j < starts.len() implies unfinished(s3, #[trigger] starts[j]) && starts[j].0
                >= s.blocks.len() && starts[j].0 == s1.blocks.len() + j by {
                assert(s2.blocks[s1.blocks.len() + j].terminator is None);
            }
        }
    }
    go_attempts(c, s, s3, r, alternatives, operand, result, single, starts, 0, seq![]);
    let (s4, paths) = attempted_from(c, s3, r, alternatives, operand, result, single, starts, 0, seq![])->Ok_0;
    assert(after == merged(s4, paths).0);
    assert(s4.blocks.len() <= after.blocks.len()) by {
        reveal(merged);
        lemma_open(s4);
        lemma_joined(open_block(s4).0, paths, open_block(s4).1, 0);
    }
    lemma_merged(s, s4, paths);
    lemma_merged_stays(s, s4, paths, blocks);
    let exits = lemma_exits(c, s, s3, r, alternatives, operand, result, single, starts, 0, seq![], blocks);
    let d = (s.block->0).0 as int;
    assert(blocks[d] == s3.blocks[d]);
    assert forall|a: int| 0 <= a < exits.len() implies exit_laid(
        c,
        r,
        alternatives[a],
        operand,
        result,
        #[trigger] exits[a],
        blocks,
    ) && joins(exits[a].end, after, blocks) by {
        lemma_joins(exits[a].end, after, paths, blocks);
        assert(alternatives[0 + a] == alternatives[a]);
    }
    assert forall|a: int| 0 <= a < targets.len() implies exits[a].start.block == Some((#[trigger] targets[a]).1) by {
        assert(exits[a].start.block == Some(starts[0 + a]));
    }
    (exits, result)
}

/// The statements of a block are lowered one behind the other, and what each has become stays in the code; none is left
/// out unless control does not get to it.
pub proof fn law_statements_follow_each_other(
    c: Context,
    s: State,
    statements: Seq<Statement>,
    from: int,
    blocks: Seq<BlockView>,
) -> (states: Seq<State>)
    requires
        0 <= from <= statements.len(),
        alive(s),
        blocks.len() <= usize::MAX,
        statements_from(c, s, statements, from) matches Ok((after, _)) && stays(after, blocks),
    ensures
        statements_from(c, s, statements, from) matches Ok((after, _)) && {
            &&& states.len() > 0
            &&& states[0] == s
            &&& states.last() == after
            &&& states.len() - 1 <= statements.len() - from
            &&& states.len() - 1 < statements.len() - from ==> after.block is None
            &&& forall|k: int|
                0 <= k < states.len() ==> alive(#[trigger] states[k]) && stays(states[k], blocks) && (k
                    < states.len() - 1 ==> followed(c, states[k], &statements[from + k], states[k + 1]))
        },
    decreases statements.len() - from,
{
    let mut states: Seq<State> = seq![s];
    if from < statements.len() && s.block is Some {
        let next = statement_rule(c, s, &statements[from])->Ok_0.0;
        go_statement(c, s, &statements[from]);
        go_statements(c, next, statements, from + 1);
        let after = statements_from(c, s, statements, from)->Ok_0.0;
        assert(next.blocks.len() <= after.blocks.len()) by {
            reveal(goes);
        }
        assert(alive(next)) by {
            reveal(goes);
        }
        let inner = law_statements_follow_each_other(c, next, statements, from + 1, blocks);
        assert(alive(inner[0]) && stays(inner[0], blocks));
        lemma_stays(s, next, blocks);
        states = seq![s] + inner;
        assert(followed(c, s, &statements[from], next)) by {
            reveal(followed);
        }
        assert forall|k: int| 0 <= k < states.len() implies alive(#[trigger] states[k]) && stays(states[k], blocks) && (
        k < states.len() - 1 ==> followed(c, states[k], &statements[from + k], states[k + 1])) by {
            if k > 0 {
                assert(states[k] == inner[k - 1]);
                assert(statements[from + k] == statements[from + 1 + (k - 1)]);
            }
        }
        assert(states.last() == inner.last());
    }
    states
}

/// Whether a statement is what is lowered between two states.
#[verifier::opaque]
pub open spec fn followed(c: Context, s: State, statement: &Statement, after: State) -> bool {
    statement_rule(c, s, statement) == Ok::<(State, ()), &'static str>((after, ()))
}

proof fn lemma_parameters(c: Context, s: State, parameters: Seq<ParameterSignature>, from: int)
    ensures
        parameters_from(c, s, parameters, from) matches Ok((after, _)) ==> flat(s, after),
    decreases parameters.len() - from,
{
    lemma_steps();
    lemma_leaves(c);
    if 0 <= from < parameters.len() {
        if let TypeState::Resolved(ty) = parameters[from].ty {
            if let Ok(ty) = mapped(c, ty) {
                let name = Some(text_at(c.analysis.source, parameters[from].node.name.span));
                let (s1, local) = declare(s, ty, name, LocalOrigin::Parameter);
                assert(flat(s1, bind(s1, parameters[from].binding, local)));
                lemma_parameters(c, bind(s1, parameters[from].binding, local), parameters, from + 1);
            }
        }
    }
}

/// The body of a function is lowered from the block that the function starts in, and all of it stays in the code.
#[verifier::rlimit(40)]
pub proof fn law_function_bodies_stay(c: Context, s: State, signature: FunctionSignature) -> (begun: State)
    requires
        alive(s),
        body_rule(c, s, signature) matches Ok((after, _)) && fits(after),
    ensures
        body_rule(c, s, signature) matches Ok((after, start)) && begun.block == Some(start) && alive(begun) && (block_rule(
            c,
            begun,
            &signature.node.body,
        ) matches Ok((end, _)) && alive(end) && stays(end, after.blocks)),
{
    let (after, start) = body_rule(c, s, signature)->Ok_0;
    let body = &signature.node.body;
    lemma_steps();
    lemma_parameters(c, s, signature.parameters@, 0);
    let s1 = parameters_from(c, s, signature.parameters@, 0)->Ok_0.0;
    lemma_open(s1);
    let (s2, first) = open_block(s1);
    let begun = entered(s2, first);
    go_block(c, begun, body);
    let (end, expected) = block_rule(c, begun, body)->Ok_0;
    flat_completed(c, end, signature);
    if let Some(value) = &body.value {
        go_expression(c, end, value);
    }
    let valued = if end.block is None {
        Ok((end, None))
    } else {
        match &body.value {
            Some(value) => expression_rule(c, end, value),
            None => always(completed(c, end, signature)),
        }
    };
    let (s3, value) = valued->Ok_0;
    assert(goes(end, s3));
    if let Some(value) = value {
        lemma_finish(s3, TerminatorView::Return(value), body.span);
    }
    assert(goes(end, after));
    assert(begun.blocks.len() <= end.blocks.len() && end.blocks.len() <= after.blocks.len()) by {
        reveal(goes);
    }
    assert(alive(begun));
    assert(alive(end)) by {
        reveal(goes);
    }
    assert(stays(after, after.blocks));
    lemma_stays(end, after, after.blocks);
    begun
}

proof fn lemma_bodies<'a>(
    analysis: &'a Analysis<'a>,
    semantic: &'a SemanticResult,
    types: Seq<Option<TypeId>>,
    program: ProgramView,
    from: int,
    index: int,
) -> (laid: (Context<'a>, State))
    requires
        0 <= from <= analysis.function_signatures@.len(),
        program.functions.len() == analysis.function_signatures@.len(),
        0 <= index < analysis.function_signatures@.len(),
    ensures
        bodies_from(analysis, semantic, types, program, from) matches Ok(whole) ==> {
            &&& whole.functions.len() == program.functions.len()
            &&& index < from ==> whole.functions[index] == program.functions[index]
            &&& index >= from ==> laid.1.block is None && (body_rule(
                laid.0,
                laid.1,
                analysis.function_signatures@[index],
            ) matches Ok((after, start)) && whole.functions[index].entry == Some(start)
                && whole.functions[index].blocks == after.blocks) && laid.0.analysis == analysis && laid.0.semantic
                == semantic
        },
    decreases analysis.function_signatures@.len() - from,
{
    let mut laid: (Context<'a>, State) = (arbitrary(), arbitrary());
    if from < analysis.function_signatures@.len() {
        let signature = analysis.function_signatures@[from];
        let c = body_context(analysis, semantic, types, program, signature.id);
        let s = fresh(program.locations, program.failure_sites, analysis.bindings@.len());
        if let Ok((after, start)) = body_rule(c, s, signature) {
            let next = ProgramView {
                functions: program.functions.update(from, filled_function(program.functions[from], after, start)),
                locations: after.locations,
                failure_sites: after.failure_sites,
                ..program
            };
            let inner = lemma_bodies(analysis, semantic, types, next, from + 1, index);
            if index == from {
                laid = (c, s);
            } else {
                laid = inner;
            }
        }
    }
    laid
}

proof fn lemma_shell_count(analysis: &Analysis, types: Seq<Option<TypeId>>, from: int, done: Seq<FunctionView>)
    requires
        0 <= from <= analysis.function_signatures@.len(),
        done.len() == from,
    ensures
        shells_from(analysis, types, from, done) matches Ok(functions) ==> functions.len()
            == analysis.function_signatures@.len(),
    decreases analysis.function_signatures@.len() - from,
{
    if from < analysis.function_signatures@.len() {
        let signature = analysis.function_signatures@[from];
        if let TypeState::Resolved(ty) = signature.result {
            if let Ok(ty) = component(types, ty) {
                let name = text_at(analysis.source, signature.node.name.span);
                lemma_shell_count(analysis, types, from + 1, done.push(shell(name, ty)));
            }
        }
    }
}

/// Each function of a lowered program has the code that its body was lowered to.
pub proof fn law_functions_hold_their_bodies<'a>(
    analysis: &'a Analysis<'a>,
    semantic: &'a SemanticResult,
    result: Result<Program, LoweringError>,
    index: int,
) -> (laid: (Context<'a>, State))
    requires
        lowered(analysis, semantic, result),
        result is Ok,
        0 <= index < analysis.function_signatures@.len(),
    ensures
        result matches Ok(program) && {
            &&& laid.0.analysis == analysis
            &&& laid.0.semantic == semantic
            &&& alive(laid.1)
            &&& index < program.functions@.len()
            &&& body_rule(laid.0, laid.1, analysis.function_signatures@[index]) matches Ok((after, start))
            &&& fits(after)
            &&& program.functions@[index].entry == Some(start)
            &&& block_views(program.functions@[index].blocks@) == after.blocks
        },
{
    let view = assembled(analysis, semantic)->Ok_0;
    let Table { types, mapped: mapping } = types_from(analysis, no_types(analysis), 0)->Ok_0;
    let definitions = definitions_from(analysis, mapping, 0, seq![])->Ok_0;
    let functions = shells_from(analysis, mapping, 0, seq![])->Ok_0;
    let entry = start_rule(analysis, semantic)->Ok_0;
    let program = ProgramView {
        filename: analysis.source.path@,
        byte_len: analysis.source.bytes().len() as usize,
        types: with_nominals(types, analysis.type_definitions@.len() as int),
        definitions,
        functions,
        entry: Some(entry),
        locations: seq![],
        failure_sites: seq![],
    };
    assert(assembled(analysis, semantic) == bodies_from(analysis, semantic, mapping, program, 0));
    lemma_shell_count(analysis, mapping, 0, seq![]);
    let laid = lemma_bodies(analysis, semantic, mapping, program, 0, index);
    let program = result->Ok_0;
    assert(program_view(program) == view);
    assert(view.functions.len() == program.functions@.len());
    assert(view.functions[index] == function_view(program.functions@[index]));
    let blocks = program.functions@[index].blocks;
    assert(blocks.len() == blocks@.len());
    assert(block_views(blocks@).len() == blocks@.len());
    laid
}

} // verus!
