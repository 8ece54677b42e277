//! The walk through a program that resolves union syntax.

use crate::analysis::{
    BindingId, BindingNode, BindingType, CallTarget, ResolvedType, TypeId, TypeState, UnionAlternative,
    UnionStyle, alternative_payload, alternative_views, latest_fact,
};
use crate::ast::{
    Argument, ArgumentKind, AssignmentTarget, AssignmentTargetSuffix, AssignmentTargetSuffixKind, Block,
    ConditionalExpressionBranch, ConditionalStatementBranch, Expression, ExpressionBody, ExpressionBodyKind,
    ExpressionKind, MapEntry, PrimitiveType, Statement, StatementBody, StatementBodyKind, StatementKind,
    SwitchArm,
};
use crate::lowering::steps::source_text;
use crate::semantic::{SwitchArmResolution, SwitchResolution};
use crate::semantic::flow_validator::introduced;
use crate::semantic::union_rules::{Home, UnionState};
use crate::semantic::union_validator::{UnionValidator, arm_facts, holds_alternative};
use crate::semantic::union_walk_rules::{
    Coverage, Subject, alternative_title, argument_rule, arguments_rule, arm_opened, arm_rule, arms_rule,
    assigned_in_arms, assigned_in_body, assigned_in_branches, assigned_in_else, assigned_in_statement,
    assigned_in_statements, behind_arms, behind_assignment, behind_body, behind_branches, behind_else,
    block_rule, body_may_end, body_rule, branch_rule, branches_may_end, branches_rule, callee_rule,
    choice_body_rule, choice_rule, choices_rule, else_rule, entries_rule, entry_rule, expression_core_rule,
    expression_rule, expressions_rule, function_rule, functions_rule, local_settled, loose_arm_rule,
    loose_arms_rule, statement_may_end, statement_rule, statements_may_end, statements_rule, suffix_rule,
    suffixes_rule, switch_closed, switch_refused, switch_rule, target_rule, title_within, titles, type_title,
    uncovered,
};
use crate::source::Span;
use vstd::prelude::*;

verus! {

/// What the arms of a `switch` have been found to cover.
#[derive(Debug)]
pub struct Covered {
    pub alternatives: Vec<UnionAlternative>,
    pub arms: Vec<SwitchArmResolution>,
}

impl Covered {
    pub open spec fn view(&self) -> Coverage {
        Coverage { covered: alternative_views(self.alternatives@), arms: arm_facts(self.arms@) }
    }
}

/// What a `switch` is over.
#[derive(Debug)]
pub struct Operand {
    pub binding: Option<BindingId>,
    pub style: UnionStyle,
    pub alternatives: Vec<UnionAlternative>,
    pub outer: Vec<(BindingId, TypeId)>,
}

impl Operand {
    pub open spec fn view(&self) -> Subject {
        Subject {
            binding: self.binding,
            style: self.style,
            alternatives: alternative_views(self.alternatives@),
            outer: self.outer@,
        }
    }
}

fn holds_binding(bindings: &Vec<BindingId>, wanted: BindingId) -> (result: bool)
    ensures
        result == bindings@.contains(wanted),
{
    let mut index: usize = 0;
    while index < bindings.len()
        invariant
            index <= bindings@.len(),
            forall|i: int| 0 <= i < index ==> #[trigger] bindings@[i] != wanted,
        decreases bindings@.len() - index,
    {
        if bindings[index] == wanted {
            return true;
        }
        index += 1;
    }
    false
}

/// Whether control may get to the end of a body, by its shape alone.
#[verifier::spinoff_prover]
fn body_may_fall_through(body: &StatementBody) -> (result: bool)
    ensures
        result == body_may_end(body),
    decreases body, 0int,
{
    proof {
        reveal_with_fuel(body_may_end, 1);
    }
    match &body.kind {
        StatementBodyKind::Block(block) => statements_may_fall_through(&block.statements),
        StatementBodyKind::Statement(statement) => statement_may_fall_through(statement),
    }
}

#[verifier::spinoff_prover]
#[verifier::loop_isolation(false)]
fn statements_may_fall_through(statements: &Vec<Statement>) -> (result: bool)
    ensures
        result == statements_may_end(statements@, 0),
    decreases statements@, statements@.len() + 1,
{
    proof {
        reveal_with_fuel(statements_may_end, 1);
    }
    let mut index: usize = 0;
    while index < statements.len()
        invariant
            index <= statements@.len(),
            statements_may_end(statements@, index as int) == statements_may_end(statements@, 0),
        decreases statements@.len() - index,
    {
        if !statement_may_fall_through(&statements[index]) {
            return false;
        }
        index += 1;
    }
    true
}

#[verifier::spinoff_prover]
#[verifier::loop_isolation(false)]
fn branches_may_fall_through(branches: &Vec<ConditionalStatementBranch>) -> (result: bool)
    ensures
        result == branches_may_end(branches@, 0),
    decreases branches@, branches@.len() + 1,
{
    proof {
        reveal_with_fuel(branches_may_end, 1);
    }
    let mut index: usize = 0;
    while index < branches.len()
        invariant
            index <= branches@.len(),
            branches_may_end(branches@, index as int) == branches_may_end(branches@, 0),
        decreases branches@.len() - index,
    {
        if body_may_fall_through(&branches[index].body) {
            return true;
        }
        index += 1;
    }
    false
}

#[verifier::spinoff_prover]
fn statement_may_fall_through(statement: &Statement) -> (result: bool)
    ensures
        result == statement_may_end(statement),
    decreases statement, 0int,
{
    proof {
        reveal_with_fuel(statement_may_end, 1);
    }
    match &statement.kind {
        StatementKind::Return(_) | StatementKind::Break | StatementKind::Continue => false,
        StatementKind::Block(block) => statements_may_fall_through(&block.statements),
        StatementKind::If { branches, else_body: Some(else_body) } => branches_may_fall_through(branches)
            || body_may_fall_through(else_body),
        _ => true,
    }
}

impl<'a> UnionValidator<'a> {
    #[verifier::spinoff_prover]
    fn assigned_in_body(&self, body: &StatementBody, out: &mut Vec<BindingId>)
        ensures
            final(out)@ == assigned_in_body(self.context(), body, old(out)@),
        decreases body, 0int,
    {
        proof {
            reveal_with_fuel(assigned_in_body, 1);
        }
        match &body.kind {
            StatementBodyKind::Block(block) => self.assigned_in_statements(&block.statements, out),
            StatementBodyKind::Statement(statement) => self.assigned_in_statement(statement, out),
        }
    }

    #[verifier::spinoff_prover]
    fn assigned_in_else(&self, body: &Option<StatementBody>, out: &mut Vec<BindingId>)
        ensures
            final(out)@ == assigned_in_else(self.context(), body, old(out)@),
        decreases body, 0int,
    {
        proof {
            reveal_with_fuel(assigned_in_else, 1);
        }
        if let Some(body) = body {
            self.assigned_in_body(body, out);
        }
    }

    #[verifier::spinoff_prover]
    #[verifier::loop_isolation(false)]
    fn assigned_in_statements(&self, statements: &Vec<Statement>, out: &mut Vec<BindingId>)
        ensures
            final(out)@ == assigned_in_statements(self.context(), statements@, 0, old(out)@),
        decreases statements@, statements@.len() + 1,
    {
        proof {
            reveal_with_fuel(assigned_in_statements, 1);
        }
        let ghost whole = assigned_in_statements(self.context(), statements@, 0, out@);
        let mut index: usize = 0;
        while index < statements.len()
            invariant
                index <= statements@.len(),
                assigned_in_statements(self.context(), statements@, index as int, out@) == whole,
            decreases statements@.len() - index,
        {
            self.assigned_in_statement(&statements[index], out);
            index += 1;
        }
    }

    #[verifier::spinoff_prover]
    #[verifier::loop_isolation(false)]
    fn assigned_in_branches(&self, branches: &Vec<ConditionalStatementBranch>, out: &mut Vec<BindingId>)
        ensures
            final(out)@ == assigned_in_branches(self.context(), branches@, 0, old(out)@),
        decreases branches@, branches@.len() + 1,
    {
        proof {
            reveal_with_fuel(assigned_in_branches, 1);
        }
        let ghost whole = assigned_in_branches(self.context(), branches@, 0, out@);
        let mut index: usize = 0;
        while index < branches.len()
            invariant
                index <= branches@.len(),
                assigned_in_branches(self.context(), branches@, index as int, out@) == whole,
            decreases branches@.len() - index,
        {
            self.assigned_in_body(&branches[index].body, out);
            index += 1;
        }
    }

    #[verifier::spinoff_prover]
    #[verifier::loop_isolation(false)]
    fn assigned_in_arms(&self, arms: &Vec<SwitchArm>, out: &mut Vec<BindingId>)
        ensures
            final(out)@ == assigned_in_arms(self.context(), arms@, 0, old(out)@),
        decreases arms@, arms@.len() + 1,
    {
        proof {
            reveal_with_fuel(assigned_in_arms, 1);
        }
        let ghost whole = assigned_in_arms(self.context(), arms@, 0, out@);
        let mut index: usize = 0;
        while index < arms.len()
            invariant
                index <= arms@.len(),
                assigned_in_arms(self.context(), arms@, index as int, out@) == whole,
            decreases arms@.len() - index,
        {
            self.assigned_in_body(&arms[index].body, out);
            index += 1;
        }
    }

    #[verifier::spinoff_prover]
    fn assigned_in_statement(&self, statement: &Statement, out: &mut Vec<BindingId>)
        ensures
            final(out)@ == assigned_in_statement(self.context(), statement, old(out)@),
        decreases statement, 0int,
    {
        proof {
            reveal_with_fuel(assigned_in_statement, 1);
        }
        match &statement.kind {
            StatementKind::Assignment { target, .. } => {
                if target.suffixes.len() == 0 {
                    if let Some(binding) = self.bound(target.root.span) {
                        if !holds_binding(out, binding) {
                            out.push(binding);
                        }
                    }
                }
            },
            StatementKind::If { branches, else_body } => {
                self.assigned_in_branches(branches, out);
                self.assigned_in_else(else_body, out);
            },
            StatementKind::While { body, .. } => self.assigned_in_body(body, out),
            StatementKind::For { body, .. } => self.assigned_in_body(body, out),
            StatementKind::Switch { arms, else_body, .. } => {
                self.assigned_in_arms(arms, out);
                self.assigned_in_else(else_body, out);
            },
            StatementKind::Block(block) => self.assigned_in_statements(&block.statements, out),
            _ => {},
        }
    }

    /// The bindings that a body assigns to as a whole.
    fn direct_assignments(&self, body: &StatementBody) -> (result: Vec<BindingId>)
        ensures
            result@ == assigned_in_body(self.context(), body, seq![]),
    {
        let mut out: Vec<BindingId> = Vec::new();
        assert(out@ =~= seq![]);
        self.assigned_in_body(body, &mut out);
        out
    }

    fn leave_body(&mut self, body: &StatementBody)
        requires
            old(self).ready(),
        ensures
            final(self).continues(old(self)),
            final(self)@ == behind_body(old(self).context(), old(self)@, body),
    {
        proof {
            reveal(behind_body);
        }
        if body_may_fall_through(body) {
            let assigned = self.direct_assignments(body);
            self.remove_narrowings(&assigned);
        }
    }

    fn leave_else(&mut self, body: &Option<StatementBody>)
        requires
            old(self).ready(),
        ensures
            final(self).continues(old(self)),
            final(self)@ == behind_else(old(self).context(), old(self)@, body),
    {
        proof {
            reveal(behind_else);
        }
        if let Some(body) = body {
            self.leave_body(body);
        }
    }

    #[verifier::spinoff_prover]
    #[verifier::loop_isolation(false)]
    fn leave_branches(&mut self, branches: &Vec<ConditionalStatementBranch>)
        requires
            old(self).ready(),
        ensures
            final(self).continues(old(self)),
            final(self)@ == behind_branches(old(self).context(), old(self)@, branches@, 0),
    {
        proof {
            reveal_with_fuel(behind_branches, 1);
        }
        let ghost c = self.context();
        let ghost whole = behind_branches(c, self@, branches@, 0);
        let mut index: usize = 0;
        while index < branches.len()
            invariant
                index <= branches@.len(),
                self.continues(old(self)),
                self.context() == c,
                behind_branches(c, self@, branches@, index as int) == whole,
            decreases branches@.len() - index,
        {
            self.leave_body(&branches[index].body);
            index += 1;
        }
    }

    #[verifier::spinoff_prover]
    #[verifier::loop_isolation(false)]
    fn leave_arms(&mut self, arms: &Vec<SwitchArm>)
        requires
            old(self).ready(),
        ensures
            final(self).continues(old(self)),
            final(self)@ == behind_arms(old(self).context(), old(self)@, arms@, 0),
    {
        proof {
            reveal_with_fuel(behind_arms, 1);
        }
        let ghost c = self.context();
        let ghost whole = behind_arms(c, self@, arms@, 0);
        let mut index: usize = 0;
        while index < arms.len()
            invariant
                index <= arms@.len(),
                self.continues(old(self)),
                self.context() == c,
                behind_arms(c, self@, arms@, index as int) == whole,
            decreases arms@.len() - index,
        {
            self.leave_body(&arms[index].body);
            index += 1;
        }
    }

    #[verifier::spinoff_prover]
    #[verifier::loop_isolation(false)]
    fn statements(&mut self, home: Home, statements: &Vec<Statement>)
        requires
            old(self).ready(),
        ensures
            final(self).continues(old(self)),
            final(self)@ == statements_rule(old(self).context(), old(self)@, home, statements@, 0),
        decreases statements@, statements@.len() + 1,
    {
        proof {
            reveal_with_fuel(statements_rule, 1);
        }
        let ghost c = self.context();
        let ghost whole = statements_rule(c, self@, home, statements@, 0);
        let mut index: usize = 0;
        while index < statements.len()
            invariant
                index <= statements@.len(),
                self.continues(old(self)),
                self.context() == c,
                statements_rule(c, self@, home, statements@, index as int) == whole,
            decreases statements@.len() - index,
        {
            self.statement(home, &statements[index]);
            index += 1;
        }
    }

    #[verifier::spinoff_prover]
    #[verifier::loop_isolation(false)]
    fn suffixes(&mut self, home: Home, suffixes: &Vec<AssignmentTargetSuffix>)
        requires
            old(self).ready(),
        ensures
            final(self).continues(old(self)),
            final(self)@ == suffixes_rule(old(self).context(), old(self)@, home, suffixes@, 0),
        decreases suffixes@, suffixes@.len() + 1,
    {
        proof {
            reveal_with_fuel(suffixes_rule, 1);
        }
        let ghost c = self.context();
        let ghost whole = suffixes_rule(c, self@, home, suffixes@, 0);
        let mut index: usize = 0;
        while index < suffixes.len()
            invariant
                index <= suffixes@.len(),
                self.continues(old(self)),
                self.context() == c,
                suffixes_rule(c, self@, home, suffixes@, index as int) == whole,
            decreases suffixes@.len() - index,
        {
            self.suffix(home, &suffixes[index]);
            index += 1;
        }
    }

    #[verifier::spinoff_prover]
    #[verifier::loop_isolation(false)]
    fn loose_arms(&mut self, home: Home, arms: &Vec<SwitchArm>)
        requires
            old(self).ready(),
        ensures
            final(self).continues(old(self)),
            final(self)@ == loose_arms_rule(old(self).context(), old(self)@, home, arms@, 0),
        decreases arms@, arms@.len() + 1,
    {
        proof {
            reveal_with_fuel(loose_arms_rule, 1);
        }
        let ghost c = self.context();
        let ghost whole = loose_arms_rule(c, self@, home, arms@, 0);
        let mut index: usize = 0;
        while index < arms.len()
            invariant
                index <= arms@.len(),
                self.continues(old(self)),
                self.context() == c,
                loose_arms_rule(c, self@, home, arms@, index as int) == whole,
            decreases arms@.len() - index,
        {
            self.loose_arm(home, &arms[index]);
            index += 1;
        }
    }

    #[verifier::spinoff_prover]
    #[verifier::loop_isolation(false)]
    fn expressions(&mut self, home: Home, expressions: &Vec<Expression>)
        requires
            old(self).ready(),
        ensures
            final(self).continues(old(self)),
            final(self)@ == expressions_rule(old(self).context(), old(self)@, home, expressions@, 0),
        decreases expressions@, expressions@.len() + 1,
    {
        proof {
            reveal_with_fuel(expressions_rule, 1);
        }
        let ghost c = self.context();
        let ghost whole = expressions_rule(c, self@, home, expressions@, 0);
        let mut index: usize = 0;
        while index < expressions.len()
            invariant
                index <= expressions@.len(),
                self.continues(old(self)),
                self.context() == c,
                expressions_rule(c, self@, home, expressions@, index as int) == whole,
            decreases expressions@.len() - index,
        {
            let _ = self.expression(home, &expressions[index]);
            index += 1;
        }
    }

    #[verifier::spinoff_prover]
    #[verifier::loop_isolation(false)]
    fn entries(&mut self, home: Home, entries: &Vec<MapEntry>)
        requires
            old(self).ready(),
        ensures
            final(self).continues(old(self)),
            final(self)@ == entries_rule(old(self).context(), old(self)@, home, entries@, 0),
        decreases entries@, entries@.len() + 1,
    {
        proof {
            reveal_with_fuel(entries_rule, 1);
        }
        let ghost c = self.context();
        let ghost whole = entries_rule(c, self@, home, entries@, 0);
        let mut index: usize = 0;
        while index < entries.len()
            invariant
                index <= entries@.len(),
                self.continues(old(self)),
                self.context() == c,
                entries_rule(c, self@, home, entries@, index as int) == whole,
            decreases entries@.len() - index,
        {
            self.entry(home, &entries[index]);
            index += 1;
        }
    }

    #[verifier::spinoff_prover]
    #[verifier::loop_isolation(false)]
    fn arguments(&mut self, home: Home, arguments: &Vec<Argument>)
        requires
            old(self).ready(),
        ensures
            final(self).continues(old(self)),
            final(self)@ == arguments_rule(old(self).context(), old(self)@, home, arguments@, 0),
        decreases arguments@, arguments@.len() + 1,
    {
        proof {
            reveal_with_fuel(arguments_rule, 1);
        }
        let ghost c = self.context();
        let ghost whole = arguments_rule(c, self@, home, arguments@, 0);
        let mut index: usize = 0;
        while index < arguments.len()
            invariant
                index <= arguments@.len(),
                self.continues(old(self)),
                self.context() == c,
                arguments_rule(c, self@, home, arguments@, index as int) == whole,
            decreases arguments@.len() - index,
        {
            self.argument(home, &arguments[index]);
            index += 1;
        }
    }

    #[verifier::spinoff_prover]
    #[verifier::loop_isolation(false)]
    fn branches(&mut self, home: Home, outer: &Vec<(BindingId, TypeId)>, branches: &Vec<ConditionalStatementBranch>)
        requires
            old(self).ready(),
        ensures
            final(self).continues(old(self)),
            final(self)@ == branches_rule(old(self).context(), old(self)@, home, outer@, branches@, 0),
        decreases branches@, branches@.len() + 1,
    {
        proof {
            reveal_with_fuel(branches_rule, 1);
        }
        let ghost c = self.context();
        let ghost whole = branches_rule(c, self@, home, outer@, branches@, 0);
        let mut index: usize = 0;
        while index < branches.len()
            invariant
                index <= branches@.len(),
                self.continues(old(self)),
                self.context() == c,
                branches_rule(c, self@, home, outer@, branches@, index as int) == whole,
            decreases branches@.len() - index,
        {
            self.restore_narrowings(outer);
            self.branch(home, &branches[index]);
            index += 1;
        }
    }

    #[verifier::spinoff_prover]
    fn block(&mut self, home: Home, block: &Block)
        requires
            old(self).ready(),
        ensures
            final(self).continues(old(self)),
            final(self)@ == block_rule(old(self).context(), old(self)@, home, block),
        decreases block, 0int,
    {
        proof {
            reveal_with_fuel(block_rule, 1);
        }
        self.statements(home, &block.statements);
        if let Some(value) = &block.value {
            let _ = self.expression(home, value);
        }
    }

    #[verifier::spinoff_prover]
    fn body(&mut self, home: Home, body: &StatementBody)
        requires
            old(self).ready(),
        ensures
            final(self).continues(old(self)),
            final(self)@ == body_rule(old(self).context(), old(self)@, home, body),
        decreases body, 0int,
    {
        proof {
            reveal_with_fuel(body_rule, 1);
        }
        match &body.kind {
            StatementBodyKind::Block(block) => self.block(home, block),
            StatementBodyKind::Statement(statement) => self.statement(home, statement),
        }
    }

    #[verifier::spinoff_prover]
    fn else_part(&mut self, home: Home, body: &Option<StatementBody>)
        requires
            old(self).ready(),
        ensures
            final(self).continues(old(self)),
            final(self)@ == else_rule(old(self).context(), old(self)@, home, body),
        decreases body, 0int,
    {
        proof {
            reveal_with_fuel(else_rule, 1);
        }
        if let Some(body) = body {
            self.body(home, body);
        }
    }

    #[verifier::spinoff_prover]
    fn choice_body(&mut self, home: Home, body: &ExpressionBody)
        requires
            old(self).ready(),
        ensures
            final(self).continues(old(self)),
            final(self)@ == choice_body_rule(old(self).context(), old(self)@, home, body),
        decreases body, 0int,
    {
        proof {
            reveal_with_fuel(choice_body_rule, 1);
        }
        match &body.kind {
            ExpressionBodyKind::Block(block) => self.block(home, block),
            ExpressionBodyKind::Expression(expression) => {
                let _ = self.expression(home, expression);
            },
        }
    }

    #[verifier::spinoff_prover]
    fn suffix(&mut self, home: Home, suffix: &AssignmentTargetSuffix)
        requires
            old(self).ready(),
        ensures
            final(self).continues(old(self)),
            final(self)@ == suffix_rule(old(self).context(), old(self)@, home, suffix),
        decreases suffix, 0int,
    {
        proof {
            reveal_with_fuel(suffix_rule, 1);
        }
        if let AssignmentTargetSuffixKind::Index(index) = &suffix.kind {
            let _ = self.expression(home, index);
        }
    }

    #[verifier::spinoff_prover]
    fn target(&mut self, home: Home, target: &AssignmentTarget)
        requires
            old(self).ready(),
        ensures
            final(self).continues(old(self)),
            final(self)@ == target_rule(old(self).context(), old(self)@, home, target),
        decreases target, 0int,
    {
        proof {
            reveal_with_fuel(target_rule, 1);
        }
        self.suffixes(home, &target.suffixes);
        self.type_target(target);
    }

    #[verifier::spinoff_prover]
    fn branch(&mut self, home: Home, branch: &ConditionalStatementBranch)
        requires
            old(self).ready(),
        ensures
            final(self).continues(old(self)),
            final(self)@ == branch_rule(old(self).context(), old(self)@, home, branch),
        decreases branch, 0int,
    {
        proof {
            reveal_with_fuel(branch_rule, 1);
        }
        let _ = self.expression(home, &branch.condition);
        self.narrow_where(&branch.condition);
        self.body(home, &branch.body);
    }

    #[verifier::spinoff_prover]
    fn choice(&mut self, home: Home, branch: &ConditionalExpressionBranch)
        requires
            old(self).ready(),
        ensures
            final(self).continues(old(self)),
            final(self)@ == choice_rule(old(self).context(), old(self)@, home, branch),
        decreases branch, 0int,
    {
        proof {
            reveal_with_fuel(choice_rule, 1);
        }
        let _ = self.expression(home, &branch.condition);
        self.narrow_where(&branch.condition);
        self.choice_body(home, &branch.body);
    }

    #[verifier::spinoff_prover]
    fn loose_arm(&mut self, home: Home, arm: &SwitchArm)
        requires
            old(self).ready(),
        ensures
            final(self).continues(old(self)),
            final(self)@ == loose_arm_rule(old(self).context(), old(self)@, home, arm),
        decreases arm, 0int,
    {
        proof {
            reveal_with_fuel(loose_arm_rule, 1);
        }
        self.body(home, &arm.body);
    }

    #[verifier::spinoff_prover]
    fn entry(&mut self, home: Home, entry: &MapEntry)
        requires
            old(self).ready(),
        ensures
            final(self).continues(old(self)),
            final(self)@ == entry_rule(old(self).context(), old(self)@, home, entry),
        decreases entry, 0int,
    {
        proof {
            reveal_with_fuel(entry_rule, 1);
        }
        let _ = self.expression(home, &entry.key);
        let _ = self.expression(home, &entry.value);
    }

    #[verifier::spinoff_prover]
    fn argument(&mut self, home: Home, argument: &Argument)
        requires
            old(self).ready(),
        ensures
            final(self).continues(old(self)),
            final(self)@ == argument_rule(old(self).context(), old(self)@, home, argument),
        decreases argument, 0int,
    {
        proof {
            reveal_with_fuel(argument_rule, 1);
        }
        match &argument.kind {
            ArgumentKind::Positional(value) => {
                let _ = self.expression(home, value);
            },
            ArgumentKind::Named { value, .. } => {
                let _ = self.expression(home, value);
            },
        }
    }

    #[verifier::spinoff_prover]
    fn callee(&mut self, home: Home, callee: &Expression)
        requires
            old(self).ready(),
        ensures
            final(self).continues(old(self)),
            final(self)@ == callee_rule(old(self).context(), old(self)@, home, callee),
        decreases callee, 2int,
    {
        proof {
            reveal_with_fuel(callee_rule, 1);
        }
        match &callee.kind {
            ExpressionKind::Member { value, .. } => {
                let _ = self.expression(home, value);
            },
            ExpressionKind::Identifier(_) => {},
            _ => {
                if latest_fact(&self.analysis.expression_annotations, callee.span).is_some() {
                    let _ = self.expression(home, callee);
                }
            },
        }
    }

    #[verifier::spinoff_prover]
    #[verifier::loop_isolation(false)]
    fn choices(
        &mut self,
        home: Home,
        outer: &Vec<(BindingId, TypeId)>,
        branches: &Vec<ConditionalExpressionBranch>,
    ) -> (result: Vec<
        TypeState,
    >)
        requires
            old(self).ready(),
        ensures
            final(self).continues(old(self)),
            (final(self)@, result@) == choices_rule(
                old(self).context(),
                old(self)@,
                home,
                outer@,
                branches@,
                0,
                seq![],
            ),
        decreases branches@, branches@.len() + 1,
    {
        proof {
            reveal_with_fuel(choices_rule, 1);
        }
        let ghost c = self.context();
        let ghost whole = choices_rule(c, self@, home, outer@, branches@, 0, seq![]);
        let mut states: Vec<TypeState> = Vec::new();
        assert(states@ =~= seq![]);
        let mut index: usize = 0;
        while index < branches.len()
            invariant
                index <= branches@.len(),
                self.continues(old(self)),
                self.context() == c,
                choices_rule(c, self@, home, outer@, branches@, index as int, states@) == whole,
            decreases branches@.len() - index,
        {
            self.restore_narrowings(outer);
            self.choice(home, &branches[index]);
            states.push(self.body_state(&branches[index].body));
            index += 1;
        }
        states
    }

    #[verifier::spinoff_prover]
    fn open_arm(&mut self, operand: &Operand, arm: &SwitchArm, covered: Covered) -> (result: Covered)
        requires
            old(self).ready(),
        ensures
            final(self).continues(old(self)),
            (final(self)@, result@) == arm_opened(old(self).context(), old(self)@, operand@, arm, covered@),
    {
        proof {
            reveal(arm_opened);
        }
        let ghost before = covered@;
        let mut covered = covered;
        let selected = self.resolve_label(&arm.label, operand.style, &operand.alternatives);
        self.restore_narrowings(&operand.outer);
        if let Some(alternative) = selected {
            let payload = alternative_payload(&alternative);
            covered.arms.push(SwitchArmResolution { arm: arm.span, alternative: alternative.duplicate(), payload });
            assert(arm_facts(covered.arms@) =~= before.arms.push(
                crate::semantic::union_rules::ArmFact { arm: arm.span, alternative: alternative@, payload },
            ));
            if let Some(binding) = operand.binding {
                self.set_narrowing(binding, payload);
            }
            if holds_alternative(&covered.alternatives, &alternative) {
                self.object(arm.label.span, "switch alternative is covered more than once");
            } else {
                covered.alternatives.push(alternative);
                assert(alternative_views(covered.alternatives@) =~= before.covered.push(alternative@));
            }
        }
        covered
    }

    #[verifier::spinoff_prover]
    fn arm(&mut self, home: Home, operand: &Operand, arm: &SwitchArm, covered: Covered) -> (result: Covered)
        requires
            old(self).ready(),
        ensures
            final(self).continues(old(self)),
            (final(self)@, result@) == arm_rule(old(self).context(), old(self)@, home, operand@, arm, covered@),
        decreases arm, 0int,
    {
        proof {
            reveal_with_fuel(arm_rule, 1);
        }
        let covered = self.open_arm(operand, arm, covered);
        self.body(home, &arm.body);
        covered
    }

    #[verifier::spinoff_prover]
    #[verifier::loop_isolation(false)]
    fn arms(&mut self, home: Home, operand: &Operand, arms: &Vec<SwitchArm>) -> (result: Covered)
        requires
            old(self).ready(),
        ensures
            final(self).continues(old(self)),
            (final(self)@, result@) == arms_rule(
                old(self).context(),
                old(self)@,
                home,
                operand@,
                arms@,
                0,
                Coverage { covered: seq![], arms: seq![] },
            ),
        decreases arms@, arms@.len() + 1,
    {
        proof {
            reveal_with_fuel(arms_rule, 1);
        }
        let ghost c = self.context();
        let ghost whole = arms_rule(
            c,
            self@,
            home,
            operand@,
            arms@,
            0,
            Coverage { covered: seq![], arms: seq![] },
        );
        let mut covered = Covered { alternatives: Vec::new(), arms: Vec::new() };
        assert(covered@ =~= Coverage { covered: seq![], arms: seq![] });
        let mut index: usize = 0;
        while index < arms.len()
            invariant
                index <= arms@.len(),
                self.continues(old(self)),
                self.context() == c,
                arms_rule(c, self@, home, operand@, arms@, index as int, covered@) == whole,
            decreases arms@.len() - index,
        {
            covered = self.arm(home, operand, &arms[index], covered);
            index += 1;
        }
        covered
    }

    /// The name of a type.
    fn name_of_type(&self, ty: TypeId) -> (result: String)
        ensures
            result@ == type_title(self.context(), self@.types, ty),
    {
        self.name_within(ty, self.analysis.types.entries.len())
    }

    /// The name of a type whose components are nested at most `depth` deep.
    fn name_within(&self, ty: TypeId, depth: usize) -> (result: String)
        ensures
            result@ == title_within(self.context(), self@.types, ty, depth as nat),
        decreases depth,
    {
        let mut name = String::new();
        if ty.0 >= self.analysis.types.entries.len() {
            assert(name@ =~= seq![]);
            return name;
        }
        assert(self@.types[ty.0 as int] == self.analysis.types.entries@[ty.0 as int]@);
        match &self.analysis.types.entries[ty.0] {
            ResolvedType::Unit => "()".to_owned(),
            ResolvedType::Primitive(PrimitiveType::Int) => "int".to_owned(),
            ResolvedType::Primitive(PrimitiveType::Float) => "float".to_owned(),
            ResolvedType::Primitive(PrimitiveType::Str) => "str".to_owned(),
            ResolvedType::Primitive(PrimitiveType::Bool) => "bool".to_owned(),
            ResolvedType::Primitive(PrimitiveType::Char) => "char".to_owned(),
            ResolvedType::Nominal(declaration) => {
                if declaration.0 < self.analysis.type_definitions.len() {
                    source_text(&self.analysis, self.analysis.type_definitions[declaration.0].node.name.span)
                } else {
                    assert(name@ =~= seq![]);
                    name
                }
            },
            ResolvedType::List(element) => {
                if depth > 0 {
                    let inner = self.name_within(*element, depth - 1);
                    name.append("[");
                    name.append(inner.as_str());
                    name.append("]");
                    assert(name@ =~= "["@ + inner@ + "]"@);
                } else {
                    assert(name@ =~= seq![]);
                }
                name
            },
            ResolvedType::Mapping { key, value } => {
                if depth > 0 {
                    let key = self.name_within(*key, depth - 1);
                    let value = self.name_within(*value, depth - 1);
                    name.append("{");
                    name.append(key.as_str());
                    name.append(": ");
                    name.append(value.as_str());
                    name.append("}");
                    assert(name@ =~= "{"@ + key@ + ": "@ + value@ + "}"@);
                } else {
                    assert(name@ =~= seq![]);
                }
                name
            },
            ResolvedType::Union(_) => "union".to_owned(),
        }
    }

    /// The name of an alternative.
    fn alternative_name(&self, alternative: &UnionAlternative) -> (result: String)
        ensures
            result@ == alternative_title(self.context(), self@.types, alternative@),
    {
        match alternative {
            UnionAlternative::Tagged { tag, .. } => tag.clone(),
            UnionAlternative::Error(_) => "Error".to_owned(),
            UnionAlternative::Untagged(ty) => self.name_of_type(*ty),
        }
    }

    /// The names of alternatives, with commas between them.
    fn alternative_names(&self, alternatives: &Vec<UnionAlternative>) -> (result: String)
        ensures
            result@ == titles(
                self.context(),
                self@.types,
                alternative_views(alternatives@),
                alternatives@.len() as int,
            ),
    {
        let mut text = String::new();
        assert(text@ =~= seq![]);
        let mut index: usize = 0;
        while index < alternatives.len()
            invariant
                index <= alternatives@.len(),
                text@ == titles(self.context(), self@.types, alternative_views(alternatives@), index as int),
            decreases alternatives@.len() - index,
        {
            let ghost before = text@;
            let name = self.alternative_name(&alternatives[index]);
            assert(alternative_views(alternatives@)[index as int] == alternatives@[index as int]@);
            if index > 0 {
                text.append(", ");
                text.append(name.as_str());
                assert(text@ =~= before + ", "@ + name@);
            } else {
                text.append(name.as_str());
                assert(text@ =~= name@);
            }
            index += 1;
        }
        text
    }

    /// Notes a `switch` whose arms have been looked at.
    #[verifier::spinoff_prover]
    fn close_switch(
        &mut self,
        statement: Span,
        operand_union: TypeId,
        operand: &Operand,
        covered: Covered,
        else_body: Option<Span>,
    )
        requires
            old(self).ready(),
        ensures
            final(self).continues(old(self)),
            final(self)@ == switch_closed(
                old(self).context(),
                old(self)@,
                statement,
                operand_union,
                operand@,
                covered@,
                else_body,
            ),
    {
        proof {
            reveal(switch_closed);
        }
        let missing = missing_alternatives(&operand.alternatives, &covered.alternatives);
        match else_body {
            None => {
                if missing.len() > 0 {
                    let names = self.alternative_names(&missing);
                    let mut message = String::new();
                    message.append("non-exhaustive switch; missing: ");
                    message.append(names.as_str());
                    assert(message@ =~= "non-exhaustive switch; missing: "@ + names@);
                    self.object(statement, message.as_str());
                }
            },
            Some(body) => {
                if missing.len() == 0 {
                    self.caution(body);
                }
            },
        }
        let ghost middle = self@;
        let fact = SwitchResolution {
            statement,
            operand_union,
            binding: operand.binding,
            arms: covered.arms,
            covered: covered.alternatives,
            else_body,
            exhaustive: else_body.is_some() || missing.len() == 0,
        };
        self.switches.push(fact);
        assert(self@ =~= UnionState { switches: middle.switches.push(fact@), ..middle });
    }

    fn refuse_switch(&mut self, value: Span, state: TypeState)
        requires
            old(self).ready(),
        ensures
            final(self).continues(old(self)),
            final(self)@ == switch_refused(old(self).context(), old(self)@, value, state),
    {
        proof {
            reveal(switch_refused);
        }
        if state != TypeState::Error && state != TypeState::Never {
            self.object(value, "switch operand must have a union type");
        }
    }

    #[verifier::spinoff_prover]
    fn switch(&mut self, home: Home, statement: &Statement)
        requires
            old(self).ready(),
        ensures
            final(self).continues(old(self)),
            final(self)@ == switch_rule(old(self).context(), old(self)@, home, statement),
        decreases statement, 0int,
    {
        proof {
            reveal_with_fuel(switch_rule, 1);
        }
        if let StatementKind::Switch { value, arms, else_body } = &statement.kind {
            let _ = self.expression(home, value);
            let state = self.state(value.span);
            match self.union_parts(state) {
                None => {
                    self.refuse_switch(value.span, state);
                    self.loose_arms(home, arms);
                    self.else_part(home, else_body);
                    self.settle_statement(statement.span);
                },
                Some((operand_union, style, alternatives)) => {
                    let operand = Operand {
                        binding: self.exact_binding(value),
                        style,
                        alternatives,
                        outer: self.narrowings(),
                    };
                    let covered = self.arms(home, &operand, arms);
                    self.restore_narrowings(&operand.outer);
                    self.else_part(home, else_body);
                    let else_span = match else_body {
                        Some(body) => Some(body.span),
                        None => None,
                    };
                    self.close_switch(statement.span, operand_union, &operand, covered, else_span);
                    self.settle_statement(statement.span);
                    self.restore_narrowings(&operand.outer);
                    self.leave_arms(arms);
                    self.leave_else(else_body);
                },
            }
        }
    }

    fn settle_local(&mut self, statement: Span, state: TypeState)
        requires
            old(self).ready(),
        ensures
            final(self).continues(old(self)),
            final(self)@ == local_settled(old(self).context(), old(self)@, statement, state),
    {
        proof {
            reveal(local_settled);
        }
        if let Some(binding) = introduced(&self.analysis, BindingNode::Local(statement)) {
            let resolved = match state {
                TypeState::Resolved(_) => true,
                _ => false,
            };
            if binding.0 < self.analysis.binding_types.len() && resolved {
                if let TypeState::Deferred(_) = self.analysis.binding_types[binding.0].state {
                    let kept = self.analysis.binding_types[binding.0].binding;
                    self.analysis.binding_types.set(binding.0, BindingType { binding: kept, state });
                }
            }
        }
        assert(self@ =~= local_settled(old(self).context(), old(self)@, statement, state));
    }

    fn leave_assignment(&mut self, target: &AssignmentTarget)
        requires
            old(self).ready(),
        ensures
            final(self).continues(old(self)),
            final(self)@ == behind_assignment(old(self).context(), old(self)@, target),
    {
        proof {
            reveal(behind_assignment);
        }
        if target.suffixes.len() == 0 {
            if let Some(binding) = self.bound(target.root.span) {
                self.remove_narrowing(binding);
            }
        }
    }

    #[verifier::spinoff_prover]
    fn statement(&mut self, home: Home, statement: &Statement)
        requires
            old(self).ready(),
        ensures
            final(self).continues(old(self)),
            final(self)@ == statement_rule(old(self).context(), old(self)@, home, statement),
        decreases statement, 1int,
    {
        proof {
            reveal_with_fuel(statement_rule, 1);
        }
        match &statement.kind {
            StatementKind::Local { initializer, .. } => {
                let state = self.expression(home, initializer);
                self.settle_local(statement.span, state);
            },
            StatementKind::Assignment { target, value, .. } => {
                self.target(home, target);
                let _ = self.expression(home, value);
                self.leave_assignment(target);
            },
            StatementKind::Expression(expression) => {
                let _ = self.expression(home, expression);
            },
            StatementKind::Return(value) => {
                if let Some(value) = value {
                    let _ = self.expression(home, value);
                    self.validate_result_value(home, value);
                }
            },
            StatementKind::Break | StatementKind::Continue => {},
            StatementKind::If { branches, else_body } => {
                let outer = self.narrowings();
                self.branches(home, &outer, branches);
                self.restore_narrowings(&outer);
                self.else_part(home, else_body);
                self.restore_narrowings(&outer);
                self.leave_branches(branches);
                self.leave_else(else_body);
            },
            StatementKind::While { condition, body } => {
                let _ = self.expression(home, condition);
                let outer = self.narrowings();
                self.narrow_where(condition);
                self.body(home, body);
                let assigned = self.direct_assignments(body);
                self.restore_narrowings(&outer);
                self.remove_narrowings(&assigned);
            },
            StatementKind::For { iterable, body, .. } => {
                let _ = self.expression(home, iterable);
                let assigned = self.direct_assignments(body);
                self.body(home, body);
                self.remove_narrowings(&assigned);
            },
            StatementKind::Switch { .. } => self.switch(home, statement),
            StatementKind::Block(block) => self.block(home, block),
        }
    }

    #[verifier::spinoff_prover]
    fn expression(&mut self, home: Home, e: &Expression) -> (result: TypeState)
        requires
            old(self).ready(),
        ensures
            final(self).continues(old(self)),
            (final(self)@, result) == expression_rule(old(self).context(), old(self)@, home, e),
        decreases e, 1int,
    {
        proof {
            reveal_with_fuel(expression_rule, 1);
        }
        self.expression_core(home, e);
        self.state(e.span)
    }

    #[verifier::spinoff_prover]
    fn expression_core(&mut self, home: Home, e: &Expression)
        requires
            old(self).ready(),
        ensures
            final(self).continues(old(self)),
            final(self)@ == expression_core_rule(old(self).context(), old(self)@, home, e),
        decreases e, 0int,
    {
        proof {
            reveal_with_fuel(expression_core_rule, 1);
        }
        match &e.kind {
            ExpressionKind::Identifier(identifier) => self.type_name_use(e.span, identifier.span),
            ExpressionKind::Parenthesized(inner) => {
                let state = self.expression(home, inner);
                self.replace_if_changed(e.span, state);
            },
            ExpressionKind::Conversion { operand, .. } => {
                let _ = self.expression(home, operand);
            },
            ExpressionKind::Unary { operator, operand, .. } => {
                let state = self.expression(home, operand);
                self.type_unary(e.span, *operator, state);
            },
            ExpressionKind::Try { value, operator_span } => {
                let state = self.expression(home, value);
                self.resolve_try(home, e.span, *operator_span, state);
            },
            ExpressionKind::List(elements) => {
                self.expressions(home, elements);
                self.type_list(e.span, elements);
            },
            ExpressionKind::Mapping(entries) => {
                self.entries(home, entries);
                self.type_mapping(e.span, entries);
            },
            ExpressionKind::Block(block) => {
                self.block(home, block);
                let state = self.block_state(block);
                self.replace_if_changed(e.span, state);
            },
            ExpressionKind::If { branches, else_branch } => {
                let outer = self.narrowings();
                let mut states = self.choices(home, &outer, branches);
                self.restore_narrowings(&outer);
                self.choice_body(home, else_branch);
                states.push(self.body_state(else_branch));
                self.restore_narrowings(&outer);
                self.type_choice(e.span, &states);
            },
            ExpressionKind::Binary { left, operator, right, .. } => {
                let first = self.expression(home, left);
                let second = self.expression(home, right);
                self.type_binary(e.span, *operator, first, second);
            },
            ExpressionKind::Is { value, ty, .. } => {
                let _ = self.expression(home, value);
                self.type_test(e.span, value, ty);
            },
            ExpressionKind::Call { callee, arguments } => {
                let qualified = match self.target_of(e.span) {
                    Some(CallTarget::QualifiedConstructor(_)) => true,
                    _ => false,
                };
                if !qualified {
                    self.callee(home, callee);
                }
                self.arguments(home, arguments);
                self.type_call(e.span, callee, arguments);
            },
            ExpressionKind::Index { value, index } => {
                let _ = self.expression(home, value);
                let _ = self.expression(home, index);
                self.type_index(e.span, value.span, index.span);
            },
            ExpressionKind::Member { value, member } => {
                let _ = self.expression(home, value);
                self.type_member(e.span, value.span, *member);
            },
            _ => {},
        }
    }

    fn function(&mut self, index: usize)
        requires
            old(self).ready(),
            index < old(self).analysis.function_signatures@.len(),
        ensures
            final(self).continues(old(self)),
            final(self)@ == function_rule(
                old(self).context(),
                old(self)@,
                old(self).analysis.function_signatures@[index as int],
            ),
    {
        proof {
            reveal(function_rule);
        }
        let node = self.analysis.function_signatures[index].node;
        let home = Home {
            function: self.analysis.function_signatures[index].id,
            name: node.name.span,
            result: self.analysis.function_signatures[index].result,
        };
        let none: Vec<(BindingId, TypeId)> = Vec::new();
        assert(none@ =~= seq![]);
        self.restore_narrowings(&none);
        self.block(home, &node.body);
        if let Some(value) = &node.body.value {
            self.validate_result_value(home, value);
        }
    }

    /// Resolves the union syntax of every function.
    #[verifier::loop_isolation(false)]
    pub fn functions(&mut self)
        requires
            old(self).ready(),
        ensures
            final(self).continues(old(self)),
            final(self)@ == functions_rule(old(self).context(), old(self)@, 0),
    {
        let ghost c = self.context();
        let ghost whole = functions_rule(c, self@, 0);
        let mut index: usize = 0;
        while index < self.analysis.function_signatures.len()
            invariant
                index <= c.signatures.len(),
                self.continues(old(self)),
                self.context() == c,
                functions_rule(c, self@, index as int) == whole,
            decreases c.signatures.len() - index,
        {
            self.function(index);
            index += 1;
        }
    }
}

/// The alternatives that are not covered.
fn missing_alternatives(
    alternatives: &Vec<UnionAlternative>,
    covered: &Vec<UnionAlternative>,
) -> (result: Vec<UnionAlternative>)
    ensures
        alternative_views(result@) == uncovered(
            alternative_views(alternatives@),
            alternative_views(covered@),
            alternatives@.len() as int,
        ),
{
    let mut missing: Vec<UnionAlternative> = Vec::new();
    assert(alternative_views(missing@) =~= seq![]);
    let mut index: usize = 0;
    while index < alternatives.len()
        invariant
            index <= alternatives@.len(),
            alternative_views(missing@) == uncovered(
                alternative_views(alternatives@),
                alternative_views(covered@),
                index as int,
            ),
        decreases alternatives@.len() - index,
    {
        let ghost before = alternative_views(missing@);
        assert(alternative_views(alternatives@)[index as int] == alternatives@[index as int]@);
        if !holds_alternative(covered, &alternatives[index]) {
            missing.push(alternatives[index].duplicate());
            assert(alternative_views(missing@) =~= before.push(alternatives@[index as int]@));
        }
        index += 1;
    }
    missing
}

} // verus!
