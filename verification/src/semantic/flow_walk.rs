//! The walk through a program that finds its flow.

use crate::analysis::{FunctionId, TypeState};
use crate::ast::{
    Argument, ArgumentKind, AssignmentTarget, AssignmentTargetSuffix, AssignmentTargetSuffixKind,
    BinaryOperator, Block, ConditionalExpressionBranch, ConditionalStatementBranch, Expression, ExpressionBody,
    ExpressionBodyKind, ExpressionKind, MapEntry, Statement, StatementBody, StatementBodyKind, StatementKind,
    SwitchArm,
};
use crate::semantic::{DeferredFlowKind, FlowSubject, FunctionCompletion};
use crate::semantic::flow::{FallthroughKind, FlowSummary, fallthrough_flow, flow_views};
use crate::semantic::flow_rules::{
    CompletionView, FlowState, Progress, argument_flow, arguments_flow, arm_flow, arms_flow, at_start,
    block_flow, branch_flow, branches_flow, choice_flow, choices_flow, else_flow, ended, entries_flow,
    entry_flow, expression_body_flow, expression_core_flow, expression_flow, expressions_flow, functions_flow,
    statement_body_flow, statement_core_flow, statement_flow, statements_flow, suffix_flow, suffixes_flow,
    target_flow, value_flow,
};
use crate::semantic::flow_validator::{FlowValidator, diverged, looped, optional_alternative, returned};
use crate::source::Span;
use vstd::prelude::*;

verus! {

impl<'a> FlowValidator<'a> {
    #[verifier::loop_isolation(false)]
    #[verifier::spinoff_prover]
    fn block(&mut self, function: (FunctionId, TypeState), block: &Block) -> (result: FlowSummary)
        requires
            old(self).ready(),
        ensures
            final(self).continues(old(self)),
            (final(self)@, result@) == block_flow(old(self).context(), old(self)@, function, block),
        decreases block, 0int,
    {
        proof {
            reveal_with_fuel(block_flow, 1);
            reveal_with_fuel(statements_flow, 1);
        }
        let ghost c = self.context();
        let mut flow = FlowSummary::falling_through();
        let mut unreachable = false;
        let mut pending: Vec<Span> = Vec::new();
        let mut index: usize = 0;
        let ghost whole = statements_flow(c, self@, function, block.statements@, 0, at_start());
        while index < block.statements.len()
            invariant
                index <= block.statements@.len(),
                self.continues(old(self)),
                self.context() == c,
                statements_flow(
                    c,
                    self@,
                    function,
                    block.statements@,
                    index as int,
                    (Progress { flow: flow@, unreachable, pending: pending@ }),
                ) == whole,
            decreases block.statements@.len() - index,
        {
            let statement = &block.statements[index];
            let next = self.statement(function, statement);
            let advance = self.advance(
                flow,
                unreachable,
                pending,
                FlowSubject::Statement(statement.span),
                statement.span,
                next,
            );
            flow = advance.0;
            unreachable = advance.1;
            pending = advance.2;
            index += 1;
        }
        if let Some(value) = &block.value {
            let next = self.expression(function, value);
            let advance = self.advance(
                flow,
                unreachable,
                pending,
                FlowSubject::Expression(value.span),
                value.span,
                next,
            );
            flow = advance.0;
        }
        self.note(FlowSubject::Block(block.span), &flow);
        flow
    }

    #[verifier::spinoff_prover]
    fn statement_body(&mut self, function: (FunctionId, TypeState), body: &StatementBody) -> (result: FlowSummary)
        requires
            old(self).ready(),
        ensures
            final(self).continues(old(self)),
            (final(self)@, result@) == statement_body_flow(old(self).context(), old(self)@, function, body),
        decreases body, 0int,
    {
        proof {
            reveal_with_fuel(statement_body_flow, 1);
        }
        let flow = match &body.kind {
            StatementBodyKind::Block(block) => self.block(function, block),
            StatementBodyKind::Statement(statement) => self.statement(function, statement),
        };
        self.note(FlowSubject::StatementBody(body.span), &flow);
        flow
    }

    #[verifier::spinoff_prover]
    fn expression_body(&mut self, function: (FunctionId, TypeState), body: &ExpressionBody) -> (result: FlowSummary)
        requires
            old(self).ready(),
        ensures
            final(self).continues(old(self)),
            (final(self)@, result@) == expression_body_flow(old(self).context(), old(self)@, function, body),
        decreases body, 0int,
    {
        proof {
            reveal_with_fuel(expression_body_flow, 1);
        }
        let flow = match &body.kind {
            ExpressionBodyKind::Block(block) => self.block(function, block),
            ExpressionBodyKind::Expression(expression) => self.expression(function, expression),
        };
        self.note(FlowSubject::ExpressionBody(body.span), &flow);
        flow
    }

    #[verifier::spinoff_prover]
    fn statement(&mut self, function: (FunctionId, TypeState), statement: &Statement) -> (result: FlowSummary)
        requires
            old(self).ready(),
        ensures
            final(self).continues(old(self)),
            (final(self)@, result@) == statement_flow(old(self).context(), old(self)@, function, statement),
        decreases statement, 1int,
    {
        proof {
            reveal_with_fuel(statement_flow, 1);
        }
        let flow = self.statement_core(function, statement);
        self.note(FlowSubject::Statement(statement.span), &flow);
        flow
    }

    #[verifier::spinoff_prover]
    fn statement_core(&mut self, function: (FunctionId, TypeState), statement: &Statement) -> (result: FlowSummary)
        requires
            old(self).ready(),
        ensures
            final(self).continues(old(self)),
            (final(self)@, result@) == statement_core_flow(old(self).context(), old(self)@, function, statement),
        decreases statement, 0int,
    {
        proof {
            reveal_with_fuel(statement_core_flow, 1);
        }
        match &statement.kind {
            StatementKind::Local { initializer, .. } => {
                let flow = self.expression(function, initializer);
                self.type_local(statement.span, initializer.span);
                flow
            },
            StatementKind::Assignment { target, value, .. } => {
                let flow = self.target(function, target);
                let next = self.expression(function, value);
                flow.followed_by(next)
            },
            StatementKind::Expression(expression) => self.expression(function, expression),
            StatementKind::Return(value) => {
                let span = match value {
                    Some(value) => Some(value.span),
                    None => None,
                };
                self.note_return(function, statement.span, span);
                let evaluated = self.value(function, value);
                returned(evaluated)
            },
            StatementKind::Break => self.control(true, statement.span),
            StatementKind::Continue => self.control(false, statement.span),
            StatementKind::If { branches, else_body } => {
                let (remaining, mut alternatives) = self.branches(function, branches);
                let ghost before = flow_views(alternatives@);
                let last = match self.else_part(function, else_body) {
                    Some(other) => remaining.followed_by(other),
                    None => remaining,
                };
                alternatives.push(last);
                assert(flow_views(alternatives@) =~= before.push(last@));
                FlowSummary::alternatives(&alternatives)
            },
            StatementKind::While { condition, body } => {
                let head = self.expression(function, condition);
                self.enter_loop(statement.span);
                let inner = self.statement_body(function, body);
                self.leave_loop();
                looped(head, &inner)
            },
            StatementKind::For { iterable, body, .. } => {
                let head = self.expression(function, iterable);
                self.enter_loop(statement.span);
                let inner = self.statement_body(function, body);
                self.leave_loop();
                looped(head, &inner)
            },
            StatementKind::Switch { value, arms, else_body } => {
                let head = self.expression(function, value);
                let mut alternatives = self.arms(function, arms);
                let ghost before = flow_views(alternatives@);
                match self.else_part(function, else_body) {
                    Some(other) => {
                        alternatives.push(other);
                        assert(flow_views(alternatives@) =~= before.push(other@));
                    },
                    None => {
                        if !self.switch_is_exhaustive(statement.span) {
                            let mut switches: Vec<Span> = Vec::new();
                            switches.push(statement.span);
                            assert(switches@ =~= seq![statement.span]);
                            let open = FlowSummary::dependent(switches);
                            alternatives.push(open);
                            assert(flow_views(alternatives@) =~= before.push(open@));
                        }
                    },
                }
                head.followed_by(FlowSummary::alternatives(&alternatives))
            },
            StatementKind::Block(block) => self.block(function, block),
        }
    }

    #[verifier::spinoff_prover]
    fn target(&mut self, function: (FunctionId, TypeState), target: &AssignmentTarget) -> (result: FlowSummary)
        requires
            old(self).ready(),
        ensures
            final(self).continues(old(self)),
            (final(self)@, result@) == target_flow(old(self).context(), old(self)@, function, target),
        decreases target, 0int,
    {
        proof {
            reveal_with_fuel(target_flow, 1);
        }
        self.suffixes(function, &target.suffixes, FlowSummary::falling_through())
    }

    #[verifier::spinoff_prover]
    fn suffix(
        &mut self,
        function: (FunctionId, TypeState),
        suffix: &AssignmentTargetSuffix,
        flow: FlowSummary,
    ) -> (result: FlowSummary)
        requires
            old(self).ready(),
        ensures
            final(self).continues(old(self)),
            (final(self)@, result@) == suffix_flow(old(self).context(), old(self)@, function, suffix, flow@),
        decreases suffix, 0int,
    {
        proof {
            reveal_with_fuel(suffix_flow, 1);
        }
        match &suffix.kind {
            AssignmentTargetSuffixKind::Index(index) => {
                let next = self.expression(function, index);
                flow.followed_by(next)
            },
            AssignmentTargetSuffixKind::Member(_) => flow,
        }
    }

    #[verifier::spinoff_prover]
    fn else_part(
        &mut self,
        function: (FunctionId, TypeState),
        body: &Option<StatementBody>,
    ) -> (result: Option<FlowSummary>)
        requires
            old(self).ready(),
        ensures
            final(self).continues(old(self)),
            ({
                let (s, flow) = else_flow(old(self).context(), old(self)@, function, body);
                &&& final(self)@ == s
                &&& match result {
                    Some(result) => flow == Some(result@),
                    None => flow is None,
                }
            }),
        decreases body, 0int,
    {
        proof {
            reveal_with_fuel(else_flow, 1);
        }
        match body {
            Some(body) => Some(self.statement_body(function, body)),
            None => None,
        }
    }

    #[verifier::spinoff_prover]
    fn value(&mut self, function: (FunctionId, TypeState), value: &Option<Expression>) -> (result: FlowSummary)
        requires
            old(self).ready(),
        ensures
            final(self).continues(old(self)),
            (final(self)@, result@) == value_flow(old(self).context(), old(self)@, function, value),
        decreases value, 0int,
    {
        proof {
            reveal_with_fuel(value_flow, 1);
        }
        match value {
            Some(value) => self.expression(function, value),
            None => FlowSummary::falling_through(),
        }
    }

    #[verifier::loop_isolation(false)]
    #[verifier::spinoff_prover]
    fn branches(
        &mut self,
        function: (FunctionId, TypeState),
        branches: &Vec<ConditionalStatementBranch>,
    ) -> (result: (FlowSummary, Vec<FlowSummary>))
        requires
            old(self).ready(),
        ensures
            final(self).continues(old(self)),
            (final(self)@, result.0@, flow_views(result.1@)) == branches_flow(
                old(self).context(),
                old(self)@,
                function,
                branches@,
                0,
                fallthrough_flow(),
                seq![],
            ),
        decreases branches@, branches@.len() + 1,
    {
        proof {
            reveal_with_fuel(branches_flow, 1);
        }
        let ghost c = self.context();
        let ghost whole = branches_flow(c, self@, function, branches@, 0, fallthrough_flow(), seq![]);
        let mut remaining = FlowSummary::falling_through();
        let mut alternatives: Vec<FlowSummary> = Vec::new();
        assert(flow_views(alternatives@) =~= seq![]);
        let mut index: usize = 0;
        while index < branches.len()
            invariant
                index <= branches@.len(),
                self.continues(old(self)),
                self.context() == c,
                branches_flow(
                    c,
                    self@,
                    function,
                    branches@,
                    index as int,
                    remaining@,
                    flow_views(alternatives@),
                ) == whole,
            decreases branches@.len() - index,
        {
            let ghost before = flow_views(alternatives@);
            let (condition, body) = self.branch(function, &branches[index]);
            remaining = remaining.followed_by(condition);
            let taken = remaining.duplicate().followed_by(body);
            alternatives.push(taken);
            assert(flow_views(alternatives@) =~= before.push(taken@));
            index += 1;
        }
        (remaining, alternatives)
    }

    #[verifier::spinoff_prover]
    fn branch(
        &mut self,
        function: (FunctionId, TypeState),
        branch: &ConditionalStatementBranch,
    ) -> (result: (FlowSummary, FlowSummary))
        requires
            old(self).ready(),
        ensures
            final(self).continues(old(self)),
            (final(self)@, result.0@, result.1@) == branch_flow(old(self).context(), old(self)@, function, branch),
        decreases branch, 0int,
    {
        proof {
            reveal_with_fuel(branch_flow, 1);
        }
        let condition = self.expression(function, &branch.condition);
        let body = self.statement_body(function, &branch.body);
        (condition, body)
    }

    #[verifier::loop_isolation(false)]
    #[verifier::spinoff_prover]
    fn choices(
        &mut self,
        function: (FunctionId, TypeState),
        branches: &Vec<ConditionalExpressionBranch>,
    ) -> (result: (FlowSummary, Vec<FlowSummary>))
        requires
            old(self).ready(),
        ensures
            final(self).continues(old(self)),
            (final(self)@, result.0@, flow_views(result.1@)) == choices_flow(
                old(self).context(),
                old(self)@,
                function,
                branches@,
                0,
                fallthrough_flow(),
                seq![],
            ),
        decreases branches@, branches@.len() + 1,
    {
        proof {
            reveal_with_fuel(choices_flow, 1);
        }
        let ghost c = self.context();
        let ghost whole = choices_flow(c, self@, function, branches@, 0, fallthrough_flow(), seq![]);
        let mut remaining = FlowSummary::falling_through();
        let mut alternatives: Vec<FlowSummary> = Vec::new();
        assert(flow_views(alternatives@) =~= seq![]);
        let mut index: usize = 0;
        while index < branches.len()
            invariant
                index <= branches@.len(),
                self.continues(old(self)),
                self.context() == c,
                choices_flow(
                    c,
                    self@,
                    function,
                    branches@,
                    index as int,
                    remaining@,
                    flow_views(alternatives@),
                ) == whole,
            decreases branches@.len() - index,
        {
            let ghost before = flow_views(alternatives@);
            let (condition, body) = self.choice(function, &branches[index]);
            remaining = remaining.followed_by(condition);
            let taken = remaining.duplicate().followed_by(body);
            alternatives.push(taken);
            assert(flow_views(alternatives@) =~= before.push(taken@));
            index += 1;
        }
        (remaining, alternatives)
    }

    #[verifier::spinoff_prover]
    fn choice(
        &mut self,
        function: (FunctionId, TypeState),
        branch: &ConditionalExpressionBranch,
    ) -> (result: (FlowSummary, FlowSummary))
        requires
            old(self).ready(),
        ensures
            final(self).continues(old(self)),
            (final(self)@, result.0@, result.1@) == choice_flow(old(self).context(), old(self)@, function, branch),
        decreases branch, 0int,
    {
        proof {
            reveal_with_fuel(choice_flow, 1);
        }
        let condition = self.expression(function, &branch.condition);
        let body = self.expression_body(function, &branch.body);
        (condition, body)
    }

    #[verifier::loop_isolation(false)]
    #[verifier::spinoff_prover]
    fn arms(&mut self, function: (FunctionId, TypeState), arms: &Vec<SwitchArm>) -> (result: Vec<FlowSummary>)
        requires
            old(self).ready(),
        ensures
            final(self).continues(old(self)),
            (final(self)@, flow_views(result@)) == arms_flow(
                old(self).context(),
                old(self)@,
                function,
                arms@,
                0,
                seq![],
            ),
        decreases arms@, arms@.len() + 1,
    {
        proof {
            reveal_with_fuel(arms_flow, 1);
        }
        let ghost c = self.context();
        let ghost whole = arms_flow(c, self@, function, arms@, 0, seq![]);
        let mut alternatives: Vec<FlowSummary> = Vec::new();
        assert(flow_views(alternatives@) =~= seq![]);
        let mut index: usize = 0;
        while index < arms.len()
            invariant
                index <= arms@.len(),
                self.continues(old(self)),
                self.context() == c,
                arms_flow(c, self@, function, arms@, index as int, flow_views(alternatives@)) == whole,
            decreases arms@.len() - index,
        {
            let ghost before = flow_views(alternatives@);
            let flow = self.arm(function, &arms[index]);
            alternatives.push(flow);
            assert(flow_views(alternatives@) =~= before.push(flow@));
            index += 1;
        }
        alternatives
    }

    #[verifier::spinoff_prover]
    fn arm(&mut self, function: (FunctionId, TypeState), arm: &SwitchArm) -> (result: FlowSummary)
        requires
            old(self).ready(),
        ensures
            final(self).continues(old(self)),
            (final(self)@, result@) == arm_flow(old(self).context(), old(self)@, function, arm),
        decreases arm, 0int,
    {
        proof {
            reveal_with_fuel(arm_flow, 1);
        }
        let flow = self.statement_body(function, &arm.body);
        self.note(FlowSubject::SwitchArm(arm.span), &flow);
        flow
    }

    /// The suffixes of an assignment target.
    #[verifier::loop_isolation(false)]
    #[verifier::spinoff_prover]
    fn suffixes(
        &mut self,
        function: (FunctionId, TypeState),
        suffixes: &Vec<AssignmentTargetSuffix>,
        flow: FlowSummary,
    ) -> (result: FlowSummary)
        requires
            old(self).ready(),
        ensures
            final(self).continues(old(self)),
            (final(self)@, result@) == suffixes_flow(old(self).context(), old(self)@, function, suffixes@, 0, flow@),
        decreases suffixes@, suffixes@.len() + 1,
    {
        proof {
            reveal_with_fuel(suffixes_flow, 1);
        }
        let ghost c = self.context();
        let ghost whole = suffixes_flow(c, self@, function, suffixes@, 0, flow@);
        let mut flow = flow;
        let mut index: usize = 0;
        while index < suffixes.len()
            invariant
                index <= suffixes@.len(),
                self.continues(old(self)),
                self.context() == c,
                suffixes_flow(c, self@, function, suffixes@, index as int, flow@) == whole,
            decreases suffixes@.len() - index,
        {
            flow = self.suffix(function, &suffixes[index], flow);
            index += 1;
        }
        flow
    }

    /// Expressions in a row.
    #[verifier::loop_isolation(false)]
    #[verifier::spinoff_prover]
    fn expressions(
        &mut self,
        function: (FunctionId, TypeState),
        expressions: &Vec<Expression>,
        flow: FlowSummary,
    ) -> (result: FlowSummary)
        requires
            old(self).ready(),
        ensures
            final(self).continues(old(self)),
            (final(self)@, result@) == expressions_flow(
                old(self).context(),
                old(self)@,
                function,
                expressions@,
                0,
                flow@,
            ),
        decreases expressions@, expressions@.len() + 1,
    {
        proof {
            reveal_with_fuel(expressions_flow, 1);
        }
        let ghost c = self.context();
        let ghost whole = expressions_flow(c, self@, function, expressions@, 0, flow@);
        let mut flow = flow;
        let mut index: usize = 0;
        while index < expressions.len()
            invariant
                index <= expressions@.len(),
                self.continues(old(self)),
                self.context() == c,
                expressions_flow(c, self@, function, expressions@, index as int, flow@) == whole,
            decreases expressions@.len() - index,
        {
            let next = self.expression(function, &expressions[index]);
            flow = flow.followed_by(next);
            index += 1;
        }
        flow
    }

    /// The entries of a map in a row.
    #[verifier::loop_isolation(false)]
    #[verifier::spinoff_prover]
    fn entries(
        &mut self,
        function: (FunctionId, TypeState),
        entries: &Vec<MapEntry>,
        flow: FlowSummary,
    ) -> (result: FlowSummary)
        requires
            old(self).ready(),
        ensures
            final(self).continues(old(self)),
            (final(self)@, result@) == entries_flow(old(self).context(), old(self)@, function, entries@, 0, flow@),
        decreases entries@, entries@.len() + 1,
    {
        proof {
            reveal_with_fuel(entries_flow, 1);
        }
        let ghost c = self.context();
        let ghost whole = entries_flow(c, self@, function, entries@, 0, flow@);
        let mut flow = flow;
        let mut index: usize = 0;
        while index < entries.len()
            invariant
                index <= entries@.len(),
                self.continues(old(self)),
                self.context() == c,
                entries_flow(c, self@, function, entries@, index as int, flow@) == whole,
            decreases entries@.len() - index,
        {
            flow = self.entry(function, &entries[index], flow);
            index += 1;
        }
        flow
    }

    /// The arguments of a call in a row.
    #[verifier::loop_isolation(false)]
    #[verifier::spinoff_prover]
    fn arguments(
        &mut self,
        function: (FunctionId, TypeState),
        arguments: &Vec<Argument>,
        flow: FlowSummary,
    ) -> (result: FlowSummary)
        requires
            old(self).ready(),
        ensures
            final(self).continues(old(self)),
            (final(self)@, result@) == arguments_flow(old(self).context(), old(self)@, function, arguments@, 0, flow@),
        decreases arguments@, arguments@.len() + 1,
    {
        proof {
            reveal_with_fuel(arguments_flow, 1);
        }
        let ghost c = self.context();
        let ghost whole = arguments_flow(c, self@, function, arguments@, 0, flow@);
        let mut flow = flow;
        let mut index: usize = 0;
        while index < arguments.len()
            invariant
                index <= arguments@.len(),
                self.continues(old(self)),
                self.context() == c,
                arguments_flow(c, self@, function, arguments@, index as int, flow@) == whole,
            decreases arguments@.len() - index,
        {
            let next = self.argument(function, &arguments[index]);
            flow = flow.followed_by(next);
            index += 1;
        }
        flow
    }

    #[verifier::spinoff_prover]
    fn entry(&mut self, function: (FunctionId, TypeState), entry: &MapEntry, flow: FlowSummary) -> (result: FlowSummary)
        requires
            old(self).ready(),
        ensures
            final(self).continues(old(self)),
            (final(self)@, result@) == entry_flow(old(self).context(), old(self)@, function, entry, flow@),
        decreases entry, 0int,
    {
        proof {
            reveal_with_fuel(entry_flow, 1);
        }
        let key = self.expression(function, &entry.key);
        let value = self.expression(function, &entry.value);
        flow.followed_by(key).followed_by(value)
    }

    #[verifier::spinoff_prover]
    fn argument(&mut self, function: (FunctionId, TypeState), argument: &Argument) -> (result: FlowSummary)
        requires
            old(self).ready(),
        ensures
            final(self).continues(old(self)),
            (final(self)@, result@) == argument_flow(old(self).context(), old(self)@, function, argument),
        decreases argument, 0int,
    {
        proof {
            reveal_with_fuel(argument_flow, 1);
        }
        match &argument.kind {
            ArgumentKind::Positional(value) => self.expression(function, value),
            ArgumentKind::Named { value, .. } => self.expression(function, value),
        }
    }

    #[verifier::spinoff_prover]
    fn expression(&mut self, function: (FunctionId, TypeState), e: &Expression) -> (result: FlowSummary)
        requires
            old(self).ready(),
        ensures
            final(self).continues(old(self)),
            (final(self)@, result@) == expression_flow(old(self).context(), old(self)@, function, e),
        decreases e, 1int,
    {
        proof {
            reveal_with_fuel(expression_flow, 1);
        }
        let flow = self.expression_core(function, e);
        self.note(FlowSubject::Expression(e.span), &flow);
        flow
    }

    #[verifier::spinoff_prover]
    fn expression_core(&mut self, function: (FunctionId, TypeState), e: &Expression) -> (result: FlowSummary)
        requires
            old(self).ready(),
        ensures
            final(self).continues(old(self)),
            (final(self)@, result@) == expression_core_flow(old(self).context(), old(self)@, function, e),
        decreases e, 0int,
    {
        proof {
            reveal_with_fuel(expression_core_flow, 1);
        }
        match &e.kind {
            ExpressionKind::Unit
            | ExpressionKind::Identifier(_)
            | ExpressionKind::Integer
            | ExpressionKind::Float
            | ExpressionKind::String(_)
            | ExpressionKind::Character(_)
            | ExpressionKind::Boolean(_)
            | ExpressionKind::TypedEmptyList(_)
            | ExpressionKind::TypedEmptyMap(_) => FlowSummary::falling_through(),
            ExpressionKind::Parenthesized(inner) => self.expression(function, inner),
            ExpressionKind::Conversion { operand, .. } => self.expression(function, operand),
            ExpressionKind::Unary { operand, .. } => self.expression(function, operand),
            ExpressionKind::Try { value, .. } => {
                let flow = self.expression(function, value);
                self.tried(e.span, flow)
            },
            ExpressionKind::List(elements) => self.expressions(function, elements, FlowSummary::falling_through()),
            ExpressionKind::Mapping(entries) => self.entries(function, entries, FlowSummary::falling_through()),
            ExpressionKind::Block(block) => self.block(function, block),
            ExpressionKind::If { branches, else_branch } => {
                let (remaining, mut alternatives) = self.choices(function, branches);
                let ghost before = flow_views(alternatives@);
                let other = self.expression_body(function, else_branch);
                let last = remaining.followed_by(other);
                alternatives.push(last);
                assert(flow_views(alternatives@) =~= before.push(last@));
                FlowSummary::alternatives(&alternatives)
            },
            ExpressionKind::Binary { left, operator, right, .. } => {
                let first = self.expression(function, left);
                let second = self.expression(function, right);
                if *operator == BinaryOperator::LogicalAnd || *operator == BinaryOperator::LogicalOr {
                    let both = first.duplicate().followed_by(second);
                    let mut alternatives: Vec<FlowSummary> = Vec::new();
                    alternatives.push(first.duplicate());
                    alternatives.push(both);
                    assert(flow_views(alternatives@) =~= seq![first@, both@]);
                    let flow = FlowSummary::alternatives(&alternatives);
                    self.decide(left.span, e.span, &first, &flow);
                    flow
                } else {
                    first.followed_by(second)
                }
            },
            ExpressionKind::Is { value, .. } => self.expression(function, value),
            ExpressionKind::Call { callee, arguments } => {
                let flow = self.expression(function, callee);
                let flow = self.arguments(function, arguments, flow);
                if self.call_panics(e.span) {
                    diverged(flow)
                } else {
                    flow
                }
            },
            ExpressionKind::Index { value, index } => {
                let first = self.expression(function, value);
                let second = self.expression(function, index);
                first.followed_by(second)
            },
            ExpressionKind::Member { value, .. } => self.expression(function, value),
        }
    }

    /// What the end of a function body gives back.
    #[verifier::spinoff_prover]
    fn end(&mut self, function: (FunctionId, TypeState), block: &Block, flow: &FlowSummary)
        requires
            old(self).ready(),
        ensures
            final(self).continues(old(self)),
            final(self)@ == ended(old(self).context(), old(self)@, function, block, flow@),
    {
        proof {
            reveal(ended);
        }
        let state = match &block.value {
            Some(value) => self.state(value.span),
            None => TypeState::Resolved(self.analysis.types.unit()),
        };
        let deferred = match state {
            TypeState::Deferred(_) => true,
            _ => false,
        };
        if let Some(value) = &block.value {
            if deferred {
                self.defer(
                    DeferredFlowKind::FunctionFinalValue {
                        function: function.0,
                        body: block.span,
                        value: value.span,
                        declared_result: function.1,
                    },
                    &flow.switch_dependencies,
                );
            }
        }
        let ghost middle = self@;
        if let TypeState::Resolved(result) = function.1 {
            if flow.can_fallthrough() && !(block.value.is_some() && state != TypeState::Never) {
                let unit_injection = self.unit_alternative(result);
                if result == self.analysis.types.unit() || unit_injection.is_some() {
                    let ghost injection = optional_alternative(unit_injection);
                    self.facts.completions.push(
                        FunctionCompletion { function: function.0, body: block.span, unit_injection },
                    );
                    assert(self@ =~= FlowState {
                        completions: middle.completions.push(
                            CompletionView { function: function.0, body: block.span, unit_injection: injection },
                        ),
                        ..middle
                    });
                } else if flow.fallthrough == FallthroughKind::Definite {
                    let start = if block.span.end > 0 {
                        block.span.end - 1
                    } else {
                        0
                    };
                    self.complain(
                        Span { start, ..block.span },
                        "value-returning function may fall through without returning a value",
                    );
                } else {
                    self.defer(
                        DeferredFlowKind::FunctionReturn { function: function.0, body: block.span },
                        &flow.switch_dependencies,
                    );
                }
            }
        }
    }

    /// The flow through every function.
    #[verifier::loop_isolation(false)]
    #[verifier::spinoff_prover]
    pub fn functions(&mut self)
        requires
            old(self).ready(),
        ensures
            final(self).continues(old(self)),
            final(self)@ == functions_flow(
                old(self).context(),
                old(self)@,
                old(self).analysis.function_signatures@,
                0,
            ),
    {
        let ghost c = self.context();
        let ghost signatures = self.analysis.function_signatures@;
        let ghost whole = functions_flow(c, self@, signatures, 0);
        let mut index: usize = 0;
        while index < self.analysis.function_signatures.len()
            invariant
                index <= signatures.len(),
                self.continues(old(self)),
                self.context() == c,
                self.analysis.function_signatures@ == signatures,
                functions_flow(c, self@, signatures, index as int) == whole,
            decreases signatures.len() - index,
        {
            let function = (
                self.analysis.function_signatures[index].id,
                self.analysis.function_signatures[index].result,
            );
            let node = self.analysis.function_signatures[index].node;
            let flow = self.block(function, &node.body);
            self.end(function, &node.body, &flow);
            index += 1;
        }
    }
}

} // verus!
