//! The declaration, type, expression and statement parser.

pub mod laws;

use crate::ast::{
    Argument, ArgumentKind, AssignmentOperator, AssignmentTarget, AssignmentTargetSuffix,
    AssignmentTargetSuffixKind, BinaryOperator, Block, ConditionalExpressionBranch, ConditionalStatementBranch,
    Declaration, Expression, ExpressionBody, ExpressionBodyKind, ExpressionKind, FunctionDeclaration,
    Identifier, Label, MapEntry, Member, Parameter, PrimitiveType, Program, Statement, StatementBody,
    StatementBodyKind, StatementKind, SwitchArm, Tree, Type, TypeDeclaration, TypeKind, TypeMember,
    TypeMemberKind, UnaryOperator, argument_trees, arm_trees, entry_trees, expression_branch_trees,
    expression_trees, leaf, statement_branch_trees, statement_trees, suffix_trees, type_trees,
};
use crate::diagnostic::{Diagnostic, Diagnostics};
use crate::grammar;
use crate::grammar::{Input, Parsed, at_kind, input_of, kind_at, numbered, rest, span_at};
use crate::lexer;
use crate::lexer::{KindView, Token, TokenKind, TokenView, is_kind, report_view, token_views};
use crate::source::{SourceFile, Span};
use vstd::prelude::*;
use vstd::string::*;

verus! {

broadcast use {crate::ast::group_node_spans, crate::ast::group_trees};

struct Parser<'source> {
    source: &'source SourceFile,
    tokens: Vec<Token>,
    current: usize,
}

fn across(first: Span, last: Span) -> (result: Span)
    ensures
        result == grammar::across(first, last),
{
    Span { end: last.end, ..first }
}

impl<'source> Parser<'source> {
    spec fn input(&self) -> Input {
        Input { bytes: self.source.bytes(), tokens: token_views(self.tokens@) }
    }

    spec fn wf(&self) -> bool {
        &&& self.source.wf()
        &&& self.current < self.tokens.len()
        &&& self.tokens@.last()@.kind == KindView::Plain(TokenKind::Eof)
    }

    /// Only the position may differ.
    spec fn keeps(&self, before: &Self) -> bool {
        &&& self.wf()
        &&& self.source == before.source
        &&& self.tokens == before.tokens
    }

    /// The parser has read a construct with the given tree.
    spec fn read(&self, before: &Self, tree: Tree, parsed: Parsed) -> bool {
        &&& parsed == Ok::<(Tree, int), lexer::Report>((tree, self.current as int))
        &&& self.current > before.current
    }

    /// The diagnostic is the first error.
    spec fn broke(&self, diagnostic: &Diagnostic, parsed: Parsed) -> bool {
        &&& parsed is Err
        &&& diagnostic@ == report_view(self.source, parsed->Err_0)
    }

    fn at(&self, kind: TokenKind) -> (result: bool)
        requires
            self.wf(),
            !(kind is String),
            !(kind is Character),
        ensures
            result == at_kind(self.input(), self.current as int, kind),
    {
        is_kind(&self.tokens[self.current].kind, &kind)
    }

    fn at_offset(&self, offset: usize, kind: TokenKind) -> (result: bool)
        requires
            self.wf(),
            !(kind is String),
            !(kind is Character),
        ensures
            result == at_kind(self.input(), self.current + offset, kind),
    {
        if offset < self.tokens.len() - self.current {
            is_kind(&self.tokens[self.current + offset].kind, &kind)
        } else {
            false
        }
    }

    fn at_next(&self, kind: TokenKind) -> (result: bool)
        requires
            self.wf(),
            !(kind is String),
            !(kind is Character),
        ensures
            result == at_kind(self.input(), self.current + 1, kind),
    {
        self.at_offset(1, kind)
    }

    fn current_span(&self) -> (result: Span)
        requires
            self.wf(),
        ensures
            result == span_at(self.input(), self.current as int),
    {
        self.tokens[self.current].span
    }

    /// Takes the current token where it has the given kind.
    fn take(&mut self, kind: TokenKind) -> (result: Option<Span>)
        requires
            old(self).wf(),
            !(kind is String),
            !(kind is Character),
            !(kind is Eof),
        ensures
            final(self).keeps(old(self)),
            match result {
                Some(span) => at_kind(old(self).input(), old(self).current as int, kind) && final(self).current
                    == old(self).current + 1 && span == span_at(old(self).input(), old(self).current as int),
                None => !at_kind(old(self).input(), old(self).current as int, kind) && final(self).current
                    == old(self).current,
            },
    {
        if self.at(kind) {
            let span = self.current_span();
            self.current = self.current + 1;
            Some(span)
        } else {
            None
        }
    }

    /// Takes the current token, which must have the given kind.
    fn expect(&mut self, kind: TokenKind, message: &str) -> (result: Result<Span, Diagnostic>)
        requires
            old(self).wf(),
            !(kind is String),
            !(kind is Character),
            !(kind is Eof),
        ensures
            final(self).keeps(old(self)),
            match result {
                Ok(span) => at_kind(old(self).input(), old(self).current as int, kind) && final(self).current
                    == old(self).current + 1 && span == span_at(old(self).input(), old(self).current as int),
                Err(diagnostic) => !at_kind(old(self).input(), old(self).current as int, kind) && final(self).broke(
                    &diagnostic,
                    grammar::failed(old(self).input(), old(self).current as int, message@),
                ),
            },
    {
        match self.take(kind) {
            Some(span) => Ok(span),
            None => Err(self.error_current(message)),
        }
    }

    fn error_current(&self, message: &str) -> (result: Diagnostic)
        requires
            self.wf(),
        ensures
            self.broke(&result, grammar::failed(self.input(), self.current as int, message@)),
    {
        Diagnostic::source(self.source, self.current_span(), message)
    }

    #[verifier::rlimit(40)]
    fn parse_identifier(&mut self, message: &str) -> (result: Result<Identifier, Diagnostic>)
        requires
            old(self).wf(),
        ensures
            final(self).keeps(old(self)),
            match result {
                Ok(name) => at_kind(old(self).input(), old(self).current as int, TokenKind::Identifier) && final(self).current == old(self).current + 1 && name.span == span_at(
                    old(self).input(),
                    old(self).current as int,
                ),
                Err(diagnostic) => !at_kind(old(self).input(), old(self).current as int, TokenKind::Identifier)
                    && final(self).broke(
                    &diagnostic,
                    grammar::failed(old(self).input(), old(self).current as int, message@),
                ),
            },
    {
        let span = self.expect(TokenKind::Identifier, message)?;
        Ok(Identifier { span })
    }

    #[verifier::rlimit(40)]
    fn parse_type(&mut self) -> (result: Result<Type, Diagnostic>)
        requires
            old(self).wf(),
        ensures
            final(self).keeps(old(self)),
            match result {
                Ok(ty) => final(self).read(
                    old(self),
                    ty.tree(),
                    grammar::type_at(old(self).input(), old(self).current as int),
                ),
                Err(diagnostic) => final(self).broke(
                    &diagnostic,
                    grammar::type_at(old(self).input(), old(self).current as int),
                ),
            },
        decreases rest(old(self).input(), old(self).current as int), 2nat,
    {
        let ghost p = self.input();
        let ghost whole = grammar::type_at(p, self.current as int);
        let first = self.parse_type_atom()?;
        if self.take(TokenKind::Pipe).is_none() {
            return Ok(first);
        }
        let start = first.span;
        let mut alternatives: Vec<Type> = Vec::new();
        alternatives.push(first);
        proof {
            assert(type_trees(alternatives@) =~= seq![first.tree()]);
        }
        loop
            invariant
                self.keeps(old(self)),
                p == self.input(),
                old(self).wf(),
                self.current > old(self).current,
                alternatives@.len() > 0,
                start == alternatives@[0].span,
                whole == grammar::type_at(p, old(self).current as int),
                whole == grammar::union_rest(p, self.current as int, type_trees(alternatives@)),
            decreases rest(p, self.current as int),
        {
            let ghost before = type_trees(alternatives@);
            let next = self.parse_type_atom()?;
            let end = next.span;
            alternatives.push(next);
            if self.take(TokenKind::Pipe).is_none() {
                let union = Type {
                    kind: TypeKind::Union(alternatives),
                    span: across(start, end),
                };
                return Ok(union);
            }
        }
    }

    #[verifier::rlimit(40)]
    fn parse_type_atom(&mut self) -> (result: Result<Type, Diagnostic>)
        requires
            old(self).wf(),
        ensures
            final(self).keeps(old(self)),
            match result {
                Ok(ty) => final(self).read(
                    old(self),
                    ty.tree(),
                    grammar::atom(old(self).input(), old(self).current as int),
                ),
                Err(diagnostic) => final(self).broke(
                    &diagnostic,
                    grammar::atom(old(self).input(), old(self).current as int),
                ),
            },
        decreases rest(old(self).input(), old(self).current as int), 1nat,
    {
        let span = self.current_span();
        let found = primitive_type(&self.tokens[self.current].kind);
        if let Some(primitive) = found {
            self.current = self.current + 1;
            return Ok(Type { kind: TypeKind::Primitive(primitive), span });
        }
        if self.at(TokenKind::Identifier) {
            self.current = self.current + 1;
            let identifier = Identifier { span };
            if self.take(TokenKind::LeftParen).is_some() {
                let payload = self.parse_type()?;
                let end = self.expect(TokenKind::RightParen, "expected ')' after tagged alternative payload")?;
                return Ok(
                    Type {
                        kind: TypeKind::Tagged { tag: identifier, payload: Box::new(payload) },
                        span: across(span, end),
                    },
                );
            }
            return Ok(Type { kind: TypeKind::Named(identifier), span });
        }
        if self.at(TokenKind::LeftBracket) {
            return self.parse_list_type();
        }
        if self.at(TokenKind::LeftBrace) {
            return self.parse_map_type();
        }
        if self.at(TokenKind::LeftParen) {
            self.current = self.current + 1;
            if let Some(end) = self.take(TokenKind::RightParen) {
                return Ok(Type { kind: TypeKind::Unit, span: across(span, end) });
            }
            let inner = self.parse_type()?;
            let end = self.expect(TokenKind::RightParen, "expected ')' after parenthesized type")?;
            return Ok(
                Type { kind: TypeKind::Parenthesized(Box::new(inner)), span: across(span, end) },
            );
        }
        Err(self.error_current("expected type"))
    }

    #[verifier::rlimit(40)]
    fn parse_list_type(&mut self) -> (result: Result<Type, Diagnostic>)
        requires
            old(self).wf(),
        ensures
            final(self).keeps(old(self)),
            match result {
                Ok(ty) => final(self).read(
                    old(self),
                    ty.tree(),
                    grammar::list_type(old(self).input(), old(self).current as int),
                ),
                Err(diagnostic) => final(self).broke(
                    &diagnostic,
                    grammar::list_type(old(self).input(), old(self).current as int),
                ),
            },
        decreases rest(old(self).input(), old(self).current as int), 0nat,
    {
        let start = self.expect(TokenKind::LeftBracket, "expected '[' to begin list type")?;
        let element = self.parse_type()?;
        let end = self.expect(TokenKind::RightBracket, "expected ']' after list type")?;
        Ok(Type { kind: TypeKind::List(Box::new(element)), span: across(start, end) })
    }

    #[verifier::rlimit(40)]
    fn parse_map_type(&mut self) -> (result: Result<Type, Diagnostic>)
        requires
            old(self).wf(),
        ensures
            final(self).keeps(old(self)),
            match result {
                Ok(ty) => final(self).read(
                    old(self),
                    ty.tree(),
                    grammar::map_type(old(self).input(), old(self).current as int),
                ),
                Err(diagnostic) => final(self).broke(
                    &diagnostic,
                    grammar::map_type(old(self).input(), old(self).current as int),
                ),
            },
        decreases rest(old(self).input(), old(self).current as int), 0nat,
    {
        let start = self.expect(TokenKind::LeftBrace, "expected '{' to begin map type")?;
        let key = self.parse_type()?;
        let _ = self.expect(TokenKind::Colon, "expected ':' between map key and value types")?;
        let value = self.parse_type()?;
        let end = self.expect(TokenKind::RightBrace, "expected '}' after map type")?;
        Ok(
            Type {
                kind: TypeKind::Mapping { key: Box::new(key), value: Box::new(value) },
                span: across(start, end),
            },
        )
    }
}

impl<'source> Parser<'source> {
    #[verifier::rlimit(40)]
    fn parse_block(&mut self) -> (result: Result<Block, Diagnostic>)
        requires
            old(self).wf(),
        ensures
            final(self).keeps(old(self)),
            match result {
                Ok(node) => final(self).read(
                    old(self),
                    node.tree(),
                    grammar::block(old(self).input(), old(self).current as int),
                ),
                Err(diagnostic) => final(self).broke(
                    &diagnostic,
                    grammar::block(old(self).input(), old(self).current as int),
                ),
            },
        decreases rest(old(self).input(), old(self).current as int), 0nat,
    {
        let ghost p = self.input();
        let ghost whole = grammar::block(p, self.current as int);
        let start = self.expect(TokenKind::LeftBrace, "expected block beginning with '{'")?;
        let mut statements: Vec<Statement> = Vec::new();
        proof {
            assert(statement_trees(statements@) =~= seq![]);
        }
        while !self.at(TokenKind::RightBrace)
            invariant
                self.keeps(old(self)),
                p == self.input(),
                old(self).wf(),
                self.current > old(self).current,
                whole == grammar::block(p, old(self).current as int),
                whole == grammar::block_rest(p, self.current as int, start, statement_trees(statements@)),
            decreases rest(p, self.current as int),
        {
            let ghost before = statement_trees(statements@);
            if self.at(TokenKind::Eof) {
                return Err(self.error_current("expected '}' to close block"));
            }
            if self.at_non_expression_statement_start() || (self.at(TokenKind::Identifier) && self.at_next(
                TokenKind::Declare,
            )) {
                let statement = self.parse_statement()?;
                statements.push(statement);
                continue ;
            }
            let expression = self.parse_expression()?;
            if let Some(operator) = assignment_operator(&self.tokens[self.current].kind) {
                let statement = self.finish_assignment_statement(expression, operator)?;
                statements.push(statement);
            } else if let Some(semicolon) = self.take(TokenKind::Semicolon) {
                let statement = Statement {
                    span: across(expression.span, semicolon),
                    kind: StatementKind::Expression(expression),
                };
                statements.push(statement);
            } else if self.at(TokenKind::RightBrace) {
                let end = self.current_span();
                self.advance();
                let block = Block {
                    statements,
                    value: Some(Box::new(expression)),
                    span: across(start, end),
                };
                return Ok(block);
            } else {
                return Err(self.error_current("expected ';' or '}' after expression"));
            }
        }
        let end = self.expect(TokenKind::RightBrace, "expected '}' to close block")?;
        let block = Block { statements, value: None, span: across(start, end) };
        Ok(block)
    }

    /// Moves to the next token.
    fn advance(&mut self)
        requires
            old(self).wf(),
            !at_kind(old(self).input(), old(self).current as int, TokenKind::Eof),
        ensures
            final(self).keeps(old(self)),
            final(self).current == old(self).current + 1,
    {
        self.current = self.current + 1;
    }

    fn at_non_expression_statement_start(&self) -> (result: bool)
        requires
            self.wf(),
        ensures
            result == grammar::statement_keyword(self.input(), self.current as int),
    {
        self.at(TokenKind::Var) || self.at(TokenKind::Return) || self.at(TokenKind::Break) || self.at(
            TokenKind::Continue,
        ) || self.at(TokenKind::If) || self.at(TokenKind::While) || self.at(TokenKind::For) || self.at(
            TokenKind::Switch,
        ) || self.at(TokenKind::LeftBrace)
    }

    #[verifier::rlimit(40)]
    fn parse_statement(&mut self) -> (result: Result<Statement, Diagnostic>)
        requires
            old(self).wf(),
        ensures
            final(self).keeps(old(self)),
            match result {
                Ok(node) => final(self).read(
                    old(self),
                    node.tree(),
                    grammar::statement(old(self).input(), old(self).current as int),
                ),
                Err(diagnostic) => final(self).broke(
                    &diagnostic,
                    grammar::statement(old(self).input(), old(self).current as int),
                ),
            },
        decreases rest(old(self).input(), old(self).current as int), 8nat,
    {
        if self.at(TokenKind::Var) || (self.at(TokenKind::Identifier) && self.at_next(TokenKind::Declare)) {
            self.parse_local_declaration()
        } else if self.at(TokenKind::Return) {
            self.parse_return_statement()
        } else if self.at(TokenKind::Break) {
            self.parse_keyword_statement(false)
        } else if self.at(TokenKind::Continue) {
            self.parse_keyword_statement(true)
        } else if self.at(TokenKind::If) {
            self.parse_if_statement()
        } else if self.at(TokenKind::While) {
            self.parse_while_statement()
        } else if self.at(TokenKind::For) {
            self.parse_for_statement()
        } else if self.at(TokenKind::Switch) {
            self.parse_switch_statement()
        } else if self.at(TokenKind::LeftBrace) {
            let block = self.parse_block()?;
            let span = block.span;
            Ok(Statement { kind: StatementKind::Block(block), span })
        } else {
            let expression = self.parse_expression()?;
            if let Some(operator) = assignment_operator(&self.tokens[self.current].kind) {
                self.finish_assignment_statement(expression, operator)
            } else {
                let semicolon = self.expect(TokenKind::Semicolon, "expected ';' after expression statement")?;
                Ok(
                    Statement {
                        span: across(expression.span, semicolon),
                        kind: StatementKind::Expression(expression),
                    },
                )
            }
        }
    }

    #[verifier::rlimit(40)]
    fn parse_local_declaration(&mut self) -> (result: Result<Statement, Diagnostic>)
        requires
            old(self).wf(),
        ensures
            final(self).keeps(old(self)),
            match result {
                Ok(node) => final(self).read(
                    old(self),
                    node.tree(),
                    grammar::local(old(self).input(), old(self).current as int),
                ),
                Err(diagnostic) => final(self).broke(
                    &diagnostic,
                    grammar::local(old(self).input(), old(self).current as int),
                ),
            },
        decreases rest(old(self).input(), old(self).current as int), 7nat,
    {
        let first = self.current_span();
        let mutable = self.take(TokenKind::Var).is_some();
        let name = self.parse_identifier("expected local name")?;
        let _ = self.expect(TokenKind::Declare, "expected ':=' after local name")?;
        let initializer = self.parse_expression()?;
        let end = self.expect(TokenKind::Semicolon, "expected ';' after local declaration")?;
        Ok(
            Statement {
                kind: StatementKind::Local { mutable, name, initializer },
                span: across(first, end),
            },
        )
    }

    fn finish_assignment_statement(
        &mut self,
        expression: Expression,
        operator: AssignmentOperator,
    ) -> (result: Result<Statement, Diagnostic>)
        requires
            old(self).wf(),
            grammar::assignment_operator(kind_at(old(self).input(), old(self).current as int)) == Some(operator),
        ensures
            final(self).keeps(old(self)),
            match result {
                Ok(node) => final(self).read(
                    old(self),
                    node.tree(),
                    grammar::assignment(old(self).input(), old(self).current as int, expression.tree()),
                ),
                Err(diagnostic) => final(self).broke(
                    &diagnostic,
                    grammar::assignment(old(self).input(), old(self).current as int, expression.tree()),
                ),
            },
        decreases rest(old(self).input(), old(self).current as int), 8nat,
    {
        let operator_span = self.current_span();
        self.advance();
        let expression_span = expression.span;
        let target = match assignment_target_from_expression(expression) {
            Some(target) => target,
            None => {
                return Err(
                    Diagnostic::source(
                        self.source,
                        expression_span,
                        "assignment target must begin with an identifier and contain only member or index access",
                    ),
                );
            },
        };
        let value = self.parse_expression()?;
        let end = self.expect(TokenKind::Semicolon, "expected ';' after assignment")?;
        Ok(
            Statement {
                span: across(target.span, end),
                kind: StatementKind::Assignment { target, operator, operator_span, value },
            },
        )
    }

    #[verifier::rlimit(40)]
    fn parse_return_statement(&mut self) -> (result: Result<Statement, Diagnostic>)
        requires
            old(self).wf(),
        ensures
            final(self).keeps(old(self)),
            match result {
                Ok(node) => final(self).read(
                    old(self),
                    node.tree(),
                    grammar::return_statement(old(self).input(), old(self).current as int),
                ),
                Err(diagnostic) => final(self).broke(
                    &diagnostic,
                    grammar::return_statement(old(self).input(), old(self).current as int),
                ),
            },
        decreases rest(old(self).input(), old(self).current as int), 7nat,
    {
        let start = self.expect(TokenKind::Return, "expected 'return'")?;
        let value = if self.at(TokenKind::Semicolon) {
            None
        } else {
            Some(self.parse_expression()?)
        };
        let end = self.expect(TokenKind::Semicolon, "expected ';' after return")?;
        Ok(Statement { kind: StatementKind::Return(value), span: across(start, end) })
    }

    #[verifier::rlimit(40)]
    fn parse_keyword_statement(&mut self, is_continue: bool) -> (result: Result<Statement, Diagnostic>)
        requires
            old(self).wf(),
            at_kind(
                old(self).input(),
                old(self).current as int,
                if is_continue {
                    TokenKind::Continue
                } else {
                    TokenKind::Break
                },
            ),
        ensures
            final(self).keeps(old(self)),
            match result {
                Ok(node) => final(self).read(
                    old(self),
                    node.tree(),
                    grammar::statement(old(self).input(), old(self).current as int),
                ),
                Err(diagnostic) => final(self).broke(
                    &diagnostic,
                    grammar::statement(old(self).input(), old(self).current as int),
                ),
            },
    {
        let start = self.current_span();
        self.advance();
        let end = self.expect(TokenKind::Semicolon, "expected ';' after loop control statement")?;
        let kind = if is_continue {
            StatementKind::Continue
        } else {
            StatementKind::Break
        };
        Ok(Statement { kind, span: across(start, end) })
    }

    #[verifier::rlimit(40)]
    fn parse_statement_branch(&mut self, start: Span) -> (result: Result<ConditionalStatementBranch, Diagnostic>)
        requires
            old(self).wf(),
        ensures
            final(self).keeps(old(self)),
            match result {
                Ok(node) => final(self).read(
                    old(self),
                    node.tree(),
                    grammar::statement_branch(old(self).input(), start, old(self).current as int),
                ),
                Err(diagnostic) => final(self).broke(
                    &diagnostic,
                    grammar::statement_branch(old(self).input(), start, old(self).current as int),
                ),
            },
        decreases rest(old(self).input(), old(self).current as int), 7nat,
    {
        let condition = self.parse_expression()?;
        let body = self.parse_statement_body()?;
        let span = across(start, body.span);
        Ok(ConditionalStatementBranch { condition, body, span })
    }

    #[verifier::rlimit(40)]
    fn parse_if_statement(&mut self) -> (result: Result<Statement, Diagnostic>)
        requires
            old(self).wf(),
        ensures
            final(self).keeps(old(self)),
            match result {
                Ok(node) => final(self).read(
                    old(self),
                    node.tree(),
                    grammar::if_statement(old(self).input(), old(self).current as int),
                ),
                Err(diagnostic) => final(self).broke(
                    &diagnostic,
                    grammar::if_statement(old(self).input(), old(self).current as int),
                ),
            },
        decreases rest(old(self).input(), old(self).current as int), 7nat,
    {
        let ghost p = self.input();
        let ghost whole = grammar::if_statement(p, self.current as int);
        let start = self.expect(TokenKind::If, "expected 'if'")?;
        let first = self.parse_statement_branch(start)?;
        let mut end = first.span;
        let mut branches: Vec<ConditionalStatementBranch> = Vec::new();
        branches.push(first);
        proof {
            assert(statement_branch_trees(branches@) =~= seq![first.tree()]);
        }
        while self.at(TokenKind::Else)
            invariant
                self.keeps(old(self)),
                p == self.input(),
                old(self).wf(),
                self.current > old(self).current,
                branches@.len() > 0,
                end == branches@.last().span,
                whole == grammar::if_statement(p, old(self).current as int),
                whole == grammar::if_statement_rest(
                    p,
                    self.current as int,
                    start,
                    statement_branch_trees(branches@),
                ),
            decreases rest(p, self.current as int),
        {
            let ghost before = statement_branch_trees(branches@);
            let else_token = self.current_span();
            self.advance();
            if self.take(TokenKind::If).is_some() {
                let branch = self.parse_statement_branch(else_token)?;
                end = branch.span;
                branches.push(branch);
            } else {
                let body = self.parse_statement_body()?;
                let span = across(start, body.span);
                let statement = Statement { kind: StatementKind::If { branches, else_body: Some(body) }, span };
                return Ok(statement);
            }
        }
        let statement = Statement {
            kind: StatementKind::If { branches, else_body: None },
            span: across(start, end),
        };
        Ok(statement)
    }

    #[verifier::rlimit(40)]
    fn parse_while_statement(&mut self) -> (result: Result<Statement, Diagnostic>)
        requires
            old(self).wf(),
        ensures
            final(self).keeps(old(self)),
            match result {
                Ok(node) => final(self).read(
                    old(self),
                    node.tree(),
                    grammar::while_statement(old(self).input(), old(self).current as int),
                ),
                Err(diagnostic) => final(self).broke(
                    &diagnostic,
                    grammar::while_statement(old(self).input(), old(self).current as int),
                ),
            },
        decreases rest(old(self).input(), old(self).current as int), 7nat,
    {
        let start = self.expect(TokenKind::While, "expected 'while'")?;
        let condition = self.parse_expression()?;
        let body = self.parse_statement_body()?;
        let span = across(start, body.span);
        Ok(Statement { kind: StatementKind::While { condition, body }, span })
    }

    #[verifier::rlimit(40)]
    fn parse_for_statement(&mut self) -> (result: Result<Statement, Diagnostic>)
        requires
            old(self).wf(),
        ensures
            final(self).keeps(old(self)),
            match result {
                Ok(node) => final(self).read(
                    old(self),
                    node.tree(),
                    grammar::for_statement(old(self).input(), old(self).current as int),
                ),
                Err(diagnostic) => final(self).broke(
                    &diagnostic,
                    grammar::for_statement(old(self).input(), old(self).current as int),
                ),
            },
        decreases rest(old(self).input(), old(self).current as int), 7nat,
    {
        let start = self.expect(TokenKind::For, "expected 'for'")?;
        let binding = self.parse_identifier("expected iteration binding after 'for'")?;
        let _ = self.expect(TokenKind::In, "expected 'in' after iteration binding")?;
        let iterable = self.parse_expression()?;
        let body = self.parse_statement_body()?;
        let span = across(start, body.span);
        Ok(Statement { kind: StatementKind::For { binding, iterable, body }, span })
    }

    #[verifier::rlimit(40)]
    fn parse_switch_statement(&mut self) -> (result: Result<Statement, Diagnostic>)
        requires
            old(self).wf(),
        ensures
            final(self).keeps(old(self)),
            match result {
                Ok(node) => final(self).read(
                    old(self),
                    node.tree(),
                    grammar::switch_statement(old(self).input(), old(self).current as int),
                ),
                Err(diagnostic) => final(self).broke(
                    &diagnostic,
                    grammar::switch_statement(old(self).input(), old(self).current as int),
                ),
            },
        decreases rest(old(self).input(), old(self).current as int), 7nat,
    {
        let ghost p = self.input();
        let ghost whole = grammar::switch_statement(p, self.current as int);
        let start = self.expect(TokenKind::Switch, "expected 'switch'")?;
        let value = self.parse_expression()?;
        let _ = self.expect(TokenKind::LeftBrace, "expected '{' after switched expression")?;
        let mut arms: Vec<SwitchArm> = Vec::new();
        proof {
            assert(arm_trees(arms@) =~= seq![]);
        }
        while !self.at(TokenKind::RightBrace)
            invariant
                self.keeps(old(self)),
                p == self.input(),
                old(self).wf(),
                self.current > old(self).current,
                whole == grammar::switch_statement(p, old(self).current as int),
                whole == grammar::switch_rest(p, self.current as int, start, value.tree(), arm_trees(arms@)),
            decreases rest(p, self.current as int),
        {
            let ghost before = arm_trees(arms@);
            if self.at(TokenKind::Eof) {
                return Err(self.error_current("expected '}' to close switch"));
            }
            if self.take(TokenKind::Else).is_some() {
                let body = self.parse_statement_body()?;
                if !self.at(TokenKind::RightBrace) {
                    return Err(self.error_current("else must be the final switch arm"));
                }
                let end = self.current_span();
                self.advance();
                let statement = Statement {
                    kind: StatementKind::Switch { value, arms, else_body: Some(body) },
                    span: across(start, end),
                };
                return Ok(statement);
            }
            let label = self.parse_type()?;
            let body = self.parse_statement_body()?;
            let span = across(label.span, body.span);
            let arm = SwitchArm { label, body, span };
            arms.push(arm);
        }
        let end = self.expect(TokenKind::RightBrace, "expected '}' to close switch")?;
        let statement = Statement {
            kind: StatementKind::Switch { value, arms, else_body: None },
            span: across(start, end),
        };
        Ok(statement)
    }

    #[verifier::rlimit(40)]
    fn parse_statement_body(&mut self) -> (result: Result<StatementBody, Diagnostic>)
        requires
            old(self).wf(),
        ensures
            final(self).keeps(old(self)),
            match result {
                Ok(node) => final(self).read(
                    old(self),
                    node.tree(),
                    grammar::statement_body(old(self).input(), old(self).current as int),
                ),
                Err(diagnostic) => final(self).broke(
                    &diagnostic,
                    grammar::statement_body(old(self).input(), old(self).current as int),
                ),
            },
        decreases rest(old(self).input(), old(self).current as int), 1nat,
    {
        if self.at(TokenKind::LeftBrace) {
            let block = self.parse_block()?;
            let span = block.span;
            return Ok(StatementBody { kind: StatementBodyKind::Block(block), span });
        }
        let colon = self.expect(TokenKind::Colon, "expected block or ':' statement body")?;
        let statement = self.parse_statement()?;
        Ok(
            StatementBody {
                span: across(colon, statement.span),
                kind: StatementBodyKind::Statement(Box::new(statement)),
            },
        )
    }

    #[verifier::rlimit(40)]
    fn parse_expression(&mut self) -> (result: Result<Expression, Diagnostic>)
        requires
            old(self).wf(),
        ensures
            final(self).keeps(old(self)),
            match result {
                Ok(node) => final(self).read(
                    old(self),
                    node.tree(),
                    grammar::expression(old(self).input(), old(self).current as int),
                ),
                Err(diagnostic) => final(self).broke(
                    &diagnostic,
                    grammar::expression(old(self).input(), old(self).current as int),
                ),
            },
        decreases rest(old(self).input(), old(self).current as int), 6nat,
    {
        self.parse_binary_expression(1)
    }

    #[verifier::rlimit(40)]
    fn parse_binary_expression(&mut self, minimum_precedence: u8) -> (result: Result<Expression, Diagnostic>)
        requires
            old(self).wf(),
        ensures
            final(self).keeps(old(self)),
            match result {
                Ok(node) => final(self).read(
                    old(self),
                    node.tree(),
                    grammar::binary(old(self).input(), old(self).current as int, minimum_precedence),
                ),
                Err(diagnostic) => final(self).broke(
                    &diagnostic,
                    grammar::binary(old(self).input(), old(self).current as int, minimum_precedence),
                ),
            },
        decreases rest(old(self).input(), old(self).current as int), 5nat,
    {
        let ghost p = self.input();
        let ghost whole = grammar::binary(p, self.current as int, minimum_precedence);
        let mut left = self.parse_unary_expression()?;
        loop
            invariant
                self.keeps(old(self)),
                p == self.input(),
                old(self).wf(),
                self.current > old(self).current,
                whole == grammar::binary(p, old(self).current as int, minimum_precedence),
                whole == grammar::binary_rest(p, self.current as int, minimum_precedence, left.tree()),
            decreases rest(p, self.current as int),
        {
            if self.at(TokenKind::Is) {
                if grammar::IS_PRECEDENCE < minimum_precedence {
                    return Ok(left);
                }
                let operator_span = self.current_span();
                self.advance();
                let ty = self.parse_type()?;
                let span = across(left.span, ty.span);
                left = Expression { kind: ExpressionKind::Is { value: Box::new(left), operator_span, ty }, span };
                continue ;
            }
            let (operator, precedence) = match binary_operator(&self.tokens[self.current].kind) {
                Some(found) => found,
                None => {
                    return Ok(left);
                },
            };
            if precedence < minimum_precedence {
                return Ok(left);
            }
            let operator_span = self.current_span();
            self.advance();
            let right = self.parse_binary_expression(precedence + 1)?;
            let span = across(left.span, right.span);
            left = Expression {
                kind: ExpressionKind::Binary {
                    left: Box::new(left),
                    operator,
                    operator_span,
                    right: Box::new(right),
                },
                span,
            };
        }
    }

    #[verifier::rlimit(40)]
    fn parse_unary_expression(&mut self) -> (result: Result<Expression, Diagnostic>)
        requires
            old(self).wf(),
        ensures
            final(self).keeps(old(self)),
            match result {
                Ok(node) => final(self).read(
                    old(self),
                    node.tree(),
                    grammar::unary(old(self).input(), old(self).current as int),
                ),
                Err(diagnostic) => final(self).broke(
                    &diagnostic,
                    grammar::unary(old(self).input(), old(self).current as int),
                ),
            },
        decreases rest(old(self).input(), old(self).current as int), 4nat,
    {
        let operator = match unary_operator(&self.tokens[self.current].kind) {
            Some(operator) => operator,
            None => {
                return self.parse_postfix_expression();
            },
        };
        let operator_span = self.current_span();
        self.advance();
        let operand = self.parse_unary_expression()?;
        let span = across(operator_span, operand.span);
        Ok(
            Expression {
                kind: ExpressionKind::Unary { operator, operator_span, operand: Box::new(operand) },
                span,
            },
        )
    }

    #[verifier::rlimit(40)]
    fn parse_postfix_expression(&mut self) -> (result: Result<Expression, Diagnostic>)
        requires
            old(self).wf(),
        ensures
            final(self).keeps(old(self)),
            match result {
                Ok(node) => final(self).read(
                    old(self),
                    node.tree(),
                    grammar::postfix(old(self).input(), old(self).current as int),
                ),
                Err(diagnostic) => final(self).broke(
                    &diagnostic,
                    grammar::postfix(old(self).input(), old(self).current as int),
                ),
            },
        decreases rest(old(self).input(), old(self).current as int), 3nat,
    {
        let ghost p = self.input();
        let ghost whole = grammar::postfix(p, self.current as int);
        let mut expression = self.parse_primary()?;
        loop
            invariant
                self.keeps(old(self)),
                p == self.input(),
                old(self).wf(),
                self.current > old(self).current,
                whole == grammar::postfix(p, old(self).current as int),
                whole == grammar::postfix_rest(p, self.current as int, expression.tree()),
            decreases rest(p, self.current as int),
        {
            if self.at(TokenKind::LeftParen) {
                expression = self.parse_call_suffix(expression)?;
            } else if self.take(TokenKind::LeftBracket).is_some() {
                let index = self.parse_expression()?;
                let end = self.expect(TokenKind::RightBracket, "expected ']' after index expression")?;
                let start = expression.span;
                expression = Expression {
                    kind: ExpressionKind::Index { value: Box::new(expression), index: Box::new(index) },
                    span: across(start, end),
                };
            } else if self.take(TokenKind::Dot).is_some() {
                let span = self.current_span();
                let member = if self.at(TokenKind::Identifier) {
                    Member::Named(Identifier { span })
                } else if self.at(TokenKind::Integer) && self.integer_token_is_decimal() {
                    Member::TupleIndex(span)
                } else {
                    return Err(self.error_current("expected member name or decimal tuple index after '.'"));
                };
                self.advance();
                let start = expression.span;
                expression = Expression {
                    kind: ExpressionKind::Member { value: Box::new(expression), member },
                    span: across(start, span),
                };
            } else if let Some(question) = self.take(TokenKind::Question) {
                let start = expression.span;
                expression = Expression {
                    kind: ExpressionKind::Try { value: Box::new(expression), operator_span: question },
                    span: across(start, question),
                };
            } else {
                return Ok(expression);
            }
        }
    }

    #[verifier::rlimit(40)]
    fn parse_call_suffix(&mut self, callee: Expression) -> (result: Result<Expression, Diagnostic>)
        requires
            old(self).wf(),
        ensures
            final(self).keeps(old(self)),
            match result {
                Ok(node) => final(self).read(
                    old(self),
                    node.tree(),
                    grammar::call(old(self).input(), old(self).current as int, callee.tree()),
                ),
                Err(diagnostic) => final(self).broke(
                    &diagnostic,
                    grammar::call(old(self).input(), old(self).current as int, callee.tree()),
                ),
            },
        decreases rest(old(self).input(), old(self).current as int), 7nat,
    {
        let ghost p = self.input();
        let ghost whole = grammar::call(p, self.current as int, callee.tree());
        let _ = self.expect(TokenKind::LeftParen, "expected '(' to begin arguments")?;
        let mut arguments: Vec<Argument> = Vec::new();
        let start = callee.span;
        proof {
            assert(argument_trees(arguments@) =~= seq![]);
        }
        if self.at(TokenKind::RightParen) {
            let end = self.current_span();
            self.advance();
            let call = Expression {
                kind: ExpressionKind::Call { callee: Box::new(callee), arguments },
                span: across(start, end),
            };
            return Ok(call);
        }
        loop
            invariant
                self.keeps(old(self)),
                p == self.input(),
                old(self).wf(),
                self.current > old(self).current,
                start == callee.span,
                whole == grammar::call(p, old(self).current as int, callee.tree()),
                whole == grammar::arguments_rest(
                    p,
                    self.current as int,
                    callee.tree(),
                    argument_trees(arguments@),
                ),
            decreases rest(p, self.current as int),
        {
            let ghost before = argument_trees(arguments@);
            let argument = self.parse_argument()?;
            arguments.push(argument);
            if self.take(TokenKind::Comma).is_none() {
                let end = self.expect(TokenKind::RightParen, "expected ')' after call arguments")?;
                return Ok(
                    Expression {
                        kind: ExpressionKind::Call { callee: Box::new(callee), arguments },
                        span: across(start, end),
                    },
                );
            }
        }
    }

    #[verifier::rlimit(40)]
    fn parse_argument(&mut self) -> (result: Result<Argument, Diagnostic>)
        requires
            old(self).wf(),
        ensures
            final(self).keeps(old(self)),
            match result {
                Ok(node) => final(self).read(
                    old(self),
                    node.tree(),
                    grammar::argument(old(self).input(), old(self).current as int),
                ),
                Err(diagnostic) => final(self).broke(
                    &diagnostic,
                    grammar::argument(old(self).input(), old(self).current as int),
                ),
            },
        decreases rest(old(self).input(), old(self).current as int), 7nat,
    {
        if self.at(TokenKind::Identifier) && self.at_next(TokenKind::Equal) {
            let name = self.parse_identifier("expected named argument name")?;
            let _ = self.expect(TokenKind::Equal, "expected '=' after named argument name")?;
            let value = self.parse_expression()?;
            return Ok(
                Argument {
                    span: across(name.span, value.span),
                    kind: ArgumentKind::Named { name, value },
                },
            );
        }
        let expression = self.parse_expression()?;
        Ok(Argument { span: expression.span, kind: ArgumentKind::Positional(expression) })
    }

    #[verifier::rlimit(40)]
    fn parse_primary(&mut self) -> (result: Result<Expression, Diagnostic>)
        requires
            old(self).wf(),
        ensures
            final(self).keeps(old(self)),
            match result {
                Ok(node) => final(self).read(
                    old(self),
                    node.tree(),
                    grammar::primary(old(self).input(), old(self).current as int),
                ),
                Err(diagnostic) => final(self).broke(
                    &diagnostic,
                    grammar::primary(old(self).input(), old(self).current as int),
                ),
            },
        decreases rest(old(self).input(), old(self).current as int), 2nat,
    {
        let span = self.current_span();
        let found = literal_kind(&self.tokens[self.current]);
        if let Some(kind) = found {
            self.advance();
            return Ok(Expression { kind, span });
        }
        if let Some(destination) = numeric_type(&self.tokens[self.current].kind) {
            if self.at_next(TokenKind::LeftParen) {
                return self.parse_conversion(destination);
            }
        }
        if self.at(TokenKind::LeftParen) {
            self.parse_parenthesized_expression()
        } else if self.at(TokenKind::LeftBracket) {
            self.parse_list_expression()
        } else if self.at(TokenKind::LeftBrace) {
            self.parse_braced_expression()
        } else if self.at(TokenKind::If) {
            self.parse_if_expression()
        } else {
            Err(self.error_current("expected expression"))
        }
    }

    #[verifier::rlimit(40)]
    #[verifier::spinoff_prover]
    fn parse_conversion(&mut self, destination: PrimitiveType) -> (result: Result<Expression, Diagnostic>)
        requires
            old(self).wf(),
            grammar::numeric(kind_at(old(self).input(), old(self).current as int)) == Some(destination),
            at_kind(old(self).input(), old(self).current + 1, TokenKind::LeftParen),
        ensures
            final(self).keeps(old(self)),
            match result {
                Ok(node) => final(self).read(
                    old(self),
                    node.tree(),
                    grammar::primary(old(self).input(), old(self).current as int),
                ),
                Err(diagnostic) => final(self).broke(
                    &diagnostic,
                    grammar::primary(old(self).input(), old(self).current as int),
                ),
            },
        decreases rest(old(self).input(), old(self).current as int), 1nat,
    {
        let start = self.current_span();
        self.advance();
        self.advance();
        let operand = self.parse_expression()?;
        let end = self.expect(TokenKind::RightParen, "expected ')' after conversion operand")?;
        Ok(
            Expression {
                kind: ExpressionKind::Conversion { destination, operand: Box::new(operand) },
                span: across(start, end),
            },
        )
    }

    #[verifier::rlimit(40)]
    fn parse_parenthesized_expression(&mut self) -> (result: Result<Expression, Diagnostic>)
        requires
            old(self).wf(),
            at_kind(old(self).input(), old(self).current as int, TokenKind::LeftParen),
        ensures
            final(self).keeps(old(self)),
            match result {
                Ok(node) => final(self).read(
                    old(self),
                    node.tree(),
                    grammar::primary(old(self).input(), old(self).current as int),
                ),
                Err(diagnostic) => final(self).broke(
                    &diagnostic,
                    grammar::primary(old(self).input(), old(self).current as int),
                ),
            },
        decreases rest(old(self).input(), old(self).current as int), 1nat,
    {
        let start = self.current_span();
        self.advance();
        let inner = self.parse_expression()?;
        let end = self.expect(TokenKind::RightParen, "expected ')' after parenthesized expression")?;
        Ok(
            Expression {
                kind: ExpressionKind::Parenthesized(Box::new(inner)),
                span: across(start, end),
            },
        )
    }

    #[verifier::rlimit(40)]
    fn parse_list_expression(&mut self) -> (result: Result<Expression, Diagnostic>)
        requires
            old(self).wf(),
        ensures
            final(self).keeps(old(self)),
            match result {
                Ok(node) => final(self).read(
                    old(self),
                    node.tree(),
                    grammar::list(old(self).input(), old(self).current as int),
                ),
                Err(diagnostic) => final(self).broke(
                    &diagnostic,
                    grammar::list(old(self).input(), old(self).current as int),
                ),
            },
        decreases rest(old(self).input(), old(self).current as int), 1nat,
    {
        let ghost p = self.input();
        let ghost whole = grammar::list(p, self.current as int);
        let start = self.expect(TokenKind::LeftBracket, "expected '[' to begin list literal")?;
        let mut elements: Vec<Expression> = Vec::new();
        proof {
            assert(expression_trees(elements@) =~= seq![]);
        }
        if let Some(close) = self.take(TokenKind::RightBracket) {
            if self.take(TokenKind::Colon).is_some() {
                let ty = self.parse_list_type()?;
                let span = across(start, ty.span);
                return Ok(Expression { kind: ExpressionKind::TypedEmptyList(ty), span });
            }
            return Ok(
                Expression { kind: ExpressionKind::List(elements), span: across(start, close) },
            );
        }
        loop
            invariant
                self.keeps(old(self)),
                p == self.input(),
                old(self).wf(),
                self.current > old(self).current,
                whole == grammar::list(p, old(self).current as int),
                whole == grammar::list_rest(p, self.current as int, start, expression_trees(elements@)),
            decreases rest(p, self.current as int),
        {
            let ghost before = expression_trees(elements@);
            let element = self.parse_expression()?;
            elements.push(element);
            if self.take(TokenKind::Comma).is_none() {
                let end = self.expect(TokenKind::RightBracket, "expected ']' after list elements")?;
                return Ok(
                    Expression { kind: ExpressionKind::List(elements), span: across(start, end) },
                );
            }
        }
    }

    #[verifier::rlimit(40)]
    fn parse_braced_expression(&mut self) -> (result: Result<Expression, Diagnostic>)
        requires
            old(self).wf(),
        ensures
            final(self).keeps(old(self)),
            match result {
                Ok(node) => final(self).read(
                    old(self),
                    node.tree(),
                    grammar::braced(old(self).input(), old(self).current as int),
                ),
                Err(diagnostic) => final(self).broke(
                    &diagnostic,
                    grammar::braced(old(self).input(), old(self).current as int),
                ),
            },
        decreases rest(old(self).input(), old(self).current as int), 1nat,
    {
        let checkpoint: usize = self.current;
        let start = self.expect(TokenKind::LeftBrace, "expected '{' to begin braced expression")?;
        if let Some(close) = self.take(TokenKind::RightBrace) {
            if self.take(TokenKind::Colon).is_some() {
                let ty = self.parse_map_type()?;
                let span = across(start, ty.span);
                return Ok(Expression { kind: ExpressionKind::TypedEmptyMap(ty), span });
            }
            let empty: Vec<MapEntry> = Vec::new();
            let map = Expression { kind: ExpressionKind::Mapping(empty), span: across(start, close) };
            assert(entry_trees(empty@) =~= seq![]);
            return Ok(map);
        }
        match self.parse_expression() {
            Ok(first) => {
                if self.take(TokenKind::Colon).is_some() {
                    return self.parse_map_expression(start, first);
                }
            },
            Err(_) => {},
        }
        self.current = checkpoint;
        let block = self.parse_block()?;
        let span = block.span;
        Ok(Expression { kind: ExpressionKind::Block(block), span })
    }

    #[verifier::rlimit(40)]
    fn parse_map_expression(&mut self, start: Span, first_key: Expression) -> (result: Result<Expression, Diagnostic>)
        requires
            old(self).wf(),
        ensures
            final(self).keeps(old(self)),
            match result {
                Ok(node) => final(self).read(
                    old(self),
                    node.tree(),
                    grammar::map_rest(old(self).input(), old(self).current as int, start, first_key.tree(), seq![]),
                ),
                Err(diagnostic) => final(self).broke(
                    &diagnostic,
                    grammar::map_rest(old(self).input(), old(self).current as int, start, first_key.tree(), seq![]),
                ),
            },
        decreases rest(old(self).input(), old(self).current as int), 8nat,
    {
        let ghost p = self.input();
        let ghost whole = grammar::map_rest(p, self.current as int, start, first_key.tree(), seq![]);
        let mut key = first_key;
        let mut entries: Vec<MapEntry> = Vec::new();
        proof {
            assert(entry_trees(entries@) =~= seq![]);
        }
        loop
            invariant
                self.keeps(old(self)),
                p == self.input(),
                old(self).wf(),
                self.current >= old(self).current,
                whole == grammar::map_rest(p, old(self).current as int, start, first_key.tree(), seq![]),
                whole == grammar::map_rest(
                    p,
                    self.current as int,
                    start,
                    key.tree(),
                    entry_trees(entries@),
                ),
            decreases rest(p, self.current as int),
        {
            let ghost before = entry_trees(entries@);
            let value = self.parse_expression()?;
            let span = across(key.span, value.span);
            let entry = MapEntry { key, value, span };
            entries.push(entry);
            if self.take(TokenKind::Comma).is_none() {
                let end = self.expect(TokenKind::RightBrace, "expected '}' after map entries")?;
                return Ok(
                    Expression {
                        kind: ExpressionKind::Mapping(entries),
                        span: across(start, end),
                    },
                );
            }
            key = self.parse_expression()?;
            let _ = self.expect(TokenKind::Colon, "expected ':' between map key and value")?;
        }
    }

    #[verifier::rlimit(40)]
    fn parse_expression_branch(&mut self, start: Span) -> (result: Result<ConditionalExpressionBranch, Diagnostic>)
        requires
            old(self).wf(),
        ensures
            final(self).keeps(old(self)),
            match result {
                Ok(node) => final(self).read(
                    old(self),
                    node.tree(),
                    grammar::expression_branch(old(self).input(), start, old(self).current as int),
                ),
                Err(diagnostic) => final(self).broke(
                    &diagnostic,
                    grammar::expression_branch(old(self).input(), start, old(self).current as int),
                ),
            },
        decreases rest(old(self).input(), old(self).current as int), 7nat,
    {
        let condition = self.parse_expression()?;
        let body = self.parse_expression_body()?;
        let span = across(start, body.span);
        Ok(ConditionalExpressionBranch { condition, body, span })
    }

    #[verifier::rlimit(40)]
    #[verifier::spinoff_prover]
    fn parse_if_expression(&mut self) -> (result: Result<Expression, Diagnostic>)
        requires
            old(self).wf(),
        ensures
            final(self).keeps(old(self)),
            match result {
                Ok(node) => final(self).read(
                    old(self),
                    node.tree(),
                    grammar::if_expression(old(self).input(), old(self).current as int),
                ),
                Err(diagnostic) => final(self).broke(
                    &diagnostic,
                    grammar::if_expression(old(self).input(), old(self).current as int),
                ),
            },
        decreases rest(old(self).input(), old(self).current as int), 1nat,
    {
        let ghost p = self.input();
        let ghost whole = grammar::if_expression(p, self.current as int);
        let start = self.expect(TokenKind::If, "expected 'if'")?;
        let first = self.parse_expression_branch(start)?;
        let mut branches: Vec<ConditionalExpressionBranch> = Vec::new();
        branches.push(first);
        proof {
            assert(expression_branch_trees(branches@) =~= seq![first.tree()]);
        }
        while self.at(TokenKind::Else) && self.at_next(TokenKind::If)
            invariant
                self.keeps(old(self)),
                p == self.input(),
                old(self).wf(),
                self.current > old(self).current,
                whole == grammar::if_expression(p, old(self).current as int),
                whole == grammar::if_expression_rest(
                    p,
                    self.current as int,
                    start,
                    expression_branch_trees(branches@),
                ),
            decreases rest(p, self.current as int),
        {
            let ghost before = expression_branch_trees(branches@);
            let else_token = self.current_span();
            self.advance();
            self.advance();
            let branch = self.parse_expression_branch(else_token)?;
            branches.push(branch);
            assert(expression_branch_trees(branches@) =~= before.push(branch.tree()));
        }
        let _ = self.expect(TokenKind::Else, "if expression requires a final 'else' branch")?;
        let else_branch = self.parse_expression_body()?;
        let span = across(start, else_branch.span);
        Ok(Expression { kind: ExpressionKind::If { branches, else_branch }, span })
    }

    #[verifier::rlimit(40)]
    fn parse_expression_body(&mut self) -> (result: Result<ExpressionBody, Diagnostic>)
        requires
            old(self).wf(),
        ensures
            final(self).keeps(old(self)),
            match result {
                Ok(node) => final(self).read(
                    old(self),
                    node.tree(),
                    grammar::expression_body(old(self).input(), old(self).current as int),
                ),
                Err(diagnostic) => final(self).broke(
                    &diagnostic,
                    grammar::expression_body(old(self).input(), old(self).current as int),
                ),
            },
        decreases rest(old(self).input(), old(self).current as int), 1nat,
    {
        if self.at(TokenKind::LeftBrace) {
            let block = self.parse_block()?;
            let span = block.span;
            return Ok(ExpressionBody { kind: ExpressionBodyKind::Block(block), span });
        }
        let colon = self.expect(TokenKind::Colon, "expected block or ':' expression body")?;
        let expression = self.parse_expression()?;
        Ok(
            ExpressionBody {
                span: across(colon, expression.span),
                kind: ExpressionBodyKind::Expression(Box::new(expression)),
            },
        )
    }

    fn integer_token_is_decimal(&self) -> (result: bool)
        requires
            self.wf(),
        ensures
            result == grammar::decimal_token(self.input(), self.current as int),
    {
        let bytes = self.source.text.as_str().as_bytes();
        let start: usize = self.current_span().start;
        !(start < bytes.len() && bytes[start] == 48 && start + 1 < bytes.len() && (bytes[start + 1] == 120
            || bytes[start + 1] == 98))
    }
}

fn primitive_type(kind: &TokenKind) -> (result: Option<PrimitiveType>)
    ensures
        result == grammar::primitive(kind@),
{
    match kind {
        TokenKind::Int => Some(PrimitiveType::Int),
        TokenKind::FloatType => Some(PrimitiveType::Float),
        TokenKind::Str => Some(PrimitiveType::Str),
        TokenKind::Bool => Some(PrimitiveType::Bool),
        TokenKind::Char => Some(PrimitiveType::Char),
        _ => None,
    }
}

fn numeric_type(kind: &TokenKind) -> (result: Option<PrimitiveType>)
    ensures
        result == grammar::numeric(kind@),
{
    match kind {
        TokenKind::Int => Some(PrimitiveType::Int),
        TokenKind::FloatType => Some(PrimitiveType::Float),
        _ => None,
    }
}

fn assignment_operator(kind: &TokenKind) -> (result: Option<AssignmentOperator>)
    ensures
        result == grammar::assignment_operator(kind@),
{
    match kind {
        TokenKind::Equal => Some(AssignmentOperator::Assign),
        TokenKind::PlusEqual => Some(AssignmentOperator::Add),
        TokenKind::MinusEqual => Some(AssignmentOperator::Subtract),
        TokenKind::StarEqual => Some(AssignmentOperator::Multiply),
        TokenKind::SlashEqual => Some(AssignmentOperator::Divide),
        TokenKind::PercentEqual => Some(AssignmentOperator::Remainder),
        TokenKind::AmpersandEqual => Some(AssignmentOperator::BitwiseAnd),
        TokenKind::PipeEqual => Some(AssignmentOperator::BitwiseOr),
        TokenKind::CaretEqual => Some(AssignmentOperator::BitwiseXor),
        TokenKind::ShiftLeftEqual => Some(AssignmentOperator::ShiftLeft),
        TokenKind::ShiftRightEqual => Some(AssignmentOperator::ShiftRight),
        _ => None,
    }
}

fn binary_operator(kind: &TokenKind) -> (result: Option<(BinaryOperator, u8)>)
    ensures
        result == grammar::binary_operator(kind@),
{
    match kind {
        TokenKind::LogicalOr => Some((BinaryOperator::LogicalOr, 1)),
        TokenKind::LogicalAnd => Some((BinaryOperator::LogicalAnd, 2)),
        TokenKind::Pipe => Some((BinaryOperator::BitwiseOr, 3)),
        TokenKind::Caret => Some((BinaryOperator::BitwiseXor, 4)),
        TokenKind::Ampersand => Some((BinaryOperator::BitwiseAnd, 5)),
        TokenKind::EqualEqual => Some((BinaryOperator::Equal, 6)),
        TokenKind::BangEqual => Some((BinaryOperator::NotEqual, 6)),
        TokenKind::Less => Some((BinaryOperator::Less, 7)),
        TokenKind::LessEqual => Some((BinaryOperator::LessEqual, 7)),
        TokenKind::Greater => Some((BinaryOperator::Greater, 7)),
        TokenKind::GreaterEqual => Some((BinaryOperator::GreaterEqual, 7)),
        TokenKind::In => Some((BinaryOperator::In, 7)),
        TokenKind::ShiftLeft => Some((BinaryOperator::ShiftLeft, 8)),
        TokenKind::ShiftRight => Some((BinaryOperator::ShiftRight, 8)),
        TokenKind::Plus => Some((BinaryOperator::Add, 9)),
        TokenKind::Minus => Some((BinaryOperator::Subtract, 9)),
        TokenKind::Star => Some((BinaryOperator::Multiply, 10)),
        TokenKind::Slash => Some((BinaryOperator::Divide, 10)),
        TokenKind::Percent => Some((BinaryOperator::Remainder, 10)),
        _ => None,
    }
}

fn unary_operator(kind: &TokenKind) -> (result: Option<UnaryOperator>)
    ensures
        result == grammar::unary_operator(kind@),
{
    match kind {
        TokenKind::Bang => Some(UnaryOperator::LogicalNot),
        TokenKind::Tilde => Some(UnaryOperator::BitwiseNot),
        TokenKind::Plus => Some(UnaryOperator::Plus),
        TokenKind::Minus => Some(UnaryOperator::Minus),
        _ => None,
    }
}

/// A copy of the bytes of a string literal.
fn copy_bytes(bytes: &Vec<u8>) -> (result: Vec<u8>)
    ensures
        result@ == bytes@,
{
    let mut copy: Vec<u8> = Vec::new();
    let mut index: usize = 0;
    while index < bytes.len()
        invariant
            index <= bytes@.len(),
            copy@ == bytes@.take(index as int),
        decreases bytes@.len() - index,
    {
        copy.push(bytes[index]);
        index = index + 1;
        assert(copy@ =~= bytes@.take(index as int));
    }
    assert(copy@ =~= bytes@);
    copy
}

/// The label of an expression without children.
spec fn literal_label(kind: ExpressionKind) -> Label {
    match kind {
        ExpressionKind::Identifier(name) => Label::Identifier(name.span),
        ExpressionKind::Integer => Label::Integer,
        ExpressionKind::Float => Label::Float,
        ExpressionKind::String(bytes) => Label::Text(bytes@),
        ExpressionKind::Character(value) => Label::Character(value),
        ExpressionKind::Boolean(value) => Label::Boolean(value),
        _ => Label::Unit,
    }
}

/// The expression that a token spells on its own.
fn literal_kind(token: &Token) -> (result: Option<ExpressionKind>)
    ensures
        match result {
            Some(kind) => forall|p: Input, at: int|
                0 <= at < p.tokens.len() && #[trigger] p.tokens[at] == token@ ==> grammar::literal(p, at) == Some(
                    literal_label(kind),
                ) && (Expression { kind, span: token.span }).tree() == leaf(literal_label(kind), token.span),
            None => forall|p: Input, at: int|
                0 <= at < p.tokens.len() && #[trigger] p.tokens[at] == token@ ==> grammar::literal(p, at) is None,
        },
{
    match &token.kind {
        TokenKind::Identifier => Some(ExpressionKind::Identifier(Identifier { span: token.span })),
        TokenKind::Integer => Some(ExpressionKind::Integer),
        TokenKind::Float => Some(ExpressionKind::Float),
        TokenKind::String(bytes) => Some(ExpressionKind::String(copy_bytes(bytes))),
        TokenKind::Character(value) => Some(ExpressionKind::Character(*value)),
        TokenKind::True => Some(ExpressionKind::Boolean(true)),
        TokenKind::False => Some(ExpressionKind::Boolean(false)),
        _ => None,
    }
}

fn assignment_target_from_expression(expression: Expression) -> (result: Option<AssignmentTarget>)
    ensures
        match result {
            Some(target) => grammar::target(expression.tree()) == Some(target.tree()),
            None => grammar::target(expression.tree()) is None,
        },
{
    let span = expression.span;
    let mut suffixes: Vec<AssignmentTargetSuffix> = Vec::new();
    proof {
        assert(suffix_trees(suffixes@) =~= seq![]);
    }
    match collect_assignment_target(expression, &mut suffixes) {
        Some(root) => {
            Some(AssignmentTarget { root, suffixes, span })
        },
        None => None,
    }
}

/// The root of an expression that can be assigned to; its suffixes are appended.
fn collect_assignment_target(expression: Expression, suffixes: &mut Vec<AssignmentTargetSuffix>) -> (result: Option<
    Identifier,
>)
    requires
        old(suffixes)@.len() == 0,
    ensures
        match result {
            Some(root) => grammar::target_parts(expression.tree()) == Some(
                (root.span, suffix_trees(final(suffixes)@)),
            ),
            None => grammar::target_parts(expression.tree()) is None,
        },
    decreases expression,
{
    let whole = expression.span;
    match expression.kind {
        ExpressionKind::Identifier(identifier) => {
            proof {
                grammar::lemma_target_name(identifier.span, expression.span);
                assert(suffix_trees(suffixes@) =~= seq![]);
            }
            Some(identifier)
        },
        ExpressionKind::Member { value, member } => {
            proof {
                grammar::lemma_target_member(member, expression.span, value.tree());
            }
            let start: usize = value.span.end;
            match collect_assignment_target(*value, suffixes) {
                Some(root) => {
                    let ghost before = suffix_trees(suffixes@);
                    let suffix = AssignmentTargetSuffix {
                        kind: AssignmentTargetSuffixKind::Member(member),
                        span: Span { start, ..whole },
                    };
                    suffixes.push(suffix);
                    Some(root)
                },
                None => None,
            }
        },
        ExpressionKind::Index { value, index } => {
            proof {
                grammar::lemma_target_index(expression.span, value.tree(), index.tree());
            }
            let start: usize = value.span.end;
            match collect_assignment_target(*value, suffixes) {
                Some(root) => {
                    let ghost before = suffix_trees(suffixes@);
                    let suffix = AssignmentTargetSuffix {
                        kind: AssignmentTargetSuffixKind::Index(*index),
                        span: Span { start, ..whole },
                    };
                    suffixes.push(suffix);
                    Some(root)
                },
                None => None,
            }
        },
        _ => {
            proof {
                grammar::lemma_target_none(&expression);
            }
            None
        },
    }
}

impl<'source> Parser<'source> {
    fn new(source: &'source SourceFile, tokens: Vec<Token>) -> (result: Self)
        requires
            source.wf(),
            tokens@.len() > 0,
            tokens@.last()@.kind == KindView::Plain(TokenKind::Eof),
        ensures
            result.wf(),
            result.source == source,
            result.tokens == tokens,
            result.current == 0,
    {
        Self { source, tokens, current: 0 }
    }

    fn parse_program(self) -> (result: Result<Program, Diagnostic>)
        requires
            self.wf(),
            self.current == 0,
        ensures
            match result {
                Ok(program) => grammar::program(self.input()) == Ok::<Tree, lexer::Report>(program.tree()),
                Err(diagnostic) => grammar::program(self.input()) is Err && diagnostic@ == report_view(
                    self.source,
                    grammar::program(self.input())->Err_0,
                ),
            },
    {
        let mut parser = self;
        let ghost p = self.input();
        let ghost whole = grammar::declarations(p, 0, seq![]);
        let mut declarations: Vec<Declaration> = Vec::new();
        proof {
            assert(declaration_trees(declarations@) =~= seq![]);
        }
        while !parser.at(TokenKind::Eof)
            invariant
                parser.keeps(&self),
                p == parser.input(),
                p == self.input(),
                self.wf(),
                whole == grammar::declarations(p, 0, seq![]),
                whole == grammar::declarations(p, parser.current as int, declaration_trees(declarations@)),
            decreases rest(p, parser.current as int),
        {
            let ghost before = declaration_trees(declarations@);
            let declaration = if parser.at(TokenKind::Type) {
                Declaration::Type(parser.parse_type_declaration()?)
            } else if parser.at(TokenKind::Fn) {
                Declaration::Function(parser.parse_function()?)
            } else {
                return Err(parser.error_current("expected top-level 'type' or 'fn' declaration"));
            };
            declarations.push(declaration);
            assert(declaration_trees(declarations@) =~= before.push(declaration.tree()));
        }
        let end: usize = parser.source.text.as_str().len();
        let tree: u64 = parser.tokens[parser.tokens.len() - 1].span.tree;
        Ok(Program { declarations, span: Span { start: 0, end, tree } })
    }

    #[verifier::rlimit(40)]
    fn parse_type_declaration(&mut self) -> (result: Result<TypeDeclaration, Diagnostic>)
        requires
            old(self).wf(),
        ensures
            final(self).keeps(old(self)),
            match result {
                Ok(node) => final(self).read(
                    old(self),
                    node.tree(),
                    grammar::type_declaration(old(self).input(), old(self).current as int),
                ),
                Err(diagnostic) => final(self).broke(
                    &diagnostic,
                    grammar::type_declaration(old(self).input(), old(self).current as int),
                ),
            },
    {
        let ghost p = self.input();
        let ghost at = self.current as int;
        let ghost whole = grammar::type_declaration(p, at);
        let start = self.expect(TokenKind::Type, "expected type declaration beginning with 'type'")?;
        let name = self.parse_identifier("expected type name after 'type'")?;
        let _ = self.expect(TokenKind::LeftParen, "expected '(' after type name")?;
        let mut members: Vec<TypeMember> = Vec::new();
        if self.at(TokenKind::RightParen) {
            return Err(self.error_current("expected at least one type member"));
        }
        proof {
            assert(member_trees(members@) =~= seq![]);
        }
        loop
            invariant
                self.keeps(old(self)),
                p == self.input(),
                old(self).wf(),
                at == old(self).current,
                self.current > at,
                start == span_at(p, at),
                name.span == span_at(p, at + 1),
                whole == grammar::type_declaration(p, at),
                whole == grammar::members_rest(p, self.current as int, at, member_trees(members@)),
            decreases rest(p, self.current as int),
        {
            let ghost before = member_trees(members@);
            let member = self.parse_type_member()?;
            members.push(member);
            assert(member_trees(members@) =~= before.push(member.tree()));
            if self.take(TokenKind::Comma).is_none() {
                let _ = self.expect(TokenKind::RightParen, "expected ')' after type declaration members")?;
                let end = self.expect(TokenKind::Semicolon, "expected ';' after type declaration")?;
                return Ok(TypeDeclaration { name, members, span: across(start, end) });
            }
        }
    }

    #[verifier::rlimit(40)]
    fn parse_type_member(&mut self) -> (result: Result<TypeMember, Diagnostic>)
        requires
            old(self).wf(),
        ensures
            final(self).keeps(old(self)),
            match result {
                Ok(node) => final(self).read(
                    old(self),
                    node.tree(),
                    grammar::type_member(old(self).input(), old(self).current as int),
                ),
                Err(diagnostic) => final(self).broke(
                    &diagnostic,
                    grammar::type_member(old(self).input(), old(self).current as int),
                ),
            },
    {
        if self.at(TokenKind::Identifier) && (self.at_next(TokenKind::Ampersand)
            || self.at_next_unambiguous_type_start()) {
            let name = self.parse_identifier("expected member name")?;
            let referenced = self.take(TokenKind::Ampersand).is_some();
            let ty = self.parse_type()?;
            return Ok(
                TypeMember {
                    span: across(name.span, ty.span),
                    kind: TypeMemberKind::Named { name, referenced, ty },
                },
            );
        }
        let ty = self.parse_type()?;
        Ok(TypeMember { span: ty.span, kind: TypeMemberKind::Unnamed(ty) })
    }

    #[verifier::rlimit(40)]
    fn parse_parameter(&mut self) -> (result: Result<Parameter, Diagnostic>)
        requires
            old(self).wf(),
        ensures
            final(self).keeps(old(self)),
            match result {
                Ok(node) => final(self).read(
                    old(self),
                    node.tree(),
                    grammar::parameter(old(self).input(), old(self).current as int),
                ),
                Err(diagnostic) => final(self).broke(
                    &diagnostic,
                    grammar::parameter(old(self).input(), old(self).current as int),
                ),
            },
    {
        let first = self.current_span();
        let mutable = self.take(TokenKind::Var).is_some();
        let name = self.parse_identifier("expected parameter name")?;
        let ty = self.parse_type()?;
        Ok(Parameter { mutable, name, span: across(first, ty.span), ty })
    }

    #[verifier::rlimit(40)]
    fn parse_function(&mut self) -> (result: Result<FunctionDeclaration, Diagnostic>)
        requires
            old(self).wf(),
        ensures
            final(self).keeps(old(self)),
            match result {
                Ok(node) => final(self).read(
                    old(self),
                    node.tree(),
                    grammar::function(old(self).input(), old(self).current as int),
                ),
                Err(diagnostic) => final(self).broke(
                    &diagnostic,
                    grammar::function(old(self).input(), old(self).current as int),
                ),
            },
    {
        let ghost p = self.input();
        let ghost at = self.current as int;
        let ghost whole = grammar::function(p, at);
        let start = self.expect(TokenKind::Fn, "expected function declaration beginning with 'fn'")?;
        let name = self.parse_identifier("expected function name after 'fn'")?;
        let _ = self.expect(TokenKind::LeftParen, "expected '(' after function name")?;
        let mut parameters: Vec<Parameter> = Vec::new();
        proof {
            assert(parameter_trees(parameters@) =~= seq![]);
        }
        let mut more = !self.at(TokenKind::RightParen);
        while more
            invariant
                self.keeps(old(self)),
                p == self.input(),
                old(self).wf(),
                at == old(self).current,
                self.current > at,
                whole == grammar::function(p, at),
                more ==> whole == grammar::parameters_rest(
                    p,
                    self.current as int,
                    at,
                    parameter_trees(parameters@),
                ),
                !more ==> whole == (if at_kind(p, self.current as int, TokenKind::RightParen) {
                    grammar::function_rest(p, self.current + 1, at, parameter_trees(parameters@))
                } else {
                    grammar::failed(p, self.current as int, "expected ')' after function parameters"@)
                }),
            decreases rest(p, self.current as int),
        {
            let ghost before = parameter_trees(parameters@);
            let parameter = self.parse_parameter()?;
            parameters.push(parameter);
            assert(parameter_trees(parameters@) =~= before.push(parameter.tree()));
            more = self.take(TokenKind::Comma).is_some();
        }
        let _ = self.expect(TokenKind::RightParen, "expected ')' after function parameters")?;
        let return_type = if self.at(TokenKind::LeftBrace) {
            self.try_parse_map_return_type()
        } else if self.at_type_start() {
            Some(self.parse_type()?)
        } else {
            None
        };
        let body = self.parse_block()?;
        Ok(FunctionDeclaration { name, parameters, return_type, span: across(start, body.span), body })
    }

    /// A map type that is followed by a brace; else nothing is read.
    fn try_parse_map_return_type(&mut self) -> (result: Option<Type>)
        requires
            old(self).wf(),
        ensures
            final(self).keeps(old(self)),
            final(self).current >= old(self).current,
            match grammar::type_at(old(self).input(), old(self).current as int) {
                Ok((tree, next)) => if at_kind(old(self).input(), next, TokenKind::LeftBrace) {
                    &&& result is Some
                    &&& (result->0).tree() == tree
                    &&& final(self).current == next
                } else {
                    result is None && final(self).current == old(self).current
                },
                Err(_) => result is None && final(self).current == old(self).current,
            },
    {
        let checkpoint: usize = self.current;
        match self.parse_type() {
            Ok(ty) => {
                if self.at(TokenKind::LeftBrace) {
                    return Some(ty);
                }
            },
            Err(_) => {},
        }
        self.current = checkpoint;
        None
    }

    fn at_type_start(&self) -> (result: bool)
        requires
            self.wf(),
        ensures
            result == grammar::starts_type(self.input(), self.current as int),
    {
        self.at(TokenKind::Int) || self.at(TokenKind::FloatType) || self.at(TokenKind::Str) || self.at(
            TokenKind::Bool,
        ) || self.at(TokenKind::Char) || self.at(TokenKind::Identifier) || self.at(TokenKind::LeftBracket)
            || self.at(TokenKind::LeftBrace) || self.at(TokenKind::LeftParen)
    }

    fn at_next_unambiguous_type_start(&self) -> (result: bool)
        requires
            self.wf(),
        ensures
            result == grammar::type_after_name(self.input(), self.current + 1),
    {
        self.at_offset(1, TokenKind::Int) || self.at_offset(1, TokenKind::FloatType) || self.at_offset(
            1,
            TokenKind::Str,
        ) || self.at_offset(1, TokenKind::Bool) || self.at_offset(1, TokenKind::Char) || self.at_offset(
            1,
            TokenKind::Identifier,
        ) || self.at_offset(1, TokenKind::LeftBracket) || self.at_offset(1, TokenKind::LeftBrace)
    }
}

spec fn declaration_trees(declarations: Seq<Declaration>) -> Seq<Tree> {
    declarations.map_values(|declaration: Declaration| declaration.tree())
}

spec fn member_trees(members: Seq<TypeMember>) -> Seq<Tree> {
    members.map_values(|member: TypeMember| member.tree())
}

spec fn parameter_trees(parameters: Seq<Parameter>) -> Seq<Tree> {
    parameters.map_values(|parameter: Parameter| parameter.tree())
}

/// What parsing a source file returns: the errors of the lexer, the first syntax error, or the
/// program with the syntax tree of the text, which has the given number.
pub open spec fn parse_result(source: &SourceFile, tree: u64, result: Result<Program, Diagnostics>) -> bool {
    let lexed = lexer::lexed(source.bytes());
    let parsed = grammar::program(input_of(source.bytes(), tree));
    match result {
        Ok(program) => lexed.errors.len() == 0 && parsed == Ok::<Tree, lexer::Report>(program.tree()),
        Err(diagnostics) => if lexed.errors.len() > 0 {
            diagnostics@ == lexer::kept(source, lexed.errors)
        } else {
            parsed is Err && diagnostics@ == seq![report_view(source, parsed->Err_0)]
        },
    }
}

/// Gives tokens the number of a tree.
fn number(tokens: &mut Vec<Token>, tree: u64)
    ensures
        token_views(final(tokens)@) == numbered(token_views(old(tokens)@), tree),
        final(tokens)@.len() == old(tokens)@.len(),
        forall|i: int| 0 <= i < old(tokens)@.len() ==> (#[trigger] final(tokens)@[i])@.kind == old(tokens)@[i]@.kind,
{
    let ghost all = tokens@;
    let mut index: usize = 0;
    while index < tokens.len()
        invariant
            index <= tokens@.len() == all.len(),
            forall|i: int|
                0 <= i < index ==> (#[trigger] tokens@[i])@ == (TokenView {
                    span: Span { tree, ..all[i]@.span },
                    ..all[i]@
                }),
            forall|i: int| index <= i < all.len() ==> #[trigger] tokens@[i] == all[i],
        decreases tokens@.len() - index,
    {
        tokens[index].span.tree = tree;
        index = index + 1;
    }
    assert(token_views(tokens@) =~= numbered(token_views(all), tree));
}

/// The syntax tree of a source file. Its nodes carry the given number: those of trees with different numbers are
/// different nodes.
pub fn parse(source: &SourceFile, tree: u64) -> (result: Result<Program, Diagnostics>)
    requires
        source.wf(),
    ensures
        parse_result(source, tree, result),
{
    let mut tokens = lexer::lex(source)?;
    proof {
        lexer::lemma_last_token(source.bytes(), tokens@);
    }
    number(&mut tokens, tree);
    match Parser::new(source, tokens).parse_program() {
        Ok(program) => Ok(program),
        Err(diagnostic) => {
            let mut diagnostics = Diagnostics::new();
            diagnostics.push(diagnostic);
            assert(diagnostics@ =~= seq![diagnostic@]);
            Err(diagnostics)
        },
    }
}

} // verus!
