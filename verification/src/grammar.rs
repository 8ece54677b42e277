//! The grammar: which syntax tree a sequence of tokens stands for, and where the first error is.

pub mod nesting;
pub mod operators;

use crate::ast::{
    AssignmentOperator, BinaryOperator, Expression, Identifier, Label, Member, PrimitiveType, Tree,
    UnaryOperator, block_node, call_node, function_node, if_expression_node, if_node, leaf, node, node1, node2,
    return_node, switch_node,
};
use crate::lexer::{KindView, Report, TokenKind, TokenView, bytes_are, complete_tokens};
use crate::source::Span;
use vstd::prelude::*;

verus! {

/// What is parsed: the text and its tokens, the last of which stands for its end.
pub struct Input {
    pub bytes: Seq<u8>,
    pub tokens: Seq<TokenView>,
}

/// Tokens whose spans are spans of a tree with the given number.
pub open spec fn numbered(tokens: Seq<TokenView>, tree: u64) -> Seq<TokenView> {
    tokens.map_values(|token: TokenView| TokenView { span: Span { tree, ..token.span }, ..token })
}

/// What is parsed where a text gets a tree with the given number.
pub open spec fn input_of(bytes: Seq<u8>, tree: u64) -> Input {
    Input { bytes, tokens: numbered(complete_tokens(bytes), tree) }
}

/// A tree with the index of the token behind it, or the first error.
pub type Parsed = Result<(Tree, int), Report>;

pub open spec fn at_kind(p: Input, at: int, kind: TokenKind) -> bool {
    0 <= at < p.tokens.len() && p.tokens[at].kind == KindView::Plain(kind)
}

pub open spec fn span_at(p: Input, at: int) -> Span {
    p.tokens[at].span
}

/// The kind of the token at an index; the kind of the end of the text behind the last one.
pub open spec fn kind_at(p: Input, at: int) -> KindView {
    if 0 <= at < p.tokens.len() {
        p.tokens[at].kind
    } else {
        KindView::Plain(TokenKind::Eof)
    }
}

/// An error at the token at an index.
pub open spec fn failed<T>(p: Input, at: int, message: Seq<char>) -> Result<T, Report> {
    Err(Report { span: span_at(p, at), message })
}

/// How many tokens there are from an index on.
pub open spec fn rest(p: Input, at: int) -> nat {
    if at < p.tokens.len() {
        (p.tokens.len() - at) as nat
    } else {
        0
    }
}

/// Whether a construct that starts at one token ends behind it.
pub open spec fn moved(p: Input, at: int, next: int) -> bool {
    0 <= at < next <= p.tokens.len()
}

/// The span from the start of one to the end of another, in the tree of the first.
pub open spec fn across(first: Span, last: Span) -> Span {
    Span { end: last.end, ..first }
}

pub open spec fn primitive(kind: KindView) -> Option<PrimitiveType> {
    match kind {
        KindView::Plain(TokenKind::Int) => Some(PrimitiveType::Int),
        KindView::Plain(TokenKind::FloatType) => Some(PrimitiveType::Float),
        KindView::Plain(TokenKind::Str) => Some(PrimitiveType::Str),
        KindView::Plain(TokenKind::Bool) => Some(PrimitiveType::Bool),
        KindView::Plain(TokenKind::Char) => Some(PrimitiveType::Char),
        _ => None,
    }
}

/// type := atom { '|' atom }
pub open spec fn type_at(p: Input, at: int) -> Parsed
    decreases rest(p, at), 2nat,
{
    match atom(p, at) {
        Err(error) => Err(error),
        Ok((first, next)) => if at_kind(p, next, TokenKind::Pipe) && at < next {
            union_rest(p, next + 1, seq![first])
        } else {
            Ok((first, next))
        },
    }
}

pub open spec fn union_rest(p: Input, at: int, before: Seq<Tree>) -> Parsed
    decreases rest(p, at), 3nat,
{
    match atom(p, at) {
        Err(error) => Err(error),
        Ok((last, next)) => {
            let all = before.push(last);
            if at_kind(p, next, TokenKind::Pipe) && at < next {
                union_rest(p, next + 1, all)
            } else {
                Ok((node(Label::UnionType, across(all[0].span, last.span), all), next))
            }
        },
    }
}

/// atom := primitive | name [ '(' type ')' ] | '[' type ']' | '{' type ':' type '}' | '(' ')' | '(' type ')'
pub open spec fn atom(p: Input, at: int) -> Parsed
    decreases rest(p, at), 1nat,
{
    if primitive(kind_at(p, at)) is Some {
        Ok((leaf(Label::PrimitiveType(primitive(kind_at(p, at))->0), span_at(p, at)), at + 1))
    } else if at_kind(p, at, TokenKind::Identifier) {
        if at_kind(p, at + 1, TokenKind::LeftParen) {
            match type_at(p, at + 2) {
                Err(error) => Err(error),
                Ok((payload, next)) => if at_kind(p, next, TokenKind::RightParen) {
                    Ok(
                        (
                            node1(
                                Label::TaggedType(span_at(p, at)),
                                across(span_at(p, at), span_at(p, next)),
                                payload,
                            ),
                            next + 1,
                        ),
                    )
                } else {
                    failed(p, next, "expected ')' after tagged alternative payload"@)
                },
            }
        } else {
            Ok((leaf(Label::NamedType(span_at(p, at)), span_at(p, at)), at + 1))
        }
    } else if at_kind(p, at, TokenKind::LeftBracket) {
        list_type(p, at)
    } else if at_kind(p, at, TokenKind::LeftBrace) {
        map_type(p, at)
    } else if at_kind(p, at, TokenKind::LeftParen) && at_kind(p, at + 1, TokenKind::RightParen) {
        Ok((leaf(Label::UnitType, across(span_at(p, at), span_at(p, at + 1))), at + 2))
    } else if at_kind(p, at, TokenKind::LeftParen) {
        match type_at(p, at + 1) {
            Err(error) => Err(error),
            Ok((inner, next)) => if at_kind(p, next, TokenKind::RightParen) {
                Ok((node1(Label::ParenthesizedType, across(span_at(p, at), span_at(p, next)), inner), next + 1))
            } else {
                failed(p, next, "expected ')' after parenthesized type"@)
            },
        }
    } else {
        failed(p, at, "expected type"@)
    }
}

pub open spec fn list_type(p: Input, at: int) -> Parsed
    decreases rest(p, at), 0nat,
{
    if !at_kind(p, at, TokenKind::LeftBracket) {
        failed(p, at, "expected '[' to begin list type"@)
    } else {
        match type_at(p, at + 1) {
            Err(error) => Err(error),
            Ok((element, next)) => if at_kind(p, next, TokenKind::RightBracket) {
                Ok((node1(Label::ListType, across(span_at(p, at), span_at(p, next)), element), next + 1))
            } else {
                failed(p, next, "expected ']' after list type"@)
            },
        }
    }
}

pub open spec fn map_type(p: Input, at: int) -> Parsed
    decreases rest(p, at), 0nat,
{
    if !at_kind(p, at, TokenKind::LeftBrace) {
        failed(p, at, "expected '{' to begin map type"@)
    } else {
        match type_at(p, at + 1) {
            Err(error) => Err(error),
            Ok((key, next)) => if !at_kind(p, next, TokenKind::Colon) || next <= at {
                failed(p, next, "expected ':' between map key and value types"@)
            } else {
                match type_at(p, next + 1) {
                    Err(error) => Err(error),
                    Ok((value, last)) => if at_kind(p, last, TokenKind::RightBrace) {
                        Ok((node2(Label::MapType, across(span_at(p, at), span_at(p, last)), key, value), last + 1))
                    } else {
                        failed(p, last, "expected '}' after map type"@)
                    },
                }
            },
        }
    }
}

pub open spec fn assignment_operator(kind: KindView) -> Option<AssignmentOperator> {
    match kind {
        KindView::Plain(TokenKind::Equal) => Some(AssignmentOperator::Assign),
        KindView::Plain(TokenKind::PlusEqual) => Some(AssignmentOperator::Add),
        KindView::Plain(TokenKind::MinusEqual) => Some(AssignmentOperator::Subtract),
        KindView::Plain(TokenKind::StarEqual) => Some(AssignmentOperator::Multiply),
        KindView::Plain(TokenKind::SlashEqual) => Some(AssignmentOperator::Divide),
        KindView::Plain(TokenKind::PercentEqual) => Some(AssignmentOperator::Remainder),
        KindView::Plain(TokenKind::AmpersandEqual) => Some(AssignmentOperator::BitwiseAnd),
        KindView::Plain(TokenKind::PipeEqual) => Some(AssignmentOperator::BitwiseOr),
        KindView::Plain(TokenKind::CaretEqual) => Some(AssignmentOperator::BitwiseXor),
        KindView::Plain(TokenKind::ShiftLeftEqual) => Some(AssignmentOperator::ShiftLeft),
        KindView::Plain(TokenKind::ShiftRightEqual) => Some(AssignmentOperator::ShiftRight),
        _ => None,
    }
}

/// A binary operator with its precedence; operators of higher precedence bind tighter.
pub open spec fn binary_operator(kind: KindView) -> Option<(BinaryOperator, u8)> {
    match kind {
        KindView::Plain(TokenKind::LogicalOr) => Some((BinaryOperator::LogicalOr, 1u8)),
        KindView::Plain(TokenKind::LogicalAnd) => Some((BinaryOperator::LogicalAnd, 2u8)),
        KindView::Plain(TokenKind::Pipe) => Some((BinaryOperator::BitwiseOr, 3u8)),
        KindView::Plain(TokenKind::Caret) => Some((BinaryOperator::BitwiseXor, 4u8)),
        KindView::Plain(TokenKind::Ampersand) => Some((BinaryOperator::BitwiseAnd, 5u8)),
        KindView::Plain(TokenKind::EqualEqual) => Some((BinaryOperator::Equal, 6u8)),
        KindView::Plain(TokenKind::BangEqual) => Some((BinaryOperator::NotEqual, 6u8)),
        KindView::Plain(TokenKind::Less) => Some((BinaryOperator::Less, 7u8)),
        KindView::Plain(TokenKind::LessEqual) => Some((BinaryOperator::LessEqual, 7u8)),
        KindView::Plain(TokenKind::Greater) => Some((BinaryOperator::Greater, 7u8)),
        KindView::Plain(TokenKind::GreaterEqual) => Some((BinaryOperator::GreaterEqual, 7u8)),
        KindView::Plain(TokenKind::In) => Some((BinaryOperator::In, 7u8)),
        KindView::Plain(TokenKind::ShiftLeft) => Some((BinaryOperator::ShiftLeft, 8u8)),
        KindView::Plain(TokenKind::ShiftRight) => Some((BinaryOperator::ShiftRight, 8u8)),
        KindView::Plain(TokenKind::Plus) => Some((BinaryOperator::Add, 9u8)),
        KindView::Plain(TokenKind::Minus) => Some((BinaryOperator::Subtract, 9u8)),
        KindView::Plain(TokenKind::Star) => Some((BinaryOperator::Multiply, 10u8)),
        KindView::Plain(TokenKind::Slash) => Some((BinaryOperator::Divide, 10u8)),
        KindView::Plain(TokenKind::Percent) => Some((BinaryOperator::Remainder, 10u8)),
        _ => None,
    }
}

pub open spec fn unary_operator(kind: KindView) -> Option<UnaryOperator> {
    match kind {
        KindView::Plain(TokenKind::Bang) => Some(UnaryOperator::LogicalNot),
        KindView::Plain(TokenKind::Tilde) => Some(UnaryOperator::BitwiseNot),
        KindView::Plain(TokenKind::Plus) => Some(UnaryOperator::Plus),
        KindView::Plain(TokenKind::Minus) => Some(UnaryOperator::Minus),
        _ => None,
    }
}

/// The root and the suffixes of an expression that can be assigned to.
pub open spec fn target_parts(tree: Tree) -> Option<(Span, Seq<Tree>)>
    decreases tree,
{
    match tree.label {
        Label::Identifier(root) => Some((root, seq![])),
        Label::Member(member) => if tree.children.len() == 1 {
            let value = tree.children[0];
            match target_parts(value) {
                Some((root, suffixes)) => Some(
                    (
                        root,
                        suffixes.push(
                            leaf(Label::MemberSuffix(member), Span { start: value.span.end, ..tree.span }),
                        ),
                    ),
                ),
                None => None,
            }
        } else {
            None
        },
        Label::Index => if tree.children.len() == 2 {
            let value = tree.children[0];
            match target_parts(value) {
                Some((root, suffixes)) => Some(
                    (
                        root,
                        suffixes.push(
                            node1(
                                Label::IndexSuffix,
                                Span { start: value.span.end, ..tree.span },
                                tree.children[1],
                            ),
                        ),
                    ),
                ),
                None => None,
            }
        } else {
            None
        },
        _ => None,
    }
}

pub open spec fn target(tree: Tree) -> Option<Tree> {
    match target_parts(tree) {
        Some((root, suffixes)) => Some(
            node(Label::Target { root }, tree.span, suffixes),
        ),
        None => None,
    }
}

/// Names can be assigned to.
pub proof fn lemma_target_name(name: Span, span: Span)
    ensures
        target_parts(leaf(Label::Identifier(name), span)) == Some((name, Seq::<Tree>::empty())),
{
    reveal(leaf);
}

/// A member of what can be assigned to can be assigned to.
pub proof fn lemma_target_member(member: Member, span: Span, value: Tree)
    ensures
        target_parts(node1(Label::Member(member), span, value)) == (match target_parts(value) {
            Some((root, suffixes)) => Some(
                (root, suffixes.push(leaf(Label::MemberSuffix(member), Span { start: value.span.end, ..span }))),
            ),
            None => None,
        }),
{
    reveal(node1);
}

/// An element of what can be assigned to can be assigned to.
pub proof fn lemma_target_index(span: Span, value: Tree, index: Tree)
    ensures
        target_parts(node2(Label::Index, span, value, index)) == (match target_parts(value) {
            Some((root, suffixes)) => Some(
                (root, suffixes.push(node1(Label::IndexSuffix, Span { start: value.span.end, ..span }, index))),
            ),
            None => None,
        }),
{
    reveal(node2);
}

/// Nothing else can be assigned to.
pub proof fn lemma_target_none(expression: &Expression)
    requires
        !(expression.kind is Identifier),
        !(expression.kind is Member),
        !(expression.kind is Index),
    ensures
        target_parts(expression.tree()) is None,
{
    reveal(leaf);
    reveal(node1);
    reveal(node2);
    reveal(node);
    reveal(if_expression_node);
    reveal(call_node);
}

/// Whether a token starts a statement that is no expression, other than a declaration without
/// 'var'.
pub open spec fn statement_keyword(p: Input, at: int) -> bool {
    at_kind(p, at, TokenKind::Var) || at_kind(p, at, TokenKind::Return) || at_kind(p, at, TokenKind::Break)
        || at_kind(p, at, TokenKind::Continue) || at_kind(p, at, TokenKind::If) || at_kind(p, at, TokenKind::While)
        || at_kind(p, at, TokenKind::For) || at_kind(p, at, TokenKind::Switch) || at_kind(
        p,
        at,
        TokenKind::LeftBrace,
    )
}

pub open spec fn declaration_start(p: Input, at: int) -> bool {
    at_kind(p, at, TokenKind::Identifier) && at_kind(p, at + 1, TokenKind::Declare)
}

/// Whether the digits of an integer token are decimal.
pub open spec fn decimal_token(p: Input, at: int) -> bool {
    let start = span_at(p, at).start as int;
    !bytes_are(p.bytes, start, 48, 120) && !bytes_are(p.bytes, start, 48, 98)
}

/// block := '{' { statement } [ expression ] '}'
pub open spec fn block(p: Input, at: int) -> Parsed
    decreases rest(p, at), 0nat,
{
    if at_kind(p, at, TokenKind::LeftBrace) {
        block_rest(p, at + 1, span_at(p, at), seq![])
    } else {
        failed(p, at, "expected block beginning with '{'"@)
    }
}

pub open spec fn block_rest(p: Input, at: int, start: Span, statements: Seq<Tree>) -> Parsed
    decreases rest(p, at), 9nat,
{
    if at_kind(p, at, TokenKind::RightBrace) {
        Ok((block_node(across(start, span_at(p, at)), statements, None), at + 1))
    } else if at_kind(p, at, TokenKind::Eof) {
        failed(p, at, "expected '}' to close block"@)
    } else if statement_keyword(p, at) || declaration_start(p, at) {
        match statement(p, at) {
            Err(error) => Err(error),
            Ok((one, next)) => if moved(p, at, next) {
                block_rest(p, next, start, statements.push(one))
            } else {
                arbitrary()
            },
        }
    } else {
        match expression(p, at) {
            Err(error) => Err(error),
            Ok((value, next)) => if !moved(p, at, next) {
                arbitrary()
            } else if assignment_operator(kind_at(p, next)) is Some {
                match assignment(p, next, value) {
                    Err(error) => Err(error),
                    Ok((one, last)) => if moved(p, next, last) {
                        block_rest(p, last, start, statements.push(one))
                    } else {
                        arbitrary()
                    },
                }
            } else if at_kind(p, next, TokenKind::Semicolon) {
                block_rest(
                    p,
                    next + 1,
                    start,
                    statements.push(
                        node1(Label::ExpressionStatement, across(value.span, span_at(p, next)), value),
                    ),
                )
            } else if at_kind(p, next, TokenKind::RightBrace) {
                Ok((block_node(across(start, span_at(p, next)), statements, Some(value)), next + 1))
            } else {
                failed(p, next, "expected ';' or '}' after expression"@)
            },
        }
    }
}

/// The rest of an assignment whose operator stands at `at`.
pub open spec fn assignment(p: Input, at: int, place: Tree) -> Parsed
    decreases rest(p, at), 8nat,
{
    match target(place) {
        None => Err(
            Report {
                span: place.span,
                message:
                    "assignment target must begin with an identifier and contain only member or index access"@,
            },
        ),
        Some(target) => if !(0 <= at < p.tokens.len()) {
            arbitrary()
        } else {
            match expression(p, at + 1) {
                Err(error) => Err(error),
                Ok((value, next)) => if at_kind(p, next, TokenKind::Semicolon) {
                    Ok(
                        (
                            node2(
                                Label::Assignment {
                                    operator: assignment_operator(kind_at(p, at))->0,
                                    operator_span: span_at(p, at),
                                },
                                across(target.span, span_at(p, next)),
                                target,
                                value,
                            ),
                            next + 1,
                        ),
                    )
                } else {
                    failed(p, next, "expected ';' after assignment"@)
                },
            }
        },
    }
}

pub open spec fn statement(p: Input, at: int) -> Parsed
    decreases rest(p, at), 8nat,
{
    if at_kind(p, at, TokenKind::Var) || declaration_start(p, at) {
        local(p, at)
    } else if at_kind(p, at, TokenKind::Return) {
        return_statement(p, at)
    } else if at_kind(p, at, TokenKind::Break) {
        if at_kind(p, at + 1, TokenKind::Semicolon) {
            Ok((leaf(Label::Break, across(span_at(p, at), span_at(p, at + 1))), at + 2))
        } else {
            failed(p, at + 1, "expected ';' after loop control statement"@)
        }
    } else if at_kind(p, at, TokenKind::Continue) {
        if at_kind(p, at + 1, TokenKind::Semicolon) {
            Ok((leaf(Label::Continue, across(span_at(p, at), span_at(p, at + 1))), at + 2))
        } else {
            failed(p, at + 1, "expected ';' after loop control statement"@)
        }
    } else if at_kind(p, at, TokenKind::If) {
        if_statement(p, at)
    } else if at_kind(p, at, TokenKind::While) {
        while_statement(p, at)
    } else if at_kind(p, at, TokenKind::For) {
        for_statement(p, at)
    } else if at_kind(p, at, TokenKind::Switch) {
        switch_statement(p, at)
    } else if at_kind(p, at, TokenKind::LeftBrace) {
        match block(p, at) {
            Err(error) => Err(error),
            Ok((body, next)) => Ok((node1(Label::BlockStatement, body.span, body), next)),
        }
    } else {
        match expression(p, at) {
            Err(error) => Err(error),
            Ok((value, next)) => if assignment_operator(kind_at(p, next)) is Some && at < next {
                assignment(p, next, value)
            } else if at_kind(p, next, TokenKind::Semicolon) {
                Ok((node1(Label::ExpressionStatement, across(value.span, span_at(p, next)), value), next + 1))
            } else {
                failed(p, next, "expected ';' after expression statement"@)
            },
        }
    }
}

/// local := [ 'var' ] name ':=' expression ';'
pub open spec fn local(p: Input, at: int) -> Parsed
    decreases rest(p, at), 7nat,
{
    let mutable = at_kind(p, at, TokenKind::Var);
    let name = if mutable {
        at + 1
    } else {
        at
    };
    if !at_kind(p, name, TokenKind::Identifier) {
        failed(p, name, "expected local name"@)
    } else if !at_kind(p, name + 1, TokenKind::Declare) {
        failed(p, name + 1, "expected ':=' after local name"@)
    } else {
        match expression(p, name + 2) {
            Err(error) => Err(error),
            Ok((initializer, next)) => if at_kind(p, next, TokenKind::Semicolon) {
                Ok(
                    (
                        node1(
                            Label::Local { mutable, name: span_at(p, name) },
                            across(span_at(p, at), span_at(p, next)),
                            initializer,
                        ),
                        next + 1,
                    ),
                )
            } else {
                failed(p, next, "expected ';' after local declaration"@)
            },
        }
    }
}

pub open spec fn return_statement(p: Input, at: int) -> Parsed
    decreases rest(p, at), 7nat,
{
    if !at_kind(p, at, TokenKind::Return) {
        failed(p, at, "expected 'return'"@)
    } else if at_kind(p, at + 1, TokenKind::Semicolon) {
        Ok((return_node(across(span_at(p, at), span_at(p, at + 1)), None), at + 2))
    } else {
        match expression(p, at + 1) {
            Err(error) => Err(error),
            Ok((value, next)) => if at_kind(p, next, TokenKind::Semicolon) {
                Ok((return_node(across(span_at(p, at), span_at(p, next)), Some(value)), next + 1))
            } else {
                failed(p, next, "expected ';' after return"@)
            },
        }
    }
}

/// A condition and the body that it governs, from `at` on; the branch starts at `start`.
pub open spec fn statement_branch(p: Input, start: Span, at: int) -> Parsed
    decreases rest(p, at), 7nat,
{
    match expression(p, at) {
        Err(error) => Err(error),
        Ok((condition, next)) => if !moved(p, at, next) {
            arbitrary()
        } else {
            match statement_body(p, next) {
                Err(error) => Err(error),
                Ok((body, last)) => Ok(
                    (node2(Label::Branch, across(start, body.span), condition, body), last),
                ),
            }
        },
    }
}

pub open spec fn if_statement(p: Input, at: int) -> Parsed
    decreases rest(p, at), 7nat,
{
    if !at_kind(p, at, TokenKind::If) {
        failed(p, at, "expected 'if'"@)
    } else {
        match statement_branch(p, span_at(p, at), at + 1) {
            Err(error) => Err(error),
            Ok((branch, next)) => if moved(p, at, next) {
                if_statement_rest(p, next, span_at(p, at), seq![branch])
            } else {
                arbitrary()
            },
        }
    }
}

/// An 'else' belongs to the nearest 'if' before it.
pub open spec fn if_statement_rest(p: Input, at: int, start: Span, branches: Seq<Tree>) -> Parsed
    decreases rest(p, at), 8nat,
{
    if !at_kind(p, at, TokenKind::Else) {
        Ok(
            (
                if_node(across(start, branches.last().span), branches, None),
                at,
            ),
        )
    } else if at_kind(p, at + 1, TokenKind::If) {
        match statement_branch(p, span_at(p, at), at + 2) {
            Err(error) => Err(error),
            Ok((branch, next)) => if moved(p, at, next) {
                if_statement_rest(p, next, start, branches.push(branch))
            } else {
                arbitrary()
            },
        }
    } else {
        match statement_body(p, at + 1) {
            Err(error) => Err(error),
            Ok((body, next)) => Ok(
                (
                    if_node(across(start, body.span), branches, Some(body)),
                    next,
                ),
            ),
        }
    }
}

pub open spec fn while_statement(p: Input, at: int) -> Parsed
    decreases rest(p, at), 7nat,
{
    if !at_kind(p, at, TokenKind::While) {
        failed(p, at, "expected 'while'"@)
    } else {
        match expression(p, at + 1) {
            Err(error) => Err(error),
            Ok((condition, next)) => if !moved(p, at, next) {
                arbitrary()
            } else {
                match statement_body(p, next) {
                    Err(error) => Err(error),
                    Ok((body, last)) => Ok(
                        (node2(Label::While, across(span_at(p, at), body.span), condition, body), last),
                    ),
                }
            },
        }
    }
}

pub open spec fn for_statement(p: Input, at: int) -> Parsed
    decreases rest(p, at), 7nat,
{
    if !at_kind(p, at, TokenKind::For) {
        failed(p, at, "expected 'for'"@)
    } else if !at_kind(p, at + 1, TokenKind::Identifier) {
        failed(p, at + 1, "expected iteration binding after 'for'"@)
    } else if !at_kind(p, at + 2, TokenKind::In) {
        failed(p, at + 2, "expected 'in' after iteration binding"@)
    } else {
        match expression(p, at + 3) {
            Err(error) => Err(error),
            Ok((iterable, next)) => if !moved(p, at, next) {
                arbitrary()
            } else {
                match statement_body(p, next) {
                    Err(error) => Err(error),
                    Ok((body, last)) => Ok(
                        (
                            node2(
                                Label::For { binding: span_at(p, at + 1) },
                                across(span_at(p, at), body.span),
                                iterable,
                                body,
                            ),
                            last,
                        ),
                    ),
                }
            },
        }
    }
}

pub open spec fn switch_statement(p: Input, at: int) -> Parsed
    decreases rest(p, at), 7nat,
{
    if !at_kind(p, at, TokenKind::Switch) {
        failed(p, at, "expected 'switch'"@)
    } else {
        match expression(p, at + 1) {
            Err(error) => Err(error),
            Ok((value, next)) => if !at_kind(p, next, TokenKind::LeftBrace) || next <= at {
                failed(p, next, "expected '{' after switched expression"@)
            } else {
                switch_rest(p, next + 1, span_at(p, at), value, seq![])
            },
        }
    }
}

/// The arms of a switch; one for everything else comes last.
pub open spec fn switch_rest(p: Input, at: int, start: Span, value: Tree, arms: Seq<Tree>) -> Parsed
    decreases rest(p, at), 8nat,
{
    if at_kind(p, at, TokenKind::RightBrace) {
        Ok((switch_node(across(start, span_at(p, at)), value, arms, None), at + 1))
    } else if at_kind(p, at, TokenKind::Eof) {
        failed(p, at, "expected '}' to close switch"@)
    } else if at_kind(p, at, TokenKind::Else) {
        match statement_body(p, at + 1) {
            Err(error) => Err(error),
            Ok((body, next)) => if at_kind(p, next, TokenKind::RightBrace) {
                Ok((switch_node(across(start, span_at(p, next)), value, arms, Some(body)), next + 1))
            } else {
                failed(p, next, "else must be the final switch arm"@)
            },
        }
    } else {
        match type_at(p, at) {
            Err(error) => Err(error),
            Ok((label, next)) => if !moved(p, at, next) {
                arbitrary()
            } else {
                match statement_body(p, next) {
                    Err(error) => Err(error),
                    Ok((body, last)) => if !moved(p, next, last) {
                        arbitrary()
                    } else {
                        switch_rest(
                            p,
                            last,
                            start,
                            value,
                            arms.push(node2(Label::Arm, across(label.span, body.span), label, body)),
                        )
                    },
                }
            },
        }
    }
}

/// body := block | ':' statement
pub open spec fn statement_body(p: Input, at: int) -> Parsed
    decreases rest(p, at), 1nat,
{
    if at_kind(p, at, TokenKind::LeftBrace) {
        match block(p, at) {
            Err(error) => Err(error),
            Ok((inner, next)) => Ok((node1(Label::BlockBody, inner.span, inner), next)),
        }
    } else if !at_kind(p, at, TokenKind::Colon) {
        failed(p, at, "expected block or ':' statement body"@)
    } else {
        match statement(p, at + 1) {
            Err(error) => Err(error),
            Ok((inner, next)) => Ok((node1(Label::StatementBody, across(span_at(p, at), inner.span), inner), next)),
        }
    }
}

/// body := block | ':' expression
pub open spec fn expression_body(p: Input, at: int) -> Parsed
    decreases rest(p, at), 1nat,
{
    if at_kind(p, at, TokenKind::LeftBrace) {
        match block(p, at) {
            Err(error) => Err(error),
            Ok((inner, next)) => Ok((node1(Label::BlockBody, inner.span, inner), next)),
        }
    } else if !at_kind(p, at, TokenKind::Colon) {
        failed(p, at, "expected block or ':' expression body"@)
    } else {
        match expression(p, at + 1) {
            Err(error) => Err(error),
            Ok((inner, next)) => Ok((node1(Label::ExpressionBody, across(span_at(p, at), inner.span), inner), next)),
        }
    }
}

pub open spec fn expression(p: Input, at: int) -> Parsed
    decreases rest(p, at), 6nat,
{
    binary(p, at, 1)
}

/// Operands joined by operators of at least the given precedence.
pub open spec fn binary(p: Input, at: int, minimum: u8) -> Parsed
    decreases rest(p, at), 5nat,
{
    match unary(p, at) {
        Err(error) => Err(error),
        Ok((left, next)) => if moved(p, at, next) {
            binary_rest(p, next, minimum, left)
        } else {
            arbitrary()
        },
    }
}

pub const IS_PRECEDENCE: u8 = 7;

/// Operators of the same precedence group to the left.
pub open spec fn binary_rest(p: Input, at: int, minimum: u8, left: Tree) -> Parsed
    decreases rest(p, at), 5nat,
{
    if at_kind(p, at, TokenKind::Is) {
        if IS_PRECEDENCE < minimum {
            Ok((left, at))
        } else {
            match type_at(p, at + 1) {
                Err(error) => Err(error),
                Ok((ty, next)) => if !moved(p, at, next) {
                    arbitrary()
                } else {
                    binary_rest(
                        p,
                        next,
                        minimum,
                        node2(Label::Is { operator_span: span_at(p, at) }, across(left.span, ty.span), left, ty),
                    )
                },
            }
        }
    } else {
        match binary_operator(kind_at(p, at)) {
            None => Ok((left, at)),
            Some((operator, precedence)) => if precedence < minimum {
                Ok((left, at))
            } else {
                match binary(p, at + 1, (precedence + 1) as u8) {
                    Err(error) => Err(error),
                    Ok((right, next)) => if !moved(p, at, next) {
                        arbitrary()
                    } else {
                        binary_rest(
                            p,
                            next,
                            minimum,
                            node2(
                                Label::Binary { operator, operator_span: span_at(p, at) },
                                across(left.span, right.span),
                                left,
                                right,
                            ),
                        )
                    },
                }
            },
        }
    }
}

pub open spec fn unary(p: Input, at: int) -> Parsed
    decreases rest(p, at), 4nat,
{
    match unary_operator(kind_at(p, at)) {
        None => postfix(p, at),
        Some(operator) => match unary(p, at + 1) {
            Err(error) => Err(error),
            Ok((operand, next)) => Ok(
                (
                    node1(
                        Label::Unary { operator, operator_span: span_at(p, at) },
                        across(span_at(p, at), operand.span),
                        operand,
                    ),
                    next,
                ),
            ),
        },
    }
}

pub open spec fn postfix(p: Input, at: int) -> Parsed
    decreases rest(p, at), 3nat,
{
    match primary(p, at) {
        Err(error) => Err(error),
        Ok((value, next)) => if moved(p, at, next) {
            postfix_rest(p, next, value)
        } else {
            arbitrary()
        },
    }
}

/// The member that follows a dot.
pub open spec fn member(p: Input, at: int) -> Option<Member> {
    if at_kind(p, at, TokenKind::Identifier) {
        Some(Member::Named(Identifier { span: span_at(p, at) }))
    } else if at_kind(p, at, TokenKind::Integer) && decimal_token(p, at) {
        Some(Member::TupleIndex(span_at(p, at)))
    } else {
        None
    }
}

pub open spec fn postfix_rest(p: Input, at: int, value: Tree) -> Parsed
    decreases rest(p, at), 8nat,
{
    if at_kind(p, at, TokenKind::LeftParen) {
        match call(p, at, value) {
            Err(error) => Err(error),
            Ok((result, next)) => if moved(p, at, next) {
                postfix_rest(p, next, result)
            } else {
                arbitrary()
            },
        }
    } else if at_kind(p, at, TokenKind::LeftBracket) {
        match expression(p, at + 1) {
            Err(error) => Err(error),
            Ok((index, next)) => if !at_kind(p, next, TokenKind::RightBracket) || next <= at {
                failed(p, next, "expected ']' after index expression"@)
            } else {
                postfix_rest(
                    p,
                    next + 1,
                    node2(Label::Index, across(value.span, span_at(p, next)), value, index),
                )
            },
        }
    } else if at_kind(p, at, TokenKind::Dot) {
        match member(p, at + 1) {
            None => failed(p, at + 1, "expected member name or decimal tuple index after '.'"@),
            Some(member) => postfix_rest(
                p,
                at + 2,
                node1(Label::Member(member), across(value.span, span_at(p, at + 1)), value),
            ),
        }
    } else if at_kind(p, at, TokenKind::Question) {
        postfix_rest(
            p,
            at + 1,
            node1(Label::Try { operator_span: span_at(p, at) }, across(value.span, span_at(p, at)), value),
        )
    } else {
        Ok((value, at))
    }
}

/// call := callee '(' [ argument { ',' argument } ] ')'
pub open spec fn call(p: Input, at: int, callee: Tree) -> Parsed
    decreases rest(p, at), 7nat,
{
    if !at_kind(p, at, TokenKind::LeftParen) {
        failed(p, at, "expected '(' to begin arguments"@)
    } else if at_kind(p, at + 1, TokenKind::RightParen) {
        Ok((call_node(across(callee.span, span_at(p, at + 1)), callee, seq![]), at + 2))
    } else {
        arguments_rest(p, at + 1, callee, seq![])
    }
}

pub open spec fn arguments_rest(p: Input, at: int, callee: Tree, before: Seq<Tree>) -> Parsed
    decreases rest(p, at), 8nat,
{
    match argument(p, at) {
        Err(error) => Err(error),
        Ok((one, next)) => {
            let all = before.push(one);
            if at_kind(p, next, TokenKind::Comma) && at < next {
                arguments_rest(p, next + 1, callee, all)
            } else if at_kind(p, next, TokenKind::RightParen) {
                Ok(
                    (
                        call_node(across(callee.span, span_at(p, next)), callee, all),
                        next + 1,
                    ),
                )
            } else {
                failed(p, next, "expected ')' after call arguments"@)
            }
        },
    }
}

pub open spec fn argument(p: Input, at: int) -> Parsed
    decreases rest(p, at), 7nat,
{
    if at_kind(p, at, TokenKind::Identifier) && at_kind(p, at + 1, TokenKind::Equal) {
        match expression(p, at + 2) {
            Err(error) => Err(error),
            Ok((value, next)) => Ok(
                (
                    node1(Label::NamedArgument(span_at(p, at)), across(span_at(p, at), value.span), value),
                    next,
                ),
            ),
        }
    } else {
        match expression(p, at) {
            Err(error) => Err(error),
            Ok((value, next)) => Ok((node1(Label::Positional, value.span, value), next)),
        }
    }
}

/// The label of an expression that one token spells.
pub open spec fn literal(p: Input, at: int) -> Option<Label> {
    match kind_at(p, at) {
        KindView::Text(bytes) => Some(Label::Text(bytes)),
        KindView::Plain(TokenKind::Identifier) => Some(Label::Identifier(span_at(p, at))),
        KindView::Plain(TokenKind::Integer) => Some(Label::Integer),
        KindView::Plain(TokenKind::Float) => Some(Label::Float),
        KindView::Plain(TokenKind::Character(value)) => Some(Label::Character(value)),
        KindView::Plain(TokenKind::True) => Some(Label::Boolean(true)),
        KindView::Plain(TokenKind::False) => Some(Label::Boolean(false)),
        _ => None,
    }
}

/// The numeric type that a conversion is named after.
pub open spec fn numeric(kind: KindView) -> Option<PrimitiveType> {
    match primitive(kind) {
        Some(PrimitiveType::Int) => Some(PrimitiveType::Int),
        Some(PrimitiveType::Float) => Some(PrimitiveType::Float),
        _ => None,
    }
}

pub open spec fn primary(p: Input, at: int) -> Parsed
    decreases rest(p, at), 2nat,
{
    if literal(p, at) is Some {
        Ok((leaf(literal(p, at)->0, span_at(p, at)), at + 1))
    } else if numeric(kind_at(p, at)) is Some && at_kind(p, at + 1, TokenKind::LeftParen) {
        match expression(p, at + 2) {
            Err(error) => Err(error),
            Ok((operand, next)) => if at_kind(p, next, TokenKind::RightParen) {
                Ok(
                    (
                        node1(
                            Label::Conversion(numeric(kind_at(p, at))->0),
                            across(span_at(p, at), span_at(p, next)),
                            operand,
                        ),
                        next + 1,
                    ),
                )
            } else {
                failed(p, next, "expected ')' after conversion operand"@)
            },
        }
    } else if at_kind(p, at, TokenKind::LeftParen) {
        match expression(p, at + 1) {
            Err(error) => Err(error),
            Ok((inner, next)) => if at_kind(p, next, TokenKind::RightParen) {
                Ok((node1(Label::Parenthesized, across(span_at(p, at), span_at(p, next)), inner), next + 1))
            } else {
                failed(p, next, "expected ')' after parenthesized expression"@)
            },
        }
    } else if at_kind(p, at, TokenKind::LeftBracket) {
        list(p, at)
    } else if at_kind(p, at, TokenKind::LeftBrace) {
        braced(p, at)
    } else if at_kind(p, at, TokenKind::If) {
        if_expression(p, at)
    } else {
        failed(p, at, "expected expression"@)
    }
}

/// list := '[' ']' [ ':' list type ] | '[' expression { ',' expression } ']'
pub open spec fn list(p: Input, at: int) -> Parsed
    decreases rest(p, at), 1nat,
{
    if !at_kind(p, at, TokenKind::LeftBracket) {
        failed(p, at, "expected '[' to begin list literal"@)
    } else if at_kind(p, at + 1, TokenKind::RightBracket) {
        if at_kind(p, at + 2, TokenKind::Colon) {
            match list_type(p, at + 3) {
                Err(error) => Err(error),
                Ok((ty, next)) => Ok((node1(Label::TypedEmptyList, across(span_at(p, at), ty.span), ty), next)),
            }
        } else {
            Ok((node(Label::List, across(span_at(p, at), span_at(p, at + 1)), seq![]), at + 2))
        }
    } else {
        list_rest(p, at + 1, span_at(p, at), seq![])
    }
}

pub open spec fn list_rest(p: Input, at: int, start: Span, before: Seq<Tree>) -> Parsed
    decreases rest(p, at), 8nat,
{
    match expression(p, at) {
        Err(error) => Err(error),
        Ok((one, next)) => {
            let all = before.push(one);
            if at_kind(p, next, TokenKind::Comma) && at < next {
                list_rest(p, next + 1, start, all)
            } else if at_kind(p, next, TokenKind::RightBracket) {
                Ok((node(Label::List, across(start, span_at(p, next)), all), next + 1))
            } else {
                failed(p, next, "expected ']' after list elements"@)
            }
        },
    }
}

/// What starts with a brace is a map where an expression and a colon follow, else a block; empty
/// braces are a map.
pub open spec fn braced(p: Input, at: int) -> Parsed
    decreases rest(p, at), 1nat,
{
    if !at_kind(p, at, TokenKind::LeftBrace) {
        failed(p, at, "expected '{' to begin braced expression"@)
    } else if at_kind(p, at + 1, TokenKind::RightBrace) {
        if at_kind(p, at + 2, TokenKind::Colon) {
            match map_type(p, at + 3) {
                Err(error) => Err(error),
                Ok((ty, next)) => Ok((node1(Label::TypedEmptyMap, across(span_at(p, at), ty.span), ty), next)),
            }
        } else {
            Ok((node(Label::MapLiteral, across(span_at(p, at), span_at(p, at + 1)), seq![]), at + 2))
        }
    } else {
        match expression(p, at + 1) {
            Ok((first, next)) => if at_kind(p, next, TokenKind::Colon) && at < next {
                map_rest(p, next + 1, span_at(p, at), first, seq![])
            } else {
                block_expression(block(p, at))
            },
            Err(_) => block_expression(block(p, at)),
        }
    }
}

/// A block as an expression.
pub open spec fn block_expression(parsed: Parsed) -> Parsed {
    match parsed {
        Err(error) => Err(error),
        Ok((inner, next)) => Ok((node1(Label::BlockExpression, inner.span, inner), next)),
    }
}

/// The rest of a map literal behind the colon of an entry with the given key.
pub open spec fn map_rest(p: Input, at: int, start: Span, key: Tree, before: Seq<Tree>) -> Parsed
    decreases rest(p, at), 8nat,
{
    match expression(p, at) {
        Err(error) => Err(error),
        Ok((value, next)) => {
            let all = before.push(node2(Label::Entry, across(key.span, value.span), key, value));
            if at_kind(p, next, TokenKind::Comma) && at < next {
                match expression(p, next + 1) {
                    Err(error) => Err(error),
                    Ok((following, last)) => if at_kind(p, last, TokenKind::Colon) && next < last {
                        map_rest(p, last + 1, start, following, all)
                    } else {
                        failed(p, last, "expected ':' between map key and value"@)
                    },
                }
            } else if at_kind(p, next, TokenKind::RightBrace) {
                Ok(
                    (
                        node(Label::MapLiteral, across(start, span_at(p, next)), all),
                        next + 1,
                    ),
                )
            } else {
                failed(p, next, "expected '}' after map entries"@)
            }
        },
    }
}

pub open spec fn expression_branch(p: Input, start: Span, at: int) -> Parsed
    decreases rest(p, at), 7nat,
{
    match expression(p, at) {
        Err(error) => Err(error),
        Ok((condition, next)) => if !moved(p, at, next) {
            arbitrary()
        } else {
            match expression_body(p, next) {
                Err(error) => Err(error),
                Ok((body, last)) => Ok(
                    (node2(Label::Branch, across(start, body.span), condition, body), last),
                ),
            }
        },
    }
}

pub open spec fn if_expression(p: Input, at: int) -> Parsed
    decreases rest(p, at), 1nat,
{
    if !at_kind(p, at, TokenKind::If) {
        failed(p, at, "expected 'if'"@)
    } else {
        match expression_branch(p, span_at(p, at), at + 1) {
            Err(error) => Err(error),
            Ok((branch, next)) => if moved(p, at, next) {
                if_expression_rest(p, next, span_at(p, at), seq![branch])
            } else {
                arbitrary()
            },
        }
    }
}

pub open spec fn if_expression_rest(p: Input, at: int, start: Span, branches: Seq<Tree>) -> Parsed
    decreases rest(p, at), 8nat,
{
    if !at_kind(p, at, TokenKind::Else) {
        failed(p, at, "if expression requires a final 'else' branch"@)
    } else if at_kind(p, at + 1, TokenKind::If) {
        match expression_branch(p, span_at(p, at), at + 2) {
            Err(error) => Err(error),
            Ok((branch, next)) => if moved(p, at, next) {
                if_expression_rest(p, next, start, branches.push(branch))
            } else {
                arbitrary()
            },
        }
    } else {
        match expression_body(p, at + 1) {
            Err(error) => Err(error),
            Ok((body, next)) => Ok(
                (
                    if_expression_node(across(start, body.span), branches, body),
                    next,
                ),
            ),
        }
    }
}

/// Whether a type follows a name and makes it the name of a member.
pub open spec fn type_after_name(p: Input, at: int) -> bool {
    primitive(kind_at(p, at)) is Some || at_kind(p, at, TokenKind::Identifier) || at_kind(
        p,
        at,
        TokenKind::LeftBracket,
    ) || at_kind(p, at, TokenKind::LeftBrace)
}

/// member := name [ '&' ] type | type
pub open spec fn type_member(p: Input, at: int) -> Parsed {
    if at_kind(p, at, TokenKind::Identifier) && (at_kind(p, at + 1, TokenKind::Ampersand) || type_after_name(
        p,
        at + 1,
    )) {
        let referenced = at_kind(p, at + 1, TokenKind::Ampersand);
        match type_at(
            p,
            if referenced {
                at + 2
            } else {
                at + 1
            },
        ) {
            Err(error) => Err(error),
            Ok((ty, next)) => Ok(
                (
                    node1(
                        Label::NamedMember { name: span_at(p, at), referenced },
                        across(span_at(p, at), ty.span),
                        ty,
                    ),
                    next,
                ),
            ),
        }
    } else {
        match type_at(p, at) {
            Err(error) => Err(error),
            Ok((ty, next)) => Ok((node1(Label::UnnamedMember, ty.span, ty), next)),
        }
    }
}

/// declaration := 'type' name '(' member { ',' member } ')' ';'
pub open spec fn type_declaration(p: Input, at: int) -> Parsed {
    if !at_kind(p, at, TokenKind::Type) {
        failed(p, at, "expected type declaration beginning with 'type'"@)
    } else if !at_kind(p, at + 1, TokenKind::Identifier) {
        failed(p, at + 1, "expected type name after 'type'"@)
    } else if !at_kind(p, at + 2, TokenKind::LeftParen) {
        failed(p, at + 2, "expected '(' after type name"@)
    } else if at_kind(p, at + 3, TokenKind::RightParen) {
        failed(p, at + 3, "expected at least one type member"@)
    } else {
        members_rest(p, at + 3, at, seq![])
    }
}

pub open spec fn members_rest(p: Input, at: int, start: int, before: Seq<Tree>) -> Parsed
    decreases rest(p, at),
{
    match type_member(p, at) {
        Err(error) => Err(error),
        Ok((one, next)) => {
            let all = before.push(one);
            if at_kind(p, next, TokenKind::Comma) && at < next {
                members_rest(p, next + 1, start, all)
            } else if !at_kind(p, next, TokenKind::RightParen) {
                failed(p, next, "expected ')' after type declaration members"@)
            } else if !at_kind(p, next + 1, TokenKind::Semicolon) {
                failed(p, next + 1, "expected ';' after type declaration"@)
            } else {
                Ok(
                    (
                        node(
                            Label::TypeDeclaration { name: span_at(p, start + 1) },
                            across(span_at(p, start), span_at(p, next + 1)),
                            all,
                        ),
                        next + 2,
                    ),
                )
            }
        },
    }
}

/// parameter := [ 'var' ] name type
pub open spec fn parameter(p: Input, at: int) -> Parsed {
    let mutable = at_kind(p, at, TokenKind::Var);
    let name = if mutable {
        at + 1
    } else {
        at
    };
    if !at_kind(p, name, TokenKind::Identifier) {
        failed(p, name, "expected parameter name"@)
    } else {
        match type_at(p, name + 1) {
            Err(error) => Err(error),
            Ok((ty, next)) => Ok(
                (
                    node1(
                        Label::Parameter { mutable, name: span_at(p, name) },
                        across(span_at(p, at), ty.span),
                        ty,
                    ),
                    next,
                ),
            ),
        }
    }
}

/// declaration := 'fn' name '(' [ parameter { ',' parameter } ] ')' [ type ] block
pub open spec fn function(p: Input, at: int) -> Parsed {
    if !at_kind(p, at, TokenKind::Fn) {
        failed(p, at, "expected function declaration beginning with 'fn'"@)
    } else if !at_kind(p, at + 1, TokenKind::Identifier) {
        failed(p, at + 1, "expected function name after 'fn'"@)
    } else if !at_kind(p, at + 2, TokenKind::LeftParen) {
        failed(p, at + 2, "expected '(' after function name"@)
    } else if at_kind(p, at + 3, TokenKind::RightParen) {
        function_rest(p, at + 4, at, seq![])
    } else {
        parameters_rest(p, at + 3, at, seq![])
    }
}

pub open spec fn parameters_rest(p: Input, at: int, start: int, before: Seq<Tree>) -> Parsed
    decreases rest(p, at),
{
    match parameter(p, at) {
        Err(error) => Err(error),
        Ok((one, next)) => {
            let all = before.push(one);
            if at_kind(p, next, TokenKind::Comma) && at < next {
                parameters_rest(p, next + 1, start, all)
            } else if !at_kind(p, next, TokenKind::RightParen) {
                failed(p, next, "expected ')' after function parameters"@)
            } else {
                function_rest(p, next + 1, start, all)
            }
        },
    }
}

pub open spec fn starts_type(p: Input, at: int) -> bool {
    type_after_name(p, at) || at_kind(p, at, TokenKind::LeftParen)
}

/// What follows the parameters. A brace opens a map type where that type is followed by the
/// brace of the body, else the body.
pub open spec fn function_rest(p: Input, at: int, start: int, parameters: Seq<Tree>) -> Parsed {
    if at_kind(p, at, TokenKind::LeftBrace) {
        match type_at(p, at) {
            Ok((ty, next)) => if at_kind(p, next, TokenKind::LeftBrace) {
                function_body(p, next, start, parameters, Some(ty))
            } else {
                function_body(p, at, start, parameters, None)
            },
            Err(_) => function_body(p, at, start, parameters, None),
        }
    } else if starts_type(p, at) {
        match type_at(p, at) {
            Err(error) => Err(error),
            Ok((ty, next)) => function_body(p, next, start, parameters, Some(ty)),
        }
    } else {
        function_body(p, at, start, parameters, None)
    }
}

pub open spec fn function_body(p: Input, at: int, start: int, parameters: Seq<Tree>, result: Option<Tree>) -> Parsed {
    match block(p, at) {
        Err(error) => Err(error),
        Ok((body, next)) => Ok(
            (
                function_node(
                    span_at(p, start + 1),
                    across(span_at(p, start), body.span),
                    parameters,
                    result,
                    body,
                ),
                next,
            ),
        ),
    }
}

pub open spec fn declaration(p: Input, at: int) -> Parsed {
    if at_kind(p, at, TokenKind::Type) {
        type_declaration(p, at)
    } else if at_kind(p, at, TokenKind::Fn) {
        function(p, at)
    } else {
        failed(p, at, "expected top-level 'type' or 'fn' declaration"@)
    }
}

/// The declarations from `at` to the end of the text.
pub open spec fn declarations(p: Input, at: int, before: Seq<Tree>) -> Result<Seq<Tree>, Report>
    decreases rest(p, at),
{
    if at_kind(p, at, TokenKind::Eof) {
        Ok(before)
    } else {
        match declaration(p, at) {
            Err(error) => Err(error),
            Ok((one, next)) => if moved(p, at, next) {
                declarations(p, next, before.push(one))
            } else {
                arbitrary()
            },
        }
    }
}

/// The syntax tree of a whole text, or its first syntax error.
pub open spec fn program(p: Input) -> Result<Tree, Report> {
    match declarations(p, 0, seq![]) {
        Err(error) => Err(error),
        Ok(all) => Ok(
            node(
                Label::Program,
                Span { start: 0, end: p.bytes.len() as usize, tree: p.tokens.last().span.tree },
                all,
            ),
        ),
    }
}

} // verus!
