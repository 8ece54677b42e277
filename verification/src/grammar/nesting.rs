//! How the nodes of a syntax tree nest, and what follows for their spans.

use crate::ast::{
    AssignmentOperator, BinaryOperator, Label, Tree, UnaryOperator, block_node, call_node, function_node,
    if_expression_node, if_node, leaf, node, node1, node2, optional, return_node, switch_node,
};
use crate::grammar::{
    IS_PRECEDENCE, Input, Parsed, across, argument, arguments_rest, assignment, assignment_operator, at_kind,
    atom, binary, binary_operator, binary_rest, block, block_rest, braced, call, declaration, declaration_start,
    declarations, expression, expression_body, expression_branch, for_statement, function_body, function_rest,
    if_expression, if_expression_rest, if_statement, if_statement_rest, input_of, kind_at, list, list_rest,
    list_type, literal, local, map_rest, map_type, member, members_rest, numeric, parameter, parameters_rest,
    postfix, postfix_rest, primary, primitive, program, rest, return_statement, span_at, statement,
    statement_body, statement_branch, statement_keyword, switch_rest, switch_statement, target, target_parts,
    type_after_name, type_at, type_member, unary, unary_operator, union_rest, while_statement,
};
use crate::lexer::{self, KindView, TokenKind};
use crate::source::Span;
use vstd::prelude::*;

verus! {

/// What sort of thing a node is.
pub enum Kind {
    Program,
    Declaration,
    Member,
    Parameter,
    Argument,
    Entry,
    Body,
    Arm,
    Statement,
    Branch,
    Target,
    Suffix,
    Expression,
    Type,
    Block,
}

pub open spec fn kind_of(label: Label) -> Kind {
    match label {
        Label::Program => Kind::Program,
        Label::TypeDeclaration { .. } => Kind::Declaration,
        Label::Function { .. } => Kind::Declaration,
        Label::NamedMember { .. } => Kind::Member,
        Label::UnnamedMember => Kind::Member,
        Label::Parameter { .. } => Kind::Parameter,
        Label::UnitType => Kind::Type,
        Label::PrimitiveType(_) => Kind::Type,
        Label::NamedType(_) => Kind::Type,
        Label::TaggedType(_) => Kind::Type,
        Label::ListType => Kind::Type,
        Label::MapType => Kind::Type,
        Label::ParenthesizedType => Kind::Type,
        Label::UnionType => Kind::Type,
        Label::Block { .. } => Kind::Block,
        Label::Local { .. } => Kind::Statement,
        Label::Assignment { .. } => Kind::Statement,
        Label::ExpressionStatement => Kind::Statement,
        Label::Return => Kind::Statement,
        Label::Break => Kind::Statement,
        Label::Continue => Kind::Statement,
        Label::IfStatement { .. } => Kind::Statement,
        Label::While => Kind::Statement,
        Label::For { .. } => Kind::Statement,
        Label::Switch { .. } => Kind::Statement,
        Label::BlockStatement => Kind::Statement,
        Label::BlockBody => Kind::Body,
        Label::StatementBody => Kind::Body,
        Label::ExpressionBody => Kind::Body,
        Label::Branch => Kind::Branch,
        Label::Arm => Kind::Arm,
        Label::Target { .. } => Kind::Target,
        Label::MemberSuffix(_) => Kind::Suffix,
        Label::IndexSuffix => Kind::Suffix,
        Label::Positional => Kind::Argument,
        Label::NamedArgument(_) => Kind::Argument,
        Label::Entry => Kind::Entry,
        _ => Kind::Expression,
    }
}

/// A node can share its span only with nodes of lower rank inside it.
pub open spec fn rank(kind: Kind) -> nat {
    match kind {
        Kind::Program => 14,
        Kind::Declaration => 13,
        Kind::Member => 12,
        Kind::Parameter => 11,
        Kind::Argument => 10,
        Kind::Entry => 9,
        Kind::Body => 8,
        Kind::Arm => 7,
        Kind::Statement => 6,
        Kind::Branch => 5,
        Kind::Target => 4,
        Kind::Suffix => 3,
        Kind::Expression => 2,
        Kind::Type => 1,
        Kind::Block => 0,
    }
}

/// How tightly a binary operator binds its operands: comparisons bind tighter than `==` and `!=`, shifts tighter than
/// comparisons, sums tighter than shifts, and products tighter than sums.
pub open spec fn strength(operator: BinaryOperator) -> int {
    match operator {
        BinaryOperator::LogicalOr => 1,
        BinaryOperator::LogicalAnd => 2,
        BinaryOperator::BitwiseOr => 3,
        BinaryOperator::BitwiseXor => 4,
        BinaryOperator::BitwiseAnd => 5,
        BinaryOperator::Equal => 6,
        BinaryOperator::NotEqual => 6,
        BinaryOperator::Less => COMPARISON as int,
        BinaryOperator::LessEqual => COMPARISON as int,
        BinaryOperator::Greater => COMPARISON as int,
        BinaryOperator::GreaterEqual => COMPARISON as int,
        BinaryOperator::In => COMPARISON as int,
        BinaryOperator::ShiftLeft => 8,
        BinaryOperator::ShiftRight => 8,
        BinaryOperator::Add => 9,
        BinaryOperator::Subtract => 9,
        BinaryOperator::Multiply => 10,
        BinaryOperator::Divide => 10,
        BinaryOperator::Remainder => 10,
    }
}

/// How tightly comparisons bind, `is` among them.
pub const COMPARISON: u8 = 7;

/// How tightly a prefix operator binds: tighter than any binary one, but not as tightly as what stands behind an
/// expression.
pub const PREFIX: u8 = 11;

/// How tightly what a node is made of holds together; nothing comes between the parts of what stands alone.
pub open spec fn hold(label: Label) -> int {
    match label {
        Label::Binary { operator, .. } => strength(operator),
        Label::Is { .. } => COMPARISON as int,
        Label::Unary { .. } => PREFIX as int,
        _ => PREFIX + 1,
    }
}

/// Whether the operands of an operator hold together more tightly than it does. One on its left may be as tight as it
/// is, so operators of the same strength group to the left; and what ends in a type may stand there in any case.
pub open spec fn grouped(tree: Tree) -> bool {
    match tree.label {
        Label::Binary { operator, .. } => {
            &&& tree.children.len() == 2
            &&& tree.children[0].label is Is || hold(tree.children[0].label) >= strength(operator)
            &&& hold(tree.children[1].label) > strength(operator)
        },
        Label::Is { .. } => {
            &&& tree.children.len() == 2
            &&& tree.children[0].label is Is || hold(tree.children[0].label) >= COMPARISON
        },
        Label::Unary { .. } => tree.children.len() == 1 && hold(tree.children[0].label) >= PREFIX,
        Label::Call => tree.children.len() > 0 && hold(tree.children[0].label) > PREFIX,
        Label::Index => tree.children.len() == 2 && hold(tree.children[0].label) > PREFIX,
        Label::Member(_) => tree.children.len() == 1 && hold(tree.children[0].label) > PREFIX,
        Label::Try { .. } => tree.children.len() == 1 && hold(tree.children[0].label) > PREFIX,
        _ => true,
    }
}

/// How a binary operator is written.
pub open spec fn binary_symbol(operator: BinaryOperator) -> TokenKind {
    match operator {
        BinaryOperator::LogicalOr => TokenKind::LogicalOr,
        BinaryOperator::LogicalAnd => TokenKind::LogicalAnd,
        BinaryOperator::BitwiseOr => TokenKind::Pipe,
        BinaryOperator::BitwiseXor => TokenKind::Caret,
        BinaryOperator::BitwiseAnd => TokenKind::Ampersand,
        BinaryOperator::Equal => TokenKind::EqualEqual,
        BinaryOperator::NotEqual => TokenKind::BangEqual,
        BinaryOperator::Less => TokenKind::Less,
        BinaryOperator::LessEqual => TokenKind::LessEqual,
        BinaryOperator::Greater => TokenKind::Greater,
        BinaryOperator::GreaterEqual => TokenKind::GreaterEqual,
        BinaryOperator::In => TokenKind::In,
        BinaryOperator::ShiftLeft => TokenKind::ShiftLeft,
        BinaryOperator::ShiftRight => TokenKind::ShiftRight,
        BinaryOperator::Add => TokenKind::Plus,
        BinaryOperator::Subtract => TokenKind::Minus,
        BinaryOperator::Multiply => TokenKind::Star,
        BinaryOperator::Divide => TokenKind::Slash,
        BinaryOperator::Remainder => TokenKind::Percent,
    }
}

/// How a prefix operator is written.
pub open spec fn unary_symbol(operator: UnaryOperator) -> TokenKind {
    match operator {
        UnaryOperator::LogicalNot => TokenKind::Bang,
        UnaryOperator::BitwiseNot => TokenKind::Tilde,
        UnaryOperator::Plus => TokenKind::Plus,
        UnaryOperator::Minus => TokenKind::Minus,
    }
}

/// How an assignment operator is written.
pub open spec fn assignment_symbol(operator: AssignmentOperator) -> TokenKind {
    match operator {
        AssignmentOperator::Assign => TokenKind::Equal,
        AssignmentOperator::Add => TokenKind::PlusEqual,
        AssignmentOperator::Subtract => TokenKind::MinusEqual,
        AssignmentOperator::Multiply => TokenKind::StarEqual,
        AssignmentOperator::Divide => TokenKind::SlashEqual,
        AssignmentOperator::Remainder => TokenKind::PercentEqual,
        AssignmentOperator::BitwiseAnd => TokenKind::AmpersandEqual,
        AssignmentOperator::BitwiseOr => TokenKind::PipeEqual,
        AssignmentOperator::BitwiseXor => TokenKind::CaretEqual,
        AssignmentOperator::ShiftLeft => TokenKind::ShiftLeftEqual,
        AssignmentOperator::ShiftRight => TokenKind::ShiftRightEqual,
    }
}

/// Whether a token of the given kind starts at an offset.
pub open spec fn stands(p: Input, i: int, start: usize, kind: KindView) -> bool {
    0 <= i < p.tokens.len() && p.tokens[i].span.start == start && p.tokens[i].kind == kind
}

/// Whether some token of the given kind starts at an offset.
pub open spec fn written(p: Input, start: usize, kind: KindView) -> bool {
    exists|i: int| #[trigger] stands(p, i, start, kind)
}

/// Whether a node is written as it is meant: operators with their symbols, literals as their tokens, and statements
/// with the words that introduce them.
pub open spec fn spelled(p: Input, tree: Tree) -> bool {
    let start = tree.span.start;
    match tree.label {
        Label::Binary { operator, operator_span } => written(
            p,
            operator_span.start,
            KindView::Plain(binary_symbol(operator)),
        ),
        Label::Is { operator_span } => written(p, operator_span.start, KindView::Plain(TokenKind::Is)),
        Label::Unary { operator, operator_span } => operator_span.start == start && written(
            p,
            start,
            KindView::Plain(unary_symbol(operator)),
        ),
        Label::Assignment { operator, operator_span } => written(
            p,
            operator_span.start,
            KindView::Plain(assignment_symbol(operator)),
        ),
        Label::Identifier(name) => name == tree.span && written(p, start, KindView::Plain(TokenKind::Identifier)),
        Label::Integer => written(p, start, KindView::Plain(TokenKind::Integer)),
        Label::Float => written(p, start, KindView::Plain(TokenKind::Float)),
        Label::Text(bytes) => written(p, start, KindView::Text(bytes)),
        Label::Character(value) => written(p, start, KindView::Plain(TokenKind::Character(value))),
        Label::Boolean(true) => written(p, start, KindView::Plain(TokenKind::True)),
        Label::Boolean(false) => written(p, start, KindView::Plain(TokenKind::False)),
        Label::Return => written(p, start, KindView::Plain(TokenKind::Return)),
        Label::Break => written(p, start, KindView::Plain(TokenKind::Break)),
        Label::Continue => written(p, start, KindView::Plain(TokenKind::Continue)),
        Label::While => written(p, start, KindView::Plain(TokenKind::While)),
        Label::For { .. } => written(p, start, KindView::Plain(TokenKind::For)),
        _ => true,
    }
}

pub open spec fn filled(span: Span) -> bool {
    span.start < span.end
}

/// Whether the nodes below a node nest: children are not empty, stand one behind the other within their parent, and
/// share its span only if they rank below it. All of them carry its number. What is selected from goes on behind its
/// value. Every node is grouped and spelled as it is meant.
#[verifier::opaque]
pub open spec fn nested(p: Input, tree: Tree) -> bool
    decreases tree,
{
    &&& forall|i: int|
        0 <= i < tree.children.len() ==> {
            let child = #[trigger] tree.children[i];
            &&& filled(child.span)
            &&& tree.span.start <= child.span.start
            &&& child.span.end <= tree.span.end
            &&& child.span.tree == tree.span.tree
            &&& child.span == tree.span ==> rank(kind_of(child.label)) < rank(kind_of(tree.label))
            &&& nested(p, child)
        }
    &&& forall|i: int, j: int|
        0 <= i < j < tree.children.len() ==> (#[trigger] tree.children[i]).span.end <= (
        #[trigger] tree.children[j]).span.start
    &&& (tree.label is Member || tree.label is Index) && tree.children.len() > 0 ==> tree.children.last().span.end
        < tree.span.end
    &&& grouped(tree)
    &&& spelled(p, tree)
}

/// Nodes of a tree with the given number that nest, one behind the other, between two offsets.
pub open spec fn chain(p: Input, trees: Seq<Tree>, from: int, to: int, number: u64) -> bool {
    &&& forall|i: int|
        0 <= i < trees.len() ==> {
            let tree = #[trigger] trees[i];
            &&& filled(tree.span)
            &&& from <= tree.span.start
            &&& tree.span.end <= to
            &&& tree.span.tree == number
            &&& nested(p, tree)
        }
    &&& forall|i: int, j: int|
        0 <= i < j < trees.len() ==> (#[trigger] trees[i]).span.end <= (#[trigger] trees[j]).span.start
}

/// The number that the spans of tokens carry.
pub open spec fn tree_of(p: Input) -> u64 {
    p.tokens.last().span.tree
}

/// Tokens of one tree that stand one behind the other, none of them empty but the last, which stands for the end.
pub open spec fn lined(p: Input) -> bool {
    &&& p.tokens.len() > 0
    &&& p.tokens.last().kind == KindView::Plain(TokenKind::Eof)
    &&& forall|i: int| 0 <= i < p.tokens.len() - 1 ==> filled((#[trigger] p.tokens[i]).span)
    &&& forall|i: int, j: int|
        0 <= i < j < p.tokens.len() ==> (#[trigger] p.tokens[i]).span.end <= (#[trigger] p.tokens[j]).span.start
    &&& forall|i: int| 0 <= i < p.tokens.len() ==> (#[trigger] p.tokens[i]).span.tree == tree_of(p)
}

/// A tree of the given kind that nests and spans the tokens from one up to another.
pub open spec fn sound(p: Input, at: int, tree: Tree, next: int, kind: Kind) -> bool {
    &&& 0 <= at < next < p.tokens.len()
    &&& tree.span.start == p.tokens[at].span.start
    &&& tree.span.end == p.tokens[next - 1].span.end
    &&& tree.span.tree == tree_of(p)
    &&& filled(tree.span)
    &&& kind_of(tree.label) == kind
    &&& nested(p, tree)
}

/// How tightly the operator at a token binds; 0 where there is none.
pub open spec fn ahead(p: Input, at: int) -> int {
    if at_kind(p, at, TokenKind::Is) {
        COMPARISON as int
    } else {
        match binary_operator(kind_at(p, at)) {
            Some((operator, _)) => strength(operator),
            None => 0,
        }
    }
}

/// The strengths by which operators are parsed are the strengths by which they bind.
proof fn lemma_strength(kind: KindView)
    ensures
        binary_operator(kind) matches Some((operator, precedence)) ==> precedence == strength(operator) && kind
            == KindView::Plain(binary_symbol(operator)),
        IS_PRECEDENCE == COMPARISON,
{
}

proof fn lemma_assigned(kind: KindView)
    ensures
        assignment_operator(kind) matches Some(operator) ==> kind == KindView::Plain(assignment_symbol(operator)),
{
}

/// What was parsed, if anything, holds together at least so tightly.
pub open spec fn tight(parsed: Parsed, least: int) -> bool {
    parsed matches Ok((tree, next)) ==> hold(tree.label) >= least
}

/// What was parsed, if anything, is sound from `start` on, and goes on at least up to `at`.
pub open spec fn good(p: Input, start: int, at: int, parsed: Parsed, kind: Kind) -> bool {
    parsed matches Ok((tree, next)) ==> sound(p, start, tree, next, kind) && at <= next
}

proof fn lemma_tree(p: Input, label: Label, span: Span, children: Seq<Tree>)
    requires
        chain(p, children, span.start as int, span.end as int, span.tree),
        forall|i: int|
            0 <= i < children.len() && (#[trigger] children[i]).span == span ==> rank(kind_of(children[i].label))
                < rank(kind_of(label)),
        (label is Member || label is Index) && children.len() > 0 ==> children.last().span.end < span.end,
        grouped(Tree { label, span, children }),
        spelled(p, Tree { label, span, children }),
    ensures
        nested(p, Tree { label, span, children }),
{
    reveal_with_fuel(nested, 1);
}

/// A node that starts before its children, or ends behind them.
proof fn lemma_around(p: Input, label: Label, span: Span, children: Seq<Tree>, from: int, to: int)
    requires
        chain(p, children, from, to, span.tree),
        span.start <= from,
        to <= span.end,
        span.start < from || to < span.end,
        (label is Member || label is Index) ==> to < span.end,
        grouped(Tree { label, span, children }),
        spelled(p, Tree { label, span, children }),
    ensures
        nested(p, Tree { label, span, children }),
{
    lemma_tree(p, label, span, children);
}

/// A node with several children.
proof fn lemma_several(p: Input, label: Label, span: Span, children: Seq<Tree>)
    requires
        chain(p, children, span.start as int, span.end as int, span.tree),
        children.len() > 1,
        (label is Member || label is Index) ==> children.last().span.end < span.end,
        grouped(Tree { label, span, children }),
        spelled(p, Tree { label, span, children }),
    ensures
        nested(p, Tree { label, span, children }),
{
    assert forall|i: int| 0 <= i < children.len() implies (#[trigger] children[i]).span != span by {
        if i == 0 {
            assert(children[0].span.end <= children[1].span.start);
            assert(filled(children[1].span));
        } else {
            assert(children[0].span.end <= children[i].span.start);
            assert(filled(children[0].span));
        }
    }
    lemma_tree(p, label, span, children);
}

proof fn lemma_leaf(p: Input, label: Label, span: Span)
    requires
        grouped(Tree { label, span, children: seq![] }),
        spelled(p, Tree { label, span, children: seq![] }),
    ensures
        nested(p, leaf(label, span)),
        leaf(label, span).label == label,
        leaf(label, span).span == span,
{
    reveal(leaf);
    lemma_tree(p, label, span, seq![]);
}

proof fn lemma_one(p: Input, label: Label, span: Span, child: Tree)
    requires
        nested(p, child),
        filled(child.span),
        span.start <= child.span.start,
        child.span.end <= span.end,
        child.span.tree == span.tree,
        child.span == span ==> rank(kind_of(child.label)) < rank(kind_of(label)),
        (label is Member || label is Index) ==> child.span.end < span.end,
        grouped(Tree { label, span, children: seq![child] }),
        spelled(p, Tree { label, span, children: seq![child] }),
    ensures
        nested(p, node1(label, span, child)),
        node1(label, span, child).label == label,
        node1(label, span, child).span == span,
{
    reveal(node1);
    lemma_tree(p, label, span, seq![child]);
}

proof fn lemma_two(p: Input, label: Label, span: Span, first: Tree, second: Tree)
    requires
        nested(p, first),
        nested(p, second),
        filled(first.span),
        filled(second.span),
        span.start <= first.span.start,
        first.span.end <= second.span.start,
        second.span.end <= span.end,
        first.span.tree == span.tree,
        second.span.tree == span.tree,
        (label is Member || label is Index) ==> second.span.end < span.end,
        grouped(Tree { label, span, children: seq![first, second] }),
        spelled(p, Tree { label, span, children: seq![first, second] }),
    ensures
        nested(p, node2(label, span, first, second)),
        node2(label, span, first, second).label == label,
        node2(label, span, first, second).span == span,
{
    reveal(node2);
    lemma_several(p, label, span, seq![first, second]);
}

proof fn lemma_push(p: Input, before: Seq<Tree>, one: Tree, from: int, middle: int, to: int)
    requires
        chain(p, before, from, middle, one.span.tree),
        nested(p, one),
        filled(one.span),
        from <= one.span.start,
        middle <= one.span.start,
        one.span.end <= to,
    ensures
        chain(p, before.push(one), from, to, one.span.tree),
{
}

#[verifier::spinoff_prover]
proof fn lemma_type(p: Input, at: int)
    requires
        lined(p),
        0 <= at,
    ensures
        good(p, at, at + 1, type_at(p, at), Kind::Type),
    decreases rest(p, at), 2nat,
{
    lemma_atom(p, at);
    if let Ok((first, next)) = atom(p, at) {
        if at_kind(p, next, TokenKind::Pipe) {
            lemma_push(p, seq![], first, first.span.start as int, first.span.start as int, first.span.end as int);
            assert(Seq::<Tree>::empty().push(first) =~= seq![first]);
            lemma_union_rest(p, next + 1, at, seq![first]);
        }
    }
}

#[verifier::spinoff_prover]
proof fn lemma_union_rest(p: Input, at: int, start: int, before: Seq<Tree>)
    requires
        lined(p),
        0 <= start < at <= p.tokens.len(),
        before.len() > 0,
        before[0].span.start == p.tokens[start].span.start,
        chain(p, before, p.tokens[start].span.start as int, p.tokens[at - 1].span.start as int, tree_of(p)),
    ensures
        good(p, start, at, union_rest(p, at, before), Kind::Type),
    decreases rest(p, at), 3nat,
{
    lemma_atom(p, at);
    if let Ok((last, next)) = atom(p, at) {
        let all = before.push(last);
        let from = p.tokens[start].span.start as int;
        lemma_push(p, before, last, from, p.tokens[at - 1].span.start as int, last.span.end as int);
        assert(all[0] == before[0]);
        if at_kind(p, next, TokenKind::Pipe) {
            assert(last.span.end <= p.tokens[next].span.start);
            lemma_union_rest(p, next + 1, start, all);
        } else {
            reveal(node);
            assert(all[all.len() - 1] == last);
            assert(filled(before[0].span));
            lemma_several(p, Label::UnionType, across(all[0].span, last.span), all);
        }
    }
}

#[verifier::spinoff_prover]
proof fn lemma_atom(p: Input, at: int)
    requires
        lined(p),
        0 <= at,
    ensures
        good(p, at, at + 1, atom(p, at), Kind::Type),
    decreases rest(p, at), 1nat,
{
    if primitive(kind_at(p, at)) is Some {
        lemma_leaf(p, Label::PrimitiveType(primitive(kind_at(p, at))->0), span_at(p, at));
    } else if at_kind(p, at, TokenKind::Identifier) {
        if at_kind(p, at + 1, TokenKind::LeftParen) {
            lemma_type(p, at + 2);
            if let Ok((payload, next)) = type_at(p, at + 2) {
                if at_kind(p, next, TokenKind::RightParen) {
                    lemma_one(
                        p,
                        Label::TaggedType(span_at(p, at)),
                        across(span_at(p, at), span_at(p, next)),
                        payload,
                    );
                }
            }
        } else {
            lemma_leaf(p, Label::NamedType(span_at(p, at)), span_at(p, at));
        }
    } else if at_kind(p, at, TokenKind::LeftBracket) {
        lemma_list_type(p, at);
    } else if at_kind(p, at, TokenKind::LeftBrace) {
        lemma_map_type(p, at);
    } else if at_kind(p, at, TokenKind::LeftParen) && at_kind(p, at + 1, TokenKind::RightParen) {
        lemma_leaf(p, Label::UnitType, across(span_at(p, at), span_at(p, at + 1)));
    } else if at_kind(p, at, TokenKind::LeftParen) {
        lemma_type(p, at + 1);
        if let Ok((inner, next)) = type_at(p, at + 1) {
            if at_kind(p, next, TokenKind::RightParen) {
                lemma_one(p, Label::ParenthesizedType, across(span_at(p, at), span_at(p, next)), inner);
            }
        }
    }
}

#[verifier::spinoff_prover]
proof fn lemma_list_type(p: Input, at: int)
    requires
        lined(p),
        0 <= at,
    ensures
        good(p, at, at + 1, list_type(p, at), Kind::Type),
    decreases rest(p, at), 0nat,
{
    if at_kind(p, at, TokenKind::LeftBracket) {
        lemma_type(p, at + 1);
        if let Ok((element, next)) = type_at(p, at + 1) {
            if at_kind(p, next, TokenKind::RightBracket) {
                lemma_one(p, Label::ListType, across(span_at(p, at), span_at(p, next)), element);
            }
        }
    }
}

#[verifier::spinoff_prover]
proof fn lemma_map_type(p: Input, at: int)
    requires
        lined(p),
        0 <= at,
    ensures
        good(p, at, at + 1, map_type(p, at), Kind::Type),
    decreases rest(p, at), 0nat,
{
    if at_kind(p, at, TokenKind::LeftBrace) {
        lemma_type(p, at + 1);
        if let Ok((key, next)) = type_at(p, at + 1) {
            if at_kind(p, next, TokenKind::Colon) {
                lemma_type(p, next + 1);
                if let Ok((value, last)) = type_at(p, next + 1) {
                    if at_kind(p, last, TokenKind::RightBrace) {
                        lemma_two(p, Label::MapType, across(span_at(p, at), span_at(p, last)), key, value);
                    }
                }
            }
        }
    }
}

#[verifier::spinoff_prover]
proof fn lemma_block(p: Input, at: int)
    requires
        lined(p),
        0 <= at,
    ensures
        good(p, at, at + 1, block(p, at), Kind::Block),
    decreases rest(p, at), 0nat,
{
    if at_kind(p, at, TokenKind::LeftBrace) {
        lemma_block_rest(p, at + 1, at, seq![]);
    }
}

#[verifier::spinoff_prover]
#[verifier::rlimit(50)]
proof fn lemma_block_rest(p: Input, at: int, start: int, statements: Seq<Tree>)
    requires
        lined(p),
        0 <= start < at <= p.tokens.len(),
        start < p.tokens.len() - 1,
        chain(p, statements, p.tokens[start].span.end as int, p.tokens[at - 1].span.end as int, tree_of(p)),
    ensures
        good(p, start, at, block_rest(p, at, p.tokens[start].span, statements), Kind::Block),
    decreases rest(p, at), 9nat,
{
    let from = p.tokens[start].span.end as int;
    let done = p.tokens[at - 1].span.end as int;
    if at_kind(p, at, TokenKind::RightBrace) {
        reveal(block_node);
        assert(statements + optional(None) =~= statements);
        lemma_around(
            p,
            Label::Block { has_value: false },
            across(p.tokens[start].span, span_at(p, at)),
            statements,
            from,
            done,
        );
    } else if at_kind(p, at, TokenKind::Eof) {
    } else if statement_keyword(p, at) || declaration_start(p, at) {
        lemma_statement(p, at);
        if let Ok((one, next)) = statement(p, at) {
            lemma_push(p, statements, one, from, done, p.tokens[next - 1].span.end as int);
            lemma_block_rest(p, next, start, statements.push(one));
        }
    } else {
        lemma_expression(p, at);
        if let Ok((value, next)) = expression(p, at) {
            if assignment_operator(kind_at(p, next)) is Some {
                lemma_assignment(p, next, at, value);
                if let Ok((one, last)) = assignment(p, next, value) {
                    lemma_push(p, statements, one, from, done, p.tokens[last - 1].span.end as int);
                    lemma_block_rest(p, last, start, statements.push(one));
                }
            } else if at_kind(p, next, TokenKind::Semicolon) {
                let one = node1(Label::ExpressionStatement, across(value.span, span_at(p, next)), value);
                lemma_one(p, Label::ExpressionStatement, across(value.span, span_at(p, next)), value);
                lemma_push(p, statements, one, from, done, p.tokens[next].span.end as int);
                lemma_block_rest(p, next + 1, start, statements.push(one));
            } else if at_kind(p, next, TokenKind::RightBrace) {
                reveal(block_node);
                assert(statements + optional(Some(value)) =~= statements.push(value));
                lemma_push(p, statements, value, from, done, p.tokens[next - 1].span.end as int);
                lemma_around(
                    p,
                    Label::Block { has_value: true },
                    across(p.tokens[start].span, span_at(p, next)),
                    statements.push(value),
                    from,
                    p.tokens[next - 1].span.end as int,
                );
            }
        }
    }
}

proof fn lemma_target(p: Input, tree: Tree)
    requires
        nested(p, tree),
        filled(tree.span),
    ensures
        target_parts(tree) matches Some((root, suffixes)) ==> chain(
            p,
            suffixes,
            tree.span.start as int,
            tree.span.end as int,
            tree.span.tree,
        ) && forall|i: int| 0 <= i < suffixes.len() ==> kind_of((#[trigger] suffixes[i]).label) == Kind::Suffix,
        target(tree) matches Some(place) ==> nested(p, place) && place.span == tree.span && kind_of(place.label)
            == Kind::Target,
    decreases tree,
{
    reveal_with_fuel(nested, 1);
    match tree.label {
        Label::Member(member) => {
            if tree.children.len() == 1 {
                let value = tree.children[0];
                lemma_target(p, value);
                if let Some((root, suffixes)) = target_parts(value) {
                    let span = Span { start: value.span.end, ..tree.span };
                    let suffix = leaf(Label::MemberSuffix(member), span);
                    lemma_leaf(p, Label::MemberSuffix(member), span);
                    lemma_push(
                        p,
                        suffixes,
                        suffix,
                        tree.span.start as int,
                        value.span.end as int,
                        tree.span.end as int,
                    );
                }
            }
        },
        Label::Index => {
            if tree.children.len() == 2 {
                let value = tree.children[0];
                let index = tree.children[1];
                assert(value.span.end <= index.span.start);
                lemma_target(p, value);
                if let Some((root, suffixes)) = target_parts(value) {
                    let span = Span { start: value.span.end, ..tree.span };
                    lemma_index(p, tree);
                    lemma_one(p, Label::IndexSuffix, span, index);
                    let suffix = node1(Label::IndexSuffix, span, index);
                    lemma_push(
                        p,
                        suffixes,
                        suffix,
                        tree.span.start as int,
                        value.span.end as int,
                        tree.span.end as int,
                    );
                }
            }
        },
        _ => {},
    }
    if let Some((root, suffixes)) = target_parts(tree) {
        reveal(node);
        lemma_tree(p, Label::Target { root }, tree.span, suffixes);
    }
}

#[verifier::spinoff_prover]
proof fn lemma_assignment(p: Input, at: int, start: int, place: Tree)
    requires
        lined(p),
        0 <= start,
        sound(p, start, place, at, Kind::Expression),
        assignment_operator(kind_at(p, at)) is Some,
    ensures
        good(p, start, at + 1, assignment(p, at, place), Kind::Statement),
    decreases rest(p, at), 8nat,
{
    lemma_assigned(kind_at(p, at));
    if let Some(operator) = assignment_operator(kind_at(p, at)) {
        assert(stands(p, at, span_at(p, at).start, KindView::Plain(assignment_symbol(operator))));
    }
    lemma_target(p, place);
    if let Some(target) = target(place) {
        lemma_expression(p, at + 1);
        if let Ok((value, next)) = expression(p, at + 1) {
            if at_kind(p, next, TokenKind::Semicolon) {
                lemma_two(
                    p,
                    Label::Assignment {
                        operator: assignment_operator(kind_at(p, at))->0,
                        operator_span: span_at(p, at),
                    },
                    across(target.span, span_at(p, next)),
                    target,
                    value,
                );
            }
        }
    }
}

#[verifier::spinoff_prover]
proof fn lemma_statement(p: Input, at: int)
    requires
        lined(p),
        0 <= at,
    ensures
        good(p, at, at + 1, statement(p, at), Kind::Statement),
    decreases rest(p, at), 8nat,
{
    if at_kind(p, at, TokenKind::Var) || declaration_start(p, at) {
        lemma_local(p, at);
    } else if at_kind(p, at, TokenKind::Return) {
        assert(stands(p, at, span_at(p, at).start, KindView::Plain(TokenKind::Return)));
        lemma_return(p, at);
    } else if at_kind(p, at, TokenKind::Break) {
        assert(stands(p, at, span_at(p, at).start, KindView::Plain(TokenKind::Break)));
        if at_kind(p, at + 1, TokenKind::Semicolon) {
            lemma_leaf(p, Label::Break, across(span_at(p, at), span_at(p, at + 1)));
        }
    } else if at_kind(p, at, TokenKind::Continue) {
        assert(stands(p, at, span_at(p, at).start, KindView::Plain(TokenKind::Continue)));
        if at_kind(p, at + 1, TokenKind::Semicolon) {
            lemma_leaf(p, Label::Continue, across(span_at(p, at), span_at(p, at + 1)));
        }
    } else if at_kind(p, at, TokenKind::If) {
        lemma_if_statement(p, at);
    } else if at_kind(p, at, TokenKind::While) {
        assert(stands(p, at, span_at(p, at).start, KindView::Plain(TokenKind::While)));
        lemma_while(p, at);
    } else if at_kind(p, at, TokenKind::For) {
        lemma_for(p, at);
    } else if at_kind(p, at, TokenKind::Switch) {
        lemma_switch(p, at);
    } else if at_kind(p, at, TokenKind::LeftBrace) {
        lemma_block(p, at);
        if let Ok((body, next)) = block(p, at) {
            lemma_one(p, Label::BlockStatement, body.span, body);
        }
    } else {
        lemma_expression(p, at);
        if let Ok((value, next)) = expression(p, at) {
            if assignment_operator(kind_at(p, next)) is Some {
                lemma_assignment(p, next, at, value);
            } else if at_kind(p, next, TokenKind::Semicolon) {
                lemma_one(p, Label::ExpressionStatement, across(value.span, span_at(p, next)), value);
            }
        }
    }
}

#[verifier::spinoff_prover]
proof fn lemma_local(p: Input, at: int)
    requires
        lined(p),
        0 <= at,
    ensures
        good(p, at, at + 1, local(p, at), Kind::Statement),
    decreases rest(p, at), 7nat,
{
    let mutable = at_kind(p, at, TokenKind::Var);
    let name = if mutable {
        at + 1
    } else {
        at
    };
    if at_kind(p, name, TokenKind::Identifier) && at_kind(p, name + 1, TokenKind::Declare) {
        lemma_expression(p, name + 2);
        if let Ok((initializer, next)) = expression(p, name + 2) {
            if at_kind(p, next, TokenKind::Semicolon) {
                lemma_one(
                    p,
                    Label::Local { mutable, name: span_at(p, name) },
                    across(span_at(p, at), span_at(p, next)),
                    initializer,
                );
            }
        }
    }
}

#[verifier::spinoff_prover]
proof fn lemma_return(p: Input, at: int)
    requires
        lined(p),
        0 <= at,
    ensures
        good(p, at, at + 1, return_statement(p, at), Kind::Statement),
    decreases rest(p, at), 7nat,
{
    reveal(return_node);
    if at_kind(p, at, TokenKind::Return) {
        assert(stands(p, at, span_at(p, at).start, KindView::Plain(TokenKind::Return)));
        if at_kind(p, at + 1, TokenKind::Semicolon) {
            lemma_tree(p, Label::Return, across(span_at(p, at), span_at(p, at + 1)), optional(None));
        } else {
            lemma_expression(p, at + 1);
            if let Ok((value, next)) = expression(p, at + 1) {
                if at_kind(p, next, TokenKind::Semicolon) {
                    lemma_around(
                        p,
                        Label::Return,
                        across(span_at(p, at), span_at(p, next)),
                        optional(Some(value)),
                        value.span.start as int,
                        value.span.end as int,
                    );
                }
            }
        }
    }
}

#[verifier::spinoff_prover]
proof fn lemma_statement_branch(p: Input, at: int, start: int)
    requires
        lined(p),
        0 <= start < at,
        start < p.tokens.len() - 1,
    ensures
        good(p, start, at + 1, statement_branch(p, span_at(p, start), at), Kind::Branch),
    decreases rest(p, at), 7nat,
{
    lemma_expression(p, at);
    if let Ok((condition, next)) = expression(p, at) {
        lemma_statement_body(p, next);
        if let Ok((body, last)) = statement_body(p, next) {
            lemma_two(p, Label::Branch, across(span_at(p, start), body.span), condition, body);
        }
    }
}

#[verifier::spinoff_prover]
proof fn lemma_expression_branch(p: Input, at: int, start: int)
    requires
        lined(p),
        0 <= start < at,
        start < p.tokens.len() - 1,
    ensures
        good(p, start, at + 1, expression_branch(p, span_at(p, start), at), Kind::Branch),
    decreases rest(p, at), 7nat,
{
    lemma_expression(p, at);
    if let Ok((condition, next)) = expression(p, at) {
        lemma_expression_body(p, next);
        if let Ok((body, last)) = expression_body(p, next) {
            lemma_two(p, Label::Branch, across(span_at(p, start), body.span), condition, body);
        }
    }
}

#[verifier::spinoff_prover]
proof fn lemma_if_statement(p: Input, at: int)
    requires
        lined(p),
        0 <= at,
    ensures
        good(p, at, at + 1, if_statement(p, at), Kind::Statement),
    decreases rest(p, at), 7nat,
{
    if at_kind(p, at, TokenKind::If) {
        lemma_statement_branch(p, at + 1, at);
        if let Ok((branch, next)) = statement_branch(p, span_at(p, at), at + 1) {
            lemma_push(p, seq![], branch, branch.span.start as int, branch.span.start as int, branch.span.end as int);
            assert(Seq::<Tree>::empty().push(branch) =~= seq![branch]);
            lemma_if_statement_rest(p, next, at, seq![branch]);
        }
    }
}

#[verifier::spinoff_prover]
proof fn lemma_if_statement_rest(p: Input, at: int, start: int, branches: Seq<Tree>)
    requires
        lined(p),
        0 <= start < at < p.tokens.len(),
        branches.len() > 0,
        chain(p, branches, p.tokens[start].span.start as int, p.tokens[at - 1].span.end as int, tree_of(p)),
        branches.last().span.end == p.tokens[at - 1].span.end,
        forall|i: int| 0 <= i < branches.len() ==> kind_of((#[trigger] branches[i]).label) == Kind::Branch,
    ensures
        good(p, start, at, if_statement_rest(p, at, span_at(p, start), branches), Kind::Statement),
    decreases rest(p, at), 8nat,
{
    reveal(if_node);
    let from = p.tokens[start].span.start as int;
    let done = p.tokens[at - 1].span.end as int;
    if !at_kind(p, at, TokenKind::Else) {
        let span = across(span_at(p, start), branches.last().span);
        assert(branches + optional(None) =~= branches);
        lemma_tree(p, Label::IfStatement { has_else: false }, span, branches);
    } else if at_kind(p, at + 1, TokenKind::If) {
        lemma_statement_branch(p, at + 2, at);
        if let Ok((branch, next)) = statement_branch(p, span_at(p, at), at + 2) {
            lemma_push(p, branches, branch, from, done, p.tokens[next - 1].span.end as int);
            lemma_if_statement_rest(p, next, start, branches.push(branch));
        }
    } else {
        lemma_statement_body(p, at + 1);
        if let Ok((body, next)) = statement_body(p, at + 1) {
            lemma_push(p, branches, body, from, done, p.tokens[next - 1].span.end as int);
            assert(branches + optional(Some(body)) =~= branches.push(body));
            lemma_several(
                p,
                Label::IfStatement { has_else: true },
                across(span_at(p, start), body.span),
                branches.push(body),
            );
        }
    }
}

#[verifier::spinoff_prover]
proof fn lemma_while(p: Input, at: int)
    requires
        lined(p),
        0 <= at,
    ensures
        good(p, at, at + 1, while_statement(p, at), Kind::Statement),
    decreases rest(p, at), 7nat,
{
    if at_kind(p, at, TokenKind::While) {
        assert(stands(p, at, span_at(p, at).start, KindView::Plain(TokenKind::While)));
        lemma_expression(p, at + 1);
        if let Ok((condition, next)) = expression(p, at + 1) {
            lemma_statement_body(p, next);
            if let Ok((body, last)) = statement_body(p, next) {
                lemma_two(p, Label::While, across(span_at(p, at), body.span), condition, body);
            }
        }
    }
}

#[verifier::spinoff_prover]
proof fn lemma_for(p: Input, at: int)
    requires
        lined(p),
        0 <= at,
    ensures
        good(p, at, at + 1, for_statement(p, at), Kind::Statement),
    decreases rest(p, at), 7nat,
{
    if at_kind(p, at, TokenKind::For) && at_kind(p, at + 1, TokenKind::Identifier) && at_kind(
        p,
        at + 2,
        TokenKind::In,
    ) {
        assert(stands(p, at, span_at(p, at).start, KindView::Plain(TokenKind::For)));
        lemma_expression(p, at + 3);
        if let Ok((iterable, next)) = expression(p, at + 3) {
            lemma_statement_body(p, next);
            if let Ok((body, last)) = statement_body(p, next) {
                lemma_two(
                    p,
                    Label::For { binding: span_at(p, at + 1) },
                    across(span_at(p, at), body.span),
                    iterable,
                    body,
                );
            }
        }
    }
}

#[verifier::spinoff_prover]
proof fn lemma_switch(p: Input, at: int)
    requires
        lined(p),
        0 <= at,
    ensures
        good(p, at, at + 1, switch_statement(p, at), Kind::Statement),
    decreases rest(p, at), 7nat,
{
    if at_kind(p, at, TokenKind::Switch) {
        lemma_expression(p, at + 1);
        if let Ok((value, next)) = expression(p, at + 1) {
            if at_kind(p, next, TokenKind::LeftBrace) {
                lemma_push(p, seq![], value, value.span.start as int, value.span.start as int, value.span.end as int);
                assert(Seq::<Tree>::empty().push(value) =~= seq![value] + Seq::<Tree>::empty());
                lemma_switch_rest(p, next + 1, at, value, seq![]);
            }
        }
    }
}

#[verifier::spinoff_prover]
proof fn lemma_switch_rest(p: Input, at: int, start: int, value: Tree, arms: Seq<Tree>)
    requires
        lined(p),
        0 <= start < at <= p.tokens.len(),
        start < p.tokens.len() - 1,
        chain(p, seq![value] + arms, p.tokens[start].span.end as int, p.tokens[at - 1].span.end as int, tree_of(p)),
    ensures
        good(p, start, at, switch_rest(p, at, span_at(p, start), value, arms), Kind::Statement),
    decreases rest(p, at), 8nat,
{
    reveal(switch_node);
    let from = p.tokens[start].span.end as int;
    let done = p.tokens[at - 1].span.end as int;
    if at_kind(p, at, TokenKind::RightBrace) {
        assert(seq![value] + arms + optional(None) =~= seq![value] + arms);
        lemma_around(
            p,
            Label::Switch { has_else: false },
            across(span_at(p, start), span_at(p, at)),
            seq![value] + arms,
            from,
            done,
        );
    } else if at_kind(p, at, TokenKind::Eof) {
    } else if at_kind(p, at, TokenKind::Else) {
        lemma_statement_body(p, at + 1);
        if let Ok((body, next)) = statement_body(p, at + 1) {
            if at_kind(p, next, TokenKind::RightBrace) {
                let all = (seq![value] + arms).push(body);
                assert(seq![value] + arms + optional(Some(body)) =~= all);
                lemma_push(p, seq![value] + arms, body, from, done, p.tokens[next - 1].span.end as int);
                lemma_around(
                    p,
                    Label::Switch { has_else: true },
                    across(span_at(p, start), span_at(p, next)),
                    all,
                    from,
                    p.tokens[next - 1].span.end as int,
                );
            }
        }
    } else {
        lemma_type(p, at);
        if let Ok((label, next)) = type_at(p, at) {
            lemma_statement_body(p, next);
            if let Ok((body, last)) = statement_body(p, next) {
                let arm = node2(Label::Arm, across(label.span, body.span), label, body);
                lemma_two(p, Label::Arm, across(label.span, body.span), label, body);
                lemma_push(p, seq![value] + arms, arm, from, done, p.tokens[last - 1].span.end as int);
                assert((seq![value] + arms).push(arm) =~= seq![value] + arms.push(arm));
                lemma_switch_rest(p, last, start, value, arms.push(arm));
            }
        }
    }
}

#[verifier::spinoff_prover]
proof fn lemma_statement_body(p: Input, at: int)
    requires
        lined(p),
        0 <= at,
    ensures
        good(p, at, at + 1, statement_body(p, at), Kind::Body),
    decreases rest(p, at), 1nat,
{
    if at_kind(p, at, TokenKind::LeftBrace) {
        lemma_block(p, at);
        if let Ok((inner, next)) = block(p, at) {
            lemma_one(p, Label::BlockBody, inner.span, inner);
        }
    } else if at_kind(p, at, TokenKind::Colon) {
        lemma_statement(p, at + 1);
        if let Ok((inner, next)) = statement(p, at + 1) {
            lemma_one(p, Label::StatementBody, across(span_at(p, at), inner.span), inner);
        }
    }
}

#[verifier::spinoff_prover]
proof fn lemma_expression_body(p: Input, at: int)
    requires
        lined(p),
        0 <= at,
    ensures
        good(p, at, at + 1, expression_body(p, at), Kind::Body),
    decreases rest(p, at), 1nat,
{
    if at_kind(p, at, TokenKind::LeftBrace) {
        lemma_block(p, at);
        if let Ok((inner, next)) = block(p, at) {
            lemma_one(p, Label::BlockBody, inner.span, inner);
        }
    } else if at_kind(p, at, TokenKind::Colon) {
        lemma_expression(p, at + 1);
        if let Ok((inner, next)) = expression(p, at + 1) {
            lemma_one(p, Label::ExpressionBody, across(span_at(p, at), inner.span), inner);
        }
    }
}

#[verifier::spinoff_prover]
proof fn lemma_expression(p: Input, at: int)
    requires
        lined(p),
        0 <= at,
    ensures
        good(p, at, at + 1, expression(p, at), Kind::Expression),
    decreases rest(p, at), 6nat,
{
    lemma_binary(p, at, 1);
}

#[verifier::spinoff_prover]
proof fn lemma_binary(p: Input, at: int, minimum: u8)
    requires
        lined(p),
        0 <= at,
        0 < minimum <= PREFIX,
    ensures
        good(p, at, at + 1, binary(p, at, minimum), Kind::Expression),
        tight(binary(p, at, minimum), minimum as int),
        binary(p, at, minimum) matches Ok((tree, next)) ==> ahead(p, next) < minimum,
    decreases rest(p, at), 5nat,
{
    lemma_unary(p, at);
    if let Ok((left, next)) = unary(p, at) {
        lemma_binary_rest(p, next, at, minimum, left);
    }
}

#[verifier::spinoff_prover]
proof fn lemma_binary_rest(p: Input, at: int, start: int, minimum: u8, left: Tree)
    requires
        lined(p),
        sound(p, start, left, at, Kind::Expression),
        0 < minimum <= PREFIX,
        hold(left.label) >= minimum,
        left.label is Is || hold(left.label) >= ahead(p, at),
    ensures
        good(p, start, at, binary_rest(p, at, minimum, left), Kind::Expression),
        tight(binary_rest(p, at, minimum, left), minimum as int),
        binary_rest(p, at, minimum, left) matches Ok((tree, next)) ==> ahead(p, next) < minimum,
    decreases rest(p, at), 5nat,
{
    lemma_strength(kind_at(p, at));
    if at_kind(p, at, TokenKind::Is) {
        assert(stands(p, at, span_at(p, at).start, KindView::Plain(TokenKind::Is)));
        if IS_PRECEDENCE >= minimum {
            lemma_type(p, at + 1);
            if let Ok((ty, next)) = type_at(p, at + 1) {
                let label = Label::Is { operator_span: span_at(p, at) };
                lemma_two(p, label, across(left.span, ty.span), left, ty);
                lemma_binary_rest(p, next, start, minimum, node2(label, across(left.span, ty.span), left, ty));
            }
        }
    } else if let Some((operator, precedence)) = binary_operator(kind_at(p, at)) {
        if precedence >= minimum {
            assert(stands(p, at, span_at(p, at).start, KindView::Plain(binary_symbol(operator))));
            lemma_binary(p, at + 1, (precedence + 1) as u8);
            if let Ok((right, next)) = binary(p, at + 1, (precedence + 1) as u8) {
                let label = Label::Binary { operator, operator_span: span_at(p, at) };
                lemma_two(p, label, across(left.span, right.span), left, right);
                lemma_binary_rest(p, next, start, minimum, node2(label, across(left.span, right.span), left, right));
            }
        }
    }
}

#[verifier::spinoff_prover]
proof fn lemma_unary(p: Input, at: int)
    requires
        lined(p),
        0 <= at,
    ensures
        good(p, at, at + 1, unary(p, at), Kind::Expression),
        tight(unary(p, at), PREFIX as int),
    decreases rest(p, at), 4nat,
{
    if let Some(operator) = unary_operator(kind_at(p, at)) {
        assert(stands(p, at, span_at(p, at).start, KindView::Plain(unary_symbol(operator))));
        lemma_unary(p, at + 1);
        if let Ok((operand, next)) = unary(p, at + 1) {
            lemma_one(
                p,
                Label::Unary { operator, operator_span: span_at(p, at) },
                across(span_at(p, at), operand.span),
                operand,
            );
        }
    } else {
        lemma_postfix(p, at);
    }
}

#[verifier::spinoff_prover]
proof fn lemma_postfix(p: Input, at: int)
    requires
        lined(p),
        0 <= at,
    ensures
        good(p, at, at + 1, postfix(p, at), Kind::Expression),
        tight(postfix(p, at), PREFIX + 1),
    decreases rest(p, at), 3nat,
{
    lemma_primary(p, at);
    if let Ok((value, next)) = primary(p, at) {
        lemma_postfix_rest(p, next, at, value);
    }
}

#[verifier::spinoff_prover]
#[verifier::rlimit(50)]
proof fn lemma_postfix_rest(p: Input, at: int, start: int, value: Tree)
    requires
        lined(p),
        sound(p, start, value, at, Kind::Expression),
        hold(value.label) > PREFIX,
    ensures
        good(p, start, at, postfix_rest(p, at, value), Kind::Expression),
        tight(postfix_rest(p, at, value), PREFIX + 1),
    decreases rest(p, at), 8nat,
{
    if at_kind(p, at, TokenKind::LeftParen) {
        lemma_call(p, at, start, value);
        if let Ok((result, next)) = call(p, at, value) {
            lemma_postfix_rest(p, next, start, result);
        }
    } else if at_kind(p, at, TokenKind::LeftBracket) {
        lemma_expression(p, at + 1);
        if let Ok((index, next)) = expression(p, at + 1) {
            if at_kind(p, next, TokenKind::RightBracket) {
                lemma_two(p, Label::Index, across(value.span, span_at(p, next)), value, index);
                lemma_postfix_rest(
                    p,
                    next + 1,
                    start,
                    node2(Label::Index, across(value.span, span_at(p, next)), value, index),
                );
            }
        }
    } else if at_kind(p, at, TokenKind::Dot) {
        if let Some(member) = member(p, at + 1) {
            lemma_one(p, Label::Member(member), across(value.span, span_at(p, at + 1)), value);
            lemma_postfix_rest(
                p,
                at + 2,
                start,
                node1(Label::Member(member), across(value.span, span_at(p, at + 1)), value),
            );
        }
    } else if at_kind(p, at, TokenKind::Question) {
        let label = Label::Try { operator_span: span_at(p, at) };
        lemma_one(p, label, across(value.span, span_at(p, at)), value);
        lemma_postfix_rest(p, at + 1, start, node1(label, across(value.span, span_at(p, at)), value));
    }
}

#[verifier::spinoff_prover]
proof fn lemma_call(p: Input, at: int, start: int, callee: Tree)
    requires
        lined(p),
        sound(p, start, callee, at, Kind::Expression),
        hold(callee.label) > PREFIX,
    ensures
        good(p, start, at + 1, call(p, at, callee), Kind::Expression),
        tight(call(p, at, callee), PREFIX + 1),
    decreases rest(p, at), 7nat,
{
    reveal(call_node);
    if at_kind(p, at, TokenKind::LeftParen) {
        let from = callee.span.start as int;
        let to = callee.span.end as int;
        lemma_push(p, seq![], callee, from, from, to);
        assert(Seq::<Tree>::empty().push(callee) =~= seq![callee] + Seq::<Tree>::empty());
        if at_kind(p, at + 1, TokenKind::RightParen) {
            lemma_around(
                p,
                Label::Call,
                across(callee.span, span_at(p, at + 1)),
                seq![callee] + Seq::<Tree>::empty(),
                from,
                to,
            );
        } else {
            lemma_arguments_rest(p, at + 1, start, callee, seq![]);
        }
    }
}

#[verifier::spinoff_prover]
proof fn lemma_arguments_rest(p: Input, at: int, start: int, callee: Tree, before: Seq<Tree>)
    requires
        lined(p),
        0 <= start < at <= p.tokens.len(),
        callee.span.start == p.tokens[start].span.start,
        chain(
            p,
            seq![callee] + before,
            p.tokens[start].span.start as int,
            p.tokens[at - 1].span.end as int,
            tree_of(p),
        ),
        hold(callee.label) > PREFIX,
    ensures
        good(p, start, at, arguments_rest(p, at, callee, before), Kind::Expression),
        tight(arguments_rest(p, at, callee, before), PREFIX + 1),
    decreases rest(p, at), 8nat,
{
    reveal(call_node);
    lemma_argument(p, at);
    if let Ok((one, next)) = argument(p, at) {
        let all = before.push(one);
        let from = p.tokens[start].span.start as int;
        lemma_push(
            p,
            seq![callee] + before,
            one,
            from,
            p.tokens[at - 1].span.end as int,
            p.tokens[next - 1].span.end as int,
        );
        assert((seq![callee] + before).push(one) =~= seq![callee] + all);
        assert((seq![callee] + all)[0] == callee);
        if at_kind(p, next, TokenKind::Comma) {
            lemma_widen(
                p,
                seq![callee] + all,
                from,
                p.tokens[next - 1].span.end as int,
                p.tokens[next].span.end as int,
                tree_of(p),
            );
            lemma_arguments_rest(p, next + 1, start, callee, all);
        } else if at_kind(p, next, TokenKind::RightParen) {
            lemma_around(
                p,
                Label::Call,
                across(callee.span, span_at(p, next)),
                seq![callee] + all,
                from,
                p.tokens[next - 1].span.end as int,
            );
        }
    }
}

proof fn lemma_widen(p: Input, trees: Seq<Tree>, from: int, to: int, more: int, number: u64)
    requires
        chain(p, trees, from, to, number),
        to <= more,
    ensures
        chain(p, trees, from, more, number),
{
}

/// What is indexed stands before its index.
proof fn lemma_index(p: Input, tree: Tree)
    requires
        nested(p, tree),
        tree.children.len() == 2,
        tree.label is Index,
    ensures
        nested(p, tree.children[0]),
        nested(p, tree.children[1]),
        filled(tree.children[0].span),
        filled(tree.children[1].span),
        tree.children[0].span.end <= tree.children[1].span.start,
        tree.children[1].span.end < tree.span.end,
        tree.children[0].span.tree == tree.span.tree,
        tree.children[1].span.tree == tree.span.tree,
{
    reveal_with_fuel(nested, 1);
    assert(tree.children[0].span.end <= tree.children[1].span.start);
}

#[verifier::spinoff_prover]
proof fn lemma_argument(p: Input, at: int)
    requires
        lined(p),
        0 <= at,
    ensures
        good(p, at, at + 1, argument(p, at), Kind::Argument),
    decreases rest(p, at), 7nat,
{
    if at_kind(p, at, TokenKind::Identifier) && at_kind(p, at + 1, TokenKind::Equal) {
        lemma_expression(p, at + 2);
        if let Ok((value, next)) = expression(p, at + 2) {
            lemma_one(p, Label::NamedArgument(span_at(p, at)), across(span_at(p, at), value.span), value);
        }
    } else {
        lemma_expression(p, at);
        if let Ok((value, next)) = expression(p, at) {
            lemma_one(p, Label::Positional, value.span, value);
        }
    }
}

#[verifier::spinoff_prover]
proof fn lemma_literal(p: Input, at: int)
    requires
        lined(p),
        0 <= at,
        literal(p, at) is Some,
    ensures
        sound(p, at, leaf(literal(p, at)->0, span_at(p, at)), at + 1, Kind::Expression),
        hold(leaf(literal(p, at)->0, span_at(p, at)).label) > PREFIX,
{
    assert(0 <= at < p.tokens.len());
    assert(p.tokens[at].kind != KindView::Plain(TokenKind::Eof));
    assert(at < p.tokens.len() - 1);
    assert(stands(p, at, span_at(p, at).start, kind_at(p, at)));
    lemma_leaf(p, literal(p, at)->0, span_at(p, at));
}

#[verifier::spinoff_prover]
proof fn lemma_wrapped(p: Input, at: int, from: int, label: Label, inner: Tree, next: int)
    requires
        lined(p),
        0 <= at < from,
        sound(p, from, inner, next, Kind::Expression),
        at_kind(p, next, TokenKind::RightParen),
        label is Conversion || label is Parenthesized,
    ensures
        sound(p, at, node1(label, across(span_at(p, at), span_at(p, next)), inner), next + 1, Kind::Expression),
        hold(node1(label, across(span_at(p, at), span_at(p, next)), inner).label) > PREFIX,
{
    assert(next < p.tokens.len() - 1);
    assert(p.tokens[at].span.end <= p.tokens[from].span.start);
    assert(p.tokens[next - 1].span.end <= p.tokens[next].span.start);
    assert(filled(p.tokens[at].span) && filled(p.tokens[next].span));
    lemma_one(p, label, across(span_at(p, at), span_at(p, next)), inner);
}

#[verifier::spinoff_prover]
#[verifier::rlimit(100)]
proof fn lemma_primary(p: Input, at: int)
    requires
        lined(p),
        0 <= at,
    ensures
        good(p, at, at + 1, primary(p, at), Kind::Expression),
        tight(primary(p, at), PREFIX + 1),
    decreases rest(p, at), 2nat,
{
    if literal(p, at) is Some {
        lemma_literal(p, at);
    } else if numeric(kind_at(p, at)) is Some && at_kind(p, at + 1, TokenKind::LeftParen) {
        lemma_expression(p, at + 2);
        if let Ok((operand, next)) = expression(p, at + 2) {
            if at_kind(p, next, TokenKind::RightParen) {
                lemma_wrapped(p, at, at + 2, Label::Conversion(numeric(kind_at(p, at))->0), operand, next);
            }
        }
    } else if at_kind(p, at, TokenKind::LeftParen) {
        lemma_expression(p, at + 1);
        if let Ok((inner, next)) = expression(p, at + 1) {
            if at_kind(p, next, TokenKind::RightParen) {
                lemma_wrapped(p, at, at + 1, Label::Parenthesized, inner, next);
            }
        }
    } else if at_kind(p, at, TokenKind::LeftBracket) {
        lemma_list(p, at);
    } else if at_kind(p, at, TokenKind::LeftBrace) {
        lemma_braced(p, at);
    } else if at_kind(p, at, TokenKind::If) {
        lemma_if_expression(p, at);
    }
}

#[verifier::spinoff_prover]
proof fn lemma_list(p: Input, at: int)
    requires
        lined(p),
        0 <= at,
    ensures
        good(p, at, at + 1, list(p, at), Kind::Expression),
        tight(list(p, at), PREFIX + 1),
    decreases rest(p, at), 1nat,
{
    reveal(node);
    if at_kind(p, at, TokenKind::LeftBracket) {
        if at_kind(p, at + 1, TokenKind::RightBracket) {
            if at_kind(p, at + 2, TokenKind::Colon) {
                lemma_list_type(p, at + 3);
                if let Ok((ty, next)) = list_type(p, at + 3) {
                    lemma_one(p, Label::TypedEmptyList, across(span_at(p, at), ty.span), ty);
                }
            } else {
                lemma_tree(p, Label::List, across(span_at(p, at), span_at(p, at + 1)), seq![]);
            }
        } else {
            lemma_list_rest(p, at + 1, at, seq![]);
        }
    }
}

#[verifier::spinoff_prover]
proof fn lemma_list_rest(p: Input, at: int, start: int, before: Seq<Tree>)
    requires
        lined(p),
        0 <= start < at <= p.tokens.len(),
        start < p.tokens.len() - 1,
        chain(p, before, p.tokens[start].span.end as int, p.tokens[at - 1].span.end as int, tree_of(p)),
    ensures
        good(p, start, at, list_rest(p, at, span_at(p, start), before), Kind::Expression),
        tight(list_rest(p, at, span_at(p, start), before), PREFIX + 1),
    decreases rest(p, at), 8nat,
{
    reveal(node);
    lemma_expression(p, at);
    if let Ok((one, next)) = expression(p, at) {
        let all = before.push(one);
        let from = p.tokens[start].span.end as int;
        lemma_push(p, before, one, from, p.tokens[at - 1].span.end as int, p.tokens[next - 1].span.end as int);
        if at_kind(p, next, TokenKind::Comma) {
            lemma_widen(p, all, from, p.tokens[next - 1].span.end as int, p.tokens[next].span.end as int, tree_of(p));
            lemma_list_rest(p, next + 1, start, all);
        } else if at_kind(p, next, TokenKind::RightBracket) {
            lemma_around(
                p,
                Label::List,
                across(span_at(p, start), span_at(p, next)),
                all,
                from,
                p.tokens[next - 1].span.end as int,
            );
        }
    }
}

#[verifier::spinoff_prover]
proof fn lemma_braced(p: Input, at: int)
    requires
        lined(p),
        0 <= at,
    ensures
        good(p, at, at + 1, braced(p, at), Kind::Expression),
        tight(braced(p, at), PREFIX + 1),
    decreases rest(p, at), 1nat,
{
    reveal(node);
    if at_kind(p, at, TokenKind::LeftBrace) {
        if at_kind(p, at + 1, TokenKind::RightBrace) {
            if at_kind(p, at + 2, TokenKind::Colon) {
                lemma_map_type(p, at + 3);
                if let Ok((ty, next)) = map_type(p, at + 3) {
                    lemma_one(p, Label::TypedEmptyMap, across(span_at(p, at), ty.span), ty);
                }
            } else {
                lemma_tree(p, Label::MapLiteral, across(span_at(p, at), span_at(p, at + 1)), seq![]);
            }
        } else {
            lemma_expression(p, at + 1);
            lemma_block(p, at);
            if let Ok((inner, next)) = block(p, at) {
                lemma_one(p, Label::BlockExpression, inner.span, inner);
            }
            if let Ok((first, next)) = expression(p, at + 1) {
                if at_kind(p, next, TokenKind::Colon) {
                    lemma_map_rest(p, next + 1, at, at + 1, first, seq![]);
                }
            }
        }
    }
}

#[verifier::spinoff_prover]
#[verifier::rlimit(50)]
proof fn lemma_map_rest(p: Input, at: int, start: int, key_at: int, key: Tree, before: Seq<Tree>)
    requires
        lined(p),
        0 <= start < key_at < at <= p.tokens.len(),
        start < p.tokens.len() - 1,
        sound(p, key_at, key, at - 1, Kind::Expression),
        chain(p, before, p.tokens[start].span.end as int, p.tokens[key_at - 1].span.end as int, tree_of(p)),
    ensures
        good(p, start, at, map_rest(p, at, span_at(p, start), key, before), Kind::Expression),
        tight(map_rest(p, at, span_at(p, start), key, before), PREFIX + 1),
    decreases rest(p, at), 8nat,
{
    reveal(node);
    lemma_expression(p, at);
    if let Ok((value, next)) = expression(p, at) {
        let entry = node2(Label::Entry, across(key.span, value.span), key, value);
        lemma_two(p, Label::Entry, across(key.span, value.span), key, value);
        let all = before.push(entry);
        let from = p.tokens[start].span.end as int;
        lemma_push(p, before, entry, from, p.tokens[key_at - 1].span.end as int, p.tokens[next - 1].span.end as int);
        if at_kind(p, next, TokenKind::Comma) {
            lemma_expression(p, next + 1);
            if let Ok((following, last)) = expression(p, next + 1) {
                if at_kind(p, last, TokenKind::Colon) {
                    lemma_widen(
                        p,
                        all,
                        from,
                        p.tokens[next - 1].span.end as int,
                        p.tokens[next].span.end as int,
                        tree_of(p),
                    );
                    lemma_map_rest(p, last + 1, start, next + 1, following, all);
                }
            }
        } else if at_kind(p, next, TokenKind::RightBrace) {
            lemma_around(
                p,
                Label::MapLiteral,
                across(span_at(p, start), span_at(p, next)),
                all,
                from,
                p.tokens[next - 1].span.end as int,
            );
        }
    }
}

#[verifier::spinoff_prover]
proof fn lemma_if_expression(p: Input, at: int)
    requires
        lined(p),
        0 <= at,
    ensures
        good(p, at, at + 1, if_expression(p, at), Kind::Expression),
        tight(if_expression(p, at), PREFIX + 1),
    decreases rest(p, at), 1nat,
{
    if at_kind(p, at, TokenKind::If) {
        lemma_expression_branch(p, at + 1, at);
        if let Ok((branch, next)) = expression_branch(p, span_at(p, at), at + 1) {
            lemma_push(p, seq![], branch, branch.span.start as int, branch.span.start as int, branch.span.end as int);
            assert(Seq::<Tree>::empty().push(branch) =~= seq![branch]);
            lemma_if_expression_rest(p, next, at, seq![branch]);
        }
    }
}

#[verifier::spinoff_prover]
proof fn lemma_if_expression_rest(p: Input, at: int, start: int, branches: Seq<Tree>)
    requires
        lined(p),
        0 <= start < at < p.tokens.len(),
        branches.len() > 0,
        chain(p, branches, p.tokens[start].span.start as int, p.tokens[at - 1].span.end as int, tree_of(p)),
    ensures
        good(p, start, at, if_expression_rest(p, at, span_at(p, start), branches), Kind::Expression),
        tight(if_expression_rest(p, at, span_at(p, start), branches), PREFIX + 1),
    decreases rest(p, at), 8nat,
{
    reveal(if_expression_node);
    let from = p.tokens[start].span.start as int;
    let done = p.tokens[at - 1].span.end as int;
    if at_kind(p, at, TokenKind::Else) {
        if at_kind(p, at + 1, TokenKind::If) {
            lemma_expression_branch(p, at + 2, at);
            if let Ok((branch, next)) = expression_branch(p, span_at(p, at), at + 2) {
                lemma_push(p, branches, branch, from, done, p.tokens[next - 1].span.end as int);
                lemma_if_expression_rest(p, next, start, branches.push(branch));
            }
        } else {
            lemma_expression_body(p, at + 1);
            if let Ok((body, next)) = expression_body(p, at + 1) {
                lemma_push(p, branches, body, from, done, p.tokens[next - 1].span.end as int);
                lemma_several(p, Label::IfExpression, across(span_at(p, start), body.span), branches.push(body));
            }
        }
    }
}

#[verifier::spinoff_prover]
proof fn lemma_type_member(p: Input, at: int)
    requires
        lined(p),
        0 <= at,
    ensures
        good(p, at, at + 1, type_member(p, at), Kind::Member),
{
    if at_kind(p, at, TokenKind::Identifier) && (at_kind(p, at + 1, TokenKind::Ampersand) || type_after_name(
        p,
        at + 1,
    )) {
        let referenced = at_kind(p, at + 1, TokenKind::Ampersand);
        let from = if referenced {
            at + 2
        } else {
            at + 1
        };
        lemma_type(p, from);
        if let Ok((ty, next)) = type_at(p, from) {
            lemma_one(
                p,
                Label::NamedMember { name: span_at(p, at), referenced },
                across(span_at(p, at), ty.span),
                ty,
            );
        }
    } else {
        lemma_type(p, at);
        if let Ok((ty, next)) = type_at(p, at) {
            lemma_one(p, Label::UnnamedMember, ty.span, ty);
        }
    }
}

#[verifier::spinoff_prover]
proof fn lemma_members_rest(p: Input, at: int, start: int, before: Seq<Tree>)
    requires
        lined(p),
        0 <= start < at <= p.tokens.len(),
        start < p.tokens.len() - 1,
        chain(p, before, p.tokens[start].span.end as int, p.tokens[at - 1].span.end as int, tree_of(p)),
    ensures
        good(p, start, at, members_rest(p, at, start, before), Kind::Declaration),
    decreases rest(p, at),
{
    reveal(node);
    lemma_type_member(p, at);
    if let Ok((one, next)) = type_member(p, at) {
        let all = before.push(one);
        let from = p.tokens[start].span.end as int;
        lemma_push(p, before, one, from, p.tokens[at - 1].span.end as int, p.tokens[next - 1].span.end as int);
        if at_kind(p, next, TokenKind::Comma) {
            lemma_widen(p, all, from, p.tokens[next - 1].span.end as int, p.tokens[next].span.end as int, tree_of(p));
            lemma_members_rest(p, next + 1, start, all);
        } else if at_kind(p, next, TokenKind::RightParen) && at_kind(p, next + 1, TokenKind::Semicolon) {
            lemma_around(
                p,
                Label::TypeDeclaration { name: span_at(p, start + 1) },
                across(span_at(p, start), span_at(p, next + 1)),
                all,
                from,
                p.tokens[next - 1].span.end as int,
            );
        }
    }
}

#[verifier::spinoff_prover]
proof fn lemma_parameter(p: Input, at: int)
    requires
        lined(p),
        0 <= at,
    ensures
        good(p, at, at + 1, parameter(p, at), Kind::Parameter),
{
    let mutable = at_kind(p, at, TokenKind::Var);
    let name = if mutable {
        at + 1
    } else {
        at
    };
    if at_kind(p, name, TokenKind::Identifier) {
        lemma_type(p, name + 1);
        if let Ok((ty, next)) = type_at(p, name + 1) {
            lemma_one(
                p,
                Label::Parameter { mutable, name: span_at(p, name) },
                across(span_at(p, at), ty.span),
                ty,
            );
        }
    }
}

#[verifier::spinoff_prover]
proof fn lemma_parameters_rest(p: Input, at: int, start: int, before: Seq<Tree>)
    requires
        lined(p),
        0 <= start < at <= p.tokens.len(),
        start < p.tokens.len() - 1,
        chain(p, before, p.tokens[start].span.end as int, p.tokens[at - 1].span.end as int, tree_of(p)),
    ensures
        good(p, start, at, parameters_rest(p, at, start, before), Kind::Declaration),
    decreases rest(p, at),
{
    lemma_parameter(p, at);
    if let Ok((one, next)) = parameter(p, at) {
        let all = before.push(one);
        let from = p.tokens[start].span.end as int;
        lemma_push(p, before, one, from, p.tokens[at - 1].span.end as int, p.tokens[next - 1].span.end as int);
        if at_kind(p, next, TokenKind::Comma) {
            lemma_widen(p, all, from, p.tokens[next - 1].span.end as int, p.tokens[next].span.end as int, tree_of(p));
            lemma_parameters_rest(p, next + 1, start, all);
        } else if at_kind(p, next, TokenKind::RightParen) {
            lemma_widen(p, all, from, p.tokens[next - 1].span.end as int, p.tokens[next].span.end as int, tree_of(p));
            lemma_function_rest(p, next + 1, start, all);
        }
    }
}

#[verifier::spinoff_prover]
proof fn lemma_function_rest(p: Input, at: int, start: int, parameters: Seq<Tree>)
    requires
        lined(p),
        0 <= start < at <= p.tokens.len(),
        start < p.tokens.len() - 1,
        chain(p, parameters, p.tokens[start].span.end as int, p.tokens[at - 1].span.end as int, tree_of(p)),
    ensures
        good(p, start, at, function_rest(p, at, start, parameters), Kind::Declaration),
{
    let from = p.tokens[start].span.end as int;
    let done = p.tokens[at - 1].span.end as int;
    assert(parameters + optional(None) =~= parameters);
    lemma_function_body(p, at, start, parameters, None);
    lemma_type(p, at);
    if let Ok((ty, next)) = type_at(p, at) {
        lemma_push(p, parameters, ty, from, done, p.tokens[next - 1].span.end as int);
        assert(parameters + optional(Some(ty)) =~= parameters.push(ty));
        lemma_function_body(p, next, start, parameters, Some(ty));
    }
}

#[verifier::spinoff_prover]
proof fn lemma_function_body(p: Input, at: int, start: int, parameters: Seq<Tree>, result: Option<Tree>)
    requires
        lined(p),
        0 <= start < at <= p.tokens.len(),
        start < p.tokens.len() - 1,
        chain(
            p,
            parameters + optional(result),
            p.tokens[start].span.end as int,
            p.tokens[at - 1].span.end as int,
            tree_of(p),
        ),
    ensures
        good(p, start, at + 1, function_body(p, at, start, parameters, result), Kind::Declaration),
{
    reveal(function_node);
    let from = p.tokens[start].span.end as int;
    let done = p.tokens[at - 1].span.end as int;
    lemma_block(p, at);
    if let Ok((body, next)) = block(p, at) {
        let before = parameters + optional(result);
        lemma_push(p, before, body, from, done, p.tokens[next - 1].span.end as int);
        assert(before.push(body) =~= parameters + optional(result) + seq![body]);
        lemma_around(
            p,
            Label::Function { name: span_at(p, start + 1), has_return_type: result is Some },
            across(span_at(p, start), body.span),
            before.push(body),
            from,
            body.span.end as int,
        );
    }
}

#[verifier::spinoff_prover]
proof fn lemma_declaration(p: Input, at: int)
    requires
        lined(p),
        0 <= at,
    ensures
        good(p, at, at + 1, declaration(p, at), Kind::Declaration),
{
    if at_kind(p, at, TokenKind::Type) {
        if at_kind(p, at + 1, TokenKind::Identifier) && at_kind(p, at + 2, TokenKind::LeftParen) && !at_kind(
            p,
            at + 3,
            TokenKind::RightParen,
        ) {
            lemma_members_rest(p, at + 3, at, seq![]);
        }
    } else if at_kind(p, at, TokenKind::Fn) {
        if at_kind(p, at + 1, TokenKind::Identifier) && at_kind(p, at + 2, TokenKind::LeftParen) {
            if at_kind(p, at + 3, TokenKind::RightParen) {
                lemma_function_rest(p, at + 4, at, seq![]);
            } else {
                lemma_parameters_rest(p, at + 3, at, seq![]);
            }
        }
    }
}

#[verifier::spinoff_prover]
proof fn lemma_declarations(p: Input, at: int, before: Seq<Tree>)
    requires
        lined(p),
        0 <= at < p.tokens.len(),
        chain(p, before, 0, p.tokens[at].span.start as int, tree_of(p)),
        forall|i: int| 0 <= i < before.len() ==> kind_of((#[trigger] before[i]).label) == Kind::Declaration,
    ensures
        declarations(p, at, before) matches Ok(all) ==> {
            &&& chain(p, all, 0, p.tokens.last().span.start as int, tree_of(p))
            &&& forall|i: int| 0 <= i < all.len() ==> kind_of((#[trigger] all[i]).label) == Kind::Declaration
            &&& all.len() >= before.len()
            &&& at_kind(p, at, TokenKind::Eof) <==> all.len() == before.len()
        },
    decreases rest(p, at),
{
    if at_kind(p, at, TokenKind::Eof) {
        if at < p.tokens.len() - 1 {
            lemma_widen(p, before, 0, p.tokens[at].span.start as int, p.tokens.last().span.start as int, tree_of(p));
        }
    } else {
        lemma_declaration(p, at);
        if let Ok((one, next)) = declaration(p, at) {
            lemma_push(p, before, one, 0, p.tokens[at].span.start as int, p.tokens[next].span.start as int);
            lemma_declarations(p, next, before.push(one));
        }
    }
}

/// The node that a path of child indices leads to.
pub open spec fn node_at(tree: Tree, path: Seq<int>) -> Option<Tree>
    decreases path.len(),
{
    if path.len() == 0 {
        Some(tree)
    } else if 0 <= path[0] < tree.children.len() {
        node_at(tree.children[path[0]], path.drop_first())
    } else {
        None
    }
}

/// A node lies within those that it is inside of, carries their number, and shares their span only if it ranks below
/// them.
proof fn lemma_inside(p: Input, tree: Tree, path: Seq<int>)
    requires
        nested(p, tree),
        tree.span.start <= tree.span.end,
        node_at(tree, path) is Some,
    ensures
        ({
            let inner = node_at(tree, path)->0;
            &&& tree.span.start <= inner.span.start <= inner.span.end <= tree.span.end
            &&& inner.span.tree == tree.span.tree
            &&& path.len() > 0 ==> filled(inner.span) && (inner.span == tree.span ==> rank(kind_of(inner.label))
                < rank(kind_of(tree.label)))
        }),
    decreases path.len(),
{
    if path.len() > 0 {
        reveal_with_fuel(nested, 1);
        let child = tree.children[path[0]];
        assert(filled(child.span));
        lemma_inside(p, child, path.drop_first());
    }
}

/// In a tree that nests, a kind and a span tell a node.
pub proof fn lemma_nodes_are_told(p: Input, tree: Tree, left: Seq<int>, right: Seq<int>)
    requires
        nested(p, tree),
        tree.span.start <= tree.span.end,
        node_at(tree, left) is Some,
        node_at(tree, right) is Some,
        kind_of((node_at(tree, left)->0).label) == kind_of((node_at(tree, right)->0).label),
        (node_at(tree, left)->0).span == (node_at(tree, right)->0).span,
    ensures
        left == right,
    decreases left.len(),
{
    lemma_inside(p, tree, left);
    lemma_inside(p, tree, right);
    if left.len() == 0 || right.len() == 0 {
        assert(left =~= right);
    } else {
        reveal_with_fuel(nested, 1);
        let a = tree.children[left[0]];
        let b = tree.children[right[0]];
        lemma_inside(p, a, left.drop_first());
        lemma_inside(p, b, right.drop_first());
        if left[0] < right[0] {
            assert(a.span.end <= b.span.start);
        } else if right[0] < left[0] {
            assert(b.span.end <= a.span.start);
        } else {
            lemma_nodes_are_told(p, a, left.drop_first(), right.drop_first());
            assert(left =~= seq![left[0]] + left.drop_first());
            assert(right =~= seq![right[0]] + right.drop_first());
        }
    }
}

proof fn lemma_lined(bytes: Seq<u8>, number: u64)
    requires
        bytes.len() <= usize::MAX,
    ensures
        lined(input_of(bytes, number)),
        input_of(bytes, number).tokens.last().span.start == bytes.len(),
        tree_of(input_of(bytes, number)) == number,
{
    lexer::law_tokens_in_line(bytes);
    let p = input_of(bytes, number);
    let all = lexer::complete_tokens(bytes);
    let body = lexer::lexed(bytes).tokens;
    assert(all.drop_last() == body);
    assert forall|i: int| 0 <= i < p.tokens.len() - 1 implies filled((#[trigger] p.tokens[i]).span) by {
        assert(all.drop_last()[i] == all[i]);
        assert(body[i].span.start < body[i].span.end);
    }
    assert forall|i: int, j: int| 0 <= i < j < p.tokens.len() implies (#[trigger] p.tokens[i]).span.end <= (
    #[trigger] p.tokens[j]).span.start by {
        assert(all.drop_last()[i] == all[i]);
        assert(body[i].span.end <= bytes.len());
        if j < p.tokens.len() - 1 {
            assert(all.drop_last()[j] == all[j]);
            assert(body[i].span.end <= body[j].span.start);
        } else {
            assert(all[j] == all.last());
        }
    }
}

/// The tree of a text spans it. Its declarations stand one behind the other within it, and there are none exactly
/// where the text holds no token.
pub proof fn law_declarations_stand_in_order(bytes: Seq<u8>, number: u64)
    requires
        bytes.len() <= usize::MAX,
    ensures
        program(input_of(bytes, number)) matches Ok(tree) ==> {
            &&& tree.span == Span { start: 0, end: bytes.len() as usize, tree: number }
            &&& forall|i: int|
                0 <= i < tree.children.len() ==> (#[trigger] tree.children[i]).span.start < tree.children[i].span.end
                    <= bytes.len()
            &&& forall|i: int, j: int|
                0 <= i < j < tree.children.len() ==> (#[trigger] tree.children[i]).span.end <= (
                #[trigger] tree.children[j]).span.start
            &&& tree.children.len() == 0 <==> lexer::lexed(bytes).tokens.len() == 0
        },
{
    law_programs_nest(bytes, number);
    reveal_with_fuel(nested, 1);
}

/// The tree of a text spans it and carries the given number, and its nodes nest. It has no declarations exactly where the
/// text holds no token.
pub proof fn law_programs_nest(bytes: Seq<u8>, number: u64)
    requires
        bytes.len() <= usize::MAX,
    ensures
        program(input_of(bytes, number)) matches Ok(tree) ==> nested(input_of(bytes, number), tree) && tree.span == (Span {
            start: 0,
            end: bytes.len() as usize,
            tree: number,
        }) && (tree.children.len() == 0 <==> lexer::lexed(bytes).tokens.len() == 0),
{
    let p = input_of(bytes, number);
    lemma_lined(bytes, number);
    lemma_declarations(p, 0, seq![]);
    reveal(node);
    if let Ok(all) = declarations(p, 0, seq![]) {
        lemma_tree(p, Label::Program, Span { start: 0, end: bytes.len() as usize, tree: number }, all);
        lexer::laws::lemma_no_early_end(bytes);
    }
}

/// In the tree of a text, two nodes of one kind with the same span are the same node.
pub proof fn law_nodes_are_told_by_kind_and_span(bytes: Seq<u8>, number: u64, left: Seq<int>, right: Seq<int>)
    requires
        bytes.len() <= usize::MAX,
        program(input_of(bytes, number)) is Ok,
        node_at(program(input_of(bytes, number))->Ok_0, left) is Some,
        node_at(program(input_of(bytes, number))->Ok_0, right) is Some,
        ({
            let tree = program(input_of(bytes, number))->Ok_0;
            let a = node_at(tree, left)->0;
            let b = node_at(tree, right)->0;
            kind_of(a.label) == kind_of(b.label) && a.span == b.span
        }),
    ensures
        left == right,
{
    law_programs_nest(bytes, number);
    lemma_nodes_are_told(input_of(bytes, number), program(input_of(bytes, number))->Ok_0, left, right);
}

/// Every node of a tree carries the number of the tree.
pub proof fn law_nodes_carry_the_number_of_their_tree(bytes: Seq<u8>, number: u64, path: Seq<int>)
    requires
        bytes.len() <= usize::MAX,
        program(input_of(bytes, number)) is Ok,
        node_at(program(input_of(bytes, number))->Ok_0, path) is Some,
    ensures
        (node_at(program(input_of(bytes, number))->Ok_0, path)->0).span.tree == number,
{
    law_programs_nest(bytes, number);
    lemma_inside(input_of(bytes, number), program(input_of(bytes, number))->Ok_0, path);
}

/// Whether every node of a tree carries the given number.
#[verifier::opaque]
pub open spec fn uniform(tree: Tree, number: u64) -> bool
    decreases tree,
{
    &&& tree.span.tree == number
    &&& forall|i: int| 0 <= i < tree.children.len() ==> uniform(#[trigger] tree.children[i], number)
}

pub proof fn lemma_uniform(p: Input, tree: Tree)
    requires
        nested(p, tree),
    ensures
        uniform(tree, tree.span.tree),
    decreases tree,
{
    reveal_with_fuel(nested, 1);
    reveal_with_fuel(uniform, 1);
    assert forall|i: int| 0 <= i < tree.children.len() implies uniform(#[trigger] tree.children[i], tree.span.tree) by {
        lemma_uniform(p, tree.children[i]);
    }
}

proof fn lemma_node(p: Input, tree: Tree, path: Seq<int>)
    requires
        nested(p, tree),
        node_at(tree, path) is Some,
    ensures
        nested(p, node_at(tree, path)->0),
    decreases path.len(),
{
    if path.len() > 0 {
        reveal_with_fuel(nested, 1);
        lemma_node(p, tree.children[path[0]], path.drop_first());
    }
}

/// In the tree of a text, operators group as tightly as they bind: the operands of a product are never sums, those of
/// a sum never shifts, and so on; operators of one strength group to the left, and prefix operators bind tighter than
/// any of them. Every operator, literal and loop is written in the text as what it is taken for.
pub proof fn law_operators_group_by_strength(bytes: Seq<u8>, number: u64, path: Seq<int>)
    requires
        bytes.len() <= usize::MAX,
        program(input_of(bytes, number)) is Ok,
        node_at(program(input_of(bytes, number))->Ok_0, path) is Some,
    ensures
        grouped(node_at(program(input_of(bytes, number))->Ok_0, path)->0),
        spelled(input_of(bytes, number), node_at(program(input_of(bytes, number))->Ok_0, path)->0),
{
    law_programs_nest(bytes, number);
    lemma_node(input_of(bytes, number), program(input_of(bytes, number))->Ok_0, path);
    reveal_with_fuel(nested, 1);
}

} // verus!
