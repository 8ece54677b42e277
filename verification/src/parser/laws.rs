//! What holds of the syntax tree of every source file.

use crate::ast::{Declaration, Program, function_node, node};
use crate::diagnostic::{DiagnosticKind, Diagnostics};
use crate::grammar::{input_of, program};
use crate::grammar::nesting::{
    kind_of, law_declarations_stand_in_order, law_nodes_are_told_by_kind_and_span,
    law_nodes_carry_the_number_of_their_tree, node_at,
};
use crate::lexer::{Token, lex_result, lexed};
use crate::parser::parse_result;
use crate::source::{SourceFile, Span};
use vstd::prelude::*;

verus! {

/// The span of a declaration.
pub open spec fn declaration_span(declaration: Declaration) -> Span {
    match declaration {
        Declaration::Type(declaration) => declaration.span,
        Declaration::Function(declaration) => declaration.span,
    }
}

/// A file that cannot be lexed is not parsed: what is reported is what lexing reports. Any other file that is no
/// program has one error, at a place in the source.
pub proof fn law_parsing_reports(
    source: &SourceFile,
    tree: u64,
    tokens: Result<Vec<Token>, Diagnostics>,
    result: Result<Program, Diagnostics>,
)
    requires
        lex_result(source, tokens),
        parse_result(source, tree, result),
    ensures
        match tokens {
            Err(errors) => result is Err && result->Err_0@ == errors@,
            Ok(_) => result matches Err(errors) ==> errors@.len() == 1 && errors@[0].kind == DiagnosticKind::Source,
        },
{
}

/// A program spans its file and has the number that it was given. Its declarations are not empty and stand in source
/// order, apart from one another and within it. It has none exactly where the file holds no token.
pub proof fn law_declarations_are_in_source_order(
    source: &SourceFile,
    tree: u64,
    result: Result<Program, Diagnostics>,
)
    requires
        source.wf(),
        parse_result(source, tree, result),
    ensures
        result matches Ok(parsed) ==> {
            let spans = parsed.declarations@.map_values(|declaration: Declaration| declaration_span(declaration));
            &&& parsed.span == Span { start: 0, end: source.bytes().len() as usize, tree }
            &&& forall|i: int|
                0 <= i < spans.len() ==> (#[trigger] spans[i]).start < spans[i].end <= source.bytes().len()
            &&& forall|i: int, j: int|
                0 <= i < j < spans.len() ==> (#[trigger] spans[i]).end <= (#[trigger] spans[j]).start
            &&& spans.len() == 0 <==> lexed(source.bytes()).tokens.len() == 0
        },
{
    if let Ok(parsed) = result {
        let bytes = source.bytes();
        law_declarations_stand_in_order(bytes, tree);
        reveal(node);
        reveal(function_node);
        let root = parsed.tree();
        assert(program(input_of(bytes, tree))->Ok_0 == root);
        let spans = parsed.declarations@.map_values(|declaration: Declaration| declaration_span(declaration));
        assert forall|i: int| 0 <= i < spans.len() implies #[trigger] spans[i] == root.children[i].span by {
            let declaration = parsed.declarations@[i];
            assert(root.children[i] == declaration.tree());
        }
        assert forall|i: int, j: int| 0 <= i < j < spans.len() implies (#[trigger] spans[i]).end <= (
        #[trigger] spans[j]).start by {
            assert(root.children[i].span.end <= root.children[j].span.start);
        }
    }
}

/// In a program, two nodes of one kind with the same span are the same node. So facts about a program can name a
/// node by its span.
pub proof fn law_spans_tell_nodes(
    source: &SourceFile,
    tree: u64,
    result: Result<Program, Diagnostics>,
    left: Seq<int>,
    right: Seq<int>,
)
    requires
        source.wf(),
        parse_result(source, tree, result),
    ensures
        result matches Ok(parsed) ==> (node_at(parsed.tree(), left) matches Some(a) ==> (node_at(
            parsed.tree(),
            right,
        ) matches Some(b) ==> kind_of(a.label) == kind_of(b.label) && a.span == b.span ==> left == right)),
{
    if let Ok(parsed) = result {
        if let (Some(a), Some(b)) = (node_at(parsed.tree(), left), node_at(parsed.tree(), right)) {
            if kind_of(a.label) == kind_of(b.label) && a.span == b.span {
                assert(program(input_of(source.bytes(), tree))->Ok_0 == parsed.tree());
                law_nodes_are_told_by_kind_and_span(source.bytes(), tree, left, right);
            }
        }
    }
}

/// Nodes of two trees with different numbers differ in their spans, even where the trees are of one text.
pub proof fn law_trees_are_told_apart(
    first_source: &SourceFile,
    first_tree: u64,
    first: Result<Program, Diagnostics>,
    second_source: &SourceFile,
    second_tree: u64,
    second: Result<Program, Diagnostics>,
    left: Seq<int>,
    right: Seq<int>,
)
    requires
        first_source.wf(),
        second_source.wf(),
        parse_result(first_source, first_tree, first),
        parse_result(second_source, second_tree, second),
        first_tree != second_tree,
    ensures
        first matches Ok(one) ==> (second matches Ok(other) ==> (node_at(one.tree(), left) matches Some(a) ==> (node_at(
            other.tree(),
            right,
        ) matches Some(b) ==> a.span != b.span))),
{
    if let (Ok(one), Ok(other)) = (first, second) {
        if let (Some(a), Some(b)) = (node_at(one.tree(), left), node_at(other.tree(), right)) {
            assert(program(input_of(first_source.bytes(), first_tree))->Ok_0 == one.tree());
            assert(program(input_of(second_source.bytes(), second_tree))->Ok_0 == other.tree());
            law_nodes_carry_the_number_of_their_tree(first_source.bytes(), first_tree, left);
            law_nodes_carry_the_number_of_their_tree(second_source.bytes(), second_tree, right);
        }
    }
}

} // verus!
