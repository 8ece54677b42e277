//! The families of binary operators, and how operators of one family stand inside of those of another.

use crate::ast::BinaryOperator;
use crate::grammar::{Label, Tree, input_of, program};
use crate::grammar::nesting::{law_operators_group_by_strength, node_at};
use vstd::prelude::*;

verus! {

pub open spec fn is_product(operator: BinaryOperator) -> bool {
    operator == BinaryOperator::Multiply || operator == BinaryOperator::Divide || operator == BinaryOperator::Remainder
}

pub open spec fn is_sum(operator: BinaryOperator) -> bool {
    operator == BinaryOperator::Add || operator == BinaryOperator::Subtract
}

pub open spec fn is_shift(operator: BinaryOperator) -> bool {
    operator == BinaryOperator::ShiftLeft || operator == BinaryOperator::ShiftRight
}

pub open spec fn is_comparison(operator: BinaryOperator) -> bool {
    operator == BinaryOperator::Less || operator == BinaryOperator::LessEqual || operator == BinaryOperator::Greater
        || operator == BinaryOperator::GreaterEqual || operator == BinaryOperator::In
}

pub open spec fn is_equality(operator: BinaryOperator) -> bool {
    operator == BinaryOperator::Equal || operator == BinaryOperator::NotEqual
}

/// Whether a node is a binary operation with an operator of some kind, if it is a binary operation at all.
pub open spec fn only_with(tree: Tree, kinds: spec_fn(BinaryOperator) -> bool) -> bool {
    tree.label matches Label::Binary { operator, .. } ==> kinds(operator)
}

/// Without parentheses, the operands of a product are no other operations, but for products on the left; those of a sum
/// are products, or sums on the left; those of a shift are sums and products, or shifts on the left; and those of a
/// comparison and of `==` and `!=` likewise. So `a - b * c` takes the product from `a`, `a * b - c` takes `c` from the
/// product, and `a - b - c` and `a - b + c` start with `a - b`.
pub proof fn law_operands_belong_to_tighter_families(bytes: Seq<u8>, number: u64, path: Seq<int>)
    requires
        bytes.len() <= usize::MAX,
        program(input_of(bytes, number)) is Ok,
        node_at(program(input_of(bytes, number))->Ok_0, path) is Some,
    ensures
        ({
            let node = node_at(program(input_of(bytes, number))->Ok_0, path)->0;
            node.label matches Label::Binary { operator, .. } ==> {
                let left = node.children[0];
                let right = node.children[1];
                &&& node.children.len() == 2
                &&& is_product(operator) ==> only_with(left, |o: BinaryOperator| is_product(o)) && !(right.label is Binary)
                &&& is_sum(operator) ==> only_with(left, |o: BinaryOperator| is_sum(o) || is_product(o)) && only_with(
                    right,
                    |o: BinaryOperator| is_product(o),
                )
                &&& is_shift(operator) ==> only_with(
                    left,
                    |o: BinaryOperator| is_shift(o) || is_sum(o) || is_product(o),
                ) && only_with(right, |o: BinaryOperator| is_sum(o) || is_product(o))
                &&& is_comparison(operator) ==> only_with(
                    left,
                    |o: BinaryOperator| is_comparison(o) || is_shift(o) || is_sum(o) || is_product(o),
                ) && only_with(right, |o: BinaryOperator| is_shift(o) || is_sum(o) || is_product(o))
                &&& is_equality(operator) ==> only_with(
                    left,
                    |o: BinaryOperator| is_equality(o) || is_comparison(o) || is_shift(o) || is_sum(o) || is_product(o),
                ) && only_with(
                    right,
                    |o: BinaryOperator| is_comparison(o) || is_shift(o) || is_sum(o) || is_product(o),
                )
            }
        }),
{
    law_operators_group_by_strength(bytes, number, path);
}

/// Without parentheses, `or` is looser than `and`, `and` than `|`, `|` than `^`, `^` than `&`, and `&` than `==` and all
/// that is tighter; each of them groups to the left.
pub proof fn law_logic_is_looser_than_arithmetic(bytes: Seq<u8>, number: u64, path: Seq<int>)
    requires
        bytes.len() <= usize::MAX,
        program(input_of(bytes, number)) is Ok,
        node_at(program(input_of(bytes, number))->Ok_0, path) is Some,
    ensures
        ({
            let node = node_at(program(input_of(bytes, number))->Ok_0, path)->0;
            node.label matches Label::Binary { operator, .. } ==> {
                let left = node.children[0];
                let right = node.children[1];
                let bitwise = |o: BinaryOperator|
                    o == BinaryOperator::BitwiseOr || o == BinaryOperator::BitwiseXor || o == BinaryOperator::BitwiseAnd;
                let logical = |o: BinaryOperator| o == BinaryOperator::LogicalOr || o == BinaryOperator::LogicalAnd;
                &&& operator != BinaryOperator::LogicalOr ==> only_with(
                    left,
                    |o: BinaryOperator| o != BinaryOperator::LogicalOr,
                )
                &&& only_with(right, |o: BinaryOperator| o != BinaryOperator::LogicalOr && o != operator)
                &&& !logical(operator) ==> only_with(left, |o: BinaryOperator| !logical(o)) && only_with(
                    right,
                    |o: BinaryOperator| !logical(o),
                )
                &&& operator == BinaryOperator::BitwiseXor || operator == BinaryOperator::BitwiseAnd ==> only_with(
                    left,
                    |o: BinaryOperator| o != BinaryOperator::BitwiseOr,
                ) && only_with(right, |o: BinaryOperator| o != BinaryOperator::BitwiseOr)
                &&& operator == BinaryOperator::BitwiseAnd ==> only_with(
                    left,
                    |o: BinaryOperator| o != BinaryOperator::BitwiseXor,
                ) && only_with(right, |o: BinaryOperator| o != BinaryOperator::BitwiseXor)
                &&& !logical(operator) && !bitwise(operator) ==> only_with(left, |o: BinaryOperator| !bitwise(o))
                    && only_with(right, |o: BinaryOperator| !bitwise(o))
            }
        }),
{
    law_operators_group_by_strength(bytes, number, path);
}

} // verus!
