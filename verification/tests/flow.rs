//! How the ways out of parts of a program combine.

use sao2::semantic::flow::{deduplicate_switches, FallthroughKind, FlowFlags, FlowSummary};
use sao2::source::Span;

fn switches(starts: &[usize]) -> Vec<Span> {
    starts.iter().map(|start| Span::new(*start, start + 1)).collect()
}

fn dependent(starts: &[usize]) -> FlowSummary {
    FlowSummary::dependent(switches(starts))
}

fn samples() -> Vec<FlowSummary> {
    vec![
        FlowSummary::falling_through(),
        FlowSummary::terminal(FlowFlags::returning()),
        FlowSummary::terminal(FlowFlags::diverging()),
        dependent(&[1]),
        dependent(&[2, 1]),
        FlowSummary::alternatives(&vec![
            FlowSummary::terminal(FlowFlags::breaking()),
            FlowSummary::falling_through(),
        ]),
        FlowSummary::alternatives(&vec![FlowSummary::terminal(FlowFlags::continuing()), dependent(&[3])]),
    ]
}

#[test]
fn flags_name_one_way_out_each_and_add_up() {
    assert_eq!(FlowFlags::none(), FlowFlags::default());
    let mut flags = FlowFlags::returning();
    flags.insert(FlowFlags::breaking());
    assert_eq!(
        flags,
        FlowFlags { fallthrough: false, returns: true, breaks: true, continues: false, diverges: false }
    );
    flags.insert(FlowFlags::continuing());
    flags.insert(FlowFlags::diverging());
    assert_eq!(
        flags,
        FlowFlags { fallthrough: false, returns: true, breaks: true, continues: true, diverges: true }
    );
}

#[test]
fn a_sequence_ends_with_its_first_part_without_an_end() {
    let first = FlowSummary::terminal(FlowFlags::returning());
    assert_eq!(
        first.followed_by(FlowSummary::terminal(FlowFlags::breaking())),
        FlowSummary::terminal(FlowFlags::returning())
    );
    let reached = dependent(&[4]).followed_by(FlowSummary::terminal(FlowFlags::returning()));
    assert_eq!(reached, FlowSummary::terminal(FlowFlags::returning()));
    assert!(!reached.can_fallthrough());
}

#[test]
fn a_sequence_of_dependent_parts_hangs_on_all_of_their_switches_once() {
    let both = dependent(&[5, 2]).followed_by(dependent(&[2, 9]));
    assert_eq!(both.fallthrough, FallthroughKind::SwitchDependent);
    assert_eq!(both.switch_dependencies, switches(&[5, 2, 9]));
    assert!(both.can_fallthrough());
}

#[test]
fn a_definite_choice_forgets_the_switches_of_the_others() {
    let choice = FlowSummary::alternatives(&vec![
        dependent(&[1]),
        FlowSummary::terminal(FlowFlags::continuing()),
        FlowSummary::falling_through(),
    ]);
    assert_eq!(choice.fallthrough, FallthroughKind::Definite);
    assert!(choice.switch_dependencies.is_empty());
    assert_eq!(
        choice.flags,
        FlowFlags { fallthrough: true, returns: false, breaks: false, continues: true, diverges: false }
    );
    let open = FlowSummary::alternatives(&vec![dependent(&[1]), dependent(&[3, 1])]);
    assert_eq!(open.fallthrough, FallthroughKind::SwitchDependent);
    assert_eq!(open.switch_dependencies, switches(&[1, 3]));
    let closed = FlowSummary::alternatives(&vec![]);
    assert_eq!(closed, FlowSummary::terminal(FlowFlags::none()));
}

#[test]
fn parts_in_a_row_may_be_grouped_in_any_way() {
    for first in samples() {
        for second in samples() {
            for third in samples() {
                let left = first.duplicate().followed_by(second.duplicate()).followed_by(third.duplicate());
                let right = first.duplicate().followed_by(second.duplicate().followed_by(third));
                assert_eq!(left, right);
            }
        }
    }
}

#[test]
fn falling_through_changes_nothing_and_one_part_is_its_own_choice() {
    for part in samples() {
        assert_eq!(FlowSummary::falling_through().followed_by(part.duplicate()), part);
        assert_eq!(part.duplicate().followed_by(FlowSummary::falling_through()), part);
        assert_eq!(FlowSummary::alternatives(&vec![part.duplicate()]), part);
    }
}

#[test]
fn repeated_switches_stand_where_they_first_occur() {
    assert_eq!(deduplicate_switches(&switches(&[7, 3, 7, 1, 3])), switches(&[7, 3, 1]));
    assert_eq!(deduplicate_switches(&vec![]), switches(&[]));
}
