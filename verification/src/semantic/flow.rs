//! How control leaves a part of a program.

use crate::source::Span;
use vstd::prelude::*;

verus! {

/// The ways in which control can leave a part of a program.
#[derive(Clone, Copy, Debug, Default, Eq, PartialEq, Structural)]
pub struct FlowFlags {
    pub fallthrough: bool,
    pub returns: bool,
    pub breaks: bool,
    pub continues: bool,
    pub diverges: bool,
}

/// No way out.
pub open spec fn no_exit() -> FlowFlags {
    FlowFlags { fallthrough: false, returns: false, breaks: false, continues: false, diverges: false }
}

/// The ways out of either of two parts.
pub open spec fn either(left: FlowFlags, right: FlowFlags) -> FlowFlags {
    FlowFlags {
        fallthrough: left.fallthrough || right.fallthrough,
        returns: left.returns || right.returns,
        breaks: left.breaks || right.breaks,
        continues: left.continues || right.continues,
        diverges: left.diverges || right.diverges,
    }
}

impl FlowFlags {
    pub fn none() -> (result: Self)
        ensures
            result == no_exit(),
    {
        FlowFlags { fallthrough: false, returns: false, breaks: false, continues: false, diverges: false }
    }

    pub fn returning() -> (result: Self)
        ensures
            result == (FlowFlags { returns: true, ..no_exit() }),
    {
        FlowFlags { fallthrough: false, returns: true, breaks: false, continues: false, diverges: false }
    }

    pub fn breaking() -> (result: Self)
        ensures
            result == (FlowFlags { breaks: true, ..no_exit() }),
    {
        FlowFlags { fallthrough: false, returns: false, breaks: true, continues: false, diverges: false }
    }

    pub fn continuing() -> (result: Self)
        ensures
            result == (FlowFlags { continues: true, ..no_exit() }),
    {
        FlowFlags { fallthrough: false, returns: false, breaks: false, continues: true, diverges: false }
    }

    pub fn diverging() -> (result: Self)
        ensures
            result == (FlowFlags { diverges: true, ..no_exit() }),
    {
        FlowFlags { fallthrough: false, returns: false, breaks: false, continues: false, diverges: true }
    }

    /// Adds ways out.
    pub fn insert(&mut self, flags: Self)
        ensures
            *final(self) == either(*old(self), flags),
    {
        self.fallthrough = self.fallthrough || flags.fallthrough;
        self.returns = self.returns || flags.returns;
        self.breaks = self.breaks || flags.breaks;
        self.continues = self.continues || flags.continues;
        self.diverges = self.diverges || flags.diverges;
    }
}

/// Whether control can reach the end of a part, and if so, whether that hangs on a `switch` without `else`.
#[derive(Clone, Copy, Debug, Eq, PartialEq, Structural)]
pub enum FallthroughKind {
    Never,
    Definite,
    SwitchDependent,
}

/// How control leaves a part of a program.
#[derive(Debug, Eq, PartialEq)]
pub struct FlowSummary {
    pub flags: FlowFlags,
    pub fallthrough: FallthroughKind,
    /// Non-`else` switches that may govern the remaining fallthrough paths.
    pub switch_dependencies: Vec<Span>,
}

/// The contents of a flow summary.
#[verifier::ext_equal]
pub struct FlowView {
    pub flags: FlowFlags,
    pub fallthrough: FallthroughKind,
    pub switches: Seq<Span>,
}

/// A sequence without its repetitions: each span stands where it first occurs.
pub open spec fn distinct(spans: Seq<Span>) -> Seq<Span>
    decreases spans.len(),
{
    if spans.len() == 0 {
        seq![]
    } else {
        let rest = distinct(spans.drop_last());
        if rest.contains(spans.last()) {
            rest
        } else {
            rest.push(spans.last())
        }
    }
}

/// A part that control never leaves at its end.
pub open spec fn terminal_flow(flags: FlowFlags) -> FlowView {
    FlowView { flags, fallthrough: FallthroughKind::Never, switches: seq![] }
}

/// A part that control leaves at its end only.
pub open spec fn fallthrough_flow() -> FlowView {
    FlowView {
        flags: FlowFlags { fallthrough: true, ..no_exit() },
        fallthrough: FallthroughKind::Definite,
        switches: seq![],
    }
}

/// A part whose end is reached unless the given switches are exhaustive.
pub open spec fn dependent_flow(switches: Seq<Span>) -> FlowView {
    FlowView {
        flags: FlowFlags { fallthrough: true, ..no_exit() },
        fallthrough: FallthroughKind::SwitchDependent,
        switches,
    }
}

/// One part and then another.
pub open spec fn sequence_flow(first: FlowView, next: FlowView) -> FlowView {
    if first.fallthrough == FallthroughKind::Never {
        first
    } else if next.fallthrough == FallthroughKind::Never {
        FlowView {
            flags: FlowFlags { fallthrough: false, ..either(first.flags, next.flags) },
            fallthrough: FallthroughKind::Never,
            switches: seq![],
        }
    } else if first.fallthrough == FallthroughKind::Definite {
        FlowView {
            flags: FlowFlags { fallthrough: true, ..either(first.flags, next.flags) },
            fallthrough: next.fallthrough,
            switches: distinct(next.switches),
        }
    } else {
        FlowView {
            flags: FlowFlags { fallthrough: true, ..either(first.flags, next.flags) },
            fallthrough: FallthroughKind::SwitchDependent,
            switches: distinct(first.switches + next.switches),
        }
    }
}

/// The ways out of any of the first `count` parts.
pub open spec fn any_flags(flows: Seq<FlowView>, count: int) -> FlowFlags
    decreases count,
{
    if count <= 0 {
        no_exit()
    } else {
        either(any_flags(flows, count - 1), flows[count - 1].flags)
    }
}

/// Whether the end of any of the first `count` parts is reached, as far as is known.
pub open spec fn any_fallthrough(flows: Seq<FlowView>, count: int) -> FallthroughKind
    decreases count,
{
    if count <= 0 {
        FallthroughKind::Never
    } else {
        match (any_fallthrough(flows, count - 1), flows[count - 1].fallthrough) {
            (FallthroughKind::Definite, _) => FallthroughKind::Definite,
            (_, FallthroughKind::Definite) => FallthroughKind::Definite,
            (kind, FallthroughKind::Never) => kind,
            (_, FallthroughKind::SwitchDependent) => FallthroughKind::SwitchDependent,
        }
    }
}

/// The switches that the ends of the first `count` parts hang on.
pub open spec fn all_switches(flows: Seq<FlowView>, count: int) -> Seq<Span>
    decreases count,
{
    if count <= 0 {
        seq![]
    } else if flows[count - 1].fallthrough == FallthroughKind::SwitchDependent {
        all_switches(flows, count - 1) + flows[count - 1].switches
    } else {
        all_switches(flows, count - 1)
    }
}

/// Exactly one of several parts.
pub open spec fn alternatives_flow(flows: Seq<FlowView>) -> FlowView {
    let count = flows.len() as int;
    let fallthrough = any_fallthrough(flows, count);
    FlowView {
        flags: FlowFlags { fallthrough: fallthrough != FallthroughKind::Never, ..any_flags(flows, count) },
        fallthrough,
        switches: if fallthrough == FallthroughKind::SwitchDependent {
            distinct(all_switches(flows, count))
        } else {
            seq![]
        },
    }
}

/// A summary whose fields agree with one another.
pub open spec fn coherent(flow: FlowView) -> bool {
    &&& flow.flags.fallthrough == (flow.fallthrough != FallthroughKind::Never)
    &&& flow.fallthrough != FallthroughKind::SwitchDependent ==> flow.switches.len() == 0
    &&& flow.switches.no_duplicates()
}

/// The contents of several summaries.
pub open spec fn flow_views(flows: Seq<FlowSummary>) -> Seq<FlowView> {
    Seq::new(flows.len(), |i: int| flows[i]@)
}

proof fn lemma_distinct_members(spans: Seq<Span>)
    ensures
        distinct(spans).no_duplicates(),
        forall|span: Span| #[trigger] distinct(spans).contains(span) <==> spans.contains(span),
    decreases spans.len(),
{
    if spans.len() > 0 {
        let rest = distinct(spans.drop_last());
        lemma_distinct_members(spans.drop_last());
        assert forall|span: Span| #[trigger] distinct(spans).contains(span) <==> spans.contains(span) by {
            if spans.contains(span) {
                let i = choose|i: int| 0 <= i < spans.len() && spans[i] == span;
                if i < spans.len() - 1 {
                    assert(spans.drop_last()[i] == span);
                    assert(spans.drop_last().contains(span));
                    assert(rest.contains(span));
                    let j = choose|j: int| 0 <= j < rest.len() && rest[j] == span;
                    assert(distinct(spans)[j] == span);
                } else if !rest.contains(span) {
                    assert(distinct(spans)[rest.len() as int] == span);
                }
            }
            if distinct(spans).contains(span) {
                let j = choose|j: int| 0 <= j < distinct(spans).len() && distinct(spans)[j] == span;
                if j < rest.len() {
                    assert(rest[j] == span);
                    assert(rest.contains(span));
                    assert(spans.drop_last().contains(span));
                    let i = choose|i: int| 0 <= i < spans.drop_last().len() && spans.drop_last()[i] == span;
                    assert(spans[i] == span);
                } else {
                    assert(spans[spans.len() - 1] == span);
                }
            }
        }
    }
}

/// What holds no repetition is left as it is.
proof fn lemma_distinct_idle(spans: Seq<Span>)
    requires
        spans.no_duplicates(),
    ensures
        distinct(spans) == spans,
    decreases spans.len(),
{
    if spans.len() > 0 {
        let rest = spans.drop_last();
        assert forall|i: int, j: int| 0 <= i < rest.len() && 0 <= j < rest.len() && i != j implies rest[i] != rest[j] by {
            assert(spans[i] != spans[j]);
        }
        lemma_distinct_idle(rest);
        assert(!rest.contains(spans.last()));
        assert(distinct(spans) =~= spans);
    } else {
        assert(distinct(spans) =~= spans);
    }
}

/// Repetitions in the first half may be left out before or after the halves are joined.
proof fn lemma_distinct_left(left: Seq<Span>, right: Seq<Span>)
    ensures
        distinct(distinct(left) + right) == distinct(left + right),
    decreases right.len(),
{
    if right.len() == 0 {
        lemma_distinct_members(left);
        lemma_distinct_idle(distinct(left));
        assert(distinct(left) + right =~= distinct(left));
        assert(left + right =~= left);
    } else {
        lemma_distinct_left(left, right.drop_last());
        assert((distinct(left) + right).drop_last() =~= distinct(left) + right.drop_last());
        assert((left + right).drop_last() =~= left + right.drop_last());
    }
}

/// Repetitions in the second half may be left out before or after the halves are joined.
proof fn lemma_distinct_right(left: Seq<Span>, right: Seq<Span>)
    ensures
        distinct(left + distinct(right)) == distinct(left + right),
    decreases right.len(),
{
    if right.len() == 0 {
        assert(distinct(right) =~= right);
    } else {
        let before = right.drop_last();
        let last = right.last();
        lemma_distinct_right(left, before);
        assert((left + right).drop_last() =~= left + before);
        assert((left + right).last() == last);
        lemma_distinct_members(left + before);
        lemma_distinct_members(before);
        if distinct(before).contains(last) {
            assert(before.contains(last));
            let i = choose|i: int| 0 <= i < before.len() && before[i] == last;
            assert((left + before)[left.len() + i] == last);
            assert((left + before).contains(last));
        } else {
            assert((left + distinct(right)).drop_last() =~= left + distinct(before));
            assert((left + distinct(right)).last() == last);
        }
    }
}

/// Parts in a row may be grouped in any way.
pub proof fn law_sequence_is_associative(first: FlowView, second: FlowView, third: FlowView)
    requires
        coherent(first),
        coherent(second),
        coherent(third),
    ensures
        sequence_flow(sequence_flow(first, second), third) == sequence_flow(first, sequence_flow(second, third)),
{
    lemma_distinct_left(first.switches + second.switches, third.switches);
    lemma_distinct_right(first.switches, second.switches + third.switches);
    assert((first.switches + second.switches) + third.switches =~= first.switches + (second.switches
        + third.switches));
    lemma_distinct_members(second.switches + third.switches);
    lemma_distinct_members(third.switches);
    lemma_distinct_members(second.switches);
    lemma_distinct_idle(distinct(second.switches + third.switches));
    lemma_distinct_idle(distinct(third.switches));
    lemma_distinct_idle(distinct(second.switches));
    lemma_distinct_idle(second.switches);
    lemma_distinct_idle(third.switches);
    lemma_distinct_idle(first.switches);
    assert(Seq::<Span>::empty() + third.switches =~= third.switches);
    assert(first.switches + Seq::<Span>::empty() =~= first.switches);
    assert(second.switches + Seq::<Span>::empty() =~= second.switches);
    if second.switches.len() == 0 {
        assert(second.switches =~= Seq::empty());
    }
    if third.switches.len() == 0 {
        assert(third.switches =~= Seq::empty());
    }
    assert(sequence_flow(sequence_flow(first, second), third) =~= sequence_flow(
        first,
        sequence_flow(second, third),
    ));
}

/// A part that only falls through changes nothing, before or after another.
pub proof fn law_fallthrough_is_neutral(flow: FlowView)
    requires
        coherent(flow),
    ensures
        sequence_flow(fallthrough_flow(), flow) == flow,
        sequence_flow(flow, fallthrough_flow()) == flow,
{
    lemma_distinct_idle(flow.switches);
    lemma_distinct_idle(Seq::empty());
    assert(flow.switches + Seq::<Span>::empty() =~= flow.switches);
    assert(sequence_flow(fallthrough_flow(), flow) =~= flow);
    assert(sequence_flow(flow, fallthrough_flow()) =~= flow);
}

/// Nothing that follows a part without an end is reached.
pub proof fn law_terminal_absorbs(flags: FlowFlags, next: FlowView)
    ensures
        sequence_flow(terminal_flow(flags), next) == terminal_flow(flags),
{
}

/// Coherent parts make coherent sequences and coherent choices.
pub proof fn law_coherence_is_kept(flows: Seq<FlowView>)
    ensures
        coherent(alternatives_flow(flows)),
        forall|first: FlowView, next: FlowView|
            coherent(first) && coherent(next) ==> coherent(#[trigger] sequence_flow(first, next)),
{
    lemma_distinct_members(all_switches(flows, flows.len() as int));
    assert forall|first: FlowView, next: FlowView| coherent(first) && coherent(next) implies coherent(
        #[trigger] sequence_flow(first, next),
    ) by {
        lemma_distinct_members(next.switches);
        lemma_distinct_members(first.switches + next.switches);
        lemma_distinct_idle(next.switches);
    }
}

/// One part alone is the only choice.
pub proof fn law_single_alternative(flow: FlowView)
    requires
        coherent(flow),
    ensures
        alternatives_flow(seq![flow]) == flow,
{
    let flows = seq![flow];
    reveal_with_fuel(any_flags, 2);
    reveal_with_fuel(any_fallthrough, 2);
    reveal_with_fuel(all_switches, 2);
    lemma_distinct_idle(flow.switches);
    assert(Seq::<Span>::empty() + flow.switches =~= flow.switches);
    assert(alternatives_flow(flows) =~= flow);
}

impl FlowSummary {
    pub open spec fn view(&self) -> FlowView {
        FlowView { flags: self.flags, fallthrough: self.fallthrough, switches: self.switch_dependencies@ }
    }

    pub fn terminal(flags: FlowFlags) -> (result: Self)
        ensures
            result@ == terminal_flow(flags),
    {
        Self { flags, fallthrough: FallthroughKind::Never, switch_dependencies: Vec::new() }
    }

    pub fn falling_through() -> (result: Self)
        ensures
            result@ == fallthrough_flow(),
    {
        Self {
            flags: FlowFlags {
                fallthrough: true,
                returns: false,
                breaks: false,
                continues: false,
                diverges: false,
            },
            fallthrough: FallthroughKind::Definite,
            switch_dependencies: Vec::new(),
        }
    }

    pub fn dependent(switches: Vec<Span>) -> (result: Self)
        ensures
            result@ == dependent_flow(switches@),
    {
        Self {
            flags: FlowFlags {
                fallthrough: true,
                returns: false,
                breaks: false,
                continues: false,
                diverges: false,
            },
            fallthrough: FallthroughKind::SwitchDependent,
            switch_dependencies: switches,
        }
    }

    pub fn can_fallthrough(&self) -> (result: bool)
        ensures
            result == (self@.fallthrough != FallthroughKind::Never),
    {
        self.fallthrough != FallthroughKind::Never
    }

    /// This part and then another.
    pub fn followed_by(self, next: Self) -> (result: Self)
        ensures
            result@ == sequence_flow(self@, next@),
    {
        if !self.can_fallthrough() {
            return self;
        }
        let mut flags = self.flags;
        flags.insert(next.flags);
        if !next.can_fallthrough() {
            flags.fallthrough = false;
            return Self::terminal(flags);
        }
        flags.fallthrough = true;
        if self.fallthrough == FallthroughKind::Definite {
            let switches = deduplicate_switches(&next.switch_dependencies);
            return Self { flags, fallthrough: next.fallthrough, switch_dependencies: switches };
        }
        let mut dependencies = self.switch_dependencies;
        let mut more = next.switch_dependencies;
        dependencies.append(&mut more);
        let switches = deduplicate_switches(&dependencies);
        Self { flags, fallthrough: FallthroughKind::SwitchDependent, switch_dependencies: switches }
    }

    /// Exactly one of several parts.
    pub fn alternatives(flows: &Vec<FlowSummary>) -> (result: Self)
        ensures
            result@ == alternatives_flow(flow_views(flows@)),
    {
        let mut flags = FlowFlags::none();
        let mut kind = FallthroughKind::Never;
        let mut dependencies: Vec<Span> = Vec::new();
        let mut index: usize = 0;
        while index < flows.len()
            invariant
                index <= flows@.len(),
                flags == any_flags(flow_views(flows@), index as int),
                kind == any_fallthrough(flow_views(flows@), index as int),
                kind != FallthroughKind::Definite ==> dependencies@ == all_switches(
                    flow_views(flows@),
                    index as int,
                ),
            decreases flows@.len() - index,
        {
            assert(flow_views(flows@)[index as int] == flows@[index as int]@);
            flags.insert(flows[index].flags);
            match flows[index].fallthrough {
                FallthroughKind::Definite => {
                    kind = FallthroughKind::Definite;
                },
                FallthroughKind::SwitchDependent => {
                    if kind != FallthroughKind::Definite {
                        kind = FallthroughKind::SwitchDependent;
                        append_switches(&mut dependencies, &flows[index].switch_dependencies);
                    }
                },
                FallthroughKind::Never => {},
            }
            index += 1;
        }
        flags.fallthrough = kind != FallthroughKind::Never;
        let switches = if kind == FallthroughKind::SwitchDependent {
            deduplicate_switches(&dependencies)
        } else {
            Vec::new()
        };
        let result = Self { flags, fallthrough: kind, switch_dependencies: switches };
        assert(result@ =~= alternatives_flow(flow_views(flows@)));
        result
    }

    pub fn duplicate(&self) -> (result: Self)
        ensures
            result@ == self@,
    {
        let mut switches: Vec<Span> = Vec::new();
        append_switches(&mut switches, &self.switch_dependencies);
        assert(switches@ =~= self.switch_dependencies@);
        Self { flags: self.flags, fallthrough: self.fallthrough, switch_dependencies: switches }
    }
}

pub fn append_switches(target: &mut Vec<Span>, more: &Vec<Span>)
    ensures
        final(target)@ == old(target)@ + more@,
{
    let ghost before = target@;
    let mut index: usize = 0;
    while index < more.len()
        invariant
            index <= more@.len(),
            target@ == before + more@.subrange(0, index as int),
        decreases more@.len() - index,
    {
        target.push(more[index]);
        proof {
            assert(more@.subrange(0, index + 1) =~= more@.subrange(0, index as int).push(more@[index as int]));
            assert(target@ =~= before + more@.subrange(0, index + 1));
        }
        index += 1;
    }
    assert(more@.subrange(0, more@.len() as int) =~= more@);
}

/// The switches without repetitions.
pub fn deduplicate_switches(switches: &Vec<Span>) -> (result: Vec<Span>)
    ensures
        result@ == distinct(switches@),
{
    let mut kept: Vec<Span> = Vec::new();
    let mut index: usize = 0;
    while index < switches.len()
        invariant
            index <= switches@.len(),
            kept@ == distinct(switches@.subrange(0, index as int)),
        decreases switches@.len() - index,
    {
        proof {
            assert(switches@.subrange(0, index + 1).drop_last() =~= switches@.subrange(0, index as int));
        }
        if !holds_span(&kept, switches[index]) {
            kept.push(switches[index]);
        }
        index += 1;
    }
    assert(switches@.subrange(0, switches@.len() as int) =~= switches@);
    kept
}

pub fn holds_span(spans: &Vec<Span>, wanted: Span) -> (result: bool)
    ensures
        result == spans@.contains(wanted),
{
    let mut index: usize = 0;
    while index < spans.len()
        invariant
            index <= spans@.len(),
            forall|i: int| 0 <= i < index ==> #[trigger] spans@[i] != wanted,
        decreases spans@.len() - index,
    {
        if spans[index] == wanted {
            return true;
        }
        index += 1;
    }
    false
}

} // verus!
