//! Diagnostics, their rendering, and the bounded collections that stages report into.

use crate::source::{DiagnosticExcerpt, ExcerptView, SourceFile, Span, excerpt};
use crate::text::{Message, decimal, push_decimal, push_repeated, repeated};
use vstd::prelude::*;
use vstd::string::*;

verus! {

pub const MAX_SOURCE_ERRORS: usize = 20;

pub const MAX_SOURCE_WARNINGS: usize = 20;

#[derive(Clone, Copy, Debug, Eq, PartialEq, Structural)]
pub enum DiagnosticKind {
    Usage,
    Input,
    Source,
    SourceWarning,
    Compiler,
    Program,
}

/// What a rendered diagnostic calls its kind.
pub open spec fn category(kind: DiagnosticKind) -> Seq<char> {
    match kind {
        DiagnosticKind::Usage => "usage error"@,
        DiagnosticKind::Input => "input error"@,
        DiagnosticKind::Source => "source error"@,
        DiagnosticKind::SourceWarning => "source warning"@,
        DiagnosticKind::Compiler => "compiler error"@,
        DiagnosticKind::Program => "program error"@,
    }
}

/// The process status that a diagnostic of the given kind ends with.
pub open spec fn status(kind: DiagnosticKind) -> i32 {
    match kind {
        DiagnosticKind::Usage => 2,
        DiagnosticKind::SourceWarning => 0,
        _ => 1,
    }
}

/// A source location with everything that is needed to show it.
#[derive(Debug, Eq, PartialEq)]
struct SourceAnnotation {
    path: String,
    span: Span,
    line: usize,
    column: usize,
    source_line: String,
    caret_offset: usize,
    caret_width: usize,
    label: Option<String>,
}

/// The contents of a source annotation.
#[verifier::ext_equal]
pub struct AnnotationView {
    pub path: Seq<char>,
    pub span: Span,
    pub excerpt: ExcerptView,
    pub label: Option<Seq<char>>,
}

/// The annotation of `span` in the given source.
pub open spec fn annotation(source: &SourceFile, span: Span, label: Option<Seq<char>>) -> AnnotationView {
    AnnotationView { path: source.path@, span: span.bare(), excerpt: excerpt(source.bytes(), span), label }
}

impl SourceAnnotation {
    spec fn view(&self) -> AnnotationView {
        AnnotationView {
            path: self.path@,
            span: self.span,
            excerpt: ExcerptView {
                line: self.line as nat,
                column: self.column as nat,
                source_line: self.source_line@,
                caret_offset: self.caret_offset as nat,
                caret_width: self.caret_width as nat,
            },
            label: match self.label {
                Some(label) => Some(label@),
                None => None,
            },
        }
    }

    fn new(path: String, span: Span, excerpt: DiagnosticExcerpt, label: Option<String>) -> (result: Self)
        ensures
            result@ == (AnnotationView {
                path: path@,
                span: span.bare(),
                excerpt: excerpt@,
                label: match label {
                    Some(label) => Some(label@),
                    None => None,
                },
            }),
    {
        Self {
            path,
            span: Span::new(span.start, span.end),
            line: excerpt.line,
            column: excerpt.column,
            source_line: excerpt.source_line,
            caret_offset: excerpt.caret_offset,
            caret_width: excerpt.caret_width,
            label,
        }
    }
}

/// A message for the person who runs the compiler, with the source that it is about.
#[derive(Debug, Eq, PartialEq)]
pub struct Diagnostic {
    kind: DiagnosticKind,
    message: String,
    primary: Option<SourceAnnotation>,
    related: Vec<SourceAnnotation>,
}

/// The contents of a diagnostic.
#[verifier::ext_equal]
pub struct DiagnosticView {
    pub kind: DiagnosticKind,
    pub message: Seq<char>,
    pub primary: Option<AnnotationView>,
    pub related: Seq<AnnotationView>,
}

/// A diagnostic without source locations.
pub open spec fn plain(kind: DiagnosticKind, message: Seq<char>) -> DiagnosticView {
    DiagnosticView { kind, message, primary: None, related: seq![] }
}

/// A diagnostic of the given kind at a span.
pub open spec fn located(kind: DiagnosticKind, source: &SourceFile, span: Span, message: Seq<char>) -> DiagnosticView {
    DiagnosticView { kind, message, primary: Some(annotation(source, span, None)), related: seq![] }
}

/// A source error at a span.
pub open spec fn source_error(source: &SourceFile, span: Span, message: Seq<char>) -> DiagnosticView {
    located(DiagnosticKind::Source, source, span, message)
}

/// A compiler error without a source location.
pub open spec fn compiler_error(message: Seq<char>) -> DiagnosticView {
    plain(DiagnosticKind::Compiler, message)
}

/// `path:line:column`.
pub open spec fn rendered_location(at: AnnotationView) -> Seq<char> {
    at.path + ":"@ + decimal(at.excerpt.line) + ":"@ + decimal(at.excerpt.column)
}

/// The three lines that show a source line with carets under it; the last is not ended.
pub open spec fn rendered_excerpt(at: ExcerptView) -> Seq<char> {
    let gutter = repeated(' ', decimal(at.line).len());
    gutter + " |\n"@ + decimal(at.line) + " | "@ + at.source_line + "\n"@ + gutter + " | "@ + repeated(
        ' ',
        at.caret_offset,
    ) + repeated('^', at.caret_width)
}

/// One related location as it follows the primary one.
pub open spec fn rendered_related(at: AnnotationView) -> Seq<char> {
    "\n  = related: "@ + rendered_location(at) + (match at.label {
        Some(label) => ": "@ + label,
        None => seq![],
    }) + "\n"@ + rendered_excerpt(at.excerpt)
}

/// The first `count` related locations.
pub open spec fn rendered_relations(all: Seq<AnnotationView>, count: nat) -> Seq<char>
    decreases count,
{
    if count == 0 {
        seq![]
    } else {
        rendered_relations(all, (count - 1) as nat) + rendered_related(all[count - 1])
    }
}

/// A diagnostic as it is shown.
pub open spec fn rendered(diagnostic: DiagnosticView) -> Seq<char> {
    "sao2: "@ + category(diagnostic.kind) + ": "@ + (match diagnostic.primary {
        Some(primary) => rendered_location(primary) + ": "@ + diagnostic.message + "\n"@ + rendered_excerpt(
            primary.excerpt,
        ) + rendered_relations(diagnostic.related, diagnostic.related.len()),
        None => diagnostic.message,
    })
}

impl Diagnostic {
    pub closed spec fn view(&self) -> DiagnosticView {
        DiagnosticView {
            kind: self.kind,
            message: self.message@,
            primary: match self.primary {
                Some(primary) => Some(primary@),
                None => None,
            },
            related: self.related@.map_values(|annotation: SourceAnnotation| annotation@),
        }
    }

    pub fn usage(message: impl Message) -> (result: Self)
        ensures
            result@ == plain(DiagnosticKind::Usage, message.text()),
    {
        Self::new(DiagnosticKind::Usage, message.into_text())
    }

    pub fn input(message: impl Message) -> (result: Self)
        ensures
            result@ == plain(DiagnosticKind::Input, message.text()),
    {
        Self::new(DiagnosticKind::Input, message.into_text())
    }

    pub fn compiler(message: impl Message) -> (result: Self)
        ensures
            result@ == plain(DiagnosticKind::Compiler, message.text()),
    {
        Self::new(DiagnosticKind::Compiler, message.into_text())
    }

    pub fn program(message: impl Message) -> (result: Self)
        ensures
            result@ == plain(DiagnosticKind::Program, message.text()),
    {
        Self::new(DiagnosticKind::Program, message.into_text())
    }

    pub fn source(source: &SourceFile, span: Span, message: impl Message) -> (result: Self)
        requires
            source.wf(),
        ensures
            result@ == source_error(source, span, message.text()),
    {
        Self::source_with_kind(source, span, DiagnosticKind::Source, message.into_text())
    }

    pub fn source_warning(source: &SourceFile, span: Span, message: impl Message) -> (result: Self)
        requires
            source.wf(),
        ensures
            result@ == located(DiagnosticKind::SourceWarning, source, span, message.text()),
    {
        Self::source_with_kind(source, span, DiagnosticKind::SourceWarning, message.into_text())
    }

    fn source_with_kind(source: &SourceFile, span: Span, kind: DiagnosticKind, message: String) -> (result: Self)
        requires
            source.wf(),
        ensures
            result@ == located(kind, source, span, message@),
    {
        let excerpt = source.diagnostic_excerpt(span);
        let result = Self {
            kind,
            message,
            primary: Some(SourceAnnotation::new(source.path.clone(), span, excerpt, None)),
            related: Vec::new(),
        };
        assert(result@ =~= located(kind, source, span, message@));
        result
    }

    fn new(kind: DiagnosticKind, message: String) -> (result: Self)
        ensures
            result@ == plain(kind, message@),
    {
        let result = Self { kind, message, primary: None, related: Vec::new() };
        assert(result@ =~= plain(kind, message@));
        result
    }

    /// Adds a source excerpt which explains or identifies the primary error.
    ///
    /// Related annotations are meaningful only for source diagnostics.
    pub fn related(self, source: &SourceFile, span: Span, label: impl Message) -> (result: Self)
        requires
            source.wf(),
            self@.kind == DiagnosticKind::Source || self@.kind == DiagnosticKind::SourceWarning,
            self@.primary is Some,
        ensures
            result@ == (DiagnosticView {
                related: self@.related.push(annotation(source, span, Some(label.text()))),
                ..self@
            }),
    {
        let excerpt = source.diagnostic_excerpt(span);
        let mut related = self.related;
        related.push(SourceAnnotation::new(source.path.clone(), span, excerpt, Some(label.into_text())));
        let result = Self { kind: self.kind, message: self.message, primary: self.primary, related };
        assert(result@.related =~= self@.related.push(annotation(source, span, Some(label.text()))));
        result
    }

    /// Alias for [`Diagnostic::related`] with a construction-oriented name.
    pub fn with_related(self, source: &SourceFile, span: Span, label: impl Message) -> (result: Self)
        requires
            source.wf(),
            self@.kind == DiagnosticKind::Source || self@.kind == DiagnosticKind::SourceWarning,
            self@.primary is Some,
        ensures
            result@ == (DiagnosticView {
                related: self@.related.push(annotation(source, span, Some(label.text()))),
                ..self@
            }),
    {
        self.related(source, span, label)
    }

    pub fn primary_span(&self) -> (result: Option<Span>)
        ensures
            result == key(self@),
    {
        match &self.primary {
            Some(primary) => Some(primary.span),
            None => None,
        }
    }

    pub fn exit_code(&self) -> (result: i32)
        ensures
            result == status(self@.kind),
    {
        match self.kind {
            DiagnosticKind::Usage => 2,
            DiagnosticKind::SourceWarning => 0,
            DiagnosticKind::Input
            | DiagnosticKind::Source
            | DiagnosticKind::Compiler
            | DiagnosticKind::Program => 1,
        }
    }

    /// The diagnostic as it is shown.
    pub fn to_string(&self) -> (result: String)
        ensures
            result@ == rendered(self@),
    {
        let category = match self.kind {
            DiagnosticKind::Usage => "usage error",
            DiagnosticKind::Input => "input error",
            DiagnosticKind::Source => "source error",
            DiagnosticKind::SourceWarning => "source warning",
            DiagnosticKind::Compiler => "compiler error",
            DiagnosticKind::Program => "program error",
        };
        let mut out = String::new();
        out.append("sao2: ");
        out.append(category);
        out.append(": ");
        match &self.primary {
            Some(primary) => {
                push_location(&mut out, primary);
                out.append(": ");
                out.append(self.message.as_str());
                out.append("\n");
                push_excerpt(&mut out, primary);
                let ghost start = out@;
                let ghost views = self@.related;
                let mut index: usize = 0;
                assert(out@ =~= start + rendered_relations(views, 0));
                while index < self.related.len()
                    invariant
                        index <= self.related@.len(),
                        views == self@.related,
                        out@ == start + rendered_relations(views, index as nat),
                    decreases self.related@.len() - index,
                {
                    push_related(&mut out, &self.related[index]);
                    index = index + 1;
                    assert(out@ =~= start + rendered_relations(views, index as nat));
                }
                assert(out@ =~= rendered(self@));
            },
            None => {
                out.append(self.message.as_str());
                assert(out@ =~= rendered(self@));
            },
        }
        out
    }
}

fn push_location(out: &mut String, at: &SourceAnnotation)
    ensures
        final(out)@ == old(out)@ + rendered_location(at@),
{
    let ghost start = out@;
    out.append(at.path.as_str());
    out.append(":");
    push_decimal(out, at.line);
    out.append(":");
    push_decimal(out, at.column);
    assert(out@ =~= start + rendered_location(at@));
}

fn push_related(out: &mut String, at: &SourceAnnotation)
    ensures
        final(out)@ == old(out)@ + rendered_related(at@),
{
    let ghost start = out@;
    out.append("\n  = related: ");
    push_location(out, at);
    match &at.label {
        Some(label) => {
            out.append(": ");
            out.append(label.as_str());
        },
        None => {},
    }
    out.append("\n");
    push_excerpt(out, at);
    assert(out@ =~= start + rendered_related(at@));
}

/// How many decimal digits a number has.
fn decimal_length(value: usize) -> (result: usize)
    ensures
        result == decimal(value as nat).len(),
        result <= value + 1,
    decreases value,
{
    if value < 10 {
        1
    } else {
        decimal_length(value / 10) + 1
    }
}

fn push_excerpt(out: &mut String, at: &SourceAnnotation)
    ensures
        final(out)@ == old(out)@ + rendered_excerpt(at@.excerpt),
{
    let ghost start = out@;
    let gutter_width = decimal_length(at.line);
    push_repeated(out, ' ', gutter_width);
    out.append(" |\n");
    push_decimal(out, at.line);
    out.append(" | ");
    out.append(at.source_line.as_str());
    out.append("\n");
    push_repeated(out, ' ', gutter_width);
    out.append(" | ");
    push_repeated(out, ' ', at.caret_offset);
    push_repeated(out, '^', at.caret_width);
    assert(out@ =~= start + rendered_excerpt(at@.excerpt));
}

/// What diagnostics are ordered by: the primary span, with diagnostics that have none first.
pub open spec fn key(diagnostic: DiagnosticView) -> Option<Span> {
    match diagnostic.primary {
        Some(primary) => Some(primary.span),
        None => None,
    }
}

/// Whether the first key does not come after the second.
pub open spec fn key_le(first: Option<Span>, second: Option<Span>) -> bool {
    match (first, second) {
        (None, _) => true,
        (Some(_), None) => false,
        (Some(a), Some(b)) => a.start < b.start || (a.start == b.start && a.end <= b.end),
    }
}

/// The sequence with `item` inserted behind every element that does not come after it.
pub open spec fn inserted(sorted: Seq<DiagnosticView>, item: DiagnosticView) -> Seq<DiagnosticView>
    decreases sorted.len(),
{
    if sorted.len() == 0 || key_le(key(sorted.last()), key(item)) {
        sorted.push(item)
    } else {
        inserted(sorted.drop_last(), item).push(sorted.last())
    }
}

/// The elements in source order; those with the same primary span keep their order.
pub open spec fn in_source_order(all: Seq<DiagnosticView>) -> Seq<DiagnosticView>
    decreases all.len(),
{
    if all.len() == 0 {
        seq![]
    } else {
        inserted(in_source_order(all.drop_last()), all.last())
    }
}

/// Whether no element comes before one that precedes it in the sequence.
pub open spec fn source_ordered(all: Seq<DiagnosticView>) -> bool {
    forall|i: int, j: int|
        0 <= i <= j < all.len() ==> key_le(key(#[trigger] all[i]), key(#[trigger] all[j]))
}

/// The elements that have the given primary span, in order.
pub open spec fn with_key(all: Seq<DiagnosticView>, wanted: Option<Span>) -> Seq<DiagnosticView>
    decreases all.len(),
{
    if all.len() == 0 {
        seq![]
    } else if key(all.last()) == wanted {
        with_key(all.drop_last(), wanted).push(all.last())
    } else {
        with_key(all.drop_last(), wanted)
    }
}

proof fn lemma_inserted_items(sorted: Seq<DiagnosticView>, item: DiagnosticView)
    ensures
        inserted(sorted, item).len() == sorted.len() + 1,
        inserted(sorted, item).to_multiset() == sorted.to_multiset().insert(item),
    decreases sorted.len(),
{
    broadcast use vstd::seq_lib::group_to_multiset_ensures;

    if sorted.len() > 0 && !key_le(key(sorted.last()), key(item)) {
        let rest = sorted.drop_last();
        lemma_inserted_items(rest, item);
        assert(rest.push(sorted.last()) =~= sorted);
        assert(inserted(sorted, item).to_multiset() =~= sorted.to_multiset().insert(item));
    }
}

proof fn lemma_inserted_below(sorted: Seq<DiagnosticView>, item: DiagnosticView, bound: Option<Span>)
    requires
        forall|i: int| 0 <= i < sorted.len() ==> key_le(key(#[trigger] sorted[i]), bound),
        key_le(key(item), bound),
    ensures
        forall|i: int| 0 <= i <= sorted.len() ==> key_le(key(#[trigger] inserted(sorted, item)[i]), bound),
    decreases sorted.len(),
{
    lemma_inserted_items(sorted, item);
    if sorted.len() > 0 && !key_le(key(sorted.last()), key(item)) {
        let rest = sorted.drop_last();
        assert(forall|i: int| 0 <= i < rest.len() ==> rest[i] == sorted[i]);
        lemma_inserted_below(rest, item, bound);
        lemma_inserted_items(rest, item);
    }
}

proof fn lemma_inserted_ordered(sorted: Seq<DiagnosticView>, item: DiagnosticView)
    requires
        source_ordered(sorted),
    ensures
        source_ordered(inserted(sorted, item)),
    decreases sorted.len(),
{
    if sorted.len() == 0 {
    } else if key_le(key(sorted.last()), key(item)) {
        assert forall|i: int| 0 <= i < sorted.len() implies key_le(key(#[trigger] sorted[i]), key(item)) by {
            assert(key_le(key(sorted[i]), key(sorted[sorted.len() - 1])));
        }
    } else {
        let rest = sorted.drop_last();
        let last = sorted.last();
        assert forall|i: int| 0 <= i < rest.len() implies key_le(key(#[trigger] rest[i]), key(last)) by {
            assert(key_le(key(sorted[i]), key(sorted[sorted.len() - 1])));
        }
        lemma_inserted_ordered(rest, item);
        lemma_inserted_items(rest, item);
        lemma_inserted_below(rest, item, key(last));
    }
}

proof fn lemma_inserted_stable(sorted: Seq<DiagnosticView>, item: DiagnosticView, wanted: Option<Span>)
    ensures
        with_key(inserted(sorted, item), wanted) == (if key(item) == wanted {
            with_key(sorted, wanted).push(item)
        } else {
            with_key(sorted, wanted)
        }),
    decreases sorted.len(),
{
    if sorted.len() == 0 || key_le(key(sorted.last()), key(item)) {
        assert(sorted.push(item).drop_last() =~= sorted);
    } else {
        let rest = sorted.drop_last();
        lemma_inserted_stable(rest, item, wanted);
        assert(inserted(rest, item).push(sorted.last()).drop_last() =~= inserted(rest, item));
    }
}

/// Putting diagnostics in source order loses and invents none, orders them by primary span, and
/// keeps the order of those that have the same one.
pub proof fn law_in_source_order(all: Seq<DiagnosticView>)
    ensures
        source_ordered(in_source_order(all)),
        in_source_order(all).len() == all.len(),
        in_source_order(all).to_multiset() == all.to_multiset(),
        forall|wanted: Option<Span>|
            #[trigger] with_key(in_source_order(all), wanted) == with_key(all, wanted),
    decreases all.len(),
{
    broadcast use vstd::seq_lib::group_to_multiset_ensures;

    if all.len() > 0 {
        let rest = all.drop_last();
        law_in_source_order(rest);
        lemma_inserted_items(in_source_order(rest), all.last());
        lemma_inserted_ordered(in_source_order(rest), all.last());
        assert(rest.push(all.last()) =~= all);
        assert forall|wanted: Option<Span>|
            #[trigger] with_key(in_source_order(all), wanted) == with_key(all, wanted) by {
            lemma_inserted_stable(in_source_order(rest), all.last(), wanted);
            assert(with_key(in_source_order(rest), wanted) == with_key(rest, wanted));
        }
    } else {
        assert(in_source_order(all) =~= all);
    }
}

/// The contents of a sequence of diagnostics.
pub open spec fn views(all: Seq<Diagnostic>) -> Seq<DiagnosticView> {
    all.map_values(|diagnostic: Diagnostic| diagnostic@)
}

/// The contents of a sequence of borrowed diagnostics.
spec fn ref_views(all: Seq<&Diagnostic>) -> Seq<DiagnosticView> {
    all.map_values(|diagnostic: &Diagnostic| diagnostic@)
}

/// Where to insert is behind the last element that does not come after the new one.
proof fn lemma_insertion_point(sorted: Seq<DiagnosticView>, item: DiagnosticView, index: int)
    requires
        0 <= index <= sorted.len(),
        forall|i: int| index <= i < sorted.len() ==> !key_le(key(#[trigger] sorted[i]), key(item)),
        index > 0 ==> key_le(key(sorted[index - 1]), key(item)),
    ensures
        sorted.insert(index, item) == inserted(sorted, item),
    decreases sorted.len(),
{
    if index == sorted.len() {
        assert(sorted.insert(index, item) =~= sorted.push(item));
    } else {
        let rest = sorted.drop_last();
        assert(forall|i: int| 0 <= i < rest.len() ==> rest[i] == sorted[i]);
        lemma_insertion_point(rest, item, index);
        assert(sorted.insert(index, item) =~= rest.insert(index, item).push(sorted.last()));
    }
}

fn span_key_le(first: Option<Span>, second: Option<Span>) -> (result: bool)
    ensures
        result == key_le(first, second),
{
    match (first, second) {
        (None, _) => true,
        (Some(_), None) => false,
        (Some(a), Some(b)) => a.start < b.start || (a.start == b.start && a.end <= b.end),
    }
}

/// Inserts a diagnostic behind every one that does not come after it.
fn insert_in_order(sorted: &mut Vec<Diagnostic>, item: Diagnostic)
    ensures
        views(final(sorted)@) == inserted(views(old(sorted)@), item@),
{
    let ghost before = views(sorted@);
    let item_key = item.primary_span();
    let mut index: usize = sorted.len();
    while index > 0 && !span_key_le(sorted[index - 1].primary_span(), item_key)
        invariant
            index <= sorted@.len(),
            item_key == key(item@),
            before == views(sorted@),
            forall|i: int| index <= i < before.len() ==> !key_le(key(#[trigger] before[i]), key(item@)),
        decreases index,
    {
        index = index - 1;
    }
    proof {
        lemma_insertion_point(before, item@, index as int);
    }
    sorted.insert(index, item);
    assert(views(sorted@) =~= before.insert(index as int, item@));
}

/// The diagnostics in source order.
fn sort_in_order(entries: Vec<Diagnostic>) -> (result: Vec<Diagnostic>)
    ensures
        views(result@) == in_source_order(views(entries@)),
{
    let ghost all = views(entries@);
    let mut rest = entries;
    let mut sorted: Vec<Diagnostic> = Vec::new();
    let ghost mut done: int = 0;
    proof {
        assert(all.take(0) =~= seq![]);
        assert(views(sorted@) =~= seq![]);
        assert(all.skip(0) =~= all);
    }
    while rest.len() > 0
        invariant
            0 <= done <= all.len(),
            views(rest@) == all.skip(done),
            views(sorted@) == in_source_order(all.take(done)),
        decreases rest@.len(),
    {
        let ghost remaining = views(rest@);
        let item = rest.remove(0);
        proof {
            assert(item@ == remaining[0]);
            assert(views(rest@) =~= remaining.skip(1));
            assert(all.take(done + 1).drop_last() =~= all.take(done));
            assert(all.skip(done).skip(1) =~= all.skip(done + 1));
            done = done + 1;
        }
        insert_in_order(&mut sorted, item);
    }
    assert(all.take(done) =~= all);
    sorted
}

/// Several diagnostics as they are shown, one below the other.
pub open spec fn rendered_all(all: Seq<DiagnosticView>) -> Seq<char>
    decreases all.len(),
{
    if all.len() == 0 {
        seq![]
    } else if all.len() == 1 {
        rendered(all[0])
    } else {
        rendered_all(all.drop_last()) + "\n"@ + rendered(all.last())
    }
}

/// Shows the diagnostics in source order.
fn render_in_order(entries: &Vec<Diagnostic>) -> (result: String)
    ensures
        result@ == rendered_all(in_source_order(views(entries@))),
{
    let ghost all = views(entries@);
    let mut order: Vec<&Diagnostic> = Vec::new();
    let mut next: usize = 0;
    proof {
        assert(all.take(0) =~= seq![]);
        assert(ref_views(order@) =~= seq![]);
    }
    while next < entries.len()
        invariant
            next <= entries@.len(),
            all == views(entries@),
            ref_views(order@) == in_source_order(all.take(next as int)),
        decreases entries@.len() - next,
    {
        let ghost before = ref_views(order@);
        let item = &entries[next];
        let item_key = item.primary_span();
        let mut index: usize = order.len();
        while index > 0 && !span_key_le(order[index - 1].primary_span(), item_key)
            invariant
                index <= order@.len(),
                item_key == key(item@),
                before == ref_views(order@),
                forall|i: int| index <= i < before.len() ==> !key_le(key(#[trigger] before[i]), key(item@)),
            decreases index,
        {
            index = index - 1;
        }
        proof {
            lemma_insertion_point(before, item@, index as int);
        }
        order.insert(index, item);
        proof {
            assert(ref_views(order@) =~= before.insert(index as int, item@));
            assert(all.take(next + 1).drop_last() =~= all.take(next as int));
        }
        next = next + 1;
    }
    assert(all.take(next as int) =~= all);
    let ghost shown = ref_views(order@);
    let mut out = String::new();
    let mut index: usize = 0;
    proof {
        assert(shown.take(0) =~= seq![]);
    }
    while index < order.len()
        invariant
            index <= order@.len(),
            shown == ref_views(order@),
            out@ == rendered_all(shown.take(index as int)),
        decreases order@.len() - index,
    {
        let ghost start = out@;
        if index > 0 {
            out.append("\n");
        }
        let one = order[index].to_string();
        out.append(one.as_str());
        proof {
            let longer = shown.take(index + 1);
            assert(longer.drop_last() =~= shown.take(index as int));
            assert(longer.last() == order@[index as int]@);
            if index == 0 {
                assert(out@ =~= rendered(longer[0]));
            } else {
                assert(out@ =~= rendered_all(longer.drop_last()) + "\n"@ + rendered(longer.last()));
            }
        }
        index = index + 1;
    }
    assert(shown.take(index as int) =~= shown);
    out
}

/// A bounded collection used by recovering frontend stages.
#[derive(Debug, Default, Eq, PartialEq)]
pub struct Diagnostics {
    entries: Vec<Diagnostic>,
}

impl Diagnostics {
    /// The diagnostics that were kept, in the order in which they came.
    pub closed spec fn view(&self) -> Seq<DiagnosticView> {
        views(self.entries@)
    }

    /// The bound holds.
    pub closed spec fn wf(&self) -> bool {
        self.entries@.len() <= MAX_SOURCE_ERRORS
    }

    /// A well-formed collection never holds more than the limit.
    pub broadcast proof fn lemma_bounded(&self)
        requires
            #[trigger] self.wf(),
        ensures
            self@.len() <= MAX_SOURCE_ERRORS,
    {
    }

    pub fn new() -> (result: Self)
        ensures
            result.wf(),
            result@ == Seq::<DiagnosticView>::empty(),
    {
        let result = Self { entries: Vec::new() };
        assert(result@ =~= seq![]);
        result
    }

    /// Keeps the diagnostic unless the collection is full.
    pub fn push(&mut self, diagnostic: Diagnostic)
        ensures
            old(self).wf() ==> final(self).wf(),
            final(self)@ == reported(old(self)@, diagnostic@, MAX_SOURCE_ERRORS as nat),
    {
        if self.entries.len() < MAX_SOURCE_ERRORS {
            let ghost before = self@;
            self.entries.push(diagnostic);
            assert(self@ =~= before.push(diagnostic@));
        }
    }

    pub fn is_full(&self) -> (result: bool)
        ensures
            result == (self@.len() == MAX_SOURCE_ERRORS),
    {
        self.entries.len() == MAX_SOURCE_ERRORS
    }

    pub fn len(&self) -> (result: usize)
        ensures
            result == self@.len(),
    {
        self.entries.len()
    }

    /// Drops the diagnostics behind the first `len`.
    pub fn truncate(&mut self, len: usize)
        ensures
            old(self).wf() ==> final(self).wf(),
            final(self)@ == (if len < old(self)@.len() {
                old(self)@.take(len as int)
            } else {
                old(self)@
            }),
    {
        let ghost before = self@;
        self.entries.truncate(len);
        assert(self@ =~= (if len < before.len() {
            before.take(len as int)
        } else {
            before
        }));
    }

    pub fn is_empty(&self) -> (result: bool)
        ensures
            result == (self@.len() == 0),
    {
        self.entries.len() == 0
    }

    /// The diagnostics in source order.
    pub fn into_sorted(self) -> (result: Vec<Diagnostic>)
        ensures
            views(result@) == in_source_order(self@),
    {
        sort_in_order(self.entries)
    }

    /// The diagnostics in source order, one below the other.
    pub fn to_string(&self) -> (result: String)
        ensures
            result@ == rendered_all(in_source_order(self@)),
    {
        render_in_order(&self.entries)
    }
}

/// What a collection with the given limit holds after one more report.
pub open spec fn reported(entries: Seq<DiagnosticView>, diagnostic: DiagnosticView, limit: nat) -> Seq<
    DiagnosticView,
> {
    if entries.len() < limit {
        entries.push(diagnostic)
    } else {
        entries
    }
}

/// A source-ordered warning collection with a limit independent of errors.
#[derive(Debug, Default, Eq, PartialEq)]
pub struct Warnings {
    entries: Vec<Diagnostic>,
}

impl Warnings {
    /// The warnings that were kept, in the order in which they came.
    pub closed spec fn view(&self) -> Seq<DiagnosticView> {
        views(self.entries@)
    }

    /// The bound holds.
    pub closed spec fn wf(&self) -> bool {
        self.entries@.len() <= MAX_SOURCE_WARNINGS
    }

    /// A well-formed collection never holds more than the limit.
    pub broadcast proof fn lemma_bounded(&self)
        requires
            #[trigger] self.wf(),
        ensures
            self@.len() <= MAX_SOURCE_WARNINGS,
    {
    }

    pub fn new() -> (result: Self)
        ensures
            result.wf(),
            result@ == Seq::<DiagnosticView>::empty(),
    {
        let result = Self { entries: Vec::new() };
        assert(result@ =~= seq![]);
        result
    }

    /// Keeps the warning unless the collection is full.
    pub fn push(&mut self, warning: Diagnostic)
        ensures
            old(self).wf() ==> final(self).wf(),
            final(self)@ == reported(old(self)@, warning@, MAX_SOURCE_WARNINGS as nat),
    {
        if self.entries.len() < MAX_SOURCE_WARNINGS {
            let ghost before = self@;
            self.entries.push(warning);
            assert(self@ =~= before.push(warning@));
        }
    }

    pub fn is_full(&self) -> (result: bool)
        ensures
            result == (self@.len() == MAX_SOURCE_WARNINGS),
    {
        self.entries.len() == MAX_SOURCE_WARNINGS
    }

    pub fn len(&self) -> (result: usize)
        ensures
            result == self@.len(),
    {
        self.entries.len()
    }

    pub fn is_empty(&self) -> (result: bool)
        ensures
            result == (self@.len() == 0),
    {
        self.entries.len() == 0
    }

    /// The warnings in source order.
    pub fn into_sorted(self) -> (result: Vec<Diagnostic>)
        ensures
            views(result@) == in_source_order(self@),
    {
        sort_in_order(self.entries)
    }

    /// The warnings in source order, one below the other.
    pub fn to_string(&self) -> (result: String)
        ensures
            result@ == rendered_all(in_source_order(self@)),
    {
        render_in_order(&self.entries)
    }
}

} // verus!
