//! The state of lowering, and the steps by which a function body grows.

use crate::analysis::{self, Analysis, BindingId, TypeId as SourceType};
use crate::ir::{
    AlternativeId, BlockId, ByteSpan, FailureOperation, FailureSite, FailureSiteId, Function, FunctionId, Local,
    LocalId, LocalOrigin, LocationId, Operand, OperandView, OperationKind, Place, Program, Projection,
    SourceMetadata, TerminatorKind, TypeId, type_views,
};
use crate::lowering::model::{
    BlockView, Context, LoopView, Narrowing, Outcome, State, TestView, block_view, block_views, declare,
    definition_views, emit, fail, finish, local_view, local_views, locate, mapped, open_block, operation_view,
    operation_views, seal, temporary, terminator_view,
};
use crate::semantic::SemanticResult;
use crate::source::Span;
use vstd::prelude::*;

verus! {

/// A loop that is being lowered.
#[derive(Debug)]
pub struct LoopContext {
    pub source: Span,
    pub continue_target: BlockId,
    pub break_target: BlockId,
    pub cleanup: Option<Operand>,
}

impl LoopContext {
    pub open spec fn view(&self) -> LoopView {
        LoopView {
            source: self.source,
            continue_target: self.continue_target,
            break_target: self.break_target,
            cleanup: match self.cleanup {
                Some(operand) => Some(operand@),
                None => None,
            },
        }
    }
}

/// A union test that has been lowered.
#[derive(Debug)]
pub struct LoweredTest {
    pub expression: Span,
    pub binding: Option<BindingId>,
    pub union: Operand,
    pub alternative: AlternativeId,
    pub payload: SourceType,
}

impl LoweredTest {
    pub open spec fn view(&self) -> TestView {
        TestView {
            expression: self.expression,
            binding: self.binding,
            union: self.union@,
            alternative: self.alternative,
            payload: self.payload,
        }
    }
}

pub open spec fn loop_views(loops: Seq<LoopContext>) -> Seq<LoopView> {
    Seq::new(loops.len(), |i: int| loops[i]@)
}

pub open spec fn test_views(tests: Seq<LoweredTest>) -> Seq<TestView> {
    Seq::new(tests.len(), |i: int| tests[i]@)
}

/// The contents of an operand that may be missing.
pub open spec fn optional_view(operand: Option<Operand>) -> Option<OperandView> {
    match operand {
        Some(operand) => Some(operand@),
        None => None,
    }
}

/// The parts of a program and of the current function that lowering a body leaves alone.
pub struct Frame {
    pub source: SourceMetadata,
    pub types: Vec<crate::ir::Type>,
    pub definitions: Vec<crate::ir::NominalDefinition>,
    pub functions: Vec<Function>,
    pub entry: Option<FunctionId>,
    pub mapped: Vec<Option<TypeId>>,
    pub name: String,
    pub result: TypeId,
    pub start: Option<BlockId>,
}

#[derive(Debug)]
pub struct Builder<'a> {
    pub analysis: &'a Analysis<'a>,
    pub semantic: &'a SemanticResult,
    pub program: Program,
    pub types: Vec<Option<TypeId>>,
    pub function_id: analysis::FunctionId,
    pub function: Function,
    pub block: Option<BlockId>,
    pub bindings: Vec<Option<LocalId>>,
    pub loops: Vec<LoopContext>,
    pub narrowings: Vec<Narrowing>,
    pub lowered_tests: Vec<LoweredTest>,
}

impl Operand {
    /// Another operand with the same contents.
    pub fn duplicate(&self) -> (result: Operand)
        ensures
            result@ == self@,
    {
        match self {
            Operand::Constant(constant) => Operand::Constant(
                crate::ir::Constant { ty: constant.ty, value: constant.value.duplicate() },
            ),
            Operand::Copy(place) => Operand::Copy(place.duplicate()),
        }
    }
}

impl Place {
    /// Another place with the same contents.
    pub fn duplicate(&self) -> (result: Place)
        ensures
            result@ == self@,
    {
        let mut projections: Vec<Projection> = Vec::new();
        let mut index: usize = 0;
        while index < self.projections.len()
            invariant
                index <= self.projections@.len(),
                projections@ == self.projections@.subrange(0, index as int),
            decreases self.projections@.len() - index,
        {
            projections.push(self.projections[index]);
            proof {
                assert(self.projections@.subrange(0, index + 1) =~= self.projections@.subrange(0, index as int).push(
                    self.projections@[index as int],
                ));
            }
            index += 1;
        }
        assert(projections@ =~= self.projections@);
        Place { local: self.local, projections }
    }
}

impl crate::ir::ConstantValue {
    /// Another value with the same contents.
    pub fn duplicate(&self) -> (result: Self)
        ensures
            result@ == self@,
    {
        match self {
            crate::ir::ConstantValue::Unit => crate::ir::ConstantValue::Unit,
            crate::ir::ConstantValue::Integer(value) => crate::ir::ConstantValue::Integer(*value),
            crate::ir::ConstantValue::Float(bits) => crate::ir::ConstantValue::Float(*bits),
            crate::ir::ConstantValue::String(bytes) => crate::ir::ConstantValue::String(copy_bytes(bytes)),
            crate::ir::ConstantValue::Character(byte) => crate::ir::ConstantValue::Character(*byte),
            crate::ir::ConstantValue::Boolean(value) => crate::ir::ConstantValue::Boolean(*value),
        }
    }
}

pub fn copy_bytes(bytes: &Vec<u8>) -> (result: Vec<u8>)
    ensures
        result@ == bytes@,
{
    let mut copy: Vec<u8> = Vec::new();
    let mut index: usize = 0;
    while index < bytes.len()
        invariant
            index <= bytes@.len(),
            copy@ == bytes@.subrange(0, index as int),
        decreases bytes@.len() - index,
    {
        copy.push(bytes[index]);
        proof {
            assert(bytes@.subrange(0, index + 1) =~= bytes@.subrange(0, index as int).push(bytes@[index as int]));
        }
        index += 1;
    }
    assert(copy@ =~= bytes@);
    copy
}

pub fn copy_narrowings(narrowings: &Vec<Narrowing>) -> (result: Vec<Narrowing>)
    ensures
        result@ == narrowings@,
{
    let mut copy: Vec<Narrowing> = Vec::new();
    let mut index: usize = 0;
    while index < narrowings.len()
        invariant
            index <= narrowings@.len(),
            copy@ == narrowings@.subrange(0, index as int),
        decreases narrowings@.len() - index,
    {
        copy.push(narrowings[index]);
        proof {
            assert(narrowings@.subrange(0, index + 1) =~= narrowings@.subrange(0, index as int).push(
                narrowings@[index as int],
            ));
        }
        index += 1;
    }
    assert(copy@ =~= narrowings@);
    copy
}

impl<'a> Builder<'a> {
    pub open spec fn view(&self) -> State {
        State {
            locations: self.program.locations@,
            failure_sites: self.program.failure_sites@,
            parameters: self.function.parameters@,
            locals: local_views(self.function.locals@),
            blocks: block_views(self.function.blocks@),
            block: self.block,
            bindings: self.bindings@,
            loops: loop_views(self.loops@),
            narrowings: self.narrowings@,
            tests: test_views(self.lowered_tests@),
        }
    }

    pub open spec fn context(&self) -> Context<'a> {
        Context {
            analysis: self.analysis,
            semantic: self.semantic,
            types: self.types@,
            program_types: type_views(self.program.types@),
            definitions: definition_views(self.program.definitions@),
            function: self.function_id,
        }
    }

    pub open spec fn frame(&self) -> Frame {
        Frame {
            source: self.program.source,
            types: self.program.types,
            definitions: self.program.definitions,
            functions: self.program.functions,
            entry: self.program.entry,
            mapped: self.types,
            name: self.function.name,
            result: self.function.result,
            start: self.function.entry,
        }
    }

    /// Another state of lowering the same function.
    pub open spec fn continues(&self, before: &Self) -> bool {
        &&& self.analysis == before.analysis
        &&& self.semantic == before.semantic
        &&& self.function_id == before.function_id
        &&& self.frame() == before.frame()
    }

    /// The source can be pointed into.
    pub open spec fn ready(&self) -> bool {
        self.analysis.source.wf()
    }

    /// What a step without a value left behind.
    pub open spec fn did(&self, before: &Self, result: Result<(), &'static str>, expected: Outcome<()>) -> bool {
        &&& self.continues(before)
        &&& match expected {
            Ok((state, _)) => result is Ok && self@ == state,
            Err(fault) => result == Err::<(), &'static str>(fault),
        }
    }

    /// What a step with a plain value left behind.
    pub open spec fn gave<T>(&self, before: &Self, result: Result<T, &'static str>, expected: Outcome<T>) -> bool {
        &&& self.continues(before)
        &&& match expected {
            Ok((state, value)) => result == Ok::<T, &'static str>(value) && self@ == state,
            Err(fault) => result == Err::<T, &'static str>(fault),
        }
    }

    /// What a step with an operand left behind.
    pub open spec fn yields(
        &self,
        before: &Self,
        result: Result<Operand, &'static str>,
        expected: Outcome<OperandView>,
    ) -> bool {
        &&& self.continues(before)
        &&& match expected {
            Ok((state, value)) => result is Ok && result->Ok_0@ == value && self@ == state,
            Err(fault) => result == Err::<Operand, &'static str>(fault),
        }
    }

    /// What a step with an operand or none left behind.
    pub open spec fn ends(
        &self,
        before: &Self,
        result: Result<Option<Operand>, &'static str>,
        expected: Outcome<Option<OperandView>>,
    ) -> bool {
        &&& self.continues(before)
        &&& match expected {
            Ok((state, value)) => result is Ok && optional_view(result->Ok_0) == value && self@ == state,
            Err(fault) => result == Err::<Option<Operand>, &'static str>(fault),
        }
    }

    pub fn location(&mut self, span: Span) -> (result: LocationId)
        ensures
            final(self).continues(old(self)),
            (final(self)@, result) == locate(old(self)@, span),
    {
        proof {
            reveal(locate);
        }
        let ghost before = *self;
        let result = self.program.intern_location(ByteSpan::new(span.start, span.end));
        proof {
            assert(self@ =~= locate(before@, span).0);
            assert(before.program.locations@.len() == before.program.locations.len());
        }
        result
    }

    pub fn failure(&mut self, span: Span, operation: FailureOperation) -> (result: Result<FailureSiteId, &'static str>)
        requires
            old(self).ready(),
        ensures
            final(self).gave(old(self), result, fail(old(self).context(), old(self)@, span, operation)),
    {
        proof {
            reveal(fail);
        }
        let ghost first = *self;
        let at = self.location(span);
        if self.function_id.0 >= self.analysis.function_signatures.len() {
            return Err("current function has no IR identity");
        }
        let (line, column) = self.analysis.source.line_and_column(span.start);
        let site = FailureSite { location: at, function: FunctionId(self.function_id.0), operation, line, column };
        let ghost second = *self;
        let result = self.program.intern_failure_site(site);
        proof {
            assert(second.program.failure_sites@.len() == second.program.failure_sites.len());
            assert(self@ =~= fail(first.context(), first@, span, operation)->Ok_0.0);
        }
        Ok(result)
    }

    pub fn push(&mut self, kind: OperationKind, span: Span) -> (result: Result<(), &'static str>)
        ensures
            final(self).did(old(self), result, emit(old(self)@, operation_view(kind), span)),
    {
        proof {
            reveal(emit);
        }
        let ghost first = *self;
        let at = self.location(span);
        let ghost second = *self;
        match self.block {
            Some(block) => {
                if block.0 >= self.function.blocks.len() {
                    return Err("operation emitted after path termination");
                }
                self.function.blocks[block.0].push(kind, at);
                proof {
                    let index = block.0 as int;
                    let grown = self.function.blocks@[index];
                    assert(operation_views(grown.operations@) =~= operation_views(
                        second.function.blocks@[index].operations@,
                    ).push((operation_view(kind), at)));
                    assert(self@.blocks =~= second@.blocks.update(index, block_view(grown)));
                    assert(self@ =~= emit(first@, operation_view(kind), span)->Ok_0.0);
                }
                Ok(())
            },
            None => Err("operation emitted after path termination"),
        }
    }

    /// Ends a given block.
    pub fn seal(&mut self, block: BlockId, kind: TerminatorKind, span: Span)
        ensures
            final(self).continues(old(self)),
            final(self)@ == seal(old(self)@, block, terminator_view(kind), span),
    {
        proof {
            reveal(seal);
        }
        let at = self.location(span);
        let ghost second = *self;
        if block.0 < self.function.blocks.len() {
            self.function.blocks[block.0].terminate(kind, at);
            proof {
                let index = block.0 as int;
                assert(self@.blocks =~= second@.blocks.update(index, block_view(self.function.blocks@[index])));
            }
        }
    }

    pub fn terminate(&mut self, kind: TerminatorKind, span: Span) -> (result: Result<(), &'static str>)
        ensures
            final(self).did(old(self), result, finish(old(self)@, terminator_view(kind), span)),
    {
        proof {
            reveal(finish);
            reveal(locate);
        }
        let ghost first = *self;
        match self.block {
            Some(block) => {
                if block.0 >= self.function.blocks.len() {
                    return Err("operation emitted after path termination");
                }
                self.seal(block, kind, span);
                self.block = None;
                proof {
                    assert(self@ =~= finish(first@, terminator_view(kind), span)->Ok_0.0);
                }
                Ok(())
            },
            None => Err("operation emitted after path termination"),
        }
    }

    pub fn new_block(&mut self) -> (result: BlockId)
        ensures
            final(self).continues(old(self)),
            (final(self)@, result) == open_block(old(self)@),
    {
        proof {
            reveal(open_block);
        }
        let ghost first = *self;
        let result = self.function.add_block();
        proof {
            assert(first.function.blocks@.len() == first.function.blocks.len());
            let added = self.function.blocks@.last();
            assert(operation_views(added.operations@) =~= seq![]);
            assert(self@.blocks =~= first@.blocks.push(BlockView { operations: seq![], terminator: None })) by {
                assert forall|i: int| 0 <= i < first.function.blocks@.len() implies self.function.blocks@[i]
                    == first.function.blocks@[i] by {
                    assert(self.function.blocks@.drop_last()[i] == first.function.blocks@[i]);
                }
            }
            assert(self@ =~= open_block(first@).0);
        }
        result
    }

    pub fn declare(&mut self, ty: TypeId, name: Option<String>, origin: LocalOrigin) -> (result: LocalId)
        ensures
            final(self).continues(old(self)),
            (final(self)@, result) == declare(
                old(self)@,
                ty,
                match name {
                    Some(name) => Some(name@),
                    None => None,
                },
                origin,
            ),
    {
        proof {
            reveal(declare);
        }
        let ghost first = *self;
        let result = self.function.add_local(ty, name, origin);
        proof {
            assert(first.function.locals@.len() == first.function.locals.len());
            assert(self@.locals =~= first@.locals.push(local_view(Local { ty, source_name: name, origin })));
        }
        result
    }

    pub fn ty(&self, ty: SourceType) -> (result: Result<TypeId, &'static str>)
        ensures
            result == mapped(self.context(), ty),
    {
        if ty.0 < self.types.len() {
            match self.types[ty.0] {
                Some(found) => Ok(found),
                None => Err("frontend type identity is out of range"),
            }
        } else {
            Err("frontend type identity is out of range")
        }
    }

    pub fn temporary(&mut self, ty: SourceType) -> (result: Result<LocalId, &'static str>)
        ensures
            final(self).gave(old(self), result, temporary(old(self).context(), old(self)@, ty)),
    {
        proof {
            reveal(temporary);
        }
        let ty = self.ty(ty)?;
        Ok(self.declare(ty, None, LocalOrigin::Temporary))
    }
}

} // verus!
