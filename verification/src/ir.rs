//! Owned typed control-flow IR.
//!
//! Lowering is the sole owned construction boundary for this IR. No IR value borrows the
//! frontend.

pub mod escaping;
pub mod rendering;
pub mod validation;
pub mod validator;
pub mod validity;

use crate::text::{Message, decimal, push_decimal, same_text};
use vstd::prelude::*;
use vstd::string::*;

verus! {

/// A type of a program.
#[derive(Clone, Copy, Debug, Eq, Hash, Ord, PartialEq, PartialOrd, Structural)]
pub struct TypeId(pub usize);

impl TypeId {
    /// How the identity is shown.
    pub open spec fn text(self) -> Seq<char> {
        "ty"@ + decimal(self.0 as nat)
    }

    pub fn index(self) -> (result: usize)
        ensures
            result == self.0,
    {
        self.0
    }

    pub fn from_index(index: usize) -> (result: Self)
        ensures
            result == TypeId(index),
    {
        Self(index)
    }

    pub fn to_string(&self) -> (result: String)
        ensures
            result@ == self.text(),
    {
        let mut text = "ty".to_owned();
        push_decimal(&mut text, self.0);
        text
    }
}

/// A nominal definition of a program.
#[derive(Clone, Copy, Debug, Eq, Hash, Ord, PartialEq, PartialOrd, Structural)]
pub struct DefinitionId(pub usize);

impl DefinitionId {
    /// How the identity is shown.
    pub open spec fn text(self) -> Seq<char> {
        "def"@ + decimal(self.0 as nat)
    }

    pub fn index(self) -> (result: usize)
        ensures
            result == self.0,
    {
        self.0
    }

    pub fn from_index(index: usize) -> (result: Self)
        ensures
            result == DefinitionId(index),
    {
        Self(index)
    }

    pub fn to_string(&self) -> (result: String)
        ensures
            result@ == self.text(),
    {
        let mut text = "def".to_owned();
        push_decimal(&mut text, self.0);
        text
    }
}

/// A function of a program.
#[derive(Clone, Copy, Debug, Eq, Hash, Ord, PartialEq, PartialOrd, Structural)]
pub struct FunctionId(pub usize);

impl FunctionId {
    /// How the identity is shown.
    pub open spec fn text(self) -> Seq<char> {
        "fn"@ + decimal(self.0 as nat)
    }

    pub fn index(self) -> (result: usize)
        ensures
            result == self.0,
    {
        self.0
    }

    pub fn from_index(index: usize) -> (result: Self)
        ensures
            result == FunctionId(index),
    {
        Self(index)
    }

    pub fn to_string(&self) -> (result: String)
        ensures
            result@ == self.text(),
    {
        let mut text = "fn".to_owned();
        push_decimal(&mut text, self.0);
        text
    }
}

/// A local of a function.
#[derive(Clone, Copy, Debug, Eq, Hash, Ord, PartialEq, PartialOrd, Structural)]
pub struct LocalId(pub usize);

impl LocalId {
    /// How the identity is shown.
    pub open spec fn text(self) -> Seq<char> {
        "_"@ + decimal(self.0 as nat)
    }

    pub fn index(self) -> (result: usize)
        ensures
            result == self.0,
    {
        self.0
    }

    pub fn from_index(index: usize) -> (result: Self)
        ensures
            result == LocalId(index),
    {
        Self(index)
    }

    pub fn to_string(&self) -> (result: String)
        ensures
            result@ == self.text(),
    {
        let mut text = "_".to_owned();
        push_decimal(&mut text, self.0);
        text
    }
}

/// A basic block of a function.
#[derive(Clone, Copy, Debug, Eq, Hash, Ord, PartialEq, PartialOrd, Structural)]
pub struct BlockId(pub usize);

impl BlockId {
    /// How the identity is shown.
    pub open spec fn text(self) -> Seq<char> {
        "bb"@ + decimal(self.0 as nat)
    }

    pub fn index(self) -> (result: usize)
        ensures
            result == self.0,
    {
        self.0
    }

    pub fn from_index(index: usize) -> (result: Self)
        ensures
            result == BlockId(index),
    {
        Self(index)
    }

    pub fn to_string(&self) -> (result: String)
        ensures
            result@ == self.text(),
    {
        let mut text = "bb".to_owned();
        push_decimal(&mut text, self.0);
        text
    }
}

/// A field of a struct or tuple.
#[derive(Clone, Copy, Debug, Eq, Hash, Ord, PartialEq, PartialOrd, Structural)]
pub struct FieldId(pub usize);

impl FieldId {
    /// How the identity is shown.
    pub open spec fn text(self) -> Seq<char> {
        "field"@ + decimal(self.0 as nat)
    }

    pub fn index(self) -> (result: usize)
        ensures
            result == self.0,
    {
        self.0
    }

    pub fn from_index(index: usize) -> (result: Self)
        ensures
            result == FieldId(index),
    {
        Self(index)
    }

    pub fn to_string(&self) -> (result: String)
        ensures
            result@ == self.text(),
    {
        let mut text = "field".to_owned();
        push_decimal(&mut text, self.0);
        text
    }
}

/// An alternative of a union.
#[derive(Clone, Copy, Debug, Eq, Hash, Ord, PartialEq, PartialOrd, Structural)]
pub struct AlternativeId(pub usize);

impl AlternativeId {
    /// How the identity is shown.
    pub open spec fn text(self) -> Seq<char> {
        "alt"@ + decimal(self.0 as nat)
    }

    pub fn index(self) -> (result: usize)
        ensures
            result == self.0,
    {
        self.0
    }

    pub fn from_index(index: usize) -> (result: Self)
        ensures
            result == AlternativeId(index),
    {
        Self(index)
    }

    pub fn to_string(&self) -> (result: String)
        ensures
            result@ == self.text(),
    {
        let mut text = "alt".to_owned();
        push_decimal(&mut text, self.0);
        text
    }
}

/// A source location of a program.
#[derive(Clone, Copy, Debug, Eq, Hash, Ord, PartialEq, PartialOrd, Structural)]
pub struct LocationId(pub usize);

impl LocationId {
    /// How the identity is shown.
    pub open spec fn text(self) -> Seq<char> {
        "loc"@ + decimal(self.0 as nat)
    }

    pub fn index(self) -> (result: usize)
        ensures
            result == self.0,
    {
        self.0
    }

    pub fn from_index(index: usize) -> (result: Self)
        ensures
            result == LocationId(index),
    {
        Self(index)
    }

    pub fn to_string(&self) -> (result: String)
        ensures
            result@ == self.text(),
    {
        let mut text = "loc".to_owned();
        push_decimal(&mut text, self.0);
        text
    }
}

/// A failure site of a program.
#[derive(Clone, Copy, Debug, Eq, Hash, Ord, PartialEq, PartialOrd, Structural)]
pub struct FailureSiteId(pub usize);

impl FailureSiteId {
    /// How the identity is shown.
    pub open spec fn text(self) -> Seq<char> {
        "fail"@ + decimal(self.0 as nat)
    }

    pub fn index(self) -> (result: usize)
        ensures
            result == self.0,
    {
        self.0
    }

    pub fn from_index(index: usize) -> (result: Self)
        ensures
            result == FailureSiteId(index),
    {
        Self(index)
    }

    pub fn to_string(&self) -> (result: String)
        ensures
            result@ == self.text(),
    {
        let mut text = "fail".to_owned();
        push_decimal(&mut text, self.0);
        text
    }
}

#[derive(Clone, Debug, Eq, PartialEq)]
pub struct SourceMetadata {
    pub filename: String,
    pub byte_len: usize,
}

#[derive(Clone, Copy, Debug, Eq, PartialEq, Structural)]
pub struct ByteSpan {
    pub start: usize,
    pub end: usize,
}

impl ByteSpan {
    pub fn new(start: usize, end: usize) -> (result: Self)
        ensures
            result == (ByteSpan { start, end }),
    {
        Self { start, end }
    }
}

#[derive(Clone, Copy, Debug, Eq, Hash, PartialEq, Structural)]
pub enum PrimitiveType {
    Int,
    Float,
    Str,
    Bool,
    Char,
}

#[derive(Clone, Debug, Eq, Hash, PartialEq)]
pub enum Type {
    Unit,
    Primitive(PrimitiveType),
    List(TypeId),
    Mapping { key: TypeId, value: TypeId },
    Nominal(DefinitionId),
    Union(Vec<UnionAlternative>),
}

#[derive(Clone, Copy, Debug, Eq, Hash, PartialEq, Structural)]
pub enum MemberStorage {
    Inline,
    Referenced,
}

#[derive(Clone, Debug, Eq, Hash, PartialEq)]
pub enum AlternativeConstructor {
    Untagged,
    Tagged(String),
    Error,
}

#[derive(Clone, Debug, Eq, Hash, PartialEq)]
pub struct UnionAlternative {
    pub constructor: AlternativeConstructor,
    pub payload: TypeId,
}

/// The contents of an alternative's constructor.
pub enum ConstructorView {
    Untagged,
    Tagged(Seq<char>),
    Error,
}

/// The contents of a union alternative.
pub struct AlternativeView {
    pub constructor: ConstructorView,
    pub payload: TypeId,
}

impl AlternativeConstructor {
    pub open spec fn view(&self) -> ConstructorView {
        match self {
            AlternativeConstructor::Untagged => ConstructorView::Untagged,
            AlternativeConstructor::Tagged(tag) => ConstructorView::Tagged(tag@),
            AlternativeConstructor::Error => ConstructorView::Error,
        }
    }
}

impl UnionAlternative {
    pub open spec fn view(&self) -> AlternativeView {
        AlternativeView { constructor: self.constructor@, payload: self.payload }
    }

    pub fn untagged(payload: TypeId) -> (result: Self)
        ensures
            result@ == (AlternativeView { constructor: ConstructorView::Untagged, payload }),
    {
        Self { constructor: AlternativeConstructor::Untagged, payload }
    }

    pub fn tagged(tag: impl Message, payload: TypeId) -> (result: Self)
        ensures
            result@ == (AlternativeView { constructor: ConstructorView::Tagged(tag.text()), payload }),
    {
        Self { constructor: AlternativeConstructor::Tagged(tag.into_text()), payload }
    }

    pub fn error(payload: TypeId) -> (result: Self)
        ensures
            result@ == (AlternativeView { constructor: ConstructorView::Error, payload }),
    {
        Self { constructor: AlternativeConstructor::Error, payload }
    }

    /// Whether two alternatives have the same constructor and payload.
    pub fn same(&self, other: &Self) -> (result: bool)
        ensures
            result == (self@ == other@),
    {
        if self.payload != other.payload {
            return false;
        }
        match (&self.constructor, &other.constructor) {
            (AlternativeConstructor::Untagged, AlternativeConstructor::Untagged) => true,
            (AlternativeConstructor::Tagged(left), AlternativeConstructor::Tagged(right)) => same_text(
                left.as_str(),
                right.as_str(),
            ),
            (AlternativeConstructor::Error, AlternativeConstructor::Error) => true,
            _ => false,
        }
    }
}

/// The contents of a sequence of alternatives.
pub open spec fn alternative_views(alternatives: Seq<UnionAlternative>) -> Seq<AlternativeView> {
    alternatives.map_values(|alternative: UnionAlternative| alternative@)
}

/// Whether two sequences hold the same alternatives.
pub fn same_alternatives(left: &Vec<UnionAlternative>, right: &Vec<UnionAlternative>) -> (result: bool)
    ensures
        result == (alternative_views(left@) == alternative_views(right@)),
{
    if left.len() != right.len() {
        assert(alternative_views(left@).len() != alternative_views(right@).len());
        return false;
    }
    let mut index: usize = 0;
    while index < left.len()
        invariant
            index <= left@.len(),
            left@.len() == right@.len(),
            forall|i: int| 0 <= i < index ==> (#[trigger] left@[i])@ == right@[i]@,
        decreases left@.len() - index,
    {
        if !left[index].same(&right[index]) {
            assert(alternative_views(left@)[index as int] != alternative_views(right@)[index as int]);
            return false;
        }
        index = index + 1;
    }
    assert(alternative_views(left@) =~= alternative_views(right@));
    true
}

/// The contents of a type.
pub enum TypeView {
    Unit,
    Primitive(PrimitiveType),
    List(TypeId),
    Mapping { key: TypeId, value: TypeId },
    Nominal(DefinitionId),
    Union(Seq<AlternativeView>),
}

impl Type {
    pub open spec fn view(&self) -> TypeView {
        match self {
            Type::Unit => TypeView::Unit,
            Type::Primitive(primitive) => TypeView::Primitive(*primitive),
            Type::List(element) => TypeView::List(*element),
            Type::Mapping { key, value } => TypeView::Mapping { key: *key, value: *value },
            Type::Nominal(definition) => TypeView::Nominal(*definition),
            Type::Union(alternatives) => TypeView::Union(alternative_views(alternatives@)),
        }
    }

    /// Whether two types are the same.
    pub fn same(&self, other: &Self) -> (result: bool)
        ensures
            result == (self@ == other@),
    {
        match (self, other) {
            (Type::Unit, Type::Unit) => true,
            (Type::Primitive(left), Type::Primitive(right)) => *left == *right,
            (Type::List(left), Type::List(right)) => *left == *right,
            (
                Type::Mapping { key: left_key, value: left_value },
                Type::Mapping { key: right_key, value: right_value },
            ) => *left_key == *right_key && *left_value == *right_value,
            (Type::Nominal(left), Type::Nominal(right)) => *left == *right,
            (Type::Union(left), Type::Union(right)) => same_alternatives(left, right),
            _ => false,
        }
    }
}

#[derive(Clone, Debug, Eq, PartialEq)]
pub struct StructField {
    pub name: String,
    pub ty: TypeId,
    pub storage: MemberStorage,
}

#[derive(Clone, Debug, Eq, PartialEq)]
pub enum DefinitionLayout {
    Struct(Vec<StructField>),
    Tuple(Vec<TypeId>),
    Union(Vec<UnionAlternative>),
}

#[derive(Clone, Debug, Eq, PartialEq)]
pub struct NominalDefinition {
    pub name: String,
    pub layout: DefinitionLayout,
}

impl NominalDefinition {
    pub fn structure(name: impl Message) -> (result: Self)
        ensures
            result.name@ == name.text(),
            result.layout matches DefinitionLayout::Struct(fields) && fields@.len() == 0,
    {
        Self { name: name.into_text(), layout: DefinitionLayout::Struct(Vec::new()) }
    }

    pub fn tuple(name: impl Message) -> (result: Self)
        ensures
            result.name@ == name.text(),
            result.layout matches DefinitionLayout::Tuple(fields) && fields@.len() == 0,
    {
        Self { name: name.into_text(), layout: DefinitionLayout::Tuple(Vec::new()) }
    }

    pub fn union(name: impl Message) -> (result: Self)
        ensures
            result.name@ == name.text(),
            result.layout matches DefinitionLayout::Union(alternatives) && alternatives@.len() == 0,
    {
        Self { name: name.into_text(), layout: DefinitionLayout::Union(Vec::new()) }
    }

    pub fn add_struct_field(&mut self, name: impl Message, ty: TypeId, storage: MemberStorage) -> (result: FieldId)
        requires
            old(self).layout is Struct,
        ensures
            final(self).name == old(self).name,
            final(self).layout is Struct,
            result.0 == (old(self).layout->Struct_0)@.len(),
            ({
                let before = (old(self).layout->Struct_0)@;
                let after = (final(self).layout->Struct_0)@;
                &&& after.len() == before.len() + 1
                &&& after.drop_last() == before
                &&& after.last().name@ == name.text()
                &&& after.last().ty == ty
                &&& after.last().storage == storage
            }),
    {
        let name = name.into_text();
        match &mut self.layout {
            DefinitionLayout::Struct(fields) => {
                let id = FieldId(fields.len());
                let ghost before = fields@;
                fields.push(StructField { name, ty, storage });
                assert(fields@.drop_last() =~= before);
                id
            },
            _ => FieldId(0),
        }
    }

    pub fn add_tuple_field(&mut self, ty: TypeId) -> (result: FieldId)
        requires
            old(self).layout is Tuple,
        ensures
            final(self).name == old(self).name,
            final(self).layout is Tuple,
            result.0 == (old(self).layout->Tuple_0)@.len(),
            (final(self).layout->Tuple_0)@ == (old(self).layout->Tuple_0)@.push(ty),
    {
        match &mut self.layout {
            DefinitionLayout::Tuple(fields) => {
                let id = FieldId(fields.len());
                fields.push(ty);
                id
            },
            _ => FieldId(0),
        }
    }

    pub fn add_alternative(&mut self, alternative: UnionAlternative) -> (result: AlternativeId)
        requires
            old(self).layout is Union,
        ensures
            final(self).name == old(self).name,
            final(self).layout is Union,
            result.0 == (old(self).layout->Union_0)@.len(),
            (final(self).layout->Union_0)@ == (old(self).layout->Union_0)@.push(alternative),
    {
        match &mut self.layout {
            DefinitionLayout::Union(alternatives) => {
                let id = AlternativeId(alternatives.len());
                alternatives.push(alternative);
                id
            },
            _ => AlternativeId(0),
        }
    }
}

#[derive(Clone, Copy, Debug, Eq, PartialEq, Structural)]
pub enum LocalOrigin {
    Parameter,
    Binding,
    Temporary,
}

#[derive(Clone, Debug, Eq, PartialEq)]
pub struct Local {
    pub ty: TypeId,
    pub source_name: Option<String>,
    pub origin: LocalOrigin,
}

#[derive(Clone, Debug, PartialEq)]
pub struct Function {
    pub name: String,
    pub parameters: Vec<LocalId>,
    pub result: TypeId,
    pub locals: Vec<Local>,
    pub entry: Option<BlockId>,
    pub blocks: Vec<BasicBlock>,
}

impl Function {
    pub fn new(name: impl Message, result: TypeId) -> (function: Self)
        ensures
            function.name@ == name.text(),
            function.parameters@.len() == 0,
            function.result == result,
            function.locals@.len() == 0,
            function.entry is None,
            function.blocks@.len() == 0,
    {
        Self {
            name: name.into_text(),
            parameters: Vec::new(),
            result,
            locals: Vec::new(),
            entry: None,
            blocks: Vec::new(),
        }
    }

    /// Adds a local; one for a parameter joins the signature too.
    pub fn add_local(&mut self, ty: TypeId, source_name: Option<String>, origin: LocalOrigin) -> (result: LocalId)
        ensures
            result.0 == old(self).locals@.len(),
            final(self).locals@ == old(self).locals@.push(Local { ty, source_name, origin }),
            final(self).parameters@ == (if origin == LocalOrigin::Parameter {
                old(self).parameters@.push(result)
            } else {
                old(self).parameters@
            }),
            final(self).name == old(self).name,
            final(self).result == old(self).result,
            final(self).entry == old(self).entry,
            final(self).blocks == old(self).blocks,
    {
        let id = LocalId(self.locals.len());
        self.locals.push(Local { ty, source_name, origin });
        if origin == LocalOrigin::Parameter {
            self.parameters.push(id);
        }
        id
    }

    /// Adds an empty block.
    pub fn add_block(&mut self) -> (result: BlockId)
        ensures
            result.0 == old(self).blocks@.len(),
            final(self).blocks@.len() == old(self).blocks@.len() + 1,
            final(self).blocks@.drop_last() == old(self).blocks@,
            final(self).blocks@.last().is_new(),
            final(self).name == old(self).name,
            final(self).parameters == old(self).parameters,
            final(self).result == old(self).result,
            final(self).locals == old(self).locals,
            final(self).entry == old(self).entry,
    {
        let id = BlockId(self.blocks.len());
        let ghost before = self.blocks@;
        self.blocks.push(BasicBlock::new());
        assert(self.blocks@.drop_last() =~= before);
        id
    }
}

#[derive(Clone, Debug, Default, PartialEq)]
pub struct BasicBlock {
    pub operations: Vec<Operation>,
    pub terminator: Option<Terminator>,
}

impl BasicBlock {
    /// A block without operations and terminator.
    pub open spec fn is_new(&self) -> bool {
        self.operations@.len() == 0 && self.terminator is None
    }

    pub fn new() -> (result: Self)
        ensures
            result.is_new(),
    {
        Self { operations: Vec::new(), terminator: None }
    }

    pub fn push(&mut self, kind: OperationKind, location: LocationId)
        ensures
            final(self).operations@ == old(self).operations@.push(Operation { kind, location }),
            final(self).terminator == old(self).terminator,
    {
        self.operations.push(Operation { kind, location });
    }

    pub fn terminate(&mut self, kind: TerminatorKind, location: LocationId)
        ensures
            final(self).operations == old(self).operations,
            final(self).terminator == Some(Terminator { kind, location }),
    {
        self.terminator = Some(Terminator { kind, location });
    }
}

#[derive(Clone, Debug, Eq, PartialEq)]
pub struct Place {
    pub local: LocalId,
    pub projections: Vec<Projection>,
}

/// The contents of a place.
pub struct PlaceView {
    pub local: LocalId,
    pub projections: Seq<Projection>,
}

impl Place {
    pub open spec fn view(&self) -> PlaceView {
        PlaceView { local: self.local, projections: self.projections@ }
    }

    pub fn local(local: LocalId) -> (result: Self)
        ensures
            result@ == (PlaceView { local, projections: seq![] }),
    {
        let result = Self { local, projections: Vec::new() };
        assert(result.projections@ =~= seq![]);
        result
    }

    pub fn projected(local: LocalId, projections: Vec<Projection>) -> (result: Self)
        ensures
            result@ == (PlaceView { local, projections: projections@ }),
    {
        Self { local, projections }
    }

    /// Whether two places are the same.
    pub fn same(&self, other: &Self) -> (result: bool)
        ensures
            result == (self@ == other@),
    {
        if self.local != other.local || self.projections.len() != other.projections.len() {
            return false;
        }
        let mut index: usize = 0;
        while index < self.projections.len()
            invariant
                index <= self.projections@.len(),
                self.projections@.len() == other.projections@.len(),
                forall|i: int| 0 <= i < index ==> self.projections@[i] == other.projections@[i],
            decreases self.projections@.len() - index,
        {
            if self.projections[index] != other.projections[index] {
                return false;
            }
            index = index + 1;
        }
        assert(self.projections@ =~= other.projections@);
        true
    }
}

#[derive(Clone, Copy, Debug, Eq, PartialEq, Structural)]
pub enum Projection {
    StructField { definition: DefinitionId, field: FieldId, storage: MemberStorage },
    TupleField { definition: DefinitionId, field: FieldId },
    ListIndex { index: LocalId, failure: FailureSiteId },
    MapIndex { key: LocalId, failure: FailureSiteId },
}

#[derive(Clone, Debug, PartialEq)]
pub enum ConstantValue {
    Unit,
    Integer(i64),
    Float(u64),
    String(Vec<u8>),
    Character(u8),
    Boolean(bool),
}

#[derive(Clone, Debug, PartialEq)]
pub struct Constant {
    pub ty: TypeId,
    pub value: ConstantValue,
}

#[derive(Clone, Debug, PartialEq)]
pub enum Operand {
    Constant(Constant),
    Copy(Place),
}

/// The contents of a constant value; a floating-point value is given by its bits.
pub enum ConstantView {
    Unit,
    Integer(i64),
    Float(u64),
    Text(Seq<u8>),
    Character(u8),
    Boolean(bool),
}

/// The contents of an operand.
pub enum OperandView {
    Constant { ty: TypeId, value: ConstantView },
    Copy(PlaceView),
}

impl ConstantValue {
    pub open spec fn view(&self) -> ConstantView {
        match self {
            ConstantValue::Unit => ConstantView::Unit,
            ConstantValue::Integer(value) => ConstantView::Integer(*value),
            ConstantValue::Float(bits) => ConstantView::Float(*bits),
            ConstantValue::String(bytes) => ConstantView::Text(bytes@),
            ConstantValue::Character(byte) => ConstantView::Character(*byte),
            ConstantValue::Boolean(value) => ConstantView::Boolean(*value),
        }
    }

    /// Whether two values are the same.
    pub fn same(&self, other: &Self) -> (result: bool)
        ensures
            result == (self@ == other@),
    {
        match (self, other) {
            (ConstantValue::Unit, ConstantValue::Unit) => true,
            (ConstantValue::Integer(left), ConstantValue::Integer(right)) => *left == *right,
            (ConstantValue::Float(left), ConstantValue::Float(right)) => *left == *right,
            (ConstantValue::String(left), ConstantValue::String(right)) => same_bytes(left, right),
            (ConstantValue::Character(left), ConstantValue::Character(right)) => *left == *right,
            (ConstantValue::Boolean(left), ConstantValue::Boolean(right)) => *left == *right,
            _ => false,
        }
    }
}

fn same_bytes(left: &Vec<u8>, right: &Vec<u8>) -> (result: bool)
    ensures
        result == (left@ == right@),
{
    if left.len() != right.len() {
        return false;
    }
    let mut index: usize = 0;
    while index < left.len()
        invariant
            index <= left@.len(),
            left@.len() == right@.len(),
            forall|i: int| 0 <= i < index ==> left@[i] == right@[i],
        decreases left@.len() - index,
    {
        if left[index] != right[index] {
            return false;
        }
        index = index + 1;
    }
    assert(left@ =~= right@);
    true
}

impl Operand {
    pub open spec fn view(&self) -> OperandView {
        match self {
            Operand::Constant(constant) => OperandView::Constant { ty: constant.ty, value: constant.value@ },
            Operand::Copy(place) => OperandView::Copy(place@),
        }
    }

    /// Whether two operands are the same.
    pub fn same(&self, other: &Self) -> (result: bool)
        ensures
            result == (self@ == other@),
    {
        match (self, other) {
            (Operand::Constant(left), Operand::Constant(right)) => left.ty == right.ty && left.value.same(
                &right.value,
            ),
            (Operand::Copy(left), Operand::Copy(right)) => left.same(right),
            _ => false,
        }
    }
}

#[derive(Clone, Copy, Debug, Eq, PartialEq, Structural)]
pub enum UnaryOperator {
    LogicalNot,
    BitwiseNot,
    Plus,
    Minus,
}

#[derive(Clone, Copy, Debug, Eq, PartialEq, Structural)]
pub enum BinaryOperator {
    BitwiseOr,
    BitwiseXor,
    BitwiseAnd,
    Equal,
    NotEqual,
    Less,
    LessEqual,
    Greater,
    GreaterEqual,
    In,
    ShiftLeft,
    ShiftRight,
    Add,
    Subtract,
    Multiply,
    Divide,
    Remainder,
}

#[derive(Clone, Copy, Debug, Eq, PartialEq, Structural)]
pub enum NumericConversion {
    IntToFloat,
    FloatToInt,
}

#[derive(Clone, Debug, PartialEq)]
pub enum Aggregate {
    Struct { definition: DefinitionId, fields: Vec<(FieldId, Operand)> },
    Tuple { definition: DefinitionId, elements: Vec<Operand> },
    List { ty: TypeId, elements: Vec<Operand> },
    Mapping { ty: TypeId, entries: Vec<(Operand, Operand)> },
}

#[derive(Clone, Copy, Debug, Eq, PartialEq, Structural)]
pub enum Intrinsic {
    Print,
    Println,
}

#[derive(Clone, Copy, Debug, Eq, PartialEq, Structural)]
pub enum BuiltinMethod {
    ListAppend,
    ListRemoveIndex,
    ListLen,
    MapRemoveKey,
    MapLen,
    StrLen,
}

#[derive(Clone, Copy, Debug, Eq, PartialEq, Structural)]
pub enum IntegerOperation {
    Add,
    Subtract,
    Multiply,
    ShiftLeft,
}

#[derive(Clone, Copy, Debug, Eq, Hash, PartialEq, Structural)]
pub enum FailureOperation {
    IntegerAdd,
    IntegerSubtract,
    IntegerMultiply,
    IntegerNegation,
    IntegerDivision,
    IntegerRemainder,
    ShiftLeft,
    ShiftRight,
    FloatAdd,
    FloatSubtract,
    FloatMultiply,
    FloatDivision,
    FloatToInt,
    ListIndex,
    MapIndex,
    StringIndex,
    ListAppend,
    ListRemoveIndex,
    MapRemoveKey,
    Output,
    ExplicitPanic,
    UnhandledError,
}

#[derive(Clone, Copy, Debug, Eq, Hash, PartialEq, Structural)]
pub struct FailureSite {
    pub location: LocationId,
    pub function: FunctionId,
    pub operation: FailureOperation,
    pub line: usize,
    pub column: usize,
}

/// What tells failure sites apart: the line and column follow from the location.
pub open spec fn failure_key(site: FailureSite) -> (LocationId, FunctionId, FailureOperation) {
    (site.location, site.function, site.operation)
}

pub open spec fn failure_keys(sites: Seq<FailureSite>) -> Seq<(LocationId, FunctionId, FailureOperation)> {
    sites.map_values(|site: FailureSite| failure_key(site))
}

#[derive(Clone, Debug, PartialEq)]
pub enum RuntimeCheck {
    IntegerOverflow { operation: IntegerOperation, left: Operand, right: Operand, failure: FailureSiteId },
    IntegerNegation { operand: Operand, failure: FailureSiteId },
    Division { left: Operand, right: Operand, failure: FailureSiteId },
    Remainder { left: Operand, right: Operand, failure: FailureSiteId },
    ShiftRange { amount: Operand, failure: FailureSiteId },
    FiniteFloat { operand: Operand, failure: FailureSiteId },
    NumericConversion { operand: Operand, conversion: NumericConversion, failure: FailureSiteId },
    IterationUnlocked { receiver: Operand, failure: FailureSiteId },
}

#[derive(Clone, Debug, PartialEq)]
pub struct Operation {
    pub kind: OperationKind,
    pub location: LocationId,
}

#[allow(inconsistent_fields)]
#[derive(Clone, Debug, PartialEq)]
pub enum OperationKind {
    Copy { destination: LocalId, operand: Operand },
    Unary { destination: LocalId, operator: UnaryOperator, operand: Operand },
    Binary { destination: LocalId, operator: BinaryOperator, left: Operand, right: Operand },
    Convert { destination: LocalId, conversion: NumericConversion, operand: Operand },
    Aggregate { destination: LocalId, aggregate: Aggregate },
    UnionInject { destination: LocalId, union_type: TypeId, alternative: AlternativeId, payload: Operand },
    UnionTest { destination: LocalId, union: Operand, alternative: AlternativeId },
    UnionPayload { destination: LocalId, union: Operand, alternative: AlternativeId },
    StringIndex { destination: LocalId, string: Operand, index: Operand, failure: FailureSiteId },
    Assign { destination: Place, value: Operand },
    Call { destination: LocalId, function: FunctionId, arguments: Vec<Operand> },
    Intrinsic { destination: LocalId, intrinsic: Intrinsic, arguments: Vec<Operand>, failure: FailureSiteId },
    Builtin {
        destination: LocalId,
        method: BuiltinMethod,
        receiver: Operand,
        arguments: Vec<Operand>,
        failure: Option<FailureSiteId>,
    },
    BeginIteration { iterable: Operand },
    EndIteration { iterable: Operand },
    IterationValue { destination: LocalId, iterable: Operand, index: Operand },
    Check(RuntimeCheck),
}

#[derive(Clone, Debug, PartialEq)]
pub struct Terminator {
    pub kind: TerminatorKind,
    pub location: LocationId,
}

#[derive(Clone, Debug, PartialEq)]
pub enum TerminatorKind {
    Jump(BlockId),
    Branch { condition: Operand, then_block: BlockId, else_block: BlockId },
    Switch { union: Operand, targets: Vec<(AlternativeId, BlockId)> },
    Return(Operand),
    Panic { message: Operand, failure: FailureSiteId },
    ErrorPanic { payload: Operand, failure: FailureSiteId },
    Unreachable,
}

#[derive(Clone, Debug, PartialEq)]
pub struct Program {
    pub source: SourceMetadata,
    pub types: Vec<Type>,
    pub definitions: Vec<NominalDefinition>,
    pub functions: Vec<Function>,
    pub entry: Option<FunctionId>,
    pub locations: Vec<ByteSpan>,
    pub failure_sites: Vec<FailureSite>,
}

/// The contents of a sequence of types.
pub open spec fn type_views(types: Seq<Type>) -> Seq<TypeView> {
    types.map_values(|ty: Type| ty@)
}

/// The first index at which an element stands, if there is one.
pub open spec fn first_index<T>(items: Seq<T>, wanted: T) -> Option<int>
    decreases items.len(),
{
    if items.len() == 0 {
        None
    } else {
        match first_index(items.drop_last(), wanted) {
            Some(index) => Some(index),
            None => if items.last() == wanted {
                Some(items.len() - 1)
            } else {
                None
            },
        }
    }
}

/// An index is the first at which an element stands when it does not stand before it.
pub proof fn lemma_first_index<T>(items: Seq<T>, wanted: T, index: int)
    requires
        0 <= index < items.len(),
        items[index] == wanted,
        forall|i: int| 0 <= i < index ==> #[trigger] items[i] != wanted,
    ensures
        first_index(items, wanted) == Some(index),
    decreases items.len(),
{
    if index < items.len() - 1 {
        lemma_first_index(items.drop_last(), wanted, index);
    } else {
        lemma_no_index(items.drop_last(), wanted);
    }
}

/// There is no first index of what does not occur.
pub proof fn lemma_no_index<T>(items: Seq<T>, wanted: T)
    requires
        forall|i: int| 0 <= i < items.len() ==> #[trigger] items[i] != wanted,
    ensures
        first_index(items, wanted) is None,
    decreases items.len(),
{
    if items.len() > 0 {
        lemma_no_index(items.drop_last(), wanted);
    }
}

/// What a first index says of the elements.
pub proof fn lemma_first_index_found<T>(items: Seq<T>, wanted: T)
    ensures
        match first_index(items, wanted) {
            Some(index) => 0 <= index < items.len() && items[index] == wanted && (forall|i: int|
                0 <= i < index ==> #[trigger] items[i] != wanted),
            None => forall|i: int| 0 <= i < items.len() ==> #[trigger] items[i] != wanted,
        },
    decreases items.len(),
{
    if items.len() > 0 {
        lemma_first_index_found(items.drop_last(), wanted);
        assert(forall|i: int| 0 <= i < items.len() - 1 ==> items.drop_last()[i] == items[i]);
    }
}

impl Program {
    /// Everything but the types.
    pub open spec fn same_but_types(&self, other: &Self) -> bool {
        &&& self.source == other.source
        &&& self.definitions == other.definitions
        &&& self.functions == other.functions
        &&& self.entry == other.entry
        &&& self.locations == other.locations
        &&& self.failure_sites == other.failure_sites
    }

    pub fn new(filename: impl Message, byte_len: usize) -> (result: Self)
        ensures
            result.source.filename@ == filename.text(),
            result.source.byte_len == byte_len,
            result.types@.len() == 0,
            result.definitions@.len() == 0,
            result.functions@.len() == 0,
            result.entry is None,
            result.locations@.len() == 0,
            result.failure_sites@.len() == 0,
    {
        Self {
            source: SourceMetadata { filename: filename.into_text(), byte_len },
            types: Vec::new(),
            definitions: Vec::new(),
            functions: Vec::new(),
            entry: None,
            locations: Vec::new(),
            failure_sites: Vec::new(),
        }
    }

    /// Where a type stands among the types of the program.
    pub open spec fn type_index(&self, ty: TypeView) -> Option<int> {
        first_index(type_views(self.types@), ty)
    }

    /// Where a type stands, if it is there.
    pub fn find_type(&self, ty: &Type) -> (result: Option<TypeId>)
        ensures
            match result {
                Some(id) => self.type_index(ty@) == Some(id.0 as int),
                None => self.type_index(ty@) is None,
            },
    {
        let ghost wanted = ty@;
        let ghost all = type_views(self.types@);
        let mut index: usize = 0;
        while index < self.types.len()
            invariant
                index <= self.types@.len(),
                all == type_views(self.types@),
                wanted == ty@,
                forall|i: int| 0 <= i < index ==> #[trigger] all[i] != wanted,
            decreases self.types@.len() - index,
        {
            if self.types[index].same(ty) {
                proof {
                    lemma_first_index(all, wanted, index as int);
                }
                return Some(TypeId(index));
            }
            index = index + 1;
        }
        proof {
            lemma_no_index(all, wanted);
        }
        None
    }

    /// The identity of a type, which is added where it is not there yet.
    pub fn intern_type(&mut self, ty: Type) -> (result: TypeId)
        ensures
            final(self).same_but_types(old(self)),
            match old(self).type_index(ty@) {
                Some(index) => result.0 == index && final(self).types == old(self).types,
                None => result.0 == old(self).types@.len() && final(self).types@ == old(self).types@.push(ty),
            },
    {
        match self.find_type(&ty) {
            Some(id) => id,
            None => {
                let id = TypeId(self.types.len());
                self.types.push(ty);
                id
            },
        }
    }

    pub fn add_definition(&mut self, definition: NominalDefinition) -> (result: DefinitionId)
        ensures
            result.0 == old(self).definitions@.len(),
            final(self).definitions@ == old(self).definitions@.push(definition),
            final(self).source == old(self).source,
            final(self).types == old(self).types,
            final(self).functions == old(self).functions,
            final(self).entry == old(self).entry,
            final(self).locations == old(self).locations,
            final(self).failure_sites == old(self).failure_sites,
    {
        let id = DefinitionId(self.definitions.len());
        self.definitions.push(definition);
        id
    }

    pub fn add_function(&mut self, function: Function) -> (result: FunctionId)
        ensures
            result.0 == old(self).functions@.len(),
            final(self).functions@ == old(self).functions@.push(function),
            final(self).source == old(self).source,
            final(self).types == old(self).types,
            final(self).definitions == old(self).definitions,
            final(self).entry == old(self).entry,
            final(self).locations == old(self).locations,
            final(self).failure_sites == old(self).failure_sites,
    {
        let id = FunctionId(self.functions.len());
        self.functions.push(function);
        id
    }

    /// Where a span stands among the locations of the program.
    pub open spec fn location_index(&self, span: ByteSpan) -> Option<int> {
        first_index(self.locations@, span)
    }

    /// The identity of a location, which is added where it is not there yet.
    pub fn intern_location(&mut self, span: ByteSpan) -> (result: LocationId)
        ensures
            final(self).source == old(self).source,
            final(self).types == old(self).types,
            final(self).definitions == old(self).definitions,
            final(self).functions == old(self).functions,
            final(self).entry == old(self).entry,
            final(self).failure_sites == old(self).failure_sites,
            match old(self).location_index(span) {
                Some(index) => result.0 == index && final(self).locations == old(self).locations,
                None => result.0 == old(self).locations@.len() && final(self).locations@
                    == old(self).locations@.push(span),
            },
    {
        let mut index: usize = 0;
        while index < self.locations.len()
            invariant
                index <= self.locations@.len(),
                *self == *old(self),
                forall|i: int| 0 <= i < index ==> #[trigger] self.locations@[i] != span,
            decreases self.locations@.len() - index,
        {
            if self.locations[index] == span {
                proof {
                    lemma_first_index(self.locations@, span, index as int);
                }
                return LocationId(index);
            }
            index = index + 1;
        }
        proof {
            lemma_no_index(self.locations@, span);
        }
        let id = LocationId(self.locations.len());
        self.locations.push(span);
        id
    }

    /// Where a failure stands among the failure sites of the program.
    pub open spec fn failure_index(&self, site: FailureSite) -> Option<int> {
        first_index(failure_keys(self.failure_sites@), failure_key(site))
    }

    /// The identity of a failure site, which is added where there is none for the same failure.
    pub fn intern_failure_site(&mut self, site: FailureSite) -> (result: FailureSiteId)
        ensures
            final(self).source == old(self).source,
            final(self).types == old(self).types,
            final(self).definitions == old(self).definitions,
            final(self).functions == old(self).functions,
            final(self).entry == old(self).entry,
            final(self).locations == old(self).locations,
            match old(self).failure_index(site) {
                Some(index) => result.0 == index && final(self).failure_sites == old(self).failure_sites,
                None => result.0 == old(self).failure_sites@.len() && final(self).failure_sites@
                    == old(self).failure_sites@.push(site),
            },
    {
        let ghost all = failure_keys(self.failure_sites@);
        let mut index: usize = 0;
        while index < self.failure_sites.len()
            invariant
                index <= self.failure_sites@.len(),
                *self == *old(self),
                all == failure_keys(self.failure_sites@),
                forall|i: int| 0 <= i < index ==> #[trigger] all[i] != failure_key(site),
            decreases self.failure_sites@.len() - index,
        {
            let item = self.failure_sites[index];
            if item.location == site.location && item.function == site.function && item.operation == site.operation {
                proof {
                    lemma_first_index(all, failure_key(site), index as int);
                }
                return FailureSiteId(index);
            }
            index = index + 1;
        }
        proof {
            lemma_no_index(all, failure_key(site));
        }
        let id = FailureSiteId(self.failure_sites.len());
        self.failure_sites.push(site);
        id
    }
}

/// Interning a type that is there gives the identity that it has and changes nothing; interning
/// it again gives the same identity.
pub proof fn law_intern_type_is_stable(types: Seq<Type>, ty: Type)
    requires
        first_index(type_views(types), ty@) is None,
    ensures
        first_index(type_views(types.push(ty)), ty@) == Some(types.len() as int),
{
    lemma_first_index_found(type_views(types), ty@);
    let all = type_views(types.push(ty));
    assert forall|i: int| 0 <= i < types.len() implies #[trigger] all[i] != ty@ by {
        assert(all[i] == type_views(types)[i]);
    }
    lemma_first_index(all, ty@, types.len() as int);
}

/// Whether no type stands twice.
pub open spec fn types_are_canonical(types: Seq<Type>) -> bool {
    forall|i: int, j: int| 0 <= i < j < types.len() ==> (#[trigger] types[i])@ != (#[trigger] types[j])@
}

/// Interning keeps the types free of repetition, so that equal identities mean equal types.
pub proof fn law_intern_type_is_canonical(types: Seq<Type>, ty: Type)
    requires
        types_are_canonical(types),
        first_index(type_views(types), ty@) is None,
    ensures
        types_are_canonical(types.push(ty)),
{
    lemma_first_index_found(type_views(types), ty@);
    assert forall|i: int| 0 <= i < types.len() implies (#[trigger] types[i])@ != ty@ by {
        assert(type_views(types)[i] == types[i]@);
    }
}

} // verus!
