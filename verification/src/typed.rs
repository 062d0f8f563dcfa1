//! The typed program: names resolved to identities, every expression typed.
use crate::ast::{BinaryOp, UnaryOp};
use crate::lexer::Span;
use crate::text::{decimal, decimal_text, joined, text_is};
use std::collections::VecDeque;
use vstd::prelude::*;

verus! {

/// What a query about a type's layout asks for.
#[derive(Debug, Clone, Copy, PartialEq, Eq, Structural)]
pub enum LayoutKind {
    Size,
    Align,
    Offset,
}

/// The identity of a declaration. Source names are kept beside it, for messages
/// and for the linker.
#[derive(Debug, Clone, Copy, PartialEq, Eq, Hash, PartialOrd, Ord, Structural)]
pub struct DefId(pub u32);

/// The identity of a source module in the graph of modules.
#[derive(Debug, Clone, Copy, PartialEq, Eq, Hash, PartialOrd, Ord, Structural)]
pub struct ModuleId(pub u32);

/// The identity of a local binding within a function.
#[derive(Debug, Clone, Copy, PartialEq, Eq, Hash, PartialOrd, Ord, Structural)]
pub struct LocalId(pub u32);

/// The identity of an interned type.
#[derive(Debug, Clone, Copy, PartialEq, Eq, Hash, PartialOrd, Ord, Structural)]
pub struct TypeId(pub u32);

/// The identity of an instantiation of something generic.
#[derive(Debug, Clone, Copy, PartialEq, Eq, Hash, PartialOrd, Ord, Structural)]
pub struct InstantiationId(pub u32);

impl DefId {
    pub fn index(self) -> (r: usize)
        ensures
            r == self.0,
    {
        self.0 as usize
    }
}

impl ModuleId {
    pub fn index(self) -> (r: usize)
        ensures
            r == self.0,
    {
        self.0 as usize
    }
}

impl LocalId {
    pub fn index(self) -> (r: usize)
        ensures
            r == self.0,
    {
        self.0 as usize
    }
}

pub type FunctionId = DefId;

impl DefId {
    /// How messages print the identity.
    pub open spec fn text(self) -> Seq<char> {
        "def#"@ + decimal(self.0 as nat)
    }

    pub fn to_string(&self) -> (r: String)
        ensures
            r@ == self.text(),
    {
        let number: String = decimal_text(self.0 as u128);
        joined("def#".to_owned(), number.as_str())
    }
}

#[derive(Debug, Clone, Copy, PartialEq, Eq, Hash, Structural)]
pub enum IntegerWidth {
    Bits(u16),
    Pointer,
}

/// A type whose names are resolved.
#[derive(Debug, PartialEq, Eq, Hash)]
pub enum ResolvedType {
    Unit,
    Bool,
    Integer { width: IntegerWidth, signed: bool },
    Float { bits: u16 },
    Struct(DefId),
    Array { length: u64, element: Box<ResolvedType> },
    Pointer(Box<ResolvedType>),
    Slice(Box<ResolvedType>),
    /// A tag that is set for an error, the success value and the error value.
    Result { success: Box<ResolvedType>, error: Box<ResolvedType> },
}

impl Clone for ResolvedType {
    fn clone(&self) -> (r: Self)
        ensures
            r == *self,
        decreases self,
    {
        match self {
            ResolvedType::Unit => ResolvedType::Unit,
            ResolvedType::Bool => ResolvedType::Bool,
            ResolvedType::Integer { width, signed } => ResolvedType::Integer {
                width: *width,
                signed: *signed,
            },
            ResolvedType::Float { bits } => ResolvedType::Float { bits: *bits },
            ResolvedType::Struct(id) => ResolvedType::Struct(*id),
            ResolvedType::Array { length, element } => ResolvedType::Array {
                length: *length,
                element: Box::new((**element).clone()),
            },
            ResolvedType::Pointer(inner) => ResolvedType::Pointer(Box::new((**inner).clone())),
            ResolvedType::Slice(inner) => ResolvedType::Slice(Box::new((**inner).clone())),
            ResolvedType::Result { success, error } => ResolvedType::Result {
                success: Box::new((**success).clone()),
                error: Box::new((**error).clone()),
            },
        }
    }
}

impl ResolvedType {
    /// Whether both are the same type.
    pub fn same(&self, other: &Self) -> (r: bool)
        ensures
            r == (*self == *other),
        decreases self,
    {
        match (self, other) {
            (ResolvedType::Unit, ResolvedType::Unit) => true,
            (ResolvedType::Bool, ResolvedType::Bool) => true,
            (
                ResolvedType::Integer { width: a, signed: s },
                ResolvedType::Integer { width: b, signed: t },
            ) => *a == *b && *s == *t,
            (ResolvedType::Float { bits: a }, ResolvedType::Float { bits: b }) => *a == *b,
            (ResolvedType::Struct(a), ResolvedType::Struct(b)) => *a == *b,
            (
                ResolvedType::Array { length: n, element: a },
                ResolvedType::Array { length: m, element: b },
            ) => *n == *m && a.same(b),
            (ResolvedType::Pointer(a), ResolvedType::Pointer(b)) => a.same(b),
            (ResolvedType::Slice(a), ResolvedType::Slice(b)) => a.same(b),
            (
                ResolvedType::Result { success: a, error: e },
                ResolvedType::Result { success: b, error: f },
            ) => a.same(b) && e.same(f),
            _ => false,
        }
    }

    pub fn is_integer(&self) -> (r: bool)
        ensures
            r == (self is Integer),
    {
        match self {
            ResolvedType::Integer { .. } => true,
            _ => false,
        }
    }

    /// Whether this is a signed integer type.
    pub open spec fn signed(self) -> bool {
        match self {
            ResolvedType::Integer { signed, .. } => signed,
            _ => false,
        }
    }

    pub fn is_signed_integer(&self) -> (r: bool)
        ensures
            r == self.signed(),
    {
        match self {
            ResolvedType::Integer { signed, .. } => *signed,
            _ => false,
        }
    }

    pub fn is_aggregate(&self) -> (r: bool)
        ensures
            r == (self is Struct || self is Array || self is Slice || self is Result),
    {
        match self {
            ResolvedType::Struct(_) => true,
            ResolvedType::Array { .. } => true,
            ResolvedType::Slice(_) => true,
            ResolvedType::Result { .. } => true,
            _ => false,
        }
    }
}

/// A copy of a list of types.
pub fn resolved_clone(v: &Vec<ResolvedType>) -> (r: Vec<ResolvedType>)
    ensures
        r@ == v@,
{
    let mut out: Vec<ResolvedType> = Vec::new();
    for i in 0..v.len()
        invariant
            out@ == v@.take(i as int),
    {
        assert(v@.take(i + 1) =~= v@.take(i as int).push(v@[i as int]));
        out.push(v[i].clone());
    }
    assert(v@.take(v@.len() as int) =~= v@);
    out
}

/// Interned types: each type has one identity, its place in the list.
#[derive(Debug, PartialEq, Eq)]
pub struct TypeInterner {
    types: Vec<ResolvedType>,
}

/// What a `TypeInterner` holds: the types, in the order of their identities.
pub ghost struct TypeInternerView {
    pub types: Seq<ResolvedType>,
}

impl Clone for TypeInterner {
    fn clone(&self) -> (r: Self)
        ensures
            r@ == self@,
    {
        TypeInterner { types: resolved_clone(&self.types) }
    }
}

impl Default for TypeInterner {
    fn default() -> (r: Self)
        ensures
            r@.types == Seq::<ResolvedType>::empty(),
            r.wf(),
    {
        TypeInterner { types: Vec::new() }
    }
}

impl TypeInterner {
    pub closed spec fn view(&self) -> TypeInternerView {
        TypeInternerView { types: self.types@ }
    }

    /// No type is held twice.
    pub open spec fn wf(&self) -> bool {
        self@.types.no_duplicates()
    }

    /// The identity of a type; a new one where the type was not held yet.
    pub fn intern(&mut self, ty: ResolvedType) -> (r: TypeId)
        requires
            old(self).wf(),
            old(self)@.types.len() <= u32::MAX,
        ensures
            final(self).wf(),
            (r.0 as int) < final(self)@.types.len(),
            final(self)@.types[r.0 as int] == ty,
            final(self)@.types == (if old(self)@.types.contains(ty) {
                old(self)@.types
            } else {
                old(self)@.types.push(ty)
            }),
    {
        for i in 0..self.types.len()
            invariant
                self.wf(),
                *self == *old(self),
                self.types@.len() <= u32::MAX,
                forall|j: int| 0 <= j < i ==> self.types@[j] != ty,
        {
            if self.types[i].same(&ty) {
                return TypeId(i as u32);
            }
        }
        let id: TypeId = TypeId(self.types.len() as u32);
        self.types.push(ty);
        id
    }

    pub fn get(&self, id: TypeId) -> (r: Option<&ResolvedType>)
        ensures
            match r {
                Some(ty) => id.0 < self@.types.len() && *ty == self@.types[id.0 as int],
                None => id.0 >= self@.types.len(),
            },
    {
        if (id.0 as usize) < self.types.len() {
            Some(&self.types[id.0 as usize])
        } else {
            None
        }
    }

    pub fn len(&self) -> (r: usize)
        ensures
            r == self@.types.len(),
    {
        self.types.len()
    }

    pub fn is_empty(&self) -> (r: bool)
        ensures
            r == (self@.types.len() == 0),
    {
        self.types.len() == 0
    }
}

/// What tells one instantiation of something generic from another. The name
/// that the linker sees is no part of it.
#[derive(Debug, PartialEq, Eq, Hash)]
pub struct InstantiationKey {
    pub definition: DefId,
    pub type_arguments: Vec<TypeId>,
    pub value_arguments: Vec<i128>,
}

/// What an `InstantiationKey` holds.
pub ghost struct InstantiationKeyView {
    pub definition: DefId,
    pub type_arguments: Seq<TypeId>,
    pub value_arguments: Seq<i128>,
}

impl InstantiationKey {
    pub open spec fn view(&self) -> InstantiationKeyView {
        InstantiationKeyView {
            definition: self.definition,
            type_arguments: self.type_arguments@,
            value_arguments: self.value_arguments@,
        }
    }

    /// Whether both stand for the same instantiation.
    pub fn same(&self, other: &Self) -> (r: bool)
        ensures
            r == (self@ == other@),
    {
        if self.definition != other.definition || self.type_arguments.len()
            != other.type_arguments.len() || self.value_arguments.len()
            != other.value_arguments.len() {
            return false;
        }
        for i in 0..self.type_arguments.len()
            invariant
                self.type_arguments.len() == other.type_arguments.len(),
                forall|j: int| 0 <= j < i ==> self.type_arguments@[j] == other.type_arguments@[j],
        {
            if self.type_arguments[i] != other.type_arguments[i] {
                return false;
            }
        }
        for i in 0..self.value_arguments.len()
            invariant
                self.value_arguments.len() == other.value_arguments.len(),
                forall|j: int|
                    0 <= j < i ==> self.value_arguments@[j] == other.value_arguments@[j],
        {
            if self.value_arguments[i] != other.value_arguments[i] {
                return false;
            }
        }
        assert(self.type_arguments@ =~= other.type_arguments@);
        assert(self.value_arguments@ =~= other.value_arguments@);
        true
    }
}

/// The instantiations met so far, and those still to be worked on.
#[derive(Debug)]
pub struct InstantiationTable {
    entries: Vec<InstantiationKey>,
    queue: VecDeque<InstantiationId>,
}

/// What an `InstantiationTable` holds: the instantiations in the order of
/// their identities, and the identities that wait.
pub ghost struct InstantiationTableView {
    pub entries: Seq<InstantiationKeyView>,
    pub queue: Seq<InstantiationId>,
}

/// What a list of `InstantiationKey` holds.
pub open spec fn keys_view(s: Seq<InstantiationKey>) -> Seq<InstantiationKeyView> {
    Seq::new(s.len(), |i: int| s[i]@)
}

impl Default for InstantiationTable {
    fn default() -> (r: Self)
        ensures
            r@.entries == Seq::<InstantiationKeyView>::empty(),
            r@.queue == Seq::<InstantiationId>::empty(),
            r.wf(),
    {
        let r: InstantiationTable = InstantiationTable {
            entries: Vec::new(),
            queue: VecDeque::new(),
        };
        assert(keys_view(r.entries@) =~= Seq::empty());
        assert(r.queue@ =~= Seq::empty());
        r
    }
}

impl InstantiationTable {
    pub closed spec fn view(&self) -> InstantiationTableView {
        InstantiationTableView { entries: keys_view(self.entries@), queue: self.queue@ }
    }

    /// No instantiation is held twice, and only held ones wait.
    pub open spec fn wf(&self) -> bool {
        &&& self@.entries.no_duplicates()
        &&& forall|i: int|
            0 <= i < self@.queue.len() ==> (#[trigger] self@.queue[i]).0 < self@.entries.len()
    }

    /// The identity of an instantiation, and whether it is a new one, which
    /// then waits.
    pub fn intern(&mut self, key: InstantiationKey) -> (r: (InstantiationId, bool))
        requires
            old(self).wf(),
            old(self)@.entries.len() <= u32::MAX,
        ensures
            final(self).wf(),
            (r.0.0 as int) < final(self)@.entries.len(),
            final(self)@.entries[r.0.0 as int] == key@,
            r.1 == !old(self)@.entries.contains(key@),
            final(self)@ == (if r.1 {
                InstantiationTableView {
                    entries: old(self)@.entries.push(key@),
                    queue: old(self)@.queue.push(r.0),
                }
            } else {
                old(self)@
            }),
    {
        for i in 0..self.entries.len()
            invariant
                self.wf(),
                *self == *old(self),
                self.entries@.len() <= u32::MAX,
                forall|j: int| 0 <= j < i ==> (#[trigger] self@.entries[j]) != key@,
        {
            if self.entries[i].same(&key) {
                assert(self@.entries[i as int] == key@);
                return (InstantiationId(i as u32), false);
            }
        }
        let id: InstantiationId = InstantiationId(self.entries.len() as u32);
        let ghost value = key@;
        self.entries.push(key);
        self.queue.push_back(id);
        proof {
            assert(self@.entries =~= old(self)@.entries.push(value));
            assert(self@.queue =~= old(self)@.queue.push(id));
            assert forall|i: int| 0 <= i < self@.queue.len() implies (
            #[trigger] self@.queue[i]).0 < self@.entries.len() by {
                if i < old(self)@.queue.len() {
                    assert(self@.queue[i] == old(self)@.queue[i]);
                }
            }
        }
        (id, true)
    }

    pub fn get(&self, id: InstantiationId) -> (r: Option<&InstantiationKey>)
        ensures
            match r {
                Some(key) => id.0 < self@.entries.len() && key@ == self@.entries[id.0 as int],
                None => id.0 >= self@.entries.len(),
            },
    {
        if (id.0 as usize) < self.entries.len() {
            Some(&self.entries[id.0 as usize])
        } else {
            None
        }
    }

    /// Takes the instantiation that has waited longest.
    pub fn pop_pending(&mut self) -> (r: Option<InstantiationId>)
        requires
            old(self).wf(),
        ensures
            final(self).wf(),
            final(self)@.entries == old(self)@.entries,
            if old(self)@.queue.len() == 0 {
                r is None && final(self)@.queue == old(self)@.queue
            } else {
                r == Some(old(self)@.queue[0]) && final(self)@.queue
                    == old(self)@.queue.drop_first()
            },
    {
        let r: Option<InstantiationId> = self.queue.pop_front();
        proof {
            if old(self)@.queue.len() > 0 {
                assert(self@.queue =~= old(self)@.queue.drop_first());
                assert forall|i: int| 0 <= i < self@.queue.len() implies (
                #[trigger] self@.queue[i]).0 < self@.entries.len() by {
                    assert(self@.queue[i] == old(self)@.queue[i + 1]);
                }
            }
        }
        r
    }

    /// Takes all that wait: none does afterwards.
    pub fn drain_pending(&mut self)
        requires
            old(self).wf(),
        ensures
            final(self).wf(),
            final(self)@ == (InstantiationTableView {
                entries: old(self)@.entries,
                queue: Seq::empty(),
            }),
    {
        self.queue = VecDeque::new();
        assert(self@.queue =~= Seq::empty());
    }

    pub fn len(&self) -> (r: usize)
        ensures
            r == self@.entries.len(),
    {
        self.entries.len()
    }

    pub fn is_empty(&self) -> (r: bool)
        ensures
            r == (self@.entries.len() == 0),
    {
        self.entries.len() == 0
    }
}

/// Interning again gives the same identity and changes nothing.
pub proof fn lemma_interning_is_stable(
    before: Seq<ResolvedType>,
    ty: ResolvedType,
    first: TypeId,
    after: Seq<ResolvedType>,
    second: TypeId,
)
    requires
        after.no_duplicates(),
        after == (if before.contains(ty) {
            before
        } else {
            before.push(ty)
        }),
        (first.0 as int) < after.len(),
        after[first.0 as int] == ty,
        (second.0 as int) < after.len(),
        after[second.0 as int] == ty,
    ensures
        first == second,
        after.contains(ty),
{
}

/// Accesses to memory that the compiler neither drops nor moves.
#[derive(Debug, Clone, Copy, PartialEq, Eq, Structural)]
pub enum LowLevelOperation {
    VolatileLoad,
    VolatileStore,
    AtomicLoad,
    AtomicStore,
    Fence,
}

/// The operations that the compiler itself provides, by name. The accesses to
/// memory are called as `LowLevelOperation` calls them, in lower case with `_`
/// between the words.
#[derive(Debug, Clone, Copy, PartialEq, Eq, Hash, Structural)]
pub enum Intrinsic {
    MakeSlice,
    ReturnOk,
    ReturnErr,
    IsErr,
    Unwrap,
    VolatileLoad,
    VolatileStore,
    AtomicLoad,
    AtomicStore,
    Fence,
}

impl Intrinsic {
    /// The operation of a name, if the compiler provides one.
    pub open spec fn named(name: Seq<char>) -> Option<Intrinsic> {
        if name == "make_slice"@ {
            Some(Intrinsic::MakeSlice)
        } else if name == "return_ok"@ {
            Some(Intrinsic::ReturnOk)
        } else if name == "return_err"@ {
            Some(Intrinsic::ReturnErr)
        } else if name == "is_err"@ {
            Some(Intrinsic::IsErr)
        } else if name == "unwrap"@ {
            Some(Intrinsic::Unwrap)
        } else if name == "volatile_load"@ {
            Some(Intrinsic::VolatileLoad)
        } else if name == "volatile_store"@ {
            Some(Intrinsic::VolatileStore)
        } else if name == "atomic_load"@ {
            Some(Intrinsic::AtomicLoad)
        } else if name == "atomic_store"@ {
            Some(Intrinsic::AtomicStore)
        } else if name == "fence"@ {
            Some(Intrinsic::Fence)
        } else {
            None
        }
    }

    pub fn from_name(name: &String) -> (r: Option<Self>)
        ensures
            r == Intrinsic::named(name@),
    {
        if text_is(name, "make_slice") {
            Some(Intrinsic::MakeSlice)
        } else if text_is(name, "return_ok") {
            Some(Intrinsic::ReturnOk)
        } else if text_is(name, "return_err") {
            Some(Intrinsic::ReturnErr)
        } else if text_is(name, "is_err") {
            Some(Intrinsic::IsErr)
        } else if text_is(name, "unwrap") {
            Some(Intrinsic::Unwrap)
        } else if text_is(name, "volatile_load") {
            Some(Intrinsic::VolatileLoad)
        } else if text_is(name, "volatile_store") {
            Some(Intrinsic::VolatileStore)
        } else if text_is(name, "atomic_load") {
            Some(Intrinsic::AtomicLoad)
        } else if text_is(name, "atomic_store") {
            Some(Intrinsic::AtomicStore)
        } else if text_is(name, "fence") {
            Some(Intrinsic::Fence)
        } else {
            None
        }
    }

    /// The access to memory that an operation is, if it is one.
    pub open spec fn low_level(self) -> Option<LowLevelOperation> {
        match self {
            Intrinsic::VolatileLoad => Some(LowLevelOperation::VolatileLoad),
            Intrinsic::VolatileStore => Some(LowLevelOperation::VolatileStore),
            Intrinsic::AtomicLoad => Some(LowLevelOperation::AtomicLoad),
            Intrinsic::AtomicStore => Some(LowLevelOperation::AtomicStore),
            Intrinsic::Fence => Some(LowLevelOperation::Fence),
            _ => None,
        }
    }

    pub fn to_low_level(self) -> (r: Option<LowLevelOperation>)
        ensures
            r == self.low_level(),
    {
        match self {
            Intrinsic::VolatileLoad => Some(LowLevelOperation::VolatileLoad),
            Intrinsic::VolatileStore => Some(LowLevelOperation::VolatileStore),
            Intrinsic::AtomicLoad => Some(LowLevelOperation::AtomicLoad),
            Intrinsic::AtomicStore => Some(LowLevelOperation::AtomicStore),
            Intrinsic::Fence => Some(LowLevelOperation::Fence),
            _ => None,
        }
    }

    /// Whether this makes or takes apart a result value.
    pub fn is_result(self) -> (r: bool)
        ensures
            r == (self is ReturnOk || self is ReturnErr || self is IsErr || self is Unwrap),
    {
        match self {
            Intrinsic::ReturnOk => true,
            Intrinsic::ReturnErr => true,
            Intrinsic::IsErr => true,
            Intrinsic::Unwrap => true,
            _ => false,
        }
    }

    /// Whether this is an access to memory.
    pub fn is_low_level(self) -> (r: bool)
        ensures
            r == (self.low_level() is Some),
    {
        self.to_low_level().is_some()
    }
}

#[derive(Debug, Clone, Copy, PartialEq, Eq, Structural)]
pub enum DefinitionKind {
    Function,
    Struct,
    Global,
    Constant,
}

/// A typed expression.
/// 
/// A floating-point number is held as a numeral.
#[allow(inconsistent_fields)]
#[derive(Debug, PartialEq)]
pub enum TypedExpr {
    Integer { value: i128, ty: ResolvedType, span: Span },
    Float { value: String, ty: ResolvedType, span: Span },
    Bool { value: bool, ty: ResolvedType, span: Span },
    StructLiteral { ty: ResolvedType, fields: Vec<TypedExpr>, span: Span },
    ArrayLiteral { ty: ResolvedType, elements: Vec<TypedExpr>, span: Span },
    Load { id: LocalId, name: String, ty: ResolvedType, span: Span },
    GlobalLoad { id: DefId, name: String, ty: ResolvedType, span: Span },
    Field { place: Box<TypedPlace>, ty: ResolvedType, span: Span },
    Index { place: Box<TypedPlace>, ty: ResolvedType, span: Span },
    Unary { operator: UnaryOp, operand: Box<TypedExpr>, ty: ResolvedType, span: Span },
    Binary { left: Box<TypedExpr>, operator: BinaryOp, right: Box<TypedExpr>, ty: ResolvedType,
        operand_type: ResolvedType, span: Span },
    Call { function: DefId, name: String, arguments: Vec<TypedExpr>,
        parameter_types: Vec<ResolvedType>, ty: ResolvedType, span: Span },
    /// Makes a slice of a pointer and a length. No declaration can shadow it.
    MakeSlice { pointer: Box<TypedExpr>, length: Box<TypedExpr>, element: ResolvedType,
        ty: ResolvedType, span: Span },
    /// An access to memory that keeps its place among the others.
    LowLevel { operation: LowLevelOperation, arguments: Vec<TypedExpr>, ty: ResolvedType,
        span: Span },
    Null { ty: ResolvedType, span: Span },
    AddressOf { place: Box<TypedPlace>, ty: ResolvedType, span: Span },
    Dereference { place: Box<TypedPlace>, ty: ResolvedType, span: Span },
    Layout { kind: LayoutKind, ty: ResolvedType, target: ResolvedType, field: Option<String>,
        span: Span },
    ResultOk { value: Box<TypedExpr>, ty: ResolvedType, span: Span },
    ResultErr { value: Box<TypedExpr>, ty: ResolvedType, span: Span },
    IsErr { value: Box<TypedExpr>, ty: ResolvedType, span: Span },
    Unwrap { value: Box<TypedExpr>, ty: ResolvedType, span: Span },
    Propagate { value: Box<TypedExpr>, ty: ResolvedType, span: Span },
}

/// What a `TypedExpr` holds.
#[allow(inconsistent_fields)]
pub ghost enum TypedExprView {
    Integer { value: i128, ty: ResolvedType, span: Span },
    Float { value: Seq<char>, ty: ResolvedType, span: Span },
    Bool { value: bool, ty: ResolvedType, span: Span },
    StructLiteral { ty: ResolvedType, fields: Seq<TypedExprView>, span: Span },
    ArrayLiteral { ty: ResolvedType, elements: Seq<TypedExprView>, span: Span },
    Load { id: LocalId, name: Seq<char>, ty: ResolvedType, span: Span },
    GlobalLoad { id: DefId, name: Seq<char>, ty: ResolvedType, span: Span },
    Field { place: Box<TypedPlaceView>, ty: ResolvedType, span: Span },
    Index { place: Box<TypedPlaceView>, ty: ResolvedType, span: Span },
    Unary { operator: UnaryOp, operand: Box<TypedExprView>, ty: ResolvedType, span: Span },
    Binary { left: Box<TypedExprView>, operator: BinaryOp, right: Box<TypedExprView>,
        ty: ResolvedType, operand_type: ResolvedType, span: Span },
    Call { function: DefId, name: Seq<char>, arguments: Seq<TypedExprView>,
        parameter_types: Seq<ResolvedType>, ty: ResolvedType, span: Span },
    MakeSlice { pointer: Box<TypedExprView>, length: Box<TypedExprView>, element: ResolvedType,
        ty: ResolvedType, span: Span },
    LowLevel { operation: LowLevelOperation, arguments: Seq<TypedExprView>, ty: ResolvedType,
        span: Span },
    Null { ty: ResolvedType, span: Span },
    AddressOf { place: Box<TypedPlaceView>, ty: ResolvedType, span: Span },
    Dereference { place: Box<TypedPlaceView>, ty: ResolvedType, span: Span },
    Layout { kind: LayoutKind, ty: ResolvedType, target: ResolvedType, field: Option<Seq<char>>,
        span: Span },
    ResultOk { value: Box<TypedExprView>, ty: ResolvedType, span: Span },
    ResultErr { value: Box<TypedExprView>, ty: ResolvedType, span: Span },
    IsErr { value: Box<TypedExprView>, ty: ResolvedType, span: Span },
    Unwrap { value: Box<TypedExprView>, ty: ResolvedType, span: Span },
    Propagate { value: Box<TypedExprView>, ty: ResolvedType, span: Span },
}

impl TypedExpr {
    pub open spec fn view(&self) -> TypedExprView
        decreases self,
    {
        match self {
            TypedExpr::Integer { value, ty, span } => TypedExprView::Integer {
                value: *value,
                ty: *ty,
                span: *span,
            },
            TypedExpr::Float { value, ty, span } => TypedExprView::Float {
                value: value@,
                ty: *ty,
                span: *span,
            },
            TypedExpr::Bool { value, ty, span } => TypedExprView::Bool {
                value: *value,
                ty: *ty,
                span: *span,
            },
            TypedExpr::StructLiteral { ty, fields, span } => TypedExprView::StructLiteral {
                ty: *ty,
                fields: typed_exprs_view(fields@),
                span: *span,
            },
            TypedExpr::ArrayLiteral { ty, elements, span } => TypedExprView::ArrayLiteral {
                ty: *ty,
                elements: typed_exprs_view(elements@),
                span: *span,
            },
            TypedExpr::Load { id, name, ty, span } => TypedExprView::Load {
                id: *id,
                name: name@,
                ty: *ty,
                span: *span,
            },
            TypedExpr::GlobalLoad { id, name, ty, span } => TypedExprView::GlobalLoad {
                id: *id,
                name: name@,
                ty: *ty,
                span: *span,
            },
            TypedExpr::Field { place, ty, span } => TypedExprView::Field {
                place: Box::new(place.view()),
                ty: *ty,
                span: *span,
            },
            TypedExpr::Index { place, ty, span } => TypedExprView::Index {
                place: Box::new(place.view()),
                ty: *ty,
                span: *span,
            },
            TypedExpr::Unary { operator, operand, ty, span } => TypedExprView::Unary {
                operator: *operator,
                operand: Box::new(operand.view()),
                ty: *ty,
                span: *span,
            },
            TypedExpr::Binary { left, operator, right, ty, operand_type, span } =>
                TypedExprView::Binary {
                left: Box::new(left.view()),
                operator: *operator,
                right: Box::new(right.view()),
                ty: *ty,
                operand_type: *operand_type,
                span: *span,
            },
            TypedExpr::Call { function, name, arguments, parameter_types, ty, span } =>
                TypedExprView::Call {
                function: *function,
                name: name@,
                arguments: typed_exprs_view(arguments@),
                parameter_types: parameter_types@,
                ty: *ty,
                span: *span,
            },
            TypedExpr::MakeSlice { pointer, length, element, ty, span } =>
                TypedExprView::MakeSlice {
                pointer: Box::new(pointer.view()),
                length: Box::new(length.view()),
                element: *element,
                ty: *ty,
                span: *span,
            },
            TypedExpr::LowLevel { operation, arguments, ty, span } => TypedExprView::LowLevel {
                operation: *operation,
                arguments: typed_exprs_view(arguments@),
                ty: *ty,
                span: *span,
            },
            TypedExpr::Null { ty, span } => TypedExprView::Null {
                ty: *ty,
                span: *span,
            },
            TypedExpr::AddressOf { place, ty, span } => TypedExprView::AddressOf {
                place: Box::new(place.view()),
                ty: *ty,
                span: *span,
            },
            TypedExpr::Dereference { place, ty, span } => TypedExprView::Dereference {
                place: Box::new(place.view()),
                ty: *ty,
                span: *span,
            },
            TypedExpr::Layout { kind, ty, target, field, span } => TypedExprView::Layout {
                kind: *kind,
                ty: *ty,
                target: *target,
                field: match field { Some(x) => Some(x@), None => None },
                span: *span,
            },
            TypedExpr::ResultOk { value, ty, span } => TypedExprView::ResultOk {
                value: Box::new(value.view()),
                ty: *ty,
                span: *span,
            },
            TypedExpr::ResultErr { value, ty, span } => TypedExprView::ResultErr {
                value: Box::new(value.view()),
                ty: *ty,
                span: *span,
            },
            TypedExpr::IsErr { value, ty, span } => TypedExprView::IsErr {
                value: Box::new(value.view()),
                ty: *ty,
                span: *span,
            },
            TypedExpr::Unwrap { value, ty, span } => TypedExprView::Unwrap {
                value: Box::new(value.view()),
                ty: *ty,
                span: *span,
            },
            TypedExpr::Propagate { value, ty, span } => TypedExprView::Propagate {
                value: Box::new(value.view()),
                ty: *ty,
                span: *span,
            },
        }
    }
}

impl Clone for TypedExpr {
    fn clone(&self) -> (r: Self)
        ensures
            r@ == self@,
        decreases self,
    {
        match self {
            TypedExpr::Integer { value, ty, span } => TypedExpr::Integer {
                value: *value,
                ty: ty.clone(),
                span: *span,
            },
            TypedExpr::Float { value, ty, span } => TypedExpr::Float {
                value: value.clone(),
                ty: ty.clone(),
                span: *span,
            },
            TypedExpr::Bool { value, ty, span } => TypedExpr::Bool {
                value: *value,
                ty: ty.clone(),
                span: *span,
            },
            TypedExpr::StructLiteral { ty, fields, span } => TypedExpr::StructLiteral {
                ty: ty.clone(),
                fields: typed_exprs_clone(fields),
                span: *span,
            },
            TypedExpr::ArrayLiteral { ty, elements, span } => TypedExpr::ArrayLiteral {
                ty: ty.clone(),
                elements: typed_exprs_clone(elements),
                span: *span,
            },
            TypedExpr::Load { id, name, ty, span } => TypedExpr::Load {
                id: *id,
                name: name.clone(),
                ty: ty.clone(),
                span: *span,
            },
            TypedExpr::GlobalLoad { id, name, ty, span } => TypedExpr::GlobalLoad {
                id: *id,
                name: name.clone(),
                ty: ty.clone(),
                span: *span,
            },
            TypedExpr::Field { place, ty, span } => TypedExpr::Field {
                place: Box::new((**place).clone()),
                ty: ty.clone(),
                span: *span,
            },
            TypedExpr::Index { place, ty, span } => TypedExpr::Index {
                place: Box::new((**place).clone()),
                ty: ty.clone(),
                span: *span,
            },
            TypedExpr::Unary { operator, operand, ty, span } => TypedExpr::Unary {
                operator: *operator,
                operand: Box::new((**operand).clone()),
                ty: ty.clone(),
                span: *span,
            },
            TypedExpr::Binary { left, operator, right, ty, operand_type, span } =>
                TypedExpr::Binary {
                left: Box::new((**left).clone()),
                operator: *operator,
                right: Box::new((**right).clone()),
                ty: ty.clone(),
                operand_type: operand_type.clone(),
                span: *span,
            },
            TypedExpr::Call { function, name, arguments, parameter_types, ty, span } =>
                TypedExpr::Call {
                function: *function,
                name: name.clone(),
                arguments: typed_exprs_clone(arguments),
                parameter_types: resolved_clone(parameter_types),
                ty: ty.clone(),
                span: *span,
            },
            TypedExpr::MakeSlice { pointer, length, element, ty, span } => TypedExpr::MakeSlice {
                pointer: Box::new((**pointer).clone()),
                length: Box::new((**length).clone()),
                element: element.clone(),
                ty: ty.clone(),
                span: *span,
            },
            TypedExpr::LowLevel { operation, arguments, ty, span } => TypedExpr::LowLevel {
                operation: *operation,
                arguments: typed_exprs_clone(arguments),
                ty: ty.clone(),
                span: *span,
            },
            TypedExpr::Null { ty, span } => TypedExpr::Null {
                ty: ty.clone(),
                span: *span,
            },
            TypedExpr::AddressOf { place, ty, span } => TypedExpr::AddressOf {
                place: Box::new((**place).clone()),
                ty: ty.clone(),
                span: *span,
            },
            TypedExpr::Dereference { place, ty, span } => TypedExpr::Dereference {
                place: Box::new((**place).clone()),
                ty: ty.clone(),
                span: *span,
            },
            TypedExpr::Layout { kind, ty, target, field, span } => TypedExpr::Layout {
                kind: *kind,
                ty: ty.clone(),
                target: target.clone(),
                field: match field { Some(x) => Some(x.clone()), None => None },
                span: *span,
            },
            TypedExpr::ResultOk { value, ty, span } => TypedExpr::ResultOk {
                value: Box::new((**value).clone()),
                ty: ty.clone(),
                span: *span,
            },
            TypedExpr::ResultErr { value, ty, span } => TypedExpr::ResultErr {
                value: Box::new((**value).clone()),
                ty: ty.clone(),
                span: *span,
            },
            TypedExpr::IsErr { value, ty, span } => TypedExpr::IsErr {
                value: Box::new((**value).clone()),
                ty: ty.clone(),
                span: *span,
            },
            TypedExpr::Unwrap { value, ty, span } => TypedExpr::Unwrap {
                value: Box::new((**value).clone()),
                ty: ty.clone(),
                span: *span,
            },
            TypedExpr::Propagate { value, ty, span } => TypedExpr::Propagate {
                value: Box::new((**value).clone()),
                ty: ty.clone(),
                span: *span,
            },
        }
    }
}

/// Where a value is stored.
#[allow(inconsistent_fields)]
#[derive(Debug, PartialEq)]
pub enum TypedPlace {
    Local { id: LocalId, ty: ResolvedType },
    Global { id: DefId, name: String, ty: ResolvedType },
    /// A value put into storage so that a field or an index of it has a place.
    Temporary { value: Box<TypedExpr>, ty: ResolvedType },
    Field { base: Box<TypedPlace>, index: u32, ty: ResolvedType },
    Index { base: Box<TypedPlace>, index: Box<TypedExpr>, ty: ResolvedType, length: Option<u64>,
        checked: bool },
    Dereference { pointer: Box<TypedExpr>, ty: ResolvedType },
}

/// What a `TypedPlace` holds.
#[allow(inconsistent_fields)]
pub ghost enum TypedPlaceView {
    Local { id: LocalId, ty: ResolvedType },
    Global { id: DefId, name: Seq<char>, ty: ResolvedType },
    Temporary { value: Box<TypedExprView>, ty: ResolvedType },
    Field { base: Box<TypedPlaceView>, index: u32, ty: ResolvedType },
    Index { base: Box<TypedPlaceView>, index: Box<TypedExprView>, ty: ResolvedType,
        length: Option<u64>, checked: bool },
    Dereference { pointer: Box<TypedExprView>, ty: ResolvedType },
}

impl TypedPlace {
    pub open spec fn view(&self) -> TypedPlaceView
        decreases self,
    {
        match self {
            TypedPlace::Local { id, ty } => TypedPlaceView::Local {
                id: *id,
                ty: *ty,
            },
            TypedPlace::Global { id, name, ty } => TypedPlaceView::Global {
                id: *id,
                name: name@,
                ty: *ty,
            },
            TypedPlace::Temporary { value, ty } => TypedPlaceView::Temporary {
                value: Box::new(value.view()),
                ty: *ty,
            },
            TypedPlace::Field { base, index, ty } => TypedPlaceView::Field {
                base: Box::new(base.view()),
                index: *index,
                ty: *ty,
            },
            TypedPlace::Index { base, index, ty, length, checked } => TypedPlaceView::Index {
                base: Box::new(base.view()),
                index: Box::new(index.view()),
                ty: *ty,
                length: *length,
                checked: *checked,
            },
            TypedPlace::Dereference { pointer, ty } => TypedPlaceView::Dereference {
                pointer: Box::new(pointer.view()),
                ty: *ty,
            },
        }
    }
}

impl Clone for TypedPlace {
    fn clone(&self) -> (r: Self)
        ensures
            r@ == self@,
        decreases self,
    {
        match self {
            TypedPlace::Local { id, ty } => TypedPlace::Local {
                id: *id,
                ty: ty.clone(),
            },
            TypedPlace::Global { id, name, ty } => TypedPlace::Global {
                id: *id,
                name: name.clone(),
                ty: ty.clone(),
            },
            TypedPlace::Temporary { value, ty } => TypedPlace::Temporary {
                value: Box::new((**value).clone()),
                ty: ty.clone(),
            },
            TypedPlace::Field { base, index, ty } => TypedPlace::Field {
                base: Box::new((**base).clone()),
                index: *index,
                ty: ty.clone(),
            },
            TypedPlace::Index { base, index, ty, length, checked } => TypedPlace::Index {
                base: Box::new((**base).clone()),
                index: Box::new((**index).clone()),
                ty: ty.clone(),
                length: *length,
                checked: *checked,
            },
            TypedPlace::Dereference { pointer, ty } => TypedPlace::Dereference {
                pointer: Box::new((**pointer).clone()),
                ty: ty.clone(),
            },
        }
    }
}

/// A typed statement.
#[allow(inconsistent_fields)]
#[derive(Debug, PartialEq)]
pub enum TypedStmt {
    If { condition: TypedExpr, then_branch: TypedBlock, else_branch: Option<TypedBlock>,
        span: Span },
    While { condition: TypedExpr, body: TypedBlock, span: Span },
    Break { span: Span },
    Continue { span: Span },
    Defer { function: DefId, name: String, arguments: Vec<TypedExpr>, span: Span },
    Return { value: Option<TypedExpr>, span: Span },
    Declare { id: LocalId, name: String, ty: ResolvedType, mutable: bool, value: TypedExpr,
        span: Span },
    Store { target: TypedPlace, value: TypedExpr, ty: ResolvedType, span: Span },
    Expr { expression: TypedExpr, span: Span },
}

/// What a `TypedStmt` holds.
#[allow(inconsistent_fields)]
pub ghost enum TypedStmtView {
    If { condition: TypedExprView, then_branch: TypedBlockView,
        else_branch: Option<TypedBlockView>, span: Span },
    While { condition: TypedExprView, body: TypedBlockView, span: Span },
    Break { span: Span },
    Continue { span: Span },
    Defer { function: DefId, name: Seq<char>, arguments: Seq<TypedExprView>, span: Span },
    Return { value: Option<TypedExprView>, span: Span },
    Declare { id: LocalId, name: Seq<char>, ty: ResolvedType, mutable: bool, value: TypedExprView,
        span: Span },
    Store { target: TypedPlaceView, value: TypedExprView, ty: ResolvedType, span: Span },
    Expr { expression: TypedExprView, span: Span },
}

impl TypedStmt {
    pub open spec fn view(&self) -> TypedStmtView
        decreases self,
    {
        match self {
            TypedStmt::If { condition, then_branch, else_branch, span } => TypedStmtView::If {
                condition: condition.view(),
                then_branch: then_branch.view(),
                else_branch: match else_branch { Some(x) => Some(x.view()), None => None },
                span: *span,
            },
            TypedStmt::While { condition, body, span } => TypedStmtView::While {
                condition: condition.view(),
                body: body.view(),
                span: *span,
            },
            TypedStmt::Break { span } => TypedStmtView::Break {
                span: *span,
            },
            TypedStmt::Continue { span } => TypedStmtView::Continue {
                span: *span,
            },
            TypedStmt::Defer { function, name, arguments, span } => TypedStmtView::Defer {
                function: *function,
                name: name@,
                arguments: typed_exprs_view(arguments@),
                span: *span,
            },
            TypedStmt::Return { value, span } => TypedStmtView::Return {
                value: match value { Some(x) => Some(x.view()), None => None },
                span: *span,
            },
            TypedStmt::Declare { id, name, ty, mutable, value, span } => TypedStmtView::Declare {
                id: *id,
                name: name@,
                ty: *ty,
                mutable: *mutable,
                value: value.view(),
                span: *span,
            },
            TypedStmt::Store { target, value, ty, span } => TypedStmtView::Store {
                target: target.view(),
                value: value.view(),
                ty: *ty,
                span: *span,
            },
            TypedStmt::Expr { expression, span } => TypedStmtView::Expr {
                expression: expression.view(),
                span: *span,
            },
        }
    }
}

impl Clone for TypedStmt {
    fn clone(&self) -> (r: Self)
        ensures
            r@ == self@,
        decreases self,
    {
        match self {
            TypedStmt::If { condition, then_branch, else_branch, span } => TypedStmt::If {
                condition: condition.clone(),
                then_branch: then_branch.clone(),
                else_branch: match else_branch { Some(x) => Some(x.clone()), None => None },
                span: *span,
            },
            TypedStmt::While { condition, body, span } => TypedStmt::While {
                condition: condition.clone(),
                body: body.clone(),
                span: *span,
            },
            TypedStmt::Break { span } => TypedStmt::Break {
                span: *span,
            },
            TypedStmt::Continue { span } => TypedStmt::Continue {
                span: *span,
            },
            TypedStmt::Defer { function, name, arguments, span } => TypedStmt::Defer {
                function: *function,
                name: name.clone(),
                arguments: typed_exprs_clone(arguments),
                span: *span,
            },
            TypedStmt::Return { value, span } => TypedStmt::Return {
                value: match value { Some(x) => Some(x.clone()), None => None },
                span: *span,
            },
            TypedStmt::Declare { id, name, ty, mutable, value, span } => TypedStmt::Declare {
                id: *id,
                name: name.clone(),
                ty: ty.clone(),
                mutable: *mutable,
                value: value.clone(),
                span: *span,
            },
            TypedStmt::Store { target, value, ty, span } => TypedStmt::Store {
                target: target.clone(),
                value: value.clone(),
                ty: ty.clone(),
                span: *span,
            },
            TypedStmt::Expr { expression, span } => TypedStmt::Expr {
                expression: expression.clone(),
                span: *span,
            },
        }
    }
}

/// Typed statements in braces.
#[derive(Debug, PartialEq)]
pub struct TypedBlock {
    pub statements: Vec<TypedStmt>,
    pub span: Span,
}

/// What a `TypedBlock` holds.
pub ghost struct TypedBlockView {
    pub statements: Seq<TypedStmtView>,
    pub span: Span,
}

impl TypedBlock {
    pub open spec fn view(&self) -> TypedBlockView
        decreases self,
    {
        TypedBlockView {
            statements: typed_stmts_view(self.statements@),
            span: self.span,
        }
    }
}

impl Clone for TypedBlock {
    fn clone(&self) -> (r: Self)
        ensures
            r@ == self@,
        decreases self,
    {
        TypedBlock {
            statements: typed_stmts_clone(&self.statements),
            span: self.span,
        }
    }
}

/// A function's parameter.
#[derive(Debug, PartialEq)]
pub struct TypedParameter {
    pub id: LocalId,
    pub name: String,
    pub ty: ResolvedType,
    pub span: Span,
}

/// What a `TypedParameter` holds.
pub ghost struct TypedParameterView {
    pub id: LocalId,
    pub name: Seq<char>,
    pub ty: ResolvedType,
    pub span: Span,
}

impl TypedParameter {
    pub open spec fn view(&self) -> TypedParameterView
        decreases self,
    {
        TypedParameterView {
            id: self.id,
            name: self.name@,
            ty: self.ty,
            span: self.span,
        }
    }
}

impl Clone for TypedParameter {
    fn clone(&self) -> (r: Self)
        ensures
            r@ == self@,
        decreases self,
    {
        TypedParameter {
            id: self.id,
            name: self.name.clone(),
            ty: self.ty.clone(),
            span: self.span,
        }
    }
}

/// A typed function.
#[derive(Debug, PartialEq)]
pub struct TypedFunction {
    pub id: DefId,
    pub name: String,
    pub params: Vec<TypedParameter>,
    pub return_type: ResolvedType,
    pub body: TypedBlock,
    pub span: Span,
    pub is_extern: bool,
    pub abi: Option<String>,
    pub link_name: Option<String>,
    pub exported: bool,
}

/// What a `TypedFunction` holds.
pub ghost struct TypedFunctionView {
    pub id: DefId,
    pub name: Seq<char>,
    pub params: Seq<TypedParameterView>,
    pub return_type: ResolvedType,
    pub body: TypedBlockView,
    pub span: Span,
    pub is_extern: bool,
    pub abi: Option<Seq<char>>,
    pub link_name: Option<Seq<char>>,
    pub exported: bool,
}

impl TypedFunction {
    pub open spec fn view(&self) -> TypedFunctionView
        decreases self,
    {
        TypedFunctionView {
            id: self.id,
            name: self.name@,
            params: typed_parameters_view(self.params@),
            return_type: self.return_type,
            body: self.body.view(),
            span: self.span,
            is_extern: self.is_extern,
            abi: match self.abi { Some(x) => Some(x@), None => None },
            link_name: match self.link_name { Some(x) => Some(x@), None => None },
            exported: self.exported,
        }
    }
}

impl Clone for TypedFunction {
    fn clone(&self) -> (r: Self)
        ensures
            r@ == self@,
        decreases self,
    {
        TypedFunction {
            id: self.id,
            name: self.name.clone(),
            params: typed_parameters_clone(&self.params),
            return_type: self.return_type.clone(),
            body: self.body.clone(),
            span: self.span,
            is_extern: self.is_extern,
            abi: match &self.abi { Some(x) => Some(x.clone()), None => None },
            link_name: match &self.link_name { Some(x) => Some(x.clone()), None => None },
            exported: self.exported,
        }
    }
}

/// A constant.
#[derive(Debug, PartialEq)]
pub struct TypedConstant {
    pub id: DefId,
    pub name: String,
    pub ty: ResolvedType,
    pub value: TypedExpr,
    pub span: Span,
}

/// What a `TypedConstant` holds.
pub ghost struct TypedConstantView {
    pub id: DefId,
    pub name: Seq<char>,
    pub ty: ResolvedType,
    pub value: TypedExprView,
    pub span: Span,
}

impl TypedConstant {
    pub open spec fn view(&self) -> TypedConstantView
        decreases self,
    {
        TypedConstantView {
            id: self.id,
            name: self.name@,
            ty: self.ty,
            value: self.value.view(),
            span: self.span,
        }
    }
}

impl Clone for TypedConstant {
    fn clone(&self) -> (r: Self)
        ensures
            r@ == self@,
        decreases self,
    {
        TypedConstant {
            id: self.id,
            name: self.name.clone(),
            ty: self.ty.clone(),
            value: self.value.clone(),
            span: self.span,
        }
    }
}

/// A global variable.
#[derive(Debug, PartialEq)]
pub struct TypedGlobal {
    pub id: DefId,
    pub name: String,
    pub ty: ResolvedType,
    pub value: TypedExpr,
    pub span: Span,
}

/// What a `TypedGlobal` holds.
pub ghost struct TypedGlobalView {
    pub id: DefId,
    pub name: Seq<char>,
    pub ty: ResolvedType,
    pub value: TypedExprView,
    pub span: Span,
}

impl TypedGlobal {
    pub open spec fn view(&self) -> TypedGlobalView
        decreases self,
    {
        TypedGlobalView {
            id: self.id,
            name: self.name@,
            ty: self.ty,
            value: self.value.view(),
            span: self.span,
        }
    }
}

impl Clone for TypedGlobal {
    fn clone(&self) -> (r: Self)
        ensures
            r@ == self@,
        decreases self,
    {
        TypedGlobal {
            id: self.id,
            name: self.name.clone(),
            ty: self.ty.clone(),
            value: self.value.clone(),
            span: self.span,
        }
    }
}

/// A field of a struct.
#[derive(Debug, PartialEq)]
pub struct TypedField {
    pub name: String,
    pub ty: ResolvedType,
}

/// What a `TypedField` holds.
pub ghost struct TypedFieldView {
    pub name: Seq<char>,
    pub ty: ResolvedType,
}

impl TypedField {
    pub open spec fn view(&self) -> TypedFieldView
        decreases self,
    {
        TypedFieldView {
            name: self.name@,
            ty: self.ty,
        }
    }
}

impl Clone for TypedField {
    fn clone(&self) -> (r: Self)
        ensures
            r@ == self@,
        decreases self,
    {
        TypedField {
            name: self.name.clone(),
            ty: self.ty.clone(),
        }
    }
}

/// A struct.
#[derive(Debug, PartialEq)]
pub struct TypedStruct {
    pub id: DefId,
    pub name: String,
    pub fields: Vec<TypedField>,
    pub span: Span,
}

/// What a `TypedStruct` holds.
pub ghost struct TypedStructView {
    pub id: DefId,
    pub name: Seq<char>,
    pub fields: Seq<TypedFieldView>,
    pub span: Span,
}

impl TypedStruct {
    pub open spec fn view(&self) -> TypedStructView
        decreases self,
    {
        TypedStructView {
            id: self.id,
            name: self.name@,
            fields: typed_fields_view(self.fields@),
            span: self.span,
        }
    }
}

impl Clone for TypedStruct {
    fn clone(&self) -> (r: Self)
        ensures
            r@ == self@,
        decreases self,
    {
        TypedStruct {
            id: self.id,
            name: self.name.clone(),
            fields: typed_fields_clone(&self.fields),
            span: self.span,
        }
    }
}

/// A declaration, by identity and name.
#[derive(Debug, PartialEq)]
pub struct Definition {
    pub id: DefId,
    pub name: String,
    pub kind: DefinitionKind,
}

/// What a `Definition` holds.
pub ghost struct DefinitionView {
    pub id: DefId,
    pub name: Seq<char>,
    pub kind: DefinitionKind,
}

impl Definition {
    pub open spec fn view(&self) -> DefinitionView
        decreases self,
    {
        DefinitionView {
            id: self.id,
            name: self.name@,
            kind: self.kind,
        }
    }
}

impl Clone for Definition {
    fn clone(&self) -> (r: Self)
        ensures
            r@ == self@,
        decreases self,
    {
        Definition {
            id: self.id,
            name: self.name.clone(),
            kind: self.kind,
        }
    }
}

/// The declarations of a program, in order.
#[derive(Debug, PartialEq)]
pub struct SymbolTable {
    pub definitions: Vec<Definition>,
}

/// What a `SymbolTable` holds.
pub ghost struct SymbolTableView {
    pub definitions: Seq<DefinitionView>,
}

impl SymbolTable {
    pub open spec fn view(&self) -> SymbolTableView
        decreases self,
    {
        SymbolTableView {
            definitions: definitions_view(self.definitions@),
        }
    }
}

impl Clone for SymbolTable {
    fn clone(&self) -> (r: Self)
        ensures
            r@ == self@,
        decreases self,
    {
        SymbolTable {
            definitions: definitions_clone(&self.definitions),
        }
    }
}

/// A program whose names and types are resolved.
#[derive(Debug, PartialEq)]
pub struct TypedProgram {
    pub symbols: SymbolTable,
    /// Identities of the types that reflection and caches speak of.
    pub types: TypeInterner,
    pub structs: Vec<TypedStruct>,
    pub globals: Vec<TypedGlobal>,
    pub constants: Vec<TypedConstant>,
    pub functions: Vec<TypedFunction>,
}

/// What a `TypedProgram` holds.
pub ghost struct TypedProgramView {
    pub symbols: SymbolTableView,
    pub types: TypeInternerView,
    pub structs: Seq<TypedStructView>,
    pub globals: Seq<TypedGlobalView>,
    pub constants: Seq<TypedConstantView>,
    pub functions: Seq<TypedFunctionView>,
}

impl TypedProgram {
    pub open spec fn view(&self) -> TypedProgramView
        decreases self,
    {
        TypedProgramView {
            symbols: self.symbols.view(),
            types: self.types.view(),
            structs: typed_structs_view(self.structs@),
            globals: typed_globals_view(self.globals@),
            constants: typed_constants_view(self.constants@),
            functions: typed_functions_view(self.functions@),
        }
    }
}

impl Clone for TypedProgram {
    fn clone(&self) -> (r: Self)
        ensures
            r@ == self@,
        decreases self,
    {
        TypedProgram {
            symbols: self.symbols.clone(),
            types: self.types.clone(),
            structs: typed_structs_clone(&self.structs),
            globals: typed_globals_clone(&self.globals),
            constants: typed_constants_clone(&self.constants),
            functions: typed_functions_clone(&self.functions),
        }
    }
}

impl TypedExprView {
    /// The expression's type.
    pub open spec fn ty(self) -> ResolvedType {
        match self {
            TypedExprView::Integer { ty, .. } => ty,
            TypedExprView::Float { ty, .. } => ty,
            TypedExprView::Bool { ty, .. } => ty,
            TypedExprView::StructLiteral { ty, .. } => ty,
            TypedExprView::ArrayLiteral { ty, .. } => ty,
            TypedExprView::Load { ty, .. } => ty,
            TypedExprView::GlobalLoad { ty, .. } => ty,
            TypedExprView::Field { ty, .. } => ty,
            TypedExprView::Index { ty, .. } => ty,
            TypedExprView::Unary { ty, .. } => ty,
            TypedExprView::Binary { ty, .. } => ty,
            TypedExprView::Call { ty, .. } => ty,
            TypedExprView::MakeSlice { ty, .. } => ty,
            TypedExprView::LowLevel { ty, .. } => ty,
            TypedExprView::Null { ty, .. } => ty,
            TypedExprView::AddressOf { ty, .. } => ty,
            TypedExprView::Dereference { ty, .. } => ty,
            TypedExprView::Layout { ty, .. } => ty,
            TypedExprView::ResultOk { ty, .. } => ty,
            TypedExprView::ResultErr { ty, .. } => ty,
            TypedExprView::IsErr { ty, .. } => ty,
            TypedExprView::Unwrap { ty, .. } => ty,
            TypedExprView::Propagate { ty, .. } => ty,
        }
    }

    /// Where the expression stands in its source.
    pub open spec fn span(self) -> Span {
        match self {
            TypedExprView::Integer { span, .. } => span,
            TypedExprView::Float { span, .. } => span,
            TypedExprView::Bool { span, .. } => span,
            TypedExprView::StructLiteral { span, .. } => span,
            TypedExprView::ArrayLiteral { span, .. } => span,
            TypedExprView::Load { span, .. } => span,
            TypedExprView::GlobalLoad { span, .. } => span,
            TypedExprView::Field { span, .. } => span,
            TypedExprView::Index { span, .. } => span,
            TypedExprView::Unary { span, .. } => span,
            TypedExprView::Binary { span, .. } => span,
            TypedExprView::Call { span, .. } => span,
            TypedExprView::MakeSlice { span, .. } => span,
            TypedExprView::LowLevel { span, .. } => span,
            TypedExprView::Null { span, .. } => span,
            TypedExprView::AddressOf { span, .. } => span,
            TypedExprView::Dereference { span, .. } => span,
            TypedExprView::Layout { span, .. } => span,
            TypedExprView::ResultOk { span, .. } => span,
            TypedExprView::ResultErr { span, .. } => span,
            TypedExprView::IsErr { span, .. } => span,
            TypedExprView::Unwrap { span, .. } => span,
            TypedExprView::Propagate { span, .. } => span,
        }
    }
}

impl TypedExpr {
    /// The expression's type.
    pub fn ty(&self) -> (r: ResolvedType)
        ensures
            r == self@.ty(),
    {
        match self {
            TypedExpr::Integer { ty, .. } => ty.clone(),
            TypedExpr::Float { ty, .. } => ty.clone(),
            TypedExpr::Bool { ty, .. } => ty.clone(),
            TypedExpr::StructLiteral { ty, .. } => ty.clone(),
            TypedExpr::ArrayLiteral { ty, .. } => ty.clone(),
            TypedExpr::Load { ty, .. } => ty.clone(),
            TypedExpr::GlobalLoad { ty, .. } => ty.clone(),
            TypedExpr::Field { ty, .. } => ty.clone(),
            TypedExpr::Index { ty, .. } => ty.clone(),
            TypedExpr::Unary { ty, .. } => ty.clone(),
            TypedExpr::Binary { ty, .. } => ty.clone(),
            TypedExpr::Call { ty, .. } => ty.clone(),
            TypedExpr::MakeSlice { ty, .. } => ty.clone(),
            TypedExpr::LowLevel { ty, .. } => ty.clone(),
            TypedExpr::Null { ty, .. } => ty.clone(),
            TypedExpr::AddressOf { ty, .. } => ty.clone(),
            TypedExpr::Dereference { ty, .. } => ty.clone(),
            TypedExpr::Layout { ty, .. } => ty.clone(),
            TypedExpr::ResultOk { ty, .. } => ty.clone(),
            TypedExpr::ResultErr { ty, .. } => ty.clone(),
            TypedExpr::IsErr { ty, .. } => ty.clone(),
            TypedExpr::Unwrap { ty, .. } => ty.clone(),
            TypedExpr::Propagate { ty, .. } => ty.clone(),
        }
    }

    /// Where the expression stands in its source.
    pub fn span(&self) -> (r: Span)
        ensures
            r == self@.span(),
    {
        match self {
            TypedExpr::Integer { span, .. } => *span,
            TypedExpr::Float { span, .. } => *span,
            TypedExpr::Bool { span, .. } => *span,
            TypedExpr::StructLiteral { span, .. } => *span,
            TypedExpr::ArrayLiteral { span, .. } => *span,
            TypedExpr::Load { span, .. } => *span,
            TypedExpr::GlobalLoad { span, .. } => *span,
            TypedExpr::Field { span, .. } => *span,
            TypedExpr::Index { span, .. } => *span,
            TypedExpr::Unary { span, .. } => *span,
            TypedExpr::Binary { span, .. } => *span,
            TypedExpr::Call { span, .. } => *span,
            TypedExpr::MakeSlice { span, .. } => *span,
            TypedExpr::LowLevel { span, .. } => *span,
            TypedExpr::Null { span, .. } => *span,
            TypedExpr::AddressOf { span, .. } => *span,
            TypedExpr::Dereference { span, .. } => *span,
            TypedExpr::Layout { span, .. } => *span,
            TypedExpr::ResultOk { span, .. } => *span,
            TypedExpr::ResultErr { span, .. } => *span,
            TypedExpr::IsErr { span, .. } => *span,
            TypedExpr::Unwrap { span, .. } => *span,
            TypedExpr::Propagate { span, .. } => *span,
        }
    }
}

impl TypedPlaceView {
    /// The type of what is stored there.
    pub open spec fn ty(self) -> ResolvedType {
        match self {
            TypedPlaceView::Local { ty, .. } => ty,
            TypedPlaceView::Global { ty, .. } => ty,
            TypedPlaceView::Temporary { ty, .. } => ty,
            TypedPlaceView::Field { ty, .. } => ty,
            TypedPlaceView::Index { ty, .. } => ty,
            TypedPlaceView::Dereference { ty, .. } => ty,
        }
    }
}

impl TypedPlace {
    /// The type of what is stored there.
    pub fn ty(&self) -> (r: ResolvedType)
        ensures
            r == self@.ty(),
    {
        match self {
            TypedPlace::Local { ty, .. } => ty.clone(),
            TypedPlace::Global { ty, .. } => ty.clone(),
            TypedPlace::Temporary { ty, .. } => ty.clone(),
            TypedPlace::Field { ty, .. } => ty.clone(),
            TypedPlace::Index { ty, .. } => ty.clone(),
            TypedPlace::Dereference { ty, .. } => ty.clone(),
        }
    }
}

/// What a list of `TypedExpr` holds.
pub open spec fn typed_exprs_view(s: Seq<TypedExpr>) -> Seq<TypedExprView>
    decreases s,
{
    Seq::new(
        s.len(),
        |i: int|
            if 0 <= i < s.len() {
                s[i].view()
            } else {
                arbitrary()
            },
    )
}

pub broadcast proof fn lemma_typed_exprs_push(s: Seq<TypedExpr>, x: TypedExpr)
    ensures
        #[trigger] typed_exprs_view(s.push(x)) == typed_exprs_view(s).push(x@),
{
    assert(typed_exprs_view(s.push(x)) =~= typed_exprs_view(s).push(x@));
}

pub fn typed_exprs_clone(v: &Vec<TypedExpr>) -> (r: Vec<TypedExpr>)
    ensures
        typed_exprs_view(r@) == typed_exprs_view(v@),
    decreases v,
{
    let mut out: Vec<TypedExpr> = Vec::new();
    for i in 0..v.len()
        invariant
            out.len() == i,
            forall|j: int| 0 <= j < i ==> (#[trigger] out@[j])@ == v@[j]@,
    {
        out.push(v[i].clone());
    }
    assert(typed_exprs_view(out@) =~= typed_exprs_view(v@));
    out
}

/// What a list of `TypedStmt` holds.
pub open spec fn typed_stmts_view(s: Seq<TypedStmt>) -> Seq<TypedStmtView>
    decreases s,
{
    Seq::new(
        s.len(),
        |i: int|
            if 0 <= i < s.len() {
                s[i].view()
            } else {
                arbitrary()
            },
    )
}

pub broadcast proof fn lemma_typed_stmts_push(s: Seq<TypedStmt>, x: TypedStmt)
    ensures
        #[trigger] typed_stmts_view(s.push(x)) == typed_stmts_view(s).push(x@),
{
    assert(typed_stmts_view(s.push(x)) =~= typed_stmts_view(s).push(x@));
}

pub fn typed_stmts_clone(v: &Vec<TypedStmt>) -> (r: Vec<TypedStmt>)
    ensures
        typed_stmts_view(r@) == typed_stmts_view(v@),
    decreases v,
{
    let mut out: Vec<TypedStmt> = Vec::new();
    for i in 0..v.len()
        invariant
            out.len() == i,
            forall|j: int| 0 <= j < i ==> (#[trigger] out@[j])@ == v@[j]@,
    {
        out.push(v[i].clone());
    }
    assert(typed_stmts_view(out@) =~= typed_stmts_view(v@));
    out
}

/// What a list of `TypedParameter` holds.
pub open spec fn typed_parameters_view(s: Seq<TypedParameter>) -> Seq<TypedParameterView>
    decreases s,
{
    Seq::new(
        s.len(),
        |i: int|
            if 0 <= i < s.len() {
                s[i].view()
            } else {
                arbitrary()
            },
    )
}

pub broadcast proof fn lemma_typed_parameters_push(s: Seq<TypedParameter>, x: TypedParameter)
    ensures
        #[trigger] typed_parameters_view(s.push(x)) == typed_parameters_view(s).push(x@),
{
    assert(typed_parameters_view(s.push(x)) =~= typed_parameters_view(s).push(x@));
}

pub fn typed_parameters_clone(v: &Vec<TypedParameter>) -> (r: Vec<TypedParameter>)
    ensures
        typed_parameters_view(r@) == typed_parameters_view(v@),
    decreases v,
{
    let mut out: Vec<TypedParameter> = Vec::new();
    for i in 0..v.len()
        invariant
            out.len() == i,
            forall|j: int| 0 <= j < i ==> (#[trigger] out@[j])@ == v@[j]@,
    {
        out.push(v[i].clone());
    }
    assert(typed_parameters_view(out@) =~= typed_parameters_view(v@));
    out
}

/// What a list of `TypedField` holds.
pub open spec fn typed_fields_view(s: Seq<TypedField>) -> Seq<TypedFieldView>
    decreases s,
{
    Seq::new(
        s.len(),
        |i: int|
            if 0 <= i < s.len() {
                s[i].view()
            } else {
                arbitrary()
            },
    )
}

pub broadcast proof fn lemma_typed_fields_push(s: Seq<TypedField>, x: TypedField)
    ensures
        #[trigger] typed_fields_view(s.push(x)) == typed_fields_view(s).push(x@),
{
    assert(typed_fields_view(s.push(x)) =~= typed_fields_view(s).push(x@));
}

pub fn typed_fields_clone(v: &Vec<TypedField>) -> (r: Vec<TypedField>)
    ensures
        typed_fields_view(r@) == typed_fields_view(v@),
    decreases v,
{
    let mut out: Vec<TypedField> = Vec::new();
    for i in 0..v.len()
        invariant
            out.len() == i,
            forall|j: int| 0 <= j < i ==> (#[trigger] out@[j])@ == v@[j]@,
    {
        out.push(v[i].clone());
    }
    assert(typed_fields_view(out@) =~= typed_fields_view(v@));
    out
}

/// What a list of `TypedStruct` holds.
pub open spec fn typed_structs_view(s: Seq<TypedStruct>) -> Seq<TypedStructView>
    decreases s,
{
    Seq::new(
        s.len(),
        |i: int|
            if 0 <= i < s.len() {
                s[i].view()
            } else {
                arbitrary()
            },
    )
}

pub broadcast proof fn lemma_typed_structs_push(s: Seq<TypedStruct>, x: TypedStruct)
    ensures
        #[trigger] typed_structs_view(s.push(x)) == typed_structs_view(s).push(x@),
{
    assert(typed_structs_view(s.push(x)) =~= typed_structs_view(s).push(x@));
}

pub fn typed_structs_clone(v: &Vec<TypedStruct>) -> (r: Vec<TypedStruct>)
    ensures
        typed_structs_view(r@) == typed_structs_view(v@),
    decreases v,
{
    let mut out: Vec<TypedStruct> = Vec::new();
    for i in 0..v.len()
        invariant
            out.len() == i,
            forall|j: int| 0 <= j < i ==> (#[trigger] out@[j])@ == v@[j]@,
    {
        out.push(v[i].clone());
    }
    assert(typed_structs_view(out@) =~= typed_structs_view(v@));
    out
}

/// What a list of `TypedGlobal` holds.
pub open spec fn typed_globals_view(s: Seq<TypedGlobal>) -> Seq<TypedGlobalView>
    decreases s,
{
    Seq::new(
        s.len(),
        |i: int|
            if 0 <= i < s.len() {
                s[i].view()
            } else {
                arbitrary()
            },
    )
}

pub broadcast proof fn lemma_typed_globals_push(s: Seq<TypedGlobal>, x: TypedGlobal)
    ensures
        #[trigger] typed_globals_view(s.push(x)) == typed_globals_view(s).push(x@),
{
    assert(typed_globals_view(s.push(x)) =~= typed_globals_view(s).push(x@));
}

pub fn typed_globals_clone(v: &Vec<TypedGlobal>) -> (r: Vec<TypedGlobal>)
    ensures
        typed_globals_view(r@) == typed_globals_view(v@),
    decreases v,
{
    let mut out: Vec<TypedGlobal> = Vec::new();
    for i in 0..v.len()
        invariant
            out.len() == i,
            forall|j: int| 0 <= j < i ==> (#[trigger] out@[j])@ == v@[j]@,
    {
        out.push(v[i].clone());
    }
    assert(typed_globals_view(out@) =~= typed_globals_view(v@));
    out
}

/// What a list of `TypedConstant` holds.
pub open spec fn typed_constants_view(s: Seq<TypedConstant>) -> Seq<TypedConstantView>
    decreases s,
{
    Seq::new(
        s.len(),
        |i: int|
            if 0 <= i < s.len() {
                s[i].view()
            } else {
                arbitrary()
            },
    )
}

pub broadcast proof fn lemma_typed_constants_push(s: Seq<TypedConstant>, x: TypedConstant)
    ensures
        #[trigger] typed_constants_view(s.push(x)) == typed_constants_view(s).push(x@),
{
    assert(typed_constants_view(s.push(x)) =~= typed_constants_view(s).push(x@));
}

pub fn typed_constants_clone(v: &Vec<TypedConstant>) -> (r: Vec<TypedConstant>)
    ensures
        typed_constants_view(r@) == typed_constants_view(v@),
    decreases v,
{
    let mut out: Vec<TypedConstant> = Vec::new();
    for i in 0..v.len()
        invariant
            out.len() == i,
            forall|j: int| 0 <= j < i ==> (#[trigger] out@[j])@ == v@[j]@,
    {
        out.push(v[i].clone());
    }
    assert(typed_constants_view(out@) =~= typed_constants_view(v@));
    out
}

/// What a list of `TypedFunction` holds.
pub open spec fn typed_functions_view(s: Seq<TypedFunction>) -> Seq<TypedFunctionView>
    decreases s,
{
    Seq::new(
        s.len(),
        |i: int|
            if 0 <= i < s.len() {
                s[i].view()
            } else {
                arbitrary()
            },
    )
}

pub broadcast proof fn lemma_typed_functions_push(s: Seq<TypedFunction>, x: TypedFunction)
    ensures
        #[trigger] typed_functions_view(s.push(x)) == typed_functions_view(s).push(x@),
{
    assert(typed_functions_view(s.push(x)) =~= typed_functions_view(s).push(x@));
}

pub fn typed_functions_clone(v: &Vec<TypedFunction>) -> (r: Vec<TypedFunction>)
    ensures
        typed_functions_view(r@) == typed_functions_view(v@),
    decreases v,
{
    let mut out: Vec<TypedFunction> = Vec::new();
    for i in 0..v.len()
        invariant
            out.len() == i,
            forall|j: int| 0 <= j < i ==> (#[trigger] out@[j])@ == v@[j]@,
    {
        out.push(v[i].clone());
    }
    assert(typed_functions_view(out@) =~= typed_functions_view(v@));
    out
}

/// What a list of `Definition` holds.
pub open spec fn definitions_view(s: Seq<Definition>) -> Seq<DefinitionView>
    decreases s,
{
    Seq::new(
        s.len(),
        |i: int|
            if 0 <= i < s.len() {
                s[i].view()
            } else {
                arbitrary()
            },
    )
}

pub broadcast proof fn lemma_definitions_push(s: Seq<Definition>, x: Definition)
    ensures
        #[trigger] definitions_view(s.push(x)) == definitions_view(s).push(x@),
{
    assert(definitions_view(s.push(x)) =~= definitions_view(s).push(x@));
}

pub fn definitions_clone(v: &Vec<Definition>) -> (r: Vec<Definition>)
    ensures
        definitions_view(r@) == definitions_view(v@),
    decreases v,
{
    let mut out: Vec<Definition> = Vec::new();
    for i in 0..v.len()
        invariant
            out.len() == i,
            forall|j: int| 0 <= j < i ==> (#[trigger] out@[j])@ == v@[j]@,
    {
        out.push(v[i].clone());
    }
    assert(definitions_view(out@) =~= definitions_view(v@));
    out
}

/// The first definition from `i` on that has the identity.
pub open spec fn definition_by_id(
    definitions: Seq<DefinitionView>,
    i: int,
    id: DefId,
) -> Option<DefinitionView>
    decreases definitions.len() - i,
{
    if i < 0 || i >= definitions.len() {
        None
    } else if definitions[i].id == id {
        Some(definitions[i])
    } else {
        definition_by_id(definitions, i + 1, id)
    }
}

/// The first definition from `i` on that has the name.
pub open spec fn definition_by_name(
    definitions: Seq<DefinitionView>,
    i: int,
    name: Seq<char>,
) -> Option<DefinitionView>
    decreases definitions.len() - i,
{
    if i < 0 || i >= definitions.len() {
        None
    } else if definitions[i].name == name {
        Some(definitions[i])
    } else {
        definition_by_name(definitions, i + 1, name)
    }
}

impl SymbolTable {
    pub fn get(&self, id: DefId) -> (r: Option<&Definition>)
        ensures
            match r {
                Some(found) => definition_by_id(self@.definitions, 0, id) == Some(found@),
                None => definition_by_id(self@.definitions, 0, id) is None,
            },
    {
        for i in 0..self.definitions.len()
            invariant
                definition_by_id(self@.definitions, 0, id) == definition_by_id(
                    self@.definitions,
                    i as int,
                    id,
                ),
        {
            if self.definitions[i].id == id {
                return Some(&self.definitions[i]);
            }
        }
        None
    }

    pub fn find(&self, name: &str) -> (r: Option<&Definition>)
        ensures
            match r {
                Some(found) => definition_by_name(self@.definitions, 0, name@) == Some(found@),
                None => definition_by_name(self@.definitions, 0, name@) is None,
            },
    {
        for i in 0..self.definitions.len()
            invariant
                definition_by_name(self@.definitions, 0, name@) == definition_by_name(
                    self@.definitions,
                    i as int,
                    name@,
                ),
        {
            if text_is(&self.definitions[i].name, name) {
                return Some(&self.definitions[i]);
            }
        }
        None
    }
}

pub broadcast group group_typed_lists {
    lemma_typed_exprs_push,
    lemma_typed_stmts_push,
    lemma_typed_parameters_push,
    lemma_typed_fields_push,
    lemma_typed_structs_push,
    lemma_typed_globals_push,
    lemma_typed_constants_push,
    lemma_typed_functions_push,
    lemma_definitions_push,
}

} // verus!
