//! The extension framework's data model: generic arguments, type
//! information, library-function signatures, and the specialization
//! contexts that answer type queries during specialization.

use vstd::prelude::*;
use crate::ids::{ConcreteTypeId, GenericTypeId};

verus! {

/// One argument of a generic declaration.
#[derive(Debug, PartialEq, Eq)]
pub enum GenericArg {
    Type(ConcreteTypeId),
    Value(i64),
}

/// Two generic arguments carrying the same content.
pub open spec fn generic_arg_like(a: GenericArg, b: GenericArg) -> bool {
    match (a, b) {
        (GenericArg::Type(x), GenericArg::Type(y)) => x.0@ == y.0@,
        (GenericArg::Value(x), GenericArg::Value(y)) => x == y,
        _ => false,
    }
}

impl GenericArg {
    /// A fresh argument with the same content.
    pub fn duplicate(&self) -> (r: GenericArg)
        ensures
            generic_arg_like(r, *self),
    {
        match self {
            GenericArg::Type(t) => GenericArg::Type(t.duplicate()),
            GenericArg::Value(v) => GenericArg::Value(*v),
        }
    }
}

/// The long id of a concrete type: the generic type it instantiates and
/// the arguments it was instantiated with.
#[derive(Debug, PartialEq, Eq)]
pub struct ConcreteTypeLongId {
    pub generic_id: GenericTypeId,
    pub generic_args: Vec<GenericArg>,
}

/// Properties of a concrete type.
#[derive(Debug, PartialEq, Eq)]
pub struct TypeInfo {
    /// The long id of the type.
    pub long_id: ConcreteTypeLongId,
    /// Can a value of the type be stored in a variable.
    pub storable: bool,
    /// Can a value of the type be discarded without explicit cleanup.
    pub droppable: bool,
    /// Can a value of the type be copied without explicit duplication.
    pub duplicatable: bool,
    /// The size of the type in memory cells.
    pub size: u64,
}

/// Two type informations carrying the same content.
pub open spec fn type_info_like(a: TypeInfo, b: TypeInfo) -> bool {
    &&& a.long_id.generic_id.0@ == b.long_id.generic_id.0@
    &&& a.long_id.generic_args@.len() == b.long_id.generic_args@.len()
    &&& forall|i: int|
        0 <= i < a.long_id.generic_args@.len() ==> generic_arg_like(
            #[trigger] a.long_id.generic_args@[i],
            b.long_id.generic_args@[i],
        )
    &&& a.storable == b.storable
    &&& a.droppable == b.droppable
    &&& a.duplicatable == b.duplicatable
    &&& a.size == b.size
}

impl TypeInfo {
    /// A fresh value with the same content.
    pub fn duplicate(&self) -> (r: TypeInfo)
        ensures
            type_info_like(r, *self),
    {
        let mut args: Vec<GenericArg> = Vec::new();
        let mut i: usize = 0;
        while i < self.long_id.generic_args.len()
            invariant
                i <= self.long_id.generic_args@.len(),
                args@.len() == i,
                forall|j: int|
                    0 <= j < i ==> generic_arg_like(
                        #[trigger] args@[j],
                        self.long_id.generic_args@[j],
                    ),
            decreases self.long_id.generic_args@.len() - i,
        {
            args.push(self.long_id.generic_args[i].duplicate());
            i = i + 1;
        }
        TypeInfo {
            long_id: ConcreteTypeLongId {
                generic_id: GenericTypeId(String::from_str(self.long_id.generic_id.0.as_str())),
                generic_args: args,
            },
            storable: self.storable,
            droppable: self.droppable,
            duplicatable: self.duplicatable,
            size: self.size,
        }
    }
}

/// A concrete type that carries nothing but its type information.
#[derive(Debug, PartialEq, Eq)]
pub struct InfoOnlyConcreteType {
    pub info: TypeInfo,
}

/// A parameter of a library function's signature.
#[derive(Debug, PartialEq, Eq)]
pub struct ParamSignature {
    pub ty: ConcreteTypeId,
}

impl ParamSignature {
    /// A parameter of the given type.
    pub fn new(ty: ConcreteTypeId) -> (r: ParamSignature)
        ensures
            r.ty == ty,
    {
        ParamSignature { ty }
    }
}

/// How an output of a branch is materialized.
#[derive(Debug, PartialEq, Eq)]
pub enum DeferredOutputKind {
    /// A generic deferred output.
    Generic,
    /// The output equals a parameter plus a constant.
    AddConst { param_idx: usize },
}

/// Reference information of one output variable.
#[derive(Debug, PartialEq, Eq)]
pub enum OutputVarReferenceInfo {
    /// The output is computed later, when first used.
    Deferred(DeferredOutputKind),
    /// The output is the same cell as a parameter.
    SameAsParam { param_idx: usize },
}

/// One output variable of a branch.
#[derive(Debug, PartialEq, Eq)]
pub struct OutputVarInfo {
    pub ty: ConcreteTypeId,
    pub ref_info: OutputVarReferenceInfo,
}

/// The change in the allocation pointer a branch causes.
#[derive(Debug, PartialEq, Eq)]
pub enum SierraApChange {
    /// A known change of the given magnitude.
    Known(usize),
    /// Known, and only new variables were introduced.
    KnownNewVarsOnly,
}

/// One branch of a library function.
#[derive(Debug, PartialEq, Eq)]
pub struct BranchSignature {
    pub vars: Vec<OutputVarInfo>,
    pub ap_change: SierraApChange,
}

/// The full signature of a concrete library function.
#[derive(Debug, PartialEq, Eq)]
pub struct LibFuncSignature {
    pub param_signatures: Vec<ParamSignature>,
    pub branch_signatures: Vec<BranchSignature>,
    /// The index of the branch that continues to the next instruction.
    pub fallthrough: Option<usize>,
}

impl LibFuncSignature {
    /// A signature with a single branch: every call continues to the next
    /// instruction.
    pub fn new_non_branch(
        input_types: Vec<ConcreteTypeId>,
        output_info: Vec<OutputVarInfo>,
        ap_change: SierraApChange,
    ) -> (r: LibFuncSignature)
        ensures
            r.param_signatures@.len() == input_types@.len(),
            forall|i: int|
                0 <= i < input_types@.len() ==> (#[trigger] r.param_signatures@[i]).ty
                    == input_types@[i],
            r.branch_signatures@.len() == 1,
            r.branch_signatures@[0].vars == output_info,
            r.branch_signatures@[0].ap_change == ap_change,
            r.fallthrough == Some(0usize),
    {
        let ghost in_tys = input_types@;
        let mut params: Vec<ParamSignature> = Vec::new();
        let mut input_types = input_types;
        let mut i: usize = 0;
        let n = input_types.len();
        while i < n
            invariant
                i <= n,
                n == in_tys.len(),
                input_types@.len() == n - i,
                input_types@ == in_tys.skip(i as int),
                params@.len() == i,
                forall|j: int| 0 <= j < i ==> (#[trigger] params@[j]).ty == in_tys[j],
            decreases n - i,
        {
            let ty = input_types.remove(0);
            proof {
                assert(ty == in_tys[i as int]);
                assert(input_types@ =~= in_tys.skip(i + 1));
            }
            params.push(ParamSignature { ty });
            i = i + 1;
        }
        let mut branches: Vec<BranchSignature> = Vec::new();
        branches.push(BranchSignature { vars: output_info, ap_change });
        LibFuncSignature { param_signatures: params, branch_signatures: branches, fallthrough: Some(
            0usize,
        ) }
    }
}

/// Specialization failed.
#[derive(Clone, Copy, Debug, PartialEq, Eq, Structural)]
pub enum SpecializationError {
    /// The wrong number of generic arguments was supplied.
    WrongNumberOfGenericArgs,
    /// A generic argument of an unsupported kind was supplied.
    UnsupportedGenericArg,
    /// A queried id is not known to the context.
    UnsupportedId,
}

/// Extracts the single type argument of a generic declaration.
pub fn as_single_type(args: &Vec<GenericArg>) -> (res: Result<ConcreteTypeId, SpecializationError>)
    ensures
        match res {
            Ok(ty) => args@.len() == 1 && (args@[0] matches GenericArg::Type(t) && ty.0@ == t.0@),
            Err(e) => {
                ||| args@.len() != 1 && e == SpecializationError::WrongNumberOfGenericArgs
                ||| args@.len() == 1 && !(args@[0] is Type)
                    && e == SpecializationError::UnsupportedGenericArg
            },
        },
{
    if args.len() != 1 {
        return Err(SpecializationError::WrongNumberOfGenericArgs);
    }
    match &args[0] {
        GenericArg::Type(t) => Ok(t.duplicate()),
        GenericArg::Value(_) => Err(SpecializationError::UnsupportedGenericArg),
    }
}

/// First concrete type registered for a parameterless generic type of the
/// given name.
pub open spec fn find_plain(
    s: Seq<(GenericTypeId, ConcreteTypeId)>,
    name: Seq<char>,
) -> Option<Seq<char>>
    decreases s.len(),
{
    if s.len() == 0 {
        None
    } else if s[0].0.0@ == name {
        Some(s[0].1.0@)
    } else {
        find_plain(s.drop_first(), name)
    }
}

/// First concrete type registered for a one-parameter generic type of the
/// given name at the given argument.
pub open spec fn find_wrapped(
    s: Seq<(GenericTypeId, ConcreteTypeId, ConcreteTypeId)>,
    name: Seq<char>,
    arg: Seq<char>,
) -> Option<Seq<char>>
    decreases s.len(),
{
    if s.len() == 0 {
        None
    } else if s[0].0.0@ == name && s[0].1.0@ == arg {
        Some(s[0].2.0@)
    } else {
        find_wrapped(s.drop_first(), name, arg)
    }
}

/// First type information registered for a concrete type.
pub open spec fn find_info(s: Seq<(ConcreteTypeId, TypeInfo)>, ty: Seq<char>) -> Option<TypeInfo>
    decreases s.len(),
{
    if s.len() == 0 {
        None
    } else if s[0].0.0@ == ty {
        Some(s[0].1)
    } else {
        find_info(s.drop_first(), ty)
    }
}

/// The read-only context signature specialization queries: which concrete
/// types exist for the generic types it asks about.
#[derive(Debug, PartialEq, Eq)]
pub struct SignatureSpecializationContext {
    /// Concrete types of parameterless generic types.
    pub plain_types: Vec<(GenericTypeId, ConcreteTypeId)>,
    /// Concrete types of one-type-parameter generic types.
    pub wrapped_types: Vec<(GenericTypeId, ConcreteTypeId, ConcreteTypeId)>,
}

impl SignatureSpecializationContext {
    /// The concrete type for a parameterless generic type, by name.
    pub open spec fn spec_get_concrete_type(self, name: Seq<char>) -> Option<Seq<char>> {
        find_plain(self.plain_types@, name)
    }

    /// The concrete type wrapping one type argument, by name and argument.
    pub open spec fn spec_get_wrapped_concrete_type(self, name: Seq<char>, arg: Seq<char>) -> Option<
        Seq<char>,
    > {
        find_wrapped(self.wrapped_types@, name, arg)
    }

    /// Queries the concrete type for a parameterless generic type.
    pub fn get_concrete_type(&self, id: &GenericTypeId) -> (res: Option<ConcreteTypeId>)
        ensures
            match res {
                Some(c) => self.spec_get_concrete_type(id.0@) == Some(c.0@),
                None => self.spec_get_concrete_type(id.0@) is None,
            },
    {
        let mut i: usize = 0;
        assert(self.plain_types@.skip(0) =~= self.plain_types@);
        while i < self.plain_types.len()
            invariant
                i <= self.plain_types@.len(),
                find_plain(self.plain_types@, id.0@) == find_plain(
                    self.plain_types@.skip(i as int),
                    id.0@,
                ),
            decreases self.plain_types@.len() - i,
        {
            if self.plain_types[i].0.0 == id.0 {
                assert(self.plain_types@.skip(i as int)[0] == self.plain_types@[i as int]);
                return Some(self.plain_types[i].1.duplicate());
            }
            assert(self.plain_types@.skip(i as int)[0] == self.plain_types@[i as int]);
            assert(self.plain_types@.skip(i as int).drop_first() =~= self.plain_types@.skip(
                i + 1,
            ));
            i = i + 1;
        }
        assert(self.plain_types@.skip(i as int).len() == 0);
        None
    }

    /// Queries the concrete type wrapping the given argument.
    pub fn get_wrapped_concrete_type(&self, id: &GenericTypeId, ty: &ConcreteTypeId) -> (res:
        Option<ConcreteTypeId>)
        ensures
            match res {
                Some(c) => self.spec_get_wrapped_concrete_type(id.0@, ty.0@) == Some(c.0@),
                None => self.spec_get_wrapped_concrete_type(id.0@, ty.0@) is None,
            },
    {
        let mut i: usize = 0;
        assert(self.wrapped_types@.skip(0) =~= self.wrapped_types@);
        while i < self.wrapped_types.len()
            invariant
                i <= self.wrapped_types@.len(),
                find_wrapped(self.wrapped_types@, id.0@, ty.0@) == find_wrapped(
                    self.wrapped_types@.skip(i as int),
                    id.0@,
                    ty.0@,
                ),
            decreases self.wrapped_types@.len() - i,
        {
            if self.wrapped_types[i].0.0 == id.0 && self.wrapped_types[i].1.0 == ty.0 {
                assert(self.wrapped_types@.skip(i as int)[0] == self.wrapped_types@[i as int]);
                return Some(self.wrapped_types[i].2.duplicate());
            }
            assert(self.wrapped_types@.skip(i as int)[0] == self.wrapped_types@[i as int]);
            assert(self.wrapped_types@.skip(i as int).drop_first() =~= self.wrapped_types@.skip(
                i + 1,
            ));
            i = i + 1;
        }
        assert(self.wrapped_types@.skip(i as int).len() == 0);
        None
    }
}

/// The read-only context type specialization queries: the properties of
/// the concrete types it asks about.
#[derive(Debug, PartialEq, Eq)]
pub struct TypeSpecializationContext {
    /// Type information by concrete type.
    pub type_infos: Vec<(ConcreteTypeId, TypeInfo)>,
}

impl TypeSpecializationContext {
    /// The registered information of a concrete type.
    pub open spec fn spec_get_type_info(self, ty: Seq<char>) -> Option<TypeInfo> {
        find_info(self.type_infos@, ty)
    }

    /// Queries the information of a concrete type.
    pub fn get_type_info(&self, ty: &ConcreteTypeId) -> (res: Option<TypeInfo>)
        ensures
            match res {
                Some(info) => self.spec_get_type_info(ty.0@) matches Some(stored)
                    && type_info_like(info, stored),
                None => self.spec_get_type_info(ty.0@) is None,
            },
    {
        let mut i: usize = 0;
        assert(self.type_infos@.skip(0) =~= self.type_infos@);
        while i < self.type_infos.len()
            invariant
                i <= self.type_infos@.len(),
                find_info(self.type_infos@, ty.0@) == find_info(
                    self.type_infos@.skip(i as int),
                    ty.0@,
                ),
            decreases self.type_infos@.len() - i,
        {
            if self.type_infos[i].0.0 == ty.0 {
                assert(self.type_infos@.skip(i as int)[0] == self.type_infos@[i as int]);
                return Some(self.type_infos[i].1.duplicate());
            }
            assert(self.type_infos@.skip(i as int)[0] == self.type_infos@[i as int]);
            assert(self.type_infos@.skip(i as int).drop_first() =~= self.type_infos@.skip(i + 1));
            i = i + 1;
        }
        assert(self.type_infos@.skip(i as int).len() == 0);
        None
    }
}

} // verus!
