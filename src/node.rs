//! Declarations and types of the syntax tree, and their wire forms.
use std::marker::PhantomData;

use vstd::prelude::*;
use vstd::seq_lib::lemma_concat_associative;

use vstd::utf8::{decode_utf8, encode_utf8, valid_utf8};

use crate::codec::{
    decode_list, decode_option, encode_list, encode_option, lemma_list_round_trip, list_encodable,
    list_parse, list_wire, option_encodable, option_wire, read_bytes, views, write_bytes, Codec,
};
use crate::error::{KernelError, SumKind};
use crate::flags::{
    ClassFlags, CombinatorFlags, ConstructorFlags, DependencyFlags, DynamicCastFlags, FieldFlags,
    InvocationFlags, LibraryFlags, ProcedureFlags, VarDeclFlags,
};
use crate::prim::{
    lemma_u32_round_trip, lemma_uint_round_trip, read_u32, read_u8, string_from_utf8, u32_at,
    u32_bytes, u32_parse, u8_parse, uint_bytes, uint_parse, write_u32, CanonicalName,
    CanonicalNameRef, StrRef,
    ComponentRef, ConstantRef, DependencyRef, FileOffset, FileRange, StringRef, Uint, UriRef, Utf8,
    UINT_LIMIT,
};
use crate::expr::{Arguments, Assert, Expr, Stmt, VarDecl, arguments_encodable, arguments_wire, assert_encodable, assert_wire, decode_arguments, decode_assert, decode_expr, decode_expr_list, decode_stmt, decode_var_decl, decode_var_decl_list, encode_arguments, encode_assert, encode_expr, encode_expr_list, encode_stmt, encode_var_decl, encode_var_decl_list, expr_encodable, expr_items_encodable, expr_items_wire, expr_wire, stmt_encodable, stmt_wire, var_decl_encodable, var_decl_items_encodable, var_decl_items_wire, var_decl_wire};

verus! {

/// A redirecting factory; it carries no fields on the wire.
#[derive(Debug, Default, PartialEq)]
pub struct RedirectingFactory {}

/// The show or hide clause of an extension; it carries no fields on the wire.
#[derive(Debug, Default, PartialEq)]
pub struct ExtensionShowClause {}

/// The nullability of a type: nullable, non-nullable, undetermined or legacy.
#[derive(Debug, Clone, Copy, PartialEq, Eq, Structural)]
pub enum Nullable {
    True,
    False,
    Neither,
    Legacy,
}

impl Default for Nullable {
    fn default() -> (r: Self)
        ensures
            r == Nullable::False,
    {
        Nullable::False
    }
}

impl Nullable {
    /// The wire byte of each variant.
    pub open spec fn spec_tag(&self) -> u8 {
        match self {
            Nullable::True => 0,
            Nullable::False => 1,
            Nullable::Neither => 2,
            Nullable::Legacy => 3,
        }
    }

    pub open spec fn from_tag(b: u8) -> Option<Nullable> {
        if b == 0 {
            Some(Nullable::True)
        } else if b == 1 {
            Some(Nullable::False)
        } else if b == 2 {
            Some(Nullable::Neither)
        } else if b == 3 {
            Some(Nullable::Legacy)
        } else {
            None
        }
    }
}

impl DeepView for Nullable {
    type V = Nullable;

    open spec fn deep_view(&self) -> Nullable {
        *self
    }
}

impl Codec for Nullable {
    open spec fn encodable(&self) -> bool {
        true
    }

    open spec fn wire(&self) -> Seq<u8> {
        seq![self.spec_tag()]
    }

    open spec fn parse(d: Seq<u8>, p: int) -> Option<(Nullable, int)> {
        match u8_parse(d, p) {
            Some((b, q)) => match Nullable::from_tag(b) {
                Some(v) => Some((v, q)),
                None => None,
            },
            None => None,
        }
    }

    proof fn lemma_round_trip(&self, pre: Seq<u8>, rest: Seq<u8>) {
        assert((pre + self.wire() + rest)[pre.len() as int] == self.spec_tag());
    }

    fn encode(&self, out: &mut Vec<u8>) -> (r: Result<(), KernelError>) {
        let b: u8 = match self {
            Nullable::True => 0,
            Nullable::False => 1,
            Nullable::Neither => 2,
            Nullable::Legacy => 3,
        };
        out.push(b);
        assert(out@ =~= old(out)@ + self.wire());
        Ok(())
    }

    fn decode(data: &[u8], pos: &mut usize) -> (r: Result<Nullable, KernelError>) {
        let b = read_u8(data, pos)?;
        match b {
            0u8 => Ok(Nullable::True),
            1u8 => Ok(Nullable::False),
            2u8 => Ok(Nullable::Neither),
            3u8 => Ok(Nullable::Legacy),
            _ => Err(KernelError::UnknownTag { sum: SumKind::Nullable, tag: b }),
        }
    }
}

/// The kind of a procedure.
#[derive(Debug, Clone, Copy, PartialEq, Eq, Structural)]
pub enum ProcedureKind {
    Method,
    Getter,
    Setter,
    Operator,
    Factory,
}

impl Default for ProcedureKind {
    fn default() -> (r: Self)
        ensures
            r == ProcedureKind::Method,
    {
        ProcedureKind::Method
    }
}

impl ProcedureKind {
    /// The wire byte of each variant.
    pub open spec fn spec_tag(&self) -> u8 {
        match self {
            ProcedureKind::Method => 0,
            ProcedureKind::Getter => 1,
            ProcedureKind::Setter => 2,
            ProcedureKind::Operator => 3,
            ProcedureKind::Factory => 4,
        }
    }

    pub open spec fn from_tag(b: u8) -> Option<ProcedureKind> {
        if b == 0 {
            Some(ProcedureKind::Method)
        } else if b == 1 {
            Some(ProcedureKind::Getter)
        } else if b == 2 {
            Some(ProcedureKind::Setter)
        } else if b == 3 {
            Some(ProcedureKind::Operator)
        } else if b == 4 {
            Some(ProcedureKind::Factory)
        } else {
            None
        }
    }
}

impl DeepView for ProcedureKind {
    type V = ProcedureKind;

    open spec fn deep_view(&self) -> ProcedureKind {
        *self
    }
}

impl Codec for ProcedureKind {
    open spec fn encodable(&self) -> bool {
        true
    }

    open spec fn wire(&self) -> Seq<u8> {
        seq![self.spec_tag()]
    }

    open spec fn parse(d: Seq<u8>, p: int) -> Option<(ProcedureKind, int)> {
        match u8_parse(d, p) {
            Some((b, q)) => match ProcedureKind::from_tag(b) {
                Some(v) => Some((v, q)),
                None => None,
            },
            None => None,
        }
    }

    proof fn lemma_round_trip(&self, pre: Seq<u8>, rest: Seq<u8>) {
        assert((pre + self.wire() + rest)[pre.len() as int] == self.spec_tag());
    }

    fn encode(&self, out: &mut Vec<u8>) -> (r: Result<(), KernelError>) {
        let b: u8 = match self {
            ProcedureKind::Method => 0,
            ProcedureKind::Getter => 1,
            ProcedureKind::Setter => 2,
            ProcedureKind::Operator => 3,
            ProcedureKind::Factory => 4,
        };
        out.push(b);
        assert(out@ =~= old(out)@ + self.wire());
        Ok(())
    }

    fn decode(data: &[u8], pos: &mut usize) -> (r: Result<ProcedureKind, KernelError>) {
        let b = read_u8(data, pos)?;
        match b {
            0u8 => Ok(ProcedureKind::Method),
            1u8 => Ok(ProcedureKind::Getter),
            2u8 => Ok(ProcedureKind::Setter),
            3u8 => Ok(ProcedureKind::Operator),
            4u8 => Ok(ProcedureKind::Factory),
            _ => Err(KernelError::UnknownTag { sum: SumKind::ProcedureKind, tag: b }),
        }
    }
}

/// Whether a procedure is a stub, and of which kind.
#[derive(Debug, Clone, Copy, PartialEq, Eq, Structural)]
pub enum ProcedureStubKind {
    Regular,
    AbstractForwarder,
    ConcreteForwarder,
    NoSuchMethodForwarder,
    MemberSignature,
    AbstractMixin,
    ConcreteMixin,
}

impl Default for ProcedureStubKind {
    fn default() -> (r: Self)
        ensures
            r == ProcedureStubKind::Regular,
    {
        ProcedureStubKind::Regular
    }
}

impl ProcedureStubKind {
    /// The wire byte of each variant.
    pub open spec fn spec_tag(&self) -> u8 {
        match self {
            ProcedureStubKind::Regular => 0,
            ProcedureStubKind::AbstractForwarder => 1,
            ProcedureStubKind::ConcreteForwarder => 2,
            ProcedureStubKind::NoSuchMethodForwarder => 3,
            ProcedureStubKind::MemberSignature => 4,
            ProcedureStubKind::AbstractMixin => 5,
            ProcedureStubKind::ConcreteMixin => 6,
        }
    }

    pub open spec fn from_tag(b: u8) -> Option<ProcedureStubKind> {
        if b == 0 {
            Some(ProcedureStubKind::Regular)
        } else if b == 1 {
            Some(ProcedureStubKind::AbstractForwarder)
        } else if b == 2 {
            Some(ProcedureStubKind::ConcreteForwarder)
        } else if b == 3 {
            Some(ProcedureStubKind::NoSuchMethodForwarder)
        } else if b == 4 {
            Some(ProcedureStubKind::MemberSignature)
        } else if b == 5 {
            Some(ProcedureStubKind::AbstractMixin)
        } else if b == 6 {
            Some(ProcedureStubKind::ConcreteMixin)
        } else {
            None
        }
    }
}

impl DeepView for ProcedureStubKind {
    type V = ProcedureStubKind;

    open spec fn deep_view(&self) -> ProcedureStubKind {
        *self
    }
}

impl Codec for ProcedureStubKind {
    open spec fn encodable(&self) -> bool {
        true
    }

    open spec fn wire(&self) -> Seq<u8> {
        seq![self.spec_tag()]
    }

    open spec fn parse(d: Seq<u8>, p: int) -> Option<(ProcedureStubKind, int)> {
        match u8_parse(d, p) {
            Some((b, q)) => match ProcedureStubKind::from_tag(b) {
                Some(v) => Some((v, q)),
                None => None,
            },
            None => None,
        }
    }

    proof fn lemma_round_trip(&self, pre: Seq<u8>, rest: Seq<u8>) {
        assert((pre + self.wire() + rest)[pre.len() as int] == self.spec_tag());
    }

    fn encode(&self, out: &mut Vec<u8>) -> (r: Result<(), KernelError>) {
        let b: u8 = match self {
            ProcedureStubKind::Regular => 0,
            ProcedureStubKind::AbstractForwarder => 1,
            ProcedureStubKind::ConcreteForwarder => 2,
            ProcedureStubKind::NoSuchMethodForwarder => 3,
            ProcedureStubKind::MemberSignature => 4,
            ProcedureStubKind::AbstractMixin => 5,
            ProcedureStubKind::ConcreteMixin => 6,
        };
        out.push(b);
        assert(out@ =~= old(out)@ + self.wire());
        Ok(())
    }

    fn decode(data: &[u8], pos: &mut usize) -> (r: Result<ProcedureStubKind, KernelError>) {
        let b = read_u8(data, pos)?;
        match b {
            0u8 => Ok(ProcedureStubKind::Regular),
            1u8 => Ok(ProcedureStubKind::AbstractForwarder),
            2u8 => Ok(ProcedureStubKind::ConcreteForwarder),
            3u8 => Ok(ProcedureStubKind::NoSuchMethodForwarder),
            4u8 => Ok(ProcedureStubKind::MemberSignature),
            5u8 => Ok(ProcedureStubKind::AbstractMixin),
            6u8 => Ok(ProcedureStubKind::ConcreteMixin),
            _ => Err(KernelError::UnknownTag { sum: SumKind::ProcedureStubKind, tag: b }),
        }
    }
}

/// The declared variance of a type parameter.
#[derive(Debug, Clone, Copy, PartialEq, Eq, Structural)]
pub enum Variance {
    Unrelated,
    Covariant,
    Contravariant,
    Invariant,
}

impl Variance {
    /// The wire byte of each variant.
    pub open spec fn spec_tag(&self) -> u8 {
        match self {
            Variance::Unrelated => 0,
            Variance::Covariant => 1,
            Variance::Contravariant => 2,
            Variance::Invariant => 3,
        }
    }

    pub open spec fn from_tag(b: u8) -> Option<Variance> {
        if b == 0 {
            Some(Variance::Unrelated)
        } else if b == 1 {
            Some(Variance::Covariant)
        } else if b == 2 {
            Some(Variance::Contravariant)
        } else if b == 3 {
            Some(Variance::Invariant)
        } else {
            None
        }
    }
}

impl DeepView for Variance {
    type V = Variance;

    open spec fn deep_view(&self) -> Variance {
        *self
    }
}

impl Codec for Variance {
    open spec fn encodable(&self) -> bool {
        true
    }

    open spec fn wire(&self) -> Seq<u8> {
        seq![self.spec_tag()]
    }

    open spec fn parse(d: Seq<u8>, p: int) -> Option<(Variance, int)> {
        match u8_parse(d, p) {
            Some((b, q)) => match Variance::from_tag(b) {
                Some(v) => Some((v, q)),
                None => None,
            },
            None => None,
        }
    }

    proof fn lemma_round_trip(&self, pre: Seq<u8>, rest: Seq<u8>) {
        assert((pre + self.wire() + rest)[pre.len() as int] == self.spec_tag());
    }

    fn encode(&self, out: &mut Vec<u8>) -> (r: Result<(), KernelError>) {
        let b: u8 = match self {
            Variance::Unrelated => 0,
            Variance::Covariant => 1,
            Variance::Contravariant => 2,
            Variance::Invariant => 3,
        };
        out.push(b);
        assert(out@ =~= old(out)@ + self.wire());
        Ok(())
    }

    fn decode(data: &[u8], pos: &mut usize) -> (r: Result<Variance, KernelError>) {
        let b = read_u8(data, pos)?;
        match b {
            0u8 => Ok(Variance::Unrelated),
            1u8 => Ok(Variance::Covariant),
            2u8 => Ok(Variance::Contravariant),
            3u8 => Ok(Variance::Invariant),
            _ => Err(KernelError::UnknownTag { sum: SumKind::Variance, tag: b }),
        }
    }
}

/// A type of the syntax tree.
#[derive(Debug, PartialEq)]
pub enum Type {
    Never(Nullable),
    Invalid,
    Dynamic,
    Void,
    GenericInterface {
        nullable: Nullable,
        class: CanonicalNameRef,
        type_args: Vec<Type>,
    },
    Interface {
        nullable: Nullable,
        class: CanonicalNameRef,
    },
    GenericFunction(Box<FunctionType>),
    Function {
        nullable: Nullable,
        positional_params: Vec<Type>,
        return_type: Box<Type>,
    },
    TypeParam {
        nullable: Nullable,
        index: Uint,
        bound: Option<Box<Type>>,
    },
}

impl Default for Type {
    fn default() -> (r: Self)
        ensures
            r is Dynamic,
    {
        Type::Dynamic
    }
}

/// Every count and variable-length integer in the value fits in 30 bits.
pub open spec fn type_encodable(v: Type) -> bool
    decreases v,
{
    match v {
        Type::Never(f0) => f0.encodable(),
        Type::Invalid => true,
        Type::Dynamic => true,
        Type::Void => true,
        Type::GenericInterface { nullable, class, type_args } => nullable.encodable()
            && class.encodable()
            && (type_args@.len() < 0x4000_0000 && type_items_encodable(type_args@)),
        Type::Interface { nullable, class } => nullable.encodable() && class.encodable(),
        Type::GenericFunction(f0) => function_type_encodable(*f0),
        Type::Function { nullable, positional_params, return_type } => nullable.encodable()
            && (positional_params@.len() < 0x4000_0000 && type_items_encodable(positional_params@))
            && type_encodable(*return_type),
        Type::TypeParam { nullable, index, bound } => nullable.encodable()
            && index.encodable()
            && (match bound { Some(x) => type_encodable(*x), None => true }),
    }
}

/// The wire form: the discriminator byte, then the fields in order.
pub open spec fn type_wire(v: Type) -> Seq<u8>
    decreases v,
{
    match v {
        Type::Never(f0) => seq![98u8] + f0.wire(),
        Type::Invalid => seq![90u8],
        Type::Dynamic => seq![91u8],
        Type::Void => seq![92u8],
        Type::GenericInterface { nullable, class, type_args } => seq![93u8]
            + nullable.wire()
            + class.wire()
            + uint_bytes(type_args@.len() as u32) + type_items_wire(type_args@),
        Type::Interface { nullable, class } => seq![96u8] + nullable.wire() + class.wire(),
        Type::GenericFunction(f0) => seq![94u8] + function_type_wire(*f0),
        Type::Function { nullable, positional_params, return_type } => seq![97u8]
            + nullable.wire()
            + uint_bytes(positional_params@.len() as u32) + type_items_wire(positional_params@)
            + type_wire(*return_type),
        Type::TypeParam { nullable, index, bound } => seq![95u8]
            + nullable.wire()
            + index.wire()
            + (match bound { Some(x) => seq![1u8] + type_wire(*x), None => seq![0u8] }),
    }
}

/// The discriminator bytes that start a value of this sum.
pub open spec fn is_type_tag(b: u8) -> bool {
    b == 98 || b == 90 || b == 91 || b == 92 || b == 93 || b == 96 || b == 94 || b == 97 || b == 95
}

/// Appends the wire form of `v`; fails exactly when a count or integer in it reaches 2^30.
#[verifier::rlimit(100)]
pub fn encode_type(v: &Type, out: &mut Vec<u8>) -> (r: Result<(), KernelError>)
    ensures
        r is Ok <==> type_encodable(*v),
        r is Ok ==> final(out)@ == old(out)@ + type_wire(*v),
    decreases v, 1nat,
{
    match v {
        Type::Never(f0) => {
            out.push(98u8);
            let ghost acc0 = seq![98u8];
            f0.encode(out)?;
            proof {
                lemma_concat_associative(old(out)@, acc0, (*f0).wire());
            }
            let ghost acc1 = acc0 + (*f0).wire();
            assert(final(out)@ == old(out)@ + type_wire(*v));
        },
        Type::Invalid => {
            out.push(90u8);
            let ghost acc0 = seq![90u8];
            assert(final(out)@ == old(out)@ + type_wire(*v));
        },
        Type::Dynamic => {
            out.push(91u8);
            let ghost acc0 = seq![91u8];
            assert(final(out)@ == old(out)@ + type_wire(*v));
        },
        Type::Void => {
            out.push(92u8);
            let ghost acc0 = seq![92u8];
            assert(final(out)@ == old(out)@ + type_wire(*v));
        },
        Type::GenericInterface { nullable, class, type_args } => {
            out.push(93u8);
            let ghost acc0 = seq![93u8];
            nullable.encode(out)?;
            proof {
                lemma_concat_associative(old(out)@, acc0, (*nullable).wire());
            }
            let ghost acc1 = acc0 + (*nullable).wire();
            class.encode(out)?;
            proof {
                lemma_concat_associative(old(out)@, acc1, (*class).wire());
            }
            let ghost acc2 = acc1 + (*class).wire();
            encode_type_list(type_args, out)?;
            proof {
                lemma_concat_associative(old(out)@, acc2, uint_bytes((*type_args)@.len() as u32));
            }
            let ghost acc3 = acc2 + uint_bytes((*type_args)@.len() as u32);
            proof {
                lemma_concat_associative(old(out)@, acc3, type_items_wire((*type_args)@));
            }
            let ghost acc4 = acc3 + type_items_wire((*type_args)@);
            assert(final(out)@ == old(out)@ + type_wire(*v));
        },
        Type::Interface { nullable, class } => {
            out.push(96u8);
            let ghost acc0 = seq![96u8];
            nullable.encode(out)?;
            proof {
                lemma_concat_associative(old(out)@, acc0, (*nullable).wire());
            }
            let ghost acc1 = acc0 + (*nullable).wire();
            class.encode(out)?;
            proof {
                lemma_concat_associative(old(out)@, acc1, (*class).wire());
            }
            let ghost acc2 = acc1 + (*class).wire();
            assert(final(out)@ == old(out)@ + type_wire(*v));
        },
        Type::GenericFunction(f0) => {
            out.push(94u8);
            let ghost acc0 = seq![94u8];
            encode_function_type(f0, out)?;
            proof {
                lemma_concat_associative(old(out)@, acc0, function_type_wire(*(*f0)));
            }
            let ghost acc1 = acc0 + function_type_wire(*(*f0));
            assert(final(out)@ == old(out)@ + type_wire(*v));
        },
        Type::Function { nullable, positional_params, return_type } => {
            out.push(97u8);
            let ghost acc0 = seq![97u8];
            nullable.encode(out)?;
            proof {
                lemma_concat_associative(old(out)@, acc0, (*nullable).wire());
            }
            let ghost acc1 = acc0 + (*nullable).wire();
            encode_type_list(positional_params, out)?;
            proof {
                lemma_concat_associative(old(out)@, acc1, uint_bytes((*positional_params)@.len() as u32));
            }
            let ghost acc2 = acc1 + uint_bytes((*positional_params)@.len() as u32);
            proof {
                lemma_concat_associative(old(out)@, acc2, type_items_wire((*positional_params)@));
            }
            let ghost acc3 = acc2 + type_items_wire((*positional_params)@);
            encode_type(return_type, out)?;
            proof {
                lemma_concat_associative(old(out)@, acc3, type_wire(*(*return_type)));
            }
            let ghost acc4 = acc3 + type_wire(*(*return_type));
            assert(final(out)@ == old(out)@ + type_wire(*v));
        },
        Type::TypeParam { nullable, index, bound } => {
            out.push(95u8);
            let ghost acc0 = seq![95u8];
            nullable.encode(out)?;
            proof {
                lemma_concat_associative(old(out)@, acc0, (*nullable).wire());
            }
            let ghost acc1 = acc0 + (*nullable).wire();
            index.encode(out)?;
            proof {
                lemma_concat_associative(old(out)@, acc1, (*index).wire());
            }
            let ghost acc2 = acc1 + (*index).wire();
            match bound {
                Some(x) => {
                    out.push(1u8);
                    encode_type(x, out)?;
                },
                None => {
                    out.push(0u8);
                },
            }
            proof {
                lemma_concat_associative(old(out)@, acc2, (match &(*bound) { Some(x) => seq![1u8] + type_wire(**x), None => seq![0u8] }));
            }
            let ghost acc3 = acc2 + (match &(*bound) { Some(x) => seq![1u8] + type_wire(**x), None => seq![0u8] });
            assert(final(out)@ == old(out)@ + type_wire(*v));
        },
    }
    Ok(())
}

/// Reads a value at `*pos` and moves past it.
pub fn decode_type(data: &[u8], pos: &mut usize) -> (r: Result<Type, KernelError>)
    ensures
        r is Ok ==> *old(pos) < *final(pos) <= data@.len(),
        *old(pos) >= data@.len() ==> r == Err::<Type, _>(KernelError::ShortRead),
        *old(pos) < data@.len() && !is_type_tag(data@[*old(pos) as int]) ==> r == Err::<Type, _>(
            KernelError::UnknownTag { sum: SumKind::Type, tag: data@[*old(pos) as int] },
        ),
    decreases data@.len() - *old(pos), 0nat,
{
    let tag = read_u8(data, pos)?;
    match tag {
        98u8 => {
            let f0 = <Nullable as Codec>::decode(data, pos)?;
            Ok(Type::Never(f0))
        },
        90u8 => {
            Ok(Type::Invalid)
        },
        91u8 => {
            Ok(Type::Dynamic)
        },
        92u8 => {
            Ok(Type::Void)
        },
        93u8 => {
            let nullable = <Nullable as Codec>::decode(data, pos)?;
            let class = <CanonicalNameRef as Codec>::decode(data, pos)?;
            let type_args = decode_type_list(data, pos)?;
            Ok(Type::GenericInterface { nullable, class, type_args })
        },
        96u8 => {
            let nullable = <Nullable as Codec>::decode(data, pos)?;
            let class = <CanonicalNameRef as Codec>::decode(data, pos)?;
            Ok(Type::Interface { nullable, class })
        },
        94u8 => {
            let f0 = Box::new(decode_function_type(data, pos)?);
            Ok(Type::GenericFunction(f0))
        },
        97u8 => {
            let nullable = <Nullable as Codec>::decode(data, pos)?;
            let positional_params = decode_type_list(data, pos)?;
            let return_type = Box::new(decode_type(data, pos)?);
            Ok(Type::Function { nullable, positional_params, return_type })
        },
        95u8 => {
            let nullable = <Nullable as Codec>::decode(data, pos)?;
            let index = <Uint as Codec>::decode(data, pos)?;
            let bound = match read_u8(data, pos)? {
                0u8 => None,
                1u8 => Some(Box::new(decode_type(data, pos)?)),
                b => {
                    return Err(KernelError::InvalidOption(b));
                },
            };
            Ok(Type::TypeParam { nullable, index, bound })
        },
        _ => Err(KernelError::UnknownTag { sum: SumKind::Type, tag }),
    }
}

pub open spec fn type_items_encodable(s: Seq<Type>) -> bool
    decreases s,
{
    forall|i: int| 0 <= i < s.len() ==> type_encodable(#[trigger] s[i])
}

pub open spec fn type_items_wire(s: Seq<Type>) -> Seq<u8>
    decreases s,
{
    if s.len() == 0 {
        Seq::empty()
    } else {
        type_items_wire(s.drop_last()) + type_wire(s.last())
    }
}

/// Appends a list: its count, then each item.
pub fn encode_type_list(v: &Vec<Type>, out: &mut Vec<u8>) -> (r: Result<(), KernelError>)
    ensures
        r is Ok <==> v@.len() < 0x4000_0000 && type_items_encodable(v@),
        r is Ok ==> final(out)@ == old(out)@ + uint_bytes(v@.len() as u32) + type_items_wire(v@),
    decreases v, 1nat,
{
    if v.len() >= 0x4000_0000 {
        return Err(KernelError::InvalidVarUint);
    }
    Uint(v.len() as u32).encode(out)?;
    let ghost start = out@;
    let mut i: usize = 0;
    while i < v.len()
        invariant
            i <= v.len(),
            type_items_encodable(v@.subrange(0, i as int)),
            out@ == start + type_items_wire(v@.subrange(0, i as int)),
        decreases v.len() - i,
    {
        let res = encode_type(&v[i], out);
        if res.is_err() {
            assert(!type_items_encodable(v@)) by {
                assert(!type_encodable(v@[i as int]));
            }
            return res;
        }
        proof {
            let s = v@.subrange(0, i + 1);
            assert(s.drop_last() =~= v@.subrange(0, i as int));
            assert forall|k: int| 0 <= k < s.len() implies type_encodable(#[trigger] s[k]) by {
                if k < i {
                    assert(s[k] == v@.subrange(0, i as int)[k]);
                }
            }
        }
        i = i + 1;
    }
    assert(v@.subrange(0, i as int) =~= v@);
    Ok(())
}

/// Reads a list: a count, then that many items.
pub fn decode_type_list(data: &[u8], pos: &mut usize) -> (r: Result<Vec<Type>, KernelError>)
    ensures
        r is Ok ==> *old(pos) < *final(pos) <= data@.len(),
        r is Ok ==> uint_parse(data@, *old(pos) as int) is Some && r->Ok_0@.len() == (uint_parse(data@, *old(pos) as int)->0).0,
        uint_parse(data@, *old(pos) as int) is Some && (uint_parse(data@, *old(pos) as int)->0).0 == 0 ==> r is Ok && r->Ok_0@.len() == 0
            && *final(pos) == (uint_parse(data@, *old(pos) as int)->0).1,
    decreases data@.len() - *old(pos), 0nat,
{
    let n = Uint::decode(data, pos)?;
    let ghost q0 = *pos;
    let mut v: Vec<Type> = Vec::new();
    let mut i: u32 = 0;
    while i < n.0
        invariant
            *old(pos) < *pos <= data@.len(),
            i <= n.0,
            v@.len() == i,
            i == 0 ==> *pos == q0,
            uint_parse(data@, *old(pos) as int) == Some((n.0, q0 as int)),
        decreases n.0 - i,
    {
        let x = decode_type(data, pos)?;
        v.push(x);
        i = i + 1;
    }
    Ok(v)
}

/// The type of a generic function.
#[derive(Debug, Default, PartialEq)]
pub struct FunctionType {
    pub nullable: Nullable,
    pub type_params: Vec<TypeParameter>,
    pub required_param_count: Uint,
    pub total_param_count: Uint,
    pub positional_params: Vec<Type>,
    pub named_params: Vec<NamedType>,
    pub typedef: Option<TypedefType>,
    pub return_type: Type,
}

/// Every count and variable-length integer in the value fits in 30 bits.
pub open spec fn function_type_encodable(v: FunctionType) -> bool
    decreases v,
{
    v.nullable.encodable()
    && (v.type_params@.len() < 0x4000_0000 && type_parameter_items_encodable(v.type_params@))
    && v.required_param_count.encodable()
    && v.total_param_count.encodable()
    && (v.positional_params@.len() < 0x4000_0000 && type_items_encodable(v.positional_params@))
    && (v.named_params@.len() < 0x4000_0000 && named_type_items_encodable(v.named_params@))
    && (match v.typedef { Some(x) => typedef_type_encodable(x), None => true })
    && type_encodable(v.return_type)
}

/// The wire form: the fields in order.
pub open spec fn function_type_wire(v: FunctionType) -> Seq<u8>
    decreases v,
{
    v.nullable.wire()
    + uint_bytes(v.type_params@.len() as u32) + type_parameter_items_wire(v.type_params@)
    + v.required_param_count.wire()
    + v.total_param_count.wire()
    + uint_bytes(v.positional_params@.len() as u32) + type_items_wire(v.positional_params@)
    + uint_bytes(v.named_params@.len() as u32) + named_type_items_wire(v.named_params@)
    + (match v.typedef { Some(x) => seq![1u8] + typedef_type_wire(x), None => seq![0u8] })
    + type_wire(v.return_type)
}

/// Appends the wire form of `v`; fails exactly when a count or integer in it reaches 2^30.
#[verifier::rlimit(100)]
pub fn encode_function_type(v: &FunctionType, out: &mut Vec<u8>) -> (r: Result<(), KernelError>)
    ensures
        r is Ok <==> function_type_encodable(*v),
        r is Ok ==> final(out)@ == old(out)@ + function_type_wire(*v),
    decreases v, 1nat,
{
    v.nullable.encode(out)?;
    let ghost acc0 = v.nullable.wire();
    encode_type_parameter_list(&v.type_params, out)?;
    proof {
        lemma_concat_associative(old(out)@, acc0, uint_bytes(v.type_params@.len() as u32));
    }
    let ghost acc1 = acc0 + uint_bytes(v.type_params@.len() as u32);
    proof {
        lemma_concat_associative(old(out)@, acc1, type_parameter_items_wire(v.type_params@));
    }
    let ghost acc2 = acc1 + type_parameter_items_wire(v.type_params@);
    v.required_param_count.encode(out)?;
    proof {
        lemma_concat_associative(old(out)@, acc2, v.required_param_count.wire());
    }
    let ghost acc3 = acc2 + v.required_param_count.wire();
    v.total_param_count.encode(out)?;
    proof {
        lemma_concat_associative(old(out)@, acc3, v.total_param_count.wire());
    }
    let ghost acc4 = acc3 + v.total_param_count.wire();
    encode_type_list(&v.positional_params, out)?;
    proof {
        lemma_concat_associative(old(out)@, acc4, uint_bytes(v.positional_params@.len() as u32));
    }
    let ghost acc5 = acc4 + uint_bytes(v.positional_params@.len() as u32);
    proof {
        lemma_concat_associative(old(out)@, acc5, type_items_wire(v.positional_params@));
    }
    let ghost acc6 = acc5 + type_items_wire(v.positional_params@);
    encode_named_type_list(&v.named_params, out)?;
    proof {
        lemma_concat_associative(old(out)@, acc6, uint_bytes(v.named_params@.len() as u32));
    }
    let ghost acc7 = acc6 + uint_bytes(v.named_params@.len() as u32);
    proof {
        lemma_concat_associative(old(out)@, acc7, named_type_items_wire(v.named_params@));
    }
    let ghost acc8 = acc7 + named_type_items_wire(v.named_params@);
    match &v.typedef {
        Some(x) => {
            out.push(1u8);
            encode_typedef_type(x, out)?;
        },
        None => {
            out.push(0u8);
        },
    }
    proof {
        lemma_concat_associative(old(out)@, acc8, (match &v.typedef { Some(x) => seq![1u8] + typedef_type_wire(*x), None => seq![0u8] }));
    }
    let ghost acc9 = acc8 + (match &v.typedef { Some(x) => seq![1u8] + typedef_type_wire(*x), None => seq![0u8] });
    encode_type(&v.return_type, out)?;
    proof {
        lemma_concat_associative(old(out)@, acc9, type_wire(v.return_type));
    }
    let ghost acc10 = acc9 + type_wire(v.return_type);
    assert(final(out)@ == old(out)@ + function_type_wire(*v));
    Ok(())
}

/// Reads a value at `*pos` and moves past it.
pub fn decode_function_type(data: &[u8], pos: &mut usize) -> (r: Result<FunctionType, KernelError>)
    ensures
        r is Ok ==> *old(pos) < *final(pos) <= data@.len(),
    decreases data@.len() - *old(pos), 0nat,
{
    let nullable = <Nullable as Codec>::decode(data, pos)?;
    let type_params = decode_type_parameter_list(data, pos)?;
    let required_param_count = <Uint as Codec>::decode(data, pos)?;
    let total_param_count = <Uint as Codec>::decode(data, pos)?;
    let positional_params = decode_type_list(data, pos)?;
    let named_params = decode_named_type_list(data, pos)?;
    let typedef = match read_u8(data, pos)? {
        0u8 => None,
        1u8 => Some(decode_typedef_type(data, pos)?),
        b => {
            return Err(KernelError::InvalidOption(b));
        },
    };
    let return_type = decode_type(data, pos)?;
    Ok(FunctionType { nullable, type_params, required_param_count, total_param_count, positional_params, named_params, typedef, return_type })
}

/// A named parameter of a function type.
#[derive(Debug, PartialEq)]
pub struct NamedType {
    pub name: StringRef,
    pub typ: Type,
    pub flags: u8,
}

/// Every count and variable-length integer in the value fits in 30 bits.
pub open spec fn named_type_encodable(v: NamedType) -> bool
    decreases v,
{
    v.name.encodable()
    && type_encodable(v.typ)
    && v.flags.encodable()
}

/// The wire form: the fields in order.
pub open spec fn named_type_wire(v: NamedType) -> Seq<u8>
    decreases v,
{
    v.name.wire() + type_wire(v.typ) + v.flags.wire()
}

/// Appends the wire form of `v`; fails exactly when a count or integer in it reaches 2^30.
#[verifier::rlimit(100)]
pub fn encode_named_type(v: &NamedType, out: &mut Vec<u8>) -> (r: Result<(), KernelError>)
    ensures
        r is Ok <==> named_type_encodable(*v),
        r is Ok ==> final(out)@ == old(out)@ + named_type_wire(*v),
    decreases v, 1nat,
{
    v.name.encode(out)?;
    let ghost acc0 = v.name.wire();
    encode_type(&v.typ, out)?;
    proof {
        lemma_concat_associative(old(out)@, acc0, type_wire(v.typ));
    }
    let ghost acc1 = acc0 + type_wire(v.typ);
    v.flags.encode(out)?;
    proof {
        lemma_concat_associative(old(out)@, acc1, v.flags.wire());
    }
    let ghost acc2 = acc1 + v.flags.wire();
    assert(final(out)@ == old(out)@ + named_type_wire(*v));
    Ok(())
}

/// Reads a value at `*pos` and moves past it.
pub fn decode_named_type(data: &[u8], pos: &mut usize) -> (r: Result<NamedType, KernelError>)
    ensures
        r is Ok ==> *old(pos) < *final(pos) <= data@.len(),
    decreases data@.len() - *old(pos), 0nat,
{
    let name = <StringRef as Codec>::decode(data, pos)?;
    let typ = decode_type(data, pos)?;
    let flags = <u8 as Codec>::decode(data, pos)?;
    Ok(NamedType { name, typ, flags })
}

pub open spec fn named_type_items_encodable(s: Seq<NamedType>) -> bool
    decreases s,
{
    forall|i: int| 0 <= i < s.len() ==> named_type_encodable(#[trigger] s[i])
}

pub open spec fn named_type_items_wire(s: Seq<NamedType>) -> Seq<u8>
    decreases s,
{
    if s.len() == 0 {
        Seq::empty()
    } else {
        named_type_items_wire(s.drop_last()) + named_type_wire(s.last())
    }
}

/// Appends a list: its count, then each item.
pub fn encode_named_type_list(v: &Vec<NamedType>, out: &mut Vec<u8>) -> (r: Result<(), KernelError>)
    ensures
        r is Ok <==> v@.len() < 0x4000_0000 && named_type_items_encodable(v@),
        r is Ok ==> final(out)@ == old(out)@ + uint_bytes(v@.len() as u32) + named_type_items_wire(v@),
    decreases v, 1nat,
{
    if v.len() >= 0x4000_0000 {
        return Err(KernelError::InvalidVarUint);
    }
    Uint(v.len() as u32).encode(out)?;
    let ghost start = out@;
    let mut i: usize = 0;
    while i < v.len()
        invariant
            i <= v.len(),
            named_type_items_encodable(v@.subrange(0, i as int)),
            out@ == start + named_type_items_wire(v@.subrange(0, i as int)),
        decreases v.len() - i,
    {
        let res = encode_named_type(&v[i], out);
        if res.is_err() {
            assert(!named_type_items_encodable(v@)) by {
                assert(!named_type_encodable(v@[i as int]));
            }
            return res;
        }
        proof {
            let s = v@.subrange(0, i + 1);
            assert(s.drop_last() =~= v@.subrange(0, i as int));
            assert forall|k: int| 0 <= k < s.len() implies named_type_encodable(#[trigger] s[k]) by {
                if k < i {
                    assert(s[k] == v@.subrange(0, i as int)[k]);
                }
            }
        }
        i = i + 1;
    }
    assert(v@.subrange(0, i as int) =~= v@);
    Ok(())
}

/// Reads a list: a count, then that many items.
pub fn decode_named_type_list(data: &[u8], pos: &mut usize) -> (r: Result<Vec<NamedType>, KernelError>)
    ensures
        r is Ok ==> *old(pos) < *final(pos) <= data@.len(),
        r is Ok ==> uint_parse(data@, *old(pos) as int) is Some && r->Ok_0@.len() == (uint_parse(data@, *old(pos) as int)->0).0,
        uint_parse(data@, *old(pos) as int) is Some && (uint_parse(data@, *old(pos) as int)->0).0 == 0 ==> r is Ok && r->Ok_0@.len() == 0
            && *final(pos) == (uint_parse(data@, *old(pos) as int)->0).1,
    decreases data@.len() - *old(pos), 0nat,
{
    let n = Uint::decode(data, pos)?;
    let ghost q0 = *pos;
    let mut v: Vec<NamedType> = Vec::new();
    let mut i: u32 = 0;
    while i < n.0
        invariant
            *old(pos) < *pos <= data@.len(),
            i <= n.0,
            v@.len() == i,
            i == 0 ==> *pos == q0,
            uint_parse(data@, *old(pos) as int) == Some((n.0, q0 as int)),
        decreases n.0 - i,
    {
        let x = decode_named_type(data, pos)?;
        v.push(x);
        i = i + 1;
    }
    Ok(v)
}

/// A type parameter with its bound and default.
#[derive(Debug, PartialEq)]
pub struct TypeParameter {
    pub flags: u8,
    pub annotations: Vec<Expr>,
    pub variance: Variance,
    pub name: StringRef,
    pub bound: Type,
    pub default_type: Type,
}

/// Every count and variable-length integer in the value fits in 30 bits.
pub open spec fn type_parameter_encodable(v: TypeParameter) -> bool
    decreases v,
{
    v.flags.encodable()
    && (v.annotations@.len() < 0x4000_0000 && expr_items_encodable(v.annotations@))
    && v.variance.encodable()
    && v.name.encodable()
    && type_encodable(v.bound)
    && type_encodable(v.default_type)
}

/// The wire form: the fields in order.
pub open spec fn type_parameter_wire(v: TypeParameter) -> Seq<u8>
    decreases v,
{
    v.flags.wire()
    + uint_bytes(v.annotations@.len() as u32) + expr_items_wire(v.annotations@)
    + v.variance.wire()
    + v.name.wire()
    + type_wire(v.bound)
    + type_wire(v.default_type)
}

/// Appends the wire form of `v`; fails exactly when a count or integer in it reaches 2^30.
#[verifier::rlimit(100)]
pub fn encode_type_parameter(v: &TypeParameter, out: &mut Vec<u8>) -> (r: Result<(), KernelError>)
    ensures
        r is Ok <==> type_parameter_encodable(*v),
        r is Ok ==> final(out)@ == old(out)@ + type_parameter_wire(*v),
    decreases v, 1nat,
{
    v.flags.encode(out)?;
    let ghost acc0 = v.flags.wire();
    encode_expr_list(&v.annotations, out)?;
    proof {
        lemma_concat_associative(old(out)@, acc0, uint_bytes(v.annotations@.len() as u32));
    }
    let ghost acc1 = acc0 + uint_bytes(v.annotations@.len() as u32);
    proof {
        lemma_concat_associative(old(out)@, acc1, expr_items_wire(v.annotations@));
    }
    let ghost acc2 = acc1 + expr_items_wire(v.annotations@);
    v.variance.encode(out)?;
    proof {
        lemma_concat_associative(old(out)@, acc2, v.variance.wire());
    }
    let ghost acc3 = acc2 + v.variance.wire();
    v.name.encode(out)?;
    proof {
        lemma_concat_associative(old(out)@, acc3, v.name.wire());
    }
    let ghost acc4 = acc3 + v.name.wire();
    encode_type(&v.bound, out)?;
    proof {
        lemma_concat_associative(old(out)@, acc4, type_wire(v.bound));
    }
    let ghost acc5 = acc4 + type_wire(v.bound);
    encode_type(&v.default_type, out)?;
    proof {
        lemma_concat_associative(old(out)@, acc5, type_wire(v.default_type));
    }
    let ghost acc6 = acc5 + type_wire(v.default_type);
    assert(final(out)@ == old(out)@ + type_parameter_wire(*v));
    Ok(())
}

/// Reads a value at `*pos` and moves past it.
pub fn decode_type_parameter(data: &[u8], pos: &mut usize) -> (r: Result<TypeParameter, KernelError>)
    ensures
        r is Ok ==> *old(pos) < *final(pos) <= data@.len(),
    decreases data@.len() - *old(pos), 0nat,
{
    let flags = <u8 as Codec>::decode(data, pos)?;
    let annotations = decode_expr_list(data, pos)?;
    let variance = <Variance as Codec>::decode(data, pos)?;
    let name = <StringRef as Codec>::decode(data, pos)?;
    let bound = decode_type(data, pos)?;
    let default_type = decode_type(data, pos)?;
    Ok(TypeParameter { flags, annotations, variance, name, bound, default_type })
}

pub open spec fn type_parameter_items_encodable(s: Seq<TypeParameter>) -> bool
    decreases s,
{
    forall|i: int| 0 <= i < s.len() ==> type_parameter_encodable(#[trigger] s[i])
}

pub open spec fn type_parameter_items_wire(s: Seq<TypeParameter>) -> Seq<u8>
    decreases s,
{
    if s.len() == 0 {
        Seq::empty()
    } else {
        type_parameter_items_wire(s.drop_last()) + type_parameter_wire(s.last())
    }
}

/// Appends a list: its count, then each item.
pub fn encode_type_parameter_list(v: &Vec<TypeParameter>, out: &mut Vec<u8>) -> (r: Result<(), KernelError>)
    ensures
        r is Ok <==> v@.len() < 0x4000_0000 && type_parameter_items_encodable(v@),
        r is Ok ==> final(out)@ == old(out)@ + uint_bytes(v@.len() as u32) + type_parameter_items_wire(v@),
    decreases v, 1nat,
{
    if v.len() >= 0x4000_0000 {
        return Err(KernelError::InvalidVarUint);
    }
    Uint(v.len() as u32).encode(out)?;
    let ghost start = out@;
    let mut i: usize = 0;
    while i < v.len()
        invariant
            i <= v.len(),
            type_parameter_items_encodable(v@.subrange(0, i as int)),
            out@ == start + type_parameter_items_wire(v@.subrange(0, i as int)),
        decreases v.len() - i,
    {
        let res = encode_type_parameter(&v[i], out);
        if res.is_err() {
            assert(!type_parameter_items_encodable(v@)) by {
                assert(!type_parameter_encodable(v@[i as int]));
            }
            return res;
        }
        proof {
            let s = v@.subrange(0, i + 1);
            assert(s.drop_last() =~= v@.subrange(0, i as int));
            assert forall|k: int| 0 <= k < s.len() implies type_parameter_encodable(#[trigger] s[k]) by {
                if k < i {
                    assert(s[k] == v@.subrange(0, i as int)[k]);
                }
            }
        }
        i = i + 1;
    }
    assert(v@.subrange(0, i as int) =~= v@);
    Ok(())
}

/// Reads a list: a count, then that many items.
pub fn decode_type_parameter_list(data: &[u8], pos: &mut usize) -> (r: Result<Vec<TypeParameter>, KernelError>)
    ensures
        r is Ok ==> *old(pos) < *final(pos) <= data@.len(),
        r is Ok ==> uint_parse(data@, *old(pos) as int) is Some && r->Ok_0@.len() == (uint_parse(data@, *old(pos) as int)->0).0,
        uint_parse(data@, *old(pos) as int) is Some && (uint_parse(data@, *old(pos) as int)->0).0 == 0 ==> r is Ok && r->Ok_0@.len() == 0
            && *final(pos) == (uint_parse(data@, *old(pos) as int)->0).1,
    decreases data@.len() - *old(pos), 0nat,
{
    let n = Uint::decode(data, pos)?;
    let ghost q0 = *pos;
    let mut v: Vec<TypeParameter> = Vec::new();
    let mut i: u32 = 0;
    while i < n.0
        invariant
            *old(pos) < *pos <= data@.len(),
            i <= n.0,
            v@.len() == i,
            i == 0 ==> *pos == q0,
            uint_parse(data@, *old(pos) as int) == Some((n.0, q0 as int)),
        decreases n.0 - i,
    {
        let x = decode_type_parameter(data, pos)?;
        v.push(x);
        i = i + 1;
    }
    Ok(v)
}

/// A use of a typedef with its type arguments.
#[derive(Debug, Default, PartialEq)]
pub struct TypedefType {
    pub nullable: Nullable,
    pub reference: CanonicalNameRef,
    pub type_args: Vec<Type>,
}

/// Every count and variable-length integer in the value fits in 30 bits.
pub open spec fn typedef_type_encodable(v: TypedefType) -> bool
    decreases v,
{
    v.nullable.encodable()
    && v.reference.encodable()
    && (v.type_args@.len() < 0x4000_0000 && type_items_encodable(v.type_args@))
}

/// The wire form: the tag byte, then the fields in order.
pub open spec fn typedef_type_wire(v: TypedefType) -> Seq<u8>
    decreases v,
{
    seq![87u8]
    + v.nullable.wire()
    + v.reference.wire()
    + uint_bytes(v.type_args@.len() as u32) + type_items_wire(v.type_args@)
}

/// Appends the wire form of `v`; fails exactly when a count or integer in it reaches 2^30.
#[verifier::rlimit(100)]
pub fn encode_typedef_type(v: &TypedefType, out: &mut Vec<u8>) -> (r: Result<(), KernelError>)
    ensures
        r is Ok <==> typedef_type_encodable(*v),
        r is Ok ==> final(out)@ == old(out)@ + typedef_type_wire(*v),
    decreases v, 1nat,
{
    out.push(87u8);
    let ghost acc0 = seq![87u8];
    v.nullable.encode(out)?;
    proof {
        lemma_concat_associative(old(out)@, acc0, v.nullable.wire());
    }
    let ghost acc1 = acc0 + v.nullable.wire();
    v.reference.encode(out)?;
    proof {
        lemma_concat_associative(old(out)@, acc1, v.reference.wire());
    }
    let ghost acc2 = acc1 + v.reference.wire();
    encode_type_list(&v.type_args, out)?;
    proof {
        lemma_concat_associative(old(out)@, acc2, uint_bytes(v.type_args@.len() as u32));
    }
    let ghost acc3 = acc2 + uint_bytes(v.type_args@.len() as u32);
    proof {
        lemma_concat_associative(old(out)@, acc3, type_items_wire(v.type_args@));
    }
    let ghost acc4 = acc3 + type_items_wire(v.type_args@);
    assert(final(out)@ == old(out)@ + typedef_type_wire(*v));
    Ok(())
}

/// Reads a value at `*pos` and moves past it.
pub fn decode_typedef_type(data: &[u8], pos: &mut usize) -> (r: Result<TypedefType, KernelError>)
    ensures
        r is Ok ==> *old(pos) < *final(pos) <= data@.len(),
    decreases data@.len() - *old(pos), 0nat,
{
    let tag = read_u8(data, pos)?;
    if tag != 87u8 {
        return Err(KernelError::WrongMagic { expected: 87, actual: tag as u32 });
    }
    let nullable = <Nullable as Codec>::decode(data, pos)?;
    let reference = <CanonicalNameRef as Codec>::decode(data, pos)?;
    let type_args = decode_type_list(data, pos)?;
    Ok(TypedefType { nullable, reference, type_args })
}

/// A function: its parameters, return type and body.
#[derive(Debug, Default, PartialEq)]
pub struct Function {
    pub file_range: FileRange,
    pub async_marker: u8,
    pub dart_async_marker: u8,
    pub type_params: Vec<TypeParameter>,
    pub param_count: Uint,
    pub required_param_count: Uint,
    pub positional_params: Vec<VarDecl>,
    pub named_params: Vec<VarDecl>,
    pub return_type: Type,
    pub future_value_type: Option<Type>,
    pub body: Option<Box<Stmt>>,
}

/// Every count and variable-length integer in the value fits in 30 bits.
pub open spec fn function_encodable(v: Function) -> bool
    decreases v,
{
    v.file_range.encodable()
    && v.async_marker.encodable()
    && v.dart_async_marker.encodable()
    && (v.type_params@.len() < 0x4000_0000 && type_parameter_items_encodable(v.type_params@))
    && v.param_count.encodable()
    && v.required_param_count.encodable()
    && (v.positional_params@.len() < 0x4000_0000 && var_decl_items_encodable(v.positional_params@))
    && (v.named_params@.len() < 0x4000_0000 && var_decl_items_encodable(v.named_params@))
    && type_encodable(v.return_type)
    && (match v.future_value_type { Some(x) => type_encodable(x), None => true })
    && (match v.body { Some(x) => stmt_encodable(*x), None => true })
}

/// The wire form: the tag byte, then the fields in order.
pub open spec fn function_wire(v: Function) -> Seq<u8>
    decreases v,
{
    seq![3u8]
    + v.file_range.wire()
    + v.async_marker.wire()
    + v.dart_async_marker.wire()
    + uint_bytes(v.type_params@.len() as u32) + type_parameter_items_wire(v.type_params@)
    + v.param_count.wire()
    + v.required_param_count.wire()
    + uint_bytes(v.positional_params@.len() as u32) + var_decl_items_wire(v.positional_params@)
    + uint_bytes(v.named_params@.len() as u32) + var_decl_items_wire(v.named_params@)
    + type_wire(v.return_type)
    + (match v.future_value_type { Some(x) => seq![1u8] + type_wire(x), None => seq![0u8] })
    + (match v.body { Some(x) => seq![1u8] + stmt_wire(*x), None => seq![0u8] })
}

/// Appends the wire form of `v`; fails exactly when a count or integer in it reaches 2^30.
#[verifier::rlimit(100)]
pub fn encode_function(v: &Function, out: &mut Vec<u8>) -> (r: Result<(), KernelError>)
    ensures
        r is Ok <==> function_encodable(*v),
        r is Ok ==> final(out)@ == old(out)@ + function_wire(*v),
    decreases v, 1nat,
{
    out.push(3u8);
    let ghost acc0 = seq![3u8];
    v.file_range.encode(out)?;
    proof {
        lemma_concat_associative(old(out)@, acc0, v.file_range.wire());
    }
    let ghost acc1 = acc0 + v.file_range.wire();
    v.async_marker.encode(out)?;
    proof {
        lemma_concat_associative(old(out)@, acc1, v.async_marker.wire());
    }
    let ghost acc2 = acc1 + v.async_marker.wire();
    v.dart_async_marker.encode(out)?;
    proof {
        lemma_concat_associative(old(out)@, acc2, v.dart_async_marker.wire());
    }
    let ghost acc3 = acc2 + v.dart_async_marker.wire();
    encode_type_parameter_list(&v.type_params, out)?;
    proof {
        lemma_concat_associative(old(out)@, acc3, uint_bytes(v.type_params@.len() as u32));
    }
    let ghost acc4 = acc3 + uint_bytes(v.type_params@.len() as u32);
    proof {
        lemma_concat_associative(old(out)@, acc4, type_parameter_items_wire(v.type_params@));
    }
    let ghost acc5 = acc4 + type_parameter_items_wire(v.type_params@);
    v.param_count.encode(out)?;
    proof {
        lemma_concat_associative(old(out)@, acc5, v.param_count.wire());
    }
    let ghost acc6 = acc5 + v.param_count.wire();
    v.required_param_count.encode(out)?;
    proof {
        lemma_concat_associative(old(out)@, acc6, v.required_param_count.wire());
    }
    let ghost acc7 = acc6 + v.required_param_count.wire();
    encode_var_decl_list(&v.positional_params, out)?;
    proof {
        lemma_concat_associative(old(out)@, acc7, uint_bytes(v.positional_params@.len() as u32));
    }
    let ghost acc8 = acc7 + uint_bytes(v.positional_params@.len() as u32);
    proof {
        lemma_concat_associative(old(out)@, acc8, var_decl_items_wire(v.positional_params@));
    }
    let ghost acc9 = acc8 + var_decl_items_wire(v.positional_params@);
    encode_var_decl_list(&v.named_params, out)?;
    proof {
        lemma_concat_associative(old(out)@, acc9, uint_bytes(v.named_params@.len() as u32));
    }
    let ghost acc10 = acc9 + uint_bytes(v.named_params@.len() as u32);
    proof {
        lemma_concat_associative(old(out)@, acc10, var_decl_items_wire(v.named_params@));
    }
    let ghost acc11 = acc10 + var_decl_items_wire(v.named_params@);
    encode_type(&v.return_type, out)?;
    proof {
        lemma_concat_associative(old(out)@, acc11, type_wire(v.return_type));
    }
    let ghost acc12 = acc11 + type_wire(v.return_type);
    match &v.future_value_type {
        Some(x) => {
            out.push(1u8);
            encode_type(x, out)?;
        },
        None => {
            out.push(0u8);
        },
    }
    proof {
        lemma_concat_associative(old(out)@, acc12, (match &v.future_value_type { Some(x) => seq![1u8] + type_wire(*x), None => seq![0u8] }));
    }
    let ghost acc13 = acc12 + (match &v.future_value_type { Some(x) => seq![1u8] + type_wire(*x), None => seq![0u8] });
    match &v.body {
        Some(x) => {
            out.push(1u8);
            encode_stmt(x, out)?;
        },
        None => {
            out.push(0u8);
        },
    }
    proof {
        lemma_concat_associative(old(out)@, acc13, (match &v.body { Some(x) => seq![1u8] + stmt_wire(**x), None => seq![0u8] }));
    }
    let ghost acc14 = acc13 + (match &v.body { Some(x) => seq![1u8] + stmt_wire(**x), None => seq![0u8] });
    assert(final(out)@ == old(out)@ + function_wire(*v));
    Ok(())
}

/// Reads a value at `*pos` and moves past it.
pub fn decode_function(data: &[u8], pos: &mut usize) -> (r: Result<Function, KernelError>)
    ensures
        r is Ok ==> *old(pos) < *final(pos) <= data@.len(),
    decreases data@.len() - *old(pos), 0nat,
{
    let tag = read_u8(data, pos)?;
    if tag != 3u8 {
        return Err(KernelError::WrongMagic { expected: 3, actual: tag as u32 });
    }
    let file_range = <FileRange as Codec>::decode(data, pos)?;
    let async_marker = <u8 as Codec>::decode(data, pos)?;
    let dart_async_marker = <u8 as Codec>::decode(data, pos)?;
    let type_params = decode_type_parameter_list(data, pos)?;
    let param_count = <Uint as Codec>::decode(data, pos)?;
    let required_param_count = <Uint as Codec>::decode(data, pos)?;
    let positional_params = decode_var_decl_list(data, pos)?;
    let named_params = decode_var_decl_list(data, pos)?;
    let return_type = decode_type(data, pos)?;
    let future_value_type = match read_u8(data, pos)? {
        0u8 => None,
        1u8 => Some(decode_type(data, pos)?),
        b => {
            return Err(KernelError::InvalidOption(b));
        },
    };
    let body = match read_u8(data, pos)? {
        0u8 => None,
        1u8 => Some(Box::new(decode_stmt(data, pos)?)),
        b => {
            return Err(KernelError::InvalidOption(b));
        },
    };
    Ok(Function { file_range, async_marker, dart_async_marker, type_params, param_count, required_param_count, positional_params, named_params, return_type, future_value_type, body })
}

/// A method, getter, setter, operator or factory.
#[derive(Debug, Default, PartialEq)]
pub struct Procedure {
    pub canonical_name: CanonicalNameRef,
    pub file_uri: UriRef,
    pub offset: FileOffset,
    pub definition_range: FileRange,
    pub kind: ProcedureKind,
    pub stub_kind: ProcedureStubKind,
    pub flags: ProcedureFlags,
    pub name: StringRef,
    pub annotations: Vec<Expr>,
    pub stub_target: CanonicalNameRef,
    pub signature_type: Option<Box<FunctionType>>,
    pub function: Box<Function>,
}

/// Every count and variable-length integer in the value fits in 30 bits.
pub open spec fn procedure_encodable(v: Procedure) -> bool
{
    v.canonical_name.encodable()
    && v.file_uri.encodable()
    && v.offset.encodable()
    && v.definition_range.encodable()
    && v.kind.encodable()
    && v.stub_kind.encodable()
    && v.flags.encodable()
    && v.name.encodable()
    && (v.annotations@.len() < 0x4000_0000 && expr_items_encodable(v.annotations@))
    && v.stub_target.encodable()
    && (match v.signature_type { Some(x) => function_type_encodable(*x), None => true })
    && function_encodable(*v.function)
}

/// The wire form: the tag byte, then the fields in order.
pub open spec fn procedure_wire(v: Procedure) -> Seq<u8>
{
    seq![6u8]
    + v.canonical_name.wire()
    + v.file_uri.wire()
    + v.offset.wire()
    + v.definition_range.wire()
    + v.kind.wire()
    + v.stub_kind.wire()
    + v.flags.wire()
    + v.name.wire()
    + uint_bytes(v.annotations@.len() as u32) + expr_items_wire(v.annotations@)
    + v.stub_target.wire()
    + (match v.signature_type { Some(x) => seq![1u8] + function_type_wire(*x), None => seq![0u8] })
    + function_wire(*v.function)
}

/// Appends the wire form of `v`; fails exactly when a count or integer in it reaches 2^30.
#[verifier::rlimit(100)]
pub fn encode_procedure(v: &Procedure, out: &mut Vec<u8>) -> (r: Result<(), KernelError>)
    ensures
        r is Ok <==> procedure_encodable(*v),
        r is Ok ==> final(out)@ == old(out)@ + procedure_wire(*v),
{
    out.push(6u8);
    let ghost acc0 = seq![6u8];
    v.canonical_name.encode(out)?;
    proof {
        lemma_concat_associative(old(out)@, acc0, v.canonical_name.wire());
    }
    let ghost acc1 = acc0 + v.canonical_name.wire();
    v.file_uri.encode(out)?;
    proof {
        lemma_concat_associative(old(out)@, acc1, v.file_uri.wire());
    }
    let ghost acc2 = acc1 + v.file_uri.wire();
    v.offset.encode(out)?;
    proof {
        lemma_concat_associative(old(out)@, acc2, v.offset.wire());
    }
    let ghost acc3 = acc2 + v.offset.wire();
    v.definition_range.encode(out)?;
    proof {
        lemma_concat_associative(old(out)@, acc3, v.definition_range.wire());
    }
    let ghost acc4 = acc3 + v.definition_range.wire();
    v.kind.encode(out)?;
    proof {
        lemma_concat_associative(old(out)@, acc4, v.kind.wire());
    }
    let ghost acc5 = acc4 + v.kind.wire();
    v.stub_kind.encode(out)?;
    proof {
        lemma_concat_associative(old(out)@, acc5, v.stub_kind.wire());
    }
    let ghost acc6 = acc5 + v.stub_kind.wire();
    v.flags.encode(out)?;
    proof {
        lemma_concat_associative(old(out)@, acc6, v.flags.wire());
    }
    let ghost acc7 = acc6 + v.flags.wire();
    v.name.encode(out)?;
    proof {
        lemma_concat_associative(old(out)@, acc7, v.name.wire());
    }
    let ghost acc8 = acc7 + v.name.wire();
    encode_expr_list(&v.annotations, out)?;
    proof {
        lemma_concat_associative(old(out)@, acc8, uint_bytes(v.annotations@.len() as u32));
    }
    let ghost acc9 = acc8 + uint_bytes(v.annotations@.len() as u32);
    proof {
        lemma_concat_associative(old(out)@, acc9, expr_items_wire(v.annotations@));
    }
    let ghost acc10 = acc9 + expr_items_wire(v.annotations@);
    v.stub_target.encode(out)?;
    proof {
        lemma_concat_associative(old(out)@, acc10, v.stub_target.wire());
    }
    let ghost acc11 = acc10 + v.stub_target.wire();
    match &v.signature_type {
        Some(x) => {
            out.push(1u8);
            encode_function_type(x, out)?;
        },
        None => {
            out.push(0u8);
        },
    }
    proof {
        lemma_concat_associative(old(out)@, acc11, (match &v.signature_type { Some(x) => seq![1u8] + function_type_wire(**x), None => seq![0u8] }));
    }
    let ghost acc12 = acc11 + (match &v.signature_type { Some(x) => seq![1u8] + function_type_wire(**x), None => seq![0u8] });
    encode_function(&v.function, out)?;
    proof {
        lemma_concat_associative(old(out)@, acc12, function_wire(*v.function));
    }
    let ghost acc13 = acc12 + function_wire(*v.function);
    assert(final(out)@ == old(out)@ + procedure_wire(*v));
    Ok(())
}

/// Reads a value at `*pos` and moves past it.
pub fn decode_procedure(data: &[u8], pos: &mut usize) -> (r: Result<Procedure, KernelError>)
    ensures
        r is Ok ==> *old(pos) < *final(pos) <= data@.len(),
{
    let tag = read_u8(data, pos)?;
    if tag != 6u8 {
        return Err(KernelError::WrongMagic { expected: 6, actual: tag as u32 });
    }
    let canonical_name = <CanonicalNameRef as Codec>::decode(data, pos)?;
    let file_uri = <UriRef as Codec>::decode(data, pos)?;
    let offset = <FileOffset as Codec>::decode(data, pos)?;
    let definition_range = <FileRange as Codec>::decode(data, pos)?;
    let kind = <ProcedureKind as Codec>::decode(data, pos)?;
    let stub_kind = <ProcedureStubKind as Codec>::decode(data, pos)?;
    let flags = <ProcedureFlags as Codec>::decode(data, pos)?;
    let name = <StringRef as Codec>::decode(data, pos)?;
    let annotations = decode_expr_list(data, pos)?;
    let stub_target = <CanonicalNameRef as Codec>::decode(data, pos)?;
    let signature_type = match read_u8(data, pos)? {
        0u8 => None,
        1u8 => Some(Box::new(decode_function_type(data, pos)?)),
        b => {
            return Err(KernelError::InvalidOption(b));
        },
    };
    let function = Box::new(decode_function(data, pos)?);
    Ok(Procedure { canonical_name, file_uri, offset, definition_range, kind, stub_kind, flags, name, annotations, stub_target, signature_type, function })
}

pub open spec fn procedure_items_encodable(s: Seq<Procedure>) -> bool
{
    forall|i: int| 0 <= i < s.len() ==> procedure_encodable(#[trigger] s[i])
}

pub open spec fn procedure_items_wire(s: Seq<Procedure>) -> Seq<u8>
    decreases s,
{
    if s.len() == 0 {
        Seq::empty()
    } else {
        procedure_items_wire(s.drop_last()) + procedure_wire(s.last())
    }
}

/// Appends a list: its count, then each item.
pub fn encode_procedure_list(v: &Vec<Procedure>, out: &mut Vec<u8>) -> (r: Result<(), KernelError>)
    ensures
        r is Ok <==> v@.len() < 0x4000_0000 && procedure_items_encodable(v@),
        r is Ok ==> final(out)@ == old(out)@ + uint_bytes(v@.len() as u32) + procedure_items_wire(v@),
{
    if v.len() >= 0x4000_0000 {
        return Err(KernelError::InvalidVarUint);
    }
    Uint(v.len() as u32).encode(out)?;
    let ghost start = out@;
    let mut i: usize = 0;
    while i < v.len()
        invariant
            i <= v.len(),
            procedure_items_encodable(v@.subrange(0, i as int)),
            out@ == start + procedure_items_wire(v@.subrange(0, i as int)),
        decreases v.len() - i,
    {
        let res = encode_procedure(&v[i], out);
        if res.is_err() {
            assert(!procedure_items_encodable(v@)) by {
                assert(!procedure_encodable(v@[i as int]));
            }
            return res;
        }
        proof {
            let s = v@.subrange(0, i + 1);
            assert(s.drop_last() =~= v@.subrange(0, i as int));
            assert forall|k: int| 0 <= k < s.len() implies procedure_encodable(#[trigger] s[k]) by {
                if k < i {
                    assert(s[k] == v@.subrange(0, i as int)[k]);
                }
            }
        }
        i = i + 1;
    }
    assert(v@.subrange(0, i as int) =~= v@);
    Ok(())
}

/// Reads a list: a count, then that many items.
pub fn decode_procedure_list(data: &[u8], pos: &mut usize) -> (r: Result<Vec<Procedure>, KernelError>)
    ensures
        r is Ok ==> *old(pos) < *final(pos) <= data@.len(),
        r is Ok ==> uint_parse(data@, *old(pos) as int) is Some && r->Ok_0@.len() == (uint_parse(data@, *old(pos) as int)->0).0,
        uint_parse(data@, *old(pos) as int) is Some && (uint_parse(data@, *old(pos) as int)->0).0 == 0 ==> r is Ok && r->Ok_0@.len() == 0
            && *final(pos) == (uint_parse(data@, *old(pos) as int)->0).1,
{
    let n = Uint::decode(data, pos)?;
    let ghost q0 = *pos;
    let mut v: Vec<Procedure> = Vec::new();
    let mut i: u32 = 0;
    while i < n.0
        invariant
            *old(pos) < *pos <= data@.len(),
            i <= n.0,
            v@.len() == i,
            i == 0 ==> *pos == q0,
            uint_parse(data@, *old(pos) as int) == Some((n.0, q0 as int)),
        decreases n.0 - i,
    {
        let x = decode_procedure(data, pos)?;
        v.push(x);
        i = i + 1;
    }
    Ok(v)
}

/// An extension declaration.
#[derive(Debug, Default, PartialEq)]
pub struct Extension {
    pub canonical_name: CanonicalNameRef,
    pub name: StringRef,
    pub annotations: Vec<Expr>,
    pub file_uri: UriRef,
    pub offset: FileOffset,
    pub flags: u8,
    pub type_params: Vec<TypeParameter>,
    pub on_type: Type,
    pub show_hide_clause: Option<ExtensionShowClause>,
}

/// Every count and variable-length integer in the value fits in 30 bits.
pub open spec fn extension_encodable(v: Extension) -> bool
{
    v.canonical_name.encodable()
    && v.name.encodable()
    && (v.annotations@.len() < 0x4000_0000 && expr_items_encodable(v.annotations@))
    && v.file_uri.encodable()
    && v.offset.encodable()
    && v.flags.encodable()
    && (v.type_params@.len() < 0x4000_0000 && type_parameter_items_encodable(v.type_params@))
    && type_encodable(v.on_type)
}

/// The wire form: the tag byte, then the fields in order.
pub open spec fn extension_wire(v: Extension) -> Seq<u8>
{
    seq![115u8]
    + v.canonical_name.wire()
    + v.name.wire()
    + uint_bytes(v.annotations@.len() as u32) + expr_items_wire(v.annotations@)
    + v.file_uri.wire()
    + v.offset.wire()
    + v.flags.wire()
    + uint_bytes(v.type_params@.len() as u32) + type_parameter_items_wire(v.type_params@)
    + type_wire(v.on_type)
    + (match v.show_hide_clause { Some(_) => seq![1u8], None => seq![0u8] })
}

/// Appends the wire form of `v`; fails exactly when a count or integer in it reaches 2^30.
#[verifier::rlimit(100)]
pub fn encode_extension(v: &Extension, out: &mut Vec<u8>) -> (r: Result<(), KernelError>)
    ensures
        r is Ok <==> extension_encodable(*v),
        r is Ok ==> final(out)@ == old(out)@ + extension_wire(*v),
{
    out.push(115u8);
    let ghost acc0 = seq![115u8];
    v.canonical_name.encode(out)?;
    proof {
        lemma_concat_associative(old(out)@, acc0, v.canonical_name.wire());
    }
    let ghost acc1 = acc0 + v.canonical_name.wire();
    v.name.encode(out)?;
    proof {
        lemma_concat_associative(old(out)@, acc1, v.name.wire());
    }
    let ghost acc2 = acc1 + v.name.wire();
    encode_expr_list(&v.annotations, out)?;
    proof {
        lemma_concat_associative(old(out)@, acc2, uint_bytes(v.annotations@.len() as u32));
    }
    let ghost acc3 = acc2 + uint_bytes(v.annotations@.len() as u32);
    proof {
        lemma_concat_associative(old(out)@, acc3, expr_items_wire(v.annotations@));
    }
    let ghost acc4 = acc3 + expr_items_wire(v.annotations@);
    v.file_uri.encode(out)?;
    proof {
        lemma_concat_associative(old(out)@, acc4, v.file_uri.wire());
    }
    let ghost acc5 = acc4 + v.file_uri.wire();
    v.offset.encode(out)?;
    proof {
        lemma_concat_associative(old(out)@, acc5, v.offset.wire());
    }
    let ghost acc6 = acc5 + v.offset.wire();
    v.flags.encode(out)?;
    proof {
        lemma_concat_associative(old(out)@, acc6, v.flags.wire());
    }
    let ghost acc7 = acc6 + v.flags.wire();
    encode_type_parameter_list(&v.type_params, out)?;
    proof {
        lemma_concat_associative(old(out)@, acc7, uint_bytes(v.type_params@.len() as u32));
    }
    let ghost acc8 = acc7 + uint_bytes(v.type_params@.len() as u32);
    proof {
        lemma_concat_associative(old(out)@, acc8, type_parameter_items_wire(v.type_params@));
    }
    let ghost acc9 = acc8 + type_parameter_items_wire(v.type_params@);
    encode_type(&v.on_type, out)?;
    proof {
        lemma_concat_associative(old(out)@, acc9, type_wire(v.on_type));
    }
    let ghost acc10 = acc9 + type_wire(v.on_type);
    match &v.show_hide_clause {
        Some(_) => {
            out.push(1u8);
        },
        None => {
            out.push(0u8);
        },
    }
    proof {
        lemma_concat_associative(old(out)@, acc10, (match &v.show_hide_clause { Some(_) => seq![1u8], None => seq![0u8] }));
    }
    let ghost acc11 = acc10 + (match &v.show_hide_clause { Some(_) => seq![1u8], None => seq![0u8] });
    assert(final(out)@ == old(out)@ + extension_wire(*v));
    Ok(())
}

/// Reads a value at `*pos` and moves past it.
pub fn decode_extension(data: &[u8], pos: &mut usize) -> (r: Result<Extension, KernelError>)
    ensures
        r is Ok ==> *old(pos) < *final(pos) <= data@.len(),
{
    let tag = read_u8(data, pos)?;
    if tag != 115u8 {
        return Err(KernelError::WrongMagic { expected: 115, actual: tag as u32 });
    }
    let canonical_name = <CanonicalNameRef as Codec>::decode(data, pos)?;
    let name = <StringRef as Codec>::decode(data, pos)?;
    let annotations = decode_expr_list(data, pos)?;
    let file_uri = <UriRef as Codec>::decode(data, pos)?;
    let offset = <FileOffset as Codec>::decode(data, pos)?;
    let flags = <u8 as Codec>::decode(data, pos)?;
    let type_params = decode_type_parameter_list(data, pos)?;
    let on_type = decode_type(data, pos)?;
    let show_hide_clause = match read_u8(data, pos)? {
        0u8 => None,
        1u8 => Some(ExtensionShowClause {  }),
        b => {
            return Err(KernelError::InvalidOption(b));
        },
    };
    Ok(Extension { canonical_name, name, annotations, file_uri, offset, flags, type_params, on_type, show_hide_clause })
}

pub open spec fn extension_items_encodable(s: Seq<Extension>) -> bool
{
    forall|i: int| 0 <= i < s.len() ==> extension_encodable(#[trigger] s[i])
}

pub open spec fn extension_items_wire(s: Seq<Extension>) -> Seq<u8>
    decreases s,
{
    if s.len() == 0 {
        Seq::empty()
    } else {
        extension_items_wire(s.drop_last()) + extension_wire(s.last())
    }
}

/// Appends a list: its count, then each item.
pub fn encode_extension_list(v: &Vec<Extension>, out: &mut Vec<u8>) -> (r: Result<(), KernelError>)
    ensures
        r is Ok <==> v@.len() < 0x4000_0000 && extension_items_encodable(v@),
        r is Ok ==> final(out)@ == old(out)@ + uint_bytes(v@.len() as u32) + extension_items_wire(v@),
{
    if v.len() >= 0x4000_0000 {
        return Err(KernelError::InvalidVarUint);
    }
    Uint(v.len() as u32).encode(out)?;
    let ghost start = out@;
    let mut i: usize = 0;
    while i < v.len()
        invariant
            i <= v.len(),
            extension_items_encodable(v@.subrange(0, i as int)),
            out@ == start + extension_items_wire(v@.subrange(0, i as int)),
        decreases v.len() - i,
    {
        let res = encode_extension(&v[i], out);
        if res.is_err() {
            assert(!extension_items_encodable(v@)) by {
                assert(!extension_encodable(v@[i as int]));
            }
            return res;
        }
        proof {
            let s = v@.subrange(0, i + 1);
            assert(s.drop_last() =~= v@.subrange(0, i as int));
            assert forall|k: int| 0 <= k < s.len() implies extension_encodable(#[trigger] s[k]) by {
                if k < i {
                    assert(s[k] == v@.subrange(0, i as int)[k]);
                }
            }
        }
        i = i + 1;
    }
    assert(v@.subrange(0, i as int) =~= v@);
    Ok(())
}

/// Reads a list: a count, then that many items.
pub fn decode_extension_list(data: &[u8], pos: &mut usize) -> (r: Result<Vec<Extension>, KernelError>)
    ensures
        r is Ok ==> *old(pos) < *final(pos) <= data@.len(),
        r is Ok ==> uint_parse(data@, *old(pos) as int) is Some && r->Ok_0@.len() == (uint_parse(data@, *old(pos) as int)->0).0,
        uint_parse(data@, *old(pos) as int) is Some && (uint_parse(data@, *old(pos) as int)->0).0 == 0 ==> r is Ok && r->Ok_0@.len() == 0
            && *final(pos) == (uint_parse(data@, *old(pos) as int)->0).1,
{
    let n = Uint::decode(data, pos)?;
    let ghost q0 = *pos;
    let mut v: Vec<Extension> = Vec::new();
    let mut i: u32 = 0;
    while i < n.0
        invariant
            *old(pos) < *pos <= data@.len(),
            i <= n.0,
            v@.len() == i,
            i == 0 ==> *pos == q0,
            uint_parse(data@, *old(pos) as int) == Some((n.0, q0 as int)),
        decreases n.0 - i,
    {
        let x = decode_extension(data, pos)?;
        v.push(x);
        i = i + 1;
    }
    Ok(v)
}

/// A field declaration.
#[derive(Debug, Default, PartialEq)]
pub struct Field {
    pub canonical_name: CanonicalNameRef,
    pub canonical_name_getter: CanonicalNameRef,
    pub canonical_name_setter: CanonicalNameRef,
    pub file_uri: UriRef,
    pub file_range: FileRange,
    pub flags: FieldFlags,
    pub name: StringRef,
    pub annotations: Vec<Expr>,
    pub typ: Type,
    pub initializer: Option<Box<Expr>>,
}

/// Every count and variable-length integer in the value fits in 30 bits.
pub open spec fn field_encodable(v: Field) -> bool
{
    v.canonical_name.encodable()
    && v.canonical_name_getter.encodable()
    && v.canonical_name_setter.encodable()
    && v.file_uri.encodable()
    && v.file_range.encodable()
    && v.flags.encodable()
    && v.name.encodable()
    && (v.annotations@.len() < 0x4000_0000 && expr_items_encodable(v.annotations@))
    && type_encodable(v.typ)
    && (match v.initializer { Some(x) => expr_encodable(*x), None => true })
}

/// The wire form: the tag byte, then the fields in order.
pub open spec fn field_wire(v: Field) -> Seq<u8>
{
    seq![4u8]
    + v.canonical_name.wire()
    + v.canonical_name_getter.wire()
    + v.canonical_name_setter.wire()
    + v.file_uri.wire()
    + v.file_range.wire()
    + v.flags.wire()
    + v.name.wire()
    + uint_bytes(v.annotations@.len() as u32) + expr_items_wire(v.annotations@)
    + type_wire(v.typ)
    + (match v.initializer { Some(x) => seq![1u8] + expr_wire(*x), None => seq![0u8] })
}

/// Appends the wire form of `v`; fails exactly when a count or integer in it reaches 2^30.
#[verifier::rlimit(100)]
pub fn encode_field(v: &Field, out: &mut Vec<u8>) -> (r: Result<(), KernelError>)
    ensures
        r is Ok <==> field_encodable(*v),
        r is Ok ==> final(out)@ == old(out)@ + field_wire(*v),
{
    out.push(4u8);
    let ghost acc0 = seq![4u8];
    v.canonical_name.encode(out)?;
    proof {
        lemma_concat_associative(old(out)@, acc0, v.canonical_name.wire());
    }
    let ghost acc1 = acc0 + v.canonical_name.wire();
    v.canonical_name_getter.encode(out)?;
    proof {
        lemma_concat_associative(old(out)@, acc1, v.canonical_name_getter.wire());
    }
    let ghost acc2 = acc1 + v.canonical_name_getter.wire();
    v.canonical_name_setter.encode(out)?;
    proof {
        lemma_concat_associative(old(out)@, acc2, v.canonical_name_setter.wire());
    }
    let ghost acc3 = acc2 + v.canonical_name_setter.wire();
    v.file_uri.encode(out)?;
    proof {
        lemma_concat_associative(old(out)@, acc3, v.file_uri.wire());
    }
    let ghost acc4 = acc3 + v.file_uri.wire();
    v.file_range.encode(out)?;
    proof {
        lemma_concat_associative(old(out)@, acc4, v.file_range.wire());
    }
    let ghost acc5 = acc4 + v.file_range.wire();
    v.flags.encode(out)?;
    proof {
        lemma_concat_associative(old(out)@, acc5, v.flags.wire());
    }
    let ghost acc6 = acc5 + v.flags.wire();
    v.name.encode(out)?;
    proof {
        lemma_concat_associative(old(out)@, acc6, v.name.wire());
    }
    let ghost acc7 = acc6 + v.name.wire();
    encode_expr_list(&v.annotations, out)?;
    proof {
        lemma_concat_associative(old(out)@, acc7, uint_bytes(v.annotations@.len() as u32));
    }
    let ghost acc8 = acc7 + uint_bytes(v.annotations@.len() as u32);
    proof {
        lemma_concat_associative(old(out)@, acc8, expr_items_wire(v.annotations@));
    }
    let ghost acc9 = acc8 + expr_items_wire(v.annotations@);
    encode_type(&v.typ, out)?;
    proof {
        lemma_concat_associative(old(out)@, acc9, type_wire(v.typ));
    }
    let ghost acc10 = acc9 + type_wire(v.typ);
    match &v.initializer {
        Some(x) => {
            out.push(1u8);
            encode_expr(x, out)?;
        },
        None => {
            out.push(0u8);
        },
    }
    proof {
        lemma_concat_associative(old(out)@, acc10, (match &v.initializer { Some(x) => seq![1u8] + expr_wire(**x), None => seq![0u8] }));
    }
    let ghost acc11 = acc10 + (match &v.initializer { Some(x) => seq![1u8] + expr_wire(**x), None => seq![0u8] });
    assert(final(out)@ == old(out)@ + field_wire(*v));
    Ok(())
}

/// Reads a value at `*pos` and moves past it.
pub fn decode_field(data: &[u8], pos: &mut usize) -> (r: Result<Field, KernelError>)
    ensures
        r is Ok ==> *old(pos) < *final(pos) <= data@.len(),
{
    let tag = read_u8(data, pos)?;
    if tag != 4u8 {
        return Err(KernelError::WrongMagic { expected: 4, actual: tag as u32 });
    }
    let canonical_name = <CanonicalNameRef as Codec>::decode(data, pos)?;
    let canonical_name_getter = <CanonicalNameRef as Codec>::decode(data, pos)?;
    let canonical_name_setter = <CanonicalNameRef as Codec>::decode(data, pos)?;
    let file_uri = <UriRef as Codec>::decode(data, pos)?;
    let file_range = <FileRange as Codec>::decode(data, pos)?;
    let flags = <FieldFlags as Codec>::decode(data, pos)?;
    let name = <StringRef as Codec>::decode(data, pos)?;
    let annotations = decode_expr_list(data, pos)?;
    let typ = decode_type(data, pos)?;
    let initializer = match read_u8(data, pos)? {
        0u8 => None,
        1u8 => Some(Box::new(decode_expr(data, pos)?)),
        b => {
            return Err(KernelError::InvalidOption(b));
        },
    };
    Ok(Field { canonical_name, canonical_name_getter, canonical_name_setter, file_uri, file_range, flags, name, annotations, typ, initializer })
}

pub open spec fn field_items_encodable(s: Seq<Field>) -> bool
{
    forall|i: int| 0 <= i < s.len() ==> field_encodable(#[trigger] s[i])
}

pub open spec fn field_items_wire(s: Seq<Field>) -> Seq<u8>
    decreases s,
{
    if s.len() == 0 {
        Seq::empty()
    } else {
        field_items_wire(s.drop_last()) + field_wire(s.last())
    }
}

/// Appends a list: its count, then each item.
pub fn encode_field_list(v: &Vec<Field>, out: &mut Vec<u8>) -> (r: Result<(), KernelError>)
    ensures
        r is Ok <==> v@.len() < 0x4000_0000 && field_items_encodable(v@),
        r is Ok ==> final(out)@ == old(out)@ + uint_bytes(v@.len() as u32) + field_items_wire(v@),
{
    if v.len() >= 0x4000_0000 {
        return Err(KernelError::InvalidVarUint);
    }
    Uint(v.len() as u32).encode(out)?;
    let ghost start = out@;
    let mut i: usize = 0;
    while i < v.len()
        invariant
            i <= v.len(),
            field_items_encodable(v@.subrange(0, i as int)),
            out@ == start + field_items_wire(v@.subrange(0, i as int)),
        decreases v.len() - i,
    {
        let res = encode_field(&v[i], out);
        if res.is_err() {
            assert(!field_items_encodable(v@)) by {
                assert(!field_encodable(v@[i as int]));
            }
            return res;
        }
        proof {
            let s = v@.subrange(0, i + 1);
            assert(s.drop_last() =~= v@.subrange(0, i as int));
            assert forall|k: int| 0 <= k < s.len() implies field_encodable(#[trigger] s[k]) by {
                if k < i {
                    assert(s[k] == v@.subrange(0, i as int)[k]);
                }
            }
        }
        i = i + 1;
    }
    assert(v@.subrange(0, i as int) =~= v@);
    Ok(())
}

/// Reads a list: a count, then that many items.
pub fn decode_field_list(data: &[u8], pos: &mut usize) -> (r: Result<Vec<Field>, KernelError>)
    ensures
        r is Ok ==> *old(pos) < *final(pos) <= data@.len(),
        r is Ok ==> uint_parse(data@, *old(pos) as int) is Some && r->Ok_0@.len() == (uint_parse(data@, *old(pos) as int)->0).0,
        uint_parse(data@, *old(pos) as int) is Some && (uint_parse(data@, *old(pos) as int)->0).0 == 0 ==> r is Ok && r->Ok_0@.len() == 0
            && *final(pos) == (uint_parse(data@, *old(pos) as int)->0).1,
{
    let n = Uint::decode(data, pos)?;
    let ghost q0 = *pos;
    let mut v: Vec<Field> = Vec::new();
    let mut i: u32 = 0;
    while i < n.0
        invariant
            *old(pos) < *pos <= data@.len(),
            i <= n.0,
            v@.len() == i,
            i == 0 ==> *pos == q0,
            uint_parse(data@, *old(pos) as int) == Some((n.0, q0 as int)),
        decreases n.0 - i,
    {
        let x = decode_field(data, pos)?;
        v.push(x);
        i = i + 1;
    }
    Ok(v)
}

/// A constructor declaration.
#[derive(Debug, Default, PartialEq)]
pub struct Constructor {
    pub canonical_name: CanonicalNameRef,
    pub file_uri: UriRef,
    pub offset: FileOffset,
    pub definition_range: FileRange,
    pub flags: ConstructorFlags,
    pub name: CanonicalNameRef,
    pub annotations: Vec<Expr>,
    pub function: Box<Function>,
    pub initializers: Vec<Initializer>,
}

/// Every count and variable-length integer in the value fits in 30 bits.
pub open spec fn constructor_encodable(v: Constructor) -> bool
{
    v.canonical_name.encodable()
    && v.file_uri.encodable()
    && v.offset.encodable()
    && v.definition_range.encodable()
    && v.flags.encodable()
    && v.name.encodable()
    && (v.annotations@.len() < 0x4000_0000 && expr_items_encodable(v.annotations@))
    && function_encodable(*v.function)
    && (v.initializers@.len() < 0x4000_0000 && initializer_items_encodable(v.initializers@))
}

/// The wire form: the tag byte, then the fields in order.
pub open spec fn constructor_wire(v: Constructor) -> Seq<u8>
{
    seq![5u8]
    + v.canonical_name.wire()
    + v.file_uri.wire()
    + v.offset.wire()
    + v.definition_range.wire()
    + v.flags.wire()
    + v.name.wire()
    + uint_bytes(v.annotations@.len() as u32) + expr_items_wire(v.annotations@)
    + function_wire(*v.function)
    + uint_bytes(v.initializers@.len() as u32) + initializer_items_wire(v.initializers@)
}

/// Appends the wire form of `v`; fails exactly when a count or integer in it reaches 2^30.
#[verifier::rlimit(100)]
pub fn encode_constructor(v: &Constructor, out: &mut Vec<u8>) -> (r: Result<(), KernelError>)
    ensures
        r is Ok <==> constructor_encodable(*v),
        r is Ok ==> final(out)@ == old(out)@ + constructor_wire(*v),
{
    out.push(5u8);
    let ghost acc0 = seq![5u8];
    v.canonical_name.encode(out)?;
    proof {
        lemma_concat_associative(old(out)@, acc0, v.canonical_name.wire());
    }
    let ghost acc1 = acc0 + v.canonical_name.wire();
    v.file_uri.encode(out)?;
    proof {
        lemma_concat_associative(old(out)@, acc1, v.file_uri.wire());
    }
    let ghost acc2 = acc1 + v.file_uri.wire();
    v.offset.encode(out)?;
    proof {
        lemma_concat_associative(old(out)@, acc2, v.offset.wire());
    }
    let ghost acc3 = acc2 + v.offset.wire();
    v.definition_range.encode(out)?;
    proof {
        lemma_concat_associative(old(out)@, acc3, v.definition_range.wire());
    }
    let ghost acc4 = acc3 + v.definition_range.wire();
    v.flags.encode(out)?;
    proof {
        lemma_concat_associative(old(out)@, acc4, v.flags.wire());
    }
    let ghost acc5 = acc4 + v.flags.wire();
    v.name.encode(out)?;
    proof {
        lemma_concat_associative(old(out)@, acc5, v.name.wire());
    }
    let ghost acc6 = acc5 + v.name.wire();
    encode_expr_list(&v.annotations, out)?;
    proof {
        lemma_concat_associative(old(out)@, acc6, uint_bytes(v.annotations@.len() as u32));
    }
    let ghost acc7 = acc6 + uint_bytes(v.annotations@.len() as u32);
    proof {
        lemma_concat_associative(old(out)@, acc7, expr_items_wire(v.annotations@));
    }
    let ghost acc8 = acc7 + expr_items_wire(v.annotations@);
    encode_function(&v.function, out)?;
    proof {
        lemma_concat_associative(old(out)@, acc8, function_wire(*v.function));
    }
    let ghost acc9 = acc8 + function_wire(*v.function);
    encode_initializer_list(&v.initializers, out)?;
    proof {
        lemma_concat_associative(old(out)@, acc9, uint_bytes(v.initializers@.len() as u32));
    }
    let ghost acc10 = acc9 + uint_bytes(v.initializers@.len() as u32);
    proof {
        lemma_concat_associative(old(out)@, acc10, initializer_items_wire(v.initializers@));
    }
    let ghost acc11 = acc10 + initializer_items_wire(v.initializers@);
    assert(final(out)@ == old(out)@ + constructor_wire(*v));
    Ok(())
}

/// Reads a value at `*pos` and moves past it.
pub fn decode_constructor(data: &[u8], pos: &mut usize) -> (r: Result<Constructor, KernelError>)
    ensures
        r is Ok ==> *old(pos) < *final(pos) <= data@.len(),
{
    let tag = read_u8(data, pos)?;
    if tag != 5u8 {
        return Err(KernelError::WrongMagic { expected: 5, actual: tag as u32 });
    }
    let canonical_name = <CanonicalNameRef as Codec>::decode(data, pos)?;
    let file_uri = <UriRef as Codec>::decode(data, pos)?;
    let offset = <FileOffset as Codec>::decode(data, pos)?;
    let definition_range = <FileRange as Codec>::decode(data, pos)?;
    let flags = <ConstructorFlags as Codec>::decode(data, pos)?;
    let name = <CanonicalNameRef as Codec>::decode(data, pos)?;
    let annotations = decode_expr_list(data, pos)?;
    let function = Box::new(decode_function(data, pos)?);
    let initializers = decode_initializer_list(data, pos)?;
    Ok(Constructor { canonical_name, file_uri, offset, definition_range, flags, name, annotations, function, initializers })
}

pub open spec fn constructor_items_encodable(s: Seq<Constructor>) -> bool
{
    forall|i: int| 0 <= i < s.len() ==> constructor_encodable(#[trigger] s[i])
}

pub open spec fn constructor_items_wire(s: Seq<Constructor>) -> Seq<u8>
    decreases s,
{
    if s.len() == 0 {
        Seq::empty()
    } else {
        constructor_items_wire(s.drop_last()) + constructor_wire(s.last())
    }
}

/// Appends a list: its count, then each item.
pub fn encode_constructor_list(v: &Vec<Constructor>, out: &mut Vec<u8>) -> (r: Result<(), KernelError>)
    ensures
        r is Ok <==> v@.len() < 0x4000_0000 && constructor_items_encodable(v@),
        r is Ok ==> final(out)@ == old(out)@ + uint_bytes(v@.len() as u32) + constructor_items_wire(v@),
{
    if v.len() >= 0x4000_0000 {
        return Err(KernelError::InvalidVarUint);
    }
    Uint(v.len() as u32).encode(out)?;
    let ghost start = out@;
    let mut i: usize = 0;
    while i < v.len()
        invariant
            i <= v.len(),
            constructor_items_encodable(v@.subrange(0, i as int)),
            out@ == start + constructor_items_wire(v@.subrange(0, i as int)),
        decreases v.len() - i,
    {
        let res = encode_constructor(&v[i], out);
        if res.is_err() {
            assert(!constructor_items_encodable(v@)) by {
                assert(!constructor_encodable(v@[i as int]));
            }
            return res;
        }
        proof {
            let s = v@.subrange(0, i + 1);
            assert(s.drop_last() =~= v@.subrange(0, i as int));
            assert forall|k: int| 0 <= k < s.len() implies constructor_encodable(#[trigger] s[k]) by {
                if k < i {
                    assert(s[k] == v@.subrange(0, i as int)[k]);
                }
            }
        }
        i = i + 1;
    }
    assert(v@.subrange(0, i as int) =~= v@);
    Ok(())
}

/// Reads a list: a count, then that many items.
pub fn decode_constructor_list(data: &[u8], pos: &mut usize) -> (r: Result<Vec<Constructor>, KernelError>)
    ensures
        r is Ok ==> *old(pos) < *final(pos) <= data@.len(),
        r is Ok ==> uint_parse(data@, *old(pos) as int) is Some && r->Ok_0@.len() == (uint_parse(data@, *old(pos) as int)->0).0,
        uint_parse(data@, *old(pos) as int) is Some && (uint_parse(data@, *old(pos) as int)->0).0 == 0 ==> r is Ok && r->Ok_0@.len() == 0
            && *final(pos) == (uint_parse(data@, *old(pos) as int)->0).1,
{
    let n = Uint::decode(data, pos)?;
    let ghost q0 = *pos;
    let mut v: Vec<Constructor> = Vec::new();
    let mut i: u32 = 0;
    while i < n.0
        invariant
            *old(pos) < *pos <= data@.len(),
            i <= n.0,
            v@.len() == i,
            i == 0 ==> *pos == q0,
            uint_parse(data@, *old(pos) as int) == Some((n.0, q0 as int)),
        decreases n.0 - i,
    {
        let x = decode_constructor(data, pos)?;
        v.push(x);
        i = i + 1;
    }
    Ok(v)
}

/// A typedef declaration.
#[derive(Debug, Default, PartialEq)]
pub struct Typedef {
    pub canonical_name: CanonicalNameRef,
    pub file_uri: UriRef,
    pub offset: FileOffset,
    pub name: StringRef,
    pub annotations: Vec<Expr>,
    pub type_params: Vec<TypeParameter>,
    pub typ: Type,
    pub type_params_of_function: Vec<TypeParameter>,
    pub positional_params: Vec<VarDecl>,
    pub named_params: Vec<VarDecl>,
}

/// Every count and variable-length integer in the value fits in 30 bits.
pub open spec fn typedef_encodable(v: Typedef) -> bool
{
    v.canonical_name.encodable()
    && v.file_uri.encodable()
    && v.offset.encodable()
    && v.name.encodable()
    && (v.annotations@.len() < 0x4000_0000 && expr_items_encodable(v.annotations@))
    && (v.type_params@.len() < 0x4000_0000 && type_parameter_items_encodable(v.type_params@))
    && type_encodable(v.typ)
    && (v.type_params_of_function@.len() < 0x4000_0000 && type_parameter_items_encodable(v.type_params_of_function@))
    && (v.positional_params@.len() < 0x4000_0000 && var_decl_items_encodable(v.positional_params@))
    && (v.named_params@.len() < 0x4000_0000 && var_decl_items_encodable(v.named_params@))
}

/// The wire form: the fields in order.
pub open spec fn typedef_wire(v: Typedef) -> Seq<u8>
{
    v.canonical_name.wire()
    + v.file_uri.wire()
    + v.offset.wire()
    + v.name.wire()
    + uint_bytes(v.annotations@.len() as u32) + expr_items_wire(v.annotations@)
    + uint_bytes(v.type_params@.len() as u32) + type_parameter_items_wire(v.type_params@)
    + type_wire(v.typ)
    + uint_bytes(v.type_params_of_function@.len() as u32) + type_parameter_items_wire(v.type_params_of_function@)
    + uint_bytes(v.positional_params@.len() as u32) + var_decl_items_wire(v.positional_params@)
    + uint_bytes(v.named_params@.len() as u32) + var_decl_items_wire(v.named_params@)
}

/// Appends the wire form of `v`; fails exactly when a count or integer in it reaches 2^30.
#[verifier::rlimit(100)]
pub fn encode_typedef(v: &Typedef, out: &mut Vec<u8>) -> (r: Result<(), KernelError>)
    ensures
        r is Ok <==> typedef_encodable(*v),
        r is Ok ==> final(out)@ == old(out)@ + typedef_wire(*v),
{
    v.canonical_name.encode(out)?;
    let ghost acc0 = v.canonical_name.wire();
    v.file_uri.encode(out)?;
    proof {
        lemma_concat_associative(old(out)@, acc0, v.file_uri.wire());
    }
    let ghost acc1 = acc0 + v.file_uri.wire();
    v.offset.encode(out)?;
    proof {
        lemma_concat_associative(old(out)@, acc1, v.offset.wire());
    }
    let ghost acc2 = acc1 + v.offset.wire();
    v.name.encode(out)?;
    proof {
        lemma_concat_associative(old(out)@, acc2, v.name.wire());
    }
    let ghost acc3 = acc2 + v.name.wire();
    encode_expr_list(&v.annotations, out)?;
    proof {
        lemma_concat_associative(old(out)@, acc3, uint_bytes(v.annotations@.len() as u32));
    }
    let ghost acc4 = acc3 + uint_bytes(v.annotations@.len() as u32);
    proof {
        lemma_concat_associative(old(out)@, acc4, expr_items_wire(v.annotations@));
    }
    let ghost acc5 = acc4 + expr_items_wire(v.annotations@);
    encode_type_parameter_list(&v.type_params, out)?;
    proof {
        lemma_concat_associative(old(out)@, acc5, uint_bytes(v.type_params@.len() as u32));
    }
    let ghost acc6 = acc5 + uint_bytes(v.type_params@.len() as u32);
    proof {
        lemma_concat_associative(old(out)@, acc6, type_parameter_items_wire(v.type_params@));
    }
    let ghost acc7 = acc6 + type_parameter_items_wire(v.type_params@);
    encode_type(&v.typ, out)?;
    proof {
        lemma_concat_associative(old(out)@, acc7, type_wire(v.typ));
    }
    let ghost acc8 = acc7 + type_wire(v.typ);
    encode_type_parameter_list(&v.type_params_of_function, out)?;
    proof {
        lemma_concat_associative(old(out)@, acc8, uint_bytes(v.type_params_of_function@.len() as u32));
    }
    let ghost acc9 = acc8 + uint_bytes(v.type_params_of_function@.len() as u32);
    proof {
        lemma_concat_associative(old(out)@, acc9, type_parameter_items_wire(v.type_params_of_function@));
    }
    let ghost acc10 = acc9 + type_parameter_items_wire(v.type_params_of_function@);
    encode_var_decl_list(&v.positional_params, out)?;
    proof {
        lemma_concat_associative(old(out)@, acc10, uint_bytes(v.positional_params@.len() as u32));
    }
    let ghost acc11 = acc10 + uint_bytes(v.positional_params@.len() as u32);
    proof {
        lemma_concat_associative(old(out)@, acc11, var_decl_items_wire(v.positional_params@));
    }
    let ghost acc12 = acc11 + var_decl_items_wire(v.positional_params@);
    encode_var_decl_list(&v.named_params, out)?;
    proof {
        lemma_concat_associative(old(out)@, acc12, uint_bytes(v.named_params@.len() as u32));
    }
    let ghost acc13 = acc12 + uint_bytes(v.named_params@.len() as u32);
    proof {
        lemma_concat_associative(old(out)@, acc13, var_decl_items_wire(v.named_params@));
    }
    let ghost acc14 = acc13 + var_decl_items_wire(v.named_params@);
    assert(final(out)@ == old(out)@ + typedef_wire(*v));
    Ok(())
}

/// Reads a value at `*pos` and moves past it.
pub fn decode_typedef(data: &[u8], pos: &mut usize) -> (r: Result<Typedef, KernelError>)
    ensures
        r is Ok ==> *old(pos) < *final(pos) <= data@.len(),
{
    let canonical_name = <CanonicalNameRef as Codec>::decode(data, pos)?;
    let file_uri = <UriRef as Codec>::decode(data, pos)?;
    let offset = <FileOffset as Codec>::decode(data, pos)?;
    let name = <StringRef as Codec>::decode(data, pos)?;
    let annotations = decode_expr_list(data, pos)?;
    let type_params = decode_type_parameter_list(data, pos)?;
    let typ = decode_type(data, pos)?;
    let type_params_of_function = decode_type_parameter_list(data, pos)?;
    let positional_params = decode_var_decl_list(data, pos)?;
    let named_params = decode_var_decl_list(data, pos)?;
    Ok(Typedef { canonical_name, file_uri, offset, name, annotations, type_params, typ, type_params_of_function, positional_params, named_params })
}

pub open spec fn typedef_items_encodable(s: Seq<Typedef>) -> bool
{
    forall|i: int| 0 <= i < s.len() ==> typedef_encodable(#[trigger] s[i])
}

pub open spec fn typedef_items_wire(s: Seq<Typedef>) -> Seq<u8>
    decreases s,
{
    if s.len() == 0 {
        Seq::empty()
    } else {
        typedef_items_wire(s.drop_last()) + typedef_wire(s.last())
    }
}

/// Appends a list: its count, then each item.
pub fn encode_typedef_list(v: &Vec<Typedef>, out: &mut Vec<u8>) -> (r: Result<(), KernelError>)
    ensures
        r is Ok <==> v@.len() < 0x4000_0000 && typedef_items_encodable(v@),
        r is Ok ==> final(out)@ == old(out)@ + uint_bytes(v@.len() as u32) + typedef_items_wire(v@),
{
    if v.len() >= 0x4000_0000 {
        return Err(KernelError::InvalidVarUint);
    }
    Uint(v.len() as u32).encode(out)?;
    let ghost start = out@;
    let mut i: usize = 0;
    while i < v.len()
        invariant
            i <= v.len(),
            typedef_items_encodable(v@.subrange(0, i as int)),
            out@ == start + typedef_items_wire(v@.subrange(0, i as int)),
        decreases v.len() - i,
    {
        let res = encode_typedef(&v[i], out);
        if res.is_err() {
            assert(!typedef_items_encodable(v@)) by {
                assert(!typedef_encodable(v@[i as int]));
            }
            return res;
        }
        proof {
            let s = v@.subrange(0, i + 1);
            assert(s.drop_last() =~= v@.subrange(0, i as int));
            assert forall|k: int| 0 <= k < s.len() implies typedef_encodable(#[trigger] s[k]) by {
                if k < i {
                    assert(s[k] == v@.subrange(0, i as int)[k]);
                }
            }
        }
        i = i + 1;
    }
    assert(v@.subrange(0, i as int) =~= v@);
    Ok(())
}

/// Reads a list: a count, then that many items.
pub fn decode_typedef_list(data: &[u8], pos: &mut usize) -> (r: Result<Vec<Typedef>, KernelError>)
    ensures
        r is Ok ==> *old(pos) < *final(pos) <= data@.len(),
        r is Ok ==> uint_parse(data@, *old(pos) as int) is Some && r->Ok_0@.len() == (uint_parse(data@, *old(pos) as int)->0).0,
        uint_parse(data@, *old(pos) as int) is Some && (uint_parse(data@, *old(pos) as int)->0).0 == 0 ==> r is Ok && r->Ok_0@.len() == 0
            && *final(pos) == (uint_parse(data@, *old(pos) as int)->0).1,
{
    let n = Uint::decode(data, pos)?;
    let ghost q0 = *pos;
    let mut v: Vec<Typedef> = Vec::new();
    let mut i: u32 = 0;
    while i < n.0
        invariant
            *old(pos) < *pos <= data@.len(),
            i <= n.0,
            v@.len() == i,
            i == 0 ==> *pos == q0,
            uint_parse(data@, *old(pos) as int) == Some((n.0, q0 as int)),
        decreases n.0 - i,
    {
        let x = decode_typedef(data, pos)?;
        v.push(x);
        i = i + 1;
    }
    Ok(v)
}

/// A show or hide combinator of an import or export.
#[derive(Debug, PartialEq)]
pub struct Combinator {
    pub flags: CombinatorFlags,
    pub names: Vec<StringRef>,
}

/// Every count and variable-length integer in the value fits in 30 bits.
pub open spec fn combinator_encodable(v: Combinator) -> bool
{
    v.flags.encodable() && list_encodable::<StringRef>(v.names@)
}

/// The wire form: the fields in order.
pub open spec fn combinator_wire(v: Combinator) -> Seq<u8>
{
    v.flags.wire() + list_wire::<StringRef>(v.names@)
}

/// Appends the wire form of `v`; fails exactly when a count or integer in it reaches 2^30.
#[verifier::rlimit(100)]
pub fn encode_combinator(v: &Combinator, out: &mut Vec<u8>) -> (r: Result<(), KernelError>)
    ensures
        r is Ok <==> combinator_encodable(*v),
        r is Ok ==> final(out)@ == old(out)@ + combinator_wire(*v),
{
    v.flags.encode(out)?;
    let ghost acc0 = v.flags.wire();
    encode_list(&v.names, out)?;
    proof {
        lemma_concat_associative(old(out)@, acc0, list_wire::<StringRef>(v.names@));
    }
    let ghost acc1 = acc0 + list_wire::<StringRef>(v.names@);
    assert(final(out)@ == old(out)@ + combinator_wire(*v));
    Ok(())
}

/// Reads a value at `*pos` and moves past it.
pub fn decode_combinator(data: &[u8], pos: &mut usize) -> (r: Result<Combinator, KernelError>)
    ensures
        r is Ok ==> *old(pos) < *final(pos) <= data@.len(),
{
    let flags = <CombinatorFlags as Codec>::decode(data, pos)?;
    let names = decode_list::<StringRef>(data, pos)?;
    Ok(Combinator { flags, names })
}

pub open spec fn combinator_items_encodable(s: Seq<Combinator>) -> bool
{
    forall|i: int| 0 <= i < s.len() ==> combinator_encodable(#[trigger] s[i])
}

pub open spec fn combinator_items_wire(s: Seq<Combinator>) -> Seq<u8>
    decreases s,
{
    if s.len() == 0 {
        Seq::empty()
    } else {
        combinator_items_wire(s.drop_last()) + combinator_wire(s.last())
    }
}

/// Appends a list: its count, then each item.
pub fn encode_combinator_list(v: &Vec<Combinator>, out: &mut Vec<u8>) -> (r: Result<(), KernelError>)
    ensures
        r is Ok <==> v@.len() < 0x4000_0000 && combinator_items_encodable(v@),
        r is Ok ==> final(out)@ == old(out)@ + uint_bytes(v@.len() as u32) + combinator_items_wire(v@),
{
    if v.len() >= 0x4000_0000 {
        return Err(KernelError::InvalidVarUint);
    }
    Uint(v.len() as u32).encode(out)?;
    let ghost start = out@;
    let mut i: usize = 0;
    while i < v.len()
        invariant
            i <= v.len(),
            combinator_items_encodable(v@.subrange(0, i as int)),
            out@ == start + combinator_items_wire(v@.subrange(0, i as int)),
        decreases v.len() - i,
    {
        let res = encode_combinator(&v[i], out);
        if res.is_err() {
            assert(!combinator_items_encodable(v@)) by {
                assert(!combinator_encodable(v@[i as int]));
            }
            return res;
        }
        proof {
            let s = v@.subrange(0, i + 1);
            assert(s.drop_last() =~= v@.subrange(0, i as int));
            assert forall|k: int| 0 <= k < s.len() implies combinator_encodable(#[trigger] s[k]) by {
                if k < i {
                    assert(s[k] == v@.subrange(0, i as int)[k]);
                }
            }
        }
        i = i + 1;
    }
    assert(v@.subrange(0, i as int) =~= v@);
    Ok(())
}

/// Reads a list: a count, then that many items.
pub fn decode_combinator_list(data: &[u8], pos: &mut usize) -> (r: Result<Vec<Combinator>, KernelError>)
    ensures
        r is Ok ==> *old(pos) < *final(pos) <= data@.len(),
        r is Ok ==> uint_parse(data@, *old(pos) as int) is Some && r->Ok_0@.len() == (uint_parse(data@, *old(pos) as int)->0).0,
        uint_parse(data@, *old(pos) as int) is Some && (uint_parse(data@, *old(pos) as int)->0).0 == 0 ==> r is Ok && r->Ok_0@.len() == 0
            && *final(pos) == (uint_parse(data@, *old(pos) as int)->0).1,
{
    let n = Uint::decode(data, pos)?;
    let ghost q0 = *pos;
    let mut v: Vec<Combinator> = Vec::new();
    let mut i: u32 = 0;
    while i < n.0
        invariant
            *old(pos) < *pos <= data@.len(),
            i <= n.0,
            v@.len() == i,
            i == 0 ==> *pos == q0,
            uint_parse(data@, *old(pos) as int) == Some((n.0, q0 as int)),
        decreases n.0 - i,
    {
        let x = decode_combinator(data, pos)?;
        v.push(x);
        i = i + 1;
    }
    Ok(v)
}

/// An initializer of a constructor.
#[derive(Debug, PartialEq)]
pub enum Initializer {
    Invalid {
        is_synthetic: u8,
    },
    Field {
        is_synthetic: u8,
        field: CanonicalNameRef,
        value: Box<Expr>,
    },
    Super {
        is_synthetic: u8,
        offset: FileOffset,
        target: CanonicalNameRef,
        arguments: Box<Arguments>,
    },
    Redirect {
        is_synthetic: u8,
        offset: FileOffset,
        target: CanonicalNameRef,
        arguments: Box<Arguments>,
    },
    Local {
        is_synthetic: u8,
        var: VarDecl,
    },
    Assert {
        is_synthetic: u8,
        stmt: Assert,
    },
}

/// Every count and variable-length integer in the value fits in 30 bits.
pub open spec fn initializer_encodable(v: Initializer) -> bool
{
    match v {
        Initializer::Invalid { is_synthetic } => is_synthetic.encodable(),
        Initializer::Field { is_synthetic, field, value } => is_synthetic.encodable()
            && field.encodable()
            && expr_encodable(*value),
        Initializer::Super { is_synthetic, offset, target, arguments } => is_synthetic.encodable()
            && offset.encodable()
            && target.encodable()
            && arguments_encodable(*arguments),
        Initializer::Redirect { is_synthetic, offset, target, arguments } => is_synthetic.encodable()
            && offset.encodable()
            && target.encodable()
            && arguments_encodable(*arguments),
        Initializer::Local { is_synthetic, var } => is_synthetic.encodable() && var_decl_encodable(var),
        Initializer::Assert { is_synthetic, stmt } => is_synthetic.encodable() && assert_encodable(stmt),
    }
}

/// The wire form: the discriminator byte, then the fields in order.
pub open spec fn initializer_wire(v: Initializer) -> Seq<u8>
{
    match v {
        Initializer::Invalid { is_synthetic } => seq![7u8] + is_synthetic.wire(),
        Initializer::Field { is_synthetic, field, value } => seq![8u8]
            + is_synthetic.wire()
            + field.wire()
            + expr_wire(*value),
        Initializer::Super { is_synthetic, offset, target, arguments } => seq![9u8]
            + is_synthetic.wire()
            + offset.wire()
            + target.wire()
            + arguments_wire(*arguments),
        Initializer::Redirect { is_synthetic, offset, target, arguments } => seq![10u8]
            + is_synthetic.wire()
            + offset.wire()
            + target.wire()
            + arguments_wire(*arguments),
        Initializer::Local { is_synthetic, var } => seq![11u8] + is_synthetic.wire() + var_decl_wire(var),
        Initializer::Assert { is_synthetic, stmt } => seq![12u8] + is_synthetic.wire() + assert_wire(stmt),
    }
}

/// The discriminator bytes that start a value of this sum.
pub open spec fn is_initializer_tag(b: u8) -> bool {
    b == 7 || b == 8 || b == 9 || b == 10 || b == 11 || b == 12
}

/// Appends the wire form of `v`; fails exactly when a count or integer in it reaches 2^30.
#[verifier::rlimit(100)]
pub fn encode_initializer(v: &Initializer, out: &mut Vec<u8>) -> (r: Result<(), KernelError>)
    ensures
        r is Ok <==> initializer_encodable(*v),
        r is Ok ==> final(out)@ == old(out)@ + initializer_wire(*v),
{
    match v {
        Initializer::Invalid { is_synthetic } => {
            out.push(7u8);
            let ghost acc0 = seq![7u8];
            is_synthetic.encode(out)?;
            proof {
                lemma_concat_associative(old(out)@, acc0, (*is_synthetic).wire());
            }
            let ghost acc1 = acc0 + (*is_synthetic).wire();
            assert(final(out)@ == old(out)@ + initializer_wire(*v));
        },
        Initializer::Field { is_synthetic, field, value } => {
            out.push(8u8);
            let ghost acc0 = seq![8u8];
            is_synthetic.encode(out)?;
            proof {
                lemma_concat_associative(old(out)@, acc0, (*is_synthetic).wire());
            }
            let ghost acc1 = acc0 + (*is_synthetic).wire();
            field.encode(out)?;
            proof {
                lemma_concat_associative(old(out)@, acc1, (*field).wire());
            }
            let ghost acc2 = acc1 + (*field).wire();
            encode_expr(value, out)?;
            proof {
                lemma_concat_associative(old(out)@, acc2, expr_wire(*(*value)));
            }
            let ghost acc3 = acc2 + expr_wire(*(*value));
            assert(final(out)@ == old(out)@ + initializer_wire(*v));
        },
        Initializer::Super { is_synthetic, offset, target, arguments } => {
            out.push(9u8);
            let ghost acc0 = seq![9u8];
            is_synthetic.encode(out)?;
            proof {
                lemma_concat_associative(old(out)@, acc0, (*is_synthetic).wire());
            }
            let ghost acc1 = acc0 + (*is_synthetic).wire();
            offset.encode(out)?;
            proof {
                lemma_concat_associative(old(out)@, acc1, (*offset).wire());
            }
            let ghost acc2 = acc1 + (*offset).wire();
            target.encode(out)?;
            proof {
                lemma_concat_associative(old(out)@, acc2, (*target).wire());
            }
            let ghost acc3 = acc2 + (*target).wire();
            encode_arguments(arguments, out)?;
            proof {
                lemma_concat_associative(old(out)@, acc3, arguments_wire(*(*arguments)));
            }
            let ghost acc4 = acc3 + arguments_wire(*(*arguments));
            assert(final(out)@ == old(out)@ + initializer_wire(*v));
        },
        Initializer::Redirect { is_synthetic, offset, target, arguments } => {
            out.push(10u8);
            let ghost acc0 = seq![10u8];
            is_synthetic.encode(out)?;
            proof {
                lemma_concat_associative(old(out)@, acc0, (*is_synthetic).wire());
            }
            let ghost acc1 = acc0 + (*is_synthetic).wire();
            offset.encode(out)?;
            proof {
                lemma_concat_associative(old(out)@, acc1, (*offset).wire());
            }
            let ghost acc2 = acc1 + (*offset).wire();
            target.encode(out)?;
            proof {
                lemma_concat_associative(old(out)@, acc2, (*target).wire());
            }
            let ghost acc3 = acc2 + (*target).wire();
            encode_arguments(arguments, out)?;
            proof {
                lemma_concat_associative(old(out)@, acc3, arguments_wire(*(*arguments)));
            }
            let ghost acc4 = acc3 + arguments_wire(*(*arguments));
            assert(final(out)@ == old(out)@ + initializer_wire(*v));
        },
        Initializer::Local { is_synthetic, var } => {
            out.push(11u8);
            let ghost acc0 = seq![11u8];
            is_synthetic.encode(out)?;
            proof {
                lemma_concat_associative(old(out)@, acc0, (*is_synthetic).wire());
            }
            let ghost acc1 = acc0 + (*is_synthetic).wire();
            encode_var_decl(var, out)?;
            proof {
                lemma_concat_associative(old(out)@, acc1, var_decl_wire((*var)));
            }
            let ghost acc2 = acc1 + var_decl_wire((*var));
            assert(final(out)@ == old(out)@ + initializer_wire(*v));
        },
        Initializer::Assert { is_synthetic, stmt } => {
            out.push(12u8);
            let ghost acc0 = seq![12u8];
            is_synthetic.encode(out)?;
            proof {
                lemma_concat_associative(old(out)@, acc0, (*is_synthetic).wire());
            }
            let ghost acc1 = acc0 + (*is_synthetic).wire();
            encode_assert(stmt, out)?;
            proof {
                lemma_concat_associative(old(out)@, acc1, assert_wire((*stmt)));
            }
            let ghost acc2 = acc1 + assert_wire((*stmt));
            assert(final(out)@ == old(out)@ + initializer_wire(*v));
        },
    }
    Ok(())
}

/// Reads a value at `*pos` and moves past it.
pub fn decode_initializer(data: &[u8], pos: &mut usize) -> (r: Result<Initializer, KernelError>)
    ensures
        r is Ok ==> *old(pos) < *final(pos) <= data@.len(),
        *old(pos) >= data@.len() ==> r == Err::<Initializer, _>(KernelError::ShortRead),
        *old(pos) < data@.len() && !is_initializer_tag(data@[*old(pos) as int]) ==> r == Err::<Initializer, _>(
            KernelError::UnknownTag { sum: SumKind::Initializer, tag: data@[*old(pos) as int] },
        ),
{
    let tag = read_u8(data, pos)?;
    match tag {
        7u8 => {
            let is_synthetic = <u8 as Codec>::decode(data, pos)?;
            Ok(Initializer::Invalid { is_synthetic })
        },
        8u8 => {
            let is_synthetic = <u8 as Codec>::decode(data, pos)?;
            let field = <CanonicalNameRef as Codec>::decode(data, pos)?;
            let value = Box::new(decode_expr(data, pos)?);
            Ok(Initializer::Field { is_synthetic, field, value })
        },
        9u8 => {
            let is_synthetic = <u8 as Codec>::decode(data, pos)?;
            let offset = <FileOffset as Codec>::decode(data, pos)?;
            let target = <CanonicalNameRef as Codec>::decode(data, pos)?;
            let arguments = Box::new(decode_arguments(data, pos)?);
            Ok(Initializer::Super { is_synthetic, offset, target, arguments })
        },
        10u8 => {
            let is_synthetic = <u8 as Codec>::decode(data, pos)?;
            let offset = <FileOffset as Codec>::decode(data, pos)?;
            let target = <CanonicalNameRef as Codec>::decode(data, pos)?;
            let arguments = Box::new(decode_arguments(data, pos)?);
            Ok(Initializer::Redirect { is_synthetic, offset, target, arguments })
        },
        11u8 => {
            let is_synthetic = <u8 as Codec>::decode(data, pos)?;
            let var = decode_var_decl(data, pos)?;
            Ok(Initializer::Local { is_synthetic, var })
        },
        12u8 => {
            let is_synthetic = <u8 as Codec>::decode(data, pos)?;
            let stmt = decode_assert(data, pos)?;
            Ok(Initializer::Assert { is_synthetic, stmt })
        },
        _ => Err(KernelError::UnknownTag { sum: SumKind::Initializer, tag }),
    }
}

pub open spec fn initializer_items_encodable(s: Seq<Initializer>) -> bool
{
    forall|i: int| 0 <= i < s.len() ==> initializer_encodable(#[trigger] s[i])
}

pub open spec fn initializer_items_wire(s: Seq<Initializer>) -> Seq<u8>
    decreases s,
{
    if s.len() == 0 {
        Seq::empty()
    } else {
        initializer_items_wire(s.drop_last()) + initializer_wire(s.last())
    }
}

/// Appends a list: its count, then each item.
pub fn encode_initializer_list(v: &Vec<Initializer>, out: &mut Vec<u8>) -> (r: Result<(), KernelError>)
    ensures
        r is Ok <==> v@.len() < 0x4000_0000 && initializer_items_encodable(v@),
        r is Ok ==> final(out)@ == old(out)@ + uint_bytes(v@.len() as u32) + initializer_items_wire(v@),
{
    if v.len() >= 0x4000_0000 {
        return Err(KernelError::InvalidVarUint);
    }
    Uint(v.len() as u32).encode(out)?;
    let ghost start = out@;
    let mut i: usize = 0;
    while i < v.len()
        invariant
            i <= v.len(),
            initializer_items_encodable(v@.subrange(0, i as int)),
            out@ == start + initializer_items_wire(v@.subrange(0, i as int)),
        decreases v.len() - i,
    {
        let res = encode_initializer(&v[i], out);
        if res.is_err() {
            assert(!initializer_items_encodable(v@)) by {
                assert(!initializer_encodable(v@[i as int]));
            }
            return res;
        }
        proof {
            let s = v@.subrange(0, i + 1);
            assert(s.drop_last() =~= v@.subrange(0, i as int));
            assert forall|k: int| 0 <= k < s.len() implies initializer_encodable(#[trigger] s[k]) by {
                if k < i {
                    assert(s[k] == v@.subrange(0, i as int)[k]);
                }
            }
        }
        i = i + 1;
    }
    assert(v@.subrange(0, i as int) =~= v@);
    Ok(())
}

/// Reads a list: a count, then that many items.
pub fn decode_initializer_list(data: &[u8], pos: &mut usize) -> (r: Result<Vec<Initializer>, KernelError>)
    ensures
        r is Ok ==> *old(pos) < *final(pos) <= data@.len(),
        r is Ok ==> uint_parse(data@, *old(pos) as int) is Some && r->Ok_0@.len() == (uint_parse(data@, *old(pos) as int)->0).0,
        uint_parse(data@, *old(pos) as int) is Some && (uint_parse(data@, *old(pos) as int)->0).0 == 0 ==> r is Ok && r->Ok_0@.len() == 0
            && *final(pos) == (uint_parse(data@, *old(pos) as int)->0).1,
{
    let n = Uint::decode(data, pos)?;
    let ghost q0 = *pos;
    let mut v: Vec<Initializer> = Vec::new();
    let mut i: u32 = 0;
    while i < n.0
        invariant
            *old(pos) < *pos <= data@.len(),
            i <= n.0,
            v@.len() == i,
            i == 0 ==> *pos == q0,
            uint_parse(data@, *old(pos) as int) == Some((n.0, q0 as int)),
        decreases n.0 - i,
    {
        let x = decode_initializer(data, pos)?;
        v.push(x);
        i = i + 1;
    }
    Ok(v)
}

/// The big-endian bytes of each integer of `s`, in order.
pub open spec fn u32s_wire(s: Seq<u32>) -> Seq<u8>
    decreases s.len(),
{
    if s.len() == 0 {
        Seq::empty()
    } else {
        u32s_wire(s.drop_last()) + u32_bytes(s.last())
    }
}

/// The positions of the procedures of `s` written one after another from
/// `start`, followed by the position just after the last one.
pub open spec fn procedure_offsets(start: int, s: Seq<Procedure>) -> Seq<int> {
    Seq::new(s.len() + 1, |i: int| start + procedure_items_wire(s.subrange(0, i)).len())
}

/// Each of `s` as a 32-bit integer.
pub open spec fn as_u32s(s: Seq<int>) -> Seq<u32> {
    Seq::new(s.len(), |i: int| s[i] as u32)
}

/// In an offset array, the last entry is the position just after the last item,
/// and each entry is where its item starts.
pub proof fn lemma_procedure_offsets_sentinel(start: int, s: Seq<Procedure>)
    ensures
        procedure_offsets(start, s).last() == start + procedure_items_wire(s).len(),
        forall|i: int|
            0 <= i < s.len() ==> #[trigger] procedure_offsets(start, s)[i + 1]
                == procedure_offsets(start, s)[i] + procedure_wire(s[i]).len(),
{
    assert(s.subrange(0, s.len() as int) =~= s);
    assert forall|i: int| 0 <= i < s.len() implies #[trigger] procedure_offsets(start, s)[i + 1]
        == procedure_offsets(start, s)[i] + procedure_wire(s[i]).len() by {
        let t = s.subrange(0, i + 1);
        assert(t.drop_last() =~= s.subrange(0, i));
        assert(t.last() == s[i]);
    }
}

/// A class's sub-index, read after its procedures: one offset per procedure and
/// a sentinel, then the procedure count.
#[derive(Debug, Default, Clone, Copy, PartialEq, Eq, Structural)]
pub struct ClassIndex;

impl ClassIndex {
    /// Reads `proc_count + 1` offsets and the count after them, which must equal `proc_count`.
    pub fn decode(data: &[u8], pos: &mut usize, proc_count: usize) -> (r: Result<ClassIndex, KernelError>)
        ensures
            ({
                let p = *old(pos) as int;
                let end = p + 4 * (proc_count + 2);
                &&& r is Ok <==> end <= data@.len() && u32_at(data@, end - 4) == proc_count
                &&& r is Ok ==> *final(pos) == end
                &&& end > data@.len() ==> r == Err::<ClassIndex, _>(KernelError::ShortRead)
                &&& end <= data@.len() && u32_at(data@, end - 4) != proc_count ==> r == Err::<
                    ClassIndex,
                    _,
                >(KernelError::ClassIndexMismatch)
            }),
    {
        let start = *pos;
        let need: u128 = 4 * (proc_count as u128 + 2);
        if start as u128 + need > data.len() as u128 {
            return Err(KernelError::ShortRead);
        }
        *pos = start + 4 * (proc_count + 1);
        let size = match read_u32(data, pos) {
            Ok(n) => n,
            Err(e) => {
                return Err(e);
            },
        };
        if size as usize != proc_count {
            Err(KernelError::ClassIndexMismatch)
        } else {
            Ok(ClassIndex)
        }
    }
}

/// A class: its header, members, and the procedures that its sub-index addresses.
#[derive(Debug, Default, PartialEq)]
pub struct Class {
    pub canonical_name: CanonicalNameRef,
    pub file_uri: UriRef,
    pub start_offset: FileOffset,
    pub definition_range: FileRange,
    pub flags: ClassFlags,
    pub name: StringRef,
    pub annotations: Vec<Expr>,
    pub type_params: Vec<TypeParameter>,
    pub super_class: Option<Type>,
    pub mixed_in_type: Option<Type>,
    pub implemented_classes: Vec<Type>,
    pub fields: Vec<Field>,
    pub constructors: Vec<Constructor>,
    pub procedures: Vec<Procedure>,
    pub redirecting_factories: Vec<RedirectingFactory>,
}

/// The class's fields from its tag to its type parameters.
pub open spec fn class_head_a_wire(c: Class) -> Seq<u8> {
    seq![2u8] + c.canonical_name.wire() + c.file_uri.wire() + c.start_offset.wire()
        + c.definition_range.wire() + c.flags.wire() + c.name.wire() + uint_bytes(
        c.annotations@.len() as u32,
    ) + expr_items_wire(c.annotations@) + uint_bytes(c.type_params@.len() as u32)
        + type_parameter_items_wire(c.type_params@)
}

/// The class's fields from its super class to its procedure count.
pub open spec fn class_head_b_wire(c: Class) -> Seq<u8> {
    (match c.super_class {
        Some(x) => seq![1u8] + type_wire(x),
        None => seq![0u8],
    }) + (match c.mixed_in_type {
        Some(x) => seq![1u8] + type_wire(x),
        None => seq![0u8],
    }) + uint_bytes(c.implemented_classes@.len() as u32) + type_items_wire(c.implemented_classes@)
        + uint_bytes(c.fields@.len() as u32) + field_items_wire(c.fields@) + uint_bytes(
        c.constructors@.len() as u32,
    ) + constructor_items_wire(c.constructors@) + uint_bytes(c.procedures@.len() as u32)
}

/// The class's fields up to and including its procedure count.
pub open spec fn class_head_wire(c: Class) -> Seq<u8> {
    class_head_a_wire(c) + class_head_b_wire(c)
}

/// The wire form of a class that starts at position `base`: its head, its
/// procedures, its redirecting-factory count, then its sub-index.
#[verifier::opaque]
pub open spec fn class_wire(c: Class, base: int) -> Seq<u8> {
    let head = class_head_wire(c);
    head + procedure_items_wire(c.procedures@) + uint_bytes(c.redirecting_factories@.len() as u32)
        + u32s_wire(as_u32s(procedure_offsets(base + head.len(), c.procedures@))) + u32_bytes(
        c.procedures@.len() as u32,
    )
}

pub open spec fn class_head_a_encodable(c: Class) -> bool {
    &&& c.canonical_name.encodable()
    &&& c.file_uri.encodable()
    &&& c.start_offset.encodable()
    &&& c.definition_range.encodable()
    &&& c.flags.encodable()
    &&& c.name.encodable()
    &&& c.annotations@.len() < 0x4000_0000 && expr_items_encodable(c.annotations@)
    &&& c.type_params@.len() < 0x4000_0000 && type_parameter_items_encodable(c.type_params@)
}

pub open spec fn class_head_b_encodable(c: Class) -> bool {
    &&& (match c.super_class {
        Some(x) => type_encodable(x),
        None => true,
    })
    &&& (match c.mixed_in_type {
        Some(x) => type_encodable(x),
        None => true,
    })
    &&& c.implemented_classes@.len() < 0x4000_0000 && type_items_encodable(c.implemented_classes@)
    &&& c.fields@.len() < 0x4000_0000 && field_items_encodable(c.fields@)
    &&& c.constructors@.len() < 0x4000_0000 && constructor_items_encodable(c.constructors@)
    &&& c.procedures@.len() < 0x4000_0000
}

/// Every count and integer of the class's head fits in 30 bits.
pub open spec fn class_head_encodable(c: Class) -> bool {
    class_head_a_encodable(c) && class_head_b_encodable(c)
}

/// Every count and integer fits, and the class ends within the first 2^32 bytes.
#[verifier::opaque]
pub open spec fn class_encodable(c: Class, base: int) -> bool {
    &&& class_head_encodable(c)
    &&& procedure_items_encodable(c.procedures@)
    &&& c.redirecting_factories@.len() < 0x4000_0000
    &&& base + class_wire(c, base).len() <= u32::MAX
}

/// Appends the class's head: every field up to and including its procedure count.
fn encode_class_head(c: &Class, out: &mut Vec<u8>) -> (r: Result<(), KernelError>)
    ensures
        r is Ok <==> class_head_encodable(*c),
        r is Ok ==> final(out)@ == old(out)@ + class_head_wire(*c),
{
    encode_class_head_a(c, out)?;
    encode_class_head_b(c, out)?;
    proof {
        lemma_concat_associative(old(out)@, class_head_a_wire(*c), class_head_b_wire(*c));
    }
    Ok(())
}

#[verifier::rlimit(100)]
fn encode_class_head_a(c: &Class, out: &mut Vec<u8>) -> (r: Result<(), KernelError>)
    ensures
        r is Ok <==> class_head_a_encodable(*c),
        r is Ok ==> final(out)@ == old(out)@ + class_head_a_wire(*c),
{
    out.push(2u8);
    let ghost a0 = seq![2u8];
    c.canonical_name.encode(out)?;
    proof { lemma_concat_associative(old(out)@, a0, c.canonical_name.wire()); }
    let ghost a1 = a0 + c.canonical_name.wire();
    c.file_uri.encode(out)?;
    proof { lemma_concat_associative(old(out)@, a1, c.file_uri.wire()); }
    let ghost a2 = a1 + c.file_uri.wire();
    c.start_offset.encode(out)?;
    proof { lemma_concat_associative(old(out)@, a2, c.start_offset.wire()); }
    let ghost a3 = a2 + c.start_offset.wire();
    c.definition_range.encode(out)?;
    proof { lemma_concat_associative(old(out)@, a3, c.definition_range.wire()); }
    let ghost a4 = a3 + c.definition_range.wire();
    c.flags.encode(out)?;
    proof { lemma_concat_associative(old(out)@, a4, c.flags.wire()); }
    let ghost a5 = a4 + c.flags.wire();
    c.name.encode(out)?;
    proof { lemma_concat_associative(old(out)@, a5, c.name.wire()); }
    let ghost a6 = a5 + c.name.wire();
    encode_expr_list(&c.annotations, out)?;
    proof {
        lemma_concat_associative(old(out)@, a6, uint_bytes(c.annotations@.len() as u32));
        lemma_concat_associative(old(out)@, a6 + uint_bytes(c.annotations@.len() as u32), expr_items_wire(c.annotations@));
    }
    let ghost a7 = a6 + uint_bytes(c.annotations@.len() as u32) + expr_items_wire(c.annotations@);
    encode_type_parameter_list(&c.type_params, out)?;
    proof {
        lemma_concat_associative(old(out)@, a7, uint_bytes(c.type_params@.len() as u32));
        lemma_concat_associative(old(out)@, a7 + uint_bytes(c.type_params@.len() as u32), type_parameter_items_wire(c.type_params@));
    }
    let ghost a8 = a7 + uint_bytes(c.type_params@.len() as u32) + type_parameter_items_wire(c.type_params@);
    assert(final(out)@ == old(out)@ + class_head_a_wire(*c));
    Ok(())
}

#[verifier::rlimit(100)]
fn encode_class_head_b(c: &Class, out: &mut Vec<u8>) -> (r: Result<(), KernelError>)
    ensures
        r is Ok <==> class_head_b_encodable(*c),
        r is Ok ==> final(out)@ == old(out)@ + class_head_b_wire(*c),
{
    match &c.super_class {
        Some(x) => {
            out.push(1u8);
            encode_type(x, out)?;
        },
        None => {
            out.push(0u8);
        },
    }
    let ghost p9 = match &c.super_class {
        Some(x) => seq![1u8] + type_wire(*x),
        None => seq![0u8],
    };
    proof { }
    let ghost a9 = p9;
    match &c.mixed_in_type {
        Some(x) => {
            out.push(1u8);
            encode_type(x, out)?;
        },
        None => {
            out.push(0u8);
        },
    }
    let ghost p10 = match &c.mixed_in_type {
        Some(x) => seq![1u8] + type_wire(*x),
        None => seq![0u8],
    };
    proof { lemma_concat_associative(old(out)@, a9, p10); }
    let ghost a10 = a9 + p10;
    encode_type_list(&c.implemented_classes, out)?;
    proof {
        lemma_concat_associative(old(out)@, a10, uint_bytes(c.implemented_classes@.len() as u32));
        lemma_concat_associative(old(out)@, a10 + uint_bytes(c.implemented_classes@.len() as u32), type_items_wire(c.implemented_classes@));
    }
    let ghost a11 = a10 + uint_bytes(c.implemented_classes@.len() as u32) + type_items_wire(c.implemented_classes@);
    encode_field_list(&c.fields, out)?;
    proof {
        lemma_concat_associative(old(out)@, a11, uint_bytes(c.fields@.len() as u32));
        lemma_concat_associative(old(out)@, a11 + uint_bytes(c.fields@.len() as u32), field_items_wire(c.fields@));
    }
    let ghost a12 = a11 + uint_bytes(c.fields@.len() as u32) + field_items_wire(c.fields@);
    encode_constructor_list(&c.constructors, out)?;
    proof {
        lemma_concat_associative(old(out)@, a12, uint_bytes(c.constructors@.len() as u32));
        lemma_concat_associative(old(out)@, a12 + uint_bytes(c.constructors@.len() as u32), constructor_items_wire(c.constructors@));
    }
    let ghost a13 = a12 + uint_bytes(c.constructors@.len() as u32) + constructor_items_wire(c.constructors@);
    if c.procedures.len() >= 0x4000_0000 {
        return Err(KernelError::InvalidVarUint);
    }
    Uint(c.procedures.len() as u32).encode(out)?;
    proof { lemma_concat_associative(old(out)@, a13, uint_bytes(c.procedures@.len() as u32)); }
    assert(final(out)@ == old(out)@ + class_head_b_wire(*c));
    Ok(())
}

/// Appends procedures one after another, and returns where each one starts.
pub fn encode_procedures_at(procs: &Vec<Procedure>, out: &mut Vec<u8>) -> (r: Result<Vec<usize>, KernelError>)
    ensures
        r is Ok <==> procedure_items_encodable(procs@),
        r matches Ok(offs) ==> final(out)@ == old(out)@ + procedure_items_wire(procs@) && offs@.len()
            == procs@.len() && forall|i: int|
            0 <= i < procs@.len() ==> offs@[i] == #[trigger] procedure_offsets(
                old(out)@.len() as int,
                procs@,
            )[i],
{
    let ghost start = out@;
    let mut offs: Vec<usize> = Vec::new();
    let mut i: usize = 0;
    while i < procs.len()
        invariant
            i <= procs.len(),
            offs@.len() == i,
            procedure_items_encodable(procs@.subrange(0, i as int)),
            out@ == start + procedure_items_wire(procs@.subrange(0, i as int)),
            forall|j: int|
                0 <= j < i ==> offs@[j] == start.len() + procedure_items_wire(
                    procs@.subrange(0, j),
                ).len(),
        decreases procs.len() - i,
    {
        offs.push(out.len());
        let res = encode_procedure(&procs[i], out);
        if let Err(e) = res {
            assert(!procedure_items_encodable(procs@)) by {
                assert(!procedure_encodable(procs@[i as int]));
            }
            return Err(e);
        }
        proof {
            let s = procs@.subrange(0, i + 1);
            assert(s.drop_last() =~= procs@.subrange(0, i as int));
            assert forall|k: int| 0 <= k < s.len() implies procedure_encodable(#[trigger] s[k]) by {
                if k < i {
                    assert(s[k] == procs@.subrange(0, i as int)[k]);
                }
            }
        }
        i = i + 1;
    }
    assert(procs@.subrange(0, i as int) =~= procs@);
    Ok(offs)
}

/// Appends each offset of `offs` as a big-endian 32-bit integer.
pub fn write_offsets(offs: &Vec<usize>, out: &mut Vec<u8>)
    requires
        forall|i: int| 0 <= i < offs@.len() ==> offs@[i] <= u32::MAX,
    ensures
        final(out)@ == old(out)@ + u32s_wire(Seq::new(offs@.len(), |i: int| offs@[i] as u32)),
{
    let ghost start = out@;
    let mut i: usize = 0;
    while i < offs.len()
        invariant
            i <= offs.len(),
            forall|j: int| 0 <= j < offs@.len() ==> offs@[j] <= u32::MAX,
            out@ == start + u32s_wire(Seq::new(i as nat, |j: int| offs@[j] as u32)),
        decreases offs.len() - i,
    {
        write_u32(offs[i] as u32, out);
        proof {
            let s = Seq::new((i + 1) as nat, |j: int| offs@[j] as u32);
            assert(s.drop_last() =~= Seq::new(i as nat, |j: int| offs@[j] as u32));
        }
        i = i + 1;
    }
}

/// Appends a class that starts at the current end of `out`; its sub-index holds
/// the absolute position of each of its procedures and of the byte after the last.
#[verifier::rlimit(100)]
pub fn encode_class(c: &Class, out: &mut Vec<u8>) -> (r: Result<(), KernelError>)
    ensures
        r is Ok <==> class_encodable(*c, old(out)@.len() as int),
        r is Ok ==> final(out)@ == old(out)@ + class_wire(*c, old(out)@.len() as int),
{
    reveal(class_wire);
    reveal(class_encodable);
    let ghost base = old(out)@.len() as int;
    encode_class_head(c, out)?;
    let ghost h = out@;
    let mut offs = match encode_procedures_at(&c.procedures, out) {
        Ok(o) => o,
        Err(e) => {
            return Err(e);
        },
    };
    offs.push(out.len());
    proof {
        lemma_procedure_offsets_sentinel(h.len() as int, c.procedures@);
        assert forall|i: int| 0 <= i < offs@.len() implies offs@[i] == procedure_offsets(
            h.len() as int,
            c.procedures@,
        )[i] by {
            if i == c.procedures@.len() {
            }
        }
    }
    if c.redirecting_factories.len() >= 0x4000_0000 {
        return Err(KernelError::InvalidVarUint);
    }
    Uint(c.redirecting_factories.len() as u32).encode(out)?;
    let n = c.procedures.len();
    if out.len() > u32::MAX as usize || (u32::MAX as usize - out.len()) / 4 < n + 2 {
        proof {
            assert(class_wire(*c, base).len() == class_head_wire(*c).len() + procedure_items_wire(
                c.procedures@,
            ).len() + uint_bytes(c.redirecting_factories@.len() as u32).len() + u32s_wire(
                as_u32s(procedure_offsets(base + class_head_wire(*c).len(), c.procedures@)),
            ).len() + 4);
            lemma_u32s_wire_len(as_u32s(procedure_offsets(base + class_head_wire(*c).len(), c.procedures@)));
        }
        return Err(KernelError::OffsetOverflow);
    }
    proof {
        assert forall|i: int| 0 <= i < offs@.len() implies offs@[i] <= u32::MAX by {
            lemma_offsets_bounded(h.len() as int, c.procedures@, i);
        }
    }
    let ghost before_offsets = out@;
    write_offsets(&offs, out);
    write_u32(n as u32, out);
    proof {
        assert(Seq::new(offs@.len(), |i: int| offs@[i] as u32) =~= as_u32s(
            procedure_offsets(base + class_head_wire(*c).len(), c.procedures@),
        ));
        lemma_u32s_wire_len(as_u32s(procedure_offsets(base + class_head_wire(*c).len(), c.procedures@)));
        assert(out@ =~= old(out)@ + class_wire(*c, base));
    }
    Ok(())
}

pub proof fn lemma_offsets_bounded(start: int, s: Seq<Procedure>, i: int)
    requires
        0 <= i <= s.len(),
    ensures
        procedure_offsets(start, s)[i] <= start + procedure_items_wire(s).len(),
    decreases s.len(),
{
    if i < s.len() {
        let t = s.drop_last();
        assert(s.subrange(0, s.len() as int) =~= s);
        if i < t.len() {
            lemma_offsets_bounded(start, t, i);
            assert(s.subrange(0, i) =~= t.subrange(0, i));
        } else {
            assert(s.subrange(0, i) =~= t);
        }
    } else {
        assert(s.subrange(0, i) =~= s);
    }
}

pub proof fn lemma_u32s_wire_len(s: Seq<u32>)
    ensures
        u32s_wire(s).len() == 4 * s.len(),
    decreases s.len(),
{
    if s.len() > 0 {
        lemma_u32s_wire_len(s.drop_last());
    }
}

/// Reads a class: its fields in order, then its sub-index, whose count must
/// equal the number of procedures.
#[verifier::rlimit(100)]
pub fn decode_class(data: &[u8], pos: &mut usize) -> (r: Result<Class, KernelError>)
    ensures
        r is Ok ==> *old(pos) < *final(pos) <= data@.len(),
{
    let tag = read_u8(data, pos)?;
    if tag != 2u8 {
        return Err(KernelError::WrongMagic { expected: 2, actual: tag as u32 });
    }
    let canonical_name = <CanonicalNameRef as Codec>::decode(data, pos)?;
    let file_uri = <UriRef as Codec>::decode(data, pos)?;
    let start_offset = <FileOffset as Codec>::decode(data, pos)?;
    let definition_range = <FileRange as Codec>::decode(data, pos)?;
    let flags = <ClassFlags as Codec>::decode(data, pos)?;
    let name = <StringRef as Codec>::decode(data, pos)?;
    let annotations = decode_expr_list(data, pos)?;
    let type_params = decode_type_parameter_list(data, pos)?;
    let super_class = match read_u8(data, pos)? {
        0u8 => None,
        1u8 => Some(decode_type(data, pos)?),
        b => {
            return Err(KernelError::InvalidOption(b));
        },
    };
    let mixed_in_type = match read_u8(data, pos)? {
        0u8 => None,
        1u8 => Some(decode_type(data, pos)?),
        b => {
            return Err(KernelError::InvalidOption(b));
        },
    };
    let implemented_classes = decode_type_list(data, pos)?;
    let fields = decode_field_list(data, pos)?;
    let constructors = decode_constructor_list(data, pos)?;
    let procedures = decode_procedure_list(data, pos)?;
    let n = Uint::decode(data, pos)?;
    let mut redirecting_factories: Vec<RedirectingFactory> = Vec::new();
    let mut i: u32 = 0;
    while i < n.0
        invariant
            i <= n.0,
        decreases n.0 - i,
    {
        redirecting_factories.push(RedirectingFactory {  });
        i = i + 1;
    }
    ClassIndex::decode(data, pos, procedures.len())?;
    Ok(
        Class {
            canonical_name,
            file_uri,
            start_offset,
            definition_range,
            flags,
            name,
            annotations,
            type_params,
            super_class,
            mixed_in_type,
            implemented_classes,
            fields,
            constructors,
            procedures,
            redirecting_factories,
        },
    )
}

} // verus!
