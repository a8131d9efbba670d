//! Expressions, statements and constants of the syntax tree, and their wire forms.
use std::marker::PhantomData;

use vstd::prelude::*;
use vstd::seq_lib::lemma_concat_associative;

use vstd::utf8::{decode_utf8, encode_utf8, valid_utf8};

use crate::codec::{
    decode_list, decode_option, encode_list, encode_option, lemma_list_round_trip, list_encodable,
    list_parse, list_wire, option_encodable, option_wire, read_bytes, views, write_bytes, Codec,
};
use crate::error::{KernelError, SumKind};
use crate::flags::{
    ClassFlags, CombinatorFlags, ConstructorFlags, DependencyFlags, DynamicCastFlags, FieldFlags,
    InvocationFlags, LibraryFlags, ProcedureFlags, VarDeclFlags,
};
use crate::prim::{
    lemma_u32_round_trip, lemma_uint_round_trip, read_u32, read_u8, string_from_utf8, u32_at,
    u32_bytes, u32_parse, u8_parse, uint_bytes, uint_parse, write_u32, CanonicalName,
    CanonicalNameRef, StrRef,
    ComponentRef, ConstantRef, DependencyRef, FileOffset, FileRange, StringRef, Uint, UriRef, Utf8,
    UINT_LIMIT,
};
use crate::node::{Function, FunctionType, Nullable, Type, TypeParameter, decode_function, decode_type, decode_type_list, decode_type_parameter_list, encode_function, encode_type, encode_type_list, encode_type_parameter_list, function_encodable, function_wire, type_encodable, type_items_encodable, type_items_wire, type_parameter_items_encodable, type_parameter_items_wire, type_wire};

verus! {

/// An integer constant: its magnitude with a sign, or a reference to its decimal text.
///
/// On the wire the values -3 to 4 may also come as a single discriminator byte
/// (144 to 151); reading one gives the same value as its general form.
#[derive(Debug, Clone, Copy, PartialEq)]
pub enum IntLit {
    Pos(Uint),
    Neg(Uint),
    Big(StringRef),
}

/// The integer literal that the single byte `b`, from 144 to 151, stands for.
pub open spec fn short_int_lit(b: u8) -> IntLit {
    if b < 147 {
        IntLit::Neg(Uint((147 - b) as u32))
    } else {
        IntLit::Pos(Uint((b - 147) as u32))
    }
}

impl DeepView for IntLit {
    type V = IntLit;

    open spec fn deep_view(&self) -> IntLit {
        *self
    }
}

impl Codec for IntLit {
    open spec fn encodable(&self) -> bool {
        match self {
            IntLit::Pos(n) => n.encodable(),
            IntLit::Neg(n) => n.encodable(),
            IntLit::Big(s) => s.encodable(),
        }
    }

    open spec fn wire(&self) -> Seq<u8> {
        match self {
            IntLit::Pos(n) => seq![55u8] + n.wire(),
            IntLit::Neg(n) => seq![56u8] + n.wire(),
            IntLit::Big(s) => seq![57u8] + s.wire(),
        }
    }

    open spec fn parse(d: Seq<u8>, p: int) -> Option<(IntLit, int)> {
        match u8_parse(d, p) {
            Some((b, q)) => if b == 55 || b == 56 || b == 57 {
                match uint_parse(d, q) {
                    Some((n, r)) => Some(
                        (
                            if b == 55 {
                                IntLit::Pos(Uint(n))
                            } else if b == 56 {
                                IntLit::Neg(Uint(n))
                            } else {
                                IntLit::Big(ComponentRef { index: Uint(n), phantom: PhantomData })
                            },
                            r,
                        ),
                    ),
                    None => None,
                }
            } else if 144 <= b <= 151 {
                Some((short_int_lit(b), q))
            } else {
                None
            },
            None => None,
        }
    }

    proof fn lemma_round_trip(&self, pre: Seq<u8>, rest: Seq<u8>) {
        let d = pre + self.wire() + rest;
        let p = pre.len() as int;
        let n = match self {
            IntLit::Pos(n) => n.0,
            IntLit::Neg(n) => n.0,
            IntLit::Big(s) => s.index.0,
        };
        assert(d =~= (pre + seq![d[p]]) + uint_bytes(n) + rest);
        lemma_uint_round_trip(n, pre + seq![d[p]], rest);
    }

    fn encode(&self, out: &mut Vec<u8>) -> (r: Result<(), KernelError>) {
        match self {
            IntLit::Pos(n) => {
                out.push(55u8);
                n.encode(out)?;
            },
            IntLit::Neg(n) => {
                out.push(56u8);
                n.encode(out)?;
            },
            IntLit::Big(s) => {
                out.push(57u8);
                s.encode(out)?;
            },
        }
        assert(out@ =~= old(out)@ + self.wire());
        Ok(())
    }

    fn decode(data: &[u8], pos: &mut usize) -> (r: Result<IntLit, KernelError>) {
        let b = read_u8(data, pos)?;
        if b == 55u8 || b == 56u8 || b == 57u8 {
            let n = Uint::decode(data, pos)?;
            if b == 55u8 {
                Ok(IntLit::Pos(n))
            } else if b == 56u8 {
                Ok(IntLit::Neg(n))
            } else {
                Ok(IntLit::Big(ComponentRef::new(n)))
            }
        } else if 144u8 <= b && b <= 151u8 {
            if b < 147u8 {
                Ok(IntLit::Neg(Uint((147u8 - b) as u32)))
            } else {
                Ok(IntLit::Pos(Uint((b - 147u8) as u32)))
            }
        } else {
            Err(KernelError::UnknownTag { sum: SumKind::IntLit, tag: b })
        }
    }
}

/// The one-byte form of an integer literal and its general form read as the same value.
pub proof fn lemma_int_lit_short_form(k: u8, rest: Seq<u8>)
    requires
        k < 8,
    ensures
        IntLit::parse(seq![(144 + k) as u8] + rest, 0) == Some((short_int_lit((144 + k) as u8), 1int)),
        IntLit::parse(short_int_lit((144 + k) as u8).wire() + rest, 0) == Some(
            (short_int_lit((144 + k) as u8), short_int_lit((144 + k) as u8).wire().len() as int),
        ),
{
    let v = short_int_lit((144 + k) as u8);
    assert(v.encodable());
    v.lemma_round_trip(Seq::empty(), rest);
    assert(Seq::<u8>::empty() + v.wire() + rest =~= v.wire() + rest);
}

/// An expression or constant with a label: a key, a name or an offset.
#[derive(Debug, PartialEq)]
pub struct LabeledExpr<A> {
    pub label: A,
    pub value: Expr,
}

/// A constant-table entry with a key.
#[derive(Debug, PartialEq)]
pub struct LabeledConstant<A> {
    pub key: A,
    pub value: ConstantRef,
}

impl Arguments {
    /// Positional arguments only, with their type arguments.
    pub fn positional(types: Vec<Type>, values: Vec<Expr>) -> (r: Self)
        requires
            values@.len() <= u32::MAX,
        ensures
            r.num_args == Uint(values@.len() as u32),
            r.types@ == types@,
            r.positional@ == values@,
            r.named@.len() == 0,
    {
        Arguments { num_args: Uint(values.len() as u32), types, positional: values, named: Vec::new() }
    }
}

/// Reads the expressions that hold no nested expression or type: a variable
/// read without a promoted type, and an integer literal, in their general or
/// one-byte forms. The one-byte forms give the general form's value.
pub open spec fn short_expr_parse(d: Seq<u8>, p: int) -> Option<(Expr, int)> {
    match u8_parse(d, p) {
        Some((b, q)) => if b == 20 || (128 <= b && b <= 135) {
            match uint_parse(d, q) {
                Some((offset, q1)) => match uint_parse(d, q1) {
                    Some((position, q2)) => if b == 20 {
                        match uint_parse(d, q2) {
                            Some((var, q3)) => if u8_parse(d, q3) == Some((0u8, q3 + 1)) {
                                Some(
                                    (
                                        Expr::VarGet {
                                            offset: FileOffset(Uint(offset)),
                                            var_decl_position: Uint(position),
                                            var: Uint(var),
                                            promoted_type: None,
                                        },
                                        q3 + 1,
                                    ),
                                )
                            } else {
                                None
                            },
                            None => None,
                        }
                    } else {
                        Some(
                            (
                                Expr::VarGet {
                                    offset: FileOffset(Uint(offset)),
                                    var_decl_position: Uint(position),
                                    var: Uint((b - 128) as u32),
                                    promoted_type: None,
                                },
                                q2,
                            ),
                        )
                    },
                    None => None,
                },
                None => None,
            }
        } else if b == 55 || b == 56 {
            match uint_parse(d, q) {
                Some((n, r)) => Some(
                    (if b == 55 { Expr::PosIntLit(Uint(n)) } else { Expr::NegIntLit(Uint(n)) }, r),
                ),
                None => None,
            }
        } else if 144 <= b && b <= 151 {
            Some(
                (
                    if b < 147 {
                        Expr::NegIntLit(Uint((147 - b) as u32))
                    } else {
                        Expr::PosIntLit(Uint((b - 147) as u32))
                    },
                    q,
                ),
            )
        } else {
            None
        },
        None => None,
    }
}

/// A variable read in its one-byte form (discriminator 128 + k) gives the same
/// expression as its general form with variable index k and no promoted type.
pub proof fn lemma_var_get_short_form(k: u8, offset: u32, position: u32)
    requires
        k < 8,
        offset < UINT_LIMIT,
        position < UINT_LIMIT,
    ensures
        ({
            let short = seq![(128 + k) as u8] + uint_bytes(offset) + uint_bytes(position);
            let general = seq![20u8] + uint_bytes(offset) + uint_bytes(position) + uint_bytes(
                k as u32,
            ) + seq![0u8];
            &&& short_expr_parse(short, 0) is Some
            &&& short_expr_parse(general, 0) is Some
            &&& (short_expr_parse(short, 0)->0).0 == (short_expr_parse(general, 0)->0).0
        }),
{
    let short = seq![(128 + k) as u8] + uint_bytes(offset) + uint_bytes(position);
    let general = seq![20u8] + uint_bytes(offset) + uint_bytes(position) + uint_bytes(k as u32)
        + seq![0u8];
    let e = Seq::<u8>::empty();
    lemma_uint_round_trip(offset, seq![(128 + k) as u8], uint_bytes(position));
    assert(short =~= seq![(128 + k) as u8] + uint_bytes(offset) + uint_bytes(position));
    let s1 = seq![(128 + k) as u8] + uint_bytes(offset);
    lemma_uint_round_trip(position, s1, e);
    assert(short =~= s1 + uint_bytes(position) + e);
    let g0 = seq![20u8];
    lemma_uint_round_trip(
        offset,
        g0,
        uint_bytes(position) + uint_bytes(k as u32) + seq![0u8],
    );
    assert(general =~= g0 + uint_bytes(offset) + (uint_bytes(position) + uint_bytes(k as u32)
        + seq![0u8]));
    let g1 = g0 + uint_bytes(offset);
    lemma_uint_round_trip(position, g1, uint_bytes(k as u32) + seq![0u8]);
    assert(general =~= g1 + uint_bytes(position) + (uint_bytes(k as u32) + seq![0u8]));
    let g2 = g1 + uint_bytes(position);
    lemma_uint_round_trip(k as u32, g2, seq![0u8]);
    assert(general =~= g2 + uint_bytes(k as u32) + seq![0u8]);
    assert(general[general.len() - 1] == 0u8);
}

/// An integer literal in its one-byte form (discriminator 144 + k, for k - 3)
/// gives the same expression as its general form.
pub proof fn lemma_int_lit_expr_short_form(k: u8)
    requires
        k < 8,
    ensures
        ({
            let short = seq![(144 + k) as u8];
            let general = if k < 3 {
                seq![56u8] + uint_bytes((3 - k) as u32)
            } else {
                seq![55u8] + uint_bytes((k - 3) as u32)
            };
            &&& short_expr_parse(short, 0) is Some
            &&& short_expr_parse(general, 0) is Some
            &&& (short_expr_parse(short, 0)->0).0 == (short_expr_parse(general, 0)->0).0
        }),
{
    let n: u32 = if k < 3 { (3 - k) as u32 } else { (k - 3) as u32 };
    let t: u8 = if k < 3 { 56u8 } else { 55u8 };
    lemma_uint_round_trip(n, seq![t], Seq::empty());
    assert(seq![t] + uint_bytes(n) + Seq::<u8>::empty() =~= seq![t] + uint_bytes(n));
}
/// How an instance member is reached.
#[derive(Debug, Clone, Copy, PartialEq, Eq, Structural)]
pub enum InstanceAccessKind {
    Instance,
    Object,
    Inapplicable,
    Nullable,
}

impl InstanceAccessKind {
    /// The wire byte of each variant.
    pub open spec fn spec_tag(&self) -> u8 {
        match self {
            InstanceAccessKind::Instance => 0,
            InstanceAccessKind::Object => 1,
            InstanceAccessKind::Inapplicable => 2,
            InstanceAccessKind::Nullable => 3,
        }
    }

    pub open spec fn from_tag(b: u8) -> Option<InstanceAccessKind> {
        if b == 0 {
            Some(InstanceAccessKind::Instance)
        } else if b == 1 {
            Some(InstanceAccessKind::Object)
        } else if b == 2 {
            Some(InstanceAccessKind::Inapplicable)
        } else if b == 3 {
            Some(InstanceAccessKind::Nullable)
        } else {
            None
        }
    }
}

impl DeepView for InstanceAccessKind {
    type V = InstanceAccessKind;

    open spec fn deep_view(&self) -> InstanceAccessKind {
        *self
    }
}

impl Codec for InstanceAccessKind {
    open spec fn encodable(&self) -> bool {
        true
    }

    open spec fn wire(&self) -> Seq<u8> {
        seq![self.spec_tag()]
    }

    open spec fn parse(d: Seq<u8>, p: int) -> Option<(InstanceAccessKind, int)> {
        match u8_parse(d, p) {
            Some((b, q)) => match InstanceAccessKind::from_tag(b) {
                Some(v) => Some((v, q)),
                None => None,
            },
            None => None,
        }
    }

    proof fn lemma_round_trip(&self, pre: Seq<u8>, rest: Seq<u8>) {
        assert((pre + self.wire() + rest)[pre.len() as int] == self.spec_tag());
    }

    fn encode(&self, out: &mut Vec<u8>) -> (r: Result<(), KernelError>) {
        let b: u8 = match self {
            InstanceAccessKind::Instance => 0,
            InstanceAccessKind::Object => 1,
            InstanceAccessKind::Inapplicable => 2,
            InstanceAccessKind::Nullable => 3,
        };
        out.push(b);
        assert(out@ =~= old(out)@ + self.wire());
        Ok(())
    }

    fn decode(data: &[u8], pos: &mut usize) -> (r: Result<InstanceAccessKind, KernelError>) {
        let b = read_u8(data, pos)?;
        match b {
            0u8 => Ok(InstanceAccessKind::Instance),
            1u8 => Ok(InstanceAccessKind::Object),
            2u8 => Ok(InstanceAccessKind::Inapplicable),
            3u8 => Ok(InstanceAccessKind::Nullable),
            _ => Err(KernelError::UnknownTag { sum: SumKind::InstanceAccessKind, tag: b }),
        }
    }
}

/// How a dynamic member is reached.
#[derive(Debug, Clone, Copy, PartialEq, Eq, Structural)]
pub enum DynamicAccessKind {
    Dynamic,
    Never,
    Invalid,
    Unresolved,
}

impl DynamicAccessKind {
    /// The wire byte of each variant.
    pub open spec fn spec_tag(&self) -> u8 {
        match self {
            DynamicAccessKind::Dynamic => 0,
            DynamicAccessKind::Never => 1,
            DynamicAccessKind::Invalid => 2,
            DynamicAccessKind::Unresolved => 3,
        }
    }

    pub open spec fn from_tag(b: u8) -> Option<DynamicAccessKind> {
        if b == 0 {
            Some(DynamicAccessKind::Dynamic)
        } else if b == 1 {
            Some(DynamicAccessKind::Never)
        } else if b == 2 {
            Some(DynamicAccessKind::Invalid)
        } else if b == 3 {
            Some(DynamicAccessKind::Unresolved)
        } else {
            None
        }
    }
}

impl DeepView for DynamicAccessKind {
    type V = DynamicAccessKind;

    open spec fn deep_view(&self) -> DynamicAccessKind {
        *self
    }
}

impl Codec for DynamicAccessKind {
    open spec fn encodable(&self) -> bool {
        true
    }

    open spec fn wire(&self) -> Seq<u8> {
        seq![self.spec_tag()]
    }

    open spec fn parse(d: Seq<u8>, p: int) -> Option<(DynamicAccessKind, int)> {
        match u8_parse(d, p) {
            Some((b, q)) => match DynamicAccessKind::from_tag(b) {
                Some(v) => Some((v, q)),
                None => None,
            },
            None => None,
        }
    }

    proof fn lemma_round_trip(&self, pre: Seq<u8>, rest: Seq<u8>) {
        assert((pre + self.wire() + rest)[pre.len() as int] == self.spec_tag());
    }

    fn encode(&self, out: &mut Vec<u8>) -> (r: Result<(), KernelError>) {
        let b: u8 = match self {
            DynamicAccessKind::Dynamic => 0,
            DynamicAccessKind::Never => 1,
            DynamicAccessKind::Invalid => 2,
            DynamicAccessKind::Unresolved => 3,
        };
        out.push(b);
        assert(out@ =~= old(out)@ + self.wire());
        Ok(())
    }

    fn decode(data: &[u8], pos: &mut usize) -> (r: Result<DynamicAccessKind, KernelError>) {
        let b = read_u8(data, pos)?;
        match b {
            0u8 => Ok(DynamicAccessKind::Dynamic),
            1u8 => Ok(DynamicAccessKind::Never),
            2u8 => Ok(DynamicAccessKind::Invalid),
            3u8 => Ok(DynamicAccessKind::Unresolved),
            _ => Err(KernelError::UnknownTag { sum: SumKind::DynamicAccessKind, tag: b }),
        }
    }
}

/// How a function value is invoked.
#[derive(Debug, Clone, Copy, PartialEq, Eq, Structural)]
pub enum FunctionAccessKind {
    Function,
    FunctionType,
    Inapplicable,
    Nullable,
}

impl FunctionAccessKind {
    /// The wire byte of each variant.
    pub open spec fn spec_tag(&self) -> u8 {
        match self {
            FunctionAccessKind::Function => 0,
            FunctionAccessKind::FunctionType => 1,
            FunctionAccessKind::Inapplicable => 2,
            FunctionAccessKind::Nullable => 3,
        }
    }

    pub open spec fn from_tag(b: u8) -> Option<FunctionAccessKind> {
        if b == 0 {
            Some(FunctionAccessKind::Function)
        } else if b == 1 {
            Some(FunctionAccessKind::FunctionType)
        } else if b == 2 {
            Some(FunctionAccessKind::Inapplicable)
        } else if b == 3 {
            Some(FunctionAccessKind::Nullable)
        } else {
            None
        }
    }
}

impl DeepView for FunctionAccessKind {
    type V = FunctionAccessKind;

    open spec fn deep_view(&self) -> FunctionAccessKind {
        *self
    }
}

impl Codec for FunctionAccessKind {
    open spec fn encodable(&self) -> bool {
        true
    }

    open spec fn wire(&self) -> Seq<u8> {
        seq![self.spec_tag()]
    }

    open spec fn parse(d: Seq<u8>, p: int) -> Option<(FunctionAccessKind, int)> {
        match u8_parse(d, p) {
            Some((b, q)) => match FunctionAccessKind::from_tag(b) {
                Some(v) => Some((v, q)),
                None => None,
            },
            None => None,
        }
    }

    proof fn lemma_round_trip(&self, pre: Seq<u8>, rest: Seq<u8>) {
        assert((pre + self.wire() + rest)[pre.len() as int] == self.spec_tag());
    }

    fn encode(&self, out: &mut Vec<u8>) -> (r: Result<(), KernelError>) {
        let b: u8 = match self {
            FunctionAccessKind::Function => 0,
            FunctionAccessKind::FunctionType => 1,
            FunctionAccessKind::Inapplicable => 2,
            FunctionAccessKind::Nullable => 3,
        };
        out.push(b);
        assert(out@ =~= old(out)@ + self.wire());
        Ok(())
    }

    fn decode(data: &[u8], pos: &mut usize) -> (r: Result<FunctionAccessKind, KernelError>) {
        let b = read_u8(data, pos)?;
        match b {
            0u8 => Ok(FunctionAccessKind::Function),
            1u8 => Ok(FunctionAccessKind::FunctionType),
            2u8 => Ok(FunctionAccessKind::Inapplicable),
            3u8 => Ok(FunctionAccessKind::Nullable),
            _ => Err(KernelError::UnknownTag { sum: SumKind::FunctionAccessKind, tag: b }),
        }
    }
}

/// A short-circuit boolean operator.
#[derive(Debug, Clone, Copy, PartialEq, Eq, Structural)]
pub enum LogicalOp {
    And,
    Or,
}

impl LogicalOp {
    /// The wire byte of each variant.
    pub open spec fn spec_tag(&self) -> u8 {
        match self {
            LogicalOp::And => 0,
            LogicalOp::Or => 1,
        }
    }

    pub open spec fn from_tag(b: u8) -> Option<LogicalOp> {
        if b == 0 {
            Some(LogicalOp::And)
        } else if b == 1 {
            Some(LogicalOp::Or)
        } else {
            None
        }
    }
}

impl DeepView for LogicalOp {
    type V = LogicalOp;

    open spec fn deep_view(&self) -> LogicalOp {
        *self
    }
}

impl Codec for LogicalOp {
    open spec fn encodable(&self) -> bool {
        true
    }

    open spec fn wire(&self) -> Seq<u8> {
        seq![self.spec_tag()]
    }

    open spec fn parse(d: Seq<u8>, p: int) -> Option<(LogicalOp, int)> {
        match u8_parse(d, p) {
            Some((b, q)) => match LogicalOp::from_tag(b) {
                Some(v) => Some((v, q)),
                None => None,
            },
            None => None,
        }
    }

    proof fn lemma_round_trip(&self, pre: Seq<u8>, rest: Seq<u8>) {
        assert((pre + self.wire() + rest)[pre.len() as int] == self.spec_tag());
    }

    fn encode(&self, out: &mut Vec<u8>) -> (r: Result<(), KernelError>) {
        let b: u8 = match self {
            LogicalOp::And => 0,
            LogicalOp::Or => 1,
        };
        out.push(b);
        assert(out@ =~= old(out)@ + self.wire());
        Ok(())
    }

    fn decode(data: &[u8], pos: &mut usize) -> (r: Result<LogicalOp, KernelError>) {
        let b = read_u8(data, pos)?;
        match b {
            0u8 => Ok(LogicalOp::And),
            1u8 => Ok(LogicalOp::Or),
            _ => Err(KernelError::UnknownTag { sum: SumKind::LogicalOp, tag: b }),
        }
    }
}

/// An expression of the syntax tree.
#[derive(Debug, PartialEq)]
pub enum Expr {
    Invalid {
        offset: FileOffset,
        message: StringRef,
        expression: Option<Box<Expr>>,
    },
    VarGet {
        offset: FileOffset,
        var_decl_position: Uint,
        var: Uint,
        promoted_type: Option<Box<Type>>,
    },
    VarSet {
        offset: FileOffset,
        var_decl_position: Uint,
        var: Uint,
        value: Box<Expr>,
    },
    SuperPropGet {
        offset: FileOffset,
        name: StringRef,
        interface_target: CanonicalNameRef,
        interface_target_origin: CanonicalNameRef,
    },
    SuperPropSet {
        offset: FileOffset,
        name: StringRef,
        value: Box<Expr>,
        interface_target: CanonicalNameRef,
        interface_target_origin: CanonicalNameRef,
    },
    InstanceGet {
        kind: InstanceAccessKind,
        offset: FileOffset,
        receiver: Box<Expr>,
        name: StringRef,
        typ: Box<Type>,
        interface_target: CanonicalNameRef,
        interface_target_origin: CanonicalNameRef,
    },
    InstanceSet {
        kind: InstanceAccessKind,
        offset: FileOffset,
        receiver: Box<Expr>,
        name: StringRef,
        value: Box<Expr>,
        interface_target: CanonicalNameRef,
        interface_target_origin: CanonicalNameRef,
    },
    InstanceTearOff {
        kind: InstanceAccessKind,
        offset: FileOffset,
        receiver: Box<Expr>,
        name: StringRef,
        typ: Box<Type>,
        interface_target: CanonicalNameRef,
        interface_target_origin: CanonicalNameRef,
    },
    DynamicGet {
        kind: DynamicAccessKind,
        offset: FileOffset,
        receiver: Box<Expr>,
        name: StringRef,
    },
    DynamicSet {
        kind: DynamicAccessKind,
        offset: FileOffset,
        receiver: Box<Expr>,
        name: StringRef,
        value: Box<Expr>,
    },
    StaticGet {
        offset: FileOffset,
        target: CanonicalNameRef,
    },
    StaticSet {
        offset: FileOffset,
        target: CanonicalNameRef,
        value: Box<Expr>,
    },
    StaticTearOff {
        offset: FileOffset,
        target: CanonicalNameRef,
    },
    ConstructorTearOff {
        offset: FileOffset,
        target: CanonicalNameRef,
    },
    RedirectingFactoryTearOff {
        offset: FileOffset,
        target: CanonicalNameRef,
    },
    TypedefTearOff {
        type_params: Vec<TypeParameter>,
        expr: Box<Expr>,
        type_args: Vec<Type>,
    },
    InstanceInvoke {
        kind: InstanceAccessKind,
        flags: InvocationFlags,
        offset: FileOffset,
        receiver: Box<Expr>,
        name: StringRef,
        arguments: Box<Arguments>,
        function_type: Box<Type>,
        interface_target: CanonicalNameRef,
        interface_target_origin: CanonicalNameRef,
    },
    InstanceGetterInvoke {
        kind: InstanceAccessKind,
        flags: InvocationFlags,
        offset: FileOffset,
        receiver: Box<Expr>,
        name: StringRef,
        arguments: Box<Arguments>,
        function_type: Box<Type>,
        interface_target: CanonicalNameRef,
        interface_target_origin: CanonicalNameRef,
    },
    DynamicInvoke {
        kind: DynamicAccessKind,
        offset: FileOffset,
        receiver: Box<Expr>,
        name: StringRef,
        arguments: Box<Arguments>,
    },
    FunctionInvoke {
        kind: FunctionAccessKind,
        offset: FileOffset,
        receiver: Box<Expr>,
        arguments: Box<Arguments>,
        function_type: Box<Type>,
    },
    FunctionTearOff {
        offset: FileOffset,
        receiver: Box<Expr>,
    },
    LocalFunctionInvoke {
        offset: FileOffset,
        var_decl_position: Uint,
        var_ref: Uint,
        arguments: Box<Arguments>,
        function_type: Box<Type>,
    },
    SuperMethodInvoke {
        offset: FileOffset,
        name: StringRef,
        arguments: Box<Arguments>,
        interface_target: CanonicalNameRef,
        interface_target_origin: CanonicalNameRef,
    },
    StaticInvoke {
        offset: FileOffset,
        target: CanonicalNameRef,
        arguments: Box<Arguments>,
    },
    ConstStaticInvoke {
        offset: FileOffset,
        target: CanonicalNameRef,
        arguments: Box<Arguments>,
    },
    ConstructorInvoke {
        offset: FileOffset,
        constructor: CanonicalNameRef,
        arguments: Box<Arguments>,
    },
    ConstConstructorInvoke {
        offset: FileOffset,
        constructor: CanonicalNameRef,
        arguments: Box<Arguments>,
    },
    EqualsNull {
        offset: FileOffset,
        expr: Box<Expr>,
    },
    Equals {
        offset: FileOffset,
        left: Box<Expr>,
        right: Box<Expr>,
        function_type: Box<Type>,
        interface_target: CanonicalNameRef,
        interface_target_origin: CanonicalNameRef,
    },
    Not {
        operand: Box<Expr>,
    },
    NullCheck {
        offset: FileOffset,
        operand: Box<Expr>,
    },
    LogicalOp {
        left: Box<Expr>,
        operator: LogicalOp,
        right: Box<Expr>,
    },
    Conditional {
        condition: Box<Expr>,
        then_value: Box<Expr>,
        otherwise: Box<Expr>,
        static_type: Option<Box<Type>>,
    },
    StringConcat {
        offset: FileOffset,
        expressions: Vec<Expr>,
    },
    ListConcat {
        offset: FileOffset,
        type_arg: Box<Type>,
        expressions: Vec<Expr>,
    },
    SetConcat {
        offset: FileOffset,
        type_arg: Box<Type>,
        expressions: Vec<Expr>,
    },
    MapConcat {
        offset: FileOffset,
        key_type: Box<Type>,
        value_type: Box<Type>,
        expressions: Vec<Expr>,
    },
    InstanceCreate(Box<InstanceCreate>),
    FileUriLit {
        file_uri: UriRef,
        offset: FileOffset,
        expression: Box<Expr>,
    },
    IsInstanceOf {
        offset: FileOffset,
        flags: u8,
        operand: Box<Expr>,
        typ: Box<Type>,
    },
    AsInstanceOf {
        offset: FileOffset,
        flags: DynamicCastFlags,
        operand: Box<Expr>,
        typ: Box<Type>,
    },
    StringLit(StringRef),
    PosIntLit(Uint),
    NegIntLit(Uint),
    BigIntLit(StringRef),
    /// The IEEE 754 bits of the value.
    DoubleLit(u64),
    TrueLit,
    FalseLit,
    NullLit,
    SymbolLit(StringRef),
    TypeLit(Box<Type>),
    This,
    Rethrow(FileOffset),
    Throw(FileOffset, Box<Expr>),
    ListLit {
        offset: FileOffset,
        type_argument: Box<Type>,
        values: Vec<Expr>,
    },
    SetLit {
        offset: FileOffset,
        type_argument: Box<Type>,
        values: Vec<Expr>,
    },
    MapLit {
        offset: FileOffset,
        key_type: Box<Type>,
        value_type: Box<Type>,
        values: Vec<LabeledExpr<Expr>>,
    },
    Await(Box<Expr>),
    Function(FileOffset, Box<Function>),
    Let(FileOffset, Box<VarDecl>, Box<Expr>),
    Block {
        body: Vec<Stmt>,
        value: Box<Expr>,
    },
    Instantiation {
        expr: Box<Expr>,
        type_args: Vec<Type>,
    },
    LoadLibrary(DependencyRef),
    CheckLibraryIsLoaded(DependencyRef),
    Constant {
        offset: FileOffset,
        typ: Box<Type>,
        constant: ConstantRef,
    },
}

/// Every count and variable-length integer in the value fits in 30 bits.
pub open spec fn expr_encodable(v: Expr) -> bool
    decreases v,
{
    match v {
        Expr::Invalid { offset, message, expression } => offset.encodable()
            && message.encodable()
            && (match expression { Some(x) => expr_encodable(*x), None => true }),
        Expr::VarGet { offset, var_decl_position, var, promoted_type } => offset.encodable()
            && var_decl_position.encodable()
            && var.encodable()
            && (match promoted_type { Some(x) => type_encodable(*x), None => true }),
        Expr::VarSet { offset, var_decl_position, var, value } => offset.encodable()
            && var_decl_position.encodable()
            && var.encodable()
            && expr_encodable(*value),
        Expr::SuperPropGet { offset, name, interface_target, interface_target_origin } => offset.encodable()
            && name.encodable()
            && interface_target.encodable()
            && interface_target_origin.encodable(),
        Expr::SuperPropSet { offset, name, value, interface_target, interface_target_origin } => offset.encodable()
            && name.encodable()
            && expr_encodable(*value)
            && interface_target.encodable()
            && interface_target_origin.encodable(),
        Expr::InstanceGet { kind, offset, receiver, name, typ, interface_target, interface_target_origin } => kind.encodable()
            && offset.encodable()
            && expr_encodable(*receiver)
            && name.encodable()
            && type_encodable(*typ)
            && interface_target.encodable()
            && interface_target_origin.encodable(),
        Expr::InstanceSet { kind, offset, receiver, name, value, interface_target, interface_target_origin } => kind.encodable()
            && offset.encodable()
            && expr_encodable(*receiver)
            && name.encodable()
            && expr_encodable(*value)
            && interface_target.encodable()
            && interface_target_origin.encodable(),
        Expr::InstanceTearOff { kind, offset, receiver, name, typ, interface_target, interface_target_origin } => kind.encodable()
            && offset.encodable()
            && expr_encodable(*receiver)
            && name.encodable()
            && type_encodable(*typ)
            && interface_target.encodable()
            && interface_target_origin.encodable(),
        Expr::DynamicGet { kind, offset, receiver, name } => kind.encodable()
            && offset.encodable()
            && expr_encodable(*receiver)
            && name.encodable(),
        Expr::DynamicSet { kind, offset, receiver, name, value } => kind.encodable()
            && offset.encodable()
            && expr_encodable(*receiver)
            && name.encodable()
            && expr_encodable(*value),
        Expr::StaticGet { offset, target } => offset.encodable() && target.encodable(),
        Expr::StaticSet { offset, target, value } => offset.encodable()
            && target.encodable()
            && expr_encodable(*value),
        Expr::StaticTearOff { offset, target } => offset.encodable() && target.encodable(),
        Expr::ConstructorTearOff { offset, target } => offset.encodable() && target.encodable(),
        Expr::RedirectingFactoryTearOff { offset, target } => offset.encodable() && target.encodable(),
        Expr::TypedefTearOff { type_params, expr, type_args } => (type_params@.len() < 0x4000_0000 && type_parameter_items_encodable(type_params@))
            && expr_encodable(*expr)
            && (type_args@.len() < 0x4000_0000 && type_items_encodable(type_args@)),
        Expr::InstanceInvoke { kind, flags, offset, receiver, name, arguments, function_type, interface_target, interface_target_origin } => kind.encodable()
            && flags.encodable()
            && offset.encodable()
            && expr_encodable(*receiver)
            && name.encodable()
            && arguments_encodable(*arguments)
            && type_encodable(*function_type)
            && interface_target.encodable()
            && interface_target_origin.encodable(),
        Expr::InstanceGetterInvoke { kind, flags, offset, receiver, name, arguments, function_type, interface_target, interface_target_origin } => kind.encodable()
            && flags.encodable()
            && offset.encodable()
            && expr_encodable(*receiver)
            && name.encodable()
            && arguments_encodable(*arguments)
            && type_encodable(*function_type)
            && interface_target.encodable()
            && interface_target_origin.encodable(),
        Expr::DynamicInvoke { kind, offset, receiver, name, arguments } => kind.encodable()
            && offset.encodable()
            && expr_encodable(*receiver)
            && name.encodable()
            && arguments_encodable(*arguments),
        Expr::FunctionInvoke { kind, offset, receiver, arguments, function_type } => kind.encodable()
            && offset.encodable()
            && expr_encodable(*receiver)
            && arguments_encodable(*arguments)
            && type_encodable(*function_type),
        Expr::FunctionTearOff { offset, receiver } => offset.encodable() && expr_encodable(*receiver),
        Expr::LocalFunctionInvoke { offset, var_decl_position, var_ref, arguments, function_type } => offset.encodable()
            && var_decl_position.encodable()
            && var_ref.encodable()
            && arguments_encodable(*arguments)
            && type_encodable(*function_type),
        Expr::SuperMethodInvoke { offset, name, arguments, interface_target, interface_target_origin } => offset.encodable()
            && name.encodable()
            && arguments_encodable(*arguments)
            && interface_target.encodable()
            && interface_target_origin.encodable(),
        Expr::StaticInvoke { offset, target, arguments } => offset.encodable()
            && target.encodable()
            && arguments_encodable(*arguments),
        Expr::ConstStaticInvoke { offset, target, arguments } => offset.encodable()
            && target.encodable()
            && arguments_encodable(*arguments),
        Expr::ConstructorInvoke { offset, constructor, arguments } => offset.encodable()
            && constructor.encodable()
            && arguments_encodable(*arguments),
        Expr::ConstConstructorInvoke { offset, constructor, arguments } => offset.encodable()
            && constructor.encodable()
            && arguments_encodable(*arguments),
        Expr::EqualsNull { offset, expr } => offset.encodable() && expr_encodable(*expr),
        Expr::Equals { offset, left, right, function_type, interface_target, interface_target_origin } => offset.encodable()
            && expr_encodable(*left)
            && expr_encodable(*right)
            && type_encodable(*function_type)
            && interface_target.encodable()
            && interface_target_origin.encodable(),
        Expr::Not { operand } => expr_encodable(*operand),
        Expr::NullCheck { offset, operand } => offset.encodable() && expr_encodable(*operand),
        Expr::LogicalOp { left, operator, right } => expr_encodable(*left)
            && operator.encodable()
            && expr_encodable(*right),
        Expr::Conditional { condition, then_value, otherwise, static_type } => expr_encodable(*condition)
            && expr_encodable(*then_value)
            && expr_encodable(*otherwise)
            && (match static_type { Some(x) => type_encodable(*x), None => true }),
        Expr::StringConcat { offset, expressions } => offset.encodable() && (expressions@.len() < 0x4000_0000 && expr_items_encodable(expressions@)),
        Expr::ListConcat { offset, type_arg, expressions } => offset.encodable()
            && type_encodable(*type_arg)
            && (expressions@.len() < 0x4000_0000 && expr_items_encodable(expressions@)),
        Expr::SetConcat { offset, type_arg, expressions } => offset.encodable()
            && type_encodable(*type_arg)
            && (expressions@.len() < 0x4000_0000 && expr_items_encodable(expressions@)),
        Expr::MapConcat { offset, key_type, value_type, expressions } => offset.encodable()
            && type_encodable(*key_type)
            && type_encodable(*value_type)
            && (expressions@.len() < 0x4000_0000 && expr_items_encodable(expressions@)),
        Expr::InstanceCreate(f0) => instance_create_encodable(*f0),
        Expr::FileUriLit { file_uri, offset, expression } => file_uri.encodable()
            && offset.encodable()
            && expr_encodable(*expression),
        Expr::IsInstanceOf { offset, flags, operand, typ } => offset.encodable()
            && flags.encodable()
            && expr_encodable(*operand)
            && type_encodable(*typ),
        Expr::AsInstanceOf { offset, flags, operand, typ } => offset.encodable()
            && flags.encodable()
            && expr_encodable(*operand)
            && type_encodable(*typ),
        Expr::StringLit(f0) => f0.encodable(),
        Expr::PosIntLit(f0) => f0.encodable(),
        Expr::NegIntLit(f0) => f0.encodable(),
        Expr::BigIntLit(f0) => f0.encodable(),
        Expr::DoubleLit(f0) => f0.encodable(),
        Expr::TrueLit => true,
        Expr::FalseLit => true,
        Expr::NullLit => true,
        Expr::SymbolLit(f0) => f0.encodable(),
        Expr::TypeLit(f0) => type_encodable(*f0),
        Expr::This => true,
        Expr::Rethrow(f0) => f0.encodable(),
        Expr::Throw(f0, f1) => f0.encodable() && expr_encodable(*f1),
        Expr::ListLit { offset, type_argument, values } => offset.encodable()
            && type_encodable(*type_argument)
            && (values@.len() < 0x4000_0000 && expr_items_encodable(values@)),
        Expr::SetLit { offset, type_argument, values } => offset.encodable()
            && type_encodable(*type_argument)
            && (values@.len() < 0x4000_0000 && expr_items_encodable(values@)),
        Expr::MapLit { offset, key_type, value_type, values } => offset.encodable()
            && type_encodable(*key_type)
            && type_encodable(*value_type)
            && (values@.len() < 0x4000_0000 && labeled_expr_items_encodable(values@)),
        Expr::Await(f0) => expr_encodable(*f0),
        Expr::Function(f0, f1) => f0.encodable() && function_encodable(*f1),
        Expr::Let(f0, f1, f2) => f0.encodable()
            && var_decl_encodable(*f1)
            && expr_encodable(*f2),
        Expr::Block { body, value } => (body@.len() < 0x4000_0000 && stmt_items_encodable(body@)) && expr_encodable(*value),
        Expr::Instantiation { expr, type_args } => expr_encodable(*expr) && (type_args@.len() < 0x4000_0000 && type_items_encodable(type_args@)),
        Expr::LoadLibrary(f0) => f0.encodable(),
        Expr::CheckLibraryIsLoaded(f0) => f0.encodable(),
        Expr::Constant { offset, typ, constant } => offset.encodable()
            && type_encodable(*typ)
            && constant.encodable(),
    }
}

/// The wire form: the discriminator byte, then the fields in order.
pub open spec fn expr_wire(v: Expr) -> Seq<u8>
    decreases v,
{
    match v {
        Expr::Invalid { offset, message, expression } => seq![19u8]
            + offset.wire()
            + message.wire()
            + (match expression { Some(x) => seq![1u8] + expr_wire(*x), None => seq![0u8] }),
        Expr::VarGet { offset, var_decl_position, var, promoted_type } => seq![20u8]
            + offset.wire()
            + var_decl_position.wire()
            + var.wire()
            + (match promoted_type { Some(x) => seq![1u8] + type_wire(*x), None => seq![0u8] }),
        Expr::VarSet { offset, var_decl_position, var, value } => seq![21u8]
            + offset.wire()
            + var_decl_position.wire()
            + var.wire()
            + expr_wire(*value),
        Expr::SuperPropGet { offset, name, interface_target, interface_target_origin } => seq![24u8]
            + offset.wire()
            + name.wire()
            + interface_target.wire()
            + interface_target_origin.wire(),
        Expr::SuperPropSet { offset, name, value, interface_target, interface_target_origin } => seq![25u8]
            + offset.wire()
            + name.wire()
            + expr_wire(*value)
            + interface_target.wire()
            + interface_target_origin.wire(),
        Expr::InstanceGet { kind, offset, receiver, name, typ, interface_target, interface_target_origin } => seq![118u8]
            + kind.wire()
            + offset.wire()
            + expr_wire(*receiver)
            + name.wire()
            + type_wire(*typ)
            + interface_target.wire()
            + interface_target_origin.wire(),
        Expr::InstanceSet { kind, offset, receiver, name, value, interface_target, interface_target_origin } => seq![119u8]
            + kind.wire()
            + offset.wire()
            + expr_wire(*receiver)
            + name.wire()
            + expr_wire(*value)
            + interface_target.wire()
            + interface_target_origin.wire(),
        Expr::InstanceTearOff { kind, offset, receiver, name, typ, interface_target, interface_target_origin } => seq![121u8]
            + kind.wire()
            + offset.wire()
            + expr_wire(*receiver)
            + name.wire()
            + type_wire(*typ)
            + interface_target.wire()
            + interface_target_origin.wire(),
        Expr::DynamicGet { kind, offset, receiver, name } => seq![122u8]
            + kind.wire()
            + offset.wire()
            + expr_wire(*receiver)
            + name.wire(),
        Expr::DynamicSet { kind, offset, receiver, name, value } => seq![123u8]
            + kind.wire()
            + offset.wire()
            + expr_wire(*receiver)
            + name.wire()
            + expr_wire(*value),
        Expr::StaticGet { offset, target } => seq![26u8] + offset.wire() + target.wire(),
        Expr::StaticSet { offset, target, value } => seq![27u8]
            + offset.wire()
            + target.wire()
            + expr_wire(*value),
        Expr::StaticTearOff { offset, target } => seq![17u8] + offset.wire() + target.wire(),
        Expr::ConstructorTearOff { offset, target } => seq![60u8] + offset.wire() + target.wire(),
        Expr::RedirectingFactoryTearOff { offset, target } => seq![84u8] + offset.wire() + target.wire(),
        Expr::TypedefTearOff { type_params, expr, type_args } => seq![83u8]
            + uint_bytes(type_params@.len() as u32) + type_parameter_items_wire(type_params@)
            + expr_wire(*expr)
            + uint_bytes(type_args@.len() as u32) + type_items_wire(type_args@),
        Expr::InstanceInvoke { kind, flags, offset, receiver, name, arguments, function_type, interface_target, interface_target_origin } => seq![120u8]
            + kind.wire()
            + flags.wire()
            + offset.wire()
            + expr_wire(*receiver)
            + name.wire()
            + arguments_wire(*arguments)
            + type_wire(*function_type)
            + interface_target.wire()
            + interface_target_origin.wire(),
        Expr::InstanceGetterInvoke { kind, flags, offset, receiver, name, arguments, function_type, interface_target, interface_target_origin } => seq![89u8]
            + kind.wire()
            + flags.wire()
            + offset.wire()
            + expr_wire(*receiver)
            + name.wire()
            + arguments_wire(*arguments)
            + type_wire(*function_type)
            + interface_target.wire()
            + interface_target_origin.wire(),
        Expr::DynamicInvoke { kind, offset, receiver, name, arguments } => seq![124u8]
            + kind.wire()
            + offset.wire()
            + expr_wire(*receiver)
            + name.wire()
            + arguments_wire(*arguments),
        Expr::FunctionInvoke { kind, offset, receiver, arguments, function_type } => seq![125u8]
            + kind.wire()
            + offset.wire()
            + expr_wire(*receiver)
            + arguments_wire(*arguments)
            + type_wire(*function_type),
        Expr::FunctionTearOff { offset, receiver } => seq![126u8] + offset.wire() + expr_wire(*receiver),
        Expr::LocalFunctionInvoke { offset, var_decl_position, var_ref, arguments, function_type } => seq![127u8]
            + offset.wire()
            + var_decl_position.wire()
            + var_ref.wire()
            + arguments_wire(*arguments)
            + type_wire(*function_type),
        Expr::SuperMethodInvoke { offset, name, arguments, interface_target, interface_target_origin } => seq![29u8]
            + offset.wire()
            + name.wire()
            + arguments_wire(*arguments)
            + interface_target.wire()
            + interface_target_origin.wire(),
        Expr::StaticInvoke { offset, target, arguments } => seq![30u8]
            + offset.wire()
            + target.wire()
            + arguments_wire(*arguments),
        Expr::ConstStaticInvoke { offset, target, arguments } => seq![18u8]
            + offset.wire()
            + target.wire()
            + arguments_wire(*arguments),
        Expr::ConstructorInvoke { offset, constructor, arguments } => seq![31u8]
            + offset.wire()
            + constructor.wire()
            + arguments_wire(*arguments),
        Expr::ConstConstructorInvoke { offset, constructor, arguments } => seq![32u8]
            + offset.wire()
            + constructor.wire()
            + arguments_wire(*arguments),
        Expr::EqualsNull { offset, expr } => seq![15u8] + offset.wire() + expr_wire(*expr),
        Expr::Equals { offset, left, right, function_type, interface_target, interface_target_origin } => seq![16u8]
            + offset.wire()
            + expr_wire(*left)
            + expr_wire(*right)
            + type_wire(*function_type)
            + interface_target.wire()
            + interface_target_origin.wire(),
        Expr::Not { operand } => seq![33u8] + expr_wire(*operand),
        Expr::NullCheck { offset, operand } => seq![117u8] + offset.wire() + expr_wire(*operand),
        Expr::LogicalOp { left, operator, right } => seq![34u8]
            + expr_wire(*left)
            + operator.wire()
            + expr_wire(*right),
        Expr::Conditional { condition, then_value, otherwise, static_type } => seq![35u8]
            + expr_wire(*condition)
            + expr_wire(*then_value)
            + expr_wire(*otherwise)
            + (match static_type { Some(x) => seq![1u8] + type_wire(*x), None => seq![0u8] }),
        Expr::StringConcat { offset, expressions } => seq![36u8] + offset.wire() + uint_bytes(expressions@.len() as u32) + expr_items_wire(expressions@),
        Expr::ListConcat { offset, type_arg, expressions } => seq![111u8]
            + offset.wire()
            + type_wire(*type_arg)
            + uint_bytes(expressions@.len() as u32) + expr_items_wire(expressions@),
        Expr::SetConcat { offset, type_arg, expressions } => seq![112u8]
            + offset.wire()
            + type_wire(*type_arg)
            + uint_bytes(expressions@.len() as u32) + expr_items_wire(expressions@),
        Expr::MapConcat { offset, key_type, value_type, expressions } => seq![113u8]
            + offset.wire()
            + type_wire(*key_type)
            + type_wire(*value_type)
            + uint_bytes(expressions@.len() as u32) + expr_items_wire(expressions@),
        Expr::InstanceCreate(f0) => seq![114u8] + instance_create_wire(*f0),
        Expr::FileUriLit { file_uri, offset, expression } => seq![116u8]
            + file_uri.wire()
            + offset.wire()
            + expr_wire(*expression),
        Expr::IsInstanceOf { offset, flags, operand, typ } => seq![37u8]
            + offset.wire()
            + flags.wire()
            + expr_wire(*operand)
            + type_wire(*typ),
        Expr::AsInstanceOf { offset, flags, operand, typ } => seq![38u8]
            + offset.wire()
            + flags.wire()
            + expr_wire(*operand)
            + type_wire(*typ),
        Expr::StringLit(f0) => seq![39u8] + f0.wire(),
        Expr::PosIntLit(f0) => seq![55u8] + f0.wire(),
        Expr::NegIntLit(f0) => seq![56u8] + f0.wire(),
        Expr::BigIntLit(f0) => seq![57u8] + f0.wire(),
        Expr::DoubleLit(f0) => seq![40u8] + f0.wire(),
        Expr::TrueLit => seq![41u8],
        Expr::FalseLit => seq![42u8],
        Expr::NullLit => seq![43u8],
        Expr::SymbolLit(f0) => seq![44u8] + f0.wire(),
        Expr::TypeLit(f0) => seq![45u8] + type_wire(*f0),
        Expr::This => seq![46u8],
        Expr::Rethrow(f0) => seq![47u8] + f0.wire(),
        Expr::Throw(f0, f1) => seq![48u8] + f0.wire() + expr_wire(*f1),
        Expr::ListLit { offset, type_argument, values } => seq![49u8]
            + offset.wire()
            + type_wire(*type_argument)
            + uint_bytes(values@.len() as u32) + expr_items_wire(values@),
        Expr::SetLit { offset, type_argument, values } => seq![109u8]
            + offset.wire()
            + type_wire(*type_argument)
            + uint_bytes(values@.len() as u32) + expr_items_wire(values@),
        Expr::MapLit { offset, key_type, value_type, values } => seq![50u8]
            + offset.wire()
            + type_wire(*key_type)
            + type_wire(*value_type)
            + uint_bytes(values@.len() as u32) + labeled_expr_items_wire(values@),
        Expr::Await(f0) => seq![51u8] + expr_wire(*f0),
        Expr::Function(f0, f1) => seq![52u8] + f0.wire() + function_wire(*f1),
        Expr::Let(f0, f1, f2) => seq![53u8]
            + f0.wire()
            + var_decl_wire(*f1)
            + expr_wire(*f2),
        Expr::Block { body, value } => seq![82u8] + uint_bytes(body@.len() as u32) + stmt_items_wire(body@) + expr_wire(*value),
        Expr::Instantiation { expr, type_args } => seq![54u8] + expr_wire(*expr) + uint_bytes(type_args@.len() as u32) + type_items_wire(type_args@),
        Expr::LoadLibrary(f0) => seq![14u8] + f0.wire(),
        Expr::CheckLibraryIsLoaded(f0) => seq![13u8] + f0.wire(),
        Expr::Constant { offset, typ, constant } => seq![106u8]
            + offset.wire()
            + type_wire(*typ)
            + constant.wire(),
    }
}

/// The discriminator bytes that start a value of this sum.
pub open spec fn is_expr_tag(b: u8) -> bool {
    b == 19 || b == 20 || b == 21 || b == 24 || b == 25 || b == 118 || b == 119 || b == 121 || b == 122 || b == 123 || b == 26 || b == 27 || b == 17 || b == 60 || b == 84 || b == 83 || b == 120 || b == 89 || b == 124 || b == 125 || b == 126 || b == 127 || b == 29 || b == 30 || b == 18 || b == 31 || b == 32 || b == 15 || b == 16 || b == 33 || b == 117 || b == 34 || b == 35 || b == 36 || b == 111 || b == 112 || b == 113 || b == 114 || b == 116 || b == 37 || b == 38 || b == 39 || b == 55 || b == 56 || b == 57 || b == 40 || b == 41 || b == 42 || b == 43 || b == 44 || b == 45 || b == 46 || b == 47 || b == 48 || b == 49 || b == 109 || b == 50 || b == 51 || b == 52 || b == 53 || b == 82 || b == 54 || b == 14 || b == 13 || b == 106 || (128 <= b && b <= 151)
}

/// Appends the wire form of `v`; fails exactly when a count or integer in it reaches 2^30.
#[verifier::rlimit(100)]
pub fn encode_expr(v: &Expr, out: &mut Vec<u8>) -> (r: Result<(), KernelError>)
    ensures
        r is Ok <==> expr_encodable(*v),
        r is Ok ==> final(out)@ == old(out)@ + expr_wire(*v),
    decreases v, 1nat,
{
    match v {
        Expr::Invalid { .. } | Expr::VarGet { .. } | Expr::VarSet { .. } | Expr::SuperPropGet { .. } | Expr::SuperPropSet { .. } | Expr::InstanceGet { .. } | Expr::InstanceSet { .. } | Expr::InstanceTearOff { .. } | Expr::DynamicGet { .. } | Expr::DynamicSet { .. } | Expr::StaticGet { .. } | Expr::StaticSet { .. } => encode_expr_part0(v, out),
        Expr::StaticTearOff { .. } | Expr::ConstructorTearOff { .. } | Expr::RedirectingFactoryTearOff { .. } | Expr::TypedefTearOff { .. } | Expr::InstanceInvoke { .. } | Expr::InstanceGetterInvoke { .. } | Expr::DynamicInvoke { .. } | Expr::FunctionInvoke { .. } | Expr::FunctionTearOff { .. } | Expr::LocalFunctionInvoke { .. } | Expr::SuperMethodInvoke { .. } | Expr::StaticInvoke { .. } => encode_expr_part1(v, out),
        Expr::ConstStaticInvoke { .. } | Expr::ConstructorInvoke { .. } | Expr::ConstConstructorInvoke { .. } | Expr::EqualsNull { .. } | Expr::Equals { .. } | Expr::Not { .. } | Expr::NullCheck { .. } | Expr::LogicalOp { .. } | Expr::Conditional { .. } | Expr::StringConcat { .. } | Expr::ListConcat { .. } | Expr::SetConcat { .. } => encode_expr_part2(v, out),
        Expr::MapConcat { .. } | Expr::InstanceCreate(..) | Expr::FileUriLit { .. } | Expr::IsInstanceOf { .. } | Expr::AsInstanceOf { .. } | Expr::StringLit(..) | Expr::PosIntLit(..) | Expr::NegIntLit(..) | Expr::BigIntLit(..) | Expr::DoubleLit(..) | Expr::TrueLit | Expr::FalseLit => encode_expr_part3(v, out),
        Expr::NullLit | Expr::SymbolLit(..) | Expr::TypeLit(..) | Expr::This | Expr::Rethrow(..) | Expr::Throw(..) | Expr::ListLit { .. } | Expr::SetLit { .. } | Expr::MapLit { .. } | Expr::Await(..) | Expr::Function(..) | Expr::Let(..) => encode_expr_part4(v, out),
        Expr::Block { .. } | Expr::Instantiation { .. } | Expr::LoadLibrary(..) | Expr::CheckLibraryIsLoaded(..) | Expr::Constant { .. } => encode_expr_part5(v, out),
    }
}

/// Appends the wire form of `v`, which is one of the variants its precondition names.
#[verifier::rlimit(100)]
fn encode_expr_part0(v: &Expr, out: &mut Vec<u8>) -> (r: Result<(), KernelError>)
    requires
        v is Invalid || v is VarGet || v is VarSet || v is SuperPropGet || v is SuperPropSet || v is InstanceGet || v is InstanceSet || v is InstanceTearOff || v is DynamicGet || v is DynamicSet || v is StaticGet || v is StaticSet,
    ensures
        r is Ok <==> expr_encodable(*v),
        r is Ok ==> final(out)@ == old(out)@ + expr_wire(*v),
    decreases v, 0nat,
{
    match v {
        Expr::Invalid { offset, message, expression } => {
            out.push(19u8);
            let ghost acc0 = seq![19u8];
            offset.encode(out)?;
            proof {
                lemma_concat_associative(old(out)@, acc0, (*offset).wire());
            }
            let ghost acc1 = acc0 + (*offset).wire();
            message.encode(out)?;
            proof {
                lemma_concat_associative(old(out)@, acc1, (*message).wire());
            }
            let ghost acc2 = acc1 + (*message).wire();
            match expression {
                Some(x) => {
                    out.push(1u8);
                    encode_expr(x, out)?;
                },
                None => {
                    out.push(0u8);
                },
            }
            proof {
                lemma_concat_associative(old(out)@, acc2, (match &(*expression) { Some(x) => seq![1u8] + expr_wire(**x), None => seq![0u8] }));
            }
            let ghost acc3 = acc2 + (match &(*expression) { Some(x) => seq![1u8] + expr_wire(**x), None => seq![0u8] });
            assert(final(out)@ == old(out)@ + expr_wire(*v));
        },
        Expr::VarGet { offset, var_decl_position, var, promoted_type } => {
            out.push(20u8);
            let ghost acc0 = seq![20u8];
            offset.encode(out)?;
            proof {
                lemma_concat_associative(old(out)@, acc0, (*offset).wire());
            }
            let ghost acc1 = acc0 + (*offset).wire();
            var_decl_position.encode(out)?;
            proof {
                lemma_concat_associative(old(out)@, acc1, (*var_decl_position).wire());
            }
            let ghost acc2 = acc1 + (*var_decl_position).wire();
            var.encode(out)?;
            proof {
                lemma_concat_associative(old(out)@, acc2, (*var).wire());
            }
            let ghost acc3 = acc2 + (*var).wire();
            match promoted_type {
                Some(x) => {
                    out.push(1u8);
                    encode_type(x, out)?;
                },
                None => {
                    out.push(0u8);
                },
            }
            proof {
                lemma_concat_associative(old(out)@, acc3, (match &(*promoted_type) { Some(x) => seq![1u8] + type_wire(**x), None => seq![0u8] }));
            }
            let ghost acc4 = acc3 + (match &(*promoted_type) { Some(x) => seq![1u8] + type_wire(**x), None => seq![0u8] });
            assert(final(out)@ == old(out)@ + expr_wire(*v));
        },
        Expr::VarSet { offset, var_decl_position, var, value } => {
            out.push(21u8);
            let ghost acc0 = seq![21u8];
            offset.encode(out)?;
            proof {
                lemma_concat_associative(old(out)@, acc0, (*offset).wire());
            }
            let ghost acc1 = acc0 + (*offset).wire();
            var_decl_position.encode(out)?;
            proof {
                lemma_concat_associative(old(out)@, acc1, (*var_decl_position).wire());
            }
            let ghost acc2 = acc1 + (*var_decl_position).wire();
            var.encode(out)?;
            proof {
                lemma_concat_associative(old(out)@, acc2, (*var).wire());
            }
            let ghost acc3 = acc2 + (*var).wire();
            encode_expr(value, out)?;
            proof {
                lemma_concat_associative(old(out)@, acc3, expr_wire(*(*value)));
            }
            let ghost acc4 = acc3 + expr_wire(*(*value));
            assert(final(out)@ == old(out)@ + expr_wire(*v));
        },
        Expr::SuperPropGet { offset, name, interface_target, interface_target_origin } => {
            out.push(24u8);
            let ghost acc0 = seq![24u8];
            offset.encode(out)?;
            proof {
                lemma_concat_associative(old(out)@, acc0, (*offset).wire());
            }
            let ghost acc1 = acc0 + (*offset).wire();
            name.encode(out)?;
            proof {
                lemma_concat_associative(old(out)@, acc1, (*name).wire());
            }
            let ghost acc2 = acc1 + (*name).wire();
            interface_target.encode(out)?;
            proof {
                lemma_concat_associative(old(out)@, acc2, (*interface_target).wire());
            }
            let ghost acc3 = acc2 + (*interface_target).wire();
            interface_target_origin.encode(out)?;
            proof {
                lemma_concat_associative(old(out)@, acc3, (*interface_target_origin).wire());
            }
            let ghost acc4 = acc3 + (*interface_target_origin).wire();
            assert(final(out)@ == old(out)@ + expr_wire(*v));
        },
        Expr::SuperPropSet { offset, name, value, interface_target, interface_target_origin } => {
            out.push(25u8);
            let ghost acc0 = seq![25u8];
            offset.encode(out)?;
            proof {
                lemma_concat_associative(old(out)@, acc0, (*offset).wire());
            }
            let ghost acc1 = acc0 + (*offset).wire();
            name.encode(out)?;
            proof {
                lemma_concat_associative(old(out)@, acc1, (*name).wire());
            }
            let ghost acc2 = acc1 + (*name).wire();
            encode_expr(value, out)?;
            proof {
                lemma_concat_associative(old(out)@, acc2, expr_wire(*(*value)));
            }
            let ghost acc3 = acc2 + expr_wire(*(*value));
            interface_target.encode(out)?;
            proof {
                lemma_concat_associative(old(out)@, acc3, (*interface_target).wire());
            }
            let ghost acc4 = acc3 + (*interface_target).wire();
            interface_target_origin.encode(out)?;
            proof {
                lemma_concat_associative(old(out)@, acc4, (*interface_target_origin).wire());
            }
            let ghost acc5 = acc4 + (*interface_target_origin).wire();
            assert(final(out)@ == old(out)@ + expr_wire(*v));
        },
        Expr::InstanceGet { kind, offset, receiver, name, typ, interface_target, interface_target_origin } => {
            out.push(118u8);
            let ghost acc0 = seq![118u8];
            kind.encode(out)?;
            proof {
                lemma_concat_associative(old(out)@, acc0, (*kind).wire());
            }
            let ghost acc1 = acc0 + (*kind).wire();
            offset.encode(out)?;
            proof {
                lemma_concat_associative(old(out)@, acc1, (*offset).wire());
            }
            let ghost acc2 = acc1 + (*offset).wire();
            encode_expr(receiver, out)?;
            proof {
                lemma_concat_associative(old(out)@, acc2, expr_wire(*(*receiver)));
            }
            let ghost acc3 = acc2 + expr_wire(*(*receiver));
            name.encode(out)?;
            proof {
                lemma_concat_associative(old(out)@, acc3, (*name).wire());
            }
            let ghost acc4 = acc3 + (*name).wire();
            encode_type(typ, out)?;
            proof {
                lemma_concat_associative(old(out)@, acc4, type_wire(*(*typ)));
            }
            let ghost acc5 = acc4 + type_wire(*(*typ));
            interface_target.encode(out)?;
            proof {
                lemma_concat_associative(old(out)@, acc5, (*interface_target).wire());
            }
            let ghost acc6 = acc5 + (*interface_target).wire();
            interface_target_origin.encode(out)?;
            proof {
                lemma_concat_associative(old(out)@, acc6, (*interface_target_origin).wire());
            }
            let ghost acc7 = acc6 + (*interface_target_origin).wire();
            assert(final(out)@ == old(out)@ + expr_wire(*v));
        },
        Expr::InstanceSet { kind, offset, receiver, name, value, interface_target, interface_target_origin } => {
            out.push(119u8);
            let ghost acc0 = seq![119u8];
            kind.encode(out)?;
            proof {
                lemma_concat_associative(old(out)@, acc0, (*kind).wire());
            }
            let ghost acc1 = acc0 + (*kind).wire();
            offset.encode(out)?;
            proof {
                lemma_concat_associative(old(out)@, acc1, (*offset).wire());
            }
            let ghost acc2 = acc1 + (*offset).wire();
            encode_expr(receiver, out)?;
            proof {
                lemma_concat_associative(old(out)@, acc2, expr_wire(*(*receiver)));
            }
            let ghost acc3 = acc2 + expr_wire(*(*receiver));
            name.encode(out)?;
            proof {
                lemma_concat_associative(old(out)@, acc3, (*name).wire());
            }
            let ghost acc4 = acc3 + (*name).wire();
            encode_expr(value, out)?;
            proof {
                lemma_concat_associative(old(out)@, acc4, expr_wire(*(*value)));
            }
            let ghost acc5 = acc4 + expr_wire(*(*value));
            interface_target.encode(out)?;
            proof {
                lemma_concat_associative(old(out)@, acc5, (*interface_target).wire());
            }
            let ghost acc6 = acc5 + (*interface_target).wire();
            interface_target_origin.encode(out)?;
            proof {
                lemma_concat_associative(old(out)@, acc6, (*interface_target_origin).wire());
            }
            let ghost acc7 = acc6 + (*interface_target_origin).wire();
            assert(final(out)@ == old(out)@ + expr_wire(*v));
        },
        Expr::InstanceTearOff { kind, offset, receiver, name, typ, interface_target, interface_target_origin } => {
            out.push(121u8);
            let ghost acc0 = seq![121u8];
            kind.encode(out)?;
            proof {
                lemma_concat_associative(old(out)@, acc0, (*kind).wire());
            }
            let ghost acc1 = acc0 + (*kind).wire();
            offset.encode(out)?;
            proof {
                lemma_concat_associative(old(out)@, acc1, (*offset).wire());
            }
            let ghost acc2 = acc1 + (*offset).wire();
            encode_expr(receiver, out)?;
            proof {
                lemma_concat_associative(old(out)@, acc2, expr_wire(*(*receiver)));
            }
            let ghost acc3 = acc2 + expr_wire(*(*receiver));
            name.encode(out)?;
            proof {
                lemma_concat_associative(old(out)@, acc3, (*name).wire());
            }
            let ghost acc4 = acc3 + (*name).wire();
            encode_type(typ, out)?;
            proof {
                lemma_concat_associative(old(out)@, acc4, type_wire(*(*typ)));
            }
            let ghost acc5 = acc4 + type_wire(*(*typ));
            interface_target.encode(out)?;
            proof {
                lemma_concat_associative(old(out)@, acc5, (*interface_target).wire());
            }
            let ghost acc6 = acc5 + (*interface_target).wire();
            interface_target_origin.encode(out)?;
            proof {
                lemma_concat_associative(old(out)@, acc6, (*interface_target_origin).wire());
            }
            let ghost acc7 = acc6 + (*interface_target_origin).wire();
            assert(final(out)@ == old(out)@ + expr_wire(*v));
        },
        Expr::DynamicGet { kind, offset, receiver, name } => {
            out.push(122u8);
            let ghost acc0 = seq![122u8];
            kind.encode(out)?;
            proof {
                lemma_concat_associative(old(out)@, acc0, (*kind).wire());
            }
            let ghost acc1 = acc0 + (*kind).wire();
            offset.encode(out)?;
            proof {
                lemma_concat_associative(old(out)@, acc1, (*offset).wire());
            }
            let ghost acc2 = acc1 + (*offset).wire();
            encode_expr(receiver, out)?;
            proof {
                lemma_concat_associative(old(out)@, acc2, expr_wire(*(*receiver)));
            }
            let ghost acc3 = acc2 + expr_wire(*(*receiver));
            name.encode(out)?;
            proof {
                lemma_concat_associative(old(out)@, acc3, (*name).wire());
            }
            let ghost acc4 = acc3 + (*name).wire();
            assert(final(out)@ == old(out)@ + expr_wire(*v));
        },
        Expr::DynamicSet { kind, offset, receiver, name, value } => {
            out.push(123u8);
            let ghost acc0 = seq![123u8];
            kind.encode(out)?;
            proof {
                lemma_concat_associative(old(out)@, acc0, (*kind).wire());
            }
            let ghost acc1 = acc0 + (*kind).wire();
            offset.encode(out)?;
            proof {
                lemma_concat_associative(old(out)@, acc1, (*offset).wire());
            }
            let ghost acc2 = acc1 + (*offset).wire();
            encode_expr(receiver, out)?;
            proof {
                lemma_concat_associative(old(out)@, acc2, expr_wire(*(*receiver)));
            }
            let ghost acc3 = acc2 + expr_wire(*(*receiver));
            name.encode(out)?;
            proof {
                lemma_concat_associative(old(out)@, acc3, (*name).wire());
            }
            let ghost acc4 = acc3 + (*name).wire();
            encode_expr(value, out)?;
            proof {
                lemma_concat_associative(old(out)@, acc4, expr_wire(*(*value)));
            }
            let ghost acc5 = acc4 + expr_wire(*(*value));
            assert(final(out)@ == old(out)@ + expr_wire(*v));
        },
        Expr::StaticGet { offset, target } => {
            out.push(26u8);
            let ghost acc0 = seq![26u8];
            offset.encode(out)?;
            proof {
                lemma_concat_associative(old(out)@, acc0, (*offset).wire());
            }
            let ghost acc1 = acc0 + (*offset).wire();
            target.encode(out)?;
            proof {
                lemma_concat_associative(old(out)@, acc1, (*target).wire());
            }
            let ghost acc2 = acc1 + (*target).wire();
            assert(final(out)@ == old(out)@ + expr_wire(*v));
        },
        Expr::StaticSet { offset, target, value } => {
            out.push(27u8);
            let ghost acc0 = seq![27u8];
            offset.encode(out)?;
            proof {
                lemma_concat_associative(old(out)@, acc0, (*offset).wire());
            }
            let ghost acc1 = acc0 + (*offset).wire();
            target.encode(out)?;
            proof {
                lemma_concat_associative(old(out)@, acc1, (*target).wire());
            }
            let ghost acc2 = acc1 + (*target).wire();
            encode_expr(value, out)?;
            proof {
                lemma_concat_associative(old(out)@, acc2, expr_wire(*(*value)));
            }
            let ghost acc3 = acc2 + expr_wire(*(*value));
            assert(final(out)@ == old(out)@ + expr_wire(*v));
        },
        _ => {
            assert(false);
        },
    }
    Ok(())
}

/// Appends the wire form of `v`, which is one of the variants its precondition names.
#[verifier::rlimit(100)]
fn encode_expr_part1(v: &Expr, out: &mut Vec<u8>) -> (r: Result<(), KernelError>)
    requires
        v is StaticTearOff || v is ConstructorTearOff || v is RedirectingFactoryTearOff || v is TypedefTearOff || v is InstanceInvoke || v is InstanceGetterInvoke || v is DynamicInvoke || v is FunctionInvoke || v is FunctionTearOff || v is LocalFunctionInvoke || v is SuperMethodInvoke || v is StaticInvoke,
    ensures
        r is Ok <==> expr_encodable(*v),
        r is Ok ==> final(out)@ == old(out)@ + expr_wire(*v),
    decreases v, 0nat,
{
    match v {
        Expr::StaticTearOff { offset, target } => {
            out.push(17u8);
            let ghost acc0 = seq![17u8];
            offset.encode(out)?;
            proof {
                lemma_concat_associative(old(out)@, acc0, (*offset).wire());
            }
            let ghost acc1 = acc0 + (*offset).wire();
            target.encode(out)?;
            proof {
                lemma_concat_associative(old(out)@, acc1, (*target).wire());
            }
            let ghost acc2 = acc1 + (*target).wire();
            assert(final(out)@ == old(out)@ + expr_wire(*v));
        },
        Expr::ConstructorTearOff { offset, target } => {
            out.push(60u8);
            let ghost acc0 = seq![60u8];
            offset.encode(out)?;
            proof {
                lemma_concat_associative(old(out)@, acc0, (*offset).wire());
            }
            let ghost acc1 = acc0 + (*offset).wire();
            target.encode(out)?;
            proof {
                lemma_concat_associative(old(out)@, acc1, (*target).wire());
            }
            let ghost acc2 = acc1 + (*target).wire();
            assert(final(out)@ == old(out)@ + expr_wire(*v));
        },
        Expr::RedirectingFactoryTearOff { offset, target } => {
            out.push(84u8);
            let ghost acc0 = seq![84u8];
            offset.encode(out)?;
            proof {
                lemma_concat_associative(old(out)@, acc0, (*offset).wire());
            }
            let ghost acc1 = acc0 + (*offset).wire();
            target.encode(out)?;
            proof {
                lemma_concat_associative(old(out)@, acc1, (*target).wire());
            }
            let ghost acc2 = acc1 + (*target).wire();
            assert(final(out)@ == old(out)@ + expr_wire(*v));
        },
        Expr::TypedefTearOff { type_params, expr, type_args } => {
            out.push(83u8);
            let ghost acc0 = seq![83u8];
            encode_type_parameter_list(type_params, out)?;
            proof {
                lemma_concat_associative(old(out)@, acc0, uint_bytes((*type_params)@.len() as u32));
            }
            let ghost acc1 = acc0 + uint_bytes((*type_params)@.len() as u32);
            proof {
                lemma_concat_associative(old(out)@, acc1, type_parameter_items_wire((*type_params)@));
            }
            let ghost acc2 = acc1 + type_parameter_items_wire((*type_params)@);
            encode_expr(expr, out)?;
            proof {
                lemma_concat_associative(old(out)@, acc2, expr_wire(*(*expr)));
            }
            let ghost acc3 = acc2 + expr_wire(*(*expr));
            encode_type_list(type_args, out)?;
            proof {
                lemma_concat_associative(old(out)@, acc3, uint_bytes((*type_args)@.len() as u32));
            }
            let ghost acc4 = acc3 + uint_bytes((*type_args)@.len() as u32);
            proof {
                lemma_concat_associative(old(out)@, acc4, type_items_wire((*type_args)@));
            }
            let ghost acc5 = acc4 + type_items_wire((*type_args)@);
            assert(final(out)@ == old(out)@ + expr_wire(*v));
        },
        Expr::InstanceInvoke { kind, flags, offset, receiver, name, arguments, function_type, interface_target, interface_target_origin } => {
            out.push(120u8);
            let ghost acc0 = seq![120u8];
            kind.encode(out)?;
            proof {
                lemma_concat_associative(old(out)@, acc0, (*kind).wire());
            }
            let ghost acc1 = acc0 + (*kind).wire();
            flags.encode(out)?;
            proof {
                lemma_concat_associative(old(out)@, acc1, (*flags).wire());
            }
            let ghost acc2 = acc1 + (*flags).wire();
            offset.encode(out)?;
            proof {
                lemma_concat_associative(old(out)@, acc2, (*offset).wire());
            }
            let ghost acc3 = acc2 + (*offset).wire();
            encode_expr(receiver, out)?;
            proof {
                lemma_concat_associative(old(out)@, acc3, expr_wire(*(*receiver)));
            }
            let ghost acc4 = acc3 + expr_wire(*(*receiver));
            name.encode(out)?;
            proof {
                lemma_concat_associative(old(out)@, acc4, (*name).wire());
            }
            let ghost acc5 = acc4 + (*name).wire();
            encode_arguments(arguments, out)?;
            proof {
                lemma_concat_associative(old(out)@, acc5, arguments_wire(*(*arguments)));
            }
            let ghost acc6 = acc5 + arguments_wire(*(*arguments));
            encode_type(function_type, out)?;
            proof {
                lemma_concat_associative(old(out)@, acc6, type_wire(*(*function_type)));
            }
            let ghost acc7 = acc6 + type_wire(*(*function_type));
            interface_target.encode(out)?;
            proof {
                lemma_concat_associative(old(out)@, acc7, (*interface_target).wire());
            }
            let ghost acc8 = acc7 + (*interface_target).wire();
            interface_target_origin.encode(out)?;
            proof {
                lemma_concat_associative(old(out)@, acc8, (*interface_target_origin).wire());
            }
            let ghost acc9 = acc8 + (*interface_target_origin).wire();
            assert(final(out)@ == old(out)@ + expr_wire(*v));
        },
        Expr::InstanceGetterInvoke { kind, flags, offset, receiver, name, arguments, function_type, interface_target, interface_target_origin } => {
            out.push(89u8);
            let ghost acc0 = seq![89u8];
            kind.encode(out)?;
            proof {
                lemma_concat_associative(old(out)@, acc0, (*kind).wire());
            }
            let ghost acc1 = acc0 + (*kind).wire();
            flags.encode(out)?;
            proof {
                lemma_concat_associative(old(out)@, acc1, (*flags).wire());
            }
            let ghost acc2 = acc1 + (*flags).wire();
            offset.encode(out)?;
            proof {
                lemma_concat_associative(old(out)@, acc2, (*offset).wire());
            }
            let ghost acc3 = acc2 + (*offset).wire();
            encode_expr(receiver, out)?;
            proof {
                lemma_concat_associative(old(out)@, acc3, expr_wire(*(*receiver)));
            }
            let ghost acc4 = acc3 + expr_wire(*(*receiver));
            name.encode(out)?;
            proof {
                lemma_concat_associative(old(out)@, acc4, (*name).wire());
            }
            let ghost acc5 = acc4 + (*name).wire();
            encode_arguments(arguments, out)?;
            proof {
                lemma_concat_associative(old(out)@, acc5, arguments_wire(*(*arguments)));
            }
            let ghost acc6 = acc5 + arguments_wire(*(*arguments));
            encode_type(function_type, out)?;
            proof {
                lemma_concat_associative(old(out)@, acc6, type_wire(*(*function_type)));
            }
            let ghost acc7 = acc6 + type_wire(*(*function_type));
            interface_target.encode(out)?;
            proof {
                lemma_concat_associative(old(out)@, acc7, (*interface_target).wire());
            }
            let ghost acc8 = acc7 + (*interface_target).wire();
            interface_target_origin.encode(out)?;
            proof {
                lemma_concat_associative(old(out)@, acc8, (*interface_target_origin).wire());
            }
            let ghost acc9 = acc8 + (*interface_target_origin).wire();
            assert(final(out)@ == old(out)@ + expr_wire(*v));
        },
        Expr::DynamicInvoke { kind, offset, receiver, name, arguments } => {
            out.push(124u8);
            let ghost acc0 = seq![124u8];
            kind.encode(out)?;
            proof {
                lemma_concat_associative(old(out)@, acc0, (*kind).wire());
            }
            let ghost acc1 = acc0 + (*kind).wire();
            offset.encode(out)?;
            proof {
                lemma_concat_associative(old(out)@, acc1, (*offset).wire());
            }
            let ghost acc2 = acc1 + (*offset).wire();
            encode_expr(receiver, out)?;
            proof {
                lemma_concat_associative(old(out)@, acc2, expr_wire(*(*receiver)));
            }
            let ghost acc3 = acc2 + expr_wire(*(*receiver));
            name.encode(out)?;
            proof {
                lemma_concat_associative(old(out)@, acc3, (*name).wire());
            }
            let ghost acc4 = acc3 + (*name).wire();
            encode_arguments(arguments, out)?;
            proof {
                lemma_concat_associative(old(out)@, acc4, arguments_wire(*(*arguments)));
            }
            let ghost acc5 = acc4 + arguments_wire(*(*arguments));
            assert(final(out)@ == old(out)@ + expr_wire(*v));
        },
        Expr::FunctionInvoke { kind, offset, receiver, arguments, function_type } => {
            out.push(125u8);
            let ghost acc0 = seq![125u8];
            kind.encode(out)?;
            proof {
                lemma_concat_associative(old(out)@, acc0, (*kind).wire());
            }
            let ghost acc1 = acc0 + (*kind).wire();
            offset.encode(out)?;
            proof {
                lemma_concat_associative(old(out)@, acc1, (*offset).wire());
            }
            let ghost acc2 = acc1 + (*offset).wire();
            encode_expr(receiver, out)?;
            proof {
                lemma_concat_associative(old(out)@, acc2, expr_wire(*(*receiver)));
            }
            let ghost acc3 = acc2 + expr_wire(*(*receiver));
            encode_arguments(arguments, out)?;
            proof {
                lemma_concat_associative(old(out)@, acc3, arguments_wire(*(*arguments)));
            }
            let ghost acc4 = acc3 + arguments_wire(*(*arguments));
            encode_type(function_type, out)?;
            proof {
                lemma_concat_associative(old(out)@, acc4, type_wire(*(*function_type)));
            }
            let ghost acc5 = acc4 + type_wire(*(*function_type));
            assert(final(out)@ == old(out)@ + expr_wire(*v));
        },
        Expr::FunctionTearOff { offset, receiver } => {
            out.push(126u8);
            let ghost acc0 = seq![126u8];
            offset.encode(out)?;
            proof {
                lemma_concat_associative(old(out)@, acc0, (*offset).wire());
            }
            let ghost acc1 = acc0 + (*offset).wire();
            encode_expr(receiver, out)?;
            proof {
                lemma_concat_associative(old(out)@, acc1, expr_wire(*(*receiver)));
            }
            let ghost acc2 = acc1 + expr_wire(*(*receiver));
            assert(final(out)@ == old(out)@ + expr_wire(*v));
        },
        Expr::LocalFunctionInvoke { offset, var_decl_position, var_ref, arguments, function_type } => {
            out.push(127u8);
            let ghost acc0 = seq![127u8];
            offset.encode(out)?;
            proof {
                lemma_concat_associative(old(out)@, acc0, (*offset).wire());
            }
            let ghost acc1 = acc0 + (*offset).wire();
            var_decl_position.encode(out)?;
            proof {
                lemma_concat_associative(old(out)@, acc1, (*var_decl_position).wire());
            }
            let ghost acc2 = acc1 + (*var_decl_position).wire();
            var_ref.encode(out)?;
            proof {
                lemma_concat_associative(old(out)@, acc2, (*var_ref).wire());
            }
            let ghost acc3 = acc2 + (*var_ref).wire();
            encode_arguments(arguments, out)?;
            proof {
                lemma_concat_associative(old(out)@, acc3, arguments_wire(*(*arguments)));
            }
            let ghost acc4 = acc3 + arguments_wire(*(*arguments));
            encode_type(function_type, out)?;
            proof {
                lemma_concat_associative(old(out)@, acc4, type_wire(*(*function_type)));
            }
            let ghost acc5 = acc4 + type_wire(*(*function_type));
            assert(final(out)@ == old(out)@ + expr_wire(*v));
        },
        Expr::SuperMethodInvoke { offset, name, arguments, interface_target, interface_target_origin } => {
            out.push(29u8);
            let ghost acc0 = seq![29u8];
            offset.encode(out)?;
            proof {
                lemma_concat_associative(old(out)@, acc0, (*offset).wire());
            }
            let ghost acc1 = acc0 + (*offset).wire();
            name.encode(out)?;
            proof {
                lemma_concat_associative(old(out)@, acc1, (*name).wire());
            }
            let ghost acc2 = acc1 + (*name).wire();
            encode_arguments(arguments, out)?;
            proof {
                lemma_concat_associative(old(out)@, acc2, arguments_wire(*(*arguments)));
            }
            let ghost acc3 = acc2 + arguments_wire(*(*arguments));
            interface_target.encode(out)?;
            proof {
                lemma_concat_associative(old(out)@, acc3, (*interface_target).wire());
            }
            let ghost acc4 = acc3 + (*interface_target).wire();
            interface_target_origin.encode(out)?;
            proof {
                lemma_concat_associative(old(out)@, acc4, (*interface_target_origin).wire());
            }
            let ghost acc5 = acc4 + (*interface_target_origin).wire();
            assert(final(out)@ == old(out)@ + expr_wire(*v));
        },
        Expr::StaticInvoke { offset, target, arguments } => {
            out.push(30u8);
            let ghost acc0 = seq![30u8];
            offset.encode(out)?;
            proof {
                lemma_concat_associative(old(out)@, acc0, (*offset).wire());
            }
            let ghost acc1 = acc0 + (*offset).wire();
            target.encode(out)?;
            proof {
                lemma_concat_associative(old(out)@, acc1, (*target).wire());
            }
            let ghost acc2 = acc1 + (*target).wire();
            encode_arguments(arguments, out)?;
            proof {
                lemma_concat_associative(old(out)@, acc2, arguments_wire(*(*arguments)));
            }
            let ghost acc3 = acc2 + arguments_wire(*(*arguments));
            assert(final(out)@ == old(out)@ + expr_wire(*v));
        },
        _ => {
            assert(false);
        },
    }
    Ok(())
}

/// Appends the wire form of `v`, which is one of the variants its precondition names.
#[verifier::rlimit(100)]
fn encode_expr_part2(v: &Expr, out: &mut Vec<u8>) -> (r: Result<(), KernelError>)
    requires
        v is ConstStaticInvoke || v is ConstructorInvoke || v is ConstConstructorInvoke || v is EqualsNull || v is Equals || v is Not || v is NullCheck || v is LogicalOp || v is Conditional || v is StringConcat || v is ListConcat || v is SetConcat,
    ensures
        r is Ok <==> expr_encodable(*v),
        r is Ok ==> final(out)@ == old(out)@ + expr_wire(*v),
    decreases v, 0nat,
{
    match v {
        Expr::ConstStaticInvoke { offset, target, arguments } => {
            out.push(18u8);
            let ghost acc0 = seq![18u8];
            offset.encode(out)?;
            proof {
                lemma_concat_associative(old(out)@, acc0, (*offset).wire());
            }
            let ghost acc1 = acc0 + (*offset).wire();
            target.encode(out)?;
            proof {
                lemma_concat_associative(old(out)@, acc1, (*target).wire());
            }
            let ghost acc2 = acc1 + (*target).wire();
            encode_arguments(arguments, out)?;
            proof {
                lemma_concat_associative(old(out)@, acc2, arguments_wire(*(*arguments)));
            }
            let ghost acc3 = acc2 + arguments_wire(*(*arguments));
            assert(final(out)@ == old(out)@ + expr_wire(*v));
        },
        Expr::ConstructorInvoke { offset, constructor, arguments } => {
            out.push(31u8);
            let ghost acc0 = seq![31u8];
            offset.encode(out)?;
            proof {
                lemma_concat_associative(old(out)@, acc0, (*offset).wire());
            }
            let ghost acc1 = acc0 + (*offset).wire();
            constructor.encode(out)?;
            proof {
                lemma_concat_associative(old(out)@, acc1, (*constructor).wire());
            }
            let ghost acc2 = acc1 + (*constructor).wire();
            encode_arguments(arguments, out)?;
            proof {
                lemma_concat_associative(old(out)@, acc2, arguments_wire(*(*arguments)));
            }
            let ghost acc3 = acc2 + arguments_wire(*(*arguments));
            assert(final(out)@ == old(out)@ + expr_wire(*v));
        },
        Expr::ConstConstructorInvoke { offset, constructor, arguments } => {
            out.push(32u8);
            let ghost acc0 = seq![32u8];
            offset.encode(out)?;
            proof {
                lemma_concat_associative(old(out)@, acc0, (*offset).wire());
            }
            let ghost acc1 = acc0 + (*offset).wire();
            constructor.encode(out)?;
            proof {
                lemma_concat_associative(old(out)@, acc1, (*constructor).wire());
            }
            let ghost acc2 = acc1 + (*constructor).wire();
            encode_arguments(arguments, out)?;
            proof {
                lemma_concat_associative(old(out)@, acc2, arguments_wire(*(*arguments)));
            }
            let ghost acc3 = acc2 + arguments_wire(*(*arguments));
            assert(final(out)@ == old(out)@ + expr_wire(*v));
        },
        Expr::EqualsNull { offset, expr } => {
            out.push(15u8);
            let ghost acc0 = seq![15u8];
            offset.encode(out)?;
            proof {
                lemma_concat_associative(old(out)@, acc0, (*offset).wire());
            }
            let ghost acc1 = acc0 + (*offset).wire();
            encode_expr(expr, out)?;
            proof {
                lemma_concat_associative(old(out)@, acc1, expr_wire(*(*expr)));
            }
            let ghost acc2 = acc1 + expr_wire(*(*expr));
            assert(final(out)@ == old(out)@ + expr_wire(*v));
        },
        Expr::Equals { offset, left, right, function_type, interface_target, interface_target_origin } => {
            out.push(16u8);
            let ghost acc0 = seq![16u8];
            offset.encode(out)?;
            proof {
                lemma_concat_associative(old(out)@, acc0, (*offset).wire());
            }
            let ghost acc1 = acc0 + (*offset).wire();
            encode_expr(left, out)?;
            proof {
                lemma_concat_associative(old(out)@, acc1, expr_wire(*(*left)));
            }
            let ghost acc2 = acc1 + expr_wire(*(*left));
            encode_expr(right, out)?;
            proof {
                lemma_concat_associative(old(out)@, acc2, expr_wire(*(*right)));
            }
            let ghost acc3 = acc2 + expr_wire(*(*right));
            encode_type(function_type, out)?;
            proof {
                lemma_concat_associative(old(out)@, acc3, type_wire(*(*function_type)));
            }
            let ghost acc4 = acc3 + type_wire(*(*function_type));
            interface_target.encode(out)?;
            proof {
                lemma_concat_associative(old(out)@, acc4, (*interface_target).wire());
            }
            let ghost acc5 = acc4 + (*interface_target).wire();
            interface_target_origin.encode(out)?;
            proof {
                lemma_concat_associative(old(out)@, acc5, (*interface_target_origin).wire());
            }
            let ghost acc6 = acc5 + (*interface_target_origin).wire();
            assert(final(out)@ == old(out)@ + expr_wire(*v));
        },
        Expr::Not { operand } => {
            out.push(33u8);
            let ghost acc0 = seq![33u8];
            encode_expr(operand, out)?;
            proof {
                lemma_concat_associative(old(out)@, acc0, expr_wire(*(*operand)));
            }
            let ghost acc1 = acc0 + expr_wire(*(*operand));
            assert(final(out)@ == old(out)@ + expr_wire(*v));
        },
        Expr::NullCheck { offset, operand } => {
            out.push(117u8);
            let ghost acc0 = seq![117u8];
            offset.encode(out)?;
            proof {
                lemma_concat_associative(old(out)@, acc0, (*offset).wire());
            }
            let ghost acc1 = acc0 + (*offset).wire();
            encode_expr(operand, out)?;
            proof {
                lemma_concat_associative(old(out)@, acc1, expr_wire(*(*operand)));
            }
            let ghost acc2 = acc1 + expr_wire(*(*operand));
            assert(final(out)@ == old(out)@ + expr_wire(*v));
        },
        Expr::LogicalOp { left, operator, right } => {
            out.push(34u8);
            let ghost acc0 = seq![34u8];
            encode_expr(left, out)?;
            proof {
                lemma_concat_associative(old(out)@, acc0, expr_wire(*(*left)));
            }
            let ghost acc1 = acc0 + expr_wire(*(*left));
            operator.encode(out)?;
            proof {
                lemma_concat_associative(old(out)@, acc1, (*operator).wire());
            }
            let ghost acc2 = acc1 + (*operator).wire();
            encode_expr(right, out)?;
            proof {
                lemma_concat_associative(old(out)@, acc2, expr_wire(*(*right)));
            }
            let ghost acc3 = acc2 + expr_wire(*(*right));
            assert(final(out)@ == old(out)@ + expr_wire(*v));
        },
        Expr::Conditional { condition, then_value, otherwise, static_type } => {
            out.push(35u8);
            let ghost acc0 = seq![35u8];
            encode_expr(condition, out)?;
            proof {
                lemma_concat_associative(old(out)@, acc0, expr_wire(*(*condition)));
            }
            let ghost acc1 = acc0 + expr_wire(*(*condition));
            encode_expr(then_value, out)?;
            proof {
                lemma_concat_associative(old(out)@, acc1, expr_wire(*(*then_value)));
            }
            let ghost acc2 = acc1 + expr_wire(*(*then_value));
            encode_expr(otherwise, out)?;
            proof {
                lemma_concat_associative(old(out)@, acc2, expr_wire(*(*otherwise)));
            }
            let ghost acc3 = acc2 + expr_wire(*(*otherwise));
            match static_type {
                Some(x) => {
                    out.push(1u8);
                    encode_type(x, out)?;
                },
                None => {
                    out.push(0u8);
                },
            }
            proof {
                lemma_concat_associative(old(out)@, acc3, (match &(*static_type) { Some(x) => seq![1u8] + type_wire(**x), None => seq![0u8] }));
            }
            let ghost acc4 = acc3 + (match &(*static_type) { Some(x) => seq![1u8] + type_wire(**x), None => seq![0u8] });
            assert(final(out)@ == old(out)@ + expr_wire(*v));
        },
        Expr::StringConcat { offset, expressions } => {
            out.push(36u8);
            let ghost acc0 = seq![36u8];
            offset.encode(out)?;
            proof {
                lemma_concat_associative(old(out)@, acc0, (*offset).wire());
            }
            let ghost acc1 = acc0 + (*offset).wire();
            encode_expr_list(expressions, out)?;
            proof {
                lemma_concat_associative(old(out)@, acc1, uint_bytes((*expressions)@.len() as u32));
            }
            let ghost acc2 = acc1 + uint_bytes((*expressions)@.len() as u32);
            proof {
                lemma_concat_associative(old(out)@, acc2, expr_items_wire((*expressions)@));
            }
            let ghost acc3 = acc2 + expr_items_wire((*expressions)@);
            assert(final(out)@ == old(out)@ + expr_wire(*v));
        },
        Expr::ListConcat { offset, type_arg, expressions } => {
            out.push(111u8);
            let ghost acc0 = seq![111u8];
            offset.encode(out)?;
            proof {
                lemma_concat_associative(old(out)@, acc0, (*offset).wire());
            }
            let ghost acc1 = acc0 + (*offset).wire();
            encode_type(type_arg, out)?;
            proof {
                lemma_concat_associative(old(out)@, acc1, type_wire(*(*type_arg)));
            }
            let ghost acc2 = acc1 + type_wire(*(*type_arg));
            encode_expr_list(expressions, out)?;
            proof {
                lemma_concat_associative(old(out)@, acc2, uint_bytes((*expressions)@.len() as u32));
            }
            let ghost acc3 = acc2 + uint_bytes((*expressions)@.len() as u32);
            proof {
                lemma_concat_associative(old(out)@, acc3, expr_items_wire((*expressions)@));
            }
            let ghost acc4 = acc3 + expr_items_wire((*expressions)@);
            assert(final(out)@ == old(out)@ + expr_wire(*v));
        },
        Expr::SetConcat { offset, type_arg, expressions } => {
            out.push(112u8);
            let ghost acc0 = seq![112u8];
            offset.encode(out)?;
            proof {
                lemma_concat_associative(old(out)@, acc0, (*offset).wire());
            }
            let ghost acc1 = acc0 + (*offset).wire();
            encode_type(type_arg, out)?;
            proof {
                lemma_concat_associative(old(out)@, acc1, type_wire(*(*type_arg)));
            }
            let ghost acc2 = acc1 + type_wire(*(*type_arg));
            encode_expr_list(expressions, out)?;
            proof {
                lemma_concat_associative(old(out)@, acc2, uint_bytes((*expressions)@.len() as u32));
            }
            let ghost acc3 = acc2 + uint_bytes((*expressions)@.len() as u32);
            proof {
                lemma_concat_associative(old(out)@, acc3, expr_items_wire((*expressions)@));
            }
            let ghost acc4 = acc3 + expr_items_wire((*expressions)@);
            assert(final(out)@ == old(out)@ + expr_wire(*v));
        },
        _ => {
            assert(false);
        },
    }
    Ok(())
}

/// Appends the wire form of `v`, which is one of the variants its precondition names.
#[verifier::rlimit(100)]
fn encode_expr_part3(v: &Expr, out: &mut Vec<u8>) -> (r: Result<(), KernelError>)
    requires
        v is MapConcat || v is InstanceCreate || v is FileUriLit || v is IsInstanceOf || v is AsInstanceOf || v is StringLit || v is PosIntLit || v is NegIntLit || v is BigIntLit || v is DoubleLit || v is TrueLit || v is FalseLit,
    ensures
        r is Ok <==> expr_encodable(*v),
        r is Ok ==> final(out)@ == old(out)@ + expr_wire(*v),
    decreases v, 0nat,
{
    match v {
        Expr::MapConcat { offset, key_type, value_type, expressions } => {
            out.push(113u8);
            let ghost acc0 = seq![113u8];
            offset.encode(out)?;
            proof {
                lemma_concat_associative(old(out)@, acc0, (*offset).wire());
            }
            let ghost acc1 = acc0 + (*offset).wire();
            encode_type(key_type, out)?;
            proof {
                lemma_concat_associative(old(out)@, acc1, type_wire(*(*key_type)));
            }
            let ghost acc2 = acc1 + type_wire(*(*key_type));
            encode_type(value_type, out)?;
            proof {
                lemma_concat_associative(old(out)@, acc2, type_wire(*(*value_type)));
            }
            let ghost acc3 = acc2 + type_wire(*(*value_type));
            encode_expr_list(expressions, out)?;
            proof {
                lemma_concat_associative(old(out)@, acc3, uint_bytes((*expressions)@.len() as u32));
            }
            let ghost acc4 = acc3 + uint_bytes((*expressions)@.len() as u32);
            proof {
                lemma_concat_associative(old(out)@, acc4, expr_items_wire((*expressions)@));
            }
            let ghost acc5 = acc4 + expr_items_wire((*expressions)@);
            assert(final(out)@ == old(out)@ + expr_wire(*v));
        },
        Expr::InstanceCreate(f0) => {
            out.push(114u8);
            let ghost acc0 = seq![114u8];
            encode_instance_create(f0, out)?;
            proof {
                lemma_concat_associative(old(out)@, acc0, instance_create_wire(*(*f0)));
            }
            let ghost acc1 = acc0 + instance_create_wire(*(*f0));
            assert(final(out)@ == old(out)@ + expr_wire(*v));
        },
        Expr::FileUriLit { file_uri, offset, expression } => {
            out.push(116u8);
            let ghost acc0 = seq![116u8];
            file_uri.encode(out)?;
            proof {
                lemma_concat_associative(old(out)@, acc0, (*file_uri).wire());
            }
            let ghost acc1 = acc0 + (*file_uri).wire();
            offset.encode(out)?;
            proof {
                lemma_concat_associative(old(out)@, acc1, (*offset).wire());
            }
            let ghost acc2 = acc1 + (*offset).wire();
            encode_expr(expression, out)?;
            proof {
                lemma_concat_associative(old(out)@, acc2, expr_wire(*(*expression)));
            }
            let ghost acc3 = acc2 + expr_wire(*(*expression));
            assert(final(out)@ == old(out)@ + expr_wire(*v));
        },
        Expr::IsInstanceOf { offset, flags, operand, typ } => {
            out.push(37u8);
            let ghost acc0 = seq![37u8];
            offset.encode(out)?;
            proof {
                lemma_concat_associative(old(out)@, acc0, (*offset).wire());
            }
            let ghost acc1 = acc0 + (*offset).wire();
            flags.encode(out)?;
            proof {
                lemma_concat_associative(old(out)@, acc1, (*flags).wire());
            }
            let ghost acc2 = acc1 + (*flags).wire();
            encode_expr(operand, out)?;
            proof {
                lemma_concat_associative(old(out)@, acc2, expr_wire(*(*operand)));
            }
            let ghost acc3 = acc2 + expr_wire(*(*operand));
            encode_type(typ, out)?;
            proof {
                lemma_concat_associative(old(out)@, acc3, type_wire(*(*typ)));
            }
            let ghost acc4 = acc3 + type_wire(*(*typ));
            assert(final(out)@ == old(out)@ + expr_wire(*v));
        },
        Expr::AsInstanceOf { offset, flags, operand, typ } => {
            out.push(38u8);
            let ghost acc0 = seq![38u8];
            offset.encode(out)?;
            proof {
                lemma_concat_associative(old(out)@, acc0, (*offset).wire());
            }
            let ghost acc1 = acc0 + (*offset).wire();
            flags.encode(out)?;
            proof {
                lemma_concat_associative(old(out)@, acc1, (*flags).wire());
            }
            let ghost acc2 = acc1 + (*flags).wire();
            encode_expr(operand, out)?;
            proof {
                lemma_concat_associative(old(out)@, acc2, expr_wire(*(*operand)));
            }
            let ghost acc3 = acc2 + expr_wire(*(*operand));
            encode_type(typ, out)?;
            proof {
                lemma_concat_associative(old(out)@, acc3, type_wire(*(*typ)));
            }
            let ghost acc4 = acc3 + type_wire(*(*typ));
            assert(final(out)@ == old(out)@ + expr_wire(*v));
        },
        Expr::StringLit(f0) => {
            out.push(39u8);
            let ghost acc0 = seq![39u8];
            f0.encode(out)?;
            proof {
                lemma_concat_associative(old(out)@, acc0, (*f0).wire());
            }
            let ghost acc1 = acc0 + (*f0).wire();
            assert(final(out)@ == old(out)@ + expr_wire(*v));
        },
        Expr::PosIntLit(f0) => {
            out.push(55u8);
            let ghost acc0 = seq![55u8];
            f0.encode(out)?;
            proof {
                lemma_concat_associative(old(out)@, acc0, (*f0).wire());
            }
            let ghost acc1 = acc0 + (*f0).wire();
            assert(final(out)@ == old(out)@ + expr_wire(*v));
        },
        Expr::NegIntLit(f0) => {
            out.push(56u8);
            let ghost acc0 = seq![56u8];
            f0.encode(out)?;
            proof {
                lemma_concat_associative(old(out)@, acc0, (*f0).wire());
            }
            let ghost acc1 = acc0 + (*f0).wire();
            assert(final(out)@ == old(out)@ + expr_wire(*v));
        },
        Expr::BigIntLit(f0) => {
            out.push(57u8);
            let ghost acc0 = seq![57u8];
            f0.encode(out)?;
            proof {
                lemma_concat_associative(old(out)@, acc0, (*f0).wire());
            }
            let ghost acc1 = acc0 + (*f0).wire();
            assert(final(out)@ == old(out)@ + expr_wire(*v));
        },
        Expr::DoubleLit(f0) => {
            out.push(40u8);
            let ghost acc0 = seq![40u8];
            f0.encode(out)?;
            proof {
                lemma_concat_associative(old(out)@, acc0, (*f0).wire());
            }
            let ghost acc1 = acc0 + (*f0).wire();
            assert(final(out)@ == old(out)@ + expr_wire(*v));
        },
        Expr::TrueLit => {
            out.push(41u8);
            let ghost acc0 = seq![41u8];
            assert(final(out)@ == old(out)@ + expr_wire(*v));
        },
        Expr::FalseLit => {
            out.push(42u8);
            let ghost acc0 = seq![42u8];
            assert(final(out)@ == old(out)@ + expr_wire(*v));
        },
        _ => {
            assert(false);
        },
    }
    Ok(())
}

/// Appends the wire form of `v`, which is one of the variants its precondition names.
#[verifier::rlimit(100)]
fn encode_expr_part4(v: &Expr, out: &mut Vec<u8>) -> (r: Result<(), KernelError>)
    requires
        v is NullLit || v is SymbolLit || v is TypeLit || v is This || v is Rethrow || v is Throw || v is ListLit || v is SetLit || v is MapLit || v is Await || v is Function || v is Let,
    ensures
        r is Ok <==> expr_encodable(*v),
        r is Ok ==> final(out)@ == old(out)@ + expr_wire(*v),
    decreases v, 0nat,
{
    match v {
        Expr::NullLit => {
            out.push(43u8);
            let ghost acc0 = seq![43u8];
            assert(final(out)@ == old(out)@ + expr_wire(*v));
        },
        Expr::SymbolLit(f0) => {
            out.push(44u8);
            let ghost acc0 = seq![44u8];
            f0.encode(out)?;
            proof {
                lemma_concat_associative(old(out)@, acc0, (*f0).wire());
            }
            let ghost acc1 = acc0 + (*f0).wire();
            assert(final(out)@ == old(out)@ + expr_wire(*v));
        },
        Expr::TypeLit(f0) => {
            out.push(45u8);
            let ghost acc0 = seq![45u8];
            encode_type(f0, out)?;
            proof {
                lemma_concat_associative(old(out)@, acc0, type_wire(*(*f0)));
            }
            let ghost acc1 = acc0 + type_wire(*(*f0));
            assert(final(out)@ == old(out)@ + expr_wire(*v));
        },
        Expr::This => {
            out.push(46u8);
            let ghost acc0 = seq![46u8];
            assert(final(out)@ == old(out)@ + expr_wire(*v));
        },
        Expr::Rethrow(f0) => {
            out.push(47u8);
            let ghost acc0 = seq![47u8];
            f0.encode(out)?;
            proof {
                lemma_concat_associative(old(out)@, acc0, (*f0).wire());
            }
            let ghost acc1 = acc0 + (*f0).wire();
            assert(final(out)@ == old(out)@ + expr_wire(*v));
        },
        Expr::Throw(f0, f1) => {
            out.push(48u8);
            let ghost acc0 = seq![48u8];
            f0.encode(out)?;
            proof {
                lemma_concat_associative(old(out)@, acc0, (*f0).wire());
            }
            let ghost acc1 = acc0 + (*f0).wire();
            encode_expr(f1, out)?;
            proof {
                lemma_concat_associative(old(out)@, acc1, expr_wire(*(*f1)));
            }
            let ghost acc2 = acc1 + expr_wire(*(*f1));
            assert(final(out)@ == old(out)@ + expr_wire(*v));
        },
        Expr::ListLit { offset, type_argument, values } => {
            out.push(49u8);
            let ghost acc0 = seq![49u8];
            offset.encode(out)?;
            proof {
                lemma_concat_associative(old(out)@, acc0, (*offset).wire());
            }
            let ghost acc1 = acc0 + (*offset).wire();
            encode_type(type_argument, out)?;
            proof {
                lemma_concat_associative(old(out)@, acc1, type_wire(*(*type_argument)));
            }
            let ghost acc2 = acc1 + type_wire(*(*type_argument));
            encode_expr_list(values, out)?;
            proof {
                lemma_concat_associative(old(out)@, acc2, uint_bytes((*values)@.len() as u32));
            }
            let ghost acc3 = acc2 + uint_bytes((*values)@.len() as u32);
            proof {
                lemma_concat_associative(old(out)@, acc3, expr_items_wire((*values)@));
            }
            let ghost acc4 = acc3 + expr_items_wire((*values)@);
            assert(final(out)@ == old(out)@ + expr_wire(*v));
        },
        Expr::SetLit { offset, type_argument, values } => {
            out.push(109u8);
            let ghost acc0 = seq![109u8];
            offset.encode(out)?;
            proof {
                lemma_concat_associative(old(out)@, acc0, (*offset).wire());
            }
            let ghost acc1 = acc0 + (*offset).wire();
            encode_type(type_argument, out)?;
            proof {
                lemma_concat_associative(old(out)@, acc1, type_wire(*(*type_argument)));
            }
            let ghost acc2 = acc1 + type_wire(*(*type_argument));
            encode_expr_list(values, out)?;
            proof {
                lemma_concat_associative(old(out)@, acc2, uint_bytes((*values)@.len() as u32));
            }
            let ghost acc3 = acc2 + uint_bytes((*values)@.len() as u32);
            proof {
                lemma_concat_associative(old(out)@, acc3, expr_items_wire((*values)@));
            }
            let ghost acc4 = acc3 + expr_items_wire((*values)@);
            assert(final(out)@ == old(out)@ + expr_wire(*v));
        },
        Expr::MapLit { offset, key_type, value_type, values } => {
            out.push(50u8);
            let ghost acc0 = seq![50u8];
            offset.encode(out)?;
            proof {
                lemma_concat_associative(old(out)@, acc0, (*offset).wire());
            }
            let ghost acc1 = acc0 + (*offset).wire();
            encode_type(key_type, out)?;
            proof {
                lemma_concat_associative(old(out)@, acc1, type_wire(*(*key_type)));
            }
            let ghost acc2 = acc1 + type_wire(*(*key_type));
            encode_type(value_type, out)?;
            proof {
                lemma_concat_associative(old(out)@, acc2, type_wire(*(*value_type)));
            }
            let ghost acc3 = acc2 + type_wire(*(*value_type));
            encode_labeled_expr_list(values, out)?;
            proof {
                lemma_concat_associative(old(out)@, acc3, uint_bytes((*values)@.len() as u32));
            }
            let ghost acc4 = acc3 + uint_bytes((*values)@.len() as u32);
            proof {
                lemma_concat_associative(old(out)@, acc4, labeled_expr_items_wire((*values)@));
            }
            let ghost acc5 = acc4 + labeled_expr_items_wire((*values)@);
            assert(final(out)@ == old(out)@ + expr_wire(*v));
        },
        Expr::Await(f0) => {
            out.push(51u8);
            let ghost acc0 = seq![51u8];
            encode_expr(f0, out)?;
            proof {
                lemma_concat_associative(old(out)@, acc0, expr_wire(*(*f0)));
            }
            let ghost acc1 = acc0 + expr_wire(*(*f0));
            assert(final(out)@ == old(out)@ + expr_wire(*v));
        },
        Expr::Function(f0, f1) => {
            out.push(52u8);
            let ghost acc0 = seq![52u8];
            f0.encode(out)?;
            proof {
                lemma_concat_associative(old(out)@, acc0, (*f0).wire());
            }
            let ghost acc1 = acc0 + (*f0).wire();
            encode_function(f1, out)?;
            proof {
                lemma_concat_associative(old(out)@, acc1, function_wire(*(*f1)));
            }
            let ghost acc2 = acc1 + function_wire(*(*f1));
            assert(final(out)@ == old(out)@ + expr_wire(*v));
        },
        Expr::Let(f0, f1, f2) => {
            out.push(53u8);
            let ghost acc0 = seq![53u8];
            f0.encode(out)?;
            proof {
                lemma_concat_associative(old(out)@, acc0, (*f0).wire());
            }
            let ghost acc1 = acc0 + (*f0).wire();
            encode_var_decl(f1, out)?;
            proof {
                lemma_concat_associative(old(out)@, acc1, var_decl_wire(*(*f1)));
            }
            let ghost acc2 = acc1 + var_decl_wire(*(*f1));
            encode_expr(f2, out)?;
            proof {
                lemma_concat_associative(old(out)@, acc2, expr_wire(*(*f2)));
            }
            let ghost acc3 = acc2 + expr_wire(*(*f2));
            assert(final(out)@ == old(out)@ + expr_wire(*v));
        },
        _ => {
            assert(false);
        },
    }
    Ok(())
}

/// Appends the wire form of `v`, which is one of the variants its precondition names.
#[verifier::rlimit(100)]
fn encode_expr_part5(v: &Expr, out: &mut Vec<u8>) -> (r: Result<(), KernelError>)
    requires
        v is Block || v is Instantiation || v is LoadLibrary || v is CheckLibraryIsLoaded || v is Constant,
    ensures
        r is Ok <==> expr_encodable(*v),
        r is Ok ==> final(out)@ == old(out)@ + expr_wire(*v),
    decreases v, 0nat,
{
    match v {
        Expr::Block { body, value } => {
            out.push(82u8);
            let ghost acc0 = seq![82u8];
            encode_stmt_list(body, out)?;
            proof {
                lemma_concat_associative(old(out)@, acc0, uint_bytes((*body)@.len() as u32));
            }
            let ghost acc1 = acc0 + uint_bytes((*body)@.len() as u32);
            proof {
                lemma_concat_associative(old(out)@, acc1, stmt_items_wire((*body)@));
            }
            let ghost acc2 = acc1 + stmt_items_wire((*body)@);
            encode_expr(value, out)?;
            proof {
                lemma_concat_associative(old(out)@, acc2, expr_wire(*(*value)));
            }
            let ghost acc3 = acc2 + expr_wire(*(*value));
            assert(final(out)@ == old(out)@ + expr_wire(*v));
        },
        Expr::Instantiation { expr, type_args } => {
            out.push(54u8);
            let ghost acc0 = seq![54u8];
            encode_expr(expr, out)?;
            proof {
                lemma_concat_associative(old(out)@, acc0, expr_wire(*(*expr)));
            }
            let ghost acc1 = acc0 + expr_wire(*(*expr));
            encode_type_list(type_args, out)?;
            proof {
                lemma_concat_associative(old(out)@, acc1, uint_bytes((*type_args)@.len() as u32));
            }
            let ghost acc2 = acc1 + uint_bytes((*type_args)@.len() as u32);
            proof {
                lemma_concat_associative(old(out)@, acc2, type_items_wire((*type_args)@));
            }
            let ghost acc3 = acc2 + type_items_wire((*type_args)@);
            assert(final(out)@ == old(out)@ + expr_wire(*v));
        },
        Expr::LoadLibrary(f0) => {
            out.push(14u8);
            let ghost acc0 = seq![14u8];
            f0.encode(out)?;
            proof {
                lemma_concat_associative(old(out)@, acc0, (*f0).wire());
            }
            let ghost acc1 = acc0 + (*f0).wire();
            assert(final(out)@ == old(out)@ + expr_wire(*v));
        },
        Expr::CheckLibraryIsLoaded(f0) => {
            out.push(13u8);
            let ghost acc0 = seq![13u8];
            f0.encode(out)?;
            proof {
                lemma_concat_associative(old(out)@, acc0, (*f0).wire());
            }
            let ghost acc1 = acc0 + (*f0).wire();
            assert(final(out)@ == old(out)@ + expr_wire(*v));
        },
        Expr::Constant { offset, typ, constant } => {
            out.push(106u8);
            let ghost acc0 = seq![106u8];
            offset.encode(out)?;
            proof {
                lemma_concat_associative(old(out)@, acc0, (*offset).wire());
            }
            let ghost acc1 = acc0 + (*offset).wire();
            encode_type(typ, out)?;
            proof {
                lemma_concat_associative(old(out)@, acc1, type_wire(*(*typ)));
            }
            let ghost acc2 = acc1 + type_wire(*(*typ));
            constant.encode(out)?;
            proof {
                lemma_concat_associative(old(out)@, acc2, (*constant).wire());
            }
            let ghost acc3 = acc2 + (*constant).wire();
            assert(final(out)@ == old(out)@ + expr_wire(*v));
        },
        _ => {
            assert(false);
        },
    }
    Ok(())
}

/// Reads a value at `*pos` and moves past it.
#[verifier::rlimit(100)]
#[verifier::spinoff_prover]
pub fn decode_expr(data: &[u8], pos: &mut usize) -> (r: Result<Expr, KernelError>)
    ensures
        r is Ok ==> *old(pos) < *final(pos) <= data@.len(),
        *old(pos) >= data@.len() ==> r == Err::<Expr, _>(KernelError::ShortRead),
        *old(pos) < data@.len() && !is_expr_tag(data@[*old(pos) as int]) ==> r == Err::<Expr, _>(
            KernelError::UnknownTag { sum: SumKind::Expr, tag: data@[*old(pos) as int] },
        ),
        short_expr_parse(data@, *old(pos) as int) matches Some((e, q)) ==> r == Ok::<Expr, KernelError>(e) && *final(pos) == q,
        *old(pos) < data@.len() && 136 <= data@[*old(pos) as int] <= 143 ==> (r matches Ok(e) ==> e is VarSet && e->VarSet_var == Uint((data@[*old(pos) as int] - 136) as u32)),
    decreases data@.len() - *old(pos), 0nat,
{
    let tag = read_u8(data, pos)?;
    match tag {
        19u8 => {
            let offset = <FileOffset as Codec>::decode(data, pos)?;
            let message = <StringRef as Codec>::decode(data, pos)?;
            let expression = match read_u8(data, pos)? {
                0u8 => None,
                1u8 => Some(Box::new(decode_expr(data, pos)?)),
                b => {
                    return Err(KernelError::InvalidOption(b));
                },
            };
            Ok(Expr::Invalid { offset, message, expression })
        },
        20u8 => {
            let offset = <FileOffset as Codec>::decode(data, pos)?;
            let var_decl_position = <Uint as Codec>::decode(data, pos)?;
            let var = <Uint as Codec>::decode(data, pos)?;
            let promoted_type = match read_u8(data, pos)? {
                0u8 => None,
                1u8 => Some(Box::new(decode_type(data, pos)?)),
                b => {
                    return Err(KernelError::InvalidOption(b));
                },
            };
            Ok(Expr::VarGet { offset, var_decl_position, var, promoted_type })
        },
        21u8 => {
            let offset = <FileOffset as Codec>::decode(data, pos)?;
            let var_decl_position = <Uint as Codec>::decode(data, pos)?;
            let var = <Uint as Codec>::decode(data, pos)?;
            let value = Box::new(decode_expr(data, pos)?);
            Ok(Expr::VarSet { offset, var_decl_position, var, value })
        },
        24u8 => {
            let offset = <FileOffset as Codec>::decode(data, pos)?;
            let name = <StringRef as Codec>::decode(data, pos)?;
            let interface_target = <CanonicalNameRef as Codec>::decode(data, pos)?;
            let interface_target_origin = <CanonicalNameRef as Codec>::decode(data, pos)?;
            Ok(Expr::SuperPropGet { offset, name, interface_target, interface_target_origin })
        },
        25u8 => {
            let offset = <FileOffset as Codec>::decode(data, pos)?;
            let name = <StringRef as Codec>::decode(data, pos)?;
            let value = Box::new(decode_expr(data, pos)?);
            let interface_target = <CanonicalNameRef as Codec>::decode(data, pos)?;
            let interface_target_origin = <CanonicalNameRef as Codec>::decode(data, pos)?;
            Ok(Expr::SuperPropSet { offset, name, value, interface_target, interface_target_origin })
        },
        118u8 => {
            let kind = <InstanceAccessKind as Codec>::decode(data, pos)?;
            let offset = <FileOffset as Codec>::decode(data, pos)?;
            let receiver = Box::new(decode_expr(data, pos)?);
            let name = <StringRef as Codec>::decode(data, pos)?;
            let typ = Box::new(decode_type(data, pos)?);
            let interface_target = <CanonicalNameRef as Codec>::decode(data, pos)?;
            let interface_target_origin = <CanonicalNameRef as Codec>::decode(data, pos)?;
            Ok(Expr::InstanceGet { kind, offset, receiver, name, typ, interface_target, interface_target_origin })
        },
        119u8 => {
            let kind = <InstanceAccessKind as Codec>::decode(data, pos)?;
            let offset = <FileOffset as Codec>::decode(data, pos)?;
            let receiver = Box::new(decode_expr(data, pos)?);
            let name = <StringRef as Codec>::decode(data, pos)?;
            let value = Box::new(decode_expr(data, pos)?);
            let interface_target = <CanonicalNameRef as Codec>::decode(data, pos)?;
            let interface_target_origin = <CanonicalNameRef as Codec>::decode(data, pos)?;
            Ok(Expr::InstanceSet { kind, offset, receiver, name, value, interface_target, interface_target_origin })
        },
        121u8 => {
            let kind = <InstanceAccessKind as Codec>::decode(data, pos)?;
            let offset = <FileOffset as Codec>::decode(data, pos)?;
            let receiver = Box::new(decode_expr(data, pos)?);
            let name = <StringRef as Codec>::decode(data, pos)?;
            let typ = Box::new(decode_type(data, pos)?);
            let interface_target = <CanonicalNameRef as Codec>::decode(data, pos)?;
            let interface_target_origin = <CanonicalNameRef as Codec>::decode(data, pos)?;
            Ok(Expr::InstanceTearOff { kind, offset, receiver, name, typ, interface_target, interface_target_origin })
        },
        122u8 => {
            let kind = <DynamicAccessKind as Codec>::decode(data, pos)?;
            let offset = <FileOffset as Codec>::decode(data, pos)?;
            let receiver = Box::new(decode_expr(data, pos)?);
            let name = <StringRef as Codec>::decode(data, pos)?;
            Ok(Expr::DynamicGet { kind, offset, receiver, name })
        },
        123u8 => {
            let kind = <DynamicAccessKind as Codec>::decode(data, pos)?;
            let offset = <FileOffset as Codec>::decode(data, pos)?;
            let receiver = Box::new(decode_expr(data, pos)?);
            let name = <StringRef as Codec>::decode(data, pos)?;
            let value = Box::new(decode_expr(data, pos)?);
            Ok(Expr::DynamicSet { kind, offset, receiver, name, value })
        },
        26u8 => {
            let offset = <FileOffset as Codec>::decode(data, pos)?;
            let target = <CanonicalNameRef as Codec>::decode(data, pos)?;
            Ok(Expr::StaticGet { offset, target })
        },
        27u8 => {
            let offset = <FileOffset as Codec>::decode(data, pos)?;
            let target = <CanonicalNameRef as Codec>::decode(data, pos)?;
            let value = Box::new(decode_expr(data, pos)?);
            Ok(Expr::StaticSet { offset, target, value })
        },
        17u8 => {
            let offset = <FileOffset as Codec>::decode(data, pos)?;
            let target = <CanonicalNameRef as Codec>::decode(data, pos)?;
            Ok(Expr::StaticTearOff { offset, target })
        },
        60u8 => {
            let offset = <FileOffset as Codec>::decode(data, pos)?;
            let target = <CanonicalNameRef as Codec>::decode(data, pos)?;
            Ok(Expr::ConstructorTearOff { offset, target })
        },
        84u8 => {
            let offset = <FileOffset as Codec>::decode(data, pos)?;
            let target = <CanonicalNameRef as Codec>::decode(data, pos)?;
            Ok(Expr::RedirectingFactoryTearOff { offset, target })
        },
        83u8 => {
            let type_params = decode_type_parameter_list(data, pos)?;
            let expr = Box::new(decode_expr(data, pos)?);
            let type_args = decode_type_list(data, pos)?;
            Ok(Expr::TypedefTearOff { type_params, expr, type_args })
        },
        120u8 => {
            let kind = <InstanceAccessKind as Codec>::decode(data, pos)?;
            let flags = <InvocationFlags as Codec>::decode(data, pos)?;
            let offset = <FileOffset as Codec>::decode(data, pos)?;
            let receiver = Box::new(decode_expr(data, pos)?);
            let name = <StringRef as Codec>::decode(data, pos)?;
            let arguments = Box::new(decode_arguments(data, pos)?);
            let function_type = Box::new(decode_type(data, pos)?);
            let interface_target = <CanonicalNameRef as Codec>::decode(data, pos)?;
            let interface_target_origin = <CanonicalNameRef as Codec>::decode(data, pos)?;
            Ok(Expr::InstanceInvoke { kind, flags, offset, receiver, name, arguments, function_type, interface_target, interface_target_origin })
        },
        89u8 => {
            let kind = <InstanceAccessKind as Codec>::decode(data, pos)?;
            let flags = <InvocationFlags as Codec>::decode(data, pos)?;
            let offset = <FileOffset as Codec>::decode(data, pos)?;
            let receiver = Box::new(decode_expr(data, pos)?);
            let name = <StringRef as Codec>::decode(data, pos)?;
            let arguments = Box::new(decode_arguments(data, pos)?);
            let function_type = Box::new(decode_type(data, pos)?);
            let interface_target = <CanonicalNameRef as Codec>::decode(data, pos)?;
            let interface_target_origin = <CanonicalNameRef as Codec>::decode(data, pos)?;
            Ok(Expr::InstanceGetterInvoke { kind, flags, offset, receiver, name, arguments, function_type, interface_target, interface_target_origin })
        },
        124u8 => {
            let kind = <DynamicAccessKind as Codec>::decode(data, pos)?;
            let offset = <FileOffset as Codec>::decode(data, pos)?;
            let receiver = Box::new(decode_expr(data, pos)?);
            let name = <StringRef as Codec>::decode(data, pos)?;
            let arguments = Box::new(decode_arguments(data, pos)?);
            Ok(Expr::DynamicInvoke { kind, offset, receiver, name, arguments })
        },
        125u8 => {
            let kind = <FunctionAccessKind as Codec>::decode(data, pos)?;
            let offset = <FileOffset as Codec>::decode(data, pos)?;
            let receiver = Box::new(decode_expr(data, pos)?);
            let arguments = Box::new(decode_arguments(data, pos)?);
            let function_type = Box::new(decode_type(data, pos)?);
            Ok(Expr::FunctionInvoke { kind, offset, receiver, arguments, function_type })
        },
        126u8 => {
            let offset = <FileOffset as Codec>::decode(data, pos)?;
            let receiver = Box::new(decode_expr(data, pos)?);
            Ok(Expr::FunctionTearOff { offset, receiver })
        },
        127u8 => {
            let offset = <FileOffset as Codec>::decode(data, pos)?;
            let var_decl_position = <Uint as Codec>::decode(data, pos)?;
            let var_ref = <Uint as Codec>::decode(data, pos)?;
            let arguments = Box::new(decode_arguments(data, pos)?);
            let function_type = Box::new(decode_type(data, pos)?);
            Ok(Expr::LocalFunctionInvoke { offset, var_decl_position, var_ref, arguments, function_type })
        },
        29u8 => {
            let offset = <FileOffset as Codec>::decode(data, pos)?;
            let name = <StringRef as Codec>::decode(data, pos)?;
            let arguments = Box::new(decode_arguments(data, pos)?);
            let interface_target = <CanonicalNameRef as Codec>::decode(data, pos)?;
            let interface_target_origin = <CanonicalNameRef as Codec>::decode(data, pos)?;
            Ok(Expr::SuperMethodInvoke { offset, name, arguments, interface_target, interface_target_origin })
        },
        30u8 => {
            let offset = <FileOffset as Codec>::decode(data, pos)?;
            let target = <CanonicalNameRef as Codec>::decode(data, pos)?;
            let arguments = Box::new(decode_arguments(data, pos)?);
            Ok(Expr::StaticInvoke { offset, target, arguments })
        },
        18u8 => {
            let offset = <FileOffset as Codec>::decode(data, pos)?;
            let target = <CanonicalNameRef as Codec>::decode(data, pos)?;
            let arguments = Box::new(decode_arguments(data, pos)?);
            Ok(Expr::ConstStaticInvoke { offset, target, arguments })
        },
        31u8 => {
            let offset = <FileOffset as Codec>::decode(data, pos)?;
            let constructor = <CanonicalNameRef as Codec>::decode(data, pos)?;
            let arguments = Box::new(decode_arguments(data, pos)?);
            Ok(Expr::ConstructorInvoke { offset, constructor, arguments })
        },
        32u8 => {
            let offset = <FileOffset as Codec>::decode(data, pos)?;
            let constructor = <CanonicalNameRef as Codec>::decode(data, pos)?;
            let arguments = Box::new(decode_arguments(data, pos)?);
            Ok(Expr::ConstConstructorInvoke { offset, constructor, arguments })
        },
        15u8 => {
            let offset = <FileOffset as Codec>::decode(data, pos)?;
            let expr = Box::new(decode_expr(data, pos)?);
            Ok(Expr::EqualsNull { offset, expr })
        },
        16u8 => {
            let offset = <FileOffset as Codec>::decode(data, pos)?;
            let left = Box::new(decode_expr(data, pos)?);
            let right = Box::new(decode_expr(data, pos)?);
            let function_type = Box::new(decode_type(data, pos)?);
            let interface_target = <CanonicalNameRef as Codec>::decode(data, pos)?;
            let interface_target_origin = <CanonicalNameRef as Codec>::decode(data, pos)?;
            Ok(Expr::Equals { offset, left, right, function_type, interface_target, interface_target_origin })
        },
        33u8 => {
            let operand = Box::new(decode_expr(data, pos)?);
            Ok(Expr::Not { operand })
        },
        117u8 => {
            let offset = <FileOffset as Codec>::decode(data, pos)?;
            let operand = Box::new(decode_expr(data, pos)?);
            Ok(Expr::NullCheck { offset, operand })
        },
        34u8 => {
            let left = Box::new(decode_expr(data, pos)?);
            let operator = <LogicalOp as Codec>::decode(data, pos)?;
            let right = Box::new(decode_expr(data, pos)?);
            Ok(Expr::LogicalOp { left, operator, right })
        },
        35u8 => {
            let condition = Box::new(decode_expr(data, pos)?);
            let then_value = Box::new(decode_expr(data, pos)?);
            let otherwise = Box::new(decode_expr(data, pos)?);
            let static_type = match read_u8(data, pos)? {
                0u8 => None,
                1u8 => Some(Box::new(decode_type(data, pos)?)),
                b => {
                    return Err(KernelError::InvalidOption(b));
                },
            };
            Ok(Expr::Conditional { condition, then_value, otherwise, static_type })
        },
        36u8 => {
            let offset = <FileOffset as Codec>::decode(data, pos)?;
            let expressions = decode_expr_list(data, pos)?;
            Ok(Expr::StringConcat { offset, expressions })
        },
        111u8 => {
            let offset = <FileOffset as Codec>::decode(data, pos)?;
            let type_arg = Box::new(decode_type(data, pos)?);
            let expressions = decode_expr_list(data, pos)?;
            Ok(Expr::ListConcat { offset, type_arg, expressions })
        },
        112u8 => {
            let offset = <FileOffset as Codec>::decode(data, pos)?;
            let type_arg = Box::new(decode_type(data, pos)?);
            let expressions = decode_expr_list(data, pos)?;
            Ok(Expr::SetConcat { offset, type_arg, expressions })
        },
        113u8 => {
            let offset = <FileOffset as Codec>::decode(data, pos)?;
            let key_type = Box::new(decode_type(data, pos)?);
            let value_type = Box::new(decode_type(data, pos)?);
            let expressions = decode_expr_list(data, pos)?;
            Ok(Expr::MapConcat { offset, key_type, value_type, expressions })
        },
        114u8 => {
            let f0 = Box::new(decode_instance_create(data, pos)?);
            Ok(Expr::InstanceCreate(f0))
        },
        116u8 => {
            let file_uri = <UriRef as Codec>::decode(data, pos)?;
            let offset = <FileOffset as Codec>::decode(data, pos)?;
            let expression = Box::new(decode_expr(data, pos)?);
            Ok(Expr::FileUriLit { file_uri, offset, expression })
        },
        37u8 => {
            let offset = <FileOffset as Codec>::decode(data, pos)?;
            let flags = <u8 as Codec>::decode(data, pos)?;
            let operand = Box::new(decode_expr(data, pos)?);
            let typ = Box::new(decode_type(data, pos)?);
            Ok(Expr::IsInstanceOf { offset, flags, operand, typ })
        },
        38u8 => {
            let offset = <FileOffset as Codec>::decode(data, pos)?;
            let flags = <DynamicCastFlags as Codec>::decode(data, pos)?;
            let operand = Box::new(decode_expr(data, pos)?);
            let typ = Box::new(decode_type(data, pos)?);
            Ok(Expr::AsInstanceOf { offset, flags, operand, typ })
        },
        39u8 => {
            let f0 = <StringRef as Codec>::decode(data, pos)?;
            Ok(Expr::StringLit(f0))
        },
        55u8 => {
            let f0 = <Uint as Codec>::decode(data, pos)?;
            Ok(Expr::PosIntLit(f0))
        },
        56u8 => {
            let f0 = <Uint as Codec>::decode(data, pos)?;
            Ok(Expr::NegIntLit(f0))
        },
        57u8 => {
            let f0 = <StringRef as Codec>::decode(data, pos)?;
            Ok(Expr::BigIntLit(f0))
        },
        40u8 => {
            let f0 = <u64 as Codec>::decode(data, pos)?;
            Ok(Expr::DoubleLit(f0))
        },
        41u8 => {
            Ok(Expr::TrueLit)
        },
        42u8 => {
            Ok(Expr::FalseLit)
        },
        43u8 => {
            Ok(Expr::NullLit)
        },
        44u8 => {
            let f0 = <StringRef as Codec>::decode(data, pos)?;
            Ok(Expr::SymbolLit(f0))
        },
        45u8 => {
            let f0 = Box::new(decode_type(data, pos)?);
            Ok(Expr::TypeLit(f0))
        },
        46u8 => {
            Ok(Expr::This)
        },
        47u8 => {
            let f0 = <FileOffset as Codec>::decode(data, pos)?;
            Ok(Expr::Rethrow(f0))
        },
        48u8 => {
            let f0 = <FileOffset as Codec>::decode(data, pos)?;
            let f1 = Box::new(decode_expr(data, pos)?);
            Ok(Expr::Throw(f0, f1))
        },
        49u8 => {
            let offset = <FileOffset as Codec>::decode(data, pos)?;
            let type_argument = Box::new(decode_type(data, pos)?);
            let values = decode_expr_list(data, pos)?;
            Ok(Expr::ListLit { offset, type_argument, values })
        },
        109u8 => {
            let offset = <FileOffset as Codec>::decode(data, pos)?;
            let type_argument = Box::new(decode_type(data, pos)?);
            let values = decode_expr_list(data, pos)?;
            Ok(Expr::SetLit { offset, type_argument, values })
        },
        50u8 => {
            let offset = <FileOffset as Codec>::decode(data, pos)?;
            let key_type = Box::new(decode_type(data, pos)?);
            let value_type = Box::new(decode_type(data, pos)?);
            let values = decode_labeled_expr_list(data, pos)?;
            Ok(Expr::MapLit { offset, key_type, value_type, values })
        },
        51u8 => {
            let f0 = Box::new(decode_expr(data, pos)?);
            Ok(Expr::Await(f0))
        },
        52u8 => {
            let f0 = <FileOffset as Codec>::decode(data, pos)?;
            let f1 = Box::new(decode_function(data, pos)?);
            Ok(Expr::Function(f0, f1))
        },
        53u8 => {
            let f0 = <FileOffset as Codec>::decode(data, pos)?;
            let f1 = Box::new(decode_var_decl(data, pos)?);
            let f2 = Box::new(decode_expr(data, pos)?);
            Ok(Expr::Let(f0, f1, f2))
        },
        82u8 => {
            let body = decode_stmt_list(data, pos)?;
            let value = Box::new(decode_expr(data, pos)?);
            Ok(Expr::Block { body, value })
        },
        54u8 => {
            let expr = Box::new(decode_expr(data, pos)?);
            let type_args = decode_type_list(data, pos)?;
            Ok(Expr::Instantiation { expr, type_args })
        },
        14u8 => {
            let f0 = <DependencyRef as Codec>::decode(data, pos)?;
            Ok(Expr::LoadLibrary(f0))
        },
        13u8 => {
            let f0 = <DependencyRef as Codec>::decode(data, pos)?;
            Ok(Expr::CheckLibraryIsLoaded(f0))
        },
        106u8 => {
            let offset = <FileOffset as Codec>::decode(data, pos)?;
            let typ = Box::new(decode_type(data, pos)?);
            let constant = <ConstantRef as Codec>::decode(data, pos)?;
            Ok(Expr::Constant { offset, typ, constant })
        },
        128u8..=135u8 => {
            let offset = <FileOffset as Codec>::decode(data, pos)?;
            let var_decl_position = <Uint as Codec>::decode(data, pos)?;
            Ok(Expr::VarGet { offset, var_decl_position, var: Uint((tag - 128u8) as u32), promoted_type: None })
        },
        136u8..=143u8 => {
            let offset = <FileOffset as Codec>::decode(data, pos)?;
            let var_decl_position = <Uint as Codec>::decode(data, pos)?;
            let value = Box::new(decode_expr(data, pos)?);
            Ok(Expr::VarSet { offset, var_decl_position, var: Uint((tag - 136u8) as u32), value })
        },
        144u8..=146u8 => Ok(Expr::NegIntLit(Uint((147u8 - tag) as u32))),
        147u8..=151u8 => Ok(Expr::PosIntLit(Uint((tag - 147u8) as u32))),
        _ => Err(KernelError::UnknownTag { sum: SumKind::Expr, tag }),
    }
}

pub open spec fn expr_items_encodable(s: Seq<Expr>) -> bool
    decreases s,
{
    forall|i: int| 0 <= i < s.len() ==> expr_encodable(#[trigger] s[i])
}

pub open spec fn expr_items_wire(s: Seq<Expr>) -> Seq<u8>
    decreases s,
{
    if s.len() == 0 {
        Seq::empty()
    } else {
        expr_items_wire(s.drop_last()) + expr_wire(s.last())
    }
}

/// Appends a list: its count, then each item.
pub fn encode_expr_list(v: &Vec<Expr>, out: &mut Vec<u8>) -> (r: Result<(), KernelError>)
    ensures
        r is Ok <==> v@.len() < 0x4000_0000 && expr_items_encodable(v@),
        r is Ok ==> final(out)@ == old(out)@ + uint_bytes(v@.len() as u32) + expr_items_wire(v@),
    decreases v, 1nat,
{
    if v.len() >= 0x4000_0000 {
        return Err(KernelError::InvalidVarUint);
    }
    Uint(v.len() as u32).encode(out)?;
    let ghost start = out@;
    let mut i: usize = 0;
    while i < v.len()
        invariant
            i <= v.len(),
            expr_items_encodable(v@.subrange(0, i as int)),
            out@ == start + expr_items_wire(v@.subrange(0, i as int)),
        decreases v.len() - i,
    {
        let res = encode_expr(&v[i], out);
        if res.is_err() {
            assert(!expr_items_encodable(v@)) by {
                assert(!expr_encodable(v@[i as int]));
            }
            return res;
        }
        proof {
            let s = v@.subrange(0, i + 1);
            assert(s.drop_last() =~= v@.subrange(0, i as int));
            assert forall|k: int| 0 <= k < s.len() implies expr_encodable(#[trigger] s[k]) by {
                if k < i {
                    assert(s[k] == v@.subrange(0, i as int)[k]);
                }
            }
        }
        i = i + 1;
    }
    assert(v@.subrange(0, i as int) =~= v@);
    Ok(())
}

/// Reads a list: a count, then that many items.
pub fn decode_expr_list(data: &[u8], pos: &mut usize) -> (r: Result<Vec<Expr>, KernelError>)
    ensures
        r is Ok ==> *old(pos) < *final(pos) <= data@.len(),
        r is Ok ==> uint_parse(data@, *old(pos) as int) is Some && r->Ok_0@.len() == (uint_parse(data@, *old(pos) as int)->0).0,
        uint_parse(data@, *old(pos) as int) is Some && (uint_parse(data@, *old(pos) as int)->0).0 == 0 ==> r is Ok && r->Ok_0@.len() == 0
            && *final(pos) == (uint_parse(data@, *old(pos) as int)->0).1,
    decreases data@.len() - *old(pos), 0nat,
{
    let n = Uint::decode(data, pos)?;
    let ghost q0 = *pos;
    let mut v: Vec<Expr> = Vec::new();
    let mut i: u32 = 0;
    while i < n.0
        invariant
            *old(pos) < *pos <= data@.len(),
            i <= n.0,
            v@.len() == i,
            i == 0 ==> *pos == q0,
            uint_parse(data@, *old(pos) as int) == Some((n.0, q0 as int)),
        decreases n.0 - i,
    {
        let x = decode_expr(data, pos)?;
        v.push(x);
        i = i + 1;
    }
    Ok(v)
}

/// A statement of the syntax tree.
#[derive(Debug, PartialEq)]
pub enum Stmt {
    Expr(Box<Expr>),
    Block {
        range: FileRange,
        statements: Vec<Stmt>,
    },
    AssertBlock {
        statements: Vec<Stmt>,
    },
    Empty,
    Assert(Assert),
    Labeled {
        body: Box<Stmt>,
    },
    Break {
        offset: FileOffset,
        label: Uint,
    },
    While {
        offset: FileOffset,
        condition: Box<Expr>,
        body: Box<Stmt>,
    },
    Do {
        offset: FileOffset,
        body: Box<Stmt>,
        condition: Box<Expr>,
    },
    For {
        offset: FileOffset,
        vars: Vec<VarDecl>,
        condition: Option<Box<Expr>>,
        updates: Vec<Expr>,
        body: Box<Stmt>,
    },
    ForIn {
        offset: FileOffset,
        body_offset: FileOffset,
        var: Box<VarDecl>,
        iterable: Box<Expr>,
        body: Box<Stmt>,
    },
    AsyncForIn {
        offset: FileOffset,
        body_offset: FileOffset,
        var: Box<VarDecl>,
        iterable: Box<Expr>,
        body: Box<Stmt>,
    },
    Switch {
        offset: FileOffset,
        expr: Box<Expr>,
        cases: Vec<SwitchCase>,
    },
    ContinueSwitch {
        offset: FileOffset,
        case_index: Uint,
    },
    If {
        offset: FileOffset,
        condition: Box<Expr>,
        then_branch: Box<Stmt>,
        otherwise: Box<Stmt>,
    },
    Return {
        offset: FileOffset,
        expr: Option<Box<Expr>>,
    },
    TryCatch {
        body: Box<Stmt>,
        flags: u8,
        catches: Vec<Catch>,
    },
    TryFinally {
        body: Box<Stmt>,
        finalizer: Box<Stmt>,
    },
    Yield {
        offset: FileOffset,
        flags: u8,
        expr: Box<Expr>,
    },
    VarDecl {
        var: Box<VarDecl>,
    },
    FunctionDecl {
        offset: FileOffset,
        var: Box<VarDecl>,
        function: Box<Function>,
    },
}

/// Every count and variable-length integer in the value fits in 30 bits.
pub open spec fn stmt_encodable(v: Stmt) -> bool
    decreases v,
{
    match v {
        Stmt::Expr(f0) => expr_encodable(*f0),
        Stmt::Block { range, statements } => range.encodable() && (statements@.len() < 0x4000_0000 && stmt_items_encodable(statements@)),
        Stmt::AssertBlock { statements } => (statements@.len() < 0x4000_0000 && stmt_items_encodable(statements@)),
        Stmt::Empty => true,
        Stmt::Assert(f0) => assert_encodable(f0),
        Stmt::Labeled { body } => stmt_encodable(*body),
        Stmt::Break { offset, label } => offset.encodable() && label.encodable(),
        Stmt::While { offset, condition, body } => offset.encodable()
            && expr_encodable(*condition)
            && stmt_encodable(*body),
        Stmt::Do { offset, body, condition } => offset.encodable()
            && stmt_encodable(*body)
            && expr_encodable(*condition),
        Stmt::For { offset, vars, condition, updates, body } => offset.encodable()
            && (vars@.len() < 0x4000_0000 && var_decl_items_encodable(vars@))
            && (match condition { Some(x) => expr_encodable(*x), None => true })
            && (updates@.len() < 0x4000_0000 && expr_items_encodable(updates@))
            && stmt_encodable(*body),
        Stmt::ForIn { offset, body_offset, var, iterable, body } => offset.encodable()
            && body_offset.encodable()
            && var_decl_encodable(*var)
            && expr_encodable(*iterable)
            && stmt_encodable(*body),
        Stmt::AsyncForIn { offset, body_offset, var, iterable, body } => offset.encodable()
            && body_offset.encodable()
            && var_decl_encodable(*var)
            && expr_encodable(*iterable)
            && stmt_encodable(*body),
        Stmt::Switch { offset, expr, cases } => offset.encodable()
            && expr_encodable(*expr)
            && (cases@.len() < 0x4000_0000 && switch_case_items_encodable(cases@)),
        Stmt::ContinueSwitch { offset, case_index } => offset.encodable() && case_index.encodable(),
        Stmt::If { offset, condition, then_branch, otherwise } => offset.encodable()
            && expr_encodable(*condition)
            && stmt_encodable(*then_branch)
            && stmt_encodable(*otherwise),
        Stmt::Return { offset, expr } => offset.encodable() && (match expr { Some(x) => expr_encodable(*x), None => true }),
        Stmt::TryCatch { body, flags, catches } => stmt_encodable(*body)
            && flags.encodable()
            && (catches@.len() < 0x4000_0000 && catch_items_encodable(catches@)),
        Stmt::TryFinally { body, finalizer } => stmt_encodable(*body) && stmt_encodable(*finalizer),
        Stmt::Yield { offset, flags, expr } => offset.encodable()
            && flags.encodable()
            && expr_encodable(*expr),
        Stmt::VarDecl { var } => var_decl_encodable(*var),
        Stmt::FunctionDecl { offset, var, function } => offset.encodable()
            && var_decl_encodable(*var)
            && function_encodable(*function),
    }
}

/// The wire form: the discriminator byte, then the fields in order.
pub open spec fn stmt_wire(v: Stmt) -> Seq<u8>
    decreases v,
{
    match v {
        Stmt::Expr(f0) => seq![61u8] + expr_wire(*f0),
        Stmt::Block { range, statements } => seq![62u8] + range.wire() + uint_bytes(statements@.len() as u32) + stmt_items_wire(statements@),
        Stmt::AssertBlock { statements } => seq![81u8] + uint_bytes(statements@.len() as u32) + stmt_items_wire(statements@),
        Stmt::Empty => seq![63u8],
        Stmt::Assert(f0) => seq![64u8] + assert_wire(f0),
        Stmt::Labeled { body } => seq![65u8] + stmt_wire(*body),
        Stmt::Break { offset, label } => seq![66u8] + offset.wire() + label.wire(),
        Stmt::While { offset, condition, body } => seq![67u8]
            + offset.wire()
            + expr_wire(*condition)
            + stmt_wire(*body),
        Stmt::Do { offset, body, condition } => seq![68u8]
            + offset.wire()
            + stmt_wire(*body)
            + expr_wire(*condition),
        Stmt::For { offset, vars, condition, updates, body } => seq![69u8]
            + offset.wire()
            + uint_bytes(vars@.len() as u32) + var_decl_items_wire(vars@)
            + (match condition { Some(x) => seq![1u8] + expr_wire(*x), None => seq![0u8] })
            + uint_bytes(updates@.len() as u32) + expr_items_wire(updates@)
            + stmt_wire(*body),
        Stmt::ForIn { offset, body_offset, var, iterable, body } => seq![70u8]
            + offset.wire()
            + body_offset.wire()
            + var_decl_wire(*var)
            + expr_wire(*iterable)
            + stmt_wire(*body),
        Stmt::AsyncForIn { offset, body_offset, var, iterable, body } => seq![80u8]
            + offset.wire()
            + body_offset.wire()
            + var_decl_wire(*var)
            + expr_wire(*iterable)
            + stmt_wire(*body),
        Stmt::Switch { offset, expr, cases } => seq![71u8]
            + offset.wire()
            + expr_wire(*expr)
            + uint_bytes(cases@.len() as u32) + switch_case_items_wire(cases@),
        Stmt::ContinueSwitch { offset, case_index } => seq![72u8] + offset.wire() + case_index.wire(),
        Stmt::If { offset, condition, then_branch, otherwise } => seq![73u8]
            + offset.wire()
            + expr_wire(*condition)
            + stmt_wire(*then_branch)
            + stmt_wire(*otherwise),
        Stmt::Return { offset, expr } => seq![74u8] + offset.wire() + (match expr { Some(x) => seq![1u8] + expr_wire(*x), None => seq![0u8] }),
        Stmt::TryCatch { body, flags, catches } => seq![75u8]
            + stmt_wire(*body)
            + flags.wire()
            + uint_bytes(catches@.len() as u32) + catch_items_wire(catches@),
        Stmt::TryFinally { body, finalizer } => seq![76u8] + stmt_wire(*body) + stmt_wire(*finalizer),
        Stmt::Yield { offset, flags, expr } => seq![77u8]
            + offset.wire()
            + flags.wire()
            + expr_wire(*expr),
        Stmt::VarDecl { var } => seq![78u8] + var_decl_wire(*var),
        Stmt::FunctionDecl { offset, var, function } => seq![79u8]
            + offset.wire()
            + var_decl_wire(*var)
            + function_wire(*function),
    }
}

/// The discriminator bytes that start a value of this sum.
pub open spec fn is_stmt_tag(b: u8) -> bool {
    b == 61 || b == 62 || b == 81 || b == 63 || b == 64 || b == 65 || b == 66 || b == 67 || b == 68 || b == 69 || b == 70 || b == 80 || b == 71 || b == 72 || b == 73 || b == 74 || b == 75 || b == 76 || b == 77 || b == 78 || b == 79
}

/// Appends the wire form of `v`; fails exactly when a count or integer in it reaches 2^30.
#[verifier::rlimit(100)]
pub fn encode_stmt(v: &Stmt, out: &mut Vec<u8>) -> (r: Result<(), KernelError>)
    ensures
        r is Ok <==> stmt_encodable(*v),
        r is Ok ==> final(out)@ == old(out)@ + stmt_wire(*v),
    decreases v, 1nat,
{
    match v {
        Stmt::Expr(..) | Stmt::Block { .. } | Stmt::AssertBlock { .. } | Stmt::Empty | Stmt::Assert(..) | Stmt::Labeled { .. } | Stmt::Break { .. } | Stmt::While { .. } | Stmt::Do { .. } | Stmt::For { .. } | Stmt::ForIn { .. } | Stmt::AsyncForIn { .. } => encode_stmt_part0(v, out),
        Stmt::Switch { .. } | Stmt::ContinueSwitch { .. } | Stmt::If { .. } | Stmt::Return { .. } | Stmt::TryCatch { .. } | Stmt::TryFinally { .. } | Stmt::Yield { .. } | Stmt::VarDecl { .. } | Stmt::FunctionDecl { .. } => encode_stmt_part1(v, out),
    }
}

/// Appends the wire form of `v`, which is one of the variants its precondition names.
#[verifier::rlimit(100)]
fn encode_stmt_part0(v: &Stmt, out: &mut Vec<u8>) -> (r: Result<(), KernelError>)
    requires
        v is Expr || v is Block || v is AssertBlock || v is Empty || v is Assert || v is Labeled || v is Break || v is While || v is Do || v is For || v is ForIn || v is AsyncForIn,
    ensures
        r is Ok <==> stmt_encodable(*v),
        r is Ok ==> final(out)@ == old(out)@ + stmt_wire(*v),
    decreases v, 0nat,
{
    match v {
        Stmt::Expr(f0) => {
            out.push(61u8);
            let ghost acc0 = seq![61u8];
            encode_expr(f0, out)?;
            proof {
                lemma_concat_associative(old(out)@, acc0, expr_wire(*(*f0)));
            }
            let ghost acc1 = acc0 + expr_wire(*(*f0));
            assert(final(out)@ == old(out)@ + stmt_wire(*v));
        },
        Stmt::Block { range, statements } => {
            out.push(62u8);
            let ghost acc0 = seq![62u8];
            range.encode(out)?;
            proof {
                lemma_concat_associative(old(out)@, acc0, (*range).wire());
            }
            let ghost acc1 = acc0 + (*range).wire();
            encode_stmt_list(statements, out)?;
            proof {
                lemma_concat_associative(old(out)@, acc1, uint_bytes((*statements)@.len() as u32));
            }
            let ghost acc2 = acc1 + uint_bytes((*statements)@.len() as u32);
            proof {
                lemma_concat_associative(old(out)@, acc2, stmt_items_wire((*statements)@));
            }
            let ghost acc3 = acc2 + stmt_items_wire((*statements)@);
            assert(final(out)@ == old(out)@ + stmt_wire(*v));
        },
        Stmt::AssertBlock { statements } => {
            out.push(81u8);
            let ghost acc0 = seq![81u8];
            encode_stmt_list(statements, out)?;
            proof {
                lemma_concat_associative(old(out)@, acc0, uint_bytes((*statements)@.len() as u32));
            }
            let ghost acc1 = acc0 + uint_bytes((*statements)@.len() as u32);
            proof {
                lemma_concat_associative(old(out)@, acc1, stmt_items_wire((*statements)@));
            }
            let ghost acc2 = acc1 + stmt_items_wire((*statements)@);
            assert(final(out)@ == old(out)@ + stmt_wire(*v));
        },
        Stmt::Empty => {
            out.push(63u8);
            let ghost acc0 = seq![63u8];
            assert(final(out)@ == old(out)@ + stmt_wire(*v));
        },
        Stmt::Assert(f0) => {
            out.push(64u8);
            let ghost acc0 = seq![64u8];
            encode_assert(f0, out)?;
            proof {
                lemma_concat_associative(old(out)@, acc0, assert_wire((*f0)));
            }
            let ghost acc1 = acc0 + assert_wire((*f0));
            assert(final(out)@ == old(out)@ + stmt_wire(*v));
        },
        Stmt::Labeled { body } => {
            out.push(65u8);
            let ghost acc0 = seq![65u8];
            encode_stmt(body, out)?;
            proof {
                lemma_concat_associative(old(out)@, acc0, stmt_wire(*(*body)));
            }
            let ghost acc1 = acc0 + stmt_wire(*(*body));
            assert(final(out)@ == old(out)@ + stmt_wire(*v));
        },
        Stmt::Break { offset, label } => {
            out.push(66u8);
            let ghost acc0 = seq![66u8];
            offset.encode(out)?;
            proof {
                lemma_concat_associative(old(out)@, acc0, (*offset).wire());
            }
            let ghost acc1 = acc0 + (*offset).wire();
            label.encode(out)?;
            proof {
                lemma_concat_associative(old(out)@, acc1, (*label).wire());
            }
            let ghost acc2 = acc1 + (*label).wire();
            assert(final(out)@ == old(out)@ + stmt_wire(*v));
        },
        Stmt::While { offset, condition, body } => {
            out.push(67u8);
            let ghost acc0 = seq![67u8];
            offset.encode(out)?;
            proof {
                lemma_concat_associative(old(out)@, acc0, (*offset).wire());
            }
            let ghost acc1 = acc0 + (*offset).wire();
            encode_expr(condition, out)?;
            proof {
                lemma_concat_associative(old(out)@, acc1, expr_wire(*(*condition)));
            }
            let ghost acc2 = acc1 + expr_wire(*(*condition));
            encode_stmt(body, out)?;
            proof {
                lemma_concat_associative(old(out)@, acc2, stmt_wire(*(*body)));
            }
            let ghost acc3 = acc2 + stmt_wire(*(*body));
            assert(final(out)@ == old(out)@ + stmt_wire(*v));
        },
        Stmt::Do { offset, body, condition } => {
            out.push(68u8);
            let ghost acc0 = seq![68u8];
            offset.encode(out)?;
            proof {
                lemma_concat_associative(old(out)@, acc0, (*offset).wire());
            }
            let ghost acc1 = acc0 + (*offset).wire();
            encode_stmt(body, out)?;
            proof {
                lemma_concat_associative(old(out)@, acc1, stmt_wire(*(*body)));
            }
            let ghost acc2 = acc1 + stmt_wire(*(*body));
            encode_expr(condition, out)?;
            proof {
                lemma_concat_associative(old(out)@, acc2, expr_wire(*(*condition)));
            }
            let ghost acc3 = acc2 + expr_wire(*(*condition));
            assert(final(out)@ == old(out)@ + stmt_wire(*v));
        },
        Stmt::For { offset, vars, condition, updates, body } => {
            out.push(69u8);
            let ghost acc0 = seq![69u8];
            offset.encode(out)?;
            proof {
                lemma_concat_associative(old(out)@, acc0, (*offset).wire());
            }
            let ghost acc1 = acc0 + (*offset).wire();
            encode_var_decl_list(vars, out)?;
            proof {
                lemma_concat_associative(old(out)@, acc1, uint_bytes((*vars)@.len() as u32));
            }
            let ghost acc2 = acc1 + uint_bytes((*vars)@.len() as u32);
            proof {
                lemma_concat_associative(old(out)@, acc2, var_decl_items_wire((*vars)@));
            }
            let ghost acc3 = acc2 + var_decl_items_wire((*vars)@);
            match condition {
                Some(x) => {
                    out.push(1u8);
                    encode_expr(x, out)?;
                },
                None => {
                    out.push(0u8);
                },
            }
            proof {
                lemma_concat_associative(old(out)@, acc3, (match &(*condition) { Some(x) => seq![1u8] + expr_wire(**x), None => seq![0u8] }));
            }
            let ghost acc4 = acc3 + (match &(*condition) { Some(x) => seq![1u8] + expr_wire(**x), None => seq![0u8] });
            encode_expr_list(updates, out)?;
            proof {
                lemma_concat_associative(old(out)@, acc4, uint_bytes((*updates)@.len() as u32));
            }
            let ghost acc5 = acc4 + uint_bytes((*updates)@.len() as u32);
            proof {
                lemma_concat_associative(old(out)@, acc5, expr_items_wire((*updates)@));
            }
            let ghost acc6 = acc5 + expr_items_wire((*updates)@);
            encode_stmt(body, out)?;
            proof {
                lemma_concat_associative(old(out)@, acc6, stmt_wire(*(*body)));
            }
            let ghost acc7 = acc6 + stmt_wire(*(*body));
            assert(final(out)@ == old(out)@ + stmt_wire(*v));
        },
        Stmt::ForIn { offset, body_offset, var, iterable, body } => {
            out.push(70u8);
            let ghost acc0 = seq![70u8];
            offset.encode(out)?;
            proof {
                lemma_concat_associative(old(out)@, acc0, (*offset).wire());
            }
            let ghost acc1 = acc0 + (*offset).wire();
            body_offset.encode(out)?;
            proof {
                lemma_concat_associative(old(out)@, acc1, (*body_offset).wire());
            }
            let ghost acc2 = acc1 + (*body_offset).wire();
            encode_var_decl(var, out)?;
            proof {
                lemma_concat_associative(old(out)@, acc2, var_decl_wire(*(*var)));
            }
            let ghost acc3 = acc2 + var_decl_wire(*(*var));
            encode_expr(iterable, out)?;
            proof {
                lemma_concat_associative(old(out)@, acc3, expr_wire(*(*iterable)));
            }
            let ghost acc4 = acc3 + expr_wire(*(*iterable));
            encode_stmt(body, out)?;
            proof {
                lemma_concat_associative(old(out)@, acc4, stmt_wire(*(*body)));
            }
            let ghost acc5 = acc4 + stmt_wire(*(*body));
            assert(final(out)@ == old(out)@ + stmt_wire(*v));
        },
        Stmt::AsyncForIn { offset, body_offset, var, iterable, body } => {
            out.push(80u8);
            let ghost acc0 = seq![80u8];
            offset.encode(out)?;
            proof {
                lemma_concat_associative(old(out)@, acc0, (*offset).wire());
            }
            let ghost acc1 = acc0 + (*offset).wire();
            body_offset.encode(out)?;
            proof {
                lemma_concat_associative(old(out)@, acc1, (*body_offset).wire());
            }
            let ghost acc2 = acc1 + (*body_offset).wire();
            encode_var_decl(var, out)?;
            proof {
                lemma_concat_associative(old(out)@, acc2, var_decl_wire(*(*var)));
            }
            let ghost acc3 = acc2 + var_decl_wire(*(*var));
            encode_expr(iterable, out)?;
            proof {
                lemma_concat_associative(old(out)@, acc3, expr_wire(*(*iterable)));
            }
            let ghost acc4 = acc3 + expr_wire(*(*iterable));
            encode_stmt(body, out)?;
            proof {
                lemma_concat_associative(old(out)@, acc4, stmt_wire(*(*body)));
            }
            let ghost acc5 = acc4 + stmt_wire(*(*body));
            assert(final(out)@ == old(out)@ + stmt_wire(*v));
        },
        _ => {
            assert(false);
        },
    }
    Ok(())
}

/// Appends the wire form of `v`, which is one of the variants its precondition names.
#[verifier::rlimit(100)]
fn encode_stmt_part1(v: &Stmt, out: &mut Vec<u8>) -> (r: Result<(), KernelError>)
    requires
        v is Switch || v is ContinueSwitch || v is If || v is Return || v is TryCatch || v is TryFinally || v is Yield || v is VarDecl || v is FunctionDecl,
    ensures
        r is Ok <==> stmt_encodable(*v),
        r is Ok ==> final(out)@ == old(out)@ + stmt_wire(*v),
    decreases v, 0nat,
{
    match v {
        Stmt::Switch { offset, expr, cases } => {
            out.push(71u8);
            let ghost acc0 = seq![71u8];
            offset.encode(out)?;
            proof {
                lemma_concat_associative(old(out)@, acc0, (*offset).wire());
            }
            let ghost acc1 = acc0 + (*offset).wire();
            encode_expr(expr, out)?;
            proof {
                lemma_concat_associative(old(out)@, acc1, expr_wire(*(*expr)));
            }
            let ghost acc2 = acc1 + expr_wire(*(*expr));
            encode_switch_case_list(cases, out)?;
            proof {
                lemma_concat_associative(old(out)@, acc2, uint_bytes((*cases)@.len() as u32));
            }
            let ghost acc3 = acc2 + uint_bytes((*cases)@.len() as u32);
            proof {
                lemma_concat_associative(old(out)@, acc3, switch_case_items_wire((*cases)@));
            }
            let ghost acc4 = acc3 + switch_case_items_wire((*cases)@);
            assert(final(out)@ == old(out)@ + stmt_wire(*v));
        },
        Stmt::ContinueSwitch { offset, case_index } => {
            out.push(72u8);
            let ghost acc0 = seq![72u8];
            offset.encode(out)?;
            proof {
                lemma_concat_associative(old(out)@, acc0, (*offset).wire());
            }
            let ghost acc1 = acc0 + (*offset).wire();
            case_index.encode(out)?;
            proof {
                lemma_concat_associative(old(out)@, acc1, (*case_index).wire());
            }
            let ghost acc2 = acc1 + (*case_index).wire();
            assert(final(out)@ == old(out)@ + stmt_wire(*v));
        },
        Stmt::If { offset, condition, then_branch, otherwise } => {
            out.push(73u8);
            let ghost acc0 = seq![73u8];
            offset.encode(out)?;
            proof {
                lemma_concat_associative(old(out)@, acc0, (*offset).wire());
            }
            let ghost acc1 = acc0 + (*offset).wire();
            encode_expr(condition, out)?;
            proof {
                lemma_concat_associative(old(out)@, acc1, expr_wire(*(*condition)));
            }
            let ghost acc2 = acc1 + expr_wire(*(*condition));
            encode_stmt(then_branch, out)?;
            proof {
                lemma_concat_associative(old(out)@, acc2, stmt_wire(*(*then_branch)));
            }
            let ghost acc3 = acc2 + stmt_wire(*(*then_branch));
            encode_stmt(otherwise, out)?;
            proof {
                lemma_concat_associative(old(out)@, acc3, stmt_wire(*(*otherwise)));
            }
            let ghost acc4 = acc3 + stmt_wire(*(*otherwise));
            assert(final(out)@ == old(out)@ + stmt_wire(*v));
        },
        Stmt::Return { offset, expr } => {
            out.push(74u8);
            let ghost acc0 = seq![74u8];
            offset.encode(out)?;
            proof {
                lemma_concat_associative(old(out)@, acc0, (*offset).wire());
            }
            let ghost acc1 = acc0 + (*offset).wire();
            match expr {
                Some(x) => {
                    out.push(1u8);
                    encode_expr(x, out)?;
                },
                None => {
                    out.push(0u8);
                },
            }
            proof {
                lemma_concat_associative(old(out)@, acc1, (match &(*expr) { Some(x) => seq![1u8] + expr_wire(**x), None => seq![0u8] }));
            }
            let ghost acc2 = acc1 + (match &(*expr) { Some(x) => seq![1u8] + expr_wire(**x), None => seq![0u8] });
            assert(final(out)@ == old(out)@ + stmt_wire(*v));
        },
        Stmt::TryCatch { body, flags, catches } => {
            out.push(75u8);
            let ghost acc0 = seq![75u8];
            encode_stmt(body, out)?;
            proof {
                lemma_concat_associative(old(out)@, acc0, stmt_wire(*(*body)));
            }
            let ghost acc1 = acc0 + stmt_wire(*(*body));
            flags.encode(out)?;
            proof {
                lemma_concat_associative(old(out)@, acc1, (*flags).wire());
            }
            let ghost acc2 = acc1 + (*flags).wire();
            encode_catch_list(catches, out)?;
            proof {
                lemma_concat_associative(old(out)@, acc2, uint_bytes((*catches)@.len() as u32));
            }
            let ghost acc3 = acc2 + uint_bytes((*catches)@.len() as u32);
            proof {
                lemma_concat_associative(old(out)@, acc3, catch_items_wire((*catches)@));
            }
            let ghost acc4 = acc3 + catch_items_wire((*catches)@);
            assert(final(out)@ == old(out)@ + stmt_wire(*v));
        },
        Stmt::TryFinally { body, finalizer } => {
            out.push(76u8);
            let ghost acc0 = seq![76u8];
            encode_stmt(body, out)?;
            proof {
                lemma_concat_associative(old(out)@, acc0, stmt_wire(*(*body)));
            }
            let ghost acc1 = acc0 + stmt_wire(*(*body));
            encode_stmt(finalizer, out)?;
            proof {
                lemma_concat_associative(old(out)@, acc1, stmt_wire(*(*finalizer)));
            }
            let ghost acc2 = acc1 + stmt_wire(*(*finalizer));
            assert(final(out)@ == old(out)@ + stmt_wire(*v));
        },
        Stmt::Yield { offset, flags, expr } => {
            out.push(77u8);
            let ghost acc0 = seq![77u8];
            offset.encode(out)?;
            proof {
                lemma_concat_associative(old(out)@, acc0, (*offset).wire());
            }
            let ghost acc1 = acc0 + (*offset).wire();
            flags.encode(out)?;
            proof {
                lemma_concat_associative(old(out)@, acc1, (*flags).wire());
            }
            let ghost acc2 = acc1 + (*flags).wire();
            encode_expr(expr, out)?;
            proof {
                lemma_concat_associative(old(out)@, acc2, expr_wire(*(*expr)));
            }
            let ghost acc3 = acc2 + expr_wire(*(*expr));
            assert(final(out)@ == old(out)@ + stmt_wire(*v));
        },
        Stmt::VarDecl { var } => {
            out.push(78u8);
            let ghost acc0 = seq![78u8];
            encode_var_decl(var, out)?;
            proof {
                lemma_concat_associative(old(out)@, acc0, var_decl_wire(*(*var)));
            }
            let ghost acc1 = acc0 + var_decl_wire(*(*var));
            assert(final(out)@ == old(out)@ + stmt_wire(*v));
        },
        Stmt::FunctionDecl { offset, var, function } => {
            out.push(79u8);
            let ghost acc0 = seq![79u8];
            offset.encode(out)?;
            proof {
                lemma_concat_associative(old(out)@, acc0, (*offset).wire());
            }
            let ghost acc1 = acc0 + (*offset).wire();
            encode_var_decl(var, out)?;
            proof {
                lemma_concat_associative(old(out)@, acc1, var_decl_wire(*(*var)));
            }
            let ghost acc2 = acc1 + var_decl_wire(*(*var));
            encode_function(function, out)?;
            proof {
                lemma_concat_associative(old(out)@, acc2, function_wire(*(*function)));
            }
            let ghost acc3 = acc2 + function_wire(*(*function));
            assert(final(out)@ == old(out)@ + stmt_wire(*v));
        },
        _ => {
            assert(false);
        },
    }
    Ok(())
}

/// Reads a value at `*pos` and moves past it.
#[verifier::rlimit(100)]
#[verifier::spinoff_prover]
pub fn decode_stmt(data: &[u8], pos: &mut usize) -> (r: Result<Stmt, KernelError>)
    ensures
        r is Ok ==> *old(pos) < *final(pos) <= data@.len(),
        *old(pos) >= data@.len() ==> r == Err::<Stmt, _>(KernelError::ShortRead),
        *old(pos) < data@.len() && !is_stmt_tag(data@[*old(pos) as int]) ==> r == Err::<Stmt, _>(
            KernelError::UnknownTag { sum: SumKind::Stmt, tag: data@[*old(pos) as int] },
        ),
    decreases data@.len() - *old(pos), 0nat,
{
    let tag = read_u8(data, pos)?;
    match tag {
        61u8 => {
            let f0 = Box::new(decode_expr(data, pos)?);
            Ok(Stmt::Expr(f0))
        },
        62u8 => {
            let range = <FileRange as Codec>::decode(data, pos)?;
            let statements = decode_stmt_list(data, pos)?;
            Ok(Stmt::Block { range, statements })
        },
        81u8 => {
            let statements = decode_stmt_list(data, pos)?;
            Ok(Stmt::AssertBlock { statements })
        },
        63u8 => {
            Ok(Stmt::Empty)
        },
        64u8 => {
            let f0 = decode_assert(data, pos)?;
            Ok(Stmt::Assert(f0))
        },
        65u8 => {
            let body = Box::new(decode_stmt(data, pos)?);
            Ok(Stmt::Labeled { body })
        },
        66u8 => {
            let offset = <FileOffset as Codec>::decode(data, pos)?;
            let label = <Uint as Codec>::decode(data, pos)?;
            Ok(Stmt::Break { offset, label })
        },
        67u8 => {
            let offset = <FileOffset as Codec>::decode(data, pos)?;
            let condition = Box::new(decode_expr(data, pos)?);
            let body = Box::new(decode_stmt(data, pos)?);
            Ok(Stmt::While { offset, condition, body })
        },
        68u8 => {
            let offset = <FileOffset as Codec>::decode(data, pos)?;
            let body = Box::new(decode_stmt(data, pos)?);
            let condition = Box::new(decode_expr(data, pos)?);
            Ok(Stmt::Do { offset, body, condition })
        },
        69u8 => {
            let offset = <FileOffset as Codec>::decode(data, pos)?;
            let vars = decode_var_decl_list(data, pos)?;
            let condition = match read_u8(data, pos)? {
                0u8 => None,
                1u8 => Some(Box::new(decode_expr(data, pos)?)),
                b => {
                    return Err(KernelError::InvalidOption(b));
                },
            };
            let updates = decode_expr_list(data, pos)?;
            let body = Box::new(decode_stmt(data, pos)?);
            Ok(Stmt::For { offset, vars, condition, updates, body })
        },
        70u8 => {
            let offset = <FileOffset as Codec>::decode(data, pos)?;
            let body_offset = <FileOffset as Codec>::decode(data, pos)?;
            let var = Box::new(decode_var_decl(data, pos)?);
            let iterable = Box::new(decode_expr(data, pos)?);
            let body = Box::new(decode_stmt(data, pos)?);
            Ok(Stmt::ForIn { offset, body_offset, var, iterable, body })
        },
        80u8 => {
            let offset = <FileOffset as Codec>::decode(data, pos)?;
            let body_offset = <FileOffset as Codec>::decode(data, pos)?;
            let var = Box::new(decode_var_decl(data, pos)?);
            let iterable = Box::new(decode_expr(data, pos)?);
            let body = Box::new(decode_stmt(data, pos)?);
            Ok(Stmt::AsyncForIn { offset, body_offset, var, iterable, body })
        },
        71u8 => {
            let offset = <FileOffset as Codec>::decode(data, pos)?;
            let expr = Box::new(decode_expr(data, pos)?);
            let cases = decode_switch_case_list(data, pos)?;
            Ok(Stmt::Switch { offset, expr, cases })
        },
        72u8 => {
            let offset = <FileOffset as Codec>::decode(data, pos)?;
            let case_index = <Uint as Codec>::decode(data, pos)?;
            Ok(Stmt::ContinueSwitch { offset, case_index })
        },
        73u8 => {
            let offset = <FileOffset as Codec>::decode(data, pos)?;
            let condition = Box::new(decode_expr(data, pos)?);
            let then_branch = Box::new(decode_stmt(data, pos)?);
            let otherwise = Box::new(decode_stmt(data, pos)?);
            Ok(Stmt::If { offset, condition, then_branch, otherwise })
        },
        74u8 => {
            let offset = <FileOffset as Codec>::decode(data, pos)?;
            let expr = match read_u8(data, pos)? {
                0u8 => None,
                1u8 => Some(Box::new(decode_expr(data, pos)?)),
                b => {
                    return Err(KernelError::InvalidOption(b));
                },
            };
            Ok(Stmt::Return { offset, expr })
        },
        75u8 => {
            let body = Box::new(decode_stmt(data, pos)?);
            let flags = <u8 as Codec>::decode(data, pos)?;
            let catches = decode_catch_list(data, pos)?;
            Ok(Stmt::TryCatch { body, flags, catches })
        },
        76u8 => {
            let body = Box::new(decode_stmt(data, pos)?);
            let finalizer = Box::new(decode_stmt(data, pos)?);
            Ok(Stmt::TryFinally { body, finalizer })
        },
        77u8 => {
            let offset = <FileOffset as Codec>::decode(data, pos)?;
            let flags = <u8 as Codec>::decode(data, pos)?;
            let expr = Box::new(decode_expr(data, pos)?);
            Ok(Stmt::Yield { offset, flags, expr })
        },
        78u8 => {
            let var = Box::new(decode_var_decl(data, pos)?);
            Ok(Stmt::VarDecl { var })
        },
        79u8 => {
            let offset = <FileOffset as Codec>::decode(data, pos)?;
            let var = Box::new(decode_var_decl(data, pos)?);
            let function = Box::new(decode_function(data, pos)?);
            Ok(Stmt::FunctionDecl { offset, var, function })
        },
        _ => Err(KernelError::UnknownTag { sum: SumKind::Stmt, tag }),
    }
}

pub open spec fn stmt_items_encodable(s: Seq<Stmt>) -> bool
    decreases s,
{
    forall|i: int| 0 <= i < s.len() ==> stmt_encodable(#[trigger] s[i])
}

pub open spec fn stmt_items_wire(s: Seq<Stmt>) -> Seq<u8>
    decreases s,
{
    if s.len() == 0 {
        Seq::empty()
    } else {
        stmt_items_wire(s.drop_last()) + stmt_wire(s.last())
    }
}

/// Appends a list: its count, then each item.
pub fn encode_stmt_list(v: &Vec<Stmt>, out: &mut Vec<u8>) -> (r: Result<(), KernelError>)
    ensures
        r is Ok <==> v@.len() < 0x4000_0000 && stmt_items_encodable(v@),
        r is Ok ==> final(out)@ == old(out)@ + uint_bytes(v@.len() as u32) + stmt_items_wire(v@),
    decreases v, 1nat,
{
    if v.len() >= 0x4000_0000 {
        return Err(KernelError::InvalidVarUint);
    }
    Uint(v.len() as u32).encode(out)?;
    let ghost start = out@;
    let mut i: usize = 0;
    while i < v.len()
        invariant
            i <= v.len(),
            stmt_items_encodable(v@.subrange(0, i as int)),
            out@ == start + stmt_items_wire(v@.subrange(0, i as int)),
        decreases v.len() - i,
    {
        let res = encode_stmt(&v[i], out);
        if res.is_err() {
            assert(!stmt_items_encodable(v@)) by {
                assert(!stmt_encodable(v@[i as int]));
            }
            return res;
        }
        proof {
            let s = v@.subrange(0, i + 1);
            assert(s.drop_last() =~= v@.subrange(0, i as int));
            assert forall|k: int| 0 <= k < s.len() implies stmt_encodable(#[trigger] s[k]) by {
                if k < i {
                    assert(s[k] == v@.subrange(0, i as int)[k]);
                }
            }
        }
        i = i + 1;
    }
    assert(v@.subrange(0, i as int) =~= v@);
    Ok(())
}

/// Reads a list: a count, then that many items.
pub fn decode_stmt_list(data: &[u8], pos: &mut usize) -> (r: Result<Vec<Stmt>, KernelError>)
    ensures
        r is Ok ==> *old(pos) < *final(pos) <= data@.len(),
        r is Ok ==> uint_parse(data@, *old(pos) as int) is Some && r->Ok_0@.len() == (uint_parse(data@, *old(pos) as int)->0).0,
        uint_parse(data@, *old(pos) as int) is Some && (uint_parse(data@, *old(pos) as int)->0).0 == 0 ==> r is Ok && r->Ok_0@.len() == 0
            && *final(pos) == (uint_parse(data@, *old(pos) as int)->0).1,
    decreases data@.len() - *old(pos), 0nat,
{
    let n = Uint::decode(data, pos)?;
    let ghost q0 = *pos;
    let mut v: Vec<Stmt> = Vec::new();
    let mut i: u32 = 0;
    while i < n.0
        invariant
            *old(pos) < *pos <= data@.len(),
            i <= n.0,
            v@.len() == i,
            i == 0 ==> *pos == q0,
            uint_parse(data@, *old(pos) as int) == Some((n.0, q0 as int)),
        decreases n.0 - i,
    {
        let x = decode_stmt(data, pos)?;
        v.push(x);
        i = i + 1;
    }
    Ok(v)
}

/// An assertion: a condition, its source range and an optional message.
#[derive(Debug, PartialEq)]
pub struct Assert {
    pub condition: Box<Expr>,
    pub file_range: FileRange,
    pub message: Option<Box<Expr>>,
}

/// Every count and variable-length integer in the value fits in 30 bits.
pub open spec fn assert_encodable(v: Assert) -> bool
    decreases v,
{
    expr_encodable(*v.condition)
    && v.file_range.encodable()
    && (match v.message { Some(x) => expr_encodable(*x), None => true })
}

/// The wire form: the fields in order.
pub open spec fn assert_wire(v: Assert) -> Seq<u8>
    decreases v,
{
    expr_wire(*v.condition) + v.file_range.wire() + (match v.message { Some(x) => seq![1u8] + expr_wire(*x), None => seq![0u8] })
}

/// Appends the wire form of `v`; fails exactly when a count or integer in it reaches 2^30.
#[verifier::rlimit(100)]
pub fn encode_assert(v: &Assert, out: &mut Vec<u8>) -> (r: Result<(), KernelError>)
    ensures
        r is Ok <==> assert_encodable(*v),
        r is Ok ==> final(out)@ == old(out)@ + assert_wire(*v),
    decreases v, 1nat,
{
    encode_expr(&v.condition, out)?;
    let ghost acc0 = expr_wire(*v.condition);
    v.file_range.encode(out)?;
    proof {
        lemma_concat_associative(old(out)@, acc0, v.file_range.wire());
    }
    let ghost acc1 = acc0 + v.file_range.wire();
    match &v.message {
        Some(x) => {
            out.push(1u8);
            encode_expr(x, out)?;
        },
        None => {
            out.push(0u8);
        },
    }
    proof {
        lemma_concat_associative(old(out)@, acc1, (match &v.message { Some(x) => seq![1u8] + expr_wire(**x), None => seq![0u8] }));
    }
    let ghost acc2 = acc1 + (match &v.message { Some(x) => seq![1u8] + expr_wire(**x), None => seq![0u8] });
    assert(final(out)@ == old(out)@ + assert_wire(*v));
    Ok(())
}

/// Reads a value at `*pos` and moves past it.
pub fn decode_assert(data: &[u8], pos: &mut usize) -> (r: Result<Assert, KernelError>)
    ensures
        r is Ok ==> *old(pos) < *final(pos) <= data@.len(),
    decreases data@.len() - *old(pos), 1nat,
{
    let condition = Box::new(decode_expr(data, pos)?);
    let file_range = <FileRange as Codec>::decode(data, pos)?;
    let message = match read_u8(data, pos)? {
        0u8 => None,
        1u8 => Some(Box::new(decode_expr(data, pos)?)),
        b => {
            return Err(KernelError::InvalidOption(b));
        },
    };
    Ok(Assert { condition, file_range, message })
}

pub open spec fn assert_items_encodable(s: Seq<Assert>) -> bool
    decreases s,
{
    forall|i: int| 0 <= i < s.len() ==> assert_encodable(#[trigger] s[i])
}

pub open spec fn assert_items_wire(s: Seq<Assert>) -> Seq<u8>
    decreases s,
{
    if s.len() == 0 {
        Seq::empty()
    } else {
        assert_items_wire(s.drop_last()) + assert_wire(s.last())
    }
}

/// Appends a list: its count, then each item.
pub fn encode_assert_list(v: &Vec<Assert>, out: &mut Vec<u8>) -> (r: Result<(), KernelError>)
    ensures
        r is Ok <==> v@.len() < 0x4000_0000 && assert_items_encodable(v@),
        r is Ok ==> final(out)@ == old(out)@ + uint_bytes(v@.len() as u32) + assert_items_wire(v@),
    decreases v, 1nat,
{
    if v.len() >= 0x4000_0000 {
        return Err(KernelError::InvalidVarUint);
    }
    Uint(v.len() as u32).encode(out)?;
    let ghost start = out@;
    let mut i: usize = 0;
    while i < v.len()
        invariant
            i <= v.len(),
            assert_items_encodable(v@.subrange(0, i as int)),
            out@ == start + assert_items_wire(v@.subrange(0, i as int)),
        decreases v.len() - i,
    {
        let res = encode_assert(&v[i], out);
        if res.is_err() {
            assert(!assert_items_encodable(v@)) by {
                assert(!assert_encodable(v@[i as int]));
            }
            return res;
        }
        proof {
            let s = v@.subrange(0, i + 1);
            assert(s.drop_last() =~= v@.subrange(0, i as int));
            assert forall|k: int| 0 <= k < s.len() implies assert_encodable(#[trigger] s[k]) by {
                if k < i {
                    assert(s[k] == v@.subrange(0, i as int)[k]);
                }
            }
        }
        i = i + 1;
    }
    assert(v@.subrange(0, i as int) =~= v@);
    Ok(())
}

/// Reads a list: a count, then that many items.
pub fn decode_assert_list(data: &[u8], pos: &mut usize) -> (r: Result<Vec<Assert>, KernelError>)
    ensures
        r is Ok ==> *old(pos) < *final(pos) <= data@.len(),
        r is Ok ==> uint_parse(data@, *old(pos) as int) is Some && r->Ok_0@.len() == (uint_parse(data@, *old(pos) as int)->0).0,
        uint_parse(data@, *old(pos) as int) is Some && (uint_parse(data@, *old(pos) as int)->0).0 == 0 ==> r is Ok && r->Ok_0@.len() == 0
            && *final(pos) == (uint_parse(data@, *old(pos) as int)->0).1,
    decreases data@.len() - *old(pos), 0nat,
{
    let n = Uint::decode(data, pos)?;
    let ghost q0 = *pos;
    let mut v: Vec<Assert> = Vec::new();
    let mut i: u32 = 0;
    while i < n.0
        invariant
            *old(pos) < *pos <= data@.len(),
            i <= n.0,
            v@.len() == i,
            i == 0 ==> *pos == q0,
            uint_parse(data@, *old(pos) as int) == Some((n.0, q0 as int)),
        decreases n.0 - i,
    {
        let x = decode_assert(data, pos)?;
        v.push(x);
        i = i + 1;
    }
    Ok(v)
}

/// A constant instance creation with its field values.
#[derive(Debug, PartialEq)]
pub struct InstanceCreate {
    pub offset: FileOffset,
    pub class: CanonicalNameRef,
    pub type_args: Vec<Type>,
    pub field_values: Vec<LabeledExpr<CanonicalNameRef>>,
    pub asserts: Vec<Assert>,
    pub unused_args: Vec<Expr>,
}

/// Every count and variable-length integer in the value fits in 30 bits.
pub open spec fn instance_create_encodable(v: InstanceCreate) -> bool
    decreases v,
{
    v.offset.encodable()
    && v.class.encodable()
    && (v.type_args@.len() < 0x4000_0000 && type_items_encodable(v.type_args@))
    && (v.field_values@.len() < 0x4000_0000 && labeled_name_items_encodable(v.field_values@))
    && (v.asserts@.len() < 0x4000_0000 && assert_items_encodable(v.asserts@))
    && (v.unused_args@.len() < 0x4000_0000 && expr_items_encodable(v.unused_args@))
}

/// The wire form: the fields in order.
pub open spec fn instance_create_wire(v: InstanceCreate) -> Seq<u8>
    decreases v,
{
    v.offset.wire()
    + v.class.wire()
    + uint_bytes(v.type_args@.len() as u32) + type_items_wire(v.type_args@)
    + uint_bytes(v.field_values@.len() as u32) + labeled_name_items_wire(v.field_values@)
    + uint_bytes(v.asserts@.len() as u32) + assert_items_wire(v.asserts@)
    + uint_bytes(v.unused_args@.len() as u32) + expr_items_wire(v.unused_args@)
}

/// Appends the wire form of `v`; fails exactly when a count or integer in it reaches 2^30.
#[verifier::rlimit(100)]
pub fn encode_instance_create(v: &InstanceCreate, out: &mut Vec<u8>) -> (r: Result<(), KernelError>)
    ensures
        r is Ok <==> instance_create_encodable(*v),
        r is Ok ==> final(out)@ == old(out)@ + instance_create_wire(*v),
    decreases v, 1nat,
{
    v.offset.encode(out)?;
    let ghost acc0 = v.offset.wire();
    v.class.encode(out)?;
    proof {
        lemma_concat_associative(old(out)@, acc0, v.class.wire());
    }
    let ghost acc1 = acc0 + v.class.wire();
    encode_type_list(&v.type_args, out)?;
    proof {
        lemma_concat_associative(old(out)@, acc1, uint_bytes(v.type_args@.len() as u32));
    }
    let ghost acc2 = acc1 + uint_bytes(v.type_args@.len() as u32);
    proof {
        lemma_concat_associative(old(out)@, acc2, type_items_wire(v.type_args@));
    }
    let ghost acc3 = acc2 + type_items_wire(v.type_args@);
    encode_labeled_name_list(&v.field_values, out)?;
    proof {
        lemma_concat_associative(old(out)@, acc3, uint_bytes(v.field_values@.len() as u32));
    }
    let ghost acc4 = acc3 + uint_bytes(v.field_values@.len() as u32);
    proof {
        lemma_concat_associative(old(out)@, acc4, labeled_name_items_wire(v.field_values@));
    }
    let ghost acc5 = acc4 + labeled_name_items_wire(v.field_values@);
    encode_assert_list(&v.asserts, out)?;
    proof {
        lemma_concat_associative(old(out)@, acc5, uint_bytes(v.asserts@.len() as u32));
    }
    let ghost acc6 = acc5 + uint_bytes(v.asserts@.len() as u32);
    proof {
        lemma_concat_associative(old(out)@, acc6, assert_items_wire(v.asserts@));
    }
    let ghost acc7 = acc6 + assert_items_wire(v.asserts@);
    encode_expr_list(&v.unused_args, out)?;
    proof {
        lemma_concat_associative(old(out)@, acc7, uint_bytes(v.unused_args@.len() as u32));
    }
    let ghost acc8 = acc7 + uint_bytes(v.unused_args@.len() as u32);
    proof {
        lemma_concat_associative(old(out)@, acc8, expr_items_wire(v.unused_args@));
    }
    let ghost acc9 = acc8 + expr_items_wire(v.unused_args@);
    assert(final(out)@ == old(out)@ + instance_create_wire(*v));
    Ok(())
}

/// Reads a value at `*pos` and moves past it.
pub fn decode_instance_create(data: &[u8], pos: &mut usize) -> (r: Result<InstanceCreate, KernelError>)
    ensures
        r is Ok ==> *old(pos) < *final(pos) <= data@.len(),
    decreases data@.len() - *old(pos), 0nat,
{
    let offset = <FileOffset as Codec>::decode(data, pos)?;
    let class = <CanonicalNameRef as Codec>::decode(data, pos)?;
    let type_args = decode_type_list(data, pos)?;
    let field_values = decode_labeled_name_list(data, pos)?;
    let asserts = decode_assert_list(data, pos)?;
    let unused_args = decode_expr_list(data, pos)?;
    Ok(InstanceCreate { offset, class, type_args, field_values, asserts, unused_args })
}

/// Every count and variable-length integer in the value fits in 30 bits.
pub open spec fn labeled_expr_encodable(v: LabeledExpr<Expr>) -> bool
    decreases v,
{
    expr_encodable(v.label) && expr_encodable(v.value)
}

/// The wire form: the fields in order.
pub open spec fn labeled_expr_wire(v: LabeledExpr<Expr>) -> Seq<u8>
    decreases v,
{
    expr_wire(v.label) + expr_wire(v.value)
}

/// Appends the wire form of `v`; fails exactly when a count or integer in it reaches 2^30.
#[verifier::rlimit(100)]
pub fn encode_labeled_expr(v: &LabeledExpr<Expr>, out: &mut Vec<u8>) -> (r: Result<(), KernelError>)
    ensures
        r is Ok <==> labeled_expr_encodable(*v),
        r is Ok ==> final(out)@ == old(out)@ + labeled_expr_wire(*v),
    decreases v, 1nat,
{
    encode_expr(&v.label, out)?;
    let ghost acc0 = expr_wire(v.label);
    encode_expr(&v.value, out)?;
    proof {
        lemma_concat_associative(old(out)@, acc0, expr_wire(v.value));
    }
    let ghost acc1 = acc0 + expr_wire(v.value);
    assert(final(out)@ == old(out)@ + labeled_expr_wire(*v));
    Ok(())
}

/// Reads a value at `*pos` and moves past it.
pub fn decode_labeled_expr(data: &[u8], pos: &mut usize) -> (r: Result<LabeledExpr<Expr>, KernelError>)
    ensures
        r is Ok ==> *old(pos) < *final(pos) <= data@.len(),
    decreases data@.len() - *old(pos), 1nat,
{
    let label = decode_expr(data, pos)?;
    let value = decode_expr(data, pos)?;
    Ok(LabeledExpr { label, value })
}

pub open spec fn labeled_expr_items_encodable(s: Seq<LabeledExpr<Expr>>) -> bool
    decreases s,
{
    forall|i: int| 0 <= i < s.len() ==> labeled_expr_encodable(#[trigger] s[i])
}

pub open spec fn labeled_expr_items_wire(s: Seq<LabeledExpr<Expr>>) -> Seq<u8>
    decreases s,
{
    if s.len() == 0 {
        Seq::empty()
    } else {
        labeled_expr_items_wire(s.drop_last()) + labeled_expr_wire(s.last())
    }
}

/// Appends a list: its count, then each item.
pub fn encode_labeled_expr_list(v: &Vec<LabeledExpr<Expr>>, out: &mut Vec<u8>) -> (r: Result<(), KernelError>)
    ensures
        r is Ok <==> v@.len() < 0x4000_0000 && labeled_expr_items_encodable(v@),
        r is Ok ==> final(out)@ == old(out)@ + uint_bytes(v@.len() as u32) + labeled_expr_items_wire(v@),
    decreases v, 1nat,
{
    if v.len() >= 0x4000_0000 {
        return Err(KernelError::InvalidVarUint);
    }
    Uint(v.len() as u32).encode(out)?;
    let ghost start = out@;
    let mut i: usize = 0;
    while i < v.len()
        invariant
            i <= v.len(),
            labeled_expr_items_encodable(v@.subrange(0, i as int)),
            out@ == start + labeled_expr_items_wire(v@.subrange(0, i as int)),
        decreases v.len() - i,
    {
        let res = encode_labeled_expr(&v[i], out);
        if res.is_err() {
            assert(!labeled_expr_items_encodable(v@)) by {
                assert(!labeled_expr_encodable(v@[i as int]));
            }
            return res;
        }
        proof {
            let s = v@.subrange(0, i + 1);
            assert(s.drop_last() =~= v@.subrange(0, i as int));
            assert forall|k: int| 0 <= k < s.len() implies labeled_expr_encodable(#[trigger] s[k]) by {
                if k < i {
                    assert(s[k] == v@.subrange(0, i as int)[k]);
                }
            }
        }
        i = i + 1;
    }
    assert(v@.subrange(0, i as int) =~= v@);
    Ok(())
}

/// Reads a list: a count, then that many items.
pub fn decode_labeled_expr_list(data: &[u8], pos: &mut usize) -> (r: Result<Vec<LabeledExpr<Expr>>, KernelError>)
    ensures
        r is Ok ==> *old(pos) < *final(pos) <= data@.len(),
        r is Ok ==> uint_parse(data@, *old(pos) as int) is Some && r->Ok_0@.len() == (uint_parse(data@, *old(pos) as int)->0).0,
        uint_parse(data@, *old(pos) as int) is Some && (uint_parse(data@, *old(pos) as int)->0).0 == 0 ==> r is Ok && r->Ok_0@.len() == 0
            && *final(pos) == (uint_parse(data@, *old(pos) as int)->0).1,
    decreases data@.len() - *old(pos), 0nat,
{
    let n = Uint::decode(data, pos)?;
    let ghost q0 = *pos;
    let mut v: Vec<LabeledExpr<Expr>> = Vec::new();
    let mut i: u32 = 0;
    while i < n.0
        invariant
            *old(pos) < *pos <= data@.len(),
            i <= n.0,
            v@.len() == i,
            i == 0 ==> *pos == q0,
            uint_parse(data@, *old(pos) as int) == Some((n.0, q0 as int)),
        decreases n.0 - i,
    {
        let x = decode_labeled_expr(data, pos)?;
        v.push(x);
        i = i + 1;
    }
    Ok(v)
}

/// Every count and variable-length integer in the value fits in 30 bits.
pub open spec fn labeled_name_encodable(v: LabeledExpr<CanonicalNameRef>) -> bool
    decreases v,
{
    v.label.encodable() && expr_encodable(v.value)
}

/// The wire form: the fields in order.
pub open spec fn labeled_name_wire(v: LabeledExpr<CanonicalNameRef>) -> Seq<u8>
    decreases v,
{
    v.label.wire() + expr_wire(v.value)
}

/// Appends the wire form of `v`; fails exactly when a count or integer in it reaches 2^30.
#[verifier::rlimit(100)]
pub fn encode_labeled_name(v: &LabeledExpr<CanonicalNameRef>, out: &mut Vec<u8>) -> (r: Result<(), KernelError>)
    ensures
        r is Ok <==> labeled_name_encodable(*v),
        r is Ok ==> final(out)@ == old(out)@ + labeled_name_wire(*v),
    decreases v, 1nat,
{
    v.label.encode(out)?;
    let ghost acc0 = v.label.wire();
    encode_expr(&v.value, out)?;
    proof {
        lemma_concat_associative(old(out)@, acc0, expr_wire(v.value));
    }
    let ghost acc1 = acc0 + expr_wire(v.value);
    assert(final(out)@ == old(out)@ + labeled_name_wire(*v));
    Ok(())
}

/// Reads a value at `*pos` and moves past it.
pub fn decode_labeled_name(data: &[u8], pos: &mut usize) -> (r: Result<LabeledExpr<CanonicalNameRef>, KernelError>)
    ensures
        r is Ok ==> *old(pos) < *final(pos) <= data@.len(),
    decreases data@.len() - *old(pos), 0nat,
{
    let label = <CanonicalNameRef as Codec>::decode(data, pos)?;
    let value = decode_expr(data, pos)?;
    Ok(LabeledExpr { label, value })
}

pub open spec fn labeled_name_items_encodable(s: Seq<LabeledExpr<CanonicalNameRef>>) -> bool
    decreases s,
{
    forall|i: int| 0 <= i < s.len() ==> labeled_name_encodable(#[trigger] s[i])
}

pub open spec fn labeled_name_items_wire(s: Seq<LabeledExpr<CanonicalNameRef>>) -> Seq<u8>
    decreases s,
{
    if s.len() == 0 {
        Seq::empty()
    } else {
        labeled_name_items_wire(s.drop_last()) + labeled_name_wire(s.last())
    }
}

/// Appends a list: its count, then each item.
pub fn encode_labeled_name_list(v: &Vec<LabeledExpr<CanonicalNameRef>>, out: &mut Vec<u8>) -> (r: Result<(), KernelError>)
    ensures
        r is Ok <==> v@.len() < 0x4000_0000 && labeled_name_items_encodable(v@),
        r is Ok ==> final(out)@ == old(out)@ + uint_bytes(v@.len() as u32) + labeled_name_items_wire(v@),
    decreases v, 1nat,
{
    if v.len() >= 0x4000_0000 {
        return Err(KernelError::InvalidVarUint);
    }
    Uint(v.len() as u32).encode(out)?;
    let ghost start = out@;
    let mut i: usize = 0;
    while i < v.len()
        invariant
            i <= v.len(),
            labeled_name_items_encodable(v@.subrange(0, i as int)),
            out@ == start + labeled_name_items_wire(v@.subrange(0, i as int)),
        decreases v.len() - i,
    {
        let res = encode_labeled_name(&v[i], out);
        if res.is_err() {
            assert(!labeled_name_items_encodable(v@)) by {
                assert(!labeled_name_encodable(v@[i as int]));
            }
            return res;
        }
        proof {
            let s = v@.subrange(0, i + 1);
            assert(s.drop_last() =~= v@.subrange(0, i as int));
            assert forall|k: int| 0 <= k < s.len() implies labeled_name_encodable(#[trigger] s[k]) by {
                if k < i {
                    assert(s[k] == v@.subrange(0, i as int)[k]);
                }
            }
        }
        i = i + 1;
    }
    assert(v@.subrange(0, i as int) =~= v@);
    Ok(())
}

/// Reads a list: a count, then that many items.
pub fn decode_labeled_name_list(data: &[u8], pos: &mut usize) -> (r: Result<Vec<LabeledExpr<CanonicalNameRef>>, KernelError>)
    ensures
        r is Ok ==> *old(pos) < *final(pos) <= data@.len(),
        r is Ok ==> uint_parse(data@, *old(pos) as int) is Some && r->Ok_0@.len() == (uint_parse(data@, *old(pos) as int)->0).0,
        uint_parse(data@, *old(pos) as int) is Some && (uint_parse(data@, *old(pos) as int)->0).0 == 0 ==> r is Ok && r->Ok_0@.len() == 0
            && *final(pos) == (uint_parse(data@, *old(pos) as int)->0).1,
    decreases data@.len() - *old(pos), 0nat,
{
    let n = Uint::decode(data, pos)?;
    let ghost q0 = *pos;
    let mut v: Vec<LabeledExpr<CanonicalNameRef>> = Vec::new();
    let mut i: u32 = 0;
    while i < n.0
        invariant
            *old(pos) < *pos <= data@.len(),
            i <= n.0,
            v@.len() == i,
            i == 0 ==> *pos == q0,
            uint_parse(data@, *old(pos) as int) == Some((n.0, q0 as int)),
        decreases n.0 - i,
    {
        let x = decode_labeled_name(data, pos)?;
        v.push(x);
        i = i + 1;
    }
    Ok(v)
}

/// Every count and variable-length integer in the value fits in 30 bits.
pub open spec fn labeled_string_encodable(v: LabeledExpr<StringRef>) -> bool
    decreases v,
{
    v.label.encodable() && expr_encodable(v.value)
}

/// The wire form: the fields in order.
pub open spec fn labeled_string_wire(v: LabeledExpr<StringRef>) -> Seq<u8>
    decreases v,
{
    v.label.wire() + expr_wire(v.value)
}

/// Appends the wire form of `v`; fails exactly when a count or integer in it reaches 2^30.
#[verifier::rlimit(100)]
pub fn encode_labeled_string(v: &LabeledExpr<StringRef>, out: &mut Vec<u8>) -> (r: Result<(), KernelError>)
    ensures
        r is Ok <==> labeled_string_encodable(*v),
        r is Ok ==> final(out)@ == old(out)@ + labeled_string_wire(*v),
    decreases v, 1nat,
{
    v.label.encode(out)?;
    let ghost acc0 = v.label.wire();
    encode_expr(&v.value, out)?;
    proof {
        lemma_concat_associative(old(out)@, acc0, expr_wire(v.value));
    }
    let ghost acc1 = acc0 + expr_wire(v.value);
    assert(final(out)@ == old(out)@ + labeled_string_wire(*v));
    Ok(())
}

/// Reads a value at `*pos` and moves past it.
pub fn decode_labeled_string(data: &[u8], pos: &mut usize) -> (r: Result<LabeledExpr<StringRef>, KernelError>)
    ensures
        r is Ok ==> *old(pos) < *final(pos) <= data@.len(),
    decreases data@.len() - *old(pos), 0nat,
{
    let label = <StringRef as Codec>::decode(data, pos)?;
    let value = decode_expr(data, pos)?;
    Ok(LabeledExpr { label, value })
}

pub open spec fn labeled_string_items_encodable(s: Seq<LabeledExpr<StringRef>>) -> bool
    decreases s,
{
    forall|i: int| 0 <= i < s.len() ==> labeled_string_encodable(#[trigger] s[i])
}

pub open spec fn labeled_string_items_wire(s: Seq<LabeledExpr<StringRef>>) -> Seq<u8>
    decreases s,
{
    if s.len() == 0 {
        Seq::empty()
    } else {
        labeled_string_items_wire(s.drop_last()) + labeled_string_wire(s.last())
    }
}

/// Appends a list: its count, then each item.
pub fn encode_labeled_string_list(v: &Vec<LabeledExpr<StringRef>>, out: &mut Vec<u8>) -> (r: Result<(), KernelError>)
    ensures
        r is Ok <==> v@.len() < 0x4000_0000 && labeled_string_items_encodable(v@),
        r is Ok ==> final(out)@ == old(out)@ + uint_bytes(v@.len() as u32) + labeled_string_items_wire(v@),
    decreases v, 1nat,
{
    if v.len() >= 0x4000_0000 {
        return Err(KernelError::InvalidVarUint);
    }
    Uint(v.len() as u32).encode(out)?;
    let ghost start = out@;
    let mut i: usize = 0;
    while i < v.len()
        invariant
            i <= v.len(),
            labeled_string_items_encodable(v@.subrange(0, i as int)),
            out@ == start + labeled_string_items_wire(v@.subrange(0, i as int)),
        decreases v.len() - i,
    {
        let res = encode_labeled_string(&v[i], out);
        if res.is_err() {
            assert(!labeled_string_items_encodable(v@)) by {
                assert(!labeled_string_encodable(v@[i as int]));
            }
            return res;
        }
        proof {
            let s = v@.subrange(0, i + 1);
            assert(s.drop_last() =~= v@.subrange(0, i as int));
            assert forall|k: int| 0 <= k < s.len() implies labeled_string_encodable(#[trigger] s[k]) by {
                if k < i {
                    assert(s[k] == v@.subrange(0, i as int)[k]);
                }
            }
        }
        i = i + 1;
    }
    assert(v@.subrange(0, i as int) =~= v@);
    Ok(())
}

/// Reads a list: a count, then that many items.
pub fn decode_labeled_string_list(data: &[u8], pos: &mut usize) -> (r: Result<Vec<LabeledExpr<StringRef>>, KernelError>)
    ensures
        r is Ok ==> *old(pos) < *final(pos) <= data@.len(),
        r is Ok ==> uint_parse(data@, *old(pos) as int) is Some && r->Ok_0@.len() == (uint_parse(data@, *old(pos) as int)->0).0,
        uint_parse(data@, *old(pos) as int) is Some && (uint_parse(data@, *old(pos) as int)->0).0 == 0 ==> r is Ok && r->Ok_0@.len() == 0
            && *final(pos) == (uint_parse(data@, *old(pos) as int)->0).1,
    decreases data@.len() - *old(pos), 0nat,
{
    let n = Uint::decode(data, pos)?;
    let ghost q0 = *pos;
    let mut v: Vec<LabeledExpr<StringRef>> = Vec::new();
    let mut i: u32 = 0;
    while i < n.0
        invariant
            *old(pos) < *pos <= data@.len(),
            i <= n.0,
            v@.len() == i,
            i == 0 ==> *pos == q0,
            uint_parse(data@, *old(pos) as int) == Some((n.0, q0 as int)),
        decreases n.0 - i,
    {
        let x = decode_labeled_string(data, pos)?;
        v.push(x);
        i = i + 1;
    }
    Ok(v)
}

/// Every count and variable-length integer in the value fits in 30 bits.
pub open spec fn labeled_offset_encodable(v: LabeledExpr<FileOffset>) -> bool
    decreases v,
{
    v.label.encodable() && expr_encodable(v.value)
}

/// The wire form: the fields in order.
pub open spec fn labeled_offset_wire(v: LabeledExpr<FileOffset>) -> Seq<u8>
    decreases v,
{
    v.label.wire() + expr_wire(v.value)
}

/// Appends the wire form of `v`; fails exactly when a count or integer in it reaches 2^30.
#[verifier::rlimit(100)]
pub fn encode_labeled_offset(v: &LabeledExpr<FileOffset>, out: &mut Vec<u8>) -> (r: Result<(), KernelError>)
    ensures
        r is Ok <==> labeled_offset_encodable(*v),
        r is Ok ==> final(out)@ == old(out)@ + labeled_offset_wire(*v),
    decreases v, 1nat,
{
    v.label.encode(out)?;
    let ghost acc0 = v.label.wire();
    encode_expr(&v.value, out)?;
    proof {
        lemma_concat_associative(old(out)@, acc0, expr_wire(v.value));
    }
    let ghost acc1 = acc0 + expr_wire(v.value);
    assert(final(out)@ == old(out)@ + labeled_offset_wire(*v));
    Ok(())
}

/// Reads a value at `*pos` and moves past it.
pub fn decode_labeled_offset(data: &[u8], pos: &mut usize) -> (r: Result<LabeledExpr<FileOffset>, KernelError>)
    ensures
        r is Ok ==> *old(pos) < *final(pos) <= data@.len(),
    decreases data@.len() - *old(pos), 0nat,
{
    let label = <FileOffset as Codec>::decode(data, pos)?;
    let value = decode_expr(data, pos)?;
    Ok(LabeledExpr { label, value })
}

pub open spec fn labeled_offset_items_encodable(s: Seq<LabeledExpr<FileOffset>>) -> bool
    decreases s,
{
    forall|i: int| 0 <= i < s.len() ==> labeled_offset_encodable(#[trigger] s[i])
}

pub open spec fn labeled_offset_items_wire(s: Seq<LabeledExpr<FileOffset>>) -> Seq<u8>
    decreases s,
{
    if s.len() == 0 {
        Seq::empty()
    } else {
        labeled_offset_items_wire(s.drop_last()) + labeled_offset_wire(s.last())
    }
}

/// Appends a list: its count, then each item.
pub fn encode_labeled_offset_list(v: &Vec<LabeledExpr<FileOffset>>, out: &mut Vec<u8>) -> (r: Result<(), KernelError>)
    ensures
        r is Ok <==> v@.len() < 0x4000_0000 && labeled_offset_items_encodable(v@),
        r is Ok ==> final(out)@ == old(out)@ + uint_bytes(v@.len() as u32) + labeled_offset_items_wire(v@),
    decreases v, 1nat,
{
    if v.len() >= 0x4000_0000 {
        return Err(KernelError::InvalidVarUint);
    }
    Uint(v.len() as u32).encode(out)?;
    let ghost start = out@;
    let mut i: usize = 0;
    while i < v.len()
        invariant
            i <= v.len(),
            labeled_offset_items_encodable(v@.subrange(0, i as int)),
            out@ == start + labeled_offset_items_wire(v@.subrange(0, i as int)),
        decreases v.len() - i,
    {
        let res = encode_labeled_offset(&v[i], out);
        if res.is_err() {
            assert(!labeled_offset_items_encodable(v@)) by {
                assert(!labeled_offset_encodable(v@[i as int]));
            }
            return res;
        }
        proof {
            let s = v@.subrange(0, i + 1);
            assert(s.drop_last() =~= v@.subrange(0, i as int));
            assert forall|k: int| 0 <= k < s.len() implies labeled_offset_encodable(#[trigger] s[k]) by {
                if k < i {
                    assert(s[k] == v@.subrange(0, i as int)[k]);
                }
            }
        }
        i = i + 1;
    }
    assert(v@.subrange(0, i as int) =~= v@);
    Ok(())
}

/// Reads a list: a count, then that many items.
pub fn decode_labeled_offset_list(data: &[u8], pos: &mut usize) -> (r: Result<Vec<LabeledExpr<FileOffset>>, KernelError>)
    ensures
        r is Ok ==> *old(pos) < *final(pos) <= data@.len(),
        r is Ok ==> uint_parse(data@, *old(pos) as int) is Some && r->Ok_0@.len() == (uint_parse(data@, *old(pos) as int)->0).0,
        uint_parse(data@, *old(pos) as int) is Some && (uint_parse(data@, *old(pos) as int)->0).0 == 0 ==> r is Ok && r->Ok_0@.len() == 0
            && *final(pos) == (uint_parse(data@, *old(pos) as int)->0).1,
    decreases data@.len() - *old(pos), 0nat,
{
    let n = Uint::decode(data, pos)?;
    let ghost q0 = *pos;
    let mut v: Vec<LabeledExpr<FileOffset>> = Vec::new();
    let mut i: u32 = 0;
    while i < n.0
        invariant
            *old(pos) < *pos <= data@.len(),
            i <= n.0,
            v@.len() == i,
            i == 0 ==> *pos == q0,
            uint_parse(data@, *old(pos) as int) == Some((n.0, q0 as int)),
        decreases n.0 - i,
    {
        let x = decode_labeled_offset(data, pos)?;
        v.push(x);
        i = i + 1;
    }
    Ok(v)
}

/// The arguments of an invocation.
#[derive(Debug, PartialEq)]
pub struct Arguments {
    pub num_args: Uint,
    pub types: Vec<Type>,
    pub positional: Vec<Expr>,
    pub named: Vec<LabeledExpr<StringRef>>,
}

/// Every count and variable-length integer in the value fits in 30 bits.
pub open spec fn arguments_encodable(v: Arguments) -> bool
    decreases v,
{
    v.num_args.encodable()
    && (v.types@.len() < 0x4000_0000 && type_items_encodable(v.types@))
    && (v.positional@.len() < 0x4000_0000 && expr_items_encodable(v.positional@))
    && (v.named@.len() < 0x4000_0000 && labeled_string_items_encodable(v.named@))
}

/// The wire form: the fields in order.
pub open spec fn arguments_wire(v: Arguments) -> Seq<u8>
    decreases v,
{
    v.num_args.wire()
    + uint_bytes(v.types@.len() as u32) + type_items_wire(v.types@)
    + uint_bytes(v.positional@.len() as u32) + expr_items_wire(v.positional@)
    + uint_bytes(v.named@.len() as u32) + labeled_string_items_wire(v.named@)
}

/// Appends the wire form of `v`; fails exactly when a count or integer in it reaches 2^30.
#[verifier::rlimit(100)]
pub fn encode_arguments(v: &Arguments, out: &mut Vec<u8>) -> (r: Result<(), KernelError>)
    ensures
        r is Ok <==> arguments_encodable(*v),
        r is Ok ==> final(out)@ == old(out)@ + arguments_wire(*v),
    decreases v, 1nat,
{
    v.num_args.encode(out)?;
    let ghost acc0 = v.num_args.wire();
    encode_type_list(&v.types, out)?;
    proof {
        lemma_concat_associative(old(out)@, acc0, uint_bytes(v.types@.len() as u32));
    }
    let ghost acc1 = acc0 + uint_bytes(v.types@.len() as u32);
    proof {
        lemma_concat_associative(old(out)@, acc1, type_items_wire(v.types@));
    }
    let ghost acc2 = acc1 + type_items_wire(v.types@);
    encode_expr_list(&v.positional, out)?;
    proof {
        lemma_concat_associative(old(out)@, acc2, uint_bytes(v.positional@.len() as u32));
    }
    let ghost acc3 = acc2 + uint_bytes(v.positional@.len() as u32);
    proof {
        lemma_concat_associative(old(out)@, acc3, expr_items_wire(v.positional@));
    }
    let ghost acc4 = acc3 + expr_items_wire(v.positional@);
    encode_labeled_string_list(&v.named, out)?;
    proof {
        lemma_concat_associative(old(out)@, acc4, uint_bytes(v.named@.len() as u32));
    }
    let ghost acc5 = acc4 + uint_bytes(v.named@.len() as u32);
    proof {
        lemma_concat_associative(old(out)@, acc5, labeled_string_items_wire(v.named@));
    }
    let ghost acc6 = acc5 + labeled_string_items_wire(v.named@);
    assert(final(out)@ == old(out)@ + arguments_wire(*v));
    Ok(())
}

/// Reads a value at `*pos` and moves past it.
pub fn decode_arguments(data: &[u8], pos: &mut usize) -> (r: Result<Arguments, KernelError>)
    ensures
        r is Ok ==> *old(pos) < *final(pos) <= data@.len(),
    decreases data@.len() - *old(pos), 0nat,
{
    let num_args = <Uint as Codec>::decode(data, pos)?;
    let types = decode_type_list(data, pos)?;
    let positional = decode_expr_list(data, pos)?;
    let named = decode_labeled_string_list(data, pos)?;
    Ok(Arguments { num_args, types, positional, named })
}

/// A catch clause of a try statement.
#[derive(Debug, PartialEq)]
pub struct Catch {
    pub offset: FileOffset,
    pub guard: Type,
    pub exception: Option<VarDecl>,
    pub stack_trace: Option<VarDecl>,
    pub body: Box<Stmt>,
}

/// Every count and variable-length integer in the value fits in 30 bits.
pub open spec fn catch_encodable(v: Catch) -> bool
    decreases v,
{
    v.offset.encodable()
    && type_encodable(v.guard)
    && (match v.exception { Some(x) => var_decl_encodable(x), None => true })
    && (match v.stack_trace { Some(x) => var_decl_encodable(x), None => true })
    && stmt_encodable(*v.body)
}

/// The wire form: the fields in order.
pub open spec fn catch_wire(v: Catch) -> Seq<u8>
    decreases v,
{
    v.offset.wire()
    + type_wire(v.guard)
    + (match v.exception { Some(x) => seq![1u8] + var_decl_wire(x), None => seq![0u8] })
    + (match v.stack_trace { Some(x) => seq![1u8] + var_decl_wire(x), None => seq![0u8] })
    + stmt_wire(*v.body)
}

/// Appends the wire form of `v`; fails exactly when a count or integer in it reaches 2^30.
#[verifier::rlimit(100)]
pub fn encode_catch(v: &Catch, out: &mut Vec<u8>) -> (r: Result<(), KernelError>)
    ensures
        r is Ok <==> catch_encodable(*v),
        r is Ok ==> final(out)@ == old(out)@ + catch_wire(*v),
    decreases v, 1nat,
{
    v.offset.encode(out)?;
    let ghost acc0 = v.offset.wire();
    encode_type(&v.guard, out)?;
    proof {
        lemma_concat_associative(old(out)@, acc0, type_wire(v.guard));
    }
    let ghost acc1 = acc0 + type_wire(v.guard);
    match &v.exception {
        Some(x) => {
            out.push(1u8);
            encode_var_decl(x, out)?;
        },
        None => {
            out.push(0u8);
        },
    }
    proof {
        lemma_concat_associative(old(out)@, acc1, (match &v.exception { Some(x) => seq![1u8] + var_decl_wire(*x), None => seq![0u8] }));
    }
    let ghost acc2 = acc1 + (match &v.exception { Some(x) => seq![1u8] + var_decl_wire(*x), None => seq![0u8] });
    match &v.stack_trace {
        Some(x) => {
            out.push(1u8);
            encode_var_decl(x, out)?;
        },
        None => {
            out.push(0u8);
        },
    }
    proof {
        lemma_concat_associative(old(out)@, acc2, (match &v.stack_trace { Some(x) => seq![1u8] + var_decl_wire(*x), None => seq![0u8] }));
    }
    let ghost acc3 = acc2 + (match &v.stack_trace { Some(x) => seq![1u8] + var_decl_wire(*x), None => seq![0u8] });
    encode_stmt(&v.body, out)?;
    proof {
        lemma_concat_associative(old(out)@, acc3, stmt_wire(*v.body));
    }
    let ghost acc4 = acc3 + stmt_wire(*v.body);
    assert(final(out)@ == old(out)@ + catch_wire(*v));
    Ok(())
}

/// Reads a value at `*pos` and moves past it.
pub fn decode_catch(data: &[u8], pos: &mut usize) -> (r: Result<Catch, KernelError>)
    ensures
        r is Ok ==> *old(pos) < *final(pos) <= data@.len(),
    decreases data@.len() - *old(pos), 0nat,
{
    let offset = <FileOffset as Codec>::decode(data, pos)?;
    let guard = decode_type(data, pos)?;
    let exception = match read_u8(data, pos)? {
        0u8 => None,
        1u8 => Some(decode_var_decl(data, pos)?),
        b => {
            return Err(KernelError::InvalidOption(b));
        },
    };
    let stack_trace = match read_u8(data, pos)? {
        0u8 => None,
        1u8 => Some(decode_var_decl(data, pos)?),
        b => {
            return Err(KernelError::InvalidOption(b));
        },
    };
    let body = Box::new(decode_stmt(data, pos)?);
    Ok(Catch { offset, guard, exception, stack_trace, body })
}

pub open spec fn catch_items_encodable(s: Seq<Catch>) -> bool
    decreases s,
{
    forall|i: int| 0 <= i < s.len() ==> catch_encodable(#[trigger] s[i])
}

pub open spec fn catch_items_wire(s: Seq<Catch>) -> Seq<u8>
    decreases s,
{
    if s.len() == 0 {
        Seq::empty()
    } else {
        catch_items_wire(s.drop_last()) + catch_wire(s.last())
    }
}

/// Appends a list: its count, then each item.
pub fn encode_catch_list(v: &Vec<Catch>, out: &mut Vec<u8>) -> (r: Result<(), KernelError>)
    ensures
        r is Ok <==> v@.len() < 0x4000_0000 && catch_items_encodable(v@),
        r is Ok ==> final(out)@ == old(out)@ + uint_bytes(v@.len() as u32) + catch_items_wire(v@),
    decreases v, 1nat,
{
    if v.len() >= 0x4000_0000 {
        return Err(KernelError::InvalidVarUint);
    }
    Uint(v.len() as u32).encode(out)?;
    let ghost start = out@;
    let mut i: usize = 0;
    while i < v.len()
        invariant
            i <= v.len(),
            catch_items_encodable(v@.subrange(0, i as int)),
            out@ == start + catch_items_wire(v@.subrange(0, i as int)),
        decreases v.len() - i,
    {
        let res = encode_catch(&v[i], out);
        if res.is_err() {
            assert(!catch_items_encodable(v@)) by {
                assert(!catch_encodable(v@[i as int]));
            }
            return res;
        }
        proof {
            let s = v@.subrange(0, i + 1);
            assert(s.drop_last() =~= v@.subrange(0, i as int));
            assert forall|k: int| 0 <= k < s.len() implies catch_encodable(#[trigger] s[k]) by {
                if k < i {
                    assert(s[k] == v@.subrange(0, i as int)[k]);
                }
            }
        }
        i = i + 1;
    }
    assert(v@.subrange(0, i as int) =~= v@);
    Ok(())
}

/// Reads a list: a count, then that many items.
pub fn decode_catch_list(data: &[u8], pos: &mut usize) -> (r: Result<Vec<Catch>, KernelError>)
    ensures
        r is Ok ==> *old(pos) < *final(pos) <= data@.len(),
        r is Ok ==> uint_parse(data@, *old(pos) as int) is Some && r->Ok_0@.len() == (uint_parse(data@, *old(pos) as int)->0).0,
        uint_parse(data@, *old(pos) as int) is Some && (uint_parse(data@, *old(pos) as int)->0).0 == 0 ==> r is Ok && r->Ok_0@.len() == 0
            && *final(pos) == (uint_parse(data@, *old(pos) as int)->0).1,
    decreases data@.len() - *old(pos), 0nat,
{
    let n = Uint::decode(data, pos)?;
    let ghost q0 = *pos;
    let mut v: Vec<Catch> = Vec::new();
    let mut i: u32 = 0;
    while i < n.0
        invariant
            *old(pos) < *pos <= data@.len(),
            i <= n.0,
            v@.len() == i,
            i == 0 ==> *pos == q0,
            uint_parse(data@, *old(pos) as int) == Some((n.0, q0 as int)),
        decreases n.0 - i,
    {
        let x = decode_catch(data, pos)?;
        v.push(x);
        i = i + 1;
    }
    Ok(v)
}

/// A case of a switch statement.
#[derive(Debug, PartialEq)]
pub struct SwitchCase {
    pub exprs: Vec<LabeledExpr<FileOffset>>,
    pub is_default: u8,
    pub body: Stmt,
}

/// Every count and variable-length integer in the value fits in 30 bits.
pub open spec fn switch_case_encodable(v: SwitchCase) -> bool
    decreases v,
{
    (v.exprs@.len() < 0x4000_0000 && labeled_offset_items_encodable(v.exprs@))
    && v.is_default.encodable()
    && stmt_encodable(v.body)
}

/// The wire form: the fields in order.
pub open spec fn switch_case_wire(v: SwitchCase) -> Seq<u8>
    decreases v,
{
    uint_bytes(v.exprs@.len() as u32) + labeled_offset_items_wire(v.exprs@) + v.is_default.wire() + stmt_wire(v.body)
}

/// Appends the wire form of `v`; fails exactly when a count or integer in it reaches 2^30.
#[verifier::rlimit(100)]
pub fn encode_switch_case(v: &SwitchCase, out: &mut Vec<u8>) -> (r: Result<(), KernelError>)
    ensures
        r is Ok <==> switch_case_encodable(*v),
        r is Ok ==> final(out)@ == old(out)@ + switch_case_wire(*v),
    decreases v, 1nat,
{
    encode_labeled_offset_list(&v.exprs, out)?;
    let ghost acc0 = uint_bytes(v.exprs@.len() as u32);
    proof {
        lemma_concat_associative(old(out)@, acc0, labeled_offset_items_wire(v.exprs@));
    }
    let ghost acc1 = acc0 + labeled_offset_items_wire(v.exprs@);
    v.is_default.encode(out)?;
    proof {
        lemma_concat_associative(old(out)@, acc1, v.is_default.wire());
    }
    let ghost acc2 = acc1 + v.is_default.wire();
    encode_stmt(&v.body, out)?;
    proof {
        lemma_concat_associative(old(out)@, acc2, stmt_wire(v.body));
    }
    let ghost acc3 = acc2 + stmt_wire(v.body);
    assert(final(out)@ == old(out)@ + switch_case_wire(*v));
    Ok(())
}

/// Reads a value at `*pos` and moves past it.
pub fn decode_switch_case(data: &[u8], pos: &mut usize) -> (r: Result<SwitchCase, KernelError>)
    ensures
        r is Ok ==> *old(pos) < *final(pos) <= data@.len(),
    decreases data@.len() - *old(pos), 1nat,
{
    let exprs = decode_labeled_offset_list(data, pos)?;
    let is_default = <u8 as Codec>::decode(data, pos)?;
    let body = decode_stmt(data, pos)?;
    Ok(SwitchCase { exprs, is_default, body })
}

pub open spec fn switch_case_items_encodable(s: Seq<SwitchCase>) -> bool
    decreases s,
{
    forall|i: int| 0 <= i < s.len() ==> switch_case_encodable(#[trigger] s[i])
}

pub open spec fn switch_case_items_wire(s: Seq<SwitchCase>) -> Seq<u8>
    decreases s,
{
    if s.len() == 0 {
        Seq::empty()
    } else {
        switch_case_items_wire(s.drop_last()) + switch_case_wire(s.last())
    }
}

/// Appends a list: its count, then each item.
pub fn encode_switch_case_list(v: &Vec<SwitchCase>, out: &mut Vec<u8>) -> (r: Result<(), KernelError>)
    ensures
        r is Ok <==> v@.len() < 0x4000_0000 && switch_case_items_encodable(v@),
        r is Ok ==> final(out)@ == old(out)@ + uint_bytes(v@.len() as u32) + switch_case_items_wire(v@),
    decreases v, 1nat,
{
    if v.len() >= 0x4000_0000 {
        return Err(KernelError::InvalidVarUint);
    }
    Uint(v.len() as u32).encode(out)?;
    let ghost start = out@;
    let mut i: usize = 0;
    while i < v.len()
        invariant
            i <= v.len(),
            switch_case_items_encodable(v@.subrange(0, i as int)),
            out@ == start + switch_case_items_wire(v@.subrange(0, i as int)),
        decreases v.len() - i,
    {
        let res = encode_switch_case(&v[i], out);
        if res.is_err() {
            assert(!switch_case_items_encodable(v@)) by {
                assert(!switch_case_encodable(v@[i as int]));
            }
            return res;
        }
        proof {
            let s = v@.subrange(0, i + 1);
            assert(s.drop_last() =~= v@.subrange(0, i as int));
            assert forall|k: int| 0 <= k < s.len() implies switch_case_encodable(#[trigger] s[k]) by {
                if k < i {
                    assert(s[k] == v@.subrange(0, i as int)[k]);
                }
            }
        }
        i = i + 1;
    }
    assert(v@.subrange(0, i as int) =~= v@);
    Ok(())
}

/// Reads a list: a count, then that many items.
pub fn decode_switch_case_list(data: &[u8], pos: &mut usize) -> (r: Result<Vec<SwitchCase>, KernelError>)
    ensures
        r is Ok ==> *old(pos) < *final(pos) <= data@.len(),
        r is Ok ==> uint_parse(data@, *old(pos) as int) is Some && r->Ok_0@.len() == (uint_parse(data@, *old(pos) as int)->0).0,
        uint_parse(data@, *old(pos) as int) is Some && (uint_parse(data@, *old(pos) as int)->0).0 == 0 ==> r is Ok && r->Ok_0@.len() == 0
            && *final(pos) == (uint_parse(data@, *old(pos) as int)->0).1,
    decreases data@.len() - *old(pos), 0nat,
{
    let n = Uint::decode(data, pos)?;
    let ghost q0 = *pos;
    let mut v: Vec<SwitchCase> = Vec::new();
    let mut i: u32 = 0;
    while i < n.0
        invariant
            *old(pos) < *pos <= data@.len(),
            i <= n.0,
            v@.len() == i,
            i == 0 ==> *pos == q0,
            uint_parse(data@, *old(pos) as int) == Some((n.0, q0 as int)),
        decreases n.0 - i,
    {
        let x = decode_switch_case(data, pos)?;
        v.push(x);
        i = i + 1;
    }
    Ok(v)
}

/// A local variable declaration.
#[derive(Debug, Default, PartialEq)]
pub struct VarDecl {
    pub offset: FileOffset,
    pub equals_sign_offset: FileOffset,
    pub annotations: Vec<Expr>,
    pub flags: VarDeclFlags,
    pub name: StringRef,
    pub typ: Box<Type>,
    pub initializer: Option<Box<Expr>>,
}

/// Every count and variable-length integer in the value fits in 30 bits.
pub open spec fn var_decl_encodable(v: VarDecl) -> bool
    decreases v,
{
    v.offset.encodable()
    && v.equals_sign_offset.encodable()
    && (v.annotations@.len() < 0x4000_0000 && expr_items_encodable(v.annotations@))
    && v.flags.encodable()
    && v.name.encodable()
    && type_encodable(*v.typ)
    && (match v.initializer { Some(x) => expr_encodable(*x), None => true })
}

/// The wire form: the fields in order.
pub open spec fn var_decl_wire(v: VarDecl) -> Seq<u8>
    decreases v,
{
    v.offset.wire()
    + v.equals_sign_offset.wire()
    + uint_bytes(v.annotations@.len() as u32) + expr_items_wire(v.annotations@)
    + v.flags.wire()
    + v.name.wire()
    + type_wire(*v.typ)
    + (match v.initializer { Some(x) => seq![1u8] + expr_wire(*x), None => seq![0u8] })
}

/// Appends the wire form of `v`; fails exactly when a count or integer in it reaches 2^30.
#[verifier::rlimit(100)]
pub fn encode_var_decl(v: &VarDecl, out: &mut Vec<u8>) -> (r: Result<(), KernelError>)
    ensures
        r is Ok <==> var_decl_encodable(*v),
        r is Ok ==> final(out)@ == old(out)@ + var_decl_wire(*v),
    decreases v, 1nat,
{
    v.offset.encode(out)?;
    let ghost acc0 = v.offset.wire();
    v.equals_sign_offset.encode(out)?;
    proof {
        lemma_concat_associative(old(out)@, acc0, v.equals_sign_offset.wire());
    }
    let ghost acc1 = acc0 + v.equals_sign_offset.wire();
    encode_expr_list(&v.annotations, out)?;
    proof {
        lemma_concat_associative(old(out)@, acc1, uint_bytes(v.annotations@.len() as u32));
    }
    let ghost acc2 = acc1 + uint_bytes(v.annotations@.len() as u32);
    proof {
        lemma_concat_associative(old(out)@, acc2, expr_items_wire(v.annotations@));
    }
    let ghost acc3 = acc2 + expr_items_wire(v.annotations@);
    v.flags.encode(out)?;
    proof {
        lemma_concat_associative(old(out)@, acc3, v.flags.wire());
    }
    let ghost acc4 = acc3 + v.flags.wire();
    v.name.encode(out)?;
    proof {
        lemma_concat_associative(old(out)@, acc4, v.name.wire());
    }
    let ghost acc5 = acc4 + v.name.wire();
    encode_type(&v.typ, out)?;
    proof {
        lemma_concat_associative(old(out)@, acc5, type_wire(*v.typ));
    }
    let ghost acc6 = acc5 + type_wire(*v.typ);
    match &v.initializer {
        Some(x) => {
            out.push(1u8);
            encode_expr(x, out)?;
        },
        None => {
            out.push(0u8);
        },
    }
    proof {
        lemma_concat_associative(old(out)@, acc6, (match &v.initializer { Some(x) => seq![1u8] + expr_wire(**x), None => seq![0u8] }));
    }
    let ghost acc7 = acc6 + (match &v.initializer { Some(x) => seq![1u8] + expr_wire(**x), None => seq![0u8] });
    assert(final(out)@ == old(out)@ + var_decl_wire(*v));
    Ok(())
}

/// Reads a value at `*pos` and moves past it.
pub fn decode_var_decl(data: &[u8], pos: &mut usize) -> (r: Result<VarDecl, KernelError>)
    ensures
        r is Ok ==> *old(pos) < *final(pos) <= data@.len(),
    decreases data@.len() - *old(pos), 0nat,
{
    let offset = <FileOffset as Codec>::decode(data, pos)?;
    let equals_sign_offset = <FileOffset as Codec>::decode(data, pos)?;
    let annotations = decode_expr_list(data, pos)?;
    let flags = <VarDeclFlags as Codec>::decode(data, pos)?;
    let name = <StringRef as Codec>::decode(data, pos)?;
    let typ = Box::new(decode_type(data, pos)?);
    let initializer = match read_u8(data, pos)? {
        0u8 => None,
        1u8 => Some(Box::new(decode_expr(data, pos)?)),
        b => {
            return Err(KernelError::InvalidOption(b));
        },
    };
    Ok(VarDecl { offset, equals_sign_offset, annotations, flags, name, typ, initializer })
}

pub open spec fn var_decl_items_encodable(s: Seq<VarDecl>) -> bool
    decreases s,
{
    forall|i: int| 0 <= i < s.len() ==> var_decl_encodable(#[trigger] s[i])
}

pub open spec fn var_decl_items_wire(s: Seq<VarDecl>) -> Seq<u8>
    decreases s,
{
    if s.len() == 0 {
        Seq::empty()
    } else {
        var_decl_items_wire(s.drop_last()) + var_decl_wire(s.last())
    }
}

/// Appends a list: its count, then each item.
pub fn encode_var_decl_list(v: &Vec<VarDecl>, out: &mut Vec<u8>) -> (r: Result<(), KernelError>)
    ensures
        r is Ok <==> v@.len() < 0x4000_0000 && var_decl_items_encodable(v@),
        r is Ok ==> final(out)@ == old(out)@ + uint_bytes(v@.len() as u32) + var_decl_items_wire(v@),
    decreases v, 1nat,
{
    if v.len() >= 0x4000_0000 {
        return Err(KernelError::InvalidVarUint);
    }
    Uint(v.len() as u32).encode(out)?;
    let ghost start = out@;
    let mut i: usize = 0;
    while i < v.len()
        invariant
            i <= v.len(),
            var_decl_items_encodable(v@.subrange(0, i as int)),
            out@ == start + var_decl_items_wire(v@.subrange(0, i as int)),
        decreases v.len() - i,
    {
        let res = encode_var_decl(&v[i], out);
        if res.is_err() {
            assert(!var_decl_items_encodable(v@)) by {
                assert(!var_decl_encodable(v@[i as int]));
            }
            return res;
        }
        proof {
            let s = v@.subrange(0, i + 1);
            assert(s.drop_last() =~= v@.subrange(0, i as int));
            assert forall|k: int| 0 <= k < s.len() implies var_decl_encodable(#[trigger] s[k]) by {
                if k < i {
                    assert(s[k] == v@.subrange(0, i as int)[k]);
                }
            }
        }
        i = i + 1;
    }
    assert(v@.subrange(0, i as int) =~= v@);
    Ok(())
}

/// Reads a list: a count, then that many items.
pub fn decode_var_decl_list(data: &[u8], pos: &mut usize) -> (r: Result<Vec<VarDecl>, KernelError>)
    ensures
        r is Ok ==> *old(pos) < *final(pos) <= data@.len(),
        r is Ok ==> uint_parse(data@, *old(pos) as int) is Some && r->Ok_0@.len() == (uint_parse(data@, *old(pos) as int)->0).0,
        uint_parse(data@, *old(pos) as int) is Some && (uint_parse(data@, *old(pos) as int)->0).0 == 0 ==> r is Ok && r->Ok_0@.len() == 0
            && *final(pos) == (uint_parse(data@, *old(pos) as int)->0).1,
    decreases data@.len() - *old(pos), 0nat,
{
    let n = Uint::decode(data, pos)?;
    let ghost q0 = *pos;
    let mut v: Vec<VarDecl> = Vec::new();
    let mut i: u32 = 0;
    while i < n.0
        invariant
            *old(pos) < *pos <= data@.len(),
            i <= n.0,
            v@.len() == i,
            i == 0 ==> *pos == q0,
            uint_parse(data@, *old(pos) as int) == Some((n.0, q0 as int)),
        decreases n.0 - i,
    {
        let x = decode_var_decl(data, pos)?;
        v.push(x);
        i = i + 1;
    }
    Ok(v)
}

/// An entry of the constant table.
#[derive(Debug, PartialEq)]
pub enum Constant {
    Null,
    Bool(u8),
    Int(IntLit),
    /// The IEEE 754 bits of the value.
    Double(u64),
    String(StringRef),
    Symbol(CanonicalNameRef, StringRef),
    MapConstant {
        key_type: Box<Type>,
        value_type: Box<Type>,
        values: Vec<LabeledConstant<ConstantRef>>,
    },
    List {
        typ: Box<Type>,
        values: Vec<ConstantRef>,
    },
    SetConstant {
        typ: Box<Type>,
        values: Vec<ConstantRef>,
    },
    Instance {
        class: CanonicalNameRef,
        type_args: Vec<Type>,
        values: Vec<LabeledConstant<CanonicalNameRef>>,
    },
    Instantiation {
        tear_off_constant: ConstantRef,
        type_args: Vec<Type>,
    },
    StaticTearOff {
        static_procedure: CanonicalNameRef,
    },
    TypeLiteral(Type),
    Unevaluated(Expr),
    TypedefTearOff {
        parameters: Vec<Type>,
        static_procedure: CanonicalNameRef,
        types: Vec<Type>,
    },
    ConstructorTearOff {
        static_procedure: CanonicalNameRef,
    },
    RedirectingFactoryTearOff {
        static_procedure: CanonicalNameRef,
    },
}

/// Every count and variable-length integer in the value fits in 30 bits.
pub open spec fn constant_encodable(v: Constant) -> bool
{
    match v {
        Constant::Null => true,
        Constant::Bool(f0) => f0.encodable(),
        Constant::Int(f0) => f0.encodable(),
        Constant::Double(f0) => f0.encodable(),
        Constant::String(f0) => f0.encodable(),
        Constant::Symbol(f0, f1) => f0.encodable() && f1.encodable(),
        Constant::MapConstant { key_type, value_type, values } => type_encodable(*key_type)
            && type_encodable(*value_type)
            && (values@.len() < 0x4000_0000 && labeled_const_const_items_encodable(values@)),
        Constant::List { typ, values } => type_encodable(*typ) && list_encodable::<ConstantRef>(values@),
        Constant::SetConstant { typ, values } => type_encodable(*typ) && list_encodable::<ConstantRef>(values@),
        Constant::Instance { class, type_args, values } => class.encodable()
            && (type_args@.len() < 0x4000_0000 && type_items_encodable(type_args@))
            && (values@.len() < 0x4000_0000 && labeled_const_name_items_encodable(values@)),
        Constant::Instantiation { tear_off_constant, type_args } => tear_off_constant.encodable() && (type_args@.len() < 0x4000_0000 && type_items_encodable(type_args@)),
        Constant::StaticTearOff { static_procedure } => static_procedure.encodable(),
        Constant::TypeLiteral(f0) => type_encodable(f0),
        Constant::Unevaluated(f0) => expr_encodable(f0),
        Constant::TypedefTearOff { parameters, static_procedure, types } => (parameters@.len() < 0x4000_0000 && type_items_encodable(parameters@))
            && static_procedure.encodable()
            && (types@.len() < 0x4000_0000 && type_items_encodable(types@)),
        Constant::ConstructorTearOff { static_procedure } => static_procedure.encodable(),
        Constant::RedirectingFactoryTearOff { static_procedure } => static_procedure.encodable(),
    }
}

/// The wire form: the discriminator byte, then the fields in order.
pub open spec fn constant_wire(v: Constant) -> Seq<u8>
{
    match v {
        Constant::Null => seq![0u8],
        Constant::Bool(f0) => seq![1u8] + f0.wire(),
        Constant::Int(f0) => seq![2u8] + f0.wire(),
        Constant::Double(f0) => seq![3u8] + f0.wire(),
        Constant::String(f0) => seq![4u8] + f0.wire(),
        Constant::Symbol(f0, f1) => seq![5u8] + f0.wire() + f1.wire(),
        Constant::MapConstant { key_type, value_type, values } => seq![6u8]
            + type_wire(*key_type)
            + type_wire(*value_type)
            + uint_bytes(values@.len() as u32) + labeled_const_const_items_wire(values@),
        Constant::List { typ, values } => seq![7u8] + type_wire(*typ) + list_wire::<ConstantRef>(values@),
        Constant::SetConstant { typ, values } => seq![13u8] + type_wire(*typ) + list_wire::<ConstantRef>(values@),
        Constant::Instance { class, type_args, values } => seq![8u8]
            + class.wire()
            + uint_bytes(type_args@.len() as u32) + type_items_wire(type_args@)
            + uint_bytes(values@.len() as u32) + labeled_const_name_items_wire(values@),
        Constant::Instantiation { tear_off_constant, type_args } => seq![9u8] + tear_off_constant.wire() + uint_bytes(type_args@.len() as u32) + type_items_wire(type_args@),
        Constant::StaticTearOff { static_procedure } => seq![10u8] + static_procedure.wire(),
        Constant::TypeLiteral(f0) => seq![11u8] + type_wire(f0),
        Constant::Unevaluated(f0) => seq![12u8] + expr_wire(f0),
        Constant::TypedefTearOff { parameters, static_procedure, types } => seq![14u8]
            + uint_bytes(parameters@.len() as u32) + type_items_wire(parameters@)
            + static_procedure.wire()
            + uint_bytes(types@.len() as u32) + type_items_wire(types@),
        Constant::ConstructorTearOff { static_procedure } => seq![15u8] + static_procedure.wire(),
        Constant::RedirectingFactoryTearOff { static_procedure } => seq![16u8] + static_procedure.wire(),
    }
}

/// The discriminator bytes that start a value of this sum.
pub open spec fn is_constant_tag(b: u8) -> bool {
    b == 0 || b == 1 || b == 2 || b == 3 || b == 4 || b == 5 || b == 6 || b == 7 || b == 13 || b == 8 || b == 9 || b == 10 || b == 11 || b == 12 || b == 14 || b == 15 || b == 16
}

/// Appends the wire form of `v`; fails exactly when a count or integer in it reaches 2^30.
#[verifier::rlimit(100)]
pub fn encode_constant(v: &Constant, out: &mut Vec<u8>) -> (r: Result<(), KernelError>)
    ensures
        r is Ok <==> constant_encodable(*v),
        r is Ok ==> final(out)@ == old(out)@ + constant_wire(*v),
{
    match v {
        Constant::Null | Constant::Bool(..) | Constant::Int(..) | Constant::Double(..) | Constant::String(..) | Constant::Symbol(..) | Constant::MapConstant { .. } | Constant::List { .. } | Constant::SetConstant { .. } | Constant::Instance { .. } | Constant::Instantiation { .. } | Constant::StaticTearOff { .. } => encode_constant_part0(v, out),
        Constant::TypeLiteral(..) | Constant::Unevaluated(..) | Constant::TypedefTearOff { .. } | Constant::ConstructorTearOff { .. } | Constant::RedirectingFactoryTearOff { .. } => encode_constant_part1(v, out),
    }
}

/// Appends the wire form of `v`, which is one of the variants its precondition names.
#[verifier::rlimit(100)]
fn encode_constant_part0(v: &Constant, out: &mut Vec<u8>) -> (r: Result<(), KernelError>)
    requires
        v is Null || v is Bool || v is Int || v is Double || v is String || v is Symbol || v is MapConstant || v is List || v is SetConstant || v is Instance || v is Instantiation || v is StaticTearOff,
    ensures
        r is Ok <==> constant_encodable(*v),
        r is Ok ==> final(out)@ == old(out)@ + constant_wire(*v),
{
    match v {
        Constant::Null => {
            out.push(0u8);
            let ghost acc0 = seq![0u8];
            assert(final(out)@ == old(out)@ + constant_wire(*v));
        },
        Constant::Bool(f0) => {
            out.push(1u8);
            let ghost acc0 = seq![1u8];
            f0.encode(out)?;
            proof {
                lemma_concat_associative(old(out)@, acc0, (*f0).wire());
            }
            let ghost acc1 = acc0 + (*f0).wire();
            assert(final(out)@ == old(out)@ + constant_wire(*v));
        },
        Constant::Int(f0) => {
            out.push(2u8);
            let ghost acc0 = seq![2u8];
            f0.encode(out)?;
            proof {
                lemma_concat_associative(old(out)@, acc0, (*f0).wire());
            }
            let ghost acc1 = acc0 + (*f0).wire();
            assert(final(out)@ == old(out)@ + constant_wire(*v));
        },
        Constant::Double(f0) => {
            out.push(3u8);
            let ghost acc0 = seq![3u8];
            f0.encode(out)?;
            proof {
                lemma_concat_associative(old(out)@, acc0, (*f0).wire());
            }
            let ghost acc1 = acc0 + (*f0).wire();
            assert(final(out)@ == old(out)@ + constant_wire(*v));
        },
        Constant::String(f0) => {
            out.push(4u8);
            let ghost acc0 = seq![4u8];
            f0.encode(out)?;
            proof {
                lemma_concat_associative(old(out)@, acc0, (*f0).wire());
            }
            let ghost acc1 = acc0 + (*f0).wire();
            assert(final(out)@ == old(out)@ + constant_wire(*v));
        },
        Constant::Symbol(f0, f1) => {
            out.push(5u8);
            let ghost acc0 = seq![5u8];
            f0.encode(out)?;
            proof {
                lemma_concat_associative(old(out)@, acc0, (*f0).wire());
            }
            let ghost acc1 = acc0 + (*f0).wire();
            f1.encode(out)?;
            proof {
                lemma_concat_associative(old(out)@, acc1, (*f1).wire());
            }
            let ghost acc2 = acc1 + (*f1).wire();
            assert(final(out)@ == old(out)@ + constant_wire(*v));
        },
        Constant::MapConstant { key_type, value_type, values } => {
            out.push(6u8);
            let ghost acc0 = seq![6u8];
            encode_type(key_type, out)?;
            proof {
                lemma_concat_associative(old(out)@, acc0, type_wire(*(*key_type)));
            }
            let ghost acc1 = acc0 + type_wire(*(*key_type));
            encode_type(value_type, out)?;
            proof {
                lemma_concat_associative(old(out)@, acc1, type_wire(*(*value_type)));
            }
            let ghost acc2 = acc1 + type_wire(*(*value_type));
            encode_labeled_const_const_list(values, out)?;
            proof {
                lemma_concat_associative(old(out)@, acc2, uint_bytes((*values)@.len() as u32));
            }
            let ghost acc3 = acc2 + uint_bytes((*values)@.len() as u32);
            proof {
                lemma_concat_associative(old(out)@, acc3, labeled_const_const_items_wire((*values)@));
            }
            let ghost acc4 = acc3 + labeled_const_const_items_wire((*values)@);
            assert(final(out)@ == old(out)@ + constant_wire(*v));
        },
        Constant::List { typ, values } => {
            out.push(7u8);
            let ghost acc0 = seq![7u8];
            encode_type(typ, out)?;
            proof {
                lemma_concat_associative(old(out)@, acc0, type_wire(*(*typ)));
            }
            let ghost acc1 = acc0 + type_wire(*(*typ));
            encode_list(values, out)?;
            proof {
                lemma_concat_associative(old(out)@, acc1, list_wire::<ConstantRef>((*values)@));
            }
            let ghost acc2 = acc1 + list_wire::<ConstantRef>((*values)@);
            assert(final(out)@ == old(out)@ + constant_wire(*v));
        },
        Constant::SetConstant { typ, values } => {
            out.push(13u8);
            let ghost acc0 = seq![13u8];
            encode_type(typ, out)?;
            proof {
                lemma_concat_associative(old(out)@, acc0, type_wire(*(*typ)));
            }
            let ghost acc1 = acc0 + type_wire(*(*typ));
            encode_list(values, out)?;
            proof {
                lemma_concat_associative(old(out)@, acc1, list_wire::<ConstantRef>((*values)@));
            }
            let ghost acc2 = acc1 + list_wire::<ConstantRef>((*values)@);
            assert(final(out)@ == old(out)@ + constant_wire(*v));
        },
        Constant::Instance { class, type_args, values } => {
            out.push(8u8);
            let ghost acc0 = seq![8u8];
            class.encode(out)?;
            proof {
                lemma_concat_associative(old(out)@, acc0, (*class).wire());
            }
            let ghost acc1 = acc0 + (*class).wire();
            encode_type_list(type_args, out)?;
            proof {
                lemma_concat_associative(old(out)@, acc1, uint_bytes((*type_args)@.len() as u32));
            }
            let ghost acc2 = acc1 + uint_bytes((*type_args)@.len() as u32);
            proof {
                lemma_concat_associative(old(out)@, acc2, type_items_wire((*type_args)@));
            }
            let ghost acc3 = acc2 + type_items_wire((*type_args)@);
            encode_labeled_const_name_list(values, out)?;
            proof {
                lemma_concat_associative(old(out)@, acc3, uint_bytes((*values)@.len() as u32));
            }
            let ghost acc4 = acc3 + uint_bytes((*values)@.len() as u32);
            proof {
                lemma_concat_associative(old(out)@, acc4, labeled_const_name_items_wire((*values)@));
            }
            let ghost acc5 = acc4 + labeled_const_name_items_wire((*values)@);
            assert(final(out)@ == old(out)@ + constant_wire(*v));
        },
        Constant::Instantiation { tear_off_constant, type_args } => {
            out.push(9u8);
            let ghost acc0 = seq![9u8];
            tear_off_constant.encode(out)?;
            proof {
                lemma_concat_associative(old(out)@, acc0, (*tear_off_constant).wire());
            }
            let ghost acc1 = acc0 + (*tear_off_constant).wire();
            encode_type_list(type_args, out)?;
            proof {
                lemma_concat_associative(old(out)@, acc1, uint_bytes((*type_args)@.len() as u32));
            }
            let ghost acc2 = acc1 + uint_bytes((*type_args)@.len() as u32);
            proof {
                lemma_concat_associative(old(out)@, acc2, type_items_wire((*type_args)@));
            }
            let ghost acc3 = acc2 + type_items_wire((*type_args)@);
            assert(final(out)@ == old(out)@ + constant_wire(*v));
        },
        Constant::StaticTearOff { static_procedure } => {
            out.push(10u8);
            let ghost acc0 = seq![10u8];
            static_procedure.encode(out)?;
            proof {
                lemma_concat_associative(old(out)@, acc0, (*static_procedure).wire());
            }
            let ghost acc1 = acc0 + (*static_procedure).wire();
            assert(final(out)@ == old(out)@ + constant_wire(*v));
        },
        _ => {
            assert(false);
        },
    }
    Ok(())
}

/// Appends the wire form of `v`, which is one of the variants its precondition names.
#[verifier::rlimit(100)]
fn encode_constant_part1(v: &Constant, out: &mut Vec<u8>) -> (r: Result<(), KernelError>)
    requires
        v is TypeLiteral || v is Unevaluated || v is TypedefTearOff || v is ConstructorTearOff || v is RedirectingFactoryTearOff,
    ensures
        r is Ok <==> constant_encodable(*v),
        r is Ok ==> final(out)@ == old(out)@ + constant_wire(*v),
{
    match v {
        Constant::TypeLiteral(f0) => {
            out.push(11u8);
            let ghost acc0 = seq![11u8];
            encode_type(f0, out)?;
            proof {
                lemma_concat_associative(old(out)@, acc0, type_wire((*f0)));
            }
            let ghost acc1 = acc0 + type_wire((*f0));
            assert(final(out)@ == old(out)@ + constant_wire(*v));
        },
        Constant::Unevaluated(f0) => {
            out.push(12u8);
            let ghost acc0 = seq![12u8];
            encode_expr(f0, out)?;
            proof {
                lemma_concat_associative(old(out)@, acc0, expr_wire((*f0)));
            }
            let ghost acc1 = acc0 + expr_wire((*f0));
            assert(final(out)@ == old(out)@ + constant_wire(*v));
        },
        Constant::TypedefTearOff { parameters, static_procedure, types } => {
            out.push(14u8);
            let ghost acc0 = seq![14u8];
            encode_type_list(parameters, out)?;
            proof {
                lemma_concat_associative(old(out)@, acc0, uint_bytes((*parameters)@.len() as u32));
            }
            let ghost acc1 = acc0 + uint_bytes((*parameters)@.len() as u32);
            proof {
                lemma_concat_associative(old(out)@, acc1, type_items_wire((*parameters)@));
            }
            let ghost acc2 = acc1 + type_items_wire((*parameters)@);
            static_procedure.encode(out)?;
            proof {
                lemma_concat_associative(old(out)@, acc2, (*static_procedure).wire());
            }
            let ghost acc3 = acc2 + (*static_procedure).wire();
            encode_type_list(types, out)?;
            proof {
                lemma_concat_associative(old(out)@, acc3, uint_bytes((*types)@.len() as u32));
            }
            let ghost acc4 = acc3 + uint_bytes((*types)@.len() as u32);
            proof {
                lemma_concat_associative(old(out)@, acc4, type_items_wire((*types)@));
            }
            let ghost acc5 = acc4 + type_items_wire((*types)@);
            assert(final(out)@ == old(out)@ + constant_wire(*v));
        },
        Constant::ConstructorTearOff { static_procedure } => {
            out.push(15u8);
            let ghost acc0 = seq![15u8];
            static_procedure.encode(out)?;
            proof {
                lemma_concat_associative(old(out)@, acc0, (*static_procedure).wire());
            }
            let ghost acc1 = acc0 + (*static_procedure).wire();
            assert(final(out)@ == old(out)@ + constant_wire(*v));
        },
        Constant::RedirectingFactoryTearOff { static_procedure } => {
            out.push(16u8);
            let ghost acc0 = seq![16u8];
            static_procedure.encode(out)?;
            proof {
                lemma_concat_associative(old(out)@, acc0, (*static_procedure).wire());
            }
            let ghost acc1 = acc0 + (*static_procedure).wire();
            assert(final(out)@ == old(out)@ + constant_wire(*v));
        },
        _ => {
            assert(false);
        },
    }
    Ok(())
}

/// Reads a value at `*pos` and moves past it.
pub fn decode_constant(data: &[u8], pos: &mut usize) -> (r: Result<Constant, KernelError>)
    ensures
        r is Ok ==> *old(pos) < *final(pos) <= data@.len(),
        *old(pos) >= data@.len() ==> r == Err::<Constant, _>(KernelError::ShortRead),
        *old(pos) < data@.len() && !is_constant_tag(data@[*old(pos) as int]) ==> r == Err::<Constant, _>(
            KernelError::UnknownTag { sum: SumKind::Constant, tag: data@[*old(pos) as int] },
        ),
{
    let tag = read_u8(data, pos)?;
    match tag {
        0u8 => {
            Ok(Constant::Null)
        },
        1u8 => {
            let f0 = <u8 as Codec>::decode(data, pos)?;
            Ok(Constant::Bool(f0))
        },
        2u8 => {
            let f0 = <IntLit as Codec>::decode(data, pos)?;
            Ok(Constant::Int(f0))
        },
        3u8 => {
            let f0 = <u64 as Codec>::decode(data, pos)?;
            Ok(Constant::Double(f0))
        },
        4u8 => {
            let f0 = <StringRef as Codec>::decode(data, pos)?;
            Ok(Constant::String(f0))
        },
        5u8 => {
            let f0 = <CanonicalNameRef as Codec>::decode(data, pos)?;
            let f1 = <StringRef as Codec>::decode(data, pos)?;
            Ok(Constant::Symbol(f0, f1))
        },
        6u8 => {
            let key_type = Box::new(decode_type(data, pos)?);
            let value_type = Box::new(decode_type(data, pos)?);
            let values = decode_labeled_const_const_list(data, pos)?;
            Ok(Constant::MapConstant { key_type, value_type, values })
        },
        7u8 => {
            let typ = Box::new(decode_type(data, pos)?);
            let values = decode_list::<ConstantRef>(data, pos)?;
            Ok(Constant::List { typ, values })
        },
        13u8 => {
            let typ = Box::new(decode_type(data, pos)?);
            let values = decode_list::<ConstantRef>(data, pos)?;
            Ok(Constant::SetConstant { typ, values })
        },
        8u8 => {
            let class = <CanonicalNameRef as Codec>::decode(data, pos)?;
            let type_args = decode_type_list(data, pos)?;
            let values = decode_labeled_const_name_list(data, pos)?;
            Ok(Constant::Instance { class, type_args, values })
        },
        9u8 => {
            let tear_off_constant = <ConstantRef as Codec>::decode(data, pos)?;
            let type_args = decode_type_list(data, pos)?;
            Ok(Constant::Instantiation { tear_off_constant, type_args })
        },
        10u8 => {
            let static_procedure = <CanonicalNameRef as Codec>::decode(data, pos)?;
            Ok(Constant::StaticTearOff { static_procedure })
        },
        11u8 => {
            let f0 = decode_type(data, pos)?;
            Ok(Constant::TypeLiteral(f0))
        },
        12u8 => {
            let f0 = decode_expr(data, pos)?;
            Ok(Constant::Unevaluated(f0))
        },
        14u8 => {
            let parameters = decode_type_list(data, pos)?;
            let static_procedure = <CanonicalNameRef as Codec>::decode(data, pos)?;
            let types = decode_type_list(data, pos)?;
            Ok(Constant::TypedefTearOff { parameters, static_procedure, types })
        },
        15u8 => {
            let static_procedure = <CanonicalNameRef as Codec>::decode(data, pos)?;
            Ok(Constant::ConstructorTearOff { static_procedure })
        },
        16u8 => {
            let static_procedure = <CanonicalNameRef as Codec>::decode(data, pos)?;
            Ok(Constant::RedirectingFactoryTearOff { static_procedure })
        },
        _ => Err(KernelError::UnknownTag { sum: SumKind::Constant, tag }),
    }
}

pub open spec fn constant_items_encodable(s: Seq<Constant>) -> bool
{
    forall|i: int| 0 <= i < s.len() ==> constant_encodable(#[trigger] s[i])
}

pub open spec fn constant_items_wire(s: Seq<Constant>) -> Seq<u8>
    decreases s,
{
    if s.len() == 0 {
        Seq::empty()
    } else {
        constant_items_wire(s.drop_last()) + constant_wire(s.last())
    }
}

/// Appends a list: its count, then each item.
pub fn encode_constant_list(v: &Vec<Constant>, out: &mut Vec<u8>) -> (r: Result<(), KernelError>)
    ensures
        r is Ok <==> v@.len() < 0x4000_0000 && constant_items_encodable(v@),
        r is Ok ==> final(out)@ == old(out)@ + uint_bytes(v@.len() as u32) + constant_items_wire(v@),
{
    if v.len() >= 0x4000_0000 {
        return Err(KernelError::InvalidVarUint);
    }
    Uint(v.len() as u32).encode(out)?;
    let ghost start = out@;
    let mut i: usize = 0;
    while i < v.len()
        invariant
            i <= v.len(),
            constant_items_encodable(v@.subrange(0, i as int)),
            out@ == start + constant_items_wire(v@.subrange(0, i as int)),
        decreases v.len() - i,
    {
        let res = encode_constant(&v[i], out);
        if res.is_err() {
            assert(!constant_items_encodable(v@)) by {
                assert(!constant_encodable(v@[i as int]));
            }
            return res;
        }
        proof {
            let s = v@.subrange(0, i + 1);
            assert(s.drop_last() =~= v@.subrange(0, i as int));
            assert forall|k: int| 0 <= k < s.len() implies constant_encodable(#[trigger] s[k]) by {
                if k < i {
                    assert(s[k] == v@.subrange(0, i as int)[k]);
                }
            }
        }
        i = i + 1;
    }
    assert(v@.subrange(0, i as int) =~= v@);
    Ok(())
}

/// Reads a list: a count, then that many items.
pub fn decode_constant_list(data: &[u8], pos: &mut usize) -> (r: Result<Vec<Constant>, KernelError>)
    ensures
        r is Ok ==> *old(pos) < *final(pos) <= data@.len(),
        r is Ok ==> uint_parse(data@, *old(pos) as int) is Some && r->Ok_0@.len() == (uint_parse(data@, *old(pos) as int)->0).0,
        uint_parse(data@, *old(pos) as int) is Some && (uint_parse(data@, *old(pos) as int)->0).0 == 0 ==> r is Ok && r->Ok_0@.len() == 0
            && *final(pos) == (uint_parse(data@, *old(pos) as int)->0).1,
{
    let n = Uint::decode(data, pos)?;
    let ghost q0 = *pos;
    let mut v: Vec<Constant> = Vec::new();
    let mut i: u32 = 0;
    while i < n.0
        invariant
            *old(pos) < *pos <= data@.len(),
            i <= n.0,
            v@.len() == i,
            i == 0 ==> *pos == q0,
            uint_parse(data@, *old(pos) as int) == Some((n.0, q0 as int)),
        decreases n.0 - i,
    {
        let x = decode_constant(data, pos)?;
        v.push(x);
        i = i + 1;
    }
    Ok(v)
}

/// Every count and variable-length integer in the value fits in 30 bits.
pub open spec fn labeled_const_const_encodable(v: LabeledConstant<ConstantRef>) -> bool
{
    v.key.encodable() && v.value.encodable()
}

/// The wire form: the fields in order.
pub open spec fn labeled_const_const_wire(v: LabeledConstant<ConstantRef>) -> Seq<u8>
{
    v.key.wire() + v.value.wire()
}

/// Appends the wire form of `v`; fails exactly when a count or integer in it reaches 2^30.
#[verifier::rlimit(100)]
pub fn encode_labeled_const_const(v: &LabeledConstant<ConstantRef>, out: &mut Vec<u8>) -> (r: Result<(), KernelError>)
    ensures
        r is Ok <==> labeled_const_const_encodable(*v),
        r is Ok ==> final(out)@ == old(out)@ + labeled_const_const_wire(*v),
{
    v.key.encode(out)?;
    let ghost acc0 = v.key.wire();
    v.value.encode(out)?;
    proof {
        lemma_concat_associative(old(out)@, acc0, v.value.wire());
    }
    let ghost acc1 = acc0 + v.value.wire();
    assert(final(out)@ == old(out)@ + labeled_const_const_wire(*v));
    Ok(())
}

/// Reads a value at `*pos` and moves past it.
pub fn decode_labeled_const_const(data: &[u8], pos: &mut usize) -> (r: Result<LabeledConstant<ConstantRef>, KernelError>)
    ensures
        r is Ok ==> *old(pos) < *final(pos) <= data@.len(),
{
    let key = <ConstantRef as Codec>::decode(data, pos)?;
    let value = <ConstantRef as Codec>::decode(data, pos)?;
    Ok(LabeledConstant { key, value })
}

pub open spec fn labeled_const_const_items_encodable(s: Seq<LabeledConstant<ConstantRef>>) -> bool
{
    forall|i: int| 0 <= i < s.len() ==> labeled_const_const_encodable(#[trigger] s[i])
}

pub open spec fn labeled_const_const_items_wire(s: Seq<LabeledConstant<ConstantRef>>) -> Seq<u8>
    decreases s,
{
    if s.len() == 0 {
        Seq::empty()
    } else {
        labeled_const_const_items_wire(s.drop_last()) + labeled_const_const_wire(s.last())
    }
}

/// Appends a list: its count, then each item.
pub fn encode_labeled_const_const_list(v: &Vec<LabeledConstant<ConstantRef>>, out: &mut Vec<u8>) -> (r: Result<(), KernelError>)
    ensures
        r is Ok <==> v@.len() < 0x4000_0000 && labeled_const_const_items_encodable(v@),
        r is Ok ==> final(out)@ == old(out)@ + uint_bytes(v@.len() as u32) + labeled_const_const_items_wire(v@),
{
    if v.len() >= 0x4000_0000 {
        return Err(KernelError::InvalidVarUint);
    }
    Uint(v.len() as u32).encode(out)?;
    let ghost start = out@;
    let mut i: usize = 0;
    while i < v.len()
        invariant
            i <= v.len(),
            labeled_const_const_items_encodable(v@.subrange(0, i as int)),
            out@ == start + labeled_const_const_items_wire(v@.subrange(0, i as int)),
        decreases v.len() - i,
    {
        let res = encode_labeled_const_const(&v[i], out);
        if res.is_err() {
            assert(!labeled_const_const_items_encodable(v@)) by {
                assert(!labeled_const_const_encodable(v@[i as int]));
            }
            return res;
        }
        proof {
            let s = v@.subrange(0, i + 1);
            assert(s.drop_last() =~= v@.subrange(0, i as int));
            assert forall|k: int| 0 <= k < s.len() implies labeled_const_const_encodable(#[trigger] s[k]) by {
                if k < i {
                    assert(s[k] == v@.subrange(0, i as int)[k]);
                }
            }
        }
        i = i + 1;
    }
    assert(v@.subrange(0, i as int) =~= v@);
    Ok(())
}

/// Reads a list: a count, then that many items.
pub fn decode_labeled_const_const_list(data: &[u8], pos: &mut usize) -> (r: Result<Vec<LabeledConstant<ConstantRef>>, KernelError>)
    ensures
        r is Ok ==> *old(pos) < *final(pos) <= data@.len(),
        r is Ok ==> uint_parse(data@, *old(pos) as int) is Some && r->Ok_0@.len() == (uint_parse(data@, *old(pos) as int)->0).0,
        uint_parse(data@, *old(pos) as int) is Some && (uint_parse(data@, *old(pos) as int)->0).0 == 0 ==> r is Ok && r->Ok_0@.len() == 0
            && *final(pos) == (uint_parse(data@, *old(pos) as int)->0).1,
{
    let n = Uint::decode(data, pos)?;
    let ghost q0 = *pos;
    let mut v: Vec<LabeledConstant<ConstantRef>> = Vec::new();
    let mut i: u32 = 0;
    while i < n.0
        invariant
            *old(pos) < *pos <= data@.len(),
            i <= n.0,
            v@.len() == i,
            i == 0 ==> *pos == q0,
            uint_parse(data@, *old(pos) as int) == Some((n.0, q0 as int)),
        decreases n.0 - i,
    {
        let x = decode_labeled_const_const(data, pos)?;
        v.push(x);
        i = i + 1;
    }
    Ok(v)
}

/// Every count and variable-length integer in the value fits in 30 bits.
pub open spec fn labeled_const_name_encodable(v: LabeledConstant<CanonicalNameRef>) -> bool
{
    v.key.encodable() && v.value.encodable()
}

/// The wire form: the fields in order.
pub open spec fn labeled_const_name_wire(v: LabeledConstant<CanonicalNameRef>) -> Seq<u8>
{
    v.key.wire() + v.value.wire()
}

/// Appends the wire form of `v`; fails exactly when a count or integer in it reaches 2^30.
#[verifier::rlimit(100)]
pub fn encode_labeled_const_name(v: &LabeledConstant<CanonicalNameRef>, out: &mut Vec<u8>) -> (r: Result<(), KernelError>)
    ensures
        r is Ok <==> labeled_const_name_encodable(*v),
        r is Ok ==> final(out)@ == old(out)@ + labeled_const_name_wire(*v),
{
    v.key.encode(out)?;
    let ghost acc0 = v.key.wire();
    v.value.encode(out)?;
    proof {
        lemma_concat_associative(old(out)@, acc0, v.value.wire());
    }
    let ghost acc1 = acc0 + v.value.wire();
    assert(final(out)@ == old(out)@ + labeled_const_name_wire(*v));
    Ok(())
}

/// Reads a value at `*pos` and moves past it.
pub fn decode_labeled_const_name(data: &[u8], pos: &mut usize) -> (r: Result<LabeledConstant<CanonicalNameRef>, KernelError>)
    ensures
        r is Ok ==> *old(pos) < *final(pos) <= data@.len(),
{
    let key = <CanonicalNameRef as Codec>::decode(data, pos)?;
    let value = <ConstantRef as Codec>::decode(data, pos)?;
    Ok(LabeledConstant { key, value })
}

pub open spec fn labeled_const_name_items_encodable(s: Seq<LabeledConstant<CanonicalNameRef>>) -> bool
{
    forall|i: int| 0 <= i < s.len() ==> labeled_const_name_encodable(#[trigger] s[i])
}

pub open spec fn labeled_const_name_items_wire(s: Seq<LabeledConstant<CanonicalNameRef>>) -> Seq<u8>
    decreases s,
{
    if s.len() == 0 {
        Seq::empty()
    } else {
        labeled_const_name_items_wire(s.drop_last()) + labeled_const_name_wire(s.last())
    }
}

/// Appends a list: its count, then each item.
pub fn encode_labeled_const_name_list(v: &Vec<LabeledConstant<CanonicalNameRef>>, out: &mut Vec<u8>) -> (r: Result<(), KernelError>)
    ensures
        r is Ok <==> v@.len() < 0x4000_0000 && labeled_const_name_items_encodable(v@),
        r is Ok ==> final(out)@ == old(out)@ + uint_bytes(v@.len() as u32) + labeled_const_name_items_wire(v@),
{
    if v.len() >= 0x4000_0000 {
        return Err(KernelError::InvalidVarUint);
    }
    Uint(v.len() as u32).encode(out)?;
    let ghost start = out@;
    let mut i: usize = 0;
    while i < v.len()
        invariant
            i <= v.len(),
            labeled_const_name_items_encodable(v@.subrange(0, i as int)),
            out@ == start + labeled_const_name_items_wire(v@.subrange(0, i as int)),
        decreases v.len() - i,
    {
        let res = encode_labeled_const_name(&v[i], out);
        if res.is_err() {
            assert(!labeled_const_name_items_encodable(v@)) by {
                assert(!labeled_const_name_encodable(v@[i as int]));
            }
            return res;
        }
        proof {
            let s = v@.subrange(0, i + 1);
            assert(s.drop_last() =~= v@.subrange(0, i as int));
            assert forall|k: int| 0 <= k < s.len() implies labeled_const_name_encodable(#[trigger] s[k]) by {
                if k < i {
                    assert(s[k] == v@.subrange(0, i as int)[k]);
                }
            }
        }
        i = i + 1;
    }
    assert(v@.subrange(0, i as int) =~= v@);
    Ok(())
}

/// Reads a list: a count, then that many items.
pub fn decode_labeled_const_name_list(data: &[u8], pos: &mut usize) -> (r: Result<Vec<LabeledConstant<CanonicalNameRef>>, KernelError>)
    ensures
        r is Ok ==> *old(pos) < *final(pos) <= data@.len(),
        r is Ok ==> uint_parse(data@, *old(pos) as int) is Some && r->Ok_0@.len() == (uint_parse(data@, *old(pos) as int)->0).0,
        uint_parse(data@, *old(pos) as int) is Some && (uint_parse(data@, *old(pos) as int)->0).0 == 0 ==> r is Ok && r->Ok_0@.len() == 0
            && *final(pos) == (uint_parse(data@, *old(pos) as int)->0).1,
{
    let n = Uint::decode(data, pos)?;
    let ghost q0 = *pos;
    let mut v: Vec<LabeledConstant<CanonicalNameRef>> = Vec::new();
    let mut i: u32 = 0;
    while i < n.0
        invariant
            *old(pos) < *pos <= data@.len(),
            i <= n.0,
            v@.len() == i,
            i == 0 ==> *pos == q0,
            uint_parse(data@, *old(pos) as int) == Some((n.0, q0 as int)),
        decreases n.0 - i,
    {
        let x = decode_labeled_const_name(data, pos)?;
        v.push(x);
        i = i + 1;
    }
    Ok(v)
}

} // verus!
