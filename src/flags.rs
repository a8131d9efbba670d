//! Flag words: fixed-width bit sets, one layout per kind of entity.
//!
//! Each word keeps its raw bits, so reserved bits read from a file are written
//! back unchanged; the accessors read and set the named bits.
use vstd::prelude::*;

use crate::codec::Codec;
use crate::error::KernelError;
use crate::prim::{read_u8, u8_parse};

verus! {

/// The field at bit `k` of `bits` that `mask` selects (1 for one bit, 3 for two).
pub open spec fn field_of(bits: u16, k: u16, mask: u16) -> u16 {
    (bits >> k) & mask
}

/// `bits` with the field at bit `k` that `mask` selects replaced by `v`.
pub open spec fn with_field(bits: u16, k: u16, mask: u16, v: u16) -> u16 {
    (bits & !(mask << k)) | ((v & mask) << k)
}

/// Setting a field gives it the new value and leaves every other one-bit field as it was.
pub proof fn lemma_with_field(bits: u16, k: u16, mask: u16, v: u16, j: u16)
    requires
        mask == 1 || mask == 3,
        k < 16,
        mask == 3 ==> k < 15,
        j < 16,
        j != k,
        mask == 3 ==> j != k + 1,
    ensures
        field_of(with_field(bits, k, mask, v), k, mask) == v & mask,
        field_of(with_field(bits, k, mask, v), j, 1) == field_of(bits, j, 1),
{
    assert((mask == 1 || mask == 3) && k < 16 && (mask == 3 ==> k < 15) && j < 16 && j != k && (
    mask == 3 ==> j != k + 1) ==> {
        &&& ((((bits & !(mask << k)) | ((v & mask) << k)) >> k) & mask) == v & mask
        &&& ((((bits & !(mask << k)) | ((v & mask) << k)) >> j) & 1) == (bits >> j) & 1
    }) by (bit_vector);
}

fn get_field(bits: u16, k: u16, mask: u16) -> (r: u16)
    requires
        mask == 1 || mask == 3,
        k < 16,
    ensures
        r == field_of(bits, k, mask),
        r <= mask,
{
    let r = (bits >> k) & mask;
    assert((bits >> k) & mask <= mask) by (bit_vector);
    r
}

fn set_field(bits: u16, k: u16, mask: u16, v: u16) -> (r: u16)
    requires
        mask == 1 || mask == 3,
        k < 16,
    ensures
        r == with_field(bits, k, mask, v),
{
    (bits & !(mask << k)) | ((v & mask) << k)
}

/// The flag word of a library, 1 byte wide.
#[derive(Debug, Default, Clone, Copy, PartialEq, Eq, Structural)]
pub struct LibraryFlags {
    pub bits: u16,
}

impl LibraryFlags {
    /// The raw bits of the word.
    pub open spec fn spec_bits(&self) -> u16 {
        self.bits
    }

    /// A word with every bit clear.
    pub fn new() -> (r: Self)
        ensures
            r.spec_bits() == 0,
    {
        LibraryFlags { bits: 0 }
    }

    pub fn from_bytes(bytes: [u8; 1]) -> (r: Self)
        ensures
            r.spec_bits() == bytes@[0] as u16,
    {
        LibraryFlags { bits: bytes[0] as u16 }
    }

    pub fn into_bytes(self) -> (r: [u8; 1])
        requires
            self.spec_bits() < 0x100,
        ensures
            r@ == seq![self.spec_bits() as u8],
    {
        [self.bits as u8]
    }

    pub fn is_synthetic(&self) -> (r: bool)
        ensures
            r == (field_of(self.spec_bits(), 0, 1) == 1),
    {
        get_field(self.bits, 0, 1) == 1
    }

    pub fn with_is_synthetic(self, v: bool) -> (r: Self)
        ensures
            r.spec_bits() == with_field(self.spec_bits(), 0, 1, if v { 1 } else { 0 }),
    {
        LibraryFlags { bits: set_field(self.bits, 0, 1, if v { 1 } else { 0 }) }
    }

    pub fn set_is_synthetic(&mut self, v: bool)
        ensures
            final(self).spec_bits() == with_field(old(self).spec_bits(), 0, 1, if v { 1 } else { 0 }),
    {
        self.bits = set_field(self.bits, 0, 1, if v { 1 } else { 0 });
    }

    pub fn is_non_nullable_by_default(&self) -> (r: bool)
        ensures
            r == (field_of(self.spec_bits(), 1, 1) == 1),
    {
        get_field(self.bits, 1, 1) == 1
    }

    pub fn with_is_non_nullable_by_default(self, v: bool) -> (r: Self)
        ensures
            r.spec_bits() == with_field(self.spec_bits(), 1, 1, if v { 1 } else { 0 }),
    {
        LibraryFlags { bits: set_field(self.bits, 1, 1, if v { 1 } else { 0 }) }
    }

    pub fn set_is_non_nullable_by_default(&mut self, v: bool)
        ensures
            final(self).spec_bits() == with_field(old(self).spec_bits(), 1, 1, if v { 1 } else { 0 }),
    {
        self.bits = set_field(self.bits, 1, 1, if v { 1 } else { 0 });
    }

    pub fn nnb_mode(&self) -> (r: u8)
        ensures
            r as u16 == field_of(self.spec_bits(), 2, 3),
    {
        get_field(self.bits, 2, 3) as u8
    }

    pub fn with_nnb_mode(self, v: u8) -> (r: Self)
        ensures
            r.spec_bits() == with_field(self.spec_bits(), 2, 3, v as u16),
    {
        LibraryFlags { bits: set_field(self.bits, 2, 3, v as u16) }
    }

    pub fn set_nnb_mode(&mut self, v: u8)
        ensures
            final(self).spec_bits() == with_field(old(self).spec_bits(), 2, 3, v as u16),
    {
        self.bits = set_field(self.bits, 2, 3, v as u16);
    }
}

impl DeepView for LibraryFlags {
    type V = LibraryFlags;

    open spec fn deep_view(&self) -> LibraryFlags {
        *self
    }
}

impl Codec for LibraryFlags {
    open spec fn encodable(&self) -> bool {
        self.bits < 0x100
    }

    open spec fn wire(&self) -> Seq<u8> {
        seq![self.bits as u8]
    }

    open spec fn parse(d: Seq<u8>, p: int) -> Option<(LibraryFlags, int)> {
        match u8_parse(d, p) {
            Some((b, q)) => Some((LibraryFlags { bits: b as u16 }, q)),
            None => None,
        }
    }

    proof fn lemma_round_trip(&self, pre: Seq<u8>, rest: Seq<u8>) {
        assert((pre + self.wire() + rest)[pre.len() as int] == self.bits as u8);
    }

    fn encode(&self, out: &mut Vec<u8>) -> (r: Result<(), KernelError>) {
        if self.bits >= 0x100 {
            return Err(KernelError::InvalidVarUint);
        }
        out.push(self.bits as u8);
        assert(out@ =~= old(out)@ + self.wire());
        Ok(())
    }

    fn decode(data: &[u8], pos: &mut usize) -> (r: Result<LibraryFlags, KernelError>) {
        let b = read_u8(data, pos)?;
        Ok(LibraryFlags { bits: b as u16 })
    }
}

/// The flag word of a library dependency, 1 byte wide.
#[derive(Debug, Default, Clone, Copy, PartialEq, Eq, Structural)]
pub struct DependencyFlags {
    pub bits: u16,
}

impl DependencyFlags {
    /// The raw bits of the word.
    pub open spec fn spec_bits(&self) -> u16 {
        self.bits
    }

    /// A word with every bit clear.
    pub fn new() -> (r: Self)
        ensures
            r.spec_bits() == 0,
    {
        DependencyFlags { bits: 0 }
    }

    pub fn from_bytes(bytes: [u8; 1]) -> (r: Self)
        ensures
            r.spec_bits() == bytes@[0] as u16,
    {
        DependencyFlags { bits: bytes[0] as u16 }
    }

    pub fn into_bytes(self) -> (r: [u8; 1])
        requires
            self.spec_bits() < 0x100,
        ensures
            r@ == seq![self.spec_bits() as u8],
    {
        [self.bits as u8]
    }

    pub fn is_export(&self) -> (r: bool)
        ensures
            r == (field_of(self.spec_bits(), 0, 1) == 1),
    {
        get_field(self.bits, 0, 1) == 1
    }

    pub fn with_is_export(self, v: bool) -> (r: Self)
        ensures
            r.spec_bits() == with_field(self.spec_bits(), 0, 1, if v { 1 } else { 0 }),
    {
        DependencyFlags { bits: set_field(self.bits, 0, 1, if v { 1 } else { 0 }) }
    }

    pub fn set_is_export(&mut self, v: bool)
        ensures
            final(self).spec_bits() == with_field(old(self).spec_bits(), 0, 1, if v { 1 } else { 0 }),
    {
        self.bits = set_field(self.bits, 0, 1, if v { 1 } else { 0 });
    }

    pub fn is_deferred(&self) -> (r: bool)
        ensures
            r == (field_of(self.spec_bits(), 1, 1) == 1),
    {
        get_field(self.bits, 1, 1) == 1
    }

    pub fn with_is_deferred(self, v: bool) -> (r: Self)
        ensures
            r.spec_bits() == with_field(self.spec_bits(), 1, 1, if v { 1 } else { 0 }),
    {
        DependencyFlags { bits: set_field(self.bits, 1, 1, if v { 1 } else { 0 }) }
    }

    pub fn set_is_deferred(&mut self, v: bool)
        ensures
            final(self).spec_bits() == with_field(old(self).spec_bits(), 1, 1, if v { 1 } else { 0 }),
    {
        self.bits = set_field(self.bits, 1, 1, if v { 1 } else { 0 });
    }
}

impl DeepView for DependencyFlags {
    type V = DependencyFlags;

    open spec fn deep_view(&self) -> DependencyFlags {
        *self
    }
}

impl Codec for DependencyFlags {
    open spec fn encodable(&self) -> bool {
        self.bits < 0x100
    }

    open spec fn wire(&self) -> Seq<u8> {
        seq![self.bits as u8]
    }

    open spec fn parse(d: Seq<u8>, p: int) -> Option<(DependencyFlags, int)> {
        match u8_parse(d, p) {
            Some((b, q)) => Some((DependencyFlags { bits: b as u16 }, q)),
            None => None,
        }
    }

    proof fn lemma_round_trip(&self, pre: Seq<u8>, rest: Seq<u8>) {
        assert((pre + self.wire() + rest)[pre.len() as int] == self.bits as u8);
    }

    fn encode(&self, out: &mut Vec<u8>) -> (r: Result<(), KernelError>) {
        if self.bits >= 0x100 {
            return Err(KernelError::InvalidVarUint);
        }
        out.push(self.bits as u8);
        assert(out@ =~= old(out)@ + self.wire());
        Ok(())
    }

    fn decode(data: &[u8], pos: &mut usize) -> (r: Result<DependencyFlags, KernelError>) {
        let b = read_u8(data, pos)?;
        Ok(DependencyFlags { bits: b as u16 })
    }
}

/// The flag word of a show or hide combinator, 1 byte wide.
#[derive(Debug, Default, Clone, Copy, PartialEq, Eq, Structural)]
pub struct CombinatorFlags {
    pub bits: u16,
}

impl CombinatorFlags {
    /// The raw bits of the word.
    pub open spec fn spec_bits(&self) -> u16 {
        self.bits
    }

    /// A word with every bit clear.
    pub fn new() -> (r: Self)
        ensures
            r.spec_bits() == 0,
    {
        CombinatorFlags { bits: 0 }
    }

    pub fn from_bytes(bytes: [u8; 1]) -> (r: Self)
        ensures
            r.spec_bits() == bytes@[0] as u16,
    {
        CombinatorFlags { bits: bytes[0] as u16 }
    }

    pub fn into_bytes(self) -> (r: [u8; 1])
        requires
            self.spec_bits() < 0x100,
        ensures
            r@ == seq![self.spec_bits() as u8],
    {
        [self.bits as u8]
    }

    pub fn is_show(&self) -> (r: bool)
        ensures
            r == (field_of(self.spec_bits(), 0, 1) == 1),
    {
        get_field(self.bits, 0, 1) == 1
    }

    pub fn with_is_show(self, v: bool) -> (r: Self)
        ensures
            r.spec_bits() == with_field(self.spec_bits(), 0, 1, if v { 1 } else { 0 }),
    {
        CombinatorFlags { bits: set_field(self.bits, 0, 1, if v { 1 } else { 0 }) }
    }

    pub fn set_is_show(&mut self, v: bool)
        ensures
            final(self).spec_bits() == with_field(old(self).spec_bits(), 0, 1, if v { 1 } else { 0 }),
    {
        self.bits = set_field(self.bits, 0, 1, if v { 1 } else { 0 });
    }
}

impl DeepView for CombinatorFlags {
    type V = CombinatorFlags;

    open spec fn deep_view(&self) -> CombinatorFlags {
        *self
    }
}

impl Codec for CombinatorFlags {
    open spec fn encodable(&self) -> bool {
        self.bits < 0x100
    }

    open spec fn wire(&self) -> Seq<u8> {
        seq![self.bits as u8]
    }

    open spec fn parse(d: Seq<u8>, p: int) -> Option<(CombinatorFlags, int)> {
        match u8_parse(d, p) {
            Some((b, q)) => Some((CombinatorFlags { bits: b as u16 }, q)),
            None => None,
        }
    }

    proof fn lemma_round_trip(&self, pre: Seq<u8>, rest: Seq<u8>) {
        assert((pre + self.wire() + rest)[pre.len() as int] == self.bits as u8);
    }

    fn encode(&self, out: &mut Vec<u8>) -> (r: Result<(), KernelError>) {
        if self.bits >= 0x100 {
            return Err(KernelError::InvalidVarUint);
        }
        out.push(self.bits as u8);
        assert(out@ =~= old(out)@ + self.wire());
        Ok(())
    }

    fn decode(data: &[u8], pos: &mut usize) -> (r: Result<CombinatorFlags, KernelError>) {
        let b = read_u8(data, pos)?;
        Ok(CombinatorFlags { bits: b as u16 })
    }
}

/// The flag word of a class, 1 byte wide.
#[derive(Debug, Default, Clone, Copy, PartialEq, Eq, Structural)]
pub struct ClassFlags {
    pub bits: u16,
}

impl ClassFlags {
    /// The raw bits of the word.
    pub open spec fn spec_bits(&self) -> u16 {
        self.bits
    }

    /// A word with every bit clear.
    pub fn new() -> (r: Self)
        ensures
            r.spec_bits() == 0,
    {
        ClassFlags { bits: 0 }
    }

    pub fn from_bytes(bytes: [u8; 1]) -> (r: Self)
        ensures
            r.spec_bits() == bytes@[0] as u16,
    {
        ClassFlags { bits: bytes[0] as u16 }
    }

    pub fn into_bytes(self) -> (r: [u8; 1])
        requires
            self.spec_bits() < 0x100,
        ensures
            r@ == seq![self.spec_bits() as u8],
    {
        [self.bits as u8]
    }

    pub fn is_abstract(&self) -> (r: bool)
        ensures
            r == (field_of(self.spec_bits(), 0, 1) == 1),
    {
        get_field(self.bits, 0, 1) == 1
    }

    pub fn with_is_abstract(self, v: bool) -> (r: Self)
        ensures
            r.spec_bits() == with_field(self.spec_bits(), 0, 1, if v { 1 } else { 0 }),
    {
        ClassFlags { bits: set_field(self.bits, 0, 1, if v { 1 } else { 0 }) }
    }

    pub fn set_is_abstract(&mut self, v: bool)
        ensures
            final(self).spec_bits() == with_field(old(self).spec_bits(), 0, 1, if v { 1 } else { 0 }),
    {
        self.bits = set_field(self.bits, 0, 1, if v { 1 } else { 0 });
    }

    pub fn is_enum(&self) -> (r: bool)
        ensures
            r == (field_of(self.spec_bits(), 1, 1) == 1),
    {
        get_field(self.bits, 1, 1) == 1
    }

    pub fn with_is_enum(self, v: bool) -> (r: Self)
        ensures
            r.spec_bits() == with_field(self.spec_bits(), 1, 1, if v { 1 } else { 0 }),
    {
        ClassFlags { bits: set_field(self.bits, 1, 1, if v { 1 } else { 0 }) }
    }

    pub fn set_is_enum(&mut self, v: bool)
        ensures
            final(self).spec_bits() == with_field(old(self).spec_bits(), 1, 1, if v { 1 } else { 0 }),
    {
        self.bits = set_field(self.bits, 1, 1, if v { 1 } else { 0 });
    }

    pub fn is_anonymous_mixin(&self) -> (r: bool)
        ensures
            r == (field_of(self.spec_bits(), 2, 1) == 1),
    {
        get_field(self.bits, 2, 1) == 1
    }

    pub fn with_is_anonymous_mixin(self, v: bool) -> (r: Self)
        ensures
            r.spec_bits() == with_field(self.spec_bits(), 2, 1, if v { 1 } else { 0 }),
    {
        ClassFlags { bits: set_field(self.bits, 2, 1, if v { 1 } else { 0 }) }
    }

    pub fn set_is_anonymous_mixin(&mut self, v: bool)
        ensures
            final(self).spec_bits() == with_field(old(self).spec_bits(), 2, 1, if v { 1 } else { 0 }),
    {
        self.bits = set_field(self.bits, 2, 1, if v { 1 } else { 0 });
    }

    pub fn is_eliminated_mixin(&self) -> (r: bool)
        ensures
            r == (field_of(self.spec_bits(), 3, 1) == 1),
    {
        get_field(self.bits, 3, 1) == 1
    }

    pub fn with_is_eliminated_mixin(self, v: bool) -> (r: Self)
        ensures
            r.spec_bits() == with_field(self.spec_bits(), 3, 1, if v { 1 } else { 0 }),
    {
        ClassFlags { bits: set_field(self.bits, 3, 1, if v { 1 } else { 0 }) }
    }

    pub fn set_is_eliminated_mixin(&mut self, v: bool)
        ensures
            final(self).spec_bits() == with_field(old(self).spec_bits(), 3, 1, if v { 1 } else { 0 }),
    {
        self.bits = set_field(self.bits, 3, 1, if v { 1 } else { 0 });
    }

    pub fn is_mixin_declaration(&self) -> (r: bool)
        ensures
            r == (field_of(self.spec_bits(), 4, 1) == 1),
    {
        get_field(self.bits, 4, 1) == 1
    }

    pub fn with_is_mixin_declaration(self, v: bool) -> (r: Self)
        ensures
            r.spec_bits() == with_field(self.spec_bits(), 4, 1, if v { 1 } else { 0 }),
    {
        ClassFlags { bits: set_field(self.bits, 4, 1, if v { 1 } else { 0 }) }
    }

    pub fn set_is_mixin_declaration(&mut self, v: bool)
        ensures
            final(self).spec_bits() == with_field(old(self).spec_bits(), 4, 1, if v { 1 } else { 0 }),
    {
        self.bits = set_field(self.bits, 4, 1, if v { 1 } else { 0 });
    }

    pub fn has_const_constructor(&self) -> (r: bool)
        ensures
            r == (field_of(self.spec_bits(), 5, 1) == 1),
    {
        get_field(self.bits, 5, 1) == 1
    }

    pub fn with_has_const_constructor(self, v: bool) -> (r: Self)
        ensures
            r.spec_bits() == with_field(self.spec_bits(), 5, 1, if v { 1 } else { 0 }),
    {
        ClassFlags { bits: set_field(self.bits, 5, 1, if v { 1 } else { 0 }) }
    }

    pub fn set_has_const_constructor(&mut self, v: bool)
        ensures
            final(self).spec_bits() == with_field(old(self).spec_bits(), 5, 1, if v { 1 } else { 0 }),
    {
        self.bits = set_field(self.bits, 5, 1, if v { 1 } else { 0 });
    }

    pub fn is_macro(&self) -> (r: bool)
        ensures
            r == (field_of(self.spec_bits(), 6, 1) == 1),
    {
        get_field(self.bits, 6, 1) == 1
    }

    pub fn with_is_macro(self, v: bool) -> (r: Self)
        ensures
            r.spec_bits() == with_field(self.spec_bits(), 6, 1, if v { 1 } else { 0 }),
    {
        ClassFlags { bits: set_field(self.bits, 6, 1, if v { 1 } else { 0 }) }
    }

    pub fn set_is_macro(&mut self, v: bool)
        ensures
            final(self).spec_bits() == with_field(old(self).spec_bits(), 6, 1, if v { 1 } else { 0 }),
    {
        self.bits = set_field(self.bits, 6, 1, if v { 1 } else { 0 });
    }
}

impl DeepView for ClassFlags {
    type V = ClassFlags;

    open spec fn deep_view(&self) -> ClassFlags {
        *self
    }
}

impl Codec for ClassFlags {
    open spec fn encodable(&self) -> bool {
        self.bits < 0x100
    }

    open spec fn wire(&self) -> Seq<u8> {
        seq![self.bits as u8]
    }

    open spec fn parse(d: Seq<u8>, p: int) -> Option<(ClassFlags, int)> {
        match u8_parse(d, p) {
            Some((b, q)) => Some((ClassFlags { bits: b as u16 }, q)),
            None => None,
        }
    }

    proof fn lemma_round_trip(&self, pre: Seq<u8>, rest: Seq<u8>) {
        assert((pre + self.wire() + rest)[pre.len() as int] == self.bits as u8);
    }

    fn encode(&self, out: &mut Vec<u8>) -> (r: Result<(), KernelError>) {
        if self.bits >= 0x100 {
            return Err(KernelError::InvalidVarUint);
        }
        out.push(self.bits as u8);
        assert(out@ =~= old(out)@ + self.wire());
        Ok(())
    }

    fn decode(data: &[u8], pos: &mut usize) -> (r: Result<ClassFlags, KernelError>) {
        let b = read_u8(data, pos)?;
        Ok(ClassFlags { bits: b as u16 })
    }
}

/// The flag word of a field, 2 bytes wide.
#[derive(Debug, Default, Clone, Copy, PartialEq, Eq, Structural)]
pub struct FieldFlags {
    pub bits: u16,
}

impl FieldFlags {
    /// The raw bits of the word.
    pub open spec fn spec_bits(&self) -> u16 {
        self.bits
    }

    /// A word with every bit clear.
    pub fn new() -> (r: Self)
        ensures
            r.spec_bits() == 0,
    {
        FieldFlags { bits: 0 }
    }

    /// The word from its two wire bytes, low byte first.
    pub fn from_bytes(bytes: [u8; 2]) -> (r: Self)
        ensures
            r.spec_bits() == bytes@[0] as u16 + 256 * (bytes@[1] as u16),
    {
        FieldFlags { bits: bytes[0] as u16 + 256 * (bytes[1] as u16) }
    }

    /// The two wire bytes of the word, low byte first.
    pub fn into_bytes(self) -> (r: [u8; 2])
        ensures
            r@ == seq![(self.spec_bits() % 256) as u8, (self.spec_bits() / 256) as u8],
    {
        [(self.bits % 256) as u8, (self.bits / 256) as u8]
    }

    pub fn is_internal_impl(&self) -> (r: bool)
        ensures
            r == (field_of(self.spec_bits(), 0, 1) == 1),
    {
        get_field(self.bits, 0, 1) == 1
    }

    pub fn with_is_internal_impl(self, v: bool) -> (r: Self)
        ensures
            r.spec_bits() == with_field(self.spec_bits(), 0, 1, if v { 1 } else { 0 }),
    {
        FieldFlags { bits: set_field(self.bits, 0, 1, if v { 1 } else { 0 }) }
    }

    pub fn set_is_internal_impl(&mut self, v: bool)
        ensures
            final(self).spec_bits() == with_field(old(self).spec_bits(), 0, 1, if v { 1 } else { 0 }),
    {
        self.bits = set_field(self.bits, 0, 1, if v { 1 } else { 0 });
    }

    pub fn uint_extension(&self) -> (r: u8)
        ensures
            r as u16 == field_of(self.spec_bits(), 7, 1),
    {
        get_field(self.bits, 7, 1) as u8
    }

    pub fn with_uint_extension(self, v: u8) -> (r: Self)
        ensures
            r.spec_bits() == with_field(self.spec_bits(), 7, 1, v as u16),
    {
        FieldFlags { bits: set_field(self.bits, 7, 1, v as u16) }
    }

    pub fn set_uint_extension(&mut self, v: u8)
        ensures
            final(self).spec_bits() == with_field(old(self).spec_bits(), 7, 1, v as u16),
    {
        self.bits = set_field(self.bits, 7, 1, v as u16);
    }

    pub fn is_final(&self) -> (r: bool)
        ensures
            r == (field_of(self.spec_bits(), 8, 1) == 1),
    {
        get_field(self.bits, 8, 1) == 1
    }

    pub fn with_is_final(self, v: bool) -> (r: Self)
        ensures
            r.spec_bits() == with_field(self.spec_bits(), 8, 1, if v { 1 } else { 0 }),
    {
        FieldFlags { bits: set_field(self.bits, 8, 1, if v { 1 } else { 0 }) }
    }

    pub fn set_is_final(&mut self, v: bool)
        ensures
            final(self).spec_bits() == with_field(old(self).spec_bits(), 8, 1, if v { 1 } else { 0 }),
    {
        self.bits = set_field(self.bits, 8, 1, if v { 1 } else { 0 });
    }

    pub fn is_const(&self) -> (r: bool)
        ensures
            r == (field_of(self.spec_bits(), 9, 1) == 1),
    {
        get_field(self.bits, 9, 1) == 1
    }

    pub fn with_is_const(self, v: bool) -> (r: Self)
        ensures
            r.spec_bits() == with_field(self.spec_bits(), 9, 1, if v { 1 } else { 0 }),
    {
        FieldFlags { bits: set_field(self.bits, 9, 1, if v { 1 } else { 0 }) }
    }

    pub fn set_is_const(&mut self, v: bool)
        ensures
            final(self).spec_bits() == with_field(old(self).spec_bits(), 9, 1, if v { 1 } else { 0 }),
    {
        self.bits = set_field(self.bits, 9, 1, if v { 1 } else { 0 });
    }

    pub fn is_static(&self) -> (r: bool)
        ensures
            r == (field_of(self.spec_bits(), 10, 1) == 1),
    {
        get_field(self.bits, 10, 1) == 1
    }

    pub fn with_is_static(self, v: bool) -> (r: Self)
        ensures
            r.spec_bits() == with_field(self.spec_bits(), 10, 1, if v { 1 } else { 0 }),
    {
        FieldFlags { bits: set_field(self.bits, 10, 1, if v { 1 } else { 0 }) }
    }

    pub fn set_is_static(&mut self, v: bool)
        ensures
            final(self).spec_bits() == with_field(old(self).spec_bits(), 10, 1, if v { 1 } else { 0 }),
    {
        self.bits = set_field(self.bits, 10, 1, if v { 1 } else { 0 });
    }

    pub fn is_covariant_by_decl(&self) -> (r: bool)
        ensures
            r == (field_of(self.spec_bits(), 11, 1) == 1),
    {
        get_field(self.bits, 11, 1) == 1
    }

    pub fn with_is_covariant_by_decl(self, v: bool) -> (r: Self)
        ensures
            r.spec_bits() == with_field(self.spec_bits(), 11, 1, if v { 1 } else { 0 }),
    {
        FieldFlags { bits: set_field(self.bits, 11, 1, if v { 1 } else { 0 }) }
    }

    pub fn set_is_covariant_by_decl(&mut self, v: bool)
        ensures
            final(self).spec_bits() == with_field(old(self).spec_bits(), 11, 1, if v { 1 } else { 0 }),
    {
        self.bits = set_field(self.bits, 11, 1, if v { 1 } else { 0 });
    }

    pub fn is_covariant_by_class(&self) -> (r: bool)
        ensures
            r == (field_of(self.spec_bits(), 12, 1) == 1),
    {
        get_field(self.bits, 12, 1) == 1
    }

    pub fn with_is_covariant_by_class(self, v: bool) -> (r: Self)
        ensures
            r.spec_bits() == with_field(self.spec_bits(), 12, 1, if v { 1 } else { 0 }),
    {
        FieldFlags { bits: set_field(self.bits, 12, 1, if v { 1 } else { 0 }) }
    }

    pub fn set_is_covariant_by_class(&mut self, v: bool)
        ensures
            final(self).spec_bits() == with_field(old(self).spec_bits(), 12, 1, if v { 1 } else { 0 }),
    {
        self.bits = set_field(self.bits, 12, 1, if v { 1 } else { 0 });
    }

    pub fn is_late(&self) -> (r: bool)
        ensures
            r == (field_of(self.spec_bits(), 13, 1) == 1),
    {
        get_field(self.bits, 13, 1) == 1
    }

    pub fn with_is_late(self, v: bool) -> (r: Self)
        ensures
            r.spec_bits() == with_field(self.spec_bits(), 13, 1, if v { 1 } else { 0 }),
    {
        FieldFlags { bits: set_field(self.bits, 13, 1, if v { 1 } else { 0 }) }
    }

    pub fn set_is_late(&mut self, v: bool)
        ensures
            final(self).spec_bits() == with_field(old(self).spec_bits(), 13, 1, if v { 1 } else { 0 }),
    {
        self.bits = set_field(self.bits, 13, 1, if v { 1 } else { 0 });
    }

    pub fn is_extension_member(&self) -> (r: bool)
        ensures
            r == (field_of(self.spec_bits(), 14, 1) == 1),
    {
        get_field(self.bits, 14, 1) == 1
    }

    pub fn with_is_extension_member(self, v: bool) -> (r: Self)
        ensures
            r.spec_bits() == with_field(self.spec_bits(), 14, 1, if v { 1 } else { 0 }),
    {
        FieldFlags { bits: set_field(self.bits, 14, 1, if v { 1 } else { 0 }) }
    }

    pub fn set_is_extension_member(&mut self, v: bool)
        ensures
            final(self).spec_bits() == with_field(old(self).spec_bits(), 14, 1, if v { 1 } else { 0 }),
    {
        self.bits = set_field(self.bits, 14, 1, if v { 1 } else { 0 });
    }

    pub fn is_non_nullable_by_default(&self) -> (r: bool)
        ensures
            r == (field_of(self.spec_bits(), 15, 1) == 1),
    {
        get_field(self.bits, 15, 1) == 1
    }

    pub fn with_is_non_nullable_by_default(self, v: bool) -> (r: Self)
        ensures
            r.spec_bits() == with_field(self.spec_bits(), 15, 1, if v { 1 } else { 0 }),
    {
        FieldFlags { bits: set_field(self.bits, 15, 1, if v { 1 } else { 0 }) }
    }

    pub fn set_is_non_nullable_by_default(&mut self, v: bool)
        ensures
            final(self).spec_bits() == with_field(old(self).spec_bits(), 15, 1, if v { 1 } else { 0 }),
    {
        self.bits = set_field(self.bits, 15, 1, if v { 1 } else { 0 });
    }
}

impl DeepView for FieldFlags {
    type V = FieldFlags;

    open spec fn deep_view(&self) -> FieldFlags {
        *self
    }
}

impl Codec for FieldFlags {
    open spec fn encodable(&self) -> bool {
        true
    }

    open spec fn wire(&self) -> Seq<u8> {
        seq![(self.bits % 256) as u8, (self.bits / 256) as u8]
    }

    open spec fn parse(d: Seq<u8>, p: int) -> Option<(FieldFlags, int)> {
        if 0 <= p && p + 2 <= d.len() {
            Some((FieldFlags { bits: (d[p] as u16 + 256 * (d[p + 1] as u16)) as u16 }, p + 2))
        } else {
            None
        }
    }

    proof fn lemma_round_trip(&self, pre: Seq<u8>, rest: Seq<u8>) {
        let d = pre + self.wire() + rest;
        assert(d[pre.len() as int] == (self.bits % 256) as u8);
        assert(d[pre.len() + 1int] == (self.bits / 256) as u8);
    }

    fn encode(&self, out: &mut Vec<u8>) -> (r: Result<(), KernelError>) {
        out.push((self.bits % 256) as u8);
        out.push((self.bits / 256) as u8);
        assert(out@ =~= old(out)@ + self.wire());
        Ok(())
    }

    fn decode(data: &[u8], pos: &mut usize) -> (r: Result<FieldFlags, KernelError>) {
        let lo = read_u8(data, pos)?;
        let hi = read_u8(data, pos)?;
        Ok(FieldFlags { bits: lo as u16 + 256 * (hi as u16) })
    }
}

/// The flag word of a constructor, 1 byte wide.
#[derive(Debug, Default, Clone, Copy, PartialEq, Eq, Structural)]
pub struct ConstructorFlags {
    pub bits: u16,
}

impl ConstructorFlags {
    /// The raw bits of the word.
    pub open spec fn spec_bits(&self) -> u16 {
        self.bits
    }

    /// A word with every bit clear.
    pub fn new() -> (r: Self)
        ensures
            r.spec_bits() == 0,
    {
        ConstructorFlags { bits: 0 }
    }

    pub fn from_bytes(bytes: [u8; 1]) -> (r: Self)
        ensures
            r.spec_bits() == bytes@[0] as u16,
    {
        ConstructorFlags { bits: bytes[0] as u16 }
    }

    pub fn into_bytes(self) -> (r: [u8; 1])
        requires
            self.spec_bits() < 0x100,
        ensures
            r@ == seq![self.spec_bits() as u8],
    {
        [self.bits as u8]
    }

    pub fn is_const(&self) -> (r: bool)
        ensures
            r == (field_of(self.spec_bits(), 0, 1) == 1),
    {
        get_field(self.bits, 0, 1) == 1
    }

    pub fn with_is_const(self, v: bool) -> (r: Self)
        ensures
            r.spec_bits() == with_field(self.spec_bits(), 0, 1, if v { 1 } else { 0 }),
    {
        ConstructorFlags { bits: set_field(self.bits, 0, 1, if v { 1 } else { 0 }) }
    }

    pub fn set_is_const(&mut self, v: bool)
        ensures
            final(self).spec_bits() == with_field(old(self).spec_bits(), 0, 1, if v { 1 } else { 0 }),
    {
        self.bits = set_field(self.bits, 0, 1, if v { 1 } else { 0 });
    }

    pub fn is_external(&self) -> (r: bool)
        ensures
            r == (field_of(self.spec_bits(), 1, 1) == 1),
    {
        get_field(self.bits, 1, 1) == 1
    }

    pub fn with_is_external(self, v: bool) -> (r: Self)
        ensures
            r.spec_bits() == with_field(self.spec_bits(), 1, 1, if v { 1 } else { 0 }),
    {
        ConstructorFlags { bits: set_field(self.bits, 1, 1, if v { 1 } else { 0 }) }
    }

    pub fn set_is_external(&mut self, v: bool)
        ensures
            final(self).spec_bits() == with_field(old(self).spec_bits(), 1, 1, if v { 1 } else { 0 }),
    {
        self.bits = set_field(self.bits, 1, 1, if v { 1 } else { 0 });
    }

    pub fn is_synthetic(&self) -> (r: bool)
        ensures
            r == (field_of(self.spec_bits(), 2, 1) == 1),
    {
        get_field(self.bits, 2, 1) == 1
    }

    pub fn with_is_synthetic(self, v: bool) -> (r: Self)
        ensures
            r.spec_bits() == with_field(self.spec_bits(), 2, 1, if v { 1 } else { 0 }),
    {
        ConstructorFlags { bits: set_field(self.bits, 2, 1, if v { 1 } else { 0 }) }
    }

    pub fn set_is_synthetic(&mut self, v: bool)
        ensures
            final(self).spec_bits() == with_field(old(self).spec_bits(), 2, 1, if v { 1 } else { 0 }),
    {
        self.bits = set_field(self.bits, 2, 1, if v { 1 } else { 0 });
    }

    pub fn is_non_nullable_by_default(&self) -> (r: bool)
        ensures
            r == (field_of(self.spec_bits(), 3, 1) == 1),
    {
        get_field(self.bits, 3, 1) == 1
    }

    pub fn with_is_non_nullable_by_default(self, v: bool) -> (r: Self)
        ensures
            r.spec_bits() == with_field(self.spec_bits(), 3, 1, if v { 1 } else { 0 }),
    {
        ConstructorFlags { bits: set_field(self.bits, 3, 1, if v { 1 } else { 0 }) }
    }

    pub fn set_is_non_nullable_by_default(&mut self, v: bool)
        ensures
            final(self).spec_bits() == with_field(old(self).spec_bits(), 3, 1, if v { 1 } else { 0 }),
    {
        self.bits = set_field(self.bits, 3, 1, if v { 1 } else { 0 });
    }
}

impl DeepView for ConstructorFlags {
    type V = ConstructorFlags;

    open spec fn deep_view(&self) -> ConstructorFlags {
        *self
    }
}

impl Codec for ConstructorFlags {
    open spec fn encodable(&self) -> bool {
        self.bits < 0x100
    }

    open spec fn wire(&self) -> Seq<u8> {
        seq![self.bits as u8]
    }

    open spec fn parse(d: Seq<u8>, p: int) -> Option<(ConstructorFlags, int)> {
        match u8_parse(d, p) {
            Some((b, q)) => Some((ConstructorFlags { bits: b as u16 }, q)),
            None => None,
        }
    }

    proof fn lemma_round_trip(&self, pre: Seq<u8>, rest: Seq<u8>) {
        assert((pre + self.wire() + rest)[pre.len() as int] == self.bits as u8);
    }

    fn encode(&self, out: &mut Vec<u8>) -> (r: Result<(), KernelError>) {
        if self.bits >= 0x100 {
            return Err(KernelError::InvalidVarUint);
        }
        out.push(self.bits as u8);
        assert(out@ =~= old(out)@ + self.wire());
        Ok(())
    }

    fn decode(data: &[u8], pos: &mut usize) -> (r: Result<ConstructorFlags, KernelError>) {
        let b = read_u8(data, pos)?;
        Ok(ConstructorFlags { bits: b as u16 })
    }
}

/// The flag word of a procedure, 1 byte wide.
#[derive(Debug, Default, Clone, Copy, PartialEq, Eq, Structural)]
pub struct ProcedureFlags {
    pub bits: u16,
}

impl ProcedureFlags {
    /// The raw bits of the word.
    pub open spec fn spec_bits(&self) -> u16 {
        self.bits
    }

    /// A word with every bit clear.
    pub fn new() -> (r: Self)
        ensures
            r.spec_bits() == 0,
    {
        ProcedureFlags { bits: 0 }
    }

    pub fn from_bytes(bytes: [u8; 1]) -> (r: Self)
        ensures
            r.spec_bits() == bytes@[0] as u16,
    {
        ProcedureFlags { bits: bytes[0] as u16 }
    }

    pub fn into_bytes(self) -> (r: [u8; 1])
        requires
            self.spec_bits() < 0x100,
        ensures
            r@ == seq![self.spec_bits() as u8],
    {
        [self.bits as u8]
    }

    pub fn is_static(&self) -> (r: bool)
        ensures
            r == (field_of(self.spec_bits(), 0, 1) == 1),
    {
        get_field(self.bits, 0, 1) == 1
    }

    pub fn with_is_static(self, v: bool) -> (r: Self)
        ensures
            r.spec_bits() == with_field(self.spec_bits(), 0, 1, if v { 1 } else { 0 }),
    {
        ProcedureFlags { bits: set_field(self.bits, 0, 1, if v { 1 } else { 0 }) }
    }

    pub fn set_is_static(&mut self, v: bool)
        ensures
            final(self).spec_bits() == with_field(old(self).spec_bits(), 0, 1, if v { 1 } else { 0 }),
    {
        self.bits = set_field(self.bits, 0, 1, if v { 1 } else { 0 });
    }

    pub fn is_abstract(&self) -> (r: bool)
        ensures
            r == (field_of(self.spec_bits(), 1, 1) == 1),
    {
        get_field(self.bits, 1, 1) == 1
    }

    pub fn with_is_abstract(self, v: bool) -> (r: Self)
        ensures
            r.spec_bits() == with_field(self.spec_bits(), 1, 1, if v { 1 } else { 0 }),
    {
        ProcedureFlags { bits: set_field(self.bits, 1, 1, if v { 1 } else { 0 }) }
    }

    pub fn set_is_abstract(&mut self, v: bool)
        ensures
            final(self).spec_bits() == with_field(old(self).spec_bits(), 1, 1, if v { 1 } else { 0 }),
    {
        self.bits = set_field(self.bits, 1, 1, if v { 1 } else { 0 });
    }

    pub fn is_external(&self) -> (r: bool)
        ensures
            r == (field_of(self.spec_bits(), 2, 1) == 1),
    {
        get_field(self.bits, 2, 1) == 1
    }

    pub fn with_is_external(self, v: bool) -> (r: Self)
        ensures
            r.spec_bits() == with_field(self.spec_bits(), 2, 1, if v { 1 } else { 0 }),
    {
        ProcedureFlags { bits: set_field(self.bits, 2, 1, if v { 1 } else { 0 }) }
    }

    pub fn set_is_external(&mut self, v: bool)
        ensures
            final(self).spec_bits() == with_field(old(self).spec_bits(), 2, 1, if v { 1 } else { 0 }),
    {
        self.bits = set_field(self.bits, 2, 1, if v { 1 } else { 0 });
    }

    pub fn is_const(&self) -> (r: bool)
        ensures
            r == (field_of(self.spec_bits(), 3, 1) == 1),
    {
        get_field(self.bits, 3, 1) == 1
    }

    pub fn with_is_const(self, v: bool) -> (r: Self)
        ensures
            r.spec_bits() == with_field(self.spec_bits(), 3, 1, if v { 1 } else { 0 }),
    {
        ProcedureFlags { bits: set_field(self.bits, 3, 1, if v { 1 } else { 0 }) }
    }

    pub fn set_is_const(&mut self, v: bool)
        ensures
            final(self).spec_bits() == with_field(old(self).spec_bits(), 3, 1, if v { 1 } else { 0 }),
    {
        self.bits = set_field(self.bits, 3, 1, if v { 1 } else { 0 });
    }

    pub fn is_redirecting_factory(&self) -> (r: bool)
        ensures
            r == (field_of(self.spec_bits(), 4, 1) == 1),
    {
        get_field(self.bits, 4, 1) == 1
    }

    pub fn with_is_redirecting_factory(self, v: bool) -> (r: Self)
        ensures
            r.spec_bits() == with_field(self.spec_bits(), 4, 1, if v { 1 } else { 0 }),
    {
        ProcedureFlags { bits: set_field(self.bits, 4, 1, if v { 1 } else { 0 }) }
    }

    pub fn set_is_redirecting_factory(&mut self, v: bool)
        ensures
            final(self).spec_bits() == with_field(old(self).spec_bits(), 4, 1, if v { 1 } else { 0 }),
    {
        self.bits = set_field(self.bits, 4, 1, if v { 1 } else { 0 });
    }

    pub fn is_extension_member(&self) -> (r: bool)
        ensures
            r == (field_of(self.spec_bits(), 5, 1) == 1),
    {
        get_field(self.bits, 5, 1) == 1
    }

    pub fn with_is_extension_member(self, v: bool) -> (r: Self)
        ensures
            r.spec_bits() == with_field(self.spec_bits(), 5, 1, if v { 1 } else { 0 }),
    {
        ProcedureFlags { bits: set_field(self.bits, 5, 1, if v { 1 } else { 0 }) }
    }

    pub fn set_is_extension_member(&mut self, v: bool)
        ensures
            final(self).spec_bits() == with_field(old(self).spec_bits(), 5, 1, if v { 1 } else { 0 }),
    {
        self.bits = set_field(self.bits, 5, 1, if v { 1 } else { 0 });
    }

    pub fn is_non_nullable_by_default(&self) -> (r: bool)
        ensures
            r == (field_of(self.spec_bits(), 6, 1) == 1),
    {
        get_field(self.bits, 6, 1) == 1
    }

    pub fn with_is_non_nullable_by_default(self, v: bool) -> (r: Self)
        ensures
            r.spec_bits() == with_field(self.spec_bits(), 6, 1, if v { 1 } else { 0 }),
    {
        ProcedureFlags { bits: set_field(self.bits, 6, 1, if v { 1 } else { 0 }) }
    }

    pub fn set_is_non_nullable_by_default(&mut self, v: bool)
        ensures
            final(self).spec_bits() == with_field(old(self).spec_bits(), 6, 1, if v { 1 } else { 0 }),
    {
        self.bits = set_field(self.bits, 6, 1, if v { 1 } else { 0 });
    }
}

impl DeepView for ProcedureFlags {
    type V = ProcedureFlags;

    open spec fn deep_view(&self) -> ProcedureFlags {
        *self
    }
}

impl Codec for ProcedureFlags {
    open spec fn encodable(&self) -> bool {
        self.bits < 0x100
    }

    open spec fn wire(&self) -> Seq<u8> {
        seq![self.bits as u8]
    }

    open spec fn parse(d: Seq<u8>, p: int) -> Option<(ProcedureFlags, int)> {
        match u8_parse(d, p) {
            Some((b, q)) => Some((ProcedureFlags { bits: b as u16 }, q)),
            None => None,
        }
    }

    proof fn lemma_round_trip(&self, pre: Seq<u8>, rest: Seq<u8>) {
        assert((pre + self.wire() + rest)[pre.len() as int] == self.bits as u8);
    }

    fn encode(&self, out: &mut Vec<u8>) -> (r: Result<(), KernelError>) {
        if self.bits >= 0x100 {
            return Err(KernelError::InvalidVarUint);
        }
        out.push(self.bits as u8);
        assert(out@ =~= old(out)@ + self.wire());
        Ok(())
    }

    fn decode(data: &[u8], pos: &mut usize) -> (r: Result<ProcedureFlags, KernelError>) {
        let b = read_u8(data, pos)?;
        Ok(ProcedureFlags { bits: b as u16 })
    }
}

/// The flag word of an instance invocation, 1 byte wide.
#[derive(Debug, Default, Clone, Copy, PartialEq, Eq, Structural)]
pub struct InvocationFlags {
    pub bits: u16,
}

impl InvocationFlags {
    /// The raw bits of the word.
    pub open spec fn spec_bits(&self) -> u16 {
        self.bits
    }

    /// A word with every bit clear.
    pub fn new() -> (r: Self)
        ensures
            r.spec_bits() == 0,
    {
        InvocationFlags { bits: 0 }
    }

    pub fn from_bytes(bytes: [u8; 1]) -> (r: Self)
        ensures
            r.spec_bits() == bytes@[0] as u16,
    {
        InvocationFlags { bits: bytes[0] as u16 }
    }

    pub fn into_bytes(self) -> (r: [u8; 1])
        requires
            self.spec_bits() < 0x100,
        ensures
            r@ == seq![self.spec_bits() as u8],
    {
        [self.bits as u8]
    }

    pub fn is_invariant(&self) -> (r: bool)
        ensures
            r == (field_of(self.spec_bits(), 0, 1) == 1),
    {
        get_field(self.bits, 0, 1) == 1
    }

    pub fn with_is_invariant(self, v: bool) -> (r: Self)
        ensures
            r.spec_bits() == with_field(self.spec_bits(), 0, 1, if v { 1 } else { 0 }),
    {
        InvocationFlags { bits: set_field(self.bits, 0, 1, if v { 1 } else { 0 }) }
    }

    pub fn set_is_invariant(&mut self, v: bool)
        ensures
            final(self).spec_bits() == with_field(old(self).spec_bits(), 0, 1, if v { 1 } else { 0 }),
    {
        self.bits = set_field(self.bits, 0, 1, if v { 1 } else { 0 });
    }

    pub fn is_bounds_safe(&self) -> (r: bool)
        ensures
            r == (field_of(self.spec_bits(), 1, 1) == 1),
    {
        get_field(self.bits, 1, 1) == 1
    }

    pub fn with_is_bounds_safe(self, v: bool) -> (r: Self)
        ensures
            r.spec_bits() == with_field(self.spec_bits(), 1, 1, if v { 1 } else { 0 }),
    {
        InvocationFlags { bits: set_field(self.bits, 1, 1, if v { 1 } else { 0 }) }
    }

    pub fn set_is_bounds_safe(&mut self, v: bool)
        ensures
            final(self).spec_bits() == with_field(old(self).spec_bits(), 1, 1, if v { 1 } else { 0 }),
    {
        self.bits = set_field(self.bits, 1, 1, if v { 1 } else { 0 });
    }
}

impl DeepView for InvocationFlags {
    type V = InvocationFlags;

    open spec fn deep_view(&self) -> InvocationFlags {
        *self
    }
}

impl Codec for InvocationFlags {
    open spec fn encodable(&self) -> bool {
        self.bits < 0x100
    }

    open spec fn wire(&self) -> Seq<u8> {
        seq![self.bits as u8]
    }

    open spec fn parse(d: Seq<u8>, p: int) -> Option<(InvocationFlags, int)> {
        match u8_parse(d, p) {
            Some((b, q)) => Some((InvocationFlags { bits: b as u16 }, q)),
            None => None,
        }
    }

    proof fn lemma_round_trip(&self, pre: Seq<u8>, rest: Seq<u8>) {
        assert((pre + self.wire() + rest)[pre.len() as int] == self.bits as u8);
    }

    fn encode(&self, out: &mut Vec<u8>) -> (r: Result<(), KernelError>) {
        if self.bits >= 0x100 {
            return Err(KernelError::InvalidVarUint);
        }
        out.push(self.bits as u8);
        assert(out@ =~= old(out)@ + self.wire());
        Ok(())
    }

    fn decode(data: &[u8], pos: &mut usize) -> (r: Result<InvocationFlags, KernelError>) {
        let b = read_u8(data, pos)?;
        Ok(InvocationFlags { bits: b as u16 })
    }
}

/// The flag word of a cast, 1 byte wide.
#[derive(Debug, Default, Clone, Copy, PartialEq, Eq, Structural)]
pub struct DynamicCastFlags {
    pub bits: u16,
}

impl DynamicCastFlags {
    /// The raw bits of the word.
    pub open spec fn spec_bits(&self) -> u16 {
        self.bits
    }

    /// A word with every bit clear.
    pub fn new() -> (r: Self)
        ensures
            r.spec_bits() == 0,
    {
        DynamicCastFlags { bits: 0 }
    }

    pub fn from_bytes(bytes: [u8; 1]) -> (r: Self)
        ensures
            r.spec_bits() == bytes@[0] as u16,
    {
        DynamicCastFlags { bits: bytes[0] as u16 }
    }

    pub fn into_bytes(self) -> (r: [u8; 1])
        requires
            self.spec_bits() < 0x100,
        ensures
            r@ == seq![self.spec_bits() as u8],
    {
        [self.bits as u8]
    }

    pub fn is_type_error(&self) -> (r: bool)
        ensures
            r == (field_of(self.spec_bits(), 0, 1) == 1),
    {
        get_field(self.bits, 0, 1) == 1
    }

    pub fn with_is_type_error(self, v: bool) -> (r: Self)
        ensures
            r.spec_bits() == with_field(self.spec_bits(), 0, 1, if v { 1 } else { 0 }),
    {
        DynamicCastFlags { bits: set_field(self.bits, 0, 1, if v { 1 } else { 0 }) }
    }

    pub fn set_is_type_error(&mut self, v: bool)
        ensures
            final(self).spec_bits() == with_field(old(self).spec_bits(), 0, 1, if v { 1 } else { 0 }),
    {
        self.bits = set_field(self.bits, 0, 1, if v { 1 } else { 0 });
    }

    pub fn is_covariance_check(&self) -> (r: bool)
        ensures
            r == (field_of(self.spec_bits(), 1, 1) == 1),
    {
        get_field(self.bits, 1, 1) == 1
    }

    pub fn with_is_covariance_check(self, v: bool) -> (r: Self)
        ensures
            r.spec_bits() == with_field(self.spec_bits(), 1, 1, if v { 1 } else { 0 }),
    {
        DynamicCastFlags { bits: set_field(self.bits, 1, 1, if v { 1 } else { 0 }) }
    }

    pub fn set_is_covariance_check(&mut self, v: bool)
        ensures
            final(self).spec_bits() == with_field(old(self).spec_bits(), 1, 1, if v { 1 } else { 0 }),
    {
        self.bits = set_field(self.bits, 1, 1, if v { 1 } else { 0 });
    }

    pub fn is_for_dynamic(&self) -> (r: bool)
        ensures
            r == (field_of(self.spec_bits(), 2, 1) == 1),
    {
        get_field(self.bits, 2, 1) == 1
    }

    pub fn with_is_for_dynamic(self, v: bool) -> (r: Self)
        ensures
            r.spec_bits() == with_field(self.spec_bits(), 2, 1, if v { 1 } else { 0 }),
    {
        DynamicCastFlags { bits: set_field(self.bits, 2, 1, if v { 1 } else { 0 }) }
    }

    pub fn set_is_for_dynamic(&mut self, v: bool)
        ensures
            final(self).spec_bits() == with_field(old(self).spec_bits(), 2, 1, if v { 1 } else { 0 }),
    {
        self.bits = set_field(self.bits, 2, 1, if v { 1 } else { 0 });
    }

    pub fn is_for_non_nullable_by_default(&self) -> (r: bool)
        ensures
            r == (field_of(self.spec_bits(), 3, 1) == 1),
    {
        get_field(self.bits, 3, 1) == 1
    }

    pub fn with_is_for_non_nullable_by_default(self, v: bool) -> (r: Self)
        ensures
            r.spec_bits() == with_field(self.spec_bits(), 3, 1, if v { 1 } else { 0 }),
    {
        DynamicCastFlags { bits: set_field(self.bits, 3, 1, if v { 1 } else { 0 }) }
    }

    pub fn set_is_for_non_nullable_by_default(&mut self, v: bool)
        ensures
            final(self).spec_bits() == with_field(old(self).spec_bits(), 3, 1, if v { 1 } else { 0 }),
    {
        self.bits = set_field(self.bits, 3, 1, if v { 1 } else { 0 });
    }
}

impl DeepView for DynamicCastFlags {
    type V = DynamicCastFlags;

    open spec fn deep_view(&self) -> DynamicCastFlags {
        *self
    }
}

impl Codec for DynamicCastFlags {
    open spec fn encodable(&self) -> bool {
        self.bits < 0x100
    }

    open spec fn wire(&self) -> Seq<u8> {
        seq![self.bits as u8]
    }

    open spec fn parse(d: Seq<u8>, p: int) -> Option<(DynamicCastFlags, int)> {
        match u8_parse(d, p) {
            Some((b, q)) => Some((DynamicCastFlags { bits: b as u16 }, q)),
            None => None,
        }
    }

    proof fn lemma_round_trip(&self, pre: Seq<u8>, rest: Seq<u8>) {
        assert((pre + self.wire() + rest)[pre.len() as int] == self.bits as u8);
    }

    fn encode(&self, out: &mut Vec<u8>) -> (r: Result<(), KernelError>) {
        if self.bits >= 0x100 {
            return Err(KernelError::InvalidVarUint);
        }
        out.push(self.bits as u8);
        assert(out@ =~= old(out)@ + self.wire());
        Ok(())
    }

    fn decode(data: &[u8], pos: &mut usize) -> (r: Result<DynamicCastFlags, KernelError>) {
        let b = read_u8(data, pos)?;
        Ok(DynamicCastFlags { bits: b as u16 })
    }
}

/// The flag word of a variable declaration, 1 byte wide.
#[derive(Debug, Default, Clone, Copy, PartialEq, Eq, Structural)]
pub struct VarDeclFlags {
    pub bits: u16,
}

impl VarDeclFlags {
    /// The raw bits of the word.
    pub open spec fn spec_bits(&self) -> u16 {
        self.bits
    }

    /// A word with every bit clear.
    pub fn new() -> (r: Self)
        ensures
            r.spec_bits() == 0,
    {
        VarDeclFlags { bits: 0 }
    }

    pub fn from_bytes(bytes: [u8; 1]) -> (r: Self)
        ensures
            r.spec_bits() == bytes@[0] as u16,
    {
        VarDeclFlags { bits: bytes[0] as u16 }
    }

    pub fn into_bytes(self) -> (r: [u8; 1])
        requires
            self.spec_bits() < 0x100,
        ensures
            r@ == seq![self.spec_bits() as u8],
    {
        [self.bits as u8]
    }

    pub fn is_final(&self) -> (r: bool)
        ensures
            r == (field_of(self.spec_bits(), 0, 1) == 1),
    {
        get_field(self.bits, 0, 1) == 1
    }

    pub fn with_is_final(self, v: bool) -> (r: Self)
        ensures
            r.spec_bits() == with_field(self.spec_bits(), 0, 1, if v { 1 } else { 0 }),
    {
        VarDeclFlags { bits: set_field(self.bits, 0, 1, if v { 1 } else { 0 }) }
    }

    pub fn set_is_final(&mut self, v: bool)
        ensures
            final(self).spec_bits() == with_field(old(self).spec_bits(), 0, 1, if v { 1 } else { 0 }),
    {
        self.bits = set_field(self.bits, 0, 1, if v { 1 } else { 0 });
    }

    pub fn is_const(&self) -> (r: bool)
        ensures
            r == (field_of(self.spec_bits(), 1, 1) == 1),
    {
        get_field(self.bits, 1, 1) == 1
    }

    pub fn with_is_const(self, v: bool) -> (r: Self)
        ensures
            r.spec_bits() == with_field(self.spec_bits(), 1, 1, if v { 1 } else { 0 }),
    {
        VarDeclFlags { bits: set_field(self.bits, 1, 1, if v { 1 } else { 0 }) }
    }

    pub fn set_is_const(&mut self, v: bool)
        ensures
            final(self).spec_bits() == with_field(old(self).spec_bits(), 1, 1, if v { 1 } else { 0 }),
    {
        self.bits = set_field(self.bits, 1, 1, if v { 1 } else { 0 });
    }

    pub fn is_initializing_formal(&self) -> (r: bool)
        ensures
            r == (field_of(self.spec_bits(), 2, 1) == 1),
    {
        get_field(self.bits, 2, 1) == 1
    }

    pub fn with_is_initializing_formal(self, v: bool) -> (r: Self)
        ensures
            r.spec_bits() == with_field(self.spec_bits(), 2, 1, if v { 1 } else { 0 }),
    {
        VarDeclFlags { bits: set_field(self.bits, 2, 1, if v { 1 } else { 0 }) }
    }

    pub fn set_is_initializing_formal(&mut self, v: bool)
        ensures
            final(self).spec_bits() == with_field(old(self).spec_bits(), 2, 1, if v { 1 } else { 0 }),
    {
        self.bits = set_field(self.bits, 2, 1, if v { 1 } else { 0 });
    }

    pub fn is_covariant_by_decl(&self) -> (r: bool)
        ensures
            r == (field_of(self.spec_bits(), 3, 1) == 1),
    {
        get_field(self.bits, 3, 1) == 1
    }

    pub fn with_is_covariant_by_decl(self, v: bool) -> (r: Self)
        ensures
            r.spec_bits() == with_field(self.spec_bits(), 3, 1, if v { 1 } else { 0 }),
    {
        VarDeclFlags { bits: set_field(self.bits, 3, 1, if v { 1 } else { 0 }) }
    }

    pub fn set_is_covariant_by_decl(&mut self, v: bool)
        ensures
            final(self).spec_bits() == with_field(old(self).spec_bits(), 3, 1, if v { 1 } else { 0 }),
    {
        self.bits = set_field(self.bits, 3, 1, if v { 1 } else { 0 });
    }

    pub fn is_convariant_by_class(&self) -> (r: bool)
        ensures
            r == (field_of(self.spec_bits(), 4, 1) == 1),
    {
        get_field(self.bits, 4, 1) == 1
    }

    pub fn with_is_convariant_by_class(self, v: bool) -> (r: Self)
        ensures
            r.spec_bits() == with_field(self.spec_bits(), 4, 1, if v { 1 } else { 0 }),
    {
        VarDeclFlags { bits: set_field(self.bits, 4, 1, if v { 1 } else { 0 }) }
    }

    pub fn set_is_convariant_by_class(&mut self, v: bool)
        ensures
            final(self).spec_bits() == with_field(old(self).spec_bits(), 4, 1, if v { 1 } else { 0 }),
    {
        self.bits = set_field(self.bits, 4, 1, if v { 1 } else { 0 });
    }

    pub fn is_late(&self) -> (r: bool)
        ensures
            r == (field_of(self.spec_bits(), 5, 1) == 1),
    {
        get_field(self.bits, 5, 1) == 1
    }

    pub fn with_is_late(self, v: bool) -> (r: Self)
        ensures
            r.spec_bits() == with_field(self.spec_bits(), 5, 1, if v { 1 } else { 0 }),
    {
        VarDeclFlags { bits: set_field(self.bits, 5, 1, if v { 1 } else { 0 }) }
    }

    pub fn set_is_late(&mut self, v: bool)
        ensures
            final(self).spec_bits() == with_field(old(self).spec_bits(), 5, 1, if v { 1 } else { 0 }),
    {
        self.bits = set_field(self.bits, 5, 1, if v { 1 } else { 0 });
    }

    pub fn is_required(&self) -> (r: bool)
        ensures
            r == (field_of(self.spec_bits(), 6, 1) == 1),
    {
        get_field(self.bits, 6, 1) == 1
    }

    pub fn with_is_required(self, v: bool) -> (r: Self)
        ensures
            r.spec_bits() == with_field(self.spec_bits(), 6, 1, if v { 1 } else { 0 }),
    {
        VarDeclFlags { bits: set_field(self.bits, 6, 1, if v { 1 } else { 0 }) }
    }

    pub fn set_is_required(&mut self, v: bool)
        ensures
            final(self).spec_bits() == with_field(old(self).spec_bits(), 6, 1, if v { 1 } else { 0 }),
    {
        self.bits = set_field(self.bits, 6, 1, if v { 1 } else { 0 });
    }

    pub fn is_lowered(&self) -> (r: bool)
        ensures
            r == (field_of(self.spec_bits(), 7, 1) == 1),
    {
        get_field(self.bits, 7, 1) == 1
    }

    pub fn with_is_lowered(self, v: bool) -> (r: Self)
        ensures
            r.spec_bits() == with_field(self.spec_bits(), 7, 1, if v { 1 } else { 0 }),
    {
        VarDeclFlags { bits: set_field(self.bits, 7, 1, if v { 1 } else { 0 }) }
    }

    pub fn set_is_lowered(&mut self, v: bool)
        ensures
            final(self).spec_bits() == with_field(old(self).spec_bits(), 7, 1, if v { 1 } else { 0 }),
    {
        self.bits = set_field(self.bits, 7, 1, if v { 1 } else { 0 });
    }
}

impl DeepView for VarDeclFlags {
    type V = VarDeclFlags;

    open spec fn deep_view(&self) -> VarDeclFlags {
        *self
    }
}

impl Codec for VarDeclFlags {
    open spec fn encodable(&self) -> bool {
        self.bits < 0x100
    }

    open spec fn wire(&self) -> Seq<u8> {
        seq![self.bits as u8]
    }

    open spec fn parse(d: Seq<u8>, p: int) -> Option<(VarDeclFlags, int)> {
        match u8_parse(d, p) {
            Some((b, q)) => Some((VarDeclFlags { bits: b as u16 }, q)),
            None => None,
        }
    }

    proof fn lemma_round_trip(&self, pre: Seq<u8>, rest: Seq<u8>) {
        assert((pre + self.wire() + rest)[pre.len() as int] == self.bits as u8);
    }

    fn encode(&self, out: &mut Vec<u8>) -> (r: Result<(), KernelError>) {
        if self.bits >= 0x100 {
            return Err(KernelError::InvalidVarUint);
        }
        out.push(self.bits as u8);
        assert(out@ =~= old(out)@ + self.wire());
        Ok(())
    }

    fn decode(data: &[u8], pos: &mut usize) -> (r: Result<VarDeclFlags, KernelError>) {
        let b = read_u8(data, pos)?;
        Ok(VarDeclFlags { bits: b as u16 })
    }
}

} // verus!
