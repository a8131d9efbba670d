//! The component: its libraries and tables, the writer and the reader.
use std::marker::PhantomData;

use vstd::prelude::*;
use vstd::seq_lib::lemma_concat_associative;

use vstd::utf8::{decode_utf8, encode_utf8, valid_utf8};

use crate::codec::{
    decode_list, decode_option, encode_list, encode_option, lemma_list_round_trip, list_encodable,
    list_parse, list_wire, option_encodable, option_wire, read_bytes, views, write_bytes, Codec,
};
use crate::error::{KernelError, SumKind};
use crate::flags::{
    ClassFlags, CombinatorFlags, ConstructorFlags, DependencyFlags, DynamicCastFlags, FieldFlags,
    InvocationFlags, LibraryFlags, ProcedureFlags, VarDeclFlags,
};
use crate::prim::{
    lemma_u32_round_trip, lemma_uint_round_trip, read_u32, read_u8, string_from_utf8, u32_at,
    u32_bytes, u32_parse, u8_parse, uint_bytes, uint_parse, write_u32, CanonicalName,
    CanonicalNameRef, StrRef,
    ComponentRef, ConstantRef, DependencyRef, FileOffset, FileRange, StringRef, Uint, UriRef, Utf8,
    UINT_LIMIT,
};
use crate::expr::{Constant, Expr, constant_encodable, constant_items_encodable, constant_items_wire, decode_constant_list, decode_expr_list, encode_constant, encode_expr_list, expr_items_encodable, expr_items_wire};
use crate::node::{Class, Combinator, Extension, Field, Procedure, Typedef, as_u32s, class_encodable, class_wire, combinator_items_encodable, combinator_items_wire, decode_class, decode_combinator_list, decode_extension_list, decode_field_list, decode_procedure_list, decode_typedef_list, encode_class, encode_combinator_list, encode_extension_list, encode_field_list, encode_procedures_at, encode_typedef_list, extension_items_encodable, extension_items_wire, field_items_encodable, field_items_wire, lemma_offsets_bounded, lemma_procedure_offsets_sentinel, lemma_u32s_wire_len, procedure_items_encodable, procedure_items_wire, procedure_offsets, typedef_items_encodable, typedef_items_wire, u32s_wire, write_offsets};

verus! {

/// The component-wide null-safety mode, 32 bits wide on the wire.
#[derive(Debug, Clone, Copy, PartialEq, Eq, Structural)]
pub enum NonNullableMode {
    Disabled,
    Weak,
    Strong,
    Agnostic,
}

impl Default for NonNullableMode {
    fn default() -> (r: Self)
        ensures
            r == NonNullableMode::Weak,
    {
        NonNullableMode::Weak
    }
}

impl NonNullableMode {
    pub open spec fn spec_tag(&self) -> u32 {
        match self {
            NonNullableMode::Disabled => 0,
            NonNullableMode::Weak => 1,
            NonNullableMode::Strong => 2,
            NonNullableMode::Agnostic => 3,
        }
    }

    pub open spec fn from_tag(n: u32) -> Option<NonNullableMode> {
        if n == 0 {
            Some(NonNullableMode::Disabled)
        } else if n == 1 {
            Some(NonNullableMode::Weak)
        } else if n == 2 {
            Some(NonNullableMode::Strong)
        } else if n == 3 {
            Some(NonNullableMode::Agnostic)
        } else {
            None
        }
    }

    pub fn tag(&self) -> (r: u32)
        ensures
            r == self.spec_tag(),
    {
        match self {
            NonNullableMode::Disabled => 0,
            NonNullableMode::Weak => 1,
            NonNullableMode::Strong => 2,
            NonNullableMode::Agnostic => 3,
        }
    }
}

impl DeepView for NonNullableMode {
    type V = NonNullableMode;

    open spec fn deep_view(&self) -> NonNullableMode {
        *self
    }
}

impl Codec for NonNullableMode {
    open spec fn encodable(&self) -> bool {
        true
    }

    open spec fn wire(&self) -> Seq<u8> {
        u32_bytes(self.spec_tag())
    }

    open spec fn parse(d: Seq<u8>, p: int) -> Option<(NonNullableMode, int)> {
        match u32_parse(d, p) {
            Some((n, q)) => match NonNullableMode::from_tag(n) {
                Some(m) => Some((m, q)),
                None => None,
            },
            None => None,
        }
    }

    proof fn lemma_round_trip(&self, pre: Seq<u8>, rest: Seq<u8>) {
        lemma_u32_round_trip(self.spec_tag(), pre, rest);
    }

    fn encode(&self, out: &mut Vec<u8>) -> (r: Result<(), KernelError>) {
        write_u32(self.tag(), out);
        Ok(())
    }

    fn decode(data: &[u8], pos: &mut usize) -> (r: Result<NonNullableMode, KernelError>) {
        let n = read_u32(data, pos)?;
        if n == 0 {
            Ok(NonNullableMode::Disabled)
        } else if n == 1 {
            Ok(NonNullableMode::Weak)
        } else if n == 2 {
            Ok(NonNullableMode::Strong)
        } else if n == 3 {
            Ok(NonNullableMode::Agnostic)
        } else {
            Err(KernelError::UnknownTag { sum: SumKind::NonNullableMode, tag: (n % 256) as u8 })
        }
    }
}

/// The four bytes that open every component file.
pub open spec fn header_magic() -> Seq<u8> {
    seq![0x90u8, 0xabu8, 0xcdu8, 0xefu8]
}

/// The format versions this library reads and writes.
pub open spec fn supported_version(v: u32) -> bool {
    v == 74 || v == 75
}

/// The file header: magic, format version and the producer's SDK hash.
#[derive(Debug, Clone, Copy, PartialEq, Eq)]
pub struct ComponentHeader {
    pub version: u32,
    pub sdk_hash: [u8; 10],
}

/// The wire form of a header.
pub open spec fn header_wire(h: ComponentHeader) -> Seq<u8> {
    header_magic() + u32_bytes(h.version) + h.sdk_hash@
}

impl ComponentHeader {
    /// The header of format version 74, SDK hash "1278bd5adb".
    pub fn dart_2_15_1() -> (r: ComponentHeader)
        ensures
            r.version == 74,
            r.sdk_hash@ == seq![0x31u8, 0x32u8, 0x37u8, 0x38u8, 0x62u8, 0x64u8, 0x35u8, 0x61u8, 0x64u8, 0x62u8],
    {
        let r = ComponentHeader {
            version: 74,
            sdk_hash: [0x31u8, 0x32u8, 0x37u8, 0x38u8, 0x62u8, 0x64u8, 0x35u8, 0x61u8, 0x64u8, 0x62u8],
        };
        assert(r.sdk_hash@ =~= seq![0x31u8, 0x32u8, 0x37u8, 0x38u8, 0x62u8, 0x64u8, 0x35u8, 0x61u8, 0x64u8, 0x62u8]);
        r
    }

    /// The header of format version 75, SDK hash "455fe9d180".
    pub fn dart_2_16_0_134() -> (r: ComponentHeader)
        ensures
            r.version == 75,
            r.sdk_hash@ == seq![0x34u8, 0x35u8, 0x35u8, 0x66u8, 0x65u8, 0x39u8, 0x64u8, 0x31u8, 0x38u8, 0x30u8],
    {
        let r = ComponentHeader {
            version: 75,
            sdk_hash: [0x34u8, 0x35u8, 0x35u8, 0x66u8, 0x65u8, 0x39u8, 0x64u8, 0x31u8, 0x38u8, 0x30u8],
        };
        assert(r.sdk_hash@ =~= seq![0x34u8, 0x35u8, 0x35u8, 0x66u8, 0x65u8, 0x39u8, 0x64u8, 0x31u8, 0x38u8, 0x30u8]);
        r
    }

    /// The header of format version 75, SDK hash "35d6680047".
    pub fn dart_2_17_0_1() -> (r: ComponentHeader)
        ensures
            r.version == 75,
            r.sdk_hash@ == seq![0x33u8, 0x35u8, 0x64u8, 0x36u8, 0x36u8, 0x38u8, 0x30u8, 0x30u8, 0x34u8, 0x37u8],
    {
        let r = ComponentHeader {
            version: 75,
            sdk_hash: [0x33u8, 0x35u8, 0x64u8, 0x36u8, 0x36u8, 0x38u8, 0x30u8, 0x30u8, 0x34u8, 0x37u8],
        };
        assert(r.sdk_hash@ =~= seq![0x33u8, 0x35u8, 0x64u8, 0x36u8, 0x36u8, 0x38u8, 0x30u8, 0x30u8, 0x34u8, 0x37u8]);
        r
    }

    /// Appends the header.
    pub fn encode(&self, out: &mut Vec<u8>)
        ensures
            final(out)@ == old(out)@ + header_wire(*self),
    {
        out.push(0x90u8);
        out.push(0xabu8);
        out.push(0xcdu8);
        out.push(0xefu8);
        write_u32(self.version, out);
        let mut i: usize = 0;
        let ghost mid = out@;
        while i < 10
            invariant
                i <= 10,
                out@ == mid + self.sdk_hash@.subrange(0, i as int),
            decreases 10 - i,
        {
            out.push(self.sdk_hash[i]);
            assert(self.sdk_hash@.subrange(0, i + 1) =~= self.sdk_hash@.subrange(0, i as int).push(
                self.sdk_hash@[i as int],
            ));
            i = i + 1;
        }
        assert(self.sdk_hash@.subrange(0, 10) =~= self.sdk_hash@);
        assert(out@ =~= old(out)@ + header_wire(*self));
    }

    /// Reads a header: the magic must match and the version must be supported.
    pub fn decode(data: &[u8], pos: &mut usize) -> (r: Result<ComponentHeader, KernelError>)
        ensures
            ({
                let p = *old(pos) as int;
                &&& r is Ok <==> p + 18 <= data@.len() && data@.subrange(p, p + 4) == header_magic()
                    && supported_version(u32_at(data@, p + 4))
                &&& r matches Ok(h) ==> h.version == u32_at(data@, p + 4) && h.sdk_hash@
                    == data@.subrange(p + 8, p + 18) && *final(pos) == p + 18
                &&& p + 18 <= data@.len() && data@.subrange(p, p + 4) == header_magic()
                    && !supported_version(u32_at(data@, p + 4)) ==> r == Err::<
                    ComponentHeader,
                    _,
                >(KernelError::UnsupportedVersion(u32_at(data@, p + 4)))
            }),
    {
        let p = *pos;
        if p > data.len() || data.len() - p < 18 {
            return Err(KernelError::ShortRead);
        }
        let magic = read_u32(data, pos)?;
        if magic != 0x90ab_cdefu32 {
            proof {
                assert(data@.subrange(p as int, p + 4) != header_magic()) by {
                    if data@.subrange(p as int, p + 4) == header_magic() {
                        assert(data@[p as int] == 0x90u8 && data@[p + 1] == 0xabu8 && data@[p + 2]
                            == 0xcdu8 && data@[p + 3] == 0xefu8);
                        assert(((0x90u8 as u32) << 24u32) | ((0xabu8 as u32) << 16u32) | ((0xcdu8 as u32) << 8u32)
                            | 0xefu8 as u32 == 0x90ab_cdefu32) by (bit_vector);
                    }
                }
            }
            return Err(KernelError::WrongMagic { expected: 0x90ab_cdef, actual: magic });
        }
        proof {
            let (b0, b1, b2, b3) = (data@[p as int], data@[p + 1], data@[p + 2], data@[p + 3]);
            assert(((b0 as u32) << 24u32) | ((b1 as u32) << 16u32) | ((b2 as u32) << 8u32) | b3 as u32
                == 0x90ab_cdefu32 ==> b0 == 0x90u8 && b1 == 0xabu8 && b2 == 0xcdu8 && b3 == 0xefu8)
                by (bit_vector);
            assert(data@.subrange(p as int, p + 4) =~= header_magic());
        }
        let version = read_u32(data, pos)?;
        if version != 74 && version != 75 {
            return Err(KernelError::UnsupportedVersion(version));
        }
        let mut sdk_hash = [0u8; 10];
        let mut i: usize = 0;
        while i < 10
            invariant
                i <= 10,
                *pos == p + 8 + i,
                p + 18 <= data@.len(),
                forall|j: int| 0 <= j < i ==> sdk_hash@[j] == data@[p + 8 + j],
            decreases 10 - i,
        {
            sdk_hash[i] = data[*pos];
            *pos = *pos + 1;
            i = i + 1;
        }
        assert(sdk_hash@ =~= data@.subrange(p + 8, p + 18));
        Ok(ComponentHeader { version, sdk_hash })
    }
}

/// A written header reads back as itself: the magic, then the version, then
/// the SDK hash, in 18 bytes.
pub proof fn lemma_header_round_trip(h: ComponentHeader)
    ensures
        header_wire(h).len() == 18,
        header_wire(h).subrange(0, 4) == header_magic(),
        u32_at(header_wire(h), 4) == h.version,
        header_wire(h).subrange(8, 18) == h.sdk_hash@,
{
    let d = header_wire(h);
    assert(d.subrange(0, 4) =~= header_magic());
    assert(d.subrange(8, 18) =~= h.sdk_hash@);
    lemma_u32_round_trip(h.version, header_magic(), h.sdk_hash@);
}

/// The last eight bytes of a file: its library count and its total size.
#[derive(Debug, Clone, Copy, PartialEq, Eq, Structural)]
pub struct ComponentMetadata {
    pub library_count: u32,
    pub file_size: u32,
}

/// The tail's size in bytes.
pub const METADATA_SIZE: usize = 8;

/// The index's size in bytes when the component holds no library.
pub const INDEX_MINIMUM_SIZE: usize = 44;

/// The component index, which sits just before the metadata: the position of
/// each table, the main method, the null-safety mode and the library offsets.
#[derive(Debug, Clone, PartialEq, Eq)]
pub struct ComponentIndex {
    pub source_table_offset: u32,
    pub constant_table_offset: u32,
    pub constant_table_index_offset: u32,
    pub canonical_names_offset: u32,
    pub metadata_payloads_offset: u32,
    pub metadata_mappings_offset: u32,
    pub string_table_offset: u32,
    pub component_index_offset: u32,
    pub main_method_reference: u32,
    pub compilation_mode: NonNullableMode,
    pub library_offsets: Vec<u32>,
}

/// The first eight positions of an index, in wire order.
pub open spec fn index_positions(i: ComponentIndex) -> Seq<u32> {
    seq![
        i.source_table_offset,
        i.constant_table_offset,
        i.constant_table_index_offset,
        i.canonical_names_offset,
        i.metadata_payloads_offset,
        i.metadata_mappings_offset,
        i.string_table_offset,
        i.component_index_offset,
    ]
}

/// The wire form of an index.
pub open spec fn index_wire(i: ComponentIndex) -> Seq<u8> {
    u32s_wire(index_positions(i)) + u32_bytes(i.main_method_reference) + u32_bytes(
        i.compilation_mode.spec_tag(),
    ) + u32s_wire(i.library_offsets@)
}

/// The big-endian integers at `p`, `p + 4`, ... : `n` of them.
pub open spec fn u32s_at(d: Seq<u8>, p: int, n: nat) -> Seq<u32> {
    Seq::new(n, |k: int| u32_at(d, p + 4 * k))
}

impl ComponentIndex {
    /// Appends the index.
    pub fn encode(&self, out: &mut Vec<u8>)
        ensures
            final(out)@ == old(out)@ + index_wire(*self),
    {
        let mut offs: Vec<usize> = Vec::new();
        offs.push(self.source_table_offset as usize);
        offs.push(self.constant_table_offset as usize);
        offs.push(self.constant_table_index_offset as usize);
        offs.push(self.canonical_names_offset as usize);
        offs.push(self.metadata_payloads_offset as usize);
        offs.push(self.metadata_mappings_offset as usize);
        offs.push(self.string_table_offset as usize);
        offs.push(self.component_index_offset as usize);
        write_offsets(&offs, out);
        assert(Seq::new(offs@.len(), |i: int| offs@[i] as u32) =~= index_positions(*self));
        write_u32(self.main_method_reference, out);
        write_u32(self.compilation_mode.tag(), out);
        let mut libs: Vec<usize> = Vec::new();
        let mut i: usize = 0;
        while i < self.library_offsets.len()
            invariant
                i <= self.library_offsets.len(),
                libs@.len() == i,
                forall|j: int| 0 <= j < i ==> libs@[j] == self.library_offsets@[j] as usize,
            decreases self.library_offsets.len() - i,
        {
            libs.push(self.library_offsets[i] as usize);
            i = i + 1;
        }
        write_offsets(&libs, out);
        assert(Seq::new(libs@.len(), |i: int| libs@[i] as u32) =~= self.library_offsets@);
        assert(out@ =~= old(out)@ + index_wire(*self));
    }

    /// Reads an index with `library_count + 1` library offsets.
    pub fn decode(data: &[u8], pos: &mut usize, library_count: u32) -> (r: Result<
        ComponentIndex,
        KernelError,
    >)
        ensures
            ({
                let p = *old(pos) as int;
                let n = library_count as int + 1;
                let end = p + 40 + 4 * n;
                &&& r is Ok <==> end <= data@.len() && NonNullableMode::from_tag(u32_at(data@, p + 36))
                    is Some
                &&& r matches Ok(i) ==> {
                    &&& index_positions(i) == u32s_at(data@, p, 8)
                    &&& i.main_method_reference == u32_at(data@, p + 32)
                    &&& Some(i.compilation_mode) == NonNullableMode::from_tag(u32_at(data@, p + 36))
                    &&& i.library_offsets@ == u32s_at(data@, p + 40, n as nat)
                    &&& *final(pos) == end
                }
                &&& end > data@.len() ==> r == Err::<ComponentIndex, _>(KernelError::ShortRead)
            }),
    {
        let p = *pos;
        let need: u128 = 40 + 4 * (library_count as u128 + 1);
        if p as u128 + need > data.len() as u128 {
            return Err(KernelError::ShortRead);
        }
        let source_table_offset = read_u32(data, pos)?;
        let constant_table_offset = read_u32(data, pos)?;
        let constant_table_index_offset = read_u32(data, pos)?;
        let canonical_names_offset = read_u32(data, pos)?;
        let metadata_payloads_offset = read_u32(data, pos)?;
        let metadata_mappings_offset = read_u32(data, pos)?;
        let string_table_offset = read_u32(data, pos)?;
        let component_index_offset = read_u32(data, pos)?;
        let main_method_reference = read_u32(data, pos)?;
        let compilation_mode = NonNullableMode::decode(data, pos)?;
        let mut library_offsets: Vec<u32> = Vec::new();
        let total: u64 = library_count as u64 + 1;
        let mut k: u64 = 0;
        while k < total
            invariant
                k <= total,
                total == library_count + 1,
                *pos == p + 40 + 4 * k,
                p + 40 + 4 * (library_count + 1) <= data@.len(),
                library_offsets@ == u32s_at(data@, p + 40, k as nat),
            decreases total - k,
        {
            let o = read_u32(data, pos)?;
            library_offsets.push(o);
            assert(library_offsets@ =~= u32s_at(data@, p + 40, (k + 1) as nat));
            k = k + 1;
        }
        let i = ComponentIndex {
            source_table_offset,
            constant_table_offset,
            constant_table_index_offset,
            canonical_names_offset,
            metadata_payloads_offset,
            metadata_mappings_offset,
            string_table_offset,
            component_index_offset,
            main_method_reference,
            compilation_mode,
            library_offsets,
        };
        assert(index_positions(i) =~= u32s_at(data@, p as int, 8));
        Ok(i)
    }
}

/// The bytes of each string of `s`, one after another.
pub open spec fn strings_bytes(s: Seq<Seq<char>>) -> Seq<u8>
    decreases s.len(),
{
    if s.len() == 0 {
        Seq::empty()
    } else {
        strings_bytes(s.drop_last()) + encode_utf8(s.last())
    }
}

/// The length of the table's blob: its last end offset, or 0 for an empty table.
pub open spec fn blob_len(ends: Seq<Uint>) -> nat {
    if ends.len() == 0 {
        0
    } else {
        ends.last().0 as nat
    }
}

/// The deduplicated string table: the end offset of each string, and one blob
/// that holds their bytes one after another. String `k` is the bytes between
/// the end of string `k - 1` (0 for the first) and its own end.
#[derive(Debug, Clone, PartialEq, Eq)]
pub struct StringTable {
    pub end_offsets: Vec<Uint>,
    pub bytes: Vec<u8>,
}

impl StringTable {
    /// End offsets never decrease, the last one is the blob's length, and each fits in 30 bits.
    pub open spec fn wf(&self) -> bool {
        &&& forall|i: int, j: int|
            0 <= i <= j < self.end_offsets@.len() ==> self.end_offsets@[i].0
                <= self.end_offsets@[j].0
        &&& blob_len(self.end_offsets@) == self.bytes@.len()
        &&& forall|i: int| 0 <= i < self.end_offsets@.len() ==> self.end_offsets@[i].0 < UINT_LIMIT
    }

    /// Where string `k` starts in the blob.
    pub open spec fn start_of(&self, k: int) -> int {
        if k == 0 {
            0
        } else {
            self.end_offsets@[k - 1].0 as int
        }
    }

    /// The table of `strs` in order; it fails when the blob would reach 2^30 bytes.
    pub fn new(strs: &Vec<StrRef>) -> (r: Result<StringTable, KernelError>)
        ensures
            ({
                let chars = Seq::new(strs@.len(), |i: int| strs@[i]@);
                &&& r is Ok <==> strings_bytes(chars).len() < UINT_LIMIT
                &&& r matches Ok(t) ==> {
                    &&& t.wf()
                    &&& t.bytes@ == strings_bytes(chars)
                    &&& t.end_offsets@.len() == strs@.len()
                    &&& forall|k: int|
                        0 <= k < strs@.len() ==> #[trigger] t.end_offsets@[k].0 == strings_bytes(
                            chars.subrange(0, k + 1),
                        ).len()
                }
            }),
    {
        let ghost chars = Seq::new(strs@.len(), |i: int| strs@[i]@);
        let mut end_offsets: Vec<Uint> = Vec::new();
        let mut bytes: Vec<u8> = Vec::new();
        let mut i: usize = 0;
        while i < strs.len()
            invariant
                i <= strs.len(),
                chars == Seq::new(strs@.len(), |i: int| strs@[i]@),
                bytes@ == strings_bytes(chars.subrange(0, i as int)),
                bytes@.len() < UINT_LIMIT,
                end_offsets@.len() == i,
                forall|k: int|
                    0 <= k < i ==> #[trigger] end_offsets@[k].0 == strings_bytes(
                        chars.subrange(0, k + 1),
                    ).len(),
                forall|a: int, b: int|
                    0 <= a <= b < end_offsets@.len() ==> end_offsets@[a].0 <= end_offsets@[b].0,
                i > 0 ==> end_offsets@[i - 1].0 == bytes@.len(),
            decreases strs.len() - i,
        {
            let s = strs[i].as_str();
            let b = s.as_bytes();
            let ghost before = bytes@;
            proof {
                let t = chars.subrange(0, i + 1);
                assert(t.drop_last() =~= chars.subrange(0, i as int));
                assert(t.last() == strs@[i as int]@);
            }
            if b.len() >= UINT_LIMIT as usize || bytes.len() >= UINT_LIMIT as usize - b.len() {
                proof {
                    lemma_strings_bytes_prefix(chars, i + 1);
                }
                return Err(KernelError::InvalidVarUint);
            }
            write_bytes(b, &mut bytes);
            end_offsets.push(Uint(bytes.len() as u32));
            i = i + 1;
        }
        assert(chars.subrange(0, i as int) =~= chars);
        Ok(StringTable { end_offsets, bytes })
    }

    /// The bytes of string `index`, or none when there is no such string or
    /// its bounds do not lie in the blob.
    pub fn get(&self, index: usize) -> (r: Option<Vec<u8>>)
        ensures
            ({
                let k = index as int;
                let ok = k < self.end_offsets@.len() && 0 <= self.start_of(k) <= self.end_offsets@[k].0
                    <= self.bytes@.len();
                &&& r is Some <==> ok
                &&& r matches Some(b) ==> b@ == self.bytes@.subrange(
                    self.start_of(k),
                    self.end_offsets@[k].0 as int,
                )
            }),
    {
        if index >= self.end_offsets.len() {
            return None;
        }
        let start: usize = if index == 0 {
            0
        } else {
            self.end_offsets[index - 1].0 as usize
        };
        let end = self.end_offsets[index].0 as usize;
        if start > end || end > self.bytes.len() {
            return None;
        }
        let mut pos = start;
        match read_bytes(self.bytes.as_slice(), &mut pos, end - start) {
            Ok(v) => Some(v),
            Err(_) => None,
        }
    }

    /// String `index` as text, or none when it is missing or not UTF-8.
    pub fn get_str(&self, index: usize) -> (r: Option<String>)
        ensures
            ({
                let k = index as int;
                let ok = k < self.end_offsets@.len() && 0 <= self.start_of(k) <= self.end_offsets@[k].0
                    <= self.bytes@.len();
                let b = self.bytes@.subrange(self.start_of(k), self.end_offsets@[k].0 as int);
                &&& r is Some <==> ok && valid_utf8(b)
                &&& r matches Some(s) ==> s@ == decode_utf8(b)
            }),
    {
        match self.get(index) {
            Some(b) => string_from_utf8(b),
            None => None,
        }
    }

    /// The number of strings in the table.
    pub fn len(&self) -> (r: usize)
        ensures
            r == self.end_offsets@.len(),
    {
        self.end_offsets.len()
    }
}

proof fn lemma_strings_bytes_prefix(s: Seq<Seq<char>>, i: int)
    requires
        0 <= i <= s.len(),
    ensures
        strings_bytes(s.subrange(0, i)).len() <= strings_bytes(s).len(),
    decreases s.len() - i,
{
    if i < s.len() {
        lemma_strings_bytes_prefix(s, i + 1);
        let t = s.subrange(0, i + 1);
        assert(t.drop_last() =~= s.subrange(0, i));
    } else {
        assert(s.subrange(0, i) =~= s);
    }
}

impl DeepView for StringTable {
    type V = (Seq<Uint>, Seq<u8>);

    open spec fn deep_view(&self) -> (Seq<Uint>, Seq<u8>) {
        (self.end_offsets@, self.bytes@)
    }
}

impl Codec for StringTable {
    open spec fn encodable(&self) -> bool {
        list_encodable::<Uint>(self.end_offsets@) && blob_len(self.end_offsets@) == self.bytes@.len()
    }

    open spec fn wire(&self) -> Seq<u8> {
        list_wire::<Uint>(self.end_offsets@) + self.bytes@
    }

    open spec fn parse(d: Seq<u8>, p: int) -> Option<((Seq<Uint>, Seq<u8>), int)> {
        match list_parse::<Uint>(d, p) {
            Some((ends, q)) => if q + blob_len(ends) <= d.len() {
                Some(((ends, d.subrange(q, q + blob_len(ends))), q + blob_len(ends)))
            } else {
                None
            },
            None => None,
        }
    }

    proof fn lemma_round_trip(&self, pre: Seq<u8>, rest: Seq<u8>) {
        let d = pre + self.wire() + rest;
        let ends = self.end_offsets@;
        assert(d =~= pre + list_wire::<Uint>(ends) + (self.bytes@ + rest));
        lemma_list_round_trip::<Uint>(ends, pre, self.bytes@ + rest);
        assert(views(ends) =~= ends);
        let q = pre.len() + list_wire::<Uint>(ends).len();
        assert(d.subrange(q as int, q + self.bytes@.len() as int) =~= self.bytes@);
    }

    fn encode(&self, out: &mut Vec<u8>) -> (r: Result<(), KernelError>) {
        let n = self.end_offsets.len();
        let last: usize = if n == 0 {
            0
        } else {
            self.end_offsets[n - 1].0 as usize
        };
        if last != self.bytes.len() {
            return Err(KernelError::IndexOutOfRange { index: last as u32, len: self.bytes.len() as u32 });
        }
        encode_list(&self.end_offsets, out)?;
        write_bytes(self.bytes.as_slice(), out);
        assert(out@ =~= old(out)@ + self.wire());
        Ok(())
    }

    fn decode(data: &[u8], pos: &mut usize) -> (r: Result<StringTable, KernelError>) {
        let end_offsets: Vec<Uint> = decode_list(data, pos)?;
        proof {
            assert(views(end_offsets@) =~= end_offsets@);
        }
        let n = end_offsets.len();
        let len: usize = if n == 0 {
            0
        } else {
            end_offsets[n - 1].0 as usize
        };
        let bytes = read_bytes(data, pos, len)?;
        Ok(StringTable { end_offsets, bytes })
    }
}
/// An import or export of another library.
#[derive(Debug, Default, PartialEq)]
pub struct LibraryDependency {
    pub offset: FileOffset,
    pub flags: DependencyFlags,
    pub annotations: Vec<Expr>,
    pub target_library: CanonicalNameRef,
    pub name: StringRef,
    pub combinators: Vec<Combinator>,
}

/// Every count and variable-length integer in the value fits in 30 bits.
pub open spec fn library_dependency_encodable(v: LibraryDependency) -> bool
{
    v.offset.encodable()
    && v.flags.encodable()
    && (v.annotations@.len() < 0x4000_0000 && expr_items_encodable(v.annotations@))
    && v.target_library.encodable()
    && v.name.encodable()
    && (v.combinators@.len() < 0x4000_0000 && combinator_items_encodable(v.combinators@))
}

/// The wire form: the fields in order.
pub open spec fn library_dependency_wire(v: LibraryDependency) -> Seq<u8>
{
    v.offset.wire()
    + v.flags.wire()
    + uint_bytes(v.annotations@.len() as u32) + expr_items_wire(v.annotations@)
    + v.target_library.wire()
    + v.name.wire()
    + uint_bytes(v.combinators@.len() as u32) + combinator_items_wire(v.combinators@)
}

/// Appends the wire form of `v`; fails exactly when a count or integer in it reaches 2^30.
#[verifier::rlimit(100)]
pub fn encode_library_dependency(v: &LibraryDependency, out: &mut Vec<u8>) -> (r: Result<(), KernelError>)
    ensures
        r is Ok <==> library_dependency_encodable(*v),
        r is Ok ==> final(out)@ == old(out)@ + library_dependency_wire(*v),
{
    v.offset.encode(out)?;
    let ghost acc0 = v.offset.wire();
    v.flags.encode(out)?;
    proof {
        lemma_concat_associative(old(out)@, acc0, v.flags.wire());
    }
    let ghost acc1 = acc0 + v.flags.wire();
    encode_expr_list(&v.annotations, out)?;
    proof {
        lemma_concat_associative(old(out)@, acc1, uint_bytes(v.annotations@.len() as u32));
    }
    let ghost acc2 = acc1 + uint_bytes(v.annotations@.len() as u32);
    proof {
        lemma_concat_associative(old(out)@, acc2, expr_items_wire(v.annotations@));
    }
    let ghost acc3 = acc2 + expr_items_wire(v.annotations@);
    v.target_library.encode(out)?;
    proof {
        lemma_concat_associative(old(out)@, acc3, v.target_library.wire());
    }
    let ghost acc4 = acc3 + v.target_library.wire();
    v.name.encode(out)?;
    proof {
        lemma_concat_associative(old(out)@, acc4, v.name.wire());
    }
    let ghost acc5 = acc4 + v.name.wire();
    encode_combinator_list(&v.combinators, out)?;
    proof {
        lemma_concat_associative(old(out)@, acc5, uint_bytes(v.combinators@.len() as u32));
    }
    let ghost acc6 = acc5 + uint_bytes(v.combinators@.len() as u32);
    proof {
        lemma_concat_associative(old(out)@, acc6, combinator_items_wire(v.combinators@));
    }
    let ghost acc7 = acc6 + combinator_items_wire(v.combinators@);
    assert(final(out)@ == old(out)@ + library_dependency_wire(*v));
    Ok(())
}

/// Reads a value at `*pos` and moves past it.
pub fn decode_library_dependency(data: &[u8], pos: &mut usize) -> (r: Result<LibraryDependency, KernelError>)
    ensures
        r is Ok ==> *old(pos) < *final(pos) <= data@.len(),
{
    let offset = <FileOffset as Codec>::decode(data, pos)?;
    let flags = <DependencyFlags as Codec>::decode(data, pos)?;
    let annotations = decode_expr_list(data, pos)?;
    let target_library = <CanonicalNameRef as Codec>::decode(data, pos)?;
    let name = <StringRef as Codec>::decode(data, pos)?;
    let combinators = decode_combinator_list(data, pos)?;
    Ok(LibraryDependency { offset, flags, annotations, target_library, name, combinators })
}

pub open spec fn library_dependency_items_encodable(s: Seq<LibraryDependency>) -> bool
{
    forall|i: int| 0 <= i < s.len() ==> library_dependency_encodable(#[trigger] s[i])
}

pub open spec fn library_dependency_items_wire(s: Seq<LibraryDependency>) -> Seq<u8>
    decreases s,
{
    if s.len() == 0 {
        Seq::empty()
    } else {
        library_dependency_items_wire(s.drop_last()) + library_dependency_wire(s.last())
    }
}

/// Appends a list: its count, then each item.
pub fn encode_library_dependency_list(v: &Vec<LibraryDependency>, out: &mut Vec<u8>) -> (r: Result<(), KernelError>)
    ensures
        r is Ok <==> v@.len() < 0x4000_0000 && library_dependency_items_encodable(v@),
        r is Ok ==> final(out)@ == old(out)@ + uint_bytes(v@.len() as u32) + library_dependency_items_wire(v@),
{
    if v.len() >= 0x4000_0000 {
        return Err(KernelError::InvalidVarUint);
    }
    Uint(v.len() as u32).encode(out)?;
    let ghost start = out@;
    let mut i: usize = 0;
    while i < v.len()
        invariant
            i <= v.len(),
            library_dependency_items_encodable(v@.subrange(0, i as int)),
            out@ == start + library_dependency_items_wire(v@.subrange(0, i as int)),
        decreases v.len() - i,
    {
        let res = encode_library_dependency(&v[i], out);
        if res.is_err() {
            assert(!library_dependency_items_encodable(v@)) by {
                assert(!library_dependency_encodable(v@[i as int]));
            }
            return res;
        }
        proof {
            let s = v@.subrange(0, i + 1);
            assert(s.drop_last() =~= v@.subrange(0, i as int));
            assert forall|k: int| 0 <= k < s.len() implies library_dependency_encodable(#[trigger] s[k]) by {
                if k < i {
                    assert(s[k] == v@.subrange(0, i as int)[k]);
                }
            }
        }
        i = i + 1;
    }
    assert(v@.subrange(0, i as int) =~= v@);
    Ok(())
}

/// Reads a list: a count, then that many items.
pub fn decode_library_dependency_list(data: &[u8], pos: &mut usize) -> (r: Result<Vec<LibraryDependency>, KernelError>)
    ensures
        r is Ok ==> *old(pos) < *final(pos) <= data@.len(),
        r is Ok ==> uint_parse(data@, *old(pos) as int) is Some && r->Ok_0@.len() == (uint_parse(data@, *old(pos) as int)->0).0,
        uint_parse(data@, *old(pos) as int) is Some && (uint_parse(data@, *old(pos) as int)->0).0 == 0 ==> r is Ok && r->Ok_0@.len() == 0
            && *final(pos) == (uint_parse(data@, *old(pos) as int)->0).1,
{
    let n = Uint::decode(data, pos)?;
    let ghost q0 = *pos;
    let mut v: Vec<LibraryDependency> = Vec::new();
    let mut i: u32 = 0;
    while i < n.0
        invariant
            *old(pos) < *pos <= data@.len(),
            i <= n.0,
            v@.len() == i,
            i == 0 ==> *pos == q0,
            uint_parse(data@, *old(pos) as int) == Some((n.0, q0 as int)),
        decreases n.0 - i,
    {
        let x = decode_library_dependency(data, pos)?;
        v.push(x);
        i = i + 1;
    }
    Ok(v)
}

/// A part file of a library.
#[derive(Debug, PartialEq)]
pub struct LibraryPart {
    pub annotations: Vec<Expr>,
    pub part_uri: StringRef,
}

/// Every count and variable-length integer in the value fits in 30 bits.
pub open spec fn library_part_encodable(v: LibraryPart) -> bool
{
    (v.annotations@.len() < 0x4000_0000 && expr_items_encodable(v.annotations@)) && v.part_uri.encodable()
}

/// The wire form: the fields in order.
pub open spec fn library_part_wire(v: LibraryPart) -> Seq<u8>
{
    uint_bytes(v.annotations@.len() as u32) + expr_items_wire(v.annotations@) + v.part_uri.wire()
}

/// Appends the wire form of `v`; fails exactly when a count or integer in it reaches 2^30.
#[verifier::rlimit(100)]
pub fn encode_library_part(v: &LibraryPart, out: &mut Vec<u8>) -> (r: Result<(), KernelError>)
    ensures
        r is Ok <==> library_part_encodable(*v),
        r is Ok ==> final(out)@ == old(out)@ + library_part_wire(*v),
{
    encode_expr_list(&v.annotations, out)?;
    let ghost acc0 = uint_bytes(v.annotations@.len() as u32);
    proof {
        lemma_concat_associative(old(out)@, acc0, expr_items_wire(v.annotations@));
    }
    let ghost acc1 = acc0 + expr_items_wire(v.annotations@);
    v.part_uri.encode(out)?;
    proof {
        lemma_concat_associative(old(out)@, acc1, v.part_uri.wire());
    }
    let ghost acc2 = acc1 + v.part_uri.wire();
    assert(final(out)@ == old(out)@ + library_part_wire(*v));
    Ok(())
}

/// Reads a value at `*pos` and moves past it.
pub fn decode_library_part(data: &[u8], pos: &mut usize) -> (r: Result<LibraryPart, KernelError>)
    ensures
        r is Ok ==> *old(pos) < *final(pos) <= data@.len(),
{
    let annotations = decode_expr_list(data, pos)?;
    let part_uri = <StringRef as Codec>::decode(data, pos)?;
    Ok(LibraryPart { annotations, part_uri })
}

pub open spec fn library_part_items_encodable(s: Seq<LibraryPart>) -> bool
{
    forall|i: int| 0 <= i < s.len() ==> library_part_encodable(#[trigger] s[i])
}

pub open spec fn library_part_items_wire(s: Seq<LibraryPart>) -> Seq<u8>
    decreases s,
{
    if s.len() == 0 {
        Seq::empty()
    } else {
        library_part_items_wire(s.drop_last()) + library_part_wire(s.last())
    }
}

/// Appends a list: its count, then each item.
pub fn encode_library_part_list(v: &Vec<LibraryPart>, out: &mut Vec<u8>) -> (r: Result<(), KernelError>)
    ensures
        r is Ok <==> v@.len() < 0x4000_0000 && library_part_items_encodable(v@),
        r is Ok ==> final(out)@ == old(out)@ + uint_bytes(v@.len() as u32) + library_part_items_wire(v@),
{
    if v.len() >= 0x4000_0000 {
        return Err(KernelError::InvalidVarUint);
    }
    Uint(v.len() as u32).encode(out)?;
    let ghost start = out@;
    let mut i: usize = 0;
    while i < v.len()
        invariant
            i <= v.len(),
            library_part_items_encodable(v@.subrange(0, i as int)),
            out@ == start + library_part_items_wire(v@.subrange(0, i as int)),
        decreases v.len() - i,
    {
        let res = encode_library_part(&v[i], out);
        if res.is_err() {
            assert(!library_part_items_encodable(v@)) by {
                assert(!library_part_encodable(v@[i as int]));
            }
            return res;
        }
        proof {
            let s = v@.subrange(0, i + 1);
            assert(s.drop_last() =~= v@.subrange(0, i as int));
            assert forall|k: int| 0 <= k < s.len() implies library_part_encodable(#[trigger] s[k]) by {
                if k < i {
                    assert(s[k] == v@.subrange(0, i as int)[k]);
                }
            }
        }
        i = i + 1;
    }
    assert(v@.subrange(0, i as int) =~= v@);
    Ok(())
}

/// Reads a list: a count, then that many items.
pub fn decode_library_part_list(data: &[u8], pos: &mut usize) -> (r: Result<Vec<LibraryPart>, KernelError>)
    ensures
        r is Ok ==> *old(pos) < *final(pos) <= data@.len(),
        r is Ok ==> uint_parse(data@, *old(pos) as int) is Some && r->Ok_0@.len() == (uint_parse(data@, *old(pos) as int)->0).0,
        uint_parse(data@, *old(pos) as int) is Some && (uint_parse(data@, *old(pos) as int)->0).0 == 0 ==> r is Ok && r->Ok_0@.len() == 0
            && *final(pos) == (uint_parse(data@, *old(pos) as int)->0).1,
{
    let n = Uint::decode(data, pos)?;
    let ghost q0 = *pos;
    let mut v: Vec<LibraryPart> = Vec::new();
    let mut i: u32 = 0;
    while i < n.0
        invariant
            *old(pos) < *pos <= data@.len(),
            i <= n.0,
            v@.len() == i,
            i == 0 ==> *pos == q0,
            uint_parse(data@, *old(pos) as int) == Some((n.0, q0 as int)),
        decreases n.0 - i,
    {
        let x = decode_library_part(data, pos)?;
        v.push(x);
        i = i + 1;
    }
    Ok(v)
}

/// A source file: its URI, text, line starts and coverage.
#[derive(Debug, Default, PartialEq)]
pub struct SourceInfo {
    pub uri: Utf8,
    pub source: Utf8,
    pub line_starts: Vec<Uint>,
    pub import_uri: Utf8,
    pub constructor_coverage: Vec<CanonicalNameRef>,
}

/// Every count and variable-length integer in the value fits in 30 bits.
pub open spec fn source_info_encodable(v: SourceInfo) -> bool
{
    v.uri.encodable()
    && v.source.encodable()
    && list_encodable::<Uint>(v.line_starts@)
    && v.import_uri.encodable()
    && list_encodable::<CanonicalNameRef>(v.constructor_coverage@)
}

/// The wire form: the fields in order.
pub open spec fn source_info_wire(v: SourceInfo) -> Seq<u8>
{
    v.uri.wire()
    + v.source.wire()
    + list_wire::<Uint>(v.line_starts@)
    + v.import_uri.wire()
    + list_wire::<CanonicalNameRef>(v.constructor_coverage@)
}

/// Appends the wire form of `v`; fails exactly when a count or integer in it reaches 2^30.
#[verifier::rlimit(100)]
pub fn encode_source_info(v: &SourceInfo, out: &mut Vec<u8>) -> (r: Result<(), KernelError>)
    ensures
        r is Ok <==> source_info_encodable(*v),
        r is Ok ==> final(out)@ == old(out)@ + source_info_wire(*v),
{
    v.uri.encode(out)?;
    let ghost acc0 = v.uri.wire();
    v.source.encode(out)?;
    proof {
        lemma_concat_associative(old(out)@, acc0, v.source.wire());
    }
    let ghost acc1 = acc0 + v.source.wire();
    encode_list(&v.line_starts, out)?;
    proof {
        lemma_concat_associative(old(out)@, acc1, list_wire::<Uint>(v.line_starts@));
    }
    let ghost acc2 = acc1 + list_wire::<Uint>(v.line_starts@);
    v.import_uri.encode(out)?;
    proof {
        lemma_concat_associative(old(out)@, acc2, v.import_uri.wire());
    }
    let ghost acc3 = acc2 + v.import_uri.wire();
    encode_list(&v.constructor_coverage, out)?;
    proof {
        lemma_concat_associative(old(out)@, acc3, list_wire::<CanonicalNameRef>(v.constructor_coverage@));
    }
    let ghost acc4 = acc3 + list_wire::<CanonicalNameRef>(v.constructor_coverage@);
    assert(final(out)@ == old(out)@ + source_info_wire(*v));
    Ok(())
}

/// Reads a value at `*pos` and moves past it.
pub fn decode_source_info(data: &[u8], pos: &mut usize) -> (r: Result<SourceInfo, KernelError>)
    ensures
        r is Ok ==> *old(pos) < *final(pos) <= data@.len(),
{
    let uri = <Utf8 as Codec>::decode(data, pos)?;
    let source = <Utf8 as Codec>::decode(data, pos)?;
    let line_starts = decode_list::<Uint>(data, pos)?;
    let import_uri = <Utf8 as Codec>::decode(data, pos)?;
    let constructor_coverage = decode_list::<CanonicalNameRef>(data, pos)?;
    Ok(SourceInfo { uri, source, line_starts, import_uri, constructor_coverage })
}

pub open spec fn source_info_items_encodable(s: Seq<SourceInfo>) -> bool
{
    forall|i: int| 0 <= i < s.len() ==> source_info_encodable(#[trigger] s[i])
}

pub open spec fn source_info_items_wire(s: Seq<SourceInfo>) -> Seq<u8>
    decreases s,
{
    if s.len() == 0 {
        Seq::empty()
    } else {
        source_info_items_wire(s.drop_last()) + source_info_wire(s.last())
    }
}

/// Appends a list: its count, then each item.
pub fn encode_source_info_list(v: &Vec<SourceInfo>, out: &mut Vec<u8>) -> (r: Result<(), KernelError>)
    ensures
        r is Ok <==> v@.len() < 0x4000_0000 && source_info_items_encodable(v@),
        r is Ok ==> final(out)@ == old(out)@ + uint_bytes(v@.len() as u32) + source_info_items_wire(v@),
{
    if v.len() >= 0x4000_0000 {
        return Err(KernelError::InvalidVarUint);
    }
    Uint(v.len() as u32).encode(out)?;
    let ghost start = out@;
    let mut i: usize = 0;
    while i < v.len()
        invariant
            i <= v.len(),
            source_info_items_encodable(v@.subrange(0, i as int)),
            out@ == start + source_info_items_wire(v@.subrange(0, i as int)),
        decreases v.len() - i,
    {
        let res = encode_source_info(&v[i], out);
        if res.is_err() {
            assert(!source_info_items_encodable(v@)) by {
                assert(!source_info_encodable(v@[i as int]));
            }
            return res;
        }
        proof {
            let s = v@.subrange(0, i + 1);
            assert(s.drop_last() =~= v@.subrange(0, i as int));
            assert forall|k: int| 0 <= k < s.len() implies source_info_encodable(#[trigger] s[k]) by {
                if k < i {
                    assert(s[k] == v@.subrange(0, i as int)[k]);
                }
            }
        }
        i = i + 1;
    }
    assert(v@.subrange(0, i as int) =~= v@);
    Ok(())
}

/// Reads a list: a count, then that many items.
pub fn decode_source_info_list(data: &[u8], pos: &mut usize) -> (r: Result<Vec<SourceInfo>, KernelError>)
    ensures
        r is Ok ==> *old(pos) < *final(pos) <= data@.len(),
        r is Ok ==> uint_parse(data@, *old(pos) as int) is Some && r->Ok_0@.len() == (uint_parse(data@, *old(pos) as int)->0).0,
        uint_parse(data@, *old(pos) as int) is Some && (uint_parse(data@, *old(pos) as int)->0).0 == 0 ==> r is Ok && r->Ok_0@.len() == 0
            && *final(pos) == (uint_parse(data@, *old(pos) as int)->0).1,
{
    let n = Uint::decode(data, pos)?;
    let ghost q0 = *pos;
    let mut v: Vec<SourceInfo> = Vec::new();
    let mut i: u32 = 0;
    while i < n.0
        invariant
            *old(pos) < *pos <= data@.len(),
            i <= n.0,
            v@.len() == i,
            i == 0 ==> *pos == q0,
            uint_parse(data@, *old(pos) as int) == Some((n.0, q0 as int)),
        decreases n.0 - i,
    {
        let x = decode_source_info(data, pos)?;
        v.push(x);
        i = i + 1;
    }
    Ok(v)
}

/// A library: its header and declarations, its classes and procedures, and the
/// sub-indices that locate each class and procedure.
#[derive(Debug, Default, PartialEq)]
pub struct Library {
    pub flags: LibraryFlags,
    pub version_major: Uint,
    pub version_minor: Uint,
    pub canonical_name: CanonicalNameRef,
    pub name: StringRef,
    pub file_uri: UriRef,
    pub problems: Vec<Utf8>,
    pub annotations: Vec<Expr>,
    pub dependencies: Vec<LibraryDependency>,
    pub additional_exports: Vec<CanonicalNameRef>,
    pub library_parts: Vec<LibraryPart>,
    pub typedefs: Vec<Typedef>,
    pub classes: Vec<Class>,
    pub extensions: Vec<Extension>,
    pub fields: Vec<Field>,
    pub procedures: Vec<Procedure>,
    pub source_refs: Vec<Uint>,
}

pub open spec fn library_head_a_encodable(v: Library) -> bool {
    v.flags.encodable()
    && v.version_major.encodable()
    && v.version_minor.encodable()
    && v.canonical_name.encodable()
    && v.name.encodable()
    && v.file_uri.encodable()
    && list_encodable::<Utf8>(v.problems@)
    && (v.annotations@.len() < 0x4000_0000 && expr_items_encodable(v.annotations@))
}

/// The library's fields from its flags to its annotations.
pub open spec fn library_head_a_wire(v: Library) -> Seq<u8> {
    v.flags.wire()
    + v.version_major.wire()
    + v.version_minor.wire()
    + v.canonical_name.wire()
    + v.name.wire()
    + v.file_uri.wire()
    + list_wire::<Utf8>(v.problems@)
    + uint_bytes(v.annotations@.len() as u32) + expr_items_wire(v.annotations@)
}

#[verifier::rlimit(100)]
fn encode_library_head_a(v: &Library, out: &mut Vec<u8>) -> (r: Result<(), KernelError>)
    ensures
        r is Ok <==> library_head_a_encodable(*v),
        r is Ok ==> final(out)@ == old(out)@ + library_head_a_wire(*v),
{
    v.flags.encode(out)?;
    let ghost acc0 = v.flags.wire();
    v.version_major.encode(out)?;
    proof {
        lemma_concat_associative(old(out)@, acc0, v.version_major.wire());
    }
    let ghost acc1 = acc0 + v.version_major.wire();
    v.version_minor.encode(out)?;
    proof {
        lemma_concat_associative(old(out)@, acc1, v.version_minor.wire());
    }
    let ghost acc2 = acc1 + v.version_minor.wire();
    v.canonical_name.encode(out)?;
    proof {
        lemma_concat_associative(old(out)@, acc2, v.canonical_name.wire());
    }
    let ghost acc3 = acc2 + v.canonical_name.wire();
    v.name.encode(out)?;
    proof {
        lemma_concat_associative(old(out)@, acc3, v.name.wire());
    }
    let ghost acc4 = acc3 + v.name.wire();
    v.file_uri.encode(out)?;
    proof {
        lemma_concat_associative(old(out)@, acc4, v.file_uri.wire());
    }
    let ghost acc5 = acc4 + v.file_uri.wire();
    encode_list(&v.problems, out)?;
    proof {
        lemma_concat_associative(old(out)@, acc5, list_wire::<Utf8>(v.problems@));
    }
    let ghost acc6 = acc5 + list_wire::<Utf8>(v.problems@);
    encode_expr_list(&v.annotations, out)?;
    proof {
        lemma_concat_associative(old(out)@, acc6, uint_bytes(v.annotations@.len() as u32));
    }
    let ghost acc7 = acc6 + uint_bytes(v.annotations@.len() as u32);
    proof {
        lemma_concat_associative(old(out)@, acc7, expr_items_wire(v.annotations@));
    }
    let ghost acc8 = acc7 + expr_items_wire(v.annotations@);
    assert(final(out)@ == old(out)@ + library_head_a_wire(*v));
    Ok(())
}

pub open spec fn library_head_b_encodable(v: Library) -> bool {
    (v.dependencies@.len() < 0x4000_0000 && library_dependency_items_encodable(v.dependencies@))
    && list_encodable::<CanonicalNameRef>(v.additional_exports@)
    && (v.library_parts@.len() < 0x4000_0000 && library_part_items_encodable(v.library_parts@))
    && (v.typedefs@.len() < 0x4000_0000 && typedef_items_encodable(v.typedefs@))
}

/// The library's dependencies, exports, parts and typedefs.
pub open spec fn library_head_b_wire(v: Library) -> Seq<u8> {
    uint_bytes(v.dependencies@.len() as u32) + library_dependency_items_wire(v.dependencies@)
    + list_wire::<CanonicalNameRef>(v.additional_exports@)
    + uint_bytes(v.library_parts@.len() as u32) + library_part_items_wire(v.library_parts@)
    + uint_bytes(v.typedefs@.len() as u32) + typedef_items_wire(v.typedefs@)
}

#[verifier::rlimit(100)]
fn encode_library_head_b(v: &Library, out: &mut Vec<u8>) -> (r: Result<(), KernelError>)
    ensures
        r is Ok <==> library_head_b_encodable(*v),
        r is Ok ==> final(out)@ == old(out)@ + library_head_b_wire(*v),
{
    encode_library_dependency_list(&v.dependencies, out)?;
    let ghost acc0 = uint_bytes(v.dependencies@.len() as u32);
    proof {
        lemma_concat_associative(old(out)@, acc0, library_dependency_items_wire(v.dependencies@));
    }
    let ghost acc1 = acc0 + library_dependency_items_wire(v.dependencies@);
    encode_list(&v.additional_exports, out)?;
    proof {
        lemma_concat_associative(old(out)@, acc1, list_wire::<CanonicalNameRef>(v.additional_exports@));
    }
    let ghost acc2 = acc1 + list_wire::<CanonicalNameRef>(v.additional_exports@);
    encode_library_part_list(&v.library_parts, out)?;
    proof {
        lemma_concat_associative(old(out)@, acc2, uint_bytes(v.library_parts@.len() as u32));
    }
    let ghost acc3 = acc2 + uint_bytes(v.library_parts@.len() as u32);
    proof {
        lemma_concat_associative(old(out)@, acc3, library_part_items_wire(v.library_parts@));
    }
    let ghost acc4 = acc3 + library_part_items_wire(v.library_parts@);
    encode_typedef_list(&v.typedefs, out)?;
    proof {
        lemma_concat_associative(old(out)@, acc4, uint_bytes(v.typedefs@.len() as u32));
    }
    let ghost acc5 = acc4 + uint_bytes(v.typedefs@.len() as u32);
    proof {
        lemma_concat_associative(old(out)@, acc5, typedef_items_wire(v.typedefs@));
    }
    let ghost acc6 = acc5 + typedef_items_wire(v.typedefs@);
    assert(final(out)@ == old(out)@ + library_head_b_wire(*v));
    Ok(())
}

pub open spec fn library_mid_encodable(v: Library) -> bool {
    (v.extensions@.len() < 0x4000_0000 && extension_items_encodable(v.extensions@)) && (v.fields@.len() < 0x4000_0000 && field_items_encodable(v.fields@))
}

/// The library's extensions and fields.
pub open spec fn library_mid_wire(v: Library) -> Seq<u8> {
    uint_bytes(v.extensions@.len() as u32) + extension_items_wire(v.extensions@) + uint_bytes(v.fields@.len() as u32) + field_items_wire(v.fields@)
}

#[verifier::rlimit(100)]
fn encode_library_mid(v: &Library, out: &mut Vec<u8>) -> (r: Result<(), KernelError>)
    ensures
        r is Ok <==> library_mid_encodable(*v),
        r is Ok ==> final(out)@ == old(out)@ + library_mid_wire(*v),
{
    encode_extension_list(&v.extensions, out)?;
    let ghost acc0 = uint_bytes(v.extensions@.len() as u32);
    proof {
        lemma_concat_associative(old(out)@, acc0, extension_items_wire(v.extensions@));
    }
    let ghost acc1 = acc0 + extension_items_wire(v.extensions@);
    encode_field_list(&v.fields, out)?;
    proof {
        lemma_concat_associative(old(out)@, acc1, uint_bytes(v.fields@.len() as u32));
    }
    let ghost acc2 = acc1 + uint_bytes(v.fields@.len() as u32);
    proof {
        lemma_concat_associative(old(out)@, acc2, field_items_wire(v.fields@));
    }
    let ghost acc3 = acc2 + field_items_wire(v.fields@);
    assert(final(out)@ == old(out)@ + library_mid_wire(*v));
    Ok(())
}

/// The classes of `s` written one after another from `start`. A class's
/// sub-index holds absolute positions, so its bytes depend on where it starts.
pub open spec fn classes_wire(s: Seq<Class>, start: int) -> Seq<u8>
    decreases s.len(),
{
    if s.len() == 0 {
        Seq::empty()
    } else {
        let prev = classes_wire(s.drop_last(), start);
        prev + class_wire(s.last(), start + prev.len())
    }
}

/// Each class of `s`, written one after another from `start`, can be written where it falls.
pub open spec fn classes_encodable(s: Seq<Class>, start: int) -> bool
    decreases s.len(),
{
    if s.len() == 0 {
        true
    } else {
        classes_encodable(s.drop_last(), start) && class_encodable(
            s.last(),
            start + classes_wire(s.drop_last(), start).len(),
        )
    }
}

/// The position of each class of `s` written from `start`, then the position after the last.
pub open spec fn class_offsets(start: int, s: Seq<Class>) -> Seq<int> {
    Seq::new(s.len() + 1, |i: int| start + classes_wire(s.subrange(0, i), start).len())
}

proof fn lemma_classes_encodable_prefix(s: Seq<Class>, start: int, k: int)
    requires
        classes_encodable(s, start),
        0 <= k <= s.len(),
    ensures
        classes_encodable(s.subrange(0, k), start),
    decreases s.len(),
{
    if k == s.len() {
        assert(s.subrange(0, k) =~= s);
    } else {
        lemma_classes_encodable_prefix(s.drop_last(), start, k);
        assert(s.drop_last().subrange(0, k) =~= s.subrange(0, k));
    }
}

proof fn lemma_class_offsets_bounded(start: int, s: Seq<Class>, i: int)
    requires
        0 <= i <= s.len(),
    ensures
        start <= class_offsets(start, s)[i] <= start + classes_wire(s, start).len(),
    decreases s.len(),
{
    if i == s.len() {
        assert(s.subrange(0, i) =~= s);
    } else {
        let t = s.drop_last();
        lemma_class_offsets_bounded(start, t, i);
        assert(t.subrange(0, i) =~= s.subrange(0, i));
        assert(t.subrange(0, t.len() as int) =~= t);
    }
}

/// Appends classes one after another, and returns where each one starts. A
/// class's error comes back as it is.
pub fn encode_classes_at(cs: &Vec<Class>, out: &mut Vec<u8>) -> (r: Result<Vec<usize>, KernelError>)
    ensures
        r is Ok <==> classes_encodable(cs@, old(out)@.len() as int),
        r matches Ok(offs) ==> final(out)@ == old(out)@ + classes_wire(cs@, old(out)@.len() as int)
            && offs@.len() == cs@.len() && forall|i: int|
            0 <= i < cs@.len() ==> offs@[i] == #[trigger] class_offsets(
                old(out)@.len() as int,
                cs@,
            )[i],
{
    let ghost start = out@;
    let ghost b = start.len() as int;
    let mut offs: Vec<usize> = Vec::new();
    let mut i: usize = 0;
    while i < cs.len()
        invariant
            i <= cs.len(),
            offs@.len() == i,
            b == start.len(),
            start == old(out)@,
            out@ == start + classes_wire(cs@.subrange(0, i as int), b),
            classes_encodable(cs@.subrange(0, i as int), b),
            forall|j: int|
                0 <= j < i ==> offs@[j] == b + classes_wire(cs@.subrange(0, j), b).len(),
        decreases cs.len() - i,
    {
        offs.push(out.len());
        let ghost pre = out@;
        assert(pre == start + classes_wire(cs@.subrange(0, i as int), b));
        assert((start + classes_wire(cs@.subrange(0, i as int), b)).len() == start.len()
            + classes_wire(cs@.subrange(0, i as int), b).len());
        assert(pre.len() == b + classes_wire(cs@.subrange(0, i as int), b).len());
        let res = encode_class(&cs[i], out);
        proof {
            let t = cs@.subrange(0, i + 1);
            assert(t.drop_last() =~= cs@.subrange(0, i as int));
            assert(t.last() == cs@[i as int]);
        }
        match res {
            Ok(_) => {
                proof {
                    lemma_concat_associative(
                        start,
                        classes_wire(cs@.subrange(0, i as int), b),
                        class_wire(cs@[i as int], pre.len() as int),
                    );
                }
            },
            Err(e) => {
                proof {
                    let t = cs@.subrange(0, i + 1);
                    assert(!class_encodable(cs@[i as int], pre.len() as int));
                    assert(!classes_encodable(t, b));
                    if classes_encodable(cs@, b) {
                        lemma_classes_encodable_prefix(cs@, b, i + 1);
                    }
                }
                return Err(e);
            },
        }
        i = i + 1;
    }
    assert(cs@.subrange(0, i as int) =~= cs@);
    Ok(offs)
}

/// The library's fields up to and including its class count.
pub open spec fn library_head_wire(l: Library) -> Seq<u8> {
    library_head_a_wire(l) + library_head_b_wire(l) + uint_bytes(l.classes@.len() as u32)
}

/// Where the library's classes start, for a library written at `base`.
pub open spec fn library_classes_start(l: Library, base: int) -> int {
    base + library_head_wire(l).len()
}

/// Where the library's procedures start, for a library written at `base`.
pub open spec fn library_procedures_start(l: Library, base: int) -> int {
    library_classes_start(l, base) + classes_wire(l.classes@, library_classes_start(l, base)).len()
        + library_mid_wire(l).len() + uint_bytes(l.procedures@.len() as u32).len()
}

/// Where the library's source references start, for a library written at `base`.
pub open spec fn library_source_refs_start(l: Library, base: int) -> int {
    library_procedures_start(l, base) + procedure_items_wire(l.procedures@).len()
}

/// The library's bytes up to and including its source references.
#[verifier::opaque]
pub open spec fn library_body_wire(l: Library, base: int) -> Seq<u8> {
    library_head_wire(l) + classes_wire(l.classes@, library_classes_start(l, base))
        + library_mid_wire(l) + uint_bytes(l.procedures@.len() as u32) + procedure_items_wire(
        l.procedures@,
    ) + list_wire::<Uint>(l.source_refs@)
}

/// The library's trailer: the position of its source references, the class
/// offsets ending with the position after the last class, the class count,
/// the procedure offsets ending with the position after the last procedure,
/// and the procedure count.
#[verifier::opaque]
pub open spec fn library_tail_wire(l: Library, base: int) -> Seq<u8> {
    u32_bytes(library_source_refs_start(l, base) as u32) + u32s_wire(
        as_u32s(class_offsets(library_classes_start(l, base), l.classes@)),
    ) + u32_bytes(l.classes@.len() as u32) + u32s_wire(
        as_u32s(procedure_offsets(library_procedures_start(l, base), l.procedures@)),
    ) + u32_bytes(l.procedures@.len() as u32)
}

/// The wire form of a library written at `base`. The word that gives where
/// the source references start follows the list itself, where the producing
/// toolchain puts it, just ahead of the two sub-indices.
#[verifier::opaque]
pub open spec fn library_wire(l: Library, base: int) -> Seq<u8> {
    library_body_wire(l, base) + library_tail_wire(l, base)
}

#[verifier::opaque]
pub open spec fn library_body_encodable(l: Library, base: int) -> bool {
    &&& library_head_a_encodable(l)
    &&& library_head_b_encodable(l)
    &&& l.classes@.len() < UINT_LIMIT
    &&& classes_encodable(l.classes@, library_classes_start(l, base))
    &&& library_mid_encodable(l)
    &&& l.procedures@.len() < UINT_LIMIT
    &&& procedure_items_encodable(l.procedures@)
    &&& list_encodable::<Uint>(l.source_refs@)
}

/// Every count and integer fits, and the library ends within the first 2^32 bytes.
#[verifier::opaque]
pub open spec fn library_encodable(l: Library, base: int) -> bool {
    &&& library_body_encodable(l, base)
    &&& base + library_wire(l, base).len() <= u32::MAX
}

/// Appends a library's bytes up to its source references; returns the class
/// offsets and the procedure offsets, each ending with the position after the
/// last item, and the position of the source references.
#[verifier::rlimit(100)]
fn encode_library_body(l: &Library, out: &mut Vec<u8>) -> (r: Result<(Vec<usize>, Vec<usize>, usize), KernelError>)
    ensures
        r is Ok <==> library_body_encodable(*l, old(out)@.len() as int),
        r matches Ok((coffs, poffs, srs)) ==> {
            let base = old(out)@.len() as int;
            &&& final(out)@ == old(out)@ + library_body_wire(*l, base)
            &&& coffs@.len() == l.classes@.len() + 1
            &&& poffs@.len() == l.procedures@.len() + 1
            &&& forall|i: int| 0 <= i < coffs@.len() ==> coffs@[i] == #[trigger] class_offsets(
                library_classes_start(*l, base),
                l.classes@,
            )[i]
            &&& forall|i: int| 0 <= i < poffs@.len() ==> poffs@[i] == #[trigger] procedure_offsets(
                library_procedures_start(*l, base),
                l.procedures@,
            )[i]
            &&& srs == library_source_refs_start(*l, base)
            &&& l.classes@.len() < UINT_LIMIT
            &&& l.procedures@.len() < UINT_LIMIT
        },
{
    reveal(library_body_wire);
    reveal(library_body_encodable);
    let ghost base = old(out)@;
    encode_library_head_a(l, out)?;
    encode_library_head_b(l, out)?;
    if l.classes.len() >= UINT_LIMIT as usize {
        return Err(KernelError::InvalidVarUint);
    }
    Uint(l.classes.len() as u32).encode(out)?;
    proof {
        lemma_concat_associative(base, library_head_a_wire(*l), library_head_b_wire(*l));
        lemma_concat_associative(
            base,
            library_head_a_wire(*l) + library_head_b_wire(*l),
            uint_bytes(l.classes@.len() as u32),
        );
    }
    let ghost s1 = out@;
    assert(s1 == base + library_head_wire(*l));
    let mut coffs = match encode_classes_at(&l.classes, out) {
        Ok(o) => o,
        Err(e) => {
            return Err(e);
        },
    };
    let ghost cw = classes_wire(l.classes@, s1.len() as int);
    proof {
        lemma_concat_associative(base, library_head_wire(*l), cw);
        assert(l.classes@.subrange(0, l.classes@.len() as int) =~= l.classes@);
    }
    coffs.push(out.len());
    let ghost s2 = out@;
    encode_library_mid(l, out)?;
    if l.procedures.len() >= UINT_LIMIT as usize {
        return Err(KernelError::InvalidVarUint);
    }
    Uint(l.procedures.len() as u32).encode(out)?;
    proof {
        lemma_concat_associative(base, library_head_wire(*l) + cw, library_mid_wire(*l));
        lemma_concat_associative(
            base,
            library_head_wire(*l) + cw + library_mid_wire(*l),
            uint_bytes(l.procedures@.len() as u32),
        );
    }
    let ghost s3 = out@;
    let mut poffs = match encode_procedures_at(&l.procedures, out) {
        Ok(o) => o,
        Err(e) => {
            return Err(e);
        },
    };
    proof {
        lemma_concat_associative(
            base,
            library_head_wire(*l) + cw + library_mid_wire(*l) + uint_bytes(l.procedures@.len() as u32),
            procedure_items_wire(l.procedures@),
        );
    }
    poffs.push(out.len());
    proof {
        lemma_procedure_offsets_sentinel(s3.len() as int, l.procedures@);
    }
    let srs = out.len();
    encode_list(&l.source_refs, out)?;
    proof {
        lemma_concat_associative(
            base,
            library_head_wire(*l) + cw + library_mid_wire(*l) + uint_bytes(l.procedures@.len() as u32)
                + procedure_items_wire(l.procedures@),
            list_wire::<Uint>(l.source_refs@),
        );
    }
    Ok((coffs, poffs, srs))
}

/// Appends a library that starts at the current end of `out`.
#[verifier::rlimit(100)]
pub fn encode_library(l: &Library, out: &mut Vec<u8>) -> (r: Result<(), KernelError>)
    ensures
        r is Ok <==> library_encodable(*l, old(out)@.len() as int),
        r is Ok ==> final(out)@ == old(out)@ + library_wire(*l, old(out)@.len() as int),
{
    reveal(library_wire);
    reveal(library_encodable);
    reveal(library_tail_wire);
    reveal(library_body_wire);
    let ghost base = old(out)@.len() as int;
    let (coffs, poffs, srs) = match encode_library_body(l, out) {
        Ok(x) => x,
        Err(e) => {
            return Err(e);
        },
    };
    let ghost body = out@;
    let nc = l.classes.len();
    let np = l.procedures.len();
    let ghost cstart = library_classes_start(*l, base);
    let ghost pstart = library_procedures_start(*l, base);
    proof {
        lemma_u32s_wire_len(as_u32s(class_offsets(cstart, l.classes@)));
        lemma_u32s_wire_len(as_u32s(procedure_offsets(pstart, l.procedures@)));
        assert(library_tail_wire(*l, base).len() == 4 * (nc + np + 5));
    }
    if out.len() > u32::MAX as usize || (u32::MAX as usize - out.len()) / 4 < nc + np + 5 {
        return Err(KernelError::OffsetOverflow);
    }
    proof {
        assert forall|i: int| 0 <= i < coffs@.len() implies coffs@[i] <= u32::MAX by {
            assert(coffs@[i] == class_offsets(cstart, l.classes@)[i]);
            lemma_class_offsets_bounded(cstart, l.classes@, i);
        }
        assert forall|i: int| 0 <= i < poffs@.len() implies poffs@[i] <= u32::MAX by {
            assert(poffs@[i] == procedure_offsets(pstart, l.procedures@)[i]);
            lemma_offsets_bounded(pstart, l.procedures@, i);
        }
        assert(Seq::new(coffs@.len(), |i: int| coffs@[i] as u32) =~= as_u32s(
            class_offsets(cstart, l.classes@),
        ));
        assert(Seq::new(poffs@.len(), |i: int| poffs@[i] as u32) =~= as_u32s(
            procedure_offsets(pstart, l.procedures@),
        ));
    }
    write_u32(srs as u32, out);
    write_offsets(&coffs, out);
    write_u32(nc as u32, out);
    write_offsets(&poffs, out);
    write_u32(np as u32, out);
    proof {
        assert(out@ =~= body + library_tail_wire(*l, base));
        lemma_concat_associative(old(out)@, library_body_wire(*l, base), library_tail_wire(*l, base));
    }
    Ok(())
}

/// The last entry of an offset array is written last.
pub proof fn lemma_u32s_last(s: Seq<u32>)
    requires
        s.len() > 0,
    ensures
        u32s_wire(s) == u32s_wire(s.drop_last()) + u32_bytes(s.last()),
{
}

/// Reads a library from its start, field by field; its sub-indices are not needed for that.
#[verifier::rlimit(100)]
pub fn decode_library(data: &[u8], pos: &mut usize) -> (r: Result<Library, KernelError>)
    ensures
        r is Ok ==> *old(pos) < *final(pos) <= data@.len(),
{
    let flags = <LibraryFlags as Codec>::decode(data, pos)?;
    let version_major = Uint::decode(data, pos)?;
    let version_minor = Uint::decode(data, pos)?;
    let canonical_name = <CanonicalNameRef as Codec>::decode(data, pos)?;
    let name = <StringRef as Codec>::decode(data, pos)?;
    let file_uri = <UriRef as Codec>::decode(data, pos)?;
    let problems = decode_list::<Utf8>(data, pos)?;
    let annotations = decode_expr_list(data, pos)?;
    let dependencies = decode_library_dependency_list(data, pos)?;
    let additional_exports = decode_list::<CanonicalNameRef>(data, pos)?;
    let library_parts = decode_library_part_list(data, pos)?;
    let typedefs = decode_typedef_list(data, pos)?;
    let nc = Uint::decode(data, pos)?;
    let mut classes: Vec<Class> = Vec::new();
    let mut i: u32 = 0;
    while i < nc.0
        invariant
            *old(pos) < *pos <= data@.len(),
        decreases nc.0 - i,
    {
        let c = decode_class(data, pos)?;
        classes.push(c);
        i = i + 1;
    }
    let extensions = decode_extension_list(data, pos)?;
    let fields = decode_field_list(data, pos)?;
    let procedures = decode_procedure_list(data, pos)?;
    let source_refs = decode_list::<Uint>(data, pos)?;
    Ok(
        Library {
            flags,
            version_major,
            version_minor,
            canonical_name,
            name,
            file_uri,
            problems,
            annotations,
            dependencies,
            additional_exports,
            library_parts,
            typedefs,
            classes,
            extensions,
            fields,
            procedures,
            source_refs,
        },
    )
}

/// A whole component in memory: its problems, libraries and shared tables.
#[derive(Debug, Default)]
pub struct Component {
    pub problems: Vec<Utf8>,
    pub libraries: Vec<Library>,
    pub source_map: Vec<SourceInfo>,
    pub constants: Vec<Constant>,
    pub canonical_names: Vec<CanonicalName>,
    pub payloads: Vec<Vec<u8>>,
    pub strings: Vec<StrRef>,
    pub main_method: CanonicalNameRef,
    pub non_nullable_mode: NonNullableMode,
}

/// The libraries of `s` written one after another from `start`.
pub open spec fn libraries_wire(s: Seq<Library>, start: int) -> Seq<u8>
    decreases s.len(),
{
    if s.len() == 0 {
        Seq::empty()
    } else {
        let prev = libraries_wire(s.drop_last(), start);
        prev + library_wire(s.last(), start + prev.len())
    }
}

/// Each library of `s`, written one after another from `start`, can be written where it falls.
pub open spec fn libraries_encodable(s: Seq<Library>, start: int) -> bool
    decreases s.len(),
{
    if s.len() == 0 {
        true
    } else {
        libraries_encodable(s.drop_last(), start) && library_encodable(
            s.last(),
            start + libraries_wire(s.drop_last(), start).len(),
        )
    }
}

/// The position of each library of `s` written from `start`, then the position after the last.
pub open spec fn library_offsets(start: int, s: Seq<Library>) -> Seq<int> {
    Seq::new(s.len() + 1, |i: int| start + libraries_wire(s.subrange(0, i), start).len())
}

proof fn lemma_libraries_encodable_prefix(s: Seq<Library>, start: int, k: int)
    requires
        libraries_encodable(s, start),
        0 <= k <= s.len(),
    ensures
        libraries_encodable(s.subrange(0, k), start),
    decreases s.len(),
{
    if k == s.len() {
        assert(s.subrange(0, k) =~= s);
    } else {
        lemma_libraries_encodable_prefix(s.drop_last(), start, k);
        assert(s.drop_last().subrange(0, k) =~= s.subrange(0, k));
    }
}

proof fn lemma_library_offsets_bounded(start: int, s: Seq<Library>, i: int)
    requires
        0 <= i <= s.len(),
    ensures
        start <= library_offsets(start, s)[i] <= start + libraries_wire(s, start).len(),
    decreases s.len(),
{
    if i == s.len() {
        assert(s.subrange(0, i) =~= s);
    } else {
        let t = s.drop_last();
        lemma_library_offsets_bounded(start, t, i);
        assert(t.subrange(0, i) =~= s.subrange(0, i));
        assert(t.subrange(0, t.len() as int) =~= t);
    }
}

/// In the library offset table, the last entry is the position just after the
/// last library, and each entry is where its library starts.
pub proof fn lemma_library_offsets_sentinel(start: int, s: Seq<Library>)
    ensures
        library_offsets(start, s).last() == start + libraries_wire(s, start).len(),
        forall|i: int|
            0 <= i < s.len() ==> #[trigger] library_offsets(start, s)[i + 1] == library_offsets(
                start,
                s,
            )[i] + library_wire(s[i], library_offsets(start, s)[i]).len(),
{
    assert(s.subrange(0, s.len() as int) =~= s);
    assert forall|i: int| 0 <= i < s.len() implies #[trigger] library_offsets(start, s)[i + 1]
        == library_offsets(start, s)[i] + library_wire(s[i], library_offsets(start, s)[i]).len() by {
        let t = s.subrange(0, i + 1);
        assert(t.drop_last() =~= s.subrange(0, i));
        assert(t.last() == s[i]);
    }
}

/// Appends libraries one after another, and returns where each one starts. A
/// library's error comes back as it is.
pub fn encode_libraries_at(ls: &Vec<Library>, out: &mut Vec<u8>) -> (r: Result<Vec<usize>, KernelError>)
    ensures
        r is Ok <==> libraries_encodable(ls@, old(out)@.len() as int),
        r matches Ok(offs) ==> final(out)@ == old(out)@ + libraries_wire(ls@, old(out)@.len() as int)
            && offs@.len() == ls@.len() && forall|i: int|
            0 <= i < ls@.len() ==> offs@[i] == #[trigger] library_offsets(
                old(out)@.len() as int,
                ls@,
            )[i],
{
    let ghost start = out@;
    let ghost b = start.len() as int;
    let mut offs: Vec<usize> = Vec::new();
    let mut i: usize = 0;
    while i < ls.len()
        invariant
            i <= ls.len(),
            offs@.len() == i,
            b == start.len(),
            start == old(out)@,
            out@ == start + libraries_wire(ls@.subrange(0, i as int), b),
            libraries_encodable(ls@.subrange(0, i as int), b),
            forall|j: int|
                0 <= j < i ==> offs@[j] == b + libraries_wire(ls@.subrange(0, j), b).len(),
        decreases ls.len() - i,
    {
        offs.push(out.len());
        let ghost pre = out@;
        assert(pre == start + libraries_wire(ls@.subrange(0, i as int), b));
        assert((start + libraries_wire(ls@.subrange(0, i as int), b)).len() == start.len()
            + libraries_wire(ls@.subrange(0, i as int), b).len());
        assert(pre.len() == b + libraries_wire(ls@.subrange(0, i as int), b).len());
        let res = encode_library(&ls[i], out);
        proof {
            let t = ls@.subrange(0, i + 1);
            assert(t.drop_last() =~= ls@.subrange(0, i as int));
            assert(t.last() == ls@[i as int]);
        }
        match res {
            Ok(_) => {
                proof {
                    lemma_concat_associative(
                        start,
                        libraries_wire(ls@.subrange(0, i as int), b),
                        library_wire(ls@[i as int], pre.len() as int),
                    );
                }
            },
            Err(e) => {
                proof {
                    let t = ls@.subrange(0, i + 1);
                    assert(!library_encodable(ls@[i as int], pre.len() as int));
                    assert(!libraries_encodable(t, b));
                    if libraries_encodable(ls@, b) {
                        lemma_libraries_encodable_prefix(ls@, b, i + 1);
                    }
                }
                return Err(e);
            },
        }
        i = i + 1;
    }
    assert(ls@.subrange(0, i as int) =~= ls@);
    Ok(offs)
}

/// Where each source of `s` starts when they are written one after another from `start`.
pub open spec fn source_offsets(start: int, s: Seq<SourceInfo>) -> Seq<int> {
    Seq::new(s.len(), |i: int| start + source_info_items_wire(s.subrange(0, i)).len())
}

/// The source table written at `start`: the count, each source, then where each starts.
pub open spec fn source_table_wire(s: Seq<SourceInfo>, start: int) -> Seq<u8> {
    u32_bytes(s.len() as u32) + source_info_items_wire(s) + u32s_wire(
        as_u32s(source_offsets(start + 4, s)),
    )
}

/// Where each constant of `s` starts when they are written one after another from `start`.
pub open spec fn constant_offsets(start: int, s: Seq<Constant>) -> Seq<int> {
    Seq::new(s.len(), |i: int| start + constant_items_wire(s.subrange(0, i)).len())
}

/// The constant table written at `start`: the count, each constant, where each
/// starts, then the count again.
pub open spec fn constant_table_wire(s: Seq<Constant>, start: int) -> Seq<u8> {
    uint_bytes(s.len() as u32) + constant_items_wire(s) + u32s_wire(
        as_u32s(constant_offsets(start + uint_bytes(s.len() as u32).len(), s)),
    ) + u32_bytes(s.len() as u32)
}

/// The metadata payloads, one after another.
pub open spec fn payloads_wire(s: Seq<Vec<u8>>) -> Seq<u8>
    decreases s.len(),
{
    if s.len() == 0 {
        Seq::empty()
    } else {
        payloads_wire(s.drop_last()) + s.last()@
    }
}

/// Where each payload of `s` starts when they are written one after another from `start`.
pub open spec fn payload_offsets(start: int, s: Seq<Vec<u8>>) -> Seq<int> {
    Seq::new(s.len(), |i: int| start + payloads_wire(s.subrange(0, i)).len())
}

/// The metadata mappings: where each payload starts, then the payload count.
pub open spec fn mappings_wire(s: Seq<Vec<u8>>, start: int) -> Seq<u8> {
    u32s_wire(as_u32s(payload_offsets(start, s))) + u32_bytes(s.len() as u32)
}

/// Appends the source table; `Ok` exactly when every source can be written
/// and the table ends within the first 2^32 bytes.
pub fn write_source_table(s: &Vec<SourceInfo>, out: &mut Vec<u8>) -> (r: Result<(), KernelError>)
    ensures
        r is Ok <==> source_info_items_encodable(s@) && old(out)@.len() + source_table_wire(
            s@,
            old(out)@.len() as int,
        ).len() <= u32::MAX,
        r is Ok ==> final(out)@ == old(out)@ + source_table_wire(s@, old(out)@.len() as int),
{
    let ghost start = old(out)@.len() as int;
    let n = s.len();
    if out.len() > u32::MAX as usize || n > u32::MAX as usize {
        proof { lemma_u32s_wire_len(as_u32s(source_offsets(start + 4, s@))); }
        return Err(KernelError::OffsetOverflow);
    }
    write_u32(n as u32, out);
    let ghost s1 = out@;
    let mut offs: Vec<usize> = Vec::new();
    let mut i: usize = 0;
    while i < n
        invariant
            i <= n,
            n == s@.len(),
            offs@.len() == i,
            s1.len() == start + 4,
            source_info_items_encodable(s@.subrange(0, i as int)),
            out@ == s1 + source_info_items_wire(s@.subrange(0, i as int)),
            forall|j: int| 0 <= j < i ==> offs@[j] == #[trigger] source_offsets(start + 4, s@)[j],
        decreases n - i,
    {
        offs.push(out.len());
        let res = encode_source_info(&s[i], out);
        if let Err(e) = res {
            assert(!source_info_items_encodable(s@)) by {
                assert(!source_info_encodable(s@[i as int]));
            }
            return Err(e);
        }
        proof {
            let t = s@.subrange(0, i + 1);
            assert(t.drop_last() =~= s@.subrange(0, i as int));
            assert forall|k: int| 0 <= k < t.len() implies source_info_encodable(#[trigger] t[k]) by {
                if k < i {
                    assert(t[k] == s@.subrange(0, i as int)[k]);
                }
            }
        }
        i = i + 1;
    }
    assert(s@.subrange(0, n as int) =~= s@);
    proof { lemma_u32s_wire_len(as_u32s(source_offsets(start + 4, s@))); }
    if out.len() > u32::MAX as usize || (u32::MAX as usize - out.len()) / 4 < n {
        return Err(KernelError::OffsetOverflow);
    }
    proof {
        assert forall|j: int| 0 <= j < offs@.len() implies offs@[j] <= u32::MAX by {
            assert(offs@[j] == source_offsets(start + 4, s@)[j]);
            lemma_items_prefix_len_source(s@, j);
        }
    }
    write_offsets(&offs, out);
    assert(Seq::new(offs@.len(), |i: int| offs@[i] as u32) =~= as_u32s(source_offsets(start + 4, s@)));
    assert(out@ =~= old(out)@ + source_table_wire(s@, start));
    Ok(())
}

proof fn lemma_items_prefix_len_source(s: Seq<SourceInfo>, j: int)
    requires
        0 <= j <= s.len(),
    ensures
        source_info_items_wire(s.subrange(0, j)).len() <= source_info_items_wire(s).len(),
    decreases s.len() - j,
{
    if j < s.len() {
        lemma_items_prefix_len_source(s, j + 1);
        let t = s.subrange(0, j + 1);
        assert(t.drop_last() =~= s.subrange(0, j));
    } else {
        assert(s.subrange(0, j) =~= s);
    }
}

proof fn lemma_items_prefix_len_constant(s: Seq<Constant>, j: int)
    requires
        0 <= j <= s.len(),
    ensures
        constant_items_wire(s.subrange(0, j)).len() <= constant_items_wire(s).len(),
    decreases s.len() - j,
{
    if j < s.len() {
        lemma_items_prefix_len_constant(s, j + 1);
        let t = s.subrange(0, j + 1);
        assert(t.drop_last() =~= s.subrange(0, j));
    } else {
        assert(s.subrange(0, j) =~= s);
    }
}

proof fn lemma_payloads_prefix_len(s: Seq<Vec<u8>>, j: int)
    requires
        0 <= j <= s.len(),
    ensures
        payloads_wire(s.subrange(0, j)).len() <= payloads_wire(s).len(),
    decreases s.len() - j,
{
    if j < s.len() {
        lemma_payloads_prefix_len(s, j + 1);
        let t = s.subrange(0, j + 1);
        assert(t.drop_last() =~= s.subrange(0, j));
    } else {
        assert(s.subrange(0, j) =~= s);
    }
}

/// Appends the constant table; `Ok` exactly when every constant can be written
/// and the table ends within the first 2^32 bytes.
pub fn write_constant_table(s: &Vec<Constant>, out: &mut Vec<u8>) -> (r: Result<usize, KernelError>)
    ensures
        r is Ok <==> s@.len() < UINT_LIMIT && constant_items_encodable(s@) && old(out)@.len()
            + constant_table_wire(s@, old(out)@.len() as int).len() <= u32::MAX,
        r is Ok ==> final(out)@ == old(out)@ + constant_table_wire(s@, old(out)@.len() as int),
        r matches Ok(x) ==> x == old(out)@.len() + uint_bytes(s@.len() as u32).len(),
{
    let ghost start = old(out)@.len() as int;
    let n = s.len();
    if n >= UINT_LIMIT as usize {
        return Err(KernelError::InvalidVarUint);
    }
    Uint(n as u32).encode(out)?;
    let ghost s1 = out@;
    let index_start = out.len();
    let mut offs: Vec<usize> = Vec::new();
    let mut i: usize = 0;
    while i < n
        invariant
            i <= n,
            n == s@.len(),
            n < UINT_LIMIT,
            index_start == s1.len(),
            offs@.len() == i,
            s1.len() == start + uint_bytes(n as u32).len(),
            constant_items_encodable(s@.subrange(0, i as int)),
            out@ == s1 + constant_items_wire(s@.subrange(0, i as int)),
            forall|j: int|
                0 <= j < i ==> offs@[j] == #[trigger] constant_offsets(
                    start + uint_bytes(n as u32).len(),
                    s@,
                )[j],
        decreases n - i,
    {
        offs.push(out.len());
        let res = encode_constant(&s[i], out);
        if let Err(e) = res {
            assert(!constant_items_encodable(s@)) by {
                assert(!constant_encodable(s@[i as int]));
            }
            return Err(e);
        }
        proof {
            let t = s@.subrange(0, i + 1);
            assert(t.drop_last() =~= s@.subrange(0, i as int));
            assert forall|k: int| 0 <= k < t.len() implies constant_encodable(#[trigger] t[k]) by {
                if k < i {
                    assert(t[k] == s@.subrange(0, i as int)[k]);
                }
            }
        }
        i = i + 1;
    }
    assert(s@.subrange(0, n as int) =~= s@);
    proof { lemma_u32s_wire_len(as_u32s(constant_offsets(start + uint_bytes(n as u32).len(), s@))); }
    if out.len() > u32::MAX as usize || (u32::MAX as usize - out.len()) / 4 < n + 1 {
        return Err(KernelError::OffsetOverflow);
    }
    proof {
        assert forall|j: int| 0 <= j < offs@.len() implies offs@[j] <= u32::MAX by {
            assert(offs@[j] == constant_offsets(start + uint_bytes(n as u32).len(), s@)[j]);
            lemma_items_prefix_len_constant(s@, j);
        }
    }
    let ghost s2 = out@;
    write_offsets(&offs, out);
    write_u32(n as u32, out);
    assert(Seq::new(offs@.len(), |i: int| offs@[i] as u32) =~= as_u32s(
        constant_offsets(start + uint_bytes(n as u32).len(), s@),
    ));
    assert(out@ =~= old(out)@ + constant_table_wire(s@, start));
    Ok(index_start)
}

/// Appends each payload verbatim, and returns where each one starts.
pub fn write_payloads(s: &Vec<Vec<u8>>, out: &mut Vec<u8>) -> (r: Vec<usize>)
    ensures
        final(out)@ == old(out)@ + payloads_wire(s@),
        r@.len() == s@.len(),
        forall|i: int|
            0 <= i < s@.len() ==> r@[i] == #[trigger] payload_offsets(old(out)@.len() as int, s@)[i],
{
    let ghost start = old(out)@;
    let mut offs: Vec<usize> = Vec::new();
    let mut i: usize = 0;
    while i < s.len()
        invariant
            i <= s.len(),
            offs@.len() == i,
            out@ == start + payloads_wire(s@.subrange(0, i as int)),
            forall|j: int|
                0 <= j < i ==> offs@[j] == #[trigger] payload_offsets(start.len() as int, s@)[j],
        decreases s.len() - i,
    {
        offs.push(out.len());
        write_bytes(s[i].as_slice(), out);
        proof {
            let t = s@.subrange(0, i + 1);
            assert(t.drop_last() =~= s@.subrange(0, i as int));
        }
        i = i + 1;
    }
    assert(s@.subrange(0, i as int) =~= s@);
    offs
}

/// The characters of each string of the component.
pub open spec fn chars_of(s: Seq<StrRef>) -> Seq<Seq<char>> {
    Seq::new(s.len(), |i: int| s[i]@)
}

/// The end offset of each string of `s` in the blob.
pub open spec fn string_ends(s: Seq<Seq<char>>) -> Seq<Uint> {
    Seq::new(s.len(), |k: int| Uint(strings_bytes(s.subrange(0, k + 1)).len() as u32))
}

/// The string table of `s`: the end offsets, then the blob.
pub open spec fn string_table_wire(s: Seq<Seq<char>>) -> Seq<u8> {
    list_wire::<Uint>(string_ends(s)) + strings_bytes(s)
}

/// For a component whose body is written from `start`, where each part starts:
/// libraries, source table, constant table, canonical names, metadata
/// payloads, metadata mappings, string table, and the end of the body.
#[verifier::opaque]
pub open spec fn body_positions(c: Component, start: int) -> Seq<int> {
    let p0 = start + list_wire::<Utf8>(c.problems@).len();
    let p1 = p0 + libraries_wire(c.libraries@, p0).len();
    let p2 = p1 + source_table_wire(c.source_map@, p1).len();
    let p3 = p2 + constant_table_wire(c.constants@, p2).len();
    let p4 = p3 + list_wire::<CanonicalName>(c.canonical_names@).len();
    let p5 = p4 + payloads_wire(c.payloads@).len();
    let p6 = p5 + mappings_wire(c.payloads@, p4).len();
    let p7 = p6 + string_table_wire(chars_of(c.strings@)).len();
    seq![p0, p1, p2, p3, p4, p5, p6, p7]
}

/// Everything between the header and the index, written from `start`.
#[verifier::opaque]
pub open spec fn body_wire(c: Component, start: int) -> Seq<u8> {
    let p = body_positions(c, start);
    list_wire::<Utf8>(c.problems@) + libraries_wire(c.libraries@, p[0]) + source_table_wire(
        c.source_map@,
        p[1],
    ) + constant_table_wire(c.constants@, p[2]) + list_wire::<CanonicalName>(c.canonical_names@)
        + payloads_wire(c.payloads@) + mappings_wire(c.payloads@, p[4]) + string_table_wire(
        chars_of(c.strings@),
    )
}

/// The body can be written from `start`: every count and integer fits, and
/// every table with absolute offsets ends within the first 2^32 bytes.
#[verifier::opaque]
pub open spec fn body_encodable(c: Component, start: int) -> bool {
    let p = body_positions(c, start);
    &&& list_encodable::<Utf8>(c.problems@)
    &&& libraries_encodable(c.libraries@, p[0])
    &&& source_info_items_encodable(c.source_map@)
    &&& p[1] + source_table_wire(c.source_map@, p[1]).len() <= u32::MAX
    &&& c.constants@.len() < UINT_LIMIT
    &&& constant_items_encodable(c.constants@)
    &&& p[2] + constant_table_wire(c.constants@, p[2]).len() <= u32::MAX
    &&& list_encodable::<CanonicalName>(c.canonical_names@)
    &&& p[5] + 4 * (c.payloads@.len() + 1) <= u32::MAX
    &&& strings_bytes(chars_of(c.strings@)).len() < UINT_LIMIT
    &&& c.strings@.len() < UINT_LIMIT
}

/// The header is 18 bytes, so the body starts there.
pub open spec fn header_size() -> int {
    18
}

/// The index of a component, built from the positions of its parts.
#[verifier::opaque]
pub open spec fn component_index_wire(c: Component) -> Seq<u8> {
    let p = body_positions(c, header_size());
    u32s_wire(
        seq![
            p[1] as u32,
            p[2] as u32,
            (p[2] + uint_bytes(c.constants@.len() as u32).len()) as u32,
            p[3] as u32,
            p[4] as u32,
            p[5] as u32,
            p[6] as u32,
            p[7] as u32,
        ],
    ) + u32_bytes(c.main_method.index.0) + u32_bytes(c.non_nullable_mode.spec_tag()) + u32s_wire(
        as_u32s(library_offsets(p[0], c.libraries@)),
    )
}

/// The size of a written component file.
pub open spec fn component_size(c: Component) -> int {
    body_positions(c, header_size())[7] + 40 + 4 * (c.libraries@.len() + 1) + 8
}

/// The bytes of a component file: header, problems, libraries, source table,
/// constant table, canonical names, metadata payloads and mappings, string
/// table, index, then the library count and the file size.
pub open spec fn component_wire(h: ComponentHeader, c: Component) -> Seq<u8> {
    header_wire(h) + body_wire(c, header_size()) + component_index_wire(c) + u32_bytes(
        c.libraries@.len() as u32,
    ) + u32_bytes(component_size(c) as u32)
}

/// The component can be written with this header: the version is supported,
/// every count and integer fits, and the file is smaller than 2^32 bytes.
pub open spec fn component_encodable(h: ComponentHeader, c: Component) -> bool {
    &&& supported_version(h.version)
    &&& body_encodable(c, header_size())
    &&& component_size(c) <= u32::MAX
}

impl Component {
    /// Appends everything between the header and the index; returns the
    /// library offsets, ending with the position after the last library, and
    /// the positions of the source table, the constant table, its index, the
    /// canonical names, the payloads, the mappings and the string table.
    #[verifier::rlimit(100)]
    fn write_tables(&self, out: &mut Vec<u8>) -> (r: Result<(Vec<usize>, Vec<usize>), KernelError>)
        ensures
            r is Ok <==> body_encodable(*self, old(out)@.len() as int),
            r matches Ok((loffs, ps)) ==> {
                let p = body_positions(*self, old(out)@.len() as int);
                &&& final(out)@ == old(out)@ + body_wire(*self, old(out)@.len() as int)
                &&& final(out)@.len() == p[7]
                &&& loffs@.len() == self.libraries@.len() + 1
                &&& forall|i: int| 0 <= i < loffs@.len() ==> loffs@[i] == #[trigger] library_offsets(
                    p[0],
                    self.libraries@,
                )[i]
                &&& ps@.len() == 7
                &&& ps@[0] == p[1]
                &&& ps@[1] == p[2]
                &&& ps@[2] == p[2] + uint_bytes(self.constants@.len() as u32).len()
                &&& ps@[3] == p[3]
                &&& ps@[4] == p[4]
                &&& ps@[5] == p[5]
                &&& ps@[6] == p[6]
            },
    {
        reveal(body_wire);
        reveal(body_encodable);
        reveal(body_positions);
        let ghost base = old(out)@;
        let ghost p = body_positions(*self, base.len() as int);
        encode_list(&self.problems, out)?;
        let ghost a0 = list_wire::<Utf8>(self.problems@);
        let mut loffs = match encode_libraries_at(&self.libraries, out) {
            Ok(o) => o,
            Err(e) => {
                return Err(e);
            },
        };
        let ghost w1 = libraries_wire(self.libraries@, p[0]);
        proof {
            lemma_concat_associative(base, a0, w1);
            lemma_library_offsets_sentinel(p[0], self.libraries@);
        }
        let ghost a1 = a0 + w1;
        let q1 = out.len();
        loffs.push(q1);
        write_source_table(&self.source_map, out)?;
        let ghost w2 = source_table_wire(self.source_map@, p[1]);
        proof { lemma_concat_associative(base, a1, w2); }
        let ghost a2 = a1 + w2;
        let q2 = out.len();
        let qc = match write_constant_table(&self.constants, out) {
            Ok(x) => x,
            Err(e) => {
                return Err(e);
            },
        };
        let ghost w3 = constant_table_wire(self.constants@, p[2]);
        proof { lemma_concat_associative(base, a2, w3); }
        let ghost a3 = a2 + w3;
        let q3 = out.len();
        encode_list(&self.canonical_names, out)?;
        let ghost w4 = list_wire::<CanonicalName>(self.canonical_names@);
        proof { lemma_concat_associative(base, a3, w4); }
        let ghost a4 = a3 + w4;
        let q4 = out.len();
        let poffs = write_payloads(&self.payloads, out);
        let ghost w5 = payloads_wire(self.payloads@);
        proof { lemma_concat_associative(base, a4, w5); }
        let ghost a5 = a4 + w5;
        let q5 = out.len();
        let np = self.payloads.len();
        proof {
            lemma_u32s_wire_len(as_u32s(payload_offsets(p[4], self.payloads@)));
        }
        if out.len() > u32::MAX as usize || (u32::MAX as usize - out.len()) / 4 <= np {
            return Err(KernelError::OffsetOverflow);
        }
        proof {
            assert forall|j: int| 0 <= j < poffs@.len() implies poffs@[j] <= u32::MAX by {
                assert(poffs@[j] == payload_offsets(q4 as int, self.payloads@)[j]);
                lemma_payloads_prefix_len(self.payloads@, j);
            }
        }
        let ghost before_map = out@;
        write_offsets(&poffs, out);
        write_u32(np as u32, out);
        let ghost w6 = mappings_wire(self.payloads@, p[4]);
        proof {
            assert(Seq::new(poffs@.len(), |i: int| poffs@[i] as u32) =~= as_u32s(
                payload_offsets(p[4], self.payloads@),
            ));
            assert(out@ =~= before_map + w6);
            lemma_concat_associative(base, a5, w6);
        }
        let ghost a6 = a5 + w6;
        let q6 = out.len();
        let table = StringTable::new(&self.strings)?;
        proof {
            assert(table.end_offsets@ =~= string_ends(chars_of(self.strings@)));
            assert(chars_of(self.strings@) =~= Seq::new(self.strings@.len(), |i: int| self.strings@[i]@));
        }
        let res = table.encode(out);
        if let Err(e) = res {
            return Err(e);
        }
        let ghost w7 = string_table_wire(chars_of(self.strings@));
        proof {
            lemma_concat_associative(base, a6, w7);
        }
        let mut ps: Vec<usize> = Vec::new();
        ps.push(q1);
        ps.push(q2);
        ps.push(qc);
        ps.push(q3);
        ps.push(q4);
        ps.push(q5);
        ps.push(q6);
        Ok((loffs, ps))
    }

    /// The bytes of this component as a file with the given header. It fails
    /// exactly when the version is not supported, a count or integer reaches
    /// 2^30, or the file would reach 2^32 bytes.
    #[verifier::rlimit(100)]
    pub fn encode(&self, header: &ComponentHeader) -> (r: Result<Vec<u8>, KernelError>)
        ensures
            r is Ok <==> component_encodable(*header, *self),
            r matches Ok(b) ==> b@ == component_wire(*header, *self),
            !supported_version(header.version) ==> r == Err::<Vec<u8>, _>(
                KernelError::UnsupportedVersion(header.version),
            ),
    {
        proof {
            reveal(component_index_wire);
            reveal(body_positions);
        }
        if header.version != 74 && header.version != 75 {
            return Err(KernelError::UnsupportedVersion(header.version));
        }
        let mut out: Vec<u8> = Vec::new();
        header.encode(&mut out);
        assert(out@ =~= header_wire(*header));
        let ghost p = body_positions(*self, header_size());
        let (loffs, ps) = match self.write_tables(&mut out) {
            Ok(x) => x,
            Err(e) => {
                return Err(e);
            },
        };
        let n = self.libraries.len();
        if out.len() > u32::MAX as usize || (u32::MAX as usize - out.len()) / 4 < 13 || (
        u32::MAX as usize - out.len()) / 4 - 13 < n {
            return Err(KernelError::OffsetOverflow);
        }
        proof {
            assert forall|i: int| 0 <= i < loffs@.len() implies loffs@[i] <= u32::MAX by {
                lemma_library_offsets_bounded(p[0], self.libraries@, i);
            }
        }
        let mut lib_offsets: Vec<u32> = Vec::new();
        let mut i: usize = 0;
        while i < loffs.len()
            invariant
                i <= loffs.len(),
                lib_offsets@.len() == i,
                forall|j: int| 0 <= j < loffs@.len() ==> #[trigger] loffs@[j] <= u32::MAX,
                forall|j: int| 0 <= j < i ==> lib_offsets@[j] == loffs@[j] as u32,
            decreases loffs.len() - i,
        {
            lib_offsets.push(loffs[i] as u32);
            i = i + 1;
        }
        let index = ComponentIndex {
            source_table_offset: ps[0] as u32,
            constant_table_offset: ps[1] as u32,
            constant_table_index_offset: ps[2] as u32,
            canonical_names_offset: ps[3] as u32,
            metadata_payloads_offset: ps[4] as u32,
            metadata_mappings_offset: ps[5] as u32,
            string_table_offset: ps[6] as u32,
            component_index_offset: out.len() as u32,
            main_method_reference: self.main_method.index.0,
            compilation_mode: self.non_nullable_mode,
            library_offsets: lib_offsets,
        };
        let ghost w7 = out@;
        proof {
            assert(index.library_offsets@ =~= as_u32s(library_offsets(p[0], self.libraries@)));
            assert(index_positions(index) =~= seq![
                p[1] as u32,
                p[2] as u32,
                (p[2] + uint_bytes(self.constants@.len() as u32).len()) as u32,
                p[3] as u32,
                p[4] as u32,
                p[5] as u32,
                p[6] as u32,
                p[7] as u32,
            ]);
            lemma_u32s_wire_len(index_positions(index));
            lemma_u32s_wire_len(index.library_offsets@);
        }
        index.encode(&mut out);
        write_u32(n as u32, &mut out);
        let size = out.len() + 4;
        write_u32(size as u32, &mut out);
        Ok(out)
    }
}

#[verifier::rlimit(100)]
/// A written file can be opened from its tail: the header is valid, the last
/// eight bytes give the library count and the file's own length, the index
/// before them holds its own position, and the library offset table ends with
/// the position after the last library, where the source table starts.
pub proof fn lemma_written_file_is_addressable(h: ComponentHeader, c: Component)
    requires
        component_encodable(h, c),
    ensures
        ({
            let d = component_wire(h, c);
            let p = body_positions(c, header_size());
            &&& header_ok(d)
            &&& tail_ok(d)
            &&& u32_at(d, 4) == h.version
            &&& d.subrange(8, 18) == h.sdk_hash@
            &&& u32_at(d, d.len() - 8) == c.libraries@.len()
            &&& index_start(d) == p[7]
            &&& u32_at(d, p[7]) == p[1]
            &&& u32_at(d, p[7] + 40 + 4 * c.libraries@.len()) == p[1]
            &&& u32_at(d, p[7] + 32) == c.main_method.index.0
            &&& NonNullableMode::from_tag(u32_at(d, p[7] + 36)) == Some(c.non_nullable_mode)
        }),
{
    reveal(component_index_wire);
    reveal(body_positions);
    reveal(body_wire);
    let p = body_positions(c, header_size());
    let n = c.libraries@.len();
    let w = header_wire(h) + body_wire(c, header_size());
    lemma_header_round_trip(h);
    assert(w.len() == p[7]);
    let positions = seq![
        p[1] as u32,
        p[2] as u32,
        (p[2] + uint_bytes(c.constants@.len() as u32).len()) as u32,
        p[3] as u32,
        p[4] as u32,
        p[5] as u32,
        p[6] as u32,
        p[7] as u32,
    ];
    lemma_index_tail_words(
        w,
        positions,
        c.main_method.index.0,
        c.non_nullable_mode.spec_tag(),
        as_u32s(library_offsets(p[0], c.libraries@)),
        n as u32,
        component_size(c) as u32,
    );
    lemma_library_offsets_sentinel(p[0], c.libraries@);
    let d = component_wire(h, c);
    assert(d =~= w + (u32s_wire(positions) + u32_bytes(c.main_method.index.0) + u32_bytes(
        c.non_nullable_mode.spec_tag(),
    ) + u32s_wire(as_u32s(library_offsets(p[0], c.libraries@)))) + u32_bytes(n as u32) + u32_bytes(
        component_size(c) as u32,
    ));
    assert(d.subrange(0, 18) =~= header_wire(h));
    assert(d.subrange(0, 4) =~= header_magic());
    assert(d.subrange(4, 8) =~= u32_bytes(h.version));
    lemma_u32_at_bytes(d, 4, h.version);
    assert(d.subrange(8, 18) =~= h.sdk_hash@);
}

/// The integer at `p` is `x` when the four bytes there are `x`'s.
pub proof fn lemma_u32_at_bytes(d: Seq<u8>, p: int, x: u32)
    requires
        0 <= p,
        p + 4 <= d.len(),
        d.subrange(p, p + 4) == u32_bytes(x),
    ensures
        u32_at(d, p) == x,
{
    lemma_u32_round_trip(x, Seq::empty(), Seq::empty());
    assert(Seq::<u8>::empty() + u32_bytes(x) + Seq::<u8>::empty() =~= u32_bytes(x));
    assert(d[p] == u32_bytes(x)[0] && d[p + 1] == u32_bytes(x)[1] && d[p + 2] == u32_bytes(x)[2]
        && d[p + 3] == u32_bytes(x)[3]);
}

#[verifier::rlimit(100)]
/// What a reader finds in an index and the metadata that end a file: the
/// index's eight positions `ps`, main method, mode, library offsets `libs`,
/// then the library count `n` and the size.
pub proof fn lemma_index_tail_words(
    w: Seq<u8>,
    ps: Seq<u32>,
    main: u32,
    mode: u32,
    libs: Seq<u32>,
    n: u32,
    size: u32,
)
    requires
        ps.len() == 8,
        libs.len() == n + 1,
        size == w.len() + 40 + 4 * (n + 1) + 8,
    ensures
        ({
            let d = w + (u32s_wire(ps) + u32_bytes(main) + u32_bytes(mode) + u32s_wire(libs))
                + u32_bytes(n) + u32_bytes(size);
            &&& d.len() == size
            &&& u32_at(d, d.len() - 4) == size
            &&& u32_at(d, d.len() - 8) == n
            &&& index_start(d) == w.len()
            &&& u32_at(d, w.len() as int) == ps[0]
            &&& u32_at(d, w.len() + 28int) == ps[7]
            &&& u32_at(d, w.len() + 32int) == main
            &&& u32_at(d, w.len() + 36int) == mode
            &&& u32_at(d, w.len() + 40 + 4 * n as int) == libs.last()
            &&& d.subrange(0, w.len() as int) == w
        }),
{
    let d = w + (u32s_wire(ps) + u32_bytes(main) + u32_bytes(mode) + u32s_wire(libs)) + u32_bytes(n)
        + u32_bytes(size);
    lemma_u32s_wire_len(ps);
    lemma_u32s_wire_len(libs);
    let wl = w.len() as int;
    assert(d.len() == size);
    assert(d.subrange(d.len() - 4, d.len() as int) =~= u32_bytes(size));
    lemma_u32_at_bytes(d, d.len() - 4, size);
    assert(d.subrange(d.len() - 8, d.len() - 4) =~= u32_bytes(n));
    lemma_u32_at_bytes(d, d.len() - 8, n);
    assert(d.subrange(wl + 32, wl + 36) =~= u32_bytes(main));
    lemma_u32_at_bytes(d, wl + 32, main);
    assert(d.subrange(wl + 36, wl + 40) =~= u32_bytes(mode));
    lemma_u32_at_bytes(d, wl + 36, mode);
    lemma_u32s_prefix(ps, 1);
    assert(ps.subrange(0, 1) =~= seq![ps[0]]);
    assert(seq![ps[0]].drop_last() =~= Seq::<u32>::empty());
    assert(u32s_wire(seq![ps[0]]) =~= u32_bytes(ps[0]));
    assert(d.subrange(wl, wl + 4) =~= u32s_wire(ps).subrange(0, 4));
    lemma_u32_at_bytes(d, wl, ps[0]);
    lemma_u32s_last(ps);
    lemma_u32s_wire_len(ps.drop_last());
    assert(d.subrange(wl + 28, wl + 32) =~= u32_bytes(ps.last()));
    lemma_u32_at_bytes(d, wl + 28, ps[7]);
    lemma_u32s_last(libs);
    lemma_u32s_wire_len(libs.drop_last());
    assert(d.subrange(wl + 40 + 4 * n, wl + 44 + 4 * n) =~= u32_bytes(libs.last()));
    lemma_u32_at_bytes(d, wl + 40 + 4 * n, libs.last());
    assert(d.subrange(0, wl) =~= w);
}

/// The first `k` entries of an offset array are written first.
pub proof fn lemma_u32s_prefix(s: Seq<u32>, k: int)
    requires
        0 <= k <= s.len(),
    ensures
        u32s_wire(s).subrange(0, 4 * k) == u32s_wire(s.subrange(0, k)),
        u32s_wire(s).len() == 4 * s.len(),
    decreases s.len(),
{
    lemma_u32s_wire_len(s);
    if k < s.len() {
        lemma_u32s_prefix(s.drop_last(), k);
        lemma_u32s_wire_len(s.drop_last());
        assert(s.drop_last().subrange(0, k) =~= s.subrange(0, k));
        assert(u32s_wire(s).subrange(0, 4 * k) =~= u32s_wire(s.drop_last()).subrange(0, 4 * k));
    } else {
        assert(s.subrange(0, k) =~= s);
        assert(u32s_wire(s).subrange(0, 4 * k) =~= u32s_wire(s));
    }
}

/// The file's last eight bytes give its own length and a library count whose
/// index fits before them; that index holds its own position and a known
/// null-safety mode.
pub open spec fn tail_ok(d: Seq<u8>) -> bool {
    let n = u32_at(d, d.len() - 8) as int;
    let ip = d.len() - 8 - (44 + 4 * n);
    &&& d.len() >= 8
    &&& u32_at(d, d.len() - 4) == d.len()
    &&& ip >= 0
    &&& u32_at(d, ip + 28) == ip
    &&& NonNullableMode::from_tag(u32_at(d, ip + 36)) is Some
}

/// The file opens with the magic and a supported format version.
pub open spec fn header_ok(d: Seq<u8>) -> bool {
    &&& d.len() >= 18
    &&& d.subrange(0, 4) == header_magic()
    &&& supported_version(u32_at(d, 4))
}

/// Where the index starts in a file whose tail is `d`'s last eight bytes.
pub open spec fn index_start(d: Seq<u8>) -> int {
    d.len() - 8 - (44 + 4 * (u32_at(d, d.len() - 8) as int))
}

/// A component file opened for reading: its bytes, its header, and the index
/// and metadata read from its tail. Each table is decoded when it is asked for.
pub struct ComponentFile {
    pub data: Vec<u8>,
    pub header: ComponentHeader,
    pub index: ComponentIndex,
    pub metadata: ComponentMetadata,
}

impl ComponentFile {
    /// Reads the metadata from the last eight bytes, then the index just
    /// before it, then the header. A file whose tail does not give its own
    /// length, or whose index does not hold its own position, is cut short.
    pub fn load(data: Vec<u8>) -> (r: Result<ComponentFile, KernelError>)
        ensures
            ({
                let d = data@;
                &&& r is Ok <==> tail_ok(d) && header_ok(d)
                &&& r matches Ok(f) ==> {
                    &&& f.data@ == d
                    &&& f.metadata.library_count == u32_at(d, d.len() - 8)
                    &&& f.metadata.file_size == u32_at(d, d.len() - 4)
                    &&& f.metadata.file_size == d.len()
                    &&& f.header.version == u32_at(d, 4)
                    &&& f.header.sdk_hash@ == d.subrange(8, 18)
                    &&& index_positions(f.index) == u32s_at(d, index_start(d), 8)
                    &&& f.index.main_method_reference == u32_at(d, index_start(d) + 32)
                    &&& Some(f.index.compilation_mode) == NonNullableMode::from_tag(
                        u32_at(d, index_start(d) + 36),
                    )
                    &&& f.index.library_offsets@ == u32s_at(
                        d,
                        index_start(d) + 40,
                        (f.metadata.library_count + 1) as nat,
                    )
                }
                &&& !tail_ok(d) ==> r == Err::<ComponentFile, _>(KernelError::ShortRead)
                &&& tail_ok(d) && d.len() >= 18 && d.subrange(0, 4) == header_magic()
                    && !supported_version(u32_at(d, 4)) ==> r == Err::<ComponentFile, _>(
                    KernelError::UnsupportedVersion(u32_at(d, 4)),
                )
            }),
    {
        let len = data.len();
        if len < METADATA_SIZE {
            return Err(KernelError::ShortRead);
        }
        let mut pos = len - METADATA_SIZE;
        let library_count = match read_u32(data.as_slice(), &mut pos) {
            Ok(x) => x,
            Err(_) => {
                return Err(KernelError::ShortRead);
            },
        };
        let file_size = match read_u32(data.as_slice(), &mut pos) {
            Ok(x) => x,
            Err(_) => {
                return Err(KernelError::ShortRead);
            },
        };
        if file_size as usize != len {
            return Err(KernelError::ShortRead);
        }
        let index_size: u64 = INDEX_MINIMUM_SIZE as u64 + 4 * (library_count as u64) + METADATA_SIZE as u64;
        if index_size > len as u64 {
            return Err(KernelError::ShortRead);
        }
        let start = len - index_size as usize;
        let mut ipos = start;
        let index = match ComponentIndex::decode(data.as_slice(), &mut ipos, library_count) {
            Ok(i) => i,
            Err(_) => {
                return Err(KernelError::ShortRead);
            },
        };
        proof {
            assert(index_positions(index)[7] == u32s_at(data@, start as int, 8)[7]);
        }
        if index.component_index_offset as usize != start {
            return Err(KernelError::ShortRead);
        }
        let mut hpos: usize = 0;
        let header = ComponentHeader::decode(data.as_slice(), &mut hpos)?;
        Ok(
            ComponentFile {
                data,
                header,
                index,
                metadata: ComponentMetadata { library_count, file_size },
            },
        )
    }

    /// The library count and file size read from the tail.
    pub fn metadata(&self) -> (r: ComponentMetadata)
        ensures
            r == self.metadata,
    {
        self.metadata
    }

    /// Each library, read from its offset in the index.
    pub fn libraries(&self) -> (r: Result<Vec<Library>, KernelError>)
        ensures
            r matches Ok(v) ==> v@.len() + 1 == self.index.library_offsets@.len(),
            self.index.library_offsets@.len() == 1 ==> r is Ok && r->Ok_0@.len() == 0,
    {
        let n = self.index.library_offsets.len();
        let mut libs: Vec<Library> = Vec::new();
        if n == 0 {
            return Err(KernelError::ShortRead);
        }
        let mut i: usize = 0;
        while i < n - 1
            invariant
                i <= n - 1,
                n == self.index.library_offsets@.len(),
                libs@.len() == i,
            decreases n - 1 - i,
        {
            let mut pos = self.index.library_offsets[i] as usize;
            let lib = decode_library(self.data.as_slice(), &mut pos)?;
            libs.push(lib);
            i = i + 1;
        }
        Ok(libs)
    }

    /// The string table, read at its offset in the index.
    pub fn string_table(&self) -> (r: Result<StringTable, KernelError>)
        ensures
            match r {
                Ok(t) => StringTable::parse(self.data@, self.index.string_table_offset as int) matches Some(
                    (v, _),
                ) && v == t.deep_view(),
                Err(_) => StringTable::parse(self.data@, self.index.string_table_offset as int) is None,
            },
    {
        let mut pos = self.index.string_table_offset as usize;
        StringTable::decode(self.data.as_slice(), &mut pos)
    }

    /// The canonical-name table, read at its offset in the index.
    pub fn canonical_names(&self) -> (r: Result<Vec<CanonicalName>, KernelError>)
        ensures
            match r {
                Ok(v) => list_parse::<CanonicalName>(self.data@, self.index.canonical_names_offset as int) matches Some(
                    (s, _),
                ) && s == v.deep_view(),
                Err(_) => list_parse::<CanonicalName>(
                    self.data@,
                    self.index.canonical_names_offset as int,
                ) is None,
            },
    {
        let mut pos = self.index.canonical_names_offset as usize;
        decode_list::<CanonicalName>(self.data.as_slice(), &mut pos)
    }

    /// The constant table, read at its offset in the index.
    pub fn constants(&self) -> (r: Result<Vec<Constant>, KernelError>)
        ensures
            r is Ok ==> self.index.constant_table_offset < self.data@.len(),
            r is Ok ==> uint_parse(self.data@, self.index.constant_table_offset as int) is Some && r->Ok_0@.len() == (uint_parse(self.data@, self.index.constant_table_offset as int)->0).0,
            uint_parse(self.data@, self.index.constant_table_offset as int) is Some && (uint_parse(self.data@, self.index.constant_table_offset as int)->0).0 == 0 ==> r is Ok && r->Ok_0@.len() == 0,
    {
        let mut pos = self.index.constant_table_offset as usize;
        decode_constant_list(self.data.as_slice(), &mut pos)
    }

    /// The source table: a 32-bit count at its offset in the index, then that many sources.
    pub fn source_map(&self) -> (r: Result<Vec<SourceInfo>, KernelError>)
        ensures
            r matches Ok(v) ==> u32_parse(self.data@, self.index.source_table_offset as int) matches Some(
                (n, _),
            ) && v@.len() == n,
    {
        let mut pos = self.index.source_table_offset as usize;
        let n = read_u32(self.data.as_slice(), &mut pos)?;
        let mut v: Vec<SourceInfo> = Vec::new();
        let mut i: u32 = 0;
        while i < n
            invariant
                i <= n,
                v@.len() == i,
            decreases n - i,
        {
            let s = decode_source_info(self.data.as_slice(), &mut pos)?;
            v.push(s);
            i = i + 1;
        }
        Ok(v)
    }
}

/// The `k`-th integer of an offset array is written at byte `4 * k`.
pub proof fn lemma_u32s_word(s: Seq<u32>, k: int)
    requires
        0 <= k < s.len(),
    ensures
        u32s_wire(s).len() == 4 * s.len(),
        u32s_wire(s).subrange(4 * k, 4 * k + 4) == u32_bytes(s[k]),
    decreases s.len(),
{
    lemma_u32s_wire_len(s);
    lemma_u32s_wire_len(s.drop_last());
    if k == s.len() - 1 {
        assert(u32s_wire(s).subrange(4 * k, 4 * k + 4) =~= u32_bytes(s.last()));
    } else {
        lemma_u32s_word(s.drop_last(), k);
        assert(u32s_wire(s).subrange(4 * k, 4 * k + 4) =~= u32s_wire(s.drop_last()).subrange(
            4 * k,
            4 * k + 4,
        ));
    }
}

/// A written file's canonical-name table, at its position, parses to the names written.
#[verifier::rlimit(100)]
#[verifier::spinoff_prover]
proof fn lemma_written_names_read_back(h: ComponentHeader, c: Component)
    requires
        component_encodable(h, c),
    ensures
        list_parse::<CanonicalName>(component_wire(h, c), body_positions(c, header_size())[3])
            == Some((views(c.canonical_names@), body_positions(c, header_size())[4])),
{
    reveal(component_index_wire);
    reveal(body_positions);
    reveal(body_wire);
    reveal(body_encodable);
    let p = body_positions(c, header_size());
    let d = component_wire(h, c);
    let n = c.libraries@.len();
    let hw = header_wire(h);
    let pl = list_wire::<Utf8>(c.problems@);
    let lw = libraries_wire(c.libraries@, p[0]);
    let sw = source_table_wire(c.source_map@, p[1]);
    let cw = constant_table_wire(c.constants@, p[2]);
    let nw = list_wire::<CanonicalName>(c.canonical_names@);
    let yw = payloads_wire(c.payloads@);
    let mw = mappings_wire(c.payloads@, p[4]);
    let chars = chars_of(c.strings@);
    let ends = string_ends(chars);
    let blob = strings_bytes(chars);
    let iw = component_index_wire(c);
    let tl = u32_bytes(n as u32) + u32_bytes(component_size(c) as u32);
    lemma_header_round_trip(h);
    assert(d == hw + (pl + lw + sw + cw + nw + yw + mw + (list_wire::<Uint>(ends) + blob)) + iw + tl);
    let pre3 = hw + pl + lw + sw + cw;
    assert(pre3.len() == p[3]);
    assert(d =~= pre3 + nw + (yw + mw + (list_wire::<Uint>(ends) + blob) + iw + tl));
    lemma_list_round_trip::<CanonicalName>(
        c.canonical_names@,
        pre3,
        yw + mw + (list_wire::<Uint>(ends) + blob) + iw + tl,
    );
}

/// A written file's string table, at its position, parses to the strings written.
#[verifier::rlimit(100)]
proof fn lemma_written_strings_read_back(h: ComponentHeader, c: Component)
    requires
        component_encodable(h, c),
    ensures
        StringTable::parse(component_wire(h, c), body_positions(c, header_size())[6]) == Some(
            (
                (string_ends(chars_of(c.strings@)), strings_bytes(chars_of(c.strings@))),
                body_positions(c, header_size())[7],
            ),
        ),
{
    reveal(component_index_wire);
    reveal(body_positions);
    reveal(body_wire);
    reveal(body_encodable);
    let p = body_positions(c, header_size());
    let d = component_wire(h, c);
    let n = c.libraries@.len();
    let hw = header_wire(h);
    let pl = list_wire::<Utf8>(c.problems@);
    let lw = libraries_wire(c.libraries@, p[0]);
    let sw = source_table_wire(c.source_map@, p[1]);
    let cw = constant_table_wire(c.constants@, p[2]);
    let nw = list_wire::<CanonicalName>(c.canonical_names@);
    let yw = payloads_wire(c.payloads@);
    let mw = mappings_wire(c.payloads@, p[4]);
    let chars = chars_of(c.strings@);
    let ends = string_ends(chars);
    let blob = strings_bytes(chars);
    let iw = component_index_wire(c);
    let tl = u32_bytes(n as u32) + u32_bytes(component_size(c) as u32);
    lemma_header_round_trip(h);
    assert(d == hw + (pl + lw + sw + cw + nw + yw + mw + (list_wire::<Uint>(ends) + blob)) + iw + tl);
    let pre6 = hw + pl + lw + sw + cw + nw + yw + mw;
    assert(pre6.len() == p[6]);
    assert forall|i: int| 0 <= i < ends.len() implies (#[trigger] ends[i]).encodable() by {
        lemma_strings_bytes_prefix(chars, i + 1);
    }
    lemma_list_round_trip::<Uint>(ends, pre6, blob + iw + tl);
    assert(d =~= pre6 + list_wire::<Uint>(ends) + (blob + iw + tl));
    assert(views(ends) =~= ends);
    if ends.len() > 0 {
        assert(chars.subrange(0, ends.len() as int) =~= chars);
    }
    let q = pre6.len() + list_wire::<Uint>(ends).len();
    assert(d.subrange(q as int, q + blob.len() as int) =~= blob);
}

/// A written file's index gives the positions of its canonical-name and string tables.
#[verifier::rlimit(100)]
proof fn lemma_written_index_words(h: ComponentHeader, c: Component)
    requires
        component_encodable(h, c),
    ensures
        u32_at(component_wire(h, c), body_positions(c, header_size())[7] + 12)
            == body_positions(c, header_size())[3],
        u32_at(component_wire(h, c), body_positions(c, header_size())[7] + 24)
            == body_positions(c, header_size())[6],
{
    reveal(component_index_wire);
    reveal(body_positions);
    reveal(body_wire);
    let p = body_positions(c, header_size());
    let d = component_wire(h, c);
    let n = c.libraries@.len();
    let positions = seq![
        p[1] as u32,
        p[2] as u32,
        (p[2] + uint_bytes(c.constants@.len() as u32).len()) as u32,
        p[3] as u32,
        p[4] as u32,
        p[5] as u32,
        p[6] as u32,
        p[7] as u32,
    ];
    lemma_header_round_trip(h);
    let w = header_wire(h) + body_wire(c, header_size());
    assert(w.len() == p[7]);
    let rest = u32_bytes(c.main_method.index.0) + u32_bytes(c.non_nullable_mode.spec_tag())
        + u32s_wire(as_u32s(library_offsets(p[0], c.libraries@))) + (u32_bytes(n as u32) + u32_bytes(
        component_size(c) as u32,
    ));
    assert(d =~= w + u32s_wire(positions) + rest);
    lemma_u32s_word(positions, 3);
    lemma_u32s_word(positions, 6);
    assert(d.subrange(p[7] + 12, p[7] + 16) =~= u32s_wire(positions).subrange(12, 16));
    assert(d.subrange(p[7] + 24, p[7] + 28) =~= u32s_wire(positions).subrange(24, 28));
    lemma_u32_at_bytes(d, p[7] + 12, positions[3]);
    lemma_u32_at_bytes(d, p[7] + 24, positions[6]);
}

/// A written file's constant table, at the position its index gives, starts
/// with the number of constants.
#[verifier::rlimit(100)]
#[verifier::spinoff_prover]
proof fn lemma_written_constant_count(h: ComponentHeader, c: Component)
    requires
        component_encodable(h, c),
    ensures
        u32_at(component_wire(h, c), body_positions(c, header_size())[7] + 4)
            == body_positions(c, header_size())[2],
        uint_parse(component_wire(h, c), body_positions(c, header_size())[2]) == Some(
            (
                c.constants@.len() as u32,
                body_positions(c, header_size())[2] + uint_bytes(c.constants@.len() as u32).len(),
            ),
        ),
{
    reveal(component_index_wire);
    reveal(body_positions);
    reveal(body_wire);
    reveal(body_encodable);
    let p = body_positions(c, header_size());
    let d = component_wire(h, c);
    let n = c.libraries@.len();
    let k = c.constants@.len() as u32;
    lemma_header_round_trip(h);
    let pre2 = header_wire(h) + list_wire::<Utf8>(c.problems@) + libraries_wire(c.libraries@, p[0])
        + source_table_wire(c.source_map@, p[1]);
    assert(pre2.len() == p[2]);
    let cw = constant_table_wire(c.constants@, p[2]);
    let rest = d.subrange(p[2] + uint_bytes(k).len(), d.len() as int);
    assert(d =~= pre2 + uint_bytes(k) + rest);
    lemma_uint_round_trip(k, pre2, rest);
    let positions = seq![
        p[1] as u32,
        p[2] as u32,
        (p[2] + uint_bytes(c.constants@.len() as u32).len()) as u32,
        p[3] as u32,
        p[4] as u32,
        p[5] as u32,
        p[6] as u32,
        p[7] as u32,
    ];
    let w = header_wire(h) + body_wire(c, header_size());
    assert(w.len() == p[7]);
    let tail = u32_bytes(c.main_method.index.0) + u32_bytes(c.non_nullable_mode.spec_tag())
        + u32s_wire(as_u32s(library_offsets(p[0], c.libraries@))) + (u32_bytes(n as u32) + u32_bytes(
        component_size(c) as u32,
    ));
    assert(d =~= w + u32s_wire(positions) + tail);
    lemma_u32s_word(positions, 1);
    assert(d.subrange(p[7] + 4, p[7] + 8) =~= u32s_wire(positions).subrange(4, 8));
    lemma_u32_at_bytes(d, p[7] + 4, positions[1]);
}

/// A written file reads back its canonical names and its strings: the index
/// words point at the two tables, and each table parses to what was written.
/// Its constant table starts with the number of constants.
pub proof fn lemma_written_tables_read_back(h: ComponentHeader, c: Component)
    requires
        component_encodable(h, c),
    ensures
        ({
            let d = component_wire(h, c);
            let p = body_positions(c, header_size());
            &&& index_start(d) == p[7]
            &&& u32_at(d, p[7] + 12) == p[3]
            &&& u32_at(d, p[7] + 24) == p[6]
            &&& list_parse::<CanonicalName>(d, p[3]) == Some((views(c.canonical_names@), p[4]))
            &&& StringTable::parse(d, p[6]) == Some(
                (
                    (string_ends(chars_of(c.strings@)), strings_bytes(chars_of(c.strings@))),
                    p[7],
                ),
            )
            &&& u32_at(d, p[7] + 4) == p[2]
            &&& uint_parse(d, p[2]) is Some
            &&& (uint_parse(d, p[2])->0).0 == c.constants@.len() as u32
        }),
{
    lemma_written_constant_count(h, c);
    lemma_written_file_is_addressable(h, c);
    lemma_written_names_read_back(h, c);
    lemma_written_strings_read_back(h, c);
    lemma_written_index_words(h, c);
}

} // verus!
