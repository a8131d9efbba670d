use std::marker::PhantomData;
use std::rc::Rc;

use vstd::prelude::*;
use vstd::utf8::{decode_utf8, encode_utf8, encode_utf8_decode_utf8, encode_utf8_valid_utf8, valid_utf8};

use crate::codec::{read_bytes, write_bytes, Codec};
use crate::component::{LibraryDependency, SourceInfo};
use crate::expr::Constant;
use crate::error::KernelError;

verus! {

/// Largest value, plus one, that a variable-length integer can hold.
pub const UINT_LIMIT: u32 = 0x4000_0000;

/// A variable-length unsigned integer, stored on the wire in 1, 2 or 4 bytes.
#[derive(Debug, Default, Clone, Copy, PartialEq, Eq, Structural)]
pub struct Uint(pub u32);

/// The wire form of `n`: the shortest of the three widths that holds it.
pub open spec fn uint_bytes(n: u32) -> Seq<u8> {
    if n < 0x80 {
        seq![n as u8]
    } else if n < 0x4000 {
        seq![((n >> 8u32) | 0x80u32) as u8, (n & 0xffu32) as u8]
    } else {
        seq![
            ((n >> 24u32) | 0xc0u32) as u8,
            ((n >> 16u32) & 0xffu32) as u8,
            ((n >> 8u32) & 0xffu32) as u8,
            (n & 0xffu32) as u8,
        ]
    }
}

/// Whether `n` fits in a variable-length integer of `width` bytes.
pub open spec fn uint_fits(n: u32, width: nat) -> bool {
    (width == 1 && n < 0x80) || (width == 2 && n < 0x4000) || (width == 4 && n < 0x4000_0000)
}

/// Reads a variable-length integer at `p`: the value and the position after it.
pub open spec fn uint_parse(d: Seq<u8>, p: int) -> Option<(u32, int)> {
    if p < 0 || p >= d.len() {
        None
    } else if d[p] & 0x80u8 == 0 {
        Some((d[p] as u32, p + 1))
    } else if d[p] & 0x40u8 == 0 {
        if p + 2 > d.len() {
            None
        } else {
            Some(((((d[p] & 0x3fu8) as u32) << 8u32) | d[p + 1] as u32, p + 2))
        }
    } else if p + 4 > d.len() {
        None
    } else {
        Some(
            (
                (((d[p] & 0x3fu8) as u32) << 24u32) | ((d[p + 1] as u32) << 16u32) | ((d[p
                    + 2] as u32) << 8u32) | d[p + 3] as u32,
                p + 4,
            ),
        )
    }
}

/// Reads one byte at `p`.
pub open spec fn u8_parse(d: Seq<u8>, p: int) -> Option<(u8, int)> {
    if 0 <= p < d.len() {
        Some((d[p], p + 1))
    } else {
        None
    }
}

/// The big-endian bytes of a 32-bit integer.
pub open spec fn u32_bytes(n: u32) -> Seq<u8> {
    seq![(n >> 24u32) as u8, ((n >> 16u32) & 0xffu32) as u8, ((n >> 8u32) & 0xffu32) as u8, (n & 0xffu32) as u8]
}

/// The big-endian value of the four bytes at `p`.
pub open spec fn u32_at(d: Seq<u8>, p: int) -> u32 {
    ((d[p] as u32) << 24u32) | ((d[p + 1] as u32) << 16u32) | ((d[p + 2] as u32) << 8u32) | d[p
        + 3] as u32
}

/// Reads a big-endian 32-bit integer at `p`.
pub open spec fn u32_parse(d: Seq<u8>, p: int) -> Option<(u32, int)> {
    if 0 <= p && p + 4 <= d.len() {
        Some((u32_at(d, p), p + 4))
    } else {
        None
    }
}

/// Each value below the limit takes 1, 2 or 4 bytes, the fewest of the three that hold it.
pub proof fn lemma_uint_width(n: u32)
    requires
        n < UINT_LIMIT,
    ensures
        uint_fits(n, uint_bytes(n).len()),
        forall|w: nat| #[trigger] uint_fits(n, w) ==> uint_bytes(n).len() <= w,
{
}

proof fn lemma_uint_bytes_bits(n: u32)
    requires
        n < UINT_LIMIT,
    ensures
        n < 0x80 ==> uint_bytes(n)[0] & 0x80u8 == 0 && uint_bytes(n)[0] as u32 == n,
        0x80 <= n < 0x4000 ==> {
            let b = uint_bytes(n);
            &&& b[0] & 0x80u8 != 0
            &&& b[0] & 0x40u8 == 0
            &&& ((((b[0] & 0x3fu8) as u32) << 8u32) | b[1] as u32) == n
        },
        0x4000 <= n ==> {
            let b = uint_bytes(n);
            &&& b[0] & 0x80u8 != 0
            &&& b[0] & 0x40u8 != 0
            &&& ((((b[0] & 0x3fu8) as u32) << 24u32) | ((b[1] as u32) << 16u32) | ((b[2] as u32)
                << 8u32) | b[3] as u32) == n
        },
{
    if n < 0x80 {
        assert(n < 0x80 ==> (n as u8) & 0x80u8 == 0 && ((n as u8) as u32) == n) by (bit_vector);
    } else if n < 0x4000 {
        assert(0x80 <= n < 0x4000 ==> {
            let b0 = ((n >> 8u32) | 0x80u32) as u8;
            let b1 = (n & 0xffu32) as u8;
            &&& b0 & 0x80u8 != 0
            &&& b0 & 0x40u8 == 0
            &&& ((((b0 & 0x3fu8) as u32) << 8u32) | b1 as u32) == n
        }) by (bit_vector);
    } else {
        assert(0x4000 <= n < 0x4000_0000 ==> {
            let b0 = ((n >> 24u32) | 0xc0u32) as u8;
            let b1 = ((n >> 16u32) & 0xffu32) as u8;
            let b2 = ((n >> 8u32) & 0xffu32) as u8;
            let b3 = (n & 0xffu32) as u8;
            &&& b0 & 0x80u8 != 0
            &&& b0 & 0x40u8 != 0
            &&& ((((b0 & 0x3fu8) as u32) << 24u32) | ((b1 as u32) << 16u32) | ((b2 as u32) << 8u32)
                | b3 as u32) == n
        }) by (bit_vector);
    }
}

/// Reading back the wire form of a variable-length integer, wherever it stands
/// and whatever follows it, gives the value and the position just after it.
pub proof fn lemma_uint_round_trip(n: u32, pre: Seq<u8>, rest: Seq<u8>)
    requires
        n < UINT_LIMIT,
    ensures
        uint_parse(pre + uint_bytes(n) + rest, pre.len() as int) == Some(
            (n, pre.len() + uint_bytes(n).len() as int),
        ),
{
    lemma_uint_bytes_bits(n);
    let d = pre + uint_bytes(n) + rest;
    let p = pre.len() as int;
    assert forall|i: int| 0 <= i < uint_bytes(n).len() implies d[p + i] == uint_bytes(n)[i] by {}
}

/// The big-endian bytes of a 32-bit integer read back as that integer.
pub proof fn lemma_u32_round_trip(n: u32, pre: Seq<u8>, rest: Seq<u8>)
    ensures
        u32_parse(pre + u32_bytes(n) + rest, pre.len() as int) == Some((n, pre.len() + 4int)),
{
    let d = pre + u32_bytes(n) + rest;
    let p = pre.len() as int;
    assert(d[p] == u32_bytes(n)[0] && d[p + 1] == u32_bytes(n)[1] && d[p + 2] == u32_bytes(n)[2]
        && d[p + 3] == u32_bytes(n)[3]);
    let (b0, b1, b2, b3) = (
        (n >> 24u32) as u8,
        ((n >> 16u32) & 0xffu32) as u8,
        ((n >> 8u32) & 0xffu32) as u8,
        (n & 0xffu32) as u8,
    );
    assert(((((n >> 24u32) as u8) as u32) << 24u32) | (((((n >> 16u32) & 0xffu32) as u8) as u32)
        << 16u32) | (((((n >> 8u32) & 0xffu32) as u8) as u32) << 8u32) | (((n & 0xffu32) as u8)
        as u32) == n) by (bit_vector);
}

/// Reads the byte at `*pos` and moves past it.
pub fn read_u8(data: &[u8], pos: &mut usize) -> (r: Result<u8, KernelError>)
    ensures
        match r {
            Ok(b) => u8_parse(data@, *old(pos) as int) == Some((b, *final(pos) as int)),
            Err(e) => u8_parse(data@, *old(pos) as int) is None && e == KernelError::ShortRead,
        },
{
    if *pos < data.len() {
        let b = data[*pos];
        *pos = *pos + 1;
        Ok(b)
    } else {
        Err(KernelError::ShortRead)
    }
}

/// Reads the big-endian 32-bit integer at `*pos` and moves past it.
pub fn read_u32(data: &[u8], pos: &mut usize) -> (r: Result<u32, KernelError>)
    ensures
        match r {
            Ok(n) => u32_parse(data@, *old(pos) as int) == Some((n, *final(pos) as int)),
            Err(e) => u32_parse(data@, *old(pos) as int) is None && e == KernelError::ShortRead,
        },
{
    let p = *pos;
    if p <= data.len() && data.len() - p >= 4 {
        let n = ((data[p] as u32) << 24u32) | ((data[p + 1] as u32) << 16u32) | ((data[p + 2] as u32)
            << 8u32) | data[p + 3] as u32;
        *pos = p + 4;
        Ok(n)
    } else {
        Err(KernelError::ShortRead)
    }
}

/// Appends the big-endian bytes of `n`.
pub fn write_u32(n: u32, out: &mut Vec<u8>)
    ensures
        final(out)@ == old(out)@ + u32_bytes(n),
{
    out.push((n >> 24u32) as u8);
    out.push(((n >> 16u32) & 0xffu32) as u8);
    out.push(((n >> 8u32) & 0xffu32) as u8);
    out.push((n & 0xffu32) as u8);
    assert(out@ =~= old(out)@ + u32_bytes(n));
}

impl Uint {
    /// Reads a variable-length integer at `*pos` and moves past it.
    pub fn decode(data: &[u8], pos: &mut usize) -> (r: Result<Uint, KernelError>)
        ensures
            match r {
                Ok(v) => uint_parse(data@, *old(pos) as int) == Some((v.0, *final(pos) as int)),
                Err(e) => uint_parse(data@, *old(pos) as int) is None && e == KernelError::ShortRead,
            },
    {
        let b1 = read_u8(data, pos)?;
        if b1 & 0x80u8 == 0 {
            Ok(Uint(b1 as u32))
        } else if b1 & 0x40u8 == 0 {
            let b2 = read_u8(data, pos)?;
            Ok(Uint((((b1 & 0x3fu8) as u32) << 8u32) | b2 as u32))
        } else {
            let b2 = read_u8(data, pos)?;
            let b3 = read_u8(data, pos)?;
            let b4 = read_u8(data, pos)?;
            Ok(
                Uint(
                    (((b1 & 0x3fu8) as u32) << 24u32) | ((b2 as u32) << 16u32) | ((b3 as u32)
                        << 8u32) | b4 as u32,
                ),
            )
        }
    }

    /// Appends the wire form of this integer; values of 2^30 and above are refused.
    pub fn encode(&self, out: &mut Vec<u8>) -> (r: Result<(), KernelError>)
        ensures
            r is Ok <==> self.0 < UINT_LIMIT,
            r is Ok ==> final(out)@ == old(out)@ + uint_bytes(self.0),
            r is Err ==> final(out)@ == old(out)@ && r == Err::<(), _>(KernelError::InvalidVarUint),
    {
        let n = self.0;
        if n < 0x80 {
            out.push(n as u8);
        } else if n < 0x4000 {
            out.push(((n >> 8u32) | 0x80u32) as u8);
            out.push((n & 0xffu32) as u8);
        } else if n < UINT_LIMIT {
            out.push(((n >> 24u32) | 0xc0u32) as u8);
            out.push(((n >> 16u32) & 0xffu32) as u8);
            out.push(((n >> 8u32) & 0xffu32) as u8);
            out.push((n & 0xffu32) as u8);
        } else {
            return Err(KernelError::InvalidVarUint);
        }
        assert(out@ =~= old(out)@ + uint_bytes(n));
        Ok(())
    }
}

impl DeepView for Uint {
    type V = Uint;

    open spec fn deep_view(&self) -> Uint {
        *self
    }
}

impl From<u32> for Uint {
    fn from(n: u32) -> (r: Uint)
        ensures
            r.0 == n,
    {
        Uint(n)
    }
}

impl vstd::std_specs::convert::FromSpecImpl<u32> for Uint {
    open spec fn obeys_from_spec() -> bool {
        true
    }

    open spec fn from_spec(n: u32) -> Uint {
        Uint(n)
    }
}

/// A reference by index into one of the component's tables; `A` names the table.
#[derive(Debug)]
pub struct ComponentRef<A> {
    pub index: Uint,
    pub phantom: PhantomData<A>,
}

impl<A> ComponentRef<A> {
    /// The reference with wire value 0; for canonical names it stands for "none".
    pub fn undefined() -> (r: Self)
        ensures
            r.index == Uint(0),
    {
        ComponentRef { index: Uint(0), phantom: PhantomData }
    }

    pub fn new(index: Uint) -> (r: Self)
        ensures
            r.index == index,
    {
        ComponentRef { index, phantom: PhantomData }
    }

    /// The wire value of this reference.
    pub fn value(&self) -> (r: u32)
        ensures
            r == self.index.0,
    {
        self.index.0
    }
}

impl<A> Clone for ComponentRef<A> {
    fn clone(&self) -> (r: Self)
        ensures
            r == *self,
    {
        ComponentRef { index: self.index, phantom: PhantomData }
    }
}

impl<A> Copy for ComponentRef<A> {

}

impl<A> PartialEq for ComponentRef<A> {
    fn eq(&self, other: &Self) -> (r: bool) {
        self.index.0 == other.index.0
    }
}

impl<A> vstd::std_specs::cmp::PartialEqSpecImpl for ComponentRef<A> {
    open spec fn obeys_eq_spec() -> bool {
        true
    }

    open spec fn eq_spec(&self, other: &Self) -> bool {
        self.index == other.index
    }
}

impl<A> Eq for ComponentRef<A> {

}

impl<A> Default for ComponentRef<A> {
    fn default() -> (r: Self)
        ensures
            r.index == Uint(0),
    {
        ComponentRef::undefined()
    }
}

impl<A> From<ComponentRef<A>> for u32 {
    fn from(r: ComponentRef<A>) -> (n: u32)
        ensures
            n == r.index.0,
    {
        r.index.0
    }
}

impl<A> vstd::std_specs::convert::FromSpecImpl<ComponentRef<A>> for u32 {
    open spec fn obeys_from_spec() -> bool {
        true
    }

    open spec fn from_spec(r: ComponentRef<A>) -> u32 {
        r.index.0
    }
}

impl<A> DeepView for ComponentRef<A> {
    type V = ComponentRef<A>;

    open spec fn deep_view(&self) -> ComponentRef<A> {
        *self
    }
}

impl<A> Codec for ComponentRef<A> {
    open spec fn encodable(&self) -> bool {
        self.index.0 < UINT_LIMIT
    }

    open spec fn wire(&self) -> Seq<u8> {
        uint_bytes(self.index.0)
    }

    open spec fn parse(d: Seq<u8>, p: int) -> Option<(ComponentRef<A>, int)> {
        match uint_parse(d, p) {
            Some((n, q)) => Some((ComponentRef { index: Uint(n), phantom: PhantomData }, q)),
            None => None,
        }
    }

    proof fn lemma_round_trip(&self, pre: Seq<u8>, rest: Seq<u8>) {
        lemma_uint_round_trip(self.index.0, pre, rest);
    }

    fn encode(&self, out: &mut Vec<u8>) -> (r: Result<(), KernelError>) {
        self.index.encode(out)
    }

    fn decode(data: &[u8], pos: &mut usize) -> (r: Result<ComponentRef<A>, KernelError>) {
        let index = Uint::decode(data, pos)?;
        Ok(ComponentRef { index, phantom: PhantomData })
    }
}

pub type StringRef = ComponentRef<String>;

/// Marks references into the canonical-name table.
#[derive(Debug, Clone, Copy)]
pub struct NameTable;

/// A reference to a canonical name, shifted by one: 0 is "none", 1 is the first entry.
pub type CanonicalNameRef = ComponentRef<NameTable>;

pub type UriRef = ComponentRef<SourceInfo>;

pub type ConstantRef = ComponentRef<Constant>;

pub type DependencyRef = ComponentRef<LibraryDependency>;

/// A position in a function's local-variable scope.
pub type VarRef = Uint;

/// A byte offset into a source file.
#[derive(Debug, Default, Clone, Copy, PartialEq, Eq, Structural)]
pub struct FileOffset(pub Uint);

impl DeepView for FileOffset {
    type V = FileOffset;

    open spec fn deep_view(&self) -> FileOffset {
        *self
    }
}

impl Codec for FileOffset {
    open spec fn encodable(&self) -> bool {
        self.0.0 < UINT_LIMIT
    }

    open spec fn wire(&self) -> Seq<u8> {
        uint_bytes(self.0.0)
    }

    open spec fn parse(d: Seq<u8>, p: int) -> Option<(FileOffset, int)> {
        match uint_parse(d, p) {
            Some((n, q)) => Some((FileOffset(Uint(n)), q)),
            None => None,
        }
    }

    proof fn lemma_round_trip(&self, pre: Seq<u8>, rest: Seq<u8>) {
        lemma_uint_round_trip(self.0.0, pre, rest);
    }

    fn encode(&self, out: &mut Vec<u8>) -> (r: Result<(), KernelError>) {
        self.0.encode(out)
    }

    fn decode(data: &[u8], pos: &mut usize) -> (r: Result<FileOffset, KernelError>) {
        let n = Uint::decode(data, pos)?;
        Ok(FileOffset(n))
    }
}

/// A range of byte offsets into a source file.
#[derive(Debug, Default, Clone, Copy, PartialEq, Eq, Structural)]
pub struct FileRange {
    pub start: FileOffset,
    pub end: FileOffset,
}

impl DeepView for FileRange {
    type V = FileRange;

    open spec fn deep_view(&self) -> FileRange {
        *self
    }
}

impl Codec for FileRange {
    open spec fn encodable(&self) -> bool {
        self.start.encodable() && self.end.encodable()
    }

    open spec fn wire(&self) -> Seq<u8> {
        self.start.wire() + self.end.wire()
    }

    open spec fn parse(d: Seq<u8>, p: int) -> Option<(FileRange, int)> {
        match FileOffset::parse(d, p) {
            Some((start, q)) => match FileOffset::parse(d, q) {
                Some((end, r)) => Some((FileRange { start, end }, r)),
                None => None,
            },
            None => None,
        }
    }

    proof fn lemma_round_trip(&self, pre: Seq<u8>, rest: Seq<u8>) {
        let d = pre + self.wire() + rest;
        assert(d =~= pre + self.start.wire() + (self.end.wire() + rest));
        self.start.lemma_round_trip(pre, self.end.wire() + rest);
        assert(d =~= (pre + self.start.wire()) + self.end.wire() + rest);
        self.end.lemma_round_trip(pre + self.start.wire(), rest);
    }

    fn encode(&self, out: &mut Vec<u8>) -> (r: Result<(), KernelError>) {
        self.start.encode(out)?;
        self.end.encode(out)?;
        assert(out@ =~= old(out)@ + self.wire());
        Ok(())
    }

    fn decode(data: &[u8], pos: &mut usize) -> (r: Result<FileRange, KernelError>) {
        let start = FileOffset::decode(data, pos)?;
        let end = FileOffset::decode(data, pos)?;
        Ok(FileRange { start, end })
    }
}

/// An entry of the canonical-name table: a name under a parent entry.
#[derive(Debug, Clone, Copy)]
pub struct CanonicalName {
    pub parent: CanonicalNameRef,
    pub name: StringRef,
}

impl PartialEq for CanonicalName {
    fn eq(&self, other: &Self) -> (r: bool) {
        self.parent.index.0 == other.parent.index.0 && self.name.index.0 == other.name.index.0
    }
}

impl vstd::std_specs::cmp::PartialEqSpecImpl for CanonicalName {
    open spec fn obeys_eq_spec() -> bool {
        true
    }

    open spec fn eq_spec(&self, other: &Self) -> bool {
        self.parent == other.parent && self.name == other.name
    }
}

impl Eq for CanonicalName {

}

impl Default for CanonicalName {
    fn default() -> (r: Self)
        ensures
            r.parent.index == Uint(0) && r.name.index == Uint(0),
    {
        CanonicalName { parent: ComponentRef::undefined(), name: ComponentRef::undefined() }
    }
}

impl DeepView for CanonicalName {
    type V = CanonicalName;

    open spec fn deep_view(&self) -> CanonicalName {
        *self
    }
}

impl Codec for CanonicalName {
    open spec fn encodable(&self) -> bool {
        self.parent.encodable() && self.name.encodable()
    }

    open spec fn wire(&self) -> Seq<u8> {
        self.parent.wire() + self.name.wire()
    }

    open spec fn parse(d: Seq<u8>, p: int) -> Option<(CanonicalName, int)> {
        match CanonicalNameRef::parse(d, p) {
            Some((parent, q)) => match StringRef::parse(d, q) {
                Some((name, r)) => Some((CanonicalName { parent, name }, r)),
                None => None,
            },
            None => None,
        }
    }

    proof fn lemma_round_trip(&self, pre: Seq<u8>, rest: Seq<u8>) {
        let d = pre + self.wire() + rest;
        assert(d =~= pre + self.parent.wire() + (self.name.wire() + rest));
        self.parent.lemma_round_trip(pre, self.name.wire() + rest);
        assert(d =~= (pre + self.parent.wire()) + self.name.wire() + rest);
        self.name.lemma_round_trip(pre + self.parent.wire(), rest);
    }

    fn encode(&self, out: &mut Vec<u8>) -> (r: Result<(), KernelError>) {
        self.parent.encode(out)?;
        self.name.encode(out)?;
        assert(out@ =~= old(out)@ + self.wire());
        Ok(())
    }

    fn decode(data: &[u8], pos: &mut usize) -> (r: Result<CanonicalName, KernelError>) {
        let parent = CanonicalNameRef::decode(data, pos)?;
        let name = StringRef::decode(data, pos)?;
        Ok(CanonicalName { parent, name })
    }
}

/// A string that is either borrowed for `'a` or shared behind a reference count.
#[derive(Debug, Clone)]
pub enum CowRcStr<'a> {
    Borrowed(&'a str),
    Shared(Rc<String>),
}

pub type StrRef = CowRcStr<'static>;

impl<'a> PartialEq for CowRcStr<'a> {
    /// Strings are equal when they hold the same characters, however they are held.
    fn eq(&self, other: &Self) -> (r: bool) {
        crate::builder::str_eq(self.as_str(), other.as_str())
    }
}

impl<'a> vstd::std_specs::cmp::PartialEqSpecImpl for CowRcStr<'a> {
    open spec fn obeys_eq_spec() -> bool {
        true
    }

    open spec fn eq_spec(&self, other: &Self) -> bool {
        self@ == other@
    }
}

impl<'a> Eq for CowRcStr<'a> {

}

impl<'a> View for CowRcStr<'a> {
    type V = Seq<char>;

    open spec fn view(&self) -> Seq<char> {
        match self {
            CowRcStr::Borrowed(s) => s@,
            CowRcStr::Shared(rc) => (**rc)@,
        }
    }
}

impl<'a> CowRcStr<'a> {
    pub fn as_str(&'a self) -> (r: &'a str)
        ensures
            r@ == self@,
    {
        match self {
            CowRcStr::Borrowed(s) => s,
            CowRcStr::Shared(rc) => rc.as_str(),
        }
    }

    /// A copy of the same characters that shares them, whatever `'b` is.
    pub fn to_owned<'b>(&'a self) -> (r: CowRcStr<'b>)
        ensures
            r@ == self@,
            r is Shared,
    {
        match self {
            CowRcStr::Borrowed(s) => CowRcStr::Shared(Rc::new(str::to_owned(*s))),
            CowRcStr::Shared(rc) => CowRcStr::Shared(Rc::new(str::to_owned(rc.as_str()))),
        }
    }
}

/// Relies on `String::from_utf8`: it succeeds exactly on valid UTF-8, and the
/// string then holds the characters those bytes encode.
#[verifier::external_body]
pub(crate) fn string_from_utf8(bytes: Vec<u8>) -> (r: Option<String>)
    ensures
        r is Some <==> valid_utf8(bytes@),
        r matches Some(s) ==> s@ == decode_utf8(bytes@),
{
    String::from_utf8(bytes).ok()
}

/// UTF-8 text on the wire: its byte length, then its bytes.
#[derive(Debug, Default, Clone, PartialEq, Eq)]
pub struct Utf8(pub String);

impl DeepView for Utf8 {
    type V = Seq<char>;

    open spec fn deep_view(&self) -> Seq<char> {
        self.0@
    }
}

impl Utf8 {
    /// Reads text: its byte count, then that many bytes, which must be UTF-8.
    /// Missing bytes are a short read; bytes that are not UTF-8 are invalid text.
    pub fn decode(data: &[u8], pos: &mut usize) -> (r: Result<Utf8, KernelError>)
        ensures
            match r {
                Ok(v) => Utf8::parse(data@, *old(pos) as int) == Some(
                    (v.deep_view(), *final(pos) as int),
                ),
                Err(e) => Utf8::parse(data@, *old(pos) as int) is None && (match uint_parse(
                    data@,
                    *old(pos) as int,
                ) {
                    Some((n, q)) => if q + n > data@.len() {
                        e == KernelError::ShortRead
                    } else {
                        e == KernelError::InvalidUtf8
                    },
                    None => e == KernelError::ShortRead,
                }),
            },
            r is Ok ==> *old(pos) < *final(pos) <= data@.len(),
    {
        let n = Uint::decode(data, pos)?;
        let bytes = read_bytes(data, pos, n.0 as usize)?;
        match string_from_utf8(bytes) {
            Some(s) => Ok(Utf8(s)),
            None => Err(KernelError::InvalidUtf8),
        }
    }
}

impl Codec for Utf8 {
    open spec fn encodable(&self) -> bool {
        encode_utf8(self.0@).len() < UINT_LIMIT
    }

    open spec fn wire(&self) -> Seq<u8> {
        uint_bytes(encode_utf8(self.0@).len() as u32) + encode_utf8(self.0@)
    }

    open spec fn parse(d: Seq<u8>, p: int) -> Option<(Seq<char>, int)> {
        match uint_parse(d, p) {
            Some((n, q)) => if q + n <= d.len() && valid_utf8(d.subrange(q, q + n)) {
                Some((decode_utf8(d.subrange(q, q + n)), q + n))
            } else {
                None
            },
            None => None,
        }
    }

    proof fn lemma_round_trip(&self, pre: Seq<u8>, rest: Seq<u8>) {
        let b = encode_utf8(self.0@);
        let d = pre + self.wire() + rest;
        assert(d =~= pre + uint_bytes(b.len() as u32) + (b + rest));
        lemma_uint_round_trip(b.len() as u32, pre, b + rest);
        let q = pre.len() + uint_bytes(b.len() as u32).len() as int;
        assert(d.subrange(q, q + b.len() as int) =~= b);
        encode_utf8_valid_utf8(self.0@);
        encode_utf8_decode_utf8(self.0@);
    }

    fn encode(&self, out: &mut Vec<u8>) -> (r: Result<(), KernelError>) {
        let bytes = self.0.as_str().as_bytes();
        if bytes.len() >= UINT_LIMIT as usize {
            return Err(KernelError::InvalidVarUint);
        }
        Uint(bytes.len() as u32).encode(out)?;
        write_bytes(bytes, out);
        assert(out@ =~= old(out)@ + self.wire());
        Ok(())
    }

    fn decode(data: &[u8], pos: &mut usize) -> (r: Result<Utf8, KernelError>) {
        Utf8::decode(data, pos)
    }
}

} // verus!
