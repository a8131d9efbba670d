//! The codec interface shared by every wire type, and the container codecs
//! built on it: length-prefixed lists, optional values and raw byte runs.
use vstd::prelude::*;

use crate::error::KernelError;
use crate::prim::{
    lemma_u32_round_trip, lemma_uint_round_trip, read_u32, read_u8, u32_bytes, u32_parse, u8_parse,
    uint_bytes, uint_parse, write_u32, Uint, UINT_LIMIT,
};

verus! {

/// A type with a wire form.
///
/// `wire` is the byte sequence that `encode` appends, defined for values that
/// are `encodable`; `parse` is what `decode` reads at a position, given as the
/// value's deep view (structural content, with lists as sequences and text as
/// characters).
pub trait Codec: Sized + DeepView {
    /// The value can be written: every variable-length integer in it is below 2^30.
    spec fn encodable(&self) -> bool;

    /// The bytes that encode this value.
    spec fn wire(&self) -> Seq<u8>;

    /// The value that starts at `p` in `d`, and the position after it.
    spec fn parse(d: Seq<u8>, p: int) -> Option<(Self::V, int)>;

    /// Reading back the wire form, wherever it stands and whatever follows it,
    /// gives the value and the position just after it.
    proof fn lemma_round_trip(&self, pre: Seq<u8>, rest: Seq<u8>)
        requires
            self.encodable(),
        ensures
            Self::parse(pre + self.wire() + rest, pre.len() as int) == Some(
                (self.deep_view(), pre.len() + self.wire().len() as int),
            ),
    ;

    fn encode(&self, out: &mut Vec<u8>) -> (r: Result<(), KernelError>)
        ensures
            r is Ok <==> self.encodable(),
            r is Ok ==> final(out)@ == old(out)@ + self.wire(),
    ;

    fn decode(data: &[u8], pos: &mut usize) -> (r: Result<Self, KernelError>)
        ensures
            match r {
                Ok(v) => Self::parse(data@, *old(pos) as int) == Some(
                    (v.deep_view(), *final(pos) as int),
                ),
                Err(_) => Self::parse(data@, *old(pos) as int) is None,
            },
            r is Ok ==> *old(pos) < *final(pos) <= data@.len(),
    ;
}

impl Codec for u8 {
    open spec fn encodable(&self) -> bool {
        true
    }

    open spec fn wire(&self) -> Seq<u8> {
        seq![*self]
    }

    open spec fn parse(d: Seq<u8>, p: int) -> Option<(u8, int)> {
        u8_parse(d, p)
    }

    proof fn lemma_round_trip(&self, pre: Seq<u8>, rest: Seq<u8>) {
        assert((pre + self.wire() + rest)[pre.len() as int] == *self);
    }

    fn encode(&self, out: &mut Vec<u8>) -> (r: Result<(), KernelError>) {
        out.push(*self);
        assert(out@ =~= old(out)@ + self.wire());
        Ok(())
    }

    fn decode(data: &[u8], pos: &mut usize) -> (r: Result<u8, KernelError>) {
        read_u8(data, pos)
    }
}

impl Codec for u32 {
    open spec fn encodable(&self) -> bool {
        true
    }

    open spec fn wire(&self) -> Seq<u8> {
        u32_bytes(*self)
    }

    open spec fn parse(d: Seq<u8>, p: int) -> Option<(u32, int)> {
        u32_parse(d, p)
    }

    proof fn lemma_round_trip(&self, pre: Seq<u8>, rest: Seq<u8>) {
        lemma_u32_round_trip(*self, pre, rest);
    }

    fn encode(&self, out: &mut Vec<u8>) -> (r: Result<(), KernelError>) {
        write_u32(*self, out);
        Ok(())
    }

    fn decode(data: &[u8], pos: &mut usize) -> (r: Result<u32, KernelError>) {
        read_u32(data, pos)
    }
}

impl Codec for u64 {
    open spec fn encodable(&self) -> bool {
        true
    }

    open spec fn wire(&self) -> Seq<u8> {
        u32_bytes((*self >> 32u64) as u32) + u32_bytes((*self & 0xffff_ffffu64) as u32)
    }

    open spec fn parse(d: Seq<u8>, p: int) -> Option<(u64, int)> {
        match u32_parse(d, p) {
            Some((hi, q)) => match u32_parse(d, q) {
                Some((lo, r)) => Some((((hi as u64) << 32u64) | lo as u64, r)),
                None => None,
            },
            None => None,
        }
    }

    proof fn lemma_round_trip(&self, pre: Seq<u8>, rest: Seq<u8>) {
        let x = *self;
        let hi = (x >> 32u64) as u32;
        let lo = (x & 0xffff_ffffu64) as u32;
        let d = pre + self.wire() + rest;
        assert(d =~= pre + u32_bytes(hi) + (u32_bytes(lo) + rest));
        lemma_u32_round_trip(hi, pre, u32_bytes(lo) + rest);
        assert(d =~= (pre + u32_bytes(hi)) + u32_bytes(lo) + rest);
        lemma_u32_round_trip(lo, pre + u32_bytes(hi), rest);
        assert((((x >> 32u64) as u32) as u64) << 32u64 | (((x & 0xffff_ffffu64) as u32) as u64)
            == x) by (bit_vector);
    }

    fn encode(&self, out: &mut Vec<u8>) -> (r: Result<(), KernelError>) {
        write_u32((*self >> 32u64) as u32, out);
        write_u32((*self & 0xffff_ffffu64) as u32, out);
        Ok(())
    }

    fn decode(data: &[u8], pos: &mut usize) -> (r: Result<u64, KernelError>) {
        let hi = read_u32(data, pos)?;
        let lo = read_u32(data, pos)?;
        Ok(((hi as u64) << 32u64) | lo as u64)
    }
}

impl Codec for Uint {
    open spec fn encodable(&self) -> bool {
        self.0 < UINT_LIMIT
    }

    open spec fn wire(&self) -> Seq<u8> {
        uint_bytes(self.0)
    }

    open spec fn parse(d: Seq<u8>, p: int) -> Option<(Uint, int)> {
        match uint_parse(d, p) {
            Some((n, q)) => Some((Uint(n), q)),
            None => None,
        }
    }

    proof fn lemma_round_trip(&self, pre: Seq<u8>, rest: Seq<u8>) {
        lemma_uint_round_trip(self.0, pre, rest);
    }

    fn encode(&self, out: &mut Vec<u8>) -> (r: Result<(), KernelError>) {
        Uint::encode(self, out)
    }

    fn decode(data: &[u8], pos: &mut usize) -> (r: Result<Uint, KernelError>) {
        Uint::decode(data, pos)
    }
}

/// The wire forms of `s`, one after another.
pub open spec fn items_wire<T: Codec>(s: Seq<T>) -> Seq<u8>
    decreases s.len(),
{
    if s.len() == 0 {
        Seq::empty()
    } else {
        items_wire(s.drop_last()) + s.last().wire()
    }
}

/// The deep views of the values of `s`, in order.
pub open spec fn views<T: DeepView>(s: Seq<T>) -> Seq<T::V> {
    Seq::new(s.len(), |i: int| s[i].deep_view())
}

/// `n` values read one after another from `p`.
pub open spec fn items_parse<T: Codec>(d: Seq<u8>, p: int, n: nat) -> Option<(Seq<T::V>, int)>
    decreases n,
{
    if n == 0 {
        Some((Seq::empty(), p))
    } else {
        match items_parse::<T>(d, p, (n - 1) as nat) {
            Some((vs, q)) => match T::parse(d, q) {
                Some((v, r)) => Some((vs.push(v), r)),
                None => None,
            },
            None => None,
        }
    }
}

/// Every value of `s` can be written.
pub open spec fn all_encodable<T: Codec>(s: Seq<T>) -> bool {
    forall|i: int| 0 <= i < s.len() ==> (#[trigger] s[i]).encodable()
}

/// A list can be written: its count fits a variable-length integer and each item can be written.
pub open spec fn list_encodable<T: Codec>(s: Seq<T>) -> bool {
    s.len() < UINT_LIMIT && all_encodable(s)
}

/// The wire form of a list: its count, then each item.
pub open spec fn list_wire<T: Codec>(s: Seq<T>) -> Seq<u8> {
    uint_bytes(s.len() as u32) + items_wire(s)
}

/// A list read at `p`: a count, then that many items.
pub open spec fn list_parse<T: Codec>(d: Seq<u8>, p: int) -> Option<(Seq<T::V>, int)> {
    match uint_parse(d, p) {
        Some((n, q)) => items_parse::<T>(d, q, n as nat),
        None => None,
    }
}

pub proof fn lemma_items_round_trip<T: Codec>(s: Seq<T>, pre: Seq<u8>, rest: Seq<u8>)
    requires
        all_encodable(s),
    ensures
        items_parse::<T>(pre + items_wire(s) + rest, pre.len() as int, s.len()) == Some(
            (views(s), pre.len() + items_wire(s).len() as int),
        ),
    decreases s.len(),
{
    if s.len() > 0 {
        let init = s.drop_last();
        let last = s.last();
        assert(all_encodable(init)) by {
            assert forall|i: int| 0 <= i < init.len() implies (#[trigger] init[i]).encodable() by {
                assert(init[i] == s[i]);
            }
        }
        assert(s[s.len() - 1] == last);
        let tail = last.wire() + rest;
        assert(pre + items_wire(s) + rest =~= pre + items_wire(init) + tail);
        lemma_items_round_trip(init, pre, tail);
        let q = pre.len() + items_wire(init).len();
        assert(pre + items_wire(s) + rest =~= (pre + items_wire(init)) + last.wire() + rest);
        last.lemma_round_trip(pre + items_wire(init), rest);
        assert(views(init).push(last.deep_view()) =~= views(s));
    }
}

/// A list read back from its wire form gives the same items.
pub proof fn lemma_list_round_trip<T: Codec>(s: Seq<T>, pre: Seq<u8>, rest: Seq<u8>)
    requires
        list_encodable(s),
    ensures
        list_parse::<T>(pre + list_wire(s) + rest, pre.len() as int) == Some(
            (views(s), pre.len() + list_wire(s).len() as int),
        ),
{
    let n = s.len() as u32;
    assert(pre + list_wire(s) + rest =~= pre + uint_bytes(n) + (items_wire(s) + rest));
    lemma_uint_round_trip(n, pre, items_wire(s) + rest);
    assert(pre + list_wire(s) + rest =~= (pre + uint_bytes(n)) + items_wire(s) + rest);
    lemma_items_round_trip(s, pre + uint_bytes(n), rest);
}

/// Appends the wire form of each item in turn.
pub fn encode_items<T: Codec>(items: &Vec<T>, out: &mut Vec<u8>) -> (r: Result<(), KernelError>)
    ensures
        r is Ok <==> all_encodable(items@),
        r is Ok ==> final(out)@ == old(out)@ + items_wire(items@),
{
    let mut i: usize = 0;
    while i < items.len()
        invariant
            i <= items.len(),
            all_encodable(items@.subrange(0, i as int)),
            out@ == old(out)@ + items_wire(items@.subrange(0, i as int)),
        decreases items.len() - i,
    {
        let ghost before = out@;
        let res = items[i].encode(out);
        if res.is_err() {
            assert(!all_encodable(items@)) by {
                assert(!items@[i as int].encodable());
            }
            return res;
        }
        proof {
            let s = items@.subrange(0, i + 1);
            assert(s.drop_last() =~= items@.subrange(0, i as int));
            assert(out@ =~= old(out)@ + items_wire(s));
            assert forall|k: int| 0 <= k < s.len() implies (#[trigger] s[k]).encodable() by {
                if k < i {
                    assert(s[k] == items@.subrange(0, i as int)[k]);
                }
            }
        }
        i = i + 1;
    }
    assert(items@.subrange(0, i as int) =~= items@);
    Ok(())
}

/// Reads `n` items one after another.
pub fn decode_items<T: Codec>(data: &[u8], pos: &mut usize, n: u32) -> (r: Result<Vec<T>, KernelError>)
    ensures
        match r {
            Ok(v) => items_parse::<T>(data@, *old(pos) as int, n as nat) == Some(
                (v.deep_view(), *final(pos) as int),
            ),
            Err(_) => items_parse::<T>(data@, *old(pos) as int, n as nat) is None,
        },
        r is Ok ==> *old(pos) <= *final(pos),
        r is Ok && *old(pos) <= data@.len() ==> *final(pos) <= data@.len(),
{
    let mut items: Vec<T> = Vec::new();
    let mut i: u32 = 0;
    while i < n
        invariant
            i <= n,
            *old(pos) <= *pos,
            *old(pos) <= data@.len() ==> *pos <= data@.len(),
            items_parse::<T>(data@, *old(pos) as int, i as nat) == Some(
                (items.deep_view(), *pos as int),
            ),
        decreases n - i,
    {
        let item = T::decode(data, pos);
        match item {
            Ok(v) => {
                let ghost before = items.deep_view();
                items.push(v);
                assert(items.deep_view() =~= before.push(v.deep_view()));
            },
            Err(e) => {
                proof {
                    assert(items_parse::<T>(data@, *old(pos) as int, (i + 1) as nat) is None);
                    lemma_items_parse_none_extends::<T>(
                        data@,
                        *old(pos) as int,
                        (i + 1) as nat,
                        n as nat,
                    );
                }
                return Err(e);
            },
        }
        i = i + 1;
    }
    Ok(items)
}

proof fn lemma_items_parse_none_extends<T: Codec>(d: Seq<u8>, p: int, m: nat, n: nat)
    requires
        m <= n,
        items_parse::<T>(d, p, m) is None,
    ensures
        items_parse::<T>(d, p, n) is None,
    decreases n - m,
{
    if m < n {
        lemma_items_parse_none_extends::<T>(d, p, (m + 1) as nat, n);
    }
}

/// Appends a list: its count, then each item.
pub fn encode_list<T: Codec>(items: &Vec<T>, out: &mut Vec<u8>) -> (r: Result<(), KernelError>)
    ensures
        r is Ok <==> list_encodable(items@),
        r is Ok ==> final(out)@ == old(out)@ + list_wire(items@),
{
    if items.len() >= UINT_LIMIT as usize {
        return Err(KernelError::InvalidVarUint);
    }
    let n = Uint(items.len() as u32);
    n.encode(out)?;
    let ghost mid = out@;
    encode_items(items, out)?;
    assert(out@ =~= old(out)@ + list_wire(items@));
    Ok(())
}

/// Reads a list: a count, then that many items.
pub fn decode_list<T: Codec>(data: &[u8], pos: &mut usize) -> (r: Result<Vec<T>, KernelError>)
    ensures
        match r {
            Ok(v) => list_parse::<T>(data@, *old(pos) as int) == Some(
                (v.deep_view(), *final(pos) as int),
            ),
            Err(_) => list_parse::<T>(data@, *old(pos) as int) is None,
        },
        r is Ok ==> *old(pos) < *final(pos) <= data@.len(),
{
    let n = Uint::decode(data, pos)?;
    decode_items(data, pos, n.0)
}

/// The wire form of an optional value: 0 for none, 1 and the value for some.
pub open spec fn option_wire<T: Codec>(o: Option<T>) -> Seq<u8> {
    match o {
        Some(v) => seq![1u8] + v.wire(),
        None => seq![0u8],
    }
}

/// An optional value read at `p`.
pub open spec fn option_parse<T: Codec>(d: Seq<u8>, p: int) -> Option<(Option<T::V>, int)> {
    match u8_parse(d, p) {
        Some((0, q)) => Some((None, q)),
        Some((1, q)) => match T::parse(d, q) {
            Some((v, r)) => Some((Some(v), r)),
            None => None,
        },
        _ => None,
    }
}

pub open spec fn option_encodable<T: Codec>(o: Option<T>) -> bool {
    match o {
        Some(v) => v.encodable(),
        None => true,
    }
}

/// An optional value read back from its wire form is the same value.
pub proof fn lemma_option_round_trip<T: Codec>(o: Option<T>, pre: Seq<u8>, rest: Seq<u8>)
    requires
        option_encodable(o),
    ensures
        option_parse::<T>(pre + option_wire(o) + rest, pre.len() as int) == Some(
            (o.deep_view(), pre.len() + option_wire(o).len() as int),
        ),
{
    let d = pre + option_wire(o) + rest;
    assert(d[pre.len() as int] == option_wire(o)[0]);
    if let Some(v) = o {
        assert(d =~= (pre + seq![1u8]) + v.wire() + rest);
        v.lemma_round_trip(pre + seq![1u8], rest);
    }
}

/// Appends an optional value.
pub fn encode_option<T: Codec>(o: &Option<T>, out: &mut Vec<u8>) -> (r: Result<(), KernelError>)
    ensures
        r is Ok <==> option_encodable(*o),
        r is Ok ==> final(out)@ == old(out)@ + option_wire(*o),
{
    match o {
        Some(v) => {
            out.push(1u8);
            let ghost mid = out@;
            v.encode(out)?;
            assert(out@ =~= old(out)@ + option_wire(*o));
        },
        None => {
            out.push(0u8);
            assert(out@ =~= old(out)@ + option_wire(*o));
        },
    }
    Ok(())
}

/// Reads an optional value; a presence byte other than 0 or 1 is an error.
pub fn decode_option<T: Codec>(data: &[u8], pos: &mut usize) -> (r: Result<Option<T>, KernelError>)
    ensures
        match r {
            Ok(v) => option_parse::<T>(data@, *old(pos) as int) == Some(
                (v.deep_view(), *final(pos) as int),
            ),
            Err(e) => option_parse::<T>(data@, *old(pos) as int) is None && (match u8_parse(
                data@,
                *old(pos) as int,
            ) {
                Some((b, _)) => b > 1 ==> e == KernelError::InvalidOption(b),
                None => e == KernelError::ShortRead,
            }),
        },
        r is Ok ==> *old(pos) < *final(pos) <= data@.len(),
{
    let b = read_u8(data, pos)?;
    if b == 0 {
        Ok(None)
    } else if b == 1 {
        let v = T::decode(data, pos)?;
        Ok(Some(v))
    } else {
        Err(KernelError::InvalidOption(b))
    }
}

/// Appends `bytes` verbatim.
pub fn write_bytes(bytes: &[u8], out: &mut Vec<u8>)
    ensures
        final(out)@ == old(out)@ + bytes@,
{
    let mut i: usize = 0;
    while i < bytes.len()
        invariant
            i <= bytes.len(),
            out@ == old(out)@ + bytes@.subrange(0, i as int),
        decreases bytes.len() - i,
    {
        out.push(bytes[i]);
        assert(bytes@.subrange(0, i + 1) =~= bytes@.subrange(0, i as int).push(bytes@[i as int]));
        i = i + 1;
    }
    assert(bytes@.subrange(0, i as int) =~= bytes@);
}

/// Reads exactly `len` bytes at `*pos`.
pub fn read_bytes(data: &[u8], pos: &mut usize, len: usize) -> (r: Result<Vec<u8>, KernelError>)
    ensures
        match r {
            Ok(v) => *old(pos) + len <= data.len() && v@ == data@.subrange(
                *old(pos) as int,
                *old(pos) + len,
            ) && *final(pos) == *old(pos) + len,
            Err(e) => *old(pos) + len > data.len() && e == KernelError::ShortRead,
        },
{
    if *pos > data.len() || data.len() - *pos < len {
        return Err(KernelError::ShortRead);
    }
    let start = *pos;
    let mut v: Vec<u8> = Vec::new();
    let mut i: usize = 0;
    while i < len
        invariant
            i <= len,
            start + len <= data.len(),
            v@ == data@.subrange(start as int, start + i),
        decreases len - i,
    {
        v.push(data[start + i]);
        assert(data@.subrange(start as int, start + i + 1) =~= data@.subrange(start as int, start + i).push(data@[start + i]));
        i = i + 1;
    }
    *pos = start + len;
    Ok(v)
}

} // verus!
