//! A write of a key: its sequence number and kind packed in a tag, its key and
//! its value, and the byte format they are written in.
use vstd::prelude::*;

use crate::codec::{decode_fixed32, decode_fixed64, encode_fixed32, encode_fixed64, le32, le64};
use crate::error::Error;

verus! {

/// Whether a write stores a value or deletes the key.
#[derive(Clone, Copy, Debug, PartialEq, Eq, Structural)]
pub enum ValueType {
    Deletion,
    Value,
}

/// The code of a kind of write in the low byte of a tag.
pub open spec fn type_code(t: ValueType) -> u64 {
    match t {
        ValueType::Deletion => 0,
        ValueType::Value => 1,
    }
}

/// `b` is the encoding of a write: the key's length plus eight (four bytes), the
/// key, the tag (eight bytes), the value's length (four bytes), the value.
pub open spec fn encodes(b: Seq<u8>, tag: u64, key: Seq<u8>, value: Seq<u8>) -> bool {
    let k = key.len() as int;
    let v = value.len() as int;
    &&& b.len() == 16 + k + v
    &&& le32(b.subrange(0, 4)) == k + 8
    &&& b.subrange(4, 4 + k) == key
    &&& le64(b.subrange(4 + k, 12 + k)) == tag
    &&& le32(b.subrange(12 + k, 16 + k)) == v
    &&& b.subrange(16 + k, 16 + k + v) == value
}

/// The length field that a buffer starts with.
pub open spec fn key_field(b: Seq<u8>) -> int {
    le32(b.subrange(0, 4))
}

/// The value length field of a buffer.
pub open spec fn value_field(b: Seq<u8>) -> int {
    le32(b.subrange(4 + key_field(b), 8 + key_field(b)))
}

/// Whether a buffer starts with a whole encoded write.
pub open spec fn decodable(b: Seq<u8>) -> bool {
    &&& b.len() >= 4
    &&& key_field(b) >= 8
    &&& 8 + key_field(b) <= b.len()
    &&& 8 + key_field(b) + value_field(b) <= b.len()
}

/// A write, borrowing its key and value.
#[derive(Debug, Copy, Clone, PartialEq, Eq)]
pub struct MemEntry<'a> {
    tag: u64,
    key: &'a [u8],
    value: &'a [u8],
}

/// Decoding the encoding of a write gives back its tag, key and value.
pub proof fn lemma_decode_encoded(b: Seq<u8>, tag: u64, key: Seq<u8>, value: Seq<u8>)
    requires
        encodes(b, tag, key, value),
    ensures
        decodable(b),
        b.subrange(4, key_field(b) - 4) == key,
        le64(b.subrange(key_field(b) - 4, key_field(b) + 4)) == tag,
        b.subrange(8 + key_field(b), 8 + key_field(b) + value_field(b)) == value,
{
}

impl<'a> MemEntry<'a> {
    /// The tag: the sequence number above the low byte, the kind in it.
    pub closed spec fn tag_of(&self) -> u64 {
        self.tag
    }

    pub closed spec fn key_of(&self) -> Seq<u8> {
        self.key@
    }

    pub closed spec fn value_of(&self) -> Seq<u8> {
        self.value@
    }

    /// A write of `key` and `value` with sequence number `seq` (of which the low 56
    /// bits are kept) and kind `value_type`.
    pub fn new(seq: u64, value_type: ValueType, key: &'a [u8], value: &'a [u8]) -> (r: Self)
        ensures
            r.tag_of() >> 8 == seq % 0x100_0000_0000_0000,
            r.tag_of() & 0xff == type_code(value_type),
            r.key_of() == key@,
            r.value_of() == value@,
    {
        let code: u64 = match value_type {
            ValueType::Deletion => 0,
            ValueType::Value => 1,
        };
        let tag = seq << 8 | code;
        assert(code <= 1 ==> (seq << 8 | code) >> 8 == seq % 0x100_0000_0000_0000 && (seq << 8 | code)
            & 0xff == code) by (bit_vector);
        MemEntry { key, value, tag }
    }

    /// The kind of write: a zero low byte means a deletion, anything else a value.
    pub fn value_type(&self) -> (r: ValueType)
        ensures
            self.tag_of() & 0xff == 0 ==> r == ValueType::Deletion,
            self.tag_of() & 0xff != 0 ==> r == ValueType::Value,
    {
        if self.tag & 0xff == 0 {
            ValueType::Deletion
        } else {
            ValueType::Value
        }
    }

    /// The sequence number.
    pub fn seq(&self) -> (r: u64)
        ensures
            r == self.tag_of() >> 8,
    {
        self.tag >> 8
    }

    pub fn key(&self) -> (r: &'a [u8])
        ensures
            r@ == self.key_of(),
    {
        self.key
    }

    pub fn value(&self) -> (r: &'a [u8])
        ensures
            r@ == self.value_of(),
    {
        self.value
    }

    /// The encoding of this write; `CodecError` for an empty key, or a key or value
    /// too long for its length field.
    pub fn encode(&self) -> (r: Result<Vec<u8>, Error>)
        ensures
            self.key_of().len() == 0 || self.key_of().len() + 8 > u32::MAX || self.value_of().len()
                > u32::MAX ==> r == Err::<Vec<u8>, Error>(Error::CodecError),
            !(self.key_of().len() == 0 || self.key_of().len() + 8 > u32::MAX || self.value_of().len()
                > u32::MAX) ==> (r matches Ok(b) && encodes(b@, self.tag_of(), self.key_of(), self.value_of())),
    {
        if self.key.len() == 0 || self.key.len() > u32::MAX as usize - 8 || self.value.len()
            > u32::MAX as usize {
            return Err(Error::CodecError);
        }
        let key_size = (self.key.len() + 8) as u32;
        let value_size = self.value.len() as u32;
        let mut bytes: Vec<u8> = Vec::new();
        let kb = encode_fixed32(key_size);
        let tb = encode_fixed64(self.tag);
        let vb = encode_fixed32(value_size);
        push_all(&mut bytes, kb.as_slice());
        push_all(&mut bytes, self.key);
        push_all(&mut bytes, tb.as_slice());
        push_all(&mut bytes, vb.as_slice());
        push_all(&mut bytes, self.value);
        proof {
            let k = self.key@.len() as int;
            let b = bytes@;
            assert(b.subrange(0, 4) =~= kb@);
            assert(b.subrange(4, 4 + k) =~= self.key@);
            assert(b.subrange(4 + k, 12 + k) =~= tb@);
            assert(b.subrange(12 + k, 16 + k) =~= vb@);
            assert(b.subrange(16 + k, 16 + k + self.value@.len()) =~= self.value@);
        }
        Ok(bytes)
    }

    /// The write that `buf` starts with; `CodecError` when `buf` does not start with
    /// a whole one.
    pub fn decode_from_slice(buf: &'a [u8]) -> (r: Result<MemEntry<'a>, Error>)
        ensures
            !decodable(buf@) ==> r == Err::<MemEntry<'a>, Error>(Error::CodecError),
            decodable(buf@) ==> (r matches Ok(e) && e.key_of() == buf@.subrange(4, key_field(buf@) - 4)
                && e.tag_of() == le64(buf@.subrange(key_field(buf@) - 4, key_field(buf@) + 4))
                && e.value_of() == buf@.subrange(8 + key_field(buf@), 8 + key_field(buf@) + value_field(buf@))),
    {
        let len = buf.len();
        if len < 4 {
            return Err(Error::CodecError);
        }
        let key_size = decode_fixed32(buf) as usize;
        assert(buf@.subrange(0, 4) =~= buf@.subrange(0, 4));
        if len < 8 || key_size < 8 || key_size > len - 8 {
            return Err(Error::CodecError);
        }
        let rest = &buf[4 + key_size..len];
        let value_size = decode_fixed32(rest) as usize;
        assert(rest@.subrange(0, 4) =~= buf@.subrange(4 + key_field(buf@), 8 + key_field(buf@)));
        if value_size > len - 8 - key_size {
            return Err(Error::CodecError);
        }
        let key = &buf[4..key_size - 4];
        let tag_bytes = &buf[key_size - 4..key_size + 4];
        let tag = decode_fixed64(tag_bytes);
        assert(tag_bytes@ =~= buf@.subrange(key_size - 4, key_size + 4));
        let value = &buf[8 + key_size..8 + key_size + value_size];
        Ok(MemEntry { tag, key, value })
    }
}

/// Appends the bytes of `s` to `v`.
fn push_all(v: &mut Vec<u8>, s: &[u8])
    ensures
        final(v)@ == old(v)@ + s@,
{
    let mut i: usize = 0;
    while i < s.len()
        invariant
            i <= s@.len(),
            v@ == old(v)@ + s@.subrange(0, i as int),
        decreases s@.len() - i,
    {
        v.push(s[i]);
        i = i + 1;
        assert(v@ =~= old(v)@ + s@.subrange(0, i as int));
    }
    assert(s@.subrange(0, s@.len() as int) =~= s@);
}

} // verus!
