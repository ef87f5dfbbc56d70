//! Minimal binary serialization: little-endian integers, one byte per
//! boolean, and strings and vectors prefixed by their length as a `u32`.
use vstd::bytes::{
    lemma_auto_spec_u16_to_from_le_bytes,
    lemma_auto_spec_u32_to_from_le_bytes,
    lemma_auto_spec_u64_to_from_le_bytes,
    spec_u16_from_le_bytes,
    spec_u16_to_le_bytes,
    spec_u32_from_le_bytes,
    spec_u32_to_le_bytes,
    spec_u64_from_le_bytes,
    spec_u64_to_le_bytes,
    u16_from_le_bytes,
    u16_to_le_bytes,
    u32_from_le_bytes,
    u32_to_le_bytes,
    u64_from_le_bytes,
    u64_to_le_bytes,
};
use vstd::prelude::*;
use vstd::slice::{slice_subrange, slice_to_vec};
use vstd::utf8::{decode_utf8, encode_utf8, valid_utf8};

use crate::text::push_bytes;

verus! {

/// Why decoding failed.
#[derive(Clone, Copy, Debug, PartialEq, Eq, Structural)]
pub enum DecodeError {
    /// The input ended before the value did.
    UnexpectedEof,
    /// A string's bytes are not valid UTF-8.
    InvalidData,
}

/// A type that can be written as bytes.
pub trait Serialize: DeepView {
    /// The bytes that encode a value.
    spec fn spec_encode(v: Self::V) -> Seq<u8>;

    /// Appends the encoding of `self` to `out`.
    fn serialize(&self, out: &mut Vec<u8>)
        ensures
            final(out)@ == old(out)@ + Self::spec_encode(self.deep_view()),
    ;
}

/// A type that can be read back from bytes.
pub trait Deserialize: Sized + DeepView {
    /// What decoding the start of `s` gives: the value and how many bytes it
    /// took, or why it failed.
    spec fn spec_decode(s: Seq<u8>) -> Result<(Self::V, nat), DecodeError>;

    /// Decodes a value from `input` at `*pos`, and moves `*pos` past it; on
    /// failure `*pos` is left where it was.
    fn deserialize(input: &[u8], pos: &mut usize) -> (r: Result<Self, DecodeError>)
        requires
            *old(pos) <= input@.len(),
        ensures
            match r {
                Ok(v) => {
                    &&& *old(pos) <= *final(pos) <= input@.len()
                    &&& Self::spec_decode(input@.skip(*old(pos) as int)) == Ok::<(Self::V, nat), DecodeError>(
                        (v.deep_view(), (*final(pos) - *old(pos)) as nat),
                    )
                },
                Err(e) => {
                    &&& *final(pos) == *old(pos)
                    &&& Self::spec_decode(input@.skip(*old(pos) as int)) == Err::<(Self::V, nat), DecodeError>(e)
                },
            },
    ;
}

/// Whether decoding what `v` encodes to, followed by anything, gives `v`
/// back and takes exactly its encoding.
pub open spec fn round_trips<T: Serialize + Deserialize>(v: <T as DeepView>::V) -> bool {
    forall|rest: Seq<u8>|
        #![trigger T::spec_decode(T::spec_encode(v) + rest)]
        T::spec_decode(T::spec_encode(v) + rest) == Ok::<(<T as DeepView>::V, nat), DecodeError>(
            (v, T::spec_encode(v).len()),
        )
}

/// The first `n` bytes of `input` from `pos`, when there are that many.
fn take_bytes<'a>(input: &'a [u8], pos: usize, n: usize) -> (r: Option<&'a [u8]>)
    requires
        pos <= input@.len(),
    ensures
        match r {
            Some(b) => pos + n <= input@.len() <= usize::MAX && b@ == input@.skip(pos as int).take(n as int),
            None => input@.len() - pos < n,
        },
{
    if input.len() - pos < n {
        None
    } else {
        let b = slice_subrange(input, pos, pos + n);
        proof {
            assert(b@ =~= input@.skip(pos as int).take(n as int));
        }
        Some(b)
    }
}

// Single bytes.

impl Serialize for u8 {
    open spec fn spec_encode(v: u8) -> Seq<u8> {
        seq![v]
    }

    fn serialize(&self, out: &mut Vec<u8>) {
        out.push(*self);
        proof {
            assert(final(out)@ =~= old(out)@ + seq![*self]);
        }
    }
}

impl Deserialize for u8 {
    open spec fn spec_decode(s: Seq<u8>) -> Result<(u8, nat), DecodeError> {
        if s.len() >= 1 {
            Ok((s[0], 1))
        } else {
            Err(DecodeError::UnexpectedEof)
        }
    }

    fn deserialize(input: &[u8], pos: &mut usize) -> (r: Result<u8, DecodeError>) {
        if *pos < input.len() {
            let b = input[*pos];
            *pos = *pos + 1;
            Ok(b)
        } else {
            Err(DecodeError::UnexpectedEof)
        }
    }
}

impl Serialize for i8 {
    open spec fn spec_encode(v: i8) -> Seq<u8> {
        seq![v as u8]
    }

    fn serialize(&self, out: &mut Vec<u8>) {
        out.push(*self as u8);
        proof {
            assert(final(out)@ =~= old(out)@ + seq![*self as u8]);
        }
    }
}

impl Deserialize for i8 {
    open spec fn spec_decode(s: Seq<u8>) -> Result<(i8, nat), DecodeError> {
        if s.len() >= 1 {
            Ok((s[0] as i8, 1))
        } else {
            Err(DecodeError::UnexpectedEof)
        }
    }

    fn deserialize(input: &[u8], pos: &mut usize) -> (r: Result<i8, DecodeError>) {
        if *pos < input.len() {
            let b = input[*pos];
            *pos = *pos + 1;
            Ok(b as i8)
        } else {
            Err(DecodeError::UnexpectedEof)
        }
    }
}

impl Serialize for bool {
    open spec fn spec_encode(v: bool) -> Seq<u8> {
        seq![if v { 1u8 } else { 0u8 }]
    }

    fn serialize(&self, out: &mut Vec<u8>) {
        out.push(if *self { 1u8 } else { 0u8 });
        proof {
            assert(final(out)@ =~= old(out)@ + seq![if *self { 1u8 } else { 0u8 }]);
        }
    }
}

impl Deserialize for bool {
    /// Any byte but zero reads as true.
    open spec fn spec_decode(s: Seq<u8>) -> Result<(bool, nat), DecodeError> {
        if s.len() >= 1 {
            Ok((s[0] != 0, 1))
        } else {
            Err(DecodeError::UnexpectedEof)
        }
    }

    fn deserialize(input: &[u8], pos: &mut usize) -> (r: Result<bool, DecodeError>) {
        if *pos < input.len() {
            let b = input[*pos];
            *pos = *pos + 1;
            Ok(b != 0)
        } else {
            Err(DecodeError::UnexpectedEof)
        }
    }
}

// Little-endian integers.

impl Serialize for u16 {
    open spec fn spec_encode(v: u16) -> Seq<u8> {
        spec_u16_to_le_bytes(v)
    }

    fn serialize(&self, out: &mut Vec<u8>) {
        let b = u16_to_le_bytes(*self);
        push_bytes(out, b.as_slice());
    }
}

impl Deserialize for u16 {
    open spec fn spec_decode(s: Seq<u8>) -> Result<(u16, nat), DecodeError> {
        if s.len() >= 2 {
            Ok((spec_u16_from_le_bytes(s.take(2)), 2))
        } else {
            Err(DecodeError::UnexpectedEof)
        }
    }

    fn deserialize(input: &[u8], pos: &mut usize) -> (r: Result<u16, DecodeError>) {
        match take_bytes(input, *pos, 2) {
            Some(b) => {
                let v = u16_from_le_bytes(b);
                *pos = *pos + 2;
                Ok(v)
            },
            None => Err(DecodeError::UnexpectedEof),
        }
    }
}

impl Serialize for i16 {
    open spec fn spec_encode(v: i16) -> Seq<u8> {
        spec_u16_to_le_bytes(v as u16)
    }

    fn serialize(&self, out: &mut Vec<u8>) {
        let b = u16_to_le_bytes(*self as u16);
        push_bytes(out, b.as_slice());
    }
}

impl Deserialize for i16 {
    open spec fn spec_decode(s: Seq<u8>) -> Result<(i16, nat), DecodeError> {
        if s.len() >= 2 {
            Ok((spec_u16_from_le_bytes(s.take(2)) as i16, 2))
        } else {
            Err(DecodeError::UnexpectedEof)
        }
    }

    fn deserialize(input: &[u8], pos: &mut usize) -> (r: Result<i16, DecodeError>) {
        match take_bytes(input, *pos, 2) {
            Some(b) => {
                let v = #[verifier::truncate] (u16_from_le_bytes(b) as i16);
                *pos = *pos + 2;
                Ok(v)
            },
            None => Err(DecodeError::UnexpectedEof),
        }
    }
}

impl Serialize for u32 {
    open spec fn spec_encode(v: u32) -> Seq<u8> {
        spec_u32_to_le_bytes(v)
    }

    fn serialize(&self, out: &mut Vec<u8>) {
        let b = u32_to_le_bytes(*self);
        push_bytes(out, b.as_slice());
    }
}

impl Deserialize for u32 {
    open spec fn spec_decode(s: Seq<u8>) -> Result<(u32, nat), DecodeError> {
        if s.len() >= 4 {
            Ok((spec_u32_from_le_bytes(s.take(4)), 4))
        } else {
            Err(DecodeError::UnexpectedEof)
        }
    }

    fn deserialize(input: &[u8], pos: &mut usize) -> (r: Result<u32, DecodeError>) {
        match take_bytes(input, *pos, 4) {
            Some(b) => {
                let v = u32_from_le_bytes(b);
                *pos = *pos + 4;
                Ok(v)
            },
            None => Err(DecodeError::UnexpectedEof),
        }
    }
}

impl Serialize for i32 {
    open spec fn spec_encode(v: i32) -> Seq<u8> {
        spec_u32_to_le_bytes(v as u32)
    }

    fn serialize(&self, out: &mut Vec<u8>) {
        let b = u32_to_le_bytes(*self as u32);
        push_bytes(out, b.as_slice());
    }
}

impl Deserialize for i32 {
    open spec fn spec_decode(s: Seq<u8>) -> Result<(i32, nat), DecodeError> {
        if s.len() >= 4 {
            Ok((spec_u32_from_le_bytes(s.take(4)) as i32, 4))
        } else {
            Err(DecodeError::UnexpectedEof)
        }
    }

    fn deserialize(input: &[u8], pos: &mut usize) -> (r: Result<i32, DecodeError>) {
        match take_bytes(input, *pos, 4) {
            Some(b) => {
                let v = #[verifier::truncate] (u32_from_le_bytes(b) as i32);
                *pos = *pos + 4;
                Ok(v)
            },
            None => Err(DecodeError::UnexpectedEof),
        }
    }
}

impl Serialize for u64 {
    open spec fn spec_encode(v: u64) -> Seq<u8> {
        spec_u64_to_le_bytes(v)
    }

    fn serialize(&self, out: &mut Vec<u8>) {
        let b = u64_to_le_bytes(*self);
        push_bytes(out, b.as_slice());
    }
}

impl Deserialize for u64 {
    open spec fn spec_decode(s: Seq<u8>) -> Result<(u64, nat), DecodeError> {
        if s.len() >= 8 {
            Ok((spec_u64_from_le_bytes(s.take(8)), 8))
        } else {
            Err(DecodeError::UnexpectedEof)
        }
    }

    fn deserialize(input: &[u8], pos: &mut usize) -> (r: Result<u64, DecodeError>) {
        match take_bytes(input, *pos, 8) {
            Some(b) => {
                let v = u64_from_le_bytes(b);
                *pos = *pos + 8;
                Ok(v)
            },
            None => Err(DecodeError::UnexpectedEof),
        }
    }
}

// Strings.

/// `String::from_utf8`: the string whose UTF-8 encoding is `bytes`, when
/// they are valid UTF-8.
#[verifier::external_body]
fn string_from_utf8(bytes: Vec<u8>) -> (r: Option<String>)
    ensures
        r is Some <==> valid_utf8(bytes@),
        r matches Some(s) ==> s@ == decode_utf8(bytes@),
{
    String::from_utf8(bytes).ok()
}

impl Serialize for String {
    /// The byte length (cut to 32 bits), then the UTF-8 bytes.
    open spec fn spec_encode(v: Seq<char>) -> Seq<u8> {
        spec_u32_to_le_bytes(encode_utf8(v).len() as u32) + encode_utf8(v)
    }

    fn serialize(&self, out: &mut Vec<u8>) {
        let bytes = self.as_str().as_bytes();
        let n: u32 = #[verifier::truncate] (bytes.len() as u32);
        n.serialize(out);
        push_bytes(out, bytes);
        proof {
            assert(final(out)@ =~= old(out)@ + Self::spec_encode(self.deep_view()));
        }
    }
}

impl Deserialize for String {
    open spec fn spec_decode(s: Seq<u8>) -> Result<(Seq<char>, nat), DecodeError> {
        if s.len() < 4 {
            Err(DecodeError::UnexpectedEof)
        } else {
            let n = spec_u32_from_le_bytes(s.take(4));
            if s.len() < 4 + n {
                Err(DecodeError::UnexpectedEof)
            } else if valid_utf8(s.subrange(4, 4 + n)) {
                Ok((decode_utf8(s.subrange(4, 4 + n)), (4 + n) as nat))
            } else {
                Err(DecodeError::InvalidData)
            }
        }
    }

    fn deserialize(input: &[u8], pos: &mut usize) -> (r: Result<String, DecodeError>) {
        let ghost s = input@.skip(*pos as int);
        let mut p = *pos;
        let n = match u32::deserialize(input, &mut p) {
            Ok(n) => n,
            Err(e) => {
                return Err(e);
            },
        };
        match take_bytes(input, p, n as usize) {
            Some(b) => {
                proof {
                    assert(b@ =~= s.subrange(4, 4 + n));
                }
                match string_from_utf8(slice_to_vec(b)) {
                    Some(text) => {
                        *pos = p + n as usize;
                        Ok(text)
                    },
                    None => Err(DecodeError::InvalidData),
                }
            },
            None => Err(DecodeError::UnexpectedEof),
        }
    }
}

// Vectors.

/// The encodings of the items of `s`, one after the other.
pub open spec fn encode_all<T: Serialize>(s: Seq<T::V>) -> Seq<u8>
    decreases s.len(),
{
    if s.len() == 0 {
        seq![]
    } else {
        encode_all::<T>(s.drop_last()) + T::spec_encode(s.last())
    }
}

/// Decoding `n` items one after the other from the start of `s`: the items
/// and the bytes they took, or the first failure.
pub open spec fn decode_items<T: Deserialize>(s: Seq<u8>, n: nat) -> Result<(Seq<T::V>, nat), DecodeError>
    decreases n,
{
    if n == 0 {
        Ok((seq![], 0))
    } else {
        match decode_items::<T>(s, (n - 1) as nat) {
            Ok((items, used)) => match T::spec_decode(s.skip(used as int)) {
                Ok((x, k)) => Ok((items.push(x), used + k)),
                Err(e) => Err(e),
            },
            Err(e) => Err(e),
        }
    }
}

/// Once an item fails to decode, decoding more items fails the same way.
pub proof fn lemma_decode_items_err<T: Deserialize>(s: Seq<u8>, i: nat, n: nat)
    requires
        decode_items::<T>(s, i) is Err,
        i <= n,
    ensures
        decode_items::<T>(s, n) == decode_items::<T>(s, i),
    decreases n - i,
{
    if i < n {
        lemma_decode_items_err::<T>(s, i, (n - 1) as nat);
    }
}

impl<T: Serialize> Serialize for Vec<T> {
    /// The number of items (cut to 32 bits), then each item.
    open spec fn spec_encode(v: Seq<T::V>) -> Seq<u8> {
        spec_u32_to_le_bytes(v.len() as u32) + encode_all::<T>(v)
    }

    fn serialize(&self, out: &mut Vec<u8>) {
        let n: u32 = #[verifier::truncate] (self.len() as u32);
        n.serialize(out);
        let ghost start = out@;
        let mut i: usize = 0;
        while i < self.len()
            invariant
                0 <= i <= self@.len(),
                out@ == start + encode_all::<T>(self.deep_view().take(i as int)),
            decreases self@.len() - i,
        {
            self[i].serialize(out);
            proof {
                let dv = self.deep_view();
                assert(dv.take(i + 1).drop_last() =~= dv.take(i as int));
                assert(dv.take(i + 1).last() == self@[i as int].deep_view());
                assert(out@ =~= start + encode_all::<T>(dv.take(i + 1)));
            }
            i = i + 1;
        }
        proof {
            assert(self.deep_view().take(self@.len() as int) =~= self.deep_view());
            assert(final(out)@ =~= old(out)@ + Self::spec_encode(self.deep_view()));
        }
    }
}

impl<T: Deserialize> Deserialize for Vec<T> {
    open spec fn spec_decode(s: Seq<u8>) -> Result<(Seq<T::V>, nat), DecodeError> {
        match u32::spec_decode(s) {
            Ok((n, k)) => match decode_items::<T>(s.skip(k as int), n as nat) {
                Ok((items, used)) => Ok((items, k + used)),
                Err(e) => Err(e),
            },
            Err(e) => Err(e),
        }
    }

    fn deserialize(input: &[u8], pos: &mut usize) -> (r: Result<Vec<T>, DecodeError>) {
        let ghost s = input@.skip(*pos as int);
        let mut p = *pos;
        let n = match u32::deserialize(input, &mut p) {
            Ok(n) => n,
            Err(e) => {
                return Err(e);
            },
        };
        let p0 = p;
        let ghost s0 = input@.skip(p0 as int);
        proof {
            assert(s0 =~= s.skip(4));
        }
        let mut v: Vec<T> = Vec::new();
        proof {
            assert(v.deep_view() =~= Seq::<T::V>::empty());
        }
        let mut i: u32 = 0;
        while i < n
            invariant
                p0 <= p <= input@.len(),
                s0 == input@.skip(p0 as int),
                s0 == s.skip(4),
                u32::spec_decode(s) == Ok::<(u32, nat), DecodeError>((n, 4)),
                p0 == *pos + 4,
                *pos == *old(pos),
                s == input@.skip(*pos as int),
                0 <= i <= n,
                decode_items::<T>(s0, i as nat) == Ok::<(Seq<T::V>, nat), DecodeError>((v.deep_view(), (p - p0) as nat)),
            decreases n - i,
        {
            let ghost before = v.deep_view();
            proof {
                assert(s0.skip(p - p0) =~= input@.skip(p as int));
            }
            match T::deserialize(input, &mut p) {
                Ok(x) => {
                    v.push(x);
                    proof {
                        assert(v.deep_view() =~= before.push(x.deep_view()));
                    }
                },
                Err(e) => {
                    proof {
                        assert(decode_items::<T>(s0, (i + 1) as nat) == Err::<(Seq<T::V>, nat), DecodeError>(e));
                        lemma_decode_items_err::<T>(s0, (i + 1) as nat, n as nat);
                    }
                    return Err(e);
                },
            }
            i = i + 1;
        }
        *pos = p;
        Ok(v)
    }
}

// Round trips.

/// A byte comes back as it went, taking exactly its encoding.
pub proof fn law_round_trip_u8(v: u8)
    ensures
        round_trips::<u8>(v),
{
    assert forall|rest: Seq<u8>| #[trigger] u8::spec_decode(u8::spec_encode(v) + rest) == Ok::<(u8, nat), DecodeError>((v, 1)) by {
        assert((seq![v] + rest)[0] == v);
    }
}

/// A signed byte comes back as it went, taking exactly its encoding.
pub proof fn law_round_trip_i8(v: i8)
    ensures
        round_trips::<i8>(v),
{
    assert forall|rest: Seq<u8>| #[trigger] i8::spec_decode(i8::spec_encode(v) + rest) == Ok::<(i8, nat), DecodeError>((v, 1)) by {
        assert((seq![v as u8] + rest)[0] == v as u8);
        assert(((v as u8) as i8) == v) by (bit_vector);
    }
}

/// Booleans come back as they went.
pub proof fn law_round_trip_bool(v: bool)
    ensures
        round_trips::<bool>(v),
{
    assert forall|rest: Seq<u8>| #[trigger] bool::spec_decode(bool::spec_encode(v) + rest) == Ok::<(bool, nat), DecodeError>((v, 1)) by {
        assert((bool::spec_encode(v) + rest)[0] == if v { 1u8 } else { 0u8 });
    }
}

/// A `u16` comes back as it went, taking exactly its encoding.
pub proof fn law_round_trip_u16(v: u16)
    ensures
        round_trips::<u16>(v),
{
    lemma_auto_spec_u16_to_from_le_bytes();
    assert forall|rest: Seq<u8>| #[trigger] u16::spec_decode(u16::spec_encode(v) + rest) == Ok::<(u16, nat), DecodeError>((v, 2)) by {
        assert((u16::spec_encode(v) + rest).take(2) =~= u16::spec_encode(v));
    }
}

/// An `i16` comes back as it went, taking exactly its encoding.
pub proof fn law_round_trip_i16(v: i16)
    ensures
        round_trips::<i16>(v),
{
    lemma_auto_spec_u16_to_from_le_bytes();
    assert forall|rest: Seq<u8>| #[trigger] i16::spec_decode(i16::spec_encode(v) + rest) == Ok::<(i16, nat), DecodeError>((v, 2)) by {
        assert((i16::spec_encode(v) + rest).take(2) =~= i16::spec_encode(v));
        assert(((v as u16) as i16) == v) by (bit_vector);
    }
}

/// A `u32` comes back as it went, taking exactly its encoding.
pub proof fn law_round_trip_u32(v: u32)
    ensures
        round_trips::<u32>(v),
{
    lemma_auto_spec_u32_to_from_le_bytes();
    assert forall|rest: Seq<u8>| #[trigger] u32::spec_decode(u32::spec_encode(v) + rest) == Ok::<(u32, nat), DecodeError>((v, 4)) by {
        assert((u32::spec_encode(v) + rest).take(4) =~= u32::spec_encode(v));
    }
}

/// An `i32` comes back as it went, taking exactly its encoding.
pub proof fn law_round_trip_i32(v: i32)
    ensures
        round_trips::<i32>(v),
{
    lemma_auto_spec_u32_to_from_le_bytes();
    assert forall|rest: Seq<u8>| #[trigger] i32::spec_decode(i32::spec_encode(v) + rest) == Ok::<(i32, nat), DecodeError>((v, 4)) by {
        assert((i32::spec_encode(v) + rest).take(4) =~= i32::spec_encode(v));
        assert(((v as u32) as i32) == v) by (bit_vector);
    }
}

/// A `u64` comes back as it went, taking exactly its encoding.
pub proof fn law_round_trip_u64(v: u64)
    ensures
        round_trips::<u64>(v),
{
    lemma_auto_spec_u64_to_from_le_bytes();
    assert forall|rest: Seq<u8>| #[trigger] u64::spec_decode(u64::spec_encode(v) + rest) == Ok::<(u64, nat), DecodeError>((v, 8)) by {
        assert((u64::spec_encode(v) + rest).take(8) =~= u64::spec_encode(v));
    }
}

/// A string whose UTF-8 encoding is at most `u32::MAX` bytes long comes back as it went.
pub proof fn law_round_trip_string(v: Seq<char>)
    requires
        encode_utf8(v).len() <= u32::MAX,
    ensures
        round_trips::<String>(v),
{
    broadcast use vstd::utf8::encode_utf8_valid_utf8, vstd::utf8::encode_utf8_decode_utf8;

    lemma_auto_spec_u32_to_from_le_bytes();
    let enc = encode_utf8(v);
    let len = enc.len() as u32;
    assert forall|rest: Seq<u8>| #[trigger] String::spec_decode(String::spec_encode(v) + rest) == Ok::<(Seq<char>, nat), DecodeError>(
        (v, String::spec_encode(v).len()),
    ) by {
        let s = String::spec_encode(v) + rest;
        assert(s.take(4) =~= spec_u32_to_le_bytes(len));
        assert(s.subrange(4, 4 + len) =~= enc);
    }
}

/// Encoding two runs of items one after the other encodes their concatenation.
pub proof fn lemma_encode_all_concat<T: Serialize>(a: Seq<T::V>, b: Seq<T::V>)
    ensures
        encode_all::<T>(a + b) == encode_all::<T>(a) + encode_all::<T>(b),
    decreases b.len(),
{
    if b.len() == 0 {
        assert(a + b =~= a);
        assert(encode_all::<T>(a) + encode_all::<T>(b) =~= encode_all::<T>(a));
    } else {
        lemma_encode_all_concat::<T>(a, b.drop_last());
        assert((a + b).drop_last() =~= a + b.drop_last());
        assert((a + b).last() == b.last());
        assert(encode_all::<T>(a + b) =~= encode_all::<T>(a) + encode_all::<T>(b));
    }
}

proof fn lemma_decode_items_prefix<T: Serialize + Deserialize>(v: Seq<T::V>, rest: Seq<u8>, k: nat)
    requires
        k <= v.len(),
        forall|i: int| 0 <= i < v.len() ==> round_trips::<T>(#[trigger] v[i]),
    ensures
        decode_items::<T>(encode_all::<T>(v) + rest, k) == Ok::<(Seq<T::V>, nat), DecodeError>(
            (v.take(k as int), encode_all::<T>(v.take(k as int)).len()),
        ),
    decreases k,
{
    let s = encode_all::<T>(v) + rest;
    if k == 0 {
        assert(v.take(0) =~= Seq::<T::V>::empty());
    } else {
        let j = (k - 1) as int;
        lemma_decode_items_prefix::<T>(v, rest, (k - 1) as nat);
        let x = v[j];
        let after = v.skip(k as int);
        assert(v =~= v.take(j) + (seq![x] + after));
        lemma_encode_all_concat::<T>(v.take(j), seq![x] + after);
        lemma_encode_all_concat::<T>(seq![x], after);
        assert(seq![x].drop_last() =~= Seq::<T::V>::empty());
        assert(encode_all::<T>(Seq::<T::V>::empty()) == Seq::<u8>::empty());
        assert(encode_all::<T>(seq![x]) == encode_all::<T>(Seq::<T::V>::empty()) + T::spec_encode(x));
        assert(encode_all::<T>(seq![x]) =~= T::spec_encode(x));
        let used = encode_all::<T>(v.take(j)).len();
        let tail = encode_all::<T>(after) + rest;
        assert(s.skip(used as int) =~= T::spec_encode(x) + tail);
        assert(round_trips::<T>(x));
        assert(T::spec_decode(T::spec_encode(x) + tail) == Ok::<(T::V, nat), DecodeError>((x, T::spec_encode(x).len())));
        assert(v.take(j).push(x) =~= v.take(k as int));
        assert(v.take(k as int).drop_last() =~= v.take(j));
    }
}

/// A vector of at most `u32::MAX` items, each of which comes back as it
/// went, comes back as it went.
pub proof fn law_round_trip_vec<T: Serialize + Deserialize>(v: Seq<T::V>)
    requires
        v.len() <= u32::MAX,
        forall|i: int| 0 <= i < v.len() ==> round_trips::<T>(#[trigger] v[i]),
    ensures
        round_trips::<Vec<T>>(v),
{
    lemma_auto_spec_u32_to_from_le_bytes();
    let n = v.len() as u32;
    assert forall|rest: Seq<u8>| #[trigger] <Vec<T> as Deserialize>::spec_decode(<Vec<T> as Serialize>::spec_encode(v) + rest) == Ok::<(Seq<T::V>, nat), DecodeError>(
        (v, <Vec<T> as Serialize>::spec_encode(v).len()),
    ) by {
        let s = <Vec<T> as Serialize>::spec_encode(v) + rest;
        assert(s.take(4) =~= spec_u32_to_le_bytes(n));
        assert(s.skip(4) =~= encode_all::<T>(v) + rest);
        lemma_decode_items_prefix::<T>(v, rest, v.len());
        assert(v.take(v.len() as int) =~= v);
    }
}

} // verus!
