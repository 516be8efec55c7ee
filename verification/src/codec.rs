//! The contract that every wire structure meets.

use vstd::prelude::*;
use crate::error::{DecodeError, EncodeError};
use crate::reader::ByteReader;

verus! {

/// A structure with a byte-exact encoding.
///
/// The view of a value is what travels: `wire` gives its bytes and `parse`
/// reads them back. The three executable operations are specified by those two
/// spec functions, and the laws at the end tie them together.
pub trait PduParsing: Sized + View {
    /// What a decoder makes of `s`: the value that the leading bytes encode
    /// together with the number of bytes it took, or the reason for refusing.
    spec fn parse(s: Seq<u8>) -> Result<(Self::V, nat), DecodeError>;

    /// The bytes that encode `v`.
    spec fn wire(v: Self::V) -> Seq<u8>;

    /// The number of bytes that encode `v`, computed from the fields alone.
    spec fn wire_len(v: Self::V) -> nat;

    /// Every length prefix of `v` can say the length of its field.
    spec fn encodable(v: Self::V) -> bool;

    /// `v` is a value that a decoder can produce.
    spec fn valid(v: Self::V) -> bool;

    /// The bytes of `s` that a decoder passes over without reading their
    /// content hold what an encoder writes in their place.
    spec fn canonical(s: Seq<u8>) -> bool;

    /// Decodes one structure from the bytes that `stream` has left. On success
    /// the reader has moved past exactly the bytes of the structure; on failure
    /// it has not moved.
    fn from_buffer<'a>(stream: &mut ByteReader<'a>) -> (r: Result<Self, DecodeError>)
        requires
            old(stream).wf(),
        ensures
            match Self::parse(old(stream).remaining()) {
                Ok((v, n)) => r is Ok && r->Ok_0@ == v && final(stream).is_after(old(stream), n),
                Err(e) => r is Err && r->Err_0 == e && final(stream).is_after(old(stream), 0),
            },
    ;

    /// Appends the encoding of `self` to `out`. A value that is not encodable
    /// is refused and `out` is left as it was.
    fn to_buffer(&self, out: &mut Vec<u8>) -> (r: Result<(), EncodeError>)
        ensures
            Self::encodable(self@) ==> r is Ok && final(out)@ == old(out)@ + Self::wire(self@)
                && final(out)@.len() == old(out)@.len() + Self::wire_len(self@),
            !Self::encodable(self@) ==> r == Err::<(), EncodeError>(EncodeError::FieldTooLong)
                && final(out)@ == old(out)@,
    ;

    /// The number of bytes that `to_buffer` appends for `self`.
    fn buffer_length(&self) -> (n: usize)
        requires
            Self::wire_len(self@) <= usize::MAX,
        ensures
            n == Self::wire_len(self@),
            n == Self::wire(self@).len(),
    ;

    /// The encoding of a value has the length that `wire_len` computes.
    proof fn lemma_wire_len(v: Self::V)
        ensures
            Self::wire(v).len() == Self::wire_len(v),
    ;

    /// A valid value is encodable, and decoding its encoding gives the value
    /// back and takes exactly the encoding's bytes, whatever follows them.
    proof fn lemma_round_trip(v: Self::V, rest: Seq<u8>)
        requires
            Self::valid(v),
        ensures
            Self::encodable(v),
            Self::parse(Self::wire(v) + rest) == Ok::<(Self::V, nat), DecodeError>(
                (v, Self::wire(v).len()),
            ),
    ;

    /// Encoding what was decoded gives back the bytes that were taken, where
    /// the bytes that the decoder passed over are canonical.
    proof fn lemma_bytes_kept(s: Seq<u8>)
        requires
            Self::parse(s) is Ok,
            Self::canonical(s),
        ensures
            Self::wire(Self::parse(s)->Ok_0.0) == s.take(Self::parse(s)->Ok_0.1 as int),
    ;

    /// A decoder takes no more bytes than it was given, and what it produces
    /// is valid.
    proof fn lemma_parse_sound(s: Seq<u8>)
        requires
            Self::parse(s) is Ok,
        ensures
            Self::parse(s)->Ok_0.1 <= s.len(),
            Self::valid(Self::parse(s)->Ok_0.0),
    ;
}

/// Decodes one structure from the start of `bytes` and gives it together
/// with the number of bytes that it took.
pub fn decode<T: PduParsing>(bytes: &[u8]) -> (r: Result<(T, usize), DecodeError>)
    ensures
        match T::parse(bytes@) {
            Ok((v, n)) => r is Ok && r->Ok_0.0@ == v && r->Ok_0.1 == n,
            Err(e) => r is Err && r->Err_0 == e,
        },
{
    let mut stream = ByteReader::new(bytes);
    match T::from_buffer(&mut stream) {
        Ok(value) => Ok((value, stream.position())),
        Err(e) => Err(e),
    }
}

/// The encoding of `value` as a vector of its own.
pub fn encode<T: PduParsing>(value: &T) -> (r: Result<Vec<u8>, EncodeError>)
    ensures
        T::encodable(value@) ==> r is Ok && r->Ok_0@ == T::wire(value@),
        !T::encodable(value@) ==> r is Err && r->Err_0 == EncodeError::FieldTooLong,
{
    let mut out: Vec<u8> = Vec::new();
    match value.to_buffer(&mut out) {
        Ok(()) => {
            assert(out@ =~= T::wire(value@));
            Ok(out)
        },
        Err(e) => Err(e),
    }
}

} // verus!
