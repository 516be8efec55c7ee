//! Security data exchanged while a connection is negotiated: the encryption
//! methods that a client supports, and the method, level, random and
//! certificate that a server answers with.

use vstd::prelude::*;
use crate::codec::PduParsing;
use crate::error::{DecodeError, EncodeError};
use crate::reader::ByteReader;
use crate::wire::{
    lemma_u32_le_bytes_kept, lemma_u32_le_round_trip, put_u32_le, u32_from_le, u32_to_le,
};

verus! {

/// The bit of 40-bit encryption.
pub const BIT_40: u32 = 0x0000_0001;

/// The bit of 128-bit encryption.
pub const BIT_128: u32 = 0x0000_0002;

/// The bit of 56-bit encryption.
pub const BIT_56: u32 = 0x0000_0008;

/// The bit of FIPS-compliant encryption.
pub const FIPS: u32 = 0x0000_0010;

/// Every bit that names an encryption method.
pub const ALL_METHODS: u32 = 0x0000_001b;

/// The length of a server random.
pub const SERVER_RANDOM_LEN: usize = 32;

/// A set of encryption methods, one bit each. A value holds no bit but
/// those that name a method.
#[derive(Debug, Clone, Copy, PartialEq, Eq, Structural)]
pub struct EncryptionMethod {
    bits: u32,
}

impl View for EncryptionMethod {
    type V = u32;

    /// The bits of the set.
    closed spec fn view(&self) -> u32 {
        self.bits
    }
}

impl EncryptionMethod {
    #[verifier::type_invariant]
    spec fn only_known_bits(self) -> bool {
        Self::known(self.bits)
    }

    /// Every bit set in `bits` names a method.
    pub open spec fn known(bits: u32) -> bool {
        bits & !ALL_METHODS == 0
    }

    /// The set holds every method of `bits`.
    pub open spec fn has(self, bits: u32) -> bool {
        self@ & bits == bits
    }

    /// The set without methods.
    pub fn empty() -> (r: Self)
        ensures
            r@ == 0,
    {
        assert(0u32 & !0x1bu32 == 0) by (bit_vector);
        EncryptionMethod { bits: 0 }
    }

    /// The set of 40-bit encryption alone.
    pub fn bit_40() -> (r: Self)
        ensures
            r@ == BIT_40,
    {
        assert(1u32 & !0x1bu32 == 0) by (bit_vector);
        EncryptionMethod { bits: BIT_40 }
    }

    /// The set of 128-bit encryption alone.
    pub fn bit_128() -> (r: Self)
        ensures
            r@ == BIT_128,
    {
        assert(2u32 & !0x1bu32 == 0) by (bit_vector);
        EncryptionMethod { bits: BIT_128 }
    }

    /// The set of 56-bit encryption alone.
    pub fn bit_56() -> (r: Self)
        ensures
            r@ == BIT_56,
    {
        assert(8u32 & !0x1bu32 == 0) by (bit_vector);
        EncryptionMethod { bits: BIT_56 }
    }

    /// The set of FIPS-compliant encryption alone.
    pub fn fips() -> (r: Self)
        ensures
            r@ == FIPS,
    {
        assert(0x10u32 & !0x1bu32 == 0) by (bit_vector);
        EncryptionMethod { bits: FIPS }
    }

    /// The set of every method.
    pub fn all() -> (r: Self)
        ensures
            r@ == ALL_METHODS,
    {
        assert(0x1bu32 & !0x1bu32 == 0) by (bit_vector);
        EncryptionMethod { bits: ALL_METHODS }
    }

    /// The set whose bits are `bits`, if each of them names a method.
    pub fn from_bits(bits: u32) -> (r: Option<Self>)
        ensures
            Self::known(bits) ==> r is Some && r->Some_0@ == bits,
            !Self::known(bits) ==> r is None,
    {
        if bits & !ALL_METHODS == 0 {
            Some(EncryptionMethod { bits })
        } else {
            None
        }
    }

    /// The bits of the set.
    pub fn bits(&self) -> (r: u32)
        ensures
            r == self@,
            Self::known(r),
    {
        proof {
            use_type_invariant(self);
        }
        self.bits
    }

    /// Whether the set holds no method.
    pub fn is_empty(&self) -> (r: bool)
        ensures
            r == (self@ == 0),
    {
        self.bits == 0
    }

    /// Whether every method of `other` is in the set.
    pub fn contains(&self, other: EncryptionMethod) -> (r: bool)
        ensures
            r == self.has(other@),
    {
        self.bits & other.bits == other.bits
    }

    /// The methods that are in either set.
    pub fn union(self, other: EncryptionMethod) -> (r: Self)
        ensures
            r@ == self@ | other@,
            r.has(self@) && r.has(other@),
    {
        let a: u32 = self.bits;
        let b: u32 = other.bits;
        proof {
            use_type_invariant(self);
            use_type_invariant(other);
        }
        assert(a & !0x1bu32 == 0 && b & !0x1bu32 == 0 ==> (a | b) & !0x1bu32 == 0) by (bit_vector);
        assert((a | b) & a == a && (a | b) & b == b) by (bit_vector);
        EncryptionMethod { bits: a | b }
    }

    /// The methods that are in both sets.
    pub fn intersection(self, other: EncryptionMethod) -> (r: Self)
        ensures
            r@ == self@ & other@,
            self.has(r@) && other.has(r@),
    {
        let a: u32 = self.bits;
        let b: u32 = other.bits;
        proof {
            use_type_invariant(self);
        }
        assert(a & !0x1bu32 == 0 ==> (a & b) & !0x1bu32 == 0) by (bit_vector);
        assert(a & (a & b) == a & b && b & (a & b) == a & b) by (bit_vector);
        EncryptionMethod { bits: a & b }
    }
}

/// How much of the traffic is encrypted.
#[derive(Debug, Clone, Copy, PartialEq, Eq, Structural)]
pub enum EncryptionLevel {
    NoEncryption,
    Low,
    ClientCompatible,
    High,
    Fips,
}

impl EncryptionLevel {
    /// The level that `value` names, if it names one.
    pub open spec fn spec_from_u32(value: u32) -> Option<EncryptionLevel> {
        if value == 0 {
            Some(EncryptionLevel::NoEncryption)
        } else if value == 1 {
            Some(EncryptionLevel::Low)
        } else if value == 2 {
            Some(EncryptionLevel::ClientCompatible)
        } else if value == 3 {
            Some(EncryptionLevel::High)
        } else if value == 4 {
            Some(EncryptionLevel::Fips)
        } else {
            None
        }
    }

    /// The number of the level.
    pub open spec fn spec_to_u32(self) -> u32 {
        match self {
            EncryptionLevel::NoEncryption => 0,
            EncryptionLevel::Low => 1,
            EncryptionLevel::ClientCompatible => 2,
            EncryptionLevel::High => 3,
            EncryptionLevel::Fips => 4,
        }
    }

    /// The level that `value` names; every number above 4 names none.
    pub fn from_u32(value: u32) -> (r: Option<Self>)
        ensures
            r == Self::spec_from_u32(value),
            r is None <==> value > 4,
    {
        match value {
            0 => Some(EncryptionLevel::NoEncryption),
            1 => Some(EncryptionLevel::Low),
            2 => Some(EncryptionLevel::ClientCompatible),
            3 => Some(EncryptionLevel::High),
            4 => Some(EncryptionLevel::Fips),
            _ => None,
        }
    }

    /// The number of the level.
    pub fn to_u32(self) -> (r: u32)
        ensures
            r == self.spec_to_u32(),
            Self::spec_from_u32(r) == Some(self),
    {
        match self {
            EncryptionLevel::NoEncryption => 0,
            EncryptionLevel::Low => 1,
            EncryptionLevel::ClientCompatible => 2,
            EncryptionLevel::High => 3,
            EncryptionLevel::Fips => 4,
        }
    }
}

/// What a client says of the encryption it supports. On the wire it is two
/// 32-bit little-endian integers.
#[derive(Debug, Clone, Copy, PartialEq, Eq, Structural)]
pub struct ClientSecurityData {
    pub encryption_methods: EncryptionMethod,
    pub ext_encryption_methods: u32,
}

/// A client's security data with its methods as bits.
pub struct ClientSecurityDataView {
    pub encryption_methods: u32,
    pub ext_encryption_methods: u32,
}

impl View for ClientSecurityData {
    type V = ClientSecurityDataView;

    open spec fn view(&self) -> ClientSecurityDataView {
        ClientSecurityDataView {
            encryption_methods: self.encryption_methods@,
            ext_encryption_methods: self.ext_encryption_methods,
        }
    }
}

impl PduParsing for ClientSecurityData {
    open spec fn parse(s: Seq<u8>) -> Result<(ClientSecurityDataView, nat), DecodeError> {
        if s.len() < 4 {
            Err(DecodeError::Truncated)
        } else if !EncryptionMethod::known(u32_from_le(s)) {
            Err(DecodeError::InvalidEncryptionMethod)
        } else if s.len() < 8 {
            Err(DecodeError::Truncated)
        } else {
            Ok(
                (
                    ClientSecurityDataView {
                        encryption_methods: u32_from_le(s),
                        ext_encryption_methods: u32_from_le(s.skip(4)),
                    },
                    8,
                ),
            )
        }
    }

    open spec fn wire(v: ClientSecurityDataView) -> Seq<u8> {
        u32_to_le(v.encryption_methods) + u32_to_le(v.ext_encryption_methods)
    }

    open spec fn wire_len(v: ClientSecurityDataView) -> nat {
        8
    }

    open spec fn encodable(v: ClientSecurityDataView) -> bool {
        true
    }

    open spec fn valid(v: ClientSecurityDataView) -> bool {
        EncryptionMethod::known(v.encryption_methods)
    }

    open spec fn canonical(s: Seq<u8>) -> bool {
        true
    }

    fn from_buffer<'a>(stream: &mut ByteReader<'a>) -> (r: Result<Self, DecodeError>) {
        let ghost start = *stream;
        let mut local: ByteReader<'a> = *stream;
        let bits: u32 = match local.read_u32_le() {
            Ok(v) => v,
            Err(e) => { return Err(e); },
        };
        let encryption_methods = match EncryptionMethod::from_bits(bits) {
            Some(m) => m,
            None => { return Err(DecodeError::InvalidEncryptionMethod); },
        };
        proof {
            local.lemma_is_after(&start, 4);
        }
        let ext_encryption_methods: u32 = match local.read_u32_le() {
            Ok(v) => v,
            Err(e) => { return Err(e); },
        };
        *stream = local;
        Ok(ClientSecurityData { encryption_methods, ext_encryption_methods })
    }

    fn to_buffer(&self, out: &mut Vec<u8>) -> (r: Result<(), EncodeError>) {
        put_u32_le(out, self.encryption_methods.bits());
        put_u32_le(out, self.ext_encryption_methods);
        proof {
            assert(out@ =~= old(out)@ + Self::wire(self@));
        }
        Ok(())
    }

    fn buffer_length(&self) -> (n: usize) {
        8
    }

    proof fn lemma_wire_len(v: ClientSecurityDataView) {
    }

    proof fn lemma_round_trip(v: ClientSecurityDataView, rest: Seq<u8>) {
        let s = Self::wire(v) + rest;
        let r0 = u32_to_le(v.ext_encryption_methods) + rest;
        assert(s =~= u32_to_le(v.encryption_methods) + r0);
        assert(s.skip(4) =~= r0);
        lemma_u32_le_round_trip(v.encryption_methods, r0);
        lemma_u32_le_round_trip(v.ext_encryption_methods, rest);
    }

    proof fn lemma_bytes_kept(s: Seq<u8>) {
        lemma_u32_le_bytes_kept(s);
        lemma_u32_le_bytes_kept(s.skip(4));
        assert(s.take(4) + s.skip(4).take(4) =~= s.take(8));
    }

    proof fn lemma_parse_sound(s: Seq<u8>) {
    }
}

} // verus!
