//! The server's security data: the encryption method and level it selected
//! and, unless both say that nothing is encrypted, its random and its
//! certificate, each behind a 32-bit length.

use vstd::prelude::*;
use crate::codec::PduParsing;
use crate::error::{DecodeError, EncodeError};
use crate::reader::ByteReader;
use crate::security_data::{EncryptionLevel, EncryptionMethod};
use crate::wire::{
    lemma_u32_le_bytes_kept, lemma_u32_le_round_trip, put_bytes, put_u32_le, u32_from_le,
    u32_to_le,
};

verus! {

/// What a server answers on encryption.
#[derive(Debug, Clone, PartialEq, Eq)]
pub struct ServerSecurityData {
    pub encryption_method: EncryptionMethod,
    pub encryption_level: EncryptionLevel,
    pub server_random: Option<[u8; 32]>,
    pub server_cert: Vec<u8>,
}

/// A server's security data with its byte fields as sequences.
pub struct ServerSecurityDataView {
    pub encryption_method: u32,
    pub encryption_level: EncryptionLevel,
    pub server_random: Option<Seq<u8>>,
    pub server_cert: Seq<u8>,
}

impl View for ServerSecurityData {
    type V = ServerSecurityDataView;

    open spec fn view(&self) -> ServerSecurityDataView {
        ServerSecurityDataView {
            encryption_method: self.encryption_method@,
            encryption_level: self.encryption_level,
            server_random: match self.server_random {
                Some(random) => Some(random@),
                None => None,
            },
            server_cert: self.server_cert@,
        }
    }
}

impl ServerSecurityDataView {
    /// Method and level both say that nothing is encrypted.
    pub open spec fn required_empty(self) -> bool {
        self.encryption_method == 0 && self.encryption_level
            == EncryptionLevel::NoEncryption
    }

    /// A random or a certificate is there.
    pub open spec fn has_optional(self) -> bool {
        self.server_random is Some || self.server_cert.len() > 0
    }

    /// Random and certificate are there exactly when method and level ask for them.
    pub open spec fn consistent(self) -> bool {
        if self.required_empty() {
            !self.has_optional()
        } else {
            self.server_random is Some
        }
    }

    /// The bytes of the random and the certificate, each behind its length;
    /// a random that is missing beside a certificate has the length zero.
    pub open spec fn optional_wire(self) -> Seq<u8> {
        if self.has_optional() {
            (match self.server_random {
                Some(random) => u32_to_le(random.len() as u32) + random,
                None => u32_to_le(0),
            }) + u32_to_le(self.server_cert.len() as u32) + self.server_cert
        } else {
            Seq::<u8>::empty()
        }
    }
}

/// What a decoder makes of a length-prefixed random at the start of `s`: its
/// 32 bytes and the 36 bytes taken. A length other than 32, or more than the
/// bytes that follow it, is a mismatch.
pub open spec fn parse_random(s: Seq<u8>) -> Result<(Seq<u8>, nat), DecodeError> {
    if s.len() < 4 {
        Err(DecodeError::Truncated)
    } else if u32_from_le(s) != 32 || s.len() - 4 < 32 {
        Err(DecodeError::LengthMismatch)
    } else {
        Ok((s.subrange(4, 36), 36))
    }
}

/// What a decoder makes of a length-prefixed certificate at the start of `s`:
/// as many bytes as the length says. A length that is more than the bytes that
/// follow it is a mismatch.
pub open spec fn parse_cert(s: Seq<u8>) -> Result<(Seq<u8>, nat), DecodeError> {
    if s.len() < 4 {
        Err(DecodeError::Truncated)
    } else if s.len() - 4 < u32_from_le(s) {
        Err(DecodeError::LengthMismatch)
    } else {
        Ok((s.subrange(4, 4 + u32_from_le(s)), (4 + u32_from_le(s)) as nat))
    }
}

/// What a decoder makes of a random followed by a certificate.
pub open spec fn parse_optional(s: Seq<u8>) -> Result<(Seq<u8>, Seq<u8>, nat), DecodeError> {
    match parse_random(s) {
        Err(e) => Err(e),
        Ok((random, n)) => match parse_cert(s.skip(n as int)) {
            Err(e) => Err(e),
            Ok((cert, m)) => Ok((random, cert, n + m)),
        },
    }
}

/// Reads a length-prefixed random. The reader moves only on success.
pub fn read_random<'a>(stream: &mut ByteReader<'a>) -> (r: Result<[u8; 32], DecodeError>)
    requires
        old(stream).wf(),
    ensures
        match parse_random(old(stream).remaining()) {
            Ok((random, n)) => r is Ok && r->Ok_0@ == random && final(stream).is_after(
                old(stream),
                n,
            ),
            Err(e) => r is Err && r->Err_0 == e && final(stream).is_after(old(stream), 0),
        },
{
    let ghost start = *stream;
    let mut local: ByteReader<'a> = *stream;
    let declared: u32 = match local.read_u32_le() {
        Ok(v) => v,
        Err(e) => { return Err(e); },
    };
    proof {
        local.lemma_is_after(&start, 4);
    }
    if declared != 32 || local.remaining_len() < 32 {
        return Err(DecodeError::LengthMismatch);
    }
    match local.read_32_bytes() {
        Ok(random) => {
            assert(random@ =~= start.remaining().subrange(4, 36));
            *stream = local;
            Ok(random)
        },
        Err(e) => Err(e),
    }
}

/// Reads a length-prefixed certificate. The declared length is held against
/// the bytes that are left before anything is allocated. The reader moves only
/// on success.
pub fn read_cert<'a>(stream: &mut ByteReader<'a>) -> (r: Result<Vec<u8>, DecodeError>)
    requires
        old(stream).wf(),
    ensures
        match parse_cert(old(stream).remaining()) {
            Ok((cert, n)) => r is Ok && r->Ok_0@ == cert && final(stream).is_after(old(stream), n),
            Err(e) => r is Err && r->Err_0 == e && final(stream).is_after(old(stream), 0),
        },
{
    let ghost start = *stream;
    let mut local: ByteReader<'a> = *stream;
    let declared: u32 = match local.read_u32_le() {
        Ok(v) => v,
        Err(e) => { return Err(e); },
    };
    proof {
        local.lemma_is_after(&start, 4);
    }
    let left: usize = local.remaining_len();
    if left < 0xffff_ffff && (left as u32) < declared {
        return Err(DecodeError::LengthMismatch);
    }
    match local.read_bytes(declared as usize) {
        Ok(cert) => {
            assert(cert@ =~= start.remaining().subrange(4, 4 + declared));
            *stream = local;
            Ok(cert)
        },
        Err(e) => Err(e),
    }
}

impl ServerSecurityData {
    /// Whether random and certificate are there exactly when method and level
    /// ask for them. A value for which this is false can be built and encoded,
    /// but no decoder produces it.
    pub fn is_consistent(&self) -> (r: bool)
        ensures
            r == self@.consistent(),
    {
        if self.encryption_method.is_empty() && self.encryption_level
            == EncryptionLevel::NoEncryption {
            self.server_random.is_none() && self.server_cert.len() == 0
        } else {
            self.server_random.is_some()
        }
    }

    /// A declared random length that is more than the bytes after it is a
    /// length mismatch, whatever those bytes are.
    pub proof fn lemma_overlong_random_rejected(s: Seq<u8>)
        requires
            s.len() >= 12,
            EncryptionMethod::known(u32_from_le(s)),
            EncryptionLevel::spec_from_u32(u32_from_le(s.skip(4))) is Some,
            !(u32_from_le(s) == 0 && u32_from_le(s.skip(4)) == 0),
            u32_from_le(s.skip(8)) > s.len() - 12,
        ensures
            Self::parse(s) == Err::<(ServerSecurityDataView, nat), DecodeError>(
                DecodeError::LengthMismatch,
            ),
    {
    }

    /// A declared certificate length that is more than the bytes after it is a
    /// length mismatch.
    pub proof fn lemma_overlong_cert_rejected(s: Seq<u8>)
        requires
            s.len() >= 48,
            EncryptionMethod::known(u32_from_le(s)),
            EncryptionLevel::spec_from_u32(u32_from_le(s.skip(4))) is Some,
            !(u32_from_le(s) == 0 && u32_from_le(s.skip(4)) == 0),
            u32_from_le(s.skip(8)) == 32,
            u32_from_le(s.skip(44)) > s.len() - 48,
        ensures
            Self::parse(s) == Err::<(ServerSecurityDataView, nat), DecodeError>(
                DecodeError::LengthMismatch,
            ),
    {
        assert(s.skip(8).skip(36) =~= s.skip(44));
    }

    /// Where method and level both say that nothing is encrypted, the decoder
    /// takes eight bytes and leaves what follows them unread.
    pub proof fn lemma_empty_required_stops(s: Seq<u8>)
        requires
            s.len() >= 8,
            u32_from_le(s) == 0,
            u32_from_le(s.skip(4)) == 0,
        ensures
            Self::parse(s) == Ok::<(ServerSecurityDataView, nat), DecodeError>(
                (
                    ServerSecurityDataView {
                        encryption_method: 0,
                        encryption_level: EncryptionLevel::NoEncryption,
                        server_random: None,
                        server_cert: Seq::<u8>::empty(),
                    },
                    8,
                ),
            ),
    {
        assert(0u32 & !0x1bu32 == 0) by (bit_vector);
    }

    /// Where method or level says that something is encrypted, a successful
    /// decoding holds the random and the certificate byte for byte as they
    /// stand behind their lengths, also where only one of the two says so.
    pub proof fn lemma_optional_fields_kept(s: Seq<u8>)
        requires
            Self::parse(s) is Ok,
            !Self::parse(s)->Ok_0.0.required_empty(),
        ensures
            s.len() >= 48 + u32_from_le(s.skip(44)),
            Self::parse(s)->Ok_0.0.server_random == Some(s.subrange(12, 44)),
            Self::parse(s)->Ok_0.0.server_cert == s.subrange(48, 48 + u32_from_le(s.skip(44))),
            Self::parse(s)->Ok_0.1 == 48 + u32_from_le(s.skip(44)),
    {
        let t = s.skip(8);
        assert(t.skip(36) =~= s.skip(44));
        assert(t.subrange(4, 36) =~= s.subrange(12, 44));
        let n = u32_from_le(s.skip(44));
        assert(t.skip(36).subrange(4, 4 + n) =~= s.subrange(48, 48 + n));
    }
}

impl PduParsing for ServerSecurityData {
    open spec fn parse(s: Seq<u8>) -> Result<(ServerSecurityDataView, nat), DecodeError> {
        if s.len() < 4 {
            Err(DecodeError::Truncated)
        } else if !EncryptionMethod::known(u32_from_le(s)) {
            Err(DecodeError::InvalidEncryptionMethod)
        } else if s.len() < 8 {
            Err(DecodeError::Truncated)
        } else {
            match EncryptionLevel::spec_from_u32(u32_from_le(s.skip(4))) {
                None => Err(DecodeError::InvalidEncryptionLevel),
                Some(level) => if u32_from_le(s) == 0 && level == EncryptionLevel::NoEncryption {
                    Ok(
                        (
                            ServerSecurityDataView {
                                encryption_method: 0,
                                encryption_level: level,
                                server_random: None,
                                server_cert: Seq::<u8>::empty(),
                            },
                            8,
                        ),
                    )
                } else {
                    match parse_optional(s.skip(8)) {
                        Err(e) => Err(e),
                        Ok((random, cert, n)) => Ok(
                            (
                                ServerSecurityDataView {
                                    encryption_method: u32_from_le(s),
                                    encryption_level: level,
                                    server_random: Some(random),
                                    server_cert: cert,
                                },
                                8 + n,
                            ),
                        ),
                    }
                },
            }
        }
    }

    open spec fn wire(v: ServerSecurityDataView) -> Seq<u8> {
        u32_to_le(v.encryption_method) + u32_to_le(v.encryption_level.spec_to_u32())
            + v.optional_wire()
    }

    open spec fn wire_len(v: ServerSecurityDataView) -> nat {
        if v.has_optional() {
            16 + (match v.server_random {
                Some(random) => random.len(),
                None => 0,
            }) + v.server_cert.len()
        } else {
            8
        }
    }

    open spec fn encodable(v: ServerSecurityDataView) -> bool {
        &&& v.server_cert.len() <= u32::MAX
        &&& v.server_random is Some ==> v.server_random->Some_0.len() <= u32::MAX
    }

    open spec fn valid(v: ServerSecurityDataView) -> bool {
        &&& EncryptionMethod::known(v.encryption_method)
        &&& v.consistent()
        &&& v.server_cert.len() <= u32::MAX
        &&& v.server_random is Some ==> v.server_random->Some_0.len() == 32
    }

    open spec fn canonical(s: Seq<u8>) -> bool {
        true
    }

    fn from_buffer<'a>(stream: &mut ByteReader<'a>) -> (r: Result<Self, DecodeError>) {
        let ghost start = *stream;
        let mut local: ByteReader<'a> = *stream;
        let bits: u32 = match local.read_u32_le() {
            Ok(v) => v,
            Err(e) => { return Err(e); },
        };
        let encryption_method = match EncryptionMethod::from_bits(bits) {
            Some(m) => m,
            None => { return Err(DecodeError::InvalidEncryptionMethod); },
        };
        proof {
            local.lemma_is_after(&start, 4);
        }
        let number: u32 = match local.read_u32_le() {
            Ok(v) => v,
            Err(e) => { return Err(e); },
        };
        let encryption_level = match EncryptionLevel::from_u32(number) {
            Some(l) => l,
            None => { return Err(DecodeError::InvalidEncryptionLevel); },
        };
        proof {
            local.lemma_is_after(&start, 8);
        }
        if encryption_method.is_empty() && encryption_level == EncryptionLevel::NoEncryption {
            *stream = local;
            return Ok(
                ServerSecurityData {
                    encryption_method,
                    encryption_level,
                    server_random: None,
                    server_cert: Vec::new(),
                },
            );
        }
        let ghost mid = local;
        let random: [u8; 32] = match read_random(&mut local) {
            Ok(v) => v,
            Err(e) => { return Err(e); },
        };
        proof {
            local.lemma_is_after(&mid, 36);
        }
        let server_cert: Vec<u8> = match read_cert(&mut local) {
            Ok(v) => v,
            Err(e) => { return Err(e); },
        };
        *stream = local;
        Ok(
            ServerSecurityData {
                encryption_method,
                encryption_level,
                server_random: Some(random),
                server_cert,
            },
        )
    }

    fn to_buffer(&self, out: &mut Vec<u8>) -> (r: Result<(), EncodeError>) {
        let cert_len: usize = self.server_cert.len();
        if cert_len > 0xffff_ffff {
            return Err(EncodeError::FieldTooLong);
        }
        proof {
            Self::lemma_wire_len(self@);
        }
        put_u32_le(out, self.encryption_method.bits());
        put_u32_le(out, self.encryption_level.to_u32());
        if self.server_random.is_some() || cert_len > 0 {
            match &self.server_random {
                Some(random) => {
                    put_u32_le(out, 32);
                    put_bytes(out, random.as_slice());
                },
                None => {
                    put_u32_le(out, 0);
                },
            }
            put_u32_le(out, cert_len as u32);
            put_bytes(out, self.server_cert.as_slice());
        }
        assert(out@ =~= old(out)@ + Self::wire(self@));
        Ok(())
    }

    fn buffer_length(&self) -> (n: usize) {
        proof {
            Self::lemma_wire_len(self@);
        }
        if self.server_random.is_some() || self.server_cert.len() > 0 {
            let random_len: usize = match &self.server_random {
                Some(_) => 32,
                None => 0,
            };
            16 + random_len + self.server_cert.len()
        } else {
            8
        }
    }

    proof fn lemma_wire_len(v: ServerSecurityDataView) {
    }

    proof fn lemma_round_trip(v: ServerSecurityDataView, rest: Seq<u8>) {
        let s = Self::wire(v) + rest;
        let tail = v.optional_wire() + rest;
        let r0 = u32_to_le(v.encryption_level.spec_to_u32()) + tail;
        assert(s =~= u32_to_le(v.encryption_method) + r0);
        assert(s.skip(4) =~= r0);
        assert(s.skip(8) =~= tail);
        lemma_u32_le_round_trip(v.encryption_method, r0);
        lemma_u32_le_round_trip(v.encryption_level.spec_to_u32(), tail);
        if v.required_empty() {
            assert(Self::parse(s)->Ok_0.0.server_cert =~= v.server_cert);
        } else {
            let random = v.server_random->Some_0;
            let cert = v.server_cert;
            let c0 = u32_to_le(cert.len() as u32) + cert + rest;
            let t0 = random + c0;
            assert(tail =~= u32_to_le(32) + t0);
            lemma_u32_le_round_trip(32, t0);
            assert(tail.subrange(4, 36) =~= random);
            assert(tail.skip(36) =~= c0);
            assert(c0 =~= u32_to_le(cert.len() as u32) + (cert + rest));
            lemma_u32_le_round_trip(cert.len() as u32, cert + rest);
            assert(c0.subrange(4, (4 + cert.len()) as int) =~= cert);
        }
    }

    proof fn lemma_bytes_kept(s: Seq<u8>) {
        let v = Self::parse(s)->Ok_0.0;
        lemma_u32_le_bytes_kept(s);
        lemma_u32_le_bytes_kept(s.skip(4));
        let head = s.take(4) + s.skip(4).take(4);
        assert(head =~= s.take(8));
        if v.required_empty() {
            assert(head + Seq::<u8>::empty() =~= s.take(8));
        } else {
            Self::lemma_optional_fields_kept(s);
            lemma_u32_le_bytes_kept(s.skip(8));
            lemma_u32_le_bytes_kept(s.skip(44));
            let n = u32_from_le(s.skip(44));
            assert(v.optional_wire() =~= s.subrange(8, 48 + n));
            assert(head + s.subrange(8, 48 + n) =~= s.take(48 + n));
        }
    }

    proof fn lemma_parse_sound(s: Seq<u8>) {
        let v = Self::parse(s)->Ok_0.0;
        if v.required_empty() {
            assert(0u32 & !0x1bu32 == 0) by (bit_vector);
        } else {
            Self::lemma_optional_fields_kept(s);
        }
    }
}

} // verus!
