//! The Suppress Output PDU: a tag byte, three bytes of padding, and a
//! rectangle that is on the wire exactly when the tag allows display updates.

use vstd::prelude::*;
use crate::codec::PduParsing;
use crate::error::{DecodeError, EncodeError};
use crate::geometry::InclusiveRectangle;
use crate::reader::ByteReader;
use crate::wire::put_u8;

verus! {

/// Whether the server is to send display updates.
#[derive(Debug, Clone, Copy, PartialEq, Eq, Structural)]
pub enum AllowDisplayUpdatesType {
    SuppressDisplayUpdates,
    AllowDisplayUpdates,
}

impl AllowDisplayUpdatesType {
    /// The type that the tag byte `value` names, if it names one.
    pub open spec fn spec_from_u8(value: u8) -> Option<AllowDisplayUpdatesType> {
        if value == 0x00 {
            Some(AllowDisplayUpdatesType::SuppressDisplayUpdates)
        } else if value == 0x01 {
            Some(AllowDisplayUpdatesType::AllowDisplayUpdates)
        } else {
            None
        }
    }

    /// The tag byte of the type.
    pub open spec fn spec_as_u8(self) -> u8 {
        match self {
            AllowDisplayUpdatesType::SuppressDisplayUpdates => 0x00,
            AllowDisplayUpdatesType::AllowDisplayUpdates => 0x01,
        }
    }

    /// The type that the tag byte names; every byte but `0x00` and `0x01` names none.
    pub fn from_u8(value: u8) -> (r: Option<Self>)
        ensures
            r == Self::spec_from_u8(value),
            r is None <==> value >= 0x02,
    {
        match value {
            0x00 => Some(Self::SuppressDisplayUpdates),
            0x01 => Some(Self::AllowDisplayUpdates),
            _ => None,
        }
    }

    /// The tag byte of the type.
    pub fn as_u8(self) -> (r: u8)
        ensures
            r == self.spec_as_u8(),
            Self::spec_from_u8(r) == Some(self),
    {
        match self {
            AllowDisplayUpdatesType::SuppressDisplayUpdates => 0x00,
            AllowDisplayUpdatesType::AllowDisplayUpdates => 0x01,
        }
    }

    /// A tag byte names a type exactly when it is that type's own tag byte.
    pub proof fn lemma_tag_byte(value: u8, t: AllowDisplayUpdatesType)
        ensures
            Self::spec_from_u8(value) == Some(t) <==> t.spec_as_u8() == value,
    {
    }
}

/// The client's request to stop or resume display updates. The tag byte is
/// not stored: it is `AllowDisplayUpdates` exactly when the rectangle is there.
#[derive(Debug, Clone, PartialEq, Eq)]
pub struct SuppressOutputPdu {
    pub desktop_rect: Option<InclusiveRectangle>,
}

impl View for SuppressOutputPdu {
    type V = SuppressOutputPdu;

    open spec fn view(&self) -> SuppressOutputPdu {
        *self
    }
}

impl SuppressOutputPdu {
    /// The display-update type that the PDU's tag byte says.
    pub open spec fn spec_update_type(self) -> AllowDisplayUpdatesType {
        if self.desktop_rect is Some {
            AllowDisplayUpdatesType::AllowDisplayUpdates
        } else {
            AllowDisplayUpdatesType::SuppressDisplayUpdates
        }
    }

    /// The display-update type that the PDU's tag byte says.
    pub fn update_type(&self) -> (t: AllowDisplayUpdatesType)
        ensures
            t == self.spec_update_type(),
    {
        if self.desktop_rect.is_some() {
            AllowDisplayUpdatesType::AllowDisplayUpdates
        } else {
            AllowDisplayUpdatesType::SuppressDisplayUpdates
        }
    }

    /// A tag byte that names no display-update type is refused, whatever follows it.
    pub proof fn lemma_unknown_tag_rejected(s: Seq<u8>)
        requires
            s.len() >= 1,
            s[0] >= 0x02,
        ensures
            Self::parse(s) == Err::<(SuppressOutputPdu, nat), DecodeError>(
                DecodeError::InvalidDiscriminant,
            ),
    {
    }

    /// With the tag byte `0x00` the decoder takes four bytes and yields no
    /// rectangle, whatever the padding holds and whatever follows it.
    pub proof fn lemma_suppress_has_no_rectangle(s: Seq<u8>)
        requires
            s.len() >= 4,
            s[0] == 0x00,
        ensures
            Self::parse(s) == Ok::<(SuppressOutputPdu, nat), DecodeError>(
                (SuppressOutputPdu { desktop_rect: None }, 4),
            ),
    {
    }

    /// With the tag byte `0x01` the decoder yields the rectangle that the bytes
    /// after the padding encode and takes the four bytes and the rectangle's own.
    pub proof fn lemma_allow_has_rectangle(s: Seq<u8>)
        requires
            s.len() >= 4,
            s[0] == 0x01,
            InclusiveRectangle::parse(s.skip(4)) is Ok,
        ensures
            Self::parse(s) == Ok::<(SuppressOutputPdu, nat), DecodeError>(
                (
                    SuppressOutputPdu {
                        desktop_rect: Some(InclusiveRectangle::parse(s.skip(4))->Ok_0.0),
                    },
                    4 + InclusiveRectangle::wire_len(InclusiveRectangle::parse(s.skip(4))->Ok_0.0),
                ),
            ),
    {
    }
}

impl PduParsing for SuppressOutputPdu {
    open spec fn parse(s: Seq<u8>) -> Result<(SuppressOutputPdu, nat), DecodeError> {
        if s.len() < 1 {
            Err(DecodeError::Truncated)
        } else {
            match AllowDisplayUpdatesType::spec_from_u8(s[0]) {
                None => Err(DecodeError::InvalidDiscriminant),
                Some(t) => if s.len() < 4 {
                    Err(DecodeError::Truncated)
                } else {
                    match t {
                        AllowDisplayUpdatesType::SuppressDisplayUpdates => Ok(
                            (SuppressOutputPdu { desktop_rect: None }, 4),
                        ),
                        AllowDisplayUpdatesType::AllowDisplayUpdates => match InclusiveRectangle::parse(
                            s.skip(4),
                        ) {
                            Ok((rect, n)) => Ok(
                                (SuppressOutputPdu { desktop_rect: Some(rect) }, 4 + n),
                            ),
                            Err(_) => Err(DecodeError::InvalidTrailer),
                        },
                    }
                },
            }
        }
    }

    open spec fn wire(v: SuppressOutputPdu) -> Seq<u8> {
        seq![v.spec_update_type().spec_as_u8(), 0u8, 0u8, 0u8] + match v.desktop_rect {
            Some(rect) => InclusiveRectangle::wire(rect),
            None => Seq::<u8>::empty(),
        }
    }

    open spec fn wire_len(v: SuppressOutputPdu) -> nat {
        4 + match v.desktop_rect {
            Some(rect) => InclusiveRectangle::wire_len(rect),
            None => 0,
        }
    }

    open spec fn encodable(v: SuppressOutputPdu) -> bool {
        true
    }

    open spec fn valid(v: SuppressOutputPdu) -> bool {
        true
    }

    open spec fn canonical(s: Seq<u8>) -> bool {
        s.len() >= 4 ==> s[1] == 0 && s[2] == 0 && s[3] == 0
    }

    fn from_buffer<'a>(stream: &mut ByteReader<'a>) -> (r: Result<Self, DecodeError>) {
        let ghost start = *stream;
        let mut local: ByteReader<'a> = *stream;
        let tag: u8 = match local.read_u8() {
            Ok(v) => v,
            Err(e) => { return Err(e); },
        };
        let allow_display_updates = match AllowDisplayUpdatesType::from_u8(tag) {
            Some(t) => t,
            None => { return Err(DecodeError::InvalidDiscriminant); },
        };
        let mut i: usize = 0;
        while i < 3
            invariant
                i <= 3,
                start == *old(stream),
                start.wf(),
                start.remaining().len() >= 1,
                AllowDisplayUpdatesType::spec_from_u8(start.remaining()[0]) is Some,
                local.is_after(&start, (1 + i) as nat),
            decreases 3 - i,
        {
            proof {
                local.lemma_is_after(&start, (1 + i) as nat);
            }
            match local.read_u8() {
                Ok(_padding) => {},
                Err(e) => { return Err(e); },
            }
            i = i + 1;
        }
        proof {
            local.lemma_is_after(&start, 4);
        }
        let desktop_rect = match allow_display_updates {
            AllowDisplayUpdatesType::AllowDisplayUpdates => match InclusiveRectangle::from_buffer(
                &mut local,
            ) {
                Ok(rect) => Some(rect),
                Err(_) => { return Err(DecodeError::InvalidTrailer); },
            },
            AllowDisplayUpdatesType::SuppressDisplayUpdates => None,
        };
        *stream = local;
        Ok(SuppressOutputPdu { desktop_rect })
    }

    fn to_buffer(&self, out: &mut Vec<u8>) -> (r: Result<(), EncodeError>) {
        let allow_display_updates = self.update_type();
        put_u8(out, allow_display_updates.as_u8());
        put_u8(out, 0);
        put_u8(out, 0);
        put_u8(out, 0);
        assert(out@ =~= old(out)@ + seq![self.spec_update_type().spec_as_u8(), 0u8, 0u8, 0u8]);
        match &self.desktop_rect {
            Some(rect) => {
                let _ = rect.to_buffer(out);
                assert(out@ =~= old(out)@ + Self::wire(*self));
            },
            None => {
                assert(out@ =~= old(out)@ + Self::wire(*self));
            },
        }
        Ok(())
    }

    fn buffer_length(&self) -> (n: usize) {
        proof {
            Self::lemma_wire_len(*self);
        }
        match &self.desktop_rect {
            Some(rect) => 4 + rect.buffer_length(),
            None => 4,
        }
    }

    proof fn lemma_wire_len(v: SuppressOutputPdu) {
        match v.desktop_rect {
            Some(rect) => InclusiveRectangle::lemma_wire_len(rect),
            None => {},
        }
    }

    proof fn lemma_round_trip(v: SuppressOutputPdu, rest: Seq<u8>) {
        let s = Self::wire(v) + rest;
        match v.desktop_rect {
            Some(rect) => {
                assert(s.skip(4) =~= InclusiveRectangle::wire(rect) + rest);
                InclusiveRectangle::lemma_round_trip(rect, rest);
                InclusiveRectangle::lemma_wire_len(rect);
                assert(s[0] == 0x01);
            },
            None => {
                assert(s[0] == 0x00);
            },
        }
    }

    proof fn lemma_bytes_kept(s: Seq<u8>) {
        assert(s.take(4) =~= seq![s[0], 0u8, 0u8, 0u8]);
        if s[0] == 0x01 {
            InclusiveRectangle::lemma_bytes_kept(s.skip(4));
            assert(s.take(4) + s.skip(4).take(8) =~= s.take(12));
        } else {
            assert(s.take(4) + Seq::<u8>::empty() =~= s.take(4));
        }
    }

    proof fn lemma_parse_sound(s: Seq<u8>) {
        if s.len() >= 4 && s[0] == 0x01 {
            InclusiveRectangle::lemma_parse_sound(s.skip(4));
        }
    }
}

} // verus!
