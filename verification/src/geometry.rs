//! The rectangle that a control PDU may carry.

use vstd::prelude::*;
use crate::codec::PduParsing;
use crate::error::{DecodeError, EncodeError};
use crate::reader::ByteReader;
use crate::wire::{
    lemma_u16_le_bytes_kept, lemma_u16_le_round_trip, put_u16_le, u16_from_le, u16_to_le,
};

verus! {

/// A rectangle given by its four edges, each included. On the wire it is four
/// 16-bit little-endian integers: left, top, right, bottom.
#[derive(Debug, Clone, Copy, PartialEq, Eq, Structural)]
pub struct InclusiveRectangle {
    pub left: u16,
    pub top: u16,
    pub right: u16,
    pub bottom: u16,
}

impl View for InclusiveRectangle {
    type V = InclusiveRectangle;

    open spec fn view(&self) -> InclusiveRectangle {
        *self
    }
}

impl PduParsing for InclusiveRectangle {
    open spec fn parse(s: Seq<u8>) -> Result<(InclusiveRectangle, nat), DecodeError> {
        if s.len() < 8 {
            Err(DecodeError::Truncated)
        } else {
            Ok(
                (
                    InclusiveRectangle {
                        left: u16_from_le(s),
                        top: u16_from_le(s.skip(2)),
                        right: u16_from_le(s.skip(4)),
                        bottom: u16_from_le(s.skip(6)),
                    },
                    8,
                ),
            )
        }
    }

    open spec fn wire(v: InclusiveRectangle) -> Seq<u8> {
        u16_to_le(v.left) + u16_to_le(v.top) + u16_to_le(v.right) + u16_to_le(v.bottom)
    }

    open spec fn wire_len(v: InclusiveRectangle) -> nat {
        8
    }

    open spec fn encodable(v: InclusiveRectangle) -> bool {
        true
    }

    open spec fn valid(v: InclusiveRectangle) -> bool {
        true
    }

    open spec fn canonical(s: Seq<u8>) -> bool {
        true
    }

    fn from_buffer<'a>(stream: &mut ByteReader<'a>) -> (r: Result<Self, DecodeError>) {
        let ghost start = *stream;
        let mut local: ByteReader<'a> = *stream;
        let left: u16 = match local.read_u16_le() {
            Ok(v) => v,
            Err(e) => { return Err(e); },
        };
        proof {
            local.lemma_is_after(&start, 2);
        }
        let top: u16 = match local.read_u16_le() {
            Ok(v) => v,
            Err(e) => { return Err(e); },
        };
        proof {
            local.lemma_is_after(&start, 4);
        }
        let right: u16 = match local.read_u16_le() {
            Ok(v) => v,
            Err(e) => { return Err(e); },
        };
        proof {
            local.lemma_is_after(&start, 6);
        }
        let bottom: u16 = match local.read_u16_le() {
            Ok(v) => v,
            Err(e) => { return Err(e); },
        };
        *stream = local;
        Ok(InclusiveRectangle { left, top, right, bottom })
    }

    fn to_buffer(&self, out: &mut Vec<u8>) -> (r: Result<(), EncodeError>) {
        put_u16_le(out, self.left);
        put_u16_le(out, self.top);
        put_u16_le(out, self.right);
        put_u16_le(out, self.bottom);
        proof {
            assert(out@ =~= old(out)@ + Self::wire(*self));
        }
        Ok(())
    }

    fn buffer_length(&self) -> (n: usize) {
        8
    }

    proof fn lemma_wire_len(v: InclusiveRectangle) {
    }

    proof fn lemma_round_trip(v: InclusiveRectangle, rest: Seq<u8>) {
        let s = Self::wire(v) + rest;
        let r3 = rest;
        let r2 = u16_to_le(v.bottom) + r3;
        let r1 = u16_to_le(v.right) + r2;
        let r0 = u16_to_le(v.top) + r1;
        assert(s =~= u16_to_le(v.left) + r0);
        assert(s.skip(2) =~= r0);
        assert(s.skip(4) =~= r1);
        assert(s.skip(6) =~= r2);
        lemma_u16_le_round_trip(v.left, r0);
        lemma_u16_le_round_trip(v.top, r1);
        lemma_u16_le_round_trip(v.right, r2);
        lemma_u16_le_round_trip(v.bottom, r3);
    }

    proof fn lemma_bytes_kept(s: Seq<u8>) {
        lemma_u16_le_bytes_kept(s);
        lemma_u16_le_bytes_kept(s.skip(2));
        lemma_u16_le_bytes_kept(s.skip(4));
        lemma_u16_le_bytes_kept(s.skip(6));
        assert(s.take(2) + s.skip(2).take(2) + s.skip(4).take(2) + s.skip(6).take(2) =~= s.take(8));
    }

    proof fn lemma_parse_sound(s: Seq<u8>) {
    }
}

} // verus!
