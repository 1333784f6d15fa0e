use crate::error::DecodeError;
use vstd::prelude::*;

verus! {

/// The tag of a literal pixel without alpha.
pub const TAG_RGB: u8 = 0xFE;

/// The tag of a literal pixel with alpha.
pub const TAG_RGBA: u8 = 0xFF;

/// The six ways in which a tag byte says how the next pixels are derived.
/// The fields hold the tag's low bits as stored, before any bias is taken
/// off.
#[derive(Clone, Copy, Debug, PartialEq, Eq, Structural)]
pub enum Opcode {
    /// Three payload bytes give red, green and blue; alpha carries over.
    Rgb,
    /// Four payload bytes give red, green, blue and alpha.
    Rgba,
    /// The pixel is the cache entry at `index`, which is below 64.
    Index { index: u8 },
    /// Each channel moves by its field less 2; each field is below 4.
    Diff { dr: u8, dg: u8, db: u8 },
    /// Green moves by `dg` less 32, with `dg` below 64; one payload byte
    /// says how red and blue move relative to green.
    Luma { dg: u8 },
    /// The last pixel is repeated `length` times, from 1 to 62.
    Run { length: u8 },
}

/// The opcode that a tag byte selects. The two literal tags are told apart
/// first, by the whole byte; only then do the top two bits decide. Their
/// bit patterns would otherwise read as runs of 63 and 64.
pub open spec fn opcode_of(tag: u8) -> Opcode {
    if tag == TAG_RGB {
        Opcode::Rgb
    } else if tag == TAG_RGBA {
        Opcode::Rgba
    } else if tag / 64 == 0 {
        Opcode::Index { index: tag % 64 }
    } else if tag / 64 == 1 {
        Opcode::Diff { dr: tag / 16 % 4, dg: tag / 4 % 4, db: tag % 4 }
    } else if tag / 64 == 2 {
        Opcode::Luma { dg: tag % 64 }
    } else {
        Opcode::Run { length: (tag % 64 + 1) as u8 }
    }
}

impl Opcode {
    /// The fields are in the ranges that the encoding allows.
    pub open spec fn wf(self) -> bool {
        match self {
            Opcode::Rgb | Opcode::Rgba => true,
            Opcode::Index { index } => index < 64,
            Opcode::Diff { dr, dg, db } => dr < 4 && dg < 4 && db < 4,
            Opcode::Luma { dg } => dg < 64,
            Opcode::Run { length } => 1 <= length <= 62,
        }
    }

    /// The number of bytes that follow the tag.
    pub open spec fn payload_len(self) -> nat {
        match self {
            Opcode::Rgb => 3,
            Opcode::Rgba => 4,
            Opcode::Luma { .. } => 1,
            _ => 0,
        }
    }

    /// A cache lookup from a six-bit index field. A field of 64 or more is
    /// rejected.
    pub fn index(field: u8) -> (result: Result<Opcode, DecodeError>)
        ensures
            field < 64 ==> result == Ok::<Opcode, DecodeError>(Opcode::Index { index: field }),
            field >= 64 ==> result == Err::<Opcode, DecodeError>(DecodeError::IllegalIndex(field)),
    {
        if field > 63 {
            Err(DecodeError::IllegalIndex(field))
        } else {
            Ok(Opcode::Index { index: field })
        }
    }

    /// A run from its length field, which holds the length less 1. A field
    /// of 62 or more is rejected: those two bit patterns are the literal
    /// tags.
    pub fn run(field: u8) -> (result: Result<Opcode, DecodeError>)
        ensures
            field < 62 ==> result == Ok::<Opcode, DecodeError>(
                Opcode::Run { length: (field + 1) as u8 },
            ),
            field >= 62 ==> result == Err::<Opcode, DecodeError>(
                DecodeError::IllegalRunLength(field),
            ),
    {
        if field > 61 {
            Err(DecodeError::IllegalRunLength(field))
        } else {
            Ok(Opcode::Run { length: field + 1 })
        }
    }

    /// Tells which opcode a tag byte selects. Every byte selects one: the
    /// checks on index, run length and prefix never fail on a tag, which is
    /// what the contract says.
    pub fn from_tag(tag: u8) -> (result: Result<Opcode, DecodeError>)
        ensures
            result == Ok::<Opcode, DecodeError>(opcode_of(tag)),
            opcode_of(tag).wf(),
    {
        if tag == TAG_RGB {
            return Ok(Opcode::Rgb);
        }
        if tag == TAG_RGBA {
            return Ok(Opcode::Rgba);
        }
        let prefix: u8 = tag >> 6;
        let low: u8 = tag & 0x3f;
        assert(tag >> 6 == tag / 64 && tag & 0x3f == tag % 64) by (bit_vector);
        if prefix == 0 {
            Opcode::index(low)
        } else if prefix == 1 {
            let dr: u8 = (tag >> 4) & 0x03;
            let dg: u8 = (tag >> 2) & 0x03;
            let db: u8 = tag & 0x03;
            assert((tag >> 4) & 0x03 == tag / 16 % 4 && (tag >> 2) & 0x03 == tag / 4 % 4 && tag
                & 0x03 == tag % 4) by (bit_vector);
            Ok(Opcode::Diff { dr, dg, db })
        } else if prefix == 2 {
            Ok(Opcode::Luma { dg: low })
        } else if prefix == 3 {
            Opcode::run(low)
        } else {
            Err(DecodeError::UnknownTag(tag))
        }
    }
}

/// Every tag byte selects a well-formed opcode, and a run is never longer
/// than 62: the literal tags take the place of lengths 63 and 64.
pub proof fn lemma_opcode_of_wf(tag: u8)
    ensures
        opcode_of(tag).wf(),
{
}

} // verus!
