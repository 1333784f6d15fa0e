use vstd::prelude::*;

verus! {

/// Why decoding stopped. Decoding is all-or-nothing: after any of these the
/// caller has no image.
#[derive(Clone, Copy, Debug, PartialEq, Eq, Structural)]
pub enum DecodeError {
    /// The byte source ended before the value being read was complete.
    UnexpectedEof,
    /// The first four bytes are not the format's magic.
    BadMagic,
    /// A cache index outside `0..64`; the value is the offending index.
    IllegalIndex(u8),
    /// A run-length field outside `0..62`; the value is the offending field.
    IllegalRunLength(u8),
    /// A tag whose prefix selects no opcode; the value is the offending tag.
    UnknownTag(u8),
    /// `width * height * 4` is more than `isize::MAX`, the most bytes that a
    /// buffer can hold.
    TooLarge,
}

} // verus!
