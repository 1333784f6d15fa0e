use crate::color::Color;
use crate::decoder::Decoder;
use crate::error::DecodeError;
use crate::lemmas::{
    lemma_decode_split, lemma_prepend_empty, lemma_prepend_prepend, lemma_rgba_bytes_concat,
};
use crate::model::{decode, prepend, rgba_bytes, Decoded, DecoderState};
use crate::reader::{be_u32, Reader};
use vstd::prelude::*;

verus! {

/// The number of bytes in a header.
pub const HEADER_LEN: usize = 14;

/// The fixed preamble of an image: its size and two descriptive tags that
/// do not affect decoding.
#[derive(Clone, Copy, Debug, PartialEq, Eq, Structural)]
pub struct Header {
    /// Pixel columns.
    pub width: usize,
    /// Pixel rows.
    pub height: usize,
    /// 3 for RGB, 4 for RGBA.
    pub channels: u8,
    /// 0 for sRGB with linear alpha, 1 for all channels linear.
    pub colorspace: u8,
}

/// `bytes` starts with the four magic bytes, `qoif` in ASCII.
pub open spec fn starts_with_magic(bytes: Seq<u8>) -> bool {
    &&& bytes.len() >= 4
    &&& bytes[0] == 0x71
    &&& bytes[1] == 0x6f
    &&& bytes[2] == 0x69
    &&& bytes[3] == 0x66
}

/// The header that `source` holds at `position`, or why it holds none.
/// The layout is: magic, width and height as big-endian 32-bit integers,
/// channel count, colorspace tag. The magic is judged as soon as its four
/// bytes are there.
pub open spec fn parse_header(source: Seq<u8>, position: int) -> Result<Header, DecodeError> {
    let rest = source.skip(position);
    if rest.len() < 4 {
        Err(DecodeError::UnexpectedEof)
    } else if !starts_with_magic(rest) {
        Err(DecodeError::BadMagic)
    } else if rest.len() < HEADER_LEN {
        Err(DecodeError::UnexpectedEof)
    } else {
        Ok(
            Header {
                width: be_u32(rest.skip(4)) as usize,
                height: be_u32(rest.skip(8)) as usize,
                channels: rest[12],
                colorspace: rest[13],
            },
        )
    }
}

/// How many bytes parsing a header at `position` consumes. A field is
/// consumed whole or not at all, so a source that ends inside a field is
/// left standing at that field's start; a wrong magic costs its four bytes.
pub open spec fn header_consumed(source: Seq<u8>, position: int) -> nat {
    let available = source.len() - position;
    if available < 4 {
        0
    } else if !starts_with_magic(source.skip(position)) || available < 8 {
        4
    } else if available < 12 {
        8
    } else if available < 13 {
        12
    } else if available < 14 {
        13
    } else {
        14
    }
}

/// A wrong magic is found out as soon as its four bytes are read: parsing
/// fails with [`DecodeError::BadMagic`] whatever follows, and consumes those
/// four bytes and nothing of what comes after the header.
pub proof fn lemma_bad_magic(source: Seq<u8>, position: int)
    requires
        0 <= position,
        position + 4 <= source.len(),
        !starts_with_magic(source.skip(position)),
    ensures
        parse_header(source, position) == Err::<Header, DecodeError>(DecodeError::BadMagic),
        header_consumed(source, position) == 4,
        decode_image(source, position) == Err::<(Header, Decoded), DecodeError>(
            DecodeError::BadMagic,
        ),
{
}

/// A header is either parsed whole, which takes its 14 bytes, or not parsed
/// at all, which takes fewer: no failure reaches into the opcodes.
pub proof fn lemma_header_consumed(source: Seq<u8>, position: int)
    requires
        0 <= position <= source.len(),
    ensures
        parse_header(source, position) is Ok <==> header_consumed(source, position)
            == HEADER_LEN,
        header_consumed(source, position) <= HEADER_LEN,
        position + header_consumed(source, position) <= source.len(),
{
}

impl Header {
    /// A name for the channel count.
    pub fn channels_name(&self) -> (name: String)
        ensures
            self.channels == 3 ==> name@ == "RGB"@,
            self.channels == 4 ==> name@ == "RGBA"@,
            self.channels != 3 && self.channels != 4 ==> name@ == "unknown"@,
    {
        if self.channels == 3 {
            "RGB".to_owned()
        } else if self.channels == 4 {
            "RGBA".to_owned()
        } else {
            "unknown".to_owned()
        }
    }

    /// A name for the colorspace tag.
    pub fn colorspace_name(&self) -> (name: String)
        ensures
            self.colorspace == 0 ==> name@ == "sRGB with linear alpha"@,
            self.colorspace == 1 ==> name@ == "all channels linear"@,
            self.colorspace > 1 ==> name@ == "unknown"@,
    {
        if self.colorspace == 0 {
            "sRGB with linear alpha".to_owned()
        } else if self.colorspace == 1 {
            "all channels linear".to_owned()
        } else {
            "unknown".to_owned()
        }
    }

    /// Parses the header that `reader` stands at. On success exactly
    /// [`HEADER_LEN`] bytes are consumed and the reader stands at the first
    /// opcode.
    pub fn from_reader(reader: &mut Reader) -> (result: Result<Header, DecodeError>)
        ensures
            final(reader)@.source == old(reader)@.source,
            result == parse_header(old(reader)@.source, old(reader)@.position as int),
            final(reader)@.position == old(reader)@.position + header_consumed(
                old(reader)@.source,
                old(reader)@.position as int,
            ),
    {
        proof {
            reader.lemma_position_in_source();
        }
        let ghost rest = reader@.source.skip(reader@.position as int);
        let magic = match reader.read_exact(4) {
            Ok(bytes) => bytes,
            Err(e) => {
                return Err(e);
            },
        };
        if magic[0] != 0x71 || magic[1] != 0x6f || magic[2] != 0x69 || magic[3] != 0x66 {
            return Err(DecodeError::BadMagic);
        }
        let width = match reader.read_u32_be() {
            Ok(value) => value,
            Err(e) => {
                return Err(e);
            },
        };
        let height = match reader.read_u32_be() {
            Ok(value) => value,
            Err(e) => {
                return Err(e);
            },
        };
        let channels = match reader.read_u8() {
            Ok(value) => value,
            Err(e) => {
                return Err(e);
            },
        };
        let colorspace = match reader.read_u8() {
            Ok(value) => value,
            Err(e) => {
                return Err(e);
            },
        };
        proof {
            let source = reader@.source;
            let start = old(reader)@.position as int;
            assert(source.skip(start + 4) =~= rest.skip(4));
            assert(source.skip(start + 8) =~= rest.skip(8));
        }
        Ok(Header { width: width as usize, height: height as usize, channels, colorspace })
    }
}

/// A decoded image: its header and its pixels as one buffer of
/// `width * height * 4` bytes, RGBA interleaved, rows from top to bottom
/// and pixels from left to right.
#[derive(Debug, PartialEq, Eq)]
pub struct Image {
    pub header: Header,
    pub buffer: Vec<u8>,
}

/// What the bytes of `source` from `position` on stand for: a header and
/// the `width * height` pixels that the opcodes after it decode to, or the
/// reason why they are no image. No buffer holds more than `isize::MAX`
/// bytes; an image that would need more is turned down before any opcode
/// is read.
pub open spec fn decode_image(source: Seq<u8>, position: int) -> Result<
    (Header, Decoded),
    DecodeError,
> {
    match parse_header(source, position) {
        Err(e) => Err(e),
        Ok(header) => if header.width * header.height * 4 > isize::MAX {
            Err(DecodeError::TooLarge)
        } else {
            match decode(
                DecoderState::initial(),
                source,
                position + HEADER_LEN,
                (header.width * header.height) as nat,
            ) {
                None => Err(DecodeError::UnexpectedEof),
                Some(decoded) => Ok((header, decoded)),
            }
        },
    }
}

/// Where a reader stands after a failed attempt to decode an image. A
/// failure in the header leaves it where header parsing stopped; an image
/// that is too large costs the header alone; a source that ends among the
/// opcodes is consumed to its end.
pub open spec fn failed_image_position(source: Seq<u8>, position: int) -> int {
    if parse_header(source, position) is Err {
        position + header_consumed(source, position)
    } else if decode_image(source, position) == Err::<(Header, Decoded), DecodeError>(
        DecodeError::TooLarge,
    ) {
        position + HEADER_LEN
    } else {
        source.len() as int
    }
}

impl Image {
    /// Decodes a whole image: the header, then `height` rows of `width`
    /// pixels each. Decoding is all or nothing; the first error is returned
    /// as it is and no partial buffer with it.
    pub fn from_reader(reader: &mut Reader) -> (result: Result<Image, DecodeError>)
        ensures
            final(reader)@.source == old(reader)@.source,
            match decode_image(old(reader)@.source, old(reader)@.position as int) {
                Ok((header, decoded)) => result matches Ok(image) && image.header == header
                    && image.buffer@ == rgba_bytes(decoded.pixels) && final(reader)@.position
                    == decoded.position,
                Err(e) => result matches Err(error) && error == e && final(reader)@.position
                    == failed_image_position(old(reader)@.source, old(reader)@.position as int),
            },
    {
        let ghost source = reader@.source;
        let ghost start = reader@.position as int;
        proof {
            reader.lemma_position_in_source();
        }
        let header = match Header::from_reader(reader) {
            Ok(header) => header,
            Err(e) => {
                return Err(e);
            },
        };
        let pixel_count = match header.width.checked_mul(header.height) {
            Some(count) => count,
            None => {
                assert(header.width * header.height * 4 > usize::MAX) by (nonlinear_arith)
                    requires
                        header.width * header.height > usize::MAX,
                ;
                return Err(DecodeError::TooLarge);
            },
        };
        let size = match pixel_count.checked_mul(4) {
            Some(size) => size,
            None => {
                return Err(DecodeError::TooLarge);
            },
        };
        if size > isize::MAX as usize {
            return Err(DecodeError::TooLarge);
        }
        let mut buffer = vec![0u8; size];
        let mut decoder = Decoder::new(&header);

        let ghost total = (header.width * header.height) as nat;
        let ghost mut done: Seq<Color> = Seq::empty();
        proof {
            assert((header.height - 0) * header.width * 4 == size) by (nonlinear_arith)
                requires
                    size == header.width * header.height * 4,
            ;
            assert(header.width * (header.height - 0) == total) by (nonlinear_arith)
                requires
                    total == header.width * header.height,
            ;
            lemma_prepend_empty(decode(decoder@, source, start + HEADER_LEN, total));
            assert(rgba_bytes(done) =~= Seq::<u8>::empty());
        }
        let mut rest: &mut [u8] = buffer.as_mut_slice();
        let mut row: usize = 0;
        while row < header.height
            invariant
                source == old(reader)@.source,
                start == old(reader)@.position,
                parse_header(source, start) == Ok::<Header, DecodeError>(header),
                total == header.width * header.height,
                header.width * header.height * 4 <= isize::MAX,
                reader@.source == source,
                decoder.row_width() == header.width,
                row <= header.height,
                done.len() == row * header.width,
                rest@.len() == (header.height - row) * header.width * 4,
                after_borrow(buffer)@ == rgba_bytes(done) + final(rest)@,
                decode(DecoderState::initial(), source, start + HEADER_LEN, total) == prepend(
                    done,
                    decode(
                        decoder@,
                        source,
                        reader@.position as int,
                        (header.width * (header.height - row)) as nat,
                    ),
                ),
            decreases header.height - row,
        {
            let ghost remaining = (header.width * (header.height - row - 1)) as nat;
            proof {
                let w = header.width as int;
                let h = header.height as int;
                let r = row as int;
                assert(w * 4 <= (h - r) * w * 4 && w * 4 <= w * h * 4 && (h - r) * w * 4 - w * 4
                    == (h - (r + 1)) * w * 4 && w * (h - r) == w + w * (h - r - 1) && (r + 1) * w
                    == r * w + w && w * (h - r - 1) >= 0) by (nonlinear_arith)
                    requires
                        0 <= r < h,
                        0 <= w,
                ;
                lemma_decode_split(
                    decoder@,
                    source,
                    reader@.position as int,
                    header.width as nat,
                    remaining,
                );
            }
            let ghost before = decode(
                decoder@,
                source,
                reader@.position as int,
                header.width as nat,
            );
            let (line, tail) = rest.split_at_mut(header.width * 4);
            match decoder.decode_row(reader, line) {
                Ok(()) => {},
                Err(e) => {
                    return Err(e);
                },
            }
            proof {
                let decoded = before->Some_0;
                lemma_prepend_prepend(
                    done,
                    decoded.pixels,
                    decode(decoder@, source, reader@.position as int, remaining),
                );
                lemma_rgba_bytes_concat(done, decoded.pixels);
                assert(line@ =~= rgba_bytes(decoded.pixels));
                assert((rgba_bytes(done) + line@) + final(tail)@ =~= rgba_bytes(done) + (line@
                    + final(tail)@));
                done = done + decoded.pixels;
            }
            rest = tail;
            row = row + 1;
        }
        proof {
            assert(rgba_bytes(done) + rest@ =~= rgba_bytes(done));
        }
        Ok(Image { header, buffer })
    }
}

} // verus!
