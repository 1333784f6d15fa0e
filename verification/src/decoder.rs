use crate::color::Color;
use crate::error::DecodeError;
use crate::image::Header;
use crate::lemmas::{lemma_decode_run, lemma_prepend_prepend, lemma_wrap_near};
use crate::model::{
    channel, decode, diff_pixel, hash_index, luma_pixel, prepend, rgba_bytes, DecoderState,
};
use crate::opcode::Opcode;
use crate::reader::Reader;
use vstd::prelude::*;

verus! {

/// The streaming decoder: one per image, fed one row at a time. The cache,
/// the last pixel and a pending run all outlive a row.
pub struct Decoder {
    width: usize,
    lookup: [u32; 64],
    previous_color: Color,
    remaining_run: u8,
}

impl View for Decoder {
    type V = DecoderState;

    closed spec fn view(&self) -> DecoderState {
        DecoderState {
            cache: self.lookup@,
            last: self.previous_color,
            pending_run: self.remaining_run as nat,
        }
    }
}

/// The first `pixels.len()` pixel slots of `buffer` hold `pixels`.
spec fn holds_pixels(buffer: Seq<u8>, pixels: Seq<Color>) -> bool {
    &&& 4 * pixels.len() <= buffer.len()
    &&& forall|j: int|
        0 <= j < 4 * pixels.len() ==> #[trigger] buffer[j] == channel(pixels[j / 4], j % 4)
}

/// A buffer whose first slots hold `pixels` starts with the bytes of
/// `pixels`.
proof fn lemma_holds_pixels(buffer: Seq<u8>, pixels: Seq<Color>)
    requires
        holds_pixels(buffer, pixels),
    ensures
        buffer.take(4 * pixels.len() as int) == rgba_bytes(pixels),
{
    assert(buffer.take(4 * pixels.len() as int) =~= rgba_bytes(pixels));
}

impl Decoder {
    /// The number of pixels in a row.
    pub closed spec fn spec_row_width(&self) -> usize {
        self.width
    }

    /// A decoder for an image with the given header, in the initial state.
    pub fn new(header: &Header) -> (decoder: Decoder)
        ensures
            decoder@ == DecoderState::initial(),
            decoder.row_width() == header.width,
    {
        let decoder = Decoder {
            width: header.width,
            lookup: [0u32; 64],
            previous_color: Color::from_components(0, 0, 0, 255),
            remaining_run: 0,
        };
        assert(decoder@.cache =~= DecoderState::initial().cache);
        decoder
    }

    /// The number of pixels in a row.
    #[verifier::when_used_as_spec(spec_row_width)]
    pub fn row_width(&self) -> (width: usize)
        ensures
            width == self.row_width(),
    {
        self.width
    }

    /// The pixel decoded last.
    pub fn last_pixel(&self) -> (pixel: Color)
        ensures
            pixel == self@.last,
    {
        self.previous_color
    }

    /// How many pixels a run still owes.
    pub fn pending_run(&self) -> (count: u8)
        ensures
            count == self@.pending_run,
    {
        self.remaining_run
    }

    /// The packed pixel in cache slot `index`, or `None` for an index that
    /// is no slot.
    pub fn cached(&self, index: usize) -> (entry: Option<u32>)
        ensures
            self@.cache.len() == 64,
            index < 64 ==> entry == Some(self@.cache[index as int]),
            index >= 64 ==> entry.is_none(),
    {
        if index < 64 {
            Some(self.lookup[index])
        } else {
            None
        }
    }

    /// The cache slot of a pixel: a weighted sum of its channels, modulo
    /// the size of the cache.
    pub fn hash(r: u8, g: u8, b: u8, a: u8) -> (slot: u8)
        ensures
            slot == hash_index(r, g, b, a),
            slot < 64,
    {
        ((r as u32 * 3 + g as u32 * 5 + b as u32 * 7 + a as u32 * 11) % 64) as u8
    }

    /// Applies a small delta to the last pixel, wrapping each channel.
    fn diff(&self, dr: u8, dg: u8, db: u8) -> (pixel: Color)
        requires
            dr < 4,
            dg < 4,
            db < 4,
        ensures
            pixel == diff_pixel(self@.last, dr, dg, db),
    {
        let last = self.previous_color;
        Color::from_components(
            last.r.wrapping_add(dr).wrapping_sub(2),
            last.g.wrapping_add(dg).wrapping_sub(2),
            last.b.wrapping_add(db).wrapping_sub(2),
            last.a,
        )
    }

    /// Applies a luma delta to the last pixel, wrapping each channel.
    fn luma(&self, dg: u8, second: u8) -> (pixel: Color)
        requires
            dg < 64,
        ensures
            pixel == luma_pixel(self@.last, dg, second),
    {
        let last = self.previous_color;
        let vg: u8 = dg.wrapping_sub(32);
        let high: u8 = (second >> 4) & 0x0f;
        let low: u8 = second & 0x0f;
        assert((second >> 4) & 0x0f == second / 16 && second & 0x0f == second % 16)
            by (bit_vector);
        proof {
            lemma_wrap_near(last.r + (dg - 32) + (second / 16 - 8));
            lemma_wrap_near(last.g + (dg - 32));
            lemma_wrap_near(last.b + (dg - 32) + (second % 16 - 8));
        }
        Color::from_components(
            last.r.wrapping_add(vg.wrapping_sub(8).wrapping_add(high)),
            last.g.wrapping_add(vg),
            last.b.wrapping_add(vg.wrapping_sub(8).wrapping_add(low)),
            last.a,
        )
    }

    /// Makes a freshly derived pixel the last pixel and stores it in its
    /// cache slot.
    fn remember(&mut self, pixel: Color)
        ensures
            final(self)@ == old(self)@.remember(pixel),
            final(self).row_width() == old(self).row_width(),
    {
        let slot = Decoder::hash(pixel.r, pixel.g, pixel.b, pixel.a);
        self.lookup[slot as usize] = Color::pack_components(pixel.r, pixel.g, pixel.b, pixel.a);
        self.previous_color = pixel;
    }

    /// Writes `pixel` into slot `index` of `buffer`.
    fn put_pixel(buffer: &mut [u8], index: usize, pixel: Color)
        requires
            4 * index + 4 <= old(buffer)@.len(),
        ensures
            final(buffer)@ == old(buffer)@.update(4 * index as int, pixel.r).update(
                4 * index + 1,
                pixel.g,
            ).update(4 * index + 2, pixel.b).update(4 * index + 3, pixel.a),
    {
        buffer[index * 4] = pixel.r;
        buffer[index * 4 + 1] = pixel.g;
        buffer[index * 4 + 2] = pixel.b;
        buffer[index * 4 + 3] = pixel.a;
    }

    /// Emits copies of the last pixel into `buffer` from slot `start` on,
    /// until the pending run is drained or the row is full, and returns the
    /// first slot that was not written.
    fn drain_run(&mut self, buffer: &mut [u8], start: usize) -> (next: usize)
        requires
            start <= old(self).row_width(),
            4 * old(self).row_width() <= old(buffer)@.len(),
        ensures
            final(self).row_width() == old(self).row_width(),
            start <= next <= old(self).row_width(),
            next - start == if old(self)@.pending_run <= old(self).row_width() - start {
                old(self)@.pending_run as int
            } else {
                old(self).row_width() - start
            },
            final(self)@ == old(self)@.with_run((old(self)@.pending_run - (next - start)) as nat),
            final(buffer)@.len() == old(buffer)@.len(),
            forall|j: int|
                0 <= j < 4 * start || 4 * next <= j < old(buffer)@.len() ==> final(buffer)@[j]
                    == old(buffer)@[j],
            forall|j: int|
                4 * start <= j < 4 * next ==> #[trigger] final(buffer)@[j] == channel(
                    old(self)@.last,
                    j % 4,
                ),
    {
        let mut i: usize = start;
        while self.remaining_run > 0 && i < self.width
            invariant
                self.width == old(self).width,
                self.lookup == old(self).lookup,
                self.previous_color == old(self).previous_color,
                start <= i <= self.width,
                4 * self.width <= buffer@.len(),
                buffer@.len() == old(buffer)@.len(),
                self.remaining_run + (i - start) == old(self).remaining_run,
                forall|j: int|
                    0 <= j < 4 * start || 4 * i <= j < buffer@.len() ==> buffer@[j] == old(
                        buffer
                    )@[j],
                forall|j: int|
                    4 * start <= j < 4 * i ==> #[trigger] buffer@[j] == channel(
                        self.previous_color,
                        j % 4,
                    ),
            decreases self.width - i,
        {
            Decoder::put_pixel(buffer, i, self.previous_color);
            self.remaining_run = self.remaining_run - 1;
            i = i + 1;
        }
        i
    }

    /// Reads the payload of `op`, which is any opcode but a run, and derives
    /// the pixel that it stands for. A literal or a delta is remembered in
    /// the cache; a lookup is not. Fails exactly when the source ends
    /// before the payload does, and has then consumed the whole source.
    fn derive_pixel(&mut self, reader: &mut Reader, op: Opcode) -> (result: Result<
        Color,
        DecodeError,
    >)
        requires
            op.wf(),
            !(op is Run),
        ensures
            final(self).row_width() == old(self).row_width(),
            final(reader)@.source == old(reader)@.source,
            ({
                let source = old(reader)@.source;
                let position = old(reader)@.position as int;
                let end = position + op.payload_len();
                let payload = source.subrange(position, end);
                if end <= source.len() {
                    &&& result == Ok::<Color, DecodeError>(old(self)@.pixel_of(op, payload))
                    &&& final(self)@ == old(self)@.after(op, payload)
                    &&& final(reader)@.position == end
                } else {
                    &&& result == Err::<Color, DecodeError>(DecodeError::UnexpectedEof)
                    &&& final(reader)@.position == source.len()
                }
            }),
    {
        proof {
            reader.lemma_position_in_source();
        }
        match op {
            Opcode::Rgb => {
                let r = match reader.read_u8() {
                    Ok(byte) => byte,
                    Err(e) => {
                        return Err(e);
                    },
                };
                let g = match reader.read_u8() {
                    Ok(byte) => byte,
                    Err(e) => {
                        return Err(e);
                    },
                };
                let b = match reader.read_u8() {
                    Ok(byte) => byte,
                    Err(e) => {
                        return Err(e);
                    },
                };
                let pixel = Color::from_components(r, g, b, self.previous_color.a);
                self.remember(pixel);
                Ok(pixel)
            },
            Opcode::Rgba => {
                let r = match reader.read_u8() {
                    Ok(byte) => byte,
                    Err(e) => {
                        return Err(e);
                    },
                };
                let g = match reader.read_u8() {
                    Ok(byte) => byte,
                    Err(e) => {
                        return Err(e);
                    },
                };
                let b = match reader.read_u8() {
                    Ok(byte) => byte,
                    Err(e) => {
                        return Err(e);
                    },
                };
                let a = match reader.read_u8() {
                    Ok(byte) => byte,
                    Err(e) => {
                        return Err(e);
                    },
                };
                let pixel = Color::from_components(r, g, b, a);
                self.remember(pixel);
                Ok(pixel)
            },
            Opcode::Index { index } => {
                let pixel = Color::from_value(self.lookup[index as usize]);
                self.previous_color = pixel;
                Ok(pixel)
            },
            Opcode::Diff { dr, dg, db } => {
                let pixel = self.diff(dr, dg, db);
                self.remember(pixel);
                Ok(pixel)
            },
            Opcode::Luma { dg } => {
                let second = match reader.read_u8() {
                    Ok(byte) => byte,
                    Err(e) => {
                        return Err(e);
                    },
                };
                let pixel = self.luma(dg, second);
                self.remember(pixel);
                Ok(pixel)
            },
            // A run derives no pixel of its own; `requires` leaves it out.
            Opcode::Run { .. } => Ok(self.previous_color),
        }
    }

    /// Decodes one row: fills the first `row_width` pixel slots of `buffer`
    /// with the next pixels of the stream and leaves the rest of `buffer`
    /// as it was.
    ///
    /// A run left over from the row before is drained first. Then opcodes
    /// are read until the row is full; a run that does not fit stays pending
    /// for the next row. The call fails exactly when the source ends before
    /// the row is full, and has then consumed the whole source.
    pub fn decode_row(&mut self, reader: &mut Reader, buffer: &mut [u8]) -> (result: Result<
        (),
        DecodeError,
    >)
        requires
            4 * old(self).row_width() <= old(buffer)@.len(),
        ensures
            final(self).row_width() == old(self).row_width(),
            final(reader)@.source == old(reader)@.source,
            final(buffer)@.len() == old(buffer)@.len(),
            final(buffer)@.skip(4 * old(self).row_width()) == old(buffer)@.skip(
                4 * old(self).row_width(),
            ),
            match decode(
                old(self)@,
                old(reader)@.source,
                old(reader)@.position as int,
                old(self).row_width() as nat,
            ) {
                Some(d) => {
                    &&& result == Ok::<(), DecodeError>(())
                    &&& final(self)@ == d.state
                    &&& final(reader)@.position == d.position
                    &&& final(buffer)@.take(4 * old(self).row_width()) == rgba_bytes(d.pixels)
                },
                None => {
                    &&& result == Err::<(), DecodeError>(DecodeError::UnexpectedEof)
                    &&& final(reader)@.position == old(reader)@.source.len()
                },
            },
    {
        let ghost initial = self@;
        let ghost source = reader@.source;
        let ghost start = reader@.position as int;
        let ghost width = self.width as nat;
        let ghost mut done: Seq<Color> = Seq::empty();

        let mut i: usize = self.drain_run(buffer, 0);
        proof {
            done = Seq::new(i as nat, |k: int| initial.last);
            lemma_decode_run(initial, source, start, width, i as nat);
        }
        while i < self.width
            invariant
                initial == old(self)@,
                source == old(reader)@.source,
                start == old(reader)@.position,
                width == old(self).row_width(),
                self.width == width,
                reader@.source == source,
                buffer@.len() == old(buffer)@.len(),
                4 * width <= buffer@.len(),
                i <= width,
                done.len() == i,
                holds_pixels(buffer@, done),
                forall|j: int| 4 * i <= j < buffer@.len() ==> buffer@[j] == old(buffer)@[j],
                i < width ==> self@.pending_run == 0,
                decode(initial, source, start, width) == prepend(
                    done,
                    decode(self@, source, reader@.position as int, (width - i) as nat),
                ),
            decreases width - i,
        {
            let ghost before = self@;
            let ghost position = reader@.position as int;
            let ghost rest = (width - i - 1) as nat;
            proof {
                reader.lemma_position_in_source();
            }
            let tag = match reader.read_u8() {
                Ok(byte) => byte,
                Err(e) => {
                    return Err(e);
                },
            };
            let op = match Opcode::from_tag(tag) {
                Ok(op) => op,
                Err(e) => {
                    return Err(e);
                },
            };
            match op {
                Opcode::Run { length } => {
                    self.remaining_run = length;
                    let next = self.drain_run(buffer, i);
                    proof {
                        let emitted = (next - i) as nat;
                        let copies = Seq::new(emitted, |k: int| before.last);
                        let tail = decode(
                            self@,
                            source,
                            reader@.position as int,
                            (width - next) as nat,
                        );
                        lemma_decode_run(
                            before.with_run((length - 1) as nat),
                            source,
                            position + 1,
                            rest,
                            (emitted - 1) as nat,
                        );
                        lemma_prepend_prepend(
                            seq![before.last],
                            Seq::new((emitted - 1) as nat, |k: int| before.last),
                            tail,
                        );
                        assert(seq![before.last] + Seq::new(
                            (emitted - 1) as nat,
                            |k: int| before.last,
                        ) =~= copies);
                        lemma_prepend_prepend(done, copies, tail);
                        done = done + copies;
                    }
                    i = next;
                },
                _ => {
                    let pixel = match self.derive_pixel(reader, op) {
                        Ok(pixel) => pixel,
                        Err(e) => {
                            return Err(e);
                        },
                    };
                    Decoder::put_pixel(buffer, i, pixel);
                    proof {
                        lemma_prepend_prepend(
                            done,
                            seq![pixel],
                            decode(self@, source, reader@.position as int, rest),
                        );
                        done = done + seq![pixel];
                    }
                    i = i + 1;
                },
            }
        }
        proof {
            lemma_holds_pixels(buffer@, done);
            assert(buffer@.skip(4 * width as int) =~= old(buffer)@.skip(4 * width as int));
        }
        Ok(())
    }
}

} // verus!
