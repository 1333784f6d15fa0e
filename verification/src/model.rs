use crate::color::{unpacked, Color};
use crate::opcode::{opcode_of, Opcode};
use vstd::prelude::*;

verus! {

/// The number of slots in the pixel cache.
pub const CACHE_SIZE: usize = 64;

/// The cache slot of a pixel.
pub open spec fn hash_index(r: u8, g: u8, b: u8, a: u8) -> int {
    (r * 3 + g * 5 + b * 7 + a * 11) % 64
}

/// The byte that an integer is congruent to modulo 256. Channel deltas are
/// added with this wraparound, never clamped.
pub open spec fn wrap(x: int) -> u8 {
    (x % 256) as u8
}

/// The pixel that a small delta leads to: each color channel of `last`
/// moves by its field less 2, alpha stays.
pub open spec fn diff_pixel(last: Color, dr: u8, dg: u8, db: u8) -> Color {
    Color {
        r: wrap(last.r + dr - 2),
        g: wrap(last.g + dg - 2),
        b: wrap(last.b + db - 2),
        a: last.a,
    }
}

/// The pixel that a luma delta leads to. Green moves by `dg - 32`. The
/// high and low halves of `second`, each less 8, say by how much more red
/// and blue move than green does. Alpha stays.
pub open spec fn luma_pixel(last: Color, dg: u8, second: u8) -> Color {
    let vg = dg - 32;
    Color {
        r: wrap(last.r + vg + (second / 16 - 8)),
        g: wrap(last.g + vg),
        b: wrap(last.b + vg + (second % 16 - 8)),
        a: last.a,
    }
}

/// What a decoder remembers between opcodes.
pub struct DecoderState {
    /// The pixel cache: 64 packed pixels, addressed by [`hash_index`].
    pub cache: Seq<u32>,
    /// The pixel decoded last.
    pub last: Color,
    /// How many more copies of `last` a run still owes.
    pub pending_run: nat,
}

impl DecoderState {
    /// The state before the first opcode: an all-zero cache, opaque black
    /// as the last pixel, no run.
    pub open spec fn initial() -> DecoderState {
        DecoderState {
            cache: Seq::new(CACHE_SIZE as nat, |i: int| 0u32),
            last: Color { r: 0, g: 0, b: 0, a: 255 },
            pending_run: 0,
        }
    }

    /// The cache has its 64 slots, and no more pixels are owed than a run
    /// can leave behind after its first.
    pub open spec fn wf(self) -> bool {
        self.cache.len() == CACHE_SIZE && self.pending_run <= 61
    }

    /// The state after a freshly derived pixel: it becomes the last pixel
    /// and takes its slot in the cache, whatever stood there.
    pub open spec fn remember(self, pixel: Color) -> DecoderState {
        DecoderState {
            cache: self.cache.update(
                hash_index(pixel.r, pixel.g, pixel.b, pixel.a),
                pixel.pack(),
            ),
            last: pixel,
            pending_run: self.pending_run,
        }
    }

    /// The state after a cache lookup gave `pixel`: only the last pixel
    /// changes.
    pub open spec fn recall(self, pixel: Color) -> DecoderState {
        DecoderState { cache: self.cache, last: pixel, pending_run: self.pending_run }
    }

    /// The same state with another count of owed pixels.
    pub open spec fn with_run(self, pending_run: nat) -> DecoderState {
        DecoderState { cache: self.cache, last: self.last, pending_run }
    }

    /// The pixel that `op` with its payload produces in this state.
    pub open spec fn pixel_of(self, op: Opcode, payload: Seq<u8>) -> Color {
        match op {
            Opcode::Rgb => Color { r: payload[0], g: payload[1], b: payload[2], a: self.last.a },
            Opcode::Rgba => Color { r: payload[0], g: payload[1], b: payload[2], a: payload[3] },
            Opcode::Index { index } => unpacked(self.cache[index as int]),
            Opcode::Diff { dr, dg, db } => diff_pixel(self.last, dr, dg, db),
            Opcode::Luma { dg } => luma_pixel(self.last, dg, payload[0]),
            Opcode::Run { length } => self.last,
        }
    }

    /// The state after `op` has produced its first pixel. A lookup and a
    /// run leave the cache alone; a run of `length` owes `length - 1` more
    /// pixels.
    pub open spec fn after(self, op: Opcode, payload: Seq<u8>) -> DecoderState {
        match op {
            Opcode::Index { index } => self.recall(self.pixel_of(op, payload)),
            Opcode::Run { length } => self.with_run((length - 1) as nat),
            _ => self.remember(self.pixel_of(op, payload)),
        }
    }
}

/// One pixel's worth of decoding: the pixel, the state after it and the
/// position of the next unread byte.
pub struct Step {
    pub state: DecoderState,
    pub position: int,
    pub pixel: Color,
}

/// Decodes one pixel. A pending run supplies it without reading anything.
/// Otherwise one opcode is read at `position`, tag and payload; `None` means
/// that the source ends before the opcode does.
pub open spec fn step(state: DecoderState, source: Seq<u8>, position: int) -> Option<Step> {
    if state.pending_run > 0 {
        Some(
            Step {
                state: state.with_run((state.pending_run - 1) as nat),
                position,
                pixel: state.last,
            },
        )
    } else if position < 0 || position >= source.len() {
        None
    } else {
        let op = opcode_of(source[position]);
        let next = position + 1 + op.payload_len();
        if next > source.len() {
            None
        } else {
            let payload = source.subrange(position + 1, next);
            Some(
                Step {
                    state: state.after(op, payload),
                    position: next,
                    pixel: state.pixel_of(op, payload),
                },
            )
        }
    }
}

/// The outcome of decoding some pixels: the pixels in order, the state
/// after the last of them and the position of the next unread byte.
pub struct Decoded {
    pub state: DecoderState,
    pub position: int,
    pub pixels: Seq<Color>,
}

/// `decoded` with `pixels` put in front of its pixels.
pub open spec fn prepend(pixels: Seq<Color>, decoded: Option<Decoded>) -> Option<Decoded> {
    match decoded {
        None => None,
        Some(d) => Some(
            Decoded { state: d.state, position: d.position, pixels: pixels + d.pixels },
        ),
    }
}

/// Decodes `count` pixels from `source`, starting at `position` in
/// `state`. No byte is read beyond the opcode that yields the last pixel.
/// `None` means that the source ends before `count` pixels are decoded.
pub open spec fn decode(state: DecoderState, source: Seq<u8>, position: int, count: nat) -> Option<
    Decoded,
>
    decreases count,
{
    if count == 0 {
        Some(Decoded { state, position, pixels: Seq::empty() })
    } else {
        match step(state, source, position) {
            None => None,
            Some(s) => prepend(
                seq![s.pixel],
                decode(s.state, source, s.position, (count - 1) as nat),
            ),
        }
    }
}

/// Channel `k` of a pixel in buffer order: red, green, blue, alpha.
pub open spec fn channel(pixel: Color, k: int) -> u8 {
    if k == 0 {
        pixel.r
    } else if k == 1 {
        pixel.g
    } else if k == 2 {
        pixel.b
    } else {
        pixel.a
    }
}

/// The bytes of `pixels` as they stand in an image buffer: four per pixel,
/// in the order red, green, blue, alpha.
pub open spec fn rgba_bytes(pixels: Seq<Color>) -> Seq<u8> {
    Seq::new(4 * pixels.len(), |i: int| channel(pixels[i / 4], i % 4))
}

} // verus!
