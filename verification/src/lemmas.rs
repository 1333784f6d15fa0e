use crate::color::{unpacked, Color};
use crate::model::{
    decode, diff_pixel, hash_index, luma_pixel, prepend, rgba_bytes, step, wrap, Decoded,
    DecoderState, CACHE_SIZE,
};
use crate::opcode::{lemma_opcode_of_wf, opcode_of, Opcode};
use vstd::prelude::*;

verus! {

/// Wrapping within one turn either way: below zero 256 is added, from 256
/// on it is taken off.
pub proof fn lemma_wrap_near(x: int)
    requires
        -256 <= x < 512,
    ensures
        wrap(x) == if x < 0 {
            x + 256
        } else if x < 256 {
            x
        } else {
            x - 256
        },
{
}

/// A small delta wraps around in both directions and is never clamped:
/// each color channel is the sum of the old channel and its field less 2,
/// plus 256 where that sum is negative and less 256 where it passes 255.
pub proof fn lemma_diff_wraps(last: Color, dr: u8, dg: u8, db: u8)
    requires
        dr < 4,
        dg < 4,
        db < 4,
    ensures
        diff_pixel(last, dr, dg, db).r == if last.r + dr < 2 {
            last.r + dr + 254
        } else if last.r + dr > 257 {
            last.r + dr - 258
        } else {
            last.r + dr - 2
        },
        diff_pixel(last, dr, dg, db).g == if last.g + dg < 2 {
            last.g + dg + 254
        } else if last.g + dg > 257 {
            last.g + dg - 258
        } else {
            last.g + dg - 2
        },
        diff_pixel(last, dr, dg, db).b == if last.b + db < 2 {
            last.b + db + 254
        } else if last.b + db > 257 {
            last.b + db - 258
        } else {
            last.b + db - 2
        },
        diff_pixel(last, dr, dg, db).a == last.a,
{
    lemma_wrap_near(last.r + dr - 2);
    lemma_wrap_near(last.g + dg - 2);
    lemma_wrap_near(last.b + db - 2);
}

/// A luma delta wraps around in both directions and is never clamped.
/// With `vg` the green delta and `vr`, `vb` the deltas of red and blue, each
/// channel is the old channel plus its delta, brought back into `0..256` by
/// adding or taking off 256 once.
pub proof fn lemma_luma_wraps(last: Color, dg: u8, second: u8)
    requires
        dg < 64,
    ensures
        ({
            let vg = dg - 32;
            let vr = vg + second / 16 - 8;
            let vb = vg + second % 16 - 8;
            let pixel = luma_pixel(last, dg, second);
            &&& -32 <= vg <= 31 && -40 <= vr <= 38 && -40 <= vb <= 38
            &&& pixel.r == last.r + vr || pixel.r == last.r + vr + 256 || pixel.r == last.r + vr
                - 256
            &&& pixel.g == last.g + vg || pixel.g == last.g + vg + 256 || pixel.g == last.g + vg
                - 256
            &&& pixel.b == last.b + vb || pixel.b == last.b + vb + 256 || pixel.b == last.b + vb
                - 256
            &&& pixel.a == last.a
        }),
{
    lemma_wrap_near(last.r + (dg - 32) + (second / 16 - 8));
    lemma_wrap_near(last.g + (dg - 32));
    lemma_wrap_near(last.b + (dg - 32) + (second % 16 - 8));
}

/// A cache slot is always one of the 64.
pub proof fn lemma_hash_index_in_cache(r: u8, g: u8, b: u8, a: u8)
    ensures
        0 <= hash_index(r, g, b, a) < CACHE_SIZE,
{
}

/// A cache lookup yields the pixel packed in its slot and leaves every slot
/// as it was. In a cache that was never written the pixel is all zero,
/// alpha included.
pub proof fn lemma_lookup_keeps_cache(state: DecoderState, index: u8, payload: Seq<u8>)
    requires
        index < CACHE_SIZE,
    ensures
        state.pixel_of(Opcode::Index { index }, payload) == unpacked(state.cache[index as int]),
        state.after(Opcode::Index { index }, payload).cache == state.cache,
        state.after(Opcode::Index { index }, payload).pending_run == state.pending_run,
        state.cache == DecoderState::initial().cache ==> state.pixel_of(
            Opcode::Index { index },
            payload,
        ) == (Color { r: 0, g: 0, b: 0, a: 0 }),
{
}

/// Whatever produces a pixel makes it the last pixel: a literal, a delta, a
/// cache lookup and a run alike.
pub proof fn lemma_step_last(state: DecoderState, source: Seq<u8>, position: int)
    ensures
        step(state, source, position) matches Some(s) ==> s.state.last == s.pixel,
{
}

/// The bytes of two runs of pixels, one after the other, are the bytes of
/// the first followed by the bytes of the second.
pub proof fn lemma_rgba_bytes_concat(first: Seq<Color>, second: Seq<Color>)
    ensures
        rgba_bytes(first + second) == rgba_bytes(first) + rgba_bytes(second),
{
    let whole = rgba_bytes(first + second);
    let parts = rgba_bytes(first) + rgba_bytes(second);
    assert forall|j: int| 0 <= j < whole.len() implies whole[j] == parts[j] by {
        if j >= 4 * first.len() {
            let k = j - 4 * first.len();
            assert(j / 4 == first.len() + k / 4);
            assert(j % 4 == k % 4);
        }
    }
    assert(whole =~= parts);
}

/// Putting pixels in front is associative.
pub proof fn lemma_prepend_prepend(first: Seq<Color>, second: Seq<Color>, decoded: Option<Decoded>)
    ensures
        prepend(first, prepend(second, decoded)) == prepend(first + second, decoded),
{
    if let Some(d) = decoded {
        assert(first + (second + d.pixels) =~= (first + second) + d.pixels);
    }
}

/// Putting no pixels in front changes nothing.
pub proof fn lemma_prepend_empty(decoded: Option<Decoded>)
    ensures
        prepend(Seq::empty(), decoded) == decoded,
{
    if let Some(d) = decoded {
        assert(Seq::<Color>::empty() + d.pixels =~= d.pixels);
    }
}

/// A successful decode yields as many pixels as were asked for, and never
/// moves backwards in the source.
pub proof fn lemma_decode_len(state: DecoderState, source: Seq<u8>, position: int, count: nat)
    ensures
        decode(state, source, position, count) matches Some(d) ==> d.pixels.len() == count
            && position <= d.position && (0 <= position <= source.len() ==> d.position
            <= source.len()),
    decreases count,
{
    if count > 0 {
        if let Some(s) = step(state, source, position) {
            lemma_decode_len(s.state, source, s.position, (count - 1) as nat);
        }
    }
}

/// The cache keeps its 64 slots, and at most 61 pixels are ever owed: a run
/// is no longer than 62 and its first pixel is out at once. Both hold of
/// the initial state and of every state that decoding leads to from a state
/// of which they hold.
pub proof fn lemma_decode_wf(state: DecoderState, source: Seq<u8>, position: int, count: nat)
    requires
        state.wf(),
    ensures
        DecoderState::initial().wf(),
        decode(state, source, position, count) matches Some(d) ==> d.state.wf(),
    decreases count,
{
    if count > 0 {
        if let Some(s) = step(state, source, position) {
            if state.pending_run == 0 {
                lemma_opcode_of_wf(source[position]);
                let op = opcode_of(source[position]);
                let payload = source.subrange(position + 1, position + 1 + op.payload_len());
                let pixel = state.pixel_of(op, payload);
                lemma_hash_index_in_cache(pixel.r, pixel.g, pixel.b, pixel.a);
            }
            lemma_decode_wf(s.state, source, s.position, (count - 1) as nat);
        }
    }
}

/// While a run is pending, decoding `k` pixels of it yields `k` copies of
/// the last pixel, reads nothing and changes nothing but the run's count.
pub proof fn lemma_decode_run(
    state: DecoderState,
    source: Seq<u8>,
    position: int,
    count: nat,
    k: nat,
)
    requires
        k <= state.pending_run,
        k <= count,
    ensures
        decode(state, source, position, count) == prepend(
            Seq::new(k, |i: int| state.last),
            decode(
                state.with_run((state.pending_run - k) as nat),
                source,
                position,
                (count - k) as nat,
            ),
        ),
    decreases k,
{
    if k == 0 {
        assert(state.with_run(state.pending_run) == state);
        assert(Seq::new(0, |i: int| state.last) =~= Seq::<Color>::empty());
        lemma_prepend_empty(decode(state, source, position, count));
    } else {
        let next = state.with_run((state.pending_run - 1) as nat);
        let tail = decode(
            next.with_run((next.pending_run - (k - 1)) as nat),
            source,
            position,
            (count - 1 - (k - 1)) as nat,
        );
        lemma_decode_run(next, source, position, (count - 1) as nat, (k - 1) as nat);
        assert(next.with_run((next.pending_run - (k - 1)) as nat) == state.with_run(
            (state.pending_run - k) as nat,
        ));
        lemma_prepend_prepend(seq![state.last], Seq::new((k - 1) as nat, |i: int| next.last), tail);
        assert(seq![state.last] + Seq::new((k - 1) as nat, |i: int| next.last) =~= Seq::new(
            k,
            |i: int| state.last,
        ));
    }
}

/// A run opcode of length `n` stands for exactly `n` copies of the last
/// pixel. It takes one byte and leaves the state as it found it: cache,
/// last pixel and, once the copies are out, no pixel owed.
pub proof fn lemma_run_opcode(state: DecoderState, source: Seq<u8>, position: int, count: nat)
    requires
        state.pending_run == 0,
        0 <= position < source.len(),
        opcode_of(source[position]) is Run,
        opcode_of(source[position])->length <= count,
    ensures
        1 <= opcode_of(source[position])->length <= 62,
        decode(state, source, position, count) == prepend(
            Seq::new(opcode_of(source[position])->length as nat, |i: int| state.last),
            decode(
                state,
                source,
                position + 1,
                (count - opcode_of(source[position])->length) as nat,
            ),
        ),
{
    let length = opcode_of(source[position])->length as nat;
    let owing = state.with_run((length - 1) as nat);
    let tail = decode(state, source, position + 1, (count - length) as nat);
    lemma_opcode_of_wf(source[position]);
    lemma_decode_run(owing, source, position + 1, (count - 1) as nat, (length - 1) as nat);
    assert(owing.with_run(0) == state);
    lemma_prepend_prepend(
        seq![state.last],
        Seq::new((length - 1) as nat, |i: int| owing.last),
        tail,
    );
    assert(seq![state.last] + Seq::new((length - 1) as nat, |i: int| owing.last) =~= Seq::new(
        length,
        |i: int| state.last,
    ));
}

/// Row boundaries do not matter: decoding `a + b` pixels is decoding `a`
/// pixels and then `b` more from where that ended, in the state it left.
pub proof fn lemma_decode_split(
    state: DecoderState,
    source: Seq<u8>,
    position: int,
    a: nat,
    b: nat,
)
    ensures
        decode(state, source, position, a + b) == match decode(state, source, position, a) {
            None => None,
            Some(d) => prepend(d.pixels, decode(d.state, source, d.position, b)),
        },
    decreases a,
{
    if a == 0 {
        lemma_prepend_empty(decode(state, source, position, b));
    } else {
        match step(state, source, position) {
            None => {},
            Some(s) => {
                lemma_decode_split(s.state, source, s.position, (a - 1) as nat, b);
                assert((a + b - 1) as nat == (a - 1) as nat + b);
                if let Some(d) = decode(s.state, source, s.position, (a - 1) as nat) {
                    lemma_prepend_prepend(
                        seq![s.pixel],
                        d.pixels,
                        decode(d.state, source, d.position, b),
                    );
                }
            },
        }
    }
}

/// Cutting a source short never fabricates pixels. Where `count` pixels
/// decode from `source`, what is left of `source` after a cut decodes to
/// the very same outcome as long as the cut keeps every byte that was
/// consumed, and fails as soon as it takes one of them away.
pub proof fn lemma_decode_truncated(
    state: DecoderState,
    source: Seq<u8>,
    position: int,
    count: nat,
    cut: int,
)
    requires
        0 <= position <= cut <= source.len(),
        decode(state, source, position, count) is Some,
    ensures
        decode(state, source, position, count)->Some_0.position <= cut ==> decode(
            state,
            source.take(cut),
            position,
            count,
        ) == decode(state, source, position, count),
        decode(state, source, position, count)->Some_0.position > cut ==> decode(
            state,
            source.take(cut),
            position,
            count,
        ) is None,
    decreases count,
{
    if count > 0 {
        let s = step(state, source, position)->Some_0;
        let rest = (count - 1) as nat;
        lemma_decode_len(s.state, source, s.position, rest);
        if state.pending_run > 0 {
            lemma_decode_truncated(s.state, source, s.position, rest, cut);
        } else if position < cut && s.position <= cut {
            assert(source.take(cut).subrange(position + 1, s.position) =~= source.subrange(
                position + 1,
                s.position,
            ));
            assert(step(state, source.take(cut), position) == Some(s));
            lemma_decode_truncated(s.state, source, s.position, rest, cut);
        } else {
            assert(step(state, source.take(cut), position) is None);
        }
    }
}

} // verus!
