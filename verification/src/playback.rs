//! Filling output buffers for the optional clip-playback path.
//!
//! Playback streams a finite, pre-supplied clip to an output device: each
//! hardware callback hands over an interleaved output buffer, and every
//! sample of a frame is set to the clip value at the running position, one
//! clip value per frame.  Reading past the clip's end yields silence rather
//! than an error, and the caller learns when the position has passed the
//! end so it can signal completion.  Samples travel as raw 32-bit payloads;
//! the zero payload is silence.

use vstd::prelude::*;

verus! {

/// The clip value every sample of output frame `f` takes when playback
/// stands at `pos`: the clip at `pos + f`, or silence past the clip's end.
pub open spec fn frame_value(clip: Seq<u32>, pos: int, f: int) -> u32 {
    if pos + f < clip.len() {
        clip[pos + f]
    } else {
        0u32
    }
}

/// Fill one interleaved output buffer of `out_len` samples in frames that
/// are `channels` samples wide, starting at clip position `pos`.  Returns
/// the filled buffer, the position after the buffer's frames, and whether
/// playback has now passed the clip's end.
pub fn fill_output(clip: &Vec<u32>, pos: usize, out_len: usize, channels: usize) -> (r: (
    Vec<u32>,
    usize,
    bool,
))
    requires
        channels >= 1,
        out_len + channels <= usize::MAX,
        pos + (out_len as int + channels - 1) / (channels as int) <= usize::MAX,
    ensures
        r.0@.len() == out_len,
        forall|j: int|
            0 <= j < out_len ==> #[trigger] r.0@[j] == frame_value(
                clip@,
                pos as int,
                j / (channels as int),
            ),
        r.1 == pos + (out_len as int + channels - 1) / (channels as int),
        r.2 == (r.1 >= clip@.len()),
{
    let ghost ch = channels as int;
    let mut buf: Vec<u32> = Vec::new();
    let mut j: usize = 0;
    while j < out_len
        invariant
            channels >= 1,
            ch == channels as int,
            out_len + channels <= usize::MAX,
            pos + (out_len as int + ch - 1) / ch <= usize::MAX,
            j <= out_len,
            buf@.len() == j,
            forall|k: int|
                0 <= k < j ==> #[trigger] buf@[k] == frame_value(clip@, pos as int, k / ch),
        decreases out_len - j,
    {
        proof {
            vstd::arithmetic::div_mod::lemma_div_is_ordered(
                j as int,
                out_len as int + ch - 1,
                ch,
            );
        }
        let off: usize = j / channels;
        let idx: usize = pos + off;
        let v: u32 = if idx < clip.len() {
            clip[idx]
        } else {
            0
        };
        buf.push(v);
        j = j + 1;
    }
    let frames: usize = (out_len + channels - 1) / channels;
    let new_pos: usize = pos + frames;
    let done: bool = new_pos >= clip.len();
    (buf, new_pos, done)
}

} // verus!
