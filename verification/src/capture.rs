//! Capture-side decisions: stream negotiation and frame extraction.
//!
//! The device itself is outside this crate; it is driven by whatever audio
//! backend hosts the process.  What the library decides is which enumerated
//! stream configuration to run (the first one, at its maximum sample rate,
//! and only if it carries single-precision float PCM) and which values of an
//! interleaved hardware buffer to forward (the first channel of every
//! frame).  Samples travel as raw 32-bit payloads.

use vstd::prelude::*;

verus! {

/// How a device encodes one sample of an interleaved PCM stream.
#[derive(Clone, Copy, Debug, PartialEq, Eq, Structural)]
pub enum SampleEncoding {
    /// Single-precision float PCM: the one encoding the pipeline accepts.
    FloatPcm,
    SignedIntPcm,
    UnsignedIntPcm,
}

/// One stream configuration as the device enumerates it: a channel count
/// and a supported sample-rate range for one sample encoding.
#[derive(Clone, Copy, Debug, PartialEq, Eq, Structural)]
pub struct StreamConfigDesc {
    pub channels: u16,
    pub min_rate: u32,
    pub max_rate: u32,
    pub encoding: SampleEncoding,
}

/// The capture stream to open: the negotiated channel count and sample rate.
#[derive(Clone, Copy, Debug, PartialEq, Eq, Structural)]
pub struct StreamChoice {
    pub channels: u16,
    pub sample_rate: u32,
}

/// Why capture startup failed.  Both conditions abort the pipeline; there is
/// no degraded mode.
#[derive(Clone, Copy, Debug, PartialEq, Eq, Structural)]
pub enum CaptureError {
    /// No input device exists.
    DeviceUnavailable,
    /// No usable configuration: the device enumerated none, or its first
    /// configuration is not single-precision float PCM.
    UnsupportedFormat,
}

/// Negotiate the capture stream from what the platform reports: take the
/// first enumerated configuration at its maximum sample rate, and accept it
/// only if it carries float PCM; anything else is a hard failure.
pub fn plan_capture(device_present: bool, configs: &Vec<StreamConfigDesc>) -> (r: Result<
    StreamChoice,
    CaptureError,
>)
    ensures
        !device_present ==> r == Err::<StreamChoice, CaptureError>(
            CaptureError::DeviceUnavailable,
        ),
        device_present && (configs@.len() == 0 || configs@[0].encoding
            != SampleEncoding::FloatPcm) ==> r == Err::<StreamChoice, CaptureError>(
            CaptureError::UnsupportedFormat,
        ),
        device_present && configs@.len() > 0 && configs@[0].encoding == SampleEncoding::FloatPcm
            ==> r == Ok::<StreamChoice, CaptureError>(
            (StreamChoice { channels: configs@[0].channels, sample_rate: configs@[0].max_rate }),
        ),
{
    if !device_present {
        return Err(CaptureError::DeviceUnavailable);
    }
    if configs.len() == 0 {
        return Err(CaptureError::UnsupportedFormat);
    }
    let first = configs[0];
    match first.encoding {
        SampleEncoding::FloatPcm => Ok(
            StreamChoice { channels: first.channels, sample_rate: first.max_rate },
        ),
        _ => Err(CaptureError::UnsupportedFormat),
    }
}

/// From an interleaved buffer of frames that are `channels` samples wide,
/// the first channel of every frame, in arrival order.  A trailing partial
/// frame still contributes its first sample, as the hardware delivers the
/// buffer front first.
pub fn extract_first_channel(input: &Vec<u32>, channels: usize) -> (out: Vec<u32>)
    requires
        channels >= 1,
        input@.len() + channels <= usize::MAX,
    ensures
        out@.len() == (input@.len() as int + channels - 1) / (channels as int),
        forall|i: int| 0 <= i < out@.len() ==> #[trigger] out@[i] == input@[i * (channels as int)],
{
    let ghost ch = channels as int;
    let mut out: Vec<u32> = Vec::new();
    let mut i: usize = 0;
    proof {
        assert(out@.len() * ch == 0) by (nonlinear_arith)
            requires
                out@.len() == 0,
        ;
    }
    while i < input.len()
        invariant
            channels >= 1,
            ch == channels as int,
            input@.len() + channels <= usize::MAX,
            i == out@.len() * ch,
            i <= input@.len() + channels - 1,
            forall|j: int| 0 <= j < out@.len() ==> #[trigger] out@[j] == input@[j * ch],
        decreases input@.len() + channels - i,
    {
        let ghost frames = out@.len() as int;
        out.push(input[i]);
        proof {
            assert(out@[frames] == input@[frames * ch]);
            assert((frames + 1) * ch == frames * ch + ch) by (nonlinear_arith);
        }
        i = i + channels;
    }
    proof {
        let n = input@.len() as int;
        let f = out@.len() as int;
        assert(f * ch >= n);
        assert(f == 0 || (f - 1) * ch < n) by {
            if f > 0 {
                assert((f - 1) * ch == f * ch - ch) by (nonlinear_arith);
            }
        }
        let r = n + ch - 1 - f * ch;
        assert(0 <= r < ch) by (nonlinear_arith)
            requires
                ch >= 1,
                r == n + ch - 1 - f * ch,
                f * ch >= n,
                f == 0 || (f - 1) * ch < n,
                f >= 0,
                n >= 0,
        ;
        vstd::arithmetic::div_mod::lemma_fundamental_div_mod_converse_div(n + ch - 1, ch, f, r);
    }
    out
}

} // verus!
