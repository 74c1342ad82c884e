use spectra::capture::{
    extract_first_channel, plan_capture, CaptureError, SampleEncoding, StreamChoice,
    StreamConfigDesc,
};

fn float_config(channels: u16, min_rate: u32, max_rate: u32) -> StreamConfigDesc {
    StreamConfigDesc { channels, min_rate, max_rate, encoding: SampleEncoding::FloatPcm }
}

#[test]
fn no_device_is_unavailable() {
    let configs = vec![float_config(2, 8_000, 48_000)];
    assert_eq!(plan_capture(false, &configs), Err(CaptureError::DeviceUnavailable));
}

#[test]
fn no_config_is_unsupported() {
    assert_eq!(plan_capture(true, &vec![]), Err(CaptureError::UnsupportedFormat));
}

#[test]
fn non_float_first_config_is_unsupported() {
    // Only float PCM is usable; an integer format is a hard failure, not a
    // fallback, even if a float configuration comes later.
    let configs = vec![
        StreamConfigDesc {
            channels: 2,
            min_rate: 8_000,
            max_rate: 44_100,
            encoding: SampleEncoding::SignedIntPcm,
        },
        float_config(2, 8_000, 48_000),
    ];
    assert_eq!(plan_capture(true, &configs), Err(CaptureError::UnsupportedFormat));
}

#[test]
fn first_config_taken_at_max_rate() {
    let configs = vec![float_config(2, 8_000, 48_000), float_config(1, 8_000, 96_000)];
    assert_eq!(
        plan_capture(true, &configs),
        Ok(StreamChoice { channels: 2, sample_rate: 48_000 })
    );
}

#[test]
fn extract_takes_first_channel_of_each_frame() {
    // Stereo frames [l, r]: the left samples, in arrival order.
    let out = extract_first_channel(&vec![1, 2, 3, 4, 5, 6], 2);
    assert_eq!(out, vec![1, 3, 5]);
}

#[test]
fn extract_keeps_mono_streams_whole() {
    let out = extract_first_channel(&vec![7, 8, 9], 1);
    assert_eq!(out, vec![7, 8, 9]);
}

#[test]
fn extract_reads_partial_final_frame() {
    // A trailing partial frame still has a first channel.
    let out = extract_first_channel(&vec![1, 2, 3, 4, 5, 6, 7], 3);
    assert_eq!(out, vec![1, 4, 7]);
}
