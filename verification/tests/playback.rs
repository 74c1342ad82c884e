use spectra::playback::fill_output;

#[test]
fn fill_copies_one_clip_value_per_frame() {
    // Stereo output: both samples of each frame take the clip value at the
    // running position.
    let clip = vec![10, 20, 30, 40];
    let (buf, pos, done) = fill_output(&clip, 0, 6, 2);
    assert_eq!(buf, vec![10, 10, 20, 20, 30, 30]);
    assert_eq!(pos, 3);
    assert!(!done);
}

#[test]
fn fill_past_end_is_silence_and_done() {
    // Out-of-bounds reads yield silence; the returned flag signals that
    // playback passed the clip's end.
    let clip = vec![10, 20, 30];
    let (buf, pos, done) = fill_output(&clip, 2, 6, 2);
    assert_eq!(buf, vec![30, 30, 0, 0, 0, 0]);
    assert_eq!(pos, 5);
    assert!(done);
}

#[test]
fn fill_counts_a_partial_final_frame() {
    let clip = vec![5, 6, 7, 8];
    let (buf, pos, done) = fill_output(&clip, 0, 5, 2);
    assert_eq!(buf, vec![5, 5, 6, 6, 7]);
    assert_eq!(pos, 3);
    assert!(!done);
}

#[test]
fn fill_exactly_at_end_is_done() {
    let clip = vec![1, 2];
    let (buf, pos, done) = fill_output(&clip, 0, 4, 2);
    assert_eq!(buf, vec![1, 1, 2, 2]);
    assert_eq!(pos, 2);
    assert!(done);
}
