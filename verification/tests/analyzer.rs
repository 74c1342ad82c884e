use spectra::analyzer::{is_pow2_checked, Analyzer, AnalyzerAction, AnalyzerEvent};

#[test]
fn pow2_check_decides_window_lengths() {
    assert!(is_pow2_checked(1));
    assert!(is_pow2_checked(2));
    assert!(is_pow2_checked(1024));
    assert!(!is_pow2_checked(0));
    assert!(!is_pow2_checked(3));
    assert!(!is_pow2_checked(1000));
}

#[test]
fn push_returns_window_exactly_at_boundary() {
    let mut a = Analyzer::new(8);
    for k in 0..7u32 {
        assert!(a.push_sample(k).is_none());
    }
    let w = a.push_sample(7).expect("eighth sample must complete the window");
    assert_eq!(w, vec![0, 1, 2, 3, 4, 5, 6, 7]);
    // The next cycle starts empty.
    for k in 0..7u32 {
        assert!(a.push_sample(k).is_none());
    }
    assert!(a.push_sample(7).is_some());
}

#[test]
fn window_completes_once_per_cycle() {
    // One window per 2*WINDOW samples, at a steady rate across cycles.
    let size: usize = 1024;
    let mut a = Analyzer::new(size);
    let first: Vec<u32> = (0..size as u32).collect();
    let out = a.feed(&first);
    assert_eq!(out.len(), 1);
    assert_eq!(out[0].len(), size);

    let next: Vec<u32> = (0..(3 * size) as u32).collect();
    let out2 = a.feed(&next);
    assert_eq!(out2.len(), 3);
    for w in &out2 {
        assert_eq!(w.len(), size);
    }
}

#[test]
fn feed_preserves_order() {
    // Windows come out in the exact order their samples went in.
    let size: usize = 16;
    let mut a = Analyzer::new(size);
    let stream: Vec<u32> = (0..48u32).collect();
    let out = a.feed(&stream);
    assert_eq!(out.len(), 3);
    for (j, w) in out.iter().enumerate() {
        let lo: u32 = (j * size) as u32;
        let want: Vec<u32> = (lo..lo + size as u32).collect();
        assert_eq!(w, &want);
    }
}

#[test]
fn feed_keeps_leftover_for_next_call() {
    let mut a = Analyzer::new(4);
    let out = a.feed(&vec![10, 11, 12, 13, 14, 15]);
    assert_eq!(out, vec![vec![10, 11, 12, 13]]);
    // 14 and 15 stay buffered: two more samples complete the next window.
    let out2 = a.feed(&vec![16, 17]);
    assert_eq!(out2, vec![vec![14, 15, 16, 17]]);
}

#[test]
fn partial_window_not_emitted_on_close() {
    // Closing the input mid-window stops the analyzer without a spectrum
    // for the incomplete window.
    let mut a = Analyzer::new(1024);
    for k in 0..100u32 {
        let action = a.on_event(AnalyzerEvent::Sample(k));
        assert!(matches!(action, AnalyzerAction::Consume));
    }
    let action = a.on_event(AnalyzerEvent::InputClosed);
    assert!(matches!(action, AnalyzerAction::Stop));
}

#[test]
fn emit_carries_the_completed_window() {
    let mut a = Analyzer::new(4);
    assert!(matches!(a.on_event(AnalyzerEvent::Sample(5)), AnalyzerAction::Consume));
    assert!(matches!(a.on_event(AnalyzerEvent::Sample(6)), AnalyzerAction::Consume));
    assert!(matches!(a.on_event(AnalyzerEvent::Sample(7)), AnalyzerAction::Consume));
    match a.on_event(AnalyzerEvent::Sample(8)) {
        AnalyzerAction::Emit(w) => assert_eq!(w, vec![5, 6, 7, 8]),
        _ => panic!("fourth sample must emit the window"),
    }
}
