use vtt::vad::{min_speech_frames, speech_in_frames, trim_bounds, FRAME_MS, MIN_SPEECH_MS};

#[test]
fn speech_needs_enough_loud_frames() {
    assert_eq!(MIN_SPEECH_MS, 300);
    assert_eq!(FRAME_MS, 30);
    assert_eq!(min_speech_frames(), 10);
    assert!(!speech_in_frames(&vec![]));
    assert!(!speech_in_frames(&vec![true; 9]));
    assert!(speech_in_frames(&vec![true; 10]));
    let mut mixed = vec![false; 30];
    for i in (0..30).step_by(3) {
        mixed[i] = true;
    }
    assert!(speech_in_frames(&mixed));
    mixed[0] = false;
    assert!(!speech_in_frames(&mixed));
}

#[test]
fn trim_keeps_the_loud_middle_with_padding() {
    let front = vec![false, false, true, false, false];
    let back = vec![false, false, true, false, false];
    assert_eq!(trim_bounds(&front, &back, 10, 2, 1), Some((3, 7)));
    assert_eq!(trim_bounds(&front, &back, 10, 2, 0), Some((4, 6)));
    assert_eq!(trim_bounds(&front, &back, 10, 2, 9), Some((0, 10)));
}

#[test]
fn trim_of_silence_keeps_nothing_but_a_short_tail() {
    let quiet = vec![false; 5];
    assert_eq!(trim_bounds(&quiet, &quiet, 10, 2, 1), None);
    let quiet = vec![false; 2];
    assert_eq!(trim_bounds(&quiet, &quiet, 5, 2, 0), Some((4, 5)));
    assert_eq!(trim_bounds(&vec![], &vec![], 0, 3, 4), None);
    assert_eq!(trim_bounds(&vec![], &vec![], 2, 3, 0), Some((0, 2)));
}

#[test]
fn trim_stops_at_the_last_loud_frame() {
    let front = vec![true, false, false, false];
    let back = vec![false, true, false, false];
    assert_eq!(trim_bounds(&front, &back, 12, 3, 0), Some((0, 9)));
    let back = vec![false, false, false, false];
    assert_eq!(trim_bounds(&front, &back, 12, 3, 0), Some((0, 3)));
}
