use workshop_timer::capture::{screenshot_frame_step, CAPTURE_FRAME};

#[test]
fn capture_is_asked_for_on_the_twentieth_frame_only() {
    let mut frame = 0u32;
    let mut asked = Vec::new();
    for _ in 0..40 {
        let (next, request) = screenshot_frame_step(frame);
        assert_eq!(next, frame + 1);
        if request {
            asked.push(next);
        }
        frame = next;
    }
    assert_eq!(asked, vec![20]);
    assert_eq!(CAPTURE_FRAME, 20);
    assert_eq!(screenshot_frame_step(u32::MAX - 1), (u32::MAX, false));
}
