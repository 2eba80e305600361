use rmms_engine::frame::FrameModifier;
use rmms_engine::handles::{PlayHandle, PlayHandleChain};
use rmms_engine::instruments::LoopType;
use rmms_engine::pattern::{Pattern, PatternFrame};
use rmms_engine::sample::Sample;
use rmms_engine::sample_buffer::SampleBuffer;
use std::sync::Arc;

#[test]
fn frames_can_be_rearranged() {
    assert_eq!([1.0f32, 2.0].force_channel(0), [1.0, 1.0]);
    assert_eq!([1.0f32, 2.0].force_channel(1), [2.0, 2.0]);
    assert_eq!([1.0f32, 2.0].swap_channels(), [2.0, 1.0]);
    assert_eq!([1.0f32, 2.0].swap_channels().swap_channels(), [1.0, 2.0]);
}

#[test]
fn loops_are_off_by_default() {
    assert_eq!(LoopType::default(), LoopType::Off);
}

#[test]
fn patterns_keep_their_steps_in_order() {
    let p: Pattern<u8> = Pattern::new()
        .push(PatternFrame::new().push(1).push(2))
        .push_empty()
        .push(PatternFrame::new().push(3));
    let mut q = Pattern::new().push(PatternFrame::new().push(4));
    q.merge(p);
    let steps: Vec<Vec<u8>> = q.into_steps().into_iter().map(|s| s.frame).collect();
    assert_eq!(steps, vec![vec![4], vec![1, 2], vec![], vec![3]]);
}

#[test]
fn chain_hands_the_handle_on() {
    let s = Sample::new(Arc::new(SampleBuffer::new(vec![vec![1.0f32], vec![2.0]], 1)));
    let mut t = s.chain(|h: Sample<f32>| h);
    assert_eq!(t.next(), Some([1.0, 2.0]));
}
