use rmms_engine::handles::PlayHandle;
use rmms_engine::sample::Sample;
use rmms_engine::sample_buffer::SampleBuffer;
use std::sync::Arc;

fn buffer() -> Arc<SampleBuffer<f32>> {
    Arc::new(SampleBuffer::new(vec![vec![0.1, 0.2, 0.3], vec![1.1, 1.2, 1.3], vec![9.0, 9.0, 9.0]], 44100))
}

#[test]
fn next_plays_each_frame_once() {
    let mut s = Sample::new(buffer());
    assert!(!s.is_complete());
    assert_eq!(s.next(), Some([0.1, 1.1]));
    assert_eq!(s.next(), Some([0.2, 1.2]));
    assert_eq!(s.next(), Some([0.3, 1.3]));
    assert!(s.is_complete());
    assert_eq!(s.next(), None);
    assert_eq!(s.next(), None);
}

#[test]
fn a_short_second_channel_gives_none_but_counts() {
    let b = Arc::new(SampleBuffer::new(vec![vec![1.0f32, 2.0], vec![3.0]], 1));
    let mut s = Sample::new(b);
    assert_eq!(s.next(), Some([1.0, 3.0]));
    assert_eq!(s.next(), None);
    assert!(s.is_complete());
}

#[test]
fn an_empty_buffer_is_complete_at_once() {
    let mut s = Sample::new(Arc::new(SampleBuffer::<f32>::new(vec![], 1)));
    assert!(s.is_complete());
    assert_eq!(s.next(), None);
}

#[test]
fn render_mixes_until_the_sample_ends() {
    let mut s = Sample::new(buffer());
    let mut out = [[1.0f32, 1.0]; 5];
    let written = s.render(&mut out, |a: f32, b: f32| a + b);
    assert_eq!(written, 3);
    assert_eq!(out[0], [1.0 + 0.1, 1.0 + 1.1]);
    assert_eq!(out[2], [1.0 + 0.3, 1.0 + 1.3]);
    assert_eq!(out[3], [1.0, 1.0]);
    assert_eq!(out[4], [1.0, 1.0]);
}

#[test]
fn render_stops_when_the_buffer_is_full() {
    let mut s = Sample::new(buffer());
    let mut out = [[0.0f32, 0.0]; 2];
    assert_eq!(s.render(&mut out, |a: f32, b: f32| a + b), 2);
    assert_eq!(s.next(), Some([0.3, 1.3]));
}

#[test]
fn sample_mut_copies_a_shared_buffer() {
    let shared = buffer();
    let mut s = Sample::new(shared.clone());
    s.sample_mut().samples[0][0] = 5.0;
    assert_eq!(s.next(), Some([5.0, 1.1]));
    assert_eq!(shared.samples[0][0], 0.1);
}

#[test]
fn clones_play_independently() {
    let mut s = Sample::new(buffer());
    assert_eq!(s.next(), Some([0.1, 1.1]));
    let mut t = s.clone();
    assert_eq!(t.next(), Some([0.2, 1.2]));
    assert_eq!(s.next(), Some([0.2, 1.2]));
}

#[test]
fn sample_mut_leaves_other_holders_alone() {
    let mut s = Sample::new(buffer());
    let mut s2 = s.clone();
    s.sample_mut().samples[1][0] = 7.0;
    assert_eq!(s.next(), Some([0.1, 7.0]));
    assert_eq!(s2.next(), Some([0.1, 1.1]));
    // The rest of the copy is the old buffer.
    assert_eq!(s.next(), Some([0.2, 1.2]));
    assert_eq!(s.sample_mut().sample_rate_original, 44100);
}
