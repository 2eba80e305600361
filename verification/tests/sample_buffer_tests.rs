use rmms_engine::sample_buffer::{FramesIter, SampleBuffer};
use std::sync::Arc;

fn stereo() -> SampleBuffer<f32> {
    SampleBuffer::new(vec![vec![1.0, 2.0, 3.0], vec![-1.0, -2.0, -3.0]], 48000)
}

#[test]
fn sample_buffer_a() {
    let sample = SampleBuffer::<f32>::default();
    assert_eq!(sample.channels(), 0);
    assert_eq!(sample.frames(), 0);
}

#[test]
fn mod_a() {
    let sample = SampleBuffer::<f32>::default();
    assert!(sample.samples.is_empty());
    assert!(sample.path.is_none());
    assert_eq!(sample.sample_rate_original, 0);
    assert_eq!(sample.sample_rate_current, 0);
}

#[test]
fn new_keeps_data_and_rate() {
    let b = stereo();
    assert_eq!(b.channels(), 2);
    assert_eq!(b.frames(), 3);
    assert_eq!(b.sample_rate_original, 48000);
    assert_eq!(b.sample_rate_current, 0);
    assert!(b.path.is_none());
    assert_eq!(b.audio().len(), 2);
    assert_eq!(b.audio()[1], vec![-1.0, -2.0, -3.0]);
}

#[test]
fn frames_come_from_the_first_channel() {
    let b = SampleBuffer::new(vec![vec![1.0f32, 2.0], vec![5.0, 6.0, 7.0]], 1);
    assert_eq!(b.frames(), 2);
    let empty = SampleBuffer::<f32>::new(vec![], 1);
    assert_eq!(empty.frames(), 0);
}

#[test]
fn frame_gathers_one_sample_per_channel() {
    let b = stereo();
    assert_eq!(&*b.frame(1).unwrap(), &[2.0, -2.0]);
    assert!(b.frame(3).is_none());
    let ragged = SampleBuffer::new(vec![vec![1.0f32, 2.0], vec![5.0]], 1);
    assert!(ragged.frame(1).is_none());
    assert_eq!(&*ragged.frame(0).unwrap(), &[1.0, 5.0]);
    let none = SampleBuffer::<f32>::new(vec![], 1);
    assert_eq!(none.frame(7).unwrap().len(), 0);
}

#[test]
fn to_stereo_covers_every_channel_count() {
    let zero = SampleBuffer::<f32>::new(vec![], 8).to_stereo();
    assert_eq!(zero.samples, vec![Vec::<f32>::new(), Vec::new()]);
    assert_eq!(zero.sample_rate_original, 8);
    let mono = SampleBuffer::new(vec![vec![0.5f32, 0.25]], 8).to_stereo();
    assert_eq!(mono.samples, vec![vec![0.5, 0.25], vec![0.5, 0.25]]);
    let three = SampleBuffer::new(vec![vec![1.0f32], vec![2.0], vec![3.0]], 8).to_stereo();
    assert_eq!(three.channels(), 3);
    let again = mono.clone().to_stereo();
    assert_eq!(again.samples, mono.samples);
}

#[test]
fn reverse_and_audio_mut_change_nothing() {
    let mut b = stereo();
    b.reverse();
    b.audio_mut();
    assert_eq!(b.samples, stereo().samples);
}

#[test]
fn iter_frames_walks_forward() {
    let b = stereo();
    let mut it = b.iter_frames(0.0);
    assert_eq!(&*it.next().unwrap(), &[1.0, -1.0]);
    assert_eq!(&*it.next().unwrap(), &[2.0, -2.0]);
    assert_eq!(&*it.next().unwrap(), &[3.0, -3.0]);
    assert!(it.next().is_none());
    assert!(it.next().is_none());
}

#[test]
fn reversed_walk_stops_before_the_first_frame() {
    let b = stereo();
    let mut it = FramesIter::new(b.audio(), 0.0).reverse();
    assert_eq!(&*it.next().unwrap(), &[3.0, -3.0]);
    assert_eq!(&*it.next().unwrap(), &[2.0, -2.0]);
    assert!(it.next().is_none());
}

#[test]
fn override_channels_leaves_other_slots_as_they_were() {
    let b = stereo();
    let mut it = FramesIter::new(b.audio(), 9.0).override_channels(1);
    assert_eq!(&*it.next().unwrap(), &[1.0, 9.0]);
    let mut it = FramesIter::new(b.audio(), 9.0);
    assert_eq!(&*it.next().unwrap(), &[1.0, -1.0]);
    let mut it = it.override_channels(5).override_channels(1);
    assert_eq!(&*it.next().unwrap(), &[2.0, -1.0]);
}

#[test]
fn make_mut_copies_a_shared_buffer() {
    let mut a = Arc::new(stereo());
    let b = a.clone();
    SampleBuffer::make_mut(&mut a).samples[0][0] = 100.0;
    assert_eq!(a.samples[0][0], 100.0);
    assert_eq!(b.samples[0][0], 1.0);
    let mut only = Arc::new(stereo());
    only.make_mut().samples[1].push(4.0);
    assert_eq!(only.frames(), 3);
    assert_eq!(only.samples[1].len(), 4);
}

#[test]
fn clone_copies_channels_rates_and_path() {
    let mut a = stereo();
    a.sample_rate_current = 44100;
    a.path = Some(std::path::PathBuf::from("kick.wav"));
    let mut b = a.clone();
    assert_eq!(b.samples, a.samples);
    assert_eq!(b.sample_rate_original, 48000);
    assert_eq!(b.sample_rate_current, 44100);
    assert_eq!(b.path, a.path);
    b.samples[0][0] = 0.0;
    assert_eq!(a.samples[0][0], 1.0);
}
