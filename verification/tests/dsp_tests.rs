use rmms_engine::dsp::{invert, mix, reverse};
use rmms_engine::sample_buffer::SampleBuffer;

#[test]
fn reverse_flips_each_channel() {
    let mut b = SampleBuffer::new(vec![vec![1.0f32, 2.0, 3.0], vec![4.0, 5.0]], 10);
    reverse(&mut b);
    assert_eq!(b.samples, vec![vec![3.0, 2.0, 1.0], vec![5.0, 4.0]]);
    reverse(&mut b);
    assert_eq!(b.samples, vec![vec![1.0, 2.0, 3.0], vec![4.0, 5.0]]);
    assert_eq!(b.sample_rate_original, 10);
}

#[test]
fn invert_flips_the_sign_of_every_sample() {
    let mut b = SampleBuffer::new(vec![vec![1.0f32, -0.5], vec![0.25]], 10);
    invert(&mut b, |s: f32| s * -1.0);
    assert_eq!(b.samples, vec![vec![-1.0, 0.5], vec![-0.25]]);
    invert(&mut b, |s: f32| s * -1.0);
    assert_eq!(b.samples, vec![vec![1.0, -0.5], vec![0.25]]);
}

#[test]
fn mix_adds_sample_by_sample() {
    let a = SampleBuffer::new(vec![vec![1.0f32, 2.0, 3.0], vec![1.0, 1.0]], 44100);
    let b = SampleBuffer::new(vec![vec![0.5f32], vec![2.0, 2.0, 2.0]], 22050);
    let m = mix(&a, &b, 0.0, |x: f32, y: f32| x + y);
    assert_eq!(m.samples, vec![vec![1.5, 2.0, 3.0], vec![3.0, 3.0]]);
    assert_eq!(m.sample_rate_original, 44100);
}

#[test]
fn mix_keeps_the_shorter_channel_count() {
    let a = SampleBuffer::new(vec![vec![1.0f32], vec![2.0], vec![3.0]], 1);
    let b = SampleBuffer::new(vec![vec![1.0f32]], 1);
    let m = mix(&a, &b, 0.0, |x: f32, y: f32| x + y);
    assert_eq!(m.samples, vec![vec![2.0]]);
}
