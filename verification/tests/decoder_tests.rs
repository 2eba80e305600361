use rmms_engine::decoder::{output_to_wav_layout, DecodeProgress, PacketOutcome};
use rmms_engine::sample_buffer::SampleBuffer;

#[test]
fn a_stream_without_rate_gets_the_default_one() {
    let p = DecodeProgress::<f32>::new(2, None);
    let b = p.finish();
    assert_eq!(b.sample_rate_original, 44100);
    assert_eq!(b.samples, vec![Vec::<f32>::new(), Vec::new()]);
    assert_eq!(DecodeProgress::<f32>::new(1, Some(8000)).finish().sample_rate_original, 8000);
}

#[test]
fn packets_are_appended_channel_by_channel() {
    let mut p = DecodeProgress::<f32>::new(2, Some(48000));
    assert!(p.accept(PacketOutcome::Decoded { frames: 2, container_channels: 2, samples: vec![1.0, 2.0, 10.0, 20.0] }));
    assert!(p.accept(PacketOutcome::Decoded { frames: 0, container_channels: 2, samples: vec![] }));
    assert!(p.accept(PacketOutcome::Decoded { frames: 1, container_channels: 2, samples: vec![3.0, 30.0] }));
    assert!(!p.accept(PacketOutcome::EndOfStream));
    let b = p.finish();
    assert_eq!(b.samples, vec![vec![1.0, 2.0, 3.0], vec![10.0, 20.0, 30.0]]);
    assert_eq!(b.sample_rate_original, 48000);
}

#[test]
fn whole_chunks_only_and_only_as_many_channels_as_the_stream_has() {
    let mut p = DecodeProgress::<f32>::new(1, None);
    // 5 samples over 2 channels: chunks of 2, the fifth sample is left over.
    assert!(p.accept(PacketOutcome::Decoded { frames: 2, container_channels: 2, samples: vec![1.0, 2.0, 3.0, 4.0, 5.0] }));
    assert_eq!(p.finish().samples, vec![vec![1.0, 2.0]]);
}

#[test]
fn more_than_a_hundred_failures_stop_loading() {
    let mut p = DecodeProgress::<f32>::new(1, None);
    for i in 0..100 {
        let outcome = if i % 2 == 0 { PacketOutcome::DecodeFailed } else { PacketOutcome::ReadFailed };
        assert!(p.accept(outcome));
        assert!(p.wants_packet());
    }
    assert!(!p.accept(PacketOutcome::ReadFailed));
    assert!(!p.wants_packet());
}

#[test]
fn empty_packets_are_not_failures() {
    let mut p = DecodeProgress::<f32>::new(1, None);
    for _ in 0..300 {
        assert!(p.accept(PacketOutcome::Decoded { frames: 0, container_channels: 1, samples: vec![] }));
    }
    assert!(p.wants_packet());
}

#[test]
fn wav_layout_interleaves_frames() {
    let b = SampleBuffer::new(vec![vec![1.0f32, 2.0, 3.0], vec![-1.0, -2.0, -3.0, -4.0]], 22050);
    let w = output_to_wav_layout(&b, 0.0);
    assert_eq!(w.channels, 2);
    assert_eq!(w.sample_rate, 22050);
    assert_eq!(w.bits_per_sample, 32);
    assert_eq!(w.samples, vec![1.0, -1.0, 2.0, -2.0, 3.0, -3.0]);
}
