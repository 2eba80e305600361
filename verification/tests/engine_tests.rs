use rmms_engine::engine::{AudioEngine, EngineAction, Event};
use rmms_engine::handles::PlayHandle;
use rmms_engine::sample::Sample;
use rmms_engine::sample_buffer::SampleBuffer;
use std::sync::Arc;

fn clip(frames: Vec<f32>) -> Sample<f32> {
    let right = frames.iter().map(|s| s * 10.0).collect();
    Sample::new(Arc::new(SampleBuffer::new(vec![frames, right], 44100)))
}

#[test]
fn events_push_clear_and_reset() {
    let mut engine: AudioEngine<Sample<f32>> = AudioEngine::new();
    assert_eq!(engine.handle_count(), 0);
    assert_eq!(engine.handle_event(Event::play_handle(clip(vec![1.0]))), EngineAction::Nothing);
    assert_eq!(engine.handle_event(Event::PushPlayHandle(clip(vec![2.0]))), EngineAction::Nothing);
    assert_eq!(engine.handle_count(), 2);
    assert_eq!(engine.handle_event(Event::RequestAudioDeviceReset), EngineAction::ResetOutputDevice);
    assert_eq!(engine.handle_count(), 2);
    assert_eq!(engine.handle_event(Event::Clear), EngineAction::Nothing);
    assert_eq!(engine.handle_count(), 0);
}

#[test]
fn tick_sums_the_handles_and_drops_finished_ones() {
    let mut engine = AudioEngine::new();
    engine.handle_event(Event::play_handle(clip(vec![0.5])));
    engine.handle_event(Event::play_handle(clip(vec![0.25, 0.125])));
    let add = |a: f32, b: f32| a + b;
    assert_eq!(engine.tick(0.0, add), [0.75, 7.5]);
    assert_eq!(engine.handle_count(), 2);
    assert_eq!(engine.tick(0.0, add), [0.125, 1.25]);
    assert_eq!(engine.handle_count(), 1);
    assert_eq!(engine.tick(0.0, add), [0.0, 0.0]);
    assert_eq!(engine.handle_count(), 0);
}

#[test]
fn tick_on_no_handles_is_silence() {
    let mut engine: AudioEngine<Sample<f32>> = AudioEngine::new();
    assert_eq!(engine.tick(0.0, |a: f32, b: f32| a + b), [0.0, 0.0]);
}

#[test]
fn a_dropped_handle_is_replaced_by_the_last_one() {
    let mut engine = AudioEngine::new();
    engine.handle_event(Event::play_handle(clip(vec![])));
    engine.handle_event(Event::play_handle(clip(vec![1.0, 1.0])));
    engine.handle_event(Event::play_handle(clip(vec![2.0])));
    assert_eq!(engine.tick(0.0, |a: f32, b: f32| a + b), [3.0, 30.0]);
    assert_eq!(engine.handle_count(), 2);
    assert_eq!(engine.tick(0.0, |a: f32, b: f32| a + b), [1.0, 10.0]);
    assert_eq!(engine.handle_count(), 1);
}

struct Countdown(u32);

impl PlayHandle for Countdown {
    type Sample = f32;
    fn is_complete(&self) -> bool {
        self.0 == 0
    }
    fn next(&mut self) -> Option<[f32; 2]> {
        if self.0 == 0 {
            None
        } else {
            self.0 -= 1;
            Some([self.0 as f32, 1.0])
        }
    }
}

#[test]
fn default_render_counts_the_frames_written() {
    let mut c = Countdown(2);
    let mut out = [[0.5f32, 0.5]; 3];
    assert_eq!(c.render(&mut out, |a: f32, b: f32| a + b), 2);
    assert_eq!(out, [[1.5, 1.5], [0.5, 1.5], [0.5, 0.5]]);
    assert!(c.is_complete());
}

fn int_clip(frames: Vec<u32>) -> Sample<u32> {
    let right = frames.iter().map(|s| s * 10).collect();
    Sample::new(Arc::new(SampleBuffer::new(vec![frames, right], 44100)))
}

#[test]
fn tick_mixes_in_the_order_swap_removal_leaves() {
    let mut engine = AudioEngine::new();
    engine.handle_event(Event::play_handle(int_clip(vec![])));
    engine.handle_event(Event::play_handle(int_clip(vec![1, 3])));
    engine.handle_event(Event::play_handle(int_clip(vec![2])));
    let shift = |acc: u32, s: u32| acc * 10 + s;
    // The empty clip is dropped and the last one asked in its place first.
    assert_eq!(engine.tick(0, shift), [21, 210]);
    assert_eq!(engine.handle_count(), 2);
    // The clip of one frame is done, the clip of two frames takes its place.
    assert_eq!(engine.tick(0, shift), [3, 30]);
    assert_eq!(engine.handle_count(), 1);
}

#[test]
fn each_handle_is_asked_once_per_tick() {
    let mut engine = AudioEngine::new();
    engine.handle_event(Event::play_handle(int_clip(vec![1, 2, 3])));
    engine.handle_event(Event::play_handle(int_clip(vec![4, 5, 6])));
    let add = |a: u32, b: u32| a + b;
    assert_eq!(engine.tick(0, add), [5, 50]);
    assert_eq!(engine.tick(0, add), [7, 70]);
    assert_eq!(engine.tick(0, add), [9, 90]);
    assert_eq!(engine.handle_count(), 2);
    assert_eq!(engine.tick(0, add), [0, 0]);
    assert_eq!(engine.handle_count(), 0);
}
