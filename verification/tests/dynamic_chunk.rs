use transcribe_cli::dynamic_chunk::{
    count_signs, DynamicChunk, DynamicChunkConfig, DynamicChunkEngine, DynamicChunkError,
};

/// A gate for speech: a high-pass filter, a soft gate and thresholds that follow
/// the background noise.
struct Gate {
    previous_input: f32,
    previous_output: f32,
    gate_floor: f32,
    noise_floor: f32,
}

struct Metrics {
    rms: f32,
    peak: f32,
    activity: f32,
    peak_to_rms: f32,
    crossing_rate: f32,
}

fn measure(samples: &[f32]) -> Metrics {
    let peak = samples.iter().map(|sample| sample.abs()).fold(0.0f32, f32::max);
    let power = samples.iter().map(|sample| sample * sample).sum::<f32>() / samples.len() as f32;
    let rms = power.sqrt();
    let dead_zone = (peak * 0.10).max(rms * 0.25).max(0.0015);
    let signs: Vec<i8> = samples
        .iter()
        .map(|&sample| {
            if sample >= dead_zone {
                1
            } else if sample <= -dead_zone {
                -1
            } else {
                0
            }
        })
        .collect();
    let counts = count_signs(&signs);
    Metrics {
        rms,
        peak,
        activity: counts.active as f32 / samples.len() as f32,
        peak_to_rms: if rms > 0.0 { peak / rms } else { 0.0 },
        crossing_rate: counts.crossings as f32 / samples.len() as f32,
    }
}

impl Gate {
    fn new() -> Self {
        Gate { previous_input: 0.0, previous_output: 0.0, gate_floor: 0.003, noise_floor: 0.003 }
    }

    fn condition(&mut self, frame: &[f32]) -> Vec<f32> {
        let mut filtered = Vec::new();
        for &sample in frame {
            let value = sample - self.previous_input + 0.97 * self.previous_output;
            self.previous_input = sample;
            self.previous_output = value;
            filtered.push(value);
        }
        let peak = filtered.iter().map(|value| value.abs()).fold(0.0f32, f32::max);
        let power = filtered.iter().map(|value| value * value).sum::<f32>();
        let rms = (power / filtered.len() as f32).sqrt();
        let noise = rms <= self.gate_floor * 2.4 + 0.0015 && peak <= self.gate_floor * 6.0 + 0.012;
        self.gate_floor = if noise {
            self.gate_floor * 0.96 + rms * 0.04
        } else {
            self.gate_floor * 0.995
        };
        let floor_gain = if noise { 0.16 } else { 0.34 };
        let threshold = if noise {
            self.gate_floor * 2.2 + 0.001
        } else {
            self.gate_floor * 1.6 + 0.0007
        };
        let knee = threshold * 1.1 + 0.0008;
        for value in &mut filtered {
            let magnitude = value.abs();
            let gain = if magnitude <= threshold {
                floor_gain
            } else if magnitude < threshold + knee {
                floor_gain + (1.0 - floor_gain) * ((magnitude - threshold) / knee)
            } else {
                1.0
            };
            *value *= gain;
        }
        filtered
    }

    fn is_speech(&self, metrics: &Metrics, continuing: bool) -> bool {
        let start = (self.noise_floor * 2.7 + 0.001).max(0.010);
        let go_on = (self.noise_floor * 1.6 + 0.0007).max(0.006);
        if continuing {
            metrics.rms >= go_on
                && metrics.peak >= go_on * 1.35
                && metrics.activity >= 0.12
                && (metrics.crossing_rate <= 0.32 + metrics.activity * 0.05
                    || (metrics.activity >= 0.20 && metrics.peak_to_rms >= 1.55))
        } else {
            metrics.rms >= start
                && metrics.peak >= start * 1.7
                && metrics.activity >= 0.18
                && (metrics.crossing_rate <= 0.22 + metrics.activity * 0.06
                    || (metrics.activity >= 0.30 && metrics.peak_to_rms >= 1.75))
        }
    }

    fn feed(
        &mut self,
        engine: &mut DynamicChunkEngine<f32>,
        frame: Vec<f32>,
        last: bool,
        chunks: &mut Vec<DynamicChunk<f32>>,
    ) {
        let metrics = measure(&self.condition(&frame));
        let speech = self.is_speech(&metrics, engine.is_in_speech());
        if engine.process_frame(frame, speech, last, chunks) && metrics.rms <= 0.0025 {
            self.noise_floor = self.noise_floor * 0.95 + metrics.rms * 0.05;
        }
    }

    fn push(
        &mut self,
        engine: &mut DynamicChunkEngine<f32>,
        samples: &[f32],
    ) -> Vec<DynamicChunk<f32>> {
        let mut chunks = Vec::new();
        for frame in engine.push_audio(samples) {
            self.feed(engine, frame, false, &mut chunks);
        }
        chunks
    }

    fn finish(&mut self, engine: &mut DynamicChunkEngine<f32>) -> Vec<DynamicChunk<f32>> {
        let mut chunks = Vec::new();
        let rest = engine.take_remainder();
        if !rest.is_empty() {
            self.feed(engine, rest, true, &mut chunks);
        }
        chunks.extend(engine.finish_audio());
        chunks
    }
}

fn speech_like_samples(len: usize, amplitude: f32) -> Vec<f32> {
    let pattern = [0.0, 0.35, 0.8, 0.45, 0.05, -0.3, -0.75, -0.4];
    (0..len).map(|index| amplitude * pattern[index % pattern.len()]).collect()
}

#[test]
fn skips_silence_and_emits_speech_segments() {
    let config = DynamicChunkConfig::for_live_stream(1_000, 10_000).expect("config");
    let mut engine = DynamicChunkEngine::new(config);
    let mut gate = Gate::new();
    let silence = vec![0.0; 500];
    let speech = speech_like_samples(800, 0.12);
    let tail = vec![0.0; 600];

    let mut chunks = gate.push(&mut engine, &silence);
    chunks.extend(gate.push(&mut engine, &speech));
    chunks.extend(gate.push(&mut engine, &tail));
    chunks.extend(gate.finish(&mut engine));

    assert_eq!(chunks.len(), 1);
    assert!(chunks[0].samples.len() >= 800);
}

#[test]
fn splits_long_speech_with_partial_chunk() {
    let mut config = DynamicChunkConfig::for_live_stream(1_000, 10_000).expect("config");
    config.max_segment_samples = 1_200;
    config.continuation_samples = 200;
    let mut engine = DynamicChunkEngine::new(config);
    let mut gate = Gate::new();
    let speech = speech_like_samples(3_200, 0.14);

    let mut chunks = gate.push(&mut engine, &speech);
    chunks.extend(gate.finish(&mut engine));

    assert!(chunks.len() >= 2);
}

#[test]
fn live_limits_follow_the_rate() {
    let config = DynamicChunkConfig::for_live_stream(16_000, 96_000).expect("config");
    assert_eq!(config.frame_samples, 480);
    assert_eq!(config.pre_roll_samples, 3_840);
    assert_eq!(config.min_speech_frames, 6);
    assert_eq!(config.max_silence_frames, 24);
    assert_eq!(config.min_segment_samples, 3_840);
    assert_eq!(config.max_segment_samples, 96_000);
    assert_eq!(config.continuation_samples, 14_400);

    let short = DynamicChunkConfig::for_live_stream(16_000, 10_000).expect("config");
    assert_eq!(short.max_segment_samples, 10_000);
    assert_eq!(short.continuation_samples, 5_000);
    assert_eq!(DynamicChunkConfig::for_live_stream(10, 10).expect("config").frame_samples, 1);
}

#[test]
fn refuses_rates_and_windows_of_zero() {
    let rate = DynamicChunkConfig::for_live_stream(0, 0).err().expect("zero rate");
    assert!(matches!(rate, DynamicChunkError::ZeroSampleRate));
    assert_eq!(rate.message(), "dynamic chunk sample rate must be greater than zero");
    let window = DynamicChunkConfig::for_live_stream(10, 0).err().expect("zero window");
    assert!(matches!(window, DynamicChunkError::ZeroModelWindow));
    assert_eq!(window.message(), "dynamic chunk model window size must be greater than zero");
}

fn tiny() -> DynamicChunkConfig {
    DynamicChunkConfig {
        frame_samples: 2,
        pre_roll_samples: 4,
        min_speech_frames: 2,
        max_silence_frames: 2,
        min_segment_samples: 3,
        max_segment_samples: 100,
        continuation_samples: 2,
    }
}

fn run(config: DynamicChunkConfig, frames: &[(Vec<u32>, bool)]) -> Vec<Vec<u32>> {
    let mut engine = DynamicChunkEngine::new(config);
    let mut chunks = Vec::new();
    for (frame, speech) in frames {
        engine.process_frame(frame.clone(), *speech, false, &mut chunks);
    }
    chunks.extend(engine.finish_audio());
    chunks.into_iter().map(|chunk| chunk.samples).collect()
}

#[test]
fn segments_start_with_what_came_before() {
    let frames = vec![
        (vec![1, 2], false),
        (vec![3, 4], true),
        (vec![5, 6], true),
        (vec![7, 8], false),
        (vec![9, 10], false),
        (vec![11, 12], false),
    ];
    assert_eq!(run(tiny(), &frames), vec![vec![3, 4, 5, 6, 7, 8, 9, 10]]);
}

#[test]
fn silence_alone_gives_nothing() {
    let frames: Vec<(Vec<u32>, bool)> = (0..20).map(|i| (vec![i, i], false)).collect();
    assert!(run(tiny(), &frames).is_empty());
}

#[test]
fn long_segments_are_cut_at_the_limit() {
    let mut config = tiny();
    config.max_segment_samples = 6;
    let frames: Vec<(Vec<u32>, bool)> = (0..7).map(|i| (vec![2 * i, 2 * i + 1], true)).collect();
    let chunks = run(config, &frames);
    assert_eq!(chunks, vec![(0..6).collect::<Vec<u32>>(), (6..12).collect()]);
}

#[test]
fn the_last_frame_ends_a_segment() {
    let mut engine = DynamicChunkEngine::new(tiny());
    let mut chunks = Vec::new();
    engine.process_frame(vec![1u32, 2], true, false, &mut chunks);
    engine.process_frame(vec![3, 4], true, false, &mut chunks);
    assert!(engine.is_in_speech());
    engine.process_frame(vec![5], false, true, &mut chunks);
    assert!(!engine.is_in_speech());
    assert_eq!(chunks.len(), 1);
    assert_eq!(chunks[0].samples, vec![1, 2, 3, 4, 5]);
    assert!(engine.finish_audio().is_empty());
}

#[test]
fn frames_do_not_depend_on_how_samples_arrive() {
    let samples: Vec<u32> = (0..11).collect();
    let mut whole = DynamicChunkEngine::new(tiny());
    let mut parts = DynamicChunkEngine::new(tiny());
    let expected = whole.push_audio(&samples);
    let mut found = Vec::new();
    for piece in samples.chunks(3) {
        found.extend(parts.push_audio(piece));
    }
    assert_eq!(found, expected);
    assert_eq!(found.len(), 5);
    assert_eq!(parts.take_remainder(), vec![10]);
}

#[test]
fn counts_loud_samples_and_their_turns() {
    let counts = count_signs(&[0, 1, 1, 0, -1, 0, 0, 1, -1, -1, 0]);
    assert_eq!(counts.active, 6);
    assert_eq!(counts.crossings, 3);
    let quiet = count_signs(&[0, 0, 0]);
    assert_eq!((quiet.active, quiet.crossings), (0, 0));
}

#[test]
fn segments_are_pieces_of_the_stream_in_order() {
    let mut config = tiny();
    config.max_segment_samples = 8;
    let speech = [false, true, true, true, true, true, false, false, false, true, true, false];
    let frames: Vec<(Vec<u32>, bool)> = speech
        .iter()
        .cycle()
        .take(48)
        .enumerate()
        .map(|(i, &is_speech)| (vec![2 * i as u32, 2 * i as u32 + 1], is_speech))
        .collect();
    let chunks = run(config, &frames);
    assert!(chunks.len() > 4);
    let mut floor = 0;
    for chunk in chunks {
        assert!(chunk[0] >= floor);
        for (i, &sample) in chunk.iter().enumerate() {
            assert_eq!(sample, chunk[0] + i as u32);
        }
        floor = chunk[0] + chunk.len() as u32;
    }
}

#[test]
fn the_end_gives_the_open_segment_with_what_waits() {
    let mut config = tiny();
    config.min_speech_frames = 1;
    let mut engine = DynamicChunkEngine::new(config);
    let mut chunks = Vec::new();
    for frame in engine.push_audio(&[1u32, 2, 3]) {
        engine.process_frame(frame, true, false, &mut chunks);
    }
    assert!(engine.is_in_speech() && chunks.is_empty());
    let rest = engine.take_remainder();
    assert_eq!(rest, vec![3]);
    engine.process_frame(rest, false, true, &mut chunks);
    chunks.extend(engine.finish_audio());
    assert_eq!(chunks.len(), 1);
    assert_eq!(chunks[0].samples, vec![1, 2, 3]);
}
