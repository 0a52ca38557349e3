use transcribe_cli::chunking::{chunk_ranges, failed_chunk, ChunkedTranscription};
use transcribe_cli::features::{
    centre_window, count_frames, zero_pad_waveform, FeaturePlan,
};
use transcribe_cli::gigaam::{
    GigaAmConfig, GigaAmError, RawEncoderConfig, RawGigaAmConfig, RawPreprocessorConfig,
};
use transcribe_cli::parakeet::{filterbank_name, ParakeetConfig, ParakeetError, RawParakeetConfig};

fn pairs(total: usize, max: usize) -> Vec<(usize, usize)> {
    chunk_ranges(total, max).iter().map(|range| (range.start, range.end)).collect()
}

#[test]
fn chunks_follow_one_another() {
    assert_eq!(pairs(0, 4), vec![(0, 0)]);
    assert_eq!(pairs(4, 4), vec![(0, 4)]);
    assert_eq!(pairs(5, 4), vec![(0, 4), (4, 5)]);
    assert_eq!(pairs(12, 4), vec![(0, 4), (4, 8), (8, 12)]);
    assert_eq!(pairs(3, usize::MAX), vec![(0, 3)]);
}

#[test]
fn chunks_hold_every_sample_once() {
    for total in 1..40usize {
        for max in 1..12usize {
            let all: Vec<usize> = pairs(total, max).iter().flat_map(|&(a, b)| a..b).collect();
            assert_eq!(all, (0..total).collect::<Vec<_>>());
            assert!(pairs(total, max).iter().all(|&(a, b)| a < b && b - a <= max));
        }
    }
}

#[test]
fn transcripts_have_a_line_for_each_chunk_that_says_something() {
    let mut run = ChunkedTranscription::new(10, 4);
    let first = run.next_chunk().expect("first");
    assert_eq!((first.start, first.end), (0, 4));
    let shown = run.record("  hello \n").expect("text");
    assert_eq!((shown.number, shown.total, shown.text.as_str()), (1, 3, "hello"));
    assert!(run.record(" \t").is_none());
    let last = run.next_chunk().expect("last");
    assert_eq!((last.start, last.end), (8, 10));
    let shown = run.record("world").expect("text");
    assert_eq!((shown.number, shown.total), (3, 3));
    assert!(run.next_chunk().is_none());
    assert_eq!(run.into_transcript(), "hello\nworld");
}

#[test]
fn an_empty_recording_has_nothing_to_transcribe() {
    let run = ChunkedTranscription::new(0, 4);
    assert!(run.next_chunk().is_none());
    assert_eq!(run.into_transcript(), "");
    assert_eq!(failed_chunk(12), "failed to transcribe chunk 12");
}

#[test]
fn safe_chunk_frames_reserve_positional_headroom() {
    let config = GigaAmConfig {
        sample_rate: 16_000,
        n_mels: 64,
        win_length: 320,
        hop_length: 160,
        n_fft: 512,
        center: false,
        max_input_frames: 5_000,
    };

    assert_eq!(config.safe_chunk_frames(), 4_936);
    assert_eq!(config.max_chunk_samples(), 789_920);
}

#[test]
fn short_models_still_get_long_chunks() {
    let config = GigaAmConfig {
        sample_rate: 16_000,
        n_mels: 64,
        win_length: 0,
        hop_length: usize::MAX,
        n_fft: 512,
        center: false,
        max_input_frames: 100,
    };
    assert_eq!(config.safe_chunk_frames(), 512);
    assert_eq!(config.max_chunk_samples(), usize::MAX);
}

fn raw_gigaam(preprocessor: Option<RawPreprocessorConfig>) -> RawGigaAmConfig {
    RawGigaAmConfig {
        sample_rate: Some(8_000),
        preprocessor,
        encoder: Some(RawEncoderConfig { pos_emb_max_len: None }),
    }
}

fn blank_section() -> RawPreprocessorConfig {
    RawPreprocessorConfig {
        sample_rate: None,
        features: None,
        win_length: None,
        hop_length: None,
        n_fft: None,
        center: None,
    }
}

#[test]
fn settings_have_defaults() {
    let config = GigaAmConfig::from_raw(raw_gigaam(Some(blank_section()))).expect("config");
    assert_eq!(
        config,
        GigaAmConfig {
            sample_rate: 8_000,
            n_mels: 64,
            win_length: 320,
            hop_length: 80,
            n_fft: 320,
            center: false,
            max_input_frames: 5_000,
        }
    );
    let mut section = blank_section();
    section.win_length = Some(400);
    section.sample_rate = Some(16_000);
    let config = GigaAmConfig::from_raw(raw_gigaam(Some(section))).expect("config");
    assert_eq!((config.win_length, config.n_fft, config.hop_length), (400, 400, 160));
}

#[test]
fn settings_need_their_sections() {
    let missing = GigaAmConfig::from_raw(raw_gigaam(None)).err().expect("no section");
    assert_eq!(missing, GigaAmError::NoPreprocessor);
    assert_eq!(missing.message(), "GigaAM config does not define a preprocessor section");
    let mut raw = raw_gigaam(Some(blank_section()));
    raw.encoder = None;
    let missing = GigaAmConfig::from_raw(raw).err().expect("no encoder");
    assert_eq!(missing, GigaAmError::NoEncoder);
    assert_eq!(missing.message(), "GigaAM config does not define an encoder section");
}

#[test]
fn features_need_sound_settings() {
    let good = GigaAmConfig::from_raw(raw_gigaam(Some(blank_section()))).expect("config");
    let plan = good.feature_plan(1_000).expect("plan");
    assert_eq!(plan.frame_count, 1 + (1_000 - 320) / 80);
    assert_eq!(plan.length, plan.frame_count as i64);

    let fault = |config: GigaAmConfig| config.feature_plan(0).err().expect("fault");
    let zero_rate = GigaAmConfig { sample_rate: 0, ..good };
    assert_eq!(fault(zero_rate).message(), "invalid GigaAM config: sample rate is zero");
    let zero_mels = GigaAmConfig { n_mels: 0, ..good };
    assert_eq!(fault(zero_mels).message(), "invalid GigaAM preprocessing config");
    let centered = GigaAmConfig { center: true, ..good };
    assert_eq!(
        fault(centered).message(),
        "unsupported GigaAM config: center=true is not implemented"
    );
}

#[test]
fn the_english_model_has_fixed_settings() {
    let raw = RawParakeetConfig { features_size: Some(128), max_tokens_per_step: None };
    let config = ParakeetConfig::from_raw(raw).expect("config");
    assert_eq!((config.n_mels, config.max_tokens_per_step), (128, 10));
    assert_eq!(config.max_chunk_samples(), 480_000);
    assert_eq!(config.pad_samples(), 256);

    let plan = config.feature_plan(16_000).expect("plan");
    assert_eq!(plan.frame_count, 101);
    assert_eq!(plan.valid_frames, 100);
    assert_eq!(plan.length, 100);
    let short = config.feature_plan(10).expect("plan");
    assert_eq!((short.frame_count, short.valid_frames), (1, 1));

    assert_eq!(filterbank_name(80), Ok("nemo80.npy"));
    assert_eq!(filterbank_name(128), Ok("nemo128.npy"));
    let raw = RawParakeetConfig { features_size: Some(64), max_tokens_per_step: None };
    let refused = ParakeetConfig::from_raw(raw).err().expect("size");
    assert_eq!(refused, ParakeetError::FeatureSize { size: 64 });
    assert_eq!(
        refused.message(),
        "unsupported Parakeet feature size 64; expected 80 or 128"
    );
    let zero = ParakeetConfig { sample_rate: 0, ..config };
    assert_eq!(
        zero.feature_plan(1).err().expect("rate").message(),
        "invalid Parakeet config: sample rate is zero"
    );
    let broken = ParakeetConfig { hop_length: 0, ..config };
    assert_eq!(
        broken.feature_plan(1).err().expect("hop").message(),
        "invalid Parakeet preprocessing config"
    );
}

#[test]
fn frames_lie_a_hop_apart() {
    assert_eq!(count_frames(10, 4, 2), 4);
    assert_eq!(count_frames(4, 4, 2), 1);
    assert_eq!(count_frames(1, 4, 2), 1);
    let plan = FeaturePlan {
        frame_count: 4,
        span: 4,
        hop: 2,
        size: 6,
        kinds: 2,
        valid_frames: 3,
        length: 3,
    };
    let samples: Vec<i32> = (1..=10).collect();
    assert_eq!(plan.frame(&samples, 0, 0), vec![1, 2, 3, 4, 0, 0]);
    assert_eq!(plan.frame(&samples, 0, 3), vec![7, 8, 9, 10, 0, 0]);
    let frames = vec![vec![1, 10], vec![2, 20], vec![3, 30]];
    assert_eq!(plan.tensor(&frames, 0), vec![1, 2, 3, 0, 10, 20, 30, 0]);
}

#[test]
fn padding_goes_on_both_sides() {
    assert_eq!(zero_pad_waveform(&[1, 2, 3], 0, 2), vec![0, 0, 1, 2, 3, 0, 0]);
    assert_eq!(zero_pad_waveform(&[1], 9, 0), vec![1]);
    assert_eq!(centre_window(&[1, 2, 3], 0, 6), vec![0, 1, 2, 3, 0, 0]);
    assert_eq!(centre_window(&[1, 2], 0, 2), vec![1, 2]);
}
