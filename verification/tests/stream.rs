use transcribe_cli::stream::{
    combine_preview_texts, find_word_overlap, merge_stream_tail, trim_stream_overlap, words_match,
    StreamConfig, StreamConfigError, StreamEngine, StreamTranscriptController,
};

fn small_config(hold_words: usize) -> StreamConfig {
    StreamConfig {
        sample_rate: 16_000,
        window_samples: 10,
        overlap_samples: 4,
        max_dedup_words: 24,
        hold_words,
    }
}

#[test]
fn emits_full_and_partial_audio_windows() {
    let config = StreamConfig {
        sample_rate: 16_000,
        window_samples: 6,
        overlap_samples: 2,
        max_dedup_words: 24,
        hold_words: 3,
    };
    let mut engine = StreamEngine::new(config);

    let full = engine.push_audio(&[0.0, 1.0, 2.0, 3.0, 4.0, 5.0, 6.0, 7.0, 8.0]);
    let tail = engine.finish_audio().expect("tail chunk");

    assert_eq!(full.len(), 1);
    assert_eq!(full[0].samples, vec![0.0, 1.0, 2.0, 3.0, 4.0, 5.0]);
    assert_eq!(full[0].start_sample, 0);
    assert_eq!(full[0].end_sample, 6);
    assert_eq!(tail.samples, vec![4.0, 5.0, 6.0, 7.0, 8.0]);
    assert_eq!(tail.start_sample, 4);
    assert!(tail.is_partial);
}

#[test]
fn computes_window_count_for_incremental_stream() {
    let config = StreamConfig::for_model(16_000, 16_000).expect("config");

    assert_eq!(config.window_count(0), 0);
    assert_eq!(config.window_count(16_000), 2);
    assert_eq!(config.window_count(24_000), 3);
}

#[test]
fn keeps_full_model_window_for_file_stream() {
    let config = StreamConfig::for_model(16_000, 480_000).expect("config");

    assert_eq!(config.window_samples, 480_000);
    assert_eq!(config.overlap_samples, 96_000);
}

#[test]
fn confirms_overlap_at_window_boundary_without_losing_words() {
    let mut controller = StreamTranscriptController::new(&small_config(8));

    let update =
        controller.resolve_next_window("hello brave new world", "new world again there", false);

    assert_eq!(update.confirmed_text, Some("hello brave".to_string()));
    assert_eq!(update.preview_text, Some("new world again there".to_string()));
}

#[test]
fn delays_commit_when_boundary_has_no_text_overlap() {
    let mut controller = StreamTranscriptController::new(&small_config(8));

    let update =
        controller.resolve_next_window("hello brave new world", "something else entirely", false);

    assert_eq!(update.confirmed_text, None);
    assert_eq!(
        update.preview_text,
        Some("hello brave new world something else entirely".to_string())
    );
}

#[test]
fn finalizes_pending_window_against_confirmed_tail() {
    let mut controller = StreamTranscriptController::new(&small_config(8));
    let update =
        controller.resolve_next_window("hello brave new world", "new world again there", false);
    assert_eq!(update.confirmed_text, Some("hello brave".to_string()));

    assert_eq!(
        controller.finalize_window("new world again there"),
        Some("new world again there".to_string())
    );
}

#[test]
fn refuses_empty_rates_and_windows() {
    let rate = StreamConfig::for_model(0, 10).err().expect("zero rate");
    assert!(matches!(rate, StreamConfigError::ZeroSampleRate));
    assert_eq!(rate.message(), "stream sample rate must be greater than zero");
    let window = StreamConfig::for_model(10, 0).err().expect("zero window");
    assert!(matches!(window, StreamConfigError::ZeroWindow));
    assert_eq!(window.message(), "stream window size must be greater than zero");
}

#[test]
fn pushing_in_pieces_gives_the_same_windows() {
    let samples: Vec<u32> = (0..100).collect();
    let mut whole = StreamEngine::new(small_config(3));
    let mut parts = StreamEngine::new(small_config(3));

    let expected = whole.push_audio(&samples);
    let mut found = Vec::new();
    for piece in samples.chunks(7) {
        found.extend(parts.push_audio(piece));
    }

    assert_eq!(found.len(), expected.len());
    for (left, right) in found.iter().zip(expected.iter()) {
        assert_eq!(left.samples, right.samples);
        assert_eq!(left.start_sample, right.start_sample);
        assert_eq!(left.index, right.index);
    }
    let step = small_config(3).step_samples();
    for (index, window) in found.iter().enumerate() {
        assert_eq!(window.start_sample, index * step);
        assert_eq!(window.samples[..], samples[index * step..index * step + 10]);
    }
}

#[test]
fn trims_the_longest_repeated_words() {
    assert_eq!(trim_stream_overlap("a b a b", "A, B! a b c", 24), "c");
    assert_eq!(trim_stream_overlap("one two", "three four", 24), "three four");
    assert_eq!(trim_stream_overlap("one two", "two", 24), "");
    assert_eq!(merge_stream_tail("one two", "two three", 3), "two two three");
    assert_eq!(combine_preview_texts("one two", "two three", 24), "one two three");
}

#[test]
fn words_are_the_same_when_their_letters_and_digits_are() {
    assert_eq!(trim_stream_overlap("ПРИВЕТ, Мир", "привет мир снова", 24), "снова");
    assert_eq!(trim_stream_overlap("İstanbul", "i̇stanbul next", 24), "i̇stanbul next");
}

#[test]
fn settled_text_is_not_shown_again() {
    let mut controller = StreamTranscriptController::new(&small_config(8));
    assert_eq!(controller.confirm_text("one two three"), Some("one two three".to_string()));
    assert_eq!(controller.preview_text("two three four"), Some("four".to_string()));
    assert_eq!(controller.preview_text("one two three"), None);
}

#[test]
fn overlaps_are_whole_seconds_up_to_half_a_window() {
    let config = StreamConfig::with_overlap_seconds(100, 3_000, 4).expect("long window");
    assert_eq!((config.overlap_samples, config.overlap_seconds()), (400, 4));
    let config = StreamConfig::with_overlap_seconds(100, 301, 4).expect("short window");
    assert_eq!((config.overlap_samples, config.overlap_seconds()), (150, 1));
}

#[test]
fn words_are_compared_without_case_and_marks() {
    let words = |text: &str| text.split(' ').map(str::to_string).collect::<Vec<String>>();
    assert!(words_match(&words("Hello, World!"), &words("hello world")));
    assert!(!words_match(&words("hello world"), &words("hello there")));
    assert!(!words_match(&words("hello world"), &words("hello")));
    let previous = words("so we said Hello, World!");
    let current = words("hello world and more");
    assert_eq!(find_word_overlap(&previous, &current, 24), 2);
    assert_eq!(find_word_overlap(&previous, &current, 1), 0);
    assert_eq!(find_word_overlap(&previous, &words("other words"), 24), 0);
}

#[test]
fn a_window_is_finalized_once() {
    let mut controller = StreamTranscriptController::new(&small_config(3));
    assert_eq!(controller.finalize_window("one two three").as_deref(), Some("one two three"));
    assert_eq!(controller.finalize_window("Two, three four").as_deref(), Some("four"));
    assert_eq!(controller.finalize_window("Two, three four"), None);
    assert_eq!(controller.finalize_window(" "), None);
}

#[test]
fn windows_do_not_depend_on_how_samples_are_pushed() {
    let samples: Vec<u32> = (0..33).collect();
    for piece in 1..12 {
        let mut engine = StreamEngine::new(small_config(3));
        let mut windows = Vec::new();
        for part in samples.chunks(piece) {
            windows.extend(engine.push_audio(part));
        }
        assert_eq!(windows.len(), (33 - 10) / 6 + 1);
        for (i, window) in windows.iter().enumerate() {
            assert_eq!((window.index, window.start_sample), (i, 6 * i));
            assert_eq!(window.end_sample, 6 * i + 10);
            assert_eq!(window.samples, samples[6 * i..6 * i + 10]);
            assert!(!window.is_partial);
        }
        let tail = engine.finish_audio().expect("tail");
        assert_eq!((tail.index, tail.start_sample, tail.end_sample), (4, 24, 33));
        assert_eq!(tail.samples, samples[24..]);
        assert!(tail.is_partial);
        assert!(engine.finish_audio().is_none());
        assert!(windows.len() + 1 <= small_config(3).window_count(33));
    }
}
