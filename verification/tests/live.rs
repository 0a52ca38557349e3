use transcribe_cli::live::{
    live_chunk_samples, live_kind, live_vad_config, spoken_text, LiveAction, LiveChunker, LiveKind,
    LiveRun, LiveSession, LiveWork,
};
use transcribe_cli::raw_live::{RawLiveAudioDecoder, RawOutput};

#[test]
fn content_types_tell_what_comes() {
    let kind = |content_type| live_kind("http://h", content_type);
    assert_eq!(kind(Some("application/octet-stream; x=1")).expect("raw"), LiveKind::Raw);
    assert_eq!(kind(Some("audio/mpeg")).expect("media"), LiveKind::Media);
    assert_eq!(kind(Some("Text/HTML")).expect("media"), LiveKind::Media);
    assert_eq!(kind(None).expect("media"), LiveKind::Media);
    let page = kind(Some("text/html; charset=utf-8")).err().expect("page");
    assert_eq!(
        page.message(),
        "`--live` expected a media stream, but `http://h` returned HTML; if this is your local mic server, use the stream endpoint such as `http://h/stream`"
    );
}

#[test]
fn live_chunks_do_not_depend_on_how_samples_arrive() {
    let samples: Vec<u32> = (0..23).collect();
    for piece in 1..9 {
        let mut chunker = LiveChunker::new(5);
        let mut chunks = Vec::new();
        for part in samples.chunks(piece) {
            chunks.extend(chunker.push(part, false));
        }
        assert!(chunks.iter().all(|chunk| chunk.len() == 5));
        chunks.extend(chunker.push(&[], true));
        assert_eq!(chunks.len(), 5);
        assert_eq!(chunks.concat(), samples);
        assert!(chunker.push(&[], true).is_empty());
    }
    assert_eq!(live_chunk_samples(16_000), 96_000);
}

#[test]
fn blank_chunks_say_nothing() {
    assert_eq!(spoken_text(" a b\n"), Some("a b".to_string()));
    assert_eq!(spoken_text("\u{2003}\n"), None);
}

#[test]
fn speech_detection_is_asked_for() {
    assert!(live_vad_config(false, 0).expect("off").is_none());
    let config = live_vad_config(true, 16_000).expect("on").expect("config");
    assert_eq!(config.max_segment_samples, 96_000);
    assert!(live_vad_config(true, 0).is_err());
}

#[test]
fn looks_come_by_bytes_or_by_time() {
    let mut session = LiveSession::new();
    assert_eq!(session.on_bytes(0, 10_000), LiveAction::Ignore);
    assert_eq!(session.on_bytes(65_535, 0), LiveAction::Append);
    assert_eq!(session.on_bytes(1, 449), LiveAction::AppendAndDecode);
    assert_eq!(session.on_bytes(1, 449), LiveAction::Append);
    assert_eq!(session.on_bytes(1, 450), LiveAction::AppendAndDecode);
}

#[test]
fn looks_hand_on_what_is_new() {
    let mut session = LiveSession::new();
    assert_eq!(session.on_decoded::<u8>(&[]), None);
    assert_eq!(session.on_decoded(&[1, 2]), Some(vec![1, 2]));
    assert_eq!(session.on_decoded(&[1, 2]), None);
    assert_eq!(session.on_decoded(&[1]), None);
    assert_eq!(session.on_decoded(&[1, 2, 3, 4]), Some(vec![3, 4]));
    session.on_failure("later".to_string());
    assert!(session.finish().is_ok());
}

#[test]
fn all_that_is_heard_is_transcribed() {
    let stream: Vec<u32> = (0..30).collect();
    let mut run = LiveRun::new(4, false);
    let mut all = Vec::new();
    assert_eq!(run.on_bytes(70_000, 0), LiveAction::AppendAndDecode);
    for look in [Ok(3), Ok(11), Err("bad"), Ok(7), Ok(30)] {
        let look = look.map(|len| stream[..len].to_vec()).map_err(str::to_string);
        match run.on_look(look) {
            Some(LiveWork::Chunks(chunks)) => all.extend(chunks.concat()),
            Some(LiveWork::Samples(_)) => panic!("not asked for"),
            None => {}
        }
    }
    let (rest, outcome) = run.finish();
    assert_eq!(rest, vec![vec![28, 29]]);
    all.extend(rest.concat());
    assert!(outcome.is_ok());
    assert_eq!(all, stream);

    let mut run = LiveRun::new(4, true);
    match run.on_look(Ok(stream.clone())) {
        Some(LiveWork::Samples(samples)) => assert_eq!(samples, stream),
        other => panic!("unexpected {other:?}"),
    }
    assert!(run.on_look(Ok(Vec::new())).is_none());
    let silent: LiveRun<u32> = LiveRun::new(4, false);
    let (rest, outcome) = silent.finish();
    assert!(rest.is_empty());
    assert!(outcome.is_err());
}

#[test]
fn all_that_is_heard_is_searched_for_speech() {
    let stream: Vec<u32> = (0..30).collect();
    let mut run = LiveRun::new(4, true);
    let mut all = Vec::new();
    for look in [Err("early"), Ok(5), Err("late"), Ok(5), Ok(30), Ok(2)] {
        let look = look.map(|len| stream[..len].to_vec()).map_err(str::to_string);
        match run.on_look(look) {
            Some(LiveWork::Samples(samples)) => all.extend(samples),
            Some(LiveWork::Chunks(_)) => panic!("not asked for"),
            None => {}
        }
    }
    assert_eq!(all, stream);
    let (rest, outcome) = run.finish();
    assert!(rest.is_empty() && outcome.is_ok());
}

#[test]
fn a_stream_that_was_never_heard_fails() {
    let mut session = LiveSession::new();
    session.on_failure("first".to_string());
    session.on_failure("second".to_string());
    assert_eq!(
        session.finish().err().expect("failure").message(),
        "failed to decode buffered live media stream: second"
    );
    assert_eq!(
        LiveSession::new().finish().err().expect("failure").message(),
        "failed to decode buffered live media stream"
    );
}

fn bytes(values: &[f32]) -> Vec<u8> {
    values.iter().flat_map(|value| value.to_le_bytes()).collect()
}

fn heard(output: RawOutput) -> Vec<u32> {
    match output {
        RawOutput::Nothing => Vec::new(),
        RawOutput::Samples(samples) | RawOutput::Resample(samples) => samples,
        RawOutput::Thirds(thirds) => thirds.iter().flat_map(|t| [t.0, t.1, t.2]).collect(),
    }
}

#[test]
fn bytes_make_samples() {
    let values = [0.5f32, -1.25, 3.0e-9, f32::NAN];
    let mut decoder = RawLiveAudioDecoder::new(16_000, 16_000);
    match decoder.push_bytes(&bytes(&values)) {
        RawOutput::Samples(samples) => {
            let expected: Vec<u32> = values.iter().map(|value| value.to_bits()).collect();
            assert_eq!(samples, expected);
        }
        other => panic!("unexpected {other:?}"),
    }
    assert!(matches!(decoder.push_bytes(&[]), RawOutput::Nothing));
    assert!(matches!(decoder.push_bytes(&[1, 2, 3]), RawOutput::Nothing));
    assert!(matches!(decoder.finish(), RawOutput::Nothing));
}

#[test]
fn three_samples_are_kept_back_until_the_end() {
    let values: Vec<f32> = (0..11).map(|value| value as f32).collect();
    let mut decoder = RawLiveAudioDecoder::new(48_000, 16_000);
    match decoder.push_bytes(&bytes(&values)) {
        RawOutput::Thirds(thirds) => {
            assert_eq!(thirds.len(), 2);
            assert_eq!(thirds[1], (3f32.to_bits(), 4f32.to_bits(), 5f32.to_bits()));
        }
        other => panic!("unexpected {other:?}"),
    }
    match decoder.finish() {
        RawOutput::Thirds(thirds) => assert_eq!(thirds.len(), 1),
        other => panic!("unexpected {other:?}"),
    }
    assert!(matches!(decoder.finish(), RawOutput::Nothing));
}

#[test]
fn other_rates_are_resampled() {
    let mut decoder = RawLiveAudioDecoder::new(44_100, 16_000);
    match decoder.push_bytes(&bytes(&[1.0, 2.0])) {
        RawOutput::Resample(samples) => assert_eq!(samples.len(), 2),
        other => panic!("unexpected {other:?}"),
    }
}

#[test]
fn raw_samples_are_heard_once_however_they_arrive() {
    let values: Vec<f32> = (0..40).map(|value| value as f32 / 8.0).collect();
    let stream = bytes(&values);
    let expected: Vec<u32> = values.iter().map(|value| value.to_bits()).collect();
    for piece in 1..17 {
        for (source, left) in [(48_000, 1), (16_000, 0), (44_100, 0)] {
            let mut decoder = RawLiveAudioDecoder::new(source, 16_000);
            let mut all = Vec::new();
            for part in stream.chunks(piece) {
                all.extend(heard(decoder.push_bytes(part)));
            }
            all.extend(heard(decoder.finish()));
            assert_eq!(all, expected[..expected.len() - left]);
        }
    }
}
