use std::path::Path;
use std::time::Duration;

use transcribe_cli::audio::{
    friendly_media_probe_error, friendly_media_runtime_error, select_audio_track, sound_moments,
    AudioInspection, MediaErrorKind, PacketStep, SoundShape,
};
use transcribe_cli::urls::{
    download_suffix, extension_of_name, live_url, live_url_of, media_source, source_of,
    LiveUrlError, MediaSource, ParsedUrl,
};

#[test]
fn probe_failures_are_explained() {
    let text = |kind| friendly_media_probe_error("a.wav", kind);
    assert_eq!(
        text(MediaErrorKind::UnexpectedEnd),
        "failed to parse audio input `a.wav`: input appears incomplete or truncated"
    );
    for kind in [MediaErrorKind::Unsupported, MediaErrorKind::Limit, MediaErrorKind::Decode] {
        assert_eq!(
            text(kind),
            "failed to parse audio input `a.wav`: unsupported or malformed media container"
        );
    }
    for kind in [MediaErrorKind::ResetRequired, MediaErrorKind::Other] {
        assert_eq!(
            text(kind),
            "failed to parse audio input `a.wav`: unsupported or malformed media input"
        );
    }
}

#[test]
fn runtime_failures_are_explained() {
    let text = |kind| friendly_media_runtime_error("a.wav", "failed to x", kind);
    assert_eq!(
        text(MediaErrorKind::UnexpectedEnd),
        "failed to x in `a.wav`: input appears incomplete or truncated"
    );
    assert_eq!(
        text(MediaErrorKind::Limit),
        "failed to x in `a.wav`: media format uses unsupported features"
    );
    assert_eq!(
        text(MediaErrorKind::Decode),
        "failed to x in `a.wav`: audio frames could not be decoded"
    );
    assert_eq!(
        text(MediaErrorKind::ResetRequired),
        "failed to x in `a.wav`: stream reset is required and is not supported"
    );
    assert_eq!(
        text(MediaErrorKind::Other),
        "failed to x in `a.wav`: media input could not be processed"
    );
}

#[test]
fn the_first_track_that_can_be_decoded_is_read() {
    let select = |supported: &[bool]| select_audio_track(Path::new("a.wav"), "a.wav", supported);
    assert_eq!(select(&[false, true, true]), Ok(1));
    assert_eq!(
        select(&[false]),
        Err("failed to find a supported audio track in `a.wav`: media input does not contain a decodable audio track".to_string())
    );
    assert_eq!(
        select_audio_track(Path::new("b.MKV"), "b.MKV", &[]),
        Err("failed to find a supported audio track in video input `b.MKV`: media input does not contain a decodable audio track".to_string())
    );
}

#[test]
fn packets_of_other_tracks_are_skipped() {
    let inspection = AudioInspection::new("a.wav", 7, None, None);
    assert_eq!(inspection.on_packet(Ok(7)), Ok(PacketStep::Decode));
    assert_eq!(inspection.on_packet(Ok(8)), Ok(PacketStep::Skip));
    assert_eq!(inspection.on_packet(Err(MediaErrorKind::UnexpectedEnd)), Ok(PacketStep::Finish));
    assert_eq!(
        inspection.on_packet(Err(MediaErrorKind::ResetRequired)),
        Err("audio stream reset is required and is not supported".to_string())
    );
    assert_eq!(
        inspection.on_packet(Err(MediaErrorKind::Other)),
        Err("failed to read audio data in `a.wav`: media input could not be processed".to_string())
    );
}

#[test]
fn the_first_sound_fills_in_what_is_open() {
    let mut inspection = AudioInspection::new("a.wav", 0, None, Some(2));
    assert_eq!(
        inspection.finish(Some(1), 16_000).err(),
        Some("audio stream does not expose a sample rate")
    );
    assert_eq!(inspection.on_decoded(Err(MediaErrorKind::Decode)), Ok(None));
    assert_eq!(
        inspection.on_decoded(Err(MediaErrorKind::Limit)),
        Err("failed to decode audio data in `a.wav`: media format uses unsupported features"
            .to_string())
    );
    let first = SoundShape { rate: 44_100, channels: 6 };
    assert_eq!(inspection.on_decoded(Ok(first)), Ok(Some(2)));
    let later = SoundShape { rate: 8_000, channels: 1 };
    assert_eq!(inspection.on_decoded(Ok(later)), Ok(Some(2)));

    let sound = inspection.finish(Some(88_200), 16_000).expect("sound");
    assert_eq!(sound.source_sample_rate, 44_100);
    assert_eq!(sound.length, Some((88_200, 44_100)));
    assert!(sound.needs_resampling);
    assert!(!inspection.finish(None, 44_100).expect("sound").needs_resampling);

    let duration = Some(Duration::from_secs(2));
    let metadata = inspection.extract_metadata("codec".to_string(), duration, 44_100, 16_000);
    assert_eq!(metadata.channels, Some(2));
    assert_eq!(metadata.duration, duration);
    assert_eq!(metadata.source_sample_rate, Some(44_100));
    assert_eq!(metadata.target_sample_rate, 16_000);
    assert_eq!(metadata.codec, "codec");
}

#[test]
fn moments_take_one_sample_of_each_channel() {
    let moments: Vec<(usize, usize)> =
        sound_moments(5, 2).iter().map(|range| (range.start, range.end)).collect();
    assert_eq!(moments, vec![(0, 2), (2, 4), (4, 5)]);
    assert!(sound_moments(0, 2).is_empty());
}

#[test]
fn web_addresses_are_remote() {
    match media_source("HTTPS://Example.com/a/Song.MP3?x=1") {
        MediaSource::Remote(url) => {
            assert_eq!(url.scheme, "https");
            assert_eq!(url.text, "https://example.com/a/Song.MP3?x=1");
            assert_eq!(
                url.segments,
                Some(vec!["a".to_string(), "Song.MP3".to_string()])
            );
            assert_eq!(download_suffix(&url), ".MP3");
        }
        MediaSource::Local => panic!("not local"),
    }
    for local in ["/tmp/a.wav", "a.wav", "file:///tmp/a.wav", "c:song.wav", ""] {
        assert!(matches!(media_source(local), MediaSource::Local));
    }
    assert!(matches!(source_of(Err("no".to_string())), MediaSource::Local));
}

#[test]
fn downloads_keep_their_extension() {
    let suffix = |segments: Option<Vec<&str>>| {
        download_suffix(&ParsedUrl {
            scheme: "http".to_string(),
            text: String::new(),
            segments: segments.map(|list| list.iter().map(|part| part.to_string()).collect()),
        })
    };
    assert_eq!(suffix(Some(vec!["a.ogg"])), ".ogg");
    assert_eq!(suffix(Some(vec!["a.ogg", "stream"])), ".audio");
    assert_eq!(suffix(Some(vec!["a.ogg", ""])), ".audio");
    assert_eq!(suffix(Some(Vec::new())), ".audio");
    assert_eq!(suffix(None), ".audio");
}

#[test]
fn extensions_are_those_of_paths() {
    let names = [
        "", ".", "..", "...", "a", "a.", ".a", ".a.b", "..a", "a..", "a.b", "a.b.c", "a.tar.gz",
        "ы.мп3", "a b.c d",
    ];
    for name in names {
        let expected = Path::new(name).extension().and_then(|ext| ext.to_str());
        assert_eq!(extension_of_name(name).as_deref(), expected, "{name:?}");
    }
}

#[test]
fn live_streams_are_on_the_web() {
    assert_eq!(live_url("http://127.0.0.1:8765/stream").expect("url").scheme, "http");
    let scheme = live_url("ftp://h/stream").err().expect("scheme");
    assert!(matches!(scheme, LiveUrlError::NotWeb));
    assert_eq!(scheme.message(), "`--live` currently supports only http/https URLs");
    let bad = live_url("not a url").err().expect("bad");
    assert!(matches!(bad, LiveUrlError::NotAUrl { .. }));
    assert_eq!(
        bad.message(),
        "failed to parse live URL `not a url`: relative URL without a base"
    );
    let bad = live_url_of("x", Err("why".to_string())).err().expect("bad");
    assert_eq!(bad.message(), "failed to parse live URL `x`: why");
}
