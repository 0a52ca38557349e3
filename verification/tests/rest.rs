use std::time::Duration;

use transcribe_cli::audio::AudioMetadata;
use transcribe_cli::model::{ModelChoice, ModelComputeType, ModelConfig};
use transcribe_cli::report::{
    audio_parameters, bind_address, check_sampling_rate, format_duration, format_live_status,
    format_raw_live_status, live_audio_parameters, live_raw_audio_parameters, model_parameters,
    server_parameters, Backend,
};
use transcribe_cli::rest::{
    api_endpoints, bad_request, internal_error, LiveTranscribeRequest, RestComputeType,
    RestTranscriptionResult, StreamSession, StreamStage, TranscribeRequest, TranscribeResponse,
};

fn request(language: Option<&str>, gpu: Option<bool>) -> TranscribeRequest {
    TranscribeRequest {
        media: "a.wav".to_string(),
        language: language.map(str::to_string),
        gpu,
        gpu_device: None,
        compute_type: None,
    }
}

#[test]
fn requests_have_defaults() {
    let accepted = request(None, None).accept(false).expect("accepted");
    assert_eq!(accepted.language, "ru");
    assert_eq!(accepted.choice, ModelChoice::GigaamV3);
    assert_eq!(accepted.execution.device_label(), "cpu");
    assert_eq!(accepted.execution.compute_type(), ModelComputeType::Int8);
    let gpu = request(Some("en"), Some(true)).accept(true).expect("accepted");
    assert_eq!(gpu.choice, ModelChoice::ParakeetTdt06bV2);
    assert_eq!(gpu.execution.gpu_device(), Some(0));
    let live = LiveTranscribeRequest {
        media: "http://h".to_string(),
        language: None,
        gpu: None,
        gpu_device: Some(3),
        compute_type: Some(RestComputeType::Float32),
        vad: None,
    };
    assert!(!live.use_vad());
    let accepted = live.accept(false).expect("accepted");
    assert_eq!(accepted.execution.compute_type(), ModelComputeType::Float32);
    assert_eq!(RestComputeType::Auto.model_compute_type(), None);
}

#[test]
fn faulty_requests_are_refused() {
    let language = request(Some("fr"), Some(true)).accept(false).err().expect("refused");
    assert_eq!(language.status, 400);
    assert_eq!(
        language.error,
        "unsupported language `fr`; currently supported values are `ru` and `en`"
    );
    let gpu = request(None, Some(true)).accept(false).err().expect("refused");
    assert_eq!(gpu.status, 400);
    assert!(gpu.error.starts_with("--gpu requires a build"));
    assert_eq!(bad_request("a".to_string()).status, 400);
    let internal = internal_error("b".to_string());
    assert_eq!((internal.status, internal.error.as_str()), (500, "b"));
}

#[test]
fn refusals_are_the_one_event_of_a_stream() {
    let event = request(Some("a\nb"), None).accept(false).err().expect("refused").into_event();
    assert_eq!(event.name, "error");
    assert_eq!(
        event.data,
        "unsupported language `a b`; currently supported values are `ru` and `en`"
    );
}

fn metadata() -> AudioMetadata {
    AudioMetadata {
        source_sample_rate: Some(48_000),
        target_sample_rate: 16_000,
        channels: Some(2),
        duration: Some(Duration::from_millis(1_500)),
        codec: "pcm".to_string(),
    }
}

#[test]
fn answers_tell_what_was_done() {
    let accepted = request(None, None).accept(false).expect("accepted");
    let response = TranscribeResponse::from_result(
        "a.wav".to_string(),
        accepted.language,
        accepted.choice,
        &accepted.execution,
        RestTranscriptionResult { transcript: "hi".to_string(), audio_metadata: metadata() },
    );
    assert_eq!(response.transcript, "hi");
    assert_eq!(response.source, "a.wav");
    assert_eq!(response.language, "ru");
    assert_eq!(response.requested_model, "gigaam-v3");
    assert_eq!(response.runtime_model, "v3_e2e_ctc");
    assert_eq!(response.device, "cpu");
    assert_eq!(response.compute_type, "int8");
    assert_eq!(response.target_sample_rate, 16_000);
    assert_eq!(response.source_sample_rate, Some(48_000));
    assert_eq!(response.channels, Some(2));
    assert_eq!(response.codec, "pcm");
    assert_eq!(response.duration, Some(Duration::from_millis(1_500)));
    assert_eq!(
        api_endpoints(),
        [
            "GET /health",
            "POST /v1/transcribe",
            "POST /v1/transcribe/stream",
            "POST /v1/live/transcribe",
        ]
    );
}

#[test]
fn streaming_answers_open_and_close() {
    let mut session = StreamSession::new("a.wav", false);
    let ready = session.begin();
    assert_eq!(ready.name, "ready");
    assert_eq!(ready.data, "starting stream transcription for a.wav");
    let status = session.on_status(StreamStage::ResolvingModel.text().to_string());
    assert_eq!((status.name, status.data.as_str()), ("status", "resolving model"));
    assert_eq!(StreamStage::PreparingMedia.text(), "preparing media");
    assert_eq!(StreamStage::MediaReady.text(), "media ready");
    let chunk = session.on_chunk("one\ntwo");
    assert_eq!((chunk.name, chunk.data.as_str()), ("chunk", "one\ntwo"));
    let done = session.end(Ok(()));
    assert_eq!((done.name, done.data.as_str()), ("done", "complete"));

    let mut live = StreamSession::new("http://h", true);
    assert_eq!(live.begin().data, "starting live transcription for http://h");
    let error = live.end(Err("a\nb\n\nc".to_string()));
    assert_eq!((error.name, error.data.as_str()), ("error", "a b  c"));
}

#[test]
fn lengths_read_as_minutes_and_seconds() {
    assert_eq!(format_duration(0), "00:00.000");
    assert_eq!(format_duration(61_005), "01:01.005");
    assert_eq!(format_duration(599_999), "09:59.999");
    assert_eq!(format_duration(6_000_040), "100:00.040");
}

#[test]
fn live_streams_report_how_far_they_are() {
    assert_eq!(
        format_live_status(Some(&metadata()), "3.5"),
        "live / 3.5s buffered / 48000 Hz / 2 ch"
    );
    let blank = AudioMetadata { source_sample_rate: None, channels: None, ..metadata() };
    assert_eq!(
        format_live_status(Some(&blank), "0.0"),
        "live / 0.0s buffered / unknown rate / ? ch"
    );
    assert_eq!(format_live_status(None, "1.0"), "live / 1.0s buffered");
    assert_eq!(format_raw_live_status("3.5"), "live / 3.5s buffered / raw f32le");
}

#[test]
fn rates_must_agree() {
    assert_eq!(check_sampling_rate(ModelChoice::GigaamV3, 16_000, 16_000), Ok(()));
    assert_eq!(
        check_sampling_rate(ModelChoice::GigaamV3, 16_000, 8_000),
        Err("audio was resampled to 16000 Hz but the GigaAM model expects 8000 Hz".to_string())
    );
    assert_eq!(
        check_sampling_rate(ModelChoice::ParakeetTdt06bV2, 8_000, 16_000),
        Err("audio was resampled to 8000 Hz but the Parakeet model expects 16000 Hz".to_string())
    );
}

fn backend(gpu_device: Option<i32>) -> Backend<'static> {
    Backend {
        name: "ONNX Runtime",
        device_label: "cpu",
        compute_type_label: "int8",
        gpu_device,
    }
}

#[test]
fn audio_parameters_are_listed() {
    assert_eq!(
        audio_parameters(&backend(Some(1)), "a.wav", "/m", &metadata(), Some("00:01.500")),
        vec![
            "",
            "Audio parameters",
            "backend: ONNX Runtime / cpu (int8)",
            "gpu id : 1",
            "source : a.wav",
            "length : 00:01.500",
            "input rate : 48000 Hz",
            "model rate : 16000 Hz",
            "channels   : 2 -> mono",
            "codec      : pcm",
            "model path : /m",
            "",
        ]
    );
    let blank = AudioMetadata { source_sample_rate: None, channels: None, ..metadata() };
    assert_eq!(audio_parameters(&backend(None), "a", "/m", &blank, None).len(), 8);
    assert_eq!(
        live_audio_parameters(&backend(None), "http://h", "/m", 16_000),
        vec![
            "",
            "Audio parameters",
            "backend: ONNX Runtime / cpu (int8)",
            "source : http://h",
            "length : live",
            "model rate : 16000 Hz",
            "model path : /m",
            "",
        ]
    );
    assert_eq!(
        live_raw_audio_parameters(&backend(None), "http://h", "/m", 48_000, 16_000)[4..],
        [
            "length : live",
            "input rate : 48000 Hz",
            "model rate : 16000 Hz",
            "channels   : 1 -> mono",
            "codec      : raw F32Le",
            "model path : /m",
            "",
        ]
    );
}

#[test]
fn model_parameters_are_listed() {
    let config = ModelConfig {
        model_name: Some("n".to_string()),
        center: Some(true),
        sample_rate: Some(16_000),
        subsampling_factor: Some(8),
        ..ModelConfig::default()
    };
    assert_eq!(
        model_parameters(ModelChoice::GigaamV3, &backend(Some(-1)), "/m/g", "/m", "ru", &config),
        vec![
            "",
            "Model parameters",
            "  requested model : gigaam-v3",
            "  runtime model   : v3_e2e_ctc",
            "  repo            : istupakov/gigaam-v3-onnx",
            "  models root     : /m",
            "  local path      : /m/g",
            "  device          : cpu",
            "  compute type    : int8",
            "  language        : ru",
            "  gpu device      : -1",
            "  model name      : n",
            "  sample rate     : 16000 Hz",
            "  center          : true",
            "  subsampling     : 8",
        ]
    );
}

#[test]
fn the_server_says_where_it_listens() {
    assert_eq!(bind_address(8787), "0.0.0.0:8787");
    assert_eq!(
        server_parameters(80, "/m"),
        vec![
            "",
            "REST server",
            "  listening on : http://0.0.0.0:80",
            "  models root  : /m",
            "",
        ]
    );
}
