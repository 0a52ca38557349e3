use transcribe_cli::cli::{
    removed_all_message, removed_model_message, CliComputeType, CliError, CliOptions, CliPlan,
    TranscriptionMode,
};
use transcribe_cli::language::{
    resolve_requested_language, select_model_for_language, validate_gigaam_language,
    validate_parakeet_language, LanguageError,
};
use transcribe_cli::model::{ModelChoice, ModelComputeType};
use transcribe_cli::onnx_ctc::ExecutionError;

#[test]
fn russian_is_the_default() {
    for language in [None, Some(""), Some("  "), Some("ru"), Some(" RU "), Some("Ru")] {
        assert_eq!(resolve_requested_language(language).expect("language"), "ru");
    }
    for language in ["en", "EN", "\tEn\n"] {
        assert_eq!(resolve_requested_language(Some(language)).expect("language"), "en");
    }
}

#[test]
fn other_languages_are_refused_by_name() {
    let refused = resolve_requested_language(Some(" De ")).err().expect("refused");
    assert_eq!(refused.language, "de");
    assert_eq!(
        refused.message(),
        "unsupported language `de`; currently supported values are `ru` and `en`"
    );
    for name in ["auto", "rus", "eng", "russian", "english", "r", "e n"] {
        let refused = resolve_requested_language(Some(name)).err().expect("refused");
        assert_eq!(refused.language, name);
        assert_eq!(validate_gigaam_language(Some(name)), Err(LanguageError::RussianOnly));
        assert_eq!(validate_parakeet_language(Some(name)), Err(LanguageError::EnglishOnly));
    }
}

#[test]
fn a_resolved_language_suits_its_model() {
    for language in [None, Some("ru"), Some(" Ru"), Some(" "), Some("en"), Some("EN\n")] {
        let resolved = resolve_requested_language(language).expect("language");
        let outcome = match select_model_for_language(&resolved) {
            ModelChoice::GigaamV3 => validate_gigaam_language(Some(&resolved)),
            ModelChoice::ParakeetTdt06bV2 => validate_parakeet_language(Some(&resolved)),
        };
        assert!(outcome.is_ok());
        assert_eq!(resolve_requested_language(Some(&resolved)).expect("language"), resolved);
    }
}

#[test]
fn models_take_their_own_language() {
    assert!(validate_gigaam_language(None).is_ok());
    assert!(validate_gigaam_language(Some(" ")).is_ok());
    assert!(validate_gigaam_language(Some(" RU")).is_ok());
    let russian = validate_gigaam_language(Some("en")).err().expect("russian");
    assert_eq!(russian, LanguageError::RussianOnly);
    assert_eq!(
        russian.message(),
        "GigaAM v3 community ONNX backend is currently Russian-only; use `--language ru`"
    );
    assert!(validate_parakeet_language(Some("En ")).is_ok());
    let unnamed = validate_parakeet_language(Some(" ")).err().expect("unnamed");
    assert_eq!(unnamed, LanguageError::EnglishNotNamed);
    assert_eq!(unnamed.message(), "Parakeet English backend requires `--language en`");
    let english = validate_parakeet_language(Some("ru")).err().expect("english");
    assert_eq!(english, LanguageError::EnglishOnly);
    assert_eq!(english.message(), "Parakeet TDT backend is enabled only with `--language en`");
}

fn options() -> CliOptions {
    CliOptions {
        server: None,
        gpu: false,
        gpu_device: 0,
        compute_type: None,
        language: None,
        stream: false,
        live: false,
        vad: false,
        remove_model: false,
        remove_all: false,
        audio: None,
    }
}

#[test]
fn removing_comes_before_serving() {
    let all = CliOptions { remove_all: true, remove_model: true, server: Some(1), ..options() };
    assert!(matches!(all.plan(false), Ok(CliPlan::RemoveAll)));
    let one = CliOptions {
        remove_model: true,
        server: Some(1),
        language: Some("en".to_string()),
        ..options()
    };
    assert!(matches!(
        one.plan(false),
        Ok(CliPlan::RemoveModel { choice: ModelChoice::ParakeetTdt06bV2 })
    ));
    let serve = CliOptions { server: Some(8787), vad: true, ..options() };
    assert!(matches!(serve.plan(false), Ok(CliPlan::Serve { port: 8787 })));
}

#[test]
fn transcribing_takes_media() {
    let none = options().plan(false).err().expect("no media");
    assert!(matches!(none, CliError::NoMedia));
    assert_eq!(
        none.message(),
        "a media path or URL is required unless --server, --remove-model or --remove-all is used"
    );
    let vad = CliOptions { audio: Some("a.wav".to_string()), vad: true, ..options() };
    let vad = vad.plan(false).err().expect("vad");
    assert!(matches!(vad, CliError::VadWithoutLive));
    assert_eq!(vad.message(), "`--vad` is currently supported only together with `--live`");
    let language = CliOptions { language: Some("fr".to_string()), remove_all: true, ..options() };
    let language = language.plan(false).err().expect("language");
    assert!(matches!(language, CliError::Language { .. }));
    assert_eq!(
        language.message(),
        "unsupported language `fr`; currently supported values are `ru` and `en`"
    );
    let gpu = CliOptions { audio: Some("a.wav".to_string()), gpu: true, ..options() };
    assert!(matches!(
        gpu.plan(false),
        Err(CliError::Execution(ExecutionError::GpuNotSupported))
    ));
}

#[test]
fn plans_say_how_media_is_transcribed() {
    let live = CliOptions {
        audio: Some("http://127.0.0.1/stream".to_string()),
        live: true,
        vad: true,
        stream: true,
        language: Some("EN".to_string()),
        compute_type: Some(CliComputeType::Float32),
        ..options()
    };
    match live.plan(false).expect("plan") {
        CliPlan::Transcribe(plan) => {
            assert_eq!(plan.language, "en");
            assert_eq!(plan.choice, ModelChoice::ParakeetTdt06bV2);
            assert_eq!(plan.media, "http://127.0.0.1/stream");
            assert_eq!(plan.mode, TranscriptionMode::Live { vad: true });
            assert_eq!(plan.execution.compute_type(), ModelComputeType::Float32);
        }
        _ => panic!("not a transcription"),
    }
    let file = CliOptions { audio: Some("a.wav".to_string()), stream: true, ..options() };
    match file.plan(true).expect("plan") {
        CliPlan::Transcribe(plan) => {
            assert_eq!(plan.mode, TranscriptionMode::Recording { stream: true });
            assert_eq!(plan.choice, ModelChoice::GigaamV3);
            assert_eq!(plan.execution.compute_type(), ModelComputeType::Int8);
        }
        _ => panic!("not a transcription"),
    }
    assert_eq!(CliComputeType::Auto.gigaam_type(), None);
    assert_eq!(CliComputeType::Int8.gigaam_type(), Some(ModelComputeType::Int8));
}

#[test]
fn removals_are_reported() {
    assert_eq!(removed_all_message(true, "/m"), "removed models directory `/m`");
    assert_eq!(removed_all_message(false, "/m"), "models directory `/m` does not exist");
    assert_eq!(
        removed_model_message(ModelChoice::GigaamV3, 2, "/m"),
        "removed model `gigaam-v3` and 2 related artifact(s) from `/m`"
    );
    assert_eq!(
        removed_model_message(ModelChoice::ParakeetTdt06bV2, 0, "/m"),
        "no artifacts found for model `parakeet-tdt-0.6b-v2` in `/m`"
    );
}
