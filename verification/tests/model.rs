use std::path::{Path, PathBuf};

use transcribe_cli::model::{
    default_model_root_directory, default_ort_runtime_root_directory, matches_model_artifact,
    model_directory, model_files, read_model_config, remove_model_with_artifacts,
    sandbox_directory, HfLfs, HfSibling, ModelChoice, ModelComputeType, ModelConfig, RawEncoderConfig,
    RawGigaAmModelConfig, RawHeadConfig, RawModelConfig, RawParakeetModelConfig,
    RawPreprocessorConfig,
};
use transcribe_cli::model_download::{
    curl_failure, curl_progress, curl_resume_argument, file_download_url, file_is_complete,
    file_step, file_step_with, finished_message, listed_files, manifest_message, manifest_url,
    progress_length, required_files, resolve_manifest_sizes, resolve_model_files,
    wrong_size_message, Fetch, FetchState, FileStep, ResolvedModelFile, CURL_DOWNLOAD_THRESHOLD,
};

#[test]
fn directories_lie_next_to_the_program() {
    let home = PathBuf::from("/opt/bin");
    assert_eq!(sandbox_directory(&home), Path::new("/opt/bin/transcribe_sandbox"));
    assert_eq!(
        default_model_root_directory(&home),
        Path::new("/opt/bin/transcribe_sandbox/models")
    );
    assert_eq!(
        default_ort_runtime_root_directory(&home),
        Path::new("/opt/bin/transcribe_sandbox/ort-cuda13-nightly")
    );
    assert_eq!(
        model_directory(ModelChoice::GigaamV3, None, &home),
        Path::new("/opt/bin/transcribe_sandbox/models/gigaam-v3")
    );
    let root = PathBuf::from("/models");
    assert_eq!(
        model_directory(ModelChoice::ParakeetTdt06bV2, Some(&root), &home),
        Path::new("/models/parakeet-tdt-0.6b-v2")
    );
}

#[test]
fn models_have_their_files() {
    let dir = PathBuf::from("/m");
    let files = model_files(&dir, ModelChoice::GigaamV3, ModelComputeType::Int8);
    assert_eq!(files.config, Path::new("/m/v3_e2e_ctc.yaml"));
    assert_eq!(files.vocabulary, Path::new("/m/v3_e2e_ctc_vocab.txt"));
    assert_eq!(files.network, Path::new("/m/v3_e2e_ctc.int8.onnx"));
    assert_eq!(files.decoder, None);
    let files = model_files(&dir, ModelChoice::ParakeetTdt06bV2, ModelComputeType::Float32);
    assert_eq!(files.config, Path::new("/m/config.json"));
    assert_eq!(files.network, Path::new("/m/encoder-model.onnx"));
    assert_eq!(files.decoder, Some(PathBuf::from("/m/decoder_joint-model.onnx")));
}

#[test]
fn artifacts_carry_the_name_of_their_model() {
    assert!(matches_model_artifact("gigaam-v3", "gigaam-v3"));
    assert!(matches_model_artifact("gigaam-v3.part", "gigaam-v3"));
    assert!(matches_model_artifact("gigaam-v3-old", "gigaam-v3"));
    assert!(!matches_model_artifact("gigaam-v30", "gigaam-v3"));
    assert!(!matches_model_artifact("my-gigaam-v3", "gigaam-v3"));
    let entries = vec![
        Some("gigaam-v3".to_string()),
        None,
        Some("parakeet-tdt-0.6b-v2".to_string()),
        Some("gigaam-v3.tmp".to_string()),
    ];
    assert_eq!(remove_model_with_artifacts(ModelChoice::GigaamV3, &entries), vec![0, 3]);
    assert_eq!(remove_model_with_artifacts(ModelChoice::ParakeetTdt06bV2, &entries), vec![2]);
}

#[test]
fn settings_of_the_russian_model_are_read() {
    let raw = RawGigaAmModelConfig {
        model_name: Some("n".to_string()),
        model_class: None,
        sample_rate: Some(16_000),
        preprocessor: Some(RawPreprocessorConfig {
            sample_rate: None,
            features: Some(64),
            win_length: Some(320),
            hop_length: Some(160),
            n_fft: None,
            center: Some(false),
        }),
        encoder: Some(RawEncoderConfig { n_layers: Some(16), d_model: Some(768) }),
        head: Some(RawHeadConfig { num_classes: Some(257) }),
    };
    let config = read_model_config(RawModelConfig::GigaamV3(raw));
    assert_eq!(config.model_name.as_deref(), Some("n"));
    assert_eq!(config.sample_rate, Some(16_000));
    assert_eq!(config.features, Some(64));
    assert_eq!(config.n_fft, None);
    assert_eq!(config.center, Some(false));
    assert_eq!(config.encoder_layers, Some(16));
    assert_eq!(config.d_model, Some(768));
    assert_eq!(config.num_classes, Some(257));
    assert_eq!(config.subsampling_factor, None);
    assert_eq!(ModelConfig::default().sample_rate, None);
}

#[test]
fn settings_of_the_english_model_are_mostly_fixed() {
    let raw = RawParakeetModelConfig {
        model_type: Some("t".to_string()),
        features_size: Some(128),
        subsampling_factor: Some(8),
    };
    let config = read_model_config(RawModelConfig::ParakeetTdt06bV2(raw));
    assert_eq!(config.model_name.as_deref(), Some("Parakeet TDT 0.6B V2"));
    assert_eq!(config.model_type.as_deref(), Some("t"));
    assert_eq!(config.sample_rate, Some(16_000));
    assert_eq!(
        (config.features, config.win_length, config.hop_length, config.n_fft),
        (Some(128), Some(400), Some(160), Some(512))
    );
    assert_eq!(config.center, Some(false));
    assert_eq!(config.subsampling_factor, Some(8));
}

fn sibling(name: &str, size: Option<u64>, stored: Option<u64>) -> HfSibling {
    HfSibling {
        rfilename: name.to_string(),
        size,
        lfs: stored.map(|size| HfLfs { size: Some(size) }),
    }
}

fn gigaam_manifest() -> Vec<HfSibling> {
    vec![
        sibling("v3_e2e_ctc_vocab.txt", None, Some(7)),
        sibling("README.md", Some(1), None),
        sibling("v3_e2e_ctc.yaml", Some(3), Some(9)),
        sibling("assets/", None, None),
        sibling("v3_e2e_ctc.int8.onnx", None, None),
    ]
}

#[test]
fn needed_files_are_sorted() {
    let names = required_files(ModelChoice::ParakeetTdt06bV2, Some(ModelComputeType::Float32));
    let set: std::collections::BTreeSet<String> = [
        "config.json",
        "vocab.txt",
        "encoder-model.onnx",
        "encoder-model.onnx.data",
        "decoder_joint-model.onnx",
    ]
    .iter()
    .map(|name| name.to_string())
    .collect();
    assert_eq!(names, set.into_iter().collect::<Vec<_>>());
    assert_eq!(required_files(ModelChoice::GigaamV3, None).len(), 3);
}

#[test]
fn needed_files_are_fetched_and_no_others() {
    let listed = listed_files(&gigaam_manifest());
    assert_eq!(listed.len(), 4);
    let files = resolve_model_files(ModelChoice::GigaamV3, None, &listed).expect("files");
    let names: Vec<&str> = files.iter().map(|file| file.relative_path.as_str()).collect();
    assert_eq!(names, vec!["v3_e2e_ctc_vocab.txt", "v3_e2e_ctc.yaml", "v3_e2e_ctc.int8.onnx"]);
    let sizes: Vec<Option<u64>> = files.iter().map(|file| file.expected_size).collect();
    assert_eq!(sizes, vec![Some(7), Some(3), None]);
    assert_eq!(
        files[1].download_url,
        "https://huggingface.co/istupakov/gigaam-v3-onnx/resolve/main/v3_e2e_ctc.yaml?download=true"
    );
    assert_eq!(files[1].download_url, file_download_url(ModelChoice::GigaamV3, "v3_e2e_ctc.yaml"));
    assert_eq!(progress_length(&files), 10);
    assert_eq!(progress_length(&[]), 1);
    assert_eq!(
        manifest_url(ModelChoice::GigaamV3),
        "https://huggingface.co/api/models/istupakov/gigaam-v3-onnx"
    );
}

#[test]
fn missing_files_are_named() {
    let missing = resolve_model_files(
        ModelChoice::GigaamV3,
        Some(ModelComputeType::Float32),
        &[sibling("v3_e2e_ctc.yaml", None, None)],
    )
    .err()
    .expect("missing");
    assert_eq!(
        missing.message(),
        "model repository `istupakov/gigaam-v3-onnx` is missing required file(s): v3_e2e_ctc.onnx, v3_e2e_ctc_vocab.txt"
    );
    let none = resolve_manifest_sizes(ModelChoice::GigaamV3, &[], &[]).expect("nothing needed");
    assert!(none.is_empty());
}

#[test]
fn files_that_are_there_are_kept() {
    assert!(file_is_complete(5, Some(5)));
    assert!(!file_is_complete(4, Some(5)));
    assert!(!file_is_complete(6, Some(5)));
    assert!(file_is_complete(1, None));
    assert!(!file_is_complete(0, None));
    assert!(file_is_complete(0, Some(0)));

    let file = ResolvedModelFile {
        relative_path: "a.onnx".to_string(),
        download_url: "u".to_string(),
        expected_size: Some(3_000),
    };
    assert!(matches!(file_step(&file, 3_000), FileStep::Keep { progress: 3_000 }));
    match file_step(&file, 1_500) {
        FileStep::Fetch { progress, message } => {
            assert_eq!(progress, 1_500);
            assert_eq!(message, "a.onnx (resuming from 1.46 KiB)");
        }
        FileStep::Keep { .. } => panic!("incomplete"),
    }
    match file_step(&file, 0) {
        FileStep::Fetch { progress, message } => {
            assert_eq!((progress, message.as_str()), (0, "a.onnx"));
        }
        FileStep::Keep { .. } => panic!("missing"),
    }
    match file_step_with(&file, 2, "two") {
        FileStep::Fetch { message, .. } => assert_eq!(message, "a.onnx (resuming from two)"),
        FileStep::Keep { .. } => panic!("incomplete"),
    }
}

#[test]
fn the_end_of_a_download_is_reported() {
    assert_eq!(
        finished_message(ModelChoice::GigaamV3, Some(ModelComputeType::Int8)),
        "  downloaded model [v3_e2e_ctc / int8]"
    );
    assert_eq!(
        finished_message(ModelChoice::ParakeetTdt06bV2, None),
        "  downloaded model [parakeet-tdt-0.6b-v2]"
    );
    assert_eq!(manifest_message(3), "manifest ready [3 files]");
    assert_eq!(
        wrong_size_message("/m/a", 4, 5),
        "downloaded `/m/a` but received 4 bytes instead of 5"
    );
}

#[test]
fn large_files_go_to_the_other_program_first() {
    let mut large = Fetch::new(Some(CURL_DOWNLOAD_THRESHOLD), 0);
    assert_eq!(large.state, FetchState::Curl);
    large.after_curl(false);
    assert_eq!(large.state, FetchState::Ask);
    let mut large = Fetch::new(Some(CURL_DOWNLOAD_THRESHOLD + 1), 7);
    large.after_curl(true);
    assert_eq!(large.state, FetchState::Done);
    assert_eq!(Fetch::new(Some(CURL_DOWNLOAD_THRESHOLD - 1), 0).state, FetchState::Ask);
    assert_eq!(Fetch::new(None, 0).state, FetchState::Ask);
    assert_eq!(curl_resume_argument(0), None);
    assert_eq!(curl_resume_argument(12), Some("12".to_string()));
    assert_eq!(curl_progress(5, 9), Some(4));
    assert_eq!(curl_progress(9, 5), None);
    assert_eq!(curl_failure("/m/a", " (22) 404\n"), "curl failed for `/m/a`: (22) 404");
}

#[test]
fn new_files_are_measured() {
    let mut fetch = Fetch::new(Some(10), 0);
    assert_eq!(fetch.range_header(), None);
    fetch.after_answer(200);
    assert_eq!(fetch.state, FetchState::Create);
    fetch.after_writing();
    assert_eq!(fetch.state, FetchState::Measure);
    let mut short = fetch;
    short.after_measuring(9);
    assert_eq!(short.state, FetchState::WrongSize { actual: 9, expected: 10 });
    fetch.after_measuring(10);
    assert_eq!(fetch.state, FetchState::Done);
    let mut refused = Fetch::new(Some(10), 0);
    refused.after_answer(404);
    assert_eq!(refused.state, FetchState::Refused);
    let mut unknown = Fetch::new(None, 0);
    unknown.after_answer(299);
    unknown.after_writing();
    assert_eq!(unknown.state, FetchState::Done);
}

#[test]
fn parts_are_asked_for_and_files_begun_again() {
    let mut part = Fetch::new(Some(10), 4);
    assert_eq!(part.range_header(), Some("bytes=4-".to_string()));
    part.after_answer(206);
    assert_eq!(part.state, FetchState::Append);
    part.after_writing();
    assert_eq!(part.state, FetchState::Measure);
    let mut again = Fetch::new(Some(10), 4);
    again.after_answer(200);
    assert_eq!(again.state, FetchState::Restart);
    again.after_restart();
    assert_eq!(again.state, FetchState::CreateAfterRestart);
    again.after_writing();
    assert_eq!(again.state, FetchState::Done);
}

#[test]
fn models_have_their_names_and_files() {
    let russian = ModelChoice::GigaamV3;
    let english = ModelChoice::ParakeetTdt06bV2;
    let whole = ModelComputeType::Float32;
    let small = ModelComputeType::Int8;
    assert_eq!((russian.cli_name(), english.cli_name()), ("gigaam-v3", "parakeet-tdt-0.6b-v2"));
    assert_eq!(russian.runtime_name(), "v3_e2e_ctc");
    assert_eq!(english.runtime_name(), "parakeet-tdt-0.6b-v2");
    assert_eq!(russian.repo_id(), "istupakov/gigaam-v3-onnx");
    assert_eq!(english.repo_id(), "istupakov/parakeet-tdt-0.6b-v2-onnx");
    assert_eq!(russian.cache_dir_name(), "gigaam-v3");
    assert_eq!(english.cache_dir_name(), "parakeet-tdt-0.6b-v2");
    assert_eq!((russian.config_file(), english.config_file()), ("v3_e2e_ctc.yaml", "config.json"));
    assert_eq!((russian.vocab_file(), english.vocab_file()), ("v3_e2e_ctc_vocab.txt", "vocab.txt"));
    assert_eq!(russian.onnx_file(whole), "v3_e2e_ctc.onnx");
    assert_eq!(russian.onnx_file(small), "v3_e2e_ctc.int8.onnx");
    assert_eq!(english.onnx_file(whole), "encoder-model.onnx");
    assert_eq!(english.onnx_file(small), "encoder-model.int8.onnx");
    assert_eq!(russian.secondary_onnx_file(whole), None);
    assert_eq!(english.secondary_onnx_file(whole), Some("decoder_joint-model.onnx"));
    assert_eq!(english.secondary_onnx_file(small), Some("decoder_joint-model.int8.onnx"));
    assert!(russian.extra_required_files(whole).is_empty());
    assert_eq!(
        english.extra_required_files(whole),
        ["encoder-model.onnx.data", "decoder_joint-model.onnx"]
    );
    assert_eq!(english.extra_required_files(small), ["decoder_joint-model.int8.onnx"]);
    assert_eq!((whole.label(), small.label()), ("float32", "int8"));
}
