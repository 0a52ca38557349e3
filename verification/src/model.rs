//! The models: their names, files, directories and settings.

use std::path::PathBuf;

use vstd::prelude::*;

use crate::paths::{join_name, path_parts};
use crate::text::{begins_with, concat2, same_text, starts_with};

verus! {

#[derive(Clone, Copy, Debug, PartialEq, Eq, Structural)]
pub enum ModelChoice {
    GigaamV3,
    ParakeetTdt06bV2,
}

#[derive(Clone, Copy, Debug, PartialEq, Eq, Structural)]
pub enum ModelComputeType {
    Float32,
    Int8,
}

/// The texts of a list of string slices.
pub open spec fn slice_texts(list: Seq<&'static str>) -> Seq<Seq<char>> {
    Seq::new(list.len(), |i: int| list[i]@)
}

impl ModelChoice {
    pub open spec fn cli_name_text(self) -> Seq<char> {
        match self {
            ModelChoice::GigaamV3 => "gigaam-v3"@,
            ModelChoice::ParakeetTdt06bV2 => "parakeet-tdt-0.6b-v2"@,
        }
    }

    pub open spec fn runtime_name_text(self) -> Seq<char> {
        match self {
            ModelChoice::GigaamV3 => "v3_e2e_ctc"@,
            ModelChoice::ParakeetTdt06bV2 => "parakeet-tdt-0.6b-v2"@,
        }
    }

    pub open spec fn repo_id_text(self) -> Seq<char> {
        match self {
            ModelChoice::GigaamV3 => "istupakov/gigaam-v3-onnx"@,
            ModelChoice::ParakeetTdt06bV2 => "istupakov/parakeet-tdt-0.6b-v2-onnx"@,
        }
    }

    pub open spec fn config_file_text(self) -> Seq<char> {
        match self {
            ModelChoice::GigaamV3 => "v3_e2e_ctc.yaml"@,
            ModelChoice::ParakeetTdt06bV2 => "config.json"@,
        }
    }

    pub open spec fn vocab_file_text(self) -> Seq<char> {
        match self {
            ModelChoice::GigaamV3 => "v3_e2e_ctc_vocab.txt"@,
            ModelChoice::ParakeetTdt06bV2 => "vocab.txt"@,
        }
    }

    pub open spec fn onnx_file_text(self, compute_type: ModelComputeType) -> Seq<char> {
        match (self, compute_type) {
            (ModelChoice::GigaamV3, ModelComputeType::Float32) => "v3_e2e_ctc.onnx"@,
            (ModelChoice::GigaamV3, ModelComputeType::Int8) => "v3_e2e_ctc.int8.onnx"@,
            (ModelChoice::ParakeetTdt06bV2, ModelComputeType::Float32) => "encoder-model.onnx"@,
            (ModelChoice::ParakeetTdt06bV2, ModelComputeType::Int8) => "encoder-model.int8.onnx"@,
        }
    }

    pub open spec fn extra_file_texts(self, compute_type: ModelComputeType) -> Seq<Seq<char>> {
        match (self, compute_type) {
            (ModelChoice::GigaamV3, _) => seq![],
            (ModelChoice::ParakeetTdt06bV2, ModelComputeType::Float32) => seq![
                "encoder-model.onnx.data"@,
                "decoder_joint-model.onnx"@,
            ],
            (ModelChoice::ParakeetTdt06bV2, ModelComputeType::Int8) => seq![
                "decoder_joint-model.int8.onnx"@,
            ],
        }
    }

    pub fn cli_name(self) -> (name: &'static str)
        ensures
            name@ == self.cli_name_text(),
    {
        match self {
            ModelChoice::GigaamV3 => "gigaam-v3",
            ModelChoice::ParakeetTdt06bV2 => "parakeet-tdt-0.6b-v2",
        }
    }

    pub fn runtime_name(self) -> (name: &'static str)
        ensures
            name@ == self.runtime_name_text(),
    {
        match self {
            ModelChoice::GigaamV3 => "v3_e2e_ctc",
            ModelChoice::ParakeetTdt06bV2 => "parakeet-tdt-0.6b-v2",
        }
    }

    pub fn repo_id(self) -> (id: &'static str)
        ensures
            id@ == self.repo_id_text(),
    {
        match self {
            ModelChoice::GigaamV3 => "istupakov/gigaam-v3-onnx",
            ModelChoice::ParakeetTdt06bV2 => "istupakov/parakeet-tdt-0.6b-v2-onnx",
        }
    }

    /// The directory of a model bears its command line name.
    pub fn cache_dir_name(self) -> (name: &'static str)
        ensures
            name@ == self.cli_name_text(),
    {
        match self {
            ModelChoice::GigaamV3 => "gigaam-v3",
            ModelChoice::ParakeetTdt06bV2 => "parakeet-tdt-0.6b-v2",
        }
    }

    pub fn config_file(self) -> (name: &'static str)
        ensures
            name@ == self.config_file_text(),
    {
        match self {
            ModelChoice::GigaamV3 => "v3_e2e_ctc.yaml",
            ModelChoice::ParakeetTdt06bV2 => "config.json",
        }
    }

    pub fn vocab_file(self) -> (name: &'static str)
        ensures
            name@ == self.vocab_file_text(),
    {
        match self {
            ModelChoice::GigaamV3 => "v3_e2e_ctc_vocab.txt",
            ModelChoice::ParakeetTdt06bV2 => "vocab.txt",
        }
    }

    pub fn onnx_file(self, compute_type: ModelComputeType) -> (name: &'static str)
        ensures
            name@ == self.onnx_file_text(compute_type),
    {
        match self {
            ModelChoice::GigaamV3 => match compute_type {
                ModelComputeType::Float32 => "v3_e2e_ctc.onnx",
                ModelComputeType::Int8 => "v3_e2e_ctc.int8.onnx",
            },
            ModelChoice::ParakeetTdt06bV2 => match compute_type {
                ModelComputeType::Float32 => "encoder-model.onnx",
                ModelComputeType::Int8 => "encoder-model.int8.onnx",
            },
        }
    }

    /// The file of the second network, which only one of the models has.
    pub fn secondary_onnx_file(self, compute_type: ModelComputeType) -> (name: Option<&'static str>)
        ensures
            match name {
                Some(name) => self == ModelChoice::ParakeetTdt06bV2 && name@ == match compute_type {
                    ModelComputeType::Float32 => "decoder_joint-model.onnx"@,
                    ModelComputeType::Int8 => "decoder_joint-model.int8.onnx"@,
                },
                None => self == ModelChoice::GigaamV3,
            },
    {
        match self {
            ModelChoice::GigaamV3 => None,
            ModelChoice::ParakeetTdt06bV2 => Some(
                match compute_type {
                    ModelComputeType::Float32 => "decoder_joint-model.onnx",
                    ModelComputeType::Int8 => "decoder_joint-model.int8.onnx",
                },
            ),
        }
    }

    /// The files that a model needs besides its settings, vocabulary and first
    /// network.
    pub fn extra_required_files(self, compute_type: ModelComputeType) -> (names:
        &'static [&'static str])
        ensures
            slice_texts(names@) == self.extra_file_texts(compute_type),
    {
        match self {
            ModelChoice::GigaamV3 => &[],
            ModelChoice::ParakeetTdt06bV2 => match compute_type {
                ModelComputeType::Float32 => {
                    &["encoder-model.onnx.data", "decoder_joint-model.onnx"]
                },
                ModelComputeType::Int8 => &["decoder_joint-model.int8.onnx"],
            },
        }
    }
}

impl ModelComputeType {
    pub open spec fn label_text(self) -> Seq<char> {
        match self {
            ModelComputeType::Float32 => "float32"@,
            ModelComputeType::Int8 => "int8"@,
        }
    }

    pub fn label(self) -> (text: &'static str)
        ensures
            text@ == self.label_text(),
    {
        match self {
            ModelComputeType::Float32 => "float32",
            ModelComputeType::Int8 => "int8",
        }
    }
}

// ---------------------------------------------------------------------------
// Directories
// ---------------------------------------------------------------------------

/// The directory for downloads next to the program.
pub fn sandbox_directory(binary_directory: &PathBuf) -> (path: PathBuf)
    ensures
        path_parts(&path) == path_parts(binary_directory).push("transcribe_sandbox"@),
{
    proof {
        reveal_strlit("transcribe_sandbox");
    }
    join_name(binary_directory, "transcribe_sandbox")
}

pub fn default_model_root_directory(binary_directory: &PathBuf) -> (path: PathBuf)
    ensures
        path_parts(&path) == path_parts(binary_directory) + seq!["transcribe_sandbox"@, "models"@],
{
    proof {
        reveal_strlit("models");
    }
    let path = join_name(&sandbox_directory(binary_directory), "models");
    assert(path_parts(&path) =~= path_parts(binary_directory) + seq![
        "transcribe_sandbox"@,
        "models"@,
    ]);
    path
}

pub fn default_ort_runtime_root_directory(binary_directory: &PathBuf) -> (path: PathBuf)
    ensures
        path_parts(&path) == path_parts(binary_directory) + seq![
            "transcribe_sandbox"@,
            "ort-cuda13-nightly"@,
        ],
{
    proof {
        reveal_strlit("ort-cuda13-nightly");
    }
    let path = join_name(&sandbox_directory(binary_directory), "ort-cuda13-nightly");
    assert(path_parts(&path) =~= path_parts(binary_directory) + seq![
        "transcribe_sandbox"@,
        "ort-cuda13-nightly"@,
    ]);
    path
}

/// The components of the directory that holds the models: the given one, or one
/// next to the program.
pub open spec fn model_root_parts(
    models_root: Option<&PathBuf>,
    binary_directory: &PathBuf,
) -> Seq<Seq<char>> {
    match models_root {
        Some(root) => path_parts(root),
        None => path_parts(binary_directory) + seq!["transcribe_sandbox"@, "models"@],
    }
}

/// The directory of a model below the directory that holds the models.
pub fn model_directory(
    choice: ModelChoice,
    models_root: Option<&PathBuf>,
    binary_directory: &PathBuf,
) -> (path: PathBuf)
    ensures
        path_parts(&path) == model_root_parts(models_root, binary_directory).push(
            choice.cli_name_text(),
        ),
{
    proof {
        reveal_strlit("gigaam-v3");
        reveal_strlit("parakeet-tdt-0.6b-v2");
    }
    match models_root {
        Some(root) => join_name(root, choice.cache_dir_name()),
        None => join_name(&default_model_root_directory(binary_directory), choice.cache_dir_name()),
    }
}

/// The files of a model that are read to run it.
pub struct ModelFiles {
    pub config: PathBuf,
    pub vocabulary: PathBuf,
    pub network: PathBuf,
    /// The second network, where the model has two.
    pub decoder: Option<PathBuf>,
}

/// The files of a model in its directory.
pub fn model_files(
    model_dir: &PathBuf,
    choice: ModelChoice,
    compute_type: ModelComputeType,
) -> (files: ModelFiles)
    ensures
        path_parts(&files.config) == path_parts(model_dir).push(choice.config_file_text()),
        path_parts(&files.vocabulary) == path_parts(model_dir).push(choice.vocab_file_text()),
        path_parts(&files.network) == path_parts(model_dir).push(
            choice.onnx_file_text(compute_type),
        ),
        match files.decoder {
            Some(path) => choice == ModelChoice::ParakeetTdt06bV2 && path_parts(&path)
                == path_parts(model_dir).push(
                match compute_type {
                    ModelComputeType::Float32 => "decoder_joint-model.onnx"@,
                    ModelComputeType::Int8 => "decoder_joint-model.int8.onnx"@,
                },
            ),
            None => choice == ModelChoice::GigaamV3,
        },
{
    proof {
        reveal_strlit("v3_e2e_ctc.yaml");
        reveal_strlit("config.json");
        reveal_strlit("v3_e2e_ctc_vocab.txt");
        reveal_strlit("vocab.txt");
        reveal_strlit("v3_e2e_ctc.onnx");
        reveal_strlit("v3_e2e_ctc.int8.onnx");
        reveal_strlit("encoder-model.onnx");
        reveal_strlit("encoder-model.int8.onnx");
        reveal_strlit("decoder_joint-model.onnx");
        reveal_strlit("decoder_joint-model.int8.onnx");
    }
    ModelFiles {
        config: join_name(model_dir, choice.config_file()),
        vocabulary: join_name(model_dir, choice.vocab_file()),
        network: join_name(model_dir, choice.onnx_file(compute_type)),
        decoder: match choice.secondary_onnx_file(compute_type) {
            Some(name) => Some(join_name(model_dir, name)),
            None => None,
        },
    }
}

// ---------------------------------------------------------------------------
// Leftovers of a model
// ---------------------------------------------------------------------------

/// A directory entry belongs to a model when it bears its name, alone or before
/// a dot or a hyphen.
pub open spec fn is_artifact_of(file_name: Seq<char>, model_name: Seq<char>) -> bool {
    ||| file_name == model_name
    ||| begins_with(file_name, model_name + "."@)
    ||| begins_with(file_name, model_name + "-"@)
}

pub fn matches_model_artifact(file_name: &str, model_name: &str) -> (yes: bool)
    ensures
        yes == is_artifact_of(file_name@, model_name@),
{
    same_text(file_name, model_name) || starts_with(
        file_name,
        concat2(model_name, ".").as_str(),
    ) || starts_with(file_name, concat2(model_name, "-").as_str())
}

/// Whether an entry, which may have no name as text, belongs to a model.
pub open spec fn entry_goes(entry: Option<String>, choice: ModelChoice) -> bool {
    match entry {
        Some(name) => is_artifact_of(name@, choice.cli_name_text()),
        None => false,
    }
}

/// The positions at which entries of a directory belong to a model.
pub open spec fn artifact_positions(
    entries: Seq<Option<String>>,
    choice: ModelChoice,
) -> Seq<usize>
    decreases entries.len(),
{
    if entries.len() == 0 {
        seq![]
    } else {
        let before = artifact_positions(entries.drop_last(), choice);
        if entry_goes(entries.last(), choice) {
            before.push((entries.len() - 1) as usize)
        } else {
            before
        }
    }
}

/// Which of the entries of the directory of all models go when a model goes: the
/// positions in `entries`, in order.
pub fn remove_model_with_artifacts(choice: ModelChoice, entries: &Vec<Option<String>>) -> (positions:
    Vec<usize>)
    ensures
        positions@ == artifact_positions(entries@, choice),
{
    let mut positions: Vec<usize> = Vec::new();
    for i in 0..entries.len()
        invariant
            positions@ == artifact_positions(entries@.take(i as int), choice),
    {
        assert(entries@.take(i + 1).drop_last() =~= entries@.take(i as int));
        match &entries[i] {
            Some(name) => {
                if matches_model_artifact(name.as_str(), choice.cache_dir_name()) {
                    positions.push(i);
                }
            },
            None => {},
        }
    }
    assert(entries@.take(entries@.len() as int) =~= entries@);
    positions
}

/// What belongs to one model does not belong to the other, and the directory of
/// a model belongs to it.
pub proof fn law_models_share_no_artifact(file_name: Seq<char>, choice: ModelChoice)
    ensures
        is_artifact_of(choice.cli_name_text(), choice.cli_name_text()),
        !(is_artifact_of(file_name, ModelChoice::GigaamV3.cli_name_text()) && is_artifact_of(
            file_name,
            ModelChoice::ParakeetTdt06bV2.cli_name_text(),
        )),
{
    reveal_strlit("gigaam-v3");
    reveal_strlit("parakeet-tdt-0.6b-v2");
    lemma_artifact_begins(file_name, ModelChoice::GigaamV3.cli_name_text());
    lemma_artifact_begins(file_name, ModelChoice::ParakeetTdt06bV2.cli_name_text());
}

proof fn lemma_artifact_begins(file_name: Seq<char>, model_name: Seq<char>)
    requires
        model_name.len() > 0,
    ensures
        is_artifact_of(file_name, model_name) ==> file_name.len() > 0 && file_name[0]
            == model_name[0],
{
    reveal_strlit(".");
    reveal_strlit("-");
    if begins_with(file_name, model_name + "."@) {
        assert(file_name.take((model_name + "."@).len() as int)[0] == model_name[0]);
    }
    if begins_with(file_name, model_name + "-"@) {
        assert(file_name.take((model_name + "-"@).len() as int)[0] == model_name[0]);
    }
}

// ---------------------------------------------------------------------------
// Repository files
// ---------------------------------------------------------------------------

/// A file of a model repository as its manifest lists it.
#[derive(Clone, Debug)]
pub struct HfSibling {
    pub rfilename: String,
    pub size: Option<u64>,
    pub lfs: Option<HfLfs>,
}

#[derive(Clone, Copy, Debug, PartialEq, Eq, Structural)]
pub struct HfLfs {
    pub size: Option<u64>,
}

impl HfSibling {
    /// The size of the file: its own, or else that of the stored object.
    pub open spec fn known_size(self) -> Option<u64> {
        match self.size {
            Some(size) => Some(size),
            None => match self.lfs {
                Some(lfs) => lfs.size,
                None => None,
            },
        }
    }

    pub fn expected_size(&self) -> (size: Option<u64>)
        ensures
            size == self.known_size(),
    {
        match self.size {
            Some(size) => Some(size),
            None => match &self.lfs {
                Some(lfs) => lfs.size,
                None => None,
            },
        }
    }
}

// ---------------------------------------------------------------------------
// Settings
// ---------------------------------------------------------------------------

/// The settings of a model that are shown to the user.
#[derive(Debug)]
pub struct ModelConfig {
    pub model_name: Option<String>,
    pub model_class: Option<String>,
    pub model_type: Option<String>,
    pub sample_rate: Option<u32>,
    pub features: Option<u32>,
    pub win_length: Option<u32>,
    pub hop_length: Option<u32>,
    pub n_fft: Option<u32>,
    pub center: Option<bool>,
    pub encoder_layers: Option<u32>,
    pub d_model: Option<u32>,
    pub num_classes: Option<u32>,
    pub subsampling_factor: Option<u32>,
}

impl Default for ModelConfig {
    fn default() -> (config: Self)
        ensures
            config == (ModelConfig {
                model_name: None,
                model_class: None,
                model_type: None,
                sample_rate: None,
                features: None,
                win_length: None,
                hop_length: None,
                n_fft: None,
                center: None,
                encoder_layers: None,
                d_model: None,
                num_classes: None,
                subsampling_factor: None,
            }),
    {
        ModelConfig {
            model_name: None,
            model_class: None,
            model_type: None,
            sample_rate: None,
            features: None,
            win_length: None,
            hop_length: None,
            n_fft: None,
            center: None,
            encoder_layers: None,
            d_model: None,
            num_classes: None,
            subsampling_factor: None,
        }
    }
}

/// The settings file of the Russian model.
#[derive(Debug)]
pub struct RawGigaAmModelConfig {
    pub model_name: Option<String>,
    pub model_class: Option<String>,
    pub sample_rate: Option<u32>,
    pub preprocessor: Option<RawPreprocessorConfig>,
    pub encoder: Option<RawEncoderConfig>,
    pub head: Option<RawHeadConfig>,
}

#[derive(Clone, Copy, Debug)]
pub struct RawPreprocessorConfig {
    pub sample_rate: Option<u32>,
    pub features: Option<u32>,
    pub win_length: Option<u32>,
    pub hop_length: Option<u32>,
    pub n_fft: Option<u32>,
    pub center: Option<bool>,
}

#[derive(Clone, Copy, Debug)]
pub struct RawEncoderConfig {
    pub n_layers: Option<u32>,
    pub d_model: Option<u32>,
}

#[derive(Clone, Copy, Debug)]
pub struct RawHeadConfig {
    pub num_classes: Option<u32>,
}

/// The settings file of the English model.
#[derive(Debug)]
pub struct RawParakeetModelConfig {
    pub model_type: Option<String>,
    pub features_size: Option<u32>,
    pub subsampling_factor: Option<u32>,
}

/// The settings file of either model.
#[derive(Debug)]
pub enum RawModelConfig {
    GigaamV3(RawGigaAmModelConfig),
    ParakeetTdt06bV2(RawParakeetModelConfig),
}

/// A preprocessor section, where a missing one says nothing.
pub open spec fn preprocessor_or_blank(
    section: Option<RawPreprocessorConfig>,
) -> RawPreprocessorConfig {
    match section {
        Some(section) => section,
        None => RawPreprocessorConfig {
            sample_rate: None,
            features: None,
            win_length: None,
            hop_length: None,
            n_fft: None,
            center: None,
        },
    }
}

/// What the settings of the Russian model are.  The sample rate of the
/// preprocessor goes before that of the model.
pub open spec fn gigaam_settings(raw: RawGigaAmModelConfig) -> ModelConfig {
    let section = preprocessor_or_blank(raw.preprocessor);
    ModelConfig {
        model_name: raw.model_name,
        model_class: raw.model_class,
        model_type: None,
        sample_rate: if section.sample_rate is Some {
            section.sample_rate
        } else {
            raw.sample_rate
        },
        features: section.features,
        win_length: section.win_length,
        hop_length: section.hop_length,
        n_fft: section.n_fft,
        center: section.center,
        encoder_layers: match raw.encoder {
            Some(encoder) => encoder.n_layers,
            None => None,
        },
        d_model: match raw.encoder {
            Some(encoder) => encoder.d_model,
            None => None,
        },
        num_classes: match raw.head {
            Some(head) => head.num_classes,
            None => None,
        },
        subsampling_factor: None,
    }
}

/// What the settings of the English model are: most of them are fixed.
pub open spec fn are_parakeet_settings(
    raw: RawParakeetModelConfig,
    config: ModelConfig,
) -> bool {
    &&& config.model_name is Some
    &&& config.model_name->0@ == "Parakeet TDT 0.6B V2"@
    &&& config == (ModelConfig {
        model_name: config.model_name,
        model_class: None,
        model_type: raw.model_type,
        sample_rate: Some(16_000),
        features: raw.features_size,
        win_length: Some(400),
        hop_length: Some(160),
        n_fft: Some(512),
        center: Some(false),
        encoder_layers: None,
        d_model: None,
        num_classes: None,
        subsampling_factor: raw.subsampling_factor,
    })
}

/// The settings of a model, from its settings file.
pub fn read_model_config(raw: RawModelConfig) -> (config: ModelConfig)
    ensures
        match raw {
            RawModelConfig::GigaamV3(raw) => config == gigaam_settings(raw),
            RawModelConfig::ParakeetTdt06bV2(raw) => are_parakeet_settings(raw, config),
        },
{
    match raw {
        RawModelConfig::GigaamV3(raw) => read_gigaam_model_config(raw),
        RawModelConfig::ParakeetTdt06bV2(raw) => read_parakeet_model_config(raw),
    }
}

pub fn read_gigaam_model_config(raw: RawGigaAmModelConfig) -> (config: ModelConfig)
    ensures
        config == gigaam_settings(raw),
{
    let section = match raw.preprocessor {
        Some(section) => section,
        None => RawPreprocessorConfig {
            sample_rate: None,
            features: None,
            win_length: None,
            hop_length: None,
            n_fft: None,
            center: None,
        },
    };
    let sample_rate = match section.sample_rate {
        Some(rate) => Some(rate),
        None => raw.sample_rate,
    };
    let (encoder_layers, d_model) = match raw.encoder {
        Some(encoder) => (encoder.n_layers, encoder.d_model),
        None => (None, None),
    };
    let num_classes = match raw.head {
        Some(head) => head.num_classes,
        None => None,
    };
    ModelConfig {
        model_name: raw.model_name,
        model_class: raw.model_class,
        model_type: None,
        sample_rate,
        features: section.features,
        win_length: section.win_length,
        hop_length: section.hop_length,
        n_fft: section.n_fft,
        center: section.center,
        encoder_layers,
        d_model,
        num_classes,
        subsampling_factor: None,
    }
}

pub fn read_parakeet_model_config(raw: RawParakeetModelConfig) -> (config: ModelConfig)
    ensures
        are_parakeet_settings(raw, config),
{
    ModelConfig {
        model_name: Some("Parakeet TDT 0.6B V2".to_string()),
        model_class: None,
        model_type: raw.model_type,
        sample_rate: Some(16_000),
        features: raw.features_size,
        win_length: Some(400),
        hop_length: Some(160),
        n_fft: Some(512),
        center: Some(false),
        encoder_layers: None,
        d_model: None,
        num_classes: None,
        subsampling_factor: raw.subsampling_factor,
    }
}

/// What belongs to a model bears its name alone, or its name and then a dot or a
/// hyphen; a longer or another name does not.
pub proof fn law_artifacts_bear_the_name(file_name: Seq<char>, model_name: Seq<char>)
    ensures
        is_artifact_of(file_name, model_name) <==> file_name == model_name || file_name.len()
            > model_name.len() && file_name.take(model_name.len() as int) == model_name && (
        file_name[model_name.len() as int] == '.' || file_name[model_name.len() as int] == '-'),
{
    reveal_strlit(".");
    reveal_strlit("-");
    let n = model_name.len() as int;
    if file_name.len() > n && file_name.take(n) == model_name {
        let start = file_name.take(n + 1);
        assert(start =~= model_name.push(file_name[n]));
        assert(model_name + "."@ =~= model_name.push('.'));
        assert(model_name + "-"@ =~= model_name.push('-'));
    }
    if begins_with(file_name, model_name + "."@) {
        assert(file_name.take(n) =~= file_name.take(n + 1).take(n));
        assert((model_name + "."@).take(n) =~= model_name);
        assert(file_name.take(n + 1)[n] == '.');
    }
    if begins_with(file_name, model_name + "-"@) {
        assert(file_name.take(n) =~= file_name.take(n + 1).take(n));
        assert((model_name + "-"@).take(n) =~= model_name);
        assert(file_name.take(n + 1)[n] == '-');
    }
}

/// When a model goes, the entries that belong to it go, and no others; an entry
/// whose name is no text stays.
pub proof fn law_just_the_artifacts_go(entries: Seq<Option<String>>, choice: ModelChoice, at: usize)
    requires
        entries.len() <= usize::MAX,
    ensures
        artifact_positions(entries, choice).contains(at) <==> at < entries.len() && (
        entries[at as int] matches Some(name) && is_artifact_of(name@, choice.cli_name_text())),
        forall|i: int, j: int|
            0 <= i < j < artifact_positions(entries, choice).len() ==> artifact_positions(
                entries,
                choice,
            )[i] < artifact_positions(entries, choice)[j],
        forall|i: int|
            0 <= i < artifact_positions(entries, choice).len() ==> artifact_positions(
                entries,
                choice,
            )[i] < entries.len(),
    decreases entries.len(),
{
    let all = artifact_positions(entries, choice);
    if entries.len() > 0 {
        let shorter = entries.drop_last();
        let before = artifact_positions(shorter, choice);
        law_just_the_artifacts_go(shorter, choice, at);
        if before.contains(at) {
            let i = choose|i: int| 0 <= i < before.len() && before[i] == at;
            assert(all[i] == at);
        }
        if all.contains(at) {
            let i = choose|i: int| 0 <= i < all.len() && all[i] == at;
            if i < before.len() {
                assert(before[i] == at);
            }
        }
        if at == entries.len() - 1 && entry_goes(entries.last(), choice) {
            assert(all[all.len() - 1] == at);
        }
    }
}

/// The settings of the Russian model are those of its file, each from its section;
/// the sample rate of the preprocessor goes before that of the model.
pub proof fn law_settings_come_from_their_sections(raw: RawGigaAmModelConfig)
    ensures
        ({
            let config = gigaam_settings(raw);
            &&& config.model_name == raw.model_name
            &&& config.model_class == raw.model_class
            &&& config.model_type is None
            &&& config.subsampling_factor is None
            &&& raw.preprocessor matches Some(section) ==> {
                &&& section.sample_rate is Some ==> config.sample_rate == section.sample_rate
                &&& section.sample_rate is None ==> config.sample_rate == raw.sample_rate
                &&& config.features == section.features
                &&& config.win_length == section.win_length
                &&& config.hop_length == section.hop_length
                &&& config.n_fft == section.n_fft
                &&& config.center == section.center
            }
            &&& raw.preprocessor is None ==> config.sample_rate == raw.sample_rate
                && config.features is None && config.win_length is None && config.hop_length is None
                && config.n_fft is None && config.center is None
            &&& raw.encoder matches Some(encoder) ==> config.encoder_layers == encoder.n_layers
                && config.d_model == encoder.d_model
            &&& raw.encoder is None ==> config.encoder_layers is None && config.d_model is None
            &&& raw.head matches Some(head) ==> config.num_classes == head.num_classes
            &&& raw.head is None ==> config.num_classes is None
        }),
{
}

/// Models lie in the directory that is given, and next to the program only where
/// none is.
pub proof fn law_models_lie_where_they_are_put(root: &PathBuf, binary_directory: &PathBuf)
    ensures
        model_root_parts(Some(root), binary_directory) == path_parts(root),
        model_root_parts(None, binary_directory) == path_parts(binary_directory).push(
            "transcribe_sandbox"@,
        ).push("models"@),
{
    assert(path_parts(binary_directory) + seq!["transcribe_sandbox"@, "models"@] =~= path_parts(
        binary_directory,
    ).push("transcribe_sandbox"@).push("models"@));
}

/// The settings of the English model are fixed but for its kind, its features and
/// its subsampling, which its file gives.
pub proof fn law_most_settings_are_fixed(raw: RawParakeetModelConfig, config: ModelConfig)
    requires
        are_parakeet_settings(raw, config),
    ensures
        config.model_name is Some && config.model_name->0@ == "Parakeet TDT 0.6B V2"@,
        config.model_type == raw.model_type,
        config.features == raw.features_size,
        config.subsampling_factor == raw.subsampling_factor,
        config.sample_rate == Some(16_000u32),
        config.win_length == Some(400u32),
        config.hop_length == Some(160u32),
        config.n_fft == Some(512u32),
        config.center == Some(false),
        config.model_class is None,
        config.encoder_layers is None,
        config.d_model is None,
        config.num_classes is None,
{
}

} // verus!
