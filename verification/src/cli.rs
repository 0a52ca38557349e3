//! What the command line asks for.

use vstd::prelude::*;
use vstd::string::StringExecFns;

use crate::language::{
    language_fault, law_resolved_language_suits_its_model, law_two_languages_are_spoken, model_for,
    resolve_requested_language, resolved_language, select_model_for_language,
};
use crate::model::{ModelChoice, ModelComputeType};
use crate::onnx_ctc::{
    law_models_run_as_asked, requested_execution, ExecutionError, ExecutionMode, ExecutionView,
};
use crate::text::{
    ascii_lowered, concat3, decimal, decimal_text, opt_str, opt_text, trimmed,
};

verus! {

#[derive(Clone, Copy, Debug, PartialEq, Eq, Structural)]
pub enum CliComputeType {
    Auto,
    Int8,
    Float32,
}

impl CliComputeType {
    pub open spec fn meaning(self) -> Option<ModelComputeType> {
        match self {
            CliComputeType::Auto => None,
            CliComputeType::Int8 => Some(ModelComputeType::Int8),
            CliComputeType::Float32 => Some(ModelComputeType::Float32),
        }
    }

    pub fn gigaam_type(self) -> (compute_type: Option<ModelComputeType>)
        ensures
            compute_type == self.meaning(),
    {
        match self {
            CliComputeType::Auto => None,
            CliComputeType::Int8 => Some(ModelComputeType::Int8),
            CliComputeType::Float32 => Some(ModelComputeType::Float32),
        }
    }
}

/// The options that decide what is done.
#[derive(Debug)]
pub struct CliOptions {
    pub server: Option<u16>,
    pub gpu: bool,
    pub gpu_device: i32,
    pub compute_type: Option<CliComputeType>,
    pub language: Option<String>,
    pub stream: bool,
    pub live: bool,
    pub vad: bool,
    pub remove_model: bool,
    pub remove_all: bool,
    pub audio: Option<String>,
}

/// How media is transcribed.
#[derive(Clone, Copy, Debug, PartialEq, Eq, Structural)]
pub enum TranscriptionMode {
    /// A recording, shown piece by piece or all at once.
    Recording { stream: bool },
    /// A live stream, with or without telling speech from silence.
    Live { vad: bool },
}

/// A transcription that can be begun.
#[derive(Debug)]
pub struct TranscriptionPlan {
    pub language: String,
    pub choice: ModelChoice,
    pub media: String,
    pub mode: TranscriptionMode,
    pub execution: ExecutionMode,
}

/// What is done.
#[derive(Debug)]
pub enum CliPlan {
    /// Remove all models.
    RemoveAll,
    /// Remove one model.
    RemoveModel { choice: ModelChoice },
    /// Serve requests.
    Serve { port: u16 },
    Transcribe(TranscriptionPlan),
}

#[derive(Debug)]
pub enum CliError {
    Language { name: String },
    NoMedia,
    VadWithoutLive,
    Execution(ExecutionError),
}

impl CliError {
    pub open spec fn text(self) -> Seq<char> {
        match self {
            CliError::Language { name } => "unsupported language `"@ + name@
                + "`; currently supported values are `ru` and `en`"@,
            CliError::NoMedia =>
                "a media path or URL is required unless --server, --remove-model or --remove-all is used"@,
            CliError::VadWithoutLive =>
                "`--vad` is currently supported only together with `--live`"@,
            CliError::Execution(error) => error.text(),
        }
    }

    pub fn message(&self) -> (text: String)
        ensures
            text@ == self.text(),
    {
        match self {
            CliError::Language { name } => concat3(
                "unsupported language `",
                name.as_str(),
                "`; currently supported values are `ru` and `en`",
            ),
            CliError::NoMedia => {
                "a media path or URL is required unless --server, --remove-model or --remove-all is used".to_string()
            },
            CliError::VadWithoutLive => {
                "`--vad` is currently supported only together with `--live`".to_string()
            },
            CliError::Execution(error) => error.message().to_string(),
        }
    }
}

impl CliOptions {
    pub open spec fn asked_execution(self, gpu_supported: bool) -> Result<
        ExecutionView,
        ExecutionError,
    > {
        requested_execution(
            self.gpu,
            self.gpu_device,
            match self.compute_type {
                Some(compute_type) => compute_type.meaning(),
                None => None,
            },
            gpu_supported,
        )
    }

    /// What the options come to.  The language is looked at first; then removing
    /// comes before serving, and serving before transcribing, which takes media
    /// and tells speech from silence only in a live stream.
    pub open spec fn is_plan(
        self,
        gpu_supported: bool,
        plan: Result<CliPlan, CliError>,
    ) -> bool {
        match resolved_language(opt_text(self.language)) {
            Err(language) => plan matches Err(CliError::Language { name }) && name@ == language,
            Ok(language) => if self.remove_all {
                plan matches Ok(CliPlan::RemoveAll)
            } else if self.remove_model {
                plan matches Ok(CliPlan::RemoveModel { choice }) && choice == model_for(language)
            } else if self.server is Some {
                plan matches Ok(CliPlan::Serve { port }) && Some(port) == self.server
            } else if self.audio is None {
                plan matches Err(CliError::NoMedia)
            } else if self.vad && !self.live {
                plan matches Err(CliError::VadWithoutLive)
            } else {
                match self.asked_execution(gpu_supported) {
                    Err(fault) => plan matches Err(CliError::Execution(error)) && error == fault,
                    Ok(mode) => plan matches Ok(CliPlan::Transcribe(run)) && {
                        &&& run.language@ == language
                        &&& run.choice == model_for(language)
                        &&& language_fault(run.choice, Some(language)) is None
                        &&& run.media@ == self.audio->0@
                        &&& run.execution@ == mode
                        &&& run.mode == (if self.live {
                            TranscriptionMode::Live { vad: self.vad }
                        } else {
                            TranscriptionMode::Recording { stream: self.stream }
                        })
                    },
                }
            },
        }
    }

    pub fn plan(&self, gpu_supported: bool) -> (plan: Result<CliPlan, CliError>)
        ensures
            self.is_plan(gpu_supported, plan),
    {
        let named: Option<&str> = match &self.language {
            Some(language) => Some(language.as_str()),
            None => None,
        };
        let language = match resolve_requested_language(named) {
            Ok(language) => language,
            Err(error) => {
                return Err(CliError::Language { name: error.language });
            },
        };
        proof {
            law_resolved_language_suits_its_model(opt_str(named));
        }
        let choice = select_model_for_language(language.as_str());
        if self.remove_all {
            return Ok(CliPlan::RemoveAll);
        }
        if self.remove_model {
            return Ok(CliPlan::RemoveModel { choice });
        }
        match self.server {
            Some(port) => {
                return Ok(CliPlan::Serve { port });
            },
            None => {},
        }
        let media = match &self.audio {
            Some(media) => media.as_str().to_string(),
            None => {
                return Err(CliError::NoMedia);
            },
        };
        if self.vad && !self.live {
            return Err(CliError::VadWithoutLive);
        }
        let compute_type = match self.compute_type {
            Some(compute_type) => compute_type.gigaam_type(),
            None => None,
        };
        let execution = match ExecutionMode::from_cli(
            self.gpu,
            self.gpu_device,
            compute_type,
            gpu_supported,
        ) {
            Ok(execution) => execution,
            Err(error) => {
                return Err(CliError::Execution(error));
            },
        };
        let mode = if self.live {
            TranscriptionMode::Live { vad: self.vad }
        } else {
            TranscriptionMode::Recording { stream: self.stream }
        };
        Ok(CliPlan::Transcribe(TranscriptionPlan { language, choice, media, mode, execution }))
    }
}

// ---------------------------------------------------------------------------
// Removing models
// ---------------------------------------------------------------------------

pub open spec fn removed_all_text(removed: bool, models_root: Seq<char>) -> Seq<char> {
    if removed {
        "removed models directory `"@ + models_root + "`"@
    } else {
        "models directory `"@ + models_root + "` does not exist"@
    }
}

/// What is said after all models were to be removed.
pub fn removed_all_message(removed: bool, models_root: &str) -> (text: String)
    ensures
        text@ == removed_all_text(removed, models_root@),
{
    if removed {
        concat3("removed models directory `", models_root, "`")
    } else {
        concat3("models directory `", models_root, "` does not exist")
    }
}

pub open spec fn removed_model_text(
    choice: ModelChoice,
    entries: int,
    models_root: Seq<char>,
) -> Seq<char> {
    if entries > 0 {
        "removed model `"@ + choice.cli_name_text() + "` and "@ + decimal(entries as nat)
            + " related artifact(s) from `"@ + models_root + "`"@
    } else {
        "no artifacts found for model `"@ + choice.cli_name_text() + "` in `"@ + models_root + "`"@
    }
}

/// What is said after a model was to be removed.
pub fn removed_model_message(choice: ModelChoice, entries: usize, models_root: &str) -> (text:
    String)
    ensures
        text@ == removed_model_text(choice, entries as int, models_root@),
{
    if entries > 0 {
        let mut text = concat3("removed model `", choice.cli_name(), "` and ");
        text.append(decimal_text(entries as u64).as_str());
        text.append(" related artifact(s) from `");
        text.append(models_root);
        text.append("`");
        text
    } else {
        let mut text = concat3("no artifacts found for model `", choice.cli_name(), "` in `");
        text.append(models_root);
        text.append("`");
        text
    }
}

/// The options do what they say.  Removing goes before serving, and serving before
/// transcribing; the model is that of the language; a transcription takes the
/// media that is named and runs on the device and in the precision that are asked
/// for; it is live where it is to be, and looks for speech only then.
pub proof fn law_options_do_what_they_say(
    options: CliOptions,
    gpu_supported: bool,
    plan: Result<CliPlan, CliError>,
)
    requires
        options.is_plan(gpu_supported, plan),
    ensures
        ({
            let read = match options.language {
                Some(text) => ascii_lowered(trimmed(text@)),
                None => Seq::<char>::empty(),
            };
            let spoken = read.len() == 0 || read == "ru"@ || read == "en"@;
            let model = if read == "en"@ {
                ModelChoice::ParakeetTdt06bV2
            } else {
                ModelChoice::GigaamV3
            };
            let works = !options.remove_all && !options.remove_model && options.server is None;
            &&& !spoken ==> (plan matches Err(CliError::Language { name }) && name@ == read)
            &&& spoken && options.remove_all ==> plan == Ok::<CliPlan, CliError>(CliPlan::RemoveAll)
            &&& spoken && !options.remove_all && options.remove_model ==> plan == Ok::<
                CliPlan,
                CliError,
            >(CliPlan::RemoveModel { choice: model })
            &&& spoken && !options.remove_all && !options.remove_model && options.server is Some
                ==> plan == Ok::<CliPlan, CliError>(CliPlan::Serve { port: options.server->0 })
            &&& spoken && works && options.audio is None ==> plan == Err::<CliPlan, CliError>(
                CliError::NoMedia,
            )
            &&& spoken && works && options.audio is Some && options.vad && !options.live ==> plan
                == Err::<CliPlan, CliError>(CliError::VadWithoutLive)
            &&& spoken && works && options.audio is Some && (options.vad ==> options.live) ==> {
                &&& options.gpu && !gpu_supported ==> plan == Err::<CliPlan, CliError>(
                    CliError::Execution(ExecutionError::GpuNotSupported),
                )
                &&& options.gpu && gpu_supported && options.gpu_device < 0 ==> plan == Err::<
                    CliPlan,
                    CliError,
                >(CliError::Execution(ExecutionError::NegativeDevice))
                &&& !options.gpu || gpu_supported && options.gpu_device >= 0 ==> (plan matches Ok(
                    CliPlan::Transcribe(run),
                ) && {
                    &&& run.media@ == options.audio->0@
                    &&& run.choice == model
                    &&& run.language@ == (if read == "en"@ {
                        "en"@
                    } else {
                        "ru"@
                    })
                    &&& run.mode == (if options.live {
                        TranscriptionMode::Live { vad: options.vad }
                    } else {
                        TranscriptionMode::Recording { stream: options.stream }
                    })
                    &&& run.execution@.use_gpu == options.gpu
                    &&& options.gpu ==> run.execution@.gpu_device == Some(options.gpu_device)
                    &&& !options.gpu ==> run.execution@.gpu_device is None
                    &&& options.compute_type == Some(CliComputeType::Int8)
                        ==> run.execution@.compute_type == ModelComputeType::Int8
                    &&& options.compute_type == Some(CliComputeType::Float32)
                        ==> run.execution@.compute_type == ModelComputeType::Float32
                    &&& options.compute_type is None || options.compute_type == Some(
                        CliComputeType::Auto,
                    ) ==> run.execution@.compute_type == (if options.gpu {
                        ModelComputeType::Float32
                    } else {
                        ModelComputeType::Int8
                    })
                })
            }
        }),
{
    law_two_languages_are_spoken(opt_text(options.language));
    law_models_run_as_asked(
        options.gpu,
        options.gpu_device,
        match options.compute_type {
            Some(compute_type) => compute_type.meaning(),
            None => None,
        },
        gpu_supported,
    );
    reveal_strlit("ru");
    reveal_strlit("en");
    assert("ru"@[0] == 'r' && "en"@[0] == 'e' && "en"@.len() == 2);
    assert("ru"@ != "en"@);
    assert(model_for("en"@) == ModelChoice::ParakeetTdt06bV2);
    assert(model_for("ru"@) == ModelChoice::GigaamV3);
}

} // verus!
