//! Requests to the server and what they are answered.

use std::path::PathBuf;
use std::time::Duration;

use vstd::prelude::*;

use crate::audio::AudioMetadata;
use crate::language::{
    language_fault, law_resolved_language_suits_its_model, law_two_languages_are_spoken, model_for,
    resolve_requested_language, resolved_language, select_model_for_language,
};
use crate::model::{ModelChoice, ModelComputeType};
use crate::onnx_ctc::{
    law_models_run_as_asked, requested_execution, ExecutionError, ExecutionMode, ExecutionView,
};
use crate::text::{ascii_lowered, concat2, opt_str, opt_text, replace_text, replaced, trimmed};

verus! {

/// What the server keeps.
#[derive(Debug)]
pub struct RestState {
    pub models_root: PathBuf,
}

/// What a transcription gives.
#[derive(Debug)]
pub struct RestTranscriptionResult {
    pub transcript: String,
    pub audio_metadata: AudioMetadata,
}

// ---------------------------------------------------------------------------
// Requests
// ---------------------------------------------------------------------------

#[derive(Clone, Copy, Debug, PartialEq, Eq, Structural)]
pub enum RestComputeType {
    Auto,
    Int8,
    Float32,
}

impl RestComputeType {
    pub open spec fn meaning(self) -> Option<ModelComputeType> {
        match self {
            RestComputeType::Auto => None,
            RestComputeType::Int8 => Some(ModelComputeType::Int8),
            RestComputeType::Float32 => Some(ModelComputeType::Float32),
        }
    }

    pub fn model_compute_type(self) -> (compute_type: Option<ModelComputeType>)
        ensures
            compute_type == self.meaning(),
    {
        match self {
            RestComputeType::Auto => None,
            RestComputeType::Int8 => Some(ModelComputeType::Int8),
            RestComputeType::Float32 => Some(ModelComputeType::Float32),
        }
    }
}

/// A request to transcribe a recording.
#[derive(Debug)]
pub struct TranscribeRequest {
    pub media: String,
    pub language: Option<String>,
    pub gpu: Option<bool>,
    pub gpu_device: Option<i32>,
    pub compute_type: Option<RestComputeType>,
}

/// A request to transcribe a live stream.
#[derive(Debug)]
pub struct LiveTranscribeRequest {
    pub media: String,
    pub language: Option<String>,
    pub gpu: Option<bool>,
    pub gpu_device: Option<i32>,
    pub compute_type: Option<RestComputeType>,
    pub vad: Option<bool>,
}

/// What a request asks of the machine: the first device where none is named.
pub open spec fn asked_execution(
    gpu: Option<bool>,
    gpu_device: Option<i32>,
    compute_type: Option<RestComputeType>,
    gpu_supported: bool,
) -> Result<ExecutionView, ExecutionError> {
    requested_execution(
        gpu == Some(true),
        match gpu_device {
            Some(device) => device,
            None => 0,
        },
        match compute_type {
            Some(compute_type) => compute_type.meaning(),
            None => None,
        },
        gpu_supported,
    )
}

pub open spec fn is_execution(
    asked: Result<ExecutionView, ExecutionError>,
    outcome: Result<ExecutionMode, ExecutionError>,
) -> bool {
    match outcome {
        Ok(mode) => asked == Ok::<ExecutionView, ExecutionError>(mode@),
        Err(error) => asked == Err::<ExecutionView, ExecutionError>(error),
    }
}

fn choose_execution(
    gpu: Option<bool>,
    gpu_device: Option<i32>,
    compute_type: Option<RestComputeType>,
    gpu_supported: bool,
) -> (outcome: Result<ExecutionMode, ExecutionError>)
    ensures
        is_execution(asked_execution(gpu, gpu_device, compute_type, gpu_supported), outcome),
{
    let use_gpu = match gpu {
        Some(gpu) => gpu,
        None => false,
    };
    let device: i32 = match gpu_device {
        Some(device) => device,
        None => 0,
    };
    let requested = match compute_type {
        Some(compute_type) => compute_type.model_compute_type(),
        None => None,
    };
    ExecutionMode::from_cli(use_gpu, device, requested, gpu_supported)
}

impl TranscribeRequest {
    pub fn execution(&self, gpu_supported: bool) -> (outcome: Result<ExecutionMode, ExecutionError>)
        ensures
            is_execution(
                asked_execution(self.gpu, self.gpu_device, self.compute_type, gpu_supported),
                outcome,
            ),
    {
        choose_execution(self.gpu, self.gpu_device, self.compute_type, gpu_supported)
    }

    /// What the request comes to, or why it is refused.
    pub fn accept(&self, gpu_supported: bool) -> (outcome: Result<AcceptedRequest, ErrorResponse>)
        ensures
            is_acceptance(
                resolved_language(opt_text(self.language)),
                asked_execution(self.gpu, self.gpu_device, self.compute_type, gpu_supported),
                outcome,
            ),
    {
        let execution = self.execution(gpu_supported);
        accept_request(&self.language, execution)
    }
}

impl LiveTranscribeRequest {
    pub fn execution(&self, gpu_supported: bool) -> (outcome: Result<ExecutionMode, ExecutionError>)
        ensures
            is_execution(
                asked_execution(self.gpu, self.gpu_device, self.compute_type, gpu_supported),
                outcome,
            ),
    {
        choose_execution(self.gpu, self.gpu_device, self.compute_type, gpu_supported)
    }

    /// What the request comes to, or why it is refused.
    pub fn accept(&self, gpu_supported: bool) -> (outcome: Result<AcceptedRequest, ErrorResponse>)
        ensures
            is_acceptance(
                resolved_language(opt_text(self.language)),
                asked_execution(self.gpu, self.gpu_device, self.compute_type, gpu_supported),
                outcome,
            ),
    {
        let execution = self.execution(gpu_supported);
        accept_request(&self.language, execution)
    }

    /// Whether speech is told from silence: not unless it is asked for.
    pub fn use_vad(&self) -> (yes: bool)
        ensures
            yes == (self.vad == Some(true)),
    {
        match self.vad {
            Some(vad) => vad,
            None => false,
        }
    }
}

/// A request that can be served.
#[derive(Debug)]
pub struct AcceptedRequest {
    pub language: String,
    pub choice: ModelChoice,
    pub execution: ExecutionMode,
}

/// A request must name a language that has a model, or none, and a device that is
/// there; the language is looked at first.  The model of an accepted request takes
/// its language.
pub open spec fn is_acceptance(
    language: Result<Seq<char>, Seq<char>>,
    execution: Result<ExecutionView, ExecutionError>,
    outcome: Result<AcceptedRequest, ErrorResponse>,
) -> bool {
    match (language, execution) {
        (Err(name), _) => outcome matches Err(error) && error.status == 400 && error.error@
            == "unsupported language `"@ + name
            + "`; currently supported values are `ru` and `en`"@,
        (Ok(_), Err(fault)) => outcome matches Err(error) && error.status == 400 && error.error@
            == fault.text(),
        (Ok(name), Ok(mode)) => outcome matches Ok(accepted) && accepted.language@ == name
            && accepted.choice == model_for(name) && accepted.execution@ == mode && language_fault(
            accepted.choice,
            Some(name),
        ) is None,
    }
}

fn accept_request(
    language: &Option<String>,
    execution: Result<ExecutionMode, ExecutionError>,
) -> (outcome: Result<AcceptedRequest, ErrorResponse>)
    ensures
        match execution {
            Ok(mode) => is_acceptance(
                resolved_language(opt_text(*language)),
                Ok(mode@),
                outcome,
            ),
            Err(error) => is_acceptance(
                resolved_language(opt_text(*language)),
                Err(error),
                outcome,
            ),
        },
{
    let named: Option<&str> = match language {
        Some(language) => Some(language.as_str()),
        None => None,
    };
    let language = match resolve_requested_language(named) {
        Ok(language) => language,
        Err(error) => {
            return Err(bad_request(error.message()));
        },
    };
    proof {
        law_resolved_language_suits_its_model(opt_str(named));
    }
    match execution {
        Ok(execution) => {
            let choice = select_model_for_language(language.as_str());
            Ok(AcceptedRequest { language, choice, execution })
        },
        Err(error) => Err(bad_request(error.message().to_string())),
    }
}

// ---------------------------------------------------------------------------
// Answers
// ---------------------------------------------------------------------------

/// A refusal, with its status.
#[derive(Debug)]
pub struct ErrorResponse {
    pub status: u16,
    pub error: String,
}

impl ErrorResponse {
    /// The refusal where the answer is a stream of events: its one event.
    pub fn into_event(self) -> (event: StreamEvent)
        ensures
            event.reads("error"@, replaced(self.error@, "\n"@, " "@)),
    {
        StreamEvent::end(Err(self.error))
    }
}

/// The request is at fault.
pub fn bad_request(error: String) -> (response: ErrorResponse)
    ensures
        response.status == 400,
        response.error == error,
{
    ErrorResponse { status: 400, error }
}

/// The server is at fault.
pub fn internal_error(error: String) -> (response: ErrorResponse)
    ensures
        response.status == 500,
        response.error == error,
{
    ErrorResponse { status: 500, error }
}

/// The answer to a request that was served.
#[derive(Debug)]
pub struct TranscribeResponse {
    pub transcript: String,
    pub source: String,
    pub language: String,
    pub requested_model: &'static str,
    pub runtime_model: &'static str,
    pub device: &'static str,
    pub compute_type: &'static str,
    pub target_sample_rate: u32,
    pub source_sample_rate: Option<u32>,
    pub channels: Option<u16>,
    pub codec: String,
    pub duration: Option<Duration>,
}

impl TranscribeResponse {
    pub fn from_result(
        source: String,
        language: String,
        model_choice: ModelChoice,
        execution: &ExecutionMode,
        result: RestTranscriptionResult,
    ) -> (response: Self)
        ensures
            response.transcript == result.transcript,
            response.source == source,
            response.language == language,
            response.requested_model@ == model_choice.cli_name_text(),
            response.runtime_model@ == model_choice.runtime_name_text(),
            response.device@ == (if execution@.use_gpu {
                "cuda"@
            } else {
                "cpu"@
            }),
            response.compute_type@ == execution@.compute_type.label_text(),
            response.target_sample_rate == result.audio_metadata.target_sample_rate,
            response.source_sample_rate == result.audio_metadata.source_sample_rate,
            response.channels == result.audio_metadata.channels,
            response.codec == result.audio_metadata.codec,
            response.duration == result.audio_metadata.duration,
    {
        TranscribeResponse {
            transcript: result.transcript,
            source,
            language,
            requested_model: model_choice.cli_name(),
            runtime_model: model_choice.runtime_name(),
            device: execution.device_label(),
            compute_type: execution.compute_type_label(),
            target_sample_rate: result.audio_metadata.target_sample_rate,
            source_sample_rate: result.audio_metadata.source_sample_rate,
            channels: result.audio_metadata.channels,
            codec: result.audio_metadata.codec,
            duration: result.audio_metadata.duration,
        }
    }
}

/// The endpoints that the server tells of.
pub fn api_endpoints() -> (endpoints: [&'static str; 4])
    ensures
        endpoints@[0]@ == "GET /health"@,
        endpoints@[1]@ == "POST /v1/transcribe"@,
        endpoints@[2]@ == "POST /v1/transcribe/stream"@,
        endpoints@[3]@ == "POST /v1/live/transcribe"@,
{
    ["GET /health", "POST /v1/transcribe", "POST /v1/transcribe/stream", "POST /v1/live/transcribe"]
}

// ---------------------------------------------------------------------------
// Events
// ---------------------------------------------------------------------------

/// What a streaming answer consists of.
#[derive(Debug)]
pub struct StreamEvent {
    pub name: &'static str,
    pub data: String,
}

impl StreamEvent {
    pub open spec fn reads(self, name: Seq<char>, data: Seq<char>) -> bool {
        self.name@ == name && self.data@ == data
    }

    /// Work begins.
    pub fn ready(media: &str, live: bool) -> (event: Self)
        ensures
            event.reads(
                "ready"@,
                if live {
                    "starting live transcription for "@ + media@
                } else {
                    "starting stream transcription for "@ + media@
                },
            ),
    {
        StreamEvent {
            name: "ready",
            data: if live {
                concat2("starting live transcription for ", media)
            } else {
                concat2("starting stream transcription for ", media)
            },
        }
    }

    /// How work goes.
    pub fn status(text: String) -> (event: Self)
        ensures
            event.reads("status"@, text@),
    {
        StreamEvent { name: "status", data: text }
    }

    /// A piece of the transcript.
    pub fn chunk(text: &str) -> (event: Self)
        ensures
            event.reads("chunk"@, text@),
    {
        StreamEvent { name: "chunk", data: text.to_string() }
    }

    /// The end: all is done, or what went wrong, on one line.
    pub fn end(outcome: Result<(), String>) -> (event: Self)
        ensures
            match outcome {
                Ok(()) => event.reads("done"@, "complete"@),
                Err(error) => event.reads("error"@, replaced(error@, "\n"@, " "@)),
            },
    {
        match outcome {
            Ok(()) => StreamEvent { name: "done", data: "complete".to_string() },
            Err(error) => StreamEvent {
                name: "error",
                data: replace_text(error.as_str(), "\n", " "),
            },
        }
    }
}

/// A stage of the work that a streaming answer tells of.
#[derive(Clone, Copy, Debug, PartialEq, Eq, Structural)]
pub enum StreamStage {
    ResolvingModel,
    PreparingMedia,
    MediaReady,
}

impl StreamStage {
    pub fn text(self) -> (text: &'static str)
        ensures
            text@ == match self {
                StreamStage::ResolvingModel => "resolving model"@,
                StreamStage::PreparingMedia => "preparing media"@,
                StreamStage::MediaReady => "media ready"@,
            },
    {
        match self {
            StreamStage::ResolvingModel => "resolving model",
            StreamStage::PreparingMedia => "preparing media",
            StreamStage::MediaReady => "media ready",
        }
    }
}

/// The events of one streaming answer.
pub struct StreamSession {
    media: String,
    live: bool,
    begun: bool,
    ended: bool,
    sent: Ghost<Seq<(Seq<char>, Seq<char>)>>,
}

/// What a streaming answer has come to.
#[verifier::ext_equal]
pub struct SessionView {
    pub media: Seq<char>,
    pub live: bool,
    pub begun: bool,
    pub ended: bool,
    /// The names and the data of the events that were sent.
    pub sent: Seq<(Seq<char>, Seq<char>)>,
}

impl View for StreamSession {
    type V = SessionView;

    closed spec fn view(&self) -> SessionView {
        SessionView {
            media: self.media@,
            live: self.live,
            begun: self.begun,
            ended: self.ended,
            sent: self.sent@,
        }
    }
}

pub open spec fn opens(name: Seq<char>) -> bool {
    name == "ready"@
}

pub open spec fn closes(name: Seq<char>) -> bool {
    name == "done"@ || name == "error"@
}

/// Progress or a piece of the transcript.
pub open spec fn goes_on(name: Seq<char>) -> bool {
    name == "status"@ || name == "chunk"@
}

/// The first event opens the answer.  Every other one is progress or text, but for
/// the last, which may close it.
pub open spec fn in_order(sent: Seq<(Seq<char>, Seq<char>)>) -> bool {
    &&& sent.len() > 0 ==> opens(sent[0].0)
    &&& forall|i: int| 0 < i < sent.len() - 1 ==> goes_on((#[trigger] sent[i]).0)
    &&& sent.len() > 1 ==> goes_on(sent.last().0) || closes(sent.last().0)
}

impl SessionView {
    pub open spec fn valid(self) -> bool {
        &&& in_order(self.sent)
        &&& self.begun == (self.sent.len() > 0)
        &&& self.ended == (self.sent.len() > 0 && closes(self.sent.last().0))
    }

    pub open spec fn with(self, name: Seq<char>, data: Seq<char>) -> SessionView {
        SessionView { sent: self.sent.push((name, data)), ..self }
    }
}

proof fn lemma_event_names()
    ensures
        opens("ready"@),
        !opens("status"@),
        !opens("chunk"@),
        !opens("done"@),
        !opens("error"@),
        !closes("ready"@),
        !closes("status"@),
        !closes("chunk"@),
        forall|name: Seq<char>|
            #[trigger] goes_on(name) ==> !opens(name) && !closes(name),
{
    reveal_strlit("ready");
    reveal_strlit("status");
    reveal_strlit("chunk");
    reveal_strlit("done");
    reveal_strlit("error");
    assert("ready"@[0] == 'r' && "status"@[0] == 's' && "chunk"@[0] == 'c' && "done"@[0] == 'd'
        && "error"@[0] == 'e');
}

impl StreamSession {
    pub fn new(media: &str, live: bool) -> (session: Self)
        ensures
            session@.valid(),
            session@ == (SessionView {
                media: media@,
                live,
                begun: false,
                ended: false,
                sent: Seq::<(Seq<char>, Seq<char>)>::empty(),
            }),
    {
        StreamSession {
            media: media.to_string(),
            live,
            begun: false,
            ended: false,
            sent: Ghost(Seq::<(Seq<char>, Seq<char>)>::empty()),
        }
    }

    /// The event that opens the answer.
    pub fn begin(&mut self) -> (event: StreamEvent)
        requires
            old(self)@.valid(),
            !old(self)@.begun,
        ensures
            final(self)@.valid(),
            event.reads(
                "ready"@,
                if old(self)@.live {
                    "starting live transcription for "@ + old(self)@.media
                } else {
                    "starting stream transcription for "@ + old(self)@.media
                },
            ),
            final(self)@ == (SessionView {
                begun: true,
                ..old(self)@.with(event.name@, event.data@)
            }),
    {
        let event = StreamEvent::ready(self.media.as_str(), self.live);
        self.begun = true;
        proof {
            lemma_event_names();
        }
        self.sent = Ghost(self.sent@.push((event.name@, event.data@)));
        event
    }

    /// The event for a piece of the transcript.
    pub fn on_chunk(&mut self, text: &str) -> (event: StreamEvent)
        requires
            old(self)@.valid(),
            old(self)@.begun,
            !old(self)@.ended,
        ensures
            final(self)@.valid(),
            event.reads("chunk"@, text@),
            final(self)@ == old(self)@.with("chunk"@, text@),
    {
        proof {
            lemma_event_names();
        }
        let event = StreamEvent::chunk(text);
        self.sent = Ghost(self.sent@.push((event.name@, event.data@)));
        event
    }

    /// The event for how work goes.
    pub fn on_status(&mut self, text: String) -> (event: StreamEvent)
        requires
            old(self)@.valid(),
            old(self)@.begun,
            !old(self)@.ended,
        ensures
            final(self)@.valid(),
            event.reads("status"@, text@),
            final(self)@ == old(self)@.with("status"@, text@),
    {
        proof {
            lemma_event_names();
        }
        let event = StreamEvent::status(text);
        self.sent = Ghost(self.sent@.push((event.name@, event.data@)));
        event
    }

    /// The event that closes the answer.
    pub fn end(&mut self, outcome: Result<(), String>) -> (event: StreamEvent)
        requires
            old(self)@.valid(),
            old(self)@.begun,
            !old(self)@.ended,
        ensures
            final(self)@.valid(),
            match outcome {
                Ok(()) => event.reads("done"@, "complete"@),
                Err(error) => event.reads("error"@, replaced(error@, "\n"@, " "@)),
            },
            final(self)@ == (SessionView {
                ended: true,
                ..old(self)@.with(event.name@, event.data@)
            }),
    {
        proof {
            lemma_event_names();
        }
        let event = StreamEvent::end(outcome);
        self.ended = true;
        self.sent = Ghost(self.sent@.push((event.name@, event.data@)));
        event
    }
}

/// A streaming answer that has ended opened with its first event and closed with
/// its last, and nothing but progress and text lay between.
pub proof fn law_answers_open_and_close_once(session: SessionView)
    requires
        session.valid(),
        session.ended,
    ensures
        session.sent.len() >= 2,
        session.sent[0].0 == "ready"@,
        session.sent.last().0 == "done"@ || session.sent.last().0 == "error"@,
        forall|i: int|
            0 < i < session.sent.len() - 1 ==> (#[trigger] session.sent[i]).0 == "status"@
                || session.sent[i].0 == "chunk"@,
        opens(session.sent[0].0),
        closes(session.sent.last().0),
        forall|i: int|
            0 < i < session.sent.len() - 1 ==> goes_on((#[trigger] session.sent[i]).0) && !opens(
                session.sent[i].0,
            ) && !closes(session.sent[i].0),
{
    lemma_event_names();
    assert(opens(session.sent[0].0));
    if session.sent.len() == 1 {
        assert(session.sent[0].0 == "ready"@);
    }
}

/// An answer that has not ended still takes progress and text, and only what is
/// named "done" or "error" ends one.
pub proof fn law_answers_end_by_name(session: SessionView)
    requires
        session.valid(),
        session.sent.len() > 0,
    ensures
        session.begun,
        session.ended <==> session.sent.last().0 == "done"@ || session.sent.last().0 == "error"@,
{
}

proof fn lemma_no_breaks(s: Seq<char>)
    ensures
        !replaced(s, "\n"@, " "@).contains('\n'),
        replaced(s, "\n"@, " "@).len() == s.len(),
    decreases s.len(),
{
    reveal_strlit("\n");
    reveal_strlit(" ");
    let out = replaced(s, "\n"@, " "@);
    if s.len() > 0 {
        if s[0] == '\n' {
            assert(s.take(1) =~= "\n"@);
            lemma_no_breaks(s.skip(1));
            let rest = replaced(s.skip(1), "\n"@, " "@);
            assert(out =~= " "@ + rest);
            assert forall|i: int| 0 <= i < out.len() implies out[i] != '\n' by {
                if i > 0 {
                    assert(rest.contains(rest[i - 1]));
                }
            }
        } else {
            assert(s.take(1)[0] != '\n');
            lemma_no_breaks(s.drop_first());
            let rest = replaced(s.drop_first(), "\n"@, " "@);
            assert(out =~= seq![s[0]] + rest);
            assert forall|i: int| 0 <= i < out.len() implies out[i] != '\n' by {
                if i > 0 {
                    assert(rest.contains(rest[i - 1]));
                }
            }
        }
    }
}

/// An error that ends a stream stands on one line and keeps its length.
pub proof fn law_errors_stand_on_one_line(error: Seq<char>)
    ensures
        !replaced(error, "\n"@, " "@).contains('\n'),
        replaced(error, "\n"@, " "@).len() == error.len(),
{
    lemma_no_breaks(error);
}

/// Whether a name reads as Russian or English, or says nothing.
pub open spec fn is_spoken(language: Option<String>) -> bool {
    match language {
        Some(name) => {
            let read = ascii_lowered(trimmed(name@));
            read.len() == 0 || read == "ru"@ || read == "en"@
        },
        None => true,
    }
}

/// A request gets what it asks for: the device that it names, or the first one,
/// where it asks for a device, and none where it does not; the precision that it
/// names; and the model of its language.  It is refused, as the fault of the
/// request, just where its language has no model, the build has no devices or the
/// number of the device is negative.
pub proof fn law_requests_get_what_they_ask_for(
    language: Option<String>,
    gpu: Option<bool>,
    gpu_device: Option<i32>,
    compute_type: Option<RestComputeType>,
    gpu_supported: bool,
    outcome: Result<AcceptedRequest, ErrorResponse>,
)
    requires
        is_acceptance(
            resolved_language(opt_text(language)),
            asked_execution(gpu, gpu_device, compute_type, gpu_supported),
            outcome,
        ),
    ensures
        outcome is Ok <==> is_spoken(language) && (gpu == Some(true) ==> gpu_supported && (
        gpu_device matches Some(device) ==> device >= 0)),
        outcome matches Err(error) ==> error.status == 400,
        outcome matches Ok(accepted) ==> {
            &&& gpu == Some(true) && gpu_device is Some ==> accepted.execution@.gpu_device
                == gpu_device
            &&& gpu == Some(true) && gpu_device is None ==> accepted.execution@.gpu_device == Some(
                0i32,
            )
            &&& gpu != Some(true) ==> accepted.execution@.gpu_device is None
            &&& accepted.execution@.use_gpu == (gpu == Some(true))
            &&& compute_type == Some(RestComputeType::Int8) ==> accepted.execution@.compute_type
                == ModelComputeType::Int8
            &&& compute_type == Some(RestComputeType::Float32) ==> accepted.execution@.compute_type
                == ModelComputeType::Float32
            &&& compute_type is None || compute_type == Some(RestComputeType::Auto) ==> {
                accepted.execution@.compute_type == if gpu == Some(true) {
                    ModelComputeType::Float32
                } else {
                    ModelComputeType::Int8
                }
            }
            &&& accepted.language@ == (if language is Some && ascii_lowered(trimmed(language->0@))
                == "en"@ {
                "en"@
            } else {
                "ru"@
            })
            &&& accepted.choice == (if accepted.language@ == "en"@ {
                ModelChoice::ParakeetTdt06bV2
            } else {
                ModelChoice::GigaamV3
            })
        },
{
    let named = if gpu_device is Some {
        gpu_device->0
    } else {
        0
    };
    let meant = if compute_type is Some {
        compute_type->0.meaning()
    } else {
        None
    };
    law_models_run_as_asked(gpu == Some(true), named, meant, gpu_supported);
    law_two_languages_are_spoken(opt_text(language));
    reveal_strlit("ru");
    reveal_strlit("en");
    assert("ru"@[0] == 'r' && "en"@[0] == 'e');
}

/// A refusal names the language that has no model or, where the language has one,
/// says what is wrong with the device.
pub proof fn law_refusals_say_why(
    language: Result<Seq<char>, Seq<char>>,
    execution: Result<ExecutionView, ExecutionError>,
    outcome: Result<AcceptedRequest, ErrorResponse>,
)
    requires
        is_acceptance(language, execution, outcome),
        outcome is Err,
    ensures
        outcome->Err_0.status == 400,
        language matches Err(name) ==> outcome->Err_0.error@ == "unsupported language `"@ + name
            + "`; currently supported values are `ru` and `en`"@,
        language is Ok ==> (execution matches Err(fault) && outcome->Err_0.error@ == fault.text()),
{
}

/// A mode is what was asked for, and an error why it was not to be had; an event is
/// its name and its data.
pub proof fn law_answers_are_what_was_asked(
    asked: Result<ExecutionView, ExecutionError>,
    outcome: Result<ExecutionMode, ExecutionError>,
    event: StreamEvent,
    name: Seq<char>,
    data: Seq<char>,
)
    requires
        is_execution(asked, outcome),
        event.reads(name, data),
    ensures
        outcome matches Ok(mode) ==> asked == Ok::<ExecutionView, ExecutionError>(mode@),
        outcome matches Err(error) ==> asked == Err::<ExecutionView, ExecutionError>(error),
        event.name@ == name,
        event.data@ == data,
{
}

} // verus!
