//! What the user is told.

use vstd::prelude::*;
use vstd::string::StringExecFns;

use crate::audio::AudioMetadata;
use crate::model::{ModelChoice, ModelConfig};
use crate::text::{
    all_digits, concat2, concat3, decimal, decimal_text, digits_value, is_digit, opt_str, opt_text,
    signed_decimal, signed_decimal_text, texts,
};

verus! {

// ---------------------------------------------------------------------------
// Lines
// ---------------------------------------------------------------------------

/// A line with a label, where there is a value; else none.
pub open spec fn line_if(label: Seq<char>, value: Option<Seq<char>>, unit: Seq<char>) -> Seq<
    Seq<char>,
> {
    match value {
        Some(value) => seq![label + value + unit],
        None => seq![],
    }
}

pub open spec fn pair_if(label: Seq<char>, value: Option<Seq<char>>) -> Seq<Seq<char>> {
    match value {
        Some(value) => seq![label + value],
        None => seq![],
    }
}

pub open spec fn opt_number(value: Option<u32>) -> Option<Seq<char>> {
    match value {
        Some(value) => Some(decimal(value as nat)),
        None => None,
    }
}

pub open spec fn opt_device(value: Option<i32>) -> Option<Seq<char>> {
    match value {
        Some(value) => Some(signed_decimal(value as int)),
        None => None,
    }
}

fn push_line(lines: &mut Vec<String>, label: &str, value: &str, unit: &str)
    ensures
        texts(final(lines)@) == texts(old(lines)@) + seq![label@ + value@ + unit@],
{
    let line = concat3(label, value, unit);
    lines.push(line);
    assert(texts(lines@) =~= texts(old(lines)@) + seq![label@ + value@ + unit@]);
}

fn push_pair(lines: &mut Vec<String>, label: &str, value: &str)
    ensures
        texts(final(lines)@) == texts(old(lines)@) + seq![label@ + value@],
{
    let line = concat2(label, value);
    lines.push(line);
    assert(texts(lines@) =~= texts(old(lines)@) + seq![label@ + value@]);
}

fn push_text(lines: &mut Vec<String>, line: &str)
    ensures
        texts(final(lines)@) == texts(old(lines)@) + seq![line@],
{
    lines.push(line.to_string());
    assert(texts(lines@) =~= texts(old(lines)@) + seq![line@]);
}

fn push_if(lines: &mut Vec<String>, label: &str, value: Option<&str>)
    ensures
        texts(final(lines)@) == texts(old(lines)@) + pair_if(label@, opt_str(value)),
{
    match value {
        Some(value) => {
            push_pair(lines, label, value);
        },
        None => {
            assert(texts(lines@) + seq![] =~= texts(lines@));
        },
    }
}

fn push_string_if(lines: &mut Vec<String>, label: &str, value: &Option<String>)
    ensures
        texts(final(lines)@) == texts(old(lines)@) + pair_if(label@, opt_text(*value)),
{
    match value {
        Some(value) => {
            push_pair(lines, label, value.as_str());
        },
        None => {
            assert(texts(lines@) + seq![] =~= texts(lines@));
        },
    }
}

fn push_number_if(lines: &mut Vec<String>, label: &str, value: Option<u32>)
    ensures
        texts(final(lines)@) == texts(old(lines)@) + pair_if(label@, opt_number(value)),
{
    match value {
        Some(value) => {
            push_pair(lines, label, decimal_text(value as u64).as_str());
        },
        None => {
            assert(texts(lines@) + seq![] =~= texts(lines@));
        },
    }
}

fn push_rate_if(lines: &mut Vec<String>, label: &str, rate: Option<u32>)
    ensures
        texts(final(lines)@) == texts(old(lines)@) + line_if(label@, opt_number(rate), " Hz"@),
{
    match rate {
        Some(rate) => {
            push_line(lines, label, decimal_text(rate as u64).as_str(), " Hz");
        },
        None => {
            assert(texts(lines@) + seq![] =~= texts(lines@));
        },
    }
}

fn push_device_if(lines: &mut Vec<String>, label: &str, device: Option<i32>)
    ensures
        texts(final(lines)@) == texts(old(lines)@) + pair_if(label@, opt_device(device)),
{
    match device {
        Some(device) => {
            push_pair(lines, label, signed_decimal_text(device as i64).as_str());
        },
        None => {
            assert(texts(lines@) + seq![] =~= texts(lines@));
        },
    }
}

// ---------------------------------------------------------------------------
// Audio parameters
// ---------------------------------------------------------------------------

/// Where the model runs, as the user is told.
pub struct Backend<'a> {
    pub name: &'a str,
    pub device_label: &'a str,
    pub compute_type_label: &'a str,
    pub gpu_device: Option<i32>,
}

impl<'a> Backend<'a> {
    pub open spec fn line(&self) -> Seq<char> {
        "backend: "@ + self.name@ + " / "@ + self.device_label@ + " ("@ + self.compute_type_label@
            + ")"@
    }

    pub open spec fn head(&self, source: Seq<char>) -> Seq<Seq<char>> {
        seq![""@, "Audio parameters"@, self.line()] + pair_if(
            "gpu id : "@,
            opt_device(self.gpu_device)) + seq!["source : "@ + source]
    }

    fn head_lines(&self, source: &str) -> (lines: Vec<String>)
        ensures
            texts(lines@) == self.head(source@),
    {
        let mut lines: Vec<String> = Vec::new();
        push_text(&mut lines, "");
        push_text(&mut lines, "Audio parameters");
        let mut backend = concat3("backend: ", self.name, " / ");
        backend.append(self.device_label);
        backend.append(" (");
        backend.append(self.compute_type_label);
        backend.append(")");
        push_text(&mut lines, backend.as_str());
        push_device_if(&mut lines, "gpu id : ", self.gpu_device);
        push_pair(&mut lines, "source : ", source);
        assert(texts(lines@) =~= self.head(source@));
        lines
    }
}

pub open spec fn live_audio_text(
    backend: Backend,
    source_url: Seq<char>,
    model_dir: Seq<char>,
    target_sample_rate: u32,
) -> Seq<Seq<char>> {
    backend.head(source_url) + seq![
        "length : live"@,
        "model rate : "@ + decimal(target_sample_rate as nat) + " Hz"@,
        "model path : "@ + model_dir,
        ""@,
    ]
}

/// What is told of a live stream.
pub fn live_audio_parameters(
    backend: &Backend,
    source_url: &str,
    model_dir: &str,
    target_sample_rate: u32,
) -> (lines: Vec<String>)
    ensures
        texts(lines@) == live_audio_text(*backend, source_url@, model_dir@, target_sample_rate),
{
    let mut lines = backend.head_lines(source_url);
    push_text(&mut lines, "length : live");
    push_line(
        &mut lines,
        "model rate : ",
        decimal_text(target_sample_rate as u64).as_str(),
        " Hz",
    );
    push_pair(&mut lines, "model path : ", model_dir);
    push_text(&mut lines, "");
    assert(texts(lines@) =~= live_audio_text(
        *backend,
        source_url@,
        model_dir@,
        target_sample_rate,
    ));
    lines
}

pub open spec fn live_raw_audio_text(
    backend: Backend,
    source_url: Seq<char>,
    model_dir: Seq<char>,
    source_sample_rate: u32,
    target_sample_rate: u32,
) -> Seq<Seq<char>> {
    backend.head(source_url) + seq![
        "length : live"@,
        "input rate : "@ + decimal(source_sample_rate as nat) + " Hz"@,
        "model rate : "@ + decimal(target_sample_rate as nat) + " Hz"@,
        "channels   : 1 -> mono"@,
        "codec      : raw F32Le"@,
        "model path : "@ + model_dir,
        ""@,
    ]
}

/// What is told of a live stream of bare samples.
pub fn live_raw_audio_parameters(
    backend: &Backend,
    source_url: &str,
    model_dir: &str,
    source_sample_rate: u32,
    target_sample_rate: u32,
) -> (lines: Vec<String>)
    ensures
        texts(lines@) == live_raw_audio_text(
            *backend,
            source_url@,
            model_dir@,
            source_sample_rate,
            target_sample_rate,
        ),
{
    let mut lines = backend.head_lines(source_url);
    push_text(&mut lines, "length : live");
    push_line(
        &mut lines,
        "input rate : ",
        decimal_text(source_sample_rate as u64).as_str(),
        " Hz",
    );
    push_line(
        &mut lines,
        "model rate : ",
        decimal_text(target_sample_rate as u64).as_str(),
        " Hz",
    );
    push_text(&mut lines, "channels   : 1 -> mono");
    push_text(&mut lines, "codec      : raw F32Le");
    push_pair(&mut lines, "model path : ", model_dir);
    push_text(&mut lines, "");
    assert(texts(lines@) =~= live_raw_audio_text(
        *backend,
        source_url@,
        model_dir@,
        source_sample_rate,
        target_sample_rate,
    ));
    lines
}

pub open spec fn opt_small(value: Option<u16>) -> Option<Seq<char>> {
    match value {
        Some(value) => Some(decimal(value as nat)),
        None => None,
    }
}

pub open spec fn audio_text(
    backend: Backend,
    source: Seq<char>,
    model_dir: Seq<char>,
    metadata: AudioMetadata,
    length: Option<Seq<char>>,
) -> Seq<Seq<char>> {
    backend.head(source) + pair_if("length : "@, length) + line_if(
        "input rate : "@,
        opt_number(metadata.source_sample_rate),
        " Hz"@,
    ) + seq!["model rate : "@ + decimal(metadata.target_sample_rate as nat) + " Hz"@] + line_if(
        "channels   : "@,
        opt_small(metadata.channels),
        " -> mono"@,
    ) + seq![
        "codec      : "@ + metadata.codec@,
        "model path : "@ + model_dir,
        ""@,
    ]
}

/// What is told of a recording whose length, where it is known, reads so.
pub fn audio_parameters(
    backend: &Backend,
    source: &str,
    model_dir: &str,
    metadata: &AudioMetadata,
    length: Option<&str>,
) -> (lines: Vec<String>)
    ensures
        texts(lines@) == audio_text(*backend, source@, model_dir@, *metadata, opt_str(length)),
{
    let mut lines = backend.head_lines(source);
    push_if(&mut lines, "length : ", length);
    push_rate_if(&mut lines, "input rate : ", metadata.source_sample_rate);
    push_line(
        &mut lines,
        "model rate : ",
        decimal_text(metadata.target_sample_rate as u64).as_str(),
        " Hz",
    );
    match metadata.channels {
        Some(channels) => {
            push_line(
                &mut lines,
                "channels   : ",
                decimal_text(channels as u64).as_str(),
                " -> mono",
            );
        },
        None => {
            assert(texts(lines@) + seq![] =~= texts(lines@));
        },
    }
    push_pair(&mut lines, "codec      : ", metadata.codec.as_str());
    push_pair(&mut lines, "model path : ", model_dir);
    push_text(&mut lines, "");
    assert(texts(lines@) =~= audio_text(
        *backend,
        source@,
        model_dir@,
        *metadata,
        opt_str(length),
    ));
    lines
}

// ---------------------------------------------------------------------------
// Model parameters
// ---------------------------------------------------------------------------

pub open spec fn opt_flag(value: Option<bool>) -> Option<Seq<char>> {
    match value {
        Some(value) => Some(
            if value {
                "true"@
            } else {
                "false"@
            },
        ),
        None => None,
    }
}

pub open spec fn model_head(
    choice: ModelChoice,
    backend: Backend,
    model_dir: Seq<char>,
    models_root: Seq<char>,
    language: Seq<char>,
) -> Seq<Seq<char>> {
    seq![
        ""@,
        "Model parameters"@,
        "  requested model : "@ + choice.cli_name_text(),
        "  runtime model   : "@ + choice.runtime_name_text(),
        "  repo            : "@ + choice.repo_id_text(),
        "  models root     : "@ + models_root,
        "  local path      : "@ + model_dir,
        "  device          : "@ + backend.device_label@,
        "  compute type    : "@ + backend.compute_type_label@,
        "  language        : "@ + language,
    ]
}

pub open spec fn model_text(
    choice: ModelChoice,
    backend: Backend,
    model_dir: Seq<char>,
    models_root: Seq<char>,
    language: Seq<char>,
    config: ModelConfig,
) -> Seq<Seq<char>> {
    let head = model_head(choice, backend, model_dir, models_root, language);
    let device = pair_if("  gpu device      : "@, opt_device(backend.gpu_device));
    let name = pair_if("  model name      : "@, opt_text(config.model_name));
    let class = pair_if("  model class     : "@, opt_text(config.model_class));
    let kind = pair_if("  model type      : "@, opt_text(config.model_type));
    let rate = line_if("  sample rate     : "@, opt_number(config.sample_rate), " Hz"@);
    let features = pair_if("  mel bins        : "@, opt_number(config.features));
    let window = pair_if("  win length      : "@, opt_number(config.win_length));
    let hop = pair_if("  hop length      : "@, opt_number(config.hop_length));
    let n_fft = pair_if("  n_fft           : "@, opt_number(config.n_fft));
    let center = pair_if("  center          : "@, opt_flag(config.center));
    let layers = pair_if("  encoder layers  : "@, opt_number(config.encoder_layers));
    let width = pair_if("  d_model         : "@, opt_number(config.d_model));
    let classes = pair_if("  num classes     : "@, opt_number(config.num_classes));
    let factor = pair_if("  subsampling     : "@, opt_number(config.subsampling_factor));
    head + device + name + class + kind + rate + features + window + hop + n_fft + center + layers
        + width + classes + factor
}

fn model_head_lines(
    choice: ModelChoice,
    backend: &Backend,
    model_dir: &str,
    models_root: &str,
    language: &str,
) -> (lines: Vec<String>)
    ensures
        texts(lines@) == model_head(choice, *backend, model_dir@, models_root@, language@),
{
    let mut lines: Vec<String> = Vec::new();
    push_text(&mut lines, "");
    push_text(&mut lines, "Model parameters");
    push_pair(&mut lines, "  requested model : ", choice.cli_name());
    push_pair(&mut lines, "  runtime model   : ", choice.runtime_name());
    push_pair(&mut lines, "  repo            : ", choice.repo_id());
    push_pair(&mut lines, "  models root     : ", models_root);
    push_pair(&mut lines, "  local path      : ", model_dir);
    push_pair(&mut lines, "  device          : ", backend.device_label);
    push_pair(&mut lines, "  compute type    : ", backend.compute_type_label);
    push_pair(&mut lines, "  language        : ", language);
    assert(texts(lines@) =~= model_head(choice, *backend, model_dir@, models_root@, language@));
    lines
}

/// What is told of a model.
pub fn model_parameters(
    choice: ModelChoice,
    backend: &Backend,
    model_dir: &str,
    models_root: &str,
    language: &str,
    config: &ModelConfig,
) -> (lines: Vec<String>)
    ensures
        texts(lines@) == model_text(
            choice,
            *backend,
            model_dir@,
            models_root@,
            language@,
            *config,
        ),
{
    let mut lines = model_head_lines(choice, backend, model_dir, models_root, language);
    push_device_if(&mut lines, "  gpu device      : ", backend.gpu_device);
    push_string_if(&mut lines, "  model name      : ", &config.model_name);
    push_string_if(&mut lines, "  model class     : ", &config.model_class);
    push_string_if(&mut lines, "  model type      : ", &config.model_type);
    push_rate_if(&mut lines, "  sample rate     : ", config.sample_rate);
    push_number_if(&mut lines, "  mel bins        : ", config.features);
    push_number_if(&mut lines, "  win length      : ", config.win_length);
    push_number_if(&mut lines, "  hop length      : ", config.hop_length);
    push_number_if(&mut lines, "  n_fft           : ", config.n_fft);
    match config.center {
        Some(center) => {
            push_pair(
                &mut lines,
                "  center          : ",
                if center {
                    "true"
                } else {
                    "false"
                });
        },
        None => {
            assert(texts(lines@) + seq![] =~= texts(lines@));
        },
    }
    push_number_if(&mut lines, "  encoder layers  : ", config.encoder_layers);
    push_number_if(&mut lines, "  d_model         : ", config.d_model);
    push_number_if(&mut lines, "  num classes     : ", config.num_classes);
    push_number_if(&mut lines, "  subsampling     : ", config.subsampling_factor);
    lines
}

// ---------------------------------------------------------------------------
// Lengths and rates
// ---------------------------------------------------------------------------

/// A number in decimal with at least two digits.
pub open spec fn two_digit_text(n: nat) -> Seq<char> {
    if n < 10 {
        "0"@ + decimal(n)
    } else {
        decimal(n)
    }
}

/// A number in decimal with at least three digits.
pub open spec fn three_digit_text(n: nat) -> Seq<char> {
    if n < 100 {
        "0"@ + two_digit_text(n)
    } else {
        decimal(n)
    }
}

fn two_digits(n: u64) -> (text: String)
    ensures
        text@ == two_digit_text(n as nat),
{
    if n < 10 {
        concat2("0", decimal_text(n).as_str())
    } else {
        decimal_text(n)
    }
}

fn three_digits(n: u64) -> (text: String)
    ensures
        text@ == three_digit_text(n as nat),
{
    if n < 100 {
        concat2("0", two_digits(n).as_str())
    } else {
        decimal_text(n)
    }
}

/// Minutes, seconds and thousandths.
pub open spec fn duration_text(total_millis: nat) -> Seq<char> {
    let seconds = total_millis / 1000;
    two_digit_text(seconds / 60) + ":"@ + two_digit_text(seconds % 60) + "."@
        + three_digit_text(total_millis % 1000)
}

pub fn format_duration(total_millis: u64) -> (text: String)
    ensures
        text@ == duration_text(total_millis as nat),
{
    let total_seconds: u64 = total_millis / 1000;
    let mut text = concat3(
        two_digits(total_seconds / 60).as_str(),
        ":",
        two_digits(total_seconds % 60).as_str(),
    );
    text.append(".");
    text.append(three_digits(total_millis % 1000).as_str());
    text
}

pub open spec fn live_status_text(metadata: Option<AudioMetadata>, seconds: Seq<char>) -> Seq<
    char,
> {
    let start = "live / "@ + seconds + "s buffered"@;
    match metadata {
        Some(metadata) => start + " / "@ + (match metadata.source_sample_rate {
            Some(rate) => decimal(rate as nat) + " Hz"@,
            None => "unknown rate"@,
        }) + " / "@ + (match metadata.channels {
            Some(channels) => decimal(channels as nat),
            None => "?"@,
        }) + " ch"@,
        None => start,
    }
}

/// How far a live stream has come, given how its seconds read.
pub fn format_live_status(metadata: Option<&AudioMetadata>, seconds: &str) -> (text: String)
    ensures
        text@ == live_status_text(
            match metadata {
                Some(metadata) => Some(*metadata),
                None => None,
            },
            seconds@,
        ),
{
    let mut text = concat3("live / ", seconds, "s buffered");
    match metadata {
        Some(metadata) => {
            text.append(" / ");
            let rate = match metadata.source_sample_rate {
                Some(rate) => concat2(decimal_text(rate as u64).as_str(), " Hz"),
                None => "unknown rate".to_string(),
            };
            text.append(rate.as_str());
            text.append(" / ");
            let channels = match metadata.channels {
                Some(channels) => decimal_text(channels as u64),
                None => "?".to_string(),
            };
            text.append(channels.as_str());
            text.append(" ch");
        },
        None => {},
    }
    text
}

/// How far a live stream of bare samples has come.
pub fn format_raw_live_status(seconds: &str) -> (text: String)
    ensures
        text@ == "live / "@ + seconds@ + "s buffered / raw f32le"@,
{
    concat3("live / ", seconds, "s buffered / raw f32le")
}

pub open spec fn backend_name_text(choice: ModelChoice) -> Seq<char> {
    match choice {
        ModelChoice::GigaamV3 => "GigaAM"@,
        ModelChoice::ParakeetTdt06bV2 => "Parakeet"@,
    }
}

/// The name that a model goes by in messages.
pub fn backend_name(choice: ModelChoice) -> (name: &'static str)
    ensures
        name@ == backend_name_text(choice),
{
    match choice {
        ModelChoice::GigaamV3 => "GigaAM",
        ModelChoice::ParakeetTdt06bV2 => "Parakeet",
    }
}

pub open spec fn rate_mismatch_text(choice: ModelChoice, audio_rate: u32, model_rate: usize) -> Seq<
    char,
> {
    "audio was resampled to "@ + decimal(audio_rate as nat) + " Hz but the "@ + backend_name_text(
        choice,
    ) + " model expects "@ + decimal(model_rate as nat) + " Hz"@
}

/// The samples must come at the rate of the model.
pub fn check_sampling_rate(choice: ModelChoice, audio_rate: u32, model_rate: usize) -> (outcome:
    Result<(), String>)
    ensures
        match outcome {
            Ok(()) => audio_rate == model_rate,
            Err(text) => audio_rate != model_rate && text@ == rate_mismatch_text(
                choice,
                audio_rate,
                model_rate,
            ),
        },
{
    if model_rate as u64 == audio_rate as u64 {
        return Ok(());
    }
    let mut text = concat3(
        "audio was resampled to ",
        decimal_text(audio_rate as u64).as_str(),
        " Hz but the ",
    );
    text.append(backend_name(choice));
    text.append(" model expects ");
    text.append(decimal_text(model_rate as u64).as_str());
    text.append(" Hz");
    Err(text)
}

// ---------------------------------------------------------------------------
// The server
// ---------------------------------------------------------------------------

pub open spec fn bind_address_text(port: u16) -> Seq<char> {
    "0.0.0.0:"@ + decimal(port as nat)
}

/// The address that the server listens on.
pub fn bind_address(port: u16) -> (text: String)
    ensures
        text@ == bind_address_text(port),
{
    concat2("0.0.0.0:", decimal_text(port as u64).as_str())
}

pub open spec fn server_text(port: u16, models_root: Seq<char>) -> Seq<Seq<char>> {
    seq![
        ""@,
        "REST server"@,
        "  listening on : http://"@ + bind_address_text(port),
        "  models root  : "@ + models_root,
        ""@,
    ]
}

/// What is told of the server.
pub fn server_parameters(port: u16, models_root: &str) -> (lines: Vec<String>)
    ensures
        texts(lines@) == server_text(port, models_root@),
{
    let mut lines: Vec<String> = Vec::new();
    push_text(&mut lines, "");
    push_text(&mut lines, "REST server");
    push_pair(&mut lines, "  listening on : http://", bind_address(port).as_str());
    push_pair(&mut lines, "  models root  : ", models_root);
    push_text(&mut lines, "");
    assert(texts(lines@) =~= server_text(port, models_root@));
    lines
}

proof fn lemma_digits(n: nat)
    ensures
        n < 10 ==> decimal(n).len() == 1,
        10 <= n < 100 ==> decimal(n).len() == 2,
        100 <= n < 1000 ==> decimal(n).len() == 3,
        n >= 10 ==> decimal(n).len() >= 2,
        digits_value(decimal(n)) == n,
        all_digits(decimal(n)),
    decreases n,
{
    if n >= 10 {
        lemma_digits(n / 10);
        let before = decimal(n / 10);
        assert(decimal(n).drop_last() =~= before);
        assert forall|i: int| 0 <= i < decimal(n).len() implies is_digit(#[trigger] decimal(n)[i]) by {
            if i < before.len() {
                assert(is_digit(before[i]));
            }
        }
    } else {
        assert(decimal(n).drop_last() =~= Seq::<char>::empty());
        assert(digits_value(decimal(n).drop_last()) == 0);
    }
}

proof fn lemma_leading_zero(s: Seq<char>)
    ensures
        digits_value(seq!['0'] + s) == digits_value(s),
    decreases s.len(),
{
    if s.len() == 0 {
        assert(seq!['0'] + s =~= seq!['0']);
        assert(seq!['0'].drop_last() =~= Seq::<char>::empty());
        assert(digits_value(seq!['0'].drop_last()) == 0);
    } else {
        lemma_leading_zero(s.drop_last());
        assert((seq!['0'] + s).drop_last() =~= seq!['0'] + s.drop_last());
    }
}

/// A length reads as minutes, two digits of seconds and three of thousandths, and
/// these are the length.
pub proof fn law_lengths_read_as_they_are(total_millis: nat)
    ensures
        exists|minutes: Seq<char>, seconds: Seq<char>, millis: Seq<char>| #[trigger]
            is_length(total_millis, minutes, seconds, millis) && duration_text(total_millis)
                == minutes + seq![':'] + seconds + seq!['.'] + millis,
{
    reveal_strlit(":");
    reveal_strlit(".");
    reveal_strlit("0");
    let total_seconds = total_millis / 1000;
    let minutes = two_digit_text(total_seconds / 60);
    let seconds = two_digit_text(total_seconds % 60);
    let millis = three_digit_text(total_millis % 1000);
    lemma_digits(total_seconds / 60);
    lemma_digits(total_seconds % 60);
    lemma_digits(total_millis % 1000);
    lemma_leading_zero(decimal(total_seconds / 60));
    lemma_leading_zero(decimal(total_seconds % 60));
    lemma_leading_zero(decimal(total_millis % 1000));
    lemma_leading_zero(two_digit_text(total_millis % 1000));
    assert("0"@ =~= seq!['0']);
    assert(":"@ =~= seq![':']);
    assert("."@ =~= seq!['.']);
    assert(is_length(total_millis, minutes, seconds, millis));
}

/// Minutes of at least two digits, seconds of two and thousandths of three, which
/// add up to a length.
pub open spec fn is_length(
    total_millis: nat,
    minutes: Seq<char>,
    seconds: Seq<char>,
    millis: Seq<char>,
) -> bool {
    &&& minutes.len() >= 2
    &&& seconds.len() == 2
    &&& millis.len() == 3
    &&& digits_value(seconds) < 60
    &&& digits_value(minutes) * 60_000 + digits_value(seconds) * 1000 + digits_value(millis)
        == total_millis
}

/// A value that is known is shown behind its label, numbers as they read; one that
/// is not known has no line.
pub proof fn law_known_values_have_a_line(label: Seq<char>, value: Seq<char>, unit: Seq<char>)
    ensures
        pair_if(label, Some(value)) == seq![label + value],
        pair_if(label, None).len() == 0,
        line_if(label, Some(value), unit) == seq![label + value + unit],
        line_if(label, None, unit).len() == 0,
        forall|n: u32| #[trigger] opt_number(Some(n)) == Some(decimal(n as nat)),
        forall|n: u16| #[trigger] opt_small(Some(n)) == Some(decimal(n as nat)),
        forall|n: i32| #[trigger] opt_device(Some(n)) == Some(signed_decimal(n as int)),
        opt_number(None) is None,
        opt_small(None) is None,
        opt_device(None) is None,
        opt_flag(Some(true)) == Some("true"@),
        opt_flag(Some(false)) == Some("false"@),
        opt_flag(None) is None,
{
}

/// What is told of a recording holds, in this order, where it is read and what is
/// known of its sound.
pub proof fn law_recordings_are_described(
    backend: Backend,
    source: Seq<char>,
    model_dir: Seq<char>,
    metadata: AudioMetadata,
    length: Option<Seq<char>>,
)
    ensures
        ({
            let lines = audio_text(backend, source, model_dir, metadata, length);
            let n = lines.len() as int;
            &&& n >= 8
            &&& lines[0].len() == 0
            &&& lines[1] == "Audio parameters"@
            &&& lines[2] == "backend: "@ + backend.name@ + " / "@ + backend.device_label@ + " ("@
                + backend.compute_type_label@ + ")"@
            &&& backend.gpu_device matches Some(device) ==> lines[3] == "gpu id : "@
                + signed_decimal(device as int) && lines[4] == "source : "@ + source
            &&& backend.gpu_device is None ==> lines[3] == "source : "@ + source
            &&& length matches Some(length) ==> lines.contains("length : "@ + length)
            &&& metadata.source_sample_rate matches Some(rate) ==> lines.contains(
                "input rate : "@ + decimal(rate as nat) + " Hz"@,
            )
            &&& lines.contains("model rate : "@ + decimal(metadata.target_sample_rate as nat)
                + " Hz"@)
            &&& metadata.channels matches Some(channels) ==> lines[n - 4] == "channels   : "@
                + decimal(channels as nat) + " -> mono"@
            &&& lines[n - 3] == "codec      : "@ + metadata.codec@
            &&& lines[n - 2] == "model path : "@ + model_dir
            &&& lines[n - 1].len() == 0
        }),
{
    reveal_strlit("");
    let lines = audio_text(backend, source, model_dir, metadata, length);
    let head = backend.head(source);
    let sized = head + pair_if("length : "@, length);
    let rated = sized + line_if("input rate : "@, opt_number(metadata.source_sample_rate), " Hz"@);
    if length is Some {
        assert(lines[head.len() as int] == "length : "@ + length->0);
    }
    if metadata.source_sample_rate is Some {
        assert(lines[sized.len() as int] == "input rate : "@ + decimal(
            metadata.source_sample_rate->0 as nat,
        ) + " Hz"@);
    }
    assert(lines[rated.len() as int] == "model rate : "@ + decimal(
        metadata.target_sample_rate as nat,
    ) + " Hz"@);
}

/// How far a live stream has come is told with what is known of its sound, and
/// with marks for what is not.
pub proof fn law_live_streams_are_described(metadata: AudioMetadata, seconds: Seq<char>)
    ensures
        ({
            let start = "live / "@ + seconds + "s buffered"@;
            let rate = match metadata.source_sample_rate {
                Some(rate) => decimal(rate as nat) + " Hz"@,
                None => "unknown rate"@,
            };
            let channels = match metadata.channels {
                Some(channels) => decimal(channels as nat),
                None => "?"@,
            };
            &&& live_status_text(None, seconds) == start
            &&& live_status_text(Some(metadata), seconds) == start + " / "@ + rate + " / "@
                + channels + " ch"@
        }),
{
}

spec fn goes_on(head: Seq<Seq<char>>, lines: Seq<Seq<char>>) -> bool {
    &&& head.len() <= lines.len()
    &&& lines.take(head.len() as int) == head
}

proof fn lemma_lines_stay(head: Seq<Seq<char>>, lines: Seq<Seq<char>>, more: Seq<Seq<char>>)
    requires
        goes_on(head, lines),
    ensures
        goes_on(head, lines + more),
        forall|line: Seq<char>| #[trigger]
            (lines + more).contains(line) == (lines.contains(line) || more.contains(line)),
        more.len() == 1 ==> more.contains(more[0]),
{
    let all = lines + more;
    assert(all.take(head.len() as int) =~= head) by {
        assert forall|i: int| 0 <= i < head.len() implies all[i] == head[i] by {
            assert(lines.take(head.len() as int)[i] == lines[i]);
        }
    }
    assert forall|line: Seq<char>| #[trigger] all.contains(line) == (lines.contains(line)
        || more.contains(line)) by {
        if lines.contains(line) {
            let i = choose|i: int| 0 <= i < lines.len() && lines[i] == line;
            assert(all[i] == line);
        }
        if more.contains(line) {
            let i = choose|i: int| 0 <= i < more.len() && more[i] == line;
            assert(all[lines.len() + i] == line);
        }
    }
}

proof fn lemma_all_lines_stay(
    head: Seq<Seq<char>>,
    device: Seq<Seq<char>>,
    name: Seq<Seq<char>>,
    class: Seq<Seq<char>>,
    kind: Seq<Seq<char>>,
    rate: Seq<Seq<char>>,
    features: Seq<Seq<char>>,
    window: Seq<Seq<char>>,
    hop: Seq<Seq<char>>,
    n_fft: Seq<Seq<char>>,
    center: Seq<Seq<char>>,
    layers: Seq<Seq<char>>,
    width: Seq<Seq<char>>,
    classes: Seq<Seq<char>>,
    factor: Seq<Seq<char>>,
)
    ensures
        ({
            let lines = head + device + name + class + kind + rate + features + window + hop + n_fft
                + center + layers + width + classes + factor;
            &&& goes_on(head, lines)
            &&& device.len() == 1 ==> lines.contains(device[0])
            &&& name.len() == 1 ==> lines.contains(name[0])
            &&& class.len() == 1 ==> lines.contains(class[0])
            &&& kind.len() == 1 ==> lines.contains(kind[0])
            &&& rate.len() == 1 ==> lines.contains(rate[0])
            &&& features.len() == 1 ==> lines.contains(features[0])
            &&& window.len() == 1 ==> lines.contains(window[0])
            &&& hop.len() == 1 ==> lines.contains(hop[0])
            &&& n_fft.len() == 1 ==> lines.contains(n_fft[0])
            &&& center.len() == 1 ==> lines.contains(center[0])
            &&& layers.len() == 1 ==> lines.contains(layers[0])
            &&& width.len() == 1 ==> lines.contains(width[0])
            &&& classes.len() == 1 ==> lines.contains(classes[0])
            &&& factor.len() == 1 ==> lines.contains(factor[0])
        }),
{
    assert(head.take(head.len() as int) =~= head);
    lemma_lines_stay(head, head, device);
    let to_device = head + device;
    lemma_lines_stay(head, to_device, name);
    let to_name = to_device + name;
    lemma_lines_stay(head, to_name, class);
    let to_class = to_name + class;
    lemma_lines_stay(head, to_class, kind);
    let to_kind = to_class + kind;
    lemma_lines_stay(head, to_kind, rate);
    let to_rate = to_kind + rate;
    lemma_lines_stay(head, to_rate, features);
    let to_features = to_rate + features;
    lemma_lines_stay(head, to_features, window);
    let to_window = to_features + window;
    lemma_lines_stay(head, to_window, hop);
    let to_hop = to_window + hop;
    lemma_lines_stay(head, to_hop, n_fft);
    let to_n_fft = to_hop + n_fft;
    lemma_lines_stay(head, to_n_fft, center);
    let to_center = to_n_fft + center;
    lemma_lines_stay(head, to_center, layers);
    let to_layers = to_center + layers;
    lemma_lines_stay(head, to_layers, width);
    let to_width = to_layers + width;
    lemma_lines_stay(head, to_width, classes);
    let to_classes = to_width + classes;
    lemma_lines_stay(head, to_classes, factor);
}

/// What is told of a model is which one it is and where it lies, and then the device
/// and whatever is known of its settings.
pub proof fn law_models_are_described(
    choice: ModelChoice,
    backend: Backend,
    model_dir: Seq<char>,
    models_root: Seq<char>,
    language: Seq<char>,
    config: ModelConfig,
)
    ensures
        ({
            let lines = model_text(choice, backend, model_dir, models_root, language, config);
            &&& lines.len() >= 10
            &&& lines.take(10) == seq![
                ""@,
                "Model parameters"@,
                "  requested model : "@ + choice.cli_name_text(),
                "  runtime model   : "@ + choice.runtime_name_text(),
                "  repo            : "@ + choice.repo_id_text(),
                "  models root     : "@ + models_root,
                "  local path      : "@ + model_dir,
                "  device          : "@ + backend.device_label@,
                "  compute type    : "@ + backend.compute_type_label@,
                "  language        : "@ + language,
            ]
            &&& backend.gpu_device matches Some(device) ==> lines.contains(
                "  gpu device      : "@ + signed_decimal(device as int),
            )
            &&& config.model_name matches Some(name) ==> lines.contains(
                "  model name      : "@ + name@,
            )
            &&& config.model_class matches Some(class) ==> lines.contains(
                "  model class     : "@ + class@,
            )
            &&& config.model_type matches Some(kind) ==> lines.contains(
                "  model type      : "@ + kind@,
            )
            &&& config.sample_rate matches Some(rate) ==> lines.contains(
                "  sample rate     : "@ + decimal(rate as nat) + " Hz"@,
            )
            &&& config.features matches Some(n) ==> lines.contains(
                "  mel bins        : "@ + decimal(n as nat),
            )
            &&& config.win_length matches Some(n) ==> lines.contains(
                "  win length      : "@ + decimal(n as nat),
            )
            &&& config.hop_length matches Some(n) ==> lines.contains(
                "  hop length      : "@ + decimal(n as nat),
            )
            &&& config.n_fft matches Some(n) ==> lines.contains(
                "  n_fft           : "@ + decimal(n as nat),
            )
            &&& config.encoder_layers matches Some(n) ==> lines.contains(
                "  encoder layers  : "@ + decimal(n as nat),
            )
            &&& config.d_model matches Some(n) ==> lines.contains(
                "  d_model         : "@ + decimal(n as nat),
            )
            &&& config.num_classes matches Some(n) ==> lines.contains(
                "  num classes     : "@ + decimal(n as nat),
            )
            &&& config.subsampling_factor matches Some(n) ==> lines.contains(
                "  subsampling     : "@ + decimal(n as nat),
            )
            &&& config.center is Some ==> lines.contains(
                "  center          : "@ + (if config.center->0 {
                    "true"@
                } else {
                    "false"@
                }),
            )
        }),
{
    let head = model_head(choice, backend, model_dir, models_root, language);
    let device = pair_if("  gpu device      : "@, opt_device(backend.gpu_device));
    let name = pair_if("  model name      : "@, opt_text(config.model_name));
    let class = pair_if("  model class     : "@, opt_text(config.model_class));
    let kind = pair_if("  model type      : "@, opt_text(config.model_type));
    let rate = line_if("  sample rate     : "@, opt_number(config.sample_rate), " Hz"@);
    let features = pair_if("  mel bins        : "@, opt_number(config.features));
    let window = pair_if("  win length      : "@, opt_number(config.win_length));
    let hop = pair_if("  hop length      : "@, opt_number(config.hop_length));
    let n_fft = pair_if("  n_fft           : "@, opt_number(config.n_fft));
    let center = pair_if("  center          : "@, opt_flag(config.center));
    let layers = pair_if("  encoder layers  : "@, opt_number(config.encoder_layers));
    let width = pair_if("  d_model         : "@, opt_number(config.d_model));
    let classes = pair_if("  num classes     : "@, opt_number(config.num_classes));
    let factor = pair_if("  subsampling     : "@, opt_number(config.subsampling_factor));
    lemma_all_lines_stay(
        head,
        device,
        name,
        class,
        kind,
        rate,
        features,
        window,
        hop,
        n_fft,
        center,
        layers,
        width,
        classes,
        factor,
    );
}

/// The server listens on all addresses at its port, and says so.
pub proof fn law_the_server_says_where_it_listens(port: u16, models_root: Seq<char>)
    ensures
        bind_address_text(port) == "0.0.0.0:"@ + decimal(port as nat),
        server_text(port, models_root)[2] == "  listening on : http://"@ + ("0.0.0.0:"@ + decimal(
            port as nat,
        )),
        server_text(port, models_root)[3] == "  models root  : "@ + models_root,
{
}

} // verus!
