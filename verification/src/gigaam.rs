//! The settings of the Russian model and what they make of a recording.

use vstd::prelude::*;

use crate::features::{count_frames, frames_in, FeaturePlan};
use crate::numbers::{max_int, min_int};

verus! {

/// The settings of the model, as its file gives them.
#[derive(Clone, Copy, Debug)]
pub struct RawGigaAmConfig {
    pub sample_rate: Option<usize>,
    pub preprocessor: Option<RawPreprocessorConfig>,
    pub encoder: Option<RawEncoderConfig>,
}

#[derive(Clone, Copy, Debug)]
pub struct RawPreprocessorConfig {
    pub sample_rate: Option<usize>,
    pub features: Option<usize>,
    pub win_length: Option<usize>,
    pub hop_length: Option<usize>,
    pub n_fft: Option<usize>,
    pub center: Option<bool>,
}

#[derive(Clone, Copy, Debug)]
pub struct RawEncoderConfig {
    pub pos_emb_max_len: Option<usize>,
}

#[derive(Clone, Copy, Debug, PartialEq, Eq, Structural)]
pub struct GigaAmConfig {
    pub sample_rate: usize,
    pub n_mels: usize,
    pub win_length: usize,
    pub hop_length: usize,
    pub n_fft: usize,
    pub center: bool,
    pub max_input_frames: usize,
}

#[derive(Clone, Copy, Debug, PartialEq, Eq, Structural)]
pub enum GigaAmError {
    NoPreprocessor,
    NoEncoder,
    ZeroSampleRate,
    InvalidPreprocessing,
    Centered,
}

impl GigaAmError {
    pub open spec fn text(self) -> Seq<char> {
        match self {
            GigaAmError::NoPreprocessor =>
                "GigaAM config does not define a preprocessor section"@,
            GigaAmError::NoEncoder => "GigaAM config does not define an encoder section"@,
            GigaAmError::ZeroSampleRate => "invalid GigaAM config: sample rate is zero"@,
            GigaAmError::InvalidPreprocessing => "invalid GigaAM preprocessing config"@,
            GigaAmError::Centered =>
                "unsupported GigaAM config: center=true is not implemented"@,
        }
    }

    pub fn message(self) -> (text: &'static str)
        ensures
            text@ == self.text(),
    {
        match self {
            GigaAmError::NoPreprocessor => "GigaAM config does not define a preprocessor section",
            GigaAmError::NoEncoder => "GigaAM config does not define an encoder section",
            GigaAmError::ZeroSampleRate => "invalid GigaAM config: sample rate is zero",
            GigaAmError::InvalidPreprocessing => "invalid GigaAM preprocessing config",
            GigaAmError::Centered => "unsupported GigaAM config: center=true is not implemented",
        }
    }
}

pub open spec fn given_or(value: Option<usize>, other: usize) -> usize {
    match value {
        Some(value) => value,
        None => other,
    }
}

fn or_else(value: Option<usize>, other: usize) -> (result: usize)
    ensures
        result == given_or(value, other),
{
    match value {
        Some(value) => value,
        None => other,
    }
}

/// The settings with defaults for what the file leaves open.
pub open spec fn settings_of(
    raw: RawGigaAmConfig,
    section: RawPreprocessorConfig,
    encoder: RawEncoderConfig,
) -> GigaAmConfig {
    let rate = given_or(section.sample_rate, given_or(raw.sample_rate, 16_000));
    let n_fft = given_or(section.n_fft, given_or(section.win_length, 320));
    GigaAmConfig {
        sample_rate: rate,
        n_mels: given_or(section.features, 64),
        win_length: given_or(section.win_length, n_fft),
        hop_length: given_or(section.hop_length, (rate / 100) as usize),
        n_fft,
        center: match section.center {
            Some(center) => center,
            None => false,
        },
        max_input_frames: given_or(encoder.pos_emb_max_len, 5_000),
    }
}

/// A product, or the greatest number where the product does not fit.
pub open spec fn clipped_product(a: int, b: int) -> int {
    min_int(a * b, usize::MAX as int)
}

impl GigaAmConfig {
    pub fn from_raw(raw: RawGigaAmConfig) -> (config: Result<Self, GigaAmError>)
        ensures
            config == (match (raw.preprocessor, raw.encoder) {
                (None, _) => Err::<GigaAmConfig, GigaAmError>(GigaAmError::NoPreprocessor),
                (Some(_), None) => Err(GigaAmError::NoEncoder),
                (Some(section), Some(encoder)) => Ok(settings_of(raw, section, encoder)),
            }),
    {
        let section = match raw.preprocessor {
            Some(section) => section,
            None => {
                return Err(GigaAmError::NoPreprocessor);
            },
        };
        let encoder = match raw.encoder {
            Some(encoder) => encoder,
            None => {
                return Err(GigaAmError::NoEncoder);
            },
        };
        let rate = or_else(section.sample_rate, or_else(raw.sample_rate, 16_000));
        let n_fft = or_else(section.n_fft, or_else(section.win_length, 320));
        Ok(
            GigaAmConfig {
                sample_rate: rate,
                n_mels: or_else(section.features, 64),
                win_length: or_else(section.win_length, n_fft),
                hop_length: or_else(section.hop_length, rate / 100),
                n_fft,
                center: match section.center {
                    Some(center) => center,
                    None => false,
                },
                max_input_frames: or_else(encoder.pos_emb_max_len, 5_000),
            },
        )
    }

    /// The frames of a chunk: some fewer than the model has positions for, but no
    /// fewer than 512.
    pub open spec fn chunk_frames(self) -> int {
        max_int(self.max_input_frames - 64, 512)
    }

    pub open spec fn chunk_samples(self) -> int {
        self.win_length + clipped_product(self.hop_length as int, self.chunk_frames() - 1)
    }

    pub fn safe_chunk_frames(&self) -> (frames: usize)
        ensures
            frames == self.chunk_frames(),
    {
        if self.max_input_frames < 512 + 64 {
            512
        } else {
            self.max_input_frames - 64
        }
    }

    /// The samples of the longest chunk.
    pub fn max_chunk_samples(&self) -> (samples: usize)
        requires
            self.chunk_samples() <= usize::MAX,
        ensures
            samples == self.chunk_samples(),
    {
        let frames = self.safe_chunk_frames() - 1;
        assert(self.hop_length * frames >= 0) by (nonlinear_arith)
            requires
                self.hop_length >= 0,
                frames >= 0,
        ;
        let hops = match self.hop_length.checked_mul(frames) {
            Some(hops) => hops,
            None => usize::MAX,
        };
        self.win_length + hops
    }

    /// Why no features can be extracted, if so.
    pub open spec fn fault(self) -> Option<GigaAmError> {
        if self.sample_rate == 0 {
            Some(GigaAmError::ZeroSampleRate)
        } else if self.n_mels == 0 || self.win_length == 0 || self.hop_length == 0 || self.n_fft
            == 0 {
            Some(GigaAmError::InvalidPreprocessing)
        } else if self.center {
            Some(GigaAmError::Centered)
        } else {
            None
        }
    }

    /// How to extract the features of so many samples.
    pub fn feature_plan(&self, samples: usize) -> (plan: Result<FeaturePlan, GigaAmError>)
        ensures
            match plan {
                Ok(plan) => {
                    &&& self.fault() is None
                    &&& min_int(samples as int, self.win_length as int) <= self.n_fft
                        ==> plan.fits(samples as int)
                    &&& plan.frame_count == frames_in(
                        samples as int,
                        self.win_length as int,
                        self.hop_length as int,
                    )
                    &&& plan.span == self.win_length
                    &&& plan.hop == self.hop_length
                    &&& plan.size == self.n_fft
                    &&& plan.kinds == self.n_mels
                    &&& plan.valid_frames == plan.frame_count
                    &&& plan.length == plan.frame_count as i64
                },
                Err(error) => self.fault() == Some(error),
            },
    {
        if self.sample_rate == 0 {
            return Err(GigaAmError::ZeroSampleRate);
        }
        if self.n_mels == 0 || self.win_length == 0 || self.hop_length == 0 || self.n_fft == 0 {
            return Err(GigaAmError::InvalidPreprocessing);
        }
        if self.center {
            return Err(GigaAmError::Centered);
        }
        let frame_count = count_frames(samples, self.win_length, self.hop_length);
        Ok(
            FeaturePlan {
                frame_count,
                span: self.win_length,
                hop: self.hop_length,
                size: self.n_fft,
                kinds: self.n_mels,
                valid_frames: frame_count,
                length: frame_count as i64,
            },
        )
    }
}

/// What the file says counts; what it leaves open has a default, which for the
/// sizes of the windows follows from the others.
pub proof fn law_given_settings_count(
    raw: RawGigaAmConfig,
    section: RawPreprocessorConfig,
    encoder: RawEncoderConfig,
)
    ensures
        ({
            let config = settings_of(raw, section, encoder);
            &&& section.sample_rate matches Some(rate) ==> config.sample_rate == rate
            &&& section.sample_rate is None && raw.sample_rate is Some ==> config.sample_rate
                == raw.sample_rate->0
            &&& section.sample_rate is None && raw.sample_rate is None ==> config.sample_rate
                == 16_000
            &&& section.features matches Some(count) ==> config.n_mels == count
            &&& section.features is None ==> config.n_mels == 64
            &&& section.n_fft matches Some(size) ==> config.n_fft == size
            &&& section.n_fft is None && section.win_length is Some ==> config.n_fft
                == section.win_length->0
            &&& section.n_fft is None && section.win_length is None ==> config.n_fft == 320
            &&& section.win_length matches Some(length) ==> config.win_length == length
            &&& section.win_length is None ==> config.win_length == config.n_fft
            &&& section.hop_length matches Some(length) ==> config.hop_length == length
            &&& section.hop_length is None ==> config.hop_length * 100 <= config.sample_rate
                < config.hop_length * 100 + 100
            &&& config.center == (section.center == Some(true))
            &&& encoder.pos_emb_max_len matches Some(count) ==> config.max_input_frames == count
            &&& encoder.pos_emb_max_len is None ==> config.max_input_frames == 5_000
        }),
{
}

/// The longest chunk has as many frames as a chunk may have, and one more sample
/// than fills them would not add one: it stays 64 frames below what the model has
/// positions for, but is never shorter than 512 frames.
pub proof fn law_the_longest_chunk_has_its_frames(config: GigaAmConfig)
    requires
        config.win_length > 0,
        config.hop_length > 0,
        config.hop_length * (config.chunk_frames() - 1) <= usize::MAX,
    ensures
        frames_in(config.chunk_samples(), config.win_length as int, config.hop_length as int)
            == config.chunk_frames(),
        config.chunk_samples() == config.win_length + config.hop_length * (config.chunk_frames()
            - 1),
        config.max_input_frames >= 576 ==> config.chunk_frames() == config.max_input_frames - 64,
        config.max_input_frames < 576 ==> config.chunk_frames() == 512,
{
    let frames = config.chunk_frames() - 1;
    let hop = config.hop_length as int;
    assert(frames >= 511);
    assert(hop * frames > 0) by (nonlinear_arith)
        requires
            hop > 0,
            frames >= 511,
    ;
    assert(hop * frames / hop == frames) by (nonlinear_arith)
        requires
            hop > 0,
    ;
}

/// Features need a sample rate, sizes and a hop that are not zero, and windows that
/// are not centred; the first of these that fails is told.
pub proof fn law_features_need_settings(config: GigaAmConfig)
    ensures
        config.sample_rate == 0 ==> config.fault() == Some(GigaAmError::ZeroSampleRate),
        config.sample_rate > 0 && (config.n_mels == 0 || config.win_length == 0
            || config.hop_length == 0 || config.n_fft == 0) ==> config.fault() == Some(
            GigaAmError::InvalidPreprocessing,
        ),
        config.sample_rate > 0 && config.n_mels > 0 && config.win_length > 0 && config.hop_length
            > 0 && config.n_fft > 0 ==> config.fault() == (if config.center {
            Some(GigaAmError::Centered)
        } else {
            None
        }),
{
}

} // verus!
