//! The settings of the English model and what they make of a recording.

use vstd::prelude::*;

use crate::features::{count_frames, frames_in, FeaturePlan};
use crate::numbers::{max_int, min_int};
use crate::text::{concat3, decimal, decimal_text};

verus! {

/// The settings of the model, as its file gives them.
#[derive(Clone, Copy, Debug)]
pub struct RawParakeetConfig {
    pub features_size: Option<usize>,
    pub max_tokens_per_step: Option<usize>,
}

#[derive(Clone, Copy, Debug, PartialEq, Eq, Structural)]
pub struct ParakeetConfig {
    pub sample_rate: usize,
    pub n_mels: usize,
    pub win_length: usize,
    pub hop_length: usize,
    pub n_fft: usize,
    pub max_chunk_seconds: usize,
    pub max_tokens_per_step: usize,
}

#[derive(Clone, Copy, Debug, PartialEq, Eq, Structural)]
pub enum ParakeetError {
    FeatureSize { size: usize },
    ZeroSampleRate,
    InvalidPreprocessing,
}

impl ParakeetError {
    pub open spec fn text(self) -> Seq<char> {
        match self {
            ParakeetError::FeatureSize { size } => "unsupported Parakeet feature size "@ + decimal(
                size as nat,
            ) + "; expected 80 or 128"@,
            ParakeetError::ZeroSampleRate => "invalid Parakeet config: sample rate is zero"@,
            ParakeetError::InvalidPreprocessing => "invalid Parakeet preprocessing config"@,
        }
    }

    pub fn message(&self) -> (text: String)
        ensures
            text@ == self.text(),
    {
        match self {
            ParakeetError::FeatureSize { size } => concat3(
                "unsupported Parakeet feature size ",
                decimal_text(*size as u64).as_str(),
                "; expected 80 or 128",
            ),
            ParakeetError::ZeroSampleRate => {
                "invalid Parakeet config: sample rate is zero".to_string()
            },
            ParakeetError::InvalidPreprocessing => {
                "invalid Parakeet preprocessing config".to_string()
            },
        }
    }
}

/// The filter bank for so many features.
pub fn filterbank_name(n_mels: usize) -> (name: Result<&'static str, ParakeetError>)
    ensures
        match name {
            Ok(name) => n_mels == 80 && name@ == "nemo80.npy"@ || n_mels == 128 && name@
                == "nemo128.npy"@,
            Err(error) => n_mels != 80 && n_mels != 128 && error == (ParakeetError::FeatureSize {
                size: n_mels,
            }),
        },
{
    if n_mels == 80 {
        Ok("nemo80.npy")
    } else if n_mels == 128 {
        Ok("nemo128.npy")
    } else {
        Err(ParakeetError::FeatureSize { size: n_mels })
    }
}

/// The settings with defaults for what the file leaves open.
pub open spec fn parakeet_settings(raw: RawParakeetConfig) -> ParakeetConfig {
    ParakeetConfig {
        sample_rate: 16_000,
        n_mels: match raw.features_size {
            Some(size) => size,
            None => 80,
        },
        win_length: 400,
        hop_length: 160,
        n_fft: 512,
        max_chunk_seconds: 30,
        max_tokens_per_step: match raw.max_tokens_per_step {
            Some(count) => count,
            None => 10,
        },
    }
}

impl ParakeetConfig {
    pub fn from_raw(raw: RawParakeetConfig) -> (config: Result<Self, ParakeetError>)
        ensures
            ({
                let settings = parakeet_settings(raw);
                config == (if settings.n_mels == 80 || settings.n_mels == 128 {
                    Ok::<ParakeetConfig, ParakeetError>(settings)
                } else {
                    Err(ParakeetError::FeatureSize { size: settings.n_mels })
                })
            }),
    {
        let n_mels: usize = match raw.features_size {
            Some(size) => size,
            None => 80,
        };
        match filterbank_name(n_mels) {
            Ok(_) => {},
            Err(error) => {
                return Err(error);
            },
        }
        Ok(
            ParakeetConfig {
                sample_rate: 16_000,
                n_mels,
                win_length: 400,
                hop_length: 160,
                n_fft: 512,
                max_chunk_seconds: 30,
                max_tokens_per_step: match raw.max_tokens_per_step {
                    Some(count) => count,
                    None => 10,
                },
            },
        )
    }

    /// The samples of the longest chunk.
    pub fn max_chunk_samples(&self) -> (samples: usize)
        requires
            self.sample_rate * self.max_chunk_seconds <= usize::MAX,
        ensures
            samples == self.sample_rate * self.max_chunk_seconds,
    {
        assert(self.sample_rate * self.max_chunk_seconds >= 0) by (nonlinear_arith)
            requires
                self.sample_rate >= 0,
                self.max_chunk_seconds >= 0,
        ;
        self.sample_rate * self.max_chunk_seconds
    }

    /// Why no features can be extracted, if so.
    pub open spec fn fault(self) -> Option<ParakeetError> {
        if self.sample_rate == 0 {
            Some(ParakeetError::ZeroSampleRate)
        } else if self.n_mels == 0 || self.win_length == 0 || self.hop_length == 0 || self.n_fft
            == 0 {
            Some(ParakeetError::InvalidPreprocessing)
        } else {
            None
        }
    }

    /// The silence that goes before and after the samples.
    pub open spec fn padding(self) -> int {
        self.n_fft as int / 2
    }

    /// How many frames so many samples stand for: one to a hop, but at least one.
    pub open spec fn features_len(self, samples: int) -> int {
        max_int(samples / self.hop_length as int, 1)
    }

    pub fn pad_samples(&self) -> (pad: usize)
        ensures
            pad == self.padding(),
    {
        self.n_fft / 2
    }

    /// How to extract the features of so many samples, padded on both sides.
    pub fn feature_plan(&self, samples: usize) -> (plan: Result<FeaturePlan, ParakeetError>)
        requires
            self.fault() is None ==> samples + 2 * self.padding() <= usize::MAX,
        ensures
            match plan {
                Ok(plan) => {
                    &&& self.fault() is None
                    &&& plan.fits(samples + 2 * self.padding())
                    &&& plan.span == self.n_fft
                    &&& plan.hop == self.hop_length
                    &&& plan.size == self.n_fft
                    &&& plan.kinds == self.n_mels
                    &&& plan.valid_frames == min_int(
                        self.features_len(samples as int),
                        plan.frame_count as int,
                    )
                    &&& plan.length == plan.valid_frames as i64
                },
                Err(error) => self.fault() == Some(error),
            },
    {
        if self.sample_rate == 0 {
            return Err(ParakeetError::ZeroSampleRate);
        }
        if self.n_mels == 0 || self.win_length == 0 || self.hop_length == 0 || self.n_fft == 0 {
            return Err(ParakeetError::InvalidPreprocessing);
        }
        let pad = self.pad_samples();
        let padded_len = samples + pad + pad;
        let frame_count = count_frames(padded_len, self.n_fft, self.hop_length);
        let whole = samples / self.hop_length;
        let features_len: usize = if whole < 1 {
            1
        } else {
            whole
        };
        let valid_frames = if features_len < frame_count {
            features_len
        } else {
            frame_count
        };
        Ok(
            FeaturePlan {
                frame_count,
                span: self.n_fft,
                hop: self.hop_length,
                size: self.n_fft,
                kinds: self.n_mels,
                valid_frames,
                length: valid_frames as i64,
            },
        )
    }
}

/// With an even transform the frames are one more than the hops in the samples:
/// all frames that the model is told of carry features.
pub proof fn law_every_whole_hop_has_a_frame(config: ParakeetConfig, samples: int)
    requires
        config.fault() is None,
        config.n_fft % 2 == 0,
        samples > 0,
    ensures
        frames_in(samples + 2 * config.padding(), config.n_fft as int, config.hop_length as int)
            == samples / config.hop_length as int + 1,
        min_int(
            config.features_len(samples),
            frames_in(
                samples + 2 * config.padding(),
                config.n_fft as int,
                config.hop_length as int,
            ),
        ) == config.features_len(samples),
{
}

/// What the file says counts, and the rest is fixed: windows of 25 milliseconds
/// every 10 milliseconds at 16 kHz, and chunks of half a minute.
pub proof fn law_given_settings_count(raw: RawParakeetConfig)
    ensures
        ({
            let config = parakeet_settings(raw);
            &&& raw.features_size matches Some(size) ==> config.n_mels == size
            &&& raw.features_size is None ==> config.n_mels == 80
            &&& raw.max_tokens_per_step matches Some(count) ==> config.max_tokens_per_step == count
            &&& raw.max_tokens_per_step is None ==> config.max_tokens_per_step == 10
            &&& config.sample_rate == 16_000
            &&& config.win_length * 1000 == config.sample_rate * 25
            &&& config.hop_length * 1000 == config.sample_rate * 10
            &&& config.n_fft == 512
            &&& config.max_chunk_seconds == 30
        }),
{
}

/// The model is told of one frame for each whole hop, and of one where there is no
/// whole hop.
pub proof fn law_the_model_is_told_of_whole_hops(config: ParakeetConfig, samples: int)
    requires
        config.hop_length > 0,
        samples >= 0,
    ensures
        samples < config.hop_length ==> config.features_len(samples) == 1,
        samples >= config.hop_length ==> config.features_len(samples) * config.hop_length <= samples
            < config.features_len(samples) * config.hop_length + config.hop_length,
        2 * config.padding() <= config.n_fft <= 2 * config.padding() + 1,
{
    let hop = config.hop_length as int;
    let whole = samples / hop;
    assert(whole * hop <= samples < whole * hop + hop) by (nonlinear_arith)
        requires
            hop > 0,
            samples >= 0,
            whole == samples / hop,
    ;
    assert(samples >= hop ==> whole >= 1) by (nonlinear_arith)
        requires
            hop > 0,
            samples < whole * hop + hop,
    ;
    assert(samples < hop ==> whole <= 0) by (nonlinear_arith)
        requires
            hop > 0,
            whole * hop <= samples,
    ;
}

/// Features need a sample rate, sizes and a hop that are not zero; the first of
/// these that fails is told.
pub proof fn law_features_need_settings(config: ParakeetConfig)
    ensures
        config.sample_rate == 0 ==> config.fault() == Some(ParakeetError::ZeroSampleRate),
        config.sample_rate > 0 && (config.n_mels == 0 || config.win_length == 0
            || config.hop_length == 0 || config.n_fft == 0) ==> config.fault() == Some(
            ParakeetError::InvalidPreprocessing,
        ),
        config.sample_rate > 0 && config.n_mels > 0 && config.win_length > 0 && config.hop_length
            > 0 && config.n_fft > 0 ==> config.fault() is None,
{
}

} // verus!
