//! Reading the sound track of a media file.
//!
//! The file is read packet by packet.  What to do with each packet, what is known
//! of the sound and what is said of a failure is decided here.

use std::path::Path;
use std::time::Duration;

use vstd::prelude::*;
use vstd::string::StringExecFns;

use crate::chunking::{chunk_ranges, chunks_of, SampleRange};
use crate::paths::path_extension;
use crate::text::{ascii_lowered, concat3};
use crate::video::{is_video_file, video_extensions};

verus! {

/// What is known of a recording.
#[derive(Debug, Clone)]
pub struct AudioMetadata {
    pub source_sample_rate: Option<u32>,
    pub target_sample_rate: u32,
    pub channels: Option<u16>,
    pub duration: Option<Duration>,
    pub codec: String,
}

// ---------------------------------------------------------------------------
// Failures
// ---------------------------------------------------------------------------

/// What can go wrong with a media file.
#[derive(Clone, Copy, Debug, PartialEq, Eq, Structural)]
pub enum MediaErrorKind {
    /// The file ends too early.
    UnexpectedEnd,
    Unsupported,
    Limit,
    Decode,
    ResetRequired,
    Other,
}

pub open spec fn probe_reason(kind: MediaErrorKind) -> Seq<char> {
    match kind {
        MediaErrorKind::UnexpectedEnd => "input appears incomplete or truncated"@,
        MediaErrorKind::Unsupported | MediaErrorKind::Limit | MediaErrorKind::Decode =>
            "unsupported or malformed media container"@,
        _ => "unsupported or malformed media input"@,
    }
}

pub open spec fn runtime_reason(kind: MediaErrorKind) -> Seq<char> {
    match kind {
        MediaErrorKind::UnexpectedEnd => "input appears incomplete or truncated"@,
        MediaErrorKind::Unsupported | MediaErrorKind::Limit =>
            "media format uses unsupported features"@,
        MediaErrorKind::Decode => "audio frames could not be decoded"@,
        MediaErrorKind::ResetRequired => "stream reset is required and is not supported"@,
        MediaErrorKind::Other => "media input could not be processed"@,
    }
}

pub open spec fn probe_failure(path: Seq<char>, kind: MediaErrorKind) -> Seq<char> {
    "failed to parse audio input `"@ + path + "`: "@ + probe_reason(kind)
}

pub open spec fn runtime_failure(
    path: Seq<char>,
    action: Seq<char>,
    kind: MediaErrorKind,
) -> Seq<char> {
    action + " in `"@ + path + "`: "@ + runtime_reason(kind)
}

/// What is said of a file that is no media file.
pub fn friendly_media_probe_error(path: &str, kind: MediaErrorKind) -> (text: String)
    ensures
        text@ == probe_failure(path@, kind),
{
    let reason = match kind {
        MediaErrorKind::UnexpectedEnd => "input appears incomplete or truncated",
        MediaErrorKind::Unsupported | MediaErrorKind::Limit | MediaErrorKind::Decode => {
            "unsupported or malformed media container"
        },
        _ => "unsupported or malformed media input",
    };
    let mut text = concat3("failed to parse audio input `", path, "`: ");
    text.append(reason);
    text
}

/// What is said of a media file that cannot be read to its end.
pub fn friendly_media_runtime_error(path: &str, action: &str, kind: MediaErrorKind) -> (text:
    String)
    ensures
        text@ == runtime_failure(path@, action@, kind),
{
    let reason = match kind {
        MediaErrorKind::UnexpectedEnd => "input appears incomplete or truncated",
        MediaErrorKind::Unsupported | MediaErrorKind::Limit => {
            "media format uses unsupported features"
        },
        MediaErrorKind::Decode => "audio frames could not be decoded",
        MediaErrorKind::ResetRequired => "stream reset is required and is not supported",
        MediaErrorKind::Other => "media input could not be processed",
    };
    let mut text = concat3(action, " in `", path);
    text.append("`: ");
    text.append(reason);
    text
}

// ---------------------------------------------------------------------------
// Tracks
// ---------------------------------------------------------------------------

pub open spec fn is_video_path(path: &Path) -> bool {
    match path_extension(path) {
        Some(extension) => video_extensions().contains(ascii_lowered(extension)),
        None => false,
    }
}

pub open spec fn no_track_failure(path: &Path, shown: Seq<char>) -> Seq<char> {
    (if is_video_path(path) {
        "failed to find a supported audio track in video input `"@
    } else {
        "failed to find a supported audio track in `"@
    }) + shown + "`: media input does not contain a decodable audio track"@
}

/// The first track that can be decoded, given which ones can; else what is said.
pub fn select_audio_track(path: &Path, shown_path: &str, supported: &[bool]) -> (track: Result<
    usize,
    String,
>)
    ensures
        match track {
            Ok(at) => at < supported@.len() && supported@[at as int] && forall|i: int|
                0 <= i < at ==> !supported@[i],
            Err(text) => text@ == no_track_failure(path, shown_path@) && forall|i: int|
                0 <= i < supported@.len() ==> !supported@[i],
        },
{
    for i in 0..supported.len()
        invariant
            forall|j: int| 0 <= j < i ==> !supported@[j],
    {
        if supported[i] {
            return Ok(i);
        }
    }
    let start = if is_video_file(path) {
        "failed to find a supported audio track in video input `"
    } else {
        "failed to find a supported audio track in `"
    };
    Err(concat3(start, shown_path, "`: media input does not contain a decodable audio track"))
}

// ---------------------------------------------------------------------------
// Packets
// ---------------------------------------------------------------------------

/// What to do with a packet.
#[derive(Clone, Copy, Debug, PartialEq, Eq, Structural)]
pub enum PacketStep {
    Decode,
    Skip,
    Finish,
}

/// The rate and the number of channels of decoded sound.
#[derive(Clone, Copy, Debug, PartialEq, Eq, Structural)]
pub struct SoundShape {
    pub rate: u32,
    pub channels: usize,
}

/// Reading one track of a file.
pub struct AudioInspection {
    shown_path: String,
    track_id: u32,
    sample_rate: Option<u32>,
    channels: Option<usize>,
}

#[verifier::ext_equal]
pub struct InspectionView {
    /// The path as it is shown to the user.
    pub path: Seq<char>,
    pub track: u32,
    pub rate: Option<u32>,
    pub channels: Option<usize>,
}

pub open spec fn filled<A>(known: Option<A>, found: A) -> A {
    match known {
        Some(known) => known,
        None => found,
    }
}

impl InspectionView {
    /// What a packet of some track, or the failure to read one, leads to.
    pub open spec fn packet_step(self, packet: Result<u32, MediaErrorKind>) -> Result<
        PacketStep,
        Seq<char>,
    > {
        match packet {
            Ok(track) => if track == self.track {
                Ok(PacketStep::Decode)
            } else {
                Ok(PacketStep::Skip)
            },
            Err(MediaErrorKind::UnexpectedEnd) => Ok(PacketStep::Finish),
            Err(MediaErrorKind::ResetRequired) => Err(
                "audio stream reset is required and is not supported"@,
            ),
            Err(kind) => Err(runtime_failure(self.path, "failed to read audio data"@, kind)),
        }
    }

    /// What is known after sound has been decoded: what the file said counts, and
    /// the first sound fills in what it left open.
    pub open spec fn with_sound(self, sound: SoundShape) -> InspectionView {
        InspectionView {
            rate: Some(filled(self.rate, sound.rate)),
            channels: Some(filled(self.channels, sound.channels)),
            ..self
        }
    }
}

impl View for AudioInspection {
    type V = InspectionView;

    closed spec fn view(&self) -> InspectionView {
        InspectionView {
            path: self.shown_path@,
            track: self.track_id,
            rate: self.sample_rate,
            channels: self.channels,
        }
    }
}

/// What a file that was read to its end amounts to.
#[derive(Clone, Copy, Debug)]
pub struct InspectedSound {
    pub source_sample_rate: u32,
    /// The frames and the rate that the length comes from.
    pub length: Option<(u64, u32)>,
    /// Whether the samples have to be brought to another rate.
    pub needs_resampling: bool,
}

impl AudioInspection {
    /// Starts on a track of which the file says this much.
    pub fn new(
        shown_path: &str,
        track_id: u32,
        sample_rate: Option<u32>,
        channels: Option<usize>,
    ) -> (inspection: Self)
        ensures
            inspection@ == (InspectionView {
                path: shown_path@,
                track: track_id,
                rate: sample_rate,
                channels,
            }),
    {
        AudioInspection { shown_path: shown_path.to_string(), track_id, sample_rate, channels }
    }

    /// What to do with the next packet, or with the failure to read one.
    pub fn on_packet(&self, packet: Result<u32, MediaErrorKind>) -> (step: Result<
        PacketStep,
        String,
    >)
        ensures
            match step {
                Ok(step) => self@.packet_step(packet) == Ok::<PacketStep, Seq<char>>(step),
                Err(text) => self@.packet_step(packet) == Err::<PacketStep, Seq<char>>(text@),
            },
    {
        match packet {
            Ok(track) => if track == self.track_id {
                Ok(PacketStep::Decode)
            } else {
                Ok(PacketStep::Skip)
            },
            Err(kind) => match kind {
                MediaErrorKind::UnexpectedEnd => Ok(PacketStep::Finish),
                MediaErrorKind::ResetRequired => Err(
                    "audio stream reset is required and is not supported".to_string(),
                ),
                other => Err(
                    friendly_media_runtime_error(
                        self.shown_path.as_str(),
                        "failed to read audio data",
                        other,
                    ),
                ),
            },
        }
    }

    /// Takes note of decoded sound and gives the number of channels that it is
    /// read with.  A packet that cannot be decoded is passed over.
    pub fn on_decoded(&mut self, decoded: Result<SoundShape, MediaErrorKind>) -> (channels: Result<
        Option<usize>,
        String,
    >)
        ensures
            match channels {
                Ok(Some(channels)) => {
                    &&& decoded is Ok
                    &&& final(self)@ == old(self)@.with_sound(decoded->Ok_0)
                    &&& final(self)@.channels == Some(channels)
                },
                Ok(None) => {
                    &&& decoded == Err::<SoundShape, MediaErrorKind>(MediaErrorKind::Decode)
                    &&& final(self)@ == old(self)@
                },
                Err(text) => {
                    &&& decoded is Err
                    &&& decoded->Err_0 != MediaErrorKind::Decode
                    &&& final(self)@ == old(self)@
                    &&& text@ == runtime_failure(
                        old(self)@.path,
                        "failed to decode audio data"@,
                        decoded->Err_0,
                    )
                },
            },
    {
        let sound = match decoded {
            Ok(sound) => sound,
            Err(kind) => match kind {
                MediaErrorKind::Decode => {
                    return Ok(None);
                },
                other => {
                    return Err(
                        friendly_media_runtime_error(
                            self.shown_path.as_str(),
                            "failed to decode audio data",
                            other,
                        ),
                    );
                },
            },
        };
        if self.sample_rate.is_none() {
            self.sample_rate = Some(sound.rate);
        }
        let channels = match self.channels {
            Some(channels) => channels,
            None => {
                self.channels = Some(sound.channels);
                sound.channels
            },
        };
        Ok(Some(channels))
    }

    /// The end of the file.
    pub fn finish(&self, frames: Option<u64>, target_sample_rate: u32) -> (sound: Result<
        InspectedSound,
        &'static str,
    >)
        ensures
            match sound {
                Ok(sound) => self@.rate is Some && sound == (InspectedSound {
                    source_sample_rate: self@.rate->0,
                    length: match frames {
                        Some(frames) => Some((frames, self@.rate->0)),
                        None => None,
                    },
                    needs_resampling: self@.rate->0 != target_sample_rate,
                }),
                Err(text) => self@.rate is None && text@
                    == "audio stream does not expose a sample rate"@,
            },
    {
        match self.sample_rate {
            Some(rate) => Ok(
                InspectedSound {
                    source_sample_rate: rate,
                    length: match frames {
                        Some(frames) => Some((frames, rate)),
                        None => None,
                    },
                    needs_resampling: rate != target_sample_rate,
                },
            ),
            None => Err("audio stream does not expose a sample rate"),
        }
    }

    /// What is known of the recording in the end.
    pub fn extract_metadata(
        &self,
        codec: String,
        duration: Option<Duration>,
        source_sample_rate: u32,
        target_sample_rate: u32,
    ) -> (metadata: AudioMetadata)
        ensures
            metadata == (AudioMetadata {
                source_sample_rate: Some(source_sample_rate),
                target_sample_rate,
                channels: match self@.channels {
                    Some(channels) => Some(channels as u16),
                    None => None,
                },
                duration,
                codec,
            }),
    {
        AudioMetadata {
            source_sample_rate: Some(source_sample_rate),
            target_sample_rate,
            channels: match self.channels {
                Some(channels) => Some(channels as u16),
                None => None,
            },
            duration,
            codec,
        }
    }
}

/// The rate and the number of channels do not change once they are known.
pub proof fn law_known_sound_stays(inspection: InspectionView, sound: SoundShape)
    ensures
        inspection.rate is Some ==> inspection.with_sound(sound).rate == inspection.rate,
        inspection.channels is Some ==> inspection.with_sound(sound).channels
            == inspection.channels,
        inspection.with_sound(sound).rate is Some,
        inspection.with_sound(sound).channels is Some,
        forall|next: SoundShape| #[trigger]
            inspection.with_sound(sound).with_sound(next) == inspection.with_sound(sound),
{
}

/// The moments of sound with several channels: one sample of each channel, in
/// order.
pub fn sound_moments(samples: usize, channels: usize) -> (moments: Vec<SampleRange>)
    requires
        channels > 0,
    ensures
        moments@ == (if samples == 0 {
            seq![]
        } else {
            chunks_of(samples as int, channels as int)
        }),
{
    if samples == 0 {
        let moments: Vec<SampleRange> = Vec::new();
        assert(moments@ =~= seq![]);
        moments
    } else {
        chunk_ranges(samples, channels)
    }
}

/// Packets of the chosen track are decoded and all others passed over; a file that
/// ends is finished; every other failure is told, with the file that it is about.
pub proof fn law_packets_of_the_track_are_decoded(
    inspection: InspectionView,
    packet: Result<u32, MediaErrorKind>,
)
    ensures
        ({
            let step = inspection.packet_step(packet);
            &&& packet matches Ok(track) ==> {
                &&& track == inspection.track ==> step == Ok::<PacketStep, Seq<char>>(
                    PacketStep::Decode,
                )
                &&& track != inspection.track ==> step == Ok::<PacketStep, Seq<char>>(
                    PacketStep::Skip,
                )
            }
            &&& packet == Err::<u32, MediaErrorKind>(MediaErrorKind::UnexpectedEnd) ==> step == Ok::<
                PacketStep,
                Seq<char>,
            >(PacketStep::Finish)
            &&& packet is Err && packet->Err_0 != MediaErrorKind::UnexpectedEnd ==> step is Err
            &&& packet is Err && packet->Err_0 != MediaErrorKind::UnexpectedEnd && packet->Err_0
                != MediaErrorKind::ResetRequired ==> step->Err_0 == "failed to read audio data"@
                + " in `"@ + inspection.path + "`: "@ + runtime_reason(packet->Err_0)
        }),
{
}

/// The first sound fills in what the file left open, and nothing else.
pub proof fn law_the_first_sound_fills_in(inspection: InspectionView, sound: SoundShape)
    ensures
        inspection.rate is None ==> inspection.with_sound(sound).rate == Some(sound.rate),
        inspection.channels is None ==> inspection.with_sound(sound).channels == Some(
            sound.channels,
        ),
        inspection.with_sound(sound).path == inspection.path,
        inspection.with_sound(sound).track == inspection.track,
{
}

/// A path is one of a video where its ending is that of a video container,
/// whatever its case; a failure to find sound says which it is.
pub proof fn law_videos_are_named_as_such(path: &Path, shown: Seq<char>)
    ensures
        path_extension(path) is None ==> !is_video_path(path),
        path_extension(path) matches Some(extension) ==> is_video_path(path)
            == video_extensions().contains(ascii_lowered(extension)),
        is_video_path(path) ==> no_track_failure(path, shown)
            == "failed to find a supported audio track in video input `"@ + shown
            + "`: media input does not contain a decodable audio track"@,
        !is_video_path(path) ==> no_track_failure(path, shown)
            == "failed to find a supported audio track in `"@ + shown
            + "`: media input does not contain a decodable audio track"@,
{
}

/// A file that ends too early is said to be incomplete, whenever that is found;
/// all failures name the file.
pub proof fn law_incomplete_files_are_said_to_be(
    path: Seq<char>,
    action: Seq<char>,
    kind: MediaErrorKind,
)
    ensures
        probe_failure(path, kind) == "failed to parse audio input `"@ + path + "`: "@
            + probe_reason(kind),
        runtime_failure(path, action, kind) == action + " in `"@ + path + "`: "@ + runtime_reason(
            kind,
        ),
        kind == MediaErrorKind::UnexpectedEnd ==> probe_reason(kind)
            == "input appears incomplete or truncated"@ && runtime_reason(kind)
            == "input appears incomplete or truncated"@,
{
}

} // verus!
