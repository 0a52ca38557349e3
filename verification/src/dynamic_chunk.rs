//! Speech segments of a live stream.
//!
//! The stream is cut into frames.  Whether a frame sounds like speech is decided
//! outside; [`DynamicChunkEngine`] turns the frames and those verdicts into
//! segments: a segment begins after a run of speech frames, together with a
//! little of what came before it, and ends in a run of silence or when it has
//! grown too long.

use std::collections::VecDeque;

use vstd::prelude::*;

use crate::numbers::{max_int, min_int};

verus! {

pub const DEFAULT_FRAME_MS: usize = 30;

pub const DEFAULT_PRE_ROLL_MS: usize = 240;

pub const DEFAULT_MIN_SPEECH_MS: usize = 180;

pub const DEFAULT_MAX_SILENCE_MS: usize = 420;

pub const DEFAULT_MIN_SEGMENT_MS: usize = 240;

pub const DEFAULT_CONTINUATION_MS: usize = 400;

pub const LIVE_MAX_SEGMENT_SECONDS: usize = 6;

pub const LIVE_MAX_SILENCE_MS: usize = 720;

pub const LIVE_CONTINUATION_MS: usize = 900;

/// The lengths that rule how segments are cut.
#[derive(Clone, Copy, Debug, PartialEq, Eq, Structural)]
pub struct DynamicChunkConfig {
    pub frame_samples: usize,
    pub pre_roll_samples: usize,
    pub min_speech_frames: usize,
    pub max_silence_frames: usize,
    pub min_segment_samples: usize,
    pub max_segment_samples: usize,
    pub continuation_samples: usize,
}

#[derive(Clone, Copy, Debug, PartialEq, Eq, Structural)]
pub enum DynamicChunkError {
    ZeroSampleRate,
    ZeroModelWindow,
}

impl DynamicChunkError {
    pub fn message(self) -> (text: &'static str)
        ensures
            text@ == match self {
                DynamicChunkError::ZeroSampleRate =>
                    "dynamic chunk sample rate must be greater than zero"@,
                DynamicChunkError::ZeroModelWindow =>
                    "dynamic chunk model window size must be greater than zero"@,
            },
    {
        match self {
            DynamicChunkError::ZeroSampleRate => {
                "dynamic chunk sample rate must be greater than zero"
            },
            DynamicChunkError::ZeroModelWindow => {
                "dynamic chunk model window size must be greater than zero"
            },
        }
    }
}

fn at_least_one(n: usize) -> (m: usize)
    ensures
        m == max_int(n as int, 1),
{
    if n >= 1 {
        n
    } else {
        1
    }
}

fn smaller(a: usize, b: usize) -> (m: usize)
    ensures
        m == min_int(a as int, b as int),
{
    if a <= b {
        a
    } else {
        b
    }
}

impl DynamicChunkConfig {
    pub open spec fn with_limits(
        sample_rate: int,
        window: int,
        max_segment_seconds: int,
    ) -> DynamicChunkConfig {
        let max_segment = min_int(sample_rate * max_segment_seconds, window);
        DynamicChunkConfig {
            frame_samples: max_int(sample_rate * DEFAULT_FRAME_MS / 1000, 1) as usize,
            pre_roll_samples: (sample_rate * DEFAULT_PRE_ROLL_MS / 1000) as usize,
            min_speech_frames: DEFAULT_MIN_SPEECH_MS / DEFAULT_FRAME_MS,
            max_silence_frames: DEFAULT_MAX_SILENCE_MS / DEFAULT_FRAME_MS,
            min_segment_samples: (sample_rate * DEFAULT_MIN_SEGMENT_MS / 1000) as usize,
            max_segment_samples: max_segment as usize,
            continuation_samples: min_int(
                sample_rate * DEFAULT_CONTINUATION_MS / 1000,
                max_segment / 3,
            ) as usize,
        }
    }

    /// The limits for live audio.
    pub open spec fn for_live(sample_rate: int, window: int) -> DynamicChunkConfig {
        DynamicChunkConfig {
            max_silence_frames: LIVE_MAX_SILENCE_MS / DEFAULT_FRAME_MS,
            continuation_samples: min_int(
                sample_rate * LIVE_CONTINUATION_MS / 1000,
                min_int(sample_rate * LIVE_MAX_SEGMENT_SECONDS, window) / 2,
            ) as usize,
            ..DynamicChunkConfig::with_limits(
                sample_rate,
                window,
                LIVE_MAX_SEGMENT_SECONDS as int,
            )
        }
    }

    /// The configuration for live audio: segments of at most six seconds and one
    /// model window, ended by some 0.7 seconds of silence.
    pub fn for_live_stream(sample_rate: usize, model_window_samples: usize) -> (config: Result<
        Self,
        DynamicChunkError,
    >)
        requires
            model_window_samples > 0 ==> sample_rate * LIVE_CONTINUATION_MS <= usize::MAX,
        ensures
            sample_rate == 0 ==> config == Err::<Self, DynamicChunkError>(
                DynamicChunkError::ZeroSampleRate,
            ),
            sample_rate > 0 && model_window_samples == 0 ==> config == Err::<
                Self,
                DynamicChunkError,
            >(DynamicChunkError::ZeroModelWindow),
            sample_rate > 0 && model_window_samples > 0 ==> config == Ok::<Self, DynamicChunkError>(
                DynamicChunkConfig::for_live(sample_rate as int, model_window_samples as int),
            ),
    {
        match Self::new(sample_rate, model_window_samples, LIVE_MAX_SEGMENT_SECONDS) {
            Ok(limits) => {
                let mut config = limits;
                config.max_silence_frames = at_least_one(LIVE_MAX_SILENCE_MS / DEFAULT_FRAME_MS);
                config.continuation_samples = smaller(
                    sample_rate * LIVE_CONTINUATION_MS / 1000,
                    config.max_segment_samples / 2,
                );
                Ok(config)
            },
            Err(error) => Err(error),
        }
    }

    pub fn new(
        sample_rate: usize,
        model_window_samples: usize,
        max_segment_seconds: usize,
    ) -> (config: Result<Self, DynamicChunkError>)
        requires
            model_window_samples > 0 ==> sample_rate * DEFAULT_CONTINUATION_MS <= usize::MAX
                && sample_rate * max_segment_seconds <= usize::MAX,
        ensures
            sample_rate == 0 ==> config == Err::<Self, DynamicChunkError>(
                DynamicChunkError::ZeroSampleRate,
            ),
            sample_rate > 0 && model_window_samples == 0 ==> config == Err::<
                Self,
                DynamicChunkError,
            >(DynamicChunkError::ZeroModelWindow),
            sample_rate > 0 && model_window_samples > 0 ==> config == Ok::<Self, DynamicChunkError>(
                DynamicChunkConfig::with_limits(
                    sample_rate as int,
                    model_window_samples as int,
                    max_segment_seconds as int,
                ),
            ),
    {
        if sample_rate == 0 {
            return Err(DynamicChunkError::ZeroSampleRate);
        }
        if model_window_samples == 0 {
            return Err(DynamicChunkError::ZeroModelWindow);
        }
        assert(0 <= sample_rate * max_segment_seconds) by (nonlinear_arith);
        let frame_samples = at_least_one(sample_rate * DEFAULT_FRAME_MS / 1000);
        let pre_roll_samples: usize = sample_rate * DEFAULT_PRE_ROLL_MS / 1000;
        let min_speech_frames = at_least_one(DEFAULT_MIN_SPEECH_MS / DEFAULT_FRAME_MS);
        let max_silence_frames = at_least_one(DEFAULT_MAX_SILENCE_MS / DEFAULT_FRAME_MS);
        let min_segment_samples: usize = sample_rate * DEFAULT_MIN_SEGMENT_MS / 1000;
        let max_segment_samples = smaller(sample_rate * max_segment_seconds, model_window_samples);
        let continuation_samples = smaller(
            sample_rate * DEFAULT_CONTINUATION_MS / 1000,
            max_segment_samples / 3,
        );
        Ok(
            DynamicChunkConfig {
                frame_samples,
                pre_roll_samples,
                min_speech_frames,
                max_silence_frames,
                min_segment_samples,
                max_segment_samples,
                continuation_samples,
            },
        )
    }
}

/// The samples of a speech segment.
#[derive(Clone, Debug)]
pub struct DynamicChunk<T> {
    pub samples: Vec<T>,
}

pub open spec fn chunk_samples<T>(chunks: Seq<DynamicChunk<T>>) -> Seq<Seq<T>> {
    Seq::new(chunks.len(), |i: int| chunks[i].samples@)
}

pub open spec fn frame_samples<T>(frames: Seq<Vec<T>>) -> Seq<Seq<T>> {
    Seq::new(frames.len(), |i: int| frames[i]@)
}

/// Turns frames and verdicts into speech segments.
#[derive(Debug)]
pub struct DynamicChunkEngine<T> {
    config: DynamicChunkConfig,
    pending_samples: VecDeque<T>,
    pre_roll_samples: VecDeque<T>,
    active_segment: Vec<T>,
    in_speech: bool,
    speech_run_frames: usize,
    silence_run_frames: usize,
    processed_samples: usize,
    segment_start_sample: usize,
}

#[verifier::ext_equal]
pub struct DynamicChunkView<T> {
    pub config: DynamicChunkConfig,
    /// Samples that do not fill a frame yet.
    pub pending: Seq<T>,
    /// The last samples before speech.
    pub pre_roll: Seq<T>,
    /// The segment that is being gathered.
    pub segment: Seq<T>,
    pub in_speech: bool,
    pub speech_run: int,
    pub silence_run: int,
    pub processed: int,
    pub segment_start: int,
}

impl<T> View for DynamicChunkEngine<T> {
    type V = DynamicChunkView<T>;

    closed spec fn view(&self) -> DynamicChunkView<T> {
        DynamicChunkView {
            config: self.config,
            pending: self.pending_samples@,
            pre_roll: self.pre_roll_samples@,
            segment: self.active_segment@,
            in_speech: self.in_speech,
            speech_run: self.speech_run_frames as int,
            silence_run: self.silence_run_frames as int,
            processed: self.processed_samples as int,
            segment_start: self.segment_start_sample as int,
        }
    }
}

/// The last items of a sequence, at most `limit` of them.
pub open spec fn last_items<T>(s: Seq<T>, limit: int) -> Seq<T> {
    if s.len() > limit {
        s.skip(s.len() - limit)
    } else {
        s
    }
}

/// The whole frames at the start of `pending`.
pub open spec fn whole_frames<T>(pending: Seq<T>, frame: int) -> Seq<Seq<T>>
    decreases pending.len(),
{
    if 0 < frame <= pending.len() {
        seq![pending.take(frame)] + whole_frames(pending.skip(frame), frame)
    } else {
        seq![]
    }
}

/// What is left of `pending` behind its whole frames.
pub open spec fn frame_rest<T>(pending: Seq<T>, frame: int) -> Seq<T>
    decreases pending.len(),
{
    if 0 < frame <= pending.len() {
        frame_rest(pending.skip(frame), frame)
    } else {
        pending
    }
}

/// What a frame makes of the engine: its next state, the segments that end, and
/// whether the frame counts as background noise.
#[verifier::ext_equal]
pub struct FrameStep<T> {
    pub state: DynamicChunkView<T>,
    pub chunks: Seq<Seq<T>>,
    pub is_noise: bool,
}

impl<T> DynamicChunkView<T> {
    pub open spec fn initial(config: DynamicChunkConfig) -> DynamicChunkView<T> {
        DynamicChunkView {
            config,
            pending: seq![],
            pre_roll: seq![],
            segment: seq![],
            in_speech: false,
            speech_run: 0,
            silence_run: 0,
            processed: 0,
            segment_start: 0,
        }
    }

    /// Nothing is counted, or kept from before speech, that was not processed.
    pub open spec fn valid(self) -> bool {
        &&& 0 <= self.speech_run <= self.processed
        &&& 0 <= self.silence_run <= self.processed
        &&& 0 <= self.segment_start <= self.processed
        &&& self.pre_roll.len() <= self.processed
        &&& self.pre_roll.len() <= self.config.pre_roll_samples
    }

    /// The segment as a chunk, unless it is too short to be one.
    pub open spec fn segment_chunk(self) -> Seq<Seq<T>> {
        if self.segment.len() >= self.config.min_segment_samples {
            seq![self.segment]
        } else {
            seq![]
        }
    }

    pub open spec fn reset(self) -> DynamicChunkView<T> {
        DynamicChunkView {
            pre_roll: seq![],
            segment: seq![],
            in_speech: false,
            speech_run: 0,
            silence_run: 0,
            ..self
        }
    }

    /// A frame that comes while a segment is being gathered.
    pub open spec fn speech_step(self, frame: Seq<T>, is_speech: bool) -> FrameStep<T> {
        let grown = DynamicChunkView {
            segment: self.segment + frame,
            silence_run: if is_speech {
                0
            } else {
                self.silence_run + 1
            },
            processed: self.processed + frame.len(),
            ..self
        };
        if grown.segment.len() >= self.config.max_segment_samples {
            FrameStep {
                state: DynamicChunkView {
                    segment: seq![],
                    silence_run: if is_speech {
                        0
                    } else {
                        1
                    },
                    ..grown
                },
                chunks: grown.segment_chunk(),
                is_noise: false,
            }
        } else if grown.silence_run >= self.config.max_silence_frames {
            FrameStep { state: grown.reset(), chunks: grown.segment_chunk(), is_noise: true }
        } else {
            FrameStep { state: grown, chunks: seq![], is_noise: false }
        }
    }

    /// A frame that comes while no segment is being gathered.
    pub open spec fn quiet_step(self, frame: Seq<T>, is_speech: bool) -> FrameStep<T> {
        let heard = DynamicChunkView {
            pre_roll: last_items(self.pre_roll + frame, self.config.pre_roll_samples as int),
            processed: self.processed + frame.len(),
            speech_run: if is_speech {
                self.speech_run + 1
            } else {
                0
            },
            ..self
        };
        if is_speech && heard.speech_run >= self.config.min_speech_frames {
            FrameStep {
                state: DynamicChunkView {
                    in_speech: true,
                    silence_run: 0,
                    segment_start: heard.processed - heard.pre_roll.len(),
                    segment: heard.pre_roll,
                    pre_roll: seq![],
                    ..heard
                },
                chunks: seq![],
                is_noise: false,
            }
        } else {
            FrameStep { state: heard, chunks: seq![], is_noise: !is_speech }
        }
    }

    /// What a frame makes of the engine; `last` tells that no other follows.
    pub open spec fn step(self, frame: Seq<T>, is_speech: bool, last: bool) -> FrameStep<T> {
        if frame.len() == 0 {
            FrameStep { state: self, chunks: seq![], is_noise: false }
        } else if self.in_speech {
            let after = self.speech_step(frame, is_speech);
            if last && after.state.in_speech {
                FrameStep {
                    state: after.state.reset(),
                    chunks: after.chunks + after.state.segment_chunk(),
                    is_noise: after.is_noise,
                }
            } else {
                after
            }
        } else {
            let after = self.quiet_step(frame, is_speech);
            if last {
                FrameStep { state: DynamicChunkView { pre_roll: seq![], ..after.state }, ..after }
            } else {
                after
            }
        }
    }
}

impl<T: Copy> DynamicChunkEngine<T> {
    pub fn new(config: DynamicChunkConfig) -> (engine: Self)
        ensures
            engine@.valid(),
            engine@ == DynamicChunkView::<T>::initial(config),
    {
        let engine = DynamicChunkEngine {
            config,
            pending_samples: VecDeque::new(),
            pre_roll_samples: VecDeque::new(),
            active_segment: Vec::new(),
            in_speech: false,
            speech_run_frames: 0,
            silence_run_frames: 0,
            processed_samples: 0,
            segment_start_sample: 0,
        };
        assert(engine@ =~= DynamicChunkView::<T>::initial(config));
        engine
    }

    /// Whether a segment is being gathered.
    pub fn is_in_speech(&self) -> (yes: bool)
        ensures
            yes == self@.in_speech,
    {
        self.in_speech
    }

    /// Takes samples and gives the frames that they complete, to be judged and
    /// processed one after the other.
    pub fn push_audio(&mut self, samples: &[T]) -> (frames: Vec<Vec<T>>)
        requires
            old(self)@.config.frame_samples > 0,
        ensures
            frame_samples(frames@) == whole_frames(
                old(self)@.pending + samples@,
                old(self)@.config.frame_samples as int,
            ),
            final(self)@ == (DynamicChunkView {
                pending: frame_rest(
                    old(self)@.pending + samples@,
                    old(self)@.config.frame_samples as int,
                ),
                ..old(self)@
            }),
    {
        for i in 0..samples.len()
            invariant
                self@ == (DynamicChunkView {
                    pending: old(self)@.pending + samples@.take(i as int),
                    ..old(self)@
                }),
        {
            self.pending_samples.push_back(samples[i]);
            assert(self@.pending =~= old(self)@.pending + samples@.take(i + 1));
        }
        let ghost all = old(self)@.pending + samples@;
        let ghost size = old(self)@.config.frame_samples as int;
        proof {
            assert(self@.pending =~= all);
        }
        let mut frames: Vec<Vec<T>> = Vec::new();
        while self.pending_samples.len() >= self.config.frame_samples
            invariant
                size == old(self)@.config.frame_samples > 0,
                self@ == (DynamicChunkView { pending: self@.pending, ..old(self)@ }),
                frame_samples(frames@) + whole_frames(self@.pending, size) == whole_frames(
                    all,
                    size,
                ),
                frame_rest(self@.pending, size) == frame_rest(all, size),
            decreases self@.pending.len(),
        {
            let ghost before = self@.pending;
            let ghost taken = frames@;
            let frame = self.take_pending(self.config.frame_samples);
            frames.push(frame);
            proof {
                assert(frame_samples(frames@) =~= frame_samples(taken).push(before.take(size)));
                assert(whole_frames(before, size) =~= seq![before.take(size)] + whole_frames(
                    before.skip(size),
                    size,
                ));
                assert(frame_samples(frames@) + whole_frames(self@.pending, size)
                    =~= frame_samples(taken) + whole_frames(before, size));
            }
        }
        assert(frame_samples(frames@) + whole_frames(self@.pending, size) =~= frame_samples(
            frames@,
        ));
        frames
    }

    /// Takes the samples that do not fill a frame.
    pub fn take_remainder(&mut self) -> (frame: Vec<T>)
        ensures
            frame@ == old(self)@.pending,
            final(self)@ == (DynamicChunkView { pending: Seq::<T>::empty(), ..old(self)@ }),
    {
        let len = self.pending_samples.len();
        let frame = self.take_pending(len);
        assert(frame@ =~= old(self)@.pending);
        assert(self@.pending =~= Seq::<T>::empty());
        frame
    }

    fn take_pending(&mut self, len: usize) -> (frame: Vec<T>)
        requires
            len <= old(self)@.pending.len(),
        ensures
            frame@ == old(self)@.pending.take(len as int),
            final(self)@ == (DynamicChunkView {
                pending: old(self)@.pending.skip(len as int),
                ..old(self)@
            }),
    {
        let mut frame: Vec<T> = Vec::new();
        for i in 0..len
            invariant
                len <= old(self)@.pending.len(),
                frame@ == old(self)@.pending.take(i as int),
                self@ == (DynamicChunkView {
                    pending: old(self)@.pending.skip(i as int),
                    ..old(self)@
                }),
        {
            if let Some(sample) = self.pending_samples.pop_front() {
                frame.push(sample);
            }
            assert(frame@ =~= old(self)@.pending.take(i + 1));
            assert(self@.pending =~= old(self)@.pending.skip(i + 1));
        }
        frame
    }

    /// Takes a frame and its verdict, and adds the segments that end with it.
    /// Tells whether the frame counts as background noise.
    pub fn process_frame(
        &mut self,
        raw_frame: Vec<T>,
        is_speech: bool,
        finalize: bool,
        chunks: &mut Vec<DynamicChunk<T>>,
    ) -> (is_noise: bool)
        requires
            old(self)@.valid(),
            old(self)@.processed + raw_frame@.len() <= usize::MAX,
        ensures
            final(self)@.valid(),
            final(self)@ == old(self)@.step(raw_frame@, is_speech, finalize).state,
            chunk_samples(final(chunks)@) == chunk_samples(old(chunks)@) + old(self)@.step(
                raw_frame@,
                is_speech,
                finalize,
            ).chunks,
            is_noise == old(self)@.step(raw_frame@, is_speech, finalize).is_noise,
    {
        if raw_frame.len() == 0 {
            assert(chunk_samples(chunks@) + Seq::<Seq<T>>::empty() =~= chunk_samples(chunks@));
            return false;
        }
        let ghost start = self@;
        let ghost had = chunk_samples(chunks@);
        self.processed_samples = self.processed_samples + raw_frame.len();
        let mut is_noise = false;
        if self.in_speech {
            for i in 0..raw_frame.len()
                invariant
                    self@ == (DynamicChunkView {
                        segment: start.segment + raw_frame@.take(i as int),
                        processed: start.processed + raw_frame@.len(),
                        ..start
                    }),
            {
                self.active_segment.push(raw_frame[i]);
                assert(self@.segment =~= start.segment + raw_frame@.take(i + 1));
            }
            assert(raw_frame@.take(raw_frame@.len() as int) =~= raw_frame@);
            if is_speech {
                self.silence_run_frames = 0;
            } else {
                self.silence_run_frames = self.silence_run_frames + 1;
            }
            let ghost grown = self@;
            if self.active_segment.len() >= self.config.max_segment_samples {
                self.emit_segment(chunks);
                self.keep_continuation();
                self.silence_run_frames = if is_speech {
                    0
                } else {
                    1
                };
                self.in_speech = true;
            } else if self.silence_run_frames >= self.config.max_silence_frames {
                self.emit_segment(chunks);
                self.reset_detection_state();
                is_noise = true;
            }
            proof {
                assert(self@ =~= start.speech_step(raw_frame@, is_speech).state);
                assert(chunk_samples(chunks@) =~= had + start.speech_step(
                    raw_frame@,
                    is_speech,
                ).chunks);
            }
            if finalize && self.in_speech {
                self.emit_segment(chunks);
                self.reset_detection_state();
                assert(self@ =~= start.step(raw_frame@, is_speech, true).state);
                assert(chunk_samples(chunks@) =~= had + start.step(
                    raw_frame@,
                    is_speech,
                    true,
                ).chunks);
            }
            return is_noise;
        }
        self.push_pre_roll(raw_frame.as_slice());
        if is_speech {
            self.speech_run_frames = self.speech_run_frames + 1;
            if self.speech_run_frames >= self.config.min_speech_frames {
                self.in_speech = true;
                self.silence_run_frames = 0;
                self.segment_start_sample = self.processed_samples - self.pre_roll_samples.len();
                self.active_segment = self.take_pre_roll();
            }
        } else {
            self.speech_run_frames = 0;
            is_noise = true;
        }
        assert(self@ =~= start.quiet_step(raw_frame@, is_speech).state);
        if finalize {
            self.pre_roll_samples.clear();
        }
        assert(self@ =~= start.step(raw_frame@, is_speech, finalize).state);
        assert(had + Seq::<Seq<T>>::empty() =~= had);
        is_noise
    }

    /// Ends the stream: gives the segment that is being gathered, unless it is too
    /// short.  What waits for a whole frame is taken first, with `take_remainder`,
    /// and goes through `process_frame` as the last frame.
    pub fn finish_audio(&mut self) -> (chunks: Vec<DynamicChunk<T>>)
        requires
            old(self)@.pending.len() == 0,
        ensures
            chunk_samples(chunks@) == (if old(self)@.in_speech {
                old(self)@.segment_chunk()
            } else {
                Seq::<Seq<T>>::empty()
            }),
            final(self)@ == (if old(self)@.in_speech {
                DynamicChunkView { segment: Seq::<T>::empty(), ..old(self)@ }
            } else {
                old(self)@
            }),
    {
        let mut chunks: Vec<DynamicChunk<T>> = Vec::new();
        if self.in_speech {
            let ghost none = chunk_samples(chunks@);
            self.emit_segment(&mut chunks);
            assert(none + old(self)@.segment_chunk() =~= old(self)@.segment_chunk());
        }
        assert(!old(self)@.in_speech ==> chunk_samples(chunks@) =~= Seq::<Seq<T>>::empty());
        chunks
    }

    fn push_pre_roll(&mut self, frame: &[T])
        requires
            old(self)@.pre_roll.len() <= old(self)@.config.pre_roll_samples,
        ensures
            final(self)@ == (DynamicChunkView {
                pre_roll: last_items(
                    old(self)@.pre_roll + frame@,
                    old(self)@.config.pre_roll_samples as int,
                ),
                ..old(self)@
            }),
    {
        let limit = self.config.pre_roll_samples;
        for i in 0..frame.len()
            invariant
                limit == old(self)@.config.pre_roll_samples,
                self@ == (DynamicChunkView {
                    pre_roll: old(self)@.pre_roll + frame@.take(i as int),
                    ..old(self)@
                }),
        {
            self.pre_roll_samples.push_back(frame[i]);
            assert(self@.pre_roll =~= old(self)@.pre_roll + frame@.take(i + 1));
        }
        let ghost all = old(self)@.pre_roll + frame@;
        proof {
            assert(self@.pre_roll =~= all);
            assert(all.skip(0) =~= all);
        }
        while self.pre_roll_samples.len() > limit
            invariant
                limit == old(self)@.config.pre_roll_samples,
                self@ == (DynamicChunkView { pre_roll: self@.pre_roll, ..old(self)@ }),
                all.len() >= self@.pre_roll.len(),
                self@.pre_roll == all.skip(all.len() - self@.pre_roll.len()),
                all.len() <= limit ==> self@.pre_roll.len() == all.len(),
                all.len() > limit ==> self@.pre_roll.len() >= limit,
            decreases self@.pre_roll.len(),
        {
            let ghost before = self@.pre_roll;
            let _ = self.pre_roll_samples.pop_front();
            assert(self@.pre_roll =~= all.skip(all.len() - self@.pre_roll.len()));
        }
        assert(self@.pre_roll =~= last_items(all, limit as int));
    }

    fn take_pre_roll(&mut self) -> (samples: Vec<T>)
        ensures
            samples@ == old(self)@.pre_roll,
            final(self)@ == (DynamicChunkView { pre_roll: Seq::<T>::empty(), ..old(self)@ }),
    {
        let mut samples: Vec<T> = Vec::new();
        let len = self.pre_roll_samples.len();
        for i in 0..len
            invariant
                len == old(self)@.pre_roll.len(),
                *self == *old(self),
                samples@ == old(self)@.pre_roll.take(i as int),
        {
            samples.push(self.pre_roll_samples[i]);
            assert(samples@ =~= old(self)@.pre_roll.take(i + 1));
        }
        self.pre_roll_samples.clear();
        assert(samples@ =~= old(self)@.pre_roll);
        assert(self@.pre_roll =~= Seq::<T>::empty());
        samples
    }

    /// Takes the segment away, and adds it as a chunk unless it is too short.
    fn emit_segment(&mut self, chunks: &mut Vec<DynamicChunk<T>>)
        ensures
            chunk_samples(final(chunks)@) == chunk_samples(old(chunks)@) + old(self)@.segment_chunk(),
            final(self)@ == (DynamicChunkView { segment: Seq::<T>::empty(), ..old(self)@ }),
    {
        let ghost had = chunks@;
        let mut samples: Vec<T> = Vec::new();
        std::mem::swap(&mut self.active_segment, &mut samples);
        assert(self@ =~= (DynamicChunkView { segment: Seq::<T>::empty(), ..old(self)@ }));
        if samples.len() < self.config.min_segment_samples {
            assert(chunk_samples(chunks@) + Seq::<Seq<T>>::empty() =~= chunk_samples(chunks@));
            return;
        }
        chunks.push(DynamicChunk { samples });
        assert(chunk_samples(chunks@) =~= chunk_samples(had).push(samples@));
        assert(chunk_samples(chunks@) =~= chunk_samples(had) + seq![samples@]);
    }

    /// Keeps only the end of the segment for the next one.
    fn keep_continuation(&mut self)
        requires
            old(self)@.segment_start + old(self)@.segment.len() <= usize::MAX,
        ensures
            final(self)@ == (DynamicChunkView {
                segment: last_items(
                    old(self)@.segment,
                    old(self)@.config.continuation_samples as int,
                ),
                segment_start: old(self)@.segment_start + old(self)@.segment.len() - last_items(
                    old(self)@.segment,
                    old(self)@.config.continuation_samples as int,
                ).len(),
                ..old(self)@
            }),
    {
        let tail_len = smaller(self.config.continuation_samples, self.active_segment.len());
        let start = self.active_segment.len() - tail_len;
        self.segment_start_sample = self.segment_start_sample + start;
        let tail = self.active_segment.split_off(start);
        self.active_segment = tail;
        assert(self@.segment =~= last_items(
            old(self)@.segment,
            old(self)@.config.continuation_samples as int,
        ));
    }

    fn reset_detection_state(&mut self)
        ensures
            final(self)@ == old(self)@.reset(),
    {
        self.in_speech = false;
        self.speech_run_frames = 0;
        self.silence_run_frames = 0;
        self.active_segment.clear();
        self.pre_roll_samples.clear();
        assert(self@ =~= old(self)@.reset());
    }
}

// ---------------------------------------------------------------------------
// Counting
// ---------------------------------------------------------------------------

/// The signs of the samples that are loud enough: all but the zeros.
pub open spec fn loud_signs(signs: Seq<i8>) -> Seq<i8>
    decreases signs.len(),
{
    if signs.len() == 0 {
        seq![]
    } else if signs.last() == 0 {
        loud_signs(signs.drop_last())
    } else {
        loud_signs(signs.drop_last()).push(signs.last())
    }
}

/// How often a sequence changes from one item to the next.
pub open spec fn changes(items: Seq<i8>) -> nat
    decreases items.len(),
{
    if items.len() <= 1 {
        0
    } else {
        changes(items.drop_last()) + (if items.last() != items[items.len() - 2] {
            1nat
        } else {
            0nat
        })
    }
}

/// How many samples of a frame are loud enough, and how often their sign changes.
#[derive(Clone, Copy, Debug, PartialEq, Eq, Structural)]
pub struct SignCounts {
    pub active: usize,
    pub crossings: usize,
}

/// Counts the samples of a frame, given the sign of each: zero where it is not
/// loud enough.
pub fn count_signs(signs: &[i8]) -> (counts: SignCounts)
    ensures
        counts.active == loud_signs(signs@).len(),
        counts.crossings == changes(loud_signs(signs@)),
{
    let mut active: usize = 0;
    let mut crossings: usize = 0;
    let mut previous: i8 = 0;
    let len = signs.len();
    assert(loud_signs(signs@.take(0)) =~= seq![]);
    for i in 0..len
        invariant
            len == signs@.len(),
            active <= i,
            crossings <= i,
            active == loud_signs(signs@.take(i as int)).len(),
            crossings == changes(loud_signs(signs@.take(i as int))),
            active == 0 ==> previous == 0,
            active > 0 ==> previous == loud_signs(signs@.take(i as int)).last() && previous != 0,
    {
        let ghost before = loud_signs(signs@.take(i as int));
        assert(signs@.take(i + 1).drop_last() =~= signs@.take(i as int));
        let sign = signs[i];
        if sign != 0 {
            let ghost now = before.push(sign);
            assert(loud_signs(signs@.take(i + 1)) == now);
            assert(now.drop_last() =~= before);
            if previous != 0 && previous != sign {
                crossings = crossings + 1;
            }
            active = active + 1;
            previous = sign;
        }
    }
    assert(signs@.take(signs@.len() as int) =~= signs@);
    SignCounts { active, crossings }
}

proof fn lemma_changes(items: Seq<i8>)
    ensures
        items.len() > 0 ==> changes(items) < items.len(),
    decreases items.len(),
{
    if items.len() > 1 {
        lemma_changes(items.drop_last());
    }
}

proof fn lemma_loud(signs: Seq<i8>)
    ensures
        loud_signs(signs).len() <= signs.len(),
    decreases signs.len(),
{
    if signs.len() > 0 {
        lemma_loud(signs.drop_last());
    }
}

/// A sign changes only between two samples that are loud enough, and no more
/// samples are loud enough than there are.
pub proof fn law_crossings_lie_between_loud_samples(signs: Seq<i8>)
    ensures
        loud_signs(signs).len() <= signs.len(),
        loud_signs(signs).len() > 0 ==> changes(loud_signs(signs)) < loud_signs(signs).len(),
{
    lemma_loud(signs);
    lemma_changes(loud_signs(signs));
}

// ---------------------------------------------------------------------------
// Laws
// ---------------------------------------------------------------------------

/// Parts one after the other.
pub open spec fn flattened<T>(parts: Seq<Seq<T>>) -> Seq<T>
    decreases parts.len(),
{
    if parts.len() == 0 {
        seq![]
    } else {
        parts[0] + flattened(parts.drop_first())
    }
}

/// The frames of a stream are its samples in order: together with what is left
/// they are the stream, each has the length of a frame, and what is left is
/// shorter.
pub proof fn law_frames_are_the_stream<T>(stream: Seq<T>, frame: int)
    requires
        frame > 0,
    ensures
        flattened(whole_frames(stream, frame)) + frame_rest(stream, frame) == stream,
        forall|i: int|
            0 <= i < whole_frames(stream, frame).len() ==> (#[trigger] whole_frames(
                stream,
                frame,
            )[i]).len() == frame,
        frame_rest(stream, frame).len() < frame,
    decreases stream.len(),
{
    if frame <= stream.len() {
        let rest = stream.skip(frame);
        law_frames_are_the_stream(rest, frame);
        let frames = whole_frames(stream, frame);
        assert(frames.drop_first() =~= whole_frames(rest, frame));
        assert(stream.take(frame) + rest =~= stream);
        assert(flattened(frames) + frame_rest(stream, frame) =~= stream.take(frame) + (flattened(
            whole_frames(rest, frame),
        ) + frame_rest(rest, frame)));
        assert forall|i: int| 0 <= i < frames.len() implies (#[trigger] frames[i]).len()
            == frame by {
            if i > 0 {
                assert(frames[i] == whole_frames(rest, frame)[i - 1]);
            }
        }
    } else {
        assert(flattened(whole_frames(stream, frame)) + stream =~= stream);
    }
}

/// It does not matter how a stream is cut up before it is pushed: two pushes give
/// the frames that one push of both gives, and leave the same rest.
pub proof fn law_frames_add_up<T>(first: Seq<T>, second: Seq<T>, frame: int)
    requires
        frame > 0,
    ensures
        whole_frames(first + second, frame) == whole_frames(first, frame) + whole_frames(
            frame_rest(first, frame) + second,
            frame,
        ),
        frame_rest(first + second, frame) == frame_rest(
            frame_rest(first, frame) + second,
            frame,
        ),
    decreases first.len(),
{
    let both = first + second;
    if frame <= first.len() {
        law_frames_add_up(first.skip(frame), second, frame);
        assert(both.skip(frame) =~= first.skip(frame) + second);
        assert(both.take(frame) =~= first.take(frame));
        assert(whole_frames(both, frame) =~= whole_frames(first, frame) + whole_frames(
            frame_rest(first, frame) + second,
            frame,
        ));
    } else {
        assert(whole_frames(first, frame) + whole_frames(both, frame) =~= whole_frames(both, frame));
    }
}

/// No segment that comes out is too short.
pub proof fn law_chunks_are_long_enough<T>(
    engine: DynamicChunkView<T>,
    frame: Seq<T>,
    is_speech: bool,
    last: bool,
)
    ensures
        forall|i: int|
            0 <= i < engine.step(frame, is_speech, last).chunks.len() ==> (
            #[trigger] engine.step(frame, is_speech, last).chunks[i]).len()
                >= engine.config.min_segment_samples,
{
}

/// A frame inside a segment is never lost: the segment goes on with it, or ends
/// with it and comes out as it is, or was too short to come out.
pub proof fn law_segments_keep_their_frames<T>(
    engine: DynamicChunkView<T>,
    frame: Seq<T>,
    is_speech: bool,
)
    requires
        engine.in_speech,
        frame.len() > 0,
    ensures
        ({
            let after = engine.step(frame, is_speech, false);
            let grown = engine.segment + frame;
            ||| after.chunks.len() == 0 && after.state.in_speech && after.state.segment == grown
            ||| after.chunks == seq![grown] && after.state.segment.len() == 0
            ||| after.chunks.len() == 0 && after.state.segment.len() == 0 && grown.len()
                < engine.config.min_segment_samples
        }),
{
}

/// A segment that is gathered stays shorter than the longest that is allowed, so
/// long speech comes out in pieces.
pub proof fn law_segments_stay_below_the_limit<T>(
    engine: DynamicChunkView<T>,
    frame: Seq<T>,
    is_speech: bool,
    last: bool,
)
    requires
        engine.config.pre_roll_samples < engine.config.max_segment_samples,
        engine.segment.len() < engine.config.max_segment_samples,
    ensures
        engine.step(frame, is_speech, last).state.segment.len()
            < engine.config.max_segment_samples,
        engine.step(frame, is_speech, last).state.config == engine.config,
{
}

/// The engine after a run of frames with their verdicts.
pub open spec fn state_after<T>(
    engine: DynamicChunkView<T>,
    frames: Seq<Seq<T>>,
    verdicts: Seq<bool>,
) -> DynamicChunkView<T>
    decreases frames.len(),
{
    if frames.len() == 0 {
        engine
    } else {
        state_after(engine, frames.drop_last(), verdicts).step(
            frames.last(),
            verdicts[frames.len() - 1],
            false,
        ).state
    }
}

/// The segments that come out of a run of frames with their verdicts.
pub open spec fn chunks_after<T>(
    engine: DynamicChunkView<T>,
    frames: Seq<Seq<T>>,
    verdicts: Seq<bool>,
) -> Seq<Seq<T>>
    decreases frames.len(),
{
    if frames.len() == 0 {
        seq![]
    } else {
        chunks_after(engine, frames.drop_last(), verdicts) + state_after(
            engine,
            frames.drop_last(),
            verdicts,
        ).step(frames.last(), verdicts[frames.len() - 1], false).chunks
    }
}

/// Where the segments that come out of a run of frames lie in the stream: for
/// each of them the first sample, and the first one behind it.
pub open spec fn places_after<T>(
    engine: DynamicChunkView<T>,
    frames: Seq<Seq<T>>,
    verdicts: Seq<bool>,
) -> Seq<(int, int)>
    decreases frames.len(),
{
    if frames.len() == 0 {
        seq![]
    } else {
        let end = flattened(frames).len() as int;
        let chunks = state_after(engine, frames.drop_last(), verdicts).step(
            frames.last(),
            verdicts[frames.len() - 1],
            false,
        ).chunks;
        places_after(engine, frames.drop_last(), verdicts) + chunks.map_values(
            |chunk: Seq<T>| (end - chunk.len(), end),
        )
    }
}

/// Every segment that a fresh engine gives is an unbroken piece of the stream,
/// and the pieces follow each other: no sample comes out twice.
pub proof fn law_segments_are_pieces_of_the_stream<T>(
    config: DynamicChunkConfig,
    frames: Seq<Seq<T>>,
    verdicts: Seq<bool>,
)
    ensures
        ({
            let engine = DynamicChunkView::<T>::initial(config);
            let stream = flattened(frames);
            let chunks = chunks_after(engine, frames, verdicts);
            let places = places_after(engine, frames, verdicts);
            &&& places.len() == chunks.len()
            &&& forall|i: int|
                0 <= i < places.len() ==> {
                    let place = #[trigger] places[i];
                    &&& 0 <= place.0 <= place.1 <= stream.len()
                    &&& chunks[i] == stream.subrange(place.0, place.1)
                }
            &&& forall|i: int, j: int|
                0 <= i < j < places.len() ==> (#[trigger] places[i]).1 <= (
                #[trigger] places[j]).0
        }),
{
    lemma_pieces(config, frames, verdicts);
}

/// What an engine holds of the stream: the segment that is being gathered, or
/// what is kept in case speech begins.
spec fn held<T>(engine: DynamicChunkView<T>) -> Seq<T> {
    if engine.in_speech {
        engine.segment
    } else {
        engine.pre_roll
    }
}

/// Where the last of these pieces ends.
spec fn last_end(places: Seq<(int, int)>) -> int {
    if places.len() == 0 {
        0
    } else {
        places.last().1
    }
}

proof fn lemma_pieces<T>(
    config: DynamicChunkConfig,
    frames: Seq<Seq<T>>,
    verdicts: Seq<bool>,
)
    ensures
        ({
            let engine = DynamicChunkView::<T>::initial(config);
            let stream = flattened(frames);
            let state = state_after(engine, frames, verdicts);
            let chunks = chunks_after(engine, frames, verdicts);
            let places = places_after(engine, frames, verdicts);
            &&& places.len() == chunks.len()
            &&& forall|i: int|
                0 <= i < places.len() ==> {
                    let place = #[trigger] places[i];
                    &&& 0 <= place.0 <= place.1 <= last_end(places)
                    &&& chunks[i] == stream.subrange(place.0, place.1)
                }
            &&& forall|i: int, j: int|
                0 <= i < j < places.len() ==> (#[trigger] places[i]).1 <= (
                #[trigger] places[j]).0
            &&& 0 <= last_end(places)
            &&& last_end(places) + held(state).len() <= stream.len()
            &&& held(state) == stream.skip(stream.len() - held(state).len())
        }),
    decreases frames.len(),
{
    let engine = DynamicChunkView::<T>::initial(config);
    let stream = flattened(frames);
    if frames.len() == 0 {
        assert(held(engine) =~= stream.skip(0));
    } else {
        let before = frames.drop_last();
        let frame = frames.last();
        let is_speech = verdicts[frames.len() - 1];
        lemma_pieces(config, before, verdicts);
        lemma_flattened_push(frames);
        let earlier = flattened(before);
        let state = state_after(engine, before, verdicts);
        let chunks = chunks_after(engine, before, verdicts);
        let places = places_after(engine, before, verdicts);
        let after = state.step(frame, is_speech, false);
        assert forall|i: int| 0 <= i < places.len() implies {
            let place = #[trigger] places[i];
            chunks[i] == stream.subrange(place.0, place.1)
        } by {
            let place = places[i];
            assert(earlier.subrange(place.0, place.1) =~= stream.subrange(place.0, place.1));
        }
        let grown = held(state) + frame;
        assert(grown =~= stream.skip(stream.len() - grown.len()));
        assert(held(after.state) =~= stream.skip(stream.len() - held(after.state).len()));
        if after.chunks.len() > 0 {
            assert(after.chunks =~= seq![grown]);
            assert(grown =~= stream.subrange(stream.len() - grown.len(), stream.len() as int));
        }
    }
}

/// The segments that the end of a stream gives: what waits for a whole frame goes
/// through as the last frame, then the segment that is still open comes.
pub open spec fn end_chunks<T>(engine: DynamicChunkView<T>, is_speech: bool) -> Seq<Seq<T>> {
    let taken = DynamicChunkView { pending: Seq::<T>::empty(), ..engine };
    let after = taken.step(engine.pending, is_speech, true);
    if after.state.in_speech {
        after.chunks + after.state.segment_chunk()
    } else {
        after.chunks
    }
}

/// The end loses nothing of an open segment: with all that waits behind it, it
/// comes out, unless it is too short.
pub proof fn law_the_end_gives_the_open_segment<T>(
    engine: DynamicChunkView<T>,
    is_speech: bool,
)
    requires
        engine.in_speech,
    ensures
        flattened(end_chunks(engine, is_speech)) == (if engine.segment.len() + engine.pending.len()
            >= engine.config.min_segment_samples {
            engine.segment + engine.pending
        } else {
            Seq::<T>::empty()
        }),
{
    let grown = engine.segment + engine.pending;
    let chunks = end_chunks(engine, is_speech);
    assert(engine.pending.len() == 0 ==> grown =~= engine.segment);
    reveal_with_fuel(flattened, 3);
    if chunks.len() == 1 {
        assert(flattened(chunks.drop_first()) =~= Seq::<T>::empty());
        assert(flattened(chunks) =~= chunks[0]);
    } else if chunks.len() == 2 {
        let rest = chunks.drop_first();
        assert(flattened(rest.drop_first()) =~= Seq::<T>::empty());
        assert(flattened(rest) =~= chunks[1]);
        assert(flattened(chunks) =~= chunks[0] + chunks[1]);
    }
}

/// Silence is skipped: while no segment is being gathered, frames without speech
/// neither begin one nor give one.
pub proof fn law_silence_is_skipped<T>(
    engine: DynamicChunkView<T>,
    frames: Seq<Seq<T>>,
    verdicts: Seq<bool>,
)
    requires
        !engine.in_speech,
        forall|i: int| 0 <= i < frames.len() ==> !#[trigger] verdicts[i],
    ensures
        !state_after(engine, frames, verdicts).in_speech,
        chunks_after(engine, frames, verdicts).len() == 0,
    decreases frames.len(),
{
    if frames.len() > 0 {
        law_silence_is_skipped(engine, frames.drop_last(), verdicts);
        assert(!verdicts[frames.len() - 1]);
    }
}

/// Silence ends speech: after as many silent frames as the limit says, no
/// segment is being gathered, whatever its length was.
pub proof fn law_silence_ends_a_segment<T>(
    engine: DynamicChunkView<T>,
    frames: Seq<Seq<T>>,
    verdicts: Seq<bool>,
)
    requires
        engine.in_speech,
        engine.silence_run >= 0,
        engine.config.max_silence_frames > 0,
        forall|i: int| 0 <= i < frames.len() ==> !#[trigger] verdicts[i],
        forall|i: int| 0 <= i < frames.len() ==> (#[trigger] frames[i]).len() > 0,
        frames.len() >= engine.config.max_silence_frames,
        engine.segment.len() + flattened(frames).len() < engine.config.max_segment_samples,
    ensures
        !state_after(engine, frames, verdicts).in_speech,
{
    lemma_silence_counts(engine, frames, verdicts);
}

pub(crate) proof fn lemma_flattened_push<T>(parts: Seq<Seq<T>>)
    requires
        parts.len() > 0,
    ensures
        flattened(parts) == flattened(parts.drop_last()) + parts.last(),
    decreases parts.len(),
{
    if parts.len() == 1 {
        assert(flattened(parts.drop_first()) =~= Seq::<T>::empty());
        assert(flattened(parts.drop_last()) =~= Seq::<T>::empty());
        assert(flattened(parts) =~= flattened(parts.drop_last()) + parts.last());
    } else {
        let tail = parts.drop_first();
        lemma_flattened_push(tail);
        assert(parts.drop_last().drop_first() =~= tail.drop_last());
        assert(flattened(parts) =~= flattened(parts.drop_last()) + parts.last());
    }
}

proof fn lemma_silence_counts<T>(
    engine: DynamicChunkView<T>,
    frames: Seq<Seq<T>>,
    verdicts: Seq<bool>,
)
    requires
        engine.in_speech,
        engine.silence_run >= 0,
        engine.config.max_silence_frames > 0,
        forall|i: int| 0 <= i < frames.len() ==> !#[trigger] verdicts[i],
        forall|i: int| 0 <= i < frames.len() ==> (#[trigger] frames[i]).len() > 0,
        engine.segment.len() + flattened(frames).len() < engine.config.max_segment_samples,
    ensures
        ({
            let after = state_after(engine, frames, verdicts);
            &&& after.config == engine.config
            &&& after.in_speech ==> {
                &&& after.silence_run >= frames.len()
                &&& frames.len() > 0 ==> after.silence_run < engine.config.max_silence_frames
                &&& after.segment.len() == engine.segment.len() + flattened(frames).len()
            }
        }),
    decreases frames.len(),
{
    if frames.len() > 0 {
        let before = frames.drop_last();
        lemma_flattened_push(frames);
        assert forall|i: int| 0 <= i < before.len() implies (#[trigger] before[i]).len() > 0 by {
            assert(before[i] == frames[i]);
        }
        lemma_silence_counts(engine, before, verdicts);
        assert(!verdicts[frames.len() - 1]);
        assert(frames[frames.len() - 1].len() > 0);
    }
}

/// A frame inside a segment joins it.  The segment comes out, unless it is too
/// short, and is gathered anew where it has reached its limit; else it ends where
/// the frame makes the last silence in a row long enough; else it goes on, and
/// speech means that there is no silence behind it.
pub proof fn law_frames_join_their_segment<T>(
    engine: DynamicChunkView<T>,
    frame: Seq<T>,
    is_speech: bool,
)
    requires
        engine.in_speech,
        frame.len() > 0,
        engine.config.max_silence_frames > 0,
    ensures
        ({
            let after = engine.step(frame, is_speech, false);
            let grown = engine.segment + frame;
            let full = grown.len() >= engine.config.max_segment_samples;
            let still = !is_speech && engine.silence_run + 1 >= engine.config.max_silence_frames;
            &&& full || still ==> after.state.segment.len() == 0
            &&& (full || still) && grown.len() >= engine.config.min_segment_samples
                ==> after.chunks == seq![grown]
            &&& (full || still) && grown.len() < engine.config.min_segment_samples
                ==> after.chunks.len() == 0
            &&& full ==> after.state.in_speech && !after.is_noise
            &&& full ==> after.state.silence_run == (if is_speech {
                0int
            } else {
                1
            })
            &&& !full && still ==> !after.state.in_speech && after.is_noise
                && after.state.pre_roll.len() == 0 && after.state.speech_run == 0
                && after.state.silence_run == 0
            &&& !full && !still ==> after.state.in_speech && after.chunks.len() == 0
                && !after.is_noise && after.state.segment == grown
            &&& !full && !still && is_speech ==> after.state.silence_run == 0
            &&& !full && !still && !is_speech ==> after.state.silence_run == engine.silence_run + 1
            &&& after.state.config == engine.config
            &&& after.state.pending == engine.pending
            &&& after.state.processed == engine.processed + frame.len()
        }),
{
}

/// Whether one of these verdicts is speech.
pub open spec fn speech_between(verdicts: Seq<bool>, from: int, to: int) -> bool {
    exists|k: int| from <= k < to && #[trigger] verdicts[k]
}

/// Whether one of these verdicts is silence.
pub open spec fn silence_between(verdicts: Seq<bool>, from: int, to: int) -> bool {
    exists|k: int| from <= k < to && !#[trigger] verdicts[k]
}

proof fn lemma_pauses<T>(engine: DynamicChunkView<T>, frames: Seq<Seq<T>>, verdicts: Seq<bool>)
    requires
        engine.in_speech,
        frames.len() > 0,
        verdicts[0],
        engine.config.max_silence_frames > 0,
        forall|i: int| 0 <= i < frames.len() ==> (#[trigger] frames[i]).len() > 0,
        forall|i: int, j: int|
            0 <= i && j <= frames.len() && j - i >= engine.config.max_silence_frames
                ==> #[trigger] speech_between(verdicts, i, j),
        engine.segment.len() + flattened(frames).len() < engine.config.max_segment_samples,
    ensures
        ({
            let after = state_after(engine, frames, verdicts);
            &&& after.in_speech
            &&& after.config == engine.config
            &&& after.segment == engine.segment + flattened(frames)
            &&& 0 <= after.silence_run < engine.config.max_silence_frames
            &&& after.silence_run < frames.len()
            &&& forall|k: int|
                frames.len() - after.silence_run <= k < frames.len() ==> !#[trigger] verdicts[k]
            &&& chunks_after(engine, frames, verdicts).len() == 0
        }),
    decreases frames.len(),
{
    let before = frames.drop_last();
    let n = before.len() as int;
    let frame = frames[n];
    lemma_flattened_push(frames);
    reveal_with_fuel(state_after, 2);
    reveal_with_fuel(chunks_after, 2);
    if n == 0 {
        assert(flattened(before) =~= Seq::<T>::empty());
        assert(state_after(engine, before, verdicts) == engine);
        assert(engine.segment + frame =~= engine.segment + flattened(frames));
        law_frames_join_their_segment(engine, frame, true);
    } else {
        assert forall|i: int| 0 <= i < before.len() implies (#[trigger] before[i]).len() > 0 by {
            assert(before[i] == frames[i]);
        }
        lemma_pauses(engine, before, verdicts);
        let state = state_after(engine, before, verdicts);
        let is_speech = verdicts[n];
        if !is_speech && state.silence_run + 1 >= engine.config.max_silence_frames {
            let from = n + 1 - engine.config.max_silence_frames;
            assert(speech_between(verdicts, from, n + 1));
            let k = choose|k: int| from <= k < n + 1 && #[trigger] verdicts[k];
            assert(verdicts[k] && k != n);
            assert(false);
        }
        assert(engine.segment + flattened(before) + frame =~= engine.segment + flattened(frames));
        law_frames_join_their_segment(state, frame, is_speech);
    }
}

/// Short pauses do not end a segment: as long as it stays below its limit, and
/// speech comes at least once in so many frames as the limit of silence says, all
/// that follows a speech frame joins the segment and nothing comes out.
pub proof fn law_pauses_do_not_end_a_segment<T>(
    engine: DynamicChunkView<T>,
    frames: Seq<Seq<T>>,
    verdicts: Seq<bool>,
)
    requires
        engine.in_speech,
        frames.len() > 0,
        verdicts[0],
        engine.config.max_silence_frames > 0,
        forall|i: int| 0 <= i < frames.len() ==> (#[trigger] frames[i]).len() > 0,
        forall|i: int, j: int|
            0 <= i && j <= frames.len() && j - i >= engine.config.max_silence_frames
                ==> #[trigger] speech_between(verdicts, i, j),
        engine.segment.len() + flattened(frames).len() < engine.config.max_segment_samples,
    ensures
        state_after(engine, frames, verdicts).in_speech,
        state_after(engine, frames, verdicts).segment == engine.segment + flattened(frames),
        chunks_after(engine, frames, verdicts).len() == 0,
{
    lemma_pauses(engine, frames, verdicts);
}

/// A frame outside a segment is kept with what came before it, as much as may
/// come before speech.  With it a segment begins where it makes the last speech in
/// a row long enough, and holds all that was kept; nothing comes out.
pub proof fn law_frames_before_a_segment<T>(
    engine: DynamicChunkView<T>,
    frame: Seq<T>,
    is_speech: bool,
)
    requires
        !engine.in_speech,
        frame.len() > 0,
    ensures
        ({
            let after = engine.step(frame, is_speech, false);
            let all = engine.pre_roll + frame;
            let limit = engine.config.pre_roll_samples as int;
            let kept = if all.len() <= limit {
                all
            } else {
                all.skip(all.len() - limit)
            };
            let begins = is_speech && engine.speech_run + 1 >= engine.config.min_speech_frames;
            &&& after.chunks.len() == 0
            &&& after.is_noise == !is_speech
            &&& after.state.in_speech == begins
            &&& begins ==> after.state.segment == kept && after.state.silence_run == 0
                && after.state.pre_roll.len() == 0
            &&& !begins ==> after.state.pre_roll == kept
            &&& is_speech ==> after.state.speech_run == engine.speech_run + 1
            &&& !is_speech ==> after.state.speech_run == 0
            &&& after.state.config == engine.config
            &&& after.state.pending == engine.pending
            &&& after.state.processed == engine.processed + frame.len()
        }),
{
}

proof fn lemma_noises<T>(engine: DynamicChunkView<T>, frames: Seq<Seq<T>>, verdicts: Seq<bool>)
    requires
        !engine.in_speech,
        engine.speech_run == 0,
        engine.pre_roll.len() <= engine.config.pre_roll_samples,
        forall|i: int| 0 <= i < frames.len() ==> (#[trigger] frames[i]).len() > 0,
        engine.config.min_speech_frames > 0,
        forall|i: int, j: int|
            0 <= i && j <= frames.len() && j - i >= engine.config.min_speech_frames
                ==> #[trigger] silence_between(verdicts, i, j),
    ensures
        ({
            let after = state_after(engine, frames, verdicts);
            let all = engine.pre_roll + flattened(frames);
            let limit = engine.config.pre_roll_samples as int;
            &&& !after.in_speech
            &&& after.config == engine.config
            &&& 0 <= after.speech_run < engine.config.min_speech_frames
            &&& after.speech_run <= frames.len()
            &&& forall|k: int|
                frames.len() - after.speech_run <= k < frames.len() ==> #[trigger] verdicts[k]
            &&& after.speech_run < frames.len() ==> !verdicts[frames.len() - after.speech_run - 1]
            &&& after.pre_roll == (if all.len() <= limit {
                all
            } else {
                all.skip(all.len() - limit)
            })
            &&& chunks_after(engine, frames, verdicts).len() == 0
        }),
    decreases frames.len(),
{
    let all = engine.pre_roll + flattened(frames);
    let limit = engine.config.pre_roll_samples as int;
    if frames.len() == 0 {
        assert(all =~= engine.pre_roll);
    } else {
        let before = frames.drop_last();
        let n = before.len() as int;
        let frame = frames[n];
        lemma_flattened_push(frames);
        assert forall|i: int| 0 <= i < before.len() implies (#[trigger] before[i]).len() > 0 by {
            assert(before[i] == frames[i]);
        }
        lemma_noises(engine, before, verdicts);
        let state = state_after(engine, before, verdicts);
        let is_speech = verdicts[n];
        if is_speech && state.speech_run + 1 >= engine.config.min_speech_frames {
            let from = n + 1 - engine.config.min_speech_frames;
            assert(silence_between(verdicts, from, n + 1));
            let k = choose|k: int| from <= k < n + 1 && !#[trigger] verdicts[k];
            assert(!verdicts[k] && k != n);
            assert(false);
        }
        let earlier = engine.pre_roll + flattened(before);
        assert(all =~= earlier + frame);
        law_frames_before_a_segment(state, frame, is_speech);
        let kept = state.pre_roll + frame;
        if kept.len() <= limit {
            assert(earlier.len() <= limit ==> kept =~= all);
            assert(earlier.len() > limit ==> false);
        } else {
            assert(kept.skip(kept.len() - limit) =~= all.skip(all.len() - limit));
        }
    }
}

/// Short noises do not begin a segment: as long as silence comes at least once in
/// so many frames as speech needs, no segment begins, and what is kept is the end
/// of all that came.
pub proof fn law_short_noises_do_not_begin_a_segment<T>(
    engine: DynamicChunkView<T>,
    frames: Seq<Seq<T>>,
    verdicts: Seq<bool>,
)
    requires
        !engine.in_speech,
        engine.speech_run == 0,
        engine.pre_roll.len() <= engine.config.pre_roll_samples,
        forall|i: int| 0 <= i < frames.len() ==> (#[trigger] frames[i]).len() > 0,
        engine.config.min_speech_frames > 0,
        forall|i: int, j: int|
            0 <= i && j <= frames.len() && j - i >= engine.config.min_speech_frames
                ==> #[trigger] silence_between(verdicts, i, j),
    ensures
        ({
            let after = state_after(engine, frames, verdicts);
            let all = engine.pre_roll + flattened(frames);
            let limit = engine.config.pre_roll_samples as int;
            &&& !after.in_speech
            &&& chunks_after(engine, frames, verdicts).len() == 0
            &&& all.len() <= limit ==> after.pre_roll == all
            &&& all.len() > limit ==> after.pre_roll == all.skip(all.len() - limit)
        }),
{
    lemma_noises(engine, frames, verdicts);
}

proof fn lemma_all_speech<T>(
    engine: DynamicChunkView<T>,
    frames: Seq<Seq<T>>,
    verdicts: Seq<bool>,
)
    requires
        !engine.in_speech,
        engine.speech_run == 0,
        engine.pre_roll.len() <= engine.config.pre_roll_samples,
        forall|i: int| 0 <= i < frames.len() ==> (#[trigger] frames[i]).len() > 0,
        forall|i: int| 0 <= i < frames.len() ==> #[trigger] verdicts[i],
        frames.len() < engine.config.min_speech_frames,
    ensures
        ({
            let after = state_after(engine, frames, verdicts);
            let all = engine.pre_roll + flattened(frames);
            let limit = engine.config.pre_roll_samples as int;
            &&& !after.in_speech
            &&& after.config == engine.config
            &&& after.speech_run == frames.len()
            &&& after.pre_roll == (if all.len() <= limit {
                all
            } else {
                all.skip(all.len() - limit)
            })
        }),
    decreases frames.len(),
{
    let all = engine.pre_roll + flattened(frames);
    let limit = engine.config.pre_roll_samples as int;
    if frames.len() == 0 {
        assert(all =~= engine.pre_roll);
    } else {
        let before = frames.drop_last();
        let n = before.len() as int;
        lemma_flattened_push(frames);
        assert forall|i: int| 0 <= i < before.len() implies (#[trigger] before[i]).len() > 0 by {
            assert(before[i] == frames[i]);
        }
        lemma_all_speech(engine, before, verdicts);
        let state = state_after(engine, before, verdicts);
        assert(verdicts[n] && frames[n].len() > 0);
        let earlier = engine.pre_roll + flattened(before);
        assert(all =~= earlier + frames[n]);
        law_frames_before_a_segment(state, frames[n], true);
        let kept = state.pre_roll + frames[n];
        if kept.len() <= limit {
            assert(earlier.len() <= limit ==> kept =~= all);
        } else {
            assert(kept.skip(kept.len() - limit) =~= all.skip(all.len() - limit));
        }
    }
}

/// Enough speech in a row begins a segment.  It holds all that came, the frames of
/// that speech and what was kept before them, up to what may come before speech.
pub proof fn law_enough_speech_begins_a_segment<T>(
    engine: DynamicChunkView<T>,
    frames: Seq<Seq<T>>,
    verdicts: Seq<bool>,
)
    requires
        !engine.in_speech,
        engine.speech_run == 0,
        engine.pre_roll.len() <= engine.config.pre_roll_samples,
        forall|i: int| 0 <= i < frames.len() ==> (#[trigger] frames[i]).len() > 0,
        forall|i: int| 0 <= i < frames.len() ==> #[trigger] verdicts[i],
        0 < frames.len() == engine.config.min_speech_frames,
    ensures
        ({
            let after = state_after(engine, frames, verdicts);
            let all = engine.pre_roll + flattened(frames);
            let limit = engine.config.pre_roll_samples as int;
            &&& after.in_speech
            &&& all.len() <= limit ==> after.segment == all
            &&& all.len() > limit ==> after.segment == all.skip(all.len() - limit)
        }),
{
    let all = engine.pre_roll + flattened(frames);
    let limit = engine.config.pre_roll_samples as int;
    let before = frames.drop_last();
    let n = before.len() as int;
    lemma_flattened_push(frames);
    assert forall|i: int| 0 <= i < before.len() implies (#[trigger] before[i]).len() > 0 by {
        assert(before[i] == frames[i]);
    }
    lemma_all_speech(engine, before, verdicts);
    let state = state_after(engine, before, verdicts);
    assert(verdicts[n] && frames[n].len() > 0);
    let earlier = engine.pre_roll + flattened(before);
    assert(all =~= earlier + frames[n]);
    law_frames_before_a_segment(state, frames[n], true);
    let kept = state.pre_roll + frames[n];
    if kept.len() <= limit {
        assert(earlier.len() <= limit ==> kept =~= all);
    } else {
        assert(kept.skip(kept.len() - limit) =~= all.skip(all.len() - limit));
    }
}

/// The end of a stream begins no segment without speech: outside a segment it
/// gives nothing, unless what waits is the speech that was missing, and then all
/// that was kept.
pub proof fn law_the_end_of_silence_gives_nothing<T>(
    engine: DynamicChunkView<T>,
    is_speech: bool,
)
    requires
        !engine.in_speech,
    ensures
        ({
            let all = engine.pre_roll + engine.pending;
            let limit = engine.config.pre_roll_samples as int;
            let kept = if all.len() <= limit {
                all
            } else {
                all.skip(all.len() - limit)
            };
            let begins = engine.pending.len() > 0 && is_speech && engine.speech_run + 1
                >= engine.config.min_speech_frames;
            &&& begins && kept.len() >= engine.config.min_segment_samples ==> end_chunks(
                engine,
                is_speech,
            ) == seq![kept]
            &&& !begins || kept.len() < engine.config.min_segment_samples ==> end_chunks(
                engine,
                is_speech,
            ).len() == 0
        }),
{
    let all = engine.pre_roll + engine.pending;
    let limit = engine.config.pre_roll_samples as int;
    if engine.pending.len() > 0 && is_speech && engine.speech_run + 1
        >= engine.config.min_speech_frames {
        let kept = if all.len() <= limit {
            all
        } else {
            all.skip(all.len() - limit)
        };
        let taken = DynamicChunkView { pending: Seq::<T>::empty(), ..engine };
        let after = taken.step(engine.pending, is_speech, true);
        assert(after.state.segment =~= kept);
        if kept.len() >= engine.config.min_segment_samples {
            assert(end_chunks(engine, is_speech) =~= seq![kept]);
        }
    }
}

/// The limits of a live stream in samples and frames of 30 milliseconds: 240
/// milliseconds before speech, 180 of speech to begin and 720 of silence to end a
/// segment, which lasts from 240 milliseconds to six seconds and one window.
pub proof fn law_live_limits_are_times(sample_rate: int, window: int)
    requires
        0 < sample_rate,
        sample_rate * 900 <= usize::MAX,
        0 < window <= usize::MAX,
    ensures
        ({
            let limits = DynamicChunkConfig::for_live(sample_rate, window);
            &&& sample_rate * 30 < 1000 ==> limits.frame_samples == 1
            &&& sample_rate * 30 >= 1000 ==> limits.frame_samples * 1000 <= sample_rate * 30
                < limits.frame_samples * 1000 + 1000
            &&& limits.pre_roll_samples * 1000 <= sample_rate * 240 < limits.pre_roll_samples * 1000
                + 1000
            &&& limits.min_speech_frames * 30 == 180
            &&& limits.max_silence_frames * 30 == 720
            &&& limits.min_segment_samples * 1000 <= sample_rate * 240
                < limits.min_segment_samples * 1000 + 1000
            &&& sample_rate * 6 <= window ==> limits.max_segment_samples == sample_rate * 6
            &&& sample_rate * 6 > window ==> limits.max_segment_samples == window
            &&& limits.continuation_samples * 1000 <= sample_rate * 900
            &&& limits.continuation_samples * 2 <= limits.max_segment_samples
            &&& sample_rate * 900 < limits.continuation_samples * 1000 + 1000
                || limits.max_segment_samples < limits.continuation_samples * 2 + 2
        }),
{
}

/// A sample that is not loud counts for nothing.  A loud one counts, and as a
/// turn too where the last loud one before it has another sign.
pub proof fn law_loud_samples_count(signs: Seq<i8>, sign: i8)
    ensures
        loud_signs(Seq::<i8>::empty()).len() == 0,
        sign == 0 ==> loud_signs(signs.push(sign)) == loud_signs(signs),
        sign != 0 ==> loud_signs(signs.push(sign)) == loud_signs(signs).push(sign),
        sign != 0 ==> changes(loud_signs(signs.push(sign))) == changes(loud_signs(signs)) + (if
        loud_signs(signs).len() > 0 && loud_signs(signs).last() != sign {
            1nat
        } else {
            0nat
        }),
        changes(Seq::<i8>::empty()) == 0,
{
    assert(signs.push(sign).drop_last() =~= signs);
    let before = loud_signs(signs);
    assert(before.push(sign).drop_last() =~= before);
}

/// A frame without samples changes nothing, and says nothing of noise.
pub proof fn law_empty_frames_change_nothing<T>(
    engine: DynamicChunkView<T>,
    is_speech: bool,
    last: bool,
)
    ensures
        ({
            let after = engine.step(Seq::empty(), is_speech, last);
            &&& after.state == engine
            &&& after.chunks.len() == 0
            &&& !after.is_noise
        }),
{
}

/// The last frame does in a segment what any other one does, and then ends the
/// segment: no segment is left open, and what it held comes out where it is long
/// enough.
pub proof fn law_the_last_frame_ends_the_segment<T>(
    engine: DynamicChunkView<T>,
    frame: Seq<T>,
    is_speech: bool,
)
    requires
        engine.in_speech,
        frame.len() > 0,
    ensures
        ({
            let usual = engine.step(frame, is_speech, false);
            let after = engine.step(frame, is_speech, true);
            let held = usual.state.segment;
            let gives = usual.state.in_speech && held.len() >= engine.config.min_segment_samples;
            &&& !after.state.in_speech
            &&& after.is_noise == usual.is_noise
            &&& after.chunks.len() == usual.chunks.len() + (if gives {
                1int
            } else {
                0
            })
            &&& gives ==> after.chunks.last() == held
        }),
{
}

/// Outside a segment the last frame does what any other one does, and nothing is
/// kept for a segment that might follow.
pub proof fn law_nothing_is_kept_after_the_last_frame<T>(
    engine: DynamicChunkView<T>,
    frame: Seq<T>,
    is_speech: bool,
)
    requires
        !engine.in_speech,
        frame.len() > 0,
    ensures
        ({
            let usual = engine.step(frame, is_speech, false);
            let after = engine.step(frame, is_speech, true);
            &&& after.state.pre_roll.len() == 0
            &&& after.state.in_speech == usual.state.in_speech
            &&& after.state.segment == usual.state.segment
            &&& after.state.segment_start == usual.state.segment_start
            &&& after.state.processed == engine.processed + frame.len()
            &&& after.chunks.len() == 0
            &&& after.is_noise == usual.is_noise
        }),
{
}

/// The limits of a recording in samples and frames of 30 milliseconds: as for a live
/// stream, but 420 milliseconds of silence end a segment, which lasts for one window
/// at most and for as many seconds as are given.
pub proof fn law_limits_are_times(sample_rate: int, window: int, seconds: int)
    requires
        0 < sample_rate,
        sample_rate * 400 <= usize::MAX,
        0 < window <= usize::MAX,
        0 <= sample_rate * seconds <= usize::MAX,
    ensures
        ({
            let limits = DynamicChunkConfig::with_limits(sample_rate, window, seconds);
            &&& sample_rate * 30 < 1000 ==> limits.frame_samples == 1
            &&& sample_rate * 30 >= 1000 ==> limits.frame_samples * 1000 <= sample_rate * 30
                < limits.frame_samples * 1000 + 1000
            &&& limits.pre_roll_samples * 1000 <= sample_rate * 240 < limits.pre_roll_samples * 1000
                + 1000
            &&& limits.min_speech_frames * 30 == 180
            &&& limits.max_silence_frames * 30 == 420
            &&& limits.min_segment_samples * 1000 <= sample_rate * 240
                < limits.min_segment_samples * 1000 + 1000
            &&& sample_rate * seconds <= window ==> limits.max_segment_samples == sample_rate
                * seconds
            &&& sample_rate * seconds > window ==> limits.max_segment_samples == window
            &&& limits.continuation_samples * 1000 <= sample_rate * 400
            &&& limits.continuation_samples * 3 <= limits.max_segment_samples
            &&& sample_rate * 400 < limits.continuation_samples * 1000 + 1000
                || limits.max_segment_samples < limits.continuation_samples * 3 + 3
        }),
{
}

/// An engine begins outside any segment, with nothing heard, counted or kept.
pub proof fn law_engines_begin_with_nothing<T>(config: DynamicChunkConfig)
    ensures
        ({
            let engine = DynamicChunkView::<T>::initial(config);
            &&& engine.config == config
            &&& !engine.in_speech
            &&& engine.pending.len() == 0 && engine.pre_roll.len() == 0 && engine.segment.len() == 0
            &&& engine.speech_run == 0 && engine.silence_run == 0
            &&& engine.processed == 0 && engine.segment_start == 0
        }),
{
}

} // verus!
