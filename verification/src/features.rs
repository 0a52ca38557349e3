//! How samples are cut into frames and how the features of the frames are laid
//! out for a model.
//!
//! What a sample or a feature is does not matter here.

use vstd::arithmetic::div_mod::lemma_fundamental_div_mod_converse;
use vstd::prelude::*;

use crate::numbers::min_int;

verus! {

/// How many windows of `span` samples lie `hop` apart in so many samples; one
/// where they do not fill a window.
pub open spec fn frames_in(samples: int, span: int, hop: int) -> int {
    if samples <= span {
        1
    } else {
        1 + (samples - span) / hop
    }
}

/// Each window lies within the samples, where they fill one, and no other would.
pub proof fn law_frames_lie_within_the_samples(samples: int, span: int, hop: int, frame: int)
    requires
        hop > 0,
        span > 0,
        samples >= 0,
        0 <= frame < frames_in(samples, span, hop),
    ensures
        samples >= span ==> frame * hop + span <= samples,
        samples < span ==> frame * hop == 0,
        frames_in(samples, span, hop) * hop + span > samples,
{
    let count = frames_in(samples, span, hop);
    if samples <= span {
        assert(frame * hop == 0) by (nonlinear_arith)
            requires
                frame == 0,
        ;
        assert(count * hop == hop) by (nonlinear_arith)
            requires
                count == 1,
        ;
    } else {
        let q = (samples - span) / hop;
        assert(q * hop <= samples - span < (q + 1) * hop) by (nonlinear_arith)
            requires
                q == (samples - span) / hop,
                hop > 0,
        ;
        assert(frame * hop <= q * hop) by (nonlinear_arith)
            requires
                frame <= q,
                hop > 0,
        ;
    }
}

/// How many windows lie in so many samples.
pub fn count_frames(samples: usize, span: usize, hop: usize) -> (count: usize)
    requires
        span > 0,
        hop > 0,
    ensures
        count == frames_in(samples as int, span as int, hop as int),
        count > 0,
{
    if samples <= span {
        1
    } else {
        assert(0 <= (samples - span) / hop as int <= samples - span) by (nonlinear_arith)
            requires
                samples > span,
                hop > 0,
        ;
        1 + (samples - span) / hop
    }
}

/// The samples of a window, followed by silence up to `size` samples.
pub open spec fn frame_of<T>(
    samples: Seq<T>,
    silence: T,
    frame: int,
    span: int,
    hop: int,
    size: nat,
) -> Seq<T> {
    Seq::new(
        size,
        |i: int|
            if i < span && frame * hop + i < samples.len() {
                samples[frame * hop + i]
            } else {
                silence
            },
    )
}

/// Features by kind and, of each kind, by frame; zero for a frame that has none.
pub open spec fn laid_out<T>(
    frames: Seq<Vec<T>>,
    zero: T,
    kinds: int,
    frame_count: int,
) -> Seq<T> {
    Seq::new(
        (kinds * frame_count) as nat,
        |k: int|
            if k % frame_count < frames.len() {
                frames[k % frame_count]@[k / frame_count]
            } else {
                zero
            },
    )
}

/// What extracting features takes.
#[derive(Clone, Copy, Debug, PartialEq, Eq, Structural)]
pub struct FeaturePlan {
    /// How many frames there are.
    pub frame_count: usize,
    /// How many samples a window takes in.
    pub span: usize,
    /// How far apart the windows lie.
    pub hop: usize,
    /// How many samples are transformed at a time.
    pub size: usize,
    /// How many features a frame has.
    pub kinds: usize,
    /// How many frames carry features.
    pub valid_frames: usize,
    /// The length that the model is told.
    pub length: i64,
}

impl FeaturePlan {
    /// A plan that suits so many samples.
    pub open spec fn fits(self, samples: int) -> bool {
        &&& self.span > 0
        &&& self.hop > 0
        &&& self.frame_count == frames_in(samples, self.span as int, self.hop as int)
        &&& min_int(samples, self.span as int) <= self.size
        &&& 0 < self.valid_frames <= self.frame_count
    }

    /// The samples to transform for a frame.
    pub fn frame<T: Copy>(&self, samples: &[T], silence: T, frame: usize) -> (buffer: Vec<T>)
        requires
            self.fits(samples@.len() as int),
            frame < self.frame_count,
        ensures
            buffer@ == frame_of(
                samples@,
                silence,
                frame as int,
                self.span as int,
                self.hop as int,
                self.size as nat,
            ),
    {
        proof {
            law_frames_lie_within_the_samples(
                samples@.len() as int,
                self.span as int,
                self.hop as int,
                frame as int,
            );
        }
        assert(frame * self.hop >= 0) by (nonlinear_arith)
            requires
                frame >= 0,
                self.hop > 0,
        ;
        let len = samples.len();
        let start = frame * self.hop;
        let held: usize = if len - start < self.span {
            len - start
        } else {
            self.span
        };
        let mut buffer: Vec<T> = Vec::new();
        for i in 0..self.size
            invariant
                start == frame * self.hop,
                len == samples@.len(),
                start <= len,
                held == min_int(self.span as int, samples@.len() - start),
                held <= self.size,
                buffer@.len() == i,
                forall|j: int|
                    0 <= j < i ==> #[trigger] buffer@[j] == (if j < self.span && start + j
                        < samples@.len() {
                        samples@[start + j]
                    } else {
                        silence
                    }),
        {
            if i < held {
                buffer.push(samples[start + i]);
            } else {
                buffer.push(silence);
            }
        }
        assert(buffer@ =~= frame_of(
            samples@,
            silence,
            frame as int,
            self.span as int,
            self.hop as int,
            self.size as nat,
        ));
        buffer
    }

    /// The features of the frames that carry any, as the model takes them.
    pub fn tensor<T: Copy>(&self, frames: &[Vec<T>], zero: T) -> (features: Vec<T>)
        requires
            self.frame_count > 0,
            frames@.len() <= self.frame_count,
            self.kinds * self.frame_count <= usize::MAX,
            forall|i: int| 0 <= i < frames@.len() ==> (#[trigger] frames@[i])@.len() == self.kinds,
        ensures
            features@ == laid_out(frames@, zero, self.kinds as int, self.frame_count as int),
    {
        let count = self.frame_count;
        let ghost want = laid_out(frames@, zero, self.kinds as int, count as int);
        let mut features: Vec<T> = Vec::new();
        assert(0 * count == 0) by (nonlinear_arith);
        for kind in 0..self.kinds
            invariant
                count == self.frame_count,
                count > 0,
                frames@.len() <= count,
                forall|i: int|
                    0 <= i < frames@.len() ==> (#[trigger] frames@[i])@.len() == self.kinds,
                want == laid_out(frames@, zero, self.kinds as int, count as int),
                features@.len() == kind * count,
                kind <= self.kinds,
                forall|k: int| 0 <= k < features@.len() ==> #[trigger] features@[k] == want[k],
        {
            proof {
                assert((kind + 1) * count == kind * count + count) by (nonlinear_arith);
                assert((kind + 1) * count <= self.kinds * count) by (nonlinear_arith)
                    requires
                        kind + 1 <= self.kinds,
                        count > 0,
                ;
            }
            for frame in 0..count
                invariant
                    count == self.frame_count,
                    kind < self.kinds,
                    frames@.len() <= count,
                    kind * count + count <= self.kinds * count,
                    forall|i: int|
                        0 <= i < frames@.len() ==> (#[trigger] frames@[i])@.len() == self.kinds,
                    want == laid_out(frames@, zero, self.kinds as int, count as int),
                    features@.len() == kind * count + frame,
                    forall|k: int| 0 <= k < features@.len() ==> #[trigger] features@[k] == want[k],
            {
                proof {
                    lemma_fundamental_div_mod_converse(
                        kind * count + frame,
                        count as int,
                        kind as int,
                        frame as int,
                    );
                }
                if frame < frames.len() {
                    features.push(frames[frame][kind]);
                } else {
                    features.push(zero);
                }
            }
        }
        assert(features@ =~= want);
        features
    }
}

/// The samples with silence on both sides.
pub open spec fn padded<T>(samples: Seq<T>, silence: T, pad: nat) -> Seq<T> {
    Seq::new(pad, |i: int| silence) + samples + Seq::new(pad, |i: int| silence)
}

pub fn zero_pad_waveform<T: Copy>(samples: &[T], silence: T, pad: usize) -> (waveform: Vec<T>)
    requires
        samples@.len() + 2 * pad <= usize::MAX,
    ensures
        waveform@ == padded(samples@, silence, pad as nat),
{
    let mut waveform: Vec<T> = Vec::new();
    let total = pad + samples.len() + pad;
    for i in 0..total
        invariant
            total == samples@.len() + 2 * pad,
            waveform@.len() == i,
            forall|j: int|
                0 <= j < i ==> #[trigger] waveform@[j] == padded(samples@, silence, pad as nat)[j],
    {
        if i < pad || i - pad >= samples.len() {
            waveform.push(silence);
        } else {
            waveform.push(samples[i - pad]);
        }
    }
    assert(waveform@ =~= padded(samples@, silence, pad as nat));
    waveform
}

/// A window in the middle of `size` values, the rest of them silence.
pub open spec fn centred<T>(window: Seq<T>, silence: T, size: int) -> Seq<T> {
    let pad = (size - window.len()) / 2;
    Seq::new(
        size as nat,
        |i: int|
            if pad <= i < pad + window.len() {
                window[i - pad]
            } else {
                silence
            },
    )
}

pub fn centre_window<T: Copy>(window: &[T], silence: T, size: usize) -> (values: Vec<T>)
    requires
        window@.len() <= size,
    ensures
        values@ == centred(window@, silence, size as int),
{
    let pad = (size - window.len()) / 2;
    let mut values: Vec<T> = Vec::new();
    for i in 0..size
        invariant
            window@.len() <= size,
            pad == (size - window@.len()) / 2,
            values@.len() == i,
            forall|j: int|
                0 <= j < i ==> #[trigger] values@[j] == centred(window@, silence, size as int)[j],
    {
        if i < pad || i - pad >= window.len() {
            values.push(silence);
        } else {
            values.push(window[i - pad]);
        }
    }
    assert(values@ =~= centred(window@, silence, size as int));
    values
}

/// A frame is the piece of the samples that begins so many hops from their start,
/// as far as there are samples, and silence behind it.
pub proof fn law_frames_are_pieces_of_the_samples<T>(
    samples: Seq<T>,
    silence: T,
    frame: int,
    span: int,
    hop: int,
    size: nat,
)
    requires
        span > 0,
        hop > 0,
        frame >= 0,
        size >= span,
    ensures
        ({
            let piece = frame_of(samples, silence, frame, span, hop, size);
            let start = frame * hop;
            &&& piece.len() == size
            &&& start + span <= samples.len() ==> piece.take(span) == samples.subrange(
                start,
                start + span,
            )
            &&& start <= samples.len() < start + span ==> piece.take(samples.len() - start)
                == samples.skip(start)
            &&& forall|i: int|
                span <= i < size || samples.len() - start <= i < size && i >= 0
                    ==> #[trigger] piece[i] == silence
        }),
{
    let piece = frame_of(samples, silence, frame, span, hop, size);
    let start = frame * hop;
    assert(start >= 0) by (nonlinear_arith)
        requires
            start == frame * hop,
            frame >= 0,
            hop > 0,
    ;
    if start + span <= samples.len() {
        assert(piece.take(span) =~= samples.subrange(start, start + span));
    }
    if start <= samples.len() < start + span {
        assert(piece.take(samples.len() - start) =~= samples.skip(start));
    }
}

/// The features of one kind stand together, one for each frame in order; frames
/// that carry none are zero.
pub proof fn law_features_stand_by_kind<T>(
    frames: Seq<Vec<T>>,
    zero: T,
    kinds: int,
    frame_count: int,
    kind: int,
    frame: int,
)
    requires
        0 <= kind < kinds,
        0 <= frame < frame_count,
    ensures
        laid_out(frames, zero, kinds, frame_count).len() == kinds * frame_count,
        0 <= kind * frame_count + frame < kinds * frame_count,
        frame < frames.len() ==> laid_out(frames, zero, kinds, frame_count)[kind * frame_count
            + frame] == frames[frame]@[kind],
        frame >= frames.len() ==> laid_out(frames, zero, kinds, frame_count)[kind * frame_count
            + frame] == zero,
{
    assert(0 <= kind * frame_count && kind * frame_count + frame_count <= kinds * frame_count)
        by (nonlinear_arith)
        requires
            0 <= kind < kinds,
            frame_count > 0,
    ;
    lemma_fundamental_div_mod_converse(kind * frame_count + frame, frame_count, kind, frame);
}

/// Padding puts so much silence before and behind the samples and leaves them.
pub proof fn law_padding_is_silence_on_both_sides<T>(samples: Seq<T>, silence: T, pad: nat)
    ensures
        ({
            let all = padded(samples, silence, pad);
            &&& all.len() == samples.len() + 2 * pad
            &&& all.subrange(pad as int, (pad + samples.len()) as int) == samples
            &&& forall|i: int|
                0 <= i < pad || pad + samples.len() <= i < all.len() ==> #[trigger] all[i]
                    == silence
        }),
{
    let all = padded(samples, silence, pad);
    assert(all.subrange(pad as int, (pad + samples.len()) as int) =~= samples);
}

/// A window stands in the middle, with as much silence before it as behind it, or
/// one less.
pub proof fn law_windows_stand_in_the_middle<T>(window: Seq<T>, silence: T, size: int)
    requires
        window.len() <= size,
    ensures
        ({
            let all = centred(window, silence, size);
            let pad = (size - window.len()) / 2;
            &&& all.len() == size
            &&& 0 <= size - window.len() - 2 * pad <= 1
            &&& all.subrange(pad, pad + window.len()) == window
            &&& forall|i: int|
                0 <= i < pad || pad + window.len() <= i < size ==> #[trigger] all[i] == silence
        }),
{
    let all = centred(window, silence, size);
    let pad = (size - window.len()) / 2;
    assert(all.subrange(pad, pad + window.len()) =~= window);
}

} // verus!
