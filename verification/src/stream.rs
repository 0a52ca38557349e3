//! Overlapping audio windows and the text that is settled between them.
//!
//! [`StreamEngine`] cuts a stream of samples into windows that overlap, and
//! [`StreamTranscriptController`] decides which of the words that neighbouring
//! windows share are settled and which may still change.

use std::collections::VecDeque;

use vstd::arithmetic::div_mod::lemma_basic_div;
use vstd::prelude::*;
use vstd::string::StringExecFns;

use crate::numbers::min_int;
use crate::text::{
    concat3, decimal, decimal_text, join_range, joined, normalize_word, normalized, opt_text,
    split_words, texts, trimmed, words,
};
use crate::words::{lemma_joined_is_trimmed, lemma_space_literal, lemma_words_are_words, space};

verus! {

pub const DEFAULT_FILE_OVERLAP_SECONDS: usize = 6;

pub const DEFAULT_MAX_DEDUP_WORDS: usize = 24;

pub const DEFAULT_HOLD_WORDS: usize = 8;

pub const MAX_CARRY_WORDS: usize = 4;

// ---------------------------------------------------------------------------
// Configuration
// ---------------------------------------------------------------------------

#[derive(Clone, Debug)]
pub struct StreamConfig {
    pub sample_rate: usize,
    pub window_samples: usize,
    pub overlap_samples: usize,
    pub max_dedup_words: usize,
    pub hold_words: usize,
}

#[derive(Clone, Copy, Debug, PartialEq, Eq, Structural)]
pub enum StreamConfigError {
    ZeroSampleRate,
    ZeroWindow,
}

impl StreamConfigError {
    pub fn message(self) -> (text: &'static str)
        ensures
            text@ == match self {
                StreamConfigError::ZeroSampleRate => "stream sample rate must be greater than zero"@,
                StreamConfigError::ZeroWindow => "stream window size must be greater than zero"@,
            },
    {
        match self {
            StreamConfigError::ZeroSampleRate => "stream sample rate must be greater than zero",
            StreamConfigError::ZeroWindow => "stream window size must be greater than zero",
        }
    }
}

impl StreamConfig {
    /// How far a window starts after the one before it: the window without its
    /// overlap, and at least one sample.
    pub open spec fn step(self) -> int {
        if self.window_samples > self.overlap_samples {
            self.window_samples - self.overlap_samples
        } else {
            1
        }
    }

    pub open spec fn overlapping(
        sample_rate: usize,
        window_samples: usize,
        overlap_seconds: usize,
    ) -> Result<StreamConfig, StreamConfigError> {
        if sample_rate == 0 {
            Err(StreamConfigError::ZeroSampleRate)
        } else if window_samples == 0 {
            Err(StreamConfigError::ZeroWindow)
        } else {
            Ok(
                StreamConfig {
                    sample_rate,
                    window_samples,
                    overlap_samples: min_int(
                        sample_rate * overlap_seconds,
                        window_samples as int / 2,
                    ) as usize,
                    max_dedup_words: DEFAULT_MAX_DEDUP_WORDS,
                    hold_words: DEFAULT_HOLD_WORDS,
                },
            )
        }
    }

    /// The configuration for a model with the given window: neighbours share six
    /// seconds, but never more than half a window.
    pub fn for_model(sample_rate: usize, window_samples: usize) -> (config: Result<
        Self,
        StreamConfigError,
    >)
        requires
            window_samples > 0 ==> sample_rate * DEFAULT_FILE_OVERLAP_SECONDS <= usize::MAX,
        ensures
            config == StreamConfig::overlapping(
                sample_rate,
                window_samples,
                DEFAULT_FILE_OVERLAP_SECONDS,
            ),
    {
        Self::with_overlap_seconds(sample_rate, window_samples, DEFAULT_FILE_OVERLAP_SECONDS)
    }

    pub fn with_overlap_seconds(
        sample_rate: usize,
        window_samples: usize,
        overlap_seconds: usize,
    ) -> (config: Result<Self, StreamConfigError>)
        requires
            window_samples > 0 ==> sample_rate * overlap_seconds <= usize::MAX,
        ensures
            config == StreamConfig::overlapping(sample_rate, window_samples, overlap_seconds),
    {
        if sample_rate == 0 {
            return Err(StreamConfigError::ZeroSampleRate);
        }
        if window_samples == 0 {
            return Err(StreamConfigError::ZeroWindow);
        }
        assert(0 <= sample_rate * overlap_seconds) by (nonlinear_arith);
        let shared: usize = sample_rate * overlap_seconds;
        let half: usize = window_samples / 2;
        let overlap_samples: usize = if shared <= half {
            shared
        } else {
            half
        };
        Ok(
            StreamConfig {
                sample_rate,
                window_samples,
                overlap_samples,
                max_dedup_words: DEFAULT_MAX_DEDUP_WORDS,
                hold_words: DEFAULT_HOLD_WORDS,
            },
        )
    }

    pub fn step_samples(&self) -> (step: usize)
        ensures
            step == self.step(),
    {
        if self.window_samples > self.overlap_samples {
            self.window_samples - self.overlap_samples
        } else {
            1
        }
    }

    /// The overlap in whole seconds.
    pub fn overlap_seconds(&self) -> (seconds: usize)
        requires
            self.sample_rate > 0,
        ensures
            seconds == self.overlap_samples / self.sample_rate,
    {
        self.overlap_samples / self.sample_rate
    }

    /// The number of steps that it takes to pass over all samples.
    pub fn window_count(&self, total_samples: usize) -> (count: usize)
        ensures
            count == steps_over(total_samples as int, self.step()),
    {
        let step = self.step_samples();
        if total_samples == 0 {
            proof {
                lemma_basic_div(step - 1, step as int);
            }
            return 0;
        }
        let whole: usize = total_samples / step;
        proof {
            lemma_steps_over(total_samples as int, step as int);
        }
        if total_samples % step == 0 {
            whole
        } else {
            whole + 1
        }
    }
}

/// The least number of steps that together are at least `total` long.
pub open spec fn steps_over(total: int, step: int) -> int {
    (total + step - 1) / step
}

proof fn lemma_steps_over(total: int, step: int)
    requires
        total > 0,
        step > 0,
    ensures
        total % step == 0 ==> steps_over(total, step) == total / step,
        total % step != 0 ==> steps_over(total, step) == total / step + 1,
        0 <= total / step <= total,
        total % step != 0 ==> total / step < total,
{
    let q = total / step;
    let r = total % step;
    assert(total == step * q + r && 0 <= r < step) by (nonlinear_arith)
        requires
            step > 0,
            q == total / step,
            r == total % step,
    ;
    assert(0 <= q && q <= total && (r != 0 ==> q < total)) by (nonlinear_arith)
        requires
            step > 0,
            total > 0,
            total == step * q + r,
            0 <= r < step,
    ;
    if r == 0 {
        assert((total + step - 1) / step == q) by (nonlinear_arith)
            requires
                step > 0,
                total == step * q,
        ;
    } else {
        assert((total + step - 1) / step == q + 1) by (nonlinear_arith)
            requires
                step > 0,
                total == step * q + r,
                0 < r < step,
        ;
    }
}

// ---------------------------------------------------------------------------
// Windows
// ---------------------------------------------------------------------------

/// A window of samples and its place in the stream.
#[derive(Clone, Debug)]
pub struct StreamChunk<T> {
    pub index: usize,
    pub start_sample: usize,
    pub end_sample: usize,
    pub samples: Vec<T>,
    pub is_partial: bool,
}

#[verifier::ext_equal]
pub struct StreamChunkView<T> {
    pub index: int,
    pub start_sample: int,
    pub end_sample: int,
    pub samples: Seq<T>,
    pub is_partial: bool,
}

impl<T> View for StreamChunk<T> {
    type V = StreamChunkView<T>;

    open spec fn view(&self) -> StreamChunkView<T> {
        StreamChunkView {
            index: self.index as int,
            start_sample: self.start_sample as int,
            end_sample: self.end_sample as int,
            samples: self.samples@,
            is_partial: self.is_partial,
        }
    }
}

pub open spec fn chunk_views<T>(chunks: Seq<StreamChunk<T>>) -> Seq<StreamChunkView<T>> {
    Seq::new(chunks.len(), |i: int| chunks[i]@)
}

impl<T> StreamChunk<T> {
    pub open spec fn status_text(self, total_chunks: int, overlap_seconds: int) -> Seq<char> {
        "chunk "@ + decimal((self.index + 1) as nat) + "/"@ + decimal(
            (if total_chunks >= 1 {
                total_chunks
            } else {
                1
            }) as nat,
        ) + " / samples "@ + decimal(self.start_sample as nat) + ".."@ + decimal(
            self.end_sample as nat,
        ) + " / "@ + decimal(overlap_seconds as nat) + "s overlap"@ + (if self.is_partial {
            " / tail"@
        } else {
            ""@
        })
    }

    pub fn status(&self, total_chunks: usize, overlap_seconds: usize) -> (text: String)
        requires
            self.index < usize::MAX,
        ensures
            text@ == self.status_text(total_chunks as int, overlap_seconds as int),
    {
        let shown_total: usize = if total_chunks >= 1 {
            total_chunks
        } else {
            1
        };
        let mut text = concat3(
            "chunk ",
            decimal_text((self.index + 1) as u64).as_str(),
            "/",
        );
        text.append(decimal_text(shown_total as u64).as_str());
        text.append(" / samples ");
        text.append(decimal_text(self.start_sample as u64).as_str());
        text.append("..");
        text.append(decimal_text(self.end_sample as u64).as_str());
        text.append(" / ");
        text.append(decimal_text(overlap_seconds as u64).as_str());
        text.append("s overlap");
        text.append(if self.is_partial {
            " / tail"
        } else {
            ""
        });
        text
    }
}

/// Cuts a stream of samples into windows.
#[derive(Debug)]
pub struct StreamEngine<T> {
    config: StreamConfig,
    audio_buffer: VecDeque<T>,
    next_chunk_index: usize,
    next_start_sample: usize,
}

/// The samples that are held back, and the number and place of the next window.
#[verifier::ext_equal]
pub struct StreamEngineView<T> {
    pub config: StreamConfig,
    pub buffer: Seq<T>,
    pub next_index: int,
    pub next_start: int,
}

impl<T> View for StreamEngine<T> {
    type V = StreamEngineView<T>;

    closed spec fn view(&self) -> StreamEngineView<T> {
        StreamEngineView {
            config: self.config,
            buffer: self.audio_buffer@,
            next_index: self.next_chunk_index as int,
            next_start: self.next_start_sample as int,
        }
    }
}

impl<T> StreamEngineView<T> {
    /// Windows are numbered no faster than samples.
    pub open spec fn valid(self) -> bool {
        0 <= self.next_index <= self.next_start
    }

    pub open spec fn chunk(self, len: int, is_partial: bool) -> StreamChunkView<T> {
        StreamChunkView {
            index: self.next_index,
            start_sample: self.next_start,
            end_sample: self.next_start + len,
            samples: self.buffer.take(len),
            is_partial,
        }
    }

    pub open spec fn pushed(self, samples: Seq<T>) -> StreamEngineView<T> {
        StreamEngineView { buffer: self.buffer + samples, ..self }
    }

    /// The engine one step further.
    pub open spec fn advanced(self) -> StreamEngineView<T> {
        StreamEngineView {
            config: self.config,
            buffer: self.buffer.skip(min_int(self.config.step(), self.buffer.len() as int)),
            next_index: self.next_index + 1,
            next_start: self.next_start + self.config.step(),
        }
    }

    pub open spec fn has_window(self) -> bool {
        0 < self.config.window_samples <= self.buffer.len()
    }

    /// The whole windows that the held samples make.
    pub open spec fn windows(self) -> Seq<StreamChunkView<T>>
        decreases self.buffer.len(),
    {
        if self.has_window() {
            seq![self.chunk(self.config.window_samples as int, false)] + self.advanced().windows()
        } else {
            seq![]
        }
    }

    /// The engine once its whole windows are taken.
    pub open spec fn drained(self) -> StreamEngineView<T>
        decreases self.buffer.len(),
    {
        if self.has_window() {
            self.advanced().drained()
        } else {
            self
        }
    }

    /// The last window, shorter than the others, of what is left.
    pub open spec fn tail(self) -> Option<StreamChunkView<T>> {
        if self.buffer.len() == 0 {
            None
        } else {
            Some(self.chunk(self.buffer.len() as int, true))
        }
    }

    /// The engine once its last window is taken.
    pub open spec fn finished(self) -> StreamEngineView<T> {
        if self.buffer.len() == 0 {
            self
        } else {
            StreamEngineView { buffer: seq![], ..self.advanced() }
        }
    }
}

impl<T: Copy> StreamEngine<T> {
    pub fn new(config: StreamConfig) -> (engine: Self)
        ensures
            engine@.valid(),
            engine@ == (StreamEngineView {
                config,
                buffer: Seq::<T>::empty(),
                next_index: 0,
                next_start: 0,
            }),
    {
        StreamEngine {
            config,
            audio_buffer: VecDeque::new(),
            next_chunk_index: 0,
            next_start_sample: 0,
        }
    }

    pub fn config(&self) -> (config: &StreamConfig)
        ensures
            *config == self@.config,
    {
        &self.config
    }

    /// Takes samples and gives the windows that they complete.
    pub fn push_audio(&mut self, samples: &[T]) -> (chunks: Vec<StreamChunk<T>>)
        requires
            old(self)@.valid(),
            old(self)@.config.window_samples > 0,
            old(self)@.next_start + old(self)@.buffer.len() + samples@.len() <= usize::MAX,
        ensures
            final(self)@.valid(),
            chunk_views(chunks@) == old(self)@.pushed(samples@).windows(),
            final(self)@ == old(self)@.pushed(samples@).drained(),
    {
        for i in 0..samples.len()
            invariant
                self@ == old(self)@.pushed(samples@.take(i as int)),
        {
            self.audio_buffer.push_back(samples[i]);
            assert(self@ =~= old(self)@.pushed(samples@.take(i + 1)));
        }
        let ghost full = old(self)@.pushed(samples@);
        proof {
            assert(self@ =~= full);
        }
        let mut chunks: Vec<StreamChunk<T>> = Vec::new();
        while self.audio_buffer.len() >= self.config.window_samples
            invariant
                self@.valid(),
                self@.config == old(self)@.config,
                self@.config.window_samples > 0,
                self@.next_start + self@.buffer.len() <= usize::MAX,
                full == old(self)@.pushed(samples@),
                chunk_views(chunks@) + self@.windows() == full.windows(),
                self@.drained() == full.drained(),
            decreases self@.buffer.len(),
        {
            let ghost before = self@;
            let ghost taken = chunks@;
            let chunk = self.build_chunk(self.config.window_samples, false);
            chunks.push(chunk);
            self.advance_audio();
            proof {
                assert(chunk_views(chunks@) =~= chunk_views(taken).push(chunk@));
                assert(before.windows() =~= seq![chunk@] + self@.windows());
                assert(chunk_views(chunks@) + self@.windows() =~= chunk_views(taken)
                    + before.windows());
            }
        }
        assert(chunk_views(chunks@) + self@.windows() =~= chunk_views(chunks@));
        chunks
    }

    /// Gives what is left as a last window, if anything is left.
    pub fn finish_audio(&mut self) -> (chunk: Option<StreamChunk<T>>)
        requires
            old(self)@.valid(),
            old(self)@.buffer.len() > 0 ==> old(self)@.next_start + old(self)@.buffer.len()
                <= usize::MAX && old(self)@.next_start + old(self)@.config.step() <= usize::MAX,
        ensures
            final(self)@.valid(),
            final(self)@ == old(self)@.finished(),
            match chunk {
                Some(chunk) => old(self)@.tail() == Some(chunk@),
                None => old(self)@.tail() is None,
            },
    {
        if self.audio_buffer.len() == 0 {
            return None;
        }
        let remaining = self.audio_buffer.len();
        let chunk = self.build_chunk(remaining, true);
        self.audio_buffer.clear();
        self.next_chunk_index = self.next_chunk_index + 1;
        self.next_start_sample = self.next_start_sample + self.config.step_samples();
        assert(self@ =~= old(self)@.finished());
        Some(chunk)
    }

    fn build_chunk(&self, len: usize, is_partial: bool) -> (chunk: StreamChunk<T>)
        requires
            len <= self@.buffer.len(),
            self@.next_start + len <= usize::MAX,
        ensures
            chunk@ == self@.chunk(len as int, is_partial),
    {
        let mut samples: Vec<T> = Vec::new();
        for i in 0..len
            invariant
                len <= self@.buffer.len(),
                samples@ == self@.buffer.take(i as int),
        {
            samples.push(self.audio_buffer[i]);
            assert(samples@ =~= self@.buffer.take(i + 1));
        }
        StreamChunk {
            index: self.next_chunk_index,
            start_sample: self.next_start_sample,
            end_sample: self.next_start_sample + len,
            samples,
            is_partial,
        }
    }

    fn advance_audio(&mut self)
        requires
            old(self)@.valid(),
            old(self)@.has_window(),
            old(self)@.next_start + old(self)@.buffer.len() <= usize::MAX,
        ensures
            final(self)@.valid(),
            final(self)@ == old(self)@.advanced(),
    {
        let step = self.config.step_samples();
        for i in 0..step
            invariant
                step == old(self)@.config.step() <= old(self)@.buffer.len(),
                self@ == (StreamEngineView { buffer: old(self)@.buffer.skip(i as int), ..old(self)@ }),
        {
            let _ = self.audio_buffer.pop_front();
            assert(self@.buffer =~= old(self)@.buffer.skip(i + 1));
        }
        self.next_chunk_index = self.next_chunk_index + 1;
        self.next_start_sample = self.next_start_sample + step;
        assert(self@ =~= old(self)@.advanced());
    }
}

// ---------------------------------------------------------------------------
// Text between windows
// ---------------------------------------------------------------------------

/// Whether the last `count` words of `previous` are the first `count` words of
/// `current`, up to case and punctuation.
pub open spec fn words_agree(
    previous: Seq<Seq<char>>,
    current: Seq<Seq<char>>,
    count: int,
) -> bool {
    &&& 0 <= count <= previous.len()
    &&& count <= current.len()
    &&& forall|i: int|
        0 <= i < count ==> normalized(#[trigger] previous[previous.len() - count + i])
            == normalized(current[i])
}

/// The greatest count up to `limit`, at which the words agree, or zero.
pub open spec fn overlap_up_to(
    previous: Seq<Seq<char>>,
    current: Seq<Seq<char>>,
    limit: int,
) -> int
    decreases limit,
{
    if limit <= 0 {
        0
    } else if words_agree(previous, current, limit) {
        limit
    } else {
        overlap_up_to(previous, current, limit - 1)
    }
}

/// How many words at the end of `previous` come again at the start of `current`,
/// looking at no more than `max_words`.
pub open spec fn word_overlap(
    previous: Seq<Seq<char>>,
    current: Seq<Seq<char>>,
    max_words: int,
) -> int {
    overlap_up_to(
        previous,
        current,
        min_int(min_int(previous.len() as int, current.len() as int), max_words),
    )
}

/// `current` without the words at its start that end `previous_tail`.
pub open spec fn without_overlap(
    previous_tail: Seq<char>,
    current: Seq<char>,
    max_words: int,
) -> Seq<char> {
    let overlap = word_overlap(words(previous_tail), words(current), max_words);
    if overlap > 0 {
        joined(words(current).skip(overlap), space())
    } else {
        trimmed(current)
    }
}

/// The last words, at most `max_words` of them.
pub open spec fn last_words(list: Seq<Seq<char>>, max_words: int) -> Seq<Seq<char>> {
    if list.len() > max_words {
        list.skip(list.len() - max_words)
    } else {
        list
    }
}

/// The last words of two texts together.
pub open spec fn merged_tail(
    previous_tail: Seq<char>,
    current: Seq<char>,
    max_words: int,
) -> Seq<char> {
    joined(last_words(words(previous_tail) + words(current), max_words), space())
}

/// Two texts one after the other, where the second may repeat the end of the
/// first.
pub open spec fn combined_preview(left: Seq<char>, right: Seq<char>, max_words: int) -> Seq<char> {
    let rest = without_overlap(left, right, max_words);
    if trimmed(left).len() == 0 {
        trimmed(right)
    } else if trimmed(right).len() == 0 {
        trimmed(left)
    } else if rest.len() == 0 {
        trimmed(left) + space() + trimmed(right)
    } else {
        trimmed(left) + space() + trimmed(rest)
    }
}

fn min_usize(a: usize, b: usize) -> (m: usize)
    ensures
        m == min_int(a as int, b as int),
{
    if a <= b {
        a
    } else {
        b
    }
}

/// Whether two lists hold the same words, up to case and punctuation.
pub fn words_match(previous: &[String], current: &[String]) -> (same: bool)
    ensures
        same == (previous@.len() == current@.len() && words_agree(
            texts(previous@),
            texts(current@),
            previous@.len() as int,
        )),
{
    if previous.len() != current.len() {
        return false;
    }
    let ghost left = texts(previous@);
    let ghost right = texts(current@);
    for i in 0..previous.len()
        invariant
            previous@.len() == current@.len(),
            left == texts(previous@),
            right == texts(current@),
            forall|j: int|
                0 <= j < i ==> normalized(#[trigger] left[left.len() - previous@.len() + j])
                    == normalized(right[j]),
    {
        if normalize_word(previous[i].as_str()) != normalize_word(current[i].as_str()) {
            assert(left[left.len() - previous@.len() + i] == previous@[i as int]@);
            return false;
        }
    }
    true
}

/// How many words at the end of `previous` come again at the start of `current`.
pub fn find_word_overlap(previous: &[String], current: &[String], max_dedup_words: usize) -> (count:
    usize)
    ensures
        count == word_overlap(texts(previous@), texts(current@), max_dedup_words as int),
        count <= previous@.len(),
        count <= current@.len(),
        words_agree(texts(previous@), texts(current@), count as int),
{
    let limit = min_usize(min_usize(previous.len(), current.len()), max_dedup_words);
    let ghost left = texts(previous@);
    let ghost right = texts(current@);
    let mut overlap = limit;
    while overlap > 0
        invariant
            left == texts(previous@),
            right == texts(current@),
            overlap <= limit <= previous@.len(),
            limit <= current@.len(),
            limit == min_int(
                min_int(previous@.len() as int, current@.len() as int),
                max_dedup_words as int,
            ),
            overlap_up_to(left, right, limit as int) == overlap_up_to(left, right, overlap as int),
        decreases overlap,
    {
        let from = previous.len() - overlap;
        let previous_slice = &previous[from..previous.len()];
        let current_slice = &current[0..overlap];
        proof {
            let a = texts(previous_slice@);
            let b = texts(current_slice@);
            assert forall|i: int| 0 <= i < overlap implies (#[trigger] a[i]) == left[left.len()
                - overlap + i] && b[i] == right[i] by {}
            assert(words_agree(left, right, overlap as int) ==> words_agree(a, b, overlap as int)) by {
                if words_agree(left, right, overlap as int) {
                    assert forall|i: int| 0 <= i < overlap implies normalized(
                        #[trigger] a[a.len() - overlap + i],
                    ) == normalized(b[i]) by {
                        assert(a[i] == left[left.len() - overlap + i]);
                    }
                }
            }
            assert(words_agree(a, b, overlap as int) ==> words_agree(left, right, overlap as int)) by {
                if words_agree(a, b, overlap as int) {
                    assert forall|i: int| 0 <= i < overlap implies normalized(
                        #[trigger] left[left.len() - overlap + i],
                    ) == normalized(right[i]) by {
                        assert(a[a.len() - overlap + i] == left[left.len() - overlap + i]);
                    }
                }
            }
        }
        if words_match(previous_slice, current_slice) {
            return overlap;
        }
        overlap = overlap - 1;
    }
    0
}

/// `current` without the words at its start that end `previous_tail`.
pub fn trim_stream_overlap(previous_tail: &str, current: &str, max_dedup_words: usize) -> (text:
    String)
    ensures
        text@ == without_overlap(previous_tail@, current@, max_dedup_words as int),
{
    let current_words = split_words(current);
    let previous_words = split_words(previous_tail);
    let overlap = find_word_overlap(
        previous_words.as_slice(),
        current_words.as_slice(),
        max_dedup_words,
    );
    if overlap > 0 {
        proof {
            lemma_space_literal();
        }
        let text = join_range(current_words.as_slice(), overlap, current_words.len(), " ");
        assert(words(current@).skip(overlap as int) =~= words(current@).subrange(
            overlap as int,
            words(current@).len() as int,
        ));
        return text;
    }
    current.trim().to_string()
}

/// The last words of two texts together.
pub fn merge_stream_tail(previous_tail: &str, current: &str, max_dedup_words: usize) -> (text:
    String)
    ensures
        text@ == merged_tail(previous_tail@, current@, max_dedup_words as int),
{
    let mut list = split_words(previous_tail);
    let mut more = split_words(current);
    let ghost all = words(previous_tail@) + words(current@);
    let ghost first = list@;
    let ghost second = more@;
    list.append(&mut more);
    assert(list@ == first + second);
    assert(texts(list@) =~= texts(first) + texts(second));
    let from = if list.len() > max_dedup_words {
        list.len() - max_dedup_words
    } else {
        0
    };
    proof {
        lemma_space_literal();
    }
    assert(last_words(all, max_dedup_words as int) =~= all.subrange(from as int, all.len() as int));
    join_range(list.as_slice(), from, list.len(), " ")
}

/// Two texts one after the other, where the second may repeat the end of the
/// first.
pub fn combine_preview_texts(left: &str, right: &str, max_dedup_words: usize) -> (text: String)
    ensures
        text@ == combined_preview(left@, right@, max_dedup_words as int),
{
    let left_trimmed = left.trim();
    let right_trimmed = right.trim();
    if left_trimmed.is_empty() {
        return right_trimmed.to_string();
    }
    if right_trimmed.is_empty() {
        return left_trimmed.to_string();
    }
    let rest = trim_stream_overlap(left, right, max_dedup_words);
    proof {
        lemma_space_literal();
    }
    if rest.as_str().is_empty() {
        concat3(left_trimmed, " ", right_trimmed)
    } else {
        concat3(left_trimmed, " ", rest.as_str().trim())
    }
}

/// What a pair of windows settles, and what it shows for the time being.
#[derive(Clone, Debug, Default, PartialEq, Eq)]
pub struct StreamTextUpdate {
    pub confirmed_text: Option<String>,
    pub preview_text: Option<String>,
}

pub open spec fn nonempty(text: Seq<char>) -> Option<Seq<char>> {
    if text.len() == 0 {
        None
    } else {
        Some(text)
    }
}

/// Settles the words of overlapping windows.
#[derive(Debug)]
pub struct StreamTranscriptController {
    max_dedup_words: usize,
    carry_hold_words: usize,
    confirmed_tail: String,
}

/// The limits of a controller and the last words that it has settled.
#[verifier::ext_equal]
pub struct ControllerView {
    pub max_words: int,
    pub hold_words: int,
    pub tail: Seq<char>,
}

impl View for StreamTranscriptController {
    type V = ControllerView;

    closed spec fn view(&self) -> ControllerView {
        ControllerView {
            max_words: self.max_dedup_words as int,
            hold_words: self.carry_hold_words as int,
            tail: self.confirmed_tail@,
        }
    }
}

impl ControllerView {
    /// `text` without what was settled before.
    pub open spec fn clean(self, text: Seq<char>) -> Seq<char> {
        without_overlap(self.tail, text, self.max_words)
    }

    pub open spec fn confirmed(self, text: Seq<char>) -> ControllerView {
        if trimmed(text).len() == 0 {
            self
        } else {
            ControllerView { tail: merged_tail(self.tail, trimmed(text), self.max_words), ..self }
        }
    }

    /// The words at the end of the previous window that the current one repeats.
    pub open spec fn repeated(self, previous: Seq<char>, current: Seq<char>) -> int {
        word_overlap(
            words(self.clean(previous)),
            words(self.clean(current)),
            self.max_words,
        )
    }

    /// The words at the end of the previous window that are kept back since the
    /// current one repeats none and no silence parts the two.
    pub open spec fn carried(self, previous: Seq<char>, current: Seq<char>, silent: bool) -> int {
        if self.repeated(previous, current) > 0 || silent {
            0
        } else {
            min_int(self.hold_words, words(self.clean(previous)).len() as int)
        }
    }

    /// The words of the previous window that are settled.
    pub open spec fn settled_words(
        self,
        previous: Seq<char>,
        current: Seq<char>,
        silent: bool,
    ) -> Seq<Seq<char>> {
        let list = words(self.clean(previous));
        list.take(
            list.len() - self.repeated(previous, current) - self.carried(previous, current, silent),
        )
    }

    /// The words of the previous window that may still change.
    pub open spec fn held_words(
        self,
        previous: Seq<char>,
        current: Seq<char>,
        silent: bool,
    ) -> Seq<Seq<char>> {
        let list = words(self.clean(previous));
        list.skip(
            list.len() - self.repeated(previous, current) - self.carried(previous, current, silent),
        )
    }

    /// The controller after the step from one window to the next.
    pub open spec fn resolved(
        self,
        previous: Seq<char>,
        current: Seq<char>,
        silent: bool,
    ) -> ControllerView {
        self.confirmed(joined(self.settled_words(previous, current, silent), space()))
    }

    pub open spec fn resolved_text(
        self,
        previous: Seq<char>,
        current: Seq<char>,
        silent: bool,
    ) -> Option<Seq<char>> {
        nonempty(joined(self.settled_words(previous, current, silent), space()))
    }

    pub open spec fn resolved_preview(
        self,
        previous: Seq<char>,
        current: Seq<char>,
        silent: bool,
    ) -> Option<Seq<char>> {
        let after = self.resolved(previous, current, silent);
        if self.carried(previous, current, silent) == 0 {
            nonempty(after.clean(self.clean(current)))
        } else {
            nonempty(
                after.clean(
                    combined_preview(
                        joined(self.held_words(previous, current, silent), space()),
                        self.clean(current),
                        self.max_words,
                    ),
                ),
            )
        }
    }
}

impl StreamTranscriptController {
    pub fn new(config: &StreamConfig) -> (controller: Self)
        ensures
            controller@ == (ControllerView {
                max_words: config.max_dedup_words as int,
                hold_words: min_int(config.hold_words as int, MAX_CARRY_WORDS as int),
                tail: Seq::<char>::empty(),
            }),
    {
        StreamTranscriptController {
            max_dedup_words: config.max_dedup_words,
            carry_hold_words: min_usize(config.hold_words, MAX_CARRY_WORDS),
            confirmed_tail: String::new(),
        }
    }

    /// The text of a window without what was settled before.
    pub fn preview_text(&self, raw_text: &str) -> (text: Option<String>)
        ensures
            opt_text(text) == nonempty(self@.clean(raw_text@)),
    {
        let preview = trim_stream_overlap(
            self.confirmed_tail.as_str(),
            raw_text,
            self.max_dedup_words,
        );
        if preview.as_str().is_empty() {
            None
        } else {
            Some(preview)
        }
    }

    /// Settles what it can of the previous window, now that the current one is
    /// known.
    pub fn resolve_next_window(
        &mut self,
        previous_text: &str,
        current_text: &str,
        boundary_is_silent: bool,
    ) -> (update: StreamTextUpdate)
        ensures
            final(self)@ == old(self)@.resolved(previous_text@, current_text@, boundary_is_silent),
            opt_text(update.confirmed_text) == old(self)@.resolved_text(
                previous_text@,
                current_text@,
                boundary_is_silent,
            ),
            opt_text(update.preview_text) == old(self)@.resolved_preview(
                previous_text@,
                current_text@,
                boundary_is_silent,
            ),
    {
        let previous_clean = trim_stream_overlap(
            self.confirmed_tail.as_str(),
            previous_text,
            self.max_dedup_words,
        );
        let current_clean = trim_stream_overlap(
            self.confirmed_tail.as_str(),
            current_text,
            self.max_dedup_words,
        );
        let previous_words = split_words(previous_clean.as_str());
        let current_words = split_words(current_clean.as_str());
        let overlap_words = find_word_overlap(
            previous_words.as_slice(),
            current_words.as_slice(),
            self.max_dedup_words,
        );
        let carry_words: usize = if overlap_words > 0 || boundary_is_silent {
            0
        } else {
            min_usize(self.carry_hold_words, previous_words.len())
        };
        let unresolved_words: usize = if overlap_words > carry_words {
            overlap_words
        } else {
            carry_words
        };
        let settled: usize = previous_words.len() - unresolved_words;
        let ghost list = words(old(self)@.clean(previous_text@));
        proof {
            lemma_space_literal();
            assert(list.take(settled as int) =~= list.subrange(0, settled as int));
            assert(list.skip(settled as int) =~= list.subrange(settled as int, list.len() as int));
            lemma_words_are_words(old(self)@.clean(previous_text@));
            lemma_joined_is_trimmed(list.take(settled as int));
        }
        let confirmed_text = if settled == 0 {
            None
        } else {
            let text = join_range(previous_words.as_slice(), 0, settled, " ");
            self.confirm_text(text.as_str())
        };
        let preview_text = if overlap_words > 0 || carry_words == 0 {
            self.preview_text(current_clean.as_str())
        } else {
            let carry_prefix = join_range(
                previous_words.as_slice(),
                previous_words.len() - carry_words,
                previous_words.len(),
                " ",
            );
            let combined = combine_preview_texts(
                carry_prefix.as_str(),
                current_clean.as_str(),
                self.max_dedup_words,
            );
            self.preview_text(combined.as_str())
        };
        StreamTextUpdate { confirmed_text, preview_text }
    }

    /// Settles a window that no other follows.
    pub fn finalize_window(&mut self, text: &str) -> (confirmed: Option<String>)
        ensures
            final(self)@ == old(self)@.confirmed(old(self)@.clean(text@)),
            opt_text(confirmed) == nonempty(trimmed(old(self)@.clean(text@))),
    {
        let final_text = trim_stream_overlap(
            self.confirmed_tail.as_str(),
            text,
            self.max_dedup_words,
        );
        self.confirm_text(final_text.as_str())
    }

    pub fn confirm_text(&mut self, text: &str) -> (confirmed: Option<String>)
        ensures
            final(self)@ == old(self)@.confirmed(text@),
            opt_text(confirmed) == nonempty(trimmed(text@)),
    {
        let text = text.trim();
        if text.is_empty() {
            return None;
        }
        self.confirmed_tail = merge_stream_tail(
            self.confirmed_tail.as_str(),
            text,
            self.max_dedup_words,
        );
        Some(text.to_string())
    }
}

} // verus!
