//! Transcribing a long recording chunk by chunk.

use vstd::prelude::*;
use vstd::string::StringExecFns;

use crate::numbers::min_int;
use crate::text::{concat2, decimal, decimal_text, joined, trimmed};

verus! {

/// Samples from one position up to, not including, another.
#[derive(Clone, Copy, Debug, PartialEq, Eq, Structural)]
pub struct SampleRange {
    pub start: usize,
    pub end: usize,
}

/// How many chunks a recording takes.
pub open spec fn chunk_count(total: int, max: int) -> int {
    if total <= max {
        1
    } else {
        (total - 1) / max + 1
    }
}

/// The chunk at a position.
pub open spec fn chunk_at(total: int, max: int, i: int) -> SampleRange {
    SampleRange { start: (i * max) as usize, end: min_int((i + 1) * max, total) as usize }
}

/// The chunks of a recording: all as long as they may be, but for the last.
pub open spec fn chunks_of(total: int, max: int) -> Seq<SampleRange> {
    Seq::new(chunk_count(total, max) as nat, |i: int| chunk_at(total, max, i))
}

proof fn lemma_chunk_count(total: int, max: int)
    requires
        total > max > 0,
    ensures
        (chunk_count(total, max) - 1) * max < total <= chunk_count(total, max) * max,
        chunk_count(total, max) >= 2,
{
    let q = (total - 1) / max;
    assert(q * max <= total - 1 < (q + 1) * max) by (nonlinear_arith)
        requires
            max > 0,
            q == (total - 1) / max,
    ;
    assert(q >= 1) by (nonlinear_arith)
        requires
            total - 1 < (q + 1) * max,
            total - 1 >= max,
            max > 0,
    ;
}

proof fn lemma_chunk_bounds(total: int, max: int, i: int)
    requires
        max >= 0,
        total > 0 ==> max > 0,
        0 <= total <= usize::MAX,
        0 <= i < chunk_count(total, max),
    ensures
        0 <= i * max <= total,
        i * max < total || total == 0,
        (i + 1) * max == i * max + max,
        i < chunk_count(total, max) - 1 ==> (i + 1) * max < total,
        i == chunk_count(total, max) - 1 ==> total <= (i + 1) * max,
{
    assert((i + 1) * max == i * max + max) by (nonlinear_arith);
    if total <= max {
        assert(i * max == 0) by (nonlinear_arith)
            requires
                i == 0,
        ;
    } else {
        lemma_chunk_count(total, max);
        let last = chunk_count(total, max) - 1;
        assert(0 <= i * max <= last * max) by (nonlinear_arith)
            requires
                0 <= i <= last,
                max > 0,
        ;
        if i < last {
            assert((i + 1) * max <= last * max) by (nonlinear_arith)
                requires
                    i + 1 <= last,
                    max > 0,
            ;
        }
    }
}

/// Cuts a recording into chunks that are no longer than `max_samples`.
pub fn chunk_ranges(total_samples: usize, max_samples: usize) -> (ranges: Vec<SampleRange>)
    requires
        total_samples > 0 ==> max_samples > 0,
    ensures
        ranges@ == chunks_of(total_samples as int, max_samples as int),
{
    let ghost total = total_samples as int;
    let ghost max = max_samples as int;
    let mut ranges: Vec<SampleRange> = Vec::new();
    let mut start: usize = 0;
    assert(0 * max == 0) by (nonlinear_arith);
    loop
        invariant_except_break
            ranges@.len() < chunk_count(total, max),
            start == ranges@.len() * max,
        invariant
            total_samples > 0 ==> max_samples > 0,
            total == total_samples,
            max == max_samples,
            start <= total,
            forall|i: int|
                0 <= i < ranges@.len() ==> #[trigger] ranges@[i] == chunk_at(total, max, i),
        ensures
            ranges@.len() == chunk_count(total, max),
        decreases total - start,
    {
        let ghost at = ranges@.len() as int;
        proof {
            lemma_chunk_bounds(total, max, at);
        }
        let end = if total_samples - start <= max_samples {
            total_samples
        } else {
            start + max_samples
        };
        ranges.push(SampleRange { start, end });
        if end == total_samples {
            break;
        }
        start = end;
    }
    assert(ranges@ =~= chunks_of(total, max));
    ranges
}

/// The samples of one chunk after another.
pub open spec fn gathered<T>(samples: Seq<T>, ranges: Seq<SampleRange>) -> Seq<T>
    decreases ranges.len(),
{
    if ranges.len() == 0 {
        seq![]
    } else {
        gathered(samples, ranges.drop_last()) + samples.subrange(
            ranges.last().start as int,
            ranges.last().end as int,
        )
    }
}

/// The chunks hold every sample once, in order, and none is longer than it may
/// be; only an empty recording has an empty chunk.
pub proof fn law_chunks_are_the_recording<T>(samples: Seq<T>, max: int)
    requires
        max > 0,
        samples.len() <= usize::MAX,
    ensures
        gathered(samples, chunks_of(samples.len() as int, max)) == samples,
        forall|i: int|
            #![trigger chunks_of(samples.len() as int, max)[i]]
            0 <= i < chunks_of(samples.len() as int, max).len() ==> {
                let range = chunks_of(samples.len() as int, max)[i];
                range.end - range.start <= max && (samples.len() > 0 ==> range.start < range.end)
            },
{
    let total = samples.len() as int;
    let all = chunks_of(total, max);
    let count = chunk_count(total, max);
    if total > max {
        lemma_chunk_count(total, max);
    }
    assert forall|i: int| 0 <= i < all.len() implies ({
        let range = #[trigger] all[i];
        range.end - range.start <= max && (samples.len() > 0 ==> range.start < range.end)
    }) by {
        lemma_chunk_bounds(total, max, i);
    }
    lemma_gathered(samples, max, count);
    assert(all.take(count) =~= all);
    assert(samples.take(total) =~= samples);
    lemma_chunk_bounds(total, max, count - 1);
}

proof fn lemma_gathered<T>(samples: Seq<T>, max: int, k: int)
    requires
        max > 0,
        samples.len() <= usize::MAX,
        0 <= k <= chunk_count(samples.len() as int, max),
    ensures
        gathered(samples, chunks_of(samples.len() as int, max).take(k)) == samples.take(
            min_int(k * max, samples.len() as int),
        ),
    decreases k,
{
    let total = samples.len() as int;
    let all = chunks_of(total, max);
    if total > max {
        lemma_chunk_count(total, max);
    }
    if k == 0 {
        assert(0 * max == 0) by (nonlinear_arith);
        assert(samples.take(0) =~= seq![]);
    } else {
        lemma_gathered(samples, max, k - 1);
        lemma_chunk_bounds(total, max, k - 1);
        assert(all.take(k).drop_last() =~= all.take(k - 1));
        assert(all.take(k).last() == chunk_at(total, max, k - 1));
        assert(samples.take(min_int(k * max, total)) =~= samples.take((k - 1) * max)
            + samples.subrange((k - 1) * max, min_int(k * max, total)));
    }
}

// ---------------------------------------------------------------------------
// The transcript
// ---------------------------------------------------------------------------

/// A recording on its way through a model.
pub struct ChunkedTranscription {
    ranges: Vec<SampleRange>,
    done: usize,
    transcript: String,
    texts: Ghost<Seq<Seq<char>>>,
}

#[verifier::ext_equal]
pub struct ChunkedView {
    pub ranges: Seq<SampleRange>,
    /// How many chunks have been transcribed.
    pub done: int,
    /// What they said, but for those that said nothing.
    pub texts: Seq<Seq<char>>,
}

/// The text of a chunk, with its number and how many there are.
#[derive(Debug)]
pub struct ChunkText {
    pub number: usize,
    pub total: usize,
    pub text: String,
}

impl ChunkedView {
    pub open spec fn step(self, text: Seq<char>) -> ChunkedView {
        ChunkedView {
            ranges: self.ranges,
            done: self.done + 1,
            texts: if trimmed(text).len() == 0 {
                self.texts
            } else {
                self.texts.push(trimmed(text))
            },
        }
    }

    /// The texts, one to a line.
    pub open spec fn transcript(self) -> Seq<char> {
        joined(self.texts, "\n"@)
    }
}

impl View for ChunkedTranscription {
    type V = ChunkedView;

    closed spec fn view(&self) -> ChunkedView {
        ChunkedView { ranges: self.ranges@, done: self.done as int, texts: self.texts@ }
    }
}

proof fn lemma_joined_len(items: Seq<Seq<char>>, separator: Seq<char>)
    requires
        forall|i: int| 0 <= i < items.len() ==> (#[trigger] items[i]).len() > 0,
        items.len() > 0,
    ensures
        joined(items, separator).len() > 0,
    decreases items.len(),
{
    if items.len() > 1 {
        lemma_joined_len(items.drop_last(), separator);
    } else {
        assert(items[0].len() > 0);
    }
}

impl ChunkedTranscription {
    pub closed spec fn inv(self) -> bool {
        &&& self.done <= self.ranges.len()
        &&& self.transcript@ == joined(self.texts@, "\n"@)
        &&& forall|i: int| 0 <= i < self.texts@.len() ==> (#[trigger] self.texts@[i]).len() > 0
    }

    /// Starts on a recording.  An empty one has nothing to transcribe.
    pub fn new(total_samples: usize, max_samples: usize) -> (run: Self)
        requires
            total_samples > 0 ==> max_samples > 0,
        ensures
            run.inv(),
            run@ == (ChunkedView {
                ranges: if total_samples == 0 {
                    seq![]
                } else {
                    chunks_of(total_samples as int, max_samples as int)
                },
                done: 0,
                texts: seq![],
            }),
    {
        let ranges = if total_samples == 0 {
            Vec::new()
        } else {
            chunk_ranges(total_samples, max_samples)
        };
        let run = ChunkedTranscription {
            ranges,
            done: 0,
            transcript: String::new(),
            texts: Ghost(Seq::<Seq<char>>::empty()),
        };
        assert(run.transcript@ =~= joined(run.texts@, "\n"@));
        assert(total_samples == 0 ==> run@.ranges =~= seq![]);
        run
    }

    /// The chunk to transcribe next.
    pub fn next_chunk(&self) -> (range: Option<SampleRange>)
        requires
            self.inv(),
        ensures
            match range {
                Some(range) => self@.done < self@.ranges.len() && range == self@.ranges[self@.done],
                None => self@.done == self@.ranges.len(),
            },
    {
        if self.done < self.ranges.len() {
            Some(self.ranges[self.done])
        } else {
            None
        }
    }

    /// Takes the text of that chunk.  Gives it back for showing, without white
    /// space around it, unless nothing is left.
    pub fn record(&mut self, text: &str) -> (chunk: Option<ChunkText>)
        requires
            old(self).inv(),
            old(self)@.done < old(self)@.ranges.len(),
        ensures
            final(self).inv(),
            final(self)@ == old(self)@.step(text@),
            match chunk {
                Some(chunk) => {
                    &&& trimmed(text@).len() > 0
                    &&& chunk.number == old(self)@.done + 1
                    &&& chunk.total == old(self)@.ranges.len()
                    &&& chunk.text@ == trimmed(text@)
                },
                None => trimmed(text@).len() == 0,
            },
    {
        assert(self.done < self.ranges.len());
        self.done = self.done + 1;
        let trimmed_text = text.trim();
        if trimmed_text.is_empty() {
            assert(self@ =~= old(self)@.step(text@));
            return None;
        }
        let ghost before = self.texts@;
        proof {
            if before.len() > 0 {
                lemma_joined_len(before, "\n"@);
            }
            assert(before.push(trimmed_text@).drop_last() =~= before);
        }
        if !self.transcript.as_str().is_empty() {
            self.transcript.append("\n");
        }
        self.transcript.append(trimmed_text);
        self.texts = Ghost(before.push(trimmed_text@));
        assert(self.transcript@ =~= joined(self.texts@, "\n"@));
        Some(
            ChunkText {
                number: self.done,
                total: self.ranges.len(),
                text: trimmed_text.to_string(),
            },
        )
    }

    /// The texts of all chunks so far, one to a line.
    pub fn into_transcript(self) -> (transcript: String)
        requires
            self.inv(),
        ensures
            transcript@ == self@.transcript(),
    {
        self.transcript
    }
}

/// What is said of a chunk that cannot be transcribed.
pub open spec fn failed_chunk_text(number: int) -> Seq<char> {
    "failed to transcribe chunk "@ + decimal(number as nat)
}

pub fn failed_chunk(number: usize) -> (text: String)
    ensures
        text@ == failed_chunk_text(number as int),
{
    concat2("failed to transcribe chunk ", decimal_text(number as u64).as_str())
}

/// Every chunk but the last is as long as it may be, the first begins with the
/// recording, each begins where the one before it ends, and the last ends with the
/// recording.
pub proof fn law_chunks_are_as_long_as_they_may_be(total: int, max: int)
    requires
        max > 0,
        0 <= total <= usize::MAX,
    ensures
        ({
            let all = chunks_of(total, max);
            &&& all.len() > 0
            &&& all[0].start == 0
            &&& all.last().end == total
            &&& forall|i: int|
                0 <= i < all.len() - 1 ==> (#[trigger] all[i]).end - all[i].start == max
            &&& forall|i: int|
                #![trigger all[i]]
                0 <= i < all.len() - 1 ==> all[i].end == all[i + 1].start
        }),
{
    let all = chunks_of(total, max);
    let count = chunk_count(total, max);
    if total > max {
        lemma_chunk_count(total, max);
    }
    lemma_chunk_bounds(total, max, 0);
    assert(0 * max == 0) by (nonlinear_arith);
    lemma_chunk_bounds(total, max, count - 1);
    assert forall|i: int| 0 <= i < all.len() - 1 implies (#[trigger] all[i]).end - all[i].start
        == max && all[i].end == all[i + 1].start by {
        lemma_chunk_bounds(total, max, i);
        lemma_chunk_bounds(total, max, i + 1);
    }
}

/// Every text that says something goes on a line of its own at the end of the
/// transcript; one that says nothing leaves it as it is.
pub proof fn law_every_text_is_kept(run: ChunkedView, text: Seq<char>)
    requires
        forall|i: int| 0 <= i < run.texts.len() ==> (#[trigger] run.texts[i]).len() > 0,
    ensures
        trimmed(text).len() == 0 ==> run.step(text).transcript() == run.transcript(),
        trimmed(text).len() > 0 && run.transcript().len() == 0 ==> run.step(text).transcript()
            == trimmed(text),
        trimmed(text).len() > 0 && run.transcript().len() > 0 ==> run.step(text).transcript()
            == run.transcript() + "\n"@ + trimmed(text),
        run.step(text).done == run.done + 1,
        run.step(text).ranges == run.ranges,
        run.texts.len() == 0 ==> run.transcript().len() == 0,
        forall|i: int|
            0 <= i < run.step(text).texts.len() ==> (#[trigger] run.step(text).texts[i]).len() > 0,
{
    if run.texts.len() > 0 {
        lemma_joined_len(run.texts, "\n"@);
    }
    if trimmed(text).len() > 0 {
        let more = run.texts.push(trimmed(text));
        assert(more.drop_last() =~= run.texts);
        if run.texts.len() == 0 {
            assert(run.step(text).transcript() =~= trimmed(text));
        } else {
            assert(run.step(text).transcript() =~= run.transcript() + "\n"@ + trimmed(text));
        }
    }
}

/// A run after the texts of a number of chunks.
pub open spec fn run_after(start: ChunkedView, texts: Seq<Seq<char>>) -> ChunkedView
    decreases texts.len(),
{
    if texts.len() == 0 {
        start
    } else {
        run_after(start, texts.drop_last()).step(texts.last())
    }
}

/// The texts without white space around them, but for those that are then empty.
pub open spec fn spoken_texts(texts: Seq<Seq<char>>) -> Seq<Seq<char>> {
    texts.map_values(|text: Seq<char>| trimmed(text)).filter(|text: Seq<char>| text.len() > 0)
}

/// The transcript of a recording is what all its chunks say, in order and one to
/// a line.
pub proof fn law_the_transcript_is_what_was_said(start: ChunkedView, texts: Seq<Seq<char>>)
    requires
        start.texts.len() == 0,
    ensures
        run_after(start, texts).transcript() == joined(spoken_texts(texts), "\n"@),
        run_after(start, texts).texts == spoken_texts(texts),
        run_after(start, texts).done == start.done + texts.len(),
        run_after(start, texts).ranges == start.ranges,
    decreases texts.len(),
{
    reveal(Seq::filter);
    let clean = texts.map_values(|text: Seq<char>| trimmed(text));
    if texts.len() == 0 {
        assert(spoken_texts(texts) =~= start.texts);
    } else {
        let before = texts.drop_last();
        law_the_transcript_is_what_was_said(start, before);
        assert(clean.drop_last() =~= before.map_values(|text: Seq<char>| trimmed(text)));
    }
}

} // verus!
