//! Transcribing a live stream while it arrives.

use vstd::prelude::*;
use vstd::string::StringExecFns;

use crate::dynamic_chunk::{
    flattened, frame_rest, frame_samples, law_frames_add_up, law_frames_are_the_stream,
    law_live_limits_are_times, whole_frames, DynamicChunkConfig, DynamicChunkError, LIVE_CONTINUATION_MS,
};
use crate::text::{begins_with, concat3, opt_str, starts_with, trimmed};
use crate::text_laws::law_texts_begin_with_their_start;

verus! {

/// How many bytes make another look at the stream worth while.
pub const LIVE_MIN_DECODE_BYTES: usize = 65536;

/// After how many milliseconds any bytes do.
pub const LIVE_DECODE_INTERVAL_MS: u64 = 450;

/// How many seconds of sound go to the model at a time.
pub const LIVE_NATIVE_CHUNK_SECONDS: usize = 6;

// ---------------------------------------------------------------------------
// Kinds of streams
// ---------------------------------------------------------------------------

#[derive(Clone, Copy, Debug, PartialEq, Eq, Structural)]
pub enum LiveKind {
    /// Samples without a container.
    Raw,
    /// A media file that grows.
    Media,
}

/// A web page came in place of sound.
#[derive(Debug)]
pub struct LivePage {
    pub source_url: String,
}

impl LivePage {
    pub open spec fn text(self) -> Seq<char> {
        "`--live` expected a media stream, but `"@ + self.source_url@
            + "` returned HTML; if this is your local mic server, use the stream endpoint such as `"@
            + self.source_url@ + "/stream`"@
    }

    pub fn message(&self) -> (text: String)
        ensures
            text@ == self.text(),
    {
        let mut text = concat3(
            "`--live` expected a media stream, but `",
            self.source_url.as_str(),
            "` returned HTML; if this is your local mic server, use the stream endpoint such as `",
        );
        text.append(self.source_url.as_str());
        text.append("/stream`");
        text
    }
}

pub open spec fn has_type(content_type: Option<Seq<char>>, wanted: Seq<char>) -> bool {
    match content_type {
        Some(found) => begins_with(found, wanted),
        None => false,
    }
}

pub fn live_stream_looks_like_raw_pcm(content_type: Option<&str>) -> (yes: bool)
    ensures
        yes == has_type(opt_str(content_type), "application/octet-stream"@),
{
    match content_type {
        Some(found) => starts_with(found, "application/octet-stream"),
        None => false,
    }
}

pub fn live_stream_looks_like_html(content_type: Option<&str>) -> (yes: bool)
    ensures
        yes == has_type(opt_str(content_type), "text/html"@),
{
    match content_type {
        Some(found) => starts_with(found, "text/html"),
        None => false,
    }
}

/// What a stream brings, by the content type that it names.
pub fn live_kind(source_url: &str, content_type: Option<&str>) -> (kind: Result<LiveKind, LivePage>)
    ensures
        match kind {
            Ok(LiveKind::Raw) => has_type(opt_str(content_type), "application/octet-stream"@),
            Ok(LiveKind::Media) => !has_type(opt_str(content_type), "application/octet-stream"@)
                && !has_type(opt_str(content_type), "text/html"@),
            Err(page) => page.source_url@ == source_url@ && !has_type(
                opt_str(content_type),
                "application/octet-stream"@,
            ) && has_type(opt_str(content_type), "text/html"@),
        },
{
    if live_stream_looks_like_raw_pcm(content_type) {
        Ok(LiveKind::Raw)
    } else if live_stream_looks_like_html(content_type) {
        Err(LivePage { source_url: source_url.to_string() })
    } else {
        Ok(LiveKind::Media)
    }
}

// ---------------------------------------------------------------------------
// Chunks
// ---------------------------------------------------------------------------

/// The samples that go to the model at a time.
pub fn live_chunk_samples(sample_rate: usize) -> (samples: usize)
    requires
        sample_rate * LIVE_NATIVE_CHUNK_SECONDS <= usize::MAX,
    ensures
        samples == sample_rate * LIVE_NATIVE_CHUNK_SECONDS,
{
    sample_rate * LIVE_NATIVE_CHUNK_SECONDS
}

/// How speech is told from silence, where the user wants it so.
pub fn live_vad_config(use_vad: bool, sample_rate: usize) -> (config: Result<
    Option<DynamicChunkConfig>,
    DynamicChunkError,
>)
    requires
        use_vad ==> sample_rate * LIVE_CONTINUATION_MS <= usize::MAX,
    ensures
        match config {
            Ok(None) => !use_vad,
            Ok(Some(config)) => use_vad && sample_rate > 0 && config == live_limits(
                sample_rate as int,
            ),
            Err(error) => use_vad && sample_rate == 0 && error == DynamicChunkError::ZeroSampleRate,
        },
{
    if !use_vad {
        return Ok(None);
    }
    let window = live_chunk_samples(sample_rate);
    match DynamicChunkConfig::for_live_stream(sample_rate, window) {
        Ok(config) => Ok(Some(config)),
        Err(error) => Err(error),
    }
}

/// The limits of segments in a live stream: one chunk at most.
pub open spec fn live_limits(sample_rate: int) -> DynamicChunkConfig {
    DynamicChunkConfig::for_live(sample_rate, sample_rate * LIVE_NATIVE_CHUNK_SECONDS)
}

/// Cuts a live stream into chunks of one length.
pub struct LiveChunker<T> {
    pending: Vec<T>,
    chunk_samples: usize,
}

#[verifier::ext_equal]
pub struct LiveChunkerView<T> {
    /// Samples that do not fill a chunk yet.
    pub pending: Seq<T>,
    pub size: int,
}

impl<T> View for LiveChunker<T> {
    type V = LiveChunkerView<T>;

    closed spec fn view(&self) -> LiveChunkerView<T> {
        LiveChunkerView { pending: self.pending@, size: self.chunk_samples as int }
    }
}

impl<T> LiveChunkerView<T> {
    /// The chunks that more samples complete; at the end also what is left.
    pub open spec fn chunks(self, samples: Seq<T>, last: bool) -> Seq<Seq<T>> {
        let all = self.pending + samples;
        let rest = frame_rest(all, self.size);
        if last && rest.len() > 0 {
            whole_frames(all, self.size).push(rest)
        } else {
            whole_frames(all, self.size)
        }
    }

    pub open spec fn step(self, samples: Seq<T>, last: bool) -> LiveChunkerView<T> {
        LiveChunkerView {
            pending: if last {
                Seq::<T>::empty()
            } else {
                frame_rest(self.pending + samples, self.size)
            },
            size: self.size,
        }
    }
}

impl<T: Copy> LiveChunker<T> {
    pub fn new(chunk_samples: usize) -> (chunker: Self)
        ensures
            chunker@ == (LiveChunkerView {
                pending: Seq::<T>::empty(),
                size: chunk_samples as int,
            }),
    {
        let chunker = LiveChunker { pending: Vec::new(), chunk_samples };
        assert(chunker@.pending =~= Seq::<T>::empty());
        chunker
    }

    /// Takes samples and gives the chunks to transcribe.
    pub fn push(&mut self, samples: &[T], last: bool) -> (chunks: Vec<Vec<T>>)
        requires
            old(self)@.size > 0,
        ensures
            frame_samples(chunks@) == old(self)@.chunks(samples@, last),
            final(self)@ == old(self)@.step(samples@, last),
    {
        let ghost all = old(self)@.pending + samples@;
        let ghost size = old(self)@.size;
        for i in 0..samples.len()
            invariant
                self.chunk_samples == old(self).chunk_samples,
                self.pending@ == old(self)@.pending + samples@.take(i as int),
        {
            self.pending.push(samples[i]);
            assert(self.pending@ =~= old(self)@.pending + samples@.take(i + 1));
        }
        assert(self.pending@ =~= all);
        let mut chunks: Vec<Vec<T>> = Vec::new();
        assert(frame_samples(chunks@) + whole_frames(all, size) =~= whole_frames(all, size));
        while self.pending.len() >= self.chunk_samples
            invariant
                size == self.chunk_samples > 0,
                self.chunk_samples == old(self).chunk_samples,
                frame_samples(chunks@) + whole_frames(self.pending@, size) == whole_frames(
                    all,
                    size,
                ),
                frame_rest(self.pending@, size) == frame_rest(all, size),
            decreases self.pending@.len(),
        {
            let ghost before = self.pending@;
            let ghost taken = chunks@;
            let tail = self.pending.split_off(self.chunk_samples);
            let mut chunk = tail;
            core::mem::swap(&mut chunk, &mut self.pending);
            chunks.push(chunk);
            proof {
                assert(before.subrange(0, size) =~= before.take(size));
                assert(self.pending@ =~= before.skip(size));
                assert(frame_samples(chunks@) =~= frame_samples(taken).push(before.take(size)));
                assert(whole_frames(before, size) =~= seq![before.take(size)] + whole_frames(
                    before.skip(size),
                    size,
                ));
                assert(frame_samples(chunks@) + whole_frames(self.pending@, size)
                    =~= frame_samples(taken) + whole_frames(before, size));
            }
        }
        assert(frame_samples(chunks@) + whole_frames(self.pending@, size) =~= frame_samples(
            chunks@,
        ));
        if last && self.pending.len() > 0 {
            let ghost taken = chunks@;
            let mut rest: Vec<T> = Vec::new();
            core::mem::swap(&mut rest, &mut self.pending);
            chunks.push(rest);
            assert(frame_samples(chunks@) =~= frame_samples(taken).push(frame_rest(all, size)));
        }
        assert(self@ =~= old(self)@.step(samples@, last));
        chunks
    }
}

/// The chunks of a stream that came in two pieces are those of the whole stream,
/// and together they are its samples.
pub proof fn law_live_chunks_are_the_stream<T>(first: Seq<T>, second: Seq<T>, size: int)
    requires
        size > 0,
    ensures
        ({
            let start = LiveChunkerView { pending: Seq::<T>::empty(), size };
            let chunks = start.chunks(first, false) + start.step(first, false).chunks(second, true);
            &&& chunks == start.chunks(first + second, true)
            &&& flattened(chunks) == first + second
        }),
{
    let start = LiveChunkerView { pending: Seq::<T>::empty(), size };
    let all = first + second;
    assert(start.pending + first =~= first);
    assert(start.pending + all =~= all);
    law_frames_add_up(first, second, size);
    let chunks = start.chunks(first, false) + start.step(first, false).chunks(second, true);
    assert(chunks =~= start.chunks(all, true));
    law_frames_are_the_stream(all, size);
    let rest = frame_rest(all, size);
    if rest.len() > 0 {
        lemma_flattened_push(whole_frames(all, size), rest);
    } else {
        assert(flattened(whole_frames(all, size)) + rest =~= flattened(whole_frames(all, size)));
    }
}

proof fn lemma_flattened_push<T>(parts: Seq<Seq<T>>, last: Seq<T>)
    ensures
        flattened(parts.push(last)) == flattened(parts) + last,
    decreases parts.len(),
{
    let longer = parts.push(last);
    if parts.len() == 0 {
        assert(longer.drop_first() =~= Seq::<Seq<T>>::empty());
        assert(flattened(longer.drop_first()) =~= Seq::<T>::empty());
        assert(flattened(longer) =~= last);
        assert(flattened(parts) + last =~= last);
    } else {
        assert(longer.drop_first() =~= parts.drop_first().push(last));
        lemma_flattened_push(parts.drop_first(), last);
        assert(flattened(longer) =~= flattened(parts) + last);
    }
}

/// What a chunk says, where it says anything.
pub fn spoken_text(text: &str) -> (spoken: Option<String>)
    ensures
        match spoken {
            Some(spoken) => trimmed(text@).len() > 0 && spoken@ == trimmed(text@),
            None => trimmed(text@).len() == 0,
        },
{
    let trimmed_text = text.trim();
    if trimmed_text.is_empty() {
        None
    } else {
        Some(trimmed_text.to_string())
    }
}

// ---------------------------------------------------------------------------
// Media that grows
// ---------------------------------------------------------------------------

/// What to do with bytes of a live stream.
#[derive(Clone, Copy, Debug, PartialEq, Eq, Structural)]
pub enum LiveAction {
    /// There are none.
    Ignore,
    /// Keep them.
    Append,
    /// Keep them and decode what there is.
    AppendAndDecode,
}

/// A live stream that is kept in a file and decoded again and again.
pub struct LiveSession {
    decoded_samples: usize,
    bytes_since_decode: usize,
    heard: bool,
    last_error: Option<String>,
}

#[verifier::ext_equal]
pub struct LiveView {
    /// How many samples have been heard.
    pub decoded: int,
    /// How many bytes have come since the last look.
    pub waiting: int,
    /// Whether anything has been heard.
    pub heard: bool,
    /// What stopped the last look, if anything.
    pub error: Option<Seq<char>>,
}

/// Nothing in the stream could be decoded.
#[derive(Debug)]
pub struct LiveFailure {
    pub cause: Option<String>,
}

impl LiveFailure {
    pub open spec fn text(self) -> Seq<char> {
        match self.cause {
            Some(cause) => "failed to decode buffered live media stream"@ + ": "@ + cause@,
            None => "failed to decode buffered live media stream"@,
        }
    }

    pub fn message(&self) -> (text: String)
        ensures
            text@ == self.text(),
    {
        match &self.cause {
            Some(cause) => concat3(
                "failed to decode buffered live media stream",
                ": ",
                cause.as_str(),
            ),
            None => "failed to decode buffered live media stream".to_string(),
        }
    }
}

impl LiveView {
    /// Time to look: enough bytes have come, or enough time has gone by.
    pub open spec fn looks(self, bytes: int, elapsed_ms: int) -> bool {
        self.waiting + bytes >= LIVE_MIN_DECODE_BYTES || elapsed_ms >= LIVE_DECODE_INTERVAL_MS
    }

    pub open spec fn action(self, bytes: int, elapsed_ms: int) -> LiveAction {
        if bytes == 0 {
            LiveAction::Ignore
        } else if self.looks(bytes, elapsed_ms) {
            LiveAction::AppendAndDecode
        } else {
            LiveAction::Append
        }
    }

    pub open spec fn after_bytes(self, bytes: int, elapsed_ms: int) -> LiveView {
        LiveView {
            waiting: if bytes == 0 {
                self.waiting
            } else if self.looks(bytes, elapsed_ms) {
                0
            } else {
                self.waiting + bytes
            },
            ..self
        }
    }

    /// A look counts where there is more than before.
    pub open spec fn after_look(self, samples: nat) -> LiveView {
        if samples <= self.decoded {
            self
        } else {
            LiveView { decoded: samples as int, heard: true, error: None, ..self }
        }
    }
}

/// What a look brings that was not heard before.
pub open spec fn fresh<T>(heard: int, snapshot: Seq<T>) -> Option<Seq<T>> {
    if snapshot.len() <= heard {
        None
    } else {
        Some(snapshot.skip(heard))
    }
}

impl View for LiveSession {
    type V = LiveView;

    closed spec fn view(&self) -> LiveView {
        LiveView {
            decoded: self.decoded_samples as int,
            waiting: self.bytes_since_decode as int,
            heard: self.heard,
            error: match self.last_error {
                Some(error) => Some(error@),
                None => None,
            },
        }
    }
}

impl LiveSession {
    pub fn new() -> (session: Self)
        ensures
            session@ == (LiveView { decoded: 0, waiting: 0, heard: false, error: None }),
    {
        LiveSession {
            decoded_samples: 0,
            bytes_since_decode: 0,
            heard: false,
            last_error: None,
        }
    }

    /// Takes note of bytes that came so long after the last look.
    pub fn on_bytes(&mut self, bytes: usize, elapsed_ms: u64) -> (action: LiveAction)
        ensures
            action == old(self)@.action(bytes as int, elapsed_ms as int),
            final(self)@ == old(self)@.after_bytes(bytes as int, elapsed_ms as int),
    {
        if bytes == 0 {
            return LiveAction::Ignore;
        }
        let few = bytes < LIVE_MIN_DECODE_BYTES && self.bytes_since_decode < LIVE_MIN_DECODE_BYTES
            - bytes;
        if few && elapsed_ms < LIVE_DECODE_INTERVAL_MS {
            self.bytes_since_decode = self.bytes_since_decode + bytes;
            return LiveAction::Append;
        }
        self.bytes_since_decode = 0;
        LiveAction::AppendAndDecode
    }

    /// Takes all samples that a look gives and hands on those that are new.
    pub fn on_decoded<T: Copy>(&mut self, samples: &[T]) -> (new_samples: Option<Vec<T>>)
        ensures
            final(self)@ == old(self)@.after_look(samples@.len()),
            match new_samples {
                Some(new_samples) => fresh(old(self)@.decoded, samples@) == Some(new_samples@),
                None => fresh(old(self)@.decoded, samples@) is None,
            },
    {
        let heard = self.decoded_samples;
        if samples.len() <= heard {
            return None;
        }
        let mut new_samples: Vec<T> = Vec::new();
        for i in heard..samples.len()
            invariant
                heard <= samples@.len(),
                new_samples@ == samples@.subrange(heard as int, i as int),
        {
            new_samples.push(samples[i]);
            assert(new_samples@ =~= samples@.subrange(heard as int, i + 1));
        }
        assert(samples@.subrange(heard as int, samples@.len() as int) =~= samples@.skip(
            heard as int,
        ));
        self.decoded_samples = samples.len();
        self.heard = true;
        self.last_error = None;
        Some(new_samples)
    }

    /// Takes note of a look that failed.
    pub fn on_failure(&mut self, error: String)
        ensures
            final(self)@ == (LiveView { error: Some(error@), ..old(self)@ }),
    {
        self.last_error = Some(error);
    }

    /// The end of the stream: it is a failure only where nothing was ever heard.
    pub fn finish(self) -> (outcome: Result<(), LiveFailure>)
        ensures
            match outcome {
                Ok(()) => self@.heard,
                Err(failure) => !self@.heard && match failure.cause {
                    Some(cause) => self@.error == Some(cause@),
                    None => self@.error is None,
                },
            },
    {
        if self.heard {
            Ok(())
        } else {
            Err(LiveFailure { cause: self.last_error })
        }
    }
}

// ---------------------------------------------------------------------------
// A whole run
// ---------------------------------------------------------------------------

/// What is to be transcribed.
#[derive(Debug)]
pub enum LiveWork<T> {
    /// Chunks, as they are.
    Chunks(Vec<Vec<T>>),
    /// Samples in which speech has yet to be told from silence.
    Samples(Vec<T>),
}

pub enum LiveWorkView<T> {
    Chunks(Seq<Seq<T>>),
    Samples(Seq<T>),
}

impl<T> View for LiveWork<T> {
    type V = LiveWorkView<T>;

    open spec fn view(&self) -> LiveWorkView<T> {
        match self {
            LiveWork::Chunks(chunks) => LiveWorkView::Chunks(frame_samples(chunks@)),
            LiveWork::Samples(samples) => LiveWorkView::Samples(samples@),
        }
    }
}

/// A live stream of media from its first byte to its last.
pub struct LiveRun<T> {
    session: LiveSession,
    chunker: LiveChunker<T>,
    use_vad: bool,
}

#[verifier::ext_equal]
pub struct LiveRunView<T> {
    pub session: LiveView,
    pub chunker: LiveChunkerView<T>,
    pub use_vad: bool,
}

impl<T> View for LiveRun<T> {
    type V = LiveRunView<T>;

    closed spec fn view(&self) -> LiveRunView<T> {
        LiveRunView { session: self.session@, chunker: self.chunker@, use_vad: self.use_vad }
    }
}

impl<T> LiveRunView<T> {
    /// The samples of a look that are new; none where it brings nothing.
    pub open spec fn new_samples(self, look: Result<Seq<T>, Seq<char>>) -> Option<Seq<T>> {
        match look {
            Ok(snapshot) => fresh(self.session.decoded, snapshot),
            Err(_) => None,
        }
    }

    /// What a look gives to transcribe, if anything.
    pub open spec fn work(self, look: Result<Seq<T>, Seq<char>>) -> Option<LiveWorkView<T>> {
        match self.new_samples(look) {
            Some(samples) => Some(
                if self.use_vad {
                    LiveWorkView::Samples(samples)
                } else {
                    LiveWorkView::Chunks(self.chunker.chunks(samples, false))
                },
            ),
            None => None,
        }
    }

    /// The run after a look.
    pub open spec fn after_look(self, look: Result<Seq<T>, Seq<char>>) -> LiveRunView<T> {
        LiveRunView {
            session: match look {
                Ok(snapshot) => self.session.after_look(snapshot.len()),
                Err(error) => LiveView { error: Some(error), ..self.session },
            },
            chunker: match self.new_samples(look) {
                Some(samples) => if self.use_vad {
                    self.chunker
                } else {
                    self.chunker.step(samples, false)
                },
                None => self.chunker,
            },
            use_vad: self.use_vad,
        }
    }
}

pub open spec fn look_view<T>(look: Result<Vec<T>, String>) -> Result<Seq<T>, Seq<char>> {
    match look {
        Ok(samples) => Ok(samples@),
        Err(error) => Err(error@),
    }
}

impl<T: Copy> LiveRun<T> {
    pub fn new(chunk_samples: usize, use_vad: bool) -> (run: Self)
        ensures
            run@ == (LiveRunView {
                session: LiveView { decoded: 0, waiting: 0, heard: false, error: None },
                chunker: LiveChunkerView {
                    pending: Seq::<T>::empty(),
                    size: chunk_samples as int,
                },
                use_vad,
            }),
    {
        LiveRun { session: LiveSession::new(), chunker: LiveChunker::new(chunk_samples), use_vad }
    }

    /// Takes note of bytes that came so long after the last look.
    pub fn on_bytes(&mut self, bytes: usize, elapsed_ms: u64) -> (action: LiveAction)
        ensures
            action == old(self)@.session.action(bytes as int, elapsed_ms as int),
            final(self)@ == (LiveRunView {
                session: old(self)@.session.after_bytes(bytes as int, elapsed_ms as int),
                ..old(self)@
            }),
    {
        self.session.on_bytes(bytes, elapsed_ms)
    }

    /// Takes what a look has decoded, or why it failed, and gives what there is to
    /// transcribe.
    pub fn on_look(&mut self, look: Result<Vec<T>, String>) -> (work: Option<LiveWork<T>>)
        requires
            !old(self)@.use_vad ==> old(self)@.chunker.size > 0,
        ensures
            final(self)@ == old(self)@.after_look(look_view(look)),
            match work {
                Some(work) => old(self)@.work(look_view(look)) == Some(work@),
                None => old(self)@.work(look_view(look)) is None,
            },
    {
        let samples = match look {
            Ok(samples) => samples,
            Err(error) => {
                self.session.on_failure(error);
                return None;
            },
        };
        match self.session.on_decoded(samples.as_slice()) {
            Some(new_samples) => {
                if self.use_vad {
                    Some(LiveWork::Samples(new_samples))
                } else {
                    Some(LiveWork::Chunks(self.chunker.push(new_samples.as_slice(), false)))
                }
            },
            None => None,
        }
    }

    /// The end of the stream, after its last look: what is left to transcribe, and
    /// whether anything was heard at all.
    pub fn finish(self) -> (end: (Vec<Vec<T>>, Result<(), LiveFailure>))
        requires
            !self@.use_vad ==> self@.chunker.size > 0,
        ensures
            frame_samples(end.0@) == (if self@.use_vad {
                Seq::<Seq<T>>::empty()
            } else {
                self@.chunker.chunks(Seq::<T>::empty(), true)
            }),
            match end.1 {
                Ok(()) => self@.session.heard,
                Err(failure) => !self@.session.heard && match failure.cause {
                    Some(cause) => self@.session.error == Some(cause@),
                    None => self@.session.error is None,
                },
            },
    {
        let mut chunker = self.chunker;
        let rest = if self.use_vad {
            let none: Vec<Vec<T>> = Vec::new();
            assert(frame_samples(none@) =~= Seq::<Seq<T>>::empty());
            none
        } else {
            chunker.push(&[], true)
        };
        (rest, self.session.finish())
    }
}

/// All that is heard over a run of looks, some of which may fail.
pub open spec fn heard_over<T>(looks: Seq<Result<Seq<T>, Seq<char>>>) -> Seq<T>
    decreases looks.len(),
{
    if looks.len() == 0 {
        seq![]
    } else {
        let before = heard_over(looks.drop_last());
        match looks.last() {
            Ok(snapshot) => match fresh(before.len() as int, snapshot) {
                Some(more) => before + more,
                None => before,
            },
            Err(_) => before,
        }
    }
}

/// A look that does not fail sees the stream from its start.
pub open spec fn is_look_at<T>(stream: Seq<T>, look: Result<Seq<T>, Seq<char>>) -> bool {
    match look {
        Ok(snapshot) => snapshot.len() <= stream.len() && snapshot == stream.take(
            snapshot.len() as int,
        ),
        Err(_) => true,
    }
}

/// How much of the stream a look sees.
pub open spec fn seen<T>(look: Result<Seq<T>, Seq<char>>) -> nat {
    match look {
        Ok(snapshot) => snapshot.len(),
        Err(_) => 0,
    }
}

/// All that any look has seen is heard, once and in order; looks that fail cost
/// nothing of it.
pub proof fn law_samples_are_heard_once<T>(
    stream: Seq<T>,
    looks: Seq<Result<Seq<T>, Seq<char>>>,
)
    requires
        forall|i: int| 0 <= i < looks.len() ==> is_look_at(stream, #[trigger] looks[i]),
    ensures
        heard_over(looks).len() <= stream.len(),
        heard_over(looks) == stream.take(heard_over(looks).len() as int),
        forall|i: int|
            0 <= i < looks.len() ==> seen(#[trigger] looks[i]) <= heard_over(looks).len(),
    decreases looks.len(),
{
    if looks.len() == 0 {
        assert(stream.take(0) =~= seq![]);
    } else {
        let shorter = looks.drop_last();
        assert forall|i: int| 0 <= i < shorter.len() implies is_look_at(
            stream,
            #[trigger] shorter[i],
        ) by {
            assert(shorter[i] == looks[i]);
        }
        law_samples_are_heard_once(stream, shorter);
        let before = heard_over(shorter);
        assert(is_look_at(stream, looks[looks.len() - 1]));
        match looks.last() {
            Ok(last) => {
                if last.len() > before.len() {
                    assert(before + last.skip(before.len() as int) =~= stream.take(
                        last.len() as int,
                    ));
                }
            },
            Err(_) => {},
        }
        assert forall|i: int| 0 <= i < looks.len() implies seen(#[trigger] looks[i])
            <= heard_over(looks).len() by {
            if i < looks.len() - 1 {
                assert(shorter[i] == looks[i]);
            }
        }
    }
}

/// A run after a number of looks.
pub open spec fn run_after<T>(
    start: LiveRunView<T>,
    looks: Seq<Result<Seq<T>, Seq<char>>>,
) -> LiveRunView<T>
    decreases looks.len(),
{
    if looks.len() == 0 {
        start
    } else {
        run_after(start, looks.drop_last()).after_look(looks.last())
    }
}

/// The chunks that a number of looks give.
pub open spec fn chunks_over<T>(
    start: LiveRunView<T>,
    looks: Seq<Result<Seq<T>, Seq<char>>>,
) -> Seq<Seq<T>>
    decreases looks.len(),
{
    if looks.len() == 0 {
        seq![]
    } else {
        let before = chunks_over(start, looks.drop_last());
        match run_after(start, looks.drop_last()).work(looks.last()) {
            Some(LiveWorkView::Chunks(chunks)) => before + chunks,
            _ => before,
        }
    }
}

/// The samples that a number of looks give, one after the other, for speech to be
/// told from silence.
pub open spec fn samples_over<T>(
    start: LiveRunView<T>,
    looks: Seq<Result<Seq<T>, Seq<char>>>,
) -> Seq<T>
    decreases looks.len(),
{
    if looks.len() == 0 {
        seq![]
    } else {
        let before = samples_over(start, looks.drop_last());
        match run_after(start, looks.drop_last()).work(looks.last()) {
            Some(LiveWorkView::Samples(samples)) => before + samples,
            _ => before,
        }
    }
}

/// A run that nothing has come to yet.
pub open spec fn is_fresh_run<T>(run: LiveRunView<T>) -> bool {
    &&& run.session.decoded == 0
    &&& !run.session.heard
    &&& run.chunker.pending.len() == 0
    &&& !run.use_vad ==> run.chunker.size > 0
}

proof fn lemma_flattened_add<T>(a: Seq<Seq<T>>, b: Seq<Seq<T>>)
    ensures
        flattened(a + b) == flattened(a) + flattened(b),
    decreases b.len(),
{
    if b.len() == 0 {
        assert(a + b =~= a);
        assert(flattened(a) + flattened(b) =~= flattened(a));
    } else {
        lemma_flattened_add(a, b.drop_last());
        assert(a + b =~= (a + b.drop_last()).push(b.last()));
        lemma_flattened_push(a + b.drop_last(), b.last());
        lemma_flattened_push(b.drop_last(), b.last());
        assert(b.drop_last().push(b.last()) =~= b);
        assert(flattened(a + b) =~= flattened(a) + flattened(b));
    }
}

proof fn lemma_run_keeps_samples<T>(
    start: LiveRunView<T>,
    looks: Seq<Result<Seq<T>, Seq<char>>>,
)
    requires
        is_fresh_run(start),
    ensures
        ({
            let run = run_after(start, looks);
            let chunks = chunks_over(start, looks);
            &&& run.use_vad == start.use_vad
            &&& run.chunker.size == start.chunker.size
            &&& run.session.decoded == heard_over(looks).len()
            &&& run.session.heard == (heard_over(looks).len() > 0)
            &&& !start.use_vad ==> flattened(chunks) + run.chunker.pending == heard_over(looks)
            &&& start.use_vad ==> chunks.len() == 0 && samples_over(start, looks) == heard_over(
                looks,
            )
        }),
    decreases looks.len(),
{
    if looks.len() == 0 {
        assert(flattened(chunks_over(start, looks)) + start.chunker.pending =~= heard_over(looks));
    } else {
        let shorter = looks.drop_last();
        lemma_run_keeps_samples(start, shorter);
        let run = run_after(start, shorter);
        let before = chunks_over(start, shorter);
        let size = start.chunker.size;
        match run.new_samples(looks.last()) {
            Some(more) => {
                if !start.use_vad {
                    let all = run.chunker.pending + more;
                    law_frames_are_the_stream(all, size);
                    lemma_flattened_add(before, whole_frames(all, size));
                    assert(flattened(chunks_over(start, looks)) + frame_rest(all, size)
                        =~= flattened(before) + (flattened(whole_frames(all, size)) + frame_rest(
                        all,
                        size,
                    )));
                    assert(flattened(before) + all =~= heard_over(shorter) + more);
                }
            },
            None => {},
        }
    }
}

/// All that was heard of a stream is transcribed, once and in order, whatever
/// looks failed in between: the chunks of all looks and what the end adds are,
/// one after the other, what was heard.
pub proof fn law_all_that_is_heard_is_transcribed<T>(
    start: LiveRunView<T>,
    looks: Seq<Result<Seq<T>, Seq<char>>>,
)
    requires
        is_fresh_run(start),
        !start.use_vad,
    ensures
        flattened(
            chunks_over(start, looks) + run_after(start, looks).chunker.chunks(
                Seq::<T>::empty(),
                true,
            ),
        ) == heard_over(looks),
{
    lemma_run_keeps_samples(start, looks);
    let run = run_after(start, looks);
    let chunks = chunks_over(start, looks);
    let size = start.chunker.size;
    let pending = run.chunker.pending;
    assert(pending + Seq::<T>::empty() =~= pending);
    law_frames_are_the_stream(pending, size);
    let last = run.chunker.chunks(Seq::<T>::empty(), true);
    lemma_flattened_add(chunks, last);
    let rest = frame_rest(pending, size);
    if rest.len() > 0 {
        lemma_flattened_push(whole_frames(pending, size), rest);
    } else {
        assert(flattened(whole_frames(pending, size)) + rest =~= flattened(
            whole_frames(pending, size),
        ));
    }
    assert(flattened(last) == pending);
}

/// Where speech is told from silence, all that was heard is handed on for it, once
/// and in order, and nothing goes to the model past it.
pub proof fn law_all_that_is_heard_is_searched_for_speech<T>(
    start: LiveRunView<T>,
    looks: Seq<Result<Seq<T>, Seq<char>>>,
)
    requires
        is_fresh_run(start),
        start.use_vad,
    ensures
        samples_over(start, looks) == heard_over(looks),
        chunks_over(start, looks).len() == 0,
{
    lemma_run_keeps_samples(start, looks);
}

/// A run fails at its end only where no look ever heard anything.
pub proof fn law_a_run_fails_only_unheard<T>(
    start: LiveRunView<T>,
    looks: Seq<Result<Seq<T>, Seq<char>>>,
)
    requires
        is_fresh_run(start),
    ensures
        run_after(start, looks).session.heard == (heard_over(looks).len() > 0),
{
    lemma_run_keeps_samples(start, looks);
}

/// Between two looks fewer bytes wait than make a look worth while.
pub proof fn law_bytes_never_pile_up(session: LiveView, bytes: int, elapsed_ms: int)
    requires
        0 <= session.waiting < LIVE_MIN_DECODE_BYTES,
        bytes >= 0,
    ensures
        0 <= session.after_bytes(bytes, elapsed_ms).waiting < LIVE_MIN_DECODE_BYTES,
{
}

/// A look is taken just where bytes come and 64 KiB of them have come since the
/// last one, or 450 milliseconds have gone by; till then they are kept and
/// counted, and a look starts the count anew.
pub proof fn law_looks_are_taken_in_time(session: LiveView, bytes: int, elapsed_ms: int)
    requires
        bytes >= 0,
    ensures
        ({
            let action = session.action(bytes, elapsed_ms);
            let after = session.after_bytes(bytes, elapsed_ms);
            let due = session.waiting + bytes >= 64 * 1024 || elapsed_ms >= 450;
            &&& bytes == 0 ==> action == LiveAction::Ignore && after == session
            &&& bytes > 0 && due ==> action == LiveAction::AppendAndDecode && after.waiting == 0
            &&& bytes > 0 && !due ==> action == LiveAction::Append && after.waiting
                == session.waiting + bytes
            &&& after.decoded == session.decoded
            &&& after.heard == session.heard
            &&& after.error == session.error
        }),
{
}

/// Every chunk but the last that the end gives is as long as a chunk is, and no
/// chunk is empty; before the end fewer samples wait than make a chunk, and after
/// it none.
pub proof fn law_live_chunks_are_full<T>(
    chunker: LiveChunkerView<T>,
    samples: Seq<T>,
    last: bool,
    i: int,
)
    requires
        chunker.size > 0,
    ensures
        ({
            let chunks = chunker.chunks(samples, last);
            &&& 0 <= i < chunks.len() ==> 0 < chunks[i].len() <= chunker.size
            &&& 0 <= i < chunks.len() && (!last || i < chunks.len() - 1) ==> chunks[i].len()
                == chunker.size
            &&& chunker.step(samples, last).pending.len() < chunker.size
            &&& last ==> chunker.step(samples, last).pending.len() == 0
            &&& chunker.step(samples, last).size == chunker.size
            &&& !last ==> flattened(chunks) + chunker.step(samples, last).pending
                == chunker.pending + samples
            &&& last ==> flattened(chunks) == chunker.pending + samples
        }),
{
    let all = chunker.pending + samples;
    let rest = frame_rest(all, chunker.size);
    let whole = whole_frames(all, chunker.size);
    law_frames_are_the_stream(all, chunker.size);
    if 0 <= i < whole.len() {
        assert(whole[i].len() == chunker.size);
    }
    if last && rest.len() > 0 {
        lemma_flattened_push(whole, rest);
    } else {
        assert(rest.len() == 0 ==> flattened(whole) + rest =~= flattened(whole));
    }
}

/// What a look finds is told in the end: a failure is remembered until a later one
/// takes its place or new samples are heard; a look that brings nothing new
/// changes nothing.
pub proof fn law_the_last_failure_is_remembered<T>(
    run: LiveRunView<T>,
    look: Result<Seq<T>, Seq<char>>,
)
    ensures
        ({
            let after = run.after_look(look).session;
            &&& look matches Err(error) ==> after.error == Some(error) && after.decoded
                == run.session.decoded && after.heard == run.session.heard
            &&& look matches Ok(snapshot) ==> {
                &&& snapshot.len() > run.session.decoded ==> after.error is None && after.heard
                    && after.decoded == snapshot.len()
                &&& snapshot.len() <= run.session.decoded ==> after == run.session
            }
            &&& after.waiting == run.session.waiting
        }),
{
}

/// What a look brings is transcribed at once, as far as it fills chunks; less than
/// a chunk waits.
pub proof fn law_looks_are_transcribed_at_once<T>(
    run: LiveRunView<T>,
    look: Result<Seq<T>, Seq<char>>,
)
    requires
        !run.use_vad,
        run.chunker.size > 0,
        run.chunker.pending.len() < run.chunker.size,
    ensures
        ({
            let after = run.after_look(look);
            &&& after.chunker.pending.len() < run.chunker.size
            &&& after.chunker.size == run.chunker.size
            &&& !after.use_vad
            &&& look is Ok && 0 <= run.session.decoded && look->Ok_0.len() > run.session.decoded
                ==> (run.work(look) matches Some(LiveWorkView::Chunks(chunks)) && flattened(chunks)
                + after.chunker.pending == run.chunker.pending + look->Ok_0.skip(
                run.session.decoded,
            ))
            &&& look is Err || look->Ok_0.len() <= run.session.decoded ==> run.work(look) is None
                && after.chunker == run.chunker
        }),
{
    match look {
        Ok(snapshot) => {
            if 0 <= run.session.decoded < snapshot.len() {
                law_live_chunks_are_full(
                    run.chunker,
                    snapshot.skip(run.session.decoded),
                    false,
                    0,
                );
            } else if run.session.decoded < 0 {
                law_live_chunks_are_full(
                    run.chunker,
                    snapshot.skip(run.session.decoded),
                    false,
                    0,
                );
            }
        },
        Err(_) => {},
    }
}

/// Where speech is told from silence, what a look brings is handed on as it is.
pub proof fn law_looks_are_handed_on_for_speech<T>(
    run: LiveRunView<T>,
    look: Result<Seq<T>, Seq<char>>,
)
    requires
        run.use_vad,
    ensures
        look is Ok && look->Ok_0.len() > run.session.decoded ==> run.work(look) == Some(LiveWorkView::Samples(look->Ok_0.skip(run.session.decoded))),
        look is Err || look->Ok_0.len() <= run.session.decoded ==> run.work(look) is None,
        run.after_look(look).chunker == run.chunker,
        run.after_look(look).use_vad,
{
}

/// A stream is of a type where the type that it names begins so, whatever follows.
pub proof fn law_types_count_from_their_start(wanted: Seq<char>, rest: Seq<char>, found: Seq<char>)
    ensures
        has_type(Some(wanted + rest), wanted),
        !has_type(None, wanted),
        has_type(Some(found), wanted) ==> found == wanted + found.skip(wanted.len() as int),
{
    law_texts_begin_with_their_start(wanted, rest, found);
}

/// Segments of a live stream last six seconds at most, as long as a chunk, and end
/// in 720 milliseconds of silence.
pub proof fn law_live_segments_fit_a_chunk(sample_rate: int)
    requires
        0 < sample_rate,
        sample_rate * 900 <= usize::MAX,
    ensures
        live_limits(sample_rate).max_segment_samples == sample_rate * 6,
        live_limits(sample_rate).max_silence_frames * 30 == 720,
        live_limits(sample_rate).min_speech_frames * 30 == 180,
        live_limits(sample_rate).pre_roll_samples == live_limits(sample_rate).min_segment_samples,
{
    law_live_limits_are_times(sample_rate, sample_rate * 6);
}

} // verus!
