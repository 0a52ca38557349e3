//! Where a model runs, and how its frame scores become text.
//!
//! Scores are 32-bit floating point numbers, held here as their bit patterns.

use vstd::prelude::*;
use vstd::string::StringExecFns;

use crate::model::ModelComputeType;
use crate::scores::{argmax, best, is_last_highest, law_one_position_is_best};
use crate::numbers::min_int;
use crate::text::{
    all_digits, chars_of, concat2, concat3, decimal, is_digit, is_space, law_numbers_read_back,
    lemma_decimal_digits, lines, parse_usize, parsed_usize, replace_text, replaced, same_text,
    split_lines, string_of, texts, trim_leading_spaces, trimmed, trimmed_start,
    without_leading_spaces, NumberError,
};
use crate::text_laws::{all_space, law_leading_spaces_are_taken, law_trimming_takes_white_space};

verus! {

// ---------------------------------------------------------------------------
// Execution
// ---------------------------------------------------------------------------

/// Where and in which precision a model runs.
#[derive(Clone, Debug)]
pub struct ExecutionMode {
    use_gpu: bool,
    compute_type: ModelComputeType,
    gpu_device: Option<i32>,
}

pub struct ExecutionView {
    pub use_gpu: bool,
    pub compute_type: ModelComputeType,
    pub gpu_device: Option<i32>,
}

impl View for ExecutionMode {
    type V = ExecutionView;

    closed spec fn view(&self) -> ExecutionView {
        ExecutionView {
            use_gpu: self.use_gpu,
            compute_type: self.compute_type,
            gpu_device: self.gpu_device,
        }
    }
}

#[derive(Clone, Copy, Debug, PartialEq, Eq, Structural)]
pub enum ExecutionError {
    NegativeDevice,
    GpuNotSupported,
}

impl ExecutionError {
    pub open spec fn text(self) -> Seq<char> {
        match self {
            ExecutionError::NegativeDevice => "CUDA device index must be non-negative"@,
            ExecutionError::GpuNotSupported =>
                "--gpu requires a build with ONNX Runtime CUDA support, for example `cargo install --features cuda`"@,
        }
    }

    pub fn message(self) -> (text: &'static str)
        ensures
            text@ == self.text(),
    {
        match self {
            ExecutionError::NegativeDevice => "CUDA device index must be non-negative",
            ExecutionError::GpuNotSupported => {
                "--gpu requires a build with ONNX Runtime CUDA support, for example `cargo install --features cuda`"
            },
        }
    }
}

/// What the command line asks for, on a build with or without support for GPUs.
/// The precision is single on a GPU and eight bits on a CPU unless it is given.
pub open spec fn requested_execution(
    use_gpu: bool,
    gpu_device: i32,
    requested: Option<ModelComputeType>,
    gpu_supported: bool,
) -> Result<ExecutionView, ExecutionError> {
    if use_gpu && !gpu_supported {
        Err(ExecutionError::GpuNotSupported)
    } else if use_gpu && gpu_device < 0 {
        Err(ExecutionError::NegativeDevice)
    } else if use_gpu {
        Ok(
            ExecutionView {
                use_gpu: true,
                compute_type: match requested {
                    Some(requested) => requested,
                    None => ModelComputeType::Float32,
                },
                gpu_device: Some(gpu_device),
            },
        )
    } else {
        Ok(
            ExecutionView {
                use_gpu: false,
                compute_type: match requested {
                    Some(requested) => requested,
                    None => ModelComputeType::Int8,
                },
                gpu_device: None,
            },
        )
    }
}

impl ExecutionMode {
    pub fn from_cli(
        use_gpu: bool,
        gpu_device: i32,
        requested_compute_type: Option<ModelComputeType>,
        gpu_supported: bool,
    ) -> (mode: Result<Self, ExecutionError>)
        ensures
            match mode {
                Ok(mode) => requested_execution(
                    use_gpu,
                    gpu_device,
                    requested_compute_type,
                    gpu_supported,
                ) == Ok::<ExecutionView, ExecutionError>(mode@),
                Err(error) => requested_execution(
                    use_gpu,
                    gpu_device,
                    requested_compute_type,
                    gpu_supported,
                ) == Err::<ExecutionView, ExecutionError>(error),
            },
    {
        if use_gpu {
            if !gpu_supported {
                return Err(ExecutionError::GpuNotSupported);
            }
            if gpu_device < 0 {
                return Err(ExecutionError::NegativeDevice);
            }
            return Ok(
                ExecutionMode {
                    use_gpu: true,
                    compute_type: match requested_compute_type {
                        Some(requested) => requested,
                        None => ModelComputeType::Float32,
                    },
                    gpu_device: Some(gpu_device),
                },
            );
        }
        Ok(
            ExecutionMode {
                use_gpu: false,
                compute_type: match requested_compute_type {
                    Some(requested) => requested,
                    None => ModelComputeType::Int8,
                },
                gpu_device: None,
            },
        )
    }

    pub fn compute_type(&self) -> (compute_type: ModelComputeType)
        ensures
            compute_type == self@.compute_type,
    {
        self.compute_type
    }

    pub fn gpu_device(&self) -> (device: Option<i32>)
        ensures
            device == self@.gpu_device,
    {
        self.gpu_device
    }

    pub fn device_label(&self) -> (label: &'static str)
        ensures
            label@ == (if self@.use_gpu {
                "cuda"@
            } else {
                "cpu"@
            }),
    {
        if self.use_gpu {
            "cuda"
        } else {
            "cpu"
        }
    }

    pub fn compute_type_label(&self) -> (label: &'static str)
        ensures
            label@ == self@.compute_type.label_text(),
    {
        self.compute_type.label()
    }
}

// ---------------------------------------------------------------------------
// Vocabulary
// ---------------------------------------------------------------------------

#[derive(Clone, Debug)]
pub struct VocabularyOptions {
    pub blank_token: &'static str,
    pub word_boundary_token: Option<&'static str>,
}

impl Default for VocabularyOptions {
    fn default() -> (options: Self)
        ensures
            options.blank_token@ == "<blk>"@,
            options.word_boundary_token is Some,
            options.word_boundary_token->0@ == "▁"@,
    {
        VocabularyOptions { blank_token: "<blk>", word_boundary_token: Some("▁") }
    }
}

/// The tokens that a model can give, by their numbers.
#[derive(Clone, Debug)]
pub struct CtcVocabulary {
    pub entries: Vec<String>,
    pub blank_id: usize,
}

#[derive(Debug)]
pub enum VocabularyError {
    /// The entry does not end in a number, for this reason.
    BadIndex { entry: String, reason: NumberError },
    /// The entry has nothing before its number.
    MissingToken,
    /// No entry is the blank token.
    MissingBlank { blank_token: String },
}

impl VocabularyError {
    pub open spec fn text(self) -> Seq<char> {
        match self {
            VocabularyError::BadIndex { entry, reason } =>
                "failed to parse vocabulary index from `"@ + entry@ + "`: "@ + reason.text(),
            VocabularyError::MissingToken => "vocabulary entry does not contain a token"@,
            VocabularyError::MissingBlank { blank_token } =>
                "CTC vocabulary does not contain the blank token `"@ + blank_token@ + "`"@,
        }
    }

    pub fn message(&self) -> (text: String)
        ensures
            text@ == self.text(),
    {
        match self {
            VocabularyError::BadIndex { entry, reason } => concat2(
                concat3(
                    "failed to parse vocabulary index from `",
                    entry.as_str(),
                    "`: ",
                ).as_str(),
                reason.message(),
            ),
            VocabularyError::MissingToken => {
                "vocabulary entry does not contain a token".to_string()
            },
            VocabularyError::MissingBlank { blank_token } => concat3(
                "CTC vocabulary does not contain the blank token `",
                blank_token.as_str(),
                "`",
            ),
        }
    }
}

/// The position of the last space, or -1.
pub open spec fn last_space(s: Seq<char>) -> int
    decreases s.len(),
{
    if s.len() == 0 {
        -1
    } else if s.last() == ' ' {
        s.len() - 1
    } else {
        last_space(s.drop_last())
    }
}

/// What a line of a vocabulary says.
pub enum LineView {
    Blank,
    BadIndex { reason: NumberError },
    MissingToken,
    Entry { index: usize, token: Seq<char> },
}

/// A line holds a token, a space and a number.  A blank line says nothing.  The
/// mark of a word boundary inside the token stands for a space.
pub open spec fn vocabulary_line(line: Seq<char>, boundary: Option<&'static str>) -> LineView {
    let entry = trimmed(line);
    let at = last_space(entry);
    if entry.len() == 0 {
        LineView::Blank
    } else {
        match parsed_usize(entry.skip(at + 1)) {
            Err(reason) => LineView::BadIndex { reason },
            Ok(index) => if at < 0 {
                LineView::MissingToken
            } else {
                LineView::Entry {
                    index,
                    token: match boundary {
                        Some(boundary) => replaced(entry.take(at), boundary@, " "@),
                        None => entry.take(at),
                    },
                }
            },
        }
    }
}

/// A numbered token.
#[derive(Debug)]
pub struct VocabularyEntry {
    pub index: usize,
    pub token: String,
}

fn find_last_space(chars: &Vec<char>) -> (at: Option<usize>)
    ensures
        match at {
            Some(at) => at == last_space(chars@) && at < chars.len(),
            None => last_space(chars@) == -1,
        },
{
    let mut end = chars.len();
    assert(chars@.take(chars@.len() as int) =~= chars@);
    while end > 0
        invariant
            end <= chars@.len(),
            last_space(chars@.take(end as int)) == last_space(chars@),
        decreases end,
    {
        assert(chars@.take(end as int).drop_last() =~= chars@.take(end - 1));
        if chars[end - 1] == ' ' {
            return Some(end - 1);
        }
        end = end - 1;
    }
    None
}

/// Reads a line of a vocabulary.
pub fn parse_vocabulary_line(line: &str, boundary: Option<&'static str>) -> (entry: Result<
    Option<VocabularyEntry>,
    VocabularyError,
>)
    ensures
        match entry {
            Ok(None) => vocabulary_line(line@, boundary) is Blank,
            Ok(Some(entry)) => vocabulary_line(line@, boundary) == (LineView::Entry {
                index: entry.index,
                token: entry.token@,
            }),
            Err(VocabularyError::BadIndex { entry, reason }) => vocabulary_line(line@, boundary)
                == (LineView::BadIndex { reason }) && entry@ == trimmed(line@),
            Err(VocabularyError::MissingToken) => vocabulary_line(
                line@,
                boundary,
            ) is MissingToken,
            Err(VocabularyError::MissingBlank { .. }) => false,
        },
{
    let trimmed_line = line.trim();
    if trimmed_line.is_empty() {
        return Ok(None);
    }
    let chars = chars_of(trimmed_line);
    let at = find_last_space(&chars);
    let number_start: usize = match at {
        Some(at) => at + 1,
        None => 0,
    };
    assert(chars@.subrange(number_start as int, chars@.len() as int) =~= chars@.skip(
        number_start as int,
    ));
    let number = string_of(chars.as_slice(), number_start, chars.len());
    let index = match parse_usize(number.as_str()) {
        Ok(index) => index,
        Err(reason) => {
            return Err(VocabularyError::BadIndex { entry: trimmed_line.to_string(), reason });
        },
    };
    let at = match at {
        Some(at) => at,
        None => {
            return Err(VocabularyError::MissingToken);
        },
    };
    assert(chars@.subrange(0, at as int) =~= chars@.take(at as int));
    let raw = string_of(chars.as_slice(), 0, at);
    let token = match boundary {
        Some(boundary) => replace_text(raw.as_str(), boundary, " "),
        None => raw,
    };
    Ok(Some(VocabularyEntry { index, token }))
}

/// The tokens with one more at its number; numbers that were skipped get empty
/// tokens.
pub open spec fn with_entry(entries: Seq<Seq<char>>, index: int, token: Seq<char>) -> Seq<
    Seq<char>,
> {
    Seq::new(
        (if entries.len() <= index {
            (index + 1) as nat
        } else {
            entries.len()
        }),
        |i: int|
            if i == index {
                token
            } else if i < entries.len() {
                entries[i]
            } else {
                Seq::<char>::empty()
            },
    )
}

/// Gathers the entries of a vocabulary.
#[derive(Debug)]
pub struct VocabularyBuilder {
    pub entries: Vec<String>,
}

impl VocabularyBuilder {
    pub fn new() -> (builder: Self)
        ensures
            texts(builder.entries@) == Seq::<Seq<char>>::empty(),
    {
        let builder = VocabularyBuilder { entries: Vec::new() };
        assert(texts(builder.entries@) =~= Seq::<Seq<char>>::empty());
        builder
    }

    /// Puts a token at its number.
    pub fn insert(&mut self, entry: VocabularyEntry)
        requires
            entry.index < usize::MAX,
        ensures
            texts(final(self).entries@) == with_entry(
                texts(old(self).entries@),
                entry.index as int,
                entry.token@,
            ),
    {
        let index = entry.index;
        while self.entries.len() <= index
            invariant
                index < usize::MAX,
                old(self).entries@.len() <= self.entries@.len(),
                self.entries@.len() <= index + 1 || self.entries@.len() == old(self).entries@.len(),
                forall|i: int|
                    0 <= i < self.entries@.len() ==> (#[trigger] self.entries@[i])@ == (if i
                        < old(self).entries@.len() {
                        old(self).entries@[i]@
                    } else {
                        Seq::<char>::empty()
                    }),
            decreases index + 1 - self.entries@.len(),
        {
            self.entries.push(String::new());
        }
        let ghost padded = self.entries@;
        let token = entry.token;
        self.entries.set(index, token);
        assert(self.entries@ == padded.update(index as int, token));
        assert(texts(self.entries@) =~= with_entry(
            texts(old(self).entries@),
            index as int,
            token@,
        ));
    }

    /// Ends the vocabulary: the blank token is the first entry that reads so.
    pub fn finish(self, blank_token: &str) -> (vocabulary: Result<CtcVocabulary, VocabularyError>)
        ensures
            match vocabulary {
                Ok(vocabulary) => vocabulary.entries == self.entries && is_first_at(
                    texts(self.entries@),
                    blank_token@,
                    vocabulary.blank_id as int,
                ),
                Err(VocabularyError::MissingBlank { blank_token: named }) => named@
                    == blank_token@ && !texts(self.entries@).contains(blank_token@),
                Err(_) => false,
            },
    {
        let entries = self.entries;
        let ghost list = texts(entries@);
        for i in 0..entries.len()
            invariant
                list == texts(entries@),
                entries == self.entries,
                forall|j: int| 0 <= j < i ==> list[j] != blank_token@,
        {
            if same_text(entries[i].as_str(), blank_token) {
                assert(list[i as int] == blank_token@);
                return Ok(CtcVocabulary { entries, blank_id: i });
            }
        }
        Err(VocabularyError::MissingBlank { blank_token: blank_token.to_string() })
    }
}

pub open spec fn is_first_at(list: Seq<Seq<char>>, item: Seq<char>, at: int) -> bool {
    &&& 0 <= at < list.len()
    &&& list[at] == item
    &&& forall|j: int| 0 <= j < at ==> list[j] != item
}

/// The first line that is not an entry and not blank, or the number of lines.
pub open spec fn first_bad_line(list: Seq<Seq<char>>, boundary: Option<&'static str>) -> int
    decreases list.len(),
{
    if list.len() == 0 {
        0
    } else {
        match vocabulary_line(list[0], boundary) {
            LineView::BadIndex { .. } => 0,
            LineView::MissingToken => 0,
            _ => 1 + first_bad_line(list.drop_first(), boundary),
        }
    }
}

/// The tokens that lines give, all of which are entries or blank.
pub open spec fn entries_of(list: Seq<Seq<char>>, boundary: Option<&'static str>) -> Seq<Seq<char>>
    decreases list.len(),
{
    if list.len() == 0 {
        seq![]
    } else {
        let before = entries_of(list.drop_last(), boundary);
        match vocabulary_line(list.last(), boundary) {
            LineView::Entry { index, token } => with_entry(before, index as int, token),
            _ => before,
        }
    }
}

/// No line before the first bad one carries the greatest number there is.
pub open spec fn indices_fit(list: Seq<Seq<char>>, boundary: Option<&'static str>) -> bool {
    forall|i: int|
        0 <= i < first_bad_line(list, boundary) ==> match #[trigger] vocabulary_line(
            list[i],
            boundary,
        ) {
            LineView::Entry { index, .. } => index < usize::MAX,
            _ => true,
        }
}

proof fn lemma_first_bad_line(list: Seq<Seq<char>>, boundary: Option<&'static str>, at: int)
    requires
        0 <= at <= list.len(),
        forall|j: int|
            0 <= j < at ==> !(#[trigger] vocabulary_line(list[j], boundary) is BadIndex)
                && !(vocabulary_line(list[j], boundary) is MissingToken),
        at < list.len() ==> vocabulary_line(list[at], boundary) is BadIndex || vocabulary_line(
            list[at],
            boundary,
        ) is MissingToken,
    ensures
        first_bad_line(list, boundary) == at,
    decreases list.len(),
{
    if at > 0 {
        let rest = list.drop_first();
        assert(!(vocabulary_line(list[0], boundary) is BadIndex));
        assert forall|j: int| 0 <= j < at - 1 implies !(#[trigger] vocabulary_line(
            rest[j],
            boundary,
        ) is BadIndex) && !(vocabulary_line(rest[j], boundary) is MissingToken) by {
            assert(rest[j] == list[j + 1]);
        }
        lemma_first_bad_line(rest, boundary, at - 1);
    }
}

proof fn lemma_bad_line_comes_later(
    list: Seq<Seq<char>>,
    boundary: Option<&'static str>,
    at: int,
)
    requires
        0 <= at < list.len(),
        forall|j: int|
            0 <= j <= at ==> !(#[trigger] vocabulary_line(list[j], boundary) is BadIndex)
                && !(vocabulary_line(list[j], boundary) is MissingToken),
    ensures
        at < first_bad_line(list, boundary),
    decreases list.len(),
{
    assert(!(vocabulary_line(list[0], boundary) is BadIndex));
    if at > 0 {
        let rest = list.drop_first();
        assert forall|j: int| 0 <= j <= at - 1 implies !(#[trigger] vocabulary_line(
            rest[j],
            boundary,
        ) is BadIndex) && !(vocabulary_line(rest[j], boundary) is MissingToken) by {
            assert(rest[j] == list[j + 1]);
        }
        lemma_bad_line_comes_later(rest, boundary, at - 1);
    } else {
        lemma_bad_line_is_within(list.drop_first(), boundary);
    }
}

proof fn lemma_bad_line_is_within(list: Seq<Seq<char>>, boundary: Option<&'static str>)
    ensures
        0 <= first_bad_line(list, boundary) <= list.len(),
    decreases list.len(),
{
    if list.len() > 0 {
        lemma_bad_line_is_within(list.drop_first(), boundary);
    }
}

impl CtcVocabulary {
    /// Reads a vocabulary.
    pub fn from_text(text: &str, options: VocabularyOptions) -> (vocabulary: Result<
        Self,
        VocabularyError,
    >)
        requires
            indices_fit(lines(text@), options.word_boundary_token),
        ensures
            ({
                let list = lines(text@);
                let boundary = options.word_boundary_token;
                let bad = first_bad_line(list, boundary);
                match vocabulary {
                    Ok(vocabulary) => {
                        &&& bad == list.len()
                        &&& texts(vocabulary.entries@) == entries_of(list, boundary)
                        &&& is_first_at(
                            entries_of(list, boundary),
                            options.blank_token@,
                            vocabulary.blank_id as int,
                        )
                    },
                    Err(VocabularyError::BadIndex { entry, reason }) => {
                        &&& bad < list.len()
                        &&& vocabulary_line(list[bad], boundary) == (LineView::BadIndex { reason })
                        &&& entry@ == trimmed(list[bad])
                    },
                    Err(VocabularyError::MissingToken) => {
                        &&& bad < list.len()
                        &&& vocabulary_line(list[bad], boundary) is MissingToken
                    },
                    Err(VocabularyError::MissingBlank { blank_token }) => {
                        &&& bad == list.len()
                        &&& blank_token@ == options.blank_token@
                        &&& !entries_of(list, boundary).contains(options.blank_token@)
                    },
                }
            }),
    {
        let list = split_lines(text);
        let boundary = options.word_boundary_token;
        let ghost all = lines(text@);
        let mut builder = VocabularyBuilder::new();
        for i in 0..list.len()
            invariant
                all == texts(list@),
                all == lines(text@),
                boundary == options.word_boundary_token,
                indices_fit(all, boundary),
                texts(builder.entries@) == entries_of(all.take(i as int), boundary),
                forall|j: int|
                    0 <= j < i ==> !(#[trigger] vocabulary_line(all[j], boundary) is BadIndex)
                        && !(vocabulary_line(all[j], boundary) is MissingToken),
        {
            proof {
                assert(all.take(i + 1).drop_last() =~= all.take(i as int));
                assert(all.take(i + 1).last() == list@[i as int]@);
                assert(all[i as int] == list@[i as int]@);
            }
            match parse_vocabulary_line(list[i].as_str(), boundary) {
                Ok(Some(entry)) => {
                    proof {
                        lemma_bad_line_comes_later(all, boundary, i as int);
                    }
                    builder.insert(entry);
                },
                Ok(None) => {},
                Err(error) => {
                    proof {
                        lemma_first_bad_line(all, boundary, i as int);
                    }
                    return Err(error);
                },
            }
        }
        proof {
            assert(all.take(all.len() as int) =~= all);
            lemma_first_bad_line(all, boundary, all.len() as int);
        }
        builder.finish(options.blank_token)
    }

    pub fn blank_id(&self) -> (id: usize)
        ensures
            id == self.blank_id,
    {
        self.blank_id
    }

    pub fn len(&self) -> (len: usize)
        ensures
            len == self.entries@.len(),
    {
        self.entries.len()
    }
}

/// The text after one more token.  A token that starts with spaces starts a new
/// word: one space comes before it, unless the text is empty or ends in one.
/// The blank and numbers that the vocabulary does not have add nothing.
pub open spec fn with_token(
    entries: Seq<Seq<char>>,
    blank: int,
    text: Seq<char>,
    id: int,
) -> Seq<char> {
    if id == blank || id >= entries.len() {
        text
    } else {
        let rest = without_leading_spaces(entries[id]);
        if rest.len() != entries[id].len() && text.len() > 0 && text.last() != ' ' {
            text.push(' ') + rest
        } else {
            text + rest
        }
    }
}

/// The text that the tokens add up to.
pub open spec fn token_text(entries: Seq<Seq<char>>, blank: int, ids: Seq<usize>) -> Seq<char>
    decreases ids.len(),
{
    if ids.len() == 0 {
        seq![]
    } else {
        with_token(
            entries,
            blank,
            token_text(entries, blank, ids.drop_last()),
            ids.last() as int,
        )
    }
}

/// The text of a row of tokens.
pub open spec fn decoded(entries: Seq<Seq<char>>, blank: int, ids: Seq<usize>) -> Seq<char> {
    trimmed_start(token_text(entries, blank, ids))
}

/// The tokens but for the blanks and for numbers that a vocabulary of `size`
/// entries does not have.
pub open spec fn spoken_ids(ids: Seq<usize>, blank: int, size: nat) -> Seq<usize>
    decreases ids.len(),
{
    if ids.len() == 0 {
        seq![]
    } else if ids.last() == blank || ids.last() >= size {
        spoken_ids(ids.drop_last(), blank, size)
    } else {
        spoken_ids(ids.drop_last(), blank, size).push(ids.last())
    }
}

proof fn lemma_blanks_say_nothing(entries: Seq<Seq<char>>, blank: int, ids: Seq<usize>)
    ensures
        token_text(entries, blank, spoken_ids(ids, blank, entries.len())) == token_text(
            entries,
            blank,
            ids,
        ),
    decreases ids.len(),
{
    if ids.len() > 0 {
        lemma_blanks_say_nothing(entries, blank, ids.drop_last());
        let before = spoken_ids(ids.drop_last(), blank, entries.len());
        assert(before.push(ids.last()).drop_last() =~= before);
    }
}

proof fn lemma_trimmed_start(s: Seq<char>)
    ensures
        trimmed_start(s).len() > 0 ==> !is_space(trimmed_start(s)[0]),
    decreases s.len(),
{
    if s.len() > 0 && is_space(s[0]) {
        lemma_trimmed_start(s.drop_first());
    }
}

/// Blanks say nothing, nor do numbers that the vocabulary does not have, and a text
/// does not start with white space.
pub proof fn law_blanks_say_nothing(entries: Seq<Seq<char>>, blank: int, ids: Seq<usize>)
    ensures
        decoded(entries, blank, spoken_ids(ids, blank, entries.len())) == decoded(
            entries,
            blank,
            ids,
        ),
        decoded(entries, blank, ids).len() > 0 ==> !is_space(decoded(entries, blank, ids)[0]),
{
    lemma_blanks_say_nothing(entries, blank, ids);
    lemma_trimmed_start(token_text(entries, blank, ids));
}

/// The rows of scores, one for each frame.
pub open spec fn score_rows(rows: Seq<Vec<u32>>) -> Seq<Seq<u32>> {
    Seq::new(rows.len(), |i: int| rows[i]@)
}

/// The best token of each frame that has scores.
pub open spec fn frame_tokens(rows: Seq<Seq<u32>>) -> Seq<usize>
    decreases rows.len(),
{
    if rows.len() == 0 {
        seq![]
    } else if rows.last().len() == 0 {
        frame_tokens(rows.drop_last())
    } else {
        frame_tokens(rows.drop_last()).push(best(rows.last()) as usize)
    }
}

/// A token counts where it is not the blank and differs from the one before it.
pub open spec fn collapsed(tokens: Seq<usize>, blank: usize) -> Seq<usize>
    decreases tokens.len(),
{
    if tokens.len() == 0 {
        seq![]
    } else {
        let before = collapsed(tokens.drop_last(), blank);
        if tokens.last() != blank && (tokens.len() == 1 || tokens.last() != tokens[tokens.len()
            - 2]) {
            before.push(tokens.last())
        } else {
            before
        }
    }
}

/// How many frames count: all of them, or as many as are said to be valid.
pub open spec fn valid_frames(output_length: Option<i64>, frames: nat) -> int {
    match output_length {
        None => frames as int,
        Some(length) => if length < 0 {
            0
        } else {
            min_int(length as int, frames as int)
        },
    }
}

/// The tokens of the frames that count.
pub open spec fn greedy_ids(
    rows: Seq<Seq<u32>>,
    output_length: Option<i64>,
    blank: usize,
) -> Seq<usize> {
    collapsed(frame_tokens(rows.take(valid_frames(output_length, rows.len()))), blank)
}

/// Frames past the valid ones do not matter.
pub proof fn law_frames_past_the_valid_ones_do_not_matter(
    rows: Seq<Seq<u32>>,
    more: Seq<Seq<u32>>,
    length: i64,
    blank: usize,
)
    requires
        length <= rows.len(),
    ensures
        greedy_ids(rows + more, Some(length), blank) == greedy_ids(rows, Some(length), blank),
{
    let count = valid_frames(Some(length), rows.len());
    assert(valid_frames(Some(length), (rows + more).len()) == count);
    assert((rows + more).take(count) =~= rows.take(count));
}

/// One more valid frame, where their number is given.
pub open spec fn one_more(output_length: Option<i64>) -> Option<i64> {
    match output_length {
        None => None,
        Some(length) => Some((length + 1) as i64),
    }
}

proof fn lemma_repeated_frame(rows: Seq<Seq<u32>>, at: int, blank: usize)
    requires
        0 <= at < rows.len(),
    ensures
        ({
            let tokens = frame_tokens(rows);
            let more = frame_tokens(rows.insert(at, rows[at]));
            &&& collapsed(more, blank) == collapsed(tokens, blank)
            &&& more.len() == 0 <==> tokens.len() == 0
            &&& tokens.len() > 0 ==> more.last() == tokens.last()
        }),
    decreases rows.len(),
{
    let longer = rows.insert(at, rows[at]);
    let tokens = frame_tokens(rows);
    let more = frame_tokens(longer);
    if at == rows.len() - 1 {
        assert(longer.drop_last() =~= rows);
        if rows.last().len() > 0 {
            assert(tokens.last() == best(rows.last()) as usize);
            assert(more == tokens.push(tokens.last()));
            assert(more.drop_last() =~= tokens);
        }
    } else {
        let before = rows.drop_last();
        lemma_repeated_frame(before, at, blank);
        assert(longer.drop_last() =~= before.insert(at, before[at]));
        assert(longer.last() == rows.last());
        if rows.last().len() > 0 {
            assert(tokens.drop_last() =~= frame_tokens(before));
            assert(more.drop_last() =~= frame_tokens(before.insert(at, before[at])));
        }
    }
}

/// A valid frame that comes twice in a row, as one more valid frame, adds nothing.
pub proof fn law_repeated_frames_count_once(
    rows: Seq<Seq<u32>>,
    at: int,
    output_length: Option<i64>,
    blank: usize,
)
    requires
        0 <= at < valid_frames(output_length, rows.len()),
        output_length matches Some(length) ==> length < i64::MAX,
    ensures
        greedy_ids(rows.insert(at, rows[at]), one_more(output_length), blank) == greedy_ids(
            rows,
            output_length,
            blank,
        ),
{
    let count = valid_frames(output_length, rows.len());
    let valid = rows.take(count);
    let longer = rows.insert(at, rows[at]);
    assert(valid_frames(one_more(output_length), longer.len()) == count + 1);
    assert(longer.take(count + 1) =~= valid.insert(at, valid[at]));
    lemma_repeated_frame(valid, at, blank);
}

/// The blank between two frames of one token makes them two tokens.
pub proof fn law_blank_parts_equal_tokens(tokens: Seq<usize>, token: usize, blank: usize)
    requires
        token != blank,
        tokens.len() > 0,
        tokens.last() == token,
    ensures
        collapsed(tokens.push(blank).push(token), blank) == collapsed(tokens, blank).push(token),
{
    let once = tokens.push(blank);
    let twice = once.push(token);
    assert(once.drop_last() =~= tokens);
    assert(collapsed(once, blank) == collapsed(tokens, blank));
    assert(twice.drop_last() =~= once);
    assert(twice[twice.len() - 2] == blank);
}

/// The blank is never among the tokens that count.
pub proof fn law_blank_is_never_a_token(tokens: Seq<usize>, blank: usize)
    ensures
        !collapsed(tokens, blank).contains(blank),
    decreases tokens.len(),
{
    if tokens.len() > 0 {
        law_blank_is_never_a_token(tokens.drop_last(), blank);
        let before = collapsed(tokens.drop_last(), blank);
        assert forall|i: int| 0 <= i < collapsed(tokens, blank).len() implies collapsed(
            tokens,
            blank,
        )[i] != blank by {
            if i < before.len() {
                assert(before.contains(before[i]));
            }
        }
    }
}

fn ends_in_space(text: &str) -> (yes: bool)
    ensures
        yes == (text@.len() > 0 && text@.last() == ' '),
{
    let chars = chars_of(text);
    chars.len() > 0 && chars[chars.len() - 1] == ' '
}

impl CtcVocabulary {
    /// The text of a row of tokens.
    pub fn decode_ids(&self, token_ids: &[usize]) -> (text: String)
        ensures
            text@ == decoded(texts(self.entries@), self.blank_id as int, token_ids@),
    {
        let mut text = String::new();
        let ghost entries = texts(self.entries@);
        let ghost blank = self.blank_id as int;
        assert(text@ =~= seq![]);
        for i in 0..token_ids.len()
            invariant
                entries == texts(self.entries@),
                blank == self.blank_id as int,
                text@ == token_text(entries, blank, token_ids@.take(i as int)),
        {
            assert(token_ids@.take(i + 1).drop_last() =~= token_ids@.take(i as int));
            let id = token_ids[i];
            if id != self.blank_id && id < self.entries.len() {
                let token = self.entries[id].as_str();
                assert(token@ == entries[id as int]);
                let rest = trim_leading_spaces(token);
                let token_len = chars_of(token).len();
                let rest_len = chars_of(rest.as_str()).len();
                if rest_len != token_len && !text.as_str().is_empty() && !ends_in_space(text.as_str()) {
                    text.push(' ');
                }
                text.append(rest.as_str());
            }
        }
        assert(token_ids@.take(token_ids@.len() as int) =~= token_ids@);
        text.as_str().trim_start().to_string()
    }

    /// The text that the scores of the frames stand for: the best token of each
    /// valid frame, repeated tokens once and blanks dropped.
    pub fn decode_logits_with_lengths(&self, rows: &[Vec<u32>], output_length: Option<i64>) -> (text:
        String)
        ensures
            text@ == decoded(
                texts(self.entries@),
                self.blank_id as int,
                greedy_ids(score_rows(rows@), output_length, self.blank_id),
            ),
    {
        let ids = greedy_tokens(rows, output_length, self.blank_id);
        self.decode_ids(ids.as_slice())
    }
}

/// The tokens of the frames that count.
pub fn greedy_tokens(rows: &[Vec<u32>], output_length: Option<i64>, blank: usize) -> (ids: Vec<
    usize,
>)
    ensures
        ids@ == greedy_ids(score_rows(rows@), output_length, blank),
{
    let ghost all = score_rows(rows@);
    let frames = rows.len();
    let count: usize = match output_length {
        None => frames,
        Some(length) => if length < 0 {
            0
        } else if length as u64 >= frames as u64 {
            frames
        } else {
            length as usize
        },
    };
    assert(count == valid_frames(output_length, all.len()));
    let mut ids: Vec<usize> = Vec::new();
    let mut previous = blank;
    assert(frame_tokens(all.take(0)) =~= seq![]);
    for i in 0..count
        invariant
            all == score_rows(rows@),
            count <= rows@.len(),
            ids@ == collapsed(frame_tokens(all.take(i as int)), blank),
            previous == (if frame_tokens(all.take(i as int)).len() == 0 {
                blank
            } else {
                frame_tokens(all.take(i as int)).last()
            }),
    {
        let ghost tokens = frame_tokens(all.take(i as int));
        assert(all.take(i + 1).drop_last() =~= all.take(i as int));
        assert(all.take(i + 1).last() == rows@[i as int]@);
        match argmax(rows[i].as_slice()) {
            Some(token) => {
                let ghost more = tokens.push(token);
                assert(frame_tokens(all.take(i + 1)) == more);
                assert(more.drop_last() =~= tokens);
                if token != previous && token != blank {
                    ids.push(token);
                }
                previous = token;
            },
            None => {},
        }
    }
    ids
}

/// A token counts where it is not the blank and not the token right before it,
/// whichever of the two has the greater number; else it adds nothing.
pub proof fn law_other_tokens_count(tokens: Seq<usize>, token: usize, blank: usize)
    ensures
        token == blank ==> collapsed(tokens.push(token), blank) == collapsed(tokens, blank),
        tokens.len() == 0 && token != blank ==> collapsed(tokens.push(token), blank) == seq![token],
        tokens.len() > 0 && token == tokens.last() ==> collapsed(tokens.push(token), blank)
            == collapsed(tokens, blank),
        tokens.len() > 0 && token != tokens.last() && token != blank ==> collapsed(
            tokens.push(token),
            blank,
        ) == collapsed(tokens, blank).push(token),
        collapsed(Seq::<usize>::empty(), blank).len() == 0,
{
    assert(tokens.push(token).drop_last() =~= tokens);
    if tokens.len() == 0 && token != blank {
        assert(collapsed(tokens, blank) =~= seq![]);
        assert(collapsed(tokens.push(token), blank) =~= seq![token]);
    }
}

/// Each frame speaks for itself: it names the token with the last of its highest
/// scores, after the tokens of the frames before it; one without scores names
/// none.
pub proof fn law_frames_name_their_best_tokens(rows: Seq<Seq<u32>>, row: Seq<u32>, token: usize)
    ensures
        frame_tokens(Seq::<Seq<u32>>::empty()).len() == 0,
        row.len() == 0 ==> frame_tokens(rows.push(row)) == frame_tokens(rows),
        is_last_highest(row, token as int) ==> frame_tokens(rows.push(row)) == frame_tokens(
            rows,
        ).push(token),
{
    assert(rows.push(row).drop_last() =~= rows);
    if row.len() > 0 {
        law_one_position_is_best(row, token as int);
    }
}

/// The frames that count are all of them where no length is given, else as many
/// from the start as the length says, none where it is negative.
pub proof fn law_lengths_cut_the_frames(rows: Seq<Seq<u32>>, length: i64, blank: usize)
    ensures
        greedy_ids(rows, None, blank) == collapsed(frame_tokens(rows), blank),
        length <= 0 ==> greedy_ids(rows, Some(length), blank).len() == 0,
        0 <= length <= rows.len() ==> greedy_ids(rows, Some(length), blank) == collapsed(
            frame_tokens(rows.take(length as int)),
            blank,
        ),
        length >= rows.len() ==> greedy_ids(rows, Some(length), blank) == greedy_ids(
            rows,
            None,
            blank,
        ),
{
    assert(rows.take(rows.len() as int) =~= rows);
    assert(rows.take(0).len() == 0);
}

/// A model runs where and how it is asked to: on the named device of a build that
/// has any, or on the processor; in the precision that is named, else in single
/// precision on a device and in eight bits on the processor.  A device needs a
/// build that has any, and a number that is not negative.
pub proof fn law_models_run_as_asked(
    use_gpu: bool,
    device: i32,
    requested: Option<ModelComputeType>,
    gpu_supported: bool,
)
    ensures
        ({
            let asked = requested_execution(use_gpu, device, requested, gpu_supported);
            &&& use_gpu && !gpu_supported ==> asked == Err::<ExecutionView, ExecutionError>(
                ExecutionError::GpuNotSupported,
            )
            &&& use_gpu && gpu_supported && device < 0 ==> asked == Err::<
                ExecutionView,
                ExecutionError,
            >(ExecutionError::NegativeDevice)
            &&& asked is Ok <==> !use_gpu || gpu_supported && device >= 0
            &&& asked matches Ok(mode) ==> {
                &&& mode.use_gpu == use_gpu
                &&& use_gpu ==> mode.gpu_device == Some(device)
                &&& !use_gpu ==> mode.gpu_device is None
                &&& requested matches Some(compute_type) ==> mode.compute_type == compute_type
                &&& requested is None && use_gpu ==> mode.compute_type == ModelComputeType::Float32
                &&& requested is None && !use_gpu ==> mode.compute_type == ModelComputeType::Int8
            }
        }),
{
}

/// A token that does not begin with a space joins the text before it.  One that
/// does begins a new word: its spaces give way to one space, unless the text is
/// empty or ends in one.  The blank and numbers that the vocabulary does not have
/// add nothing.
pub proof fn law_tokens_spell_the_text(
    entries: Seq<Seq<char>>,
    blank: int,
    ids: Seq<usize>,
    id: usize,
    spaces: nat,
    rest: Seq<char>,
)
    requires
        id < entries.len() ==> entries[id as int] == Seq::new(spaces, |i: int| ' ') + rest,
        rest.len() > 0 ==> rest[0] != ' ',
    ensures
        ({
            let text = token_text(entries, blank, ids);
            let more = token_text(entries, blank, ids.push(id));
            &&& id == blank || id >= entries.len() ==> more == text
            &&& id != blank && id < entries.len() && spaces == 0 ==> more == text + rest
            &&& id != blank && id < entries.len() && spaces > 0 ==> {
                &&& text.len() == 0 || text.last() == ' ' ==> more == text + rest
                &&& text.len() > 0 && text.last() != ' ' ==> more == text + seq![' '] + rest
            }
            &&& token_text(entries, blank, Seq::<usize>::empty()).len() == 0
        }),
{
    assert(ids.push(id).drop_last() =~= ids);
    law_leading_spaces_are_taken(spaces, rest);
    let text = token_text(entries, blank, ids);
    if id != blank && id < entries.len() {
        assert(text.push(' ') + rest =~= text + seq![' '] + rest);
    }
}

/// The text of a row of tokens is what they spell, but for white space at its
/// start.
pub proof fn law_texts_lose_only_white_space(
    entries: Seq<Seq<char>>,
    blank: int,
    ids: Seq<usize>,
    before: Seq<char>,
    rest: Seq<char>,
)
    requires
        token_text(entries, blank, ids) == before + rest,
        all_space(before),
        rest.len() > 0 ==> !is_space(rest[0]),
    ensures
        decoded(entries, blank, ids) == rest,
{
    lemma_start_is_taken(before, rest);
}

proof fn lemma_start_is_taken(before: Seq<char>, rest: Seq<char>)
    requires
        all_space(before),
        rest.len() > 0 ==> !is_space(rest[0]),
    ensures
        trimmed_start(before + rest) == rest,
    decreases before.len(),
{
    if before.len() == 0 {
        assert(before + rest =~= rest);
    } else {
        let fewer = before.drop_first();
        assert forall|i: int| 0 <= i < fewer.len() implies is_space(#[trigger] fewer[i]) by {
            assert(fewer[i] == before[i + 1]);
        }
        assert(is_space(before[0]));
        lemma_start_is_taken(fewer, rest);
        assert((before + rest).drop_first() =~= fewer + rest);
    }
}

/// An entry stands at its number and takes the place of what stood there; all
/// others stay, and numbers that were skipped have empty tokens.
pub proof fn law_entries_stand_at_their_numbers(
    entries: Seq<Seq<char>>,
    index: int,
    token: Seq<char>,
    i: int,
)
    requires
        index >= 0,
    ensures
        ({
            let more = with_entry(entries, index, token);
            &&& index < more.len()
            &&& more[index] == token
            &&& entries.len() > index ==> more.len() == entries.len()
            &&& entries.len() <= index ==> more.len() == index + 1
            &&& 0 <= i < entries.len() && i != index ==> more[i] == entries[i]
            &&& entries.len() <= i < index ==> more[i].len() == 0
        }),
{
}

proof fn lemma_last_space(token: Seq<char>, number: Seq<char>)
    requires
        all_digits(number),
    ensures
        last_space(token.push(' ') + number) == token.len(),
    decreases number.len(),
{
    let entry = token.push(' ') + number;
    if number.len() == 0 {
        assert(entry.last() == ' ');
    } else {
        assert(is_digit(number[number.len() - 1]));
        let before = number.drop_last();
        assert forall|i: int| 0 <= i < before.len() implies is_digit(#[trigger] before[i]) by {
            assert(before[i] == number[i]);
        }
        lemma_last_space(token, before);
        assert(entry.drop_last() =~= token.push(' ') + before);
    }
}

/// A line with a token, a space and a number, and white space around them, gives
/// that token that number.  The token may hold spaces, and in it the mark of a
/// word boundary, where there is one, stands for a space.
pub proof fn law_vocabulary_lines_read_back(
    before: Seq<char>,
    token: Seq<char>,
    index: usize,
    after: Seq<char>,
    boundary: Option<&'static str>,
)
    requires
        all_space(before),
        all_space(after),
        token.len() > 0,
        !is_space(token[0]),
    ensures
        vocabulary_line(
            before + (token.push(' ') + decimal(index as nat)) + after,
            boundary,
        ) == (LineView::Entry {
            index,
            token: match boundary {
                Some(mark) => replaced(token, mark@, " "@),
                None => token,
            },
        }),
        vocabulary_line(before + after, boundary) is Blank,
{
    let number = decimal(index as nat);
    let entry = token.push(' ') + number;
    lemma_decimal_digits(index as nat);
    law_numbers_read_back(index);
    assert(entry[0] == token[0]);
    assert(is_digit(number[number.len() - 1]));
    assert(entry.last() == number[number.len() - 1]);
    assert(!is_space(entry.last()));
    law_trimming_takes_white_space(before, entry, after);
    lemma_last_space(token, number);
    assert(entry.skip(token.len() as int + 1) =~= number);
    assert(entry.take(token.len() as int) =~= token);
    law_trimming_takes_white_space(before, Seq::<char>::empty(), after);
    assert(before + Seq::<char>::empty() + after =~= before + after);
}

/// Lines count one after the other: an entry takes its place among the tokens, and
/// a blank line changes nothing.
pub proof fn law_lines_count_in_order(
    list: Seq<Seq<char>>,
    line: Seq<char>,
    boundary: Option<&'static str>,
)
    ensures
        entries_of(Seq::<Seq<char>>::empty(), boundary).len() == 0,
        vocabulary_line(line, boundary) is Blank ==> entries_of(list.push(line), boundary)
            == entries_of(list, boundary),
        vocabulary_line(line, boundary) matches LineView::Entry { index, token } ==> entries_of(
            list.push(line),
            boundary,
        ) == with_entry(entries_of(list, boundary), index as int, token),
{
    assert(list.push(line).drop_last() =~= list);
}

/// The first line that is neither an entry nor blank is the one that is told: none
/// before it is bad, and it is.
pub proof fn law_the_first_bad_line_is_told(
    list: Seq<Seq<char>>,
    boundary: Option<&'static str>,
    i: int,
)
    ensures
        ({
            let bad = first_bad_line(list, boundary);
            &&& 0 <= bad <= list.len()
            &&& 0 <= i < bad ==> vocabulary_line(list[i], boundary) is Blank || vocabulary_line(
                list[i],
                boundary,
            ) is Entry
            &&& bad < list.len() ==> vocabulary_line(list[bad], boundary) is BadIndex
                || vocabulary_line(list[bad], boundary) is MissingToken
        }),
    decreases list.len(),
{
    if list.len() > 0 {
        law_the_first_bad_line_is_told(list.drop_first(), boundary, i - 1);
        if 0 < i {
            assert(list.drop_first()[i - 1] == list[i] || i >= list.len());
        }
    }
}

/// The blank is the first of the tokens that read so, and no other one.
pub proof fn law_the_blank_is_the_first_of_its_kind(
    list: Seq<Seq<char>>,
    item: Seq<char>,
    at: int,
    other: int,
)
    requires
        is_first_at(list, item, at),
    ensures
        0 <= at < list.len(),
        list[at] == item,
        0 <= other < list.len() && list[other] == item ==> at <= other,
{
}

proof fn lemma_space_before(token: Seq<char>, number: Seq<char>)
    requires
        !number.contains(' '),
    ensures
        last_space(token.push(' ') + number) == token.len(),
        last_space(number) == -1,
    decreases number.len(),
{
    let entry = token.push(' ') + number;
    if number.len() == 0 {
        assert(entry.last() == ' ');
    } else {
        let before = number.drop_last();
        assert(number[number.len() - 1] != ' ') by {
            if number[number.len() - 1] == ' ' {
                assert(number.contains(' '));
            }
        }
        assert(!before.contains(' ')) by {
            if before.contains(' ') {
                let i = choose|i: int| 0 <= i < before.len() && before[i] == ' ';
                assert(number[i] == ' ');
            }
        }
        lemma_space_before(token, before);
        assert(entry.drop_last() =~= token.push(' ') + before);
    }
}

/// What follows the last space of a line must be a number, and something must stand
/// before that space; a line that is not blank is told apart by that.
pub proof fn law_vocabulary_lines_are_told_apart(
    before: Seq<char>,
    token: Seq<char>,
    number: Seq<char>,
    after: Seq<char>,
    boundary: Option<&'static str>,
)
    requires
        all_space(before),
        all_space(after),
        token.len() > 0,
        !is_space(token[0]),
        number.len() > 0,
        !number.contains(' '),
        !is_space(number[0]),
        !is_space(number.last()),
    ensures
        ({
            let whole = vocabulary_line(before + (token.push(' ') + number) + after, boundary);
            let bare = vocabulary_line(before + number + after, boundary);
            match parsed_usize(number) {
                Ok(index) => {
                    &&& (whole matches LineView::Entry { index: found, token: read } && found
                        == index && read == (match boundary {
                        Some(mark) => replaced(token, mark@, " "@),
                        None => token,
                    }))
                    &&& bare is MissingToken
                },
                Err(fault) => {
                    &&& whole == (LineView::BadIndex { reason: fault })
                    &&& bare == (LineView::BadIndex { reason: fault })
                },
            }
        }),
{
    let entry = token.push(' ') + number;
    assert(entry[0] == token[0]);
    assert(entry.last() == number.last());
    law_trimming_takes_white_space(before, entry, after);
    law_trimming_takes_white_space(before, number, after);
    lemma_space_before(token, number);
    assert(entry.skip(token.len() as int + 1) =~= number);
    assert(entry.take(token.len() as int) =~= token);
    assert(number.skip(0) =~= number);
}

/// Where tokens read as the blank, one of them is the first.
pub proof fn law_one_of_the_blanks_is_the_first(list: Seq<Seq<char>>, item: Seq<char>, other: int)
    requires
        0 <= other < list.len(),
        list[other] == item,
    ensures
        exists|at: int| 0 <= at <= other && #[trigger] is_first_at(list, item, at),
    decreases other,
{
    if exists|j: int| 0 <= j < other && list[j] == item {
        let j = choose|j: int| 0 <= j < other && list[j] == item;
        law_one_of_the_blanks_is_the_first(list, item, j);
    } else {
        assert(is_first_at(list, item, other));
    }
}

} // verus!
