//! Decoding with a token-and-duration transducer.
//!
//! The decoder asks for the scores of one frame at a time.  Each answer names a
//! token and how many frames to move on.

use vstd::prelude::*;
use vstd::string::StringExecFns;

use crate::onnx_ctc::{decoded, CtcVocabulary};
use crate::scores::{
    argmax, best, is_last_highest, law_best_is_the_last_highest, law_one_position_is_best,
};
use crate::numbers::min_int;
use crate::text::{
    concat3, decimal, decimal_text, same_text, signed_decimal, signed_decimal_text, texts,
};

verus! {

// ---------------------------------------------------------------------------
// Decoding
// ---------------------------------------------------------------------------

pub struct TdtDecoder {
    blank_id: usize,
    vocab_size: usize,
    valid_len: usize,
    max_tokens_per_step: usize,
    frame: usize,
    emitted: usize,
    tokens: Vec<usize>,
}

/// The state of a decoder.
#[verifier::ext_equal]
pub struct TdtView {
    pub blank: usize,
    /// How many of the scores are those of tokens.
    pub vocabulary: int,
    /// How many frames count.
    pub valid: int,
    /// How many tokens one frame can give.
    pub limit: int,
    /// The frame whose scores come next.
    pub frame: int,
    /// How many tokens that frame has given.
    pub emitted: int,
    pub tokens: Seq<usize>,
}

/// What the decoder asks the model for.
pub struct TdtRequest {
    /// The frame whose scores are wanted.
    pub frame: usize,
    /// The last token, or the blank where there is none yet.
    pub previous_token: i32,
}

#[derive(Debug)]
pub enum TdtError {
    /// There are not more scores than tokens.
    Width { width: usize, vocabulary: usize },
    /// There is no score for a token.
    NoTokens,
}

impl TdtError {
    pub open spec fn text(self) -> Seq<char> {
        match self {
            TdtError::Width { width, vocabulary } => "unexpected Parakeet TDT output width "@
                + decimal(width as nat) + "; expected more than vocabulary size "@ + decimal(
                vocabulary as nat,
            ),
            TdtError::NoTokens => "Parakeet TDT emitted empty token logits"@,
        }
    }

    pub fn message(&self) -> (text: String)
        ensures
            text@ == self.text(),
    {
        match self {
            TdtError::Width { width, vocabulary } => {
                let mut text = concat3(
                    "unexpected Parakeet TDT output width ",
                    decimal_text(*width as u64).as_str(),
                    "; expected more than vocabulary size ",
                );
                text.append(decimal_text(*vocabulary as u64).as_str());
                text
            },
            TdtError::NoTokens => "Parakeet TDT emitted empty token logits".to_string(),
        }
    }
}

impl TdtView {
    pub open spec fn valid_state(self) -> bool {
        &&& 0 <= self.frame <= self.valid
        &&& 0 <= self.emitted < self.limit
        &&& self.vocabulary >= 0
    }

    pub open spec fn done(self) -> bool {
        self.frame == self.valid
    }

    /// The last token, or the blank.
    pub open spec fn previous(self) -> usize {
        if self.tokens.len() == 0 {
            self.blank
        } else {
            self.tokens.last()
        }
    }

    /// The token and the number of frames that the scores name.
    pub open spec fn token_in(self, output: Seq<u32>) -> usize {
        best(output.take(self.vocabulary)) as usize
    }

    pub open spec fn frames_in(self, output: Seq<u32>) -> int {
        best(output.skip(self.vocabulary))
    }

    /// The state after the scores of the frame.  A token that is not the blank is
    /// kept.  The decoder moves on by as many frames as the scores say, and by one
    /// where they say none and the frame gives the blank or all that it may give.
    pub open spec fn step(self, output: Seq<u32>) -> TdtView {
        let token = self.token_in(output);
        let frames = self.frames_in(output);
        let spoken = token != self.blank;
        let emitted = if spoken {
            self.emitted + 1
        } else {
            self.emitted
        };
        let tokens = if spoken {
            self.tokens.push(token)
        } else {
            self.tokens
        };
        let moved = if frames > 0 {
            frames
        } else if !spoken || emitted == self.limit {
            1
        } else {
            0
        };
        TdtView {
            frame: min_int(self.frame + moved, self.valid),
            emitted: if moved > 0 {
                0
            } else {
                emitted
            },
            tokens,
            ..self
        }
    }
}

impl View for TdtDecoder {
    type V = TdtView;

    closed spec fn view(&self) -> TdtView {
        TdtView {
            blank: self.blank_id,
            vocabulary: self.vocab_size as int,
            valid: self.valid_len as int,
            limit: self.max_tokens_per_step as int,
            frame: self.frame as int,
            emitted: self.emitted as int,
            tokens: self.tokens@,
        }
    }
}

impl TdtDecoder {
    /// A decoder of the frames that are there, or of as many as are said to be
    /// valid.
    pub fn new(
        vocabulary: &CtcVocabulary,
        max_tokens_per_step: usize,
        encoded_len: i64,
        frames: usize,
    ) -> (decoder: Self)
        ensures
            decoder@ == (TdtView {
                blank: vocabulary.blank_id,
                vocabulary: vocabulary.entries@.len() as int,
                valid: if encoded_len < 0 {
                    0
                } else {
                    min_int(encoded_len as int, frames as int)
                },
                limit: if max_tokens_per_step == 0 {
                    1
                } else {
                    max_tokens_per_step as int
                },
                frame: 0,
                emitted: 0,
                tokens: seq![],
            }),
            decoder@.valid_state(),
    {
        let valid_len: usize = if encoded_len < 0 {
            0
        } else if encoded_len as u64 >= frames as u64 {
            frames
        } else {
            encoded_len as usize
        };
        let decoder = TdtDecoder {
            blank_id: vocabulary.blank_id(),
            vocab_size: vocabulary.len(),
            valid_len,
            max_tokens_per_step: if max_tokens_per_step == 0 {
                1
            } else {
                max_tokens_per_step
            },
            frame: 0,
            emitted: 0,
            tokens: Vec::new(),
        };
        assert(decoder@.tokens =~= seq![]);
        decoder
    }

    /// What to ask the model for next, while a frame is left.
    pub fn next_request(&self) -> (request: Option<TdtRequest>)
        requires
            self@.valid_state(),
        ensures
            match request {
                Some(request) => !self@.done() && request.frame == self@.frame
                    && request.previous_token == self@.previous() as i32,
                None => self@.done(),
            },
    {
        if self.frame == self.valid_len {
            return None;
        }
        let previous = if self.tokens.len() == 0 {
            self.blank_id
        } else {
            self.tokens[self.tokens.len() - 1]
        };
        Some(TdtRequest { frame: self.frame, previous_token: previous as i32 })
    }

    /// Takes the scores of the frame.  Says whether the state that the model gave
    /// with them replaces the one before.
    pub fn advance(&mut self, output: &[u32]) -> (keeps_state: Result<bool, TdtError>)
        requires
            old(self)@.valid_state(),
            !old(self)@.done(),
        ensures
            final(self)@.valid_state(),
            match keeps_state {
                Ok(keeps_state) => {
                    &&& output@.len() > old(self)@.vocabulary > 0
                    &&& final(self)@ == old(self)@.step(output@)
                    &&& keeps_state == (old(self)@.token_in(output@) != old(self)@.blank)
                },
                Err(TdtError::Width { width, vocabulary }) => {
                    &&& output@.len() <= old(self)@.vocabulary
                    &&& width == output@.len()
                    &&& vocabulary == old(self)@.vocabulary
                    &&& final(self)@ == old(self)@
                },
                Err(TdtError::NoTokens) => {
                    &&& output@.len() > old(self)@.vocabulary
                    &&& old(self)@.vocabulary == 0
                    &&& final(self)@ == old(self)@
                },
            },
    {
        if output.len() <= self.vocab_size {
            return Err(TdtError::Width { width: output.len(), vocabulary: self.vocab_size });
        }
        let (token_scores, duration_scores) = output.split_at(self.vocab_size);
        let token = match argmax(token_scores) {
            Some(token) => token,
            None => {
                return Err(TdtError::NoTokens);
            },
        };
        let frames: usize = match argmax(duration_scores) {
            Some(frames) => frames,
            None => 0,
        };
        assert(token_scores@ =~= output@.take(self.vocab_size as int));
        assert(duration_scores@ =~= output@.skip(self.vocab_size as int));
        let spoken = token != self.blank_id;
        if spoken {
            self.tokens.push(token);
            self.emitted = self.emitted + 1;
        }
        let moved: usize = if frames > 0 {
            frames
        } else if !spoken || self.emitted == self.max_tokens_per_step {
            1
        } else {
            0
        };
        if moved > 0 {
            self.emitted = 0;
            self.frame = if moved >= self.valid_len - self.frame {
                self.valid_len
            } else {
                self.frame + moved
            };
        }
        assert(self@ =~= old(self)@.step(output@));
        Ok(spoken)
    }

    /// The text of the tokens so far.
    pub fn text(&self, vocabulary: &CtcVocabulary) -> (text: String)
        ensures
            text@ == decoded(texts(vocabulary.entries@), vocabulary.blank_id as int, self@.tokens),
    {
        vocabulary.decode_ids(self.tokens.as_slice())
    }
}

/// A state from which a decoder can have come to another one.
pub open spec fn state_after(start: TdtView, outputs: Seq<Seq<u32>>) -> TdtView
    decreases outputs.len(),
{
    if outputs.len() == 0 {
        start
    } else {
        state_after(start, outputs.drop_last()).step(outputs.last())
    }
}

/// The most answers that the rest of the frames can take.
pub open spec fn answers_left(state: TdtView) -> int {
    (state.valid - state.frame) * state.limit - state.emitted
}

/// Each answer brings a decoder nearer to its end: it takes no more than so many
/// answers as frames are left, times the tokens that one frame can give.
pub proof fn law_each_answer_brings_the_end_nearer(state: TdtView, output: Seq<u32>)
    requires
        state.valid_state(),
        !state.done(),
        output.len() > state.vocabulary > 0,
    ensures
        state.step(output).valid_state(),
        0 <= answers_left(state.step(output)) < answers_left(state),
{
    let next = state.step(output);
    law_best_is_the_last_highest(output.skip(state.vocabulary));
    if next.frame > state.frame {
        assert((next.valid - next.frame) * next.limit + next.limit <= (state.valid - state.frame)
            * state.limit) by (nonlinear_arith)
            requires
                next.valid == state.valid,
                next.limit == state.limit,
                next.frame >= state.frame + 1,
                state.limit > 0,
        ;
    }
    assert((next.valid - next.frame) * next.limit >= 0) by (nonlinear_arith)
        requires
            next.valid >= next.frame,
            next.limit > 0,
    ;
    if next.frame == state.frame {
        assert((next.valid - next.frame) * next.limit >= next.limit) by (nonlinear_arith)
            requires
                next.valid >= next.frame + 1,
                next.limit > 0,
        ;
    }
}

/// A frame gives no more tokens than it may, and the blank is never one of them.
pub proof fn law_frames_give_bounded_tokens(start: TdtView, outputs: Seq<Seq<u32>>)
    requires
        start.valid_state(),
        start.frame == 0,
        start.emitted == 0,
        start.tokens == Seq::<usize>::empty(),
        forall|i: int|
            0 <= i < outputs.len() ==> (#[trigger] outputs[i]).len() > start.vocabulary,
        start.vocabulary > 0,
        forall|i: int|
            0 <= i < outputs.len() ==> !(#[trigger] state_after(start, outputs.take(i))).done(),
    ensures
        ({
            let end = state_after(start, outputs);
            &&& end.valid_state()
            &&& end.tokens.len() <= end.limit * end.frame + end.emitted
            &&& end.tokens.len() <= end.limit * end.valid
            &&& !end.tokens.contains(end.blank)
            &&& end.limit == start.limit
            &&& end.valid == start.valid
            &&& end.vocabulary == start.vocabulary
            &&& end.blank == start.blank
        }),
    decreases outputs.len(),
{
    let end = state_after(start, outputs);
    if outputs.len() > 0 {
        let shorter = outputs.drop_last();
        assert forall|i: int| 0 <= i < shorter.len() implies !(#[trigger] state_after(
            start,
            shorter.take(i),
        )).done() by {
            assert(shorter.take(i) =~= outputs.take(i));
        }
        assert(shorter =~= outputs.take(outputs.len() - 1));
        law_frames_give_bounded_tokens(start, shorter);
        let state = state_after(start, shorter);
        law_each_answer_brings_the_end_nearer(state, outputs.last());
        law_best_is_the_last_highest(outputs.last().skip(state.vocabulary));
        if end.frame > state.frame {
            assert(state.limit * state.frame + state.limit <= end.limit * end.frame)
                by (nonlinear_arith)
                requires
                    end.limit == state.limit,
                    end.frame >= state.frame + 1,
                    state.limit > 0,
            ;
        } else {
            assert(end.limit * end.frame == state.limit * state.frame);
        }
        assert forall|i: int| 0 <= i < end.tokens.len() implies end.tokens[i] != end.blank by {
            if i < state.tokens.len() {
                assert(state.tokens.contains(state.tokens[i]));
            }
        }
    }
    if end.frame < end.valid {
        assert(end.limit * end.frame + end.limit <= end.limit * end.valid) by (nonlinear_arith)
            requires
                end.valid >= end.frame + 1,
                end.limit > 0,
        ;
    }
}

/// An answer names a token and a duration, each by the last of its highest scores.
/// The token is kept unless it is the blank.  A duration, be it that of the blank
/// or not, moves the decoder on by so many frames, or to the end where there are
/// not so many.  Without a duration the blank moves it on by one frame, and a
/// token keeps it where it is until the frame has given all that it may.
pub proof fn law_answers_move_by_their_duration(
    state: TdtView,
    output: Seq<u32>,
    token: int,
    duration: int,
)
    requires
        state.valid_state(),
        !state.done(),
        0 < state.vocabulary <= usize::MAX,
        output.len() > state.vocabulary,
        is_last_highest(output.take(state.vocabulary), token),
        is_last_highest(output.skip(state.vocabulary), duration),
    ensures
        ({
            let next = state.step(output);
            &&& next.blank == state.blank
            &&& next.vocabulary == state.vocabulary
            &&& next.valid == state.valid
            &&& next.limit == state.limit
            &&& token == state.blank ==> next.tokens == state.tokens
            &&& token != state.blank ==> next.tokens == state.tokens.push(token as usize)
            &&& duration > 0 && state.frame + duration <= state.valid ==> next.frame == state.frame
                + duration
            &&& duration > 0 && state.frame + duration > state.valid ==> next.frame == state.valid
            &&& duration == 0 && token == state.blank ==> next.frame == state.frame + 1
            &&& duration == 0 && token != state.blank && state.emitted + 1 < state.limit
                ==> next.frame == state.frame && next.emitted == state.emitted + 1
            &&& duration == 0 && token != state.blank && state.emitted + 1 >= state.limit
                ==> next.frame == state.frame + 1
            &&& next.frame > state.frame ==> next.emitted == 0
        }),
{
    law_one_position_is_best(output.take(state.vocabulary), token);
    law_one_position_is_best(output.skip(state.vocabulary), duration);
}

/// The tokens that the answers name, one after the other, without the blanks.
pub open spec fn are_spoken(
    outputs: Seq<Seq<u32>>,
    vocabulary: int,
    blank: usize,
    tokens: Seq<usize>,
) -> bool
    decreases outputs.len(),
{
    if outputs.len() == 0 {
        tokens.len() == 0
    } else {
        let before = outputs.drop_last();
        let scores = outputs.last().take(vocabulary);
        ||| is_last_highest(scores, blank as int) && are_spoken(before, vocabulary, blank, tokens)
        ||| tokens.len() > 0 && tokens.last() != blank && is_last_highest(
            scores,
            tokens.last() as int,
        ) && are_spoken(before, vocabulary, blank, tokens.drop_last())
    }
}

/// A decoder holds the tokens that all answers named, in order and but for the
/// blanks, wherever the answers moved it.
pub proof fn law_tokens_are_what_was_spoken(start: TdtView, outputs: Seq<Seq<u32>>)
    requires
        start.tokens.len() == 0,
        0 < start.vocabulary <= usize::MAX,
        forall|i: int|
            0 <= i < outputs.len() ==> (#[trigger] outputs[i]).len() > start.vocabulary,
    ensures
        are_spoken(
            outputs,
            start.vocabulary,
            start.blank,
            state_after(start, outputs).tokens,
        ),
        state_after(start, outputs).vocabulary == start.vocabulary,
        state_after(start, outputs).blank == start.blank,
    decreases outputs.len(),
{
    if outputs.len() > 0 {
        let before = outputs.drop_last();
        assert forall|i: int| 0 <= i < before.len() implies (#[trigger] before[i]).len()
            > start.vocabulary by {
            assert(before[i] == outputs[i]);
        }
        law_tokens_are_what_was_spoken(start, before);
        let state = state_after(start, before);
        let last = outputs[outputs.len() - 1];
        let scores = last.take(start.vocabulary);
        law_one_position_is_best(scores, best(scores));
        let token = state.token_in(last);
        assert(state.tokens.push(token).drop_last() =~= state.tokens);
    }
}

// ---------------------------------------------------------------------------
// The recurrent state
// ---------------------------------------------------------------------------

/// An input of a model: its name and, where it is a tensor, its shape.
#[derive(Debug)]
pub struct ModelInput {
    pub name: String,
    pub shape: Option<Vec<i64>>,
}

/// The shapes of the two recurrent states.
#[derive(Clone, Debug)]
pub struct DecoderStateSpec {
    pub state1_layers: usize,
    pub state1_hidden: usize,
    pub state2_layers: usize,
    pub state2_hidden: usize,
}

#[derive(Debug)]
pub enum StateShapeError {
    Missing { input: String },
    NotATensor { input: String },
    Rank { input: String, rank: usize },
    Layers { input: String, dimension: i64 },
    Hidden { input: String, dimension: i64 },
}

impl StateShapeError {
    pub open spec fn text(self) -> Seq<char> {
        match self {
            StateShapeError::Missing { input } => "transducer model does not define `"@ + input@
                + "`"@,
            StateShapeError::NotATensor { input } => "transducer input `"@ + input@
                + "` is not a tensor"@,
            StateShapeError::Rank { input, rank } => "transducer input `"@ + input@
                + "` has unsupported rank "@ + decimal(rank as nat) + "; expected 3"@,
            StateShapeError::Layers { input, dimension } => "transducer input `"@ + input@
                + "` has unsupported layer dimension "@ + signed_decimal(dimension as int),
            StateShapeError::Hidden { input, dimension } => "transducer input `"@ + input@
                + "` has unsupported hidden dimension "@ + signed_decimal(dimension as int),
        }
    }

    pub fn message(&self) -> (text: String)
        ensures
            text@ == self.text(),
    {
        match self {
            StateShapeError::Missing { input } => concat3(
                "transducer model does not define `",
                input.as_str(),
                "`",
            ),
            StateShapeError::NotATensor { input } => concat3(
                "transducer input `",
                input.as_str(),
                "` is not a tensor",
            ),
            StateShapeError::Rank { input, rank } => {
                let mut text = concat3(
                    "transducer input `",
                    input.as_str(),
                    "` has unsupported rank ",
                );
                text.append(decimal_text(*rank as u64).as_str());
                text.append("; expected 3");
                text
            },
            StateShapeError::Layers { input, dimension } => {
                let mut text = concat3(
                    "transducer input `",
                    input.as_str(),
                    "` has unsupported layer dimension ",
                );
                text.append(signed_decimal_text(*dimension).as_str());
                text
            },
            StateShapeError::Hidden { input, dimension } => {
                let mut text = concat3(
                    "transducer input `",
                    input.as_str(),
                    "` has unsupported hidden dimension ",
                );
                text.append(signed_decimal_text(*dimension).as_str());
                text
            },
        }
    }
}

/// The first input of that name, or the number of inputs.
pub open spec fn input_at(inputs: Seq<ModelInput>, name: Seq<char>) -> int
    decreases inputs.len(),
{
    if inputs.len() == 0 {
        0
    } else if inputs[0].name@ == name {
        0
    } else {
        1 + input_at(inputs.drop_first(), name)
    }
}

/// A dimension that a state can have.
pub open spec fn usable_dimension(dimension: i64) -> bool {
    0 < dimension <= usize::MAX
}

/// The number of layers and the width of a state: the first and the third
/// dimension of its input.
pub open spec fn is_state_shape(
    inputs: Seq<ModelInput>,
    name: Seq<char>,
    shape: Result<(usize, usize), StateShapeError>,
) -> bool {
    let at = input_at(inputs, name);
    if at == inputs.len() {
        shape matches Err(StateShapeError::Missing { input }) && input@ == name
    } else {
        match inputs[at].shape {
            None => shape matches Err(StateShapeError::NotATensor { input }) && input@ == name,
            Some(found) => if found@.len() != 3 {
                shape matches Err(StateShapeError::Rank { input, rank }) && input@ == name && rank
                    == found@.len()
            } else if !usable_dimension(found@[0]) {
                shape matches Err(StateShapeError::Layers { input, dimension }) && input@ == name
                    && dimension == found@[0]
            } else if !usable_dimension(found@[2]) {
                shape matches Err(StateShapeError::Hidden { input, dimension }) && input@ == name
                    && dimension == found@[2]
            } else {
                shape matches Ok((layers, hidden)) && layers == found@[0] && hidden == found@[2]
            },
        }
    }
}

fn find_input(inputs: &[ModelInput], name: &str) -> (at: usize)
    ensures
        at == input_at(inputs@, name@),
        at <= inputs@.len(),
{
    let mut at: usize = 0;
    assert(inputs@.skip(0) =~= inputs@);
    while at < inputs.len() && !same_text(inputs[at].name.as_str(), name)
        invariant
            at <= inputs@.len(),
            input_at(inputs@, name@) == at + input_at(inputs@.skip(at as int), name@),
        decreases inputs@.len() - at,
    {
        assert(inputs@.skip(at as int).drop_first() =~= inputs@.skip(at + 1));
        at = at + 1;
    }
    at
}

fn usable(dimension: i64) -> (value: Option<usize>)
    ensures
        match value {
            Some(value) => usable_dimension(dimension) && value == dimension,
            None => !usable_dimension(dimension),
        },
{
    if dimension <= 0 || dimension as u64 > usize::MAX as u64 {
        None
    } else {
        Some(dimension as usize)
    }
}

/// The number of layers and the width of a state.
pub fn infer_state_shape(inputs: &[ModelInput], input_name: &str) -> (shape: Result<
    (usize, usize),
    StateShapeError,
>)
    ensures
        is_state_shape(inputs@, input_name@, shape),
{
    let at = find_input(inputs, input_name);
    if at == inputs.len() {
        return Err(StateShapeError::Missing { input: input_name.to_string() });
    }
    let shape = match &inputs[at].shape {
        Some(shape) => shape,
        None => {
            return Err(StateShapeError::NotATensor { input: input_name.to_string() });
        },
    };
    if shape.len() != 3 {
        return Err(StateShapeError::Rank { input: input_name.to_string(), rank: shape.len() });
    }
    let layers = match usable(shape[0]) {
        Some(layers) => layers,
        None => {
            return Err(
                StateShapeError::Layers { input: input_name.to_string(), dimension: shape[0] },
            );
        },
    };
    let hidden = match usable(shape[2]) {
        Some(hidden) => hidden,
        None => {
            return Err(
                StateShapeError::Hidden { input: input_name.to_string(), dimension: shape[2] },
            );
        },
    };
    Ok((layers, hidden))
}

impl DecoderStateSpec {
    /// The shapes of both states, by the names of their inputs.
    pub fn from_inputs(inputs: &[ModelInput]) -> (states: Result<Self, StateShapeError>)
        ensures
            match states {
                Ok(states) => {
                    &&& is_state_shape(
                        inputs@,
                        "input_states_1"@,
                        Ok((states.state1_layers, states.state1_hidden)),
                    )
                    &&& is_state_shape(
                        inputs@,
                        "input_states_2"@,
                        Ok((states.state2_layers, states.state2_hidden)),
                    )
                },
                Err(error) => {
                    ||| is_state_shape(inputs@, "input_states_1"@, Err(error))
                    ||| is_state_shape(inputs@, "input_states_2"@, Err(error)) && exists|
                        first: (usize, usize),
                    | #[trigger]
                        is_state_shape(
                            inputs@,
                            "input_states_1"@,
                            Ok::<(usize, usize), StateShapeError>(first),
                        )
                },
            },
    {
        let first = match infer_state_shape(inputs, "input_states_1") {
            Ok(first) => first,
            Err(error) => {
                return Err(error);
            },
        };
        assert(is_state_shape(
            inputs@,
            "input_states_1"@,
            Ok::<(usize, usize), StateShapeError>(first),
        ));
        match infer_state_shape(inputs, "input_states_2") {
            Ok(second) => Ok(
                DecoderStateSpec {
                    state1_layers: first.0,
                    state1_hidden: first.1,
                    state2_layers: second.0,
                    state2_hidden: second.1,
                },
            ),
            Err(error) => Err(error),
        }
    }

    /// The dimensions of the states at the start, all of whose values are zero.
    pub fn initial_dimensions(&self) -> (dimensions: ((usize, usize, usize), (usize, usize, usize)))
        ensures
            dimensions.0 == (self.state1_layers, 1usize, self.state1_hidden),
            dimensions.1 == (self.state2_layers, 1usize, self.state2_hidden),
    {
        (
            (self.state1_layers, 1, self.state1_hidden),
            (self.state2_layers, 1, self.state2_hidden),
        )
    }
}

/// The model is asked about a frame with the token before it: the last one that was
/// kept, or the blank where there is none.
pub proof fn law_the_last_token_goes_before(state: TdtView, token: usize)
    ensures
        state.tokens.len() == 0 ==> state.previous() == state.blank,
        (TdtView { tokens: state.tokens.push(token), ..state }).previous() == token,
        state.done() <==> state.frame == state.valid,
{
}

/// The shape of a state is that of the first input of its name: it has three
/// dimensions, the first and the last of which count and fit; what fails first is
/// told, with the name.
pub proof fn law_states_have_the_shape_of_their_input(
    inputs: Seq<ModelInput>,
    name: Seq<char>,
    at: int,
    shape: Result<(usize, usize), StateShapeError>,
)
    requires
        is_state_shape(inputs, name, shape),
        0 <= at <= inputs.len(),
        at < inputs.len() ==> inputs[at].name@ == name,
        forall|i: int| 0 <= i < at ==> (#[trigger] inputs[i]).name@ != name,
    ensures
        at == inputs.len() ==> (shape matches Err(StateShapeError::Missing { input }) && input@
            == name),
        at < inputs.len() && inputs[at].shape is None ==> (shape matches Err(
            StateShapeError::NotATensor { input },
        ) && input@ == name),
        at < inputs.len() && inputs[at].shape is Some ==> {
            let found = inputs[at].shape->0@;
            &&& found.len() != 3 ==> (shape matches Err(StateShapeError::Rank { input, rank })
                && input@ == name && rank == found.len())
            &&& found.len() == 3 && !(0 < found[0] <= usize::MAX) ==> (shape matches Err(
                StateShapeError::Layers { input, dimension },
            ) && input@ == name && dimension == found[0])
            &&& found.len() == 3 && 0 < found[0] <= usize::MAX && !(0 < found[2] <= usize::MAX)
                ==> (shape matches Err(StateShapeError::Hidden { input, dimension }) && input@
                == name && dimension == found[2])
            &&& found.len() == 3 && 0 < found[0] <= usize::MAX && 0 < found[2] <= usize::MAX ==> (
            shape matches Ok((layers, hidden)) && layers == found[0] && hidden == found[2])
        },
{
    lemma_input_at(inputs, name, at);
}

proof fn lemma_input_at(inputs: Seq<ModelInput>, name: Seq<char>, at: int)
    requires
        0 <= at <= inputs.len(),
        at < inputs.len() ==> inputs[at].name@ == name,
        forall|i: int| 0 <= i < at ==> (#[trigger] inputs[i]).name@ != name,
    ensures
        input_at(inputs, name) == at,
    decreases at,
{
    if at > 0 {
        let rest = inputs.drop_first();
        assert(inputs[0].name@ != name);
        assert forall|i: int| 0 <= i < at - 1 implies (#[trigger] rest[i]).name@ != name by {
            assert(rest[i] == inputs[i + 1]);
        }
        lemma_input_at(rest, name, at - 1);
    }
}

} // verus!
