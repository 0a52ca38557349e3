//! What holds of windows and of settled text as a whole.

use vstd::prelude::*;

use crate::dynamic_chunk::{flattened, lemma_flattened_push};
use crate::numbers::min_int;
use crate::stream::{
    combined_preview, last_words, overlap_up_to, steps_over, without_overlap, word_overlap,
    nonempty, words_agree, ControllerView, StreamChunkView, StreamConfig, StreamConfigError, StreamEngineView,
};
use crate::text::{is_word, joined, normalized, trimmed, words};
use crate::words::{
    lemma_joined_is_trimmed, lemma_trimmed, lemma_words_are_words, lemma_words_around_space,
    lemma_words_of_joined, space,
};

verus! {

// ---------------------------------------------------------------------------
// Windows
// ---------------------------------------------------------------------------

/// A full window of the held samples, `i` steps after the first.
pub open spec fn is_window_at<T>(
    engine: StreamEngineView<T>,
    i: int,
    chunk: StreamChunkView<T>,
) -> bool {
    let offset = i * engine.config.step();
    let window = engine.config.window_samples as int;
    &&& 0 <= offset
    &&& offset + window <= engine.buffer.len()
    &&& chunk == (StreamChunkView {
        index: engine.next_index + i,
        start_sample: engine.next_start + offset,
        end_sample: engine.next_start + offset + window,
        samples: engine.buffer.subrange(offset, offset + window),
        is_partial: false,
    })
}

/// Every window lies at its step: the i-th window that held samples make begins
/// i steps after the first, is a full window of those very samples, and carries
/// its number and place.  What is left begins where the next window would, and
/// is shorter than a window.
pub proof fn law_windows_lie_at_their_steps<T>(engine: StreamEngineView<T>)
    requires
        engine.config.window_samples > 0,
    ensures
        ({
            let all = engine.windows();
            let after = engine.drained();
            let step = engine.config.step();
            let window = engine.config.window_samples as int;
            &&& 0 <= all.len() * step <= engine.buffer.len()
            &&& after.config == engine.config
            &&& after.buffer == engine.buffer.skip(all.len() * step)
            &&& after.buffer.len() < window
            &&& after.next_index == engine.next_index + all.len()
            &&& after.next_start == engine.next_start + all.len() * step
            &&& forall|i: int|
                0 <= i < all.len() ==> is_window_at(engine, i, #[trigger] all[i])
        }),
    decreases engine.buffer.len(),
{
    let all = engine.windows();
    let step = engine.config.step();
    let window = engine.config.window_samples as int;
    if engine.has_window() {
        let next = engine.advanced();
        assert(next.buffer =~= engine.buffer.skip(step));
        law_windows_lie_at_their_steps(next);
        let rest = next.windows();
        assert(all.len() == rest.len() + 1);
        assert(all.len() * step == rest.len() * step + step) by (nonlinear_arith)
            requires
                all.len() == rest.len() + 1,
        ;
        assert(engine.drained() == next.drained());
        assert(0 <= all.len() * step <= engine.buffer.len());
        assert(engine.drained().buffer =~= engine.buffer.skip(all.len() * step));
        assert forall|i: int| 0 <= i < all.len() implies is_window_at(
            engine,
            i,
            #[trigger] all[i],
        ) by {
            if i == 0 {
                assert(engine.buffer.take(window) =~= engine.buffer.subrange(0, window));
            } else {
                let j = i - 1;
                assert(is_window_at(next, j, rest[j]));
                assert(all[i] == rest[j]);
                assert((j + 1) * step == j * step + step) by (nonlinear_arith);
                assert(next.buffer.subrange(j * step, j * step + window)
                    =~= engine.buffer.subrange(i * step, i * step + window));
            }
        }
    } else {
        assert(all.len() * step == 0) by (nonlinear_arith)
            requires
                all.len() == 0,
        ;
        assert(engine.buffer.skip(0) =~= engine.buffer);
    }
}

/// No sample is passed over: each one that was held lies in a whole window or in
/// what is left for the tail.
pub proof fn law_windows_cover_every_sample<T>(engine: StreamEngineView<T>, position: int)
    requires
        engine.config.window_samples > 0,
        0 <= position < engine.buffer.len(),
    ensures
        ({
            let place = engine.next_start + position;
            ||| engine.drained().next_start <= place
            ||| exists|i: int|
                0 <= i < engine.windows().len() && (#[trigger] engine.windows()[i]).start_sample
                    <= place < engine.windows()[i].end_sample
        }),
{
    law_windows_lie_at_their_steps(engine);
    let all = engine.windows();
    let step = engine.config.step();
    if position < all.len() * step {
        let i = position / step;
        assert(0 <= i < all.len() && i * step <= position < i * step + step) by (nonlinear_arith)
            requires
                step > 0,
                0 <= position < all.len() * step,
                i == position / step,
        ;
        assert(all[i].start_sample <= engine.next_start + position < all[i].end_sample);
    }
}

/// It does not matter how a stream is cut up before it is pushed: two pushes give
/// the windows, and leave the engine, that one push of both gives.
pub proof fn law_pushes_add_up<T>(engine: StreamEngineView<T>, first: Seq<T>, second: Seq<T>)
    requires
        engine.config.window_samples > 0,
    ensures
        engine.pushed(first + second).windows() == engine.pushed(first).windows() + engine.pushed(
            first,
        ).drained().pushed(second).windows(),
        engine.pushed(first + second).drained() == engine.pushed(first).drained().pushed(
            second,
        ).drained(),
    decreases engine.buffer.len() + first.len(),
{
    let once = engine.pushed(first);
    let both = engine.pushed(first + second);
    assert(both =~= once.pushed(second));
    if once.has_window() {
        let next = once.advanced();
        law_pushes_add_up(next, Seq::<T>::empty(), second);
        assert(next.pushed(Seq::<T>::empty()) =~= next);
        assert(next.pushed(Seq::<T>::empty() + second) =~= next.pushed(second));
        assert(both.advanced() =~= next.pushed(second));
        let window = engine.config.window_samples as int;
        assert(both.chunk(window, false) =~= once.chunk(window, false));
        assert(both.windows() =~= once.windows() + once.drained().pushed(second).windows());
    } else {
        assert(once.windows() + once.pushed(second).windows() =~= once.pushed(second).windows());
    }
}

/// A stream gives no more windows, the tail included, than `window_count` says
/// for its length.
pub proof fn law_window_count_is_enough<T>(config: StreamConfig, samples: Seq<T>)
    requires
        config.window_samples > 0,
    ensures
        ({
            let engine = StreamEngineView { config, buffer: samples, next_index: 0, next_start: 0 };
            let tails: int = if engine.drained().buffer.len() == 0 {
                0
            } else {
                1
            };
            engine.windows().len() + tails <= steps_over(samples.len() as int, config.step())
        }),
{
    let engine = StreamEngineView { config, buffer: samples, next_index: 0, next_start: 0 };
    law_windows_lie_at_their_steps(engine);
    let count = engine.windows().len() as int;
    let step = config.step();
    let total = samples.len() as int;
    if total > count * step {
        assert(count + 1 <= (total + step - 1) / step) by (nonlinear_arith)
            requires
                step > 0,
                total >= count * step + 1,
        ;
    } else {
        assert(count <= (total + step - 1) / step) by (nonlinear_arith)
            requires
                step > 0,
                total >= count * step,
        ;
    }
}

/// An engine to which nothing was pushed.
pub open spec fn fresh_engine<T>(config: StreamConfig) -> StreamEngineView<T> {
    StreamEngineView { config, buffer: Seq::<T>::empty(), next_index: 0, next_start: 0 }
}

/// A fresh engine after a run of pushes.
pub open spec fn engine_after<T>(config: StreamConfig, pieces: Seq<Seq<T>>) -> StreamEngineView<T>
    decreases pieces.len(),
{
    if pieces.len() == 0 {
        fresh_engine(config)
    } else {
        engine_after(config, pieces.drop_last()).pushed(pieces.last()).drained()
    }
}

/// All windows that a run of pushes to a fresh engine gives.
pub open spec fn windows_after<T>(config: StreamConfig, pieces: Seq<Seq<T>>) -> Seq<
    StreamChunkView<T>,
>
    decreases pieces.len(),
{
    if pieces.len() == 0 {
        seq![]
    } else {
        windows_after(config, pieces.drop_last()) + engine_after(
            config,
            pieces.drop_last(),
        ).pushed(pieces.last()).windows()
    }
}

proof fn lemma_pushes_are_one_push<T>(config: StreamConfig, pieces: Seq<Seq<T>>)
    requires
        config.window_samples > 0,
    ensures
        ({
            let whole = fresh_engine::<T>(config).pushed(flattened(pieces));
            &&& windows_after(config, pieces) == whole.windows()
            &&& engine_after(config, pieces) == whole.drained()
        }),
    decreases pieces.len(),
{
    let fresh = fresh_engine::<T>(config);
    if pieces.len() == 0 {
        assert(fresh.pushed(flattened(pieces)) =~= fresh);
    } else {
        let before = pieces.drop_last();
        lemma_pushes_are_one_push(config, before);
        lemma_flattened_push(pieces);
        law_pushes_add_up(fresh, flattened(before), pieces.last());
    }
}

/// A full window of a stream, `i` steps after its start.
pub open spec fn is_window_of<T>(
    config: StreamConfig,
    stream: Seq<T>,
    i: int,
    chunk: StreamChunkView<T>,
) -> bool {
    let start = i * config.step();
    let end = start + config.window_samples;
    &&& 0 <= start
    &&& end <= stream.len()
    &&& chunk == (StreamChunkView {
        index: i,
        start_sample: start,
        end_sample: end,
        samples: stream.subrange(start, end),
        is_partial: false,
    })
}

/// A run of pushes to a fresh engine gives the full windows of all samples, and
/// no others: the i-th begins i steps after the start of the stream, and there
/// are as many as fit.  How the samples were split over the pushes plays no part.
pub proof fn law_pushes_give_the_windows_of_the_stream<T>(
    config: StreamConfig,
    pieces: Seq<Seq<T>>,
)
    requires
        config.window_samples > 0,
    ensures
        ({
            let all = windows_after(config, pieces);
            let stream = flattened(pieces);
            let window = config.window_samples as int;
            let step = config.step();
            &&& all.len() == (if stream.len() < window {
                0
            } else {
                (stream.len() - window) / step + 1
            })
            &&& forall|i: int|
                0 <= i < all.len() ==> is_window_of(config, stream, i, #[trigger] all[i])
        }),
{
    let all = windows_after(config, pieces);
    let stream = flattened(pieces);
    let window = config.window_samples as int;
    let step = config.step();
    let whole = fresh_engine::<T>(config).pushed(stream);
    lemma_pushes_are_one_push(config, pieces);
    law_windows_lie_at_their_steps(whole);
    assert(whole.buffer =~= stream);
    let count = all.len() as int;
    assert forall|i: int| 0 <= i < all.len() implies is_window_of(
        config,
        stream,
        i,
        #[trigger] all[i],
    ) by {
        assert(is_window_at(whole, i, all[i]));
    }
    if count > 0 {
        assert(is_window_at(whole, count - 1, all[count - 1]));
        let room = stream.len() - window;
        assert(room / step == count - 1) by (nonlinear_arith)
            requires
                step > 0,
                (count - 1) * step <= room,
                room < count * step,
        ;
    } else {
        assert(count * step == 0);
    }
}

/// The end of a stream gives what lies behind the last step as a partial window,
/// or nothing where the steps end with the stream.  Every sample is in some
/// window, there are no more windows than `window_count` says, and a second end
/// gives nothing.
pub proof fn law_the_tail_is_the_rest_of_the_stream<T>(
    config: StreamConfig,
    pieces: Seq<Seq<T>>,
)
    requires
        config.window_samples > 0,
    ensures
        ({
            let all = windows_after(config, pieces);
            let engine = engine_after(config, pieces);
            let stream = flattened(pieces);
            let passed = all.len() * config.step();
            &&& 0 <= passed <= stream.len()
            &&& engine.tail() is None <==> passed == stream.len()
            &&& engine.tail() matches Some(tail) ==> {
                &&& tail == (StreamChunkView {
                    index: all.len() as int,
                    start_sample: passed,
                    end_sample: stream.len() as int,
                    samples: stream.skip(passed),
                    is_partial: true,
                })
                &&& all.len() + 1 <= steps_over(stream.len() as int, config.step())
            }
            &&& all.len() <= steps_over(stream.len() as int, config.step())
            &&& forall|place: int|
                0 <= place < stream.len() ==> #[trigger] in_a_window(all, engine.tail(), place)
            &&& engine.finished().tail() is None
        }),
{
    let all = windows_after(config, pieces);
    let engine = engine_after(config, pieces);
    let stream = flattened(pieces);
    let step = config.step();
    let whole = fresh_engine::<T>(config).pushed(stream);
    lemma_pushes_are_one_push(config, pieces);
    law_windows_lie_at_their_steps(whole);
    law_window_count_is_enough(config, stream);
    assert(whole.buffer =~= stream);
    assert(whole =~= StreamEngineView { config, buffer: stream, next_index: 0, next_start: 0 });
    if engine.buffer.len() > 0 {
        assert(engine.buffer.take(engine.buffer.len() as int) =~= stream.skip(all.len() * step));
    }
    assert forall|place: int| 0 <= place < stream.len() implies #[trigger] in_a_window(
        all,
        engine.tail(),
        place,
    ) by {
        law_windows_cover_every_sample(whole, place);
    }
}

/// Whether a sample lies in one of the windows or in the tail.
pub open spec fn in_a_window<T>(
    all: Seq<StreamChunkView<T>>,
    tail: Option<StreamChunkView<T>>,
    place: int,
) -> bool {
    ||| tail matches Some(tail) && tail.start_sample <= place < tail.end_sample
    ||| exists|i: int|
        0 <= i < all.len() && (#[trigger] all[i]).start_sample <= place < all[i].end_sample
}

// ---------------------------------------------------------------------------
// Settled text
// ---------------------------------------------------------------------------

proof fn lemma_overlap_up_to(previous: Seq<Seq<char>>, current: Seq<Seq<char>>, limit: int)
    requires
        0 <= limit <= previous.len(),
        limit <= current.len(),
    ensures
        0 <= overlap_up_to(previous, current, limit) <= limit,
        words_agree(previous, current, overlap_up_to(previous, current, limit)),
        forall|count: int|
            overlap_up_to(previous, current, limit) < count <= limit ==> !words_agree(
                previous,
                current,
                count,
            ),
    decreases limit,
{
    if limit > 0 && !words_agree(previous, current, limit) {
        lemma_overlap_up_to(previous, current, limit - 1);
    }
}

/// The overlap of two lists of words is one at which they agree, and none that is
/// longer and within the limit is.
pub proof fn law_overlap_is_the_longest(
    previous: Seq<Seq<char>>,
    current: Seq<Seq<char>>,
    max_words: int,
)
    requires
        max_words >= 0,
    ensures
        ({
            let overlap = word_overlap(previous, current, max_words);
            &&& 0 <= overlap <= max_words
            &&& words_agree(previous, current, overlap)
            &&& forall|count: int|
                overlap < count <= max_words ==> !words_agree(previous, current, count)
        }),
{
    let limit = min_int(min_int(previous.len() as int, current.len() as int), max_words);
    lemma_overlap_up_to(previous, current, limit);
}

/// Taking off an overlap takes off words at the start and no others: the rest of
/// the words stay as they are.
pub proof fn law_trimming_keeps_the_rest(tail: Seq<char>, text: Seq<char>, max_words: int)
    requires
        max_words >= 0,
    ensures
        ({
            let overlap = word_overlap(words(tail), words(text), max_words);
            &&& 0 <= overlap <= words(text).len()
            &&& words(without_overlap(tail, text, max_words)) == words(text).skip(overlap)
        }),
{
    let overlap = word_overlap(words(tail), words(text), max_words);
    law_overlap_is_the_longest(words(tail), words(text), max_words);
    lemma_words_are_words(text);
    if overlap > 0 {
        let rest = words(text).skip(overlap);
        assert forall|i: int| 0 <= i < rest.len() implies is_word(#[trigger] rest[i]) by {
            assert(rest[i] == words(text)[i + overlap]);
        }
        lemma_words_of_joined(rest);
    } else {
        lemma_trimmed(text);
        assert(words(text).skip(0) =~= words(text));
    }
}

/// The tail that is kept holds the last words of what was settled, at most
/// `max_words` of them.
pub proof fn law_tail_keeps_the_last_words(controller: ControllerView, text: Seq<char>)
    requires
        controller.max_words >= 0,
        trimmed(text).len() > 0,
    ensures
        words(controller.confirmed(text).tail) == last_words(
            words(controller.tail) + words(text),
            controller.max_words,
        ),
        words(controller.confirmed(text).tail).len() <= controller.max_words,
{
    let all = words(controller.tail) + words(trimmed(text));
    let kept = last_words(all, controller.max_words);
    lemma_trimmed(text);
    lemma_words_are_words(controller.tail);
    lemma_words_are_words(trimmed(text));
    assert forall|i: int| 0 <= i < kept.len() implies is_word(#[trigger] kept[i]) by {
        let at = i + all.len() - kept.len();
        assert(kept[i] == all[at]);
        if at < words(controller.tail).len() {
            assert(all[at] == words(controller.tail)[at]);
        } else {
            assert(all[at] == words(trimmed(text))[at - words(controller.tail).len()]);
        }
    }
    lemma_words_of_joined(kept);
}

/// The step from one window to the next loses no word of the previous window:
/// the words that it settles, followed by those that it holds, are all of them;
/// the settled text reads as the settled words; and what it holds is either
/// repeated by the current window or carried over, a few words at most.
pub proof fn law_no_word_is_lost_between_windows(
    controller: ControllerView,
    previous: Seq<char>,
    current: Seq<char>,
    silent: bool,
)
    requires
        controller.max_words >= 0,
        controller.hold_words >= 0,
    ensures
        ({
            let all = words(controller.clean(previous));
            let settled = controller.settled_words(previous, current, silent);
            let held = controller.held_words(previous, current, silent);
            let repeated = controller.repeated(previous, current);
            &&& all == settled + held
            &&& match controller.resolved_text(previous, current, silent) {
                Some(text) => words(text) == settled,
                None => settled.len() == 0,
            }
            &&& repeated > 0 ==> {
                &&& held.len() == repeated
                &&& forall|i: int|
                    0 <= i < held.len() ==> normalized(#[trigger] held[i]) == normalized(
                        words(controller.clean(current))[i],
                    )
            }
            &&& repeated == 0 ==> held.len() <= controller.hold_words
            &&& repeated == 0 && silent ==> held.len() == 0
        }),
{
    let all = words(controller.clean(previous));
    let next = words(controller.clean(current));
    let settled = controller.settled_words(previous, current, silent);
    let held = controller.held_words(previous, current, silent);
    let repeated = controller.repeated(previous, current);
    law_overlap_is_the_longest(all, next, controller.max_words);
    lemma_words_are_words(controller.clean(previous));
    assert(all =~= settled + held);
    assert forall|i: int| 0 <= i < settled.len() implies is_word(#[trigger] settled[i]) by {
        assert(settled[i] == all[i]);
    }
    lemma_words_of_joined(settled);
    lemma_joined_is_trimmed(settled);
    if repeated > 0 {
        assert forall|i: int| 0 <= i < held.len() implies normalized(#[trigger] held[i])
            == normalized(next[i]) by {
            assert(held[i] == all[all.len() - repeated + i]);
        }
    }
}

/// The words that are still open after a step: those carried over from the
/// previous window, then those of the current one.
pub open spec fn open_words(
    controller: ControllerView,
    previous: Seq<char>,
    current: Seq<char>,
    silent: bool,
) -> Seq<Seq<char>> {
    if controller.carried(previous, current, silent) > 0 {
        controller.held_words(previous, current, silent) + words(controller.clean(current))
    } else {
        words(controller.clean(current))
    }
}

/// The preview shows every word that is still open, where what was settled does
/// not come again at the start of the open words.
pub proof fn law_preview_shows_the_open_words(
    controller: ControllerView,
    previous: Seq<char>,
    current: Seq<char>,
    silent: bool,
)
    requires
        controller.max_words >= 0,
        controller.hold_words >= 0,
        word_overlap(
            words(controller.resolved(previous, current, silent).tail),
            open_words(controller, previous, current, silent),
            controller.max_words,
        ) == 0,
    ensures
        match controller.resolved_preview(previous, current, silent) {
            Some(text) => words(text) == open_words(controller, previous, current, silent),
            None => open_words(controller, previous, current, silent).len() == 0,
        },
{
    let next = words(controller.clean(current));
    lemma_trimmed(controller.clean(current));
    if controller.carried(previous, current, silent) > 0 {
        let all = words(controller.clean(previous));
        let held = controller.held_words(previous, current, silent);
        law_overlap_is_the_longest(all, next, controller.max_words);
        lemma_words_are_words(controller.clean(previous));
        assert forall|i: int| 0 <= i < held.len() implies is_word(#[trigger] held[i]) by {
            assert(held[i] == all[all.len() - held.len() + i]);
        }
        let left = joined(held, space());
        lemma_words_of_joined(held);
        lemma_joined_is_trimmed(held);
        law_overlap_is_the_longest(held, next, controller.max_words);
        let overlap = word_overlap(held, next, controller.max_words);
        if overlap > 0 {
            assert forall|i: int| 0 <= i < overlap implies normalized(
                #[trigger] all[all.len() - overlap + i],
            ) == normalized(next[i]) by {
                assert(all[all.len() - overlap + i] == held[held.len() - overlap + i]);
            }
            assert(words_agree(all, next, overlap));
        }
        let shown = combined_preview(left, controller.clean(current), controller.max_words);
        lemma_trimmed(trimmed(controller.clean(current)));
        if next.len() == 0 {
            assert(words(shown) =~= held + next);
        } else {
            lemma_words_around_space(left, ' ', trimmed(controller.clean(current)));
            assert(left + space() + trimmed(controller.clean(current)) =~= left.push(' ')
                + trimmed(controller.clean(current)));
        }
        lemma_trimmed(shown);
    }
}

/// What was settled is not settled again: the same text right afterwards gives
/// nothing, as long as it is no longer than the tail that is kept.
pub proof fn law_settled_text_is_dropped(controller: ControllerView, text: Seq<char>)
    requires
        words(text).len() <= controller.max_words,
    ensures
        controller.confirmed(text).clean(text).len() == 0,
        controller.confirmed(text).confirmed(controller.confirmed(text).clean(text))
            == controller.confirmed(text),
{
    lemma_trimmed(text);
    if words(text).len() > 0 {
        law_tail_keeps_the_last_words(controller, text);
        let after = controller.confirmed(text);
        let tail = words(after.tail);
        let list = words(text);
        let all = words(controller.tail) + list;
        assert forall|i: int| 0 <= i < list.len() implies normalized(
            #[trigger] tail[tail.len() - list.len() + i],
        ) == normalized(list[i]) by {
            assert(tail[tail.len() - list.len() + i] == all[all.len() - list.len() + i]);
        }
        assert(words_agree(tail, list, list.len() as int));
        assert(word_overlap(tail, list, after.max_words) == list.len());
        assert(list.skip(list.len() as int) =~= Seq::<Seq<char>>::empty());
    }
}

/// A window is settled once: settled as the last one a second time, it gives
/// nothing and changes nothing, as long as it is no longer than the tail that is
/// kept.
pub proof fn law_a_window_is_finalized_once(controller: ControllerView, text: Seq<char>)
    requires
        words(text).len() <= controller.max_words,
    ensures
        ({
            let after = controller.confirmed(controller.clean(text));
            &&& nonempty(trimmed(after.clean(text))) is None
            &&& after.confirmed(after.clean(text)) == after
        }),
{
    let fresh = controller.clean(text);
    let after = controller.confirmed(fresh);
    let old_tail = words(controller.tail);
    let tail = words(after.tail);
    let list = words(text);
    let overlap = word_overlap(old_tail, list, controller.max_words);
    law_overlap_is_the_longest(old_tail, list, controller.max_words);
    law_trimming_keeps_the_rest(controller.tail, text, controller.max_words);
    lemma_trimmed(fresh);
    let rest = list.skip(overlap);
    if trimmed(fresh).len() > 0 {
        law_tail_keeps_the_last_words(controller, fresh);
        let all = old_tail + rest;
        assert forall|i: int| 0 <= i < list.len() implies normalized(
            #[trigger] tail[tail.len() - list.len() + i],
        ) == normalized(list[i]) by {
            assert(tail[tail.len() - list.len() + i] == all[all.len() - list.len() + i]);
            if i < overlap {
                assert(all[all.len() - list.len() + i] == old_tail[old_tail.len() - overlap + i]);
            } else {
                assert(all[all.len() - list.len() + i] == rest[i - overlap]);
            }
        }
        assert(words_agree(tail, list, list.len() as int));
    }
    law_overlap_is_the_longest(tail, list, controller.max_words);
    law_trimming_keeps_the_rest(after.tail, text, controller.max_words);
    lemma_trimmed(after.clean(text));
}

/// Neighbouring windows share the overlap, where it is shorter than a window; else
/// each begins one sample after the one before it.
pub proof fn law_neighbours_share_the_overlap<T>(
    config: StreamConfig,
    pieces: Seq<Seq<T>>,
    i: int,
)
    requires
        config.window_samples > 0,
        0 <= i < windows_after(config, pieces).len() - 1,
    ensures
        ({
            let all = windows_after(config, pieces);
            &&& config.overlap_samples < config.window_samples ==> all[i].end_sample - all[i
                + 1].start_sample == config.overlap_samples
            &&& config.overlap_samples >= config.window_samples ==> all[i + 1].start_sample
                == all[i].start_sample + 1
        }),
{
    law_pushes_give_the_windows_of_the_stream(config, pieces);
    let all = windows_after(config, pieces);
    let step = config.step();
    assert(is_window_of(config, flattened(pieces), i, all[i]));
    assert(is_window_of(config, flattened(pieces), i + 1, all[i + 1]));
    assert((i + 1) * step == i * step + step) by (nonlinear_arith);
}

/// The number of steps over a length is the least that reaches its end.
pub proof fn law_steps_just_reach_the_end(total: int, step: int)
    requires
        total >= 0,
        step > 0,
    ensures
        steps_over(total, step) * step >= total,
        total > 0 ==> (steps_over(total, step) - 1) * step < total,
        total == 0 ==> steps_over(total, step) == 0,
{
    let count = steps_over(total, step);
    assert(count * step <= total + step - 1 < count * step + step) by (nonlinear_arith)
        requires
            step > 0,
            count == (total + step - 1) / step,
    ;
    assert((count - 1) * step == count * step - step) by (nonlinear_arith);
    if total == 0 {
        assert(count == 0) by (nonlinear_arith)
            requires
                count * step <= step - 1,
                step - 1 < count * step + step,
                step > 0,
        ;
    }
}

/// Between two windows just so many words are held back: those that the current
/// window repeats; where it repeats none, as many as are to be held back, or all
/// there are; and none where silence parts the two.
pub proof fn law_just_so_many_words_are_held_back(
    controller: ControllerView,
    previous: Seq<char>,
    current: Seq<char>,
    silent: bool,
)
    requires
        controller.max_words >= 0,
        controller.hold_words >= 0,
    ensures
        ({
            let all = words(controller.clean(previous));
            let next = words(controller.clean(current));
            let repeated = word_overlap(all, next, controller.max_words);
            let held = controller.held_words(previous, current, silent);
            &&& repeated > 0 ==> held.len() == repeated
            &&& repeated == 0 && silent ==> held.len() == 0
            &&& repeated == 0 && !silent && all.len() <= controller.hold_words ==> held == all
            &&& repeated == 0 && !silent && all.len() > controller.hold_words ==> held.len()
                == controller.hold_words
            &&& held == all.skip(all.len() - held.len())
            &&& controller.settled_words(previous, current, silent) == all.take(
                all.len() - held.len(),
            )
        }),
{
    let all = words(controller.clean(previous));
    let next = words(controller.clean(current));
    law_overlap_is_the_longest(all, next, controller.max_words);
    let held = controller.held_words(previous, current, silent);
    assert(held =~= all.skip(all.len() - held.len()));
    assert(controller.settled_words(previous, current, silent) =~= all.take(
        all.len() - held.len(),
    ));
    if word_overlap(all, next, controller.max_words) == 0 && !silent && all.len()
        <= controller.hold_words {
        assert(held =~= all);
    }
}

/// The settled words come out with one space between each two, and the tail then
/// ends in them.
pub proof fn law_settled_words_come_out(
    controller: ControllerView,
    previous: Seq<char>,
    current: Seq<char>,
    silent: bool,
)
    requires
        controller.max_words >= 0,
        controller.hold_words >= 0,
    ensures
        ({
            let settled = controller.settled_words(previous, current, silent);
            let after = controller.resolved(previous, current, silent);
            let all = words(controller.tail) + settled;
            &&& settled.len() == 0 ==> controller.resolved_text(previous, current, silent) is None
                && after == controller
            &&& settled.len() > 0 ==> controller.resolved_text(previous, current, silent) == Some(
                joined(settled, seq![' ']),
            )
            &&& settled.len() > 0 && all.len() <= controller.max_words ==> words(after.tail) == all
            &&& settled.len() > 0 && all.len() > controller.max_words ==> words(after.tail)
                == all.skip(all.len() - controller.max_words)
            &&& after.max_words == controller.max_words
            &&& after.hold_words == controller.hold_words
        }),
{
    let settled = controller.settled_words(previous, current, silent);
    law_no_word_is_lost_between_windows(controller, previous, current, silent);
    let all = words(controller.clean(previous));
    lemma_words_are_words(controller.clean(previous));
    law_overlap_is_the_longest(all, words(controller.clean(current)), controller.max_words);
    assert forall|i: int| 0 <= i < settled.len() implies is_word(#[trigger] settled[i]) by {
        assert(settled[i] == all[i]);
    }
    lemma_words_of_joined(settled);
    lemma_joined_is_trimmed(settled);
    let text = joined(settled, space());
    if settled.len() > 0 {
        law_tail_keeps_the_last_words(controller, text);
    }
}

/// Where nothing of a text was settled before, it stays as it is but for white
/// space around it; else its other words come with one space between each two.
pub proof fn law_new_text_is_left_as_it_is(tail: Seq<char>, text: Seq<char>, max_words: int)
    requires
        max_words >= 0,
    ensures
        ({
            let overlap = word_overlap(words(tail), words(text), max_words);
            &&& overlap == 0 ==> without_overlap(tail, text, max_words) == trimmed(text)
            &&& overlap > 0 ==> without_overlap(tail, text, max_words) == joined(
                words(text).skip(overlap),
                seq![' '],
            )
        }),
{
    law_overlap_is_the_longest(words(tail), words(text), max_words);
}

/// Two pieces of a preview stand one after the other, with a space between them,
/// the second without the words that the first ends in; where these are all of
/// its words it stays whole, and where one of the pieces is blank the other one
/// stands alone.
pub proof fn law_previews_stand_one_after_the_other(
    left: Seq<char>,
    right: Seq<char>,
    max_words: int,
)
    requires
        max_words >= 0,
    ensures
        ({
            let shown = combined_preview(left, right, max_words);
            let a = words(left);
            let b = words(right);
            let overlap = word_overlap(a, b, max_words);
            &&& a.len() == 0 ==> shown == trimmed(right)
            &&& b.len() == 0 ==> shown == trimmed(left)
            &&& a.len() > 0 && b.len() > 0 && overlap < b.len() ==> words(shown) == a + b.skip(
                overlap,
            )
            &&& a.len() > 0 && b.len() > 0 && overlap == b.len() ==> words(shown) == a + b
        }),
{
    let shown = combined_preview(left, right, max_words);
    let rest = without_overlap(left, right, max_words);
    let a = words(left);
    let b = words(right);
    law_overlap_is_the_longest(a, b, max_words);
    law_trimming_keeps_the_rest(left, right, max_words);
    let overlap = word_overlap(a, b, max_words);
    lemma_trimmed(left);
    lemma_trimmed(right);
    lemma_trimmed(rest);
    lemma_words_are_words(right);
    if a.len() == 0 {
        if b.len() == 0 {
            assert(trimmed(left) =~= trimmed(right));
        }
    } else if b.len() > 0 {
        if overlap > 0 {
            let kept = b.skip(overlap);
            assert forall|i: int| 0 <= i < kept.len() implies is_word(#[trigger] kept[i]) by {
                assert(kept[i] == b[i + overlap]);
            }
            lemma_joined_is_trimmed(kept);
        }
        lemma_words_around_space(trimmed(left), ' ', trimmed(rest));
        lemma_words_around_space(trimmed(left), ' ', trimmed(right));
        assert(trimmed(left) + space() + trimmed(rest) =~= trimmed(left).push(' ') + trimmed(rest));
        assert(trimmed(left) + space() + trimmed(right) =~= trimmed(left).push(' ') + trimmed(
            right,
        ));
    }
}

/// The preview shows the words that are still open, but for those at their start
/// that end what was settled; there is none where no word is left.
pub proof fn law_previews_show_what_is_open(
    controller: ControllerView,
    previous: Seq<char>,
    current: Seq<char>,
    silent: bool,
)
    requires
        controller.max_words >= 0,
        controller.hold_words >= 0,
    ensures
        ({
            let open = open_words(controller, previous, current, silent);
            let tail = words(controller.resolved(previous, current, silent).tail);
            let left = open.skip(word_overlap(tail, open, controller.max_words));
            match controller.resolved_preview(previous, current, silent) {
                Some(text) => words(text) == left && left.len() > 0,
                None => left.len() == 0,
            }
        }),
{
    let after = controller.resolved(previous, current, silent);
    let next = words(controller.clean(current));
    lemma_trimmed(controller.clean(current));
    lemma_words_are_words(controller.clean(current));
    let all = words(controller.clean(previous));
    law_overlap_is_the_longest(all, next, controller.max_words);
    let shown = if controller.carried(previous, current, silent) > 0 {
        let held = controller.held_words(previous, current, silent);
        lemma_words_are_words(controller.clean(previous));
        assert forall|i: int| 0 <= i < held.len() implies is_word(#[trigger] held[i]) by {
            assert(held[i] == all[all.len() - held.len() + i]);
        }
        let left = joined(held, space());
        lemma_words_of_joined(held);
        lemma_joined_is_trimmed(held);
        law_overlap_is_the_longest(held, next, controller.max_words);
        let overlap = word_overlap(held, next, controller.max_words);
        if overlap > 0 {
            assert forall|i: int| 0 <= i < overlap implies normalized(
                #[trigger] all[all.len() - overlap + i],
            ) == normalized(next[i]) by {
                assert(all[all.len() - overlap + i] == held[held.len() - overlap + i]);
            }
            assert(words_agree(all, next, overlap));
        }
        law_previews_stand_one_after_the_other(
            left,
            controller.clean(current),
            controller.max_words,
        );
        let text = combined_preview(left, controller.clean(current), controller.max_words);
        if next.len() == 0 {
            assert(words(text) =~= held + next);
        } else {
            assert(next.skip(0) =~= next);
        }
        text
    } else {
        controller.clean(current)
    };
    assert(words(shown) == open_words(controller, previous, current, silent));
    law_trimming_keeps_the_rest(after.tail, shown, controller.max_words);
    law_new_text_is_left_as_it_is(after.tail, shown, controller.max_words);
    let preview = after.clean(shown);
    let open = words(shown);
    law_overlap_is_the_longest(words(after.tail), open, controller.max_words);
    lemma_trimmed(shown);
    lemma_words_are_words(shown);
    let overlap = word_overlap(words(after.tail), open, controller.max_words);
    if overlap > 0 {
        let kept = open.skip(overlap);
        assert forall|i: int| 0 <= i < kept.len() implies is_word(#[trigger] kept[i]) by {
            assert(kept[i] == open[i + overlap]);
        }
        lemma_joined_is_trimmed(kept);
    }
    lemma_trimmed(preview);
}

/// The overlap lasts so many seconds, but never more than half a window; both the
/// rate and the window must be there.
pub proof fn law_overlaps_last_so_long(
    sample_rate: usize,
    window_samples: usize,
    overlap_seconds: usize,
)
    requires
        sample_rate * overlap_seconds <= usize::MAX,
    ensures
        ({
            let config = StreamConfig::overlapping(sample_rate, window_samples, overlap_seconds);
            &&& sample_rate == 0 ==> config == Err::<StreamConfig, StreamConfigError>(
                StreamConfigError::ZeroSampleRate,
            )
            &&& sample_rate > 0 && window_samples == 0 ==> config == Err::<
                StreamConfig,
                StreamConfigError,
            >(StreamConfigError::ZeroWindow)
            &&& sample_rate > 0 && window_samples > 0 ==> (config matches Ok(config) && {
                &&& config.sample_rate == sample_rate
                &&& config.window_samples == window_samples
                &&& config.max_dedup_words == 24
                &&& config.hold_words == 8
                &&& 2 * (sample_rate * overlap_seconds) <= window_samples ==> config.overlap_samples
                    == sample_rate * overlap_seconds
                &&& 2 * (sample_rate * overlap_seconds) > window_samples ==> 2
                    * config.overlap_samples <= window_samples <= 2 * config.overlap_samples + 1
            })
        }),
{
    assert(sample_rate * overlap_seconds >= 0) by (nonlinear_arith)
        requires
            sample_rate >= 0,
            overlap_seconds >= 0,
    ;
}

/// The end of one list and the start of another agree where each two words of them
/// read alike, however many they are; no words always agree.
pub proof fn law_words_agree_where_they_read_alike(
    before: Seq<Seq<char>>,
    left: Seq<Seq<char>>,
    right: Seq<Seq<char>>,
    after: Seq<Seq<char>>,
)
    requires
        left.len() == right.len(),
    ensures
        words_agree(before + left, right + after, left.len() as int) <==> forall|i: int|
            0 <= i < left.len() ==> normalized(#[trigger] left[i]) == normalized(right[i]),
        words_agree(before, after, 0),
        !words_agree(left, right + after, left.len() as int + 1),
        !words_agree(before + left, right, right.len() as int + 1),
{
    let previous = before + left;
    let current = right + after;
    let count = left.len() as int;
    if words_agree(previous, current, count) {
        assert forall|i: int| 0 <= i < count implies normalized(#[trigger] left[i]) == normalized(
            right[i],
        ) by {
            assert(previous[previous.len() - count + i] == left[i]);
            assert(current[i] == right[i]);
        }
    }
    if forall|i: int| 0 <= i < count ==> normalized(#[trigger] left[i]) == normalized(right[i]) {
        assert forall|i: int| 0 <= i < count implies normalized(
            #[trigger] previous[previous.len() - count + i],
        ) == normalized(current[i]) by {
            assert(previous[previous.len() - count + i] == left[i]);
            assert(current[i] == right[i]);
        }
    }
}

/// What was settled before is taken from a text, and only that; what is settled
/// last comes out whole, and the tail then ends in it.
pub proof fn law_a_last_window_is_settled_whole(controller: ControllerView, text: Seq<char>)
    requires
        controller.max_words >= 0,
    ensures
        ({
            let overlap = word_overlap(words(controller.tail), words(text), controller.max_words);
            let rest = words(text).skip(overlap);
            let after = controller.confirmed(controller.clean(text));
            let all = words(controller.tail) + rest;
            &&& words(controller.clean(text)) == rest
            &&& rest.len() == 0 ==> nonempty(trimmed(controller.clean(text))) is None && after
                == controller
            &&& rest.len() > 0 ==> (nonempty(trimmed(controller.clean(text))) matches Some(shown)
                && words(shown) == rest)
            &&& rest.len() > 0 && all.len() <= controller.max_words ==> words(after.tail) == all
            &&& rest.len() > 0 && all.len() > controller.max_words ==> words(after.tail)
                == all.skip(all.len() - controller.max_words)
        }),
{
    law_trimming_keeps_the_rest(controller.tail, text, controller.max_words);
    let clean = controller.clean(text);
    lemma_trimmed(clean);
    if trimmed(clean).len() > 0 {
        law_tail_keeps_the_last_words(controller, clean);
    }
}

} // verus!
