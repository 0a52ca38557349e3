//! Facts about words, trimming and joining.

use vstd::prelude::*;

use crate::text::{all_words, is_space, is_word, joined, trimmed, trimmed_end, trimmed_start, words};

verus! {

pub open spec fn space() -> Seq<char> {
    seq![' ']
}

pub proof fn lemma_space_literal()
    ensures
        " "@ == space(),
{
    reveal_strlit(" ");
    assert(" "@ =~= space());
}

/// The words of a text are words.
pub proof fn lemma_words_are_words(s: Seq<char>)
    ensures
        all_words(words(s)),
        s.len() > 0 && !is_space(s.last()) ==> words(s).len() > 0,
    decreases s.len(),
{
    if s.len() > 0 {
        lemma_words_are_words(s.drop_last());
        let before = words(s.drop_last());
        if is_space(s.last()) {
        } else if s.len() == 1 || is_space(s[s.len() - 2]) {
            let all = before.push(seq![s.last()]);
            assert forall|i: int| 0 <= i < all.len() implies is_word(#[trigger] all[i]) by {
                if i < before.len() {
                    assert(all[i] == before[i]);
                }
            }
        } else {
            assert(s.drop_last().last() == s[s.len() - 2]);
            let word = before.last().push(s.last());
            assert(is_word(before[before.len() - 1]));
            assert(is_word(word));
            let all = before.drop_last().push(word);
            assert forall|i: int| 0 <= i < all.len() implies is_word(#[trigger] all[i]) by {
                if i < before.len() - 1 {
                    assert(all[i] == before[i]);
                }
            }
        }
    }
}

/// White space parts the words of a text: what stands before it and what stands
/// after it have their words on their own.
pub proof fn lemma_words_around_space(a: Seq<char>, c: char, b: Seq<char>)
    requires
        is_space(c),
    ensures
        words(a.push(c) + b) == words(a) + words(b),
    decreases b.len(),
{
    let s = a.push(c) + b;
    if b.len() == 0 {
        assert(s =~= a.push(c));
        assert(s.drop_last() =~= a);
        assert(words(a) + words(b) =~= words(a));
    } else {
        lemma_words_around_space(a, c, b.drop_last());
        assert(s.drop_last() =~= a.push(c) + b.drop_last());
        assert(s.last() == b.last());
        let before = words(b.drop_last());
        if is_space(b.last()) {
        } else if b.len() == 1 {
            assert(s[s.len() - 2] == c);
            assert(words(s) =~= words(a) + words(b));
        } else {
            assert(s[s.len() - 2] == b[b.len() - 2]);
            if is_space(b[b.len() - 2]) {
                assert(words(s) =~= words(a) + words(b));
            } else {
                lemma_words_are_words(b.drop_last());
                assert(b.drop_last().last() == b[b.len() - 2]);
                let all = words(a) + before;
                assert(all.last() == before.last());
                assert(words(s) =~= words(a) + words(b));
            }
        }
    }
}

/// A single word is the only word of its text.
pub proof fn lemma_words_of_word(w: Seq<char>)
    requires
        is_word(w),
    ensures
        words(w) == seq![w],
    decreases w.len(),
{
    assert(!is_space(w[w.len() - 1]));
    if w.len() == 1 {
        assert(words(w.drop_last()) =~= seq![]);
        assert(w =~= seq![w.last()]);
        assert(words(w) =~= seq![w]);
    } else {
        let rest = w.drop_last();
        assert forall|i: int| 0 <= i < rest.len() implies !is_space(#[trigger] rest[i]) by {
            assert(rest[i] == w[i]);
        }
        lemma_words_of_word(rest);
        assert(!is_space(w[w.len() - 2]));
        assert(rest.push(w.last()) =~= w);
        assert(words(w) =~= seq![w]);
    }
}

/// Joining words with spaces and splitting the result gives the words back.
pub proof fn lemma_words_of_joined(items: Seq<Seq<char>>)
    requires
        all_words(items),
    ensures
        words(joined(items, space())) == items,
    decreases items.len(),
{
    if items.len() == 0 {
        assert(words(joined(items, space())) =~= items);
    } else if items.len() == 1 {
        assert(is_word(items[0]));
        lemma_words_of_word(items[0]);
        assert(words(joined(items, space())) =~= items);
    } else {
        let before = items.drop_last();
        assert forall|i: int| 0 <= i < before.len() implies is_word(#[trigger] before[i]) by {
            assert(before[i] == items[i]);
        }
        lemma_words_of_joined(before);
        assert(is_word(items[items.len() - 1]));
        lemma_words_of_word(items.last());
        lemma_words_around_space(joined(before, space()), ' ', items.last());
        assert(joined(items, space()) =~= joined(before, space()).push(' ') + items.last());
        assert(before + seq![items.last()] =~= items);
    }
}

/// Words joined with spaces begin and end in a word, and are empty only where
/// there is no word.
pub proof fn lemma_joined_is_trimmed(items: Seq<Seq<char>>)
    requires
        all_words(items),
    ensures
        trimmed(joined(items, space())) == joined(items, space()),
        joined(items, space()).len() == 0 <==> items.len() == 0,
        items.len() > 0 ==> !is_space(joined(items, space())[0]) && !is_space(
            joined(items, space()).last(),
        ),
    decreases items.len(),
{
    let text = joined(items, space());
    if items.len() == 0 {
    } else if items.len() == 1 {
        let w = items[0];
        assert(is_word(w));
        assert(!is_space(w[0]) && !is_space(w[w.len() - 1]));
    } else {
        let before = items.drop_last();
        assert forall|i: int| 0 <= i < before.len() implies is_word(#[trigger] before[i]) by {
            assert(before[i] == items[i]);
        }
        lemma_joined_is_trimmed(before);
        let w = items[items.len() - 1];
        assert(is_word(w));
        assert(!is_space(w[w.len() - 1]));
        assert(text[0] == joined(before, space())[0]);
        assert(text.last() == w.last());
    }
}

proof fn lemma_words_skip_leading_space(s: Seq<char>)
    requires
        s.len() > 0,
        is_space(s[0]),
    ensures
        words(s) == words(s.drop_first()),
{
    lemma_words_around_space(seq![], s[0], s.drop_first());
    assert(Seq::<char>::empty().push(s[0]) + s.drop_first() =~= s);
    assert(words(Seq::<char>::empty()) + words(s.drop_first()) =~= words(s.drop_first()));
}

proof fn lemma_trimmed_start_words(s: Seq<char>)
    ensures
        words(trimmed_start(s)) == words(s),
        trimmed_start(s).len() > 0 ==> !is_space(trimmed_start(s)[0]),
        s.len() > 0 && !is_space(s.last()) ==> trimmed_start(s).len() > 0
            && trimmed_start(s).last() == s.last(),
    decreases s.len(),
{
    if s.len() > 0 && is_space(s[0]) {
        lemma_words_skip_leading_space(s);
        lemma_trimmed_start_words(s.drop_first());
    }
}

proof fn lemma_trimmed_end_words(s: Seq<char>)
    ensures
        words(trimmed_end(s)) == words(s),
        trimmed_end(s).len() > 0 ==> !is_space(trimmed_end(s).last()),
        s.len() > 0 && !is_space(s[0]) ==> trimmed_end(s).len() > 0 && trimmed_end(s)[0] == s[0],
    decreases s.len(),
{
    if s.len() > 0 && is_space(s.last()) {
        lemma_trimmed_end_words(s.drop_last());
    }
}

/// Trimming keeps the words, leaves no white space at either side, and leaves
/// nothing exactly where there is no word.
pub proof fn lemma_trimmed(s: Seq<char>)
    ensures
        words(trimmed(s)) == words(s),
        trimmed(trimmed(s)) == trimmed(s),
        trimmed(s).len() == 0 <==> words(s).len() == 0,
        trimmed(s).len() > 0 ==> !is_space(trimmed(s)[0]) && !is_space(trimmed(s).last()),
{
    lemma_trimmed_start_words(s);
    lemma_trimmed_end_words(trimmed_start(s));
    lemma_words_are_words(trimmed(s));
    if trimmed(s).len() == 0 {
        assert(words(trimmed(s)).len() == 0);
    }
}

} // verus!
