//! What holds of texts as a whole.

use vstd::prelude::*;

use crate::text::{
    ascii_lower, ascii_lowered, begins_with, comes_before, ended_lines, is_ascii_char, is_space,
    joined, last_line, lines, normalized, replaced, trimmed, trimmed_end, trimmed_start,
    unicode_alphanumeric, unicode_lowercase, without_leading_spaces,
};

verus! {

pub open spec fn all_space(s: Seq<char>) -> bool {
    forall|i: int| 0 <= i < s.len() ==> is_space(#[trigger] s[i])
}

proof fn lemma_trimmed_start(before: Seq<char>, rest: Seq<char>)
    requires
        all_space(before),
    ensures
        trimmed_start(before + rest) == trimmed_start(rest),
    decreases before.len(),
{
    if before.len() == 0 {
        assert(before + rest =~= rest);
    } else {
        let fewer = before.drop_first();
        assert forall|i: int| 0 <= i < fewer.len() implies is_space(#[trigger] fewer[i]) by {
            assert(fewer[i] == before[i + 1]);
        }
        assert(is_space(before[0]));
        lemma_trimmed_start(fewer, rest);
        assert((before + rest).drop_first() =~= fewer + rest);
    }
}

proof fn lemma_trimmed_end(rest: Seq<char>, after: Seq<char>)
    requires
        all_space(after),
    ensures
        trimmed_end(rest + after) == trimmed_end(rest),
    decreases after.len(),
{
    if after.len() == 0 {
        assert(rest + after =~= rest);
    } else {
        let fewer = after.drop_last();
        assert forall|i: int| 0 <= i < fewer.len() implies is_space(#[trigger] fewer[i]) by {
            assert(fewer[i] == after[i]);
        }
        assert(is_space(after[after.len() - 1]));
        lemma_trimmed_end(rest, fewer);
        assert((rest + after).drop_last() =~= rest + fewer);
    }
}

/// Trimming takes the white space on both sides of a text and nothing else.
pub proof fn law_trimming_takes_white_space(
    before: Seq<char>,
    middle: Seq<char>,
    after: Seq<char>,
)
    requires
        all_space(before),
        all_space(after),
        middle.len() > 0 ==> !is_space(middle[0]) && !is_space(middle.last()),
    ensures
        trimmed(before + middle + after) == middle,
{
    let rest = middle + after;
    assert(before + middle + after =~= before + rest);
    lemma_trimmed_start(before, rest);
    if middle.len() > 0 {
        assert(rest[0] == middle[0]);
        lemma_trimmed_end(middle, after);
    } else {
        assert(rest =~= after);
        lemma_trimmed_start(after, Seq::<char>::empty());
        assert(after + Seq::<char>::empty() =~= after);
        assert(trimmed(before + middle + after) =~= middle);
    }
}

/// Only spaces are taken from the start of a token, and all of them.
pub proof fn law_leading_spaces_are_taken(spaces: nat, rest: Seq<char>)
    requires
        rest.len() > 0 ==> rest[0] != ' ',
    ensures
        without_leading_spaces(Seq::new(spaces, |i: int| ' ') + rest) == rest,
    decreases spaces,
{
    let all = Seq::new(spaces, |i: int| ' ') + rest;
    if spaces == 0 {
        assert(all =~= rest);
    } else {
        let fewer = (spaces - 1) as nat;
        law_leading_spaces_are_taken(fewer, rest);
        assert(all.drop_first() =~= Seq::new(fewer, |i: int| ' ') + rest);
    }
}

/// Items are joined in order, with the separator between each two neighbours.
pub proof fn law_items_are_joined_in_order(
    items: Seq<Seq<char>>,
    item: Seq<char>,
    separator: Seq<char>,
)
    ensures
        joined(Seq::<Seq<char>>::empty(), separator).len() == 0,
        items.len() == 0 ==> joined(items.push(item), separator) == item,
        items.len() > 0 ==> joined(items.push(item), separator) == joined(items, separator)
            + separator + item,
{
    assert(items.push(item).drop_last() =~= items);
}

/// Words are compared character by character.
pub proof fn law_words_are_compared_by_character(a: Seq<char>, b: Seq<char>)
    ensures
        normalized(a + b) == normalized(a) + normalized(b),
    decreases b.len(),
{
    if b.len() == 0 {
        assert(a + b =~= a);
        assert(normalized(a) + normalized(b) =~= normalized(a));
    } else {
        law_words_are_compared_by_character(a, b.drop_last());
        assert((a + b).drop_last() =~= a + b.drop_last());
        assert(normalized(a + b) =~= normalized(a) + normalized(b));
    }
}

/// In a comparison of words digits and small letters stand for themselves, great
/// letters for the small ones, and other characters for nothing; beyond ASCII
/// letters and digits stand for their lowercase.
pub proof fn law_case_and_marks_do_not_count(c: char)
    ensures
        '0' <= c <= '9' || 'a' <= c <= 'z' ==> normalized(seq![c]) == seq![c],
        'A' <= c <= 'Z' ==> normalized(seq![c]).len() == 1 && normalized(seq![c])[0] as int
            == c as int + 32,
        is_ascii_char(c) && !('0' <= c <= '9' || 'a' <= c <= 'z' || 'A' <= c <= 'Z')
            ==> normalized(seq![c]).len() == 0,
        !is_ascii_char(c) && unicode_alphanumeric(c) ==> normalized(seq![c]) == unicode_lowercase(
            c,
        ),
        !is_ascii_char(c) && !unicode_alphanumeric(c) ==> normalized(seq![c]).len() == 0,
        normalized(Seq::<char>::empty()).len() == 0,
{
    let one = seq![c];
    assert(one.drop_last() =~= Seq::<char>::empty());
    assert(normalized(one.drop_last()) =~= Seq::<char>::empty());
    assert(one.last() == c);
    if is_ascii_char(c) {
        assert(normalized(one) =~= (if '0' <= c <= '9' || 'a' <= c <= 'z' || 'A' <= c <= 'Z' {
            seq![ascii_lower(c)]
        } else {
            Seq::<char>::empty()
        }));
    } else if unicode_alphanumeric(c) {
        assert(normalized(one) =~= unicode_lowercase(c));
    }
}

/// Lowercase in ASCII moves `A` to `Z` to their small letters, one by one, and
/// leaves all other characters.
pub proof fn law_lowercase_moves_great_letters(s: Seq<char>)
    ensures
        ascii_lowered(s).len() == s.len(),
        forall|i: int|
            #![trigger s[i]]
            0 <= i < s.len() ==> if 'A' <= s[i] <= 'Z' {
                ascii_lowered(s)[i] as int == s[i] as int + 32
            } else {
                ascii_lowered(s)[i] == s[i]
            },
{
}

/// A text begins with another where it is that one, followed by a rest.
pub proof fn law_texts_begin_with_their_start(prefix: Seq<char>, rest: Seq<char>, s: Seq<char>)
    ensures
        begins_with(prefix + rest, prefix),
        begins_with(s, prefix) ==> s == prefix + s.skip(prefix.len() as int),
        s.len() < prefix.len() ==> !begins_with(s, prefix),
{
    assert((prefix + rest).take(prefix.len() as int) =~= prefix);
    if begins_with(s, prefix) {
        assert(s =~= s.take(prefix.len() as int) + s.skip(prefix.len() as int));
    }
}

/// One character is replaced wherever it stands, and all else is left.
pub proof fn law_one_character_is_replaced(a: Seq<char>, b: Seq<char>, c: char, with: Seq<char>)
    ensures
        replaced(a + b, seq![c], with) == replaced(a, seq![c], with) + replaced(b, seq![c], with),
        replaced(seq![c], seq![c], with) == with,
        forall|other: char|
            other != c ==> #[trigger] replaced(seq![other], seq![c], with) == seq![other],
        replaced(Seq::<char>::empty(), seq![c], with).len() == 0,
    decreases a.len(),
{
    let pattern = seq![c];
    let none = Seq::<char>::empty();
    assert(replaced(none, pattern, with) =~= none);
    assert(seq![c].take(1) =~= pattern);
    assert(seq![c].skip(1) =~= none);
    assert(replaced(seq![c], pattern, with) =~= with);
    assert forall|other: char| other != c implies #[trigger] replaced(seq![other], pattern, with)
        == seq![other] by {
        assert(seq![other].take(1)[0] != pattern[0]);
        assert(seq![other].drop_first() =~= none);
        assert(replaced(seq![other], pattern, with) =~= seq![other]);
    }
    if a.len() == 0 {
        assert(a + b =~= b);
        assert(a =~= none);
        assert(replaced(a, pattern, with) + replaced(b, pattern, with) =~= replaced(
            b,
            pattern,
            with,
        ));
    } else {
        let rest = a.drop_first();
        law_one_character_is_replaced(rest, b, c, with);
        let all = a + b;
        assert(all.drop_first() =~= rest + b);
        assert(all.skip(1) =~= rest + b);
        assert(a.skip(1) =~= rest);
        assert(all.take(1)[0] == a[0] && a.take(1)[0] == a[0]);
        if a[0] == c {
            assert(all.take(1) =~= pattern);
            assert(a.take(1) =~= pattern);
        }
        assert(replaced(all, pattern, with) =~= replaced(a, pattern, with) + replaced(
            b,
            pattern,
            with,
        ));
    }
}

proof fn lemma_one_line(line: Seq<char>)
    requires
        !line.contains('\n'),
    ensures
        ended_lines(line).len() == 0,
        last_line(line) == line,
    decreases line.len(),
{
    if line.len() > 0 {
        let before = line.drop_last();
        assert(line[line.len() - 1] != '\n') by {
            if line[line.len() - 1] == '\n' {
                assert(line.contains('\n'));
            }
        }
        assert(!before.contains('\n')) by {
            if before.contains('\n') {
                let i = choose|i: int| 0 <= i < before.len() && before[i] == '\n';
                assert(line[i] == '\n');
            }
        }
        lemma_one_line(before);
        assert(before.push(line.last()) =~= line);
    } else {
        assert(last_line(line) =~= line);
    }
}

proof fn lemma_first_line(line: Seq<char>, rest: Seq<char>)
    requires
        !line.contains('\n'),
    ensures
        ended_lines(line.push('\n') + rest) == seq![line] + ended_lines(rest),
        last_line(line.push('\n') + rest) == last_line(rest),
    decreases rest.len(),
{
    let all = line.push('\n') + rest;
    if rest.len() == 0 {
        lemma_one_line(line);
        assert(all.drop_last() =~= line);
        assert(ended_lines(line) =~= Seq::<Seq<char>>::empty());
        assert(ended_lines(all) =~= seq![line] + ended_lines(rest));
        assert(last_line(all) =~= last_line(rest));
    } else {
        lemma_first_line(line, rest.drop_last());
        assert(all.drop_last() =~= line.push('\n') + rest.drop_last());
        assert(all.last() == rest.last());
        assert(ended_lines(all) =~= seq![line] + ended_lines(rest));
    }
}

/// A text is cut at its line feeds: what stands before the first is the first
/// line, then come the lines of the rest.  A text without one is one line, unless
/// it is empty.
pub proof fn law_lines_end_at_line_feeds(line: Seq<char>, rest: Seq<char>)
    requires
        !line.contains('\n'),
    ensures
        lines(line.push('\n') + rest) == seq![line] + lines(rest),
        line.len() > 0 ==> lines(line) == seq![line],
        lines(Seq::<char>::empty()).len() == 0,
{
    let all = line.push('\n') + rest;
    lemma_first_line(line, rest);
    lemma_one_line(line);
    if rest.len() == 0 {
        assert(all.last() == '\n');
        assert(lines(all) =~= seq![line] + lines(rest));
    } else {
        assert(all.last() == rest.last());
        assert(lines(all) =~= seq![line] + lines(rest));
    }
    if line.len() > 0 {
        assert(line.last() != '\n') by {
            if line.last() == '\n' {
                assert(line[line.len() - 1] == '\n');
                assert(line.contains('\n'));
            }
        }
        assert(lines(line) =~= seq![line]);
    }
}

/// The first character in which two texts differ decides which comes first; a
/// text comes before every longer one that begins with it.
pub proof fn law_the_first_difference_decides(
    start: Seq<char>,
    x: char,
    a: Seq<char>,
    y: char,
    b: Seq<char>,
)
    ensures
        x != y ==> comes_before(start.push(x) + a, start.push(y) + b) == (x < y),
        comes_before(start, start.push(y) + b),
        !comes_before(start + a, start),
    decreases start.len(),
{
    if start.len() == 0 {
        assert((start.push(x) + a)[0] == x && (start.push(y) + b)[0] == y);
    } else {
        let rest = start.drop_first();
        law_the_first_difference_decides(rest, x, a, y, b);
        assert((start.push(x) + a).drop_first() =~= rest.push(x) + a);
        assert((start.push(y) + b).drop_first() =~= rest.push(y) + b);
        assert((start + a).drop_first() =~= rest + a);
    }
}

} // verus!
