//! Characters, words and decimal numbers.
//!
//! Text is modelled as the sequence of its characters.  A word is a maximal run
//! of characters that are not white space.

use vstd::prelude::*;
use vstd::string::StringExecFns;

verus! {

// ---------------------------------------------------------------------------
// Characters
// ---------------------------------------------------------------------------

/// The characters with the Unicode property `White_Space`.
pub open spec fn is_space(c: char) -> bool {
    let u = c as u32;
    ||| 0x09 <= u <= 0x0D
    ||| u == 0x20
    ||| u == 0x85
    ||| u == 0xA0
    ||| u == 0x1680
    ||| 0x2000 <= u <= 0x200A
    ||| u == 0x2028
    ||| u == 0x2029
    ||| u == 0x202F
    ||| u == 0x205F
    ||| u == 0x3000
}

pub open spec fn is_ascii_char(c: char) -> bool {
    (c as u32) < 0x80
}

pub open spec fn is_digit(c: char) -> bool {
    '0' <= c <= '9'
}

pub open spec fn is_ascii_alphanumeric(c: char) -> bool {
    is_digit(c) || 'A' <= c <= 'Z' || 'a' <= c <= 'z'
}

pub open spec fn ascii_lower(c: char) -> char {
    if 'A' <= c <= 'Z' {
        ((c as u8) + 32) as u8 as char
    } else {
        c
    }
}

/// Whether a character beyond ASCII is alphabetic or numeric in Unicode.
pub uninterp spec fn unicode_alphanumeric(c: char) -> bool;

/// The Unicode lowercase mapping of a character beyond ASCII.
pub uninterp spec fn unicode_lowercase(c: char) -> Seq<char>;

pub open spec fn is_alphanumeric(c: char) -> bool {
    if is_ascii_char(c) {
        is_ascii_alphanumeric(c)
    } else {
        unicode_alphanumeric(c)
    }
}

pub open spec fn lowercase(c: char) -> Seq<char> {
    if is_ascii_char(c) {
        seq![ascii_lower(c)]
    } else {
        unicode_lowercase(c)
    }
}

/// `char::is_whitespace`: the test for the Unicode property `White_Space`,
/// whose members are those of `is_space`.
pub assume_specification[ char::is_whitespace ](c: char) -> (b: bool)
    ensures
        b == is_space(c),
;

/// `char::is_alphanumeric`: letters and digits in ASCII, and beyond ASCII what
/// Unicode counts as alphabetic or numeric, which is left as a name.
pub assume_specification[ char::is_alphanumeric ](c: char) -> (b: bool)
    ensures
        b == (if is_ascii_char(c) {
            is_ascii_alphanumeric(c)
        } else {
            unicode_alphanumeric(c)
        }),
;

/// `char::to_lowercase`: the characters of the lowercase mapping.  In ASCII it
/// only moves `A` to `Z`; beyond ASCII the mapping is left as a name.
#[verifier::external_body]
pub(crate) fn lowercase_chars(c: char) -> (mapped: Vec<char>)
    ensures
        mapped@ == (if is_ascii_char(c) {
            seq![ascii_lower(c)]
        } else {
            unicode_lowercase(c)
        }),
{
    c.to_lowercase().collect()
}

/// `String::push`: appends one character.
pub assume_specification[ String::push ](s: &mut String, c: char)
    ensures
        final(s)@ == old(s)@.push(c),
;

/// Whether two texts have the same characters.
pub fn same_text(left: &str, right: &str) -> (same: bool)
    ensures
        same == (left@ == right@),
{
    left.to_string() == right.to_string()
}

// ---------------------------------------------------------------------------
// Trimming and words
// ---------------------------------------------------------------------------

/// The text without its leading white space.
pub open spec fn trimmed_start(s: Seq<char>) -> Seq<char>
    decreases s.len(),
{
    if s.len() > 0 && is_space(s[0]) {
        trimmed_start(s.drop_first())
    } else {
        s
    }
}

/// The text without its trailing white space.
pub open spec fn trimmed_end(s: Seq<char>) -> Seq<char>
    decreases s.len(),
{
    if s.len() > 0 && is_space(s.last()) {
        trimmed_end(s.drop_last())
    } else {
        s
    }
}

/// The text without white space on either side.
pub open spec fn trimmed(s: Seq<char>) -> Seq<char> {
    trimmed_end(trimmed_start(s))
}

/// `str::trim`: removes white space on both sides.
pub assume_specification[ str::trim ](s: &str) -> (t: &str)
    ensures
        t@ == trimmed(s@),
;

/// `str::trim_start`: removes leading white space.
pub assume_specification[ str::trim_start ](s: &str) -> (t: &str)
    ensures
        t@ == trimmed_start(s@),
;

/// The words of a text: its maximal runs of characters other than white space.
pub open spec fn words(s: Seq<char>) -> Seq<Seq<char>>
    decreases s.len(),
{
    if s.len() == 0 {
        seq![]
    } else if is_space(s.last()) {
        words(s.drop_last())
    } else if s.len() == 1 || is_space(s[s.len() - 2]) {
        words(s.drop_last()).push(seq![s.last()])
    } else {
        let before = words(s.drop_last());
        before.drop_last().push(before.last().push(s.last()))
    }
}

/// The texts of a list of strings.
pub open spec fn texts(list: Seq<String>) -> Seq<Seq<char>> {
    Seq::new(list.len(), |i: int| list[i]@)
}

/// The text of an optional string.
pub open spec fn opt_text(text: Option<String>) -> Option<Seq<char>> {
    match text {
        Some(text) => Some(text@),
        None => None,
    }
}

/// The text of an optional string slice.
pub open spec fn opt_str(text: Option<&str>) -> Option<Seq<char>> {
    match text {
        Some(text) => Some(text@),
        None => None,
    }
}

/// The items with a separator between each two neighbours.
pub open spec fn joined(items: Seq<Seq<char>>, separator: Seq<char>) -> Seq<char>
    decreases items.len(),
{
    if items.len() == 0 {
        seq![]
    } else if items.len() == 1 {
        items[0]
    } else {
        joined(items.drop_last(), separator) + separator + items.last()
    }
}

/// A run of characters that stands as one word.
pub open spec fn is_word(w: Seq<char>) -> bool {
    w.len() > 0 && forall|i: int| 0 <= i < w.len() ==> !is_space(#[trigger] w[i])
}

pub open spec fn all_words(items: Seq<Seq<char>>) -> bool {
    forall|i: int| 0 <= i < items.len() ==> is_word(#[trigger] items[i])
}

/// The letters and digits of a word in lowercase: what decides whether two
/// words are taken for the same.
pub open spec fn normalized(w: Seq<char>) -> Seq<char>
    decreases w.len(),
{
    if w.len() == 0 {
        seq![]
    } else if is_alphanumeric(w.last()) {
        normalized(w.drop_last()) + lowercase(w.last())
    } else {
        normalized(w.drop_last())
    }
}

/// The characters of a text.
pub fn chars_of(text: &str) -> (chars: Vec<char>)
    ensures
        chars@ == text@,
{
    let mut chars: Vec<char> = Vec::new();
    for c in it: text.chars()
        invariant
            it.seq() == text@,
            chars@ == text@.take(it.index() as int),
    {
        chars.push(c);
        assert(text@.take(it.index() as int + 1) =~= text@.take(it.index() as int).push(c));
    }
    assert(text@.take(text@.len() as int) =~= text@);
    chars
}

/// The string made of the characters from `from` up to `to`.
pub fn string_of(chars: &[char], from: usize, to: usize) -> (text: String)
    requires
        from <= to <= chars@.len(),
    ensures
        text@ == chars@.subrange(from as int, to as int),
{
    let mut text = String::new();
    for i in from..to
        invariant
            from <= to <= chars@.len(),
            text@ == chars@.subrange(from as int, i as int),
    {
        text.push(chars[i]);
        assert(chars@.subrange(from as int, i + 1) =~= chars@.subrange(from as int, i as int).push(
            chars@[i as int],
        ));
    }
    text
}

/// The words of a text, in order.
pub fn split_words(text: &str) -> (list: Vec<String>)
    ensures
        texts(list@) == words(text@),
{
    let chars = chars_of(text);
    let mut list: Vec<String> = Vec::new();
    let mut current = String::new();
    for i in 0..chars.len()
        invariant
            chars@ == text@,
            i > 0 && !is_space(chars@[i - 1]) ==> current@.len() > 0 && words(
                text@.take(i as int),
            ) == texts(list@).push(current@),
            i == 0 || is_space(chars@[i - 1]) ==> current@.len() == 0 && words(text@.take(i as int))
                == texts(list@),
    {
        let c = chars[i];
        let ghost before = text@.take(i as int);
        let ghost after = text@.take(i + 1);
        proof {
            assert(after.drop_last() =~= before);
            assert(after.last() == c);
            if i > 0 {
                assert(after[after.len() - 2] == chars@[i - 1]);
            }
        }
        if c.is_whitespace() {
            if !current.as_str().is_empty() {
                let ghost listed = texts(list@);
                let ghost word = current@;
                list.push(current);
                current = String::new();
                proof {
                    assert(texts(list@) =~= listed.push(word));
                }
            }
        } else {
            let ghost word = current@;
            current.push(c);
            proof {
                if i > 0 && !is_space(chars@[i - 1]) {
                    let all = texts(list@).push(word);
                    assert(all.drop_last() =~= texts(list@));
                    assert(all.last() =~= word);
                } else {
                    assert(current@ =~= seq![c]);
                }
            }
        }
    }
    proof {
        assert(text@.take(text@.len() as int) =~= text@);
    }
    if !current.as_str().is_empty() {
        let ghost listed = texts(list@);
        let ghost word = current@;
        list.push(current);
        proof {
            assert(texts(list@) =~= listed.push(word));
        }
    }
    list
}

/// The strings from `from` up to `to`, with a separator between each two
/// neighbours.
pub fn join_range(list: &[String], from: usize, to: usize, separator: &str) -> (text: String)
    requires
        from <= to <= list@.len(),
    ensures
        text@ == joined(texts(list@).subrange(from as int, to as int), separator@),
{
    let mut text = String::new();
    for i in from..to
        invariant
            from <= to <= list@.len(),
            text@ == joined(texts(list@).subrange(from as int, i as int), separator@),
    {
        let ghost next = texts(list@).subrange(from as int, i + 1);
        proof {
            assert(next.drop_last() =~= texts(list@).subrange(from as int, i as int));
            assert(next.last() == list@[i as int]@);
        }
        if i > from {
            text.append(separator);
        }
        text.append(list[i].as_str());
        proof {
            if i == from {
                assert(text@ =~= next[0]);
            }
        }
    }
    text
}

/// The letters and digits of a word in lowercase.
pub fn normalize_word(word: &str) -> (text: String)
    ensures
        text@ == normalized(word@),
{
    let chars = chars_of(word);
    let mut text = String::new();
    for i in 0..chars.len()
        invariant
            chars@ == word@,
            text@ == normalized(word@.take(i as int)),
    {
        let c = chars[i];
        let ghost next = word@.take(i + 1);
        proof {
            assert(next.drop_last() =~= word@.take(i as int));
            assert(next.last() == c);
        }
        if c.is_alphanumeric() {
            let mapped = lowercase_chars(c);
            let ghost before = text@;
            for j in 0..mapped.len()
                invariant
                    text@ == before + mapped@.take(j as int),
            {
                text.push(mapped[j]);
                assert(mapped@.take(j + 1) =~= mapped@.take(j as int).push(mapped@[j as int]));
            }
            assert(mapped@.take(mapped@.len() as int) =~= mapped@);
        }
    }
    assert(word@.take(word@.len() as int) =~= word@);
    text
}

// ---------------------------------------------------------------------------
// ASCII case, prefixes and suffixes
// ---------------------------------------------------------------------------

/// The text with `A` to `Z` in lowercase.
pub open spec fn ascii_lowered(s: Seq<char>) -> Seq<char> {
    Seq::new(s.len(), |i: int| ascii_lower(s[i]))
}

/// The text with `A` to `Z` in lowercase.
pub fn to_ascii_lower(text: &str) -> (lowered: String)
    ensures
        lowered@ == ascii_lowered(text@),
{
    let chars = chars_of(text);
    let mut lowered = String::new();
    for i in 0..chars.len()
        invariant
            chars@ == text@,
            lowered@ == ascii_lowered(text@.take(i as int)),
    {
        let c = chars[i];
        let mapped = if 'A' <= c && c <= 'Z' {
            ((c as u8) + 32) as char
        } else {
            c
        };
        lowered.push(mapped);
        assert(lowered@ =~= ascii_lowered(text@.take(i + 1)));
    }
    assert(text@.take(text@.len() as int) =~= text@);
    lowered
}

/// Whether `s` begins with `prefix`.
pub open spec fn begins_with(s: Seq<char>, prefix: Seq<char>) -> bool {
    prefix.len() <= s.len() && s.take(prefix.len() as int) == prefix
}

/// Whether `text` begins with `prefix`.
pub fn starts_with(text: &str, prefix: &str) -> (yes: bool)
    ensures
        yes == begins_with(text@, prefix@),
{
    let chars = chars_of(text);
    let wanted = chars_of(prefix);
    if wanted.len() > chars.len() {
        return false;
    }
    for i in 0..wanted.len()
        invariant
            chars@ == text@,
            wanted@ == prefix@,
            wanted@.len() <= chars@.len(),
            forall|j: int| 0 <= j < i ==> text@[j] == prefix@[j],
    {
        if chars[i] != wanted[i] {
            proof {
                if begins_with(text@, prefix@) {
                    assert(text@.take(prefix@.len() as int)[i as int] == prefix@[i as int]);
                }
            }
            return false;
        }
    }
    assert(text@.take(prefix@.len() as int) =~= prefix@);
    true
}

/// The concatenation of two texts.
pub fn concat2(first: &str, second: &str) -> (text: String)
    ensures
        text@ == first@ + second@,
{
    let mut text = first.to_string();
    text.append(second);
    text
}

/// The concatenation of three texts.
pub fn concat3(first: &str, second: &str, third: &str) -> (text: String)
    ensures
        text@ == first@ + second@ + third@,
{
    let mut text = first.to_string();
    text.append(second);
    text.append(third);
    text
}

/// The text without the spaces, and no other white space, at its start.
pub open spec fn without_leading_spaces(s: Seq<char>) -> Seq<char>
    decreases s.len(),
{
    if s.len() > 0 && s[0] == ' ' {
        without_leading_spaces(s.drop_first())
    } else {
        s
    }
}

/// The text without the spaces at its start.
pub fn trim_leading_spaces(text: &str) -> (trimmed: String)
    ensures
        trimmed@ == without_leading_spaces(text@),
{
    let chars = chars_of(text);
    let mut start: usize = 0;
    assert(text@.skip(0) =~= text@);
    while start < chars.len() && chars[start] == ' '
        invariant
            chars@ == text@,
            start <= chars@.len(),
            without_leading_spaces(text@.skip(start as int)) == without_leading_spaces(text@),
        decreases chars@.len() - start,
    {
        assert(text@.skip(start as int).drop_first() =~= text@.skip(start + 1));
        start = start + 1;
    }
    assert(text@.subrange(start as int, text@.len() as int) =~= text@.skip(start as int));
    string_of(chars.as_slice(), start, chars.len())
}

/// The text with every occurrence of `pattern`, from left to right, replaced.
/// An empty pattern occurs before every character and at the end.
pub open spec fn replaced(s: Seq<char>, pattern: Seq<char>, with: Seq<char>) -> Seq<char>
    decreases s.len(),
{
    if s.len() == 0 {
        if pattern.len() == 0 {
            with
        } else {
            s
        }
    } else if pattern.len() == 0 {
        with + seq![s[0]] + replaced(s.drop_first(), pattern, with)
    } else if begins_with(s, pattern) {
        with + replaced(s.skip(pattern.len() as int), pattern, with)
    } else {
        seq![s[0]] + replaced(s.drop_first(), pattern, with)
    }
}

fn occurs_at(chars: &Vec<char>, at: usize, pattern: &Vec<char>) -> (yes: bool)
    requires
        at <= chars@.len(),
    ensures
        yes == begins_with(chars@.skip(at as int), pattern@),
{
    if pattern.len() > chars.len() - at {
        return false;
    }
    let ghost rest = chars@.skip(at as int);
    for i in 0..pattern.len()
        invariant
            at + pattern.len() <= chars.len(),
            rest == chars@.skip(at as int),
            forall|j: int| 0 <= j < i ==> rest[j] == pattern@[j],
    {
        if chars[at + i] != pattern[i] {
            proof {
                if begins_with(rest, pattern@) {
                    assert(rest.take(pattern@.len() as int)[i as int] == pattern@[i as int]);
                }
            }
            return false;
        }
    }
    assert(rest.take(pattern@.len() as int) =~= pattern@);
    true
}

/// The text with every occurrence of `pattern` replaced.
pub fn replace_text(text: &str, pattern: &str, with: &str) -> (result: String)
    ensures
        result@ == replaced(text@, pattern@, with@),
{
    let chars = chars_of(text);
    let wanted = chars_of(pattern);
    let mut result = String::new();
    let mut i: usize = 0;
    assert(text@.skip(0) =~= text@);
    while i < chars.len()
        invariant
            chars@ == text@,
            wanted@ == pattern@,
            i <= chars@.len(),
            result@ + replaced(text@.skip(i as int), pattern@, with@) == replaced(
                text@,
                pattern@,
                with@,
            ),
        decreases chars@.len() - i,
    {
        let ghost rest = text@.skip(i as int);
        let ghost before = result@;
        assert(rest.drop_first() =~= text@.skip(i + 1));
        if wanted.len() == 0 {
            result.append(with);
            result.push(chars[i]);
            i = i + 1;
            assert(result@ + replaced(text@.skip(i as int), pattern@, with@) =~= before + replaced(
                rest,
                pattern@,
                with@,
            ));
        } else if occurs_at(&chars, i, &wanted) {
            result.append(with);
            i = i + wanted.len();
            assert(rest.skip(pattern@.len() as int) =~= text@.skip(i as int));
            assert(result@ + replaced(text@.skip(i as int), pattern@, with@) =~= before + replaced(
                rest,
                pattern@,
                with@,
            ));
        } else {
            result.push(chars[i]);
            i = i + 1;
            assert(result@ + replaced(text@.skip(i as int), pattern@, with@) =~= before + replaced(
                rest,
                pattern@,
                with@,
            ));
        }
    }
    let ghost done = result@;
    assert(text@.skip(i as int) =~= Seq::<char>::empty());
    if wanted.len() == 0 {
        result.append(with);
    }
    assert(result@ =~= done + replaced(Seq::<char>::empty(), pattern@, with@));
    result
}

/// The lines of a text: what stands before each line feed, and what follows the
/// last one if anything does.
pub open spec fn lines(s: Seq<char>) -> Seq<Seq<char>>
    decreases s.len(),
{
    if s.len() == 0 {
        seq![]
    } else if s.last() == '\n' {
        ended_lines(s)
    } else {
        ended_lines(s).push(last_line(s))
    }
}

/// What stands behind the last line feed.
pub open spec fn last_line(s: Seq<char>) -> Seq<char>
    decreases s.len(),
{
    if s.len() == 0 || s.last() == '\n' {
        seq![]
    } else {
        last_line(s.drop_last()).push(s.last())
    }
}

/// What stands before each line feed.
pub open spec fn ended_lines(s: Seq<char>) -> Seq<Seq<char>>
    decreases s.len(),
{
    if s.len() == 0 {
        seq![]
    } else if s.last() == '\n' {
        ended_lines(s.drop_last()).push(last_line(s.drop_last()))
    } else {
        ended_lines(s.drop_last())
    }
}

/// The lines of a text, in order.
pub fn split_lines(text: &str) -> (list: Vec<String>)
    ensures
        texts(list@) == lines(text@),
{
    let chars = chars_of(text);
    let mut list: Vec<String> = Vec::new();
    let mut current = String::new();
    for i in 0..chars.len()
        invariant
            chars@ == text@,
            texts(list@) == ended_lines(text@.take(i as int)),
            current@ == last_line(text@.take(i as int)),
    {
        let c = chars[i];
        assert(text@.take(i + 1).drop_last() =~= text@.take(i as int));
        if c == '\n' {
            let ghost listed = list@;
            let ghost line = current@;
            list.push(current);
            current = String::new();
            assert(texts(list@) =~= texts(listed).push(line));
        } else {
            current.push(c);
        }
    }
    assert(text@.take(text@.len() as int) =~= text@);
    if chars.len() > 0 && chars[chars.len() - 1] != '\n' {
        let ghost listed = list@;
        let ghost line = current@;
        list.push(current);
        assert(texts(list@) =~= texts(listed).push(line));
    }
    assert(text@.len() == 0 ==> texts(list@) =~= lines(text@));
    list
}

/// Whether `a` comes before `b` in the order of characters.
pub open spec fn comes_before(a: Seq<char>, b: Seq<char>) -> bool
    decreases a.len(),
{
    if b.len() == 0 {
        false
    } else if a.len() == 0 {
        true
    } else if a[0] == b[0] {
        comes_before(a.drop_first(), b.drop_first())
    } else {
        a[0] < b[0]
    }
}

/// Whether `a` comes before `b` in the order of characters.
pub fn is_before(a: &str, b: &str) -> (yes: bool)
    ensures
        yes == comes_before(a@, b@),
{
    let left = chars_of(a);
    let right = chars_of(b);
    let mut i: usize = 0;
    assert(a@.skip(0) =~= a@ && b@.skip(0) =~= b@);
    while i < left.len() && i < right.len()
        invariant
            left@ == a@,
            right@ == b@,
            i <= left@.len(),
            i <= right@.len(),
            comes_before(a@, b@) == comes_before(a@.skip(i as int), b@.skip(i as int)),
        decreases left@.len() - i,
    {
        assert(a@.skip(i as int).drop_first() =~= a@.skip(i + 1));
        assert(b@.skip(i as int).drop_first() =~= b@.skip(i + 1));
        if left[i] != right[i] {
            return left[i] < right[i];
        }
        i = i + 1;
    }
    i < right.len()
}

// ---------------------------------------------------------------------------
// Decimal numbers
// ---------------------------------------------------------------------------

pub open spec fn digit_char(d: int) -> char {
    (48 + d) as u8 as char
}

/// The decimal digits of a number, without leading zeros.
pub open spec fn decimal(n: nat) -> Seq<char>
    decreases n,
{
    if n < 10 {
        seq![digit_char(n as int)]
    } else {
        decimal(n / 10).push(digit_char((n % 10) as int))
    }
}

/// The decimal digits of a number, without leading zeros.
pub fn decimal_text(n: u64) -> (text: String)
    ensures
        text@ == decimal(n as nat),
    decreases n,
{
    if n < 10 {
        let mut text = String::new();
        text.push((48 + n as u8) as char);
        assert(text@ =~= decimal(n as nat));
        text
    } else {
        let mut text = decimal_text(n / 10);
        text.push((48 + (n % 10) as u8) as char);
        text
    }
}

/// A number in decimal with a minus sign where it is negative.
pub open spec fn signed_decimal(n: int) -> Seq<char> {
    if n < 0 {
        seq!['-'] + decimal((-n) as nat)
    } else {
        decimal(n as nat)
    }
}

/// A number in decimal with a minus sign where it is negative.
pub fn signed_decimal_text(n: i64) -> (text: String)
    ensures
        text@ == signed_decimal(n as int),
{
    if n < 0 {
        let magnitude: u64 = if n == i64::MIN {
            9223372036854775808
        } else {
            (-n) as u64
        };
        let digits = decimal_text(magnitude);
        let mut text = String::new();
        text.push('-');
        text.append(digits.as_str());
        assert(text@ =~= signed_decimal(n as int));
        text
    } else {
        decimal_text(n as u64)
    }
}

pub open spec fn all_digits(s: Seq<char>) -> bool {
    forall|i: int| 0 <= i < s.len() ==> is_digit(#[trigger] s[i])
}

/// The value of a run of decimal digits.
pub open spec fn digits_value(s: Seq<char>) -> nat
    decreases s.len(),
{
    if s.len() == 0 {
        0
    } else {
        digits_value(s.drop_last()) * 10 + (s.last() as nat - 48) as nat
    }
}

/// The digits after an optional leading plus sign.
pub open spec fn unsigned_digits(s: Seq<char>) -> Seq<char> {
    if s.len() > 0 && s[0] == '+' {
        s.drop_first()
    } else {
        s
    }
}

/// Why a text is not a number.
#[derive(Clone, Copy, Debug, PartialEq, Eq, Structural)]
pub enum NumberError {
    Empty,
    InvalidDigit,
    TooLarge,
}

impl NumberError {
    pub open spec fn text(self) -> Seq<char> {
        match self {
            NumberError::Empty => "cannot parse integer from empty string"@,
            NumberError::InvalidDigit => "invalid digit found in string"@,
            NumberError::TooLarge => "number too large to fit in target type"@,
        }
    }

    pub fn message(self) -> (text: &'static str)
        ensures
            text@ == self.text(),
    {
        match self {
            NumberError::Empty => "cannot parse integer from empty string",
            NumberError::InvalidDigit => "invalid digit found in string",
            NumberError::TooLarge => "number too large to fit in target type",
        }
    }
}

/// The digits at the start of a text.
pub open spec fn leading_digits(s: Seq<char>) -> Seq<char>
    decreases s.len(),
{
    if s.len() > 0 && is_digit(s[0]) {
        seq![s[0]] + leading_digits(s.drop_first())
    } else {
        seq![]
    }
}

/// A number in decimal: an optional plus sign, then at least one digit and
/// nothing else, with a value that fits a `usize`.  Where the digits at the start
/// do not fit, what comes behind them plays no part.
pub open spec fn parsed_usize(s: Seq<char>) -> Result<usize, NumberError> {
    let digits = unsigned_digits(s);
    let run = leading_digits(digits);
    if s.len() == 0 {
        Err(NumberError::Empty)
    } else if digits_value(run) > usize::MAX {
        Err(NumberError::TooLarge)
    } else if digits.len() == 0 || run.len() < digits.len() {
        Err(NumberError::InvalidDigit)
    } else {
        Ok(digits_value(run) as usize)
    }
}

proof fn lemma_leading_digits(s: Seq<char>, k: int)
    requires
        0 <= k <= s.len(),
        forall|j: int| 0 <= j < k ==> is_digit(#[trigger] s[j]),
    ensures
        ({
            let run = leading_digits(s);
            &&& k <= run.len() <= s.len()
            &&& run == s.take(run.len() as int)
            &&& all_digits(run)
            &&& k < s.len() && !is_digit(s[k]) ==> run.len() == k
        }),
    decreases s.len(),
{
    let run = leading_digits(s);
    if s.len() > 0 && is_digit(s[0]) {
        let rest = s.drop_first();
        let fewer: int = if k > 0 {
            k - 1
        } else {
            0
        };
        assert forall|j: int| 0 <= j < fewer implies is_digit(#[trigger] rest[j]) by {
            assert(rest[j] == s[j + 1]);
        }
        lemma_leading_digits(rest, fewer);
        assert(run =~= s.take(run.len() as int));
        assert forall|j: int| 0 <= j < run.len() implies is_digit(#[trigger] run[j]) by {
            if j > 0 {
                assert(run[j] == leading_digits(rest)[j - 1]);
            }
        }
    } else {
        assert(k == 0) by {
            if k > 0 {
                assert(is_digit(s[0]));
            }
        }
        assert(run =~= s.take(0));
    }
}

proof fn lemma_digits_value_grows(s: Seq<char>, k: int)
    requires
        0 <= k <= s.len(),
        all_digits(s),
    ensures
        digits_value(s.take(k)) <= digits_value(s),
    decreases s.len() - k,
{
    if k < s.len() {
        let next = s.take(k + 1);
        assert(next.drop_last() =~= s.take(k));
        assert(is_digit(s[k]));
        lemma_digits_value_grows(s, k + 1);
    } else {
        assert(s.take(k) =~= s);
    }
}

/// Reads a number in decimal.
pub fn parse_usize(text: &str) -> (value: Result<usize, NumberError>)
    ensures
        value == parsed_usize(text@),
{
    let chars = chars_of(text);
    if chars.len() == 0 {
        return Err(NumberError::Empty);
    }
    let start: usize = if chars[0] == '+' {
        1
    } else {
        0
    };
    let ghost digits = unsigned_digits(text@);
    proof {
        assert(digits =~= text@.skip(start as int));
    }
    if start == chars.len() {
        return Err(NumberError::InvalidDigit);
    }
    let mut value: usize = 0;
    for i in start..chars.len()
        invariant
            chars@ == text@,
            start <= i <= chars@.len(),
            digits == text@.skip(start as int),
            digits == unsigned_digits(text@),
            digits.len() > 0,
            forall|j: int| 0 <= j < i - start ==> is_digit(#[trigger] digits[j]),
            value == digits_value(digits.take(i - start)),
    {
        let c = chars[i];
        let ghost k = i - start;
        proof {
            assert(digits[k] == c);
            assert(digits.take(k + 1).drop_last() =~= digits.take(k));
        }
        if c < '0' || '9' < c {
            proof {
                lemma_leading_digits(digits, k);
            }
            return Err(NumberError::InvalidDigit);
        }
        let digit: usize = (c as u8 - 48) as usize;
        let next = match value.checked_mul(10) {
            Some(scaled) => scaled.checked_add(digit),
            None => None,
        };
        match next {
            Some(next) => {
                value = next;
            },
            None => {
                proof {
                    lemma_leading_digits(digits, k + 1);
                    let run = leading_digits(digits);
                    lemma_digits_value_grows(run, k + 1);
                    assert(run.take(k + 1) =~= digits.take(k + 1));
                }
                return Err(NumberError::TooLarge);
            },
        }
    }
    proof {
        lemma_leading_digits(digits, digits.len() as int);
        assert(digits.take(digits.len() as int) =~= digits);
    }
    Ok(value)
}

pub(crate) proof fn lemma_decimal_digits(n: nat)
    ensures
        decimal(n).len() > 0,
        all_digits(decimal(n)),
        digits_value(decimal(n)) == n,
    decreases n,
{
    if n < 10 {
        let one = decimal(n);
        assert(one.drop_last() =~= seq![]);
        assert(digits_value(one.drop_last()) == 0);
        assert(is_digit(one[0]));
    } else {
        lemma_decimal_digits(n / 10);
        let all = decimal(n);
        assert(all.drop_last() =~= decimal(n / 10));
        assert forall|i: int| 0 <= i < all.len() implies is_digit(#[trigger] all[i]) by {
            if i < all.len() - 1 {
                assert(all[i] == decimal(n / 10)[i]);
            }
        }
    }
}

/// A number reads back as it was written.
pub proof fn law_numbers_read_back(n: usize)
    ensures
        parsed_usize(decimal(n as nat)) == Ok::<usize, NumberError>(n),
{
    let digits = decimal(n as nat);
    lemma_decimal_digits(n as nat);
    assert(is_digit(digits[0]));
    lemma_leading_digits(digits, digits.len() as int);
    assert(digits.take(digits.len() as int) =~= digits);
}

/// Digits are read from the left, each ten times the next; a sign may go before
/// them, and leading zeros change nothing.
pub proof fn law_digits_are_read_from_the_left(digits: Seq<char>, digit: char)
    requires
        all_digits(digits),
        is_digit(digit),
    ensures
        ({
            let all = digits.push(digit);
            let value = digits_value(digits) * 10 + (digit as int - '0' as int);
            &&& digits_value(all) == value
            &&& digits_value(Seq::<char>::empty()) == 0
            &&& value <= usize::MAX ==> parsed_usize(all) == Ok::<usize, NumberError>(
                value as usize,
            )
            &&& value > usize::MAX ==> parsed_usize(all) == Err::<usize, NumberError>(
                NumberError::TooLarge,
            )
            &&& parsed_usize(seq!['+'] + all) == parsed_usize(all)
        }),
{
    let all = digits.push(digit);
    let signed = seq!['+'] + all;
    assert(all.drop_last() =~= digits);
    assert forall|i: int| 0 <= i < all.len() implies is_digit(#[trigger] all[i]) by {
        if i < digits.len() {
            assert(is_digit(digits[i]));
        }
    }
    assert(is_digit(all[0]));
    lemma_leading_digits(all, all.len() as int);
    assert(all.take(all.len() as int) =~= all);
    assert(signed.drop_first() =~= all);
}

/// What does not begin with a digit, or with a sign and a digit, is no number, and
/// nothing at all is not one either.
pub proof fn law_other_texts_are_no_numbers(s: Seq<char>)
    ensures
        s.len() == 0 ==> parsed_usize(s) == Err::<usize, NumberError>(NumberError::Empty),
        s.len() > 0 && s[0] != '+' && !is_digit(s[0]) ==> parsed_usize(s) == Err::<
            usize,
            NumberError,
        >(NumberError::InvalidDigit),
        s.len() > 0 && s[0] == '+' && (s.len() == 1 || !is_digit(s[1])) ==> parsed_usize(s) == Err::<
            usize,
            NumberError,
        >(NumberError::InvalidDigit),
{
    let digits = unsigned_digits(s);
    if s.len() > 0 && digits.len() > 0 && !is_digit(digits[0]) {
        assert(leading_digits(digits) =~= seq![]);
        assert(digits_value(leading_digits(digits)) == 0);
    }
    if s.len() > 0 && digits.len() == 0 {
        assert(digits_value(leading_digits(digits)) == 0);
    }
}

} // verus!
