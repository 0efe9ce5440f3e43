//! What holds of lines, words and numbers, whatever the text is.
use vstd::prelude::*;

use crate::number::{decimal_of, digit_char, digits_value, number_value, NumberError};
use crate::text::{count_of, lemma_span_before, lemma_span_before_unique, lemma_word_len, lines_of, span_before, white_space, word_len, words_of};

verus! {

/// A text that is ended by a line feed is one line, without a carriage return
/// before the line feed, and the rest of the text follows with its own lines.
/// What no line feed ends is a line as it stands, unless there is nothing.
pub proof fn law_lines(line: Seq<char>, rest: Seq<char>)
    requires
        !line.contains('\n'),
    ensures
        line.len() == 0 ==> lines_of(line).len() == 0,
        line.len() > 0 ==> lines_of(line) == seq![line],
        !line.contains('\r') ==> lines_of(line + seq!['\n'] + rest) == seq![line] + lines_of(rest),
        lines_of(line + seq!['\r', '\n'] + rest) == seq![line] + lines_of(rest),
        line.len() > 0 && line.last() != '\r' ==> lines_of(line + seq!['\n'] + rest) == seq![line]
            + lines_of(rest),
{
    assert forall|i: int| 0 <= i < line.len() implies line[i] != '\n' by {
        assert(line.contains(line[i]));
    }
    lemma_span_before_unique(line, '\n', line.len() as int);
    let one = line + seq!['\n'] + rest;
    lemma_span_before_unique(one, '\n', line.len() as int);
    assert(one.take(line.len() as int) == line);
    assert(one.skip(line.len() as int + 1) == rest);
    if line.len() > 0 {
        assert(line.contains(line.last()));
    }
    let two = line + seq!['\r', '\n'] + rest;
    lemma_span_before_unique(two, '\n', line.len() as int + 1);
    assert(two.take(line.len() as int + 1) == line.push('\r'));
    assert(line.push('\r').drop_last() == line);
    assert(two.skip(line.len() as int + 2) == rest);
}

/// No line holds a line feed.
pub proof fn law_line_is_one(s: Seq<char>, i: int)
    requires
        0 <= i < lines_of(s).len(),
    ensures
        !lines_of(s)[i].contains('\n'),
    decreases s.len(),
{
    lemma_span_before(s, '\n');
    let n = span_before(s, '\n') as int;
    if n < s.len() {
        if i > 0 {
            law_line_is_one(s.skip(n + 1), i - 1);
        }
    }
}

/// White space before a text adds no word. A run of other characters is a word
/// where the text ends or white space follows.
pub proof fn law_words(word: Seq<char>, c: char, rest: Seq<char>)
    requires
        word.len() > 0,
        forall|i: int| 0 <= i < word.len() ==> !white_space(#[trigger] word[i]),
        white_space(c),
    ensures
        words_of(seq![]) == Seq::<Seq<char>>::empty(),
        words_of(seq![c] + rest) == words_of(rest),
        words_of(word) == seq![word],
        words_of(word + seq![c] + rest) == seq![word] + words_of(rest),
{
    assert((seq![c] + rest).skip(1) == rest);
    assert(!white_space(word[0]));
    assert(words_of(Seq::<char>::empty()) == Seq::<Seq<char>>::empty());
    lemma_word_of_run(word, Seq::empty());
    assert(word + Seq::<char>::empty() == word);
    assert(word.take(word.len() as int) == word);
    assert(word.skip(word.len() as int) == Seq::<char>::empty());
    let s = word + seq![c] + rest;
    let tail = seq![c] + rest;
    assert(s == word + tail);
    lemma_word_of_run(word, tail);
    assert(s.take(word.len() as int) == word);
    assert(s.skip(word.len() as int) == tail);
    assert(s[0] == word[0]);
    assert(words_of(tail) == words_of(rest));
    assert(words_of(s) == seq![word] + words_of(tail));
    assert(words_of(word) == seq![word] + words_of(Seq::<char>::empty()));
}

/// The length of the first word.
proof fn lemma_word_of_run(word: Seq<char>, tail: Seq<char>)
    requires
        forall|i: int| 0 <= i < word.len() ==> !white_space(#[trigger] word[i]),
        tail.len() > 0 ==> white_space(tail[0]),
    ensures
        word_len(word + tail) == word.len(),
    decreases word.len(),
{
    if word.len() > 0 {
        let rest = word.skip(1);
        assert forall|i: int| 0 <= i < rest.len() implies !white_space(#[trigger] rest[i]) by {
            assert(rest[i] == word[i + 1]);
        }
        lemma_word_of_run(rest, tail);
        assert((word + tail)[0] == word[0]);
        assert((word + tail).skip(1) == rest + tail);
    } else {
        assert(word + tail == tail);
        lemma_word_len(tail);
    }
}

/// Occurrences add up, and a character occurs once in itself and in no other.
pub proof fn law_count(a: Seq<char>, b: Seq<char>, x: char, c: char)
    ensures
        count_of(a + b, c) == count_of(a, c) + count_of(b, c),
        count_of(seq![x], c) == if x == c {
            1nat
        } else {
            0nat
        },
    decreases b.len(),
{
    assert(seq![x].drop_last() == Seq::<char>::empty());
    assert(count_of(Seq::<char>::empty(), c) == 0);
    if b.len() > 0 {
        law_count(a, b.drop_last(), x, c);
        assert((a + b).drop_last() == a + b.drop_last());
    } else {
        assert(a + b == a);
    }
}

/// What is written in decimal is read back, with a sign or without one.
pub proof fn law_decimal_reads_back(n: nat)
    requires
        n <= i64::MAX,
    ensures
        number_value(decimal_of(n)) == Ok::<int, NumberError>(n as int),
        number_value(seq!['+'] + decimal_of(n)) == Ok::<int, NumberError>(n as int),
        number_value(seq!['-'] + decimal_of(n)) == Ok::<int, NumberError>(-n),
{
    lemma_decimal_digits(n);
    assert((seq!['+'] + decimal_of(n)).skip(1) == decimal_of(n));
    assert((seq!['-'] + decimal_of(n)).skip(1) == decimal_of(n));
}

/// What the digits of a number stand for.
proof fn lemma_decimal_digits(n: nat)
    requires
        n <= i64::MAX,
    ensures
        digits_value(decimal_of(n), false) == Ok::<int, NumberError>(n as int),
        digits_value(decimal_of(n), true) == Ok::<int, NumberError>(-n),
        decimal_of(n).len() > 0,
        '0' <= decimal_of(n)[0] <= '9',
    decreases n,
{
    let s = decimal_of(n);
    if n < 10 {
        assert(s.drop_last() == Seq::<char>::empty());
        assert(digits_value(s.drop_last(), false) == Ok::<int, NumberError>(0));
        assert(digits_value(s.drop_last(), true) == Ok::<int, NumberError>(0));
        assert(s.last() == digit_char(n as int));
    } else {
        lemma_decimal_digits(n / 10);
        assert(s.drop_last() == decimal_of(n / 10));
        assert(s.last() == digit_char(n as int % 10));
    }
}

/// A number has no leading zero, but for zero itself.
pub proof fn law_decimal_is_short(n: nat)
    ensures
        decimal_of(n).len() > 0,
        n > 0 ==> decimal_of(n)[0] != '0',
        n == 0 ==> decimal_of(n) == seq!['0'],
        forall|i: int| 0 <= i < decimal_of(n).len() ==> '0' <= #[trigger] decimal_of(n)[i] <= '9',
    decreases n,
{
    if n >= 10 {
        law_decimal_is_short(n / 10);
    }
}

/// Reading from left to right: one digit more takes the value times ten and
/// the digit, away from zero; a value out of range is an overflow to its side;
/// any other character is invalid. An error stays what it is.
pub proof fn law_number_grows(s: Seq<char>, c: char)
    requires
        s.len() > 0,
        s != seq!['+'],
        s != seq!['-'],
    ensures
        ({
            let d = c as int - '0' as int;
            match number_value(s) {
                Err(e) => number_value(s.push(c)) == Err::<int, NumberError>(e),
                Ok(v) => {
                    let w = if s[0] == '-' {
                        10 * v - d
                    } else {
                        10 * v + d
                    };
                    number_value(s.push(c)) == if d < 0 || d > 9 {
                        Err::<int, NumberError>(NumberError::InvalidDigit)
                    } else if w > i64::MAX {
                        Err::<int, NumberError>(NumberError::PosOverflow)
                    } else if w < i64::MIN {
                        Err::<int, NumberError>(NumberError::NegOverflow)
                    } else {
                        Ok::<int, NumberError>(w)
                    }
                },
            }
        }),
{
    if s.len() == 1 && (s[0] == '+' || s[0] == '-') {
        assert(s == seq![s[0]]);
    }
    assert(s.push(c).drop_last() == s);
    assert(s.push(c).skip(1) == s.skip(1).push(c));
    assert(s.skip(1).push(c).drop_last() == s.skip(1));
}

/// Where reading starts: nothing, one character, and one behind a sign.
pub proof fn law_number_starts(c: char)
    ensures
        number_value(seq![]) == Err::<int, NumberError>(NumberError::Empty),
        '0' <= c <= '9' ==> {
            &&& number_value(seq![c]) == Ok::<int, NumberError>(c as int - '0' as int)
            &&& number_value(seq!['+', c]) == Ok::<int, NumberError>(c as int - '0' as int)
            &&& number_value(seq!['-', c]) == Ok::<int, NumberError>('0' as int - c as int)
        },
        !('0' <= c <= '9') ==> {
            &&& number_value(seq![c]) == Err::<int, NumberError>(NumberError::InvalidDigit)
            &&& number_value(seq!['+', c]) == Err::<int, NumberError>(NumberError::InvalidDigit)
            &&& number_value(seq!['-', c]) == Err::<int, NumberError>(NumberError::InvalidDigit)
        },
{
    reveal_with_fuel(digits_value, 2);
    assert(seq![c].drop_last() == Seq::<char>::empty());
    assert(seq!['+', c].skip(1) == seq![c]);
    assert(seq!['-', c].skip(1) == seq![c]);
}

/// What is read is a number of 64 bits.
pub proof fn law_number_in_range(s: Seq<char>)
    ensures
        number_value(s) matches Ok(v) ==> i64::MIN <= v <= i64::MAX,
{
}

} // verus!
