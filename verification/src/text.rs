//! The operations on text that the commands need.

use std::num::ParseIntError;
use vstd::prelude::*;

verus! {

/// `text` without the white space at its two ends.
pub uninterp spec fn trim_of(text: Seq<char>) -> Seq<char>;

/// `text` in lower case.
pub uninterp spec fn lowercase_of(text: Seq<char>) -> Seq<char>;

/// The number that `text` is the decimal form of, if it is one that fits.
pub uninterp spec fn parsed_usize(text: Seq<char>) -> Option<usize>;

/// The number that `text` is the decimal form of, if it is one that fits.
pub uninterp spec fn parsed_i64(text: Seq<char>) -> Option<i64>;

/// The decimal form of `n`.
pub uninterp spec fn decimal_of(n: int) -> Seq<char>;

/// The parts into which `sep` cuts `text`: one more than there are
/// occurrences of `sep`, none of which stays in a part.
pub open spec fn split(text: Seq<char>, sep: char) -> Seq<Seq<char>>
    decreases text.len(),
{
    if text.len() == 0 {
        seq![Seq::empty()]
    } else {
        let rest = split(text.drop_first(), sep);
        if text[0] == sep {
            seq![Seq::empty()] + rest
        } else {
            rest.update(0, seq![text[0]] + rest[0])
        }
    }
}

/// The part of `text` before the first `sep`: all of it where there is
/// none.
pub open spec fn first_part(text: Seq<char>, sep: char) -> Seq<char> {
    split(text, sep)[0]
}

/// `text` with `to` in place of every `from`.
pub open spec fn replaced(text: Seq<char>, from: char, to: Seq<char>) -> Seq<char>
    decreases text.len(),
{
    if text.len() == 0 {
        text
    } else {
        replaced(text.drop_last(), from, to) + if text.last() == from {
            to
        } else {
            seq![text.last()]
        }
    }
}

/// The lines of `text`: what stands between its line feeds, without the
/// carriage return that may stand before a line feed. What follows the last
/// line feed is a line only where it is not empty.
pub open spec fn lines_of(text: Seq<char>) -> Seq<Seq<char>> {
    let parts = split(text, '\n');
    if parts.last().len() == 0 {
        ended_lines(parts)
    } else {
        ended_lines(parts).push(parts.last())
    }
}

/// All of `parts` but the last, each without a carriage return at its end.
pub open spec fn ended_lines(parts: Seq<Seq<char>>) -> Seq<Seq<char>> {
    parts.drop_last().map_values(|line: Seq<char>| without_return(line))
}

/// `line` without a carriage return at its end.
pub open spec fn without_return(line: Seq<char>) -> Seq<char> {
    if line.len() > 0 && line.last() == '\r' {
        line.drop_last()
    } else {
        line
    }
}

/// The contents of a list of strings, one by one.
pub open spec fn texts(strings: Seq<String>) -> Seq<Seq<char>> {
    strings.map_values(|s: String| s@)
}

/// The strings of `parts` in a row, with `sep` between each two.
pub open spec fn joined(parts: Seq<Seq<char>>, sep: Seq<char>) -> Seq<char>
    decreases parts.len(),
{
    if parts.len() == 0 {
        Seq::empty()
    } else if parts.len() == 1 {
        parts[0]
    } else {
        joined(parts.drop_last(), sep) + sep + parts.last()
    }
}

/// Cutting always leaves at least one part.
pub proof fn lemma_split_some(text: Seq<char>, sep: char)
    ensures
        split(text, sep).len() >= 1,
    decreases text.len(),
{
    if text.len() > 0 {
        lemma_split_some(text.drop_first(), sep);
    }
}

/// A text without `sep` is one part.
pub proof fn lemma_split_none(text: Seq<char>, sep: char)
    requires
        !text.contains(sep),
    ensures
        split(text, sep) == seq![text],
    decreases text.len(),
{
    if text.len() > 0 {
        let rest = text.drop_first();
        assert forall|i: int| 0 <= i < rest.len() implies rest[i] != sep by {
            assert(text[i + 1] == rest[i]);
            assert(text.contains(text[i + 1]));
        }
        lemma_split_none(rest, sep);
        assert(text.contains(text[0]));
        assert(seq![text[0]] + rest =~= text);
        assert(seq![rest].update(0, seq![text[0]] + rest) =~= seq![text]);
    } else {
        assert(text =~= Seq::<char>::empty());
    }
}

/// A text that has `sep` after `head`, and none in `head`, has `head` as
/// its first part, and then the parts of what follows.
pub proof fn lemma_split_first(head: Seq<char>, sep: char, tail: Seq<char>)
    requires
        !head.contains(sep),
    ensures
        split(head + seq![sep] + tail, sep) == seq![head] + split(tail, sep),
    decreases head.len(),
{
    let text = head + seq![sep] + tail;
    if head.len() == 0 {
        assert(text.drop_first() =~= tail);
        assert(head =~= Seq::<char>::empty());
    } else {
        let shorter = head.drop_first();
        assert forall|i: int| 0 <= i < shorter.len() implies shorter[i] != sep by {
            assert(head[i + 1] == shorter[i]);
            assert(head.contains(head[i + 1]));
        }
        lemma_split_first(shorter, sep, tail);
        assert(head.contains(head[0]));
        assert(text[0] == head[0]);
        assert(text.drop_first() =~= shorter + seq![sep] + tail);
        assert(seq![head[0]] + shorter =~= head);
        let rest = seq![shorter] + split(tail, sep);
        assert(rest.update(0, seq![text[0]] + rest[0]) =~= seq![head] + split(tail, sep));
    }
}

/// Removes the white space at the two ends with `str::trim`.
///
/// Not proved: that the result is a function of the text alone, named
/// [`trim_of`].
#[verifier::external_body]
pub(crate) fn trim<'a>(text: &'a str) -> (r: &'a str)
    ensures
        r@ == trim_of(text@),
{
    text.trim()
}

/// Turns to lower case with `str::to_lowercase`.
///
/// Not proved: that the result is a function of the text alone, named
/// [`lowercase_of`].
#[verifier::external_body]
pub(crate) fn to_lowercase(text: &str) -> (r: String)
    ensures
        r@ == lowercase_of(text@),
{
    text.to_lowercase()
}

/// Cuts at the first `sep` with `str::split_once`.
///
/// Not proved: that the two halves are what stands before and after the
/// first `sep`, and that `None` comes exactly where there is no `sep`.
#[verifier::external_body]
pub(crate) fn split_once<'a>(text: &'a str, sep: char) -> (r: Option<(&'a str, &'a str)>)
    ensures
        match r {
            Some((head, tail)) => !head@.contains(sep) && text@ == head@ + seq![sep] + tail@,
            None => !text@.contains(sep),
        },
{
    text.split_once(sep)
}

/// Puts `to` in place of every `from` with `str::replace`.
///
/// Not proved: that every `from` is replaced and nothing else changes.
#[verifier::external_body]
pub(crate) fn replace(text: &str, from: char, to: &str) -> (r: String)
    ensures
        r@ == replaced(text@, from, to@),
{
    text.replace(from, to)
}

/// Tests for a prefix with `str::starts_with`.
///
/// Not proved: that the answer is whether `text` begins with `prefix`.
#[verifier::external_body]
pub(crate) fn starts_with(text: &str, prefix: &str) -> (b: bool)
    ensures
        b == prefix@.is_prefix_of(text@),
{
    text.starts_with(prefix)
}

#[verifier::external_type_specification]
#[verifier::external_body]
pub struct ExParseIntError(ParseIntError);

/// Reads a number with `str::parse`.
///
/// Not proved: that the outcome is a function of the text alone, named
/// [`parsed_i64`].
#[verifier::external_body]
pub(crate) fn parse_i64(text: &str) -> (r: Result<i64, ParseIntError>)
    ensures
        match r {
            Ok(n) => parsed_i64(text@) == Some(n),
            Err(_) => parsed_i64(text@) is None,
        },
{
    text.parse::<i64>()
}

/// Takes `end` off the end of `text` with `str::strip_suffix`.
///
/// Not proved: that the rest comes exactly where `text` ends with `end`,
/// and that it is `text` without that last character.
#[verifier::external_body]
pub(crate) fn strip_suffix<'a>(text: &'a str, end: char) -> (r: Option<&'a str>)
    ensures
        match r {
            Some(rest) => text@.len() > 0 && text@.last() == end && rest@ == text@.drop_last(),
            None => text@.len() == 0 || text@.last() != end,
        },
{
    text.strip_suffix(end)
}

/// Reads a number with `str::parse`.
///
/// Not proved: that the outcome is a function of the text alone, named
/// [`parsed_usize`].
#[verifier::external_body]
pub(crate) fn parse_usize(text: &str) -> (r: Result<usize, ParseIntError>)
    ensures
        match r {
            Ok(n) => parsed_usize(text@) == Some(n),
            Err(_) => parsed_usize(text@) is None,
        },
{
    text.parse::<usize>()
}

/// What `ParseIntError` says of itself through `Display`. Nothing is
/// claimed of the text.
#[verifier::external_body]
pub(crate) fn describe_int_error(error: &ParseIntError) -> String {
    error.to_string()
}

/// Writes a number in decimal with `usize`'s `Display`.
///
/// Not proved: that the text is a function of the number alone, named
/// [`decimal_of`].
#[verifier::external_body]
pub(crate) fn decimal(n: usize) -> (r: String)
    ensures
        r@ == decimal_of(n as int),
{
    n.to_string()
}

/// The decimal form of `n`, with a sign where it is negative.
pub uninterp spec fn signed_decimal_of(n: int) -> Seq<char>;

/// Writes a number in decimal with `i128`'s `Display`.
///
/// Not proved: that the text is a function of the number alone, named
/// [`signed_decimal_of`].
#[verifier::external_body]
pub(crate) fn signed_decimal(n: i128) -> (r: String)
    ensures
        r@ == signed_decimal_of(n as int),
{
    n.to_string()
}

/// The lines of `text`.
pub fn lines(text: &str) -> (r: Vec<String>)
    ensures
        texts(r@) == lines_of(text@),
{
    let parts = split_all(text, '\n');
    proof {
        lemma_split_some(text@, '\n');
        assert(texts(parts@).len() == parts@.len());
    }
    let last_index: usize = parts.len() - 1;
    let mut r: Vec<String> = Vec::new();
    let mut i: usize = 0;
    while i < last_index
        invariant
            last_index == parts@.len() - 1,
            i <= last_index,
            texts(r@) == ended_lines(texts(parts@)).take(i as int),
        decreases last_index - i,
    {
        let line = match strip_suffix(parts[i].as_str(), '\r') {
            Some(rest) => rest.to_owned(),
            None => parts[i].clone(),
        };
        proof {
            let ended = ended_lines(texts(parts@));
            assert(texts(parts@)[i as int] == parts@[i as int]@);
            assert(ended[i as int] == without_return(parts@[i as int]@));
            assert(line@ == without_return(parts@[i as int]@));
            assert(texts(r@.push(line)) =~= texts(r@).push(line@));
            assert(ended.take(i + 1) =~= ended.take(i as int).push(ended[i as int]));
        }
        r.push(line);
        i += 1;
    }
    proof {
        let ended = ended_lines(texts(parts@));
        assert(ended.take(i as int) =~= ended);
        assert(texts(parts@).last() == parts@[parts@.len() - 1]@);
    }
    let last = &parts[last_index];
    if !last.as_str().is_empty() {
        let kept = last.clone();
        assert(texts(r@.push(kept)) =~= texts(r@).push(last@));
        r.push(kept);
    }
    r
}

/// The part of `text` before the first `sep`: all of it where there is
/// none.
pub fn first_word<'a>(text: &'a str, sep: char) -> (r: &'a str)
    ensures
        r@ == first_part(text@, sep),
{
    match split_once(text, sep) {
        Some((head, tail)) => {
            proof {
                lemma_split_first(head@, sep, tail@);
            }
            head
        },
        None => {
            proof {
                lemma_split_none(text@, sep);
            }
            text
        },
    }
}

/// The parts into which `sep` cuts `text`.
pub fn split_all(text: &str, sep: char) -> (parts: Vec<String>)
    ensures
        texts(parts@) == split(text@, sep),
{
    let mut parts: Vec<String> = Vec::new();
    let mut rest: &str = text;
    loop
        invariant
            split(text@, sep) == texts(parts@) + split(rest@, sep),
        decreases rest@.len(),
    {
        match split_once(rest, sep) {
            Some((head, tail)) => {
                proof {
                    lemma_split_first(head@, sep, tail@);
                }
                let part = head.to_owned();
                assert(texts(parts@.push(part)) =~= texts(parts@) + seq![head@]);
                parts.push(part);
                rest = tail;
            },
            None => {
                proof {
                    lemma_split_none(rest@, sep);
                }
                let part = rest.to_owned();
                assert(texts(parts@.push(part)) =~= texts(parts@) + seq![rest@]);
                parts.push(part);
                return parts;
            },
        }
    }
}

} // verus!
