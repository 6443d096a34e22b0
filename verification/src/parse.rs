//! Reading a vertex list from text.
//!
//! The text holds one vertex per line, written as two decimal integers with a
//! comma between them: `83903,85123`.  Whitespace around the whole text and
//! around each number is skipped.  The lines, in order, are the vertices in
//! loop order.

use vstd::prelude::*;
use crate::point::Point;

verus! {

/// The byte that ends a line.
pub const NEWLINE: u8 = 10;

/// The byte that stands between the two numbers of a line.
pub const COMMA: u8 = 44;

/// The byte `+`.
pub const PLUS: u8 = 43;

/// The byte `-`.
pub const MINUS: u8 = 45;

/// The byte `0`.
pub const ZERO: u8 = 48;

/// Space, tab, line feed, vertical tab, form feed or carriage return.
pub open spec fn is_space(b: u8) -> bool {
    b == 32 || (9 <= b && b <= 13)
}

/// One of the bytes `0` to `9`.
pub open spec fn is_digit(b: u8) -> bool {
    48 <= b && b <= 57
}

/// The text without the whitespace it starts with.
pub open spec fn trim_start(s: Seq<u8>) -> Seq<u8>
    decreases s.len(),
{
    if s.len() > 0 && is_space(s[0]) {
        trim_start(s.skip(1))
    } else {
        s
    }
}

/// The text without the whitespace it ends with.
pub open spec fn trim_end(s: Seq<u8>) -> Seq<u8>
    decreases s.len(),
{
    if s.len() > 0 && is_space(s.last()) {
        trim_end(s.drop_last())
    } else {
        s
    }
}

/// The text without the whitespace around it.
pub open spec fn trim(s: Seq<u8>) -> Seq<u8> {
    trim_end(trim_start(s))
}

/// The pieces of the text between its separators, in order: one more piece
/// than there are separators, empty pieces included.
pub open spec fn split(s: Seq<u8>, sep: u8) -> Seq<Seq<u8>>
    decreases s.len(),
{
    if s.len() == 0 {
        seq![Seq::<u8>::empty()]
    } else {
        let before = split(s.drop_last(), sep);
        if s.last() == sep {
            before.push(Seq::<u8>::empty())
        } else {
            before.drop_last().push(before.last().push(s.last()))
        }
    }
}

/// Every byte is a digit.
pub open spec fn all_digits(s: Seq<u8>) -> bool {
    forall|i: int| 0 <= i < s.len() ==> is_digit(#[trigger] s[i])
}

/// The number that the digits write in base ten; 0 for no digits.
pub open spec fn digits_value(s: Seq<u8>) -> int
    decreases s.len(),
{
    if s.len() == 0 {
        0
    } else {
        digits_value(s.drop_last()) * 10 + (s.last() - 48)
    }
}

/// The integer that the text writes: one digit or more, after an optional
/// sign `+` or `-`.
pub open spec fn parse_int(s: Seq<u8>) -> Option<int> {
    if s.len() > 0 && (s[0] == PLUS || s[0] == MINUS) {
        let digits = s.skip(1);
        if digits.len() > 0 && all_digits(digits) {
            if s[0] == MINUS {
                Some(-digits_value(digits))
            } else {
                Some(digits_value(digits))
            }
        } else {
            None
        }
    } else if s.len() > 0 && all_digits(s) {
        Some(digits_value(s))
    } else {
        None
    }
}

/// The integer that the text writes, if an `i64` can hold it.
pub open spec fn parse_i64(s: Seq<u8>) -> Option<i64> {
    match parse_int(s) {
        Some(v) => if i64::MIN <= v && v <= i64::MAX {
            Some(v as i64)
        } else {
            None
        },
        None => None,
    }
}

/// What is wrong with a line.
#[derive(Clone, Copy, Debug, PartialEq, Eq, Structural)]
pub enum LineError {
    /// The line does not hold exactly two fields, that is exactly one comma.
    FieldCount,
    /// A field, without the whitespace around it, is no decimal integer
    /// within the range of an `i64`.
    InvalidInteger,
}

/// Why a text is no vertex list.
#[derive(Clone, Copy, Debug, PartialEq, Eq, Structural)]
pub enum ParseError {
    /// The text holds nothing but whitespace.
    Empty,
    /// The line with this index, counted from 0 in the text without the
    /// whitespace around it, is the first that is no vertex.
    Line { index: usize, error: LineError },
}

/// The vertex that a line writes.
pub open spec fn parse_line(line: Seq<u8>) -> Result<Point, LineError> {
    let fields = split(line, COMMA);
    if fields.len() != 2 {
        Err(LineError::FieldCount)
    } else {
        match (parse_i64(trim(fields[0])), parse_i64(trim(fields[1]))) {
            (Some(x), Some(y)) => Ok(Point { x, y }),
            _ => Err(LineError::InvalidInteger),
        }
    }
}

/// The vertices that the lines write, or the first line that writes none.
pub open spec fn parse_lines(lines: Seq<Seq<u8>>) -> Result<Seq<Point>, ParseError>
    decreases lines.len(),
{
    if lines.len() == 0 {
        Ok(Seq::<Point>::empty())
    } else {
        match parse_lines(lines.drop_last()) {
            Err(e) => Err(e),
            Ok(points) => match parse_line(lines.last()) {
                Ok(p) => Ok(points.push(p)),
                Err(error) => Err(
                    ParseError::Line { index: (lines.len() - 1) as usize, error },
                ),
            },
        }
    }
}

/// The vertex list that a text writes.
pub open spec fn parse_text(text: Seq<u8>) -> Result<Seq<Point>, ParseError> {
    let body = trim(text);
    if body.len() == 0 {
        Err(ParseError::Empty)
    } else {
        parse_lines(split(body, NEWLINE))
    }
}

/// Reading one more byte either opens a new piece or lengthens the last one.
proof fn lemma_split_next(s: Seq<u8>, sep: u8, i: int, done: Seq<Seq<u8>>, last: Seq<u8>)
    requires
        0 <= i < s.len(),
        split(s.take(i), sep) == done.push(last),
    ensures
        s[i] == sep ==> split(s.take(i + 1), sep) == done.push(last).push(Seq::<u8>::empty()),
        s[i] != sep ==> split(s.take(i + 1), sep) == done.push(last.push(s[i])),
{
    assert(s.take(i + 1).drop_last() == s.take(i));
    assert(done.push(last).drop_last() == done);
}

/// Digits write a number that is not negative and that no prefix of them
/// exceeds.
proof fn lemma_digits_value_grows(s: Seq<u8>, i: int)
    requires
        all_digits(s),
        0 <= i <= s.len(),
    ensures
        0 <= digits_value(s.take(i)) <= digits_value(s),
    decreases s.len() - i,
{
    if i == s.len() {
        assert(s.take(i) == s);
        lemma_digits_value_grows_from_zero(s);
    } else {
        lemma_digits_value_grows(s, i + 1);
        assert(s.take(i + 1).drop_last() == s.take(i));
        assert(is_digit(s.take(i + 1).last()));
        lemma_digits_value_grows_from_zero(s.take(i));
    }
}

/// Digits write a number that is not negative.
proof fn lemma_digits_value_grows_from_zero(s: Seq<u8>)
    requires
        all_digits(s),
    ensures
        0 <= digits_value(s),
    decreases s.len(),
{
    if s.len() > 0 {
        lemma_digits_value_grows_from_zero(s.drop_last());
        assert(is_digit(s.last()));
    }
}

fn is_space_byte(b: u8) -> (r: bool)
    ensures
        r == is_space(b),
{
    b == 32 || (9 <= b && b <= 13)
}

/// The part of `text[from..to]` that is left when the whitespace around it is
/// taken away.
fn trim_range(text: &[u8], from: usize, to: usize) -> (r: (usize, usize))
    requires
        from <= to <= text@.len(),
    ensures
        from <= r.0 <= r.1 <= to,
        text@.subrange(r.0 as int, r.1 as int) == trim(text@.subrange(from as int, to as int)),
{
    let mut lo: usize = from;
    while lo < to && is_space_byte(text[lo])
        invariant
            from <= lo <= to <= text@.len(),
            trim_start(text@.subrange(from as int, to as int)) == trim_start(
                text@.subrange(lo as int, to as int),
            ),
        decreases to - lo,
    {
        assert(text@.subrange(lo as int, to as int).skip(1) == text@.subrange(
            lo as int + 1,
            to as int,
        ));
        lo += 1;
    }
    let mut hi: usize = to;
    while hi > lo && is_space_byte(text[hi - 1])
        invariant
            lo <= hi <= to <= text@.len(),
            trim_end(text@.subrange(lo as int, to as int)) == trim_end(
                text@.subrange(lo as int, hi as int),
            ),
        decreases hi - lo,
    {
        assert(text@.subrange(lo as int, hi as int).drop_last() == text@.subrange(
            lo as int,
            hi as int - 1,
        ));
        hi -= 1;
    }
    (lo, hi)
}

/// The integer that `text[from..to]` writes.
#[verifier::loop_isolation(false)]
fn parse_i64_range(text: &[u8], from: usize, to: usize) -> (r: Option<i64>)
    requires
        from <= to <= text@.len(),
    ensures
        r == parse_i64(text@.subrange(from as int, to as int)),
{
    let ghost s = text@.subrange(from as int, to as int);
    if from == to {
        return None;
    }
    let first: u8 = text[from];
    let signed: bool = first == PLUS || first == MINUS;
    let start: usize = if signed {
        from + 1
    } else {
        from
    };
    let ghost digits = text@.subrange(start as int, to as int);
    assert(signed ==> digits == s.skip(1));
    assert(!signed ==> digits == s);
    if start == to {
        return None;
    }
    let mut value: i128 = 0;
    let mut i: usize = start;
    while i < to
        invariant
            start <= i <= to <= text@.len(),
            digits == text@.subrange(start as int, to as int),
            all_digits(digits.take(i - start)),
            value == digits_value(digits.take(i - start)),
            0 <= value <= 0x8000_0000_0000_0000,
        decreases to - i,
    {
        let b: u8 = text[i];
        assert(digits[i - start] == b);
        if b < 48 || b > 57 {
            return None;
        }
        proof {
            assert(digits.take(i - start + 1).drop_last() == digits.take(i - start));
        }
        value = value * 10 + (b - ZERO) as i128;
        if value > 0x8000_0000_0000_0000 {
            proof {
                if all_digits(digits) {
                    lemma_digits_value_grows(digits, i - start + 1);
                }
            }
            return None;
        }
        i += 1;
    }
    assert(digits.take(to - start) == digits);
    let number: i128 = if first == MINUS {
        -value
    } else {
        value
    };
    if number > i64::MAX as i128 {
        None
    } else {
        Some(number as i64)
    }
}

/// The vertex that the line `text[from..to]` writes.
fn parse_line_range(text: &[u8], from: usize, to: usize) -> (r: Result<Point, LineError>)
    requires
        from <= to <= text@.len(),
    ensures
        r == parse_line(text@.subrange(from as int, to as int)),
{
    let ghost line = text@.subrange(from as int, to as int);
    let ghost mut done: Seq<Seq<u8>> = Seq::empty();
    let mut commas: usize = 0;
    let mut comma_at: usize = from;
    let mut field: usize = from;
    let mut i: usize = from;
    assert(line.take(0) == Seq::<u8>::empty());
    assert(text@.subrange(from as int, from as int) == Seq::<u8>::empty());
    assert(split(line.take(0), COMMA) == done.push(text@.subrange(field as int, i as int)));
    while i < to
        invariant
            from <= field <= i <= to <= text@.len(),
            line == text@.subrange(from as int, to as int),
            split(line.take(i - from), COMMA) == done.push(text@.subrange(field as int, i as int)),
            commas == done.len(),
            commas <= i - from,
            commas >= 1 ==> from <= comma_at < i && done[0] == text@.subrange(
                from as int,
                comma_at as int,
            ),
            commas == 0 ==> field == from,
            commas == 1 ==> field == comma_at + 1,
        decreases to - i,
    {
        let b: u8 = text[i];
        proof {
            assert(line[i - from] == b);
            lemma_split_next(
                line,
                COMMA,
                i - from,
                done,
                text@.subrange(field as int, i as int),
            );
            assert(text@.subrange(field as int, i as int).push(b) == text@.subrange(
                field as int,
                i as int + 1,
            ));
            assert(text@.subrange(i as int + 1, i as int + 1) == Seq::<u8>::empty());
        }
        if b == COMMA {
            proof {
                done = done.push(text@.subrange(field as int, i as int));
            }
            if commas == 0 {
                comma_at = i;
            }
            commas += 1;
            field = i + 1;
        }
        i += 1;
    }
    assert(line.take(to - from) == line);
    if commas != 1 {
        return Err(LineError::FieldCount);
    }
    let (x_from, x_to) = trim_range(text, from, comma_at);
    let (y_from, y_to) = trim_range(text, comma_at + 1, to);
    let x = parse_i64_range(text, x_from, x_to);
    let y = parse_i64_range(text, y_from, y_to);
    match (x, y) {
        (Some(x), Some(y)) => Ok(Point { x, y }),
        _ => Err(LineError::InvalidInteger),
    }
}

/// Reads a vertex list from text: one vertex per line, two decimal integers
/// with a comma between them, whitespace around the text and around each
/// number skipped.  Fails on the first line that holds no vertex, and on a text
/// that holds nothing.
pub fn parse_points(text: &[u8]) -> (r: Result<Vec<Point>, ParseError>)
    ensures
        match r {
            Ok(points) => parse_text(text@) == Ok::<Seq<Point>, ParseError>(points@),
            Err(e) => parse_text(text@) == Err::<Seq<Point>, ParseError>(e),
        },
{
    assert(text@.subrange(0, text@.len() as int) == text@);
    let (from, to) = trim_range(text, 0, text.len());
    if from == to {
        return Err(ParseError::Empty);
    }
    let ghost body = text@.subrange(from as int, to as int);
    let ghost mut done: Seq<Seq<u8>> = Seq::empty();
    let mut points: Vec<Point> = Vec::new();
    let mut failure: Option<ParseError> = None;
    let mut index: usize = 0;
    let mut line: usize = from;
    let mut i: usize = from;
    assert(body.take(0) == Seq::<u8>::empty());
    assert(text@.subrange(from as int, from as int) == Seq::<u8>::empty());
    assert(split(body.take(0), NEWLINE) == done.push(text@.subrange(line as int, i as int)));
    while i < to
        invariant
            from <= line <= i <= to <= text@.len(),
            body == text@.subrange(from as int, to as int),
            split(body.take(i - from), NEWLINE) == done.push(
                text@.subrange(line as int, i as int),
            ),
            index == done.len(),
            index <= i - from,
            failure is None ==> parse_lines(done) == Ok::<Seq<Point>, ParseError>(points@),
            failure is Some ==> parse_lines(done) == Err::<Seq<Point>, ParseError>(failure->0),
        decreases to - i,
    {
        let b: u8 = text[i];
        proof {
            assert(body[i - from] == b);
            lemma_split_next(
                body,
                NEWLINE,
                i - from,
                done,
                text@.subrange(line as int, i as int),
            );
            assert(text@.subrange(line as int, i as int).push(b) == text@.subrange(
                line as int,
                i as int + 1,
            ));
            assert(text@.subrange(i as int + 1, i as int + 1) == Seq::<u8>::empty());
        }
        if b == NEWLINE {
            proof {
                let finished = text@.subrange(line as int, i as int);
                assert(done.push(finished).drop_last() == done);
                done = done.push(finished);
            }
            if failure.is_none() {
                match parse_line_range(text, line, i) {
                    Ok(p) => {
                        points.push(p);
                    },
                    Err(error) => {
                        failure = Some(ParseError::Line { index, error });
                    },
                }
            }
            index += 1;
            line = i + 1;
        }
        i += 1;
    }
    proof {
        assert(body.take(to - from) == body);
        let finished = text@.subrange(line as int, to as int);
        assert(done.push(finished).drop_last() == done);
    }
    match failure {
        Some(e) => Err(e),
        None => match parse_line_range(text, line, to) {
            Ok(p) => {
                points.push(p);
                Ok(points)
            },
            Err(error) => Err(ParseError::Line { index, error }),
        },
    }
}

} // verus!
