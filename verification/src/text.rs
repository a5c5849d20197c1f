//! Text: decimal numerals, white space, numbers and lines.

use vstd::prelude::*;

verus! {

/// The characters of a string.
pub(crate) fn chars_of(s: &str) -> (chars: Vec<char>)
    ensures
        chars@ == s@,
{
    let mut chars: Vec<char> = Vec::new();
    for c in it: s.chars()
        invariant
            it.seq() == s@,
            chars@ == s@.take(it.index()),
    {
        proof {
            assert(s@.take(it.index() + 1) =~= s@.take(it.index()).push(c));
        }
        chars.push(c);
    }
    proof {
        assert(s@.take(s@.len() as int) =~= s@);
    }
    chars
}

/// The character of a decimal digit.
pub open spec fn digit(value: nat) -> char {
    ('0' as u32 + value) as char
}

/// The decimal numeral of a number.
pub open spec fn decimal(number: nat) -> Seq<char>
    decreases number,
{
    if number < 10 {
        seq![digit(number)]
    } else {
        decimal(number / 10).push(digit(number % 10))
    }
}

fn digit_text(value: u64) -> (text: &'static str)
    requires
        value < 10,
    ensures
        text@ == seq![digit(value as nat)],
{
    proof {
        reveal_strlit("0");
        reveal_strlit("1");
        reveal_strlit("2");
        reveal_strlit("3");
        reveal_strlit("4");
        reveal_strlit("5");
        reveal_strlit("6");
        reveal_strlit("7");
        reveal_strlit("8");
        reveal_strlit("9");
    }
    let text = match value {
        0 => "0",
        1 => "1",
        2 => "2",
        3 => "3",
        4 => "4",
        5 => "5",
        6 => "6",
        7 => "7",
        8 => "8",
        _ => "9",
    };
    proof {
        assert(text@ =~= seq![digit(value as nat)]);
    }
    text
}

/// Appends the decimal numeral of a number to a text.
pub fn append_decimal(text: &mut String, number: u64)
    ensures
        final(text)@ == old(text)@ + decimal(number as nat),
    decreases number,
{
    if number >= 10 {
        append_decimal(text, number / 10);
    }
    text.append(digit_text(number % 10));
    proof {
        if number >= 10 {
            assert(old(text)@ + decimal((number / 10) as nat) + seq![digit((number % 10) as nat)]
                =~= old(text)@ + decimal(number as nat));
        }
    }
}

/// The decimal numeral of a number.
pub fn decimal_text(number: u64) -> (text: String)
    ensures
        text@ == decimal(number as nat),
{
    let mut text = String::new();
    append_decimal(&mut text, number);
    proof {
        assert(Seq::<char>::empty() + decimal(number as nat) =~= decimal(number as nat));
    }
    text
}

/// Whether a character is white space: the Unicode property `White_Space`.
pub open spec fn white_space(c: char) -> bool {
    ||| '\u{9}' <= c <= '\u{d}'
    ||| c == ' '
    ||| c == '\u{85}'
    ||| c == '\u{a0}'
    ||| c == '\u{1680}'
    ||| '\u{2000}' <= c <= '\u{200a}'
    ||| c == '\u{2028}'
    ||| c == '\u{2029}'
    ||| c == '\u{202f}'
    ||| c == '\u{205f}'
    ||| c == '\u{3000}'
}

/// Whether a character is white space.
pub fn is_white_space(c: char) -> (white: bool)
    ensures
        white == white_space(c),
{
    '\u{9}' <= c && c <= '\u{d}' || c == ' ' || c == '\u{85}' || c == '\u{a0}' || c == '\u{1680}'
        || '\u{2000}' <= c && c <= '\u{200a}' || c == '\u{2028}' || c == '\u{2029}' || c == '\u{202f}'
        || c == '\u{205f}' || c == '\u{3000}'
}

/// A text without the white space at its start.
pub open spec fn trim_start(s: Seq<char>) -> Seq<char>
    decreases s.len(),
{
    if s.len() > 0 && white_space(s.first()) {
        trim_start(s.drop_first())
    } else {
        s
    }
}

/// A text without the white space at its end.
pub open spec fn trim_end(s: Seq<char>) -> Seq<char>
    decreases s.len(),
{
    if s.len() > 0 && white_space(s.last()) {
        trim_end(s.drop_last())
    } else {
        s
    }
}

/// A text without the white space at its start and end.
pub open spec fn trimmed(s: Seq<char>) -> Seq<char> {
    trim_end(trim_start(s))
}

/// The bounds of what is left of `chars[from..]` without the white space at its start and end.
fn trim_bounds(chars: &Vec<char>, from: usize) -> (bounds: (usize, usize))
    requires
        from <= chars@.len(),
    ensures
        from <= bounds.0 <= bounds.1 <= chars@.len(),
        chars@.subrange(bounds.0 as int, bounds.1 as int) == trimmed(chars@.skip(from as int)),
{
    let length: usize = chars.len();
    let mut start: usize = from;
    while start < length && is_white_space(chars[start])
        invariant
            from <= start <= length == chars@.len(),
            trim_start(chars@.skip(from as int)) == trim_start(chars@.skip(start as int)),
        decreases length - start,
    {
        proof {
            assert(chars@.skip(start as int).drop_first() =~= chars@.skip(start + 1));
        }
        start = start + 1;
    }
    let mut end: usize = length;
    proof {
        assert(chars@.skip(start as int) =~= chars@.subrange(start as int, length as int));
    }
    while end > start && is_white_space(chars[end - 1])
        invariant
            from <= start <= end <= length == chars@.len(),
            trimmed(chars@.skip(from as int)) == trim_end(
                chars@.subrange(start as int, end as int),
            ),
        decreases end,
    {
        proof {
            assert(chars@.subrange(start as int, end as int).drop_last() =~= chars@.subrange(
                start as int,
                end - 1,
            ));
        }
        end = end - 1;
    }
    (start, end)
}

pub open spec fn is_digit(c: char) -> bool {
    '0' <= c <= '9'
}

pub open spec fn all_digits(s: Seq<char>) -> bool {
    forall|i: int| 0 <= i < s.len() ==> is_digit(#[trigger] s[i])
}

/// The number that a string of decimal digits denotes.
pub open spec fn numeral_value(digits: Seq<char>) -> nat
    decreases digits.len(),
{
    if digits.len() == 0 {
        0
    } else {
        (numeral_value(digits.drop_last()) * 10 + (digits.last() as u32 - '0' as u32)) as nat
    }
}

/// A text without a plus sign at its start.
pub open spec fn without_plus(s: Seq<char>) -> Seq<char> {
    if s.len() > 0 && s.first() == '+' {
        s.drop_first()
    } else {
        s
    }
}

/// The 32-bit number that a text denotes: decimal digits, at least one, after at most one plus
/// sign. `None` for any other text and for a number that is too large.
pub open spec fn parsed_u32(s: Seq<char>) -> Option<u32> {
    let digits = without_plus(s);
    if digits.len() > 0 && all_digits(digits) && numeral_value(digits) <= u32::MAX {
        Some(numeral_value(digits) as u32)
    } else {
        None
    }
}

/// More digits never denote a smaller number.
proof fn lemma_value_grows(digits: Seq<char>, length: int)
    requires
        0 <= length <= digits.len(),
        all_digits(digits),
    ensures
        numeral_value(digits.take(length)) <= numeral_value(digits),
    decreases digits.len(),
{
    if length == digits.len() {
        assert(digits.take(length) =~= digits);
    } else {
        assert(is_digit(digits.last()));
        assert(digits.drop_last().take(length) =~= digits.take(length));
        lemma_value_grows(digits.drop_last(), length);
    }
}

/// The number that `chars[start..end]` denotes.
fn parse_range(chars: &Vec<char>, start: usize, end: usize) -> (number: Option<u32>)
    requires
        start <= end <= chars@.len(),
    ensures
        number == parsed_u32(chars@.subrange(start as int, end as int)),
{
    let ghost s = chars@.subrange(start as int, end as int);
    let ghost digits = without_plus(s);
    let first: usize = if start < end && chars[start] == '+' { start + 1 } else { start };
    proof {
        assert(digits =~= chars@.subrange(first as int, end as int));
    }
    if first == end {
        return None;
    }
    let mut value: u64 = 0;
    let mut i: usize = first;
    while i < end
        invariant
            first <= i <= end <= chars@.len(),
            digits == chars@.subrange(first as int, end as int),
            s == chars@.subrange(start as int, end as int),
            digits == without_plus(s),
            all_digits(digits.take(i - first)),
            value == numeral_value(digits.take(i - first)),
            value <= u32::MAX,
        decreases end - i,
    {
        let c = chars[i];
        let ghost seen = i - first;
        proof {
            assert(digits[seen] == c);
            assert(digits.take(seen + 1).drop_last() =~= digits.take(seen));
        }
        if !('0' <= c && c <= '9') {
            return None;
        }
        value = value * 10 + (c as u32 - '0' as u32) as u64;
        proof {
            assert(digits.take(seen + 1).last() == c);
            assert forall|k: int| 0 <= k < seen + 1 implies is_digit(
                #[trigger] digits.take(seen + 1)[k],
            ) by {
                if k < seen {
                    assert(digits.take(seen + 1)[k] == digits.take(seen)[k]);
                }
            }
        }
        if value > 0xffff_ffff {
            proof {
                if all_digits(digits) {
                    lemma_value_grows(digits, seen + 1);
                }
            }
            return None;
        }
        i = i + 1;
    }
    proof {
        assert(digits.take(end - first) =~= digits);
    }
    Some(value as u32)
}

/// The 32-bit number that `chars[from..]` denotes, white space around it apart.
pub(crate) fn parse_trimmed(chars: &Vec<char>, from: usize) -> (number: Option<u32>)
    requires
        from <= chars@.len(),
    ensures
        number == parsed_u32(trimmed(chars@.skip(from as int))),
{
    let (start, end) = trim_bounds(chars, from);
    parse_range(chars, start, end)
}

/// Whether `chars` starts with `prefix`.
pub(crate) fn starts_with(chars: &Vec<char>, prefix: &str) -> (starts: bool)
    ensures
        starts == prefix@.is_prefix_of(chars@),
{
    let expected = chars_of(prefix);
    if chars.len() < expected.len() {
        return false;
    }
    let mut i: usize = 0;
    while i < expected.len()
        invariant
            i <= expected@.len() <= chars@.len(),
            expected@ == prefix@,
            forall|k: int| 0 <= k < i ==> expected@[k] == chars@[k],
        decreases expected@.len() - i,
    {
        if chars[i] != expected[i] {
            return false;
        }
        i = i + 1;
    }
    true
}

/// The length of the first line of a text, up to its line feed or to the end of the text.
pub open spec fn line_length(text: Seq<char>) -> nat
    decreases text.len(),
{
    if text.len() == 0 || text.first() == '\n' {
        0
    } else {
        1 + line_length(text.drop_first())
    }
}

/// A line without the carriage return at its end.
pub open spec fn without_return(line: Seq<char>) -> Seq<char> {
    if line.len() > 0 && line.last() == '\r' {
        line.drop_last()
    } else {
        line
    }
}

/// The lines of a text. A line ends with a line feed, or with a carriage return and a line feed,
/// neither of which belongs to it; the last line may end with the text instead.
pub open spec fn lines(text: Seq<char>) -> Seq<Seq<char>>
    decreases text.len(),
{
    let length = line_length(text) as int;
    if text.len() == 0 {
        Seq::empty()
    } else if length >= text.len() {
        seq![text]
    } else {
        seq![without_return(text.take(length))] + lines(text.skip(length + 1))
    }
}

/// What ranges of a text hold.
spec fn slices(text: Seq<char>, ranges: Seq<(usize, usize)>) -> Seq<Seq<char>> {
    Seq::new(ranges.len(), |i: int| text.subrange(ranges[i].0 as int, ranges[i].1 as int))
}

/// The index of the line feed that ends the line starting at `start`, or the length of `chars`.
fn line_end(chars: &Vec<char>, start: usize) -> (end: usize)
    requires
        start <= chars@.len(),
    ensures
        start <= end <= chars@.len(),
        end - start == line_length(chars@.skip(start as int)),
        end < chars@.len() ==> chars@[end as int] == '\n',
{
    let mut end: usize = start;
    while end < chars.len() && chars[end] != '\n'
        invariant
            start <= end <= chars@.len(),
            line_length(chars@.skip(start as int)) == end - start + line_length(
                chars@.skip(end as int),
            ),
        decreases chars@.len() - end,
    {
        proof {
            assert(chars@.skip(end as int).drop_first() =~= chars@.skip(end + 1));
        }
        end = end + 1;
    }
    end
}

/// Where the lines of a text start and end.
fn line_ranges(chars: &Vec<char>) -> (ranges: Vec<(usize, usize)>)
    ensures
        slices(chars@, ranges@) == lines(chars@),
        forall|i: int|
            0 <= i < ranges@.len() ==> (#[trigger] ranges@[i]).0 <= ranges@[i].1 <= chars@.len(),
{
    let mut ranges: Vec<(usize, usize)> = Vec::new();
    let mut start: usize = 0;
    proof {
        assert(chars@.skip(0) =~= chars@);
        assert(slices(chars@, ranges@) + lines(chars@) =~= lines(chars@));
    }
    while start < chars.len()
        invariant
            start <= chars@.len(),
            slices(chars@, ranges@) + lines(chars@.skip(start as int)) == lines(chars@),
            forall|i: int|
                0 <= i < ranges@.len() ==> (#[trigger] ranges@[i]).0 <= ranges@[i].1
                    <= chars@.len(),
        decreases chars@.len() - start,
    {
        let end: usize = line_end(chars, start);
        let ghost before = ranges@;
        let ghost rest = chars@.skip(start as int);
        if end == chars.len() {
            ranges.push((start, end));
            proof {
                assert(lines(chars@.skip(end as int)) =~= Seq::<Seq<char>>::empty());
                assert(chars@.subrange(start as int, end as int) =~= rest);
            }
            start = end;
        } else {
            let stop: usize = if end > start && chars[end - 1] == '\r' { end - 1 } else { end };
            ranges.push((start, stop));
            proof {
                assert(rest.take(end - start) =~= chars@.subrange(start as int, end as int));
                assert(chars@.subrange(start as int, stop as int) =~= without_return(
                    rest.take(end - start),
                ));
                assert(rest.skip(end - start + 1) =~= chars@.skip(end + 1));
            }
            start = end + 1;
        }
        proof {
            let last = ranges@.last();
            assert(slices(chars@, ranges@) =~= slices(chars@, before)
                + seq![chars@.subrange(last.0 as int, last.1 as int)]);
            assert(slices(chars@, ranges@) + lines(chars@.skip(start as int))
                =~= slices(chars@, before) + lines(rest));
        }
    }
    proof {
        assert(slices(chars@, ranges@) + lines(chars@.skip(start as int))
            =~= slices(chars@, ranges@));
    }
    ranges
}

/// The first line of a text; `None` where the text is empty.
pub fn first_line(text: &str) -> (line: Option<String>)
    ensures
        line is None <==> lines(text@).len() == 0,
        line is Some ==> line->0@ == lines(text@)[0],
{
    let chars = chars_of(text);
    let ranges = line_ranges(&chars);
    if ranges.len() == 0 {
        None
    } else {
        let (start, end) = ranges[0];
        Some(text.substring_char(start, end).to_owned())
    }
}

/// Texts joined by line feeds.
pub open spec fn joined(texts: Seq<Seq<char>>) -> Seq<char>
    decreases texts.len(),
{
    if texts.len() == 0 {
        Seq::empty()
    } else if texts.len() == 1 {
        texts[0]
    } else {
        joined(texts.drop_last()) + "\n"@ + texts.last()
    }
}

/// The last elements of a sequence, at most `count`.
pub open spec fn last_of<T>(items: Seq<T>, count: nat) -> Seq<T> {
    if items.len() <= count {
        items
    } else {
        items.skip(items.len() - count)
    }
}

/// The last lines of a text, at most `count`, joined by line feeds.
pub fn last_lines(text: &str, count: usize) -> (tail: String)
    ensures
        tail@ == joined(last_of(lines(text@), count as nat)),
{
    let chars = chars_of(text);
    let ranges = line_ranges(&chars);
    let first: usize = if ranges.len() <= count { 0 } else { ranges.len() - count };
    let ghost all = lines(text@);
    let ghost chosen = last_of(all, count as nat);
    proof {
        assert(slices(text@, ranges@) == all);
        assert(chosen =~= all.skip(first as int));
    }
    let mut tail = String::new();
    let mut i: usize = first;
    while i < ranges.len()
        invariant
            first <= i <= ranges@.len(),
            chosen == all.skip(first as int),
            slices(text@, ranges@) == all,
            forall|k: int|
                0 <= k < ranges@.len() ==> (#[trigger] ranges@[k]).0 <= ranges@[k].1
                    <= text@.len(),
            tail@ == joined(chosen.take(i - first)),
        decreases ranges@.len() - i,
    {
        let (start, end) = ranges[i];
        proof {
            assert(all[i as int] == text@.subrange(start as int, end as int));
            assert(chosen.take(i - first + 1).drop_last() =~= chosen.take(i - first));
            assert(chosen.take(i - first + 1).last() == all[i as int]);
            if i == first {
                assert(tail@ + all[i as int] =~= all[i as int]);
            }
        }
        if i > first {
            tail.append("\n");
        }
        tail.append(text.substring_char(start, end));
        i = i + 1;
    }
    proof {
        assert(chosen.take(i - first) =~= chosen);
    }
    tail
}

/// A numeral consists of digits and denotes the number that it was written for.
pub proof fn decimal_denotes_its_number(number: nat)
    ensures
        decimal(number).len() > 0,
        all_digits(decimal(number)),
        numeral_value(decimal(number)) == number,
    decreases number,
{
    if number < 10 {
        let s = decimal(number);
        assert(s.drop_last() =~= Seq::<char>::empty());
        assert(numeral_value(s.drop_last()) == 0);
        assert(s.last() as u32 - '0' as u32 == number);
    } else {
        let s = decimal(number);
        decimal_denotes_its_number(number / 10);
        assert(s.drop_last() =~= decimal(number / 10));
        assert(s.last() as u32 - '0' as u32 == number % 10);
        assert forall|k: int| 0 <= k < s.len() implies is_digit(#[trigger] s[k]) by {
            if k < s.len() - 1 {
                assert(s[k] == decimal(number / 10)[k]);
            }
        }
    }
}

/// Different numbers have different numerals.
pub proof fn decimal_is_injective(a: nat, b: nat)
    requires
        decimal(a) == decimal(b),
    ensures
        a == b,
{
    decimal_denotes_its_number(a);
    decimal_denotes_its_number(b);
}

/// Reading the numeral of a 32-bit number gives the number back.
pub proof fn parsing_inverts_decimal(number: u32)
    ensures
        parsed_u32(decimal(number as nat)) == Some(number),
{
    let s = decimal(number as nat);
    decimal_denotes_its_number(number as nat);
    assert(is_digit(s[0]));
}

/// Whether a line can be read back as it is: it has no line feed, and no carriage return at its
/// end.
pub open spec fn is_clean_line(line: Seq<char>) -> bool {
    &&& forall|i: int| 0 <= i < line.len() ==> line[i] != '\n'
    &&& line.len() > 0 ==> line.last() != '\r'
}

/// Lines written one after the other, each with a line feed.
pub open spec fn terminated(written: Seq<Seq<char>>) -> Seq<char>
    decreases written.len(),
{
    if written.len() == 0 {
        Seq::empty()
    } else {
        terminated(written.drop_last()) + written.last() + "\n"@
    }
}

/// A text that starts with a line and its line feed has that line first.
proof fn lemma_line_length(line: Seq<char>, rest: Seq<char>)
    requires
        forall|i: int| 0 <= i < line.len() ==> line[i] != '\n',
    ensures
        line_length(line + seq!['\n'] + rest) == line.len(),
    decreases line.len(),
{
    let text = line + seq!['\n'] + rest;
    if line.len() == 0 {
        assert(text.first() == '\n');
    } else {
        assert(text.first() == line.first());
        assert(text.drop_first() =~= line.drop_first() + seq!['\n'] + rest);
        lemma_line_length(line.drop_first(), rest);
    }
}

/// The lines of written lines followed by more text.
proof fn lemma_lines_of_written(written: Seq<Seq<char>>, rest: Seq<char>)
    requires
        forall|i: int| 0 <= i < written.len() ==> is_clean_line(#[trigger] written[i]),
    ensures
        lines(terminated(written) + rest) == written + lines(rest),
    decreases written.len(),
{
    if written.len() == 0 {
        assert(terminated(written) + rest =~= rest);
        assert(written + lines(rest) =~= lines(rest));
    } else {
        reveal_strlit("\n");
        let last = written.last();
        let more = last + seq!['\n'] + rest;
        assert(is_clean_line(written[written.len() - 1]));
        assert("\n"@ =~= seq!['\n']);
        assert(terminated(written) + rest =~= terminated(written.drop_last()) + more);
        lemma_lines_of_written(written.drop_last(), more);
        lemma_line_length(last, rest);
        assert(more.take(last.len() as int) =~= last);
        assert(more.skip(last.len() as int + 1) =~= rest);
        assert(lines(more) == seq![last] + lines(rest));
        assert(written.drop_last() + (seq![last] + lines(rest)) =~= written + lines(rest));
    }
}

/// Reading the lines of a text gives back the lines that were written to it.
pub proof fn reading_inverts_writing(written: Seq<Seq<char>>)
    requires
        forall|i: int| 0 <= i < written.len() ==> is_clean_line(#[trigger] written[i]),
    ensures
        lines(terminated(written)) == written,
{
    let empty = Seq::<char>::empty();
    lemma_lines_of_written(written, empty);
    assert(terminated(written) + empty =~= terminated(written));
    assert(written + lines(empty) =~= written);
}

pub open spec fn all_white(s: Seq<char>) -> bool {
    forall|i: int| 0 <= i < s.len() ==> white_space(#[trigger] s[i])
}

proof fn lemma_trim_start(white: Seq<char>, rest: Seq<char>)
    requires
        all_white(white),
        rest.len() > 0,
        !white_space(rest.first()),
    ensures
        trim_start(white + rest) == rest,
    decreases white.len(),
{
    if white.len() == 0 {
        assert(white + rest =~= rest);
    } else {
        assert((white + rest).first() == white[0]);
        assert((white + rest).drop_first() =~= white.drop_first() + rest);
        assert forall|i: int| 0 <= i < white.drop_first().len() implies white_space(
            #[trigger] white.drop_first()[i],
        ) by {
            assert(white_space(white[i + 1]));
        }
        lemma_trim_start(white.drop_first(), rest);
    }
}

proof fn lemma_trim_end(rest: Seq<char>, white: Seq<char>)
    requires
        all_white(white),
        rest.len() > 0,
        !white_space(rest.last()),
    ensures
        trim_end(rest + white) == rest,
    decreases white.len(),
{
    if white.len() == 0 {
        assert(rest + white =~= rest);
    } else {
        assert((rest + white).last() == white[white.len() - 1]);
        assert((rest + white).drop_last() =~= rest + white.drop_last());
        lemma_trim_end(rest, white.drop_last());
    }
}

/// Trimming takes away the white space around a text that itself neither starts nor ends with
/// any, and nothing else.
pub proof fn trimming_undoes_padding(before: Seq<char>, text: Seq<char>, after: Seq<char>)
    requires
        all_white(before),
        all_white(after),
        text.len() > 0,
        !white_space(text.first()),
        !white_space(text.last()),
    ensures
        trimmed(before + text + after) == text,
{
    assert(before + text + after =~= before + (text + after));
    assert((text + after).first() == text.first());
    lemma_trim_start(before, text + after);
    lemma_trim_end(text, after);
}

/// A number below ten is one digit, counted from '0'.
pub proof fn single_digit_numerals(value: nat)
    requires
        value < 10,
    ensures
        decimal(value) == seq![('0' as u32 + value) as char],
{
}

/// A further digit stands behind the numeral of ten times less.
pub proof fn longer_numerals(number: nat, last: nat)
    requires
        0 < number,
        last < 10,
    ensures
        decimal(10 * number + last) == decimal(number).push(('0' as u32 + last) as char),
{
    assert((10 * number + last) / 10 == number);
    assert((10 * number + last) % 10 == last);
}

/// The value of digits one after the other: those in front count by the power of ten that those
/// behind leave room for.
pub proof fn numeral_value_is_positional(front: Seq<char>, back: Seq<char>)
    requires
        forall|i: int| 0 <= i < front.len() ==> '0' <= #[trigger] front[i] <= '9',
        forall|i: int| 0 <= i < back.len() ==> '0' <= #[trigger] back[i] <= '9',
    ensures
        numeral_value(front + back) == numeral_value(front) * vstd::arithmetic::power::pow(
            10,
            back.len(),
        ) + numeral_value(back),
    decreases back.len(),
{
    vstd::arithmetic::power::lemma_pow0(10);
    if back.len() == 0 {
        assert(front + back =~= front);
    } else {
        let rest = back.drop_last();
        assert((front + back).drop_last() =~= front + rest);
        assert((front + back).last() == back.last());
        assert('0' <= back[back.len() - 1] <= '9');
        numeral_value_is_positional(front, rest);
        let p = vstd::arithmetic::power::pow(10, rest.len());
        assert(vstd::arithmetic::power::pow(10, back.len()) == 10 * p) by {
            reveal(vstd::arithmetic::power::pow);
        }
        let v = numeral_value(front);
        let w = numeral_value(rest);
        assert((v * p + w) * 10 == v * (10 * p) + w * 10) by (nonlinear_arith);
    }
}

/// The value of a single digit is its distance from '0'.
pub proof fn numeral_value_of_a_digit(c: char)
    requires
        '0' <= c <= '9',
    ensures
        numeral_value(seq![c]) == c as u32 - '0' as u32,
{
    assert(seq![c].drop_last().len() == 0);
    assert(numeral_value(seq![c].drop_last()) == 0);
}

/// Where the white space at the start of a text ends.
proof fn lemma_trim_start_bound(s: Seq<char>) -> (start: int)
    ensures
        0 <= start <= s.len(),
        trim_start(s) == s.skip(start),
        all_white(s.take(start)),
        start < s.len() ==> !white_space(s[start]),
    decreases s.len(),
{
    if s.len() > 0 && white_space(s.first()) {
        let start = lemma_trim_start_bound(s.drop_first());
        assert(s.drop_first().skip(start) =~= s.skip(start + 1));
        assert forall|i: int| 0 <= i < start + 1 implies white_space(
            #[trigger] s.take(start + 1)[i],
        ) by {
            if i > 0 {
                assert(s.take(start + 1)[i] == s.drop_first().take(start)[i - 1]);
            }
        }
        start + 1
    } else {
        assert(s.skip(0) =~= s);
        0
    }
}

/// Where the white space at the end of a text begins.
proof fn lemma_trim_end_bound(s: Seq<char>) -> (end: int)
    ensures
        0 <= end <= s.len(),
        trim_end(s) == s.take(end),
        all_white(s.skip(end)),
        end > 0 ==> !white_space(s[end - 1]),
    decreases s.len(),
{
    if s.len() > 0 && white_space(s.last()) {
        let end = lemma_trim_end_bound(s.drop_last());
        assert(s.drop_last().take(end) =~= s.take(end));
        assert forall|i: int| 0 <= i < s.skip(end).len() implies white_space(
            #[trigger] s.skip(end)[i],
        ) by {
            if i < s.skip(end).len() - 1 {
                assert(s.skip(end)[i] == s.drop_last().skip(end)[i]);
            }
        }
        end
    } else {
        assert(s.take(s.len() as int) =~= s);
        s.len() as int
    }
}

/// Trimming leaves one stretch of a text: white space alone is cut off, and none is left at
/// either end.
pub proof fn trimming_cuts_white_space_only(s: Seq<char>) -> (bounds: (int, int))
    ensures
        0 <= bounds.0 <= bounds.1 <= s.len(),
        trimmed(s) == s.subrange(bounds.0, bounds.1),
        forall|i: int| 0 <= i < bounds.0 ==> white_space(#[trigger] s[i]),
        forall|i: int| bounds.1 <= i < s.len() ==> white_space(#[trigger] s[i]),
        bounds.0 < bounds.1 ==> !white_space(s[bounds.0]) && !white_space(s[bounds.1 - 1]),
{
    let start = lemma_trim_start_bound(s);
    let rest = s.skip(start);
    let end = lemma_trim_end_bound(rest);
    assert(rest.take(end) =~= s.subrange(start, start + end));
    assert forall|i: int| 0 <= i < start implies white_space(#[trigger] s[i]) by {
        assert(s.take(start)[i] == s[i]);
    }
    assert forall|i: int| start + end <= i < s.len() implies white_space(#[trigger] s[i]) by {
        assert(rest.skip(end)[i - start - end] == s[i]);
    }
    if end > 0 {
        assert(rest[end - 1] == s[start + end - 1]);
    }
    (start, start + end)
}

/// A text that is read as a number consists of digits, at least one, after at most one plus sign,
/// and the number is what the digits denote.
pub proof fn what_is_parsed_is_a_numeral(s: Seq<char>) -> (digits: Seq<char>)
    requires
        parsed_u32(s) is Some,
    ensures
        s == digits || s == seq!['+'] + digits,
        digits.len() > 0,
        forall|i: int| 0 <= i < digits.len() ==> '0' <= #[trigger] digits[i] <= '9',
        numeral_value(digits) == parsed_u32(s)->0,
{
    let digits = without_plus(s);
    if s.first() == '+' {
        assert(s =~= seq!['+'] + digits);
    }
    assert forall|i: int| 0 <= i < digits.len() implies '0' <= #[trigger] digits[i] <= '9' by {
        assert(is_digit(digits[i]));
    }
    digits
}

/// Digits are read as the number that they denote, with or without a plus sign before them,
/// unless the number has more than 32 bits.
pub proof fn numerals_are_parsed(digits: Seq<char>)
    requires
        digits.len() > 0,
        forall|i: int| 0 <= i < digits.len() ==> '0' <= #[trigger] digits[i] <= '9',
    ensures
        numeral_value(digits) < 0x1_0000_0000 ==> parsed_u32(digits) == Some(
            numeral_value(digits) as u32,
        ),
        numeral_value(digits) >= 0x1_0000_0000 ==> parsed_u32(digits) is None,
        parsed_u32(seq!['+'] + digits) == parsed_u32(digits),
{
    assert('0' <= digits[0] <= '9');
    let signed = seq!['+'] + digits;
    assert(signed.first() == '+');
    assert(signed.drop_first() =~= digits);
}

/// The text up to a line feed is a line, without a carriage return right before the line feed;
/// what follows has lines of its own.
pub proof fn line_feeds_end_lines(line: Seq<char>, rest: Seq<char>)
    requires
        forall|i: int| 0 <= i < line.len() ==> line[i] != '\n',
    ensures
        lines(line + seq!['\n'] + rest) == seq![
            if line.len() > 0 && line[line.len() - 1] == '\r' {
                line.take(line.len() - 1)
            } else {
                line
            },
        ] + lines(rest),
{
    let text = line + seq!['\n'] + rest;
    lemma_line_length(line, rest);
    assert(text.take(line.len() as int) =~= line);
    assert(text.skip(line.len() as int + 1) =~= rest);
    if line.len() > 0 {
        assert(line.drop_last() =~= line.take(line.len() - 1));
    }
}

/// A text without a line feed is one line as it is, and an empty text has none.
pub proof fn the_last_line_needs_no_line_feed(line: Seq<char>)
    requires
        forall|i: int| 0 <= i < line.len() ==> line[i] != '\n',
    ensures
        line.len() > 0 ==> lines(line) == seq![line],
        line.len() == 0 ==> lines(line).len() == 0,
{
    lemma_line_without_end(line);
}

proof fn lemma_line_without_end(line: Seq<char>)
    requires
        forall|i: int| 0 <= i < line.len() ==> line[i] != '\n',
    ensures
        line_length(line) == line.len(),
    decreases line.len(),
{
    if line.len() > 0 {
        lemma_line_without_end(line.drop_first());
    }
}

/// Joining puts a line feed between neighbours and changes nothing else.
pub proof fn joining_separates_neighbours(front: Seq<Seq<char>>, back: Seq<Seq<char>>)
    requires
        front.len() > 0,
        back.len() > 0,
    ensures
        joined(front + back) == joined(front) + seq!['\n'] + joined(back),
    decreases back.len(),
{
    reveal_strlit("\n");
    assert("\n"@ =~= seq!['\n']);
    let all = front + back;
    assert(all.last() == back.last());
    if back.len() == 1 {
        assert(all.drop_last() =~= front);
    } else {
        assert(all.drop_last() =~= front + back.drop_last());
        joining_separates_neighbours(front, back.drop_last());
        assert(joined(all) =~= joined(front) + seq!['\n'] + joined(back));
    }
}

/// A text joined with nothing is itself, and nothing joined is empty.
pub proof fn joining_one_text(text: Seq<char>)
    ensures
        joined(seq![text]) == text,
        joined(Seq::<Seq<char>>::empty()).len() == 0,
{
}

/// The last elements are the end of the sequence, as many as asked for or all.
pub proof fn last_elements_are_the_end<T>(items: Seq<T>, count: nat)
    ensures
        last_of(items, count).len() == if items.len() < count {
            items.len()
        } else {
            count
        },
        items == items.take(items.len() - last_of(items, count).len()) + last_of(items, count),
{
}

/// Which lines can be read back as they are, and what they look like when they are written: one
/// more line is put behind the others, with a line feed.
pub proof fn clean_lines_are_written_as_they_are(written: Seq<Seq<char>>, line: Seq<char>)
    ensures
        is_clean_line(line) <==> (forall|i: int| 0 <= i < line.len() ==> line[i] != '\n') && (
        line.len() == 0 || line[line.len() - 1] != '\r'),
        terminated(Seq::empty()).len() == 0,
        terminated(written.push(line)) == terminated(written) + line + seq!['\n'],
{
    reveal_strlit("\n");
    assert("\n"@ =~= seq!['\n']);
    assert(written.push(line).drop_last() =~= written);
}

} // verus!
