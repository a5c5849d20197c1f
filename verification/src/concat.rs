//! The list of frames that ffmpeg's concat demuxer reads: a `file` line for every image, and
//! between two images a `duration` line.

use crate::text::chars_of;
use vstd::prelude::*;

verus! {

/// A name as it stands between single quotes: a single quote in it closes the quotes, follows as
/// an escaped character, and opens them again.
pub open spec fn escaped(name: Seq<char>) -> Seq<char>
    decreases name.len(),
{
    if name.len() == 0 {
        Seq::empty()
    } else if name.last() == '\'' {
        escaped(name.drop_last()) + "'\\''"@
    } else {
        escaped(name.drop_last()).push(name.last())
    }
}

/// The line that names an image.
pub open spec fn file_line(name: Seq<char>) -> Seq<char> {
    "file '"@ + escaped(name) + "'\n"@
}

/// The line that says how long the image before it is shown.
pub open spec fn duration_line(duration: Seq<char>) -> Seq<char> {
    "duration "@ + duration + "\n"@
}

/// The part of the list that describes the first `count` of the named images. There is no
/// duration after the last image of all.
pub open spec fn concat_start(names: Seq<Seq<char>>, duration: Seq<char>, count: int) -> Seq<char>
    decreases count,
{
    if count <= 0 {
        Seq::empty()
    } else {
        concat_start(names, duration, count - 1) + file_line(names[count - 1]) + if count
            < names.len() {
            duration_line(duration)
        } else {
            Seq::empty()
        }
    }
}

/// The list for the named images, each but the last shown for `duration` seconds.
pub open spec fn concat_list(names: Seq<Seq<char>>, duration: Seq<char>) -> Seq<char> {
    concat_start(names, duration, names.len() as int)
}

/// The texts that indices point to.
pub open spec fn texts_at(texts: Seq<String>, order: Seq<usize>) -> Seq<Seq<char>> {
    Seq::new(order.len(), |i: int| texts[order[i] as int]@)
}

/// What has no single quote needs no escaping.
proof fn lemma_escape_plain(name: Seq<char>, start: int, end: int)
    requires
        0 <= start <= end <= name.len(),
        forall|i: int| start <= i < end ==> name[i] != '\'',
    ensures
        escaped(name.take(end)) == escaped(name.take(start)) + name.subrange(start, end),
    decreases end - start,
{
    if start < end {
        lemma_escape_plain(name, start, end - 1);
        assert(name.take(end).drop_last() =~= name.take(end - 1));
        assert(name.subrange(start, end) =~= name.subrange(start, end - 1).push(name[end - 1]));
        assert(escaped(name.take(end)) =~= escaped(name.take(start)) + name.subrange(start, end));
    } else {
        assert(escaped(name.take(end)) =~= escaped(name.take(start)) + name.subrange(start, end));
    }
}

/// Appends a name with its single quotes escaped.
pub fn append_escaped(text: &mut String, name: &str)
    ensures
        final(text)@ == old(text)@ + escaped(name@),
{
    let chars = chars_of(name);
    let mut start: usize = 0;
    let mut i: usize = 0;
    proof {
        assert(old(text)@ + escaped(name@.take(0)) =~= old(text)@);
    }
    while i < chars.len()
        invariant
            chars@ == name@,
            start <= i <= name@.len(),
            forall|k: int| start <= k < i ==> name@[k] != '\'',
            text@ == old(text)@ + escaped(name@.take(start as int)),
        decreases name@.len() - i,
    {
        if chars[i] == '\'' {
            text.append(name.substring_char(start, i));
            text.append("'\\''");
            proof {
                lemma_escape_plain(name@, start as int, i as int);
                assert(name@.take(i + 1).drop_last() =~= name@.take(i as int));
                assert(text@ =~= old(text)@ + escaped(name@.take(i + 1)));
            }
            start = i + 1;
        }
        i = i + 1;
    }
    text.append(name.substring_char(start, i));
    proof {
        lemma_escape_plain(name@, start as int, i as int);
        assert(name@.take(i as int) =~= name@);
        assert(text@ =~= old(text)@ + escaped(name@));
    }
}

/// The list for the texts that `order` points to.
pub fn concat_content(texts: &Vec<String>, order: &Vec<usize>, duration: &str) -> (content: String)
    requires
        forall|i: int| 0 <= i < order@.len() ==> #[trigger] order@[i] < texts@.len(),
    ensures
        content@ == concat_list(texts_at(texts@, order@), duration@),
        crate::text::is_clean_line(duration@) && (forall|i: int, k: int|
            0 <= i < order@.len() && 0 <= k < texts@[order@[i] as int]@.len() ==> #[trigger] texts@[order@[i] as int]@[k]
                != '\n') ==> forall|i: int|
            0 <= i < order@.len() ==> crate::text::lines(content@)[2 * i] == "file '"@ + escaped(
                texts@[#[trigger] order@[i] as int]@,
            ) + "'"@,
{
    let ghost names = texts_at(texts@, order@);
    let mut content = String::new();
    let mut i: usize = 0;
    while i < order.len()
        invariant
            i <= order@.len(),
            names == texts_at(texts@, order@),
            forall|k: int| 0 <= k < order@.len() ==> #[trigger] order@[k] < texts@.len(),
            content@ == concat_start(names, duration@, i as int),
        decreases order@.len() - i,
    {
        let ghost before = content@;
        content.append("file '");
        append_escaped(&mut content, texts[order[i]].as_str());
        content.append("'\n");
        proof {
            assert(content@ =~= before + file_line(names[i as int]));
        }
        if i < order.len() - 1 {
            content.append("duration ");
            content.append(duration);
            content.append("\n");
        }
        i = i + 1;
        proof {
            assert(content@ =~= concat_start(names, duration@, i as int));
        }
    }
    proof {
        if crate::text::is_clean_line(duration@) && (forall|i: int, k: int|
            0 <= i < order@.len() && 0 <= k < texts@[order@[i] as int]@.len()
                ==> #[trigger] texts@[order@[i] as int]@[k] != '\n') {
            assert forall|i: int, k: int|
                0 <= i < names.len() && 0 <= k < names[i].len() implies #[trigger] names[i][k]
                != '\n' by {
                assert(texts@[order@[i] as int]@[k] != '\n');
            }
            assert forall|i: int| 0 <= i < order@.len() implies crate::text::lines(content@)[2 * i]
                == "file '"@ + escaped(texts@[#[trigger] order@[i] as int]@) + "'"@ by {
                list_names_every_image(names, duration@, i);
            }
        }
    }
    content
}

/// What a reader of quoted text takes from it: single quotes enclose literal text, and outside
/// them a backslash makes the next character literal.
pub open spec fn unquoted(text: Seq<char>, inside: bool) -> Seq<char>
    decreases text.len(),
{
    if text.len() == 0 {
        Seq::empty()
    } else if text.first() == '\'' {
        unquoted(text.drop_first(), !inside)
    } else if !inside && text.first() == '\\' && text.len() > 1 {
        seq![text[1]] + unquoted(text.skip(2), false)
    } else {
        seq![text.first()] + unquoted(text.drop_first(), inside)
    }
}

/// Reading an escaped name inside quotes gives the name, whatever follows it.
proof fn lemma_unquote(name: Seq<char>, rest: Seq<char>)
    ensures
        unquoted(escaped(name) + rest, true) == name + unquoted(rest, true),
    decreases name.len(),
{
    if name.len() == 0 {
        assert(escaped(name) + rest =~= rest);
        assert(name + unquoted(rest, true) =~= unquoted(rest, true));
    } else if name.last() == '\'' {
        reveal_strlit("'\\''");
        let quote = "'\\''"@;
        let more = quote + rest;
        lemma_unquote(name.drop_last(), more);
        assert(escaped(name) + rest =~= escaped(name.drop_last()) + more);
        assert(more.drop_first().skip(2) =~= more.skip(3));
        assert(more.skip(3).drop_first() =~= rest);
        assert(unquoted(more.skip(3), false) == unquoted(rest, true));
        assert(unquoted(more.drop_first(), false) == seq!['\''] + unquoted(rest, true));
        assert(unquoted(more, true) == seq!['\''] + unquoted(rest, true));
        assert(name.drop_last() + (seq!['\''] + unquoted(rest, true)) =~= name + unquoted(
            rest,
            true,
        ));
    } else {
        let more = seq![name.last()] + rest;
        lemma_unquote(name.drop_last(), more);
        assert(escaped(name) + rest =~= escaped(name.drop_last()) + more);
        assert(more.drop_first() =~= rest);
        assert(name.drop_last() + (seq![name.last()] + unquoted(rest, true)) =~= name + unquoted(
            rest,
            true,
        ));
    }
}

/// Reading a quoted name gives the name back: no character of it is lost or changed.
pub proof fn unquoting_inverts_quoting(name: Seq<char>)
    ensures
        unquoted("'"@ + escaped(name) + "'"@, false) == name,
{
    reveal_strlit("'");
    let text = "'"@ + escaped(name) + "'"@;
    let end = "'"@;
    assert(text.drop_first() =~= escaped(name) + end);
    lemma_unquote(name, end);
    assert(end.drop_first().len() == 0);
    assert(unquoted(end.drop_first(), false) =~= Seq::<char>::empty());
    assert(unquoted(end, true) =~= Seq::<char>::empty());
    assert(name + Seq::<char>::empty() =~= name);
}

/// Different names are quoted differently.
pub proof fn escaping_is_injective(a: Seq<char>, b: Seq<char>)
    requires
        escaped(a) == escaped(b),
    ensures
        a == b,
{
    unquoting_inverts_quoting(a);
    unquoting_inverts_quoting(b);
}

/// The lines that describe the first `count` of the named images.
pub open spec fn lines_start(names: Seq<Seq<char>>, duration: Seq<char>, count: int) -> Seq<
    Seq<char>,
>
    decreases count,
{
    if count <= 0 {
        Seq::empty()
    } else {
        let before = lines_start(names, duration, count - 1).push(
            "file '"@ + escaped(names[count - 1]) + "'"@,
        );
        if count < names.len() {
            before.push("duration "@ + duration)
        } else {
            before
        }
    }
}

proof fn lemma_escape_keeps_line(name: Seq<char>)
    requires
        forall|i: int| 0 <= i < name.len() ==> name[i] != '\n',
    ensures
        forall|i: int| 0 <= i < escaped(name).len() ==> escaped(name)[i] != '\n',
    decreases name.len(),
{
    reveal_strlit("'\\''");
    if name.len() > 0 {
        lemma_escape_keeps_line(name.drop_last());
        let before = escaped(name.drop_last());
        let quote = "'\\''"@;
        assert(name[name.len() - 1] != '\n');
        assert forall|i: int| 0 <= i < escaped(name).len() implies escaped(name)[i] != '\n' by {
            if i < before.len() {
                assert(escaped(name)[i] == before[i]);
            } else if name.last() == '\'' {
                assert(escaped(name)[i] == quote[i - before.len()]);
            }
        }
    }
}

proof fn lemma_list_is_lines(names: Seq<Seq<char>>, duration: Seq<char>, count: int)
    requires
        0 <= count <= names.len(),
        crate::text::is_clean_line(duration),
        forall|i: int, k: int|
            0 <= i < names.len() && 0 <= k < names[i].len() ==> #[trigger] names[i][k] != '\n',
    ensures
        concat_start(names, duration, count) == crate::text::terminated(
            lines_start(names, duration, count),
        ),
        forall|i: int|
            0 <= i < lines_start(names, duration, count).len() ==> crate::text::is_clean_line(
                #[trigger] lines_start(names, duration, count)[i],
            ),
        lines_start(names, duration, count).len() == 2 * count - if 0 < count == names.len() {
            1int
        } else {
            0int
        },
    decreases count,
{
    if count > 0 {
        reveal_strlit("file '");
        reveal_strlit("'");
        reveal_strlit("'\n");
        reveal_strlit("duration ");
        reveal_strlit("\n");
        lemma_list_is_lines(names, duration, count - 1);
        let name = names[count - 1];
        assert(forall|k: int| 0 <= k < name.len() ==> #[trigger] names[count - 1][k] != '\n');
        lemma_escape_keeps_line(name);
        let before = lines_start(names, duration, count - 1);
        let file = "file '"@ + escaped(name) + "'"@;
        assert(crate::text::is_clean_line(file));
        assert(before.push(file).drop_last() =~= before);
        assert(crate::text::terminated(before.push(file)) =~= concat_start(
            names,
            duration,
            count - 1,
        ) + file_line(name));
        if count < names.len() {
            let pause = "duration "@ + duration;
            assert(crate::text::is_clean_line(pause));
            assert(before.push(file).push(pause).drop_last() =~= before.push(file));
            assert(crate::text::terminated(before.push(file).push(pause)) =~= concat_start(
                names,
                duration,
                count,
            ));
        } else {
            assert(concat_start(names, duration, count - 1) + file_line(name) + Seq::<char>::empty()
                =~= concat_start(names, duration, count - 1) + file_line(name));
        }
    }
}

/// A reader of the list finds a `file` line for every image, in order, and one `duration` line
/// between two of them, as long as no name holds a line feed.
pub proof fn list_reads_back(names: Seq<Seq<char>>, duration: Seq<char>)
    requires
        crate::text::is_clean_line(duration),
        forall|i: int, k: int|
            0 <= i < names.len() && 0 <= k < names[i].len() ==> #[trigger] names[i][k] != '\n',
    ensures
        crate::text::lines(concat_list(names, duration)) == lines_start(
            names,
            duration,
            names.len() as int,
        ),
        names.len() > 0 ==> lines_start(names, duration, names.len() as int).len() == 2
            * names.len() - 1,
{
    lemma_list_is_lines(names, duration, names.len() as int);
    crate::text::reading_inverts_writing(lines_start(names, duration, names.len() as int));
}

/// Characters are escaped one by one: what comes before and after them does not matter.
pub proof fn escaping_is_piecewise(front: Seq<char>, back: Seq<char>)
    ensures
        escaped(front + back) == escaped(front) + escaped(back),
    decreases back.len(),
{
    if back.len() == 0 {
        assert(front + back =~= front);
        assert(escaped(front) + escaped(back) =~= escaped(front));
    } else {
        let rest = back.drop_last();
        assert((front + back).drop_last() =~= front + rest);
        assert((front + back).last() == back.last());
        escaping_is_piecewise(front, rest);
        assert(escaped(front + back) =~= escaped(front) + escaped(back));
    }
}

/// A single quote is escaped as a quote, a backslash and two quotes; every other character stays.
pub proof fn only_quotes_are_escaped(c: char)
    ensures
        c == '\'' ==> escaped(seq![c]) == seq!['\'', '\\', '\'', '\''],
        c != '\'' ==> escaped(seq![c]) == seq![c],
        escaped(Seq::empty()).len() == 0,
{
    reveal_strlit("'\\''");
    assert(seq![c].drop_last() =~= Seq::empty());
    assert(escaped(seq![c].drop_last()) =~= Seq::empty());
    if c == '\'' {
        assert(escaped(seq![c]) =~= seq!['\'', '\\', '\'', '\'']);
    } else {
        assert(escaped(seq![c]) =~= seq![c]);
    }
}

/// The list of one image names it, without a duration; that of none is empty.
pub proof fn list_of_one_image(name: Seq<char>, duration: Seq<char>)
    ensures
        concat_list(seq![name], duration) == "file '"@ + escaped(name) + "'\n"@,
        concat_list(Seq::empty(), duration).len() == 0,
{
    let line = file_line(name);
    assert(concat_start(seq![name], duration, 0).len() == 0);
    assert(concat_list(seq![name], duration) =~= line);
}

/// One more image adds the duration of the image before it and its own name to the list.
pub proof fn list_grows_by_an_image(names: Seq<Seq<char>>, name: Seq<char>, duration: Seq<char>)
    requires
        names.len() > 0,
    ensures
        concat_list(names.push(name), duration) == concat_list(names, duration) + "duration "@
            + duration + "\n"@ + "file '"@ + escaped(name) + "'\n"@,
{
    let n = names.len() as int;
    let more = names.push(name);
    lemma_start_of_longer_list(names, name, duration, n - 1);
    assert(concat_start(more, duration, n) =~= concat_list(names, duration) + duration_line(
        duration,
    ));
    assert(concat_list(more, duration) =~= concat_start(more, duration, n) + file_line(name));
    assert(concat_list(more, duration) =~= concat_list(names, duration) + "duration "@ + duration
        + "\n"@ + "file '"@ + escaped(name) + "'\n"@);
}

proof fn lemma_start_of_longer_list(
    names: Seq<Seq<char>>,
    name: Seq<char>,
    duration: Seq<char>,
    count: int,
)
    requires
        0 <= count < names.len(),
    ensures
        concat_start(names.push(name), duration, count) == concat_start(names, duration, count),
    decreases count,
{
    if count > 0 {
        lemma_start_of_longer_list(names, name, duration, count - 1);
    }
}

proof fn lemma_lines_at(names: Seq<Seq<char>>, duration: Seq<char>, count: int, i: int)
    requires
        0 <= i < count <= names.len(),
    ensures
        lines_start(names, duration, count).len() == 2 * count - if count == names.len() {
            1int
        } else {
            0int
        },
        lines_start(names, duration, count)[2 * i] == "file '"@ + escaped(names[i]) + "'"@,
        i < names.len() - 1 ==> lines_start(names, duration, count)[2 * i + 1] == "duration "@
            + duration,
    decreases count,
{
    if count > 1 {
        lemma_lines_at(names, duration, count - 1, if i < count - 1 { i } else { 0 });
    } else {
        assert(lines_start(names, duration, 0).len() == 0);
    }
}

/// Read line by line, the list names every image at its place, with the duration between two of
/// them, and what stands behind the word `file`, unquoted, is the image's name.
pub proof fn list_names_every_image(names: Seq<Seq<char>>, duration: Seq<char>, i: int)
    requires
        0 <= i < names.len(),
        crate::text::is_clean_line(duration),
        forall|i: int, k: int|
            0 <= i < names.len() && 0 <= k < names[i].len() ==> #[trigger] names[i][k] != '\n',
    ensures
        ({
            let lines = crate::text::lines(concat_list(names, duration));
            &&& lines.len() == 2 * names.len() - 1
            &&& lines[2 * i] == "file '"@ + escaped(names[i]) + "'"@
            &&& lines[2 * i].take(5) == seq!['f', 'i', 'l', 'e', ' ']
            &&& unquoted(lines[2 * i].skip(5), false) == names[i]
            &&& i < names.len() - 1 ==> lines[2 * i + 1] == "duration "@ + duration
        }),
{
    list_reads_back(names, duration);
    lemma_lines_at(names, duration, names.len() as int, i);
    reveal_strlit("file '");
    reveal_strlit("'");
    let line = "file '"@ + escaped(names[i]) + "'"@;
    assert(line.take(5) =~= seq!['f', 'i', 'l', 'e', ' ']);
    assert(line.skip(5) =~= "'"@ + escaped(names[i]) + "'"@);
    unquoting_inverts_quoting(names[i]);
}

/// The texts of an order are the texts that its indices point to, one for every index.
pub proof fn order_picks_the_texts(texts: Seq<String>, order: Seq<usize>, i: int)
    requires
        0 <= i < order.len(),
    ensures
        texts_at(texts, order).len() == order.len(),
        texts_at(texts, order)[i] == texts[order[i] as int]@,
{
}

} // verus!
