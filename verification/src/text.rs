//! Cutting a text file into lines.

use vstd::prelude::*;

verus! {

/// `String::push` appends one character to the end of the string and changes nothing else.
pub assume_specification[ String::push ](text: &mut String, c: char)
    ensures
        final(text)@ == old(text)@.push(c),
;

/// The characters that Unicode counts as white space.
pub open spec fn white_space(c: char) -> bool {
    let code = c as u32;
    ||| 0x09 <= code <= 0x0d
    ||| code == 0x20
    ||| code == 0x85
    ||| code == 0xa0
    ||| code == 0x1680
    ||| 0x2000 <= code <= 0x200a
    ||| code == 0x2028
    ||| code == 0x2029
    ||| code == 0x202f
    ||| code == 0x205f
    ||| code == 0x3000
}

/// The text without the white space at its start.
pub open spec fn trimmed_start(text: Seq<char>) -> Seq<char>
    decreases text.len(),
{
    if text.len() > 0 && white_space(text.first()) {
        trimmed_start(text.drop_first())
    } else {
        text
    }
}

/// The text without the white space at its end.
pub open spec fn trimmed_end(text: Seq<char>) -> Seq<char>
    decreases text.len(),
{
    if text.len() > 0 && white_space(text.last()) {
        trimmed_end(text.drop_last())
    } else {
        text
    }
}

/// The text without white space at either end.
pub open spec fn trimmed(text: Seq<char>) -> Seq<char> {
    trimmed_end(trimmed_start(text))
}

/// Where the first line ends: at the first line feed, or at the end of the text.
pub open spec fn line_end(text: Seq<char>) -> nat
    decreases text.len(),
{
    if text.len() == 0 || text.first() == '\n' {
        0
    } else {
        1 + line_end(text.drop_first())
    }
}

/// A line that a line feed ends, without the carriage return that belongs to the line ending.
pub open spec fn without_return(line: Seq<char>) -> Seq<char> {
    if line.len() > 0 && line.last() == '\r' {
        line.drop_last()
    } else {
        line
    }
}

/// The lines of a text. A line ends with a line feed, or a carriage return and a line feed; the
/// ending is not part of the line, and the last line needs none.
pub open spec fn lines(text: Seq<char>) -> Seq<Seq<char>>
    decreases text.len(),
{
    if text.len() == 0 {
        Seq::empty()
    } else {
        let end = line_end(text);
        if end >= text.len() {
            seq![text]
        } else {
            seq![without_return(text.take(end as int))] + lines(text.skip(end as int + 1))
        }
    }
}

/// The characters of every string.
pub open spec fn texts_view(texts: Seq<String>) -> Seq<Seq<char>> {
    Seq::new(texts.len(), |i: int| texts[i]@)
}

/// True of the characters that Unicode counts as white space.
pub fn is_white_space(c: char) -> (is: bool)
    ensures
        is == white_space(c),
{
    let code: u32 = c as u32;
    (0x09 <= code && code <= 0x0d) || code == 0x20 || code == 0x85 || code == 0xa0 || code
        == 0x1680 || (0x2000 <= code && code <= 0x200a) || code == 0x2028 || code == 0x2029 || code
        == 0x202f || code == 0x205f || code == 0x3000
}

/// The characters of a text.
fn characters(text: &str) -> (chars: Vec<char>)
    ensures
        chars@ == text@,
{
    let mut chars: Vec<char> = Vec::new();
    for c in iter: text.chars()
        invariant
            iter.seq() == text@,
            chars@ == text@.take(iter.index() as int),
    {
        chars.push(c);
        assert(text@.take(iter.index() + 1) =~= text@.take(iter.index() as int).push(c));
    }
    assert(text@.take(text@.len() as int) =~= text@);
    chars
}

/// The text between two positions.
fn text_between(chars: &Vec<char>, from: usize, to: usize) -> (text: String)
    requires
        from <= to <= chars@.len(),
    ensures
        text@ == chars@.subrange(from as int, to as int),
{
    let mut text: String = String::new();
    let mut i: usize = from;
    while i < to
        invariant
            from <= i <= to <= chars@.len(),
            text@ == chars@.subrange(from as int, i as int),
        decreases to - i,
    {
        text.push(chars[i]);
        i = i + 1;
        assert(chars@.subrange(from as int, i as int) =~= chars@.subrange(
            from as int,
            i - 1,
        ).push(chars@[i - 1]));
    }
    text
}

/// The bounds of a text without the white space at either end.
fn trim_bounds(chars: &Vec<char>) -> (bounds: (usize, usize))
    ensures
        bounds.0 <= bounds.1 <= chars@.len(),
        chars@.subrange(bounds.0 as int, bounds.1 as int) == trimmed(chars@),
{
    let mut from: usize = 0;
    let len: usize = chars.len();
    assert(chars@.skip(0) =~= chars@);
    while from < len && is_white_space(chars[from])
        invariant
            from <= len == chars@.len(),
            trimmed_start(chars@) == trimmed_start(chars@.skip(from as int)),
        decreases len - from,
    {
        assert(chars@.skip(from as int).drop_first() =~= chars@.skip(from + 1));
        from = from + 1;
    }
    let ghost rest = chars@.skip(from as int);
    assert(trimmed_start(chars@) == rest);
    let mut to: usize = len;
    assert(chars@.subrange(from as int, to as int) =~= rest);
    while from < to && is_white_space(chars[to - 1])
        invariant
            from <= to <= len == chars@.len(),
            trimmed_end(rest) == trimmed_end(chars@.subrange(from as int, to as int)),
        decreases to - from,
    {
        assert(chars@.subrange(from as int, to as int).drop_last() =~= chars@.subrange(
            from as int,
            to - 1,
        ));
        to = to - 1;
    }
    (from, to)
}

/// The lines of a text, once the white space at either end of the text is taken off.
pub fn trimmed_lines(text: &str) -> (found: Vec<String>)
    ensures
        texts_view(found@) == lines(trimmed(text@)),
{
    let chars = characters(text);
    let (from, to) = trim_bounds(&chars);
    let ghost body = chars@.subrange(from as int, to as int);
    let mut found: Vec<String> = Vec::new();
    let mut start: usize = from;
    assert(chars@.subrange(start as int, to as int) =~= body);
    assert(texts_view(found@) + lines(body) =~= lines(body));
    while start < to
        invariant
            from <= start <= to <= chars@.len(),
            texts_view(found@) + lines(chars@.subrange(start as int, to as int)) == lines(body),
        decreases to - start,
    {
        let ghost rest = chars@.subrange(start as int, to as int);
        let mut end: usize = start;
        assert(rest.skip(0) =~= rest);
        while end < to && chars[end] != '\n'
            invariant
                from <= start <= end <= to <= chars@.len(),
                rest == chars@.subrange(start as int, to as int),
                line_end(rest) == (end - start) + line_end(rest.skip(end - start)),
            decreases to - end,
        {
            assert(rest.skip(end - start).drop_first() =~= rest.skip(end + 1 - start));
            end = end + 1;
        }
        assert(line_end(rest) == end - start);
        let ghost line = rest.take(end - start);
        let ghost before = found@;
        assert(chars@.subrange(start as int, end as int) =~= line);
        if end < to {
            let stop: usize = if start < end && chars[end - 1] == '\r' {
                end - 1
            } else {
                end
            };
            found.push(text_between(&chars, start, stop));
            assert(found@.last()@ =~= without_return(line));
            assert(chars@.subrange(end + 1, to as int) =~= rest.skip(end - start + 1));
            start = end + 1;
        } else {
            found.push(text_between(&chars, start, end));
            assert(found@.last()@ =~= rest);
            assert(chars@.subrange(to as int, to as int) =~= Seq::empty());
            start = to;
        }
        proof {
            let view = texts_view(before);
            assert(texts_view(found@) =~= view.push(found@.last()@));
            let later = lines(chars@.subrange(start as int, to as int));
            assert(texts_view(found@) + later =~= view + (seq![found@.last()@] + later));
            assert(seq![found@.last()@] + later =~= lines(rest));
        }
    }
    assert(chars@.subrange(start as int, to as int) =~= Seq::empty());
    assert(texts_view(found@) + Seq::<Seq<char>>::empty() =~= texts_view(found@));
    found
}

/// Lines written one after the other, with a line feed between two of them.
pub open spec fn joined(written: Seq<Seq<char>>) -> Seq<char>
    decreases written.len(),
{
    if written.len() == 0 {
        Seq::empty()
    } else if written.len() == 1 {
        written[0]
    } else {
        written[0] + seq!['\n'] + joined(written.drop_first())
    }
}

/// The line does not break, and neither begins nor ends with white space.
pub open spec fn tidy_line(line: Seq<char>) -> bool {
    &&& !line.contains('\n')
    &&& line.len() > 0 ==> !white_space(line.first()) && !white_space(line.last())
}

/// The lines without the empty ones before the first and behind the last that holds something.
pub open spec fn without_outer_empty(written: Seq<Seq<char>>) -> Seq<Seq<char>>
    decreases written.len(),
{
    if written.len() > 0 && written.first().len() == 0 {
        without_outer_empty(written.drop_first())
    } else if written.len() > 0 && written.last().len() == 0 {
        without_outer_empty(written.drop_last())
    } else {
        written
    }
}

/// Every character is white space.
pub open spec fn blank(text: Seq<char>) -> bool {
    forall|i: int| 0 <= i < text.len() ==> white_space(#[trigger] text[i])
}

/// Tidy lines are read back as they were written, whatever white space follows the last one. Only
/// empty lines at the beginning and at the end are lost.
pub proof fn law_lines_read_back(written: Seq<Seq<char>>, tail: Seq<char>)
    requires
        forall|i: int| 0 <= i < written.len() ==> tidy_line(#[trigger] written[i]),
        blank(tail),
    ensures
        lines(trimmed(joined(written) + tail)) == without_outer_empty(written),
    decreases written.len(),
{
    let text = joined(written) + tail;
    if written.len() == 0 {
        assert(text =~= tail);
        lemma_blank_trims_away(tail);
        assert(written =~= Seq::empty());
    } else if written.first().len() == 0 {
        let rest = written.drop_first();
        assert forall|i: int| 0 <= i < rest.len() implies tidy_line(#[trigger] rest[i]) by {
            assert(tidy_line(written[i + 1]));
        }
        law_lines_read_back(rest, tail);
        if written.len() == 1 {
            assert(text =~= joined(rest) + tail);
        } else {
            assert(white_space('\n'));
            assert(text.first() == '\n');
            assert(text.drop_first() =~= joined(rest) + tail);
        }
    } else if written.last().len() == 0 {
        let fewer = written.drop_last();
        assert forall|i: int| 0 <= i < fewer.len() implies tidy_line(#[trigger] fewer[i]) by {
            assert(tidy_line(written[i]));
        }
        lemma_joined_push(fewer, written.last());
        assert(written =~= fewer.push(written.last()));
        let longer = seq!['\n'] + tail;
        assert(blank(longer)) by {
            assert forall|i: int| 0 <= i < longer.len() implies white_space(
                #[trigger] longer[i],
            ) by {
                if i > 0 {
                    assert(white_space(tail[i - 1]));
                }
            }
        }
        assert(text =~= joined(fewer) + longer);
        law_lines_read_back(fewer, longer);
    } else {
        assert(tidy_line(written[0]));
        lemma_joined_first(written);
        lemma_joined_last(written);
        assert(text.first() == joined(written).first());
        assert(trimmed_start(text) == text);
        lemma_tail_trims_away(joined(written), tail);
        lemma_lines_of_joined(written);
    }
}

/// A line that holds something is lost neither with the empty lines before nor with those behind.
pub proof fn lemma_outer_empty_only(written: Seq<Seq<char>>, line: Seq<char>)
    ensures
        without_outer_empty(written).contains(line) ==> written.contains(line),
        written.contains(line) && line.len() > 0 ==> without_outer_empty(written).contains(line),
    decreases written.len(),
{
    if written.len() > 0 && (written.first().len() == 0 || written.last().len() == 0) {
        let front = written.first().len() == 0;
        let fewer = if front { written.drop_first() } else { written.drop_last() };
        lemma_outer_empty_only(fewer, line);
        if fewer.contains(line) {
            let i = choose|i: int| 0 <= i < fewer.len() && fewer[i] == line;
            assert(written[if front { i + 1 } else { i }] == line);
        }
        if written.contains(line) && line.len() > 0 {
            let i = choose|i: int| 0 <= i < written.len() && written[i] == line;
            assert(fewer[if front { i - 1 } else { i }] == line);
        }
    }
}

/// Nothing is left of a blank text.
proof fn lemma_blank_trims_away(text: Seq<char>)
    requires
        blank(text),
    ensures
        trimmed_start(text) == Seq::<char>::empty(),
        trimmed(text) == Seq::<char>::empty(),
    decreases text.len(),
{
    if text.len() == 0 {
        assert(text =~= Seq::empty());
    } else {
        assert(white_space(text[0]));
        assert forall|i: int| 0 <= i < text.len() - 1 implies white_space(
            #[trigger] text.drop_first()[i],
        ) by {
            assert(white_space(text[i + 1]));
        }
        lemma_blank_trims_away(text.drop_first());
    }
}

/// White space behind a text that does not end with any is taken off.
proof fn lemma_tail_trims_away(text: Seq<char>, tail: Seq<char>)
    requires
        text.len() > 0,
        !white_space(text.last()),
        blank(tail),
    ensures
        trimmed_end(text + tail) == text,
    decreases tail.len(),
{
    let all = text + tail;
    if tail.len() == 0 {
        assert(all =~= text);
    } else {
        assert(white_space(tail[tail.len() - 1]));
        assert(all.drop_last() =~= text + tail.drop_last());
        assert(blank(tail.drop_last())) by {
            assert forall|i: int| 0 <= i < tail.len() - 1 implies white_space(
                #[trigger] tail.drop_last()[i],
            ) by {
                assert(white_space(tail[i]));
            }
        }
        lemma_tail_trims_away(text, tail.drop_last());
    }
}

/// Joined lines begin as the first of them does.
proof fn lemma_joined_first(written: Seq<Seq<char>>)
    requires
        written.len() > 0,
        written.first().len() > 0,
    ensures
        joined(written).len() > 0,
        joined(written).first() == written.first().first(),
{
}

/// Joined lines end as the last of them does, if that is a tidy line that holds something.
proof fn lemma_joined_last(written: Seq<Seq<char>>)
    requires
        written.len() > 0,
        written.last().len() > 0,
        tidy_line(written.last()),
    ensures
        joined(written).len() > 0,
        !white_space(joined(written).last()),
    decreases written.len(),
{
    if written.len() > 1 {
        let rest = written.drop_first();
        lemma_joined_last(rest);
        assert(joined(written).last() == joined(rest).last());
    }
}

/// One more line stands behind a line feed.
proof fn lemma_joined_push(written: Seq<Seq<char>>, line: Seq<char>)
    requires
        written.len() > 0,
    ensures
        joined(written.push(line)) == joined(written) + seq!['\n'] + line,
    decreases written.len(),
{
    let more = written.push(line);
    if written.len() == 1 {
        assert(more.drop_first() =~= seq![line]);
        assert(joined(more.drop_first()) == line);
    } else {
        let rest = written.drop_first();
        lemma_joined_push(rest, line);
        assert(more.drop_first() =~= rest.push(line));
        assert(joined(more) =~= joined(written) + seq!['\n'] + line);
    }
}

/// The lines of joined tidy lines of which the last one holds something.
proof fn lemma_lines_of_joined(written: Seq<Seq<char>>)
    requires
        written.len() > 0,
        forall|i: int| 0 <= i < written.len() ==> tidy_line(#[trigger] written[i]),
        written.last().len() > 0,
    ensures
        lines(joined(written)) == written,
    decreases written.len(),
{
    let line = written[0];
    assert(tidy_line(line));
    if written.len() == 1 {
        lemma_line_end(line, Seq::empty());
        assert(line + Seq::<char>::empty() =~= line);
        assert(written =~= seq![line]);
    } else {
        let rest = written.drop_first();
        assert forall|i: int| 0 <= i < rest.len() implies tidy_line(#[trigger] rest[i]) by {
            assert(tidy_line(written[i + 1]));
        }
        lemma_lines_of_joined(rest);
        let after = seq!['\n'] + joined(rest);
        let text = joined(written);
        assert(text =~= line + after);
        lemma_line_end(line, after);
        assert(text.take(line.len() as int) =~= line);
        assert(white_space('\r'));
        assert(without_return(line) == line);
        assert(text.skip(line.len() as int + 1) =~= joined(rest));
        assert(written =~= seq![line] + rest);
    }
}

/// The first line of a text ends where the first line feed stands.
proof fn lemma_line_end(line: Seq<char>, after: Seq<char>)
    requires
        !line.contains('\n'),
        after.len() == 0 || after.first() == '\n',
    ensures
        line_end(line + after) == line.len(),
    decreases line.len(),
{
    let text = line + after;
    if line.len() == 0 {
        assert(text =~= after);
    } else {
        assert(line.contains(line[0]));
        assert(text.drop_first() =~= line.drop_first() + after);
        assert(!line.drop_first().contains('\n')) by {
            assert forall|i: int| 0 <= i < line.len() - 1 implies line.drop_first()[i] != '\n' by {
                assert(line.contains(line[i + 1]));
            }
        }
        lemma_line_end(line.drop_first(), after);
    }
}

/// White space is the tab, the line feed, the vertical tab, the form feed, the carriage return,
/// the space, and what Unicode counts as white space beyond ASCII; nothing else is.
pub proof fn law_white_space(c: char, is: bool)
    requires
        call_ensures(is_white_space, (c,), is),
    ensures
        is == white_space(c),
        (c as u32) < 0x80 ==> (is <==> c == '\t' || c == '\n' || c == '\x0b' || c == '\x0c' || c
            == '\r' || c == ' '),
        (c as u32) >= 0x80 ==> (is <==> c == '\u{85}' || c == '\u{a0}' || c == '\u{1680}' || (
        '\u{2000}' <= c <= '\u{200a}') || c == '\u{2028}' || c == '\u{2029}' || c == '\u{202f}'
            || c == '\u{205f}' || c == '\u{3000}'),
{
}

/// Trimming takes off white space at either end and nothing else: what stands between white space
/// and neither begins nor ends with any is what is left, whatever it holds inside.
pub proof fn law_trimming_takes_off_the_ends(lead: Seq<char>, body: Seq<char>, tail: Seq<char>)
    requires
        forall|i: int| 0 <= i < lead.len() ==> white_space(#[trigger] lead[i]),
        forall|i: int| 0 <= i < tail.len() ==> white_space(#[trigger] tail[i]),
        body.len() > 0 ==> !white_space(body[0]) && !white_space(body[body.len() - 1]),
    ensures
        trimmed(lead + body + tail) == body,
    decreases lead.len(),
{
    let text = lead + body + tail;
    if body.len() == 0 {
        assert(body =~= Seq::empty());
        assert(blank(text)) by {
            assert forall|i: int| 0 <= i < text.len() implies white_space(#[trigger] text[i]) by {
                if i < lead.len() {
                    assert(text[i] == lead[i]);
                } else {
                    assert(text[i] == tail[i - lead.len()]);
                }
            }
        }
        lemma_blank_trims_away(text);
    } else if lead.len() == 0 {
        assert(text =~= body + tail);
        assert(trimmed_start(text) == text);
        assert(blank(tail));
        lemma_tail_trims_away(body, tail);
    } else {
        let rest = lead.drop_first();
        assert forall|i: int| 0 <= i < rest.len() implies white_space(#[trigger] rest[i]) by {
            assert(white_space(lead[i + 1]));
        }
        law_trimming_takes_off_the_ends(rest, body, tail);
        assert(white_space(lead[0]));
        assert(text.first() == lead[0]);
        assert(text.drop_first() =~= rest + body + tail);
    }
}

/// Lines are cut at line feeds and nowhere else. A text of lines, each with a line feed or a
/// carriage return and a line feed behind it, and perhaps of an unfinished line at the end, has
/// exactly these lines, of whatever length; an ending is never part of a line.
pub proof fn law_lines_end_at_line_feeds(
    written: Seq<Seq<char>>,
    ends: Seq<Seq<char>>,
    unfinished: Seq<char>,
)
    requires
        ends.len() == written.len(),
        forall|i: int| 0 <= i < written.len() ==> !(#[trigger] written[i]).contains('\n'),
        !unfinished.contains('\n'),
        forall|i: int|
            0 <= i < ends.len() ==> {
                ||| (#[trigger] ends[i]) == seq!['\r', '\n']
                ||| ends[i] == seq!['\n'] && (written[i].len() > 0 ==> written[i].last() != '\r')
            },
    ensures
        lines(Seq::new(written.len(), |i: int| written[i] + ends[i]).flatten() + unfinished) == (
        if unfinished.len() == 0 {
            written
        } else {
            written.push(unfinished)
        }),
    decreases written.len(),
{
    let pieces = Seq::new(written.len(), |i: int| written[i] + ends[i]);
    let text = pieces.flatten() + unfinished;
    if written.len() == 0 {
        assert(text =~= unfinished);
        if unfinished.len() > 0 {
            lemma_line_end(unfinished, Seq::empty());
            assert(unfinished + Seq::<char>::empty() =~= unfinished);
            assert(written.push(unfinished) =~= seq![unfinished]);
        } else {
            assert(written =~= Seq::empty());
        }
    } else {
        let line = written[0];
        let rest = written.drop_first();
        let rest_ends = ends.drop_first();
        assert forall|i: int| 0 <= i < rest.len() implies !(#[trigger] rest[i]).contains('\n') by {
            assert(!written[i + 1].contains('\n'));
        }
        assert forall|i: int| 0 <= i < rest_ends.len() implies {
            ||| (#[trigger] rest_ends[i]) == seq!['\r', '\n']
            ||| rest_ends[i] == seq!['\n'] && (rest[i].len() > 0 ==> rest[i].last() != '\r')
        } by {
            assert(ends[i + 1] == rest_ends[i]);
        }
        law_lines_end_at_line_feeds(rest, rest_ends, unfinished);
        let later = Seq::new(rest.len(), |i: int| rest[i] + rest_ends[i]);
        assert(pieces.drop_first() =~= later);
        let after = later.flatten() + unfinished;
        assert(text =~= line + ends[0] + after);
        assert(!written[0].contains('\n'));
        assert(ends[0] == ends[0]);
        if ends[0] == seq!['\r', '\n'] {
            let whole = line.push('\r');
            assert(!whole.contains('\n')) by {
                assert forall|i: int| 0 <= i < whole.len() implies whole[i] != '\n' by {
                    if i < line.len() {
                        assert(line.contains(line[i]));
                    }
                }
            }
            lemma_line_end(whole, seq!['\n'] + after);
            assert(text =~= whole + (seq!['\n'] + after));
            assert(text.take(whole.len() as int) =~= whole);
            assert(without_return(whole) =~= line);
            assert(text.skip(whole.len() as int + 1) =~= after);
        } else {
            lemma_line_end(line, seq!['\n'] + after);
            assert(text =~= line + (seq!['\n'] + after));
            assert(text.take(line.len() as int) =~= line);
            assert(without_return(line) == line);
            assert(text.skip(line.len() as int + 1) =~= after);
        }
        assert(lines(text) == seq![line] + lines(after));
        assert(written =~= seq![line] + rest);
        assert(written.push(unfinished) =~= seq![line] + rest.push(unfinished));
    }
}

/// The lines of a file are found whatever white space stands before and behind them: a file that
/// holds lines, each with its ending, and then a last line has exactly these lines.
pub proof fn law_lines_of_a_file(
    text: &str,
    lead: Seq<char>,
    written: Seq<Seq<char>>,
    ends: Seq<Seq<char>>,
    last: Seq<char>,
    tail: Seq<char>,
    found: Vec<String>,
)
    requires
        call_ensures(trimmed_lines, (text,), found),
        text@ == lead + (Seq::new(written.len(), |i: int| written[i] + ends[i]).flatten() + last)
            + tail,
        forall|i: int| 0 <= i < lead.len() ==> white_space(#[trigger] lead[i]),
        forall|i: int| 0 <= i < tail.len() ==> white_space(#[trigger] tail[i]),
        ends.len() == written.len(),
        forall|i: int| 0 <= i < written.len() ==> !(#[trigger] written[i]).contains('\n'),
        forall|i: int|
            0 <= i < ends.len() ==> {
                ||| (#[trigger] ends[i]) == seq!['\r', '\n']
                ||| ends[i] == seq!['\n'] && (written[i].len() > 0 ==> written[i].last() != '\r')
            },
        !last.contains('\n'),
        last.len() > 0 && !white_space(last.last()),
        written.len() > 0 ==> written[0].len() > 0 && !white_space(written[0][0]),
        written.len() == 0 ==> !white_space(last[0]),
    ensures
        found@.len() == written.len() + 1,
        forall|i: int| 0 <= i < written.len() ==> (#[trigger] found@[i])@ == written[i],
        found@[written.len() as int]@ == last,
        lines(trimmed(text@)) == written.push(last),
{
    let pieces = Seq::new(written.len(), |i: int| written[i] + ends[i]);
    let body = pieces.flatten() + last;
    if written.len() > 0 {
        assert(pieces.flatten() == pieces[0] + pieces.drop_first().flatten());
        assert(body[0] == written[0][0]);
    } else {
        assert(body =~= last);
    }
    assert(body[body.len() - 1] == last.last());
    law_trimming_takes_off_the_ends(lead, body, tail);
    law_lines_end_at_line_feeds(written, ends, last);
    assert(texts_view(found@) == written.push(last));
    assert forall|i: int| 0 <= i < written.len() implies (#[trigger] found@[i])@ == written[i] by {
        assert(texts_view(found@)[i] == found@[i]@);
    }
    assert(texts_view(found@)[written.len() as int] == found@[written.len() as int]@);
}

/// A file that holds nothing but white space has no lines.
pub proof fn law_blank_file_has_no_lines(text: &str, found: Vec<String>)
    requires
        call_ensures(trimmed_lines, (text,), found),
        forall|i: int| 0 <= i < text@.len() ==> white_space(#[trigger] text@[i]),
    ensures
        found@.len() == 0,
        lines(trimmed(text@)).len() == 0,
{
    assert(blank(text@));
    lemma_blank_trims_away(text@);
    assert(texts_view(found@).len() == 0);
}

/// Lines of which each has a line feed behind it, taken together.
pub proof fn lemma_joined_with_line_feeds(written: Seq<Seq<char>>)
    requires
        written.len() > 0,
    ensures
        Seq::new(written.len(), |i: int| written[i].push('\n')).flatten() == joined(written) + seq![
            '\n',
        ],
    decreases written.len(),
{
    let pieces = Seq::new(written.len(), |i: int| written[i].push('\n'));
    let rest = written.drop_first();
    let later = Seq::new(rest.len(), |i: int| rest[i].push('\n'));
    assert(pieces.drop_first() =~= later);
    assert(pieces.flatten() == pieces[0] + later.flatten());
    if written.len() == 1 {
        assert(later =~= Seq::empty());
        assert(pieces.flatten() =~= joined(written) + seq!['\n']);
    } else {
        lemma_joined_with_line_feeds(rest);
        assert(pieces.flatten() =~= joined(written) + seq!['\n']);
    }
}

} // verus!
