//! Rendering of lints as a report for people to read.
//!
//! A report has one block per lint, in the order of the lints: a label for
//! the severity and the description; then, for a lint with a span, the place
//! in the source as `path:line:column`, the source line, and a caret under
//! the column. The place is found from the byte offset at which the span
//! starts, by adding up the lengths of the lines of the source. The reporter
//! is given the text of the source, or nothing where the source could not be
//! read; without the text every place is reported as line 1, column 1, and
//! no source line is shown.

use crate::diagnostics::lint::{lint_views, Lint, LintView, Severity};
use crate::text::{
    decimal, is_whitespace, lemma_trim_end_is_prefix, line_texts, lines_of, push_decimal,
    push_spaces, spaces, split_lines, trim, trimmed,
};
use vstd::prelude::*;
use vstd::string::*;
use vstd::utf8::{encode_utf8, is_ascii_chars, is_ascii_chars_encode_utf8};

verus! {

/// The number of bytes that `line` takes in the source.
pub open spec fn byte_length(line: Seq<char>) -> nat {
    encode_utf8(line).len()
}

/// The byte offset at which line `index` (counted from 0) starts, where
/// every line before it takes its own bytes and one more for its line
/// ending.
pub open spec fn line_start(lines: Seq<Seq<char>>, index: nat) -> nat
    decreases index,
{
    if index == 0 {
        0
    } else {
        line_start(lines, (index - 1) as nat) + byte_length(lines[index - 1]) + 1
    }
}

/// The line and column, both counted from 1, of the byte at `offset`, found
/// by looking through the lines from line `index` (counted from 0) on: the
/// first of them that ends after `offset` is the line, and the distance of
/// `offset` from its start gives the column. `None` if all those lines end
/// at or before `offset`.
pub open spec fn locate_from(lines: Seq<Seq<char>>, offset: nat, index: nat) -> Option<(nat, nat)>
    decreases lines.len() - index,
{
    if index >= lines.len() {
        None
    } else if offset < line_start(lines, index + 1) {
        Some((index + 1, (offset - line_start(lines, index) + 1) as nat))
    } else {
        locate_from(lines, offset, index + 1)
    }
}

/// The line and column, both counted from 1, that are reported for the byte
/// at `offset` of a source with the given lines: its place among the lines,
/// or line 1 and column 1 if `offset` is past the last line.
pub open spec fn place_in(lines: Seq<Seq<char>>, offset: nat) -> (nat, nat) {
    match locate_from(lines, offset, 0) {
        Some(place) => place,
        None => (1, 1),
    }
}

/// The line and column that are reported for the byte at `offset` of
/// `source`; line 1 and column 1 where there is no source text.
pub open spec fn line_column(source: Option<Seq<char>>, offset: nat) -> (nat, nat) {
    match source {
        Some(text) => place_in(lines_of(text), offset),
        None => (1, 1),
    }
}

/// Line `line_number` (counted from 1) of `source`, if the source has that
/// many lines.
pub open spec fn source_line(source: Option<Seq<char>>, line_number: nat) -> Option<Seq<char>> {
    match source {
        Some(text) => if 1 <= line_number <= lines_of(text).len() {
            Some(lines_of(text)[line_number - 1])
        } else {
            None
        },
        None => None,
    }
}

/// The label that a report shows for a severity.
pub open spec fn severity_label(severity: Severity) -> Seq<char> {
    match severity {
        Severity::Error => "\x1b[1;31merror\x1b[0m"@,
        Severity::Warning => "\x1b[1;33mwarning\x1b[0m"@,
    }
}

/// The first line of a block: the label of the severity and the
/// description.
pub open spec fn headline(lint: LintView) -> Seq<char> {
    severity_label(lint.severity) + ": \x1b[1m"@ + lint.description + "\x1b[0m\n"@
}

/// The line of a block that names the place of the finding.
pub open spec fn location_line(path: Seq<char>, line: nat, column: nat) -> Seq<char> {
    "  --> \x1b[1;36m"@ + path + ":\x1b[1;34m"@ + decimal(line) + ":"@ + decimal(column)
        + "\x1b[0m\n"@
}

/// What the row of the source line starts with: a bar with a blank before
/// and after it.
pub open spec fn source_row_start() -> Seq<char> {
    " \x1b[1;37m| "@
}

/// What the row of the caret starts with: blanks, as many as the row of the
/// source line shows before the line.
pub open spec fn caret_row_start() -> Seq<char> {
    " \x1b[1;37m  "@
}

/// The caret, in red, and the end of its row.
pub open spec fn caret_mark() -> Seq<char> {
    "\x1b[1;31m^\x1b[0m\n"@
}

/// The row of a snippet that shows the source line, without the white
/// space around it.
pub open spec fn source_row(line: Seq<char>) -> Seq<char> {
    source_row_start() + trimmed(line) + "\x1b[0m\n"@
}

/// The row of a snippet that holds the caret, `column - 1` places to the
/// right of where the source line starts in the row above.
pub open spec fn caret_row(column: nat) -> Seq<char> {
    caret_row_start() + spaces((column - 1) as nat) + caret_mark()
}

/// The two rows of a block that show the source: the source line, and
/// under it the caret.
pub open spec fn snippet(line: Seq<char>, column: nat) -> Seq<char> {
    source_row(line) + caret_row(column)
}

/// Whether `text` ends within an escape sequence. An escape sequence is
/// what a terminal obeys and does not show; those of a report run from an
/// escape character through the next `m`.
pub open spec fn escape_open(text: Seq<char>) -> bool
    decreases text.len(),
{
    if text.len() == 0 {
        false
    } else {
        (text.last() == '\x1b' || escape_open(text.drop_last())) && text.last() != 'm'
    }
}

/// The number of characters of `text` that a terminal shows: those that
/// belong to no escape sequence.
pub open spec fn shown_width(text: Seq<char>) -> nat
    decreases text.len(),
{
    if text.len() == 0 {
        0
    } else if text.last() == '\x1b' || escape_open(text.drop_last()) {
        shown_width(text.drop_last())
    } else {
        shown_width(text.drop_last()) + 1
    }
}

/// What a block shows of the place of a finding: nothing for a lint without
/// a span; else the location line and, where the source has the line, the
/// snippet.
pub open spec fn placement(lint: LintView, path: Seq<char>, source: Option<Seq<char>>) -> Seq<
    char,
> {
    match lint.span {
        Some(span) => {
            let (line, column) = line_column(source, span.start() as nat);
            location_line(path, line, column) + match source_line(source, line) {
                Some(text) => snippet(text, column),
                None => Seq::empty(),
            }
        },
        None => Seq::empty(),
    }
}

/// The block of one lint; it ends with an empty line.
pub open spec fn block(lint: LintView, path: Seq<char>, source: Option<Seq<char>>) -> Seq<char> {
    headline(lint) + placement(lint, path, source) + "\n"@
}

/// The report on `lints`: their blocks, in order.
pub open spec fn report(lints: Seq<LintView>, path: Seq<char>, source: Option<Seq<char>>) -> Seq<
    char,
>
    decreases lints.len(),
{
    if lints.len() == 0 {
        Seq::empty()
    } else {
        report(lints.drop_last(), path, source) + block(lints.last(), path, source)
    }
}

/// The text of `source`, if there is one.
pub open spec fn source_text(source: Option<&str>) -> Option<Seq<char>> {
    match source {
        Some(text) => Some(text@),
        None => None,
    }
}

/// Finds the line and column of the byte at `byte_offset` among `lines`.
fn locate(lines: &Vec<&str>, byte_offset: u32) -> (place: (usize, u64))
    ensures
        (place.0 as nat, place.1 as nat) == place_in(line_texts(lines@), byte_offset as nat),
        1 <= place.0,
        1 <= place.1,
        place.0 <= lines@.len() || place.0 == 1,
{
    let ghost texts = line_texts(lines@);
    let mut current_offset: u32 = 0;
    let mut index: usize = 0;
    while index < lines.len()
        invariant
            index <= lines.len(),
            texts == line_texts(lines@),
            current_offset == line_start(texts, index as nat),
            current_offset <= byte_offset,
            locate_from(texts, byte_offset as nat, 0) == locate_from(
                texts,
                byte_offset as nat,
                index as nat,
            ),
        decreases lines.len() - index,
    {
        let line_length = lines[index].as_bytes().len();
        assert(line_length == byte_length(texts[index as int]));
        let remaining = byte_offset - current_offset;
        if line_length >= remaining as usize {
            return (index + 1, remaining as u64 + 1);
        }
        current_offset = current_offset + line_length as u32 + 1;
        index = index + 1;
    }
    (1, 1)
}

/// Extracts the line and column, both counted from 1, of the byte at
/// `byte_offset` of `source`. Where there is no source text, and where the
/// offset is past the last line, the answer is line 1, column 1.
pub fn get_line_column(source: Option<&str>, byte_offset: u32) -> (place: (usize, u64))
    ensures
        (place.0 as nat, place.1 as nat) == line_column(source_text(source), byte_offset as nat),
{
    match source {
        Some(text) => {
            let lines = split_lines(text);
            locate(&lines, byte_offset)
        },
        None => (1, 1),
    }
}

/// Retrieves line `line_number`, counted from 1, of `source`, if there is
/// source text and it has that many lines.
pub fn get_source_line(source: Option<&str>, line_number: usize) -> (line: Option<String>)
    ensures
        match line {
            Some(text) => Some(text@),
            None => None,
        } == source_line(source_text(source), line_number as nat),
{
    match source {
        Some(text) => {
            let lines = split_lines(text);
            if 1 <= line_number && line_number <= lines.len() {
                Some(String::from_str(lines[line_number - 1]))
            } else {
                None
            }
        },
        None => None,
    }
}

/// Handles reporting of lints detected during analysis.
pub struct Reporter;

impl Reporter {
    /// The label that a report shows for `severity`.
    fn label(severity: Severity) -> (label: &'static str)
        ensures
            label@ == severity_label(severity),
    {
        match severity {
            Severity::Error => "\x1b[1;31merror\x1b[0m",
            Severity::Warning => "\x1b[1;33mwarning\x1b[0m",
        }
    }

    /// Writes the snippet that shows `line` with a caret under `column`
    /// at the end of `output`.
    fn write_snippet(output: &mut String, line: &str, column: u64)
        requires
            column >= 1,
        ensures
            final(output)@ == old(output)@ + snippet(line@, column as nat),
    {
        output.append(" \x1b[1;37m| ");
        output.append(trim(line));
        output.append("\x1b[0m\n");
        output.append(" \x1b[1;37m  ");
        push_spaces(output, column - 1);
        output.append("\x1b[1;31m^\x1b[0m\n");
        assert(output@ =~= old(output)@ + snippet(line@, column as nat));
    }

    /// Writes the block of `lint` at the end of `output`. `lines` are the
    /// lines of the source, where there is source text.
    fn write_block(output: &mut String, lint: &Lint, file_path: &str, lines: &Option<Vec<&str>>)
        ensures
            forall|source: Option<Seq<char>>|
                (match source {
                    Some(text) => lines matches Some(split) && line_texts(split@) == lines_of(text),
                    None => lines is None,
                }) ==> final(output)@ == old(output)@ + #[trigger] block(lint@, file_path@, source),
    {
        let ghost start = output@;
        output.append(Reporter::label(lint.severity));
        output.append(": \x1b[1m");
        output.append(lint.description.as_str());
        output.append("\x1b[0m\n");
        assert(output@ =~= start + headline(lint@));
        if let Some(span) = lint.span {
            let (line, column) = match lines {
                Some(split) => locate(split, span.start()),
                None => (1, 1),
            };
            output.append("  --> \x1b[1;36m");
            output.append(file_path);
            output.append(":\x1b[1;34m");
            push_decimal(output, line as u64);
            output.append(":");
            push_decimal(output, column);
            output.append("\x1b[0m\n");
            assert(output@ =~= start + headline(lint@) + location_line(
                file_path@,
                line as nat,
                column as nat,
            ));
            let ghost shown = output@;
            match lines {
                Some(split) => {
                    if line <= split.len() {
                        Reporter::write_snippet(output, split[line - 1], column);
                    }
                },
                None => {},
            }
            let ghost placed = output@;
            output.append("\n");
            assert forall|source: Option<Seq<char>>|
                (match source {
                    Some(text) => lines matches Some(split) && line_texts(split@) == lines_of(text),
                    None => lines is None,
                }) implies output@ == start + #[trigger] block(lint@, file_path@, source) by {
                assert(line_column(source, span.start() as nat) == (line as nat, column as nat));
                match source {
                    Some(text) => {
                        let split = lines->0;
                        if line <= split.len() {
                            assert(line_texts(split@)[line - 1] == split@[line - 1]@);
                        }
                    },
                    None => {},
                }
                assert(placed =~= start + headline(lint@) + placement(lint@, file_path@, source));
                assert(output@ =~= start + block(lint@, file_path@, source));
            }
        } else {
            output.append("\n");
            assert forall|source: Option<Seq<char>>|
                true implies output@ == start + #[trigger] block(lint@, file_path@, source) by {
                assert(placement(lint@, file_path@, source) =~= Seq::empty());
                assert(output@ =~= start + block(lint@, file_path@, source));
            }
        }
    }

    /// Pretty-prints `lints` in a structured and colorful format. `file_path`
    /// is the path of the analyzed file as it is to be shown, and `source`
    /// is the text of that file, or `None` where it could not be read.
    pub fn pretty_report(lints: &[Lint], file_path: &str, source: Option<&str>) -> (output: String)
        ensures
            output@ == report(lint_views(lints@), file_path@, source_text(source)),
    {
        let lines: Option<Vec<&str>> = match source {
            Some(text) => Some(split_lines(text)),
            None => None,
        };
        let mut output = String::new();
        let mut i: usize = 0;
        assert(lint_views(lints@).take(0) =~= Seq::empty());
        while i < lints.len()
            invariant
                i <= lints.len(),
                match source_text(source) {
                    Some(text) => lines matches Some(split) && line_texts(split@) == lines_of(text),
                    None => lines is None,
                },
                output@ == report(
                    lint_views(lints@).take(i as int),
                    file_path@,
                    source_text(source),
                ),
            decreases lints.len() - i,
        {
            assert(lint_views(lints@).take(i + 1).drop_last() =~= lint_views(lints@).take(i as int));
            assert(lint_views(lints@).take(i + 1).last() == lints@[i as int]@);
            let ghost before = output@;
            Reporter::write_block(&mut output, &lints[i], file_path, &lines);
            assert(output@ == before + block(lints@[i as int]@, file_path@, source_text(source)));
            i = i + 1;
        }
        assert(lint_views(lints@).take(i as int) =~= lint_views(lints@));
        output
    }
}

/// Where the search from line `index` on finds the byte at `offset`, given
/// that the byte lies at or after the start of that line and before the end
/// of the last line.
proof fn lemma_locate_from(lines: Seq<Seq<char>>, offset: nat, index: nat)
    requires
        index < lines.len(),
        line_start(lines, index) <= offset < line_start(lines, lines.len()),
    ensures
        locate_from(lines, offset, index) matches Some((line, column)) && {
            &&& index < line <= lines.len()
            &&& line_start(lines, (line - 1) as nat) <= offset < line_start(lines, line)
            &&& column == offset - line_start(lines, (line - 1) as nat) + 1
        },
    decreases lines.len() - index,
{
    if offset >= line_start(lines, index + 1) {
        if index + 1 == lines.len() {
            assert(false);
        }
        lemma_locate_from(lines, offset, index + 1);
    }
}

/// Report fidelity: for a byte that lies within the lines of a source, the
/// reported line is the line that holds the byte, counted from 1, and the
/// reported column is one more than the distance of the byte from the
/// start of that line, so that the first byte of a line is in column 1. The
/// column is at most one past the bytes of the line: the place of its line
/// ending.
pub proof fn lemma_place_is_where_the_byte_is(lines: Seq<Seq<char>>, offset: nat)
    requires
        offset < line_start(lines, lines.len()),
    ensures
        ({
            let (line, column) = place_in(lines, offset);
            &&& 1 <= line <= lines.len()
            &&& line_start(lines, (line - 1) as nat) + (column - 1) == offset
            &&& 1 <= column <= byte_length(lines[line - 1]) + 1
        }),
{
    if lines.len() > 0 {
        lemma_locate_from(lines, offset, 0);
    }
}

/// Writing a character after a text changes what is shown by that
/// character alone: it is shown unless it starts an escape sequence or
/// stands within one, and an escape sequence is open afterwards unless the
/// character is the `m` that ends it.
proof fn lemma_shown_push(text: Seq<char>, c: char)
    ensures
        escape_open(text.push(c)) == ((c == '\x1b' || escape_open(text)) && c != 'm'),
        shown_width(text.push(c)) == shown_width(text) + if c == '\x1b' || escape_open(text) {
            0nat
        } else {
            1nat
        },
{
    assert(text.push(c).drop_last() =~= text);
}

/// After a text that ends outside an escape sequence, characters other
/// than the escape character are shown one and all.
proof fn lemma_shown_plain(text: Seq<char>, plain: Seq<char>)
    requires
        !escape_open(text),
        forall|k: int| 0 <= k < plain.len() ==> plain[k] != '\x1b',
    ensures
        !escape_open(text + plain),
        shown_width(text + plain) == shown_width(text) + plain.len(),
    decreases plain.len(),
{
    if plain.len() == 0 {
        assert(text + plain =~= text);
    } else {
        lemma_shown_plain(text, plain.drop_last());
        lemma_shown_push(text + plain.drop_last(), plain.last());
        assert((text + plain.drop_last()).push(plain.last()) =~= text + plain);
    }
}

/// Both rows of a snippet start with three shown characters, and with no
/// escape sequence left open.
proof fn lemma_row_starts()
    ensures
        shown_width(source_row_start()) == 3,
        shown_width(caret_row_start()) == 3,
        !escape_open(source_row_start()),
        !escape_open(caret_row_start()),
{
    reveal_strlit(" \x1b[1;37m| ");
    reveal_strlit(" \x1b[1;37m  ");
    let shared = seq![' ', '\x1b', '[', '1', ';', '3', '7', 'm'];
    let e: Seq<char> = Seq::empty();
    lemma_shown_push(e, ' ');
    lemma_shown_push(e.push(' '), '\x1b');
    lemma_shown_push(e.push(' ').push('\x1b'), '[');
    lemma_shown_push(e.push(' ').push('\x1b').push('['), '1');
    lemma_shown_push(e.push(' ').push('\x1b').push('[').push('1'), ';');
    lemma_shown_push(e.push(' ').push('\x1b').push('[').push('1').push(';'), '3');
    lemma_shown_push(e.push(' ').push('\x1b').push('[').push('1').push(';').push('3'), '7');
    lemma_shown_push(
        e.push(' ').push('\x1b').push('[').push('1').push(';').push('3').push('7'),
        'm',
    );
    assert(shared =~= e.push(' ').push('\x1b').push('[').push('1').push(';').push('3').push(
        '7',
    ).push('m'));
    assert(shown_width(shared) == 1 && !escape_open(shared));
    lemma_shown_push(shared, '|');
    lemma_shown_push(shared.push('|'), ' ');
    assert(source_row_start() =~= shared.push('|').push(' '));
    lemma_shown_push(shared, ' ');
    lemma_shown_push(shared.push(' '), ' ');
    assert(caret_row_start() =~= shared.push(' ').push(' '));
}

/// In the caret mark the caret comes after an escape sequence, which is
/// not shown, so that the caret is the first character that the mark shows.
proof fn lemma_caret_mark(before: Seq<char>)
    requires
        !escape_open(before),
    ensures
        caret_mark().len() > 7,
        caret_mark()[7] == '^',
        shown_width(before + caret_mark().take(7)) == shown_width(before),
        shown_width(before + caret_mark().take(8)) == shown_width(before) + 1,
{
    reveal_strlit("\x1b[1;31m^\x1b[0m\n");
    let mark = caret_mark();
    lemma_shown_push(before, '\x1b');
    lemma_shown_push(before.push('\x1b'), '[');
    lemma_shown_push(before.push('\x1b').push('['), '1');
    lemma_shown_push(before.push('\x1b').push('[').push('1'), ';');
    lemma_shown_push(before.push('\x1b').push('[').push('1').push(';'), '3');
    lemma_shown_push(before.push('\x1b').push('[').push('1').push(';').push('3'), '1');
    lemma_shown_push(before.push('\x1b').push('[').push('1').push(';').push('3').push('1'), 'm');
    let hidden = before.push('\x1b').push('[').push('1').push(';').push('3').push('1').push('m');
    assert(before + mark.take(7) =~= hidden);
    lemma_shown_push(hidden, '^');
    assert(before + mark.take(8) =~= hidden.push('^'));
}

/// Report fidelity: the caret stands under the reported column. In the
/// row of the source line, the character of the line at index
/// `column - 1` has as many characters shown before it as the caret has in
/// the row below; the caret is the next character shown there. This holds
/// for a column that is within the line as shown, or one past its end, and
/// a line that holds no escape character before that column. For a line
/// that does not start with white space, the line as shown starts as the
/// source line does, so that the character above the caret is the
/// character of the source line at that index; where the characters of the
/// line take one byte each, that character is the byte at the reported
/// column.
pub proof fn lemma_caret_is_under_the_column(line: Seq<char>, column: nat)
    requires
        column >= 1,
        column - 1 <= trimmed(line).len(),
        forall|k: int| 0 <= k < column - 1 ==> trimmed(line)[k] != '\x1b',
    ensures
        source_row(line) == (source_row_start() + trimmed(line).take(column - 1)) + (trimmed(
            line,
        ).skip(column - 1) + "\x1b[0m\n"@),
        caret_row(column) == (caret_row_start() + spaces((column - 1) as nat) + caret_mark().take(7))
            + caret_mark().skip(7),
        caret_mark().skip(7).first() == '^',
        shown_width(caret_row_start() + spaces((column - 1) as nat) + caret_mark().take(7))
            == shown_width(source_row_start() + trimmed(line).take(column - 1)),
        shown_width(caret_row_start() + spaces((column - 1) as nat) + caret_mark().take(8))
            == shown_width(source_row_start() + trimmed(line).take(column - 1)) + 1,
        shown_width(source_row_start() + trimmed(line).take(column - 1)) == 3 + (column - 1),
        (line.len() == 0 || !is_whitespace(line.first())) ==> trimmed(line).take(column - 1)
            == line.take(column - 1),
        (line.len() == 0 || !is_whitespace(line.first())) && is_ascii_chars(line) && column - 1
            < trimmed(line).len() ==> trimmed(line)[column - 1] as u8 == encode_utf8(line)[column
            - 1],
{
    let shown_line = trimmed(line);
    let before_character = shown_line.take(column - 1);
    let padding = spaces((column - 1) as nat);
    lemma_row_starts();
    lemma_shown_plain(source_row_start(), before_character);
    lemma_shown_plain(caret_row_start(), padding);
    lemma_caret_mark(caret_row_start() + padding);
    assert(source_row(line) =~= (source_row_start() + before_character) + (shown_line.skip(
        column - 1,
    ) + "\x1b[0m\n"@));
    assert(caret_row(column) =~= (caret_row_start() + padding + caret_mark().take(7))
        + caret_mark().skip(7));
    if line.len() == 0 || !is_whitespace(line.first()) {
        lemma_trim_end_is_prefix(line);
        assert(shown_line.take(column - 1) =~= line.take(column - 1));
        if is_ascii_chars(line) && column - 1 < shown_line.len() {
            is_ascii_chars_encode_utf8(line);
            assert(shown_line[column - 1] == line[column - 1]);
        }
    }
}

} // verus!
