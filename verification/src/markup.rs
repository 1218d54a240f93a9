//! What a sequence of events renders to: the markup of each event, and how
//! the state of a rendering moves from one event to the next.
use crate::decimal::{decimal, lemma_decimal_digits};
use crate::event::{Alignment, CodeBlockKind, Event, HeadingLevel, LinkType, Tag};
use crate::footnotes::{footnote_number, with_footnote};
use crate::text::{
    href_escaped_text, html_escaped_text, lemma_html_escaped_text_markup_free,
    lemma_markup_free_concat, markup_free,
};
use vstd::prelude::*;

verus! {

/// The part of a table that is being written.
#[derive(Clone, Copy, Debug, PartialEq, Eq)]
pub enum TableState {
    Head,
    Body,
}

/// The state of a rendering.
pub struct Rendering {
    /// What has been written.
    pub out: Seq<char>,
    /// The part of the table that the last table tag opened.
    pub table_state: TableState,
    /// The column alignments of the last table opened.
    pub alignments: Seq<Alignment>,
    /// How many cells of the current row are closed.
    pub cell_index: nat,
    /// The footnote names seen, in the order in which they were first seen.
    pub names: Seq<Seq<char>>,
    /// How many events have been taken.
    pub pos: int,
}

/// Whether what was written is empty or ends with a line feed, so that a block
/// can start without one.
pub open spec fn at_line_start(out: Seq<char>) -> bool {
    out.len() == 0 || out.last() == '\n'
}

/// Whether `c` is white space.
pub open spec fn is_white_space(c: char) -> bool {
    let v = c as u32;
    ||| 0x09 <= v <= 0x0d
    ||| v == 0x20
    ||| v == 0x85
    ||| v == 0xa0
    ||| v == 0x1680
    ||| 0x2000 <= v <= 0x200a
    ||| v == 0x2028
    ||| v == 0x2029
    ||| v == 0x202f
    ||| v == 0x205f
    ||| v == 0x3000
}

/// The language that the info string of a fenced code block names: its
/// characters before the first white space.
pub open spec fn code_language(info: Seq<char>) -> Seq<char>
    decreases info.len(),
{
    if info.len() == 0 || is_white_space(info[0]) {
        Seq::empty()
    } else {
        seq![info[0]] + code_language(info.drop_first())
    }
}

/// The element name of a heading.
pub open spec fn heading_name(level: HeadingLevel) -> Seq<char> {
    match level {
        HeadingLevel::H1 => "h1"@,
        HeadingLevel::H2 => "h2"@,
        HeadingLevel::H3 => "h3"@,
        HeadingLevel::H4 => "h4"@,
        HeadingLevel::H5 => "h5"@,
        HeadingLevel::H6 => "h6"@,
    }
}

/// The `id` attribute of a heading, if it has an identifier.
pub open spec fn id_attribute(id: Option<String>) -> Seq<char> {
    match id {
        Some(id) => " id=\""@ + html_escaped_text(id@) + "\""@,
        None => Seq::empty(),
    }
}

/// The classes, escaped, with a space between each two.
pub open spec fn joined_classes(classes: Seq<String>) -> Seq<char>
    decreases classes.len(),
{
    if classes.len() == 0 {
        Seq::empty()
    } else if classes.len() == 1 {
        html_escaped_text(classes[0]@)
    } else {
        joined_classes(classes.drop_last()) + " "@ + html_escaped_text(classes.last()@)
    }
}

/// The `class` attribute of a heading, if it has classes.
pub open spec fn class_attribute(classes: Seq<String>) -> Seq<char> {
    if classes.len() == 0 {
        Seq::empty()
    } else {
        " class=\""@ + joined_classes(classes) + "\""@
    }
}

/// What follows the destination of a link or the alternative text of an
/// image: the end of that attribute's value and, for a title that is not
/// empty, the start of a `title` attribute with its value.
pub open spec fn title_attribute(title: Seq<char>) -> Seq<char> {
    if title.len() == 0 {
        Seq::empty()
    } else {
        "\" title=\""@ + html_escaped_text(title)
    }
}

/// The `style` attribute of the cell with the given index: the alignment of
/// its column, if the table gives one.
pub open spec fn style_attribute(alignments: Seq<Alignment>, index: nat) -> Seq<char> {
    if index < alignments.len() {
        match alignments[index as int] {
            Alignment::Left => " style=\"text-align: left\""@,
            Alignment::Center => " style=\"text-align: center\""@,
            Alignment::Right => " style=\"text-align: right\""@,
            Alignment::Unset => Seq::empty(),
        }
    } else {
        Seq::empty()
    }
}

/// The `class` attribute of a code block: the language that its info string
/// names, if it names one.
pub open spec fn language_attribute(kind: CodeBlockKind) -> Seq<char> {
    match kind {
        CodeBlockKind::Fenced(info) => if code_language(info@).len() == 0 {
            Seq::empty()
        } else {
            " class=\"language-"@ + html_escaped_text(code_language(info@)) + "\""@
        },
        CodeBlockKind::Indented => Seq::empty(),
    }
}

/// The `start` attribute of an ordered list: the number of its first item,
/// unless that is 1.
pub open spec fn start_attribute(start: u64) -> Seq<char> {
    if start == 1 {
        Seq::empty()
    } else {
        " start=\""@ + decimal(start as nat) + "\""@
    }
}

/// What stands before the destination of a link in its `href`.
pub open spec fn link_scheme(link_type: LinkType) -> Seq<char> {
    if link_type is Email {
        "mailto:"@
    } else {
        Seq::empty()
    }
}

/// The element name of a table cell.
pub open spec fn cell_name(state: TableState) -> Seq<char> {
    match state {
        TableState::Head => "th"@,
        TableState::Body => "td"@,
    }
}

/// The box of a task list item.
pub open spec fn task_marker(checked: bool) -> Seq<char> {
    if checked {
        "<input disabled=\"\" type=\"checkbox\" checked=\"\"/>\n"@
    } else {
        "<input disabled=\"\" type=\"checkbox\"/>\n"@
    }
}

impl Rendering {
    /// The state before the first event.
    pub open spec fn initial() -> Rendering {
        Rendering {
            out: Seq::empty(),
            table_state: TableState::Head,
            alignments: Seq::empty(),
            cell_index: 0,
            names: Seq::empty(),
            pos: 0,
        }
    }

    /// The state after `s` is written.
    pub open spec fn write(self, s: Seq<char>) -> Rendering {
        Rendering { out: self.out + s, ..self }
    }

    /// The state once a block can start: a line feed is written unless what
    /// was written is empty or ends with one.
    pub open spec fn fresh_line(self) -> Rendering {
        if at_line_start(self.out) {
            self
        } else {
            self.write(seq!['\n'])
        }
    }

    /// The state after the number of the footnote `name` is written: the name
    /// counts as seen.
    pub open spec fn write_number(self, name: Seq<char>) -> Rendering {
        Rendering {
            out: self.out + decimal(footnote_number(self.names, name)),
            names: with_footnote(self.names, name),
            ..self
        }
    }

    /// The state after one more event is taken.
    pub open spec fn advance(self) -> Rendering {
        Rendering { pos: self.pos + 1, ..self }
    }
}

/// A write of nothing changes nothing.
pub proof fn lemma_write_nothing(st: Rendering)
    ensures
        st.write(Seq::empty()) == st,
{
    assert(st.out + Seq::<char>::empty() =~= st.out);
}

/// The state after the events of an image's alternative text: from the event
/// at `st.pos` on, up to and with the end tag that closes the image, which is
/// the first end tag met at depth zero. Of tags inside only their text is
/// written, and no markup; `nest` is how many of them are open.
pub open spec fn raw_text(events: Seq<Event>, st: Rendering, nest: nat) -> Rendering
    decreases events.len() - st.pos,
{
    if 0 <= st.pos < events.len() {
        let next = st.advance();
        match events[st.pos] {
            Event::StartTag(_) => raw_text(events, next, nest + 1),
            Event::EndTag(_) => if nest == 0 {
                next
            } else {
                raw_text(events, next, (nest - 1) as nat)
            },
            Event::RawHtml(text) | Event::InlineCode(text) | Event::Text(text) => raw_text(
                events,
                next.write(html_escaped_text(text@)),
                nest,
            ),
            Event::SoftBreak | Event::HardBreak | Event::ThematicBreak => raw_text(
                events,
                next.write(" "@),
                nest,
            ),
            Event::FootnoteReference(name) => raw_text(
                events,
                next.write("["@).write_number(name@).write("]"@),
                nest,
            ),
            Event::TaskMarker(checked) => raw_text(
                events,
                next.write(
                    if checked {
                        "[x]"@
                    } else {
                        "[ ]"@
                    },
                ),
                nest,
            ),
        }
    } else {
        st
    }
}

/// Whether `after` is `before` with more written that holds none of `"`, `<`
/// and `>`.
pub open spec fn grown_markup_free(before: Seq<char>, after: Seq<char>) -> bool {
    exists|more: Seq<char>| after == before + more && #[trigger] markup_free(more)
}

/// What is written after something written without markup is written after
/// what came before both.
proof fn lemma_grown_further(before: Seq<char>, piece: Seq<char>, after: Seq<char>)
    requires
        markup_free(piece),
        grown_markup_free(before + piece, after),
    ensures
        grown_markup_free(before, after),
{
    let more = choose|more: Seq<char>| after == before + piece + more && #[trigger] markup_free(more);
    lemma_markup_free_concat(piece, more);
    assert(after =~= before + (piece + more));
}

/// An alternative text holds no markup: whatever the events are, what is
/// written for them holds none of `"`, `<` and `>`, so that it cannot end the
/// attribute that it is written into.
pub proof fn lemma_raw_text_markup_free(events: Seq<Event>, st: Rendering, nest: nat)
    ensures
        grown_markup_free(st.out, raw_text(events, st, nest).out),
    decreases events.len() - st.pos,
{
    let empty = Seq::<char>::empty();
    if 0 <= st.pos < events.len() {
        let next = st.advance();
        match events[st.pos] {
            Event::StartTag(_) => lemma_raw_text_markup_free(events, next, nest + 1),
            Event::EndTag(_) => if nest == 0 {
                assert(next.out =~= st.out + empty);
                assert(markup_free(empty));
            } else {
                lemma_raw_text_markup_free(events, next, (nest - 1) as nat)
            },
            Event::RawHtml(text) | Event::InlineCode(text) | Event::Text(text) => {
                let piece = html_escaped_text(text@);
                lemma_html_escaped_text_markup_free(text@);
                lemma_raw_text_markup_free(events, next.write(piece), nest);
                lemma_grown_further(st.out, piece, raw_text(events, st, nest).out);
            },
            Event::SoftBreak | Event::HardBreak | Event::ThematicBreak => {
                reveal_strlit(" ");
                lemma_raw_text_markup_free(events, next.write(" "@), nest);
                lemma_grown_further(st.out, " "@, raw_text(events, st, nest).out);
            },
            Event::FootnoteReference(name) => {
                reveal_strlit("[");
                reveal_strlit("]");
                let number = decimal(footnote_number(st.names, name@));
                lemma_decimal_digits(footnote_number(st.names, name@));
                let piece = "["@ + number + "]"@;
                assert(markup_free(number));
                lemma_markup_free_concat("["@, number);
                lemma_markup_free_concat("["@ + number, "]"@);
                let written = next.write("["@).write_number(name@).write("]"@);
                assert(written.out =~= st.out + piece);
                lemma_raw_text_markup_free(events, written, nest);
                lemma_grown_further(st.out, piece, raw_text(events, st, nest).out);
            },
            Event::TaskMarker(checked) => {
                reveal_strlit("[x]");
                reveal_strlit("[ ]");
                let piece = if checked {
                    "[x]"@
                } else {
                    "[ ]"@
                };
                lemma_raw_text_markup_free(events, next.write(piece), nest);
                lemma_grown_further(st.out, piece, raw_text(events, st, nest).out);
            },
        }
    } else {
        assert(st.out =~= st.out + empty);
        assert(markup_free(empty));
    }
}

/// The state after a tag is opened, `st` being the state in which its start
/// event has been taken.
pub open spec fn start_tag(events: Seq<Event>, st: Rendering, tag: Tag) -> Rendering {
    match tag {
        Tag::Paragraph => st.fresh_line().write("<p>"@),
        Tag::Heading(level, id, classes) => st.fresh_line().write("<"@).write(
            heading_name(level),
        ).write(id_attribute(id)).write(class_attribute(classes@)).write(">"@),
        Tag::Table(alignments) => Rendering { alignments: alignments@, ..st }.write("<table>"@),
        Tag::TableHead => Rendering { table_state: TableState::Head, cell_index: 0, ..st }.write(
            "<thead><tr>"@,
        ),
        Tag::TableRow => Rendering { cell_index: 0, ..st }.write("<tr>"@),
        Tag::TableCell => st.write("<"@).write(cell_name(st.table_state)).write(
            style_attribute(st.alignments, st.cell_index),
        ).write(">"@),
        Tag::BlockQuote => st.fresh_line().write("<blockquote>\n"@),
        Tag::CodeBlock(kind) => st.fresh_line().write("<pre><code"@).write(
            language_attribute(kind),
        ).write(">"@),
        Tag::List(Some(start)) => st.fresh_line().write("<ol"@).write(start_attribute(start)).write(
            ">\n"@,
        ),
        Tag::List(None) => st.fresh_line().write("<ul>\n"@),
        Tag::ListItem => st.fresh_line().write("<li>"@),
        Tag::Emphasis => st.write("<em>"@),
        Tag::Strong => st.write("<strong>"@),
        Tag::Strikethrough => st.write("<del>"@),
        Tag::Link(link_type, dest, title) => st.write("<a href=\""@).write(
            link_scheme(link_type),
        ).write(href_escaped_text(dest@)).write(title_attribute(title@)).write("\">"@),
        Tag::Image(_, dest, title) => raw_text(
            events,
            st.write("<img src=\""@).write(href_escaped_text(dest@)).write("\" alt=\""@),
            0,
        ).write(title_attribute(title@)).write("\" />"@),
        Tag::FootnoteDefinition(name) => st.fresh_line().write(
            "<div class=\"footnote-definition\" id=\""@,
        ).write(html_escaped_text(name@)).write(
            "\"><sup class=\"footnote-definition-label\">"@,
        ).write_number(name@).write("</sup>"@),
    }
}

/// The state after a tag is closed.
pub open spec fn end_tag(st: Rendering, tag: Tag) -> Rendering {
    match tag {
        Tag::Paragraph => st.write("</p>\n"@),
        Tag::Heading(level, _, _) => st.write("</"@).write(heading_name(level)).write(">\n"@),
        Tag::Table(_) => st.write("</tbody></table>\n"@),
        Tag::TableHead => Rendering { table_state: TableState::Body, ..st }.write(
            "</tr></thead><tbody>\n"@,
        ),
        Tag::TableRow => st.write("</tr>\n"@),
        Tag::TableCell => Rendering { cell_index: st.cell_index + 1, ..st }.write("</"@).write(
            cell_name(st.table_state),
        ).write(">"@),
        Tag::BlockQuote => st.write("</blockquote>\n"@),
        Tag::CodeBlock(_) => st.write("</code></pre>\n"@),
        Tag::List(Some(_)) => st.write("</ol>\n"@),
        Tag::List(None) => st.write("</ul>\n"@),
        Tag::ListItem => st.write("</li>\n"@),
        Tag::Emphasis => st.write("</em>"@),
        Tag::Strong => st.write("</strong>"@),
        Tag::Strikethrough => st.write("</del>"@),
        Tag::Link(_, _, _) => st.write("</a>"@),
        Tag::Image(_, _, _) => st,
        Tag::FootnoteDefinition(_) => st.write("</div>\n"@),
    }
}

/// The state after the event at `st.pos`.
pub open spec fn step(events: Seq<Event>, st: Rendering) -> Rendering
    recommends
        0 <= st.pos < events.len(),
{
    let next = st.advance();
    match events[st.pos] {
        Event::StartTag(tag) => start_tag(events, next, tag),
        Event::EndTag(tag) => end_tag(next, tag),
        Event::Text(text) => next.write(html_escaped_text(text@)),
        Event::InlineCode(text) => next.write("<code>"@).write(html_escaped_text(text@)).write(
            "</code>"@,
        ),
        Event::RawHtml(html) => next.write(html@),
        Event::SoftBreak => next.write(seq!['\n']),
        Event::HardBreak => next.write("<br />\n"@),
        Event::ThematicBreak => next.fresh_line().write("<hr />\n"@),
        Event::FootnoteReference(name) => next.write(
            "<sup class=\"footnote-reference\"><a href=\"#"@,
        ).write(html_escaped_text(name@)).write("\">"@).write_number(name@).write("</a></sup>"@),
        Event::TaskMarker(checked) => next.write(task_marker(checked)),
    }
}

/// Taking the events of an alternative text moves forward, and stops at the
/// end of the events at the latest.
pub proof fn lemma_raw_text_pos(events: Seq<Event>, st: Rendering, nest: nat)
    requires
        0 <= st.pos <= events.len(),
    ensures
        st.pos <= raw_text(events, st, nest).pos <= events.len(),
    decreases events.len() - st.pos,
{
    if st.pos < events.len() {
        let next = st.advance();
        match events[st.pos] {
            Event::StartTag(_) => lemma_raw_text_pos(events, next, nest + 1),
            Event::EndTag(_) => if nest != 0 {
                lemma_raw_text_pos(events, next, (nest - 1) as nat)
            },
            Event::RawHtml(text) | Event::InlineCode(text) | Event::Text(text) => {
                lemma_raw_text_pos(events, next.write(html_escaped_text(text@)), nest)
            },
            Event::SoftBreak | Event::HardBreak | Event::ThematicBreak => lemma_raw_text_pos(
                events,
                next.write(" "@),
                nest,
            ),
            Event::FootnoteReference(name) => lemma_raw_text_pos(
                events,
                next.write("["@).write_number(name@).write("]"@),
                nest,
            ),
            Event::TaskMarker(checked) => lemma_raw_text_pos(
                events,
                next.write(
                    if checked {
                        "[x]"@
                    } else {
                        "[ ]"@
                    },
                ),
                nest,
            ),
        }
    }
}

/// Each event moves forward by one event, or, where it opens an image, by all
/// the events of the image.
pub proof fn lemma_step_pos(events: Seq<Event>, st: Rendering)
    requires
        0 <= st.pos < events.len(),
    ensures
        st.pos < step(events, st).pos <= events.len(),
{
    let next = st.advance();
    match events[st.pos] {
        Event::StartTag(Tag::Image(_, dest, title)) => {
            lemma_raw_text_pos(
                events,
                next.write("<img src=\""@).write(href_escaped_text(dest@)).write("\" alt=\""@),
                0,
            );
        },
        _ => {},
    }
}

/// The events of an alternative text bring at most one new footnote name
/// each, and close no cell.
pub proof fn lemma_raw_text_counts(events: Seq<Event>, st: Rendering, nest: nat)
    requires
        0 <= st.pos <= events.len(),
    ensures
        raw_text(events, st, nest).names.len() - st.names.len() <= raw_text(events, st, nest).pos
            - st.pos,
        raw_text(events, st, nest).cell_index == st.cell_index,
    decreases events.len() - st.pos,
{
    if st.pos < events.len() {
        let next = st.advance();
        match events[st.pos] {
            Event::StartTag(_) => lemma_raw_text_counts(events, next, nest + 1),
            Event::EndTag(_) => if nest != 0 {
                lemma_raw_text_counts(events, next, (nest - 1) as nat)
            },
            Event::RawHtml(text) | Event::InlineCode(text) | Event::Text(text) => {
                lemma_raw_text_counts(events, next.write(html_escaped_text(text@)), nest)
            },
            Event::SoftBreak | Event::HardBreak | Event::ThematicBreak => lemma_raw_text_counts(
                events,
                next.write(" "@),
                nest,
            ),
            Event::FootnoteReference(name) => lemma_raw_text_counts(
                events,
                next.write("["@).write_number(name@).write("]"@),
                nest,
            ),
            Event::TaskMarker(checked) => lemma_raw_text_counts(
                events,
                next.write(
                    if checked {
                        "[x]"@
                    } else {
                        "[ ]"@
                    },
                ),
                nest,
            ),
        }
    }
}

/// An event brings at most as many new footnote names as it takes events, and
/// closes at most one cell.
pub proof fn lemma_step_counts(events: Seq<Event>, st: Rendering)
    requires
        0 <= st.pos < events.len(),
    ensures
        step(events, st).names.len() - st.names.len() <= step(events, st).pos - st.pos,
        step(events, st).cell_index <= st.cell_index + 1,
{
    let next = st.advance();
    match events[st.pos] {
        Event::StartTag(Tag::Image(_, dest, title)) => {
            lemma_raw_text_counts(
                events,
                next.write("<img src=\""@).write(href_escaped_text(dest@)).write("\" alt=\""@),
                0,
            );
        },
        _ => {},
    }
}

/// The state after all events from the one at `st.pos` on.
pub open spec fn run(events: Seq<Event>, st: Rendering) -> Rendering
    decreases events.len() - st.pos,
    via run_decreases
{
    if 0 <= st.pos < events.len() {
        run(events, step(events, st))
    } else {
        st
    }
}

#[via_fn]
proof fn run_decreases(events: Seq<Event>, st: Rendering) {
    if 0 <= st.pos < events.len() {
        lemma_step_pos(events, st);
    }
}

/// The markup that a sequence of events renders to.
pub open spec fn rendered(events: Seq<Event>) -> Seq<char> {
    run(events, Rendering::initial()).out
}

} // verus!
