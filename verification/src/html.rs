//! The renderer: it takes the events of a document one by one and writes
//! their markup.
use crate::decimal::{decimal, lemma_decimal_digits, push_decimal};
use crate::event::{Alignment, CodeBlockKind, Event, HeadingLevel, LinkType, Tag};
use crate::footnotes::{footnote_number, with_footnote, FootnoteNumbers};
use crate::markup::{
    at_line_start, cell_name, class_attribute, code_language, end_tag, heading_name,
    id_attribute, is_white_space, joined_classes, language_attribute, lemma_step_counts,
    lemma_step_pos, lemma_write_nothing, link_scheme, raw_text, rendered, run, start_attribute,
    start_tag, step, style_attribute, title_attribute, Rendering, TableState,
};
use crate::text::{
    ends_with_newline, escape_href, escape_html, href_escaped_text, html_escaped_text,
    lemma_href_escaped_text_end, lemma_html_escaped_text_end,
};
use vstd::prelude::*;
use vstd::string::*;

verus! {

/// A rendering at work: the events, how far they have been taken, and what
/// has been written for them.
pub struct HtmlWriter<'a> {
    /// The events to render.
    events: &'a [Event],
    /// How many of them have been taken.
    pos: usize,
    /// What has been written.
    writer: String,
    /// Whether nothing has been written yet or the last write ended with a
    /// line feed.
    end_newline: bool,
    table_state: TableState,
    table_alignments: Vec<Alignment>,
    table_cell_index: usize,
    numbers: FootnoteNumbers,
}

impl<'a> View for HtmlWriter<'a> {
    type V = Rendering;

    closed spec fn view(&self) -> Rendering {
        Rendering {
            out: self.writer@,
            table_state: self.table_state,
            alignments: self.table_alignments@,
            cell_index: self.table_cell_index as nat,
            names: self.numbers@,
            pos: self.pos as int,
        }
    }
}

/// The name of the element of a heading.
fn heading_tag(level: HeadingLevel) -> (r: &'static str)
    ensures
        r@ == heading_name(level),
{
    match level {
        HeadingLevel::H1 => "h1",
        HeadingLevel::H2 => "h2",
        HeadingLevel::H3 => "h3",
        HeadingLevel::H4 => "h4",
        HeadingLevel::H5 => "h5",
        HeadingLevel::H6 => "h6",
    }
}

/// Whether `c` is white space.
fn white_space(c: char) -> (r: bool)
    ensures
        r == is_white_space(c),
{
    let v = c as u32;
    (0x09 <= v && v <= 0x0d) || v == 0x20 || v == 0x85 || v == 0xa0 || v == 0x1680 || (0x2000 <= v
        && v <= 0x200a) || v == 0x2028 || v == 0x2029 || v == 0x202f || v == 0x205f || v == 0x3000
}

/// The language of an info string is its part up to the first white space.
proof fn lemma_code_language(info: Seq<char>, end: int)
    requires
        0 <= end <= info.len(),
        forall|j: int| 0 <= j < end ==> !is_white_space(#[trigger] info[j]),
        end == info.len() || is_white_space(info[end]),
    ensures
        code_language(info) == info.subrange(0, end),
    decreases info.len(),
{
    if end == 0 {
        assert(info.subrange(0, 0) =~= Seq::<char>::empty());
    } else {
        let rest = info.drop_first();
        assert forall|j: int| 0 <= j < end - 1 implies !is_white_space(#[trigger] rest[j]) by {
            assert(rest[j] == info[j + 1]);
        }
        lemma_code_language(rest, end - 1);
        assert(info.subrange(0, end) =~= seq![info[0]] + rest.subrange(0, end - 1));
    }
}

/// The language that the info string of a fenced code block names.
fn language_of(info: &str) -> (lang: &str)
    ensures
        lang@ == code_language(info@),
{
    let len = info.unicode_len();
    let mut end: usize = 0;
    while end < len && !white_space(info.get_char(end))
        invariant
            len == info@.len(),
            0 <= end <= len,
            forall|j: int| 0 <= j < end ==> !is_white_space(#[trigger] info@[j]),
        decreases len - end,
    {
        end += 1;
    }
    proof {
        lemma_code_language(info@, end as int);
    }
    info.substring_char(0, end)
}

/// A copy of the alignments of a table.
fn copy_alignments(alignments: &Vec<Alignment>) -> (r: Vec<Alignment>)
    ensures
        r@ == alignments@,
{
    let mut r: Vec<Alignment> = Vec::new();
    let mut i: usize = 0;
    while i < alignments.len()
        invariant
            0 <= i <= alignments@.len(),
            r@ == alignments@.subrange(0, i as int),
        decreases alignments@.len() - i,
    {
        r.push(alignments[i]);
        assert(r@ =~= alignments@.subrange(0, i + 1));
        i += 1;
    }
    assert(r@ =~= alignments@);
    r
}

impl<'a> HtmlWriter<'a> {
    /// The events that are rendered.
    pub closed spec fn events(&self) -> Seq<Event> {
        self.events@
    }

    /// Whether the writer knows where it is: whether a line has just started,
    /// which footnote names have a number, and that it has taken no more
    /// events than there are.
    pub closed spec fn wf(&self) -> bool {
        &&& self.end_newline == at_line_start(self.writer@)
        &&& self.numbers.wf()
        &&& self.pos <= self.events@.len()
    }

    /// Whether the footnotes can still be counted if each event that is left
    /// brings a new one.
    pub open spec fn can_count_footnotes(&self) -> bool {
        self@.names.len() + (self.events().len() - self@.pos) <= usize::MAX
    }

    /// Whether the cells can still be counted if each event that is left
    /// closes one.
    pub open spec fn can_count_cells(&self) -> bool {
        self@.cell_index + (self.events().len() - self@.pos) <= usize::MAX
    }

    /// A writer that has taken none of `events` and written nothing.
    pub fn new(events: &'a [Event]) -> (r: Self)
        ensures
            r.wf(),
            r.events() == events@,
            r@ == Rendering::initial(),
            r.can_count_footnotes(),
            r.can_count_cells(),
    {
        let _ = events.len();
        HtmlWriter {
            events,
            pos: 0,
            writer: String::new(),
            end_newline: true,
            table_state: TableState::Head,
            table_alignments: Vec::new(),
            table_cell_index: 0,
            numbers: FootnoteNumbers::new(),
        }
    }

    /// Whether nothing has been written yet or what has been written ends
    /// with a line feed.
    pub fn end_newline(&self) -> (r: bool)
        requires
            self.wf(),
        ensures
            r == at_line_start(self@.out),
    {
        self.end_newline
    }

    /// Writes a line feed.
    pub fn write_newline(&mut self)
        requires
            old(self).wf(),
        ensures
            final(self).wf(),
            final(self).events() == old(self).events(),
            final(self)@ == old(self)@.write(seq!['\n']),
    {
        proof {
            reveal_strlit("\n");
        }
        self.end_newline = true;
        self.writer.append("\n");
        assert(self.writer@ =~= old(self).writer@ + seq!['\n']);
    }

    /// Writes `s`, and notes whether it ended with a line feed.
    pub fn write(&mut self, s: &str)
        requires
            old(self).wf(),
        ensures
            final(self).wf(),
            final(self).events() == old(self).events(),
            final(self)@ == old(self)@.write(s@),
    {
        self.writer.append(s);
        if !s.is_empty() {
            self.end_newline = ends_with_newline(s);
        } else {
            assert(self.writer@ =~= old(self).writer@);
        }
    }

    /// Writes a line feed unless a line has just started.
    fn fresh_line(&mut self)
        requires
            old(self).wf(),
        ensures
            final(self).wf(),
            final(self).events() == old(self).events(),
            final(self)@ == old(self)@.fresh_line(),
    {
        if !self.end_newline {
            self.write_newline();
        }
    }

    /// Writes `s` with the reserved characters of HTML escaped.
    fn write_escaped(&mut self, s: &str)
        requires
            old(self).wf(),
        ensures
            final(self).wf(),
            final(self).events() == old(self).events(),
            final(self)@ == old(self)@.write(html_escaped_text(s@)),
    {
        escape_html(&mut self.writer, s);
        proof {
            lemma_html_escaped_text_end(s@);
        }
        if !s.is_empty() {
            self.end_newline = ends_with_newline(s);
        } else {
            assert(self.writer@ =~= old(self).writer@);
        }
    }

    /// Writes `s` as the value of an `href`.
    fn write_href(&mut self, s: &str)
        requires
            old(self).wf(),
        ensures
            final(self).wf(),
            final(self).events() == old(self).events(),
            final(self)@ == old(self)@.write(href_escaped_text(s@)),
    {
        escape_href(&mut self.writer, s);
        proof {
            lemma_href_escaped_text_end(s@);
        }
        if !s.is_empty() {
            self.end_newline = false;
        } else {
            assert(self.writer@ =~= old(self).writer@);
        }
    }

    /// Writes `n` in decimal notation.
    fn write_decimal(&mut self, n: u64)
        requires
            old(self).wf(),
        ensures
            final(self).wf(),
            final(self).events() == old(self).events(),
            final(self)@ == old(self)@.write(decimal(n as nat)),
    {
        push_decimal(&mut self.writer, n);
        proof {
            lemma_decimal_digits(n as nat);
            let digits = decimal(n as nat);
            assert('0' <= digits[digits.len() - 1] <= '9');
        }
        self.end_newline = false;
    }

    /// Writes the number of the footnote `name`, which from now on counts as
    /// seen.
    fn write_footnote_number(&mut self, name: &String)
        requires
            old(self).wf(),
            old(self)@.names.len() < usize::MAX,
        ensures
            final(self).wf(),
            final(self).events() == old(self).events(),
            final(self)@ == old(self)@.write_number(name@),
    {
        let number = self.numbers.number(name);
        self.write_decimal(number as u64);
    }

    /// Writes the `title` attribute of a link or an image, if the title is not
    /// empty.
    fn write_title(&mut self, title: &str)
        requires
            old(self).wf(),
        ensures
            final(self).wf(),
            final(self).events() == old(self).events(),
            final(self)@ == old(self)@.write(title_attribute(title@)),
    {
        if !title.is_empty() {
            self.write("\" title=\"");
            self.write_escaped(title);
        }
        assert(self@.out =~= old(self)@.out + title_attribute(title@));
    }

    /// Writes the `id` attribute of a heading, if it has an identifier.
    fn write_id(&mut self, id: &Option<String>)
        requires
            old(self).wf(),
        ensures
            final(self).wf(),
            final(self).events() == old(self).events(),
            final(self)@ == old(self)@.write(id_attribute(*id)),
    {
        match id {
            Some(id) => {
                self.write(" id=\"");
                self.write_escaped(id.as_str());
                self.write("\"");
            },
            None => {},
        }
        assert(self@.out =~= old(self)@.out + id_attribute(*id));
    }

    /// Writes the `class` attribute of a heading, if it has classes.
    fn write_classes(&mut self, classes: &Vec<String>)
        requires
            old(self).wf(),
        ensures
            final(self).wf(),
            final(self).events() == old(self).events(),
            final(self)@ == old(self)@.write(class_attribute(classes@)),
    {
        if classes.len() > 0 {
            self.write(" class=\"");
            self.write_escaped(classes[0].as_str());
            proof {
                let first = classes@.subrange(0, 1);
                assert(first.len() == 1);
                assert(first[0] == classes@[0]);
                assert(self@.out =~= old(self)@.out + (" class=\""@ + joined_classes(first)));
            }
            let mut i: usize = 1;
            while i < classes.len()
                invariant
                    1 <= i <= classes@.len(),
                    self.wf(),
                    self.events() == old(self).events(),
                    self@ == old(self)@.write(
                        " class=\""@ + joined_classes(classes@.subrange(0, i as int)),
                    ),
                decreases classes@.len() - i,
            {
                self.write(" ");
                self.write_escaped(classes[i].as_str());
                proof {
                    let upto = classes@.subrange(0, i + 1);
                    assert(upto.drop_last() =~= classes@.subrange(0, i as int));
                    assert(upto.last() == classes@[i as int]);
                    assert(self@.out =~= old(self)@.out + (" class=\""@ + joined_classes(upto)));
                }
                i += 1;
            }
            assert(classes@.subrange(0, i as int) =~= classes@);
            self.write("\"");
        }
        assert(self@.out =~= old(self)@.out + class_attribute(classes@));
    }

    /// Writes the `style` attribute of the cell that is opened.
    fn write_style(&mut self)
        requires
            old(self).wf(),
        ensures
            final(self).wf(),
            final(self).events() == old(self).events(),
            final(self)@ == old(self)@.write(
                style_attribute(old(self)@.alignments, old(self)@.cell_index),
            ),
    {
        proof {
            lemma_write_nothing(self@);
        }
        if self.table_cell_index < self.table_alignments.len() {
            match self.table_alignments[self.table_cell_index] {
                Alignment::Left => self.write(" style=\"text-align: left\""),
                Alignment::Center => self.write(" style=\"text-align: center\""),
                Alignment::Right => self.write(" style=\"text-align: right\""),
                Alignment::Unset => {},
            }
        }
    }

    /// Writes the `class` attribute of a code block, if its info string names
    /// a language.
    fn write_language(&mut self, kind: &CodeBlockKind)
        requires
            old(self).wf(),
        ensures
            final(self).wf(),
            final(self).events() == old(self).events(),
            final(self)@ == old(self)@.write(language_attribute(*kind)),
    {
        match kind {
            CodeBlockKind::Fenced(info) => {
                let lang = language_of(info.as_str());
                if !lang.is_empty() {
                    self.write(" class=\"language-");
                    self.write_escaped(lang);
                    self.write("\"");
                }
            },
            CodeBlockKind::Indented => {},
        }
        assert(self@.out =~= old(self)@.out + language_attribute(*kind));
    }

    /// Writes the `start` attribute of an ordered list, unless it starts at 1.
    fn write_start(&mut self, start: u64)
        requires
            old(self).wf(),
        ensures
            final(self).wf(),
            final(self).events() == old(self).events(),
            final(self)@ == old(self)@.write(start_attribute(start)),
    {
        if start != 1 {
            self.write(" start=\"");
            self.write_decimal(start);
            self.write("\"");
        }
        assert(self@.out =~= old(self)@.out + start_attribute(start));
    }

    /// Writes the name of the element of a table cell.
    fn write_cell_name(&mut self)
        requires
            old(self).wf(),
        ensures
            final(self).wf(),
            final(self).events() == old(self).events(),
            final(self)@ == old(self)@.write(cell_name(old(self)@.table_state)),
    {
        match self.table_state {
            TableState::Head => self.write("th"),
            TableState::Body => self.write("td"),
        }
    }

    /// Writes the start of a tag. For an image that is the whole element: the
    /// events up to its end are taken for the alternative text.
    pub fn start_tag(&mut self, tag: &Tag)
        requires
            old(self).wf(),
            old(self).can_count_footnotes(),
            old(self)@.names.len() < usize::MAX,
        ensures
            final(self).wf(),
            final(self).events() == old(self).events(),
            final(self)@ == start_tag(old(self).events(), old(self)@, *tag),
    {
        match tag {
            Tag::Paragraph => {
                self.fresh_line();
                self.write("<p>");
            },
            Tag::Heading(level, id, classes) => {
                self.fresh_line();
                self.write("<");
                self.write(heading_tag(*level));
                self.write_id(id);
                self.write_classes(classes);
                self.write(">");
            },
            Tag::Table(alignments) => {
                self.table_alignments = copy_alignments(alignments);
                self.write("<table>");
            },
            Tag::TableHead => {
                self.table_state = TableState::Head;
                self.table_cell_index = 0;
                self.write("<thead><tr>");
            },
            Tag::TableRow => {
                self.table_cell_index = 0;
                self.write("<tr>");
            },
            Tag::TableCell => {
                self.write("<");
                self.write_cell_name();
                self.write_style();
                self.write(">");
            },
            Tag::BlockQuote => {
                self.fresh_line();
                self.write("<blockquote>\n");
            },
            Tag::CodeBlock(kind) => {
                self.fresh_line();
                self.write("<pre><code");
                self.write_language(kind);
                self.write(">");
            },
            Tag::List(Some(start)) => {
                self.fresh_line();
                self.write("<ol");
                self.write_start(*start);
                self.write(">\n");
            },
            Tag::List(None) => {
                self.fresh_line();
                self.write("<ul>\n");
            },
            Tag::ListItem => {
                self.fresh_line();
                self.write("<li>");
            },
            Tag::Emphasis => self.write("<em>"),
            Tag::Strong => self.write("<strong>"),
            Tag::Strikethrough => self.write("<del>"),
            Tag::Link(link_type, dest, title) => {
                self.write("<a href=\"");
                proof {
                    lemma_write_nothing(self@);
                }
                match link_type {
                    LinkType::Email => self.write("mailto:"),
                    _ => {},
                }
                self.write_href(dest.as_str());
                self.write_title(title.as_str());
                self.write("\">");
            },
            Tag::Image(_link_type, dest, title) => {
                self.write("<img src=\"");
                self.write_href(dest.as_str());
                self.write("\" alt=\"");
                self.raw_text();
                self.write_title(title.as_str());
                self.write("\" />");
            },
            Tag::FootnoteDefinition(name) => {
                self.fresh_line();
                self.write("<div class=\"footnote-definition\" id=\"");
                self.write_escaped(name.as_str());
                self.write("\"><sup class=\"footnote-definition-label\">");
                self.write_footnote_number(name);
                self.write("</sup>");
            },
        }
    }

    /// Writes the end of a tag.
    pub fn end_tag(&mut self, tag: &Tag)
        requires
            old(self).wf(),
            old(self)@.cell_index < usize::MAX,
        ensures
            final(self).wf(),
            final(self).events() == old(self).events(),
            final(self)@ == end_tag(old(self)@, *tag),
    {
        match tag {
            Tag::Paragraph => {
                self.write("</p>\n");
            },
            Tag::Heading(level, _id, _classes) => {
                self.write("</");
                self.write(heading_tag(*level));
                self.write(">\n");
            },
            Tag::Table(_) => {
                self.write("</tbody></table>\n");
            },
            Tag::TableHead => {
                self.table_state = TableState::Body;
                self.write("</tr></thead><tbody>\n");
            },
            Tag::TableRow => {
                self.write("</tr>\n");
            },
            Tag::TableCell => {
                self.write("</");
                self.write_cell_name();
                self.write(">");
                self.table_cell_index += 1;
            },
            Tag::BlockQuote => {
                self.write("</blockquote>\n");
            },
            Tag::CodeBlock(_) => {
                self.write("</code></pre>\n");
            },
            Tag::List(Some(_)) => {
                self.write("</ol>\n");
            },
            Tag::List(None) => {
                self.write("</ul>\n");
            },
            Tag::ListItem => {
                self.write("</li>\n");
            },
            Tag::Emphasis => {
                self.write("</em>");
            },
            Tag::Strong => {
                self.write("</strong>");
            },
            Tag::Strikethrough => {
                self.write("</del>");
            },
            Tag::Link(_, _, _) => {
                self.write("</a>");
            },
            Tag::Image(_, _, _) => (),
            Tag::FootnoteDefinition(_) => {
                self.write("</div>\n");
            },
        }
    }

    /// Writes the text of the events up to the end tag that closes what was
    /// open when it was called, and takes that end tag, too.
    pub fn raw_text(&mut self)
        requires
            old(self).wf(),
            old(self).can_count_footnotes(),
        ensures
            final(self).wf(),
            final(self).events() == old(self).events(),
            final(self)@ == raw_text(old(self).events(), old(self)@, 0),
    {
        let events = self.events;
        let mut nest: usize = 0;
        let mut open = true;
        while open && self.pos < events.len()
            invariant
                self.wf(),
                events@ == self.events(),
                self.events() == old(self).events(),
                nest <= self.pos,
                self@.names.len() + (events@.len() - self.pos) <= usize::MAX,
                open ==> raw_text(events@, self@, nest as nat) == raw_text(events@, old(self)@, 0),
                !open ==> self@ == raw_text(events@, old(self)@, 0),
            decreases
                    events@.len() - self.pos + if open {
                        1int
                    } else {
                        0int
                    },
        {
            let event = &events[self.pos];
            self.pos += 1;
            match event {
                Event::StartTag(_) => {
                    nest += 1;
                },
                Event::EndTag(_) => {
                    if nest == 0 {
                        open = false;
                    } else {
                        nest -= 1;
                    }
                },
                Event::RawHtml(text) | Event::InlineCode(text) | Event::Text(text) => {
                    self.write_escaped(text.as_str());
                },
                Event::SoftBreak | Event::HardBreak | Event::ThematicBreak => {
                    self.write(" ");
                },
                Event::FootnoteReference(name) => {
                    self.write("[");
                    self.write_footnote_number(name);
                    self.write("]");
                },
                Event::TaskMarker(true) => self.write("[x]"),
                Event::TaskMarker(false) => self.write("[ ]"),
            }
        }
    }

    /// Renders the events that are left, and gives what has been written.
    pub fn run(self) -> (out: String)
        requires
            self.wf(),
            self.can_count_footnotes(),
            self.can_count_cells(),
        ensures
            out@ == run(self.events(), self@).out,
    {
        let mut this = self;
        let events = this.events;
        let ghost start = this@;
        while this.pos < events.len()
            invariant
                this.wf(),
                events@ == this.events(),
                this.can_count_footnotes(),
                this.can_count_cells(),
                run(events@, this@) == run(events@, start),
            decreases events@.len() - this.pos,
        {
            let ghost before = this@;
            let event = &events[this.pos];
            this.pos += 1;
            match event {
                Event::StartTag(tag) => {
                    this.start_tag(tag);
                },
                Event::EndTag(tag) => {
                    this.end_tag(tag);
                },
                Event::Text(text) => {
                    this.write_escaped(text.as_str());
                },
                Event::InlineCode(text) => {
                    this.write("<code>");
                    this.write_escaped(text.as_str());
                    this.write("</code>");
                },
                Event::RawHtml(html) => {
                    this.write(html.as_str());
                },
                Event::SoftBreak => {
                    this.write_newline();
                },
                Event::HardBreak => {
                    this.write("<br />\n");
                },
                Event::ThematicBreak => {
                    this.fresh_line();
                    this.write("<hr />\n");
                },
                Event::FootnoteReference(name) => {
                    this.write("<sup class=\"footnote-reference\"><a href=\"#");
                    this.write_escaped(name.as_str());
                    this.write("\">");
                    this.write_footnote_number(name);
                    this.write("</a></sup>");
                },
                Event::TaskMarker(true) => {
                    this.write("<input disabled=\"\" type=\"checkbox\" checked=\"\"/>\n");
                },
                Event::TaskMarker(false) => {
                    this.write("<input disabled=\"\" type=\"checkbox\"/>\n");
                },
            }
            proof {
                assert(this@ == step(events@, before));
                lemma_step_pos(events@, before);
                lemma_step_counts(events@, before);
            }
        }
        this.writer
    }
}

/// Renders `events` and appends the markup to `s`.
pub fn push_html(s: &mut String, events: &[Event])
    ensures
        final(s)@ == old(s)@ + rendered(events@),
{
    let out = HtmlWriter::new(events).run();
    s.append(out.as_str());
}

} // verus!
