use markhtml::{
    push_html, Alignment, CodeBlockKind, Event, HeadingLevel, HtmlWriter, LinkType, Tag,
};

fn render(events: &[Event]) -> String {
    let mut out = String::new();
    push_html(&mut out, events);
    out
}

fn text(s: &str) -> Event {
    Event::Text(s.to_string())
}

fn wrapped(tag: Tag, inner: Vec<Event>) -> Vec<Event> {
    let mut events = vec![Event::StartTag(tag.clone())];
    events.extend(inner);
    events.push(Event::EndTag(tag));
    events
}

#[test]
fn heading_and_paragraph() {
    let mut events = wrapped(Tag::Heading(HeadingLevel::H1, None, vec![]), vec![text("Title")]);
    events.extend(wrapped(
        Tag::Paragraph,
        vec![
            text("Some "),
            Event::StartTag(Tag::Emphasis),
            text("text"),
            Event::EndTag(Tag::Emphasis),
            text("."),
        ],
    ));
    assert_eq!(render(&events), "<h1>Title</h1>\n<p>Some <em>text</em>.</p>\n");
}

#[test]
fn push_html_appends() {
    let mut out = String::from("<body>");
    push_html(&mut out, &wrapped(Tag::Paragraph, vec![text("a")]));
    assert_eq!(out, "<body><p>a</p>\n");
    push_html(&mut out, &[]);
    assert_eq!(out, "<body><p>a</p>\n");
}

#[test]
fn writer_run_gives_what_was_written() {
    let events = wrapped(Tag::Strong, vec![text("a<b")]);
    assert_eq!(HtmlWriter::new(&events).run(), "<strong>a&lt;b</strong>");
}

#[test]
fn blocks_are_separated_by_one_line_feed() {
    let mut events = vec![text("a")];
    events.extend(wrapped(Tag::Paragraph, vec![text("b")]));
    events.extend(wrapped(Tag::Paragraph, vec![text("c")]));
    assert_eq!(render(&events), "a\n<p>b</p>\n<p>c</p>\n");
}

#[test]
fn empty_text_keeps_the_line_start() {
    let mut events = wrapped(Tag::Paragraph, vec![text("a")]);
    events.push(text(""));
    events.extend(wrapped(Tag::Paragraph, vec![text("b")]));
    assert_eq!(render(&events), "<p>a</p>\n<p>b</p>\n");
}

#[test]
fn thematic_break() {
    assert_eq!(render(&[text("abc"), Event::ThematicBreak]), "abc\n<hr />\n");
    assert_eq!(render(&[text("abc\n"), Event::ThematicBreak]), "abc\n<hr />\n");
    assert_eq!(render(&[Event::ThematicBreak]), "<hr />\n");
    assert_eq!(render(&[Event::ThematicBreak, Event::ThematicBreak]), "<hr />\n<hr />\n");
}

#[test]
fn breaks() {
    assert_eq!(render(&[text("a"), Event::SoftBreak, text("b")]), "a\nb");
    assert_eq!(render(&[text("a"), Event::HardBreak, text("b")]), "a<br />\nb");
}

#[test]
fn text_code_and_raw_html() {
    assert_eq!(render(&[text("1 < 2 & \"x\"")]), "1 &lt; 2 &amp; &quot;x&quot;");
    assert_eq!(render(&[Event::InlineCode("a<b>".to_string())]), "<code>a&lt;b&gt;</code>");
    assert_eq!(render(&[Event::RawHtml("<b class=\"x\">&</b>".to_string())]), "<b class=\"x\">&</b>");
    assert_eq!(render(&[Event::RawHtml("<hr>\n".to_string()), Event::StartTag(Tag::Paragraph)]), "<hr>\n<p>");
}

#[test]
fn heading_attributes() {
    let tag = Tag::Heading(HeadingLevel::H2, Some("a\"b".to_string()), vec![]);
    assert_eq!(render(&wrapped(tag, vec![text("x")])), "<h2 id=\"a&quot;b\">x</h2>\n");
    let tag = Tag::Heading(HeadingLevel::H3, None, vec!["one".to_string()]);
    assert_eq!(render(&wrapped(tag, vec![text("x")])), "<h3 class=\"one\">x</h3>\n");
    let tag = Tag::Heading(
        HeadingLevel::H6,
        Some("top".to_string()),
        vec!["a".to_string(), "b<c".to_string(), "d".to_string()],
    );
    assert_eq!(render(&wrapped(tag, vec![])), "<h6 id=\"top\" class=\"a b&lt;c d\"></h6>\n");
    for (level, name) in [
        (HeadingLevel::H1, "h1"),
        (HeadingLevel::H2, "h2"),
        (HeadingLevel::H3, "h3"),
        (HeadingLevel::H4, "h4"),
        (HeadingLevel::H5, "h5"),
        (HeadingLevel::H6, "h6"),
    ] {
        let tag = Tag::Heading(level, None, vec![]);
        assert_eq!(render(&wrapped(tag, vec![])), format!("<{}></{}>\n", name, name));
    }
}

#[test]
fn block_quote() {
    let events = wrapped(Tag::BlockQuote, wrapped(Tag::Paragraph, vec![text("q")]));
    assert_eq!(render(&events), "<blockquote>\n<p>q</p>\n</blockquote>\n");
}

#[test]
fn code_blocks() {
    let body = vec![text("let x = 1 < 2;\n")];
    let tag = Tag::CodeBlock(CodeBlockKind::Indented);
    assert_eq!(render(&wrapped(tag, body.clone())), "<pre><code>let x = 1 &lt; 2;\n</code></pre>\n");
    let tag = Tag::CodeBlock(CodeBlockKind::Fenced("".to_string()));
    assert_eq!(render(&wrapped(tag, body.clone())), "<pre><code>let x = 1 &lt; 2;\n</code></pre>\n");
    let tag = Tag::CodeBlock(CodeBlockKind::Fenced("rust".to_string()));
    assert_eq!(
        render(&wrapped(tag, body.clone())),
        "<pre><code class=\"language-rust\">let x = 1 &lt; 2;\n</code></pre>\n"
    );
    let tag = Tag::CodeBlock(CodeBlockKind::Fenced("c++ linenos title=\"x\"".to_string()));
    assert_eq!(render(&wrapped(tag, vec![])), "<pre><code class=\"language-c++\"></code></pre>\n");
    let tag = Tag::CodeBlock(CodeBlockKind::Fenced("a<b\tc".to_string()));
    assert_eq!(render(&wrapped(tag, vec![])), "<pre><code class=\"language-a&lt;b\"></code></pre>\n");
    let tag = Tag::CodeBlock(CodeBlockKind::Fenced(" rust".to_string()));
    assert_eq!(render(&wrapped(tag, vec![])), "<pre><code></code></pre>\n");
    let tag = Tag::CodeBlock(CodeBlockKind::Fenced("\u{e9}t\u{e9}".to_string()));
    assert_eq!(render(&wrapped(tag, vec![])), "<pre><code class=\"language-\u{e9}t\u{e9}\"></code></pre>\n");
}

#[test]
fn ordered_list_start() {
    let item = wrapped(Tag::ListItem, vec![text("a")]);
    assert_eq!(render(&wrapped(Tag::List(Some(1)), item.clone())), "<ol>\n<li>a</li>\n</ol>\n");
    assert_eq!(
        render(&wrapped(Tag::List(Some(5)), item.clone())),
        "<ol start=\"5\">\n<li>a</li>\n</ol>\n"
    );
    assert_eq!(render(&wrapped(Tag::List(Some(0)), vec![])), "<ol start=\"0\">\n</ol>\n");
    assert_eq!(render(&wrapped(Tag::List(Some(10)), vec![])), "<ol start=\"10\">\n</ol>\n");
    assert_eq!(
        render(&wrapped(Tag::List(Some(u64::MAX)), vec![])),
        "<ol start=\"18446744073709551615\">\n</ol>\n"
    );
    assert_eq!(render(&[text("x"), Event::StartTag(Tag::List(Some(7)))]), "x\n<ol start=\"7\">\n");
}

#[test]
fn unordered_list() {
    let mut items = wrapped(Tag::ListItem, vec![text("alpha")]);
    items.extend(wrapped(Tag::ListItem, vec![text("beta")]));
    assert_eq!(
        render(&wrapped(Tag::List(None), items)),
        "<ul>\n<li>alpha</li>\n<li>beta</li>\n</ul>\n"
    );
}

#[test]
fn task_markers() {
    assert_eq!(
        render(&[Event::TaskMarker(true)]),
        "<input disabled=\"\" type=\"checkbox\" checked=\"\"/>\n"
    );
    assert_eq!(render(&[Event::TaskMarker(false)]), "<input disabled=\"\" type=\"checkbox\"/>\n");
}

#[test]
fn inline_tags() {
    assert_eq!(render(&wrapped(Tag::Emphasis, vec![text("a")])), "<em>a</em>");
    assert_eq!(render(&wrapped(Tag::Strong, vec![text("a")])), "<strong>a</strong>");
    assert_eq!(render(&wrapped(Tag::Strikethrough, vec![text("a")])), "<del>a</del>");
}

#[test]
fn links() {
    let tag = Tag::Link(LinkType::Normal, "/a b?c&d".to_string(), "".to_string());
    assert_eq!(render(&wrapped(tag, vec![text("x")])), "<a href=\"/a%20b?c&amp;d\">x</a>");
    let tag = Tag::Link(LinkType::Autolink, "http://e.org".to_string(), "T \"q\"".to_string());
    assert_eq!(
        render(&wrapped(tag, vec![text("x")])),
        "<a href=\"http://e.org\" title=\"T &quot;q&quot;\">x</a>"
    );
    let tag = Tag::Link(LinkType::Email, "a@b.org".to_string(), "".to_string());
    assert_eq!(render(&wrapped(tag, vec![text("a@b.org")])), "<a href=\"mailto:a@b.org\">a@b.org</a>");
    let tag = Tag::Link(LinkType::Email, "a@b.org".to_string(), "me".to_string());
    assert_eq!(render(&wrapped(tag, vec![])), "<a href=\"mailto:a@b.org\" title=\"me\"></a>");
}

#[test]
fn image_alt_text_is_flattened() {
    let tag = Tag::Image(LinkType::Normal, "i.png".to_string(), "".to_string());
    let alt = vec![
        text("a "),
        Event::StartTag(Tag::Emphasis),
        text("b"),
        Event::EndTag(Tag::Emphasis),
        text(" c"),
    ];
    assert_eq!(render(&wrapped(tag, alt)), "<img src=\"i.png\" alt=\"a b c\" />");
}

#[test]
fn image_with_title_and_what_follows() {
    let tag = Tag::Image(LinkType::Normal, "a b.png".to_string(), "T<1>".to_string());
    let mut events = wrapped(Tag::Paragraph, wrapped(tag, vec![text("x")]));
    events.extend(wrapped(Tag::Paragraph, vec![text("y")]));
    assert_eq!(
        render(&events),
        "<p><img src=\"a%20b.png\" alt=\"x\" title=\"T&lt;1&gt;\" /></p>\n<p>y</p>\n"
    );
}

#[test]
fn image_alt_text_of_every_event() {
    let tag = Tag::Image(LinkType::Normal, "i".to_string(), "".to_string());
    let inner = Tag::Link(LinkType::Normal, "u".to_string(), "t".to_string());
    let mut alt = vec![
        text("<t>"),
        Event::InlineCode("c&d".to_string()),
        Event::RawHtml("<b>".to_string()),
        Event::SoftBreak,
        Event::HardBreak,
        Event::ThematicBreak,
        Event::FootnoteReference("n".to_string()),
        Event::FootnoteReference("m".to_string()),
        Event::FootnoteReference("n".to_string()),
        Event::TaskMarker(true),
        Event::TaskMarker(false),
    ];
    alt.extend(wrapped(
        inner,
        wrapped(Tag::Image(LinkType::Normal, "j".to_string(), "".to_string()), vec![text("in")]),
    ));
    let mut events = wrapped(tag, alt);
    events.push(Event::FootnoteReference("m".to_string()));
    assert_eq!(
        render(&events),
        "<img src=\"i\" alt=\"&lt;t&gt;c&amp;d&lt;b&gt;   [1][2][1][x][ ]in\" />\
         <sup class=\"footnote-reference\"><a href=\"#m\">2</a></sup>"
    );
}

#[test]
fn image_without_its_end() {
    let tag = Tag::Image(LinkType::Normal, "i".to_string(), "t".to_string());
    let events =
        vec![Event::StartTag(tag.clone()), Event::StartTag(Tag::Emphasis), text("a")];
    assert_eq!(render(&events), "<img src=\"i\" alt=\"a\" title=\"t\" />");
    assert_eq!(render(&[Event::EndTag(tag)]), "");
}

#[test]
fn footnote_numbers_follow_first_appearance() {
    let reference = |name: &str| Event::FootnoteReference(name.to_string());
    let mut events = vec![reference("b"), reference("a"), reference("b")];
    events.extend(wrapped(Tag::FootnoteDefinition("a".to_string()), vec![text("A")]));
    events.extend(wrapped(Tag::FootnoteDefinition("c".to_string()), vec![text("C")]));
    events.push(reference("c"));
    assert_eq!(
        render(&events),
        "<sup class=\"footnote-reference\"><a href=\"#b\">1</a></sup>\
         <sup class=\"footnote-reference\"><a href=\"#a\">2</a></sup>\
         <sup class=\"footnote-reference\"><a href=\"#b\">1</a></sup>\n\
         <div class=\"footnote-definition\" id=\"a\"><sup class=\"footnote-definition-label\">2</sup>A</div>\n\
         <div class=\"footnote-definition\" id=\"c\"><sup class=\"footnote-definition-label\">3</sup>C</div>\n\
         <sup class=\"footnote-reference\"><a href=\"#c\">3</a></sup>"
    );
}

#[test]
fn footnote_definition_before_reference() {
    let mut events = wrapped(Tag::FootnoteDefinition("x<y".to_string()), vec![]);
    events.push(Event::FootnoteReference("z".to_string()));
    events.push(Event::FootnoteReference("x<y".to_string()));
    assert_eq!(
        render(&events),
        "<div class=\"footnote-definition\" id=\"x&lt;y\"><sup class=\"footnote-definition-label\">1</sup></div>\n\
         <sup class=\"footnote-reference\"><a href=\"#z\">2</a></sup>\
         <sup class=\"footnote-reference\"><a href=\"#x&lt;y\">1</a></sup>"
    );
}

#[test]
fn many_footnotes() {
    let events: Vec<Event> =
        (0..12).map(|i| Event::FootnoteReference(format!("n{}", i))).collect();
    let out = render(&events);
    assert!(out.ends_with("<sup class=\"footnote-reference\"><a href=\"#n11\">12</a></sup>"));
    assert!(out.contains("<a href=\"#n9\">10</a>"));
}

fn cell(s: &str) -> Vec<Event> {
    wrapped(Tag::TableCell, vec![text(s)])
}

#[test]
fn table_cells_take_the_alignment_of_their_column() {
    let alignments = vec![Alignment::Left, Alignment::Unset, Alignment::Right];
    let mut head = cell("a");
    head.extend(cell("b"));
    head.extend(cell("c"));
    let mut row = cell("1");
    row.extend(cell("2"));
    row.extend(cell("3"));
    let mut inner = wrapped(Tag::TableHead, head);
    inner.extend(wrapped(Tag::TableRow, row.clone()));
    inner.extend(wrapped(Tag::TableRow, row));
    let body_row = "<tr><td style=\"text-align: left\">1</td><td>2</td>\
                    <td style=\"text-align: right\">3</td></tr>\n";
    assert_eq!(
        render(&wrapped(Tag::Table(alignments), inner)),
        format!(
            "<table><thead><tr><th style=\"text-align: left\">a</th><th>b</th>\
             <th style=\"text-align: right\">c</th></tr></thead><tbody>\n{}{}</tbody></table>\n",
            body_row, body_row
        )
    );
}

#[test]
fn table_cells_beyond_the_alignments() {
    let mut row = cell("1");
    row.extend(cell("2"));
    let events = wrapped(Tag::Table(vec![Alignment::Center]), wrapped(Tag::TableRow, row));
    assert_eq!(
        render(&events),
        "<table><tr><th style=\"text-align: center\">1</th><th>2</th></tr>\n</tbody></table>\n"
    );
}

#[test]
fn table_without_a_head_still_closes_its_body() {
    assert_eq!(render(&wrapped(Tag::Table(vec![]), vec![])), "<table></tbody></table>\n");
}

#[test]
fn second_table_starts_in_its_head() {
    let first = wrapped(Tag::Table(vec![Alignment::Right]), wrapped(Tag::TableHead, cell("a")));
    let second = wrapped(Tag::Table(vec![]), wrapped(Tag::TableHead, cell("b")));
    let mut events = first;
    events.extend(second);
    assert_eq!(
        render(&events),
        "<table><thead><tr><th style=\"text-align: right\">a</th></tr></thead><tbody>\n</tbody></table>\n\
         <table><thead><tr><th>b</th></tr></thead><tbody>\n</tbody></table>\n"
    );
}

#[test]
fn writer_steps() {
    let events: Vec<Event> = vec![];
    let mut w = HtmlWriter::new(&events);
    w.write("a");
    w.start_tag(&Tag::Paragraph);
    w.write("b");
    w.end_tag(&Tag::Paragraph);
    w.start_tag(&Tag::BlockQuote);
    w.write_newline();
    w.start_tag(&Tag::ListItem);
    w.raw_text();
    assert_eq!(w.run(), "a\n<p>b</p>\n<blockquote>\n\n<li>");
}

#[test]
fn writer_knows_where_a_line_starts() {
    let events: Vec<Event> = vec![];
    let mut w = HtmlWriter::new(&events);
    assert!(w.end_newline());
    w.write("");
    assert!(w.end_newline());
    w.write("a");
    assert!(!w.end_newline());
    w.write("");
    assert!(!w.end_newline());
    w.write("b\n");
    assert!(w.end_newline());
    w.write("\u{e9}");
    assert!(!w.end_newline());
    w.write_newline();
    assert!(w.end_newline());
    w.start_tag(&Tag::Emphasis);
    assert!(!w.end_newline());
    w.end_tag(&Tag::Paragraph);
    assert!(w.end_newline());
    assert_eq!(w.run(), "ab\n\u{e9}\n<em></p>\n");
}
