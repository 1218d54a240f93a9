use markhtml::render::{extract_meta, post_from_markdown, render_markdown, Content, Page};
use markhtml::{push_html, Alignment, CodeBlockKind, Event, HeadingLevel, LinkType, Tag};
use pulldown_cmark::{Options, Parser};

fn level(l: pulldown_cmark::HeadingLevel) -> HeadingLevel {
    match l {
        pulldown_cmark::HeadingLevel::H1 => HeadingLevel::H1,
        pulldown_cmark::HeadingLevel::H2 => HeadingLevel::H2,
        pulldown_cmark::HeadingLevel::H3 => HeadingLevel::H3,
        pulldown_cmark::HeadingLevel::H4 => HeadingLevel::H4,
        pulldown_cmark::HeadingLevel::H5 => HeadingLevel::H5,
        pulldown_cmark::HeadingLevel::H6 => HeadingLevel::H6,
    }
}

fn link_type(t: pulldown_cmark::LinkType) -> LinkType {
    match t {
        pulldown_cmark::LinkType::Email => LinkType::Email,
        pulldown_cmark::LinkType::Autolink => LinkType::Autolink,
        _ => LinkType::Normal,
    }
}

fn alignment(a: &pulldown_cmark::Alignment) -> Alignment {
    match a {
        pulldown_cmark::Alignment::None => Alignment::Unset,
        pulldown_cmark::Alignment::Left => Alignment::Left,
        pulldown_cmark::Alignment::Center => Alignment::Center,
        pulldown_cmark::Alignment::Right => Alignment::Right,
    }
}

fn tag(t: pulldown_cmark::Tag) -> Tag {
    match t {
        pulldown_cmark::Tag::Paragraph => Tag::Paragraph,
        pulldown_cmark::Tag::Heading(l, id, classes) => Tag::Heading(
            level(l),
            id.map(|s| s.to_string()),
            classes.iter().map(|s| s.to_string()).collect(),
        ),
        pulldown_cmark::Tag::BlockQuote => Tag::BlockQuote,
        pulldown_cmark::Tag::CodeBlock(pulldown_cmark::CodeBlockKind::Indented) => {
            Tag::CodeBlock(CodeBlockKind::Indented)
        }
        pulldown_cmark::Tag::CodeBlock(pulldown_cmark::CodeBlockKind::Fenced(info)) => {
            Tag::CodeBlock(CodeBlockKind::Fenced(info.to_string()))
        }
        pulldown_cmark::Tag::List(start) => Tag::List(start),
        pulldown_cmark::Tag::Item => Tag::ListItem,
        pulldown_cmark::Tag::FootnoteDefinition(name) => Tag::FootnoteDefinition(name.to_string()),
        pulldown_cmark::Tag::Table(alignments) => {
            Tag::Table(alignments.iter().map(alignment).collect())
        }
        pulldown_cmark::Tag::TableHead => Tag::TableHead,
        pulldown_cmark::Tag::TableRow => Tag::TableRow,
        pulldown_cmark::Tag::TableCell => Tag::TableCell,
        pulldown_cmark::Tag::Emphasis => Tag::Emphasis,
        pulldown_cmark::Tag::Strong => Tag::Strong,
        pulldown_cmark::Tag::Strikethrough => Tag::Strikethrough,
        pulldown_cmark::Tag::Link(t, dest, title) => {
            Tag::Link(link_type(t), dest.to_string(), title.to_string())
        }
        pulldown_cmark::Tag::Image(t, dest, title) => {
            Tag::Image(link_type(t), dest.to_string(), title.to_string())
        }
    }
}

fn event(e: pulldown_cmark::Event) -> Event {
    match e {
        pulldown_cmark::Event::Start(t) => Event::StartTag(tag(t)),
        pulldown_cmark::Event::End(t) => Event::EndTag(tag(t)),
        pulldown_cmark::Event::Text(s) => Event::Text(s.to_string()),
        pulldown_cmark::Event::Code(s) => Event::InlineCode(s.to_string()),
        pulldown_cmark::Event::Html(s) => Event::RawHtml(s.to_string()),
        pulldown_cmark::Event::FootnoteReference(s) => Event::FootnoteReference(s.to_string()),
        pulldown_cmark::Event::SoftBreak => Event::SoftBreak,
        pulldown_cmark::Event::HardBreak => Event::HardBreak,
        pulldown_cmark::Event::Rule => Event::ThematicBreak,
        pulldown_cmark::Event::TaskListMarker(checked) => Event::TaskMarker(checked),
    }
}

fn events(md: &str) -> Vec<Event> {
    Parser::new_ext(md, Options::all()).map(event).collect()
}

fn render(md: &str) -> String {
    let mut out = String::new();
    push_html(&mut out, &events(md));
    out
}

fn reference(md: &str) -> String {
    let mut out = String::new();
    pulldown_cmark::html::push_html(&mut out, Parser::new_ext(md, Options::all()));
    out
}

#[test]
fn title_and_text() {
    assert_eq!(render("# Title\n\nSome *text*.\n"), "<h1>Title</h1>\n<p>Some <em>text</em>.</p>\n");
}

#[test]
fn hello_list() {
    assert_eq!(
        render("\nhello\n=====\n\n* alpha\n* beta\n"),
        "<h1>hello</h1>\n<ul>\n<li>alpha</li>\n<li>beta</li>\n</ul>\n"
    );
}

#[test]
fn image_alt_from_markdown() {
    assert_eq!(render("![a *b* c](i.png)"), "<p><img src=\"i.png\" alt=\"a b c\" /></p>\n");
}

#[test]
fn same_markup_as_the_parser_s_own_renderer() {
    let documents = [
        "",
        "plain",
        "# Title\n\nSome *text*.\n",
        "Setext\n======\n\nsecond\n------\n\n### third {#id .c1 .c2}\n",
        "a **b** ~~c~~ `d<e>` <span>raw</span> & \"q\" 'r'\n",
        "line one\nline two  \nline three\\\nline four\n\n---\n\ntext\n***\n",
        "> quote\n> more\n>\n> > nested\n\nafter\n",
        "    indented <code>\n\n```rust ignore\nfn main() { 1 < 2; }\n```\n\n```\nplain\n```\n\n~~~ c++\nx\n~~~\n",
        "1. one\n2. two\n\n5. five\n6. six\n\n- a\n- b\n  - c\n    1. d\n\n* [x] done\n* [ ] open\n",
        "[link](/a b \"T\") [l2](</u r l> 'te\"st') <http://e.org/?a=b&c='d'> <me@example.org>\n[ref]\n\n[ref]: http://x.y/\u{e9}?q=%20 \"ti<t>le\"\n",
        "![alt *em* `code` text](/i.png \"Ti&tle\") ![](e.png) ![a ![b](c) d](e)\n",
        "| a | b | c |\n|:--|---|--:|\n| 1 | 2 | 3 |\n| *x* | `y` | [z](u) |\n\n| h |\n|:-:|\n| c | extra |\n",
        "note[^b] and[^a] again[^b].\n\n[^a]: First *def*.\n\n[^c]: Unused <def>.\n\n[^b]: Second.\n\n    More.\n",
        "<div class=\"x\">\n\n*md*\n\n</div>\n\n<!-- c -->\ntext <br> more\n",
        "caf\u{e9} \u{4e16}\u{754c} \u{1f600} < > & \" '\n\n# \u{dc}ber <b>\n",
        "* a\n\n  b\n\n* c\n\n> 1. x\n>\n>    y\n",
        "![x[^n]](i) text[^n]\n\n[^n]: note\n",
    ];
    for md in documents {
        assert_eq!(render(md), reference(md), "for {:?}", md);
    }
}

#[test]
fn render_markdown_is_the_parser_s_rendering() {
    assert_eq!(render_markdown("# Title\n\nSome *text*.\n"), "<h1>Title</h1>\n<p>Some <em>text</em>.</p>\n");
    assert_eq!(render_markdown(""), "");
    assert_eq!(render_markdown("a ~~b~~"), "<p>a ~~b~~</p>\n");
    assert_eq!(render_markdown("1 < 2"), "<p>1 &lt; 2</p>\n");
}

fn meta(md: &str) -> (String, Option<String>) {
    let events: Vec<Event> = Parser::new(md).map(event).collect();
    extract_meta(&events)
}

#[test]
fn meta_title_is_the_first_top_heading() {
    assert_eq!(meta("# Title\n\ntext\n"), ("Title".to_string(), None));
    assert_eq!(meta("intro\n\n## Sub\n\n# The *real* one\n\n# Second\n"), ("The real one".to_string(), None));
    assert_eq!(meta("no heading\n"), ("".to_string(), None));
    assert_eq!(meta(""), ("".to_string(), None));
}

#[test]
fn meta_title_is_escaped() {
    assert_eq!(meta("# a < b & \"c\"\n"), ("a &lt; b &amp; &quot;c&quot;".to_string(), None));
    assert_eq!(meta("# caf\u{e9} > th\u{e9}\n"), ("caf\u{e9} &gt; th\u{e9}".to_string(), None));
}

#[test]
fn meta_title_takes_text_only() {
    assert_eq!(meta("# a `code` b\n"), ("a  b".to_string(), None));
    assert_eq!(meta("#\n\n# Later\n"), ("Later".to_string(), None));
}

#[test]
fn meta_from_events() {
    let h1 = Tag::Heading(HeadingLevel::H1, None, vec![]);
    let h2 = Tag::Heading(HeadingLevel::H2, None, vec![]);
    let text = |s: &str| Event::Text(s.to_string());
    let events = vec![
        text("before"),
        Event::StartTag(h2.clone()),
        text("sub"),
        Event::EndTag(h2),
        Event::StartTag(h1.clone()),
        text("A<"),
        Event::InlineCode("code".to_string()),
        Event::StartTag(Tag::Emphasis),
        text("B"),
        Event::EndTag(Tag::Emphasis),
        Event::EndTag(h1.clone()),
        text("between"),
        Event::StartTag(h1.clone()),
        text("C"),
        Event::EndTag(h1.clone()),
        Event::StartTag(h1),
        text("unclosed"),
    ];
    assert_eq!(extract_meta(&events), ("A&lt;B".to_string(), None));
    assert_eq!(extract_meta(&[]), ("".to_string(), None));
}

#[test]
fn page_header() {
    let index = Page::new(Content::Index { posts: vec![] }, false);
    assert!(!index.boring);
    assert!(format!("{:?}", index).contains("header: false"));
    let article = Page::new(Content::Article { text: "<p>x</p>".to_string() }, true);
    assert!(article.boring);
    assert!(format!("{:?}", article).contains("header: true"));
}

#[test]
fn post_from_its_text() {
    let md = "# A & B\n\nbody *text*\n";
    let events: Vec<Event> = Parser::new(md).map(event).collect();
    let post = post_from_markdown("first".to_string(), md, &events);
    assert_eq!(post.name, "first");
    assert_eq!(post.title, "A &amp; B");
    assert_eq!(post.abs, None);
    assert_eq!(post.text, "<h1>A &amp; B</h1>\n<p>body <em>text</em></p>\n");
    assert!(!post.published);
}
