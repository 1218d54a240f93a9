//! Pages, and what is drawn from the text of a post: its markup and its
//! title.
use crate::event::{Event, HeadingLevel, Tag};
use crate::posts::Post;
use crate::text::html_escaped_text;
use pulldown_cmark::Parser;
use vstd::prelude::*;
use vstd::string::*;

verus! {

/// What a page shows.
#[derive(Debug)]
pub enum Content {
    /// The index, with the posts that it lists.
    Index { posts: Vec<Post> },
    /// One article, with its markup.
    Article { text: String },
}

/// A page, as the templates see it.
#[derive(Debug)]
pub struct Page {
    content: Content,
    header: bool,
    pub boring: bool,
}

impl Page {
    /// What the page shows.
    pub closed spec fn content(&self) -> Content {
        self.content
    }

    /// Whether the page has the site's header.
    pub closed spec fn header(&self) -> bool {
        self.header
    }

    /// Whether the page is drawn plainly.
    pub closed spec fn is_boring(&self) -> bool {
        self.boring
    }

    /// The page with the given content. Every page but the index has the
    /// header.
    pub fn new(content: Content, boring: bool) -> (r: Self)
        ensures
            r.content() == content,
            r.header() == !(content is Index),
            r.is_boring() == boring,
    {
        let header = match &content {
            Content::Index { .. } => false,
            _ => true,
        };
        Page { content, header, boring }
    }
}

/// What is known of the title while the events of a post are read.
pub struct Title {
    /// The title so far, escaped.
    pub text: Seq<char>,
    /// Whether the events read last stand in the heading that gives the title.
    pub open: bool,
}

/// Whether `tag` is a heading of the first level.
pub open spec fn is_top_heading(tag: Tag) -> bool {
    tag matches Tag::Heading(HeadingLevel::H1, _, _)
}

/// What is known of the title once one more event is read: a heading of the
/// first level opens the title unless there is a title already, its end closes
/// it, and text in between is added, escaped.
pub open spec fn title_step(title: Title, event: Event) -> Title {
    match event {
        Event::StartTag(tag) => if is_top_heading(tag) && title.text.len() == 0 {
            Title { open: true, ..title }
        } else {
            title
        },
        Event::EndTag(tag) => if is_top_heading(tag) {
            Title { open: false, ..title }
        } else {
            title
        },
        Event::Text(text) => if title.open {
            Title { text: title.text + html_escaped_text(text@), ..title }
        } else {
            title
        },
        _ => title,
    }
}

/// What is known of the title once all of `events` are read.
pub open spec fn title_after(events: Seq<Event>) -> Title
    decreases events.len(),
{
    if events.len() == 0 {
        Title { text: Seq::empty(), open: false }
    } else {
        title_step(title_after(events.drop_last()), events.last())
    }
}

/// The markup that the parser's own renderer gives for the Markdown text
/// `md`.
pub uninterp spec fn markdown_html(md: Seq<char>) -> Seq<char>;

/// The markup of a Markdown text: `pulldown_cmark::html::push_html` on the
/// events of `pulldown_cmark::Parser::new`, which switches on no extension of
/// the syntax. Which markup that is, is left to the parser; all that is
/// claimed is that the same text always gives the same markup.
#[verifier::external_body]
pub fn render_markdown(md: &str) -> (result: String)
    ensures
        result@ == markdown_html(md@),
{
    let md_parser = Parser::new(md);
    let mut result = String::new();
    pulldown_cmark::html::push_html(&mut result, md_parser);
    result
}

/// `pulldown_cmark::escape::escape_html` on a `String`: `s` is appended to
/// `w`, with `"`, `&`, `<` and `>` replaced by their entities.
#[verifier::external_body]
fn cmark_escape_html(w: &mut String, s: &str)
    ensures
        final(w)@ == old(w)@ + html_escaped_text(s@),
{
    let _ = pulldown_cmark::escape::escape_html(w, s);
}

/// The title of a post and its abstract, from the events of its text.
///
/// The title is the text of the first heading of the first level that has
/// any, escaped. No event marks an abstract, so none is found.
pub fn extract_meta(events: &[Event]) -> (meta: (String, Option<String>))
    ensures
        meta.0@ == title_after(events@).text,
        meta.1 is None,
{
    let mut title = String::new();
    let abs: Option<String> = None;
    let mut in_title = false;
    let mut i: usize = 0;
    while i < events.len()
        invariant
            0 <= i <= events@.len(),
            title_after(events@.subrange(0, i as int)) == (Title { text: title@, open: in_title }),
        decreases events@.len() - i,
    {
        proof {
            let upto = events@.subrange(0, i + 1);
            assert(upto.drop_last() =~= events@.subrange(0, i as int));
            assert(upto.last() == events@[i as int]);
        }
        match &events[i] {
            Event::StartTag(tag) => {
                match tag {
                    Tag::Heading(HeadingLevel::H1, _, _) => {
                        if title.as_str().is_empty() {
                            // Only open the title if no h1 has given one yet.
                            in_title = true;
                        }
                    },
                    _ => {},
                }
            },
            Event::EndTag(tag) => {
                match tag {
                    Tag::Heading(HeadingLevel::H1, _, _) => {
                        in_title = false;
                    },
                    _ => {},
                }
            },
            Event::Text(text) => {
                if in_title {
                    cmark_escape_html(&mut title, text.as_str());
                }
            },
            _ => {},
        }
        i += 1;
    }
    assert(events@.subrange(0, i as int) =~= events@);
    (title, abs)
}

/// The post with the given name, from its Markdown text and the events of
/// that text. It is not published yet.
pub fn post_from_markdown(name: String, markdown: &str, events: &[Event]) -> (post: Post)
    ensures
        post.name == name,
        post.title@ == title_after(events@).text,
        post.abs is None,
        post.text@ == markdown_html(markdown@),
        !post.published,
{
    let (title, abs) = extract_meta(events);
    let text = render_markdown(markdown);
    Post { name, title, abs, text, published: false }
}

} // verus!
