//! Rendering of Markdown events to HTML, with the escaping that it needs, and
//! the small rules of the site that serves the result.
pub mod blog;
pub mod decimal;
pub mod escape;
pub mod event;
pub mod file_server;
pub mod footnotes;
pub mod html;
pub mod markup;
pub mod message;
pub mod posts;
pub mod render;
pub mod simd;
pub mod table;
pub mod text;

pub use blog::Blog;
pub use event::{Alignment, CodeBlockKind, Event, HeadingLevel, LinkType, Tag};
pub use html::{push_html, HtmlWriter};
pub use message::{JsonCodec, Message};
pub use text::{escape_href, escape_html};
