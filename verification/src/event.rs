//! The events that a document is made of.
use vstd::prelude::*;

verus! {

/// How the cells of a table column are aligned.
#[derive(Clone, Copy, Debug, PartialEq, Eq)]
pub enum Alignment {
    /// No alignment is asked for.
    Unset,
    Left,
    Center,
    Right,
}

/// The level of a heading.
#[derive(Clone, Copy, Debug, PartialEq, Eq)]
pub enum HeadingLevel {
    H1,
    H2,
    H3,
    H4,
    H5,
    H6,
}

/// How a code block was written.
#[derive(Clone, Debug, PartialEq, Eq)]
pub enum CodeBlockKind {
    Indented,
    /// Fenced, with the info string that follows the opening fence.
    Fenced(String),
}

/// What a link points with.
#[derive(Clone, Copy, Debug, PartialEq, Eq)]
pub enum LinkType {
    /// A link or image written out in the text.
    Normal,
    /// An address between angle brackets.
    Autolink,
    /// A mail address between angle brackets.
    Email,
}

/// A construct that is opened by one event and closed by another.
#[derive(Clone, Debug, PartialEq, Eq)]
pub enum Tag {
    Paragraph,
    /// A heading, with its level, its identifier and its classes.
    Heading(HeadingLevel, Option<String>, Vec<String>),
    BlockQuote,
    CodeBlock(CodeBlockKind),
    /// A list: an ordered one with the number of its first item, or an
    /// unordered one.
    List(Option<u64>),
    ListItem,
    /// The definition of the footnote with the given name.
    FootnoteDefinition(String),
    /// A table, with the alignment of each column.
    Table(Vec<Alignment>),
    TableHead,
    TableRow,
    TableCell,
    Emphasis,
    Strong,
    Strikethrough,
    /// A link, with its type, its destination and its title.
    Link(LinkType, String, String),
    /// An image, with its type, its source and its title. The events up to
    /// the matching end are its alternative text.
    Image(LinkType, String, String),
}

/// One event of a document, in the order of the text.
#[derive(Clone, Debug, PartialEq, Eq)]
pub enum Event {
    StartTag(Tag),
    EndTag(Tag),
    Text(String),
    InlineCode(String),
    /// Markup that goes to the output as it is.
    RawHtml(String),
    /// A reference to the footnote with the given name.
    FootnoteReference(String),
    SoftBreak,
    HardBreak,
    ThematicBreak,
    /// The box of a task list item, checked or not.
    TaskMarker(bool),
}

} // verus!
