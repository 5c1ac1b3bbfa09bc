//! The Markdown document model: a tree of typed nodes, following the
//! CommonMark abstract syntax tree shape.  Handlers exchange these nodes
//! as method inputs and outputs; this core never interprets them.

use vstd::prelude::*;

verus! {

/// Houses all nodes.
#[derive(Debug)]
pub struct Markdown {
    /// Child elements.
    pub children: Vec<Block>,
    /// Document declarations.
    pub declarations: Vec<Declaration>,
}

/// A union of all possible block elements.
#[derive(Debug)]
pub enum Block {
    /// The `Paragraph` variant.
    Paragraph(Paragraph),
    /// The `Blockquote` variant.
    Blockquote(Blockquote),
    /// The `Heading` variant.
    Heading(Heading),
    /// The `Code` variant.
    Code(Code),
    /// The `Yaml` variant.
    Yaml(Yaml),
    /// The `Html` variant.
    Html(Html),
    /// The `List` variant.
    List(List),
    /// The `Table` variant.
    Table(Table),
    /// The `ThematicBreak` variant.
    ThematicBreak(ThematicBreak),
    /// The `Image` variant.
    Image(Image),
}

/// A union of all possible inline elements.
#[derive(Debug)]
pub enum Inline {
    /// The `Text` variant.
    Text(Text),
    /// The `InlineCode` variant.
    InlineCode(InlineCode),
    /// The `Break` variant.
    Break(Break),
    /// The `Emphasis` variant.
    Emphasis(Emphasis),
    /// The `Strong` variant.
    Strong(Strong),
    /// The `Delete` variant.
    Delete(Delete),
    /// The `Link` variant.
    Link(Link),
    /// The `Footnote` variant.
    Footnote(Footnote),
}

/// A union of all possible declaration elements.
#[derive(Debug)]
pub enum Declaration {
    /// The `LinkReference` variant.
    LinkReference(LinkReference),
    /// The `ImageReference` variant.
    ImageReference(ImageReference),
    /// The `FootnoteReference` variant.
    FootnoteReference(FootnoteReference),
    /// The `Definition` variant.
    Definition(Definition),
    /// The `FootnoteDefinition` variant.
    FootnoteDefinition(FootnoteDefinition),
}

/// A unit of discourse dealing with a particular point or idea.
#[derive(Debug)]
pub struct Paragraph {
    /// Child elements.
    pub children: Vec<Block>,
}

/// A quote.
#[derive(Debug)]
pub struct Blockquote {
    /// Child elements.
    pub children: Vec<Block>,
}

/// A heading, with a nesting depth between one and six.
#[derive(Debug)]
pub struct Heading {
    /// The nesting depth of the heading.
    pub depth: u32,
    /// Child elements.
    pub children: Vec<Inline>,
}

impl Heading {
    /// A heading's depth stays between one and six.
    pub open spec fn wf(self) -> bool {
        1 <= self.depth <= 6
    }

    /// A heading of the given depth.
    pub fn new(depth: u32, children: Vec<Inline>) -> (r: Heading)
        requires
            1 <= depth <= 6,
        ensures
            r.wf(),
            r.depth == depth,
            r.children@ == children@,
    {
        Heading { depth, children }
    }
}

/// A block of code with a language tag.
#[derive(Clone, Debug)]
pub struct Code {
    /// The language that the code is written in.
    pub lang: String,
    /// The code contents.
    pub value: String,
}

/// A span of code inside a line.
#[derive(Clone, Debug)]
pub struct InlineCode {
    /// The code contents.
    pub value: String,
}

/// Embedded YAML front matter.
#[derive(Clone, Debug)]
pub struct Yaml {
    /// The YAML contents.
    pub value: String,
}

/// Embedded HTML.
#[derive(Clone, Debug)]
pub struct Html {
    /// The HTML contents.
    pub value: String,
}

/// A list of items, ordered or not.
#[derive(Debug)]
pub struct List {
    /// Whether the list is ordered (with numbers) or not.
    pub ordered: bool,
    /// The start number for an ordered list, or `None` for automatic numbers.
    pub start: Option<u32>,
    /// Whether any of the children are loose.
    pub loose: bool,
    /// Child elements.
    pub children: Vec<ListItem>,
}

/// One item of a list.
#[derive(Debug)]
pub struct ListItem {
    /// Whether this item can contain more than one block element.
    pub loose: bool,
    /// Whether this item is checked, or `None` when it has no checkbox.
    pub checked: Option<bool>,
    /// Child elements.
    pub children: Vec<Block>,
}

/// The alignment of one table column.
#[derive(Clone, Copy, Debug, PartialEq, Eq, Structural)]
pub enum AlignType {
    /// Align to the left.
    Left,
    /// Align to the right.
    Right,
    /// Align to the center.
    Center,
}

/// Tabular data; the first row acts as a header.
#[derive(Debug)]
pub struct Table {
    /// The alignment of the table columns.
    pub align: Vec<AlignType>,
    /// Child elements.
    pub children: Vec<TableRow>,
}

/// One row of a table.
#[derive(Debug)]
pub struct TableRow {
    /// Child elements.
    pub children: Vec<TableCell>,
}

/// One tabular field.
#[derive(Debug)]
pub struct TableCell {
    /// Child elements.
    pub children: Vec<Block>,
}

/// A break in content, often shown as a horizontal rule.
#[derive(Clone, Copy, Debug, PartialEq, Eq, Structural)]
pub struct ThematicBreak;

/// An explicit line break.
#[derive(Clone, Copy, Debug, PartialEq, Eq, Structural)]
pub struct Break;

/// Slight emphasis.
#[derive(Debug)]
pub struct Emphasis {
    /// Child elements.
    pub children: Vec<Inline>,
}

/// Strong emphasis.
#[derive(Debug)]
pub struct Strong {
    /// Child elements.
    pub children: Vec<Inline>,
}

/// Text ready for removal.
#[derive(Debug)]
pub struct Delete {
    /// Child elements.
    pub children: Vec<Inline>,
}

/// The humble hyperlink.
#[derive(Debug)]
pub struct Link {
    /// The title of the link.
    pub title: Option<String>,
    /// The URL of the link.
    pub url: String,
    /// Child elements.
    pub children: Vec<Inline>,
}

/// The figurative figure.
#[derive(Clone, Debug)]
pub struct Image {
    /// The title of the image.
    pub title: Option<String>,
    /// The alternative title of the image.
    pub alt: Option<String>,
    /// The URL of the image.
    pub url: String,
}

/// An inline marker whose content lies outside the document's flow.
#[derive(Debug)]
pub struct Footnote {
    /// Child elements.
    pub children: Vec<Inline>,
}

/// How a reference was written down.
#[derive(Clone, Copy, Debug, PartialEq, Eq, Structural)]
pub enum ReferenceType {
    /// The reference is implicit, like `[foo]`.
    Shortcut,
    /// The reference is collapsed, like `[foo][]`.
    Collapsed,
    /// The reference is full, like `[Hello][foo]`.
    Full,
}

/// A hyperlink whose target is defined elsewhere in the document.
#[derive(Debug)]
pub struct LinkReference {
    /// The identifier of the definition this points at.
    pub identifier: String,
    /// How the reference was written down.
    pub reference_type: ReferenceType,
}

/// A figure whose target is defined elsewhere in the document.
#[derive(Clone, Debug)]
pub struct ImageReference {
    /// The identifier of the definition this points at.
    pub identifier: String,
    /// How the reference was written down.
    pub reference_type: ReferenceType,
    /// An inline alternate title.
    pub alt: Option<String>,
}

/// A footnote whose content lies in a footnote definition.
#[derive(Debug)]
pub struct FootnoteReference {
    /// The identifier of the definition this points at.
    pub identifier: String,
}

/// The location and title of a link or image reference.
#[derive(Clone, Debug)]
pub struct Definition {
    /// The identifier references point at.
    pub identifier: String,
    /// The title of the definition.
    pub title: Option<String>,
    /// The URL of the definition.
    pub url: String,
}

/// The content of a footnote reference.
#[derive(Debug)]
pub struct FootnoteDefinition {
    /// The identifier references point at.
    pub identifier: String,
    /// Child elements.
    pub children: Vec<Inline>,
}

/// Everything that is just text.
#[derive(Clone, Debug)]
pub struct Text {
    /// The text content.
    pub content: String,
}

} // verus!
