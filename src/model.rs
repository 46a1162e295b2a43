//! Input events and the document tree that the compiler builds from them.
use vstd::prelude::*;

verus! {

pub const STYLE_BOLD: u8 = 1;
pub const STYLE_ITALIC: u8 = 2;
pub const STYLE_UNDERLINE: u8 = 4;
pub const STYLE_STRIKETHROUGH: u8 = 8;
pub const STYLE_SUBSCRIPT: u8 = 16;
pub const STYLE_SUPERSCRIPT: u8 = 32;
pub const STYLE_CODE: u8 = 64;

/// Preferred alignment of a table column.
#[derive(Clone, Copy, Debug, PartialEq, Eq, Structural)]
pub enum Alignment {
    Unspecified,
    Left,
    Center,
    Right,
}

/// The four kinds of shorthand entity mention.
#[derive(Clone, Copy, Debug, PartialEq, Eq, Structural)]
pub enum EntityKind {
    User,
    Subreddit,
    Post,
    Comment,
}

/// Markers that open and close constructs in the event stream.
#[derive(Clone, Debug)]
pub enum Tag {
    Paragraph,
    Rule,
    Header(u8),
    Table(Vec<Alignment>),
    TableHead,
    TableRow,
    TableCell,
    BlockQuote,
    CodeBlock(Vec<char>),
    List(Option<u64>),
    Item,
    Emphasis,
    Strong,
    Underline,
    Strikethrough,
    Subscript,
    Superscript,
    Code,
    Spoiler,
    Link(Vec<char>, Vec<char>),
    EntityLink(EntityKind, Vec<char>, usize),
    Image(Vec<char>, Vec<char>),
    FootnoteDefinition(Vec<char>),
}

/// One event of the tokenizer's output.
#[derive(Clone, Debug)]
pub enum Event {
    Start(Tag),
    End(Tag),
    Text(Vec<char>),
    Html(Vec<char>),
    InlineHtml(Vec<char>),
    SoftBreak,
    HardBreak,
    FootnoteReference(Vec<char>),
}

/// The kind of a tag, without its payload: what an end event must match.
#[derive(Clone, Copy, Debug, PartialEq, Eq, Structural)]
pub enum TagKind {
    Paragraph,
    Rule,
    Header,
    Table,
    TableHead,
    TableRow,
    TableCell,
    BlockQuote,
    CodeBlock,
    List,
    Item,
    Emphasis,
    Strong,
    Underline,
    Strikethrough,
    Subscript,
    Superscript,
    Code,
    Spoiler,
    Link,
    EntityLink,
    Image,
    FootnoteDefinition,
}

/// A style applied to `length` characters of a text node from `start` on.
#[derive(Clone, Copy, Debug, PartialEq, Eq, Structural)]
pub struct FormatRange {
    pub style: u8,
    pub start: usize,
    pub length: usize,
}

#[derive(Debug)]
pub enum Inline {
    Text { text: Vec<char>, ranges: Vec<FormatRange> },
    Link { text: Vec<char>, url: Vec<char> },
    EntityLink { kind: EntityKind, id: Vec<char> },
    Image { url: Vec<char>, title: Vec<char>, alt: Vec<char> },
    LineBreak,
    Spoiler { content: Vec<Inline> },
}

#[derive(Debug)]
pub struct TableCell {
    pub align: Alignment,
    pub content: Vec<Inline>,
}

#[derive(Debug)]
pub enum Block {
    Paragraph { content: Vec<Inline> },
    Heading { level: u8, content: Vec<Inline> },
    Rule,
    List { ordered: bool, start: u64, items: Vec<Block> },
    ListItem { blocks: Vec<Block> },
    Table { header: Vec<TableCell>, rows: Vec<Vec<TableCell>> },
    CodeBlock { language: Option<Vec<char>>, raw: Vec<char> },
    BlockQuote { blocks: Vec<Block> },
    FootnoteDefinition { number: usize, blocks: Vec<Block> },
}

#[derive(Debug)]
pub struct Document {
    pub blocks: Vec<Block>,
}

/// The ways in which a stream can be malformed; `position` is the index of
/// the offending event (the stream's length for an unclosed construct).
#[derive(Clone, Copy, Debug, PartialEq, Eq, Structural)]
pub enum CompileError {
    StructuralMismatch { position: usize },
    SpliceOverrun { position: usize },
}

pub open spec fn tag_kind_of(t: Tag) -> TagKind {
    match t {
        Tag::Paragraph => TagKind::Paragraph,
        Tag::Rule => TagKind::Rule,
        Tag::Header(_) => TagKind::Header,
        Tag::Table(_) => TagKind::Table,
        Tag::TableHead => TagKind::TableHead,
        Tag::TableRow => TagKind::TableRow,
        Tag::TableCell => TagKind::TableCell,
        Tag::BlockQuote => TagKind::BlockQuote,
        Tag::CodeBlock(_) => TagKind::CodeBlock,
        Tag::List(_) => TagKind::List,
        Tag::Item => TagKind::Item,
        Tag::Emphasis => TagKind::Emphasis,
        Tag::Strong => TagKind::Strong,
        Tag::Underline => TagKind::Underline,
        Tag::Strikethrough => TagKind::Strikethrough,
        Tag::Subscript => TagKind::Subscript,
        Tag::Superscript => TagKind::Superscript,
        Tag::Code => TagKind::Code,
        Tag::Spoiler => TagKind::Spoiler,
        Tag::Link(_, _) => TagKind::Link,
        Tag::EntityLink(_, _, _) => TagKind::EntityLink,
        Tag::Image(_, _) => TagKind::Image,
        Tag::FootnoteDefinition(_) => TagKind::FootnoteDefinition,
    }
}

/// The kind of a tag.
pub fn tag_kind(t: &Tag) -> (r: TagKind)
    ensures
        r == tag_kind_of(*t),
{
    match t {
        Tag::Paragraph => TagKind::Paragraph,
        Tag::Rule => TagKind::Rule,
        Tag::Header(_) => TagKind::Header,
        Tag::Table(_) => TagKind::Table,
        Tag::TableHead => TagKind::TableHead,
        Tag::TableRow => TagKind::TableRow,
        Tag::TableCell => TagKind::TableCell,
        Tag::BlockQuote => TagKind::BlockQuote,
        Tag::CodeBlock(_) => TagKind::CodeBlock,
        Tag::List(_) => TagKind::List,
        Tag::Item => TagKind::Item,
        Tag::Emphasis => TagKind::Emphasis,
        Tag::Strong => TagKind::Strong,
        Tag::Underline => TagKind::Underline,
        Tag::Strikethrough => TagKind::Strikethrough,
        Tag::Subscript => TagKind::Subscript,
        Tag::Superscript => TagKind::Superscript,
        Tag::Code => TagKind::Code,
        Tag::Spoiler => TagKind::Spoiler,
        Tag::Link(_, _) => TagKind::Link,
        Tag::EntityLink(_, _, _) => TagKind::EntityLink,
        Tag::Image(_, _) => TagKind::Image,
        Tag::FootnoteDefinition(_) => TagKind::FootnoteDefinition,
    }
}

/// Kinds that become a block of the document when they close.
pub open spec fn is_block_kind(k: TagKind) -> bool {
    match k {
        TagKind::Paragraph | TagKind::Rule | TagKind::Header | TagKind::Table
        | TagKind::BlockQuote | TagKind::CodeBlock | TagKind::List | TagKind::Item
        | TagKind::FootnoteDefinition => true,
        _ => false,
    }
}

/// The kind of tag that a block is made from.
pub open spec fn block_kind_of(b: Block) -> TagKind {
    match b {
        Block::Paragraph { .. } => TagKind::Paragraph,
        Block::Heading { .. } => TagKind::Header,
        Block::Rule => TagKind::Rule,
        Block::List { .. } => TagKind::List,
        Block::ListItem { .. } => TagKind::Item,
        Block::Table { .. } => TagKind::Table,
        Block::CodeBlock { .. } => TagKind::CodeBlock,
        Block::BlockQuote { .. } => TagKind::BlockQuote,
        Block::FootnoteDefinition { .. } => TagKind::FootnoteDefinition,
    }
}

/// The style bit that a tag applies to the text it encloses, if any.
pub open spec fn style_of(k: TagKind) -> Option<u8> {
    match k {
        TagKind::Strong => Some(STYLE_BOLD),
        TagKind::Emphasis => Some(STYLE_ITALIC),
        TagKind::Underline => Some(STYLE_UNDERLINE),
        TagKind::Strikethrough => Some(STYLE_STRIKETHROUGH),
        TagKind::Subscript => Some(STYLE_SUBSCRIPT),
        TagKind::Superscript => Some(STYLE_SUPERSCRIPT),
        TagKind::Code => Some(STYLE_CODE),
        _ => None,
    }
}

/// A format range lies within a text of `len` characters and is not empty.
pub open spec fn range_fits(r: FormatRange, len: int) -> bool {
    r.length >= 1 && r.start + r.length <= len
}

pub open spec fn ranges_fit(rs: Seq<FormatRange>, len: int) -> bool {
    forall|i: int| 0 <= i < rs.len() ==> range_fits(#[trigger] rs[i], len)
}

pub open spec fn inline_wf(n: Inline) -> bool
    decreases n,
{
    match n {
        Inline::Text { text, ranges } => ranges_fit(ranges@, text@.len() as int),
        Inline::Spoiler { content } => forall|i: int|
            0 <= i < content.len() ==> inline_wf(#[trigger] content@[i]),
        _ => true,
    }
}

pub open spec fn inlines_wf(s: Seq<Inline>) -> bool {
    forall|i: int| 0 <= i < s.len() ==> inline_wf(#[trigger] s[i])
}

pub open spec fn cells_wf(s: Seq<TableCell>) -> bool {
    forall|i: int| 0 <= i < s.len() ==> inlines_wf((#[trigger] s[i]).content@)
}

pub open spec fn rows_wf(s: Seq<Vec<TableCell>>) -> bool {
    forall|i: int| 0 <= i < s.len() ==> cells_wf((#[trigger] s[i])@)
}

/// Every text node in the block carries only format ranges that fit it.
pub open spec fn block_wf(b: Block) -> bool
    decreases b,
{
    match b {
        Block::Paragraph { content } => inlines_wf(content@),
        Block::Heading { content, .. } => inlines_wf(content@),
        Block::Rule => true,
        Block::List { items, .. } => forall|i: int|
            0 <= i < items.len() ==> block_wf(#[trigger] items@[i]),
        Block::ListItem { blocks } => forall|i: int|
            0 <= i < blocks.len() ==> block_wf(#[trigger] blocks@[i]),
        Block::Table { header, rows } => cells_wf(header@) && rows_wf(rows@),
        Block::CodeBlock { .. } => true,
        Block::BlockQuote { blocks } => forall|i: int|
            0 <= i < blocks.len() ==> block_wf(#[trigger] blocks@[i]),
        Block::FootnoteDefinition { blocks, .. } => forall|i: int|
            0 <= i < blocks.len() ==> block_wf(#[trigger] blocks@[i]),
    }
}

pub open spec fn blocks_wf(s: Seq<Block>) -> bool {
    forall|i: int| 0 <= i < s.len() ==> block_wf(#[trigger] s[i])
}

pub open spec fn document_wf(d: Document) -> bool {
    blocks_wf(d.blocks@)
}

} // verus!
