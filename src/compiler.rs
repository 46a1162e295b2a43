//! The driver: consumes events one at a time, keeps a stack of open
//! constructs, and appends each finished block to its parent.
use vstd::prelude::*;
use crate::escape::{decimal, escape_text, escape_url, escaped_text, escaped_url, push_decimal};
use crate::footnotes::{FootnoteRegistry, number_of, registered};
use crate::inline::{
    InlineRun, OpenSpan, emitted, emitted_parts, flushed_content, is_text_node, ranges_cut, span_range, spans_cut,
    spans_restarted,
};
use crate::model::{
    Block, CompileError, Document, EntityKind, Event, Inline, Tag, TagKind, STYLE_BOLD, STYLE_CODE,
    STYLE_ITALIC, STYLE_STRIKETHROUGH, STYLE_SUBSCRIPT, STYLE_SUPERSCRIPT, STYLE_UNDERLINE,
    block_kind_of, block_wf, style_of, blocks_wf, document_wf, inlines_wf, is_block_kind,
    tag_kind, tag_kind_of,
};
use crate::scan::{
    Nesting, balanced, lemma_blocks_follow_starts, nest_from, nest_step, nesting, no_trims, opened_at_top,
};
use crate::table::{TablePhase, TableState, column_alignment};

verus! {

/// A construct that has been opened and not yet closed, with what has been
/// gathered for it so far.
pub enum Frame {
    Paragraph,
    Heading { level: u8 },
    Rule,
    BlockQuote { blocks: Vec<Block> },
    FootnoteDefinition { number: usize, blocks: Vec<Block> },
    List { ordered: bool, start: u64, items: Vec<Block> },
    Item { blocks: Vec<Block> },
    Table,
    TableHead,
    TableRow,
    TableCell,
    CodeBlock { language: Option<Vec<char>> },
    Style { kind: TagKind, counted: bool },
    Spoiler { outer: Vec<Inline>, active: bool },
    Link { url: Vec<char> },
    EntityLink,
    Image { url: Vec<char>, title: Vec<char> },
}

pub open spec fn frame_kind_of(f: Frame) -> TagKind {
    match f {
        Frame::Paragraph => TagKind::Paragraph,
        Frame::Heading { .. } => TagKind::Header,
        Frame::Rule => TagKind::Rule,
        Frame::BlockQuote { .. } => TagKind::BlockQuote,
        Frame::FootnoteDefinition { .. } => TagKind::FootnoteDefinition,
        Frame::List { .. } => TagKind::List,
        Frame::Item { .. } => TagKind::Item,
        Frame::Table => TagKind::Table,
        Frame::TableHead => TagKind::TableHead,
        Frame::TableRow => TagKind::TableRow,
        Frame::TableCell => TagKind::TableCell,
        Frame::CodeBlock { .. } => TagKind::CodeBlock,
        Frame::Style { kind, .. } => kind,
        Frame::Spoiler { .. } => TagKind::Spoiler,
        Frame::Link { .. } => TagKind::Link,
        Frame::EntityLink => TagKind::EntityLink,
        Frame::Image { .. } => TagKind::Image,
    }
}

fn frame_kind(f: &Frame) -> (r: TagKind)
    ensures
        r == frame_kind_of(*f),
{
    match f {
        Frame::Paragraph => TagKind::Paragraph,
        Frame::Heading { .. } => TagKind::Header,
        Frame::Rule => TagKind::Rule,
        Frame::BlockQuote { .. } => TagKind::BlockQuote,
        Frame::FootnoteDefinition { .. } => TagKind::FootnoteDefinition,
        Frame::List { .. } => TagKind::List,
        Frame::Item { .. } => TagKind::Item,
        Frame::Table => TagKind::Table,
        Frame::TableHead => TagKind::TableHead,
        Frame::TableRow => TagKind::TableRow,
        Frame::TableCell => TagKind::TableCell,
        Frame::CodeBlock { .. } => TagKind::CodeBlock,
        Frame::Style { kind, .. } => *kind,
        Frame::Spoiler { .. } => TagKind::Spoiler,
        Frame::Link { .. } => TagKind::Link,
        Frame::EntityLink => TagKind::EntityLink,
        Frame::Image { .. } => TagKind::Image,
    }
}

pub open spec fn frame_wf(f: Frame) -> bool {
    match f {
        Frame::BlockQuote { blocks } => blocks_wf(blocks@),
        Frame::FootnoteDefinition { blocks, .. } => blocks_wf(blocks@),
        Frame::Item { blocks } => blocks_wf(blocks@),
        Frame::List { items, .. } => blocks_wf(items@),
        Frame::Style { kind, .. } => !is_block_kind(kind),
        Frame::Spoiler { outer, .. } => inlines_wf(outer@),
        _ => true,
    }
}

pub open spec fn frame_kinds(fs: Seq<Frame>) -> Seq<TagKind> {
    fs.map_values(|f: Frame| frame_kind_of(f))
}

pub open spec fn block_kinds(bs: Seq<Block>) -> Seq<TagKind> {
    bs.map_values(|b: Block| block_kind_of(b))
}

pub open spec fn frames_wf(fs: Seq<Frame>) -> bool {
    forall|i: int| 0 <= i < fs.len() ==> frame_wf(#[trigger] fs[i])
}

proof fn lemma_frames_push(fs: Seq<Frame>, f: Frame)
    ensures
        frame_kinds(fs.push(f)) == frame_kinds(fs).push(frame_kind_of(f)),
        frames_wf(fs) && frame_wf(f) ==> frames_wf(fs.push(f)),
{
    assert(frame_kinds(fs.push(f)) =~= frame_kinds(fs).push(frame_kind_of(f)));
    if frames_wf(fs) && frame_wf(f) {
        assert forall|i: int| 0 <= i < fs.push(f).len() implies frame_wf(#[trigger] fs.push(f)[i]) by {
            if i < fs.len() {
                assert(fs.push(f)[i] == fs[i]);
            }
        }
    }
}

proof fn lemma_frames_pop(fs: Seq<Frame>)
    requires
        fs.len() > 0,
    ensures
        frame_kinds(fs.drop_last()) == frame_kinds(fs).drop_last(),
        frame_kinds(fs).last() == frame_kind_of(fs.last()),
        frames_wf(fs) ==> frames_wf(fs.drop_last()) && frame_wf(fs.last()),
{
    assert(frame_kinds(fs.drop_last()) =~= frame_kinds(fs).drop_last());
    if frames_wf(fs) {
        assert(frame_wf(fs[fs.len() - 1]));
        assert forall|i: int| 0 <= i < fs.drop_last().len() implies frame_wf(#[trigger] fs.drop_last()[i]) by {
            assert(fs.drop_last()[i] == fs[i]);
        }
    }
}

proof fn lemma_blocks_push(bs: Seq<Block>, b: Block)
    ensures
        block_kinds(bs.push(b)) == block_kinds(bs).push(block_kind_of(b)),
        blocks_wf(bs) && block_wf(b) ==> blocks_wf(bs.push(b)),
{
    assert(block_kinds(bs.push(b)) =~= block_kinds(bs).push(block_kind_of(b)));
    if blocks_wf(bs) && block_wf(b) {
        assert forall|i: int| 0 <= i < bs.push(b).len() implies block_wf(#[trigger] bs.push(b)[i]) by {
            if i < bs.len() {
                assert(bs.push(b)[i] == bs[i]);
            }
        }
    }
}

/// The language named by a code block's info string: its first word, if any.
pub open spec fn info_language(info: Seq<char>) -> Option<Seq<char>> {
    let w = first_word(info);
    if w.len() == 0 {
        None
    } else {
        Some(escaped_text(w))
    }
}

/// The characters before the first space.
pub open spec fn first_word(s: Seq<char>) -> Seq<char>
    decreases s.len(),
{
    if s.len() == 0 {
        seq![]
    } else if s[0] == ' ' {
        seq![]
    } else {
        seq![s[0]] + first_word(s.drop_first())
    }
}

proof fn lemma_first_word_prefix(s: Seq<char>, i: int)
    requires
        0 <= i <= s.len(),
        forall|j: int| 0 <= j < i ==> s[j] != ' ',
    ensures
        i < s.len() && s[i] == ' ' ==> first_word(s) == s.subrange(0, i),
        i == s.len() ==> first_word(s) == s,
    decreases i,
{
    if i > 0 {
        let t = s.drop_first();
        assert forall|j: int| 0 <= j < i - 1 implies t[j] != ' ' by {
            assert(t[j] == s[j + 1]);
        }
        lemma_first_word_prefix(t, i - 1);
        assert(s.subrange(0, i) =~= seq![s[0]] + t.subrange(0, i - 1));
        assert(s =~= seq![s[0]] + t);
    } else {
        assert(s.subrange(0, 0) =~= Seq::<char>::empty());
        if s.len() == 0 {
            assert(s =~= Seq::<char>::empty());
        }
    }
}

/// The language of a code block, read from its info string.
pub fn code_language(info: &Vec<char>) -> (r: Option<Vec<char>>)
    ensures
        r matches Some(l) ==> info_language(info@) == Some(l@),
        r is None ==> info_language(info@) is None,
{
    let mut word: Vec<char> = Vec::new();
    let mut i: usize = 0;
    while i < info.len() && info[i] != ' '
        invariant
            0 <= i <= info@.len(),
            word@ == info@.subrange(0, i as int),
            forall|j: int| 0 <= j < i ==> info@[j] != ' ',
        decreases info@.len() - i,
    {
        word.push(info[i]);
        i = i + 1;
        assert(word@ =~= info@.subrange(0, i as int));
    }
    proof {
        lemma_first_word_prefix(info@, i as int);
        if i == info@.len() {
            assert(info@.subrange(0, i as int) =~= info@);
        }
    }
    if word.len() == 0 {
        None
    } else {
        Some(escape_text(&word))
    }
}

/// The first number of a list; a list without one counts from 1.
pub fn list_start(ordering: Option<u64>) -> (r: u64)
    ensures
        r == match ordering {
            Some(n) => n,
            None => 1,
        },
{
    match ordering {
        Some(n) => n,
        None => 1,
    }
}

/// Once an end event has failed to match, no later event mends the stream.
pub proof fn lemma_mismatch_persists(n: Nesting, evs: Seq<Event>, p: int)
    requires
        0 <= p < evs.len(),
        nest_from(n, evs.take(p + 1)) is None,
    ensures
        nest_from(n, evs) is None,
    decreases evs.len(),
{
    if evs.len() == p + 1 {
        assert(evs.take(p + 1) =~= evs);
    } else {
        assert(evs.drop_last().take(p + 1) =~= evs.take(p + 1));
        lemma_mismatch_persists(n, evs.drop_last(), p);
    }
}

/// `n` is an entity link of `kind` to `id`.
pub open spec fn is_entity_node(n: Inline, kind: EntityKind, id: Seq<char>) -> bool {
    match n {
        Inline::EntityLink { kind: k, id: i } => k == kind && i@ == id,
        _ => false,
    }
}

/// `b` is the block that closing the innermost frame of `c` makes: what the
/// frame gathered, with the inline run, the captured text or the table state
/// of `c` where the frame's kind takes them.
pub open spec fn closes_into(c: Ctx, b: Block) -> bool {
    match c.frames@.last() {
        Frame::Paragraph => b matches Block::Paragraph { content } && flushed_content(content@, c.run),
        Frame::Heading { level } => b matches Block::Heading { level: l, content } && l == level
            && flushed_content(content@, c.run),
        Frame::Rule => b is Rule,
        Frame::CodeBlock { language } => b matches Block::CodeBlock { language: lang, raw } && lang == language
            && raw@ == c.captured@,
        Frame::BlockQuote { blocks } => b matches Block::BlockQuote { blocks: bs } && bs == blocks,
        Frame::FootnoteDefinition { number, blocks } => b matches Block::FootnoteDefinition {
            number: num,
            blocks: bs,
        } && num == number && bs == blocks,
        Frame::List { ordered, start, items } => b matches Block::List { ordered: o, start: s, items: its }
            && o == ordered && s == start && its == items,
        Frame::Table => b matches Block::Table { header, rows } && header@ == c.table.header@ && rows@
            == c.table.rows@,
        Frame::Item { blocks } => b matches Block::ListItem { blocks: bs } && if c.run.nodes@.len() == 0
            && c.run.pending@.len() == 0 {
            bs == blocks
        } else {
            bs@.len() == blocks@.len() + 1 && bs@.drop_last() == blocks@ && (bs@.last() matches Block::Paragraph {
                content,
            } && flushed_content(content@, c.run))
        },
        _ => true,
    }
}

/// The fields that only frames, blocks and the table change are as they were.
pub open spec fn same_structure(a: Ctx, b: Ctx) -> bool {
    &&& b.frames == a.frames
    &&& b.blocks == a.blocks
    &&& b.table == a.table
    &&& b.outer_tables == a.outer_tables
    &&& b.capture_depth == a.capture_depth
    &&& b.in_code == a.in_code
}

/// `s` is added to the live text: the pending text of the run, or the
/// captured text inside a link, image, entity link or code block.
pub open spec fn text_added(a: Ctx, s: Seq<char>, b: Ctx) -> bool {
    if a.capture_depth == 0 {
        &&& b.run.pending@ == a.run.pending@ + s
        &&& b.run.nodes@ == a.run.nodes@
        &&& b.run.ranges@ == a.run.ranges@
        &&& b.run.open@ == a.run.open@
        &&& b.captured == a.captured
    } else {
        b.captured@ == a.captured@ + s && b.run == a.run
    }
}

/// What an event other than a start or an end does.
pub open spec fn inline_event_post(a: Ctx, ev: Event, b: Ctx) -> bool {
    &&& same_structure(a, b)
    &&& match ev {
        Event::Text(s) => b.footnotes == a.footnotes && text_added(a, escaped_text(s@), b),
        Event::InlineHtml(s) => b.footnotes == a.footnotes && text_added(a, escaped_text(s@), b),
        Event::Html(s) => b.footnotes == a.footnotes && if a.capture_depth == 0 {
            text_added(a, escaped_text(s@), b)
        } else {
            b.run == a.run && b.captured == a.captured
        },
        Event::SoftBreak => b.footnotes == a.footnotes && text_added(
            a,
            seq![if a.capture_depth == 0 || a.in_code { '\n' } else { ' ' }],
            b,
        ),
        Event::HardBreak => b.footnotes == a.footnotes && if a.capture_depth == 0 {
            emitted(b.run, a.run) && b.run.nodes@.last() == Inline::LineBreak && b.captured == a.captured
        } else {
            b.captured@ == a.captured@.push(' ') && b.run == a.run
        },
        Event::FootnoteReference(name) => {
            let n = number_of(a.footnotes.view_names(), name@);
            &&& b.footnotes.view_names() == registered(a.footnotes.view_names(), name@)
            &&& if a.capture_depth == 0 {
                emitted(b.run, a.run) && is_text_node(b.run.nodes@.last(), decimal(n as nat), seq![])
                    && b.captured == a.captured
            } else {
                b.captured@ == a.captured@ + seq!['['] + decimal(n as nat) + seq![']'] && b.run == a.run
            }
        },
        _ => true,
    }
}

/// The live text that an entity link's trim applies to is long enough.
pub open spec fn trim_fits(a: Ctx, trim: usize) -> bool {
    if a.capture_depth == 0 {
        trim <= a.run.pending@.len()
    } else {
        trim <= a.captured@.len()
    }
}

/// The frame that `b` has opened on top for `tag`, with its payload, and what
/// opening it did to the rest of the state of `a`.
pub open spec fn opened(a: Ctx, tag: Tag, b: Ctx) -> bool {
    let f = b.frames@.last();
    match tag {
        Tag::Paragraph => f is Paragraph,
        Tag::Rule => f is Rule,
        Tag::Header(l) => f matches Frame::Heading { level } && level == l,
        Tag::Table(al) => {
            &&& f is Table
            &&& b.table.alignments@ == al@
            &&& b.table.phase == TablePhase::Head
            &&& b.table.cell_index == 0
            &&& b.table.header@.len() == 0 && b.table.rows@.len() == 0 && b.table.row@.len() == 0
            &&& b.outer_tables@ == a.outer_tables@.push(a.table)
        },
        Tag::TableHead => f is TableHead && b.table == a.table,
        Tag::TableRow => {
            &&& f is TableRow
            &&& b.table.cell_index == 0 && b.table.row@.len() == 0
            &&& b.table.header@ == a.table.header@ && b.table.rows@ == a.table.rows@
            &&& b.table.alignments@ == a.table.alignments@
            &&& b.table.phase == if a.frames@.len() > 0 && frame_kind_of(a.frames@.last()) == TagKind::Table {
                TablePhase::Body
            } else {
                a.table.phase
            }
        },
        Tag::TableCell => f is TableCell && b.table == a.table,
        Tag::BlockQuote => f matches Frame::BlockQuote { blocks } && blocks@.len() == 0,
        Tag::CodeBlock(info) => {
            &&& f matches Frame::CodeBlock { language } && (match language {
                Some(l) => info_language(info@) == Some(l@),
                None => info_language(info@) is None,
            })
            &&& b.in_code && b.capture_depth > 0
            &&& a.capture_depth == 0 ==> b.captured@.len() == 0
        },
        Tag::List(o) => f matches Frame::List { ordered, start, items } && ordered == o is Some
            && start == (match o {
            Some(n) => n,
            None => 1u64,
        }) && items@.len() == 0,
        Tag::Item => f matches Frame::Item { blocks } && blocks@.len() == 0,
        Tag::Spoiler => f matches Frame::Spoiler { outer, active } && active == (a.capture_depth == 0) && (
        active ==> flushed_content(outer@, a.run) && b.run.nodes@.len() == 0 && b.run.pending@.len() == 0
            && b.run.ranges@.len() == 0 && b.run.open@ == spans_restarted(a.run.open@)) && (!active
            ==> b.run == a.run),
        Tag::Link(url, _) => {
            &&& f matches Frame::Link { url: u } && u@ == escaped_url(url@)
            &&& b.capture_depth > 0
            &&& a.capture_depth == 0 ==> flushed_content(b.run.nodes@, a.run) && b.run.pending@.len() == 0
                && b.captured@.len() == 0
        },
        Tag::EntityLink(kind, id, trim) => {
            &&& f is EntityLink
            &&& b.capture_depth > 0
            &&& if a.capture_depth == 0 {
                let n = a.run.pending@.len() - trim;
                &&& emitted_parts(
                    b.run,
                    a.run.nodes@,
                    a.run.pending@.subrange(0, n),
                    ranges_cut(a.run.ranges@, n),
                    spans_cut(a.run.open@, n),
                )
                &&& is_entity_node(b.run.nodes@.last(), kind, escaped_text(id@))
                &&& b.captured@.len() == 0
            } else {
                b.captured@ == a.captured@.subrange(0, a.captured@.len() - trim) && b.run == a.run
            }
        },
        Tag::Image(url, title) => {
            &&& f matches Frame::Image { url: u, title: t } && u == url && t == title
            &&& b.capture_depth > 0 && b.run == a.run
            &&& a.capture_depth == 0 ==> b.captured@.len() == 0
        },
        Tag::FootnoteDefinition(name) => {
            &&& f matches Frame::FootnoteDefinition { number, blocks } && blocks@.len() == 0
                && number == number_of(a.footnotes.view_names(), name@)
            &&& b.footnotes.view_names() == registered(a.footnotes.view_names(), name@)
        },
        _ => {
            &&& f matches Frame::Style { kind, counted } && kind == tag_kind_of(tag) && counted == (
            a.capture_depth == 0)
            &&& style_of(tag_kind_of(tag)) matches Some(bit) && (a.capture_depth == 0 ==> b.run.open@
                == a.run.open@.push(OpenSpan { style: bit, start: a.run.pending@.len() as usize })
                && b.run.pending@ == a.run.pending@ && b.run.nodes@ == a.run.nodes@ && b.run.ranges@
                == a.run.ranges@)
            &&& a.capture_depth > 0 ==> b.run == a.run
        },
    }
}

/// The run after its content was handed out: nothing finished or pending,
/// no recorded range, the open spans restarted at 0.
pub open spec fn run_cleared(a: InlineRun, b: InlineRun) -> bool {
    &&& b.nodes@.len() == 0 && b.pending@.len() == 0 && b.ranges@.len() == 0
    &&& b.open@ == spans_restarted(a.open@)
}

/// `fs` are the frames of `a` after its stray inline content was settled:
/// unchanged, but when there is such content and the innermost frame is a list
/// item, block quote or footnote definition, which then gains it as a paragraph.
pub open spec fn settled(a: Ctx, fs: Seq<Frame>) -> bool {
    if a.frames@.len() == 0 || (a.run.nodes@.len() == 0 && a.run.pending@.len() == 0) {
        fs == a.frames@
    } else {
        &&& fs.len() == a.frames@.len()
        &&& fs.drop_last() == a.frames@.drop_last()
        &&& match a.frames@.last() {
            Frame::Item { blocks } => fs.last() matches Frame::Item { blocks: bs } && gained_paragraph(
                blocks@,
                bs@,
                a.run,
            ),
            Frame::BlockQuote { blocks } => fs.last() matches Frame::BlockQuote { blocks: bs }
                && gained_paragraph(blocks@, bs@, a.run),
            Frame::FootnoteDefinition { number, blocks } => fs.last() matches Frame::FootnoteDefinition {
                number: m,
                blocks: bs,
            } && m == number && gained_paragraph(blocks@, bs@, a.run),
            _ => fs.last() == a.frames@.last(),
        }
    }
}

/// `bs` is `blocks` followed by a paragraph of what `run` holds.
pub open spec fn gained_paragraph(blocks: Seq<Block>, bs: Seq<Block>, run: InlineRun) -> bool {
    &&& bs.len() == blocks.len() + 1
    &&& bs.drop_last() == blocks
    &&& bs.last() matches Block::Paragraph { content } && flushed_content(content@, run)
}

/// A capture depth one deeper, as far as a `usize` goes.
pub open spec fn deeper(d: usize) -> usize {
    if d < usize::MAX {
        (d + 1) as usize
    } else {
        d
    }
}

/// A capture depth one shallower, not below 0.
pub open spec fn shallower(d: usize) -> usize {
    if d > 0 {
        (d - 1) as usize
    } else {
        0
    }
}

/// The capture fields are as they were.
pub open spec fn same_capture(a: Ctx, b: Ctx) -> bool {
    b.captured == a.captured && b.capture_depth == a.capture_depth && b.in_code == a.in_code
}

/// The table state and the saved outer tables are as they were.
pub open spec fn same_tables(a: Ctx, b: Ctx) -> bool {
    b.table == a.table && b.outer_tables == a.outer_tables
}

/// The state that a start event leaves beside the frame it opens.
pub open spec fn start_keeps(a: Ctx, tag: Tag, b: Ctx) -> bool {
    match tag {
        Tag::Table(_) => b.footnotes == a.footnotes && same_capture(a, b),
        Tag::TableRow => b.footnotes == a.footnotes && same_capture(a, b) && b.outer_tables == a.outer_tables,
        Tag::CodeBlock(_) => {
            &&& b.footnotes == a.footnotes && same_tables(a, b)
            &&& b.capture_depth == deeper(a.capture_depth)
            &&& a.capture_depth > 0 ==> b.captured == a.captured
        },
        Tag::FootnoteDefinition(_) => same_capture(a, b) && same_tables(a, b),
        Tag::Paragraph | Tag::Rule | Tag::Header(_) | Tag::TableHead | Tag::TableCell | Tag::BlockQuote
        | Tag::List(_) | Tag::Item => b.footnotes == a.footnotes && same_capture(a, b) && same_tables(a, b),
        Tag::Link(_, _) | Tag::EntityLink(_, _, _) | Tag::Image(_, _) => {
            &&& b.footnotes == a.footnotes && same_tables(a, b) && b.in_code == a.in_code
            &&& b.capture_depth == deeper(a.capture_depth)
            &&& a.capture_depth > 0 && !(tag is EntityLink) ==> b.captured == a.captured
            &&& a.capture_depth > 0 && tag is Link ==> b.run == a.run
            &&& a.capture_depth == 0 && tag is Link ==> b.run.ranges@.len() == 0 && b.run.open@
                == spans_restarted(a.run.open@)
        },
        _ => b.footnotes == a.footnotes && same_capture(a, b) && same_tables(a, b),
    }
}

/// Tags whose start event first settles stray inline content.
pub open spec fn is_block_start(tag: Tag) -> bool {
    match tag {
        Tag::Paragraph | Tag::Rule | Tag::Header(_) | Tag::Table(_) | Tag::TableHead | Tag::TableRow
        | Tag::TableCell | Tag::BlockQuote | Tag::CodeBlock(_) | Tag::List(_) | Tag::Item
        | Tag::FootnoteDefinition(_) => true,
        _ => false,
    }
}

/// The state that closing the top frame of `a` leaves beside the frames and
/// blocks.
pub open spec fn end_keeps(a: Ctx, b: Ctx) -> bool {
    &&& b.footnotes == a.footnotes
    &&& match a.frames@.last() {
        Frame::Paragraph | Frame::Heading { .. } | Frame::Item { .. } => run_cleared(a.run, b.run)
            && same_capture(a, b) && same_tables(a, b),
        Frame::Rule | Frame::BlockQuote { .. } | Frame::FootnoteDefinition { .. } | Frame::List { .. } => b.run
            == a.run && same_capture(a, b) && same_tables(a, b),
        Frame::Table => {
            &&& b.run == a.run && same_capture(a, b)
            &&& a.outer_tables@.len() > 0 ==> b.table == a.outer_tables@.last() && b.outer_tables@
                == a.outer_tables@.drop_last()
            &&& a.outer_tables@.len() == 0 ==> b.outer_tables@ == a.outer_tables@ && b.table.alignments@.len()
                == 0 && b.table.phase == TablePhase::Head && b.table.cell_index == 0 && b.table.header@.len()
                == 0 && b.table.rows@.len() == 0 && b.table.row@.len() == 0
        },
        Frame::TableHead => b.run == a.run && same_capture(a, b) && b.outer_tables == a.outer_tables
            && b.table.row@ == a.table.row@ && b.table.cell_index == a.table.cell_index,
        Frame::TableRow => b.run == a.run && same_capture(a, b) && b.outer_tables == a.outer_tables
            && b.table.alignments@ == a.table.alignments@ && b.table.cell_index == a.table.cell_index,
        Frame::TableCell => {
            &&& run_cleared(a.run, b.run) && same_capture(a, b) && b.outer_tables == a.outer_tables
            &&& b.table.cell_index == deeper(a.table.cell_index)
            &&& b.table.alignments@ == a.table.alignments@
            &&& b.table.rows@ == a.table.rows@
            &&& a.table.phase == TablePhase::Head ==> b.table.row@ == a.table.row@
            &&& a.table.phase == TablePhase::Body ==> b.table.header@ == a.table.header@
        },
        Frame::CodeBlock { .. } => b.run == a.run && same_tables(a, b) && !b.in_code && b.capture_depth
            == shallower(a.capture_depth) && b.captured@.len() == 0,
        Frame::Style { counted, .. } => same_capture(a, b) && same_tables(a, b) && (!counted ==> b.run
            == a.run),
        Frame::Spoiler { active, .. } => same_capture(a, b) && same_tables(a, b) && (active ==> b.run.pending@.len()
            == 0 && b.run.ranges@.len() == 0 && b.run.open@ == spans_restarted(a.run.open@)) && (!active
            ==> b.run == a.run),
        Frame::Link { .. } | Frame::Image { .. } | Frame::EntityLink => {
            &&& same_tables(a, b) && b.in_code == a.in_code
            &&& b.capture_depth == shallower(a.capture_depth)
            &&& a.capture_depth <= 1 ==> b.captured@.len() == 0
            &&& a.capture_depth > 1 ==> b.captured == a.captured && b.run == a.run
            &&& a.frames@.last() is EntityLink ==> b.run == a.run
        },
    }
}

/// What a start event does.
pub open spec fn start_post(a: Ctx, tag: Tag, position: usize, b: Ctx, r: Result<(), CompileError>) -> bool {
    &&& r is Err ==> r == Err::<(), CompileError>(CompileError::SpliceOverrun { position }) && b == a
    &&& tag matches Tag::EntityLink(_, _, trim) ==> (r is Ok <==> trim_fits(a, trim))
    &&& !(tag is EntityLink) ==> r is Ok
    &&& r is Ok ==> b.frames@.len() == a.frames@.len() + 1 && b.blocks == a.blocks && opened(a, tag, b)
    &&& r is Ok ==> start_keeps(a, tag, b)
    &&& r is Ok && is_block_start(tag) ==> settled(a, b.frames@.drop_last()) && run_cleared(a.run, b.run)
    &&& r is Ok && !is_block_start(tag) ==> b.frames@.drop_last() == a.frames@
}

/// `q` is the frame `p` after it received the block that closing the top
/// frame of `a` made, if `p` holds blocks; otherwise `q` is `p`.
pub open spec fn received(p: Frame, q: Frame, a: Ctx) -> bool {
    match p {
        Frame::Item { blocks } => q matches Frame::Item { blocks: bs } && bs@.len() == blocks@.len() + 1
            && bs@.drop_last() == blocks@ && closes_into(a, bs@.last()),
        Frame::BlockQuote { blocks } => q matches Frame::BlockQuote { blocks: bs } && bs@.len()
            == blocks@.len() + 1 && bs@.drop_last() == blocks@ && closes_into(a, bs@.last()),
        Frame::FootnoteDefinition { number, blocks } => q matches Frame::FootnoteDefinition {
            number: m,
            blocks: bs,
        } && m == number && bs@.len() == blocks@.len() + 1 && bs@.drop_last() == blocks@ && closes_into(
            a,
            bs@.last(),
        ),
        Frame::List { ordered, start, items } => q matches Frame::List { ordered: o, start: s, items: its }
            && o == ordered && s == start && its@.len() == items@.len() + 1 && its@.drop_last() == items@
            && closes_into(a, its@.last()),
        _ => q == p,
    }
}

/// `q` is the frame `p` with the block `b` appended, if `p` holds blocks;
/// otherwise `q` is `p`.
pub open spec fn frame_got(p: Frame, q: Frame, b: Block) -> bool {
    match p {
        Frame::Item { blocks } => q matches Frame::Item { blocks: bs } && bs@.len() == blocks@.len() + 1
            && bs@.drop_last() == blocks@ && bs@.last() == b,
        Frame::BlockQuote { blocks } => q matches Frame::BlockQuote { blocks: bs } && bs@.len() == blocks@.len()
            + 1 && bs@.drop_last() == blocks@ && bs@.last() == b,
        Frame::FootnoteDefinition { number, blocks } => q matches Frame::FootnoteDefinition {
            number: m,
            blocks: bs,
        } && m == number && bs@.len() == blocks@.len() + 1 && bs@.drop_last() == blocks@ && bs@.last() == b,
        Frame::List { ordered, start, items } => q matches Frame::List { ordered: o, start: s, items: its }
            && o == ordered && s == start && its@.len() == items@.len() + 1 && its@.drop_last() == items@
            && its@.last() == b,
        _ => q == p,
    }
}

/// What closing the top frame of `a`, which is not a block, did.
pub open spec fn closed_inline(a: Ctx, b: Ctx) -> bool {
    match a.frames@.last() {
        Frame::TableHead => b.table.phase == TablePhase::Body && b.table.header@ == a.table.header@
            && b.table.rows@ == a.table.rows@ && b.table.alignments@ == a.table.alignments@,
        Frame::TableRow => b.table.phase == a.table.phase && b.table.header@ == a.table.header@
            && b.table.row@.len() == 0 && (a.table.phase == TablePhase::Body ==> b.table.rows@
            == a.table.rows@.push(a.table.row)) && (a.table.phase == TablePhase::Head ==> b.table.rows@
            == a.table.rows@),
        Frame::TableCell => {
            let cells = if a.table.phase == TablePhase::Head { a.table.header@ } else { a.table.row@ };
            let now = if a.table.phase == TablePhase::Head { b.table.header@ } else { b.table.row@ };
            &&& now.len() == cells.len() + 1 && now.drop_last() == cells
            &&& now.last().align == column_alignment(a.table.alignments@, a.table.cell_index as int)
            &&& flushed_content(now.last().content@, a.run)
            &&& b.table.phase == a.table.phase
        },
        Frame::Style { counted, .. } => if counted {
            &&& a.run.open@.len() > 0 ==> b.run.open@ == a.run.open@.drop_last() && b.run.ranges@
                == a.run.ranges@ + span_range(a.run.open@.last(), a.run.pending@.len() as int)
            &&& b.run.pending@ == a.run.pending@ && b.run.nodes@ == a.run.nodes@
        } else {
            b.run == a.run
        },
        Frame::Spoiler { outer, active } => active ==> {
            &&& b.run.nodes@.len() == outer@.len() + 1
            &&& b.run.nodes@.drop_last() == outer@
            &&& b.run.nodes@.last() matches Inline::Spoiler { content } && flushed_content(content@, a.run)
        },
        Frame::Link { url } => a.capture_depth <= 1 ==> {
            &&& emitted(b.run, a.run)
            &&& b.run.nodes@.last() matches Inline::Link { text, url: u } && text@ == a.captured@ && u == url
        },
        Frame::Image { url, title } => a.capture_depth <= 1 ==> {
            &&& emitted(b.run, a.run)
            &&& b.run.nodes@.last() matches Inline::Image { url: u, title: t, alt } && alt@ == a.captured@
                && u == url && t == title
        },
        _ => true,
    }
}

/// What an end event does.
pub open spec fn end_post(a: Ctx, tag: Tag, position: usize, b: Ctx, r: Result<(), CompileError>) -> bool {
    let len = a.frames@.len();
    &&& r is Err ==> r == Err::<(), CompileError>(CompileError::StructuralMismatch { position }) && b == a
    &&& r is Ok && is_block_kind(tag_kind_of(tag)) && len == 1 ==> {
        &&& b.blocks@.len() == a.blocks@.len() + 1
        &&& b.blocks@.drop_last() == a.blocks@
        &&& closes_into(a, b.blocks@.last())
        &&& b.frames@.len() == 0
    }
    &&& r is Ok ==> end_keeps(a, b)
    &&& r is Ok && is_block_kind(tag_kind_of(tag)) && len > 1 ==> {
        &&& b.blocks == a.blocks
        &&& b.frames@.len() == len - 1
        &&& b.frames@.drop_last() == a.frames@.subrange(0, len - 2)
        &&& received(a.frames@[len - 2], b.frames@.last(), a)
    }
    &&& r is Ok && !is_block_kind(tag_kind_of(tag)) ==> b.blocks == a.blocks && b.frames@ == a.frames@.drop_last()
        && closed_inline(a, b)
}

/// What one event does to the compilation.
pub open spec fn step_post(a: Ctx, ev: Event, position: usize, b: Ctx, r: Result<(), CompileError>) -> bool {
    &&& r is Ok ==> nest_step(a.nesting_view(), ev) == Some(b.nesting_view())
    &&& nest_step(a.nesting_view(), ev) is None <==> r == Err::<(), CompileError>(
        CompileError::StructuralMismatch { position },
    )
    &&& r matches Err(CompileError::StructuralMismatch { position: p }) ==> p == position
    &&& match ev {
        Event::Start(tag) => start_post(a, tag, position, b, r),
        Event::End(tag) => end_post(a, tag, position, b, r),
        _ => r is Ok && inline_event_post(a, ev, b),
    }
}

/// `t` is the sequence of states that a compilation passes through on
/// `evs`, from `t[0]`: one step per event, each as `step_post` says, all
/// successful up to the last one taken, which gives `r`; after a success every
/// event has been taken, after an error none past the failing one.
pub open spec fn is_trace(t: Seq<Ctx>, evs: Seq<Event>, r: Result<(), CompileError>) -> bool {
    let k = t.len() - 1;
    &&& t.len() >= 1 && k <= evs.len()
    &&& forall|i: int| #![trigger t[i]] 0 <= i < k && (r is Ok || i < k - 1) ==> step_post(
        t[i],
        evs[i],
        i as usize,
        t[i + 1],
        Ok(()),
    )
    &&& r is Ok ==> k == evs.len()
    &&& r is Err ==> k >= 1 && step_post(t[k - 1], evs[k - 1], (k - 1) as usize, t[k], r)
}

/// `t` is the trace of a whole compilation of `evs` from a fresh state, and
/// `r` is its outcome: the blocks of the last state when every event was
/// taken and no frame is left open.
pub open spec fn compiled(t: Seq<Ctx>, evs: Seq<Event>, r: Result<Document, CompileError>) -> bool {
    &&& t.len() >= 1 && t[0].is_fresh()
    &&& match r {
        Ok(d) => is_trace(t, evs, Ok(())) && t.last().frames@.len() == 0 && d.blocks == t.last().blocks,
        Err(e) => is_trace(t, evs, Err(e)) || (is_trace(t, evs, Ok(())) && t.last().frames@.len() > 0 && e
            == CompileError::StructuralMismatch { position: evs.len() as usize }),
    }
}

/// The state of one compilation.
pub struct Ctx {
    pub frames: Vec<Frame>,
    pub run: InlineRun,
    pub captured: Vec<char>,
    pub capture_depth: usize,
    pub in_code: bool,
    pub table: TableState,
    pub outer_tables: Vec<TableState>,
    pub footnotes: FootnoteRegistry,
    pub blocks: Vec<Block>,
}

impl Ctx {
    pub open spec fn wf(&self) -> bool {
        &&& self.run.wf()
        &&& self.table.wf()
        &&& forall|i: int| 0 <= i < self.outer_tables@.len() ==> (#[trigger] self.outer_tables@[i]).wf()
        &&& blocks_wf(self.blocks@)
        &&& frames_wf(self.frames@)
    }

    /// The nesting the compilation has reached: the kinds of the open frames
    /// and of the blocks finished at the top level.
    pub open spec fn nesting_view(&self) -> Nesting {
        Nesting { open: frame_kinds(self.frames@), top: block_kinds(self.blocks@) }
    }

    /// Nothing has been read yet.
    pub open spec fn is_fresh(&self) -> bool {
        &&& self.wf()
        &&& self.frames@.len() == 0 && self.blocks@.len() == 0
        &&& self.run.nodes@.len() == 0 && self.run.pending@.len() == 0
        &&& self.run.open@.len() == 0 && self.run.ranges@.len() == 0
        &&& self.captured@.len() == 0 && self.capture_depth == 0 && !self.in_code
        &&& self.footnotes.view_names().len() == 0
        &&& self.outer_tables@.len() == 0
        &&& self.table.alignments@.len() == 0 && self.table.phase == TablePhase::Head
        &&& self.table.cell_index == 0 && self.table.header@.len() == 0
        &&& self.table.rows@.len() == 0 && self.table.row@.len() == 0
    }

    pub fn new() -> (r: Ctx)
        ensures
            r.is_fresh(),
            r.wf(),
            r.nesting_view() == (Nesting { open: seq![], top: seq![] }),
    {
        let r = Ctx {
            frames: Vec::new(),
            run: InlineRun::new(),
            captured: Vec::new(),
            capture_depth: 0,
            in_code: false,
            table: TableState::new(Vec::new()),
            outer_tables: Vec::new(),
            footnotes: FootnoteRegistry::new(),
            blocks: Vec::new(),
        };
        assert(r.nesting_view().open =~= Seq::<TagKind>::empty());
        assert(r.nesting_view().top =~= Seq::<TagKind>::empty());
        r
    }

    /// Inline content gathered outside any paragraph becomes a paragraph of
    /// the innermost frame when that is a list item, a block quote or a
    /// footnote definition; elsewhere (at the top level, or in a list or a
    /// table) it is dropped.
    fn settle(&mut self)
        requires
            old(self).wf(),
        ensures
            final(self).wf(),
            final(self).nesting_view() == old(self).nesting_view(),
            final(self).capture_depth == old(self).capture_depth,
            final(self).run.nodes@.len() == 0,
            final(self).run.pending@.len() == 0,
            final(self).blocks == old(self).blocks,
            final(self).table == old(self).table,
            final(self).outer_tables == old(self).outer_tables,
            final(self).footnotes == old(self).footnotes,
            final(self).captured == old(self).captured,
            final(self).in_code == old(self).in_code,
            settled(*old(self), final(self).frames@),
            run_cleared(old(self).run, final(self).run),
    {
        let content = self.run.take_nodes();
        if content.len() == 0 {
            return;
        }
        let ghost fs = self.frames@;
        match self.frames.pop() {
            None => {},
            Some(f) => {
                proof {
                    lemma_frames_pop(fs);
                }
                let g = match f {
                    Frame::Item { mut blocks } => {
                        let b = Block::Paragraph { content };
                        let ghost b0 = blocks@;
                        proof {
                            lemma_blocks_push(blocks@, b);
                        }
                        blocks.push(b);
                        assert(blocks@.drop_last() =~= b0);
                        Frame::Item { blocks }
                    },
                    Frame::BlockQuote { mut blocks } => {
                        let b = Block::Paragraph { content };
                        let ghost b0 = blocks@;
                        proof {
                            lemma_blocks_push(blocks@, b);
                        }
                        blocks.push(b);
                        assert(blocks@.drop_last() =~= b0);
                        Frame::BlockQuote { blocks }
                    },
                    Frame::FootnoteDefinition { number, mut blocks } => {
                        let b = Block::Paragraph { content };
                        let ghost b0 = blocks@;
                        proof {
                            lemma_blocks_push(blocks@, b);
                        }
                        blocks.push(b);
                        assert(blocks@.drop_last() =~= b0);
                        Frame::FootnoteDefinition { number, blocks }
                    },
                    other => other,
                };
                proof {
                    lemma_frames_push(fs.drop_last(), g);
                    assert(fs.drop_last().push(g) =~= self.frames@.push(g));
                    assert(frame_kinds(fs) =~= frame_kinds(fs).drop_last().push(frame_kinds(fs).last()));
                }
                self.frames.push(g);
                assert(self.frames@.drop_last() =~= fs.drop_last());
            },
        }
    }

    /// Appends a finished block to the innermost open frame that holds
    /// blocks, or to the document when no frame is open.
    fn append_block(&mut self, b: Block)
        requires
            old(self).wf(),
            block_wf(b),
        ensures
            final(self).wf(),
            final(self).nesting_view().open == old(self).nesting_view().open,
            old(self).frames@.len() == 0 ==> final(self).nesting_view().top == old(self).nesting_view().top.push(
                block_kind_of(b),
            ) && final(self).blocks@ == old(self).blocks@.push(b),
            old(self).frames@.len() > 0 ==> final(self).nesting_view().top == old(self).nesting_view().top
                && final(self).blocks == old(self).blocks && final(self).frames@.len() == old(self).frames@.len()
                && final(self).frames@.drop_last() == old(self).frames@.drop_last() && frame_got(
                old(self).frames@.last(),
                final(self).frames@.last(),
                b,
            ),
            final(self).capture_depth == old(self).capture_depth,
            final(self).run == old(self).run,
            final(self).table == old(self).table,
            final(self).captured == old(self).captured,
            final(self).in_code == old(self).in_code,
            final(self).footnotes == old(self).footnotes,
            final(self).outer_tables == old(self).outer_tables,
    {
        let ghost fs = self.frames@;
        match self.frames.pop() {
            None => {
                proof {
                    lemma_blocks_push(self.blocks@, b);
                }
                self.blocks.push(b);
            },
            Some(f) => {
                proof {
                    lemma_frames_pop(fs);
                }
                let g = match f {
                    Frame::Item { mut blocks } => {
                        let ghost b0 = blocks@;
                        proof {
                            lemma_blocks_push(blocks@, b);
                        }
                        blocks.push(b);
                        assert(blocks@.drop_last() =~= b0);
                        Frame::Item { blocks }
                    },
                    Frame::BlockQuote { mut blocks } => {
                        let ghost b0 = blocks@;
                        proof {
                            lemma_blocks_push(blocks@, b);
                        }
                        blocks.push(b);
                        assert(blocks@.drop_last() =~= b0);
                        Frame::BlockQuote { blocks }
                    },
                    Frame::FootnoteDefinition { number, mut blocks } => {
                        let ghost b0 = blocks@;
                        proof {
                            lemma_blocks_push(blocks@, b);
                        }
                        blocks.push(b);
                        assert(blocks@.drop_last() =~= b0);
                        Frame::FootnoteDefinition { number, blocks }
                    },
                    Frame::List { ordered, start, mut items } => {
                        let ghost i0 = items@;
                        proof {
                            lemma_blocks_push(items@, b);
                        }
                        items.push(b);
                        assert(items@.drop_last() =~= i0);
                        Frame::List { ordered, start, items }
                    },
                    other => other,
                };
                proof {
                    lemma_frames_push(fs.drop_last(), g);
                    assert(fs.drop_last().push(g) =~= self.frames@.push(g));
                    assert(frame_kinds(fs) =~= frame_kinds(fs).drop_last().push(frame_kinds(fs).last()));
                }
                self.frames.push(g);
                assert(self.frames@.drop_last() =~= fs.drop_last());
            },
        }
    }

    fn begin_capture(&mut self)
        ensures
            final(self).frames == old(self).frames,
            final(self).blocks == old(self).blocks,
            final(self).run == old(self).run,
            final(self).table == old(self).table,
            final(self).outer_tables == old(self).outer_tables,
            final(self).capture_depth > 0,
            final(self).capture_depth == deeper(old(self).capture_depth),
            final(self).in_code == old(self).in_code,
            final(self).footnotes == old(self).footnotes,
            old(self).capture_depth == 0 ==> final(self).captured@.len() == 0,
            old(self).capture_depth > 0 ==> final(self).captured == old(self).captured,
    {
        if self.capture_depth == 0 {
            self.captured = Vec::new();
        }
        if self.capture_depth < usize::MAX {
            self.capture_depth = self.capture_depth + 1;
        }
    }

    /// Leaves a capturing construct; true when it was the outermost one.
    fn end_capture(&mut self) -> (outermost: bool)
        ensures
            final(self).frames == old(self).frames,
            final(self).blocks == old(self).blocks,
            final(self).run == old(self).run,
            final(self).table == old(self).table,
            final(self).outer_tables == old(self).outer_tables,
            final(self).captured == old(self).captured,
            final(self).in_code == old(self).in_code,
            final(self).footnotes == old(self).footnotes,
            outermost == (final(self).capture_depth == 0),
            outermost == (old(self).capture_depth <= 1),
            final(self).capture_depth == shallower(old(self).capture_depth),
    {
        if self.capture_depth > 0 {
            self.capture_depth = self.capture_depth - 1;
        }
        self.capture_depth == 0
    }

    fn take_captured(&mut self) -> (r: Vec<char>)
        ensures
            final(self).frames == old(self).frames,
            final(self).blocks == old(self).blocks,
            final(self).run == old(self).run,
            final(self).table == old(self).table,
            final(self).outer_tables == old(self).outer_tables,
            final(self).capture_depth == old(self).capture_depth,
            final(self).in_code == old(self).in_code,
            final(self).footnotes == old(self).footnotes,
            r@ == old(self).captured@,
            final(self).captured@.len() == 0,
    {
        let mut r: Vec<char> = Vec::new();
        std::mem::swap(&mut r, &mut self.captured);
        r
    }

    fn open_style(&mut self, style: u8, kind: TagKind) -> (f: Frame)
        requires
            old(self).wf(),
            !is_block_kind(kind),
        ensures
            final(self).wf(),
            final(self).nesting_view() == old(self).nesting_view(),
            frame_kind_of(f) == kind,
            f matches Frame::Style { kind: k, counted } && k == kind && counted == (old(self).capture_depth == 0),
            frame_wf(f),
            final(self).capture_depth == old(self).capture_depth,
            final(self).captured == old(self).captured,
            final(self).footnotes == old(self).footnotes,
            final(self).frames == old(self).frames,
            final(self).blocks == old(self).blocks,
            final(self).table == old(self).table,
            final(self).outer_tables == old(self).outer_tables,
            final(self).in_code == old(self).in_code,
            old(self).capture_depth == 0 ==> final(self).run.open@ == old(self).run.open@.push(
                OpenSpan { style, start: old(self).run.pending@.len() as usize },
            ) && final(self).run.pending@ == old(self).run.pending@ && final(self).run.nodes@
                == old(self).run.nodes@ && final(self).run.ranges@ == old(self).run.ranges@,
            old(self).capture_depth > 0 ==> final(self).run == old(self).run,
    {
        if self.capture_depth == 0 {
            self.run.open_style(style);
            Frame::Style { kind, counted: true }
        } else {
            Frame::Style { kind, counted: false }
        }
    }

    /// Handles a start event: opens a frame for the tag. Fails only when an
    /// entity link asks to take back more characters than are pending.
    fn start(&mut self, tag: Tag, position: usize) -> (r: Result<(), CompileError>)
        requires
            old(self).wf(),
        ensures
            final(self).wf(),
            r is Ok ==> final(self).nesting_view() == (Nesting {
                open: old(self).nesting_view().open.push(tag_kind_of(tag)),
                top: old(self).nesting_view().top,
            }),
            start_post(*old(self), tag, position, *final(self), r),
    {
        let ghost k = tag_kind_of(tag);
        let frame = match tag {
            Tag::Paragraph => {
                self.settle();
                Frame::Paragraph
            },
            Tag::Rule => {
                self.settle();
                Frame::Rule
            },
            Tag::Header(level) => {
                self.settle();
                Frame::Heading { level }
            },
            Tag::Table(alignments) => {
                self.settle();
                let mut t = TableState::new(alignments);
                std::mem::swap(&mut t, &mut self.table);
                let ghost ts = self.outer_tables@;
                self.outer_tables.push(t);
                assert forall|i: int| 0 <= i < self.outer_tables@.len() implies (
                #[trigger] self.outer_tables@[i]).wf() by {
                    if i < ts.len() {
                        assert(self.outer_tables@[i] == ts[i]);
                    }
                }
                Frame::Table
            },
            Tag::TableHead => {
                self.settle();
                Frame::TableHead
            },
            Tag::TableRow => {
                let n = self.frames.len();
                let under_table = n > 0 && frame_kind(&self.frames[n - 1]) == TagKind::Table;
                self.settle();
                if under_table {
                    self.table.end_head();
                }
                self.table.start_row();
                Frame::TableRow
            },
            Tag::TableCell => {
                self.settle();
                Frame::TableCell
            },
            Tag::BlockQuote => {
                self.settle();
                Frame::BlockQuote { blocks: Vec::new() }
            },
            Tag::CodeBlock(info) => {
                self.settle();
                self.begin_capture();
                self.in_code = true;
                Frame::CodeBlock { language: code_language(&info) }
            },
            Tag::List(ordering) => {
                self.settle();
                Frame::List { ordered: ordering.is_some(), start: list_start(ordering), items: Vec::new() }
            },
            Tag::Item => {
                self.settle();
                Frame::Item { blocks: Vec::new() }
            },
            Tag::Emphasis => self.open_style(STYLE_ITALIC, TagKind::Emphasis),
            Tag::Strong => self.open_style(STYLE_BOLD, TagKind::Strong),
            Tag::Underline => self.open_style(STYLE_UNDERLINE, TagKind::Underline),
            Tag::Strikethrough => self.open_style(STYLE_STRIKETHROUGH, TagKind::Strikethrough),
            Tag::Subscript => self.open_style(STYLE_SUBSCRIPT, TagKind::Subscript),
            Tag::Superscript => self.open_style(STYLE_SUPERSCRIPT, TagKind::Superscript),
            Tag::Code => self.open_style(STYLE_CODE, TagKind::Code),
            Tag::Spoiler => {
                if self.capture_depth == 0 {
                    self.run.flush();
                    let outer = self.run.replace_nodes(Vec::new());
                    Frame::Spoiler { outer, active: true }
                } else {
                    Frame::Spoiler { outer: Vec::new(), active: false }
                }
            },
            Tag::Link(url, _title) => {
                if self.capture_depth == 0 {
                    self.run.flush();
                }
                self.begin_capture();
                Frame::Link { url: escape_url(&url) }
            },
            Tag::EntityLink(kind, id, trim) => {
                if self.capture_depth == 0 {
                    if !self.run.splice(trim) {
                        return Err(CompileError::SpliceOverrun { position });
                    }
                    self.run.emit(Inline::EntityLink { kind, id: escape_text(&id) });
                } else {
                    if trim > self.captured.len() {
                        return Err(CompileError::SpliceOverrun { position });
                    }
                    let keep = self.captured.len() - trim;
                    self.captured.truncate(keep);
                }
                self.begin_capture();
                Frame::EntityLink
            },
            Tag::Image(url, title) => {
                self.begin_capture();
                Frame::Image { url, title }
            },
            Tag::FootnoteDefinition(name) => {
                self.settle();
                let number = self.footnotes.number_for(&name);
                Frame::FootnoteDefinition { number, blocks: Vec::new() }
            },
        };
        assert(frame_kind_of(frame) == k);
        let ghost below = self.frames@;
        proof {
            lemma_frames_push(self.frames@, frame);
        }
        self.frames.push(frame);
        assert(self.frames@.drop_last() =~= below);
        Ok(())
    }

    /// Handles an end event: closes the innermost frame, which must be of the
    /// tag's kind, and hands what it gathered to its parent.
    fn end(&mut self, tag: Tag, position: usize) -> (r: Result<(), CompileError>)
        requires
            old(self).wf(),
        ensures
            final(self).wf(),
            r is Ok <==> nest_step(old(self).nesting_view(), Event::End(tag)) is Some,
            r is Ok ==> nest_step(old(self).nesting_view(), Event::End(tag)) == Some(final(self).nesting_view()),
            end_post(*old(self), tag, position, *final(self), r),
    {
        let k = tag_kind(&tag);
        let n = self.frames.len();
        if n == 0 {
            return Err(CompileError::StructuralMismatch { position });
        }
        if frame_kind(&self.frames[n - 1]) != k {
            proof {
                lemma_frames_pop(self.frames@);
            }
            return Err(CompileError::StructuralMismatch { position });
        }
        let ghost fs = self.frames@;
        let ghost top0 = block_kinds(self.blocks@);
        let ghost blocks0 = self.blocks@;
        proof {
            lemma_frames_pop(fs);
        }
        let f = match self.frames.pop() {
            Some(f) => f,
            None => {
                return Err(CompileError::StructuralMismatch { position });
            },
        };
        assert(frame_kind_of(f) == k);
        assert(frame_kinds(self.frames@) == frame_kinds(fs).drop_last());
        match f {
            Frame::Paragraph => {
                let content = self.run.take_nodes();
                self.append_block(Block::Paragraph { content });
            },
            Frame::Heading { level } => {
                let content = self.run.take_nodes();
                self.append_block(Block::Heading { level, content });
            },
            Frame::Rule => {
                self.append_block(Block::Rule);
            },
            Frame::BlockQuote { blocks } => {
                self.append_block(Block::BlockQuote { blocks });
            },
            Frame::FootnoteDefinition { number, blocks } => {
                self.append_block(Block::FootnoteDefinition { number, blocks });
            },
            Frame::List { ordered, start, items } => {
                self.append_block(Block::List { ordered, start, items });
            },
            Frame::Item { mut blocks } => {
                let content = self.run.take_nodes();
                if content.len() > 0 {
                    let b = Block::Paragraph { content };
                    let ghost b0 = blocks@;
                    proof {
                        lemma_blocks_push(blocks@, b);
                    }
                    blocks.push(b);
                    assert(blocks@.drop_last() =~= b0);
                }
                self.append_block(Block::ListItem { blocks });
            },
            Frame::Table => {
                let mut t = match self.outer_tables.pop() {
                    Some(t) => t,
                    None => TableState::new(Vec::new()),
                };
                std::mem::swap(&mut t, &mut self.table);
                self.append_block(t.finish());
            },
            Frame::TableHead => {
                self.table.end_head();
            },
            Frame::TableRow => {
                self.table.end_row();
            },
            Frame::TableCell => {
                let ghost h0 = self.table.header@;
                let ghost r0 = self.table.row@;
                let content = self.run.take_nodes();
                self.table.end_cell(content);
                proof {
                    if self.table.phase == TablePhase::Head {
                        assert(self.table.header@.drop_last() =~= h0);
                    } else {
                        assert(self.table.row@.drop_last() =~= r0);
                    }
                }
            },
            Frame::CodeBlock { language } => {
                self.in_code = false;
                self.end_capture();
                let raw = self.take_captured();
                self.append_block(Block::CodeBlock { language, raw });
            },
            Frame::Style { counted, .. } => {
                if counted {
                    self.run.close_style();
                }
            },
            Frame::Spoiler { outer, active } => {
                if active {
                    let ghost open0 = self.run.open@;
                    let content = self.run.take_nodes();
                    self.run.replace_nodes(outer);
                    assert(spans_restarted(spans_restarted(open0)) =~= spans_restarted(open0));
                    self.run.emit(Inline::Spoiler { content });
                }
            },
            Frame::Link { url } => {
                if self.end_capture() {
                    let text = self.take_captured();
                    self.run.emit(Inline::Link { text, url });
                }
            },
            Frame::EntityLink => {
                if self.end_capture() {
                    self.captured = Vec::new();
                }
            },
            Frame::Image { url, title } => {
                if self.end_capture() {
                    let alt = self.take_captured();
                    self.run.emit(Inline::Image { url, title, alt });
                }
            },
        }
        proof {
            if fs.len() > 1 {
                assert(fs.drop_last().drop_last() =~= fs.subrange(0, fs.len() - 2));
            }
            let rest = frame_kinds(fs).drop_last();
            assert(frame_kinds(self.frames@) == rest);
            if rest.len() == 0 && is_block_kind(k) {
                assert(self.blocks@.drop_last() =~= blocks0);
                assert(block_kinds(self.blocks@) == top0.push(k));
            } else {
                assert(block_kinds(self.blocks@) == top0);
            }
        }
        Ok(())
    }

    /// Consumes one event. `position` is its index in the stream, which an
    /// error reports.
    pub fn step(&mut self, ev: Event, position: usize) -> (r: Result<(), CompileError>)
        requires
            old(self).wf(),
        ensures
            final(self).wf(),
            step_post(*old(self), ev, position, *final(self), r),
    {
        match ev {
            Event::Start(tag) => self.start(tag, position),
            Event::End(tag) => self.end(tag, position),
            Event::Text(s) | Event::InlineHtml(s) => {
                let e = escape_text(&s);
                if self.capture_depth > 0 {
                    let mut e = e;
                    self.captured.append(&mut e);
                } else {
                    self.run.push_text(&e);
                }
                Ok(())
            },
            Event::Html(s) => {
                if self.capture_depth == 0 {
                    let e = escape_text(&s);
                    self.run.push_text(&e);
                }
                Ok(())
            },
            Event::SoftBreak => {
                let ghost p0 = self.run.pending@;
                let ghost c0 = self.captured@;
                if self.capture_depth > 0 {
                    let ch = if self.in_code { '\n' } else { ' ' };
                    self.captured.push(ch);
                    assert(self.captured@ =~= c0 + seq![ch]);
                } else {
                    self.run.push_char('\n');
                    assert(self.run.pending@ =~= p0 + seq!['\n']);
                }
                Ok(())
            },
            Event::HardBreak => {
                if self.capture_depth > 0 {
                    self.captured.push(' ');
                } else {
                    self.run.emit(Inline::LineBreak);
                }
                Ok(())
            },
            Event::FootnoteReference(name) => {
                let number = self.footnotes.number_for(&name);
                if self.capture_depth == 0 {
                    let mut label: Vec<char> = Vec::new();
                    push_decimal(&mut label, number);
                    assert(label@ =~= decimal(number as nat));
                    self.run.emit(Inline::Text { text: label, ranges: Vec::new() });
                } else {
                    let ghost before = self.captured@;
                    self.captured.push('[');
                    push_decimal(&mut self.captured, number);
                    self.captured.push(']');
                    assert(self.captured@ =~= before + seq!['['] + decimal(number as nat) + seq![']']);
                }
                Ok(())
            },
        }
    }

    /// Ends the compilation: the document, if every construct was closed.
    pub fn finish(self, position: usize) -> (r: Result<Document, CompileError>)
        requires
            self.wf(),
        ensures
            r is Ok <==> self.nesting_view().open.len() == 0,
            r matches Ok(d) ==> document_wf(d) && block_kinds(d.blocks@) == self.nesting_view().top
                && d.blocks == self.blocks,
            r is Err ==> r == Err::<Document, CompileError>(CompileError::StructuralMismatch { position }),
    {
        if self.frames.len() > 0 {
            return Err(CompileError::StructuralMismatch { position });
        }
        Ok(Document { blocks: self.blocks })
    }

    /// Consumes the events in order, stopping at the first error, whose
    /// position is the index of the event in `events`.
    pub fn run(&mut self, events: Vec<Event>) -> (r: Result<(), CompileError>)
        requires
            old(self).wf(),
        ensures
            final(self).wf(),
            r is Ok ==> nest_from(old(self).nesting_view(), events@) == Some(final(self).nesting_view()),
            r matches Err(CompileError::StructuralMismatch { position }) ==> position < events@.len()
                && nest_from(old(self).nesting_view(), events@.take(position as int)) is Some
                && nest_from(old(self).nesting_view(), events@.take(position + 1)) is None,
            r matches Err(CompileError::SpliceOverrun { position }) ==> position < events@.len()
                && (events@[position as int] matches Event::Start(Tag::EntityLink(_, _, t)) && t > 0),
            no_trims(events@) ==> (r is Ok <==> nest_from(old(self).nesting_view(), events@) is Some),
            exists|t: Seq<Ctx>| #[trigger] is_trace(t, events@, r) && t[0] == *old(self) && t.last()
                == *final(self),
    {
        let ghost evs = events@;
        let ghost first = self.nesting_view();
        let len = events.len();
        let mut rest = events;
        let mut rev: Vec<Event> = Vec::new();
        while rest.len() > 0
            invariant
                evs == events@,
                rest@.len() + rev@.len() == evs.len(),
                rest@ == evs.subrange(0, rest@.len() as int),
                forall|j: int| 0 <= j < rev@.len() ==> rev@[j] == evs[evs.len() - 1 - j],
            decreases rest@.len(),
        {
            match rest.pop() {
                Some(e) => {
                    rev.push(e);
                },
                None => {},
            }
            assert(rest@ =~= evs.subrange(0, rest@.len() as int));
        }
        let mut i: usize = 0;
        let ghost mut trace: Seq<Ctx> = seq![*self];
        while i < len
            invariant
                evs == events@,
                first == old(self).nesting_view(),
                trace.len() == i + 1,
                trace[0] == *old(self),
                trace.last() == *self,
                forall|j: int| #![trigger trace[j]] 0 <= j < i ==> step_post(
                    trace[j],
                    evs[j],
                    j as usize,
                    trace[j + 1],
                    Ok(()),
                ),
                i <= len == evs.len(),
                rev@.len() == len - i,
                forall|j: int| 0 <= j < rev@.len() ==> rev@[j] == evs[len - 1 - j],
                self.wf(),
                nest_from(first, evs.take(i as int)) == Some(self.nesting_view()),
            decreases len - i,
        {
            let ghost before = self.nesting_view();
            let e = match rev.pop() {
                Some(e) => e,
                None => {
                    return Ok(());
                },
            };
            assert(e == evs[i as int]);
            proof {
                assert(evs.take(i + 1).drop_last() =~= evs.take(i as int));
                assert(evs.take(i + 1).last() == evs[i as int]);
                assert(nest_from(first, evs.take(i + 1)) == nest_step(before, evs[i as int]));
            }
            let ghost pre = *self;
            let r = self.step(e, i);
            let ghost prev_trace = trace;
            proof {
                trace = trace.push(*self);
                assert forall|j: int| 0 <= j < i implies #[trigger] trace[j] == prev_trace[j] by {}
                assert(trace[i as int] == pre);
            }
            match r {
                Err(err) => {
                    proof {
                        assert(is_trace(trace, evs, r));
                        if err is StructuralMismatch {
                            assert(err == CompileError::StructuralMismatch { position: i });
                            assert(nest_step(before, evs[i as int]) is None);
                            lemma_mismatch_persists(first, evs, i as int);
                        } else {
                            assert(evs[i as int] matches Event::Start(Tag::EntityLink(_, _, t)) && t > 0);
                            assert(!no_trims(evs));
                        }
                    }
                    return Err(err);
                },
                Ok(()) => {},
            }
            i = i + 1;
        }
        assert(evs.take(len as int) =~= evs);
        assert(is_trace(trace, evs, Ok(())));
        Ok(())
    }
}

/// Compiles a whole event stream into a document. The document's blocks are,
/// in order, the block constructs opened at the top level of the stream.
pub fn push_html(events: Vec<Event>) -> (r: Result<Document, CompileError>)
    ensures
        r matches Ok(d) ==> balanced(events@) && document_wf(d) && block_kinds(d.blocks@) == opened_at_top(
            events@,
        ),
        r matches Err(CompileError::StructuralMismatch { position }) ==> (position < events@.len()
            && nesting(events@.take(position as int)) is Some
            && nesting(events@.take(position + 1)) is None) || (position == events@.len()
            && !balanced(events@) && nesting(events@) is Some),
        r matches Err(CompileError::SpliceOverrun { position }) ==> position < events@.len()
            && (events@[position as int] matches Event::Start(Tag::EntityLink(_, _, t)) && t > 0),
        no_trims(events@) ==> (r is Ok <==> balanced(events@)),
        exists|t: Seq<Ctx>| #[trigger] compiled(t, events@, r),
{
    let ghost evs = events@;
    let len = events.len();
    let mut ctx = Ctx::new();
    let ghost c0 = ctx;
    let rr = ctx.run(events);
    let ghost t = choose|t: Seq<Ctx>| #[trigger] is_trace(t, evs, rr) && t[0] == c0 && t.last() == ctx;
    match rr {
        Err(e) => {
            assert(compiled(t, evs, Err(e)));
            Err(e)
        },
        Ok(()) => {
            let ghost c1 = ctx;
            let r = ctx.finish(len);
            proof {
                if r is Ok {
                    lemma_blocks_follow_starts(evs);
                }
                assert(c1 == t.last());
                assert(compiled(t, evs, r));
            }
            r
        },
    }
}

} // verus!
