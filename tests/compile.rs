use rtjson::compiler::{code_language, list_start, push_html, Ctx};
use rtjson::escape::{escape_text, escape_url, push_decimal};
use rtjson::footnotes::FootnoteRegistry;
use rtjson::inline::InlineRun;
use rtjson::model::{
    Alignment, Block, CompileError, Document, EntityKind, Event, FormatRange, Inline, Tag,
    STYLE_BOLD, STYLE_ITALIC,
};
use rtjson::table::{alignment_at, TablePhase, TableState};

fn chars(s: &str) -> Vec<char> {
    s.chars().collect()
}

fn text(s: &str) -> Event {
    Event::Text(chars(s))
}

fn compile(events: Vec<Event>) -> Document {
    match push_html(events) {
        Ok(d) => d,
        Err(e) => panic!("unexpected error {:?}", e),
    }
}

fn paragraph_content(b: &Block) -> &Vec<Inline> {
    match b {
        Block::Paragraph { content } => content,
        other => panic!("not a paragraph: {:?}", other),
    }
}

#[test]
fn empty_stream_gives_empty_document() {
    let doc = compile(vec![]);
    assert_eq!(doc.blocks.len(), 0);
}

#[test]
fn blocks_keep_stream_order() {
    let doc = compile(vec![
        Event::Start(Tag::Header(2)),
        text("Title"),
        Event::End(Tag::Header(2)),
        Event::Start(Tag::Paragraph),
        text("body"),
        Event::End(Tag::Paragraph),
        Event::Start(Tag::Rule),
        Event::End(Tag::Rule),
        Event::Start(Tag::CodeBlock(chars("rust"))),
        text("let x = 1;"),
        Event::End(Tag::CodeBlock(chars("rust"))),
    ]);
    assert_eq!(doc.blocks.len(), 4);
    match &doc.blocks[0] {
        Block::Heading { level, content } => {
            assert_eq!(*level, 2);
            assert_eq!(content.len(), 1);
        },
        other => panic!("{:?}", other),
    }
    assert_eq!(paragraph_content(&doc.blocks[1]).len(), 1);
    assert!(matches!(doc.blocks[2], Block::Rule));
    match &doc.blocks[3] {
        Block::CodeBlock { language, raw } => {
            assert_eq!(language, &Some(chars("rust")));
            assert_eq!(raw, &chars("let x = 1;"));
        },
        other => panic!("{:?}", other),
    }
}

#[test]
fn format_ranges_stay_inside_their_text() {
    let doc = compile(vec![
        Event::Start(Tag::Paragraph),
        text("ab"),
        Event::Start(Tag::Strong),
        text("cd"),
        Event::Start(Tag::Emphasis),
        text("ef"),
        Event::HardBreak,
        text("gh"),
        Event::End(Tag::Emphasis),
        Event::End(Tag::Strong),
        text("ij"),
        Event::End(Tag::Paragraph),
    ]);
    let content = paragraph_content(&doc.blocks[0]);
    assert_eq!(content.len(), 3);
    match &content[0] {
        Inline::Text { text, ranges } => {
            assert_eq!(text, &chars("abcdef"));
            assert_eq!(ranges, &vec![
                FormatRange { style: STYLE_BOLD, start: 2, length: 4 },
                FormatRange { style: STYLE_ITALIC, start: 4, length: 2 },
            ]);
        },
        other => panic!("{:?}", other),
    }
    assert!(matches!(content[1], Inline::LineBreak));
    match &content[2] {
        Inline::Text { text, ranges } => {
            assert_eq!(text, &chars("ghij"));
            assert_eq!(ranges, &vec![
                FormatRange { style: STYLE_ITALIC, start: 0, length: 2 },
                FormatRange { style: STYLE_BOLD, start: 0, length: 2 },
            ]);
        },
        other => panic!("{:?}", other),
    }
    for node in content.iter() {
        if let Inline::Text { text, ranges } = node {
            for r in ranges.iter() {
                assert!(r.length >= 1 && r.start + r.length <= text.len());
            }
        }
    }
}

#[test]
fn empty_style_span_records_nothing() {
    let doc = compile(vec![
        Event::Start(Tag::Paragraph),
        text("x"),
        Event::Start(Tag::Strong),
        Event::End(Tag::Strong),
        Event::End(Tag::Paragraph),
    ]);
    match &paragraph_content(&doc.blocks[0])[0] {
        Inline::Text { ranges, .. } => assert!(ranges.is_empty()),
        other => panic!("{:?}", other),
    }
}

#[test]
fn footnote_numbers_are_first_seen() {
    let doc = compile(vec![
        Event::Start(Tag::Paragraph),
        Event::FootnoteReference(chars("a")),
        Event::FootnoteReference(chars("b")),
        Event::FootnoteReference(chars("a")),
        Event::End(Tag::Paragraph),
        Event::Start(Tag::FootnoteDefinition(chars("b"))),
        Event::End(Tag::FootnoteDefinition(chars("b"))),
    ]);
    let labels: Vec<Vec<char>> = paragraph_content(&doc.blocks[0])
        .iter()
        .map(|n| match n {
            Inline::Text { text, ranges } => {
                assert!(ranges.is_empty());
                text.clone()
            },
            other => panic!("{:?}", other),
        })
        .collect();
    assert_eq!(labels, vec![chars("1"), chars("2"), chars("1")]);
    match &doc.blocks[1] {
        Block::FootnoteDefinition { number, blocks } => {
            assert_eq!(*number, 2);
            assert!(blocks.is_empty());
        },
        other => panic!("{:?}", other),
    }
}

#[test]
fn footnote_registry_reuses_numbers() {
    let mut reg = FootnoteRegistry::new();
    assert_eq!(reg.number_for(&chars("a")), 1);
    assert_eq!(reg.number_for(&chars("b")), 2);
    assert_eq!(reg.number_for(&chars("a")), 1);
    assert_eq!(reg.names.len(), 2);
}

#[test]
fn footnote_definition_first_gets_number_one() {
    let mut reg = FootnoteRegistry::new();
    assert_eq!(reg.number_for(&chars("note")), 1);
    assert_eq!(reg.number_for(&chars("other")), 2);
    assert_eq!(reg.number_for(&chars("note")), 1);
}

#[test]
fn splice_cuts_pending_text_and_ranges() {
    let mut run = InlineRun::new();
    run.push_text(&chars("check ou"));
    run.open_style(STYLE_BOLD);
    run.push_text(&chars("t u/"));
    run.close_style();
    assert_eq!(run.ranges, vec![FormatRange { style: STYLE_BOLD, start: 8, length: 4 }]);
    assert!(run.splice(2));
    assert_eq!(run.pending, chars("check out "));
    assert_eq!(run.pending.len(), 10);
    assert_eq!(run.ranges, vec![FormatRange { style: STYLE_BOLD, start: 8, length: 2 }]);
}

#[test]
fn splice_drops_ranges_inside_the_cut() {
    let mut run = InlineRun::new();
    run.push_text(&chars("hello "));
    run.open_style(STYLE_ITALIC);
    run.push_text(&chars("r/"));
    run.close_style();
    assert!(run.splice(2));
    assert!(run.ranges.is_empty());
    assert_eq!(run.pending, chars("hello "));
}

#[test]
fn splice_longer_than_pending_changes_nothing() {
    let mut run = InlineRun::new();
    run.push_text(&chars("ab"));
    assert!(!run.splice(3));
    assert_eq!(run.pending, chars("ab"));
}

#[test]
fn entity_link_replaces_trailing_text() {
    let doc = compile(vec![
        Event::Start(Tag::Paragraph),
        text("check ou"),
        Event::Start(Tag::Strong),
        text("t u/"),
        Event::End(Tag::Strong),
        Event::Start(Tag::EntityLink(EntityKind::User, chars("bob"), 2)),
        text("u/bob"),
        Event::End(Tag::EntityLink(EntityKind::User, chars("bob"), 2)),
        text("!"),
        Event::End(Tag::Paragraph),
    ]);
    let content = paragraph_content(&doc.blocks[0]);
    assert_eq!(content.len(), 3);
    match &content[0] {
        Inline::Text { text, ranges } => {
            assert_eq!(text, &chars("check out "));
            assert_eq!(ranges, &vec![FormatRange { style: STYLE_BOLD, start: 8, length: 2 }]);
        },
        other => panic!("{:?}", other),
    }
    match &content[1] {
        Inline::EntityLink { kind, id } => {
            assert_eq!(*kind, EntityKind::User);
            assert_eq!(id, &chars("bob"));
        },
        other => panic!("{:?}", other),
    }
    match &content[2] {
        Inline::Text { text, .. } => assert_eq!(text, &chars("!")),
        other => panic!("{:?}", other),
    }
}

#[test]
fn entity_link_overrun_is_fatal() {
    let r = push_html(vec![
        Event::Start(Tag::Paragraph),
        text("ab"),
        Event::Start(Tag::EntityLink(EntityKind::Subreddit, chars("rust"), 5)),
        Event::End(Tag::EntityLink(EntityKind::Subreddit, chars("rust"), 5)),
        Event::End(Tag::Paragraph),
    ]);
    assert_eq!(r.unwrap_err(), CompileError::SpliceOverrun { position: 2 });
}

fn cell(s: &str) -> Vec<Event> {
    vec![Event::Start(Tag::TableCell), text(s), Event::End(Tag::TableCell)]
}

#[test]
fn table_alignment_follows_columns() {
    let aligns = vec![Alignment::Left, Alignment::Unspecified, Alignment::Right];
    let mut events = vec![Event::Start(Tag::Table(aligns.clone())), Event::Start(Tag::TableHead)];
    for s in ["a", "b", "c"] {
        events.extend(cell(s));
    }
    events.push(Event::End(Tag::TableHead));
    events.push(Event::Start(Tag::TableRow));
    for s in ["1", "2", "3", "4"] {
        events.extend(cell(s));
    }
    events.push(Event::End(Tag::TableRow));
    events.push(Event::End(Tag::Table(aligns)));
    let doc = compile(events);
    match &doc.blocks[0] {
        Block::Table { header, rows } => {
            let head: Vec<Alignment> = header.iter().map(|c| c.align).collect();
            assert_eq!(head, vec![Alignment::Left, Alignment::Unspecified, Alignment::Right]);
            assert_eq!(rows.len(), 1);
            let body: Vec<Alignment> = rows[0].iter().map(|c| c.align).collect();
            assert_eq!(body, vec![
                Alignment::Left,
                Alignment::Unspecified,
                Alignment::Right,
                Alignment::Unspecified,
            ]);
        },
        other => panic!("{:?}", other),
    }
}

#[test]
fn alignment_lookup_past_columns_is_unspecified() {
    let aligns = vec![Alignment::Left, Alignment::Unspecified, Alignment::Right];
    assert_eq!(alignment_at(&aligns, 0), Alignment::Left);
    assert_eq!(alignment_at(&aligns, 1), Alignment::Unspecified);
    assert_eq!(alignment_at(&aligns, 2), Alignment::Right);
    assert_eq!(alignment_at(&aligns, 3), Alignment::Unspecified);
}

#[test]
fn table_without_head_closes_cleanly() {
    let aligns = vec![Alignment::Center];
    let mut events = vec![Event::Start(Tag::Table(aligns.clone())), Event::Start(Tag::TableRow)];
    events.extend(cell("1"));
    events.push(Event::End(Tag::TableRow));
    events.push(Event::End(Tag::Table(aligns)));
    let doc = compile(events);
    match &doc.blocks[0] {
        Block::Table { header, rows } => {
            assert!(header.is_empty());
            assert_eq!(rows.len(), 1);
            assert_eq!(rows[0][0].align, Alignment::Center);
        },
        other => panic!("{:?}", other),
    }
}

#[test]
fn table_state_moves_cells_by_phase() {
    let mut t = TableState::new(vec![Alignment::Center]);
    assert_eq!(t.phase, TablePhase::Head);
    t.end_cell(vec![]);
    t.end_head();
    t.start_row();
    t.end_cell(vec![]);
    t.end_row();
    match t.finish() {
        Block::Table { header, rows } => {
            assert_eq!(header.len(), 1);
            assert_eq!(rows.len(), 1);
            assert_eq!(rows[0][0].align, Alignment::Center);
        },
        other => panic!("{:?}", other),
    }
}

#[test]
fn recompiling_gives_the_same_document() {
    let events = || {
        vec![
            Event::Start(Tag::List(Some(3))),
            Event::Start(Tag::Item),
            text("one <two>"),
            Event::Start(Tag::Link(chars("http://x.org/a b"), chars(""))),
            text("link"),
            Event::End(Tag::Link(chars("http://x.org/a b"), chars(""))),
            Event::End(Tag::Item),
            Event::End(Tag::List(Some(3))),
            Event::Start(Tag::BlockQuote),
            Event::Start(Tag::Paragraph),
            Event::FootnoteReference(chars("n")),
            Event::SoftBreak,
            text("q"),
            Event::End(Tag::Paragraph),
            Event::End(Tag::BlockQuote),
        ]
    };
    let a = compile(events());
    let b = compile(events());
    assert_eq!(format!("{:?}", a), format!("{:?}", b));
    assert_eq!(a.blocks.len(), 2);
}

fn list_of(ordering: Option<u64>) -> (bool, u64) {
    let doc = compile(vec![
        Event::Start(Tag::List(ordering)),
        Event::Start(Tag::Item),
        text("x"),
        Event::End(Tag::Item),
        Event::End(Tag::List(ordering)),
    ]);
    match &doc.blocks[0] {
        Block::List { ordered, start, items } => {
            assert_eq!(items.len(), 1);
            (*ordered, *start)
        },
        other => panic!("{:?}", other),
    }
}

#[test]
fn list_start_defaults_to_one() {
    assert_eq!(list_of(Some(1)).1, 1);
    assert_eq!(list_of(None).1, 1);
    assert_eq!(list_of(Some(5)), (true, 5));
    assert!(!list_of(None).0);
    assert_eq!(list_start(None), 1);
    assert_eq!(list_start(Some(1)), 1);
    assert_eq!(list_start(Some(5)), 5);
}

#[test]
fn tight_list_item_text_becomes_paragraph() {
    let doc = compile(vec![
        Event::Start(Tag::List(None)),
        Event::Start(Tag::Item),
        text("outer"),
        Event::Start(Tag::List(None)),
        Event::Start(Tag::Item),
        text("inner"),
        Event::End(Tag::Item),
        Event::End(Tag::List(None)),
        Event::End(Tag::Item),
        Event::End(Tag::List(None)),
    ]);
    match &doc.blocks[0] {
        Block::List { items, .. } => match &items[0] {
            Block::ListItem { blocks } => {
                assert_eq!(blocks.len(), 2);
                assert!(matches!(blocks[0], Block::Paragraph { .. }));
                assert!(matches!(blocks[1], Block::List { .. }));
            },
            other => panic!("{:?}", other),
        },
        other => panic!("{:?}", other),
    }
}

#[test]
fn closing_table_inside_paragraph_is_fatal() {
    let r = push_html(vec![
        Event::Start(Tag::Paragraph),
        text("x"),
        Event::End(Tag::Table(vec![])),
    ]);
    assert_eq!(r.unwrap_err(), CompileError::StructuralMismatch { position: 2 });
}

#[test]
fn close_without_open_is_fatal() {
    let r = push_html(vec![Event::End(Tag::Paragraph)]);
    assert_eq!(r.unwrap_err(), CompileError::StructuralMismatch { position: 0 });
}

#[test]
fn unclosed_construct_is_fatal() {
    let r = push_html(vec![Event::Start(Tag::BlockQuote)]);
    assert_eq!(r.unwrap_err(), CompileError::StructuralMismatch { position: 1 });
}

#[test]
fn streaming_steps_match_whole_compilation() {
    let mut ctx = Ctx::new();
    assert!(ctx.step(Event::Start(Tag::Paragraph), 0).is_ok());
    assert!(ctx.step(text("hi"), 1).is_ok());
    assert!(ctx.step(Event::End(Tag::Paragraph), 2).is_ok());
    let doc = ctx.finish(3).unwrap();
    assert_eq!(doc.blocks.len(), 1);
}

#[test]
fn link_and_image_are_inline_nodes() {
    let doc = compile(vec![
        Event::Start(Tag::Paragraph),
        text("see "),
        Event::Start(Tag::Link(chars("/a&b"), chars("t"))),
        text("here"),
        Event::End(Tag::Link(chars("/a&b"), chars("t"))),
        Event::Start(Tag::Image(chars("/i.png"), chars("T"))),
        text("alt"),
        Event::End(Tag::Image(chars("/i.png"), chars("T"))),
        Event::End(Tag::Paragraph),
    ]);
    let content = paragraph_content(&doc.blocks[0]);
    assert_eq!(content.len(), 3);
    match &content[1] {
        Inline::Link { text, url } => {
            assert_eq!(text, &chars("here"));
            assert_eq!(url, &chars("/a&amp;b"));
        },
        other => panic!("{:?}", other),
    }
    match &content[2] {
        Inline::Image { url, title, alt } => {
            assert_eq!(url, &chars("/i.png"));
            assert_eq!(title, &chars("T"));
            assert_eq!(alt, &chars("alt"));
        },
        other => panic!("{:?}", other),
    }
}

#[test]
fn escaping_text_and_urls() {
    assert_eq!(escape_text(&chars("a<b>&\"c'")), chars("a&lt;b&gt;&amp;&quot;c'"));
    assert_eq!(escape_url(&chars("/x y?a=1&b='é'")), chars("/x%20y?a=1&amp;b=&#x27;é&#x27;"));
    assert_eq!(escape_url(&chars("\n")), chars("%0A"));
}

#[test]
fn text_offsets_count_escaped_characters() {
    let doc = compile(vec![
        Event::Start(Tag::Paragraph),
        text("<"),
        Event::Start(Tag::Strong),
        text("b"),
        Event::End(Tag::Strong),
        Event::End(Tag::Paragraph),
    ]);
    match &paragraph_content(&doc.blocks[0])[0] {
        Inline::Text { text, ranges } => {
            assert_eq!(text, &chars("&lt;b"));
            assert_eq!(ranges, &vec![FormatRange { style: STYLE_BOLD, start: 4, length: 1 }]);
        },
        other => panic!("{:?}", other),
    }
}

#[test]
fn code_block_language_is_first_word() {
    assert_eq!(code_language(&chars("rust ignore")), Some(chars("rust")));
    assert_eq!(code_language(&chars("")), None);
    assert_eq!(code_language(&chars(" rust")), None);
}

#[test]
fn spoiler_holds_nested_inline_content() {
    let doc = compile(vec![
        Event::Start(Tag::Paragraph),
        text("a"),
        Event::Start(Tag::Spoiler),
        text("secret"),
        Event::Start(Tag::Strong),
        text("x"),
        Event::End(Tag::Strong),
        Event::End(Tag::Spoiler),
        text("b"),
        Event::End(Tag::Paragraph),
    ]);
    let content = paragraph_content(&doc.blocks[0]);
    assert_eq!(content.len(), 3);
    match &content[0] {
        Inline::Text { text, .. } => assert_eq!(text, &chars("a")),
        other => panic!("{:?}", other),
    }
    match &content[1] {
        Inline::Spoiler { content } => {
            assert_eq!(content.len(), 1);
            match &content[0] {
                Inline::Text { text, ranges } => {
                    assert_eq!(text, &chars("secretx"));
                    assert_eq!(ranges, &vec![FormatRange { style: STYLE_BOLD, start: 6, length: 1 }]);
                },
                other => panic!("{:?}", other),
            }
        },
        other => panic!("{:?}", other),
    }
    match &content[2] {
        Inline::Text { text, ranges } => {
            assert_eq!(text, &chars("b"));
            assert!(ranges.is_empty());
        },
        other => panic!("{:?}", other),
    }
}

#[test]
fn image_alt_drops_raw_markup_and_labels_footnotes() {
    let doc = compile(vec![
        Event::Start(Tag::Paragraph),
        Event::FootnoteReference(chars("first")),
        Event::Start(Tag::Image(chars("/i.png"), chars(""))),
        text("a"),
        Event::Html(chars("<b>")),
        Event::InlineHtml(chars("<i>")),
        Event::SoftBreak,
        Event::FootnoteReference(chars("first")),
        Event::End(Tag::Image(chars("/i.png"), chars(""))),
        Event::End(Tag::Paragraph),
    ]);
    match &paragraph_content(&doc.blocks[0])[1] {
        Inline::Image { alt, .. } => assert_eq!(alt, &chars("a&lt;i&gt; [1]")),
        other => panic!("{:?}", other),
    }
}

#[test]
fn code_block_keeps_soft_breaks_as_newlines() {
    let doc = compile(vec![
        Event::Start(Tag::CodeBlock(chars(""))),
        text("a"),
        Event::SoftBreak,
        text("b"),
        Event::End(Tag::CodeBlock(chars(""))),
    ]);
    match &doc.blocks[0] {
        Block::CodeBlock { language, raw } => {
            assert_eq!(language, &None);
            assert_eq!(raw, &chars("a\nb"));
        },
        other => panic!("{:?}", other),
    }
}

#[test]
fn entity_link_inside_link_trims_link_text() {
    let doc = compile(vec![
        Event::Start(Tag::Paragraph),
        Event::Start(Tag::Link(chars("/x"), chars(""))),
        text("see r/"),
        Event::Start(Tag::EntityLink(EntityKind::Subreddit, chars("rust"), 2)),
        text("r/rust"),
        Event::End(Tag::EntityLink(EntityKind::Subreddit, chars("rust"), 2)),
        Event::End(Tag::Link(chars("/x"), chars(""))),
        Event::End(Tag::Paragraph),
    ]);
    match &paragraph_content(&doc.blocks[0])[0] {
        Inline::Link { text, .. } => assert_eq!(text, &chars("see r/rust")),
        other => panic!("{:?}", other),
    }
}

#[test]
fn decimal_digits_of_numbers() {
    let mut out = chars("n=");
    push_decimal(&mut out, 0);
    out.push(',');
    push_decimal(&mut out, 1205);
    assert_eq!(out, chars("n=0,1205"));
}

#[test]
fn blocks_nest_in_order_inside_containers() {
    let doc = compile(vec![
        Event::Start(Tag::BlockQuote),
        Event::Start(Tag::Paragraph),
        text("one"),
        Event::End(Tag::Paragraph),
        Event::Start(Tag::Rule),
        Event::End(Tag::Rule),
        Event::Start(Tag::Paragraph),
        text("two"),
        Event::End(Tag::Paragraph),
        Event::End(Tag::BlockQuote),
    ]);
    match &doc.blocks[0] {
        Block::BlockQuote { blocks } => {
            assert_eq!(blocks.len(), 3);
            assert!(matches!(blocks[1], Block::Rule));
            match &blocks[2] {
                Block::Paragraph { content } => match &content[0] {
                    Inline::Text { text, .. } => assert_eq!(text, &chars("two")),
                    other => panic!("{:?}", other),
                },
                other => panic!("{:?}", other),
            }
        },
        other => panic!("{:?}", other),
    }
}

#[test]
fn footnote_label_follows_pending_text() {
    let doc = compile(vec![
        Event::Start(Tag::Paragraph),
        text("see"),
        Event::Start(Tag::Strong),
        text("!"),
        Event::FootnoteReference(chars("n")),
        text("?"),
        Event::End(Tag::Strong),
        Event::End(Tag::Paragraph),
    ]);
    let content = paragraph_content(&doc.blocks[0]);
    assert_eq!(content.len(), 3);
    match &content[0] {
        Inline::Text { text, ranges } => {
            assert_eq!(text, &chars("see!"));
            assert_eq!(ranges, &vec![FormatRange { style: STYLE_BOLD, start: 3, length: 1 }]);
        },
        other => panic!("{:?}", other),
    }
    match &content[1] {
        Inline::Text { text, ranges } => {
            assert_eq!(text, &chars("1"));
            assert!(ranges.is_empty());
        },
        other => panic!("{:?}", other),
    }
    match &content[2] {
        Inline::Text { text, ranges } => {
            assert_eq!(text, &chars("?"));
            assert_eq!(ranges, &vec![FormatRange { style: STYLE_BOLD, start: 0, length: 1 }]);
        },
        other => panic!("{:?}", other),
    }
}

#[test]
fn stray_text_in_block_quote_becomes_paragraph() {
    let doc = compile(vec![
        Event::Start(Tag::BlockQuote),
        text("loose"),
        Event::Start(Tag::Rule),
        Event::End(Tag::Rule),
        Event::End(Tag::BlockQuote),
    ]);
    match &doc.blocks[0] {
        Block::BlockQuote { blocks } => {
            assert_eq!(blocks.len(), 2);
            assert_eq!(paragraph_content(&blocks[0]).len(), 1);
            assert!(matches!(blocks[1], Block::Rule));
        },
        other => panic!("{:?}", other),
    }
}
