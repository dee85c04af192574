//! Tests of the content nodes: each HTML rendering parses cleanly, the
//! heading scale clamps, and the markup matches the formats' conventions.

use codedpedia::component::asset::{Asset, Script, Stylesheet};
use codedpedia::component::block::{
    Block, Bold as BlockBold, CaptionedTable, Cell, CellAttrs, Figure, Image, InlineBlock,
    Italic as BlockItalic, OrderedList, Paragraph, Preformatted as BlockPreformatted, Row, Table,
    UnorderedList,
};
use codedpedia::component::inline::{Audio, Bold, Inline, Italic, Link, Preformatted};
use codedpedia::component::page::Page;
use codedpedia::component::section::Section;
use codedpedia::location::{Id, InternalPath, Location};

fn validate_html_fragment(rendered: &str) {
    let output = scraper::Html::parse_fragment(rendered);
    assert!(output.errors.is_empty(), "html fragment has errors: {:?}", output.errors);
}

fn validate_html_document(rendered: &str) {
    let output = scraper::Html::parse_document(rendered);
    assert!(output.errors.is_empty(), "html document has errors: {:?}", output.errors);
}

fn text(s: &str) -> Inline {
    Inline::Text(String::from(s))
}

fn paragraph(s: &str) -> Block {
    Block::Paragraph(Paragraph(text(s)))
}

fn root() -> InternalPath {
    InternalPath::root()
}

#[test]
fn bold_is_valid_html() {
    let rendered = Inline::Bold(Bold(Box::new(text("abc")))).to_html_string(&root());
    validate_html_fragment(&rendered);
}

#[test]
fn italic_is_valid_html() {
    let rendered = Inline::Italic(Italic(Box::new(text("abc")))).to_html_string(&root());
    validate_html_fragment(&rendered);
}

#[test]
fn preformatted_is_valid_html() {
    let rendered = Inline::Preformatted(Preformatted(Box::new(text("abc")))).to_html_string(
        &root(),
    );
    validate_html_fragment(&rendered);
}

#[test]
fn link_is_valid_html() {
    let rendered = Inline::Link(Link {
        location: Location::internal(""),
        target: Box::new(text("abc")),
    })
    .to_html_string(&root());
    validate_html_fragment(&rendered);
}

#[test]
fn audio_is_valid_html() {
    let rendered = Inline::Audio(Audio {
        location: Location::new("abc/def.ogg").unwrap(),
        alt: String::from("audio about def"),
    })
    .to_html_string(&root());
    validate_html_fragment(&rendered);
}

#[test]
fn text_bold_is_valid_html() {
    let rendered = Block::Bold(BlockBold(Box::new(Block::InlineBlock(InlineBlock(text("abc"))))))
        .to_html_string(&root());
    validate_html_fragment(&rendered);
}

#[test]
fn text_italic_is_valid_html() {
    let rendered = Block::Italic(BlockItalic(Box::new(Block::InlineBlock(InlineBlock(text(
        "abc",
    ))))))
    .to_html_string(&root());
    validate_html_fragment(&rendered);
}

#[test]
fn text_preformatted_is_valid_html() {
    let rendered = Block::Preformatted(BlockPreformatted(Box::new(Block::InlineBlock(
        InlineBlock(text("abc")),
    ))))
    .to_html_string(&root());
    validate_html_fragment(&rendered);
}

#[test]
fn paragraph_is_valid_html() {
    let rendered = paragraph("abc").to_html_string(&root());
    validate_html_fragment(&rendered);
}

#[test]
fn unordered_list_is_valid_html() {
    let rendered = Block::UnorderedList(UnorderedList(vec![
        Block::InlineBlock(InlineBlock(text("abc"))),
        paragraph("def"),
    ]))
    .to_html_string(&root());
    validate_html_fragment(&rendered);
}

#[test]
fn ordered_list_is_valid_html() {
    let rendered = Block::OrderedList(OrderedList(vec![
        Block::InlineBlock(InlineBlock(text("abc"))),
        paragraph("def"),
    ]))
    .to_html_string(&root());
    validate_html_fragment(&rendered);
}

#[test]
fn image_is_valid_html() {
    let rendered = Block::Image(Image {
        location: Location::new("abc/hi.png").unwrap(),
        alt: String::from("img about hi"),
    })
    .to_html_string(&root());
    validate_html_fragment(&rendered);
}

#[test]
fn figure_is_valid_html() {
    let rendered = Block::Figure(Figure {
        image: Image {
            location: Location::new("haha/scream.png").unwrap(),
            alt: String::from("image"),
        },
        legend: Inline::Bold(Bold(Box::new(text("stark image")))),
    })
    .to_html_string(&root());
    validate_html_fragment(&rendered);
}

fn sample_table() -> Table {
    Table(vec![
        Row(vec![
            Cell {
                child: Box::new(Block::InlineBlock(InlineBlock(text("abc")))),
                attrs: CellAttrs::default(),
            },
            Cell { child: Box::new(paragraph("123")), attrs: CellAttrs::default() },
        ]),
        Row(vec![Cell {
            child: Box::new(paragraph("a c r m f m")),
            attrs: CellAttrs::default(),
        }]),
    ])
}

#[test]
fn table_is_valid_html() {
    let rendered = Block::Table(sample_table()).to_html_string(&root());
    validate_html_fragment(&rendered);
}

#[test]
fn titled_table_is_valid_html() {
    let rendered = Block::CaptionedTable(CaptionedTable {
        caption: Inline::Bold(Bold(Box::new(text("aaaaaaa")))),
        table: sample_table(),
    })
    .to_html_string(&root());
    validate_html_fragment(&rendered);
}

#[test]
fn cell_spans_are_written_when_not_one() {
    let rendered = Block::Table(Table(vec![Row(vec![Cell {
        child: Box::new(paragraph("x")),
        attrs: CellAttrs { header: true, rowspan: 3, colspan: 12 },
    }])]))
    .to_html_string(&root());
    assert!(rendered.contains("<th class=\"pedia-table-header\" rowspan=\"3\" colspan=\"12\">"));
    validate_html_fragment(&rendered);
}

#[test]
fn section_with_id_is_valid_html() {
    let rendered = Section {
        title: text("Hello"),
        id: Some(Id::new("hello")),
        body: paragraph("World!"),
        children: vec![],
    }
    .to_html_string(&root());
    validate_html_fragment(&rendered);
}

#[test]
fn section_without_id_is_valid_html() {
    let rendered = Section {
        title: text("Hello"),
        id: None,
        body: paragraph("World!"),
        children: vec![],
    }
    .to_html_string(&root());
    validate_html_fragment(&rendered);
}

#[test]
fn section_with_children_is_valid_html() {
    let rendered = Section {
        title: text("Hello"),
        id: None,
        body: paragraph("World!"),
        children: vec![
            Section {
                title: text("Hey"),
                id: None,
                body: paragraph("Hey!"),
                children: vec![],
            },
            Section {
                title: text("Good"),
                id: Some(Id::new("good")),
                body: paragraph("Afternoon!"),
                children: vec![Section {
                    title: text("By"),
                    id: None,
                    body: paragraph("Bye!"),
                    children: vec![],
                }],
            },
            Section {
                title: text("Hay"),
                id: None,
                body: paragraph("Bay!"),
                children: vec![],
            },
        ],
    }
    .to_html_string(&root());
    validate_html_fragment(&rendered);
}

fn nested_sections(depth: usize) -> Section {
    let mut section = Section {
        title: text("deepest"),
        id: None,
        body: paragraph("bottom"),
        children: vec![],
    };
    for _ in 1..depth {
        section = Section {
            title: text("above"),
            id: None,
            body: paragraph("body"),
            children: vec![section],
        };
    }
    section
}

#[test]
fn deep_sections_clamp_to_h6() {
    let rendered = nested_sections(7).to_html_string(&root());
    assert!(rendered.contains("<h6 class=\"pedia-title\">"));
    assert!(!rendered.contains("<h7"));
    assert!(!rendered.contains("<h8"));
    let markdown = nested_sections(7).to_markdown_string(&root());
    assert!(markdown.contains("###### "));
    assert!(!markdown.contains("####### "));
    validate_html_fragment(&rendered);
}

#[test]
fn section_heading_scale_starts_at_h2() {
    let rendered = nested_sections(2).to_html_string(&root());
    assert!(rendered.contains("<h2 class=\"pedia-title\">"));
    assert!(rendered.contains("<h3 class=\"pedia-title\">"));
}

#[test]
fn stylesheet_is_valid_html() {
    let rendered = Asset::Stylesheet(Stylesheet { location: Location::internal("styles/main.css") })
        .to_html_string(&root());
    validate_html_fragment(&rendered);
}

#[test]
fn script_is_valid_html() {
    let rendered = Asset::Script(Script { location: Location::internal("js/main.js") })
        .to_html_string(&root());
    validate_html_fragment(&rendered);
}

fn sample_page() -> Page {
    Page {
        banner: Block::InlineBlock(InlineBlock(text("My Encyclopedia"))),
        title: String::from("Hello"),
        assets: vec![],
        body: paragraph("World!"),
        children: vec![],
    }
}

#[test]
fn page_without_banner_is_valid_html() {
    let page = Page {
        banner: Block::Sequence(vec![]),
        title: String::from("Hello"),
        assets: vec![],
        body: paragraph("World!"),
        children: vec![],
    };
    let rendered = page.to_html_string(&root());
    validate_html_document(&rendered);
}

#[test]
fn page_without_assets_is_valid_html() {
    let rendered = sample_page().to_html_string(&root());
    validate_html_document(&rendered);
}

#[test]
fn page_with_assets_is_valid_html() {
    let mut page = sample_page();
    page.assets = vec![
        Asset::Stylesheet(Stylesheet { location: Location::internal("styles/main.css") }),
        Asset::Script(Script { location: Location::internal("js/main.js") }),
    ];
    let rendered = page.to_html_string(&root());
    assert!(rendered.contains("styles/main.css"));
    assert!(rendered.contains("js/main.js"));
    validate_html_document(&rendered);
}

#[test]
fn page_with_children_is_valid_html() {
    let mut page = sample_page();
    page.body = paragraph("World, aaaa!");
    page.assets = vec![Asset::Stylesheet(Stylesheet {
        location: Location::internal("styles/main.css"),
    })];
    page.children = vec![
        Section {
            title: text("Hey"),
            id: None,
            body: paragraph("Hey!"),
            children: vec![],
        },
        Section {
            title: text("Good"),
            id: Some(Id::new("good")),
            body: paragraph("Afternoon!"),
            children: vec![Section {
                title: text("By"),
                id: None,
                body: paragraph("Bye!"),
                children: vec![],
            }],
        },
        Section {
            title: text("Hay"),
            id: None,
            body: paragraph("Bay!"),
            children: vec![],
        },
    ];
    let rendered = page.to_html_string(&root());
    validate_html_document(&rendered);
}

#[test]
fn markdown_paragraph_and_bold() {
    let rendered = Block::Sequence(vec![
        paragraph("one"),
        Block::InlineBlock(InlineBlock(Inline::Bold(Bold(Box::new(text("two")))))),
    ])
    .to_markdown_string(&root());
    assert_eq!(rendered, "one\n\n**two**");
}

#[test]
fn markdown_unordered_list() {
    let rendered = Block::UnorderedList(UnorderedList(vec![
        Block::InlineBlock(InlineBlock(text("a"))),
        Block::InlineBlock(InlineBlock(text("b"))),
    ]))
    .to_markdown_string(&root());
    assert_eq!(rendered, "-a\n-b\n");
}

#[test]
fn text_ordered_list_numbers_from_zero() {
    let rendered = Block::OrderedList(OrderedList(vec![
        Block::InlineBlock(InlineBlock(text("a"))),
        Block::InlineBlock(InlineBlock(text("b"))),
    ]))
    .to_text_string(&root());
    assert_eq!(rendered, "0. a\n1. b\n");
}

#[test]
fn nested_text_lists_indent() {
    let rendered = Block::UnorderedList(UnorderedList(vec![
        Block::InlineBlock(InlineBlock(text("outer"))),
        Block::UnorderedList(UnorderedList(vec![
            Block::InlineBlock(InlineBlock(text("a"))),
            Block::InlineBlock(InlineBlock(text("b"))),
        ])),
    ]))
    .to_text_string(&root());
    assert_eq!(rendered, "-outer\n--a\n    -b\n");
}

#[test]
fn link_markdown_uses_relative_url() {
    let page = InternalPath::parse("bar/index.html").unwrap();
    let rendered = Inline::Link(Link {
        location: Location::internal("bar/baz"),
        target: Box::new(text("Baz")),
    })
    .to_markdown_string(&page);
    assert_eq!(rendered, "[Baz](baz)");
}
