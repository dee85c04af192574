//! Block-level content nodes, including tables and lists.

use vstd::prelude::*;

use crate::component::inline::{Inline, InlineComponent};
use crate::component::location::location_href;
use crate::decimal::{append_dec, dec_str, dec_to_string};
use crate::escape::{escape_html, escape_md, html_escaped, md_escaped};
use crate::location::Location;
use crate::render::common_text::{
    ct_initial, lemma_run_concat, lemma_run_one, renders, run_out, run_state, TextEvent,
};
use crate::location::InternalPath;
use crate::render::{Context, Html, Markdown, Renderer, Text};

use super::ComponentKind;

verus! {

/// The kind of block components.
#[derive(Debug, Clone, Copy, PartialEq, Eq, Default)]
pub struct BlockComponent;

impl ComponentKind for BlockComponent {

}

/// The kind of table-cell components.
#[derive(Debug, Clone, Copy, PartialEq, Eq, Default)]
pub struct CellComponent;

impl ComponentKind for CellComponent {

}

/// The kind of table-row components.
#[derive(Debug, Clone, Copy, PartialEq, Eq, Default)]
pub struct RowComponent;

impl ComponentKind for RowComponent {

}

/// An inline node lifted to stand as a block.
#[derive(Debug)]
pub struct InlineBlock(pub Inline);

/// A paragraph of inline content.
#[derive(Debug)]
pub struct Paragraph(pub Inline);

/// A block shown bold.
#[derive(Debug)]
pub struct Bold(pub Box<Block>);

/// A block shown italic.
#[derive(Debug)]
pub struct Italic(pub Box<Block>);

/// A block shown preformatted.
#[derive(Debug)]
pub struct Preformatted(pub Box<Block>);

/// An unordered list of blocks.
#[derive(Debug)]
pub struct UnorderedList(pub Vec<Block>);

/// An ordered list of blocks.
#[derive(Debug)]
pub struct OrderedList(pub Vec<Block>);

/// An image shown as a block.
#[derive(Debug)]
pub struct Image {
    /// Where the image lives.
    pub location: Location,
    /// The text standing in for the image where it cannot show.
    pub alt: String,
}

/// An image with a legend under it.
#[derive(Debug)]
pub struct Figure {
    /// The image shown.
    pub image: Image,
    /// The legend under the image.
    pub legend: Inline,
}

/// Attributes of a table cell.
#[derive(Debug, Clone, Copy, PartialEq, Eq)]
pub struct CellAttrs {
    /// Whether the cell is a header cell.
    pub header: bool,
    /// How many rows the cell spans.
    pub rowspan: u32,
    /// How many columns the cell spans.
    pub colspan: u32,
}

impl Default for CellAttrs {
    /// A plain cell: not a header, spanning one row and one column.
    fn default() -> (r: CellAttrs)
        ensures
            r == (CellAttrs { header: false, rowspan: 1u32, colspan: 1u32 }),
    {
        CellAttrs { header: false, rowspan: 1, colspan: 1 }
    }
}

/// One cell of a table row.
#[derive(Debug)]
pub struct Cell {
    /// The block shown in the cell.
    pub child: Box<Block>,
    /// Header flag and spans.
    pub attrs: CellAttrs,
}

/// One row of a table.
#[derive(Debug)]
pub struct Row(pub Vec<Cell>);

/// A table of rows.
#[derive(Debug)]
pub struct Table(pub Vec<Row>);

/// A table with a caption above it.
#[derive(Debug)]
pub struct CaptionedTable {
    /// The caption shown above the table.
    pub caption: Inline,
    /// The table itself.
    pub table: Table,
}

/// A block-level content node.
#[derive(Debug)]
pub enum Block {
    /// An inline node standing as a block.
    InlineBlock(InlineBlock),
    /// A paragraph.
    Paragraph(Paragraph),
    /// Bold markup around a block.
    Bold(Bold),
    /// Italic markup around a block.
    Italic(Italic),
    /// Preformatted markup around a block.
    Preformatted(Preformatted),
    /// An unordered list.
    UnorderedList(UnorderedList),
    /// An ordered list.
    OrderedList(OrderedList),
    /// An image.
    Image(Image),
    /// An image with a legend.
    Figure(Figure),
    /// A table.
    Table(Table),
    /// A captioned table.
    CaptionedTable(CaptionedTable),
    /// Several blocks, rendered in order.
    Sequence(Vec<Block>),
}

impl Cell {
    /// Every location inside the cell passed validation.
    pub open spec fn wf(self) -> bool
        decreases self,
    {
        self.child.wf()
    }
}

impl Row {
    /// Every location inside the row passed validation.
    pub open spec fn wf(self) -> bool
        decreases self,
    {
        forall|i: int| 0 <= i < self.0@.len() ==> (#[trigger] self.0@[i]).wf()
    }
}

impl Table {
    /// Every location inside the table passed validation.
    pub open spec fn wf(self) -> bool
        decreases self,
    {
        forall|i: int| 0 <= i < self.0@.len() ==> (#[trigger] self.0@[i]).wf()
    }
}

impl Block {
    /// Every location inside the node passed validation.
    pub open spec fn wf(self) -> bool
        decreases self,
    {
        match self {
            Block::InlineBlock(b) => b.0.wf(),
            Block::Paragraph(p) => p.0.wf(),
            Block::Bold(b) => b.0.wf(),
            Block::Italic(b) => b.0.wf(),
            Block::Preformatted(b) => b.0.wf(),
            Block::UnorderedList(l) => forall|i: int|
                0 <= i < l.0@.len() ==> (#[trigger] l.0@[i]).wf(),
            Block::OrderedList(l) => forall|i: int|
                0 <= i < l.0@.len() ==> (#[trigger] l.0@[i]).wf(),
            Block::Image(im) => im.location.wf(),
            Block::Figure(f) => f.image.location.wf() && f.legend.wf(),
            Block::Table(t) => t.wf(),
            Block::CaptionedTable(t) => t.caption.wf() && t.table.wf(),
            Block::Sequence(v) => forall|i: int| 0 <= i < v@.len() ==> (#[trigger] v@[i]).wf(),
        }
    }
}

/// The HTML of an image: the `img` element with its source and its
/// stand-in text.
pub open spec fn image_html_out(im: Image, page: Seq<Seq<char>>) -> Seq<char> {
    "<img class=\"pedia-image\" src=\""@ + location_href(im.location, page) + "\" alt=\""@
        + html_escaped(im.alt@) + "\">"@
}

/// The HTML of a cell: `th` or `td` by the header flag, spans written
/// only when they are not one.
pub open spec fn cell_html_out(c: Cell, page: Seq<Seq<char>>) -> Seq<char>
    decreases c,
{
    cell_open(c.attrs, true) + c.child.html_out(page) + cell_close(c.attrs)
}

/// The opening of a cell element: the tag, the class in HTML, and the
/// spans when they are not one.
pub open spec fn cell_open(attrs: CellAttrs, html: bool) -> Seq<char> {
    (if attrs.header {
        if html {
            "<th class=\"pedia-table-header\""@
        } else {
            "<th"@
        }
    } else {
        if html {
            "<td class=\"pedia-table-cell\""@
        } else {
            "<td"@
        }
    }) + (if attrs.rowspan != 1 {
        " rowspan=\""@ + dec_str(attrs.rowspan as int) + "\""@
    } else {
        Seq::<char>::empty()
    }) + (if attrs.colspan != 1 {
        " colspan=\""@ + dec_str(attrs.colspan as int) + "\""@
    } else {
        Seq::<char>::empty()
    }) + ">"@
}

/// The closing of a cell element.
pub open spec fn cell_close(attrs: CellAttrs) -> Seq<char> {
    if attrs.header {
        "</th>"@
    } else {
        "</td>"@
    }
}

/// The HTML of the cells of a row, in order.
pub open spec fn cells_html_out(cells: Seq<Cell>, page: Seq<Seq<char>>) -> Seq<char>
    decreases cells,
{
    if cells.len() == 0 {
        Seq::empty()
    } else {
        cells_html_out(cells.drop_last(), page) + cell_html_out(cells.last(), page)
    }
}

/// The HTML of a row: the `tr` element around its cells.
pub open spec fn row_html_out(row: Row, page: Seq<Seq<char>>) -> Seq<char>
    decreases row,
{
    "<tr class=\"pedia-table-row\">"@ + cells_html_out(row.0@, page) + "</tr>"@
}

/// The HTML of the rows of a table, in order.
pub open spec fn rows_html_out(rows: Seq<Row>, page: Seq<Seq<char>>) -> Seq<char>
    decreases rows,
{
    if rows.len() == 0 {
        Seq::empty()
    } else {
        rows_html_out(rows.drop_last(), page) + row_html_out(rows.last(), page)
    }
}

/// The HTML of a sequence of blocks, in order.
pub open spec fn blocks_html_out(items: Seq<Block>, page: Seq<Seq<char>>) -> Seq<char>
    decreases items,
{
    if items.len() == 0 {
        Seq::empty()
    } else {
        blocks_html_out(items.drop_last(), page) + items.last().html_out(page)
    }
}

/// The HTML of the elements of a list: each block inside its own `li`
/// element.
pub open spec fn list_items_html_out(items: Seq<Block>, page: Seq<Seq<char>>) -> Seq<char>
    decreases items,
{
    if items.len() == 0 {
        Seq::empty()
    } else {
        list_items_html_out(items.drop_last(), page) + "<li class=\"pedia-list-elem\">"@
            + items.last().html_out(page) + "</li>"@
    }
}

impl Block {
    /// The HTML this node renders as, on the page at `page`.
    pub open spec fn html_out(self, page: Seq<Seq<char>>) -> Seq<char>
        decreases self,
    {
        match self {
            Block::InlineBlock(b) => "<span class=\"pedia-inline-block\">"@ + b.0.html_out(
                page,
            ) + "</span>"@,
            Block::Paragraph(p) => "<p class=\"pedia-paragraph\">"@ + p.0.html_out(page)
                + "<p>"@,
            Block::Bold(b) => "<div class=\"pedia-bold\">"@ + b.0.html_out(page) + "</div>"@,
            Block::Italic(b) => "<div class=\"pedia-italic\">"@ + b.0.html_out(page)
                + "</div>"@,
            Block::Preformatted(b) => "<div class=\"pedia-preformatted\">"@ + b.0.html_out(page)
                + "</div>"@,
            Block::UnorderedList(l) => "<ul class=\"pedia-unord-list\">"@ + list_items_html_out(
                l.0@,
                page,
            ) + "</ul>"@,
            Block::OrderedList(l) => "<ol class=\"pedia-ord-list\">"@ + list_items_html_out(
                l.0@,
                page,
            ) + "</ol>"@,
            Block::Image(im) => image_html_out(im, page),
            Block::Figure(f) => "<div class=\"pedia-figure\">"@ + image_html_out(f.image, page)
                + "<div class=\"pedia-figure-legend\">"@ + f.legend.html_out(page)
                + "</div></div>"@,
            Block::Table(t) => "<div class=\"pedia-table\"><table>"@ + rows_html_out(t.0@, page)
                + "</table></div>"@,
            Block::CaptionedTable(t) => "<div class=\"pedia-table\"><table><caption>"@
                + t.caption.html_out(page) + "</caption>"@ + rows_html_out(t.table.0@, page)
                + "</table></div>"@,
            Block::Sequence(v) => blocks_html_out(v@, page),
        }
    }
}

/// Renders an image as HTML.
fn render_image_html(im: &Image, r: &mut Renderer<Html>, ctx: Context<'_, BlockComponent>)
    requires
        im.location.wf(),
    ensures
        final(r).fmt() == old(r).fmt(),
        final(r).out() == old(r).out() + image_html_out(*im, ctx.path()),
{
    r.write_str("<img class=\"pedia-image\" src=\"");
    let href = crate::component::location::render_href(&im.location, ctx.location());
    r.write_str(href.as_str());
    r.write_str("\" alt=\"");
    let escaped = escape_html(im.alt.as_str());
    r.write_str(escaped.as_str());
    r.write_str("\">");
    proof {
        assert(r.out() =~= old(r).out() + image_html_out(*im, ctx.path()));
    }
}

/// Writes the opening of a cell element.
#[verifier::rlimit(50)]
fn write_cell_open(attrs: &CellAttrs, html: bool, out: &mut String)
    ensures
        final(out)@ == old(out)@ + cell_open(*attrs, html),
{
    if attrs.header {
        if html {
            out.append("<th class=\"pedia-table-header\"");
        } else {
            out.append("<th");
        }
    } else {
        if html {
            out.append("<td class=\"pedia-table-cell\"");
        } else {
            out.append("<td");
        }
    }
    if attrs.rowspan != 1 {
        out.append(" rowspan=\"");
        append_dec(attrs.rowspan as u64, out);
        out.append("\"");
    }
    if attrs.colspan != 1 {
        out.append(" colspan=\"");
        append_dec(attrs.colspan as u64, out);
        out.append("\"");
    }
    out.append(">");
    proof {
        assert(final(out)@ =~= old(out)@ + cell_open(*attrs, html));
    }
}

impl Cell {
    /// Renders this cell as HTML.
    pub fn render_html(&self, r: &mut Renderer<Html>, ctx: Context<'_, CellComponent>)
        requires
            self.wf(),
        ensures
            final(r).fmt() == old(r).fmt(),
            final(r).out() == old(r).out() + cell_html_out(*self, ctx.path()),
        decreases *self,
    {
        let mut open = String::new();
        write_cell_open(&self.attrs, true, &mut open);
        r.write_str(open.as_str());
        self.child.render_html(r, ctx.with_kind(BlockComponent));
        if self.attrs.header {
            r.write_str("</th>");
        } else {
            r.write_str("</td>");
        }
        proof {
            assert(r.out() =~= old(r).out() + cell_html_out(*self, ctx.path()));
        }
    }
}

impl Row {
    /// Renders this row as HTML.
    pub fn render_html(&self, r: &mut Renderer<Html>, ctx: Context<'_, RowComponent>)
        requires
            self.wf(),
        ensures
            final(r).fmt() == old(r).fmt(),
            final(r).out() == old(r).out() + row_html_out(*self, ctx.path()),
        decreases *self,
    {
        r.write_str("<tr class=\"pedia-table-row\">");
        let ghost mid0 = r.out();
        let v = &self.0;
        let mut i: usize = 0;
        while i < v.len()
            invariant
                0 <= i <= v.len(),
                *v == self.0,
                self.wf(),
                r.fmt() == old(r).fmt(),
                r.out() == mid0 + cells_html_out(v@.take(i as int), ctx.path()),
            decreases v.len() - i,
        {
            proof {
                assert(decreases_to!(*self => self.0));
                assert(decreases_to!(self.0 => self.0@));
                assert(decreases_to!(v@ => v@[i as int]));
            }
            let cell = &v[i];
            cell.render_html(r, ctx.with_kind(CellComponent));
            proof {
                assert(v@.take(i + 1).drop_last() =~= v@.take(i as int));
                assert(v@.take(i + 1).last() == v@[i as int]);
                assert(r.out() =~= mid0 + cells_html_out(v@.take(i + 1), ctx.path()));
            }
            i += 1;
        }
        r.write_str("</tr>");
        proof {
            assert(v@.take(v@.len() as int) =~= v@);
            assert(r.out() =~= old(r).out() + row_html_out(*self, ctx.path()));
        }
    }
}

/// Renders the rows of a table as HTML, in order.
fn render_rows_html(rows: &Vec<Row>, r: &mut Renderer<Html>, ctx: Context<'_, BlockComponent>)
    requires
        forall|i: int| 0 <= i < rows@.len() ==> (#[trigger] rows@[i]).wf(),
    ensures
        final(r).fmt() == old(r).fmt(),
        final(r).out() == old(r).out() + rows_html_out(rows@, ctx.path()),
    decreases rows@,
{
    let mut i: usize = 0;
    while i < rows.len()
        invariant
            0 <= i <= rows.len(),
            forall|j: int| 0 <= j < rows@.len() ==> (#[trigger] rows@[j]).wf(),
            r.fmt() == old(r).fmt(),
            r.out() == old(r).out() + rows_html_out(rows@.take(i as int), ctx.path()),
        decreases rows.len() - i,
    {
        proof {
            assert(decreases_to!(rows@ => rows@[i as int]));
        }
        let row = &rows[i];
        row.render_html(r, ctx.with_kind(RowComponent));
        proof {
            assert(rows@.take(i + 1).drop_last() =~= rows@.take(i as int));
            assert(rows@.take(i + 1).last() == rows@[i as int]);
            assert(r.out() =~= old(r).out() + rows_html_out(rows@.take(i + 1), ctx.path()));
        }
        i += 1;
    }
    proof {
        assert(rows@.take(rows@.len() as int) =~= rows@);
    }
}

impl Block {
    /// Renders this node as HTML.
    pub fn render_html(&self, r: &mut Renderer<Html>, ctx: Context<'_, BlockComponent>)
        requires
            self.wf(),
        ensures
            final(r).fmt() == old(r).fmt(),
            final(r).out() == old(r).out() + self.html_out(ctx.path()),
        decreases *self,
    {
        match self {
            Block::InlineBlock(b) => {
                r.write_str("<span class=\"pedia-inline-block\">");
                b.0.render_html(r, ctx.with_kind(InlineComponent));
                r.write_str("</span>");
                proof {
                    assert(r.out() =~= old(r).out() + self.html_out(ctx.path()));
                }
            },
            Block::Paragraph(p) => {
                r.write_str("<p class=\"pedia-paragraph\">");
                p.0.render_html(r, ctx.with_kind(InlineComponent));
                r.write_str("<p>");
                proof {
                    assert(r.out() =~= old(r).out() + self.html_out(ctx.path()));
                }
            },
            Block::Bold(b) => {
                r.write_str("<div class=\"pedia-bold\">");
                b.0.render_html(r, ctx);
                r.write_str("</div>");
                proof {
                    assert(r.out() =~= old(r).out() + self.html_out(ctx.path()));
                }
            },
            Block::Italic(b) => {
                r.write_str("<div class=\"pedia-italic\">");
                b.0.render_html(r, ctx);
                r.write_str("</div>");
                proof {
                    assert(r.out() =~= old(r).out() + self.html_out(ctx.path()));
                }
            },
            Block::Preformatted(b) => {
                r.write_str("<div class=\"pedia-preformatted\">");
                b.0.render_html(r, ctx);
                r.write_str("</div>");
                proof {
                    assert(r.out() =~= old(r).out() + self.html_out(ctx.path()));
                }
            },
            Block::UnorderedList(l) => {
                r.write_str("<ul class=\"pedia-unord-list\">");
                let ghost mid0 = r.out();
                let v = &l.0;
                let mut i: usize = 0;
                while i < v.len()
                    invariant
                        0 <= i <= v.len(),
                        *self == Block::UnorderedList(UnorderedList(*v)),
                        forall|j: int| 0 <= j < v@.len() ==> (#[trigger] v@[j]).wf(),
                        r.fmt() == old(r).fmt(),
                        r.out() == mid0 + list_items_html_out(v@.take(i as int), ctx.path()),
                    decreases v.len() - i,
                {
                    proof {
                        assert(decreases_to!(*self => self->UnorderedList_0));
                        assert(decreases_to!(self->UnorderedList_0 => self->UnorderedList_0.0));
                        assert(decreases_to!(*v => v@));
                        assert(decreases_to!(v@ => v@[i as int]));
                    }
                    r.write_str("<li class=\"pedia-list-elem\">");
                    let item = &v[i];
                    item.render_html(r, ctx);
                    r.write_str("</li>");
                    proof {
                        assert(v@.take(i + 1).drop_last() =~= v@.take(i as int));
                        assert(v@.take(i + 1).last() == v@[i as int]);
                        assert(r.out() =~= mid0 + list_items_html_out(v@.take(i + 1), ctx.path()));
                    }
                    i += 1;
                }
                r.write_str("</ul>");
                proof {
                    assert(v@.take(v@.len() as int) =~= v@);
                    assert(r.out() =~= old(r).out() + self.html_out(ctx.path()));
                }
            },
            Block::OrderedList(l) => {
                r.write_str("<ol class=\"pedia-ord-list\">");
                let ghost mid0 = r.out();
                let v = &l.0;
                let mut i: usize = 0;
                while i < v.len()
                    invariant
                        0 <= i <= v.len(),
                        *self == Block::OrderedList(OrderedList(*v)),
                        forall|j: int| 0 <= j < v@.len() ==> (#[trigger] v@[j]).wf(),
                        r.fmt() == old(r).fmt(),
                        r.out() == mid0 + list_items_html_out(v@.take(i as int), ctx.path()),
                    decreases v.len() - i,
                {
                    proof {
                        assert(decreases_to!(*self => self->OrderedList_0));
                        assert(decreases_to!(self->OrderedList_0 => self->OrderedList_0.0));
                        assert(decreases_to!(*v => v@));
                        assert(decreases_to!(v@ => v@[i as int]));
                    }
                    r.write_str("<li class=\"pedia-list-elem\">");
                    let item = &v[i];
                    item.render_html(r, ctx);
                    r.write_str("</li>");
                    proof {
                        assert(v@.take(i + 1).drop_last() =~= v@.take(i as int));
                        assert(v@.take(i + 1).last() == v@[i as int]);
                        assert(r.out() =~= mid0 + list_items_html_out(v@.take(i + 1), ctx.path()));
                    }
                    i += 1;
                }
                r.write_str("</ol>");
                proof {
                    assert(v@.take(v@.len() as int) =~= v@);
                    assert(r.out() =~= old(r).out() + self.html_out(ctx.path()));
                }
            },
            Block::Image(im) => {
                render_image_html(im, r, ctx);
            },
            Block::Figure(f) => {
                r.write_str("<div class=\"pedia-figure\">");
                render_image_html(&f.image, r, ctx);
                r.write_str("<div class=\"pedia-figure-legend\">");
                f.legend.render_html(r, ctx.with_kind(InlineComponent));
                r.write_str("</div></div>");
                proof {
                    assert(r.out() =~= old(r).out() + self.html_out(ctx.path()));
                }
            },
            Block::Table(t) => {
                r.write_str("<div class=\"pedia-table\"><table>");
                proof {
                    assert(t.wf());
                    assert(forall|j: int| 0 <= j < t.0@.len() ==> (#[trigger] t.0@[j]).wf());
                    assert(decreases_to!(*self => self->Table_0));
                    assert(decreases_to!(self->Table_0 => self->Table_0.0));
                    assert(decreases_to!(t.0 => t.0@));
                }
                render_rows_html(&t.0, r, ctx);
                r.write_str("</table></div>");
                proof {
                    assert(r.out() =~= old(r).out() + self.html_out(ctx.path()));
                }
            },
            Block::CaptionedTable(t) => {
                r.write_str("<div class=\"pedia-table\"><table><caption>");
                t.caption.render_html(r, ctx.with_kind(InlineComponent));
                r.write_str("</caption>");
                proof {
                    assert(t.table.wf());
                    assert(forall|j: int| 0 <= j < t.table.0@.len()
                        ==> (#[trigger] t.table.0@[j]).wf());
                    assert(decreases_to!(*self => self->CaptionedTable_0));
                    assert(decreases_to!(self->CaptionedTable_0 => self->CaptionedTable_0.table));
                    assert(decreases_to!(self->CaptionedTable_0.table
                        => self->CaptionedTable_0.table.0));
                    assert(decreases_to!(t.table.0 => t.table.0@));
                }
                render_rows_html(&t.table.0, r, ctx);
                r.write_str("</table></div>");
                proof {
                    assert(r.out() =~= old(r).out() + self.html_out(ctx.path()));
                }
            },
            Block::Sequence(v) => {
                let ghost out0 = r.out();
                proof {
                    assert(forall|j: int| 0 <= j < v@.len() ==> (#[trigger] v@[j]).wf());
                }
                let mut i: usize = 0;
                while i < v.len()
                    invariant
                        0 <= i <= v.len(),
                        *self == Block::Sequence(*v),
                        forall|j: int| 0 <= j < v@.len() ==> (#[trigger] v@[j]).wf(),
                        r.fmt() == old(r).fmt(),
                        r.out() == out0 + blocks_html_out(v@.take(i as int), ctx.path()),
                        out0 == old(r).out(),
                    decreases v.len() - i,
                {
                    proof {
                        assert(*v == self->Sequence_0);
                        assert(decreases_to!(*self => self->Sequence_0));
                        assert(decreases_to!(*v => v@));
                        assert(decreases_to!(v@ => v@[i as int]));
                    }
                    let item = &v[i];
                    item.render_html(r, ctx);
                    proof {
                        assert(v@.take(i + 1).drop_last() =~= v@.take(i as int));
                        assert(v@.take(i + 1).last() == v@[i as int]);
                        assert(r.out() =~= out0 + blocks_html_out(v@.take(i + 1), ctx.path()));
                    }
                    i += 1;
                }
                proof {
                    assert(v@.take(v@.len() as int) =~= v@);
                }
            },
        }
    }
}


/// The Markdown chunks of a cell.
pub open spec fn cell_md_events(c: Cell, page: Seq<Seq<char>>) -> Seq<TextEvent>
    decreases c,
{
    seq![TextEvent::Write(cell_open(c.attrs, false))] + c.child.md_events(page)
        + seq![TextEvent::Write(cell_close(c.attrs))]
}

/// The Markdown chunks of the cells of a row, in order.
pub open spec fn cells_md_events(cells: Seq<Cell>, page: Seq<Seq<char>>) -> Seq<TextEvent>
    decreases cells,
{
    if cells.len() == 0 {
        Seq::empty()
    } else {
        cells_md_events(cells.drop_last(), page) + cell_md_events(cells.last(), page)
    }
}

/// The Markdown chunks of a row.
pub open spec fn row_md_events(row: Row, page: Seq<Seq<char>>) -> Seq<TextEvent>
    decreases row,
{
    seq![TextEvent::Write("<tr>"@)] + cells_md_events(row.0@, page)
        + seq![TextEvent::Write("</tr>"@)]
}

/// The Markdown chunks of the rows of a table, in order.
pub open spec fn rows_md_events(rows: Seq<Row>, page: Seq<Seq<char>>) -> Seq<TextEvent>
    decreases rows,
{
    if rows.len() == 0 {
        Seq::empty()
    } else {
        rows_md_events(rows.drop_last(), page) + row_md_events(rows.last(), page)
    }
}

/// The Markdown chunks of an image.
pub open spec fn image_md_events(im: Image, page: Seq<Seq<char>>) -> Seq<TextEvent> {
    seq![TextEvent::Write("!["@)] + seq![TextEvent::Write(md_escaped(im.alt@))]
        + seq![TextEvent::Write("]("@)]
        + seq![TextEvent::Write(location_href(im.location, page))]
}

/// The Markdown chunks of one list element: a dash, the element, a line
/// break.
pub open spec fn list_items_md_events(items: Seq<Block>, page: Seq<Seq<char>>) -> Seq<TextEvent>
    decreases items,
{
    if items.len() == 0 {
        Seq::empty()
    } else {
        list_items_md_events(items.drop_last(), page) + seq![TextEvent::Write("-"@)]
            + items.last().md_events(page) + seq![TextEvent::Write("\n"@)]
    }
}

/// The Markdown chunks of a sequence of blocks, in order.
pub open spec fn blocks_md_events(items: Seq<Block>, page: Seq<Seq<char>>) -> Seq<TextEvent>
    decreases items,
{
    if items.len() == 0 {
        Seq::empty()
    } else {
        blocks_md_events(items.drop_last(), page) + items.last().md_events(page)
    }
}

impl Block {
    /// The chunks this node writes when rendered as Markdown, on the page
    /// at `page`.
    pub open spec fn md_events(self, page: Seq<Seq<char>>) -> Seq<TextEvent>
        decreases self,
    {
        match self {
            Block::InlineBlock(b) => b.0.md_events(page),
            Block::Paragraph(p) => p.0.md_events(page) + seq![TextEvent::Write("\n\n"@)],
            Block::Bold(b) => seq![TextEvent::Write("<b>"@)] + b.0.md_events(page)
                + seq![TextEvent::Write("</b>"@)],
            Block::Italic(b) => seq![TextEvent::Write("<i>"@)] + b.0.md_events(page)
                + seq![TextEvent::Write("</i>"@)],
            Block::Preformatted(b) => seq![TextEvent::Write("<pre>"@)] + b.0.md_events(page)
                + seq![TextEvent::Write("</pre>"@)],
            Block::UnorderedList(l) => seq![TextEvent::Enter] + list_items_md_events(l.0@, page)
                + seq![TextEvent::Exit],
            Block::OrderedList(l) => seq![TextEvent::Enter] + list_items_md_events(l.0@, page)
                + seq![TextEvent::Exit],
            Block::Image(im) => image_md_events(im, page) + seq![TextEvent::Write(")\n\n"@)],
            Block::Figure(f) => image_md_events(f.image, page)
                + seq![TextEvent::Write(")\n"@)] + f.legend.md_events(page)
                + seq![TextEvent::Write("\n"@)],
            Block::Table(t) => seq![TextEvent::Write("<table>"@)] + rows_md_events(t.0@, page)
                + seq![TextEvent::Write("</table>"@)],
            Block::CaptionedTable(t) => seq![TextEvent::Write("<table><caption>"@)]
                + t.caption.md_events(page) + seq![TextEvent::Write("</caption>"@)]
                + rows_md_events(t.table.0@, page) + seq![TextEvent::Write("</table>"@)],
            Block::Sequence(v) => blocks_md_events(v@, page),
        }
    }
}

/// The plain-text chunks of a cell: its block, bare.
pub open spec fn cell_text_events(c: Cell, page: Seq<Seq<char>>) -> Seq<TextEvent>
    decreases c,
{
    c.child.text_events(page)
}

/// The plain-text chunks of the cells of a row: each cell followed by a
/// line break.
pub open spec fn cells_text_events(cells: Seq<Cell>, page: Seq<Seq<char>>) -> Seq<TextEvent>
    decreases cells,
{
    if cells.len() == 0 {
        Seq::empty()
    } else {
        cells_text_events(cells.drop_last(), page) + cell_text_events(cells.last(), page)
            + seq![TextEvent::Write("\n"@)]
    }
}

/// The plain-text chunks of the rows of a table: each row under a rule,
/// followed by a blank line.
pub open spec fn rows_text_events(rows: Seq<Row>, page: Seq<Seq<char>>) -> Seq<TextEvent>
    decreases rows,
{
    if rows.len() == 0 {
        Seq::empty()
    } else {
        rows_text_events(rows.drop_last(), page)
            + seq![TextEvent::Write("- - - - - - - - - - -\n\n"@)]
            + cells_text_events(rows.last().0@, page) + seq![TextEvent::Write("\n"@)]
    }
}

/// The plain-text chunks of the elements of an unordered list.
pub open spec fn list_items_text_events(items: Seq<Block>, page: Seq<Seq<char>>) -> Seq<
    TextEvent,
>
    decreases items,
{
    if items.len() == 0 {
        Seq::empty()
    } else {
        list_items_text_events(items.drop_last(), page) + seq![TextEvent::Write("-"@)]
            + items.last().text_events(page) + seq![TextEvent::Write("\n"@)]
    }
}

/// The plain-text chunks of the elements of an ordered list: each element
/// is numbered by its position, starting at zero.
pub open spec fn numbered_items_text_events(items: Seq<Block>, page: Seq<Seq<char>>) -> Seq<
    TextEvent,
>
    decreases items,
{
    if items.len() == 0 {
        Seq::empty()
    } else {
        numbered_items_text_events(items.drop_last(), page)
            + seq![TextEvent::Write(dec_str(items.len() - 1) + ". "@)]
            + items.last().text_events(page) + seq![TextEvent::Write("\n"@)]
    }
}

/// The plain-text chunks of a sequence of blocks, in order.
pub open spec fn blocks_text_events(items: Seq<Block>, page: Seq<Seq<char>>) -> Seq<TextEvent>
    decreases items,
{
    if items.len() == 0 {
        Seq::empty()
    } else {
        blocks_text_events(items.drop_last(), page) + items.last().text_events(page)
    }
}

impl Block {
    /// The chunks this node writes when rendered as plain text.
    pub open spec fn text_events(self, page: Seq<Seq<char>>) -> Seq<TextEvent>
        decreases self,
    {
        match self {
            Block::InlineBlock(b) => b.0.text_events(page),
            Block::Paragraph(p) => p.0.text_events(page) + seq![TextEvent::Write("\n\n"@)],
            Block::Bold(b) => b.0.text_events(page),
            Block::Italic(b) => b.0.text_events(page),
            Block::Preformatted(b) => b.0.text_events(page),
            Block::UnorderedList(l) => seq![TextEvent::Enter] + list_items_text_events(
                l.0@,
                page,
            ) + seq![TextEvent::Exit],
            Block::OrderedList(l) => seq![TextEvent::Enter] + numbered_items_text_events(
                l.0@,
                page,
            ) + seq![TextEvent::Exit],
            Block::Image(im) => seq![TextEvent::Write("["@)]
                + seq![TextEvent::Write(im.alt@)] + seq![TextEvent::Write("]"@)],
            Block::Figure(f) => seq![TextEvent::Write("["@)]
                + seq![TextEvent::Write(f.image.alt@)] + seq![TextEvent::Write("]"@)]
                + seq![TextEvent::Write("("@)] + f.legend.text_events(page)
                + seq![TextEvent::Write(")"@)],
            Block::Table(t) => rows_text_events(t.0@, page),
            Block::CaptionedTable(t) => t.caption.text_events(page)
                + seq![TextEvent::Write("\n"@)] + rows_text_events(t.table.0@, page),
            Block::Sequence(v) => blocks_text_events(v@, page),
        }
    }
}

impl Cell {
    /// Renders this cell as Markdown.
    pub fn render_markdown(&self, r: &mut Renderer<Markdown>, ctx: Context<'_, CellComponent>)
        requires
            self.wf(),
        ensures
            renders(
                old(r).fmt()@,
                old(r).out(),
                final(r).fmt()@,
                final(r).out(),
                cell_md_events(*self, ctx.path()),
            ),
        decreases *self,
    {
        let ghost st0 = r.fmt()@;
        let ghost out0 = r.out();
        let ghost page = ctx.path();
        let mut open = String::new();
        write_cell_open(&self.attrs, false, &mut open);
        let ghost e1 = seq![TextEvent::Write(cell_open(self.attrs, false))];
        r.write_str(open.as_str());
        proof {
            lemma_run_one(st0, TextEvent::Write(cell_open(self.attrs, false)));
        }
        self.child.render_markdown(r, ctx.with_kind(BlockComponent));
        let ghost e2 = self.child.md_events(page);
        proof {
            lemma_run_concat(st0, e1, e2);
        }
        let ghost e3 = seq![TextEvent::Write(cell_close(self.attrs))];
        if self.attrs.header {
            r.write_str("</th>");
        } else {
            r.write_str("</td>");
        }
        proof {
            lemma_run_one(run_state(st0, e1 + e2), TextEvent::Write(cell_close(self.attrs)));
            lemma_run_concat(st0, e1 + e2, e3);
            assert(r.out() =~= out0 + run_out(st0, (e1 + e2) + e3));
        }
    }

    /// Renders this cell as plain text.
    pub fn render_text(&self, r: &mut Renderer<Text>, ctx: Context<'_, CellComponent>)
        requires
            self.wf(),
        ensures
            renders(
                old(r).fmt()@,
                old(r).out(),
                final(r).fmt()@,
                final(r).out(),
                cell_text_events(*self, ctx.path()),
            ),
        decreases *self,
    {
        self.child.render_text(r, ctx.with_kind(BlockComponent));
    }
}

/// Renders the cells of a row as Markdown, in order.
fn render_cells_md(cells: &Vec<Cell>, r: &mut Renderer<Markdown>, ctx: Context<'_, RowComponent>)
    requires
        forall|i: int| 0 <= i < cells@.len() ==> (#[trigger] cells@[i]).wf(),
    ensures
        renders(
            old(r).fmt()@,
            old(r).out(),
            final(r).fmt()@,
            final(r).out(),
            cells_md_events(cells@, ctx.path()),
        ),
    decreases cells@,
{
    let ghost st0 = r.fmt()@;
    let ghost out0 = r.out();
    let ghost page = ctx.path();
    proof {
        assert(cells@.take(0) =~= Seq::<Cell>::empty());
        assert(r.out() =~= out0 + run_out(st0, cells_md_events(cells@.take(0), page)));
    }
    let mut i: usize = 0;
    while i < cells.len()
        invariant
            0 <= i <= cells.len(),
            forall|j: int| 0 <= j < cells@.len() ==> (#[trigger] cells@[j]).wf(),
            page == ctx.path(),
            renders(st0, out0, r.fmt()@, r.out(), cells_md_events(cells@.take(i as int), page)),
            st0 == old(r).fmt()@,
            out0 == old(r).out(),
        decreases cells.len() - i,
    {
        proof {
            assert(decreases_to!(cells@ => cells@[i as int]));
        }
        let cell = &cells[i];
        cell.render_markdown(r, ctx.with_kind(CellComponent));
        proof {
            lemma_run_concat(
                st0,
                cells_md_events(cells@.take(i as int), page),
                cell_md_events(cells@[i as int], page),
            );
            assert(cells@.take(i + 1).drop_last() =~= cells@.take(i as int));
            assert(cells@.take(i + 1).last() == cells@[i as int]);
            assert(r.out() =~= out0 + run_out(st0, cells_md_events(cells@.take(i + 1), page)));
        }
        i += 1;
    }
    proof {
        assert(cells@.take(cells@.len() as int) =~= cells@);
    }
}

impl Row {
    /// Renders this row as Markdown.
    pub fn render_markdown(&self, r: &mut Renderer<Markdown>, ctx: Context<'_, RowComponent>)
        requires
            self.wf(),
        ensures
            renders(
                old(r).fmt()@,
                old(r).out(),
                final(r).fmt()@,
                final(r).out(),
                row_md_events(*self, ctx.path()),
            ),
        decreases *self,
    {
        let ghost st0 = r.fmt()@;
        let ghost out0 = r.out();
        let ghost page = ctx.path();
        let ghost e1 = seq![TextEvent::Write("<tr>"@)];
        r.write_str("<tr>");
        proof {
            lemma_run_one(st0, TextEvent::Write("<tr>"@));
            assert(decreases_to!(*self => self.0));
            assert(decreases_to!(self.0 => self.0@));
        }
        render_cells_md(&self.0, r, ctx);
        let ghost e2 = cells_md_events(self.0@, page);
        proof {
            lemma_run_concat(st0, e1, e2);
        }
        let ghost e3 = seq![TextEvent::Write("</tr>"@)];
        r.write_str("</tr>");
        proof {
            lemma_run_one(run_state(st0, e1 + e2), TextEvent::Write("</tr>"@));
            lemma_run_concat(st0, e1 + e2, e3);
            assert(r.out() =~= out0 + run_out(st0, (e1 + e2) + e3));
        }
    }
}

/// Renders the rows of a table as Markdown, in order.
fn render_rows_md(rows: &Vec<Row>, r: &mut Renderer<Markdown>, ctx: Context<'_, BlockComponent>)
    requires
        forall|i: int| 0 <= i < rows@.len() ==> (#[trigger] rows@[i]).wf(),
    ensures
        renders(
            old(r).fmt()@,
            old(r).out(),
            final(r).fmt()@,
            final(r).out(),
            rows_md_events(rows@, ctx.path()),
        ),
    decreases rows@,
{
    let ghost st0 = r.fmt()@;
    let ghost out0 = r.out();
    let ghost page = ctx.path();
    proof {
        assert(rows@.take(0) =~= Seq::<Row>::empty());
        assert(r.out() =~= out0 + run_out(st0, rows_md_events(rows@.take(0), page)));
    }
    let mut i: usize = 0;
    while i < rows.len()
        invariant
            0 <= i <= rows.len(),
            forall|j: int| 0 <= j < rows@.len() ==> (#[trigger] rows@[j]).wf(),
            page == ctx.path(),
            renders(st0, out0, r.fmt()@, r.out(), rows_md_events(rows@.take(i as int), page)),
            st0 == old(r).fmt()@,
            out0 == old(r).out(),
        decreases rows.len() - i,
    {
        proof {
            assert(decreases_to!(rows@ => rows@[i as int]));
        }
        let row = &rows[i];
        row.render_markdown(r, ctx.with_kind(RowComponent));
        proof {
            lemma_run_concat(
                st0,
                rows_md_events(rows@.take(i as int), page),
                row_md_events(rows@[i as int], page),
            );
            assert(rows@.take(i + 1).drop_last() =~= rows@.take(i as int));
            assert(rows@.take(i + 1).last() == rows@[i as int]);
            assert(r.out() =~= out0 + run_out(st0, rows_md_events(rows@.take(i + 1), page)));
        }
        i += 1;
    }
    proof {
        assert(rows@.take(rows@.len() as int) =~= rows@);
    }
}

impl Block {
    /// Renders this node as Markdown.
    pub fn render_markdown(&self, r: &mut Renderer<Markdown>, ctx: Context<'_, BlockComponent>)
        requires
            self.wf(),
        ensures
            renders(
                old(r).fmt()@,
                old(r).out(),
                final(r).fmt()@,
                final(r).out(),
                self.md_events(ctx.path()),
            ),
        decreases *self,
    {
        let ghost st0 = r.fmt()@;
        let ghost out0 = r.out();
        let ghost page = ctx.path();
        match self {
            Block::InlineBlock(b) => {
                b.0.render_markdown(r, ctx.with_kind(InlineComponent));
            },
            Block::Paragraph(p) => {
                p.0.render_markdown(r, ctx.with_kind(InlineComponent));
                let ghost e1 = p.0.md_events(page);
                r.write_str("\n\n");
                proof {
                    lemma_run_one(run_state(st0, e1), TextEvent::Write("\n\n"@));
                    lemma_run_concat(st0, e1, seq![TextEvent::Write("\n\n"@)]);
                    assert(r.out() =~= out0 + run_out(
                        st0,
                        e1 + seq![TextEvent::Write("\n\n"@)],
                    ));
                }
            },
            Block::Bold(b) => {
                let ghost e1 = seq![TextEvent::Write("<b>"@)];
                r.write_str("<b>");
                proof {
                    lemma_run_one(st0, TextEvent::Write("<b>"@));
                }
                b.0.render_markdown(r, ctx);
                let ghost e2 = b.0.md_events(page);
                proof {
                    lemma_run_concat(st0, e1, e2);
                }
                let ghost e3 = seq![TextEvent::Write("</b>"@)];
                r.write_str("</b>");
                proof {
                    lemma_run_one(run_state(st0, e1 + e2), TextEvent::Write("</b>"@));
                    lemma_run_concat(st0, e1 + e2, e3);
                    assert(r.out() =~= out0 + run_out(st0, (e1 + e2) + e3));
                }
            },
            Block::Italic(b) => {
                let ghost e1 = seq![TextEvent::Write("<i>"@)];
                r.write_str("<i>");
                proof {
                    lemma_run_one(st0, TextEvent::Write("<i>"@));
                }
                b.0.render_markdown(r, ctx);
                let ghost e2 = b.0.md_events(page);
                proof {
                    lemma_run_concat(st0, e1, e2);
                }
                let ghost e3 = seq![TextEvent::Write("</i>"@)];
                r.write_str("</i>");
                proof {
                    lemma_run_one(run_state(st0, e1 + e2), TextEvent::Write("</i>"@));
                    lemma_run_concat(st0, e1 + e2, e3);
                    assert(r.out() =~= out0 + run_out(st0, (e1 + e2) + e3));
                }
            },
            Block::Preformatted(b) => {
                let ghost e1 = seq![TextEvent::Write("<pre>"@)];
                r.write_str("<pre>");
                proof {
                    lemma_run_one(st0, TextEvent::Write("<pre>"@));
                }
                b.0.render_markdown(r, ctx);
                let ghost e2 = b.0.md_events(page);
                proof {
                    lemma_run_concat(st0, e1, e2);
                }
                let ghost e3 = seq![TextEvent::Write("</pre>"@)];
                r.write_str("</pre>");
                proof {
                    lemma_run_one(run_state(st0, e1 + e2), TextEvent::Write("</pre>"@));
                    lemma_run_concat(st0, e1 + e2, e3);
                    assert(r.out() =~= out0 + run_out(st0, (e1 + e2) + e3));
                }
            },
            Block::UnorderedList(l) => {
                r.nest_enter();
                proof {
                    lemma_run_one(st0, TextEvent::Enter);
                    assert(l.0@.take(0) =~= Seq::<Block>::empty());
                    assert(seq![TextEvent::Enter] + list_items_md_events(l.0@.take(0), page)
                        =~= seq![TextEvent::Enter]);
                    assert(r.out() =~= out0 + run_out(
                        st0,
                        seq![TextEvent::Enter] + list_items_md_events(l.0@.take(0), page),
                    ));
                }
                let v = &l.0;
                let mut i: usize = 0;
                while i < v.len()
                    invariant
                        0 <= i <= v.len(),
                        *self == Block::UnorderedList(UnorderedList(*v)),
                        forall|j: int| 0 <= j < v@.len() ==> (#[trigger] v@[j]).wf(),
                        page == ctx.path(),
                        renders(
                            st0,
                            out0,
                            r.fmt()@,
                            r.out(),
                            seq![TextEvent::Enter] + list_items_md_events(
                                v@.take(i as int),
                                page,
                            ),
                        ),
                        st0 == old(r).fmt()@,
                        out0 == old(r).out(),
                    decreases v.len() - i,
                {
                    let ghost base = seq![TextEvent::Enter] + list_items_md_events(
                        v@.take(i as int),
                        page,
                    );
                    r.write_str("-");
                    proof {
                        lemma_run_one(run_state(st0, base), TextEvent::Write("-"@));
                        lemma_run_concat(st0, base, seq![TextEvent::Write("-"@)]);
                        assert(decreases_to!(*self => self->UnorderedList_0));
                        assert(decreases_to!(self->UnorderedList_0
                            => self->UnorderedList_0.0));
                        assert(decreases_to!(*v => v@));
                        assert(decreases_to!(v@ => v@[i as int]));
                    }
                    let item = &v[i];
                    item.render_markdown(r, ctx);
                    let ghost ev = v@[i as int].md_events(page);
                    proof {
                        lemma_run_concat(st0, base + seq![TextEvent::Write("-"@)], ev);
                    }
                    r.write_str("\n");
                    proof {
                        lemma_run_one(
                            run_state(st0, (base + seq![TextEvent::Write("-"@)]) + ev),
                            TextEvent::Write("\n"@),
                        );
                        lemma_run_concat(
                            st0,
                            (base + seq![TextEvent::Write("-"@)]) + ev,
                            seq![TextEvent::Write("\n"@)],
                        );
                        assert(v@.take(i + 1).drop_last() =~= v@.take(i as int));
                        assert(v@.take(i + 1).last() == v@[i as int]);
                        assert(seq![TextEvent::Enter] + list_items_md_events(
                            v@.take(i + 1),
                            page,
                        ) =~= ((base + seq![TextEvent::Write("-"@)]) + ev) + seq![
                            TextEvent::Write("\n"@),
                        ]);
                        assert(r.out() =~= out0 + run_out(
                            st0,
                            seq![TextEvent::Enter] + list_items_md_events(v@.take(i + 1), page),
                        ));
                    }
                    i += 1;
                }
                let ghost body = seq![TextEvent::Enter] + list_items_md_events(v@, page);
                proof {
                    assert(v@.take(v@.len() as int) =~= v@);
                }
                r.nest_exit();
                proof {
                    lemma_run_one(run_state(st0, body), TextEvent::Exit);
                    lemma_run_concat(st0, body, seq![TextEvent::Exit]);
                    assert(self.md_events(page) =~= body + seq![TextEvent::Exit]);
                    assert(r.out() =~= out0 + run_out(st0, self.md_events(page)));
                }
            },
            Block::OrderedList(l) => {
                r.nest_enter();
                proof {
                    lemma_run_one(st0, TextEvent::Enter);
                    assert(l.0@.take(0) =~= Seq::<Block>::empty());
                    assert(seq![TextEvent::Enter] + list_items_md_events(l.0@.take(0), page)
                        =~= seq![TextEvent::Enter]);
                    assert(r.out() =~= out0 + run_out(
                        st0,
                        seq![TextEvent::Enter] + list_items_md_events(l.0@.take(0), page),
                    ));
                }
                let v = &l.0;
                let mut i: usize = 0;
                while i < v.len()
                    invariant
                        0 <= i <= v.len(),
                        *self == Block::OrderedList(OrderedList(*v)),
                        forall|j: int| 0 <= j < v@.len() ==> (#[trigger] v@[j]).wf(),
                        page == ctx.path(),
                        renders(
                            st0,
                            out0,
                            r.fmt()@,
                            r.out(),
                            seq![TextEvent::Enter] + list_items_md_events(
                                v@.take(i as int),
                                page,
                            ),
                        ),
                        st0 == old(r).fmt()@,
                        out0 == old(r).out(),
                    decreases v.len() - i,
                {
                    let ghost base = seq![TextEvent::Enter] + list_items_md_events(
                        v@.take(i as int),
                        page,
                    );
                    r.write_str("-");
                    proof {
                        lemma_run_one(run_state(st0, base), TextEvent::Write("-"@));
                        lemma_run_concat(st0, base, seq![TextEvent::Write("-"@)]);
                        assert(decreases_to!(*self => self->OrderedList_0));
                        assert(decreases_to!(self->OrderedList_0 => self->OrderedList_0.0));
                        assert(decreases_to!(*v => v@));
                        assert(decreases_to!(v@ => v@[i as int]));
                    }
                    let item = &v[i];
                    item.render_markdown(r, ctx);
                    let ghost ev = v@[i as int].md_events(page);
                    proof {
                        lemma_run_concat(st0, base + seq![TextEvent::Write("-"@)], ev);
                    }
                    r.write_str("\n");
                    proof {
                        lemma_run_one(
                            run_state(st0, (base + seq![TextEvent::Write("-"@)]) + ev),
                            TextEvent::Write("\n"@),
                        );
                        lemma_run_concat(
                            st0,
                            (base + seq![TextEvent::Write("-"@)]) + ev,
                            seq![TextEvent::Write("\n"@)],
                        );
                        assert(v@.take(i + 1).drop_last() =~= v@.take(i as int));
                        assert(v@.take(i + 1).last() == v@[i as int]);
                        assert(seq![TextEvent::Enter] + list_items_md_events(
                            v@.take(i + 1),
                            page,
                        ) =~= ((base + seq![TextEvent::Write("-"@)]) + ev) + seq![
                            TextEvent::Write("\n"@),
                        ]);
                        assert(r.out() =~= out0 + run_out(
                            st0,
                            seq![TextEvent::Enter] + list_items_md_events(v@.take(i + 1), page),
                        ));
                    }
                    i += 1;
                }
                let ghost body = seq![TextEvent::Enter] + list_items_md_events(v@, page);
                proof {
                    assert(v@.take(v@.len() as int) =~= v@);
                }
                r.nest_exit();
                proof {
                    lemma_run_one(run_state(st0, body), TextEvent::Exit);
                    lemma_run_concat(st0, body, seq![TextEvent::Exit]);
                    assert(self.md_events(page) =~= body + seq![TextEvent::Exit]);
                    assert(r.out() =~= out0 + run_out(st0, self.md_events(page)));
                }
            },
            Block::Image(im) => {
                let ghost e1 = seq![TextEvent::Write("!["@)];
                r.write_str("![");
                proof {
                    lemma_run_one(st0, TextEvent::Write("!["@));
                }
                let escaped = escape_md(im.alt.as_str());
                let ghost e2 = seq![TextEvent::Write(md_escaped(im.alt@))];
                r.write_str(escaped.as_str());
                proof {
                    lemma_run_one(run_state(st0, e1), TextEvent::Write(md_escaped(im.alt@)));
                    lemma_run_concat(st0, e1, e2);
                }
                let ghost e3 = seq![TextEvent::Write("]("@)];
                r.write_str("](");
                proof {
                    lemma_run_one(run_state(st0, e1 + e2), TextEvent::Write("]("@));
                    lemma_run_concat(st0, e1 + e2, e3);
                }
                let href = crate::component::location::render_href(&im.location, ctx.location());
                let ghost e4 = seq![TextEvent::Write(location_href(im.location, page))];
                r.write_str(href.as_str());
                proof {
                    lemma_run_one(
                        run_state(st0, (e1 + e2) + e3),
                        TextEvent::Write(location_href(im.location, page)),
                    );
                    lemma_run_concat(st0, (e1 + e2) + e3, e4);
                }
                let ghost e5 = seq![TextEvent::Write(")\n\n"@)];
                r.write_str(")\n\n");
                proof {
                    lemma_run_one(
                        run_state(st0, ((e1 + e2) + e3) + e4),
                        TextEvent::Write(")\n\n"@),
                    );
                    lemma_run_concat(st0, ((e1 + e2) + e3) + e4, e5);
                    assert(self.md_events(page) =~= (((e1 + e2) + e3) + e4) + e5);
                    assert(r.out() =~= out0 + run_out(st0, self.md_events(page)));
                }
            },
            Block::Figure(f) => {
                let ghost e1 = seq![TextEvent::Write("!["@)];
                r.write_str("![");
                proof {
                    lemma_run_one(st0, TextEvent::Write("!["@));
                }
                let escaped = escape_md(f.image.alt.as_str());
                let ghost e2 = seq![TextEvent::Write(md_escaped(f.image.alt@))];
                r.write_str(escaped.as_str());
                proof {
                    lemma_run_one(
                        run_state(st0, e1),
                        TextEvent::Write(md_escaped(f.image.alt@)),
                    );
                    lemma_run_concat(st0, e1, e2);
                }
                let ghost e3 = seq![TextEvent::Write("]("@)];
                r.write_str("](");
                proof {
                    lemma_run_one(run_state(st0, e1 + e2), TextEvent::Write("]("@));
                    lemma_run_concat(st0, e1 + e2, e3);
                }
                let href = crate::component::location::render_href(
                    &f.image.location,
                    ctx.location(),
                );
                let ghost e4 = seq![TextEvent::Write(location_href(f.image.location, page))];
                r.write_str(href.as_str());
                proof {
                    lemma_run_one(
                        run_state(st0, (e1 + e2) + e3),
                        TextEvent::Write(location_href(f.image.location, page)),
                    );
                    lemma_run_concat(st0, (e1 + e2) + e3, e4);
                }
                let ghost e5 = seq![TextEvent::Write(")\n"@)];
                r.write_str(")\n");
                proof {
                    lemma_run_one(
                        run_state(st0, ((e1 + e2) + e3) + e4),
                        TextEvent::Write(")\n"@),
                    );
                    lemma_run_concat(st0, ((e1 + e2) + e3) + e4, e5);
                }
                f.legend.render_markdown(r, ctx.with_kind(InlineComponent));
                let ghost e6 = f.legend.md_events(page);
                proof {
                    lemma_run_concat(st0, (((e1 + e2) + e3) + e4) + e5, e6);
                }
                let ghost e7 = seq![TextEvent::Write("\n"@)];
                r.write_str("\n");
                proof {
                    lemma_run_one(
                        run_state(st0, ((((e1 + e2) + e3) + e4) + e5) + e6),
                        TextEvent::Write("\n"@),
                    );
                    lemma_run_concat(st0, ((((e1 + e2) + e3) + e4) + e5) + e6, e7);
                    assert(self.md_events(page) =~= (((((e1 + e2) + e3) + e4) + e5) + e6) + e7);
                    assert(r.out() =~= out0 + run_out(st0, self.md_events(page)));
                }
            },
            Block::Table(tb) => {
                let ghost e1 = seq![TextEvent::Write("<table>"@)];
                r.write_str("<table>");
                proof {
                    lemma_run_one(st0, TextEvent::Write("<table>"@));
                    assert(tb.wf());
                    assert(forall|j: int| 0 <= j < tb.0@.len() ==> (#[trigger] tb.0@[j]).wf());
                    assert(decreases_to!(*self => self->Table_0));
                    assert(decreases_to!(self->Table_0 => self->Table_0.0));
                    assert(decreases_to!(tb.0 => tb.0@));
                }
                render_rows_md(&tb.0, r, ctx);
                let ghost e2 = rows_md_events(tb.0@, page);
                proof {
                    lemma_run_concat(st0, e1, e2);
                }
                let ghost e3 = seq![TextEvent::Write("</table>"@)];
                r.write_str("</table>");
                proof {
                    lemma_run_one(run_state(st0, e1 + e2), TextEvent::Write("</table>"@));
                    lemma_run_concat(st0, e1 + e2, e3);
                    assert(r.out() =~= out0 + run_out(st0, (e1 + e2) + e3));
                }
            },
            Block::CaptionedTable(tb) => {
                let ghost e1 = seq![TextEvent::Write("<table><caption>"@)];
                r.write_str("<table><caption>");
                proof {
                    lemma_run_one(st0, TextEvent::Write("<table><caption>"@));
                }
                tb.caption.render_markdown(r, ctx.with_kind(InlineComponent));
                let ghost e2 = tb.caption.md_events(page);
                proof {
                    lemma_run_concat(st0, e1, e2);
                }
                let ghost e3 = seq![TextEvent::Write("</caption>"@)];
                r.write_str("</caption>");
                proof {
                    lemma_run_one(run_state(st0, e1 + e2), TextEvent::Write("</caption>"@));
                    lemma_run_concat(st0, e1 + e2, e3);
                    assert(tb.table.wf());
                    assert(forall|j: int| 0 <= j < tb.table.0@.len()
                        ==> (#[trigger] tb.table.0@[j]).wf());
                    assert(decreases_to!(*self => self->CaptionedTable_0));
                    assert(decreases_to!(self->CaptionedTable_0
                        => self->CaptionedTable_0.table));
                    assert(decreases_to!(self->CaptionedTable_0.table
                        => self->CaptionedTable_0.table.0));
                    assert(decreases_to!(tb.table.0 => tb.table.0@));
                }
                render_rows_md(&tb.table.0, r, ctx);
                let ghost e4 = rows_md_events(tb.table.0@, page);
                proof {
                    lemma_run_concat(st0, (e1 + e2) + e3, e4);
                }
                let ghost e5 = seq![TextEvent::Write("</table>"@)];
                r.write_str("</table>");
                proof {
                    lemma_run_one(
                        run_state(st0, ((e1 + e2) + e3) + e4),
                        TextEvent::Write("</table>"@),
                    );
                    lemma_run_concat(st0, ((e1 + e2) + e3) + e4, e5);
                    assert(r.out() =~= out0 + run_out(st0, (((e1 + e2) + e3) + e4) + e5));
                }
            },
            Block::Sequence(v) => {
                proof {
                    assert(forall|j: int| 0 <= j < v@.len() ==> (#[trigger] v@[j]).wf());
                    assert(v@.take(0) =~= Seq::<Block>::empty());
                    assert(r.out() =~= out0 + run_out(st0, blocks_md_events(v@.take(0), page)));
                }
                let mut i: usize = 0;
                while i < v.len()
                    invariant
                        0 <= i <= v.len(),
                        *self == Block::Sequence(*v),
                        forall|j: int| 0 <= j < v@.len() ==> (#[trigger] v@[j]).wf(),
                        page == ctx.path(),
                        renders(
                            st0,
                            out0,
                            r.fmt()@,
                            r.out(),
                            blocks_md_events(v@.take(i as int), page),
                        ),
                        st0 == old(r).fmt()@,
                        out0 == old(r).out(),
                    decreases v.len() - i,
                {
                    proof {
                        assert(*v == self->Sequence_0);
                        assert(decreases_to!(*self => self->Sequence_0));
                        assert(decreases_to!(*v => v@));
                        assert(decreases_to!(v@ => v@[i as int]));
                    }
                    let item = &v[i];
                    item.render_markdown(r, ctx);
                    proof {
                        lemma_run_concat(
                            st0,
                            blocks_md_events(v@.take(i as int), page),
                            v@[i as int].md_events(page),
                        );
                        assert(v@.take(i + 1).drop_last() =~= v@.take(i as int));
                        assert(v@.take(i + 1).last() == v@[i as int]);
                        assert(r.out() =~= out0 + run_out(
                            st0,
                            blocks_md_events(v@.take(i + 1), page),
                        ));
                    }
                    i += 1;
                }
                proof {
                    assert(v@.take(v@.len() as int) =~= v@);
                }
            },
        }
    }
}

/// Renders the cells of a row as plain text, one line each.
fn render_cells_text(cells: &Vec<Cell>, r: &mut Renderer<Text>, ctx: Context<'_, RowComponent>)
    requires
        forall|i: int| 0 <= i < cells@.len() ==> (#[trigger] cells@[i]).wf(),
    ensures
        renders(
            old(r).fmt()@,
            old(r).out(),
            final(r).fmt()@,
            final(r).out(),
            cells_text_events(cells@, ctx.path()),
        ),
    decreases cells@,
{
    let ghost st0 = r.fmt()@;
    let ghost out0 = r.out();
    let ghost page = ctx.path();
    proof {
        assert(cells@.take(0) =~= Seq::<Cell>::empty());
        assert(r.out() =~= out0 + run_out(st0, cells_text_events(cells@.take(0), page)));
    }
    let mut i: usize = 0;
    while i < cells.len()
        invariant
            0 <= i <= cells.len(),
            forall|j: int| 0 <= j < cells@.len() ==> (#[trigger] cells@[j]).wf(),
            page == ctx.path(),
            renders(st0, out0, r.fmt()@, r.out(), cells_text_events(cells@.take(i as int), page)),
            st0 == old(r).fmt()@,
            out0 == old(r).out(),
        decreases cells.len() - i,
    {
        let ghost base = cells_text_events(cells@.take(i as int), page);
        proof {
            assert(decreases_to!(cells@ => cells@[i as int]));
        }
        let cell = &cells[i];
        cell.render_text(r, ctx.with_kind(CellComponent));
        let ghost ev = cell_text_events(cells@[i as int], page);
        proof {
            lemma_run_concat(st0, base, ev);
        }
        r.write_str("\n");
        proof {
            lemma_run_one(run_state(st0, base + ev), TextEvent::Write("\n"@));
            lemma_run_concat(st0, base + ev, seq![TextEvent::Write("\n"@)]);
            assert(cells@.take(i + 1).drop_last() =~= cells@.take(i as int));
            assert(cells@.take(i + 1).last() == cells@[i as int]);
            assert(cells_text_events(cells@.take(i + 1), page) =~= (base + ev) + seq![
                TextEvent::Write("\n"@),
            ]);
            assert(r.out() =~= out0 + run_out(st0, cells_text_events(cells@.take(i + 1), page)));
        }
        i += 1;
    }
    proof {
        assert(cells@.take(cells@.len() as int) =~= cells@);
    }
}

/// Renders the rows of a table as plain text: each row under a rule.
fn render_rows_text(rows: &Vec<Row>, r: &mut Renderer<Text>, ctx: Context<'_, BlockComponent>)
    requires
        forall|i: int| 0 <= i < rows@.len() ==> (#[trigger] rows@[i]).wf(),
    ensures
        renders(
            old(r).fmt()@,
            old(r).out(),
            final(r).fmt()@,
            final(r).out(),
            rows_text_events(rows@, ctx.path()),
        ),
    decreases rows@,
{
    let ghost st0 = r.fmt()@;
    let ghost out0 = r.out();
    let ghost page = ctx.path();
    proof {
        assert(rows@.take(0) =~= Seq::<Row>::empty());
        assert(r.out() =~= out0 + run_out(st0, rows_text_events(rows@.take(0), page)));
    }
    let mut i: usize = 0;
    while i < rows.len()
        invariant
            0 <= i <= rows.len(),
            forall|j: int| 0 <= j < rows@.len() ==> (#[trigger] rows@[j]).wf(),
            page == ctx.path(),
            renders(st0, out0, r.fmt()@, r.out(), rows_text_events(rows@.take(i as int), page)),
            st0 == old(r).fmt()@,
            out0 == old(r).out(),
        decreases rows.len() - i,
    {
        let ghost base = rows_text_events(rows@.take(i as int), page);
        r.write_str("- - - - - - - - - - -\n\n");
        proof {
            lemma_run_one(run_state(st0, base), TextEvent::Write("- - - - - - - - - - -\n\n"@));
            lemma_run_concat(
                st0,
                base,
                seq![TextEvent::Write("- - - - - - - - - - -\n\n"@)],
            );
            assert(decreases_to!(rows@ => rows@[i as int]));
            assert(rows@[i as int].wf());
            assert(forall|j: int| 0 <= j < rows@[i as int].0@.len()
                ==> (#[trigger] rows@[i as int].0@[j]).wf());
            assert(decreases_to!(rows@[i as int] => rows@[i as int].0));
            assert(decreases_to!(rows@[i as int].0 => rows@[i as int].0@));
        }
        let ghost base2 = base + seq![TextEvent::Write("- - - - - - - - - - -\n\n"@)];
        let row = &rows[i];
        render_cells_text(&row.0, r, ctx.with_kind(RowComponent));
        let ghost ev = cells_text_events(rows@[i as int].0@, page);
        proof {
            lemma_run_concat(st0, base2, ev);
        }
        r.write_str("\n");
        proof {
            lemma_run_one(run_state(st0, base2 + ev), TextEvent::Write("\n"@));
            lemma_run_concat(st0, base2 + ev, seq![TextEvent::Write("\n"@)]);
            assert(rows@.take(i + 1).drop_last() =~= rows@.take(i as int));
            assert(rows@.take(i + 1).last() == rows@[i as int]);
            assert(rows_text_events(rows@.take(i + 1), page) =~= (base2 + ev) + seq![
                TextEvent::Write("\n"@),
            ]);
            assert(r.out() =~= out0 + run_out(st0, rows_text_events(rows@.take(i + 1), page)));
        }
        i += 1;
    }
    proof {
        assert(rows@.take(rows@.len() as int) =~= rows@);
    }
}

impl Block {
    /// Renders this node as plain text.
    pub fn render_text(&self, r: &mut Renderer<Text>, ctx: Context<'_, BlockComponent>)
        requires
            self.wf(),
        ensures
            renders(
                old(r).fmt()@,
                old(r).out(),
                final(r).fmt()@,
                final(r).out(),
                self.text_events(ctx.path()),
            ),
        decreases *self,
    {
        let ghost st0 = r.fmt()@;
        let ghost out0 = r.out();
        let ghost page = ctx.path();
        match self {
            Block::InlineBlock(b) => {
                b.0.render_text(r, ctx.with_kind(InlineComponent));
            },
            Block::Paragraph(p) => {
                p.0.render_text(r, ctx.with_kind(InlineComponent));
                let ghost e1 = p.0.text_events(page);
                r.write_str("\n\n");
                proof {
                    lemma_run_one(run_state(st0, e1), TextEvent::Write("\n\n"@));
                    lemma_run_concat(st0, e1, seq![TextEvent::Write("\n\n"@)]);
                    assert(r.out() =~= out0 + run_out(
                        st0,
                        e1 + seq![TextEvent::Write("\n\n"@)],
                    ));
                }
            },
            Block::Bold(b) => {
                b.0.render_text(r, ctx);
            },
            Block::Italic(b) => {
                b.0.render_text(r, ctx);
            },
            Block::Preformatted(b) => {
                b.0.render_text(r, ctx);
            },
            Block::UnorderedList(l) => {
                r.nest_enter();
                proof {
                    lemma_run_one(st0, TextEvent::Enter);
                    assert(l.0@.take(0) =~= Seq::<Block>::empty());
                    assert(seq![TextEvent::Enter] + list_items_text_events(l.0@.take(0), page)
                        =~= seq![TextEvent::Enter]);
                    assert(r.out() =~= out0 + run_out(
                        st0,
                        seq![TextEvent::Enter] + list_items_text_events(l.0@.take(0), page),
                    ));
                }
                let v = &l.0;
                let mut i: usize = 0;
                while i < v.len()
                    invariant
                        0 <= i <= v.len(),
                        *self == Block::UnorderedList(UnorderedList(*v)),
                        forall|j: int| 0 <= j < v@.len() ==> (#[trigger] v@[j]).wf(),
                        page == ctx.path(),
                        renders(
                            st0,
                            out0,
                            r.fmt()@,
                            r.out(),
                            seq![TextEvent::Enter] + list_items_text_events(
                                v@.take(i as int),
                                page,
                            ),
                        ),
                        st0 == old(r).fmt()@,
                        out0 == old(r).out(),
                    decreases v.len() - i,
                {
                    let ghost base = seq![TextEvent::Enter] + list_items_text_events(
                        v@.take(i as int),
                        page,
                    );
                    r.write_str("-");
                    proof {
                        lemma_run_one(run_state(st0, base), TextEvent::Write("-"@));
                        lemma_run_concat(st0, base, seq![TextEvent::Write("-"@)]);
                        assert(decreases_to!(*self => self->UnorderedList_0));
                        assert(decreases_to!(self->UnorderedList_0
                            => self->UnorderedList_0.0));
                        assert(decreases_to!(*v => v@));
                        assert(decreases_to!(v@ => v@[i as int]));
                    }
                    let item = &v[i];
                    item.render_text(r, ctx);
                    let ghost ev = v@[i as int].text_events(page);
                    proof {
                        lemma_run_concat(st0, base + seq![TextEvent::Write("-"@)], ev);
                    }
                    r.write_str("\n");
                    proof {
                        lemma_run_one(
                            run_state(st0, (base + seq![TextEvent::Write("-"@)]) + ev),
                            TextEvent::Write("\n"@),
                        );
                        lemma_run_concat(
                            st0,
                            (base + seq![TextEvent::Write("-"@)]) + ev,
                            seq![TextEvent::Write("\n"@)],
                        );
                        assert(v@.take(i + 1).drop_last() =~= v@.take(i as int));
                        assert(v@.take(i + 1).last() == v@[i as int]);
                        assert(seq![TextEvent::Enter] + list_items_text_events(
                            v@.take(i + 1),
                            page,
                        ) =~= ((base + seq![TextEvent::Write("-"@)]) + ev) + seq![
                            TextEvent::Write("\n"@),
                        ]);
                        assert(r.out() =~= out0 + run_out(
                            st0,
                            seq![TextEvent::Enter] + list_items_text_events(
                                v@.take(i + 1),
                                page,
                            ),
                        ));
                    }
                    i += 1;
                }
                let ghost body = seq![TextEvent::Enter] + list_items_text_events(v@, page);
                proof {
                    assert(v@.take(v@.len() as int) =~= v@);
                }
                r.nest_exit();
                proof {
                    lemma_run_one(run_state(st0, body), TextEvent::Exit);
                    lemma_run_concat(st0, body, seq![TextEvent::Exit]);
                    assert(self.text_events(page) =~= body + seq![TextEvent::Exit]);
                    assert(r.out() =~= out0 + run_out(st0, self.text_events(page)));
                }
            },
            Block::OrderedList(l) => {
                r.nest_enter();
                proof {
                    lemma_run_one(st0, TextEvent::Enter);
                    assert(l.0@.take(0) =~= Seq::<Block>::empty());
                    assert(seq![TextEvent::Enter] + numbered_items_text_events(
                        l.0@.take(0),
                        page,
                    ) =~= seq![TextEvent::Enter]);
                    assert(r.out() =~= out0 + run_out(
                        st0,
                        seq![TextEvent::Enter] + numbered_items_text_events(
                            l.0@.take(0),
                            page,
                        ),
                    ));
                }
                let v = &l.0;
                let mut i: usize = 0;
                while i < v.len()
                    invariant
                        0 <= i <= v.len(),
                        *self == Block::OrderedList(OrderedList(*v)),
                        forall|j: int| 0 <= j < v@.len() ==> (#[trigger] v@[j]).wf(),
                        page == ctx.path(),
                        renders(
                            st0,
                            out0,
                            r.fmt()@,
                            r.out(),
                            seq![TextEvent::Enter] + numbered_items_text_events(
                                v@.take(i as int),
                                page,
                            ),
                        ),
                        st0 == old(r).fmt()@,
                        out0 == old(r).out(),
                    decreases v.len() - i,
                {
                    let ghost base = seq![TextEvent::Enter] + numbered_items_text_events(
                        v@.take(i as int),
                        page,
                    );
                    let mut label = dec_to_string(i as u64);
                    label.append(". ");
                    let ghost lbl = dec_str(i as int) + ". "@;
                    r.write_str(label.as_str());
                    proof {
                        lemma_run_one(run_state(st0, base), TextEvent::Write(lbl));
                        lemma_run_concat(st0, base, seq![TextEvent::Write(lbl)]);
                        assert(decreases_to!(*self => self->OrderedList_0));
                        assert(decreases_to!(self->OrderedList_0 => self->OrderedList_0.0));
                        assert(decreases_to!(*v => v@));
                        assert(decreases_to!(v@ => v@[i as int]));
                    }
                    let item = &v[i];
                    item.render_text(r, ctx);
                    let ghost ev = v@[i as int].text_events(page);
                    proof {
                        lemma_run_concat(st0, base + seq![TextEvent::Write(lbl)], ev);
                    }
                    r.write_str("\n");
                    proof {
                        lemma_run_one(
                            run_state(st0, (base + seq![TextEvent::Write(lbl)]) + ev),
                            TextEvent::Write("\n"@),
                        );
                        lemma_run_concat(
                            st0,
                            (base + seq![TextEvent::Write(lbl)]) + ev,
                            seq![TextEvent::Write("\n"@)],
                        );
                        assert(v@.take(i + 1).drop_last() =~= v@.take(i as int));
                        assert(v@.take(i + 1).last() == v@[i as int]);
                        assert(v@.take(i + 1).len() - 1 == i as int);
                        assert(seq![TextEvent::Enter] + numbered_items_text_events(
                            v@.take(i + 1),
                            page,
                        ) =~= ((base + seq![TextEvent::Write(lbl)]) + ev) + seq![
                            TextEvent::Write("\n"@),
                        ]);
                        assert(r.out() =~= out0 + run_out(
                            st0,
                            seq![TextEvent::Enter] + numbered_items_text_events(
                                v@.take(i + 1),
                                page,
                            ),
                        ));
                    }
                    i += 1;
                }
                let ghost body = seq![TextEvent::Enter] + numbered_items_text_events(v@, page);
                proof {
                    assert(v@.take(v@.len() as int) =~= v@);
                }
                r.nest_exit();
                proof {
                    lemma_run_one(run_state(st0, body), TextEvent::Exit);
                    lemma_run_concat(st0, body, seq![TextEvent::Exit]);
                    assert(self.text_events(page) =~= body + seq![TextEvent::Exit]);
                    assert(r.out() =~= out0 + run_out(st0, self.text_events(page)));
                }
            },
            Block::Image(im) => {
                let ghost e1 = seq![TextEvent::Write("["@)];
                r.write_str("[");
                proof {
                    lemma_run_one(st0, TextEvent::Write("["@));
                }
                let ghost e2 = seq![TextEvent::Write(im.alt@)];
                r.write_str(im.alt.as_str());
                proof {
                    lemma_run_one(run_state(st0, e1), TextEvent::Write(im.alt@));
                    lemma_run_concat(st0, e1, e2);
                }
                let ghost e3 = seq![TextEvent::Write("]"@)];
                r.write_str("]");
                proof {
                    lemma_run_one(run_state(st0, e1 + e2), TextEvent::Write("]"@));
                    lemma_run_concat(st0, e1 + e2, e3);
                    assert(r.out() =~= out0 + run_out(st0, (e1 + e2) + e3));
                }
            },
            Block::Figure(f) => {
                let ghost e1 = seq![TextEvent::Write("["@)];
                r.write_str("[");
                proof {
                    lemma_run_one(st0, TextEvent::Write("["@));
                }
                let ghost e2 = seq![TextEvent::Write(f.image.alt@)];
                r.write_str(f.image.alt.as_str());
                proof {
                    lemma_run_one(run_state(st0, e1), TextEvent::Write(f.image.alt@));
                    lemma_run_concat(st0, e1, e2);
                }
                let ghost e3 = seq![TextEvent::Write("]"@)];
                r.write_str("]");
                proof {
                    lemma_run_one(run_state(st0, e1 + e2), TextEvent::Write("]"@));
                    lemma_run_concat(st0, e1 + e2, e3);
                }
                let ghost e4 = seq![TextEvent::Write("("@)];
                r.write_str("(");
                proof {
                    lemma_run_one(run_state(st0, (e1 + e2) + e3), TextEvent::Write("("@));
                    lemma_run_concat(st0, (e1 + e2) + e3, e4);
                }
                f.legend.render_text(r, ctx.with_kind(InlineComponent));
                let ghost e5 = f.legend.text_events(page);
                proof {
                    lemma_run_concat(st0, ((e1 + e2) + e3) + e4, e5);
                }
                let ghost e6 = seq![TextEvent::Write(")"@)];
                r.write_str(")");
                proof {
                    lemma_run_one(
                        run_state(st0, (((e1 + e2) + e3) + e4) + e5),
                        TextEvent::Write(")"@),
                    );
                    lemma_run_concat(st0, (((e1 + e2) + e3) + e4) + e5, e6);
                    assert(self.text_events(page) =~= ((((e1 + e2) + e3) + e4) + e5) + e6);
                    assert(r.out() =~= out0 + run_out(st0, self.text_events(page)));
                }
            },
            Block::Table(tb) => {
                proof {
                    assert(tb.wf());
                    assert(forall|j: int| 0 <= j < tb.0@.len() ==> (#[trigger] tb.0@[j]).wf());
                    assert(decreases_to!(*self => self->Table_0));
                    assert(decreases_to!(self->Table_0 => self->Table_0.0));
                    assert(decreases_to!(tb.0 => tb.0@));
                }
                render_rows_text(&tb.0, r, ctx);
            },
            Block::CaptionedTable(tb) => {
                tb.caption.render_text(r, ctx.with_kind(InlineComponent));
                let ghost e1 = tb.caption.text_events(page);
                r.write_str("\n");
                proof {
                    lemma_run_one(run_state(st0, e1), TextEvent::Write("\n"@));
                    lemma_run_concat(st0, e1, seq![TextEvent::Write("\n"@)]);
                    assert(tb.table.wf());
                    assert(forall|j: int| 0 <= j < tb.table.0@.len()
                        ==> (#[trigger] tb.table.0@[j]).wf());
                    assert(decreases_to!(*self => self->CaptionedTable_0));
                    assert(decreases_to!(self->CaptionedTable_0
                        => self->CaptionedTable_0.table));
                    assert(decreases_to!(self->CaptionedTable_0.table
                        => self->CaptionedTable_0.table.0));
                    assert(decreases_to!(tb.table.0 => tb.table.0@));
                }
                render_rows_text(&tb.table.0, r, ctx);
                let ghost e2 = rows_text_events(tb.table.0@, page);
                proof {
                    lemma_run_concat(st0, e1 + seq![TextEvent::Write("\n"@)], e2);
                    assert(self.text_events(page) =~= (e1 + seq![TextEvent::Write("\n"@)]) + e2);
                    assert(r.out() =~= out0 + run_out(st0, self.text_events(page)));
                }
            },
            Block::Sequence(v) => {
                proof {
                    assert(forall|j: int| 0 <= j < v@.len() ==> (#[trigger] v@[j]).wf());
                    assert(v@.take(0) =~= Seq::<Block>::empty());
                    assert(r.out() =~= out0 + run_out(
                        st0,
                        blocks_text_events(v@.take(0), page),
                    ));
                }
                let mut i: usize = 0;
                while i < v.len()
                    invariant
                        0 <= i <= v.len(),
                        *self == Block::Sequence(*v),
                        forall|j: int| 0 <= j < v@.len() ==> (#[trigger] v@[j]).wf(),
                        page == ctx.path(),
                        renders(
                            st0,
                            out0,
                            r.fmt()@,
                            r.out(),
                            blocks_text_events(v@.take(i as int), page),
                        ),
                        st0 == old(r).fmt()@,
                        out0 == old(r).out(),
                    decreases v.len() - i,
                {
                    proof {
                        assert(*v == self->Sequence_0);
                        assert(decreases_to!(*self => self->Sequence_0));
                        assert(decreases_to!(*v => v@));
                        assert(decreases_to!(v@ => v@[i as int]));
                    }
                    let item = &v[i];
                    item.render_text(r, ctx);
                    proof {
                        lemma_run_concat(
                            st0,
                            blocks_text_events(v@.take(i as int), page),
                            v@[i as int].text_events(page),
                        );
                        assert(v@.take(i + 1).drop_last() =~= v@.take(i as int));
                        assert(v@.take(i + 1).last() == v@[i as int]);
                        assert(r.out() =~= out0 + run_out(
                            st0,
                            blocks_text_events(v@.take(i + 1), page),
                        ));
                    }
                    i += 1;
                }
                proof {
                    assert(v@.take(v@.len() as int) =~= v@);
                }
            },
        }
    }
}

impl Block {
    /// The HTML this node renders as, on the page at `page`.
    pub fn to_html_string(&self, page: &InternalPath) -> (r: String)
        requires
            self.wf(),
        ensures
            r@ == self.html_out(page@),
    {
        let mut rd = Renderer::new(Html);
        self.render_html(&mut rd, Context::new(page, BlockComponent));
        let out = rd.into_output();
        proof {
            assert(out@ =~= self.html_out(page@));
        }
        out
    }

    /// The Markdown this node renders as, through a fresh default
    /// normalizer.
    pub fn to_markdown_string(&self, page: &InternalPath) -> (r: String)
        requires
            self.wf(),
        ensures
            r@ == run_out(ct_initial(4), self.md_events(page@)),
    {
        let mut rd = Renderer::new(Markdown::new(4));
        self.render_markdown(&mut rd, Context::new(page, BlockComponent));
        let out = rd.into_output();
        proof {
            assert(out@ =~= run_out(ct_initial(4), self.md_events(page@)));
        }
        out
    }

    /// The plain text this node renders as, through a fresh default
    /// normalizer.
    pub fn to_text_string(&self, page: &InternalPath) -> (r: String)
        requires
            self.wf(),
        ensures
            r@ == run_out(ct_initial(4), self.text_events(page@)),
    {
        let mut rd = Renderer::new(Text::new(4));
        self.render_text(&mut rd, Context::new(page, BlockComponent));
        let out = rd.into_output();
        proof {
            assert(out@ =~= run_out(ct_initial(4), self.text_events(page@)));
        }
        out
    }
}

impl Row {
    /// Renders this row as plain text: each cell on its own line.
    pub fn render_text(&self, r: &mut Renderer<Text>, ctx: Context<'_, RowComponent>)
        requires
            self.wf(),
        ensures
            renders(
                old(r).fmt()@,
                old(r).out(),
                final(r).fmt()@,
                final(r).out(),
                cells_text_events(self.0@, ctx.path()),
            ),
        decreases *self,
    {
        proof {
            assert(decreases_to!(*self => self.0));
            assert(decreases_to!(self.0 => self.0@));
        }
        render_cells_text(&self.0, r, ctx);
    }
}

impl Cell {
    /// Confirms at run time that every location inside the cell is well
    /// formed.
    pub fn check_wf(&self) -> (r: bool)
        ensures
            r == self.wf(),
        decreases *self,
    {
        self.child.check_wf()
    }
}

impl Row {
    /// Confirms at run time that every location inside the row is well
    /// formed.
    pub fn check_wf(&self) -> (r: bool)
        ensures
            r == self.wf(),
        decreases *self,
    {
        let v = &self.0;
        let mut i: usize = 0;
        while i < v.len()
            invariant
                0 <= i <= v@.len(),
                *v == self.0,
                forall|j: int| 0 <= j < i ==> (#[trigger] v@[j]).wf(),
            decreases v@.len() - i,
        {
            proof {
                assert(decreases_to!(*self => self.0));
                assert(decreases_to!(*v => v@));
                assert(decreases_to!(v@ => v@[i as int]));
            }
            if !v[i].check_wf() {
                return false;
            }
            i += 1;
        }
        true
    }
}

impl Table {
    /// Confirms at run time that every location inside the table is well
    /// formed.
    pub fn check_wf(&self) -> (r: bool)
        ensures
            r == self.wf(),
        decreases *self,
    {
        let v = &self.0;
        let mut i: usize = 0;
        while i < v.len()
            invariant
                0 <= i <= v@.len(),
                *v == self.0,
                forall|j: int| 0 <= j < i ==> (#[trigger] v@[j]).wf(),
            decreases v@.len() - i,
        {
            proof {
                assert(decreases_to!(*self => self.0));
                assert(decreases_to!(*v => v@));
                assert(decreases_to!(v@ => v@[i as int]));
            }
            if !v[i].check_wf() {
                return false;
            }
            i += 1;
        }
        true
    }
}

impl Block {
    /// Confirms at run time that every location inside the node is well
    /// formed; nodes built from validated locations always are.
    pub fn check_wf(&self) -> (r: bool)
        ensures
            r == self.wf(),
        decreases *self,
    {
        match self {
            Block::InlineBlock(b) => b.0.check_wf(),
            Block::Paragraph(p) => p.0.check_wf(),
            Block::Bold(b) => b.0.check_wf(),
            Block::Italic(b) => b.0.check_wf(),
            Block::Preformatted(b) => b.0.check_wf(),
            Block::UnorderedList(l) => {
                let v = &l.0;
                let mut i: usize = 0;
                while i < v.len()
                    invariant
                        0 <= i <= v@.len(),
                        *self == Block::UnorderedList(UnorderedList(*v)),
                        forall|j: int| 0 <= j < i ==> (#[trigger] v@[j]).wf(),
                    decreases v@.len() - i,
                {
                    proof {
                        assert(decreases_to!(*self => self->UnorderedList_0));
                        assert(decreases_to!(self->UnorderedList_0
                            => self->UnorderedList_0.0));
                        assert(decreases_to!(*v => v@));
                        assert(decreases_to!(v@ => v@[i as int]));
                    }
                    if !v[i].check_wf() {
                        return false;
                    }
                    i += 1;
                }
                true
            },
            Block::OrderedList(l) => {
                let v = &l.0;
                let mut i: usize = 0;
                while i < v.len()
                    invariant
                        0 <= i <= v@.len(),
                        *self == Block::OrderedList(OrderedList(*v)),
                        forall|j: int| 0 <= j < i ==> (#[trigger] v@[j]).wf(),
                    decreases v@.len() - i,
                {
                    proof {
                        assert(decreases_to!(*self => self->OrderedList_0));
                        assert(decreases_to!(self->OrderedList_0 => self->OrderedList_0.0));
                        assert(decreases_to!(*v => v@));
                        assert(decreases_to!(v@ => v@[i as int]));
                    }
                    if !v[i].check_wf() {
                        return false;
                    }
                    i += 1;
                }
                true
            },
            Block::Image(im) => im.location.check_wf(),
            Block::Figure(f) => f.image.location.check_wf() && f.legend.check_wf(),
            Block::Table(t) => {
                proof {
                    assert(decreases_to!(*self => self->Table_0));
                }
                t.check_wf()
            },
            Block::CaptionedTable(t) => {
                proof {
                    assert(decreases_to!(*self => self->CaptionedTable_0));
                    assert(decreases_to!(self->CaptionedTable_0
                        => self->CaptionedTable_0.table));
                }
                t.caption.check_wf() && t.table.check_wf()
            },
            Block::Sequence(v) => {
                let mut i: usize = 0;
                while i < v.len()
                    invariant
                        0 <= i <= v@.len(),
                        *self == Block::Sequence(*v),
                        forall|j: int| 0 <= j < i ==> (#[trigger] v@[j]).wf(),
                    decreases v@.len() - i,
                {
                    proof {
                        assert(decreases_to!(*self => self->Sequence_0));
                        assert(decreases_to!(*v => v@));
                        assert(decreases_to!(v@ => v@[i as int]));
                    }
                    if !v[i].check_wf() {
                        return false;
                    }
                    i += 1;
                }
                true
            },
        }
    }
}

} // verus!
