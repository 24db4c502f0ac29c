//! The layout of a terminal snapshot as a vector drawing.
//!
//! Every cell of the grid is a box of [`CELL_WIDTH`] by [`CELL_HEIGHT`]
//! units. The drawing holds a black background, then for each cell, row by
//! row, a filled box where the cell has a background colour and a piece of
//! text where the cell shows something.

use vstd::prelude::*;
use vstd::string::*;
use crate::frame_renderer::{color_rgb, parse_color};
use crate::terminal::{Cell, CellView, ScreenView};
use crate::types::{RgbaFrame, RgbaImage, TerminalFrame};
use crate::{Error, ErrorView};

verus! {

/// The size of the font, and with it the height of a cell.
pub const FONT_SIZE: u16 = 10;

/// The width of a cell.
pub const CELL_WIDTH: u16 = 6;

/// The height of a cell.
pub const CELL_HEIGHT: u16 = 10;

/// How far above the bottom of its cell the baseline of a text lies.
pub const TEXT_RISE: u16 = 3;

/// The colour of the background of the drawing.
pub const BACKGROUND: (u8, u8, u8) = (0, 0, 0);

/// The colour of text without a colour of its own.
pub const FOREGROUND: (u8, u8, u8) = (255, 255, 255);

/// One shape of a drawing.
#[derive(Debug)]
pub enum SvgNode {
    /// A filled box without outline.
    Rect { x: u16, y: u16, width: u16, height: u16, fill: (u8, u8, u8) },
    /// A piece of text in a monospace font of the given size, in a box of
    /// the given width and height, with its baseline starting at
    /// (`x`, `y`).
    Text {
        x: u16,
        y: u16,
        width: u16,
        height: u16,
        size: u16,
        content: String,
        fill: (u8, u8, u8),
    },
}

/// Mathematical model of an [`SvgNode`].
pub enum SvgNodeView {
    Rect { x: u16, y: u16, width: u16, height: u16, fill: (u8, u8, u8) },
    Text {
        x: u16,
        y: u16,
        width: u16,
        height: u16,
        size: u16,
        content: Seq<char>,
        fill: (u8, u8, u8),
    },
}

impl View for SvgNode {
    type V = SvgNodeView;

    open spec fn view(&self) -> SvgNodeView {
        match self {
            SvgNode::Rect { x, y, width, height, fill } => SvgNodeView::Rect {
                x: *x,
                y: *y,
                width: *width,
                height: *height,
                fill: *fill,
            },
            SvgNode::Text { x, y, width, height, size, content, fill } => SvgNodeView::Text {
                x: *x,
                y: *y,
                width: *width,
                height: *height,
                size: *size,
                content: content@,
                fill: *fill,
            },
        }
    }
}

/// The views of the shapes of a drawing, in order.
pub open spec fn nodes_view(nodes: Seq<SvgNode>) -> Seq<SvgNodeView> {
    Seq::new(nodes.len(), |i: int| nodes[i]@)
}

/// The drawing of one terminal snapshot.
#[derive(Debug)]
pub struct SvgFrame {
    /// The position of the frame in the animation, counted from zero.
    pub index: u64,
    /// The time of the frame on the animation's timeline, in microseconds.
    pub time: u64,
    /// The shapes of the drawing, from the bottom one to the top one.
    pub doc: Vec<SvgNode>,
    /// The height of the drawing.
    pub height: u16,
    /// The width of the drawing.
    pub width: u16,
}

/// Whether the drawing of a grid of `rows` by `cols` cells has a width and
/// a height that fit 16 bits.
pub open spec fn drawable(rows: u16, cols: u16) -> bool {
    rows * CELL_HEIGHT <= u16::MAX && cols * CELL_WIDTH <= u16::MAX
}

/// Whether a cell shows text: its contents are neither empty nor a single
/// space.
pub open spec fn shows_text(cell: CellView) -> bool {
    cell.contents.len() != 0 && cell.contents != " "@
}

/// The box behind the cell at (`row`, `col`), where the cell has a
/// background colour.
pub open spec fn cell_box(cell: CellView, row: int, col: int) -> Seq<SvgNodeView> {
    match color_rgb(cell.bgcolor) {
        Some(fill) => seq![
            SvgNodeView::Rect {
                x: (col * CELL_WIDTH) as u16,
                y: (row * CELL_HEIGHT) as u16,
                width: CELL_WIDTH,
                height: CELL_HEIGHT,
                fill,
            },
        ],
        None => Seq::empty(),
    }
}

/// The text of the cell at (`row`, `col`), where the cell shows text: in
/// the cell's foreground colour, or in [`FOREGROUND`] where it has none.
pub open spec fn cell_text(cell: CellView, row: int, col: int) -> Seq<SvgNodeView> {
    if shows_text(cell) {
        seq![
            SvgNodeView::Text {
                x: (col * CELL_WIDTH) as u16,
                y: ((row + 1) * CELL_HEIGHT - TEXT_RISE) as u16,
                width: CELL_WIDTH,
                height: CELL_HEIGHT,
                size: FONT_SIZE,
                content: cell.contents,
                fill: match color_rgb(cell.fgcolor) {
                    Some(fill) => fill,
                    None => FOREGROUND,
                },
            },
        ]
    } else {
        Seq::empty()
    }
}

/// The shapes of the cell at (`row`, `col`): its box, then its text.
pub open spec fn cell_nodes(cell: CellView, row: int, col: int) -> Seq<SvgNodeView> {
    cell_box(cell, row, col) + cell_text(cell, row, col)
}

/// The shapes of the first `upto` cells of row `row`, from left to right.
pub open spec fn row_nodes(screen: ScreenView, row: int, upto: int) -> Seq<SvgNodeView>
    decreases upto,
{
    if upto <= 0 {
        Seq::empty()
    } else {
        row_nodes(screen, row, upto - 1) + cell_nodes(
            screen.cells[row][upto - 1],
            row,
            upto - 1,
        )
    }
}

/// The shapes of the first `upto` rows, from top to bottom.
pub open spec fn grid_nodes(screen: ScreenView, upto: int) -> Seq<SvgNodeView>
    decreases upto,
{
    if upto <= 0 {
        Seq::empty()
    } else {
        grid_nodes(screen, upto - 1) + row_nodes(screen, upto - 1, screen.cols as int)
    }
}

/// The shapes of the drawing of a screen: the background, which covers the
/// whole drawing, then the shapes of the cells.
pub open spec fn screen_nodes(screen: ScreenView) -> Seq<SvgNodeView> {
    seq![
        SvgNodeView::Rect {
            x: 0,
            y: 0,
            width: (screen.cols * CELL_WIDTH) as u16,
            height: (screen.rows * CELL_HEIGHT) as u16,
            fill: BACKGROUND,
        },
    ] + grid_nodes(screen, screen.rows as int)
}

/// Appends the shapes of one cell to a drawing.
fn push_cell(doc: &mut Vec<SvgNode>, cell: &Cell, row: u16, col: u16)
    requires
        (row + 1) * CELL_HEIGHT <= u16::MAX,
        (col + 1) * CELL_WIDTH <= u16::MAX,
    ensures
        nodes_view(final(doc)@) == nodes_view(old(doc)@) + cell_nodes(
            cell@,
            row as int,
            col as int,
        ),
{
    let ghost before = nodes_view(doc@);
    match parse_color(cell.bgcolor) {
        Some(fill) => {
            doc.push(
                SvgNode::Rect {
                    x: col * CELL_WIDTH,
                    y: row * CELL_HEIGHT,
                    width: CELL_WIDTH,
                    height: CELL_HEIGHT,
                    fill,
                },
            );
        },
        None => {},
    }
    proof {
        assert(nodes_view(doc@) =~= before + cell_box(cell@, row as int, col as int));
    }
    let ghost boxed = nodes_view(doc@);
    let space = String::from_str(" ");
    if !cell.contents.as_str().is_empty() && cell.contents != space {
        let fill = match parse_color(cell.fgcolor) {
            Some(fill) => fill,
            None => FOREGROUND,
        };
        doc.push(
            SvgNode::Text {
                x: col * CELL_WIDTH,
                y: (row + 1) * CELL_HEIGHT - TEXT_RISE,
                width: CELL_WIDTH,
                height: CELL_HEIGHT,
                size: FONT_SIZE,
                content: cell.contents.clone(),
                fill,
            },
        );
    }
    proof {
        assert(nodes_view(doc@) =~= boxed + cell_text(cell@, row as int, col as int));
        assert(nodes_view(doc@) =~= before + cell_nodes(cell@, row as int, col as int));
    }
}

/// Lays a terminal snapshot out as a drawing. The drawing keeps the index
/// and the time of the snapshot, is [`CELL_WIDTH`] units wide for every
/// column and [`CELL_HEIGHT`] units high for every row, and holds the
/// shapes that [`screen_nodes`] names.
pub fn render_frame_to_svg(frame: &TerminalFrame) -> (svg: SvgFrame)
    requires
        drawable(frame.screen@.rows, frame.screen@.cols),
    ensures
        svg.index == frame.index,
        svg.time == frame.time,
        svg.height == frame.screen@.rows * CELL_HEIGHT,
        svg.width == frame.screen@.cols * CELL_WIDTH,
        nodes_view(svg.doc@) == screen_nodes(frame.screen@),
{
    let (rows, cols) = frame.screen.size();
    let ghost screen = frame.screen@;
    let doc_height = rows * CELL_HEIGHT;
    let doc_width = cols * CELL_WIDTH;
    let mut doc: Vec<SvgNode> = Vec::new();
    doc.push(SvgNode::Rect { x: 0, y: 0, width: doc_width, height: doc_height, fill: BACKGROUND });
    let ghost background = nodes_view(doc@);
    proof {
        assert(background + grid_nodes(screen, 0) =~= background);
    }
    let mut row: u16 = 0;
    while row < rows
        invariant
            row <= rows,
            screen == frame.screen@,
            screen.wf(),
            rows == screen.rows,
            cols == screen.cols,
            drawable(rows, cols),
            nodes_view(doc@) == background + grid_nodes(screen, row as int),
        decreases rows - row,
    {
        let ghost done = nodes_view(doc@);
        proof {
            assert(done + row_nodes(screen, row as int, 0) =~= done);
        }
        let mut col: u16 = 0;
        while col < cols
            invariant
                row < rows,
                col <= cols,
                screen == frame.screen@,
                screen.wf(),
                rows == screen.rows,
                cols == screen.cols,
                drawable(rows, cols),
                nodes_view(doc@) == done + row_nodes(screen, row as int, col as int),
            decreases cols - col,
        {
            let ghost so_far = nodes_view(doc@);
            match frame.screen.cell(row, col) {
                Some(cell) => {
                    push_cell(&mut doc, cell, row, col);
                },
                None => {},
            }
            proof {
                assert(nodes_view(doc@) =~= done + row_nodes(screen, row as int, col + 1));
            }
            col = col + 1;
        }
        proof {
            assert(nodes_view(doc@) =~= background + grid_nodes(screen, row + 1));
        }
        row = row + 1;
    }
    SvgFrame { index: frame.index, time: frame.time, doc, height: doc_height, width: doc_width }
}

#[verifier::external_type_specification]
#[verifier::external_body]
pub struct ExDocument(::svg::node::element::SVG);

#[verifier::external_type_specification]
#[verifier::external_body]
pub struct ExOptions<'a>(usvg::Options<'a>);

/// `svg::Document::new`, with the size of the drawing set as its `viewbox`,
/// `height` and `width`: a document of that size without shapes.
#[verifier::external_body]
fn doc_new(width: u16, height: u16) -> (doc: ::svg::node::element::SVG)
    ensures
        document_size(doc) == (width, height),
        document_shapes(doc) == Seq::<SvgNodeView>::empty(),
{
    ::svg::Document::new().set("viewbox", (0, 0, width, height)).set("height", height).set(
        "width",
        width,
    )
}

/// `svg::Document::add` of an `svg::node::element::Rectangle` with the
/// given corner, size and fill: the box becomes the last shape.
#[verifier::external_body]
fn doc_add_rect(
    doc: ::svg::node::element::SVG,
    x: u16,
    y: u16,
    width: u16,
    height: u16,
    fill: (u8, u8, u8),
) -> (out: ::svg::node::element::SVG)
    ensures
        document_size(out) == document_size(doc),
        document_shapes(out) == document_shapes(doc).push(
            SvgNodeView::Rect { x, y, width, height, fill },
        ),
{
    let style = format!(
        "fill:#{:02x}{:02x}{:02x};fill-opacity:1;stroke:none",
        fill.0,
        fill.1,
        fill.2
    );
    doc.add(
        ::svg::node::element::Rectangle::new().set("x", x).set("y", y).set("width", width).set(
            "height",
            height,
        ).set("style", style),
    )
}

/// `svg::Document::add` of an `svg::node::element::Text` with the given
/// content, start of the baseline, box, fill and size of its monospace
/// font: the text becomes the last shape.
#[verifier::external_body]
fn doc_add_text(
    doc: ::svg::node::element::SVG,
    x: u16,
    y: u16,
    width: u16,
    height: u16,
    size: u16,
    content: &str,
    fill: (u8, u8, u8),
) -> (out: ::svg::node::element::SVG)
    ensures
        document_size(out) == document_size(doc),
        document_shapes(out) == document_shapes(doc).push(
            SvgNodeView::Text { x, y, width, height, size, content: content@, fill },
        ),
{
    let style = format!(
        "font-size: {}px; font-family: monospace; fill: #{:02x}{:02x}{:02x};",
        size,
        fill.0,
        fill.1,
        fill.2
    );
    doc.add(
        ::svg::node::element::Text::new(content).set("x", x).set("y", y).set("width", width).set(
            "height",
            height,
        ).set("style", style),
    )
}

/// The width and the height that a document was made with.
pub uninterp spec fn document_size(doc: ::svg::node::element::SVG) -> (u16, u16);

/// The shapes that a document holds, in the order in which they were added.
pub uninterp spec fn document_shapes(doc: ::svg::node::element::SVG) -> Seq<SvgNodeView>;

/// The markup of a drawing: the text that the `svg` crate writes for a
/// document of the drawing's size with the drawing's shapes in their order.
pub fn svg_markup(frame: &SvgFrame) -> (markup: String)
    ensures
        markup@ == markup_of(frame.width, frame.height, nodes_view(frame.doc@)),
{
    let mut doc = doc_new(frame.width, frame.height);
    let mut i: usize = 0;
    while i < frame.doc.len()
        invariant
            i <= frame.doc@.len(),
            document_size(doc) == (frame.width, frame.height),
            document_shapes(doc) == nodes_view(frame.doc@.take(i as int)),
        decreases frame.doc@.len() - i,
    {
        let ghost before = nodes_view(frame.doc@.take(i as int));
        match &frame.doc[i] {
            SvgNode::Rect { x, y, width, height, fill } => {
                doc = doc_add_rect(doc, *x, *y, *width, *height, *fill);
            },
            SvgNode::Text { x, y, width, height, size, content, fill } => {
                doc = doc_add_text(
                    doc,
                    *x,
                    *y,
                    *width,
                    *height,
                    *size,
                    content.as_str(),
                    *fill,
                );
            },
        }
        proof {
            assert(nodes_view(frame.doc@.take(i + 1)) =~= before.push(frame.doc@[i as int]@));
        }
        i += 1;
    }
    proof {
        assert(frame.doc@.take(i as int) =~= frame.doc@);
    }
    doc_markup(&doc)
}

/// The text that the `svg` crate writes for a document of the given size
/// with the given shapes.
pub uninterp spec fn markup_of(width: u16, height: u16, shapes: Seq<SvgNodeView>) -> Seq<char>;

/// The text of a document, as `svg::Document` formats itself: it is a
/// function of the document's size and shapes, since the crate writes the
/// attributes of an element sorted by name and the shapes in their order.
#[verifier::external_body]
fn doc_markup(doc: &::svg::node::element::SVG) -> (markup: String)
    ensures
        markup@ == markup_of(document_size(*doc).0, document_size(*doc).1, document_shapes(*doc)),
{
    doc.to_string()
}

/// `usvg::Tree::from_str` on the markup, then `resvg::render` onto a new
/// `tiny_skia::Pixmap` of the given size, and the pixmap's bytes with the
/// alpha taken out of the colours. `None` where the markup is not accepted
/// or no pixmap of the size can be had. Nothing is claimed of the bytes:
/// they depend on the fonts that `options` holds.
#[verifier::external_body]
fn rasterize(markup: &str, options: &usvg::Options<'_>, width: u32, height: u32) -> (bytes: Option<
    Vec<u8>,
>) {
    let tree = usvg::Tree::from_str(markup, options).ok()?;
    let mut pixmap = resvg::tiny_skia::Pixmap::new(width, height)?;
    resvg::render(&tree, resvg::tiny_skia::Transform::default(), &mut pixmap.as_mut());
    Some(pixmap.take_demultiplied())
}

/// The message for a screen whose drawing would be too large.
pub open spec fn too_large_message() -> Seq<char> {
    "The terminal is too large to be drawn"@
}

/// The message for a drawing that the rasterizer did not turn into an image
/// of the drawing's size.
pub open spec fn raster_failure_message() -> Seq<char> {
    "The frame could not be rasterized"@
}

/// Renders a terminal snapshot to an image with the fonts that `options`
/// holds. The image keeps the index and the time of the snapshot and has
/// the size of the snapshot's drawing. A screen that is not [`drawable`]
/// is refused; beyond that the rasterizer decides whether there is an
/// image.
pub fn render_frame_to_png(frame: TerminalFrame, options: &usvg::Options<'_>) -> (r: Result<
    RgbaFrame,
    Error,
>)
    ensures
        match r {
            Ok(image) => {
                &&& drawable(frame.screen@.rows, frame.screen@.cols)
                &&& image.index == frame.index
                &&& image.time == frame.time
                &&& image.image@.width == frame.screen@.cols * CELL_WIDTH
                &&& image.image@.height == frame.screen@.rows * CELL_HEIGHT
                &&& image.image@.wf()
            },
            Err(e) => {
                ||| e@ == ErrorView::Generic(raster_failure_message())
                ||| (e@ == ErrorView::Generic(too_large_message()) && !drawable(
                    frame.screen@.rows,
                    frame.screen@.cols,
                ))
            },
        },
        !drawable(frame.screen@.rows, frame.screen@.cols) ==> r is Err && r->Err_0@
            == ErrorView::Generic(too_large_message()),
{
    let (rows, cols) = frame.screen.size();
    if rows > u16::MAX / CELL_HEIGHT || cols > u16::MAX / CELL_WIDTH {
        return Err(Error::Generic(String::from_str("The terminal is too large to be drawn")));
    }
    let svg = render_frame_to_svg(&frame);
    let markup = svg_markup(&svg);
    let bytes = match rasterize(markup.as_str(), options, svg.width as u32, svg.height as u32) {
        Some(bytes) => bytes,
        None => {
            return Err(Error::Generic(String::from_str("The frame could not be rasterized")));
        },
    };
    match RgbaImage::new(bytes, svg.width as usize, svg.height as usize) {
        Some(image) => {
            let rendered = RgbaFrame { index: frame.index, time: frame.time, image };
            Ok(rendered)
        },
        None => Err(Error::Generic(String::from_str("The frame could not be rasterized"))),
    }
}

} // verus!
