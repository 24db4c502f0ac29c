//! Terminal emulation.
//!
//! The escape-sequence interpreter is the `vt100` crate. This module binds
//! the few calls the pipeline needs and copies the emulator's grid into a
//! [`Screen`] of plain values, so that a snapshot never aliases the emulator.

use vstd::prelude::*;

verus! {

#[verifier::external_type_specification]
#[verifier::external_body]
pub struct ExParser(vt100::Parser);

#[verifier::external_type_specification]
pub struct ExColor(vt100::Color);

/// One cell of the terminal grid.
#[derive(Debug)]
pub struct Cell {
    /// The text shown in the cell; empty for a blank cell.
    pub contents: String,
    /// Whether the emulator counts the cell as holding text.
    pub has_contents: bool,
    /// Foreground colour.
    pub fgcolor: vt100::Color,
    /// Background colour.
    pub bgcolor: vt100::Color,
}

/// Mathematical model of a [`Cell`].
pub struct CellView {
    pub contents: Seq<char>,
    pub has_contents: bool,
    pub fgcolor: vt100::Color,
    pub bgcolor: vt100::Color,
}

impl View for Cell {
    type V = CellView;

    open spec fn view(&self) -> CellView {
        CellView {
            contents: self.contents@,
            has_contents: self.has_contents,
            fgcolor: self.fgcolor,
            bgcolor: self.bgcolor,
        }
    }
}

/// The view of an optional cell.
pub open spec fn cell_view(c: Option<Cell>) -> Option<CellView> {
    match c {
        Some(cell) => Some(cell@),
        None => None,
    }
}

/// The byte strings that bring a freshly made emulator of the same size into
/// the state of `p`.
pub uninterp spec fn parser_histories(p: vt100::Parser) -> Set<Seq<u8>>;

/// The size, as (rows, columns), of the grid of `p`.
pub uninterp spec fn parser_size(p: vt100::Parser) -> (u16, u16);

/// The cell at (`row`, `col`) of an emulator of `rows` by `cols` cells that
/// has processed `input`.
pub uninterp spec fn emulated_cell(rows: u16, cols: u16, input: Seq<u8>, row: u16, col: u16) -> Option<CellView>;

/// The cursor position, as (row, column), of an emulator of `rows` by `cols`
/// cells that has processed `input`.
pub uninterp spec fn emulated_cursor(rows: u16, cols: u16, input: Seq<u8>) -> (u16, u16);

/// The least number of rows and of columns of a grid that the emulator can
/// hold: it places characters two columns wide, and when it wraps a line at
/// the bottom it steps one row back.
pub const MIN_SCREEN_SIDE: u16 = 2;

/// The largest number of columns of a grid that the emulator can hold: a
/// tab moves the cursor, which may stand one past the last column, up to
/// eight columns on, and the column is counted in 16 bits.
pub const MAX_SCREEN_COLS: u16 = 65527;

/// Whether the emulator can hold a grid of `rows` by `cols` cells.
pub open spec fn holds_screen(rows: u16, cols: u16) -> bool {
    rows >= MIN_SCREEN_SIDE && MIN_SCREEN_SIDE <= cols <= MAX_SCREEN_COLS
}

/// `vt100::Parser::new` with no scrollback: a new emulator of the given size
/// that has processed nothing. Sizes outside [`holds_screen`] are left out:
/// on them the emulator's arithmetic on rows and columns overflows, at once
/// for a grid without rows and later, while it processes text, for the
/// others.
#[verifier::external_body]
pub(crate) fn term_new(rows: u16, cols: u16) -> (p: vt100::Parser)
    requires
        holds_screen(rows, cols),
    ensures
        parser_size(p) == (rows, cols),
        parser_histories(p).contains(Seq::<u8>::empty()),
{
    vt100::Parser::new(rows, cols, 0)
}

/// `vt100::Parser::process`: the emulator consumes `bytes` one by one, so
/// every history of the old state, extended by `bytes`, is a history of the
/// new one. The size of the grid stays. As with `term_new`, sizes outside
/// [`holds_screen`] are left out.
#[verifier::external_body]
pub(crate) fn term_process(p: &mut vt100::Parser, bytes: &[u8])
    requires
        holds_screen(parser_size(*old(p)).0, parser_size(*old(p)).1),
    ensures
        parser_size(*final(p)) == parser_size(*old(p)),
        forall|h: Seq<u8>| #[trigger]
            parser_histories(*old(p)).contains(h) ==> parser_histories(*final(p)).contains(
                h + bytes@,
            ),
{
    p.process(bytes)
}

/// `vt100::Screen::size` of the emulator's screen: (rows, columns).
#[verifier::external_body]
pub(crate) fn term_size(p: &vt100::Parser) -> (size: (u16, u16))
    ensures
        size == parser_size(*p),
{
    p.screen().size()
}

/// `vt100::Screen::cursor_position` of the emulator's screen. It is a
/// function of the grid's size and of the bytes processed.
#[verifier::external_body]
pub(crate) fn term_cursor(p: &vt100::Parser) -> (pos: (u16, u16))
    ensures
        forall|h: Seq<u8>| #[trigger]
            parser_histories(*p).contains(h) ==> pos == emulated_cursor(
                parser_size(*p).0,
                parser_size(*p).1,
                h,
            ),
{
    p.screen().cursor_position()
}

/// `vt100::Screen::cell`, with the cell's `contents`, `has_contents`,
/// `fgcolor` and `bgcolor` copied out. It is a function of the grid's size,
/// of the bytes processed and of the position asked for.
#[verifier::external_body]
pub(crate) fn term_cell(p: &vt100::Parser, row: u16, col: u16) -> (c: Option<Cell>)
    ensures
        forall|h: Seq<u8>| #[trigger]
            parser_histories(*p).contains(h) ==> cell_view(c) == emulated_cell(
                parser_size(*p).0,
                parser_size(*p).1,
                h,
                row,
                col,
            ),
{
    p.screen().cell(row, col).map(
        |c|
            Cell {
                contents: c.contents(),
                has_contents: c.has_contents(),
                fgcolor: c.fgcolor(),
                bgcolor: c.bgcolor(),
            },
    )
}

/// A copy of the emulator's visible grid at one instant.
///
/// The grid has `rows` rows of `cols` cells each; this is the type's
/// invariant, established by every constructor.
#[derive(Debug)]
pub struct Screen {
    rows: u16,
    cols: u16,
    cursor: (u16, u16),
    cells: Vec<Vec<Cell>>,
}

/// Mathematical model of a [`Screen`]: its size, the cursor as (row, column)
/// and the cells, row by row.
pub struct ScreenView {
    pub rows: u16,
    pub cols: u16,
    pub cursor: (u16, u16),
    pub cells: Seq<Seq<CellView>>,
}

impl ScreenView {
    /// The grid is rectangular and as large as its size says.
    pub open spec fn wf(self) -> bool {
        &&& self.cells.len() == self.rows
        &&& forall|r: int| 0 <= r < self.rows ==> (#[trigger] self.cells[r]).len() == self.cols
    }
}

/// The views of the cells of one row.
pub open spec fn row_view(row: Seq<Cell>) -> Seq<CellView> {
    Seq::new(row.len(), |c: int| row[c]@)
}

/// The views of the cells of a grid given as rows.
pub open spec fn grid_view(cells: Seq<Vec<Cell>>) -> Seq<Seq<CellView>> {
    Seq::new(cells.len(), |r: int| row_view(cells[r]@))
}

/// The view of an optional screen.
pub open spec fn screen_view(s: Option<Screen>) -> Option<ScreenView> {
    match s {
        Some(screen) => Some(screen@),
        None => None,
    }
}

/// Whether an emulator of `rows` by `cols` cells that has processed `input`
/// has a cell at every position of its grid.
pub open spec fn emulated_complete(rows: u16, cols: u16, input: Seq<u8>) -> bool {
    forall|r: u16, c: u16|
        r < rows && c < cols ==> (#[trigger] emulated_cell(rows, cols, input, r, c)) is Some
}

/// The screen of an emulator of `rows` by `cols` cells that has processed
/// `input`, or `None` where the emulator lacks a cell of its own grid.
pub open spec fn emulated_screen(rows: u16, cols: u16, input: Seq<u8>) -> Option<ScreenView> {
    if emulated_complete(rows, cols, input) {
        Some(
            ScreenView {
                rows,
                cols,
                cursor: emulated_cursor(rows, cols, input),
                cells: Seq::new(
                    rows as nat,
                    |r: int|
                        Seq::new(
                            cols as nat,
                            |c: int| emulated_cell(rows, cols, input, r as u16, c as u16).unwrap(),
                        ),
                ),
            },
        )
    } else {
        None
    }
}

impl View for Screen {
    type V = ScreenView;

    closed spec fn view(&self) -> ScreenView {
        ScreenView {
            rows: self.rows,
            cols: self.cols,
            cursor: self.cursor,
            cells: grid_view(self.cells@),
        }
    }
}

impl Screen {
    #[verifier::type_invariant]
    spec fn inv(self) -> bool {
        &&& self.cells@.len() == self.rows
        &&& forall|r: int| 0 <= r < self.rows ==> (#[trigger] self.cells@[r])@.len() == self.cols
    }

    /// Builds a screen from its rows. Returns `None` unless `cells` holds
    /// exactly `rows` rows of `cols` cells.
    pub fn new(rows: u16, cols: u16, cursor: (u16, u16), cells: Vec<Vec<Cell>>) -> (s: Option<
        Screen,
    >)
        ensures
            s is Some <==> (cells@.len() == rows && forall|r: int|
                0 <= r < rows ==> (#[trigger] cells@[r])@.len() == cols),
            s is Some ==> s.unwrap()@ == (ScreenView {
                rows,
                cols,
                cursor,
                cells: grid_view(cells@),
            }),
            s is Some ==> s.unwrap()@.wf(),
    {
        if cells.len() != rows as usize {
            return None;
        }
        let mut r: usize = 0;
        while r < cells.len()
            invariant
                r <= cells@.len() == rows,
                forall|k: int| 0 <= k < r ==> (#[trigger] cells@[k])@.len() == cols,
            decreases cells@.len() - r,
        {
            if cells[r].len() != cols as usize {
                return None;
            }
            r += 1;
        }
        Some(Screen { rows, cols, cursor, cells })
    }

    /// The size of the grid, as (rows, columns).
    pub fn size(&self) -> (size: (u16, u16))
        ensures
            size == (self@.rows, self@.cols),
            self@.wf(),
    {
        proof {
            use_type_invariant(self);
        }
        (self.rows, self.cols)
    }

    /// The cursor position, as (row, column).
    pub fn cursor_position(&self) -> (pos: (u16, u16))
        ensures
            pos == self@.cursor,
    {
        self.cursor
    }

    /// The cell at the given position, if the grid has it.
    pub fn cell(&self, row: u16, col: u16) -> (c: Option<&Cell>)
        ensures
            self@.wf(),
            row < self@.rows && col < self@.cols ==> c is Some && c.unwrap()@
                == self@.cells[row as int][col as int],
            !(row < self@.rows && col < self@.cols) ==> c is None,
    {
        proof {
            use_type_invariant(self);
        }
        if row < self.rows && col < self.cols {
            Some(&self.cells[row as usize][col as usize])
        } else {
            None
        }
    }

    /// Copies the visible grid of the emulator. Returns `None` where the
    /// emulator lacks a cell of its own grid.
    pub fn capture(p: &vt100::Parser) -> (s: Option<Screen>)
        ensures
            forall|h: Seq<u8>| #[trigger]
                parser_histories(*p).contains(h) ==> screen_view(s) == emulated_screen(
                    parser_size(*p).0,
                    parser_size(*p).1,
                    h,
                ),
    {
        let (rows, cols) = term_size(p);
        let cursor = term_cursor(p);
        let mut cells: Vec<Vec<Cell>> = Vec::new();
        let mut r: u16 = 0;
        while r < rows
            invariant
                r <= rows,
                (rows, cols) == parser_size(*p),
                cells@.len() == r,
                forall|k: int| 0 <= k < r ==> (#[trigger] cells@[k])@.len() == cols,
                forall|h: Seq<u8>, k: int, c: int|
                    parser_histories(*p).contains(h) && 0 <= k < r && 0 <= c < cols ==> Some(
                        (#[trigger] cells@[k]@[c])@,
                    ) == #[trigger] emulated_cell(rows, cols, h, k as u16, c as u16),
            decreases rows - r,
        {
            let mut row: Vec<Cell> = Vec::new();
            let mut c: u16 = 0;
            while c < cols
                invariant
                    r < rows,
                    c <= cols,
                    (rows, cols) == parser_size(*p),
                    row@.len() == c,
                    forall|h: Seq<u8>, j: int|
                        parser_histories(*p).contains(h) && 0 <= j < c ==> Some(
                            (#[trigger] row@[j])@,
                        ) == #[trigger] emulated_cell(rows, cols, h, r, j as u16),
                decreases cols - c,
            {
                match term_cell(p, r, c) {
                    Some(cell) => {
                        row.push(cell);
                    },
                    None => {
                        assert forall|h: Seq<u8>| #[trigger]
                            parser_histories(*p).contains(h) implies emulated_screen(rows, cols, h)
                            is None by {
                            assert(emulated_cell(rows, cols, h, r, c) is None);
                        }
                        return None;
                    },
                }
                c += 1;
            }
            cells.push(row);
            r += 1;
        }
        let screen = Screen { rows, cols, cursor, cells };
        proof {
            assert forall|h: Seq<u8>| #[trigger] parser_histories(*p).contains(h) implies Some(
                screen@,
            ) == emulated_screen(rows, cols, h) by {
                assert forall|rr: u16, cc: u16| rr < rows && cc < cols implies (
                #[trigger] emulated_cell(rows, cols, h, rr, cc)) is Some by {
                    assert(Some(screen.cells@[rr as int]@[cc as int]@) == emulated_cell(
                        rows,
                        cols,
                        h,
                        rr as int as u16,
                        cc as int as u16,
                    ));
                }
                let expected = emulated_screen(rows, cols, h).unwrap();
                assert(screen@.cells.len() == expected.cells.len());
                assert forall|k: int| 0 <= k < rows implies screen@.cells[k]
                    =~= expected.cells[k] by {
                    assert forall|j: int| 0 <= j < cols implies screen@.cells[k][j]
                        == expected.cells[k][j] by {
                        assert(Some(screen.cells@[k]@[j]@) == emulated_cell(
                            rows,
                            cols,
                            h,
                            k as u16,
                            j as u16,
                        ));
                    }
                }
                assert(screen@.cells =~= expected.cells);
            }
        }
        Some(screen)
    }
}

} // verus!
