//! Tables as grids: which rows, cells and columns the elements of a table make.

use crate::text::{opt, parse_u64, parsed_u64};
use std::ops::Range;
use vstd::prelude::*;
use vstd::string::*;

verus! {

/// How a box takes part in the layout around it.
#[derive(Debug, Clone, Copy, PartialEq, Eq, Structural)]
pub enum Outside {
    /// The box is not shown.
    Hidden,
    TableCaption,
    Other,
}

/// How a box lays out what is in it.
#[derive(Debug, Clone, Copy, PartialEq, Eq, Structural)]
pub enum Inside {
    Nothing,
    Contents,
    Flow,
    FlowRoot,
    Flex,
    Grid,
    Table,
    TableRowGroup,
    TableHeaderGroup,
    TableFooterGroup,
    TableColumnGroup,
    TableColumn,
    TableRow,
    TableCell,
}

/// The display type of an element.
#[derive(Debug, Clone, Copy, PartialEq, Eq, Structural)]
pub struct Display {
    pub outside: Outside,
    pub inside: Inside,
}

/// In which terms the width of an element is given.
#[derive(Debug, Clone, Copy, PartialEq, Eq, Structural)]
pub enum Width {
    Length,
    Percent,
    Auto,
    /// A value that is computed against the width of the table.
    Calc,
}

/// A node of a document, as far as tables are concerned.
#[derive(Debug)]
pub struct TableNode {
    pub id: usize,
    pub is_element: bool,
    /// `None` where the element has no styles.
    pub display: Option<Display>,
    pub colspan: Option<String>,
    pub rowspan: Option<String>,
    pub width: Width,
    /// Whether the width leaves out padding and border.
    pub content_box: bool,
    pub children: Vec<TableNode>,
}

/// How a column of the grid is sized.
#[derive(Debug, Clone, Copy, PartialEq, Eq, Structural)]
pub enum Track {
    /// The column shrinks to nothing and grows with its content.
    Flexible,
    /// The column is as wide as its content.
    Auto,
    /// The column is at least as wide as the cell asks; with its padding and border where those
    /// are not in its width already.
    AtLeast { cell: usize, adds_edges: bool },
    /// The column is as wide as the cell asks.
    Exactly { cell: usize, adds_edges: bool },
    /// The column takes the cell's share of the table.
    Share { cell: usize },
    /// The column takes the width that the cell computes against the table.
    Computed { cell: usize },
}

/// A cell and its place: its column is the first that is free in its row.
#[derive(Debug, Clone, Copy, PartialEq, Eq, Structural)]
pub struct TableCell {
    pub node_id: usize,
    pub row: u16,
    pub colspan: u16,
    pub rowspan: u16,
}

/// The grid of a table.
#[derive(Debug)]
pub struct TableContext {
    /// The number of rows.
    pub row: u16,
    /// The number of columns that the last row took.
    pub col: u16,
    pub cells: Vec<TableCell>,
    /// The elements of the rows.
    pub rows: Vec<usize>,
    pub columns: Vec<Track>,
    /// The cell whose border stands for that of the table.
    pub border_cell: Option<usize>,
    /// The nodes that need no box of their own any more.
    pub settled: Vec<usize>,
}

/// The model of a [`TableContext`].
#[verifier::ext_equal]
pub struct Grid {
    pub row: int,
    pub col: int,
    pub cells: Seq<TableCell>,
    pub rows: Seq<usize>,
    pub columns: Seq<Track>,
    pub border_cell: Option<usize>,
    pub settled: Seq<usize>,
}

impl View for TableContext {
    type V = Grid;

    open spec fn view(&self) -> Grid {
        Grid {
            row: self.row as int,
            col: self.col as int,
            cells: self.cells@,
            rows: self.rows@,
            columns: self.columns@,
            border_cell: self.border_cell,
            settled: self.settled@,
        }
    }
}

/// A count of tracks as a document writes it.
pub open spec fn span(s: Option<Seq<char>>) -> Option<u16> {
    match s {
        Some(s) => match parsed_u64(s) {
            Some(n) => if n <= u16::MAX {
                Some(n as u16)
            } else {
                None
            },
            None => None,
        },
        None => None,
    }
}

fn read_span(s: &Option<String>) -> (r: Option<u16>)
    ensures
        r == span(opt(*s)),
{
    match s {
        Some(s) => match parse_u64(s.as_str()) {
            Some(n) => if n <= 65535 {
                Some(n as u16)
            } else {
                None
            },
            None => None,
        },
        None => None,
    }
}

/// How many columns a cell takes.
pub open spec fn columns_of(n: TableNode, use_spans: bool) -> u16 {
    if use_spans && span(opt(n.colspan)) is Some {
        span(opt(n.colspan))->0
    } else {
        1
    }
}

/// How many rows a cell takes, from one up to what a grid can hold.
pub open spec fn rows_of(n: TableNode, use_spans: bool) -> u16 {
    if use_spans && span(opt(n.rowspan)) is Some {
        let v = span(opt(n.rowspan))->0;
        if v < 1 {
            1
        } else if v > 65534 {
            65534
        } else {
            v
        }
    } else {
        1
    }
}

/// How a cell of the first row sizes its column. Widths on cells in an auto-layout table are
/// minimum suggestions, not fixed grid tracks: the track may grow beyond that hint
/// when its content needs more room.
pub open spec fn track(n: TableNode, is_fixed: bool) -> Track {
    if is_fixed {
        match n.width {
            Width::Length => Track::Exactly { cell: n.id, adds_edges: n.content_box },
            Width::Percent => Track::Share { cell: n.id },
            Width::Auto => Track::Auto,
            Width::Calc => Track::Computed { cell: n.id },
        }
    } else if n.width == Width::Length {
        Track::AtLeast { cell: n.id, adds_edges: n.content_box }
    } else {
        Track::Flexible
    }
}

impl Grid {
    /// A grid without rows.
    pub open spec fn new() -> Grid {
        Grid {
            row: 0,
            col: 0,
            cells: Seq::empty(),
            rows: Seq::empty(),
            columns: Seq::empty(),
            border_cell: None,
            settled: Seq::empty(),
        }
    }

    /// One more node that needs no box of its own.
    pub open spec fn settle(self, id: usize) -> Grid {
        Grid { settled: self.settled.push(id), ..self }
    }

    /// One more row; `None` where there are too many.
    pub open spec fn begin_row(self, id: usize) -> Option<Grid> {
        if self.row < u16::MAX {
            Some(Grid { row: self.row + 1, col: 0, rows: self.rows.push(id), ..self })
        } else {
            None
        }
    }

    /// One more cell; `None` where its row gets too wide. A table without an explicit row still
    /// gets an anonymous first row.
    pub open spec fn place(self, n: TableNode, is_fixed: bool, use_spans: bool) -> Option<Grid> {
        let row = if self.row == 0 {
            1
        } else {
            self.row
        };
        let col = if self.row == 0 {
            0
        } else {
            self.col
        };
        let colspan = columns_of(n, use_spans);
        if col + colspan > u16::MAX {
            None
        } else {
            Some(
                Grid {
                    row,
                    col: col + colspan,
                    cells: self.cells.push(
                        TableCell {
                            node_id: n.id,
                            row: row as u16,
                            colspan,
                            rowspan: rows_of(n, use_spans),
                        },
                    ),
                    columns: if row == 1 {
                        self.columns.push(track(n, is_fixed))
                    } else {
                        self.columns
                    },
                    border_cell: if self.border_cell is None {
                        Some(n.id)
                    } else {
                        self.border_cell
                    },
                    ..self
                },
            )
        }
    }
}

/// Whether an element only groups rows.
pub open spec fn groups(inside: Inside) -> bool {
    inside == Inside::TableRowGroup || inside == Inside::TableHeaderGroup || inside
        == Inside::TableFooterGroup || inside == Inside::Contents
}

/// Whether an element becomes a cell though it is none. CSS table fixup wraps an otherwise invalid
/// child in anonymous row/cell boxes. Floats blockify table cells into flow boxes, which is common
/// in responsive email layouts; the existing node then stands for the anonymous grid cell, so its
/// complete subtree still lays out.
pub open spec fn flows(inside: Inside) -> bool {
    inside == Inside::Flow || inside == Inside::FlowRoot || inside == Inside::Flex || inside
        == Inside::Grid
}

/// The grid with what an element of the table adds; `None` where it gets too large.
pub open spec fn collected(g: Grid, n: TableNode, is_fixed: bool) -> Option<Grid>
    decreases n, n.children@.len() + 1,
{
    if !n.is_element || n.display is None {
        Some(g)
    } else {
        let display = n.display->0;
        if display.outside == Outside::Hidden {
            Some(g.settle(n.id))
        } else if groups(display.inside) {
            collected_children(g, n, is_fixed, true, n.children@.len() as int)
        } else if display.inside == Inside::TableRow {
            match g.settle(n.id).begin_row(n.id) {
                Some(h) => collected_children(h, n, is_fixed, false, n.children@.len() as int),
                None => None,
            }
        } else if display.inside == Inside::TableCell {
            g.place(n, is_fixed, true)
        } else if flows(display.inside) && display.outside != Outside::TableCaption {
            g.place(n, is_fixed, false)
        } else {
            Some(g.settle(n.id))
        }
    }
}

/// The grid with what the first `count` children of an element add, each settled before where the
/// element only groups them.
pub open spec fn collected_children(
    g: Grid,
    n: TableNode,
    is_fixed: bool,
    settles: bool,
    count: int,
) -> Option<Grid>
    decreases n, count,
{
    if count <= 0 || count > n.children@.len() {
        Some(g)
    } else {
        match collected_children(g, n, is_fixed, settles, count - 1) {
            Some(h) => {
                let child = n.children@[count - 1];
                collected(
                    if settles {
                        h.settle(child.id)
                    } else {
                        h
                    },
                    child,
                    is_fixed,
                )
            },
            None => None,
        }
    }
}

impl TableContext {
    fn place(&mut self, n: &TableNode, is_fixed: bool, use_spans: bool) -> (r: bool)
        ensures
            match old(self)@.place(*n, is_fixed, use_spans) {
                Some(g) => r && final(self)@ == g,
                None => !r,
            },
    {
        if self.row == 0 {
            self.row = 1;
            self.col = 0;
        }
        let colspan: u16 = if use_spans {
            match read_span(&n.colspan) {
                Some(v) => v,
                None => 1,
            }
        } else {
            1
        };
        let rowspan: u16 = if use_spans {
            match read_span(&n.rowspan) {
                Some(v) => if v < 1 {
                    1
                } else if v > 65534 {
                    65534
                } else {
                    v
                },
                None => 1,
            }
        } else {
            1
        };
        if colspan > 65535 - self.col {
            return false;
        }
        if self.border_cell.is_none() {
            self.border_cell = Some(n.id);
        }
        if self.row == 1 {
            let column = if is_fixed {
                match n.width {
                    Width::Length => Track::Exactly { cell: n.id, adds_edges: n.content_box },
                    Width::Percent => Track::Share { cell: n.id },
                    Width::Auto => Track::Auto,
                    Width::Calc => Track::Computed { cell: n.id },
                }
            } else if n.width == Width::Length {
                Track::AtLeast { cell: n.id, adds_edges: n.content_box }
            } else {
                Track::Flexible
            };
            self.columns.push(column);
        }
        self.cells.push(TableCell { node_id: n.id, row: self.row, colspan, rowspan });
        self.col = self.col + colspan;
        proof {
            assert(self@ =~= old(self)@.place(*n, is_fixed, use_spans)->0);
        }
        true
    }

    fn settle(&mut self, id: usize)
        ensures
            final(self)@ == old(self)@.settle(id),
    {
        self.settled.push(id);
        proof {
            assert(self@ =~= old(self)@.settle(id));
        }
    }

    /// Take up an element of the table; `false` where the grid gets too large.
    pub fn collect_table_cells(&mut self, n: &TableNode, is_fixed: bool) -> (r: bool)
        ensures
            match collected(old(self)@, *n, is_fixed) {
                Some(g) => r && final(self)@ == g,
                None => !r,
            },
        decreases *n, n.children@.len() + 1,
    {
        if !n.is_element {
            return true;
        }
        let display = match n.display {
            Some(d) => d,
            None => {
                return true;
            },
        };
        if display.outside == Outside::Hidden {
            self.settle(n.id);
            return true;
        }
        match display.inside {
            Inside::TableRowGroup | Inside::TableHeaderGroup | Inside::TableFooterGroup
            | Inside::Contents => self.collect_children(n, is_fixed, true),
            Inside::TableRow => {
                self.settle(n.id);
                if self.row == 65535 {
                    return false;
                }
                self.row = self.row + 1;
                self.col = 0;
                self.rows.push(n.id);
                proof {
                    assert(self@ =~= old(self)@.settle(n.id).begin_row(n.id)->0);
                }
                self.collect_children(n, is_fixed, false)
            },
            Inside::TableCell => self.place(n, is_fixed, true),
            Inside::Flow | Inside::FlowRoot | Inside::Flex | Inside::Grid => {
                if display.outside == Outside::TableCaption {
                    self.settle(n.id);
                    true
                } else {
                    self.place(n, is_fixed, false)
                }
            },
            Inside::TableColumnGroup | Inside::TableColumn | Inside::Table | Inside::Nothing => {
                self.settle(n.id);
                true
            },
        }
    }

    fn collect_children(&mut self, n: &TableNode, is_fixed: bool, settles: bool) -> (r: bool)
        ensures
            match collected_children(old(self)@, *n, is_fixed, settles, n.children@.len() as int) {
                Some(g) => r && final(self)@ == g,
                None => !r,
            },
        decreases *n, n.children@.len(),
    {
        let ghost start = self@;
        let mut i: usize = 0;
        while i < n.children.len()
            invariant
                i <= n.children.len(),
                start == old(self)@,
                collected_children(start, *n, is_fixed, settles, i as int) == Some(self@),
            decreases n.children.len() - i,
        {
            proof {
                assert(decreases_to!(n.children => n.children[i as int]));
                assert(decreases_to!(*n => n.children));
            }
            if settles {
                self.settle(n.children[i].id);
            }
            if !self.collect_table_cells(&n.children[i], is_fixed) {
                proof {
                    assert(collected_children(start, *n, is_fixed, settles, i + 1) is None);
                    too_large_stays(start, *n, is_fixed, settles, i + 1);
                }
                return false;
            }
            i = i + 1;
        }
        true
    }
}

proof fn too_large_stays(g: Grid, n: TableNode, is_fixed: bool, settles: bool, count: int)
    requires
        0 < count <= n.children@.len(),
        collected_children(g, n, is_fixed, settles, count) is None,
    ensures
        collected_children(g, n, is_fixed, settles, n.children@.len() as int) is None,
    decreases n.children@.len() - count,
{
    if count < n.children@.len() {
        too_large_stays(g, n, is_fixed, settles, count + 1);
    }
}

/// The columns of a table of which the last row took `count`: those of the first row, cut or
/// filled up.
pub open spec fn sized(columns: Seq<Track>, count: int, is_fixed: bool) -> Seq<Track> {
    Seq::new(
        count as nat,
        |i: int|
            if i < columns.len() {
                columns[i]
            } else if is_fixed {
                Track::Auto
            } else {
                Track::Flexible
            },
    )
}

/// The grid of a table; `None` where it has more rows or columns than can be counted.
pub open spec fn grid_of(root: TableNode, is_fixed: bool) -> Option<Grid> {
    match collected_children(Grid::new(), root, is_fixed, false, root.children@.len() as int) {
        Some(g) => Some(Grid { columns: sized(g.columns, g.col, is_fixed), ..g }),
        None => None,
    }
}

/// Make the grid of a table out of the children of its element; `None` where it has more rows or
/// columns than can be counted.
pub fn build_table_context(root: &TableNode, is_fixed: bool) -> (r: Option<TableContext>)
    ensures
        match grid_of(*root, is_fixed) {
            Some(g) => r is Some && r->0@ == g,
            None => r is None,
        },
{
    let mut ctx = TableContext {
        row: 0,
        col: 0,
        cells: Vec::new(),
        rows: Vec::new(),
        columns: Vec::new(),
        border_cell: None,
        settled: Vec::new(),
    };
    proof {
        assert(ctx@ =~= Grid::new());
    }
    if !ctx.collect_children(root, is_fixed, false) {
        return None;
    }
    let ghost found = ctx@;
    let count: usize = ctx.col as usize;
    if ctx.columns.len() > count {
        ctx.columns.truncate(count);
    }
    let filler = if is_fixed {
        Track::Auto
    } else {
        Track::Flexible
    };
    while ctx.columns.len() < count
        invariant
            count == found.col,
            ctx.columns@.len() <= count,
            ctx.columns@ == sized(found.columns, ctx.columns@.len() as int, is_fixed),
            ctx.columns@.len() >= found.columns.len() || ctx.columns@.len() == count,
            filler == (if is_fixed {
                Track::Auto
            } else {
                Track::Flexible
            }),
            ctx@ == (Grid { columns: ctx.columns@, ..found }),
        decreases count - ctx.columns.len(),
    {
        let ghost before = ctx.columns@;
        ctx.columns.push(filler);
        proof {
            assert(ctx.columns@ =~= sized(found.columns, before.len() as int + 1, is_fixed));
        }
    }
    Some(ctx)
}

/// Whether a cell is measured without the width that its author gave: for auto table sizing, that
/// width is a track suggestion, not a constraint on measuring the cell's contents.
pub fn measures_without_width(is_fixed: bool, width: Width) -> (r: bool)
    ensures
        r == (!is_fixed && width == Width::Length),
{
    !is_fixed && width == Width::Length
}

/// Whether the counts of a grid fit what is in it.
pub open spec fn consistent(g: Grid) -> bool {
    &&& 0 <= g.col <= u16::MAX
    &&& g.rows.len() <= g.row <= g.rows.len() + 1
    &&& 0 <= g.row <= u16::MAX
    &&& forall|i: int| 0 <= i < g.cells.len() ==> 1 <= (#[trigger] g.cells[i]).row <= g.row
    &&& forall|i: int| 0 <= i < g.cells.len() ==> 1 <= (#[trigger] g.cells[i]).rowspan <= 65534
    &&& g.border_cell is None <==> g.cells.len() == 0
    &&& g.border_cell is Some ==> g.border_cell == Some(g.cells[0].node_id)
}

proof fn placing_is_consistent(g: Grid, n: TableNode, is_fixed: bool, use_spans: bool)
    requires
        consistent(g),
        g.place(n, is_fixed, use_spans) is Some,
    ensures
        consistent(g.place(n, is_fixed, use_spans)->0),
{
    let h = g.place(n, is_fixed, use_spans)->0;
    assert forall|i: int| 0 <= i < h.cells.len() implies 1 <= (#[trigger] h.cells[i]).row
        <= h.row by {
        if i < g.cells.len() {
            assert(h.cells[i] == g.cells[i]);
        }
    }
    assert forall|i: int| 0 <= i < h.cells.len() implies 1 <= (#[trigger] h.cells[i]).rowspan
        <= 65534 by {
        if i < g.cells.len() {
            assert(h.cells[i] == g.cells[i]);
        }
    }
    if g.cells.len() > 0 {
        assert(h.cells[0] == g.cells[0]);
    }
}

proof fn collecting_is_consistent(g: Grid, n: TableNode, is_fixed: bool)
    requires
        consistent(g),
        collected(g, n, is_fixed) is Some,
    ensures
        consistent(collected(g, n, is_fixed)->0),
    decreases n, n.children@.len() + 1,
{
    if n.is_element && n.display is Some {
        let display = n.display->0;
        if display.outside == Outside::Hidden {
            assert(consistent(g.settle(n.id)));
        } else if groups(display.inside) {
            children_are_consistent(g, n, is_fixed, true, n.children@.len() as int);
        } else if display.inside == Inside::TableRow {
            let h = g.settle(n.id).begin_row(n.id)->0;
            assert(consistent(h));
            children_are_consistent(h, n, is_fixed, false, n.children@.len() as int);
        } else if display.inside == Inside::TableCell {
            placing_is_consistent(g, n, is_fixed, true);
        } else if flows(display.inside) && display.outside != Outside::TableCaption {
            placing_is_consistent(g, n, is_fixed, false);
        } else {
            assert(consistent(g.settle(n.id)));
        }
    }
}

proof fn children_are_consistent(g: Grid, n: TableNode, is_fixed: bool, settles: bool, count: int)
    requires
        consistent(g),
        count <= n.children@.len(),
        collected_children(g, n, is_fixed, settles, count) is Some,
    ensures
        consistent(collected_children(g, n, is_fixed, settles, count)->0),
    decreases n, count,
{
    if count > 0 {
        children_are_consistent(g, n, is_fixed, settles, count - 1);
        let h = collected_children(g, n, is_fixed, settles, count - 1)->0;
        let child = n.children@[count - 1];
        assert(decreases_to!(n.children => n.children[count - 1]));
        assert(decreases_to!(n => n.children));
        let next = if settles {
            h.settle(child.id)
        } else {
            h
        };
        assert(consistent(next));
        collecting_is_consistent(next, child, is_fixed);
    }
}

/// Every cell of a table stands in a row of its grid and takes at least one row, every row of the
/// document has a row of the grid, at most one row is anonymous, there are as many columns as the
/// last row took, and the border of the first cell stands for that of the table.
pub proof fn cells_stand_in_the_grid(root: TableNode, is_fixed: bool)
    requires
        grid_of(root, is_fixed) is Some,
    ensures
        consistent(grid_of(root, is_fixed)->0),
        grid_of(root, is_fixed)->0.columns.len() == grid_of(root, is_fixed)->0.col,
{
    assert(consistent(Grid::new()));
    children_are_consistent(Grid::new(), root, is_fixed, false, root.children@.len() as int);
}

/// What a table shows, in the order of the document.
pub enum Piece {
    /// A row begins.
    Row(usize),
    /// A cell, or a box that stands for one.
    Cell(TableNode),
}

/// Whether a node makes a box: an element with styles that show it.
pub open spec fn visible(n: TableNode) -> bool {
    n.is_element && match n.display {
        Some(d) => d.outside != Outside::Hidden,
        None => false,
    }
}

/// What a node of a table shows. The bodies (`tbody`), headers (`thead`) and footers (`tfoot`) of a
/// table show the rows and cells in them, and so does what has no box of its own
/// (`display: contents`). A row shows itself and the cells in it. A box that flows stands for a
/// cell, unless it is the caption. Columns, and tables that stand in no cell, show nothing.
pub open spec fn pieces(n: TableNode) -> Seq<Piece>
    decreases n, n.children@.len() + 1,
{
    if !visible(n) {
        Seq::empty()
    } else {
        match n.display->0.inside {
            Inside::TableRowGroup => pieces_in(n, n.children@.len() as int),
            Inside::TableHeaderGroup => pieces_in(n, n.children@.len() as int),
            Inside::TableFooterGroup => pieces_in(n, n.children@.len() as int),
            Inside::Contents => pieces_in(n, n.children@.len() as int),
            Inside::TableRow => seq![Piece::Row(n.id)] + pieces_in(n, n.children@.len() as int),
            Inside::TableCell => seq![Piece::Cell(n)],
            Inside::Flow | Inside::FlowRoot | Inside::Flex | Inside::Grid => {
                if n.display->0.outside == Outside::TableCaption {
                    Seq::empty()
                } else {
                    seq![Piece::Cell(n)]
                }
            },
            Inside::TableColumnGroup | Inside::TableColumn | Inside::Table | Inside::Nothing => {
                Seq::empty()
            },
        }
    }
}

/// What the first `count` children of a node show.
pub open spec fn pieces_in(n: TableNode, count: int) -> Seq<Piece>
    decreases n, count,
{
    if count <= 0 || count > n.children@.len() {
        Seq::empty()
    } else {
        pieces_in(n, count - 1) + pieces(n.children@[count - 1])
    }
}

/// The rows among pieces.
pub open spec fn row_ids(ps: Seq<Piece>) -> Seq<usize>
    decreases ps.len(),
{
    if ps.len() == 0 {
        Seq::empty()
    } else {
        match ps.last() {
            Piece::Row(id) => row_ids(ps.drop_last()).push(id),
            Piece::Cell(_) => row_ids(ps.drop_last()),
        }
    }
}

/// The cells among pieces.
pub open spec fn cell_nodes(ps: Seq<Piece>) -> Seq<TableNode>
    decreases ps.len(),
{
    if ps.len() == 0 {
        Seq::empty()
    } else {
        match ps.last() {
            Piece::Row(_) => cell_nodes(ps.drop_last()),
            Piece::Cell(n) => cell_nodes(ps.drop_last()).push(n),
        }
    }
}

/// How many rows have no element: one where a cell comes before every row.
pub open spec fn anonymous_rows(ps: Seq<Piece>) -> int {
    if ps.len() > 0 && ps[0] is Cell {
        1
    } else {
        0
    }
}

/// The row in which each cell among pieces stands, counted from one.
pub open spec fn cell_rows(ps: Seq<Piece>) -> Seq<int>
    decreases ps.len(),
{
    if ps.len() == 0 {
        Seq::empty()
    } else {
        match ps.last() {
            Piece::Row(_) => cell_rows(ps.drop_last()),
            Piece::Cell(_) => cell_rows(ps.drop_last()).push(
                row_ids(ps).len() + anonymous_rows(ps),
            ),
        }
    }
}

/// Whether a cell of the grid is that of a node. The spans that the document writes on a table
/// cell hold as far as they are numbers of at most sixteen bits; what stands for a cell takes one
/// column and one row.
pub open spec fn is_cell_of(c: TableCell, n: TableNode) -> bool {
    let wide = match opt(n.colspan) {
        Some(s) => parsed_u64(s),
        None => None,
    };
    let high = match opt(n.rowspan) {
        Some(s) => parsed_u64(s),
        None => None,
    };
    let spans = n.display->0.inside == Inside::TableCell;
    &&& c.node_id == n.id
    &&& spans && wide is Some && wide->0 <= 0xffff ==> c.colspan == wide->0
    &&& !(spans && wide is Some && wide->0 <= 0xffff) ==> c.colspan == 1
    &&& spans && high is Some && 1 <= high->0 < 0xffff ==> c.rowspan == high->0
    &&& spans && high == Some(0u64) ==> c.rowspan == 1
    &&& spans && high == Some(0xffffu64) ==> c.rowspan == 0xfffe
    &&& !(spans && high is Some && high->0 <= 0xffff) ==> c.rowspan == 1
}

/// Whether a column of the grid is sized by a cell of the first row.
pub open spec fn is_sized_by(t: Track, n: TableNode, is_fixed: bool) -> bool {
    match t {
        Track::Flexible => !is_fixed && n.width != Width::Length,
        Track::AtLeast { cell, adds_edges } => !is_fixed && n.width == Width::Length && cell == n.id
            && adds_edges == n.content_box,
        Track::Auto => is_fixed && n.width == Width::Auto,
        Track::Exactly { cell, adds_edges } => is_fixed && n.width == Width::Length && cell == n.id
            && adds_edges == n.content_box,
        Track::Share { cell } => is_fixed && n.width == Width::Percent && cell == n.id,
        Track::Computed { cell } => is_fixed && n.width == Width::Calc && cell == n.id,
    }
}

/// How many columns the cells of a row take.
pub open spec fn columns_taken(cells: Seq<TableCell>, row: int) -> int
    decreases cells.len(),
{
    if cells.len() == 0 {
        0
    } else if cells.last().row == row {
        columns_taken(cells.drop_last(), row) + cells.last().colspan
    } else {
        columns_taken(cells.drop_last(), row)
    }
}

/// A row behind all cells takes no column.
proof fn new_rows_are_empty(cells: Seq<TableCell>, row: int)
    requires
        forall|i: int| 0 <= i < cells.len() ==> (#[trigger] cells[i]).row < row,
    ensures
        columns_taken(cells, row) == 0,
    decreases cells.len(),
{
    if cells.len() > 0 {
        assert forall|i: int| 0 <= i < cells.drop_last().len() implies (
        #[trigger] cells.drop_last()[i]).row < row by {
            assert(cells.drop_last()[i] == cells[i]);
        }
        new_rows_are_empty(cells.drop_last(), row);
    }
}

/// Whether a grid in the making holds what was shown so far.
spec fn holds_pieces(g: Grid, ps: Seq<Piece>, is_fixed: bool) -> bool {
    &&& g.rows == row_ids(ps)
    &&& g.row == row_ids(ps).len() + anonymous_rows(ps)
    &&& g.row <= u16::MAX
    &&& g.col == columns_taken(g.cells, g.row)
    &&& g.cells.len() == cell_nodes(ps).len()
    &&& cell_rows(ps).len() == cell_nodes(ps).len()
    &&& forall|i: int|
        0 <= i < g.cells.len() ==> #[trigger] is_cell_of(g.cells[i], cell_nodes(ps)[i])
    &&& forall|i: int| 0 <= i < g.cells.len() ==> (#[trigger] g.cells[i]).row == cell_rows(ps)[i]
    &&& g.columns.len() <= g.cells.len()
    &&& forall|i: int|
        0 <= i < g.columns.len() ==> #[trigger] is_sized_by(
            g.columns[i],
            cell_nodes(ps)[i],
            is_fixed,
        )
    &&& forall|i: int|
        0 <= i < g.cells.len() ==> ((#[trigger] g.cells[i]).row == 1 <==> i < g.columns.len())
    &&& forall|i: int| 0 <= i < g.cells.len() ==> (#[trigger] g.cells[i]).row <= g.row
}

proof fn placing_holds(g: Grid, ps: Seq<Piece>, n: TableNode, is_fixed: bool, use_spans: bool)
    requires
        holds_pieces(g, ps, is_fixed),
        g.place(n, is_fixed, use_spans) is Some,
        n.display is Some,
        use_spans == (n.display->0.inside == Inside::TableCell),
    ensures
        holds_pieces(
            g.place(n, is_fixed, use_spans)->0,
            ps + seq![Piece::Cell(n)],
            is_fixed,
        ),
{
    let h = g.place(n, is_fixed, use_spans)->0;
    let now = ps + seq![Piece::Cell(n)];
    assert(now.drop_last() =~= ps);
    assert(now.last() == Piece::Cell(n));
    assert(anonymous_rows(now) == (if g.row == 0 {
        1int
    } else {
        anonymous_rows(ps)
    })) by {
        if ps.len() > 0 {
            assert(now[0] == ps[0]);
            if g.row == 0 {
                first_piece_counts(ps);
            }
        }
    }
    assert(cell_nodes(now) == cell_nodes(ps).push(n));
    assert(cell_rows(now) == cell_rows(ps).push(h.row));
    assert(is_cell_of(h.cells.last(), n));
    assert(h.cells.drop_last() =~= g.cells);
    assert(h.col == columns_taken(h.cells, h.row)) by {
        if g.row == 0 {
            assert forall|i: int| 0 <= i < g.cells.len() implies (#[trigger] g.cells[i]).row
                < 1 by {}
            new_rows_are_empty(g.cells, 1);
        }
    }
    assert forall|i: int| 0 <= i < h.cells.len() implies #[trigger] is_cell_of(
        h.cells[i],
        cell_nodes(now)[i],
    ) by {
        if i < g.cells.len() {
            assert(is_cell_of(g.cells[i], cell_nodes(ps)[i]));
        }
    }
    assert forall|i: int| 0 <= i < h.cells.len() implies (#[trigger] h.cells[i]).row == cell_rows(
        now,
    )[i] by {
        if i < g.cells.len() {
            assert(h.cells[i] == g.cells[i]);
        }
    }
    assert forall|i: int| 0 <= i < h.columns.len() implies #[trigger] is_sized_by(
        h.columns[i],
        cell_nodes(now)[i],
        is_fixed,
    ) by {
        if i < g.columns.len() {
            assert(is_sized_by(g.columns[i], cell_nodes(ps)[i], is_fixed));
        } else if i < g.cells.len() {
            assert(g.cells[i].row <= g.row);
            assert(g.cells[i].row == cell_rows(ps)[i]);
            rows_count_from_one(ps, i);
        }
    }
    assert forall|i: int| 0 <= i < h.cells.len() implies ((#[trigger] h.cells[i]).row == 1 <==> i
        < h.columns.len()) by {
        if i < g.cells.len() {
            assert(h.cells[i] == g.cells[i]);
            rows_count_from_one(ps, i);
        } else if g.columns.len() < g.cells.len() && h.row == 1 {
            let k = g.columns.len() as int;
            assert(g.cells[k].row <= g.row);
            rows_count_from_one(ps, k);
        }
    }
    assert forall|i: int| 0 <= i < h.cells.len() implies (#[trigger] h.cells[i]).row <= h.row by {
        if i < g.cells.len() {
            assert(h.cells[i] == g.cells[i]);
        }
    }
}

/// Something shown makes a row.
proof fn first_piece_counts(ps: Seq<Piece>)
    requires
        ps.len() > 0,
    ensures
        row_ids(ps).len() + anonymous_rows(ps) >= 1,
    decreases ps.len(),
{
    if ps.len() > 1 {
        assert(ps.drop_last()[0] == ps[0]);
        first_piece_counts(ps.drop_last());
    }
}

/// No cell stands before the first row.
proof fn rows_count_from_one(ps: Seq<Piece>, i: int)
    requires
        0 <= i < cell_rows(ps).len(),
    ensures
        cell_rows(ps)[i] >= 1,
    decreases ps.len(),
{
    if ps.len() > 0 {
        if i < cell_rows(ps.drop_last()).len() {
            rows_count_from_one(ps.drop_last(), i);
        } else {
            first_piece_counts(ps);
        }
    }
}

proof fn beginning_holds(g: Grid, ps: Seq<Piece>, id: usize, is_fixed: bool)
    requires
        holds_pieces(g, ps, is_fixed),
        g.settle(id).begin_row(id) is Some,
    ensures
        holds_pieces(g.settle(id).begin_row(id)->0, ps + seq![Piece::Row(id)], is_fixed),
{
    let h = g.settle(id).begin_row(id)->0;
    let now = ps + seq![Piece::Row(id)];
    assert(now.drop_last() =~= ps);
    assert(now.last() == Piece::Row(id));
    if ps.len() > 0 {
        assert(now[0] == ps[0]);
    }
    new_rows_are_empty(g.cells, h.row);
    assert forall|i: int| 0 <= i < h.cells.len() implies #[trigger] is_cell_of(
        h.cells[i],
        cell_nodes(now)[i],
    ) by {
        assert(is_cell_of(g.cells[i], cell_nodes(ps)[i]));
    }
    assert forall|i: int| 0 <= i < h.columns.len() implies #[trigger] is_sized_by(
        h.columns[i],
        cell_nodes(now)[i],
        is_fixed,
    ) by {
        assert(is_sized_by(g.columns[i], cell_nodes(ps)[i], is_fixed));
    }
}

proof fn settling_holds(g: Grid, ps: Seq<Piece>, id: usize, is_fixed: bool)
    requires
        holds_pieces(g, ps, is_fixed),
    ensures
        holds_pieces(g.settle(id), ps, is_fixed),
{
    let h = g.settle(id);
    assert(h.cells == g.cells && h.columns == g.columns);
}

proof fn collecting_holds(g: Grid, ps: Seq<Piece>, n: TableNode, is_fixed: bool)
    requires
        holds_pieces(g, ps, is_fixed),
        collected(g, n, is_fixed) is Some,
    ensures
        holds_pieces(collected(g, n, is_fixed)->0, ps + pieces(n), is_fixed),
    decreases n, n.children@.len() + 1,
{
    let count = n.children@.len() as int;
    assert(ps + Seq::<Piece>::empty() =~= ps);
    if n.is_element && n.display is Some {
        let display = n.display->0;
        if display.outside == Outside::Hidden {
            settling_holds(g, ps, n.id, is_fixed);
        } else if groups(display.inside) {
            children_hold(g, ps, n, is_fixed, true, count);
        } else if display.inside == Inside::TableRow {
            let h = g.settle(n.id).begin_row(n.id)->0;
            beginning_holds(g, ps, n.id, is_fixed);
            let begun = ps + seq![Piece::Row(n.id)];
            children_hold(h, begun, n, is_fixed, false, count);
            assert(begun + pieces_in(n, count) =~= ps + pieces(n));
        } else if display.inside == Inside::TableCell {
            placing_holds(g, ps, n, is_fixed, true);
        } else if flows(display.inside) && display.outside != Outside::TableCaption {
            placing_holds(g, ps, n, is_fixed, false);
        } else {
            settling_holds(g, ps, n.id, is_fixed);
        }
    }
}

proof fn children_hold(
    g: Grid,
    ps: Seq<Piece>,
    n: TableNode,
    is_fixed: bool,
    settles: bool,
    count: int,
)
    requires
        holds_pieces(g, ps, is_fixed),
        count <= n.children@.len(),
        collected_children(g, n, is_fixed, settles, count) is Some,
    ensures
        holds_pieces(
            collected_children(g, n, is_fixed, settles, count)->0,
            ps + pieces_in(n, count),
            is_fixed,
        ),
    decreases n, count,
{
    if count > 0 {
        children_hold(g, ps, n, is_fixed, settles, count - 1);
        let h = collected_children(g, n, is_fixed, settles, count - 1)->0;
        let before = ps + pieces_in(n, count - 1);
        let child = n.children@[count - 1];
        assert(decreases_to!(n.children => n.children[count - 1]));
        assert(decreases_to!(n => n.children));
        settling_holds(h, before, child.id, is_fixed);
        let next = if settles {
            h.settle(child.id)
        } else {
            h
        };
        collecting_holds(next, before, child, is_fixed);
        assert(before + pieces(child) =~= ps + pieces_in(n, count));
    } else {
        assert(ps + pieces_in(n, count) =~= ps);
    }
}

/// The rows of a grid are the visible rows of its table, and its cells are the visible cells and
/// the boxes that stand for cells, each in the order of the document: whatever stands in the bodies,
/// headers and footers of the table is there. A cell stands in the row that began last before it.
/// The cells of the first row size the columns, and there are as many columns as the cells of the
/// last row take.
pub proof fn grid_shows_the_table(root: TableNode, is_fixed: bool)
    requires
        grid_of(root, is_fixed) is Some,
    ensures
        ({
            let g = grid_of(root, is_fixed)->0;
            let shown = pieces_in(root, root.children@.len() as int);
            let nodes = cell_nodes(shown);
            &&& g.rows == row_ids(shown)
            &&& g.row == row_ids(shown).len() + anonymous_rows(shown)
            &&& g.cells.len() == nodes.len()
            &&& forall|i: int|
                0 <= i < g.cells.len() ==> #[trigger] is_cell_of(g.cells[i], nodes[i])
            &&& forall|i: int|
                0 <= i < g.cells.len() ==> (#[trigger] g.cells[i]).row == cell_rows(shown)[i]
            &&& forall|i: int|
                0 <= i < g.cells.len() && i < g.columns.len() && g.cells[i].row == 1
                    ==> #[trigger] is_sized_by(g.columns[i], nodes[i], is_fixed)
            &&& g.columns.len() == columns_taken(g.cells, g.row)
        }),
{
    let count = root.children@.len() as int;
    let g = collected_children(Grid::new(), root, is_fixed, false, count)->0;
    let none = Seq::<Piece>::empty();
    assert(holds_pieces(Grid::new(), none, is_fixed));
    children_hold(Grid::new(), none, root, is_fixed, false, count);
    let shown = pieces_in(root, count);
    assert(none + shown =~= shown);
    let columns = grid_of(root, is_fixed)->0.columns;
    cells_stand_in_the_grid(root, is_fixed);
    assert forall|i: int|
        0 <= i < g.cells.len() && i < columns.len() && g.cells[i].row == 1 implies
        #[trigger] is_sized_by(columns[i], cell_nodes(shown)[i], is_fixed) by {
        assert(is_sized_by(g.columns[i], cell_nodes(shown)[i], is_fixed));
    }
}

/// The nodes of a table that need no box of their own, in the order in which they are met: what is
/// hidden, rows, captions, columns, and tables that stand in no cell. Whatever stands right in a
/// body, a header or a footer of the table, or in what has no box (`display: contents`), is met
/// there too.
pub open spec fn boxless(n: TableNode) -> Seq<usize>
    decreases n, n.children@.len() + 1,
{
    if !n.is_element || n.display is None {
        Seq::empty()
    } else if n.display->0.outside == Outside::Hidden {
        seq![n.id]
    } else {
        match n.display->0.inside {
            Inside::TableRowGroup => boxless_in(n, true, n.children@.len() as int),
            Inside::TableHeaderGroup => boxless_in(n, true, n.children@.len() as int),
            Inside::TableFooterGroup => boxless_in(n, true, n.children@.len() as int),
            Inside::Contents => boxless_in(n, true, n.children@.len() as int),
            Inside::TableRow => seq![n.id] + boxless_in(n, false, n.children@.len() as int),
            Inside::TableCell => Seq::empty(),
            Inside::Flow | Inside::FlowRoot | Inside::Flex | Inside::Grid => {
                if n.display->0.outside == Outside::TableCaption {
                    seq![n.id]
                } else {
                    Seq::empty()
                }
            },
            Inside::TableColumnGroup | Inside::TableColumn | Inside::Table | Inside::Nothing => {
                seq![n.id]
            },
        }
    }
}

/// Those among the first `count` children of a node, with the children themselves where they are met.
pub open spec fn boxless_in(n: TableNode, met: bool, count: int) -> Seq<usize>
    decreases n, count,
{
    if count <= 0 || count > n.children@.len() {
        Seq::empty()
    } else {
        let child = n.children@[count - 1];
        boxless_in(n, met, count - 1) + (if met {
            seq![child.id]
        } else {
            Seq::empty()
        }) + boxless(child)
    }
}

proof fn collecting_settles(g: Grid, n: TableNode, is_fixed: bool)
    requires
        collected(g, n, is_fixed) is Some,
    ensures
        collected(g, n, is_fixed)->0.settled == g.settled + boxless(n),
    decreases n, n.children@.len() + 1,
{
    let count = n.children@.len() as int;
    assert(g.settled + Seq::<usize>::empty() =~= g.settled);
    assert(g.settled.push(n.id) =~= g.settled + seq![n.id]);
    if n.is_element && n.display is Some {
        let display = n.display->0;
        if display.outside != Outside::Hidden && groups(display.inside) {
            children_settle(g, n, is_fixed, true, count);
        } else if display.outside != Outside::Hidden && display.inside == Inside::TableRow {
            let h = g.settle(n.id).begin_row(n.id)->0;
            children_settle(h, n, is_fixed, false, count);
            assert(h.settled + boxless_in(n, false, count) =~= g.settled + boxless(n));
        }
    }
}

proof fn children_settle(g: Grid, n: TableNode, is_fixed: bool, settles: bool, count: int)
    requires
        count <= n.children@.len(),
        collected_children(g, n, is_fixed, settles, count) is Some,
    ensures
        collected_children(g, n, is_fixed, settles, count)->0.settled == g.settled + boxless_in(
            n,
            settles,
            count,
        ),
    decreases n, count,
{
    if count > 0 {
        children_settle(g, n, is_fixed, settles, count - 1);
        let h = collected_children(g, n, is_fixed, settles, count - 1)->0;
        let child = n.children@[count - 1];
        assert(decreases_to!(n.children => n.children[count - 1]));
        assert(decreases_to!(n => n.children));
        let next = if settles {
            h.settle(child.id)
        } else {
            h
        };
        collecting_settles(next, child, is_fixed);
        assert(next.settled + boxless(child) =~= g.settled + boxless_in(n, settles, count));
    } else {
        assert(g.settled + boxless_in(n, settles, count) =~= g.settled);
    }
}

/// The nodes that need no box of their own any more are exactly those of the table that need none.
pub proof fn boxless_nodes_are_settled(root: TableNode, is_fixed: bool)
    requires
        grid_of(root, is_fixed) is Some,
    ensures
        grid_of(root, is_fixed)->0.settled == boxless_in(root, false, root.children@.len() as int),
{
    let count = root.children@.len() as int;
    children_settle(Grid::new(), root, is_fixed, false, count);
    assert(Grid::new().settled + boxless_in(root, false, count) =~= boxless_in(root, false, count));
}

/// How many columns a cell takes: what the document writes on a table cell, where that is a number
/// of at most sixteen bits, and one column otherwise.
pub open spec fn cell_width(n: TableNode) -> int {
    let wide = match opt(n.colspan) {
        Some(s) => parsed_u64(s),
        None => None,
    };
    if n.display->0.inside == Inside::TableCell && wide is Some && wide->0 <= 0xffff {
        wide->0 as int
    } else {
        1
    }
}

/// How many columns the cells take that were shown since the last row began.
pub open spec fn last_width(ps: Seq<Piece>) -> int
    decreases ps.len(),
{
    if ps.len() == 0 {
        0
    } else {
        match ps.last() {
            Piece::Row(_) => 0,
            Piece::Cell(n) => last_width(ps.drop_last()) + cell_width(n),
        }
    }
}

/// Whether rows and columns can be counted with sixteen bits.
pub open spec fn is_countable(ps: Seq<Piece>) -> bool {
    row_ids(ps).len() + anonymous_rows(ps) <= 0xffff && last_width(ps) <= 0xffff
}

/// Whether they can be counted all along, while more is shown.
pub open spec fn stays_countable(ps: Seq<Piece>, more: Seq<Piece>) -> bool {
    forall|k: int| 0 <= k <= more.len() ==> is_countable(ps + #[trigger] more.take(k))
}

/// Counting goes on from one part of a table to the next.
proof fn counting_goes_on(ps: Seq<Piece>, a: Seq<Piece>, b: Seq<Piece>)
    ensures
        stays_countable(ps, a + b) <==> stays_countable(ps, a) && stays_countable(ps + a, b),
{
    if stays_countable(ps, a + b) {
        assert forall|k: int| 0 <= k <= a.len() implies is_countable(
            ps + #[trigger] a.take(k),
        ) by {
            assert((a + b).take(k) =~= a.take(k));
        }
        assert forall|k: int| 0 <= k <= b.len() implies is_countable(
            ps + a + #[trigger] b.take(k),
        ) by {
            assert(ps + (a + b).take(a.len() + k) =~= ps + a + b.take(k));
        }
    }
    if stays_countable(ps, a) && stays_countable(ps + a, b) {
        assert forall|k: int| 0 <= k <= (a + b).len() implies is_countable(
            ps + #[trigger] (a + b).take(k),
        ) by {
            if k <= a.len() {
                assert((a + b).take(k) =~= a.take(k));
            } else {
                assert(ps + (a + b).take(k) =~= ps + a + b.take(k - a.len()));
            }
        }
    }
}

/// One piece more can be counted where the whole can be.
proof fn counting_one(ps: Seq<Piece>, p: Piece)
    requires
        is_countable(ps),
    ensures
        stays_countable(ps, seq![p]) <==> is_countable(ps + seq![p]),
        stays_countable(ps, Seq::empty()),
{
    let one = seq![p];
    assert(one.take(1) =~= one);
    assert(ps + one.take(0) =~= ps);
    let none = Seq::<Piece>::empty();
    assert(ps + none.take(0) =~= ps);
}

/// Whether a grid in the making can be gone on with.
spec fn is_made(g: Grid, ps: Seq<Piece>, is_fixed: bool) -> bool {
    holds_pieces(g, ps, is_fixed) && is_countable(ps) && g.col == last_width(ps)
}

proof fn placing_counts(g: Grid, ps: Seq<Piece>, n: TableNode, is_fixed: bool, use_spans: bool)
    requires
        is_made(g, ps, is_fixed),
        n.display is Some,
        use_spans == (n.display->0.inside == Inside::TableCell),
    ensures
        g.place(n, is_fixed, use_spans) is Some <==> stays_countable(ps, seq![Piece::Cell(n)]),
        g.place(n, is_fixed, use_spans) is Some ==> is_made(
            g.place(n, is_fixed, use_spans)->0,
            ps + seq![Piece::Cell(n)],
            is_fixed,
        ),
{
    let now = ps + seq![Piece::Cell(n)];
    assert(now.drop_last() =~= ps);
    assert(now.last() == Piece::Cell(n));
    counting_one(ps, Piece::Cell(n));
    assert(cell_width(n) == columns_of(n, use_spans));
    if ps.len() > 0 {
        assert(now[0] == ps[0]);
        first_piece_counts(ps);
    }
    if g.row == 0 {
        assert(ps.len() == 0);
    }
    if g.place(n, is_fixed, use_spans) is Some {
        placing_holds(g, ps, n, is_fixed, use_spans);
    }
}

proof fn collecting_counts(g: Grid, ps: Seq<Piece>, n: TableNode, is_fixed: bool)
    requires
        is_made(g, ps, is_fixed),
    ensures
        collected(g, n, is_fixed) is Some <==> stays_countable(ps, pieces(n)),
        collected(g, n, is_fixed) is Some ==> is_made(
            collected(g, n, is_fixed)->0,
            ps + pieces(n),
            is_fixed,
        ),
    decreases n, n.children@.len() + 1,
{
    let count = n.children@.len() as int;
    assert(ps + Seq::<Piece>::empty() =~= ps);
    counting_one(ps, Piece::Row(n.id));
    if n.is_element && n.display is Some {
        let display = n.display->0;
        settling_holds(g, ps, n.id, is_fixed);
        if display.outside == Outside::Hidden {
        } else if groups(display.inside) {
            children_count(g, ps, n, is_fixed, true, count);
        } else if display.inside == Inside::TableRow {
            let row = seq![Piece::Row(n.id)];
            let begun = ps + row;
            assert(begun.drop_last() =~= ps);
            assert(begun.last() == Piece::Row(n.id));
            if ps.len() > 0 {
                assert(begun[0] == ps[0]);
            }
            counting_goes_on(ps, row, pieces_in(n, count));
            if g.settle(n.id).begin_row(n.id) is Some {
                let h = g.settle(n.id).begin_row(n.id)->0;
                beginning_holds(g, ps, n.id, is_fixed);
                children_count(h, begun, n, is_fixed, false, count);
                assert(begun + pieces_in(n, count) =~= ps + pieces(n));
            }
        } else if display.inside == Inside::TableCell {
            placing_counts(g, ps, n, is_fixed, true);
        } else if flows(display.inside) && display.outside != Outside::TableCaption {
            placing_counts(g, ps, n, is_fixed, false);
        }
    }
}

proof fn children_count(
    g: Grid,
    ps: Seq<Piece>,
    n: TableNode,
    is_fixed: bool,
    settles: bool,
    count: int,
)
    requires
        is_made(g, ps, is_fixed),
        count <= n.children@.len(),
    ensures
        collected_children(g, n, is_fixed, settles, count) is Some <==> stays_countable(
            ps,
            pieces_in(n, count),
        ),
        collected_children(g, n, is_fixed, settles, count) is Some ==> is_made(
            collected_children(g, n, is_fixed, settles, count)->0,
            ps + pieces_in(n, count),
            is_fixed,
        ),
    decreases n, count,
{
    if count > 0 {
        children_count(g, ps, n, is_fixed, settles, count - 1);
        let child = n.children@[count - 1];
        let before = pieces_in(n, count - 1);
        counting_goes_on(ps, before, pieces(child));
        if collected_children(g, n, is_fixed, settles, count - 1) is Some {
            let h = collected_children(g, n, is_fixed, settles, count - 1)->0;
            assert(decreases_to!(n.children => n.children[count - 1]));
            assert(decreases_to!(n => n.children));
            settling_holds(h, ps + before, child.id, is_fixed);
            let next = if settles {
                h.settle(child.id)
            } else {
                h
            };
            collecting_counts(next, ps + before, child, is_fixed);
            assert(ps + before + pieces(child) =~= ps + pieces_in(n, count));
        }
    } else {
        counting_one(ps, Piece::Row(0));
        assert(ps + pieces_in(n, count) =~= ps);
    }
}

/// A table has a grid exactly where its rows, and the columns of each row, can be counted with
/// sixteen bits.
pub proof fn countable_tables_have_a_grid(root: TableNode, is_fixed: bool)
    ensures
        grid_of(root, is_fixed) is Some <==> stays_countable(
            Seq::empty(),
            pieces_in(root, root.children@.len() as int),
        ),
{
    assert(holds_pieces(Grid::new(), Seq::empty(), is_fixed));
    children_count(
        Grid::new(),
        Seq::empty(),
        root,
        is_fixed,
        false,
        root.children@.len() as int,
    );
}

/// The indexes of a range, one after the other.
#[derive(Debug)]
pub struct RangeIter(pub Range<usize>);

impl RangeIter {
    /// The next index.
    pub fn next(&mut self) -> (r: Option<usize>)
        ensures
            if old(self).0.start < old(self).0.end {
                r == Some(old(self).0.start) && final(self).0.start == old(self).0.start + 1
                    && final(self).0.end == old(self).0.end
            } else {
                r is None && *final(self) == *old(self)
            },
    {
        let (start, end): (usize, usize) = (self.0.start, self.0.end);
        if start < end {
            self.0 = start + 1..end;
            Some(start)
        } else {
            None
        }
    }
}

impl TableContext {
    /// The indexes of the cells.
    pub fn child_ids(&self) -> (r: RangeIter)
        ensures
            r.0.start == 0,
            r.0.end == self.cells@.len(),
    {
        RangeIter(0..self.cells.len())
    }

    /// How many cells there are.
    pub fn child_count(&self) -> (r: usize)
        ensures
            r == self.cells@.len(),
    {
        self.cells.len()
    }
}

} // verus!
