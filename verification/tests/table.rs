//! Tables as grids.

use flectar_mail_core::layout::table::{
    build_table_context, measures_without_width, Display, Inside, Outside, TableNode, Track, Width,
};

fn element(id: usize, inside: Inside, children: Vec<TableNode>) -> TableNode {
    TableNode {
        id,
        is_element: true,
        display: Some(Display { outside: Outside::Other, inside }),
        colspan: None,
        rowspan: None,
        width: Width::Auto,
        content_box: true,
        children,
    }
}

fn cell(id: usize) -> TableNode {
    element(id, Inside::TableCell, Vec::new())
}

#[test]
fn rows_and_cells_are_numbered_in_document_order() {
    let table = element(
        0,
        Inside::Table,
        vec![element(
            1,
            Inside::TableRowGroup,
            vec![
                element(2, Inside::TableRow, vec![cell(3), cell(4)]),
                element(5, Inside::TableRow, vec![cell(6)]),
            ],
        )],
    );
    let grid = build_table_context(&table, false).unwrap();
    let placed: Vec<(usize, u16)> = grid.cells.iter().map(|c| (c.node_id, c.row)).collect();
    assert_eq!(placed, [(3, 1), (4, 1), (6, 2)]);
    assert_eq!(grid.rows, [2, 5]);
    assert_eq!((grid.row, grid.col), (2, 1));
    assert_eq!(grid.columns, [Track::Flexible]);
    assert_eq!(grid.border_cell, Some(3));
    assert_eq!(grid.settled, [2, 2, 5, 5]);
    assert_eq!(grid.child_count(), 3);
    let mut ids = grid.child_ids();
    assert_eq!((ids.next(), ids.next(), ids.next(), ids.next()), (Some(0), Some(1), Some(2), None));
}

#[test]
fn spans_are_read_and_bounded() {
    let wide = TableNode { colspan: Some("3".to_owned()), rowspan: Some("0".to_owned()), ..cell(2) };
    let tall =
        TableNode { colspan: Some("x".to_owned()), rowspan: Some("65535".to_owned()), ..cell(3) };
    let none = TableNode { colspan: Some("0".to_owned()), ..cell(4) };
    let table =
        element(0, Inside::Table, vec![element(1, Inside::TableRow, vec![wide, tall, none])]);
    let grid = build_table_context(&table, false).unwrap();
    let spans: Vec<(u16, u16)> = grid.cells.iter().map(|c| (c.colspan, c.rowspan)).collect();
    assert_eq!(spans, [(3, 1), (1, 65534), (0, 1)]);
    assert_eq!(grid.col, 4);
    assert_eq!(grid.columns.len(), 4);
}

#[test]
fn flow_children_become_anonymous_cells() {
    let floated = TableNode { colspan: Some("9".to_owned()), ..element(1, Inside::Flow, Vec::new()) };
    let caption = TableNode {
        display: Some(Display { outside: Outside::TableCaption, inside: Inside::Flow }),
        ..element(2, Inside::Flow, Vec::new())
    };
    let hidden = TableNode {
        display: Some(Display { outside: Outside::Hidden, inside: Inside::TableCell }),
        ..cell(3)
    };
    let text = TableNode { is_element: false, ..cell(4) };
    let unstyled = TableNode { display: None, ..cell(5) };
    let column = element(6, Inside::TableColumn, Vec::new());
    let table =
        element(0, Inside::Table, vec![floated, caption, hidden, text, unstyled, column]);
    let grid = build_table_context(&table, true).unwrap();
    assert_eq!(grid.cells.len(), 1);
    assert_eq!((grid.cells[0].node_id, grid.cells[0].row, grid.cells[0].colspan), (1, 1, 1));
    assert!(grid.rows.is_empty());
    assert_eq!(grid.row, 1);
    assert_eq!(grid.settled, [2, 3, 6]);
}

#[test]
fn widths_of_the_first_row_size_the_columns() {
    let sized = |id: usize, width: Width, content_box: bool| TableNode { width, content_box, ..cell(id) };
    let row = || {
        element(
            1,
            Inside::TableRow,
            vec![
                sized(2, Width::Length, true),
                sized(3, Width::Percent, true),
                sized(4, Width::Auto, true),
                sized(5, Width::Calc, true),
                sized(6, Width::Length, false),
            ],
        )
    };
    let fixed = build_table_context(&element(0, Inside::Table, vec![row()]), true).unwrap();
    assert_eq!(
        fixed.columns,
        [
            Track::Exactly { cell: 2, adds_edges: true },
            Track::Share { cell: 3 },
            Track::Auto,
            Track::Computed { cell: 5 },
            Track::Exactly { cell: 6, adds_edges: false },
        ]
    );
    let auto = build_table_context(&element(0, Inside::Table, vec![row()]), false).unwrap();
    assert_eq!(
        auto.columns,
        [
            Track::AtLeast { cell: 2, adds_edges: true },
            Track::Flexible,
            Track::Flexible,
            Track::Flexible,
            Track::AtLeast { cell: 6, adds_edges: false },
        ]
    );
    assert!(measures_without_width(false, Width::Length));
    assert!(!measures_without_width(true, Width::Length));
    assert!(!measures_without_width(false, Width::Percent));
}

#[test]
fn the_last_row_says_how_many_columns_there_are() {
    let table = element(
        0,
        Inside::Table,
        vec![
            element(1, Inside::TableRow, vec![cell(2)]),
            element(3, Inside::TableRow, vec![cell(4), cell(5), cell(6)]),
        ],
    );
    assert_eq!(build_table_context(&table, true).unwrap().columns, [Track::Auto; 3]);
    let empty = build_table_context(&element(0, Inside::Table, Vec::new()), true).unwrap();
    assert!(empty.columns.is_empty() && empty.cells.is_empty() && empty.border_cell.is_none());
}

#[test]
fn rows_that_are_too_wide_have_no_grid() {
    let wide = |id: usize| TableNode { colspan: Some("65535".to_owned()), ..cell(id) };
    let one = element(0, Inside::Table, vec![element(1, Inside::TableRow, vec![wide(2)])]);
    assert_eq!(build_table_context(&one, false).unwrap().columns.len(), 65535);
    let two = element(0, Inside::Table, vec![element(1, Inside::TableRow, vec![wide(2), cell(3)])]);
    assert!(build_table_context(&two, false).is_none());
}
