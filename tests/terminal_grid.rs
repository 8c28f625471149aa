use audioviz::colors::{ColoredChar, BLOCK_CHAR};
use audioviz::terminal_grid::{render_frame, TerminalGrid};

const RED: (u8, u8, u8) = (255, 0, 0);
const BG: (u8, u8, u8) = (0, 0, 0);

fn cells(grid: &TerminalGrid) -> Vec<ColoredChar> {
    let mut v = Vec::new();
    for j in 0..grid.height {
        for i in 0..grid.width {
            v.push(grid.get_cell(i, j));
        }
    }
    v
}

fn count_moves(frame: &str) -> usize {
    frame.matches('H').count()
}

#[test]
fn new_grid_is_filled_with_blocks() {
    let grid = TerminalGrid::new(BG, 4, 3);
    assert_eq!(grid.grid_size, 12);
    assert_eq!(grid.get_cell(3, 2), ColoredChar::new(BLOCK_CHAR, BG));
}

#[test]
fn index_is_row_major() {
    let grid = TerminalGrid::new(BG, 5, 4);
    assert_eq!(grid.index_2d(0, 0), 0);
    assert_eq!(grid.index_2d(3, 2), 13);
}

#[test]
fn set_cell_one_past_the_edge_changes_nothing() {
    let mut grid = TerminalGrid::new(BG, 4, 3);
    let before = cells(&grid);
    let width = grid.width;
    grid.set_cell('A', RED, width, 0);
    grid.set_cell('A', RED, 0, 3);
    grid.set_cell('A', RED, usize::MAX, usize::MAX);
    assert!(cells(&grid) == before);
}

#[test]
fn set_cell_in_range_writes_one_cell() {
    let mut grid = TerminalGrid::new(BG, 4, 3);
    grid.set_cell('A', RED, 2, 1);
    assert_eq!(grid.get_cell(2, 1), ColoredChar::new('A', RED));
    assert_eq!(grid.get_cell(1, 1), ColoredChar::new(BLOCK_CHAR, BG));
    assert_eq!(grid.get_cell(2, 0), ColoredChar::new(BLOCK_CHAR, BG));
}

#[test]
fn draw_box_is_clipped_to_the_grid() {
    let mut grid = TerminalGrid::new(BG, 4, 3);
    grid.draw_box('#', RED, 2, 1, 10, 10);
    for j in 0..3 {
        for i in 0..4 {
            let expected = if i >= 2 && j >= 1 { '#' } else { BLOCK_CHAR };
            assert_eq!(grid.get_cell(i, j).c, expected, "cell {} {}", i, j);
        }
    }
}

#[test]
fn draw_line_h_forward_and_backward() {
    let mut grid = TerminalGrid::new(BG, 6, 2);
    grid.draw_line_h('>', RED, 1, 0, 3);
    grid.draw_line_h('<', RED, 4, 1, -2);
    let row0: String = (0..6).map(|i| grid.get_cell(i, 0).c).collect();
    let row1: String = (0..6).map(|i| grid.get_cell(i, 1).c).collect();
    assert_eq!(row0, "\u{2588}>>>\u{2588}\u{2588}");
    assert_eq!(row1, "\u{2588}\u{2588}<<\u{2588}\u{2588}");
}

#[test]
fn draw_line_backward_past_the_origin_is_clipped() {
    let mut grid = TerminalGrid::new(BG, 3, 5);
    grid.draw_line_v('|', RED, 1, 2, -10);
    let col: String = (0..5).map(|j| grid.get_cell(1, j).c).collect();
    assert_eq!(col, "||\u{2588}\u{2588}\u{2588}");
}

#[test]
fn draw_line_v_forward() {
    let mut grid = TerminalGrid::new(BG, 2, 4);
    grid.draw_line_v('|', RED, 0, 1, 2);
    let col: String = (0..4).map(|j| grid.get_cell(0, j).c).collect();
    assert_eq!(col, "\u{2588}||\u{2588}");
}

#[test]
fn fill_and_clear_cover_every_cell() {
    let mut grid = TerminalGrid::new((1, 2, 3), 3, 2);
    grid.fill('x', RED);
    assert!(cells(&grid).iter().all(|c| *c == ColoredChar::new('x', RED)));
    grid.clear();
    assert!(cells(&grid).iter().all(|c| *c == ColoredChar::new(' ', (1, 2, 3))));
}

#[test]
fn get_line_paints_each_cell() {
    let mut grid = TerminalGrid::new(BG, 2, 2);
    grid.set_cell('a', RED, 0, 1);
    grid.set_cell('b', (0, 255, 0), 1, 1);
    assert_eq!(
        grid.get_line(1),
        "\x1b[48;2;0;0;0;38;2;255;0;0ma\x1b[0m\x1b[48;2;0;0;0;38;2;0;255;0mb\x1b[0m"
    );
}

#[test]
fn get_lines_separates_rows() {
    let mut grid = TerminalGrid::new(BG, 1, 3);
    grid.fill('z', (9, 9, 9));
    let cell = "\x1b[48;2;0;0;0;38;2;9;9;9mz\x1b[0m";
    assert_eq!(grid.get_lines(), format!("{}\n{}\n{}", cell, cell, cell));
}

#[test]
fn first_display_draws_every_cell() {
    let mut grid = TerminalGrid::new(BG, 3, 2);
    let frame = grid.display(3, 2);
    assert_eq!(count_moves(&frame), 6);
    assert!(frame.starts_with("\x1b[?2026h\x1b[1;1H"));
    assert!(frame.ends_with("\x1b[?2026l\x1b[?25l"));
}

#[test]
fn second_display_emits_nothing() {
    let mut grid = TerminalGrid::new(BG, 3, 2);
    grid.display(3, 2);
    assert_eq!(grid.display(3, 2), "");
}

#[test]
fn display_emits_only_changed_cells() {
    let mut grid = TerminalGrid::new(BG, 3, 2);
    grid.display(3, 2);
    grid.set_cell('A', RED, 2, 1);
    let frame = grid.display(3, 2);
    assert_eq!(
        frame,
        "\x1b[?2026h\x1b[2;3H\x1b[48;2;0;0;0;38;2;255;0;0mA\x1b[0m\x1b[?2026l\x1b[?25l"
    );
    grid.set_cell('A', RED, 2, 1);
    assert_eq!(grid.display(3, 2), "");
}

#[test]
fn display_after_resize_redraws_every_cell() {
    let mut grid = TerminalGrid::new(BG, 3, 2);
    grid.display(3, 2);
    let frame = grid.display(4, 3);
    assert_eq!(count_moves(&frame), 12);
    assert_eq!(grid.width, 4);
    assert_eq!(grid.height, 3);
    assert_eq!(grid.grid_size, 12);
    assert_eq!(grid.get_cell(3, 2), ColoredChar::new(' ', BG));
    assert_eq!(grid.display(4, 3), "");
}

#[test]
fn empty_grid_displays_nothing() {
    let mut grid = TerminalGrid::new(BG, 0, 0);
    assert_eq!(grid.display(0, 0), "");
}

#[test]
fn render_frame_of_nothing_is_empty() {
    assert_eq!(render_frame(&vec![], BG), "");
}

#[test]
fn render_frame_positions_from_one() {
    let frame = render_frame(&vec![(10, 0, ColoredChar::new('q', (1, 2, 3)))], (4, 5, 6));
    assert_eq!(
        frame,
        "\x1b[?2026h\x1b[1;11H\x1b[48;2;4;5;6;38;2;1;2;3mq\x1b[0m\x1b[?2026l\x1b[?25l"
    );
}
