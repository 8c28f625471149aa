//! A double-buffered grid of colored characters that redraws only the cells
//! that changed since the last frame it emitted.

use vstd::prelude::*;
pub use crate::colors::ColoredChar;
use crate::colors::{Color, BLOCK_CHAR, ESC};
use crate::text::{decimal, push_char, push_decimal};

verus! {

/// What a grid holds: its cells in row-major order, what was last emitted for
/// each cell (`None` where the display must be repainted), its size and its
/// background color.
pub ghost struct GridModel {
    pub cells: Seq<ColoredChar>,
    pub last: Seq<Option<ColoredChar>>,
    pub width: nat,
    pub height: nat,
    pub bg: Color,
}

impl GridModel {
    /// Both buffers hold one entry per cell.
    pub open spec fn wf(self) -> bool {
        &&& self.cells.len() == self.width * self.height
        &&& self.last.len() == self.width * self.height
    }

    pub open spec fn in_bounds(self, x: int, y: int) -> bool {
        0 <= x < self.width && 0 <= y < self.height
    }

    pub open spec fn cell(self, x: int, y: int) -> ColoredChar {
        self.cells[y * self.width + x]
    }

    /// The grid after writing `cc` at `(x, y)`; a write off the grid is ignored.
    pub open spec fn with_cell(self, x: int, y: int, cc: ColoredChar) -> GridModel {
        if self.in_bounds(x, y) {
            GridModel { cells: self.cells.update(y * self.width + x, cc), ..self }
        } else {
            self
        }
    }
}

/// A cell to redraw: its column, its row and what it holds.
pub type CellUpdate = (usize, usize, ColoredChar);

/// Moves the cursor to column `x` and row `y`, counted from zero.
pub open spec fn move_to(x: nat, y: nat) -> Seq<char> {
    seq![ESC, '['] + decimal(y + 1) + seq![';'] + decimal(x + 1) + seq!['H']
}

/// Starts a synchronized update: the display holds its output until the end marker.
pub open spec fn begin_sync() -> Seq<char> {
    seq![ESC, '[', '?', '2', '0', '2', '6', 'h']
}

/// Ends a synchronized update.
pub open spec fn end_sync() -> Seq<char> {
    seq![ESC, '[', '?', '2', '0', '2', '6', 'l']
}

/// Hides the cursor.
pub open spec fn hide_cursor() -> Seq<char> {
    seq![ESC, '[', '?', '2', '5', 'l']
}

/// The text that redraws one cell.
pub open spec fn update_text(u: CellUpdate, bg: Color) -> Seq<char> {
    move_to(u.0 as nat, u.1 as nat) + u.2.painted(bg)
}

/// The text that redraws the given cells, in order.
pub open spec fn updates_text(us: Seq<CellUpdate>, bg: Color) -> Seq<char>
    decreases us.len(),
{
    if us.len() == 0 {
        Seq::empty()
    } else {
        updates_text(us.drop_last(), bg) + update_text(us.last(), bg)
    }
}

/// A whole frame: nothing when no cell changed; otherwise the redraws inside
/// a synchronized update, followed by hiding the cursor.
pub open spec fn frame_text(us: Seq<CellUpdate>, bg: Color) -> Seq<char> {
    if us.len() == 0 {
        Seq::empty()
    } else {
        begin_sync() + updates_text(us, bg) + end_sync() + hide_cursor()
    }
}

impl GridModel {
    /// The cells among the first `k` (in row-major order) whose content differs
    /// from what was last emitted for them.
    pub open spec fn pending_upto(self, k: int) -> Seq<CellUpdate>
        decreases k,
    {
        if k <= 0 {
            Seq::empty()
        } else {
            let rest = self.pending_upto(k - 1);
            let i = k - 1;
            if self.last[i] == Some(self.cells[i]) {
                rest
            } else {
                rest.push(((i % self.width as int) as usize, (i / self.width as int) as usize, self.cells[i]))
            }
        }
    }

    /// All cells whose content differs from what was last emitted for them.
    pub open spec fn pending(self) -> Seq<CellUpdate> {
        self.pending_upto(self.cells.len() as int)
    }

    /// The grid fitted to a display of `w` by `h`: unchanged when the size is
    /// the same; otherwise blank, in the background color, and wholly stale.
    pub open spec fn resized(self, w: nat, h: nat) -> GridModel {
        if w == self.width && h == self.height {
            self
        } else {
            GridModel {
                cells: Seq::new(w * h, |k: int| ColoredChar { c: ' ', color: self.bg }),
                last: Seq::new(w * h, |k: int| None),
                width: w,
                height: h,
                bg: self.bg,
            }
        }
    }

    /// The grid once everything it holds has been emitted.
    pub open spec fn emitted(self) -> GridModel {
        GridModel { last: Seq::new(self.cells.len(), |k: int| Some(self.cells[k])), ..self }
    }

    /// What `display` emits on a display of `w` by `h`.
    pub open spec fn display_frame(self, w: nat, h: nat) -> Seq<char> {
        frame_text(self.resized(w, h).pending(), self.bg)
    }

    /// The grid after `display` on a display of `w` by `h`.
    pub open spec fn displayed(self, w: nat, h: nat) -> GridModel {
        self.resized(w, h).emitted()
    }
}

/// `new` is `old` with the part of the rectangle of corner `(rx, ry)`, width
/// `w` and height `h` that lies on the grid set to `cc`, and nothing else changed.
pub open spec fn rect_drawn(old: GridModel, new: GridModel, rx: int, ry: int, w: int, h: int, cc: ColoredChar) -> bool {
    &&& new.width == old.width
    &&& new.height == old.height
    &&& new.bg == old.bg
    &&& new.last == old.last
    &&& new.cells.len() == old.cells.len()
    &&& forall|x: int, y: int| #[trigger] old.in_bounds(x, y) ==> new.cell(x, y) == if in_rect(x, y, rx, ry, w, h) {
        cc
    } else {
        old.cell(x, y)
    }
}

/// The first cell of a line drawn from `p` over `len` cells; a negative length
/// draws the `-len` cells before `p`.
pub open spec fn line_start(p: int, len: int) -> int {
    if len < 0 { p + len } else { p }
}

/// The number of cells of a line of length `len`.
pub open spec fn line_len(len: int) -> int {
    if len < 0 { -len } else { len }
}

/// The text of the given cells, each painted on background `bg`, in order.
pub open spec fn cells_text(cs: Seq<ColoredChar>, bg: Color) -> Seq<char>
    decreases cs.len(),
{
    if cs.len() == 0 {
        Seq::empty()
    } else {
        cells_text(cs.drop_last(), bg) + cs.last().painted(bg)
    }
}

impl GridModel {
    /// The text of row `y`.
    pub open spec fn row_text(self, y: int) -> Seq<char> {
        cells_text(self.cells.subrange(y * self.width, y * self.width + self.width), self.bg)
    }

    /// The text of the first `n` rows, each but the last row of the grid
    /// followed by a line break.
    pub open spec fn rows_text(self, n: int) -> Seq<char>
        decreases n,
    {
        if n <= 0 {
            Seq::empty()
        } else if n < self.height {
            self.rows_text(n - 1) + self.row_text(n - 1) + seq!['\n']
        } else {
            self.rows_text(n - 1) + self.row_text(n - 1)
        }
    }
}

/// `(x, y)` lies in the rectangle of corner `(rx, ry)`, width `w` and height `h`.
pub open spec fn in_rect(x: int, y: int, rx: int, ry: int, w: int, h: int) -> bool {
    rx <= x < rx + w && ry <= y < ry + h
}

/// Cells at distinct positions of a row-major grid have distinct indices,
/// and every position on the grid has an index inside it.
proof fn lemma_index_distinct(w: int, h: int, x1: int, y1: int, x2: int, y2: int)
    requires
        0 <= x1 < w,
        0 <= x2 < w,
        0 <= y1 < h,
        0 <= y2 < h,
    ensures
        0 <= y1 * w + x1 < w * h,
        (x1 != x2 || y1 != y2) ==> y1 * w + x1 != y2 * w + x2,
{
    assert(0 <= y1 * w + x1 < w * h) by (nonlinear_arith)
        requires
            0 <= x1 < w,
            0 <= y1 < h,
    ;
    if y1 < y2 {
        assert(y1 * w + x1 < y2 * w + x2) by (nonlinear_arith)
            requires
                0 <= x1 < w,
                0 <= x2,
                y1 < y2,
        ;
    } else if y2 < y1 {
        assert(y2 * w + x2 < y1 * w + x1) by (nonlinear_arith)
            requires
                0 <= x2 < w,
                0 <= x1,
                y2 < y1,
        ;
    }
}

fn filled<T: Copy>(value: T, n: usize) -> (r: Vec<T>)
    ensures
        r@ == Seq::new(n as nat, |i: int| value),
{
    let mut r: Vec<T> = Vec::new();
    let mut i: usize = 0;
    while i < n
        invariant
            i <= n,
            r@ == Seq::new(i as nat, |k: int| value),
        decreases n - i,
    {
        r.push(value);
        i = i + 1;
        assert(r@ =~= Seq::new(i as nat, |k: int| value));
    }
    r
}

/// A grid of `width` by `height` colored characters, with a second buffer
/// that records what was last emitted for each cell.
pub struct TerminalGrid {
    pub grid: Vec<ColoredChar>,
    pub last_grid: Vec<Option<ColoredChar>>,
    pub width: usize,
    pub height: usize,
    pub grid_size: usize,
    pub bg_color: Color,
}

impl View for TerminalGrid {
    type V = GridModel;

    open spec fn view(&self) -> GridModel {
        GridModel {
            cells: self.grid@,
            last: self.last_grid@,
            width: self.width as nat,
            height: self.height as nat,
            bg: self.bg_color,
        }
    }
}

impl TerminalGrid {
    /// Both buffers hold one entry per cell, and `grid_size` counts the cells.
    pub open spec fn wf(&self) -> bool {
        &&& self@.wf()
        &&& self.grid_size == self.width * self.height
    }

    /// A grid of the given size, filled with solid blocks in the background
    /// color, whose every cell will be drawn by the first `display`.
    pub fn new(bg_color: Color, width: usize, height: usize) -> (r: TerminalGrid)
        requires
            width * height <= usize::MAX,
        ensures
            r.wf(),
            r.width == width,
            r.height == height,
            r@.bg == bg_color,
            forall|k: int| 0 <= k < width * height ==> r@.cells[k] == (ColoredChar { c: BLOCK_CHAR, color: bg_color }),
            forall|k: int| 0 <= k < width * height ==> (r@.last[k] is None),
    {
        let grid_size = width * height;
        TerminalGrid {
            grid: filled(ColoredChar { c: BLOCK_CHAR, color: bg_color }, grid_size),
            last_grid: filled(None, grid_size),
            width,
            height,
            grid_size,
            bg_color,
        }
    }

    pub fn index_2d(&self, i: usize, j: usize) -> (r: usize)
        requires
            j * self.width + i <= usize::MAX,
        ensures
            r == j * self.width + i,
    {
        j * self.width + i
    }

    /// Writes `(c, color)` at column `i` and row `j`; a position off the grid
    /// leaves the grid unchanged.
    pub fn set_cell(&mut self, c: char, color: Color, i: usize, j: usize)
        requires
            old(self).wf(),
        ensures
            final(self).wf(),
            final(self)@ == old(self)@.with_cell(i as int, j as int, (ColoredChar { c, color })),
            final(self).width == old(self).width,
            final(self).height == old(self).height,
    {
        if i < self.width && j < self.height {
            proof {
                lemma_index_distinct(self.width as int, self.height as int, i as int, j as int, i as int, j as int);
            }
            let t = j * self.width + i;
            self.grid.set(t, ColoredChar { c, color });
        }
    }

    pub fn get_cell(&self, i: usize, j: usize) -> (r: ColoredChar)
        requires
            self.wf(),
            i < self.width,
            j < self.height,
        ensures
            r == self@.cell(i as int, j as int),
    {
        proof {
            lemma_index_distinct(self.width as int, self.height as int, i as int, j as int, i as int, j as int);
        }
        self.grid[j * self.width + i]
    }

    /// The text of row `j`: each of its cells painted on the background color.
    pub fn get_line(&self, j: usize) -> (r: String)
        requires
            self.wf(),
            j < self.height,
        ensures
            r@ == self@.row_text(j as int),
    {
        let w = self.width;
        proof {
            assert(j * w + w <= self.height * w) by (nonlinear_arith)
                requires
                    j < self.height,
            ;
            assert(self.height * w == w * self.height) by (nonlinear_arith);
        }
        let start = j * w;
        let ghost row = self@.cells.subrange(start as int, start + w);
        let mut r = String::new();
        let mut i: usize = 0;
        while i < w
            invariant
                self.wf(),
                i <= w,
                w == self.width,
                start + w <= self.grid@.len(),
                row == self@.cells.subrange(start as int, start + w),
                r@ == cells_text(row.subrange(0, i as int), self.bg_color),
            decreases w - i,
        {
            let painted = self.grid[start + i].to_string(self.bg_color);
            r.append(painted.as_str());
            proof {
                let sub = row.subrange(0, i as int + 1);
                assert(sub.drop_last() =~= row.subrange(0, i as int));
                assert(sub.last() == row[i as int]);
            }
            i = i + 1;
        }
        assert(row.subrange(0, w as int) =~= row);
        r
    }

    /// The text of every row, rows separated by line breaks.
    pub fn get_lines(&self) -> (r: String)
        requires
            self.wf(),
        ensures
            r@ == self@.rows_text(self.height as int),
    {
        let mut r = String::new();
        let mut j: usize = 0;
        while j < self.height
            invariant
                self.wf(),
                j <= self.height,
                r@ == self@.rows_text(j as int),
            decreases self.height - j,
        {
            let line = self.get_line(j);
            r.append(line.as_str());
            if j + 1 < self.height {
                push_char(&mut r, '\n');
            }
            j = j + 1;
        }
        r
    }

    /// Draws a horizontal line of `|len|` cells on row `y`: from column `x`
    /// rightwards, or for a negative `len` the cells left of column `x`.
    pub fn draw_line_h(&mut self, c: char, color: Color, x: usize, y: usize, len: i32)
        requires
            old(self).wf(),
        ensures
            final(self).wf(),
            rect_drawn(old(self)@, final(self)@, line_start(x as int, len as int), y as int,
                line_len(len as int), 1, (ColoredChar { c, color })),
    {
        if len < 0 {
            let l = (-(len as i64)) as usize;
            let start = if l > x { 0 } else { x - l };
            self.draw_box(c, color, start, y, x - start, 1);
        } else {
            self.draw_box(c, color, x, y, len as usize, 1);
        }
    }

    /// Draws a vertical line of `|len|` cells in column `x`: from row `y`
    /// downwards, or for a negative `len` the cells above row `y`.
    pub fn draw_line_v(&mut self, c: char, color: Color, x: usize, y: usize, len: i32)
        requires
            old(self).wf(),
        ensures
            final(self).wf(),
            rect_drawn(old(self)@, final(self)@, x as int, line_start(y as int, len as int), 1,
                line_len(len as int), (ColoredChar { c, color })),
    {
        if len < 0 {
            let l = (-(len as i64)) as usize;
            let start = if l > y { 0 } else { y - l };
            self.draw_box(c, color, x, start, 1, y - start);
        } else {
            self.draw_box(c, color, x, y, 1, len as usize);
        }
    }

    /// Sets every cell of the rectangle of corner `(x, y)`, width `w` and
    /// height `h` that lies on the grid.
    pub fn draw_box(&mut self, c: char, color: Color, x: usize, y: usize, w: usize, h: usize)
        requires
            old(self).wf(),
        ensures
            final(self).wf(),
            rect_drawn(old(self)@, final(self)@, x as int, y as int, w as int, h as int, (ColoredChar { c, color })),
    {
        let ghost m = self@;
        let ghost cc = ColoredChar { c, color };
        let end_i = if x < self.width {
            if w < self.width - x { x + w } else { self.width }
        } else {
            x
        };
        let end_j = if y < self.height {
            if h < self.height - y { y + h } else { self.height }
        } else {
            y
        };
        let mut i = x;
        while i < end_i
            invariant
                self.wf(),
                self.width == m.width,
                self.height == m.height,
                self.bg_color == m.bg,
                self.last_grid@ == m.last,
                self.grid@.len() == m.cells.len(),
                cc == (ColoredChar { c, color }),
                x <= i,
                i <= end_i,
                end_i <= self.width || end_i == x,
                x < self.width ==> end_i <= self.width,
                x < self.width && w < self.width - x ==> end_i == x + w,
                x < self.width && w >= self.width - x ==> end_i == self.width,
                x >= self.width ==> end_i == x,
                y < self.height && h < self.height - y ==> end_j == y + h,
                y < self.height && h >= self.height - y ==> end_j == self.height,
                y >= self.height ==> end_j == y,
                y <= end_j,
                forall|cx: int, cy: int| #[trigger] m.in_bounds(cx, cy) ==> self@.cell(cx, cy) == if in_rect(cx, cy, x as int, y as int, i - x, h as int) {
                    cc
                } else {
                    m.cell(cx, cy)
                },
            decreases end_i - i,
        {
            let mut j = y;
            while j < end_j
                invariant
                    self.wf(),
                    self.width == m.width,
                    self.height == m.height,
                    self.bg_color == m.bg,
                    self.last_grid@ == m.last,
                    self.grid@.len() == m.cells.len(),
                    cc == (ColoredChar { c, color }),
                    x <= i < end_i,
                    i < self.width,
                    y <= j <= end_j,
                    y < self.height && h < self.height - y ==> end_j == y + h,
                    y < self.height && h >= self.height - y ==> end_j == self.height,
                    y >= self.height ==> end_j == y,
                    forall|cx: int, cy: int| #[trigger] m.in_bounds(cx, cy) ==> self@.cell(cx, cy) == if in_rect(cx, cy, x as int, y as int, i - x, h as int)
                        || (cx == i && y <= cy < j) {
                        cc
                    } else {
                        m.cell(cx, cy)
                    },
                decreases end_j - j,
            {
                let ghost before = self@;
                self.set_cell(c, color, i, j);
                proof {
                    assert forall|cx: int, cy: int| #[trigger] m.in_bounds(cx, cy) implies self@.cell(cx, cy) == if (cx == i && cy == j) {
                        cc
                    } else {
                        before.cell(cx, cy)
                    } by {
                        lemma_index_distinct(m.width as int, m.height as int, cx, cy, i as int, j as int);
                        lemma_index_distinct(m.width as int, m.height as int, i as int, j as int, i as int, j as int);
                    }
                }
                j = j + 1;
            }
            i = i + 1;
        }
    }

    /// Sets every cell of the grid to `(c, color)`.
    pub fn fill(&mut self, c: char, color: Color)
        requires
            old(self).wf(),
        ensures
            final(self).wf(),
            rect_drawn(old(self)@, final(self)@, 0, 0, old(self).width as int, old(self).height as int, (ColoredChar { c, color })),
    {
        let w = self.width;
        let h = self.height;
        self.draw_box(c, color, 0, 0, w, h);
    }

    /// Sets every cell of the grid to a space in the background color.
    pub fn clear(&mut self)
        requires
            old(self).wf(),
        ensures
            final(self).wf(),
            rect_drawn(old(self)@, final(self)@, 0, 0, old(self).width as int, old(self).height as int,
                (ColoredChar { c: ' ', color: old(self).bg_color })),
    {
        let bg = self.bg_color;
        self.fill(' ', bg);
    }

    /// Fits both buffers to a display of `w` by `h`; when the size changed they
    /// are blanked and every cell is marked for redrawing.
    fn fit_to(&mut self, w: usize, h: usize)
        requires
            old(self).wf(),
            w * h <= usize::MAX,
        ensures
            final(self).wf(),
            final(self)@ == old(self)@.resized(w as nat, h as nat),
    {
        if w != self.width || h != self.height {
            let size = w * h;
            self.grid = filled(ColoredChar { c: ' ', color: self.bg_color }, size);
            self.last_grid = filled(None, size);
            self.width = w;
            self.height = h;
            self.grid_size = size;
            assert(self@.cells =~= old(self)@.resized(w as nat, h as nat).cells);
            assert(self@.last =~= old(self)@.resized(w as nat, h as nat).last);
        }
    }

    /// Lists the cells that differ from what was last emitted, in row-major
    /// order, and records them as emitted.
    pub fn take_changes(&mut self) -> (r: Vec<CellUpdate>)
        requires
            old(self).wf(),
        ensures
            final(self).wf(),
            r@ == old(self)@.pending(),
            final(self)@ == old(self)@.emitted(),
    {
        let ghost m = self@;
        let mut r: Vec<CellUpdate> = Vec::new();
        let mut k: usize = 0;
        let mut x: usize = 0;
        let mut y: usize = 0;
        proof {
            if self.grid_size > 0 {
                assert(self.width > 0) by (nonlinear_arith)
                    requires
                        self.grid_size == self.width * self.height,
                        self.grid_size > 0,
                ;
            }
        }
        while k < self.grid_size
            invariant
                self.wf(),
                self.grid@ == m.cells,
                self.width == m.width,
                self.height == m.height,
                self.bg_color == m.bg,
                k <= self.grid_size,
                k == y * self.width + x,
                k < self.grid_size ==> x < self.width,
                r@ == m.pending_upto(k as int),
                forall|i: int| 0 <= i < k ==> self.last_grid@[i] == Some(m.cells[i]),
                forall|i: int| k <= i < self.grid_size ==> self.last_grid@[i] == m.last[i],
            decreases self.grid_size - k,
        {
            proof {
                vstd::arithmetic::div_mod::lemma_fundamental_div_mod_converse(
                    k as int, self.width as int, y as int, x as int);
            }
            let cell = self.grid[k];
            let changed = match self.last_grid[k] {
                Some(prev) => prev != cell,
                None => true,
            };
            if changed {
                r.push((x, y, cell));
                self.last_grid.set(k, Some(cell));
            }
            k = k + 1;
            if x + 1 < self.width {
                x = x + 1;
            } else {
                proof {
                    vstd::arithmetic::mul::lemma_mul_is_distributive_add_other_way(
                        self.width as int, y as int, 1);
                }
                x = 0;
                y = y + 1;
            }
        }
        assert(self.last_grid@ =~= m.emitted().last);
        r
    }

    /// Fits the grid to a display of `width` by `height`, then returns the
    /// text that brings the display up to date: every cell that changed since
    /// the last frame, none that did not.
    pub fn display(&mut self, width: usize, height: usize) -> (r: String)
        requires
            old(self).wf(),
            width * height <= usize::MAX,
        ensures
            final(self).wf(),
            final(self)@ == old(self)@.displayed(width as nat, height as nat),
            r@ == old(self)@.display_frame(width as nat, height as nat),
    {
        self.fit_to(width, height);
        let updates = self.take_changes();
        render_frame(&updates, self.bg_color)
    }
}

fn push_move_to(s: &mut String, x: usize, y: usize)
    ensures
        final(s)@ == old(s)@ + move_to(x as nat, y as nat),
{
    push_char(s, ESC);
    push_char(s, '[');
    push_decimal(s, y as u128 + 1);
    push_char(s, ';');
    push_decimal(s, x as u128 + 1);
    push_char(s, 'H');
    assert(final(s)@ =~= old(s)@ + move_to(x as nat, y as nat));
}

fn push_escape(s: &mut String, code: &Vec<char>)
    ensures
        final(s)@ == old(s)@ + seq![ESC, '['] + code@,
{
    push_char(s, ESC);
    push_char(s, '[');
    let mut i: usize = 0;
    while i < code.len()
        invariant
            i <= code@.len(),
            s@ == old(s)@ + seq![ESC, '['] + code@.subrange(0, i as int),
        decreases code@.len() - i,
    {
        push_char(s, code[i]);
        i = i + 1;
        assert(s@ =~= old(s)@ + seq![ESC, '['] + code@.subrange(0, i as int));
    }
    assert(code@.subrange(0, code@.len() as int) =~= code@);
}

/// The text that redraws `updates` on background `bg`, as `frame_text` states.
pub fn render_frame(updates: &Vec<CellUpdate>, bg: Color) -> (r: String)
    ensures
        r@ == frame_text(updates@, bg),
{
    let mut s = String::new();
    if updates.len() == 0 {
        return s;
    }
    push_escape(&mut s, &vec!['?', '2', '0', '2', '6', 'h']);
    assert(s@ =~= begin_sync());
    let mut i: usize = 0;
    while i < updates.len()
        invariant
            i <= updates@.len(),
            s@ == begin_sync() + updates_text(updates@.subrange(0, i as int), bg),
        decreases updates@.len() - i,
    {
        let (x, y, cell) = updates[i];
        push_move_to(&mut s, x, y);
        let painted = cell.to_string(bg);
        s.append(painted.as_str());
        proof {
            let sub = updates@.subrange(0, i as int + 1);
            assert(sub.drop_last() =~= updates@.subrange(0, i as int));
            assert(sub.last() == updates@[i as int]);
        }
        i = i + 1;
        assert(s@ =~= begin_sync() + updates_text(updates@.subrange(0, i as int), bg));
    }
    assert(updates@.subrange(0, updates@.len() as int) =~= updates@);
    push_escape(&mut s, &vec!['?', '2', '0', '2', '6', 'l']);
    push_escape(&mut s, &vec!['?', '2', '5', 'l']);
    assert(s@ =~= frame_text(updates@, bg));
    s
}

proof fn lemma_pending_upto_emitted(m: GridModel, k: int)
    requires
        0 <= k <= m.cells.len(),
    ensures
        m.emitted().pending_upto(k).len() == 0,
    decreases k,
{
    if k > 0 {
        lemma_pending_upto_emitted(m, k - 1);
    }
}

proof fn lemma_pending_upto_stale(m: GridModel, k: int)
    requires
        0 <= k <= m.cells.len(),
        m.last.len() == m.cells.len(),
        forall|i: int| 0 <= i < m.last.len() ==> (m.last[i] is None),
    ensures
        m.pending_upto(k).len() == k,
    decreases k,
{
    if k > 0 {
        lemma_pending_upto_stale(m, k - 1);
    }
}

/// Displaying twice in a row, with no cell written in between and the
/// display size unchanged, emits nothing the second time.
pub proof fn lemma_display_twice_emits_nothing(m: GridModel, w: nat, h: nat)
    requires
        m.wf(),
    ensures
        m.displayed(w, h).display_frame(w, h).len() == 0,
{
    let r = m.resized(w, h);
    lemma_pending_upto_emitted(r, r.cells.len() as int);
    assert(m.displayed(w, h).resized(w, h) == r.emitted());
}

/// After the display size changes, the next `display` redraws every cell of
/// the new size.
pub proof fn lemma_resize_redraws_every_cell(m: GridModel, w: nat, h: nat)
    requires
        m.wf(),
        w != m.width || h != m.height,
    ensures
        m.resized(w, h).pending().len() == w * h,
{
    lemma_pending_upto_stale(m.resized(w, h), (w * h) as int);
}

} // verus!
