//! A character grid driven by the output of a shell: printable characters,
//! the control characters newline, carriage return, tab and backspace, and
//! the CSI sequences that move the cursor and erase parts of the screen.
use vstd::prelude::*;

verus! {

/// The blank row of a grid `cols` wide.
pub open spec fn blank_row(cols: nat) -> Seq<char> {
    Seq::new(cols, |i: int| ' ')
}

/// Rows joined by newlines.
pub open spec fn join_rows(rows: Seq<Seq<char>>) -> Seq<char>
    decreases rows.len(),
{
    if rows.len() == 0 {
        Seq::empty()
    } else if rows.len() == 1 {
        rows[0]
    } else {
        join_rows(rows.drop_last()) + seq!['\n'] + rows.last()
    }
}

/// The value of a parameter group: its first value, when the group exists
/// and holds one.
pub open spec fn param_value(params: Seq<Seq<u16>>, index: int) -> Option<nat> {
    if 0 <= index < params.len() && params[index].len() > 0 {
        Some(params[index][0] as nat)
    } else {
        None
    }
}

/// The first parameter of a CSI sequence, 0 when it is missing.
pub open spec fn csi_p0(params: Seq<Seq<u16>>) -> nat {
    match param_value(params, 0) {
        Some(v) => v,
        None => 0,
    }
}

/// The second parameter of a CSI sequence, 1 when it is missing.
pub open spec fn csi_p1(params: Seq<Seq<u16>>) -> nat {
    match param_value(params, 1) {
        Some(v) => v,
        None => 1,
    }
}

/// `String::push`: appends one character.
#[verifier::external_body]
fn string_push(s: &mut String, c: char)
    ensures
        final(s)@ == old(s)@.push(c),
{
    s.push(c);
}

/// The first value of parameter group `index` of a CSI sequence.
pub fn param(params: &Vec<Vec<u16>>, index: usize) -> (p: Option<usize>)
    ensures
        p == (match param_value(params@.map_values(|g: Vec<u16>| g@), index as int) {
            Some(v) => Some(v as usize),
            None => None,
        }),
{
    if index < params.len() && params[index].len() > 0 {
        Some(params[index][0] as usize)
    } else {
        None
    }
}

/// The abstract state of a terminal grid: its size, the characters of each
/// row, and the cursor column `x` and row `y`.
pub struct TermView {
    pub cols: nat,
    pub rows: nat,
    pub cells: Seq<Seq<char>>,
    pub x: nat,
    pub y: nat,
}

impl TermView {
    /// The grid has `rows` rows of `cols` characters, and the cursor stands
    /// on a cell (or at the origin of a grid without cells).
    pub open spec fn wf(self) -> bool {
        &&& self.grid_wf()
        &&& if self.cols == 0 { self.x == 0 } else { self.x < self.cols }
    }

    /// The grid has `rows` rows of `cols` characters and the cursor stands
    /// on a row (or at the top of a grid without rows).
    pub open spec fn grid_wf(self) -> bool {
        &&& self.cells.len() == self.rows
        &&& forall|r: int| 0 <= r < self.rows ==> #[trigger] self.cells[r].len() == self.cols
        &&& if self.rows == 0 { self.y == 0 } else { self.y < self.rows }
        &&& self.cols <= u16::MAX
        &&& self.rows <= u16::MAX
    }

    /// A grid of blank rows with the cursor at the origin.
    pub open spec fn initial(cols: nat, rows: nat) -> TermView {
        TermView { cols, rows, cells: Seq::new(rows, |r: int| blank_row(cols)), x: 0, y: 0 }
    }

    pub open spec fn with_cell(self, row: int, col: int, ch: char) -> TermView {
        TermView { cells: self.cells.update(row, self.cells[row].update(col, ch)), ..self }
    }

    /// The grid with its first row dropped and a blank row added below.
    pub open spec fn scrolled(self) -> TermView {
        TermView { cells: self.cells.drop_first().push(blank_row(self.cols)), ..self }
    }

    /// The cursor goes to the start of the next row; on the last row the
    /// grid scrolls up by one row instead.
    pub open spec fn newline(self) -> TermView {
        if self.y + 1 >= self.rows {
            TermView { x: 0, ..self.scrolled() }
        } else {
            TermView { x: 0, y: self.y + 1, ..self }
        }
    }

    /// `ch` is written under the cursor and the cursor moves right, to the
    /// next row when it passes the last column.  A grid without cells is
    /// left as it is.
    pub open spec fn print(self, ch: char) -> TermView {
        if self.cols == 0 || self.rows == 0 {
            self
        } else {
            let written = TermView { x: self.x + 1, ..self.with_cell(self.y as int, self.x as int, ch) };
            if self.x + 1 >= self.cols {
                written.newline()
            } else {
                written
            }
        }
    }

    /// The next tab stop: the next multiple of eight after the cursor.
    pub open spec fn next_tab(self) -> nat {
        ((self.x / 8 + 1) * 8) as nat
    }

    /// The cells from the cursor to the next tab stop are blanked and the
    /// cursor goes to that stop.
    pub open spec fn tab(self) -> TermView {
        let y = self.y as int;
        TermView {
            cells: self.cells.update(
                y,
                Seq::new(
                    self.cols,
                    |c: int|
                        if self.x <= c < self.next_tab() {
                            ' '
                        } else {
                            self.cells[y][c]
                        },
                ),
            ),
            x: self.next_tab(),
            ..self
        }
    }

    pub open spec fn clamp(v: nat, len: nat) -> nat {
        if len == 0 {
            0
        } else if v < len {
            v
        } else {
            (len - 1) as nat
        }
    }

    /// The cursor goes to (`row`, `col`), clamped to the grid.
    pub open spec fn moved(self, row: nat, col: nat) -> TermView {
        TermView { y: Self::clamp(row, self.rows), x: Self::clamp(col, self.cols), ..self }
    }

    /// Every cell blank, the cursor at the origin.
    pub open spec fn cleared(self) -> TermView {
        TermView { cells: Seq::new(self.rows, |r: int| blank_row(self.cols)), x: 0, y: 0, ..self }
    }

    /// The cursor row with the columns for which `erase(c)` holds blanked.
    pub open spec fn cursor_row_erased(self, erase: spec_fn(int) -> bool) -> TermView {
        let y = self.y as int;
        if self.rows == 0 {
            self
        } else { TermView {
            cells: self.cells.update(
                y,
                Seq::new(self.cols, |c: int| if erase(c) { ' ' } else { self.cells[y][c] }),
            ),
            ..self
        } }
    }

    /// Erase in line: 0 from the cursor to the end of the row, 1 from the
    /// start of the row to the cursor, 2 the whole row; other modes change
    /// nothing.
    pub open spec fn erase_line(self, mode: nat) -> TermView {
        if mode == 0 {
            self.cursor_row_erased(|c: int| c >= self.x)
        } else if mode == 1 {
            self.cursor_row_erased(|c: int| c <= self.x)
        } else if mode == 2 {
            self.cursor_row_erased(|c: int| true)
        } else {
            self
        }
    }

    /// The rows for which `erase(r)` holds blanked.
    pub open spec fn rows_erased(self, erase: spec_fn(int) -> bool) -> TermView {
        TermView {
            cells: Seq::new(
                self.rows,
                |r: int| if erase(r) { blank_row(self.cols) } else { self.cells[r] },
            ),
            ..self
        }
    }

    /// Erase in display: 0 from the cursor to the end of the screen, 1 from
    /// the start of the screen to the cursor, 2 the whole screen (and the
    /// cursor goes home); other modes change nothing.
    pub open spec fn erase_display(self, mode: nat) -> TermView {
        if mode == 0 {
            self.erase_line(0).rows_erased(|r: int| r > self.y)
        } else if mode == 1 {
            self.erase_line(1).rows_erased(|r: int| r < self.y)
        } else if mode == 2 {
            self.cleared()
        } else {
            self
        }
    }

    /// The effect of a control character: newline, carriage return, tab
    /// and backspace; other control characters change nothing.
    pub open spec fn execute(self, byte: u8) -> TermView {
        if byte == 0x0a {
            self.newline()
        } else if byte == 0x0d {
            TermView { x: 0, ..self }
        } else if byte == 0x09 {
            self.tab()
        } else if byte == 0x08 {
            if self.x > 0 { TermView { x: (self.x - 1) as nat, ..self } } else { self }
        } else {
            self
        }
    }

    /// Whether a control character can run: a newline needs a row, a tab
    /// needs a row and a tab stop inside the row.
    pub open spec fn can_execute(self, byte: u8) -> bool {
        &&& byte == 0x0a ==> self.rows > 0
        &&& byte == 0x09 ==> self.rows > 0 && self.next_tab() < self.cols
    }

    /// The effect of a CSI sequence with first parameter `p0` (0 when absent)
    /// and second parameter `p1` (1 when absent): cursor up, down, forward
    /// and back by at least one, cursor position (1-based), erase in
    /// display and erase in line; other sequences change nothing.
    pub open spec fn csi(self, p0: nat, p1: nat, action: char) -> TermView {
        let amount: nat = if p0 > 1 { p0 } else { 1 };
        if action == 'A' {
            self.moved(if self.y >= amount { (self.y - amount) as nat } else { 0 }, self.x)
        } else if action == 'B' {
            self.moved(self.y + amount, self.x)
        } else if action == 'C' {
            self.moved(self.y, self.x + amount)
        } else if action == 'D' {
            self.moved(self.y, if self.x >= amount { (self.x - amount) as nat } else { 0 })
        } else if action == 'H' || action == 'f' {
            self.moved((amount - 1) as nat, ((if p1 > 1 { p1 } else { 1 }) - 1) as nat)
        } else if action == 'J' {
            self.erase_display(p0)
        } else if action == 'K' {
            self.erase_line(p0)
        } else {
            self
        }
    }

    /// Whether a CSI sequence can run: the erase sequences read the cursor
    /// row.
    pub open spec fn can_csi(self, p0: nat, action: char) -> bool {
        &&& action == 'J' && p0 <= 1 ==> self.can_erase_line(p0)
        &&& action == 'K' ==> self.can_erase_line(p0)
    }

    /// The grid as text: the rows in order, each followed by a newline but
    /// the last.
    pub open spec fn text(self) -> Seq<char> {
        join_rows(self.cells)
    }

    /// Whether erase in line with `mode` can run: it reads the cursor row.
    pub open spec fn can_erase_line(self, mode: nat) -> bool {
        if mode == 0 {
            self.cols == 0 || self.rows > 0
        } else if mode == 1 {
            self.cols > 0 && self.rows > 0
        } else if mode == 2 {
            self.rows > 0
        } else {
            true
        }
    }
}

/// The grid of a terminal and its cursor.
pub struct TerminalState {
    cols: usize,
    rows: usize,
    grid: Vec<Vec<char>>,
    cursor_x: usize,
    cursor_y: usize,
}

impl View for TerminalState {
    type V = TermView;

    closed spec fn view(&self) -> TermView {
        TermView {
            cols: self.cols as nat,
            rows: self.rows as nat,
            cells: self.grid@.map_values(|row: Vec<char>| row@),
            x: self.cursor_x as nat,
            y: self.cursor_y as nat,
        }
    }
}

fn blank_line(cols: usize) -> (row: Vec<char>)
    ensures
        row@ == blank_row(cols as nat),
{
    let row = vec![' '; cols];
    assert(row@ =~= blank_row(cols as nat));
    row
}

impl TerminalState {
    /// A blank grid of `cols` columns and `rows` rows, the cursor at the
    /// origin.
    pub fn new(cols: u16, rows: u16) -> (s: TerminalState)
        ensures
            s@ == TermView::initial(cols as nat, rows as nat),
            s@.wf(),
    {
        let cols = cols as usize;
        let rows = rows as usize;
        let mut grid: Vec<Vec<char>> = Vec::new();
        let mut i: usize = 0;
        while i < rows
            invariant
                i <= rows,
                grid@.len() == i,
                forall|r: int| 0 <= r < i ==> #[trigger] grid@[r]@ == blank_row(cols as nat),
            decreases rows - i,
        {
            grid.push(blank_line(cols));
            i += 1;
        }
        let s = TerminalState { cols, rows, grid, cursor_x: 0, cursor_y: 0 };
        assert(s@.cells =~= TermView::initial(cols as nat, rows as nat).cells);
        s
    }

    /// The number of columns.
    pub fn cols(&self) -> (c: usize)
        ensures
            c == self@.cols,
    {
        self.cols
    }

    /// The number of rows.
    pub fn rows(&self) -> (r: usize)
        ensures
            r == self@.rows,
    {
        self.rows
    }

    /// The cursor column.
    pub fn cursor_x(&self) -> (x: usize)
        ensures
            x == self@.x,
    {
        self.cursor_x
    }

    /// The cursor row.
    pub fn cursor_y(&self) -> (y: usize)
        ensures
            y == self@.y,
    {
        self.cursor_y
    }

    /// The character at (`row`, `col`).
    pub fn cell(&self, row: usize, col: usize) -> (ch: char)
        requires
            self@.wf(),
            row < self@.rows,
            col < self@.cols,
        ensures
            ch == self@.cells[row as int][col as int],
    {
        assert(self@.cells[row as int].len() == self@.cols);
        self.grid[row][col]
    }

    fn set_cell(&mut self, row: usize, col: usize, ch: char)
        requires
            old(self)@.wf(),
            row < old(self)@.rows,
            col < old(self)@.cols,
        ensures
            final(self)@ == old(self)@.with_cell(row as int, col as int, ch),
    {
        let ghost before = self@;
        assert(self@.cells[row as int].len() == self@.cols);
        let mut line = self.grid[row].clone();
        line.set(col, ch);
        self.grid.set(row, line);
        assert(self@.cells =~= before.with_cell(row as int, col as int, ch).cells);
    }

    fn set_row(&mut self, row: usize, line: Vec<char>)
        requires
            old(self)@.wf(),
            row < old(self)@.rows,
            line@.len() == old(self)@.cols,
        ensures
            final(self)@ == (TermView { cells: old(self)@.cells.update(row as int, line@), ..old(self)@ }),
    {
        let ghost before = self@;
        self.grid.set(row, line);
        assert(self@.cells =~= before.cells.update(row as int, line@));
    }

    /// Writes `ch` under the cursor and moves the cursor right, wrapping to
    /// the next row after the last column.
    pub fn print(&mut self, ch: char)
        requires
            old(self)@.wf(),
        ensures
            final(self)@ == old(self)@.print(ch),
            final(self)@.wf(),
    {
        if self.cols == 0 || self.rows == 0 {
            return;
        }
        if self.cursor_x >= self.cols {
            self.newline();
        }
        if self.cursor_y >= self.rows {
            self.cursor_y = self.rows - 1;
        }
        self.set_cell(self.cursor_y, self.cursor_x, ch);
        self.cursor_x += 1;
        if self.cursor_x >= self.cols {
            self.newline();
        }
    }

    /// Moves the cursor to the start of the next row, scrolling the grid up
    /// by one row when the cursor is on the last row.
    pub fn newline(&mut self)
        requires
            old(self)@.grid_wf(),
            old(self)@.rows > 0,
        ensures
            final(self)@ == old(self)@.newline(),
            final(self)@.wf(),
    {
        self.cursor_x = 0;
        if self.cursor_y + 1 >= self.rows {
            self.scroll_up();
        } else {
            self.cursor_y += 1;
        }
    }

    /// Moves the cursor to the start of its row.
    pub fn carriage_return(&mut self)
        requires
            old(self)@.wf(),
        ensures
            final(self)@ == (TermView { x: 0, ..old(self)@ }),
            final(self)@.wf(),
    {
        self.cursor_x = 0;
    }

    /// Moves the cursor one column left, unless it is in the first column.
    pub fn backspace(&mut self)
        requires
            old(self)@.wf(),
        ensures
            final(self)@ == (if old(self)@.x > 0 {
                TermView { x: (old(self)@.x - 1) as nat, ..old(self)@ }
            } else {
                old(self)@
            }),
            final(self)@.wf(),
    {
        if self.cursor_x > 0 {
            self.cursor_x -= 1;
        }
    }

    /// Prints blanks up to the next tab stop.  The stop must lie inside the
    /// row: from a column nearer the end than that, the blanks wrap to the
    /// next row and the stop is never reached.
    pub fn tab(&mut self)
        requires
            old(self)@.wf(),
            old(self)@.rows > 0,
            old(self)@.next_tab() < old(self)@.cols,
        ensures
            final(self)@ == old(self)@.tab(),
            final(self)@.wf(),
    {
        let ghost start = self@;
        let next_tab = ((self.cursor_x / 8) + 1) * 8;
        while self.cursor_x < next_tab
            invariant
                self@.wf(),
                start.wf(),
                start.rows > 0,
                start.x <= self@.x <= next_tab,
                next_tab == start.next_tab(),
                next_tab < self@.cols,
                self@.cols == start.cols,
                self@.rows == start.rows,
                self@.y == start.y,
                self@.cells.len() == start.cells.len(),
                forall|r: int| 0 <= r < start.rows && r != start.y ==> #[trigger] self@.cells[r] == start.cells[r],
                forall|c: int|
                    0 <= c < start.cols ==> #[trigger] self@.cells[start.y as int][c] == if start.x <= c < self@.x {
                        ' '
                    } else {
                        start.cells[start.y as int][c]
                    },
            decreases next_tab - self.cursor_x,
        {
            self.print(' ');
        }
        assert(self@.cells =~~= start.tab().cells);
    }

    /// Drops the first row and adds a blank row at the bottom.
    pub fn scroll_up(&mut self)
        requires
            old(self)@.wf(),
            old(self)@.rows > 0,
        ensures
            final(self)@ == old(self)@.scrolled(),
            final(self)@.wf(),
    {
        let ghost before = self@;
        self.grid.remove(0);
        self.grid.push(blank_line(self.cols));
        assert(self@.cells =~= before.scrolled().cells);
    }

    /// Moves the cursor to (`row`, `col`), clamped to the last row and column.
    pub fn move_cursor(&mut self, row: usize, col: usize)
        requires
            old(self)@.wf(),
        ensures
            final(self)@ == old(self)@.moved(row as nat, col as nat),
            final(self)@.wf(),
    {
        self.cursor_y = if row < self.rows.saturating_sub(1) { row } else { self.rows.saturating_sub(1) };
        self.cursor_x = if col < self.cols.saturating_sub(1) { col } else { self.cols.saturating_sub(1) };
    }

    /// Blanks every cell and moves the cursor to the origin.
    pub fn clear_screen(&mut self)
        requires
            old(self)@.wf(),
        ensures
            final(self)@ == old(self)@.cleared(),
            final(self)@.wf(),
    {
        let ghost before = self@;
        let mut r: usize = 0;
        while r < self.rows
            invariant
                self@.wf(),
                self@.cols == before.cols,
                self@.rows == before.rows,
                self@.x == before.x,
                self@.y == before.y,
                r <= self@.rows,
                forall|i: int| 0 <= i < r ==> #[trigger] self@.cells[i] == blank_row(before.cols),
                forall|i: int| r <= i < self@.rows ==> #[trigger] self@.cells[i] == before.cells[i],
            decreases self@.rows - r,
        {
            self.set_row(r, blank_line(self.cols));
            r += 1;
        }
        self.move_cursor(0, 0);
        assert(self@.cells =~= before.cleared().cells);
    }

    /// Erases part of the screen: `mode` 0 from the cursor to the end, 1
    /// from the start to the cursor, 2 all of it.
    pub fn erase_display(&mut self, mode: usize)
        requires
            old(self)@.wf(),
            mode <= 1 ==> old(self)@.can_erase_line(mode as nat),
        ensures
            final(self)@ == old(self)@.erase_display(mode as nat),
            final(self)@.wf(),
    {
        let ghost before = self@;
        if mode == 0 {
            self.erase_line_from_cursor(0);
            let ghost mid = self@;
            let mut row = self.cursor_y + 1;
            while row < self.rows
                invariant
                    self@.wf(),
                    mid.wf(),
                    self@.cols == mid.cols,
                    self@.rows == mid.rows,
                    self@.x == mid.x,
                    self@.y == mid.y,
                    mid.y + 1 <= row,
                    row <= self@.rows || mid.y + 1 == row,
                    forall|i: int|
                        0 <= i < mid.rows ==> #[trigger] self@.cells[i] == if mid.y < i < row {
                            blank_row(mid.cols)
                        } else {
                            mid.cells[i]
                        },
                decreases self@.rows - row,
            {
                self.set_row(row, blank_line(self.cols));
                row += 1;
            }
            assert(self@.cells =~= before.erase_display(0).cells);
        } else if mode == 1 {
            self.erase_line_from_cursor(1);
            let ghost mid = self@;
            let mut row: usize = 0;
            while row < self.cursor_y
                invariant
                    self@.wf(),
                    mid.wf(),
                    self@.cols == mid.cols,
                    self@.rows == mid.rows,
                    self@.x == mid.x,
                    self@.y == mid.y,
                    row <= mid.y,
                    forall|i: int|
                        0 <= i < mid.rows ==> #[trigger] self@.cells[i] == if i < row {
                            blank_row(mid.cols)
                        } else {
                            mid.cells[i]
                        },
                decreases self@.y - row,
            {
                self.set_row(row, blank_line(self.cols));
                row += 1;
            }
            assert(self@.cells =~= before.erase_display(1).cells);
        } else if mode == 2 {
            self.clear_screen();
        }
    }

    /// Erases part of the cursor row: `mode` 0 from the cursor to the end,
    /// 1 from the start to the cursor, 2 all of it.
    pub fn erase_line_from_cursor(&mut self, mode: usize)
        requires
            old(self)@.wf(),
            old(self)@.can_erase_line(mode as nat),
        ensures
            final(self)@ == old(self)@.erase_line(mode as nat),
            final(self)@.wf(),
    {
        let ghost before = self@;
        if mode == 0 {
            let mut col = self.cursor_x;
            while col < self.cols
                invariant
                    self@.wf(),
                    self@.cols == before.cols,
                    self@.rows == before.rows,
                    self@.x == before.x,
                    self@.y == before.y,
                    before.wf(),
                    before.cols > 0 ==> before.rows > 0,
                    before.x <= col,
                    col <= self@.cols || before.cols == 0,
                    forall|r: int| 0 <= r < before.rows && r != before.y ==> #[trigger] self@.cells[r] == before.cells[r],
                    before.rows > 0 ==> forall|c: int|
                        0 <= c < before.cols ==> #[trigger] self@.cells[before.y as int][c] == if before.x <= c < col {
                            ' '
                        } else {
                            before.cells[before.y as int][c]
                        },
                decreases self@.cols - col,
            {
                self.set_cell(self.cursor_y, col, ' ');
                col += 1;
            }
            assert(self@.cells =~~= before.erase_line(0).cells);
        } else if mode == 1 {
            let last = if self.cursor_x < self.cols.saturating_sub(1) { self.cursor_x } else { self.cols.saturating_sub(1) };
            let mut col: usize = 0;
            while col <= last
                invariant
                    self@.wf(),
                    self@.cols == before.cols,
                    self@.rows == before.rows,
                    self@.x == before.x,
                    self@.y == before.y,
                    before.wf(),
                    before.rows > 0,
                    last == before.x,
                    last < before.cols,
                    col <= last + 1,
                    forall|r: int| 0 <= r < before.rows && r != before.y ==> #[trigger] self@.cells[r] == before.cells[r],
                    forall|c: int|
                        0 <= c < before.cols ==> #[trigger] self@.cells[before.y as int][c] == if c < col {
                            ' '
                        } else {
                            before.cells[before.y as int][c]
                        },
                decreases last + 1 - col,
            {
                self.set_cell(self.cursor_y, col, ' ');
                col += 1;
            }
            assert(self@.cells =~~= before.erase_line(1).cells);
        } else if mode == 2 {
            self.set_row(self.cursor_y, blank_line(self.cols));
            assert(self@.cells =~~= before.erase_line(2).cells);
        }
    }
    /// The grid as text, rows separated by newlines.
    pub fn to_multiline_string(&self) -> (text: String)
        requires
            self@.wf(),
        ensures
            text@ == self@.text(),
    {
        let mut output = String::new();
        let mut row_idx: usize = 0;
        while row_idx < self.rows
            invariant
                self@.wf(),
                row_idx <= self.rows,
                output@ == join_rows(self@.cells.take(row_idx as int)) + (if 0 < row_idx < self.rows { seq!['\n'] } else { Seq::empty() }),
            decreases self.rows - row_idx,
        {
            let ghost before = output@;
            assert(self@.cells[row_idx as int] == self.grid@[row_idx as int]@);
            let row = &self.grid[row_idx];
            let mut c: usize = 0;
            while c < row.len()
                invariant
                    c <= row@.len(),
                    output@ == before + row@.take(c as int),
                decreases row@.len() - c,
            {
                string_push(&mut output, row[c]);
                assert(row@.take(c as int + 1) =~= row@.take(c as int).push(row@[c as int]));
                c += 1;
            }
            assert(row@.take(c as int) =~= row@);
            proof {
                let t = self@.cells.take(row_idx as int + 1);
                assert(t.drop_last() =~= self@.cells.take(row_idx as int));
                assert(t.last() == row@);
                if row_idx == 0 {
                    assert(t =~= seq![row@]);
                }
            }
            if row_idx + 1 != self.rows {
                string_push(&mut output, '\n');
            }
            row_idx += 1;
        }
        assert(self@.cells.take(self.rows as int) =~= self@.cells);
        output
    }

    /// Runs a control character: newline, carriage return, tab or
    /// backspace.
    pub fn execute(&mut self, byte: u8)
        requires
            old(self)@.wf(),
            old(self)@.can_execute(byte),
        ensures
            final(self)@ == old(self)@.execute(byte),
            final(self)@.wf(),
    {
        match byte {
            0x0a => self.newline(),
            0x0d => self.carriage_return(),
            0x09 => self.tab(),
            0x08 => self.backspace(),
            _ => {},
        }
    }

    /// Runs a CSI sequence whose parameter groups are `params` and whose
    /// final character is `action`.
    pub fn csi_dispatch(&mut self, params: &Vec<Vec<u16>>, action: char)
        requires
            old(self)@.wf(),
            old(self)@.can_csi(
                csi_p0(params@.map_values(|g: Vec<u16>| g@)),
                action,
            ),
        ensures
            final(self)@ == old(self)@.csi(
                csi_p0(params@.map_values(|g: Vec<u16>| g@)),
                csi_p1(params@.map_values(|g: Vec<u16>| g@)),
                action,
            ),
            final(self)@.wf(),
    {
        let p0 = match param(params, 0) { Some(v) => v, None => 0 };
        let p1 = match param(params, 1) { Some(v) => v, None => 1 };
        match action {
            'A' => {
                let amount = if p0 > 1 { p0 } else { 1 };
                let row = self.cursor_y.saturating_sub(amount);
                self.move_cursor(row, self.cursor_x);
            },
            'B' => {
                let amount = if p0 > 1 { p0 } else { 1 };
                self.move_cursor(self.cursor_y + amount, self.cursor_x);
            },
            'C' => {
                let amount = if p0 > 1 { p0 } else { 1 };
                self.move_cursor(self.cursor_y, self.cursor_x + amount);
            },
            'D' => {
                let amount = if p0 > 1 { p0 } else { 1 };
                let col = self.cursor_x.saturating_sub(amount);
                self.move_cursor(self.cursor_y, col);
            },
            'H' | 'f' => {
                let row = (if p0 > 1 { p0 } else { 1 }) - 1;
                let col = (if p1 > 1 { p1 } else { 1 }) - 1;
                self.move_cursor(row, col);
            },
            'J' => self.erase_display(p0),
            'K' => self.erase_line_from_cursor(p0),
            _ => {},
        }
    }
    /// Whether `execute(byte)` can run on this grid (see `TermView::can_execute`).
    pub fn can_execute(&self, byte: u8) -> (ok: bool)
        requires
            self@.wf(),
        ensures
            ok == self@.can_execute(byte),
    {
        if byte == 0x0a {
            self.rows > 0
        } else if byte == 0x09 {
            self.rows > 0 && (self.cursor_x / 8 + 1) * 8 < self.cols
        } else {
            true
        }
    }

    /// Whether `csi_dispatch(params, action)` can run on this grid (see
    /// `TermView::can_csi`).
    pub fn can_csi(&self, params: &Vec<Vec<u16>>, action: char) -> (ok: bool)
        requires
            self@.wf(),
        ensures
            ok == self@.can_csi(
                csi_p0(params@.map_values(|g: Vec<u16>| g@)),
                action,
            ),
    {
        let p0 = match param(params, 0) { Some(v) => v, None => 0 };
        let line_ok = if p0 == 0 {
            self.cols == 0 || self.rows > 0
        } else if p0 == 1 {
            self.cols > 0 && self.rows > 0
        } else if p0 == 2 {
            self.rows > 0
        } else {
            true
        };
        if action == 'J' && p0 <= 1 {
            line_ok
        } else if action == 'K' {
            line_ok
        } else {
            true
        }
    }

    /// The cursor position on a grid of `cols` by `rows` cells: the cursor
    /// column and row, each cut to the last one of that grid.
    pub fn cursor_in_grid(&self, cols: u16, rows: u16) -> (pos: (u16, u16))
        requires
            self@.wf(),
        ensures
            pos.0 == TermView::clamp(self@.x, cols as nat),
            pos.1 == TermView::clamp(self@.y, rows as nat),
    {
        let last_col = cols.saturating_sub(1) as usize;
        let last_row = rows.saturating_sub(1) as usize;
        let x = if self.cursor_x < last_col { self.cursor_x } else { last_col };
        let y = if self.cursor_y < last_row { self.cursor_y } else { last_row };
        (x as u16, y as u16)
    }
}

/// Rows of `cols` characters joined by newlines: `n` rows take
/// `n * (cols + 1) - 1` characters.
proof fn lemma_join_rows_len(rows: Seq<Seq<char>>, cols: nat)
    requires
        rows.len() > 0,
        forall|r: int| 0 <= r < rows.len() ==> #[trigger] rows[r].len() == cols,
    ensures
        join_rows(rows).len() == rows.len() * (cols + 1) - 1,
    decreases rows.len(),
{
    if rows.len() > 1 {
        lemma_join_rows_len(rows.drop_last(), cols);
        assert(rows.len() * (cols + 1) == (rows.len() - 1) * (cols + 1) + cols + 1) by (nonlinear_arith);
    }
}

/// The text of a grid holds every row and a newline between rows: it has
/// `rows * (cols + 1) - 1` characters.
pub proof fn lemma_text_len(v: TermView)
    requires
        v.wf(),
        v.rows > 0,
    ensures
        v.text().len() == v.rows * (v.cols + 1) - 1,
{
    lemma_join_rows_len(v.cells, v.cols);
}

/// Printing before the last column writes the character under the cursor,
/// moves the cursor one column right, and changes no other cell.
pub proof fn lemma_print_writes(v: TermView, ch: char)
    requires
        v.wf(),
        v.rows > 0,
        v.x + 1 < v.cols,
    ensures
        v.print(ch).cells[v.y as int][v.x as int] == ch,
        v.print(ch).x == v.x + 1,
        v.print(ch).y == v.y,
        forall|r: int, c: int|
            0 <= r < v.rows && 0 <= c < v.cols && (r != v.y || c != v.x) ==> #[trigger] v.print(ch).cells[r][c] == v.cells[r][c],
{
}

/// Printing in the last column wraps: the cursor goes to the first column
/// of the next row, and on the last row the grid scrolls up so that the
/// character just printed ends up on the row above the cursor.
pub proof fn lemma_print_wraps(v: TermView, ch: char)
    requires
        v.wf(),
        v.rows > 1,
        v.x + 1 == v.cols,
    ensures
        v.print(ch).x == 0,
        v.y + 1 < v.rows ==> v.print(ch).y == v.y + 1 && v.print(ch).cells[v.y as int][v.x as int] == ch,
        v.y + 1 == v.rows ==> v.print(ch).y == v.y && v.print(ch).cells[v.y - 1][v.x as int] == ch
            && v.print(ch).cells[v.y as int] == blank_row(v.cols),
{
}

/// A tab ends on the next tab stop: a multiple of eight, after the cursor
/// and at most eight columns to its right.
pub proof fn lemma_tab_stop(v: TermView)
    requires
        v.wf(),
        v.rows > 0,
        v.next_tab() < v.cols,
    ensures
        v.tab().x % 8 == 0,
        v.x < v.tab().x <= v.x + 8,
        v.tab().wf(),
{
    assert forall|r: int| 0 <= r < v.rows implies #[trigger] v.tab().cells[r].len() == v.cols by {}
}

/// Erasing the whole display leaves a blank grid of the same size with the
/// cursor at the origin, whatever the grid held.
pub proof fn lemma_erase_all_blank(v: TermView)
    requires
        v.wf(),
    ensures
        v.erase_display(2).wf(),
        v.erase_display(2).x == 0 && v.erase_display(2).y == 0,
        forall|r: int, c: int| 0 <= r < v.rows && 0 <= c < v.cols ==> #[trigger] v.erase_display(2).cells[r][c] == ' ',
{
}

/// Scrolling moves every row up by one and adds a blank row at the
/// bottom; the cursor stays.
pub proof fn lemma_scroll_shifts(v: TermView)
    requires
        v.wf(),
        v.rows > 0,
    ensures
        forall|r: int| 0 <= r < v.rows - 1 ==> #[trigger] v.scrolled().cells[r] == v.cells[r + 1],
        v.scrolled().cells[v.rows - 1] == blank_row(v.cols),
        v.scrolled().wf(),
{
    assert forall|r: int| 0 <= r < v.rows implies #[trigger] v.scrolled().cells[r].len() == v.cols by {}
}

/// A cursor position sequence (CSI row;col H) moves the cursor to the
/// 1-based row and column given, clamped to the grid.
pub proof fn lemma_cursor_position(v: TermView, row: nat, col: nat)
    requires
        v.wf(),
        1 <= row <= v.rows,
        1 <= col <= v.cols,
    ensures
        v.csi(row, col, 'H').y == row - 1,
        v.csi(row, col, 'H').x == col - 1,
        v.csi(row, col, 'H').cells == v.cells,
{
}

/// A CSI parameter that is given reads as the first value of its group; a
/// missing first parameter reads as 0 and a missing second one as 1.
pub proof fn lemma_csi_params(params: Seq<Seq<u16>>)
    ensures
        params.len() >= 1 && params[0].len() >= 1 ==> csi_p0(params) == params[0][0],
        params.len() == 0 || params[0].len() == 0 ==> csi_p0(params) == 0,
        params.len() >= 2 && params[1].len() >= 1 ==> csi_p1(params) == params[1][0],
        params.len() <= 1 || params[1].len() == 0 ==> csi_p1(params) == 1,
{
}

/// The cursor sequences of CSI move the cursor and change nothing else:
/// up (A), down (B), forward (C) and back (D) by the first parameter, or
/// by one when it is 0, stopping at the edges of the grid; cursor position
/// (H or f) to the 1-based row and column of the two parameters (0 read
/// as 1), clamped to the grid.
pub proof fn lemma_csi_cursor_moves(v: TermView, p0: nat, p1: nat)
    requires
        v.wf(),
        v.cols > 0,
        v.rows > 0,
    ensures
        forall|a: char|
            a == 'A' || a == 'B' || a == 'C' || a == 'D' || a == 'H' || a == 'f' ==> {
                &&& #[trigger] v.csi(p0, p1, a).cells == v.cells
                &&& v.csi(p0, p1, a).cols == v.cols
                &&& v.csi(p0, p1, a).rows == v.rows
                &&& v.csi(p0, p1, a).wf()
            },
        ({
            let n: int = if p0 == 0 { 1 } else { p0 as int };
            let last_row: int = v.rows - 1;
            let last_col: int = v.cols - 1;
            &&& v.csi(p0, p1, 'A').x == v.x
            &&& v.csi(p0, p1, 'A').y == if v.y - n < 0 { 0 } else { v.y - n }
            &&& v.csi(p0, p1, 'B').x == v.x
            &&& v.csi(p0, p1, 'B').y == if v.y + n > last_row { last_row } else { v.y + n }
            &&& v.csi(p0, p1, 'C').y == v.y
            &&& v.csi(p0, p1, 'C').x == if v.x + n > last_col { last_col } else { v.x + n }
            &&& v.csi(p0, p1, 'D').y == v.y
            &&& v.csi(p0, p1, 'D').x == if v.x - n < 0 { 0 } else { v.x - n }
        }),
        ({
            let row: int = if p0 == 0 { 0 } else { p0 - 1 };
            let col: int = if p1 == 0 { 0 } else { p1 - 1 };
            &&& v.csi(p0, p1, 'H').y == if row > v.rows - 1 { v.rows - 1 } else { row }
            &&& v.csi(p0, p1, 'H').x == if col > v.cols - 1 { v.cols - 1 } else { col }
            &&& v.csi(p0, p1, 'f') == v.csi(p0, p1, 'H')
        }),
{
    assert forall|a: char|
        a == 'A' || a == 'B' || a == 'C' || a == 'D' || a == 'H' || a == 'f' implies {
            &&& #[trigger] v.csi(p0, p1, a).cells == v.cells
            &&& v.csi(p0, p1, a).cols == v.cols
            &&& v.csi(p0, p1, a).rows == v.rows
            &&& v.csi(p0, p1, a).wf()
        } by {
        assert forall|r: int| 0 <= r < v.rows implies #[trigger] v.csi(p0, p1, a).cells[r].len() == v.cols by {}
    }
}

/// The control characters: carriage return sends the cursor to the first
/// column, backspace moves it one column left (not past the first), and a
/// newline moves it to the first column of the next row, scrolling the
/// grid up by one row on the last row; none of them changes the size.
pub proof fn lemma_control_characters(v: TermView)
    requires
        v.wf(),
        v.rows > 0,
    ensures
        v.execute(0x0d) == (TermView { x: 0, ..v }),
        v.execute(0x08) == (TermView { x: if v.x == 0 { 0 } else { (v.x - 1) as nat }, ..v }),
        v.execute(0x0a).x == 0,
        v.y + 1 < v.rows ==> v.execute(0x0a) == (TermView { x: 0, y: v.y + 1, ..v }),
        v.y + 1 == v.rows ==> v.execute(0x0a).y == v.y
            && (forall|r: int| 0 <= r < v.rows - 1 ==> #[trigger] v.execute(0x0a).cells[r] == v.cells[r + 1])
            && (forall|c: int| 0 <= c < v.cols ==> #[trigger] v.execute(0x0a).cells[v.rows - 1][c] == ' '),
        v.execute(0x0a).cols == v.cols && v.execute(0x0a).rows == v.rows,
{
}

/// Erase in line (CSI K) and erase in display (CSI J) blank exactly the
/// cells their mode names: mode 0 from the cursor to the end of the row
/// (or of the screen), mode 1 from the start of the row (or of the screen)
/// to the cursor, both included, mode 2 the whole row (or screen); other
/// modes change nothing.  The cursor stays, but erasing the whole screen
/// sends it home.
pub proof fn lemma_csi_erase(v: TermView, p1: nat, r: int, c: int)
    requires
        v.wf(),
        v.rows > 0,
        v.cols > 0,
        0 <= r < v.rows,
        0 <= c < v.cols,
    ensures
        v.csi(0, p1, 'K').cells[r][c] == if r == v.y && c >= v.x { ' ' } else { v.cells[r][c] },
        v.csi(1, p1, 'K').cells[r][c] == if r == v.y && c <= v.x { ' ' } else { v.cells[r][c] },
        v.csi(2, p1, 'K').cells[r][c] == if r == v.y { ' ' } else { v.cells[r][c] },
        v.csi(0, p1, 'J').cells[r][c] == if r > v.y || (r == v.y && c >= v.x) { ' ' } else { v.cells[r][c] },
        v.csi(1, p1, 'J').cells[r][c] == if r < v.y || (r == v.y && c <= v.x) { ' ' } else { v.cells[r][c] },
        v.csi(2, p1, 'J').cells[r][c] == ' ',
        v.csi(3, p1, 'K') == v,
        v.csi(3, p1, 'J') == v,
        forall|m: nat, a: char| m <= 2 && (a == 'K' || (a == 'J' && m <= 1)) ==> #[trigger] v.csi(m, p1, a).x == v.x
            && v.csi(m, p1, a).y == v.y && v.csi(m, p1, a).wf(),
        v.csi(2, p1, 'J').x == 0 && v.csi(2, p1, 'J').y == 0,
{
    assert forall|m: nat, a: char| m <= 2 && (a == 'K' || (a == 'J' && m <= 1)) implies #[trigger] v.csi(m, p1, a).x == v.x
        && v.csi(m, p1, a).y == v.y && v.csi(m, p1, a).wf() by {
        assert forall|rr: int| 0 <= rr < v.rows implies #[trigger] v.csi(m, p1, a).cells[rr].len() == v.cols by {}
    }
}

/// A tab blanks the cells of the cursor row from the cursor up to (not
/// including) the tab stop it moves to, and changes no other cell.
pub proof fn lemma_tab_blanks(v: TermView, r: int, c: int)
    requires
        v.wf(),
        v.rows > 0,
        v.next_tab() < v.cols,
        0 <= r < v.rows,
        0 <= c < v.cols,
    ensures
        v.execute(0x09).y == v.y,
        v.execute(0x09).cells[r][c] == if r == v.y && v.x <= c < v.execute(0x09).x { ' ' } else { v.cells[r][c] },
{
}

} // verus!
