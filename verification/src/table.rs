//! The older, search-free grid type: nine cells and a current player, with
//! pattern detection only — no draw analysis and no move search.

use vstd::prelude::*;
use vstd::string::StringExecFns;

verus! {

/// Cell content: empty, or one of the two marks.
#[derive(Debug, Clone, Copy, PartialEq, Eq, Structural)]
pub enum ElementShape {
    Empty,
    X,
    O,
}

/// The mark the other player uses; `Empty` has no opposite and is returned
/// unchanged.
pub open spec fn opposite_of(m: ElementShape) -> ElementShape {
    match m {
        ElementShape::Empty => ElementShape::Empty,
        ElementShape::X => ElementShape::O,
        ElementShape::O => ElementShape::X,
    }
}

/// A mark that an actual player holds, as opposed to `Empty`.
pub open spec fn is_player(m: ElementShape) -> bool {
    m == ElementShape::X || m == ElementShape::O
}

impl ElementShape {
    /// The text a mark is printed as.
    pub open spec fn value_spec(self) -> Seq<char> {
        match self {
            ElementShape::X => "X"@,
            ElementShape::O => "O"@,
            ElementShape::Empty => ""@,
        }
    }

    fn value(&self) -> (r: &'static str)
        ensures
            r@ == self.value_spec(),
    {
        match self {
            ElementShape::X => "X",
            ElementShape::O => "O",
            ElementShape::Empty => "",
        }
    }
}

/// The three cells `a`, `b`, `c` hold the same real mark.
pub open spec fn line_wins(cells: Seq<ElementShape>, a: int, b: int, c: int) -> bool {
    cells[a] != ElementShape::Empty && cells[b] == cells[a] && cells[c] == cells[a]
}

/// The first of the eight three-in-a-row patterns — rows, then columns, then
/// diagonals — that one mark occupies completely, or `None`.
pub open spec fn pattern_winner(cells: Seq<ElementShape>) -> Option<ElementShape> {
    if line_wins(cells, 0, 1, 2) {
        Some(cells[0])
    } else if line_wins(cells, 3, 4, 5) {
        Some(cells[3])
    } else if line_wins(cells, 6, 7, 8) {
        Some(cells[6])
    } else if line_wins(cells, 0, 3, 6) {
        Some(cells[0])
    } else if line_wins(cells, 1, 4, 7) {
        Some(cells[1])
    } else if line_wins(cells, 2, 5, 8) {
        Some(cells[2])
    } else if line_wins(cells, 0, 4, 8) {
        Some(cells[0])
    } else if line_wins(cells, 2, 4, 6) {
        Some(cells[2])
    } else {
        None
    }
}

/// The text an empty cell is printed as: its index in brackets.
pub open spec fn empty_cell_text(i: int) -> Seq<char> {
    if i == 0 {
        "[0]"@
    } else if i == 1 {
        "[1]"@
    } else if i == 2 {
        "[2]"@
    } else if i == 3 {
        "[3]"@
    } else if i == 4 {
        "[4]"@
    } else if i == 5 {
        "[5]"@
    } else if i == 6 {
        "[6]"@
    } else if i == 7 {
        "[7]"@
    } else {
        "[8]"@
    }
}

/// The three characters a cell is printed as.
pub open spec fn cell_text(cells: Seq<ElementShape>, i: int) -> Seq<char> {
    match cells[i] {
        ElementShape::Empty => empty_cell_text(i),
        ElementShape::X => " X "@,
        ElementShape::O => " O "@,
    }
}

/// The printed grid: nine cells in row-major order, a newline after each row.
pub open spec fn grid_text(cells: Seq<ElementShape>) -> Seq<char> {
    cell_text(cells, 0) + cell_text(cells, 1) + cell_text(cells, 2) + "\n"@ + cell_text(cells, 3)
        + cell_text(cells, 4) + cell_text(cells, 5) + "\n"@ + cell_text(cells, 6) + cell_text(
        cells,
        7,
    ) + cell_text(cells, 8) + "\n"@
}

/// The mathematical content of a `Table`: the nine cells and the mark to
/// move next.
#[verifier::ext_equal]
pub ghost struct TableView {
    pub cells: Seq<ElementShape>,
    pub player: ElementShape,
}

/// The invariant every reachable `Table` satisfies.
pub open spec fn table_wf(v: TableView) -> bool {
    v.cells.len() == 9 && is_player(v.player)
}

/// The grid: nine cells in row-major order and the player to move.
#[derive(Debug, Clone, Copy)]
pub struct Table {
    elements: [ElementShape; 9],
    cur_player: ElementShape,
}

impl View for Table {
    type V = TableView;

    closed spec fn view(&self) -> TableView {
        TableView { cells: self.elements@, player: self.cur_player }
    }
}

impl Table {
    pub fn new() -> (r: Table)
        ensures
            table_wf(r@),
            r@.player == ElementShape::X,
            forall|i: int| 0 <= i < 9 ==> r@.cells[i] == ElementShape::Empty,
    {
        Table { elements: [ElementShape::Empty; 9], cur_player: ElementShape::X }
    }

    fn cell_str(&self, i: usize) -> (r: &'static str)
        requires
            i < 9,
        ensures
            r@ == cell_text(self@.cells, i as int),
    {
        match self.elements[i] {
            ElementShape::X => " X ",
            ElementShape::O => " O ",
            ElementShape::Empty => match i {
                0 => "[0]",
                1 => "[1]",
                2 => "[2]",
                3 => "[3]",
                4 => "[4]",
                5 => "[5]",
                6 => "[6]",
                7 => "[7]",
                _ => "[8]",
            },
        }
    }

    /// The grid rendered as three lines of three cells: an empty cell shows
    /// its index in brackets, a taken cell its mark between spaces.
    pub fn state_str(&self) -> (r: String)
        ensures
            r@ == grid_text(self@.cells),
    {
        let mut state = String::new();
        state.append(self.cell_str(0));
        state.append(self.cell_str(1));
        state.append(self.cell_str(2));
        state.append("\n");
        state.append(self.cell_str(3));
        state.append(self.cell_str(4));
        state.append(self.cell_str(5));
        state.append("\n");
        state.append(self.cell_str(6));
        state.append(self.cell_str(7));
        state.append(self.cell_str(8));
        state.append("\n");
        proof {
            assert(state@ =~= grid_text(self@.cells));
        }
        state
    }

    /// True iff no cell is empty any more.
    pub fn is_full(&self) -> (r: bool)
        ensures
            r == (forall|i: int| 0 <= i < 9 ==> self@.cells[i] != ElementShape::Empty),
    {
        let mut i: usize = 0;
        let mut full = true;
        while i < 9
            invariant
                i <= 9,
                full == (forall|j: int| 0 <= j < i ==> self@.cells[j] != ElementShape::Empty),
            decreases 9 - i,
        {
            if self.elements[i] == ElementShape::Empty {
                full = false;
            }
            i = i + 1;
        }
        full
    }

    /// Marks cell `index` for the current player and hands the turn to the
    /// other player; rejects a cell already taken, leaving the grid
    /// unchanged.
    pub fn set_element(&mut self, index: usize) -> (r: Result<(), ()>)
        requires
            table_wf(old(self)@),
            index < 9,
        ensures
            table_wf(final(self)@),
            old(self)@.cells[index as int] != ElementShape::Empty ==> r == Err::<(), ()>(())
                && *final(self) == *old(self),
            old(self)@.cells[index as int] == ElementShape::Empty ==> r == Ok::<(), ()>(())
                && final(self)@.cells == old(self)@.cells.update(index as int, old(self)@.player)
                && final(self)@.player == opposite_of(old(self)@.player),
    {
        if self.elements[index] != ElementShape::Empty {
            return Err(());
        }
        let mover = self.cur_player;
        self.elements[index] = mover;
        self.switch_player();
        Ok(())
    }

    fn switch_player(&mut self)
        ensures
            final(self).elements == old(self).elements,
            final(self).cur_player == opposite_of(old(self).cur_player),
    {
        match self.cur_player {
            ElementShape::X => self.cur_player = ElementShape::O,
            ElementShape::O => self.cur_player = ElementShape::X,
            _ => {},
        }
    }

    /// The text of the mark of the first complete three-in-a-row pattern, or
    /// `None` if no pattern is complete.
    pub fn get_winner(&self) -> (r: Option<String>)
        ensures
            (match (r, pattern_winner(self@.cells)) {
                (Some(s), Some(m)) => s@ == m.value_spec(),
                (None, None) => true,
                _ => false,
            }),
    {
        let e = &self.elements;
        let first: ElementShape = if e[0] != ElementShape::Empty && e[1] == e[0] && e[2] == e[0] {
            e[0]
        } else if e[3] != ElementShape::Empty && e[4] == e[3] && e[5] == e[3] {
            e[3]
        } else if e[6] != ElementShape::Empty && e[7] == e[6] && e[8] == e[6] {
            e[6]
        } else if e[0] != ElementShape::Empty && e[3] == e[0] && e[6] == e[0] {
            e[0]
        } else if e[1] != ElementShape::Empty && e[4] == e[1] && e[7] == e[1] {
            e[1]
        } else if e[2] != ElementShape::Empty && e[5] == e[2] && e[8] == e[2] {
            e[2]
        } else if e[0] != ElementShape::Empty && e[4] == e[0] && e[8] == e[0] {
            e[0]
        } else if e[2] != ElementShape::Empty && e[4] == e[2] && e[6] == e[2] {
            e[2]
        } else {
            ElementShape::Empty
        };
        match first {
            ElementShape::Empty => None,
            _ => Some(String::from_str(first.value())),
        }
    }
}

} // verus!
