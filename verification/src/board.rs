//! Game state and exhaustive outcome search for the 3x3 grid game.

use vstd::prelude::*;
use vstd::string::StringExecFns;

verus! {

/// One three-valued enumeration deliberately used in two roles: the content of
/// a cell (`Empty` / `X` / `O`) and the verdict of a position, where `Empty`
/// stands for "drawn" and a mark stands for "that mark wins".
#[derive(Debug, Clone, Copy, PartialEq, Eq, Structural)]
pub enum ElementShape {
    Empty,
    X,
    O,
}

/// The mark the other player uses; `Empty` has no opposite and is returned
/// unchanged.
pub open spec fn opposite_of(m: ElementShape) -> ElementShape {
    match m {
        ElementShape::Empty => ElementShape::Empty,
        ElementShape::X => ElementShape::O,
        ElementShape::O => ElementShape::X,
    }
}

/// A mark that an actual player holds, as opposed to `Empty`.
pub open spec fn is_player(m: ElementShape) -> bool {
    m == ElementShape::X || m == ElementShape::O
}

impl ElementShape {
    /// The text a mark is printed as.
    pub open spec fn value_spec(self) -> Seq<char> {
        match self {
            ElementShape::X => "X"@,
            ElementShape::O => "O"@,
            ElementShape::Empty => ""@,
        }
    }

    pub fn value(&self) -> (r: &'static str)
        ensures
            r@ == self.value_spec(),
    {
        match self {
            ElementShape::X => "X",
            ElementShape::O => "O",
            ElementShape::Empty => "",
        }
    }

    pub fn opposite(&self) -> (r: Self)
        ensures
            r == opposite_of(*self),
    {
        match self {
            ElementShape::Empty => ElementShape::Empty,
            ElementShape::X => ElementShape::O,
            ElementShape::O => ElementShape::X,
        }
    }
}

impl Default for ElementShape {
    fn default() -> (r: Self)
        ensures
            r == ElementShape::Empty,
    {
        ElementShape::Empty
    }
}

/// Why a move was rejected: the index was outside `0..=8`, or the target cell
/// already holds a mark.  A rejected move leaves the board unchanged.
#[derive(Debug, Clone, Copy, PartialEq, Eq, Structural)]
pub enum MoveError {
    OutOfRange,
    CellOccupied,
}

/// The mathematical content of a `Board`: the nine cells in row-major order,
/// the mark to move next, and the one-based ply counter.
#[verifier::ext_equal]
pub ghost struct BoardView {
    pub cells: Seq<ElementShape>,
    pub player: ElementShape,
    pub turn: int,
}

/// How many of the first `n` cells hold the mark `m`.
pub open spec fn mark_count_to(cells: Seq<ElementShape>, m: ElementShape, n: int) -> int
    decreases n,
{
    if n <= 0 {
        0
    } else {
        mark_count_to(cells, m, n - 1) + if cells[n - 1] == m {
            1int
        } else {
            0int
        }
    }
}

/// How many of the nine cells hold the mark `m`.
pub open spec fn mark_count(cells: Seq<ElementShape>, m: ElementShape) -> int {
    mark_count_to(cells, m, 9)
}

/// How many cells are still empty.
pub open spec fn empty_count(cells: Seq<ElementShape>) -> int {
    mark_count(cells, ElementShape::Empty)
}

/// How many cells hold either player's mark.
pub open spec fn occupied_count(cells: Seq<ElementShape>) -> int {
    mark_count(cells, ElementShape::X) + mark_count(cells, ElementShape::O)
}

proof fn lemma_mark_count_to_bounds(cells: Seq<ElementShape>, m: ElementShape, n: int)
    requires
        0 <= n,
    ensures
        0 <= mark_count_to(cells, m, n) <= n,
    decreases n,
{
    if n > 0 {
        lemma_mark_count_to_bounds(cells, m, n - 1);
    }
}

/// Every cell holds exactly one of the three values, so the three counts of a
/// prefix add up to its length.
proof fn lemma_mark_count_to_partition(cells: Seq<ElementShape>, n: int)
    requires
        0 <= n,
    ensures
        mark_count_to(cells, ElementShape::Empty, n) + mark_count_to(cells, ElementShape::X, n)
            + mark_count_to(cells, ElementShape::O, n) == n,
    decreases n,
{
    if n > 0 {
        lemma_mark_count_to_partition(cells, n - 1);
    }
}

/// Writing cell `i` changes a count that covers `i` by exactly the difference
/// of the indicators of the old and new values.
proof fn lemma_mark_count_to_update(
    cells: Seq<ElementShape>,
    m: ElementShape,
    i: int,
    v: ElementShape,
    n: int,
)
    requires
        0 <= i < cells.len(),
        n <= cells.len(),
    ensures
        i < n ==> mark_count_to(cells.update(i, v), m, n) == mark_count_to(cells, m, n) + (
        if v == m {
            1int
        } else {
            0int
        }) - (
        if cells[i] == m {
            1int
        } else {
            0int
        }),
        i >= n ==> mark_count_to(cells.update(i, v), m, n) == mark_count_to(cells, m, n),
    decreases n,
{
    if n > 0 {
        lemma_mark_count_to_update(cells, m, i, v, n - 1);
    }
}

/// A cell that holds `m` contributes to every count that covers it.
proof fn lemma_mark_count_to_at_least_one(
    cells: Seq<ElementShape>,
    m: ElementShape,
    i: int,
    n: int,
)
    requires
        0 <= i < n,
        cells[i] == m,
    ensures
        mark_count_to(cells, m, n) >= 1,
    decreases n,
{
    lemma_mark_count_to_bounds(cells, m, n - 1);
    if i < n - 1 {
        lemma_mark_count_to_at_least_one(cells, m, i, n - 1);
    }
}

/// The invariant every reachable `Board` satisfies: nine cells, a real player
/// to move, the ply counter one ahead of the number of marks placed, and the
/// mark counts balanced so that `X` has moved either exactly as often as `O`
/// (X to move) or exactly once more (O to move).
pub open spec fn board_wf(v: BoardView) -> bool {
    &&& v.cells.len() == 9
    &&& is_player(v.player)
    &&& v.turn == 1 + occupied_count(v.cells)
    &&& mark_count(v.cells, ElementShape::X) - mark_count(v.cells, ElementShape::O) == (
    if v.player == ElementShape::X {
        0int
    } else {
        1int
    })
}

/// Numeric consequences of well-formedness that callers need for machine
/// arithmetic: all counts lie in `0..=9` and the ply counter in `1..=10`.
pub proof fn lemma_wf_bounds(v: BoardView)
    requires
        board_wf(v),
    ensures
        0 <= empty_count(v.cells) <= 9,
        0 <= occupied_count(v.cells) <= 9,
        empty_count(v.cells) + occupied_count(v.cells) == 9,
        1 <= v.turn <= 10,
{
    lemma_mark_count_to_partition(v.cells, 9);
    lemma_mark_count_to_bounds(v.cells, ElementShape::Empty, 9);
    lemma_mark_count_to_bounds(v.cells, ElementShape::X, 9);
    lemma_mark_count_to_bounds(v.cells, ElementShape::O, 9);
}

/// The player to move is determined by the parity of the ply counter: `X`
/// moves on the odd plies.
pub proof fn lemma_player_parity(v: BoardView)
    requires
        board_wf(v),
    ensures
        v.player == ElementShape::X <==> v.turn % 2 == 1,
{
}

/// The position after the current player marks cell `i`.
pub open spec fn apply_at(v: BoardView, i: int) -> BoardView {
    BoardView {
        cells: v.cells.update(i, v.player),
        player: opposite_of(v.player),
        turn: v.turn + 1,
    }
}

/// The position before the most recent move, which marked cell `i`.
pub open spec fn undo_at(v: BoardView, i: int) -> BoardView {
    BoardView {
        cells: v.cells.update(i, ElementShape::Empty),
        player: opposite_of(v.player),
        turn: v.turn - 1,
    }
}

/// Applying a move preserves well-formedness.
pub proof fn lemma_apply_at_wf(v: BoardView, i: int)
    requires
        board_wf(v),
        0 <= i < 9,
        v.cells[i] == ElementShape::Empty,
    ensures
        board_wf(apply_at(v, i)),
        empty_count(apply_at(v, i).cells) == empty_count(v.cells) - 1,
{
    lemma_mark_count_to_update(v.cells, ElementShape::Empty, i, v.player, 9);
    lemma_mark_count_to_update(v.cells, ElementShape::X, i, v.player, 9);
    lemma_mark_count_to_update(v.cells, ElementShape::O, i, v.player, 9);
}

/// Undoing the most recent move, which marked cell `i`, preserves
/// well-formedness.
pub proof fn lemma_undo_at_wf(v: BoardView, i: int)
    requires
        board_wf(v),
        0 <= i < 9,
        v.cells[i] == opposite_of(v.player),
    ensures
        board_wf(undo_at(v, i)),
        empty_count(undo_at(v, i).cells) == empty_count(v.cells) + 1,
{
    lemma_mark_count_to_update(v.cells, ElementShape::Empty, i, ElementShape::Empty, 9);
    lemma_mark_count_to_update(v.cells, ElementShape::X, i, ElementShape::Empty, 9);
    lemma_mark_count_to_update(v.cells, ElementShape::O, i, ElementShape::Empty, 9);
}

/// Round-trip law: applying a move to an empty cell and then undoing that very
/// move restores the position exactly — cells, player to move, and ply
/// counter.
pub proof fn lemma_apply_then_undo(v: BoardView, i: int)
    requires
        board_wf(v),
        0 <= i < 9,
        v.cells[i] == ElementShape::Empty,
    ensures
        undo_at(apply_at(v, i), i) == v,
{
    assert(v.cells.update(i, v.player).update(i, ElementShape::Empty) =~= v.cells);
    assert(undo_at(apply_at(v, i), i) =~= v);
}

/// The three cells `a`, `b`, `c` hold the same real mark.
pub open spec fn line_wins(cells: Seq<ElementShape>, a: int, b: int, c: int) -> bool {
    cells[a] != ElementShape::Empty && cells[b] == cells[a] && cells[c] == cells[a]
}

/// The first of the eight three-in-a-row patterns — three rows, then three
/// columns, then the two diagonals — that one mark occupies completely, or
/// `None` if no pattern is complete.
pub open spec fn pattern_winner(cells: Seq<ElementShape>) -> Option<ElementShape> {
    if line_wins(cells, 0, 1, 2) {
        Some(cells[0])
    } else if line_wins(cells, 3, 4, 5) {
        Some(cells[3])
    } else if line_wins(cells, 6, 7, 8) {
        Some(cells[6])
    } else if line_wins(cells, 0, 3, 6) {
        Some(cells[0])
    } else if line_wins(cells, 1, 4, 7) {
        Some(cells[1])
    } else if line_wins(cells, 2, 5, 8) {
        Some(cells[2])
    } else if line_wins(cells, 0, 4, 8) {
        Some(cells[0])
    } else if line_wins(cells, 2, 4, 6) {
        Some(cells[2])
    } else {
        None
    }
}

proof fn lemma_empty_count_zero(cells: Seq<ElementShape>)
    requires
        cells.len() == 9,
    ensures
        (empty_count(cells) == 0) <==> (forall|i: int|
            0 <= i < 9 ==> cells[i] != ElementShape::Empty),
{
    if forall|i: int| 0 <= i < 9 ==> cells[i] != ElementShape::Empty {
        reveal_with_fuel(mark_count_to, 10);
    } else {
        let i = choose|i: int| 0 <= i < 9 && cells[i] == ElementShape::Empty;
        lemma_mark_count_to_at_least_one(cells, ElementShape::Empty, i, 9);
    }
}

/// What `get_all_valid_moves` returns: the empty cell indices, each exactly
/// once, in ascending order.
pub open spec fn valid_moves_of(moves: Seq<usize>, cells: Seq<ElementShape>) -> bool {
    &&& moves.len() == empty_count(cells)
    &&& forall|j: int|
        0 <= j < moves.len() ==> (#[trigger] moves[j]) < 9 && cells[moves[j] as int]
            == ElementShape::Empty
    &&& forall|j: int, k: int| 0 <= j < k < moves.len() ==> moves[j] < moves[k]
    &&& forall|i: int| 0 <= i < 9 && cells[i] == ElementShape::Empty ==> moves.contains(i as usize)
}

/// Whether any continuation of alternating play from this position — `player`
/// moves first — ever completes a three-in-a-row pattern for anyone.  On a
/// full board no move remains, so no win is reachable.
pub open spec fn win_reachable(cells: Seq<ElementShape>, player: ElementShape) -> bool
    decreases empty_count(cells),
        when cells.len() == 9 && is_player(player) via win_reachable_decreases
{
    exists|i: int|
        0 <= i < 9 && cells[i] == ElementShape::Empty && (pattern_winner(
            cells.update(i, player),
        ) is Some || win_reachable(cells.update(i, player), opposite_of(player)))
}

#[via_fn]
proof fn win_reachable_decreases(cells: Seq<ElementShape>, player: ElementShape) {
    assert forall|i: int|
        0 <= i < 9 && cells[i] == ElementShape::Empty && cells.len() == 9 && is_player(
            player,
        ) implies 0 <= empty_count(cells.update(i, player)) < empty_count(cells) by {
        lemma_mark_count_to_update(cells, ElementShape::Empty, i, player, 9);
        lemma_mark_count_to_bounds(cells.update(i, player), ElementShape::Empty, 9);
    }
}

/// Marking empty cell `i` either completes a pattern at once or leads to a
/// position from which a win is still reachable.
pub open spec fn wins_after(cells: Seq<ElementShape>, player: ElementShape, i: int) -> bool {
    ||| pattern_winner(cells.update(i, player)) is Some
    ||| win_reachable(cells.update(i, player), opposite_of(player))
}

/// `win_reachable` stated over `wins_after`, the shape the search code works
/// with.
pub proof fn lemma_win_reachable_iff(cells: Seq<ElementShape>, player: ElementShape)
    requires
        cells.len() == 9,
        is_player(player),
    ensures
        win_reachable(cells, player) <==> (exists|i: int|
            0 <= i < 9 && cells[i] == ElementShape::Empty && wins_after(cells, player, i)),
{
    if win_reachable(cells, player) {
        let i = choose|i: int|
            0 <= i < 9 && cells[i] == ElementShape::Empty && (pattern_winner(
                cells.update(i, player),
            ) is Some || win_reachable(cells.update(i, player), opposite_of(player)));
        assert(wins_after(cells, player, i));
    }
    if exists|i: int| 0 <= i < 9 && cells[i] == ElementShape::Empty && wins_after(cells, player, i) {
        let i = choose|i: int|
            0 <= i < 9 && cells[i] == ElementShape::Empty && wins_after(cells, player, i);
        assert(win_reachable(cells, player));
    }
}

/// The game-theoretic verdict of a position in which `player` is to move and
/// no external verdict has been reached yet: the winning mark under optimal
/// play, or `Empty` if the position is drawn.
///
/// A complete pattern decides at once; with no move left the position is
/// drawn; otherwise `player` takes a winning continuation if one exists,
/// settles for a drawing one if not, and loses when every continuation loses.
pub open spec fn position_value(cells: Seq<ElementShape>, player: ElementShape) -> ElementShape
    decreases empty_count(cells),
        when cells.len() == 9 && is_player(player) via position_value_decreases
{
    match pattern_winner(cells) {
        Some(w) => w,
        None => {
            if empty_count(cells) <= 0 {
                ElementShape::Empty
            } else if exists|i: int|
                0 <= i < 9 && cells[i] == ElementShape::Empty && position_value(
                    cells.update(i, player),
                    opposite_of(player),
                ) == player {
                player
            } else if exists|i: int|
                0 <= i < 9 && cells[i] == ElementShape::Empty && position_value(
                    cells.update(i, player),
                    opposite_of(player),
                ) == ElementShape::Empty {
                ElementShape::Empty
            } else {
                opposite_of(player)
            }
        },
    }
}

#[via_fn]
proof fn position_value_decreases(cells: Seq<ElementShape>, player: ElementShape) {
    assert forall|i: int|
        0 <= i < 9 && cells[i] == ElementShape::Empty && cells.len() == 9 && is_player(
            player,
        ) implies 0 <= empty_count(cells.update(i, player)) < empty_count(cells) by {
        lemma_mark_count_to_update(cells, ElementShape::Empty, i, player, 9);
        lemma_mark_count_to_bounds(cells.update(i, player), ElementShape::Empty, 9);
    }
}

/// In the position `(cells, player)`, moving at `i` is legal and leads — by
/// `position_value`, with the opponent to move next — to the verdict
/// `outcome`.
pub open spec fn can_reach(
    cells: Seq<ElementShape>,
    player: ElementShape,
    i: int,
    outcome: ElementShape,
) -> bool {
    0 <= i < 9 && cells[i] == ElementShape::Empty && position_value(
        cells.update(i, player),
        opposite_of(player),
    ) == outcome
}

/// `position_value` on an undecided, non-full position, stated over
/// `can_reach`, the shape the search code works with.
pub proof fn lemma_position_value_cases(cells: Seq<ElementShape>, player: ElementShape)
    requires
        cells.len() == 9,
        is_player(player),
        pattern_winner(cells) is None,
        empty_count(cells) > 0,
    ensures
        (exists|i: int| can_reach(cells, player, i, player)) ==> position_value(cells, player)
            == player,
        !(exists|i: int| can_reach(cells, player, i, player)) && (exists|i: int|
            can_reach(cells, player, i, ElementShape::Empty)) ==> position_value(cells, player)
            == ElementShape::Empty,
        !(exists|i: int| can_reach(cells, player, i, player)) && !(exists|i: int|
            can_reach(cells, player, i, ElementShape::Empty)) ==> position_value(cells, player)
            == opposite_of(player),
{
    if exists|i: int| can_reach(cells, player, i, player) {
        let i = choose|i: int| can_reach(cells, player, i, player);
        assert(0 <= i < 9 && cells[i] == ElementShape::Empty && position_value(
            cells.update(i, player),
            opposite_of(player),
        ) == player);
    } else {
        assert forall|i: int|
            0 <= i < 9 && cells[i] == ElementShape::Empty implies position_value(
            cells.update(i, player),
            opposite_of(player),
        ) != player by {
            if position_value(cells.update(i, player), opposite_of(player)) == player {
                assert(can_reach(cells, player, i, player));
            }
        }
        if exists|i: int| can_reach(cells, player, i, ElementShape::Empty) {
            let i = choose|i: int| can_reach(cells, player, i, ElementShape::Empty);
            assert(0 <= i < 9 && cells[i] == ElementShape::Empty && position_value(
                cells.update(i, player),
                opposite_of(player),
            ) == ElementShape::Empty);
        } else {
            assert forall|i: int|
                0 <= i < 9 && cells[i] == ElementShape::Empty implies position_value(
                cells.update(i, player),
                opposite_of(player),
            ) != ElementShape::Empty by {
                if position_value(cells.update(i, player), opposite_of(player))
                    == ElementShape::Empty {
                    assert(can_reach(cells, player, i, ElementShape::Empty));
                }
            }
        }
    }
}

/// The verdict the search reports for a single move from the position `v`:
/// the move is made, and the resulting position is valued with the opponent
/// to move.
pub open spec fn move_value(v: BoardView, m: int) -> ElementShape {
    position_value(v.cells.update(m, v.player), opposite_of(v.player))
}

/// In the position `v`, cell `i` may be played now.
pub open spec fn is_legal_move(v: BoardView, i: int) -> bool {
    0 <= i < 9 && v.cells[i] == ElementShape::Empty
}

/// Playing `i` forces a win for the player to move.
pub open spec fn is_winning_move(v: BoardView, i: int) -> bool {
    is_legal_move(v, i) && move_value(v, i) == v.player
}

/// Playing `i` forces a draw.
pub open spec fn is_drawing_move(v: BoardView, i: int) -> bool {
    is_legal_move(v, i) && move_value(v, i) == ElementShape::Empty
}

/// The move-selection policy, in strict priority order over ascending cell
/// index: the smallest winning move; failing that the smallest drawing move;
/// failing that the smallest legal move, with deliberately no preference
/// among losing moves.
pub open spec fn is_best_move(v: BoardView, m: int) -> bool {
    if exists|i: int| is_winning_move(v, i) {
        is_winning_move(v, m) && (forall|j: int| 0 <= j < m ==> !is_winning_move(v, j))
    } else if exists|i: int| is_drawing_move(v, i) {
        is_drawing_move(v, m) && (forall|j: int| 0 <= j < m ==> !is_drawing_move(v, j))
    } else {
        is_legal_move(v, m) && (forall|j: int| 0 <= j < m ==> !is_legal_move(v, j))
    }
}

/// A list of the legal moves reaches a given verdict somewhere iff some cell
/// reaches it: the list covers exactly the empty cells.
proof fn lemma_moves_cover_reach(
    moves: Seq<usize>,
    cells: Seq<ElementShape>,
    player: ElementShape,
    outcome: ElementShape,
)
    requires
        valid_moves_of(moves, cells),
    ensures
        (exists|j: int| 0 <= j < moves.len() && can_reach(cells, player, moves[j] as int, outcome))
            <==> (exists|i: int| can_reach(cells, player, i, outcome)),
{
    if exists|j: int| 0 <= j < moves.len() && can_reach(cells, player, moves[j] as int, outcome) {
        let j = choose|j: int|
            0 <= j < moves.len() && can_reach(cells, player, moves[j] as int, outcome);
        assert(can_reach(cells, player, moves[j] as int, outcome));
    }
    if exists|i: int| can_reach(cells, player, i, outcome) {
        let i = choose|i: int| can_reach(cells, player, i, outcome);
        assert(moves.contains(i as usize));
        let j = choose|j: int| 0 <= j < moves.len() && moves[j] == i as usize;
        assert(can_reach(cells, player, moves[j] as int, outcome));
    }
}

/// An empty cell with a smaller index than the `k`-th legal move appears
/// earlier than position `k` in the ascending move list.
proof fn lemma_earlier_move_index(moves: Seq<usize>, cells: Seq<ElementShape>, k: int, i: int)
    requires
        valid_moves_of(moves, cells),
        0 <= k < moves.len(),
        0 <= i < moves[k] as int,
        cells[i] == ElementShape::Empty,
    ensures
        exists|j: int| 0 <= j < k && moves[j] == i as usize,
{
    assert(moves.contains(i as usize));
    let j = choose|j: int| 0 <= j < moves.len() && moves[j] == i as usize;
    if j > k {
        assert(moves[k] < moves[j]);
    }
    assert(0 <= j < k && moves[j] == i as usize);
}

/// The three-way verdict `get_winner` reports: a complete pattern decides at
/// once; failing that, a position from which nobody can ever complete a
/// pattern is a forced draw (`Some(Empty)`); otherwise the game is still
/// undetermined (`None`).
pub open spec fn game_status(cells: Seq<ElementShape>, player: ElementShape) -> Option<
    ElementShape,
> {
    match pattern_winner(cells) {
        Some(w) => Some(w),
        None => if !win_reachable(cells, player) {
            Some(ElementShape::Empty)
        } else {
            None
        },
    }
}

/// The position reached by replaying `moves` in order from `v`, or the error
/// the first illegal move raises.
pub open spec fn replay(v: BoardView, moves: Seq<usize>) -> Result<BoardView, MoveError>
    decreases moves.len(),
{
    if moves.len() == 0 {
        Ok(v)
    } else if moves[0] > 8 {
        Err(MoveError::OutOfRange)
    } else if v.cells[moves[0] as int] != ElementShape::Empty {
        Err(MoveError::CellOccupied)
    } else {
        replay(apply_at(v, moves[0] as int), moves.drop_first())
    }
}

/// The text an empty cell is printed as: its index in brackets.
pub open spec fn empty_cell_text(i: int) -> Seq<char> {
    if i == 0 {
        "[0]"@
    } else if i == 1 {
        "[1]"@
    } else if i == 2 {
        "[2]"@
    } else if i == 3 {
        "[3]"@
    } else if i == 4 {
        "[4]"@
    } else if i == 5 {
        "[5]"@
    } else if i == 6 {
        "[6]"@
    } else if i == 7 {
        "[7]"@
    } else {
        "[8]"@
    }
}

/// The three characters a cell is printed as: the index in brackets while
/// empty, the mark between spaces once taken.
pub open spec fn cell_text(cells: Seq<ElementShape>, i: int) -> Seq<char> {
    match cells[i] {
        ElementShape::Empty => empty_cell_text(i),
        ElementShape::X => " X "@,
        ElementShape::O => " O "@,
    }
}

/// The printed board: the nine cells in row-major order, a newline after each
/// row of three.
pub open spec fn board_text(cells: Seq<ElementShape>) -> Seq<char> {
    cell_text(cells, 0) + cell_text(cells, 1) + cell_text(cells, 2) + "\n"@ + cell_text(cells, 3)
        + cell_text(cells, 4) + cell_text(cells, 5) + "\n"@ + cell_text(cells, 6) + cell_text(
        cells,
        7,
    ) + cell_text(cells, 8) + "\n"@
}

/// Law: the number of legal moves plus the number of occupied cells is
/// always nine.
pub proof fn lemma_legal_moves_plus_occupied(moves: Seq<usize>, v: BoardView)
    requires
        board_wf(v),
        valid_moves_of(moves, v.cells),
    ensures
        moves.len() + occupied_count(v.cells) == 9,
{
    lemma_wf_bounds(v);
}

/// Law: a full board is decided — once no cell is empty, the verdict is a
/// win or a draw, never undetermined.
pub proof fn lemma_full_board_decided(v: BoardView)
    requires
        board_wf(v),
        empty_count(v.cells) == 0,
    ensures
        game_status(v.cells, v.player) is Some,
{
    if pattern_winner(v.cells) is None {
        lemma_empty_count_zero(v.cells);
        lemma_win_reachable_iff(v.cells, v.player);
    }
}

/// Law: however many cells remain empty, as soon as no mark can still reach
/// a win the verdict is the forced draw, not "undetermined".
pub proof fn lemma_unwinnable_is_drawn(v: BoardView)
    requires
        board_wf(v),
        pattern_winner(v.cells) is None,
        !win_reachable(v.cells, v.player),
    ensures
        game_status(v.cells, v.player) == Some(ElementShape::Empty),
{
}

/// When no continuation can complete a pattern any more, optimal play — and
/// indeed any play — ends in a draw: the minimax value is `Empty`.
proof fn lemma_no_reachable_win_value(cells: Seq<ElementShape>, player: ElementShape)
    requires
        cells.len() == 9,
        is_player(player),
        pattern_winner(cells) is None,
        !win_reachable(cells, player),
    ensures
        position_value(cells, player) == ElementShape::Empty,
    decreases empty_count(cells),
{
    lemma_mark_count_to_bounds(cells, ElementShape::Empty, 9);
    if empty_count(cells) > 0 {
        assert forall|i: int|
            0 <= i < 9 && cells[i] == ElementShape::Empty implies position_value(
            cells.update(i, player),
            opposite_of(player),
        ) == ElementShape::Empty by {
            if wins_after(cells, player, i) {
                lemma_win_reachable_iff(cells, player);
            }
            lemma_mark_count_to_update(cells, ElementShape::Empty, i, player, 9);
            lemma_no_reachable_win_value(cells.update(i, player), opposite_of(player));
        }
        lemma_empty_count_zero(cells);
        let w = choose|i: int| 0 <= i < 9 && cells[i] == ElementShape::Empty;
        assert(can_reach(cells, player, w, ElementShape::Empty));
        assert forall|i: int| !can_reach(cells, player, i, player) by {
            if can_reach(cells, player, i, player) {
                assert(position_value(cells.update(i, player), opposite_of(player))
                    == ElementShape::Empty);
            }
        }
        lemma_position_value_cases(cells, player);
    }
}

/// Law: a verdict is game-theoretically sound — whenever the status of a
/// position is decided, the decision is exactly the value of optimal play
/// from it: the winning mark of a completed pattern, or a draw that no line
/// of play can escape.
pub proof fn lemma_verdict_sound(v: BoardView)
    requires
        board_wf(v),
        game_status(v.cells, v.player) is Some,
    ensures
        game_status(v.cells, v.player) == Some(position_value(v.cells, v.player)),
{
    if pattern_winner(v.cells) is None {
        lemma_no_reachable_win_value(v.cells, v.player);
    }
}

/// Law: the move-selection policy is deterministic — at most one move
/// satisfies it in any position.
pub proof fn lemma_best_move_unique(v: BoardView, m1: int, m2: int)
    requires
        is_best_move(v, m1),
        is_best_move(v, m2),
    ensures
        m1 == m2,
{
}

/// The position a fresh game starts from: nine empty cells, `X` to move,
/// ply counter 1.
pub open spec fn init_view() -> BoardView {
    BoardView {
        cells: Seq::new(9, |i: int| ElementShape::Empty),
        player: ElementShape::X,
        turn: 1,
    }
}

proof fn lemma_init_view_wf()
    ensures
        board_wf(init_view()),
        empty_count(init_view().cells) == 9,
{
    reveal_with_fuel(mark_count_to, 10);
}

/// The game state: the nine cells in row-major order, the player to move, and
/// the one-based ply counter.
#[derive(Debug, Clone, Copy)]
pub struct Board {
    elements: [ElementShape; 9],
    cur_player: ElementShape,
    turn_no: u8,
}

impl View for Board {
    type V = BoardView;

    closed spec fn view(&self) -> BoardView {
        BoardView { cells: self.elements@, player: self.cur_player, turn: self.turn_no as int }
    }
}

impl Default for Board {
    fn default() -> (r: Self)
        ensures
            r@ == init_view(),
            board_wf(r@),
    {
        Self::new()
    }
}

impl Board {
    pub fn new() -> (r: Board)
        ensures
            r@ == init_view(),
            board_wf(r@),
    {
        let b = Board {
            elements: [ElementShape::Empty; 9],
            cur_player: ElementShape::X,
            turn_no: 1,
        };
        proof {
            assert(b.elements@ =~= init_view().cells);
            lemma_init_view_wf();
        }
        b
    }

    pub fn get_cur_player(&self) -> (r: ElementShape)
        ensures
            r == self@.player,
    {
        self.cur_player
    }

    fn cell_str(&self, i: usize) -> (r: &'static str)
        requires
            i < 9,
        ensures
            r@ == cell_text(self@.cells, i as int),
    {
        match self.elements[i] {
            ElementShape::X => " X ",
            ElementShape::O => " O ",
            ElementShape::Empty => match i {
                0 => "[0]",
                1 => "[1]",
                2 => "[2]",
                3 => "[3]",
                4 => "[4]",
                5 => "[5]",
                6 => "[6]",
                7 => "[7]",
                _ => "[8]",
            },
        }
    }

    /// The board rendered as three lines of three cells: an empty cell shows
    /// its index in brackets, a taken cell its mark between spaces.
    pub fn state_str(&self) -> (r: String)
        ensures
            r@ == board_text(self@.cells),
    {
        let mut s = String::new();
        s.append(self.cell_str(0));
        s.append(self.cell_str(1));
        s.append(self.cell_str(2));
        s.append("\n");
        s.append(self.cell_str(3));
        s.append(self.cell_str(4));
        s.append(self.cell_str(5));
        s.append("\n");
        s.append(self.cell_str(6));
        s.append(self.cell_str(7));
        s.append(self.cell_str(8));
        s.append("\n");
        proof {
            assert(s@ =~= board_text(self@.cells));
        }
        s
    }

    /// Marks cell `index` for the current player, hands the turn to the other
    /// player, and advances the ply counter; rejects an index outside the grid
    /// or a cell already taken, leaving the board unchanged.
    pub fn set_element(&mut self, index: usize) -> (r: Result<(), MoveError>)
        requires
            board_wf(old(self)@),
        ensures
            board_wf(final(self)@),
            index > 8 ==> r == Err::<(), MoveError>(MoveError::OutOfRange) && *final(self)
                == *old(self),
            index <= 8 && old(self)@.cells[index as int] != ElementShape::Empty ==> r == Err::<
                (),
                MoveError,
            >(MoveError::CellOccupied) && *final(self) == *old(self),
            index <= 8 && old(self)@.cells[index as int] == ElementShape::Empty ==> r == Ok::<
                (),
                MoveError,
            >(()) && final(self)@ == apply_at(old(self)@, index as int),
    {
        if index > 8 {
            Err(MoveError::OutOfRange)
        } else if self.elements[index] != ElementShape::Empty {
            Err(MoveError::CellOccupied)
        } else {
            proof {
                lemma_wf_bounds(old(self)@);
                lemma_apply_at_wf(old(self)@, index as int);
            }
            let mover = self.cur_player;
            self.elements[index] = mover;
            self.switch_player();
            Ok(())
        }
    }

    fn switch_player(&mut self)
        requires
            old(self).turn_no < 255,
        ensures
            final(self).elements == old(self).elements,
            final(self).cur_player == opposite_of(old(self).cur_player),
            final(self).turn_no == old(self).turn_no + 1,
    {
        match self.cur_player {
            ElementShape::X => self.cur_player = ElementShape::O,
            ElementShape::O => self.cur_player = ElementShape::X,
            _ => {},
        }
        self.turn_no = self.turn_no + 1;
    }

    /// Reverses exactly one prior `set_element` on cell `last_move`: clears the
    /// cell, hands the turn back, and steps the ply counter back.  The caller
    /// must undo the most recently applied move, whose cell therefore holds
    /// the mark of the player who is not to move.
    pub fn undo_move(&mut self, last_move: usize)
        requires
            board_wf(old(self)@),
            last_move < 9,
            old(self)@.cells[last_move as int] == opposite_of(old(self)@.player),
        ensures
            board_wf(final(self)@),
            final(self)@ == undo_at(old(self)@, last_move as int),
    {
        proof {
            lemma_wf_bounds(old(self)@);
            lemma_undo_at_wf(old(self)@, last_move as int);
            lemma_mark_count_to_at_least_one(
                old(self)@.cells,
                opposite_of(old(self)@.player),
                last_move as int,
                9,
            );
        }
        self.elements[last_move] = ElementShape::Empty;
        self.switch_player();
        self.turn_no = self.turn_no - 2;
    }

    /// Checks the eight three-in-a-row patterns against the cells, in
    /// declaration order — rows, then columns, then diagonals — and returns
    /// the mark of the first complete one.
    pub fn winner_pattern_check(&self) -> (r: Option<ElementShape>)
        ensures
            r == pattern_winner(self@.cells),
    {
        let e = &self.elements;
        if e[0] != ElementShape::Empty && e[1] == e[0] && e[2] == e[0] {
            Some(e[0])
        } else if e[3] != ElementShape::Empty && e[4] == e[3] && e[5] == e[3] {
            Some(e[3])
        } else if e[6] != ElementShape::Empty && e[7] == e[6] && e[8] == e[6] {
            Some(e[6])
        } else if e[0] != ElementShape::Empty && e[3] == e[0] && e[6] == e[0] {
            Some(e[0])
        } else if e[1] != ElementShape::Empty && e[4] == e[1] && e[7] == e[1] {
            Some(e[1])
        } else if e[2] != ElementShape::Empty && e[5] == e[2] && e[8] == e[2] {
            Some(e[2])
        } else if e[0] != ElementShape::Empty && e[4] == e[0] && e[8] == e[0] {
            Some(e[0])
        } else if e[2] != ElementShape::Empty && e[4] == e[2] && e[6] == e[2] {
            Some(e[2])
        } else {
            None
        }
    }

    /// True iff no cell is empty any more.
    pub fn is_full(&self) -> (r: bool)
        ensures
            r == (empty_count(self@.cells) == 0),
    {
        let mut i: usize = 0;
        let mut full = true;
        while i < 9
            invariant
                i <= 9,
                full == (forall|j: int| 0 <= j < i ==> self@.cells[j] != ElementShape::Empty),
            decreases 9 - i,
        {
            if self.elements[i] == ElementShape::Empty {
                full = false;
            }
            i = i + 1;
        }
        proof {
            lemma_empty_count_zero(self@.cells);
        }
        full
    }

    /// The ordered list (ascending index) of the cells a move may target now:
    /// exactly the empty ones.
    pub fn get_all_valid_moves(&self) -> (r: Vec<usize>)
        ensures
            valid_moves_of(r@, self@.cells),
    {
        let mut moves: Vec<usize> = Vec::new();
        let mut i: usize = 0;
        while i < 9
            invariant
                i <= 9,
                moves@.len() == mark_count_to(self@.cells, ElementShape::Empty, i as int),
                forall|j: int|
                    0 <= j < moves@.len() ==> (#[trigger] moves@[j]) < i && self@.cells[moves@[j] as int]
                        == ElementShape::Empty,
                forall|j: int, k: int| 0 <= j < k < moves@.len() ==> moves@[j] < moves@[k],
                forall|c: int|
                    0 <= c < i && self@.cells[c] == ElementShape::Empty ==> moves@.contains(
                        c as usize,
                    ),
            decreases 9 - i,
        {
            if self.elements[i] == ElementShape::Empty {
                let ghost pre = moves@;
                moves.push(i);
                proof {
                    assert forall|c: int|
                        0 <= c < i + 1 && self@.cells[c] == ElementShape::Empty implies moves@
                        .contains(c as usize) by {
                        if c < i {
                            let j = choose|j: int| 0 <= j < pre.len() && pre[j] == c as usize;
                            assert(moves@[j] == c as usize);
                        } else {
                            assert(moves@[pre.len() as int] == i);
                        }
                    }
                }
            }
            i = i + 1;
        }
        moves
    }

    /// Replays `move_seq` from a fresh board via `set_element`, stopping at
    /// the first illegal move with its error; used to reconstruct mid-game
    /// positions.
    #[verifier::loop_isolation(false)]
    pub fn from_move_sequence(move_seq: &Vec<usize>) -> (r: Result<Board, MoveError>)
        ensures
            (match (r, replay(init_view(), move_seq@)) {
                (Ok(b), Ok(v)) => b@ == v && board_wf(v),
                (Err(e1), Err(e2)) => e1 == e2,
                _ => false,
            }),
    {
        let mut board = Board::new();
        proof {
            assert(move_seq@.skip(0) =~= move_seq@);
        }
        let mut k: usize = 0;
        while k < move_seq.len()
            invariant
                board_wf(board@),
                k <= move_seq.len(),
                replay(init_view(), move_seq@) == replay(board@, move_seq@.skip(k as int)),
            decreases move_seq.len() - k,
        {
            proof {
                assert(move_seq@.skip(k as int)[0] == move_seq@[k as int]);
                assert(move_seq@.skip(k as int).drop_first() =~= move_seq@.skip(k as int + 1));
            }
            match board.set_element(move_seq[k]) {
                Ok(_) => {},
                Err(e) => {
                    return Err(e);
                },
            }
            k = k + 1;
        }
        proof {
            assert(move_seq@.skip(move_seq@.len() as int) =~= Seq::<usize>::empty());
        }
        Ok(board)
    }

    /// Marks cell `index` as `set_element` does, and on success reports the
    /// verdict of the resulting position: `Ok(Some(mark))` if the move ended
    /// the game with a pattern, `Ok(Some(Empty))` if the position is now a
    /// forced draw, `Ok(None)` while it is undetermined.
    pub fn make_move(&mut self, index: usize) -> (r: Result<Option<ElementShape>, MoveError>)
        requires
            board_wf(old(self)@),
        ensures
            board_wf(final(self)@),
            index > 8 ==> r == Err::<Option<ElementShape>, MoveError>(MoveError::OutOfRange)
                && *final(self) == *old(self),
            index <= 8 && old(self)@.cells[index as int] != ElementShape::Empty ==> r == Err::<
                Option<ElementShape>,
                MoveError,
            >(MoveError::CellOccupied) && *final(self) == *old(self),
            index <= 8 && old(self)@.cells[index as int] == ElementShape::Empty ==> final(self)@
                == apply_at(old(self)@, index as int) && r == Ok::<Option<ElementShape>, MoveError>(
                game_status(final(self)@.cells, final(self)@.player),
            ),
    {
        match self.set_element(index) {
            Err(e) => Err(e),
            Ok(_) => Ok(self.get_winner()),
        }
    }

    /// The verdict of the current position: the mark of the first complete
    /// pattern, `Some(Empty)` for a position from which no win is reachable
    /// any more (a forced draw), and `None` while the game is undetermined.
    pub fn get_winner(&self) -> (r: Option<ElementShape>)
        requires
            board_wf(self@),
        ensures
            r == game_status(self@.cells, self@.player),
    {
        match self.winner_pattern_check() {
            Some(w) => Some(w),
            None => {
                if !self.winning_is_possible() {
                    Some(ElementShape::Empty)
                } else {
                    None
                }
            },
        }
    }

    /// Whether any continuation of play from this position can still complete
    /// a three-in-a-row pattern for anyone.  Explores a scratch copy; the
    /// board itself is untouched.
    pub fn winning_is_possible(&self) -> (r: bool)
        requires
            board_wf(self@),
        ensures
            r == win_reachable(self@.cells, self@.player),
    {
        let mut board_clone = self.clone();
        board_clone.winning_is_possible_helper()
    }

    /// Backtracking worker for `winning_is_possible`: tries every legal move,
    /// applies it, checks for a fresh pattern, recurses, and undoes the move
    /// before trying the next.  A `true` result may leave the scratch board
    /// mid-exploration; a `false` result restores it exactly.
    #[verifier::loop_isolation(false)]
    fn winning_is_possible_helper(&mut self) -> (r: bool)
        requires
            board_wf(old(self)@),
        ensures
            board_wf(final(self)@),
            r == win_reachable(old(self)@.cells, old(self)@.player),
            !r ==> final(self)@ == old(self)@,
        decreases empty_count(old(self)@.cells),
    {
        let ghost pre = self@;
        let moves = self.get_all_valid_moves();
        let mut k: usize = 0;
        while k < moves.len()
            invariant
                board_wf(pre),
                self@ == pre,
                valid_moves_of(moves@, pre.cells),
                k <= moves.len(),
                forall|j: int| 0 <= j < k ==> !wins_after(pre.cells, pre.player, moves@[j] as int),
            decreases moves.len() - k,
        {
            let m = moves[k];
            self.set_element(m).unwrap();
            proof {
                lemma_apply_at_wf(pre, m as int);
                lemma_wf_bounds(self@);
            }
            let pattern_won = match self.winner_pattern_check() {
                Some(_) => true,
                None => false,
            };
            if pattern_won || self.winning_is_possible_helper() {
                proof {
                    assert(wins_after(pre.cells, pre.player, m as int));
                    lemma_win_reachable_iff(pre.cells, pre.player);
                }
                return true;
            }
            self.undo_move(m);
            proof {
                lemma_apply_then_undo(pre, m as int);
            }
            k = k + 1;
        }
        proof {
            assert forall|i: int|
                0 <= i < 9 && pre.cells[i] == ElementShape::Empty implies !wins_after(
                pre.cells,
                pre.player,
                i,
            ) by {
                assert(moves@.contains(i as usize));
                let j = choose|j: int| 0 <= j < moves@.len() && moves@[j] == i as usize;
                assert(!wins_after(pre.cells, pre.player, moves@[j] as int));
            }
            lemma_win_reachable_iff(pre.cells, pre.player);
        }
        false
    }

    /// Classifies the single move `move_to_make` from the current position:
    /// the mark that wins under optimal play from then on, or `Empty` for a
    /// forced draw.  Explores a scratch copy; the board itself is untouched.
    pub fn evaluate_move(&self, move_to_make: usize) -> (r: ElementShape)
        requires
            board_wf(self@),
            move_to_make < 9,
            self@.cells[move_to_make as int] == ElementShape::Empty,
        ensures
            r == move_value(self@, move_to_make as int),
    {
        let mut copy_board = self.clone();
        copy_board.evaluate_move_helper(move_to_make)
    }

    /// Minimax worker: applies `move_to_make` and classifies the resulting
    /// position exhaustively.  A completed pattern decides at once; a full
    /// board is a draw; otherwise every reply is classified recursively
    /// (apply, recurse, undo), and the player now to move takes a win if one
    /// reply offers it, a draw failing that, and loses only if every reply
    /// loses.  The move itself is left applied for the caller to undo.
    #[verifier::loop_isolation(false)]
    fn evaluate_move_helper(&mut self, move_to_make: usize) -> (r: ElementShape)
        requires
            board_wf(old(self)@),
            move_to_make < 9,
            old(self)@.cells[move_to_make as int] == ElementShape::Empty,
        ensures
            board_wf(final(self)@),
            final(self)@ == apply_at(old(self)@, move_to_make as int),
            r == move_value(old(self)@, move_to_make as int),
        decreases empty_count(old(self)@.cells),
    {
        self.set_element(move_to_make).unwrap();
        proof {
            lemma_apply_at_wf(old(self)@, move_to_make as int);
            lemma_wf_bounds(self@);
        }
        let ghost post = self@;
        if let Some(w) = self.winner_pattern_check() {
            return w;
        }
        let moves = self.get_all_valid_moves();
        if moves.len() == 0 {
            return ElementShape::Empty;
        }
        let cur = self.get_cur_player();
        let mut opp_can_win = false;
        let mut opp_can_draw = false;
        let mut k: usize = 0;
        while k < moves.len()
            invariant
                self@ == post,
                k <= moves.len(),
                opp_can_win == (exists|j: int|
                    0 <= j < k && can_reach(post.cells, post.player, moves@[j] as int, post.player)),
                opp_can_draw == (exists|j: int|
                    0 <= j < k && can_reach(
                        post.cells,
                        post.player,
                        moves@[j] as int,
                        ElementShape::Empty,
                    )),
            decreases moves.len() - k,
        {
            let valid_move = moves[k];
            let outcome = self.evaluate_move_helper(valid_move);
            self.undo_move(valid_move);
            proof {
                lemma_apply_then_undo(post, valid_move as int);
            }
            if outcome == cur {
                opp_can_win = true;
                proof {
                    assert(can_reach(post.cells, post.player, moves@[k as int] as int, post.player));
                }
            } else if outcome == ElementShape::Empty {
                opp_can_draw = true;
                proof {
                    assert(can_reach(
                        post.cells,
                        post.player,
                        moves@[k as int] as int,
                        ElementShape::Empty,
                    ));
                }
            }
            k = k + 1;
        }
        proof {
            lemma_moves_cover_reach(moves@, post.cells, post.player, post.player);
            lemma_moves_cover_reach(moves@, post.cells, post.player, ElementShape::Empty);
            lemma_position_value_cases(post.cells, post.player);
        }
        if opp_can_win {
            cur
        } else if opp_can_draw {
            ElementShape::Empty
        } else {
            cur.opposite()
        }
    }

    /// The move the policy picks, over the legal moves in ascending index
    /// order: the first whose evaluation wins for the current player; failing
    /// that the first whose evaluation is a draw; failing that the first
    /// legal move — losing slower is deliberately not preferred.
    #[verifier::loop_isolation(false)]
    pub fn calculate_best_move(&self) -> (r: usize)
        requires
            board_wf(self@),
            empty_count(self@.cells) > 0,
        ensures
            is_best_move(self@, r as int),
    {
        let moves = self.get_all_valid_moves();
        let cur = self.get_cur_player();
        let mut outcomes: Vec<ElementShape> = Vec::new();
        let mut k: usize = 0;
        while k < moves.len()
            invariant
                k <= moves.len(),
                outcomes@.len() == k,
                forall|j: int| 0 <= j < k ==> outcomes@[j] == move_value(self@, moves@[j] as int),
                forall|j: int| 0 <= j < k ==> !is_winning_move(self@, moves@[j] as int),
            decreases moves.len() - k,
        {
            let valid_move = moves[k];
            let move_outcome = self.evaluate_move(valid_move);
            if move_outcome == cur {
                proof {
                    assert(is_winning_move(self@, valid_move as int));
                    assert forall|j: int| 0 <= j < valid_move as int implies !is_winning_move(
                        self@,
                        j,
                    ) by {
                        if is_winning_move(self@, j) {
                            lemma_earlier_move_index(moves@, self@.cells, k as int, j);
                        }
                    }
                }
                return valid_move;
            }
            outcomes.push(move_outcome);
            k = k + 1;
        }
        proof {
            assert forall|i: int| !is_winning_move(self@, i) by {
                if is_winning_move(self@, i) {
                    assert(moves@.contains(i as usize));
                    let j = choose|j: int| 0 <= j < moves@.len() && moves@[j] == i as usize;
                    assert(!is_winning_move(self@, moves@[j] as int));
                }
            }
        }
        let mut k2: usize = 0;
        while k2 < moves.len()
            invariant
                k2 <= moves.len(),
                forall|j: int| 0 <= j < k2 ==> !is_drawing_move(self@, moves@[j] as int),
            decreases moves.len() - k2,
        {
            if outcomes[k2] == ElementShape::Empty {
                proof {
                    assert(is_drawing_move(self@, moves@[k2 as int] as int));
                    assert forall|j: int|
                        0 <= j < moves@[k2 as int] as int implies !is_drawing_move(self@, j) by {
                        if is_drawing_move(self@, j) {
                            lemma_earlier_move_index(moves@, self@.cells, k2 as int, j);
                        }
                    }
                }
                return moves[k2];
            }
            k2 = k2 + 1;
        }
        proof {
            assert forall|i: int| !is_drawing_move(self@, i) by {
                if is_drawing_move(self@, i) {
                    assert(moves@.contains(i as usize));
                    let j = choose|j: int| 0 <= j < moves@.len() && moves@[j] == i as usize;
                    assert(!is_drawing_move(self@, moves@[j] as int));
                }
            }
            assert(is_legal_move(self@, moves@[0] as int));
            assert forall|j: int| 0 <= j < moves@[0] as int implies !is_legal_move(self@, j) by {
                if is_legal_move(self@, j) {
                    lemma_earlier_move_index(moves@, self@.cells, 0, j);
                }
            }
        }
        moves[0]
    }

    /// Computes the policy's move and applies it; from a position with at
    /// least one empty cell this cannot fail.
    pub fn play_computer_move(&mut self)
        requires
            board_wf(old(self)@),
            empty_count(old(self)@.cells) > 0,
        ensures
            board_wf(final(self)@),
            (exists|m: int|
                is_best_move(old(self)@, m) && final(self)@ == apply_at(old(self)@, m)),
    {
        let next_move = self.calculate_best_move();
        let _ = self.set_element(next_move);
        proof {
            assert(is_best_move(old(self)@, next_move as int) && final(self)@ == apply_at(
                old(self)@,
                next_move as int,
            ));
        }
    }
}

} // verus!
